//! What the user prefers on screen.

use vstd::prelude::*;
use crate::i18n::Lang;
use crate::theme::Theme;

verus! {

/// The three sizes of text.
#[derive(Clone, Copy, PartialEq, Eq, Structural, Debug)]
pub enum Scale {
    Small,
    Normal,
    Large,
}

/// The name of a text size in the dictionaries.
pub open spec fn scale_key(scale: Scale) -> Seq<char> {
    match scale {
        Scale::Small => "scale_small"@,
        Scale::Normal => "scale_normal"@,
        Scale::Large => "scale_large"@,
    }
}

impl Scale {
    pub const ALL: [Scale; 3] = [Scale::Small, Scale::Normal, Scale::Large];

    /// How large the text is, in quarters of its smallest size.
    pub fn factor(self) -> (quarters: u8)
        ensures
            quarters == match self {
                Scale::Small => 4u8,
                Scale::Normal => 5,
                Scale::Large => 6,
            },
    {
        match self {
            Scale::Small => 4,
            Scale::Normal => 5,
            Scale::Large => 6,
        }
    }

    /// The name of the size in the dictionaries.
    pub fn key(self) -> (r: &'static str)
        ensures
            r@ == scale_key(self),
    {
        match self {
            Scale::Small => "scale_small",
            Scale::Normal => "scale_normal",
            Scale::Large => "scale_large",
        }
    }
}

/// What the user prefers on screen. Nothing here is about a job.
#[derive(Clone, Copy, PartialEq, Eq, Structural, Debug)]
pub struct Prefs {
    pub lang: Lang,
    pub scale: Scale,
    pub help_dismissed: bool,
    pub theme: Theme,
    pub live_view: bool,
    pub sound_on_finish: bool,
}

impl Default for Prefs {
    fn default() -> (r: Self)
        ensures
            r == (Prefs {
                lang: Lang::En,
                scale: Scale::Normal,
                help_dismissed: false,
                theme: Theme::Oxide,
                live_view: false,
                sound_on_finish: false,
            }),
    {
        Prefs {
            lang: Lang::En,
            scale: Scale::Normal,
            help_dismissed: false,
            theme: Theme::Oxide,
            live_view: false,
            sound_on_finish: false,
        }
    }
}

/// A larger scale is larger, by a quarter each, and has a key of its own; and
/// the first time everything is as the program comes.
pub proof fn law_scales_grow_by_quarters(
    small: u8,
    normal: u8,
    large: u8,
    start: Prefs,
)
    requires
        call_ensures(Scale::factor, (Scale::Small,), small),
        call_ensures(Scale::factor, (Scale::Normal,), normal),
        call_ensures(Scale::factor, (Scale::Large,), large),
        call_ensures(<Prefs as Default>::default, (), start),
    ensures
        small == 4,
        normal == small + 1,
        large == normal + 1,
        start.lang == Lang::En,
        start.scale == Scale::Normal,
        start.theme == Theme::Oxide,
        !start.help_dismissed,
        !start.live_view,
        !start.sound_on_finish,
{
}

} // verus!
