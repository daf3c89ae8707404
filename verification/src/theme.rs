//! The visual worlds that the application can wear.

use vstd::prelude::*;
use crate::i18n::Lang;

verus! {

/// Which visual world the application wears.
#[derive(Clone, Copy, PartialEq, Eq, Structural, Debug)]
pub enum Theme {
    Oxide,
    Matrix,
    Terminator,
    Kawaii,
    Fallout,
    Cyberpunk,
}

impl Default for Theme {
    fn default() -> (r: Self)
        ensures
            r == Theme::Oxide,
    {
        Theme::Oxide
    }
}

/// How an edge is drawn.
#[derive(Clone, Copy, PartialEq, Eq, Structural, Debug)]
pub enum FrameStyle {
    /// One hard rule.
    Hard,
    /// Ticks at the corners only.
    Bracket,
    /// Rounded and heavier.
    Soft,
    /// A second rule inside the first.
    Bezel,
    /// One corner cut away.
    Chamfer,
}

/// A range of hues in degrees, both ends included.
#[derive(Clone, Copy, PartialEq, Eq, Structural, Debug)]
pub struct HueBand {
    pub low: u32,
    pub high: u32,
}

/// How parts are coloured on the sheet. A world built from one colour cannot
/// hold three unrelated hues; one that spans the circle can.
#[derive(Clone, Copy, PartialEq, Eq, Structural, Debug)]
pub enum CanvasStyle {
    /// Cutting, drilling and etching as three hues, and every other layer in a
    /// hue of its own. None lies in the bands that the theme keeps for what it
    /// says itself, so no outline ever says "press this" or "this is wrong". The
    /// saturation and the value, in percent, are those of the other layers.
    Hue { reserved: HueBand, also: Option<HueBand>, saturation: u32, value: u32 },
    /// Layers as brightnesses of one colour.
    Mono { red: u8, green: u8, blue: u8 },
}

/// How a theme colours parts.
pub open spec fn theme_canvas(theme: Theme) -> CanvasStyle {
    match theme {
        Theme::Oxide => CanvasStyle::Hue {
            reserved: HueBand { low: 4, high: 40 },
            also: None,
            saturation: 78,
            value: 100,
        },
        Theme::Matrix => CanvasStyle::Mono { red: 0x00, green: 0xff, blue: 0x41 },
        Theme::Terminator => CanvasStyle::Mono { red: 0xff, green: 0x2d, blue: 0x16 },
        Theme::Kawaii => CanvasStyle::Hue {
            reserved: HueBand { low: 325, high: 350 },
            also: None,
            saturation: 75,
            value: 62,
        },
        Theme::Fallout => CanvasStyle::Mono { red: 0xff, green: 0xc9, blue: 0x4a },
        Theme::Cyberpunk => CanvasStyle::Hue {
            reserved: HueBand { low: 40, high: 88 },
            also: Some(HueBand { low: 338, high: 355 }),
            saturation: 85,
            value: 100,
        },
    }
}

/// A theme's name in the picker.
pub open spec fn theme_label(theme: Theme) -> Seq<char> {
    match theme {
        Theme::Oxide => "NESTOR"@,
        Theme::Matrix => "MATRIX"@,
        Theme::Terminator => "TERMINATOR"@,
        Theme::Kawaii => "KAWAII"@,
        Theme::Fallout => "FALLOUT"@,
        Theme::Cyberpunk => "CYBERPUNK"@,
    }
}

/// A theme's place in the picker.
pub open spec fn theme_place(theme: Theme) -> usize {
    match theme {
        Theme::Oxide => 0,
        Theme::Matrix => 1,
        Theme::Terminator => 2,
        Theme::Kawaii => 3,
        Theme::Fallout => 4,
        Theme::Cyberpunk => 5,
    }
}

/// The theme at a place of the picker; places beyond the last count on from the
/// first.
pub open spec fn theme_at(slot: usize) -> Theme {
    match slot % 6 {
        0 => Theme::Oxide,
        1 => Theme::Matrix,
        2 => Theme::Terminator,
        3 => Theme::Kawaii,
        4 => Theme::Fallout,
        _ => Theme::Cyberpunk,
    }
}

impl Theme {
    /// Every theme, in the order of the picker.
    pub const ALL: [Theme; 6] = [
        Theme::Oxide,
        Theme::Matrix,
        Theme::Terminator,
        Theme::Kawaii,
        Theme::Fallout,
        Theme::Cyberpunk,
    ];

    /// The theme's name in the picker, the same in every language.
    pub fn label(self) -> (r: &'static str)
        ensures
            r@ == theme_label(self),
    {
        match self {
            Theme::Oxide => "NESTOR",
            Theme::Matrix => "MATRIX",
            Theme::Terminator => "TERMINATOR",
            Theme::Kawaii => "KAWAII",
            Theme::Fallout => "FALLOUT",
            Theme::Cyberpunk => "CYBERPUNK",
        }
    }

    /// How the theme draws its edges.
    pub fn frame(self) -> (r: FrameStyle)
        ensures
            r == match self {
                Theme::Oxide => FrameStyle::Hard,
                Theme::Matrix => FrameStyle::Hard,
                Theme::Terminator => FrameStyle::Bracket,
                Theme::Kawaii => FrameStyle::Soft,
                Theme::Fallout => FrameStyle::Bezel,
                Theme::Cyberpunk => FrameStyle::Chamfer,
            },
    {
        match self {
            Theme::Oxide => FrameStyle::Hard,
            Theme::Matrix => FrameStyle::Hard,
            Theme::Terminator => FrameStyle::Bracket,
            Theme::Kawaii => FrameStyle::Soft,
            Theme::Fallout => FrameStyle::Bezel,
            Theme::Cyberpunk => FrameStyle::Chamfer,
        }
    }

    /// How the theme colours parts on the sheet.
    pub fn canvas(self) -> (r: CanvasStyle)
        ensures
            r == theme_canvas(self),
    {
        match self {
            Theme::Oxide => CanvasStyle::Hue {
                reserved: HueBand { low: 4, high: 40 },
                also: None,
                saturation: 78,
                value: 100,
            },
            Theme::Matrix => CanvasStyle::Mono { red: 0x00, green: 0xff, blue: 0x41 },
            Theme::Terminator => CanvasStyle::Mono { red: 0xff, green: 0x2d, blue: 0x16 },
            Theme::Kawaii => CanvasStyle::Hue {
                reserved: HueBand { low: 325, high: 350 },
                also: None,
                saturation: 75,
                value: 62,
            },
            Theme::Fallout => CanvasStyle::Mono { red: 0xff, green: 0xc9, blue: 0x4a },
            Theme::Cyberpunk => CanvasStyle::Hue {
                reserved: HueBand { low: 40, high: 88 },
                also: Some(HueBand { low: 338, high: 355 }),
                saturation: 85,
                value: 100,
            },
        }
    }

    /// The names of the theme's plain and bold typefaces. A face that comes in
    /// one weight is both.
    pub fn fonts(self) -> (r: (&'static str, &'static str))
        ensures
            (r.0@, r.1@) == match self {
                Theme::Oxide => ("jetbrains"@, "jetbrains_bold"@),
                Theme::Matrix => ("plex"@, "plex_bold"@),
                Theme::Terminator => ("chakra"@, "chakra_bold"@),
                Theme::Kawaii => ("nunito"@, "nunito"@),
                Theme::Fallout => ("overpass"@, "overpass"@),
                Theme::Cyberpunk => ("saira"@, "saira_bold"@),
            },
    {
        match self {
            Theme::Oxide => ("jetbrains", "jetbrains_bold"),
            Theme::Matrix => ("plex", "plex_bold"),
            Theme::Terminator => ("chakra", "chakra_bold"),
            Theme::Kawaii => ("nunito", "nunito"),
            Theme::Fallout => ("overpass", "overpass"),
            Theme::Cyberpunk => ("saira", "saira_bold"),
        }
    }
}

impl FrameStyle {
    /// The radius of the corners, in points.
    pub fn corner_radius(self) -> (r: u8)
        ensures
            r == if self == FrameStyle::Soft {
                8u8
            } else {
                0
            },
    {
        if self == FrameStyle::Soft {
            8
        } else {
            0
        }
    }

    /// The weight of an ordinary edge, in points.
    pub fn stroke_width(self) -> (r: u8)
        ensures
            r == if self == FrameStyle::Soft {
                2u8
            } else {
                1
            },
    {
        if self == FrameStyle::Soft {
            2
        } else {
            1
        }
    }
}

/// The theme that a slot holds.
pub fn active(slot: usize) -> (r: Theme)
    ensures
        r == theme_at(slot),
{
    Theme::ALL[slot % 6]
}

/// What a slot holds for a theme.
pub fn set(theme: Theme) -> (slot: usize)
    ensures
        slot == theme_place(theme),
        slot < 6,
{
    match theme {
        Theme::Oxide => 0,
        Theme::Matrix => 1,
        Theme::Terminator => 2,
        Theme::Kawaii => 3,
        Theme::Fallout => 4,
        Theme::Cyberpunk => 5,
    }
}

/// The theme that is set is the one that is active.
pub proof fn law_the_theme_set_is_active(theme: Theme)
    ensures
        theme_at(theme_place(theme)) == theme,
        Theme::ALL[theme_place(theme) as int] == theme,
{
}

/// The kind of system a program runs on, as far as its fonts go.
#[derive(Clone, Copy, PartialEq, Eq, Structural, Debug)]
pub enum Platform {
    Windows,
    MacOs,
    Other,
}

/// Where a system font with a language's script may be, the best first.
pub open spec fn cjk_places(platform: Platform, lang: Lang) -> Seq<Seq<char>> {
    match platform {
        Platform::Windows => match lang {
            Lang::Ja => seq![
                "C:\\Windows\\Fonts\\YuGothM.ttc"@,
                "C:\\Windows\\Fonts\\meiryo.ttc"@,
                "C:\\Windows\\Fonts\\msgothic.ttc"@,
            ],
            Lang::Ko => seq![
                "C:\\Windows\\Fonts\\malgun.ttf"@,
                "C:\\Windows\\Fonts\\gulim.ttc"@,
                "C:\\Windows\\Fonts\\batang.ttc"@,
            ],
            _ => seq![
                "C:\\Windows\\Fonts\\msyh.ttc"@,
                "C:\\Windows\\Fonts\\simhei.ttf"@,
                "C:\\Windows\\Fonts\\simsun.ttc"@,
            ],
        },
        Platform::MacOs => match lang {
            Lang::Ja => seq![
                "/System/Library/Fonts/Hiragino Sans GB.ttc"@,
                "/Library/Fonts/Arial Unicode.ttf"@,
            ],
            Lang::Ko => seq![
                "/System/Library/Fonts/AppleSDGothicNeo.ttc"@,
                "/System/Library/Fonts/Supplemental/AppleGothic.ttf"@,
                "/Library/Fonts/Arial Unicode.ttf"@,
            ],
            _ => seq![
                "/System/Library/Fonts/PingFang.ttc"@,
                "/System/Library/Fonts/Hiragino Sans GB.ttc"@,
                "/Library/Fonts/Arial Unicode.ttf"@,
            ],
        },
        Platform::Other => seq![
            "/usr/share/fonts/opentype/noto/NotoSansCJK-Regular.ttc"@,
            "/usr/share/fonts/truetype/noto/NotoSansCJK-Regular.ttc"@,
            "/usr/share/fonts/noto-cjk/NotoSansCJK-Regular.ttc"@,
            "/usr/share/fonts/opentype/noto/NotoSerifCJK-Regular.ttc"@,
        ],
    }
}

/// What a list of fixed texts holds.
pub open spec fn literals(texts: Seq<&'static str>) -> Seq<Seq<char>> {
    texts.map_values(|t: &'static str| t@)
}

/// Where a system font with a language's script may be, the best first.
pub fn cjk_paths(platform: Platform, lang: Lang) -> (r: Vec<&'static str>)
    ensures
        literals(r@) == cjk_places(platform, lang),
{
    let r: Vec<&'static str> = match platform {
        Platform::Windows => match lang {
            Lang::Ja => vec![
                "C:\\Windows\\Fonts\\YuGothM.ttc",
                "C:\\Windows\\Fonts\\meiryo.ttc",
                "C:\\Windows\\Fonts\\msgothic.ttc",
            ],
            Lang::Ko => vec![
                "C:\\Windows\\Fonts\\malgun.ttf",
                "C:\\Windows\\Fonts\\gulim.ttc",
                "C:\\Windows\\Fonts\\batang.ttc",
            ],
            _ => vec![
                "C:\\Windows\\Fonts\\msyh.ttc",
                "C:\\Windows\\Fonts\\simhei.ttf",
                "C:\\Windows\\Fonts\\simsun.ttc",
            ],
        },
        Platform::MacOs => match lang {
            Lang::Ja => vec![
                "/System/Library/Fonts/Hiragino Sans GB.ttc",
                "/Library/Fonts/Arial Unicode.ttf",
            ],
            Lang::Ko => vec![
                "/System/Library/Fonts/AppleSDGothicNeo.ttc",
                "/System/Library/Fonts/Supplemental/AppleGothic.ttf",
                "/Library/Fonts/Arial Unicode.ttf",
            ],
            _ => vec![
                "/System/Library/Fonts/PingFang.ttc",
                "/System/Library/Fonts/Hiragino Sans GB.ttc",
                "/Library/Fonts/Arial Unicode.ttf",
            ],
        },
        Platform::Other => vec![
            "/usr/share/fonts/opentype/noto/NotoSansCJK-Regular.ttc",
            "/usr/share/fonts/truetype/noto/NotoSansCJK-Regular.ttc",
            "/usr/share/fonts/noto-cjk/NotoSansCJK-Regular.ttc",
            "/usr/share/fonts/opentype/noto/NotoSerifCJK-Regular.ttc",
        ],
    };
    assert(literals(r@) =~= cjk_places(platform, lang));
    r
}

/// Whether a language needs a font of its own from the system.
pub open spec fn is_cjk(lang: Lang) -> bool {
    lang == Lang::Ja || lang == Lang::Ko || lang == Lang::Zh
}

/// The languages whose fonts are loaded from the system, in the order in which
/// a character is looked up: the language on display first, since two of them
/// draw some characters differently, and then the others, since the language
/// picker spells each in its own script.
pub fn cjk_order(lang: Lang) -> (r: Vec<Lang>)
    ensures
        r@ == match lang {
            Lang::Ko => seq![Lang::Ko, Lang::Ja, Lang::Zh],
            Lang::Zh => seq![Lang::Zh, Lang::Ja, Lang::Ko],
            _ => seq![Lang::Ja, Lang::Ko, Lang::Zh],
        },
        is_cjk(lang) ==> r@[0] == lang,
        forall|other: Lang| is_cjk(other) <==> #[trigger] r@.contains(other),
{
    let r = match lang {
        Lang::Ko => vec![Lang::Ko, Lang::Ja, Lang::Zh],
        Lang::Zh => vec![Lang::Zh, Lang::Ja, Lang::Ko],
        _ => vec![Lang::Ja, Lang::Ko, Lang::Zh],
    };
    proof {
        assert(r@ =~= match lang {
            Lang::Ko => seq![Lang::Ko, Lang::Ja, Lang::Zh],
            Lang::Zh => seq![Lang::Zh, Lang::Ja, Lang::Ko],
            _ => seq![Lang::Ja, Lang::Ko, Lang::Zh],
        });
        assert forall|other: Lang| is_cjk(other) <==> #[trigger] r@.contains(other) by {
            assert(r@.len() == 3);
            if is_cjk(other) {
                let k: int = if r@[0] == other {
                    0
                } else if r@[1] == other {
                    1
                } else {
                    2
                };
                assert(r@[k] == other);
            }
        }
    }
    r
}

/// The theme that was set is the one in use, and no two themes share a place or
/// a name.
pub proof fn law_what_is_set_is_in_use(
    a: Theme,
    b: Theme,
    slot: usize,
    other: usize,
    r: Theme,
    name: &'static str,
    another: &'static str,
)
    requires
        call_ensures(set, (a,), slot),
        call_ensures(set, (b,), other),
        call_ensures(active, (slot,), r),
        call_ensures(Theme::label, (a,), name),
        call_ensures(Theme::label, (b,), another),
    ensures
        r == a,
        slot == other ==> a == b,
        name@ == another@ ==> a == b,
{
    reveal_strlit("NESTOR");
    reveal_strlit("MATRIX");
    reveal_strlit("TERMINATOR");
    reveal_strlit("KAWAII");
    reveal_strlit("FALLOUT");
    reveal_strlit("CYBERPUNK");
    law_the_theme_set_is_active(a);
    let x = theme_label(a);
    let y = theme_label(b);
    if x == y {
        assert(x[0] == y[0]);
    }
}

/// The user's own script is looked for first, and each of the three scripts
/// once.
pub proof fn law_the_users_script_comes_first(lang: Lang, r: Vec<Lang>, other: Lang)
    requires
        call_ensures(cjk_order, (lang,), r),
    ensures
        r@.len() == 3,
        lang == Lang::Ja || lang == Lang::Ko || lang == Lang::Zh ==> r@[0] == lang,
        r@.no_duplicates(),
        r@.contains(Lang::Ja) && r@.contains(Lang::Ko) && r@.contains(Lang::Zh),
{
    assert(is_cjk(Lang::Ja) && is_cjk(Lang::Ko) && is_cjk(Lang::Zh));
}

} // verus!
