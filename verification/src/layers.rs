//! The colour of a layer.

use vstd::prelude::*;
use vstd::utf8::encode_utf8;
use crate::text::{contains_text, holds_text, lowered, to_lowered, trim_text, trimmed};
use crate::theme::{theme_canvas, CanvasStyle, HueBand, Theme};

verus! {

/// A colour: its hue in degrees, its saturation and its value in percent.
#[derive(Clone, Copy, PartialEq, Eq, Structural, Debug)]
pub struct LayerColor {
    pub hue: u32,
    pub saturation: u32,
    pub value: u32,
}

/// The hues that the screen keeps for itself, in degrees: its accent and its
/// error colour. Nothing that is drawn from a file has one of them.
pub const RESERVED_LOW: u32 = 4;

pub const RESERVED_HIGH: u32 = 40;

/// How far a colour keeps from the reserved hues: on its way to a screen it may
/// come back a fraction of a degree from where it was.
pub const GUARD: u32 = 1;

/// Whether a layer's name holds one of some words.
pub open spec fn holds_any(name: Seq<char>, words: Seq<Seq<char>>) -> bool {
    exists|i: int| 0 <= i < words.len() && holds_text(name, #[trigger] words[i])
}

/// The words for a profile, the edge that the machine follows.
pub open spec fn cut_words() -> Seq<Seq<char>> {
    seq!["cut"@, "profile"@, "outline"@, "contour"@]
}

/// The words for holes.
pub open spec fn drill_words() -> Seq<Seq<char>> {
    seq!["drill"@, "hole"@, "bore"@]
}

/// The words for surface work.
pub open spec fn etch_words() -> Seq<Seq<char>> {
    seq!["etch"@, "engrave"@, "mark"@, "score"@, "raster"@]
}

/// The hash of the first `n` bytes of a name.
pub open spec fn name_hash(bytes: Seq<u8>, n: int) -> u32
    decreases n,
{
    if n <= 0 || n > bytes.len() {
        0
    } else {
        name_hash(bytes, n - 1).wrapping_mul(31).wrapping_add(bytes[n - 1] as u32)
    }
}

/// The hash of a layer's name.
pub open spec fn layer_hash(layer: Seq<char>) -> u32 {
    let bytes = encode_utf8(layer);
    name_hash(bytes, bytes.len() as int)
}

/// How many hues a band takes from the circle, its guard included.
pub open spec fn taken(band: HueBand) -> int {
    band.high - band.low + 2 * GUARD
}

/// A hue counted past a band: from the band's guard on, it lies beyond it.
pub open spec fn past(hue: int, band: HueBand) -> int {
    if hue >= band.low - GUARD {
        hue + taken(band)
    } else {
        hue
    }
}

/// The hue that a hash picks: anywhere on the circle but in the reserved bands
/// and their guard. A second band lies beyond the first.
pub open spec fn hashed_hue(hash: u32, reserved: HueBand, also: Option<HueBand>) -> u32 {
    match also {
        None => past(hash as int % (360 - taken(reserved)), reserved) as u32,
        Some(band) => past(
            past(hash as int % (360 - taken(reserved) - taken(band)), reserved),
            band,
        ) as u32,
    }
}

/// Whether a hue keeps clear of a band.
pub open spec fn clear_of(hue: u32, band: HueBand) -> bool {
    hue < band.low - GUARD || hue >= band.high + GUARD
}

/// The colour of an operation that has a name: it is told by a word in the
/// layer's, however it is spelled.
pub open spec fn operation_color(layer: Seq<char>) -> Option<LayerColor> {
    let name = lowered(trimmed(layer));
    if holds_any(name, cut_words()) {
        Some(LayerColor { hue: 193, saturation: 62, value: 100 })
    } else if holds_any(name, drill_words()) {
        Some(LayerColor { hue: 142, saturation: 60, value: 95 })
    } else if holds_any(name, etch_words()) {
        Some(LayerColor { hue: 272, saturation: 52, value: 98 })
    } else {
        None
    }
}

/// The hues that the screen keeps for itself.
pub open spec fn reserved() -> HueBand {
    HueBand { low: RESERVED_LOW, high: RESERVED_HIGH }
}

/// The colour of a layer: that of its operation, or one of its own.
pub open spec fn layer_color(layer: Seq<char>) -> LayerColor {
    match operation_color(layer) {
        Some(color) => color,
        None => LayerColor {
            hue: hashed_hue(layer_hash(layer), reserved(), None),
            saturation: 78,
            value: 100,
        },
    }
}

/// The colour of a layer in a theme that colours by hue. A theme of one colour
/// has none: it tells layers apart by brightness.
pub open spec fn theme_color(layer: Seq<char>, theme: Theme) -> Option<LayerColor> {
    match theme_canvas(theme) {
        CanvasStyle::Hue { reserved, also, saturation, value } => Some(
            match operation_color(layer) {
                Some(color) => color,
                None => LayerColor {
                    hue: hashed_hue(layer_hash(layer), reserved, also),
                    saturation,
                    value,
                },
            },
        ),
        CanvasStyle::Mono { .. } => None,
    }
}

fn operation(layer: &str) -> (r: Option<LayerColor>)
    ensures
        r == operation_color(layer@),
{
    let low = to_lowered(trim_text(layer));
    let name = low.as_str();
    let cut = contains_text(name, "cut") || contains_text(name, "profile") || contains_text(
        name,
        "outline",
    ) || contains_text(name, "contour");
    proof {
        let w = cut_words();
        assert(w[0] == "cut"@ && w[1] == "profile"@ && w[2] == "outline"@ && w[3] == "contour"@);
        assert(cut == holds_any(name@, w));
    }
    if cut {
        return Some(LayerColor { hue: 193, saturation: 62, value: 100 });
    }
    let drill = contains_text(name, "drill") || contains_text(name, "hole") || contains_text(
        name,
        "bore",
    );
    proof {
        let w = drill_words();
        assert(w[0] == "drill"@ && w[1] == "hole"@ && w[2] == "bore"@);
        assert(drill == holds_any(name@, w));
    }
    if drill {
        return Some(LayerColor { hue: 142, saturation: 60, value: 95 });
    }
    let etch = contains_text(name, "etch") || contains_text(name, "engrave") || contains_text(
        name,
        "mark",
    ) || contains_text(name, "score") || contains_text(name, "raster");
    proof {
        let w = etch_words();
        assert(w[0] == "etch"@ && w[1] == "engrave"@ && w[2] == "mark"@ && w[3] == "score"@ && w[4]
            == "raster"@);
        assert(etch == holds_any(name@, w));
    }
    if etch {
        return Some(LayerColor { hue: 272, saturation: 52, value: 98 });
    }
    None
}

fn hash_of(layer: &str) -> (hash: u32)
    ensures
        hash == layer_hash(layer@),
{
    let bytes = layer.as_bytes();
    let mut hash: u32 = 0;
    let mut i: usize = 0;
    while i < bytes.len()
        invariant
            i <= bytes@.len(),
            bytes@ == encode_utf8(layer@),
            hash == name_hash(bytes@, i as int),
        decreases bytes.len() - i,
    {
        hash = hash.wrapping_mul(31).wrapping_add(bytes[i] as u32);
        i += 1;
    }
    hash
}

/// Whether bands can be stepped over in turn with hues left between them.
pub open spec fn leaves_room(reserved: HueBand, also: Option<HueBand>) -> bool {
    &&& GUARD <= reserved.low <= reserved.high
    &&& match also {
        None => reserved.high + GUARD < 360,
        Some(band) => {
            &&& reserved.high + GUARD < band.low - GUARD
            &&& band.low <= band.high
            &&& band.high + GUARD < 360
        },
    }
}

fn pick_hue(hash: u32, reserved: HueBand, also: Option<HueBand>) -> (r: u32)
    requires
        leaves_room(reserved, also),
    ensures
        r == hashed_hue(hash, reserved, also),
{
    let gap: u32 = reserved.high - reserved.low + 2 * GUARD;
    match also {
        None => {
            let mut hue: u32 = hash % (360 - gap);
            if hue >= reserved.low - GUARD {
                hue += gap;
            }
            hue
        },
        Some(band) => {
            let more: u32 = band.high - band.low + 2 * GUARD;
            let mut hue: u32 = hash % (360 - gap - more);
            if hue >= reserved.low - GUARD {
                hue += gap;
            }
            if hue >= band.low - GUARD {
                hue += more;
            }
            hue
        },
    }
}

/// The colour of a layer.
pub fn color_for_layer(layer: &str) -> (r: LayerColor)
    ensures
        r == layer_color(layer@),
{
    match operation(layer) {
        Some(color) => color,
        None => {
            let band = HueBand { low: RESERVED_LOW, high: RESERVED_HIGH };
            LayerColor { hue: pick_hue(hash_of(layer), band, None), saturation: 78, value: 100 }
        },
    }
}

/// The colour of a layer in a theme that colours by hue, or nothing.
pub fn color_in_theme(layer: &str, theme: Theme) -> (r: Option<LayerColor>)
    ensures
        r == theme_color(layer@, theme),
{
    match theme.canvas() {
        CanvasStyle::Hue { reserved, also, saturation, value } => match operation(layer) {
            Some(color) => Some(color),
            None => Some(
                LayerColor { hue: pick_hue(hash_of(layer), reserved, also), saturation, value },
            ),
        },
        CanvasStyle::Mono { .. } => None,
    }
}

proof fn lemma_hashed_hue(hash: u32, reserved: HueBand, also: Option<HueBand>)
    requires
        leaves_room(reserved, also),
    ensures
        hashed_hue(hash, reserved, also) < 360,
        clear_of(hashed_hue(hash, reserved, also), reserved),
        also matches Some(band) ==> clear_of(hashed_hue(hash, reserved, also), band),
{
}

/// No layer is drawn in a hue that the screen keeps for itself, nor next to
/// one.
pub proof fn law_no_layer_takes_a_reserved_hue(layer: Seq<char>)
    ensures
        layer_color(layer).hue < 360,
        clear_of(layer_color(layer).hue, reserved()),
{
    lemma_hashed_hue(layer_hash(layer), reserved(), None);
}

/// In a theme that colours by hue no layer is drawn in a hue of the theme's own
/// bands, nor next to one, whether it is a named operation or not.
pub proof fn law_no_layer_takes_a_themes_own_hue(layer: Seq<char>, theme: Theme)
    ensures
        theme_canvas(theme) matches CanvasStyle::Hue { reserved, also, .. } ==> {
            &&& theme_color(layer, theme) is Some
            &&& theme_color(layer, theme)->0.hue < 360
            &&& clear_of(theme_color(layer, theme)->0.hue, reserved)
            &&& also matches Some(band) ==> clear_of(theme_color(layer, theme)->0.hue, band)
        },
        theme_canvas(theme) is Mono ==> theme_color(layer, theme) is None,
{
    match theme_canvas(theme) {
        CanvasStyle::Hue { reserved, also, .. } => {
            lemma_hashed_hue(layer_hash(layer), reserved, also);
        },
        CanvasStyle::Mono { .. } => {},
    }
}

/// The first theme colours layers as they are coloured without one.
pub proof fn law_the_first_theme_is_the_plain_one(layer: Seq<char>)
    ensures
        theme_color(layer, Theme::Oxide) == Some(layer_color(layer)),
{
}

/// A layer whose name holds the word of an operation has the colour of that
/// operation, whatever its case and whatever stands around the word.
pub proof fn law_a_named_operation_has_one_colour(a: Seq<char>, b: Seq<char>)
    requires
        holds_any(lowered(trimmed(a)), cut_words()) || holds_any(
            lowered(trimmed(a)),
            drill_words(),
        ) || holds_any(lowered(trimmed(a)), etch_words()),
        holds_any(lowered(trimmed(a)), cut_words()) == holds_any(lowered(trimmed(b)), cut_words()),
        holds_any(lowered(trimmed(a)), drill_words()) == holds_any(
            lowered(trimmed(b)),
            drill_words(),
        ),
        holds_any(lowered(trimmed(a)), etch_words()) == holds_any(
            lowered(trimmed(b)),
            etch_words(),
        ),
    ensures
        layer_color(a) == layer_color(b),
{
}

// --- what layer colours promise -------------------------------------------

/// A number for a name: each byte after the other, thirty-one times what came
/// before it and itself.
pub open spec fn name_number(bytes: Seq<u8>, n: int) -> nat
    decreases n,
{
    if n <= 0 || n > bytes.len() {
        0
    } else {
        31 * name_number(bytes, n - 1) + bytes[n - 1] as nat
    }
}

proof fn lemma_name_hash(bytes: Seq<u8>, n: int)
    requires
        0 <= n <= bytes.len(),
    ensures
        name_hash(bytes, n) == name_number(bytes, n) % 0x1_0000_0000,
    decreases n,
{
    if n > 0 {
        lemma_name_hash(bytes, n - 1);
        let before = name_number(bytes, n - 1) as int;
        let h = name_hash(bytes, n - 1);
        let b = bytes[n - 1] as int;
        let m = 0x1_0000_0000int;
        assert(h.wrapping_mul(31) as int == (h * 31) % m);
        vstd::arithmetic::div_mod::lemma_mul_mod_noop_left(before, 31, m);
        assert(h.wrapping_mul(31) as int == (before * 31) % m);
        assert(name_hash(bytes, n) as int == ((before * 31) % m + b) % m);
        vstd::arithmetic::div_mod::lemma_add_mod_noop(before * 31, b, m);
        vstd::arithmetic::div_mod::lemma_small_mod(b as nat, m as nat);
    }
}

/// Cutting is blue, drilling green and etching violet, by the words that layers
/// are named with; where a name has words of two of them, cutting goes before
/// drilling and drilling before etching. Every other layer has the hue that its
/// name comes to, out of those that the window does not keep for itself.
pub proof fn law_a_layer_is_coloured_by_its_name(layer: &str, r: LayerColor)
    requires
        call_ensures(color_for_layer, (layer,), r),
    ensures
        ({
            let name = lowered(trimmed(layer@));
            let cuts = holds_text(name, "cut"@) || holds_text(name, "profile"@) || holds_text(
                name,
                "outline"@,
            ) || holds_text(name, "contour"@);
            let drills = holds_text(name, "drill"@) || holds_text(name, "hole"@) || holds_text(
                name,
                "bore"@,
            );
            let etches = holds_text(name, "etch"@) || holds_text(name, "engrave"@) || holds_text(
                name,
                "mark"@,
            ) || holds_text(name, "score"@) || holds_text(name, "raster"@);
            let bytes = encode_utf8(layer@);
            let h = (name_number(bytes, bytes.len() as int) % 0x1_0000_0000) % 322;
            &&& cuts ==> r.hue == 193 && r.saturation == 62 && r.value == 100
            &&& !cuts && drills ==> r.hue == 142 && r.saturation == 60 && r.value == 95
            &&& !cuts && !drills && etches ==> r.hue == 272 && r.saturation == 52 && r.value
                == 98
            &&& !cuts && !drills && !etches ==> r.saturation == 78 && r.value == 100 && r.hue
                == (if h < 3 {
                h
            } else {
                h + 38
            })
        }),
        r.hue < 3 || 41 <= r.hue < 360,
{
    let name = lowered(trimmed(layer@));
    let bytes = encode_utf8(layer@);
    lemma_name_hash(bytes, bytes.len() as int);
    law_no_layer_takes_a_reserved_hue(layer@);
    lemma_words(name);
}

proof fn lemma_words(name: Seq<char>)
    ensures
        holds_any(name, cut_words()) <==> holds_text(name, "cut"@) || holds_text(name, "profile"@)
            || holds_text(name, "outline"@) || holds_text(name, "contour"@),
        holds_any(name, drill_words()) <==> holds_text(name, "drill"@) || holds_text(name, "hole"@)
            || holds_text(name, "bore"@),
        holds_any(name, etch_words()) <==> holds_text(name, "etch"@) || holds_text(
            name,
            "engrave"@,
        ) || holds_text(name, "mark"@) || holds_text(name, "score"@) || holds_text(
            name,
            "raster"@,
        ),
{
    let c = cut_words();
    let d = drill_words();
    let e = etch_words();
    assert(c[0] == "cut"@ && c[1] == "profile"@ && c[2] == "outline"@ && c[3] == "contour"@);
    assert(d[0] == "drill"@ && d[1] == "hole"@ && d[2] == "bore"@);
    assert(e[0] == "etch"@ && e[1] == "engrave"@ && e[2] == "mark"@ && e[3] == "score"@ && e[4]
        == "raster"@);
}

/// A theme that draws in hues draws an operation in the colour that it has
/// everywhere, and no layer in a hue that the theme keeps for itself; one that
/// draws in brightnesses has no hue for any layer.
pub proof fn law_operations_look_the_same_in_every_theme(
    layer: &str,
    theme: Theme,
    canvas: CanvasStyle,
    plain: LayerColor,
    r: Option<LayerColor>,
)
    requires
        call_ensures(color_for_layer, (layer,), plain),
        call_ensures(color_in_theme, (layer, theme), r),
        call_ensures(Theme::canvas, (theme,), canvas),
    ensures
        r is Some <==> canvas is Hue,
        r is Some && (plain.saturation != 78 || theme == Theme::Oxide) ==> r->Some_0 == plain,
        canvas matches CanvasStyle::Hue { reserved, also, saturation, value } ==> {
            &&& r->Some_0.hue < 360
            &&& r->Some_0.hue + 1 < reserved.low || r->Some_0.hue > reserved.high
            &&& also matches Some(band) ==> r->Some_0.hue + 1 < band.low || r->Some_0.hue
                > band.high
        },
{
    law_no_layer_takes_a_themes_own_hue(layer@, theme);
    law_the_first_theme_is_the_plain_one(layer@);
}

} // verus!
