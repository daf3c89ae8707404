//! The motion that a theme lays over the window.

use vstd::prelude::*;
use crate::theme::Theme;

verus! {

/// One thing that is painted over the window.
#[derive(Clone, Copy, PartialEq, Eq, Structural, Debug)]
pub enum Layer {
    /// Columns of falling characters.
    Rain,
    /// Horizontal lines.
    Scanlines,
    /// A bright band that travels down.
    Sweep,
    /// Darkened edges.
    Vignette,
    /// A rare dip in brightness.
    Flicker,
    /// A few slices torn to the side.
    Glitch,
}

/// What a theme paints over the window, the lowest first. Two of them paint
/// nothing: one is still, and one moves its controls instead.
pub open spec fn overlay(theme: Theme) -> Seq<Layer> {
    match theme {
        Theme::Oxide => seq![],
        Theme::Matrix => seq![Layer::Rain],
        Theme::Terminator => seq![Layer::Scanlines, Layer::Sweep],
        Theme::Kawaii => seq![],
        Theme::Fallout => seq![Layer::Scanlines, Layer::Vignette, Layer::Flicker],
        Theme::Cyberpunk => seq![Layer::Glitch],
    }
}

/// What a theme paints over the window, the lowest first.
pub fn foreground(theme: Theme) -> (r: Vec<Layer>)
    ensures
        r@ == overlay(theme),
{
    let r = match theme {
        Theme::Oxide => Vec::new(),
        Theme::Matrix => vec![Layer::Rain],
        Theme::Terminator => vec![Layer::Scanlines, Layer::Sweep],
        Theme::Kawaii => Vec::new(),
        Theme::Fallout => vec![Layer::Scanlines, Layer::Vignette, Layer::Flicker],
        Theme::Cyberpunk => vec![Layer::Glitch],
    };
    assert(r@ =~= overlay(theme));
    r
}

/// Exactly the two still themes paint nothing over the window.
pub proof fn law_the_still_worlds_paint_nothing(theme: Theme)
    ensures
        overlay(theme).len() == 0 <==> theme == Theme::Oxide || theme == Theme::Kawaii,
{
}

/// The parts that [`noise`] comes in.
pub const PARTS: u32 = 10_000;

/// A hash of a number, every bit of which depends on all of it.
pub open spec fn mixed(seed: u32) -> u32 {
    let a = seed.wrapping_mul(0x9E37_79B9);
    let b = a ^ (a >> 15);
    let c = b.wrapping_mul(0x85EB_CA6B);
    c ^ (c >> 13)
}

/// A number that looks random and is the same for the same seed, in parts of
/// [`PARTS`].
pub fn noise(seed: u32) -> (r: u32)
    ensures
        r == mixed(seed) % PARTS,
        r < PARTS,
{
    let mut h: u32 = seed.wrapping_mul(0x9E37_79B9);
    h = h ^ (h >> 15);
    h = h.wrapping_mul(0x85EB_CA6B);
    h = h ^ (h >> 13);
    h % PARTS
}

/// How many characters a falling column trails.
pub const TRAIL: usize = 14;

/// How many characters a column is made from.
pub const GLYPH_COUNT: usize = 44;

/// Which character stands in a row of a column. A column's characters never
/// change; only its place does.
pub fn glyph_index(column: u32, row: usize) -> (r: usize)
    requires
        row <= TRAIL,
    ensures
        r == (column * 31 + row * 17) % GLYPH_COUNT as int,
        r < GLYPH_COUNT,
{
    let n: u64 = column as u64 * 31 + row as u64 * 17;
    (n % GLYPH_COUNT as u64) as usize
}

/// How far the brightness dips in a slice of time, in parts of [`PARTS`], if it
/// dips.
pub fn dip(bucket: u32) -> (r: Option<u32>)
    ensures
        r == if mixed(bucket) % PARTS > 600 {
            None
        } else {
            Some(mixed(bucket) % PARTS)
        },
{
    let n: u32 = noise(bucket);
    if n > 600 {
        None
    } else {
        Some(n)
    }
}

/// How many slices are torn at once.
pub const SLICES: u32 = 4;

/// Whether anything is torn in a slice of time.
pub fn tears(bucket: u32) -> (r: bool)
    ensures
        r == (mixed(bucket) % PARTS <= 1800),
{
    noise(bucket) <= 1800
}

/// Where a torn slice stands, how high it is and how far it is moved, each in
/// parts of [`PARTS`].
pub fn torn(bucket: u32, slice: u32) -> (r: (u32, u32, u32))
    requires
        slice < SLICES,
    ensures
        r.0 == mixed(bucket ^ ((slice * 0x12345) as u32)) % PARTS,
        r.1 == mixed(bucket ^ ((slice * 0x999) as u32)) % PARTS,
        r.2 == mixed(bucket ^ ((slice * 0x77) as u32)) % PARTS,
{
    (noise(bucket ^ (slice * 0x12345)), noise(bucket ^ (slice * 0x999)), noise(
        bucket ^ (slice * 0x77),
    ))
}

/// Every chance is the same for the same moment, out of ten thousand; the light
/// dips in the lowest part of them and never by more than six hundred, and
/// something is torn wherever it dips and up to eighteen hundred.
pub proof fn law_chances_keep_to_their_shares(
    bucket: u32,
    chance: u32,
    dips: Option<u32>,
    torn_now: bool,
)
    requires
        call_ensures(noise, (bucket,), chance),
        call_ensures(dip, (bucket,), dips),
        call_ensures(tears, (bucket,), torn_now),
    ensures
        chance < 10_000,
        dips is Some <==> chance <= 600,
        dips matches Some(depth) ==> depth == chance,
        torn_now <==> chance <= 1800,
{
}

/// A torn slice takes its three chances from the moment and its own number.
pub proof fn law_a_torn_slice_has_its_own_chances(
    bucket: u32,
    slice: u32,
    r: (u32, u32, u32),
)
    requires
        slice < 4,
        call_ensures(torn, (bucket, slice), r),
    ensures
        r.0 < 10_000 && r.1 < 10_000 && r.2 < 10_000,
{
}

} // verus!
