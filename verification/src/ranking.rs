//! Which of two nests is the better one.

use vstd::prelude::*;
use crate::scalar::Scalar;
use crate::placement::{PlaceModel, PlaceResult};

verus! {

/// The three figures two nests are compared by.
#[derive(Clone, Copy, PartialEq, Eq, Structural, Debug)]
pub struct Score {
    pub unplaced: usize,
    pub sheets: usize,
    pub utilisation: Scalar,
}

impl Score {
    /// Fewer parts left over, then fewer sheets, then a fuller sheet.
    pub open spec fn beats(self, other: Score) -> bool {
        if self.unplaced != other.unplaced {
            self.unplaced < other.unplaced
        } else if self.sheets != other.sheets {
            self.sheets < other.sheets
        } else {
            other.utilisation.below(self.utilisation)
        }
    }
}

/// The score of a nest, over its model.
pub open spec fn score_of(result: PlaceModel) -> Score {
    Score {
        unplaced: result.unplaced_count,
        sheets: result.placements.len() as usize,
        utilisation: result.utilisation,
    }
}

/// The score of a nest.
pub fn score(result: &PlaceResult) -> (r: Score)
    ensures
        r == score_of(result@),
{
    Score {
        unplaced: result.unplaced_count,
        sheets: result.placements.len(),
        utilisation: result.utilisation,
    }
}

/// Whether the first nest beats the second: fewer unplaced parts above all,
/// then fewer sheets, then strictly higher utilisation. A utilisation that is
/// not a number beats nothing and is beaten by nothing of the same counts.
pub fn is_better_result(
    a_unplaced: usize,
    a_sheets: usize,
    a_util: Scalar,
    b_unplaced: usize,
    b_sheets: usize,
    b_util: Scalar,
) -> (r: bool)
    ensures
        r == (Score { unplaced: a_unplaced, sheets: a_sheets, utilisation: a_util }).beats(
            Score { unplaced: b_unplaced, sheets: b_sheets, utilisation: b_util },
        ),
{
    if a_unplaced != b_unplaced {
        return a_unplaced < b_unplaced;
    }
    if a_sheets != b_sheets {
        return a_sheets < b_sheets;
    }
    b_util.lt(a_util)
}

/// [`is_better_result`] on two scores.
pub fn is_better(a: Score, b: Score) -> (r: bool)
    ensures
        r == a.beats(b),
{
    is_better_result(a.unplaced, a.sheets, a.utilisation, b.unplaced, b.sheets, b.utilisation)
}

/// Whether a finished nest replaces the saved best one: always where nothing
/// was saved, otherwise only where it beats what is there.
pub fn replaces_saved(candidate: Score, saved: Option<Score>) -> (r: bool)
    ensures
        r == match saved {
            None => true,
            Some(previous) => candidate.beats(previous),
        },
{
    match saved {
        None => true,
        Some(previous) => is_better(candidate, previous),
    }
}

/// Beating is a strict order: nothing beats itself, no two nests beat each
/// other, and what beats a better nest beats the worse one too.
pub proof fn law_beats_is_a_strict_order(a: Score, b: Score, c: Score)
    ensures
        !a.beats(a),
        a.beats(b) ==> !b.beats(a),
        a.beats(b) && b.beats(c) ==> a.beats(c),
{
}

/// Among nests whose utilisation is a number, any nest that beats another beats
/// everything the other does not lose to: of three nests, `a` beating `c` means
/// that `b` loses to `a` or beats `c`.
pub proof fn law_beats_compares_every_number(a: Score, b: Score, c: Score)
    requires
        !b.utilisation.nan(),
        a.beats(c),
    ensures
        a.beats(b) || b.beats(c),
{
}

/// What makes one nest better than another, whatever the counts are: fewer
/// parts left over decide above all, then fewer sheets decide, and only of two
/// nests with as many of both does the fuller one win.
pub proof fn law_fewer_leftovers_then_fewer_sheets_then_fuller(
    a_unplaced: usize,
    a_sheets: usize,
    a_util: Scalar,
    b_unplaced: usize,
    b_sheets: usize,
    b_util: Scalar,
    better: bool,
)
    requires
        call_ensures(
            is_better_result,
            (a_unplaced, a_sheets, a_util, b_unplaced, b_sheets, b_util),
            better,
        ),
    ensures
        a_unplaced < b_unplaced ==> better,
        a_unplaced > b_unplaced ==> !better,
        a_unplaced == b_unplaced && a_sheets < b_sheets ==> better,
        a_unplaced == b_unplaced && a_sheets > b_sheets ==> !better,
        a_unplaced == b_unplaced && a_sheets == b_sheets ==> better == b_util.below(a_util),
{
}

/// The same of two scores: the figures of one decide against those of the
/// other, one after the next.
pub proof fn law_beating_goes_by_leftovers_then_sheets_then_fullness(a: Score, b: Score)
    ensures
        a.unplaced < b.unplaced ==> a.beats(b) && !b.beats(a),
        a.unplaced == b.unplaced && a.sheets < b.sheets ==> a.beats(b) && !b.beats(a),
        a.unplaced == b.unplaced && a.sheets == b.sheets ==> {
            &&& a.beats(b) == b.utilisation.below(a.utilisation)
            &&& b.beats(a) == a.utilisation.below(b.utilisation)
        },
{
}

/// A nest is compared by the parts it leaves over, the sheets it opens and how
/// full they are, and by nothing else.
pub proof fn law_a_nest_is_compared_by_its_own_figures(
    a: &PlaceResult,
    b: &PlaceResult,
    of_a: Score,
    of_b: Score,
    better: bool,
)
    requires
        call_ensures(score, (a,), of_a),
        call_ensures(score, (b,), of_b),
        call_ensures(is_better, (of_a, of_b), better),
        a.placements@.len() <= usize::MAX,
        b.placements@.len() <= usize::MAX,
    ensures
        of_a.unplaced == a.unplaced_count,
        of_a.sheets == a.placements@.len(),
        of_a.utilisation == a.utilisation,
        better == if a.unplaced_count != b.unplaced_count {
            a.unplaced_count < b.unplaced_count
        } else if a.placements@.len() != b.placements@.len() {
            a.placements@.len() < b.placements@.len()
        } else {
            b.utilisation.below(a.utilisation)
        },
{
}

/// Over a saved nest only a better one is written, and over nothing any is.
pub proof fn law_only_a_better_nest_replaces_the_saved_one(
    candidate: Score,
    saved: Option<Score>,
    replaces: bool,
)
    requires
        call_ensures(replaces_saved, (candidate, saved), replaces),
    ensures
        saved is None ==> replaces,
        saved matches Some(previous) ==> {
            &&& candidate.unplaced < previous.unplaced ==> replaces
            &&& candidate.unplaced > previous.unplaced ==> !replaces
            &&& candidate.unplaced == previous.unplaced && candidate.sheets < previous.sheets
                ==> replaces
            &&& candidate.unplaced == previous.unplaced && candidate.sheets > previous.sheets
                ==> !replaces
            &&& candidate.unplaced == previous.unplaced && candidate.sheets == previous.sheets
                ==> replaces == previous.utilisation.below(candidate.utilisation)
        },
{
}

} // verus!
