//! Tidying up the best nest of a job: parts are moved between its sheets, and
//! each sheet that is not full enough is packed anew.

use std::collections::HashMap;
use vstd::prelude::*;
use crate::escalation::{attempts_view, Outcome};
use crate::parts::PartRuleDto;
use crate::placement::{
    law_a_model_holds_every_field, sheets_view, PlaceModel, PlaceResult, SheetPlacementDto,
};
use crate::result::{
    answered_history, ends_with_answer, nest_response, snapshots_view, RunNestResponse,
};
use crate::scalar::Scalar;
use crate::shape::PolygonDto;

verus! {

/// The figures of a set of sheets, measured anew.
#[derive(Clone, Copy, PartialEq, Eq, Structural, Debug)]
pub struct Totals {
    pub total_placed_area: Scalar,
    pub total_usable_sheet_area: Scalar,
    pub utilisation: Scalar,
}

/// What tidying up asks for next.
#[derive(Clone, Copy, PartialEq, Eq, Structural, Debug)]
pub enum TidyStep {
    /// Move parts between the sheets, and close those left empty.
    Consolidate,
    /// Measure how full this sheet is.
    Weigh(usize),
    /// Try to pack this sheet tighter.
    Repack(usize),
    /// Measure the sheets together.
    Total,
    /// Nothing more: the nest is tidy.
    Done,
}

/// A nest with other figures.
pub open spec fn retotalled(nest: PlaceModel, totals: Totals) -> PlaceModel {
    PlaceModel {
        area: totals.total_placed_area,
        total_area: totals.total_usable_sheet_area,
        utilisation: totals.utilisation,
        ..nest
    }
}

/// Whether two nests leave over the same parts under the same fitness.
pub open spec fn same_leftovers(a: PlaceModel, b: PlaceModel) -> bool {
    &&& a.fitness == b.fitness
    &&& a.unplaced_count == b.unplaced_count
    &&& a.unplaced_ids == b.unplaced_ids
}

/// A job's best nest while it is tidied up.
pub struct Tidying {
    pub outcome: Outcome,
    /// Sheets less full than this are packed anew. Nothing leaves them all alone.
    pub threshold: Option<Scalar>,
    pub step: TidyStep,
}

impl Tidying {
    /// The nest as it stands.
    pub open spec fn nest(&self) -> PlaceModel {
        self.outcome.best@
    }

    /// A sheet is asked about only where there is one and a threshold, and
    /// moving parts only where there is a sheet.
    pub open spec fn wf(&self) -> bool {
        match self.step {
            TidyStep::Consolidate => self.outcome.best.placements@.len() > 0,
            TidyStep::Weigh(i) => self.threshold is Some && i
                < self.outcome.best.placements@.len(),
            TidyStep::Repack(i) => self.threshold is Some && i
                < self.outcome.best.placements@.len(),
            TidyStep::Total => self.threshold is Some,
            TidyStep::Done => true,
        }
    }

    /// How many more steps there can be, as long as moving parts opens no sheet.
    pub open spec fn left(&self) -> int {
        let sheets = self.outcome.best.placements@.len() as int;
        match self.step {
            TidyStep::Consolidate => 2 * sheets + 2,
            TidyStep::Weigh(i) => 2 * (sheets - i) + 1,
            TidyStep::Repack(i) => 2 * (sheets - i),
            TidyStep::Total => 1,
            TidyStep::Done => 0,
        }
    }

    /// Whether everything but the nest and the step is as it was.
    pub open spec fn same_job(&self, other: Tidying) -> bool {
        &&& self.threshold == other.threshold
        &&& self.outcome.history == other.outcome.history
        &&& self.outcome.cancelled == other.outcome.cancelled
        &&& self.outcome.rotations == other.outcome.rotations
    }

    /// What is asked for about a sheet and those after it, where `sheets` is
    /// how many there are.
    pub open spec fn asks_from(threshold: Option<Scalar>, i: int, sheets: int) -> TidyStep {
        if threshold is None {
            TidyStep::Done
        } else if i < sheets {
            TidyStep::Weigh(i as usize)
        } else {
            TidyStep::Total
        }
    }

    fn from_sheet(threshold: Option<Scalar>, i: usize, sheets: usize) -> (r: TidyStep)
        ensures
            r == Tidying::asks_from(threshold, i as int, sheets as int),
    {
        match threshold {
            None => TidyStep::Done,
            Some(_) => if i < sheets {
                TidyStep::Weigh(i)
            } else {
                TidyStep::Total
            },
        }
    }

    /// Starts with how a job ended. Without a sheet there is nothing to move.
    pub fn new(outcome: Outcome, threshold: Option<Scalar>) -> (r: Tidying)
        ensures
            r.wf(),
            r.outcome == outcome,
            r.threshold == threshold,
            r.step == if outcome.best.placements@.len() > 0 {
                TidyStep::Consolidate
            } else {
                Tidying::asks_from(threshold, 0, 0)
            },
    {
        let step = if outcome.best.placements.len() > 0 {
            TidyStep::Consolidate
        } else {
            Tidying::from_sheet(threshold, 0, 0)
        };
        Tidying { outcome, threshold, step }
    }

    /// Parts were moved between the sheets. The figures are taken over only
    /// where anything changed; which parts did not fit is never touched.
    pub fn consolidated(
        &mut self,
        placements: Vec<SheetPlacementDto>,
        changed: bool,
        totals: Totals,
    )
        requires
            old(self).wf(),
            old(self).step == TidyStep::Consolidate,
        ensures
            final(self).wf(),
            final(self).same_job(*old(self)),
            same_leftovers(final(self).nest(), old(self).nest()),
            final(self).nest() == ({
                let moved = PlaceModel {
                    placements: sheets_view(placements@),
                    ..old(self).nest()
                };
                if changed {
                    retotalled(moved, totals)
                } else {
                    moved
                }
            }),
            final(self).step == Tidying::asks_from(
                old(self).threshold,
                0,
                placements@.len() as int,
            ),
    {
        self.step = Tidying::from_sheet(self.threshold, 0, placements.len());
        self.outcome.best.placements = placements;
        if changed {
            retotal(&mut self.outcome.best, totals);
        }
    }

    /// A sheet was found to be so full. A stop that is asked for ends the pass,
    /// and a sheet at or above the threshold is left alone.
    pub fn weighed(&mut self, stop: bool, utilisation: Scalar)
        requires
            old(self).wf(),
            old(self).step is Weigh,
        ensures
            final(self).wf(),
            final(self).same_job(*old(self)),
            final(self).outcome == old(self).outcome,
            ({
                let i = old(self).step->Weigh_0;
                final(self).step == if stop {
                    TidyStep::Total
                } else if old(self).threshold->0.at_most(utilisation) {
                    Tidying::asks_from(
                        old(self).threshold,
                        i + 1,
                        old(self).nest().placements.len() as int,
                    )
                } else {
                    TidyStep::Repack(i)
                }
            }),
            final(self).left() < old(self).left(),
    {
        if let TidyStep::Weigh(i) = self.step {
            if let Some(threshold) = self.threshold {
                let sheets: usize = self.outcome.best.placements.len();
                self.step = if stop {
                    TidyStep::Total
                } else if threshold.le(utilisation) {
                    Tidying::from_sheet(self.threshold, i + 1, sheets)
                } else {
                    TidyStep::Repack(i)
                };
            }
        }
    }

    /// A sheet was packed anew, or could not be. Its place in the nest stays,
    /// and so does every other sheet.
    pub fn repacked(&mut self, sheet: Option<SheetPlacementDto>)
        requires
            old(self).wf(),
            old(self).step is Repack,
        ensures
            final(self).wf(),
            final(self).same_job(*old(self)),
            same_leftovers(final(self).nest(), old(self).nest()),
            ({
                let i = old(self).step->Repack_0;
                &&& final(self).nest() == match sheet {
                    None => old(self).nest(),
                    Some(packed) => PlaceModel {
                        placements: old(self).nest().placements.update(i as int, packed@),
                        ..old(self).nest()
                    },
                }
                &&& final(self).step == Tidying::asks_from(
                    old(self).threshold,
                    i + 1,
                    old(self).nest().placements.len() as int,
                )
            }),
            final(self).left() < old(self).left(),
    {
        if let TidyStep::Repack(i) = self.step {
            let sheets: usize = self.outcome.best.placements.len();
            let ghost before = self.outcome.best.placements@;
            if let Some(packed) = sheet {
                let ghost new = packed@;
                self.outcome.best.placements.set(i, packed);
                assert(sheets_view(self.outcome.best.placements@) =~= sheets_view(before).update(
                    i as int,
                    new,
                ));
            }
            self.step = Tidying::from_sheet(self.threshold, i + 1, sheets);
        }
    }

    /// The sheets were measured together, after the last one was dealt with.
    pub fn totalled(&mut self, totals: Totals)
        requires
            old(self).wf(),
            old(self).step == TidyStep::Total,
        ensures
            final(self).wf(),
            final(self).same_job(*old(self)),
            same_leftovers(final(self).nest(), old(self).nest()),
            final(self).nest() == retotalled(old(self).nest(), totals),
            final(self).step == TidyStep::Done,
            final(self).left() < old(self).left(),
    {
        retotal(&mut self.outcome.best, totals);
        self.step = TidyStep::Done;
    }

    /// The answer to the job, once its nest is tidy.
    pub fn finish(
        self,
        parts_by_id: HashMap<usize, PolygonDto>,
        part_rules: HashMap<usize, PartRuleDto>,
    ) -> (r: RunNestResponse)
        requires
            self.step == TidyStep::Done,
        ensures
            sheets_view(r.placements@) == self.nest().placements,
            r.fitness == self.nest().fitness,
            r.utilisation == self.nest().utilisation,
            r.unplaced_count == self.nest().unplaced_count,
            r.unplaced_ids@ == self.nest().unplaced_ids,
            r.parts_by_id == parts_by_id,
            r.part_rules == part_rules,
            r.cancelled == self.outcome.cancelled,
            ends_with_answer(r),
            r.history@.len() == self.outcome.history@.len(),
            forall|i: int|
                0 <= i < r.history@.len() ==> (#[trigger] r.history@[i]).generation
                    == self.outcome.history@[i].generation,
            snapshots_view(r.history@) == answered_history(
                attempts_view(self.outcome.history@),
                self.nest(),
            ),
    {
        nest_response(
            self.outcome.best,
            &self.outcome.history,
            self.outcome.cancelled,
            parts_by_id,
            part_rules,
        )
    }
}

fn retotal(nest: &mut PlaceResult, totals: Totals)
    ensures
        final(nest)@ == retotalled(old(nest)@, totals),
        final(nest).placements == old(nest).placements,
{
    nest.area = totals.total_placed_area;
    nest.total_area = totals.total_usable_sheet_area;
    nest.utilisation = totals.utilisation;
}

// --- what tidying promises ------------------------------------------------

/// Moving parts together takes over the sheets it was given, with new figures
/// where something moved and the old ones where nothing did; what was left over
/// stays left over, and what the search found stays as it was.
pub proof fn law_consolidating_takes_the_sheets_given(
    tidying: &mut Tidying,
    placements: Vec<SheetPlacementDto>,
    changed: bool,
    totals: Totals,
    i: int,
)
    requires
        call_ensures(Tidying::consolidated, (tidying, placements, changed, totals), ()),
    ensures
        final(tidying).outcome.best.placements@.len() == placements@.len(),
        0 <= i < placements@.len() ==> final(tidying).outcome.best.placements@[i]@
            == placements@[i]@,
        changed ==> final(tidying).outcome.best.utilisation == totals.utilisation && final(
            tidying).outcome.best.area == totals.total_placed_area && final(
            tidying).outcome.best.total_area == totals.total_usable_sheet_area,
        !changed ==> final(tidying).outcome.best.utilisation == old(
            tidying).outcome.best.utilisation && final(tidying).outcome.best.area == old(
            tidying).outcome.best.area,
        final(tidying).outcome.best.unplaced_count == old(tidying).outcome.best.unplaced_count,
        final(tidying).outcome.best.unplaced_ids@ == old(tidying).outcome.best.unplaced_ids@,
        final(tidying).outcome.best.fitness == old(tidying).outcome.best.fitness,
        final(tidying).outcome.history == old(tidying).outcome.history,
        final(tidying).threshold == old(tidying).threshold,
        old(tidying).threshold is None ==> final(tidying).step == TidyStep::Done,
        old(tidying).threshold is Some && placements@.len() > 0 ==> final(tidying).step
            == TidyStep::Weigh(0),
{
    law_a_model_holds_every_field(final(tidying).outcome.best);
    law_a_model_holds_every_field(old(tidying).outcome.best);
    let sheets = final(tidying).outcome.best.placements@;
    assert(sheets_view(sheets) == sheets_view(placements@));
    assert(sheets_view(sheets).len() == sheets.len());
    assert(sheets_view(placements@).len() == placements@.len());
    if 0 <= i < placements@.len() {
        assert(sheets_view(sheets)[i] == sheets[i]@);
        assert(sheets_view(placements@)[i] == placements@[i]@);
    }
}

/// A sheet is packed anew exactly where it is less full than the threshold and
/// the user has not stopped the job; a stop goes straight to the figures. Every
/// sheet is looked at in turn. Looking changes no sheet.
pub proof fn law_only_a_slack_sheet_is_packed_anew(
    tidying: &mut Tidying,
    stop: bool,
    full: Scalar,
    i: usize,
)
    requires
        old(tidying).wf(),
        old(tidying).step == TidyStep::Weigh(i),
        call_ensures(Tidying::weighed, (tidying, stop, full), ()),
    ensures
        final(tidying).outcome == old(tidying).outcome,
        stop ==> final(tidying).step == TidyStep::Total,
        !stop && !old(tidying).threshold->Some_0.at_most(full) ==> final(tidying).step
            == TidyStep::Repack(i),
        !stop && old(tidying).threshold->Some_0.at_most(full) && i + 1 < old(
            tidying).outcome.best.placements@.len() ==> final(tidying).step == TidyStep::Weigh(
            (i + 1) as usize,
        ),
        !stop && old(tidying).threshold->Some_0.at_most(full) && i + 1 >= old(
            tidying).outcome.best.placements@.len() ==> final(tidying).step == TidyStep::Total,
{
    law_a_model_holds_every_field(old(tidying).outcome.best);
}

/// Packing a sheet anew puts that sheet in its place, or leaves it where no
/// tighter packing was found, and touches no other sheet.
pub proof fn law_packing_touches_one_sheet(
    tidying: &mut Tidying,
    sheet: Option<SheetPlacementDto>,
    i: usize,
    k: int,
)
    requires
        old(tidying).wf(),
        old(tidying).step == TidyStep::Repack(i),
        call_ensures(Tidying::repacked, (tidying, sheet), ()),
        0 <= k < old(tidying).outcome.best.placements@.len(),
    ensures
        final(tidying).outcome.best.placements@.len() == old(
            tidying).outcome.best.placements@.len(),
        k != i || sheet is None ==> final(tidying).outcome.best.placements@[k]@ == old(
            tidying).outcome.best.placements@[k]@,
        k == i && sheet is Some ==> final(tidying).outcome.best.placements@[k]@
            == sheet->Some_0@,
        final(tidying).outcome.best.unplaced_count == old(tidying).outcome.best.unplaced_count,
        final(tidying).outcome.best.unplaced_ids@ == old(tidying).outcome.best.unplaced_ids@,
        i + 1 < old(tidying).outcome.best.placements@.len() ==> final(tidying).step
            == TidyStep::Weigh((i + 1) as usize),
        i + 1 >= old(tidying).outcome.best.placements@.len() ==> final(tidying).step
            == TidyStep::Total,
{
    law_a_model_holds_every_field(old(tidying).outcome.best);
    law_a_model_holds_every_field(final(tidying).outcome.best);
    let now = final(tidying).outcome.best.placements@;
    let before = old(tidying).outcome.best.placements@;
    assert(final(tidying).nest().placements == sheets_view(now));
    assert(old(tidying).nest().placements == sheets_view(before));
    assert(sheets_view(now).len() == now.len() && sheets_view(before).len() == before.len());
    assert(sheets_view(now)[k] == now[k]@ && sheets_view(before)[k] == before[k]@);
}

/// Measuring the sheets changes the figures to those measured, and no sheet; and
/// with that the nest is tidy.
pub proof fn law_measuring_moves_nothing(tidying: &mut Tidying, totals: Totals, k: int)
    requires
        call_ensures(Tidying::totalled, (tidying, totals), ()),
        0 <= k < old(tidying).outcome.best.placements@.len(),
    ensures
        final(tidying).outcome.best.placements@.len() == old(
            tidying).outcome.best.placements@.len(),
        final(tidying).outcome.best.placements@[k]@ == old(tidying).outcome.best.placements@[k]@,
        final(tidying).outcome.best.utilisation == totals.utilisation,
        final(tidying).outcome.best.area == totals.total_placed_area,
        final(tidying).outcome.best.total_area == totals.total_usable_sheet_area,
        final(tidying).outcome.best.unplaced_count == old(tidying).outcome.best.unplaced_count,
        final(tidying).outcome.best.unplaced_ids@ == old(tidying).outcome.best.unplaced_ids@,
        final(tidying).step == TidyStep::Done,
{
    law_a_model_holds_every_field(old(tidying).outcome.best);
    law_a_model_holds_every_field(final(tidying).outcome.best);
    let now = final(tidying).outcome.best.placements@;
    let before = old(tidying).outcome.best.placements@;
    assert(final(tidying).nest().placements == sheets_view(now));
    assert(old(tidying).nest().placements == sheets_view(before));
    assert(sheets_view(now).len() == now.len() && sheets_view(before).len() == before.len());
    assert(sheets_view(now)[k] == now[k]@ && sheets_view(before)[k] == before[k]@);
}

/// A nest without a sheet has nothing to move; one with sheets is begun by moving
/// parts together. Tidying starts from the nest the search ended with.
pub proof fn law_tidying_starts_from_the_best(
    outcome: Outcome,
    threshold: Option<Scalar>,
    r: Tidying,
)
    requires
        call_ensures(Tidying::new, (outcome, threshold), r),
    ensures
        r.outcome == outcome,
        r.threshold == threshold,
        r.step == TidyStep::Consolidate <==> outcome.best.placements@.len() > 0,
        outcome.best.placements@.len() == 0 && threshold is None ==> r.step == TidyStep::Done,
        outcome.best.placements@.len() == 0 && threshold is Some ==> r.step == TidyStep::Total,
{
}

/// The answer is the tidied nest, sheet by sheet, with its figures and what it
/// left over.
pub proof fn law_the_answer_is_the_tidied_nest(
    tidying: Tidying,
    parts: HashMap<usize, PolygonDto>,
    rules: HashMap<usize, PartRuleDto>,
    r: RunNestResponse,
    k: int,
)
    requires
        call_ensures(Tidying::finish, (tidying, parts, rules), r),
    ensures
        r.placements@.len() == tidying.outcome.best.placements@.len(),
        0 <= k < r.placements@.len() ==> r.placements@[k].sheet_index
            == tidying.outcome.best.placements@[k].sheet_index && r.placements@[k].parts@
            == tidying.outcome.best.placements@[k].parts@,
        r.fitness == tidying.outcome.best.fitness,
        r.utilisation == tidying.outcome.best.utilisation,
        r.unplaced_count == tidying.outcome.best.unplaced_count,
        r.unplaced_ids@ == tidying.outcome.best.unplaced_ids@,
        r.parts_by_id == parts,
        r.part_rules == rules,
        r.cancelled == tidying.outcome.cancelled,
        r.history@.len() == tidying.outcome.history@.len(),
{
    law_a_model_holds_every_field(tidying.outcome.best);
    let now = r.placements@;
    let before = tidying.outcome.best.placements@;
    assert(sheets_view(now) == sheets_view(before));
    assert(sheets_view(now).len() == now.len() && sheets_view(before).len() == before.len());
    if 0 <= k < now.len() {
        assert(sheets_view(now)[k] == now[k]@ && sheets_view(before)[k] == before[k]@);
    }
}

} // verus!
