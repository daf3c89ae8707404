//! A finished nest on its way out: answered, and kept if it is the best one yet.

use std::collections::HashMap;
use vstd::prelude::*;
use crate::config::NestConfigDto;
use crate::escalation::{attempts_view, law_a_model_is_its_attempt, Attempt, AttemptModel};
use crate::parts::PartRuleDto;
use crate::placement::{
    copy_ids, copy_sheets, law_a_model_holds_every_field, sheets_view, PlaceModel, PlaceResult,
    SheetModel, SheetPlacementDto,
};
use crate::ranking::{
    law_beats_compares_every_number, law_beats_is_a_strict_order, replaces_saved, Score,
};
use crate::scalar::Scalar;
use crate::shape::PolygonDto;

verus! {

broadcast use vstd::std_specs::hash::group_hash_axioms;

// --- the answer -----------------------------------------------------------

/// One nest of a run's history.
#[derive(Debug)]
pub struct NestSnapshotDto {
    pub generation: usize,
    pub placements: Vec<SheetPlacementDto>,
    pub fitness: Scalar,
    pub utilisation: Scalar,
    pub unplaced_count: usize,
    pub unplaced_ids: Vec<usize>,
}

/// What a [`NestSnapshotDto`] holds.
#[verifier::ext_equal]
pub struct NestSnapshotModel {
    pub generation: int,
    pub placements: Seq<SheetModel>,
    pub fitness: Scalar,
    pub utilisation: Scalar,
    pub unplaced_count: usize,
    pub unplaced_ids: Seq<usize>,
}

impl View for NestSnapshotDto {
    type V = NestSnapshotModel;

    open spec fn view(&self) -> NestSnapshotModel {
        NestSnapshotModel {
            generation: self.generation as int,
            placements: sheets_view(self.placements@),
            fitness: self.fitness,
            utilisation: self.utilisation,
            unplaced_count: self.unplaced_count,
            unplaced_ids: self.unplaced_ids@,
        }
    }
}

/// What a history holds.
pub open spec fn snapshots_view(history: Seq<NestSnapshotDto>) -> Seq<NestSnapshotModel> {
    history.map_values(|s: NestSnapshotDto| s@)
}

/// An attempt as the history shows it.
pub open spec fn snapshot_of(attempt: AttemptModel) -> NestSnapshotModel {
    NestSnapshotModel {
        generation: attempt.generation,
        placements: attempt.result.placements,
        fitness: attempt.result.fitness,
        utilisation: attempt.result.utilisation,
        unplaced_count: attempt.result.unplaced_count,
        unplaced_ids: attempt.result.unplaced_ids,
    }
}

/// The answer to a job.
pub struct RunNestResponse {
    pub placements: Vec<SheetPlacementDto>,
    pub fitness: Scalar,
    pub utilisation: Scalar,
    pub unplaced_count: usize,
    pub unplaced_ids: Vec<usize>,
    /// Every copy of the job by its id, placed or not, and the flipped shapes.
    pub parts_by_id: HashMap<usize, PolygonDto>,
    pub part_rules: HashMap<usize, PartRuleDto>,
    /// Every nest that beat all before it, in the order found. The last one is
    /// the answer itself, as tidied up.
    pub history: Vec<NestSnapshotDto>,
    pub cancelled: bool,
}

/// Whether an answer's history ends with the very nest that is answered: the
/// fields beside it are its last entry once more.
pub open spec fn ends_with_answer(response: RunNestResponse) -> bool {
    response.history@.len() > 0 ==> {
        let last = response.history@.last()@;
        &&& last.placements == sheets_view(response.placements@)
        &&& last.fitness == response.fitness
        &&& last.utilisation == response.utilisation
        &&& last.unplaced_count == response.unplaced_count
        &&& last.unplaced_ids == response.unplaced_ids@
    }
}

/// A nest as the history shows it under a label.
pub open spec fn shown_as(result: PlaceModel, generation: int) -> NestSnapshotModel {
    snapshot_of(AttemptModel { generation, result })
}

/// A job's history as its answer shows it: the last attempt, which is the nest
/// that was tidied up, appears as it was left.
pub open spec fn answered_history(history: Seq<AttemptModel>, best: PlaceModel) -> Seq<
    NestSnapshotModel,
> {
    Seq::new(
        history.len(),
        |i: int|
            if i == history.len() - 1 {
                shown_as(best, history[i].generation)
            } else {
                snapshot_of(history[i])
            },
    )
}

fn snapshot(result: &PlaceResult, generation: usize) -> (r: NestSnapshotDto)
    ensures
        r@ == shown_as(result@, generation as int),
{
    NestSnapshotDto {
        generation,
        placements: copy_sheets(&result.placements),
        fitness: result.fitness,
        utilisation: result.utilisation,
        unplaced_count: result.unplaced_count,
        unplaced_ids: copy_ids(&result.unplaced_ids),
    }
}

/// The answer to a job, from its best nest as tidied up and the history that
/// led to it. The history ends with the very nest that is answered.
pub fn nest_response(
    best: PlaceResult,
    history: &Vec<Attempt>,
    cancelled: bool,
    parts_by_id: HashMap<usize, PolygonDto>,
    part_rules: HashMap<usize, PartRuleDto>,
) -> (r: RunNestResponse)
    ensures
        r.placements == best.placements,
        r.fitness == best.fitness,
        r.utilisation == best.utilisation,
        r.unplaced_count == best.unplaced_count,
        r.unplaced_ids == best.unplaced_ids,
        r.parts_by_id == parts_by_id,
        r.part_rules == part_rules,
        r.cancelled == cancelled,
        snapshots_view(r.history@) == answered_history(attempts_view(history@), best@),
        ends_with_answer(r),
        r.history@.len() == history@.len(),
        forall|i: int|
            0 <= i < history@.len() ==> (#[trigger] r.history@[i]).generation
                == history@[i].generation,
{
    let mut snapshots: Vec<NestSnapshotDto> = Vec::new();
    let mut i: usize = 0;
    while i < history.len()
        invariant
            i <= history.len(),
            snapshots@.len() == i,
            forall|k: int|
                0 <= k < i ==> (#[trigger] snapshots@[k])@ == answered_history(
                    attempts_view(history@),
                    best@,
                )[k],
        decreases history.len() - i,
    {
        let attempt = &history[i];
        let shown = if i + 1 == history.len() {
            &best
        } else {
            &attempt.result
        };
        snapshots.push(snapshot(shown, attempt.generation));
        i += 1;
    }
    assert(snapshots_view(snapshots@) =~= answered_history(attempts_view(history@), best@));
    assert forall|k: int| 0 <= k < history@.len() implies (#[trigger] snapshots@[k]).generation
        == history@[k].generation by {
        assert(snapshots@[k]@ == answered_history(attempts_view(history@), best@)[k]);
    }
    RunNestResponse {
        placements: best.placements,
        fitness: best.fitness,
        utilisation: best.utilisation,
        unplaced_count: best.unplaced_count,
        unplaced_ids: best.unplaced_ids,
        parts_by_id,
        part_rules,
        history: snapshots,
        cancelled,
    }
}

// --- the best one yet -----------------------------------------------------

/// The best nest of any session, as it is saved.
pub struct BestResultDto {
    pub placements: Vec<SheetPlacementDto>,
    pub fitness: Scalar,
    pub utilisation: Scalar,
    pub unplaced_count: usize,
    pub unplaced_ids: Vec<usize>,
    pub parts_by_id: HashMap<usize, PolygonDto>,
    pub sheets: Vec<PolygonDto>,
    pub part_rules: HashMap<usize, PartRuleDto>,
    /// Nothing in a file from before settings were saved along.
    pub config: Option<NestConfigDto>,
}

/// Whether two maps hold the same shapes under the same ids.
pub open spec fn same_shapes(a: Map<usize, PolygonDto>, b: Map<usize, PolygonDto>) -> bool {
    &&& a.dom() =~= b.dom()
    &&& forall|id: usize| #[trigger] a.contains_key(id) ==> a[id]@ == b[id]@
}

/// Whether two maps hold the same rules under the same ids.
pub open spec fn same_rules(a: Map<usize, PartRuleDto>, b: Map<usize, PartRuleDto>) -> bool {
    &&& a.dom() =~= b.dom()
    &&& forall|id: usize| #[trigger] a.contains_key(id) ==> a[id]@ == b[id]@
}

/// A copy of a map of shapes.
pub fn copy_shapes(shapes: &HashMap<usize, PolygonDto>) -> (r: HashMap<usize, PolygonDto>)
    ensures
        same_shapes(r@, shapes@),
{
    let mut out: HashMap<usize, PolygonDto> = HashMap::new();
    let ghost all = vstd::std_specs::iter::IteratorSpec::remaining(
        &vstd::std_specs::hash::spec_keys_iter(shapes),
    );
    for key in it: shapes.keys()
        invariant
            it.seq() == all,
            all.unref().to_set() == shapes@.dom(),
            forall|id: usize|
                #[trigger] out@.contains_key(id) ==> shapes@.contains_key(id) && out@[id]@
                    == shapes@[id]@,
            forall|k: int| 0 <= k < it.index() ==> out@.contains_key(*#[trigger] all[k]),
    {
        proof {
            assert(all.unref()[it.index() as int] == *key);
            assert(all.unref().to_set().contains(*key));
        }
        match shapes.get(key) {
            Some(shape) => {
                out.insert(*key, shape.clone());
            },
            None => {},
        }
    }
    assert forall|id: usize| shapes@.contains_key(id) implies out@.contains_key(id) by {
        assert(all.unref().to_set().contains(id));
        assert(all.unref().contains(id));
        let k = choose|k: int| 0 <= k < all.unref().len() && all.unref()[k] == id;
        assert(*all[k] == id);
    }
    assert(out@.dom() =~= shapes@.dom());
    out
}

/// A copy of a map of rules.
pub fn copy_rules(rules: &HashMap<usize, PartRuleDto>) -> (r: HashMap<usize, PartRuleDto>)
    ensures
        same_rules(r@, rules@),
{
    let mut out: HashMap<usize, PartRuleDto> = HashMap::new();
    let ghost all = vstd::std_specs::iter::IteratorSpec::remaining(
        &vstd::std_specs::hash::spec_keys_iter(rules),
    );
    for key in it: rules.keys()
        invariant
            it.seq() == all,
            all.unref().to_set() == rules@.dom(),
            forall|id: usize|
                #[trigger] out@.contains_key(id) ==> rules@.contains_key(id) && out@[id]@
                    == rules@[id]@,
            forall|k: int| 0 <= k < it.index() ==> out@.contains_key(*#[trigger] all[k]),
    {
        proof {
            assert(all.unref()[it.index() as int] == *key);
            assert(all.unref().to_set().contains(*key));
        }
        match rules.get(key) {
            Some(rule) => {
                out.insert(*key, rule.clone());
            },
            None => {},
        }
    }
    assert forall|id: usize| rules@.contains_key(id) implies out@.contains_key(id) by {
        assert(all.unref().to_set().contains(id));
        assert(all.unref().contains(id));
        let k = choose|k: int| 0 <= k < all.unref().len() && all.unref()[k] == id;
        assert(*all[k] == id);
    }
    assert(out@.dom() =~= rules@.dom());
    out
}

/// What an answer puts forward for saving: the nest with everything needed to
/// show and edit it again, unless it placed nothing or was stopped.
pub fn best_candidate(
    response: &RunNestResponse,
    sheets: Vec<PolygonDto>,
    config: Option<NestConfigDto>,
) -> (r: Option<BestResultDto>)
    ensures
        match r {
            None => response.placements@.len() == 0 || response.cancelled,
            Some(best) => {
                &&& response.placements@.len() > 0
                &&& !response.cancelled
                &&& sheets_view(best.placements@) == sheets_view(response.placements@)
                &&& best.fitness == response.fitness
                &&& best.utilisation == response.utilisation
                &&& best.unplaced_count == response.unplaced_count
                &&& best.unplaced_ids@ == response.unplaced_ids@
                &&& same_shapes(best.parts_by_id@, response.parts_by_id@)
                &&& best.sheets == sheets
                &&& same_rules(best.part_rules@, response.part_rules@)
                &&& best.config == config
            },
        },
{
    if response.placements.len() == 0 || response.cancelled {
        return None;
    }
    Some(
        BestResultDto {
            placements: copy_sheets(&response.placements),
            fitness: response.fitness,
            utilisation: response.utilisation,
            unplaced_count: response.unplaced_count,
            unplaced_ids: copy_ids(&response.unplaced_ids),
            parts_by_id: copy_shapes(&response.parts_by_id),
            sheets,
            part_rules: copy_rules(&response.part_rules),
            config,
        },
    )
}

/// The score of a saved nest.
pub open spec fn saved_score(best: BestResultDto) -> Score {
    Score {
        unplaced: best.unplaced_count,
        sheets: best.placements@.len() as usize,
        utilisation: best.utilisation,
    }
}

/// Whether a candidate is written over what is saved: where nothing readable
/// is saved, or where it beats it.
pub open spec fn saves(candidate: BestResultDto, saved: Option<BestResultDto>) -> bool {
    match saved {
        None => true,
        Some(previous) => saved_score(candidate).beats(saved_score(previous)),
    }
}

/// Whether a candidate is written over what is saved.
pub fn should_save(candidate: &BestResultDto, saved: &Option<BestResultDto>) -> (r: bool)
    ensures
        r == saves(*candidate, *saved),
{
    let score = Score {
        unplaced: candidate.unplaced_count,
        sheets: candidate.placements.len(),
        utilisation: candidate.utilisation,
    };
    match saved {
        None => replaces_saved(score, None),
        Some(previous) => replaces_saved(
            score,
            Some(
                Score {
                    unplaced: previous.unplaced_count,
                    sheets: previous.placements.len(),
                    utilisation: previous.utilisation,
                },
            ),
        ),
    }
}

/// What is saved once some candidates have been put forward in turn, to a file
/// that held nothing: each is written over what is there, or changes nothing.
pub open spec fn saved_after(candidates: Seq<BestResultDto>) -> Option<BestResultDto>
    decreases candidates.len(),
{
    if candidates.len() == 0 {
        None
    } else {
        let saved = saved_after(candidates.drop_last());
        if saves(candidates.last(), saved) {
            Some(candidates.last())
        } else {
            saved
        }
    }
}

/// Whether the candidate at a place is the first that none of them beats.
pub open spec fn first_unbeaten(candidates: Seq<BestResultDto>, at: int) -> bool {
    &&& 0 <= at < candidates.len()
    &&& forall|j: int|
        0 <= j < candidates.len() ==> !saved_score(#[trigger] candidates[j]).beats(
            saved_score(candidates[at]),
        )
    &&& forall|j: int|
        0 <= j < at ==> saved_score(candidates[at]).beats(saved_score(#[trigger] candidates[j]))
}

/// Candidates put forward in turn leave the first that none of them beats, as
/// long as every utilisation is a number.
pub proof fn law_saving_in_turn_keeps_the_first_unbeaten(candidates: Seq<BestResultDto>)
    requires
        candidates.len() > 0,
        forall|j: int|
            0 <= j < candidates.len() ==> !(#[trigger] candidates[j]).utilisation.nan(),
    ensures
        exists|at: int|
            #[trigger] first_unbeaten(candidates, at) && saved_after(candidates) == Some(
                candidates[at],
            ),
    decreases candidates.len(),
{
    let earlier = candidates.drop_last();
    let last = candidates.len() - 1;
    if earlier.len() == 0 {
        assert(first_unbeaten(candidates, last));
    } else {
        assert forall|j: int| 0 <= j < earlier.len() implies !(
        #[trigger] earlier[j]).utilisation.nan() by {
            assert(earlier[j] == candidates[j]);
        }
        law_saving_in_turn_keeps_the_first_unbeaten(earlier);
        let at = choose|at: int|
            #[trigger] first_unbeaten(earlier, at) && saved_after(earlier) == Some(earlier[at]);
        assert(earlier[at] == candidates[at]);
        if saves(candidates.last(), saved_after(earlier)) {
            assert forall|j: int| 0 <= j < candidates.len() implies !saved_score(
                #[trigger] candidates[j],
            ).beats(saved_score(candidates[last])) && (j < last ==> saved_score(
                candidates[last],
            ).beats(saved_score(candidates[j]))) by {
                if j < last {
                    assert(earlier[j] == candidates[j]);
                    law_beats_compares_every_number(
                        saved_score(candidates[last]),
                        saved_score(candidates[j]),
                        saved_score(candidates[at]),
                    );
                }
                law_beats_is_a_strict_order(
                    saved_score(candidates[last]),
                    saved_score(candidates[j]),
                    saved_score(candidates[last]),
                );
            }
            assert(first_unbeaten(candidates, last));
        } else {
            assert forall|j: int| 0 <= j < candidates.len() implies !saved_score(
                #[trigger] candidates[j],
            ).beats(saved_score(candidates[at])) by {
                if j < last {
                    assert(earlier[j] == candidates[j]);
                }
            }
            assert forall|j: int| 0 <= j < at implies saved_score(candidates[at]).beats(
                saved_score(#[trigger] candidates[j]),
            ) by {
                assert(earlier[j] == candidates[j]);
            }
            assert(first_unbeaten(candidates, at));
        }
    }
}

/// A candidate that does not beat what is saved leaves it untouched, and one
/// that does takes its place.
pub proof fn law_only_a_better_candidate_is_saved(
    candidates: Seq<BestResultDto>,
    next: BestResultDto,
)
    ensures
        saved_after(candidates.push(next)) == match saved_after(candidates) {
            None => Some(next),
            Some(previous) => if saved_score(next).beats(saved_score(previous)) {
                Some(next)
            } else {
                Some(previous)
            },
        },
{
    assert(candidates.push(next).drop_last() == candidates);
}

// --- what a result promises -----------------------------------------------

/// The history of an answer is what the search found, in its order and under its
/// numbers, nest by nest; but for the last, which is the answer itself.
pub proof fn law_the_history_is_what_was_found(
    best: PlaceResult,
    history: &Vec<Attempt>,
    cancelled: bool,
    parts: HashMap<usize, PolygonDto>,
    rules: HashMap<usize, PartRuleDto>,
    r: RunNestResponse,
    i: int,
    k: int,
)
    requires
        call_ensures(nest_response, (best, history, cancelled, parts, rules), r),
        0 <= i < history@.len(),
    ensures
        r.placements == best.placements,
        r.fitness == best.fitness,
        r.utilisation == best.utilisation,
        r.unplaced_count == best.unplaced_count,
        r.unplaced_ids == best.unplaced_ids,
        r.cancelled == cancelled,
        r.parts_by_id == parts,
        r.part_rules == rules,
        r.history@.len() == history@.len(),
        r.history@[i].generation == history@[i].generation,
        ({
            let found = if i == history@.len() - 1 {
                best
            } else {
                history@[i].result
            };
            &&& r.history@[i].fitness == found.fitness
            &&& r.history@[i].utilisation == found.utilisation
            &&& r.history@[i].unplaced_count == found.unplaced_count
            &&& r.history@[i].unplaced_ids@ == found.unplaced_ids@
            &&& r.history@[i].placements@.len() == found.placements@.len()
            &&& 0 <= k < found.placements@.len() ==> r.history@[i].placements@[k].sheet_index
                == found.placements@[k].sheet_index && r.history@[i].placements@[k].parts@
                == found.placements@[k].parts@
        }),
{
    let found = if i == history@.len() - 1 {
        best
    } else {
        history@[i].result
    };
    law_a_model_holds_every_field(found);
    law_a_model_is_its_attempt(history@, i);
    let told = snapshots_view(r.history@);
    assert(told == answered_history(attempts_view(history@), best@));
    assert(told[i] == r.history@[i]@);
    assert(told[i].placements == found@.placements);
    let now = r.history@[i].placements@;
    assert(sheets_view(now).len() == now.len());
    assert(sheets_view(found.placements@).len() == found.placements@.len());
    if 0 <= k < found.placements@.len() {
        assert(sheets_view(now)[k] == now[k]@);
        assert(sheets_view(found.placements@)[k] == found.placements@[k]@);
    }
}

/// What an answer offers for saving is the answer, sheet by sheet, with the
/// sheets and settings it was made from; and it offers it exactly where
/// something was placed and the job was not stopped.
pub proof fn law_a_whole_answer_is_offered(
    response: &RunNestResponse,
    sheets: Vec<PolygonDto>,
    config: Option<NestConfigDto>,
    r: Option<BestResultDto>,
    k: int,
    id: usize,
)
    requires
        call_ensures(best_candidate, (response, sheets, config), r),
    ensures
        r is Some <==> response.placements@.len() > 0 && !response.cancelled,
        r matches Some(best) ==> {
            &&& best.placements@.len() == response.placements@.len()
            &&& 0 <= k < best.placements@.len() ==> best.placements@[k].sheet_index
                == response.placements@[k].sheet_index && best.placements@[k].parts@
                == response.placements@[k].parts@
            &&& best.fitness == response.fitness
            &&& best.utilisation == response.utilisation
            &&& best.unplaced_count == response.unplaced_count
            &&& best.unplaced_ids@ == response.unplaced_ids@
            &&& best.sheets == sheets
            &&& best.config == config
            &&& best.parts_by_id@.contains_key(id) <==> response.parts_by_id@.contains_key(id)
            &&& best.parts_by_id@.contains_key(id) ==> best.parts_by_id@[id]@
                == response.parts_by_id@[id]@
            &&& best.part_rules@.contains_key(id) <==> response.part_rules@.contains_key(id)
            &&& best.part_rules@.contains_key(id) ==> best.part_rules@[id]@
                == response.part_rules@[id]@
        },
{
    if let Some(best) = r {
        let now = best.placements@;
        let before = response.placements@;
        assert(sheets_view(now) == sheets_view(before));
        assert(sheets_view(now).len() == now.len() && sheets_view(before).len() == before.len());
        if 0 <= k < now.len() {
            assert(sheets_view(now)[k] == now[k]@ && sheets_view(before)[k] == before[k]@);
        }
        assert(best.parts_by_id@.dom().contains(id) <==> response.parts_by_id@.dom().contains(id));
        assert(best.part_rules@.dom().contains(id) <==> response.part_rules@.dom().contains(id));
    }
}

/// An answer replaces the saved one exactly where there is none, or where it
/// leaves fewer parts over, or as many on fewer sheets, or as many on as many
/// and fuller.
pub proof fn law_an_answer_is_saved_where_it_is_better(
    candidate: &BestResultDto,
    saved: &Option<BestResultDto>,
    r: bool,
)
    requires
        call_ensures(should_save, (candidate, saved), r),
    ensures
        saved is None ==> r,
        saved matches Some(previous) ==> (r <==> {
            ||| candidate.unplaced_count < previous.unplaced_count
            ||| candidate.unplaced_count == previous.unplaced_count && candidate.placements@.len()
                < previous.placements@.len()
            ||| candidate.unplaced_count == previous.unplaced_count && candidate.placements@.len()
                == previous.placements@.len() && previous.utilisation.below(
                candidate.utilisation,
            )
        }),
{
    assert(candidate.placements@.len() == candidate.placements.len());
    if let Some(previous) = saved {
        assert(previous.placements@.len() == previous.placements.len());
    }
}

/// A copy of shapes or rules has the ids that were there, and for each its own.
pub proof fn law_copies_keep_every_shape_and_rule(
    shapes: &HashMap<usize, PolygonDto>,
    same: HashMap<usize, PolygonDto>,
    rules: &HashMap<usize, PartRuleDto>,
    kept: HashMap<usize, PartRuleDto>,
    id: usize,
)
    requires
        call_ensures(copy_shapes, (shapes,), same),
        call_ensures(copy_rules, (rules,), kept),
    ensures
        same@.contains_key(id) <==> shapes@.contains_key(id),
        shapes@.contains_key(id) ==> same@[id]@ == shapes@[id]@,
        kept@.contains_key(id) <==> rules@.contains_key(id),
        rules@.contains_key(id) ==> kept@[id]@ == rules@[id]@,
{
    assert(same@.dom().contains(id) <==> shapes@.dom().contains(id));
    assert(kept@.dom().contains(id) <==> rules@.dom().contains(id));
}

} // verus!
