//! Editing a finished result: pinning a part, moving it by hand, repacking a
//! sheet.

use std::collections::HashMap;
use vstd::prelude::*;
use crate::config::NestConfigDto;
use crate::console::Kind;
use crate::i18n::{filled, shown_text, t, tv_one, Dicts};
use crate::live::{
    find_part, law_a_part_is_found_where_it_stands, law_a_result_holds_every_field, part_place,
    remembered, stack_view, with_part_moved, SnapshotModel,
};
use crate::placement::{PlacedPartDto, SheetModel, SheetPlacementDto};
use crate::requests::{
    mark_locked, marked, AuditRequest, RepackSheetRequest, RepackSheetResponse,
    ValidatePlacementResponse,
};
use crate::result::{copy_rules, same_rules};
use crate::scalar::Scalar;
use crate::session::{
    says, snapshot_view, tells_err, tells_ok, App, AuditReason, Drag, Effects, LogModel,
};
use crate::shape::PolygonDto;
use crate::text::{decimal, decimal_text};

verus! {

broadcast use vstd::std_specs::hash::group_hash_axioms;

/// Where a part comes to rest.
#[derive(Clone, Copy, PartialEq, Eq, Structural, Debug)]
pub struct Landing {
    pub x: Scalar,
    pub y: Scalar,
    pub rotation: Scalar,
}

/// What the engine is asked about a part that was moved: everything but the sums
/// of its place and the movement.
pub struct MoveQuestion {
    pub sheet: PolygonDto,
    pub placement: SheetPlacementDto,
    pub parts_by_id: HashMap<usize, PolygonDto>,
    pub part: PlacedPartDto,
    pub drag: Drag,
    pub config: NestConfigDto,
}

/// Whether a map holds the shapes of a sheet's parts, as far as they are known,
/// and nothing else.
pub open spec fn holds_sheet_parts(
    map: Map<usize, PolygonDto>,
    parts: Seq<PlacedPartDto>,
    shapes: Map<usize, PolygonDto>,
) -> bool {
    forall|id: usize|
        #![trigger map.contains_key(id)]
        {
            &&& map.contains_key(id) <==> shapes.contains_key(id) && part_place(parts, id)
                < parts.len()
            &&& map.contains_key(id) ==> map[id]@ == shapes[id]@
        }
}

/// The shapes of a sheet's parts, as far as they are known.
fn sheet_parts(
    parts: &Vec<PlacedPartDto>,
    shapes: &HashMap<usize, PolygonDto>,
) -> (r: HashMap<usize, PolygonDto>)
    ensures
        holds_sheet_parts(r@, parts@, shapes@),
{
    let mut out: HashMap<usize, PolygonDto> = HashMap::new();
    let mut i: usize = 0;
    assert(parts@.subrange(0, 0).len() == 0);
    while i < parts.len()
        invariant
            i <= parts.len(),
            holds_sheet_parts(out@, parts@.subrange(0, i as int), shapes@),
        decreases parts.len() - i,
    {
        let id: usize = parts[i].id;
        let ghost before = out@;
        let ghost done = parts@.subrange(0, i as int);
        let ghost next = parts@.subrange(0, i + 1);
        match shapes.get(&id) {
            Some(shape) => {
                out.insert(id, shape.clone());
            },
            None => {},
        }
        proof {
            assert(next.drop_last() == done);
            assert forall|k: usize|
                #![trigger out@.contains_key(k)]
                {
                    &&& out@.contains_key(k) <==> shapes@.contains_key(k) && part_place(next, k)
                        < next.len()
                    &&& out@.contains_key(k) ==> out@[k]@ == shapes@[k]@
                } by {
                assert(before.contains_key(k) <==> shapes@.contains_key(k) && part_place(done, k)
                    < done.len());
            }
        }
        i += 1;
    }
    assert(parts@.subrange(0, parts@.len() as int) == parts@);
    out
}

impl App {
    /// The place of a result's sheet among the sheets of the job; one that is
    /// not there is drawn on the first.
    pub open spec fn sheet_place(&self, placement: SheetModel) -> Option<int> {
        if placement.sheet_index < self.result_sheets@.len() {
            Some(placement.sheet_index as int)
        } else if self.result_sheets@.len() > 0 {
            Some(0)
        } else {
            None
        }
    }

    fn find_sheet(&self, sheet_index: usize) -> (r: Option<usize>)
        ensures
            match r {
                Some(place) => {
                    &&& place < self.result_sheets@.len()
                    &&& forall|m: SheetModel|
                        m.sheet_index == sheet_index ==> #[trigger] self.sheet_place(m) == Some(
                            place as int,
                        )
                },
                None => forall|m: SheetModel|
                    m.sheet_index == sheet_index ==> (#[trigger] self.sheet_place(m)) is None,
            },
    {
        if sheet_index < self.result_sheets.len() {
            Some(sheet_index)
        } else if self.result_sheets.len() > 0 {
            Some(0)
        } else {
            None
        }
    }

    /// Pins a part of the result, or lets it go.
    pub fn toggle_pin(&mut self, id: usize, dicts: &Dicts)
        requires
            dicts.wf(),
        ensures
            old(self).wf() ==> final(self).wf(),
            match old(self).snapshot {
                None => *final(self) == *old(self),
                Some(was) => {
                    let pinned = !was@.locked.contains(id);
                    &&& *final(self) == (App {
                        snapshot: final(self).snapshot,
                        run_status: final(self).run_status,
                        ..*old(self)
                    })
                    &&& snapshot_view(final(self).snapshot) == Some(
                        SnapshotModel {
                            locked: if pinned {
                                was@.locked.insert(id)
                            } else {
                                was@.locked.remove(id)
                            },
                            ..was@
                        },
                    )
                    &&& final(self).run_status@ == tells_ok(
                        filled(
                            shown_text(
                                *dicts,
                                old(self).lang,
                                if pinned {
                                    "pin_locked"@
                                } else {
                                    "pin_unlocked"@
                                },
                            ),
                            seq![("id"@, decimal(id as nat))],
                        ),
                    )
                },
            },
    {
        let pinned = match &mut self.snapshot {
            None => {
                return;
            },
            Some(snapshot) => snapshot.toggle_pin(id),
        };
        let number = decimal_text(id as u64);
        let key = if pinned {
            "pin_locked"
        } else {
            "pin_unlocked"
        };
        self.run_status.ok(tv_one(dicts, self.lang, key, "id", number.as_str()));
    }

    /// What a moved part that may stay leaves: the result before it can be gone
    /// back to, the part is where it landed and pinned there, and the result is
    /// checked anew.
    pub open spec fn part_landed(
        before: App,
        drag: Drag,
        landing: Landing,
        dicts: Dicts,
        after: App,
        request: Option<AuditRequest>,
    ) -> bool {
        let part = PlacedPartDto {
            id: drag.part_id,
            x: landing.x,
            y: landing.y,
            rotation: landing.rotation,
            locked: true,
        };
        let mid = App {
            drag: None,
            undo_stack: after.undo_stack,
            redo_stack: after.redo_stack,
            snapshot: after.snapshot,
            run_status: after.run_status,
            ..before
        };
        &&& App::audit_requested(mid, AuditReason::Drag, after, request)
        &&& after.run_status@ == tells_ok(
            filled(
                shown_text(dicts, before.lang, "drag_placed"@),
                seq![("id"@, decimal(drag.part_id as nat))],
            ),
        )
        &&& match before.snapshot {
            Some(was) => {
                &&& stack_view(after.undo_stack@) == remembered(
                    stack_view(before.undo_stack@),
                    was@,
                )
                &&& after.redo_stack@.len() == 0
                &&& snapshot_view(after.snapshot) == Some(
                    SnapshotModel {
                        placements: with_part_moved(was@.placements, drag.sheet, part),
                        locked: was@.locked.insert(drag.part_id),
                        ..was@
                    },
                )
            },
            None => after.snapshot is None && after.undo_stack == before.undo_stack
                && after.redo_stack == before.redo_stack,
        }
    }

    /// What the engine's answer about a moved part leads to.
    pub open spec fn drag_finished(
        before: App,
        result: Result<ValidatePlacementResponse, String>,
        landing: Landing,
        dicts: Dicts,
        after: App,
        effects: Effects,
    ) -> bool {
        match before.drag {
            None => after == before && effects.only_says(Seq::empty()),
            Some(drag) => match result {
                Ok(response) => if response.valid {
                    &&& App::part_landed(before, drag, landing, dicts, after, effects.audit)
                    &&& effects.log@.len() == 0
                    &&& !effects.save_store
                } else {
                    &&& after == (App { drag: None, run_status: after.run_status, ..before })
                    &&& after.run_status@ == tells_err(
                        shown_text(dicts, before.lang, "drag_rejected"@),
                    )
                    &&& effects.only_says(Seq::empty())
                },
                Err(e) => {
                    &&& after == (App { drag: None, run_status: after.run_status, ..before })
                    &&& after.run_status@ == tells_err(
                        filled(
                            shown_text(dicts, before.lang, "drag_failed"@),
                            seq![("err"@, e@)],
                        ),
                    )
                    &&& effects.only_says(
                        seq![says(Kind::Error, "placement check failed: "@ + e@)],
                    )
                },
            },
        }
    }

    /// Takes the engine's answer about a moved part. `landing` is where the part
    /// comes to rest if it may.
    pub fn finish_drag(
        &mut self,
        result: Result<ValidatePlacementResponse, String>,
        landing: Landing,
        dicts: &Dicts,
    ) -> (effects: Effects)
        requires
            old(self).wf(),
            dicts.wf(),
        ensures
            final(self).wf(),
            App::drag_finished(*old(self), result, landing, *dicts, *final(self), effects),
    {
        let mut effects = Effects::none();
        assert(crate::session::log_view(effects.log@) =~= Seq::<LogModel>::empty());
        let drag = match self.drag {
            None => {
                return effects;
            },
            Some(drag) => drag,
        };
        self.drag = None;
        match result {
            Ok(response) => {
                if response.valid {
                    self.push_undo();
                    let part = PlacedPartDto {
                        id: drag.part_id,
                        x: landing.x,
                        y: landing.y,
                        rotation: landing.rotation,
                        locked: true,
                    };
                    match &mut self.snapshot {
                        Some(snapshot) => {
                            snapshot.move_part(drag.sheet, part);
                            snapshot.pin(drag.part_id);
                        },
                        None => {},
                    }
                    effects.audit = self.request_audit(AuditReason::Drag);
                    let number = decimal_text(drag.part_id as u64);
                    self.run_status.ok(
                        tv_one(dicts, self.lang, "drag_placed", "id", number.as_str()),
                    );
                } else {
                    self.run_status.err(t(dicts, self.lang, "drag_rejected").to_owned());
                }
            },
            Err(e) => {
                let mut line = "placement check failed: ".to_owned();
                line.append(e.as_str());
                effects.say(Kind::Error, line);
                self.run_status.err(tv_one(dicts, self.lang, "drag_failed", "err", e.as_str()));
            },
        }
        effects
    }

    /// Whether the result has a sheet of an index.
    pub open spec fn has_sheet(&self, index: int) -> bool {
        self.snapshot is Some && 0 <= index < self.snapshot->0.placements@.len()
    }

    /// What putting a repacked sheet in place leaves.
    pub open spec fn sheet_repacked(
        before: App,
        index: usize,
        placement: SheetModel,
        after: App,
        request: Option<AuditRequest>,
    ) -> bool {
        if before.has_sheet(index as int) {
            let was = before.snapshot->0@;
            let mid = App {
                undo_stack: after.undo_stack,
                redo_stack: after.redo_stack,
                snapshot: after.snapshot,
                ..before
            };
            &&& App::audit_requested(mid, AuditReason::Repack, after, request)
            &&& stack_view(after.undo_stack@) == remembered(stack_view(before.undo_stack@), was)
            &&& after.redo_stack@.len() == 0
            &&& snapshot_view(after.snapshot) == Some(
                SnapshotModel { placements: was.placements.update(index as int, placement), ..was },
            )
        } else {
            after == before && request is None
        }
    }

    /// Puts a repacked sheet in place, unless the result no longer has that
    /// sheet. Says whether the sheet was improved.
    pub fn apply_repack(
        &mut self,
        index: usize,
        response: RepackSheetResponse,
    ) -> (r: (bool, Option<AuditRequest>))
        requires
            old(self).wf(),
        ensures
            final(self).wf(),
            r.0 == (old(self).has_sheet(index as int) && response.improved),
            App::sheet_repacked(*old(self), index, response.placement@, *final(self), r.1),
    {
        match &self.snapshot {
            Some(snapshot) => {
                if index >= snapshot.placements.len() {
                    return (false, None);
                }
            },
            None => {
                return (false, None);
            },
        }
        self.push_undo();
        match &mut self.snapshot {
            Some(snapshot) => snapshot.replace_sheet(index, response.placement),
            None => {},
        }
        let request = self.request_audit(AuditReason::Repack);
        (response.improved, request)
    }

    /// What a repack asks the engine.
    pub open spec fn repack_asked(before: App, index: int, request: RepackSheetRequest) -> bool {
        let was = before.snapshot->0@;
        let placement = was.placements[index];
        &&& before.sheet_place(placement) is Some
        &&& request.sheet@ == before.result_sheets@[before.sheet_place(placement)->0]@
        &&& request.placement@.sheet_index == placement.sheet_index
        &&& request.placement@.parts.len() == placement.parts.len()
        &&& forall|i: int|
            0 <= i < placement.parts.len() ==> #[trigger] request.placement@.parts[i] == (
            PlacedPartDto {
                locked: was.locked.contains(placement.parts[i].id),
                ..placement.parts[i]
            })
        &&& holds_sheet_parts(request.parts_by_id@, placement.parts, before.parts_by_id@)
        &&& Some(request.config) == before.result_config
        &&& same_rules(request.part_rules@, before.part_rules@)
    }

    /// Starts repacking a sheet: says what to ask the engine, with the pins of
    /// the result on the parts. A result whose settings are not known cannot be
    /// repacked.
    pub fn start_repack(&mut self, index: usize, dicts: &Dicts) -> (r: Option<RepackSheetRequest>)
        requires
            dicts.wf(),
        ensures
            old(self).wf() ==> final(self).wf(),
            match r {
                Some(request) => {
                    &&& old(self).has_sheet(index as int)
                    &&& App::repack_asked(*old(self), index as int, request)
                    &&& *final(self) == (App {
                        repacking: Some(index),
                        run_status: final(self).run_status,
                        ..*old(self)
                    })
                    &&& final(self).run_status@ == tells_ok(
                        shown_text(*dicts, old(self).lang, "repack_status_running"@),
                    )
                },
                None => if old(self).result_config is None {
                    &&& *final(self) == (App { run_status: final(self).run_status, ..*old(self) })
                    &&& final(self).run_status@ == tells_err(
                        shown_text(*dicts, old(self).lang, "repack_needs_config"@),
                    )
                } else {
                    &&& *final(self) == *old(self)
                    &&& !old(self).has_sheet(index as int) || old(self).sheet_place(
                        old(self).snapshot->0@.placements[index as int],
                    ) is None
                },
            },
    {
        let config = match self.result_config {
            Some(config) => config,
            None => {
                self.run_status.err(t(dicts, self.lang, "repack_needs_config").to_owned());
                return None;
            },
        };
        let request = match &self.snapshot {
            None => {
                return None;
            },
            Some(snapshot) => {
                if index >= snapshot.placements.len() {
                    return None;
                }
                let placement = &snapshot.placements[index];
                assert(snapshot@.placements[index as int] == placement@);
                let place: usize = match self.find_sheet(placement.sheet_index) {
                    Some(place) => place,
                    None => {
                        return None;
                    },
                };
                let parts = mark_locked(&placement.parts, &snapshot.locked);
                proof {
                    assert forall|i: int| 0 <= i < parts@.len() implies #[trigger] parts@[i] == (
                    PlacedPartDto {
                        locked: snapshot@.locked.contains(placement.parts@[i].id),
                        ..placement.parts@[i]
                    }) by {
                        assert(parts@[i] == marked(placement.parts@, snapshot.locked@)[i]);
                    }
                }
                RepackSheetRequest {
                    sheet: self.result_sheets[place].clone(),
                    placement: SheetPlacementDto { sheet_index: placement.sheet_index, parts },
                    parts_by_id: sheet_parts(&placement.parts, &self.parts_by_id),
                    config,
                    part_rules: copy_rules(&self.part_rules),
                }
            },
        };
        self.repacking = Some(index);
        self.run_status.ok(t(dicts, self.lang, "repack_status_running").to_owned());
        Some(request)
    }

    /// What the engine is asked about a moved part.
    pub open spec fn move_asked(
        before: App,
        drag: Drag,
        sheet_index: int,
        question: MoveQuestion,
    ) -> bool {
        let placement = before.snapshot->0@.placements[sheet_index];
        &&& before.sheet_place(placement) is Some
        &&& question.sheet@ == before.result_sheets@[before.sheet_place(placement)->0]@
        &&& question.placement@ == placement
        &&& holds_sheet_parts(question.parts_by_id@, placement.parts, before.parts_by_id@)
        &&& part_place(placement.parts, drag.part_id) < placement.parts.len()
        &&& question.part == placement.parts[part_place(placement.parts, drag.part_id)]
        &&& question.drag == drag
        &&& Some(question.config) == before.result_config
    }

    /// Whether the moved part and its sheet can be found.
    pub open spec fn move_found(&self, drag: Drag, sheet_index: int) -> bool {
        self.has_sheet(sheet_index) && ({
            let placement = self.snapshot->0@.placements[sheet_index];
            self.sheet_place(placement) is Some && part_place(placement.parts, drag.part_id)
                < placement.parts.len()
        })
    }

    /// Lets a moved part go: says what to ask the engine. A part that was not
    /// moved is put down; so is one of a result whose settings are not known,
    /// and the status says so.
    pub fn commit_drag(
        &mut self,
        sheet_index: usize,
        dicts: &Dicts,
    ) -> (r: Option<MoveQuestion>)
        requires
            dicts.wf(),
        ensures
            old(self).wf() ==> final(self).wf(),
            match old(self).drag {
                None => *final(self) == *old(self) && r is None,
                Some(drag) => if !drag.moved {
                    *final(self) == (App { drag: None, ..*old(self) }) && r is None
                } else if old(self).result_config is None {
                    &&& *final(self) == (App {
                        drag: None,
                        run_status: final(self).run_status,
                        ..*old(self)
                    })
                    &&& final(self).run_status@ == tells_err(
                        shown_text(*dicts, old(self).lang, "repack_needs_config"@),
                    )
                    &&& r is None
                } else if !old(self).move_found(drag, sheet_index as int) {
                    *final(self) == *old(self) && r is None
                } else {
                    &&& *final(self) == (App {
                        drag: Some(Drag { awaiting: true, ..drag }),
                        ..*old(self)
                    })
                    &&& r matches Some(question) && App::move_asked(
                        *old(self),
                        drag,
                        sheet_index as int,
                        question,
                    )
                },
            },
    {
        let drag = match self.drag {
            None => {
                return None;
            },
            Some(drag) => drag,
        };
        if !drag.moved {
            self.drag = None;
            return None;
        }
        let config = match self.result_config {
            Some(config) => config,
            None => {
                self.run_status.err(t(dicts, self.lang, "repack_needs_config").to_owned());
                self.drag = None;
                return None;
            },
        };
        let question = match &self.snapshot {
            None => {
                return None;
            },
            Some(snapshot) => {
                if sheet_index >= snapshot.placements.len() {
                    return None;
                }
                let placement = &snapshot.placements[sheet_index];
                assert(snapshot@.placements[sheet_index as int] == placement@);
                let place: usize = match self.find_sheet(placement.sheet_index) {
                    Some(place) => place,
                    None => {
                        return None;
                    },
                };
                let at: usize = find_part(&placement.parts, drag.part_id);
                if at >= placement.parts.len() {
                    return None;
                }
                MoveQuestion {
                    sheet: self.result_sheets[place].clone(),
                    placement: placement.clone(),
                    parts_by_id: sheet_parts(&placement.parts, &self.parts_by_id),
                    part: placement.parts[at],
                    drag,
                    config,
                }
            },
        };
        self.drag = Some(Drag { awaiting: true, ..drag });
        Some(question)
    }
}

// --- what editing a result promises ---------------------------------------

/// A part that may lie where it was let go lies there: on the sheet it was taken
/// from, at the place and the rotation of the landing, and pinned. Every other
/// part of every sheet stays where it was, and the result before is the newest
/// to go back to.
pub proof fn law_a_valid_move_moves_one_part(
    app: &mut App,
    answer: ValidatePlacementResponse,
    landing: Landing,
    dicts: &Dicts,
    effects: Effects,
    i: int,
    k: int,
)
    requires
        old(app).drag is Some,
        old(app).snapshot is Some,
        answer.valid,
        call_ensures(
            App::finish_drag,
            (app, Ok::<ValidatePlacementResponse, String>(answer), landing, dicts),
            effects,
        ),
        0 <= i < old(app).snapshot->Some_0.placements@.len(),
        0 <= k < old(app).snapshot->Some_0.placements@[i].parts@.len(),
    ensures
        final(app).drag is None,
        final(app).snapshot is Some,
        final(app).redo_stack@.len() == 0,
        final(app).undo_stack@.len() > 0,
        final(app).undo_stack@.last()@ == old(app).snapshot->Some_0@,
        final(app).snapshot->Some_0.locked@.contains(old(app).drag->Some_0.part_id),
        ({
            let drag = old(app).drag->Some_0;
            let was = old(app).snapshot->Some_0.placements@;
            let now = final(app).snapshot->Some_0.placements@;
            &&& now.len() == was.len()
            &&& now[i].sheet_index == was[i].sheet_index
            &&& now[i].parts@.len() == was[i].parts@.len()
            &&& i != drag.sheet || was[i].parts@[k].id != drag.part_id ==> now[i].parts@[k]
                == was[i].parts@[k]
            &&& i == drag.sheet && was[i].parts@[k].id == drag.part_id && (forall|j: int|
                0 <= j < k ==> (#[trigger] was[i].parts@[j]).id != drag.part_id) ==> {
                &&& now[i].parts@[k].id == drag.part_id
                &&& now[i].parts@[k].x == landing.x
                &&& now[i].parts@[k].y == landing.y
                &&& now[i].parts@[k].rotation == landing.rotation
                &&& now[i].parts@[k].locked
            }
        }),
{
    let drag = old(app).drag->Some_0;
    let before = old(app).snapshot->Some_0;
    let after = final(app).snapshot->Some_0;
    assert(snapshot_view(final(app).snapshot) is Some);
    law_a_result_holds_every_field(before, i, drag.part_id);
    law_a_result_holds_every_field(after, i, drag.part_id);
    let parts = before.placements@[i].parts@;
    law_a_part_is_found_where_it_stands(parts, drag.part_id);
    assert(before@.placements[i].parts == parts);
    assert(after@.placements[i].parts == after.placements@[i].parts@);
    let stack = stack_view(final(app).undo_stack@);
    assert(stack == remembered(stack_view(old(app).undo_stack@), before@));
    assert(stack.len() == final(app).undo_stack@.len());
    assert(stack.last() == final(app).undo_stack@.last()@);
    if i == drag.sheet && parts[k].id == drag.part_id && part_place(parts, drag.part_id) < k {
        assert(before.placements@[i].parts@[part_place(parts, drag.part_id)].id == drag.part_id);
    }
}

/// A part that may not lie where it was let go, or of which nothing could be
/// said, goes back: the result and what can be undone stay, and the status tells
/// of it.
pub proof fn law_an_invalid_move_goes_back(
    app: &mut App,
    answer: Result<ValidatePlacementResponse, String>,
    landing: Landing,
    dicts: &Dicts,
    effects: Effects,
)
    requires
        old(app).drag is Some,
        answer is Err || !answer->Ok_0.valid,
        call_ensures(App::finish_drag, (app, answer, landing, dicts), effects),
    ensures
        final(app).drag is None,
        final(app).snapshot == old(app).snapshot,
        final(app).undo_stack == old(app).undo_stack,
        final(app).redo_stack == old(app).redo_stack,
        final(app).audit == old(app).audit,
        final(app).run_status.error,
        effects.audit is None,
{
    assert(final(app).run_status@.error == final(app).run_status.error);
}

/// A repacked sheet takes the place of that sheet and of no other, and the result
/// before is the newest to go back to. Where the result no longer has the sheet
/// nothing happens.
pub proof fn law_a_repack_replaces_one_sheet(
    app: &mut App,
    index: usize,
    response: RepackSheetResponse,
    r: (bool, Option<AuditRequest>),
    i: int,
)
    requires
        call_ensures(App::apply_repack, (app, index, response), r),
        old(app).snapshot is Some,
        0 <= i < old(app).snapshot->Some_0.placements@.len(),
    ensures
        index >= old(app).snapshot->Some_0.placements@.len() ==> *final(app) == *old(app) && !r.0
            && r.1 is None,
        index < old(app).snapshot->Some_0.placements@.len() ==> {
            let was = old(app).snapshot->Some_0.placements@;
            let now = final(app).snapshot->Some_0.placements@;
            &&& r.0 == response.improved
            &&& final(app).snapshot is Some
            &&& now.len() == was.len()
            &&& i != index ==> now[i].parts@ == was[i].parts@ && now[i].sheet_index
                == was[i].sheet_index
            &&& i == index ==> now[i].parts@ == response.placement.parts@ && now[i].sheet_index
                == response.placement.sheet_index
            &&& final(app).undo_stack@.len() > 0
            &&& final(app).undo_stack@.last()@ == old(app).snapshot->Some_0@
            &&& final(app).redo_stack@.len() == 0
        },
{
    let before = old(app).snapshot->Some_0;
    if index < before.placements@.len() {
        assert(old(app).has_sheet(index as int));
        assert(snapshot_view(final(app).snapshot) is Some);
        let after = final(app).snapshot->Some_0;
        law_a_result_holds_every_field(before, i, 0);
        law_a_result_holds_every_field(after, i, 0);
        assert(after@.placements[i] == before@.placements.update(
            index as int,
            response.placement@,
        )[i]);
        let stack = stack_view(final(app).undo_stack@);
        assert(stack == remembered(stack_view(old(app).undo_stack@), before@));
        assert(stack.len() == final(app).undo_stack@.len());
        assert(stack.last() == final(app).undo_stack@.last()@);
    }
}

/// A repack is asked about the sheet it is for: its outline, its parts where they
/// lie, those that are pinned marked so, the shapes of those parts, the rules of
/// the result and its settings.
pub proof fn law_a_repack_asks_about_its_sheet(
    app: &mut App,
    index: usize,
    dicts: &Dicts,
    request: RepackSheetRequest,
    k: int,
    id: usize,
)
    requires
        call_ensures(App::start_repack, (app, index, dicts), Some(request)),
    ensures
        old(app).snapshot is Some,
        index < old(app).snapshot->Some_0.placements@.len(),
        ({
            let s = old(app).snapshot->Some_0;
            let sheet = s.placements@[index as int];
            &&& sheet.sheet_index < old(app).result_sheets@.len() ==> request.sheet@ == old(
                app).result_sheets@[sheet.sheet_index as int]@
            &&& request.placement.sheet_index == sheet.sheet_index
            &&& request.placement.parts@.len() == sheet.parts@.len()
            &&& 0 <= k < sheet.parts@.len() ==> {
                let part = request.placement.parts@[k];
                &&& part.id == sheet.parts@[k].id
                &&& part.x == sheet.parts@[k].x
                &&& part.y == sheet.parts@[k].y
                &&& part.rotation == sheet.parts@[k].rotation
                &&& part.locked <==> s.locked@.contains(sheet.parts@[k].id)
            }
            &&& request.parts_by_id@.contains_key(id) <==> old(app).parts_by_id@.contains_key(id)
                && exists|j: int|
                0 <= j < sheet.parts@.len() && (#[trigger] sheet.parts@[j]).id == id
            &&& request.parts_by_id@.contains_key(id) ==> request.parts_by_id@[id]@ == old(
                app).parts_by_id@[id]@
            &&& request.part_rules@.contains_key(id) <==> old(app).part_rules@.contains_key(id)
        }),
        Some(request.config) == old(app).result_config,
        final(app).repacking == Some(index),
        final(app).snapshot == old(app).snapshot,
{
    let s = old(app).snapshot->Some_0;
    let sheet = s.placements@[index as int];
    law_a_result_holds_every_field(s, index as int, 0);
    assert(s@.placements[index as int].parts == sheet.parts@);
    assert(request.placement@.parts == request.placement.parts@);
    assert(request.placement@.sheet_index == request.placement.sheet_index);
    law_a_part_is_found_where_it_stands(sheet.parts@, id);
    if part_place(sheet.parts@, id) < sheet.parts@.len() {
        assert(sheet.parts@[part_place(sheet.parts@, id)].id == id);
    }
    assert(request.part_rules@.dom().contains(id) <==> old(app).part_rules@.dom().contains(id));
    assert(holds_sheet_parts(request.parts_by_id@, sheet.parts@, old(app).parts_by_id@));
    if 0 <= k < sheet.parts@.len() {
        law_a_result_holds_every_field(s, index as int, sheet.parts@[k].id);
        assert(request.placement@.parts[k].id == sheet.parts@[k].id);
    }
}

/// A part that is let go is asked about as it lies on its sheet, with that sheet,
/// everything on it, and the settings of the result. A part that was not moved
/// asks nothing and is put down.
pub proof fn law_a_drop_asks_about_its_part(
    app: &mut App,
    sheet_index: usize,
    dicts: &Dicts,
    r: Option<MoveQuestion>,
    id: usize,
)
    requires
        call_ensures(App::commit_drag, (app, sheet_index, dicts), r),
    ensures
        r is Some ==> old(app).drag is Some && old(app).drag->Some_0.moved && old(
            app).result_config is Some && old(app).snapshot is Some && sheet_index < old(
            app).snapshot->Some_0.placements@.len(),
        r matches Some(question) ==> {
            let sheet = old(app).snapshot->Some_0.placements@[sheet_index as int];
            let drag = old(app).drag->Some_0;
            &&& question.part.id == drag.part_id
            &&& sheet.parts@.contains(question.part)
            &&& question.placement.parts@ == sheet.parts@
            &&& question.placement.sheet_index == sheet.sheet_index
            &&& sheet.sheet_index < old(app).result_sheets@.len() ==> question.sheet@ == old(
                app).result_sheets@[sheet.sheet_index as int]@
            &&& question.drag == drag
            &&& Some(question.config) == old(app).result_config
            &&& question.parts_by_id@.contains_key(id) ==> question.parts_by_id@[id]@ == old(
                app).parts_by_id@[id]@
            &&& question.parts_by_id@.contains_key(id) <==> old(app).parts_by_id@.contains_key(id)
                && exists|j: int|
                0 <= j < sheet.parts@.len() && (#[trigger] sheet.parts@[j]).id == id
            &&& final(app).drag is Some && final(app).drag->Some_0.awaiting
        },
        old(app).drag is Some && !old(app).drag->Some_0.moved ==> final(app).drag is None,
        final(app).snapshot == old(app).snapshot,
        final(app).undo_stack == old(app).undo_stack,
{
    if let Some(question) = r {
        let s = old(app).snapshot->Some_0;
        let sheet = s.placements@[sheet_index as int];
        let drag = old(app).drag->Some_0;
        law_a_result_holds_every_field(s, sheet_index as int, 0);
        assert(s@.placements[sheet_index as int].parts == sheet.parts@);
        assert(question.placement@.parts == question.placement.parts@);
        assert(question.placement@.sheet_index == question.placement.sheet_index);
        law_a_part_is_found_where_it_stands(sheet.parts@, drag.part_id);
        law_a_part_is_found_where_it_stands(sheet.parts@, id);
        if part_place(sheet.parts@, id) < sheet.parts@.len() {
            assert(sheet.parts@[part_place(sheet.parts@, id)].id == id);
        }
        assert(holds_sheet_parts(question.parts_by_id@, sheet.parts@, old(app).parts_by_id@));
    }
}

/// Pinning a part by hand changes whether that part is pinned and nothing else
/// of the result.
pub proof fn law_a_pin_moves_nothing(app: &mut App, id: usize, dicts: &Dicts, other: usize)
    requires
        old(app).snapshot is Some,
        call_ensures(App::toggle_pin, (app, id, dicts), ()),
    ensures
        final(app).snapshot is Some,
        final(app).snapshot->Some_0.locked@.contains(id) <==> !old(
            app).snapshot->Some_0.locked@.contains(id),
        other != id ==> (final(app).snapshot->Some_0.locked@.contains(other) <==> old(
            app).snapshot->Some_0.locked@.contains(other)),
        final(app).snapshot->Some_0@.placements == old(app).snapshot->Some_0@.placements,
        final(app).snapshot->Some_0.utilisation == old(app).snapshot->Some_0.utilisation,
        final(app).undo_stack == old(app).undo_stack,
{
    assert(snapshot_view(final(app).snapshot) is Some);
    let before = old(app).snapshot->Some_0;
    let after = final(app).snapshot->Some_0;
    law_a_result_holds_every_field(before, 0, id);
    law_a_result_holds_every_field(after, 0, id);
    law_a_result_holds_every_field(before, 0, other);
    law_a_result_holds_every_field(after, 0, other);
}

} // verus!
