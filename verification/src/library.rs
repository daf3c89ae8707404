//! Between the job and the library: keeping parts and offcuts, bringing them
//! back, starting over, and recovering a result of an earlier session.

use std::collections::HashMap;
use vstd::prelude::*;
use crate::console::Kind;
use crate::i18n::{filled, shown_text, t, tv, tv_one, vars_view, Dicts};
use crate::live::{law_a_result_holds_every_field, Snapshot, SnapshotModel};
use crate::order::reversed;
use crate::placement::{copy_sheets, lemma_same_sheets, sheets_view};
use crate::requests::{RemnantDto, RemnantRequest};
use crate::result::{copy_shapes, same_shapes, BestResultDto};
use crate::scalar::Scalar;
use crate::session::{
    copy_outlines, lemma_same_outlines, log_view, outlines, says, snapshot_view, tells_err,
    tells_ok, App, AuditReason, Effects, LogModel,
};
use crate::shape::Outline;
use crate::state::{
    list_view, mirror_option, mirror_rule, rule_angles, rule_of_angles, MirrorRule, Role, RotRule,
    ShapeRow,
};
use crate::store::{
    free_id, law_new_ids_are_unique, next_after_removal, without, ShapeStore, StoredKind,
    StoredShape,
};
use crate::text::{decimal, decimal_text, padded, padded_text};

verus! {

/// What a library entry holds.
#[verifier::ext_equal]
pub struct EntryModel {
    pub id: int,
    pub kind: StoredKind,
    pub name: Seq<char>,
    pub polygon: Outline,
    pub default_qty: usize,
    pub allowed_rotations: Option<Seq<Scalar>>,
    pub mirror: Option<bool>,
    pub created: Seq<char>,
    pub consumed: bool,
}

/// What a library entry holds.
pub open spec fn entry_model(shape: StoredShape) -> EntryModel {
    EntryModel {
        id: shape.id as int,
        kind: shape.kind,
        name: shape.name@,
        polygon: shape.polygon@,
        default_qty: shape.default_qty,
        allowed_rotations: list_view(shape.allowed_rotations),
        mirror: shape.mirror,
        created: shape.created@,
        consumed: shape.consumed,
    }
}

/// When the `n`th of several entries kept together was kept: they share a
/// moment, and are told apart by their number.
pub open spec fn kept_at(stamp: Seq<char>, n: int) -> Seq<char> {
    stamp + "-"@ + padded(n as nat, 3)
}

fn kept_at_text(stamp: &str, n: usize) -> (r: String)
    ensures
        r@ == kept_at(stamp@, n as int),
{
    let mut r = stamp.to_owned();
    r.append("-");
    r.append(padded_text(n as u64, 3).as_str());
    r
}

/// The next id of a library once so many entries were added: past the last of
/// theirs.
pub open spec fn next_after_adding(store: ShapeStore, n: nat) -> int {
    if n == 0 {
        store.next_id as int
    } else {
        store.issues() + n
    }
}

/// An entry just added leaves the next id one higher.
proof fn lemma_next_issue(before: ShapeStore, after: ShapeStore, id: usize)
    requires
        id == before.issues(),
        id < usize::MAX,
        after.next_id == id + 1,
        after.shapes@.len() == before.shapes@.len() + 1,
        after.shapes@.last().id == id,
        after.shapes@.drop_last() == before.shapes@,
    ensures
        after.issues() == id + 1,
{
    let floor = if before.next_id > 1 {
        before.next_id as int
    } else {
        1
    };
    law_new_ids_are_unique(before.shapes@, floor);
    lemma_free_at_floor(before.shapes@, id + 1);
}

proof fn lemma_free_at_floor(shapes: Seq<StoredShape>, floor: int)
    requires
        forall|i: int| 0 <= i < shapes.len() ==> (#[trigger] shapes[i]).id < floor,
    ensures
        free_id(shapes, floor) == floor,
    decreases shapes.len(),
{
    if shapes.len() > 0 {
        let rest = shapes.drop_last();
        assert forall|i: int| 0 <= i < rest.len() implies (#[trigger] rest[i]).id < floor by {
            assert(rest[i] == shapes[i]);
        }
        lemma_free_at_floor(rest, floor);
        assert(shapes[shapes.len() - 1].id < floor);
    }
}

/// The entry that keeping the `n`th offcut makes.
pub open spec fn kept_offcut(
    remnant: RemnantDto,
    name: Seq<char>,
    id: int,
    stamp: Seq<char>,
    n: int,
) -> EntryModel {
    EntryModel {
        id,
        kind: StoredKind::Remnant,
        name,
        polygon: remnant.polygon@,
        default_qty: 1,
        allowed_rotations: None,
        mirror: None,
        created: kept_at(stamp, n),
        consumed: false,
    }
}

/// The usable size of an offcut as it is shown.
pub struct ShownSize {
    pub width: String,
    pub height: String,
}

/// The name an offcut is kept under: its sheet counted from 1, and its size.
pub open spec fn offcut_name(
    dicts: Dicts,
    app: App,
    remnant: RemnantDto,
    size: ShownSize,
) -> Seq<char> {
    filled(
        shown_text(dicts, app.lang, "offcut_name"@),
        seq![
            ("sheet"@, decimal((remnant.sheet_index + 1) as nat)),
            ("w"@, size.width@),
            ("h"@, size.height@),
        ],
    )
}

/// Whether a row is a part that the user has selected.
pub open spec fn picked(row: ShapeRow) -> bool {
    row.selected && row.role == Role::Part
}

/// The rows that are parts the user has selected.
pub open spec fn picked_rows(rows: Seq<ShapeRow>) -> Seq<ShapeRow> {
    rows.filter(|r: ShapeRow| picked(r))
}

/// The entry that keeping the `n`th selected part makes.
pub open spec fn kept_part(row: ShapeRow, id: int, stamp: Seq<char>, n: int) -> EntryModel {
    EntryModel {
        id,
        kind: StoredKind::Part,
        name: row.file@,
        polygon: row.poly@,
        default_qty: if row.qty > 1 {
            row.qty
        } else {
            1
        },
        allowed_rotations: rule_angles(row.rot),
        mirror: mirror_option(row.mirror),
        created: kept_at(stamp, n),
        consumed: false,
    }
}

fn nothing() -> (r: Effects)
    ensures
        r.only_says(Seq::empty()),
{
    let r = Effects::none();
    assert(log_view(r.log@) =~= Seq::<LogModel>::empty());
    r
}

impl App {
    /// What keeping the offcuts leaves: each is an entry of its own, in order,
    /// and none is waiting to be kept any more.
    pub open spec fn offcuts_kept(
        before: App,
        stamp: Seq<char>,
        sizes: Seq<ShownSize>,
        dicts: Dicts,
        after: App,
        effects: Effects,
    ) -> bool {
        let n = before.remnants@.len();
        let old_len = before.store.shapes@.len();
        &&& after == (App { remnants: after.remnants, store: after.store, ..before })
        &&& after.remnants@.len() == 0
        &&& after.store.version == before.store.version
        &&& after.store.next_id == next_after_adding(before.store, n)
        &&& after.store.shapes@.len() == old_len + n
        &&& after.store.shapes@.subrange(0, old_len as int) == before.store.shapes@
        &&& forall|i: int|
            0 <= i < n ==> entry_model(#[trigger] after.store.shapes@[old_len + i])
                == kept_offcut(
                before.remnants@[i],
                offcut_name(dicts, before, before.remnants@[i], sizes[i]),
                before.store.issues() + i,
                stamp,
                i,
            )
        &&& log_view(effects.log@) == seq![says(Kind::Plain, "offcuts: kept "@ + decimal(n))]
        &&& effects.audit is None
        &&& effects.save_store
    }

    /// Keeps every offcut that was found. `stamp` is the present moment, and
    /// `sizes` are the offcuts' usable sizes as text.
    pub fn keep_all(
        &mut self,
        stamp: &str,
        sizes: &Vec<ShownSize>,
        dicts: &Dicts,
    ) -> (effects: Effects)
        requires
            dicts.wf(),
            sizes@.len() == old(self).remnants@.len(),
            old(self).store.issues() + old(self).remnants@.len() < usize::MAX,
            forall|i: int|
                0 <= i < old(self).remnants@.len() ==> (#[trigger] old(
                    self,
                ).remnants@[i]).sheet_index < usize::MAX,
        ensures
            old(self).wf() ==> final(self).wf(),
            App::offcuts_kept(*old(self), stamp@, sizes@, *dicts, *final(self), effects),
    {
        let ghost before = *self;
        let ghost found = self.remnants@;
        let count: usize = self.remnants.len();
        let mut ahead: Vec<RemnantDto> = Vec::new();
        std::mem::swap(&mut ahead, &mut self.remnants);
        let mut waiting = reversed(ahead);
        let ghost shapes = self.store.shapes@;
        let ghost first = self.store.issues();
        let mut i: usize = 0;
        assert(self.store.shapes@.subrange(0, shapes.len() as int) =~= shapes);
        while waiting.len() > 0
            invariant
                dicts.wf(),
                i + waiting@.len() == found.len(),
                found == before.remnants@,
                sizes@.len() == found.len(),
                shapes == before.store.shapes@,
                first == before.store.issues(),
                forall|k: int| 0 <= k < waiting@.len() ==> #[trigger] waiting@[k]
                    == found[found.len() - 1 - k],
                forall|k: int| 0 <= k < found.len() ==> (#[trigger] found[k]).sheet_index
                    < usize::MAX,
                self.lang == before.lang,
                *self == (App { remnants: self.remnants, store: self.store, ..before }),
                self.remnants@.len() == 0,
                self.store.version == before.store.version,
                self.store.issues() == first + i,
                self.store.next_id == next_after_adding(before.store, i as nat),
                first + found.len() < usize::MAX,
                self.store.shapes@.len() == shapes.len() + i,
                self.store.shapes@.subrange(0, shapes.len() as int) == shapes,
                forall|k: int|
                    0 <= k < i ==> entry_model(#[trigger] self.store.shapes@[shapes.len() + k])
                        == kept_offcut(
                        found[k],
                        offcut_name(*dicts, before, found[k], sizes@[k]),
                        first + k,
                        stamp@,
                        k,
                    ),
            decreases waiting.len(),
        {
            match waiting.pop() {
                Some(remnant) => {
                    assert(remnant == found[i as int]);
                    let sheet = decimal_text((remnant.sheet_index + 1) as u64);
                    let vars = [
                        ("sheet", sheet.as_str()),
                        ("w", sizes[i].width.as_str()),
                        ("h", sizes[i].height.as_str()),
                    ];
                    assert(vars_view(vars@) =~= seq![
                        ("sheet"@, sheet@),
                        ("w"@, sizes@[i as int].width@),
                        ("h"@, sizes@[i as int].height@),
                    ]);
                    let name = tv(dicts, self.lang, "offcut_name", &vars);
                    let created = kept_at_text(stamp, i);
                    let ghost old_store = self.store;
                    let id: usize = self.store.add(
                        StoredKind::Remnant,
                        name,
                        remnant.polygon,
                        1,
                        None,
                        None,
                        created,
                    );
                    proof {
                        assert(self.store.shapes@.drop_last() =~= old_store.shapes@);
                        lemma_next_issue(old_store, self.store, id);
                        assert(self.store.shapes@.subrange(0, shapes.len() as int)
                            =~= old_store.shapes@.subrange(0, shapes.len() as int));
                    }
                    i += 1;
                },
                None => {},
            }
        }
        let mut effects = nothing();
        let mut line = "offcuts: kept ".to_owned();
        line.append(decimal_text(count as u64).as_str());
        effects.say(Kind::Plain, line);
        assert(log_view(effects.log@) =~= seq![says(Kind::Plain, line@)]);
        effects.save_store = true;
        effects
    }

    /// What keeping the selected parts leaves.
    pub open spec fn parts_kept(
        before: App,
        stamp: Seq<char>,
        dicts: Dicts,
        after: App,
        effects: Effects,
    ) -> bool {
        let rows = picked_rows(before.shapes@);
        let old_len = before.store.shapes@.len();
        &&& log_view(effects.log@).len() == 0
        &&& effects.audit is None
        &&& if rows.len() == 0 {
            &&& after == (App { run_status: after.run_status, ..before })
            &&& after.run_status@ == tells_err(
                shown_text(dicts, before.lang, "library_nothing_to_save"@),
            )
            &&& !effects.save_store
        } else {
            &&& after == (App { store: after.store, run_status: after.run_status, ..before })
            &&& after.run_status@ == tells_ok(
                filled(
                    shown_text(dicts, before.lang, "library_saved"@),
                    seq![("n"@, decimal(rows.len()))],
                ),
            )
            &&& after.store.version == before.store.version
            &&& after.store.next_id == next_after_adding(before.store, rows.len())
            &&& after.store.shapes@.len() == old_len + rows.len()
            &&& after.store.shapes@.subrange(0, old_len as int) == before.store.shapes@
            &&& forall|i: int|
                0 <= i < rows.len() ==> entry_model(#[trigger] after.store.shapes@[old_len + i])
                    == kept_part(rows[i], before.store.issues() + i, stamp, i)
            &&& effects.save_store
        }
    }

    /// Keeps the parts that are selected in the table, with their quantities and
    /// their rules.
    pub fn save_selected_parts(&mut self, stamp: &str, dicts: &Dicts) -> (effects: Effects)
        requires
            dicts.wf(),
            old(self).store.issues() + old(self).shapes@.len() < usize::MAX,
        ensures
            old(self).wf() ==> final(self).wf(),
            App::parts_kept(*old(self), stamp@, *dicts, *final(self), effects),
    {
        let ghost before = *self;
        let ghost rows = picked_rows(self.shapes@);
        let ghost shapes = self.store.shapes@;
        let ghost first = self.store.issues();
        let mut kept: usize = 0;
        let mut i: usize = 0;
        proof {
            reveal(Seq::filter);
            assert(self.shapes@.subrange(0, 0) =~= Seq::<ShapeRow>::empty());
            assert(self.store.shapes@.subrange(0, shapes.len() as int) =~= shapes);
        }
        while i < self.shapes.len()
            invariant
                i <= self.shapes.len(),
                kept <= i,
                shapes == before.store.shapes@,
                first == before.store.issues(),
                first + before.shapes@.len() < usize::MAX,
                *self == (App { store: self.store, ..before }),
                self.store.version == before.store.version,
                self.store.issues() == first + kept,
                self.store.next_id == next_after_adding(before.store, kept as nat),
                kept == 0 ==> self.store == before.store,
                self.store.shapes@.len() == shapes.len() + kept,
                self.store.shapes@.subrange(0, shapes.len() as int) == shapes,
                kept == picked_rows(self.shapes@.subrange(0, i as int)).len(),
                forall|k: int|
                    0 <= k < kept ==> entry_model(#[trigger] self.store.shapes@[shapes.len() + k])
                        == kept_part(
                        picked_rows(self.shapes@.subrange(0, i as int))[k],
                        first + k,
                        stamp@,
                        k,
                    ),
            decreases self.shapes.len() - i,
        {
            let ghost done = picked_rows(self.shapes@.subrange(0, i as int));
            proof {
                assert(self.shapes@.subrange(0, i + 1).drop_last() == self.shapes@.subrange(
                    0,
                    i as int,
                ));
                reveal(Seq::filter);
            }
            if self.shapes[i].selected && self.shapes[i].role == Role::Part {
                let row = &self.shapes[i];
                let qty: usize = if row.qty > 1 {
                    row.qty
                } else {
                    1
                };
                let name = row.file.clone();
                let polygon = row.poly.clone();
                let angles = row.rot.angles();
                let mirror = row.mirror.as_option();
                let created = kept_at_text(stamp, kept);
                let ghost old_store = self.store;
                let ghost here = *row;
                let id: usize = self.store.add(
                    StoredKind::Part,
                    name,
                    polygon,
                    qty,
                    angles,
                    mirror,
                    created,
                );
                proof {
                    assert(picked_rows(self.shapes@.subrange(0, i + 1)) == done.push(here));
                    assert(self.store.shapes@.drop_last() =~= old_store.shapes@);
                    lemma_next_issue(old_store, self.store, id);
                    assert(self.store.shapes@.subrange(0, shapes.len() as int)
                        =~= old_store.shapes@.subrange(0, shapes.len() as int));
                    assert(entry_model(self.store.shapes@[shapes.len() + kept]) == kept_part(
                        here,
                        first + kept,
                        stamp@,
                        kept as int,
                    ));
                }
                kept += 1;
            }
            i += 1;
        }
        assert(self.shapes@.subrange(0, self.shapes@.len() as int) == self.shapes@);
        let mut effects = nothing();
        if kept == 0 {
            self.run_status.err(t(dicts, self.lang, "library_nothing_to_save").to_owned());
            return effects;
        }
        effects.save_store = true;
        let n = decimal_text(kept as u64);
        self.run_status.ok(tv_one(dicts, self.lang, "library_saved", "n", n.as_str()));
        effects
    }

    /// Brings a library entry into the job: an offcut as one sheet, a part as so
    /// many parts, under the rules it was kept with.
    pub fn add_stored(&mut self, entry: &StoredShape, area: Scalar)
        requires
            old(self).next_ui_id < usize::MAX,
        ensures
            old(self).wf() ==> final(self).wf(),
            *final(self) == (App {
                shapes: final(self).shapes,
                next_ui_id: (old(self).next_ui_id + 1) as usize,
                ..*old(self)
            }),
            final(self).shapes@.len() == old(self).shapes@.len() + 1,
            final(self).shapes@.drop_last() == old(self).shapes@,
            ({
                let row = final(self).shapes@.last();
                let sheet = entry.kind == StoredKind::Remnant;
                &&& row.ui_id == old(self).next_ui_id
                &&& row.file@ == entry.name@
                &&& row.poly@ == entry.polygon@
                &&& row.role == if sheet {
                    Role::Sheet
                } else {
                    Role::Part
                }
                &&& row.qty == if sheet {
                    1
                } else {
                    entry.default_qty
                }
                &&& row.rot == rule_of_angles(list_view(entry.allowed_rotations))
                &&& row.mirror == mirror_rule(entry.mirror)
                &&& !row.selected
                &&& row.area == area
                &&& row.from_store == Some(entry.id)
            }),
    {
        let mut row = ShapeRow::new(self.next_ui_id, entry.name.clone(), entry.polygon.clone(), area);
        if entry.kind == StoredKind::Remnant {
            row.role = Role::Sheet;
        } else {
            row.qty = entry.default_qty;
        }
        row.rot = RotRule::from_angles(&entry.allowed_rotations);
        row.mirror = MirrorRule::from_option(entry.mirror);
        row.from_store = Some(entry.id);
        let ghost before = self.shapes@;
        self.shapes.push(row);
        assert(self.shapes@.drop_last() =~= before);
        self.next_ui_id = self.next_ui_id + 1;
    }

    /// Takes an entry out of the library.
    pub fn delete_stored(&mut self, id: usize) -> (effects: Effects)
        ensures
            old(self).wf() ==> final(self).wf(),
            *final(self) == (App { store: final(self).store, ..*old(self) }),
            final(self).store.shapes@ == without(old(self).store.shapes@, id),
            final(self).store.next_id == next_after_removal(old(self).store, id),
            final(self).store.version == old(self).store.version,
            log_view(effects.log@).len() == 0,
            effects.audit is None,
            effects.save_store,
    {
        let _ = self.store.remove(id);
        let mut effects = nothing();
        effects.save_store = true;
        effects
    }

    /// Starts over: the job, the result and what was said of them are gone. The
    /// library and the settings stay.
    pub fn reset(&mut self) -> (effects: Effects)
        ensures
            *final(self) == (App {
                shapes: final(self).shapes,
                snapshot: None,
                history: final(self).history,
                parts_by_id: final(self).parts_by_id,
                part_rules: final(self).part_rules,
                result_sheets: final(self).result_sheets,
                result_config: None,
                import_status: final(self).import_status,
                run_status: final(self).run_status,
                export_status: final(self).export_status,
                select_all: false,
                ..*old(self)
            }),
            final(self).shapes@.len() == 0,
            final(self).history@.len() == 0,
            final(self).parts_by_id@.dom() == Set::<usize>::empty(),
            final(self).part_rules@.dom() == Set::<usize>::empty(),
            final(self).result_sheets@.len() == 0,
            final(self).import_status@ == tells_ok(Seq::empty()),
            final(self).run_status@ == tells_ok(Seq::empty()),
            final(self).export_status@ == tells_ok(Seq::empty()),
            effects.only_says(seq![says(Kind::Run, "reset"@)]),
            old(self).wf() ==> final(self).wf(),
    {
        self.shapes = Vec::new();
        self.snapshot = None;
        self.history = Vec::new();
        self.parts_by_id = HashMap::new();
        self.part_rules = HashMap::new();
        self.result_sheets = Vec::new();
        self.result_config = None;
        self.import_status.clear();
        self.run_status.clear();
        self.export_status.clear();
        self.select_all = false;
        let mut effects = nothing();
        effects.say(Kind::Run, "reset".to_owned());
        proof {
            assert(log_view(effects.log@) =~= seq![says(Kind::Run, "reset"@)]);
            assert(self.parts_by_id@.dom() =~= Set::<usize>::empty());
            assert(self.part_rules@.dom() =~= Set::<usize>::empty());
        }
        effects
    }

    /// What recovering a saved result leaves: it is on display, with its shapes,
    /// its sheets and its settings, without a history, and it is checked.
    pub open spec fn recovered(
        before: App,
        best: BestResultDto,
        after: App,
        effects: Effects,
    ) -> bool {
        let mid = App {
            parts_by_id: best.parts_by_id,
            part_rules: best.part_rules,
            result_sheets: best.sheets,
            result_config: best.config,
            history: after.history,
            history_index: 0,
            snapshot: after.snapshot,
            ..before
        };
        &&& after.history@.len() == 0
        &&& snapshot_view(after.snapshot) == Some(
            SnapshotModel {
                placements: sheets_view(best.placements@),
                fitness: best.fitness,
                utilisation: best.utilisation,
                unplaced_count: best.unplaced_count,
                unplaced_ids: best.unplaced_ids@,
                locked: Set::empty(),
            },
        )
        &&& App::audit_requested(mid, AuditReason::Recovery, after, effects.audit)
        &&& log_view(effects.log@) == seq![
            says(Kind::Best, "recovered the best result from a previous session"@),
        ]
        &&& !effects.save_store
    }

    /// Puts a result of an earlier session on display.
    pub fn recover(&mut self, best: BestResultDto) -> (effects: Effects)
        requires
            old(self).wf(),
        ensures
            final(self).wf(),
            App::recovered(*old(self), best, *final(self), effects),
    {
        self.parts_by_id = best.parts_by_id;
        self.part_rules = best.part_rules;
        self.result_sheets = best.sheets;
        self.result_config = best.config;
        self.history = Vec::new();
        self.history_index = 0;
        let snapshot = Snapshot {
            placements: best.placements,
            fitness: best.fitness,
            utilisation: best.utilisation,
            unplaced_count: best.unplaced_count,
            unplaced_ids: best.unplaced_ids,
            locked: Vec::new(),
        };
        assert(snapshot@.locked =~= Set::empty());
        self.snapshot = Some(snapshot);
        let mut effects = nothing();
        effects.audit = self.request_audit(AuditReason::Recovery);
        effects.say(Kind::Best, "recovered the best result from a previous session".to_owned());
        assert(log_view(effects.log@) =~= seq![
            says(Kind::Best, "recovered the best result from a previous session"@),
        ]);
        effects
    }

    /// Answers the question about the result of an earlier session: it is
    /// recovered, or it is forgotten for good, so that the question is not
    /// asked again. Says whether to forget it.
    pub fn answer_recover(&mut self, yes: bool) -> (r: (Effects, bool))
        requires
            old(self).wf(),
        ensures
            final(self).wf(),
            r.1 == !yes,
            match old(self).recover_prompt {
                Some(best) if yes => App::recovered(
                    App { recover_prompt: None, ..*old(self) },
                    best,
                    *final(self),
                    r.0,
                ),
                _ => {
                    &&& *final(self) == (App { recover_prompt: None, ..*old(self) })
                    &&& r.0.only_says(Seq::empty())
                },
            },
    {
        let mut prompt: Option<BestResultDto> = None;
        std::mem::swap(&mut prompt, &mut self.recover_prompt);
        match prompt {
            Some(best) => {
                if yes {
                    (self.recover(best), false)
                } else {
                    (nothing(), true)
                }
            },
            None => (nothing(), !yes),
        }
    }

    /// What is handed to a search for offcuts: the result on display, as it was
    /// nested.
    pub open spec fn harvests(before: App, request: RemnantRequest) -> bool {
        &&& before.snapshot matches Some(s) && sheets_view(request.placements@) == sheets_view(
            s.placements@,
        )
        &&& outlines(request.sheets@) == outlines(before.result_sheets@)
        &&& same_shapes(request.parts_by_id@, before.parts_by_id@)
        &&& Some(request.config) == before.result_config
    }

    /// Starts a search for offcuts, where there is a result whose settings are
    /// known.
    pub fn scan(&mut self) -> (r: Option<RemnantRequest>)
        ensures
            old(self).wf() ==> final(self).wf(),
            match r {
                Some(request) => {
                    &&& old(self).snapshot is Some && old(self).result_config is Some
                    &&& App::harvests(*old(self), request)
                    &&& *final(self) == (App { harvesting: true, ..*old(self) })
                },
                None => {
                    &&& old(self).snapshot is None || old(self).result_config is None
                    &&& *final(self) == *old(self)
                },
            },
    {
        let config = match self.result_config {
            Some(config) => config,
            None => {
                return None;
            },
        };
        let placements = match &self.snapshot {
            Some(s) => copy_sheets(&s.placements),
            None => {
                return None;
            },
        };
        let request = RemnantRequest {
            sheets: copy_outlines(&self.result_sheets),
            placements,
            parts_by_id: copy_shapes(&self.parts_by_id),
            config,
        };
        self.harvesting = true;
        Some(request)
    }
}

// --- what keeping and finding shapes promises -----------------------------

/// The model of an entry holds each of its fields.
pub proof fn law_an_entry_holds_every_field(shape: StoredShape)
    ensures
        entry_model(shape).id == shape.id,
        entry_model(shape).kind == shape.kind,
        entry_model(shape).name == shape.name@,
        entry_model(shape).polygon == shape.polygon@,
        entry_model(shape).default_qty == shape.default_qty,
        shape.allowed_rotations is None <==> entry_model(shape).allowed_rotations is None,
        shape.allowed_rotations is Some ==> entry_model(shape).allowed_rotations == Some(
            shape.allowed_rotations->Some_0@,
        ),
        entry_model(shape).mirror == shape.mirror,
        entry_model(shape).created == shape.created@,
        entry_model(shape).consumed == shape.consumed,
{
}

/// Keeping the offcuts keeps each of them, in their order, behind what the
/// library holds: its own outline, one of it, free to be turned, unused, and
/// under an id above every other. None is left to be kept a second time, and the
/// library is to be saved.
pub proof fn law_every_offcut_is_kept_once(
    app: &mut App,
    stamp: &str,
    sizes: &Vec<ShownSize>,
    dicts: &Dicts,
    effects: Effects,
    i: int,
    k: int,
)
    requires
        call_ensures(App::keep_all, (app, stamp, sizes, dicts), effects),
        0 <= i < old(app).remnants@.len(),
        0 <= k < old(app).store.shapes@.len(),
    ensures
        final(app).remnants@.len() == 0,
        final(app).store.shapes@.len() == old(app).store.shapes@.len() + old(
            app).remnants@.len(),
        final(app).store.shapes@[k] == old(app).store.shapes@[k],
        ({
            let kept = final(app).store.shapes@[old(app).store.shapes@.len() + i];
            &&& kept.polygon@ == old(app).remnants@[i].polygon@
            &&& kept.kind == StoredKind::Remnant
            &&& kept.default_qty == 1
            &&& kept.allowed_rotations is None
            &&& kept.mirror is None
            &&& !kept.consumed
            &&& kept.id > old(app).store.shapes@[k].id
            &&& kept.id >= old(app).store.next_id
            &&& kept.id < final(app).store.next_id
            &&& i > 0 ==> kept.id == final(app).store.shapes@[old(app).store.shapes@.len() + i
                - 1].id + 1
        }),
        effects.save_store,
        final(app).shapes == old(app).shapes,
        final(app).snapshot == old(app).snapshot,
{
    let before = old(app).store;
    let n = before.shapes@.len();
    let floor = if before.next_id > 1 {
        before.next_id as int
    } else {
        1
    };
    law_new_ids_are_unique(before.shapes@, floor);
    let kept = final(app).store.shapes@[n + i];
    assert(entry_model(kept).id == before.issues() + i);
    law_an_entry_holds_every_field(kept);
    if i > 0 {
        let other = final(app).store.shapes@[n + (i - 1)];
        assert(entry_model(other).id == before.issues() + (i - 1));
        law_an_entry_holds_every_field(other);
    }
    assert(final(app).store.shapes@.subrange(0, n as int)[k] == before.shapes@[k]);
}

/// Saving the selected parts keeps each selected part row of the table, in their
/// order, behind what the library holds: its outline, its name, its quantity but
/// at least one, the angles of its turning rule and the choice of its mirroring
/// rule, unused. Where none is selected nothing is kept.
pub proof fn law_every_selected_part_is_kept(
    app: &mut App,
    stamp: &str,
    dicts: &Dicts,
    effects: Effects,
    i: int,
    row: ShapeRow,
    angles: Option<Vec<Scalar>>,
    choice: Option<bool>,
)
    requires
        call_ensures(App::save_selected_parts, (app, stamp, dicts), effects),
        0 <= i < old(app).shapes@.filter(
            |r: ShapeRow| r.selected && r.role == Role::Part,
        ).len(),
        row == old(app).shapes@.filter(|r: ShapeRow| r.selected && r.role == Role::Part)[i],
        call_ensures(RotRule::angles, (row.rot,), angles),
        call_ensures(MirrorRule::as_option, (row.mirror,), choice),
    ensures
        final(app).store.shapes@.len() == old(app).store.shapes@.len() + old(
            app).shapes@.filter(|r: ShapeRow| r.selected && r.role == Role::Part).len(),
        ({
            let kept = final(app).store.shapes@[old(app).store.shapes@.len() + i];
            &&& kept.kind == StoredKind::Part
            &&& kept.name@ == row.file@
            &&& kept.polygon@ == row.poly@
            &&& row.qty >= 1 ==> kept.default_qty == row.qty
            &&& row.qty == 0 ==> kept.default_qty == 1
            &&& kept.mirror == choice
            &&& kept.allowed_rotations is Some <==> angles is Some
            &&& angles is Some ==> kept.allowed_rotations->Some_0@ == angles->Some_0@
            &&& !kept.consumed
            &&& kept.id >= old(app).store.next_id
            &&& kept.id < final(app).store.next_id
        }),
        effects.save_store,
        final(app).shapes == old(app).shapes,
        !final(app).run_status.error,
{
    let f = |r: ShapeRow| picked(r);
    let g = |r: ShapeRow| r.selected && r.role == Role::Part;
    assert(f =~= g);
    let before = old(app).store;
    let floor = if before.next_id > 1 {
        before.next_id as int
    } else {
        1
    };
    law_new_ids_are_unique(before.shapes@, floor);
    let kept = final(app).store.shapes@[before.shapes@.len() + i];
    assert(entry_model(kept) == kept_part(row, before.issues() + i, stamp@, i));
    law_an_entry_holds_every_field(kept);
    assert(final(app).run_status@.error == final(app).run_status.error);
}

/// Saving parts where none is selected changes nothing but the status, which
/// says so.
pub proof fn law_nothing_selected_keeps_nothing(
    app: &mut App,
    stamp: &str,
    dicts: &Dicts,
    effects: Effects,
)
    requires
        call_ensures(App::save_selected_parts, (app, stamp, dicts), effects),
        forall|i: int|
            0 <= i < old(app).shapes@.len() ==> !((#[trigger] old(app).shapes@[i]).selected
                && old(app).shapes@[i].role == Role::Part),
    ensures
        *final(app) == (App { run_status: final(app).run_status, ..*old(app) }),
        final(app).run_status.error,
        !effects.save_store,
{
    let f = |r: ShapeRow| picked(r);
    let rows = old(app).shapes@;
    if rows.filter(f).len() > 0 {
        rows.lemma_filter_pred(f, 0);
        rows.lemma_filter_contains_rev(f, rows.filter(f)[0]);
        let k = choose|k: int| 0 <= k < rows.len() && rows[k] == rows.filter(f)[0];
        assert(old(app).shapes@[k].selected);
    }
    assert(final(app).run_status@.error == final(app).run_status.error);
}

/// A stored shape that is taken up becomes the last row of the table: an offcut
/// as one sheet, a part as a part with its quantity; with its outline, its name
/// and its rules, and with the place it came from.
pub proof fn law_a_stored_shape_becomes_a_row(
    app: &mut App,
    entry: &StoredShape,
    area: Scalar,
    rule: RotRule,
    mirroring: MirrorRule,
    i: int,
)
    requires
        call_ensures(App::add_stored, (app, entry, area), ()),
        call_ensures(RotRule::from_angles, (&entry.allowed_rotations,), rule),
        call_ensures(MirrorRule::from_option, (entry.mirror,), mirroring),
    ensures
        final(app).shapes@.len() == old(app).shapes@.len() + 1,
        0 <= i < old(app).shapes@.len() ==> final(app).shapes@[i] == old(app).shapes@[i],
        ({
            let row = final(app).shapes@.last();
            &&& row.poly@ == entry.polygon@
            &&& row.file@ == entry.name@
            &&& row.from_store == Some(entry.id)
            &&& entry.kind == StoredKind::Remnant ==> row.role == Role::Sheet && row.qty == 1
            &&& entry.kind == StoredKind::Part ==> row.role == Role::Part && row.qty
                == entry.default_qty
            &&& row.rot == rule
            &&& row.mirror == mirroring
            &&& row.area == area
            &&& !row.selected
        }),
        final(app).store == old(app).store,
{
    if 0 <= i < old(app).shapes@.len() {
        assert(final(app).shapes@.drop_last()[i] == old(app).shapes@[i]);
    }
}

/// A shape kept from the table and taken up again is the row it was kept from:
/// its outline, its quantity, its turning and its mirroring.
pub proof fn law_a_kept_part_comes_back(
    app: &mut App,
    stamp: &str,
    dicts: &Dicts,
    effects: Effects,
    later: &mut App,
    row: ShapeRow,
    entry: &StoredShape,
    i: int,
)
    requires
        call_ensures(App::save_selected_parts, (app, stamp, dicts), effects),
        0 <= i < old(app).shapes@.filter(
            |r: ShapeRow| r.selected && r.role == Role::Part,
        ).len(),
        row == old(app).shapes@.filter(|r: ShapeRow| r.selected && r.role == Role::Part)[i],
        row.qty >= 1,
        *entry == final(app).store.shapes@[old(app).store.shapes@.len() + i],
        call_ensures(App::add_stored, (later, entry, row.area), ()),
    ensures
        final(later).shapes@.last().poly@ == row.poly@,
        final(later).shapes@.last().qty == row.qty,
        final(later).shapes@.last().rot == row.rot,
        final(later).shapes@.last().mirror == row.mirror,
        final(later).shapes@.last().role == Role::Part,
        final(later).shapes@.last().file@ == row.file@,
{
    let f = |r: ShapeRow| picked(r);
    let g = |r: ShapeRow| r.selected && r.role == Role::Part;
    assert(f =~= g);
    assert(entry_model(*entry) == kept_part(row, old(app).store.issues() + i, stamp@, i));
    crate::state::law_rotation_rules_survive_storing(row.rot);
    crate::state::law_mirror_rules_survive_storing(row.mirror, None);
}

/// Deleting a stored shape takes that one from the library, touches nothing
/// else, and has the library saved.
pub proof fn law_deleting_takes_only_that_shape(app: &mut App, id: usize, effects: Effects)
    requires
        call_ensures(App::delete_stored, (app, id), effects),
    ensures
        final(app).store.shapes@ == old(app).store.shapes@.filter(|s: StoredShape| s.id != id),
        *final(app) == (App { store: final(app).store, ..*old(app) }),
        effects.save_store,
{
}

/// Starting over clears the table, the result and what was told, and leaves the
/// library, the settings and the language as they are.
pub proof fn law_starting_over_keeps_the_library(app: &mut App, effects: Effects)
    requires
        call_ensures(App::reset, (app,), effects),
    ensures
        final(app).shapes@.len() == 0,
        final(app).snapshot is None,
        final(app).history@.len() == 0,
        final(app).result_sheets@.len() == 0,
        final(app).result_config is None,
        final(app).store == old(app).store,
        final(app).cfg == old(app).cfg,
        final(app).lang == old(app).lang,
        !effects.save_store,
        effects.audit is None,
{
}

/// A recovered result is the saved one, sheet by sheet, with its figures, its
/// shapes, its rules, its sheets and its settings, and with nothing pinned; and
/// it is to be checked where it can be.
pub proof fn law_a_saved_result_is_recovered_whole(
    app: &mut App,
    best: BestResultDto,
    effects: Effects,
    i: int,
)
    requires
        call_ensures(App::recover, (app, best), effects),
    ensures
        final(app).snapshot is Some,
        ({
            let s = final(app).snapshot->Some_0;
            &&& s.placements@.len() == best.placements@.len()
            &&& 0 <= i < best.placements@.len() ==> s.placements@[i].parts@
                == best.placements@[i].parts@ && s.placements@[i].sheet_index
                == best.placements@[i].sheet_index
            &&& s.fitness == best.fitness
            &&& s.utilisation == best.utilisation
            &&& s.unplaced_count == best.unplaced_count
            &&& s.unplaced_ids@ == best.unplaced_ids@
            &&& s.locked@.len() == 0
        }),
        final(app).parts_by_id == best.parts_by_id,
        final(app).part_rules == best.part_rules,
        final(app).result_sheets == best.sheets,
        final(app).result_config == best.config,
        final(app).history@.len() == 0,
        final(app).shapes == old(app).shapes,
        final(app).store == old(app).store,
        effects.audit is Some <==> best.config is Some && best.sheets@.len() > 0,
{
    let s = final(app).snapshot->Some_0;
    assert(snapshot_view(final(app).snapshot) is Some);
    law_a_result_holds_every_field(s, i, 0);
    lemma_same_sheets(s.placements@, best.placements@);
    if s.locked@.len() > 0 {
        assert(s.locked@.contains(s.locked@[0]));
        law_a_result_holds_every_field(s, i, s.locked@[0]);
    }
}

/// Offcuts are looked for exactly where there is a result with its settings: on
/// that result, sheet by sheet.
pub proof fn law_offcuts_are_those_of_the_result(
    app: &mut App,
    r: Option<RemnantRequest>,
    i: int,
    id: usize,
)
    requires
        call_ensures(App::scan, (app,), r),
    ensures
        r is Some <==> old(app).snapshot is Some && old(app).result_config is Some,
        r is None ==> *final(app) == *old(app),
        r matches Some(request) ==> {
            let placements = old(app).snapshot->Some_0.placements@;
            &&& final(app).harvesting
            &&& request.placements@.len() == placements.len()
            &&& 0 <= i < placements.len() ==> request.placements@[i].parts@
                == placements[i].parts@ && request.placements@[i].sheet_index
                == placements[i].sheet_index
            &&& request.sheets@.len() == old(app).result_sheets@.len()
            &&& 0 <= i < request.sheets@.len() ==> request.sheets@[i]@ == old(
                app).result_sheets@[i]@
            &&& request.parts_by_id@.contains_key(id) <==> old(app).parts_by_id@.contains_key(id)
            &&& request.parts_by_id@.contains_key(id) ==> request.parts_by_id@[id]@ == old(
                app).parts_by_id@[id]@
            &&& Some(request.config) == old(app).result_config
        },
{
    if let Some(request) = r {
        lemma_same_sheets(request.placements@, old(app).snapshot->Some_0.placements@);
        lemma_same_outlines(request.sheets@, old(app).result_sheets@);
        assert(request.parts_by_id@.dom().contains(id) <==> old(app).parts_by_id@.dom().contains(
            id,
        ));
    }
}

/// A saved result is put on display where the user says so, and is forgotten
/// where not; it is asked about once.
pub proof fn law_an_answer_about_recovery_is_followed(
    app: &mut App,
    yes: bool,
    r: (Effects, bool),
    i: int,
)
    requires
        call_ensures(App::answer_recover, (app, yes), r),
    ensures
        r.1 == !yes,
        final(app).recover_prompt is None,
        !yes || old(app).recover_prompt is None ==> *final(app) == (App {
            recover_prompt: None,
            ..*old(app)
        }),
        yes && old(app).recover_prompt is Some ==> {
            let best = old(app).recover_prompt->Some_0;
            &&& final(app).snapshot is Some
            &&& final(app).snapshot->Some_0.placements@.len() == best.placements@.len()
            &&& 0 <= i < best.placements@.len() ==> final(
                app).snapshot->Some_0.placements@[i].parts@ == best.placements@[i].parts@
                && final(app).snapshot->Some_0.placements@[i].sheet_index
                == best.placements@[i].sheet_index
            &&& final(app).result_sheets == best.sheets
            &&& final(app).result_config == best.config
            &&& final(app).parts_by_id == best.parts_by_id
        },
{
    if yes && old(app).recover_prompt is Some {
        let best = old(app).recover_prompt->Some_0;
        let s = final(app).snapshot->Some_0;
        assert(snapshot_view(final(app).snapshot) is Some);
        law_a_result_holds_every_field(s, i, 0);
        lemma_same_sheets(s.placements@, best.placements@);
    }
}

/// What is kept at one moment is told apart by its place: each offcut and each
/// part is stamped with the moment and where it stood among those kept. An
/// offcut is named by the sheet it came from, counted from one, and its usable
/// size.
pub proof fn law_what_is_kept_together_is_stamped_in_order(
    app: &mut App,
    stamp: &str,
    sizes: &Vec<ShownSize>,
    dicts: &Dicts,
    effects: Effects,
    i: int,
    saved: &mut App,
    told: Effects,
    k: int,
)
    requires
        call_ensures(App::keep_all, (app, stamp, sizes, dicts), effects),
        0 <= i < old(app).remnants@.len(),
        call_ensures(App::save_selected_parts, (saved, stamp, dicts), told),
        0 <= k < old(saved).shapes@.filter(
            |r: ShapeRow| r.selected && r.role == Role::Part,
        ).len(),
    ensures
        ({
            let kept = final(app).store.shapes@[old(app).store.shapes@.len() + i];
            &&& kept.created@ == stamp@ + "-"@ + padded(i as nat, 3)
            &&& kept.name@ == filled(
                shown_text(*dicts, old(app).lang, "offcut_name"@),
                seq![
                    ("sheet"@, decimal((old(app).remnants@[i].sheet_index + 1) as nat)),
                    ("w"@, sizes@[i].width@),
                    ("h"@, sizes@[i].height@),
                ],
            )
        }),
        final(saved).store.shapes@[old(saved).store.shapes@.len() + k].created@ == stamp@ + "-"@
            + padded(k as nat, 3),
{
    let kept = final(app).store.shapes@[old(app).store.shapes@.len() + i];
    assert(entry_model(kept).created == kept_at(stamp@, i));
    law_an_entry_holds_every_field(kept);
    let f = |r: ShapeRow| picked(r);
    let g = |r: ShapeRow| r.selected && r.role == Role::Part;
    assert(f =~= g);
    let part = final(saved).store.shapes@[old(saved).store.shapes@.len() + k];
    assert(entry_model(part).created == kept_at(stamp@, k));
    law_an_entry_holds_every_field(part);
}

} // verus!
