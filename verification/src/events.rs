//! What the background work reports, and what each report does to the state.

use std::collections::HashMap;
use vstd::prelude::*;
use crate::audit::{audit_breakdown, breakdown, AuditReportDto};
use crate::config::NestConfigDto;
use crate::console::Kind;
use crate::editing::Landing;
use crate::escalation::{NestRunCompleteDto, NestRunStartDto};
use crate::export::ExportFormat;
use crate::i18n::{filled, shown_text, t, tv, tv_one, vars_view, Dicts};
use crate::live::{
    from_entry, law_a_result_holds_every_field, GhostSet, Snapshot, SnapshotModel,
};
use crate::order::{
    distinct_ids, insert_id, law_distinct_ids_are_ascending, lemma_distinct_ids, lists_once,
    reversed,
};
use crate::placement::{sheets_view, SheetModel, SheetPlacementDto};
use crate::requests::{RemnantDto, RepackSheetResponse, ValidatePlacementResponse};
use crate::result::{
    ends_with_answer, snapshots_view, BestResultDto, NestSnapshotDto, NestSnapshotModel,
    RunNestResponse,
};
use crate::scalar::Scalar;
use crate::session::{
    log_view, reason_words, says, snapshot_view, tells_err, tells_ok, App, AuditReason, Effects,
    LogModel, Progress,
};
use crate::shape::PolygonDto;
use crate::state::{MirrorRule, Role, RotRule, ShapeRow};
use crate::store::{
    all_used, found_count, lemma_all_used, lemma_found, lemma_using_keeps_places, ShapeStore,
    StoredShape,
};
use crate::text::{decimal, decimal_text};
use crate::update::Release;

verus! {

/// A shape that was read, with the area of its outline.
pub struct ReadShape {
    pub polygon: PolygonDto,
    pub area: Scalar,
}

/// The figures of a result as they are shown, to one decimal.
pub struct Figures {
    pub fitness: String,
    pub utilisation: String,
}

/// What the background work reports.
#[allow(inconsistent_fields)]
pub enum Msg {
    Imported { file: String, shapes: Vec<ReadShape>, size_guessed: bool },
    ImportFailed { file: String, error: String },
    ImportBatchDone { ok: usize, failed: usize },
    RunStart(NestRunStartDto),
    PartsReady(HashMap<usize, PolygonDto>),
    Progress {
        generation: usize,
        generations: usize,
        sheets_used: usize,
        unplaced_count: usize,
        figures: Figures,
    },
    Tick { generation: usize, individuals_done: usize, individuals_total: usize },
    Live { placements: Vec<SheetPlacementDto>, marks: Option<GhostSet> },
    RunComplete { complete: NestRunCompleteDto, figures: Figures },
    NestDone { result: Result<RunNestResponse, String>, figures: Figures },
    Repacked { result: Result<RepackSheetResponse, String>, figures: Figures },
    Validated { result: Result<ValidatePlacementResponse, String>, landing: Landing },
    Audited(Result<AuditReportDto, String>),
    StoreLoaded(Result<ShapeStore, String>),
    StoreSaved(Result<ShapeStore, String>),
    RemnantsComputed(Result<Vec<RemnantDto>, String>),
    Exported { format: ExportFormat, result: Result<(), String> },
    /// `threshold` is the saved threshold of the cleaning pass as text.
    Loaded {
        config: Option<NestConfigDto>,
        threshold: String,
        best: Option<BestResultDto>,
        errors: Vec<String>,
    },
    UpdateAvailable(Release),
    Log(String),
}

fn no_effects() -> (r: Effects)
    ensures
        r.only_says(Seq::empty()),
{
    let r = Effects::none();
    assert(log_view(r.log@) =~= Seq::<LogModel>::empty());
    r
}

/// A number at least 1.
pub open spec fn at_least_one(n: usize) -> usize {
    if n > 1 {
        n
    } else {
        1
    }
}

fn one_or_more(n: usize) -> (r: usize)
    ensures
        r == at_least_one(n),
{
    if n > 1 {
        n
    } else {
        1
    }
}

// --- importing ------------------------------------------------------------

/// Whether a row is a freshly imported shape: nothing decided but the quantity.
pub open spec fn fresh_row(
    row: ShapeRow,
    ui_id: int,
    file: Seq<char>,
    shape: ReadShape,
    qty: Option<usize>,
) -> bool {
    &&& row.ui_id == ui_id
    &&& row.file@ == file
    &&& row.poly == shape.polygon
    &&& row.role == Role::Part
    &&& row.qty == match qty {
        Some(preset) => preset,
        None => 1,
    }
    &&& row.rot == RotRule::Any
    &&& row.mirror == MirrorRule::Job
    &&& !row.selected
    &&& row.area == shape.area
    &&& row.from_store is None
}

impl App {
    /// What a file's shapes add to the table.
    pub open spec fn shapes_imported(
        before: App,
        file: Seq<char>,
        shapes: Seq<ReadShape>,
        size_guessed: bool,
        dicts: Dicts,
        after: App,
        effects: Effects,
    ) -> bool {
        let n = shapes.len();
        let warning = filled(
            shown_text(dicts, before.lang, "import_size_guessed"@),
            seq![("file"@, file)],
        );
        let line = says(
            Kind::Plain,
            "imported "@ + decimal(n) + " shape(s) from "@ + file,
        );
        &&& after == (App {
            import_status: after.import_status,
            imported_this_batch: (before.imported_this_batch + n) as usize,
            shapes: after.shapes,
            next_ui_id: (before.next_ui_id + n) as usize,
            ..before
        })
        &&& after.import_status@ == if size_guessed {
            tells_err(warning)
        } else {
            before.import_status@
        }
        &&& after.shapes@.len() == before.shapes@.len() + n
        &&& forall|i: int|
            0 <= i < before.shapes@.len() ==> #[trigger] after.shapes@[i] == before.shapes@[i]
        &&& forall|i: int|
            0 <= i < n ==> fresh_row(
                #[trigger] after.shapes@[before.shapes@.len() + i],
                before.next_ui_id + i,
                file,
                shapes[i],
                before.preset_qty,
            )
        &&& effects.only_says(
            if size_guessed {
                seq![line, says(Kind::Error, warning)]
            } else {
                seq![line]
            },
        )
    }

    /// Adds a file's shapes to the table.
    pub fn on_imported(
        &mut self,
        file: String,
        shapes: Vec<ReadShape>,
        size_guessed: bool,
        dicts: &Dicts,
    ) -> (effects: Effects)
        requires
            dicts.wf(),
            old(self).imported_this_batch + shapes@.len() <= usize::MAX,
            old(self).next_ui_id + shapes@.len() <= usize::MAX,
        ensures
            old(self).wf() ==> final(self).wf(),
            App::shapes_imported(
                *old(self),
                file@,
                shapes@,
                size_guessed,
                *dicts,
                *final(self),
                effects,
            ),
    {
        let mut effects = no_effects();
        let count: usize = shapes.len();
        let mut line = "imported ".to_owned();
        line.append(decimal_text(count as u64).as_str());
        line.append(" shape(s) from ");
        line.append(file.as_str());
        effects.say(Kind::Plain, line);
        if size_guessed {
            let warning = tv_one(dicts, self.lang, "import_size_guessed", "file", file.as_str());
            effects.say(Kind::Error, warning.clone());
            self.import_status.err(warning);
        }
        let ghost said = log_view(effects.log@);
        proof {
            let line = says(
                Kind::Plain,
                "imported "@ + decimal(shapes@.len()) + " shape(s) from "@ + file@,
            );
            if size_guessed {
                assert(said =~= seq![line, said[1]]);
            } else {
                assert(said =~= seq![line]);
            }
        }
        self.imported_this_batch = self.imported_this_batch + count;
        let ghost fed = shapes@;
        let ghost start = self.shapes@;
        let ghost first_id = self.next_ui_id as int;
        let ghost status = self.import_status;
        let mut waiting = reversed(shapes);
        let mut rows: Vec<ShapeRow> = Vec::new();
        std::mem::swap(&mut rows, &mut self.shapes);
        let mut next: usize = self.next_ui_id;
        let preset = self.preset_qty;
        while waiting.len() > 0
            invariant
                waiting@.len() <= fed.len(),
                first_id + fed.len() <= usize::MAX,
                next == first_id + fed.len() - waiting@.len(),
                forall|k: int| 0 <= k < waiting@.len() ==> #[trigger] waiting@[k]
                    == fed[fed.len() - 1 - k],
                rows@.len() == start.len() + fed.len() - waiting@.len(),
                forall|i: int| 0 <= i < start.len() ==> #[trigger] rows@[i] == start[i],
                forall|i: int|
                    0 <= i < fed.len() - waiting@.len() ==> fresh_row(
                        #[trigger] rows@[start.len() + i],
                        first_id + i,
                        file@,
                        fed[i],
                        preset,
                    ),
            decreases waiting.len(),
        {
            let ghost done = fed.len() - waiting@.len();
            match waiting.pop() {
                Some(shape) => {
                    assert(shape == fed[done]);
                    let mut row = ShapeRow::new(next, file.clone(), shape.polygon, shape.area);
                    match preset {
                        Some(qty) => {
                            row.qty = qty;
                        },
                        None => {},
                    }
                    rows.push(row);
                    next += 1;
                },
                None => {},
            }
        }
        std::mem::swap(&mut rows, &mut self.shapes);
        self.next_ui_id = next;
        effects
    }

    /// What the end of an import leaves.
    pub open spec fn import_done(
        before: App,
        ok: usize,
        failed: usize,
        dicts: Dicts,
        after: App,
        effects: Effects,
    ) -> bool {
        &&& after == (App {
            importing: 0,
            preset_qty: None,
            imported_this_batch: 0,
            import_status: after.import_status,
            ..before
        })
        &&& after.import_status@ == if ok == 0 {
            tells_err(shown_text(dicts, before.lang, "import_status_none"@))
        } else {
            tells_ok(
                filled(
                    shown_text(dicts, before.lang, "import_status_ok"@),
                    seq![
                        ("n"@, decimal(before.imported_this_batch as nat)),
                        ("total"@, decimal(before.shapes@.len())),
                    ],
                ),
            )
        }
        &&& effects.only_says(
            if failed > 0 {
                seq![
                    says(
                        Kind::Error,
                        decimal(failed as nat) + " file(s) failed to import - see lines above"@,
                    ),
                ]
            } else {
                Seq::empty()
            },
        )
    }

    /// Ends an import.
    pub fn on_import_done(&mut self, ok: usize, failed: usize, dicts: &Dicts) -> (effects: Effects)
        requires
            dicts.wf(),
        ensures
            old(self).wf() ==> final(self).wf(),
            App::import_done(*old(self), ok, failed, *dicts, *final(self), effects),
    {
        let mut effects = no_effects();
        self.importing = 0;
        self.preset_qty = None;
        let imported: usize = self.imported_this_batch;
        self.imported_this_batch = 0;
        if ok == 0 {
            self.import_status.err(t(dicts, self.lang, "import_status_none").to_owned());
        } else {
            let n = decimal_text(imported as u64);
            let total = decimal_text(self.shapes.len() as u64);
            let vars = [("n", n.as_str()), ("total", total.as_str())];
            assert(vars_view(vars@) =~= seq![("n"@, n@), ("total"@, total@)]);
            self.import_status.ok(tv(dicts, self.lang, "import_status_ok", &vars));
        }
        if failed > 0 {
            let mut line = decimal_text(failed as u64);
            line.append(" file(s) failed to import - see lines above");
            effects.say(Kind::Error, line);
        }
        effects
    }
}

// --- a run in flight ------------------------------------------------------

/// What the log says of a run that starts.
pub open spec fn start_line(s: NestRunStartDto) -> Seq<char> {
    "run "@ + decimal(s.run as nat) + "/"@ + decimal(s.total_runs as nat) + ": rotations "@
        + decimal(s.rotations as nat) + ", population "@ + decimal(s.population_size as nat)
        + ", "@ + decimal(s.generations as nat) + " generations"@
}

fn start_text(s: &NestRunStartDto) -> (r: String)
    ensures
        r@ == start_line(*s),
{
    let mut r = "run ".to_owned();
    r.append(decimal_text(s.run as u64).as_str());
    r.append("/");
    r.append(decimal_text(s.total_runs as u64).as_str());
    r.append(": rotations ");
    r.append(decimal_text(s.rotations as u64).as_str());
    r.append(", population ");
    r.append(decimal_text(s.population_size as u64).as_str());
    r.append(", ");
    r.append(decimal_text(s.generations as u64).as_str());
    r.append(" generations");
    r
}

/// What the log says of a generation.
pub open spec fn progress_line(
    generation: usize,
    generations: usize,
    sheets_used: usize,
    unplaced_count: usize,
    figures: Figures,
) -> Seq<char> {
    "gen "@ + decimal(generation as nat) + "/"@ + decimal(generations as nat) + ": fitness "@
        + figures.fitness@ + ", "@ + decimal(sheets_used as nat) + " sheet(s), "@ + decimal(
        unplaced_count as nat,
    ) + " unplaced, "@ + figures.utilisation@ + "% used"@
}

fn progress_text(
    generation: usize,
    generations: usize,
    sheets_used: usize,
    unplaced_count: usize,
    figures: &Figures,
) -> (r: String)
    ensures
        r@ == progress_line(generation, generations, sheets_used, unplaced_count, *figures),
{
    let mut r = "gen ".to_owned();
    r.append(decimal_text(generation as u64).as_str());
    r.append("/");
    r.append(decimal_text(generations as u64).as_str());
    r.append(": fitness ");
    r.append(figures.fitness.as_str());
    r.append(", ");
    r.append(decimal_text(sheets_used as u64).as_str());
    r.append(" sheet(s), ");
    r.append(decimal_text(unplaced_count as u64).as_str());
    r.append(" unplaced, ");
    r.append(figures.utilisation.as_str());
    r.append("% used");
    r
}

/// What the log says of a run that ends.
pub open spec fn complete_line(c: NestRunCompleteDto, figures: Figures) -> Seq<char> {
    "run "@ + decimal(c.run as nat) + "/"@ + decimal(c.total_runs as nat) + " done: "@ + decimal(
        c.sheets_used as nat,
    ) + " sheet(s), "@ + decimal(c.unplaced_count as nat) + " unplaced, "@ + figures.utilisation@
        + "% used"@ + (if c.improved {
        " (new best)"@
    } else {
        ""@
    })
}

fn complete_text(c: &NestRunCompleteDto, figures: &Figures) -> (r: String)
    ensures
        r@ == complete_line(*c, *figures),
{
    let mut r = "run ".to_owned();
    r.append(decimal_text(c.run as u64).as_str());
    r.append("/");
    r.append(decimal_text(c.total_runs as u64).as_str());
    r.append(" done: ");
    r.append(decimal_text(c.sheets_used as u64).as_str());
    r.append(" sheet(s), ");
    r.append(decimal_text(c.unplaced_count as u64).as_str());
    r.append(" unplaced, ");
    r.append(figures.utilisation.as_str());
    r.append("% used");
    r.append(if c.improved { " (new best)" } else { "" });
    r
}

/// What the log says of a job that ends.
pub open spec fn nest_line(response: RunNestResponse, figures: Figures) -> Seq<char> {
    "nest "@ + (if response.cancelled {
        "cancelled"@
    } else {
        "complete"@
    }) + ": fitness "@ + figures.fitness@ + ", "@ + decimal(response.placements@.len())
        + " sheet(s), "@ + decimal(response.unplaced_count as nat) + " unplaced, "@
        + figures.utilisation@ + "% used"@
}

fn nest_text(response: &RunNestResponse, figures: &Figures) -> (r: String)
    ensures
        r@ == nest_line(*response, *figures),
{
    let mut r = "nest ".to_owned();
    r.append(if response.cancelled { "cancelled" } else { "complete" });
    r.append(": fitness ");
    r.append(figures.fitness.as_str());
    r.append(", ");
    r.append(decimal_text(response.placements.len() as u64).as_str());
    r.append(" sheet(s), ");
    r.append(decimal_text(response.unplaced_count as u64).as_str());
    r.append(" unplaced, ");
    r.append(figures.utilisation.as_str());
    r.append("% used");
    r
}

/// The layout being built as the panel shows it: no figures yet.
pub open spec fn live_snapshot(placements: Seq<SheetModel>) -> SnapshotModel {
    SnapshotModel {
        placements,
        fitness: Scalar::zero(),
        utilisation: Scalar::zero(),
        unplaced_count: 0,
        unplaced_ids: Seq::empty(),
        locked: Set::empty(),
    }
}

impl App {
    /// What a frame of the live view leaves; one that comes after the run is
    /// dropped.
    pub open spec fn live_shown(
        before: App,
        placements: Seq<SheetModel>,
        marks: Option<GhostSet>,
        after: App,
    ) -> bool {
        if before.running {
            &&& after == (App { live: after.live, live_marks: marks, ..before })
            &&& snapshot_view(after.live) == Some(live_snapshot(placements))
        } else {
            after == before
        }
    }

    /// Shows a frame of the live view.
    pub fn on_live(&mut self, placements: Vec<SheetPlacementDto>, marks: Option<GhostSet>)
        ensures
            old(self).wf() ==> final(self).wf(),
            App::live_shown(*old(self), sheets_view(placements@), marks, *final(self)),
    {
        if !self.running {
            return;
        }
        let live = Snapshot {
            placements,
            fitness: Scalar::zero(),
            utilisation: Scalar::zero(),
            unplaced_count: 0,
            unplaced_ids: Vec::new(),
            locked: Vec::new(),
        };
        proof {
            assert(live@.locked =~= Set::empty());
            assert(live@ =~= live_snapshot(sheets_view(placements@)));
        }
        self.live = Some(live);
        self.live_marks = marks;
    }
}

// --- a finished run -------------------------------------------------------

/// The library entries of the sheets that got at least one part, sheet after
/// sheet.
pub open spec fn used_origins(
    placements: Seq<SheetModel>,
    origin: Seq<Option<usize>>,
) -> Seq<usize>
    decreases placements.len(),
{
    if placements.len() == 0 {
        Seq::empty()
    } else {
        let rest = used_origins(placements.drop_last(), origin);
        let sheet = placements.last();
        if sheet.parts.len() > 0 && sheet.sheet_index < origin.len() {
            match origin[sheet.sheet_index as int] {
                Some(id) => rest.push(id),
                None => rest,
            }
        } else {
            rest
        }
    }
}

/// The history as it is shown: an answer without one has its result as the only
/// entry.
pub open spec fn shown_history(response: RunNestResponse) -> Seq<NestSnapshotModel> {
    if response.history@.len() == 0 {
        seq![
            NestSnapshotModel {
                generation: 0,
                placements: sheets_view(response.placements@),
                fitness: response.fitness,
                utilisation: response.utilisation,
                unplaced_count: response.unplaced_count,
                unplaced_ids: response.unplaced_ids@,
            },
        ]
    } else {
        snapshots_view(response.history@)
    }
}

/// What is on display once an answer was taken over is the nest that was
/// answered, as tidied up, with nothing pinned.
pub proof fn law_the_answer_is_on_display(
    before: App,
    response: RunNestResponse,
    after: App,
    effects: Effects,
)
    requires
        ends_with_answer(response),
        App::response_adopted(before, response, after, effects),
    ensures
        snapshot_view(after.snapshot) == Some(
            SnapshotModel {
                placements: sheets_view(response.placements@),
                fitness: response.fitness,
                utilisation: response.utilisation,
                unplaced_count: response.unplaced_count,
                unplaced_ids: response.unplaced_ids@,
                locked: Set::empty(),
            },
        ),
{
    let shown = shown_history(response);
    if response.history@.len() > 0 {
        assert(shown.last() == response.history@.last()@);
    }
}

impl App {
    /// What marking the used offcuts leaves: every library entry of a sheet that
    /// got a part is used up, and the library is saved if there was any.
    pub open spec fn remnants_consumed(before: App, after: App, effects: Effects) -> bool {
        let used = match before.snapshot {
            Some(s) => distinct_ids(used_origins(s@.placements, before.sheet_origin@)),
            None => Seq::empty(),
        };
        let count = found_count(before.store.shapes@, used);
        &&& after == (App { store: after.store, ..before })
        &&& after.store.shapes@ == all_used(before.store.shapes@, used)
        &&& after.store.next_id == before.store.next_id
        &&& after.store.version == before.store.version
        &&& effects.audit is None
        &&& effects.save_store == (count > 0)
        &&& log_view(effects.log@) == if count > 0 {
            seq![
                says(
                    Kind::Plain,
                    "library: "@ + decimal(count) + " offcut(s) consumed by this nest"@,
                ),
            ]
        } else {
            Seq::empty()
        }
    }

    /// Marks every offcut of the library that the result has used.
    pub fn consume_used_remnants(&mut self) -> (effects: Effects)
        ensures
            old(self).wf() ==> final(self).wf(),
            App::remnants_consumed(*old(self), *final(self), effects),
    {
        let mut effects = no_effects();
        let ghost shapes = self.store.shapes@;
        let ghost before = *self;
        let mut used: Vec<usize> = Vec::new();
        match &self.snapshot {
            None => {
                proof {
                    assert(found_count(shapes, Seq::empty()) == 0);
                }
                return effects;
            },
            Some(snapshot) => {
                let placements = &snapshot.placements;
                let ghost all = sheets_view(placements@);
                let mut i: usize = 0;
                assert(all.subrange(0, 0).len() == 0);
                while i < placements.len()
                    invariant
                        i <= placements.len(),
                        all == sheets_view(placements@),
                        *self == before,
                        lists_once(
                            used@,
                            used_origins(all.subrange(0, i as int), self.sheet_origin@),
                        ),
                    decreases placements.len() - i,
                {
                    proof {
                        assert(all.subrange(0, i + 1).drop_last() == all.subrange(0, i as int));
                        assert(all.subrange(0, i + 1).last() == placements@[i as int]@);
                    }
                    let index: usize = placements[i].sheet_index;
                    if placements[i].parts.len() > 0 && index < self.sheet_origin.len() {
                        match self.sheet_origin[index] {
                            Some(id) => {
                                insert_id(
                                    &mut used,
                                    id,
                                    Ghost(
                                        used_origins(
                                            all.subrange(0, i as int),
                                            self.sheet_origin@,
                                        ),
                                    ),
                                );
                            },
                            None => {},
                        }
                    }
                    i += 1;
                }
                proof {
                    assert(all.subrange(0, all.len() as int) == all);
                    lemma_distinct_ids(used@, used_origins(all, self.sheet_origin@));
                }
            },
        }
        let mut consumed: usize = 0;
        let mut k: usize = 0;
        assert(used@.subrange(0, 0).len() == 0);
        while k < used.len()
            invariant
                k <= used.len(),
                consumed <= k,
                shapes == before.store.shapes@,
                *self == (App { store: self.store, ..before }),
                self.store.next_id == before.store.next_id,
                self.store.version == before.store.version,
                self.store.shapes@ == all_used(shapes, used@.subrange(0, k as int)),
                consumed == found_count(shapes, used@.subrange(0, k as int)),
            decreases used.len() - k,
        {
            proof {
                assert(used@.subrange(0, k + 1).drop_last() == used@.subrange(0, k as int));
                lemma_using_keeps_places(shapes, used@.subrange(0, k as int), used@[k as int]);
            }
            if self.store.consume(used[k]) {
                consumed += 1;
            }
            k += 1;
        }
        assert(used@.subrange(0, used@.len() as int) == used@);
        if consumed > 0 {
            let mut line = "library: ".to_owned();
            line.append(decimal_text(consumed as u64).as_str());
            line.append(" offcut(s) consumed by this nest");
            effects.say(Kind::Plain, line);
            effects.save_store = true;
        }
        effects
    }

    /// What taking over an answer leaves: its shapes, its rules and its history,
    /// with the last entry on display and nothing to undo; then the offcuts it
    /// used are marked, and it is checked.
    pub open spec fn response_adopted(
        before: App,
        response: RunNestResponse,
        after: App,
        effects: Effects,
    ) -> bool {
        let shown = App {
            parts_by_id: response.parts_by_id,
            part_rules: response.part_rules,
            history: after.history,
            history_index: (after.history@.len() - 1) as usize,
            undo_stack: after.undo_stack,
            redo_stack: after.redo_stack,
            snapshot: after.snapshot,
            ..before
        };
        let consumed = App { store: after.store, ..shown };
        &&& snapshots_view(after.history@) == shown_history(response)
        &&& after.undo_stack@.len() == 0
        &&& after.redo_stack@.len() == 0
        &&& snapshot_view(after.snapshot) == Some(from_entry(shown_history(response).last()))
        &&& App::remnants_consumed(
            shown,
            consumed,
            Effects { audit: None, ..effects },
        )
        &&& App::audit_requested(consumed, AuditReason::NestRun, after, effects.audit)
    }

    /// Takes over the answer to a job.
    pub fn adopt_response(&mut self, response: RunNestResponse) -> (effects: Effects)
        requires
            old(self).wf(),
        ensures
            final(self).wf(),
            App::response_adopted(*old(self), response, *final(self), effects),
    {
        let ghost before = *self;
        self.parts_by_id = response.parts_by_id;
        self.part_rules = response.part_rules;
        self.history = if response.history.len() == 0 {
            let mut only: Vec<NestSnapshotDto> = Vec::new();
            only.push(
                NestSnapshotDto {
                    generation: 0,
                    placements: response.placements,
                    fitness: response.fitness,
                    utilisation: response.utilisation,
                    unplaced_count: response.unplaced_count,
                    unplaced_ids: response.unplaced_ids,
                },
            );
            only
        } else {
            response.history
        };
        proof {
            assert(snapshots_view(self.history@) =~= shown_history(response));
            assert(snapshots_view(self.history@).last() == self.history@.last()@);
        }
        self.history_index = self.history.len() - 1;
        self.undo_stack = Vec::new();
        self.redo_stack = Vec::new();
        self.snapshot = Some(Snapshot::from_history(&self.history[self.history_index]));
        let ghost shown = *self;
        let mut effects = self.consume_used_remnants();
        let ghost told = effects;
        let ghost consumed = *self;
        effects.audit = self.request_audit(AuditReason::NestRun);
        proof {
            assert(told == (Effects { audit: None, ..effects }));
            assert(shown == (App {
                parts_by_id: response.parts_by_id,
                part_rules: response.part_rules,
                history: self.history,
                history_index: (self.history@.len() - 1) as usize,
                undo_stack: self.undo_stack,
                redo_stack: self.redo_stack,
                snapshot: self.snapshot,
                ..before
            }));
        }
        effects
    }

    /// What the end of a job leaves.
    pub open spec fn nest_done(
        before: App,
        result: Result<RunNestResponse, String>,
        figures: Figures,
        dicts: Dicts,
        after: App,
        effects: Effects,
    ) -> bool {
        let ended = App {
            running: false,
            progress: Progress::Idle,
            live: None,
            live_marks: None,
            run_status: after.run_status,
            ..before
        };
        match result {
            Ok(response) => exists|told: Effects|
                {
                    &&& #[trigger] App::response_adopted(ended, response, after, told)
                    &&& log_view(effects.log@) == seq![
                        says(Kind::Best, nest_line(response, figures)),
                    ] + log_view(told.log@)
                    &&& effects.audit == told.audit
                    &&& effects.save_store == told.save_store
                    &&& after.run_status@ == tells_ok(
                        shown_text(
                            dicts,
                            before.lang,
                            if response.cancelled {
                                "run_status_stopped"@
                            } else {
                                "run_status_done"@
                            },
                        ),
                    )
                },
            Err(e) => {
                &&& after == ended
                &&& after.run_status@ == tells_err(
                    shown_text(dicts, before.lang, "run_status_failed"@),
                )
                &&& effects.only_says(seq![says(Kind::Error, "nest failed: "@ + e@)])
            },
        }
    }

    /// Ends a job.
    pub fn on_nest_done(
        &mut self,
        result: Result<RunNestResponse, String>,
        figures: Figures,
        dicts: &Dicts,
    ) -> (effects: Effects)
        requires
            old(self).wf(),
            dicts.wf(),
        ensures
            final(self).wf(),
            App::nest_done(*old(self), result, figures, *dicts, *final(self), effects),
    {
        let ghost before = *self;
        self.running = false;
        self.progress = Progress::Idle;
        self.live = None;
        self.live_marks = None;
        let mut effects = no_effects();
        match result {
            Ok(response) => {
                let cancelled = response.cancelled;
                effects.say(Kind::Best, nest_text(&response, &figures));
                let key = if cancelled {
                    "run_status_stopped"
                } else {
                    "run_status_done"
                };
                self.run_status.ok(t(dicts, self.lang, key).to_owned());
                let ghost ended = *self;
                let told = self.adopt_response(response);
                let ghost said = told;
                let mut lines = told.log;
                let ghost first = log_view(effects.log@);
                effects.log.append(&mut lines);
                effects.audit = told.audit;
                effects.save_store = told.save_store;
                proof {
                    assert(log_view(effects.log@) =~= first + log_view(said.log@));
                    assert(App::response_adopted(ended, response, *self, said));
                    assert(ended == (App {
                        running: false,
                        progress: Progress::Idle,
                        live: None,
                        live_marks: None,
                        run_status: self.run_status,
                        ..before
                    }));
                }
            },
            Err(e) => {
                let mut line = "nest failed: ".to_owned();
                line.append(e.as_str());
                effects.say(Kind::Error, line);
                self.run_status.err(t(dicts, self.lang, "run_status_failed").to_owned());
            },
        }
        effects
    }
}

// --- other answers --------------------------------------------------------

/// What the log says of a repack that ran.
pub open spec fn repack_line(response: RepackSheetResponse, figures: Figures) -> Seq<char> {
    "repack sheet "@ + decimal(response.placement.sheet_index as nat) + ": "@ + (
    if response.improved {
        "improved"@
    } else {
        "no improvement, kept as-is"@
    }) + ", "@ + figures.utilisation@ + "% used"@
}

fn repack_text(response: &RepackSheetResponse, figures: &Figures) -> (r: String)
    ensures
        r@ == repack_line(*response, *figures),
{
    let mut r = "repack sheet ".to_owned();
    r.append(decimal_text(response.placement.sheet_index as u64).as_str());
    r.append(": ");
    r.append(if response.improved { "improved" } else { "no improvement, kept as-is" });
    r.append(", ");
    r.append(figures.utilisation.as_str());
    r.append("% used");
    r
}

/// What the log says of a check that ran, and how loudly.
pub open spec fn audit_line(report: AuditReportDto, reason: AuditReason) -> LogModel {
    let after = "audit after "@ + reason_words(reason) + ": "@;
    if !report.passed {
        says(
            Kind::Error,
            after + decimal(report.fatal_count as nat) + " fatal issue(s), "@ + decimal(
                report.warning_count as nat,
            ) + " warning(s) - "@ + breakdown(report.issues@),
        )
    } else if report.warning_count > 0 {
        says(
            Kind::Plain,
            after + "passed with "@ + decimal(report.warning_count as nat) + " warning(s) - "@
                + breakdown(report.issues@),
        )
    } else {
        says(Kind::Plain, after + "passed"@)
    }
}

impl App {
    /// What the answer to a repack leaves. One that comes when no repack is
    /// waited for is dropped, unless it tells of a failure.
    pub open spec fn repack_done(
        before: App,
        result: Result<RepackSheetResponse, String>,
        figures: Figures,
        dicts: Dicts,
        after: App,
        effects: Effects,
    ) -> bool {
        let taken = App { repacking: None, ..before };
        match result {
            Ok(response) => match before.repacking {
                Some(index) => {
                    let improved = before.has_sheet(index as int) && response.improved;
                    &&& App::sheet_repacked(
                        App { run_status: after.run_status, ..taken },
                        index,
                        response.placement@,
                        after,
                        effects.audit,
                    )
                    &&& after.run_status@ == tells_ok(
                        shown_text(
                            dicts,
                            before.lang,
                            if improved {
                                "repack_status_improved"@
                            } else {
                                "repack_status_no_improvement"@
                            },
                        ),
                    )
                    &&& log_view(effects.log@) == seq![
                        says(Kind::Plain, repack_line(response, figures)),
                    ]
                    &&& !effects.save_store
                },
                None => after == taken && effects.only_says(Seq::empty()),
            },
            Err(e) => {
                let n = match before.repacking {
                    Some(index) => decimal((index + 1) as nat),
                    None => "?"@,
                };
                &&& after == (App { run_status: after.run_status, ..taken })
                &&& after.run_status@ == tells_err(
                    filled(
                        shown_text(dicts, before.lang, "repack_status_failed"@),
                        seq![("n"@, n)],
                    ),
                )
                &&& effects.only_says(seq![says(Kind::Error, "repack failed: "@ + e@)])
            },
        }
    }

    /// Takes the answer to a repack.
    pub fn on_repacked(
        &mut self,
        result: Result<RepackSheetResponse, String>,
        figures: Figures,
        dicts: &Dicts,
    ) -> (effects: Effects)
        requires
            old(self).wf(),
            dicts.wf(),
            old(self).repacking matches Some(index) ==> index < usize::MAX,
        ensures
            final(self).wf(),
            App::repack_done(*old(self), result, figures, *dicts, *final(self), effects),
    {
        let mut effects = no_effects();
        let waiting = self.repacking;
        self.repacking = None;
        match result {
            Ok(response) => match waiting {
                Some(index) => {
                    effects.say(Kind::Plain, repack_text(&response, &figures));
                    let has_sheet = match &self.snapshot {
                        Some(snapshot) => index < snapshot.placements.len(),
                        None => false,
                    };
                    let key = if has_sheet && response.improved {
                        "repack_status_improved"
                    } else {
                        "repack_status_no_improvement"
                    };
                    self.run_status.ok(t(dicts, self.lang, key).to_owned());
                    let (_, request) = self.apply_repack(index, response);
                    effects.audit = request;
                    assert(log_view(effects.log@) =~= seq![
                        says(Kind::Plain, repack_line(response, figures)),
                    ]);
                },
                None => {},
            },
            Err(e) => {
                let mut line = "repack failed: ".to_owned();
                line.append(e.as_str());
                effects.say(Kind::Error, line);
                let n = match waiting {
                    Some(index) => decimal_text((index + 1) as u64),
                    None => "?".to_owned(),
                };
                self.run_status.err(
                    tv_one(dicts, self.lang, "repack_status_failed", "n", n.as_str()),
                );
                assert(log_view(effects.log@) =~= seq![
                    says(Kind::Error, "repack failed: "@ + e@),
                ]);
            },
        }
        effects
    }

    /// What reading or writing the library leaves. A failure leaves the library
    /// in use as it was, and says so.
    pub open spec fn store_answered(
        before: App,
        result: Result<ShapeStore, String>,
        dicts: Dicts,
        after: App,
        effects: Effects,
    ) -> bool {
        match result {
            Ok(store) => {
                &&& after == (App { store, ..before })
                &&& effects.only_says(
                    seq![
                        says(
                            Kind::Plain,
                            "library: "@ + decimal(store.shapes@.len()) + " saved shape(s)"@,
                        ),
                    ],
                )
            },
            Err(e) => {
                &&& after == (App { run_status: after.run_status, ..before })
                &&& after.run_status@ == tells_err(shown_text(dicts, before.lang, "library_error"@))
                &&& effects.only_says(seq![says(Kind::Error, "library: "@ + e@)])
            },
        }
    }

    /// Takes over the library as it was read or written.
    pub fn on_store(
        &mut self,
        result: Result<ShapeStore, String>,
        dicts: &Dicts,
    ) -> (effects: Effects)
        requires
            dicts.wf(),
        ensures
            old(self).wf() ==> final(self).wf(),
            App::store_answered(*old(self), result, *dicts, *final(self), effects),
    {
        let mut effects = no_effects();
        match result {
            Ok(store) => {
                let mut line = "library: ".to_owned();
                line.append(decimal_text(store.shapes.len() as u64).as_str());
                line.append(" saved shape(s)");
                effects.say(Kind::Plain, line);
                assert(log_view(effects.log@) =~= seq![says(Kind::Plain, line@)]);
                self.store = store;
            },
            Err(e) => {
                let mut line = "library: ".to_owned();
                line.append(e.as_str());
                effects.say(Kind::Error, line);
                assert(log_view(effects.log@) =~= seq![says(Kind::Error, line@)]);
                self.run_status.err(t(dicts, self.lang, "library_error").to_owned());
            },
        }
        effects
    }

    /// What a search for offcuts leaves.
    pub open spec fn remnants_answered(
        before: App,
        result: Result<Vec<RemnantDto>, String>,
        after: App,
        effects: Effects,
    ) -> bool {
        match result {
            Ok(remnants) => {
                &&& after == (App { harvesting: false, remnants, ..before })
                &&& effects.only_says(
                    seq![says(Kind::Plain, "offcuts: found "@ + decimal(remnants@.len()))],
                )
            },
            Err(e) => {
                &&& after == (App { harvesting: false, remnants: after.remnants, ..before })
                &&& after.remnants@.len() == 0
                &&& effects.only_says(seq![says(Kind::Error, "offcut scan failed: "@ + e@)])
            },
        }
    }

    /// Takes over the offcuts that were found.
    pub fn on_remnants(&mut self, result: Result<Vec<RemnantDto>, String>) -> (effects: Effects)
        ensures
            old(self).wf() ==> final(self).wf(),
            App::remnants_answered(*old(self), result, *final(self), effects),
    {
        let mut effects = no_effects();
        self.harvesting = false;
        match result {
            Ok(remnants) => {
                let mut line = "offcuts: found ".to_owned();
                line.append(decimal_text(remnants.len() as u64).as_str());
                effects.say(Kind::Plain, line);
                assert(log_view(effects.log@) =~= seq![says(Kind::Plain, line@)]);
                self.remnants = remnants;
            },
            Err(e) => {
                let mut line = "offcut scan failed: ".to_owned();
                line.append(e.as_str());
                effects.say(Kind::Error, line);
                assert(log_view(effects.log@) =~= seq![says(Kind::Error, line@)]);
                self.remnants = Vec::new();
            },
        }
        effects
    }

    /// What a check leaves. One that could not run leaves the result unchecked.
    pub open spec fn audit_answered(
        before: App,
        result: Result<AuditReportDto, String>,
        after: App,
        effects: Effects,
    ) -> bool {
        match result {
            Ok(report) => {
                &&& after == (App { auditing: false, audit: Some(report), ..before })
                &&& effects.only_says(seq![audit_line(report, before.audit_reason)])
            },
            Err(e) => {
                &&& after == (App { auditing: false, audit: None, ..before })
                &&& effects.only_says(seq![says(Kind::Error, "audit failed: "@ + e@)])
            },
        }
    }

    /// Takes over what a check found.
    pub fn on_audited(&mut self, result: Result<AuditReportDto, String>) -> (effects: Effects)
        ensures
            old(self).wf() ==> final(self).wf(),
            App::audit_answered(*old(self), result, *final(self), effects),
    {
        let mut effects = no_effects();
        self.auditing = false;
        match result {
            Ok(report) => {
                let mut line = "audit after ".to_owned();
                line.append(self.audit_reason.words());
                line.append(": ");
                if !report.passed {
                    line.append(decimal_text(report.fatal_count as u64).as_str());
                    line.append(" fatal issue(s), ");
                    line.append(decimal_text(report.warning_count as u64).as_str());
                    line.append(" warning(s) - ");
                    line.append(audit_breakdown(&report.issues).as_str());
                    effects.say(Kind::Error, line);
                } else if report.warning_count > 0 {
                    line.append("passed with ");
                    line.append(decimal_text(report.warning_count as u64).as_str());
                    line.append(" warning(s) - ");
                    line.append(audit_breakdown(&report.issues).as_str());
                    effects.say(Kind::Plain, line);
                } else {
                    line.append("passed");
                    effects.say(Kind::Plain, line);
                }
                assert(log_view(effects.log@) =~= seq![audit_line(report, self.audit_reason)]);
                self.audit = Some(report);
            },
            Err(e) => {
                let mut line = "audit failed: ".to_owned();
                line.append(e.as_str());
                effects.say(Kind::Error, line);
                assert(log_view(effects.log@) =~= seq![says(Kind::Error, line@)]);
                self.audit = None;
            },
        }
        effects
    }

    /// What an export leaves.
    pub open spec fn export_done(
        before: App,
        format: ExportFormat,
        result: Result<(), String>,
        dicts: Dicts,
        after: App,
        effects: Effects,
    ) -> bool {
        &&& after == (App { export_status: after.export_status, ..before })
        &&& match result {
            Ok(_) => {
                &&& after.export_status@ == tells_ok(
                    shown_text(dicts, before.lang, "export_status_done"@),
                )
                &&& effects.only_says(
                    seq![
                        says(
                            Kind::Plain,
                            "exported "@ + crate::export::format_label(format),
                        ),
                    ],
                )
            },
            Err(e) => {
                &&& after.export_status@ == tells_err(e@)
                &&& effects.only_says(seq![says(Kind::Error, "export failed: "@ + e@)])
            },
        }
    }

    /// Takes the outcome of an export.
    pub fn on_exported(
        &mut self,
        format: ExportFormat,
        result: Result<(), String>,
        dicts: &Dicts,
    ) -> (effects: Effects)
        requires
            dicts.wf(),
        ensures
            old(self).wf() ==> final(self).wf(),
            App::export_done(*old(self), format, result, *dicts, *final(self), effects),
    {
        let mut effects = no_effects();
        match result {
            Ok(_) => {
                self.export_status.ok(t(dicts, self.lang, "export_status_done").to_owned());
                let mut line = "exported ".to_owned();
                line.append(format.label());
                effects.say(Kind::Plain, line);
                assert(log_view(effects.log@) =~= seq![says(Kind::Plain, line@)]);
            },
            Err(e) => {
                let mut line = "export failed: ".to_owned();
                line.append(e.as_str());
                self.export_status.err(e);
                effects.say(Kind::Error, line);
                assert(log_view(effects.log@) =~= seq![says(Kind::Error, line@)]);
            },
        }
        effects
    }

    /// What reading the saved settings and the saved result leaves.
    pub open spec fn saved_loaded(
        before: App,
        config: Option<NestConfigDto>,
        threshold: Seq<char>,
        best: Option<BestResultDto>,
        errors: Seq<String>,
        after: App,
        effects: Effects,
    ) -> bool {
        &&& after == (App {
            cfg: after.cfg,
            recover_prompt: match best {
                Some(b) => Some(b),
                None => before.recover_prompt,
            },
            ..before
        })
        &&& match config {
            Some(c) => {
                &&& after.cfg.mirror == before.cfg.mirror
                &&& after.cfg.placement_type == c.placement_type
                &&& after.cfg.rotations == c.rotations
                &&& after.cfg.population_size == c.population_size
                &&& after.cfg.mutation_rate == c.mutation_rate
                &&& after.cfg.dominant_threshold == c.dominant_part_area_threshold
                &&& after.cfg.curve_tolerance == c.curve_tolerance
                &&& after.cfg.generations == c.generations
                &&& after.cfg.margin == c.margin
                &&& after.cfg.spacing == c.spacing
                &&& after.cfg.kerf == c.kerf
                &&& after.cfg.max_threads == c.max_threads
                &&& after.cfg.seed == c.seed
                &&& after.cfg.runs == c.runs
                &&& after.cfg.cleanup_threshold@ == match c.cleanup_threshold_percent {
                    Some(_) => threshold,
                    None => Seq::empty(),
                }
            },
            None => after.cfg == before.cfg,
        }
        &&& effects.only_says(
            errors.map_values(|e: String| says(Kind::Error, e@)) + (if config is Some {
                seq![says(Kind::Plain, "restored saved config"@)]
            } else {
                Seq::empty()
            }),
        )
    }

    /// Takes over the saved settings, and offers the saved result.
    pub fn on_loaded(
        &mut self,
        config: Option<NestConfigDto>,
        threshold: String,
        best: Option<BestResultDto>,
        errors: Vec<String>,
    ) -> (effects: Effects)
        ensures
            old(self).wf() ==> final(self).wf(),
            App::saved_loaded(
                *old(self),
                config,
                threshold@,
                best,
                errors@,
                *final(self),
                effects,
            ),
    {
        let mut effects = no_effects();
        let mut i: usize = 0;
        let ghost told = errors@.map_values(|e: String| says(Kind::Error, e@));
        assert(told.subrange(0, 0) =~= Seq::<LogModel>::empty());
        while i < errors.len()
            invariant
                i <= errors.len(),
                told == errors@.map_values(|e: String| says(Kind::Error, e@)),
                effects.only_says(told.subrange(0, i as int)),
            decreases errors.len() - i,
        {
            effects.say(Kind::Error, errors[i].clone());
            i += 1;
            assert(told.subrange(0, i as int) =~= told.subrange(0, i - 1).push(told[i - 1]));
        }
        assert(told.subrange(0, told.len() as int) =~= told);
        assert(told + Seq::<LogModel>::empty() =~= told);
        match config {
            Some(c) => {
                self.cfg.from_dto(&c, threshold);
                effects.say(Kind::Plain, "restored saved config".to_owned());
                assert(log_view(effects.log@) =~= told + seq![
                    says(Kind::Plain, "restored saved config"@),
                ]);
            },
            None => {},
        }
        match best {
            Some(b) => {
                self.recover_prompt = Some(b);
            },
            None => {},
        }
        effects
    }

    /// Whether counting what a report brings stays within the machine's limits.
    pub open spec fn can_take(&self, msg: Msg) -> bool {
        match msg {
            Msg::Imported { file, shapes, size_guessed } => {
                &&& self.imported_this_batch + shapes@.len() <= usize::MAX
                &&& self.next_ui_id + shapes@.len() <= usize::MAX
            },
            Msg::Repacked { result, figures } => match self.repacking {
                Some(index) => index < usize::MAX,
                None => true,
            },
            _ => true,
        }
    }

    /// What each report does.
    pub open spec fn handled(
        before: App,
        msg: Msg,
        dicts: Dicts,
        after: App,
        effects: Effects,
    ) -> bool {
        match msg {
            Msg::Imported { file, shapes, size_guessed } => App::shapes_imported(
                before,
                file@,
                shapes@,
                size_guessed,
                dicts,
                after,
                effects,
            ),
            Msg::ImportFailed { file, error } => {
                &&& after == before
                &&& effects.only_says(
                    seq![says(Kind::Error, "import failed for "@ + file@ + ": "@ + error@)],
                )
            },
            Msg::ImportBatchDone { ok, failed } => App::import_done(
                before,
                ok,
                failed,
                dicts,
                after,
                effects,
            ),
            Msg::RunStart(s) => {
                &&& after == (App { current_generations: at_least_one(s.generations), ..before })
                &&& effects.only_says(seq![says(Kind::Run, start_line(s))])
            },
            Msg::PartsReady(parts) => {
                &&& after == (App { parts_by_id: parts, ..before })
                &&& effects.only_says(Seq::empty())
            },
            Msg::Progress { generation, generations, sheets_used, unplaced_count, figures } => {
                &&& after == (App {
                    progress: Progress::Generations {
                        done: generation,
                        of: at_least_one(generations),
                    },
                    ..before
                })
                &&& effects.only_says(
                    seq![
                        says(
                            Kind::Plain,
                            progress_line(
                                generation,
                                generations,
                                sheets_used,
                                unplaced_count,
                                figures,
                            ),
                        ),
                    ],
                )
            },
            Msg::Tick { generation, individuals_done, individuals_total } => {
                &&& after == (App {
                    progress: Progress::Within {
                        done: if generation > 0 {
                            (generation - 1) as usize
                        } else {
                            0
                        },
                        of: at_least_one(before.current_generations),
                        individuals: individuals_done,
                        individuals_of: at_least_one(individuals_total),
                    },
                    ..before
                })
                &&& effects.only_says(Seq::empty())
            },
            Msg::Live { placements, marks } => {
                &&& App::live_shown(before, sheets_view(placements@), marks, after)
                &&& effects.only_says(Seq::empty())
            },
            Msg::RunComplete { complete, figures } => {
                &&& after == before
                &&& effects.only_says(seq![says(Kind::Run, complete_line(complete, figures))])
            },
            Msg::NestDone { result, figures } => App::nest_done(
                before,
                result,
                figures,
                dicts,
                after,
                effects,
            ),
            Msg::Repacked { result, figures } => App::repack_done(
                before,
                result,
                figures,
                dicts,
                after,
                effects,
            ),
            Msg::Validated { result, landing } => App::drag_finished(
                before,
                result,
                landing,
                dicts,
                after,
                effects,
            ),
            Msg::Audited(result) => App::audit_answered(before, result, after, effects),
            Msg::StoreLoaded(result) => App::store_answered(before, result, dicts, after, effects),
            Msg::StoreSaved(result) => App::store_answered(before, result, dicts, after, effects),
            Msg::RemnantsComputed(result) => App::remnants_answered(
                before,
                result,
                after,
                effects,
            ),
            Msg::Exported { format, result } => App::export_done(
                before,
                format,
                result,
                dicts,
                after,
                effects,
            ),
            Msg::Loaded { config, threshold, best, errors } => App::saved_loaded(
                before,
                config,
                threshold@,
                best,
                errors@,
                after,
                effects,
            ),
            Msg::UpdateAvailable(release) => {
                &&& after == (App { update: Some(release), ..before })
                &&& effects.only_says(
                    seq![says(Kind::Plain, "update available: v"@ + release.version@)],
                )
            },
            Msg::Log(line) => {
                &&& after == before
                &&& effects.only_says(seq![says(Kind::Plain, line@)])
            },
        }
    }

    /// Takes a report of the background work.
    pub fn handle(&mut self, msg: Msg, dicts: &Dicts) -> (effects: Effects)
        requires
            old(self).wf(),
            dicts.wf(),
            old(self).can_take(msg),
        ensures
            final(self).wf(),
            App::handled(*old(self), msg, *dicts, *final(self), effects),
    {
        match msg {
            Msg::Imported { file, shapes, size_guessed } => self.on_imported(
                file,
                shapes,
                size_guessed,
                dicts,
            ),
            Msg::ImportFailed { file, error } => {
                let mut line = "import failed for ".to_owned();
                line.append(file.as_str());
                line.append(": ");
                line.append(error.as_str());
                say_only(Kind::Error, line)
            },
            Msg::ImportBatchDone { ok, failed } => self.on_import_done(ok, failed, dicts),
            Msg::RunStart(s) => {
                self.current_generations = one_or_more(s.generations);
                say_only(Kind::Run, start_text(&s))
            },
            Msg::PartsReady(parts) => {
                self.parts_by_id = parts;
                no_effects()
            },
            Msg::Progress { generation, generations, sheets_used, unplaced_count, figures } => {
                self.progress = Progress::Generations {
                    done: generation,
                    of: one_or_more(generations),
                };
                say_only(
                    Kind::Plain,
                    progress_text(generation, generations, sheets_used, unplaced_count, &figures),
                )
            },
            Msg::Tick { generation, individuals_done, individuals_total } => {
                self.progress = Progress::Within {
                    done: if generation > 0 {
                        generation - 1
                    } else {
                        0
                    },
                    of: one_or_more(self.current_generations),
                    individuals: individuals_done,
                    individuals_of: one_or_more(individuals_total),
                };
                no_effects()
            },
            Msg::Live { placements, marks } => {
                self.on_live(placements, marks);
                no_effects()
            },
            Msg::RunComplete { complete, figures } => say_only(
                Kind::Run,
                complete_text(&complete, &figures),
            ),
            Msg::NestDone { result, figures } => self.on_nest_done(result, figures, dicts),
            Msg::Repacked { result, figures } => self.on_repacked(result, figures, dicts),
            Msg::Validated { result, landing } => self.finish_drag(result, landing, dicts),
            Msg::Audited(result) => self.on_audited(result),
            Msg::StoreLoaded(result) => self.on_store(result, dicts),
            Msg::StoreSaved(result) => self.on_store(result, dicts),
            Msg::RemnantsComputed(result) => self.on_remnants(result),
            Msg::Exported { format, result } => self.on_exported(format, result, dicts),
            Msg::Loaded { config, threshold, best, errors } => self.on_loaded(
                config,
                threshold,
                best,
                errors,
            ),
            Msg::UpdateAvailable(release) => {
                let mut line = "update available: v".to_owned();
                line.append(release.version.as_str());
                self.update = Some(release);
                say_only(Kind::Plain, line)
            },
            Msg::Log(line) => say_only(Kind::Plain, line),
        }
    }
}

fn say_only(kind: Kind, text: String) -> (r: Effects)
    ensures
        r.only_says(seq![says(kind, text@)]),
{
    let mut r = no_effects();
    r.say(kind, text);
    assert(log_view(r.log@) =~= seq![says(kind, text@)]);
    r
}

// --- what a session makes of its messages ---------------------------------

/// The shapes of a file become rows behind those of the table, in their order:
/// each with its own outline and area, as a part free to be turned, as often as
/// the sample job says or once, under a number of its own.
pub proof fn law_every_imported_shape_becomes_a_row(
    app: &mut App,
    file: String,
    shapes: Vec<ReadShape>,
    size_guessed: bool,
    dicts: &Dicts,
    effects: Effects,
    i: int,
    k: int,
)
    requires
        call_ensures(App::on_imported, (app, file, shapes, size_guessed, dicts), effects),
        old(app).next_ui_id + shapes@.len() <= usize::MAX,
        old(app).imported_this_batch + shapes@.len() <= usize::MAX,
    ensures
        final(app).shapes@.len() == old(app).shapes@.len() + shapes@.len(),
        0 <= k < old(app).shapes@.len() ==> final(app).shapes@[k] == old(app).shapes@[k],
        0 <= i < shapes@.len() ==> {
            let row = final(app).shapes@[old(app).shapes@.len() + i];
            &&& row.poly == shapes@[i].polygon
            &&& row.area == shapes@[i].area
            &&& row.file@ == file@
            &&& row.ui_id == old(app).next_ui_id + i
            &&& row.role == Role::Part
            &&& old(app).preset_qty is Some ==> row.qty == old(app).preset_qty->Some_0
            &&& old(app).preset_qty is None ==> row.qty == 1
            &&& row.rot == RotRule::Any
            &&& row.mirror == MirrorRule::Job
            &&& !row.selected
            &&& row.from_store is None
        },
        final(app).next_ui_id == old(app).next_ui_id + shapes@.len(),
        final(app).imported_this_batch == old(app).imported_this_batch + shapes@.len(),
        size_guessed ==> final(app).import_status.error,
        final(app).snapshot == old(app).snapshot,
        final(app).store == old(app).store,
        effects.audit is None,
        !effects.save_store,
{
    assert(final(app).import_status@.error == final(app).import_status.error);
    if 0 <= i < shapes@.len() {
        assert(fresh_row(
            final(app).shapes@[old(app).shapes@.len() + i],
            old(app).next_ui_id + i,
            file@,
            shapes@[i],
            old(app).preset_qty,
        ));
    }
}

/// An import that is over counts anew, and is told as a failure exactly where no
/// file could be read.
pub proof fn law_an_import_is_over(
    app: &mut App,
    ok: usize,
    failed: usize,
    dicts: &Dicts,
    effects: Effects,
)
    requires
        call_ensures(App::on_import_done, (app, ok, failed, dicts), effects),
    ensures
        final(app).importing == 0,
        final(app).imported_this_batch == 0,
        final(app).preset_qty is None,
        final(app).shapes == old(app).shapes,
        final(app).import_status.error <==> ok == 0,
        effects.log@.len() == (if failed > 0 {
            1int
        } else {
            0
        }),
{
    assert(final(app).import_status@.error == final(app).import_status.error);
    assert(log_view(effects.log@).len() == effects.log@.len());
}

/// Whether a result put a part on a sheet that came from a shape of an id.
pub open spec fn cut_from(
    placements: Seq<SheetPlacementDto>,
    origin: Seq<Option<usize>>,
    id: usize,
) -> bool {
    exists|n: int|
        0 <= n < placements.len() && (#[trigger] placements[n]).parts@.len() > 0
            && placements[n].sheet_index < origin.len()
            && origin[placements[n].sheet_index as int] == Some(id)
}

proof fn lemma_used_origins(
    placements: Seq<SheetPlacementDto>,
    origin: Seq<Option<usize>>,
    id: usize,
)
    ensures
        used_origins(sheets_view(placements), origin).contains(id) <==> cut_from(
            placements,
            origin,
            id,
        ),
    decreases placements.len(),
{
    if placements.len() > 0 {
        let rest = placements.drop_last();
        let last = placements.len() - 1;
        assert(sheets_view(placements).drop_last() =~= sheets_view(rest));
        lemma_used_origins(rest, origin, id);
        assert(placements[last] == placements.last());
        let before = used_origins(sheets_view(rest), origin);
        let all = used_origins(sheets_view(placements), origin);
        if cut_from(placements, origin, id) {
            let n = choose|n: int|
                0 <= n < placements.len() && (#[trigger] placements[n]).parts@.len() > 0
                    && placements[n].sheet_index < origin.len()
                    && origin[placements[n].sheet_index as int] == Some(id);
            if n < last {
                assert(rest[n] == placements[n]);
                let k = choose|k: int| 0 <= k < before.len() && before[k] == id;
                assert(all[k] == id);
            } else {
                assert(all[before.len() as int] == id);
            }
        }
        if all.contains(id) {
            let k = choose|k: int| 0 <= k < all.len() && all[k] == id;
            if k < before.len() {
                assert(before[k] == id);
                let n = choose|n: int|
                    0 <= n < rest.len() && (#[trigger] rest[n]).parts@.len() > 0
                        && rest[n].sheet_index < origin.len()
                        && origin[rest[n].sheet_index as int] == Some(id);
                assert(placements[n] == rest[n]);
            }
        }
    }
}

/// An offcut is used up exactly where the result has put a part on a sheet that
/// came from it: every shape of the library that the result did not cut from is
/// as it was, nothing else of a shape changes, and the library is saved exactly
/// where one was used.
pub proof fn law_only_offcuts_cut_from_are_used_up(
    app: &mut App,
    effects: Effects,
    i: int,
)
    requires
        call_ensures(App::consume_used_remnants, (app,), effects),
        old(app).snapshot is Some,
        0 <= i < old(app).store.shapes@.len(),
    ensures
        final(app).store.shapes@.len() == old(app).store.shapes@.len(),
        final(app).store.shapes@[i] == (StoredShape {
            consumed: final(app).store.shapes@[i].consumed,
            ..old(app).store.shapes@[i]
        }),
        old(app).store.shapes@[i].consumed ==> final(app).store.shapes@[i].consumed,
        ({
            let placements = old(app).snapshot->Some_0.placements@;
            let used = cut_from(placements, old(app).sheet_origin@, old(app).store.shapes@[i].id);
            &&& !used ==> final(app).store.shapes@[i] == old(app).store.shapes@[i]
            &&& used && (forall|k: int|
                0 <= k < i ==> (#[trigger] old(app).store.shapes@[k]).id != old(
                    app).store.shapes@[i].id) ==> final(app).store.shapes@[i].consumed
            &&& used ==> effects.save_store
        }),
        effects.save_store ==> exists|k: int|
            0 <= k < old(app).store.shapes@.len() && cut_from(
                old(app).snapshot->Some_0.placements@,
                old(app).sheet_origin@,
                (#[trigger] old(app).store.shapes@[k]).id,
            ),
        *final(app) == (App { store: final(app).store, ..*old(app) }),
        final(app).store.next_id == old(app).store.next_id,
{
    let placements = old(app).snapshot->Some_0.placements@;
    let shapes = old(app).store.shapes@;
    let origins = used_origins(sheets_view(placements), old(app).sheet_origin@);
    let used = distinct_ids(origins);
    assert(old(app).snapshot->Some_0@.placements == sheets_view(placements));
    law_distinct_ids_are_ascending(origins);
    lemma_used_origins(placements, old(app).sheet_origin@, shapes[i].id);
    lemma_all_used(shapes, used, i);
    lemma_found(shapes, used);
    assert(used.contains(shapes[i].id) <==> origins.contains(shapes[i].id));
    if forall|k: int|
        0 <= k < i ==> (#[trigger] old(app).store.shapes@[k]).id != old(app).store.shapes@[i].id {
        assert forall|k: int| 0 <= k < i implies (#[trigger] shapes[k]).id != shapes[i].id by {
            assert(old(app).store.shapes@[k].id != shapes[i].id);
        }
    }
    if effects.save_store {
        let k = choose|k: int|
            0 <= k < shapes.len() && used.contains((#[trigger] shapes[k]).id);
        lemma_used_origins(placements, old(app).sheet_origin@, shapes[k].id);
        assert(cut_from(placements, old(app).sheet_origin@, old(app).store.shapes@[k].id));
    }
}

/// An answer that is taken over is on display: its history entry by entry, with
/// the last one shown, or the answer itself where it has none. Nothing of the
/// results before it can be gone back to, and the offcuts found before are
/// dropped.
pub proof fn law_an_adopted_answer_is_shown(
    app: &mut App,
    response: RunNestResponse,
    effects: Effects,
    i: int,
)
    requires
        call_ensures(App::adopt_response, (app, response), effects),
    ensures
        final(app).snapshot is Some,
        final(app).undo_stack@.len() == 0,
        final(app).redo_stack@.len() == 0,
        final(app).parts_by_id == response.parts_by_id,
        final(app).part_rules == response.part_rules,
        final(app).remnants@.len() == 0,
        final(app).audit is None,
        final(app).shapes == old(app).shapes,
        final(app).result_sheets == old(app).result_sheets,
        response.history@.len() > 0 ==> {
            &&& final(app).history@.len() == response.history@.len()
            &&& final(app).history_index == response.history@.len() - 1
            &&& 0 <= i < response.history@.len() ==> final(app).history@[i]@
                == response.history@[i]@
            &&& final(app).snapshot->Some_0@.placements == sheets_view(
                response.history@.last().placements@,
            )
            &&& final(app).snapshot->Some_0.utilisation == response.history@.last().utilisation
            &&& final(app).snapshot->Some_0.unplaced_count
                == response.history@.last().unplaced_count
            &&& final(app).snapshot->Some_0.unplaced_ids@
                == response.history@.last().unplaced_ids@
        },
        response.history@.len() == 0 ==> {
            &&& final(app).history@.len() == 1
            &&& final(app).history_index == 0
            &&& final(app).snapshot->Some_0@.placements == sheets_view(response.placements@)
            &&& final(app).snapshot->Some_0.utilisation == response.utilisation
            &&& final(app).snapshot->Some_0.unplaced_count == response.unplaced_count
            &&& final(app).snapshot->Some_0.unplaced_ids@ == response.unplaced_ids@
        },
{
    lemma_adopted(*old(app), response, *final(app), effects, i);
}

proof fn lemma_adopted(
    before: App,
    response: RunNestResponse,
    after: App,
    effects: Effects,
    i: int,
)
    requires
        App::response_adopted(before, response, after, effects),
    ensures
        after.snapshot is Some,
        after.undo_stack@.len() == 0,
        after.redo_stack@.len() == 0,
        after.parts_by_id == response.parts_by_id,
        after.part_rules == response.part_rules,
        after.remnants@.len() == 0,
        after.audit is None,
        after.shapes == before.shapes,
        after.result_sheets == before.result_sheets,
        response.history@.len() > 0 ==> {
            &&& after.history@.len() == response.history@.len()
            &&& after.history_index == response.history@.len() - 1
            &&& 0 <= i < response.history@.len() ==> after.history@[i]@ == response.history@[i]@
            &&& after.snapshot->Some_0@.placements == sheets_view(
                response.history@.last().placements@,
            )
            &&& after.snapshot->Some_0.utilisation == response.history@.last().utilisation
            &&& after.snapshot->Some_0.unplaced_count == response.history@.last().unplaced_count
            &&& after.snapshot->Some_0.unplaced_ids@ == response.history@.last().unplaced_ids@
        },
        response.history@.len() == 0 ==> {
            &&& after.history@.len() == 1
            &&& after.history_index == 0
            &&& after.snapshot->Some_0@.placements == sheets_view(response.placements@)
            &&& after.snapshot->Some_0.utilisation == response.utilisation
            &&& after.snapshot->Some_0.unplaced_count == response.unplaced_count
            &&& after.snapshot->Some_0.unplaced_ids@ == response.unplaced_ids@
        },
{
    let kept = snapshots_view(after.history@);
    assert(kept == shown_history(response));
    assert(kept.len() == after.history@.len());
    assert(snapshot_view(after.snapshot) is Some);
    let s = after.snapshot->Some_0;
    law_a_result_holds_every_field(s, i, 0);
    assert(s@ == from_entry(shown_history(response).last()));
    if response.history@.len() > 0 {
        let given = snapshots_view(response.history@);
        assert(given.len() == response.history@.len());
        assert(given.last() == response.history@.last()@);
        assert(after.history@.len() == after.history.len());
        if 0 <= i < given.len() {
            assert(kept[i] == after.history@[i]@ && given[i] == response.history@[i]@);
        }
    }
}

/// A job that ends well leaves its answer on display and is no longer running;
/// one that ends in a failure leaves the result that was there, and tells of it.
pub proof fn law_a_failed_job_leaves_the_result(
    app: &mut App,
    result: Result<RunNestResponse, String>,
    figures: Figures,
    dicts: &Dicts,
    effects: Effects,
)
    requires
        call_ensures(App::on_nest_done, (app, result, figures, dicts), effects),
    ensures
        !final(app).running,
        final(app).live is None,
        final(app).shapes == old(app).shapes,
        final(app).result_sheets == old(app).result_sheets,
        result is Err ==> {
            &&& final(app).snapshot == old(app).snapshot
            &&& final(app).history == old(app).history
            &&& final(app).store == old(app).store
            &&& final(app).undo_stack == old(app).undo_stack
            &&& final(app).redo_stack == old(app).redo_stack
            &&& final(app).audit == old(app).audit
            &&& final(app).run_status.error
            &&& effects.audit is None
            &&& !effects.save_store
        },
        result matches Ok(response) ==> {
            &&& final(app).snapshot is Some
            &&& final(app).parts_by_id == response.parts_by_id
            &&& final(app).part_rules == response.part_rules
            &&& final(app).undo_stack@.len() == 0
            &&& final(app).redo_stack@.len() == 0
            &&& !final(app).run_status.error
            &&& response.history@.len() > 0 ==> final(app).snapshot->Some_0@.placements
                == sheets_view(response.history@.last().placements@) && final(
                app).history@.len() == response.history@.len()
            &&& response.history@.len() == 0 ==> final(app).snapshot->Some_0@.placements
                == sheets_view(response.placements@)
        },
{
    assert(final(app).run_status@.error == final(app).run_status.error);
    if let Ok(response) = result {
        let ended = App {
            running: false,
            progress: Progress::Idle,
            live: None,
            live_marks: None,
            run_status: final(app).run_status,
            ..*old(app)
        };
        let told = choose|told: Effects|
            {
                &&& #[trigger] App::response_adopted(ended, response, *final(app), told)
                &&& log_view(effects.log@) == seq![
                    says(Kind::Best, nest_line(response, figures)),
                ] + log_view(told.log@)
                &&& effects.audit == told.audit
                &&& effects.save_store == told.save_store
            };
        lemma_adopted(ended, response, *final(app), told, 0);
    }
}

/// A repacked sheet goes to the place that was asked about, and to no other; a
/// repack that failed changes no sheet. Either way none is awaited any more.
pub proof fn law_a_repack_lands_where_it_was_asked(
    app: &mut App,
    result: Result<RepackSheetResponse, String>,
    figures: Figures,
    dicts: &Dicts,
    effects: Effects,
    i: int,
)
    requires
        call_ensures(App::on_repacked, (app, result, figures, dicts), effects),
        old(app).snapshot is Some,
        0 <= i < old(app).snapshot->Some_0.placements@.len(),
    ensures
        final(app).repacking is None,
        final(app).snapshot is Some,
        final(app).snapshot->Some_0.placements@.len() == old(
            app).snapshot->Some_0.placements@.len(),
        result is Err || old(app).repacking != Some(i as usize) ==> final(
            app).snapshot->Some_0.placements@[i].parts@ == old(
            app).snapshot->Some_0.placements@[i].parts@ && final(
            app).snapshot->Some_0.placements@[i].sheet_index == old(
            app).snapshot->Some_0.placements@[i].sheet_index,
        result is Ok && old(app).repacking == Some(i as usize) ==> final(
            app).snapshot->Some_0.placements@[i].parts@ == result->Ok_0.placement.parts@ && final(
            app).snapshot->Some_0.placements@[i].sheet_index
            == result->Ok_0.placement.sheet_index,
        result is Err ==> final(app).snapshot == old(app).snapshot && final(app).undo_stack
            == old(app).undo_stack && final(app).run_status.error,
{
    assert(final(app).run_status@.error == final(app).run_status.error);
    let before = old(app).snapshot->Some_0;
    assert(before.placements@.len() == before.placements.len());
    law_a_result_holds_every_field(before, i, 0);
    if result is Ok && old(app).repacking is Some && old(app).repacking->Some_0
        < before.placements@.len() {
        let index = old(app).repacking->Some_0;
        let taken = App { repacking: None, run_status: final(app).run_status, ..*old(app) };
        assert(taken.has_sheet(index as int));
        assert(snapshot_view(final(app).snapshot) is Some);
        let after = final(app).snapshot->Some_0;
        law_a_result_holds_every_field(after, i, 0);
        assert(after@.placements[i] == before@.placements.update(
            index as int,
            result->Ok_0.placement@,
        )[i]);
    }
}

/// What a check found is what is shown of it, and a check that failed shows
/// nothing; it is no longer awaited either way, and the result stays.
pub proof fn law_a_check_is_shown_as_it_came(
    app: &mut App,
    result: Result<AuditReportDto, String>,
    effects: Effects,
)
    requires
        call_ensures(App::on_audited, (app, result), effects),
    ensures
        !final(app).auditing,
        result matches Ok(report) ==> final(app).audit == Some(report),
        result is Err ==> final(app).audit is None,
        final(app).snapshot == old(app).snapshot,
        final(app).remnants == old(app).remnants,
        effects.log@.len() == 1,
        result is Err || !result->Ok_0.passed ==> effects.log@[0].kind == Kind::Error,
        result is Ok && result->Ok_0.passed ==> effects.log@[0].kind == Kind::Plain,
{
    assert(log_view(effects.log@).len() == effects.log@.len());
    assert(log_view(effects.log@)[0] == effects.log@[0]@);
}

/// A library that was read or written is the one in use; one that could not be
/// leaves the library in use as it is, and tells of it.
pub proof fn law_a_library_that_fails_is_not_lost(
    app: &mut App,
    result: Result<ShapeStore, String>,
    dicts: &Dicts,
    effects: Effects,
)
    requires
        call_ensures(App::on_store, (app, result, dicts), effects),
    ensures
        result matches Ok(store) ==> final(app).store == store,
        result is Err ==> final(app).store == old(app).store && final(app).run_status.error,
        final(app).shapes == old(app).shapes,
        final(app).snapshot == old(app).snapshot,
        !effects.save_store,
{
    assert(final(app).run_status@.error == final(app).run_status.error);
}

/// Offcuts that were found are offered as they came; a search that failed offers
/// none.
pub proof fn law_offcuts_are_offered_as_found(
    app: &mut App,
    result: Result<Vec<RemnantDto>, String>,
    effects: Effects,
)
    requires
        call_ensures(App::on_remnants, (app, result), effects),
    ensures
        !final(app).harvesting,
        result matches Ok(found) ==> final(app).remnants == found,
        result is Err ==> final(app).remnants@.len() == 0,
        final(app).snapshot == old(app).snapshot,
        final(app).store == old(app).store,
{
}

/// A picture of the running search is shown only while it runs, and never in the
/// place of the result.
pub proof fn law_a_late_picture_is_dropped(
    app: &mut App,
    placements: Vec<SheetPlacementDto>,
    marks: Option<GhostSet>,
)
    requires
        call_ensures(App::on_live, (app, placements, marks), ()),
    ensures
        final(app).snapshot == old(app).snapshot,
        !old(app).running ==> *final(app) == *old(app),
        old(app).running ==> final(app).live is Some && final(app).live->Some_0@.placements
            == sheets_view(placements@) && final(app).live_marks == marks,
{
    if old(app).running {
        assert(snapshot_view(final(app).live) is Some);
    }
}

/// An export that ended is told as done or as failed, and changes nothing else.
pub proof fn law_an_export_is_told(
    app: &mut App,
    format: ExportFormat,
    result: Result<(), String>,
    dicts: &Dicts,
    effects: Effects,
)
    requires
        call_ensures(App::on_exported, (app, format, result, dicts), effects),
    ensures
        *final(app) == (App { export_status: final(app).export_status, ..*old(app) }),
        final(app).export_status.error <==> result is Err,
        result matches Err(e) ==> final(app).export_status.text@ == e@,
{
    assert(final(app).export_status@.error == final(app).export_status.error);
    assert(final(app).export_status@.text == final(app).export_status.text@);
}

/// Settings that were saved are the settings of the form, but for mirroring; a
/// saved result waits for an answer; and what was not saved leaves everything
/// as it is.
pub proof fn law_saved_settings_come_back(
    app: &mut App,
    config: Option<NestConfigDto>,
    threshold: String,
    best: Option<BestResultDto>,
    errors: Vec<String>,
    effects: Effects,
)
    requires
        call_ensures(App::on_loaded, (app, config, threshold, best, errors), effects),
    ensures
        config is None ==> final(app).cfg == old(app).cfg,
        config matches Some(c) ==> {
            &&& final(app).cfg.margin == c.margin
            &&& final(app).cfg.spacing == c.spacing
            &&& final(app).cfg.kerf == c.kerf
            &&& final(app).cfg.runs == c.runs
            &&& final(app).cfg.placement_type == c.placement_type
            &&& final(app).cfg.rotations == c.rotations
            &&& final(app).cfg.population_size == c.population_size
            &&& final(app).cfg.mutation_rate == c.mutation_rate
            &&& final(app).cfg.generations == c.generations
            &&& final(app).cfg.dominant_threshold == c.dominant_part_area_threshold
            &&& final(app).cfg.max_threads == c.max_threads
            &&& final(app).cfg.seed == c.seed
            &&& final(app).cfg.curve_tolerance == c.curve_tolerance
            &&& final(app).cfg.mirror == old(app).cfg.mirror
            &&& c.cleanup_threshold_percent is Some ==> final(app).cfg.cleanup_threshold@
                == threshold@
            &&& c.cleanup_threshold_percent is None ==> final(
                app).cfg.cleanup_threshold@.len() == 0
        },
        best is Some ==> final(app).recover_prompt == best,
        best is None ==> final(app).recover_prompt == old(app).recover_prompt,
        final(app).snapshot == old(app).snapshot,
        final(app).shapes == old(app).shapes,
{
}

/// A message is taken for what it is. Imported shapes become rows, an answer to a
/// job ends the run, a check is shown, a library is put to use, offcuts are
/// offered, shapes of a job are kept, and a line that is only to be logged
/// changes nothing.
pub proof fn law_a_message_does_its_own_thing(
    app: &mut App,
    msg: Msg,
    dicts: &Dicts,
    effects: Effects,
)
    requires
        call_ensures(App::handle, (app, msg, dicts), effects),
    ensures
        msg matches Msg::Imported { file, shapes, size_guessed } ==> final(app).shapes@.len()
            == old(app).shapes@.len() + shapes@.len(),
        msg is ImportFailed ==> *final(app) == *old(app),
        msg is ImportBatchDone ==> final(app).importing == 0 && final(app).shapes == old(
            app).shapes,
        msg matches Msg::PartsReady(parts) ==> final(app).parts_by_id == parts && final(
            app).snapshot == old(app).snapshot,
        msg is NestDone ==> !final(app).running,
        msg matches Msg::NestDone { result, figures } ==> (result is Err ==> final(app).snapshot
            == old(app).snapshot),
        msg is Repacked ==> final(app).repacking is None,
        msg is Validated ==> final(app).drag is None,
        msg matches Msg::Audited(result) ==> (result matches Ok(report) ==> final(app).audit
            == Some(report)),
        msg matches Msg::StoreLoaded(result) ==> (result matches Ok(store) ==> final(app).store
            == store),
        msg matches Msg::StoreSaved(result) ==> (result matches Ok(store) ==> final(app).store
            == store),
        msg matches Msg::RemnantsComputed(result) ==> (result matches Ok(found) ==> final(
            app).remnants == found),
        msg matches Msg::Loaded { config, threshold, best, errors } ==> (best is Some ==> final(
            app).recover_prompt == best),
        msg matches Msg::UpdateAvailable(release) ==> final(app).update == Some(release),
        msg is Log || msg is RunComplete ==> *final(app) == *old(app),
        msg is RunStart || msg is Progress || msg is Tick || msg is Live || msg is Exported || msg
            is UpdateAvailable ==> final(app).snapshot == old(app).snapshot && final(app).shapes
            == old(app).shapes && final(app).store == old(app).store && final(app).running
            == old(app).running,
        msg matches Msg::Progress {
            generation,
            generations,
            sheets_used,
            unplaced_count,
            figures,
        } ==> (final(app).progress matches Progress::Generations { done, of } && done
            == generation && (generations >= 1 ==> of == generations)),
        msg matches Msg::Tick { generation, individuals_done, individuals_total } ==> (final(
            app).progress matches Progress::Within { done, of, individuals, individuals_of }
            && individuals == individuals_done && (individuals_total >= 1 ==> individuals_of
            == individuals_total) && (generation >= 1 ==> done == generation - 1)),
{
}

/// What is logged of a search tells its numbers: of a run that starts, of each
/// generation, and of a run that ends.
pub proof fn law_a_search_is_logged_by_its_numbers(
    app: &mut App,
    msg: Msg,
    dicts: &Dicts,
    effects: Effects,
)
    requires
        call_ensures(App::handle, (app, msg, dicts), effects),
        msg is RunStart || msg is Progress || msg is RunComplete || msg is ImportFailed || msg
            is Log,
    ensures
        effects.log@.len() == 1,
        effects.audit is None,
        !effects.save_store,
        msg matches Msg::RunStart(s) ==> effects.log@[0].kind == Kind::Run
            && effects.log@[0].text@ == "run "@ + decimal(s.run as nat) + "/"@ + decimal(
            s.total_runs as nat,
        ) + ": rotations "@ + decimal(s.rotations as nat) + ", population "@ + decimal(
            s.population_size as nat,
        ) + ", "@ + decimal(s.generations as nat) + " generations"@,
        msg matches Msg::Progress {
            generation,
            generations,
            sheets_used,
            unplaced_count,
            figures,
        } ==> effects.log@[0].text@ == "gen "@ + decimal(generation as nat) + "/"@ + decimal(
            generations as nat,
        ) + ": fitness "@ + figures.fitness@ + ", "@ + decimal(sheets_used as nat)
            + " sheet(s), "@ + decimal(unplaced_count as nat) + " unplaced, "@
            + figures.utilisation@ + "% used"@,
        msg matches Msg::RunComplete { complete, figures } ==> effects.log@[0].text@ == "run "@
            + decimal(complete.run as nat) + "/"@ + decimal(complete.total_runs as nat)
            + " done: "@ + decimal(complete.sheets_used as nat) + " sheet(s), "@ + decimal(
            complete.unplaced_count as nat,
        ) + " unplaced, "@ + figures.utilisation@ + "% used"@ + (if complete.improved {
            " (new best)"@
        } else {
            ""@
        }),
        msg matches Msg::ImportFailed { file, error } ==> effects.log@[0].kind == Kind::Error
            && effects.log@[0].text@ == "import failed for "@ + file@ + ": "@ + error@,
        msg matches Msg::Log(line) ==> effects.log@[0].text@ == line@,
{
    let told = log_view(effects.log@);
    assert(told.len() == effects.log@.len());
    assert(told[0] == effects.log@[0]@);
    assert(effects.log@[0]@.text == effects.log@[0].text@);
    assert(effects.log@[0]@.kind == effects.log@[0].kind);
}

/// What is logged of an answer tells whether the search was stopped, and the
/// figures of the answer; what came of the offcuts follows.
pub proof fn law_an_answer_is_logged_by_its_figures(
    app: &mut App,
    response: RunNestResponse,
    figures: Figures,
    dicts: &Dicts,
    effects: Effects,
)
    requires
        call_ensures(
            App::on_nest_done,
            (app, Ok::<RunNestResponse, String>(response), figures, dicts),
            effects,
        ),
    ensures
        effects.log@.len() > 0,
        effects.log@[0].kind == Kind::Best,
        effects.log@[0].text@ == "nest "@ + (if response.cancelled {
            "cancelled"@
        } else {
            "complete"@
        }) + ": fitness "@ + figures.fitness@ + ", "@ + decimal(response.placements@.len())
            + " sheet(s), "@ + decimal(response.unplaced_count as nat) + " unplaced, "@
            + figures.utilisation@ + "% used"@,
        final(app).run_status.text@ == shown_text(
            *dicts,
            old(app).lang,
            if response.cancelled {
                "run_status_stopped"@
            } else {
                "run_status_done"@
            },
        ),
{
    let told = log_view(effects.log@);
    assert(told.len() == effects.log@.len());
    assert(told[0] == effects.log@[0]@);
    assert(effects.log@[0]@.text == effects.log@[0].text@);
    assert(effects.log@[0]@.kind == effects.log@[0].kind);
    assert(final(app).run_status@.text == final(app).run_status.text@);
}

} // verus!
