//! Everything the screens share: the job being put together, the run in flight,
//! the result on display, and what is being edited about it.
//!
//! Nothing here waits, draws or touches a disk. What an event calls for is
//! returned as [`Effects`], for the shell to carry out.

use std::collections::HashMap;
use vstd::prelude::*;
use crate::audit::AuditReportDto;
use crate::config::NestConfigDto;
use crate::console::Kind;
use crate::i18n::{shown_text, t, Dicts, Lang};
use crate::live::{
    from_entry, law_a_result_holds_every_field, remember, remembered, stack_view, step_history, stepped, GhostSet, Snapshot,
    SnapshotModel, Stacks, MAX_UNDO,
};
use crate::parts::PartRuleDto;
use crate::placement::{copy_sheets, lemma_same_sheets, sheets_view, SheetModel};
use crate::requests::{AuditRequest, RemnantDto};
use crate::result::{copy_shapes, same_shapes, BestResultDto, NestSnapshotDto};
use crate::scalar::Scalar;
use crate::shape::{Outline, PolygonDto};
use crate::state::{ConfigForm, ShapeRow, Status, StatusModel};
use crate::store::ShapeStore;
use crate::update::Release;

verus! {

/// A line for the log.
pub struct LogLine {
    pub kind: Kind,
    pub text: String,
}

/// What a [`LogLine`] holds.
#[verifier::ext_equal]
pub struct LogModel {
    pub kind: Kind,
    pub text: Seq<char>,
}

impl View for LogLine {
    type V = LogModel;

    open spec fn view(&self) -> LogModel {
        LogModel { kind: self.kind, text: self.text@ }
    }
}

/// What lines for the log hold.
pub open spec fn log_view(lines: Seq<LogLine>) -> Seq<LogModel> {
    lines.map_values(|l: LogLine| l@)
}

/// A line that tells something.
pub open spec fn says(kind: Kind, text: Seq<char>) -> LogModel {
    LogModel { kind, text }
}

/// What an event calls for.
pub struct Effects {
    /// Lines to be logged, in order.
    pub log: Vec<LogLine>,
    /// A check to be run.
    pub audit: Option<AuditRequest>,
    /// Whether the library is to be written to disk.
    pub save_store: bool,
}

impl Effects {
    /// Nothing at all.
    pub fn none() -> (r: Effects)
        ensures
            r.log@.len() == 0,
            r.audit is None,
            !r.save_store,
    {
        Effects { log: Vec::new(), audit: None, save_store: false }
    }

    /// One more line.
    pub fn say(&mut self, kind: Kind, text: String)
        ensures
            log_view(final(self).log@) == log_view(old(self).log@).push(says(kind, text@)),
            final(self).audit == old(self).audit,
            final(self).save_store == old(self).save_store,
    {
        let ghost before = self.log@;
        self.log.push(LogLine { kind, text });
        assert(log_view(self.log@) =~= log_view(before).push(says(kind, text@)));
    }

    /// Whether the only thing called for is some lines in the log.
    pub open spec fn only_says(&self, lines: Seq<LogModel>) -> bool {
        &&& log_view(self.log@) == lines
        &&& self.audit is None
        &&& !self.save_store
    }
}

/// How far the run in flight has come.
#[derive(Clone, Copy, PartialEq, Eq, Structural, Debug)]
pub enum Progress {
    Idle,
    /// So many generations of so many are done.
    Generations { done: usize, of: usize },
    /// So many generations of so many are done, and of the next one so many
    /// individuals of so many.
    Within { done: usize, of: usize, individuals: usize, individuals_of: usize },
}

/// What brought about the check in flight.
#[derive(Clone, Copy, PartialEq, Eq, Structural, Debug)]
pub enum AuditReason {
    Startup,
    NestRun,
    Repack,
    Drag,
    Undo,
    Redo,
    Attempt,
    Recovery,
}

/// What brought a check about, in words.
pub open spec fn reason_words(reason: AuditReason) -> Seq<char> {
    match reason {
        AuditReason::Startup => "startup"@,
        AuditReason::NestRun => "a nest run"@,
        AuditReason::Repack => "a repack"@,
        AuditReason::Drag => "a drag"@,
        AuditReason::Undo => "an undo"@,
        AuditReason::Redo => "a redo"@,
        AuditReason::Attempt => "switching attempts"@,
        AuditReason::Recovery => "recovering the saved best result"@,
    }
}

impl AuditReason {
    /// What brought the check about, in words.
    pub fn words(self) -> (r: &'static str)
        ensures
            r@ == reason_words(self),
    {
        match self {
            AuditReason::Startup => "startup",
            AuditReason::NestRun => "a nest run",
            AuditReason::Repack => "a repack",
            AuditReason::Drag => "a drag",
            AuditReason::Undo => "an undo",
            AuditReason::Redo => "a redo",
            AuditReason::Attempt => "switching attempts",
            AuditReason::Recovery => "recovering the saved best result",
        }
    }
}

/// A part being moved by hand.
#[derive(Clone, Copy, PartialEq, Eq, Structural, Debug)]
pub struct Drag {
    pub sheet: usize,
    pub part_id: usize,
    pub dx: Scalar,
    pub dy: Scalar,
    pub drot: Scalar,
    pub moved: bool,
    /// Whether the bounding boxes say that the place is free.
    pub clear: bool,
    /// Whether the engine has been asked and has not answered.
    pub awaiting: bool,
}

/// The state the screens share.
pub struct App {
    pub lang: Lang,
    pub live_view: bool,

    pub import_status: Status,
    /// How many files the running import covers; 0 when there is none.
    pub importing: usize,
    /// Shapes, not files, read by the import in flight.
    pub imported_this_batch: usize,
    /// The quantity every row of the sample job being imported gets.
    pub preset_qty: Option<usize>,

    pub shapes: Vec<ShapeRow>,
    pub next_ui_id: usize,
    pub shapes_collapsed: bool,
    pub select_all: bool,
    pub cfg: ConfigForm,
    pub settings_open: bool,
    pub advanced_open: bool,

    /// Results to go back to, the oldest first.
    pub undo_stack: Vec<Snapshot>,
    /// Results undone and not redone, the newest last.
    pub redo_stack: Vec<Snapshot>,

    pub running: bool,
    /// The layout the engine is building, apart from the result: a stopped run
    /// leaves the result before it untouched.
    pub live: Option<Snapshot>,
    pub live_marks: Option<GhostSet>,
    pub progress: Progress,
    pub run_status: Status,
    pub current_generations: usize,

    pub snapshot: Option<Snapshot>,
    /// What the last check found. Nothing means that nothing was checked.
    pub audit: Option<AuditReportDto>,
    pub auditing: bool,
    pub audit_reason: AuditReason,
    pub store: ShapeStore,
    /// Offcuts of the result on display.
    pub remnants: Vec<RemnantDto>,
    pub harvesting: bool,
    pub history: Vec<NestSnapshotDto>,
    pub history_index: usize,
    pub parts_by_id: HashMap<usize, PolygonDto>,
    pub part_rules: HashMap<usize, PartRuleDto>,
    /// The library entry each sheet of the run came from.
    pub sheet_origin: Vec<Option<usize>>,
    pub result_sheets: Vec<PolygonDto>,
    /// Nothing for a result that was saved without its settings: it cannot be
    /// edited.
    pub result_config: Option<NestConfigDto>,
    pub export_status: Status,
    pub drag: Option<Drag>,
    pub repacking: Option<usize>,
    /// The best result of an earlier session, waiting for an answer.
    pub recover_prompt: Option<BestResultDto>,
    pub update: Option<Release>,
}

/// What an optional result holds.
pub open spec fn snapshot_view(snapshot: Option<Snapshot>) -> Option<SnapshotModel> {
    match snapshot {
        Some(s) => Some(s@),
        None => None,
    }
}

/// What a list of outlines holds.
pub open spec fn outlines(shapes: Seq<PolygonDto>) -> Seq<Outline> {
    shapes.map_values(|p: PolygonDto| p@)
}

/// A copy of a list of outlines.
pub fn copy_outlines(shapes: &Vec<PolygonDto>) -> (r: Vec<PolygonDto>)
    ensures
        outlines(r@) == outlines(shapes@),
{
    let mut out: Vec<PolygonDto> = Vec::new();
    let mut i: usize = 0;
    while i < shapes.len()
        invariant
            i <= shapes.len(),
            out@.len() == i,
            forall|k: int| 0 <= k < i ==> (#[trigger] out@[k])@ == shapes@[k]@,
        decreases shapes.len() - i,
    {
        out.push(shapes[i].clone());
        i += 1;
    }
    assert(outlines(out@) =~= outlines(shapes@));
    out
}

/// Whether a check asks about the result that is on display.
pub open spec fn asks_about(
    request: AuditRequest,
    placements: Seq<SheetModel>,
    sheets: Seq<PolygonDto>,
    parts: Map<usize, PolygonDto>,
    config: NestConfigDto,
) -> bool {
    &&& outlines(request.sheets@) == outlines(sheets)
    &&& sheets_view(request.placements@) == placements
    &&& same_shapes(request.parts_by_id@, parts)
    &&& request.config == config
}

impl App {
    /// What holds of the state at all times.
    pub open spec fn wf(&self) -> bool {
        &&& self.undo_stack@.len() + self.redo_stack@.len() <= MAX_UNDO
        &&& self.history@.len() > 0 ==> self.history_index < self.history@.len()
    }

    /// Whether the job and its result must not be touched: a run is in flight,
    /// and mixing its parts with another result's placements would be wrong.
    pub fn controls_locked(&self) -> (r: bool)
        ensures
            r == self.running,
    {
        self.running
    }

    /// The result the panel shows: during a run the layout being built, if there
    /// is one, and else the finished result.
    pub open spec fn on_screen(&self) -> Option<Snapshot> {
        if self.running && self.live is Some {
            self.live
        } else {
            self.snapshot
        }
    }

    /// The result the panel shows.
    pub fn shown(&self) -> (r: Option<&Snapshot>)
        ensures
            match r {
                Some(s) => self.on_screen() == Some(*s),
                None => self.on_screen() is None,
            },
    {
        if self.running {
            match &self.live {
                Some(s) => Some(s),
                None => match &self.snapshot {
                    Some(s) => Some(s),
                    None => None,
                },
            }
        } else {
            match &self.snapshot {
                Some(s) => Some(s),
                None => None,
            }
        }
    }

    /// Whether what is shown is being built, and so is nothing to be edited.
    pub fn showing_live(&self) -> (r: bool)
        ensures
            r == (self.running && self.live is Some),
    {
        self.running && self.live.is_some()
    }

    /// Turns the live view on or off. Turning it off drops the layout being
    /// built at once: left standing it would look like a run that has stalled.
    pub fn set_live_view(&mut self, on: bool)
        ensures
            old(self).wf() ==> final(self).wf(),
            *final(self) == (App {
                live_view: on,
                live: if on {
                    old(self).live
                } else {
                    None
                },
                live_marks: if on {
                    old(self).live_marks
                } else {
                    None
                },
                ..*old(self)
            }),
    {
        self.live_view = on;
        if !on {
            self.live = None;
            self.live_marks = None;
        }
    }

    /// Changes the language. The status lines are cleared: they hold text that
    /// was put into words when the event happened.
    pub fn set_lang(&mut self, lang: Lang)
        ensures
            old(self).wf() ==> final(self).wf(),
            old(self).lang == lang ==> *final(self) == *old(self),
            old(self).lang != lang ==> {
                &&& *final(self) == (App {
                    lang,
                    import_status: final(self).import_status,
                    run_status: final(self).run_status,
                    export_status: final(self).export_status,
                    ..*old(self)
                })
                &&& final(self).import_status@ == (StatusModel { text: Seq::empty(), error: false })
                &&& final(self).run_status@ == (StatusModel { text: Seq::empty(), error: false })
                &&& final(self).export_status@ == (StatusModel { text: Seq::empty(), error: false })
            },
    {
        if self.lang == lang {
            return;
        }
        self.lang = lang;
        self.import_status.clear();
        self.run_status.clear();
        self.export_status.clear();
    }

    /// Whether asking for a check leads to one: there is a result, its settings
    /// are known, and it has sheets.
    pub open spec fn can_audit(&self) -> bool {
        self.snapshot is Some && self.result_config is Some && self.result_sheets@.len() > 0
    }

    /// What asking for a check leaves: the old verdict and the old offcuts are
    /// gone, so that nothing is said of an arrangement that nobody has checked.
    pub open spec fn audit_requested(
        before: App,
        reason: AuditReason,
        after: App,
        request: Option<AuditRequest>,
    ) -> bool {
        &&& after == (App {
            audit: None,
            audit_reason: reason,
            remnants: after.remnants,
            auditing: before.auditing || before.can_audit(),
            ..before
        })
        &&& after.remnants@.len() == 0
        &&& request is Some == before.can_audit()
        &&& request matches Some(r) ==> asks_about(
            r,
            before.snapshot->0@.placements,
            before.result_sheets@,
            before.parts_by_id@,
            before.result_config->0,
        )
    }

    /// Asks for the result on display to be checked anew.
    pub fn request_audit(&mut self, reason: AuditReason) -> (r: Option<AuditRequest>)
        ensures
            old(self).wf() ==> final(self).wf(),
            App::audit_requested(*old(self), reason, *final(self), r),
    {
        self.audit = None;
        self.audit_reason = reason;
        self.remnants = Vec::new();
        let config = match self.result_config {
            Some(config) => config,
            None => {
                return None;
            },
        };
        if self.result_sheets.len() == 0 {
            return None;
        }
        let request = match &self.snapshot {
            None => {
                return None;
            },
            Some(snapshot) => AuditRequest {
                sheets: copy_outlines(&self.result_sheets),
                placements: copy_sheets(&snapshot.placements),
                parts_by_id: copy_shapes(&self.parts_by_id),
                config,
            },
        };
        self.auditing = true;
        Some(request)
    }
}

/// A status line that tells something.
pub open spec fn tells_ok(text: Seq<char>) -> StatusModel {
    StatusModel { text, error: false }
}

/// A status line that tells of something wrong.
pub open spec fn tells_err(text: Seq<char>) -> StatusModel {
    StatusModel { text, error: true }
}

impl App {
    /// A step along the history of edits: the undo and redo stacks and the
    /// result on display take one step, the result is checked anew, and the run
    /// status tells what was done. With nothing to step to only the status
    /// changes.
    pub open spec fn history_stepped(
        before: App,
        after: App,
        request: Option<AuditRequest>,
        undoing: bool,
        done: Seq<char>,
        nothing: Seq<char>,
    ) -> bool {
        let from = if undoing {
            before.undo_stack@
        } else {
            before.redo_stack@
        };
        let to = if undoing {
            before.redo_stack@
        } else {
            before.undo_stack@
        };
        if from.len() == 0 {
            &&& after == (App { run_status: after.run_status, ..before })
            &&& after.run_status@ == tells_ok(nothing)
            &&& request is None
        } else {
            let s = stepped(Stacks { from, to, current: before.snapshot });
            let mid = App {
                undo_stack: after.undo_stack,
                redo_stack: after.redo_stack,
                snapshot: after.snapshot,
                run_status: after.run_status,
                ..before
            };
            &&& after.undo_stack@ == if undoing {
                s.from
            } else {
                s.to
            }
            &&& after.redo_stack@ == if undoing {
                s.to
            } else {
                s.from
            }
            &&& after.snapshot == s.current
            &&& after.run_status@ == tells_ok(done)
            &&& App::audit_requested(
                mid,
                if undoing {
                    AuditReason::Undo
                } else {
                    AuditReason::Redo
                },
                after,
                request,
            )
        }
    }

    /// Goes back to the result before the last drag or repack.
    pub fn undo(&mut self, dicts: &Dicts) -> (r: Option<AuditRequest>)
        requires
            old(self).wf(),
            dicts.wf(),
        ensures
            final(self).wf(),
            App::history_stepped(
                *old(self),
                *final(self),
                r,
                true,
                shown_text(*dicts, old(self).lang, "undo_done"@),
                shown_text(*dicts, old(self).lang, "undo_nothing"@),
            ),
    {
        if step_history(&mut self.undo_stack, &mut self.redo_stack, &mut self.snapshot) {
            let r = self.request_audit(AuditReason::Undo);
            self.run_status.ok(t(dicts, self.lang, "undo_done").to_owned());
            r
        } else {
            self.run_status.ok(t(dicts, self.lang, "undo_nothing").to_owned());
            None
        }
    }

    /// Does again what was last undone.
    pub fn redo(&mut self, dicts: &Dicts) -> (r: Option<AuditRequest>)
        requires
            old(self).wf(),
            dicts.wf(),
        ensures
            final(self).wf(),
            App::history_stepped(
                *old(self),
                *final(self),
                r,
                false,
                shown_text(*dicts, old(self).lang, "redo_done"@),
                shown_text(*dicts, old(self).lang, "redo_nothing"@),
            ),
    {
        if step_history(&mut self.redo_stack, &mut self.undo_stack, &mut self.snapshot) {
            let r = self.request_audit(AuditReason::Redo);
            self.run_status.ok(t(dicts, self.lang, "redo_done").to_owned());
            r
        } else {
            self.run_status.ok(t(dicts, self.lang, "redo_nothing").to_owned());
            None
        }
    }

    /// Remembers the result on display, so that the next edit can be undone.
    pub fn push_undo(&mut self)
        requires
            old(self).wf(),
        ensures
            final(self).wf(),
            *final(self) == (App {
                undo_stack: final(self).undo_stack,
                redo_stack: final(self).redo_stack,
                ..*old(self)
            }),
            match old(self).snapshot {
                Some(now) => {
                    &&& stack_view(final(self).undo_stack@) == remembered(
                        stack_view(old(self).undo_stack@),
                        now@,
                    )
                    &&& final(self).redo_stack@.len() == 0
                },
                None => *final(self) == *old(self),
            },
    {
        remember(&mut self.undo_stack, &mut self.redo_stack, &self.snapshot);
    }

    /// Shows another entry of the history. Nothing happens where it is shown
    /// already or does not exist.
    pub fn show_attempt(&mut self, index: usize) -> (r: Option<AuditRequest>)
        requires
            old(self).wf(),
        ensures
            final(self).wf(),
            if index == old(self).history_index || index >= old(self).history@.len() {
                *final(self) == *old(self) && r is None
            } else {
                let mid = App {
                    history_index: index,
                    snapshot: final(self).snapshot,
                    ..*old(self)
                };
                &&& snapshot_view(final(self).snapshot) == Some(
                    from_entry(old(self).history@[index as int]@),
                )
                &&& App::audit_requested(mid, AuditReason::Attempt, *final(self), r)
            },
    {
        if index == self.history_index || index >= self.history.len() {
            return None;
        }
        self.history_index = index;
        self.snapshot = Some(Snapshot::from_history(&self.history[index]));
        self.request_audit(AuditReason::Attempt)
    }
}

// --- what a session promises ----------------------------------------------

/// Two lists of outlines of one model are the same outlines in one order.
pub proof fn lemma_same_outlines(a: Seq<PolygonDto>, b: Seq<PolygonDto>)
    requires
        outlines(a) == outlines(b),
    ensures
        a.len() == b.len(),
        forall|i: int| 0 <= i < a.len() ==> (#[trigger] a[i])@ == b[i]@,
{
    assert(outlines(a).len() == a.len() && outlines(b).len() == b.len());
    assert forall|i: int| 0 <= i < a.len() implies (#[trigger] a[i])@ == b[i]@ by {
        assert(outlines(a)[i] == a[i]@ && outlines(b)[i] == b[i]@);
    }
}

/// A copy of some outlines is those outlines, in their order.
pub proof fn law_copied_outlines_are_the_same(
    shapes: &Vec<PolygonDto>,
    r: Vec<PolygonDto>,
    i: int,
)
    requires
        call_ensures(copy_outlines, (shapes,), r),
    ensures
        r@.len() == shapes@.len(),
        0 <= i < r@.len() ==> r@[i]@ == shapes@[i]@,
{
    lemma_same_outlines(r@, shapes@);
}

/// While a search runs and shows its work, its work is on display; else the
/// result is.
pub proof fn law_the_result_is_on_display(app: &App, live: bool, r: Option<&Snapshot>)
    requires
        call_ensures(App::showing_live, (app,), live),
        call_ensures(App::shown, (app,), r),
    ensures
        live <==> app.running && app.live is Some,
        live ==> r is Some && *r->Some_0 == app.live->Some_0,
        !live ==> (r is Some <==> app.snapshot is Some),
        !live && r is Some ==> *r->Some_0 == app.snapshot->Some_0,
{
}

/// A check is asked for exactly where there is a result with its settings and
/// its sheets; it is asked about that result, sheet by sheet, about those sheets
/// and the shapes of the parts, under those settings. What an earlier check
/// found, and the offcuts, are dropped either way.
pub proof fn law_a_check_is_asked_about_the_result(
    app: &mut App,
    reason: AuditReason,
    r: Option<AuditRequest>,
    i: int,
    id: usize,
)
    requires
        call_ensures(App::request_audit, (app, reason), r),
    ensures
        r is Some <==> old(app).snapshot is Some && old(app).result_config is Some && old(
            app).result_sheets@.len() > 0,
        final(app).audit is None,
        final(app).remnants@.len() == 0,
        final(app).audit_reason == reason,
        final(app).snapshot == old(app).snapshot,
        final(app).auditing <==> old(app).auditing || r is Some,
        r matches Some(request) ==> {
            let placements = old(app).snapshot->Some_0.placements@;
            &&& request.placements@.len() == placements.len()
            &&& 0 <= i < placements.len() ==> request.placements@[i].sheet_index
                == placements[i].sheet_index && request.placements@[i].parts@
                == placements[i].parts@
            &&& request.sheets@.len() == old(app).result_sheets@.len()
            &&& 0 <= i < request.sheets@.len() ==> request.sheets@[i]@ == old(
                app).result_sheets@[i]@
            &&& request.parts_by_id@.contains_key(id) <==> old(app).parts_by_id@.contains_key(id)
            &&& request.parts_by_id@.contains_key(id) ==> request.parts_by_id@[id]@ == old(
                app).parts_by_id@[id]@
            &&& Some(request.config) == old(app).result_config
        },
{
    if let Some(request) = r {
        let s = old(app).snapshot->Some_0;
        assert(s@.placements == sheets_view(s.placements@));
        lemma_same_sheets(request.placements@, s.placements@);
        lemma_same_outlines(request.sheets@, old(app).result_sheets@);
        assert(request.parts_by_id@.dom().contains(id) <==> old(app).parts_by_id@.dom().contains(
            id,
        ));
    }
}

/// Undoing shows the newest result to go back to, and what was on display
/// becomes the newest to redo; and redoing is that the other way round. Where
/// there is none, only the status tells so.
pub proof fn law_undo_goes_back_and_redo_forward(
    back: &mut App,
    undone: Option<AuditRequest>,
    forth: &mut App,
    redone: Option<AuditRequest>,
    dicts: &Dicts,
)
    requires
        call_ensures(App::undo, (back, dicts), undone),
        call_ensures(App::redo, (forth, dicts), redone),
    ensures
        old(back).undo_stack@.len() > 0 ==> {
            &&& final(back).snapshot == Some(old(back).undo_stack@.last())
            &&& final(back).undo_stack@ == old(back).undo_stack@.drop_last()
            &&& old(back).snapshot is Some ==> final(back).redo_stack@ == old(
                back).redo_stack@.push(old(back).snapshot->Some_0)
            &&& old(back).snapshot is None ==> final(back).redo_stack@ == old(back).redo_stack@
            &&& final(back).audit is None
        },
        old(back).undo_stack@.len() == 0 ==> *final(back) == (App {
            run_status: final(back).run_status,
            ..*old(back)
        }) && undone is None,
        old(forth).redo_stack@.len() > 0 ==> {
            &&& final(forth).snapshot == Some(old(forth).redo_stack@.last())
            &&& final(forth).redo_stack@ == old(forth).redo_stack@.drop_last()
            &&& old(forth).snapshot is Some ==> final(forth).undo_stack@ == old(
                forth).undo_stack@.push(old(forth).snapshot->Some_0)
            &&& old(forth).snapshot is None ==> final(forth).undo_stack@ == old(
                forth).undo_stack@
            &&& final(forth).audit is None
        },
        old(forth).redo_stack@.len() == 0 ==> *final(forth) == (App {
            run_status: final(forth).run_status,
            ..*old(forth)
        }) && redone is None,
{
}

/// What was undone and redone at once is on display as before, with the same
/// results to go back to and to redo.
pub proof fn law_a_redo_takes_an_undo_back(
    app: &mut App,
    again: &mut App,
    dicts: &Dicts,
    undone: Option<AuditRequest>,
    redone: Option<AuditRequest>,
)
    requires
        call_ensures(App::undo, (app, dicts), undone),
        *old(again) == *final(app),
        call_ensures(App::redo, (again, dicts), redone),
        old(app).snapshot is Some,
        old(app).undo_stack@.len() > 0,
    ensures
        final(again).snapshot == old(app).snapshot,
        final(again).undo_stack@ == old(app).undo_stack@,
        final(again).redo_stack@ == old(app).redo_stack@,
        final(again).shapes == old(app).shapes,
        final(again).history == old(app).history,
{
    assert(final(again).undo_stack@ =~= old(app).undo_stack@);
    assert(final(again).redo_stack@ =~= old(app).redo_stack@);
}

/// Showing another attempt shows that entry of the history and no other; where
/// it is shown already, or there is none, nothing changes.
pub proof fn law_another_attempt_is_that_entry(
    app: &mut App,
    index: usize,
    r: Option<AuditRequest>,
    i: int,
)
    requires
        call_ensures(App::show_attempt, (app, index), r),
    ensures
        index == old(app).history_index || index >= old(app).history@.len() ==> *final(app)
            == *old(app) && r is None,
        index != old(app).history_index && index < old(app).history@.len() ==> {
            let entry = old(app).history@[index as int];
            &&& final(app).history_index == index
            &&& final(app).history == old(app).history
            &&& final(app).snapshot is Some
            &&& final(app).snapshot->Some_0.placements@.len() == entry.placements@.len()
            &&& 0 <= i < entry.placements@.len() ==> final(
                app).snapshot->Some_0.placements@[i].parts@ == entry.placements@[i].parts@
                && final(app).snapshot->Some_0.placements@[i].sheet_index
                == entry.placements@[i].sheet_index
            &&& final(app).snapshot->Some_0.utilisation == entry.utilisation
            &&& final(app).snapshot->Some_0.unplaced_count == entry.unplaced_count
            &&& final(app).snapshot->Some_0.unplaced_ids@ == entry.unplaced_ids@
            &&& final(app).undo_stack == old(app).undo_stack
        },
{
    if index != old(app).history_index && index < old(app).history@.len() {
        let entry = old(app).history@[index as int];
        let s = final(app).snapshot->Some_0;
        assert(snapshot_view(final(app).snapshot) == Some(from_entry(entry@)));
        assert(s@ == from_entry(entry@));
        law_a_result_holds_every_field(s, i, 0);
        lemma_same_sheets(s.placements@, entry.placements@);
    }
}

/// Before an edit the result on display is remembered as the newest to go back
/// to, and nothing is left to redo.
pub proof fn law_an_edit_can_be_undone(app: &mut App)
    requires
        old(app).snapshot is Some,
        call_ensures(App::push_undo, (app,), ()),
    ensures
        final(app).undo_stack@.len() > 0,
        final(app).undo_stack@.last()@ == old(app).snapshot->Some_0@,
        final(app).redo_stack@.len() == 0,
        final(app).snapshot == old(app).snapshot,
{
    let now = old(app).snapshot->Some_0;
    let a = stack_view(final(app).undo_stack@);
    assert(a == remembered(stack_view(old(app).undo_stack@), now@));
    assert(a.len() == final(app).undo_stack@.len());
    assert(a.last() == final(app).undo_stack@.last()@);
}

/// Turning the live view off drops the running picture and its marks; turning
/// it on keeps them.
pub proof fn law_the_live_view_is_what_was_chosen(app: &mut App, on: bool)
    requires
        call_ensures(App::set_live_view, (app, on), ()),
    ensures
        final(app).live_view == on,
        on ==> final(app).live == old(app).live && final(app).live_marks == old(app).live_marks,
        !on ==> final(app).live is None && final(app).live_marks is None,
        final(app).snapshot == old(app).snapshot,
        final(app).running == old(app).running,
{
}

/// A line that is said goes behind those said before, and changes nothing else.
pub proof fn law_lines_are_said_in_order(effects: &mut Effects, kind: Kind, text: String, i: int)
    requires
        call_ensures(Effects::say, (effects, kind, text), ()),
    ensures
        final(effects).log@.len() == old(effects).log@.len() + 1,
        final(effects).log@.last().kind == kind,
        final(effects).log@.last().text@ == text@,
        0 <= i < old(effects).log@.len() ==> final(effects).log@[i].text@ == old(
            effects).log@[i].text@ && final(effects).log@[i].kind == old(effects).log@[i].kind,
        final(effects).audit == old(effects).audit,
        final(effects).save_store == old(effects).save_store,
{
    let a = log_view(final(effects).log@);
    let b = log_view(old(effects).log@);
    assert(a == b.push(says(kind, text@)));
    assert(a.len() == final(effects).log@.len() && b.len() == old(effects).log@.len());
    assert(a.last() == final(effects).log@.last()@);
    if 0 <= i < b.len() {
        assert(a[i] == final(effects).log@[i]@ && b[i] == old(effects).log@[i]@);
    }
}

/// Another language clears what was told in the one before and changes nothing
/// else; the same language changes nothing at all.
pub proof fn law_another_language_keeps_the_work(app: &mut App, lang: Lang)
    requires
        call_ensures(App::set_lang, (app, lang), ()),
    ensures
        final(app).lang == lang,
        final(app).shapes == old(app).shapes,
        final(app).snapshot == old(app).snapshot,
        final(app).store == old(app).store,
        final(app).running == old(app).running,
        old(app).lang == lang ==> *final(app) == *old(app),
        old(app).lang != lang ==> final(app).run_status.text@.len() == 0 && final(
            app).import_status.text@.len() == 0 && final(app).export_status.text@.len() == 0,
{
    assert(final(app).run_status@.text == final(app).run_status.text@);
    assert(final(app).import_status@.text == final(app).import_status.text@);
    assert(final(app).export_status@.text == final(app).export_status.text@);
}

} // verus!
