//! The table of shapes: what is brought into it, and what is done to its rows.

use std::collections::HashMap;
use vstd::prelude::*;
use crate::bounds::{is_largest, largest};
use crate::cli::maybe_text;
use crate::console::Kind;
use crate::headless::{is_rect, rect};
use crate::i18n::{filled, shown_text, t, tv, tv_one, vars_view, Dicts, Lang};
use crate::order::reversed;
use crate::scalar::Scalar;
use crate::session::{
    log_view, says, tells_err, tells_ok, App, AuditReason, Effects, LogModel, Progress,
};
use crate::state::{starting_form, ConfigForm, MirrorRule, Role, RotRule, ShapeRow, Status};
use crate::store::ShapeStore;
use crate::text::{decimal, decimal_text, lowered, same_text, to_lowered, trim_text, trimmed};

verus! {

/// The state at the start: an empty job, no result, nothing going on.
pub open spec fn fresh(app: App, lang: Lang, live_view: bool) -> bool {
    &&& app.lang == lang
    &&& app.live_view == live_view
    &&& app.import_status@ == tells_ok(Seq::empty())
    &&& app.importing == 0
    &&& app.imported_this_batch == 0
    &&& app.preset_qty is None
    &&& app.shapes@.len() == 0
    &&& app.next_ui_id == 1
    &&& !app.shapes_collapsed
    &&& !app.select_all
    &&& starting_form(app.cfg)
    &&& !app.settings_open
    &&& !app.advanced_open
    &&& app.undo_stack@.len() == 0
    &&& app.redo_stack@.len() == 0
    &&& !app.running
    &&& app.live is None
    &&& app.live_marks is None
    &&& app.progress == Progress::Idle
    &&& app.run_status@ == tells_ok(Seq::empty())
    &&& app.current_generations == 1
    &&& app.snapshot is None
    &&& app.audit is None
    &&& !app.auditing
    &&& app.audit_reason == AuditReason::Startup
    &&& app.store.version == 1
    &&& app.store.shapes@.len() == 0
    &&& app.store.next_id == 1
    &&& app.remnants@.len() == 0
    &&& !app.harvesting
    &&& app.history@.len() == 0
    &&& app.history_index == 0
    &&& app.parts_by_id@.dom() == Set::<usize>::empty()
    &&& app.part_rules@.dom() == Set::<usize>::empty()
    &&& app.sheet_origin@.len() == 0
    &&& app.result_sheets@.len() == 0
    &&& app.result_config is None
    &&& app.export_status@ == tells_ok(Seq::empty())
    &&& app.drag is None
    &&& app.repacking is None
    &&& app.recover_prompt is None
    &&& app.update is None
}

/// Whether a file's extension is one that can be imported.
pub open spec fn importable(extension: Option<Seq<char>>) -> bool {
    match extension {
        Some(text) => lowered(text) == "dxf"@ || lowered(text) == "svg"@,
        None => false,
    }
}

/// The places in a list, from an index on, of the files that can be imported.
pub open spec fn importable_places(extensions: Seq<Option<String>>, n: int) -> Seq<usize>
    decreases n,
{
    if n <= 0 || n > extensions.len() {
        Seq::empty()
    } else {
        let before = importable_places(extensions, n - 1);
        if importable(maybe_text(extensions[n - 1])) {
            before.push((n - 1) as usize)
        } else {
            before
        }
    }
}

fn is_importable(extension: &Option<String>) -> (r: bool)
    ensures
        r == importable(maybe_text(*extension)),
{
    match extension {
        Some(text) => {
            let low = to_lowered(text.as_str());
            same_text(low.as_str(), "dxf") || same_text(low.as_str(), "svg")
        },
        None => false,
    }
}

/// What is left of some files dropped on the window: the places of those that
/// can be imported, and a line for the log about the rest.
pub fn sort_dropped(extensions: &Vec<Option<String>>) -> (r: (Vec<usize>, Effects))
    ensures
        r.0@ == importable_places(extensions@, extensions@.len() as int),
        r.1.only_says(
            if r.0@.len() < extensions@.len() {
                seq![
                    says(
                        Kind::Plain,
                        "ignored "@ + decimal((extensions@.len() - r.0@.len()) as nat)
                            + " dropped file(s) that were not .dxf/.svg"@,
                    ),
                ]
            } else {
                Seq::empty()
            },
        ),
{
    let mut usable: Vec<usize> = Vec::new();
    let mut i: usize = 0;
    while i < extensions.len()
        invariant
            i <= extensions@.len(),
            usable@ == importable_places(extensions@, i as int),
            usable@.len() <= i,
        decreases extensions.len() - i,
    {
        if is_importable(&extensions[i]) {
            usable.push(i);
        }
        i += 1;
    }
    let mut effects = Effects::none();
    assert(log_view(effects.log@) =~= Seq::<LogModel>::empty());
    if usable.len() < extensions.len() {
        let mut line = "ignored ".to_owned();
        line.append(decimal_text((extensions.len() - usable.len()) as u64).as_str());
        line.append(" dropped file(s) that were not .dxf/.svg");
        effects.say(Kind::Plain, line);
        assert(log_view(effects.log@) =~= seq![says(Kind::Plain, line@)]);
    }
    (usable, effects)
}

/// Whether a batch of files must be asked about its unit before it is imported:
/// it holds an SVG file. The question is asked once for the batch.
pub fn asks_for_unit(extensions: &Vec<Option<String>>) -> (r: bool)
    ensures
        r == exists|i: int|
            0 <= i < extensions@.len() && (maybe_text(#[trigger] extensions@[i]) matches Some(text)
                && lowered(text) == "svg"@),
{
    let mut i: usize = 0;
    while i < extensions.len()
        invariant
            i <= extensions@.len(),
            forall|k: int|
                0 <= k < i ==> !(maybe_text(#[trigger] extensions@[k]) matches Some(text)
                    && lowered(text) == "svg"@),
        decreases extensions.len() - i,
    {
        if crate::headless::is_svg(&extensions[i]) {
            return true;
        }
        i += 1;
    }
    false
}

/// The unit that an answer names. An empty answer leaves it to the file.
pub fn unit_choice(answer: &str) -> (r: Option<String>)
    ensures
        match r {
            Some(unit) => answer@.len() > 0 && unit@ == answer@,
            None => answer@.len() == 0,
        },
{
    if answer.unicode_len() == 0 {
        None
    } else {
        Some(answer.to_owned())
    }
}

/// The layer of a rectangle: the name that was typed, without the blanks around
/// it, or a name for one that has none.
pub open spec fn rect_layer(typed: Seq<char>) -> Seq<char> {
    if trimmed(typed).len() == 0 {
        "CUSTOM"@
    } else {
        trimmed(typed)
    }
}

/// The areas of the sheets among some rows.
pub open spec fn sheet_areas(rows: Seq<ShapeRow>) -> Seq<Scalar> {
    rows.filter(|r: ShapeRow| r.role == Role::Sheet).map_values(|r: ShapeRow| r.area)
}

/// A row with another role, and one with another selection.
pub open spec fn with_role(row: ShapeRow, role: Role) -> ShapeRow {
    ShapeRow { role, ..row }
}

pub open spec fn with_selected(row: ShapeRow, selected: bool) -> ShapeRow {
    ShapeRow { selected, ..row }
}

impl App {
    /// The state at the start, and the first line of the log.
    pub fn new(lang: Lang, live_view: bool) -> (r: (App, Effects))
        ensures
            fresh(r.0, lang, live_view),
            r.0.wf(),
            r.1.only_says(seq![says(Kind::Run, "Nestor started"@)]),
    {
        let app = App {
            lang,
            live_view,
            import_status: Status::default(),
            importing: 0,
            imported_this_batch: 0,
            preset_qty: None,
            shapes: Vec::new(),
            next_ui_id: 1,
            shapes_collapsed: false,
            select_all: false,
            cfg: ConfigForm::default(),
            settings_open: false,
            advanced_open: false,
            undo_stack: Vec::new(),
            redo_stack: Vec::new(),
            running: false,
            live: None,
            live_marks: None,
            progress: Progress::Idle,
            run_status: Status::default(),
            current_generations: 1,
            snapshot: None,
            audit: None,
            auditing: false,
            audit_reason: AuditReason::Startup,
            store: ShapeStore::default(),
            remnants: Vec::new(),
            harvesting: false,
            history: Vec::new(),
            history_index: 0,
            parts_by_id: HashMap::new(),
            part_rules: HashMap::new(),
            sheet_origin: Vec::new(),
            result_sheets: Vec::new(),
            result_config: None,
            export_status: Status::default(),
            drag: None,
            repacking: None,
            recover_prompt: None,
            update: None,
        };
        let mut effects = Effects::none();
        effects.say(Kind::Run, "Nestor started".to_owned());
        proof {
            assert(log_view(effects.log@) =~= seq![says(Kind::Run, "Nestor started"@)]);
            assert(app.parts_by_id@.dom() =~= Set::<usize>::empty());
            assert(app.part_rules@.dom() =~= Set::<usize>::empty());
        }
        (app, effects)
    }

    /// Says that so many files are being imported.
    pub fn begin_import(&mut self, files: usize, dicts: &Dicts)
        requires
            dicts.wf(),
        ensures
            old(self).wf() ==> final(self).wf(),
            *final(self) == (App {
                importing: files,
                import_status: final(self).import_status,
                ..*old(self)
            }),
            final(self).import_status@ == tells_ok(
                filled(
                    shown_text(*dicts, old(self).lang, "import_importing"@),
                    seq![("n"@, decimal(files as nat))],
                ),
            ),
    {
        self.importing = files;
        let n = decimal_text(files as u64);
        self.import_status.ok(tv_one(dicts, self.lang, "import_importing", "n", n.as_str()));
    }

    /// Drops a batch whose unit was not given: importing it at an unknown size
    /// would be worse than not importing it.
    pub fn cancel_import(&self) -> (r: Effects)
        ensures
            r.only_says(seq![says(Kind::Plain, "import cancelled at the SVG unit prompt"@)]),
    {
        let mut effects = Effects::none();
        effects.say(Kind::Plain, "import cancelled at the SVG unit prompt".to_owned());
        assert(log_view(effects.log@) =~= seq![
            says(Kind::Plain, "import cancelled at the SVG unit prompt"@),
        ]);
        effects
    }

    /// What adding a rectangle leaves.
    pub open spec fn rectangle_added(
        before: App,
        w: Scalar,
        h: Scalar,
        typed: Seq<char>,
        area: Scalar,
        dicts: Dicts,
        after: App,
    ) -> bool {
        if Scalar::zero().below(w) && Scalar::zero().below(h) {
            &&& after == (App {
                shapes: after.shapes,
                next_ui_id: (before.next_ui_id + 1) as usize,
                import_status: after.import_status,
                ..before
            })
            &&& after.shapes@.len() == before.shapes@.len() + 1
            &&& after.shapes@.drop_last() == before.shapes@
            &&& after.shapes@.last().ui_id == before.next_ui_id
            &&& after.shapes@.last().file@ == rect_layer(typed)
            &&& is_rect(after.shapes@.last().poly@, w, h, rect_layer(typed))
            &&& after.shapes@.last().role == Role::Part
            &&& after.shapes@.last().qty == 1
            &&& after.shapes@.last().rot == RotRule::Any
            &&& after.shapes@.last().mirror == MirrorRule::Job
            &&& !after.shapes@.last().selected
            &&& after.shapes@.last().area == area
            &&& after.shapes@.last().from_store is None
            &&& after.import_status@ == tells_ok(
                filled(
                    shown_text(dicts, before.lang, "import_status_ok"@),
                    seq![("n"@, "1"@), ("total"@, decimal(after.shapes@.len()))],
                ),
            )
        } else {
            &&& after == (App { import_status: after.import_status, ..before })
            &&& after.import_status@ == tells_err(
                shown_text(dicts, before.lang, "rect_invalid_size"@),
            )
        }
    }

    /// Adds a rectangle to the table, as if it had been imported. Its corners
    /// go round against the clock, as importers have them.
    pub fn add_rectangle(
        &mut self,
        w: Scalar,
        h: Scalar,
        typed: &str,
        area: Scalar,
        dicts: &Dicts,
    )
        requires
            dicts.wf(),
            old(self).next_ui_id < usize::MAX,
        ensures
            old(self).wf() ==> final(self).wf(),
            App::rectangle_added(*old(self), w, h, typed@, area, *dicts, *final(self)),
    {
        if !(Scalar::zero().lt(w) && Scalar::zero().lt(h)) {
            self.import_status.err(t(dicts, self.lang, "rect_invalid_size").to_owned());
            return;
        }
        let inner = trim_text(typed);
        let layer = if inner.unicode_len() == 0 {
            "CUSTOM"
        } else {
            inner
        };
        let poly = rect(w, h, layer);
        let ghost before = self.shapes@;
        self.shapes.push(ShapeRow::new(self.next_ui_id, layer.to_owned(), poly, area));
        assert(self.shapes@.drop_last() =~= before);
        self.next_ui_id = self.next_ui_id + 1;
        let total = decimal_text(self.shapes.len() as u64);
        let vars = [("n", "1"), ("total", total.as_str())];
        assert(vars_view(vars@) =~= seq![("n"@, "1"@), ("total"@, total@)]);
        self.import_status.ok(tv(dicts, self.lang, "import_status_ok", &vars));
    }

    /// Gives every row a role.
    pub fn mark_all(&mut self, role: Role)
        ensures
            old(self).wf() ==> final(self).wf(),
            *final(self) == (App { shapes: final(self).shapes, ..*old(self) }),
            final(self).shapes@ == old(self).shapes@.map_values(
                |row: ShapeRow| with_role(row, role),
            ),
    {
        let ghost before = self.shapes@;
        let mut i: usize = 0;
        while i < self.shapes.len()
            invariant
                i <= self.shapes@.len(),
                *self == (App { shapes: self.shapes, ..*old(self) }),
                before == old(self).shapes@,
                self.shapes@.len() == before.len(),
                forall|k: int| 0 <= k < i ==> #[trigger] self.shapes@[k] == with_role(before[k], role),
                forall|k: int| i <= k < before.len() ==> #[trigger] self.shapes@[k] == before[k],
            decreases self.shapes.len() - i,
        {
            self.shapes[i].role = role;
            i += 1;
        }
        assert(self.shapes@ =~= before.map_values(|row: ShapeRow| with_role(row, role)));
    }

    /// Selects every row, or none.
    pub fn select_every(&mut self, selected: bool)
        ensures
            old(self).wf() ==> final(self).wf(),
            *final(self) == (App {
                shapes: final(self).shapes,
                select_all: selected,
                ..*old(self)
            }),
            final(self).shapes@ == old(self).shapes@.map_values(
                |row: ShapeRow| with_selected(row, selected),
            ),
    {
        let ghost before = self.shapes@;
        self.select_all = selected;
        let mut i: usize = 0;
        while i < self.shapes.len()
            invariant
                i <= self.shapes@.len(),
                *self == (App { shapes: self.shapes, select_all: selected, ..*old(self) }),
                before == old(self).shapes@,
                self.shapes@.len() == before.len(),
                forall|k: int|
                    0 <= k < i ==> #[trigger] self.shapes@[k] == with_selected(before[k], selected),
                forall|k: int| i <= k < before.len() ==> #[trigger] self.shapes@[k] == before[k],
            decreases self.shapes.len() - i,
        {
            self.shapes[i].selected = selected;
            i += 1;
        }
        assert(self.shapes@ =~= before.map_values(|row: ShapeRow| with_selected(row, selected)));
    }

    /// How many rows are selected.
    pub fn selected_count(&self) -> (r: usize)
        ensures
            r == self.shapes@.filter(|row: ShapeRow| row.selected).len(),
    {
        let mut r: usize = 0;
        let mut i: usize = 0;
        proof {
            reveal(Seq::filter);
            assert(self.shapes@.subrange(0, 0) =~= Seq::<ShapeRow>::empty());
        }
        while i < self.shapes.len()
            invariant
                i <= self.shapes@.len(),
                r <= i,
                r == self.shapes@.subrange(0, i as int).filter(|row: ShapeRow| row.selected).len(),
            decreases self.shapes.len() - i,
        {
            proof {
                reveal(Seq::filter);
                assert(self.shapes@.subrange(0, i + 1).drop_last() =~= self.shapes@.subrange(
                    0,
                    i as int,
                ));
            }
            if self.shapes[i].selected {
                r += 1;
            }
            i += 1;
        }
        assert(self.shapes@.subrange(0, self.shapes@.len() as int) =~= self.shapes@);
        r
    }

    /// Removes the rows that are selected; the others keep their order.
    pub fn remove_selected(&mut self)
        ensures
            old(self).wf() ==> final(self).wf(),
            *final(self) == (App {
                shapes: final(self).shapes,
                select_all: false,
                ..*old(self)
            }),
            final(self).shapes@ == old(self).shapes@.filter(|row: ShapeRow| !row.selected),
    {
        let ghost all = self.shapes@;
        let ghost keep = |row: ShapeRow| !row.selected;
        let mut ahead: Vec<ShapeRow> = Vec::new();
        std::mem::swap(&mut ahead, &mut self.shapes);
        let mut waiting = reversed(ahead);
        let mut kept: Vec<ShapeRow> = Vec::new();
        let ghost mut done: int = 0;
        proof {
            reveal(Seq::filter);
            assert(all.subrange(0, 0) =~= Seq::<ShapeRow>::empty());
        }
        while waiting.len() > 0
            invariant
                0 <= done,
                done + waiting@.len() == all.len(),
                keep == (|row: ShapeRow| !row.selected),
                forall|k: int| 0 <= k < waiting@.len() ==> #[trigger] waiting@[k]
                    == all[all.len() - 1 - k],
                kept@ == all.subrange(0, done).filter(keep),
            decreases waiting.len(),
        {
            proof {
                reveal(Seq::filter);
                assert(all.subrange(0, done + 1).drop_last() =~= all.subrange(0, done));
            }
            match waiting.pop() {
                Some(row) => {
                    assert(row == all[done]);
                    if !row.selected {
                        kept.push(row);
                    }
                    proof {
                        done = done + 1;
                    }
                },
                None => {},
            }
        }
        assert(all.subrange(0, all.len() as int) =~= all);
        self.shapes = kept;
        self.select_all = false;
    }

    /// The area of the largest sheet in the table.
    pub fn largest_sheet_area(&self) -> (r: Scalar)
        ensures
            is_largest(sheet_areas(self.shapes@), r),
    {
        let mut areas: Vec<Scalar> = Vec::new();
        let mut i: usize = 0;
        proof {
            reveal(Seq::filter);
            assert(self.shapes@.subrange(0, 0) =~= Seq::<ShapeRow>::empty());
            assert(sheet_areas(self.shapes@.subrange(0, 0)) =~= Seq::<Scalar>::empty());
        }
        while i < self.shapes.len()
            invariant
                i <= self.shapes@.len(),
                areas@ == sheet_areas(self.shapes@.subrange(0, i as int)),
            decreases self.shapes.len() - i,
        {
            let ghost so_far = areas@;
            proof {
                reveal(Seq::filter);
                assert(self.shapes@.subrange(0, i + 1).drop_last() =~= self.shapes@.subrange(
                    0,
                    i as int,
                ));
            }
            if self.shapes[i].role == Role::Sheet {
                areas.push(self.shapes[i].area);
                assert(sheet_areas(self.shapes@.subrange(0, i + 1)) =~= so_far.push(
                    self.shapes@[i as int].area,
                ));
            } else {
                assert(sheet_areas(self.shapes@.subrange(0, i + 1)) =~= so_far);
            }
            i += 1;
        }
        assert(self.shapes@.subrange(0, self.shapes@.len() as int) =~= self.shapes@);
        largest(&areas)
    }
}

/// Whether a row is marked as closing its sheet: a part at least as large as
/// `limit`, the threshold's share of the largest sheet, where there is a sheet
/// at all.
pub fn closes_sheet(role: Role, area: Scalar, sheet_area: Scalar, limit: Scalar) -> (r: bool)
    ensures
        r == (role == Role::Part && Scalar::zero().below(sheet_area) && limit.at_most(area)),
{
    role == Role::Part && Scalar::zero().lt(sheet_area) && limit.le(area)
}

/// How wide and high something is.
#[derive(Clone, Copy, PartialEq, Eq, Structural, Debug)]
pub struct Extent {
    pub w: Scalar,
    pub h: Scalar,
}

/// Whether something fits into something else, as it is or turned by a quarter.
pub open spec fn fits(part: Extent, sheet: Extent) -> bool {
    ||| part.w.at_most(sheet.w) && part.h.at_most(sheet.h)
    ||| part.h.at_most(sheet.w) && part.w.at_most(sheet.h)
}

/// Whether a part fits one of some sheets.
pub open spec fn fits_one_of(part: Extent, sheets: Seq<Extent>) -> bool {
    exists|i: int| 0 <= i < sheets.len() && fits(part, #[trigger] sheets[i])
}

/// Whether a part fits on any of some sheets, going by their boxes. One that
/// does not is too large, whatever else the engine might try.
pub fn fits_any_sheet(part: Extent, sheets: &Vec<Extent>) -> (r: bool)
    ensures
        r == exists|i: int| 0 <= i < sheets@.len() && fits(part, #[trigger] sheets@[i]),
        r == fits_one_of(part, sheets@),
{
    let mut i: usize = 0;
    while i < sheets.len()
        invariant
            i <= sheets@.len(),
            forall|k: int| 0 <= k < i ==> !fits(part, #[trigger] sheets@[k]),
        decreases sheets.len() - i,
    {
        let sheet = sheets[i];
        if (part.w.le(sheet.w) && part.h.le(sheet.h)) || (part.h.le(sheet.w) && part.w.le(
            sheet.h,
        )) {
            assert(fits(part, sheets@[i as int]));
            return true;
        }
        i += 1;
    }
    false
}

/// Turning a part by a quarter does not change whether it fits.
pub proof fn law_a_turned_part_fits_as_well(part: Extent, sheet: Extent)
    ensures
        fits(part, sheet) == fits(Extent { w: part.h, h: part.w }, sheet),
{
}

// --- what the table promises ----------------------------------------------

proof fn lemma_importable_places(extensions: Seq<Option<String>>, n: int, i: usize)
    requires
        0 <= n <= extensions.len() <= usize::MAX,
    ensures
        importable_places(extensions, n).contains(i) <==> i < n && importable(
            maybe_text(extensions[i as int]),
        ),
        forall|k: int|
            0 <= k < importable_places(extensions, n).len() ==> #[trigger] importable_places(
                extensions,
                n,
            )[k] < n,
        forall|j: int, k: int|
            0 <= j < k < importable_places(extensions, n).len() ==> importable_places(
                extensions,
                n,
            )[j] < importable_places(extensions, n)[k],
    decreases n,
{
    if n > 0 {
        lemma_importable_places(extensions, n - 1, i);
        let before = importable_places(extensions, n - 1);
        let now = importable_places(extensions, n);
        if importable(maybe_text(extensions[n - 1])) {
            assert(now == before.push((n - 1) as usize));
            if before.contains(i) {
                let k = choose|k: int| 0 <= k < before.len() && before[k] == i;
                assert(now[k] == i);
            }
            if i == n - 1 {
                assert(now[before.len() as int] == i);
            }
            if now.contains(i) {
                let k = choose|k: int| 0 <= k < now.len() && now[k] == i;
                if k < before.len() {
                    assert(before[k] == i);
                }
            }
        }
    }
}

/// Of the files that are dropped, those that end in dxf or svg, in capitals or
/// not, are taken, each once and in their order, and no others.
pub proof fn law_only_drawings_are_taken(
    extensions: &Vec<Option<String>>,
    r: (Vec<usize>, Effects),
    i: usize,
    j: int,
    k: int,
)
    requires
        call_ensures(sort_dropped, (extensions,), r),
    ensures
        r.0@.contains(i) <==> {
            &&& i < extensions@.len()
            &&& extensions@[i as int] is Some
            &&& lowered(extensions@[i as int]->Some_0@) == "dxf"@ || lowered(
                extensions@[i as int]->Some_0@,
            ) == "svg"@
        },
        0 <= j < k < r.0@.len() ==> r.0@[j] < r.0@[k],
        r.1.log@.len() == (if r.0@.len() < extensions@.len() {
            1int
        } else {
            0
        }),
{
    assert(extensions@.len() == extensions.len());
    lemma_importable_places(extensions@, extensions@.len() as int, i);
    assert(log_view(r.1.log@).len() == r.1.log@.len());
}

/// The unit is asked for exactly where one of the files is an svg.
pub proof fn law_the_unit_is_asked_for_an_svg(extensions: &Vec<Option<String>>, r: bool)
    requires
        call_ensures(asks_for_unit, (extensions,), r),
    ensures
        r <==> exists|i: int|
            0 <= i < extensions@.len() && #[trigger] extensions@[i] is Some && lowered(
                extensions@[i]->Some_0@,
            ) == "svg"@,
{
    if r {
        let i = choose|i: int|
            0 <= i < extensions@.len() && (maybe_text(#[trigger] extensions@[i]) matches Some(text)
                && lowered(text) == "svg"@);
        assert(extensions@[i] is Some);
    }
    if exists|i: int|
        0 <= i < extensions@.len() && #[trigger] extensions@[i] is Some && lowered(
            extensions@[i]->Some_0@,
        ) == "svg"@ {
        let i = choose|i: int|
            0 <= i < extensions@.len() && #[trigger] extensions@[i] is Some && lowered(
                extensions@[i]->Some_0@,
            ) == "svg"@;
        assert(maybe_text(extensions@[i]) == Some(extensions@[i]->Some_0@));
    }
}

/// Marking every row gives each row that role, and selecting every row selects
/// or clears each; nothing else of a row changes, and no row comes or goes.
pub proof fn law_marking_changes_only_the_mark(
    marked: &mut App,
    role: Role,
    picked: &mut App,
    selected: bool,
    i: int,
)
    requires
        call_ensures(App::mark_all, (marked, role), ()),
        call_ensures(App::select_every, (picked, selected), ()),
    ensures
        final(marked).shapes@.len() == old(marked).shapes@.len(),
        0 <= i < old(marked).shapes@.len() ==> final(marked).shapes@[i] == (ShapeRow {
            role,
            ..old(marked).shapes@[i]
        }),
        final(picked).shapes@.len() == old(picked).shapes@.len(),
        0 <= i < old(picked).shapes@.len() ==> final(picked).shapes@[i] == (ShapeRow {
            selected,
            ..old(picked).shapes@[i]
        }),
        final(picked).select_all == selected,
        final(marked).store == old(marked).store,
        final(picked).store == old(picked).store,
        final(marked).snapshot == old(marked).snapshot,
        final(picked).snapshot == old(picked).snapshot,
{
}

/// Removing the selected rows leaves every row that is not selected, in its
/// order, and no other; and as many go as were counted.
pub proof fn law_only_selected_rows_go(app: &mut App, counted: usize, i: int)
    requires
        call_ensures(App::selected_count, (&*old(app),), counted),
        call_ensures(App::remove_selected, (app,), ()),
    ensures
        final(app).shapes@ == old(app).shapes@.filter(|row: ShapeRow| !row.selected),
        final(app).shapes@.len() + counted == old(app).shapes@.len(),
        0 <= i < old(app).shapes@.len() && !old(app).shapes@[i].selected ==> final(
            app).shapes@.contains(old(app).shapes@[i]),
        0 <= i < final(app).shapes@.len() ==> !final(app).shapes@[i].selected && old(
            app).shapes@.contains(final(app).shapes@[i]),
        !final(app).select_all,
{
    let rows = old(app).shapes@;
    let keep = |row: ShapeRow| !row.selected;
    lemma_selected_and_not(rows);
    if 0 <= i < rows.len() && !rows[i].selected {
        rows.lemma_filter_contains(keep, i);
    }
    if 0 <= i < final(app).shapes@.len() {
        rows.lemma_filter_pred(keep, i);
        rows.lemma_filter_contains_rev(keep, rows.filter(keep)[i]);
    }
}

proof fn lemma_selected_and_not(rows: Seq<ShapeRow>)
    ensures
        rows.filter(|row: ShapeRow| !row.selected).len() + rows.filter(
            |row: ShapeRow| row.selected,
        ).len() == rows.len(),
    decreases rows.len(),
{
    reveal(Seq::filter);
    if rows.len() > 0 {
        lemma_selected_and_not(rows.drop_last());
    }
}

/// A rectangle with two sizes above zero becomes the last row of the table: one
/// part with the four corners that the sizes say, free to be turned. Any other
/// is refused, and the table stays as it is.
pub proof fn law_a_rectangle_has_the_sizes_typed(
    app: &mut App,
    w: Scalar,
    h: Scalar,
    typed: &str,
    area: Scalar,
    dicts: &Dicts,
    i: int,
)
    requires
        call_ensures(App::add_rectangle, (app, w, h, typed, area, dicts), ()),
    ensures
        Scalar::zero().below(w) && Scalar::zero().below(h) ==> {
            let row = final(app).shapes@.last();
            let points = row.poly@.points;
            &&& final(app).shapes@.len() == old(app).shapes@.len() + 1
            &&& 0 <= i < old(app).shapes@.len() ==> final(app).shapes@[i] == old(
                app).shapes@[i]
            &&& points.len() == 4
            &&& points[0].x == Scalar::zero() && points[0].y == Scalar::zero()
            &&& points[1].x == w && points[1].y == Scalar::zero()
            &&& points[2].x == w && points[2].y == h
            &&& points[3].x == Scalar::zero() && points[3].y == h
            &&& row.poly@.children.len() == 0
            &&& row.role == Role::Part
            &&& row.qty == 1
            &&& row.rot == RotRule::Any
            &&& row.mirror == MirrorRule::Job
            &&& row.area == area
            &&& row.ui_id == old(app).next_ui_id
            &&& row.from_store is None
            &&& !final(app).import_status.error
        },
        !(Scalar::zero().below(w) && Scalar::zero().below(h)) ==> *final(app) == (App {
            import_status: final(app).import_status,
            ..*old(app)
        }) && final(app).import_status.error,
{
    assert(final(app).import_status@.error == final(app).import_status.error);
    if Scalar::zero().below(w) && Scalar::zero().below(h) {
        if 0 <= i < old(app).shapes@.len() {
            assert(final(app).shapes@.drop_last()[i] == old(app).shapes@[i]);
        }
    }
}

/// The largest sheet is a sheet row of the table, none of them is larger, and it
/// is nothing where there is none.
pub proof fn law_no_sheet_is_larger(app: &App, r: Scalar, i: int)
    requires
        call_ensures(App::largest_sheet_area, (app,), r),
    ensures
        0 <= i < app.shapes@.len() && app.shapes@[i].role == Role::Sheet ==> !r.below(
            app.shapes@[i].area,
        ),
        r.bits == 0 || exists|k: int|
            0 <= k < app.shapes@.len() && (#[trigger] app.shapes@[k]).role == Role::Sheet
                && app.shapes@[k].area == r,
        !r.nan(),
{
    let is_sheet = |r: ShapeRow| r.role == Role::Sheet;
    let rows = app.shapes@;
    let sheets = rows.filter(is_sheet);
    let areas = sheet_areas(rows);
    assert(areas.len() == sheets.len());
    if 0 <= i < rows.len() && rows[i].role == Role::Sheet {
        rows.lemma_filter_contains(is_sheet, i);
        let k = choose|k: int| 0 <= k < sheets.len() && sheets[k] == rows[i];
        assert(areas[k] == rows[i].area);
    }
    if areas.contains(r) {
        let k = choose|k: int| 0 <= k < areas.len() && areas[k] == r;
        rows.lemma_filter_pred(is_sheet, k);
        rows.lemma_filter_contains_rev(is_sheet, sheets[k]);
        let j = choose|j: int| 0 <= j < rows.len() && rows[j] == sheets[k];
        assert(rows[j].role == Role::Sheet && rows[j].area == r);
    }
}

/// A part fits where one of the sheets is as wide and as high as it is, as it
/// lies or turned by a quarter.
pub proof fn law_a_part_fits_upright_or_turned(part: Extent, sheets: &Vec<Extent>, r: bool)
    requires
        call_ensures(fits_any_sheet, (part, sheets), r),
    ensures
        r <==> exists|i: int|
            0 <= i < sheets@.len() && ((part.w.at_most((#[trigger] sheets@[i]).w)
                && part.h.at_most(sheets@[i].h)) || (part.h.at_most(sheets@[i].w)
                && part.w.at_most(sheets@[i].h))),
{
    if r {
        let i = choose|i: int| 0 <= i < sheets@.len() && fits(part, #[trigger] sheets@[i]);
        assert((part.w.at_most(sheets@[i].w) && part.h.at_most(sheets@[i].h)) || (part.h.at_most(
            sheets@[i].w,
        ) && part.w.at_most(sheets@[i].h)));
    }
    if exists|i: int|
        0 <= i < sheets@.len() && ((part.w.at_most((#[trigger] sheets@[i]).w) && part.h.at_most(
            sheets@[i].h,
        )) || (part.h.at_most(sheets@[i].w) && part.w.at_most(sheets@[i].h))) {
        let i = choose|i: int|
            0 <= i < sheets@.len() && ((part.w.at_most((#[trigger] sheets@[i]).w)
                && part.h.at_most(sheets@[i].h)) || (part.h.at_most(sheets@[i].w)
                && part.w.at_most(sheets@[i].h)));
        assert(fits(part, sheets@[i]));
    }
}

/// An import tells of the files it covers and touches nothing else.
pub proof fn law_an_import_covers_its_files(app: &mut App, files: usize, dicts: &Dicts)
    requires
        call_ensures(App::begin_import, (app, files, dicts), ()),
    ensures
        final(app).importing == files,
        final(app).shapes == old(app).shapes,
        final(app).snapshot == old(app).snapshot,
        final(app).store == old(app).store,
        !final(app).import_status.error,
{
    assert(final(app).import_status@.error == final(app).import_status.error);
}

/// A session starts with an empty table, no result, an empty library, and the
/// language and the view it was asked for.
pub proof fn law_a_session_starts_empty(lang: Lang, live_view: bool, r: (App, Effects))
    requires
        call_ensures(App::new, (lang, live_view), r),
    ensures
        r.0.lang == lang,
        r.0.live_view == live_view,
        r.0.shapes@.len() == 0,
        r.0.snapshot is None,
        r.0.history@.len() == 0,
        r.0.undo_stack@.len() == 0,
        r.0.redo_stack@.len() == 0,
        r.0.store.shapes@.len() == 0,
        r.0.result_config is None,
        !r.0.running,
        r.0.drag is None,
        r.1.audit is None,
        !r.1.save_store,
{
}

/// A part closes a sheet exactly where there is a sheet and the part is at least
/// as large as the limit; only a part does.
pub proof fn law_only_a_large_part_closes_a_sheet(
    role: Role,
    area: Scalar,
    sheet_area: Scalar,
    limit: Scalar,
    r: bool,
)
    requires
        call_ensures(closes_sheet, (role, area, sheet_area, limit), r),
    ensures
        r <==> role == Role::Part && Scalar::zero().below(sheet_area) && limit.at_most(area),
{
}

/// An answer about the unit is that unit, and no answer is none.
pub proof fn law_the_unit_is_the_one_answered(answer: &str, r: Option<String>)
    requires
        call_ensures(unit_choice, (answer,), r),
    ensures
        r is Some <==> answer@.len() > 0,
        r matches Some(unit) ==> unit@ == answer@,
{
}

} // verus!
