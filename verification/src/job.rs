//! From the table of shapes to a job, and back from a result to the table: what
//! is asked of the engine, and how many of each part it placed.

use vstd::prelude::*;
use crate::console::Kind;
use crate::i18n::{filled, shown_text, t, tv_one, Dicts};
use crate::parts::{PartDto, RunNestRequest};
use crate::placement::{sheets_view, PlacedPartDto, SheetModel, SheetPlacementDto};
use crate::scalar::Scalar;
use crate::session::{
    copy_outlines, log_view, outlines, says, tells_err, tells_ok, App, Effects, LogModel, Progress,
};
use crate::shape::{Outline, PolygonDto};
use crate::state::{list_view, mirror_option, rule_angles, MirrorRule, Role, RotRule, ShapeRow};
use crate::text::{decimal, decimal_text};

verus! {

// --- asking for a nest ----------------------------------------------------

/// What a [`PartDto`] holds.
#[verifier::ext_equal]
pub struct PartModel {
    pub polygon: Outline,
    pub quantity: usize,
    pub allowed_rotations: Option<Seq<Scalar>>,
    pub mirror: Option<bool>,
}

/// What a part of a job holds.
pub open spec fn part_model(part: PartDto) -> PartModel {
    PartModel {
        polygon: part.polygon@,
        quantity: part.quantity,
        allowed_rotations: list_view(part.allowed_rotations),
        mirror: part.mirror,
    }
}

/// What the parts of a job hold.
pub open spec fn part_models(parts: Seq<PartDto>) -> Seq<PartModel> {
    parts.map_values(|p: PartDto| part_model(p))
}

/// The sheets of a table, one for each copy, row after row.
pub open spec fn table_sheets(rows: Seq<ShapeRow>) -> Seq<Outline>
    decreases rows.len(),
{
    if rows.len() == 0 {
        Seq::empty()
    } else {
        let row = rows.last();
        let rest = table_sheets(rows.drop_last());
        if row.role == Role::Sheet {
            rest + Seq::new(row.qty as nat, |i: int| row.poly@)
        } else {
            rest
        }
    }
}

/// The library entry each of those sheets came from.
pub open spec fn table_origins(rows: Seq<ShapeRow>) -> Seq<Option<usize>>
    decreases rows.len(),
{
    if rows.len() == 0 {
        Seq::empty()
    } else {
        let row = rows.last();
        let rest = table_origins(rows.drop_last());
        if row.role == Role::Sheet {
            rest + Seq::new(row.qty as nat, |i: int| row.from_store)
        } else {
            rest
        }
    }
}

/// Whether a row is a part that is wanted.
pub open spec fn wanted(row: ShapeRow) -> bool {
    row.role == Role::Part && row.qty > 0
}

/// The parts of a table, row after row; rows of which none are wanted are left
/// out.
pub open spec fn table_parts(rows: Seq<ShapeRow>) -> Seq<PartModel>
    decreases rows.len(),
{
    if rows.len() == 0 {
        Seq::empty()
    } else {
        let row = rows.last();
        let rest = table_parts(rows.drop_last());
        if wanted(row) {
            rest.push(
                PartModel {
                    polygon: row.poly@,
                    quantity: row.qty,
                    allowed_rotations: rule_angles(row.rot),
                    mirror: mirror_option(row.mirror),
                },
            )
        } else {
            rest
        }
    }
}

impl App {
    /// What keeps the table from being a job, in words.
    pub open spec fn request_problem(&self, dicts: Dicts) -> Option<Seq<char>> {
        if table_sheets(self.shapes@).len() == 0 {
            Some(shown_text(dicts, self.lang, "run_need_sheet"@))
        } else if table_parts(self.shapes@).len() == 0 {
            Some(shown_text(dicts, self.lang, "run_need_part"@))
        } else {
            match self.cfg.nan_field() {
                Some(field) => Some(
                    filled(
                        shown_text(dicts, self.lang, "run_invalid_config_field"@),
                        seq![("field"@, shown_text(dicts, self.lang, field))],
                    ),
                ),
                None => None,
            }
        }
    }

    /// The job the table and the form stand for, with the library entry each
    /// sheet came from. `cleanup` is the number in the field of the cleaning
    /// pass.
    pub fn build_request(
        &self,
        cleanup: Option<Scalar>,
        dicts: &Dicts,
    ) -> (r: Result<(RunNestRequest, Vec<Option<usize>>), String>)
        requires
            dicts.wf(),
        ensures
            match r {
                Ok((request, origin)) => {
                    &&& self.request_problem(*dicts) is None
                    &&& outlines(request.sheets@) == table_sheets(self.shapes@)
                    &&& origin@ == table_origins(self.shapes@)
                    &&& part_models(request.parts@) == table_parts(self.shapes@)
                    &&& request.config.margin == self.cfg.margin
                    &&& request.config.spacing == self.cfg.spacing
                    &&& request.config.kerf == self.cfg.kerf
                    &&& request.config.runs == self.cfg.runs
                    &&& request.config.cleanup_threshold_percent == cleanup
                    &&& request.config.mirror == self.cfg.mirror
                    &&& request.config.placement_type == self.cfg.placement_type
                    &&& request.config.rotations == self.cfg.rotations
                    &&& request.config.population_size == self.cfg.population_size
                    &&& request.config.mutation_rate == self.cfg.mutation_rate
                    &&& request.config.generations == self.cfg.generations
                    &&& request.config.dominant_part_area_threshold == self.cfg.dominant_threshold
                    &&& request.config.max_threads == self.cfg.max_threads
                    &&& request.config.seed == self.cfg.seed
                    &&& request.config.curve_tolerance == self.cfg.curve_tolerance
                },
                Err(message) => self.request_problem(*dicts) == Some(message@),
            },
    {
        let mut sheets: Vec<PolygonDto> = Vec::new();
        let mut origin: Vec<Option<usize>> = Vec::new();
        let mut parts: Vec<PartDto> = Vec::new();
        let ghost rows = self.shapes@;
        let mut i: usize = 0;
        proof {
            assert(rows.subrange(0, 0).len() == 0);
            assert(outlines(sheets@) =~= Seq::<Outline>::empty());
            assert(part_models(parts@) =~= Seq::<PartModel>::empty());
        }
        while i < self.shapes.len()
            invariant
                i <= self.shapes.len(),
                rows == self.shapes@,
                outlines(sheets@) == table_sheets(rows.subrange(0, i as int)),
                origin@ == table_origins(rows.subrange(0, i as int)),
                part_models(parts@) == table_parts(rows.subrange(0, i as int)),
            decreases self.shapes.len() - i,
        {
            let row = &self.shapes[i];
            let ghost old_sheets = outlines(sheets@);
            let ghost old_origin = origin@;
            let ghost old_parts = part_models(parts@);
            proof {
                assert(rows.subrange(0, i + 1).drop_last() == rows.subrange(0, i as int));
                assert(rows.subrange(0, i + 1).last() == rows[i as int]);
            }
            if row.role == Role::Sheet {
                let mut copy: usize = 0;
                proof {
                    assert(old_sheets + Seq::new(0, |k: int| row.poly@) =~= old_sheets);
                    assert(old_origin + Seq::new(0, |k: int| row.from_store) =~= old_origin);
                }
                while copy < row.qty
                    invariant
                        copy <= row.qty,
                        outlines(sheets@) == old_sheets + Seq::new(
                            copy as nat,
                            |k: int| row.poly@,
                        ),
                        origin@ == old_origin + Seq::new(copy as nat, |k: int| row.from_store),
                    decreases row.qty - copy,
                {
                    let ghost before = sheets@;
                    sheets.push(row.poly.clone());
                    origin.push(row.from_store);
                    copy += 1;
                    proof {
                        assert(outlines(sheets@) =~= outlines(before).push(row.poly@));
                        assert(Seq::new(copy as nat, |k: int| row.poly@) =~= Seq::new(
                            (copy - 1) as nat,
                            |k: int| row.poly@,
                        ).push(row.poly@));
                        assert(outlines(sheets@) =~= old_sheets + Seq::new(
                            copy as nat,
                            |k: int| row.poly@,
                        ));
                        assert(origin@ =~= old_origin + Seq::new(
                            copy as nat,
                            |k: int| row.from_store,
                        ));
                    }
                }
            } else if row.role == Role::Part && row.qty > 0 {
                let ghost before = parts@;
                parts.push(
                    PartDto {
                        polygon: row.poly.clone(),
                        quantity: row.qty,
                        allowed_rotations: row.rot.angles(),
                        mirror: row.mirror.as_option(),
                    },
                );
                proof {
                    assert(part_models(parts@) =~= part_models(before).push(
                        part_model(parts@.last()),
                    ));
                }
            }
            i += 1;
        }
        proof {
            assert(rows.subrange(0, rows.len() as int) == rows);
            assert(outlines(sheets@).len() == sheets@.len());
            assert(part_models(parts@).len() == parts@.len());
        }
        if sheets.len() == 0 {
            return Err(t(dicts, self.lang, "run_need_sheet").to_owned());
        }
        if parts.len() == 0 {
            return Err(t(dicts, self.lang, "run_need_part").to_owned());
        }
        match self.cfg.first_nan_field() {
            Some(field) => {
                let name = t(dicts, self.lang, field);
                return Err(tv_one(dicts, self.lang, "run_invalid_config_field", "field", name));
            },
            None => {},
        }
        Ok((RunNestRequest { sheets, parts, config: self.cfg.to_dto(cleanup) }, origin))
    }

    /// What starting a run leaves. The sheets and the settings are those of the
    /// new job whether or not the engine takes it on.
    pub open spec fn run_started(
        before: App,
        request: RunNestRequest,
        origin: Seq<Option<usize>>,
        begun: Result<(), String>,
        dicts: Dicts,
        after: App,
        effects: Effects,
    ) -> bool {
        &&& after.sheet_origin@ == origin
        &&& outlines(after.result_sheets@) == outlines(request.sheets@)
        &&& match begun {
            Ok(_) => {
                &&& after == (App {
                    sheet_origin: after.sheet_origin,
                    result_sheets: after.result_sheets,
                    result_config: Some(request.config),
                    running: true,
                    progress: Progress::Idle,
                    live: None,
                    live_marks: None,
                    export_status: after.export_status,
                    run_status: after.run_status,
                    shapes_collapsed: true,
                    settings_open: false,
                    advanced_open: false,
                    ..before
                })
                &&& after.export_status@ == tells_ok(Seq::empty())
                &&& after.run_status@ == tells_ok(
                    shown_text(dicts, before.lang, "run_status_running"@),
                )
                &&& effects.only_says(seq![says(Kind::Run, "nest started"@)])
            },
            Err(e) => {
                &&& after == (App {
                    sheet_origin: after.sheet_origin,
                    result_sheets: after.result_sheets,
                    result_config: Some(request.config),
                    run_status: after.run_status,
                    ..before
                })
                &&& after.run_status@ == tells_err(e@)
                &&& effects.only_says(Seq::empty())
            },
        }
    }

    /// Says why a job could not be asked for.
    pub fn refuse_run(&mut self, reason: String)
        ensures
            old(self).wf() ==> final(self).wf(),
            *final(self) == (App { run_status: final(self).run_status, ..*old(self) }),
            final(self).run_status@ == tells_err(reason@),
    {
        self.run_status.err(reason);
    }

    /// Says that the running job is being stopped. It runs until it has noticed.
    pub fn stop_run(&mut self, dicts: &Dicts)
        requires
            dicts.wf(),
        ensures
            old(self).wf() ==> final(self).wf(),
            *final(self) == (App { run_status: final(self).run_status, ..*old(self) }),
            final(self).run_status@ == tells_ok(
                shown_text(*dicts, old(self).lang, "run_status_stopped"@),
            ),
    {
        self.run_status.ok(t(dicts, self.lang, "run_status_stopped").to_owned());
    }

    /// Records that a job was handed to the engine, and whether it was taken on.
    pub fn start_run(
        &mut self,
        request: &RunNestRequest,
        origin: Vec<Option<usize>>,
        begun: Result<(), String>,
        dicts: &Dicts,
    ) -> (effects: Effects)
        requires
            old(self).wf(),
            dicts.wf(),
        ensures
            final(self).wf(),
            App::run_started(
                *old(self),
                *request,
                origin@,
                begun,
                *dicts,
                *final(self),
                effects,
            ),
    {
        let mut effects = Effects::none();
        assert(log_view(effects.log@) =~= Seq::<LogModel>::empty());
        self.sheet_origin = origin;
        self.result_sheets = copy_outlines(&request.sheets);
        self.result_config = Some(request.config);
        match begun {
            Ok(_) => {
                self.running = true;
                self.progress = Progress::Idle;
                self.live = None;
                self.live_marks = None;
                self.export_status.clear();
                self.run_status.ok(t(dicts, self.lang, "run_status_running").to_owned());
                self.shapes_collapsed = true;
                self.settings_open = false;
                self.advanced_open = false;
                effects.say(Kind::Run, "nest started".to_owned());
            },
            Err(e) => self.run_status.err(e),
        }
        effects
    }
}

/// Sheets and the library entries they came from go together, one entry for
/// each sheet.
pub proof fn law_every_sheet_has_an_origin(rows: Seq<ShapeRow>)
    ensures
        table_sheets(rows).len() == table_origins(rows).len(),
    decreases rows.len(),
{
    if rows.len() > 0 {
        law_every_sheet_has_an_origin(rows.drop_last());
    }
}

// --- counting what was placed ---------------------------------------------

/// One line of the part list of a job report.
pub struct ReportPartDto {
    pub name: String,
    pub quantity: usize,
    /// How many of them were placed.
    pub nested: usize,
    pub polygon: PolygonDto,
}

/// The rows of a table that are parts that are wanted.
pub open spec fn wanted_rows(rows: Seq<ShapeRow>) -> Seq<ShapeRow> {
    rows.filter(|r: ShapeRow| wanted(r))
}

/// The id of the first copy of the `n`th of a list of rows.
pub open spec fn block_start(rows: Seq<ShapeRow>, n: int) -> int
    decreases n,
{
    if n <= 0 {
        0
    } else {
        block_start(rows, n - 1) + rows[n - 1].qty
    }
}

/// How many of a list of parts have an id from `low` up to below `high`,
/// flipped or not.
pub open spec fn count_parts(parts: Seq<PlacedPartDto>, low: int, high: int, bit: usize) -> int
    decreases parts.len(),
{
    if parts.len() == 0 {
        0
    } else {
        count_parts(parts.drop_last(), low, high, bit) + (if low <= (parts.last().id & !bit)
            < high {
            1int
        } else {
            0int
        })
    }
}

/// How many parts on a list of sheets have an id from `low` up to below `high`.
pub open spec fn count_placed(
    sheets: Seq<SheetModel>,
    low: int,
    high: int,
    bit: usize,
) -> int
    decreases sheets.len(),
{
    if sheets.len() == 0 {
        0
    } else {
        count_placed(sheets.drop_last(), low, high, bit) + count_parts(
            sheets.last().parts,
            low,
            high,
            bit,
        )
    }
}

/// How many parts lie on a list of sheets.
pub open spec fn parts_on(sheets: Seq<SheetModel>) -> int
    decreases sheets.len(),
{
    if sheets.len() == 0 {
        0
    } else {
        parts_on(sheets.drop_last()) + sheets.last().parts.len()
    }
}

proof fn lemma_count_parts_bounded(parts: Seq<PlacedPartDto>, low: int, high: int, bit: usize)
    ensures
        0 <= count_parts(parts, low, high, bit) <= parts.len(),
    decreases parts.len(),
{
    if parts.len() > 0 {
        lemma_count_parts_bounded(parts.drop_last(), low, high, bit);
    }
}

proof fn lemma_parts_on_grows(sheets: Seq<SheetModel>, upto: int)
    requires
        0 <= upto <= sheets.len(),
    ensures
        0 <= parts_on(sheets.subrange(0, upto)) <= parts_on(sheets),
    decreases sheets.len(),
{
    if upto == sheets.len() {
        assert(sheets.subrange(0, upto) == sheets);
        lemma_parts_on_nonnegative(sheets);
    } else {
        assert(sheets.drop_last().subrange(0, upto) == sheets.subrange(0, upto));
        lemma_parts_on_grows(sheets.drop_last(), upto);
    }
}

proof fn lemma_parts_on_nonnegative(sheets: Seq<SheetModel>)
    ensures
        parts_on(sheets) >= 0,
    decreases sheets.len(),
{
    if sheets.len() > 0 {
        lemma_parts_on_nonnegative(sheets.drop_last());
    }
}

/// How many parts on a list of sheets have an id in a block.
fn count_block(
    sheets: &Vec<SheetPlacementDto>,
    low: usize,
    high: usize,
    bit: usize,
) -> (r: usize)
    requires
        parts_on(sheets_view(sheets@)) <= usize::MAX,
    ensures
        r == count_placed(sheets_view(sheets@), low as int, high as int, bit),
{
    let ghost all = sheets_view(sheets@);
    let mut count: usize = 0;
    let mut i: usize = 0;
    assert(all.subrange(0, 0).len() == 0);
    while i < sheets.len()
        invariant
            i <= sheets.len(),
            all == sheets_view(sheets@),
            parts_on(all) <= usize::MAX,
            count == count_placed(all.subrange(0, i as int), low as int, high as int, bit),
            count <= parts_on(all.subrange(0, i as int)),
        decreases sheets.len() - i,
    {
        let parts = &sheets[i].parts;
        let ghost start = count as int;
        proof {
            assert(all.subrange(0, i + 1).drop_last() == all.subrange(0, i as int));
            assert(all.subrange(0, i + 1).last().parts == parts@);
            lemma_parts_on_grows(all, i + 1);
            assert(parts@.subrange(0, 0).len() == 0);
        }
        let mut k: usize = 0;
        while k < parts.len()
            invariant
                k <= parts.len(),
                start + parts@.len() <= usize::MAX,
                count == start + count_parts(
                    parts@.subrange(0, k as int),
                    low as int,
                    high as int,
                    bit,
                ),
                count <= start + k,
            decreases parts.len() - k,
        {
            assert(parts@.subrange(0, k + 1).drop_last() == parts@.subrange(0, k as int));
            let id: usize = parts[k].id & !bit;
            if low <= id && id < high {
                count += 1;
            }
            k += 1;
        }
        proof {
            assert(parts@.subrange(0, parts@.len() as int) == parts@);
            lemma_count_parts_bounded(parts@, low as int, high as int, bit);
        }
        i += 1;
    }
    assert(all.subrange(0, all.len() as int) == all);
    count
}

/// Whether a line of the report tells a row: its source and its place in the
/// list, how many were wanted and how many of its copies were placed.
pub open spec fn reports_row(
    line: ReportPartDto,
    rows: Seq<ShapeRow>,
    n: int,
    sheets: Seq<SheetModel>,
    bit: usize,
) -> bool {
    &&& line.name@ == rows[n].file@ + "-"@ + decimal((n + 1) as nat)
    &&& line.quantity == rows[n].qty
    &&& line.nested == count_placed(sheets, block_start(rows, n), block_start(rows, n + 1), bit)
    &&& line.polygon@ == rows[n].poly@
}

impl App {
    /// The sheets of the result on display; none without one.
    pub open spec fn result_placements(&self) -> Seq<SheetModel> {
        match self.snapshot {
            Some(s) => s@.placements,
            None => Seq::empty(),
        }
    }

    /// The part list of a job report: the rows as the user listed them, with how
    /// many of each the result has placed. A row's copies have the ids of one
    /// block, in the order of the rows, and a flipped copy counts as its own.
    pub fn report_part_list(&self, mirror_bit: usize) -> (r: Vec<ReportPartDto>)
        requires
            block_start(
                wanted_rows(self.shapes@),
                wanted_rows(self.shapes@).len() as int,
            ) <= usize::MAX,
            parts_on(self.result_placements()) <= usize::MAX,
        ensures
            r@.len() == wanted_rows(self.shapes@).len(),
            forall|n: int|
                0 <= n < r@.len() ==> reports_row(
                    #[trigger] r@[n],
                    wanted_rows(self.shapes@),
                    n,
                    self.result_placements(),
                    mirror_bit,
                ),
    {
        let ghost rows = wanted_rows(self.shapes@);
        let none: Vec<SheetPlacementDto> = Vec::new();
        let sheets = match &self.snapshot {
            Some(s) => &s.placements,
            None => &none,
        };
        proof {
            assert(sheets_view(sheets@) =~= self.result_placements());
        }
        let mut out: Vec<ReportPartDto> = Vec::new();
        let mut low: usize = 0;
        let mut i: usize = 0;
        proof {
            reveal(Seq::filter);
            assert(self.shapes@.subrange(0, 0) =~= Seq::<ShapeRow>::empty());
        }
        while i < self.shapes.len()
            invariant
                i <= self.shapes.len(),
                rows == wanted_rows(self.shapes@),
                block_start(rows, rows.len() as int) <= usize::MAX,
                sheets_view(sheets@) == self.result_placements(),
                parts_on(self.result_placements()) <= usize::MAX,
                out@.len() == wanted_rows(self.shapes@.subrange(0, i as int)).len(),
                wanted_rows(self.shapes@.subrange(0, i as int)).is_prefix_of(rows),
                low == block_start(rows, out@.len() as int),
                forall|n: int|
                    0 <= n < out@.len() ==> reports_row(
                        #[trigger] out@[n],
                        rows,
                        n,
                        self.result_placements(),
                        mirror_bit,
                    ),
            decreases self.shapes.len() - i,
        {
            let row = &self.shapes[i];
            let ghost done = wanted_rows(self.shapes@.subrange(0, i as int));
            let ghost next = wanted_rows(self.shapes@.subrange(0, i + 1));
            proof {
                assert(self.shapes@.subrange(0, i + 1).drop_last() == self.shapes@.subrange(
                    0,
                    i as int,
                ));
                reveal(Seq::filter);
                lemma_wanted_prefix(self.shapes@, i + 1);
            }
            if row.role == Role::Part && row.qty > 0 {
                let ghost n = out@.len() as int;
                proof {
                    assert(next == done.push(*row));
                    assert(rows.subrange(0, next.len() as int) == next);
                    assert(rows[n] == rows.subrange(0, next.len() as int)[n]);
                    assert(rows[n] == *row);
                    lemma_block_start_grows(rows, n + 1, rows.len() as int);
                    lemma_block_start_grows(rows, 0, n);
                }
                let high: usize = low + row.qty;
                let mut name = row.file.clone();
                name.append("-");
                name.append(decimal_text((out.len() + 1) as u64).as_str());
                let nested: usize = count_block(sheets, low, high, mirror_bit);
                out.push(
                    ReportPartDto { name, quantity: row.qty, nested, polygon: row.poly.clone() },
                );
                low = high;
            }
            i += 1;
        }
        assert(self.shapes@.subrange(0, self.shapes@.len() as int) == self.shapes@);
        out
    }
}

proof fn lemma_block_start_grows(rows: Seq<ShapeRow>, m: int, n: int)
    requires
        0 <= m <= n,
    ensures
        block_start(rows, m) <= block_start(rows, n),
    decreases n,
{
    if m < n {
        lemma_block_start_grows(rows, m, n - 1);
    }
}

proof fn lemma_wanted_prefix(rows: Seq<ShapeRow>, upto: int)
    requires
        0 <= upto <= rows.len(),
    ensures
        wanted_rows(rows.subrange(0, upto)).is_prefix_of(wanted_rows(rows)),
    decreases rows.len() - upto,
{
    reveal(Seq::filter);
    if upto < rows.len() {
        lemma_wanted_prefix(rows, upto + 1);
        let next = rows.subrange(0, upto + 1);
        assert(next.drop_last() == rows.subrange(0, upto));
        let a = wanted_rows(rows.subrange(0, upto));
        let b = wanted_rows(next);
        let c = wanted_rows(rows);
        assert(a.is_prefix_of(b)) by {
            assert(b.subrange(0, a.len() as int) =~= a);
        }
        assert(c.subrange(0, a.len() as int) =~= a) by {
            assert forall|k: int| 0 <= k < a.len() implies c[k] == a[k] by {
                assert(c.subrange(0, b.len() as int)[k] == b[k]);
                assert(b.subrange(0, a.len() as int)[k] == a[k]);
            }
        }
    } else {
        assert(rows.subrange(0, upto) == rows);
        let c = wanted_rows(rows);
        assert(c.subrange(0, c.len() as int) =~= c);
    }
}

proof fn lemma_parts_are_wanted_rows(rows: Seq<ShapeRow>)
    ensures
        table_parts(rows).len() == wanted_rows(rows).len(),
        forall|n: int|
            0 <= n < table_parts(rows).len() ==> (#[trigger] table_parts(rows)[n]).quantity
                == wanted_rows(rows)[n].qty,
    decreases rows.len(),
{
    reveal(Seq::filter);
    if rows.len() > 0 {
        lemma_parts_are_wanted_rows(rows.drop_last());
        assert forall|n: int| 0 <= n < table_parts(rows).len() implies (
        #[trigger] table_parts(rows)[n]).quantity == wanted_rows(rows)[n].qty by {
            if n < table_parts(rows.drop_last()).len() {
                assert(table_parts(rows.drop_last())[n].quantity == wanted_rows(
                    rows.drop_last(),
                )[n].qty);
            }
        }
    }
}

/// The report counts by the very numbers the job's copies were given: the first
/// copy of the `n`th part of a job is the start of the `n`th block of the
/// report.
pub proof fn law_report_blocks_are_the_copies(
    rows: Seq<ShapeRow>,
    parts: Seq<PartDto>,
    n: int,
)
    requires
        part_models(parts) == table_parts(rows),
        0 <= n <= parts.len(),
    ensures
        parts.len() == wanted_rows(rows).len(),
        crate::parts::first_copy(parts, n) == block_start(wanted_rows(rows), n),
    decreases n,
{
    lemma_parts_are_wanted_rows(rows);
    assert(part_models(parts).len() == parts.len());
    if n > 0 {
        law_report_blocks_are_the_copies(rows, parts, n - 1);
        assert(part_models(parts)[n - 1].quantity == parts[n - 1].quantity);
        assert(table_parts(rows)[n - 1].quantity == wanted_rows(rows)[n - 1].qty);
    }
}

// --- what a job built from the table promises -----------------------------

/// How many sheets of stock the first rows of a table call for.
pub open spec fn sheets_before(rows: Seq<ShapeRow>, n: int) -> int
    decreases n,
{
    if n <= 0 {
        0
    } else if rows[n - 1].role == Role::Sheet {
        sheets_before(rows, n - 1) + rows[n - 1].qty
    } else {
        sheets_before(rows, n - 1)
    }
}

/// How many of the first rows of a table are parts that are wanted.
pub open spec fn parts_before(rows: Seq<ShapeRow>, n: int) -> int
    decreases n,
{
    if n <= 0 {
        0
    } else if rows[n - 1].role == Role::Part && rows[n - 1].qty > 0 {
        parts_before(rows, n - 1) + 1
    } else {
        parts_before(rows, n - 1)
    }
}

proof fn lemma_before_is_of_the_first_rows(rows: Seq<ShapeRow>, more: Seq<ShapeRow>, n: int)
    requires
        0 <= n <= rows.len() <= more.len(),
        forall|i: int| 0 <= i < n ==> rows[i] == more[i],
    ensures
        sheets_before(rows, n) == sheets_before(more, n),
        parts_before(rows, n) == parts_before(more, n),
        0 <= sheets_before(rows, n),
        0 <= parts_before(rows, n) <= n,
    decreases n,
{
    if n > 0 {
        lemma_before_is_of_the_first_rows(rows, more, n - 1);
    }
}

proof fn lemma_table_sheets(rows: Seq<ShapeRow>, n: int, k: int)
    requires
        0 <= n < rows.len(),
        rows[n].role == Role::Sheet ==> 0 <= k < rows[n].qty,
    ensures
        table_sheets(rows).len() == sheets_before(rows, rows.len() as int),
        table_origins(rows).len() == sheets_before(rows, rows.len() as int),
        0 <= sheets_before(rows, n) <= sheets_before(rows, rows.len() as int),
        rows[n].role == Role::Sheet ==> {
            &&& sheets_before(rows, n) + k < table_sheets(rows).len()
            &&& table_sheets(rows)[sheets_before(rows, n) + k] == rows[n].poly@
            &&& table_origins(rows)[sheets_before(rows, n) + k] == rows[n].from_store
        },
    decreases rows.len(),
{
    let rest = rows.drop_last();
    let last = rows.len() - 1;
    lemma_before_is_of_the_first_rows(rest, rows, last);
    if n < last {
        lemma_table_sheets(rest, n, k);
        lemma_before_is_of_the_first_rows(rest, rows, n);
    } else {
        lemma_sheet_total(rest);
    }
}

proof fn lemma_sheet_total(rows: Seq<ShapeRow>)
    ensures
        table_sheets(rows).len() == sheets_before(rows, rows.len() as int),
        table_origins(rows).len() == sheets_before(rows, rows.len() as int),
    decreases rows.len(),
{
    if rows.len() > 0 {
        let rest = rows.drop_last();
        lemma_sheet_total(rest);
        lemma_before_is_of_the_first_rows(rest, rows, rest.len() as int);
    }
}

proof fn lemma_part_total(rows: Seq<ShapeRow>)
    ensures
        table_parts(rows).len() == parts_before(rows, rows.len() as int),
    decreases rows.len(),
{
    if rows.len() > 0 {
        let rest = rows.drop_last();
        lemma_part_total(rest);
        lemma_before_is_of_the_first_rows(rest, rows, rest.len() as int);
    }
}

proof fn lemma_table_parts(rows: Seq<ShapeRow>, n: int)
    requires
        0 <= n < rows.len(),
        rows[n].role == Role::Part,
        rows[n].qty > 0,
    ensures
        table_parts(rows).len() == parts_before(rows, rows.len() as int),
        0 <= parts_before(rows, n) < table_parts(rows).len(),
        table_parts(rows)[parts_before(rows, n)] == (PartModel {
            polygon: rows[n].poly@,
            quantity: rows[n].qty,
            allowed_rotations: rule_angles(rows[n].rot),
            mirror: mirror_option(rows[n].mirror),
        }),
    decreases rows.len(),
{
    let rest = rows.drop_last();
    let last = rows.len() - 1;
    lemma_part_total(rows);
    lemma_part_total(rest);
    lemma_before_is_of_the_first_rows(rest, rows, last);
    lemma_before_is_of_the_first_rows(rest, rows, n);
    if n < last {
        lemma_table_parts(rest, n);
    }
}

/// The stock of a job is the sheet rows of the table, one after the other, each
/// as often as its own row says: behind the sheets of the rows above it, every
/// copy of a row is the outline of that row and came from where that row came
/// from. There are no other sheets.
pub proof fn law_stock_is_the_sheet_rows_in_order(
    app: &App,
    cleanup: Option<Scalar>,
    dicts: &Dicts,
    request: RunNestRequest,
    origin: Vec<Option<usize>>,
    n: int,
    k: int,
)
    requires
        call_ensures(
            App::build_request,
            (app, cleanup, dicts),
            Ok::<(RunNestRequest, Vec<Option<usize>>), String>((request, origin)),
        ),
        0 <= n < app.shapes@.len(),
        0 <= k < app.shapes@[n].qty,
        app.shapes@[n].role == Role::Sheet,
    ensures
        request.sheets@.len() == sheets_before(app.shapes@, app.shapes@.len() as int),
        origin@.len() == request.sheets@.len(),
        0 <= sheets_before(app.shapes@, n),
        sheets_before(app.shapes@, n) + k < request.sheets@.len(),
        request.sheets@[sheets_before(app.shapes@, n) + k]@ == app.shapes@[n].poly@,
        origin@[sheets_before(app.shapes@, n) + k] == app.shapes@[n].from_store,
{
    let rows = app.shapes@;
    let at = sheets_before(rows, n) + k;
    lemma_table_sheets(rows, n, k);
    assert(outlines(request.sheets@).len() == request.sheets@.len());
    assert(outlines(request.sheets@)[at] == request.sheets@[at]@);
}

/// A table with one more row gives the job that the table without it gives, and
/// behind its stock the copies of that row, if the row is a sheet, and behind
/// its parts that row, if it is a wanted part.
pub proof fn law_a_further_row_adds_only_itself(
    app: &App,
    more: &App,
    row: ShapeRow,
    cleanup: Option<Scalar>,
    dicts: &Dicts,
    request: RunNestRequest,
    origin: Vec<Option<usize>>,
    longer: RunNestRequest,
    longer_origin: Vec<Option<usize>>,
    k: int,
)
    requires
        more.shapes@ == app.shapes@.push(row),
        call_ensures(
            App::build_request,
            (app, cleanup, dicts),
            Ok::<(RunNestRequest, Vec<Option<usize>>), String>((request, origin)),
        ),
        call_ensures(
            App::build_request,
            (more, cleanup, dicts),
            Ok::<(RunNestRequest, Vec<Option<usize>>), String>((longer, longer_origin)),
        ),
    ensures
        longer.sheets@.len() == request.sheets@.len() + (if row.role == Role::Sheet {
            row.qty as int
        } else {
            0
        }),
        0 <= k < request.sheets@.len() ==> longer.sheets@[k]@ == request.sheets@[k]@
            && longer_origin@[k] == origin@[k],
        request.sheets@.len() <= k < longer.sheets@.len() ==> longer.sheets@[k]@ == row.poly@
            && longer_origin@[k] == row.from_store,
        longer.parts@.len() == request.parts@.len() + (if row.role == Role::Part && row.qty > 0 {
            1int
        } else {
            0
        }),
        0 <= k < request.parts@.len() ==> longer.parts@[k].polygon@ == request.parts@[k].polygon@
            && longer.parts@[k].quantity == request.parts@[k].quantity
            && longer.parts@[k].mirror == request.parts@[k].mirror,
        k == request.parts@.len() && k < longer.parts@.len() ==> longer.parts@[k].polygon@
            == row.poly@ && longer.parts@[k].quantity == row.qty,
{
    let rows = app.shapes@;
    assert(more.shapes@.drop_last() =~= rows);
    assert(more.shapes@.last() == row);
    law_every_sheet_has_an_origin(rows);
    law_every_sheet_has_an_origin(more.shapes@);
    let before = outlines(request.sheets@);
    let after = outlines(longer.sheets@);
    assert(before.len() == request.sheets@.len() && after.len() == longer.sheets@.len());
    assert(0 <= k < before.len() ==> before[k] == request.sheets@[k]@);
    assert(0 <= k < after.len() ==> after[k] == longer.sheets@[k]@);
    let few = part_models(request.parts@);
    let many = part_models(longer.parts@);
    assert(few.len() == request.parts@.len() && many.len() == longer.parts@.len());
    assert(0 <= k < few.len() ==> few[k] == part_model(request.parts@[k]));
    assert(0 <= k < many.len() ==> many[k] == part_model(longer.parts@[k]));
}

/// The parts of a job are the wanted part rows of the table, in their order:
/// each has the outline and the quantity of its row, the angles of its row's
/// turning rule and the choice of its row's mirroring rule.
pub proof fn law_parts_are_the_wanted_rows_in_order(
    app: &App,
    cleanup: Option<Scalar>,
    dicts: &Dicts,
    request: RunNestRequest,
    origin: Vec<Option<usize>>,
    n: int,
    angles: Option<Vec<Scalar>>,
    choice: Option<bool>,
)
    requires
        call_ensures(
            App::build_request,
            (app, cleanup, dicts),
            Ok::<(RunNestRequest, Vec<Option<usize>>), String>((request, origin)),
        ),
        0 <= n < app.shapes@.len(),
        app.shapes@[n].role == Role::Part,
        app.shapes@[n].qty > 0,
        call_ensures(RotRule::angles, (app.shapes@[n].rot,), angles),
        call_ensures(MirrorRule::as_option, (app.shapes@[n].mirror,), choice),
    ensures
        request.parts@.len() == parts_before(app.shapes@, app.shapes@.len() as int),
        0 <= parts_before(app.shapes@, n) < request.parts@.len(),
        ({
            let part = request.parts@[parts_before(app.shapes@, n)];
            &&& part.polygon@ == app.shapes@[n].poly@
            &&& part.quantity == app.shapes@[n].qty
            &&& part.mirror == choice
            &&& part.allowed_rotations is Some == angles is Some
            &&& angles is Some ==> part.allowed_rotations->Some_0@ == angles->Some_0@
        }),
{
    let rows = app.shapes@;
    lemma_table_parts(rows, n);
    let all = part_models(request.parts@);
    assert(all.len() == request.parts@.len());
    assert(all[parts_before(rows, n)] == part_model(request.parts@[parts_before(rows, n)]));
}

proof fn lemma_a_total_has_its_row(rows: Seq<ShapeRow>, n: int)
    requires
        0 <= n <= rows.len(),
    ensures
        sheets_before(rows, n) > 0 <==> exists|i: int|
            0 <= i < n && (#[trigger] rows[i]).role == Role::Sheet && rows[i].qty > 0,
        parts_before(rows, n) > 0 <==> exists|i: int|
            0 <= i < n && (#[trigger] rows[i]).role == Role::Part && rows[i].qty > 0,
    decreases n,
{
    if n > 0 {
        lemma_a_total_has_its_row(rows, n - 1);
        lemma_before_is_of_the_first_rows(rows, rows, n - 1);
        assert(rows[n - 1] == rows[n - 1]);
    }
}

/// A job is built exactly where the table has a sheet and a part of which any
/// are wanted, and no setting of the form is other than a number. It carries the
/// settings of the form, and the cleaning threshold it was given.
pub proof fn law_a_full_table_makes_a_job(
    app: &App,
    cleanup: Option<Scalar>,
    dicts: &Dicts,
    r: Result<(RunNestRequest, Vec<Option<usize>>), String>,
)
    requires
        call_ensures(App::build_request, (app, cleanup, dicts), r),
    ensures
        r is Ok <==> {
            &&& exists|i: int|
                0 <= i < app.shapes@.len() && (#[trigger] app.shapes@[i]).role == Role::Sheet
                    && app.shapes@[i].qty > 0
            &&& exists|i: int|
                0 <= i < app.shapes@.len() && (#[trigger] app.shapes@[i]).role == Role::Part
                    && app.shapes@[i].qty > 0
            &&& !app.cfg.margin.nan()
            &&& !app.cfg.spacing.nan()
            &&& !app.cfg.mutation_rate.nan()
            &&& !app.cfg.dominant_threshold.nan()
            &&& !app.cfg.curve_tolerance.nan()
        },
        r matches Ok((request, _)) ==> {
            &&& request.config.margin == app.cfg.margin
            &&& request.config.spacing == app.cfg.spacing
            &&& request.config.kerf == app.cfg.kerf
            &&& request.config.runs == app.cfg.runs
            &&& request.config.cleanup_threshold_percent == cleanup
            &&& request.config.mirror == app.cfg.mirror
            &&& request.config.placement_type == app.cfg.placement_type
            &&& request.config.rotations == app.cfg.rotations
            &&& request.config.population_size == app.cfg.population_size
            &&& request.config.mutation_rate == app.cfg.mutation_rate
            &&& request.config.generations == app.cfg.generations
            &&& request.config.dominant_part_area_threshold == app.cfg.dominant_threshold
            &&& request.config.max_threads == app.cfg.max_threads
            &&& request.config.seed == app.cfg.seed
            &&& request.config.curve_tolerance == app.cfg.curve_tolerance
        },
{
    lemma_sheet_total(app.shapes@);
    lemma_part_total(app.shapes@);
    lemma_a_total_has_its_row(app.shapes@, app.shapes@.len() as int);
}

/// A table without stock is refused for the want of a sheet, and one with stock
/// and no wanted part for the want of a part.
pub proof fn law_a_refused_table_is_told_what_it_lacks(
    app: &App,
    cleanup: Option<Scalar>,
    dicts: &Dicts,
    message: String,
)
    requires
        call_ensures(
            App::build_request,
            (app, cleanup, dicts),
            Err::<(RunNestRequest, Vec<Option<usize>>), String>(message),
        ),
    ensures
        sheets_before(app.shapes@, app.shapes@.len() as int) == 0 ==> message@ == shown_text(
            *dicts,
            app.lang,
            "run_need_sheet"@,
        ),
        sheets_before(app.shapes@, app.shapes@.len() as int) > 0 && parts_before(
            app.shapes@,
            app.shapes@.len() as int,
        ) == 0 ==> message@ == shown_text(*dicts, app.lang, "run_need_part"@),
{
    lemma_sheet_total(app.shapes@);
    lemma_part_total(app.shapes@);
    lemma_before_is_of_the_first_rows(app.shapes@, app.shapes@, app.shapes@.len() as int);
}

/// A run that began remembers the job it was started with: its sheets in their
/// order, where each came from, and its settings. The result before it stays.
/// One that could not begin tells why and is not running any more than before.
pub proof fn law_a_run_remembers_its_job(
    app: &mut App,
    request: &RunNestRequest,
    origin: Vec<Option<usize>>,
    begun: Result<(), String>,
    dicts: &Dicts,
    effects: Effects,
    k: int,
)
    requires
        call_ensures(App::start_run, (app, request, origin, begun, dicts), effects),
        0 <= k < request.sheets@.len(),
    ensures
        final(app).sheet_origin@ == origin@,
        final(app).result_sheets@.len() == request.sheets@.len(),
        final(app).result_sheets@[k]@ == request.sheets@[k]@,
        final(app).result_config == Some(request.config),
        final(app).snapshot == old(app).snapshot,
        final(app).shapes == old(app).shapes,
        final(app).store == old(app).store,
        final(app).undo_stack == old(app).undo_stack,
        final(app).redo_stack == old(app).redo_stack,
        final(app).history == old(app).history,
        begun is Ok ==> final(app).running && final(app).live is None && !final(app).run_status.error,
        begun matches Err(e) ==> final(app).running == old(app).running && final(app).run_status.error && final(app).run_status.text@ == e@,
        effects.audit is None,
        !effects.save_store,
{
    let kept = outlines(final(app).result_sheets@);
    let given = outlines(request.sheets@);
    assert(kept == given);
    assert(kept.len() == final(app).result_sheets@.len() && given.len() == request.sheets@.len());
    assert(kept[k] == final(app).result_sheets@[k]@ && given[k] == request.sheets@[k]@);
    assert(final(app).run_status@.error == final(app).run_status.error);
    assert(final(app).run_status@.text == final(app).run_status.text@);
}

/// Stopping or refusing a run changes what is told of it and nothing else.
pub proof fn law_stopping_a_run_only_says_so(
    stopped: &mut App,
    refused: &mut App,
    dicts: &Dicts,
    reason: String,
)
    requires
        call_ensures(App::stop_run, (stopped, dicts), ()),
        call_ensures(App::refuse_run, (refused, reason), ()),
    ensures
        *final(stopped) == (App { run_status: final(stopped).run_status, ..*old(stopped) }),
        !final(stopped).run_status.error,
        *final(refused) == (App { run_status: final(refused).run_status, ..*old(refused) }),
        final(refused).run_status.error,
        final(refused).run_status.text@ == reason@,
{
    assert(final(stopped).run_status@.error == final(stopped).run_status.error);
    assert(final(refused).run_status@.error == final(refused).run_status.error);
    assert(final(refused).run_status@.text == final(refused).run_status.text@);
}

proof fn lemma_count_parts(parts: Seq<PlacedPartDto>, low: int, high: int, bit: usize)
    ensures
        count_parts(parts, low, high, bit) == parts.filter(
            |p: PlacedPartDto| low <= (p.id & !bit) < high,
        ).len(),
    decreases parts.len(),
{
    reveal(Seq::filter);
    if parts.len() > 0 {
        lemma_count_parts(parts.drop_last(), low, high, bit);
    }
}

/// Each line of the part list is a wanted part row of the table, in their order:
/// its outline, how many were ordered, its file and its place in the list.
pub proof fn law_the_part_list_is_the_wanted_rows(
    app: &App,
    bit: usize,
    lines: Vec<ReportPartDto>,
    n: int,
)
    requires
        call_ensures(App::report_part_list, (app, bit), lines),
        0 <= n < lines@.len(),
    ensures
        lines@.len() == app.shapes@.filter(
            |r: ShapeRow| r.role == Role::Part && r.qty > 0,
        ).len(),
        ({
            let row = app.shapes@.filter(|r: ShapeRow| r.role == Role::Part && r.qty > 0)[n];
            &&& lines@[n].quantity == row.qty
            &&& lines@[n].polygon@ == row.poly@
            &&& lines@[n].name@ == row.file@ + "-"@ + decimal((n + 1) as nat)
        }),
{
    let f = |r: ShapeRow| wanted(r);
    let g = |r: ShapeRow| r.role == Role::Part && r.qty > 0;
    assert(f =~= g);
    assert(reports_row(
        lines@[n],
        wanted_rows(app.shapes@),
        n,
        app.result_placements(),
        bit,
    ));
}

/// What a line counts as placed: nothing where nothing was placed; and a result
/// with one more sheet adds the parts of that sheet whose id, turned over or
/// not, is one of the copies of the line's row.
pub proof fn law_a_further_sheet_adds_its_parts(
    app: &App,
    more: &App,
    bit: usize,
    lines: Vec<ReportPartDto>,
    longer: Vec<ReportPartDto>,
    sheet: SheetPlacementDto,
    n: int,
    low: int,
)
    requires
        more.shapes@ == app.shapes@,
        app.snapshot is Some,
        more.snapshot is Some,
        more.snapshot->Some_0.placements@ == app.snapshot->Some_0.placements@.push(sheet),
        call_ensures(App::report_part_list, (app, bit), lines),
        call_ensures(App::report_part_list, (more, bit), longer),
        0 <= n < lines@.len(),
        low == block_start(
            app.shapes@.filter(|r: ShapeRow| r.role == Role::Part && r.qty > 0),
            n,
        ),
    ensures
        longer@.len() == lines@.len(),
        longer@[n].nested == lines@[n].nested + sheet.parts@.filter(
            |p: PlacedPartDto| low <= (p.id & !bit) < low + lines@[n].quantity,
        ).len(),
        app.snapshot->Some_0.placements@.len() == 0 ==> lines@[n].nested == 0,
{
    let f = |r: ShapeRow| wanted(r);
    let g = |r: ShapeRow| r.role == Role::Part && r.qty > 0;
    assert(f =~= g);
    let rows = wanted_rows(app.shapes@);
    assert(reports_row(lines@[n], rows, n, app.result_placements(), bit));
    assert(reports_row(longer@[n], rows, n, more.result_placements(), bit));
    assert(more.result_placements().drop_last() =~= app.result_placements());
    assert(more.result_placements().last() == sheet@);
    lemma_count_parts(sheet.parts@, low, low + lines@[n].quantity, bit);
}

/// A table with stock and parts is refused only for a setting that is no number,
/// and the message names that setting in the language of the user.
pub proof fn law_a_setting_without_a_number_is_named(
    app: &App,
    cleanup: Option<Scalar>,
    dicts: &Dicts,
    field: Option<&'static str>,
    message: String,
)
    requires
        call_ensures(crate::state::ConfigForm::first_nan_field, (&app.cfg,), field),
        call_ensures(
            App::build_request,
            (app, cleanup, dicts),
            Err::<(RunNestRequest, Vec<Option<usize>>), String>(message),
        ),
        sheets_before(app.shapes@, app.shapes@.len() as int) > 0,
        parts_before(app.shapes@, app.shapes@.len() as int) > 0,
    ensures
        field is Some,
        message@ == filled(
            shown_text(*dicts, app.lang, "run_invalid_config_field"@),
            seq![("field"@, shown_text(*dicts, app.lang, field->Some_0@))],
        ),
{
    lemma_sheet_total(app.shapes@);
    lemma_part_total(app.shapes@);
}

} // verus!
