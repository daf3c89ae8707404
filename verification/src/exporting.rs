//! Writing out the result on display.

use vstd::prelude::*;
use crate::config::NestConfigDto;
use crate::console::Kind;
use crate::export::{format_label, ExportFormat, ExportRequest};
use crate::i18n::{shown_text, t, Dicts};
use crate::job::{block_start, parts_on, reports_row, wanted_rows, ReportPartDto};
use crate::placement::{copy_sheets, lemma_same_sheets, sheets_view};
use crate::result::{copy_shapes, same_shapes};
use crate::scalar::Scalar;
use crate::session::{
    copy_outlines, lemma_same_outlines, log_view, outlines, says, tells_err, tells_ok, App,
    Effects,
};
use crate::text::{decimal, law_padded_numbers_differ, padded, padded_text};

verus! {

/// A moment by the clock on the wall.
#[derive(Clone, Copy, PartialEq, Eq, Structural, Debug)]
pub struct LocalMoment {
    pub year: i32,
    pub month: u32,
    pub day: u32,
    pub hour: u32,
    pub minute: u32,
}

impl LocalMoment {
    /// Whether there is such a moment.
    pub open spec fn wf(self) -> bool {
        &&& 1 <= self.month <= 12
        &&& 1 <= self.day <= 31
        &&& self.hour < 24
        &&& self.minute < 60
    }
}

/// The present moment by `chrono::Local::now`, read field by field: the month
/// is 1 to 12, the day 1 to 31, the hour 0 to 23 and the minute 0 to 59. Which
/// moment it is depends on the machine's clock and its time zone, and nothing
/// is said of that. The outside function panics where the clock stands before
/// 1970, or where the zone data of the machine has no offset for the moment.
#[verifier::external_body]
fn local_moment() -> (r: LocalMoment)
    ensures
        r.wf(),
{
    let now = chrono::Local::now();
    LocalMoment {
        year: chrono::Datelike::year(&now),
        month: chrono::Datelike::month(&now),
        day: chrono::Datelike::day(&now),
        hour: chrono::Timelike::hour(&now),
        minute: chrono::Timelike::minute(&now),
    }
}

/// A year of at least four digits. One of more than four, and one before the
/// year 0, has a sign.
pub open spec fn year_digits(year: int) -> Seq<char> {
    if 0 <= year <= 9999 {
        padded(year as nat, 4)
    } else if year > 9999 {
        "+"@ + padded(year as nat, 4)
    } else {
        "-"@ + padded((-year) as nat, 4)
    }
}

/// The name of a file that is exported at a moment, `NESThh-mm_YYYY-MM-DD` with
/// an extension: two exports at different minutes do not overwrite each other.
pub open spec fn export_name(at: LocalMoment, ext: Seq<char>) -> Seq<char> {
    "NEST"@ + padded(at.hour as nat, 2) + "-"@ + padded(at.minute as nat, 2) + "_"@ + year_digits(
        at.year as int,
    ) + "-"@ + padded(at.month as nat, 2) + "-"@ + padded(at.day as nat, 2) + "."@ + ext
}

/// The name of a file that is exported at a moment.
pub fn export_name_at(at: LocalMoment, ext: &str) -> (r: String)
    ensures
        r@ == export_name(at, ext@),
{
    let mut year = String::new();
    if 0 <= at.year && at.year <= 9999 {
        year.append(padded_text(at.year as u64, 4).as_str());
    } else if at.year > 9999 {
        year.append("+");
        year.append(padded_text(at.year as u64, 4).as_str());
    } else {
        year.append("-");
        year.append(padded_text((-(at.year as i64)) as u64, 4).as_str());
    }
    assert(year@ =~= year_digits(at.year as int));
    let mut r = "NEST".to_owned();
    r.append(padded_text(at.hour as u64, 2).as_str());
    r.append("-");
    r.append(padded_text(at.minute as u64, 2).as_str());
    r.append("_");
    r.append(year.as_str());
    r.append("-");
    r.append(padded_text(at.month as u64, 2).as_str());
    r.append("-");
    r.append(padded_text(at.day as u64, 2).as_str());
    r.append(".");
    r.append(ext);
    r
}

/// The name of a file that is exported now.
pub fn export_file_name(ext: &str) -> (r: String)
    ensures
        exists|at: LocalMoment| at.wf() && r@ == #[trigger] export_name(at, ext@),
{
    let at = local_moment();
    export_name_at(at, ext)
}

proof fn lemma_widths(n: nat)
    ensures
        n < 100 ==> padded(n, 2).len() == 2,
        n < 10_000 ==> padded(n, 4).len() == 4,
{
    reveal_with_fuel(decimal, 5);
}

/// Two files exported at different minutes of the years that have four digits
/// have different names.
pub proof fn law_exports_are_named_apart(a: LocalMoment, b: LocalMoment, ext: Seq<char>)
    requires
        a.wf(),
        b.wf(),
        0 <= a.year <= 9999,
        0 <= b.year <= 9999,
    ensures
        export_name(a, ext) == export_name(b, ext) ==> a == b,
        export_name(a, ext).len() == 21 + ext.len(),
{
    let (ah, am, ay, ao, ad) = (
        padded(a.hour as nat, 2),
        padded(a.minute as nat, 2),
        padded(a.year as nat, 4),
        padded(a.month as nat, 2),
        padded(a.day as nat, 2),
    );
    let (bh, bm, by, bo, bd) = (
        padded(b.hour as nat, 2),
        padded(b.minute as nat, 2),
        padded(b.year as nat, 4),
        padded(b.month as nat, 2),
        padded(b.day as nat, 2),
    );
    lemma_widths(a.hour as nat);
    lemma_widths(a.minute as nat);
    lemma_widths(a.year as nat);
    lemma_widths(a.month as nat);
    lemma_widths(a.day as nat);
    lemma_widths(b.hour as nat);
    lemma_widths(b.minute as nat);
    lemma_widths(b.year as nat);
    lemma_widths(b.month as nat);
    lemma_widths(b.day as nat);
    reveal_strlit("NEST");
    reveal_strlit("-");
    reveal_strlit("_");
    reveal_strlit(".");
    let x = export_name(a, ext);
    let y = export_name(b, ext);
    if x == y {
        assert(x.subrange(4, 6) =~= ah && y.subrange(4, 6) =~= bh);
        assert(x.subrange(7, 9) =~= am && y.subrange(7, 9) =~= bm);
        assert(x.subrange(10, 14) =~= ay && y.subrange(10, 14) =~= by);
        assert(x.subrange(15, 17) =~= ao && y.subrange(15, 17) =~= bo);
        assert(x.subrange(18, 20) =~= ad && y.subrange(18, 20) =~= bd);
        law_padded_numbers_differ(a.hour as nat, b.hour as nat, 2);
        law_padded_numbers_differ(a.minute as nat, b.minute as nat, 2);
        law_padded_numbers_differ(a.year as nat, b.year as nat, 4);
        law_padded_numbers_differ(a.month as nat, b.month as nat, 2);
        law_padded_numbers_differ(a.day as nat, b.day as nat, 2);
    }
}

/// What a job report is made from: the export it pictures, the settings, and
/// the parts as the user listed them.
pub struct ReportRequest {
    pub export: ExportRequest,
    pub config: NestConfigDto,
    pub parts: Vec<ReportPartDto>,
    pub title: Option<String>,
}

/// How the user wants an export to look.
#[derive(Clone, Copy, PartialEq, Eq, Structural, Debug)]
pub struct ExportChoices {
    pub spacing: Scalar,
    pub outline: bool,
    pub unplaced: bool,
}

/// What an export is made from: the result on display, with every part of the
/// run, placed or not.
pub open spec fn exports_result(app: App, choices: ExportChoices, request: ExportRequest) -> bool {
    &&& app.snapshot matches Some(s) && sheets_view(request.placements@) == sheets_view(
        s.placements@,
    )
    &&& outlines(request.sheets@) == outlines(app.result_sheets@)
    &&& same_shapes(request.parts_by_id@, app.parts_by_id@)
    &&& request.sheet_spacing == choices.spacing
    &&& request.include_sheet_outline == choices.outline
    &&& request.include_unplaced == choices.unplaced
}

impl App {
    /// Whether the result can be exported: there is one, and the distance
    /// between its sheets makes sense. Says so where it does not.
    pub fn export_ready(&mut self, choices: ExportChoices, dicts: &Dicts) -> (r: bool)
        requires
            dicts.wf(),
        ensures
            old(self).wf() ==> final(self).wf(),
            r == (Scalar::zero().at_most(choices.spacing) && old(self).snapshot is Some),
            *final(self) == (App { export_status: final(self).export_status, ..*old(self) }),
            if Scalar::zero().at_most(choices.spacing) {
                final(self).export_status == old(self).export_status
            } else {
                final(self).export_status@ == tells_err(
                    shown_text(*dicts, old(self).lang, "export_invalid_spacing"@),
                )
            },
    {
        if !Scalar::zero().le(choices.spacing) {
            self.export_status.err(t(dicts, self.lang, "export_invalid_spacing").to_owned());
            return false;
        }
        match &self.snapshot {
            Some(_) => true,
            None => false,
        }
    }

    fn export_of(&self, choices: ExportChoices) -> (r: ExportRequest)
        requires
            self.snapshot is Some,
        ensures
            exports_result(*self, choices, r),
    {
        let placements = match &self.snapshot {
            Some(s) => copy_sheets(&s.placements),
            None => Vec::new(),
        };
        ExportRequest {
            sheets: copy_outlines(&self.result_sheets),
            parts_by_id: copy_shapes(&self.parts_by_id),
            placements,
            sheet_spacing: choices.spacing,
            include_sheet_outline: choices.outline,
            include_unplaced: choices.unplaced,
        }
    }

    /// What starting an export leaves, besides what is handed to the writer.
    pub open spec fn export_started(
        before: App,
        format: ExportFormat,
        dicts: Dicts,
        after: App,
        effects: Effects,
    ) -> bool {
        &&& after == (App { export_status: after.export_status, ..before })
        &&& after.export_status@ == tells_ok(
            shown_text(dicts, before.lang, "export_status_running"@),
        )
        &&& effects.only_says(seq![says(Kind::Plain, "exporting "@ + format_label(format))])
    }

    /// Starts an export to a file of a format. A job report comes with the
    /// settings of the result, or those of the form where a recovered result
    /// has none, and with the list of the parts.
    pub fn do_export(
        &mut self,
        format: ExportFormat,
        choices: ExportChoices,
        cleanup: Option<Scalar>,
        mirror_bit: usize,
        dicts: &Dicts,
    ) -> (r: (ExportRequest, Option<ReportRequest>, Effects))
        requires
            dicts.wf(),
            old(self).snapshot is Some,
            block_start(
                wanted_rows(old(self).shapes@),
                wanted_rows(old(self).shapes@).len() as int,
            ) <= usize::MAX,
            parts_on(old(self).result_placements()) <= usize::MAX,
        ensures
            old(self).wf() ==> final(self).wf(),
            exports_result(*old(self), choices, r.0),
            App::export_started(*old(self), format, *dicts, *final(self), r.2),
            match r.1 {
                Some(report) => {
                    &&& format == ExportFormat::Pdf
                    &&& exports_result(*old(self), choices, report.export)
                    &&& old(self).result_config matches Some(c) ==> report.config == c
                    &&& old(self).result_config is None ==> {
                        &&& report.config.cleanup_threshold_percent == cleanup
                        &&& report.config.rotations == old(self).cfg.rotations
                        &&& report.config.generations == old(self).cfg.generations
                        &&& report.config.population_size == old(self).cfg.population_size
                        &&& report.config.runs == old(self).cfg.runs
                        &&& report.config.margin == old(self).cfg.margin
                        &&& report.config.spacing == old(self).cfg.spacing
                        &&& report.config.kerf == old(self).cfg.kerf
                        &&& report.config.placement_type == old(self).cfg.placement_type
                        &&& report.config.mutation_rate == old(self).cfg.mutation_rate
                        &&& report.config.dominant_part_area_threshold == old(
                            self,
                        ).cfg.dominant_threshold
                        &&& report.config.curve_tolerance == old(self).cfg.curve_tolerance
                        &&& report.config.max_threads == old(self).cfg.max_threads
                        &&& report.config.seed == old(self).cfg.seed
                        &&& report.config.mirror == old(self).cfg.mirror
                    }
                    &&& report.parts@.len() == wanted_rows(old(self).shapes@).len()
                    &&& forall|n: int|
                        0 <= n < report.parts@.len() ==> reports_row(
                            #[trigger] report.parts@[n],
                            wanted_rows(old(self).shapes@),
                            n,
                            old(self).result_placements(),
                            mirror_bit,
                        )
                    &&& report.title is None
                },
                None => format != ExportFormat::Pdf,
            },
    {
        let request = self.export_of(choices);
        let report = if format == ExportFormat::Pdf {
            let config = match self.result_config {
                Some(c) => c,
                None => self.cfg.to_dto(cleanup),
            };
            Some(
                ReportRequest {
                    export: self.export_of(choices),
                    config,
                    parts: self.report_part_list(mirror_bit),
                    title: None,
                },
            )
        } else {
            None
        };
        self.export_status.ok(t(dicts, self.lang, "export_status_running").to_owned());
        let mut effects = Effects::none();
        let mut line = "exporting ".to_owned();
        line.append(format.label());
        effects.say(Kind::Plain, line);
        assert(log_view(effects.log@) =~= seq![says(Kind::Plain, line@)]);
        (request, report, effects)
    }
}

// --- what an export from the session promises -----------------------------

/// What is exported is the result on display, sheet by sheet, on the sheets of
/// its run and with every shape of it, in the look that was chosen. A report is
/// made exactly for the format that has one, of the same result, and under the
/// settings of that result where they are known.
pub proof fn law_the_result_on_display_is_exported(
    app: &mut App,
    format: ExportFormat,
    choices: ExportChoices,
    cleanup: Option<Scalar>,
    bit: usize,
    dicts: &Dicts,
    r: (ExportRequest, Option<ReportRequest>, Effects),
    i: int,
    id: usize,
)
    requires
        old(app).snapshot is Some,
        call_ensures(App::do_export, (app, format, choices, cleanup, bit, dicts), r),
    ensures
        ({
            let s = old(app).snapshot->Some_0;
            &&& r.0.placements@.len() == s.placements@.len()
            &&& 0 <= i < s.placements@.len() ==> r.0.placements@[i].parts@
                == s.placements@[i].parts@ && r.0.placements@[i].sheet_index
                == s.placements@[i].sheet_index
        }),
        r.0.sheets@.len() == old(app).result_sheets@.len(),
        0 <= i < r.0.sheets@.len() ==> r.0.sheets@[i]@ == old(app).result_sheets@[i]@,
        r.0.parts_by_id@.contains_key(id) <==> old(app).parts_by_id@.contains_key(id),
        r.0.parts_by_id@.contains_key(id) ==> r.0.parts_by_id@[id]@ == old(
            app).parts_by_id@[id]@,
        r.0.sheet_spacing == choices.spacing,
        r.0.include_sheet_outline == choices.outline,
        r.0.include_unplaced == choices.unplaced,
        r.1 is Some <==> format == ExportFormat::Pdf,
        r.1 matches Some(report) ==> {
            let s = old(app).snapshot->Some_0;
            &&& report.export.placements@.len() == s.placements@.len()
            &&& 0 <= i < s.placements@.len() ==> report.export.placements@[i].parts@
                == s.placements@[i].parts@
            &&& old(app).result_config is Some ==> Some(report.config) == old(app).result_config
        },
        final(app).snapshot == old(app).snapshot,
        final(app).shapes == old(app).shapes,
{
    let s = old(app).snapshot->Some_0;
    lemma_same_sheets(r.0.placements@, s.placements@);
    lemma_same_outlines(r.0.sheets@, old(app).result_sheets@);
    assert(r.0.parts_by_id@.dom().contains(id) <==> old(app).parts_by_id@.dom().contains(id));
    if let Some(report) = r.1 {
        lemma_same_sheets(report.export.placements@, s.placements@);
    }
}

/// An export may begin exactly where there is a result and the distance between
/// sheets is a number and not negative; a bad distance is told.
pub proof fn law_an_export_needs_a_result(
    app: &mut App,
    choices: ExportChoices,
    dicts: &Dicts,
    r: bool,
)
    requires
        call_ensures(App::export_ready, (app, choices, dicts), r),
    ensures
        r <==> Scalar::zero().at_most(choices.spacing) && old(app).snapshot is Some,
        !Scalar::zero().at_most(choices.spacing) ==> final(app).export_status.error,
        Scalar::zero().at_most(choices.spacing) ==> *final(app) == *old(app),
        final(app).snapshot == old(app).snapshot,
{
    assert(final(app).export_status@.error == final(app).export_status.error);
}

/// Two exports of different minutes have different names, whatever their ending.
pub proof fn law_names_tell_the_minute(
    a: LocalMoment,
    b: LocalMoment,
    ext: &str,
    first: String,
    second: String,
)
    requires
        a.wf(),
        b.wf(),
        0 <= a.year <= 9999,
        0 <= b.year <= 9999,
        call_ensures(export_name_at, (a, ext), first),
        call_ensures(export_name_at, (b, ext), second),
    ensures
        first@ == second@ ==> a == b,
{
    law_exports_are_named_apart(a, b, ext@);
}

} // verus!
