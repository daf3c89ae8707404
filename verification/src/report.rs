//! The job report: what it draws and what it says.

use vstd::prelude::*;
use crate::audit::{
    countable, headline, report_audit, report_lines, AuditReportDto, ReportAudit,
};
use crate::config::NestConfigDto;
use crate::export::{
    build_export_layouts, draws_parts, draws_sheets, export_problem, ExportPlan, ExportRequest,
};
use crate::exporting::ReportRequest;
use crate::placement::sheets_view;
use crate::text::{decimal, decimal_text};

verus! {

/// The measures of a job, written out.
pub struct Measures {
    pub margin: String,
    pub spacing: String,
    pub curve_tolerance: String,
}

/// What a report says beside its drawings.
pub struct ReportMeta {
    pub title: String,
    /// The parts with how many of each were ordered.
    pub parts: Vec<(String, usize)>,
    /// The settings of the job, by name.
    pub settings: Vec<(String, String)>,
    pub audit: ReportAudit,
}

/// What a list of named values holds.
pub open spec fn pairs_view(pairs: Seq<(String, String)>) -> Seq<(Seq<char>, Seq<char>)> {
    pairs.map_values(|p: (String, String)| (p.0@, p.1@))
}

/// The settings that a report lists, in order.
pub open spec fn settings_of(config: NestConfigDto, m: Measures) -> Seq<(Seq<char>, Seq<char>)> {
    seq![
        ("Margin"@, m.margin@ + " mm"@),
        ("Spacing"@, m.spacing@ + " mm"@),
        ("Runs"@, decimal(config.runs as nat)),
        ("Starting rotations"@, decimal(config.rotations as nat)),
        (
            "Mirroring"@,
            if config.mirror {
                "allowed"@
            } else {
                "off"@
            },
        ),
        ("Curve tolerance"@, m.curve_tolerance@ + " mm"@),
        ("Seed"@, decimal(config.seed as nat)),
    ]
}

fn in_mm(measure: &str) -> (r: String)
    ensures
        r@ == measure@ + " mm"@,
{
    let mut r = measure.to_owned();
    r.append(" mm");
    r
}

/// The settings that a report lists, in order.
pub fn report_settings(config: &NestConfigDto, measures: &Measures) -> (r: Vec<(String, String)>)
    ensures
        pairs_view(r@) == settings_of(*config, *measures),
{
    let mirroring = if config.mirror {
        "allowed"
    } else {
        "off"
    };
    let r = vec![
        ("Margin".to_owned(), in_mm(measures.margin.as_str())),
        ("Spacing".to_owned(), in_mm(measures.spacing.as_str())),
        ("Runs".to_owned(), decimal_text(config.runs as u64)),
        ("Starting rotations".to_owned(), decimal_text(config.rotations as u64)),
        ("Mirroring".to_owned(), mirroring.to_owned()),
        ("Curve tolerance".to_owned(), in_mm(measures.curve_tolerance.as_str())),
        ("Seed".to_owned(), decimal_text(config.seed)),
    ];
    assert(pairs_view(r@) =~= settings_of(*config, *measures));
    r
}

/// The export that a report pictures: what was never placed is counted in it,
/// and not drawn.
pub open spec fn pictured(request: ReportRequest) -> ExportRequest {
    ExportRequest { include_unplaced: false, ..request.export }
}

/// What a report says of a check, which is made for it of the very arrangement
/// that it draws.
pub open spec fn says_of_check(audit: ReportAudit, check: Result<AuditReportDto, String>) -> bool {
    match check {
        Ok(found) => {
            &&& audit.passed == found.passed
            &&& audit.headline@ == headline(found)
            &&& crate::text::texts_view(audit.issues@) == report_lines(found.issues@)
        },
        Err(e) => {
            &&& !audit.passed
            &&& audit.headline@ == "NOT CHECKED - the manufacturability check could not run ("@ + e@
                + ")"@
            &&& audit.issues@.len() == 0
        },
    }
}

/// Puts a job report together, given the outcome of the check of its
/// arrangement.
pub fn export_report(
    request: ReportRequest,
    measures: &Measures,
    check: Result<AuditReportDto, String>,
) -> (r: Result<(ExportPlan, ReportMeta), String>)
    requires
        check matches Ok(found) ==> countable(found.issues@),
    ensures
        match r {
            Ok((plan, meta)) => {
                &&& export_problem(pictured(request)) is None
                &&& draws_sheets(
                    plan.layouts@,
                    sheets_view(request.export.placements@),
                    request.export.sheets@,
                    request.export.parts_by_id@,
                )
                &&& plan.unplaced@.len() == 0
                &&& meta.title@ == match request.title {
                    Some(title) => title@,
                    None => "Nesting job report"@,
                }
                &&& meta.parts@.len() == request.parts@.len()
                &&& forall|i: int|
                    0 <= i < meta.parts@.len() ==> (#[trigger] meta.parts@[i]).0@
                        == request.parts@[i].name@ && meta.parts@[i].1
                        == request.parts@[i].quantity
                &&& pairs_view(meta.settings@) == settings_of(request.config, *measures)
                &&& says_of_check(meta.audit, check)
            },
            Err(message) => export_problem(pictured(request)) == Some(message@),
        },
{
    let mut parts: Vec<(String, usize)> = Vec::new();
    let mut i: usize = 0;
    while i < request.parts.len()
        invariant
            i <= request.parts@.len(),
            parts@.len() == i,
            forall|k: int|
                0 <= k < i ==> (#[trigger] parts@[k]).0@ == request.parts@[k].name@ && parts@[k].1
                    == request.parts@[k].quantity,
        decreases request.parts.len() - i,
    {
        parts.push((request.parts[i].name.clone(), request.parts[i].quantity));
        i += 1;
    }
    let settings = report_settings(&request.config, measures);
    let mut export = request.export;
    // Nothing left over is listed, so no flipped id has to be told apart.
    export.include_unplaced = false;
    let plan = build_export_layouts(export, 0)?;
    let title = match request.title {
        Some(title) => title,
        None => "Nesting job report".to_owned(),
    };
    Ok((plan, ReportMeta { title, parts, settings, audit: report_audit(check) }))
}

// --- what a report promises -----------------------------------------------

/// A report pictures a result as an export draws it: the `i`th shape on the
/// `n`th sheet is the shape of the `i`th part there, at that part's place and
/// rotation. It pictures no leftovers.
pub proof fn law_a_report_pictures_what_was_placed(
    request: ReportRequest,
    measures: &Measures,
    check: Result<AuditReportDto, String>,
    plan: ExportPlan,
    meta: ReportMeta,
    n: int,
    i: int,
)
    requires
        call_ensures(
            export_report,
            (request, measures, check),
            Ok::<(ExportPlan, ReportMeta), String>((plan, meta)),
        ),
        0 <= n < request.export.placements@.len(),
        0 <= i < request.export.placements@[n].parts@.len(),
    ensures
        plan.unplaced@.len() == 0,
        plan.layouts@.len() == request.export.placements@.len(),
        plan.layouts@[n].sheet@
            == request.export.sheets@[request.export.placements@[n].sheet_index as int]@,
        plan.layouts@[n].parts@.len() == request.export.placements@[n].parts@.len(),
        plan.layouts@[n].parts@[i].x == request.export.placements@[n].parts@[i].x,
        plan.layouts@[n].parts@[i].y == request.export.placements@[n].parts@[i].y,
        plan.layouts@[n].parts@[i].rotation == request.export.placements@[n].parts@[i].rotation,
        plan.layouts@[n].parts@[i].shape
            == request.export.parts_by_id@[request.export.placements@[n].parts@[i].id],
{
    let sheets = sheets_view(request.export.placements@);
    assert(sheets[n].parts == request.export.placements@[n].parts@);
    assert(sheets[n].sheet_index == request.export.placements@[n].sheet_index);
    assert(draws_parts(plan.layouts@[n].parts@, sheets[n].parts, request.export.parts_by_id@));
    assert(request.export.parts_by_id@.contains_key(sheets[n].parts[i].id));
}

/// A report names the parts that were ordered and how many of each, in their
/// order, and prints each setting of the job under its name. It passes exactly
/// where a check was made and passed.
pub proof fn law_a_report_tells_the_job(
    request: ReportRequest,
    measures: &Measures,
    check: Result<AuditReportDto, String>,
    plan: ExportPlan,
    meta: ReportMeta,
    i: int,
)
    requires
        call_ensures(
            export_report,
            (request, measures, check),
            Ok::<(ExportPlan, ReportMeta), String>((plan, meta)),
        ),
    ensures
        request.title matches Some(title) ==> meta.title@ == title@,
        request.title is None ==> meta.title@ == "Nesting job report"@,
        meta.parts@.len() == request.parts@.len(),
        0 <= i < meta.parts@.len() ==> meta.parts@[i].0@ == request.parts@[i].name@
            && meta.parts@[i].1 == request.parts@[i].quantity,
        meta.settings@.len() == 7,
        meta.settings@[0].0@ == "Margin"@ && meta.settings@[0].1@ == measures.margin@ + " mm"@,
        meta.settings@[1].0@ == "Spacing"@ && meta.settings@[1].1@ == measures.spacing@ + " mm"@,
        meta.settings@[2].0@ == "Runs"@ && meta.settings@[2].1@ == decimal(
            request.config.runs as nat,
        ),
        meta.settings@[3].0@ == "Starting rotations"@ && meta.settings@[3].1@ == decimal(
            request.config.rotations as nat,
        ),
        meta.settings@[4].0@ == "Mirroring"@,
        request.config.mirror ==> meta.settings@[4].1@ == "allowed"@,
        !request.config.mirror ==> meta.settings@[4].1@ == "off"@,
        meta.settings@[5].0@ == "Curve tolerance"@ && meta.settings@[5].1@
            == measures.curve_tolerance@ + " mm"@,
        meta.settings@[6].0@ == "Seed"@ && meta.settings@[6].1@ == decimal(
            request.config.seed as nat,
        ),
        meta.audit.passed <==> check is Ok && check->Ok_0.passed,
{
    let pairs = pairs_view(meta.settings@);
    assert(pairs == settings_of(request.config, *measures));
    assert(pairs.len() == meta.settings@.len());
    assert forall|k: int| 0 <= k < 7 implies #[trigger] pairs[k] == (
        meta.settings@[k].0@,
        meta.settings@[k].1@,
    ) by {}
    assert(pairs[0] == (meta.settings@[0].0@, meta.settings@[0].1@));
    assert(pairs[1] == (meta.settings@[1].0@, meta.settings@[1].1@));
    assert(pairs[2] == (meta.settings@[2].0@, meta.settings@[2].1@));
    assert(pairs[3] == (meta.settings@[3].0@, meta.settings@[3].1@));
    assert(pairs[4] == (meta.settings@[4].0@, meta.settings@[4].1@));
    assert(pairs[5] == (meta.settings@[5].0@, meta.settings@[5].1@));
    assert(pairs[6] == (meta.settings@[6].0@, meta.settings@[6].1@));
}

/// A result that can be exported without its leftovers can be reported, and no
/// other, whatever a check has found.
pub proof fn law_what_exports_can_be_reported(
    request: ReportRequest,
    export: ExportRequest,
    bit: usize,
    measures: &Measures,
    check: Result<AuditReportDto, String>,
    exported: Result<ExportPlan, String>,
    reported: Result<(ExportPlan, ReportMeta), String>,
)
    requires
        export == (ExportRequest { include_unplaced: false, ..request.export }),
        call_ensures(build_export_layouts, (export, bit), exported),
        call_ensures(export_report, (request, measures, check), reported),
    ensures
        exported is Ok <==> reported is Ok,
        exported is Err ==> exported->Err_0@ == reported->Err_0@,
{
}

} // verus!
