//! What the headless tool does around a nest: it makes the job from the files
//! and the options, picks the format of the result, and reports.

use vstd::prelude::*;
use crate::audit::{verdict, AuditIssueDto, AuditReportDto};
use crate::cli::{maybe_text, Options};
use crate::export::ExportFormat;
use crate::order::reversed;
use crate::parts::PartDto;
use crate::placement::SheetPlacementDto;
use crate::scalar::Scalar;
use crate::shape::{Outline, PointDto, PolygonDto};
use crate::text::{decimal, decimal_text, join_texts, joined, lowered, same_text, texts_view, to_lowered};

verus! {

/// How many copies of each shape of the `i`th file the job holds.
pub fn quantity_for(opts: &Options, i: usize) -> (r: usize)
    requires
        i < opts.files@.len(),
    ensures
        r == match opts.files@[i as int].1 {
            Some(own) => own,
            None => opts.qty,
        },
{
    match opts.files[i].1 {
        Some(own) => own,
        None => opts.qty,
    }
}

/// Whether a file with this extension is read as SVG; every other is read as
/// DXF.
pub fn is_svg(extension: &Option<String>) -> (r: bool)
    ensures
        r == match maybe_text(*extension) {
            Some(text) => lowered(text) == "svg"@,
            None => false,
        },
{
    match extension {
        Some(text) => same_text(to_lowered(text.as_str()).as_str(), "svg"),
        None => false,
    }
}

/// The warning for an SVG file that does not say how large its unit is.
pub fn size_warning(file: &str) -> (r: String)
    ensures
        r@ == file@
            + " does not say how big it is (viewBox but no width/height) - assuming 96dpi. Use --svg-unit."@,
{
    let mut r = file.to_owned();
    r.append(
        " does not say how big it is (viewBox but no width/height) - assuming 96dpi. Use --svg-unit.",
    );
    r
}

/// A part that a file's shape makes: so many copies, free to turn, and flipped
/// only if the job says so.
pub open spec fn plain_part(part: PartDto, polygon: PolygonDto, quantity: usize) -> bool {
    &&& part.polygon == polygon
    &&& part.quantity == quantity
    &&& part.allowed_rotations is None
    &&& part.mirror is None
}

/// Adds the shapes of a file to the job, each as so many copies of one part. A
/// file without a shape is a mistake.
pub fn add_file(
    parts: &mut Vec<PartDto>,
    file: &str,
    shapes: Vec<PolygonDto>,
    quantity: usize,
) -> (r: Result<(), String>)
    ensures
        match r {
            Ok(_) => {
                &&& shapes@.len() > 0
                &&& final(parts)@.len() == old(parts)@.len() + shapes@.len()
                &&& final(parts)@.subrange(0, old(parts)@.len() as int) == old(parts)@
                &&& forall|i: int|
                    0 <= i < shapes@.len() ==> plain_part(
                        #[trigger] final(parts)@[old(parts)@.len() + i],
                        shapes@[i],
                        quantity,
                    )
            },
            Err(message) => {
                &&& shapes@.len() == 0
                &&& message@ == file@ + ": no closed profiles found"@
                &&& final(parts)@ == old(parts)@
            },
        },
{
    if shapes.len() == 0 {
        let mut message = file.to_owned();
        message.append(": no closed profiles found");
        return Err(message);
    }
    let ghost all = shapes@;
    let ghost before = parts@;
    let mut waiting = reversed(shapes);
    let ghost mut done: int = 0;
    assert(parts@.subrange(0, before.len() as int) =~= before);
    while waiting.len() > 0
        invariant
            done + waiting@.len() == all.len(),
            0 <= done,
            forall|k: int| 0 <= k < waiting@.len() ==> #[trigger] waiting@[k]
                == all[all.len() - 1 - k],
            parts@.len() == before.len() + done,
            parts@.subrange(0, before.len() as int) == before,
            forall|i: int|
                0 <= i < done ==> plain_part(
                    #[trigger] parts@[before.len() + i],
                    all[i],
                    quantity,
                ),
        decreases waiting.len(),
    {
        match waiting.pop() {
            Some(polygon) => {
                assert(polygon == all[done]);
                let ghost so_far = parts@;
                parts.push(PartDto { polygon, quantity, allowed_rotations: None, mirror: None });
                proof {
                    done = done + 1;
                    assert(parts@.subrange(0, before.len() as int) =~= so_far.subrange(
                        0,
                        before.len() as int,
                    ));
                }
            },
            None => {},
        }
    }
    Ok(())
}

/// A rectangle with its corner at the origin.
pub open spec fn is_rect(outline: Outline, w: Scalar, h: Scalar, layer: Seq<char>) -> bool {
    &&& outline.points == seq![
        PointDto { x: Scalar::zero(), y: Scalar::zero() },
        PointDto { x: w, y: Scalar::zero() },
        PointDto { x: w, y: h },
        PointDto { x: Scalar::zero(), y: h },
    ]
    &&& outline.layer == layer
    &&& outline.is_circle is None
    &&& outline.children.len() == 0
    &&& outline.texts.len() == 0
    &&& outline.real_boundary is None
}

/// A rectangle with its corner at the origin.
pub fn rect(w: Scalar, h: Scalar, layer: &str) -> (r: PolygonDto)
    ensures
        is_rect(r@, w, h, layer@),
{
    let zero = Scalar::zero();
    let points = vec![
        PointDto { x: zero, y: zero },
        PointDto { x: w, y: zero },
        PointDto { x: w, y: h },
        PointDto { x: zero, y: h },
    ];
    let r = PolygonDto::new(points, layer.to_owned(), None);
    assert(r@.points =~= seq![
        PointDto { x: Scalar::zero(), y: Scalar::zero() },
        PointDto { x: w, y: Scalar::zero() },
        PointDto { x: w, y: h },
        PointDto { x: Scalar::zero(), y: h },
    ]);
    r
}

/// The stock of a job: so many sheets of the size that was asked for.
pub fn stock(opts: &Options) -> (r: Vec<PolygonDto>)
    ensures
        r@.len() == opts.sheets,
        forall|i: int|
            0 <= i < r@.len() ==> is_rect((#[trigger] r@[i])@, opts.sheet.0, opts.sheet.1, "sheet"@),
{
    let mut r: Vec<PolygonDto> = Vec::new();
    let mut i: usize = 0;
    while i < opts.sheets
        invariant
            i <= opts.sheets,
            r@.len() == i,
            forall|k: int|
                0 <= k < r@.len() ==> is_rect(
                    (#[trigger] r@[k])@,
                    opts.sheet.0,
                    opts.sheet.1,
                    "sheet"@,
                ),
        decreases opts.sheets - i,
    {
        r.push(rect(opts.sheet.0, opts.sheet.1, "sheet"));
        i += 1;
    }
    r
}

/// The format of a result file, from its extension: SVG or DXF, and no other.
pub fn output_format(extension: &Option<String>) -> (r: Result<ExportFormat, String>)
    ensures
        match maybe_text(*extension) {
            Some(text) => {
                if lowered(text) == "svg"@ {
                    r == Ok::<_, String>(ExportFormat::Svg)
                } else if lowered(text) == "dxf"@ {
                    r == Ok::<_, String>(ExportFormat::Dxf)
                } else {
                    r is Err && r->Err_0@ == "--out: don't know how to write '"@ + lowered(text)
                        + "'"@
                }
            },
            None => r is Err && r->Err_0@ == "--out: don't know how to write '"@
                + "a file with no extension"@ + "'"@,
        },
{
    let mut message = "--out: don't know how to write '".to_owned();
    match extension {
        Some(text) => {
            let low = to_lowered(text.as_str());
            if same_text(low.as_str(), "svg") {
                return Ok(ExportFormat::Svg);
            }
            if same_text(low.as_str(), "dxf") {
                return Ok(ExportFormat::Dxf);
            }
            message.append(low.as_str());
        },
        None => message.append("a file with no extension"),
    }
    message.append("'");
    Err(message)
}

/// How many parts are placed on the first `n` sheets.
pub open spec fn placed_on(placements: Seq<SheetPlacementDto>, n: int) -> nat
    decreases n,
{
    if n <= 0 || n > placements.len() {
        0
    } else {
        placed_on(placements, n - 1) + placements[n - 1].parts@.len()
    }
}

/// How many parts are placed.
pub fn placed_count(placements: &Vec<SheetPlacementDto>) -> (r: usize)
    requires
        placed_on(placements@, placements@.len() as int) <= usize::MAX,
    ensures
        r == placed_on(placements@, placements@.len() as int),
{
    let mut r: usize = 0;
    let mut i: usize = 0;
    while i < placements.len()
        invariant
            i <= placements.len(),
            r == placed_on(placements@, i as int),
            placed_on(placements@, placements@.len() as int) <= usize::MAX,
        decreases placements.len() - i,
    {
        proof {
            lemma_placed_grows(placements@, i + 1, placements@.len() as int);
        }
        r += placements[i].parts.len();
        i += 1;
    }
    r
}

proof fn lemma_placed_grows(placements: Seq<SheetPlacementDto>, a: int, b: int)
    requires
        0 <= a <= b <= placements.len(),
    ensures
        placed_on(placements, a) <= placed_on(placements, b),
    decreases b,
{
    if a < b {
        lemma_placed_grows(placements, a, b - 1);
    }
}

/// The measures of a report, written out: percentages of the sheets, the
/// fitness and the time taken.
pub struct Figures {
    pub utilisation: String,
    pub best: String,
    pub mean: String,
    pub fitness: String,
    pub elapsed: String,
    pub per_sheet: Vec<String>,
}

/// How many parts each sheet holds, in decimal.
pub open spec fn part_counts(placements: Seq<SheetPlacementDto>) -> Seq<Seq<char>> {
    placements.map_values(|p: SheetPlacementDto| decimal(p.parts@.len()))
}

/// The report as one JSON object whose keys stand in a fixed order, so that two
/// reports can be compared as text.
pub open spec fn json_summary(
    placements: Seq<SheetPlacementDto>,
    unplaced: usize,
    verdict: Seq<char>,
    f: Figures,
) -> Seq<char> {
    "{\"sheets\":"@ + decimal(placements.len()) + ",\"placed\":"@ + decimal(
        placed_on(placements, placements.len() as int),
    ) + ",\"unplaced\":"@ + decimal(unplaced as nat) + ",\"utilisation\":"@ + f.utilisation@
        + ",\"best_sheet\":"@ + f.best@ + ",\"mean_sheet\":"@ + f.mean@ + ",\"fitness\":"@
        + f.fitness@ + ",\"audit\":\""@ + verdict + "\",\"seconds\":"@ + f.elapsed@
        + ",\"per_sheet\":["@ + joined(texts_view(f.per_sheet@), ","@)
        + "],\"per_sheet_parts\":["@ + joined(part_counts(placements), ","@) + "]}"@
}

/// One word for a whole check, as text.
pub open spec fn verdict_word(audit: AuditReportDto) -> Seq<char> {
    if audit.fatal_count > 0 {
        "FAILED"@
    } else if audit.warning_count > 0 {
        "WARNED"@
    } else {
        "PASSED"@
    }
}

fn count_texts(placements: &Vec<SheetPlacementDto>) -> (r: Vec<String>)
    ensures
        texts_view(r@) == part_counts(placements@),
{
    let mut r: Vec<String> = Vec::new();
    let mut i: usize = 0;
    while i < placements.len()
        invariant
            i <= placements.len(),
            r@.len() == i,
            forall|k: int|
                0 <= k < i ==> (#[trigger] r@[k])@ == decimal(placements@[k].parts@.len()),
        decreases placements.len() - i,
    {
        r.push(decimal_text(placements[i].parts.len() as u64));
        i += 1;
    }
    assert(texts_view(r@) =~= part_counts(placements@));
    r
}

/// The report as JSON.
pub fn report_json(
    placements: &Vec<SheetPlacementDto>,
    unplaced: usize,
    audit: &AuditReportDto,
    figures: &Figures,
) -> (r: String)
    requires
        placed_on(placements@, placements@.len() as int) <= usize::MAX,
    ensures
        r@ == json_summary(placements@, unplaced, verdict_word(*audit), *figures),
{
    let mut r = "{\"sheets\":".to_owned();
    r.append(decimal_text(placements.len() as u64).as_str());
    r.append(",\"placed\":");
    r.append(decimal_text(placed_count(placements) as u64).as_str());
    r.append(",\"unplaced\":");
    r.append(decimal_text(unplaced as u64).as_str());
    r.append(",\"utilisation\":");
    r.append(figures.utilisation.as_str());
    r.append(",\"best_sheet\":");
    r.append(figures.best.as_str());
    r.append(",\"mean_sheet\":");
    r.append(figures.mean.as_str());
    r.append(",\"fitness\":");
    r.append(figures.fitness.as_str());
    r.append(",\"audit\":\"");
    r.append(verdict(audit));
    r.append("\",\"seconds\":");
    r.append(figures.elapsed.as_str());
    r.append(",\"per_sheet\":[");
    r.append(join_texts(&figures.per_sheet, ",").as_str());
    r.append("],\"per_sheet_parts\":[");
    r.append(join_texts(&count_texts(placements), ",").as_str());
    r.append("]}");
    r
}

/// A list of ids in brackets.
pub open spec fn bracketed(ids: Seq<usize>) -> Seq<char> {
    "["@ + joined(ids.map_values(|id: usize| decimal(id as nat)), ", "@) + "]"@
}

fn bracketed_text(ids: &Vec<usize>) -> (r: String)
    ensures
        r@ == bracketed(ids@),
{
    let mut items: Vec<String> = Vec::new();
    let mut i: usize = 0;
    while i < ids.len()
        invariant
            i <= ids.len(),
            items@.len() == i,
            forall|k: int| 0 <= k < i ==> (#[trigger] items@[k])@ == decimal(ids@[k] as nat),
        decreases ids.len() - i,
    {
        items.push(decimal_text(ids[i] as u64));
        i += 1;
    }
    assert(texts_view(items@) =~= ids@.map_values(|id: usize| decimal(id as nat)));
    let mut r = "[".to_owned();
    r.append(join_texts(&items, ", ").as_str());
    r.append("]");
    r
}

/// The line of a report for one thing that a check found. Sheets are counted
/// from 1.
pub open spec fn issue_line(issue: AuditIssueDto) -> Seq<char> {
    "  "@ + (if issue.fatal {
        "FATAL"@
    } else {
        "warn "@
    }) + " "@ + issue.kind@ + " on sheet "@ + decimal((issue.sheet_index + 1) as nat) + ": "@
        + bracketed(issue.part_ids@)
}

fn issue_text(issue: &AuditIssueDto) -> (r: String)
    requires
        issue.sheet_index < usize::MAX,
    ensures
        r@ == issue_line(*issue),
{
    let mut r = "  ".to_owned();
    if issue.fatal {
        r.append("FATAL");
    } else {
        r.append("warn ");
    }
    r.append(" ");
    r.append(issue.kind.as_str());
    r.append(" on sheet ");
    r.append(decimal_text((issue.sheet_index + 1) as u64).as_str());
    r.append(": ");
    r.append(bracketed_text(&issue.part_ids).as_str());
    r
}

/// The lines of the report as text.
pub open spec fn text_summary(
    placements: Seq<SheetPlacementDto>,
    unplaced: usize,
    audit: AuditReportDto,
    f: Figures,
) -> Seq<Seq<char>> {
    seq![
        "sheets used   "@ + decimal(placements.len()),
        "parts placed  "@ + decimal(placed_on(placements, placements.len() as int)),
        "unplaced      "@ + decimal(unplaced as nat),
        "utilisation   "@ + f.utilisation@ + "%"@,
        "best sheet    "@ + f.best@ + "%"@,
        "mean sheet    "@ + f.mean@ + "%"@,
        "audit         "@ + verdict_word(audit),
    ] + audit.issues@.map_values(|i: AuditIssueDto| issue_line(i)) + seq![
        "elapsed       "@ + f.elapsed@,
    ]
}

fn labelled(label: &str, value: &str, unit: &str) -> (r: String)
    ensures
        r@ == label@ + value@ + unit@,
{
    let mut r = label.to_owned();
    r.append(value);
    r.append(unit);
    r
}

/// The lines of the report as text.
pub fn report_lines(
    placements: &Vec<SheetPlacementDto>,
    unplaced: usize,
    audit: &AuditReportDto,
    figures: &Figures,
) -> (r: Vec<String>)
    requires
        placed_on(placements@, placements@.len() as int) <= usize::MAX,
        forall|i: int|
            0 <= i < audit.issues@.len() ==> (#[trigger] audit.issues@[i]).sheet_index < usize::MAX,
    ensures
        texts_view(r@) == text_summary(placements@, unplaced, *audit, *figures),
{
    let mut r: Vec<String> = Vec::new();
    let sheets = decimal_text(placements.len() as u64);
    let placed = decimal_text(placed_count(placements) as u64);
    let left = decimal_text(unplaced as u64);
    r.push(labelled("sheets used   ", sheets.as_str(), ""));
    r.push(labelled("parts placed  ", placed.as_str(), ""));
    r.push(labelled("unplaced      ", left.as_str(), ""));
    r.push(labelled("utilisation   ", figures.utilisation.as_str(), "%"));
    r.push(labelled("best sheet    ", figures.best.as_str(), "%"));
    r.push(labelled("mean sheet    ", figures.mean.as_str(), "%"));
    r.push(labelled("audit         ", verdict(audit), ""));
    let ghost head = texts_view(r@);
    let ghost want = text_summary(placements@, unplaced, *audit, *figures);
    let ghost issues = audit.issues@.map_values(|i: AuditIssueDto| issue_line(i));
    proof {
        reveal_strlit("");
        assert(head =~= want.subrange(0, 7)) by {
            assert forall|k: int| 0 <= k < 7 implies head[k] =~= want[k] by {}
        }
    }
    let mut i: usize = 0;
    while i < audit.issues.len()
        invariant
            i <= audit.issues@.len(),
            forall|k: int|
                0 <= k < audit.issues@.len() ==> (#[trigger] audit.issues@[k]).sheet_index
                    < usize::MAX,
            issues == audit.issues@.map_values(|i: AuditIssueDto| issue_line(i)),
            head.len() == 7,
            texts_view(r@) == head + issues.subrange(0, i as int),
        decreases audit.issues.len() - i,
    {
        let ghost before = r@;
        r.push(issue_text(&audit.issues[i]));
        assert(texts_view(r@) =~= texts_view(before).push(issues[i as int]));
        assert(texts_view(r@) =~= head + issues.subrange(0, i + 1));
        i += 1;
    }
    let ghost before = r@;
    r.push(labelled("elapsed       ", figures.elapsed.as_str(), ""));
    proof {
        assert(issues.subrange(0, issues.len() as int) =~= issues);
        assert("elapsed       "@ + figures.elapsed@ + ""@ =~= "elapsed       "@ + figures.elapsed@);
        assert(texts_view(r@) =~= texts_view(before).push("elapsed       "@ + figures.elapsed@));
        assert(texts_view(r@) =~= want);
    }
    r
}

// --- what a run from the command line promises ----------------------------

/// A file is cut as often as was said when it was named, or as often as the job
/// says.
pub proof fn law_a_file_has_its_own_quantity(opts: &Options, i: usize, r: usize)
    requires
        i < opts.files@.len(),
        call_ensures(quantity_for, (opts, i), r),
    ensures
        opts.files@[i as int].1 matches Some(own) ==> r == own,
        opts.files@[i as int].1 is None ==> r == opts.qty,
{
}

/// Every shape of a file becomes a part behind those there, in its order, as
/// often as was asked and without a rule; a file without a shape is refused and
/// adds nothing.
pub proof fn law_every_shape_of_a_file_is_a_part(
    parts: &mut Vec<PartDto>,
    file: &str,
    shapes: Vec<PolygonDto>,
    quantity: usize,
    r: Result<(), String>,
    i: int,
    k: int,
)
    requires
        call_ensures(add_file, (parts, file, shapes, quantity), r),
    ensures
        r is Ok <==> shapes@.len() > 0,
        r is Err ==> final(parts)@ == old(parts)@,
        r is Ok ==> {
            &&& final(parts)@.len() == old(parts)@.len() + shapes@.len()
            &&& 0 <= k < old(parts)@.len() ==> final(parts)@[k] == old(parts)@[k]
            &&& 0 <= i < shapes@.len() ==> {
                let part = final(parts)@[old(parts)@.len() + i];
                &&& part.polygon == shapes@[i]
                &&& part.quantity == quantity
                &&& part.allowed_rotations is None
                &&& part.mirror is None
            }
        },
{
    if r is Ok {
        if 0 <= k < old(parts)@.len() {
            assert(final(parts)@.subrange(0, old(parts)@.len() as int)[k] == old(parts)@[k]);
        }
        if 0 <= i < shapes@.len() {
            assert(plain_part(final(parts)@[old(parts)@.len() + i], shapes@[i], quantity));
        }
    }
}

/// A rectangle has four corners, from the origin to its width and its height,
/// and nothing in it; and the stock is as many of them as were asked for, each of
/// the size asked for.
pub proof fn law_stock_is_rectangles_of_the_size_asked(
    w: Scalar,
    h: Scalar,
    layer: &str,
    one: PolygonDto,
    opts: &Options,
    sheets: Vec<PolygonDto>,
    i: int,
)
    requires
        call_ensures(rect, (w, h, layer), one),
        call_ensures(stock, (opts,), sheets),
    ensures
        one@.points.len() == 4,
        one@.points[0].x.bits == 0 && one@.points[0].y.bits == 0,
        one@.points[1].x == w && one@.points[1].y.bits == 0,
        one@.points[2].x == w && one@.points[2].y == h,
        one@.points[3].x.bits == 0 && one@.points[3].y == h,
        one@.layer == layer@,
        one@.children.len() == 0,
        sheets@.len() == opts.sheets,
        0 <= i < sheets@.len() ==> {
            let points = sheets@[i]@.points;
            &&& points.len() == 4
            &&& points[0].x.bits == 0 && points[0].y.bits == 0
            &&& points[1].x == opts.sheet.0 && points[1].y.bits == 0
            &&& points[2].x == opts.sheet.0 && points[2].y == opts.sheet.1
            &&& points[3].x.bits == 0 && points[3].y == opts.sheet.1
        },
{
    if 0 <= i < sheets@.len() {
        assert(is_rect(sheets@[i]@, opts.sheet.0, opts.sheet.1, "sheet"@));
    }
}

/// The ending of a file says how it is written or read, in capitals or not; an
/// ending that says nothing is refused.
pub proof fn law_the_ending_says_the_format(
    extension: &Option<String>,
    r: Result<ExportFormat, String>,
    svg: bool,
)
    requires
        call_ensures(output_format, (extension,), r),
        call_ensures(is_svg, (extension,), svg),
    ensures
        svg <==> extension is Some && lowered(extension->Some_0@) == "svg"@,
        r == Ok::<ExportFormat, String>(ExportFormat::Svg) <==> svg,
        r == Ok::<ExportFormat, String>(ExportFormat::Dxf) <==> extension is Some && lowered(
            extension->Some_0@,
        ) == "dxf"@,
        r is Ok ==> r == Ok::<ExportFormat, String>(ExportFormat::Svg) || r == Ok::<
            ExportFormat,
            String,
        >(ExportFormat::Dxf),
{
    reveal_strlit("svg");
    reveal_strlit("dxf");
    assert("svg"@[0] == 's' && "dxf"@[0] == 'd');
}

/// As many parts are placed as lie on the sheets: none where there are no
/// sheets, and one sheet more adds its own.
pub proof fn law_a_sheet_more_adds_its_parts(
    placements: &Vec<SheetPlacementDto>,
    more: &Vec<SheetPlacementDto>,
    sheet: SheetPlacementDto,
    r: usize,
    longer: usize,
)
    requires
        more@ == placements@.push(sheet),
        call_ensures(placed_count, (placements,), r),
        call_ensures(placed_count, (more,), longer),
    ensures
        placements@.len() == 0 ==> r == 0,
        longer == r + sheet.parts@.len(),
{
    lemma_placed_on(placements@, more@, placements@.len() as int);
}

proof fn lemma_placed_on(a: Seq<SheetPlacementDto>, b: Seq<SheetPlacementDto>, n: int)
    requires
        0 <= n <= a.len() <= b.len(),
        forall|i: int| 0 <= i < n ==> a[i] == b[i],
    ensures
        placed_on(a, n) == placed_on(b, n),
    decreases n,
{
    if n > 0 {
        lemma_placed_on(a, b, n - 1);
    }
}

/// A printed summary tells the figures of the run, each on its own line, then
/// each issue of the check in its order, and last how long it took.
pub proof fn law_a_summary_tells_every_figure(
    placements: &Vec<SheetPlacementDto>,
    unplaced: usize,
    audit: &AuditReportDto,
    figures: &Figures,
    placed: usize,
    word: &'static str,
    lines: Vec<String>,
    i: int,
)
    requires
        call_ensures(placed_count, (placements,), placed),
        call_ensures(verdict, (audit,), word),
        call_ensures(report_lines, (placements, unplaced, audit, figures), lines),
    ensures
        lines@.len() == 8 + audit.issues@.len(),
        lines@[0]@ == "sheets used   "@ + decimal(placements@.len()),
        lines@[1]@ == "parts placed  "@ + decimal(placed as nat),
        lines@[2]@ == "unplaced      "@ + decimal(unplaced as nat),
        lines@[3]@ == "utilisation   "@ + figures.utilisation@ + "%"@,
        lines@[4]@ == "best sheet    "@ + figures.best@ + "%"@,
        lines@[5]@ == "mean sheet    "@ + figures.mean@ + "%"@,
        lines@[6]@ == "audit         "@ + word@,
        lines@.last()@ == "elapsed       "@ + figures.elapsed@,
        0 <= i < audit.issues@.len() ==> lines@[7 + i]@ == "  "@ + (if audit.issues@[i].fatal {
            "FATAL"@
        } else {
            "warn "@
        }) + " "@ + audit.issues@[i].kind@ + " on sheet "@ + decimal(
            (audit.issues@[i].sheet_index + 1) as nat,
        ) + ": "@ + ("["@ + joined(
            audit.issues@[i].part_ids@.map_values(|id: usize| decimal(id as nat)),
            ", "@,
        ) + "]"@),
{
    let all = texts_view(lines@);
    assert(all == text_summary(placements@, unplaced, *audit, *figures));
    assert(all.len() == lines@.len());
    assert forall|k: int| 0 <= k < lines@.len() implies #[trigger] lines@[k]@ == all[k] by {}
    assert(all.len() == 8 + audit.issues@.len());
}

/// The summary for a program to read holds the figures of the run under their
/// names, the word of the check, and of each sheet its fullness and how many
/// parts are on it.
pub proof fn law_a_summary_can_be_read_by_a_program(
    placements: &Vec<SheetPlacementDto>,
    unplaced: usize,
    audit: &AuditReportDto,
    figures: &Figures,
    placed: usize,
    word: &'static str,
    r: String,
)
    requires
        call_ensures(placed_count, (placements,), placed),
        call_ensures(verdict, (audit,), word),
        call_ensures(report_json, (placements, unplaced, audit, figures), r),
    ensures
        r@ == "{\"sheets\":"@ + decimal(placements@.len()) + ",\"placed\":"@ + decimal(
            placed as nat,
        ) + ",\"unplaced\":"@ + decimal(unplaced as nat) + ",\"utilisation\":"@
            + figures.utilisation@ + ",\"best_sheet\":"@ + figures.best@
            + ",\"mean_sheet\":"@ + figures.mean@ + ",\"fitness\":"@ + figures.fitness@
            + ",\"audit\":\""@ + word@ + "\",\"seconds\":"@ + figures.elapsed@
            + ",\"per_sheet\":["@ + joined(texts_view(figures.per_sheet@), ","@)
            + "],\"per_sheet_parts\":["@ + joined(
            placements@.map_values(|p: SheetPlacementDto| decimal(p.parts@.len())),
            ","@,
        ) + "]}"@,
{
}

} // verus!
