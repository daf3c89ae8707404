//! What a manufacturability check found, and how it is told: one word for a
//! script, one line for the log, a block for the job report, a badge and its
//! detail for the screen.

use vstd::prelude::*;
use crate::i18n::{filled, shown_text, t, tv_one, Dicts, Lang};
use crate::order::{
    distinct_ids, insert_id, law_distinct_ids, lemma_can_be_listed, lemma_distinct_ids,
    lemma_placed, lemma_rising_is_unique, lists_once, orders, rising,
};
use crate::placement::copy_ids;
use crate::text::{
    comes_before, decimal, decimal_text, join_texts, joined, law_text_order, same_text, text_before, texts_view,
};

verus! {

/// One thing wrong with a nest.
#[derive(Debug)]
pub struct AuditIssueDto {
    /// `overlap`, `outside_sheet`, `below_spacing` or `outside_margin`.
    pub kind: String,
    pub fatal: bool,
    pub sheet_index: usize,
    pub part_ids: Vec<usize>,
}

/// The outcome of a check.
#[derive(Debug)]
pub struct AuditReportDto {
    pub passed: bool,
    pub fatal_count: usize,
    pub warning_count: usize,
    pub issues: Vec<AuditIssueDto>,
}

impl Default for AuditReportDto {
    fn default() -> (r: Self)
        ensures
            !r.passed,
            r.fatal_count == 0,
            r.warning_count == 0,
            r.issues@.len() == 0,
    {
        AuditReportDto { passed: false, fatal_count: 0, warning_count: 0, issues: Vec::new() }
    }
}

/// What can be wrong with a nest.
#[derive(Clone, Copy, PartialEq, Eq, Structural, Debug)]
pub enum IssueKind {
    Overlap,
    OutsideSheet,
    BelowSpacing,
    OutsideMargin,
}

/// The name a kind goes by in a report.
pub open spec fn kind_text(kind: IssueKind) -> Seq<char> {
    match kind {
        IssueKind::Overlap => "overlap"@,
        IssueKind::OutsideSheet => "outside_sheet"@,
        IssueKind::BelowSpacing => "below_spacing"@,
        IssueKind::OutsideMargin => "outside_margin"@,
    }
}

/// The name a kind goes by in a report.
pub fn kind_name(kind: IssueKind) -> (r: &'static str)
    ensures
        r@ == kind_text(kind),
{
    match kind {
        IssueKind::Overlap => "overlap",
        IssueKind::OutsideSheet => "outside_sheet",
        IssueKind::BelowSpacing => "below_spacing",
        IssueKind::OutsideMargin => "outside_margin",
    }
}

/// One thing the geometric check found.
pub struct Finding {
    pub kind: IssueKind,
    pub fatal: bool,
    pub sheet_index: usize,
    pub part_ids: Vec<usize>,
}

/// Whether an issue tells a finding.
pub open spec fn tells(issue: AuditIssueDto, finding: Finding) -> bool {
    &&& issue.kind@ == kind_text(finding.kind)
    &&& issue.fatal == finding.fatal
    &&& issue.sheet_index == finding.sheet_index
    &&& issue.part_ids@ == finding.part_ids@
}

/// The report of what the geometric check found, finding for finding.
pub fn audit_report(
    passed: bool,
    fatal_count: usize,
    warning_count: usize,
    findings: &Vec<Finding>,
) -> (r: AuditReportDto)
    ensures
        r.passed == passed,
        r.fatal_count == fatal_count,
        r.warning_count == warning_count,
        r.issues@.len() == findings@.len(),
        forall|i: int|
            0 <= i < findings@.len() ==> tells(#[trigger] r.issues@[i], findings@[i]),
{
    let mut issues: Vec<AuditIssueDto> = Vec::new();
    let mut i: usize = 0;
    while i < findings.len()
        invariant
            i <= findings.len(),
            issues@.len() == i,
            forall|k: int| 0 <= k < i ==> tells(#[trigger] issues@[k], findings@[k]),
        decreases findings.len() - i,
    {
        issues.push(
            AuditIssueDto {
                kind: kind_name(findings[i].kind).to_owned(),
                fatal: findings[i].fatal,
                sheet_index: findings[i].sheet_index,
                part_ids: copy_ids(&findings[i].part_ids),
            },
        );
        i += 1;
    }
    AuditReportDto { passed, fatal_count, warning_count, issues }
}

/// One word for the whole check.
pub fn verdict(audit: &AuditReportDto) -> (r: &'static str)
    ensures
        r@ == if audit.fatal_count > 0 {
            "FAILED"@
        } else if audit.warning_count > 0 {
            "WARNED"@
        } else {
            "PASSED"@
        },
{
    if audit.fatal_count > 0 {
        "FAILED"
    } else if audit.warning_count > 0 {
        "WARNED"
    } else {
        "PASSED"
    }
}

// --- the log line ---------------------------------------------------------

/// How many ids a log line lists.
pub const MAX_IDS: usize = 8;

/// Ids as texts.
pub open spec fn id_items(ids: Seq<usize>) -> Seq<Seq<char>> {
    ids.map_values(|id: usize| decimal(id as nat))
}

/// Ids as a list.
pub open spec fn full_list(ids: Seq<usize>) -> Seq<char> {
    joined(id_items(ids), ","@)
}

/// Ids as texts, cut off after the first few with a note of how many follow.
pub open spec fn capped_items(ids: Seq<usize>) -> Seq<Seq<char>> {
    if ids.len() > MAX_IDS {
        id_items(ids.subrange(0, MAX_IDS as int)).push(
            "+"@ + decimal((ids.len() - MAX_IDS) as nat) + " more"@,
        )
    } else {
        id_items(ids)
    }
}

/// Ids as a list, cut off after the first few.
pub open spec fn capped_list(ids: Seq<usize>) -> Seq<char> {
    joined(capped_items(ids), ","@)
}

fn id_texts(ids: &Vec<usize>, upto: usize) -> (r: Vec<String>)
    requires
        upto <= ids@.len(),
    ensures
        texts_view(r@) == id_items(ids@.subrange(0, upto as int)),
{
    let mut items: Vec<String> = Vec::new();
    let mut i: usize = 0;
    while i < upto
        invariant
            i <= upto <= ids@.len(),
            items@.len() == i,
            forall|k: int| 0 <= k < i ==> (#[trigger] items@[k])@ == decimal(ids@[k] as nat),
        decreases upto - i,
    {
        items.push(decimal_text(ids[i] as u64));
        i += 1;
    }
    assert(texts_view(items@) =~= id_items(ids@.subrange(0, upto as int)));
    items
}

fn full_text(ids: &Vec<usize>) -> (r: String)
    ensures
        r@ == full_list(ids@),
{
    assert(ids@.subrange(0, ids@.len() as int) == ids@);
    join_texts(&id_texts(ids, ids.len()), ",")
}

fn capped_text(ids: &Vec<usize>) -> (r: String)
    ensures
        r@ == capped_list(ids@),
{
    if ids.len() <= MAX_IDS {
        return full_text(ids);
    }
    let mut items = id_texts(ids, MAX_IDS);
    let ghost listed = texts_view(items@);
    let mut more = "+".to_owned();
    more.append(decimal_text((ids.len() - MAX_IDS) as u64).as_str());
    more.append(" more");
    items.push(more);
    assert(texts_view(items@) =~= listed.push(more@));
    join_texts(&items, ",")
}

/// How many issues are of a kind.
pub open spec fn kind_count(issues: Seq<AuditIssueDto>, kind: Seq<char>) -> nat
    decreases issues.len(),
{
    if issues.len() == 0 {
        0
    } else {
        kind_count(issues.drop_last(), kind) + (if issues.last().kind@ == kind {
            1nat
        } else {
            0
        })
    }
}

/// The sheets of the issues of a kind, issue after issue.
pub open spec fn kind_sheets(issues: Seq<AuditIssueDto>, kind: Seq<char>) -> Seq<usize>
    decreases issues.len(),
{
    if issues.len() == 0 {
        Seq::empty()
    } else if issues.last().kind@ == kind {
        kind_sheets(issues.drop_last(), kind).push(issues.last().sheet_index)
    } else {
        kind_sheets(issues.drop_last(), kind)
    }
}

/// The parts of the issues of a kind, issue after issue.
pub open spec fn kind_parts(issues: Seq<AuditIssueDto>, kind: Seq<char>) -> Seq<usize>
    decreases issues.len(),
{
    if issues.len() == 0 {
        Seq::empty()
    } else if issues.last().kind@ == kind {
        kind_parts(issues.drop_last(), kind) + issues.last().part_ids@
    } else {
        kind_parts(issues.drop_last(), kind)
    }
}

/// What the log says of one kind: how many, on which sheets, which parts. Only
/// the list of parts is cut off.
pub open spec fn kind_line(issues: Seq<AuditIssueDto>, kind: Seq<char>) -> Seq<char> {
    kind + " x"@ + decimal(kind_count(issues, kind)) + " on sheet(s) "@ + full_list(
        distinct_ids(kind_sheets(issues, kind)),
    ) + " (parts "@ + capped_list(distinct_ids(kind_parts(issues, kind))) + ")"@
}

/// Whether a list holds exactly the kinds that occur, each once, in the order
/// of their names.
pub open spec fn lists_kinds(kinds: Seq<Seq<char>>, issues: Seq<AuditIssueDto>) -> bool {
    &&& rising(kinds, |a: Seq<char>, b: Seq<char>| text_before(a, b))
    &&& forall|kind: Seq<char>| kinds.contains(kind) <==> kind_count(issues, kind) > 0
}

/// The kinds that occur, each once, in the order of their names.
pub open spec fn kinds_of(issues: Seq<AuditIssueDto>) -> Seq<Seq<char>> {
    choose|kinds: Seq<Seq<char>>| lists_kinds(kinds, issues)
}

/// The issues by kind, as the log tells them.
pub open spec fn breakdown(issues: Seq<AuditIssueDto>) -> Seq<char> {
    joined(kinds_of(issues).map_values(|kind: Seq<char>| kind_line(issues, kind)), "; "@)
}

/// There is only one list of the kinds that occur.
pub proof fn law_kinds_are_listed_one_way(kinds: Seq<Seq<char>>, issues: Seq<AuditIssueDto>)
    requires
        lists_kinds(kinds, issues),
    ensures
        kinds_of(issues) == kinds,
{
    let chosen = kinds_of(issues);
    assert(lists_kinds(chosen, issues));
    let before = |a: Seq<char>, b: Seq<char>| text_before(a, b);
    lemma_text_orders();
    assert forall|x: Seq<char>| chosen.contains(x) <==> kinds.contains(x) by {
        assert(chosen.contains(x) <==> kind_count(issues, x) > 0);
    }
    lemma_rising_is_unique(chosen, kinds, before);
}

proof fn lemma_text_orders()
    ensures
        orders(|a: Seq<char>, b: Seq<char>| text_before(a, b)),
{
    let before = |a: Seq<char>, b: Seq<char>| text_before(a, b);
    assert forall|x: Seq<char>, y: Seq<char>| #[trigger] before(x, y) implies !before(y, x) by {
        law_text_order(x, y, x);
    }
    assert forall|x: Seq<char>, y: Seq<char>, z: Seq<char>| #[trigger]
        before(x, y) && #[trigger] before(y, z) implies before(x, z) by {
        law_text_order(x, y, z);
    }
    assert forall|x: Seq<char>, y: Seq<char>| #[trigger]
        before(x, y) || before(y, x) || x == y by {
        law_text_order(x, y, x);
    }
}

/// Puts a kind into the list, unless it is there.
fn insert_kind(kinds: &mut Vec<String>, kind: &String, issues: Ghost<Seq<AuditIssueDto>>)
    requires
        issues@.len() > 0,
        issues@.last().kind@ == kind@,
        lists_kinds(texts_view(old(kinds)@), issues@.drop_last()),
    ensures
        lists_kinds(texts_view(final(kinds)@), issues@),
{
    let ghost before = texts_view(kinds@);
    let mut at: usize = 0;
    while at < kinds.len() && comes_before(kinds[at].as_str(), kind.as_str())
        invariant
            at <= kinds.len(),
            before == texts_view(kinds@),
            forall|k: int| 0 <= k < at ==> text_before(#[trigger] before[k], kind@),
        decreases kinds.len() - at,
    {
        at += 1;
    }
    proof {
        lemma_text_orders();
        lemma_placed(
            before,
            at as int,
            kind@,
            |a: Seq<char>, b: Seq<char>| text_before(a, b),
        );
    }
    if at == kinds.len() || !same_text(kinds[at].as_str(), kind.as_str()) {
        kinds.insert(at, kind.clone());
        assert(texts_view(kinds@) =~= before.insert(at as int, kind@));
    }
    proof {
        let after = texts_view(kinds@);
        let rest = issues@.drop_last();
        assert forall|k: Seq<char>| after.contains(k) <==> kind_count(issues@, k) > 0 by {
            assert(before.contains(k) <==> kind_count(rest, k) > 0);
        }
    }
}

/// One kind's part of the log line.
fn kind_line_text(issues: &Vec<AuditIssueDto>, kind: &String) -> (r: String)
    ensures
        r@ == kind_line(issues@, kind@),
{
    let mut count: u64 = 0;
    let mut sheets: Vec<usize> = Vec::new();
    let mut parts: Vec<usize> = Vec::new();
    let mut i: usize = 0;
    proof {
        assert(issues@.subrange(0, 0).len() == 0);
    }
    while i < issues.len()
        invariant
            i <= issues.len(),
            count <= i,
            count == kind_count(issues@.subrange(0, i as int), kind@),
            lists_once(sheets@, kind_sheets(issues@.subrange(0, i as int), kind@)),
            lists_once(parts@, kind_parts(issues@.subrange(0, i as int), kind@)),
        decreases issues.len() - i,
    {
        let ghost done = issues@.subrange(0, i as int);
        let ghost next = issues@.subrange(0, i + 1);
        proof {
            assert(next.drop_last() == done);
            assert(next.last() == issues@[i as int]);
        }
        if same_text(issues[i].kind.as_str(), kind.as_str()) {
            count += 1;
            insert_id(&mut sheets, issues[i].sheet_index, Ghost(kind_sheets(done, kind@)));
            let ghost listed = kind_parts(done, kind@);
            let ids = &issues[i].part_ids;
            let mut k: usize = 0;
            assert(listed + ids@.subrange(0, 0) == listed);
            while k < ids.len()
                invariant
                    k <= ids.len(),
                    lists_once(parts@, listed + ids@.subrange(0, k as int)),
                decreases ids.len() - k,
            {
                insert_id(&mut parts, ids[k], Ghost(listed + ids@.subrange(0, k as int)));
                assert((listed + ids@.subrange(0, k as int)).push(ids@[k as int]) == listed
                    + ids@.subrange(0, k + 1));
                k += 1;
            }
            assert(ids@.subrange(0, ids@.len() as int) == ids@);
        }
        i += 1;
    }
    proof {
        assert(issues@.subrange(0, issues@.len() as int) == issues@);
        lemma_distinct_ids(sheets@, kind_sheets(issues@, kind@));
        lemma_distinct_ids(parts@, kind_parts(issues@, kind@));
    }
    let mut r = kind.clone();
    r.append(" x");
    r.append(decimal_text(count).as_str());
    r.append(" on sheet(s) ");
    r.append(full_text(&sheets).as_str());
    r.append(" (parts ");
    r.append(capped_text(&parts).as_str());
    r.append(")");
    r
}

/// The issues by kind in one line: how many of each, on which sheets, which
/// parts.
pub fn audit_breakdown(issues: &Vec<AuditIssueDto>) -> (r: String)
    ensures
        r@ == breakdown(issues@),
{
    let mut kinds: Vec<String> = Vec::new();
    let mut i: usize = 0;
    proof {
        let none = issues@.subrange(0, 0);
        assert forall|kind: Seq<char>| texts_view(kinds@).contains(kind) <==> kind_count(
            none,
            kind,
        ) > 0 by {}
        assert(lists_kinds(texts_view(kinds@), none));
    }
    while i < issues.len()
        invariant
            i <= issues.len(),
            lists_kinds(texts_view(kinds@), issues@.subrange(0, i as int)),
        decreases issues.len() - i,
    {
        proof {
            assert(issues@.subrange(0, i + 1).drop_last() == issues@.subrange(0, i as int));
            assert(issues@.subrange(0, i + 1).last() == issues@[i as int]);
        }
        insert_kind(&mut kinds, &issues[i].kind, Ghost(issues@.subrange(0, i + 1)));
        i += 1;
    }
    proof {
        assert(issues@.subrange(0, issues@.len() as int) == issues@);
        law_kinds_are_listed_one_way(texts_view(kinds@), issues@);
    }
    let mut lines: Vec<String> = Vec::new();
    let mut n: usize = 0;
    while n < kinds.len()
        invariant
            n <= kinds.len(),
            lines@.len() == n,
            forall|k: int| 0 <= k < n ==> (#[trigger] lines@[k])@ == kind_line(issues@, kinds@[k]@),
        decreases kinds.len() - n,
    {
        lines.push(kind_line_text(issues, &kinds[n]));
        n += 1;
    }
    assert(texts_view(lines@) =~= kinds_of(issues@).map_values(
        |kind: Seq<char>| kind_line(issues@, kind),
    ));
    join_texts(&lines, "; ")
}

/// What an issue holds.
#[verifier::ext_equal]
pub struct IssueModel {
    pub kind: Seq<char>,
    pub fatal: bool,
    pub sheet_index: usize,
    pub part_ids: Seq<usize>,
}

impl View for AuditIssueDto {
    type V = IssueModel;

    open spec fn view(&self) -> IssueModel {
        IssueModel {
            kind: self.kind@,
            fatal: self.fatal,
            sheet_index: self.sheet_index,
            part_ids: self.part_ids@,
        }
    }
}

/// What a list of issues holds.
pub open spec fn issues_view(issues: Seq<AuditIssueDto>) -> Seq<IssueModel> {
    issues.map_values(|issue: AuditIssueDto| issue@)
}

proof fn lemma_count_without(issues: Seq<AuditIssueDto>, at: int, kind: Seq<char>)
    requires
        0 <= at < issues.len(),
    ensures
        kind_count(issues, kind) == kind_count(issues.remove(at), kind) + (if issues[at].kind@
            == kind {
            1nat
        } else {
            0
        }),
    decreases issues.len(),
{
    let rest = issues.drop_last();
    if at == issues.len() - 1 {
        assert(issues.remove(at) =~= rest);
    } else {
        lemma_count_without(rest, at, kind);
        assert(issues.remove(at).drop_last() =~= rest.remove(at));
        assert(issues.remove(at).last() == issues.last());
    }
}

proof fn lemma_same_counts(a: Seq<AuditIssueDto>, b: Seq<AuditIssueDto>, kind: Seq<char>)
    requires
        issues_view(a).to_multiset() == issues_view(b).to_multiset(),
    ensures
        kind_count(a, kind) == kind_count(b, kind),
    decreases a.len(),
{
    let x = issues_view(a);
    let y = issues_view(b);
    x.to_multiset_ensures();
    y.to_multiset_ensures();
    if a.len() > 0 {
        assert(x.contains(x[a.len() - 1]));
        assert(y.to_multiset().count(x.last()) > 0);
        let at = choose|at: int| 0 <= at < y.len() && y[at] == x.last();
        let rest = a.drop_last();
        assert(issues_view(rest) =~= x.remove(a.len() - 1));
        assert(issues_view(b.remove(at)) =~= y.remove(at));
        lemma_same_counts(rest, b.remove(at), kind);
        lemma_count_without(b, at, kind);
    }
}

proof fn lemma_sheets_of_kind(issues: Seq<AuditIssueDto>, kind: Seq<char>, id: usize)
    ensures
        kind_sheets(issues, kind).contains(id) <==> exists|i: int|
            0 <= i < issues.len() && (#[trigger] issues_view(issues)[i]).kind == kind
                && issues_view(issues)[i].sheet_index == id,
    decreases issues.len(),
{
    if issues.len() > 0 {
        let rest = issues.drop_last();
        let all = issues_view(issues);
        lemma_sheets_of_kind(rest, kind, id);
        assert(issues_view(rest) =~= all.drop_last());
        let listed = kind_sheets(rest, kind);
        if kind_sheets(issues, kind).contains(id) {
            if listed.contains(id) {
                let i = choose|i: int|
                    0 <= i < rest.len() && (#[trigger] issues_view(rest)[i]).kind == kind
                        && issues_view(rest)[i].sheet_index == id;
                assert(all[i].kind == kind && all[i].sheet_index == id);
            } else {
                assert(all[rest.len() as int].kind == kind);
            }
        }
        if exists|i: int|
            0 <= i < issues.len() && (#[trigger] all[i]).kind == kind && all[i].sheet_index
                == id {
            let i = choose|i: int|
                0 <= i < issues.len() && (#[trigger] all[i]).kind == kind && all[i].sheet_index
                    == id;
            if i < rest.len() {
                assert(issues_view(rest)[i].kind == kind);
                let k = choose|k: int| 0 <= k < listed.len() && listed[k] == id;
                assert(kind_sheets(issues, kind)[k] == id);
            } else {
                assert(kind_sheets(issues, kind)[listed.len() as int] == id);
            }
        }
    }
}

proof fn lemma_parts_of_kind(issues: Seq<AuditIssueDto>, kind: Seq<char>, id: usize)
    ensures
        kind_parts(issues, kind).contains(id) <==> exists|i: int|
            0 <= i < issues.len() && (#[trigger] issues_view(issues)[i]).kind == kind
                && issues_view(issues)[i].part_ids.contains(id),
    decreases issues.len(),
{
    if issues.len() > 0 {
        let rest = issues.drop_last();
        let all = issues_view(issues);
        lemma_parts_of_kind(rest, kind, id);
        assert(issues_view(rest) =~= all.drop_last());
        let listed = kind_parts(rest, kind);
        let last = issues.last().part_ids@;
        if kind_parts(issues, kind).contains(id) {
            let k = choose|k: int|
                0 <= k < kind_parts(issues, kind).len() && kind_parts(issues, kind)[k] == id;
            if k < listed.len() {
                assert(listed[k] == id);
                let i = choose|i: int|
                    0 <= i < rest.len() && (#[trigger] issues_view(rest)[i]).kind == kind
                        && issues_view(rest)[i].part_ids.contains(id);
                assert(all[i].kind == kind && all[i].part_ids.contains(id));
            } else {
                assert(last[k - listed.len()] == id);
                assert(all[rest.len() as int].kind == kind);
            }
        }
        if exists|i: int|
            0 <= i < issues.len() && (#[trigger] all[i]).kind == kind
                && all[i].part_ids.contains(id) {
            let i = choose|i: int|
                0 <= i < issues.len() && (#[trigger] all[i]).kind == kind
                    && all[i].part_ids.contains(id);
            if i < rest.len() {
                assert(issues_view(rest)[i].kind == kind);
                let k = choose|k: int| 0 <= k < listed.len() && listed[k] == id;
                assert(kind_parts(issues, kind)[k] == id);
            } else {
                let k = choose|k: int| 0 <= k < last.len() && last[k] == id;
                assert(kind_parts(issues, kind)[listed.len() + k] == id);
            }
        }
    }
}

proof fn lemma_same_issues_occur(a: Seq<AuditIssueDto>, b: Seq<AuditIssueDto>, i: int) -> (j: int)
    requires
        issues_view(a).to_multiset() == issues_view(b).to_multiset(),
        0 <= i < a.len(),
    ensures
        0 <= j < b.len(),
        issues_view(b)[j] == issues_view(a)[i],
{
    let x = issues_view(a);
    let y = issues_view(b);
    x.to_multiset_ensures();
    y.to_multiset_ensures();
    assert(x.contains(x[i]));
    assert(y.to_multiset().count(x[i]) > 0);
    choose|j: int| 0 <= j < y.len() && y[j] == x[i]
}

proof fn lemma_same_ids(a: Seq<AuditIssueDto>, b: Seq<AuditIssueDto>, kind: Seq<char>, id: usize)
    requires
        issues_view(a).to_multiset() == issues_view(b).to_multiset(),
    ensures
        kind_sheets(a, kind).contains(id) ==> kind_sheets(b, kind).contains(id),
        kind_parts(a, kind).contains(id) ==> kind_parts(b, kind).contains(id),
{
    let x = issues_view(a);
    lemma_sheets_of_kind(a, kind, id);
    lemma_sheets_of_kind(b, kind, id);
    lemma_parts_of_kind(a, kind, id);
    lemma_parts_of_kind(b, kind, id);
    if kind_sheets(a, kind).contains(id) {
        let i = choose|i: int|
            0 <= i < a.len() && (#[trigger] x[i]).kind == kind && x[i].sheet_index == id;
        let j = lemma_same_issues_occur(a, b, i);
    }
    if kind_parts(a, kind).contains(id) {
        let i = choose|i: int|
            0 <= i < a.len() && (#[trigger] x[i]).kind == kind && x[i].part_ids.contains(id);
        let j = lemma_same_issues_occur(a, b, i);
    }
}

proof fn lemma_kind_occurs(issues: Seq<AuditIssueDto>, kind: Seq<char>)
    ensures
        kind_count(issues, kind) > 0 <==> issues_view(issues).map_values(
            |issue: IssueModel| issue.kind,
        ).contains(kind),
    decreases issues.len(),
{
    let kinds = issues_view(issues).map_values(|issue: IssueModel| issue.kind);
    if issues.len() > 0 {
        let rest = issues.drop_last();
        let fewer = issues_view(rest).map_values(|issue: IssueModel| issue.kind);
        lemma_kind_occurs(rest, kind);
        assert(kinds =~= fewer.push(issues.last().kind@));
        if fewer.contains(kind) {
            let k = choose|k: int| 0 <= k < fewer.len() && fewer[k] == kind;
            assert(kinds[k] == kind);
        }
        assert(kinds[fewer.len() as int] == issues.last().kind@);
        if kinds.contains(kind) && kind != issues.last().kind@ {
            let k = choose|k: int| 0 <= k < kinds.len() && kinds[k] == kind;
            assert(fewer[k] == kind);
        }
    }
}

/// The line has one clause for each kind that occurs, in the order of their
/// names. A clause names each sheet and each part once, ascending; the parts
/// are cut off after the first few, and only where there are more.
pub proof fn law_each_kind_is_told_once(issues: Seq<AuditIssueDto>, kind: Seq<char>)
    ensures
        lists_kinds(kinds_of(issues), issues),
        lists_once(distinct_ids(kind_sheets(issues, kind)), kind_sheets(issues, kind)),
        lists_once(distinct_ids(kind_parts(issues, kind)), kind_parts(issues, kind)),
        ({
            let parts = distinct_ids(kind_parts(issues, kind));
            let items = capped_items(parts);
            if parts.len() <= MAX_IDS {
                items == id_items(parts)
            } else {
                &&& items.len() == MAX_IDS + 1
                &&& items.drop_last() == id_items(parts).subrange(0, MAX_IDS as int)
                &&& items.last() == "+"@ + decimal((parts.len() - MAX_IDS) as nat) + " more"@
            }
        }),
{
    let named = issues_view(issues).map_values(|issue: IssueModel| issue.kind);
    lemma_text_orders();
    let kinds = lemma_can_be_listed(named, |a: Seq<char>, b: Seq<char>| text_before(a, b));
    assert forall|k: Seq<char>| kinds.contains(k) <==> kind_count(issues, k) > 0 by {
        lemma_kind_occurs(issues, k);
    }
    law_kinds_are_listed_one_way(kinds, issues);
    law_distinct_ids(kind_sheets(issues, kind), kind_sheets(issues, kind));
    law_distinct_ids(kind_parts(issues, kind), kind_parts(issues, kind));
    let parts = distinct_ids(kind_parts(issues, kind));
    if parts.len() > MAX_IDS {
        assert(capped_items(parts).drop_last() =~= id_items(parts).subrange(0, MAX_IDS as int));
    }
}

/// The order of the issues does not matter to the line.
pub proof fn law_issue_order_does_not_matter(a: Seq<AuditIssueDto>, b: Seq<AuditIssueDto>)
    requires
        issues_view(a).to_multiset() == issues_view(b).to_multiset(),
    ensures
        breakdown(a) == breakdown(b),
{
    let kinds = kinds_of(a);
    law_each_kind_is_told_once(a, Seq::empty());
    assert forall|k: Seq<char>| kinds.contains(k) <==> kind_count(b, k) > 0 by {
        lemma_same_counts(a, b, k);
    }
    law_kinds_are_listed_one_way(kinds, b);
    assert forall|k: Seq<char>| kind_line(a, k) == kind_line(b, k) by {
        lemma_same_counts(a, b, k);
        assert forall|id: usize| kind_sheets(a, k).contains(id) <==> kind_sheets(b, k).contains(
            id,
        ) by {
            lemma_same_ids(a, b, k, id);
            lemma_same_ids(b, a, k, id);
        }
        assert forall|id: usize| kind_parts(a, k).contains(id) <==> kind_parts(b, k).contains(
            id,
        ) by {
            lemma_same_ids(a, b, k, id);
            lemma_same_ids(b, a, k, id);
        }
        law_distinct_ids(kind_sheets(a, k), kind_sheets(b, k));
        law_distinct_ids(kind_parts(a, k), kind_parts(b, k));
    }
    assert(kinds.map_values(|k: Seq<char>| kind_line(a, k)) =~= kinds.map_values(
        |k: Seq<char>| kind_line(b, k),
    ));
}

/// A clean report adds nothing to the log line, and only a clean one does.
pub proof fn law_only_no_issues_add_nothing(issues: Seq<AuditIssueDto>)
    ensures
        breakdown(issues).len() == 0 <==> issues.len() == 0,
{
    law_each_kind_is_told_once(issues, Seq::empty());
    let kinds = kinds_of(issues);
    let lines = kinds.map_values(|kind: Seq<char>| kind_line(issues, kind));
    if issues.len() == 0 {
        if kinds.len() > 0 {
            assert(kinds.contains(kinds[0]));
        }
    } else {
        let kind = issues.last().kind@;
        assert(kind_count(issues, kind) > 0);
        assert(kinds.contains(kind));
        assert(lines.last() == kind_line(issues, kinds.last()));
        reveal_strlit(")");
        assert(lines.last().len() > 0);
    }
}

// --- the job report -------------------------------------------------------

/// How many issues the job report lists.
pub const MAX_REPORTED: usize = 12;

/// The block a job report prints of a check.
pub struct ReportAudit {
    pub passed: bool,
    pub headline: String,
    pub issues: Vec<String>,
}

/// The parts of an issue as a report names them: `#1 + #2`.
pub open spec fn parts_named(ids: Seq<usize>) -> Seq<char> {
    joined(ids.map_values(|id: usize| "#"@ + decimal(id as nat)), " + "@)
}

fn parts_text(ids: &Vec<usize>) -> (r: String)
    ensures
        r@ == parts_named(ids@),
{
    let mut items: Vec<String> = Vec::new();
    let mut i: usize = 0;
    while i < ids.len()
        invariant
            i <= ids.len(),
            items@.len() == i,
            forall|k: int|
                0 <= k < i ==> (#[trigger] items@[k])@ == "#"@ + decimal(ids@[k] as nat),
        decreases ids.len() - i,
    {
        let mut item = "#".to_owned();
        item.append(decimal_text(ids[i] as u64).as_str());
        items.push(item);
        i += 1;
    }
    assert(texts_view(items@) =~= ids@.map_values(|id: usize| "#"@ + decimal(id as nat)));
    join_texts(&items, " + ")
}

/// A kind as the job report prints it; one it does not know is printed as it
/// is.
pub open spec fn printed_kind(kind: Seq<char>) -> Seq<char> {
    if kind == "overlap"@ {
        "OVERLAP"@
    } else if kind == "outside_sheet"@ {
        "OFF THE SHEET"@
    } else if kind == "below_spacing"@ {
        "TOO CLOSE"@
    } else if kind == "outside_margin"@ {
        "INSIDE MARGIN"@
    } else {
        kind
    }
}

/// One issue's line: its kind, its sheet counted from 1, its parts.
pub open spec fn issue_line(kind: Seq<char>, issue: AuditIssueDto) -> Seq<char> {
    kind + " - sheet "@ + decimal((issue.sheet_index + 1) as nat) + ", "@ + parts_named(
        issue.part_ids@,
    )
}

/// One issue's line under a given name of its kind.
fn issue_text(kind: &str, issue: &AuditIssueDto) -> (r: String)
    requires
        issue.sheet_index < usize::MAX,
    ensures
        r@ == issue_line(kind@, *issue),
{
    let mut r = kind.to_owned();
    r.append(" - sheet ");
    r.append(decimal_text((issue.sheet_index + 1) as u64).as_str());
    r.append(", ");
    r.append(parts_text(&issue.part_ids).as_str());
    r
}

/// The heading of a check that ran.
pub open spec fn headline(report: AuditReportDto) -> Seq<char> {
    if !report.passed {
        "FAILED - "@ + decimal(report.fatal_count as nat) + " fatal issue(s), "@ + decimal(
            report.warning_count as nat,
        ) + " warning(s). DO NOT CUT."@
    } else if report.warning_count > 0 {
        "PASSED with "@ + decimal(report.warning_count as nat)
            + " warning(s) - cuttable, but not exactly as configured."@
    } else {
        "PASSED - no overlaps, every piece on its sheet, all clearances met."@
    }
}

/// The lines of a check that ran: the first few issues, and how many more there
/// are.
pub open spec fn report_lines(issues: Seq<AuditIssueDto>) -> Seq<Seq<char>> {
    let listed = if issues.len() > MAX_REPORTED {
        issues.subrange(0, MAX_REPORTED as int)
    } else {
        issues
    };
    let lines = listed.map_values(|i: AuditIssueDto| issue_line(printed_kind(i.kind@), i));
    if issues.len() > MAX_REPORTED {
        lines.push("...and "@ + decimal((issues.len() - MAX_REPORTED) as nat) + " more"@)
    } else {
        lines
    }
}

/// Whether sheets can be counted from 1.
pub open spec fn countable(issues: Seq<AuditIssueDto>) -> bool {
    forall|i: int| 0 <= i < issues.len() ==> (#[trigger] issues[i]).sheet_index < usize::MAX
}

/// The block a job report prints of a check. One that could not run is printed
/// as such and as not passed: leaving it out would read as nothing to report.
pub fn report_audit(result: Result<AuditReportDto, String>) -> (r: ReportAudit)
    requires
        result matches Ok(report) ==> countable(report.issues@),
    ensures
        match result {
            Ok(report) => {
                &&& r.passed == report.passed
                &&& r.headline@ == headline(report)
                &&& texts_view(r.issues@) == report_lines(report.issues@)
            },
            Err(e) => {
                &&& !r.passed
                &&& r.headline@
                    == "NOT CHECKED - the manufacturability check could not run ("@ + e@ + ")"@
                &&& r.issues@.len() == 0
            },
        },
{
    let report = match result {
        Ok(report) => report,
        Err(e) => {
            let mut headline = "NOT CHECKED - the manufacturability check could not run (".to_owned();
            headline.append(e.as_str());
            headline.append(")");
            return ReportAudit { passed: false, headline, issues: Vec::new() };
        },
    };
    let headline = if !report.passed {
        let mut h = "FAILED - ".to_owned();
        h.append(decimal_text(report.fatal_count as u64).as_str());
        h.append(" fatal issue(s), ");
        h.append(decimal_text(report.warning_count as u64).as_str());
        h.append(" warning(s). DO NOT CUT.");
        h
    } else if report.warning_count > 0 {
        let mut h = "PASSED with ".to_owned();
        h.append(decimal_text(report.warning_count as u64).as_str());
        h.append(" warning(s) - cuttable, but not exactly as configured.");
        h
    } else {
        "PASSED - no overlaps, every piece on its sheet, all clearances met.".to_owned()
    };
    let issues = &report.issues;
    let mut lines: Vec<String> = Vec::new();
    let mut i: usize = 0;
    while i < issues.len() && i < MAX_REPORTED
        invariant
            i <= issues.len(),
            i <= MAX_REPORTED,
            countable(issues@),
            lines@.len() == i,
            forall|k: int|
                0 <= k < i ==> (#[trigger] lines@[k])@ == issue_line(
                    printed_kind(issues@[k].kind@),
                    issues@[k],
                ),
        decreases issues.len() - i,
    {
        let kind = issues[i].kind.as_str();
        let printed = if same_text(kind, "overlap") {
            "OVERLAP"
        } else if same_text(kind, "outside_sheet") {
            "OFF THE SHEET"
        } else if same_text(kind, "below_spacing") {
            "TOO CLOSE"
        } else if same_text(kind, "outside_margin") {
            "INSIDE MARGIN"
        } else {
            kind
        };
        lines.push(issue_text(printed, &issues[i]));
        i += 1;
    }
    if issues.len() > MAX_REPORTED {
        let mut more = "...and ".to_owned();
        more.append(decimal_text((issues.len() - MAX_REPORTED) as u64).as_str());
        more.append(" more");
        lines.push(more);
    }
    assert(texts_view(lines@) =~= report_lines(issues@));
    ReportAudit { passed: report.passed, headline, issues: lines }
}

// --- the screen -----------------------------------------------------------

/// The key of a kind's translated name; a kind that has none is its own key.
pub open spec fn kind_key(kind: Seq<char>) -> Seq<char> {
    if kind == "overlap"@ {
        "audit_kind_overlap"@
    } else if kind == "outside_sheet"@ {
        "audit_kind_outside_sheet"@
    } else if kind == "below_spacing"@ {
        "audit_kind_below_spacing"@
    } else if kind == "outside_margin"@ {
        "audit_kind_outside_margin"@
    } else {
        kind
    }
}

/// The key of a kind's translated name.
pub fn audit_kind_key(kind: &str) -> (r: &str)
    ensures
        r@ == kind_key(kind@),
{
    if same_text(kind, "overlap") {
        "audit_kind_overlap"
    } else if same_text(kind, "outside_sheet") {
        "audit_kind_outside_sheet"
    } else if same_text(kind, "below_spacing") {
        "audit_kind_below_spacing"
    } else if same_text(kind, "outside_margin") {
        "audit_kind_outside_margin"
    } else {
        kind
    }
}

/// What the badge of a result stands for.
#[derive(Clone, Copy, PartialEq, Eq, Structural, Debug)]
pub enum Badge {
    /// A check is running.
    Checking,
    /// Nothing has checked this arrangement.
    Unknown,
    Failed,
    Warned,
    Passed,
}

/// What the badge says: unchecked and passed are never the same.
pub open spec fn badge_of(audit: Option<AuditReportDto>, auditing: bool) -> Badge {
    if auditing {
        Badge::Checking
    } else {
        match audit {
            None => Badge::Unknown,
            Some(report) => if !report.passed {
                Badge::Failed
            } else if report.warning_count > 0 {
                Badge::Warned
            } else {
                Badge::Passed
            },
        }
    }
}

/// What the badge says.
pub fn badge(audit: &Option<AuditReportDto>, auditing: bool) -> (r: Badge)
    ensures
        r == badge_of(*audit, auditing),
{
    if auditing {
        return Badge::Checking;
    }
    match audit {
        None => Badge::Unknown,
        Some(report) => if !report.passed {
            Badge::Failed
        } else if report.warning_count > 0 {
            Badge::Warned
        } else {
            Badge::Passed
        },
    }
}

impl Badge {
    /// The keys of the badge's text and of its explanation.
    pub fn keys(self) -> (r: (&'static str, &'static str))
        ensures
            (r.0@, r.1@) == match self {
                Badge::Checking => ("audit_checking"@, "audit_checking_tooltip"@),
                Badge::Unknown => ("audit_unknown"@, "audit_unknown_tooltip"@),
                Badge::Failed => ("audit_failed"@, "audit_failed_tooltip"@),
                Badge::Warned => ("audit_warned"@, "audit_warned_tooltip"@),
                Badge::Passed => ("audit_passed"@, "audit_passed_tooltip"@),
            },
    {
        match self {
            Badge::Checking => ("audit_checking", "audit_checking_tooltip"),
            Badge::Unknown => ("audit_unknown", "audit_unknown_tooltip"),
            Badge::Failed => ("audit_failed", "audit_failed_tooltip"),
            Badge::Warned => ("audit_warned", "audit_warned_tooltip"),
            Badge::Passed => ("audit_passed", "audit_passed_tooltip"),
        }
    }
}

/// How many issues the badge's detail lists.
pub const MAX_LISTED: usize = 8;

/// The lines of the first `count` issues, each on a line of its own.
pub open spec fn detail_lines(
    dicts: Dicts,
    lang: Lang,
    issues: Seq<AuditIssueDto>,
    count: int,
) -> Seq<char>
    decreases count,
{
    if count <= 0 {
        Seq::empty()
    } else {
        detail_lines(dicts, lang, issues, count - 1) + "\n"@ + issue_line(
            shown_text(dicts, lang, kind_key(issues[count - 1].kind@)),
            issues[count - 1],
        )
    }
}

/// The badge's detail: its explanation, then the first few issues, then how
/// many more there are.
pub open spec fn detail(
    dicts: Dicts,
    lang: Lang,
    audit: Option<AuditReportDto>,
    base: Seq<char>,
) -> Seq<char> {
    match audit {
        None => base,
        Some(report) => {
            let n = report.issues@.len();
            if n > MAX_LISTED {
                let more = decimal((n - MAX_LISTED) as nat);
                base + detail_lines(dicts, lang, report.issues@, MAX_LISTED as int)
                    + filled(shown_text(dicts, lang, "audit_more"@), seq![("n"@, more)])
            } else {
                base + detail_lines(dicts, lang, report.issues@, n as int)
            }
        },
    }
}

/// The badge's detail.
pub fn audit_detail(
    dicts: &Dicts,
    lang: Lang,
    audit: &Option<AuditReportDto>,
    base: &str,
) -> (r: String)
    requires
        dicts.wf(),
        audit matches Some(report) ==> countable(report.issues@),
    ensures
        r@ == detail(*dicts, lang, *audit, base@),
{
    let mut out = base.to_owned();
    match audit {
        None => {},
        Some(report) => {
            let issues = &report.issues;
            let mut i: usize = 0;
            assert(out@ + Seq::<char>::empty() =~= out@);
            while i < issues.len() && i < MAX_LISTED
                invariant
                    i <= issues.len(),
                    i <= MAX_LISTED,
                    dicts.wf(),
                    countable(issues@),
                    out@ == base@ + detail_lines(*dicts, lang, issues@, i as int),
                decreases issues.len() - i,
            {
                out.append("\n");
                let name = t(dicts, lang, audit_kind_key(issues[i].kind.as_str()));
                out.append(issue_text(name, &issues[i]).as_str());
                i += 1;
                assert(out@ =~= base@ + detail_lines(*dicts, lang, issues@, i as int));
            }
            if issues.len() > MAX_LISTED {
                let more = decimal_text((issues.len() - MAX_LISTED) as u64);
                out.append(tv_one(dicts, lang, "audit_more", "n", more.as_str()).as_str());
            }
        },
    }
    out
}

// --- what a check tells ---------------------------------------------------

/// Every finding of a check is told, in its order, with its kind by name, its
/// sheet, its parts and whether it is fatal; and the counts and the verdict are
/// those of the check.
pub proof fn law_every_finding_is_told(
    passed: bool,
    fatal: usize,
    warnings: usize,
    findings: &Vec<Finding>,
    r: AuditReportDto,
    i: int,
)
    requires
        call_ensures(audit_report, (passed, fatal, warnings, findings), r),
    ensures
        r.passed == passed,
        r.fatal_count == fatal,
        r.warning_count == warnings,
        r.issues@.len() == findings@.len(),
        0 <= i < findings@.len() ==> {
            let issue = r.issues@[i];
            let finding = findings@[i];
            &&& issue.fatal == finding.fatal
            &&& issue.sheet_index == finding.sheet_index
            &&& issue.part_ids@ == finding.part_ids@
            &&& finding.kind == IssueKind::Overlap ==> issue.kind@ == "overlap"@
            &&& finding.kind == IssueKind::OutsideSheet ==> issue.kind@ == "outside_sheet"@
            &&& finding.kind == IssueKind::BelowSpacing ==> issue.kind@ == "below_spacing"@
            &&& finding.kind == IssueKind::OutsideMargin ==> issue.kind@ == "outside_margin"@
        },
{
    if 0 <= i < findings@.len() {
        assert(tells(r.issues@[i], findings@[i]));
    }
}

/// A badge shows a pass only for a check that was made, is over, passed and
/// warned of nothing; and a failure exactly where one failed.
pub proof fn law_a_badge_never_flatters(
    audit: &Option<AuditReportDto>,
    auditing: bool,
    r: Badge,
)
    requires
        call_ensures(badge, (audit, auditing), r),
    ensures
        r == Badge::Checking <==> auditing,
        r == Badge::Unknown <==> !auditing && audit is None,
        r == Badge::Failed <==> !auditing && audit is Some && !audit->Some_0.passed,
        r == Badge::Warned <==> !auditing && audit is Some && audit->Some_0.passed
            && audit->Some_0.warning_count > 0,
        r == Badge::Passed <==> !auditing && audit is Some && audit->Some_0.passed
            && audit->Some_0.warning_count == 0,
{
}

/// The word for a check follows its counts: any fatal issue fails it, else any
/// warning warns.
pub proof fn law_one_fatal_issue_fails(audit: &AuditReportDto, r: &'static str)
    requires
        call_ensures(verdict, (audit,), r),
    ensures
        audit.fatal_count > 0 ==> r@ == "FAILED"@,
        audit.fatal_count == 0 && audit.warning_count > 0 ==> r@ == "WARNED"@,
        audit.fatal_count == 0 && audit.warning_count == 0 ==> r@ == "PASSED"@,
{
}

/// A printed check lists the issues in their order, one line each, the first
/// dozen and then how many more there are. It passes exactly where the check
/// was made and passed.
pub proof fn law_a_printed_check_lists_its_issues(
    result: Result<AuditReportDto, String>,
    r: ReportAudit,
    i: int,
)
    requires
        call_ensures(report_audit, (result,), r),
    ensures
        r.passed <==> result is Ok && result->Ok_0.passed,
        result is Err ==> r.issues@.len() == 0,
        result matches Ok(report) ==> {
            &&& report.issues@.len() <= 12 ==> r.issues@.len() == report.issues@.len()
            &&& report.issues@.len() > 12 ==> r.issues@.len() == 13
            &&& 0 <= i < report.issues@.len() && i < 12 ==> r.issues@[i]@ == printed_kind(
                report.issues@[i].kind@,
            ) + " - sheet "@ + decimal((report.issues@[i].sheet_index + 1) as nat) + ", "@
                + joined(
                report.issues@[i].part_ids@.map_values(|id: usize| "#"@ + decimal(id as nat)),
                " + "@,
            )
        },
{
    if result is Ok {
        let lines = texts_view(r.issues@);
        assert(lines == report_lines(result->Ok_0.issues@));
        assert(lines.len() == r.issues@.len());
        if 0 <= i < lines.len() {
            assert(lines[i] == r.issues@[i]@);
        }
    }
}

/// The issues of a kind.
pub open spec fn of_kind(issues: Seq<AuditIssueDto>, kind: Seq<char>) -> Seq<AuditIssueDto> {
    issues.filter(|i: AuditIssueDto| i.kind@ == kind)
}

/// A breakdown goes by what the issues are: of each kind it counts the issues of
/// that kind, and names the sheets and the parts of those issues and of no
/// others.
pub proof fn law_a_breakdown_counts_every_issue(
    issues: Seq<AuditIssueDto>,
    kind: Seq<char>,
    id: usize,
)
    ensures
        kind_count(issues, kind) == issues.filter(|i: AuditIssueDto| i.kind@ == kind).len(),
        kind_count(issues, kind) == of_kind(issues, kind).len(),
        kind_sheets(issues, kind).contains(id) <==> exists|i: int|
            0 <= i < issues.len() && (#[trigger] issues[i]).kind@ == kind
                && issues[i].sheet_index == id,
        kind_parts(issues, kind).contains(id) <==> exists|i: int|
            0 <= i < issues.len() && (#[trigger] issues[i]).kind@ == kind
                && issues[i].part_ids@.contains(id),
    decreases issues.len(),
{
    reveal(Seq::filter);
    if issues.len() > 0 {
        let rest = issues.drop_last();
        let last = issues.len() - 1;
        law_a_breakdown_counts_every_issue(rest, kind, id);
        assert(issues[last] == issues.last());
        assert forall|i: int| 0 <= i < rest.len() implies #[trigger] rest[i] == issues[i] by {}
        let sheets = kind_sheets(rest, kind);
        let parts = kind_parts(rest, kind);
        if exists|i: int|
            0 <= i < issues.len() && (#[trigger] issues[i]).kind@ == kind
                && issues[i].sheet_index == id {
            let i = choose|i: int|
                0 <= i < issues.len() && (#[trigger] issues[i]).kind@ == kind
                    && issues[i].sheet_index == id;
            if i < last {
                assert(rest[i].kind@ == kind);
                let k = choose|k: int| 0 <= k < sheets.len() && sheets[k] == id;
                assert(kind_sheets(issues, kind)[k] == id);
            } else {
                assert(kind_sheets(issues, kind)[sheets.len() as int] == id);
            }
        }
        if kind_sheets(issues, kind).contains(id) {
            let k = choose|k: int|
                0 <= k < kind_sheets(issues, kind).len() && kind_sheets(issues, kind)[k] == id;
            if k < sheets.len() {
                assert(sheets[k] == id);
                let i = choose|i: int|
                    0 <= i < rest.len() && (#[trigger] rest[i]).kind@ == kind
                        && rest[i].sheet_index == id;
                assert(issues[i].kind@ == kind);
            }
        }
        if exists|i: int|
            0 <= i < issues.len() && (#[trigger] issues[i]).kind@ == kind
                && issues[i].part_ids@.contains(id) {
            let i = choose|i: int|
                0 <= i < issues.len() && (#[trigger] issues[i]).kind@ == kind
                    && issues[i].part_ids@.contains(id);
            if i < last {
                assert(rest[i].kind@ == kind);
                let k = choose|k: int| 0 <= k < parts.len() && parts[k] == id;
                assert(kind_parts(issues, kind)[k] == id);
            } else {
                let own = issues[i].part_ids@;
                let k = choose|k: int| 0 <= k < own.len() && own[k] == id;
                assert(kind_parts(issues, kind)[parts.len() + k] == id);
            }
        }
        if kind_parts(issues, kind).contains(id) {
            let k = choose|k: int|
                0 <= k < kind_parts(issues, kind).len() && kind_parts(issues, kind)[k] == id;
            if k < parts.len() {
                assert(parts[k] == id);
                let i = choose|i: int|
                    0 <= i < rest.len() && (#[trigger] rest[i]).kind@ == kind
                        && rest[i].part_ids@.contains(id);
                assert(issues[i].kind@ == kind);
            } else {
                assert(issues.last().part_ids@[k - parts.len()] == id);
                assert(issues[last].kind@ == kind);
            }
        }
    }
}

/// A breakdown has one line for each kind of issue, in the order of their names,
/// with a semicolon between them: the kind, how many issues are of it, on which
/// sheets, and which parts they are about, the first eight of those and how many
/// more there are.
pub proof fn law_a_breakdown_has_a_line_for_each_kind(
    issues: &Vec<AuditIssueDto>,
    r: String,
    kinds: Seq<Seq<char>>,
    kind: Seq<char>,
    sheets: Seq<usize>,
    parts: Seq<usize>,
)
    requires
        call_ensures(audit_breakdown, (issues,), r),
        forall|i: int, j: int|
            0 <= i < j < kinds.len() ==> text_before(#[trigger] kinds[i], #[trigger] kinds[j]),
        forall|k: Seq<char>|
            (#[trigger] kinds.contains(k)) <==> of_kind(issues@, k).len() > 0,
        lists_once(sheets, kind_sheets(issues@, kind)),
        lists_once(parts, kind_parts(issues@, kind)),
    ensures
        r@ == joined(kinds.map_values(|k: Seq<char>| kind_line(issues@, k)), "; "@),
        kind_line(issues@, kind) == kind + " x"@ + decimal(
            of_kind(issues@, kind).len(),
        ) + " on sheet(s) "@ + joined(sheets.map_values(|id: usize| decimal(id as nat)), ","@)
            + " (parts "@ + joined(
            if parts.len() <= 8 {
                parts.map_values(|id: usize| decimal(id as nat))
            } else {
                parts.subrange(0, 8).map_values(|id: usize| decimal(id as nat)).push(
                    "+"@ + decimal((parts.len() - 8) as nat) + " more"@,
                )
            },
            ","@,
        ) + ")"@,
{
    let before = |a: Seq<char>, b: Seq<char>| text_before(a, b);
    assert(rising(kinds, before)) by {
        assert forall|i: int, j: int| 0 <= i < j < kinds.len() implies before(
            kinds[i],
            kinds[j],
        ) by {
            assert(text_before(kinds[i], kinds[j]));
        }
    }
    assert forall|k: Seq<char>| kinds.contains(k) <==> kind_count(issues@, k) > 0 by {
        law_a_breakdown_counts_every_issue(issues@, k, 0);
        assert(kinds.contains(k) <==> of_kind(issues@, k).len() > 0);
    }
    assert(lists_kinds(kinds, issues@));
    law_kinds_are_listed_one_way(kinds, issues@);
    law_a_breakdown_counts_every_issue(issues@, kind, 0);
    crate::order::lemma_distinct_ids(sheets, kind_sheets(issues@, kind));
    crate::order::lemma_distinct_ids(parts, kind_parts(issues@, kind));
}

/// The details of a check start from the text they are given, and each issue,
/// up to eight, adds a line: its kind in the language of the user, its sheet
/// counted from one, and its parts.
pub proof fn law_each_issue_adds_a_line(
    dicts: &Dicts,
    lang: Lang,
    base: &str,
    few: &Option<AuditReportDto>,
    more: &Option<AuditReportDto>,
    issue: AuditIssueDto,
    named: &str,
    key: &str,
    kind: &str,
    r: String,
    longer: String,
)
    requires
        few is Some,
        more is Some,
        few->Some_0.issues@.len() < 8,
        more->Some_0.issues@ == few->Some_0.issues@.push(issue),
        named@ == issue.kind@,
        call_ensures(audit_kind_key, (named,), key),
        call_ensures(crate::i18n::t, (dicts, lang, key), kind),
        call_ensures(audit_detail, (dicts, lang, few, base), r),
        call_ensures(audit_detail, (dicts, lang, more, base), longer),
    ensures
        few->Some_0.issues@.len() == 0 ==> r@ == base@,
        longer@ == r@ + ("\n"@ + (kind@ + " - sheet "@ + decimal((issue.sheet_index + 1) as nat)
            + ", "@ + joined(
            issue.part_ids@.map_values(|id: usize| "#"@ + decimal(id as nat)),
            " + "@,
        ))),
{
    let a = few->Some_0.issues@;
    let b = more->Some_0.issues@;
    let n = a.len() as int;
    lemma_detail_lines(*dicts, lang, a, b, n);
    assert(b[n] == issue);
    let line = issue_line(kind@, issue);
    assert(detail_lines(*dicts, lang, b, n + 1) == detail_lines(*dicts, lang, b, n) + "\n"@
        + line);
    assert(longer@ =~= r@ + ("\n"@ + line));
    if n == 0 {
        assert(r@ =~= base@);
    }
}

proof fn lemma_detail_lines(
    dicts: Dicts,
    lang: Lang,
    a: Seq<AuditIssueDto>,
    b: Seq<AuditIssueDto>,
    n: int,
)
    requires
        0 <= n <= a.len() <= b.len(),
        forall|i: int| 0 <= i < n ==> a[i] == b[i],
    ensures
        detail_lines(dicts, lang, a, n) == detail_lines(dicts, lang, b, n),
    decreases n,
{
    if n > 0 {
        lemma_detail_lines(dicts, lang, a, b, n - 1);
    }
}

/// A kind of issue is shown under the key of its own name, and one that is not
/// known as it is.
pub proof fn law_a_kind_has_its_own_key(kind: IssueKind, name: &'static str, key: &str)
    requires
        call_ensures(kind_name, (kind,), name),
        call_ensures(audit_kind_key, (name,), key),
    ensures
        key@ == "audit_kind_"@ + name@,
{
    reveal_strlit("overlap");
    reveal_strlit("outside_sheet");
    reveal_strlit("below_spacing");
    reveal_strlit("outside_margin");
    reveal_strlit("audit_kind_");
    reveal_strlit("audit_kind_overlap");
    reveal_strlit("audit_kind_outside_sheet");
    reveal_strlit("audit_kind_below_spacing");
    reveal_strlit("audit_kind_outside_margin");
    let n = name@;
    assert("overlap"@.len() == 7 && "outside_sheet"@.len() == 13 && "below_spacing"@.len() == 13
        && "outside_margin"@.len() == 14);
    assert("outside_sheet"@[0] == 'o' && "below_spacing"@[0] == 'b');
    match kind {
        IssueKind::Overlap => {
            assert(key@ =~= "audit_kind_"@ + n);
        },
        IssueKind::OutsideSheet => {
            assert(key@ =~= "audit_kind_"@ + n);
        },
        IssueKind::BelowSpacing => {
            assert(key@ =~= "audit_kind_"@ + n);
        },
        IssueKind::OutsideMargin => {
            assert(key@ =~= "audit_kind_"@ + n);
        },
    }
}

/// What a printed check says at its head: that it failed, with its counts and a
/// warning not to cut; that it passed with warnings; or that it passed.
pub proof fn law_a_printed_check_says_its_verdict(
    result: Result<AuditReportDto, String>,
    r: ReportAudit,
)
    requires
        call_ensures(report_audit, (result,), r),
    ensures
        result matches Ok(report) ==> {
            &&& !report.passed ==> r.headline@ == "FAILED - "@ + decimal(
                report.fatal_count as nat,
            ) + " fatal issue(s), "@ + decimal(report.warning_count as nat)
                + " warning(s). DO NOT CUT."@
            &&& report.passed && report.warning_count > 0 ==> r.headline@ == "PASSED with "@
                + decimal(report.warning_count as nat)
                + " warning(s) - cuttable, but not exactly as configured."@
            &&& report.passed && report.warning_count == 0 ==> r.headline@
                == "PASSED - no overlaps, every piece on its sheet, all clearances met."@
            &&& report.issues@.len() > 12 ==> r.issues@.last()@ == "...and "@ + decimal(
                (report.issues@.len() - 12) as nat,
            ) + " more"@
        },
        result matches Err(e) ==> r.headline@
            == "NOT CHECKED - the manufacturability check could not run ("@ + e@ + ")"@,
{
    if result is Ok {
        let lines = texts_view(r.issues@);
        assert(lines == report_lines(result->Ok_0.issues@));
        assert(lines.len() == r.issues@.len());
        if lines.len() > 0 {
            assert(lines.last() == r.issues@.last()@);
        }
    }
}

} // verus!
