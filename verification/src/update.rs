//! Whether there is a newer version.

use vstd::prelude::*;
use crate::text::{chars_of, read_whole, whole};

verus! {

/// Where releases are published.
pub const REPO: &'static str = "Glorfindel31/Nestor";

/// A published version.
#[derive(Debug)]
pub struct Release {
    /// The tag without its leading `v`.
    pub version: String,
    /// The page about it, for a person to read.
    pub url: String,
}

/// Where the newest release is asked for.
pub fn release_query() -> (r: String)
    ensures
        r@ == "https://api.github.com/repos/"@ + REPO@ + "/releases/latest"@,
{
    let mut r = "https://api.github.com/repos/".to_owned();
    r.append(REPO);
    r.append("/releases/latest");
    r
}

/// Whether a character ends one part of a version.
pub open spec fn separates(c: char) -> bool {
    c == '.' || c == '-' || c == '+'
}

/// Where the part of a version that begins at an index ends.
pub open spec fn part_end(text: Seq<char>, at: int) -> int
    decreases text.len() - at,
{
    if 0 <= at < text.len() && !separates(text[at]) {
        part_end(text, at + 1)
    } else {
        at
    }
}

/// The numbers of a version from an index on, up to the first part that is no
/// number.
pub open spec fn version_from(text: Seq<char>, at: int) -> Seq<nat>
    decreases text.len() - at,
    via version_from_decreases
{
    let end = part_end(text, at);
    match whole(text.subrange(at, end), u64::MAX as nat) {
        Some(n) => if 0 <= at && end < text.len() {
            seq![n] + version_from(text, end + 1)
        } else {
            seq![n]
        },
        None => Seq::empty(),
    }
}

#[via_fn]
proof fn version_from_decreases(text: Seq<char>, at: int) {
    lemma_part_end(text, at);
}

proof fn lemma_part_end(text: Seq<char>, at: int)
    ensures
        at <= part_end(text, at),
        at <= text.len() ==> part_end(text, at) <= text.len(),
    decreases text.len() - at,
{
    if 0 <= at < text.len() && !separates(text[at]) {
        lemma_part_end(text, at + 1);
    }
}

/// The numbers of a version: `2.6.0` is 2, 6, 0, and so is `2.6.0-rc1`.
pub open spec fn version_parts(text: Seq<char>) -> Seq<nat> {
    version_from(text, 0)
}

/// Whether one list of numbers comes after another from an index on: it is
/// greater where they first differ, or it goes on where the other ends.
pub open spec fn later_from(a: Seq<nat>, b: Seq<nat>, at: int) -> bool
    decreases a.len() - at,
{
    if at < 0 || at >= a.len() {
        false
    } else if at >= b.len() {
        true
    } else if a[at] != b[at] {
        a[at] > b[at]
    } else {
        later_from(a, b, at + 1)
    }
}

/// Whether one version comes after another.
pub open spec fn later(a: Seq<nat>, b: Seq<nat>) -> bool {
    later_from(a, b, 0)
}

/// What a list of numbers holds.
pub open spec fn numbers(list: Seq<u64>) -> Seq<nat> {
    list.map_values(|n: u64| n as nat)
}

fn parts(text: &str) -> (r: Vec<u64>)
    ensures
        numbers(r@) == version_parts(text@),
{
    let c = chars_of(text);
    let mut out: Vec<u64> = Vec::new();
    let mut at: usize = 0;
    assert(numbers(out@) + version_from(text@, 0) =~= version_parts(text@));
    loop
        invariant
            at <= c@.len(),
            c@ == text@,
            numbers(out@) + version_from(text@, at as int) == version_parts(text@),
        decreases c.len() - at,
    {
        let mut end: usize = at;
        proof {
            lemma_part_end(text@, at as int);
        }
        while end < c.len() && c[end] != '.' && c[end] != '-' && c[end] != '+'
            invariant
                at <= end <= c@.len(),
                c@ == text@,
                part_end(text@, at as int) == part_end(text@, end as int),
            decreases c.len() - end,
        {
            end += 1;
        }
        match read_whole(text.substring_char(at, end), u64::MAX) {
            Some(n) => {
                let ghost before = out@;
                out.push(n);
                assert(numbers(out@) =~= numbers(before).push(n as nat));
                if end == c.len() {
                    assert(numbers(out@) =~= version_parts(text@));
                    return out;
                }
                at = end + 1;
                assert(numbers(out@) + version_from(text@, at as int) =~= version_parts(text@));
            },
            None => {
                assert(numbers(out@) =~= version_parts(text@));
                return out;
            },
        }
    }
}

/// Whether a version is newer than the current one, number by number.
pub fn is_newer(candidate: &str, current: &str) -> (r: bool)
    ensures
        r == later(version_parts(candidate@), version_parts(current@)),
{
    let a = parts(candidate);
    let b = parts(current);
    let ghost x = numbers(a@);
    let ghost y = numbers(b@);
    let mut at: usize = 0;
    while at < a.len()
        invariant
            at <= a@.len(),
            x == numbers(a@),
            y == numbers(b@),
            later(x, y) == later_from(x, y, at as int),
            x == version_parts(candidate@),
            y == version_parts(current@),
        decreases a.len() - at,
    {
        assert(x[at as int] == a@[at as int]);
        if at >= b.len() {
            return true;
        }
        assert(y[at as int] == b@[at as int]);
        if a[at] != b[at] {
            return a[at] > b[at];
        }
        at += 1;
    }
    false
}

/// How many times the letter `v` stands at the start of a text.
pub open spec fn leading_v(text: Seq<char>, at: int) -> int
    decreases text.len() - at,
{
    if 0 <= at < text.len() && text[at] == 'v' {
        leading_v(text, at + 1)
    } else {
        at
    }
}

/// The version that a release's tag names.
pub open spec fn tag_version(tag: Seq<char>) -> Seq<char> {
    tag.subrange(leading_v(tag, 0), tag.len() as int)
}

/// Whether a release's tag names a version: one that starts with a number, once
/// the letters before it are off.
pub open spec fn names_version(tag: Seq<char>) -> bool {
    version_parts(tag_version(tag)).len() > 0
}

/// The release to tell the user about: the newest one, where it is newer than
/// the version that is running. A tag that names no version is an error, and
/// one that stops being a version partway counts as far as it is one.
pub fn newer_release(tag: &str, url: String, current: &str) -> (r: Result<Option<Release>, String>)
    ensures
        match r {
            Ok(Some(release)) => {
                &&& names_version(tag@)
                &&& later(version_parts(tag_version(tag@)), version_parts(current@))
                &&& release.version@ == tag_version(tag@)
                &&& release.url == url
            },
            Ok(None) => {
                &&& names_version(tag@)
                &&& !later(version_parts(tag_version(tag@)), version_parts(current@))
            },
            Err(message) => {
                &&& !names_version(tag@)
                &&& message@ == "the release tag names no version: "@ + tag@
            },
        },
{
    let c = chars_of(tag);
    let mut start: usize = 0;
    while start < c.len() && c[start] == 'v'
        invariant
            start <= c@.len(),
            c@ == tag@,
            leading_v(tag@, 0) == leading_v(tag@, start as int),
        decreases c.len() - start,
    {
        start += 1;
    }
    let version = tag.substring_char(start, c.len());
    if parts(version).len() == 0 {
        let mut message = "the release tag names no version: ".to_owned();
        message.append(tag);
        return Err(message);
    }
    if is_newer(version, current) {
        Ok(Some(Release { version: version.to_owned(), url }))
    } else {
        Ok(None)
    }
}

proof fn lemma_later_from(a: Seq<nat>, b: Seq<nat>, c: Seq<nat>, at: int)
    requires
        0 <= at,
    ensures
        !later_from(a, a, at),
        later_from(a, b, at) ==> !later_from(b, a, at),
        later_from(a, b, at) && later_from(b, c, at) ==> later_from(a, c, at),
    decreases a.len() - at,
{
    if at < a.len() {
        lemma_later_from(a, b, c, at + 1);
    }
}

proof fn lemma_neither_later(a: Seq<nat>, b: Seq<nat>, at: int)
    requires
        0 <= at <= a.len(),
        at <= b.len(),
        !later_from(a, b, at),
        !later_from(b, a, at),
    ensures
        a.len() == b.len(),
        forall|i: int| at <= i < a.len() ==> a[i] == b[i],
    decreases a.len() - at,
{
    if at < a.len() && at < b.len() {
        lemma_neither_later(a, b, at + 1);
    }
}

/// No version is newer than itself, no two are newer than each other, and what
/// is newer than a newer one is newer still; two versions of which neither is
/// newer have the same numbers.
pub proof fn law_newer_is_an_order(a: Seq<nat>, b: Seq<nat>, c: Seq<nat>)
    ensures
        !later(a, a),
        later(a, b) ==> !later(b, a),
        later(a, b) && later(b, c) ==> later(a, c),
        !later(a, b) && !later(b, a) ==> a == b,
{
    lemma_later_from(a, b, c, 0);
    if !later(a, b) && !later(b, a) {
        lemma_neither_later(a, b, 0);
        assert(a =~= b);
    }
}

// --- what comparing versions promises -------------------------------------

proof fn lemma_part_end_shift(text: Seq<char>, start: int, at: int)
    requires
        0 <= start <= text.len(),
        0 <= at <= text.len() - start,
    ensures
        part_end(text, start + at) == start + part_end(
            text.subrange(start, text.len() as int),
            at,
        ),
    decreases text.len() - start - at,
{
    let rest = text.subrange(start, text.len() as int);
    if at < rest.len() && !separates(rest[at]) {
        lemma_part_end_shift(text, start, at + 1);
    }
}

proof fn lemma_version_shift(text: Seq<char>, start: int, at: int)
    requires
        0 <= start <= text.len(),
        0 <= at <= text.len() - start,
    ensures
        version_from(text, start + at) == version_from(
            text.subrange(start, text.len() as int),
            at,
        ),
    decreases text.len() - start - at,
{
    let rest = text.subrange(start, text.len() as int);
    lemma_part_end_shift(text, start, at);
    lemma_part_end(rest, at);
    let end = part_end(rest, at);
    assert(text.subrange(start + at, start + end) =~= rest.subrange(at, end));
    if end < rest.len() {
        lemma_version_shift(text, start, end + 1);
    }
}

proof fn lemma_part_ends_at(text: Seq<char>, at: int, end: int)
    requires
        0 <= at <= end <= text.len(),
        forall|i: int| at <= i < end ==> !separates(#[trigger] text[i]),
        end < text.len() ==> separates(text[end]),
    ensures
        part_end(text, at) == end,
    decreases end - at,
{
    if at < end {
        lemma_part_ends_at(text, at + 1, end);
    }
}

proof fn lemma_later_shift(a: Seq<nat>, b: Seq<nat>, m: nat, n: nat, at: int)
    requires
        0 <= at,
    ensures
        later_from(seq![m] + a, seq![n] + b, at + 1) == later_from(a, b, at),
    decreases a.len() - at,
{
    let x = seq![m] + a;
    let y = seq![n] + b;
    if at < a.len() {
        assert(x[at + 1] == a[at]);
        if at < b.len() {
            assert(y[at + 1] == b[at]);
            lemma_later_shift(a, b, m, n, at + 1);
        }
    }
}

proof fn lemma_first_number(text: Seq<char>, first: Seq<char>, rest: Seq<char>, n: nat)
    requires
        text == first + seq!['.'] + rest,
        forall|i: int| 0 <= i < first.len() ==> !separates(#[trigger] first[i]),
        whole(first, u64::MAX as nat) == Some(n),
    ensures
        version_parts(text) == seq![n] + version_parts(rest),
{
    let k = first.len() as int;
    assert forall|i: int| 0 <= i < k implies !separates(#[trigger] text[i]) by {
        assert(text[i] == first[i]);
    }
    assert(text[k] == '.');
    lemma_part_ends_at(text, 0, k);
    assert(text.subrange(0, k) =~= first);
    assert(text.subrange(k + 1, text.len() as int) =~= rest);
    lemma_version_shift(text, k + 1, 0);
}

/// Of two versions the first number decides, and where it is the same, what
/// stands behind the point.
pub proof fn law_the_first_number_decides(
    candidate: &str,
    current: &str,
    a: Seq<char>,
    b: Seq<char>,
    m: nat,
    n: nat,
    rest: &str,
    other: &str,
    r: bool,
    of_rest: bool,
)
    requires
        candidate@ == a + seq!['.'] + rest@,
        current@ == b + seq!['.'] + other@,
        forall|i: int| 0 <= i < a.len() ==> !separates(#[trigger] a[i]),
        forall|i: int| 0 <= i < b.len() ==> !separates(#[trigger] b[i]),
        whole(a, u64::MAX as nat) == Some(m),
        whole(b, u64::MAX as nat) == Some(n),
        call_ensures(is_newer, (candidate, current), r),
        call_ensures(is_newer, (rest, other), of_rest),
    ensures
        m > n ==> r,
        m < n ==> !r,
        m == n ==> r == of_rest,
{
    lemma_first_number(candidate@, a, rest@, m);
    lemma_first_number(current@, b, other@, n);
    let x = version_parts(rest@);
    let y = version_parts(other@);
    lemma_later_shift(x, y, m, n, 0);
    assert((seq![m] + x)[0] == m && (seq![n] + y)[0] == n);
}

/// Of two versions of one number each the larger is newer, and no version is newer
/// than itself.
pub proof fn law_a_larger_number_is_newer(
    candidate: &str,
    current: &str,
    m: nat,
    n: nat,
    r: bool,
)
    requires
        forall|i: int| 0 <= i < candidate@.len() ==> !separates(#[trigger] candidate@[i]),
        forall|i: int| 0 <= i < current@.len() ==> !separates(#[trigger] current@[i]),
        whole(candidate@, u64::MAX as nat) == Some(m),
        whole(current@, u64::MAX as nat) == Some(n),
        call_ensures(is_newer, (candidate, current), r),
    ensures
        r <==> m > n,
{
    let a = candidate@;
    let b = current@;
    lemma_part_ends_at(a, 0, a.len() as int);
    lemma_part_ends_at(b, 0, b.len() as int);
    assert(a.subrange(0, a.len() as int) =~= a);
    assert(b.subrange(0, b.len() as int) =~= b);
    assert(version_parts(a) == seq![m] && version_parts(b) == seq![n]);
    reveal_with_fuel(later_from, 2);
}

proof fn lemma_leading_v(text: Seq<char>, at: int)
    requires
        0 <= at <= text.len(),
    ensures
        at <= leading_v(text, at) <= text.len(),
        forall|i: int| at <= i < leading_v(text, at) ==> text[i] == 'v',
        leading_v(text, at) < text.len() ==> text[leading_v(text, at)] != 'v',
    decreases text.len() - at,
{
    if at < text.len() && text[at] == 'v' {
        lemma_leading_v(text, at + 1);
    }
}

/// A release is offered exactly where its tag, without the letter before it,
/// names a version that is newer than the one in use; under that version and
/// with its page.
pub proof fn law_only_a_newer_release_is_offered(
    tag: &str,
    url: String,
    current: &str,
    plain: &str,
    newer: bool,
    r: Result<Option<Release>, String>,
)
    requires
        plain@.len() > 0 && plain@[0] != 'v',
        tag@ == plain@ || tag@ == seq!['v'] + plain@,
        call_ensures(is_newer, (plain, current), newer),
        call_ensures(newer_release, (tag, url, current), r),
    ensures
        r matches Ok(Some(release)) ==> newer && release.version@ == plain@ && release.url == url,
        r == Ok::<Option<Release>, String>(None) ==> !newer,
        newer ==> r is Ok && r->Ok_0 is Some,
{
    lemma_leading_v(tag@, 0);
    let at = leading_v(tag@, 0);
    if tag@ == plain@ {
        assert(at == 0);
        assert(tag@.subrange(0, tag@.len() as int) =~= plain@);
    } else {
        assert(tag@[0] == 'v' && tag@[1] == plain@[0]);
        assert(at == 1);
        assert(tag@.subrange(1, tag@.len() as int) =~= plain@);
    }
    if newer {
        assert(version_parts(plain@).len() > 0) by {
            if version_parts(plain@).len() == 0 {
                assert(!later(version_parts(plain@), version_parts(current@)));
            }
        }
    }
}

} // verus!
