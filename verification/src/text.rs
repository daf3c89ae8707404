//! Text: decimal numbers, joining, trimming, searching, comparing.

use vstd::prelude::*;

verus! {

/// The decimal digit for a value below ten.
pub open spec fn digit(value: nat) -> char {
    (48 + value) as char
}

/// A number in decimal, without leading zeros.
pub open spec fn decimal(n: nat) -> Seq<char>
    decreases n,
{
    if n < 10 {
        seq![digit(n)]
    } else {
        decimal(n / 10).push(digit(n % 10))
    }
}

/// A run of zeros.
pub open spec fn zeros(count: nat) -> Seq<char> {
    Seq::new(count, |i: int| '0')
}

/// A number in decimal, filled with leading zeros to at least `width` digits.
pub open spec fn padded(n: nat, width: nat) -> Seq<char> {
    let digits = decimal(n);
    if digits.len() >= width {
        digits
    } else {
        zeros((width - digits.len()) as nat) + digits
    }
}

fn digit_text(value: u64) -> (r: &'static str)
    requires
        value < 10,
    ensures
        r@ == seq![digit(value as nat)],
{
    proof {
        reveal_strlit("0");
        reveal_strlit("1");
        reveal_strlit("2");
        reveal_strlit("3");
        reveal_strlit("4");
        reveal_strlit("5");
        reveal_strlit("6");
        reveal_strlit("7");
        reveal_strlit("8");
        reveal_strlit("9");
    }
    let r = match value {
        0 => "0",
        1 => "1",
        2 => "2",
        3 => "3",
        4 => "4",
        5 => "5",
        6 => "6",
        7 => "7",
        8 => "8",
        _ => "9",
    };
    assert(r@ =~= seq![digit(value as nat)]);
    r
}

/// A number in decimal.
pub fn decimal_text(n: u64) -> (r: String)
    ensures
        r@ == decimal(n as nat),
    decreases n,
{
    if n < 10 {
        digit_text(n).to_owned()
    } else {
        let mut r = decimal_text(n / 10);
        r.append(digit_text(n % 10));
        assert(r@ =~= decimal((n / 10) as nat).push(digit((n % 10) as nat)));
        r
    }
}

/// A number in decimal, filled with leading zeros to at least `width` digits.
pub fn padded_text(n: u64, width: usize) -> (r: String)
    ensures
        r@ == padded(n as nat, width as nat),
{
    let digits = decimal_text(n);
    let have: usize = digits.as_str().unicode_len();
    let mut r = String::new();
    let mut count: usize = have;
    while count < width
        invariant
            have <= count,
            count <= width || count == have,
            r@ == zeros((count - have) as nat),
        decreases width - count,
    {
        let ghost before = r@;
        r.append("0");
        count += 1;
        proof {
            reveal_strlit("0");
            assert(r@ =~= zeros((count - have) as nat));
        }
    }
    r.append(digits.as_str());
    assert(r@ =~= padded(n as nat, width as nat));
    r
}

/// A number in decimal is all digits, and at least one.
pub proof fn law_decimal_is_digits(n: nat)
    ensures
        decimal(n).len() >= 1,
        forall|i: int| 0 <= i < decimal(n).len() ==> '0' <= #[trigger] decimal(n)[i] <= '9',
    decreases n,
{
    if n >= 10 {
        law_decimal_is_digits(n / 10);
    }
}

/// Whether two texts are the same.
pub fn same_text(a: &str, b: &str) -> (r: bool)
    ensures
        r == (a@ == b@),
{
    a.to_owned() == b.to_owned()
}

/// The characters of a text.
pub fn chars_of(text: &str) -> (r: Vec<char>)
    ensures
        r@ == text@,
{
    let mut out: Vec<char> = Vec::new();
    for c in it: text.chars()
        invariant
            out@ == it.seq().subrange(0, it.index() as int),
            it.seq() == text@,
    {
        out.push(c);
    }
    assert(out@ =~= text@);
    out
}

/// Whether `pattern` stands in `text` at an index.
pub open spec fn stands_at(text: Seq<char>, pattern: Seq<char>, at: int) -> bool {
    0 <= at && at + pattern.len() <= text.len() && text.subrange(at, at + pattern.len()) == pattern
}

/// Whether `pattern` stands anywhere in `text`.
pub open spec fn holds_text(text: Seq<char>, pattern: Seq<char>) -> bool {
    exists|at: int| #[trigger] stands_at(text, pattern, at)
}

/// `text` from an index on, with every occurrence of `pattern` replaced, from
/// left to right and without overlap.
pub open spec fn replaced_from(
    text: Seq<char>,
    pattern: Seq<char>,
    value: Seq<char>,
    at: int,
) -> Seq<char>
    decreases text.len() - at,
{
    if pattern.len() == 0 || at < 0 || at >= text.len() {
        Seq::empty()
    } else if stands_at(text, pattern, at) {
        value + replaced_from(text, pattern, value, at + pattern.len())
    } else {
        seq![text[at]] + replaced_from(text, pattern, value, at + 1)
    }
}

/// `text` with every occurrence of a non-empty `pattern` replaced.
pub open spec fn replaced(text: Seq<char>, pattern: Seq<char>, value: Seq<char>) -> Seq<char> {
    replaced_from(text, pattern, value, 0)
}

/// Whether `pattern` stands in `text` at an index.
pub fn is_at(text: &Vec<char>, pattern: &Vec<char>, at: usize) -> (r: bool)
    requires
        at <= text@.len(),
    ensures
        r == stands_at(text@, pattern@, at as int),
{
    if pattern.len() > text.len() - at {
        return false;
    }
    let mut i: usize = 0;
    while i < pattern.len()
        invariant
            i <= pattern.len(),
            at + pattern.len() <= text.len(),
            forall|k: int| 0 <= k < i ==> text@[at + k] == #[trigger] pattern@[k],
        decreases pattern.len() - i,
    {
        if text[at + i] != pattern[i] {
            assert(text@.subrange(at as int, at + pattern@.len())[i as int] != pattern@[i as int]);
            return false;
        }
        i += 1;
    }
    assert(text@.subrange(at as int, at + pattern@.len()) =~= pattern@);
    true
}

/// Whether `pattern` stands anywhere in `text`.
pub fn contains_text(text: &str, pattern: &str) -> (r: bool)
    ensures
        r == holds_text(text@, pattern@),
{
    let hay = chars_of(text);
    let needle = chars_of(pattern);
    let mut at: usize = 0;
    loop
        invariant
            at <= hay@.len(),
            hay@ == text@,
            needle@ == pattern@,
            forall|k: int| 0 <= k < at ==> !#[trigger] stands_at(text@, pattern@, k),
        decreases hay.len() - at,
    {
        if is_at(&hay, &needle, at) {
            return true;
        }
        if at == hay.len() {
            return false;
        }
        at += 1;
    }
}

/// `text` with every occurrence of a non-empty `pattern` replaced.
pub fn replace_text(text: &str, pattern: &str, value: &str) -> (r: String)
    requires
        pattern@.len() > 0,
    ensures
        r@ == replaced(text@, pattern@, value@),
{
    let hay = chars_of(text);
    let needle = chars_of(pattern);
    let mut out = String::new();
    let mut at: usize = 0;
    while at < hay.len()
        invariant
            at <= hay@.len(),
            hay@ == text@,
            needle@ == pattern@,
            pattern@.len() > 0,
            out@ + replaced_from(text@, pattern@, value@, at as int) == replaced(
                text@,
                pattern@,
                value@,
            ),
        decreases hay.len() - at,
    {
        let ghost before = out@;
        let ghost rest = replaced_from(text@, pattern@, value@, at as int);
        if is_at(&hay, &needle, at) {
            out.append(value);
            at += needle.len();
            proof {
                assert(before + rest =~= out@ + replaced_from(
                    text@,
                    pattern@,
                    value@,
                    at as int,
                ));
            }
        } else {
            out.append(text.substring_char(at, at + 1));
            at += 1;
            proof {
                assert(text@.subrange(at - 1, at as int) =~= seq![text@[at - 1]]);
                assert(before + rest =~= out@ + replaced_from(
                    text@,
                    pattern@,
                    value@,
                    at as int,
                ));
            }
        }
    }
    assert(out@ + Seq::<char>::empty() =~= out@);
    out
}

/// Texts strung together with a separator between each two.
pub open spec fn joined(texts: Seq<Seq<char>>, separator: Seq<char>) -> Seq<char>
    decreases texts.len(),
{
    if texts.len() == 0 {
        Seq::empty()
    } else if texts.len() == 1 {
        texts[0]
    } else {
        joined(texts.drop_last(), separator) + separator + texts.last()
    }
}

/// What a list of texts holds.
pub open spec fn texts_view(texts: Seq<String>) -> Seq<Seq<char>> {
    texts.map_values(|t: String| t@)
}

/// Texts strung together with a separator between each two.
pub fn join_texts(texts: &Vec<String>, separator: &str) -> (r: String)
    ensures
        r@ == joined(texts_view(texts@), separator@),
{
    let mut out = String::new();
    let mut i: usize = 0;
    let ghost all = texts_view(texts@);
    assert(all.subrange(0, 0).len() == 0);
    while i < texts.len()
        invariant
            i <= texts.len(),
            all == texts_view(texts@),
            out@ == joined(all.subrange(0, i as int), separator@),
        decreases texts.len() - i,
    {
        proof {
            assert(all.subrange(0, i + 1).drop_last() == all.subrange(0, i as int));
            assert(all.subrange(0, i + 1).last() == texts@[i as int]@);
        }
        if i > 0 {
            out.append(separator);
        }
        out.append(texts[i].as_str());
        proof {
            if i == 0 {
                assert(out@ =~= all.subrange(0, 1)[0]);
            }
        }
        i += 1;
    }
    assert(all.subrange(0, all.len() as int) == all);
    out
}

/// Whether one text comes strictly before another from an index on: at the
/// first difference its character is the lower, or it ends first.
pub open spec fn before_from(a: Seq<char>, b: Seq<char>, at: int) -> bool
    decreases b.len() - at,
{
    if at < 0 || at >= b.len() {
        false
    } else if at >= a.len() {
        true
    } else if a[at] != b[at] {
        a[at] < b[at]
    } else {
        before_from(a, b, at + 1)
    }
}

/// Whether one text comes strictly before another.
pub open spec fn text_before(a: Seq<char>, b: Seq<char>) -> bool {
    before_from(a, b, 0)
}

/// Whether one text comes strictly before another.
pub fn comes_before(a: &str, b: &str) -> (r: bool)
    ensures
        r == text_before(a@, b@),
{
    let x = chars_of(a);
    let y = chars_of(b);
    let mut at: usize = 0;
    while at < y.len()
        invariant
            at <= y@.len(),
            x@ == a@,
            y@ == b@,
            text_before(a@, b@) == before_from(a@, b@, at as int),
        decreases y.len() - at,
    {
        if at >= x.len() {
            return true;
        }
        if x[at] != y[at] {
            return x[at] < y[at];
        }
        at += 1;
    }
    false
}

proof fn lemma_before_is_strict(a: Seq<char>, b: Seq<char>, c: Seq<char>, at: int)
    requires
        0 <= at,
    ensures
        !before_from(a, a, at),
        before_from(a, b, at) ==> !before_from(b, a, at),
        before_from(a, b, at) && before_from(b, c, at) ==> before_from(a, c, at),
        at <= a.len() && at <= b.len() && !before_from(a, b, at) && !before_from(b, a, at)
            ==> a.subrange(at, a.len() as int) == b.subrange(at, b.len() as int),
    decreases a.len() + b.len() + c.len() - at,
{
    if at < a.len() || at < b.len() || at < c.len() {
        lemma_before_is_strict(a, b, c, at + 1);
        if at < a.len() && at < b.len() && a[at] == b[at] {
            let x = a.subrange(at, a.len() as int);
            let y = b.subrange(at, b.len() as int);
            if !before_from(a, b, at) && !before_from(b, a, at) {
                assert(a.subrange(at + 1, a.len() as int) == b.subrange(at + 1, b.len() as int));
                assert(x =~= seq![a[at]] + a.subrange(at + 1, a.len() as int));
                assert(y =~= seq![b[at]] + b.subrange(at + 1, b.len() as int));
            }
        }
    } else if at == a.len() && at == b.len() {
        assert(a.subrange(at, a.len() as int) =~= b.subrange(at, b.len() as int));
    }
}

/// The order of texts is a strict order that tells every two texts apart.
pub proof fn law_text_order(a: Seq<char>, b: Seq<char>, c: Seq<char>)
    ensures
        !text_before(a, a),
        text_before(a, b) ==> !text_before(b, a),
        text_before(a, b) && text_before(b, c) ==> text_before(a, c),
        !text_before(a, b) && !text_before(b, a) ==> a == b,
{
    lemma_before_is_strict(a, b, c, 0);
    assert(a.subrange(0, a.len() as int) == a);
    assert(b.subrange(0, b.len() as int) == b);
}

/// Replacing what does not occur changes nothing.
pub proof fn law_replacing_nothing_changes_nothing(
    text: Seq<char>,
    pattern: Seq<char>,
    value: Seq<char>,
)
    requires
        pattern.len() > 0,
        !holds_text(text, pattern),
    ensures
        replaced(text, pattern, value) == text,
{
    lemma_replacing_nothing(text, pattern, value, 0);
    assert(text.subrange(0, text.len() as int) == text);
}

proof fn lemma_replacing_nothing(text: Seq<char>, pattern: Seq<char>, value: Seq<char>, at: int)
    requires
        pattern.len() > 0,
        0 <= at <= text.len(),
        !holds_text(text, pattern),
    ensures
        replaced_from(text, pattern, value, at) == text.subrange(at, text.len() as int),
    decreases text.len() - at,
{
    if at < text.len() {
        assert(!stands_at(text, pattern, at));
        lemma_replacing_nothing(text, pattern, value, at + 1);
        assert(text.subrange(at, text.len() as int) =~= seq![text[at]] + text.subrange(
            at + 1,
            text.len() as int,
        ));
    } else {
        assert(text.subrange(at, text.len() as int) =~= Seq::<char>::empty());
    }
}

/// Whether a character is white space, as Unicode has it.
pub open spec fn is_blank(c: char) -> bool {
    let code = c as u32;
    ||| 9 <= code <= 13
    ||| code == 32
    ||| code == 0x85
    ||| code == 0xa0
    ||| code == 0x1680
    ||| 0x2000 <= code <= 0x200a
    ||| code == 0x2028
    ||| code == 0x2029
    ||| code == 0x202f
    ||| code == 0x205f
    ||| code == 0x3000
}

/// Whether a character is white space.
pub fn blank(c: char) -> (r: bool)
    ensures
        r == is_blank(c),
{
    let code: u32 = c as u32;
    (9 <= code && code <= 13) || code == 32 || code == 0x85 || code == 0xa0 || code == 0x1680 || (
    0x2000 <= code && code <= 0x200a) || code == 0x2028 || code == 0x2029 || code == 0x202f || code
        == 0x205f || code == 0x3000
}

/// How many white-space characters a text starts with.
pub open spec fn blank_start(text: Seq<char>, at: int) -> int
    decreases text.len() - at,
{
    if 0 <= at < text.len() && is_blank(text[at]) {
        blank_start(text, at + 1)
    } else {
        at
    }
}

/// Where the white space at the end of a text begins, not before `low`.
pub open spec fn blank_end(text: Seq<char>, low: int, at: int) -> int
    decreases at - low,
{
    if low < at <= text.len() && is_blank(text[at - 1]) {
        blank_end(text, low, at - 1)
    } else {
        at
    }
}

/// A text without the white space at its two ends.
pub open spec fn trimmed(text: Seq<char>) -> Seq<char> {
    let start = blank_start(text, 0);
    text.subrange(start, blank_end(text, start, text.len() as int))
}

/// A text without the white space at its two ends.
pub fn trim_text(text: &str) -> (r: &str)
    ensures
        r@ == trimmed(text@),
{
    let chars = chars_of(text);
    let mut start: usize = 0;
    while start < chars.len() && blank(chars[start])
        invariant
            start <= chars@.len(),
            chars@ == text@,
            blank_start(text@, 0) == blank_start(text@, start as int),
        decreases chars.len() - start,
    {
        start += 1;
    }
    let mut end: usize = chars.len();
    while end > start && blank(chars[end - 1])
        invariant
            start <= end <= chars@.len(),
            chars@ == text@,
            blank_end(text@, start as int, text@.len() as int) == blank_end(
                text@,
                start as int,
                end as int,
            ),
        decreases end,
    {
        end -= 1;
    }
    text.substring_char(start, end)
}

/// What trimming leaves neither starts nor ends with white space, and a text
/// that is nothing but white space leaves nothing.
pub proof fn law_trimmed_has_no_blank_ends(text: Seq<char>)
    ensures
        trimmed(text).len() > 0 ==> !is_blank(trimmed(text)[0]) && !is_blank(trimmed(text).last()),
{
    lemma_blank_start(text, 0);
    let start = blank_start(text, 0);
    lemma_blank_end(text, start, text.len() as int);
}

proof fn lemma_blank_start(text: Seq<char>, at: int)
    requires
        0 <= at <= text.len(),
    ensures
        at <= blank_start(text, at) <= text.len(),
        blank_start(text, at) < text.len() ==> !is_blank(text[blank_start(text, at)]),
    decreases text.len() - at,
{
    if at < text.len() && is_blank(text[at]) {
        lemma_blank_start(text, at + 1);
    }
}

proof fn lemma_blank_end(text: Seq<char>, low: int, at: int)
    requires
        0 <= low <= at <= text.len(),
    ensures
        low <= blank_end(text, low, at) <= at,
        blank_end(text, low, at) > low ==> !is_blank(text[blank_end(text, low, at) - 1]),
    decreases at - low,
{
    if low < at && is_blank(text[at - 1]) {
        lemma_blank_end(text, low, at - 1);
    }
}

/// Zero-filled numbers of one width sort as text as they sort as numbers.
pub proof fn law_padded_numbers_sort(a: nat, b: nat, width: nat)
    requires
        a < b,
        b < vstd::arithmetic::power::pow(10, width),
        width > 0,
    ensures
        text_before(padded(a, width), padded(b, width)),
    decreases width,
{
    vstd::arithmetic::power::lemma_pow1(10);
    if width == 1 {
        assert(padded(a, 1) =~= seq![digit(a)]);
        assert(padded(b, 1) =~= seq![digit(b)]);
        reveal_with_fuel(before_from, 2);
    } else {
        let less = (width - 1) as nat;
        vstd::arithmetic::power::lemma_pow_adds(10, 1, less);
        let p = vstd::arithmetic::power::pow(10, less);
        assert(vstd::arithmetic::power::pow(10, width) == 10 * p);
        lemma_padded_step(a, width);
        lemma_padded_step(b, width);
        lemma_padded_len(a / 10, less);
        lemma_padded_len(b / 10, less);
        let x = padded(a / 10, less);
        let y = padded(b / 10, less);
        if a / 10 < b / 10 {
            law_padded_numbers_sort(a / 10, b / 10, less);
            lemma_before_push(x, y, digit(a % 10), digit(b % 10), 0);
        } else {
            assert(x == y);
            lemma_same_push(x, digit(a % 10), digit(b % 10), 0);
        }
    }
}

proof fn lemma_padded_step(n: nat, width: nat)
    requires
        width >= 2,
    ensures
        padded(n, width) == padded(n / 10, (width - 1) as nat).push(digit(n % 10)),
{
    let left = padded(n, width);
    let right = padded(n / 10, (width - 1) as nat).push(digit(n % 10));
    if n < 10 {
        assert(decimal(0) =~= seq!['0']);
        assert(padded(0, (width - 1) as nat) =~= zeros((width - 1) as nat));
        assert(left =~= zeros((width - 1) as nat).push(digit(n)));
    } else {
        assert(decimal(n) == decimal(n / 10).push(digit(n % 10)));
        assert(left =~= right);
    }
}

proof fn lemma_padded_len(n: nat, width: nat)
    requires
        width > 0,
        n < vstd::arithmetic::power::pow(10, width),
    ensures
        padded(n, width).len() == width,
    decreases width,
{
    vstd::arithmetic::power::lemma_pow1(10);
    if width >= 2 {
        let less = (width - 1) as nat;
        vstd::arithmetic::power::lemma_pow_adds(10, 1, less);
        lemma_padded_step(n, width);
        lemma_padded_len(n / 10, less);
    }
}

proof fn lemma_before_push(x: Seq<char>, y: Seq<char>, c: char, d: char, at: int)
    requires
        x.len() == y.len(),
        0 <= at,
        before_from(x, y, at),
    ensures
        before_from(x.push(c), y.push(d), at),
    decreases y.len() - at,
{
    if at < y.len() && x[at] == y[at] {
        lemma_before_push(x, y, c, d, at + 1);
    }
}

proof fn lemma_same_push(x: Seq<char>, c: char, d: char, at: int)
    requires
        0 <= at <= x.len(),
        c < d,
    ensures
        before_from(x.push(c), x.push(d), at),
    decreases x.len() - at,
{
    if at < x.len() {
        lemma_same_push(x, c, d, at + 1);
    }
}

/// Whether a character is a decimal digit.
pub open spec fn is_digit(c: char) -> bool {
    '0' <= c <= '9'
}

/// The number that a run of decimal digits writes.
pub open spec fn digits_value(digits: Seq<char>) -> nat
    decreases digits.len(),
{
    if digits.len() == 0 {
        0
    } else {
        digits_value(digits.drop_last()) * 10 + (digits.last() as nat - 48) as nat
    }
}

/// A text without a leading plus sign.
pub open spec fn unsigned(text: Seq<char>) -> Seq<char> {
    if text.len() > 0 && text[0] == '+' {
        text.subrange(1, text.len() as int)
    } else {
        text
    }
}

/// The whole number that a text writes: digits, at least one, after an optional
/// plus sign, of a value no greater than `limit`.
pub open spec fn whole(text: Seq<char>, limit: nat) -> Option<nat> {
    let digits = unsigned(text);
    if digits.len() == 0 || !(forall|i: int|
        0 <= i < digits.len() ==> is_digit(#[trigger] digits[i])) || digits_value(digits) > limit {
        None
    } else {
        Some(digits_value(digits))
    }
}

/// More digits never make a smaller number.
proof fn lemma_digits_grow(digits: Seq<char>, n: int)
    requires
        0 <= n <= digits.len(),
    ensures
        digits_value(digits.subrange(0, n)) <= digits_value(digits),
    decreases digits.len(),
{
    if n == digits.len() {
        assert(digits.subrange(0, n) =~= digits);
    } else {
        let rest = digits.drop_last();
        lemma_digits_grow(rest, n);
        assert(rest.subrange(0, n) =~= digits.subrange(0, n));
    }
}

/// The whole number that a text writes.
pub fn read_whole(text: &str, limit: u64) -> (r: Option<u64>)
    ensures
        match r {
            Some(n) => whole(text@, limit as nat) == Some(n as nat),
            None => whole(text@, limit as nat) is None,
        },
{
    let chars = chars_of(text);
    let start: usize = if chars.len() > 0 && chars[0] == '+' {
        1
    } else {
        0
    };
    let ghost digits = unsigned(text@);
    assert(digits =~= chars@.subrange(start as int, chars@.len() as int));
    if start == chars.len() {
        return None;
    }
    let mut value: u64 = 0;
    let mut at: usize = start;
    assert(digits.subrange(0, 0) =~= Seq::<char>::empty());
    while at < chars.len()
        invariant
            start <= at <= chars@.len(),
            digits == chars@.subrange(start as int, chars@.len() as int),
            digits == unsigned(text@),
            value <= limit,
            value == digits_value(digits.subrange(0, at - start)),
            forall|i: int| 0 <= i < at - start ==> is_digit(#[trigger] digits[i]),
        decreases chars.len() - at,
    {
        let c: char = chars[at];
        assert(c == digits[at - start]);
        if c < '0' || c > '9' {
            return None;
        }
        let next: u128 = value as u128 * 10 + (c as u32 - 48) as u128;
        proof {
            let more = digits.subrange(0, at - start + 1);
            assert(more.drop_last() =~= digits.subrange(0, at - start));
            assert(more.last() == c);
            assert(next == digits_value(more));
            lemma_digits_grow(digits, at - start + 1);
        }
        if next > limit as u128 {
            return None;
        }
        value = next as u64;
        at += 1;
    }
    assert(digits.subrange(0, digits.len() as int) =~= digits);
    Some(value)
}

/// A number written in decimal reads back as itself.
pub proof fn law_decimal_reads_back(n: nat, limit: nat)
    requires
        n <= limit,
    ensures
        whole(decimal(n), limit) == Some(n),
{
    lemma_decimal_value(n);
    law_decimal_is_digits(n);
    assert(unsigned(decimal(n)) == decimal(n));
}

proof fn lemma_decimal_value(n: nat)
    ensures
        digits_value(decimal(n)) == n,
    decreases n,
{
    if n < 10 {
        let one = decimal(n);
        assert(one.drop_last() =~= Seq::<char>::empty());
        assert(one.last() == digit(n));
        assert(digits_value(one.drop_last()) == 0);
    } else {
        lemma_decimal_value(n / 10);
        let all = decimal(n);
        assert(all.drop_last() =~= decimal(n / 10));
        assert(all.last() == digit(n % 10));
    }
}

proof fn lemma_zeros_add_nothing(count: nat, digits: Seq<char>)
    ensures
        digits_value(zeros(count) + digits) == digits_value(digits),
    decreases digits.len(), count,
{
    let all = zeros(count) + digits;
    if digits.len() > 0 {
        lemma_zeros_add_nothing(count, digits.drop_last());
        assert(all.drop_last() =~= zeros(count) + digits.drop_last());
    } else if count > 0 {
        lemma_zeros_add_nothing((count - 1) as nat, digits);
        assert(all.drop_last() =~= zeros((count - 1) as nat) + digits);
        assert(all.last() == '0');
    } else {
        assert(all =~= digits);
    }
}

/// Numbers filled to the same width are the same only if the numbers are.
pub proof fn law_padded_numbers_differ(a: nat, b: nat, width: nat)
    ensures
        padded(a, width) == padded(b, width) ==> a == b,
{
    lemma_padded_value(a, width);
    lemma_padded_value(b, width);
}

proof fn lemma_padded_value(n: nat, width: nat)
    ensures
        digits_value(padded(n, width)) == n,
{
    lemma_decimal_value(n);
    if decimal(n).len() < width {
        lemma_zeros_add_nothing((width - decimal(n).len()) as nat, decimal(n));
    }
}

/// The lower-case form of an ASCII letter; every other character is itself.
pub open spec fn lower_ascii(c: char) -> char {
    if 'A' <= c <= 'Z' {
        (c as u32 + 32) as char
    } else {
        c
    }
}

/// A text with its ASCII letters in lower case.
pub open spec fn lowered(text: Seq<char>) -> Seq<char> {
    text.map_values(|c: char| lower_ascii(c))
}

/// The small letter at a place in the alphabet.
fn small_letter(place: usize) -> (r: &'static str)
    requires
        place < 26,
    ensures
        r@ == seq![(97 + place) as char],
{
    let alphabet = "abcdefghijklmnopqrstuvwxyz";
    proof {
        reveal_strlit("abcdefghijklmnopqrstuvwxyz");
        assert(alphabet@[place as int] == (97 + place) as char);
    }
    let r = alphabet.substring_char(place, place + 1);
    assert(r@ =~= seq![(97 + place) as char]);
    r
}

/// A text with its ASCII letters in lower case.
pub fn to_lowered(text: &str) -> (r: String)
    ensures
        r@ == lowered(text@),
{
    let chars = chars_of(text);
    let mut r = String::new();
    let mut i: usize = 0;
    assert(r@ =~= lowered(text@.subrange(0, 0)));
    while i < chars.len()
        invariant
            i <= chars.len(),
            chars@ == text@,
            r@ == lowered(text@.subrange(0, i as int)),
        decreases chars.len() - i,
    {
        let c: char = chars[i];
        let ghost before = r@;
        if 'A' <= c && c <= 'Z' {
            r.append(small_letter((c as u32 - 65) as usize));
        } else {
            r.append(text.substring_char(i, i + 1));
        }
        assert(r@ =~= before.push(lower_ascii(c)));
        assert(lowered(text@.subrange(0, i + 1)) =~= before.push(lower_ascii(c)));
        i += 1;
    }
    assert(text@.subrange(0, text@.len() as int) == text@);
    r
}

// --- what reading and writing texts promises ------------------------------

/// A number that is written reads back as that number, padded with zeros or not;
/// padding never makes it shorter than asked.
pub proof fn law_a_written_number_reads_back(
    n: u64,
    text: String,
    width: usize,
    wide: String,
    as_read: &str,
    read: Option<u64>,
)
    requires
        call_ensures(decimal_text, (n,), text),
        call_ensures(padded_text, (n, width), wide),
        as_read@ == text@ || as_read@ == wide@,
        call_ensures(read_whole, (as_read, u64::MAX), read),
    ensures
        read == Some(n),
        wide@.len() >= width,
        wide@.len() == width || wide@ == text@,
{
    law_decimal_reads_back(n as nat, u64::MAX as nat);
    law_decimal_is_digits(n as nat);
    lemma_padded_value(n as nat, width as nat);
    let digits = as_read@;
    assert forall|i: int| 0 <= i < digits.len() implies is_digit(#[trigger] digits[i]) by {
        let d = decimal(n as nat);
        if digits == wide@ && d.len() < width {
            let z = width - d.len();
            if i >= z {
                assert(digits[i] == d[i - z]);
            }
        }
    }
    assert(unsigned(digits) == digits);
}

/// A text that reads as a number, with one more digit behind it, reads as ten
/// times that number and the digit. A single digit reads as its own value, a
/// plus sign before a number changes nothing, and anything but digits reads as
/// no number.
pub proof fn law_a_digit_more_is_ten_times(
    text: &str,
    longer: &str,
    d: char,
    value: u64,
    limit: u64,
    read: Option<u64>,
    read_longer: Option<u64>,
)
    requires
        longer@ == text@.push(d),
        value < 10,
        d as u32 == 48 + value,
        call_ensures(read_whole, (text, limit), read),
        call_ensures(read_whole, (longer, limit), read_longer),
    ensures
        text@.len() == 0 && value <= limit ==> read_longer == Some(value),
        text@.len() == 0 ==> read is None,
        read is Some && 10 * read->Some_0 + value <= limit ==> read_longer == Some(
            (10 * read->Some_0 + value) as u64,
        ),
        read is Some && 10 * read->Some_0 + value > limit ==> read_longer is None,
{
    let a = unsigned(text@);
    let b = unsigned(longer@);
    if text@.len() > 0 {
        assert(text@[0] == longer@[0]);
    }
    assert(b =~= a.push(d));
    assert(b.drop_last() =~= a);
    assert(b.last() == d);
    if text@.len() == 0 {
        assert(digits_value(a) == 0);
    }
    if read is Some || text@.len() == 0 {
        assert forall|i: int| 0 <= i < b.len() implies is_digit(#[trigger] b[i]) by {
            if i < a.len() {
                assert(b[i] == a[i]);
                assert(is_digit(a[i]));
            }
        }
    }
}

/// A text with anything in it but digits, after a plus sign, is no number; nor is
/// one above the limit.
pub proof fn law_only_digits_are_a_number(text: &str, limit: u64, r: Option<u64>, i: int)
    requires
        call_ensures(read_whole, (text, limit), r),
        0 <= i < text@.len(),
    ensures
        r is Some && i > 0 ==> 48 <= text@[i] as u32 <= 57,
        r is Some && i == 0 ==> 48 <= text@[i] as u32 <= 57 || text@[i] == '+',
        r matches Some(n) ==> n <= limit,
{
    let d = unsigned(text@);
    if r is Some {
        if text@[0] == '+' {
            if i > 0 {
                assert(d[i - 1] == text@[i]);
                assert(is_digit(d[i - 1]));
            }
        } else {
            assert(d[i] == text@[i]);
            assert(is_digit(d[i]));
        }
    }
}

/// A number is written without a needless zero before it.
pub proof fn law_no_zero_leads(n: u64, text: String)
    requires
        call_ensures(decimal_text, (n,), text),
    ensures
        text@.len() > 0,
        n > 0 ==> text@[0] != '0',
        n == 0 ==> text@ == seq!['0'],
{
    law_decimal_is_digits(n as nat);
    lemma_no_zero_leads(n as nat);
}

proof fn lemma_no_zero_leads(n: nat)
    ensures
        decimal(n).len() > 0,
        n > 0 ==> decimal(n)[0] != '0',
    decreases n,
{
    if n >= 10 {
        lemma_no_zero_leads(n / 10);
        assert(decimal(n)[0] == decimal(n / 10)[0]);
    } else {
        assert(decimal(n)[0] == digit(n));
    }
}

/// A text holds another exactly where it is that text with something before and
/// after it.
pub proof fn law_a_held_text_stands_somewhere(
    text: &str,
    pattern: &str,
    r: bool,
    before: Seq<char>,
    after: Seq<char>,
)
    requires
        call_ensures(contains_text, (text, pattern), r),
    ensures
        text@ == before + pattern@ + after ==> r,
        r ==> exists|at: int|
            0 <= at <= text@.len() - pattern@.len() && text@ == #[trigger] text@.subrange(0, at)
                + pattern@ + text@.subrange(at + pattern@.len(), text@.len() as int),
{
    if text@ == before + pattern@ + after {
        let at = before.len() as int;
        assert(text@.subrange(at, at + pattern@.len()) =~= pattern@);
        assert(stands_at(text@, pattern@, at));
    }
    if r {
        let at = choose|at: int| #[trigger] stands_at(text@, pattern@, at);
        assert(text@ =~= text@.subrange(0, at) + text@.subrange(at, at + pattern@.len())
            + text@.subrange(at + pattern@.len(), text@.len() as int));
    }
}

proof fn lemma_replaced_shift(
    text: Seq<char>,
    pattern: Seq<char>,
    value: Seq<char>,
    start: int,
    at: int,
)
    requires
        0 <= start <= text.len(),
        0 <= at <= text.len() - start,
    ensures
        replaced_from(text, pattern, value, start + at) == replaced_from(
            text.subrange(start, text.len() as int),
            pattern,
            value,
            at,
        ),
    decreases text.len() - start - at,
{
    let rest = text.subrange(start, text.len() as int);
    if pattern.len() > 0 && at < rest.len() {
        if start + at + pattern.len() <= text.len() {
            assert(text.subrange(start + at, start + at + pattern.len()) =~= rest.subrange(
                at,
                at + pattern.len(),
            ));
        }
        assert(stands_at(text, pattern, start + at) == stands_at(rest, pattern, at));
        if stands_at(rest, pattern, at) {
            lemma_replaced_shift(text, pattern, value, start, (at + pattern.len()) as int);
        } else {
            lemma_replaced_shift(text, pattern, value, start, at + 1);
        }
    }
}

proof fn lemma_replaced_skips(
    text: Seq<char>,
    pattern: Seq<char>,
    value: Seq<char>,
    at: int,
    upto: int,
)
    requires
        pattern.len() > 0,
        0 <= at <= upto <= text.len(),
        forall|k: int| at <= k < upto ==> !stands_at(text, pattern, k),
    ensures
        replaced_from(text, pattern, value, at) == text.subrange(at, upto) + replaced_from(
            text,
            pattern,
            value,
            upto,
        ),
    decreases upto - at,
{
    if at < upto {
        assert(!stands_at(text, pattern, at));
        lemma_replaced_skips(text, pattern, value, at + 1, upto);
        assert(text.subrange(at, upto) =~= seq![text[at]] + text.subrange(at + 1, upto));
        assert(replaced_from(text, pattern, value, at) =~= text.subrange(at, upto)
            + replaced_from(text, pattern, value, upto));
    } else {
        assert(text.subrange(at, upto) =~= Seq::<char>::empty());
        assert(replaced_from(text, pattern, value, at) =~= text.subrange(at, upto)
            + replaced_from(text, pattern, value, upto));
    }
}

/// Replacing goes from the left: up to the first place where the pattern stands
/// the text stays, there the value stands in its place, and what comes after is
/// replaced in the same way. Where the pattern stands nowhere the text stays.
pub proof fn law_replacing_goes_from_the_left(
    text: &str,
    pattern: &str,
    value: &str,
    r: String,
    first: int,
    rest: &str,
    of_rest: String,
)
    requires
        pattern@.len() > 0,
        call_ensures(replace_text, (text, pattern, value), r),
        0 <= first <= text@.len() - pattern@.len(),
        text@.subrange(first, first + pattern@.len()) == pattern@,
        forall|k: int|
            0 <= k < first ==> #[trigger] text@.subrange(k, k + pattern@.len()) != pattern@,
        rest@ == text@.subrange(first + pattern@.len(), text@.len() as int),
        call_ensures(replace_text, (rest, pattern, value), of_rest),
    ensures
        r@ == text@.subrange(0, first) + value@ + of_rest@,
{
    let t = text@;
    let p = pattern@;
    let v = value@;
    assert forall|k: int| 0 <= k < first implies !stands_at(t, p, k) by {
        assert(t.subrange(k, k + p.len()) != p);
    }
    lemma_replaced_skips(t, p, v, 0, first);
    assert(stands_at(t, p, first));
    lemma_replaced_shift(t, p, v, (first + p.len()) as int, 0);
    assert(r@ =~= t.subrange(0, first) + v + of_rest@);
}

/// Joined texts stand in their order with the separator between each two: one
/// more text adds the separator and that text.
pub proof fn law_joining_adds_at_the_end(
    texts: &Vec<String>,
    more: &Vec<String>,
    last: String,
    separator: &str,
    r: String,
    longer: String,
)
    requires
        more@ == texts@.push(last),
        call_ensures(join_texts, (texts, separator), r),
        call_ensures(join_texts, (more, separator), longer),
    ensures
        texts@.len() == 0 ==> r@.len() == 0 && longer@ == last@,
        texts@.len() > 0 ==> longer@ == r@ + separator@ + last@,
{
    let a = texts_view(texts@);
    let b = texts_view(more@);
    assert(b.drop_last() =~= a);
    assert(b.last() == last@);
    if texts@.len() == 0 {
        assert(b[0] == last@);
    }
}

proof fn lemma_before_from(a: Seq<char>, b: Seq<char>, at: int, from: int)
    requires
        0 <= from <= at,
        at <= a.len(),
        at < b.len(),
        forall|i: int| from <= i < at ==> a[i] == b[i],
        at == a.len() || a[at] < b[at],
    ensures
        before_from(a, b, from),
    decreases at - from,
{
    if from < at {
        lemma_before_from(a, b, at, from + 1);
    }
}

/// A text comes before another where at the first place at which they differ it
/// has the smaller character, or where it ends and the other goes on.
pub proof fn law_texts_sort_by_their_first_difference(a: &str, b: &str, r: bool, at: int)
    requires
        call_ensures(comes_before, (a, b), r),
        0 <= at <= a@.len(),
        at <= b@.len(),
        forall|i: int| 0 <= i < at ==> a@[i] == b@[i],
    ensures
        at < a@.len() && at < b@.len() && a@[at] < b@[at] ==> r,
        at < a@.len() && at < b@.len() && b@[at] < a@[at] ==> !r,
        at == a@.len() && at < b@.len() ==> r,
        at == b@.len() ==> !r,
{
    law_text_order(a@, b@, a@);
    if at < b@.len() && (at == a@.len() || a@[at] < b@[at]) {
        lemma_before_from(a@, b@, at, 0);
    }
    if at < a@.len() && (at == b@.len() || b@[at] < a@[at]) {
        lemma_before_from(b@, a@, at, 0);
    }
    if at == a@.len() && at == b@.len() {
        assert(a@ =~= b@);
    }
}

proof fn lemma_blank_start_is_first(text: Seq<char>, at: int)
    requires
        0 <= at <= text.len(),
    ensures
        at <= blank_start(text, at) <= text.len(),
        forall|i: int| at <= i < blank_start(text, at) ==> is_blank(#[trigger] text[i]),
    decreases text.len() - at,
{
    if at < text.len() && is_blank(text[at]) {
        lemma_blank_start_is_first(text, at + 1);
    }
}

proof fn lemma_blank_end_is_last(text: Seq<char>, low: int, at: int)
    requires
        0 <= low <= at <= text.len(),
    ensures
        low <= blank_end(text, low, at) <= at,
        forall|i: int| blank_end(text, low, at) <= i < at ==> is_blank(#[trigger] text[i]),
    decreases at - low,
{
    if low < at && is_blank(text[at - 1]) {
        lemma_blank_end_is_last(text, low, at - 1);
    }
}

/// Trimming takes blanks off both ends, all of them, and nothing else.
pub proof fn law_trimming_takes_only_blanks(text: &str, r: &str)
    requires
        call_ensures(trim_text, (text,), r),
    ensures
        r@.len() > 0 ==> !is_blank(r@[0]) && !is_blank(r@.last()),
        exists|low: int, high: int|
            {
                &&& 0 <= low <= high <= text@.len()
                &&& r@ == #[trigger] text@.subrange(low, high)
                &&& forall|i: int|
                    0 <= i < text@.len() && !(low <= i < high) ==> is_blank(
                        #[trigger] text@[i],
                    )
            },
{
    let t = text@;
    law_trimmed_has_no_blank_ends(t);
    let low = blank_start(t, 0);
    lemma_blank_start_is_first(t, 0);
    let high = blank_end(t, low, t.len() as int);
    lemma_blank_end_is_last(t, low, t.len() as int);
    assert(r@ == t.subrange(low, high));
    assert forall|i: int| 0 <= i < t.len() && !(low <= i < high) implies is_blank(
        #[trigger] text@[i],
    ) by {
        assert(is_blank(t[i]));
    }
}

/// A blank is a space, a tab, the end of a line or a page, or one of the other
/// characters that are only white.
pub proof fn law_blanks_are_the_white_characters(c: char, r: bool)
    requires
        call_ensures(blank, (c,), r),
    ensures
        r <==> {
            let code = c as u32;
            ||| 9 <= code <= 13
            ||| code == 32 || code == 133 || code == 160 || code == 5760
            ||| 8192 <= code <= 8202
            ||| code == 8232 || code == 8233 || code == 8239 || code == 8287 || code == 12288
        },
{
}

/// In small letters every capital of the alphabet is its small letter, and every
/// other character is itself.
pub proof fn law_small_letters_change_only_capitals(text: &str, r: String, i: int)
    requires
        call_ensures(to_lowered, (text,), r),
    ensures
        r@.len() == text@.len(),
        0 <= i < text@.len() && 65 <= text@[i] as u32 <= 90 ==> r@[i] as u32 == text@[i] as u32
            + 32,
        0 <= i < text@.len() && !(65 <= text@[i] as u32 <= 90) ==> r@[i] == text@[i],
{
}

/// Texts are the same exactly where they hold the same characters.
pub proof fn law_the_same_text_is_the_same_characters(
    a: &str,
    b: &str,
    r: bool,
    chars: Vec<char>,
)
    requires
        call_ensures(same_text, (a, b), r),
        call_ensures(chars_of, (a,), chars),
    ensures
        r <==> a@ == b@,
        chars@ == a@,
{
}

/// A list of texts is its texts.
pub proof fn law_a_list_of_texts_is_its_texts(texts: Seq<String>, i: int)
    ensures
        texts_view(texts).len() == texts.len(),
        0 <= i < texts.len() ==> texts_view(texts)[i] == texts[i]@,
{
}

} // verus!
