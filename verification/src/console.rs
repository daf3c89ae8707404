//! The log: the newest lines for the screen, and each line's form on disk.

use std::collections::VecDeque;
use vstd::prelude::*;
use crate::text::{decimal, law_decimal_is_digits, padded, padded_text};

verus! {

/// How many lines the screen keeps. The log on disk keeps them all.
pub const MAX_LINES: usize = 500;

#[derive(Clone, Copy, PartialEq, Eq, Structural, Debug)]
pub enum Kind {
    Plain,
    /// A run starts or ends.
    Run,
    /// A better nest was found.
    Best,
    Error,
}

#[derive(Debug)]
pub struct Line {
    pub stamp: String,
    pub text: String,
    pub kind: Kind,
}

/// What a [`Line`] holds.
#[verifier::ext_equal]
pub struct LineModel {
    pub stamp: Seq<char>,
    pub text: Seq<char>,
    pub kind: Kind,
}

impl View for Line {
    type V = LineModel;

    open spec fn view(&self) -> LineModel {
        LineModel { stamp: self.stamp@, text: self.text@, kind: self.kind }
    }
}

/// The log as the screen shows it.
pub struct Console {
    pub lines: VecDeque<Line>,
    pub minimised: bool,
}

/// What a [`Console`] holds: the lines on screen, the oldest first.
#[verifier::ext_equal]
pub struct ConsoleModel {
    pub lines: Seq<LineModel>,
    pub minimised: bool,
}

impl View for Console {
    type V = ConsoleModel;

    open spec fn view(&self) -> ConsoleModel {
        ConsoleModel {
            lines: self.lines@.map_values(|l: Line| l@),
            minimised: self.minimised,
        }
    }
}

/// The last lines of a log, as many as the screen keeps.
pub open spec fn newest(lines: Seq<LineModel>) -> Seq<LineModel> {
    if lines.len() > MAX_LINES {
        lines.subrange(lines.len() - MAX_LINES, lines.len() as int)
    } else {
        lines
    }
}

/// A console with one more line: the oldest makes room where there are too
/// many.
pub open spec fn logged(console: ConsoleModel, line: LineModel) -> ConsoleModel {
    ConsoleModel { lines: newest(console.lines.push(line)), ..console }
}

/// A line's form on disk.
pub open spec fn disk_line(line: LineModel) -> Seq<char> {
    "["@ + line.stamp + "] "@ + line.text
}

/// The time of day of a moment, in UTC, as `HH:MM:SS`.
pub open spec fn clock(seconds: nat) -> Seq<char> {
    padded((seconds / 3600) % 24, 2) + ":"@ + padded((seconds / 60) % 60, 2) + ":"@ + padded(
        seconds % 60,
        2,
    )
}

impl Default for Console {
    fn default() -> (r: Self)
        ensures
            r@ == (ConsoleModel { lines: Seq::empty(), minimised: false }),
    {
        let r = Console { lines: VecDeque::new(), minimised: false };
        assert(r@.lines =~= Seq::<LineModel>::empty());
        r
    }
}

impl Console {
    /// How many lines the screen shows.
    pub fn len(&self) -> (r: usize)
        ensures
            r == self@.lines.len(),
    {
        self.lines.len()
    }

    /// Adds a line under a given time and returns its form for the log on
    /// disk. The oldest line makes room where there are too many.
    pub fn log_at(&mut self, stamp: String, kind: Kind, text: String) -> (disk: String)
        ensures
            final(self)@ == logged(
                old(self)@,
                LineModel { stamp: stamp@, text: text@, kind },
            ),
            disk@ == disk_line(LineModel { stamp: stamp@, text: text@, kind }),
    {
        let mut disk = "[".to_owned();
        disk.append(stamp.as_str());
        disk.append("] ");
        disk.append(text.as_str());
        let ghost before = self@.lines;
        let ghost line = LineModel { stamp: stamp@, text: text@, kind };
        self.lines.push_back(Line { stamp, text, kind });
        assert(self@.lines =~= before.push(line));
        let ghost all = self@.lines;
        while self.lines.len() > MAX_LINES
            invariant
                newest(self@.lines) == newest(all),
                self.minimised == old(self).minimised,
            decreases self.lines@.len(),
        {
            let ghost more = self@.lines;
            let _ = self.lines.pop_front();
            assert(self@.lines =~= more.subrange(1, more.len() as int));
            assert(newest(self@.lines) =~= newest(more));
        }
        disk
    }

    /// Adds a line under the present time and returns its form for the log on
    /// disk. Which time that is, is the clock's to say.
    pub fn log(&mut self, kind: Kind, text: String) -> (disk: String)
        ensures
            exists|seconds: nat|
                {
                    let line = LineModel { stamp: #[trigger] clock(seconds), text: text@, kind };
                    &&& final(self)@ == logged(old(self)@, line)
                    &&& disk@ == disk_line(line)
                },
    {
        let stamp = stamp_now();
        self.log_at(stamp, kind, text)
    }

    /// Adds an error line under the present time.
    pub fn error(&mut self, text: String) -> (disk: String)
        ensures
            exists|seconds: nat|
                {
                    let line = LineModel {
                        stamp: #[trigger] clock(seconds),
                        text: text@,
                        kind: Kind::Error,
                    };
                    &&& final(self)@ == logged(old(self)@, line)
                    &&& disk@ == disk_line(line)
                },
    {
        self.log(Kind::Error, text)
    }

    /// The lines on screen, the oldest first.
    pub fn iter(&self) -> (r: Vec<&Line>)
        ensures
            r@.len() == self@.lines.len(),
            forall|i: int| 0 <= i < r@.len() ==> (#[trigger] r@[i])@ == self@.lines[i],
    {
        let mut out: Vec<&Line> = Vec::new();
        let mut i: usize = 0;
        while i < self.lines.len()
            invariant
                i <= self.lines@.len(),
                out@.len() == i,
                forall|k: int| 0 <= k < i ==> (#[trigger] out@[k])@ == self@.lines[k],
            decreases self.lines@.len() - i,
        {
            out.push(&self.lines[i]);
            i += 1;
        }
        out
    }
}

/// The time of day of a moment given in seconds since 1970, in UTC.
pub fn stamp_at(seconds: u64) -> (r: String)
    ensures
        r@ == clock(seconds as nat),
{
    let mut r = padded_text((seconds / 3600) % 24, 2);
    r.append(":");
    r.append(padded_text((seconds / 60) % 60, 2).as_str());
    r.append(":");
    r.append(padded_text(seconds % 60, 2).as_str());
    r
}

/// The seconds since 1970 by `std::time::SystemTime`, or nothing where the
/// machine's clock stands before that. Nothing is said of the value.
#[verifier::external_body]
pub(crate) fn epoch_seconds() -> (r: Option<u64>) {
    std::time::SystemTime::now().duration_since(std::time::UNIX_EPOCH).ok().map(|d| d.as_secs())
}

/// The present time of day, in UTC.
pub fn stamp_now() -> (r: String)
    ensures
        exists|seconds: nat| r@ == #[trigger] clock(seconds),
{
    match epoch_seconds() {
        Some(seconds) => stamp_at(seconds),
        None => stamp_at(0),
    }
}

/// A number below a hundred takes two digits.
proof fn lemma_two_digits(n: nat)
    requires
        n < 100,
    ensures
        padded(n, 2).len() == 2,
        '0' <= padded(n, 2)[0] <= '9',
        '0' <= padded(n, 2)[1] <= '9',
{
    reveal_with_fuel(decimal, 2);
    law_decimal_is_digits(n);
    if n < 10 {
        assert(padded(n, 2) =~= seq!['0'] + decimal(n));
    }
}

/// A time stamp is always eight characters: three pairs of digits with a colon
/// between.
pub proof fn law_the_clock_is_fixed_width(seconds: nat)
    ensures
        clock(seconds).len() == 8,
        forall|i: int|
            0 <= i < 8 ==> if i == 2 || i == 5 {
                #[trigger] clock(seconds)[i] == ':'
            } else {
                '0' <= clock(seconds)[i] <= '9'
            },
{
    reveal_strlit(":");
    lemma_two_digits((seconds / 3600) % 24);
    lemma_two_digits((seconds / 60) % 60);
    lemma_two_digits(seconds % 60);
}

/// The screen never shows more than its limit, and always the newest line.
pub proof fn law_the_newest_lines_stay(lines: Seq<LineModel>, line: LineModel)
    ensures
        newest(lines.push(line)).len() <= MAX_LINES,
        newest(lines.push(line)).last() == line,
        newest(newest(lines).push(line)) == newest(lines.push(line)),
{
    assert(newest(newest(lines).push(line)) =~= newest(lines.push(line)));
}

// --- what the log promises ------------------------------------------------

/// A line that is logged stands behind the others as it was given; the others
/// keep their order, and beyond five hundred the oldest goes. What is written to
/// disk is the moment in brackets and the text.
pub proof fn law_a_logged_line_is_last(
    console: &mut Console,
    stamp: String,
    kind: Kind,
    text: String,
    disk: String,
    i: int,
)
    requires
        call_ensures(Console::log_at, (console, stamp, kind, text), disk),
        old(console).lines@.len() <= 500,
    ensures
        final(console).lines@.len() > 0,
        final(console).lines@.last().stamp@ == stamp@,
        final(console).lines@.last().text@ == text@,
        final(console).lines@.last().kind == kind,
        old(console).lines@.len() < 500 ==> final(console).lines@.len() == old(
            console).lines@.len() + 1,
        old(console).lines@.len() == 500 ==> final(console).lines@.len() == 500,
        old(console).lines@.len() < 500 && 0 <= i < old(console).lines@.len() ==> final(
            console).lines@[i]@ == old(console).lines@[i]@,
        old(console).lines@.len() == 500 && 0 <= i < 499 ==> final(console).lines@[i]@ == old(
            console).lines@[i + 1]@,
        final(console).minimised == old(console).minimised,
        disk@ == "["@ + stamp@ + "] "@ + text@,
{
    let a = final(console)@.lines;
    let b = old(console)@.lines;
    let line = LineModel { stamp: stamp@, text: text@, kind };
    assert(a == newest(b.push(line)));
    assert(a.len() == final(console).lines@.len() && b.len() == old(console).lines@.len());
    assert(a.last() == final(console).lines@.last()@);
    if 0 <= i < a.len() {
        assert(a[i] == final(console).lines@[i]@);
    }
    if 0 <= i < b.len() {
        assert(b[i] == old(console).lines@[i]@);
    }
    if 0 <= i < b.len() - 1 {
        assert(b[i + 1] == old(console).lines@[i + 1]@);
    }
}

/// The lines come out in the order in which they were logged.
pub proof fn law_lines_come_out_in_order(
    console: &Console,
    r: Vec<&Line>,
    n: usize,
    i: int,
)
    requires
        call_ensures(Console::iter, (console,), r),
        call_ensures(Console::len, (console,), n),
    ensures
        n == console.lines@.len(),
        r@.len() == console.lines@.len(),
        0 <= i < r@.len() ==> r@[i].text@ == console.lines@[i].text@ && r@[i].stamp@
            == console.lines@[i].stamp@ && r@[i].kind == console.lines@[i].kind,
{
    assert(console@.lines.len() == console.lines@.len());
    if 0 <= i < r@.len() {
        assert(r@[i]@ == console@.lines[i]);
        assert(console@.lines[i] == console.lines@[i]@);
    }
}

/// The clock shows the hour, the minute and the second of the day, two figures
/// each; a day later it shows the same.
pub proof fn law_the_clock_shows_the_time_of_day(
    days: nat,
    h: nat,
    m: nat,
    s: nat,
    moment: u64,
    shown: String,
)
    requires
        h < 24,
        m < 60,
        s < 60,
        moment == days * 86_400 + h * 3600 + m * 60 + s,
        call_ensures(stamp_at, (moment,), shown),
    ensures
        shown@ == padded(h, 2) + ":"@ + padded(m, 2) + ":"@ + padded(s, 2),
{
    lemma_time_of_day(moment as int, days as int, h as int, m as int, s as int);
}

proof fn lemma_time_of_day(moment: int, days: int, h: int, m: int, s: int)
    requires
        0 <= days,
        0 <= h < 24,
        0 <= m < 60,
        0 <= s < 60,
        moment == days * 86_400 + h * 3600 + m * 60 + s,
    ensures
        (moment / 3600) % 24 == h,
        (moment / 60) % 60 == m,
        moment % 60 == s,
{
    let hours = days * 24 + h;
    let minutes = hours * 60 + m;
    assert(moment == minutes * 60 + s);
    assert(moment == hours * 3600 + (m * 60 + s));
    vstd::arithmetic::div_mod::lemma_fundamental_div_mod_converse(
        moment,
        3600,
        hours,
        m * 60 + s,
    );
    vstd::arithmetic::div_mod::lemma_fundamental_div_mod_converse(moment, 60, minutes, s);
    vstd::arithmetic::div_mod::lemma_fundamental_div_mod_converse(hours, 24, days, h);
    vstd::arithmetic::div_mod::lemma_fundamental_div_mod_converse(minutes, 60, hours, m);
}

} // verus!
