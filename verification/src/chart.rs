//! A run's attempts: their chart, and what is said of each.

use vstd::prelude::*;
use crate::i18n::{filled, shown_text, t, tv, vars_view, Dicts};
use crate::result::NestSnapshotDto;
use crate::scalar::{stands_for_whole, Scalar};
use crate::session::App;
use crate::text::{decimal, decimal_text};

verus! {

/// Whether no attempt of a history left more over than a number.
pub open spec fn leaves_at_most(history: Seq<NestSnapshotDto>, most: int) -> bool {
    forall|i: int| 0 <= i < history.len() ==> (#[trigger] history[i]).unplaced_count <= most
}

/// What the unplaced parts of the attempts are drawn in proportion to: the most
/// that any attempt left. Nothing where no attempt left any; they are then not
/// drawn at all.
pub fn unplaced_scale(history: &Vec<NestSnapshotDto>) -> (r: Option<usize>)
    ensures
        match r {
            Some(peak) => {
                &&& peak > 0
                &&& exists|i: int|
                    0 <= i < history@.len() && (#[trigger] history@[i]).unplaced_count == peak
                &&& forall|i: int|
                    0 <= i < history@.len() ==> (#[trigger] history@[i]).unplaced_count <= peak
            },
            None => forall|i: int|
                0 <= i < history@.len() ==> (#[trigger] history@[i]).unplaced_count == 0,
        },
        leaves_at_most(
            history@,
            match r {
                Some(peak) => peak as int,
                None => 0,
            },
        ),
{
    let mut peak: usize = 0;
    let mut i: usize = 0;
    while i < history.len()
        invariant
            i <= history@.len(),
            peak > 0 ==> exists|k: int|
                0 <= k < i && (#[trigger] history@[k]).unplaced_count == peak,
            forall|k: int| 0 <= k < i ==> (#[trigger] history@[k]).unplaced_count <= peak,
        decreases history.len() - i,
    {
        if history[i].unplaced_count > peak {
            peak = history[i].unplaced_count;
        }
        i += 1;
    }
    if peak > 0 {
        Some(peak)
    } else {
        None
    }
}

/// The attempt at the right end of the chart. Attempts are spaced evenly; a
/// single one stands at the left.
pub fn last_index(count: usize) -> (r: usize)
    ensures
        r == if count == 0 {
            0
        } else {
            count - 1
        },
{
    if count == 0 {
        0
    } else {
        count - 1
    }
}

/// How full a sheet looks at a glance.
#[derive(Clone, Copy, PartialEq, Eq, Structural, Debug)]
pub enum Fullness {
    /// Three quarters full, or more.
    Good,
    /// Not that, but 45 percent full, or more.
    Fair,
    Poor,
}

/// 75.0
#[verifier::allow_in_spec]
pub fn good_from() -> Scalar
    returns
        (Scalar { bits: 0x4052_c000_0000_0000 }),
{
    Scalar { bits: 0x4052_c000_0000_0000 }
}

/// 45.0
#[verifier::allow_in_spec]
pub fn fair_from() -> Scalar
    returns
        (Scalar { bits: 0x4046_8000_0000_0000 }),
{
    Scalar { bits: 0x4046_8000_0000_0000 }
}

/// How full a sheet looks, by the percentage of it that is used.
pub fn fullness(used: Scalar) -> (r: Fullness)
    ensures
        r == if good_from().at_most(used) {
            Fullness::Good
        } else if fair_from().at_most(used) {
            Fullness::Fair
        } else {
            Fullness::Poor
        },
{
    if good_from().le(used) {
        Fullness::Good
    } else if fair_from().le(used) {
        Fullness::Fair
    } else {
        Fullness::Poor
    }
}

impl App {
    /// What an attempt is called in the list of attempts, counted from 1. The
    /// last one is the best.
    pub fn attempt_label(&self, index: usize, fitness: &str, dicts: &Dicts) -> (r: String)
        requires
            dicts.wf(),
            index < self.history@.len(),
        ensures
            r@ == filled(
                shown_text(*dicts, self.lang, "history_option"@),
                seq![
                    ("i"@, decimal((index + 1) as nat)),
                    ("gen"@, decimal(self.history@[index as int].generation as nat)),
                    (
                        "best"@,
                        if index == self.history@.len() - 1 {
                            shown_text(*dicts, self.lang, "history_best_suffix"@)
                        } else {
                            ""@
                        },
                    ),
                    ("fitness"@, fitness@),
                    ("unplaced"@, decimal(self.history@[index as int].unplaced_count as nat)),
                ],
            ),
    {
        let count: usize = self.history.len();
        assert(index < count);
        let number = decimal_text((index + 1) as u64);
        let generation = decimal_text(self.history[index].generation as u64);
        let unplaced = decimal_text(self.history[index].unplaced_count as u64);
        let best = if index == count - 1 {
            t(dicts, self.lang, "history_best_suffix")
        } else {
            ""
        };
        let vars = [
            ("i", number.as_str()),
            ("gen", generation.as_str()),
            ("best", best),
            ("fitness", fitness),
            ("unplaced", unplaced.as_str()),
        ];
        assert(vars_view(vars@) =~= seq![
            ("i"@, number@),
            ("gen"@, generation@),
            ("best"@, best@),
            ("fitness"@, fitness@),
            ("unplaced"@, unplaced@),
        ]);
        tv(dicts, self.lang, "history_option", &vars)
    }

    /// What is said of an attempt on the chart.
    pub fn readout(&self, index: usize, utilisation: &str, dicts: &Dicts) -> (r: String)
        requires
            dicts.wf(),
            index < self.history@.len(),
        ensures
            r@ == filled(
                shown_text(*dicts, self.lang, "chart_readout"@),
                seq![
                    ("i"@, decimal((index + 1) as nat)),
                    ("gen"@, decimal(self.history@[index as int].generation as nat)),
                    ("util"@, utilisation@),
                    ("unplaced"@, decimal(self.history@[index as int].unplaced_count as nat)),
                ],
            ),
    {
        let count: usize = self.history.len();
        assert(index < count);
        let number = decimal_text((index + 1) as u64);
        let generation = decimal_text(self.history[index].generation as u64);
        let unplaced = decimal_text(self.history[index].unplaced_count as u64);
        let vars = [
            ("i", number.as_str()),
            ("gen", generation.as_str()),
            ("util", utilisation),
            ("unplaced", unplaced.as_str()),
        ];
        assert(vars_view(vars@) =~= seq![
            ("i"@, number@),
            ("gen"@, generation@),
            ("util"@, utilisation@),
            ("unplaced"@, unplaced@),
        ]);
        tv(dicts, self.lang, "chart_readout", &vars)
    }

    /// The line under the result: how many sheets it takes, what it leaves and
    /// how much it uses.
    pub fn bottom_summary(&self, utilisation: &str, dicts: &Dicts) -> (r: Option<String>)
        requires
            dicts.wf(),
        ensures
            match self.snapshot {
                Some(s) => r matches Some(line) && line@ == filled(
                    shown_text(*dicts, self.lang, "bottom_bar_summary"@),
                    seq![
                        ("sheets"@, decimal(s.placements@.len())),
                        ("unplaced"@, decimal(s.unplaced_count as nat)),
                        ("util"@, utilisation@),
                    ],
                ),
                None => r is None,
            },
    {
        match &self.snapshot {
            Some(s) => {
                let sheets = decimal_text(s.placements.len() as u64);
                let unplaced = decimal_text(s.unplaced_count as u64);
                let vars = [
                    ("sheets", sheets.as_str()),
                    ("unplaced", unplaced.as_str()),
                    ("util", utilisation),
                ];
                assert(vars_view(vars@) =~= seq![
                    ("sheets"@, sheets@),
                    ("unplaced"@, unplaced@),
                    ("util"@, utilisation@),
                ]);
                Some(tv(dicts, self.lang, "bottom_bar_summary", &vars))
            },
            None => None,
        }
    }
}

// --- what the chart promises ----------------------------------------------

/// A sheet is well filled from three quarters on, fairly from forty-five percent
/// on, and else poorly.
pub proof fn law_fullness_goes_by_its_thresholds(used: Scalar, r: Fullness, good: Scalar, fair: Scalar)
    requires
        call_ensures(fullness, (used,), r),
        stands_for_whole(good, 6, 64, 75),
        stands_for_whole(fair, 5, 32, 45),
    ensures
        r == Fullness::Good <==> good.at_most(used),
        r == Fullness::Poor <==> !good.at_most(used) && !fair.at_most(used),
        r == Fullness::Fair <==> !good.at_most(used) && fair.at_most(used),
{
    assert(good.bits == 0x4052_c000_0000_0000) by {
        lemma_bits_of(good, 1029, 0x2_c000_0000_0000);
    }
    assert(fair.bits == 0x4046_8000_0000_0000) by {
        lemma_bits_of(fair, 1028, 0x6_8000_0000_0000);
    }
}

proof fn lemma_bits_of(s: Scalar, exponent: int, fraction: int)
    requires
        s.bits / 0x10_0000_0000_0000 == exponent,
        s.bits % 0x10_0000_0000_0000 == fraction,
    ensures
        s.bits == exponent * 0x10_0000_0000_0000 + fraction,
{
    vstd::arithmetic::div_mod::lemma_fundamental_div_mod(
        s.bits as int,
        0x10_0000_0000_0000,
    );
}

/// The chart of what was left over reaches up to the most that was ever left
/// over, and is missing where nothing was.
pub proof fn law_the_chart_reaches_its_peak(
    history: &Vec<NestSnapshotDto>,
    r: Option<usize>,
    i: int,
)
    requires
        call_ensures(unplaced_scale, (history,), r),
        0 <= i < history@.len(),
    ensures
        r matches Some(peak) ==> peak > 0 && history@[i].unplaced_count <= peak && exists|k: int|
            0 <= k < history@.len() && (#[trigger] history@[k]).unplaced_count == peak,
        r is None ==> history@[i].unplaced_count == 0,
{
}

/// The label of an attempt tells its place from one, its generation and what it
/// left over, and marks the last as the best; the line below the result tells
/// its sheets and what it left over.
pub proof fn law_labels_tell_their_attempt(
    app: &App,
    index: usize,
    fitness: &str,
    utilisation: &str,
    dicts: &Dicts,
    label: String,
    line: Option<String>,
)
    requires
        index < app.history@.len(),
        call_ensures(App::attempt_label, (app, index, fitness, dicts), label),
        call_ensures(App::bottom_summary, (app, utilisation, dicts), line),
    ensures
        label@ == filled(
            shown_text(*dicts, app.lang, "history_option"@),
            seq![
                ("i"@, decimal((index + 1) as nat)),
                ("gen"@, decimal(app.history@[index as int].generation as nat)),
                (
                    "best"@,
                    if index + 1 == app.history@.len() {
                        shown_text(*dicts, app.lang, "history_best_suffix"@)
                    } else {
                        ""@
                    },
                ),
                ("fitness"@, fitness@),
                ("unplaced"@, decimal(app.history@[index as int].unplaced_count as nat)),
            ],
        ),
        line is Some <==> app.snapshot is Some,
        line is Some ==> line->Some_0@ == filled(
            shown_text(*dicts, app.lang, "bottom_bar_summary"@),
            seq![
                ("sheets"@, decimal(app.snapshot->Some_0.placements@.len())),
                ("unplaced"@, decimal(app.snapshot->Some_0.unplaced_count as nat)),
                ("util"@, utilisation@),
            ],
        ),
{
}

} // verus!
