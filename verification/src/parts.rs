//! Turning a list of parts with quantities into individually numbered copies.

use std::collections::HashMap;
use vstd::prelude::*;
use vstd::seq_lib::*;
use crate::config::{job_problem, validate_job, NestConfigDto};
use crate::scalar::Scalar;
use crate::shape::{Outline, PolygonDto};

verus! {

broadcast use vstd::std_specs::hash::group_hash_axioms;

/// One part of a job and how many of it are wanted.
pub struct PartDto {
    pub polygon: PolygonDto,
    pub quantity: usize,
    /// The only angles, in degrees, the part may be placed at. Nothing, or an
    /// empty list, leaves it free.
    pub allowed_rotations: Option<Vec<Scalar>>,
    /// Whether the part may be flipped; nothing leaves it to the job.
    pub mirror: Option<bool>,
}

/// What constrains one part copy.
pub struct PartRuleDto {
    pub angles: Vec<Scalar>,
    pub mirror: bool,
}

/// What a [`PartRuleDto`] holds.
#[verifier::ext_equal]
pub struct RuleModel {
    pub angles: Seq<Scalar>,
    pub mirror: bool,
}

impl View for PartRuleDto {
    type V = RuleModel;

    open spec fn view(&self) -> RuleModel {
        RuleModel { angles: self.angles@, mirror: self.mirror }
    }
}

/// What geometry says about one part: the area of its bounding box and its
/// flipped outline.
pub struct PartMeasure {
    pub box_area: Scalar,
    pub mirrored: PolygonDto,
}

/// A job's parts, numbered copy by copy.
pub struct ExpandedParts {
    /// The copies in the order the search starts from: the largest bounding box
    /// first.
    pub adam: Vec<usize>,
    pub parts_by_id: HashMap<usize, PolygonDto>,
    /// Which part each copy is of; copies of one part share an id here.
    pub shape_ids: HashMap<usize, usize>,
    /// Only for copies that something constrains.
    pub part_rules: HashMap<usize, PartRuleDto>,
}

// --- angles ---------------------------------------------------------------

/// The angles that are numbers at all.
pub open spec fn finite_angles(angles: Seq<Scalar>) -> Seq<Scalar> {
    angles.filter(|a: Scalar| a.finite())
}

/// Whether a list is in the total order of its bit patterns.
pub open spec fn in_total_order(angles: Seq<Scalar>) -> bool {
    forall|i: int, j: int|
        0 <= i <= j < angles.len() ==> (#[trigger] angles[i]).total_rank() <= (
        #[trigger] angles[j]).total_rank()
}

/// Whether `kept` is `angles` with every angle dropped that is near the last
/// one kept before it.
pub open spec fn thinned<N: Fn(Scalar, Scalar) -> bool>(
    near: N,
    angles: Seq<Scalar>,
    kept: Seq<Scalar>,
) -> bool
    decreases angles.len(),
{
    if angles.len() == 0 {
        kept.len() == 0
    } else if angles.len() == 1 {
        kept == angles
    } else {
        ||| kept.len() > 0 && call_ensures(near, (angles.last(), kept.last()), true) && thinned(
            near,
            angles.drop_last(),
            kept,
        )
        ||| kept.len() > 1 && kept.last() == angles.last() && call_ensures(
            near,
            (angles.last(), kept[kept.len() - 2]),
            false,
        ) && thinned(near, angles.drop_last(), kept.drop_last())
    }
}

/// Whether `wrapped` is what wrapping made of each angle.
pub open spec fn wrapped_by<W: Fn(Scalar) -> Scalar>(
    wrap: W,
    angles: Seq<Scalar>,
    wrapped: Seq<Scalar>,
) -> bool {
    &&& wrapped.len() == angles.len()
    &&& forall|i: int|
        0 <= i < angles.len() ==> call_ensures(wrap, (#[trigger] angles[i],), wrapped[i])
}

/// Whether `kept` is what normalising makes of authored angles: what is not a
/// number is dropped, the rest is wrapped into one turn, put in order, and
/// thinned of near duplicates.
pub open spec fn normalized<W: Fn(Scalar) -> Scalar, N: Fn(Scalar, Scalar) -> bool>(
    wrap: W,
    near: N,
    angles: Seq<Scalar>,
    kept: Seq<Scalar>,
) -> bool {
    exists|wrapped: Seq<Scalar>, ordered: Seq<Scalar>|
        {
            &&& #[trigger] wrapped_by(wrap, finite_angles(angles), wrapped)
            &&& ordered.to_multiset() == wrapped.to_multiset()
            &&& in_total_order(ordered)
            &&& #[trigger] thinned(near, ordered, kept)
        }
}

/// The same angles in total order.
pub fn sort_angles(angles: &Vec<Scalar>) -> (r: Vec<Scalar>)
    ensures
        in_total_order(r@),
        r@.to_multiset() == angles@.to_multiset(),
{
    let mut out: Vec<Scalar> = Vec::new();
    let mut n: usize = 0;
    assert(angles@.subrange(0, 0) == out@);
    while n < angles.len()
        invariant
            n <= angles.len(),
            out.len() == n,
            in_total_order(out@),
            out@.to_multiset() == angles@.subrange(0, n as int).to_multiset(),
        decreases angles.len() - n,
    {
        let angle: Scalar = angles[n];
        let mut at: usize = out.len();
        while at > 0 && angle.total_lt(out[at - 1])
            invariant
                at <= out.len(),
                forall|k: int|
                    at <= k < out.len() ==> angle.total_rank() < (
                    #[trigger] out@[k]).total_rank(),
            decreases at,
        {
            at -= 1;
        }
        let ghost before = out@;
        out.insert(at, angle);
        proof {
            to_multiset_insert(before, at as int, angle);
            assert(angles@.subrange(0, n + 1) == angles@.subrange(0, n as int).push(angle));
            angles@.subrange(0, n as int).to_multiset_ensures();
            assert forall|i: int, j: int| 0 <= i <= j < out@.len() implies (
            #[trigger] out@[i]).total_rank() <= (#[trigger] out@[j]).total_rank() by {
                if i < at && j >= at && at > 0 {
                    assert(before[i].total_rank() <= before[at - 1].total_rank());
                }
            }
        }
        n += 1;
    }
    assert(angles@.subrange(0, angles@.len() as int) == angles@);
    out
}

/// Normalises authored angles. How an angle is wrapped into one turn, and when
/// two angles are too near to tell apart, is the caller's arithmetic.
pub fn normalize_angles<W: Fn(Scalar) -> Scalar, N: Fn(Scalar, Scalar) -> bool>(
    angles: &Vec<Scalar>,
    wrap: &W,
    near: &N,
) -> (kept: Vec<Scalar>)
    requires
        forall|a: Scalar| call_requires(*wrap, (a,)),
        forall|a: Scalar, b: Scalar| call_requires(*near, (a, b)),
    ensures
        normalized(*wrap, *near, angles@, kept@),
{
    let mut wrapped: Vec<Scalar> = Vec::new();
    let mut i: usize = 0;
    proof {
        assert(angles@.subrange(0, 0) == Seq::<Scalar>::empty());
        assert(finite_angles(Seq::<Scalar>::empty()) =~= Seq::<Scalar>::empty()) by {
            reveal(Seq::filter);
        }
    }
    while i < angles.len()
        invariant
            i <= angles.len(),
            forall|a: Scalar| call_requires(*wrap, (a,)),
            wrapped_by(*wrap, finite_angles(angles@.subrange(0, i as int)), wrapped@),
        decreases angles.len() - i,
    {
        let angle: Scalar = angles[i];
        let ghost done = angles@.subrange(0, i as int);
        proof {
            let next = angles@.subrange(0, i + 1);
            assert(next.drop_last() == done);
            assert(next.last() == angle);
            reveal(Seq::filter);
        }
        if angle.is_finite() {
            let ghost before = wrapped@;
            wrapped.push(wrap(angle));
            proof {
                let fin = finite_angles(done);
                assert(finite_angles(angles@.subrange(0, i + 1)) == fin.push(angle));
                assert forall|k: int| 0 <= k < fin.push(angle).len() implies call_ensures(
                    *wrap,
                    (#[trigger] fin.push(angle)[k],),
                    wrapped@[k],
                ) by {
                    if k < fin.len() {
                        assert(fin.push(angle)[k] == fin[k]);
                        assert(wrapped@[k] == before[k]);
                    }
                }
            }
        }
        i += 1;
    }
    assert(angles@.subrange(0, angles@.len() as int) == angles@);
    let ordered = sort_angles(&wrapped);
    let mut kept: Vec<Scalar> = Vec::new();
    let mut j: usize = 0;
    while j < ordered.len()
        invariant
            j <= ordered.len(),
            forall|a: Scalar, b: Scalar| call_requires(*near, (a, b)),
            j > 0 ==> kept.len() > 0,
            thinned(*near, ordered@.subrange(0, j as int), kept@),
        decreases ordered.len() - j,
    {
        let angle: Scalar = ordered[j];
        let ghost before = kept@;
        proof {
            let next = ordered@.subrange(0, j + 1);
            assert(next.drop_last() == ordered@.subrange(0, j as int));
            assert(next.last() == angle);
        }
        if kept.len() == 0 {
            kept.push(angle);
            assert(kept@ == ordered@.subrange(0, j + 1));
        } else if !near(angle, kept[kept.len() - 1]) {
            kept.push(angle);
            assert(kept@.drop_last() == before);
        }
        j += 1;
    }
    assert(ordered@.subrange(0, ordered@.len() as int) == ordered@);
    kept
}

/// Whether an angle is among those kept, or too near to one of them to tell
/// apart.
pub open spec fn stands_for<N: Fn(Scalar, Scalar) -> bool>(
    near: N,
    kept: Seq<Scalar>,
    angle: Scalar,
) -> bool {
    kept.contains(angle) || exists|k: int|
        0 <= k < kept.len() && call_ensures(near, (angle, #[trigger] kept[k]), true)
}

/// Whether each angle that is kept was told apart from the one before it.
pub open spec fn told_apart<N: Fn(Scalar, Scalar) -> bool>(near: N, kept: Seq<Scalar>) -> bool {
    forall|i: int, k: int|
        0 <= i && k == i + 1 && k < kept.len() ==> call_ensures(
            near,
            (#[trigger] kept[k], #[trigger] kept[i]),
            false,
        )
}

proof fn lemma_stands_for_more<N: Fn(Scalar, Scalar) -> bool>(
    near: N,
    kept: Seq<Scalar>,
    last: Scalar,
    angle: Scalar,
)
    requires
        stands_for(near, kept, angle),
    ensures
        stands_for(near, kept.push(last), angle),
{
    let more = kept.push(last);
    if kept.contains(angle) {
        let k = choose|k: int| 0 <= k < kept.len() && kept[k] == angle;
        assert(more[k] == angle);
    } else {
        let k = choose|k: int|
            0 <= k < kept.len() && call_ensures(near, (angle, #[trigger] kept[k]), true);
        assert(more[k] == kept[k]);
    }
}

/// The last of several angles was dropped as near the last one kept before it,
/// or kept behind it.
proof fn lemma_thinned_step<N: Fn(Scalar, Scalar) -> bool>(
    near: N,
    angles: Seq<Scalar>,
    kept: Seq<Scalar>,
) -> (before: Seq<Scalar>)
    requires
        angles.len() > 1,
        thinned(near, angles, kept),
    ensures
        before.len() > 0,
        thinned(near, angles.drop_last(), before),
        kept == before && call_ensures(near, (angles.last(), before.last()), true) || kept
            == before.push(angles.last()) && call_ensures(
            near,
            (angles.last(), before.last()),
            false,
        ),
{
    let dropped = kept.len() > 0 && call_ensures(near, (angles.last(), kept.last()), true)
        && thinned(near, angles.drop_last(), kept);
    if dropped {
        kept
    } else {
        assert(kept =~= kept.drop_last().push(angles.last()));
        kept.drop_last()
    }
}

proof fn lemma_thinned_apart<N: Fn(Scalar, Scalar) -> bool>(
    near: N,
    angles: Seq<Scalar>,
    kept: Seq<Scalar>,
)
    requires
        thinned(near, angles, kept),
    ensures
        told_apart(near, kept),
        angles.len() > 0 <==> kept.len() > 0,
    decreases angles.len(),
{
    if angles.len() > 1 {
        let before = lemma_thinned_step(near, angles, kept);
        lemma_thinned_apart(near, angles.drop_last(), before);
        assert forall|i: int, k: int|
            0 <= i && k == i + 1 && k < kept.len() implies call_ensures(
            near,
            (#[trigger] kept[k], #[trigger] kept[i]),
            false,
        ) by {
            assert(kept[i] == before[i]);
            if k < before.len() {
                assert(kept[k] == before[k]);
            }
        }
    }
}

proof fn lemma_thinned_covers<N: Fn(Scalar, Scalar) -> bool>(
    near: N,
    angles: Seq<Scalar>,
    kept: Seq<Scalar>,
    i: int,
)
    requires
        thinned(near, angles, kept),
        0 <= i < angles.len(),
    ensures
        stands_for(near, kept, angles[i]),
    decreases angles.len(),
{
    if angles.len() == 1 {
        assert(kept[0] == angles[i]);
    } else {
        let before = lemma_thinned_step(near, angles, kept);
        let last = angles.last();
        if i < angles.len() - 1 {
            lemma_thinned_covers(near, angles.drop_last(), before, i);
            if kept != before {
                lemma_stands_for_more(near, before, last, angles[i]);
            }
        } else if kept == before {
            assert(call_ensures(near, (last, kept[kept.len() - 1]), true));
        } else {
            assert(kept[kept.len() - 1] == last);
        }
    }
}

/// Where in the list each angle that is kept stood: further on than the one
/// kept before it.
proof fn lemma_thinned_places<N: Fn(Scalar, Scalar) -> bool>(
    near: N,
    angles: Seq<Scalar>,
    kept: Seq<Scalar>,
) -> (places: Seq<int>)
    requires
        thinned(near, angles, kept),
    ensures
        places.len() == kept.len(),
        forall|k: int|
            0 <= k < kept.len() ==> 0 <= (#[trigger] places[k]) < angles.len() && kept[k]
                == angles[places[k]],
        forall|i: int, k: int|
            0 <= i < k < kept.len() ==> (#[trigger] places[i]) < (#[trigger] places[k]),
    decreases angles.len(),
{
    if angles.len() <= 1 {
        Seq::new(kept.len(), |k: int| k)
    } else {
        let before = lemma_thinned_step(near, angles, kept);
        let places = lemma_thinned_places(near, angles.drop_last(), before);
        if kept == before {
            places
        } else {
            places.push(angles.len() - 1)
        }
    }
}

proof fn lemma_places_keep_order(angles: Seq<Scalar>, kept: Seq<Scalar>, places: Seq<int>)
    requires
        in_total_order(angles),
        places.len() == kept.len(),
        forall|k: int|
            0 <= k < kept.len() ==> 0 <= (#[trigger] places[k]) < angles.len() && kept[k]
                == angles[places[k]],
        forall|i: int, k: int|
            0 <= i < k < kept.len() ==> (#[trigger] places[i]) < (#[trigger] places[k]),
    ensures
        in_total_order(kept),
{
    assert forall|i: int, j: int| 0 <= i <= j < kept.len() implies (
    #[trigger] kept[i]).total_rank() <= (#[trigger] kept[j]).total_rank() by {
        assert(places[i] <= places[j]);
        assert(angles[places[i]].total_rank() <= angles[places[j]].total_rank());
    }
}

/// What normalising keeps is in order, and no angle of it is near the one before
/// it. Every authored angle that is a number is kept, once wrapped, or is too
/// near to one that is kept; and nothing else is kept.
pub proof fn law_normalized_angles<W: Fn(Scalar) -> Scalar, N: Fn(Scalar, Scalar) -> bool>(
    wrap: W,
    near: N,
    angles: Seq<Scalar>,
    kept: Seq<Scalar>,
)
    requires
        normalized(wrap, near, angles, kept),
    ensures
        in_total_order(kept),
        told_apart(near, kept),
        kept.len() == 0 <==> finite_angles(angles).len() == 0,
        forall|i: int|
            0 <= i < finite_angles(angles).len() ==> exists|turned: Scalar|
                call_ensures(wrap, (#[trigger] finite_angles(angles)[i],), turned)
                    && #[trigger] stands_for(near, kept, turned),
        forall|k: int|
            0 <= k < kept.len() ==> exists|i: int|
                0 <= i < finite_angles(angles).len() && call_ensures(
                    wrap,
                    (#[trigger] finite_angles(angles)[i],),
                    #[trigger] kept[k],
                ),
{
    let numbers = finite_angles(angles);
    let (wrapped, ordered) = choose|wrapped: Seq<Scalar>, ordered: Seq<Scalar>|
        {
            &&& #[trigger] wrapped_by(wrap, finite_angles(angles), wrapped)
            &&& ordered.to_multiset() == wrapped.to_multiset()
            &&& in_total_order(ordered)
            &&& #[trigger] thinned(near, ordered, kept)
        };
    lemma_thinned_apart(near, ordered, kept);
    let places = lemma_thinned_places(near, ordered, kept);
    lemma_places_keep_order(ordered, kept, places);
    wrapped.to_multiset_ensures();
    ordered.to_multiset_ensures();
    assert forall|i: int| 0 <= i < numbers.len() implies exists|turned: Scalar|
        call_ensures(wrap, (#[trigger] numbers[i],), turned) && #[trigger] stands_for(
            near,
            kept,
            turned,
        ) by {
        let turned = wrapped[i];
        assert(wrapped.contains(turned));
        assert(ordered.to_multiset().count(turned) > 0);
        let m = choose|m: int| 0 <= m < ordered.len() && ordered[m] == turned;
        lemma_thinned_covers(near, ordered, kept, m);
    }
    assert forall|k: int| 0 <= k < kept.len() implies exists|i: int|
        0 <= i < numbers.len() && call_ensures(
            wrap,
            (#[trigger] numbers[i],),
            #[trigger] kept[k],
        ) by {
        assert(ordered[places[k]] == kept[k]);
        assert(ordered.contains(kept[k]));
        assert(wrapped.to_multiset().count(kept[k]) > 0);
        let i = choose|i: int| 0 <= i < wrapped.len() && wrapped[i] == kept[k];
        assert(call_ensures(wrap, (numbers[i],), wrapped[i]));
    }
}

// --- numbering ------------------------------------------------------------

/// How many copies the parts before the `n`th have together: the id of its
/// first copy.
pub open spec fn first_copy(parts: Seq<PartDto>, n: int) -> int
    decreases n,
{
    if n <= 0 {
        0
    } else {
        first_copy(parts, n - 1) + parts[n - 1].quantity
    }
}

/// How many copies a job has.
pub open spec fn copies(parts: Seq<PartDto>) -> int {
    first_copy(parts, parts.len() as int)
}

/// Which part a copy is of, looking among the first `n`.
pub open spec fn source_among(parts: Seq<PartDto>, n: int, id: int) -> int
    decreases n,
{
    if n <= 0 {
        -1
    } else if first_copy(parts, n - 1) <= id {
        n - 1
    } else {
        source_among(parts, n - 1, id)
    }
}

/// Which part a copy is of.
pub open spec fn source(parts: Seq<PartDto>, id: int) -> int {
    source_among(parts, parts.len() as int, id)
}

/// Whether a number is a single bit, above the ids of every copy.
pub open spec fn marks_mirrored(bit: usize, parts: Seq<PartDto>) -> bool {
    &&& bit > 0
    &&& bit & sub_one(bit) == 0
    &&& copies(parts) <= bit
}

/// The number below.
pub open spec fn sub_one(bit: usize) -> usize {
    (bit - 1) as usize
}

/// Everything that numbering the copies depends on.
#[verifier::ext_equal]
pub struct Job {
    pub parts: Seq<PartDto>,
    pub measures: Seq<PartMeasure>,
    /// Each part's normalised angles.
    pub angles: Seq<Seq<Scalar>>,
    pub mirror: bool,
    pub bit: usize,
}

impl Job {
    /// Whether a part may be flipped: its own word, or else the job's.
    pub open spec fn flips(self, part: int) -> bool {
        match self.parts[part].mirror {
            Some(own) => own,
            None => self.mirror,
        }
    }

    /// What constrains a part: nothing where any angle is allowed and flipping
    /// is what the job says.
    pub open spec fn rule(self, part: int) -> Option<RuleModel> {
        if self.angles[part].len() > 0 || self.flips(part) != self.mirror {
            Some(RuleModel { angles: self.angles[part], mirror: self.flips(part) })
        } else {
            None
        }
    }

    /// The shape an id stands for, among the first `upto` copies: the part's
    /// own for a copy, and the flipped one for a copy's id with the mirror bit,
    /// where the part may be flipped.
    pub open spec fn shape(self, upto: int, id: usize) -> Option<Outline> {
        let base = id ^ self.bit;
        if id < upto {
            Some(self.parts[source(self.parts, id as int)].polygon@)
        } else if base < upto && self.flips(source(self.parts, base as int)) {
            Some(self.measures[source(self.parts, base as int)].mirrored@)
        } else {
            None
        }
    }

    /// The shape id of an id, among the first `upto` copies.
    pub open spec fn shape_id(self, upto: int, id: usize) -> Option<usize> {
        let base = id ^ self.bit;
        if id < upto {
            Some(source(self.parts, id as int) as usize)
        } else if base < upto && self.flips(source(self.parts, base as int)) {
            Some((source(self.parts, base as int) as usize) ^ self.bit)
        } else {
            None
        }
    }

    /// The rule of an id, among the first `upto` copies.
    pub open spec fn rule_of(self, upto: int, id: usize) -> Option<RuleModel> {
        if id < upto {
            self.rule(source(self.parts, id as int))
        } else {
            None
        }
    }

    /// Whether a map holds the shapes of the first `upto` copies and their
    /// flipped variants, and nothing else.
    pub open spec fn holds_shapes(self, upto: int, shapes: Map<usize, PolygonDto>) -> bool {
        forall|id: usize|
            #![trigger shapes.contains_key(id)]
            shapes.contains_key(id) == (self.shape(upto, id) is Some) && (shapes.contains_key(id)
                ==> Some(shapes[id]@) == self.shape(upto, id))
    }

    /// The same of the shape ids.
    pub open spec fn holds_shape_ids(self, upto: int, shape_ids: Map<usize, usize>) -> bool {
        forall|id: usize|
            #![trigger shape_ids.contains_key(id)]
            shape_ids.contains_key(id) == (self.shape_id(upto, id) is Some) && (
            shape_ids.contains_key(id) ==> Some(shape_ids[id]) == self.shape_id(upto, id))
    }

    /// The same of the rules.
    pub open spec fn holds_rules(self, upto: int, rules: Map<usize, PartRuleDto>) -> bool {
        forall|id: usize|
            #![trigger rules.contains_key(id)]
            rules.contains_key(id) == (self.rule_of(upto, id) is Some) && (rules.contains_key(id)
                ==> Some(rules[id]@) == self.rule_of(upto, id))
    }

    /// Whether the maps hold exactly the first `upto` copies.
    pub open spec fn numbered(self, upto: int, expanded: ExpandedParts) -> bool {
        &&& self.holds_shapes(upto, expanded.parts_by_id@)
        &&& self.holds_shape_ids(upto, expanded.shape_ids@)
        &&& self.holds_rules(upto, expanded.part_rules@)
    }

    /// The box area a copy is ranked by.
    pub open spec fn area(self, id: usize) -> int {
        self.measures[source(self.parts, id as int)].box_area.total_rank()
    }

    /// Whether one copy comes before another: the larger box first, then the
    /// lower id.
    pub open spec fn comes_first(self, a: usize, b: usize) -> bool {
        self.area(a) > self.area(b) || (self.area(a) == self.area(b) && a < b)
    }

    /// Whether a list is in the order the search starts from.
    pub open spec fn seeded(self, order: Seq<usize>) -> bool {
        forall|i: int, j: int|
            0 <= i < j < order.len() ==> self.comes_first(
                #[trigger] order[i],
                #[trigger] order[j],
            )
    }
}

/// Counting copies never goes back.
proof fn lemma_first_copy_grows(parts: Seq<PartDto>, m: int, n: int)
    requires
        0 <= m <= n,
    ensures
        first_copy(parts, m) <= first_copy(parts, n),
    decreases n,
{
    if m < n {
        lemma_first_copy_grows(parts, m, n - 1);
    }
}

/// A copy's id says which part it is of.
pub proof fn law_copies_are_contiguous(parts: Seq<PartDto>, part: int, id: int)
    requires
        0 <= part < parts.len(),
        first_copy(parts, part) <= id < first_copy(parts, part + 1),
    ensures
        source(parts, id) == part,
{
    lemma_source_among(parts, parts.len() as int, part, id);
}

proof fn lemma_source_among(parts: Seq<PartDto>, n: int, part: int, id: int)
    requires
        0 <= part < n <= parts.len(),
        first_copy(parts, part) <= id < first_copy(parts, part + 1),
    ensures
        source_among(parts, n, id) == part,
    decreases n,
{
    if part < n - 1 {
        lemma_first_copy_grows(parts, part + 1, n - 1);
        lemma_source_among(parts, n - 1, part, id);
    }
}

/// Setting the mirror bit on a copy's id leaves the range of copies, and
/// toggling it twice leads back.
pub proof fn law_mirrored_ids_are_no_copies(id: usize, bit: usize)
    requires
        bit > 0,
        bit & sub_one(bit) == 0,
        id < bit,
    ensures
        (id ^ bit) >= bit,
        (id ^ bit) ^ bit == id,
{
    let below = sub_one(bit);
    assert((id ^ bit) >= bit && (id ^ bit) ^ bit == id) by (bit_vector)
        requires
            bit > 0,
            below == bit - 1,
            bit & below == 0,
            id < bit,
    ;
}

proof fn lemma_toggle_twice(id: usize, bit: usize)
    ensures
        (id ^ bit) ^ bit == id,
{
    assert((id ^ bit) ^ bit == id) by (bit_vector);
}

fn copy_angles(angles: &Vec<Scalar>) -> (r: Vec<Scalar>)
    ensures
        r@ == angles@,
{
    let mut out: Vec<Scalar> = Vec::new();
    let mut i: usize = 0;
    while i < angles.len()
        invariant
            i <= angles.len(),
            out@ == angles@.subrange(0, i as int),
        decreases angles.len() - i,
    {
        out.push(angles[i]);
        i += 1;
    }
    assert(angles@.subrange(0, angles@.len() as int) == angles@);
    out
}

impl Clone for PartRuleDto {
    fn clone(&self) -> (r: Self)
        ensures
            r@ == self@,
    {
        PartRuleDto { angles: copy_angles(&self.angles), mirror: self.mirror }
    }
}

/// Numbers one more copy.
fn add_copy(
    out: &mut ExpandedParts,
    id: usize,
    part: usize,
    polygon: &PolygonDto,
    mirrored: Option<&PolygonDto>,
    rule: &Option<PartRuleDto>,
    bit: usize,
    job: Ghost<Job>,
)
    requires
        job@.bit == bit,
        marks_mirrored(bit, job@.parts),
        id < copies(job@.parts),
        part == source(job@.parts, id as int),
        0 <= part < job@.parts.len(),
        polygon@ == job@.parts[part as int].polygon@,
        mirrored is Some == job@.flips(part as int),
        mirrored matches Some(flipped) ==> flipped@ == job@.measures[part as int].mirrored@,
        match *rule {
            Some(r) => job@.rule(part as int) == Some(r@),
            None => job@.rule(part as int) is None,
        },
        job@.numbered(id as int, *old(out)),
    ensures
        job@.numbered(id + 1, *final(out)),
        final(out).adam == old(out).adam,
{
    let ghost before = *out;
    out.parts_by_id.insert(id, polygon.clone());
    out.shape_ids.insert(id, part);
    match rule {
        Some(r) => {
            out.part_rules.insert(id, r.clone());
        },
        None => {},
    }
    match mirrored {
        Some(flipped) => {
            out.parts_by_id.insert(id ^ bit, flipped.clone());
            out.shape_ids.insert(id ^ bit, part ^ bit);
        },
        None => {},
    }
    proof {
        law_mirrored_ids_are_no_copies(id, bit);
        let j = job@;
        assert(j.holds_shapes(id + 1, out.parts_by_id@)) by {
            assert forall|k: usize|
                #![trigger out.parts_by_id@.contains_key(k)]
                out.parts_by_id@.contains_key(k) == (j.shape(id + 1, k) is Some) && (
                out.parts_by_id@.contains_key(k) ==> Some(out.parts_by_id@[k]@) == j.shape(
                    id + 1,
                    k,
                )) by {
                lemma_toggle_twice(k, bit);
                assert(before.parts_by_id@.contains_key(k) == (j.shape(id as int, k) is Some));
            }
        }
        assert(j.holds_shape_ids(id + 1, out.shape_ids@)) by {
            assert forall|k: usize|
                #![trigger out.shape_ids@.contains_key(k)]
                out.shape_ids@.contains_key(k) == (j.shape_id(id + 1, k) is Some) && (
                out.shape_ids@.contains_key(k) ==> Some(out.shape_ids@[k]) == j.shape_id(
                    id + 1,
                    k,
                )) by {
                lemma_toggle_twice(k, bit);
                assert(before.shape_ids@.contains_key(k) == (j.shape_id(id as int, k) is Some));
            }
        }
        assert(j.holds_rules(id + 1, out.part_rules@)) by {
            assert forall|k: usize|
                #![trigger out.part_rules@.contains_key(k)]
                out.part_rules@.contains_key(k) == (j.rule_of(id + 1, k) is Some) && (
                out.part_rules@.contains_key(k) ==> Some(out.part_rules@[k]@) == j.rule_of(
                    id + 1,
                    k,
                )) by {
                assert(before.part_rules@.contains_key(k) == (j.rule_of(id as int, k) is Some));
            }
        }
    }
}

/// Puts the next copy into the starting order, behind every copy whose box is
/// not smaller.
fn seed_copy(
    adam: &mut Vec<usize>,
    areas: &mut Vec<Scalar>,
    id: usize,
    area: Scalar,
    job: Ghost<Job>,
)
    requires
        old(adam)@.len() == old(areas)@.len(),
        forall|k: int|
            0 <= k < old(adam)@.len() ==> (#[trigger] old(areas)@[k]).total_rank() == job@.area(
                old(adam)@[k],
            ),
        area.total_rank() == job@.area(id),
        job@.seeded(old(adam)@),
        forall|k: usize| old(adam)@.contains(k) <==> k < id,
    ensures
        final(adam)@.len() == final(areas)@.len(),
        forall|k: int|
            0 <= k < final(adam)@.len() ==> (#[trigger] final(areas)@[k]).total_rank()
                == job@.area(final(adam)@[k]),
        job@.seeded(final(adam)@),
        forall|k: usize| final(adam)@.contains(k) <==> k <= id,
{
    let mut at: usize = adam.len();
    while at > 0 && areas[at - 1].total_lt(area)
        invariant
            at <= adam.len(),
            adam@.len() == areas@.len(),
            forall|k: int|
                at <= k < adam@.len() ==> (#[trigger] areas@[k]).total_rank()
                    < area.total_rank(),
        decreases at,
    {
        at -= 1;
    }
    let ghost before = adam@;
    let ghost old_areas = areas@;
    adam.insert(at, id);
    areas.insert(at, area);
    proof {
        let j = job@;
        assert forall|a: int, b: int| 0 <= a < b < adam@.len() implies j.comes_first(
            #[trigger] adam@[a],
            #[trigger] adam@[b],
        ) by {
            if b == at {
                assert(adam@[a] == before[a]);
                assert(before.contains(before[a]));
                assert(before.contains(before[at - 1]));
                assert(a < at - 1 ==> j.comes_first(before[a], before[at - 1]));
                assert(old_areas[at - 1].total_rank() == j.area(before[at - 1]));
            } else if a == at {
                assert(adam@[b] == before[b - 1]);
                assert(old_areas[b - 1].total_rank() == j.area(before[b - 1]));
            } else {
                let x = if a < at { a } else { a - 1 };
                let y = if b < at { b } else { b - 1 };
                assert(adam@[a] == before[x] && adam@[b] == before[y]);
            }
        }
        assert forall|k: usize| adam@.contains(k) <==> k <= id by {
            if before.contains(k) {
                let x = choose|x: int| 0 <= x < before.len() && before[x] == k;
                assert(adam@[if x < at { x } else { x + 1 }] == k);
            }
            if adam@.contains(k) {
                let x = choose|x: int| 0 <= x < adam@.len() && adam@[x] == k;
                if x != at {
                    assert(before[if x < at { x } else { x - 1 }] == k);
                }
            }
            assert(adam@[at as int] == id);
        }
        assert forall|k: int| 0 <= k < adam@.len() implies (#[trigger] areas@[k]).total_rank()
            == j.area(adam@[k]) by {
            if k < at {
                assert(areas@[k] == old_areas[k]);
            } else if k > at {
                assert(areas@[k] == old_areas[k - 1]);
            }
        }
    }
}

/// Whether each part's angles are what normalising makes of the authored ones.
pub open spec fn angles_of<W: Fn(Scalar) -> Scalar, N: Fn(Scalar, Scalar) -> bool>(
    wrap: W,
    near: N,
    parts: Seq<PartDto>,
    angles: Seq<Seq<Scalar>>,
) -> bool {
    &&& angles.len() == parts.len()
    &&& forall|i: int|
        0 <= i < parts.len() ==> match (#[trigger] parts[i]).allowed_rotations {
            Some(authored) => normalized(wrap, near, authored@, angles[i]),
            None => angles[i].len() == 0,
        }
}

impl Job {
    /// Whether parts are expanded as this job says: every copy numbered and
    /// nothing else, and every copy once in the starting order.
    pub open spec fn expanded(self, r: ExpandedParts) -> bool {
        &&& self.numbered(copies(self.parts), r)
        &&& self.seeded(r.adam@)
        &&& forall|id: usize| r.adam@.contains(id) <==> id < copies(self.parts)
    }
}

/// Numbers every copy of every part, in the order the parts are listed.
///
/// A copy is constrained only where its part's angles or its flipping differ
/// from the job's. A part that may be flipped has a flipped shape under each of
/// its ids with the mirror bit; one that may not has none, so nothing can reach
/// it. The starting order ranks by bounding box, because a concave part costs a
/// sheet its box.
pub fn expand_parts<W: Fn(Scalar) -> Scalar, N: Fn(Scalar, Scalar) -> bool>(
    parts: &Vec<PartDto>,
    mirror: bool,
    mirror_bit: usize,
    measures: &Vec<PartMeasure>,
    wrap: &W,
    near: &N,
) -> (r: ExpandedParts)
    requires
        measures@.len() == parts@.len(),
        marks_mirrored(mirror_bit, parts@),
        forall|a: Scalar| call_requires(*wrap, (a,)),
        forall|a: Scalar, b: Scalar| call_requires(*near, (a, b)),
    ensures
        exists|angles: Seq<Seq<Scalar>>|
            #[trigger] angles_of(*wrap, *near, parts@, angles) && (Job {
                parts: parts@,
                measures: measures@,
                angles,
                mirror,
                bit: mirror_bit,
            }).expanded(r),
{
    let mut kept: Vec<Vec<Scalar>> = Vec::new();
    let mut i: usize = 0;
    while i < parts.len()
        invariant
            i <= parts.len(),
            kept.len() == i,
            forall|a: Scalar| call_requires(*wrap, (a,)),
            forall|a: Scalar, b: Scalar| call_requires(*near, (a, b)),
            forall|k: int|
                0 <= k < i ==> match (#[trigger] parts@[k]).allowed_rotations {
                    Some(authored) => normalized(*wrap, *near, authored@, kept@[k]@),
                    None => kept@[k]@.len() == 0,
                },
        decreases parts.len() - i,
    {
        let angles = match &parts[i].allowed_rotations {
            Some(authored) => normalize_angles(authored, wrap, near),
            None => Vec::new(),
        };
        kept.push(angles);
        i += 1;
    }
    let ghost angles = kept@.map_values(|a: Vec<Scalar>| a@);
    let ghost job = Job { parts: parts@, measures: measures@, angles, mirror, bit: mirror_bit };
    assert(angles_of(*wrap, *near, parts@, angles));
    let mut out = ExpandedParts {
        adam: Vec::new(),
        parts_by_id: HashMap::new(),
        shape_ids: HashMap::new(),
        part_rules: HashMap::new(),
    };
    let mut adam: Vec<usize> = Vec::new();
    let mut areas: Vec<Scalar> = Vec::new();
    let mut next_id: usize = 0;
    let mut n: usize = 0;
    while n < parts.len()
        invariant
            n <= parts.len(),
            kept@.len() == parts@.len(),
            measures@.len() == parts@.len(),
            angles == kept@.map_values(|a: Vec<Scalar>| a@),
            job == (Job { parts: parts@, measures: measures@, angles, mirror, bit: mirror_bit }),
            marks_mirrored(mirror_bit, parts@),
            next_id == first_copy(parts@, n as int),
            job.numbered(next_id as int, out),
            job.seeded(adam@),
            adam@.len() == areas@.len(),
            forall|k: int|
                0 <= k < adam@.len() ==> (#[trigger] areas@[k]).total_rank() == job.area(
                    adam@[k],
                ),
            forall|k: usize| adam@.contains(k) <==> k < next_id,
        decreases parts.len() - n,
    {
        let may_mirror = match parts[n].mirror {
            Some(own) => own,
            None => mirror,
        };
        let rule = if kept[n].len() > 0 || may_mirror != mirror {
            Some(PartRuleDto { angles: copy_angles(&kept[n]), mirror: may_mirror })
        } else {
            None
        };
        let quantity: usize = parts[n].quantity;
        let mut copy: usize = 0;
        proof {
            lemma_first_copy_grows(parts@, n + 1, parts@.len() as int);
        }
        while copy < quantity
            invariant
                copy <= quantity,
                n < parts.len(),
                quantity == parts@[n as int].quantity,
                measures@.len() == parts@.len(),
                may_mirror == job.flips(n as int),
                match rule {
                    Some(r) => job.rule(n as int) == Some(r@),
                    None => job.rule(n as int) is None,
                },
                job.parts == parts@,
                job.measures == measures@,
                job.bit == mirror_bit,
                marks_mirrored(mirror_bit, parts@),
                next_id == first_copy(parts@, n as int) + copy,
                first_copy(parts@, n + 1) <= copies(parts@),
                job.numbered(next_id as int, out),
                job.seeded(adam@),
                adam@.len() == areas@.len(),
                forall|k: int|
                    0 <= k < adam@.len() ==> (#[trigger] areas@[k]).total_rank() == job.area(
                        adam@[k],
                    ),
                forall|k: usize| adam@.contains(k) <==> k < next_id,
            decreases quantity - copy,
        {
            proof {
                law_copies_are_contiguous(parts@, n as int, next_id as int);
            }
            let mirrored = if may_mirror {
                Some(&measures[n].mirrored)
            } else {
                None
            };
            add_copy(
                &mut out,
                next_id,
                n,
                &parts[n].polygon,
                mirrored,
                &rule,
                mirror_bit,
                Ghost(job),
            );
            seed_copy(&mut adam, &mut areas, next_id, measures[n].box_area, Ghost(job));
            next_id += 1;
            copy += 1;
        }
        n += 1;
    }
    out.adam = adam;
    assert(job.expanded(out));
    out
}

// --- preparing a job ------------------------------------------------------

/// A job to be nested.
pub struct RunNestRequest {
    pub sheets: Vec<PolygonDto>,
    pub parts: Vec<PartDto>,
    pub config: NestConfigDto,
}

/// Whether padding leaves anything of a part's outline, and of its flipped one.
#[derive(Clone, Copy, PartialEq, Eq, Structural, Debug)]
pub struct Padding {
    pub usable: bool,
    pub mirrored_usable: bool,
}

/// Whether padding leaves every wanted copy of a part an outline.
pub open spec fn survives(part: PartDto, padding: Padding, mirror: bool) -> bool {
    part.quantity == 0 || (padding.usable && (padding.mirrored_usable || !(match part.mirror {
        Some(own) => own,
        None => mirror,
    })))
}

/// The first thing that keeps a job from being nested.
pub open spec fn nest_problem(
    request: RunNestRequest,
    sheets_usable: Seq<bool>,
    parts_padded: Seq<Padding>,
) -> Option<Seq<char>> {
    let checked = job_problem(
        request.sheets@.len() as int,
        request.parts@.len() as int,
        request.config,
    );
    if checked is Some {
        checked
    } else if exists|i: int| 0 <= i < sheets_usable.len() && !#[trigger] sheets_usable[i] {
        Some("margin/spacing leaves a sheet with no usable area"@)
    } else if copies(request.parts@) == 0 {
        Some("every part had quantity 0"@)
    } else if exists|i: int|
        0 <= i < request.parts@.len() && !survives(
            #[trigger] request.parts@[i],
            parts_padded[i],
            request.config.mirror,
        ) {
        Some("spacing leaves a part with no usable outline"@)
    } else {
        None
    }
}

/// Whether every entry is set.
fn all_set(flags: &Vec<bool>) -> (r: bool)
    ensures
        r == !(exists|i: int| 0 <= i < flags@.len() && !#[trigger] flags@[i]),
{
    let mut i: usize = 0;
    while i < flags.len()
        invariant
            i <= flags.len(),
            forall|k: int| 0 <= k < i ==> #[trigger] flags@[k],
        decreases flags.len() - i,
    {
        if !flags[i] {
            assert(!flags@[i as int]);
            return false;
        }
        i += 1;
    }
    true
}

/// Checks a job and numbers its parts. The padding of its sheets and parts has
/// been worked out already; a sheet or a wanted part that it leaves nothing of
/// is an error.
pub fn prepare_nest_inputs<W: Fn(Scalar) -> Scalar, N: Fn(Scalar, Scalar) -> bool>(
    request: &RunNestRequest,
    sheets_usable: &Vec<bool>,
    parts_padded: &Vec<Padding>,
    mirror_bit: usize,
    measures: &Vec<PartMeasure>,
    wrap: &W,
    near: &N,
) -> (r: Result<ExpandedParts, String>)
    requires
        sheets_usable@.len() == request.sheets@.len(),
        parts_padded@.len() == request.parts@.len(),
        measures@.len() == request.parts@.len(),
        marks_mirrored(mirror_bit, request.parts@),
        forall|a: Scalar| call_requires(*wrap, (a,)),
        forall|a: Scalar, b: Scalar| call_requires(*near, (a, b)),
    ensures
        match r {
            Ok(expanded) => {
                &&& nest_problem(*request, sheets_usable@, parts_padded@) is None
                &&& exists|angles: Seq<Seq<Scalar>>|
                    #[trigger] angles_of(*wrap, *near, request.parts@, angles) && (Job {
                        parts: request.parts@,
                        measures: measures@,
                        angles,
                        mirror: request.config.mirror,
                        bit: mirror_bit,
                    }).expanded(expanded)
            },
            Err(message) => nest_problem(*request, sheets_usable@, parts_padded@) == Some(
                message@,
            ),
        },
{
    validate_job(request.sheets.len(), request.parts.len(), &request.config)?;
    if !all_set(sheets_usable) {
        return Err("margin/spacing leaves a sheet with no usable area".to_owned());
    }
    let expanded = expand_parts(
        &request.parts,
        request.config.mirror,
        mirror_bit,
        measures,
        wrap,
        near,
    );
    proof {
        lemma_first_copy_grows(request.parts@, 0, request.parts@.len() as int);
        if expanded.adam@.len() == 0 {
            assert(!expanded.adam@.contains(0));
        } else {
            assert(expanded.adam@.contains(expanded.adam@[0]));
        }
    }
    if expanded.adam.len() == 0 {
        return Err("every part had quantity 0".to_owned());
    }
    let mut i: usize = 0;
    while i < request.parts.len()
        invariant
            i <= request.parts.len(),
            parts_padded@.len() == request.parts@.len(),
            job_problem(
                request.sheets@.len() as int,
                request.parts@.len() as int,
                request.config,
            ) is None,
            !(exists|k: int| 0 <= k < sheets_usable@.len() && !#[trigger] sheets_usable@[k]),
            copies(request.parts@) != 0,
            forall|k: int|
                0 <= k < i ==> survives(
                    #[trigger] request.parts@[k],
                    parts_padded@[k],
                    request.config.mirror,
                ),
        decreases request.parts.len() - i,
    {
        let part = &request.parts[i];
        let may_mirror = match part.mirror {
            Some(own) => own,
            None => request.config.mirror,
        };
        let padding: Padding = parts_padded[i];
        if part.quantity != 0 && !(padding.usable && (padding.mirrored_usable || !may_mirror)) {
            assert(!survives(
                request.parts@[i as int],
                parts_padded@[i as int],
                request.config.mirror,
            ));
            return Err("spacing leaves a part with no usable outline".to_owned());
        }
        i += 1;
    }
    Ok(expanded)
}

// --- what expanding promises ----------------------------------------------

/// Copies are numbered in a row, from 0, part after part: each part begins where
/// the one before ends, and takes as many numbers as there are copies of it.
pub proof fn law_copies_are_numbered_in_a_row(parts: Seq<PartDto>, n: int)
    requires
        0 <= n < parts.len(),
    ensures
        first_copy(parts, 0) == 0,
        first_copy(parts, n + 1) == first_copy(parts, n) + parts[n].quantity,
        copies(parts) == first_copy(parts, parts.len() as int),
{
}

/// Whether the rule of a copy says exactly what its part asks for. The angles
/// are the part's own, normalised, whatever is said of flipping; a copy that is
/// free to turn and flips as the job does has no rule.
pub open spec fn says_what_the_part_asks<
    W: Fn(Scalar) -> Scalar,
    N: Fn(Scalar, Scalar) -> bool,
>(
    wrap: W,
    near: N,
    part: PartDto,
    mirror: bool,
    rules: Map<usize, PartRuleDto>,
    id: usize,
    kept: Seq<Scalar>,
) -> bool {
    let flips = match part.mirror {
        Some(own) => own,
        None => mirror,
    };
    &&& part.allowed_rotations is None ==> kept.len() == 0
    &&& part.allowed_rotations matches Some(authored) ==> normalized(wrap, near, authored@, kept)
    &&& kept.len() > 0 ==> rules.contains_key(id)
    &&& flips != mirror ==> rules.contains_key(id)
    &&& kept.len() == 0 && flips == mirror ==> !rules.contains_key(id)
    &&& rules.contains_key(id) ==> rules[id].angles@ == kept && rules[id].mirror == flips
}

proof fn lemma_copy_of_part(job: Job, r: ExpandedParts, part: int, id: usize)
    requires
        job.expanded(r),
        marks_mirrored(job.bit, job.parts),
        0 <= part < job.parts.len() <= usize::MAX,
        first_copy(job.parts, part) <= id < first_copy(job.parts, part + 1),
    ensures
        id < copies(job.parts),
        source(job.parts, id as int) == part,
        r.parts_by_id@.contains_key(id),
        r.parts_by_id@[id]@ == job.parts[part].polygon@,
        r.shape_ids@.contains_key(id) && r.shape_ids@[id] == part,
        job.flips(part) <==> r.parts_by_id@.contains_key(id ^ job.bit),
        job.flips(part) <==> r.shape_ids@.contains_key(id ^ job.bit),
        job.flips(part) ==> {
            &&& r.parts_by_id@[id ^ job.bit]@ == job.measures[part].mirrored@
            &&& r.shape_ids@[id ^ job.bit] == (part as usize) ^ job.bit
        },
        r.part_rules@.contains_key(id) <==> job.rule(part) is Some,
        r.part_rules@.contains_key(id) ==> Some(r.part_rules@[id]@) == job.rule(part),
{
    law_copies_are_contiguous(job.parts, part, id as int);
    lemma_first_copy_grows(job.parts, part + 1, job.parts.len() as int);
    law_mirrored_ids_are_no_copies(id, job.bit);
    assert(r.shape_ids@.contains_key(id) == (job.shape_id(copies(job.parts), id) is Some));
    assert(r.parts_by_id@.contains_key(id) == (job.shape(copies(job.parts), id) is Some));
    assert(r.parts_by_id@.contains_key(id ^ job.bit) == (job.shape(
        copies(job.parts),
        id ^ job.bit,
    ) is Some));
    assert(r.shape_ids@.contains_key(id ^ job.bit) == (job.shape_id(
        copies(job.parts),
        id ^ job.bit,
    ) is Some));
    assert(r.part_rules@.contains_key(id) == (job.rule_of(copies(job.parts), id) is Some));
}

/// Every copy of a part carries what the part asks for. It has the part's shape,
/// and it is told to be of that part. Where the part may be flipped, and only
/// there, the flipped shape stands under the copy's id with the mirror bit. And
/// its rule holds the part's own angles, normalised, whenever there are any,
/// whether or not its flipping is what the job says.
pub proof fn law_a_copy_carries_what_its_part_asks<
    W: Fn(Scalar) -> Scalar,
    N: Fn(Scalar, Scalar) -> bool,
>(
    parts: &Vec<PartDto>,
    mirror: bool,
    bit: usize,
    measures: &Vec<PartMeasure>,
    wrap: &W,
    near: &N,
    r: ExpandedParts,
    part: int,
    id: usize,
)
    requires
        marks_mirrored(bit, parts@),
        call_ensures(expand_parts::<W, N>, (parts, mirror, bit, measures, wrap, near), r),
        0 <= part < parts@.len(),
        first_copy(parts@, part) <= id < first_copy(parts@, part + 1),
    ensures
        r.parts_by_id@.contains_key(id) && r.parts_by_id@[id]@ == parts@[part].polygon@,
        r.shape_ids@.contains_key(id) && r.shape_ids@[id] == part,
        ({
            let flips = match parts@[part].mirror {
                Some(own) => own,
                None => mirror,
            };
            &&& r.parts_by_id@.contains_key(id ^ bit) <==> flips
            &&& r.shape_ids@.contains_key(id ^ bit) <==> flips
            &&& flips ==> r.parts_by_id@[id ^ bit]@ == measures@[part].mirrored@
            &&& flips ==> r.shape_ids@[id ^ bit] == (part as usize) ^ bit
        }),
        exists|kept: Seq<Scalar>| #[trigger]
            says_what_the_part_asks(
                *wrap,
                *near,
                parts@[part],
                mirror,
                r.part_rules@,
                id,
                kept,
            ),
{
    let angles = choose|angles: Seq<Seq<Scalar>>|
        #[trigger] angles_of(*wrap, *near, parts@, angles) && (Job {
            parts: parts@,
            measures: measures@,
            angles,
            mirror,
            bit,
        }).expanded(r);
    let job = Job { parts: parts@, measures: measures@, angles, mirror, bit };
    assert(parts@.len() == parts.len());
    lemma_copy_of_part(job, r, part, id);
    assert(parts@[part].allowed_rotations is None ==> angles[part].len() == 0);
    assert(says_what_the_part_asks(
        *wrap,
        *near,
        parts@[part],
        mirror,
        r.part_rules@,
        id,
        angles[part],
    ));
}

/// A part that asks for angles has them in the rule of each of its copies, and
/// nothing else, whatever its own flipping and the job's are.
pub proof fn law_grain_is_never_lost<W: Fn(Scalar) -> Scalar, N: Fn(Scalar, Scalar) -> bool>(
    parts: &Vec<PartDto>,
    mirror: bool,
    bit: usize,
    measures: &Vec<PartMeasure>,
    wrap: &W,
    near: &N,
    r: ExpandedParts,
    part: int,
    id: usize,
)
    requires
        marks_mirrored(bit, parts@),
        call_ensures(expand_parts::<W, N>, (parts, mirror, bit, measures, wrap, near), r),
        0 <= part < parts@.len(),
        first_copy(parts@, part) <= id < first_copy(parts@, part + 1),
        parts@[part].allowed_rotations is Some,
        exists|i: int|
            0 <= i < parts@[part].allowed_rotations->0@.len() && (
            #[trigger] parts@[part].allowed_rotations->0@[i]).finite(),
    ensures
        r.part_rules@.contains_key(id),
        r.part_rules@[id].angles@.len() > 0,
        normalized(
            *wrap,
            *near,
            parts@[part].allowed_rotations->0@,
            r.part_rules@[id].angles@,
        ),
{
    law_a_copy_carries_what_its_part_asks(
        parts,
        mirror,
        bit,
        measures,
        wrap,
        near,
        r,
        part,
        id,
    );
    let kept = choose|kept: Seq<Scalar>| #[trigger]
        says_what_the_part_asks(*wrap, *near, parts@[part], mirror, r.part_rules@, id, kept);
    let authored = parts@[part].allowed_rotations->0@;
    let i = choose|i: int| 0 <= i < authored.len() && (#[trigger] authored[i]).finite();
    authored.lemma_filter_contains(|a: Scalar| a.finite(), i);
    law_normalized_angles(*wrap, *near, authored, kept);
}

/// Nothing but the copies and their other sides is numbered, and the search
/// starts from each copy once: the larger box first, and of two alike the one
/// that is numbered first.
pub proof fn law_only_copies_are_numbered<
    W: Fn(Scalar) -> Scalar,
    N: Fn(Scalar, Scalar) -> bool,
>(
    parts: &Vec<PartDto>,
    mirror: bool,
    bit: usize,
    measures: &Vec<PartMeasure>,
    wrap: &W,
    near: &N,
    r: ExpandedParts,
    id: usize,
)
    requires
        marks_mirrored(bit, parts@),
        call_ensures(expand_parts::<W, N>, (parts, mirror, bit, measures, wrap, near), r),
    ensures
        r.parts_by_id@.contains_key(id) ==> id < copies(parts@) || (id ^ bit) < copies(parts@),
        r.shape_ids@.contains_key(id) <==> r.parts_by_id@.contains_key(id),
        r.part_rules@.contains_key(id) ==> id < copies(parts@),
        r.adam@.contains(id) <==> id < copies(parts@),
        r.adam@.no_duplicates(),
        forall|i: int, j: int, p: int, q: int|
            #![trigger r.adam@[i], r.adam@[j], parts@[p], parts@[q]]
            0 <= i < j < r.adam@.len() && 0 <= p < parts@.len() && 0 <= q < parts@.len()
                && first_copy(parts@, p) <= r.adam@[i] < first_copy(parts@, p + 1) && first_copy(
                parts@,
                q,
            ) <= r.adam@[j] < first_copy(parts@, q + 1) ==> {
                ||| measures@[p].box_area.total_rank() > measures@[q].box_area.total_rank()
                ||| measures@[p].box_area.total_rank() == measures@[q].box_area.total_rank()
                    && r.adam@[i] < r.adam@[j]
            },
{
    let angles = choose|angles: Seq<Seq<Scalar>>|
        #[trigger] angles_of(*wrap, *near, parts@, angles) && (Job {
            parts: parts@,
            measures: measures@,
            angles,
            mirror,
            bit,
        }).expanded(r);
    let job = Job { parts: parts@, measures: measures@, angles, mirror, bit };
    let n = copies(parts@);
    assert(r.shape_ids@.contains_key(id) == (job.shape_id(n, id) is Some));
    assert(r.parts_by_id@.contains_key(id) == (job.shape(n, id) is Some));
    assert(r.part_rules@.contains_key(id) == (job.rule_of(n, id) is Some));
    assert forall|i: int, j: int, p: int, q: int|
        #![trigger r.adam@[i], r.adam@[j], parts@[p], parts@[q]]
        0 <= i < j < r.adam@.len() && 0 <= p < parts@.len() && 0 <= q < parts@.len()
            && first_copy(parts@, p) <= r.adam@[i] < first_copy(parts@, p + 1) && first_copy(
            parts@,
            q,
        ) <= r.adam@[j] < first_copy(parts@, q + 1) implies {
        ||| measures@[p].box_area.total_rank() > measures@[q].box_area.total_rank()
        ||| measures@[p].box_area.total_rank() == measures@[q].box_area.total_rank()
            && r.adam@[i] < r.adam@[j]
    } by {
        law_copies_are_contiguous(parts@, p, r.adam@[i] as int);
        law_copies_are_contiguous(parts@, q, r.adam@[j] as int);
        assert(job.comes_first(r.adam@[i], r.adam@[j]));
    }
    assert forall|i: int, j: int|
        0 <= i < r.adam@.len() && 0 <= j < r.adam@.len() && i != j implies r.adam@[i]
        != r.adam@[j] by {
        if i < j {
            assert(job.comes_first(r.adam@[i], r.adam@[j]));
        } else {
            assert(job.comes_first(r.adam@[j], r.adam@[i]));
        }
    }
}

/// What normalising makes of authored angles is in order and without near
/// neighbours, and an authored angle that is a number is kept, turned into one
/// circle, or is near one that is kept.
pub proof fn law_normalizing_loses_no_angle<
    W: Fn(Scalar) -> Scalar,
    N: Fn(Scalar, Scalar) -> bool,
>(angles: &Vec<Scalar>, wrap: &W, near: &N, kept: Vec<Scalar>, i: int)
    requires
        call_ensures(normalize_angles::<W, N>, (angles, wrap, near), kept),
        0 <= i < angles@.len(),
        angles@[i].finite(),
    ensures
        in_total_order(kept@),
        told_apart(*near, kept@),
        kept@.len() > 0,
        exists|turned: Scalar|
            call_ensures(*wrap, (angles@[i],), turned) && #[trigger] stands_for(
                *near,
                kept@,
                turned,
            ),
{
    let numbers = finite_angles(angles@);
    law_normalized_angles(*wrap, *near, angles@, kept@);
    angles@.lemma_filter_contains(|a: Scalar| a.finite(), i);
    let m = choose|m: int| 0 <= m < numbers.len() && numbers[m] == angles@[i];
    let turned = choose|turned: Scalar|
        call_ensures(*wrap, (numbers[m],), turned) && #[trigger] stands_for(*near, kept@, turned);
    assert(stands_for(*near, kept@, turned));
}

/// Normalising makes nothing up: what it keeps is an authored angle that is a
/// number, turned into one circle.
pub proof fn law_normalizing_makes_no_angle_up<
    W: Fn(Scalar) -> Scalar,
    N: Fn(Scalar, Scalar) -> bool,
>(angles: &Vec<Scalar>, wrap: &W, near: &N, kept: Vec<Scalar>, k: int)
    requires
        call_ensures(normalize_angles::<W, N>, (angles, wrap, near), kept),
        0 <= k < kept@.len(),
    ensures
        exists|i: int|
            0 <= i < angles@.len() && angles@[i].finite() && call_ensures(
                *wrap,
                (#[trigger] angles@[i],),
                kept@[k],
            ),
{
    let numbers = finite_angles(angles@);
    let finite = |a: Scalar| a.finite();
    law_normalized_angles(*wrap, *near, angles@, kept@);
    let m = choose|m: int|
        0 <= m < numbers.len() && call_ensures(*wrap, (#[trigger] numbers[m],), kept@[k]);
    angles@.lemma_filter_pred(finite, m);
    assert(numbers.contains(numbers[m]));
    angles@.lemma_filter_contains_rev(finite, numbers[m]);
    let i = choose|i: int| 0 <= i < angles@.len() && angles@[i] == numbers[m];
    assert(angles@[i].finite());
}

/// A job goes to the engine exactly where it is accepted, padding leaves
/// something of every sheet, there is a copy to place, and padding leaves
/// something of every part that has one, flipped too where it may be flipped.
pub proof fn law_a_sound_job_goes_to_the_engine<
    W: Fn(Scalar) -> Scalar,
    N: Fn(Scalar, Scalar) -> bool,
>(
    request: &RunNestRequest,
    sheets_usable: &Vec<bool>,
    parts_padded: &Vec<Padding>,
    bit: usize,
    measures: &Vec<PartMeasure>,
    wrap: &W,
    near: &N,
    job: Result<(), String>,
    r: Result<ExpandedParts, String>,
)
    requires
        request.sheets@.len() <= usize::MAX,
        request.parts@.len() <= usize::MAX,
        call_ensures(
            crate::config::validate_job,
            (request.sheets@.len() as usize, request.parts@.len() as usize, &request.config),
            job,
        ),
        call_ensures(
            prepare_nest_inputs::<W, N>,
            (request, sheets_usable, parts_padded, bit, measures, wrap, near),
            r,
        ),
    ensures
        r is Ok <==> {
            &&& job is Ok
            &&& forall|i: int| 0 <= i < sheets_usable@.len() ==> #[trigger] sheets_usable@[i]
            &&& copies(request.parts@) != 0
            &&& forall|i: int|
                0 <= i < request.parts@.len() && (#[trigger] request.parts@[i]).quantity > 0 ==> {
                    let flips = match request.parts@[i].mirror {
                        Some(own) => own,
                        None => request.config.mirror,
                    };
                    parts_padded@[i].usable && (flips ==> parts_padded@[i].mirrored_usable)
                }
        },
        job is Err ==> r is Err && r->Err_0@ == job->Err_0@,
{
    let parts = request.parts@;
    if exists|i: int|
        0 <= i < parts.len() && !survives(
            #[trigger] parts[i],
            parts_padded@[i],
            request.config.mirror,
        ) {
        let i = choose|i: int|
            0 <= i < parts.len() && !survives(
                #[trigger] parts[i],
                parts_padded@[i],
                request.config.mirror,
            );
        assert(parts[i].quantity > 0);
    } else {
        assert forall|i: int| 0 <= i < parts.len() && (#[trigger] parts[i]).quantity > 0 implies {
            let flips = match parts[i].mirror {
                Some(own) => own,
                None => request.config.mirror,
            };
            parts_padded@[i].usable && (flips ==> parts_padded@[i].mirrored_usable)
        } by {
            assert(survives(parts[i], parts_padded@[i], request.config.mirror));
        }
    }
}

/// The copies that go to the engine carry what their parts ask for, and they are
/// all there.
pub proof fn law_copies_go_to_the_engine_as_asked<
    W: Fn(Scalar) -> Scalar,
    N: Fn(Scalar, Scalar) -> bool,
>(
    request: &RunNestRequest,
    sheets_usable: &Vec<bool>,
    parts_padded: &Vec<Padding>,
    bit: usize,
    measures: &Vec<PartMeasure>,
    wrap: &W,
    near: &N,
    r: ExpandedParts,
    part: int,
    id: usize,
)
    requires
        marks_mirrored(bit, request.parts@),
        call_ensures(
            prepare_nest_inputs::<W, N>,
            (request, sheets_usable, parts_padded, bit, measures, wrap, near),
            Ok::<ExpandedParts, String>(r),
        ),
        0 <= part < request.parts@.len(),
        first_copy(request.parts@, part) <= id < first_copy(request.parts@, part + 1),
    ensures
        r.adam@.contains(id),
        r.parts_by_id@.contains_key(id) && r.parts_by_id@[id]@ == request.parts@[part].polygon@,
        r.shape_ids@.contains_key(id) && r.shape_ids@[id] == part,
        ({
            let flips = match request.parts@[part].mirror {
                Some(own) => own,
                None => request.config.mirror,
            };
            &&& r.parts_by_id@.contains_key(id ^ bit) <==> flips
            &&& flips ==> r.parts_by_id@[id ^ bit]@ == measures@[part].mirrored@
        }),
        exists|kept: Seq<Scalar>| #[trigger]
            says_what_the_part_asks(
                *wrap,
                *near,
                request.parts@[part],
                request.config.mirror,
                r.part_rules@,
                id,
                kept,
            ),
{
    let parts = request.parts@;
    let mirror = request.config.mirror;
    let angles = choose|angles: Seq<Seq<Scalar>>|
        #[trigger] angles_of(*wrap, *near, parts, angles) && (Job {
            parts,
            measures: measures@,
            angles,
            mirror,
            bit,
        }).expanded(r);
    let job = Job { parts, measures: measures@, angles, mirror, bit };
    assert(parts.len() == request.parts.len());
    lemma_copy_of_part(job, r, part, id);
    assert(parts[part].allowed_rotations is None ==> angles[part].len() == 0);
    assert(says_what_the_part_asks(
        *wrap,
        *near,
        parts[part],
        mirror,
        r.part_rules@,
        id,
        angles[part],
    ));
}

/// Angles are kept from the lowest to the highest, no two of them near each
/// other in a row; and sorting angles keeps each of them.
pub proof fn law_angles_are_kept_in_order<
    W: Fn(Scalar) -> Scalar,
    N: Fn(Scalar, Scalar) -> bool,
>(
    angles: &Vec<Scalar>,
    wrap: &W,
    near: &N,
    kept: Vec<Scalar>,
    sorted: Vec<Scalar>,
    i: int,
    j: int,
)
    requires
        call_ensures(normalize_angles::<W, N>, (angles, wrap, near), kept),
        call_ensures(sort_angles, (angles,), sorted),
    ensures
        0 <= i < j < kept@.len() ==> kept@[i].total_rank() <= kept@[j].total_rank(),
        0 <= i && i + 1 < kept@.len() ==> call_ensures(
            *near,
            (kept@[i + 1], kept@[i]),
            false,
        ),
        0 <= i < j < sorted@.len() ==> sorted@[i].total_rank() <= sorted@[j].total_rank(),
        sorted@.len() == angles@.len(),
        sorted@.to_multiset() == angles@.to_multiset(),
{
    law_normalized_angles(*wrap, *near, angles@, kept@);
    sorted@.to_multiset_ensures();
    angles@.to_multiset_ensures();
}

/// A job that does not go to the engine is told why: what is wrong with it, then
/// that padding leaves nothing of a sheet, then that no copy is wanted, and then
/// that padding leaves nothing of a part.
pub proof fn law_a_job_kept_back_is_told_why<
    W: Fn(Scalar) -> Scalar,
    N: Fn(Scalar, Scalar) -> bool,
>(
    request: &RunNestRequest,
    sheets_usable: &Vec<bool>,
    parts_padded: &Vec<Padding>,
    bit: usize,
    measures: &Vec<PartMeasure>,
    wrap: &W,
    near: &N,
    job: Result<(), String>,
    message: String,
    i: int,
)
    requires
        call_ensures(
            crate::config::validate_job,
            (request.sheets@.len() as usize, request.parts@.len() as usize, &request.config),
            job,
        ),
        call_ensures(
            prepare_nest_inputs::<W, N>,
            (request, sheets_usable, parts_padded, bit, measures, wrap, near),
            Err::<ExpandedParts, String>(message),
        ),
    ensures
        job is Err ==> message@ == job->Err_0@,
        job is Ok && 0 <= i < sheets_usable@.len() && !sheets_usable@[i] ==> message@
            == "margin/spacing leaves a sheet with no usable area"@,
        job is Ok && (forall|k: int|
            0 <= k < sheets_usable@.len() ==> #[trigger] sheets_usable@[k]) && copies(
            request.parts@,
        ) == 0 ==> message@ == "every part had quantity 0"@,
        job is Ok && (forall|k: int|
            0 <= k < sheets_usable@.len() ==> #[trigger] sheets_usable@[k]) && copies(
            request.parts@,
        ) != 0 ==> message@ == "spacing leaves a part with no usable outline"@,
{
    assert(request.sheets@.len() == request.sheets.len());
    assert(request.parts@.len() == request.parts.len());
}

} // verus!
