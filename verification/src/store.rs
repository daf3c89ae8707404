//! The saved parts library and the shelf of offcuts.

use vstd::prelude::*;
use crate::console::epoch_seconds;
use crate::order::{lemma_can_be_listed, lemma_rising_is_unique, orders, rising};
use crate::scalar::Scalar;
use crate::shape::PolygonDto;
use crate::text::{comes_before, law_text_order, padded, padded_text, text_before};

verus! {

#[derive(Clone, Copy, PartialEq, Eq, Structural, Debug)]
pub enum StoredKind {
    /// Something to cut.
    Part,
    /// Something to cut it from.
    Remnant,
}

/// A shape kept for later.
pub struct StoredShape {
    /// Unique within the store and never used again, so that whoever holds an id
    /// across a removal finds nothing rather than something else.
    pub id: usize,
    pub kind: StoredKind,
    pub name: String,
    pub polygon: PolygonDto,
    pub default_qty: usize,
    pub allowed_rotations: Option<Vec<Scalar>>,
    pub mirror: Option<bool>,
    /// When it was kept, in a form that sorts as text.
    pub created: String,
    /// An offcut that was nested onto: no longer offered, still on record.
    pub consumed: bool,
}

/// The library as it is saved.
pub struct ShapeStore {
    pub version: u32,
    pub shapes: Vec<StoredShape>,
    /// The next id to give out. Kept rather than worked out, so that removing
    /// the newest shape does not free its id.
    pub next_id: usize,
}

impl Default for ShapeStore {
    fn default() -> (r: Self)
        ensures
            r.version == 1,
            r.shapes@.len() == 0,
            r.next_id == 1,
    {
        ShapeStore { version: 1, shapes: Vec::new(), next_id: 1 }
    }
}

/// Whether an id is above every id of a list of shapes.
pub open spec fn above_all(id: int, shapes: Seq<StoredShape>) -> bool {
    forall|i: int| 0 <= i < shapes.len() ==> (#[trigger] shapes[i]).id < id
}

/// The lowest id from `floor` on that is above every id of a list of shapes.
pub open spec fn free_id(shapes: Seq<StoredShape>, floor: int) -> int
    decreases shapes.len(),
{
    if shapes.len() == 0 {
        floor
    } else {
        let rest = free_id(shapes.drop_last(), floor);
        if shapes.last().id >= rest {
            shapes.last().id + 1
        } else {
            rest
        }
    }
}

/// Where a shape first stands in a list, or the length where it does not.
pub open spec fn first_place(shapes: Seq<StoredShape>, id: usize) -> int
    decreases shapes.len(),
{
    if shapes.len() == 0 {
        0
    } else {
        let rest = first_place(shapes.drop_last(), id);
        if rest < shapes.len() - 1 {
            rest
        } else if shapes.last().id == id {
            shapes.len() - 1
        } else {
            shapes.len() as int
        }
    }
}

/// Shapes with the first of an id marked used up.
pub open spec fn marked_used(shapes: Seq<StoredShape>, id: usize) -> Seq<StoredShape> {
    let place = first_place(shapes, id);
    if place < shapes.len() {
        shapes.update(place, StoredShape { consumed: true, ..shapes[place] })
    } else {
        shapes
    }
}

/// Shapes with the first of each of some ids marked used up.
pub open spec fn all_used(shapes: Seq<StoredShape>, ids: Seq<usize>) -> Seq<StoredShape>
    decreases ids.len(),
{
    if ids.len() == 0 {
        shapes
    } else {
        marked_used(all_used(shapes, ids.drop_last()), ids.last())
    }
}

/// How many of some ids stand for a shape.
pub open spec fn found_count(shapes: Seq<StoredShape>, ids: Seq<usize>) -> nat
    decreases ids.len(),
{
    if ids.len() == 0 {
        0
    } else {
        found_count(shapes, ids.drop_last()) + (if first_place(shapes, ids.last())
            < shapes.len() {
            1nat
        } else {
            0
        })
    }
}

/// Marking shapes used up moves none of them.
pub proof fn lemma_using_keeps_places(shapes: Seq<StoredShape>, ids: Seq<usize>, id: usize)
    ensures
        all_used(shapes, ids).len() == shapes.len(),
        first_place(all_used(shapes, ids), id) == first_place(shapes, id),
    decreases ids.len(),
{
    if ids.len() > 0 {
        let rest = all_used(shapes, ids.drop_last());
        lemma_using_keeps_places(shapes, ids.drop_last(), id);
        lemma_first_place_range(rest, ids.last());
        lemma_same_ids_same_place(rest, all_used(shapes, ids), id);
    }
}

proof fn lemma_first_place_range(shapes: Seq<StoredShape>, id: usize)
    ensures
        0 <= first_place(shapes, id) <= shapes.len(),
    decreases shapes.len(),
{
    if shapes.len() > 0 {
        lemma_first_place_range(shapes.drop_last(), id);
    }
}

proof fn lemma_same_ids_same_place(a: Seq<StoredShape>, b: Seq<StoredShape>, id: usize)
    requires
        a.len() == b.len(),
        forall|i: int| 0 <= i < a.len() ==> (#[trigger] a[i]).id == b[i].id,
    ensures
        first_place(a, id) == first_place(b, id),
    decreases a.len(),
{
    if a.len() > 0 {
        let x = a.drop_last();
        let y = b.drop_last();
        assert forall|i: int| 0 <= i < x.len() implies (#[trigger] x[i]).id == y[i].id by {
            assert(a[i].id == b[i].id);
        }
        lemma_same_ids_same_place(x, y, id);
        assert(a[a.len() - 1].id == b[a.len() - 1].id);
    }
}

/// Whether a shape is offered: of the kind asked for, and not used up.
pub open spec fn offered(shape: StoredShape, kind: StoredKind) -> bool {
    shape.kind == kind && !shape.consumed
}

/// Whether one shape of a list comes before another: kept earlier, or at the
/// same time and listed earlier.
pub open spec fn older(shapes: Seq<StoredShape>, a: int, b: int) -> bool {
    text_before(shapes[a].created@, shapes[b].created@) || (shapes[a].created@
        == shapes[b].created@ && a < b)
}

/// Whether a list of places holds exactly the shapes offered, the oldest first.
pub open spec fn shelves(places: Seq<int>, shapes: Seq<StoredShape>, kind: StoredKind) -> bool {
    &&& rising(places, |a: int, b: int| older(shapes, a, b))
    &&& forall|i: int|
        #![trigger places.contains(i)]
        places.contains(i) <==> 0 <= i < shapes.len() && offered(shapes[i], kind)
}

/// The places of the shapes offered, the oldest first.
pub open spec fn shelf(shapes: Seq<StoredShape>, kind: StoredKind) -> Seq<int> {
    choose|places: Seq<int>| shelves(places, shapes, kind)
}

proof fn lemma_older_orders(shapes: Seq<StoredShape>)
    ensures
        orders(|a: int, b: int| older(shapes, a, b)),
{
    let before = |a: int, b: int| older(shapes, a, b);
    assert forall|x: int, y: int| #[trigger] before(x, y) implies !before(y, x) by {
        lemma_older_is_strict(shapes, x, y, x);
    }
    assert forall|x: int, y: int, z: int| #[trigger]
        before(x, y) && #[trigger] before(y, z) implies before(x, z) by {
        lemma_older_is_strict(shapes, x, y, z);
    }
    assert forall|x: int, y: int| #[trigger] before(x, y) || before(y, x) || x == y by {
        law_text_order(shapes[x].created@, shapes[y].created@, shapes[x].created@);
    }
}

proof fn lemma_older_is_strict(shapes: Seq<StoredShape>, a: int, b: int, c: int)
    ensures
        older(shapes, a, b) ==> !older(shapes, b, a),
        older(shapes, a, b) && older(shapes, b, c) ==> older(shapes, a, c),
{
    law_text_order(shapes[a].created@, shapes[b].created@, shapes[c].created@);
    law_text_order(shapes[b].created@, shapes[a].created@, shapes[c].created@);
}

/// There is only one list of the shapes offered, the oldest first.
pub proof fn law_shelf_is_listed_one_way(
    places: Seq<int>,
    shapes: Seq<StoredShape>,
    kind: StoredKind,
)
    requires
        shelves(places, shapes, kind),
    ensures
        shelf(shapes, kind) == places,
{
    let chosen = shelf(shapes, kind);
    assert(shelves(chosen, shapes, kind));
    let before = |a: int, b: int| older(shapes, a, b);
    lemma_older_orders(shapes);
    assert forall|x: int| chosen.contains(x) <==> places.contains(x) by {}
    lemma_rising_is_unique(chosen, places, before);
}

/// The shelf holds every shape offered and nothing else, the oldest first.
pub proof fn law_shelf_holds_what_is_offered(shapes: Seq<StoredShape>, kind: StoredKind)
    ensures
        shelves(shelf(shapes, kind), shapes, kind),
{
    let all = Seq::new(shapes.len(), |i: int| i);
    let wanted = |i: int| offered(shapes[i], kind);
    let items = all.filter(wanted);
    lemma_older_orders(shapes);
    let places = lemma_can_be_listed(items, |a: int, b: int| older(shapes, a, b));
    assert forall|i: int|
        #![trigger places.contains(i)]
        places.contains(i) <==> 0 <= i < shapes.len() && offered(shapes[i], kind) by {
        assert(places.contains(i) <==> items.contains(i));
        if items.contains(i) {
            let k = choose|k: int| 0 <= k < items.len() && items[k] == i;
            all.lemma_filter_pred(wanted, k);
            all.lemma_filter_contains_rev(wanted, i);
        }
        if 0 <= i < shapes.len() && offered(shapes[i], kind) {
            assert(all[i] == i && wanted(all[i]));
            all.lemma_filter_contains(wanted, i);
        }
    }
    assert(shelves(places, shapes, kind));
}

/// What was asked of a store: an id that it gave out, one that was removed, or
/// one that was marked used up.
pub enum StoreCall {
    Added(usize),
    Removed(usize),
    Consumed(usize),
}

/// Whether a call leads from one state of a store to another.
pub open spec fn leads(before: ShapeStore, call: StoreCall, after: ShapeStore) -> bool {
    &&& after.version == before.version
    &&& match call {
        StoreCall::Added(id) => {
            &&& id == before.issues()
            &&& after.next_id == id + 1
            &&& after.shapes@.len() == before.shapes@.len() + 1
            &&& after.shapes@.drop_last() == before.shapes@
            &&& after.shapes@.last().id == id
            &&& !after.shapes@.last().consumed
        },
        StoreCall::Removed(id) => {
            &&& after.shapes@ == without(before.shapes@, id)
            &&& after.next_id == next_after_removal(before, id)
        },
        StoreCall::Consumed(id) => {
            &&& after.shapes@ == marked_used(before.shapes@, id)
            &&& after.next_id == before.next_id
        },
    }
}

/// The next id once a shape was removed: past the removed id, where a shape had
/// it and the store did not count that far.
pub open spec fn next_after_removal(store: ShapeStore, id: usize) -> int {
    if first_place(store.shapes@, id) < store.shapes@.len() && id < usize::MAX && store.next_id
        <= id {
        id + 1
    } else {
        store.next_id as int
    }
}

impl ShapeStore {
    /// The id the next shape gets.
    pub open spec fn issues(&self) -> int {
        free_id(
            self.shapes@,
            if self.next_id > 1 {
                self.next_id as int
            } else {
                1
            },
        )
    }

    /// Whether so many more shapes can be given ids.
    pub fn has_room(&self, n: usize) -> (r: bool)
        ensures
            r == (self.issues() + n < usize::MAX),
    {
        let mut id: usize = if self.next_id > 1 {
            self.next_id
        } else {
            1
        };
        let ghost floor = id as int;
        let ghost all = self.shapes@;
        let mut i: usize = 0;
        assert(all.subrange(0, 0).len() == 0);
        while i < self.shapes.len()
            invariant
                i <= self.shapes.len(),
                all == self.shapes@,
                self.issues() == free_id(all, floor),
                id == free_id(all.subrange(0, i as int), floor),
            decreases self.shapes.len() - i,
        {
            proof {
                assert(all.subrange(0, i + 1).drop_last() == all.subrange(0, i as int));
                lemma_free_id_grows(all, i + 1, floor);
            }
            if self.shapes[i].id == usize::MAX {
                return false;
            }
            if self.shapes[i].id >= id {
                id = self.shapes[i].id + 1;
            }
            i += 1;
        }
        assert(all.subrange(0, all.len() as int) == all);
        n < usize::MAX - id
    }

    /// Keeps a shape under the next id, and returns that id. A file that does
    /// not say which id comes next still gets one that no shape in it has.
    pub fn add(
        &mut self,
        kind: StoredKind,
        name: String,
        polygon: PolygonDto,
        default_qty: usize,
        allowed_rotations: Option<Vec<Scalar>>,
        mirror: Option<bool>,
        created: String,
    ) -> (id: usize)
        requires
            old(self).issues() < usize::MAX,
        ensures
            leads(*old(self), StoreCall::Added(id), *final(self)),
            id == old(self).issues(),
            final(self).next_id == id + 1,
            final(self).version == old(self).version,
            final(self).shapes@ == old(self).shapes@.push(
                StoredShape {
                    id,
                    kind,
                    name,
                    polygon,
                    default_qty,
                    allowed_rotations,
                    mirror,
                    created,
                    consumed: false,
                },
            ),
    {
        let mut id: usize = if self.next_id > 1 {
            self.next_id
        } else {
            1
        };
        let ghost floor = id as int;
        let ghost all = self.shapes@;
        let mut i: usize = 0;
        assert(all.subrange(0, 0).len() == 0);
        while i < self.shapes.len()
            invariant
                i <= self.shapes.len(),
                all == self.shapes@,
                *self == *old(self),
                free_id(all, floor) < usize::MAX,
                id == free_id(all.subrange(0, i as int), floor),
            decreases self.shapes.len() - i,
        {
            proof {
                assert(all.subrange(0, i + 1).drop_last() == all.subrange(0, i as int));
                lemma_free_id_grows(all, i + 1, floor);
            }
            if self.shapes[i].id >= id {
                id = self.shapes[i].id + 1;
            }
            i += 1;
        }
        assert(all.subrange(0, all.len() as int) == all);
        self.next_id = id + 1;
        self.shapes.push(
            StoredShape {
                id,
                kind,
                name,
                polygon,
                default_qty,
                allowed_rotations,
                mirror,
                created,
                consumed: false,
            },
        );
        assert(self.shapes@.drop_last() =~= all);
        id
    }

    /// Everything of one kind that is still there, the oldest first, so that old
    /// stock is used up before new.
    pub fn available(&self, kind: StoredKind) -> (r: Vec<&StoredShape>)
        ensures
            r@.len() == shelf(self.shapes@, kind).len(),
            forall|k: int|
                0 <= k < r@.len() ==> 0 <= shelf(self.shapes@, kind)[k] < self.shapes@.len()
                    && *(#[trigger] r@[k]) == self.shapes@[shelf(self.shapes@, kind)[k]],
    {
        let ghost shapes = self.shapes@;
        let mut places: Vec<usize> = Vec::new();
        let mut n: usize = 0;
        while n < self.shapes.len()
            invariant
                n <= self.shapes.len(),
                shapes == self.shapes@,
                rising(places@.map_values(|p: usize| p as int), |a: int, b: int| older(shapes, a, b)),
                forall|k: int|
                    0 <= k < places@.len() ==> (#[trigger] places@[k]) < n && offered(
                        shapes[places@[k] as int],
                        kind,
                    ),
                forall|i: int|
                    0 <= i < n && offered(#[trigger] shapes[i], kind) ==> places@.contains(
                        i as usize,
                    ),
            decreases self.shapes.len() - n,
        {
            let ghost before = places@;
            if self.shapes[n].kind == kind && !self.shapes[n].consumed {
                let mut at: usize = places.len();
                while at > 0 && comes_before(
                    self.shapes[n].created.as_str(),
                    self.shapes[places[at - 1]].created.as_str(),
                )
                    invariant
                        at <= places.len(),
                        n < self.shapes.len(),
                        shapes == self.shapes@,
                        forall|k: int|
                            0 <= k < places@.len() ==> (#[trigger] places@[k]) < n,
                        forall|k: int|
                            at <= k < places@.len() ==> text_before(
                                shapes[n as int].created@,
                                shapes[#[trigger] places@[k] as int].created@,
                            ),
                    decreases at,
                {
                    at -= 1;
                }
                places.insert(at, n);
                proof {
                    lemma_shelved(shapes, before, at as int, n as int);
                    assert(places@.map_values(|p: usize| p as int) =~= before.map_values(
                        |p: usize| p as int,
                    ).insert(at as int, n as int));
                }
            }
            proof {
                assert forall|i: int| 0 <= i < n + 1 && offered(
                    #[trigger] shapes[i],
                    kind,
                ) implies places@.contains(i as usize) by {
                    if i < n {
                        assert(before.contains(i as usize));
                        let k = choose|k: int| 0 <= k < before.len() && before[k] == i as usize;
                        if places@.len() > before.len() {
                            let at = choose|at: int|
                                0 <= at <= before.len() && places@ == before.insert(at, n);
                            assert(places@[if k < at { k } else { k + 1 }] == i as usize);
                        }
                    } else {
                        let at = choose|at: int|
                            0 <= at <= before.len() && places@ == before.insert(at, n);
                        assert(places@[at] == n);
                    }
                }
            }
            n += 1;
        }
        let ghost listed = places@.map_values(|p: usize| p as int);
        proof {
            assert forall|i: int| #![trigger listed.contains(i)] listed.contains(i) <==> 0 <= i
                < shapes.len() && offered(shapes[i], kind) by {
                if 0 <= i < shapes.len() && offered(shapes[i], kind) {
                    assert(places@.contains(i as usize));
                    let k = choose|k: int| 0 <= k < places@.len() && places@[k] == i as usize;
                    assert(listed[k] == i);
                }
                if listed.contains(i) {
                    let k = choose|k: int| 0 <= k < listed.len() && listed[k] == i;
                    assert(places@[k] as int == i);
                }
            }
            law_shelf_is_listed_one_way(listed, shapes, kind);
        }
        let mut out: Vec<&StoredShape> = Vec::new();
        let mut k: usize = 0;
        while k < places.len()
            invariant
                k <= places.len(),
                shapes == self.shapes@,
                listed == places@.map_values(|p: usize| p as int),
                forall|j: int| 0 <= j < places@.len() ==> (#[trigger] places@[j]) < shapes.len(),
                out@.len() == k,
                forall|j: int| 0 <= j < k ==> *(#[trigger] out@[j]) == shapes[listed[j]],
            decreases places.len() - k,
        {
            out.push(&self.shapes[places[k]]);
            k += 1;
        }
        out
    }

    /// Marks an offcut used up. Says whether there was one of that id.
    pub fn consume(&mut self, id: usize) -> (r: bool)
        ensures
            leads(*old(self), StoreCall::Consumed(id), *final(self)),
            r == (first_place(old(self).shapes@, id) < old(self).shapes@.len()),
            final(self).shapes@ == marked_used(old(self).shapes@, id),
            final(self).next_id == old(self).next_id,
            final(self).version == old(self).version,
    {
        let mut i: usize = 0;
        assert(self.shapes@.subrange(0, 0).len() == 0);
        while i < self.shapes.len()
            invariant
                i <= self.shapes.len(),
                *self == *old(self),
                first_place(self.shapes@.subrange(0, i as int), id) == i,
            decreases self.shapes.len() - i,
        {
            proof {
                assert(self.shapes@.subrange(0, i + 1).drop_last() == self.shapes@.subrange(
                    0,
                    i as int,
                ));
                assert(self.shapes@.subrange(0, i + 1).last() == self.shapes@[i as int]);
            }
            if self.shapes[i].id == id {
                proof {
                    lemma_first_place_stands(self.shapes@, i + 1, id);
                }
                self.shapes[i].consumed = true;
                return true;
            }
            i += 1;
        }
        assert(self.shapes@.subrange(0, self.shapes@.len() as int) == self.shapes@);
        false
    }

    /// Takes a shape out for good. Says whether there was one of that id. The id
    /// is not given out again.
    pub fn remove(&mut self, id: usize) -> (r: bool)
        ensures
            leads(*old(self), StoreCall::Removed(id), *final(self)),
            final(self).shapes@ == without(old(self).shapes@, id),
            r == (first_place(old(self).shapes@, id) < old(self).shapes@.len()),
            final(self).next_id == next_after_removal(*old(self), id),
            final(self).version == old(self).version,
    {
        let ghost all = self.shapes@;
        let mut found = false;
        let mut i: usize = 0;
        let ghost mut done: int = 0;
        proof {
            reveal(Seq::filter);
            assert(all.subrange(0, 0) =~= Seq::<StoredShape>::empty());
            assert(all.subrange(0, all.len() as int) =~= all);
        }
        while i < self.shapes.len()
            invariant
                0 <= i <= self.shapes@.len(),
                0 <= done <= all.len(),
                self.shapes@.len() - i == all.len() - done,
                self.shapes@.subrange(0, i as int) == without(all.subrange(0, done), id),
                self.shapes@.subrange(i as int, self.shapes@.len() as int) == all.subrange(
                    done,
                    all.len() as int,
                ),
                found == (first_place(all.subrange(0, done), id) < done),
                self.next_id == old(self).next_id,
                self.version == old(self).version,
            decreases self.shapes@.len() - i,
        {
            let ghost before = self.shapes@;
            proof {
                assert(all.subrange(0, done + 1).drop_last() == all.subrange(0, done));
                assert(before.subrange(i as int, before.len() as int)[0] == all.subrange(
                    done,
                    all.len() as int,
                )[0]);
                assert(before[i as int] == all[done]);
                reveal(Seq::filter);
            }
            if self.shapes[i].id == id {
                let _ = self.shapes.remove(i);
                found = true;
                proof {
                    assert(self.shapes@.subrange(0, i as int) =~= before.subrange(0, i as int));
                    assert(self.shapes@.subrange(i as int, self.shapes@.len() as int)
                        =~= before.subrange(i as int, before.len() as int).subrange(
                        1,
                        before.len() - i,
                    ));
                    assert(all.subrange(done, all.len() as int).subrange(1, all.len() - done)
                        =~= all.subrange(done + 1, all.len() as int));
                }
            } else {
                i += 1;
                proof {
                    assert(self.shapes@.subrange(0, i as int) =~= before.subrange(
                        0,
                        i - 1,
                    ).push(all[done]));
                    assert(self.shapes@.subrange(i as int, self.shapes@.len() as int)
                        =~= before.subrange(i - 1, before.len() as int).subrange(
                        1,
                        before.len() - i + 1,
                    ));
                    assert(all.subrange(done, all.len() as int).subrange(1, all.len() - done)
                        =~= all.subrange(done + 1, all.len() as int));
                }
            }
            proof {
                done = done + 1;
            }
        }
        proof {
            assert(self.shapes@.subrange(0, i as int) =~= self.shapes@);
            assert(all.subrange(0, all.len() as int) =~= all);
        }
        if found && id < usize::MAX && self.next_id <= id {
            self.next_id = id + 1;
        }
        found
    }
}

/// A list of shapes without those of one id.
pub open spec fn without(shapes: Seq<StoredShape>, id: usize) -> Seq<StoredShape> {
    shapes.filter(|s: StoredShape| s.id != id)
}

/// The next id is above every id in the store and not below the one kept with
/// it, so it is unique.
pub proof fn law_new_ids_are_unique(shapes: Seq<StoredShape>, floor: int)
    ensures
        above_all(free_id(shapes, floor), shapes),
        free_id(shapes, floor) >= floor,
    decreases shapes.len(),
{
    if shapes.len() > 0 {
        let rest = shapes.drop_last();
        law_new_ids_are_unique(rest, floor);
        assert forall|i: int| 0 <= i < shapes.len() implies (#[trigger] shapes[i]).id < free_id(
            shapes,
            floor,
        ) by {
            if i < rest.len() {
                assert(rest[i] == shapes[i]);
            }
        }
    }
}

/// Once removed, an id is never given out again: whatever a store still holds,
/// the next id lies above every floor that was ever set, and removing a shape
/// and adding one both leave a floor above its id.
pub proof fn law_removed_ids_are_not_reused(before: ShapeStore, after: ShapeStore, id: usize)
    requires
        first_place(before.shapes@, id) < before.shapes@.len(),
        id < usize::MAX,
        leads(before, StoreCall::Removed(id), after),
    ensures
        after.issues() > id,
        after.next_id >= before.next_id,
        first_place(after.shapes@, id) == after.shapes@.len(),
{
    let floor = if after.next_id > 1 {
        after.next_id as int
    } else {
        1
    };
    law_new_ids_are_unique(after.shapes@, floor);
    let left = after.shapes@;
    assert forall|i: int| 0 <= i < left.len() implies (#[trigger] left[i]).id != id by {
        before.shapes@.lemma_filter_pred(|s: StoredShape| s.id != id, i);
    }
    lemma_absent(left, id);
}

/// Whether calls lead a store through states, one after the other.
pub open spec fn runs(states: Seq<ShapeStore>, calls: Seq<StoreCall>) -> bool {
    &&& states.len() == calls.len() + 1
    &&& forall|k: int|
        #![trigger calls[k]]
        0 <= k < calls.len() ==> leads(states[k], calls[k], states[k + 1])
}

/// Whether every id in a store is below the one it gives out next.
pub open spec fn counts_past(store: ShapeStore) -> bool {
    store.next_id >= 1 && above_all(store.next_id as int, store.shapes@)
}

proof fn lemma_next_id_never_falls(states: Seq<ShapeStore>, calls: Seq<StoreCall>, i: int, j: int)
    requires
        runs(states, calls),
        0 <= i <= j < states.len(),
    ensures
        states[i].next_id <= states[j].next_id,
    decreases j - i,
{
    if i < j {
        lemma_next_id_never_falls(states, calls, i, j - 1);
        let before = states[j - 1];
        assert(leads(before, calls[j - 1], states[j]));
        law_new_ids_are_unique(
            before.shapes@,
            if before.next_id > 1 {
                before.next_id as int
            } else {
                1
            },
        );
    }
}

/// Whatever is added, removed and used up in between, no id is given out twice:
/// a later one is always higher.
pub proof fn law_no_id_is_given_out_twice(
    states: Seq<ShapeStore>,
    calls: Seq<StoreCall>,
    i: int,
    j: int,
)
    requires
        runs(states, calls),
        0 <= i < j < calls.len(),
        calls[i] is Added,
        calls[j] is Added,
    ensures
        calls[i]->Added_0 < calls[j]->Added_0,
{
    assert(leads(states[i], calls[i], states[i + 1]));
    assert(leads(states[j], calls[j], states[j + 1]));
    lemma_next_id_never_falls(states, calls, i + 1, j);
    law_new_ids_are_unique(
        states[j].shapes@,
        if states[j].next_id > 1 {
            states[j].next_id as int
        } else {
            1
        },
    );
}

/// A store that began empty counts past every id it holds, whatever was asked of
/// it.
pub proof fn law_a_store_counts_past_its_ids(
    states: Seq<ShapeStore>,
    calls: Seq<StoreCall>,
    k: int,
)
    requires
        runs(states, calls),
        states[0].shapes@.len() == 0,
        states[0].next_id == 1,
        0 <= k < states.len(),
    ensures
        counts_past(states[k]),
    decreases k,
{
    if k > 0 {
        law_a_store_counts_past_its_ids(states, calls, k - 1);
        let before = states[k - 1];
        let after = states[k];
        assert(leads(before, calls[k - 1], after));
        lemma_next_id_never_falls(states, calls, k - 1, k);
        law_new_ids_are_unique(
            before.shapes@,
            if before.next_id > 1 {
                before.next_id as int
            } else {
                1
            },
        );
        assert forall|i: int| 0 <= i < after.shapes@.len() implies (
        #[trigger] after.shapes@[i]).id < after.next_id by {
            match calls[k - 1] {
                StoreCall::Added(id) => {
                    if i < before.shapes@.len() {
                        assert(after.shapes@.drop_last()[i] == after.shapes@[i]);
                        assert(before.shapes@[i].id < before.next_id);
                    }
                },
                StoreCall::Removed(id) => {
                    let kept = |s: StoredShape| s.id != id;
                    before.shapes@.lemma_filter_contains_rev(kept, after.shapes@[i]);
                    let m = choose|m: int|
                        0 <= m < before.shapes@.len() && before.shapes@[m] == after.shapes@[i];
                    assert(before.shapes@[m].id < before.next_id);
                },
                StoreCall::Consumed(id) => {
                    lemma_first_place_range(before.shapes@, id);
                    assert(before.shapes@[i].id < before.next_id);
                },
            }
        }
    }
}

proof fn lemma_absent(shapes: Seq<StoredShape>, id: usize)
    requires
        forall|i: int| 0 <= i < shapes.len() ==> (#[trigger] shapes[i]).id != id,
    ensures
        first_place(shapes, id) == shapes.len(),
    decreases shapes.len(),
{
    if shapes.len() > 0 {
        let rest = shapes.drop_last();
        assert forall|i: int| 0 <= i < rest.len() implies (#[trigger] rest[i]).id != id by {
            assert(rest[i] == shapes[i]);
        }
        lemma_absent(rest, id);
        assert(shapes[shapes.len() - 1].id != id);
    }
}

/// When a shape is kept, in a form that sorts as text: the seconds since 1970
/// in twelve digits.
pub fn stamp_of(seconds: u64) -> (r: String)
    ensures
        r@ == padded(seconds as nat, 12),
{
    padded_text(seconds, 12)
}

/// The present moment in a form that sorts as text.
pub fn now_stamp() -> (r: String)
    ensures
        exists|seconds: nat| r@ == #[trigger] padded(seconds, 12),
{
    match epoch_seconds() {
        Some(seconds) => stamp_of(seconds),
        None => stamp_of(0),
    }
}

proof fn lemma_first_place_stands(shapes: Seq<StoredShape>, upto: int, id: usize)
    requires
        0 <= upto <= shapes.len(),
        first_place(shapes.subrange(0, upto), id) < upto,
    ensures
        first_place(shapes, id) == first_place(shapes.subrange(0, upto), id),
    decreases shapes.len() - upto,
{
    if upto < shapes.len() {
        assert(shapes.subrange(0, upto + 1).drop_last() == shapes.subrange(0, upto));
        lemma_first_place_stands(shapes, upto + 1, id);
    } else {
        assert(shapes.subrange(0, upto) == shapes);
    }
}

proof fn lemma_free_id_grows(shapes: Seq<StoredShape>, upto: int, floor: int)
    requires
        0 <= upto <= shapes.len(),
    ensures
        free_id(shapes.subrange(0, upto), floor) <= free_id(shapes, floor),
    decreases shapes.len() - upto,
{
    if upto < shapes.len() {
        assert(shapes.subrange(0, upto + 1).drop_last() == shapes.subrange(0, upto));
        lemma_free_id_grows(shapes, upto + 1, floor);
    } else {
        assert(shapes.subrange(0, upto) == shapes);
    }
}

proof fn lemma_shelved(shapes: Seq<StoredShape>, places: Seq<usize>, at: int, n: int)
    requires
        0 <= at <= places.len(),
        0 <= n < shapes.len(),
        rising(places.map_values(|p: usize| p as int), |a: int, b: int| older(shapes, a, b)),
        forall|k: int| 0 <= k < places.len() ==> (#[trigger] places[k]) < n,
        forall|k: int|
            at <= k < places.len() ==> text_before(
                shapes[n].created@,
                shapes[#[trigger] places[k] as int].created@,
            ),
        at > 0 ==> !text_before(
            shapes[n].created@,
            shapes[places[at - 1] as int].created@,
        ),
    ensures
        rising(
            places.map_values(|p: usize| p as int).insert(at, n),
            |a: int, b: int| older(shapes, a, b),
        ),
{
    let old_places = places.map_values(|p: usize| p as int);
    let after = old_places.insert(at, n);
    assert forall|i: int, j: int| 0 <= i < j < after.len() implies older(
        shapes,
        after[i],
        after[j],
    ) by {
        if j == at {
            assert(after[i] == old_places[i]);
            let last = old_places[at - 1];
            assert(places[at - 1] < n);
            law_text_order(shapes[last].created@, shapes[n].created@, shapes[n].created@);
            assert(older(shapes, last, n));
            if i < at - 1 {
                assert(older(shapes, old_places[i], last));
                lemma_older_is_strict(shapes, old_places[i], last, n);
            }
        } else if i == at {
            assert(after[j] == places[j - 1] as int);
        } else {
            let x = if i < at { i } else { i - 1 };
            let y = if j < at { j } else { j - 1 };
            assert(after[i] == old_places[x] && after[j] == old_places[y]);
            assert(older(shapes, old_places[x], old_places[y]));
        }
    }
}

// --- what the library of shapes promises ----------------------------------

proof fn lemma_first_is_first(shapes: Seq<StoredShape>, id: usize)
    ensures
        0 <= first_place(shapes, id) <= shapes.len(),
        first_place(shapes, id) < shapes.len() ==> shapes[first_place(shapes, id)].id == id,
        forall|i: int|
            0 <= i < first_place(shapes, id) ==> (#[trigger] shapes[i]).id != id,
    decreases shapes.len(),
{
    if shapes.len() > 0 {
        let rest = shapes.drop_last();
        lemma_first_is_first(rest, id);
        assert forall|i: int| 0 <= i < first_place(shapes, id) implies (
        #[trigger] shapes[i]).id != id by {
            if i < rest.len() {
                assert(rest[i] == shapes[i]);
            }
        }
    }
}

proof fn lemma_free_id_is_next(shapes: Seq<StoredShape>, floor: int)
    ensures
        free_id(shapes, floor) == floor || exists|i: int|
            0 <= i < shapes.len() && (#[trigger] shapes[i]).id + 1 == free_id(shapes, floor),
    decreases shapes.len(),
{
    if shapes.len() > 0 {
        let rest = shapes.drop_last();
        lemma_free_id_is_next(rest, floor);
        if shapes.last().id >= free_id(rest, floor) {
            assert(shapes[shapes.len() - 1].id + 1 == free_id(shapes, floor));
        } else if free_id(rest, floor) != floor {
            let i = choose|i: int|
                0 <= i < rest.len() && (#[trigger] rest[i]).id + 1 == free_id(rest, floor);
            assert(shapes[i] == rest[i]);
        }
    }
}

/// A shape that is kept stands behind the others, as it was given, unused, and
/// under an id that is above every id in the library and was never due before;
/// the next one will be above it. The others stay as they are.
pub proof fn law_a_kept_shape_gets_a_new_id(
    store: &mut ShapeStore,
    kind: StoredKind,
    name: String,
    polygon: PolygonDto,
    qty: usize,
    rotations: Option<Vec<Scalar>>,
    mirror: Option<bool>,
    created: String,
    id: usize,
    i: int,
)
    requires
        call_ensures(
            ShapeStore::add,
            (store, kind, name, polygon, qty, rotations, mirror, created),
            id,
        ),
    ensures
        id >= 1,
        id >= old(store).next_id,
        0 <= i < old(store).shapes@.len() ==> old(store).shapes@[i].id < id && final(
            store).shapes@[i] == old(store).shapes@[i],
        id == 1 || id == old(store).next_id || exists|k: int|
            0 <= k < old(store).shapes@.len() && (#[trigger] old(store).shapes@[k]).id + 1 == id,
        final(store).next_id == id + 1,
        final(store).version == old(store).version,
        final(store).shapes@.len() == old(store).shapes@.len() + 1,
        ({
            let kept = final(store).shapes@[old(store).shapes@.len() as int];
            &&& kept.id == id
            &&& kept.kind == kind
            &&& kept.name == name
            &&& kept.polygon == polygon
            &&& kept.default_qty == qty
            &&& kept.allowed_rotations == rotations
            &&& kept.mirror == mirror
            &&& kept.created == created
            &&& !kept.consumed
        }),
{
    let shapes = old(store).shapes@;
    let floor = if old(store).next_id > 1 {
        old(store).next_id as int
    } else {
        1
    };
    law_new_ids_are_unique(shapes, floor);
    lemma_free_id_is_next(shapes, floor);
}

/// The library offers every shape of a kind that is not used up, and no other,
/// each once, those kept earlier first.
pub proof fn law_the_library_offers_what_is_left(
    store: &ShapeStore,
    kind: StoredKind,
    r: Vec<&StoredShape>,
    i: int,
    a: int,
    b: int,
)
    requires
        call_ensures(ShapeStore::available, (store, kind), r),
    ensures
        0 <= a < r@.len() ==> r@[a].kind == kind && !r@[a].consumed,
        0 <= a < r@.len() ==> exists|k: int|
            0 <= k < store.shapes@.len() && #[trigger] store.shapes@[k] == *r@[a],
        0 <= i < store.shapes@.len() && store.shapes@[i].kind == kind
            && !store.shapes@[i].consumed ==> exists|k: int|
            0 <= k < r@.len() && *(#[trigger] r@[k]) == store.shapes@[i],
        0 <= a < b < r@.len() ==> text_before(r@[a].created@, r@[b].created@)
            || r@[a].created@ == r@[b].created@,
        exists|places: Seq<int>|
            {
                &&& places.len() == r@.len()
                &&& places.no_duplicates()
                &&& forall|k: int|
                    0 <= k < r@.len() ==> 0 <= #[trigger] places[k] < store.shapes@.len() && *r@[k]
                        == store.shapes@[places[k]]
            },
{
    let shapes = store.shapes@;
    let places = shelf(shapes, kind);
    law_shelf_holds_what_is_offered(shapes, kind);
    lemma_older_orders(shapes);
    let before = |x: int, y: int| older(shapes, x, y);
    if 0 <= a < r@.len() {
        assert(*r@[a] == shapes[places[a]]);
        assert(places.contains(places[a]));
    }
    if 0 <= i < shapes.len() && shapes[i].kind == kind && !shapes[i].consumed {
        assert(offered(shapes[i], kind));
        assert(places.contains(i));
        let k = choose|k: int| 0 <= k < places.len() && places[k] == i;
        assert(*r@[k] == shapes[i]);
    }
    if 0 <= a < b < r@.len() {
        assert(before(places[a], places[b]));
        assert(*r@[a] == shapes[places[a]] && *r@[b] == shapes[places[b]]);
    }
    assert(places.no_duplicates()) by {
        assert forall|x: int, y: int|
            0 <= x < places.len() && 0 <= y < places.len() && x != y implies places[x]
            != places[y] by {
            if x < y {
                assert(before(places[x], places[y]));
                lemma_older_is_strict(shapes, places[x], places[y], places[x]);
            } else {
                assert(before(places[y], places[x]));
                lemma_older_is_strict(shapes, places[y], places[x], places[y]);
            }
        }
    }
    assert forall|k: int| 0 <= k < r@.len() implies 0 <= #[trigger] places[k] < shapes.len()
        && *r@[k] == shapes[places[k]] by {
        assert(*r@[k] == shapes[places[k]]);
    }
}

/// Using up a shape marks the one of that id and changes nothing else of it, nor
/// any other; and says whether there was one.
pub proof fn law_using_up_marks_one_shape(
    store: &mut ShapeStore,
    id: usize,
    r: bool,
    i: int,
)
    requires
        call_ensures(ShapeStore::consume, (store, id), r),
        0 <= i < old(store).shapes@.len(),
    ensures
        r <==> exists|k: int|
            0 <= k < old(store).shapes@.len() && (#[trigger] old(store).shapes@[k]).id == id,
        final(store).shapes@.len() == old(store).shapes@.len(),
        final(store).shapes@[i] == (StoredShape {
            consumed: final(store).shapes@[i].consumed,
            ..old(store).shapes@[i]
        }),
        old(store).shapes@[i].id != id ==> final(store).shapes@[i].consumed == old(
            store).shapes@[i].consumed,
        old(store).shapes@[i].id == id && (forall|k: int|
            0 <= k < old(store).shapes@.len() && (#[trigger] old(store).shapes@[k]).id == id ==> k
                == i) ==> final(store).shapes@[i].consumed,
        final(store).next_id == old(store).next_id,
        final(store).version == old(store).version,
{
    let shapes = old(store).shapes@;
    let place = first_place(shapes, id);
    lemma_first_is_first(shapes, id);
    if shapes[i].id == id {
        assert(place <= i);
        assert(shapes[place].id == id);
    }
    if place < shapes.len() {
        assert(shapes[place].id == id);
    }
}

/// Removing a shape takes away every shape of that id and no other, leaves the
/// rest in their order, and says whether there was one.
pub proof fn law_removing_takes_only_that_id(store: &mut ShapeStore, id: usize, r: bool)
    requires
        call_ensures(ShapeStore::remove, (store, id), r),
    ensures
        r <==> exists|k: int|
            0 <= k < old(store).shapes@.len() && (#[trigger] old(store).shapes@[k]).id == id,
        final(store).shapes@ == old(store).shapes@.filter(|s: StoredShape| s.id != id),
        final(store).next_id >= old(store).next_id,
        r && id < usize::MAX ==> final(store).next_id > id,
        !r ==> final(store).next_id == old(store).next_id,
        final(store).version == old(store).version,
{
    let shapes = old(store).shapes@;
    lemma_first_is_first(shapes, id);
    if first_place(shapes, id) < shapes.len() {
        assert(shapes[first_place(shapes, id)].id == id);
    }
}

/// There is room for some shapes exactly where the ids they would get are within
/// the machine's numbers.
pub proof fn law_room_is_for_the_ids_to_come(store: &ShapeStore, n: usize, r: bool)
    requires
        call_ensures(ShapeStore::has_room, (store, n), r),
    ensures
        r ==> store.next_id + n < usize::MAX,
        r ==> 1 + n < usize::MAX,
        r ==> forall|i: int|
            0 <= i < store.shapes@.len() ==> (#[trigger] store.shapes@[i]).id + 1 + n
                < usize::MAX,
        !r ==> store.next_id + n >= usize::MAX || 1 + n >= usize::MAX || exists|i: int|
            0 <= i < store.shapes@.len() && (#[trigger] store.shapes@[i]).id + 1 + n
                >= usize::MAX,
{
    let floor = if store.next_id > 1 {
        store.next_id as int
    } else {
        1
    };
    law_new_ids_are_unique(store.shapes@, floor);
    lemma_free_id_is_next(store.shapes@, floor);
    if r {
        assert forall|i: int| 0 <= i < store.shapes@.len() implies (
        #[trigger] store.shapes@[i]).id + 1 + n < usize::MAX by {
            assert(store.shapes@[i].id < free_id(store.shapes@, floor));
        }
    } else if free_id(store.shapes@, floor) != floor {
        let i = choose|i: int|
            0 <= i < store.shapes@.len() && (#[trigger] store.shapes@[i]).id + 1 == free_id(
                store.shapes@,
                floor,
            );
        assert(store.shapes@[i].id + 1 + n >= usize::MAX);
    }
}

/// Marking shapes of some ids used up marks the first shape of each of those ids
/// and changes nothing else of any shape.
pub proof fn lemma_all_used(shapes: Seq<StoredShape>, ids: Seq<usize>, i: int)
    requires
        0 <= i < shapes.len(),
    ensures
        all_used(shapes, ids).len() == shapes.len(),
        all_used(shapes, ids)[i] == (StoredShape {
            consumed: all_used(shapes, ids)[i].consumed,
            ..shapes[i]
        }),
        shapes[i].consumed ==> all_used(shapes, ids)[i].consumed,
        !ids.contains(shapes[i].id) ==> all_used(shapes, ids)[i].consumed == shapes[i].consumed,
        ids.contains(shapes[i].id) && (forall|k: int|
            0 <= k < i ==> (#[trigger] shapes[k]).id != shapes[i].id) ==> all_used(
            shapes,
            ids,
        )[i].consumed,
    decreases ids.len(),
{
    if ids.len() > 0 {
        let before = ids.drop_last();
        let last = ids.last();
        lemma_all_used(shapes, before, i);
        lemma_using_keeps_places(shapes, before, last);
        lemma_first_is_first(shapes, last);
        if before.contains(shapes[i].id) {
            let k = choose|k: int| 0 <= k < before.len() && before[k] == shapes[i].id;
            assert(ids[k] == shapes[i].id);
        }
        assert(ids[ids.len() - 1] == last);
        if ids.contains(shapes[i].id) && !before.contains(shapes[i].id) {
            let k = choose|k: int| 0 <= k < ids.len() && ids[k] == shapes[i].id;
            if k < before.len() {
                assert(before[k] == shapes[i].id);
            }
            assert(last == shapes[i].id);
            if forall|k: int| 0 <= k < i ==> (#[trigger] shapes[k]).id != shapes[i].id {
                if first_place(shapes, last) < i {
                    assert(shapes[first_place(shapes, last)].id != shapes[i].id);
                }
                if first_place(shapes, last) > i {
                    assert(shapes[i].id != last);
                }
            }
        }
    }
}

/// Some shape is found exactly where one of the ids stands in the list.
pub proof fn lemma_found(shapes: Seq<StoredShape>, ids: Seq<usize>)
    ensures
        found_count(shapes, ids) > 0 <==> exists|k: int|
            0 <= k < shapes.len() && ids.contains((#[trigger] shapes[k]).id),
    decreases ids.len(),
{
    if ids.len() > 0 {
        let before = ids.drop_last();
        let last = ids.last();
        lemma_found(shapes, before);
        lemma_first_is_first(shapes, last);
        assert(ids[ids.len() - 1] == last);
        if found_count(shapes, before) > 0 {
            let k = choose|k: int|
                0 <= k < shapes.len() && before.contains((#[trigger] shapes[k]).id);
            let j = choose|j: int| 0 <= j < before.len() && before[j] == shapes[k].id;
            assert(ids[j] == shapes[k].id);
            assert(ids.contains(shapes[k].id));
        }
        if first_place(shapes, last) < shapes.len() {
            assert(ids.contains(shapes[first_place(shapes, last)].id));
        }
        if exists|k: int| 0 <= k < shapes.len() && ids.contains((#[trigger] shapes[k]).id) {
            let k = choose|k: int|
                0 <= k < shapes.len() && ids.contains((#[trigger] shapes[k]).id);
            let j = choose|j: int| 0 <= j < ids.len() && ids[j] == shapes[k].id;
            if j < before.len() {
                assert(before[j] == shapes[k].id);
                assert(before.contains(shapes[k].id));
            } else {
                assert(first_place(shapes, last) <= k);
            }
        }
    }
}

/// What is kept later has the later stamp, as long as the stamps are of one
/// width.
pub proof fn law_later_stamps_sort_behind(a: u64, b: u64, first: String, second: String)
    requires
        a < b,
        b < 1_000_000_000_000,
        call_ensures(stamp_of, (a,), first),
        call_ensures(stamp_of, (b,), second),
    ensures
        text_before(first@, second@),
{
    reveal(vstd::arithmetic::power::pow);
    reveal_with_fuel(vstd::arithmetic::power::pow, 13);
    assert(vstd::arithmetic::power::pow(10, 12) == 1_000_000_000_000);
    crate::text::law_padded_numbers_sort(a as nat, b as nat, 12);
}

} // verus!
