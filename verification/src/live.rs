//! The nest on screen: the finished one with its pins and its undo history,
//! and the one that is being built right now.

use vstd::prelude::*;
use crate::placement::{
    copy_ids, copy_sheets, lemma_same_sheets, sheets_view, PlacedPartDto, SheetModel,
    SheetPlacementDto,
};
use crate::requests::holds_id;
use crate::result::{NestSnapshotDto, NestSnapshotModel};
use crate::scalar::Scalar;

verus! {

// --- a result on screen ---------------------------------------------------

/// A nest as the result panel shows it.
#[derive(Debug)]
pub struct Snapshot {
    pub placements: Vec<SheetPlacementDto>,
    pub fitness: Scalar,
    /// A percentage already.
    pub utilisation: Scalar,
    pub unplaced_count: usize,
    pub unplaced_ids: Vec<usize>,
    /// The parts that are pinned. They belong to this result and to no other.
    pub locked: Vec<usize>,
}

/// What a [`Snapshot`] holds.
#[verifier::ext_equal]
pub struct SnapshotModel {
    pub placements: Seq<SheetModel>,
    pub fitness: Scalar,
    pub utilisation: Scalar,
    pub unplaced_count: usize,
    pub unplaced_ids: Seq<usize>,
    pub locked: Set<usize>,
}

impl View for Snapshot {
    type V = SnapshotModel;

    open spec fn view(&self) -> SnapshotModel {
        SnapshotModel {
            placements: sheets_view(self.placements@),
            fitness: self.fitness,
            utilisation: self.utilisation,
            unplaced_count: self.unplaced_count,
            unplaced_ids: self.unplaced_ids@,
            locked: self.locked@.to_set(),
        }
    }
}

impl Clone for Snapshot {
    fn clone(&self) -> (r: Self)
        ensures
            r@ == self@,
    {
        Snapshot {
            placements: copy_sheets(&self.placements),
            fitness: self.fitness,
            utilisation: self.utilisation,
            unplaced_count: self.unplaced_count,
            unplaced_ids: copy_ids(&self.unplaced_ids),
            locked: copy_ids(&self.locked),
        }
    }
}

/// An entry of a run's history as the panel shows it: nothing is pinned.
pub open spec fn from_entry(h: NestSnapshotModel) -> SnapshotModel {
    SnapshotModel {
        placements: h.placements,
        fitness: h.fitness,
        utilisation: h.utilisation,
        unplaced_count: h.unplaced_count,
        unplaced_ids: h.unplaced_ids,
        locked: Set::empty(),
    }
}

impl Snapshot {
    /// An entry of a run's history as the panel shows it.
    pub fn from_history(h: &NestSnapshotDto) -> (r: Self)
        ensures
            r@ == from_entry(h@),
    {
        let r = Snapshot {
            placements: copy_sheets(&h.placements),
            fitness: h.fitness,
            utilisation: h.utilisation,
            unplaced_count: h.unplaced_count,
            unplaced_ids: copy_ids(&h.unplaced_ids),
            locked: Vec::new(),
        };
        assert(r@.locked =~= Set::empty());
        r
    }

    /// Pins a part, or lets it go if it was pinned. Says whether it is pinned
    /// now.
    pub fn toggle_pin(&mut self, id: usize) -> (pinned: bool)
        ensures
            pinned == !old(self)@.locked.contains(id),
            final(self)@ == (SnapshotModel {
                locked: if pinned {
                    old(self)@.locked.insert(id)
                } else {
                    old(self)@.locked.remove(id)
                },
                ..old(self)@
            }),
    {
        if holds_id(&self.locked, id) {
            let ghost before = self.locked@;
            let mut kept: Vec<usize> = Vec::new();
            let mut i: usize = 0;
            while i < self.locked.len()
                invariant
                    i <= self.locked.len(),
                    self.locked@ == before,
                    *self == *old(self),
                    forall|x: usize|
                        kept@.contains(x) <==> x != id && exists|k: int|
                            0 <= k < i && #[trigger] before[k] == x,
                decreases self.locked.len() - i,
            {
                let x: usize = self.locked[i];
                let ghost so_far = kept@;
                if x != id {
                    kept.push(x);
                }
                proof {
                    assert forall|y: usize| kept@.contains(y) <==> y != id && exists|k: int|
                        0 <= k < i + 1 && #[trigger] before[k] == y by {
                        if so_far.contains(y) {
                            let m = choose|m: int| 0 <= m < so_far.len() && so_far[m] == y;
                            assert(kept@[m] == y);
                        }
                        if y == x && x != id {
                            assert(kept@[so_far.len() as int] == y);
                            assert(before[i as int] == y);
                        }
                        if kept@.contains(y) && !so_far.contains(y) {
                            let m = choose|m: int| 0 <= m < kept@.len() && kept@[m] == y;
                            if m < so_far.len() {
                                assert(so_far[m] == y);
                            }
                            assert(before[i as int] == y);
                        }
                    }
                }
                i += 1;
            }
            self.locked = kept;
            proof {
                assert forall|x: usize| self.locked@.to_set().contains(x)
                    <==> before.to_set().remove(id).contains(x) by {
                    assert(before.contains(x) <==> exists|k: int|
                        0 <= k < before.len() && #[trigger] before[k] == x);
                }
                assert(self@.locked =~= before.to_set().remove(id));
            }
            false
        } else {
            let ghost before = self.locked@;
            self.locked.push(id);
            proof {
                lemma_push_to_set(before, id);
            }
            true
        }
    }

    /// Pins a part.
    pub fn pin(&mut self, id: usize)
        ensures
            final(self)@ == (SnapshotModel {
                locked: old(self)@.locked.insert(id),
                ..old(self)@
            }),
    {
        let ghost before = self.locked@;
        if !holds_id(&self.locked, id) {
            self.locked.push(id);
            proof {
                lemma_push_to_set(before, id);
            }
        } else {
            assert(before.to_set().contains(id));
            assert(before.to_set().insert(id) =~= before.to_set());
        }
    }
}

proof fn lemma_push_to_set(list: Seq<usize>, id: usize)
    ensures
        list.push(id).to_set() == list.to_set().insert(id),
{
    assert forall|x: usize| list.push(id).to_set().contains(x) <==> list.to_set().insert(
        id,
    ).contains(x) by {
        if list.contains(x) {
            let k = choose|k: int| 0 <= k < list.len() && list[k] == x;
            assert(list.push(id)[k] == x);
        }
        assert(list.push(id)[list.len() as int] == id);
        if list.push(id).contains(x) && x != id {
            let k = choose|k: int| 0 <= k < list.push(id).len() && list.push(id)[k] == x;
            assert(list[k] == x);
        }
    }
    assert(list.push(id).to_set() =~= list.to_set().insert(id));
}

/// Where a part first stands in a list, or the length where it does not.
pub open spec fn part_place(parts: Seq<PlacedPartDto>, id: usize) -> int
    decreases parts.len(),
{
    if parts.len() == 0 {
        0
    } else {
        let rest = part_place(parts.drop_last(), id);
        if rest < parts.len() - 1 {
            rest
        } else if parts.last().id == id {
            parts.len() - 1
        } else {
            parts.len() as int
        }
    }
}

/// Where a part first stands in a list, or the length where it does not.
pub fn find_part(parts: &Vec<PlacedPartDto>, id: usize) -> (r: usize)
    ensures
        r == part_place(parts@, id),
        r <= parts@.len(),
{
    let mut i: usize = 0;
    assert(parts@.subrange(0, 0).len() == 0);
    while i < parts.len()
        invariant
            i <= parts.len(),
            part_place(parts@.subrange(0, i as int), id) == i,
        decreases parts.len() - i,
    {
        proof {
            assert(parts@.subrange(0, i + 1).drop_last() == parts@.subrange(0, i as int));
        }
        if parts[i].id == id {
            proof {
                lemma_part_place_stands(parts@, i + 1, id);
            }
            return i;
        }
        i += 1;
    }
    assert(parts@.subrange(0, parts@.len() as int) == parts@);
    i
}

proof fn lemma_part_place_stands(parts: Seq<PlacedPartDto>, upto: int, id: usize)
    requires
        0 <= upto <= parts.len(),
        part_place(parts.subrange(0, upto), id) < upto,
    ensures
        part_place(parts, id) == part_place(parts.subrange(0, upto), id),
    decreases parts.len() - upto,
{
    if upto < parts.len() {
        assert(parts.subrange(0, upto + 1).drop_last() == parts.subrange(0, upto));
        lemma_part_place_stands(parts, upto + 1, id);
    } else {
        assert(parts.subrange(0, upto) == parts);
    }
}

/// Sheets with one part of one of them moved; the same where there is no such
/// part.
pub open spec fn with_part_moved(
    sheets: Seq<SheetModel>,
    sheet: usize,
    part: PlacedPartDto,
) -> Seq<SheetModel> {
    if sheet < sheets.len() {
        let parts = sheets[sheet as int].parts;
        let place = part_place(parts, part.id);
        if place < parts.len() {
            sheets.update(
                sheet as int,
                SheetModel {
                    sheet_index: sheets[sheet as int].sheet_index,
                    parts: parts.update(place, part),
                },
            )
        } else {
            sheets
        }
    } else {
        sheets
    }
}

impl Snapshot {
    /// Moves a part of a sheet, if it is there.
    pub fn move_part(&mut self, sheet: usize, part: PlacedPartDto)
        ensures
            final(self)@ == (SnapshotModel {
                placements: with_part_moved(old(self)@.placements, sheet, part),
                ..old(self)@
            }),
    {
        if sheet < self.placements.len() {
            let ghost before = self.placements@;
            let place: usize = find_part(&self.placements[sheet].parts, part.id);
            if place < self.placements[sheet].parts.len() {
                self.placements[sheet].parts[place] = part;
                assert(sheets_view(self.placements@) =~= with_part_moved(
                    sheets_view(before),
                    sheet,
                    part,
                ));
            }
        }
    }

    /// Puts another arrangement of a sheet in place of the old one.
    pub fn replace_sheet(&mut self, index: usize, placement: SheetPlacementDto)
        requires
            index < old(self).placements@.len(),
        ensures
            final(self)@ == (SnapshotModel {
                placements: old(self)@.placements.update(index as int, placement@),
                ..old(self)@
            }),
    {
        let ghost before = self.placements@;
        self.placements.set(index, placement);
        assert(sheets_view(self.placements@) =~= sheets_view(before).update(
            index as int,
            placement@,
        ));
    }
}

/// Pinning a part and letting it go again changes nothing.
pub proof fn law_toggling_a_pin_twice_changes_nothing(locked: Set<usize>, id: usize)
    ensures
        ({
            let once = if locked.contains(id) {
                locked.remove(id)
            } else {
                locked.insert(id)
            };
            let twice = if once.contains(id) {
                once.remove(id)
            } else {
                once.insert(id)
            };
            twice == locked
        }),
{
    assert(locked.remove(id).insert(id) =~= locked || !locked.contains(id));
    assert(locked.insert(id).remove(id) =~= locked || locked.contains(id));
}

// --- undo and redo --------------------------------------------------------

/// Two stacks of results and the one on screen between them.
pub struct Stacks<T> {
    pub from: Seq<T>,
    pub to: Seq<T>,
    pub current: Option<T>,
}

/// One step along the history: the newest of `from` comes on screen, and what
/// leaves the screen goes onto `to`.
pub open spec fn stepped<T>(s: Stacks<T>) -> Stacks<T> {
    if s.from.len() == 0 {
        s
    } else {
        Stacks {
            from: s.from.drop_last(),
            to: match s.current {
                Some(leaving) => s.to.push(leaving),
                None => s.to,
            },
            current: Some(s.from.last()),
        }
    }
}

/// The same stacks seen from the other end.
pub open spec fn turned<T>(s: Stacks<T>) -> Stacks<T> {
    Stacks { from: s.to, to: s.from, current: s.current }
}

/// One step along the history. Says whether there was one to take. Undo and redo
/// are this same step with the stacks exchanged.
pub fn step_history(
    from: &mut Vec<Snapshot>,
    to: &mut Vec<Snapshot>,
    current: &mut Option<Snapshot>,
) -> (r: bool)
    ensures
        r == (old(from)@.len() > 0),
        (Stacks { from: final(from)@, to: final(to)@, current: *final(current) }) == stepped(
            Stacks { from: old(from)@, to: old(to)@, current: *old(current) },
        ),
        !r ==> *final(from) == *old(from) && *final(to) == *old(to),
{
    if from.len() == 0 {
        return false;
    }
    match from.pop() {
        None => false,
        Some(previous) => {
            let mut leaving = Some(previous);
            std::mem::swap(&mut leaving, current);
            match leaving {
                Some(left) => {
                    to.push(left);
                },
                None => {},
            }
            true
        },
    }
}

/// A step and the step back lead exactly where they started, from any result on
/// screen.
pub proof fn law_undo_and_redo_are_inverse<T>(s: Stacks<T>)
    requires
        s.current is Some,
        s.from.len() > 0,
    ensures
        turned(stepped(turned(stepped(s)))) == s,
{
    let there = stepped(s);
    let back = stepped(turned(there));
    assert(there.to.drop_last() =~= s.to);
    assert(back.to =~= s.from);
}

/// With nothing to step to, a step changes nothing.
pub proof fn law_a_failed_step_moves_nothing<T>(s: Stacks<T>)
    requires
        s.from.len() == 0,
    ensures
        stepped(s) == s,
{
}

/// How many results can be undone.
pub const MAX_UNDO: usize = 32;

/// The undo stack with one more result: the oldest makes room.
pub open spec fn remembered(stack: Seq<SnapshotModel>, now: SnapshotModel) -> Seq<SnapshotModel> {
    if stack.len() >= MAX_UNDO {
        stack.subrange(1, stack.len() as int).push(now)
    } else {
        stack.push(now)
    }
}

/// What a stack of results holds.
pub open spec fn stack_view(stack: Seq<Snapshot>) -> Seq<SnapshotModel> {
    stack.map_values(|s: Snapshot| s@)
}

/// Remembers the result on screen, so that the edit that follows can be undone;
/// what had been undone can no longer be redone.
pub fn remember(
    undo: &mut Vec<Snapshot>,
    redo: &mut Vec<Snapshot>,
    current: &Option<Snapshot>,
)
    requires
        old(undo)@.len() <= MAX_UNDO,
    ensures
        match *current {
            Some(now) => {
                &&& stack_view(final(undo)@) == remembered(stack_view(old(undo)@), now@)
                &&& final(redo)@.len() == 0
                &&& final(undo)@.len() <= MAX_UNDO
            },
            None => *final(undo) == *old(undo) && *final(redo) == *old(redo),
        },
{
    match current {
        Some(now) => {
            let ghost before = undo@;
            if undo.len() == MAX_UNDO {
                let _ = undo.remove(0);
            }
            undo.push(now.clone());
            redo.clear();
            assert(stack_view(undo@) =~= remembered(stack_view(before), now@));
        },
        None => {},
    }
}

// --- the nest being built -------------------------------------------------

/// A position the engine scored for the part it is placing.
#[derive(Clone, Copy, PartialEq, Eq, Structural, Debug)]
pub struct CandidateMark {
    pub x: Scalar,
    pub y: Scalar,
    pub rotation: Scalar,
    pub accepted: bool,
}

/// The part the engine is placing and every position it scored for it.
#[derive(Debug)]
pub struct GhostSet {
    pub sheet: usize,
    pub part_id: usize,
    pub positions: Vec<CandidateMark>,
}

/// What a [`GhostSet`] holds.
#[verifier::ext_equal]
pub struct GhostSetModel {
    pub sheet: usize,
    pub part_id: usize,
    pub positions: Seq<CandidateMark>,
}

impl View for GhostSet {
    type V = GhostSetModel;

    open spec fn view(&self) -> GhostSetModel {
        GhostSetModel { sheet: self.sheet, part_id: self.part_id, positions: self.positions@ }
    }
}

/// What optional marks hold.
pub open spec fn marks_view(marks: Option<GhostSet>) -> Option<GhostSetModel> {
    match marks {
        Some(m) => Some(m@),
        None => None,
    }
}

impl Clone for GhostSet {
    fn clone(&self) -> (r: Self)
        ensures
            r@ == self@,
    {
        let mut positions: Vec<CandidateMark> = Vec::new();
        let mut i: usize = 0;
        while i < self.positions.len()
            invariant
                i <= self.positions.len(),
                positions@ == self.positions@.subrange(0, i as int),
            decreases self.positions.len() - i,
        {
            positions.push(self.positions[i]);
            i += 1;
        }
        assert(self.positions@.subrange(0, self.positions@.len() as int) == self.positions@);
        GhostSet { sheet: self.sheet, part_id: self.part_id, positions }
    }
}

/// The shortest time between two frames, in nanoseconds.
pub const LIVE_FRAME: u64 = 33_000_000;

/// The layout the engine is building, as far as it has come.
pub struct LiveFrame {
    pub sheets: Vec<SheetPlacementDto>,
    pub marks: Option<GhostSet>,
    /// When a frame was last sent, in nanoseconds from any fixed moment.
    pub last_sent: Option<u64>,
}

impl Default for LiveFrame {
    fn default() -> (r: Self)
        ensures
            r.sheets@.len() == 0,
            r.marks is None,
            r.last_sent is None,
    {
        LiveFrame { sheets: Vec::new(), marks: None, last_sent: None }
    }
}

/// Sheets with empty ones added until there is one of the given index.
pub open spec fn opened(sheets: Seq<SheetModel>, index: int) -> Seq<SheetModel> {
    if index < sheets.len() {
        sheets
    } else {
        Seq::new(
            (index + 1) as nat,
            |i: int|
                if i < sheets.len() {
                    sheets[i]
                } else {
                    SheetModel { sheet_index: i as usize, parts: Seq::empty() }
                },
        )
    }
}

/// Sheets with one more part on one of them.
pub open spec fn landed(
    sheets: Seq<SheetModel>,
    index: int,
    part: PlacedPartDto,
) -> Seq<SheetModel> {
    let all = opened(sheets, index);
    all.update(
        index,
        SheetModel { sheet_index: all[index].sheet_index, parts: all[index].parts.push(part) },
    )
}

impl LiveFrame {
    /// Starts over, for the next layout the engine tries.
    pub fn reset(&mut self)
        ensures
            final(self).sheets@.len() == 0,
            final(self).marks is None,
            final(self).last_sent == old(self).last_sent,
    {
        self.sheets.clear();
        self.marks = None;
    }

    /// Adds a part to a sheet, opening the sheets up to it. The marks of the
    /// positions that were tried for it go.
    pub fn push(&mut self, sheet: usize, part: &PlacedPartDto)
        requires
            sheet < usize::MAX,
        ensures
            sheets_view(final(self).sheets@) == landed(
                sheets_view(old(self).sheets@),
                sheet as int,
                PlacedPartDto { locked: false, ..*part },
            ),
            final(self).marks is None,
            final(self).last_sent == old(self).last_sent,
    {
        let ghost start = sheets_view(self.sheets@);
        while self.sheets.len() <= sheet
            invariant
                sheet < usize::MAX,
                start.len() <= self.sheets@.len(),
                self.sheets@.len() <= sheet + 1 || self.sheets@.len() == start.len(),
                forall|i: int|
                    0 <= i < start.len() ==> (#[trigger] self.sheets@[i])@ == start[i],
                forall|i: int|
                    start.len() <= i < self.sheets@.len() ==> (#[trigger] self.sheets@[i])@ == (
                    SheetModel { sheet_index: i as usize, parts: Seq::empty() }),
                self.last_sent == old(self).last_sent,
            decreases sheet + 1 - self.sheets.len(),
        {
            let index: usize = self.sheets.len();
            let ghost before = self.sheets@;
            self.sheets.push(SheetPlacementDto { sheet_index: index, parts: Vec::new() });
            proof {
                assert(self.sheets@.last()@.parts =~= Seq::<PlacedPartDto>::empty());
            }
        }
        proof {
            assert(sheets_view(self.sheets@) =~= opened(start, sheet as int));
        }
        let ghost all = sheets_view(self.sheets@);
        let landed_part = PlacedPartDto {
            id: part.id,
            x: part.x,
            y: part.y,
            rotation: part.rotation,
            locked: false,
        };
        let ghost here = self.sheets@[sheet as int]@;
        self.sheets[sheet].parts.push(landed_part);
        proof {
            assert(sheets_view(self.sheets@) =~= all.update(
                sheet as int,
                SheetModel { sheet_index: here.sheet_index, parts: here.parts.push(landed_part) },
            ));
        }
        self.marks = None;
    }

    /// The layout so far, if enough time has passed since it was last sent.
    /// Holding a frame back never loses anything of the layout.
    pub fn due(&mut self, now: u64) -> (r: Option<(Vec<SheetPlacementDto>, Option<GhostSet>)>)
        ensures
            final(self).sheets == old(self).sheets,
            final(self).marks == old(self).marks,
            ({
                let waits = match old(self).last_sent {
                    Some(sent) => now < sent + LIVE_FRAME,
                    None => false,
                };
                match r {
                    None => waits && final(self).last_sent == old(self).last_sent,
                    Some(frame) => {
                        &&& !waits
                        &&& final(self).last_sent == Some(now)
                        &&& sheets_view(frame.0@) == sheets_view(old(self).sheets@)
                        &&& marks_view(frame.1) == marks_view(old(self).marks)
                    },
                }
            }),
    {
        match self.last_sent {
            Some(sent) => {
                let passed: u64 = if now > sent {
                    now - sent
                } else {
                    0
                };
                if passed < LIVE_FRAME {
                    return None;
                }
            },
            None => {},
        }
        self.last_sent = Some(now);
        let marks_copy = match &self.marks {
            Some(marks) => Some(marks.clone()),
            None => None,
        };
        Some((copy_sheets(&self.sheets), marks_copy))
    }
}

/// Every part that lands is on the frame sent next: landing a part keeps all
/// that were there and adds one, on its own sheet.
pub proof fn law_landing_loses_nothing(
    sheets: Seq<SheetModel>,
    index: int,
    part: PlacedPartDto,
)
    requires
        0 <= index < usize::MAX,
    ensures
        landed(sheets, index, part).len() >= sheets.len(),
        landed(sheets, index, part).len() > index,
        landed(sheets, index, part)[index].parts.last() == part,
        forall|i: int|
            0 <= i < sheets.len() && i != index ==> landed(sheets, index, part)[i]
                == #[trigger] sheets[i],
        index < sheets.len() ==> landed(sheets, index, part)[index].parts
            == sheets[index].parts.push(part),
        forall|i: int|
            sheets.len() <= i < index ==> (#[trigger] landed(
                sheets,
                index,
                part,
            )[i]).parts.len() == 0,
{
}

// --- what a result on display promises ------------------------------------

/// The model of a result holds each of its fields.
pub proof fn law_a_result_holds_every_field(s: Snapshot, i: int, id: usize)
    ensures
        s@.placements.len() == s.placements@.len(),
        0 <= i < s.placements@.len() ==> s@.placements[i].sheet_index
            == s.placements@[i].sheet_index && s@.placements[i].parts == s.placements@[i].parts@,
        s@.fitness == s.fitness,
        s@.utilisation == s.utilisation,
        s@.unplaced_count == s.unplaced_count,
        s@.unplaced_ids == s.unplaced_ids@,
        s@.locked.contains(id) <==> s.locked@.contains(id),
{
}

/// A result taken from the history is that entry, with nothing pinned.
pub proof fn law_an_entry_is_shown_as_it_is(h: &NestSnapshotDto, r: Snapshot, i: int)
    requires
        call_ensures(Snapshot::from_history, (h,), r),
    ensures
        r.placements@.len() == h.placements@.len(),
        0 <= i < h.placements@.len() ==> r.placements@[i].sheet_index
            == h.placements@[i].sheet_index && r.placements@[i].parts@ == h.placements@[i].parts@,
        r.fitness == h.fitness,
        r.utilisation == h.utilisation,
        r.unplaced_count == h.unplaced_count,
        r.unplaced_ids@ == h.unplaced_ids@,
        r.locked@.len() == 0,
{
    law_a_result_holds_every_field(r, i, 0);
    assert(r@ == from_entry(h@));
    lemma_same_sheets(r.placements@, h.placements@);
    if r.locked@.len() > 0 {
        assert(r.locked@.contains(r.locked@[0]));
        law_a_result_holds_every_field(r, i, r.locked@[0]);
        assert(r@.locked.contains(r.locked@[0]));
    }
}

/// Pinning and unpinning change whether that one part is pinned, and nothing
/// else of a result: a part that was pinned is let go, one that was not is
/// pinned.
pub proof fn law_pins_change_one_part(
    toggled: &mut Snapshot,
    pinned: &mut Snapshot,
    id: usize,
    r: bool,
    other: usize,
    i: int,
)
    requires
        call_ensures(Snapshot::toggle_pin, (toggled, id), r),
        call_ensures(Snapshot::pin, (pinned, id), ()),
    ensures
        r <==> !old(toggled).locked@.contains(id),
        final(toggled).locked@.contains(id) <==> r,
        other != id ==> (final(toggled).locked@.contains(other) <==> old(
            toggled).locked@.contains(other)),
        final(pinned).locked@.contains(id),
        other != id ==> (final(pinned).locked@.contains(other) <==> old(pinned).locked@.contains(
            other,
        )),
        final(toggled)@.placements == old(toggled)@.placements,
        final(toggled).utilisation == old(toggled).utilisation,
        final(toggled).unplaced_count == old(toggled).unplaced_count,
        final(pinned)@.placements == old(pinned)@.placements,
        final(pinned).utilisation == old(pinned).utilisation,
        final(pinned).unplaced_count == old(pinned).unplaced_count,
{
    law_a_result_holds_every_field(*old(toggled), i, id);
    law_a_result_holds_every_field(*final(toggled), i, id);
    law_a_result_holds_every_field(*old(toggled), i, other);
    law_a_result_holds_every_field(*final(toggled), i, other);
    law_a_result_holds_every_field(*old(pinned), i, id);
    law_a_result_holds_every_field(*final(pinned), i, id);
    law_a_result_holds_every_field(*old(pinned), i, other);
    law_a_result_holds_every_field(*final(pinned), i, other);
}

/// A part is found at the first place where it stands, and nowhere exactly where
/// it stands nowhere.
pub proof fn law_a_part_is_found_where_it_stands(parts: Seq<PlacedPartDto>, id: usize)
    ensures
        0 <= part_place(parts, id) <= parts.len(),
        part_place(parts, id) < parts.len() ==> parts[part_place(parts, id)].id == id,
        forall|k: int| 0 <= k < part_place(parts, id) ==> (#[trigger] parts[k]).id != id,
    decreases parts.len(),
{
    if parts.len() > 0 {
        let rest = parts.drop_last();
        law_a_part_is_found_where_it_stands(rest, id);
        assert forall|k: int| 0 <= k < part_place(parts, id) implies (#[trigger] parts[k]).id
            != id by {
            if k < rest.len() {
                assert(rest[k] == parts[k]);
            }
        }
    }
}

/// Moving a part changes that part on that sheet and nothing else: every other
/// sheet is as it was, and so is every part of another id. Where the sheet has
/// the part once, that one is now the part as given.
pub proof fn law_moving_a_part_moves_only_it(
    s: &mut Snapshot,
    sheet: usize,
    part: PlacedPartDto,
    i: int,
    k: int,
)
    requires
        call_ensures(Snapshot::move_part, (s, sheet, part), ()),
        0 <= i < old(s).placements@.len(),
        0 <= k < old(s).placements@[i].parts@.len(),
    ensures
        final(s).placements@.len() == old(s).placements@.len(),
        final(s).placements@[i].sheet_index == old(s).placements@[i].sheet_index,
        final(s).placements@[i].parts@.len() == old(s).placements@[i].parts@.len(),
        i != sheet || old(s).placements@[i].parts@[k].id != part.id ==> final(
            s).placements@[i].parts@[k] == old(s).placements@[i].parts@[k],
        i == sheet && old(s).placements@[i].parts@[k].id == part.id && (forall|j: int|
            0 <= j < k ==> (#[trigger] old(s).placements@[i].parts@[j]).id != part.id) ==> final(
            s).placements@[i].parts@[k] == part,
        final(s).utilisation == old(s).utilisation,
        final(s).unplaced_count == old(s).unplaced_count,
        final(s).unplaced_ids@ == old(s).unplaced_ids@,
        final(s)@.locked == old(s)@.locked,
{
    law_a_result_holds_every_field(*old(s), i, 0);
    law_a_result_holds_every_field(*final(s), i, 0);
    let parts = old(s).placements@[i].parts@;
    law_a_part_is_found_where_it_stands(parts, part.id);
    assert(old(s)@.placements[i].parts == parts);
    assert(final(s)@.placements == with_part_moved(old(s)@.placements, sheet, part));
    assert(final(s)@.placements[i].parts == final(s).placements@[i].parts@);
    if i == sheet && parts[k].id == part.id && (forall|j: int|
        0 <= j < k ==> (#[trigger] old(s).placements@[i].parts@[j]).id != part.id) {
        if part_place(parts, part.id) < k {
            assert(old(s).placements@[i].parts@[part_place(parts, part.id)].id != part.id);
        }
    }
}

/// Replacing a sheet puts the new one in its place and touches no other.
pub proof fn law_replacing_touches_one_sheet(
    s: &mut Snapshot,
    index: usize,
    placement: SheetPlacementDto,
    i: int,
)
    requires
        index < old(s).placements@.len(),
        call_ensures(Snapshot::replace_sheet, (s, index, placement), ()),
        0 <= i < old(s).placements@.len(),
    ensures
        final(s).placements@.len() == old(s).placements@.len(),
        i != index ==> final(s).placements@[i].parts@ == old(s).placements@[i].parts@ && final(
            s).placements@[i].sheet_index == old(s).placements@[i].sheet_index,
        i == index ==> final(s).placements@[i].parts@ == placement.parts@ && final(
            s).placements@[i].sheet_index == placement.sheet_index,
        final(s).utilisation == old(s).utilisation,
        final(s).unplaced_count == old(s).unplaced_count,
        final(s)@.locked == old(s)@.locked,
{
    law_a_result_holds_every_field(*old(s), i, 0);
    law_a_result_holds_every_field(*final(s), i, 0);
    assert(final(s)@.placements[i] == old(s)@.placements.update(index as int, placement@)[i]);
}

/// One step along the history shows the newest result of the one stack, and the
/// result that was on display becomes the newest of the other. The rest of both
/// stacks stays. Without a result to step to nothing changes.
pub proof fn law_a_step_exchanges_two_results(
    from: &mut Vec<Snapshot>,
    to: &mut Vec<Snapshot>,
    current: &mut Option<Snapshot>,
    r: bool,
)
    requires
        call_ensures(step_history, (from, to, current), r),
    ensures
        r <==> old(from)@.len() > 0,
        r ==> *final(current) == Some(old(from)@.last()) && final(from)@ == old(
            from)@.drop_last(),
        r && *old(current) is Some ==> final(to)@ == old(to)@.push((*old(current))->Some_0),
        r && *old(current) is None ==> final(to)@ == old(to)@,
        !r ==> *final(from) == *old(from) && *final(to) == *old(to) && *final(current) == *old(
            current),
{
}

/// Remembering a result makes it the newest to go back to, and leaves nothing to
/// redo. The others keep their places, but that beyond thirty-two the oldest is
/// forgotten.
pub proof fn law_remembering_forgets_only_the_oldest(
    undo: &mut Vec<Snapshot>,
    redo: &mut Vec<Snapshot>,
    now: Snapshot,
    current: &Option<Snapshot>,
    i: int,
)
    requires
        *current == Some(now),
        call_ensures(remember, (undo, redo, current), ()),
        old(undo)@.len() <= 32,
    ensures
        final(redo)@.len() == 0,
        final(undo)@.len() > 0,
        final(undo)@.last()@ == now@,
        old(undo)@.len() < 32 ==> final(undo)@.len() == old(undo)@.len() + 1,
        old(undo)@.len() == 32 ==> final(undo)@.len() == 32,
        old(undo)@.len() < 32 && 0 <= i < old(undo)@.len() ==> final(undo)@[i]@ == old(undo)@[i]@,
        old(undo)@.len() == 32 && 0 <= i < 31 ==> final(undo)@[i]@ == old(undo)@[i + 1]@,
{
    let a = stack_view(final(undo)@);
    let b = stack_view(old(undo)@);
    assert(a == remembered(b, now@));
    assert(a.len() == final(undo)@.len() && b.len() == old(undo)@.len());
    assert(a.last() == final(undo)@.last()@);
    if 0 <= i < a.len() {
        assert(a[i] == final(undo)@[i]@);
    }
    if 0 <= i < b.len() {
        assert(b[i] == old(undo)@[i]@);
    }
    if 0 <= i < b.len() - 1 {
        assert(b[i + 1] == old(undo)@[i + 1]@);
    }
}

/// A part that lands goes behind the parts of its sheet, where it was put and
/// not pinned. Sheets up to that one are opened empty, each under its own
/// number, and every other sheet stays as it is.
pub proof fn law_a_landed_part_is_last_on_its_sheet(
    frame: &mut LiveFrame,
    sheet: usize,
    part: &PlacedPartDto,
    i: int,
)
    requires
        sheet < usize::MAX,
        call_ensures(LiveFrame::push, (frame, sheet, part), ()),
        0 <= i < final(frame).sheets@.len(),
    ensures
        sheet < final(frame).sheets@.len(),
        old(frame).sheets@.len() > sheet ==> final(frame).sheets@.len() == old(
            frame).sheets@.len(),
        old(frame).sheets@.len() <= sheet ==> final(frame).sheets@.len() == sheet + 1,
        i != sheet && i < old(frame).sheets@.len() ==> final(frame).sheets@[i].parts@ == old(
            frame).sheets@[i].parts@ && final(frame).sheets@[i].sheet_index == old(
            frame).sheets@[i].sheet_index,
        i >= old(frame).sheets@.len() ==> final(frame).sheets@[i].sheet_index == i,
        i >= old(frame).sheets@.len() && i != sheet ==> final(frame).sheets@[i].parts@.len() == 0,
        i == sheet ==> {
            let parts = final(frame).sheets@[i].parts@;
            &&& parts.len() > 0
            &&& parts.last().id == part.id
            &&& parts.last().x == part.x
            &&& parts.last().y == part.y
            &&& parts.last().rotation == part.rotation
            &&& !parts.last().locked
            &&& i < old(frame).sheets@.len() ==> parts.drop_last() == old(
                frame).sheets@[i].parts@
            &&& i >= old(frame).sheets@.len() ==> parts.len() == 1
        },
{
    let before = sheets_view(old(frame).sheets@);
    let after = sheets_view(final(frame).sheets@);
    let unpinned = PlacedPartDto { locked: false, ..*part };
    assert(after == landed(before, sheet as int, unpinned));
    assert(after.len() == final(frame).sheets@.len() && before.len() == old(frame).sheets@.len());
    assert(after[i] == final(frame).sheets@[i]@);
    if i < before.len() {
        assert(before[i] == old(frame).sheets@[i]@);
        if i == sheet {
            assert(after[i].parts.drop_last() =~= before[i].parts);
        }
    }
    assert(old(frame).sheets@.len() == old(frame).sheets.len());
}

/// A picture of the running search is shown at most once in thirty-three
/// thousandths of a second, and shows the sheets as they are.
pub proof fn law_pictures_keep_their_distance(
    frame: &mut LiveFrame,
    now: u64,
    r: Option<(Vec<SheetPlacementDto>, Option<GhostSet>)>,
    i: int,
)
    requires
        call_ensures(LiveFrame::due, (frame, now), r),
    ensures
        r is Some <==> old(frame).last_sent is None || now >= old(frame).last_sent->Some_0
            + 33_000_000,
        r is Some ==> final(frame).last_sent == Some(now),
        r is None ==> final(frame).last_sent == old(frame).last_sent,
        final(frame).sheets == old(frame).sheets,
        r matches Some(shown) ==> {
            &&& shown.0@.len() == old(frame).sheets@.len()
            &&& 0 <= i < shown.0@.len() ==> shown.0@[i].parts@ == old(frame).sheets@[i].parts@
                && shown.0@[i].sheet_index == old(frame).sheets@[i].sheet_index
            &&& shown.1 is Some <==> old(frame).marks is Some
            &&& shown.1 matches Some(marks) ==> marks.sheet == old(frame).marks->Some_0.sheet
                && marks.part_id == old(frame).marks->Some_0.part_id && marks.positions@ == old(
                frame).marks->Some_0.positions@
        },
{
    if let Some(shown) = r {
        lemma_same_sheets(shown.0@, old(frame).sheets@);
        assert(marks_view(shown.1) == marks_view(old(frame).marks));
        if shown.1 is Some {
            let a = shown.1->Some_0;
            let b = old(frame).marks->Some_0;
            assert(a@ == b@);
            assert(a@.sheet == a.sheet && b@.sheet == b.sheet);
            assert(a@.part_id == a.part_id && b@.part_id == b.part_id);
            assert(a@.positions == a.positions@ && b@.positions == b.positions@);
        }
    }
}

/// A part is looked up at the first place where it stands.
pub proof fn law_a_part_is_looked_up(parts: &Vec<PlacedPartDto>, id: usize, r: usize, k: int)
    requires
        call_ensures(find_part, (parts, id), r),
        0 <= k < parts@.len(),
    ensures
        r <= parts@.len(),
        r < parts@.len() ==> parts@[r as int].id == id,
        k < r ==> parts@[k].id != id,
        parts@[k].id == id ==> r <= k,
{
    law_a_part_is_found_where_it_stands(parts@, id);
}

/// A picture that starts over is empty, and keeps the moment of the last one.
pub proof fn law_a_picture_starts_over(frame: &mut LiveFrame)
    requires
        call_ensures(LiveFrame::reset, (frame,), ()),
    ensures
        final(frame).sheets@.len() == 0,
        final(frame).marks is None,
        final(frame).last_sent == old(frame).last_sent,
{
}

} // verus!
