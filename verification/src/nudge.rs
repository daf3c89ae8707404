//! Moving a placed part with the pointer or the keyboard, and the hint that is
//! shown while one is moved.

use vstd::prelude::*;
use crate::bounds::Bounds;
use crate::config::NestConfigDto;
use crate::scalar::Scalar;
use crate::session::{App, Drag};

verus! {

/// The keys that move a part.
#[derive(Clone, Copy, PartialEq, Eq, Structural, Debug)]
pub struct MoveKeys {
    pub left: bool,
    pub right: bool,
    pub up: bool,
    pub down: bool,
    pub turn: bool,
    pub shift: bool,
}

/// How far a part is moved, in steps: to the right, upwards, and around against
/// the clock.
#[derive(Clone, Copy, PartialEq, Eq, Structural, Debug)]
pub struct Steps {
    pub x: i8,
    pub y: i8,
    pub turns: i8,
}

/// A key as a number of steps.
pub open spec fn pushes(key: bool) -> int {
    if key {
        1
    } else {
        0
    }
}

/// How far some keys move a part. Opposite keys cancel out; with the shift key a
/// part turns the other way.
pub fn steps_of(keys: MoveKeys) -> (r: Steps)
    ensures
        r.x == pushes(keys.right) - pushes(keys.left),
        r.y == pushes(keys.up) - pushes(keys.down),
        r.turns == if keys.shift {
            -pushes(keys.turn)
        } else {
            pushes(keys.turn)
        },
{
    let mut x: i8 = 0;
    let mut y: i8 = 0;
    let mut turns: i8 = 0;
    if keys.left {
        x -= 1;
    }
    if keys.right {
        x += 1;
    }
    if keys.up {
        y += 1;
    }
    if keys.down {
        y -= 1;
    }
    if keys.turn {
        turns = if keys.shift {
            -1
        } else {
            1
        };
    }
    Steps { x, y, turns }
}

/// The length of a step: the distance that two parts must keep, where they must
/// keep any, and else a millimetre.
pub fn step_length(clearance: Option<Scalar>) -> (r: Scalar)
    ensures
        r == match clearance {
            Some(s) => if Scalar::zero().below(s) {
                s
            } else {
                Scalar::unit()
            },
            None => Scalar::unit(),
        },
{
    match clearance {
        Some(s) => {
            if Scalar::zero().lt(s) {
                s
            } else {
                Scalar::unit()
            }
        },
        None => Scalar::unit(),
    }
}

/// How many turns make a whole one: as many as the nest itself tried, where it
/// tried more than one angle, and else four.
pub fn turns_in_circle(config: &Option<NestConfigDto>) -> (r: u32)
    ensures
        r == match config {
            Some(c) => if c.rotations >= 2 {
                c.rotations
            } else {
                4
            },
            None => 4,
        },
        r >= 2,
{
    match config {
        Some(c) => {
            if c.rotations >= 2 {
                c.rotations
            } else {
                4
            }
        },
        None => 4,
    }
}

/// A part that is about to be moved and has not been.
#[verifier::allow_in_spec]
pub fn at_rest(sheet: usize, part_id: usize) -> Drag
    returns
        (Drag {
            sheet,
            part_id,
            dx: Scalar::zero(),
            dy: Scalar::zero(),
            drot: Scalar::zero(),
            moved: false,
            clear: true,
            awaiting: false,
        }),
{
    Drag {
        sheet,
        part_id,
        dx: Scalar::zero(),
        dy: Scalar::zero(),
        drot: Scalar::zero(),
        moved: false,
        clear: true,
        awaiting: false,
    }
}

impl App {
    /// The part that the keys move: the one being dragged on this sheet, or
    /// else the one under the pointer. None while something is typed into a
    /// field.
    pub fn nudge_target(
        &self,
        sheet: usize,
        hovered: Option<usize>,
        over_sheet: bool,
        typing: bool,
    ) -> (r: Option<usize>)
        ensures
            r == if typing {
                None
            } else {
                match self.drag {
                    Some(drag) if drag.sheet == sheet => Some(drag.part_id),
                    _ => if over_sheet {
                        hovered
                    } else {
                        None
                    },
                }
            },
    {
        if typing {
            return None;
        }
        if let Some(drag) = self.drag {
            if drag.sheet == sheet {
                return Some(drag.part_id);
            }
        }
        if over_sheet {
            hovered
        } else {
            None
        }
    }

    /// Where a part is moved from: from where it has been dragged to, or from
    /// its place. Nothing while the engine is asked about it: a second move
    /// would start from a place that the engine has not agreed to.
    pub fn nudge_start(&self, sheet: usize, part_id: usize) -> (r: Option<Drag>)
        ensures
            r == match self.drag {
                Some(drag) if drag.sheet == sheet && drag.part_id == part_id => if drag.awaiting {
                    None
                } else {
                    Some(drag)
                },
                _ => Some(at_rest(sheet, part_id)),
            },
    {
        if let Some(drag) = self.drag {
            if drag.sheet == sheet && drag.part_id == part_id {
                return if drag.awaiting {
                    None
                } else {
                    Some(drag)
                };
            }
        }
        Some(at_rest(sheet, part_id))
    }

    /// Takes hold of a part with the pointer.
    pub fn grab(&mut self, sheet: usize, part_id: usize)
        ensures
            old(self).wf() ==> final(self).wf(),
            *final(self) == (App { drag: Some(at_rest(sheet, part_id)), ..*old(self) }),
    {
        self.drag = Some(at_rest(sheet, part_id));
    }

    /// Takes in how far the pointer has pulled a part in all. Up to a hundredth
    /// of a millimetre each way it is still a click.
    pub fn drag_to(&mut self, dx: Scalar, dy: Scalar)
        ensures
            old(self).wf() ==> final(self).wf(),
            *final(self) == (App {
                drag: match old(self).drag {
                    Some(drag) => Some(
                        Drag {
                            dx,
                            dy,
                            moved: drag.moved || Scalar::hundredth().below(dx.size())
                                || Scalar::hundredth().below(dy.size()),
                            ..drag
                        },
                    ),
                    None => None,
                },
                ..*old(self)
            }),
    {
        if let Some(drag) = self.drag {
            let mut pulled = drag;
            pulled.dx = dx;
            pulled.dy = dy;
            if Scalar::hundredth().lt(dx.abs()) || Scalar::hundredth().lt(dy.abs()) {
                pulled.moved = true;
            }
            self.drag = Some(pulled);
        }
    }

    /// Takes in how far a part has been moved in all.
    pub fn nudge_to(&mut self, start: Drag, dx: Scalar, dy: Scalar, drot: Scalar)
        ensures
            old(self).wf() ==> final(self).wf(),
            *final(self) == (App {
                drag: Some(Drag { dx, dy, drot, moved: true, ..start }),
                ..*old(self)
            }),
    {
        self.drag = Some(
            Drag {
                sheet: start.sheet,
                part_id: start.part_id,
                dx,
                dy,
                drot,
                moved: true,
                clear: start.clear,
                awaiting: start.awaiting,
            },
        );
    }

    /// Takes in whether the place of the part being moved looks free.
    pub fn update_drag_hint(&mut self, clear: bool)
        ensures
            old(self).wf() ==> final(self).wf(),
            *final(self) == (App {
                drag: match old(self).drag {
                    Some(drag) => Some(Drag { clear, ..drag }),
                    None => None,
                },
                ..*old(self)
            }),
    {
        if let Some(drag) = self.drag {
            let mut hinted = drag;
            hinted.clear = clear;
            self.drag = Some(hinted);
        }
    }
}

/// Whether a box lies inside another.
pub open spec fn inside(part: Bounds, room: Bounds) -> bool {
    &&& room.minx.at_most(part.minx)
    &&& part.maxx.at_most(room.maxx)
    &&& room.miny.at_most(part.miny)
    &&& part.maxy.at_most(room.maxy)
}

/// Whether two boxes overlap.
pub open spec fn overlap(a: Bounds, b: Bounds) -> bool {
    &&& a.minx.below(b.maxx)
    &&& b.minx.below(a.maxx)
    &&& a.miny.below(b.maxy)
    &&& b.miny.below(a.maxy)
}

/// Whether a box overlaps none of some others.
pub open spec fn clear_of(part: Bounds, others: Seq<Bounds>) -> bool {
    forall|i: int| 0 <= i < others.len() ==> !overlap(part, #[trigger] others[i])
}

/// Whether a box looks free: it lies inside the room and overlaps none of the
/// others. The boxes come with whatever tolerance the caller allows.
pub fn looks_free(part: Bounds, room: Bounds, others: &Vec<Bounds>) -> (r: bool)
    ensures
        r == (inside(part, room) && forall|i: int|
            0 <= i < others@.len() ==> !overlap(part, #[trigger] others@[i])),
        r == (inside(part, room) && clear_of(part, others@)),
{
    if !(room.minx.le(part.minx) && part.maxx.le(room.maxx) && room.miny.le(part.miny)
        && part.maxy.le(room.maxy)) {
        return false;
    }
    let mut i: usize = 0;
    while i < others.len()
        invariant
            i <= others@.len(),
            forall|k: int| 0 <= k < i ==> !overlap(part, #[trigger] others@[k]),
        decreases others.len() - i,
    {
        let b = others[i];
        if part.minx.lt(b.maxx) && b.minx.lt(part.maxx) && part.miny.lt(b.maxy) && b.miny.lt(
            part.maxy,
        ) {
            assert(overlap(part, others@[i as int]));
            return false;
        }
        i += 1;
    }
    true
}

/// Boxes overlap each other or not at all.
pub proof fn law_overlap_goes_both_ways(a: Bounds, b: Bounds)
    ensures
        overlap(a, b) == overlap(b, a),
{
}

// --- what moving by hand promises -----------------------------------------

/// A key moves a part one step its own way: right and up add, left and down take
/// away, opposite keys cancel, and a turn goes the other way with shift.
pub proof fn law_keys_move_their_own_way(keys: MoveKeys, r: Steps)
    requires
        call_ensures(steps_of, (keys,), r),
    ensures
        r.x > 0 <==> keys.right && !keys.left,
        r.x < 0 <==> keys.left && !keys.right,
        r.y > 0 <==> keys.up && !keys.down,
        r.y < 0 <==> keys.down && !keys.up,
        r.turns > 0 <==> keys.turn && !keys.shift,
        r.turns < 0 <==> keys.turn && keys.shift,
        -1 <= r.x <= 1,
        -1 <= r.y <= 1,
        -1 <= r.turns <= 1,
{
}

/// A place looks free exactly where the part lies within the room on all four
/// sides and beside every other part: to its left, right, below or above.
pub proof fn law_a_free_place_touches_nothing(
    part: Bounds,
    room: Bounds,
    others: &Vec<Bounds>,
    r: bool,
    i: int,
)
    requires
        call_ensures(looks_free, (part, room, others), r),
    ensures
        r ==> room.minx.at_most(part.minx) && part.maxx.at_most(room.maxx) && room.miny.at_most(
            part.miny,
        ) && part.maxy.at_most(room.maxy),
        r && 0 <= i < others@.len() ==> {
            ||| !part.minx.below(others@[i].maxx)
            ||| !others@[i].minx.below(part.maxx)
            ||| !part.miny.below(others@[i].maxy)
            ||| !others@[i].miny.below(part.maxy)
        },
        !r && room.minx.at_most(part.minx) && part.maxx.at_most(room.maxx) && room.miny.at_most(
            part.miny,
        ) && part.maxy.at_most(room.maxy) ==> exists|k: int|
            0 <= k < others@.len() && part.minx.below((#[trigger] others@[k]).maxx)
                && others@[k].minx.below(part.maxx) && part.miny.below(others@[k].maxy)
                && others@[k].miny.below(part.maxy),
{
    if r && 0 <= i < others@.len() {
        assert(!overlap(part, others@[i]));
    }
    if !r && inside(part, room) {
        let k = choose|k: int| 0 <= k < others@.len() && overlap(part, #[trigger] others@[k]);
        assert(part.minx.below(others@[k].maxx));
    }
}

/// Taking a part starts with no way and no turn; dragging it sets the way, and
/// leaves which part it is and its turn; a nudge sets all three.
pub proof fn law_a_drag_is_of_one_part(
    grabbed: &mut App,
    sheet: usize,
    part_id: usize,
    dragged: &mut App,
    dx: Scalar,
    dy: Scalar,
    nudged: &mut App,
    start: Drag,
    drot: Scalar,
)
    requires
        call_ensures(App::grab, (grabbed, sheet, part_id), ()),
        call_ensures(App::drag_to, (dragged, dx, dy), ()),
        call_ensures(App::nudge_to, (nudged, start, dx, dy, drot), ()),
    ensures
        final(grabbed).drag is Some,
        final(grabbed).drag->Some_0.sheet == sheet,
        final(grabbed).drag->Some_0.part_id == part_id,
        final(grabbed).drag->Some_0.dx.bits == 0,
        final(grabbed).drag->Some_0.dy.bits == 0,
        final(grabbed).drag->Some_0.drot.bits == 0,
        !final(grabbed).drag->Some_0.moved,
        final(dragged).drag is Some <==> old(dragged).drag is Some,
        old(dragged).drag is Some ==> {
            let was = old(dragged).drag->Some_0;
            let now = final(dragged).drag->Some_0;
            &&& now.sheet == was.sheet
            &&& now.part_id == was.part_id
            &&& now.drot == was.drot
            &&& now.dx == dx
            &&& now.dy == dy
            &&& was.moved ==> now.moved
        },
        final(nudged).drag is Some,
        final(nudged).drag->Some_0.sheet == start.sheet,
        final(nudged).drag->Some_0.part_id == start.part_id,
        final(nudged).drag->Some_0.dx == dx,
        final(nudged).drag->Some_0.dy == dy,
        final(nudged).drag->Some_0.drot == drot,
        final(nudged).drag->Some_0.moved,
        final(grabbed).snapshot == old(grabbed).snapshot,
        final(dragged).snapshot == old(dragged).snapshot,
        final(nudged).snapshot == old(nudged).snapshot,
{
}

/// A nudge goes on with the drag of that very part, unless an answer about it is
/// awaited, and starts anew for any other.
pub proof fn law_a_nudge_goes_on_with_its_drag(
    app: &App,
    sheet: usize,
    part_id: usize,
    r: Option<Drag>,
)
    requires
        call_ensures(App::nudge_start, (app, sheet, part_id), r),
    ensures
        r matches Some(drag) ==> drag.sheet == sheet && drag.part_id == part_id,
        r is None <==> app.drag is Some && app.drag->Some_0.sheet == sheet
            && app.drag->Some_0.part_id == part_id && app.drag->Some_0.awaiting,
        app.drag is Some && app.drag->Some_0.sheet == sheet && app.drag->Some_0.part_id == part_id
            && !app.drag->Some_0.awaiting ==> r == app.drag,
        r is Some && r != app.drag ==> !r->Some_0.moved && r->Some_0.dx.bits == 0
            && r->Some_0.dy.bits == 0 && r->Some_0.drot.bits == 0,
{
}

/// A step is as long as the clearance where that is above zero; and a full turn
/// has as many steps as the run had rotations, but four where it had fewer than
/// two.
pub proof fn law_steps_follow_the_job(
    clearance: Option<Scalar>,
    length: Scalar,
    config: &Option<NestConfigDto>,
    turns: u32,
)
    requires
        call_ensures(step_length, (clearance,), length),
        call_ensures(turns_in_circle, (config,), turns),
    ensures
        clearance matches Some(s) ==> (Scalar::zero().below(s) ==> length == s),
        clearance is None || !Scalar::zero().below(clearance->Some_0) ==> length
            == Scalar::unit(),
        config matches Some(c) ==> (c.rotations >= 2 ==> turns == c.rotations),
        config is None || config->Some_0.rotations < 2 ==> turns == 4,
{
}

/// A key moves the part in hand on its own sheet; without one, the part under
/// the pointer; and none while something is typed.
pub proof fn law_keys_move_the_part_in_hand(
    app: &App,
    sheet: usize,
    hovered: Option<usize>,
    over_sheet: bool,
    typing: bool,
    r: Option<usize>,
)
    requires
        call_ensures(App::nudge_target, (app, sheet, hovered, over_sheet, typing), r),
    ensures
        typing ==> r is None,
        !typing && app.drag is Some && app.drag->Some_0.sheet == sheet ==> r == Some(
            app.drag->Some_0.part_id,
        ),
        !typing && !(app.drag is Some && app.drag->Some_0.sheet == sheet) && over_sheet ==> r
            == hovered,
        !typing && !(app.drag is Some && app.drag->Some_0.sheet == sheet) && !over_sheet ==> r
            is None,
{
}

/// A hint on whether a place is free changes only that hint.
pub proof fn law_a_hint_moves_nothing(app: &mut App, clear: bool)
    requires
        call_ensures(App::update_drag_hint, (app, clear), ()),
    ensures
        final(app).drag is Some <==> old(app).drag is Some,
        old(app).drag is Some ==> final(app).drag->Some_0 == (Drag {
            clear,
            ..old(app).drag->Some_0
        }),
        *final(app) == (App { drag: final(app).drag, ..*old(app) }),
{
}

} // verus!
