//! The positions of the units the game draws, as the frame hooks follow
//! them from one game update to the next.
use vstd::prelude::*;

use crate::tracker::{coord_for_time, scaled, wrap_i32, wrap_u32, FixedI16, FixedU16, LinearPos};

verus! {

/// What the hooks know of a unit: where the game last put it, how far it
/// moved in the game update before, whether it teleported since, whether it
/// was seen in the last pass over the game's tables, and which of the two
/// tables it was found in.
#[derive(Clone, Copy, Debug)]
pub struct Position {
    pub real: LinearPos<FixedU16>,
    pub delta: LinearPos<FixedI16>,
    pub teleport: bool,
    pub active: bool,
    pub from_first_table: bool,
}

/// One coordinate of the step from `a` to `b`, as a signed fixed-point
/// number with wrapping.
pub open spec fn step(a: FixedU16, b: FixedU16) -> FixedI16 {
    FixedI16(wrap_i32(b.0 - a.0) as i32)
}

/// The position `p` holds after the game moved its unit to `pos`, found in
/// the first table or not: the step is the movement, unless the unit
/// teleported or changed tables, which stops it.
pub open spec fn moved_to(p: Position, pos: LinearPos<FixedU16>, from_first_table: bool) -> Position {
    Position {
        real: pos,
        delta: if p.teleport || p.from_first_table != from_first_table {
            LinearPos { x: FixedI16(0), y: FixedI16(0) }
        } else {
            LinearPos { x: step(p.real.x, pos.x), y: step(p.real.y, pos.y) }
        },
        teleport: false,
        active: p.active,
        from_first_table,
    }
}

/// The position `p` holds after a pass that saw its unit at `pos` without a
/// game update: a unit that moved after a teleport or a change of tables
/// stops, and the point is taken as it is.
pub open spec fn seen_at(p: Position, pos: LinearPos<FixedU16>, first_table: bool) -> Position {
    if p.real != pos && (p.teleport || p.from_first_table != first_table) {
        Position {
            real: pos,
            delta: LinearPos { x: FixedI16(0), y: FixedI16(0) },
            teleport: false,
            from_first_table: first_table,
            ..p
        }
    } else {
        Position { real: pos, ..p }
    }
}

fn step_of(a: FixedU16, b: FixedU16) -> (r: FixedI16)
    ensures
        r == step(a, b),
{
    let w = b.repr().wrapping_sub(a.repr());
    let r = w as i32;
    assert(r == (if w < 0x8000_0000u32 { w as int } else { w - 0x1_0000_0000 })) by (bit_vector)
        requires
            r == w as i32,
    ;
    FixedI16::from_repr(r)
}

impl Position {
    /// A unit first seen at `pos`: not moving, and marked as seen.
    pub fn new(pos: LinearPos<FixedU16>, from_first_table: bool) -> (r: Self)
        ensures
            r == (Position {
                real: pos,
                delta: LinearPos { x: FixedI16(0), y: FixedI16(0) },
                teleport: false,
                active: true,
                from_first_table,
            }),
    {
        Position {
            real: pos,
            delta: LinearPos::new(FixedI16::default(), FixedI16::default()),
            teleport: false,
            active: true,
            from_first_table,
        }
    }

    /// The point reached a fraction `fract` of the way along the last
    /// movement.
    pub fn for_time(&self, fract: FixedI16) -> (r: LinearPos<FixedU16>)
        ensures
            r.x.0 == coord_for_time(self.real.x.0, self.delta.x.0, fract.0),
            r.y.0 == coord_for_time(self.real.y.0, self.delta.y.0, fract.0),
    {
        let mut p = crate::tracker::Position {
            real: self.real,
            delta: self.delta,
            last_rendered: self.real,
        };
        p.for_time(fract)
    }

    /// Moves to where the game put the unit after an update; see `moved_to`.
    pub fn update_pos(&mut self, pos: LinearPos<FixedU16>, from_first_table: bool)
        ensures
            *final(self) == moved_to(*old(self), pos, from_first_table),
    {
        self.delta = if self.teleport || self.from_first_table != from_first_table {
            LinearPos::new(FixedI16::default(), FixedI16::default())
        } else {
            LinearPos::new(step_of(self.real.x, pos.x), step_of(self.real.y, pos.y))
        };
        self.real = pos;
        self.from_first_table = from_first_table;
        self.teleport = false;
    }

    /// Takes the point the game shows without an update; see `seen_at`.
    pub fn refresh(&mut self, pos: LinearPos<FixedU16>, first_table: bool)
        ensures
            *final(self) == seen_at(*old(self), pos, first_table),
    {
        if !(self.real.x.repr() == pos.x.repr() && self.real.y.repr() == pos.y.repr()) && (self.teleport
            || self.from_first_table != first_table) {
            self.delta = LinearPos::new(FixedI16::default(), FixedI16::default());
            self.teleport = false;
            self.from_first_table = first_table;
        }
        self.real = pos;
    }
}

/// What a pass over the game's tables records for a unit seen at `pos`: an
/// update of what was known, marked as seen, or a new position.
pub fn observed(prev: Option<Position>, pos: LinearPos<FixedU16>, from_first_table: bool) -> (r: Position)
    ensures
        r == match prev {
            Some(p) => Position { active: true, ..moved_to(p, pos, from_first_table) },
            None => Position {
                real: pos,
                delta: LinearPos { x: FixedI16(0), y: FixedI16(0) },
                teleport: false,
                active: true,
                from_first_table,
            },
        },
{
    match prev {
        Some(p) => {
            let mut p = p;
            p.update_pos(pos, from_first_table);
            p.active = true;
            p
        },
        None => Position::new(pos, from_first_table),
    }
}

/// Whether a unit stays tracked after a pass: only when the pass saw it.
/// Clears the mark for the next pass.
pub fn keep_seen(p: &mut Position) -> (r: bool)
    ensures
        r == old(p).active,
        *final(p) == (Position { active: false, ..*old(p) }),
{
    let r = p.active;
    p.active = false;
    r
}

/// Marks a unit as teleported, so its next move is not taken as movement.
pub fn mark_teleport(p: &mut Position)
    ensures
        *final(p) == (Position { teleport: true, ..*old(p) }),
{
    p.teleport = true;
}


/// How a pass without a game update treats a unit. The point is always
/// taken as shown, and whether the unit was seen is kept. A unit that
/// teleported, or that is found in the other table, and shows up at a
/// different point stops moving, is no longer marked as teleported, and
/// records the table it was found in; drawn at any fraction of a frame it
/// then stands at that point. Any other unit keeps its movement, its
/// teleport mark and its table.
pub proof fn law_refresh_stops_teleported(p: Position, pos: LinearPos<FixedU16>, first_table: bool, fract: i32)
    ensures
        seen_at(p, pos, first_table).real == pos,
        seen_at(p, pos, first_table).active == p.active,
        p.real != pos && (p.teleport || p.from_first_table != first_table) ==> {
            let r = seen_at(p, pos, first_table);
            &&& r.delta.x.0 == 0 && r.delta.y.0 == 0
            &&& !r.teleport
            &&& r.from_first_table == first_table
            &&& coord_for_time(r.real.x.0, r.delta.x.0, fract) == pos.x.0
            &&& coord_for_time(r.real.y.0, r.delta.y.0, fract) == pos.y.0
        },
        !(p.real != pos && (p.teleport || p.from_first_table != first_table)) ==> {
            let r = seen_at(p, pos, first_table);
            &&& r.delta == p.delta
            &&& r.teleport == p.teleport
            &&& r.from_first_table == p.from_first_table
        },
{
    assert(scaled(0, fract) == 0);
    assert(wrap_u32(pos.x.0 as int) == pos.x.0);
    assert(wrap_u32(pos.y.0 as int) == pos.y.0);
}

/// A unit marked as teleported is not drawn along its old movement: after
/// the mark, being seen at a different point stops it, and so does the
/// next game update, which takes no step from the point before the
/// teleport. A game update that finds a unit in the other table stops it
/// too.
pub proof fn law_teleport_then_move_stops(p: Position, pos: LinearPos<FixedU16>, first_table: bool)
    ensures
        p.real != pos ==> {
            let r = seen_at(Position { teleport: true, ..p }, pos, first_table);
            r.delta.x.0 == 0 && r.delta.y.0 == 0 && !r.teleport
        },
        ({
            let r = moved_to(Position { teleport: true, ..p }, pos, first_table);
            r.delta.x.0 == 0 && r.delta.y.0 == 0 && !r.teleport && r.real == pos
        }),
        ({
            let r = moved_to(p, pos, !p.from_first_table);
            r.delta.x.0 == 0 && r.delta.y.0 == 0 && r.from_first_table == !p.from_first_table
        }),
{
}

/// A game update moving a unit that neither teleported nor changed tables
/// takes the step from its old point to the new one: drawn a whole frame
/// back it stands where it was, up to wrapping, and it is then at the new
/// point.
pub proof fn law_update_steps(p: Position, pos: LinearPos<FixedU16>)
    requires
        !p.teleport,
    ensures
        ({
            let r = moved_to(p, pos, p.from_first_table);
            &&& r.real == pos
            &&& !r.teleport
            &&& wrap_u32(r.real.x.0 - r.delta.x.0) == p.real.x.0
            &&& wrap_u32(r.real.y.0 - r.delta.y.0) == p.real.y.0
        }),
{
    let r = moved_to(p, pos, p.from_first_table);
    let ax = p.real.x.0 as int;
    let bx = pos.x.0 as int;
    let ay = p.real.y.0 as int;
    let by = pos.y.0 as int;
    assert(wrap_u32(bx - wrap_i32(bx - ax)) == ax) by {
        let d = bx - ax;
        assert(-0x1_0000_0000 < d < 0x1_0000_0000);
    }
    assert(wrap_u32(by - wrap_i32(by - ay)) == ay) by {
        let d = by - ay;
        assert(-0x1_0000_0000 < d < 0x1_0000_0000);
    }
}

} // verus!
