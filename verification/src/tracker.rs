//! Entity position tracking: a fixed-size Robin Hood hash table from unit
//! ids to the positions used to interpolate movement between game frames.
use vstd::prelude::*;

verus! {

/// The kind of a game unit, as the game numbers it.
#[derive(Clone, Copy, PartialEq, Eq, Structural, Hash, Debug)]
pub struct EntityKind(pub u32);

impl EntityKind {
    /// Player characters.
    pub fn pc() -> (r: Self)
        ensures
            r.0 == 0,
    {
        EntityKind(0)
    }

    /// Monsters and other non-player characters.
    pub fn npc() -> (r: Self)
        ensures
            r.0 == 1,
    {
        EntityKind(1)
    }

    /// World objects.
    pub fn object() -> (r: Self)
        ensures
            r.0 == 2,
    {
        EntityKind(2)
    }

    /// Missiles.
    pub fn missile() -> (r: Self)
        ensures
            r.0 == 3,
    {
        EntityKind(3)
    }
}

/// An unsigned fixed-point number with 16 fractional bits, held in its raw
/// 32-bit representation.
#[derive(Clone, Copy, PartialEq, Eq, Structural, Debug)]
pub struct FixedU16(pub u32);

impl FixedU16 {
    /// The number whose raw representation is `x`.
    pub fn from_repr(x: u32) -> (r: Self)
        ensures
            r.0 == x,
    {
        FixedU16(x)
    }

    /// The raw representation.
    pub fn repr(self) -> (r: u32)
        ensures
            r == self.0,
    {
        self.0
    }
}

impl Default for FixedU16 {
    fn default() -> (r: Self)
        ensures
            r.0 == 0,
    {
        FixedU16(0)
    }
}

/// A signed fixed-point number with 16 fractional bits, held in its raw
/// 32-bit representation.
#[derive(Clone, Copy, PartialEq, Eq, Structural, Debug)]
pub struct FixedI16(pub i32);

impl FixedI16 {
    /// The number whose raw representation is `x`.
    pub fn from_repr(x: i32) -> (r: Self)
        ensures
            r.0 == x,
    {
        FixedI16(x)
    }

    /// The raw representation.
    pub fn repr(self) -> (r: i32)
        ensures
            r == self.0,
    {
        self.0
    }
}

impl Default for FixedI16 {
    fn default() -> (r: Self)
        ensures
            r.0 == 0,
    {
        FixedI16(0)
    }
}

/// A point in the game's linear (world) coordinate space.
#[derive(Clone, Copy, PartialEq, Eq, Structural, Debug)]
pub struct LinearPos<T> {
    pub x: T,
    pub y: T,
}

impl<T> LinearPos<T> {
    pub fn new(x: T, y: T) -> (r: Self)
        ensures
            r.x == x,
            r.y == y,
    {
        LinearPos { x, y }
    }
}

/// `x` reduced into the range of `u32`, as a wrapping operation leaves it.
pub open spec fn wrap_u32(x: int) -> int {
    x % 0x1_0000_0000
}

/// The `i32` whose two's complement bits are those of `x` reduced modulo
/// 2^32.
pub open spec fn wrap_i32(x: int) -> int {
    let w = x % 0x1_0000_0000;
    if w < 0x8000_0000 {
        w
    } else {
        w - 0x1_0000_0000
    }
}

/// The fixed-point product of a raw speed and a raw fraction, rounded down:
/// `floor(delta * fract / 2^16)`.
pub open spec fn scaled(delta: i32, fract: i32) -> int {
    (delta * fract) / 0x1_0000
}

/// One coordinate of the point reached from `base` after a fraction `fract`
/// of the movement `delta`.
pub open spec fn coord_for_time(base: u32, delta: i32, fract: i32) -> u32 {
    wrap_u32(base + scaled(delta, fract)) as u32
}

/// One coordinate of the movement towards `pos` from `base`, limited so that
/// it does not carry past the centre of the target tile `target`.
pub open spec fn coord_delta(base: u32, pos: u32, target: u16) -> i32 {
    let v = wrap_i32(pos - base);
    let l = wrap_i32(target * 0x1_0000 + 0x8000 - pos);
    (if l < 0 {
        if v > l {
            v
        } else {
            l
        }
    } else if v < l {
        v
    } else {
        l
    }) as i32
}

/// Computes one coordinate of `coord_for_time`.
fn advance(base: u32, delta: i32, fract: i32) -> (r: u32)
    ensures
        r == coord_for_time(base, delta, fract),
{
    assert(-0x4000_0000_0000_0000 <= delta * fract <= 0x4000_0000_0000_0000) by (nonlinear_arith)
        requires
            -0x8000_0000 <= delta <= 0x7fff_ffff,
            -0x8000_0000 <= fract <= 0x7fff_ffff,
    ;
    let p: i64 = (delta as i64) * (fract as i64);
    let q: i64 = p >> 16u32;
    assert(q == p / 0x1_0000) by (bit_vector)
        requires
            q == p >> 16u32,
    ;
    let s: u32 = q as u32;
    assert(s == q % 0x1_0000_0000) by (bit_vector)
        requires
            s == q as u32,
    ;
    let r = base.wrapping_add(s);
    assert(r == wrap_u32(base + q)) by {
        assert((base + q) % 0x1_0000_0000 == (base + s) % 0x1_0000_0000) by {
            vstd::arithmetic::div_mod::lemma_add_mod_noop(base as int, q as int, 0x1_0000_0000);
            vstd::arithmetic::div_mod::lemma_add_mod_noop(base as int, s as int, 0x1_0000_0000);
            vstd::arithmetic::div_mod::lemma_small_mod(base as nat, 0x1_0000_0000);
            vstd::arithmetic::div_mod::lemma_small_mod(s as nat, 0x1_0000_0000);
        }
    }
    r
}

/// The `i32` with the bits of `w`.
fn to_i32(w: u32) -> (r: i32)
    ensures
        r == wrap_i32(w as int),
{
    let r = w as i32;
    assert(r == (if w < 0x8000_0000u32 { w as int } else { w - 0x1_0000_0000 })) by (bit_vector)
        requires
            r == w as i32,
    ;
    r
}

/// Computes one coordinate of `coord_delta`.
fn clamp_delta(base: u32, pos: u32, target: u16) -> (r: i32)
    ensures
        r == coord_delta(base, pos, target),
{
    let v = to_i32(pos.wrapping_sub(base));
    let t: u32 = ((target as u32) << 16u32) | 0x8000u32;
    assert(t == target * 0x1_0000 + 0x8000) by (bit_vector)
        requires
            t == ((target as u32) << 16u32) | 0x8000u32,
    ;
    let l = to_i32(t.wrapping_sub(pos));
    assert(v == wrap_i32(pos - base));
    assert(l == wrap_i32(target * 0x1_0000 + 0x8000 - pos));
    if l < 0 {
        if v > l {
            v
        } else {
            l
        }
    } else if v < l {
        v
    } else {
        l
    }
}

/// Where a tracked unit is, how far it moved over the last game frame, and
/// where it was last drawn.
#[derive(Clone, Copy, Debug)]
pub struct Position {
    pub real: LinearPos<FixedU16>,
    pub delta: LinearPos<FixedI16>,
    pub last_rendered: LinearPos<FixedU16>,
}

/// The position `p` holds after `update_pos(pos, target)`.
pub open spec fn updated(p: Position, pos: LinearPos<FixedU16>, target: LinearPos<u16>) -> Position {
    Position {
        real: pos,
        delta: LinearPos {
            x: FixedI16(coord_delta(p.real.x.0, pos.x.0, target.x)),
            y: FixedI16(coord_delta(p.real.y.0, pos.y.0, target.y)),
        },
        last_rendered: p.last_rendered,
    }
}

/// A position first seen at `pos`: not moving, and drawn where it is.
pub open spec fn fresh(pos: LinearPos<FixedU16>) -> Position {
    Position { real: pos, delta: LinearPos { x: FixedI16(0), y: FixedI16(0) }, last_rendered: pos }
}

impl Position {
    /// The point reached a fraction `fract` of the way along the last
    /// frame's movement; it is also recorded as the last drawn point.
    pub fn for_time(&mut self, fract: FixedI16) -> (r: LinearPos<FixedU16>)
        ensures
            r.x.0 == coord_for_time(old(self).real.x.0, old(self).delta.x.0, fract.0),
            r.y.0 == coord_for_time(old(self).real.y.0, old(self).delta.y.0, fract.0),
            *final(self) == (Position { last_rendered: r, ..*old(self) }),
    {
        let x = advance(self.real.x.repr(), self.delta.x.repr(), fract.repr());
        let y = advance(self.real.y.repr(), self.delta.y.repr(), fract.repr());
        let pos = LinearPos::new(FixedU16::from_repr(x), FixedU16::from_repr(y));
        self.last_rendered = pos;
        pos
    }

    /// Moves to `pos`, taking the step from the old point as the movement,
    /// limited so that it does not overshoot the centre of the tile `target`.
    fn update_pos(&mut self, pos: LinearPos<FixedU16>, target: LinearPos<u16>)
        ensures
            *final(self) == updated(*old(self), pos, target),
    {
        let dx = clamp_delta(self.real.x.repr(), pos.x.repr(), target.x);
        let dy = clamp_delta(self.real.y.repr(), pos.y.repr(), target.y);
        self.real = pos;
        self.delta = LinearPos::new(FixedI16::from_repr(dx), FixedI16::from_repr(dy));
    }

    fn new(pos: LinearPos<FixedU16>) -> (r: Self)
        ensures
            r == fresh(pos),
    {
        Position {
            real: pos,
            last_rendered: pos,
            delta: LinearPos::new(FixedI16::default(), FixedI16::default()),
        }
    }
}

/// A game unit: its kind and its id among units of that kind.
#[derive(Clone, Copy, PartialEq, Eq, Structural, Hash, Debug)]
pub struct UnitId {
    pub kind: EntityKind,
    pub id: u32,
}

/// What the table stores of a unit id: the kind cut to 16 bits, and the id.
pub open spec fn key_of(id: UnitId) -> (u16, u32) {
    (id.kind.0 as u16, id.id)
}

/// The home slot of a key: the key spread over the table so that each kind
/// starts in a segment of its own.
pub open spec fn home(k: (u16, u32)) -> int {
    ((k.1 ^ ((k.0 as u32) << 9u32)) % 2048u32) as int
}

impl UnitId {
    pub fn new(kind: EntityKind, id: u32) -> (r: Self)
        ensures
            r.kind == kind,
            r.id == id,
    {
        UnitId { kind, id }
    }

    /// The hash of the id; the table takes it modulo its size.
    fn key(self) -> (r: usize)
        ensures
            r % 2048 == home(key_of(self)),
    {
        let k: u32 = self.id ^ (self.kind.0 << 9u32);
        let kind = self.kind.0;
        let id = self.id;
        assert(k % 2048 == (id ^ (((kind as u16) as u32) << 9u32)) % 2048u32) by (bit_vector)
            requires
                k == id ^ (kind << 9u32),
        ;
        k as usize
    }
}

/// The number of slots in the table.
const UNIT_COUNT: usize = 2048;

/// A slot of the table: a unit's key and how far the slot lies past the
/// key's home slot, or a free slot when `distance` is negative.
#[derive(Clone, Copy)]
struct Entry {
    distance: i16,
    kind: u16,
    id: u32,
}

/// The number of steps forward, round the table, from slot `j` to slot `i`.
spec fn cd(j: int, i: int) -> int {
    if j <= i {
        i - j
    } else {
        i + 2048 - j
    }
}

/// The slot `k` steps forward from slot `i`, for `0 <= k <= 2048`.
spec fn fwd(i: int, k: int) -> int {
    if i + k < 2048 {
        i + k
    } else {
        i + k - 2048
    }
}

spec fn live(e: Entry) -> bool {
    e.distance >= 0
}

spec fn ekey(e: Entry) -> (u16, u32) {
    (e.kind, e.id)
}

/// The Robin Hood invariant of a slot sequence: every live entry lies its
/// `distance` steps past its home slot, every slot on the way there is live
/// and no closer to its own home than the entry is to its own, and no key
/// occurs twice.
spec fn rh(s: Seq<Entry>) -> bool {
    &&& s.len() == 2048
    &&& forall|i: int| 0 <= i < 2048 ==> -1 <= #[trigger] s[i].distance < 2048
    &&& forall|i: int| 0 <= i < 2048 && live(#[trigger] s[i]) ==> cd(home(ekey(s[i])), i) == s[i].distance
    &&& forall|i: int, j: int|
        #![trigger s[i], s[j]]
        0 <= i < 2048 && 0 <= j < 2048 && live(s[i]) && 0 < cd(j, i) <= s[i].distance
            ==> s[j].distance >= s[i].distance - cd(j, i)
    &&& unique(s)
}

/// No key is held by two live slots.
spec fn unique(s: Seq<Entry>) -> bool {
    forall|i: int, j: int|
        #![trigger s[i], s[j]]
        0 <= i < 2048 && 0 <= j < 2048 && i != j && live(s[i]) && live(s[j]) ==> ekey(s[i]) != ekey(s[j])
}

/// Whether slot `i` is marked in the bit set `a`.
spec fn bit_set(a: Seq<u32>, i: int) -> bool {
    a[i / 32] & (1u32 << ((i % 32) as u32)) != 0
}

/// The marks of the slots, one per slot.
spec fn marks(a: Seq<u32>) -> Seq<bool> {
    Seq::new(2048, |i: int| bit_set(a, i))
}

/// The slots whose entry holds key `k`.
spec fn holds(s: Seq<Entry>, i: int, k: (u16, u32)) -> bool {
    0 <= i < 2048 && live(s[i]) && ekey(s[i]) == k
}

/// The keys held by the slots of `s`, each with the position beside it in
/// `p`.
spec fn table(s: Seq<Entry>, p: Seq<Position>) -> Map<(u16, u32), Position> {
    Map::new(
        |k: (u16, u32)| exists|i: int| holds(s, i, k),
        |k: (u16, u32)| p[choose|i: int| holds(s, i, k)],
    )
}

/// A held key is in the table, with the position of its slot.
proof fn lemma_table_at(s: Seq<Entry>, p: Seq<Position>, i: int)
    requires
        unique(s),
        0 <= i < 2048,
        live(s[i]),
    ensures
        table(s, p).contains_key(ekey(s[i])),
        table(s, p)[ekey(s[i])] == p[i],
{
    let k = ekey(s[i]);
    assert(holds(s, i, k));
    let c = choose|c: int| holds(s, i, k) && holds(s, c, k);
    assert(holds(s, c, k));
    assert(c == i) by {
        if c != i {
            assert(ekey(s[i]) != ekey(s[c]));
        }
    }
}

/// A map that holds exactly the live keys of `s`, each with the position
/// beside it in `p`, is their table.
proof fn lemma_table_eq(s: Seq<Entry>, p: Seq<Position>, m: Map<(u16, u32), Position>)
    requires
        unique(s),
        forall|i: int| 0 <= i < 2048 && live(#[trigger] s[i]) ==> m.contains_key(ekey(s[i])) && m[ekey(s[i])] == p[i],
        forall|k: (u16, u32)| #[trigger] m.contains_key(k) ==> exists|i: int| holds(s, i, k),
    ensures
        table(s, p) == m,
{
    assert forall|k: (u16, u32)| #[trigger] m.contains_key(k) implies table(s, p).contains_key(k) && table(s, p)[k] == m[k] by {
        let i = choose|i: int| holds(s, i, k);
        lemma_table_at(s, p, i);
    }
    assert forall|k: (u16, u32)| table(s, p).contains_key(k) implies #[trigger] m.contains_key(k) by {
        let i = choose|i: int| holds(s, i, k);
        assert(holds(s, i, k));
    }
    assert(table(s, p) =~= m);
}

/// A fixed-size hash table from unit ids to positions, with a mark on each
/// entry updated since the last `clear_unused`; a mark moves with its entry.
pub struct EntityTracker {
    active: Vec<u32>,
    entities: Vec<Entry>,
    positions: Vec<Position>,
}

impl EntityTracker {
    /// The table is well formed: the slot arrays have their sizes, the
    /// entries keep the Robin Hood invariant, and only live slots are marked.
    pub open spec fn wf(&self) -> bool {
        &&& self.valid()
        &&& self.robin_hood()
    }

    /// The slot arrays have their sizes, distances are in range, no key is
    /// held twice, and only live slots are marked. Every operation keeps
    /// this.
    pub closed spec fn valid(&self) -> bool {
        &&& self.active@.len() == 64
        &&& self.positions@.len() == 2048
        &&& self.entities@.len() == 2048
        &&& forall|i: int| 0 <= i < 2048 ==> -1 <= #[trigger] self.entities@[i].distance < 2048
        &&& unique(self.entities@)
        &&& forall|i: int| 0 <= i < 2048 && bit_set(self.active@, i) ==> live(#[trigger] self.entities@[i])
    }

    /// Every live entry lies its distance past its home, with the Robin Hood
    /// ordering on the way there, so that every held unit is found.
    pub closed spec fn robin_hood(&self) -> bool {
        rh(self.entities@)
    }

    /// Whether slot `i` holds a unit.
    pub closed spec fn occupied(&self, i: int) -> bool {
        live(self.entities@[i])
    }

    /// The key held in slot `i`.
    pub closed spec fn key_at(&self, i: int) -> (u16, u32) {
        ekey(self.entities@[i])
    }

    /// The position held in slot `i`.
    pub closed spec fn position_at(&self, i: int) -> Position {
        self.positions@[i]
    }

    /// Whether slot `i` is marked as updated since the last `clear_unused`.
    pub closed spec fn marked(&self, i: int) -> bool {
        bit_set(self.active@, i)
    }

    /// Whether some slot is free.
    pub open spec fn has_vacancy(&self) -> bool {
        exists|i: int| 0 <= i < 2048 && !self.occupied(i)
    }

    /// The units held, each with its position.
    pub closed spec fn view(&self) -> Map<(u16, u32), Position> {
        table(self.entities@, self.positions@)
    }

    /// An empty table with no marks.
    pub fn new() -> (r: Self)
        ensures
            r.wf(),
            r.view() == Map::<(u16, u32), Position>::empty(),
            forall|i: int| 0 <= i < 2048 ==> !r.marked(i),
            forall|i: int| 0 <= i < 2048 ==> !r.occupied(i),
            r.has_vacancy(),
            r.marked_keys() == Set::<(u16, u32)>::empty(),
            !r.wraps(),
    {
        let active: Vec<u32> = vec![0u32; 64];
        let entities: Vec<Entry> = vec![Entry { distance: -1, kind: 0, id: 0 }; UNIT_COUNT];
        let zero = Position {
            real: LinearPos::new(FixedU16::from_repr(0), FixedU16::from_repr(0)),
            delta: LinearPos::new(FixedI16::from_repr(0), FixedI16::from_repr(0)),
            last_rendered: LinearPos::new(FixedU16::from_repr(0), FixedU16::from_repr(0)),
        };
        let mut positions: Vec<Position> = Vec::new();
        while positions.len() < UNIT_COUNT
            invariant
                positions@.len() <= 2048,
            decreases 2048 - positions@.len(),
        {
            positions.push(zero);
        }
        assert forall|i: int| 0 <= i < 2048 implies (#[trigger] entities@[i]).distance == -1 by {
            assert(cloned(Entry { distance: -1i16, kind: 0u16, id: 0u32 }, entities@[i]));
        }
        let r = EntityTracker { active, entities, positions };
        assert(rh(r.entities@));
        assert forall|i: int| 0 <= i < 2048 implies !bit_set(r.active@, i) by {
            assert(r.active@[i / 32] == 0u32);
            let b = (i % 32) as u32;
            assert(0u32 & (1u32 << b) == 0u32) by (bit_vector);
        }
        assert(table(r.entities@, r.positions@) =~= Map::<(u16, u32), Position>::empty());
        assert(!r.occupied(0));
        assert(r.marked_keys() =~= Set::<(u16, u32)>::empty());
        r
    }
}

/// Every slot in the first `delta` steps from `h` is live, at least as far
/// from its home as the step count, and holds another key than `k`.
spec fn passed(s: Seq<Entry>, h: int, delta: int, k: (u16, u32)) -> bool {
    forall|j: int|
        0 <= j < 2048 && cd(h, j) < delta ==> #[trigger] s[j].distance >= cd(h, j) && ekey(s[j]) != k
}

/// A probe that stopped at step `delta` without finding `k` shows that `k`
/// is nowhere in the table.
proof fn lemma_probe_miss(s: Seq<Entry>, k: (u16, u32), delta: int)
    requires
        rh(s),
        0 <= delta <= 2048,
        passed(s, home(k), delta, k),
        s[fwd(home(k), delta)].distance < delta,
    ensures
        forall|j: int| 0 <= j < 2048 && live(s[j]) ==> ekey(#[trigger] s[j]) != k,
{
    let h = home(k);
    let i = fwd(h, delta);
    assert forall|j: int| 0 <= j < 2048 && live(s[j]) implies ekey(#[trigger] s[j]) != k by {
        if ekey(s[j]) == k {
            let dj = s[j].distance as int;
            assert(cd(h, j) == dj);
            if dj < delta {
            } else if dj == delta {
                assert(j == i);
            } else {
                assert(cd(i, j) == dj - delta);
                assert(s[i].distance >= dj - cd(i, j));
            }
        }
    }
}

/// A probe that went all the way round the table passed a live slot at
/// every step.
proof fn lemma_full_round(s: Seq<Entry>, k: (u16, u32))
    requires
        rh(s),
        passed(s, home(k), 2048, k),
    ensures
        forall|j: int| 0 <= j < 2048 ==> live(#[trigger] s[j]),
{
    assert forall|j: int| 0 <= j < 2048 implies live(#[trigger] s[j]) by {
        assert(cd(home(k), j) < 2048);
    }
}

impl EntityTracker {
    /// Looks for `id` along its probe sequence. Returns `(None, i)` when slot
    /// `i` holds it, or `(Some(d), i)` when it is absent and `i`, `d` steps
    /// from its home, is where it belongs.
    fn probe_idx(&self, id: UnitId) -> (r: (Option<i16>, usize))
        requires
            self.valid(),
        ensures
            r.1 < 2048,
            r.0 is None ==> holds(self.entities@, r.1 as int, key_of(id)),
            r.0 is Some ==> {
                let d = r.0->0 as int;
                &&& 0 <= d <= 2048
                &&& r.1 == fwd(home(key_of(id)), d)
                &&& self.entities@[r.1 as int].distance < d
                &&& passed(self.entities@, home(key_of(id)), d, key_of(id))
                &&& rh(self.entities@) ==> forall|j: int|
                    0 <= j < 2048 && live(self.entities@[j]) ==> ekey(#[trigger] self.entities@[j]) != key_of(id)
                &&& rh(self.entities@) && self.has_vacancy() ==> d < 2048
            },
    {
        let ghost s = self.entities@;
        let ghost k = key_of(id);
        let ghost h = home(k);
        let mut i = id.key() % UNIT_COUNT;
        let mut delta: i16 = 0;
        loop
            invariant
                self.valid(),
                s == self.entities@,
                k == key_of(id),
                h == home(k),
                0 <= delta <= 2048,
                i == fwd(h, delta as int),
                passed(s, h, delta as int, k),
            decreases 2048 - delta,
        {
            let entry = self.entities[i];
            if entry.distance < delta {
                proof {
                    if rh(s) {
                        lemma_probe_miss(s, k, delta as int);
                        if delta == 2048 {
                            lemma_full_round(s, k);
                        }
                    }
                }
                return (Some(delta), i);
            }
            if entry.kind == id.kind.0 as u16 && entry.id == id.id {
                return (None, i);
            }
            assert(delta < 2048);
            assert forall|j: int| 0 <= j < 2048 && cd(h, j) < delta + 1 implies #[trigger] s[j].distance >= cd(h, j) && ekey(s[j]) != k by {
                if cd(h, j) == delta {
                    assert(j == i);
                }
            }
            i = (i + 1) % UNIT_COUNT;
            delta += 1;
        }
    }
}

proof fn lemma_bit_or(w: u32, b: u32, c: u32)
    requires
        b < 32,
        c < 32,
    ensures
        ((w | (1u32 << b)) & (1u32 << c) != 0) == ((w & (1u32 << c) != 0) || b == c),
{
    assert(((w | (1u32 << b)) & (1u32 << c) != 0) == ((w & (1u32 << c) != 0) || b == c)) by (bit_vector)
        requires
            b < 32,
            c < 32,
    ;
}

impl EntityTracker {
    /// Marks slot `i` as updated.
    fn mark_active(&mut self, i: usize)
        requires
            i < 2048,
            old(self).active@.len() == 64,
        ensures
            final(self).active@.len() == 64,
            final(self).entities@ == old(self).entities@,
            final(self).positions@ == old(self).positions@,
            forall|x: int| 0 <= x < 2048 ==> #[trigger] bit_set(final(self).active@, x) == (bit_set(old(self).active@, x) || x == i),
    {
        let w_idx = i >> 5u32;
        let b = i & 31;
        assert(w_idx == i / 32 && b == i % 32) by (bit_vector)
            requires
                w_idx == i >> 5u32,
                b == i & 31,
        ;
        let w = self.active[w_idx];
        let bit: u32 = 1u32 << (b as u32);
        self.active.set(w_idx, w | bit);
        proof {
            let a0 = old(self).active@;
            let a1 = self.active@;
            assert forall|x: int| 0 <= x < 2048 implies #[trigger] bit_set(a1, x) == (bit_set(a0, x) || x == i) by {
                let c = (x % 32) as u32;
                if x / 32 == i / 32 {
                    lemma_bit_or(w, b as u32, c);
                } else {
                    assert(a1[x / 32] == a0[x / 32]);
                }
            }
        }
    }
}

proof fn lemma_bit_clear(w: u32, b: u32, c: u32)
    requires
        b < 32,
        c < 32,
    ensures
        ((w & !(1u32 << b)) & (1u32 << c) != 0) == ((w & (1u32 << c) != 0) && b != c),
{
    assert(((w & !(1u32 << b)) & (1u32 << c) != 0) == ((w & (1u32 << c) != 0) && b != c)) by (bit_vector)
        requires
            b < 32,
            c < 32,
    ;
}

impl EntityTracker {
    /// Whether slot `i` is marked.
    fn is_marked(&self, i: usize) -> (r: bool)
        requires
            i < 2048,
            self.active@.len() == 64,
        ensures
            r == bit_set(self.active@, i as int),
    {
        let w_idx = i >> 5u32;
        let b = i & 31;
        assert(w_idx == i / 32 && b == i % 32) by (bit_vector)
            requires
                w_idx == i >> 5u32,
                b == i & 31,
        ;
        self.active[w_idx] & (1u32 << (b as u32)) != 0
    }

    /// Sets the mark of slot `i` to `m`.
    fn set_mark(&mut self, i: usize, m: bool)
        requires
            i < 2048,
            old(self).active@.len() == 64,
        ensures
            final(self).active@.len() == 64,
            final(self).entities@ == old(self).entities@,
            final(self).positions@ == old(self).positions@,
            forall|x: int|
                0 <= x < 2048 ==> #[trigger] bit_set(final(self).active@, x) == if x == i {
                    m
                } else {
                    bit_set(old(self).active@, x)
                },
    {
        let w_idx = i >> 5u32;
        let b = i & 31;
        assert(w_idx == i / 32 && b == i % 32) by (bit_vector)
            requires
                w_idx == i >> 5u32,
                b == i & 31,
        ;
        let w = self.active[w_idx];
        let bit: u32 = 1u32 << (b as u32);
        let nw = if m {
            w | bit
        } else {
            w & !bit
        };
        self.active.set(w_idx, nw);
        proof {
            let a0 = old(self).active@;
            let a1 = self.active@;
            assert forall|x: int| 0 <= x < 2048 implies #[trigger] bit_set(a1, x) == if x == i {
                m
            } else {
                bit_set(a0, x)
            } by {
                let c = (x % 32) as u32;
                if x / 32 == i / 32 {
                    if m {
                        lemma_bit_or(w, b as u32, c);
                    } else {
                        lemma_bit_clear(w, b as u32, c);
                    }
                } else {
                    assert(a1[x / 32] == a0[x / 32]);
                }
            }
        }
    }
}

/// The number of live slots in a row from step `t` forward of slot `i`,
/// counted from `i`: the step of the first free slot, or 2048 when there is
/// none.
spec fn run(s: Seq<Entry>, i: int, t: int) -> int
    decreases 2048 - t,
{
    if t >= 2048 {
        2048
    } else if !live(s[fwd(i, t)]) {
        t
    } else {
        run(s, i, t + 1)
    }
}

proof fn lemma_run(s: Seq<Entry>, i: int, t: int)
    requires
        0 <= t <= 2048,
    ensures
        t <= run(s, i, t) <= 2048,
        forall|u: int| t <= u < run(s, i, t) ==> live(#[trigger] s[fwd(i, u)]),
        run(s, i, t) < 2048 ==> !live(s[fwd(i, run(s, i, t))]),
    decreases 2048 - t,
{
    if t < 2048 && live(s[fwd(i, t)]) {
        lemma_run(s, i, t + 1);
    }
}

/// The step from slot `i` of the first free slot: the length of the run
/// that an insertion at `i` moves.
spec fn gap(s: Seq<Entry>, i: int) -> int {
    run(s, i, 0)
}

proof fn lemma_gap(s: Seq<Entry>, i: int)
    requires
        s.len() == 2048,
        0 <= i < 2048,
        exists|j: int| 0 <= j < 2048 && !live(s[j]),
    ensures
        0 <= gap(s, i) < 2048,
        forall|u: int| 0 <= u < gap(s, i) ==> live(#[trigger] s[fwd(i, u)]),
        !live(s[fwd(i, gap(s, i))]),
{
    lemma_run(s, i, 0);
    if gap(s, i) == 2048 {
        let j = choose|j: int| 0 <= j < 2048 && !live(s[j]);
        assert(s[fwd(i, cd(i, j))] == s[j]);
    }
}

/// The slot before slot `y`, round the table.
spec fn prev(y: int) -> int {
    if y == 0 {
        2047
    } else {
        y - 1
    }
}

/// `s` with the slots `lo + 1 ..= hi` steps from `i0` each replaced by the
/// slot before it.
spec fn slide<T>(s: Seq<T>, i0: int, lo: int, hi: int) -> Seq<T> {
    Seq::new(2048, |y: int| if lo < cd(i0, y) <= hi { s[prev(y)] } else { s[y] })
}

/// An entry one slot further from its home.
spec fn bump(e: Entry) -> Entry {
    Entry { distance: (e.distance + 1) as i16, kind: e.kind, id: e.id }
}

/// `s` with the entries of the slots `1 ..= hi` steps from `i0` each
/// replaced by the entry before it, one slot further from its home.
spec fn bumped(s: Seq<Entry>, i0: int, hi: int) -> Seq<Entry> {
    Seq::new(2048, |y: int| if 0 < cd(i0, y) <= hi { bump(s[prev(y)]) } else { s[y] })
}

impl EntityTracker {
    /// Moves the run of live entries starting at slot `i` one slot forward,
    /// into the first free slot, together with their positions.
    fn shift(&mut self, i: usize)
        requires
            rh(old(self).entities@),
            old(self).positions@.len() == 2048,
            old(self).active@.len() == 64,
            old(self).has_vacancy(),
            i < 2048,
        ensures
            final(self).active@.len() == 64,
            marks(final(self).active@) == slide(marks(old(self).active@), i as int, 0, gap(old(self).entities@, i as int)),
            final(self).entities@ == bumped(old(self).entities@, i as int, gap(old(self).entities@, i as int)),
            final(self).positions@ == slide(old(self).positions@, i as int, 0, gap(old(self).entities@, i as int)),
    {
        let ghost s0 = self.entities@;
        let ghost p0 = self.positions@;
        let ghost i0 = i as int;
        let ghost m = gap(s0, i0);
        proof {
            lemma_gap(s0, i0);
        }
        let mut i = i;
        let mut current = self.entities[i];
        let mut count: u16 = 0;
        assert(self.entities@ =~= bumped(s0, i0, 0));
        while current.distance >= 0 && count < UNIT_COUNT as u16
            invariant
                rh(s0),
                p0 == self.positions@,
                self.active@ == old(self).active@,
                0 <= i0 < 2048,
                0 <= m < 2048,
                forall|u: int| 0 <= u < m ==> live(#[trigger] s0[fwd(i0, u)]),
                !live(s0[fwd(i0, m)]),
                0 <= count <= m,
                i == fwd(i0, count as int),
                current == s0[fwd(i0, count as int)],
                self.entities@ == bumped(s0, i0, count as int),
            decreases m - count,
        {
            assert(count < m);
            i = (i + 1) % UNIT_COUNT;
            count += 1;
            current.distance += 1;
            let tmp = self.entities[i];
            self.entities.set(i, current);
            current = tmp;
            assert(self.entities@ =~= bumped(s0, i0, count as int));
        }
        assert(count == m);
        assert(self.positions@ =~= slide(p0, i0, m, m));
        let ghost k0 = marks(self.active@);
        assert(k0 =~= slide(k0, i0, m, m));
        while count > 0
            invariant
                p0.len() == 2048,
                self.positions@.len() == 2048,
                self.active@.len() == 64,
                k0.len() == 2048,
                k0 == marks(old(self).active@),
                marks(self.active@) == slide(k0, i0, count as int, m),
                self.entities@ == bumped(s0, i0, m),
                0 <= i0 < 2048,
                0 <= m < 2048,
                0 <= count <= m,
                i == fwd(i0, count as int),
                self.positions@ == slide(p0, i0, count as int, m),
            decreases count,
        {
            count -= 1;
            let prev = if i == 0 {
                UNIT_COUNT - 1
            } else {
                i - 1
            };
            let moved = self.positions[prev];
            self.positions.set(i, moved);
            let ghost before = marks(self.active@);
            let mark = self.is_marked(prev);
            assert(mark == before[prev as int]);
            assert(before[prev as int] == k0[prev as int]);
            self.set_mark(i, mark);
            proof {
                assert forall|y: int| 0 <= y < 2048 implies #[trigger] marks(self.active@)[y] == slide(k0, i0, count as int, m)[y] by {
                    if y != i {
                        assert(marks(self.active@)[y] == before[y]);
                    }
                }
            }
            i = prev;
            assert(self.positions@ =~= slide(p0, i0, count as int, m));
            assert(marks(self.active@) =~= slide(k0, i0, count as int, m));
        }
    }
}

/// The entry an insertion of key `k` puts `delta` slots past its home.
spec fn placed(k: (u16, u32), delta: int) -> Entry {
    Entry { distance: delta as i16, kind: k.0, id: k.1 }
}

/// The slots after an insertion of `k` at slot `i0`: the run from `i0`
/// moved one slot forward, and the new entry in its place.
spec fn inserted(s: Seq<Entry>, i0: int, k: (u16, u32), delta: int) -> Seq<Entry> {
    bumped(s, i0, gap(s, i0)).update(i0, placed(k, delta))
}

/// A live entry of the run that an insertion moves is nearer its home than
/// the free slot that ends the run.
proof fn lemma_run_entry_bound(s: Seq<Entry>, i0: int, m: int, x: int)
    requires
        rh(s),
        0 <= i0 < 2048,
        0 <= m < 2048,
        !live(s[fwd(i0, m)]),
        0 <= x < 2048,
        cd(i0, x) < m,
        live(s[x]),
    ensures
        s[x].distance < cd(fwd(i0, m), x),
        s[x].distance + 1 < 2048,
{
    let e = fwd(i0, m);
    if s[x].distance >= cd(e, x) {
        assert(s[e].distance >= s[x].distance - cd(e, x));
    }
}

/// Inserting a key that is absent, where its probe stopped, keeps the Robin
/// Hood invariant.
#[verifier::spinoff_prover]
#[verifier::rlimit(40)]
proof fn lemma_insert_rh(s: Seq<Entry>, k: (u16, u32), delta: int, i0: int)
    requires
        rh(s),
        exists|j: int| 0 <= j < 2048 && !live(s[j]),
        0 <= delta < 2048,
        i0 == fwd(home(k), delta),
        s[i0].distance < delta,
        passed(s, home(k), delta, k),
        forall|j: int| 0 <= j < 2048 && live(s[j]) ==> ekey(#[trigger] s[j]) != k,
    ensures
        rh(inserted(s, i0, k, delta)),
        forall|y: int| 0 <= y < 2048 && live(s[y]) ==> live(#[trigger] inserted(s, i0, k, delta)[y]),
{
    let h = home(k);
    let m = gap(s, i0);
    lemma_gap(s, i0);
    let e = fwd(i0, m);
    let t = inserted(s, i0, k, delta);
    assert(t.len() == 2048);
    // Every slot of the run, and the free slot after it, is live afterwards;
    // moved entries stay within range.
    assert forall|y: int| 0 <= y < 2048 && 0 < cd(i0, y) <= m implies {
        &&& live(s[#[trigger] prev(y)])
        &&& cd(i0, prev(y)) == cd(i0, y) - 1
        &&& s[prev(y)].distance + 1 < 2048
        &&& t[y] == bump(s[prev(y)])
    } by {
        assert(s[fwd(i0, cd(i0, y) - 1)] == s[prev(y)]);
        lemma_run_entry_bound(s, i0, m, prev(y));
    }
    assert forall|y: int| 0 <= y < 2048 && live(s[y]) implies live(#[trigger] t[y]) by {
        if y != i0 && 0 < cd(i0, y) <= m {
            assert(live(s[prev(y)]));
        }
    }
    // Range of distances.
    assert forall|y: int| 0 <= y < 2048 implies -1 <= #[trigger] t[y].distance < 2048 by {
        if y != i0 && 0 < cd(i0, y) <= m {
            assert(live(s[prev(y)]));
        }
    }
    // Each live entry lies its distance past its home.
    assert forall|y: int| 0 <= y < 2048 && live(#[trigger] t[y]) implies cd(home(ekey(t[y])), y) == t[y].distance by {
        if y == i0 {
        } else if 0 < cd(i0, y) <= m {
            let x = prev(y);
            assert(live(s[x]));
            assert(cd(home(ekey(s[x])), x) == s[x].distance);
        } else {
            assert(t[y] == s[y]);
        }
    }
    // The Robin Hood ordering.
    assert forall|i: int, j: int|
        0 <= i < 2048 && 0 <= j < 2048 && live(#[trigger] t[i]) && 0 < cd(j, i) <= t[i].distance
        implies #[trigger] t[j].distance >= t[i].distance - cd(j, i) by {
        let c = cd(j, i);
        if i == i0 {
            // The new entry: every slot between its home and it was passed
            // by the probe, and lies outside the moved run.
            assert(cd(h, j) == delta - c);
            assert(s[j].distance >= cd(h, j));
            if j != i0 && 0 < cd(i0, j) <= m {
                assert(cd(e, i0) <= c);
                assert(cd(h, e) < delta);
                assert(s[e].distance >= cd(h, e));
            }
            assert(t[j] == s[j]);
        } else if 0 < cd(i0, i) <= m {
            // A moved entry, one slot further from its home.
            let x = prev(i);
            assert(live(s[x]));
            let dx = s[x].distance as int;
            let c1 = cd(j, x);
            assert(c1 == c - 1);
            if c1 == 0 {
                if x == i0 {
                    assert(t[j].distance == delta);
                } else {
                    assert(0 < cd(i0, x) <= m);
                    let px = prev(x);
                    assert(live(s[px]));
                    if dx >= 1 {
                        assert(cd(px, x) == 1);
                        assert(s[px].distance >= dx - 1);
                    }
                }
            } else {
                assert(s[j].distance >= dx - c1);
                if j == i0 {
                    assert(t[j].distance == delta);
                } else if 0 < cd(i0, j) <= m {
                    let pj = prev(j);
                    assert(live(s[pj]));
                    if c1 + 1 <= dx {
                        assert(cd(pj, x) == c1 + 1);
                        assert(s[pj].distance >= dx - (c1 + 1));
                    }
                } else {
                    assert(t[j] == s[j]);
                }
            }
        } else {
            // An entry outside the run: its chain cannot reach the free
            // slot, so it lies outside the run too.
            assert(t[i] == s[i]);
            assert(s[j].distance >= s[i].distance - c);
            if j == i0 || 0 < cd(i0, j) <= m {
                assert(0 < cd(e, i) <= c);
                assert(s[e].distance >= s[i].distance - cd(e, i));
            }
            assert(t[j] == s[j]);
        }
    }
    // Keys stay distinct.
    assert forall|i: int, j: int|
        0 <= i < 2048 && 0 <= j < 2048 && i != j && live(#[trigger] t[i]) && live(#[trigger] t[j])
        implies ekey(t[i]) != ekey(t[j]) by {
        let si = if 0 < cd(i0, i) <= m { prev(i) } else { i };
        let sj = if 0 < cd(i0, j) <= m { prev(j) } else { j };
        if i == i0 {
            assert(live(s[sj]));
            assert(ekey(t[j]) == ekey(s[sj]));
        } else if j == i0 {
            assert(live(s[si]));
            assert(ekey(t[i]) == ekey(s[si]));
        } else {
            assert(live(s[si]) && live(s[sj]));
            assert(ekey(t[i]) == ekey(s[si]));
            assert(ekey(t[j]) == ekey(s[sj]));
            assert(si != sj);
        }
    }
}

/// The positions after an insertion at slot `i0`: those of the moved run
/// move with it, and the new unit gets `fresh`.
spec fn inserted_positions(s: Seq<Entry>, p: Seq<Position>, i0: int, pos: LinearPos<FixedU16>) -> Seq<Position> {
    slide(p, i0, 0, gap(s, i0)).update(i0, fresh(pos))
}

/// Inserting an absent key adds it, with a fresh position, to the table.
proof fn lemma_insert_view(s: Seq<Entry>, p: Seq<Position>, k: (u16, u32), delta: int, i0: int, pos: LinearPos<FixedU16>)
    requires
        rh(s),
        p.len() == 2048,
        exists|j: int| 0 <= j < 2048 && !live(s[j]),
        0 <= delta < 2048,
        i0 == fwd(home(k), delta),
        s[i0].distance < delta,
        passed(s, home(k), delta, k),
        forall|j: int| 0 <= j < 2048 && live(s[j]) ==> ekey(#[trigger] s[j]) != k,
    ensures
        table(inserted(s, i0, k, delta), inserted_positions(s, p, i0, pos)) == table(s, p).insert(k, fresh(pos)),
{
    let m = gap(s, i0);
    lemma_gap(s, i0);
    lemma_insert_rh(s, k, delta, i0);
    let t = inserted(s, i0, k, delta);
    let q = inserted_positions(s, p, i0, pos);
    let v = table(s, p).insert(k, fresh(pos));
    assert forall|y: int| 0 <= y < 2048 && live(#[trigger] t[y]) implies v.contains_key(ekey(t[y])) && v[ekey(t[y])] == q[y] by {
        if y == i0 {
        } else if 0 < cd(i0, y) <= m {
            let x = prev(y);
            assert(s[fwd(i0, cd(i0, y) - 1)] == s[x]);
            lemma_table_at(s, p, x);
        } else {
            lemma_table_at(s, p, y);
        }
    }
    assert forall|k2: (u16, u32)| #[trigger] v.contains_key(k2) implies exists|i: int| holds(t, i, k2) by {
        if k2 == k {
            assert(holds(t, i0, k2));
        } else {
            let x = choose|x: int| holds(s, x, k2);
            lemma_table_at(s, p, x);
            if x == i0 || 0 < cd(i0, x) < m {
                let y = fwd(x, 1);
                assert(prev(y) == x);
                assert(holds(t, y, k2));
            } else {
                if cd(i0, x) == m {
                    assert(x == fwd(i0, m));
                }
                assert(holds(t, x, k2));
            }
        }
    }
    lemma_table_eq(t, q, v);
}

/// Inserting an absent key, with the marks of the moved run moving with it
/// and the new entry marked, adds the key to the marked keys.
proof fn lemma_insert_marks(
    s: Seq<Entry>,
    a0: Seq<u32>,
    a1: Seq<u32>,
    a2: Seq<u32>,
    k: (u16, u32),
    delta: int,
    i0: int,
)
    requires
        rh(s),
        exists|j: int| 0 <= j < 2048 && !live(s[j]),
        0 <= delta < 2048,
        i0 == fwd(home(k), delta),
        s[i0].distance < delta,
        passed(s, home(k), delta, k),
        forall|j: int| 0 <= j < 2048 && live(s[j]) ==> ekey(#[trigger] s[j]) != k,
        forall|x: int| 0 <= x < 2048 && bit_set(a0, x) ==> live(#[trigger] s[x]),
        marks(a1) == slide(marks(a0), i0, 0, gap(s, i0)),
        forall|x: int| 0 <= x < 2048 ==> #[trigger] bit_set(a2, x) == (bit_set(a1, x) || x == i0),
    ensures
        marked_keys_of(inserted(s, i0, k, delta), a2) == marked_keys_of(s, a0).insert(k),
        forall|x: int| 0 <= x < 2048 && bit_set(a2, x) ==> live(#[trigger] inserted(s, i0, k, delta)[x]),
{
    let m = gap(s, i0);
    lemma_gap(s, i0);
    lemma_insert_rh(s, k, delta, i0);
    let t = inserted(s, i0, k, delta);
    let e = fwd(i0, m);
    assert forall|y: int| 0 <= y < 2048 implies #[trigger] bit_set(a1, y) == (if 0 < cd(i0, y) <= m {
        bit_set(a0, prev(y))
    } else {
        bit_set(a0, y)
    }) by {
        assert(marks(a1)[y] == bit_set(a1, y));
        assert(slide(marks(a0), i0, 0, m)[y] == (if 0 < cd(i0, y) <= m {
            marks(a0)[prev(y)]
        } else {
            marks(a0)[y]
        }));
    }
    assert forall|y: int| 0 <= y < 2048 && 0 < cd(i0, y) <= m implies {
        &&& cd(i0, #[trigger] prev(y)) == cd(i0, y) - 1
        &&& 0 <= prev(y) < 2048
        &&& ekey(t[y]) == ekey(s[prev(y)])
        &&& live(s[prev(y)])
    } by {
        assert(s[fwd(i0, cd(i0, y) - 1)] == s[prev(y)]);
    }
    assert forall|x: int| 0 <= x < 2048 && bit_set(a2, x) implies live(#[trigger] t[x]) by {
        if x != i0 && !(0 < cd(i0, x) <= m) {
            assert(bit_set(a0, x));
        }
    }
    let lhs = marked_keys_of(t, a2);
    let rhs = marked_keys_of(s, a0).insert(k);
    assert forall|k2: (u16, u32)| #[trigger] lhs.contains(k2) == rhs.contains(k2) by {
        if lhs.contains(k2) && k2 != k {
            let y = choose|y: int| bit_set(a2, y) && holds(t, y, k2);
            assert(y != i0);
            if 0 < cd(i0, y) <= m {
                let x = prev(y);
                assert(bit_set(a0, x) && holds(s, x, k2));
            } else {
                assert(t[y] == s[y]);
                assert(bit_set(a0, y) && holds(s, y, k2));
            }
        }
        if marked_keys_of(s, a0).contains(k2) {
            let x = choose|x: int| bit_set(a0, x) && holds(s, x, k2);
            assert(k2 != k);
            if x == i0 || 0 < cd(i0, x) < m {
                let y = fwd(x, 1);
                assert(prev(y) == x);
                assert(cd(i0, y) == cd(i0, x) + 1);
                assert(bit_set(a2, y) && holds(t, y, k2));
            } else {
                if cd(i0, x) == m {
                    assert(x == e);
                }
                assert(t[x] == s[x]);
                assert(bit_set(a2, x) && holds(t, x, k2));
            }
        }
        if k2 == k {
            assert(bit_set(a2, i0) && holds(t, i0, k2));
        }
    }
    assert(lhs =~= rhs);
}

impl EntityTracker {
    /// Records that `id` is at `pos`, heading for the tile `target`. A unit
    /// already held moves there, its step limited by `target`; a new one is
    /// inserted with no movement, the entries after it moving one slot on.
    /// Either way it is marked as updated; the marks of the entries that an
    /// insertion moves move with them.
    pub fn insert_or_update(&mut self, id: UnitId, pos: LinearPos<FixedU16>, target: LinearPos<u16>)
        requires
            old(self).wf(),
            old(self).has_vacancy() || old(self).view().contains_key(key_of(id)),
        ensures
            final(self).wf(),
            final(self).view() == old(self).view().insert(
                key_of(id),
                if old(self).view().contains_key(key_of(id)) {
                    updated(old(self).view()[key_of(id)], pos, target)
                } else {
                    fresh(pos)
                },
            ),
            final(self).marked_keys() == old(self).marked_keys().insert(key_of(id)),
            old(self).view() == Map::<(u16, u32), Position>::empty() ==> !final(self).wraps(),
    {
        let ghost k = key_of(id);
        let ghost s = self.entities@;
        let ghost p = self.positions@;
        match self.probe_idx(id) {
            (None, i) => {
                proof {
                    lemma_table_at(s, p, i as int);
                }
                self.mark_active(i);
                let mut moved = self.positions[i];
                moved.update_pos(pos, target);
                self.positions.set(i, moved);
                proof {
                    let q = self.positions@;
                    assert forall|y: int| 0 <= y < 2048 && live(#[trigger] s[y]) implies
                        table(s, p).insert(k, updated(table(s, p)[k], pos, target)).contains_key(ekey(s[y]))
                        && table(s, p).insert(k, updated(table(s, p)[k], pos, target))[ekey(s[y])] == q[y] by {
                        lemma_table_at(s, p, y);
                        if y != i {
                            assert(ekey(s[y]) != ekey(s[i as int]));
                        }
                    }
                    assert forall|k2: (u16, u32)| #[trigger] table(s, p).insert(k, updated(table(s, p)[k], pos, target)).contains_key(k2)
                        implies exists|x: int| holds(s, x, k2) by {
                        if k2 != k {
                            assert(table(s, p).contains_key(k2));
                        } else {
                            assert(holds(s, i as int, k2));
                        }
                    }
                    lemma_table_eq(s, q, table(s, p).insert(k, updated(table(s, p)[k], pos, target)));
                    let a0 = old(self).active@;
                    let a1 = self.active@;
                    assert forall|k2: (u16, u32)| #[trigger] marked_keys_of(s, a1).contains(k2) == marked_keys_of(s, a0).insert(k).contains(k2) by {
                        if marked_keys_of(s, a1).contains(k2) && k2 != k {
                            let x = choose|x: int| bit_set(a1, x) && holds(s, x, k2);
                            assert(x != i);
                            assert(bit_set(a0, x) && holds(s, x, k2));
                        }
                        if marked_keys_of(s, a0).contains(k2) {
                            let x = choose|x: int| bit_set(a0, x) && holds(s, x, k2);
                            assert(bit_set(a1, x) && holds(s, x, k2));
                        }
                        if k2 == k {
                            assert(bit_set(a1, i as int) && holds(s, i as int, k2));
                        }
                    }
                    assert(marked_keys_of(s, a1) =~= marked_keys_of(s, a0).insert(k));
                }
            },
            (Some(distance), i) => {
                proof {
                    assert(!table(s, p).contains_key(k)) by {
                        if table(s, p).contains_key(k) {
                            let x = choose|x: int| holds(s, x, k);
                            assert(holds(s, x, k));
                        }
                    }
                    assert(self.has_vacancy());
                    lemma_gap(s, i as int);
                    lemma_insert_rh(s, k, distance as int, i as int);
                    lemma_insert_view(s, p, k, distance as int, i as int, pos);
                }
                self.shift(i);
                let ghost a1 = self.active@;
                self.entities.set(i, Entry { distance, kind: id.kind.0 as u16, id: id.id });
                self.positions.set(i, Position::new(pos));
                self.mark_active(i);
                proof {
                    assert(self.entities@ =~= inserted(s, i as int, k, distance as int));
                    assert(self.positions@ =~= inserted_positions(s, p, i as int, pos));
                    lemma_insert_marks(s, old(self).active@, a1, self.active@, k, distance as int, i as int);
                    if table(s, p) == Map::<(u16, u32), Position>::empty() {
                        assert forall|x: int| 0 <= x < 2048 implies !live(#[trigger] s[x]) by {
                            if live(s[x]) {
                                lemma_table_at(s, p, x);
                            }
                        }
                        let h = home(k);
                        if distance > 0 {
                            assert(cd(h, h) == 0);
                            assert(s[h].distance >= cd(h, h));
                        }
                        assert(gap(s, i as int) == 0) by {
                            reveal_with_fuel(run, 2);
                        }
                        let t = self.entities@;
                        assert forall|x: int| 0 <= x < 2048 && live(#[trigger] t[x]) implies t[x].distance <= x by {
                            if x != i {
                                assert(t[x] == s[x]);
                            }
                        }
                    }
                }
            },
        }
    }

    /// The position of `id`, if the table holds it, to read or change in
    /// place.
    pub fn get(&mut self, id: UnitId) -> (r: Option<&mut Position>)
        requires
            old(self).valid(),
        ensures
            r.is_some() ==> old(self).view().contains_key(key_of(id)),
            old(self).wf() ==> r.is_some() == old(self).view().contains_key(key_of(id)),
            match r {
                Some(p) => {
                    &&& *p == old(self).view()[key_of(id)]
                    &&& final(self).valid()
                    &&& old(self).wf() ==> final(self).wf()
                    &&& final(self).view() == old(self).view().insert(key_of(id), *final(p))
                    &&& forall|x: int| 0 <= x < 2048 ==> #[trigger] final(self).marked(x) == old(self).marked(x)
                    &&& final(self).marked_keys() == old(self).marked_keys()
                    &&& !old(self).wraps() ==> !final(self).wraps()
                },
                None => *final(self) == *old(self),
            },
    {
        let ghost s = self.entities@;
        let ghost p = self.positions@;
        if let (None, i) = self.probe_idx(id) {
            proof {
                lemma_table_at(s, p, i as int);
            }
            Some(&mut self.positions[i])
        } else {
            proof {
                if rh(s) {
                    assert(!table(s, p).contains_key(key_of(id))) by {
                        if table(s, p).contains_key(key_of(id)) {
                            let x = choose|x: int| holds(s, x, key_of(id));
                            assert(holds(s, x, key_of(id)));
                        }
                    }
                }
            }
            None
        }
    }
}

/// An entry moved `by` slots back towards its home.
spec fn moved(e: Entry, by: int) -> Entry {
    Entry { distance: (e.distance - by) as i16, kind: e.kind, id: e.id }
}

/// A slot freed, its other fields left as they were.
spec fn killed(e: Entry) -> Entry {
    Entry { distance: -1i16, kind: e.kind, id: e.id }
}

/// Where compaction puts the entry `e` of slot `src` when the slots before
/// `dst` are taken: as far back as its home, but not before `dst`.
spec fn target_slot(e: Entry, src: int, dst: int) -> int {
    if src - e.distance > dst {
        src - e.distance
    } else {
        dst
    }
}

/// The slots after compaction moved the entry of `src` to its target: the
/// slots from `dst` up to the target freed, the entry at the target.
spec fn compacted_one(s: Seq<Entry>, src: int, dst: int) -> Seq<Entry> {
    let p = target_slot(s[src], src, dst);
    Seq::new(
        2048,
        |y: int|
            if dst <= y < p {
                killed(s[y])
            } else if y == p {
                moved(s[src], src - p)
            } else {
                s[y]
            },
    )
}

impl EntityTracker {
    /// Moves the live entry of slot `src` back to its target slot given that
    /// the slots before `dst` are taken, freeing the slots it passes over.
    /// Returns the first slot after it.
    fn compact_one(&mut self, src: usize, dst: usize) -> (nd: usize)
        requires
            old(self).entities@.len() == 2048,
            old(self).positions@.len() == 2048,
            dst <= src < 2048,
            0 <= old(self).entities@[src as int].distance < 2048,
        ensures
            nd == target_slot(old(self).entities@[src as int], src as int, dst as int) + 1,
            final(self).entities@ == compacted_one(old(self).entities@, src as int, dst as int),
            final(self).positions@ == old(self).positions@.update(
                target_slot(old(self).entities@[src as int], src as int, dst as int),
                old(self).positions@[src as int],
            ),
            final(self).active@ == old(self).active@,
    {
        let ghost s = self.entities@;
        let ghost p = target_slot(s[src as int], src as int, dst as int);
        let ghost dst0 = dst as int;
        let mut entry = self.entities[src];
        let mut distance = (src - dst) as i16;
        let mut dst = dst;
        while distance > entry.distance
            invariant
                s.len() == 2048,
                self.entities@.len() == 2048,
                self.positions@ == old(self).positions@,
                self.active@ == old(self).active@,
                entry == s[src as int],
                0 <= entry.distance < 2048,
                p == target_slot(s[src as int], src as int, dst0),
                dst0 <= dst <= p,
                p <= src < 2048,
                distance == src - dst,
                forall|y: int|
                    0 <= y < 2048 ==> #[trigger] self.entities@[y] == if dst0 <= y < dst {
                        killed(s[y])
                    } else {
                        s[y]
                    },
            decreases src - dst,
        {
            let mut dead = self.entities[dst];
            dead.distance = -1;
            self.entities.set(dst, dead);
            distance -= 1;
            dst += 1;
        }
        assert(dst == p);
        if dst != src {
            entry.distance -= distance;
            self.entities.set(dst, entry);
            let moved_pos = self.positions[src];
            self.positions.set(dst, moved_pos);
        }
        assert(self.entities@ =~= compacted_one(s, src as int, dst0));
        assert(self.positions@ =~= old(self).positions@.update(p, old(self).positions@[src as int]));
        dst + 1
    }
}

/// What compaction has done once it has gone through the old slots before
/// `pos` and filled the new slots before `dst`: the marked old entries
/// among them sit, in order, at their new slots `dest`, each new live slot
/// came from the marked old slot `origin`, and the rest is untouched.
spec fn compact_inv(
    s0: Seq<Entry>,
    p0: Seq<Position>,
    a0: Seq<u32>,
    t: Seq<Entry>,
    q: Seq<Position>,
    pos: int,
    dst: int,
    dest: Seq<int>,
    origin: Seq<int>,
) -> bool {
    &&& s0.len() == 2048 && p0.len() == 2048
    &&& t.len() == 2048 && q.len() == 2048 && dest.len() == 2048 && origin.len() == 2048
    &&& 0 <= dst <= pos <= 2048
    &&& forall|y: int| dst <= y < 2048 ==> #[trigger] t[y] == s0[y] && q[y] == p0[y]
    &&& forall|x: int|
        0 <= x < pos && #[trigger] bit_set(a0, x) ==> {
            &&& 0 <= dest[x] < dst
            &&& dest[x] <= x
            &&& t[dest[x]] == moved(s0[x], x - dest[x])
            &&& live(t[dest[x]])
            &&& q[dest[x]] == p0[x]
            &&& origin[dest[x]] == x
        }
    &&& forall|y: int|
        0 <= y < dst && live(#[trigger] t[y]) ==> {
            &&& 0 <= origin[y] < pos
            &&& bit_set(a0, origin[y])
            &&& dest[origin[y]] == y
        }
    &&& forall|y: int| 0 <= y < 2048 ==> -1 <= #[trigger] t[y].distance < 2048
}

/// No live entry lies past the end of the table from its home.
spec fn nowrap(s: Seq<Entry>) -> bool {
    forall|x: int| 0 <= x < 2048 && live(#[trigger] s[x]) ==> s[x].distance <= x
}

/// The new slots before `dst` keep the Robin Hood invariant without
/// wrapping, the last of them is live, and their homes come no later than
/// those of the old entries from `pos` on.
spec fn lrh(t: Seq<Entry>, dst: int, s0: Seq<Entry>, pos: int) -> bool {
    &&& forall|y: int| 0 <= y < dst && live(#[trigger] t[y]) ==> t[y].distance <= y
    &&& forall|y: int, z: int|
        #![trigger t[y], t[z]]
        0 <= y < dst && live(t[y]) && y - t[y].distance <= z < y ==> live(t[z]) && z - t[z].distance <= y
            - t[y].distance
    &&& dst > 0 ==> live(t[dst - 1])
    &&& forall|y: int, x: int|
        #![trigger t[y], s0[x]]
        0 <= y < dst && live(t[y]) && pos <= x < 2048 && live(s0[x]) ==> y - t[y].distance <= x - s0[x].distance
}

/// Without wrapping, homes come in the order of the slots.
proof fn lemma_monotone(s: Seq<Entry>)
    requires
        rh(s),
        nowrap(s),
    ensures
        forall|x1: int, x2: int|
            #![trigger s[x1], s[x2]]
            0 <= x1 < x2 < 2048 && live(s[x1]) && live(s[x2]) ==> x1 - s[x1].distance <= x2 - s[x2].distance,
{
    assert forall|x1: int, x2: int|
        #![trigger s[x1], s[x2]]
        0 <= x1 < x2 < 2048 && live(s[x1]) && live(s[x2]) implies x1 - s[x1].distance <= x2 - s[x2].distance by {
        if x2 - s[x2].distance <= x1 {
            assert(cd(x1, x2) == x2 - x1);
            assert(s[x1].distance >= s[x2].distance - cd(x1, x2));
        }
    }
}

/// Compaction passing an unmarked old slot changes nothing.
proof fn lemma_compact_skip(
    s0: Seq<Entry>,
    p0: Seq<Position>,
    a0: Seq<u32>,
    t: Seq<Entry>,
    q: Seq<Position>,
    pos: int,
    dst: int,
    dest: Seq<int>,
    origin: Seq<int>,
)
    requires
        compact_inv(s0, p0, a0, t, q, pos, dst, dest, origin),
        pos < 2048,
        !bit_set(a0, pos),
    ensures
        compact_inv(s0, p0, a0, t, q, pos + 1, dst, dest, origin),
        lrh(t, dst, s0, pos) ==> lrh(t, dst, s0, pos + 1),
{
}

/// Compaction moving a marked old entry to its target slot keeps its
/// invariants.
#[verifier::spinoff_prover]
proof fn lemma_compact_step(
    s0: Seq<Entry>,
    p0: Seq<Position>,
    a0: Seq<u32>,
    t: Seq<Entry>,
    q: Seq<Position>,
    pos: int,
    dst: int,
    dest: Seq<int>,
    origin: Seq<int>,
)
    requires
        compact_inv(s0, p0, a0, t, q, pos, dst, dest, origin),
        pos < 2048,
        bit_set(a0, pos),
        live(s0[pos]),
    ensures
        ({
            let p = target_slot(t[pos], pos, dst);
            &&& compact_inv(
                s0,
                p0,
                a0,
                compacted_one(t, pos, dst),
                q.update(p, q[pos]),
                pos + 1,
                p + 1,
                dest.update(pos, p),
                origin.update(p, pos),
            )
            &&& (rh(s0) && nowrap(s0) && lrh(t, dst, s0, pos)) ==> lrh(compacted_one(t, pos, dst), p + 1, s0, pos + 1)
        }),
{
    let p = target_slot(t[pos], pos, dst);
    let t2 = compacted_one(t, pos, dst);
    let q2 = q.update(p, q[pos]);
    let dest2 = dest.update(pos, p);
    let origin2 = origin.update(p, pos);
    assert(t[pos] == s0[pos]);
    assert(dst <= p <= pos);
    assert forall|y: int| p + 1 <= y < 2048 implies #[trigger] t2[y] == s0[y] && q2[y] == p0[y] by {
        assert(t2[y] == t[y]);
        assert(t[y] == s0[y] && q[y] == p0[y]);
    }
    assert forall|x: int| 0 <= x < pos + 1 && #[trigger] bit_set(a0, x) implies {
        &&& 0 <= dest2[x] < p + 1
        &&& dest2[x] <= x
        &&& t2[dest2[x]] == moved(s0[x], x - dest2[x])
        &&& live(t2[dest2[x]])
        &&& q2[dest2[x]] == p0[x]
        &&& origin2[dest2[x]] == x
    } by {
        if x < pos {
            assert(dest[x] < dst);
            assert(t2[dest[x]] == t[dest[x]]);
        }
    }
    assert forall|y: int| 0 <= y < p + 1 && live(#[trigger] t2[y]) implies {
        &&& 0 <= origin2[y] < pos + 1
        &&& bit_set(a0, origin2[y])
        &&& dest2[origin2[y]] == y
    } by {
        if y < dst {
            assert(t2[y] == t[y]);
        }
    }
    assert forall|y: int| 0 <= y < 2048 implies -1 <= #[trigger] t2[y].distance < 2048 by {}
    assert(compact_inv(s0, p0, a0, t2, q2, pos + 1, p + 1, dest2, origin2));
    if rh(s0) && nowrap(s0) && lrh(t, dst, s0, pos) {
        lemma_monotone(s0);
        let h = pos - s0[pos].distance;
        assert forall|y: int| 0 <= y < p + 1 && live(#[trigger] t2[y]) implies t2[y].distance <= y by {
            if y < dst {
                assert(t2[y] == t[y]);
            }
        }
        assert forall|y: int, z: int|
            #![trigger t2[y], t2[z]]
            0 <= y < p + 1 && live(t2[y]) && y - t2[y].distance <= z < y implies live(t2[z]) && z - t2[z].distance
                <= y - t2[y].distance by {
            if y < dst {
                assert(t2[y] == t[y]);
                assert(t2[z] == t[z]);
                assert(live(t[z]) && z - t[z].distance <= y - t[y].distance);
            } else {
                assert(y == p);
                assert(y - t2[y].distance == h);
                assert(p == dst);
                assert(live(t[dst - 1]));
                assert(dst - 1 - t[dst - 1].distance <= h);
                assert(t2[z] == t[z]);
                if z < dst - 1 {
                    assert(live(t[z]) && z - t[z].distance <= dst - 1 - t[dst - 1].distance);
                }
            }
        }
        assert forall|y: int, x: int|
            #![trigger t2[y], s0[x]]
            0 <= y < p + 1 && live(t2[y]) && pos + 1 <= x < 2048 && live(s0[x]) implies y - t2[y].distance <= x
                - s0[x].distance by {
            if y < dst {
                assert(t2[y] == t[y]);
                assert(y - t[y].distance <= x - s0[x].distance);
            } else if y == p {
                assert(pos - s0[pos].distance <= x - s0[x].distance);
            }
        }
    }
}

/// The slots `s` with every slot from `dst` on freed.
spec fn killed_from(s: Seq<Entry>, dst: int) -> Seq<Entry> {
    Seq::new(2048, |y: int| if dst <= y { killed(s[y]) } else { s[y] })
}

/// The keys of the live slots of `s` that `a` marks.
spec fn marked_keys_of(s: Seq<Entry>, a: Seq<u32>) -> Set<(u16, u32)> {
    Set::new(|k: (u16, u32)| exists|x: int| bit_set(a, x) && holds(s, x, k))
}

/// Once compaction has gone through every old slot and freed the rest, the
/// table holds exactly the marked units, with their positions; without
/// wrapping it also keeps the Robin Hood invariant.
proof fn lemma_compact_finish(
    s0: Seq<Entry>,
    p0: Seq<Position>,
    a0: Seq<u32>,
    t: Seq<Entry>,
    q: Seq<Position>,
    dst: int,
    dest: Seq<int>,
    origin: Seq<int>,
)
    requires
        compact_inv(s0, p0, a0, t, q, 2048, dst, dest, origin),
        unique(s0),
        forall|x: int| 0 <= x < 2048 && bit_set(a0, x) ==> live(#[trigger] s0[x]),
    ensures
        unique(killed_from(t, dst)),
        table(killed_from(t, dst), q) == table(s0, p0).restrict(marked_keys_of(s0, a0)),
        (rh(s0) && nowrap(s0) && lrh(t, dst, s0, 2048)) ==> rh(killed_from(t, dst)),
{
    let te = killed_from(t, dst);
    let m = table(s0, p0).restrict(marked_keys_of(s0, a0));
    assert forall|y: int| 0 <= y < 2048 && live(#[trigger] te[y]) implies {
        &&& y < dst
        &&& te[y] == t[y]
        &&& ekey(t[y]) == ekey(s0[origin[y]])
        &&& live(s0[origin[y]])
        &&& bit_set(a0, origin[y])
        &&& q[y] == p0[origin[y]]
        &&& 0 <= origin[y] < 2048
        &&& t[y].distance == s0[origin[y]].distance - (origin[y] - y)
    } by {
        assert(y < dst);
        let o = origin[y];
        assert(bit_set(a0, o));
        assert(dest[o] == y);
    }
    assert forall|i: int, j: int|
        #![trigger te[i], te[j]]
        0 <= i < 2048 && 0 <= j < 2048 && i != j && live(te[i]) && live(te[j]) implies ekey(te[i]) != ekey(te[j]) by {
        assert(origin[i] != origin[j]);
        assert(live(s0[origin[i]]) && live(s0[origin[j]]));
    }
    assert forall|y: int| 0 <= y < 2048 && live(#[trigger] te[y]) implies m.contains_key(ekey(te[y])) && m[ekey(te[y])]
        == q[y] by {
        let o = origin[y];
        lemma_table_at(s0, p0, o);
        assert(bit_set(a0, o) && holds(s0, o, ekey(s0[o])));
    }
    assert forall|k: (u16, u32)| #[trigger] m.contains_key(k) implies exists|i: int| holds(te, i, k) by {
        let x = choose|x: int| bit_set(a0, x) && holds(s0, x, k);
        assert(bit_set(a0, x));
        assert(holds(te, dest[x], k));
    }
    lemma_table_eq(te, q, m);
    if rh(s0) && nowrap(s0) && lrh(t, dst, s0, 2048) {
        assert forall|y: int| 0 <= y < 2048 && live(#[trigger] te[y]) implies cd(home(ekey(te[y])), y) == te[y].distance by {
            let o = origin[y];
            assert(cd(home(ekey(s0[o])), o) == s0[o].distance);
        }
        assert forall|i: int, j: int|
            #![trigger te[i], te[j]]
            0 <= i < 2048 && 0 <= j < 2048 && live(te[i]) && 0 < cd(j, i) <= te[i].distance
            implies te[j].distance >= te[i].distance - cd(j, i) by {
            assert(t[i].distance <= i);
            assert(j == i - cd(j, i));
            assert(live(t[j]) && j - t[j].distance <= i - t[i].distance);
            assert(te[j] == t[j]);
        }
        assert forall|y: int| 0 <= y < 2048 implies -1 <= #[trigger] te[y].distance < 2048 by {
            assert(-1 <= t[y].distance < 2048);
        }
    }
}

impl EntityTracker {
    /// Whether some live entry lies past the end of the table from its home,
    /// its run of slots wrapping round to the start.
    pub closed spec fn wraps(&self) -> bool {
        exists|x: int| 0 <= x < 2048 && live(#[trigger] self.entities@[x]) && self.entities@[x].distance > x
    }

    /// The keys held by marked slots.
    pub closed spec fn marked_keys(&self) -> Set<(u16, u32)> {
        marked_keys_of(self.entities@, self.active@)
    }

    /// Drops every unit not updated since the last clear, moves the rest back
    /// towards their homes, and clears the marks. Entries whose run wraps round the
    /// end of the table are not moved across it, so when some entry wraps,
    /// the result holds the right units but need not keep the table's
    /// invariant.
    pub fn clear_unused(&mut self)
        requires
            old(self).valid(),
        ensures
            final(self).valid(),
            forall|x: int| 0 <= x < 2048 ==> !#[trigger] final(self).marked(x),
            final(self).marked_keys() == Set::<(u16, u32)>::empty(),
            final(self).view() == old(self).view().restrict(old(self).marked_keys()),
            old(self).wf() && !old(self).wraps() ==> final(self).wf(),
    {
        let ghost s0 = self.entities@;
        let ghost p0 = self.positions@;
        let ghost a0 = self.active@;
        let ghost mut dest: Seq<int> = Seq::new(2048, |x: int| 0int);
        let ghost mut origin: Seq<int> = Seq::new(2048, |x: int| 0int);
        proof {
            if !self.wraps() {
                assert(nowrap(s0));
            }
        }
        let mut dst: usize = 0;
        let mut i: usize = 0;
        while i < self.active.len()
            invariant
                self.active@ == a0,
                a0.len() == 64,
                unique(s0),
                forall|x: int| 0 <= x < 2048 ==> -1 <= #[trigger] s0[x].distance < 2048,
                forall|x: int| 0 <= x < 2048 && bit_set(a0, x) ==> live(#[trigger] s0[x]),
                0 <= i <= 64,
                compact_inv(s0, p0, a0, self.entities@, self.positions@, 32 * i, dst as int, dest, origin),
                rh(s0) && nowrap(s0) ==> lrh(self.entities@, dst as int, s0, 32 * i),
            decreases 64 - i,
        {
            if self.active[i] == 0 {
                proof {
                    assert forall|x: int| 32 * i <= x < 32 * i + 32 implies !#[trigger] bit_set(a0, x) by {
                        assert(x / 32 == i);
                        let c = (x % 32) as u32;
                        assert(0u32 & (1u32 << c) == 0u32) by (bit_vector);
                    }
                }
            } else {
                let mut j: usize = 0;
                while j < 32
                    invariant
                        self.active@ == a0,
                        a0.len() == 64,
                        unique(s0),
                        forall|x: int| 0 <= x < 2048 ==> -1 <= #[trigger] s0[x].distance < 2048,
                        forall|x: int| 0 <= x < 2048 && bit_set(a0, x) ==> live(#[trigger] s0[x]),
                        0 <= i < 64,
                        0 <= j <= 32,
                        compact_inv(s0, p0, a0, self.entities@, self.positions@, 32 * i + j, dst as int, dest, origin),
                        rh(s0) && nowrap(s0) ==> lrh(self.entities@, dst as int, s0, 32 * i + j),
                    decreases 32 - j,
                {
                    let word = self.active[i];
                    let bit: u32 = 1u32 << (j as u32);
                    let pos = (i << 5u32) | j;
                    assert(pos == 32 * i + j) by (bit_vector)
                        requires
                            pos == (i << 5u32) | j,
                            i < 64,
                            j < 32,
                    ;
                    assert(pos / 32 == i && pos % 32 == j);
                    if word & bit == 0 {
                        proof {
                            lemma_compact_skip(s0, p0, a0, self.entities@, self.positions@, pos as int, dst as int, dest, origin);
                        }
                    } else {
                        proof {
                            lemma_compact_step(s0, p0, a0, self.entities@, self.positions@, pos as int, dst as int, dest, origin);
                        }
                        let ghost tp = target_slot(self.entities@[pos as int], pos as int, dst as int);
                        let nd = self.compact_one(pos, dst);
                        proof {
                            dest = dest.update(pos as int, tp);
                            origin = origin.update(tp, pos as int);
                        }
                        dst = nd;
                    }
                    j += 1;
                }
            }
            i += 1;
        }
        let ghost t = self.entities@;
        let ghost q = self.positions@;
        assert(compact_inv(s0, p0, a0, t, q, 2048, dst as int, dest, origin));
        let mut y = dst;
        while y < UNIT_COUNT
            invariant
                t.len() == 2048,
                self.active@ == a0,
                a0.len() == 64,
                self.positions@ == q,
                dst <= y <= 2048,
                self.entities@ == Seq::new(2048, |z: int| if dst <= z < y { killed(t[z]) } else { t[z] }),
            decreases 2048 - y,
        {
            let mut dead = self.entities[y];
            dead.distance = -1;
            self.entities.set(y, dead);
            y += 1;
            assert(self.entities@ =~= Seq::new(2048, |z: int| if dst <= z < y { killed(t[z]) } else { t[z] }));
        }
        assert(self.entities@ =~= killed_from(t, dst as int));
        let mut w: usize = 0;
        while w < self.active.len()
            invariant
                self.active@.len() == 64,
                self.positions@ == q,
                self.entities@ == killed_from(t, dst as int),
                0 <= w <= 64,
                forall|v: int| 0 <= v < w ==> self.active@[v] == 0u32,
            decreases 64 - w,
        {
            self.active.set(w, 0);
            w += 1;
        }
        proof {
            lemma_compact_finish(s0, p0, a0, t, q, dst as int, dest, origin);
            assert forall|x: int| 0 <= x < 2048 implies !#[trigger] bit_set(self.active@, x) by {
                assert(self.active@[x / 32] == 0u32);
                let c = (x % 32) as u32;
                assert(0u32 & (1u32 << c) == 0u32) by (bit_vector);
            }
            assert forall|k: (u16, u32)| !self.marked_keys().contains(k) by {
                if self.marked_keys().contains(k) {
                    let x = choose|x: int| bit_set(self.active@, x) && holds(self.entities@, x, k);
                    assert(bit_set(self.active@, x));
                }
            }
            assert(self.marked_keys() =~= Set::<(u16, u32)>::empty());
        }
    }
}

/// A unit that `insert_or_update` records is held afterwards, at the
/// position it was given: `get` then finds it.
pub proof fn law_recorded_unit_is_held(m: Map<(u16, u32), Position>, k: (u16, u32), v: Position)
    ensures
        m.insert(k, v).contains_key(k),
        m.insert(k, v)[k] == v,
{
}

/// A unit whose slot is marked survives `clear_unused` with its position,
/// and an unmarked one is dropped.
pub proof fn law_clear_keeps_marked(t: EntityTracker, i: int)
    requires
        t.valid(),
        0 <= i < 2048,
        t.occupied(i),
    ensures
        t.view().restrict(t.marked_keys()).contains_key(t.key_at(i)) == t.marked(i),
        t.marked(i) ==> t.view().restrict(t.marked_keys())[t.key_at(i)] == t.position_at(i),
{
    let s = t.entities@;
    lemma_table_at(s, t.positions@, i);
    if !t.marked(i) && t.marked_keys().contains(t.key_at(i)) {
        let x = choose|x: int| bit_set(t.active@, x) && holds(s, x, t.key_at(i));
        assert(holds(s, x, t.key_at(i)));
        assert(x != i);
        assert(ekey(s[x]) != ekey(s[i]));
    }
    if t.marked(i) {
        assert(bit_set(t.active@, i) && holds(s, i, t.key_at(i)));
    }
}

/// With no slot marked, `clear_unused` drops every unit: a unit that is not
/// updated between two calls is gone after the second.
pub proof fn law_clear_without_marks_empties(t: EntityTracker)
    requires
        forall|x: int| 0 <= x < 2048 ==> !#[trigger] t.marked(x),
    ensures
        t.view().restrict(t.marked_keys()) == Map::<(u16, u32), Position>::empty(),
{
    assert(t.marked_keys() =~= Set::<(u16, u32)>::empty()) by {
        assert forall|k: (u16, u32)| !t.marked_keys().contains(k) by {
            if t.marked_keys().contains(k) {
                let x = choose|x: int| bit_set(t.active@, x) && holds(t.entities@, x, k);
                assert(t.marked(x));
            }
        }
    }
    assert(t.view().restrict(t.marked_keys()) =~= Map::<(u16, u32), Position>::empty());
}


/// A unit updated since the last `clear_unused` survives the next one with
/// the position it was given, and is gone after a second one with no update
/// in between: `insert_or_update` adds its key to the marked keys, and a
/// clear leaves no key marked.
pub proof fn law_updated_unit_survives_one_clear(
    view: Map<(u16, u32), Position>,
    marked: Set<(u16, u32)>,
    k: (u16, u32),
    v: Position,
)
    ensures
        view.insert(k, v).restrict(marked.insert(k)).contains_key(k),
        view.insert(k, v).restrict(marked.insert(k))[k] == v,
        view.insert(k, v).restrict(marked.insert(k)).restrict(Set::<(u16, u32)>::empty()) == Map::<
            (u16, u32),
            Position,
        >::empty(),
{
    assert(view.insert(k, v).restrict(marked.insert(k)).restrict(Set::<(u16, u32)>::empty()) =~= Map::<
        (u16, u32),
        Position,
    >::empty());
}
} // verus!
