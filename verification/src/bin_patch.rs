//! Code patches checked against a hashed pattern before they are written.
use vstd::prelude::*;

use crate::code::{le_bytes, le_u32, nop_fill, push_le_u32, push_nop_fill, read_le_u32, rel32, call_displacement};
use crate::control::{control_at, Uint2Iter};
use crate::pattern::{hash_step, HASH_INIT, parse_pattern, parse_from, pattern_hash, is_space, is_hex, hex_value, reloc_closes};

verus! {

/// The pattern hash continued over the four little-endian bytes of `v`.
pub open spec fn hash_word(h: u32, v: u32) -> u32 {
    let b = le_bytes(v);
    hash_step(hash_step(hash_step(hash_step(h, b[0] as u32), b[1] as u32), b[2] as u32), b[3] as u32)
}

/// The low 32 bits of `x - y`.
pub open spec fn sub32(x: u32, y: u32) -> u32 {
    if x >= y {
        (x - y) as u32
    } else {
        (x - y + 0x1_0000_0000) as u32
    }
}

/// The 32-bit pattern of a relocation distance that fits an `i32`.
pub open spec fn reloc_bits(d: int) -> u32 {
    if d < 0 {
        (d + 0x1_0000_0000) as u32
    } else {
        d as u32
    }
}

/// Whether `d` fits an `i32`.
pub open spec fn fits_i32(d: int) -> bool {
    -0x8000_0000 <= d <= 0x7fff_ffff
}

/// The pattern hash of the code `mem`, read under the control stream `cs` from
/// control value `t` and byte `p` on with hash `h` so far. Control `0` hashes
/// a byte, `1` hashes a zero in place of a byte, `2` hashes the four bytes of
/// a relocated word with `reloc` taken back out. Reading ends when a byte is
/// needed and none is left. `None` when a control value is `3`, or a
/// relocated word runs past the end.
#[verifier::opaque]
pub open spec fn walk(cs: Seq<u32>, mem: Seq<u8>, reloc: u32, t: int, p: int, h: u32) -> Option<u32>
    decreases mem.len() - p,
{
    if p < 0 || p > mem.len() {
        None
    } else {
        let c = control_at(cs, t);
        if c >= 3 {
            None
        } else if c == 2 {
            if p + 4 > mem.len() {
                None
            } else {
                walk(cs, mem, reloc, t + 1, p + 4, hash_word(h, sub32(le_u32(mem, p), reloc)))
            }
        } else if p == mem.len() {
            Some(h)
        } else {
            walk(
                cs,
                mem,
                reloc,
                t + 1,
                p + 1,
                hash_step(
                    h,
                    if c == 1 {
                        0
                    } else {
                        mem[p] as u32
                    },
                ),
            )
        }
    }
}

/// Whether reading `n` bytes of code under `cs`, from control value `t` and
/// byte `p` on, never meets a control value `3` or a relocated word that
/// runs past the end: whether the code hash is defined, whatever the bytes.
pub open spec fn stream_covers(cs: Seq<u32>, n: int, t: int, p: int) -> bool
    decreases n - p,
{
    if p < 0 || p > n {
        false
    } else {
        let c = control_at(cs, t);
        if c >= 3 {
            false
        } else if c == 2 {
            p + 4 <= n && stream_covers(cs, n, t + 1, p + 4)
        } else if p == n {
            true
        } else {
            stream_covers(cs, n, t + 1, p + 1)
        }
    }
}

/// The code hash is defined exactly where the stream covers the code: it
/// does not depend on the bytes.
pub proof fn lemma_walk_covers(cs: Seq<u32>, mem: Seq<u8>, reloc: u32, t: int, p: int, h: u32)
    ensures
        (walk(cs, mem, reloc, t, p, h) is Some) == stream_covers(cs, mem.len() as int, t, p),
    decreases mem.len() - p,
{
    reveal(walk);
    if 0 <= p <= mem.len() {
        let c = control_at(cs, t);
        if c == 2 {
            if p + 4 <= mem.len() {
                lemma_walk_covers(cs, mem, reloc, t + 1, p + 4, hash_word(h, sub32(le_u32(mem, p), reloc)));
            }
        } else if c < 2 && p < mem.len() {
            lemma_walk_covers(
                cs,
                mem,
                reloc,
                t + 1,
                p + 1,
                hash_step(
                    h,
                    if c == 1 {
                        0
                    } else {
                        mem[p] as u32
                    },
                ),
            );
        }
    }
}

/// The pattern hash of the code `mem` under `cs` with relocation `reloc`.
pub open spec fn code_hash(cs: Seq<u32>, mem: Seq<u8>, reloc: u32) -> Option<u32> {
    walk(cs, mem, reloc, 0, 0, HASH_INIT)
}

/// One step of the pattern hash.
fn hash_byte(h: u32, b: u32) -> (r: u32)
    ensures
        r == hash_step(h, b),
{
    (h ^ b).wrapping_mul(0x0100_0193u32)
}

/// The pattern hash continued over the little-endian bytes of `x`.
fn hash_u32_word(h: u32, x: u32) -> (r: u32)
    ensures
        r == hash_word(h, x),
{
    let h1 = hash_byte(h, x % 256);
    let h2 = hash_byte(h1, (x / 256) % 256);
    let h3 = hash_byte(h2, (x / 65536) % 256);
    hash_byte(h3, x / 16777216)
}

proof fn lemma_walk_step(cs: Seq<u32>, mem: Seq<u8>, reloc: u32, t: int, p: int, h: u32)
    requires
        0 <= p < mem.len(),
        walk(cs, mem, reloc, t, p, h) is Some,
    ensures
        control_at(cs, t) < 3,
        control_at(cs, t) == 2 ==> p + 4 <= mem.len() && walk(cs, mem, reloc, t, p, h) == walk(
            cs,
            mem,
            reloc,
            t + 1,
            p + 4,
            hash_word(h, sub32(le_u32(mem, p), reloc)),
        ),
        control_at(cs, t) < 2 ==> walk(cs, mem, reloc, t, p, h) == walk(
            cs,
            mem,
            reloc,
            t + 1,
            p + 1,
            hash_step(
                h,
                if control_at(cs, t) == 1 {
                    0
                } else {
                    mem[p] as u32
                },
            ),
        ),
{
    reveal(walk);
}

/// Hashes the unit of code at `p` read under control value `control`.
fn hash_unit(
    memory: &[u8],
    p: usize,
    control: u32,
    reloc: u32,
    h: u32,
    Ghost(cs): Ghost<Seq<u32>>,
    Ghost(t): Ghost<int>,
) -> (r: (usize, u32))
    requires
        p < memory@.len(),
        control == control_at(cs, t),
        walk(cs, memory@, reloc, t, p as int, h) is Some,
    ensures
        p < r.0 <= memory@.len(),
        walk(cs, memory@, reloc, t, p as int, h) == walk(cs, memory@, reloc, t + 1, r.0 as int, r.1),
{
    let n = memory.len();
    proof {
        lemma_walk_step(cs, memory@, reloc, t, p as int, h);
    }
    if control == 2 {
        let v = read_le_u32(memory, p);
        (p + 4, hash_u32_word(h, v.wrapping_sub(reloc)))
    } else {
        let b = if control == 1 {
            0u32
        } else {
            memory[p] as u32
        };
        (p + 1, hash_byte(h, b))
    }
}

proof fn lemma_walk_end(cs: Seq<u32>, mem: Seq<u8>, reloc: u32, t: int, h: u32)
    requires
        walk(cs, mem, reloc, t, mem.len() as int, h) is Some,
    ensures
        walk(cs, mem, reloc, t, mem.len() as int, h) == Some(h),
{
    reveal(walk);
}

/// What a patch writes in place of the code it replaces.
pub enum PatchData {
    /// A call to the function at this address.
    Target(usize),
    /// These bytes.
    Raw(&'static [u8]),
}

/// A code patch which can be applied to a loaded module.
pub struct Patch {
    pub offset: usize,
    len: u16,
    hash: u32,
    control_stream: &'static [u32],
    data: PatchData,
}

impl Patch {
    /// The offset of the patched code from the module base.
    pub closed spec fn code_offset(&self) -> usize {
        self.offset
    }

    /// The number of bytes the patch covers.
    pub closed spec fn code_len(&self) -> nat {
        self.len as nat
    }

    /// The hash the replaced code must have.
    pub closed spec fn expected_hash(&self) -> u32 {
        self.hash
    }

    /// The control stream that the replaced code is read under.
    pub closed spec fn stream(&self) -> Seq<u32> {
        self.control_stream@
    }

    /// The call target, if the patch writes a call.
    pub closed spec fn target(&self) -> Option<usize> {
        match self.data {
            PatchData::Target(t) => Some(t),
            PatchData::Raw(_) => None,
        }
    }

    /// The bytes written before the padding, if the patch writes raw bytes.
    pub closed spec fn raw_data(&self) -> Seq<u8> {
        match self.data {
            PatchData::Target(_) => Seq::empty(),
            PatchData::Raw(d) => d@,
        }
    }

    /// The bytes the patch writes when its code starts at `address`: the call
    /// or the raw bytes, then padding up to its length.
    pub open spec fn patched_code(&self, address: int) -> Seq<u8> {
        match self.target() {
            Some(t) => seq![0xe8u8] + le_bytes(rel32(t as int, address + 5)) + nop_fill(
                (self.code_len() - 5) as nat,
                32,
            ),
            None => self.raw_data() + nop_fill((self.code_len() - self.raw_data().len()) as nat, 32),
        }
    }

    /// A patch which replaces the code with a call to the function at
    /// `target`.
    pub fn call(offset: usize, source: (u16, u32, &'static [u32]), target: usize) -> (r: Self)
        ensures
            r.code_offset() == offset,
            r.code_len() == source.0,
            r.expected_hash() == source.1,
            r.stream() == source.2@,
            r.target() == Some(target),
    {
        let (len, hash, control_stream) = source;
        Self { offset, len, hash, control_stream, data: PatchData::Target(target) }
    }

    /// A patch which replaces the code with code that does nothing.
    pub fn nop(offset: usize, source: (u16, u32, &'static [u32])) -> (r: Self)
        ensures
            r.code_offset() == offset,
            r.code_len() == source.0,
            r.expected_hash() == source.1,
            r.stream() == source.2@,
            r.target() is None,
            r.raw_data() == Seq::<u8>::empty(),
    {
        let (len, hash, control_stream) = source;
        Self { offset, len, hash, control_stream, data: PatchData::Raw(&[]) }
    }

    /// A patch which replaces the code with `data`, then padding.
    pub fn raw(offset: usize, source: (u16, u32, &'static [u32]), data: &'static [u8]) -> (r: Self)
        ensures
            r.code_offset() == offset,
            r.code_len() == source.0,
            r.expected_hash() == source.1,
            r.stream() == source.2@,
            r.target() is None,
            r.raw_data() == data@,
    {
        let (len, hash, control_stream) = source;
        Self { offset, len, hash, control_stream, data: PatchData::Raw(data) }
    }

    /// The number of bytes the patch covers.
    pub fn len(&self) -> (r: usize)
        ensures
            r == self.code_len(),
    {
        self.len as usize
    }

    /// Whether the patch's control stream covers its code, so that its code
    /// can be checked whatever the bytes are (`has_expected` and `apply`
    /// need that).
    pub fn covers_code(&self) -> (r: bool)
        ensures
            r == stream_covers(self.stream(), self.code_len() as int, 0, 0),
    {
        let ghost cs = self.control_stream@;
        let n = self.len as usize;
        let mut controls = Uint2Iter::new(self.control_stream);
        let ghost mut t: int = 0;
        let mut p = 0usize;
        while p < n
            invariant
                controls.wf(),
                controls.stream() == cs,
                0 <= controls.position() <= 16 * cs.len(),
                cs == self.stream(),
                n == self.code_len(),
                p <= n,
                t >= 0,
                t == controls.position() || (t >= 16 * cs.len() && controls.position() == 16 * cs.len()),
                stream_covers(cs, n as int, 0, 0) == stream_covers(cs, n as int, t, p as int),
            decreases n - p,
        {
            proof {
                crate::control::lemma_control_small(cs, controls.position());
            }
            let control = match controls.next() {
                Some(c) => c as u32,
                None => 0u32,
            };
            assert(control == control_at(cs, t));
            if control == 2 {
                if n - p < 4 {
                    return false;
                }
                p = p + 4;
            } else if control >= 3 {
                return false;
            } else {
                p = p + 1;
            }
            proof {
                t = t + 1;
            }
        }
        proof {
            crate::control::lemma_control_small(cs, controls.position());
        }
        let last = match controls.next() {
            Some(c) => c as u32,
            None => 0u32,
        };
        assert(last == control_at(cs, t));
        last < 2
    }

    /// Whether `memory`, the code at the patch location, is the code the patch
    /// expects when the module is loaded `reloc_dist` bytes away from its
    /// preferred base: its hash under the patch's control stream must be the
    /// patch's hash. A distance that does not fit an `i32` never matches.
    pub fn has_expected(&self, memory: &[u8], reloc_dist: isize) -> (r: bool)
        requires
            memory@.len() == self.code_len(),
            fits_i32(reloc_dist as int) ==> code_hash(
                self.stream(),
                memory@,
                reloc_bits(reloc_dist as int),
            ) is Some,
        ensures
            r == (fits_i32(reloc_dist as int) && code_hash(
                self.stream(),
                memory@,
                reloc_bits(reloc_dist as int),
            ) == Some(self.expected_hash())),
    {
        if reloc_dist < -0x8000_0000isize || reloc_dist > 0x7fff_ffffisize {
            return false;
        }
        let reloc: u32 = if reloc_dist < 0 {
            (reloc_dist as i64 + 0x1_0000_0000i64) as u32
        } else {
            reloc_dist as u32
        };
        let ghost cs = self.control_stream@;
        let ghost mem = memory@;
        let mut controls = Uint2Iter::new(self.control_stream);
        let ghost mut t: int = 0;
        let mut p = 0usize;
        let mut h = HASH_INIT;
        while p < memory.len()
            invariant
                controls.wf(),
                controls.stream() == cs,
                0 <= controls.position() <= 16 * cs.len(),
                cs == self.stream(),
                mem == memory@,
                reloc == reloc_bits(reloc_dist as int),
                p <= mem.len(),
                t >= 0,
                t == controls.position() || (t >= 16 * cs.len() && controls.position() == 16
                    * cs.len()),
                code_hash(cs, mem, reloc) is Some,
                code_hash(cs, mem, reloc) == walk(cs, mem, reloc, t, p as int, h),
            decreases mem.len() - p,
        {
            proof {
                crate::control::lemma_control_small(cs, controls.position());
            }
            let control = match controls.next() {
                Some(c) => c as u32,
                None => 0u32,
            };
            assert(control == control_at(cs, t));
            let (p1, h1) = hash_unit(memory, p, control, reloc, h, Ghost(cs), Ghost(t));
            p = p1;
            h = h1;
            proof {
                t = t + 1;
            }
        }
        proof {
            lemma_walk_end(cs, mem, reloc, t, h);
        }
        h == self.hash
    }

    /// Applies the patch to `memory`, the code at the patch location, which
    /// starts at `address` in a module loaded `reloc_dist` bytes away from
    /// its preferred base. Fails, leaving `memory` as it was, unless it holds
    /// the expected code (`has_expected`).
    pub fn apply(&self, memory: &mut Vec<u8>, address: usize, reloc_dist: isize) -> (r: Result<(), ()>)
        requires
            old(memory)@.len() == self.code_len(),
            self.target() is Some ==> self.code_len() >= 5 && address + 5 <= usize::MAX,
            self.target() is None ==> self.raw_data().len() <= self.code_len(),
            fits_i32(reloc_dist as int) ==> code_hash(
                self.stream(),
                old(memory)@,
                reloc_bits(reloc_dist as int),
            ) is Some,
        ensures
            (r is Ok) == (fits_i32(reloc_dist as int) && code_hash(
                self.stream(),
                old(memory)@,
                reloc_bits(reloc_dist as int),
            ) == Some(self.expected_hash())),
            r is Ok ==> final(memory)@ == self.patched_code(address as int),
            r is Err ==> final(memory)@ == old(memory)@,
    {
        if !self.has_expected(memory.as_slice(), reloc_dist) {
            return Err(());
        }
        self.write(memory, address);
        Ok(())
    }

    /// Writes the patch over `memory`, the code at the patch location, which
    /// starts at `address`.
    fn write(&self, memory: &mut Vec<u8>, address: usize)
        requires
            old(memory)@.len() == self.code_len(),
            self.target() is Some ==> self.code_len() >= 5 && address + 5 <= usize::MAX,
            self.target() is None ==> self.raw_data().len() <= self.code_len(),
        ensures
            final(memory)@ == self.patched_code(address as int),
            final(memory)@.len() == self.code_len(),
    {
        let len = self.len as usize;
        let mut out: Vec<u8> = Vec::with_capacity(len);
        match self.data {
            PatchData::Target(target) => {
                out.push(0xe8);
                push_le_u32(&mut out, call_displacement(target, address));
                push_nop_fill(&mut out, len - 5, 32);
            },
            PatchData::Raw(data) => {
                let mut i = 0usize;
                while i < data.len()
                    invariant
                        i <= data@.len(),
                        out@ == data@.subrange(0, i as int),
                    decreases data@.len() - i,
                {
                    out.push(data[i]);
                    i = i + 1;
                    assert(out@ =~= data@.subrange(0, i as int));
                }
                assert(data@.subrange(0, data@.len() as int) =~= data@);
                push_nop_fill(&mut out, len - data.len(), 32);
            },
        }
        proof {
            match self.target() {
                Some(_) => crate::code::lemma_nop_fill_len((len - 5) as nat, 32),
                None => crate::code::lemma_nop_fill_len((len - self.raw_data().len()) as nat, 32),
            }
            assert(out@ =~= self.patched_code(address as int));
        }
        *memory = out;
    }
}


/// Whether `mem` is the code `p` expects in a module loaded `reloc` bytes
/// away from its preferred base; see `Patch::has_expected`.
pub open spec fn expects(p: Patch, mem: Seq<u8>, reloc: isize) -> bool {
    fits_i32(reloc as int) && code_hash(p.stream(), mem, reloc_bits(reloc as int)) == Some(p.expected_hash())
}

/// What `apply` needs of a patch, the code it is given and where it lies.
pub open spec fn can_apply(p: Patch, mem: Seq<u8>, address: usize, reloc: isize) -> bool {
    &&& mem.len() == p.code_len()
    &&& p.target() is Some ==> p.code_len() >= 5 && address + 5 <= usize::MAX
    &&& p.target() is None ==> p.raw_data().len() <= p.code_len()
    &&& fits_i32(reloc as int) ==> code_hash(p.stream(), mem, reloc_bits(reloc as int)) is Some
}

/// Applies a set of patches, each to its own code `memories[i]` at
/// `addresses[i]` in a module loaded `reloc_dists[i]` bytes away from its
/// preferred base. With `check`, every patch's code is checked first and, if
/// any is not the expected code, nothing is written and the set fails.
/// Then each patch is applied; one whose code is not the expected code
/// leaves it as it was.
pub fn try_apply_patch_set(
    patches: &Vec<Patch>,
    memories: &mut Vec<Vec<u8>>,
    addresses: &Vec<usize>,
    reloc_dists: &Vec<isize>,
    check: bool,
) -> (r: Result<(), ()>)
    requires
        old(memories)@.len() == patches@.len(),
        addresses@.len() == patches@.len(),
        reloc_dists@.len() == patches@.len(),
        forall|i: int|
            0 <= i < patches@.len() ==> can_apply(
                #[trigger] patches@[i],
                old(memories)@[i]@,
                addresses@[i],
                reloc_dists@[i],
            ),
    ensures
        final(memories)@.len() == old(memories)@.len(),
        (r is Err) == (check && exists|i: int|
            0 <= i < patches@.len() && !expects(#[trigger] patches@[i], old(memories)@[i]@, reloc_dists@[i])),
        r is Err ==> forall|i: int| 0 <= i < patches@.len() ==> #[trigger] final(memories)@[i]@ == old(memories)@[i]@,
        r is Ok ==> forall|i: int|
            0 <= i < patches@.len() ==> #[trigger] final(memories)@[i]@ == if expects(
                patches@[i],
                old(memories)@[i]@,
                reloc_dists@[i],
            ) {
                patches@[i].patched_code(addresses@[i] as int)
            } else {
                old(memories)@[i]@
            },
{
    let n = patches.len();
    if check {
        let mut i = 0usize;
        while i < n
            invariant
                check,
                n == patches@.len(),
                memories@.len() == n,
                memories@ == old(memories)@,
                reloc_dists@.len() == n,
                addresses@.len() == n,
                i <= n,
                forall|j: int| 0 <= j < patches@.len() ==> can_apply(
                    #[trigger] patches@[j],
                    memories@[j]@,
                    addresses@[j],
                    reloc_dists@[j],
                ),
                forall|j: int| 0 <= j < i ==> expects(#[trigger] patches@[j], memories@[j]@, reloc_dists@[j]),
            decreases n - i,
        {
            let p = &patches[i];
            assert(can_apply(patches@[i as int], memories@[i as int]@, addresses@[i as int], reloc_dists@[i as int]));
            if !p.has_expected(memories[i].as_slice(), reloc_dists[i]) {
                assert(!expects(patches@[i as int], old(memories)@[i as int]@, reloc_dists@[i as int]));
                return Err(());
            }
            i += 1;
        }
    }
    let ghost m0 = memories@;
    let mut i = 0usize;
    while i < n
        invariant
            n == patches@.len(),
            memories@.len() == n,
            m0 == old(memories)@,
            reloc_dists@.len() == n,
            addresses@.len() == n,
            i <= n,
            forall|j: int| 0 <= j < patches@.len() ==> can_apply(
                #[trigger] patches@[j],
                m0[j]@,
                addresses@[j],
                reloc_dists@[j],
            ),
            forall|j: int| i <= j < n ==> #[trigger] memories@[j] == m0[j],
            forall|j: int| 0 <= j < i ==> #[trigger] memories@[j]@ == if expects(
                patches@[j],
                m0[j]@,
                reloc_dists@[j],
            ) {
                patches@[j].patched_code(addresses@[j] as int)
            } else {
                m0[j]@
            },
            check ==> forall|j: int| 0 <= j < n ==> expects(#[trigger] patches@[j], m0[j]@, reloc_dists@[j]),
        decreases n - i,
    {
        let mut code = memories[i].clone();
        assert(code@ == m0[i as int]@);
        assert(can_apply(patches@[i as int], m0[i as int]@, addresses@[i as int], reloc_dists@[i as int]));
        let _ = patches[i].apply(&mut code, addresses[i], reloc_dists[i]);
        memories.set(i, code);
        i += 1;
    }
    Ok(())
}

} // verus!

verus! {

/// The byte offset of unit `t` of a pattern with control values `v`: a
/// relocated word takes four bytes, every other unit one.
pub open spec fn unit_offset(v: Seq<u32>, t: int) -> int
    decreases t,
{
    if t <= 0 {
        0
    } else {
        unit_offset(v, t - 1) + if v[t - 1] == 2 {
            4int
        } else {
            1int
        }
    }
}

/// The shape every compiled pattern has: control values below `3`, bytes
/// that exactly fill the units, and zero in place of each unchecked byte.
pub open spec fn pattern_shape(bytes: Seq<u8>, v: Seq<u32>) -> bool {
    &&& forall|t: int| 0 <= t < v.len() ==> #[trigger] v[t] < 3
    &&& bytes.len() == unit_offset(v, v.len() as int)
    &&& forall|t: int| 0 <= t < v.len() && #[trigger] v[t] == 1 ==> bytes[unit_offset(v, t)] == 0
}

/// Whether the code `mem` is the pattern `bytes` (units `v`) as loaded with
/// relocation `reloc`: checked bytes equal, relocated words shifted by
/// `reloc`, unchecked bytes anything.
pub open spec fn code_matches(bytes: Seq<u8>, v: Seq<u32>, mem: Seq<u8>, reloc: u32) -> bool {
    &&& mem.len() == bytes.len()
    &&& forall|t: int|
        0 <= t < v.len() ==> {
            let o = unit_offset(v, t);
            &&& #[trigger] v[t] == 0 ==> mem[o] == bytes[o]
            &&& v[t] == 2 ==> sub32(le_u32(mem, o), reloc) == le_u32(bytes, o)
        }
}

proof fn lemma_unit_offset_push(v: Seq<u32>, x: u32, t: int)
    requires
        0 <= t <= v.len(),
    ensures
        unit_offset(v.push(x), t) == unit_offset(v, t),
    decreases t,
{
    if t > 0 {
        lemma_unit_offset_push(v, x, t - 1);
    }
}

proof fn lemma_unit_offset_mono(v: Seq<u32>, s: int, t: int)
    requires
        0 <= s <= t,
    ensures
        0 <= unit_offset(v, s) <= unit_offset(v, t),
    decreases t,
{
    if s < t {
        lemma_unit_offset_mono(v, s, t - 1);
    } else if s > 0 {
        lemma_unit_offset_mono(v, s - 1, s - 1);
    }
}

/// What the parser keeps true of the bytes and control values read so far.
spec fn parse_state_ok(bytes: Seq<u8>, controls: Seq<u32>, reloc: Option<nat>) -> bool {
    match reloc {
        None => pattern_shape(bytes, controls),
        Some(r) => {
            &&& controls.len() > 0
            &&& controls.last() == 2
            &&& r <= bytes.len()
            &&& pattern_shape(bytes.take(r as int), controls.drop_last())
        },
    }
}

proof fn lemma_shape_push(bytes: Seq<u8>, v: Seq<u32>, b: u8, c: u32)
    requires
        pattern_shape(bytes, v),
        c < 2,
        c == 1 ==> b == 0,
    ensures
        pattern_shape(bytes.push(b), v.push(c)),
{
    let v2 = v.push(c);
    let b2 = bytes.push(b);
    lemma_unit_offset_push(v, c, v.len() as int);
    assert(unit_offset(v2, v2.len() as int) == unit_offset(v2, v.len() as int) + 1);
    assert forall|t: int| 0 <= t < v2.len() && #[trigger] v2[t] == 1 implies b2[unit_offset(v2, t)] == 0 by {
        lemma_unit_offset_push(v, c, t);
        if t < v.len() {
            assert(v2[t] == v[t]);
            lemma_unit_offset_mono(v, t + 1, v.len() as int);
            lemma_unit_offset_mono(v, t, v.len() as int);
            assert(unit_offset(v, t + 1) == unit_offset(v, t) + 1);
            assert(unit_offset(v, t + 1) <= unit_offset(v, v.len() as int));
            assert(bytes.len() == unit_offset(v, v.len() as int));
            assert(unit_offset(v, t) < bytes.len());
            assert(b2[unit_offset(v, t)] == bytes[unit_offset(v, t)]);
        }
    }
    assert forall|t: int| 0 <= t < v2.len() implies #[trigger] v2[t] < 3 by {
        if t < v.len() {
            assert(v2[t] == v[t]);
        }
    }
}

proof fn lemma_shape_close(bytes: Seq<u8>, controls: Seq<u32>, r: nat)
    requires
        parse_state_ok(bytes, controls, Some(r)),
        r + 4 == bytes.len(),
    ensures
        pattern_shape(bytes, controls),
{
    let v = controls.drop_last();
    let pre = bytes.take(r as int);
    assert(controls =~= v.push(2));
    lemma_unit_offset_push(v, 2, v.len() as int);
    assert(unit_offset(controls, controls.len() as int) == unit_offset(controls, v.len() as int) + 4);
    assert forall|t: int| 0 <= t < controls.len() && #[trigger] controls[t] == 1 implies bytes[unit_offset(controls, t)] == 0 by {
        lemma_unit_offset_push(v, 2, t);
        assert(t < v.len());
        assert(v[t] == controls[t]);
        lemma_unit_offset_mono(v, t + 1, v.len() as int);
        lemma_unit_offset_mono(v, t, v.len() as int);
        assert(unit_offset(v, t + 1) == unit_offset(v, t) + 1);
        assert(pre[unit_offset(v, t)] == bytes[unit_offset(v, t)]);
    }
    assert forall|t: int| 0 <= t < controls.len() implies #[trigger] controls[t] < 3 by {
        if t < v.len() {
            assert(v[t] == controls[t]);
        }
    }
}

proof fn lemma_parse_from_shape(
    src: Seq<u8>,
    i: int,
    bytes: Seq<u8>,
    controls: Seq<u32>,
    reloc: Option<nat>,
)
    requires
        0 <= i,
        parse_state_ok(bytes, controls, reloc),
    ensures
        parse_from(src, i, bytes, controls, reloc) matches Ok((b, v)) ==> pattern_shape(b, v),
    decreases src.len() - i,
{
    if i >= src.len() {
        if let Some(r) = reloc {
            if r + 4 == bytes.len() {
                lemma_shape_close(bytes, controls, r);
            }
        }
    } else {
        let c = src[i];
        if is_space(c) {
            if reloc_closes(reloc, bytes) {
                if let Some(r) = reloc {
                    lemma_shape_close(bytes, controls, r);
                }
                lemma_parse_from_shape(src, i + 1, bytes, controls, None);
            }
        } else if is_hex(c) {
            if i + 1 < src.len() && is_hex(src[i + 1]) {
                let b = (hex_value(c) * 16 + hex_value(src[i + 1])) as u8;
                if reloc is None {
                    lemma_shape_push(bytes, controls, b, 0);
                    lemma_parse_from_shape(src, i + 2, bytes.push(b), controls.push(0), reloc);
                } else {
                    let r = reloc->0;
                    assert(bytes.push(b).take(r as int) =~= bytes.take(r as int));
                    lemma_parse_from_shape(src, i + 2, bytes.push(b), controls, reloc);
                }
            }
        } else if c == 0x78 {
            if reloc is None && i + 1 < src.len() && src[i + 1] == 0x78 {
                lemma_shape_push(bytes, controls, 0, 1);
                lemma_parse_from_shape(src, i + 2, bytes.push(0), controls.push(1), reloc);
            }
        } else if c == 0x24 {
            if reloc is None {
                let c2 = controls.push(2);
                assert(c2.drop_last() =~= controls);
                assert(bytes.take(bytes.len() as int) =~= bytes);
                lemma_parse_from_shape(src, i + 1, bytes, c2, Some(bytes.len()));
            }
        }
    }
}

/// Every pattern that compiles has the shape `pattern_shape` describes.
pub proof fn lemma_parsed_pattern_shape(src: Seq<u8>)
    ensures
        parse_pattern(src) matches Ok((b, v)) ==> pattern_shape(b, v),
{
    assert(unit_offset(Seq::<u32>::empty(), 0) == 0);
    lemma_parse_from_shape(src, 0, Seq::empty(), Seq::empty(), None);
}

proof fn lemma_walk_unfold(cs: Seq<u32>, mem: Seq<u8>, reloc: u32, t: int, p: int, h: u32)
    requires
        0 <= p <= mem.len(),
        control_at(cs, t) < 3,
    ensures
        walk(cs, mem, reloc, t, p, h) == (if control_at(cs, t) == 2 {
            if p + 4 > mem.len() {
                None
            } else {
                walk(cs, mem, reloc, t + 1, p + 4, hash_word(h, sub32(le_u32(mem, p), reloc)))
            }
        } else if p == mem.len() {
            Some(h)
        } else {
            walk(
                cs,
                mem,
                reloc,
                t + 1,
                p + 1,
                hash_step(
                    h,
                    if control_at(cs, t) == 1 {
                        0
                    } else {
                        mem[p] as u32
                    },
                ),
            )
        }),
{
    reveal(walk);
}

proof fn lemma_hash_fold_word(h: u32, bytes: Seq<u8>, o: int)
    requires
        0 <= o,
        o + 4 <= bytes.len(),
    ensures
        crate::pattern::hash_fold(h, bytes.skip(o)) == crate::pattern::hash_fold(
            hash_word(h, le_u32(bytes, o)),
            bytes.skip(o + 4),
        ),
{
    crate::code::lemma_le_roundtrip(bytes, o);
    let r0 = bytes.skip(o);
    let r1 = r0.drop_first();
    let r2 = r1.drop_first();
    let r3 = r2.drop_first();
    assert(r3.drop_first() =~= bytes.skip(o + 4));
    let x = le_u32(bytes, o);
    let h1 = hash_step(h, r0[0] as u32);
    let h2 = hash_step(h1, r1[0] as u32);
    let h3 = hash_step(h2, r2[0] as u32);
    let h4 = hash_step(h3, r3[0] as u32);
    assert(crate::pattern::hash_fold(h, r0) == crate::pattern::hash_fold(h1, r1));
    assert(crate::pattern::hash_fold(h1, r1) == crate::pattern::hash_fold(h2, r2));
    assert(crate::pattern::hash_fold(h2, r2) == crate::pattern::hash_fold(h3, r3));
    assert(crate::pattern::hash_fold(h3, r3) == crate::pattern::hash_fold(h4, r3.drop_first()));
    assert(r0[0] == bytes[o]);
    assert(r1[0] == bytes[o + 1]);
    assert(r2[0] == bytes[o + 2]);
    assert(r3[0] == bytes[o + 3]);
    assert(le_bytes(le_u32(bytes, o))[0] == bytes[o]);
    assert(le_bytes(le_u32(bytes, o))[1] == bytes[o + 1]);
    assert(le_bytes(le_u32(bytes, o))[2] == bytes[o + 2]);
    assert(le_bytes(le_u32(bytes, o))[3] == bytes[o + 3]);
}

proof fn lemma_walk_pattern(
    cs: Seq<u32>,
    v: Seq<u32>,
    bytes: Seq<u8>,
    mem: Seq<u8>,
    reloc: u32,
    t: int,
    h: u32,
)
    requires
        crate::control::decodes_to(cs, v),
        pattern_shape(bytes, v),
        mem.len() == bytes.len(),
        0 <= t <= v.len(),
    ensures
        walk(cs, mem, reloc, t, unit_offset(v, t), h) is Some,
        code_matches(bytes, v, mem, reloc) ==> walk(cs, mem, reloc, t, unit_offset(v, t), h)
            == Some(crate::pattern::hash_fold(h, bytes.skip(unit_offset(v, t)))),
    decreases v.len() - t,
{
    let o = unit_offset(v, t);
    crate::control::lemma_control_small(cs, t);
    assert(control_at(cs, t) == if t < v.len() {
        v[t]
    } else {
        0
    });
    lemma_unit_offset_mono(v, t, v.len() as int);
    if t == v.len() {
        lemma_walk_unfold(cs, mem, reloc, t, o, h);
        assert(bytes.skip(o) =~= Seq::<u8>::empty());
    } else {
        lemma_unit_offset_mono(v, t + 1, v.len() as int);
        let c = v[t];
        assert(c < 3);
        lemma_walk_unfold(cs, mem, reloc, t, o, h);
        if c == 2 {
            let x = sub32(le_u32(mem, o), reloc);
            lemma_walk_pattern(cs, v, bytes, mem, reloc, t + 1, hash_word(h, x));
            if code_matches(bytes, v, mem, reloc) {
                lemma_hash_fold_word(h, bytes, o);
            }
        } else {
            let x: u32 = if c == 1 {
                0
            } else {
                mem[o] as u32
            };
            lemma_walk_pattern(cs, v, bytes, mem, reloc, t + 1, hash_step(h, x));
            assert(bytes.skip(o).drop_first() =~= bytes.skip(o + 1));
        }
    }
}

/// Integrity law: the code hash of any code of a compiled pattern's length is
/// defined (reading it never fails), and code that matches the pattern, with
/// its relocated words shifted by `reloc`, hashes to the pattern's hash.
pub proof fn law_matching_code_has_pattern_hash(
    src: Seq<u8>,
    cs: Seq<u32>,
    mem: Seq<u8>,
    reloc: u32,
)
    requires
        parse_pattern(src) is Ok,
        crate::control::decodes_to(cs, parse_pattern(src)->Ok_0.1),
        mem.len() == parse_pattern(src)->Ok_0.0.len(),
    ensures
        code_hash(cs, mem, reloc) is Some,
        code_matches(parse_pattern(src)->Ok_0.0, parse_pattern(src)->Ok_0.1, mem, reloc)
            ==> code_hash(cs, mem, reloc) == Some(pattern_hash(parse_pattern(src)->Ok_0.0)),
{
    let (bytes, v) = parse_pattern(src)->Ok_0;
    lemma_parsed_pattern_shape(src);
    lemma_walk_pattern(cs, v, bytes, mem, reloc, 0, HASH_INIT);
    assert(bytes.skip(0) =~= bytes);
}


/// A patch built from a compiled pattern accepts exactly the code the
/// pattern records, once the relocation is undone: on code matching the
/// pattern, `has_expected` and `apply` may be called and report it as the
/// expected code.
pub proof fn law_patch_accepts_pattern_code(p: Patch, src: Seq<u8>, mem: Seq<u8>, reloc: isize)
    requires
        parse_pattern(src) is Ok,
        crate::control::decodes_to(p.stream(), parse_pattern(src)->Ok_0.1),
        p.code_len() == parse_pattern(src)->Ok_0.0.len(),
        p.expected_hash() == pattern_hash(parse_pattern(src)->Ok_0.0),
        mem.len() == p.code_len(),
        fits_i32(reloc as int),
        code_matches(parse_pattern(src)->Ok_0.0, parse_pattern(src)->Ok_0.1, mem, reloc_bits(reloc as int)),
    ensures
        code_hash(p.stream(), mem, reloc_bits(reloc as int)) is Some,
        expects(p, mem, reloc),
{
    law_matching_code_has_pattern_hash(src, p.stream(), mem, reloc_bits(reloc as int));
}
} // verus!
