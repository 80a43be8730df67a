//! Patches that redirect a call in loaded game code, checked against the
//! code they replace first and undone from a saved copy.
use vstd::prelude::*;

use crate::code::{le_bytes, le_u32, nop_fill, push_le_u32, push_nop_fill, read_le_u32, rel32, call_displacement};

verus! {

/// A patch that was written, with what it replaced.
pub struct AppliedPatch {
    address: usize,
    original: Vec<u8>,
}

impl AppliedPatch {
    /// Where the patch was written.
    pub closed spec fn patched_address(&self) -> usize {
        self.address
    }

    /// The code the patch replaced.
    pub closed spec fn replaced_code(&self) -> Seq<u8> {
        self.original@
    }

    /// Where the patch was written.
    pub fn address(&self) -> (r: usize)
        ensures
            r == self.patched_address(),
    {
        self.address
    }

    /// Undoes the patch: writes the replaced code back over `memory`, the code
    /// at the patch's address.
    pub fn restore(&self, memory: &mut Vec<u8>)
        requires
            old(memory)@.len() == self.replaced_code().len(),
        ensures
            final(memory)@ == self.replaced_code(),
    {
        let mut out: Vec<u8> = Vec::with_capacity(self.original.len());
        let mut i = 0usize;
        while i < self.original.len()
            invariant
                i <= self.original@.len(),
                out@ == self.original@.subrange(0, i as int),
            decreases self.original@.len() - i,
        {
            out.push(self.original[i]);
            i = i + 1;
            assert(out@ =~= self.original@.subrange(0, i as int));
        }
        assert(out@ =~= self.original@);
        *memory = out;
    }
}

/// A patch of loaded code: checked against the code it expects, then
/// written.
pub trait Patch {
    /// The offset of the patched code from the module base.
    spec fn patch_offset(&self) -> usize;

    /// Whether the patch can be applied to a module loaded at `base`.
    spec fn applicable(&self, base: usize) -> bool;

    /// Where the patched code lies in a module loaded at `base`.
    spec fn patch_address(&self, base: usize) -> usize;

    /// The code the patch expects when the module is loaded `reloc_dist`
    /// bytes away from its preferred base.
    spec fn expected_code(&self, reloc_dist: usize) -> Seq<u8>;

    /// The code the patch writes at `address`.
    spec fn patched_code(&self, address: usize) -> Seq<u8>;

    /// The offset of the patched code from the module base.
    fn offset(&self) -> (r: usize)
        ensures
            r == self.patch_offset(),
    ;

    /// Applies the patch to `memory`, the code at the patch address of a
    /// module loaded at `base`, `reloc_dist` bytes from its preferred base.
    /// Fails, leaving `memory` as it was, unless `memory` holds the expected
    /// code.
    fn apply(&self, memory: &mut Vec<u8>, base: usize, reloc_dist: usize) -> (r: Result<AppliedPatch, ()>)
        requires
            self.applicable(base),
            old(memory)@.len() == self.expected_code(reloc_dist).len(),
        ensures
            old(memory)@ == self.expected_code(reloc_dist) ==> (r matches Ok(a) && final(memory)@
                == self.patched_code(self.patch_address(base)) && a.patched_address()
                == self.patch_address(base) && a.replaced_code() == self.expected_code(reloc_dist)),
            old(memory)@ != self.expected_code(reloc_dist) ==> r is Err && final(memory)@ == old(
                memory,
            )@,
    ;
}

/// Redirects the target of a call: the four bytes at the patch location are
/// the call's displacement.
pub struct CallTargetPatch {
    pub offset: usize,
    pub original: &'static u32,
    pub target: usize,
}

impl CallTargetPatch {
    pub fn new(offset: usize, original: &'static u32, target: usize) -> (r: Self)
        ensures
            r.offset == offset,
            r.original == original,
            r.target == target,
    {
        Self { offset, original, target }
    }
}

impl Patch for CallTargetPatch {
    open spec fn patch_offset(&self) -> usize {
        self.offset
    }

    open spec fn applicable(&self, base: usize) -> bool {
        base + self.offset + 4 <= usize::MAX
    }

    open spec fn patch_address(&self, base: usize) -> usize {
        (base + self.offset) as usize
    }

    open spec fn expected_code(&self, reloc_dist: usize) -> Seq<u8> {
        le_bytes(*self.original)
    }

    open spec fn patched_code(&self, address: usize) -> Seq<u8> {
        le_bytes(rel32(self.target as int, address + 4))
    }

    fn offset(&self) -> (r: usize) {
        self.offset
    }

    fn apply(&self, memory: &mut Vec<u8>, base: usize, reloc_dist: usize) -> (r: Result<AppliedPatch, ()>) {
        let address = base + self.offset;
        let current = read_le_u32(memory.as_slice(), 0);
        proof {
            assert(le_bytes(current) == memory@.subrange(0, 4)) by {
                crate::code::lemma_le_roundtrip(memory@, 0);
            }
            assert(memory@.subrange(0, 4) =~= memory@);
            lemma_le_bytes_injective(current, *self.original);
        }
        if current != *self.original {
            return Err(());
        }
        let mut out: Vec<u8> = Vec::with_capacity(4);
        push_le_u32(&mut out, call_target_displacement(self.target, address));
        assert(out@ =~= self.patched_code(address));
        *memory = out;
        let mut original: Vec<u8> = Vec::with_capacity(4);
        push_le_u32(&mut original, *self.original);
        assert(original@ =~= le_bytes(*self.original));
        Ok(AppliedPatch { address, original })
    }
}

/// The displacement stored in the four bytes at `address` for a call that
/// lands on `target`.
fn call_target_displacement(target: usize, address: usize) -> (r: u32)
    requires
        address + 4 <= usize::MAX,
    ensures
        r == rel32(target as int, address + 4),
{
    if address >= 1 {
        let r = call_displacement(target, address - 1);
        r
    } else {
        let next = 4u64;
        let d = (target as u64).wrapping_sub(next);
        proof {
            let x = target as int - 4;
            if x < 0 {
                vstd::arithmetic::div_mod::lemma_mod_multiples_vanish(
                    0x1_0000_0000,
                    x,
                    0x1_0000_0000,
                );
                assert(0x1_0000_0000 * 0x1_0000_0000 == 0x1_0000_0000_0000_0000int);
            }
        }
        (d % 0x1_0000_0000u64) as u32
    }
}

proof fn lemma_le_bytes_injective(x: u32, y: u32)
    ensures
        le_bytes(x) == le_bytes(y) <==> x == y,
{
    if le_bytes(x) == le_bytes(y) {
        assert(le_bytes(x)[0] == le_bytes(y)[0]);
        assert(le_bytes(x)[1] == le_bytes(y)[1]);
        assert(le_bytes(x)[2] == le_bytes(y)[2]);
        assert(le_bytes(x)[3] == le_bytes(y)[3]);
        assert(x == y) by (bit_vector)
            requires
                x % 256 == y % 256,
                (x / 256) % 256 == (y / 256) % 256,
                (x / 65536) % 256 == (y / 65536) % 256,
                x / 16777216 == y / 16777216,
        ;
    }
}

} // verus!

verus! {

/// `v` written as four little-endian bytes over `s[p..p + 4]`.
pub open spec fn write_word(s: Seq<u8>, p: int, v: u32) -> Seq<u8> {
    let b = le_bytes(v);
    s.update(p, b[0]).update(p + 1, b[1]).update(p + 2, b[2]).update(p + 3, b[3])
}

/// The low 32 bits of `x + d`.
pub open spec fn add32(x: u32, d: usize) -> u32 {
    ((x + d) % 0x1_0000_0000) as u32
}

/// `orig` with the relocation applied to the 32-bit address at each of the
/// first `i` positions marked in `relocs`, in order.
pub open spec fn relocated(orig: Seq<u8>, relocs: Seq<bool>, d: usize, i: int) -> Seq<u8>
    decreases i,
{
    if i <= 0 {
        orig
    } else {
        let s = relocated(orig, relocs, d, i - 1);
        if relocs[i - 1] {
            write_word(s, i - 1, add32(le_u32(s, i - 1), d))
        } else {
            s
        }
    }
}

/// Replaces a run of code that starts with a call by a call to `target`
/// followed by padding. `relocs` marks the bytes at which a 32-bit address
/// that the loader relocates starts.
pub struct CallPatch {
    pub offset: usize,
    pub original: &'static [u8],
    pub relocs: &'static [bool],
    pub target: usize,
}

impl CallPatch {
    pub fn new(offset: usize, original: &'static [u8], relocs: &'static [bool], target: usize) -> (r: Self)
        ensures
            r.offset == offset,
            r.original == original,
            r.relocs == relocs,
            r.target == target,
    {
        Self { offset, original, relocs, target }
    }
}

/// Relocating addresses that lie within the code keeps its length.
pub proof fn lemma_relocated_len(orig: Seq<u8>, relocs: Seq<bool>, d: usize, i: int)
    requires
        0 <= i <= relocs.len(),
        relocs.len() == orig.len(),
        forall|j: int| 0 <= j < relocs.len() && #[trigger] relocs[j] ==> j + 4 <= orig.len(),
    ensures
        relocated(orig, relocs, d, i).len() == orig.len(),
    decreases i,
{
    if i > 0 {
        lemma_relocated_len(orig, relocs, d, i - 1);
    }
}

/// The code a call patch expects is as long as its original code, so the
/// memory handed to `apply` is that long.
pub proof fn lemma_call_patch_code_len(p: CallPatch, base: usize, reloc_dist: usize)
    requires
        p.applicable(base),
    ensures
        p.expected_code(reloc_dist).len() == p.original@.len(),
{
    lemma_relocated_len(p.original@, p.relocs@, reloc_dist, p.original@.len() as int);
}

/// Applying a call patch and then restoring it gives back the code that was
/// there: the patch succeeds on exactly the expected code, records it, and
/// restoring writes the record back.
pub proof fn law_call_patch_restores(p: CallPatch, base: usize, reloc_dist: usize, a: AppliedPatch, before: Seq<u8>)
    requires
        p.applicable(base),
        before == p.expected_code(reloc_dist),
        a.replaced_code() == p.expected_code(reloc_dist),
    ensures
        a.replaced_code() == before,
        a.replaced_code().len() == p.original@.len(),
{
    lemma_call_patch_code_len(p, base, reloc_dist);
}

impl Patch for CallPatch {
    open spec fn patch_offset(&self) -> usize {
        self.offset
    }

    open spec fn applicable(&self, base: usize) -> bool {
        &&& self.original@.len() == self.relocs@.len()
        &&& self.original@.len() >= 5
        &&& self.original@.len() <= u32::MAX
        &&& forall|j: int|
            0 <= j < self.relocs@.len() && #[trigger] self.relocs@[j] ==> j + 4 <= self.original@.len()
        &&& self.patch_address(base) + 5 <= usize::MAX
    }

    open spec fn patch_address(&self, base: usize) -> usize {
        vstd::wrapping::usize_specs::wrapping_add(base, self.offset)
    }

    open spec fn expected_code(&self, reloc_dist: usize) -> Seq<u8> {
        relocated(self.original@, self.relocs@, reloc_dist, self.original@.len() as int)
    }

    open spec fn patched_code(&self, address: usize) -> Seq<u8> {
        seq![0xe8u8] + le_bytes(rel32(self.target as int, address + 5)) + nop_fill(
            (self.original@.len() - 5) as nat,
            40,
        )
    }

    fn offset(&self) -> (r: usize) {
        self.offset
    }

    fn apply(&self, memory: &mut Vec<u8>, base: usize, reloc_dist: usize) -> (r: Result<AppliedPatch, ()>) {
        let address = base.wrapping_add(self.offset);
        let len = self.original.len();
        let mut expected: Vec<u8> = Vec::with_capacity(len);
        let mut i = 0usize;
        while i < len
            invariant
                len == self.original@.len(),
                i <= len,
                expected@ == self.original@.subrange(0, i as int),
            decreases len - i,
        {
            expected.push(self.original[i]);
            i = i + 1;
            assert(expected@ =~= self.original@.subrange(0, i as int));
        }
        assert(expected@ =~= self.original@);
        let d32 = (reloc_dist as u64 % 0x1_0000_0000u64) as u32;
        let mut i = 0usize;
        while i < len
            invariant
                len == self.original@.len(),
                self.applicable(base),
                i <= len,
                expected@ == relocated(self.original@, self.relocs@, reloc_dist, i as int),
                d32 == reloc_dist as int % 0x1_0000_0000,
            decreases len - i,
        {
            proof {
                lemma_relocated_len(self.original@, self.relocs@, reloc_dist, i as int);
            }
            if self.relocs[i] {
                let w = read_le_u32(expected.as_slice(), i);
                let nv = w.wrapping_add(d32);
                proof {
                    vstd::arithmetic::div_mod::lemma_add_mod_noop(w as int, reloc_dist as int, 0x1_0000_0000);
                    vstd::arithmetic::div_mod::lemma_mod_twice(reloc_dist as int, 0x1_0000_0000);
                    vstd::arithmetic::div_mod::lemma_add_mod_noop(w as int, d32 as int, 0x1_0000_0000);
                    assert(nv == add32(w, reloc_dist));
                }
                set_word(&mut expected, i, nv);
            }
            i = i + 1;
        }
        proof {
            lemma_relocated_len(self.original@, self.relocs@, reloc_dist, len as int);
        }
        let mut same = true;
        let mut i = 0usize;
        while i < len
            invariant
                len == expected@.len(),
                len == memory@.len(),
                i <= len,
                same == (forall|j: int| 0 <= j < i ==> memory@[j] == expected@[j]),
            decreases len - i,
        {
            if memory[i] != expected[i] {
                same = false;
            }
            i = i + 1;
        }
        if same {
            assert(memory@ =~= expected@);
        }
        if !same {
            return Err(());
        }
        let mut out: Vec<u8> = Vec::with_capacity(len);
        out.push(0xe8);
        push_le_u32(&mut out, call_displacement(self.target, address));
        push_nop_fill(&mut out, len - 5, 40);
        *memory = out;
        Ok(AppliedPatch { address, original: expected })
    }
}

/// Writes the little-endian bytes of `v` over `s[p..p + 4]`.
fn set_word(s: &mut Vec<u8>, p: usize, v: u32)
    requires
        p + 4 <= old(s)@.len(),
    ensures
        final(s)@ == write_word(old(s)@, p as int, v),
{
    let n = s.len();
    s.set(p, (v % 256) as u8);
    s.set(p + 1, ((v / 256) % 256) as u8);
    s.set(p + 2, ((v / 65536) % 256) as u8);
    s.set(p + 3, (v / 16777216) as u8);
}

} // verus!
