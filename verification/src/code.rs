//! x86 code fragments written by the patches: little-endian words, relative
//! call targets and padding that does nothing.
use vstd::prelude::*;

verus! {

/// The four little-endian bytes of `v`.
pub open spec fn le_bytes(v: u32) -> Seq<u8> {
    seq![
        (v % 256) as u8,
        ((v / 256) % 256) as u8,
        ((v / 65536) % 256) as u8,
        (v / 16777216) as u8,
    ]
}

/// The little-endian word stored at `s[p..p + 4]`.
pub open spec fn le_u32(s: Seq<u8>, p: int) -> u32 {
    (s[p] + s[p + 1] * 256 + s[p + 2] * 65536 + s[p + 3] * 16777216) as u32
}

/// The displacement of a relative call or jump whose instruction ends at
/// `next` and which lands on `target`, as the low 32 bits of the difference.
pub open spec fn rel32(target: int, next: int) -> u32 {
    ((target - next) % 0x1_0000_0000) as u32
}

/// The eight-byte NOP `nop dword ptr [eax + eax + 0]`.
pub open spec fn nop8() -> Seq<u8> {
    seq![0x0fu8, 0x1f, 0x84, 0x00, 0x00, 0x00, 0x00, 0x00]
}

/// The recommended NOP of each length below eight.
pub open spec fn nop_by_size(n: nat) -> Seq<u8> {
    if n == 0 {
        seq![]
    } else if n == 1 {
        seq![0x90u8]
    } else if n == 2 {
        seq![0x66u8, 0x90]
    } else if n == 3 {
        seq![0x0fu8, 0x1f, 0x00]
    } else if n == 4 {
        seq![0x0fu8, 0x1f, 0x40, 0x00]
    } else if n == 5 {
        seq![0x0fu8, 0x1f, 0x44, 0x00, 0x00]
    } else if n == 6 {
        seq![0x66u8, 0x0f, 0x1f, 0x44, 0x00, 0x00]
    } else {
        seq![0x0fu8, 0x1f, 0x80, 0x00, 0x00, 0x00, 0x00]
    }
}

/// `n` copies of `b`.
pub open spec fn repeat(b: u8, n: nat) -> Seq<u8> {
    Seq::new(n, |i: int| b)
}

/// `k` eight-byte NOPs.
pub open spec fn nop8s(k: nat) -> Seq<u8> {
    Seq::new(8 * k, |i: int| nop8()[i % 8])
}

/// `n` bytes of padding that do nothing. Longer than 129 bytes: a near jump
/// over single-byte NOPs; longer than `short_limit`: a short jump over
/// single-byte NOPs; otherwise eight-byte NOPs followed by one shorter NOP.
pub open spec fn nop_fill(n: nat, short_limit: nat) -> Seq<u8> {
    if n > 129 {
        seq![0xe9u8] + le_bytes((n - 5) as u32) + repeat(0x90, (n - 5) as nat)
    } else if n > short_limit {
        seq![0xebu8, (n - 2) as u8] + repeat(0x90, (n - 2) as nat)
    } else {
        nop8s(n / 8) + nop_by_size(n % 8)
    }
}

/// Appends the little-endian bytes of `v` to `out`.
pub fn push_le_u32(out: &mut Vec<u8>, v: u32)
    ensures
        final(out)@ == old(out)@ + le_bytes(v),
{
    out.push((v % 256) as u8);
    out.push(((v / 256) % 256) as u8);
    out.push(((v / 65536) % 256) as u8);
    out.push((v / 16777216) as u8);
    assert(final(out)@ =~= old(out)@ + le_bytes(v));
}

/// Reads the little-endian word at `s[p..p + 4]`.
pub fn read_le_u32(s: &[u8], p: usize) -> (r: u32)
    requires
        p + 4 <= s@.len(),
    ensures
        r == le_u32(s@, p as int),
{
    (s[p] as u32) + (s[p + 1] as u32) * 256 + (s[p + 2] as u32) * 65536 + (s[p + 3] as u32)
        * 16777216
}

/// The displacement from the end of a five-byte call at `address` to
/// `target`.
pub fn call_displacement(target: usize, address: usize) -> (r: u32)
    requires
        address + 5 <= usize::MAX,
    ensures
        r == rel32(target as int, address + 5),
{
    let next = (address + 5) as u64;
    let d = (target as u64).wrapping_sub(next);
    proof {
        let x = target as int - next as int;
        if x < 0 {
            assert(d == x + 0x1_0000_0000_0000_0000);
            vstd::arithmetic::div_mod::lemma_mod_multiples_vanish(
                0x1_0000_0000,
                x,
                0x1_0000_0000,
            );
            assert(0x1_0000_0000 * 0x1_0000_0000 == 0x1_0000_0000_0000_0000int);
        }
    }
    (d % 0x1_0000_0000u64) as u32
}

/// Appends `n` bytes of padding, as `nop_fill` describes.
pub fn push_nop_fill(out: &mut Vec<u8>, n: usize, short_limit: usize)
    requires
        n <= u32::MAX,
        2 <= short_limit,
    ensures
        final(out)@ == old(out)@ + nop_fill(n as nat, short_limit as nat),
{
    let ghost start = out@;
    if n > 129 {
        out.push(0xe9);
        push_le_u32(out, (n - 5) as u32);
        let mut i = 5usize;
        while i < n
            invariant
                5 <= i <= n,
                out@ == start + seq![0xe9u8] + le_bytes((n - 5) as u32) + repeat(
                    0x90,
                    (i - 5) as nat,
                ),
            decreases n - i,
        {
            out.push(0x90);
            i = i + 1;
            assert(out@ =~= start + seq![0xe9u8] + le_bytes((n - 5) as u32) + repeat(
                0x90,
                (i - 5) as nat,
            ));
        }
        assert(out@ =~= start + nop_fill(n as nat, short_limit as nat));
    } else if n > short_limit {
        out.push(0xeb);
        out.push((n - 2) as u8);
        let mut i = 2usize;
        while i < n
            invariant
                2 <= i <= n,
                n <= 129,
                out@ == start + seq![0xebu8, (n - 2) as u8] + repeat(0x90, (i - 2) as nat),
            decreases n - i,
        {
            out.push(0x90);
            i = i + 1;
            assert(out@ =~= start + seq![0xebu8, (n - 2) as u8] + repeat(0x90, (i - 2) as nat));
        }
        assert(out@ =~= start + nop_fill(n as nat, short_limit as nat));
    } else {
        let mut k = 0usize;
        while k < n / 8
            invariant
                k <= n / 8,
                out@ == start + nop8s(k as nat),
            decreases n / 8 - k,
        {
            out.push(0x0f);
            out.push(0x1f);
            out.push(0x84);
            out.push(0x00);
            out.push(0x00);
            out.push(0x00);
            out.push(0x00);
            out.push(0x00);
            k = k + 1;
            assert forall|i: int| 0 <= i < 8 * k implies #[trigger] out@[start.len() + i]
                == nop8()[i % 8] by {
                if i < 8 * (k - 1) {
                } else {
                    assert(i % 8 == i - 8 * (k - 1));
                }
            }
            assert(out@ =~= start + nop8s(k as nat));
        }
        let m = n % 8;
        if m == 1 {
            out.push(0x90);
        } else if m == 2 {
            out.push(0x66);
            out.push(0x90);
        } else if m == 3 {
            out.push(0x0f);
            out.push(0x1f);
            out.push(0x00);
        } else if m == 4 {
            out.push(0x0f);
            out.push(0x1f);
            out.push(0x40);
            out.push(0x00);
        } else if m == 5 {
            out.push(0x0f);
            out.push(0x1f);
            out.push(0x44);
            out.push(0x00);
            out.push(0x00);
        } else if m == 6 {
            out.push(0x66);
            out.push(0x0f);
            out.push(0x1f);
            out.push(0x44);
            out.push(0x00);
            out.push(0x00);
        } else if m == 7 {
            out.push(0x0f);
            out.push(0x1f);
            out.push(0x80);
            out.push(0x00);
            out.push(0x00);
            out.push(0x00);
            out.push(0x00);
        }
        assert(out@ =~= start + nop_fill(n as nat, short_limit as nat));
    }
}

/// Every padding has the length asked for.
pub proof fn lemma_nop_fill_len(n: nat, short_limit: nat)
    requires
        n <= u32::MAX,
        2 <= short_limit,
    ensures
        nop_fill(n, short_limit).len() == n,
{
    if n <= 129 && n <= short_limit {
        assert(8 * (n / 8) + n % 8 == n) by (nonlinear_arith);
        let m = n % 8;
        assert(nop_by_size(m).len() == m);
    }
}

/// Reading a word and writing it back gives the same four bytes.
pub proof fn lemma_le_roundtrip(s: Seq<u8>, p: int)
    requires
        0 <= p,
        p + 4 <= s.len(),
    ensures
        le_bytes(le_u32(s, p)) == s.subrange(p, p + 4),
{
    let b0 = s[p] as u32;
    let b1 = s[p + 1] as u32;
    let b2 = s[p + 2] as u32;
    let b3 = s[p + 3] as u32;
    let x = le_u32(s, p);
    assert(x == b0 + b1 * 256 + b2 * 65536 + b3 * 16777216);
    assert(x % 256 == b0 && (x / 256) % 256 == b1 && (x / 65536) % 256 == b2 && x / 16777216
        == b3) by (bit_vector)
        requires
            b0 < 256,
            b1 < 256,
            b2 < 256,
            b3 < 256,
            x == b0 + b1 * 256 + b2 * 65536 + b3 * 16777216,
    ;
    assert(le_bytes(x) =~= s.subrange(p, p + 4));
}


/// The length of the instruction at `s[p..]` when it is an x86 instruction
/// that does nothing: `90`, `66 90`, or `0F 1F /0` (`nop r/m32`, with an
/// optional `66` operand-size prefix) followed by its ModRM byte and, in
/// 32-bit addressing, its SIB byte and displacement. Zero for any other
/// instruction.
pub open spec fn nop_len_at(s: Seq<u8>, p: int) -> int {
    let pre: int = if 0 <= p < s.len() && s[p] == 0x66 { 1 } else { 0 };
    let q = p + pre;
    if 0 <= q < s.len() && s[q] == 0x90 {
        pre + 1
    } else if 0 <= q && q + 2 < s.len() && s[q] == 0x0f && s[q + 1] == 0x1f && (s[q + 2] / 8) % 8
        == 0 {
        let modrm = s[q + 2];
        let md = modrm / 64;
        let rm = modrm % 8;
        let has_sib = md != 3 && rm == 4;
        let sib_len: int = if has_sib { 1 } else { 0 };
        let no_base = has_sib && md == 0 && q + 3 < s.len() && s[q + 3] % 8 == 5;
        let disp: int = if md == 1 {
            1
        } else if md == 2 {
            4
        } else if md == 0 && (rm == 5 || no_base) {
            4
        } else {
            0
        };
        pre + 3 + sib_len + disp
    } else {
        0
    }
}

/// The number of instructions `s` decodes into when it is, from its first
/// byte to its last, a run of whole instructions that do nothing; `None`
/// when some part of it is not such an instruction or one runs past its end.
pub open spec fn nop_count(s: Seq<u8>) -> Option<nat>
    decreases s.len(),
{
    if s.len() == 0 {
        Some(0)
    } else {
        let l = nop_len_at(s, 0);
        if 0 < l <= s.len() {
            match nop_count(s.skip(l)) {
                Some(k) => Some(k + 1),
                None => None,
            }
        } else {
            None
        }
    }
}

/// The offset, from the start of `s`, at which a short (`EB rel8`) or near
/// (`E9 rel32`) jump at the start of `s` lands; `None` when `s` does not
/// start with one.
pub open spec fn jump_landing(s: Seq<u8>) -> Option<int> {
    if s.len() >= 2 && s[0] == 0xeb {
        Some(2 + (if s[1] < 128 { s[1] as int } else { s[1] - 256 }))
    } else if s.len() >= 5 && s[0] == 0xe9 {
        let r = le_u32(s, 1);
        Some(5 + (if r < 0x8000_0000 { r as int } else { r - 0x1_0000_0000 }))
    } else {
        None
    }
}

proof fn lemma_le_u32_of_bytes(v: u32)
    ensures
        le_u32(le_bytes(v), 0) == v,
{
    let b0 = v % 256;
    let b1 = (v / 256) % 256;
    let b2 = (v / 65536) % 256;
    let b3 = v / 16777216;
    assert(b0 + b1 * 256 + b2 * 65536 + b3 * 16777216 == v) by (bit_vector)
        requires
            b0 == v % 256,
            b1 == (v / 256) % 256,
            b2 == (v / 65536) % 256,
            b3 == v / 16777216,
    ;
}

proof fn lemma_nop_count_short(m: nat)
    requires
        m < 8,
    ensures
        nop_count(nop_by_size(m)) == (if m == 0 { Some(0nat) } else { Some(1nat) }),
{
    let s = nop_by_size(m);
    if m > 0 {
        assert(nop_len_at(s, 0) == m);
        assert(s.skip(m as int) =~= Seq::<u8>::empty());
        assert(nop_count(s.skip(m as int)) == Some(0nat));
    }
}

proof fn lemma_nop_count_long(k: nat, rest: Seq<u8>)
    ensures
        nop_count(nop8s(k) + rest) == match nop_count(rest) {
            Some(c) => Some(c + k),
            None => None::<nat>,
        },
    decreases k,
{
    if k > 0 {
        let s = nop8s(k) + rest;
        assert(s[0] == 0x0f && s[1] == 0x1f && s[2] == 0x84 && s[3] == 0x00);
        assert(nop_len_at(s, 0) == 8);
        assert(s.skip(8) =~= nop8s((k - 1) as nat) + rest) by {
            assert forall|i: int| 0 <= i < 8 * (k - 1) implies #[trigger] nop8s(k)[i + 8]
                == nop8s((k - 1) as nat)[i] by {
                assert((i + 8) % 8 == i % 8);
            }
        }
        lemma_nop_count_long((k - 1) as nat, rest);
    } else {
        assert(nop8s(k) + rest =~= rest);
    }
}

/// Padding of up to `short_limit` bytes (and at most 129) is a run of
/// instructions that do nothing and that ends exactly at its end: it
/// decodes, byte for byte, into whole NOPs whose lengths sum to its length,
/// using the fewest that eight-byte NOPs allow (one per eight bytes, rounded
/// up). Longer padding starts with a jump that lands exactly at its end.
pub proof fn law_nop_fill_does_nothing(n: nat, short_limit: nat)
    requires
        n < 0x8000_0000,
        2 <= short_limit,
    ensures
        nop_fill(n, short_limit).len() == n,
        n <= short_limit && n <= 129 ==> nop_count(nop_fill(n, short_limit)) == Some(
            ((n + 7) / 8) as nat,
        ),
        n > short_limit || n > 129 ==> jump_landing(nop_fill(n, short_limit)) == Some(n as int),
{
    lemma_nop_fill_len(n, short_limit);
    let s = nop_fill(n, short_limit);
    if n <= short_limit && n <= 129 {
        let k = n / 8;
        let m = n % 8;
        lemma_nop_count_short(m);
        lemma_nop_count_long(k, nop_by_size(m));
    } else if n > 129 {
        let v = (n - 5) as u32;
        lemma_le_u32_of_bytes(v);
        assert(s.subrange(1, 5) =~= le_bytes(v));
        assert(le_u32(s, 1) == le_u32(le_bytes(v), 0));
    } else {
        assert(s[1] == (n - 2) as u8);
    }
}

} // verus!
