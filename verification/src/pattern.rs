//! The text form of a code pattern: pairs of hex digits for bytes, `xx` for a
//! byte whose value is not checked, and `$` before the four bytes of an
//! address that the loader relocates. Whitespace separates groups and ends a
//! relocation.
use vstd::prelude::*;

use crate::control::{Uint2Collector, decodes_to};

verus! {

/// Start value of the pattern hash.
pub const HASH_INIT: u32 = 0x0100_0193;

/// One step of the pattern hash: xor in the byte, then multiply, wrapping.
pub open spec fn hash_step(h: u32, x: u32) -> u32 {
    ((h ^ x) as nat * 0x0100_0193nat % 0x1_0000_0000nat) as u32
}

/// The pattern hash of `s` continued from `h`.
pub open spec fn hash_fold(h: u32, s: Seq<u8>) -> u32
    decreases s.len(),
{
    if s.len() == 0 {
        h
    } else {
        hash_fold(hash_step(h, s[0] as u32), s.drop_first())
    }
}

/// The pattern hash of `s`.
pub open spec fn pattern_hash(s: Seq<u8>) -> u32 {
    hash_fold(HASH_INIT, s)
}

/// Why a pattern text is rejected.
#[derive(Debug, Clone, Copy, PartialEq, Eq, Structural)]
pub enum PatternError {
    /// A hex digit not followed by a second one.
    IncompleteByte,
    /// An `x` not followed by a second `x`.
    IncompleteMask,
    /// An unchecked byte inside a relocation.
    MaskInRelocation,
    /// A `$` inside a relocation.
    NestedRelocation,
    /// A relocation that does not hold exactly four bytes.
    RelocationSize,
    /// Any other character.
    UnexpectedChar,
}

/// What a pattern compiles to: its length in bytes (truncated to 16 bits),
/// the hash of its bytes, and its packed control stream.
pub struct PatchSource {
    pub len: u16,
    pub hash: u32,
    pub control_stream: Vec<u32>,
}

pub open spec fn is_space(c: u8) -> bool {
    c == 0x20 || c == 0x09 || c == 0x0a || c == 0x0d
}

pub open spec fn is_hex(c: u8) -> bool {
    (0x30 <= c <= 0x39) || (0x61 <= c <= 0x66) || (0x41 <= c <= 0x46)
}

pub open spec fn hex_value(c: u8) -> u8 {
    if 0x30 <= c <= 0x39 {
        (c - 0x30) as u8
    } else if 0x61 <= c <= 0x66 {
        (c - 0x61 + 10) as u8
    } else {
        (c - 0x41 + 10) as u8
    }
}

/// Whether an open relocation (if any) may be closed with `bytes` read.
pub open spec fn reloc_closes(reloc: Option<nat>, bytes: Seq<u8>) -> bool {
    match reloc {
        Some(r) => r + 4 == bytes.len(),
        None => true,
    }
}

/// Reads `src` from position `i` on, given the bytes and control values read
/// so far and the start of the open relocation, if any. Gives the bytes and
/// control values of the whole pattern.
pub open spec fn parse_from(
    src: Seq<u8>,
    i: int,
    bytes: Seq<u8>,
    controls: Seq<u32>,
    reloc: Option<nat>,
) -> Result<(Seq<u8>, Seq<u32>), PatternError>
    decreases src.len() - i,
{
    if i < 0 || i >= src.len() {
        if reloc_closes(reloc, bytes) {
            Ok((bytes, controls))
        } else {
            Err(PatternError::RelocationSize)
        }
    } else {
        let c = src[i];
        if is_space(c) {
            if reloc_closes(reloc, bytes) {
                parse_from(src, i + 1, bytes, controls, None)
            } else {
                Err(PatternError::RelocationSize)
            }
        } else if is_hex(c) {
            if i + 1 < src.len() && is_hex(src[i + 1]) {
                let b = (hex_value(c) * 16 + hex_value(src[i + 1])) as u8;
                let controls2 = if reloc is None {
                    controls.push(0)
                } else {
                    controls
                };
                parse_from(src, i + 2, bytes.push(b), controls2, reloc)
            } else {
                Err(PatternError::IncompleteByte)
            }
        } else if c == 0x78 {
            if reloc is Some {
                Err(PatternError::MaskInRelocation)
            } else if i + 1 < src.len() && src[i + 1] == 0x78 {
                parse_from(src, i + 2, bytes.push(0), controls.push(1), reloc)
            } else {
                Err(PatternError::IncompleteMask)
            }
        } else if c == 0x24 {
            if reloc is Some {
                Err(PatternError::NestedRelocation)
            } else {
                parse_from(src, i + 1, bytes, controls.push(2), Some(bytes.len()))
            }
        } else {
            Err(PatternError::UnexpectedChar)
        }
    }
}

/// The bytes and control values of the pattern text `src`.
pub open spec fn parse_pattern(src: Seq<u8>) -> Result<(Seq<u8>, Seq<u32>), PatternError> {
    parse_from(src, 0, Seq::empty(), Seq::empty(), None)
}

fn is_space_byte(c: u8) -> (r: bool)
    ensures
        r == is_space(c),
{
    c == 0x20 || c == 0x09 || c == 0x0a || c == 0x0d
}

fn is_hex_byte(c: u8) -> (r: bool)
    ensures
        r == is_hex(c),
{
    (0x30 <= c && c <= 0x39) || (0x61 <= c && c <= 0x66) || (0x41 <= c && c <= 0x46)
}

fn hex_byte_value(c: u8) -> (r: u8)
    requires
        is_hex(c),
    ensures
        r == hex_value(c),
        r < 16,
{
    if 0x30 <= c && c <= 0x39 {
        c - 0x30
    } else if 0x61 <= c && c <= 0x66 {
        c - 0x61 + 10
    } else {
        c - 0x41 + 10
    }
}

/// Hashes `bytes` with the pattern hash.
pub fn hash_bytes(bytes: &[u8]) -> (r: u32)
    ensures
        r == pattern_hash(bytes@),
{
    let mut h = HASH_INIT;
    let mut i = 0usize;
    assert(bytes@.skip(0) =~= bytes@);
    while i < bytes.len()
        invariant
            i <= bytes@.len(),
            hash_fold(h, bytes@.skip(i as int)) == pattern_hash(bytes@),
        decreases bytes@.len() - i,
    {
        proof {
            assert(bytes@.skip(i as int).drop_first() =~= bytes@.skip(i + 1));
        }
        h = (h ^ (bytes[i] as u32)).wrapping_mul(0x0100_0193u32);
        i = i + 1;
    }
    proof {
        assert(bytes@.skip(i as int) =~= Seq::<u8>::empty());
    }
    h
}

/// Compiles the pattern text `src` (the contents of the string literal).
pub fn parse_patch_source(src: &[u8]) -> (r: Result<PatchSource, PatternError>)
    ensures
        match parse_pattern(src@) {
            Ok((bytes, controls)) => r matches Ok(ps) && ps.len == bytes.len() as u16 && ps.hash
                == pattern_hash(bytes) && decodes_to(ps.control_stream@, controls) && (
            ps.control_stream@.len() == 0 || ps.control_stream@.last() != 0),
            Err(e) => r == Err::<PatchSource, PatternError>(e),
        },
{
    let mut bytes: Vec<u8> = Vec::with_capacity(256);
    let mut controls = Uint2Collector::new();
    let mut reloc: Option<usize> = None;
    let mut i = 0usize;
    while i < src.len()
        invariant
            i <= src@.len(),
            controls.wf(),
            parse_pattern(src@) == parse_from(
                src@,
                i as int,
                bytes@,
                controls@,
                match reloc {
                    Some(r) => Some(r as nat),
                    None => None,
                },
            ),
            reloc matches Some(r) ==> r <= bytes@.len(),
        decreases src@.len() - i,
    {
        let c = src[i];
        if is_space_byte(c) {
            if let Some(r) = reloc {
                if bytes.len() < 4 || r != bytes.len() - 4 {
                    return Err(PatternError::RelocationSize);
                }
            }
            reloc = None;
            i = i + 1;
        } else if is_hex_byte(c) {
            if i + 1 < src.len() && is_hex_byte(src[i + 1]) {
                if reloc.is_none() {
                    controls.push(0);
                }
                let b = hex_byte_value(c) * 16 + hex_byte_value(src[i + 1]);
                bytes.push(b);
                i = i + 2;
            } else {
                return Err(PatternError::IncompleteByte);
            }
        } else if c == 0x78 {
            if reloc.is_some() {
                return Err(PatternError::MaskInRelocation);
            }
            if i + 1 < src.len() && src[i + 1] == 0x78 {
                controls.push(1);
                bytes.push(0);
                i = i + 2;
            } else {
                return Err(PatternError::IncompleteMask);
            }
        } else if c == 0x24 {
            if reloc.is_some() {
                return Err(PatternError::NestedRelocation);
            }
            controls.push(2);
            reloc = Some(bytes.len());
            i = i + 1;
        } else {
            return Err(PatternError::UnexpectedChar);
        }
    }
    if let Some(r) = reloc {
        if bytes.len() < 4 || r != bytes.len() - 4 {
            return Err(PatternError::RelocationSize);
        }
    }
    let hash = hash_bytes(bytes.as_slice());
    let len = bytes.len() as u16;
    Ok(PatchSource { len, hash, control_stream: controls.into_iter() })
}

} // verus!
