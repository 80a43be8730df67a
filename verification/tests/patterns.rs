use d2fps::bin_patch::{try_apply_patch_set, Patch};
use d2fps::control::{Uint2Collector, Uint2Iter};
use d2fps::pattern::{hash_bytes, parse_patch_source, PatternError};

fn leak(v: Vec<u32>) -> &'static [u32] {
    Box::leak(v.into_boxed_slice())
}

fn fnv(bytes: &[u8]) -> u32 {
    bytes.iter().fold(0x01000193u32, |h, x| (h ^ *x as u32).wrapping_mul(0x01000193))
}

#[test]
fn collector_round_trip() {
    let values: Vec<u8> = (0..40).map(|i| (i * 7 % 3) as u8).collect();
    let mut c = Uint2Collector::new();
    for &v in &values {
        c.push(v);
    }
    let words = c.into_iter();
    let mut it = Uint2Iter::new(&words);
    for &v in &values {
        assert_eq!(it.next().unwrap_or(0), v);
    }
}

#[test]
fn collector_drops_trailing_zero_words() {
    let mut c = Uint2Collector::new();
    c.push(1);
    for _ in 0..40 {
        c.push(0);
    }
    assert_eq!(c.into_iter(), vec![1]);
    let mut c = Uint2Collector::new();
    for _ in 0..20 {
        c.push(0);
    }
    assert_eq!(c.into_iter(), Vec::<u32>::new());
}

#[test]
fn iter_order_low_bits_first() {
    let words = [0b10_01u32, 2];
    let mut it = Uint2Iter::new(&words);
    assert_eq!(it.next(), Some(1));
    assert_eq!(it.next(), Some(2));
    for _ in 2..16 {
        assert_eq!(it.next(), Some(0));
    }
    assert_eq!(it.next(), Some(2));
    for _ in 1..16 {
        assert_eq!(it.next(), Some(0));
    }
    assert_eq!(it.next(), None);
}

#[test]
fn parse_plain_bytes() {
    let ps = parse_patch_source(b" ffd5\n 8bf0 ").ok().unwrap();
    assert_eq!(ps.len, 4);
    assert_eq!(ps.hash, fnv(&[0xff, 0xd5, 0x8b, 0xf0]));
    assert_eq!(ps.control_stream, Vec::<u32>::new());
}

#[test]
fn parse_mask_and_relocation() {
    let ps = parse_patch_source(b"e8 xx $01020304 90").ok().unwrap();
    assert_eq!(ps.len, 7);
    assert_eq!(ps.hash, fnv(&[0xe8, 0x00, 0x01, 0x02, 0x03, 0x04, 0x90]));
    // controls: 0, 1, 2, 0
    assert_eq!(ps.control_stream, vec![0b00_10_01_00]);
}

#[test]
fn parse_errors() {
    assert!(matches!(parse_patch_source(b"f"), Err(PatternError::IncompleteByte)));
    assert!(matches!(parse_patch_source(b"fg"), Err(PatternError::IncompleteByte)));
    assert!(matches!(parse_patch_source(b"x"), Err(PatternError::IncompleteMask)));
    assert!(matches!(parse_patch_source(b"$01xx"), Err(PatternError::MaskInRelocation)));
    assert!(matches!(parse_patch_source(b"$01$"), Err(PatternError::NestedRelocation)));
    assert!(matches!(parse_patch_source(b"$010203"), Err(PatternError::RelocationSize)));
    assert!(matches!(parse_patch_source(b"$0102030405 "), Err(PatternError::RelocationSize)));
    assert!(matches!(parse_patch_source(b"zz"), Err(PatternError::UnexpectedChar)));
}

#[test]
fn hash_matches_fold() {
    assert_eq!(hash_bytes(&[]), 0x01000193);
    assert_eq!(hash_bytes(&[1, 2, 3]), fnv(&[1, 2, 3]));
}

#[test]
fn has_expected_accepts_relocated_code() {
    let ps = parse_patch_source(b"e8 xx $10000000 90").ok().unwrap();
    let p = Patch::nop(0, (ps.len, ps.hash, leak(ps.control_stream)));
    // Loaded 0x20 bytes above the preferred base; masked byte differs.
    let mem = [0xe8, 0x55, 0x30, 0x00, 0x00, 0x00, 0x90];
    assert!(p.has_expected(&mem, 0x20));
    assert!(!p.has_expected(&mem, 0));
    let wrong = [0xe9, 0x55, 0x30, 0x00, 0x00, 0x00, 0x90];
    assert!(!p.has_expected(&wrong, 0x20));
    assert!(!p.has_expected(&mem, 0x1_0000_0000));
    let neg = [0xe8, 0x55, 0x00, 0x00, 0x00, 0x00, 0x90];
    assert!(p.has_expected(&neg, -0x10));
}

#[test]
fn apply_call_writes_call_and_nops() {
    let mut mem = vec![0u8; 8];
    let p = Patch::call(0x10, (8, fnv(&mem), leak(vec![])), 0x1000);
    assert_eq!(p.apply(&mut mem, 0x400, 0), Ok(()));
    let rel = (0x1000u32).wrapping_sub(0x405).to_le_bytes();
    assert_eq!(mem, vec![0xe8, rel[0], rel[1], rel[2], rel[3], 0x0f, 0x1f, 0x00]);
}

#[test]
fn apply_raw_and_fill() {
    static DATA: [u8; 2] = [0x33, 0xc0];
    let mut mem = vec![0u8; 20];
    let p = Patch::raw(0, (20, fnv(&mem), leak(vec![])), &DATA);
    assert_eq!(p.apply(&mut mem, 0, 0), Ok(()));
    let mut expect = vec![0x33, 0xc0];
    expect.extend([0x0f, 0x1f, 0x84, 0, 0, 0, 0, 0, 0x0f, 0x1f, 0x84, 0, 0, 0, 0, 0]);
    expect.extend([0x66, 0x90]);
    assert_eq!(mem, expect);
}

#[test]
fn apply_nop_jumps() {
    let mut mem = vec![0u8; 40];
    let p = Patch::nop(0, (40, fnv(&mem), leak(vec![])));
    assert_eq!(p.apply(&mut mem, 0, 0), Ok(()));
    assert_eq!(mem[0], 0xeb);
    assert_eq!(mem[1], 38);
    assert!(mem[2..].iter().all(|&b| b == 0x90));
    let mut mem = vec![0u8; 200];
    let p = Patch::nop(0, (200, fnv(&mem), leak(vec![])));
    assert_eq!(p.apply(&mut mem, 0, 0), Ok(()));
    assert_eq!(&mem[..5], &[0xe9, 195, 0, 0, 0]);
    assert!(mem[5..].iter().all(|&b| b == 0x90));
}

#[test]
fn apply_refuses_unexpected_code() {
    let mut mem = vec![0x8bu8, 0xf0, 0x90, 0x90, 0x90];
    let p = Patch::call(0, (5, fnv(&[0x8b, 0xf0, 0x90, 0x90, 0x91]), leak(vec![])), 0x1000);
    assert_eq!(p.apply(&mut mem, 0, 0), Err(()));
    assert_eq!(mem, vec![0x8b, 0xf0, 0x90, 0x90, 0x90]);
    // A distance that does not fit an i32 never matches.
    let q = Patch::call(0, (5, fnv(&mem), leak(vec![])), 0x1000);
    assert_eq!(q.apply(&mut mem, 0, 0x1_0000_0000), Err(()));
    assert_eq!(q.apply(&mut mem, 0, 0), Ok(()));
    assert_eq!(mem[0], 0xe8);
}

#[test]
fn pattern_coverage() {
    // A relocated word needs four bytes; reading stops at a plain unit.
    let p = Patch::nop(0, (5, 0, leak(vec![0b10])));
    assert!(p.covers_code());
    let short = Patch::nop(0, (3, 0, leak(vec![0b10])));
    assert!(!short.covers_code());
    // After the last byte the next unit must not be a relocation.
    let trailing = Patch::nop(0, (1, 0, leak(vec![0b10_00])));
    assert!(!trailing.covers_code());
    let parsed = parse_patch_source(b"8b0d $10203040 xx").ok().unwrap();
    let q = Patch::nop(0, (parsed.len, parsed.hash, leak(parsed.control_stream)));
    assert!(q.covers_code());
}

#[test]
fn patch_sets_apply_all_or_nothing() {
    let m0 = vec![0x11u8; 6];
    let m1 = vec![0x22u8; 6];
    let good = vec![
        Patch::nop(0, (6, fnv(&m0), leak(vec![]))),
        Patch::nop(0, (6, fnv(&m1), leak(vec![]))),
    ];
    let mut mems = vec![m0.clone(), m1.clone()];
    assert_eq!(try_apply_patch_set(&good, &mut mems, &vec![0, 0], &vec![0, 0], true), Ok(()));
    assert_eq!(mems[0], vec![0x66, 0x0f, 0x1f, 0x44, 0x00, 0x00]);
    assert_eq!(mems[1], vec![0x66, 0x0f, 0x1f, 0x44, 0x00, 0x00]);
    let bad = vec![
        Patch::nop(0, (6, fnv(&m0), leak(vec![]))),
        Patch::nop(0, (6, 0, leak(vec![]))),
    ];
    let mut mems = vec![m0.clone(), m1.clone()];
    assert_eq!(try_apply_patch_set(&bad, &mut mems, &vec![0, 0], &vec![0, 0], true), Err(()));
    assert_eq!(mems, vec![m0.clone(), m1.clone()]);
    // Without the check, each patch still applies only to its expected code.
    assert_eq!(try_apply_patch_set(&bad, &mut mems, &vec![0, 0], &vec![0, 0], false), Ok(()));
    assert_eq!(mems[0], vec![0x66, 0x0f, 0x1f, 0x44, 0x00, 0x00]);
    assert_eq!(mems[1], m1);
}
