use d2fps::features::{AtomicFeatures, Features, ALL_BITS};
use d2fps::motion::{keep_seen, mark_teleport, observed, Position};
use d2fps::patch::{CallPatch, CallTargetPatch, Patch};
use d2fps::tracker::{FixedI16, FixedU16, LinearPos};
use d2fps::util::{hash_file_contents, FileVersion};
use d2fps::version::{from_game_file_version, identify_game, needs_exe_hash, HooksId};
use d2fps::window::WindowHook;

fn at(x: u32, y: u32) -> LinearPos<FixedU16> {
    LinearPos::new(FixedU16::from_repr(x), FixedU16::from_repr(y))
}

static TARGET_ORIGINAL: u32 = 0x1122_3344;
static CALL_CODE: [u8; 8] = [0x8b, 0x0d, 0x10, 0x20, 0x30, 0x40, 0x90, 0x90];
static CALL_RELOCS: [bool; 8] = [false, false, true, false, false, false, false, false];

#[test]
fn call_target_patch_rewrites_the_displacement() {
    let p = CallTargetPatch::new(0x10, &TARGET_ORIGINAL, 0x5000);
    assert_eq!(p.offset(), 0x10);
    let mut mem = TARGET_ORIGINAL.to_le_bytes().to_vec();
    let applied = p.apply(&mut mem, 0x1000, 0).ok().unwrap();
    // 0x5000 - (0x1010 + 4)
    assert_eq!(mem, 0x3fecu32.to_le_bytes().to_vec());
    assert_eq!(applied.address(), 0x1010);
    applied.restore(&mut mem);
    assert_eq!(mem, TARGET_ORIGINAL.to_le_bytes().to_vec());
    let mut other = vec![0, 0, 0, 0];
    assert!(p.apply(&mut other, 0x1000, 0).is_err());
    assert_eq!(other, vec![0, 0, 0, 0]);
}

#[test]
fn call_patch_checks_relocated_code() {
    let p = CallPatch::new(0x20, &CALL_CODE, &CALL_RELOCS, 0x9000);
    // Loaded 0x100 bytes away: the address word at offset 2 moves too.
    let mut mem = vec![0x8b, 0x0d, 0x10, 0x21, 0x30, 0x40, 0x90, 0x90];
    let applied = p.apply(&mut mem, 0x1000, 0x100).ok().unwrap();
    let disp = (0x9000u32).wrapping_sub(0x1020 + 5).to_le_bytes();
    assert_eq!(mem, vec![0xe8, disp[0], disp[1], disp[2], disp[3], 0x0f, 0x1f, 0x00]);
    let mut unrelocated = CALL_CODE.to_vec();
    assert!(p.apply(&mut unrelocated, 0x1000, 0x100).is_err());
    assert_eq!(unrelocated, CALL_CODE.to_vec());
    applied.restore(&mut mem);
    assert_eq!(mem, vec![0x8b, 0x0d, 0x10, 0x21, 0x30, 0x40, 0x90, 0x90]);
}

#[test]
fn motion_positions() {
    let p = observed(None, at(10, 20), true);
    assert_eq!(p.real, at(10, 20));
    assert_eq!(p.delta, LinearPos::new(FixedI16::default(), FixedI16::default()));
    assert!(p.active && !p.teleport && p.from_first_table);
    let mut q = p;
    q.active = false;
    let q = observed(Some(q), at(5, 30), true);
    assert_eq!(q.delta.x.repr(), -5);
    assert_eq!(q.delta.y.repr(), 10);
    assert!(q.active);
    assert_eq!(q.for_time(FixedI16::from_repr(-0x8000)), at(7, 25));
    // A teleport, or a change of table, stops the movement.
    let mut t = q;
    mark_teleport(&mut t);
    let t = observed(Some(t), at(100, 100), true);
    assert_eq!(t.delta.x.repr(), 0);
    assert!(!t.teleport);
    let s = observed(Some(q), at(6, 31), false);
    assert_eq!(s.delta.y.repr(), 0);
    assert!(!s.from_first_table);
}

#[test]
fn motion_refresh_and_retain() {
    let mut p = Position::new(at(1, 1), true);
    p.update_pos(at(3, 1), true);
    assert_eq!(p.delta.x.repr(), 2);
    let mut r = p;
    r.refresh(at(4, 1), true);
    assert_eq!(r.real, at(4, 1));
    assert_eq!(r.delta.x.repr(), 2);
    let mut m = p;
    m.refresh(at(4, 1), false);
    assert_eq!(m.delta.x.repr(), 0);
    assert!(!m.from_first_table);
    let mut k = Position::new(at(0, 0), true);
    assert!(keep_seen(&mut k));
    assert!(!keep_seen(&mut k));
}

#[test]
fn game_versions() {
    let v114d = FileVersion { ms: 0x0001_000e, ls: 0x0003_0047 };
    assert_eq!(from_game_file_version(v114d, None), ("v1.14d", HooksId::V114d, true));
    let v104c = FileVersion { ms: 0x0001_0000, ls: 0x0004_0002 };
    assert_eq!(from_game_file_version(v104c, None), ("v1.04c", HooksId::V104b, false));
    let v100 = FileVersion { ms: 0x0001_0000, ls: 0x0000_0001 };
    assert!(needs_exe_hash(v100));
    assert!(!needs_exe_hash(v114d));
    assert_eq!(from_game_file_version(v100, Some(0x5215437ecc8b67b9)), ("v1.00", HooksId::V100, false));
    assert_eq!(from_game_file_version(v100, Some(0x1b093efaa009e78b)), ("v1.01", HooksId::V101, false));
    assert_eq!(from_game_file_version(v100, Some(1)), ("unknown", HooksId::Unknown, false));
    assert_eq!(from_game_file_version(v100, None), ("unknown", HooksId::Unknown, false));
    let v106 = FileVersion { ms: 0x0001_0000, ls: 0x0006_0000 };
    assert_eq!(from_game_file_version(v106, Some(0x62fea87b064aec9e)), ("v1.06b", HooksId::V106b, false));
    assert_eq!(
        from_game_file_version(FileVersion { ms: 2, ls: 0 }, None),
        ("unknown", HooksId::Unknown, false)
    );
    // A file that is not v1.00 or v1.01 by its hash.
    assert_eq!(identify_game(v100, Some(b"not the game")), ("unknown", HooksId::Unknown, false));
    assert_eq!(identify_game(v114d, None), ("v1.14d", HooksId::V114d, true));
}

#[test]
fn file_hash_is_xxh3() {
    let data = b"d2fps";
    assert_eq!(hash_file_contents(data), xxhash_rust::xxh3::xxh3_64(data));
    assert_ne!(hash_file_contents(data), hash_file_contents(b"d2fpt"));
    assert_eq!(hash_file_contents(b""), 0x2d06800538d394c2);
}

#[test]
fn window_hook_is_claimed_once() {
    let hook = WindowHook::new();
    assert!(!hook.claim(0));
    assert!(hook.claim(0x1234));
    assert!(!hook.claim(0x1234));
}

#[test]
fn shared_features() {
    let f = AtomicFeatures::all();
    assert_eq!(f.load_relaxed().bits(), ALL_BITS);
    assert!(f.fps() && f.motion_smoothing());
    f.remove_relaxed(Features::motion_smoothing());
    assert!(!f.motion_smoothing());
    f.set_relaxed(Features::motion_smoothing(), true);
    assert!(f.motion_smoothing());
    // Disabling through `set_relaxed` leaves the set unchanged.
    f.set_relaxed(Features::motion_smoothing(), false);
    assert!(f.motion_smoothing());
    f.store_relaxed(Features::empty());
    assert!(!f.fps());
}
