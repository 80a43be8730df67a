//! Recognising the game version from the version resource of its executable.
use vstd::prelude::*;

use crate::util::FileVersion;

verus! {

/// The hook tables, one per group of game versions that share code layout.
#[derive(Clone, Copy, PartialEq, Eq, Structural, Debug)]
pub enum HooksId {
    V100,
    V101,
    V102,
    V103,
    V104b,
    V105,
    V106a,
    V106b,
    V107,
    V108,
    V109a,
    V109d,
    V110,
    V111a,
    V111b,
    V112,
    V113c,
    V113d,
    V114a,
    V114b,
    V114c,
    V114d,
    Unknown,
}

/// XXH3 hash of the version 1.00 executable.
pub const HASH_V100: u64 = 0x5215437ecc8b67b9;
/// XXH3 hash of the version 1.01 executable.
pub const HASH_V101: u64 = 0x1b093efaa009e78b;
/// XXH3 hash of the version 1.06a executable.
pub const HASH_V106A: u64 = 0x73645dbfe51df9ae;
/// XXH3 hash of the version 1.06b executable.
pub const HASH_V106B: u64 = 0x62fea87b064aec9e;

/// Whether the version resource alone cannot tell the version apart, so the
/// hash of the executable decides: 1.00 and 1.01 share one version number,
/// as do 1.06a and 1.06b.
pub open spec fn hash_decides(ms: u32, ls: u32) -> bool {
    ms == 0x0001_0000 && (ls == 0x0000_0001 || ls == 0x0006_0000)
}

/// The version name, hook table and whether the version has the expansion,
/// for version resource `(ms, ls)` and executable hash `hash` (looked at only
/// when `hash_decides`).
pub open spec fn game_version(ms: u32, ls: u32, hash: Option<u64>) -> (Seq<char>, HooksId, bool) {
    if ms == 0x0001_0000 {
        if ls == 0x0000_0001 {
            if hash == Some(HASH_V100) {
                ("v1.00"@, HooksId::V100, false)
            } else if hash == Some(HASH_V101) {
                ("v1.01"@, HooksId::V101, false)
            } else {
                ("unknown"@, HooksId::Unknown, false)
            }
        } else if ls == 0x0002_0000 {
            ("v1.02"@, HooksId::V102, false)
        } else if ls == 0x0003_0000 {
            ("v1.03"@, HooksId::V103, false)
        } else if ls == 0x0004_0001 {
            ("v1.04b"@, HooksId::V104b, false)
        } else if ls == 0x0004_0002 {
            ("v1.04c"@, HooksId::V104b, false)
        } else if ls == 0x0005_0000 {
            ("v1.05a"@, HooksId::V105, false)
        } else if ls == 0x0005_0001 {
            ("v1.05b"@, HooksId::V105, false)
        } else if ls == 0x0006_0000 {
            if hash == Some(HASH_V106A) {
                ("v1.06a"@, HooksId::V106a, false)
            } else if hash == Some(HASH_V106B) {
                ("v1.06b"@, HooksId::V106b, false)
            } else {
                ("unknown"@, HooksId::Unknown, false)
            }
        } else if ls == 0x0007_0000 {
            ("v1.07"@, HooksId::V107, true)
        } else if ls == 0x0008_001c {
            ("v1.08"@, HooksId::V108, true)
        } else if ls == 0x0009_0013 {
            ("v1.09a"@, HooksId::V109a, true)
        } else if ls == 0x0009_0014 {
            ("v1.09b"@, HooksId::V109a, true)
        } else if ls == 0x0009_0016 {
            ("v1.09d"@, HooksId::V109d, true)
        } else if ls == 0x000a_0027 {
            ("v1.10"@, HooksId::V110, true)
        } else if ls == 0x000b_002d {
            ("v1.11a"@, HooksId::V111a, true)
        } else if ls == 0x000b_002e {
            ("v1.11b"@, HooksId::V111b, true)
        } else if ls == 0x000c_0031 {
            ("v1.12"@, HooksId::V112, true)
        } else if ls == 0x000d_003c {
            ("v1.13c"@, HooksId::V113c, true)
        } else if ls == 0x000d_0040 {
            ("v1.13d"@, HooksId::V113d, true)
        } else {
            ("unknown"@, HooksId::Unknown, false)
        }
    } else if ms == 0x0001_000e {
        if ls == 0x0000_0040 {
            ("v1.14a"@, HooksId::V114a, true)
        } else if ls == 0x0001_0044 {
            ("v1.14b"@, HooksId::V114b, true)
        } else if ls == 0x0002_0046 {
            ("v1.14c"@, HooksId::V114c, true)
        } else if ls == 0x0003_0047 {
            ("v1.14d"@, HooksId::V114d, true)
        } else {
            ("unknown"@, HooksId::Unknown, false)
        }
    } else {
        ("unknown"@, HooksId::Unknown, false)
    }
}

/// Whether the executable's hash is needed to tell `version` apart.
pub fn needs_exe_hash(version: FileVersion) -> (r: bool)
    ensures
        r == hash_decides(version.ms, version.ls),
{
    version.ms == 0x0001_0000 && (version.ls == 0x0000_0001 || version.ls == 0x0006_0000)
}

/// The version name, hook table and expansion flag of the game whose
/// executable has version resource `version` and, where the version resource
/// does not decide, hash `exe_hash` (`None` when it could not be read).
pub fn from_game_file_version(version: FileVersion, exe_hash: Option<u64>) -> (r: (&'static str, HooksId, bool))
    ensures
        (r.0@, r.1, r.2) == game_version(version.ms, version.ls, exe_hash),
{
    let ms = version.ms;
    let ls = version.ls;
    if ms == 0x0001_0000 {
        if ls == 0x0000_0001 {
            if exe_hash == Some(HASH_V100) {
                ("v1.00", HooksId::V100, false)
            } else if exe_hash == Some(HASH_V101) {
                ("v1.01", HooksId::V101, false)
            } else {
                ("unknown", HooksId::Unknown, false)
            }
        } else if ls == 0x0002_0000 {
            ("v1.02", HooksId::V102, false)
        } else if ls == 0x0003_0000 {
            ("v1.03", HooksId::V103, false)
        } else if ls == 0x0004_0001 {
            ("v1.04b", HooksId::V104b, false)
        } else if ls == 0x0004_0002 {
            ("v1.04c", HooksId::V104b, false)
        } else if ls == 0x0005_0000 {
            ("v1.05a", HooksId::V105, false)
        } else if ls == 0x0005_0001 {
            ("v1.05b", HooksId::V105, false)
        } else if ls == 0x0006_0000 {
            if exe_hash == Some(HASH_V106A) {
                ("v1.06a", HooksId::V106a, false)
            } else if exe_hash == Some(HASH_V106B) {
                ("v1.06b", HooksId::V106b, false)
            } else {
                ("unknown", HooksId::Unknown, false)
            }
        } else if ls == 0x0007_0000 {
            ("v1.07", HooksId::V107, true)
        } else if ls == 0x0008_001c {
            ("v1.08", HooksId::V108, true)
        } else if ls == 0x0009_0013 {
            ("v1.09a", HooksId::V109a, true)
        } else if ls == 0x0009_0014 {
            ("v1.09b", HooksId::V109a, true)
        } else if ls == 0x0009_0016 {
            ("v1.09d", HooksId::V109d, true)
        } else if ls == 0x000a_0027 {
            ("v1.10", HooksId::V110, true)
        } else if ls == 0x000b_002d {
            ("v1.11a", HooksId::V111a, true)
        } else if ls == 0x000b_002e {
            ("v1.11b", HooksId::V111b, true)
        } else if ls == 0x000c_0031 {
            ("v1.12", HooksId::V112, true)
        } else if ls == 0x000d_003c {
            ("v1.13c", HooksId::V113c, true)
        } else if ls == 0x000d_0040 {
            ("v1.13d", HooksId::V113d, true)
        } else {
            ("unknown", HooksId::Unknown, false)
        }
    } else if ms == 0x0001_000e {
        if ls == 0x0000_0040 {
            ("v1.14a", HooksId::V114a, true)
        } else if ls == 0x0001_0044 {
            ("v1.14b", HooksId::V114b, true)
        } else if ls == 0x0002_0046 {
            ("v1.14c", HooksId::V114c, true)
        } else if ls == 0x0003_0047 {
            ("v1.14d", HooksId::V114d, true)
        } else {
            ("unknown", HooksId::Unknown, false)
        }
    } else {
        ("unknown", HooksId::Unknown, false)
    }
}

/// Identifies the game from its version resource and the bytes of its
/// executable, which are hashed only when the version resource does not
/// decide (`None` when the file could not be read).
pub fn identify_game(version: FileVersion, exe_contents: Option<&[u8]>) -> (r: (&'static str, HooksId, bool))
    ensures
        (r.0@, r.1, r.2) == game_version(
            version.ms,
            version.ls,
            match exe_contents {
                Some(c) => Some(crate::util::xxh3_64_of(c@)),
                None => None,
            },
        ),
{
    let hash = if needs_exe_hash(version) {
        match exe_contents {
            Some(c) => Some(crate::util::hash_file_contents(c)),
            None => None,
        }
    } else {
        None
    };
    proof {
        if !hash_decides(version.ms, version.ls) {
            assert(game_version(version.ms, version.ls, hash) == game_version(
                version.ms,
                version.ls,
                match exe_contents {
                    Some(c) => Some(crate::util::xxh3_64_of(c@)),
                    None => None,
                },
            ));
        }
    }
    from_game_file_version(version, hash)
}


/// The version names a hook table serves: each table serves the version it
/// is named after, and a few serve the patch releases that kept its code
/// layout (1.04c, 1.05b and 1.09b).
pub open spec fn hooks_serve(id: HooksId, name: Seq<char>) -> bool {
    match id {
        HooksId::V100 => name == "v1.00"@,
        HooksId::V101 => name == "v1.01"@,
        HooksId::V102 => name == "v1.02"@,
        HooksId::V103 => name == "v1.03"@,
        HooksId::V104b => name == "v1.04b"@ || name == "v1.04c"@,
        HooksId::V105 => name == "v1.05a"@ || name == "v1.05b"@,
        HooksId::V106a => name == "v1.06a"@,
        HooksId::V106b => name == "v1.06b"@,
        HooksId::V107 => name == "v1.07"@,
        HooksId::V108 => name == "v1.08"@,
        HooksId::V109a => name == "v1.09a"@ || name == "v1.09b"@,
        HooksId::V109d => name == "v1.09d"@,
        HooksId::V110 => name == "v1.10"@,
        HooksId::V111a => name == "v1.11a"@,
        HooksId::V111b => name == "v1.11b"@,
        HooksId::V112 => name == "v1.12"@,
        HooksId::V113c => name == "v1.13c"@,
        HooksId::V113d => name == "v1.13d"@,
        HooksId::V114a => name == "v1.14a"@,
        HooksId::V114b => name == "v1.14b"@,
        HooksId::V114c => name == "v1.14c"@,
        HooksId::V114d => name == "v1.14d"@,
        HooksId::Unknown => name == "unknown"@,
    }
}

/// The minor version number that a version resource `(ms, ls)` carries:
/// the high half of `ls` for 1.00 to 1.13, the low half of `ms` from 1.14.
pub open spec fn resource_minor(ms: u32, ls: u32) -> int {
    if ms == 0x0001_000e {
        14
    } else {
        (ls / 0x1_0000) as int
    }
}

/// The value of a decimal digit (`-1` for any other character).
pub open spec fn digit_value(c: char) -> int {
    if c == '0' {
        0
    } else if c == '1' {
        1
    } else if c == '2' {
        2
    } else if c == '3' {
        3
    } else if c == '4' {
        4
    } else if c == '5' {
        5
    } else if c == '6' {
        6
    } else if c == '7' {
        7
    } else if c == '8' {
        8
    } else if c == '9' {
        9
    } else {
        -1
    }
}

/// The minor version number written in a name `v1.XY...`.
pub open spec fn name_minor(name: Seq<char>) -> int {
    digit_value(name[3]) * 10 + digit_value(name[4])
}

/// The executable hash that tells a hash-decided version apart.
pub open spec fn exe_hash_of(id: HooksId) -> Option<u64> {
    match id {
        HooksId::V100 => Some(HASH_V100),
        HooksId::V101 => Some(HASH_V101),
        HooksId::V106a => Some(HASH_V106A),
        HooksId::V106b => Some(HASH_V106B),
        _ => None,
    }
}

/// What a recognised version is: its hook table serves the version name
/// returned; the name is `v1.` followed by the minor version number the
/// version resource carries (1.01 excepted, whose executable carries the
/// version resource of 1.00); the expansion is present exactly from 1.07
/// on; where the version resource does not decide, the executable hash is
/// that of the version found. A version is unknown exactly when the name
/// says so, and then it has no hook table and no expansion.
pub proof fn law_version_agrees(ms: u32, ls: u32, hash: Option<u64>)
    ensures
        hooks_serve(game_version(ms, ls, hash).1, game_version(ms, ls, hash).0),
        game_version(ms, ls, hash).1 == HooksId::Unknown <==> game_version(ms, ls, hash).0
            == "unknown"@,
        game_version(ms, ls, hash).1 == HooksId::Unknown ==> !game_version(ms, ls, hash).2,
        game_version(ms, ls, hash).1 != HooksId::Unknown ==> {
            let name = game_version(ms, ls, hash).0;
            &&& name.len() >= 5
            &&& name.subrange(0, 3) == "v1."@
            &&& (name_minor(name) == resource_minor(ms, ls) || game_version(ms, ls, hash).1
                == HooksId::V101)
            &&& game_version(ms, ls, hash).2 == (resource_minor(ms, ls) >= 7)
            &&& hash_decides(ms, ls) ==> hash == exe_hash_of(game_version(ms, ls, hash).1)
        },
{
    reveal_strlit("unknown");
    reveal_strlit("v1.");
    reveal_strlit("v1.00");
    reveal_strlit("v1.01");
    reveal_strlit("v1.02");
    reveal_strlit("v1.03");
    reveal_strlit("v1.04b");
    reveal_strlit("v1.04c");
    reveal_strlit("v1.05a");
    reveal_strlit("v1.05b");
    reveal_strlit("v1.06a");
    reveal_strlit("v1.06b");
    reveal_strlit("v1.07");
    reveal_strlit("v1.08");
    reveal_strlit("v1.09a");
    reveal_strlit("v1.09b");
    reveal_strlit("v1.09d");
    reveal_strlit("v1.10");
    reveal_strlit("v1.11a");
    reveal_strlit("v1.11b");
    reveal_strlit("v1.12");
    reveal_strlit("v1.13c");
    reveal_strlit("v1.13d");
    reveal_strlit("v1.14a");
    reveal_strlit("v1.14b");
    reveal_strlit("v1.14c");
    reveal_strlit("v1.14d");
    let (name, id, expansion) = game_version(ms, ls, hash);
    if id != HooksId::Unknown {
        assert(name[0] == 'v');
        assert("unknown"@[0] == 'u');
        assert(name != "unknown"@);
        assert(name.subrange(0, 3) =~= "v1."@);
        if ms == 0x0001_000e {
            assert(name_minor(name) == 14);
        } else {
            assert(ms == 0x0001_0000);
            let hi = ls / 0x1_0000;
            if ls == 0x0000_0001 {
                assert(hi == 0);
                assert(id == HooksId::V101 || name_minor(name) == 0);
            } else if ls == 0x0002_0000 {
                assert(hi == 2);
                assert(name_minor(name) == 2);
            } else if ls == 0x0003_0000 {
                assert(hi == 3);
                assert(name_minor(name) == 3);
            } else if ls == 0x0004_0001 {
                assert(hi == 4);
                assert(name_minor(name) == 4);
            } else if ls == 0x0004_0002 {
                assert(hi == 4);
                assert(name_minor(name) == 4);
            } else if ls == 0x0005_0000 {
                assert(hi == 5);
                assert(name_minor(name) == 5);
            } else if ls == 0x0005_0001 {
                assert(hi == 5);
                assert(name_minor(name) == 5);
            } else if ls == 0x0006_0000 {
                assert(hi == 6);
                assert(name_minor(name) == 6);
            } else if ls == 0x0007_0000 {
                assert(hi == 7);
                assert(name_minor(name) == 7);
            } else if ls == 0x0008_001c {
                assert(hi == 8);
                assert(name_minor(name) == 8);
            } else if ls == 0x0009_0013 {
                assert(hi == 9);
                assert(name_minor(name) == 9);
            } else if ls == 0x0009_0014 {
                assert(hi == 9);
                assert(name_minor(name) == 9);
            } else if ls == 0x0009_0016 {
                assert(hi == 9);
                assert(name_minor(name) == 9);
            } else if ls == 0x000a_0027 {
                assert(hi == 10);
                assert(name_minor(name) == 10);
            } else if ls == 0x000b_002d {
                assert(hi == 11);
                assert(name_minor(name) == 11);
            } else if ls == 0x000b_002e {
                assert(hi == 11);
                assert(name_minor(name) == 11);
            } else if ls == 0x000c_0031 {
                assert(hi == 12);
                assert(name_minor(name) == 12);
            } else if ls == 0x000d_003c {
                assert(hi == 13);
                assert(name_minor(name) == 13);
            } else if ls == 0x000d_0040 {
                assert(hi == 13);
                assert(name_minor(name) == 13);
            }
        }
    }
}


/// The rank of a release letter after the version number: none before `a`,
/// `a` before `b` and so on.
pub open spec fn release_rank(name: Seq<char>) -> int {
    if name.len() <= 5 {
        0
    } else if name[5] == 'a' {
        1
    } else if name[5] == 'b' {
        2
    } else if name[5] == 'c' {
        3
    } else if name[5] == 'd' {
        4
    } else {
        5
    }
}

/// Within one minor version, a later version resource is a later release:
/// of two recognised versions with the same minor number, the one whose
/// resource is greater has the later release letter. So no two resources
/// are given the same release.
pub proof fn law_later_resource_later_release(
    ms: u32,
    ls1: u32,
    ls2: u32,
    h1: Option<u64>,
    h2: Option<u64>,
)
    requires
        game_version(ms, ls1, h1).1 != HooksId::Unknown,
        game_version(ms, ls2, h2).1 != HooksId::Unknown,
        resource_minor(ms, ls1) == resource_minor(ms, ls2),
        ls1 < ls2,
    ensures
        release_rank(game_version(ms, ls1, h1).0) < release_rank(game_version(ms, ls2, h2).0),
{
    reveal_strlit("v1.00");
    reveal_strlit("v1.01");
    reveal_strlit("v1.02");
    reveal_strlit("v1.03");
    reveal_strlit("v1.04b");
    reveal_strlit("v1.04c");
    reveal_strlit("v1.05a");
    reveal_strlit("v1.05b");
    reveal_strlit("v1.06a");
    reveal_strlit("v1.06b");
    reveal_strlit("v1.07");
    reveal_strlit("v1.08");
    reveal_strlit("v1.09a");
    reveal_strlit("v1.09b");
    reveal_strlit("v1.09d");
    reveal_strlit("v1.10");
    reveal_strlit("v1.11a");
    reveal_strlit("v1.11b");
    reveal_strlit("v1.12");
    reveal_strlit("v1.13c");
    reveal_strlit("v1.13d");
    reveal_strlit("v1.14a");
    reveal_strlit("v1.14b");
    reveal_strlit("v1.14c");
    reveal_strlit("v1.14d");
}

} // verus!
