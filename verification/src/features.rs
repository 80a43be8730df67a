//! The optional features of the patch and the flag sets that record which
//! are enabled.
use vstd::prelude::*;
use core::sync::atomic::{AtomicU32, Ordering};
use vstd::string::StringExecFns;

verus! {

/// The bit of the menu fps feature.
pub const MENU_FPS_BIT: u32 = 1;
/// The bit of the game fps feature.
pub const GAME_FPS_BIT: u32 = 2;
/// The bit of the motion smoothing feature.
pub const MOTION_SMOOTHING_BIT: u32 = 4;
/// Every feature bit.
pub const ALL_BITS: u32 = 7;

/// A set of features, as bits: menu fps `1`, game fps `2`, motion smoothing
/// `4`. Other bits are kept as given.
#[derive(Clone, Copy, PartialEq, Eq, Structural, Debug)]
pub struct Features {
    bits: u32,
}

impl Features {
    /// The bits of the set.
    pub closed spec fn view_bits(self) -> u32 {
        self.bits
    }

    /// The set with exactly these bits.
    pub fn from_bits_retain(bits: u32) -> (r: Self)
        ensures
            r.view_bits() == bits,
    {
        Self { bits }
    }

    /// The bits of the set.
    pub fn bits(&self) -> (r: u32)
        ensures
            r == self.view_bits(),
    {
        self.bits
    }

    /// No feature.
    pub fn empty() -> (r: Self)
        ensures
            r.view_bits() == 0,
    {
        Self { bits: 0 }
    }

    /// Every feature.
    pub fn all() -> (r: Self)
        ensures
            r.view_bits() == ALL_BITS,
    {
        Self { bits: ALL_BITS }
    }

    /// The menu fps feature alone.
    pub fn menu_fps() -> (r: Self)
        ensures
            r.view_bits() == MENU_FPS_BIT,
    {
        Self { bits: MENU_FPS_BIT }
    }

    /// The game fps feature alone.
    pub fn game_fps() -> (r: Self)
        ensures
            r.view_bits() == GAME_FPS_BIT,
    {
        Self { bits: GAME_FPS_BIT }
    }

    /// Both frame rate features.
    pub fn fps() -> (r: Self)
        ensures
            r.view_bits() == MENU_FPS_BIT | GAME_FPS_BIT,
    {
        Self { bits: MENU_FPS_BIT | GAME_FPS_BIT }
    }

    /// The motion smoothing feature alone.
    pub fn motion_smoothing() -> (r: Self)
        ensures
            r.view_bits() == MOTION_SMOOTHING_BIT,
    {
        Self { bits: MOTION_SMOOTHING_BIT }
    }

    /// Whether the two sets share a bit.
    pub fn intersects(&self, other: Self) -> (r: bool)
        ensures
            r == (self.view_bits() & other.view_bits() != 0),
    {
        self.bits & other.bits != 0
    }

    /// Whether every bit of `other` is in the set.
    pub fn contains(&self, other: Self) -> (r: bool)
        ensures
            r == (self.view_bits() & other.view_bits() == other.view_bits()),
    {
        self.bits & other.bits == other.bits
    }

    /// The bits of the set that are not in `other`.
    pub fn difference(&self, other: Self) -> (r: Self)
        ensures
            r.view_bits() == self.view_bits() & !other.view_bits(),
    {
        Self { bits: self.bits & !other.bits }
    }

    /// The bits of either set.
    pub fn union(&self, other: Self) -> (r: Self)
        ensures
            r.view_bits() == self.view_bits() | other.view_bits(),
    {
        Self { bits: self.bits | other.bits }
    }
}

impl Features {
    /// The set after `set_relaxed(x, enable)`: combined with the masks of
    /// `set_masks`, so enabling adds the bits of `x` and disabling leaves the
    /// set as it is.
    pub fn set(self, x: Features, enable: bool) -> (r: Features)
        ensures
            r.view_bits() == if enable {
                self.view_bits() | x.view_bits()
            } else {
                self.view_bits()
            },
    {
        let (load_mask, store_bits) = set_masks(x, enable);
        let r = Features { bits: (self.bits & load_mask) | store_bits };
        proof {
            let b = self.bits;
            assert((b & load_mask) | store_bits == b | store_bits);
            if !enable {
                assert(b | 0u32 == b) by (bit_vector);
            }
        }
        r
    }
}

/// One optional feature.
#[derive(Clone, Copy, PartialEq, Eq, Structural, Debug)]
pub enum FeatureId {
    MenuFps,
    GameFps,
    MotionSmoothing,
}

/// The index of a feature, which is also the position of its bit.
pub open spec fn feature_index(f: FeatureId) -> u32 {
    match f {
        FeatureId::MenuFps => 0,
        FeatureId::GameFps => 1,
        FeatureId::MotionSmoothing => 2,
    }
}

impl FeatureId {
    /// The name used in messages.
    pub fn name(self) -> (r: &'static str)
        ensures
            r@ == match self {
                FeatureId::MenuFps => "menu fps"@,
                FeatureId::GameFps => "game fps"@,
                FeatureId::MotionSmoothing => "motion smoothing"@,
            },
    {
        match self {
            FeatureId::MenuFps => "menu fps",
            FeatureId::GameFps => "game fps",
            FeatureId::MotionSmoothing => "motion smoothing",
        }
    }

    /// Every feature, in index order.
    pub fn iter() -> (r: Vec<FeatureId>)
        ensures
            r@ == seq![FeatureId::MenuFps, FeatureId::GameFps, FeatureId::MotionSmoothing],
    {
        let mut r = Vec::with_capacity(3);
        r.push(FeatureId::MenuFps);
        r.push(FeatureId::GameFps);
        r.push(FeatureId::MotionSmoothing);
        assert(r@ =~= seq![FeatureId::MenuFps, FeatureId::GameFps, FeatureId::MotionSmoothing]);
        r
    }

    /// The feature with this index, if there is one.
    pub fn from_index(i: usize) -> (r: Option<FeatureId>)
        ensures
            match r {
                Some(f) => i < 3 && feature_index(f) == i,
                None => i >= 3,
            },
    {
        if i == 0 {
            Some(FeatureId::MenuFps)
        } else if i == 1 {
            Some(FeatureId::GameFps)
        } else if i == 2 {
            Some(FeatureId::MotionSmoothing)
        } else {
            None
        }
    }

    /// The set holding only this feature: bit `1 << index`.
    pub fn as_flag(self) -> (r: Features)
        ensures
            r.view_bits() == 1u32 << feature_index(self),
    {
        let i: u32 = match self {
            FeatureId::MenuFps => 0,
            FeatureId::GameFps => 1,
            FeatureId::MotionSmoothing => 2,
        };
        Features::from_bits_retain(1u32 << i)
    }

    /// The features that must be enabled for this one to work.
    pub fn prereqs(self) -> (r: Features)
        ensures
            r.view_bits() == match self {
                FeatureId::MotionSmoothing => GAME_FPS_BIT,
                _ => 0,
            },
    {
        match self {
            FeatureId::MenuFps | FeatureId::GameFps => Features::empty(),
            FeatureId::MotionSmoothing => Features::game_fps(),
        }
    }
}

/// The bits of the features `f` needs.
pub open spec fn prereq_bits(f: FeatureId) -> u32 {
    match f {
        FeatureId::MotionSmoothing => GAME_FPS_BIT,
        _ => 0,
    }
}

/// What enabling the patches of one feature comes to, given the features
/// still enabled.
#[derive(Clone, Copy, PartialEq, Eq, Structural, Debug)]
pub enum FeatureStep {
    /// The feature is not enabled: nothing to do.
    Off,
    /// Features it needs are not enabled (these): it is disabled.
    MissingPrereqs(Features),
    /// The game version has no patches for it: it is disabled.
    Unsupported,
    /// Its patches are to be applied.
    Apply,
}

/// What stopped the patch from attaching to the game.
#[derive(Clone, Copy, PartialEq, Eq, Structural, Debug)]
pub enum AttachFailure {
    /// The game's version could not be read.
    Version,
    /// The game's modules could not be loaded.
    Modules,
    /// The addresses the hooks use could not be found.
    Addresses,
}

/// The features left when attaching to the game starts: all of `current`,
/// or none when the version, the modules or the addresses could not be read,
/// since no patch can be applied then.
pub fn features_on_attach(current: Features, failure: Option<AttachFailure>) -> (r: Features)
    ensures
        r.view_bits() == match failure {
            Some(_) => 0,
            None => current.view_bits(),
        },
{
    match failure {
        Some(_) => Features::empty(),
        None => current,
    }
}

/// Whether feature `f` is among `bits`.
pub open spec fn enabled(bits: u32, f: FeatureId) -> bool {
    bits & (1u32 << feature_index(f)) != 0
}

/// Whether the features `f` needs are among `bits`.
pub open spec fn prereqs_met(bits: u32, f: FeatureId) -> bool {
    bits & prereq_bits(f) == prereq_bits(f)
}

/// The features left after the step for `f`: all of them when it was off
/// or its patches applied, else all but `f`.
pub open spec fn after_step(bits: u32, f: FeatureId, has_patches: bool, applied: bool) -> u32 {
    if !enabled(bits, f) || (prereqs_met(bits, f) && has_patches && applied) {
        bits
    } else {
        bits & !(1u32 << feature_index(f))
    }
}

/// The features left after going through every feature from index `i` on,
/// with whether the game version has patches for each and whether applying
/// them worked.
pub open spec fn settled(bits: u32, has_patches: Seq<bool>, applied: Seq<bool>, i: int) -> u32
    decreases 3 - i,
{
    if i >= 3 || i < 0 {
        bits
    } else {
        settled(after_step(bits, feature_at(i), has_patches[i], applied[i]), has_patches, applied, i + 1)
    }
}

/// Decides what to do about feature `f` when `current` is enabled.
pub fn feature_step(current: Features, f: FeatureId, has_patches: bool) -> (r: FeatureStep)
    ensures
        (r is Off) == !enabled(current.view_bits(), f),
        (r is MissingPrereqs) == (enabled(current.view_bits(), f) && !prereqs_met(current.view_bits(), f)),
        (r is Unsupported) == (enabled(current.view_bits(), f) && prereqs_met(current.view_bits(), f)
            && !has_patches),
        (r is Apply) == (enabled(current.view_bits(), f) && prereqs_met(current.view_bits(), f)
            && has_patches),
        r matches FeatureStep::MissingPrereqs(m) ==> m.view_bits() == prereq_bits(f) & !current.view_bits(),
{
    if !current.intersects(f.as_flag()) {
        FeatureStep::Off
    } else if !current.contains(f.prereqs()) {
        FeatureStep::MissingPrereqs(f.prereqs().difference(current))
    } else if !has_patches {
        FeatureStep::Unsupported
    } else {
        FeatureStep::Apply
    }
}

/// The features enabled after the step `step` for `f`, whose patches were
/// applied or not.
pub fn after_feature_step(current: Features, f: FeatureId, step: FeatureStep, applied: bool) -> (r: Features)
    ensures
        r.view_bits() == if step is Off || (step is Apply && applied) {
            current.view_bits()
        } else {
            current.view_bits() & !(1u32 << feature_index(f))
        },
{
    match step {
        FeatureStep::Off => current,
        FeatureStep::Apply => if applied {
            current
        } else {
            current.difference(f.as_flag())
        },
        _ => current.difference(f.as_flag()),
    }
}

/// Going through the features never enables one, and never leaves motion
/// smoothing enabled without the game frame rate it needs.
pub proof fn law_settled_features_have_prereqs(bits: u32, has_patches: Seq<bool>, applied: Seq<bool>)
    requires
        has_patches.len() == 3,
        applied.len() == 3,
    ensures
        settled(bits, has_patches, applied, 0) & !bits == 0,
        settled(bits, has_patches, applied, 0) & MOTION_SMOOTHING_BIT != 0 ==> settled(bits, has_patches, applied, 0)
            & GAME_FPS_BIT != 0,
{
    let b1 = after_step(bits, feature_at(0), has_patches[0], applied[0]);
    let b2 = after_step(b1, feature_at(1), has_patches[1], applied[1]);
    let b3 = after_step(b2, feature_at(2), has_patches[2], applied[2]);
    assert(settled(bits, has_patches, applied, 0) == b3) by {
        reveal_with_fuel(settled, 4);
    }
    assert(1u32 << 0u32 == 1u32 && 1u32 << 1u32 == 2u32 && 1u32 << 2u32 == 4u32) by (bit_vector);
    assert(b1 == bits || b1 == bits & !1u32);
    assert(b2 == b1 || b2 == b1 & !2u32);
    assert(b3 == b2 || (b3 == b2 & !4u32));
    assert(b3 == b2 & !4u32 ==> b3 & 4u32 == 0) by (bit_vector);
    if b3 & 4u32 != 0 {
        assert(b3 == b2);
        assert(feature_at(2) == FeatureId::MotionSmoothing);
        assert(enabled(b2, feature_at(2)));
        assert(prereqs_met(b2, feature_at(2)));
        assert(b2 & 2u32 == 2u32);
    }
    assert((b1 == bits || b1 == bits & !1u32) && (b2 == b1 || b2 == b1 & !2u32) && (b3 == b2 || b3 == b2
        & !4u32) ==> (b3 & !bits) == 0 && (b3 & 4u32 != 0 && b2 & 2u32 == 2u32 ==> b3 & 2u32 != 0))
        by (bit_vector);
}

/// The name of a feature, as `FeatureId::name` gives it.
pub open spec fn feature_name(f: FeatureId) -> Seq<char> {
    match f {
        FeatureId::MenuFps => "menu fps"@,
        FeatureId::GameFps => "game fps"@,
        FeatureId::MotionSmoothing => "motion smoothing"@,
    }
}

/// The feature with index `i < 3`.
pub open spec fn feature_at(i: int) -> FeatureId {
    if i == 0 {
        FeatureId::MenuFps
    } else if i == 1 {
        FeatureId::GameFps
    } else {
        FeatureId::MotionSmoothing
    }
}

/// The quoted names of the features from index `i` on whose bit is in
/// `bits`, separated by commas; `first` says whether none came before.
pub open spec fn listed(bits: u32, i: int, first: bool) -> Seq<char>
    decreases 3 - i,
{
    if i >= 3 || i < 0 {
        Seq::empty()
    } else if bits & (1u32 << (i as u32)) != 0 {
        (if first {
            Seq::empty()
        } else {
            ", "@
        }) + "`"@ + feature_name(feature_at(i)) + "`"@ + listed(bits, i + 1, false)
    } else {
        listed(bits, i + 1, first)
    }
}

/// How a feature set is shown: the names of its features in brackets.
pub open spec fn features_text(bits: u32) -> Seq<char> {
    "["@ + listed(bits, 0, true) + "]"@
}

impl Features {
    /// The set as it is shown to the user; see `features_text`.
    pub fn to_string(&self) -> (r: String)
        ensures
            r@ == features_text(self.view_bits()),
    {
        let ids = FeatureId::iter();
        let mut out = String::new();
        out.append("[");
        let mut first = true;
        let mut i: usize = 0;
        while i < 3
            invariant
                ids@ == seq![FeatureId::MenuFps, FeatureId::GameFps, FeatureId::MotionSmoothing],
                0 <= i <= 3,
                out@ + listed(self.view_bits(), i as int, first) == "["@ + listed(self.view_bits(), 0, true),
            decreases 3 - i,
        {
            let f = ids[i];
            let ghost before = out@;
            let ghost first0 = first;
            assert(f == feature_at(i as int));
            if self.intersects(f.as_flag()) {
                if !first {
                    out.append(", ");
                }
                out.append("`");
                out.append(f.name());
                out.append("`");
                first = false;
            }
            assert(out@ + listed(self.view_bits(), i + 1, first) =~= before + listed(self.view_bits(), i as int, first0));
            i += 1;
        }
        out.append("]");
        assert(out@ =~= features_text(self.view_bits()));
        out
    }
}

/// The masks `set_relaxed` combines a flag set with: the new bits are the
/// old bits kept by the first mask, plus the bits of the second. Enabling
/// gives `(!bits, bits)`, which adds the bits; disabling gives
/// `(u32::MAX, 0)`, which changes nothing.
pub fn set_masks(x: Features, enable: bool) -> (r: (u32, u32))
    ensures
        enable ==> r.0 == !x.view_bits() && r.1 == x.view_bits(),
        !enable ==> r.0 == u32::MAX && r.1 == 0,
        forall|old: u32| #![trigger (old & r.0) | r.1] (old & r.0) | r.1 == old | r.1,
{
    let e: u32 = if enable {
        1
    } else {
        0
    };
    let bits = x.bits();
    let load_mask = !(bits & !e.wrapping_sub(1));
    let store_bits = bits & (!e).wrapping_add(1);
    proof {
        let l1 = e.wrapping_sub(1);
        let s1 = (!e).wrapping_add(1);
        assert(!1u32 == 0xffff_fffeu32 && !0u32 == 0xffff_ffffu32) by (bit_vector);
        if enable {
            assert(l1 == 0 && s1 == u32::MAX);
            assert(!(bits & !0u32) == !bits && bits & 0xffff_ffffu32 == bits) by (bit_vector);
        } else {
            assert(l1 == u32::MAX && !e == u32::MAX && s1 == 0);
            assert(!(bits & !0xffff_ffffu32) == 0xffff_ffffu32 && bits & 0u32 == 0) by (bit_vector);
        }
        assert forall|old: u32| #![trigger (old & load_mask) | store_bits] (old & load_mask) | store_bits == old | store_bits by {
            if enable {
                assert((old & !bits) | bits == old | bits) by (bit_vector);
            } else {
                assert((old & 0xffff_ffffu32) | 0u32 == old | 0u32) by (bit_vector);
            }
        }
    }
    (load_mask, store_bits)
}

/// A feature set shared between threads. Its contents can change at any
/// time, so nothing is known of what a load returns.
pub struct AtomicFeatures(AtomicU32);

impl AtomicFeatures {
    /// A shared set holding every feature.
    pub fn all() -> Self {
        Self(AtomicU32::new(ALL_BITS))
    }

    /// The current set.
    pub fn load_relaxed(&self) -> Features {
        Features::from_bits_retain(self.0.load(Ordering::Relaxed))
    }

    /// Replaces the set with `x`.
    pub fn store_relaxed(&self, x: Features) {
        self.0.store(x.bits(), Ordering::Relaxed);
    }

    /// Combines the set with the masks of `set_masks` in one atomic step:
    /// enabling adds the bits of `x`, disabling leaves the set as it is.
    pub fn set_relaxed(&self, x: Features, enable: bool) {
        let (_, store_bits) = set_masks(x, enable);
        self.0.fetch_or(store_bits, Ordering::Relaxed);
    }

    /// Removes the bits of `x` in one atomic step.
    pub fn remove_relaxed(&self, x: Features) {
        self.0.fetch_and(!x.bits(), Ordering::Relaxed);
    }

    /// Whether motion smoothing is currently enabled.
    pub fn motion_smoothing(&self) -> bool {
        self.load_relaxed().intersects(Features::motion_smoothing())
    }

    /// Whether either frame rate feature is currently enabled.
    pub fn fps(&self) -> bool {
        self.load_relaxed().intersects(Features::fps())
    }
}

} // verus!
