//! The one-time hook into the game window's message handling.
use vstd::prelude::*;
use core::sync::atomic::{AtomicBool, Ordering};

verus! {

/// Records whether the game window has been hooked. The window may not exist
/// when the library loads, so hooking is attempted on every frame until it
/// succeeds once.
pub struct WindowHook(AtomicBool);

impl WindowHook {
    /// A hook not yet attached.
    pub fn new() -> Self {
        WindowHook(AtomicBool::new(false))
    }

    /// Claims the right to hook the window `hwnd`, where zero means that the
    /// game has no window yet. Gives `false` when there is no window, or when
    /// the hook was already claimed, here or by another thread; `true` to
    /// exactly one caller once there is a window.
    pub fn claim(&self, hwnd: usize) -> (r: bool)
        ensures
            hwnd == 0 ==> !r,
    {
        if self.0.load(Ordering::Relaxed) {
            return false;
        }
        if hwnd == 0 {
            return false;
        }
        self.0.compare_exchange(false, true, Ordering::Relaxed, Ordering::Relaxed).is_ok()
    }
}

} // verus!
