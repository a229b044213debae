//! The global keyboard hook: which key presses it takes for itself.
use vstd::prelude::*;
use crate::snap::{key_of_vk, snap_key_from_vk, SnapKey};

verus! {

/// Virtual-key codes of F11 and F12.
pub const VK_F11: u16 = 0x7A;
pub const VK_F12: u16 = 0x7B;

/// Hook codes below this value must be passed on untouched.
pub const HC_ACTION: i32 = 0;

/// State of the modifier keys when a key goes down.
#[derive(Debug, Clone, Copy, PartialEq, Eq, Structural)]
pub struct Modifiers {
    pub ctrl: bool,
    pub alt: bool,
    pub win: bool,
    pub shift: bool,
}

/// What the hook does with a key event.
#[derive(Debug, Clone, Copy, PartialEq, Eq, Structural)]
pub enum HookDecision {
    /// Hand the event to the next hook.
    PassOn,
    /// Block the key and snap the foreground window (Win+Arrow).
    Snap(SnapKey),
    /// Block the key and move the foreground window to the desktop in this
    /// direction: -1 left (Ctrl+Alt+Win+F11), 1 right (Ctrl+Alt+Win+F12).
    MoveWindow(i32),
}

/// The virtual-key code as the hook reads it from the 32-bit field.
pub open spec fn vk_of(vk_code: u32) -> u16 {
    (vk_code % 0x10000) as u16
}

/// What the hook does with a key event.
pub open spec fn decide(code: i32, injecting: bool, key_down: bool, vk_code: u32, m: Modifiers) -> HookDecision {
    let vk = vk_of(vk_code);
    if code < HC_ACTION || injecting || !key_down {
        HookDecision::PassOn
    } else {
        match key_of_vk(vk) {
            Some(k) => if m.win && !m.ctrl && !m.alt && !m.shift {
                HookDecision::Snap(k)
            } else {
                HookDecision::PassOn
            },
            None => if vk == VK_F11 || vk == VK_F12 {
                if m.ctrl && m.alt && m.win {
                    HookDecision::MoveWindow(if vk == VK_F11 { -1i32 } else { 1i32 })
                } else {
                    HookDecision::PassOn
                }
            } else {
                HookDecision::PassOn
            },
        }
    }
}

/// Classify a low-level keyboard event. Events the application injected
/// itself, events other than key-down and keys other than the arrows, F11 and
/// F12 are passed on. Win+Arrow (without Ctrl, Alt or Shift) snaps the
/// foreground window; Ctrl+Alt+Win+F11/F12 moves it to the desktop on the
/// left/right.
pub fn classify_key_event(code: i32, injecting: bool, key_down: bool, vk_code: u32, m: Modifiers) -> (d: HookDecision)
    ensures
        d == decide(code, injecting, key_down, vk_code, m),
{
    if code < HC_ACTION || injecting || !key_down {
        return HookDecision::PassOn;
    }
    let vk = (vk_code % 0x10000) as u16;
    match snap_key_from_vk(vk) {
        Some(k) => {
            if m.win && !m.ctrl && !m.alt && !m.shift {
                HookDecision::Snap(k)
            } else {
                HookDecision::PassOn
            }
        },
        None => {
            if vk == VK_F11 || vk == VK_F12 {
                if m.ctrl && m.alt && m.win {
                    HookDecision::MoveWindow(if vk == VK_F11 { -1 } else { 1 })
                } else {
                    HookDecision::PassOn
                }
            } else {
                HookDecision::PassOn
            }
        },
    }
}

/// The hook only ever blocks an arrow key held with Win alone, or F11/F12
/// held with Ctrl, Alt and Win; F11 always means left and F12 right.
pub proof fn lemma_hook_blocks_only_hotkeys(code: i32, injecting: bool, key_down: bool, vk_code: u32, m: Modifiers)
    ensures
        decide(code, injecting, key_down, vk_code, m) != HookDecision::PassOn ==> {
            &&& code >= HC_ACTION && !injecting && key_down
            &&& m.win
        },
        decide(code, injecting, key_down, vk_code, m) == HookDecision::MoveWindow(-1i32) ==> vk_of(vk_code) == VK_F11
            && m.ctrl && m.alt,
        decide(code, injecting, key_down, vk_code, m) == HookDecision::MoveWindow(1i32) ==> vk_of(vk_code) == VK_F12
            && m.ctrl && m.alt,
        decide(code, injecting, key_down, vk_code, m) matches HookDecision::Snap(k) ==> key_of_vk(vk_of(vk_code))
            == Some(k) && !m.ctrl && !m.alt && !m.shift,
{
}

/// The hook takes every hotkey: an arrow key (virtual-key codes 0x25 to 0x28:
/// left, up, right, down) pressed with Win alone snaps the foreground window
/// in that direction, and F11/F12 (0x7A/0x7B) pressed with Ctrl, Alt and Win
/// moves it to the desktop on the left/right; this for every key-down event
/// the hook may act on that the application did not inject itself.
pub proof fn lemma_hotkeys_are_taken(code: i32, injecting: bool, vk_code: u32, m: Modifiers)
    requires
        code >= 0,
        !injecting,
    ensures
        m.win && !m.ctrl && !m.alt && !m.shift ==> {
            &&& vk_of(vk_code) == 0x25 ==> decide(code, injecting, true, vk_code, m) == HookDecision::Snap(SnapKey::Left)
            &&& vk_of(vk_code) == 0x26 ==> decide(code, injecting, true, vk_code, m) == HookDecision::Snap(SnapKey::Up)
            &&& vk_of(vk_code) == 0x27 ==> decide(code, injecting, true, vk_code, m) == HookDecision::Snap(SnapKey::Right)
            &&& vk_of(vk_code) == 0x28 ==> decide(code, injecting, true, vk_code, m) == HookDecision::Snap(SnapKey::Down)
        },
        m.ctrl && m.alt && m.win ==> {
            &&& vk_of(vk_code) == 0x7A ==> decide(code, injecting, true, vk_code, m) == HookDecision::MoveWindow(-1i32)
            &&& vk_of(vk_code) == 0x7B ==> decide(code, injecting, true, vk_code, m) == HookDecision::MoveWindow(1i32)
        },
{
}

} // verus!
