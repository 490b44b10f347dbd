//! Normalized five-key modifier snapshot and its compact bitmask encoding.

use vstd::prelude::*;

verus! {

/// State of the five modifier keys (ctrl, opt, shift, cmd, fn) captured at
/// the moment an OS delivers a non-modifier key event.
#[derive(Clone, Copy, PartialEq, Eq, Structural, Debug)]
pub struct ModifierSnapshot {
    pub ctrl: bool,
    pub opt: bool,
    pub shift: bool,
    pub cmd: bool,
    pub function: bool,
}

impl ModifierSnapshot {
    /// True when at least one modifier is held.
    pub open spec fn spec_has_any(self) -> bool {
        self.ctrl || self.opt || self.shift || self.cmd || self.function
    }

    pub fn has_any(&self) -> (r: bool)
        ensures
            r == self.spec_has_any(),
    {
        self.ctrl || self.opt || self.shift || self.cmd || self.function
    }

    /// True when one of the two modifiers that anchor a shortcut is held.
    pub open spec fn spec_has_shortcut_modifier(self) -> bool {
        self.ctrl || self.cmd
    }

    pub fn has_shortcut_modifier(&self) -> (r: bool)
        ensures
            r == self.spec_has_shortcut_modifier(),
    {
        self.ctrl || self.cmd
    }

    /// Compact encoding: bit 0 ctrl, bit 1 opt, bit 2 shift, bit 3 cmd, bit 4 fn.
    pub open spec fn spec_bitmask(self) -> u8 {
        ((if self.ctrl { 1int } else { 0 }) + (if self.opt { 2int } else { 0 }) + (if self.shift {
            4int
        } else {
            0
        }) + (if self.cmd { 8int } else { 0 }) + (if self.function { 16int } else { 0 })) as u8
    }

    pub fn bitmask(&self) -> (r: u8)
        ensures
            r == self.spec_bitmask(),
            r <= 31,
    {
        let mut mask: u8 = 0;
        if self.ctrl {
            mask = mask + 1;
        }
        if self.opt {
            mask = mask + 2;
        }
        if self.shift {
            mask = mask + 4;
        }
        if self.cmd {
            mask = mask + 8;
        }
        if self.function {
            mask = mask + 16;
        }
        mask
    }

    /// Decoding of a persisted bitmask; bits above bit 4 are ignored.
    pub open spec fn spec_from_bitmask(mask: u8) -> ModifierSnapshot {
        ModifierSnapshot {
            ctrl: mask as int % 2 == 1,
            opt: mask as int / 2 % 2 == 1,
            shift: mask as int / 4 % 2 == 1,
            cmd: mask as int / 8 % 2 == 1,
            function: mask as int / 16 % 2 == 1,
        }
    }

    pub fn from_bitmask(mask: u8) -> (r: ModifierSnapshot)
        ensures
            r == Self::spec_from_bitmask(mask),
    {
        ModifierSnapshot {
            ctrl: mask % 2 == 1,
            opt: mask / 2 % 2 == 1,
            shift: mask / 4 % 2 == 1,
            cmd: mask / 8 % 2 == 1,
            function: mask / 16 % 2 == 1,
        }
    }

    /// Number of modifiers held, between 0 and 5.
    pub open spec fn spec_modifier_count(self) -> u8 {
        ((if self.ctrl { 1int } else { 0 }) + (if self.opt { 1int } else { 0 }) + (if self.shift {
            1int
        } else {
            0
        }) + (if self.cmd { 1int } else { 0 }) + (if self.function { 1int } else { 0 })) as u8
    }

    pub fn modifier_count(&self) -> (r: u8)
        ensures
            r == self.spec_modifier_count(),
            r <= 5,
    {
        let mut count: u8 = 0;
        if self.ctrl {
            count = count + 1;
        }
        if self.opt {
            count = count + 1;
        }
        if self.shift {
            count = count + 1;
        }
        if self.cmd {
            count = count + 1;
        }
        if self.function {
            count = count + 1;
        }
        count
    }
}

impl Default for ModifierSnapshot {
    /// The empty snapshot: no modifier held.
    fn default() -> (r: Self)
        ensures
            r == (ModifierSnapshot {
                ctrl: false,
                opt: false,
                shift: false,
                cmd: false,
                function: false,
            }),
    {
        ModifierSnapshot { ctrl: false, opt: false, shift: false, cmd: false, function: false }
    }
}

/// Encoding a snapshot to its bitmask and decoding it back yields the
/// same snapshot, for every snapshot.
pub proof fn lemma_bitmask_round_trip(s: ModifierSnapshot)
    ensures
        ModifierSnapshot::spec_from_bitmask(s.spec_bitmask()) == s,
{
}

} // verus!
