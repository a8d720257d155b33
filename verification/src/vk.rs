//! Virtual key codes of the keys that the panels react to.

use vstd::prelude::*;

verus! {

pub const VK_BACK: u32 = 0x08;

pub const VK_RETURN: u32 = 0x0D;

pub const VK_SHIFT: u32 = 0x10;

pub const VK_CONTROL: u32 = 0x11;

/// The Alt key.
pub const VK_MENU: u32 = 0x12;

pub const VK_ESCAPE: u32 = 0x1B;

pub const VK_LEFT: u32 = 0x25;

pub const VK_UP: u32 = 0x26;

pub const VK_RIGHT: u32 = 0x27;

pub const VK_DOWN: u32 = 0x28;

pub const VK_DELETE: u32 = 0x2E;

pub const VK_LWIN: u32 = 0x5B;

pub const VK_RWIN: u32 = 0x5C;

/// Is the key a modifier, which makes no chord alone?
pub open spec fn modifier_key(vk: u32) -> bool {
    vk == VK_SHIFT || vk == VK_CONTROL || vk == VK_MENU || vk == VK_LWIN || vk == VK_RWIN
}

pub fn is_modifier(vk: u32) -> (r: bool)
    ensures
        r == modifier_key(vk),
{
    vk == VK_SHIFT || vk == VK_CONTROL || vk == VK_MENU || vk == VK_LWIN || vk == VK_RWIN
}

} // verus!
