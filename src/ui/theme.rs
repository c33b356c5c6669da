use vstd::prelude::*;

verus! {

pub const MAIN_COLOR: u32 = 0xB49478;

pub const RIM_DARK: u32 = 0x7C5844;

pub const RIM_LIGHT: u32 = 0xE8E8C8;

pub const STATUS_TEXT: u32 = 0xFCFC54;

pub const GENERIC_TEXT: u32 = 0x449848;

pub const DISABLED_TEXT: u32 = 0x4C0C18;

pub const ATTENTION_TEXT: u32 = 0xB00054;

pub const INFO_TEXT: u32 = 0xA0A0A0;

pub const MONITOR_GRAPH: u32 = 0x8C1454;

} // verus!
