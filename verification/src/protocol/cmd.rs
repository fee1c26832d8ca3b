//! Vendor command bytes (`payload[0]` of an output report). Kept as a
//! complete reference of the known command set even though only a subset
//! is wired up to the command line.
use vstd::prelude::*;

verus! {

pub const SET_ONE_KEY: u8 = 0x03;

pub const SET_ALL_LIVE: u8 = 0x50;

pub const SET_DEFAULT_COLOR: u8 = 0x51;

pub const ALL_OFF: u8 = 0x52;

pub const CLEAR_KEY_OVERRIDE: u8 = 0x83;

pub const LOAD_DEFAULT: u8 = 0x40;

pub const SET_MODE: u8 = 0x06;

pub const GET_MODE_BRIGHTNESS: u8 = 0x86;

pub const SET_PERKEY_EFFECT_CFG: u8 = 0x0A;

pub const SET_EFFECT_PROGRAM: u8 = 0x0B;

pub const SET_COLOR_GROUP: u8 = 0x0E;

pub const SET_COLOR_FREE: u8 = 0x0C;

pub const SAVE_FLASH: u8 = 0x09;

pub const SHOW: u8 = 0x0D;

pub const GET_DEVICE_ID: u8 = 0x10;

pub const GET_DEVICE_ID_ALT: u8 = 0x80;

pub const GET_FW_CRC: u8 = 0x15;

pub const GET_STATUS: u8 = 0x22;

pub const RESET: u8 = 0xF1;

pub const ON_OFF_FLAG: u8 = 0xFD;

} // verus!
