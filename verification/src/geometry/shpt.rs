//! Shape codes (the low 8 bits of `gtype`).
use vstd::prelude::*;

verus! {

pub const NULL: u32 = 0;
pub const POINT: u32 = 1;
pub const ARC: u32 = 3;
pub const POLYGON: u32 = 5;
pub const MULTIPOINT: u32 = 8;
pub const POINTZ: u32 = 9;
pub const ARCZ: u32 = 10;
pub const POINTZM: u32 = 11;
pub const ARCZM: u32 = 13;
pub const POLYGONZM: u32 = 15;
pub const MULTIPOINTZM: u32 = 18;
pub const POLYGONZ: u32 = 19;
pub const MULTIPOINTZ: u32 = 20;
pub const POINTM: u32 = 21;
pub const ARCM: u32 = 23;
pub const POLYGONM: u32 = 25;
pub const MULTIPOINTM: u32 = 28;
pub const MULTIPATCHM: u32 = 31;
pub const MULTIPATCH: u32 = 32;
pub const GENERAL_POLYLINE: u32 = 50;
pub const GENERAL_POLYGON: u32 = 51;
pub const GENERAL_POINT: u32 = 52;
pub const GENERAL_MULTIPOINT: u32 = 53;
pub const GENERAL_MULTIPATCH: u32 = 54;

} // verus!
