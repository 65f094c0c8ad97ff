//! Recorded velocity components: the stationary form and cube-face direction codes
//! with logarithmic magnitude codes.
use super::bits::{read_spec, Bits};
use super::types::Velocity;
use vstd::prelude::*;

verus! {

/// The cell of a direction code: six cube faces of 87 381 codes each, every face a
/// grid of 294-code rows of which the first 293 rows and columns are used. Unused
/// codes have no direction.
pub open spec fn direction_spec(code: u32) -> Option<(u8, u16, u16)> {
    let face = code / 87_381;
    let u = (code % 87_381) / 294;
    let v = (code % 87_381) % 294;
    if face >= 6 || u >= 293 || v >= 293 {
        None
    } else {
        Some((face as u8, u as u16, v as u16))
    }
}

/// The face and grid cell of a direction code; the unit vector is the cell's
/// midpoint on the cube, normalised.
pub fn direction(code: u32) -> (r: Option<(u8, u16, u16)>)
    ensures
        r == direction_spec(code),
{
    let face = code / 87_381;
    let remainder = code % 87_381;
    let u = remainder / 294;
    let v = remainder % 294;
    if face >= 6 || u >= 293 || v >= 293 {
        return None;
    }
    Some((face as u8, u as u16, v as u16))
}

/// The long velocity form at `o`: `01` for stationary (two bits), or `00`, a 19-bit
/// direction code and a ten-bit magnitude code (31 bits); an unused direction code
/// keeps its length but yields no velocity.
pub open spec fn read_velocity_spec(p: Seq<u8>, o: int) -> Option<(Option<Velocity>, int)> {
    match read_spec(p, o, 2) {
        Some(form) => if form == 1 {
            Some((Some(Velocity::Stationary), o + 2))
        } else if form == 0 {
            match (read_spec(p, o + 2, 19), read_spec(p, o + 21, 10)) {
                (Some(d), Some(m)) => Some(
                    (
                        if direction_spec(d as u32) is Some {
                            Some(Velocity::Directed { direction_code: d as u32, magnitude_code: m as u16 })
                        } else {
                            None
                        },
                        o + 31,
                    ),
                ),
                _ => None,
            }
        } else {
            None
        },
        None => None,
    }
}

pub fn read(bits: Bits, o: usize) -> (r: Option<(Option<Velocity>, usize)>)
    ensures
        match read_velocity_spec(bits@, o as int) {
            Some((v, end)) => r == Some((v, end as usize)),
            None => r is None,
        },
{
    let form = match bits.read(o, 2) {
        Some(f) => f,
        None => return None,
    };
    if form == 1 {
        return Some((Some(Velocity::Stationary), o + 2));
    }
    if form != 0 {
        return None;
    }
    let d = match bits.read(o + 2, 19) {
        Some(v) => v,
        None => return None,
    };
    let m = match bits.read(o + 21, 10) {
        Some(v) => v,
        None => return None,
    };
    let value = match direction(d as u32) {
        Some(_) => Some(Velocity::Directed { direction_code: d as u32, magnitude_code: m as u16 }),
        None => None,
    };
    Some((value, o + 31))
}

/// The fixed-precision projectile form at `o`: a set bit for stationary (one bit),
/// or a zero bit, a used 19-bit direction code and a ten-bit magnitude code (30 bits).
pub open spec fn packed_spec(p: Seq<u8>, o: int) -> Option<(Velocity, int)> {
    match read_spec(p, o, 1) {
        Some(flag) => if flag == 1 {
            Some((Velocity::Stationary, o + 1))
        } else {
            match (read_spec(p, o + 1, 19), read_spec(p, o + 20, 10)) {
                (Some(d), Some(m)) => if direction_spec(d as u32) is Some {
                    Some((Velocity::Directed { direction_code: d as u32, magnitude_code: m as u16 }, o + 30))
                } else {
                    None
                },
                _ => None,
            }
        },
        None => None,
    }
}

pub fn packed(bits: Bits, o: usize) -> (r: Option<(Velocity, usize)>)
    ensures
        match packed_spec(bits@, o as int) {
            Some((v, end)) => r == Some((v, end as usize)),
            None => r is None,
        },
{
    let flag = match bits.read(o, 1) {
        Some(f) => f,
        None => return None,
    };
    if flag == 1 {
        return Some((Velocity::Stationary, o + 1));
    }
    let d = match bits.read(o + 1, 19) {
        Some(v) => v,
        None => return None,
    };
    if direction(d as u32).is_none() {
        return None;
    }
    let m = match bits.read(o + 20, 10) {
        Some(v) => v,
        None => return None,
    };
    Some((Velocity::Directed { direction_code: d as u32, magnitude_code: m as u16 }, o + 30))
}

} // verus!
