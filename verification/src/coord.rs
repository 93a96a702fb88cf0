//! Canonical coordinates and the 64-bit coordinate hash.
//!
//! Every coordinate in the pipeline is canonicalized to the 1e-7 degree
//! grid, so it is stored exactly as a pair of integers: degrees times ten
//! million. The coordinate hash packs latitude and longitude (as signed
//! 32-bit truncations) into one `u64`; on canonical coordinates the packing
//! is injective, which is what node sharing in the emission plan relies on.

use vstd::prelude::*;

verus! {

/// Largest canonical longitude magnitude: 180 degrees in 1e-7 degree units.
pub const LON7_MAX: i64 = 1_800_000_000;

/// Largest canonical latitude magnitude: 90 degrees in 1e-7 degree units.
pub const LAT7_MAX: i64 = 900_000_000;

/// A WGS84 coordinate on the canonical 1e-7 degree grid.
/// `lon7` and `lat7` are degrees times ten million.
#[derive(Clone, Copy, PartialEq, Eq, Structural, Debug)]
pub struct Coord {
    pub lon7: i64,
    pub lat7: i64,
}

impl Coord {
    /// The range every canonicalized coordinate lies in.
    pub open spec fn wf(self) -> bool {
        &&& -LON7_MAX <= self.lon7 <= LON7_MAX
        &&& -LAT7_MAX <= self.lat7 <= LAT7_MAX
    }
}

/// A signed value mapped onto its unsigned 32-bit representation.
pub open spec fn wrap32(x: int) -> int {
    if 0 <= x {
        x
    } else {
        x + 0x1_0000_0000
    }
}

/// The hash value of a canonical coordinate: latitude in the upper 32 bits,
/// longitude in the lower 32, both as their unsigned 32-bit representations.
pub open spec fn hash_of(c: Coord) -> int {
    wrap32(c.lat7 as int) * 0x1_0000_0000 + wrap32(c.lon7 as int)
}

/// Hash a coordinate to a `u64` map key.
pub fn hash_coord(c: &Coord) -> (r: u64)
    requires
        c.wf(),
    ensures
        r as int == hash_of(*c),
{
    let lat: i64 = c.lat7;
    let lon: i64 = c.lon7;
    let lat32: i32 = lat as i32;
    let lon32: i32 = lon as i32;
    assert(lat32 == lat && lon32 == lon) by (bit_vector)
        requires
            -1_800_000_000 <= lat <= 1_800_000_000 && -1_800_000_000 <= lon <= 1_800_000_000
                && lat32 == lat as i32 && lon32 == lon as i32,
    ;
    let lat_u: u64 = lat32 as u32 as u64;
    let lon_u: u64 = lon32 as u32 as u64;
    assert(lat_u == wrap32(lat32 as int) && lon_u == wrap32(lon32 as int)) by (bit_vector)
        requires
            lat_u == lat32 as u32 as u64 && lon_u == lon32 as u32 as u64,
    ;
    lat_u * 0x1_0000_0000u64 + lon_u
}

/// `wrap32` never leaves the unsigned 32-bit range for 32-bit signed inputs.
proof fn lemma_wrap32_range(x: int)
    requires
        -0x8000_0000 <= x < 0x8000_0000,
    ensures
        0 <= wrap32(x) < 0x1_0000_0000,
{
}

/// `wrap32` is injective on 32-bit signed inputs.
proof fn lemma_wrap32_injective(x: int, y: int)
    requires
        -0x8000_0000 <= x < 0x8000_0000,
        -0x8000_0000 <= y < 0x8000_0000,
        wrap32(x) == wrap32(y),
    ensures
        x == y,
{
}

/// Two canonical coordinates share a hash value only when they are the same
/// coordinate: the packing is injective on the canonical range.
pub proof fn lemma_hash_injective(a: Coord, b: Coord)
    requires
        a.wf(),
        b.wf(),
        hash_of(a) == hash_of(b),
    ensures
        a == b,
{
    lemma_wrap32_range(a.lat7 as int);
    lemma_wrap32_range(b.lat7 as int);
    lemma_wrap32_range(a.lon7 as int);
    lemma_wrap32_range(b.lon7 as int);
    let la = wrap32(a.lat7 as int);
    let lb = wrap32(b.lat7 as int);
    let ma = wrap32(a.lon7 as int);
    let mb = wrap32(b.lon7 as int);
    assert(la == lb && ma == mb) by (nonlinear_arith)
        requires
            0 <= la < 0x1_0000_0000,
            0 <= lb < 0x1_0000_0000,
            0 <= ma < 0x1_0000_0000,
            0 <= mb < 0x1_0000_0000,
            la * 0x1_0000_0000 + ma == lb * 0x1_0000_0000 + mb,
    ;
    lemma_wrap32_injective(a.lat7 as int, b.lat7 as int);
    lemma_wrap32_injective(a.lon7 as int, b.lon7 as int);
}

/// Convert a canonical 1e-7 degree value to nanodegrees.
pub fn to_nanodeg(v7: i64) -> (r: i64)
    requires
        -LON7_MAX <= v7 <= LON7_MAX,
    ensures
        r == v7 * 100,
{
    v7 * 100
}

} // verus!
