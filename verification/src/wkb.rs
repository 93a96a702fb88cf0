//! WKB / EWKB linestring decoding, straight to canonical coordinates.
//!
//! The decoder accepts both byte orders, base geometry types LineString and
//! MultiLineString (first member only), EWKB Z/M/SRID flags and ISO type
//! offsets. Only X and Y are kept. Every decoded coordinate is
//! canonicalized to the 1e-7 degree grid; a geometry whose coordinates are
//! not finite in-range numbers, or that has fewer than two points, decodes
//! to nothing and its row is skipped by the caller.

use crate::coord::Coord;
use crate::rounding::canon_spec;
use vstd::prelude::*;

verus! {

/// A 32-bit integer read from four bytes in the given order.
pub open spec fn rd_u32_spec(b: Seq<u8>, off: int, le: bool) -> u32 {
    if le {
        (b[off] + 256 * (b[off + 1] + 256 * (b[off + 2] + 256 * b[off + 3]))) as u32
    } else {
        (b[off + 3] + 256 * (b[off + 2] + 256 * (b[off + 1] + 256 * b[off]))) as u32
    }
}

/// A 64-bit integer read from eight bytes in the given order.
pub open spec fn rd_u64_spec(b: Seq<u8>, off: int, le: bool) -> u64 {
    if le {
        (b[off] + 256 * (b[off + 1] + 256 * (b[off + 2] + 256 * (b[off + 3] + 256 * (b[off + 4]
            + 256 * (b[off + 5] + 256 * (b[off + 6] + 256 * b[off + 7]))))))) as u64
    } else {
        (b[off + 7] + 256 * (b[off + 6] + 256 * (b[off + 5] + 256 * (b[off + 4] + 256 * (b[off + 3]
            + 256 * (b[off + 2] + 256 * (b[off + 1] + 256 * b[off]))))))) as u64
    }
}

fn rd_u32(b: &Vec<u8>, off: usize, le: bool) -> (r: u32)
    requires
        off + 4 <= b@.len(),
    ensures
        r == rd_u32_spec(b@, off as int, le),
{
    let l = b.len();
    let b0 = b[off] as u32;
    let b1 = b[off + 1] as u32;
    let b2 = b[off + 2] as u32;
    let b3 = b[off + 3] as u32;
    if le {
        b0 + 256 * (b1 + 256 * (b2 + 256 * b3))
    } else {
        b3 + 256 * (b2 + 256 * (b1 + 256 * b0))
    }
}

fn rd_u64(b: &Vec<u8>, off: usize, le: bool) -> (r: u64)
    requires
        off + 8 <= b@.len(),
    ensures
        r == rd_u64_spec(b@, off as int, le),
{
    let l = b.len();
    let b0 = b[off] as u64;
    let b1 = b[off + 1] as u64;
    let b2 = b[off + 2] as u64;
    let b3 = b[off + 3] as u64;
    let b4 = b[off + 4] as u64;
    let b5 = b[off + 5] as u64;
    let b6 = b[off + 6] as u64;
    let b7 = b[off + 7] as u64;
    if le {
        b0 + 256 * (b1 + 256 * (b2 + 256 * (b3 + 256 * (b4 + 256 * (b5 + 256 * (b6 + 256 * b7))))))
    } else {
        b7 + 256 * (b6 + 256 * (b5 + 256 * (b4 + 256 * (b3 + 256 * (b2 + 256 * (b1 + 256 * b0))))))
    }
}

/// The canonical coordinate encoded at point `i` of a point run starting at
/// `off + 4`, when both components are finite and in range.
pub open spec fn point_coord(b: Seq<u8>, off: int, le: bool, csize: int, i: int) -> Option<Coord> {
    let base = off + 4 + i * csize;
    let lon = canon_spec(rd_u64_spec(b, base, le));
    let lat = canon_spec(rd_u64_spec(b, base + 8, le));
    if lon is Some && lat is Some && -900_000_000 <= lat->0 <= 900_000_000 {
        Option::Some(Coord { lon7: lon->0, lat7: lat->0 })
    } else {
        Option::None
    }
}

/// The linestring body at `off`: a point count and that many points of
/// `csize` bytes each. It decodes when the buffer is long enough, there are
/// at least two points, and every coordinate canonicalizes.
pub open spec fn linestring_spec(b: Seq<u8>, off: int, le: bool, csize: int) -> Option<Seq<Coord>> {
    if off + 4 > b.len() {
        Option::None
    } else {
        let n = rd_u32_spec(b, off, le) as int;
        if b.len() < off + 4 + n * csize {
            Option::None
        } else if n < 2 {
            Option::None
        } else if forall|i: int| 0 <= i < n ==> (#[trigger] point_coord(b, off, le, csize, i)) is Some {
            Option::Some(Seq::new(n as nat, |i: int| point_coord(b, off, le, csize, i)->0))
        } else {
            Option::None
        }
    }
}

/// The Z flag of a geometry type word: EWKB high bit or ISO offset.
pub open spec fn type_has_z(t: u32) -> bool {
    (t & 0x8000_0000) != 0 || ((t & 0x1FFF_FFFF) / 1000 == 1 || (t & 0x1FFF_FFFF) / 1000 == 3)
}

/// The M flag of a geometry type word: EWKB bit or ISO offset.
pub open spec fn type_has_m(t: u32) -> bool {
    (t & 0x4000_0000) != 0 || ((t & 0x1FFF_FFFF) / 1000 == 2 || (t & 0x1FFF_FFFF) / 1000 == 3)
}

/// The point size a geometry type word implies.
pub open spec fn type_coord_size(t: u32) -> int {
    16 + (if type_has_z(t) {
        8int
    } else {
        0int
    }) + (if type_has_m(t) {
        8int
    } else {
        0int
    })
}

/// The whole WKB buffer decoded to a canonical linestring: a LineString
/// directly, or the first member of a MultiLineString.
pub open spec fn parse_wkb_spec(b: Seq<u8>) -> Option<Seq<Coord>> {
    if b.len() < 9 {
        Option::None
    } else if b[0] > 1 {
        Option::None
    } else {
        let le = b[0] == 1;
        let t = rd_u32_spec(b, 1, le);
        let base_type = (t & 0x1FFF_FFFF) % 1000;
        let off = if (t & 0x2000_0000) != 0 {
            9int
        } else {
            5int
        };
        if base_type == 2 {
            linestring_spec(b, off, le, type_coord_size(t))
        } else if base_type == 5 {
            multilinestring_spec(b, le)
        } else {
            Option::None
        }
    }
}

/// The first member of a MultiLineString body: its member count sits right
/// after the header, and the member must itself be a LineString.
pub open spec fn multilinestring_spec(b: Seq<u8>, le: bool) -> Option<Seq<Coord>> {
    let num_geoms = rd_u32_spec(b, 5, le);
    if num_geoms == 0 {
        Option::None
    } else if b.len() < 14 {
        Option::None
    } else if b[9] > 1 {
        Option::None
    } else {
        let ile = b[9] == 1;
        let t = rd_u32_spec(b, 10, ile);
        if (t & 0x1FFF_FFFF) % 1000 != 2 {
            Option::None
        } else {
            let ioff = if (t & 0x2000_0000) != 0 {
                18int
            } else {
                14int
            };
            linestring_spec(b, ioff, ile, type_coord_size(t))
        }
    }
}

/// Decode the linestring body at `off`.
fn parse_linestring(b: &Vec<u8>, off: usize, le: bool, csize: usize) -> (r: Option<Vec<Coord>>)
    requires
        16 <= csize <= 32,
    ensures
        match r {
            Option::Some(v) => linestring_spec(b@, off as int, le, csize as int)
                == Option::Some(v@) && v@.len() >= 2 && forall|i: int|
                0 <= i < v@.len() ==> (#[trigger] v@[i]).wf(),
            Option::None => linestring_spec(b@, off as int, le, csize as int) is None,
        },
{
    if off > b.len() || b.len() - off < 4 {
        return Option::None;
    }
    let n32 = rd_u32(b, off, le);
    let n = n32 as usize;
    let avail: usize = b.len() - off - 4;
    if n > avail / csize {
        proof {
            vstd::arithmetic::div_mod::lemma_fundamental_div_mod(avail as int, csize as int);
            assert((n as int) * (csize as int) >= ((avail as int) / (csize as int) + 1) * (
            csize as int)) by (nonlinear_arith)
                requires
                    n as int >= (avail as int) / (csize as int) + 1,
                    csize as int > 0,
            ;
            let q = (avail as int) / (csize as int);
            assert((q + 1) * (csize as int) == q * (csize as int) + csize && q * (csize as int)
                == (csize as int) * q) by (nonlinear_arith);
            assert(b@.len() < off + 4 + (n as int) * (csize as int));
        }
        return Option::None;
    }
    proof {
        vstd::arithmetic::div_mod::lemma_fundamental_div_mod(avail as int, csize as int);
        assert((n as int) * (csize as int) <= ((avail as int) / (csize as int)) * (csize as int))
            by (nonlinear_arith)
            requires
                0 <= n as int <= (avail as int) / (csize as int),
                csize as int > 0,
        ;
        let q = (avail as int) / (csize as int);
        assert(q * (csize as int) == (csize as int) * q) by (nonlinear_arith);
        assert(q * (csize as int) <= avail as int);
    }
    if n < 2 {
        return Option::None;
    }
    let mut out: Vec<Coord> = Vec::new();
    let mut i: usize = 0;
    while i < n
        invariant
            i <= n,
            16 <= csize <= 32,
            off + 4 <= b@.len(),
            b@.len() <= usize::MAX,
            (n as int) * (csize as int) <= b@.len() - off - 4,
            n as int == rd_u32_spec(b@, off as int, le) as int,
            2 <= n,
            out@.len() == i,
            forall|k: int|
                0 <= k < i ==> (#[trigger] point_coord(b@, off as int, le, csize as int, k)) is Some
                    && out@[k] == point_coord(b@, off as int, le, csize as int, k)->0,
            forall|k: int| 0 <= k < i ==> (#[trigger] out@[k]).wf(),
        decreases n - i,
    {
        proof {
            assert((i as int) * (csize as int) + csize <= (n as int) * (csize as int)) by (
            nonlinear_arith)
                requires
                    i < n,
                    csize >= 0,
            ;
            assert((i as int) * (csize as int) >= 0) by (nonlinear_arith)
                requires
                    i >= 0 && csize >= 0,
            ;
        }
        let base = off + 4 + i * csize;
        let lon_bits = rd_u64(b, base, le);
        let lat_bits = rd_u64(b, base + 8, le);
        let lon = crate::rounding::canon7_from_bits(lon_bits);
        let lat = crate::rounding::canon7_from_bits(lat_bits);
        match (lon, lat) {
            (Option::Some(lo), Option::Some(la)) => {
                if la < -900_000_000 || la > 900_000_000 {
                    proof {
                        assert(point_coord(b@, off as int, le, csize as int, i as int) is None);
                        assert(linestring_spec(b@, off as int, le, csize as int) is None) by {
                            if forall|k: int|
                                0 <= k < rd_u32_spec(b@, off as int, le) as int ==> (
                                #[trigger] point_coord(b@, off as int, le, csize as int, k)) is Some {
                                assert(point_coord(b@, off as int, le, csize as int, i as int) is Some);
                            }
                        }
                    }
                    return Option::None;
                }
                proof {
                    crate::rounding::lemma_canon_range(lon_bits);
                }
                out.push(Coord { lon7: lo, lat7: la });
            },
            _ => {
                proof {
                    assert(point_coord(b@, off as int, le, csize as int, i as int) is None);
                    assert(linestring_spec(b@, off as int, le, csize as int) is None) by {
                        if forall|k: int|
                            0 <= k < rd_u32_spec(b@, off as int, le) as int ==> (
                            #[trigger] point_coord(b@, off as int, le, csize as int, k)) is Some {
                            assert(point_coord(b@, off as int, le, csize as int, i as int) is Some);
                        }
                    }
                }
                return Option::None;
            },
        }
        i = i + 1;
    }
    proof {
        assert(out@ =~= Seq::new(n as nat, |k: int| point_coord(b@, off as int, le, csize as int, k)->0));
    }
    Option::Some(out)
}

/// Decode a WKB or EWKB buffer to a canonical linestring.
///
/// Beyond the malformed inputs the format itself rules out (a short
/// buffer, a byte-order byte above one, a base type that is neither
/// LineString nor MultiLineString, declared points past the end of the
/// buffer, an empty MultiLineString), decoding also fails for geometries
/// with fewer than two points and for coordinates that are not finite
/// numbers within the longitude/latitude range: the verified pipeline
/// never panics where such a row would have crashed downstream, and the
/// canonical grid is defined only for finite in-range values.
pub fn parse_wkb(b: &Vec<u8>) -> (r: Option<Vec<Coord>>)
    ensures
        match r {
            Option::Some(v) => parse_wkb_spec(b@) == Option::Some(v@) && v@.len() >= 2 && forall|
                i: int,
            |
                0 <= i < v@.len() ==> (#[trigger] v@[i]).wf(),
            Option::None => parse_wkb_spec(b@) is None,
        },
{
    if b.len() < 9 {
        return Option::None;
    }
    if b[0] > 1 {
        return Option::None;
    }
    let le = b[0] == 1;
    let t = rd_u32(b, 1, le);
    let base_type = (t & 0x1FFF_FFFF) % 1000;
    let has_srid = (t & 0x2000_0000) != 0;
    let off: usize = if has_srid {
        9
    } else {
        5
    };
    let has_z = (t & 0x8000_0000) != 0 || ((t & 0x1FFF_FFFF) / 1000 == 1 || (t & 0x1FFF_FFFF)
        / 1000 == 3);
    let has_m = (t & 0x4000_0000) != 0 || ((t & 0x1FFF_FFFF) / 1000 == 2 || (t & 0x1FFF_FFFF)
        / 1000 == 3);
    let csize: usize = 16 + (if has_z {
        8
    } else {
        0
    }) + (if has_m {
        8
    } else {
        0
    });
    proof {
        assert(has_z == type_has_z(t));
        assert(has_m == type_has_m(t));
        assert(csize as int == type_coord_size(t));
    }
    if base_type == 2 {
        parse_linestring(b, off, le, csize)
    } else if base_type == 5 {
        parse_multilinestring(b, le)
    } else {
        Option::None
    }
}

/// Decode the first member of a MultiLineString.
fn parse_multilinestring(b: &Vec<u8>, le: bool) -> (r: Option<Vec<Coord>>)
    requires
        b@.len() >= 9,
    ensures
        match r {
            Option::Some(v) => multilinestring_spec(b@, le) == Option::Some(v@) && v@.len() >= 2
                && forall|i: int| 0 <= i < v@.len() ==> (#[trigger] v@[i]).wf(),
            Option::None => multilinestring_spec(b@, le) is None,
        },
{
    let num_geoms = rd_u32(b, 5, le);
    if num_geoms == 0 {
        return Option::None;
    }
    if b.len() < 14 {
        return Option::None;
    }
    if b[9] > 1 {
        return Option::None;
    }
    let ile = b[9] == 1;
    let t = rd_u32(b, 10, ile);
    if (t & 0x1FFF_FFFF) % 1000 != 2 {
        return Option::None;
    }
    let has_srid = (t & 0x2000_0000) != 0;
    let ioff: usize = if has_srid {
        18
    } else {
        14
    };
    let has_z = (t & 0x8000_0000) != 0 || ((t & 0x1FFF_FFFF) / 1000 == 1 || (t & 0x1FFF_FFFF)
        / 1000 == 3);
    let has_m = (t & 0x4000_0000) != 0 || ((t & 0x1FFF_FFFF) / 1000 == 2 || (t & 0x1FFF_FFFF)
        / 1000 == 3);
    let csize: usize = 16 + (if has_z {
        8
    } else {
        0
    }) + (if has_m {
        8
    } else {
        0
    });
    proof {
        assert(csize as int == type_coord_size(t));
    }
    parse_linestring(b, ioff, ile, csize)
}

} // verus!
