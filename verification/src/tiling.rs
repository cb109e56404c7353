//! Geodetic tiling: validation of coordinates against the Web-Mercator range,
//! the longitude-to-tile-x transform, clamping, and quadkey encoding.
//!
//! Latitude and longitude are handled as exact integer nano-degrees (see
//! [`crate::model::Loc`]); the one transcendental step of the standard
//! Web-Mercator formula — turning a latitude into an unclamped tile row —
//! involves floating point and is performed by the caller, which passes the
//! floored row in as a plain integer.

use vstd::prelude::*;
use vstd::arithmetic::power2::{pow2, lemma_pow2_unfold, lemma_pow2_pos, lemma2_to64};
use vstd::arithmetic::div_mod::{lemma_div_is_ordered, lemma_div_multiples_vanish};
use vstd::arithmetic::mul::lemma_mul_inequality;
use crate::model::Loc;

verus! {

/// Largest latitude magnitude valid under Web-Mercator, in nano-degrees
/// (85.05112878 degrees).
pub const NANO_LAT_LIMIT: i64 = 85_051_128_780;

/// Largest longitude magnitude, in nano-degrees (180 degrees).
pub const NANO_LON_LIMIT: i64 = 180_000_000_000;

/// Largest zoom level the tile math accepts; keeps every intermediate value
/// inside the machine integers used here.
pub const MAX_ZOOM: u8 = 30;

impl Loc {
    /// The latitude lies in the Web-Mercator-valid range.
    pub open spec fn lat_in_range(&self) -> bool {
        -NANO_LAT_LIMIT <= self.nano_lat <= NANO_LAT_LIMIT
    }

    /// The longitude lies in `[-180, 180]` degrees.
    pub open spec fn lon_in_range(&self) -> bool {
        -NANO_LON_LIMIT <= self.nano_lon <= NANO_LON_LIMIT
    }

    /// Both coordinates lie in the valid range.
    pub open spec fn in_range(&self) -> bool {
        self.lat_in_range() && self.lon_in_range()
    }
}

/// Why a coordinate was rejected by tile resolution.
#[derive(Clone, Copy, Debug, PartialEq, Eq, Structural)]
pub enum GeoError {
    LatitudeOutOfRange,
    LongitudeOutOfRange,
}

/// A tile's position in the pyramid: column, row and zoom level.
#[derive(Clone, Copy, Debug, PartialEq, Eq, Structural)]
pub struct TileCoord {
    pub x: u32,
    pub y: u32,
    pub zoom: u8,
}

impl TileCoord {
    /// Column and row fit the zoom level.
    pub open spec fn wf(&self) -> bool {
        &&& self.zoom <= MAX_ZOOM
        &&& (self.x as nat) < pow2(self.zoom as nat)
        &&& (self.y as nat) < pow2(self.zoom as nat)
    }
}

/// `pow2` does not decrease in the exponent.
pub proof fn lemma_pow2_le(e1: nat, e2: nat)
    requires
        e1 <= e2,
    ensures
        pow2(e1) <= pow2(e2),
{
    if e1 < e2 {
        vstd::arithmetic::power2::lemma_pow2_strictly_increases(e1, e2);
    }
}

/// `2^zoom` as a machine integer.
pub fn pow2_u64(zoom: u8) -> (n: u64)
    requires
        zoom <= 62,
    ensures
        n as nat == pow2(zoom as nat),
{
    let mut n: u64 = 1;
    let mut i: u8 = 0;
    proof {
        lemma2_to64();
    }
    while i < zoom
        invariant
            i <= zoom <= 62,
            n as nat == pow2(i as nat),
        decreases zoom - i,
    {
        proof {
            lemma_pow2_le((i + 1) as nat, 62);
            vstd::arithmetic::power2::lemma2_to64_rest();
            lemma_pow2_unfold((i + 1) as nat);
        }
        n = n * 2;
        i = i + 1;
    }
    n
}

/// The tile column for a longitude: `floor((lon + 180) / 360 * 2^zoom)`,
/// clamped to the valid range of columns.
pub open spec fn spec_tile_x(nano_lon: int, zoom: nat) -> int {
    let raw = (nano_lon + 180_000_000_000) * pow2(zoom) / 360_000_000_000;
    if raw > pow2(zoom) - 1 {
        pow2(zoom) - 1
    } else {
        raw
    }
}

/// Computes the tile column for an in-range longitude, exactly.
pub fn tile_x_for_nano_lon(nano_lon: i64, zoom: u8) -> (x: u32)
    requires
        -NANO_LON_LIMIT <= nano_lon <= NANO_LON_LIMIT,
        zoom <= MAX_ZOOM,
    ensures
        x as int == spec_tile_x(nano_lon as int, zoom as nat),
        (x as nat) < pow2(zoom as nat),
{
    proof {
        lemma2_to64();
        lemma_pow2_le(zoom as nat, 30);
    }
    let n: u64 = pow2_u64(zoom);
    let shifted: u128 = (nano_lon + NANO_LON_LIMIT) as u128;
    proof {
        let s = shifted as int;
        let ni = n as int;
        lemma_mul_inequality(s, 360_000_000_000, ni);
        lemma_div_is_ordered(s * ni, 360_000_000_000 * ni, 360_000_000_000);
        lemma_div_multiples_vanish(ni, 360_000_000_000);
    }
    let q: u128 = shifted * (n as u128) / 360_000_000_000u128;
    if q >= n as u128 {
        (n - 1) as u32
    } else {
        q as u32
    }
}

/// Clamps an unclamped tile row or column to `[0, 2^zoom - 1]`.
pub fn clamp_tile_index(raw: u64, zoom: u8) -> (r: u32)
    requires
        zoom <= MAX_ZOOM,
    ensures
        r as int == if raw as int > pow2(zoom as nat) - 1 { pow2(zoom as nat) - 1 } else { raw as int },
        (r as nat) < pow2(zoom as nat),
{
    proof {
        lemma2_to64();
        lemma_pow2_le(zoom as nat, 30);
        lemma_pow2_pos(zoom as nat);
    }
    let n: u64 = pow2_u64(zoom);
    if raw > n - 1 {
        (n - 1) as u32
    } else {
        raw as u32
    }
}

/// Resolves an in-range coordinate to its tile.
///
/// `mercator_y` is the floored, still unclamped row from the standard
/// spherical Web-Mercator formula `(1 - ln(tan(lat) + 1/cos(lat)) / pi) / 2 *
/// 2^zoom`, which the caller computes (it needs floating point); a negative
/// row is passed as zero. Everything else — range validation, the column, and
/// the clamping of both axes — happens here.
pub fn tile_coord_for_loc(loc: &Loc, zoom: u8, mercator_y: u64) -> (r: Result<
    TileCoord,
    GeoError,
>)
    requires
        zoom <= MAX_ZOOM,
    ensures
        match r {
            Ok(t) => {
                &&& loc.in_range()
                &&& t.zoom == zoom
                &&& t.x as int == spec_tile_x(loc.nano_lon as int, zoom as nat)
                &&& t.y as int == if mercator_y as int > pow2(zoom as nat) - 1 {
                    pow2(zoom as nat) - 1
                } else {
                    mercator_y as int
                }
                &&& t.wf()
            },
            Err(GeoError::LatitudeOutOfRange) => !loc.lat_in_range(),
            Err(GeoError::LongitudeOutOfRange) => loc.lat_in_range() && !loc.lon_in_range(),
        },
{
    if loc.nano_lat < -NANO_LAT_LIMIT || loc.nano_lat > NANO_LAT_LIMIT {
        return Err(GeoError::LatitudeOutOfRange);
    }
    if loc.nano_lon < -NANO_LON_LIMIT || loc.nano_lon > NANO_LON_LIMIT {
        return Err(GeoError::LongitudeOutOfRange);
    }
    let x = tile_x_for_nano_lon(loc.nano_lon, zoom);
    let y = clamp_tile_index(mercator_y, zoom);
    Ok(TileCoord { x, y, zoom })
}

/// A spatial tile's address: the zoom level and the tile coordinate it names.
/// Written out, it is the base-4 digit string of [`tile_coord_to_quadkey`],
/// one digit per zoom level; see [`Quadkey::digits`].
#[derive(Clone, Copy, Debug, PartialEq, Eq, Hash, Structural)]
pub struct Quadkey {
    pub zoom: u8,
    pub x: u32,
    pub y: u32,
}

impl Quadkey {
    /// The coordinate fits the zoom level, and the zoom is one the tile math
    /// accepts.
    pub open spec fn wf(&self) -> bool {
        &&& self.zoom <= MAX_ZOOM
        &&& (self.x as nat) < pow2(self.zoom as nat)
        &&& (self.y as nat) < pow2(self.zoom as nat)
    }

    /// The address of a tile coordinate.
    pub fn from_tile_coord(tile: &TileCoord) -> (q: Quadkey)
        ensures
            q == (Quadkey { zoom: tile.zoom, x: tile.x, y: tile.y }),
    {
        Quadkey { zoom: tile.zoom, x: tile.x, y: tile.y }
    }

    /// The base-4 digit string of this address.
    pub fn digits(&self) -> (r: String)
        requires
            self.zoom <= 32,
        ensures
            r@.len() == self.zoom as nat,
            forall|j: int|
                0 <= j < self.zoom as int ==> r@[j] == qk_char(
                    self.x,
                    self.y,
                    (self.zoom - 1 - j) as u32,
                ),
    {
        tile_coord_to_quadkey(&TileCoord { x: self.x, y: self.y, zoom: self.zoom })
    }

    /// The address packed into a single integer: zoom in the high bits, then
    /// column, then row. Injective on well-formed addresses
    /// ([`lemma_packed_injective`]).
    pub open spec fn spec_packed(&self) -> int {
        self.zoom * 0x1000_0000_0000_0000 + self.x * 0x4000_0000 + self.y
    }

    /// Computes the packed form of the address.
    pub fn packed(&self) -> (k: u128)
        requires
            self.wf(),
        ensures
            k as int == self.spec_packed(),
    {
        (self.zoom as u128) * 0x1000_0000_0000_0000u128 + (self.x as u128) * 0x4000_0000u128
            + (self.y as u128)
    }
}

/// Two well-formed addresses with the same packed form are the same address.
pub proof fn lemma_packed_injective(a: Quadkey, b: Quadkey)
    requires
        a.wf(),
        b.wf(),
        a.spec_packed() == b.spec_packed(),
    ensures
        a == b,
{
    lemma2_to64();
    lemma_pow2_le(a.zoom as nat, 30);
    lemma_pow2_le(b.zoom as nat, 30);
    let za = a.zoom as int;
    let zb = b.zoom as int;
    let ra = a.x * 0x4000_0000 + a.y;
    let rb = b.x * 0x4000_0000 + b.y;
    assert(0 <= ra < 0x1000_0000_0000_0000 && 0 <= rb < 0x1000_0000_0000_0000)
        by (nonlinear_arith)
        requires
            0 <= a.x < 0x4000_0000,
            0 <= a.y < 0x4000_0000,
            0 <= b.x < 0x4000_0000,
            0 <= b.y < 0x4000_0000,
            ra == a.x * 0x4000_0000 + a.y,
            rb == b.x * 0x4000_0000 + b.y,
    ;
    vstd::arithmetic::div_mod::lemma_fundamental_div_mod_converse(
        a.spec_packed(),
        0x1000_0000_0000_0000,
        za,
        ra,
    );
    vstd::arithmetic::div_mod::lemma_fundamental_div_mod_converse(
        b.spec_packed(),
        0x1000_0000_0000_0000,
        zb,
        rb,
    );
    vstd::arithmetic::div_mod::lemma_fundamental_div_mod_converse(
        ra,
        0x4000_0000,
        a.x as int,
        a.y as int,
    );
    vstd::arithmetic::div_mod::lemma_fundamental_div_mod_converse(
        rb,
        0x4000_0000,
        b.x as int,
        b.y as int,
    );
}

/// The base-4 digit of a quadkey contributed by one bit position: the bit of
/// the column plus twice the bit of the row.
pub open spec fn qk_digit(x: u32, y: u32, bit: u32) -> int
    recommends
        bit < 32,
{
    (((x >> bit) & 1) + 2 * ((y >> bit) & 1)) as int
}

/// The character a quadkey digit is written as.
pub open spec fn qk_char(x: u32, y: u32, bit: u32) -> char
    recommends
        bit < 32,
{
    let d = qk_digit(x, y, bit);
    if d == 0 {
        '0'
    } else if d == 1 {
        '1'
    } else if d == 2 {
        '2'
    } else {
        '3'
    }
}

/// Two integers below `2^z` with the same `z` low bits are the same integer.
proof fn lemma_low_bits_determine(x1: u32, x2: u32, z: nat)
    requires
        z <= 32,
        (x1 as nat) < pow2(z),
        (x2 as nat) < pow2(z),
        forall|b: u32| b < z ==> (x1 >> b) & 1 == (x2 >> b) & 1,
    ensures
        x1 == x2,
    decreases z,
{
    lemma2_to64();
    if z == 0 {
    } else {
        let y1 = x1 >> 1u32;
        let y2 = x2 >> 1u32;
        vstd::bits::lemma_u32_shr_is_div(x1, 1);
        vstd::bits::lemma_u32_shr_is_div(x2, 1);
        lemma_pow2_unfold(z);
        assert((y1 as nat) < pow2((z - 1) as nat));
        assert((y2 as nat) < pow2((z - 1) as nat));
        assert forall|b: u32| b < (z - 1) as nat implies (y1 >> b) & 1 == (y2 >> b) & 1 by {
            assert(((x1 >> 1u32) >> b) & 1 == (x1 >> (b + 1)) & 1 && ((x2 >> 1u32) >> b) & 1 == (
            x2 >> (b + 1)) & 1) by (bit_vector)
                requires
                    b < 31,
            ;
            assert((x1 >> (b + 1)) & 1 == (x2 >> (b + 1)) & 1);
        }
        lemma_low_bits_determine(y1, y2, (z - 1) as nat);
        assert((x1 >> 1u32 == x2 >> 1u32 && x1 & 1 == x2 & 1) ==> x1 == x2) by (bit_vector);
        assert((x1 >> 0u32) & 1 == (x2 >> 0u32) & 1);
        assert((x1 >> 0u32) & 1 == x1 & 1 && (x2 >> 0u32) & 1 == x2 & 1) by (bit_vector);
    }
}

/// A quadkey digit string names one tile: two well-formed addresses at the
/// same zoom whose digit characters all agree are the same address, so two
/// distinct tiles can never share a quadkey string.
pub proof fn lemma_quadkey_digits_identify_tile(a: Quadkey, b: Quadkey)
    requires
        a.wf(),
        b.wf(),
        a.zoom == b.zoom,
        forall|j: int|
            0 <= j < a.zoom as int ==> #[trigger] qk_char(a.x, a.y, (a.zoom - 1 - j) as u32)
                == qk_char(b.x, b.y, (b.zoom - 1 - j) as u32),
    ensures
        a == b,
{
    assert forall|bit: u32| bit < a.zoom as nat implies (a.x >> bit) & 1 == (b.x >> bit) & 1 && (
    a.y >> bit) & 1 == (b.y >> bit) & 1 by {
        let j: int = a.zoom - 1 - bit;
        assert(0 <= j < a.zoom as int);
        assert(qk_char(a.x, a.y, (a.zoom - 1 - j) as u32) == qk_char(b.x, b.y, (b.zoom - 1 - j) as u32));
        assert((a.zoom - 1 - j) as u32 == bit);
        assert(qk_char(a.x, a.y, bit) == qk_char(b.x, b.y, bit));
        let ax = a.x;
        let ay = a.y;
        let bx = b.x;
        let by = b.y;
        assert((ax >> bit) & 1 <= 1 && (ay >> bit) & 1 <= 1 && (bx >> bit) & 1 <= 1 && (by >> bit)
            & 1 <= 1) by (bit_vector);
        assert(qk_digit(a.x, a.y, bit) == qk_digit(b.x, b.y, bit));
    }
    lemma_low_bits_determine(a.x, b.x, a.zoom as nat);
    lemma_low_bits_determine(a.y, b.y, a.zoom as nat);
}

/// Encodes a tile coordinate as its quadkey: one base-4 digit per zoom
/// level, most significant bit first.
pub fn tile_coord_to_quadkey(tile: &TileCoord) -> (r: String)
    requires
        tile.zoom <= 32,
    ensures
        r@.len() == tile.zoom as nat,
        forall|j: int|
            0 <= j < tile.zoom as int ==> r@[j] == qk_char(
                tile.x,
                tile.y,
                (tile.zoom - 1 - j) as u32,
            ),
{
    let x = tile.x;
    let y = tile.y;
    let zoom = tile.zoom;
    let mut r = String::new();
    let mut j: u8 = 0;
    while j < zoom
        invariant
            j <= zoom <= 32,
            r@.len() == j as nat,
            forall|k: int| 0 <= k < j as int ==> r@[k] == qk_char(x, y, (zoom - 1 - k) as u32),
        decreases zoom - j,
    {
        let bit: u32 = (zoom - 1 - j) as u32;
        let mask: u32 = 1u32 << bit;
        let mut digit: u32 = 0;
        if x & mask != 0 {
            digit += 1;
        }
        if y & mask != 0 {
            digit += 2;
        }
        proof {
            assert(((x & (1u32 << bit)) != 0 ==> (x >> bit) & 1 == 1) && ((x & (1u32 << bit))
                == 0 ==> (x >> bit) & 1 == 0) && ((y & (1u32 << bit)) != 0 ==> (y >> bit) & 1 == 1)
                && ((y & (1u32 << bit)) == 0 ==> (y >> bit) & 1 == 0)) by (bit_vector)
                requires
                    bit < 32,
            ;
            assert(digit as int == qk_digit(x, y, bit));
        }
        let ds: &str = if digit == 0 {
            "0"
        } else if digit == 1 {
            "1"
        } else {
            if digit == 2 {
                "2"
            } else {
                "3"
            }
        };
        proof {
            reveal_strlit("0");
            reveal_strlit("1");
            reveal_strlit("2");
            reveal_strlit("3");
            assert(ds@.len() == 1 && ds@[0] == qk_char(x, y, bit));
        }
        r.append(ds);
        j += 1;
    }
    r
}

} // verus!
