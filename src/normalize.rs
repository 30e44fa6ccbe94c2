use vstd::arithmetic::div_mod::{lemma_fundamental_div_mod, lemma_fundamental_div_mod_converse};
use vstd::prelude::*;

verus! {

/// Fixed-point units (1e-7 degree) in 180 degrees.
pub const HALF_TURN: i64 = 1_800_000_000;

/// Fixed-point units (1e-7 degree) in 90 degrees.
pub const QUARTER_TURN: i64 = 900_000_000;

/// Normalized positions of a longitude and a latitude (fixed point, 1e-7
/// degree), as numerators: `lon + 180` modulo 360 degrees and `lat + 90`
/// modulo 180 degrees, the remainder always in `[0, m)`.
pub open spec fn normalize_lon_lat_spec(lon: int, lat: int) -> (int, int) {
    ((lon + HALF_TURN) % (2 * HALF_TURN), (lat + QUARTER_TURN) % (2 * QUARTER_TURN))
}

/// Remainder of `v` by `m`, in `[0, m)` whatever the sign of `v`.
fn wrap(v: i128, m: i128) -> (r: i128)
    requires
        m > 0,
        v > i128::MIN,
    ensures
        r == v % m,
        0 <= r < m,
{
    if v >= 0 {
        v % m
    } else {
        let a = (-v) % m;
        proof {
            lemma_fundamental_div_mod(-v as int, m as int);
            let q = (-v as int) / (m as int);
            if a == 0 {
                assert(v == (-q) * m + 0) by (nonlinear_arith)
                    requires
                        -v == q * m + a,
                        a == 0,
                ;
                lemma_fundamental_div_mod_converse(v as int, m as int, -q, 0);
            } else {
                assert(v == (-q - 1) * m + (m - a)) by (nonlinear_arith)
                    requires
                        -v == q * m + a,
                ;
                lemma_fundamental_div_mod_converse(v as int, m as int, -q - 1, (m - a) as int);
            }
        }
        if a == 0 {
            0
        } else {
            m - a
        }
    }
}

/// Wraps a longitude and a latitude (fixed point, 1e-7 degree) into their
/// normalized positions. The results are numerators: the longitude's over
/// 360 degrees (`2 * HALF_TURN` units), the latitude's over 180 degrees
/// (`2 * QUARTER_TURN` units).
///
/// `lon + 180` is taken modulo 360 and `lat + 90` modulo 180, so any value,
/// in range or not, is folded back to a position in `[0, 1)`; values that
/// differ by whole turns give the same position.
pub fn normalize_lon_lat(lon: i64, lat: i64) -> (r: (i64, i64))
    ensures
        (r.0 as int, r.1 as int) == normalize_lon_lat_spec(lon as int, lat as int),
        0 <= r.0 < 2 * HALF_TURN,
        0 <= r.1 < 2 * QUARTER_TURN,
{
    let lon_wrapped = wrap(lon as i128 + HALF_TURN as i128, 2 * HALF_TURN as i128);
    let lat_wrapped = wrap(lat as i128 + QUARTER_TURN as i128, 2 * QUARTER_TURN as i128);
    (lon_wrapped as i64, lat_wrapped as i64)
}

/// Maps normalized positions, as `normalize_lon_lat` gives them, back to a
/// longitude and a latitude (fixed point, 1e-7 degree): `lon_norm * 360 -
/// 180` and `lat_norm * 180 - 90`. A position in `[0, 1)` gives back the
/// coordinate it came from.
pub fn denormalize_lon_lat(lon_norm: i64, lat_norm: i64) -> (r: (i64, i64))
    requires
        lon_norm >= i64::MIN + HALF_TURN,
        lat_norm >= i64::MIN + QUARTER_TURN,
    ensures
        r.0 == lon_norm - HALF_TURN,
        r.1 == lat_norm - QUARTER_TURN,
        0 <= lon_norm < 2 * HALF_TURN && 0 <= lat_norm < 2 * QUARTER_TURN
            ==> normalize_lon_lat_spec(r.0 as int, r.1 as int) == (lon_norm as int, lat_norm as int),
{
    (lon_norm - HALF_TURN, lat_norm - QUARTER_TURN)
}

} // verus!
