//! Conversion between native 64-bit tick timestamps and UTC calendar time.
//!
//! The native encoding is a count of 100-nanosecond ticks since
//! 1601-01-01T00:00:00Z. Decoding truncates toward zero to whole seconds
//! since the Unix epoch and fails explicitly when the instant is not
//! representable as a calendar time.

use vstd::prelude::*;
use crate::ScanError;

verus! {

/// Ticks between 1601-01-01T00:00:00Z and 1970-01-01T00:00:00Z.
pub const FILETIME_UNIX_EPOCH_TICKS: u64 = 116444736000000000;

/// Number of 100-nanosecond ticks in one second.
pub const TICKS_PER_SECOND: u64 = 10000000;

/// A UTC instant held as whole seconds since the Unix epoch.
#[derive(Clone, Copy, Debug, PartialEq, Eq, Structural)]
pub struct UtcInstant {
    pub secs: i64,
}

/// Whether `chrono` can represent `secs` seconds since the Unix epoch as a
/// UTC calendar time. The check is a pure function of `secs`.
pub uninterp spec fn utc_secs_representable(secs: int) -> bool;

/// Relies on chrono's `TimeZone::timestamp_opt` for `Utc`: it returns
/// `Single` exactly when the number of seconds is in the representable
/// calendar range, and `None` otherwise; the outcome depends on `secs` alone.
/// Its source further shows that every count of seconds from
/// 1601-01-01T00:00:00Z (-11644473600) through 2100-01-01T00:00:00Z
/// (4102444800) lies in that range: those map to day numbers 584389 through
/// 766645, well inside the supported calendar.
#[verifier::external_body]
fn utc_second_representable(secs: i64) -> (r: bool)
    ensures
        r == utc_secs_representable(secs as int),
        -11644473600 <= secs <= 4102444800 ==> r,
{
    matches!(
        chrono::TimeZone::timestamp_opt(&chrono::Utc, secs, 0),
        chrono::LocalResult::Single(_)
    )
}

/// Seconds since the Unix epoch encoded by a tick count, with the division
/// truncating toward zero.
pub open spec fn ticks_to_unix_secs(ticks: u64) -> int {
    if ticks >= FILETIME_UNIX_EPOCH_TICKS {
        ((ticks - FILETIME_UNIX_EPOCH_TICKS) as int) / (TICKS_PER_SECOND as int)
    } else {
        -(((FILETIME_UNIX_EPOCH_TICKS - ticks) as int) / (TICKS_PER_SECOND as int))
    }
}

/// The tick count of a whole second since the Unix epoch.
pub open spec fn unix_secs_to_ticks(secs: int) -> int {
    secs * (TICKS_PER_SECOND as int) + (FILETIME_UNIX_EPOCH_TICKS as int)
}

/// Decodes a native tick timestamp into a UTC instant, failing explicitly
/// when the instant is not representable as a calendar time.
pub fn windows_time_to_utc(windows_time: u64) -> (r: Result<UtcInstant, ScanError>)
    ensures
        utc_secs_representable(ticks_to_unix_secs(windows_time)) <==> r is Ok,
        r matches Ok(inst) ==> inst.secs as int == ticks_to_unix_secs(windows_time),
        r matches Err(e) ==> e == ScanError::ConversionError,
        -11644473600 <= ticks_to_unix_secs(windows_time) <= 4102444800 ==> r is Ok,
{
    let secs: i64 = if windows_time >= FILETIME_UNIX_EPOCH_TICKS {
        let q: u64 = (windows_time - FILETIME_UNIX_EPOCH_TICKS) / TICKS_PER_SECOND;
        proof {
            vstd::arithmetic::div_mod::lemma_div_nonincreasing(
                (windows_time - FILETIME_UNIX_EPOCH_TICKS) as int,
                TICKS_PER_SECOND as int,
            );
            vstd::arithmetic::div_mod::lemma_div_pos_is_pos(
                (windows_time - FILETIME_UNIX_EPOCH_TICKS) as int,
                TICKS_PER_SECOND as int,
            );
        }
        q as i64
    } else {
        let q: u64 = (FILETIME_UNIX_EPOCH_TICKS - windows_time) / TICKS_PER_SECOND;
        proof {
            vstd::arithmetic::div_mod::lemma_div_nonincreasing(
                (FILETIME_UNIX_EPOCH_TICKS - windows_time) as int,
                TICKS_PER_SECOND as int,
            );
            vstd::arithmetic::div_mod::lemma_div_pos_is_pos(
                (FILETIME_UNIX_EPOCH_TICKS - windows_time) as int,
                TICKS_PER_SECOND as int,
            );
        }
        -(q as i64)
    };
    if utc_second_representable(secs) {
        Ok(UtcInstant { secs })
    } else {
        Err(ScanError::ConversionError)
    }
}

/// Encodes a UTC instant as a native tick timestamp, failing when the
/// instant lies outside the range the tick encoding can hold.
pub fn utc_to_windows_time(inst: &UtcInstant) -> (r: Result<u64, ScanError>)
    ensures
        (0 <= unix_secs_to_ticks(inst.secs as int) <= u64::MAX) <==> r is Ok,
        r matches Ok(t) ==> t as int == unix_secs_to_ticks(inst.secs as int),
        r matches Err(e) ==> e == ScanError::ConversionError,
{
    let wide: i128 = (inst.secs as i128) * (TICKS_PER_SECOND as i128);
    proof {
        vstd::arithmetic::mul::lemma_mul_inequality(
            inst.secs as int,
            i64::MAX as int,
            TICKS_PER_SECOND as int,
        );
        vstd::arithmetic::mul::lemma_mul_inequality(
            i64::MIN as int,
            inst.secs as int,
            TICKS_PER_SECOND as int,
        );
    }
    let total: i128 = wide + (FILETIME_UNIX_EPOCH_TICKS as i128);
    if 0 <= total && total <= u64::MAX as i128 {
        Ok(total as u64)
    } else {
        Err(ScanError::ConversionError)
    }
}

/// Law: decoding is monotonic. A tick count that comes earlier never decodes
/// to a later instant, so the decoded order of any two timestamps agrees
/// with their native order.
pub proof fn lemma_time_codec_monotonic(t1: u64, t2: u64)
    requires
        t1 < t2,
    ensures
        ticks_to_unix_secs(t1) <= ticks_to_unix_secs(t2),
{
    let tps = TICKS_PER_SECOND as int;
    let epoch = FILETIME_UNIX_EPOCH_TICKS as int;
    if t1 >= FILETIME_UNIX_EPOCH_TICKS {
        vstd::arithmetic::div_mod::lemma_div_is_ordered(t1 - epoch, t2 - epoch, tps);
    } else if t2 < FILETIME_UNIX_EPOCH_TICKS {
        vstd::arithmetic::div_mod::lemma_div_is_ordered(epoch - t2, epoch - t1, tps);
    } else {
        vstd::arithmetic::div_mod::lemma_div_pos_is_pos(epoch - t1, tps);
        vstd::arithmetic::div_mod::lemma_div_pos_is_pos(t2 - epoch, tps);
    }
}

/// Law: the codec round-trips. Encoding a calendar instant that fits the
/// tick range and decoding the ticks again yields the original instant.
pub proof fn lemma_time_codec_round_trip(secs: int)
    requires
        0 <= unix_secs_to_ticks(secs),
        unix_secs_to_ticks(secs) <= u64::MAX,
    ensures
        ticks_to_unix_secs(unix_secs_to_ticks(secs) as u64) == secs,
{
    let tps = TICKS_PER_SECOND as int;
    let epoch = FILETIME_UNIX_EPOCH_TICKS as int;
    let t = unix_secs_to_ticks(secs);
    if secs >= 0 {
        assert(t - epoch == secs * tps);
        vstd::arithmetic::mul::lemma_mul_nonnegative(secs, tps);
        assert(t >= epoch);
        vstd::arithmetic::div_mod::lemma_div_multiples_vanish(secs, tps);
    } else {
        vstd::arithmetic::mul::lemma_mul_strict_inequality(secs, 0, tps);
        assert(t < epoch);
        assert(epoch - t == (-secs) * tps) by {
            vstd::arithmetic::mul::lemma_mul_is_distributive_sub_other_way(tps, 0, secs);
        }
        vstd::arithmetic::div_mod::lemma_div_multiples_vanish(-secs, tps);
    }
}

/// Law: decoding loses less than one second. Re-encoding a decoded tick
/// count lands back within one second's worth of ticks of the input, on the
/// side the truncation rounded toward.
pub proof fn lemma_time_codec_reencode_resolution(t: u64)
    ensures
        0 <= unix_secs_to_ticks(ticks_to_unix_secs(t)),
        unix_secs_to_ticks(ticks_to_unix_secs(t)) <= u64::MAX,
        t >= FILETIME_UNIX_EPOCH_TICKS ==> t - TICKS_PER_SECOND < unix_secs_to_ticks(
            ticks_to_unix_secs(t),
        ) <= t,
        t < FILETIME_UNIX_EPOCH_TICKS ==> t <= unix_secs_to_ticks(ticks_to_unix_secs(t)) < t
            + TICKS_PER_SECOND,
{
    let tps = TICKS_PER_SECOND as int;
    let epoch = FILETIME_UNIX_EPOCH_TICKS as int;
    let s = ticks_to_unix_secs(t);
    if t >= FILETIME_UNIX_EPOCH_TICKS {
        vstd::arithmetic::div_mod::lemma_fundamental_div_mod(t - epoch, tps);
        vstd::arithmetic::div_mod::lemma_mod_division_less_than_divisor(t - epoch, tps);
        assert(unix_secs_to_ticks(s) == (t - epoch) / tps * tps + epoch) by {
            vstd::arithmetic::mul::lemma_mul_is_commutative((t - epoch) / tps, tps);
        }
        vstd::arithmetic::div_mod::lemma_div_pos_is_pos(t - epoch, tps);
        vstd::arithmetic::mul::lemma_mul_nonnegative((t - epoch) / tps, tps);
    } else {
        vstd::arithmetic::div_mod::lemma_fundamental_div_mod(epoch - t, tps);
        vstd::arithmetic::div_mod::lemma_mod_division_less_than_divisor(epoch - t, tps);
        assert(unix_secs_to_ticks(s) == epoch - (epoch - t) / tps * tps) by {
            vstd::arithmetic::mul::lemma_mul_is_commutative((epoch - t) / tps, tps);
            vstd::arithmetic::mul::lemma_mul_unary_negation((epoch - t) / tps, tps);
        }
        vstd::arithmetic::div_mod::lemma_div_pos_is_pos(epoch - t, tps);
        vstd::arithmetic::mul::lemma_mul_nonnegative((epoch - t) / tps, tps);
    }
}

} // verus!
