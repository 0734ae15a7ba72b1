//! Human-readable rendering of byte counts and uptime durations.

use vstd::prelude::*;

use crate::text::digit_char;
use crate::text::digit_str;
use crate::text::push_decimal;
use crate::text::spec_dec_str;

verus! {

/// Hundredths of `v / div`, rounded half up.
pub open spec fn scaled_hundredths(v: int, div: int) -> int {
    (v * 100 + div / 2) / div
}

/// Fixed two-digit decimal rendering of `f`, zero-padded, for `0 <= f < 100`.
pub open spec fn spec_two_digits(f: int) -> Seq<char> {
    seq![digit_char(f / 10), digit_char(f % 10)]
}

/// `v / div` rendered with two decimal places, rounded half up.
pub open spec fn spec_scaled(v: int, div: int) -> Seq<char> {
    let s = scaled_hundredths(v, div);
    spec_dec_str((s / 100) as nat) + seq!['.'] + spec_two_digits(s % 100)
}

/// Human-scaled rendering of a byte count: plain bytes below one KiB,
/// otherwise the smallest base-1024 unit in which the value is at least one,
/// with two decimal places.
pub open spec fn spec_format_bytes(v: u64) -> Seq<char> {
    if v < 1024 {
        spec_dec_str(v as nat) + " bytes"@
    } else if v < 1048576 {
        spec_scaled(v as int, 1024) + " KiB"@
    } else if v < 1073741824 {
        spec_scaled(v as int, 1048576) + " MiB"@
    } else {
        spec_scaled(v as int, 1073741824) + " GiB"@
    }
}

/// Appends `v / div` with two decimal places to `out`.
fn push_scaled(v: u64, div: u64, out: &mut String)
    requires
        div == 1024 || div == 1048576 || div == 1073741824,
    ensures
        final(out)@ == old(out)@ + spec_scaled(v as int, div as int),
{
    let x: u128 = v as u128 * 100 + (div / 2) as u128;
    let s128: u128 = x / (div as u128);
    proof {
        let big: int = u64::MAX as int * 100 + 536870912;
        vstd::arithmetic::div_mod::lemma_div_is_ordered(x as int, big, div as int);
        if div == 1024 {
            assert(big / 1024 <= u64::MAX);
        } else if div == 1048576 {
            assert(big / 1048576 <= u64::MAX);
        } else {
            assert(big / 1073741824 <= u64::MAX);
        }
    }
    let s: u64 = s128 as u64;
    push_decimal(s / 100, out);
    out.append(".");
    let f = s % 100;
    out.append(digit_str(f / 10));
    out.append(digit_str(f % 10));
    proof {
        reveal_strlit(".");
        assert("."@ =~= seq!['.']);
        assert(final(out)@ =~= old(out)@ + spec_scaled(v as int, div as int));
    }
}

/// Renders a byte count with the smallest base-1024 unit for which the value
/// is at least one in that unit: `500` becomes `500 bytes`, `2048` becomes
/// `2.00 KiB`, five gibibytes become `5.00 GiB`.
pub fn format_bytes(val: u64) -> (r: String)
    ensures
        r@ == spec_format_bytes(val),
{
    let mut out = String::new();
    if val < 1024 {
        push_decimal(val, &mut out);
        out.append(" bytes");
    } else if val < 1048576 {
        push_scaled(val, 1024, &mut out);
        out.append(" KiB");
    } else if val < 1073741824 {
        push_scaled(val, 1048576, &mut out);
        out.append(" MiB");
    } else {
        push_scaled(val, 1073741824, &mut out);
        out.append(" GiB");
    }
    proof {
        assert(out@ =~= spec_format_bytes(val));
    }
    out
}

/// Compact rendering of an uptime given as whole seconds plus hundredths:
/// days, hours and minutes, each omitted while it and all larger units are
/// zero, then seconds with two decimal places.
pub open spec fn spec_format_uptime(secs: u64, centis: u64) -> Seq<char> {
    let d = secs as int / 86400;
    let h = (secs as int % 86400) / 3600;
    let m = (secs as int % 3600) / 60;
    let s = secs as int % 60;
    let days = if d > 0 {
        spec_dec_str(d as nat) + "d "@
    } else {
        Seq::<char>::empty()
    };
    let hours = if d > 0 || h > 0 {
        spec_dec_str(h as nat) + "h "@
    } else {
        Seq::<char>::empty()
    };
    let mins = if d > 0 || h > 0 || m > 0 {
        spec_dec_str(m as nat) + "m "@
    } else {
        Seq::<char>::empty()
    };
    days + hours + mins + spec_dec_str(s as nat) + seq!['.'] + spec_two_digits(centis as int)
        + "s"@
}

/// Renders an uptime of `secs` whole seconds plus `centis` hundredths.
pub fn format_uptime_parts(secs: u64, centis: u64) -> (r: String)
    requires
        centis < 100,
    ensures
        r@ == spec_format_uptime(secs, centis),
{
    let d = secs / 86400;
    let h = (secs % 86400) / 3600;
    let m = (secs % 3600) / 60;
    let s = secs % 60;
    let mut out = String::new();
    if d > 0 {
        push_decimal(d, &mut out);
        out.append("d ");
    }
    if d > 0 || h > 0 {
        push_decimal(h, &mut out);
        out.append("h ");
    }
    if d > 0 || h > 0 || m > 0 {
        push_decimal(m, &mut out);
        out.append("m ");
    }
    push_decimal(s, &mut out);
    out.append(".");
    out.append(digit_str(centis / 10));
    out.append(digit_str(centis % 10));
    out.append("s");
    proof {
        reveal_strlit(".");
        assert("."@ =~= seq!['.']);
        assert(out@ =~= spec_format_uptime(secs, centis));
    }
    out
}

} // verus!
