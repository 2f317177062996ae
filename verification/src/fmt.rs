//! Human-readable rendering of byte counts, rates and memory figures, in
//! integer fixed point: a milli-percent of `80_000` renders as `80.0`, and
//! divisions round to the nearest displayed digit.

use vstd::prelude::*;
use vstd::string::StrSliceExecFns;
use vstd::string::StringExecFns;

use crate::manager::spec_percent_milli;
use crate::manager::percent_milli;
use crate::strutil::spec_dec1;
use crate::strutil::spec_dec2;
use crate::strutil::spec_u64_dec;
use crate::strutil::dec1_string;
use crate::strutil::dec2_string;
use crate::strutil::u64_to_string;

verus! {

/// Division rounded to the nearest integer (half up).
pub open spec fn spec_round_div(x: nat, unit: nat) -> nat {
    (x + unit / 2) / unit
}

/// `x` scaled into tenths of `unit`, rounded.
pub open spec fn spec_tenths(x: nat, unit: nat) -> nat {
    spec_round_div(x * 10, unit)
}

/// `x` scaled into hundredths of `unit`, rounded.
pub open spec fn spec_hundredths(x: nat, unit: nat) -> nat {
    spec_round_div(x * 100, unit)
}

pub open spec fn kb() -> nat {
    1024
}

pub open spec fn mb() -> nat {
    1048576
}

pub open spec fn gb() -> nat {
    1073741824
}

/// A byte count rendered with two decimals in the largest binary unit that
/// fits: `B`, `KB`, `MB` or `GB`.
pub open spec fn spec_format_bytes(b: u64) -> Seq<char> {
    if b >= gb() {
        spec_dec2(spec_hundredths(b as nat, gb())) + " GB"@
    } else if b >= mb() {
        spec_dec2(spec_hundredths(b as nat, mb())) + " MB"@
    } else if b >= kb() {
        spec_dec2(spec_hundredths(b as nat, kb())) + " KB"@
    } else {
        spec_u64_dec(b as nat) + " B"@
    }
}

fn hundredths(x: u64, unit: u64) -> (r: u64)
    requires
        1024 <= unit,
    ensures
        r as nat == spec_hundredths(x as nat, unit as nat),
{
    let wide: u128 = (x as u128 * 100 + unit as u128 / 2) / unit as u128;
    proof {
        let num = x as nat * 100 + unit as nat / 2;
        let q = num / (unit as nat);
        assert(num == unit as nat * q + num % (unit as nat)) by (nonlinear_arith)
            requires
                unit as nat >= 1024,
                q == num / (unit as nat),
        ;
        assert(q * 1024 <= q * (unit as nat)) by (nonlinear_arith)
            requires
                unit as nat >= 1024,
                q >= 0,
        ;
        assert(q <= 0xFFFF_FFFF_FFFF_FFFFu64 as nat);
    }
    wide as u64
}

fn tenths(x: u64, unit: u64) -> (r: u64)
    requires
        1024 <= unit,
    ensures
        r as nat == spec_tenths(x as nat, unit as nat),
{
    let wide: u128 = (x as u128 * 10 + unit as u128 / 2) / unit as u128;
    proof {
        let num = x as nat * 10 + unit as nat / 2;
        let q = num / (unit as nat);
        assert(num == unit as nat * q + num % (unit as nat)) by (nonlinear_arith)
            requires
                unit as nat >= 1024,
                q == num / (unit as nat),
        ;
        assert(q * 1024 <= q * (unit as nat)) by (nonlinear_arith)
            requires
                unit as nat >= 1024,
                q >= 0,
        ;
        assert(q <= 0xFFFF_FFFF_FFFF_FFFFu64 as nat);
    }
    wide as u64
}

/// Renders a byte count in the largest fitting binary unit, two decimals.
pub fn format_bytes(bytes: u64) -> (r: String)
    ensures
        r@ == spec_format_bytes(bytes),
{
    if bytes >= 1073741824 {
        let mut s = dec2_string(hundredths(bytes, 1073741824));
        s.append(" GB");
        s
    } else if bytes >= 1048576 {
        let mut s = dec2_string(hundredths(bytes, 1048576));
        s.append(" MB");
        s
    } else if bytes >= 1024 {
        let mut s = dec2_string(hundredths(bytes, 1024));
        s.append(" KB");
        s
    } else {
        let mut s = u64_to_string(bytes);
        s.append(" B");
        s
    }
}

/// A byte rate rendered per second: plain bytes below one KiB, else one
/// decimal in KB/s or MB/s.
pub open spec fn spec_format_bytes_rate(b: u64) -> Seq<char> {
    if b < 1024 {
        spec_u64_dec(b as nat) + " B/s"@
    } else if b < 1048576 {
        spec_dec1(spec_tenths(b as nat, kb())) + " KB/s"@
    } else {
        spec_dec1(spec_tenths(b as nat, mb())) + " MB/s"@
    }
}

/// Renders a byte rate.
pub fn format_bytes_rate(bytes: u64) -> (r: String)
    ensures
        r@ == spec_format_bytes_rate(bytes),
{
    if bytes < 1024 {
        let mut s = u64_to_string(bytes);
        s.append(" B/s");
        s
    } else if bytes < 1048576 {
        let mut s = dec1_string(tenths(bytes, 1024));
        s.append(" KB/s");
        s
    } else {
        let mut s = dec1_string(tenths(bytes, 1048576));
        s.append(" MB/s");
        s
    }
}

/// A milli-percent value rendered with one decimal (rounded).
pub open spec fn spec_pct1(pm: u64) -> Seq<char> {
    spec_dec1((pm as nat + 50) / 100)
}

fn pct1_string(pm: u64) -> (r: String)
    ensures
        r@ == spec_pct1(pm),
{
    let scaled: u128 = (pm as u128 + 50) / 100;
    dec1_string(scaled as u64)
}

/// A milli-percent value rendered with two decimals (rounded).
pub open spec fn spec_pct2(pm: u64) -> Seq<char> {
    spec_dec2((pm as nat + 5) / 10)
}

fn pct2_string(pm: u64) -> (r: String)
    ensures
        r@ == spec_pct2(pm),
{
    let scaled: u128 = (pm as u128 + 5) / 10;
    dec2_string(scaled as u64)
}

/// The memory figure of one container: percentage with one decimal, then
/// usage and limit in GB (one decimal) when at least one gibibyte, else in
/// whole MB.
pub open spec fn spec_memory_str(usage: u64, limit: u64) -> Seq<char> {
    let pct = spec_pct1(spec_percent_milli(usage, limit));
    let ugb = spec_dec1(spec_tenths(usage as nat, gb()));
    let lgb = spec_dec1(spec_tenths(limit as nat, gb()));
    let umb = spec_u64_dec(spec_round_div(usage as nat, mb()));
    let lmb = spec_u64_dec(spec_round_div(limit as nat, mb()));
    if usage >= gb() && limit >= gb() {
        pct + "% ("@ + ugb + " GB / "@ + lgb + " GB)"@
    } else if usage >= gb() {
        pct + "% ("@ + ugb + " GB / "@ + lmb + " MB)"@
    } else if limit >= gb() {
        pct + "% ("@ + umb + " MB / "@ + lgb + " GB)"@
    } else {
        pct + "% ("@ + umb + " MB / "@ + lmb + " MB)"@
    }
}

fn round_div_mb(x: u64) -> (r: u64)
    ensures
        r as nat == spec_round_div(x as nat, mb()),
{
    let wide: u128 = (x as u128 + 1048576 / 2) / 1048576;
    wide as u64
}

/// Renders one container's memory usage against its limit.
pub fn memory_str(usage: u64, limit: u64) -> (r: String)
    ensures
        r@ == spec_memory_str(usage, limit),
{
    let pm = percent_milli(usage, limit);
    let mut s = pct1_string(pm);
    s.append("% (");
    if usage >= 1073741824 && limit >= 1073741824 {
        s.append(dec1_string(tenths(usage, 1073741824)).as_str());
        s.append(" GB / ");
        s.append(dec1_string(tenths(limit, 1073741824)).as_str());
        s.append(" GB)");
    } else if usage >= 1073741824 {
        s.append(dec1_string(tenths(usage, 1073741824)).as_str());
        s.append(" GB / ");
        s.append(u64_to_string(round_div_mb(limit)).as_str());
        s.append(" MB)");
    } else if limit >= 1073741824 {
        s.append(u64_to_string(round_div_mb(usage)).as_str());
        s.append(" MB / ");
        s.append(dec1_string(tenths(limit, 1073741824)).as_str());
        s.append(" GB)");
    } else {
        s.append(u64_to_string(round_div_mb(usage)).as_str());
        s.append(" MB / ");
        s.append(u64_to_string(round_div_mb(limit)).as_str());
        s.append(" MB)");
    }
    s
}

/// The system memory display: percentage with two decimals, then usage and
/// limit scaled by whether each crosses one gibibyte, two decimals each.
pub open spec fn spec_format_memory_display(pm: u64, usage: u64, limit: u64) -> Seq<char> {
    let pct = spec_pct2(pm);
    let ugb = spec_dec2(spec_hundredths(usage as nat, gb()));
    let lgb = spec_dec2(spec_hundredths(limit as nat, gb()));
    let umb = spec_dec2(spec_hundredths(usage as nat, mb()));
    let lmb = spec_dec2(spec_hundredths(limit as nat, mb()));
    if usage >= gb() {
        pct + "% ("@ + ugb + " GB | "@ + lgb + " GB)"@
    } else if limit >= gb() {
        pct + "% ("@ + umb + " MB | "@ + lgb + " GB)"@
    } else {
        pct + "% ("@ + umb + " MB | "@ + lmb + " MB)"@
    }
}

/// Renders the system memory display line.
pub fn format_memory_display(percent_milli_value: u64, usage: u64, limit: u64) -> (r: String)
    ensures
        r@ == spec_format_memory_display(percent_milli_value, usage, limit),
{
    let mut s = pct2_string(percent_milli_value);
    s.append("% (");
    if usage >= 1073741824 {
        s.append(dec2_string(hundredths(usage, 1073741824)).as_str());
        s.append(" GB | ");
        s.append(dec2_string(hundredths(limit, 1073741824)).as_str());
        s.append(" GB)");
    } else if limit >= 1073741824 {
        s.append(dec2_string(hundredths(usage, 1048576)).as_str());
        s.append(" MB | ");
        s.append(dec2_string(hundredths(limit, 1073741824)).as_str());
        s.append(" GB)");
    } else {
        s.append(dec2_string(hundredths(usage, 1048576)).as_str());
        s.append(" MB | ");
        s.append(dec2_string(hundredths(limit, 1048576)).as_str());
        s.append(" MB)");
    }
    s
}

/// The word for one elapsed-time unit with its plural `s`.
pub open spec fn spec_unit_word(word: Seq<char>, n: nat) -> Seq<char> {
    if n == 1 {
        word
    } else {
        word + "s"@
    }
}

/// A creation timestamp rendered as elapsed time: unknown for the zero
/// default, else the largest whole unit of days, hours, minutes or seconds
/// since then, or "agora" when nothing has elapsed.
pub open spec fn spec_format_creation(created: i64, now: i64) -> Seq<char> {
    if created <= 0 {
        "desconhecido"@
    } else {
        let secs: nat = if now > created {
            (now - created) as nat
        } else {
            0
        };
        let days = secs / 86400;
        let hours = secs / 3600;
        let minutes = secs / 60;
        if days > 0 {
            "ha "@ + spec_u64_dec(days) + " "@ + spec_unit_word("dia"@, days)
        } else if hours > 0 {
            "ha "@ + spec_u64_dec(hours) + " "@ + spec_unit_word("hora"@, hours)
        } else if minutes > 0 {
            "ha "@ + spec_u64_dec(minutes) + " "@ + spec_unit_word("minuto"@, minutes)
        } else if secs > 0 {
            "ha "@ + spec_u64_dec(secs) + " "@ + spec_unit_word("segundo"@, secs)
        } else {
            "agora"@
        }
    }
}

fn unit_phrase(count: u64, word: &str) -> (r: String)
    ensures
        r@ == "ha "@ + spec_u64_dec(count as nat) + " "@ + spec_unit_word(word@, count as nat),
{
    let mut s = "ha ".to_owned();
    s.append(u64_to_string(count).as_str());
    s.append(" ");
    s.append(word);
    if count != 1 {
        s.append("s");
    }
    s
}

/// Renders how long ago a creation timestamp lies, given the current time.
pub fn format_creation_time(created: i64, now: i64) -> (r: String)
    ensures
        r@ == spec_format_creation(created, now),
{
    if created <= 0 {
        return "desconhecido".to_owned();
    }
    let secs: u64 = if now > created {
        (now - created) as u64
    } else {
        0
    };
    let days = secs / 86400;
    let hours = secs / 3600;
    let minutes = secs / 60;
    if days > 0 {
        unit_phrase(days, "dia")
    } else if hours > 0 {
        unit_phrase(hours, "hora")
    } else if minutes > 0 {
        unit_phrase(minutes, "minuto")
    } else if secs > 0 {
        unit_phrase(secs, "segundo")
    } else {
        "agora".to_owned()
    }
}

} // verus!
