//! How the program is set up, and how it watches itself.

use crate::arguments::asked;
use crate::arguments::said;
use crate::arguments::unsaid;
use crate::arguments::Said;
use crate::backtest::FillMode;
use crate::config::loaded;
use crate::config::Environment;
use crate::fixed::fixed_text;
use crate::health::bytes_text;
use crate::health::canary_alarm;
use crate::health::canary_bytes;
use crate::health::canary_fault;
use crate::health::disk_alarm;
use crate::health::disk_line;
use crate::health::failures_after;
use crate::health::in_units;
use crate::health::used_share;
use crate::health::CanaryRun;
use crate::health::DiskSpace;
use crate::number::Real;
use crate::order::fraction;
use crate::parse::parsed_real;
use crate::reconnect::backoff_after;
use crate::reconnect::backoff_schedule;
use crate::synthetic::ask_of;
use crate::synthetic::bid_of;
use crate::synthetic::hour_range;
use crate::synthetic::price_of;
use crate::synthetic::price_within;
use crate::text::decimal;
use vstd::prelude::*;

verus! {

/// The settings that an environment gives: its credentials as they are, orders always to the
/// simulated market and only where they were switched on, records unless they were switched off.
/// The first credential that is missing is told.
pub proof fn law_settings(env: Environment)
    ensures
        ({
            let r = loaded(env);
            &&& env.api_key is None ==> r is Err && r->Err_0 == "Missing OKX_API_KEY"@
            &&& env.api_key is Some && env.secret_key is None ==> r is Err && r->Err_0
                == "Missing OKX_SECRET_KEY"@
            &&& env.api_key is Some && env.secret_key is Some && env.passphrase is None ==> r is Err
                && r->Err_0 == "Missing OKX_PASSPHRASE"@
            &&& env.api_key is Some && env.secret_key is Some && env.passphrase is Some ==> r is Ok
            &&& r matches Ok(c) ==> {
                &&& c.api_key == env.api_key->0@
                &&& c.secret_key == env.secret_key->0@
                &&& c.passphrase == env.passphrase->0@
                &&& c.is_paper_trading
                &&& c.trading_enabled <==> env.trading_enabled is Some && env.trading_enabled->0@
                    == "1"@
                &&& c.persistence_enabled <==> env.persistence_enabled is None
                    || env.persistence_enabled->0@ == "1"@
                &&& env.persistence_path matches Some(p) ==> c.persistence_path == p@
                &&& env.persistence_path is None ==> c.persistence_path == "/mnt/usb_ssd/augur_data"@
                &&& env.account_balance is Some && parsed_real(env.account_balance->0@) is Some
                    ==> c.account_balance == parsed_real(env.account_balance->0@)->0
                &&& env.account_balance is None || parsed_real(env.account_balance->0@) is None
                    ==> c.account_balance == Real::from_u64(10_000)
            }
        }),
{
}

/// What one argument and its value say of a replay, before all that follows.
pub proof fn law_arguments(name: Seq<char>, value: Seq<char>, rest: Seq<Seq<char>>, so_far: Said)
    ensures
        ({
            let r = said(seq![name, value] + rest, so_far);
            &&& name == "--data"@ ==> r == said(rest, Said { data: Some(value), ..so_far })
            &&& name == "--csv"@ ==> r == said(rest, Said { csv: Some(value), ..so_far })
            &&& name == "--equity"@ ==> {
                &&& parsed_real(value) matches Some(x) ==> r == said(rest, Said { equity: x, ..so_far })
                &&& parsed_real(value) is None ==> r is Err && r->Err_0 == "--equity must be a number"@
            }
            &&& name == "--fill-mode"@ ==> {
                &&& value == "optimistic"@ ==> r == said(
                    rest,
                    Said { fill_mode: FillMode::Optimistic, ..so_far },
                )
                &&& value == "ladder"@ ==> r == said(
                    rest,
                    Said { fill_mode: FillMode::Ladder, ..so_far },
                )
                &&& value != "optimistic"@ && value != "ladder"@ ==> r is Err && r->Err_0
                    == "--fill-mode must be 'optimistic' or 'ladder', got '"@ + value + "'"@
            }
            &&& name == "-h"@ || name == "--help"@ ==> r is Err && r->Err_0 == "help"@
        }),
        said(Seq::empty(), so_far) == Ok::<Said, Seq<char>>(so_far),
        said(seq![name], so_far) is Err,
{
    lemma_names_of_arguments();
    let all = seq![name, value] + rest;
    assert(all[0] == name && all[1] == value);
    assert(all.skip(2) =~= rest);
}

proof fn lemma_names_of_arguments()
    ensures
        "--data"@ != "--csv"@,
        "--data"@ != "--equity"@,
        "--data"@ != "--fill-mode"@,
        "--data"@ != "-h"@,
        "--data"@ != "--help"@,
        "--csv"@ != "--equity"@,
        "--csv"@ != "--fill-mode"@,
        "--csv"@ != "-h"@,
        "--csv"@ != "--help"@,
        "--equity"@ != "--fill-mode"@,
        "--equity"@ != "-h"@,
        "--equity"@ != "--help"@,
        "--fill-mode"@ != "-h"@,
        "--fill-mode"@ != "--help"@,
        "optimistic"@ != "ladder"@,
{
    reveal_strlit("--data");
    reveal_strlit("--csv");
    reveal_strlit("--equity");
    reveal_strlit("--fill-mode");
    reveal_strlit("-h");
    reveal_strlit("--help");
    reveal_strlit("optimistic");
    reveal_strlit("ladder");
    assert("--data"@[2] == 'd' && "--help"@[2] == 'h');
    assert("--data"@.len() == 6 && "--csv"@.len() == 5 && "--equity"@.len() == 8
        && "--fill-mode"@.len() == 11 && "-h"@.len() == 2 && "--help"@.len() == 6);
    assert("optimistic"@.len() != "ladder"@.len());
}

/// Without arguments a replay has nothing to read; what is not said is the usual.
pub proof fn law_replay_needs_data(args: Seq<Seq<char>>)
    ensures
        unsaid().data is None,
        unsaid().csv is None,
        unsaid().equity == Real::from_u64(10_000),
        unsaid().fill_mode is Optimistic,
        said(args, unsaid()) matches Ok(s) ==> {
            &&& s.data is Some ==> asked(args) == Ok::<Said, Seq<char>>(s)
            &&& s.data is None ==> asked(args) is Err && asked(args)->Err_0 == "--data is required"@
        },
        said(args, unsaid()) is Err ==> asked(args) == said(args, unsaid()),
{
}

/// The pause after a failure is twice the one before, and never more than half a minute; the first is
/// a second.
pub proof fn law_pauses(secs: nat)
    ensures
        backoff_schedule(0) == 1,
        backoff_schedule(1) == 2,
        backoff_schedule(2) == 4,
        secs <= 15 ==> backoff_after(secs) == 2 * secs,
        secs > 15 ==> backoff_after(secs) == 30,
{
    reveal_with_fuel(backoff_schedule, 3);
}

/// What a disk that fills up is told with: nothing below half, a note from half, a warning from four
/// fifths and an error from nineteen twentieths on.
pub proof fn law_disk_levels(d: DiskSpace)
    ensures
        ({
            let r = disk_alarm(Some(d));
            let (half, most, full) = (Real::from_u64(50), Real::from_u64(80), Real::from_u64(95));
            &&& r is None <==> !half.le(d.used_pct)
            &&& r matches Some((l, _)) ==> {
                &&& l is Info <==> !most.le(d.used_pct)
                &&& l is Warn <==> most.le(d.used_pct) && !full.le(d.used_pct)
                &&& l is Error <==> full.le(d.used_pct)
            }
        }),
        disk_alarm(None) is None,
{
    lemma_levels();
}

proof fn lemma_levels()
    ensures
        Real::from_u64(50).bits == crate::health::DISK_INFO_PCT,
        Real::from_u64(80).bits == crate::health::DISK_WARN_PCT,
        Real::from_u64(95).bits == crate::health::DISK_ERROR_PCT,
{
    vstd::arithmetic::power2::lemma2_to64();
    vstd::arithmetic::power2::lemma2_to64_rest();
    lemma_whole(50, 0x4049_0000_0000_0000, 0x19_0000_0000_0000, 5);
    lemma_whole(80, 0x4054_0000_0000_0000, 0x14_0000_0000_0000, 6);
    lemma_whole(95, 0x4057_c000_0000_0000, 0x17_c000_0000_0000, 6);
}

/// A small whole number as a number: its 53 bits `f`, of which the highest stands for `2^e`.
proof fn lemma_whole(n: u64, bits: u64, f: nat, e: nat)
    requires
        e <= 6,
        0x10_0000_0000_0000 <= f < 0x20_0000_0000_0000,
        bits == (1023 + e) * 0x10_0000_0000_0000 + (f - 0x10_0000_0000_0000),
        n * vstd::arithmetic::power2::pow2((52 - e) as nat) == f,
    ensures
        Real::from_u64(n).bits == bits,
{
    reveal(Real::spec_from_u64);
    let x = Real { bits };
    let k = (1022 + e) as nat;
    vstd::arithmetic::power2::lemma2_to64();
    vstd::arithmetic::power2::lemma2_to64_rest();
    crate::order::law_numbers_round_to_themselves(x, 1);
    let b = x.mag();
    assert(b == bits);
    assert(b / 0x10_0000_0000_0000 == 1023 + e);
    assert(b % 0x10_0000_0000_0000 == f - 0x10_0000_0000_0000);
    assert(crate::rounding::mag_units(b) == f * vstd::arithmetic::power2::pow2(k));
    vstd::arithmetic::power2::lemma_pow2_adds((52 - e) as nat, k);
    assert(n * vstd::arithmetic::power2::pow2(1074) == f * vstd::arithmetic::power2::pow2(k))
        by (nonlinear_arith)
        requires
            n * vstd::arithmetic::power2::pow2((52 - e) as nat) == f,
            vstd::arithmetic::power2::pow2(1074) == vstd::arithmetic::power2::pow2(
                (52 - e) as nat,
            ) * vstd::arithmetic::power2::pow2(k),
    ;
}

/// The lines about a disk tell the share that is used and the bytes that are used or free.
pub proof fn law_disk_lines(d: DiskSpace)
    requires
        d.wf(),
    ensures
        disk_line(None) == "disk: (unavailable)"@,
        disk_line(Some(d)) == "disk: "@ + bytes_text((d.total_bytes - d.free_bytes) as u64) + "/"@
            + bytes_text(d.total_bytes) + " used ("@ + fixed_text(d.used_pct, 1) + "%)"@,
        disk_alarm(Some(d)) matches Some((l, s)) ==> (l is Error ==> s == "DISK CRITICAL: "@
            + fixed_text(d.used_pct, 1) + "% used, only "@ + bytes_text(d.free_bytes)
            + " free — persistence will fail soon!"@) && (l is Warn ==> s == "disk WARN: "@
            + fixed_text(d.used_pct, 1) + "% used, "@ + bytes_text(d.free_bytes)
            + " free remaining"@) && (l is Info ==> s == "disk fill: "@ + fixed_text(d.used_pct, 1)
            + "% used, "@ + bytes_text(d.free_bytes) + " free"@),
{
}

/// The share of a disk that is used is what is not free over all of it, in hundredths.
pub proof fn law_used_share(total: u64, free: u64)
    requires
        free <= total,
    ensures
        used_share(total, free) == Real::from_u64((total - free) as u64).over(
            Real::from_u64(total),
        ).times(Real::from_u64(100)),
{
}

/// Failures of the file are told each time and counted until it can be written again, which is told
/// once.
pub proof fn law_canary(failures: nat, error: Option<Seq<char>>)
    ensures
        failures_after(failures, true) == 0,
        failures_after(failures, false) == failures + 1,
        canary_alarm(failures, false, error) matches Some((l, s)) && l is Error && s
            == "CANARY FAILURE #"@ + decimal(failures + 1) + ": "@ + (if error is Some {
            error->0
        } else {
            "(no detail)"@
        }) + " — persistence path is not writable, ticks/books are being dropped!"@,
        failures == 0 ==> canary_alarm(failures, true, error) is None,
        failures > 0 ==> (canary_alarm(failures, true, error) matches Some((l, s)) && l is Info && s
            == "canary recovered after "@ + decimal(failures) + " failures"@),
{
}

/// A disk is fine exactly where the file could be written and read, and holds what was written.
pub proof fn law_canary_faults(path: Seq<char>, run: CanaryRun)
    ensures
        canary_fault(path, run) is None <==> (run matches CanaryRun::ReadBack(c) && c@
            == canary_bytes()),
        run matches CanaryRun::WriteFailed(e) ==> canary_fault(path, run) == Some(
            "canary write to "@ + path + " failed: "@ + e@,
        ),
        run matches CanaryRun::ReadFailed(e) ==> canary_fault(path, run) == Some(
            "canary read-back failed: "@ + e@,
        ),
        run matches CanaryRun::ReadBack(c) ==> c@ != canary_bytes() ==> canary_fault(path, run)
            == Some("canary content mismatch at "@ + path),
{
}

/// A count of bytes is told in units of 1024, in the largest of five in which it is at least one.
pub proof fn law_units_of_bytes(v: Real, i: nat, b: u64)
    requires
        i <= 4,
    ensures
        ({
            let (x, k) = in_units(v, i);
            &&& i <= k <= 4
            &&& k == 4 || !Real::from_u64(1024).le(x)
            &&& i < 4 && Real::from_u64(1024).le(v) ==> in_units(v, i) == in_units(
                v.over(Real::from_u64(1024)),
                i + 1,
            )
            &&& i == 4 || !Real::from_u64(1024).le(v) ==> x == v && k == i
        }),
        ({
            let (x, k) = in_units(Real::from_u64(b), 0);
            &&& k == 0 ==> bytes_text(b) == decimal(b as nat) + " "@ + "B"@
            &&& k == 1 ==> bytes_text(b) == fixed_text(x, 2) + " "@ + "KB"@
            &&& k == 2 ==> bytes_text(b) == fixed_text(x, 2) + " "@ + "MB"@
            &&& k == 3 ==> bytes_text(b) == fixed_text(x, 2) + " "@ + "GB"@
            &&& k == 4 ==> bytes_text(b) == fixed_text(x, 2) + " "@ + "TB"@
        }),
    decreases 4 - i,
{
    if i < 4 && Real::from_u64(1024).le(v) {
        law_units_of_bytes(v.over(Real::from_u64(1024)), i + 1, b);
    }
    if i > 0 {
        lemma_units(Real::from_u64(b), 0);
    }
}

proof fn lemma_units(v: Real, i: nat)
    requires
        i <= 4,
    ensures
        i <= in_units(v, i).1 <= 4,
    decreases 4 - i,
{
    if i < 4 && Real::from_u64(1024).le(v) {
        lemma_units(v.over(Real::from_u64(1024)), i + 1);
    }
}

/// The made-up market: in the first half of an hour its price goes from the low to the high of the
/// hour, in the second half back; the best prices lie a quarter from it, and further levels a tenth
/// from each other.
pub proof fn law_made_up_market(n: int, mid: Real, level: u64)
    requires
        0 <= n < 1000,
    ensures
        ({
            let (high, low) = hour_range(n / 100);
            price_of(n) == price_within(
                Real::from_u64(high),
                Real::from_u64(low),
                (n % 100) as u64,
            )
        }),
        bid_of(mid, level) == mid.minus(fraction(1, 4)).minus(
            Real::from_u64(level).times(fraction(1, 10)),
        ),
        ask_of(mid, level) == mid.plus(fraction(1, 4)).plus(
            Real::from_u64(level).times(fraction(1, 10)),
        ),
{
    vstd::arithmetic::power2::lemma2_to64();
    vstd::arithmetic::power2::lemma2_to64_rest();
    crate::order::lemma_fraction(1, 4, 54, 0x10_0000_0000_0000);
    crate::order::lemma_fraction(1, 10, 56, 0x1999_9999_9999_9a);
}

/// Where a price of an hour lies: the part of the hour that has gone by, twice over, is the part of
/// the way up, and beyond the middle of the hour it is the part of the way down.
pub proof fn law_price_within_an_hour(high: Real, low: Real, i: u64)
    ensures
        ({
            let part = Real::from_u64(i).over(Real::from_u64(100));
            let half = fraction(1, 2);
            let way = high.minus(low);
            &&& part.lt(half) ==> price_within(high, low, i) == low.plus(
                way.times(part.times(Real::from_u64(2))),
            )
            &&& !part.lt(half) ==> price_within(high, low, i) == high.minus(
                way.times(part.minus(half).times(Real::from_u64(2))),
            )
        }),
        forall|hour: int| 0 <= hour < 10 ==> (#[trigger] hour_range(hour)).1 < hour_range(hour).0,
{
    vstd::arithmetic::power2::lemma2_to64();
    vstd::arithmetic::power2::lemma2_to64_rest();
    crate::order::lemma_fraction(1, 2, 53, 0x10_0000_0000_0000);
}

} // verus!
