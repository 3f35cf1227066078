//! Signs of life of a program that runs unattended: a heartbeat, the space that is left on the
//! disk, and whether the disk can still be written.

use crate::fixed::fixed_text;
use crate::number::signed;
use crate::number::Real;
use crate::order::law_numbers_round_to_themselves;
use crate::order::law_order_is_that_of_values;
use crate::order::law_rounding_keeps_order;
use crate::order::law_times_keeps_order;
use crate::order::lemma_mag_units_order;
use crate::parse::lemma_from_small;
use crate::persistence::secs_or;
use crate::persistence::secs_setting;
use crate::rounding::lemma_pow2_53;
use crate::rounding::mag_units;
use crate::rounding::nearest_mag;
use crate::rounding::BINADE;
use crate::rounding::UNIT_EXP;
use crate::text::decimal;
use crate::text::decimal_text;
use vstd::arithmetic::power2::lemma2_to64;
use vstd::arithmetic::power2::lemma2_to64_rest;
use vstd::arithmetic::power2::lemma_pow2_adds;
use vstd::arithmetic::power2::lemma_pow2_pos;
use vstd::arithmetic::power2::pow2;
use vstd::prelude::*;
use vstd::string::*;

verus! {

/// Seconds between two checks.
pub const DEFAULT_INTERVAL_SECS: u64 = 60;

/// Share of the disk, in percent, from which its use is told: 50.
pub const DISK_INFO_PCT: u64 = 0x4049_0000_0000_0000;

/// Share of the disk, in percent, from which its use is warned of: 80.
pub const DISK_WARN_PCT: u64 = 0x4054_0000_0000_0000;

/// Share of the disk, in percent, from which its use is an error: 95.
pub const DISK_ERROR_PCT: u64 = 0x4057_c000_0000_0000;

/// What to check, and how often.
#[derive(Debug)]
pub struct HealthConfig {
    /// Directory on the disk that is checked.
    pub persistence_path: String,
    pub interval_secs: u64,
    /// Whether to write a file to see that it can be written.
    pub canary_write: bool,
}

impl HealthConfig {
    /// The settings that the environment gives: `AUGUR_HEALTH_INTERVAL_SECS`, where it is set.
    pub fn from_env(persistence_path: String, interval: Option<String>) -> (r: Self)
        ensures
            r.persistence_path == persistence_path,
            r.interval_secs == secs_or(interval, DEFAULT_INTERVAL_SECS),
            r.canary_write,
    {
        HealthConfig {
            persistence_path,
            interval_secs: secs_setting(&interval, DEFAULT_INTERVAL_SECS),
            canary_write: true,
        }
    }
}

/// The size of a disk, and how much of it is free.
#[derive(Debug, Clone, Copy)]
pub struct DiskSpace {
    pub total_bytes: u64,
    pub free_bytes: u64,
    /// In percent.
    pub used_pct: Real,
}

impl DiskSpace {
    /// No more is free than there is.
    pub open spec fn wf(self) -> bool {
        self.free_bytes <= self.total_bytes
    }
}

/// The share of a disk that is used, in percent.
pub open spec fn used_share(total: u64, free: u64) -> Real {
    Real::from_u64((total - free) as u64).over(Real::from_u64(total)).times(Real::from_u64(100))
}

/// The space of a disk, from its count of blocks, the count of those that are free for us, and
/// the size of a block. A disk without space has none to speak of.
pub fn disk_space(blocks: u64, available: u64, block_size: u64) -> (r: Option<DiskSpace>)
    requires
        blocks * block_size <= u64::MAX,
        available * block_size <= u64::MAX,
        blocks * block_size > 0 ==> available <= blocks,
    ensures
        match r {
            Some(d) => {
                &&& d.total_bytes == blocks * block_size
                &&& d.free_bytes == available * block_size
                &&& d.used_pct == used_share(d.total_bytes, d.free_bytes)
                &&& d.total_bytes > 0
                &&& d.wf()
            },
            None => blocks * block_size == 0,
        },
{
    proof {
        assert(blocks * block_size >= 0 && available * block_size >= 0) by (nonlinear_arith);
    }
    let total: u64 = blocks * block_size;
    let free: u64 = available * block_size;
    if total == 0 {
        return None;
    }
    proof {
        assert(available * block_size <= blocks * block_size) by (nonlinear_arith)
            requires
                available <= blocks,
        ;
    }
    let used_pct: Real = Real::from_u64(total - free).over(Real::from_u64(total)).times(
        Real::from_u64(100),
    );
    Some(DiskSpace { total_bytes: total, free_bytes: free, used_pct })
}

/// What is written to see that it can be written: "augur health check".
pub open spec fn canary_bytes() -> Seq<u8> {
    seq![
        97u8, 117, 103, 117, 114, 32, 104, 101, 97, 108, 116, 104, 32, 99, 104, 101, 99, 107,
    ]
}

/// What is written to see that it can be written.
pub fn canary_content() -> (r: Vec<u8>)
    ensures
        r@ == canary_bytes(),
{
    let r: Vec<u8> = vec![
        97, 117, 103, 117, 114, 32, 104, 101, 97, 108, 116, 104, 32, 99, 104, 101, 99, 107,
    ];
    assert(r@ =~= canary_bytes());
    r
}

/// How the writing of the file went.
#[derive(Debug)]
pub enum CanaryRun {
    WriteFailed(String),
    ReadFailed(String),
    /// The file was written, and this was read back.
    ReadBack(Vec<u8>),
}

/// What is wrong with the disk, if anything.
pub open spec fn canary_fault(path: Seq<char>, run: CanaryRun) -> Option<Seq<char>> {
    match run {
        CanaryRun::WriteFailed(e) => Some("canary write to "@ + path + " failed: "@ + e@),
        CanaryRun::ReadFailed(e) => Some("canary read-back failed: "@ + e@),
        CanaryRun::ReadBack(content) => if content@ == canary_bytes() {
            None
        } else {
            Some("canary content mismatch at "@ + path)
        },
    }
}

/// Whether bytes are the expected ones.
fn same_bytes(a: &Vec<u8>, b: &Vec<u8>) -> (r: bool)
    ensures
        r == (a@ == b@),
{
    if a.len() != b.len() {
        return false;
    }
    let mut i: usize = 0;
    while i < a.len()
        invariant
            i <= a.len(),
            a.len() == b.len(),
            forall|k: int| 0 <= k < i ==> a@[k] == b@[k],
        decreases a.len() - i,
    {
        if a[i] != b[i] {
            return false;
        }
        i = i + 1;
    }
    assert(a@ =~= b@);
    true
}

/// Whether the disk can be written: the file at `path` was written and holds what was written.
pub fn canary_write(path: &str, run: CanaryRun) -> (r: Result<(), String>)
    ensures
        match r {
            Ok(_) => canary_fault(path@, run) is None,
            Err(e) => canary_fault(path@, run) == Some(e@),
        },
{
    match run {
        CanaryRun::WriteFailed(e) => {
            let mut s = "canary write to ".to_owned();
            s.append(path);
            s.append(" failed: ");
            s.append(e.as_str());
            Err(s)
        },
        CanaryRun::ReadFailed(e) => {
            let mut s = "canary read-back failed: ".to_owned();
            s.append(e.as_str());
            Err(s)
        },
        CanaryRun::ReadBack(content) => {
            if same_bytes(&content, &canary_content()) {
                Ok(())
            } else {
                let mut s = "canary content mismatch at ".to_owned();
                s.append(path);
                Err(s)
            }
        },
    }
}

/// Whether a task that runs in the background ends, after news on the channel that can tell it to:
/// when it was told to, and when nobody is left to tell.
pub fn stops(channel_open: bool, asked: bool) -> (r: bool)
    ensures
        r == (!channel_open || asked),
{
    !channel_open || asked
}

/// The outcome of a check.
#[derive(Debug)]
pub struct HealthSnapshot {
    pub disk: Option<DiskSpace>,
    pub canary_ok: bool,
    pub canary_error: Option<String>,
}

impl HealthSnapshot {
    pub open spec fn wf(self) -> bool {
        match self.disk {
            Some(d) => d.wf(),
            None => true,
        }
    }
}

/// Sums up a check: the space of the disk, and what came of the file where one was to be written.
pub fn perform_check(
    config: &HealthConfig,
    disk: Option<DiskSpace>,
    canary: Result<(), String>,
) -> (r: HealthSnapshot)
    ensures
        r.disk == disk,
        r.canary_ok == (!config.canary_write || canary is Ok),
        match canary {
            Err(e) => if config.canary_write {
                r.canary_error == Some(e)
            } else {
                r.canary_error is None
            },
            Ok(_) => r.canary_error is None,
        },
{
    if config.canary_write {
        match canary {
            Ok(_) => HealthSnapshot { disk, canary_ok: true, canary_error: None },
            Err(e) => HealthSnapshot { disk, canary_ok: false, canary_error: Some(e) },
        }
    } else {
        HealthSnapshot { disk, canary_ok: true, canary_error: None }
    }
}

/// Units of bytes, each 1024 times the one before.
pub open spec fn unit_name(i: nat) -> Seq<char> {
    if i == 0 {
        "B"@
    } else if i == 1 {
        "KB"@
    } else if i == 2 {
        "MB"@
    } else if i == 3 {
        "GB"@
    } else {
        "TB"@
    }
}

/// A count in the largest unit in which it is at least one, and that unit. There is no unit
/// above the fourth.
pub open spec fn in_units(v: Real, i: nat) -> (Real, nat)
    decreases 4 - i,
{
    if i < 4 && Real::from_u64(1024).le(v) {
        in_units(v.over(Real::from_u64(1024)), i + 1)
    } else {
        (v, i)
    }
}

/// A count of bytes in words.
pub open spec fn bytes_text(b: u64) -> Seq<char> {
    let (v, i) = in_units(Real::from_u64(b), 0);
    if i == 0 {
        decimal(b as nat) + " "@ + unit_name(i)
    } else {
        fixed_text(v, 2) + " "@ + unit_name(i)
    }
}

/// A count of bytes in words.
pub fn fmt_bytes(b: u64) -> (s: String)
    ensures
        s@ == bytes_text(b),
{
    let step: Real = Real::from_u64(1024);
    let mut v: Real = Real::from_u64(b);
    let mut i: usize = 0;
    while i < 4 && step.le(v)
        invariant
            i <= 4,
            step == Real::from_u64(1024),
            in_units(v, i as nat) == in_units(Real::from_u64(b), 0),
        decreases 4 - i,
    {
        v = v.over(step);
        i = i + 1;
    }
    let unit = if i == 0 {
        "B"
    } else if i == 1 {
        "KB"
    } else if i == 2 {
        "MB"
    } else if i == 3 {
        "GB"
    } else {
        "TB"
    };
    let mut s = if i == 0 { decimal_text(b) } else { v.fixed(2) };
    s.append(" ");
    s.append(unit);
    s
}

/// How loud a line is.
#[derive(Debug, Clone, Copy, PartialEq, Eq, Structural)]
pub enum Level {
    Info,
    Warn,
    Error,
}

/// What is told after a check.
#[derive(Debug)]
pub struct HealthReport {
    /// Told every time.
    pub heartbeat: String,
    pub disk: Option<(Level, String)>,
    pub canary: Option<(Level, String)>,
}

/// What the heartbeat tells of the disk.
pub open spec fn disk_line(disk: Option<DiskSpace>) -> Seq<char> {
    match disk {
        Some(d) => "disk: "@ + bytes_text((d.total_bytes - d.free_bytes) as u64) + "/"@ + bytes_text(
            d.total_bytes,
        ) + " used ("@ + fixed_text(d.used_pct, 1) + "%)"@,
        None => "disk: (unavailable)"@,
    }
}

/// What is told of a disk that fills up.
pub open spec fn disk_alarm(disk: Option<DiskSpace>) -> Option<(Level, Seq<char>)> {
    match disk {
        None => None,
        Some(d) => {
            let used = fixed_text(d.used_pct, 1);
            let free = bytes_text(d.free_bytes);
            if (Real { bits: DISK_ERROR_PCT }).le(d.used_pct) {
                Some(
                    (
                        Level::Error,
                        "DISK CRITICAL: "@ + used + "% used, only "@ + free
                            + " free — persistence will fail soon!"@,
                    ),
                )
            } else if (Real { bits: DISK_WARN_PCT }).le(d.used_pct) {
                Some(
                    (Level::Warn, "disk WARN: "@ + used + "% used, "@ + free + " free remaining"@),
                )
            } else if (Real { bits: DISK_INFO_PCT }).le(d.used_pct) {
                Some((Level::Info, "disk fill: "@ + used + "% used, "@ + free + " free"@))
            } else {
                None
            }
        },
    }
}

/// Failures in a row, after a check.
pub open spec fn failures_after(failures: nat, ok: bool) -> nat {
    if ok { 0 } else { failures + 1 }
}

/// What is told of the file: every failure, and the first success after failures.
pub open spec fn canary_alarm(failures: nat, ok: bool, error: Option<Seq<char>>) -> Option<
    (Level, Seq<char>),
> {
    if !ok {
        Some(
            (
                Level::Error,
                "CANARY FAILURE #"@ + decimal(failures + 1) + ": "@ + (match error {
                    Some(e) => e,
                    None => "(no detail)"@,
                }) + " — persistence path is not writable, ticks/books are being dropped!"@,
            ),
        )
    } else if failures > 0 {
        Some(
            (Level::Info, "canary recovered after "@ + decimal(failures) + " failures"@),
        )
    } else {
        None
    }
}

/// The contents of a line.
pub open spec fn line_of(line: Option<(Level, String)>) -> Option<(Level, Seq<char>)> {
    match line {
        Some((level, s)) => Some((level, s@)),
        None => None,
    }
}

/// What the heartbeat tells of the disk.
fn disk_line_text(disk: &Option<DiskSpace>) -> (s: String)
    requires
        disk matches Some(d) ==> d.wf(),
    ensures
        s@ == disk_line(*disk),
{
    match disk {
        Some(d) => {
            let mut s = "disk: ".to_owned();
            s.append(fmt_bytes(d.total_bytes - d.free_bytes).as_str());
            s.append("/");
            s.append(fmt_bytes(d.total_bytes).as_str());
            s.append(" used (");
            s.append(d.used_pct.fixed(1).as_str());
            s.append("%)");
            s
        },
        None => "disk: (unavailable)".to_owned(),
    }
}

/// What is told of a disk that fills up.
fn disk_alarm_text(disk: &Option<DiskSpace>) -> (r: Option<(Level, String)>)
    ensures
        line_of(r) == disk_alarm(*disk),
{
    match disk {
        None => None,
        Some(d) => {
            let used = d.used_pct.fixed(1);
            let free = fmt_bytes(d.free_bytes);
            if (Real { bits: DISK_ERROR_PCT }).le(d.used_pct) {
                let mut s = "DISK CRITICAL: ".to_owned();
                s.append(used.as_str());
                s.append("% used, only ");
                s.append(free.as_str());
                s.append(" free — persistence will fail soon!");
                Some((Level::Error, s))
            } else if (Real { bits: DISK_WARN_PCT }).le(d.used_pct) {
                let mut s = "disk WARN: ".to_owned();
                s.append(used.as_str());
                s.append("% used, ");
                s.append(free.as_str());
                s.append(" free remaining");
                Some((Level::Warn, s))
            } else if (Real { bits: DISK_INFO_PCT }).le(d.used_pct) {
                let mut s = "disk fill: ".to_owned();
                s.append(used.as_str());
                s.append("% used, ");
                s.append(free.as_str());
                s.append(" free");
                Some((Level::Info, s))
            } else {
                None
            }
        },
    }
}

/// The checks of a running program.
pub struct Monitor {
    failures: u32,
}

impl Monitor {
    /// Failures in a row so far.
    pub closed spec fn spec_failures(&self) -> u32 {
        self.failures
    }

    pub fn new() -> (r: Self)
        ensures
            r.spec_failures() == 0,
    {
        Monitor { failures: 0 }
    }

    pub fn failures(&self) -> (r: u32)
        ensures
            r == self.spec_failures(),
    {
        self.failures
    }

    /// Takes in the outcome of a check, and says what to tell.
    pub fn report(&mut self, snap: &HealthSnapshot) -> (r: HealthReport)
        requires
            snap.wf(),
            snap.canary_ok || old(self).spec_failures() < u32::MAX,
        ensures
            r.heartbeat@ == disk_line(snap.disk),
            line_of(r.disk) == disk_alarm(snap.disk),
            line_of(r.canary) == canary_alarm(
                old(self).spec_failures() as nat,
                snap.canary_ok,
                match snap.canary_error {
                    Some(e) => Some(e@),
                    None => None,
                },
            ),
            final(self).spec_failures() == failures_after(
                old(self).spec_failures() as nat,
                snap.canary_ok,
            ),
    {
        let canary: Option<(Level, String)> = if !snap.canary_ok {
            self.failures = self.failures + 1;
            let mut s = "CANARY FAILURE #".to_owned();
            s.append(decimal_text(self.failures as u64).as_str());
            s.append(": ");
            match &snap.canary_error {
                Some(e) => s.append(e.as_str()),
                None => s.append("(no detail)"),
            }
            s.append(" — persistence path is not writable, ticks/books are being dropped!");
            Some((Level::Error, s))
        } else {
            let failures: u32 = self.failures;
            self.failures = 0;
            if failures > 0 {
                let mut s = "canary recovered after ".to_owned();
                s.append(decimal_text(failures as u64).as_str());
                s.append(" failures");
                Some((Level::Info, s))
            } else {
                None
            }
        };
        HealthReport {
            heartbeat: disk_line_text(&snap.disk),
            disk: disk_alarm_text(&snap.disk),
            canary,
        }
    }
}

/// Every count of bytes is a number, and larger counts are larger numbers.
proof fn lemma_counts(a: u64, b: u64)
    requires
        a <= b,
    ensures
        Real::from_u64(a).finite(),
        Real::from_u64(b).finite(),
        !Real::from_u64(a).neg(),
        !Real::from_u64(b).neg(),
        Real::from_u64(a).mag() <= Real::from_u64(b).mag(),
        Real::from_u64(a).mag() == Real::from_u64(a).bits,
        Real::from_u64(b).mag() == Real::from_u64(b).bits,
{
    reveal(Real::spec_from_u64);
    let u = pow2(UNIT_EXP as nat);
    let top = Real { bits: 0x43f0_0000_0000_0000 };
    lemma_pow2_53();
    assert(mag_units(top.mag()) == pow2(64) * u) by {
        assert(top.mag() == 0x43f0_0000_0000_0000);
        lemma_pow2_adds(52, 1086);
        lemma_pow2_adds(64, UNIT_EXP as nat);
        assert(top.mag() % (BINADE as nat) == 0);
        assert(top.mag() / (BINADE as nat) == 1087);
    }
    law_numbers_round_to_themselves(top, 1);
    lemma2_to64();
    lemma2_to64_rest();
    assert(a * u <= b * u <= pow2(64) * u) by (nonlinear_arith)
        requires
            a <= b,
            b <= pow2(64),
    ;
    assert(a * u >= 0) by (nonlinear_arith);
    assert((pow2(64) * u) * 1 == pow2(64) * u);
    law_rounding_keeps_order((a * u) as nat, (b * u) as nat, 1);
    law_rounding_keeps_order((b * u) as nat, pow2(64) * u, 1);
}

/// The share of a disk that is used lies between nothing and all of it.
pub proof fn law_share_is_a_percentage(total: u64, free: u64)
    requires
        free <= total,
        total > 0,
    ensures
        Real::from_u64(0).le(used_share(total, free)),
        used_share(total, free).le(Real::from_u64(100)),
{
    let used = (total - free) as u64;
    let a = Real::from_u64(used);
    let b = Real::from_u64(total);
    let one = Real::from_u64(1);
    let hundred = Real::from_u64(100);
    let u = pow2(UNIT_EXP as nat);
    lemma_pow2_pos(UNIT_EXP as nat);
    lemma_counts(used, total);
    lemma_counts(1, total);
    lemma_counts(0, 100);
    lemma_from_small(0);
    lemma_from_small(1);
    lemma_from_small(100);
    let (x, y) = (mag_units(a.mag()), mag_units(b.mag()));
    if a.mag() < b.mag() {
        lemma_mag_units_order(a.mag(), b.mag());
    }
    if one.mag() < b.mag() {
        lemma_mag_units_order(one.mag(), b.mag());
    }
    assert(1 * u == u);
    assert(y >= u > 0);
    assert(!b.zero());
    law_numbers_round_to_themselves(one, y);
    assert(x * u <= u * y) by (nonlinear_arith)
        requires
            x <= y,
    ;
    law_rounding_keeps_order(x * u, u * y, y);
    let q = a.over(b);
    assert(q == signed(false, nearest_mag(x * u, y))) by {
        reveal(Real::spec_over);
    }
    assert(q.finite() && !q.neg());
    assert(q.le(one));
    law_times_keeps_order(q, one, hundred);
    let z = mag_units(hundred.mag());
    law_numbers_round_to_themselves(hundred, u);
    assert(u * z == z * u) by (nonlinear_arith);
    assert(one.times(hundred) == hundred) by {
        reveal(Real::spec_times);
    }
    assert(used_share(total, free) == signed(
        false,
        nearest_mag(mag_units(q.mag()) * z, u),
    )) by {
        reveal(Real::spec_times);
    }
    let zero = Real::from_u64(0);
    if zero.mag() > 0 {
        lemma_mag_units_order(0, zero.mag());
    }
    let w = mag_units(q.mag());
    if q.mag() < one.mag() {
        lemma_mag_units_order(q.mag(), one.mag());
    }
    assert(w * z <= u * z) by (nonlinear_arith)
        requires
            w <= u,
    ;
    law_rounding_keeps_order(w * z, u * z, u);
}

/// Counts below 1024 are told in bytes and as they are, and only those.
pub proof fn law_small_counts_are_exact(b: u64)
    ensures
        b < 1024 ==> bytes_text(b) == decimal(b as nat) + " "@ + "B"@,
        b >= 1024 <==> in_units(Real::from_u64(b), 0).1 > 0,
{
    lemma_from_small(1024);
    let k = Real::from_u64(1024);
    let v = Real::from_u64(b);
    if b < 1024 {
        lemma_from_small(b);
        law_order_is_that_of_values(k, v);
        let u = pow2(UNIT_EXP as nat);
        lemma_pow2_pos(UNIT_EXP as nat);
        assert(b * u < 1024 * u) by (nonlinear_arith)
            requires
                b < 1024,
                u > 0,
        ;
    } else {
        lemma_counts(1024, b);
        assert(k.le(v));
        lemma_units_grow(v.over(k), 1);
    }
}

/// The unit only grows.
proof fn lemma_units_grow(v: Real, i: nat)
    ensures
        in_units(v, i).1 >= i,
    decreases 4 - i,
{
    if i < 4 && Real::from_u64(1024).le(v) {
        lemma_units_grow(v.over(Real::from_u64(1024)), i + 1);
    }
}

/// Failures are counted without a gap, and a success ends the count.
pub proof fn law_failures_are_counted(failures: nat, error: Option<Seq<char>>)
    ensures
        failures_after(failures, false) == failures + 1,
        failures_after(failures, true) == 0,
        canary_alarm(failures, false, error) is Some,
        canary_alarm(failures, true, error) is Some <==> failures > 0,
{
}

} // verus!
