use augur::health::canary_content;
use augur::health::canary_write;
use augur::health::disk_space;
use augur::health::fmt_bytes;
use augur::health::perform_check;
use augur::health::stops;
use augur::health::CanaryRun;
use augur::health::DiskSpace;
use augur::health::HealthConfig;
use augur::health::HealthSnapshot;
use augur::health::Level;
use augur::health::Monitor;
use augur::health::DISK_ERROR_PCT;
use augur::health::DISK_INFO_PCT;
use augur::health::DISK_WARN_PCT;

fn config(canary: bool) -> HealthConfig {
    HealthConfig {
        persistence_path: "/mnt/usb_ssd/augur_data".to_string(),
        interval_secs: 60,
        canary_write: canary,
    }
}

fn disk(total: u64, free: u64) -> Option<DiskSpace> {
    disk_space(total, free, 1)
}

#[test]
fn fmt_bytes_human_readable() {
    assert_eq!(fmt_bytes(0), "0 B");
    assert_eq!(fmt_bytes(512), "512 B");
    assert_eq!(fmt_bytes(2048), "2.00 KB");
    assert_eq!(fmt_bytes(5 * 1024 * 1024), "5.00 MB");
    assert_eq!(fmt_bytes(3_500_000_000), "3.26 GB");
}

#[test]
fn bytes_change_unit_at_powers_of_1024() {
    assert_eq!(fmt_bytes(1023), "1023 B");
    assert_eq!(fmt_bytes(1024), "1.00 KB");
    assert_eq!(fmt_bytes(1024 * 1024 - 1), "1024.00 KB");
    assert_eq!(fmt_bytes(1024 * 1024 * 1024 * 1024), "1.00 TB");
    assert_eq!(fmt_bytes(1 << 50), "1024.00 TB");
    assert_eq!(fmt_bytes(u64::MAX), "16777216.00 TB");
}

#[test]
fn thresholds_are_fifty_eighty_and_ninety_five() {
    assert_eq!(f64::from_bits(DISK_INFO_PCT), 50.0);
    assert_eq!(f64::from_bits(DISK_WARN_PCT), 80.0);
    assert_eq!(f64::from_bits(DISK_ERROR_PCT), 95.0);
}

#[test]
fn disk_space_counts_blocks() {
    let d = disk_space(1000, 250, 4096).unwrap();
    assert_eq!(d.total_bytes, 4_096_000);
    assert_eq!(d.free_bytes, 1_024_000);
    assert_eq!(f64::from_bits(d.used_pct.bits), 75.0);
    assert!(disk_space(0, 0, 4096).is_none());
    assert!(disk_space(1000, 250, 0).is_none());
    assert!(disk_space(0, 250, 4096).is_none());
}

#[test]
fn interval_is_read_from_the_environment() {
    let path = || "/data".to_string();
    assert_eq!(HealthConfig::from_env(path(), None).interval_secs, 60);
    assert_eq!(HealthConfig::from_env(path(), Some("15".to_string())).interval_secs, 15);
    assert_eq!(HealthConfig::from_env(path(), Some("soon".to_string())).interval_secs, 60);
    assert!(HealthConfig::from_env(path(), None).canary_write);
}

#[test]
fn canary_faults_are_told_apart() {
    let path = "/data/.augur_canary";
    assert_eq!(canary_content(), b"augur health check".to_vec());
    assert_eq!(canary_write(path, CanaryRun::ReadBack(canary_content())), Ok(()));
    assert_eq!(
        canary_write(path, CanaryRun::ReadBack(b"augur health chekc".to_vec())),
        Err("canary content mismatch at /data/.augur_canary".to_string()),
    );
    assert_eq!(
        canary_write(path, CanaryRun::ReadBack(Vec::new())),
        Err("canary content mismatch at /data/.augur_canary".to_string()),
    );
    assert_eq!(
        canary_write(path, CanaryRun::WriteFailed("disk full".to_string())),
        Err("canary write to /data/.augur_canary failed: disk full".to_string()),
    );
    assert_eq!(
        canary_write(path, CanaryRun::ReadFailed("gone".to_string())),
        Err("canary read-back failed: gone".to_string()),
    );
}

#[test]
fn perform_check_aggregates_signals() {
    let snap = perform_check(&config(true), disk(100, 40), Ok(()));
    assert!(snap.disk.is_some());
    assert!(snap.canary_ok);
    assert!(snap.canary_error.is_none());
    let snap = perform_check(&config(true), None, Err("gone".to_string()));
    assert!(snap.disk.is_none());
    assert!(!snap.canary_ok);
    assert_eq!(snap.canary_error, Some("gone".to_string()));
}

#[test]
fn perform_check_canary_disabled() {
    let snap = perform_check(&config(false), None, Err("never tried".to_string()));
    assert!(snap.canary_ok);
    assert!(snap.canary_error.is_none());
    assert!(snap.disk.is_none());
}

#[test]
fn report_escalates_with_the_disk() {
    let mut monitor = Monitor::new();
    let quiet = monitor.report(&perform_check(&config(true), disk(1000, 501), Ok(())));
    assert_eq!(quiet.heartbeat, "disk: 499 B/1000 B used (49.9%)");
    assert!(quiet.disk.is_none());
    assert!(quiet.canary.is_none());
    let told = monitor.report(&perform_check(&config(true), disk(1000, 500), Ok(())));
    assert_eq!(told.disk, Some((Level::Info, "disk fill: 50.0% used, 500 B free".to_string())));
    let warned = monitor.report(&perform_check(&config(true), disk(1000, 200), Ok(())));
    assert_eq!(
        warned.disk,
        Some((Level::Warn, "disk WARN: 80.0% used, 200 B free remaining".to_string())),
    );
    let alarmed = monitor.report(&perform_check(&config(true), disk(1000, 50), Ok(())));
    assert_eq!(
        alarmed.disk,
        Some((
            Level::Error,
            "DISK CRITICAL: 95.0% used, only 50 B free — persistence will fail soon!".to_string(),
        )),
    );
    let blind = monitor.report(&perform_check(&config(true), None, Ok(())));
    assert_eq!(blind.heartbeat, "disk: (unavailable)");
    assert!(blind.disk.is_none());
}

#[test]
fn report_counts_failures_until_recovery() {
    let mut monitor = Monitor::new();
    let failing = || perform_check(&config(true), None, Err("gone".to_string()));
    assert_eq!(
        monitor.report(&failing()).canary,
        Some((
            Level::Error,
            "CANARY FAILURE #1: gone — persistence path is not writable, ticks/books are being dropped!".to_string(),
        )),
    );
    monitor.report(&failing());
    assert_eq!(monitor.failures(), 2);
    let mute = HealthSnapshot { disk: None, canary_ok: false, canary_error: None };
    assert_eq!(
        monitor.report(&mute).canary,
        Some((
            Level::Error,
            "CANARY FAILURE #3: (no detail) — persistence path is not writable, ticks/books are being dropped!".to_string(),
        )),
    );
    let well = perform_check(&config(true), None, Ok(()));
    assert_eq!(
        monitor.report(&well).canary,
        Some((Level::Info, "canary recovered after 3 failures".to_string())),
    );
    assert_eq!(monitor.failures(), 0);
    assert_eq!(monitor.report(&well).canary, None);
}

#[test]
fn tasks_stop_when_told_or_left_alone() {
    assert!(stops(true, true));
    assert!(stops(false, false));
    assert!(stops(false, true));
    assert!(!stops(true, false));
}
