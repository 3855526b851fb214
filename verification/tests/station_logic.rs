use meteo_station::config::{NetworkConfig, StorageConfig, DEFAULT_FLUSH_INTERVAL, DEFAULT_UPLOAD_INTERVAL};
use meteo_station::connectivity::{ConnectivityProbe, ProbeStep, PING_ATTEMPTS};
use meteo_station::ntp::{SyncAction, SyncOutcome, SyncRetry};
use meteo_station::schedule::UploadCounter;
use meteo_station::storage::{data_file_name, data_file_name_for_date, FlushCounter};
use meteo_station::wind::{parse_wind_speed_reply, WIND_SPEED_QUERY};

#[test]
fn wind_query_frame() {
    assert_eq!(WIND_SPEED_QUERY, [0x02, 0x03, 0x00, 0x00, 0x00, 0x01, 0x84, 0x39]);
}

#[test]
fn wind_reply_accepted_only_with_seven_bytes_from_slave_two() {
    let buf = [0x02, 0x03, 0x02, 0x00, 0x2A, 0x7C, 0x5B, 0x00];
    assert_eq!(parse_wind_speed_reply(&buf, 7), Some(42));
    assert_eq!(parse_wind_speed_reply(&buf, 8), None);
    assert_eq!(parse_wind_speed_reply(&buf, 6), None);
    assert_eq!(parse_wind_speed_reply(&buf, 0), None);
    let other_slave = [0x01, 0x03, 0x02, 0x00, 0x2A, 0, 0, 0];
    assert_eq!(parse_wind_speed_reply(&other_slave, 7), None);
    let exception = [0x02, 0x83, 0x02, 0x00, 0x2A, 0, 0, 0];
    assert_eq!(parse_wind_speed_reply(&exception, 7), None);
    let big = [0x02, 0x03, 0x02, 0x12, 0x34, 0, 0, 0];
    assert_eq!(parse_wind_speed_reply(&big, 7), Some(0x1234));
}

#[test]
fn data_file_named_after_utc_date() {
    assert_eq!(data_file_name(0), Some("data/Data_19700101.bin".to_string()));
    assert_eq!(data_file_name(1_700_000_000), Some("data/Data_20231114.bin".to_string()));
    assert_eq!(data_file_name(86_399), Some("data/Data_19700101.bin".to_string()));
    assert_eq!(data_file_name(86_400), Some("data/Data_19700102.bin".to_string()));
    assert_eq!(data_file_name(-1), Some("data/Data_19691231.bin".to_string()));
    assert_eq!(data_file_name_for_date("20240229"), "data/Data_20240229.bin");
}

#[test]
fn data_file_name_out_of_chrono_range() {
    assert_eq!(data_file_name(i64::MAX), None);
    assert_eq!(data_file_name(i64::MIN), None);
    assert!(data_file_name(8_210_266_876_799).is_some());
    assert_eq!(data_file_name(8_210_266_876_800), None);
    assert!(data_file_name(-8_334_601_228_800).is_some());
    assert_eq!(data_file_name(-8_334_601_228_801), None);
}

#[test]
fn flush_every_fifth_record() {
    let mut c = FlushCounter::new(DEFAULT_FLUSH_INTERVAL);
    let flushes: Vec<bool> = (1..=12).map(|_| c.record_written()).collect();
    let expected: Vec<bool> = (1..=12).map(|k| k % 5 == 0).collect();
    assert_eq!(flushes, expected);
    assert_eq!(c.pending(), 2);
}

#[test]
fn flush_interval_zero_never_flushes() {
    let mut c = FlushCounter::new(0);
    for _ in 0..10 {
        assert!(!c.record_written());
    }
    assert_eq!(c.pending(), 10);
}

#[test]
fn upload_every_interval_when_cloud_on() {
    let mut u = UploadCounter::new();
    let uploads: Vec<bool> = (1..=10).map(|_| u.tick(true, 3)).collect();
    let expected: Vec<bool> = (1..=10).map(|k| k % 3 == 0).collect();
    assert_eq!(uploads, expected);
    assert_eq!(u.read_count(), 1);
}

#[test]
fn no_upload_when_cloud_off() {
    let mut u = UploadCounter::new();
    for _ in 0..7 {
        assert!(!u.tick(false, 3));
    }
    assert_eq!(u.read_count(), 7);
}

#[test]
fn connectivity_first_ping_success() {
    let mut p = ConnectivityProbe::new();
    assert_eq!(p.record_ping(true), ProbeStep::Connected);
}

#[test]
fn connectivity_second_ping_success() {
    let mut p = ConnectivityProbe::new();
    assert_eq!(p.record_ping(false), ProbeStep::PingAgain);
    assert_eq!(p.record_ping(true), ProbeStep::Connected);
}

#[test]
fn connectivity_two_failures() {
    assert_eq!(PING_ATTEMPTS, 2);
    let mut p = ConnectivityProbe::new();
    assert_eq!(p.record_ping(false), ProbeStep::PingAgain);
    assert_eq!(p.record_ping(false), ProbeStep::Unreachable);
}

#[test]
fn ntp_retry_budget_with_doubling_pauses() {
    let mut s = SyncRetry::new(3);
    assert_eq!(s.decide(SyncOutcome::OtherError), SyncAction::RetryAfter { secs: 0, millis: 500 });
    assert_eq!(s.decide(SyncOutcome::OtherError), SyncAction::RetryAfter { secs: 1, millis: 0 });
    assert_eq!(s.decide(SyncOutcome::OtherProtocolError), SyncAction::RetryNow);
    assert_eq!(s.decide(SyncOutcome::OtherError), SyncAction::RetryAfter { secs: 2, millis: 0 });
    assert_eq!(s.decide(SyncOutcome::OtherError), SyncAction::GiveUp);
}

#[test]
fn ntp_terminal_outcomes() {
    let mut s = SyncRetry::new(3);
    assert_eq!(s.decide(SyncOutcome::KissOfDeath), SyncAction::GiveUp);
    let mut s = SyncRetry::new(0);
    assert_eq!(s.decide(SyncOutcome::Synced), SyncAction::Done);
    assert_eq!(s.decide(SyncOutcome::OtherError), SyncAction::GiveUp);
}

#[test]
fn ntp_unlimited_retries_until_pause_overflows() {
    let mut s = SyncRetry::new(-1);
    for k in 0..64u32 {
        assert!(!s.would_overflow(SyncOutcome::OtherError));
        let expected = if k == 0 {
            SyncAction::RetryAfter { secs: 0, millis: 500 }
        } else {
            SyncAction::RetryAfter { secs: 1u64 << (k - 1), millis: 0 }
        };
        assert_eq!(s.decide(SyncOutcome::OtherError), expected);
    }
    assert!(s.would_overflow(SyncOutcome::OtherError));
    assert!(!s.would_overflow(SyncOutcome::Synced));
    assert_eq!(s.decide(SyncOutcome::Synced), SyncAction::Done);
}

#[test]
fn config_defaults() {
    let n = NetworkConfig { check_host: "example.org".to_string(), ntp_host: None };
    assert_eq!(n.ntp_host_or_default(), "203.107.6.88");
    let n = NetworkConfig { check_host: "example.org".to_string(), ntp_host: Some("pool.ntp.org".to_string()) };
    assert_eq!(n.ntp_host_or_default(), "pool.ntp.org");
    let s = StorageConfig { local_storage: None, flush_interval: None, cloud_storage: None, upload_interval: None };
    assert!(!s.local_storage_enabled());
    assert!(!s.cloud_storage_enabled());
    assert_eq!(s.upload_interval_or_default(), DEFAULT_UPLOAD_INTERVAL);
    assert_eq!(s.flush_interval_or_default(), DEFAULT_FLUSH_INTERVAL);
    let s = StorageConfig { local_storage: Some(true), flush_interval: Some(2), cloud_storage: Some(true), upload_interval: Some(9) };
    assert!(s.local_storage_enabled());
    assert!(s.cloud_storage_enabled());
    assert_eq!(s.upload_interval_or_default(), 9);
    assert_eq!(s.flush_interval_or_default(), 2);
}
