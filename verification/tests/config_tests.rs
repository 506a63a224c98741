use downup::config::{plan_tests, server_settings, PlanError, TestPlan, NANOS_PER_SEC};

#[test]
fn plan_reads_the_three_durations() {
    let p = plan_tests("5s", "10s", "500ms").unwrap();
    assert_eq!(p, TestPlan { timeout: 5 * NANOS_PER_SEC, upload: 10 * NANOS_PER_SEC, download: 500_000_000 });
    assert!(p.runs_upload());
    assert!(!p.runs_download());
}

#[test]
fn plan_reports_the_first_bad_duration() {
    assert!(matches!(plan_tests("soon", "x", "y"), Err(PlanError::Timeout(_))));
    assert!(matches!(plan_tests("1s", "x", "y"), Err(PlanError::UploadTime(_))));
    assert!(matches!(plan_tests("1s", "2s", "y"), Err(PlanError::DownloadTime(_))));
}

#[test]
fn a_test_of_exactly_one_second_runs() {
    let p = plan_tests("1s", "1s", "0s").unwrap();
    assert!(p.runs_upload());
    assert!(!p.runs_download());
}

#[test]
fn server_address_joins_ip_and_port() {
    let s = server_settings("127.0.0.1", 6000, "3s").unwrap();
    assert_eq!(s.address, "127.0.0.1:6000");
    assert_eq!(s.timeout, 3 * NANOS_PER_SEC);
    assert!(server_settings("0.0.0.0", 0, "never").is_err());
}
