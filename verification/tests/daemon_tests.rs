use prettyget::daemon::{
    daemon_runs, default_freq, default_time, due_now, should_run, DaemonConfig, LocalClock,
    ScDaemonControl,
};

fn clock(hm: &str, monday: bool, day: u32, stamp: &str) -> LocalClock {
    LocalClock { hour_minute: hm.into(), is_monday: monday, day, stamp: stamp.into() }
}

#[test]
fn default_config() {
    let c = DaemonConfig::default();
    assert_eq!(c.frequency, "daily");
    assert_eq!(c.time, "03:00");
    assert!(c.only.is_empty());
    assert!(c.enabled);
    assert_eq!(default_freq(), "daily");
    assert_eq!(default_time(), "03:00");
}

#[test]
fn runs_once_per_minute() {
    let cfg = DaemonConfig::default();
    let mut last = String::new();
    let now = clock("03:00", false, 5, "2024-05-05 03:00");
    assert!(due_now(&cfg, &now, &mut last));
    assert_eq!(last, "2024-05-05 03:00");
    assert!(!due_now(&cfg, &now, &mut last));
    assert!(!due_now(&cfg, &clock("03:01", false, 5, "2024-05-05 03:01"), &mut last));
    assert!(due_now(&cfg, &clock("03:00", false, 6, "2024-05-06 03:00"), &mut last));
}

#[test]
fn weekly_and_monthly_days() {
    let mut cfg = DaemonConfig::default();
    cfg.frequency = "weekly".into();
    let mut last = String::new();
    assert!(!due_now(&cfg, &clock("03:00", false, 1, "a"), &mut last));
    assert!(due_now(&cfg, &clock("03:00", true, 3, "b"), &mut last));
    cfg.frequency = "monthly".into();
    assert!(!due_now(&cfg, &clock("03:00", true, 3, "c"), &mut last));
    assert!(due_now(&cfg, &clock("03:00", false, 1, "d"), &mut last));
    assert_eq!(last, "d");
}

#[test]
fn runs_for_config() {
    let cfg = DaemonConfig::default();
    let runs = daemon_runs(&cfg);
    assert_eq!(runs.len(), 1);
    assert_eq!(runs[0].args[0..2], ["upgrade".to_string(), "--all".to_string()]);
    assert_eq!(runs[0].args.len(), 7);
    assert_eq!(runs[0].announce, "Ejecutando: winget upgrade --all");
    let mut cfg = DaemonConfig::default();
    cfg.only = vec!["Git.Git".into(), "bad id".into(), "7zip.7zip".into()];
    let runs = daemon_runs(&cfg);
    assert_eq!(runs.len(), 2);
    assert_eq!(runs[0].args[..4], ["upgrade", "--id", "Git.Git", "--exact"]);
    assert_eq!(runs[1].target, "7zip.7zip");
    assert_eq!(runs[1].announce, "Ejecutando: winget upgrade --id 7zip.7zip");
}

#[test]
fn sc_commands() {
    let sc = ScDaemonControl;
    assert_eq!(
        sc.install_args("C:\\d.exe"),
        vec!["create", "PrettyGetDaemon", "binPath= C:\\d.exe", "start=", "auto", "DisplayName=", "PrettyGet Update Daemon"]
    );
    assert_eq!(sc.uninstall_args(), vec!["delete", "PrettyGetDaemon"]);
    let mut cfg = DaemonConfig::default();
    assert_eq!(sc.apply_args(&cfg), vec!["start", "PrettyGetDaemon"]);
    cfg.enabled = false;
    assert_eq!(sc.apply_args(&cfg), vec!["stop", "PrettyGetDaemon"]);
    assert!(sc.outcome(true, b"x").is_ok());
    assert_eq!(sc.outcome(false, b" access denied \n").unwrap_err(), "access denied");
}

#[test]
fn disabled_daemon_never_runs() {
    let mut cfg = DaemonConfig::default();
    let now = clock("03:00", false, 5, "2024-05-05 03:00");
    let mut last = String::new();
    cfg.enabled = false;
    assert!(!should_run(&cfg, &now, &mut last));
    assert_eq!(last, "");
    cfg.enabled = true;
    assert!(should_run(&cfg, &now, &mut last));
    assert_eq!(last, "2024-05-05 03:00");
    assert!(!should_run(&cfg, &now, &mut last));
}
