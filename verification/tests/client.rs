use sync::protocol::client::{
    os_code, session_step, update_names, upload_step, wants_update, ConnEvent, ConnLoop, SessionStep, UploadStep,
};
use sync::types::configclnt::ConfigClnt;
use sync::types::dirtoarhiv::{DirToArhiv, FileInfo};
use sync::types::{DEFAULT_CLIENT_RECONNECT_ERROR, DEFAULT_UPDATE};
use sync::utils::cli::{log_level, old_log_name, should_rotate_log, LogLevel};
use sync::utils::listdirs::{directorys_info_to_string_part2, drive_roots, is_excluded, EXCLUE_DIRS_DEFAULT};

fn job(alias: &str) -> DirToArhiv {
    DirToArhiv {
        base: "/data".to_string(),
        alias: alias.to_string(),
        path: "docs".to_string(),
        files: vec![],
        login: "bob".to_string(),
        id: "7".to_string(),
        hostname: "pc".to_string(),
    }
}

#[test]
fn gives_up_after_the_allowed_failures() {
    let mut l = ConnLoop::new();
    let mut reconnects = 0;
    loop {
        let a = l.step(ConnEvent::ConnectFailed);
        assert_eq!(a.wait_secs, DEFAULT_CLIENT_RECONNECT_ERROR);
        if !a.reconnect {
            break;
        }
        reconnects += 1;
    }
    assert_eq!(reconnects, 14);
    assert_eq!(l.error_count, 0);
}

#[test]
fn failed_job_is_retried_first() {
    let mut l = ConnLoop::new();
    let a = l.step(ConnEvent::TaskFailed(job("EFI")));
    assert!(a.reconnect);
    assert_eq!(a.wait_secs, 0);
    assert_eq!(l.last.as_ref().unwrap().alias, "EFI");
    let a = l.step(ConnEvent::ConnectFailed);
    assert!(a.reconnect);
    assert_eq!(l.last.as_ref().unwrap().alias, "EFI");
    let a = l.step(ConnEvent::SessionFailed);
    assert!(a.reconnect);
    assert!(l.last.is_none());
    assert_eq!(l.error_count, 12);
    let a = l.step(ConnEvent::Finished);
    assert!(!a.reconnect);
    assert_eq!(l.error_count, 12);
}

#[test]
fn session_steps() {
    assert!(matches!(session_step(None), SessionStep::Finish));
    let stop = DirToArhiv::new_stop("bob".into(), "7".into(), "pc".into());
    assert!(stop.is_stop());
    assert!(matches!(session_step(Some(stop)), SessionStep::Finish));
    match session_step(Some(job("A"))) {
        SessionStep::Run(d) => assert_eq!(d.alias, "A"),
        SessionStep::Finish => panic!("a job is run"),
    }
}

#[test]
fn upload_steps() {
    let j = job("A");
    assert!(matches!(upload_step(&j, &FileInfo::new_stop()), UploadStep::SendStop));
    let dir = FileInfo { name: "sub".into(), dir: true, size: 0, date_mod: 0 };
    assert!(matches!(upload_step(&j, &dir), UploadStep::Skip));
    let f = FileInfo { name: "a.txt".into(), dir: false, size: 111, date_mod: 0 };
    match upload_step(&j, &f) {
        UploadStep::SendFile(p) => assert_eq!(p, "/data/docs/a.txt"),
        other => panic!("unexpected {:?}", other),
    }
    let not_stop = FileInfo { name: "stop".into(), dir: false, size: 111, date_mod: 0 };
    assert!(!not_stop.is_stop());
}

#[test]
fn update_steps() {
    assert_eq!(os_code(true), 1);
    assert_eq!(os_code(false), 2);
    assert!(!wants_update(100));
    assert!(wants_update(DEFAULT_UPDATE));
    let (n, o) = update_names("sync.exe");
    assert_eq!(n, "sync.exe.new");
    assert_eq!(o, "sync.exe.old");
}

#[test]
fn logging_settings() {
    assert_eq!(log_level(0), LogLevel::Info);
    assert_eq!(log_level(1), LogLevel::Info);
    assert_eq!(log_level(2), LogLevel::Warn);
    assert_eq!(log_level(3), LogLevel::Error);
    assert_eq!(log_level(4), LogLevel::Off);
    assert!(should_rotate_log(2_000_001));
    assert!(!should_rotate_log(2_000_000));
    assert_eq!(old_log_name(), "sync.log.old");
}

#[test]
fn offered_directories() {
    let ex = EXCLUE_DIRS_DEFAULT();
    assert_eq!(ex, vec!["WinSxS", "SysWOW64", "System32", "Temp"]);
    assert!(is_excluded("Temp", &ex));
    assert!(!is_excluded("temp", &ex));
    assert_eq!(drive_roots(false), vec!["/"]);
    let w = drive_roots(true);
    assert_eq!(w.len(), 26);
    assert_eq!(w[0], "a:\\");
    assert_eq!(w[25], "z:\\");
    let s = directorys_info_to_string_part2(&vec![Some("/a".to_string()), None, Some("/b c".to_string())]);
    assert_eq!(s, format!("{}\r\n/a\r\n/b c\r\n", sync::types::FILE_CONFIG_SEPARATOR));
}

#[test]
fn client_settings() {
    let c = ConfigClnt::parse_str("  bob@host:99 ", Some(" 42\n")).unwrap();
    assert_eq!(c.login, "bob");
    assert_eq!(c.server, "host:99");
    assert_eq!(c.id, "42");
    assert_eq!(c.config, "");
    let c = ConfigClnt::parse_str("bob", None).unwrap();
    assert_eq!(c.server, "backup.lab31.ru:12345");
    assert_eq!(c.id, "");
    let c = ConfigClnt::parse_str("bob@host", None).unwrap();
    assert_eq!(c.server, "host:12345");
    let c = ConfigClnt::parse_str("bob@host@x", None).unwrap();
    assert_eq!(c.server, "host:12345");
    assert!(ConfigClnt::parse_str("@host", None).is_none());
    assert!(ConfigClnt::parse_str("   ", None).is_none());
}

#[test]
fn settings_from_file_name() {
    let c = ConfigClnt::read_from_filename("/opt/sync_bob@host!99.exe", None).unwrap();
    assert_eq!(c.login, "bob");
    assert_eq!(c.server, "host:99");
    let c = ConfigClnt::read_from_filename("C:/x/syncFile_alice.exe.exe", Some("5")).unwrap();
    assert_eq!(c.login, "alice");
    assert_eq!(c.server, "backup.lab31.ru:12345");
    assert_eq!(c.id, "5");
    assert!(ConfigClnt::read_from_filename("/opt/sync", None).is_none());
    let (plain, with_exe) = ConfigClnt::filename_candidates("/opt/Sync.EXE", true);
    assert_eq!(plain, "Sync.EXE");
    assert_eq!(with_exe, "Sync.EXE");
    let (plain, with_exe) = ConfigClnt::filename_candidates("/opt/sync", true);
    assert_eq!((plain.as_str(), with_exe.as_str()), ("sync", "sync.exe"));
    let (_, with_exe) = ConfigClnt::filename_candidates("/opt/sync", false);
    assert_eq!(with_exe, "sync");
}

#[test]
fn settings_lines() {
    let mut c = ConfigClnt::setup("bob".into(), "s:1".into(), None);
    c.set_config("C:\\EFI # EFI\r\n  \r\nD:\\data\n # only alias\nplain line \n".to_string());
    let lines = c.config_lines();
    let want: Vec<(String, String)> = vec![
        ("C:\\EFI".into(), "EFI".into()),
        ("  ".into(), "".into()),
        ("D:\\data".into(), "".into()),
        ("".into(), "only alias".into()),
        ("plain line ".into(), "".into()),
    ];
    assert_eq!(lines, want);
    let roots = c.backup_roots();
    assert_eq!(roots, vec![want[0].clone(), want[2].clone(), want[4].clone()]);
}

#[test]
fn ids_and_login() {
    let mut c = ConfigClnt::setup("bob".into(), "s:1".into(), Some("\t77 \r\n"));
    assert_eq!(c.id, "77");
    c.refresh_id(None);
    assert_eq!(c.id, "");
    assert!(c.accept_id(String::new()).is_err());
    assert!(c.accept_id("9".into()).is_ok());
    assert_eq!(c.id, "9");
    let expected = format!("bob@{}@9", c.hostname);
    assert_eq!(c.login_string(), expected);
    let d = DirToArhiv::new("/data".into(), "".into(), &String::new(), &c.login, &c.id, &c.hostname);
    assert_eq!(d.login_string(), expected);
    assert_eq!(d.alias, "data");
}

#[test]
fn settings_on_a_named_host() {
    let c = ConfigClnt::setup_on("bob".to_string(), "srv:4".to_string(), Some("  42\n"), "pc".to_string());
    assert_eq!(c.login, "bob");
    assert_eq!(c.server, "srv:4");
    assert_eq!(c.hostname, "pc");
    assert_eq!(c.id, "42");
    assert_eq!(c.config, "");
    assert_eq!(c.login_string(), "bob@pc@42");
    let d = ConfigClnt::setup_on("ann".to_string(), "s:1".to_string(), None, String::new());
    assert_eq!(d.id, "");
    assert_eq!(d.hostname, "");
}
