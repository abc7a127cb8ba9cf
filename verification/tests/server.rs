use sync::protocol::server::{ServerSession, SessionAction, SessionPhase};
use sync::protocol::server::{
    bytes_equal, check_magic, client_config_file, client_config_path, config_head, count_dirs,
    incoming_file, is_id_request, log_file_path, plan_local_task, server_files_view,
    update_needed,
};
use sync::protocol::auth::{digest_of, md5_self, md5_win_lin, IdGenerator};
use sync::protocol::net::NetError;
use sync::types::configsrv::ConfigSrv;
use sync::types::dirtoarhiv::{DirToArhiv, FileInfo};
use sync::types::FILE_CONFIG_SEPARATOR;
use sync::utils::text::decimal_string;

fn fi(name: &str, dir: bool, size: u64, date: u64) -> FileInfo {
    FileInfo { name: name.to_string(), dir, size, date_mod: date }
}

fn job(files: Vec<FileInfo>) -> DirToArhiv {
    DirToArhiv {
        base: "C:\\EFI".to_string(),
        alias: "EFI".to_string(),
        path: "BOOT ".to_string(),
        files,
        login: "bob".to_string(),
        id: "7".to_string(),
        hostname: "pc".to_string(),
    }
}

fn names(v: &[FileInfo]) -> Vec<&str> {
    v.iter().map(|f| f.name.as_str()).collect()
}

#[test]
fn plan_of_a_round() {
    let client = job(vec![
        fi("same.txt", false, 10, 5),
        fi("changed.txt", false, 10, 6),
        fi("new.txt", false, 1, 1),
        fi("sub", true, 0, 0),
        fi("spaced.txt ", false, 3, 3),
    ]);
    let server_files = vec![
        fi("same.txt", false, 10, 5),
        fi("changed.txt", false, 10, 5),
        fi("gone.txt", false, 2, 2),
        fi("sub", true, 0, 0),
        fi("spaced.txt", false, 3, 3),
        fi("same.txt", true, 0, 0),
    ];
    let plan = plan_local_task(&client, &server_files);
    assert_eq!(names(&plan.stay), vec!["same.txt", "changed.txt", "sub", "spaced.txt"]);
    assert_eq!(names(&plan.to_version), vec!["gone.txt", "same.txt"]);
    assert!(plan.to_version[1].dir);
    assert_eq!(names(&plan.to_upload), vec!["changed.txt", "new.txt", "sub"]);
    assert_eq!(plan.stay.len() + plan.to_version.len(), server_files.len());
}

#[test]
fn server_side_of_a_job() {
    let client = job(vec![fi("a", false, 1, 1)]);
    let s = server_files_view(&client);
    assert_eq!(s.base, "_SYNC_/bob@pc@7.sync/EFI");
    assert_eq!(s.path, "BOOT");
    assert_eq!(s.full_dir(), "_SYNC_/bob@pc@7.sync/EFI/BOOT");
    assert_eq!(log_file_path(&client), "_SYNC_/bob@pc@7.sync/EFI/sync.log");
    let (f, p) = incoming_file(&s, &fi("x.txt \t", false, 4, 9));
    assert_eq!(f.name, "x.txt");
    assert_eq!((f.dir, f.size, f.date_mod), (false, 4, 9));
    assert_eq!(p, "_SYNC_/bob@pc@7.sync/EFI/BOOT/x.txt");
}

#[test]
fn dirs_counted() {
    assert_eq!(count_dirs(&vec![fi("a", true, 0, 0), fi("b", false, 0, 0), fi("c", true, 0, 0)]), 2);
    assert_eq!(count_dirs(&vec![]), 0);
}

#[test]
fn handshake_checks() {
    assert!(check_magic("Z53Yj@e29"));
    assert!(!check_magic("Z53Yj@e2"));
    assert!(is_id_request("?"));
    assert!(!is_id_request("??"));
    assert!(!is_id_request("bob@pc@7"));
    assert_eq!(client_config_path("bob@pc@7"), "_SYNC_/bob@pc@7");
}

#[test]
fn settings_file_keeps_the_administrators_part() {
    assert_eq!(config_head(""), " ");
    assert_eq!(config_head("C:\\a # A\r\n"), "C:\\a # A\r\n");
    let sent = format!("{}\r\n/x\r\n/y\r\n", FILE_CONFIG_SEPARATOR);
    let file = client_config_file("C:\\a # A", sent.as_bytes());
    let text = String::from_utf8(file).unwrap();
    assert_eq!(text, format!("C:\\a # A{}", sent));
    assert_eq!(config_head(&text), "C:\\a # A");
    assert_eq!(config_head(&sent), " ");
    let again = String::from_utf8(client_config_file(&config_head(&text), sent.as_bytes())).unwrap();
    assert_eq!(config_head(&again), "C:\\a # A");
}

fn cfg() -> ConfigSrv {
    ConfigSrv::setup("0.0.0.0:1".to_string(), Some(b"win program"), None)
}

#[test]
fn digests() {
    let empty = digest_of(Some(b""));
    assert_eq!(empty, [0xd4, 0x1d, 0x8c, 0xd9, 0x8f, 0x00, 0xb2, 0x04, 0xe9, 0x80, 0x09, 0x98, 0xec, 0xf8, 0x42, 0x7e]);
    assert_eq!(digest_of(None), [0u8; 16]);
    assert_eq!(md5_self(Some(b"abc")), md5::compute(b"abc").0);
    let (w, l, n) = md5_win_lin(Some(b"x"), None);
    assert_eq!(w, md5::compute(b"x").0);
    assert_eq!(l, [0u8; 16]);
    assert_eq!(n, [0u8; 16]);
    let c = cfg();
    assert_eq!(c.win_md5, md5::compute(b"win program").0);
    assert_eq!(c.lin_md5, [0u8; 16]);
    assert!(bytes_equal(b"ab", b"ab"));
    assert!(!bytes_equal(b"ab", b"abc"));
}

#[test]
fn update_decisions() {
    let c = cfg();
    let current = md5::compute(b"win program").0;
    assert!(!update_needed(&c, 1, &current).unwrap());
    assert!(update_needed(&c, 1, &[1u8; 16]).unwrap());
    assert!(!update_needed(&c, 1, &[0u8; 16]).unwrap());
    assert!(!update_needed(&c, 2, &[0u8; 16]).unwrap());
    assert!(update_needed(&c, 2, &current).unwrap());
    assert!(matches!(update_needed(&c, 3, &current), Err(NetError::InvalidData)));
    assert!(matches!(update_needed(&c, 0, &[]), Err(NetError::InvalidData)));
}

#[test]
fn exec_files() {
    assert_eq!(ConfigSrv::exec_file_name(1, "/srv/sync"), "/srv/sync.exe");
    assert_eq!(ConfigSrv::exec_file_name(2, "/srv/sync"), "/srv/sync");
    assert_eq!(ConfigSrv::exec_file_name(1, "C:\\sync.EXE"), "C:\\sync.EXE");
    assert_eq!(ConfigSrv::exec_file_name(2, "C:\\sync.EXE"), "C:\\sync.EXE");
    assert_eq!(ConfigSrv::exec_file_name(2, "x.exe.exe"), "x");
    assert_eq!(ConfigSrv::exec_file_name(9, "x"), "");
}

#[test]
fn ids() {
    let mut g = IdGenerator::new(None);
    assert_eq!(g.current(), 100);
    assert_eq!(g.generate(), 101);
    assert_eq!(g.generate(), 102);
    assert_eq!(g.current(), 102);
    let restarted = IdGenerator::new(Some(&decimal_string(g.current())));
    assert_eq!(restarted.current(), 102);
    assert_eq!(IdGenerator::new(Some("+41")).current(), 41);
}


#[test]
fn session_runs_jobs_then_closes() {
    let mut s = ServerSession::new();
    assert_eq!(s.task, 1);
    let stop_entry = FileInfo::new_stop();
    assert_eq!(s.on_entry(&fi("a", false, 1, 1)), SessionAction::Refuse);
    assert_eq!(s.on_job(&job(vec![fi("a", false, 1, 1)])), SessionAction::PlanJob);
    assert_eq!(s.phase, SessionPhase::Files);
    assert_eq!(s.on_job(&job(vec![])), SessionAction::Refuse);
    assert_eq!(s.on_entry(&fi("a", false, 1, 1)), SessionAction::ReceiveFile);
    assert_eq!(s.task, 1);
    assert_eq!(s.on_entry(&stop_entry), SessionAction::EndJob);
    assert_eq!(s.task, 2);
    assert_eq!(s.phase, SessionPhase::Jobs);
    let stop = DirToArhiv::new_stop("bob".into(), "7".into(), "pc".into());
    assert_eq!(s.on_job(&stop), SessionAction::SaveLog);
    assert_eq!(s.phase, SessionPhase::Closed);
    assert_eq!(s.on_job(&job(vec![])), SessionAction::Refuse);
    assert_eq!(s.on_entry(&stop_entry), SessionAction::Refuse);
    assert_eq!(s.task, 2);
}

#[test]
fn current_is_the_last_generated_id_and_ids_never_repeat() {
    let mut g = IdGenerator::new(Some("7"));
    let mut seen = Vec::new();
    for _ in 0..50 {
        let r = g.generate();
        assert_eq!(g.current(), r);
        assert_eq!(g.current(), r);
        assert!(!seen.contains(&r));
        seen.push(r);
    }
    assert_eq!(g.current(), 57);
}
