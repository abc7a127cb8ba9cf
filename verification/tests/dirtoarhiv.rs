use std::path::Path;
use sync::types::dirtoarhiv::{DirToArhiv, FileInfo};

fn fi(name: &str, dir: bool, size: u64, date: u64) -> FileInfo {
    FileInfo { name: name.to_string(), dir, size, date_mod: date }
}

fn job() -> DirToArhiv {
    DirToArhiv {
        base: "c:/EFI".to_string(),
        alias: "EFI".to_string(),
        path: "BOOT/BCD".to_string(),
        files: vec![fi("a.txt ", false, 1, 2), fi("sub", true, 0, 0)],
        login: "bob".to_string(),
        id: "7".to_string(),
        hostname: "pc".to_string(),
    }
}

#[test]
fn derived_paths() {
    let d = job();
    assert_eq!(d.login_string(), "bob@pc@7");
    assert_eq!(d.get_server_task_dir("x"), "_SYNC_/bob@pc@7.x/EFI");
    assert_eq!(d.base_version_dir(), "_SYNC_/bob@pc@7.version/EFI");
    assert_eq!(d.base_sync_dir(), "_SYNC_/bob@pc@7.sync/EFI");
    assert_eq!(d.full_dir(), "c:/EFI/BOOT/BCD");
    assert_eq!(d.full_file(&fi("f", false, 0, 0)), "c:/EFI/BOOT/BCD/f");
    assert_eq!(d.vers_dir(), "_SYNC_/bob@pc@7.version/EFI/BOOT/BCD");
    assert_eq!(d.vers_file(&fi("f", false, 0, 0), "2024-01-31"), "_SYNC_/bob@pc@7.version/EFI/BOOT/BCD/f.2024-01-31");
}

#[test]
fn version_paths_of_an_entry() {
    let d = job();
    let p = d.version_paths(&fi("g ", false, 0, 0), "2024-02-29");
    assert_eq!(p.from, "c:/EFI/BOOT/BCD/g ");
    assert_eq!(p.to, "_SYNC_/bob@pc@7.version/EFI/BOOT/BCD/g .2024-02-29");
    assert!(p.reresolve);
    let q = d.version_paths(&fi("g", false, 0, 0), "2024-02-29");
    assert!(!q.reresolve);
    assert_eq!(q.to, "_SYNC_/bob@pc@7.version/EFI/BOOT/BCD/g.2024-02-29");
}

#[test]
fn sync_and_version_stores_never_overlap() {
    for alias in ["EFI", "", "a/b", "./x", "..", "sub/"] {
        for login in ["bob", "a/b", "/root", "x.sync", ""] {
            let mut d = job();
            d.alias = alias.to_string();
            d.login = login.to_string();
            let s = d.base_sync_dir();
            let v = d.base_version_dir();
            assert_ne!(s, v);
            assert!(!Path::new(&s).starts_with(&v), "{} {}", s, v);
            assert!(!Path::new(&v).starts_with(&s), "{} {}", s, v);
        }
    }
}

#[test]
fn full_file_is_the_name_inside_full_dir() {
    for (base, path) in [("c:/EFI", "BOOT"), ("/", ""), ("", ""), ("a/", "b/"), ("/x", ".")] {
        for name in ["f", "a.txt ", ".hidden", "..."] {
            let mut d = job();
            d.base = base.to_string();
            d.path = path.to_string();
            let f = fi(name, false, 0, 0);
            let full = d.full_file(&f);
            let dir = d.full_dir();
            assert_eq!(Path::new(&full).file_name().unwrap().to_str().unwrap(), name);
            let parts: Vec<&str> = Path::new(&full).iter().map(|p| p.to_str().unwrap()).collect();
            let mut want: Vec<&str> = Path::new(&dir).iter().map(|p| p.to_str().unwrap()).collect();
            want.push(name);
            assert_eq!(parts, want, "{:?}", full);
        }
    }
}
