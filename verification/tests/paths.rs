use std::path::{Path, PathBuf};
use sync::utils::listdirs::trim_endspaces_in_files;
use sync::utils::paths::{file_name, path_push};

const PATHS: &[&str] = &[
    "", "/", "a", "a/", "/a/b", "a//b", "./a", ".", "..", "a/./b", "a/../b", "/.", "./.", "a/.",
    "a/ /b", "a /b ", " /x", "//a", "c:\\EFI",
];

#[test]
fn push_matches_pathbuf() {
    for b in PATHS {
        for p in PATHS {
            let mut want = PathBuf::from(b);
            want.push(p);
            assert_eq!(path_push(b, p), want.to_str().unwrap(), "{:?} + {:?}", b, p);
        }
    }
}

#[test]
fn file_name_matches_path() {
    for p in PATHS {
        let want = Path::new(p).file_name().map(|n| n.to_str().unwrap().to_string());
        assert_eq!(file_name(p), want, "path {:?}", p);
    }
}

fn std_trim(old: &str) -> String {
    let mut new = PathBuf::new();
    for i in Path::new(old).iter() {
        new.push(i.to_str().unwrap().trim_end());
    }
    new.to_str().unwrap().to_string()
}

#[test]
fn trim_endspaces_matches_std() {
    for p in PATHS {
        assert_eq!(trim_endspaces_in_files(p), std_trim(p), "path {:?}", p);
    }
    assert_eq!(trim_endspaces_in_files("_SYNC_/a@h@1.sync/EFI/BOOT /x.txt  "), "_SYNC_/a@h@1.sync/EFI/BOOT/x.txt");
}

#[test]
fn trimmed_paths_have_no_trailing_space_in_any_part() {
    for p in ["a /b \t/c", "/x  /y ", " . / z", "dir\u{3000}/f\u{a0}", "a/ /b"] {
        let t = trim_endspaces_in_files(p);
        for part in Path::new(&t).iter() {
            let s = part.to_str().unwrap();
            assert_eq!(s, s.trim_end(), "{:?} gave {:?}", p, t);
        }
    }
}
