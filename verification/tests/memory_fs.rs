use std::time::SystemTime;

use helix_wasm::memory::InMemoryFs;
use helix_wasm::types::{ErrorKind, FileType, Permissions};
use helix_wasm::walk::{WalkConfig, WalkEntry};

type NoSort = fn(&str, &str) -> bool;
type NoFilter = fn(&WalkEntry) -> bool;

fn fs_with(files: &[(&str, &[u8])]) -> InMemoryFs {
    let mut fs = InMemoryFs::new();
    for (p, c) in files {
        fs.load_file(p, c.to_vec(), SystemTime::now());
    }
    fs
}

#[test]
fn new_store_holds_only_the_root() {
    let fs = InMemoryFs::new();
    assert!(fs.path_exists("/"));
    assert!(!fs.path_exists("/tmp"));
    let m = fs.metadata("/").unwrap();
    assert_eq!(m.file_type, FileType::Directory);
    assert_eq!(m.mode, 0o755);
    assert!(fs.read_dir("/").unwrap().is_empty());
}

#[test]
fn load_file_makes_parent_directories() {
    let fs = fs_with(&[("/a/b/c.txt", b"hi")]);
    assert!(fs.metadata("/a").unwrap().is_dir());
    assert!(fs.metadata("/a/b").unwrap().is_dir());
    assert_eq!(fs.read("/a/b/c.txt").unwrap(), b"hi".to_vec());
}

#[test]
fn read_after_write_gives_the_bytes_back() {
    let mut fs = InMemoryFs::new();
    fs.write("/x/y.txt", b"hello", SystemTime::now()).unwrap();
    assert_eq!(fs.read("/x/y.txt").unwrap(), b"hello".to_vec());
    assert!(fs.metadata("/x").unwrap().is_dir());
    fs.write("/x/y.txt", b"bye", SystemTime::now()).unwrap();
    assert_eq!(fs.read("/x/y.txt").unwrap(), b"bye".to_vec());
}

#[test]
fn write_leaves_other_files_alone() {
    let mut fs = fs_with(&[("/a.txt", b"a"), ("/b.txt", b"b")]);
    fs.write("/a.txt", b"new", SystemTime::now()).unwrap();
    assert_eq!(fs.read("/b.txt").unwrap(), b"b".to_vec());
}

#[test]
fn read_missing_file_is_not_found() {
    let fs = InMemoryFs::new();
    let e = fs.read("/nope/../missing.txt").unwrap_err();
    assert_eq!(e.kind, ErrorKind::NotFound);
    assert_eq!(e.message, "not found: /missing.txt");
}

#[test]
fn read_directory_is_invalid_input() {
    let fs = fs_with(&[("/d/f", b"")]);
    let e = fs.read("/d").unwrap_err();
    assert_eq!(e.kind, ErrorKind::InvalidInput);
    assert_eq!(e.message, "Is a directory");
}

#[test]
fn read_to_string_decodes_utf8() {
    let fs = fs_with(&[("/u.txt", "héllo".as_bytes())]);
    assert_eq!(fs.read_to_string("/u.txt").unwrap(), "héllo");
}

#[test]
fn read_to_string_rejects_invalid_utf8() {
    let fs = fs_with(&[("/bad.bin", &[0xff, 0xfe, 0x41])]);
    let e = fs.read_to_string("/bad.bin").unwrap_err();
    assert_eq!(e.kind, ErrorKind::InvalidData);
    let expected = String::from_utf8(vec![0xff, 0xfe, 0x41]).unwrap_err().to_string();
    assert_eq!(e.message, expected);
}

#[test]
fn readonly_file_refuses_writes() {
    let mut fs = fs_with(&[("/r.txt", b"keep")]);
    let mut perm = fs.metadata("/r.txt").unwrap().permissions();
    perm.set_readonly(true);
    fs.set_permissions("/r.txt", perm).unwrap();
    let m = fs.metadata("/r.txt").unwrap();
    assert!(m.readonly);
    assert_eq!(m.mode, 0o444);
    let e = fs.write("/r.txt", b"x", SystemTime::now()).unwrap_err();
    assert_eq!(e.kind, ErrorKind::PermissionDenied);
    assert_eq!(e.message, "file is readonly");
    assert_eq!(fs.read("/r.txt").unwrap(), b"keep".to_vec());
}

#[test]
fn set_permissions_on_missing_path_fails() {
    let mut fs = InMemoryFs::new();
    let perm = Permissions { readonly: true, mode: 0o444 };
    let e = fs.set_permissions("/none", perm).unwrap_err();
    assert_eq!(e.kind, ErrorKind::NotFound);
    assert_eq!(e.message, "not found");
}

#[test]
fn set_permissions_on_directory_is_accepted_and_ignored() {
    let mut fs = fs_with(&[("/d/f", b"")]);
    let perm = Permissions { readonly: true, mode: 0o444 };
    fs.set_permissions("/d", perm).unwrap();
    assert!(!fs.metadata("/d").unwrap().readonly);
}

#[test]
fn file_metadata_reports_length_and_mode() {
    let fs = fs_with(&[("/m.txt", b"12345")]);
    let m = fs.metadata("/m.txt").unwrap();
    assert_eq!(m.len(), 5);
    assert!(!m.is_empty());
    assert!(m.is_file());
    assert_eq!(m.mode, 0o644);
    assert_eq!(m.nlink(), 1);
    assert_eq!(m.gid(), 0);
    assert!(m.modified().is_ok());
    let s = fs.symlink_metadata("/m.txt").unwrap();
    assert_eq!(s.len, 5);
    assert_eq!(s.file_type, FileType::File);
}

#[test]
fn directory_metadata_has_no_modification_time() {
    let fs = fs_with(&[("/d/f", b"")]);
    let m = fs.metadata("/d").unwrap();
    let e = m.modified().unwrap_err();
    assert_eq!(e.kind, ErrorKind::Unsupported);
}

#[test]
fn symlink_metadata_of_missing_path_names_it() {
    let fs = InMemoryFs::new();
    let e = fs.symlink_metadata("/a/./b").unwrap_err();
    assert_eq!(e.kind, ErrorKind::NotFound);
    assert_eq!(e.message, "not found: /a/b");
}

#[test]
fn create_dir_all_makes_every_level() {
    let mut fs = InMemoryFs::new();
    fs.create_dir_all("/p/q/r").unwrap();
    assert!(fs.path_exists("/p"));
    assert!(fs.path_exists("/p/q"));
    assert!(fs.path_exists("/p/q/r"));
    assert!(fs.metadata("/p/q/r").unwrap().is_dir());
}

#[test]
fn remove_file_cases() {
    let mut fs = fs_with(&[("/d/f.txt", b"x")]);
    let e = fs.remove_file("/d").unwrap_err();
    assert_eq!(e.kind, ErrorKind::InvalidInput);
    assert_eq!(e.message, "is a directory");
    fs.remove_file("/d/f.txt").unwrap();
    assert!(!fs.path_exists("/d/f.txt"));
    let e = fs.remove_file("/d/f.txt").unwrap_err();
    assert_eq!(e.kind, ErrorKind::NotFound);
    assert_eq!(e.message, "file not found");
}

#[test]
fn remove_dir_cases() {
    let mut fs = fs_with(&[("/d/f.txt", b"x")]);
    let e = fs.remove_dir("/d").unwrap_err();
    assert_eq!(e.kind, ErrorKind::InvalidInput);
    assert_eq!(e.message, "directory not empty");
    let e = fs.remove_dir("/d/f.txt").unwrap_err();
    assert_eq!(e.message, "not a directory");
    let e = fs.remove_dir("/zz").unwrap_err();
    assert_eq!(e.kind, ErrorKind::NotFound);
    assert_eq!(e.message, "directory not found");
    fs.remove_file("/d/f.txt").unwrap();
    fs.remove_dir("/d").unwrap();
    assert!(!fs.path_exists("/d"));
}

#[test]
fn remove_dir_all_removes_the_subtree_only() {
    let mut fs = fs_with(&[("/d/a/b.txt", b"1"), ("/d/c.txt", b"2"), ("/dd/e.txt", b"3")]);
    fs.remove_dir_all("/d").unwrap();
    assert!(!fs.path_exists("/d"));
    assert!(!fs.path_exists("/d/a/b.txt"));
    assert!(fs.path_exists("/dd/e.txt"));
    let e = fs.remove_dir_all("/dd/e.txt").unwrap_err();
    assert_eq!(e.message, "not a directory");
    let e = fs.remove_dir_all("/gone").unwrap_err();
    assert_eq!(e.kind, ErrorKind::NotFound);
}

#[test]
fn rename_moves_the_node() {
    let mut fs = fs_with(&[("/a.txt", b"A")]);
    fs.rename("/a.txt", "/b.txt").unwrap();
    assert!(!fs.path_exists("/a.txt"));
    assert_eq!(fs.read("/b.txt").unwrap(), b"A".to_vec());
    let e = fs.rename("/a.txt", "/c.txt").unwrap_err();
    assert_eq!(e.kind, ErrorKind::NotFound);
    assert_eq!(e.message, "source not found");
}

#[test]
fn rename_moves_a_directory_tree() {
    let mut fs = fs_with(&[("/d/f.txt", b"x"), ("/d/sub/g.txt", b"y"), ("/dx/h.txt", b"z")]);
    fs.rename("/d", "/e").unwrap();
    assert!(!fs.path_exists("/d"));
    assert!(!fs.path_exists("/d/f.txt"));
    assert!(!fs.path_exists("/d/sub/g.txt"));
    assert!(fs.metadata("/e").unwrap().is_dir());
    assert!(fs.metadata("/e/sub").unwrap().is_dir());
    assert_eq!(fs.read("/e/f.txt").unwrap(), b"x".to_vec());
    assert_eq!(fs.read("/e/sub/g.txt").unwrap(), b"y".to_vec());
    assert_eq!(fs.read("/dx/h.txt").unwrap(), b"z".to_vec());
    let names: Vec<String> = fs.read_dir("/e").unwrap().iter().map(|e| e.path.clone()).collect();
    assert_eq!(names, vec!["/e/f.txt", "/e/sub"]);
}

#[test]
fn copy_returns_the_length_and_duplicates_contents() {
    let mut fs = fs_with(&[("/src.txt", b"abcdef")]);
    assert_eq!(fs.copy("/src.txt", "/dst/copy.txt", SystemTime::now()).unwrap(), 6);
    assert_eq!(fs.read("/dst/copy.txt").unwrap(), b"abcdef".to_vec());
    assert_eq!(fs.read("/src.txt").unwrap(), b"abcdef".to_vec());
    let e = fs.copy("/missing", "/x", SystemTime::now()).unwrap_err();
    assert_eq!(e.kind, ErrorKind::NotFound);
}

#[test]
fn canonicalize_folds_dots() {
    let fs = fs_with(&[("/home/user/w.md", b"")]);
    assert_eq!(fs.canonicalize("/home/user/../user/./w.md").unwrap(), "/home/user/w.md");
    assert_eq!(fs.canonicalize("/../..").unwrap(), "/");
}

#[test]
fn canonicalize_of_a_missing_path_is_not_found() {
    let fs = fs_with(&[("/a/b/c.txt", b"")]);
    let e = fs.canonicalize("/a/./x/../y").unwrap_err();
    assert_eq!(e.kind, ErrorKind::NotFound);
    assert_eq!(e.message, "not found: /a/y");
    assert_eq!(fs.canonicalize("a/../x/./y").unwrap_err().kind, ErrorKind::NotFound);
}

#[test]
fn canonical_paths_are_their_own_canonical_form() {
    let fs = fs_with(&[("/a/b/c.txt", b"")]);
    for p in ["/a/./b/../b/c.txt", "/a/b/..", "/", "/../a/./b"] {
        let once = fs.canonicalize(p).unwrap();
        assert_eq!(fs.canonicalize(&once).unwrap(), once, "{p}");
    }
}

#[test]
fn read_link_of_a_file_is_invalid_input() {
    let fs = fs_with(&[("/f", b"")]);
    let e = fs.read_link("/f").unwrap_err();
    assert_eq!(e.kind, ErrorKind::InvalidInput);
    assert_eq!(e.message, "not a symbolic link");
}

#[test]
fn read_dir_lists_children_in_name_order() {
    let fs = fs_with(&[("/d/b.txt", b""), ("/d/a.txt", b""), ("/d/sub/x", b""), ("/other", b"")]);
    let list = fs.read_dir("/d").unwrap();
    let names: Vec<String> = list.iter().map(|e| e.file_name.clone()).collect();
    assert_eq!(names, vec!["a.txt", "b.txt", "sub"]);
    assert_eq!(list[0].path, "/d/a.txt");
    assert_eq!(list[2].file_type, FileType::Directory);
    let e = fs.read_dir("/d/a.txt").unwrap_err();
    assert_eq!(e.message, "not a directory");
    let e = fs.read_dir("/zzz").unwrap_err();
    assert_eq!(e.kind, ErrorKind::NotFound);
    assert_eq!(e.message, "directory not found");
}

#[test]
fn bootstrap_seeds_the_workspace() {
    let mut fs = InMemoryFs::new();
    fs.bootstrap(SystemTime::now()).unwrap();
    for d in ["/home/user", "/home/user/.helix", "/tmp", "/helix/config", "/helix/cache", "/helix/data", "/helix/runtime"] {
        assert!(fs.metadata(d).unwrap().is_dir(), "{d}");
    }
    let welcome = fs.read_to_string("/home/user/welcome.md").unwrap();
    assert!(welcome.starts_with("# Welcome to Helix (WASM)\n"));
    assert!(welcome.ends_with("files are lost on page refresh.\n"));
}

#[test]
fn walk_yields_directories_before_their_contents() {
    let fs = fs_with(&[("/w/b.txt", b""), ("/w/a/x.txt", b""), ("/w/.hidden", b"")]);
    let mut config: WalkConfig<fn(&str, &str) -> bool, NoFilter> = WalkConfig::new_default();
    config.sort_by_file_name = Some(|a: &str, b: &str| a > b);
    let mut walk = fs.walk("/w", &config);
    let mut seen = Vec::new();
    while let Some(item) = walk.next() {
        let e = item.unwrap();
        seen.push((e.path().to_string(), e.depth(), e.file_type()));
    }
    assert_eq!(
        seen,
        vec![
            ("/w".to_string(), 0, FileType::Directory),
            ("/w/a".to_string(), 1, FileType::Directory),
            ("/w/a/x.txt".to_string(), 2, FileType::File),
            ("/w/b.txt".to_string(), 1, FileType::File),
        ]
    );
}

#[test]
fn walk_shows_hidden_entries_when_asked_and_honours_max_depth() {
    let fs = fs_with(&[("/w/.h", b""), ("/w/d/deep.txt", b"")]);
    let mut config: WalkConfig<fn(&str, &str) -> bool, NoFilter> = WalkConfig::new_default();
    config.hidden = false;
    config.max_depth = Some(1);
    config.sort_by_file_name = Some(|a: &str, b: &str| a > b);
    let mut walk = fs.walk("/w", &config);
    let mut paths = Vec::new();
    while let Some(item) = walk.next() {
        paths.push(item.unwrap().into_path());
    }
    assert_eq!(paths, vec!["/w", "/w/.h", "/w/d"]);
}

#[test]
fn walk_filter_prunes_directories() {
    let fs = fs_with(&[("/w/skip/in.txt", b""), ("/w/keep.txt", b"")]);
    let mut config: WalkConfig<NoSort, fn(&WalkEntry) -> bool> = WalkConfig::new_default();
    config.filter = Some(|e: &WalkEntry| e.file_name() != "skip");
    let mut walk = fs.walk("/w", &config);
    let mut paths = Vec::new();
    while let Some(item) = walk.next() {
        paths.push(item.unwrap().into_path());
    }
    assert_eq!(paths, vec!["/w", "/w/keep.txt"]);
}

#[test]
fn walk_of_a_file_yields_the_file_and_of_nothing_yields_nothing() {
    let fs = fs_with(&[("/f.txt", b"")]);
    let config: WalkConfig<NoSort, NoFilter> = WalkConfig::new_default();
    let mut walk = fs.walk("/f.txt", &config);
    let e = walk.next().unwrap().unwrap();
    assert_eq!(e.path(), "/f.txt");
    assert!(e.is_file());
    assert_eq!(e.depth(), 0);
    assert!(walk.next().is_none());
    let mut none = fs.walk("/absent", &config);
    assert!(none.next().is_none());
}

#[test]
fn default_store_is_the_new_store() {
    let fs = InMemoryFs::default();
    assert!(fs.path_exists("/"));
    assert!(fs.read_dir("/").unwrap().is_empty());
}

#[test]
fn create_dir_all_twice_changes_nothing() {
    let mut fs = fs_with(&[("/p/file.txt", b"keep")]);
    fs.create_dir_all("/p/q/./r/../r").unwrap();
    let first: Vec<String> = fs.read_dir("/p/q").unwrap().iter().map(|e| e.path.clone()).collect();
    fs.create_dir_all("/p/q/r").unwrap();
    let second: Vec<String> = fs.read_dir("/p/q").unwrap().iter().map(|e| e.path.clone()).collect();
    assert_eq!(first, second);
    assert_eq!(first, vec!["/p/q/r"]);
    assert_eq!(fs.read("/p/file.txt").unwrap(), b"keep".to_vec());
}

#[test]
fn files_are_stamped_with_the_given_clock_reading() {
    let t = SystemTime::UNIX_EPOCH + std::time::Duration::from_secs(1_000_000);
    let mut fs = InMemoryFs::new();
    fs.write("/f", b"x", t).unwrap();
    assert_eq!(fs.metadata("/f").unwrap().modified().unwrap(), t);
    let u = t + std::time::Duration::from_secs(5);
    fs.copy("/f", "/g", u).unwrap();
    assert_eq!(fs.metadata("/g").unwrap().modified().unwrap(), u);
}
