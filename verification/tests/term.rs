use helix_wasm::term::{filter_picker_entry, true_color, TermCaps};
use helix_wasm::types::FileType;
use helix_wasm::walk::WalkEntry;

fn caps(rgb: bool, tc: bool, setrgbf: bool, setrgbb: bool) -> TermCaps {
    TermCaps { rgb, tc, setrgbf, setrgbb }
}

#[test]
fn colorterm_and_wsl_mean_true_color() {
    assert!(true_color(Some("truecolor"), false, None));
    assert!(true_color(Some("24bit"), false, None));
    assert!(!true_color(Some("yes"), false, None));
    assert!(true_color(None, true, None));
    assert!(!true_color(None, false, None));
}

#[test]
fn terminfo_capabilities_decide_otherwise() {
    assert!(true_color(None, false, Some(caps(true, false, false, false))));
    assert!(true_color(None, false, Some(caps(false, true, false, false))));
    assert!(true_color(None, false, Some(caps(false, false, true, true))));
    assert!(!true_color(None, false, Some(caps(false, false, true, false))));
    assert!(!true_color(Some("256"), false, Some(caps(false, false, false, false))));
}

#[test]
fn pickers_skip_version_control_directories() {
    for name in [".git", ".pijul", ".jj", ".hg", ".svn"] {
        let e = WalkEntry::new(format!("/w/{name}"), FileType::Directory, 1, false);
        assert!(!filter_picker_entry(&e, "/w", false, None));
    }
    let e = WalkEntry::new("/w/.github".to_string(), FileType::Directory, 1, false);
    assert!(filter_picker_entry(&e, "/w", false, None));
}

#[test]
fn symlinks_into_the_root_are_deduplicated() {
    let link = WalkEntry::new("/w/link".to_string(), FileType::File, 1, true);
    assert!(!filter_picker_entry(&link, "/w", true, Some("/w/src/main.rs")));
    assert!(filter_picker_entry(&link, "/w", true, Some("/elsewhere/main.rs")));
    assert!(!filter_picker_entry(&link, "/w", true, None));
    assert!(filter_picker_entry(&link, "/w", false, Some("/w/src/main.rs")));
    assert!(filter_picker_entry(&link, "/w", true, Some("/wx/file")));
}
