use helix_wasm::path::{components, normalize};

#[test]
fn components_drop_empty_and_inner_dot_pieces() {
    let p = components("/a//b/./c/");
    assert!(p.absolute);
    assert_eq!(p.comps, vec!["a", "b", "c"]);
    let q = components("./x");
    assert!(!q.absolute);
    assert_eq!(q.comps, vec![".", "x"]);
}

#[test]
fn normalize_folds_parent_directories() {
    let p = normalize("/a/b/../c/./d/..");
    assert_eq!(p.display(), "/a/c");
    let q = normalize("a/../../b");
    assert_eq!(q.display(), "b");
    assert_eq!(normalize("/..").display(), "/");
}

#[test]
fn starts_with_compares_whole_components() {
    assert!(components("/w/src/main.rs").starts_with(&components("/w")));
    assert!(!components("/wx/src").starts_with(&components("/w")));
    assert!(components("rel/x").starts_with(&components("")));
    assert!(!components("rel/x").starts_with(&components("/")));
}
