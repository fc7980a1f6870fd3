use helix_wasm::grammar::{
    language_fn_name, Error, Grammar, IncompatibleGrammarError, SymbolType, WasmGrammarLoader,
    ABI_VERSION, MIN_COMPATIBLE_ABI_VERSION,
};

#[test]
fn abi_versions_thirteen_to_fifteen_are_accepted() {
    assert_eq!(MIN_COMPATIBLE_ABI_VERSION, 13);
    assert_eq!(ABI_VERSION, 15);
    for v in 13..=15 {
        let g = Grammar::from_grammar_data(4096, v).unwrap();
        assert_eq!(g.address(), 4096);
    }
    for v in [0, 12, 16, u32::MAX] {
        match Grammar::from_raw_ptr(4096, v) {
            Err(Error::IncompatibleVersion { version }) => assert_eq!(version, v),
            _ => panic!("version {v} should be refused"),
        }
    }
}

#[test]
fn no_grammar_is_compiled_in() {
    assert!(Grammar::from_static("rust").is_none());
}

#[test]
fn regular_and_anonymous_symbols_are_visible() {
    assert!(Grammar::node_kind_is_visible(SymbolType::Regular.code()));
    assert!(Grammar::node_kind_is_visible(SymbolType::Anonymous.code()));
    assert!(!Grammar::node_kind_is_visible(SymbolType::Supertype.code()));
    assert!(!Grammar::node_kind_is_visible(SymbolType::Auxiliary.code()));
}

#[test]
fn language_function_names_use_underscores() {
    assert_eq!(language_fn_name("rust"), "tree_sitter_rust");
    assert_eq!(language_fn_name("git-commit"), "tree_sitter_git_commit");
    assert_eq!(language_fn_name("a-b-c"), "tree_sitter_a_b_c");
}

#[test]
fn incompatible_grammar_error_text() {
    let e = IncompatibleGrammarError { abi_version: 12 };
    assert_eq!(e.message(), "Tried to load grammar with incompatible ABI version 12.");
}

#[test]
fn loader_caches_what_it_loads() {
    let mut l = WasmGrammarLoader::new();
    assert!(l.load_known("rust").is_none());
    assert_eq!(l.finish_load("rust", 0, 14).unwrap(), None);
    let g = l.finish_load("rust", 1024, 14).unwrap().unwrap();
    assert_eq!(g.address(), 1024);
    assert_eq!(l.load_known("rust"), Some(g));
    assert_eq!(l.cached("rust"), Some(g));
    assert!(l.cached("toml").is_none());
}

#[test]
fn loader_reports_incompatible_grammars() {
    let mut l = WasmGrammarLoader::new();
    let e = l.finish_load("old", 2048, 11).unwrap_err();
    assert_eq!(e, "grammar 'old': Tried to load grammar with incompatible ABI 11.");
    assert!(l.cached("old").is_none());
}

#[test]
fn caching_one_grammar_leaves_others_alone() {
    let mut l = WasmGrammarLoader::new();
    let a = l.finish_load("a", 100, 13).unwrap().unwrap();
    let b = l.finish_load("b", 200, 15).unwrap().unwrap();
    assert_eq!(l.cached("a"), Some(a));
    assert_eq!(l.cached("b"), Some(b));
    let a2 = l.finish_load("a", 300, 14).unwrap().unwrap();
    assert_eq!(l.cached("a"), Some(a2));
    assert_eq!(l.cached("b"), Some(b));
}
