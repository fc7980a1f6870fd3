use std::time::SystemTime;

use helix_wasm::memory::{InMemoryFs, MirrorItem, MirrorTree};
use helix_wasm::registry::{
    active_name, copy, create_dir_all, driver_names, get_driver, init, is_dir, is_file, metadata,
    mirror_runtime, path_exists, read, read_dir, read_to_string, register, remove_dir_all,
    remove_file, rename, set_active, Dispatch, Driver, NativeFs,
};
use helix_wasm::types::ErrorKind;

fn memory_registry() -> helix_wasm::registry::Registry {
    init(Driver::Memory(InMemoryFs::new()), SystemTime::now())
}

fn answer<T>(d: Dispatch<T>) -> T {
    match d {
        Dispatch::Memory(x) => x,
        Dispatch::Native => panic!("expected the in-memory driver to answer"),
    }
}

#[test]
fn init_bootstraps_the_memory_driver() {
    let reg = memory_registry();
    assert_eq!(active_name(&reg), "memory");
    assert!(answer(is_dir(&reg, "/home/user")));
    assert!(answer(is_file(&reg, "/home/user/welcome.md")));
    assert!(!answer(is_file(&reg, "/home/user")));
    assert!(answer(path_exists(&reg, "/helix/runtime")));
}

#[test]
fn driver_names_keep_registration_order() {
    let reg = register(vec![Driver::Memory(InMemoryFs::new()), Driver::Native(NativeFs)], SystemTime::now());
    assert_eq!(driver_names(&reg), vec!["memory", "native"]);
    assert_eq!(active_name(&reg), "memory");
    assert!(get_driver(&reg, "native").is_some());
    assert!(get_driver(&reg, "ftp").is_none());
}

#[test]
fn set_active_switches_drivers() {
    let mut reg = register(vec![Driver::Memory(InMemoryFs::new()), Driver::Native(NativeFs)], SystemTime::now());
    set_active(&mut reg, "native").unwrap();
    assert_eq!(active_name(&reg), "native");
    assert!(matches!(read(&reg, "/etc/hosts"), Dispatch::Native));
    set_active(&mut reg, "memory").unwrap();
    assert!(answer(is_dir(&reg, "/tmp")));
}

#[test]
fn set_active_unknown_driver_is_refused() {
    let mut reg = memory_registry();
    let e = set_active(&mut reg, "ftp").unwrap_err();
    assert_eq!(e, "unknown fs driver: 'ftp'");
    assert_eq!(active_name(&reg), "memory");
}

#[test]
fn registry_routes_reads_and_writes_to_the_active_store() {
    let mut reg = memory_registry();
    answer(helix_wasm::registry::write(&mut reg, "/tmp/notes.txt", b"one", SystemTime::now())).unwrap();
    assert_eq!(answer(read(&reg, "/tmp/notes.txt")).unwrap(), b"one".to_vec());
    assert_eq!(answer(read_to_string(&reg, "/tmp/notes.txt")).unwrap(), "one");
    assert_eq!(answer(metadata(&reg, "/tmp/notes.txt")).unwrap().len, 3);
    assert_eq!(answer(copy(&mut reg, "/tmp/notes.txt", "/tmp/c.txt", SystemTime::now())).unwrap(), 3);
    answer(rename(&mut reg, "/tmp/c.txt", "/tmp/d.txt")).unwrap();
    assert!(!answer(path_exists(&reg, "/tmp/c.txt")));
    answer(remove_file(&mut reg, "/tmp/d.txt")).unwrap();
    answer(create_dir_all(&mut reg, "/tmp/x/y")).unwrap();
    answer(remove_dir_all(&mut reg, "/tmp/x")).unwrap();
    assert!(!answer(path_exists(&reg, "/tmp/x/y")));
    let e = answer(read(&reg, "/tmp/none")).unwrap_err();
    assert_eq!(e.kind, ErrorKind::NotFound);
}

#[test]
fn registry_read_dir_iterates_in_order() {
    let mut reg = memory_registry();
    answer(helix_wasm::registry::write(&mut reg, "/tmp/b", b"", SystemTime::now())).unwrap();
    answer(helix_wasm::registry::write(&mut reg, "/tmp/a", b"", SystemTime::now())).unwrap();
    let mut rd = answer(read_dir(&reg, "/tmp")).unwrap();
    assert_eq!(rd.next().unwrap().unwrap().file_name(), "a");
    assert_eq!(rd.next().unwrap().unwrap().file_name(), "b");
    assert!(rd.next().is_none());
}

fn runtime_tree() -> MirrorTree {
    MirrorTree {
        root: "/host/runtime".to_string(),
        items: vec![
            MirrorItem::Dir { path: "/host/runtime/queries".to_string() },
            MirrorItem::File { path: "/host/runtime/queries/a.scm".to_string(), contents: b"(x)".to_vec() },
        ],
    }
}

#[test]
fn mirror_runtime_copies_into_inactive_memory_drivers() {
    let mut reg = register(vec![Driver::Memory(InMemoryFs::new()), Driver::Native(NativeFs)], SystemTime::now());
    set_active(&mut reg, "native").unwrap();
    mirror_runtime(&mut reg, &vec![runtime_tree()], SystemTime::now());
    set_active(&mut reg, "memory").unwrap();
    assert!(answer(is_dir(&reg, "/host/runtime")));
    assert!(answer(is_dir(&reg, "/host/runtime/queries")));
    assert_eq!(answer(read(&reg, "/host/runtime/queries/a.scm")).unwrap(), b"(x)".to_vec());
}

#[test]
fn mirror_runtime_leaves_the_active_driver_alone() {
    let mut reg = memory_registry();
    mirror_runtime(&mut reg, &vec![runtime_tree()], SystemTime::now());
    assert!(!answer(path_exists(&reg, "/host/runtime")));
}
