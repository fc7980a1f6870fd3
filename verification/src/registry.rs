//! The set of filesystem drivers and the active one.
//!
//! Every filesystem operation goes to the active driver.  The in-memory
//! driver answers here; the host driver works on the real disk, so for it
//! an operation answers [`Dispatch::Native`] and the caller performs it on
//! the host.

use vstd::prelude::*;
use vstd::string::*;

use crate::memory::{
    canonicalize_spec, copy_spec, ensure_dirs_spec, metadata_spec, mirror_items_spec,
    mirror_views, read_dir_spec, read_link_spec, read_spec, remove_dir_all_spec, remove_dir_spec,
    remove_file_spec, rename_spec, rules_of, set_permissions_spec, symlink_metadata_spec,
    walk_spec, write_spec, EntryView, InMemoryFs, MirrorTree, has_key, mirror_trees_spec,
    tree_views, WalkRules, utf8_error_message, keys_unique,
};
use crate::path::{components_spec, normalize_spec, text_eq};
use crate::types::{
    result_view, ReadDir, DirEntry, DirEntryView, ErrView, ErrorKind, FileType, IoError, Metadata,
    Permissions,
};
use crate::walk::{Walk, WalkConfig, WalkEntry, WalkEntryView};
use vstd::utf8::{decode_utf8, valid_utf8};

verus! {

/// The driver backed by the host's real filesystem.
#[derive(Debug, Clone, Copy, PartialEq, Eq, Structural)]
pub struct NativeFs;

impl NativeFs {
    /// Short name shown in driver completions.
    pub fn name(&self) -> (r: &'static str)
        ensures
            r@ == "native"@,
    {
        "native"
    }
}

/// A registered driver.
pub enum Driver {
    Native(NativeFs),
    Memory(InMemoryFs),
}

/// The value of a [`Driver`].
pub enum DriverView {
    Native,
    Memory(Seq<EntryView>),
}

impl View for Driver {
    type V = DriverView;

    open spec fn view(&self) -> DriverView {
        match self {
            Driver::Native(_) => DriverView::Native,
            Driver::Memory(m) => DriverView::Memory(m@),
        }
    }
}

pub open spec fn driver_name_spec(d: DriverView) -> Seq<char> {
    match d {
        DriverView::Native => "native"@,
        DriverView::Memory(_) => "memory"@,
    }
}

impl Driver {
    pub open spec fn wf(&self) -> bool {
        match self {
            Driver::Native(_) => true,
            Driver::Memory(m) => m.wf(),
        }
    }

    /// Short name shown in driver completions: `native` or `memory`.
    pub fn name(&self) -> (r: &'static str)
        ensures
            r@ == driver_name_spec(self@),
    {
        match self {
            Driver::Native(n) => n.name(),
            Driver::Memory(_) => "memory",
        }
    }

    /// Loads what the driver needs at start-up: the in-memory layout for the
    /// in-memory driver, its files stamped with the clock reading `now`;
    /// nothing for the host driver.
    pub fn bootstrap(&mut self, now: web_time::SystemTime) -> (r: Result<(), IoError>)
        requires
            old(self).wf(),
        ensures
            final(self).wf(),
            r is Ok,
            old(self)@ is Native ==> final(self)@ is Native,
            old(self)@ is Memory ==> final(self)@ == DriverView::Memory(
                crate::memory::bootstrap_spec(old(self)@->Memory_0, now),
            ),
    {
        let mut taken = Driver::Native(NativeFs);
        std::mem::swap(self, &mut taken);
        match taken {
            Driver::Native(n) => {
                *self = Driver::Native(n);
                Ok(())
            },
            Driver::Memory(mut m) => {
                let ghost es = m@;
                assert(old(self)@->Memory_0 == es);
                let r = m.bootstrap(now);
                *self = Driver::Memory(m);
                r
            },
        }
    }
}

impl Driver {
    /// Copies host directories into the driver: the in-memory driver loads
    /// them, the host driver already has them.
    pub fn mirror_trees(&mut self, trees: &Vec<MirrorTree>, now: web_time::SystemTime)
        requires
            old(self).wf(),
        ensures
            final(self).wf(),
            old(self)@ is Native ==> final(self)@ is Native,
            old(self)@ is Memory ==> final(self)@ == DriverView::Memory(
                mirror_trees_spec(old(self)@->Memory_0, tree_views(trees@), now),
            ),
    {
        let mut taken = Driver::Native(NativeFs);
        std::mem::swap(self, &mut taken);
        match taken {
            Driver::Native(n) => {
                *self = Driver::Native(n);
            },
            Driver::Memory(mut m) => {
                let ghost es = m@;
                assert(old(self)@->Memory_0 == es);
                m.mirror_trees(trees, now);
                *self = Driver::Memory(m);
            },
        }
    }
}

/// What a registry operation answers.
pub enum Dispatch<T> {
    /// The in-memory driver is active and this is its answer.
    Memory(T),
    /// The host driver is active: the operation is to be performed on the host.
    Native,
}

/// The value of a [`Registry`].
pub struct RegistryView {
    pub drivers: Seq<DriverView>,
    pub active: int,
}

/// The registered drivers and the index of the active one.
pub struct Registry {
    drivers: Vec<Driver>,
    active: usize,
}

impl View for Registry {
    type V = RegistryView;

    closed spec fn view(&self) -> RegistryView {
        RegistryView {
            drivers: self.drivers@.map_values(|d: Driver| d@),
            active: self.active as int,
        }
    }
}

/// The store of the active driver, when it is the in-memory one.
pub open spec fn active_store(r: RegistryView) -> Option<Seq<EntryView>> {
    match r.drivers[r.active] {
        DriverView::Memory(es) => Some(es),
        DriverView::Native => None,
    }
}

/// The registry with the active driver's store replaced by `es`.
pub open spec fn with_store(r: RegistryView, es: Seq<EntryView>) -> RegistryView {
    RegistryView { drivers: r.drivers.update(r.active, DriverView::Memory(es)), active: r.active }
}

/// The position of the first driver named `name`.
pub open spec fn first_named(ds: Seq<DriverView>, name: Seq<char>) -> Option<int> {
    if exists|i: int| 0 <= i < ds.len() && driver_name_spec(#[trigger] ds[i]) == name {
        Some(
            choose|i: int|
                0 <= i < ds.len() && driver_name_spec(#[trigger] ds[i]) == name && forall|j: int|
                    0 <= j < i ==> driver_name_spec(#[trigger] ds[j]) != name,
        )
    } else {
        None
    }
}

impl Registry {
    /// At least one driver, the active one among them, all well formed.
    pub closed spec fn wf(&self) -> bool {
        &&& self.drivers@.len() > 0
        &&& self.active < self.drivers@.len()
        &&& forall|i: int| 0 <= i < self.drivers@.len() ==> (#[trigger] self.drivers@[i]).wf()
    }

    /// A well-formed registry has a driver, the active index points at one of
    /// them, and every in-memory store holds each path at most once.
    pub proof fn lemma_wf(&self)
        requires
            self.wf(),
        ensures
            self@.drivers.len() > 0,
            0 <= self@.active < self@.drivers.len(),
            forall|i: int|
                0 <= i < self@.drivers.len() ==> (#[trigger] self@.drivers[i] matches DriverView::Memory(
                    es,
                ) ==> keys_unique(es)),
    {
        assert forall|i: int| 0 <= i < self@.drivers.len() implies (#[trigger] self@.drivers[i] matches DriverView::Memory(
            es,
        ) ==> keys_unique(es)) by {
            assert(self@.drivers[i] == self.drivers@[i]@);
            assert(self.drivers@[i].wf());
        }
    }

    /// The in-memory driver that is active, for a read.
    fn active_memory(&self) -> (r: Option<&InMemoryFs>)
        requires
            self.wf(),
        ensures
            match active_store(self@) {
                Some(es) => r matches Some(m) && m@ == es && m.wf(),
                None => r is None,
            },
    {
        assert(self@.drivers[self@.active] == self.drivers@[self.active as int]@);
        match &self.drivers[self.active] {
            Driver::Memory(m) => Some(m),
            Driver::Native(_) => None,
        }
    }

    /// Runs `op` on the active in-memory store, or reports that the host
    /// driver is active.
    fn take_active_memory(&mut self) -> (r: Option<InMemoryFs>)
        requires
            old(self).wf(),
        ensures
            match active_store(old(self)@) {
                Some(es) => r matches Some(m) && m@ == es && m.wf() && final(self)@.drivers.len()
                    == old(self)@.drivers.len() && final(self)@.active == old(self)@.active
                    && final(self).holes_only_at_active(old(self)@),
                None => r is None && final(self)@ == old(self)@ && final(self).wf(),
            },
    {
        assert(self@.drivers[self@.active] == self.drivers@[self.active as int]@);
        let i = self.active;
        match &self.drivers[i] {
            Driver::Native(_) => {
                return None;
            },
            Driver::Memory(_) => {},
        }
        let d = self.drivers.remove(i);
        self.drivers.insert(i, Driver::Native(NativeFs));
        match d {
            Driver::Memory(m) => Some(m),
            Driver::Native(_) => None,
        }
    }

    /// Everything but the active slot is as in `r`, and all is well formed.
    pub closed spec fn holes_only_at_active(&self, r: RegistryView) -> bool {
        &&& self.drivers@.len() == r.drivers.len()
        &&& self.active == r.active
        &&& self.active < self.drivers@.len()
        &&& forall|i: int|
            0 <= i < self.drivers@.len() && i != self.active ==> (#[trigger] self.drivers@[i]).wf()
                && self.drivers@[i]@ == r.drivers[i]
    }

    /// Puts the in-memory driver back into the active slot.
    fn restore_active_memory(&mut self, m: InMemoryFs, Ghost(r): Ghost<RegistryView>)
        requires
            old(self).holes_only_at_active(r),
            m.wf(),
        ensures
            final(self).wf(),
            final(self)@ == with_store(r, m@),
    {
        let i = self.active;
        self.drivers.remove(i);
        self.drivers.insert(i, Driver::Memory(m));
        assert(self@.drivers =~= r.drivers.update(r.active, DriverView::Memory(m@)));
    }
}

/// Registers the drivers, bootstrapping each with the clock reading `now`;
/// the first becomes active.
pub fn register(new_drivers: Vec<Driver>, now: web_time::SystemTime) -> (r: Registry)
    requires
        new_drivers@.len() > 0,
        forall|i: int| 0 <= i < new_drivers@.len() ==> (#[trigger] new_drivers@[i]).wf(),
    ensures
        r.wf(),
        r@.active == 0,
        r@.drivers.len() == new_drivers@.len(),
        forall|i: int|
            0 <= i < new_drivers@.len() ==> match #[trigger] new_drivers@[i]@ {
                DriverView::Native => r@.drivers[i] == DriverView::Native,
                DriverView::Memory(es) => r@.drivers[i] == DriverView::Memory(
                    crate::memory::bootstrap_spec(es, now),
                ),
            },
{
    let ghost originals = new_drivers@;
    let mut rest = new_drivers;
    let mut drivers: Vec<Driver> = Vec::new();
    while rest.len() > 0
        invariant
            drivers@.len() + rest@.len() == originals.len(),
            forall|j: int| 0 <= j < rest@.len() ==> #[trigger] rest@[j] == originals[drivers@.len() + j],
            forall|j: int| 0 <= j < originals.len() ==> (#[trigger] originals[j]).wf(),
            forall|j: int| 0 <= j < drivers@.len() ==> (#[trigger] drivers@[j]).wf(),
            forall|j: int|
                0 <= j < drivers@.len() ==> match #[trigger] originals[j]@ {
                    DriverView::Native => drivers@[j]@ == DriverView::Native,
                    DriverView::Memory(es) => drivers@[j]@ == DriverView::Memory(
                        crate::memory::bootstrap_spec(es, now),
                    ),
                },
        decreases rest.len(),
    {
        let ghost prev = rest@;
        let ghost n = drivers@.len();
        let mut d = rest.remove(0);
        assert(d == originals[n as int]);
        let _ = d.bootstrap(now);
        drivers.push(d);
        assert forall|j: int| 0 <= j < rest@.len() implies #[trigger] rest@[j] == originals[
            drivers@.len() + j] by {
            assert(rest@[j] == prev[j + 1]);
        }
    }
    let r = Registry { drivers, active: 0 };
    assert forall|i: int| 0 <= i < originals.len() implies match #[trigger] originals[i]@ {
        DriverView::Native => r@.drivers[i] == DriverView::Native,
        DriverView::Memory(es) => r@.drivers[i] == DriverView::Memory(
            crate::memory::bootstrap_spec(es, now),
        ),
    } by {
        assert(r@.drivers[i] == r.drivers@[i]@);
    }
    r
}

/// Registers a single driver.
pub fn init(driver: Driver, now: web_time::SystemTime) -> (r: Registry)
    requires
        driver.wf(),
    ensures
        r.wf(),
        r@.active == 0,
        r@.drivers.len() == 1,
        match driver@ {
            DriverView::Native => r@.drivers[0] == DriverView::Native,
            DriverView::Memory(es) => r@.drivers[0] == DriverView::Memory(
                crate::memory::bootstrap_spec(es, now),
            ),
        },
{
    let mut v = Vec::new();
    v.push(driver);
    let r = register(v, now);
    assert(v@[0] == driver);
    r
}

/// Makes the first driver named `name` the active one.
pub fn set_active(reg: &mut Registry, name: &str) -> (r: Result<(), String>)
    requires
        old(reg).wf(),
    ensures
        final(reg).wf(),
        final(reg)@.drivers == old(reg)@.drivers,
        match first_named(old(reg)@.drivers, name@) {
            Some(i) => r is Ok && final(reg)@.active == i,
            None => r matches Err(m) && m@ == "unknown fs driver: '"@ + name@ + "'"@
                && final(reg)@.active == old(reg)@.active,
        },
{
    let mut i: usize = 0;
    while i < reg.drivers.len()
        invariant
            reg.wf(),
            reg@ == old(reg)@,
            0 <= i <= reg.drivers@.len(),
            forall|j: int| 0 <= j < i ==> driver_name_spec(#[trigger] reg@.drivers[j]) != name@,
        decreases reg.drivers.len() - i,
    {
        assert(reg@.drivers[i as int] == reg.drivers@[i as int]@);
        if text_eq(reg.drivers[i].name(), name) {
            reg.active = i;
            assert(reg@.drivers =~= old(reg)@.drivers);
            proof {
                let ds = old(reg)@.drivers;
                assert(driver_name_spec(ds[i as int]) == name@);
                let c = choose|c: int|
                    0 <= c < ds.len() && driver_name_spec(#[trigger] ds[c]) == name@ && forall|
                        j: int,
                    | 0 <= j < c ==> driver_name_spec(#[trigger] ds[j]) != name@;
                assert(c == i) by {
                    if c < i {
                    } else if c > i {
                        assert(driver_name_spec(ds[i as int]) != name@);
                    }
                }
            }
            return Ok(());
        }
        i = i + 1;
    }
    let mut m = "unknown fs driver: '".to_owned();
    m.append(name);
    m.append("'");
    Err(m)
}

/// The first driver named `name`.
pub fn get_driver<'a>(reg: &'a Registry, name: &str) -> (r: Option<&'a Driver>)
    requires
        reg.wf(),
    ensures
        match first_named(reg@.drivers, name@) {
            Some(i) => r matches Some(d) && d@ == reg@.drivers[i],
            None => r is None,
        },
{
    let mut i: usize = 0;
    while i < reg.drivers.len()
        invariant
            0 <= i <= reg.drivers@.len(),
            forall|j: int| 0 <= j < i ==> driver_name_spec(#[trigger] reg@.drivers[j]) != name@,
        decreases reg.drivers.len() - i,
    {
        assert(reg@.drivers[i as int] == reg.drivers@[i as int]@);
        if text_eq(reg.drivers[i].name(), name) {
            proof {
                let ds = reg@.drivers;
                let c = choose|c: int|
                    0 <= c < ds.len() && driver_name_spec(#[trigger] ds[c]) == name@ && forall|
                        j: int,
                    | 0 <= j < c ==> driver_name_spec(#[trigger] ds[j]) != name@;
                assert(c == i) by {
                    if c > i {
                        assert(driver_name_spec(ds[i as int]) != name@);
                    }
                }
            }
            return Some(&reg.drivers[i]);
        }
        i = i + 1;
    }
    None
}

/// Name of the active driver.
pub fn active_name(reg: &Registry) -> (r: &'static str)
    requires
        reg.wf(),
    ensures
        r@ == driver_name_spec(reg@.drivers[reg@.active]),
{
    assert(reg@.drivers[reg@.active] == reg.drivers@[reg.active as int]@);
    reg.drivers[reg.active].name()
}

/// Names of all registered drivers, in registration order.
pub fn driver_names(reg: &Registry) -> (r: Vec<&'static str>)
    requires
        reg.wf(),
    ensures
        r@.len() == reg@.drivers.len(),
        forall|i: int| 0 <= i < r@.len() ==> (#[trigger] r@[i])@ == driver_name_spec(reg@.drivers[i]),
{
    let mut r: Vec<&'static str> = Vec::new();
    let mut i: usize = 0;
    while i < reg.drivers.len()
        invariant
            0 <= i <= reg.drivers@.len(),
            r@.len() == i,
            forall|j: int| 0 <= j < i ==> (#[trigger] r@[j])@ == driver_name_spec(reg@.drivers[j]),
        decreases reg.drivers.len() - i,
    {
        assert(reg@.drivers[i as int] == reg.drivers@[i as int]@);
        r.push(reg.drivers[i].name());
        i = i + 1;
    }
    r
}


/// An answer of the active in-memory driver.
pub open spec fn answered<T: View>(r: Dispatch<Result<T, IoError>>, v: Result<T::V, ErrView>) -> bool {
    r matches Dispatch::Memory(x) && result_view(x) == v
}

/// The contents of the file at `path`.
pub fn read(reg: &Registry, path: &str) -> (r: Dispatch<Result<Vec<u8>, IoError>>)
    requires
        reg.wf(),
    ensures
        match active_store(reg@) {
            Some(es) => answered(r, read_spec(es, path@)),
            None => r is Native,
        },
{
    match reg.active_memory() {
        Some(m) => Dispatch::Memory(m.read(path)),
        None => Dispatch::Native,
    }
}

/// The contents of the file at `path`, as UTF-8 text.
pub fn read_to_string(reg: &Registry, path: &str) -> (r: Dispatch<Result<String, IoError>>)
    requires
        reg.wf(),
    ensures
        match active_store(reg@) {
            Some(es) => r matches Dispatch::Memory(x) && match read_spec(es, path@) {
                Err(e) => result_view(x) == Err::<Seq<char>, ErrView>(e),
                Ok(c) => if valid_utf8(c) {
                    result_view(x) == Ok::<Seq<char>, ErrView>(decode_utf8(c))
                } else {
                    x matches Err(e) && e.is(ErrorKind::InvalidData, utf8_error_message(c))
                },
            },
            None => r is Native,
        },
{
    match reg.active_memory() {
        Some(m) => Dispatch::Memory(m.read_to_string(path)),
        None => Dispatch::Native,
    }
}

/// An update of the active in-memory driver: the registry afterwards holds
/// the store `es2` there and the answer is `v`.
pub open spec fn updated<T: View>(
    before: RegistryView,
    after: RegistryView,
    r: Dispatch<Result<T, IoError>>,
    es2: Seq<EntryView>,
    v: Result<T::V, ErrView>,
) -> bool {
    &&& after == with_store(before, es2)
    &&& answered(r, v)
}

/// Writes `contents` as the file at `path`.
pub fn write(reg: &mut Registry, path: &str, contents: &[u8], now: web_time::SystemTime) -> (r:
    Dispatch<Result<(), IoError>>)
    requires
        old(reg).wf(),
    ensures
        final(reg).wf(),
        match active_store(old(reg)@) {
            Some(es) => updated(
                old(reg)@,
                final(reg)@,
                r,
                write_spec(es, path@, contents@, now).0,
                write_spec(es, path@, contents@, now).1,
            ),
            None => r is Native && final(reg)@ == old(reg)@,
        },
{
    match reg.take_active_memory() {
        Some(mut m) => {
            let x = m.write(path, contents, now);
            reg.restore_active_memory(m, Ghost(old(reg)@));
            Dispatch::Memory(x)
        },
        None => Dispatch::Native,
    }
}

/// Metadata of what `path` leads to.
pub fn metadata(reg: &Registry, path: &str) -> (r: Dispatch<Result<Metadata, IoError>>)
    requires
        reg.wf(),
    ensures
        match active_store(reg@) {
            Some(es) => answered(r, metadata_spec(es, path@)),
            None => r is Native,
        },
{
    match reg.active_memory() {
        Some(m) => Dispatch::Memory(m.metadata(path)),
        None => Dispatch::Native,
    }
}

/// Metadata of the node at `path` itself.
pub fn symlink_metadata(reg: &Registry, path: &str) -> (r: Dispatch<Result<Metadata, IoError>>)
    requires
        reg.wf(),
    ensures
        match active_store(reg@) {
            Some(es) => answered(r, symlink_metadata_spec(es, path@)),
            None => r is Native,
        },
{
    match reg.active_memory() {
        Some(m) => Dispatch::Memory(m.symlink_metadata(path)),
        None => Dispatch::Native,
    }
}

/// Whether anything is stored at `path`.
pub fn path_exists(reg: &Registry, path: &str) -> (r: Dispatch<bool>)
    requires
        reg.wf(),
    ensures
        match active_store(reg@) {
            Some(es) => r == Dispatch::Memory(has_key(es, normalize_spec(path@))),
            None => r is Native,
        },
{
    match reg.active_memory() {
        Some(m) => Dispatch::Memory(m.path_exists(path)),
        None => Dispatch::Native,
    }
}

/// Whether `path` leads to a file.
pub fn is_file(reg: &Registry, path: &str) -> (r: Dispatch<bool>)
    requires
        reg.wf(),
    ensures
        match active_store(reg@) {
            Some(es) => r == Dispatch::Memory(
                metadata_spec(es, path@) matches Ok(md) && md.file_type == FileType::File,
            ),
            None => r is Native,
        },
{
    match reg.active_memory() {
        Some(m) => Dispatch::Memory(
            match m.metadata(path) {
                Ok(md) => md.is_file(),
                Err(_) => false,
            },
        ),
        None => Dispatch::Native,
    }
}

/// Whether `path` leads to a directory.
pub fn is_dir(reg: &Registry, path: &str) -> (r: Dispatch<bool>)
    requires
        reg.wf(),
    ensures
        match active_store(reg@) {
            Some(es) => r == Dispatch::Memory(
                metadata_spec(es, path@) matches Ok(md) && md.file_type == FileType::Directory,
            ),
            None => r is Native,
        },
{
    match reg.active_memory() {
        Some(m) => Dispatch::Memory(
            match m.metadata(path) {
                Ok(md) => md.is_dir(),
                Err(_) => false,
            },
        ),
        None => Dispatch::Native,
    }
}

/// The listing of the directory at `path`, ordered by path.
pub fn read_dir(reg: &Registry, path: &str) -> (r: Dispatch<Result<ReadDir, IoError>>)
    requires
        reg.wf(),
    ensures
        match active_store(reg@) {
            Some(es) => r matches Dispatch::Memory(x) && match x {
                Ok(rd) => read_dir_spec(es, path@) == Ok::<Seq<DirEntryView>, ErrView>(
                    rd.listing(),
                ) && rd.pos == 0,
                Err(e) => read_dir_spec(es, path@) == Err::<Seq<DirEntryView>, ErrView>(e@),
            },
            None => r is Native,
        },
{
    match reg.active_memory() {
        Some(m) => Dispatch::Memory(
            match m.read_dir(path) {
                Ok(entries) => Ok(ReadDir::new(entries)),
                Err(e) => Err(e),
            },
        ),
        None => Dispatch::Native,
    }
}

/// Makes the directory at `path` and every directory above it.
pub fn create_dir_all(reg: &mut Registry, path: &str) -> (r: Dispatch<Result<(), IoError>>)
    requires
        old(reg).wf(),
    ensures
        final(reg).wf(),
        match active_store(old(reg)@) {
            Some(es) => updated(
                old(reg)@,
                final(reg)@,
                r,
                ensure_dirs_spec(es, normalize_spec(path@)),
                Ok(()),
            ),
            None => r is Native && final(reg)@ == old(reg)@,
        },
{
    match reg.take_active_memory() {
        Some(mut m) => {
            let x = m.create_dir_all(path);
            reg.restore_active_memory(m, Ghost(old(reg)@));
            Dispatch::Memory(x)
        },
        None => Dispatch::Native,
    }
}

/// Removes the file or link at `path`.
pub fn remove_file(reg: &mut Registry, path: &str) -> (r: Dispatch<Result<(), IoError>>)
    requires
        old(reg).wf(),
    ensures
        final(reg).wf(),
        match active_store(old(reg)@) {
            Some(es) => updated(
                old(reg)@,
                final(reg)@,
                r,
                remove_file_spec(es, path@).0,
                remove_file_spec(es, path@).1,
            ),
            None => r is Native && final(reg)@ == old(reg)@,
        },
{
    match reg.take_active_memory() {
        Some(mut m) => {
            let x = m.remove_file(path);
            reg.restore_active_memory(m, Ghost(old(reg)@));
            Dispatch::Memory(x)
        },
        None => Dispatch::Native,
    }
}

/// Removes the empty directory at `path`.
pub fn remove_dir(reg: &mut Registry, path: &str) -> (r: Dispatch<Result<(), IoError>>)
    requires
        old(reg).wf(),
    ensures
        final(reg).wf(),
        match active_store(old(reg)@) {
            Some(es) => updated(
                old(reg)@,
                final(reg)@,
                r,
                remove_dir_spec(es, path@).0,
                remove_dir_spec(es, path@).1,
            ),
            None => r is Native && final(reg)@ == old(reg)@,
        },
{
    match reg.take_active_memory() {
        Some(mut m) => {
            let x = m.remove_dir(path);
            reg.restore_active_memory(m, Ghost(old(reg)@));
            Dispatch::Memory(x)
        },
        None => Dispatch::Native,
    }
}

/// Removes the directory at `path` and everything under it.
pub fn remove_dir_all(reg: &mut Registry, path: &str) -> (r: Dispatch<Result<(), IoError>>)
    requires
        old(reg).wf(),
    ensures
        final(reg).wf(),
        match active_store(old(reg)@) {
            Some(es) => updated(
                old(reg)@,
                final(reg)@,
                r,
                remove_dir_all_spec(es, path@).0,
                remove_dir_all_spec(es, path@).1,
            ),
            None => r is Native && final(reg)@ == old(reg)@,
        },
{
    match reg.take_active_memory() {
        Some(mut m) => {
            let x = m.remove_dir_all(path);
            reg.restore_active_memory(m, Ghost(old(reg)@));
            Dispatch::Memory(x)
        },
        None => Dispatch::Native,
    }
}

/// Moves the node at `from`, with everything under it, to `to`.
pub fn rename(reg: &mut Registry, from: &str, to: &str) -> (r: Dispatch<Result<(), IoError>>)
    requires
        old(reg).wf(),
    ensures
        final(reg).wf(),
        match active_store(old(reg)@) {
            Some(es) => updated(
                old(reg)@,
                final(reg)@,
                r,
                rename_spec(es, from@, to@).0,
                rename_spec(es, from@, to@).1,
            ),
            None => r is Native && final(reg)@ == old(reg)@,
        },
{
    match reg.take_active_memory() {
        Some(mut m) => {
            let x = m.rename(from, to);
            reg.restore_active_memory(m, Ghost(old(reg)@));
            Dispatch::Memory(x)
        },
        None => Dispatch::Native,
    }
}

/// Copies the file at `from` onto `to`; the number of bytes copied.
pub fn copy(reg: &mut Registry, from: &str, to: &str, now: web_time::SystemTime) -> (r: Dispatch<
    Result<u64, IoError>,
>)
    requires
        old(reg).wf(),
    ensures
        final(reg).wf(),
        match active_store(old(reg)@) {
            Some(es) => updated(
                old(reg)@,
                final(reg)@,
                r,
                copy_spec(es, from@, to@, now).0,
                copy_spec(es, from@, to@, now).1,
            ),
            None => r is Native && final(reg)@ == old(reg)@,
        },
{
    match reg.take_active_memory() {
        Some(mut m) => {
            let x = m.copy(from, to, now);
            reg.restore_active_memory(m, Ghost(old(reg)@));
            Dispatch::Memory(x)
        },
        None => Dispatch::Native,
    }
}

/// The text of the path `path` leads to once links are followed; `NotFound`
/// when nothing is stored there.
pub fn canonicalize(reg: &Registry, path: &str) -> (r: Dispatch<Result<String, IoError>>)
    requires
        reg.wf(),
    ensures
        match active_store(reg@) {
            Some(es) => answered(r, canonicalize_spec(es, path@)),
            None => r is Native,
        },
{
    match reg.active_memory() {
        Some(m) => Dispatch::Memory(m.canonicalize(path)),
        None => Dispatch::Native,
    }
}

/// The target of the link at `path`.
pub fn read_link(reg: &Registry, path: &str) -> (r: Dispatch<Result<String, IoError>>)
    requires
        reg.wf(),
    ensures
        match active_store(reg@) {
            Some(es) => answered(r, read_link_spec(es, path@)),
            None => r is Native,
        },
{
    match reg.active_memory() {
        Some(m) => Dispatch::Memory(m.read_link(path)),
        None => Dispatch::Native,
    }
}

/// Applies `perm` to the node at `path`.
pub fn set_permissions(reg: &mut Registry, path: &str, perm: Permissions) -> (r: Dispatch<
    Result<(), IoError>,
>)
    requires
        old(reg).wf(),
    ensures
        final(reg).wf(),
        match active_store(old(reg)@) {
            Some(es) => updated(
                old(reg)@,
                final(reg)@,
                r,
                set_permissions_spec(es, path@, perm.readonly).0,
                set_permissions_spec(es, path@, perm.readonly).1,
            ),
            None => r is Native && final(reg)@ == old(reg)@,
        },
{
    match reg.take_active_memory() {
        Some(mut m) => {
            let x = m.set_permissions(path, perm);
            reg.restore_active_memory(m, Ghost(old(reg)@));
            Dispatch::Memory(x)
        },
        None => Dispatch::Native,
    }
}

/// Walks the tree from `root` with `config`.
pub fn walk<S: Fn(&str, &str) -> bool, F: Fn(&WalkEntry) -> bool>(
    reg: &Registry,
    root: &str,
    config: &WalkConfig<S, F>,
) -> (r: Dispatch<Walk>)
    requires
        reg.wf(),
        config.functions_ok(),
    ensures
        match active_store(reg@) {
            Some(es) => r matches Dispatch::Memory(w) && w.remaining() == walk_spec(
                es,
                root@,
                rules_of(*config),
            ).map_values(|e: WalkEntryView| Ok::<WalkEntryView, ErrView>(e)),
            None => r is Native,
        },
{
    match reg.active_memory() {
        Some(m) => Dispatch::Memory(m.walk(root, config)),
        None => Dispatch::Native,
    }
}

/// Copies host directories into the in-memory drivers that are not active;
/// the active driver and the host driver are left as they are.
pub fn mirror_runtime(reg: &mut Registry, trees: &Vec<MirrorTree>, now: web_time::SystemTime)
    requires
        old(reg).wf(),
    ensures
        final(reg).wf(),
        final(reg)@.active == old(reg)@.active,
        final(reg)@.drivers.len() == old(reg)@.drivers.len(),
        final(reg)@.drivers[old(reg)@.active] == old(reg)@.drivers[old(reg)@.active],
        forall|i: int|
            0 <= i < old(reg)@.drivers.len() && i != old(reg)@.active ==> match #[trigger] old(
                reg,
            )@.drivers[i] {
                DriverView::Native => final(reg)@.drivers[i] == DriverView::Native,
                DriverView::Memory(es) => final(reg)@.drivers[i] == DriverView::Memory(
                    mirror_trees_spec(es, tree_views(trees@), now),
                ),
            },
{
    let mut d: usize = 0;
    while d < reg.drivers.len()
        invariant
            reg.wf(),
            reg@.active == old(reg)@.active,
            reg@.drivers.len() == old(reg)@.drivers.len(),
            0 <= d <= reg@.drivers.len(),
            reg@.drivers[reg@.active] == old(reg)@.drivers[old(reg)@.active],
            forall|i: int| d <= i < reg@.drivers.len() ==> reg@.drivers[i] == old(reg)@.drivers[i],
            forall|i: int|
                0 <= i < d && i != old(reg)@.active ==> match #[trigger] old(reg)@.drivers[i] {
                    DriverView::Native => reg@.drivers[i] == DriverView::Native,
                    DriverView::Memory(es) => reg@.drivers[i] == DriverView::Memory(
                        mirror_trees_spec(es, tree_views(trees@), now),
                    ),
                },
        decreases reg.drivers.len() - d,
    {
        if d != reg.active {
            let ghost before = reg@;
            let ghost before_vec = reg.drivers@;
            assert(before_vec[d as int].wf());
            let mut driver = reg.drivers.remove(d);
            assert(driver@ == before.drivers[d as int]);
            driver.mirror_trees(trees, now);
            reg.drivers.insert(d, driver);
            proof {
                assert(reg.drivers@ =~= before_vec.update(d as int, driver));
                assert forall|i: int| 0 <= i < reg.drivers@.len() implies (
                #[trigger] reg.drivers@[i]).wf() by {
                    if i != d {
                        assert(reg.drivers@[i] == before_vec[i]);
                    }
                }
                assert(reg@.drivers =~= before.drivers.update(d as int, driver@));
            }
        }
        d = d + 1;
    }
}


proof fn lemma_first_exists(ds: Seq<DriverView>, name: Seq<char>, i: int)
    requires
        0 <= i < ds.len(),
        driver_name_spec(ds[i]) == name,
    ensures
        exists|c: int|
            0 <= c <= i && driver_name_spec(#[trigger] ds[c]) == name && forall|j: int|
                0 <= j < c ==> driver_name_spec(#[trigger] ds[j]) != name,
    decreases i,
{
    if exists|j: int| 0 <= j < i && driver_name_spec(#[trigger] ds[j]) == name {
        let j = choose|j: int| 0 <= j < i && driver_name_spec(#[trigger] ds[j]) == name;
        lemma_first_exists(ds, name, j);
    } else {
        assert(forall|j: int| 0 <= j < i ==> driver_name_spec(#[trigger] ds[j]) != name);
    }
}

/// Switching by the name of a registered driver succeeds and makes the
/// first driver of that name active, so the active name is the one asked for.
pub proof fn law_set_active_selects(r: RegistryView, name: Seq<char>, i: int)
    requires
        0 <= i < r.drivers.len(),
        driver_name_spec(r.drivers[i]) == name,
    ensures
        first_named(r.drivers, name) matches Some(c) && 0 <= c <= i && driver_name_spec(
            r.drivers[c],
        ) == name,
{
    lemma_first_exists(r.drivers, name, i);
    assert(exists|k: int| 0 <= k < r.drivers.len() && driver_name_spec(#[trigger] r.drivers[k]) == name) by {
        assert(driver_name_spec(r.drivers[i]) == name);
    }
    let c = first_named(r.drivers, name)->Some_0;
    let w = choose|c: int|
        0 <= c <= i && driver_name_spec(#[trigger] r.drivers[c]) == name && forall|j: int|
            0 <= j < c ==> driver_name_spec(#[trigger] r.drivers[j]) != name;
    assert(c == w) by {
        if c < w {
            assert(driver_name_spec(r.drivers[c]) != name);
        } else if c > w {
            assert(driver_name_spec(r.drivers[w]) != name);
        }
    }
}

/// Through the registry, a successful write to the in-memory driver is read
/// back: the registry afterwards holds the written store as its active one,
/// and reading the path there gives the bytes written.
pub proof fn law_registry_read_after_write(
    reg: &Registry,
    path: Seq<char>,
    contents: Seq<u8>,
    now: web_time::SystemTime,
)
    requires
        reg.wf(),
        active_store(reg@) matches Some(es) && write_spec(es, path, contents, now).1 is Ok,
    ensures
        ({
            let es2 = write_spec(active_store(reg@)->Some_0, path, contents, now).0;
            &&& active_store(with_store(reg@, es2)) == Some(es2)
            &&& read_spec(es2, path) == Ok::<Seq<u8>, ErrView>(contents)
        }),
{
    reg.lemma_wf();
    let es = active_store(reg@)->Some_0;
    assert(reg@.drivers[reg@.active] matches DriverView::Memory(x) && x == es);
    crate::laws::law_read_after_write(es, path, contents, now);
}

/// The registry after `set_active(name)`: the first driver of that name
/// becomes active; an unknown name changes nothing.
pub open spec fn switch_spec(r: RegistryView, name: Seq<char>) -> RegistryView {
    match first_named(r.drivers, name) {
        Some(i) => RegistryView { drivers: r.drivers, active: i },
        None => r,
    }
}

/// The registry after `set_active` with each of `names`, in order.
pub open spec fn switch_all(r: RegistryView, names: Seq<Seq<char>>) -> RegistryView
    decreases names.len(),
{
    if names.len() == 0 {
        r
    } else {
        switch_spec(switch_all(r, names.drop_last()), names.last())
    }
}

/// Some registered driver has the name `name`.
pub open spec fn has_driver_named(ds: Seq<DriverView>, name: Seq<char>) -> bool {
    exists|i: int| 0 <= i < ds.len() && driver_name_spec(#[trigger] ds[i]) == name
}

/// The last of `names` that a registered driver has, if any.
pub open spec fn last_known(ds: Seq<DriverView>, names: Seq<Seq<char>>) -> Option<Seq<char>>
    decreases names.len(),
{
    if names.len() == 0 {
        None
    } else if has_driver_named(ds, names.last()) {
        Some(names.last())
    } else {
        last_known(ds, names.drop_last())
    }
}

/// After any run of `set_active` calls, the drivers are the same, the active
/// index points at one of them, and the active driver's name is the last
/// name asked for that a driver has; when no name asked for was known, the
/// active driver is the one before the run.
pub proof fn law_active_after_switches(r: RegistryView, names: Seq<Seq<char>>)
    requires
        0 <= r.active < r.drivers.len(),
    ensures
        switch_all(r, names).drivers == r.drivers,
        0 <= switch_all(r, names).active < r.drivers.len(),
        last_known(r.drivers, names) matches Some(n) ==> driver_name_spec(
            r.drivers[switch_all(r, names).active],
        ) == n,
        last_known(r.drivers, names) is None ==> switch_all(r, names).active == r.active,
    decreases names.len(),
{
    if names.len() > 0 {
        law_active_after_switches(r, names.drop_last());
        let prev = switch_all(r, names.drop_last());
        let name = names.last();
        if has_driver_named(r.drivers, name) {
            let i = choose|i: int| 0 <= i < r.drivers.len() && driver_name_spec(#[trigger] r.drivers[i]) == name;
            law_set_active_selects(prev, name, i);
        } else {
            assert(first_named(prev.drivers, name) is None);
        }
    }
}

} // verus!
