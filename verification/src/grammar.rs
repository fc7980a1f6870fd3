//! Tree-sitter grammars: the ABI check made on every grammar that is
//! loaded, and the loader that caches grammars by name.

use vstd::prelude::*;
use vstd::string::*;
use crate::ansi::{decimal, push_decimal};
use crate::path::text_eq;

verus! {

/// Lowest supported ABI version of a grammar.
pub const MIN_COMPATIBLE_ABI_VERSION: u32 = 13;

/// The ABI version of the bundled tree-sitter runtime.
pub const ABI_VERSION: u32 = 15;

/// Whether a grammar of ABI version `v` can be used.
pub open spec fn abi_compatible(v: u32) -> bool {
    MIN_COMPATIBLE_ABI_VERSION <= v <= ABI_VERSION
}

/// A loaded grammar: the address of its language data, never zero.
#[derive(Debug, Clone, Copy, PartialEq, Eq, Structural)]
pub struct Grammar {
    ptr: usize,
}

/// Why a grammar could not be loaded.
#[derive(Debug)]
pub enum Error {
    /// The shared library could not be opened.
    DlOpen { message: String, path: String },
    /// The library has no language function for the grammar.
    DlSym { message: String, symbol: String },
    /// The grammar was generated for an ABI this runtime cannot read.
    IncompatibleVersion { version: u32 },
}

/// The text of [`Error::IncompatibleVersion`].
pub open spec fn incompatible_version_text(version: u32) -> Seq<char> {
    "Tried to load grammar with incompatible ABI "@ + decimal(version as nat) + "."@
}

/// Appends the text of [`Error::IncompatibleVersion`].
pub fn push_incompatible_version(buf: &mut String, version: u32)
    ensures
        final(buf)@ == old(buf)@ + incompatible_version_text(version),
{
    let ghost b0 = buf@;
    buf.append("Tried to load grammar with incompatible ABI ");
    push_decimal(buf, version);
    buf.append(".");
    assert(buf@ =~= b0 + incompatible_version_text(version));
}

impl Grammar {
    /// The address of the grammar's language data.
    pub closed spec fn addr(self) -> usize {
        self.ptr
    }

    pub fn address(&self) -> (r: usize)
        ensures
            r == self.addr(),
            r != 0,
    {
        proof {
            use_type_invariant(self);
        }
        self.ptr
    }

    #[verifier::type_invariant]
    spec fn non_null(self) -> bool {
        self.ptr != 0
    }

    /// Accepts the language data at `ptr`, whose ABI version is `version`,
    /// when that version is one this runtime reads.
    pub fn from_grammar_data(ptr: usize, version: u32) -> (r: Result<Grammar, Error>)
        requires
            ptr != 0,
        ensures
            abi_compatible(version) <==> r is Ok,
            r matches Ok(g) ==> g.addr() == ptr,
            r matches Err(e) ==> (e matches Error::IncompatibleVersion { version: v } && v
                == version),
    {
        if MIN_COMPATIBLE_ABI_VERSION <= version && version <= ABI_VERSION {
            Ok(Grammar { ptr })
        } else {
            Err(Error::IncompatibleVersion { version })
        }
    }

    /// A grammar from the address of its language data, handed over as an
    /// integer; `version` is the ABI version read from that data.
    pub fn from_raw_ptr(ptr: usize, version: u32) -> (r: Result<Grammar, Error>)
        requires
            ptr != 0,
        ensures
            abi_compatible(version) <==> r is Ok,
            r matches Ok(g) ==> g.addr() == ptr,
            r matches Err(e) ==> (e matches Error::IncompatibleVersion { version: v } && v
                == version),
    {
        Self::from_grammar_data(ptr, version)
    }

    /// The grammars compiled into this binary: there are none, so every
    /// grammar is loaded at run time.
    pub fn from_static(name: &str) -> (r: Option<Grammar>)
        ensures
            r is None,
    {
        None
    }

    /// Whether nodes of a kind whose symbol type is `symbol_type` are
    /// visible: regular and anonymous nodes are, supertypes and auxiliary
    /// nodes are not.
    pub fn node_kind_is_visible(symbol_type: u32) -> (r: bool)
        ensures
            r == (symbol_type <= SymbolType::Anonymous.code_spec()),
    {
        symbol_type <= SymbolType::Anonymous.code()
    }
}

/// The name of the function a grammar library exports for grammar `name`:
/// `tree_sitter_` and the name, with `-` written as `_`.
pub open spec fn language_fn_name_spec(name: Seq<char>) -> Seq<char> {
    "tree_sitter_"@ + name.map_values(|c: char| if c == '-' { '_' } else { c })
}

pub fn language_fn_name(name: &str) -> (r: String)
    ensures
        r@ == language_fn_name_spec(name@),
{
    let mut out = String::new();
    out.append("tree_sitter_");
    let ghost start = out@;
    let ghost mapped = name@.map_values(|c: char| if c == '-' { '_' } else { c });
    let n = name.unicode_len();
    let mut i: usize = 0;
    proof {
        reveal_strlit("tree_sitter_");
    }
    assert(out@ =~= start + mapped.take(0));
    while i < n
        invariant
            n == name@.len(),
            mapped.len() == n,
            mapped == name@.map_values(|c: char| if c == '-' { '_' } else { c }),
            0 <= i <= n,
            start == "tree_sitter_"@,
            out@ == start + mapped.take(i as int),
        decreases n - i,
    {
        let c = name.get_char(i);
        let ghost before = out@;
        if c == '-' {
            out.append("_");
            proof {
                reveal_strlit("_");
            }
        } else {
            out.append(name.substring_char(i, i + 1));
        }
        assert(mapped.take(i + 1) =~= mapped.take(i as int).push(mapped[i as int]));
        assert(out@ =~= start + mapped.take(i + 1));
        i = i + 1;
    }
    assert(mapped.take(n as int) =~= mapped);
    out
}

/// The error a parser reports when it is given a grammar of an ABI it
/// cannot read.
#[derive(Debug, PartialEq, Eq, Structural)]
pub struct IncompatibleGrammarError {
    pub abi_version: u32,
}

impl IncompatibleGrammarError {
    /// The error's text.
    pub fn message(&self) -> (r: String)
        ensures
            r@ == "Tried to load grammar with incompatible ABI version "@ + decimal(
                self.abi_version as nat,
            ) + "."@,
    {
        let mut s = String::new();
        s.append("Tried to load grammar with incompatible ABI version ");
        push_decimal(&mut s, self.abi_version);
        s.append(".");
        assert(s@ =~= "Tried to load grammar with incompatible ABI version "@ + decimal(
            self.abi_version as nat,
        ) + "."@);
        s
    }
}

/// The kinds of grammar symbols, as tree-sitter numbers them.
#[derive(Debug, Clone, Copy, PartialEq, Eq, Structural)]
pub enum SymbolType {
    Regular,
    Anonymous,
    Supertype,
    Auxiliary,
}

impl SymbolType {
    pub open spec fn code_spec(self) -> u32 {
        match self {
            SymbolType::Regular => 0,
            SymbolType::Anonymous => 1,
            SymbolType::Supertype => 2,
            SymbolType::Auxiliary => 3,
        }
    }

    /// The number tree-sitter uses for the kind.
    pub fn code(&self) -> (r: u32)
        ensures
            r == self.code_spec(),
    {
        match self {
            SymbolType::Regular => 0,
            SymbolType::Anonymous => 1,
            SymbolType::Supertype => 2,
            SymbolType::Auxiliary => 3,
        }
    }
}

// ── The loader's cache ──────────────────────────────────────────────────────

/// A grammar loader for the browser: grammars already loaded, by name.
/// A grammar comes from the cache, else from the grammars compiled in, else
/// from the front end, which fetches and instantiates the grammar module
/// and hands back the address of its language data.
pub struct WasmGrammarLoader {
    cache: Vec<(String, Grammar)>,
}

/// The grammar cached under `name` in `cache`, if any.
pub open spec fn cache_lookup(cache: Seq<(Seq<char>, Grammar)>, name: Seq<char>) -> Option<Grammar>
    decreases cache.len(),
{
    if cache.len() == 0 {
        None
    } else if cache.last().0 == name {
        Some(cache.last().1)
    } else {
        cache_lookup(cache.drop_last(), name)
    }
}

/// `cache` after `name` is bound to `g`.
pub open spec fn cache_insert(cache: Seq<(Seq<char>, Grammar)>, name: Seq<char>, g: Grammar) -> Seq<
    (Seq<char>, Grammar),
> {
    cache.push((name, g))
}

/// A grammar cached under a name is what a later lookup of that name finds.
pub proof fn law_cache_hit(cache: Seq<(Seq<char>, Grammar)>, name: Seq<char>, g: Grammar)
    ensures
        cache_lookup(cache_insert(cache, name, g), name) == Some(g),
{
    assert(cache_insert(cache, name, g).drop_last() =~= cache);
}

/// Caching a grammar under one name leaves the lookups of every other name
/// as they were.
pub proof fn law_cache_other(
    cache: Seq<(Seq<char>, Grammar)>,
    name: Seq<char>,
    g: Grammar,
    other: Seq<char>,
)
    requires
        other != name,
    ensures
        cache_lookup(cache_insert(cache, name, g), other) == cache_lookup(cache, other),
{
    assert(cache_insert(cache, name, g).drop_last() =~= cache);
}

/// The message of a grammar the front end produced but whose ABI is not
/// supported.
pub open spec fn load_error_text(name: Seq<char>, version: u32) -> Seq<char> {
    "grammar '"@ + name + "': "@ + incompatible_version_text(version)
}

impl WasmGrammarLoader {
    /// The cache as name and grammar pairs, later pairs shadowing earlier ones.
    pub closed spec fn entries(&self) -> Seq<(Seq<char>, Grammar)> {
        self.cache@.map_values(|e: (String, Grammar)| (e.0@, e.1))
    }

    /// The grammar cached under `name`.
    pub open spec fn cached_spec(&self, name: Seq<char>) -> Option<Grammar> {
        cache_lookup(self.entries(), name)
    }

    pub fn new() -> (r: WasmGrammarLoader)
        ensures
            r.entries() == Seq::<(Seq<char>, Grammar)>::empty(),
    {
        let r = WasmGrammarLoader { cache: Vec::new() };
        assert(r.entries() =~= Seq::<(Seq<char>, Grammar)>::empty());
        r
    }

    /// The grammar cached under `name`.
    pub fn cached(&self, name: &str) -> (r: Option<Grammar>)
        ensures
            r == self.cached_spec(name@),
    {
        let ghost es = self.entries();
        let mut i: usize = self.cache.len();
        assert(es.take(i as int) =~= es);
        while i > 0
            invariant
                i <= self.cache@.len(),
                es == self.entries(),
                es.len() == self.cache@.len(),
                cache_lookup(es, name@) == cache_lookup(es.take(i as int), name@),
            decreases i,
        {
            let e = &self.cache[i - 1];
            let ghost t = es.take(i as int);
            assert(t.last() == (e.0@, e.1));
            assert(t.drop_last() =~= es.take(i - 1));
            if text_eq(e.0.as_str(), name) {
                return Some(e.1);
            }
            i = i - 1;
        }
        assert(es.take(0) =~= Seq::<(Seq<char>, Grammar)>::empty());
        None
    }

    fn insert(&mut self, name: &str, g: Grammar)
        ensures
            final(self).entries() == cache_insert(old(self).entries(), name@, g),
    {
        self.cache.push((name.to_owned(), g));
        assert(self.entries() =~= cache_insert(old(self).entries(), name@, g));
    }

    /// The grammar named `name` when it is cached or compiled in; a grammar
    /// found among those compiled in is cached.
    pub fn load_known(&mut self, name: &str) -> (r: Option<Grammar>)
        ensures
            r == old(self).cached_spec(name@),
            final(self).entries() == old(self).entries(),
    {
        match self.cached(name) {
            Some(g) => Some(g),
            None => match Grammar::from_static(name) {
                Some(g) => {
                    self.insert(name, g);
                    Some(g)
                },
                None => None,
            },
        }
    }

    /// Completes a load the front end was asked for: `ptr` is the address it
    /// handed back (zero when the grammar is unavailable) and `version` the
    /// ABI version of the grammar there.  A usable grammar is cached.
    pub fn finish_load(&mut self, name: &str, ptr: u32, version: u32) -> (r: Result<
        Option<Grammar>,
        String,
    >)
        ensures
            ptr == 0 ==> r == Ok::<Option<Grammar>, String>(None) && final(self).entries()
                == old(self).entries(),
            ptr != 0 && abi_compatible(version) ==> (r matches Ok(Some(g)) && g.addr()
                == ptr as usize && final(self).entries() == cache_insert(
                old(self).entries(),
                name@,
                g,
            )),
            ptr != 0 && !abi_compatible(version) ==> (r matches Err(m) && m@ == load_error_text(
                name@,
                version,
            ) && final(self).entries() == old(self).entries()),
    {
        if ptr == 0 {
            return Ok(None);
        }
        match Grammar::from_raw_ptr(ptr as usize, version) {
            Ok(g) => {
                self.insert(name, g);
                Ok(Some(g))
            },
            Err(_) => {
                let mut m = String::new();
                m.append("grammar '");
                m.append(name);
                m.append("': ");
                push_incompatible_version(&mut m, version);
                assert(m@ =~= load_error_text(name@, version));
                Err(m)
            },
        }
    }
}

} // verus!
