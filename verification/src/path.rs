//! Unix paths as the in-memory filesystem sees them.
//!
//! A path is read as its sequence of components: an optional root, then the
//! text between separators, where empty pieces and `.` pieces vanish except
//! for a `.` that opens a relative path.  Two paths with the same components
//! are the same path.  Normalizing folds `..` into the component before it
//! and drops `.`.

use vstd::prelude::*;
use vstd::string::*;

verus! {

/// The component sequence of a path.
#[verifier::ext_equal]
pub struct PathView {
    pub absolute: bool,
    pub comps: Seq<Seq<char>>,
}

pub open spec fn dot() -> Seq<char> {
    seq!['.']
}

pub open spec fn dot_dot() -> Seq<char> {
    seq!['.', '.']
}

pub open spec fn str_seq(v: Seq<String>) -> Seq<Seq<char>> {
    v.map_values(|s: String| s@)
}

/// Adds one separator-delimited piece to the components read so far;
/// `first` tells whether the piece opens the text.
pub open spec fn comp_step(acc: Seq<Seq<char>>, piece: Seq<char>, first: bool) -> Seq<Seq<char>> {
    if piece.len() == 0 {
        acc
    } else if piece == dot() && !first {
        acc
    } else {
        acc.push(piece)
    }
}

/// Components found in the first `n` characters, and where the piece that
/// is still open starts.
pub open spec fn scan(s: Seq<char>, n: int) -> (Seq<Seq<char>>, int)
    decreases n,
{
    if n <= 0 {
        (seq![], 0)
    } else {
        let (acc, start) = scan(s, n - 1);
        if s[n - 1] == '/' {
            (comp_step(acc, s.subrange(start, n - 1), start == 0), n)
        } else {
            (acc, start)
        }
    }
}

pub open spec fn is_absolute(s: Seq<char>) -> bool {
    s.len() > 0 && s[0] == '/'
}

/// The components of a path text.
pub open spec fn components_spec(s: Seq<char>) -> PathView {
    let (acc, start) = scan(s, s.len() as int);
    PathView {
        absolute: is_absolute(s),
        comps: comp_step(acc, s.subrange(start, s.len() as int), start == 0),
    }
}

/// One step of normalization.
pub open spec fn norm_step(acc: Seq<Seq<char>>, c: Seq<char>) -> Seq<Seq<char>> {
    if c == dot_dot() {
        if acc.len() > 0 {
            acc.drop_last()
        } else {
            acc
        }
    } else if c == dot() {
        acc
    } else {
        acc.push(c)
    }
}

/// Normalizes the components `cs` on top of the already normal `base`.
pub open spec fn norm_fold(base: Seq<Seq<char>>, cs: Seq<Seq<char>>) -> Seq<Seq<char>>
    decreases cs.len(),
{
    if cs.len() == 0 {
        base
    } else {
        norm_step(norm_fold(base, cs.drop_last()), cs.last())
    }
}

/// The normal form of a path text.
pub open spec fn normalize_spec(s: Seq<char>) -> PathView {
    PathView { absolute: is_absolute(s), comps: norm_fold(seq![], components_spec(s).comps) }
}

/// A relative path text resolved against a normal base directory.
pub open spec fn join_normalize_spec(base: PathView, s: Seq<char>) -> PathView {
    if is_absolute(s) {
        normalize_spec(s)
    } else {
        PathView { absolute: base.absolute, comps: norm_fold(base.comps, components_spec(s).comps) }
    }
}

/// Every component is an ordinary name: not empty, not `.` or `..`, and
/// without a separator.
pub open spec fn is_normal(p: PathView) -> bool {
    forall|i: int|
        0 <= i < p.comps.len() ==> #[trigger] p.comps[i].len() > 0 && p.comps[i] != dot()
            && p.comps[i] != dot_dot() && !p.comps[i].contains('/')
}

pub open spec fn parent_spec(p: PathView) -> Option<PathView> {
    if p.comps.len() == 0 {
        None
    } else {
        Some(PathView { absolute: p.absolute, comps: p.comps.drop_last() })
    }
}

/// The last component when it is an ordinary name.
pub open spec fn file_name_spec(p: PathView) -> Option<Seq<char>> {
    if p.comps.len() == 0 || p.comps.last() == dot_dot() || p.comps.last() == dot() {
        None
    } else {
        Some(p.comps.last())
    }
}

/// `base` is a leading part of `p`, root included.
pub open spec fn starts_with_spec(p: PathView, base: PathView) -> bool {
    &&& (base.absolute ==> p.absolute)
    &&& (!base.absolute && base.comps.len() > 0 ==> !p.absolute)
    &&& base.comps.len() <= p.comps.len()
    &&& p.comps.subrange(0, base.comps.len() as int) == base.comps
}

pub open spec fn join_spec(cs: Seq<Seq<char>>) -> Seq<char>
    decreases cs.len(),
{
    if cs.len() == 0 {
        seq![]
    } else if cs.len() == 1 {
        cs[0]
    } else {
        join_spec(cs.drop_last()) + seq!['/'] + cs.last()
    }
}

/// How a path built component by component prints.
pub open spec fn display_spec(p: PathView) -> Seq<char> {
    if p.absolute {
        seq!['/'] + join_spec(p.comps)
    } else {
        join_spec(p.comps)
    }
}

/// A path held as its components.
pub struct VPath {
    pub absolute: bool,
    pub comps: Vec<String>,
}

impl View for VPath {
    type V = PathView;

    open spec fn view(&self) -> PathView {
        PathView { absolute: self.absolute, comps: str_seq(self.comps@) }
    }
}

fn is_dot(piece: &str) -> (r: bool)
    ensures
        r == (piece@ == dot()),
{
    if piece.unicode_len() == 1 {
        let c = piece.get_char(0);
        proof {
            if c == '.' {
                assert(piece@ =~= dot());
            }
        }
        c == '.'
    } else {
        false
    }
}

fn is_dot_dot(piece: &str) -> (r: bool)
    ensures
        r == (piece@ == dot_dot()),
{
    if piece.unicode_len() == 2 {
        let c0 = piece.get_char(0);
        let c1 = piece.get_char(1);
        proof {
            if c0 == '.' && c1 == '.' {
                assert(piece@ =~= dot_dot());
            }
        }
        c0 == '.' && c1 == '.'
    } else {
        false
    }
}

fn push_piece(acc: &mut Vec<String>, piece: &str, first: bool)
    ensures
        str_seq(final(acc)@) == comp_step(str_seq(old(acc)@), piece@, first),
{
    if piece.unicode_len() == 0 {
        return ;
    }
    if is_dot(piece) && !first {
        return ;
    }
    acc.push(piece.to_owned());
    assert(str_seq(acc@) =~= str_seq(old(acc)@).push(piece@));
}

/// Splits a path text into its components.
pub fn components(s: &str) -> (r: VPath)
    ensures
        r@ == components_spec(s@),
{
    let n = s.unicode_len();
    let mut acc: Vec<String> = Vec::new();
    let mut start: usize = 0;
    let mut i: usize = 0;
    while i < n
        invariant
            n == s@.len(),
            0 <= start <= i <= n,
            (str_seq(acc@), start as int) == scan(s@, i as int),
        decreases n - i,
    {
        if s.get_char(i) == '/' {
            let piece = s.substring_char(start, i);
            push_piece(&mut acc, piece, start == 0);
            start = i + 1;
        }
        i = i + 1;
    }
    let piece = s.substring_char(start, n);
    push_piece(&mut acc, piece, start == 0);
    let absolute = n > 0 && s.get_char(0) == '/';
    VPath { absolute, comps: acc }
}

pub fn clone_string(s: &String) -> (r: String)
    ensures
        r@ == s@,
{
    s.clone()
}

fn is_dot_string(c: &String) -> (r: bool)
    ensures
        r == (c@ == dot()),
{
    is_dot(c.as_str())
}

fn is_dot_dot_string(c: &String) -> (r: bool)
    ensures
        r == (c@ == dot_dot()),
{
    is_dot_dot(c.as_str())
}

/// Folds the components `cs` onto `acc` as normalization does.
fn fold_onto(acc: &mut Vec<String>, cs: &Vec<String>)
    ensures
        str_seq(final(acc)@) == norm_fold(str_seq(old(acc)@), str_seq(cs@)),
{
    let ghost base = str_seq(acc@);
    let mut j: usize = 0;
    while j < cs.len()
        invariant
            0 <= j <= cs.len(),
            str_seq(acc@) == norm_fold(base, str_seq(cs@).take(j as int)),
        decreases cs.len() - j,
    {
        let ghost prev = str_seq(acc@);
        let c = &cs[j];
        proof {
            assert(str_seq(cs@).take(j + 1).drop_last() =~= str_seq(cs@).take(j as int));
            assert(str_seq(cs@).take(j + 1).last() == c@);
        }
        if is_dot_dot_string(c) {
            if acc.len() > 0 {
                acc.pop();
                assert(str_seq(acc@) =~= prev.drop_last());
            }
        } else if is_dot_string(c) {
        } else {
            acc.push(clone_string(c));
            assert(str_seq(acc@) =~= prev.push(c@));
        }
        j = j + 1;
    }
    assert(str_seq(cs@).take(cs.len() as int) =~= str_seq(cs@));
}

/// The normal form of a path text.
pub fn normalize(s: &str) -> (r: VPath)
    ensures
        r@ == normalize_spec(s@),
{
    let c = components(s);
    let mut acc: Vec<String> = Vec::new();
    assert(str_seq(acc@) =~= Seq::<Seq<char>>::empty());
    fold_onto(&mut acc, &c.comps);
    VPath { absolute: c.absolute, comps: acc }
}

/// Resolves the path text `s` against the directory `base`, as joining the
/// two and normalizing the result does.
pub fn join_normalize(base: &VPath, s: &str) -> (r: VPath)
    ensures
        r@ == join_normalize_spec(base@, s@),
{
    let c = components(s);
    if c.absolute {
        return normalize(s);
    }
    let mut acc = clone_comps(&base.comps);
    fold_onto(&mut acc, &c.comps);
    VPath { absolute: base.absolute, comps: acc }
}

pub fn clone_comps(v: &Vec<String>) -> (r: Vec<String>)
    ensures
        str_seq(r@) == str_seq(v@),
{
    let mut r: Vec<String> = Vec::new();
    let mut i: usize = 0;
    while i < v.len()
        invariant
            0 <= i <= v.len(),
            str_seq(r@) == str_seq(v@).take(i as int),
        decreases v.len() - i,
    {
        let ghost prev = str_seq(r@);
        r.push(clone_string(&v[i]));
        assert(str_seq(r@) =~= prev.push(v@[i as int]@));
        assert(str_seq(v@).take(i + 1) =~= str_seq(v@).take(i as int).push(v@[i as int]@));
        i = i + 1;
    }
    assert(str_seq(v@).take(v.len() as int) =~= str_seq(v@));
    r
}

impl VPath {
    pub fn duplicate(&self) -> (r: VPath)
        ensures
            r@ == self@,
    {
        VPath { absolute: self.absolute, comps: clone_comps(&self.comps) }
    }

    /// The root directory `/`.
    pub fn root() -> (r: VPath)
        ensures
            r@ == (PathView { absolute: true, comps: seq![] }),
    {
        let r = VPath { absolute: true, comps: Vec::new() };
        assert(r@.comps =~= Seq::<Seq<char>>::empty());
        r
    }

    pub fn same(&self, other: &VPath) -> (r: bool)
        ensures
            r == (self@ == other@),
    {
        if self.absolute != other.absolute || self.comps.len() != other.comps.len() {
            proof {
                if self@ == other@ {
                    assert(str_seq(self.comps@).len() == str_seq(other.comps@).len());
                }
            }
            return false;
        }
        let mut i: usize = 0;
        while i < self.comps.len()
            invariant
                self.comps.len() == other.comps.len(),
                0 <= i <= self.comps.len(),
                forall|j: int| 0 <= j < i ==> self.comps@[j]@ == other.comps@[j]@,
            decreases self.comps.len() - i,
        {
            if self.comps[i] != other.comps[i] {
                proof {
                    assert(str_seq(self.comps@)[i as int] != str_seq(other.comps@)[i as int]);
                }
                return false;
            }
            i = i + 1;
        }
        assert(str_seq(self.comps@) =~= str_seq(other.comps@));
        true
    }

    /// The directory that holds this path, if any.
    pub fn parent(&self) -> (r: Option<VPath>)
        ensures
            r matches Some(p) ==> parent_spec(self@) == Some(p@),
            r is None ==> parent_spec(self@) is None,
    {
        if self.comps.len() == 0 {
            return None;
        }
        let mut comps = clone_comps(&self.comps);
        comps.pop();
        let r = VPath { absolute: self.absolute, comps };
        assert(r@.comps =~= self@.comps.drop_last());
        Some(r)
    }

    /// Whether `base` is a leading part of this path.
    pub fn starts_with(&self, base: &VPath) -> (r: bool)
        ensures
            r == starts_with_spec(self@, base@),
    {
        if base.absolute && !self.absolute {
            return false;
        }
        if !base.absolute && base.comps.len() > 0 && self.absolute {
            return false;
        }
        if base.comps.len() > self.comps.len() {
            return false;
        }
        let mut i: usize = 0;
        while i < base.comps.len()
            invariant
                base.comps.len() <= self.comps.len(),
                0 <= i <= base.comps.len(),
                forall|j: int| 0 <= j < i ==> self.comps@[j]@ == base.comps@[j]@,
            decreases base.comps.len() - i,
        {
            if self.comps[i] != base.comps[i] {
                proof {
                    assert(self@.comps.subrange(0, base.comps.len() as int)[i as int]
                        != base@.comps[i as int]);
                }
                return false;
            }
            i = i + 1;
        }
        assert(self@.comps.subrange(0, base.comps.len() as int) =~= base@.comps);
        true
    }

    /// The last component when it is an ordinary name.
    pub fn file_name(&self) -> (r: Option<String>)
        ensures
            r matches Some(s) ==> file_name_spec(self@) == Some(s@),
            r is None ==> file_name_spec(self@) is None,
    {
        let n = self.comps.len();
        if n == 0 {
            return None;
        }
        let last = &self.comps[n - 1];
        if is_dot_dot_string(last) || is_dot_string(last) {
            return None;
        }
        Some(clone_string(last))
    }

    /// The text of this path, as a path built component by component prints.
    pub fn display(&self) -> (r: String)
        ensures
            r@ == display_spec(self@),
    {
        proof {
            reveal_strlit("/");
            assert("/"@ =~= seq!['/']);
        }
        let mut out = String::new();
        if self.absolute {
            out.append("/");
        }
        let ghost lead = out@;
        let mut i: usize = 0;
        while i < self.comps.len()
            invariant
                0 <= i <= self.comps.len(),
                lead == (if self.absolute {
                    seq!['/']
                } else {
                    Seq::<char>::empty()
                }),
                out@ == lead + join_spec(str_seq(self.comps@).take(i as int)),
            decreases self.comps.len() - i,
        {
            let ghost cs = str_seq(self.comps@).take(i + 1);
            assert(cs.drop_last() =~= str_seq(self.comps@).take(i as int));
            let ghost before = out@;
            if i > 0 {
                out.append("/");
                proof {
                    reveal_strlit("/");
                    assert(out@ =~= before + seq!['/']);
                }
            }
            let ghost mid = out@;
            out.append(self.comps[i].as_str());
            assert(out@ == mid + self.comps@[i as int]@);
            proof {
                assert(cs.last() == self.comps@[i as int]@);
                if i > 0 {
                    assert(out@ =~= before + seq!['/'] + cs.last());
                    assert(join_spec(cs) == join_spec(cs.drop_last()) + seq!['/'] + cs.last());
                }
                assert(cs.last() == self.comps@[i as int]@);
                if i == 0 {
                    assert(join_spec(cs) == cs[0]);
                    assert(join_spec(str_seq(self.comps@).take(0)) =~= Seq::<char>::empty());
                }
                assert(out@ =~= lead + join_spec(cs));
            }
            i = i + 1;
        }
        assert(str_seq(self.comps@).take(self.comps.len() as int) =~= str_seq(self.comps@));
        proof {
            if !self.absolute {
                assert(out@ =~= join_spec(str_seq(self.comps@)));
            }
        }
        out
    }
}


/// Strict lexicographic order on texts, character by character.
pub open spec fn lex_less(a: Seq<char>, b: Seq<char>) -> bool
    decreases a.len(),
{
    if a.len() == 0 {
        b.len() > 0
    } else if b.len() == 0 {
        false
    } else if a[0] != b[0] {
        (a[0] as u32) < (b[0] as u32)
    } else {
        lex_less(a.drop_first(), b.drop_first())
    }
}

/// Components order by kind first (`.`, then `..`, then names) and names
/// lexicographically.
pub open spec fn comp_rank(c: Seq<char>) -> int {
    if c == dot() {
        0
    } else if c == dot_dot() {
        1
    } else {
        2
    }
}

/// The component `a` sorts strictly after the component `b`.
pub open spec fn component_after_spec(a: Seq<char>, b: Seq<char>) -> bool {
    comp_rank(a) > comp_rank(b) || (comp_rank(a) == 2 && comp_rank(b) == 2 && lex_less(b, a))
}

fn lex_less_exec(a: &str, b: &str) -> (r: bool)
    ensures
        r == lex_less(a@, b@),
{
    let n = a.unicode_len();
    let m = b.unicode_len();
    let mut i: usize = 0;
    assert(a@.skip(0) =~= a@);
    assert(b@.skip(0) =~= b@);
    while i < n && i < m
        invariant
            n == a@.len(),
            m == b@.len(),
            0 <= i <= n,
            i <= m,
            lex_less(a@, b@) == lex_less(a@.skip(i as int), b@.skip(i as int)),
        decreases n - i,
    {
        let ca = a.get_char(i);
        let cb = b.get_char(i);
        assert(a@.skip(i as int)[0] == ca);
        assert(b@.skip(i as int)[0] == cb);
        if ca != cb {
            return (ca as u32) < (cb as u32);
        }
        assert(a@.skip(i as int).drop_first() =~= a@.skip(i + 1));
        assert(b@.skip(i as int).drop_first() =~= b@.skip(i + 1));
        i = i + 1;
    }
    i == n && i < m
}

/// Whether the component `a` sorts strictly after the component `b`.
pub fn component_after(a: &str, b: &str) -> (r: bool)
    ensures
        r == component_after_spec(a@, b@),
{
    let ra: u8 = if is_dot(a) {
        0
    } else if is_dot_dot(a) {
        1
    } else {
        2
    };
    let rb: u8 = if is_dot(b) {
        0
    } else if is_dot_dot(b) {
        1
    } else {
        2
    };
    ra > rb || (ra == 2 && rb == 2 && lex_less_exec(b, a))
}


impl VPath {
    /// Whether this path sits directly inside `p`.
    pub fn is_child_of(&self, p: &VPath) -> (r: bool)
        ensures
            r == (parent_spec(self@) == Some(p@) && self@ != p@),
    {
        if self.comps.len() == 0 || self.absolute != p.absolute || self.comps.len() - 1
            != p.comps.len() {
            proof {
                if parent_spec(self@) == Some(p@) {
                    assert(self@.comps.drop_last().len() == p@.comps.len());
                }
            }
            return false;
        }
        let mut i: usize = 0;
        while i < p.comps.len()
            invariant
                p.comps.len() + 1 == self.comps.len(),
                0 <= i <= p.comps.len(),
                forall|j: int| 0 <= j < i ==> self.comps@[j]@ == p.comps@[j]@,
            decreases p.comps.len() - i,
        {
            if self.comps[i] != p.comps[i] {
                proof {
                    assert(self@.comps.drop_last()[i as int] != p@.comps[i as int]);
                }
                return false;
            }
            i = i + 1;
        }
        assert(self@.comps.drop_last() =~= p@.comps);
        assert(self@ != p@) by {
            assert(self@.comps.len() != p@.comps.len());
        }
        true
    }

    /// The last component, which a listing sorts by.
    pub fn last_component(&self) -> (r: String)
        requires
            self.comps.len() > 0,
        ensures
            r@ == self@.comps.last(),
    {
        clone_string(&self.comps[self.comps.len() - 1])
    }
}


/// The normal form of a path already split into components.
pub open spec fn normalize_key(k: PathView) -> PathView {
    PathView { absolute: k.absolute, comps: norm_fold(seq![], k.comps) }
}

impl VPath {
    /// The normal form of this path.
    pub fn normalized(&self) -> (r: VPath)
        ensures
            r@ == normalize_key(self@),
    {
        let mut acc: Vec<String> = Vec::new();
        assert(str_seq(acc@) =~= Seq::<Seq<char>>::empty());
        fold_onto(&mut acc, &self.comps);
        VPath { absolute: self.absolute, comps: acc }
    }
}


pub proof fn lemma_lex_less_asymmetric(a: Seq<char>, b: Seq<char>)
    requires
        lex_less(a, b),
    ensures
        !lex_less(b, a),
    decreases a.len(),
{
    if a.len() > 0 && b.len() > 0 && a[0] == b[0] {
        lemma_lex_less_asymmetric(a.drop_first(), b.drop_first());
    }
}

/// `a` comes before `b` in dictionary order: `a` is a proper prefix of `b`,
/// or at the first place where the two differ `a` holds the smaller character.
pub open spec fn dictionary_before(a: Seq<char>, b: Seq<char>) -> bool {
    ||| a.len() < b.len() && b.take(a.len() as int) == a
    ||| exists|k: int|
        #![trigger a.take(k), b.take(k)]
        0 <= k < a.len() && k < b.len() && a.take(k) == b.take(k) && (a[k] as u32) < (b[k] as u32)
}

/// Names are ordered as in a dictionary: a name sorts before another exactly
/// when it is a proper prefix of it or has the smaller character where they
/// first differ. So a proper prefix sorts first, and no name before itself.
pub proof fn law_lex_less_is_dictionary_order(a: Seq<char>, b: Seq<char>)
    ensures
        lex_less(a, b) == dictionary_before(a, b),
        a.len() < b.len() && b.take(a.len() as int) == a ==> lex_less(a, b) && !lex_less(b, a),
        !lex_less(a, a),
{
    lemma_lex_less_dictionary(a, b);
    if lex_less(a, b) {
        lemma_lex_less_asymmetric(a, b);
    }
    if lex_less(a, a) {
        lemma_lex_less_asymmetric(a, a);
    }
}

proof fn lemma_lex_less_dictionary(a: Seq<char>, b: Seq<char>)
    ensures
        lex_less(a, b) == dictionary_before(a, b),
    decreases a.len(),
{
    if a.len() == 0 {
        if b.len() > 0 {
            assert(b.take(0) =~= a);
        }
    } else if b.len() == 0 {
    } else if a[0] != b[0] {
        if a.len() < b.len() && b.take(a.len() as int) == a {
            assert(b.take(a.len() as int)[0] == b[0]);
        }
        assert forall|k: int|
            0 < k < a.len() && k < b.len() && #[trigger] a.take(k) == #[trigger] b.take(k) implies false by {
            assert(a.take(k)[0] == a[0]);
            assert(b.take(k)[0] == b[0]);
        }
        if (a[0] as u32) < (b[0] as u32) {
            assert(a.take(0) =~= b.take(0));
        }
    } else {
        let a1 = a.drop_first();
        let b1 = b.drop_first();
        lemma_lex_less_dictionary(a1, b1);
        let n = a.len() as int;
        if a.len() < b.len() {
            if b.take(n) == a {
                assert forall|j: int| 0 <= j < n - 1 implies b1.take(n - 1)[j] == a1[j] by {
                    assert(b.take(n)[j + 1] == a[j + 1]);
                }
                assert(b1.take(n - 1) =~= a1);
            }
            if b1.take(n - 1) == a1 {
                assert forall|j: int| 0 <= j < n implies b.take(n)[j] == a[j] by {
                    if j > 0 {
                        assert(b1.take(n - 1)[j - 1] == a1[j - 1]);
                    }
                }
                assert(b.take(n) =~= a);
            }
        }
        if exists|k: int|
            #![trigger a.take(k), b.take(k)]
            0 <= k < a.len() && k < b.len() && a.take(k) == b.take(k) && (a[k] as u32) < (b[k]
                as u32) {
            let k = choose|k: int|
                #![trigger a.take(k), b.take(k)]
                0 <= k < a.len() && k < b.len() && a.take(k) == b.take(k) && (a[k] as u32) < (b[k]
                    as u32);
            assert(k > 0);
            assert forall|j: int| 0 <= j < k - 1 implies #[trigger] a1.take(k - 1)[j] == b1.take(k - 1)[j] by {
                assert(a.take(k)[j + 1] == b.take(k)[j + 1]);
            }
            assert(a1.take(k - 1) =~= b1.take(k - 1));
            assert(a1[k - 1] == a[k] && b1[k - 1] == b[k]);
        }
        if exists|k: int|
            #![trigger a1.take(k), b1.take(k)]
            0 <= k < a1.len() && k < b1.len() && a1.take(k) == b1.take(k) && (a1[k] as u32) < (
            b1[k] as u32) {
            let k = choose|k: int|
                #![trigger a1.take(k), b1.take(k)]
                0 <= k < a1.len() && k < b1.len() && a1.take(k) == b1.take(k) && (a1[k] as u32) < (
                b1[k] as u32);
            assert forall|j: int| 0 <= j < k + 1 implies #[trigger] a.take(k + 1)[j] == b.take(k + 1)[j] by {
                if j > 0 {
                    assert(a1.take(k)[j - 1] == b1.take(k)[j - 1]);
                }
            }
            assert(a.take(k + 1) =~= b.take(k + 1));
            assert(a[k + 1] == a1[k] && b[k + 1] == b1[k]);
        }
    }
}

/// A component never sorts after a component that sorts after it.
pub proof fn lemma_component_after_asymmetric(a: Seq<char>, b: Seq<char>)
    requires
        component_after_spec(a, b),
    ensures
        !component_after_spec(b, a),
{
    if comp_rank(a) == 2 && comp_rank(b) == 2 {
        lemma_lex_less_asymmetric(b, a);
    }
}


/// Whether two texts are equal.
pub fn text_eq(a: &str, b: &str) -> (r: bool)
    ensures
        r == (a@ == b@),
{
    let n = a.unicode_len();
    if n != b.unicode_len() {
        return false;
    }
    let mut i: usize = 0;
    while i < n
        invariant
            n == a@.len(),
            n == b@.len(),
            0 <= i <= n,
            forall|j: int| 0 <= j < i ==> a@[j] == b@[j],
        decreases n - i,
    {
        if a.get_char(i) != b.get_char(i) {
            return false;
        }
        i = i + 1;
    }
    assert(a@ =~= b@);
    true
}

// ── Printing and reading back ──────────────────────────────────────────────

/// Scanning a text reads its first `n` characters only.
proof fn lemma_scan_prefix(s: Seq<char>, t: Seq<char>, n: int)
    requires
        0 <= n <= s.len(),
    ensures
        scan(s + t, n) == scan(s, n),
    decreases n,
{
    if n > 0 {
        lemma_scan_prefix(s, t, n - 1);
        lemma_scan_bounds(s, n - 1);
        let (acc, start) = scan(s, n - 1);
        assert((s + t)[n - 1] == s[n - 1]);
        assert((s + t).subrange(start, n - 1) =~= s.subrange(start, n - 1));
    }
}

/// The piece a scan has open starts within the characters read.
proof fn lemma_scan_bounds(s: Seq<char>, n: int)
    requires
        0 <= n,
    ensures
        0 <= scan(s, n).1 <= n,
    decreases n,
{
    if n > 0 {
        lemma_scan_bounds(s, n - 1);
    }
}

/// Characters other than the separator leave a scan where it was.
proof fn lemma_scan_no_slash(s: Seq<char>, n0: int, n: int)
    requires
        0 <= n0 <= n <= s.len(),
        forall|k: int| n0 <= k < n ==> s[k] != '/',
    ensures
        scan(s, n) == scan(s, n0),
    decreases n - n0,
{
    if n > n0 {
        lemma_scan_no_slash(s, n0, n - 1);
    }
}

/// Appending a separator and an ordinary name appends that name to the
/// components.
proof fn lemma_components_push(s: Seq<char>, c: Seq<char>)
    requires
        c.len() > 0,
        c != dot(),
        !c.contains('/'),
    ensures
        components_spec(s + seq!['/'] + c).comps == components_spec(s).comps.push(c),
{
    let u = s + seq!['/'] + c;
    let n = s.len() as int;
    assert(u =~= s + (seq!['/'] + c));
    lemma_scan_prefix(s, seq!['/'] + c, n);
    lemma_scan_bounds(s, n);
    let (acc, start) = scan(s, n);
    assert(u[n] == '/');
    assert(u.subrange(start, n) =~= s.subrange(start, n));
    assert forall|k: int| n + 1 <= k < u.len() implies u[k] != '/' by {
        assert(u[k] == c[k - n - 1]);
        if u[k] == '/' {
            assert(c.contains('/'));
        }
    }
    lemma_scan_no_slash(u, n + 1, u.len() as int);
    assert(u.subrange(n + 1, u.len() as int) =~= c);
}

/// The text of a path made only of ordinary names reads back as the same
/// components.
proof fn lemma_join_components(cs: Seq<Seq<char>>)
    requires
        is_normal(PathView { absolute: false, comps: cs }),
        cs.len() > 0,
    ensures
        components_spec(join_spec(cs)).comps == cs,
        components_spec(seq!['/'] + join_spec(cs)).comps == cs,
    decreases cs.len(),
{
    let p = PathView { absolute: false, comps: cs };
    assert(p.comps[cs.len() - 1] == cs.last());
    if cs.len() == 1 {
        let c = cs[0];
        assert(p.comps[0] == c);
        assert(join_spec(cs) == c);
        lemma_components_push(seq![], c);
        assert(Seq::<char>::empty() + seq!['/'] + c =~= seq!['/'] + c);
        assert(components_spec(Seq::<char>::empty()).comps =~= Seq::<Seq<char>>::empty());
        assert forall|k: int| 0 <= k < c.len() implies c[k] != '/' by {
            if c[k] == '/' {
                assert(c.contains('/'));
            }
        }
        lemma_scan_no_slash(c, 0, c.len() as int);
        assert(c.subrange(0, c.len() as int) =~= c);
        assert(cs =~= seq![c]);
    } else {
        let rest = cs.drop_last();
        let q = PathView { absolute: false, comps: rest };
        assert forall|i: int| 0 <= i < rest.len() implies #[trigger] rest[i].len() > 0 && rest[i]
            != dot() && rest[i] != dot_dot() && !rest[i].contains('/') by {
            assert(rest[i] == p.comps[i]);
        }
        lemma_join_components(rest);
        lemma_components_push(join_spec(rest), cs.last());
        lemma_components_push(seq!['/'] + join_spec(rest), cs.last());
        assert(seq!['/'] + join_spec(cs) =~= (seq!['/'] + join_spec(rest)) + seq!['/'] + cs.last());
        assert(rest.push(cs.last()) =~= cs);
    }
}

/// A path made only of ordinary names prints as a text that reads back as
/// the same path.
pub proof fn lemma_display_components(p: PathView)
    requires
        is_normal(p),
    ensures
        components_spec(display_spec(p)) == p,
{
    if p.comps.len() == 0 {
        if p.absolute {
            assert(display_spec(p) =~= seq!['/']);
            let slash = seq!['/'];
            assert(scan(slash, 0) == (Seq::<Seq<char>>::empty(), 0int));
            assert(slash[0] == '/');
            assert(slash.subrange(0, 0).len() == 0);
            assert(scan(slash, 1) == (Seq::<Seq<char>>::empty(), 1int));
            assert(seq!['/'].subrange(1, 1) =~= Seq::<char>::empty());
        } else {
            assert(display_spec(p) =~= Seq::<char>::empty());
        }
        assert(components_spec(display_spec(p)).comps =~= p.comps);
    } else {
        let q = PathView { absolute: false, comps: p.comps };
        lemma_join_components(p.comps);
        let c0 = p.comps[0];
        if !p.absolute {
            lemma_join_first(p.comps);
            assert(display_spec(p)[0] == c0[0]);
            if c0[0] == '/' {
                assert(c0.contains('/'));
            }
        }
    }
}

/// A joined text starts with the first name.
proof fn lemma_join_first(cs: Seq<Seq<char>>)
    requires
        cs.len() > 0,
        cs[0].len() > 0,
    ensures
        join_spec(cs).len() > 0,
        join_spec(cs)[0] == cs[0][0],
    decreases cs.len(),
{
    if cs.len() > 1 {
        lemma_join_first(cs.drop_last());
    }
}

// ── Normal forms ───────────────────────────────────────────────────────────

/// Every component is a non-empty name without a separator.
pub open spec fn pieces(cs: Seq<Seq<char>>) -> bool {
    forall|i: int| 0 <= i < cs.len() ==> #[trigger] cs[i].len() > 0 && !cs[i].contains('/')
}

/// The piece a scan has open holds no separator, and the pieces it closed
/// are non-empty names without one.
proof fn lemma_scan_pieces(s: Seq<char>, n: int)
    requires
        0 <= n <= s.len(),
    ensures
        pieces(scan(s, n).0),
        forall|k: int| scan(s, n).1 <= k < n ==> s[k] != '/',
    decreases n,
{
    lemma_scan_bounds(s, n);
    if n > 0 {
        lemma_scan_pieces(s, n - 1);
        lemma_scan_bounds(s, n - 1);
        let (acc, start) = scan(s, n - 1);
        if s[n - 1] == '/' {
            let piece = s.subrange(start, n - 1);
            assert(!piece.contains('/')) by {
                if piece.contains('/') {
                    let k = choose|k: int| 0 <= k < piece.len() && piece[k] == '/';
                    assert(s[start + k] == '/');
                }
            }
            let next = comp_step(acc, piece, start == 0);
            assert forall|i: int| 0 <= i < next.len() implies #[trigger] next[i].len() > 0
                && !next[i].contains('/') by {
                if i < acc.len() {
                    assert(next[i] == acc[i]);
                }
            }
        }
    }
}

/// The components of any text are non-empty names without a separator.
pub proof fn lemma_components_pieces(s: Seq<char>)
    ensures
        pieces(components_spec(s).comps),
{
    let n = s.len() as int;
    lemma_scan_pieces(s, n);
    lemma_scan_bounds(s, n);
    let (acc, start) = scan(s, n);
    let piece = s.subrange(start, n);
    assert(!piece.contains('/')) by {
        if piece.contains('/') {
            let k = choose|k: int| 0 <= k < piece.len() && piece[k] == '/';
            assert(s[start + k] == '/');
        }
    }
    let cs = components_spec(s).comps;
    assert forall|i: int| 0 <= i < cs.len() implies #[trigger] cs[i].len() > 0
        && !cs[i].contains('/') by {
        if i < acc.len() {
            assert(cs[i] == acc[i]);
        }
    }
}

/// Normalizing names onto a normal base gives a normal result.
pub proof fn lemma_norm_fold_normal(base: Seq<Seq<char>>, cs: Seq<Seq<char>>)
    requires
        is_normal(PathView { absolute: false, comps: base }),
        pieces(cs),
    ensures
        is_normal(PathView { absolute: false, comps: norm_fold(base, cs) }),
    decreases cs.len(),
{
    if cs.len() > 0 {
        let rest = cs.drop_last();
        assert forall|i: int| 0 <= i < rest.len() implies #[trigger] rest[i].len() > 0
            && !rest[i].contains('/') by {
            assert(rest[i] == cs[i]);
        }
        lemma_norm_fold_normal(base, rest);
        let acc = norm_fold(base, rest);
        let c = cs.last();
        assert(cs[cs.len() - 1] == c);
        let next = norm_step(acc, c);
        let pa = PathView { absolute: false, comps: acc };
        assert forall|i: int| 0 <= i < next.len() implies #[trigger] next[i].len() > 0 && next[i]
            != dot() && next[i] != dot_dot() && !next[i].contains('/') by {
            if i < acc.len() {
                assert(next[i] == pa.comps[i]);
            } else {
                assert(next[i] == c);
            }
        }
    }
}

/// The normal form of a text is normal.
pub proof fn lemma_normalize_normal(s: Seq<char>)
    ensures
        is_normal(normalize_spec(s)),
{
    lemma_components_pieces(s);
    lemma_norm_fold_normal(seq![], components_spec(s).comps);
    let q = PathView { absolute: false, comps: norm_fold(seq![], components_spec(s).comps) };
    let n = normalize_spec(s);
    assert forall|i: int| 0 <= i < n.comps.len() implies #[trigger] n.comps[i].len() > 0
        && n.comps[i] != dot() && n.comps[i] != dot_dot() && !n.comps[i].contains('/') by {
        assert(n.comps[i] == q.comps[i]);
    }
}

/// Normalizing names that are already normal appends them unchanged.
proof fn lemma_norm_fold_keeps(base: Seq<Seq<char>>, cs: Seq<Seq<char>>)
    requires
        is_normal(PathView { absolute: false, comps: cs }),
    ensures
        norm_fold(base, cs) == base + cs,
    decreases cs.len(),
{
    if cs.len() > 0 {
        let p = PathView { absolute: false, comps: cs };
        let rest = cs.drop_last();
        assert forall|i: int| 0 <= i < rest.len() implies #[trigger] rest[i].len() > 0 && rest[i]
            != dot() && rest[i] != dot_dot() && !rest[i].contains('/') by {
            assert(rest[i] == p.comps[i]);
        }
        lemma_norm_fold_keeps(base, rest);
        assert(p.comps[cs.len() - 1] == cs.last());
        assert((base + rest).push(cs.last()) =~= base + cs);
    } else {
        assert(base + cs =~= base);
    }
}

/// A normal path prints as a text whose normal form is that path again.
pub proof fn lemma_normalize_display(p: PathView)
    requires
        is_normal(p),
    ensures
        normalize_spec(display_spec(p)) == p,
{
    lemma_display_components(p);
    lemma_norm_fold_keeps(seq![], p.comps);
    assert(Seq::<Seq<char>>::empty() + p.comps =~= p.comps);
}

} // verus!
