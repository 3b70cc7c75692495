//! The index of log statements under one or more source roots, and the
//! lookup of the statement that produced a log line.
use vstd::prelude::*;
use vstd::string::StrSliceExecFns;
use crate::log_ref::{
    body_of, captures_of, extract_variables, pairs_of, pairs_view, pattern_captures, LogRef,
    VariablePair,
};
use crate::source_ref::{SourceRef, SourceRefView};
use crate::language::{trim_tail, trim_tail_exec};
use crate::text::{contains, contains_text, same_text};

verus! {

/// The ways in which the matcher's work can fail.
#[derive(Debug, Clone)]
pub enum LogError {
    /// `path` lies below the registered root `root`.
    PathExists { path: String, root: String },
    /// A source file could not be read.
    CannotReadSourceFile { path: String, message: String },
    /// No log statement was found under any root.
    NoLogStatements,
    /// A path under a root could not be accessed.
    CannotAccessPath { path: String, message: String },
    /// The file's extension names no supported language.
    UnsupportedFileType { name: String },
}

#[verifier::external_type_specification]
#[verifier::external_body]
pub struct ExRegexSet(regex::RegexSet);

/// Relies on `regex::RegexSet::new`: one matcher for all `patterns`; none
/// where a pattern does not compile or the set grows too large.
#[verifier::external_body]
fn build_set(patterns: &Vec<String>) -> Option<regex::RegexSet> {
    regex::RegexSet::new(patterns).ok()
}

/// Relies on `regex::RegexSet::patterns` and `RegexSet::matches`: the
/// patterns of the set, in order, and the lowest index among those that
/// match `text`, each pattern matching as it would alone.
#[verifier::external_body]
fn set_first_match(set: &regex::RegexSet, text: &str) -> (r: (Vec<String>, Option<usize>))
    ensures
        r.1 matches Some(k) ==> k < r.0@.len() && captures_of(r.0@[k as int]@, text@) is Some,
        r.1 matches Some(k) ==> forall|j: int| 0 <= j < k ==> captures_of(r.0@[j]@, text@) is None,
        r.1 is None ==> forall|j: int| 0 <= j < r.0@.len() ==> captures_of(r.0@[j]@, text@) is None,
{
    (set.patterns().to_vec(), set.matches(text).iter().next())
}

/// The log statements of one source file.
#[derive(Debug)]
pub struct StatementsInFile {
    pub path: String,
    pub id: u64,
    /// The statements, in source order; the first whose pattern matches wins.
    pub log_statements: Vec<SourceRef>,
    /// One matcher for all the statements' patterns, where it could be built.
    pub matcher: Option<regex::RegexSet>,
}

/// Whether `pats` are the patterns of `refs`, in order.
fn same_patterns(refs: &Vec<SourceRef>, pats: &Vec<String>) -> (r: bool)
    ensures
        r ==> pats@.len() == refs@.len() && forall|i: int|
            0 <= i < refs@.len() ==> (#[trigger] pats@[i])@ == refs@[i].pattern@,
{
    if pats.len() != refs.len() {
        return false;
    }
    let mut i: usize = 0;
    while i < refs.len()
        invariant
            pats@.len() == refs@.len(),
            i <= refs@.len(),
            forall|j: int| 0 <= j < i ==> (#[trigger] pats@[j])@ == refs@[j].pattern@,
        decreases refs@.len() - i,
    {
        if !same_text(pats[i].as_str(), refs[i].pattern.as_str()) {
            return false;
        }
        i = i + 1;
    }
    true
}

/// The patterns of `refs`, in order, in one matcher.
pub(crate) fn pattern_set(refs: &Vec<SourceRef>) -> Option<regex::RegexSet> {
    let mut pats: Vec<String> = Vec::new();
    let mut i: usize = 0;
    while i < refs.len()
        decreases refs@.len() - i,
    {
        pats.push(refs[i].pattern.clone());
        i = i + 1;
    }
    build_set(&pats)
}

/// Every statement of `sif` stands in the file at its path.
pub open spec fn paths_agree(sif: StatementsInFile) -> bool {
    forall|k: int|
        0 <= k < sif.log_statements@.len() ==> (#[trigger] sif.log_statements@[k]).source_path@
            == sif.path@
}

/// Whether the `k`-th statement of `sif` matches `body`.
pub open spec fn statement_matches(sif: StatementsInFile, body: Seq<char>, k: int) -> bool {
    captures_of(sif.log_statements@[k].pattern@, body) is Some
}

/// `k` is the first statement of `sif` that matches `body`.
pub open spec fn first_statement(sif: StatementsInFile, body: Seq<char>, k: int) -> bool {
    &&& 0 <= k < sif.log_statements@.len()
    &&& statement_matches(sif, body, k)
    &&& forall|j: int| 0 <= j < k ==> !statement_matches(sif, body, j)
}

/// Some statement of `sif` matches `body`.
pub open spec fn file_matches(sif: StatementsInFile, body: Seq<char>) -> bool {
    exists|k: int| 0 <= k < sif.log_statements@.len() && statement_matches(sif, body, k)
}

impl StatementsInFile {
    /// Whether every statement stands in the file at this record's path.
    pub fn is_consistent(&self) -> (r: bool)
        ensures
            r == paths_agree(*self),
    {
        let mut i: usize = 0;
        while i < self.log_statements.len()
            invariant
                i <= self.log_statements@.len(),
                forall|k: int| 0 <= k < i ==> (#[trigger] self.log_statements@[k]).source_path@ == self.path@,
            decreases self.log_statements@.len() - i,
        {
            if !same_text(self.log_statements[i].source_path.as_str(), self.path.as_str()) {
                return false;
            }
            i = i + 1;
        }
        true
    }

    /// The index of the first statement whose pattern matches `body`.
    pub fn first_match(&self, body: &str) -> (r: Option<usize>)
        ensures
            r matches Some(k) ==> first_statement(*self, body@, k as int),
            r is None ==> !file_matches(*self, body@),
    {
        if let Some(set) = &self.matcher {
            let (pats, hit) = set_first_match(set, body);
            if same_patterns(&self.log_statements, &pats) {
                proof {
                    assert forall|j: int| 0 <= j < pats@.len() implies statement_matches(
                        *self,
                        body@,
                        j,
                    ) == (captures_of(pats@[j]@, body@) is Some) by {
                        assert(pats@[j]@ == self.log_statements@[j].pattern@);
                    }
                }
                return hit;
            }
        }
        let mut i: usize = 0;
        while i < self.log_statements.len()
            invariant
                i <= self.log_statements@.len(),
                forall|j: int| 0 <= j < i ==> !statement_matches(*self, body@, j),
            decreases self.log_statements@.len() - i,
        {
            if pattern_captures(self.log_statements[i].pattern.as_str(), body).is_some() {
                return Some(i);
            }
            i = i + 1;
        }
        None
    }
}

/// The files with log statements under one root.
pub struct SourceTree {
    pub root: String,
    pub files_with_statements: Vec<StatementsInFile>,
}

/// Position of the file with id `id` in `fs`.
pub open spec fn index_of_id(fs: Seq<StatementsInFile>, id: u64) -> Option<int> {
    if exists|k: int| 0 <= k < fs.len() && fs[k].id == id {
        Some(choose|k: int| 0 <= k < fs.len() && fs[k].id == id)
    } else {
        None
    }
}

/// No two files share an id.
pub open spec fn ids_unique(fs: Seq<StatementsInFile>) -> bool {
    forall|i: int, j: int| 0 <= i < j < fs.len() ==> fs[i].id != fs[j].id
}

/// The files `fs` after the statements `sif` are added: they replace those
/// with the same id, or come last.
pub open spec fn inserted(fs: Seq<StatementsInFile>, sif: StatementsInFile) -> Seq<StatementsInFile> {
    match index_of_id(fs, sif.id) {
        Some(k) => fs.update(k, sif),
        None => fs.push(sif),
    }
}

/// Adding the statements of a file a second time, with nothing changed in
/// between, leaves the index as the first time did.
pub proof fn lemma_insert_idempotent(fs: Seq<StatementsInFile>, sif: StatementsInFile)
    requires
        ids_unique(fs),
    ensures
        ids_unique(inserted(fs, sif)),
        inserted(inserted(fs, sif), sif) == inserted(fs, sif),
{
    let once = inserted(fs, sif);
    match index_of_id(fs, sif.id) {
        Some(k) => {
            assert(once[k].id == sif.id);
            assert(ids_unique(once));
            let k2 = choose|j: int| 0 <= j < once.len() && once[j].id == sif.id;
            assert(k2 == k);
            assert(once.update(k, sif) =~= once);
        },
        None => {
            assert(ids_unique(once));
            assert(once[fs.len() as int].id == sif.id);
            let k2 = choose|j: int| 0 <= j < once.len() && once[j].id == sif.id;
            assert(k2 == fs.len());
            assert(once.update(k2, sif) =~= once);
        },
    }
}

impl SourceTree {
    pub open spec fn wf(&self) -> bool {
        &&& ids_unique(self.files_with_statements@)
        &&& forall|i: int|
            0 <= i < self.files_with_statements@.len() ==> paths_agree(
                #[trigger] self.files_with_statements@[i],
            )
    }

    fn find_id(&self, id: u64) -> (r: Option<usize>)
        requires
            self.wf(),
        ensures
            r matches Some(k) ==> index_of_id(self.files_with_statements@, id) == Some(k as int),
            r is None ==> index_of_id(self.files_with_statements@, id) is None,
    {
        let mut i: usize = 0;
        while i < self.files_with_statements.len()
            invariant
                self.wf(),
                i <= self.files_with_statements@.len(),
                forall|j: int| 0 <= j < i ==> self.files_with_statements@[j].id != id,
            decreases self.files_with_statements@.len() - i,
        {
            if self.files_with_statements[i].id == id {
                proof {
                    let fs = self.files_with_statements@;
                    let k = choose|k: int| 0 <= k < fs.len() && fs[k].id == id;
                    assert(k == i as int);
                }
                return Some(i);
            }
            i = i + 1;
        }
        None
    }

    /// Adds the statements of a file, replacing those of an earlier version.
    pub fn insert_statements(&mut self, sif: StatementsInFile)
        requires
            old(self).wf(),
            paths_agree(sif),
        ensures
            final(self).wf(),
            final(self).root == old(self).root,
            final(self).files_with_statements@ == inserted(old(self).files_with_statements@, sif),
    {
        match self.find_id(sif.id) {
            Some(k) => {
                self.files_with_statements.remove(k);
                self.files_with_statements.insert(k, sif);
                assert(self.files_with_statements@ =~= old(self).files_with_statements@.update(
                    k as int,
                    sif,
                ));
            },
            None => {
                self.files_with_statements.push(sif);
            },
        }
        assert forall|i: int| 0 <= i < self.files_with_statements@.len() implies paths_agree(
            #[trigger] self.files_with_statements@[i],
        ) by {
            if i < old(self).files_with_statements@.len() && self.files_with_statements@[i] != sif {
                assert(self.files_with_statements@[i] == old(self).files_with_statements@[i]);
            }
        }
        proof {
            lemma_insert_idempotent(old(self).files_with_statements@, sif);
        }
    }

    /// Drops the statements of the file with id `id`.
    pub fn remove_file(&mut self, id: u64)
        requires
            old(self).wf(),
        ensures
            final(self).wf(),
            final(self).root == old(self).root,
            match index_of_id(old(self).files_with_statements@, id) {
                Some(k) => final(self).files_with_statements@ == old(self).files_with_statements@.remove(k),
                None => final(self).files_with_statements@ == old(self).files_with_statements@,
            },
            forall|j: int|
                0 <= j < final(self).files_with_statements@.len() ==> (#[trigger] final(self).files_with_statements@[j]).id != id,
    {
        match self.find_id(id) {
            Some(k) => {
                self.files_with_statements.remove(k);
                assert forall|j: int| 0 <= j < self.files_with_statements@.len() implies (
                #[trigger] self.files_with_statements@[j]).id != id by {
                    if j >= k {
                        assert(self.files_with_statements@[j] == old(self).files_with_statements@[j + 1]);
                    }
                }
                assert forall|j: int| 0 <= j < self.files_with_statements@.len() implies paths_agree(
                    #[trigger] self.files_with_statements@[j],
                ) by {
                    if j >= k {
                        assert(self.files_with_statements@[j] == old(self).files_with_statements@[j + 1]);
                    } else {
                        assert(self.files_with_statements@[j] == old(self).files_with_statements@[j]);
                    }
                }
            },
            None => {},
        }
    }
}

/// `p` is `base` or lies below it, comparing whole `/`-separated
/// components; separators and `.` components that end either path do not count.
pub open spec fn path_below(p: Seq<char>, base: Seq<char>) -> bool {
    components_below(trim_tail(p), trim_tail(base))
}

/// `p` is `base` or lies below it, comparing whole `/`-separated components.
pub open spec fn components_below(p: Seq<char>, base: Seq<char>) -> bool {
    &&& base.len() <= p.len()
    &&& p.subrange(0, base.len() as int) == base
    &&& (base.len() == 0 || base.len() == p.len() || base.last() == '/' || p[base.len() as int]
        == '/')
}

fn path_below_exec(full: &str, whole_base: &str) -> (r: bool)
    ensures
        r == path_below(full@, whole_base@),
{
    let p = trim_tail_exec(full);
    let base = trim_tail_exec(whole_base);
    let n = p.unicode_len();
    let m = base.unicode_len();
    if m > n {
        return false;
    }
    let head = p.substring_char(0, m);
    if !same_text(head, base) {
        return false;
    }
    m == 0 || m == n || base.get_char(m - 1) == '/' || p.get_char(m) == '/'
}

/// Two paths that a third lies in are one below the other.
proof fn lemma_below_ordered(b: Seq<char>, x: Seq<char>, y: Seq<char>)
    requires
        components_below(b, x),
        components_below(b, y),
        x.len() <= y.len(),
    ensures
        components_below(y, x),
{
    assert(y.subrange(0, x.len() as int) =~= b.subrange(0, x.len() as int));
    if x.len() > 0 && x.len() < y.len() && x.last() != '/' {
        assert(y[x.len() as int] == b.subrange(0, y.len() as int)[x.len() as int]);
    }
}

/// Root `i` is the first of `roots` that `p` lies in.
pub open spec fn first_root_of(roots: Seq<SourceTree>, p: Seq<char>, i: int) -> bool {
    &&& 0 <= i < roots.len()
    &&& path_below(p, roots[i].root@)
    &&& forall|k: int| 0 <= k < i ==> !path_below(p, #[trigger] roots[k].root@)
}

/// `p` lies in one of `roots`.
pub open spec fn covered(roots: Seq<SourceTree>, p: Seq<char>) -> bool {
    exists|j: int| 0 <= j < roots.len() && path_below(p, #[trigger] roots[j].root@)
}

/// One of `roots` lies in `p`.
pub open spec fn nests(roots: Seq<SourceTree>, p: Seq<char>) -> bool {
    exists|j: int| 0 <= j < roots.len() && path_below(#[trigger] roots[j].root@, p)
}

/// `e` reports that `p` collides with the registered root `root`.
pub open spec fn path_exists(e: LogError, p: Seq<char>, root: Seq<char>) -> bool {
    e matches LogError::PathExists { path, root: r } && path@ == p && r@ == root
}

/// `r` refuses `p` naming the first root that `p` lies in.
pub open spec fn refused_by_outer(roots: Seq<SourceTree>, p: Seq<char>, r: Result<(), LogError>) -> bool {
    match r {
        Err(e) => exists|i: int| first_root_of(roots, p, i) && #[trigger] path_exists(e, p, roots[i].root@),
        Ok(_) => false,
    }
}

/// Once `add_root(a)` has succeeded on `before`, giving `after`, with no
/// earlier root lying below `a`, a path `b` below `a` lies first in `a`:
/// `add_root(b)` on `after` fails with `PathExists { path: b, root: a }` and
/// leaves the roots as they are.
pub proof fn lemma_root_containment(before: LogMatcher, after: LogMatcher, a: Seq<char>, b: Seq<
    char,
>)
    requires
        before.wf(),
        !covered(before.roots_view(), a),
        !nests(before.roots_view(), a),
        after.roots_view().len() == before.roots_view().len() + 1,
        after.roots_view().drop_last() == before.roots_view(),
        after.roots_view().last().root@ == a,
        path_below(b, a),
    ensures
        covered(after.roots_view(), b),
        first_root_of(after.roots_view(), b, before.roots_view().len() as int),
{
    let n = before.roots_view().len();
    assert(after.roots_view()[n as int].root@ == a);
    assert forall|k: int| 0 <= k < n implies !path_below(b, #[trigger] after.roots_view()[k].root@) by {
        let r = after.roots_view()[k].root@;
        assert(after.roots_view()[k] == before.roots_view()[k]);
        if path_below(b, r) {
            if trim_tail(r).len() <= trim_tail(a).len() {
                lemma_below_ordered(trim_tail(b), trim_tail(r), trim_tail(a));
                assert(path_below(before.roots_view()[k].root@, a));
            } else {
                lemma_below_ordered(trim_tail(b), trim_tail(a), trim_tail(r));
                assert(path_below(a, before.roots_view()[k].root@));
            }
        }
    }
}

/// The result of matching one log line.
pub struct LogMapping<'a> {
    pub log_ref: LogRef<'a>,
    pub src_ref: Option<SourceRef>,
    pub variables: Vec<VariablePair>,
}

/// `m` maps the line `r` to the statement `s`, with the variables that its
/// pattern captures on the line's body.
pub open spec fn mapping_of(m: LogMapping, r: LogRef, s: SourceRef) -> bool {
    &&& m.log_ref == r
    &&& m.src_ref matches Some(x) && x@ == s@
    &&& pairs_view(m.variables@) == match captures_of(s.pattern@, body_of(r)) {
        Some(caps) => pairs_of(s@, caps),
        None => seq![],
    }
}

/// Source roots and the log statements found under them.
pub struct LogMatcher {
    roots: Vec<SourceTree>,
}

/// Whether the file `sif` is searched for the line `r`: where the line names
/// a file and a body, only files whose path contains that name are.
pub open spec fn eligible(r: LogRef, sif: StatementsInFile) -> bool {
    match r.details {
        Some(d) => match (d.file, d.body) {
            (Some(f), Some(_)) => contains_text(sif.path@, f@),
            _ => true,
        },
        None => true,
    }
}

/// The file name that the line `r` names together with a body, if any.
pub open spec fn hint_of(r: LogRef) -> Option<Seq<char>> {
    match r.details {
        Some(d) => match (d.file, d.body) {
            (Some(f), Some(_)) => Some(f@),
            _ => None,
        },
        None => None,
    }
}

/// File `f` of root `a` holds a statement for the line `r`.
pub open spec fn hit(roots: Seq<SourceTree>, r: LogRef, a: int, f: int) -> bool {
    &&& 0 <= a < roots.len()
    &&& 0 <= f < roots[a].files_with_statements@.len()
    &&& eligible(r, roots[a].files_with_statements@[f])
    &&& file_matches(roots[a].files_with_statements@[f], body_of(r))
}

/// No file before file `f` of root `a`, in root order and then file order,
/// holds a statement for `r`.
pub open spec fn no_earlier_hit(roots: Seq<SourceTree>, r: LogRef, a: int, f: int) -> bool {
    &&& forall|b: int, g: int| 0 <= b < a ==> !#[trigger] hit(roots, r, b, g)
    &&& forall|g: int| 0 <= g < f ==> !#[trigger] hit(roots, r, a, g)
}

impl LogMatcher {
    pub closed spec fn roots_view(&self) -> Seq<SourceTree> {
        self.roots@
    }

    /// Every tree keeps its ids unique, and no root lies below one
    /// registered before it.
    pub open spec fn wf(&self) -> bool {
        &&& forall|i: int| 0 <= i < self.roots_view().len() ==> (#[trigger] self.roots_view()[i]).wf()
        &&& forall|i: int, j: int|
            0 <= i < j < self.roots_view().len() ==> !path_below(
                #[trigger] self.roots_view()[j].root@,
                #[trigger] self.roots_view()[i].root@,
            )
    }

    /// A matcher with no roots.
    pub fn new() -> (r: LogMatcher)
        ensures
            r.wf(),
            r.roots_view().len() == 0,
    {
        LogMatcher { roots: Vec::new() }
    }

    /// True if no log statement is known under any root.
    pub fn is_empty(&self) -> (r: bool)
        ensures
            r == forall|i: int|
                0 <= i < self.roots_view().len() ==> (#[trigger] self.roots_view()[i]).files_with_statements@.len() == 0,
    {
        let mut i: usize = 0;
        while i < self.roots.len()
            invariant
                i <= self.roots@.len(),
                forall|j: int| 0 <= j < i ==> (#[trigger] self.roots@[j]).files_with_statements@.len() == 0,
            decreases self.roots@.len() - i,
        {
            if self.roots[i].files_with_statements.len() > 0 {
                assert(self.roots_view()[i as int].files_with_statements@.len() > 0);
                return false;
            }
            i = i + 1;
        }
        true
    }

    /// The paths of the roots, in the order they were added.
    pub fn root_paths(&self) -> (r: Vec<String>)
        ensures
            r@.len() == self.roots_view().len(),
            forall|i: int| 0 <= i < r@.len() ==> (#[trigger] r@[i])@ == self.roots_view()[i].root@,
    {
        let mut out: Vec<String> = Vec::new();
        let mut i: usize = 0;
        while i < self.roots.len()
            invariant
                i <= self.roots@.len(),
                out@.len() == i,
                forall|j: int| 0 <= j < i ==> (#[trigger] out@[j])@ == self.roots@[j].root@,
            decreases self.roots@.len() - i,
        {
            out.push(self.roots[i].root.clone());
            i = i + 1;
        }
        out
    }

    /// The first root that `path` lies in, with its tree.
    pub fn match_path(&self, path: &str) -> (r: Option<(&String, &SourceTree)>)
        ensures
            r matches Some((p, t)) ==> exists|i: int|
                0 <= i < self.roots_view().len() && self.roots_view()[i] == *t && t.root == *p
                    && path_below(path@, t.root@) && forall|j: int|
                    0 <= j < i ==> !path_below(path@, #[trigger] self.roots_view()[j].root@),
            r is None ==> forall|j: int|
                0 <= j < self.roots_view().len() ==> !path_below(
                    path@,
                    #[trigger] self.roots_view()[j].root@,
                ),
    {
        let mut i: usize = 0;
        while i < self.roots.len()
            invariant
                i <= self.roots@.len(),
                forall|j: int| 0 <= j < i ==> !path_below(path@, #[trigger] self.roots@[j].root@),
            decreases self.roots@.len() - i,
        {
            if path_below_exec(path, self.roots[i].root.as_str()) {
                let t = &self.roots[i];
                assert(self.roots_view()[i as int] == *t);
                return Some((&t.root, t));
            }
            i = i + 1;
        }
        None
    }

    /// Registers a source root, unless it lies in a registered root.
    pub fn add_root(&mut self, path: &str) -> (r: Result<(), LogError>)
        requires
            old(self).wf(),
        ensures
            final(self).wf(),
            r is Err ==> final(self).roots_view() == old(self).roots_view(),
            covered(old(self).roots_view(), path@) ==> refused_by_outer(old(self).roots_view(), path@, r),
            !covered(old(self).roots_view(), path@) ==> r is Ok
                && final(self).roots_view().len() == old(self).roots_view().len() + 1
                && final(self).roots_view().drop_last() == old(self).roots_view() && final(self).roots_view().last().root@ == path@ && final(self).roots_view().last().files_with_statements@.len() == 0,
    {
        match self.match_path(path) {
            Some((root, t)) => {
                let e = LogError::PathExists { path: path.to_owned(), root: root.clone() };
                proof {
                    let i = choose|i: int|
                        0 <= i < self.roots_view().len() && self.roots_view()[i] == *t && t.root == *root
                            && path_below(path@, t.root@) && forall|j: int|
                            0 <= j < i ==> !path_below(path@, #[trigger] self.roots_view()[j].root@);
                    assert(first_root_of(old(self).roots_view(), path@, i));
                    assert(path_exists(e, path@, old(self).roots_view()[i].root@));
                    assert(covered(old(self).roots_view(), path@));
                }
                let r = Err(e);
                assert(refused_by_outer(old(self).roots_view(), path@, r));
                return r;
            },
            None => {},
        }
        let t = SourceTree { root: path.to_owned(), files_with_statements: Vec::new() };
        self.roots.push(t);
        assert(self.roots@.drop_last() =~= old(self).roots@);
        assert(self.roots_view()[old(self).roots_view().len() as int].wf());
        Ok(())
    }

    /// The statements of the file at `path`, if it lies in a root and holds any.
    pub fn find_source_file_statements(&self, path: &str) -> (r: Option<&StatementsInFile>)
        ensures
            r matches Some(s) ==> s.path@ == path@ && exists|i: int, j: int|
                first_root_of(self.roots_view(), path@, i) && 0 <= j
                    < self.roots_view()[i].files_with_statements@.len() && #[trigger] self.roots_view()[i].files_with_statements@[j]
                    == *s,
            r is None ==> forall|i: int, j: int|
                0 <= i < self.roots_view().len() && 0 <= j < self.roots_view()[i].files_with_statements@.len()
                    && path_below(path@, self.roots_view()[i].root@) && (forall|k: int|
                    0 <= k < i ==> !path_below(path@, #[trigger] self.roots_view()[k].root@))
                    ==> (#[trigger] self.roots_view()[i].files_with_statements@[j]).path@ != path@,
    {
        let mut i: usize = 0;
        while i < self.roots.len()
            invariant
                i <= self.roots@.len(),
                forall|j: int| 0 <= j < i ==> !path_below(path@, #[trigger] self.roots@[j].root@),
            decreases self.roots@.len() - i,
        {
            if path_below_exec(path, self.roots[i].root.as_str()) {
                let t = &self.roots[i];
                let mut k: usize = 0;
                while k < t.files_with_statements.len()
                    invariant
                        i < self.roots@.len(),
                        *t == self.roots@[i as int],
                        path_below(path@, t.root@),
                        forall|j: int| 0 <= j < i ==> !path_below(path@, #[trigger] self.roots@[j].root@),
                        k <= t.files_with_statements@.len(),
                        forall|j: int| 0 <= j < k ==> (#[trigger] t.files_with_statements@[j]).path@ != path@,
                    decreases t.files_with_statements@.len() - k,
                {
                    if same_text(t.files_with_statements[k].path.as_str(), path) {
                        assert(first_root_of(self.roots_view(), path@, i as int));
                        assert(self.roots_view()[i as int].files_with_statements@[k as int]
                            == t.files_with_statements@[k as int]);
                        return Some(&t.files_with_statements[k]);
                    }
                    k = k + 1;
                }
                return None;
            }
            i = i + 1;
        }
        None
    }

    /// The statement that produced the log line `log_ref`, and the values of
    /// its variables: the first file, by root and then by file order, that
    /// is searched for the line and has a statement matching its body; in it,
    /// the first such statement.
    pub fn match_log_statement<'a>(&self, log_ref: &LogRef<'a>) -> (r: Option<LogMapping<'a>>)
        requires
            self.wf(),
        ensures
            r matches Some(m) ==> (hint_of(*log_ref) matches Some(f) ==> m.src_ref matches Some(s)
                && contains_text(s.source_path@, f)),
            r is None ==> forall|a: int, f: int| !#[trigger] hit(self.roots_view(), *log_ref, a, f),
            r matches Some(m) ==> exists|a: int, f: int, k: int|
                #[trigger] hit(self.roots_view(), *log_ref, a, f) && no_earlier_hit(
                    self.roots_view(),
                    *log_ref,
                    a,
                    f,
                ) && #[trigger] first_statement(
                    self.roots_view()[a].files_with_statements@[f],
                    body_of(*log_ref),
                    k,
                ) && mapping_of(
                    m,
                    *log_ref,
                    self.roots_view()[a].files_with_statements@[f].log_statements@[k],
                ),
    {
        let body = log_ref.body();
        let hints = match log_ref.details {
            Some(d) => match (d.file, d.body) {
                (Some(f), Some(_)) => Some(f),
                _ => None,
            },
            None => None,
        };
        let mut a: usize = 0;
        while a < self.roots.len()
            invariant
                self.wf(),
                body@ == body_of(*log_ref),
                hints matches Some(f) ==> log_ref.details matches Some(d) && d.file == Some(f)
                    && d.body is Some,
                hints is None ==> !(log_ref.details matches Some(d) && d.file is Some
                    && d.body is Some),
                a <= self.roots@.len(),
                forall|b: int, g: int| 0 <= b < a ==> !#[trigger] hit(self.roots@, *log_ref, b, g),
            decreases self.roots@.len() - a,
        {
            let files = &self.roots[a].files_with_statements;
            let mut f: usize = 0;
            while f < files.len()
                invariant
                    self.wf(),
                    body@ == body_of(*log_ref),
                    hints matches Some(h) ==> log_ref.details matches Some(d) && d.file == Some(h)
                        && d.body is Some,
                    hints is None ==> !(log_ref.details matches Some(d) && d.file is Some
                        && d.body is Some),
                    a < self.roots@.len(),
                    *files == self.roots@[a as int].files_with_statements,
                    f <= files@.len(),
                    forall|b: int, g: int| 0 <= b < a ==> !#[trigger] hit(self.roots@, *log_ref, b, g),
                    forall|g: int| 0 <= g < f ==> !#[trigger] hit(self.roots@, *log_ref, a as int, g),
                decreases files@.len() - f,
            {
                let sif = &files[f];
                let wanted = match hints {
                    Some(h) => contains(sif.path.as_str(), h),
                    None => true,
                };
                assert(wanted == eligible(*log_ref, files@[f as int]));
                if wanted {
                    match sif.first_match(body) {
                        Some(k) => {
                            let src_ref = &sif.log_statements[k];
                            let variables = extract_variables(log_ref, src_ref);
                            let m = LogMapping {
                                log_ref: *log_ref,
                                src_ref: Some(src_ref.duplicate()),
                                variables,
                            };
                            assert(hit(self.roots_view(), *log_ref, a as int, f as int));
                            proof {
                                assert(self.roots_view()[a as int].wf());
                                assert(paths_agree(files@[f as int]));
                                assert(sif.log_statements@[k as int].source_path@ == sif.path@);
                            }
                            assert(no_earlier_hit(self.roots_view(), *log_ref, a as int, f as int));
                            return Some(m);
                        },
                        None => {},
                    }
                }
                f = f + 1;
            }
            a = a + 1;
        }
        None
    }

    /// Adds the statements of a file under root `root`, replacing those of
    /// an earlier version.
    pub fn insert_statements(&mut self, root: usize, sif: StatementsInFile)
        requires
            old(self).wf(),
            paths_agree(sif),
            root < old(self).roots_view().len(),
        ensures
            final(self).wf(),
            final(self).roots_view().len() == old(self).roots_view().len(),
            forall|i: int|
                0 <= i < old(self).roots_view().len() && i != root ==> final(self).roots_view()[i]
                    == old(self).roots_view()[i],
            final(self).roots_view()[root as int].root == old(self).roots_view()[root as int].root,
            final(self).roots_view()[root as int].files_with_statements@ == inserted(
                old(self).roots_view()[root as int].files_with_statements@,
                sif,
            ),
    {
        let mut t = self.roots.remove(root);
        assert(t.wf());
        t.insert_statements(sif);
        self.roots.insert(root, t);
        assert(self.roots@ =~= old(self).roots@.update(root as int, self.roots@[root as int]));
    }

    /// Drops the statements of the file with id `id` under root `root`.
    pub fn remove_file(&mut self, root: usize, id: u64)
        requires
            old(self).wf(),
            root < old(self).roots_view().len(),
        ensures
            final(self).wf(),
            final(self).roots_view().len() == old(self).roots_view().len(),
            forall|i: int|
                0 <= i < old(self).roots_view().len() && i != root ==> final(self).roots_view()[i]
                    == old(self).roots_view()[i],
            final(self).roots_view()[root as int].root == old(self).roots_view()[root as int].root,
            match index_of_id(old(self).roots_view()[root as int].files_with_statements@, id) {
                Some(k) => final(self).roots_view()[root as int].files_with_statements@ == old(self).roots_view()[root as int].files_with_statements@.remove(k),
                None => final(self).roots_view()[root as int].files_with_statements@ == old(self).roots_view()[root as int].files_with_statements@,
            },
    {
        let mut t = self.roots.remove(root);
        assert(t.wf());
        t.remove_file(id);
        self.roots.insert(root, t);
        assert(self.roots@ =~= old(self).roots@.update(root as int, self.roots@[root as int]));
    }
}

} // verus!
