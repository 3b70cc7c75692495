//! Source references: one per log call site, built from the ordered
//! matches of a syntactic query over one file.
use vstd::prelude::*;
use vstd::string::StrSliceExecFns;
use crate::format::{args_of, args_view, pattern_of, ArgModel, FormatArgument, derive_pattern};
use crate::language::{denylisted, SourceLanguage};
use crate::text::{chars_of, lower_of, lowercase, same_text, string_of, trim_of, trimmed};

verus! {

/// One match of a syntactic query: what was captured, where, and in which
/// function it stands.
#[derive(Debug, Clone)]
pub struct QueryMatch {
    /// The kind of the capture (`string_literal`, `args`, `this`, ...).
    pub kind: String,
    /// The captured source text.
    pub text: String,
    /// Zero-based row where the capture starts.
    pub start_row: usize,
    /// Zero-based column where the capture starts.
    pub start_column: usize,
    /// Zero-based row where the capture ends.
    pub end_row: usize,
    /// The name of the enclosing function, or empty.
    pub context: String,
}

/// What a query match holds, as plain values.
pub struct MatchView {
    pub kind: Seq<char>,
    pub text: Seq<char>,
    pub start_row: nat,
    pub start_column: nat,
    pub end_row: nat,
    pub context: Seq<char>,
}

impl View for QueryMatch {
    type V = MatchView;

    open spec fn view(&self) -> MatchView {
        MatchView {
            kind: self.kind@,
            text: self.text@,
            start_row: self.start_row as nat,
            start_column: self.start_column as nat,
            end_row: self.end_row as nat,
            context: self.context@,
        }
    }
}

pub open spec fn matches_view(v: Seq<QueryMatch>) -> Seq<MatchView> {
    v.map_values(|m: QueryMatch| m@)
}

/// A log call site and the pattern derived from its format literal.
#[derive(Debug, Clone)]
pub struct SourceRef {
    pub source_path: String,
    pub language: SourceLanguage,
    /// One-based line of the literal.
    pub line_no: usize,
    /// One-based line where the call's last argument ends.
    pub end_line_no: usize,
    /// Zero-based column of the literal.
    pub column: usize,
    /// The enclosing function.
    pub name: String,
    /// The literal, quotes included.
    pub text: String,
    /// The argument expressions of the call, in order.
    pub vars: Vec<String>,
    /// The anchored pattern of the literal.
    pub pattern: String,
    /// The literal's placeholders, in order.
    pub args: Vec<FormatArgument>,
}

pub struct SourceRefView {
    pub source_path: Seq<char>,
    pub language: SourceLanguage,
    pub line_no: nat,
    pub end_line_no: nat,
    pub column: nat,
    pub name: Seq<char>,
    pub text: Seq<char>,
    pub vars: Seq<Seq<char>>,
    pub pattern: Seq<char>,
    pub args: Seq<ArgModel>,
}

pub open spec fn strings_view(v: Seq<String>) -> Seq<Seq<char>> {
    v.map_values(|s: String| s@)
}

impl View for SourceRef {
    type V = SourceRefView;

    open spec fn view(&self) -> SourceRefView {
        SourceRefView {
            source_path: self.source_path@,
            language: self.language,
            line_no: self.line_no as nat,
            end_line_no: self.end_line_no as nat,
            column: self.column as nat,
            name: self.name@,
            text: self.text@,
            vars: strings_view(self.vars@),
            pattern: self.pattern@,
            args: args_view(self.args@),
        }
    }
}

pub open spec fn refs_view(v: Seq<SourceRef>) -> Seq<SourceRefView> {
    v.map_values(|r: SourceRef| r@)
}

/// A capture that starts a new call site.
pub open spec fn is_literal_kind(k: Seq<char>) -> bool {
    k == "string_literal"@ || k == "arguments"@
}

/// A capture that holds arguments of the latest call site.
pub open spec fn is_arg_kind(k: Seq<char>) -> bool {
    k == "args"@ || k == "this"@
}

pub open spec fn opens(c: char) -> bool {
    c == '(' || c == '[' || c == '{'
}

pub open spec fn closes(c: char) -> bool {
    c == ')' || c == ']' || c == '}'
}

/// The pieces of `t` from position `i` on, split at the commas that stand
/// outside brackets and string literals; `cur` is the piece begun so far.
pub open spec fn split_from(t: Seq<char>, i: int, depth: nat, quoted: bool, cur: Seq<char>) -> Seq<
    Seq<char>,
>
    decreases t.len() - i,
{
    if i < 0 || i >= t.len() {
        seq![cur]
    } else {
        let c = t[i];
        if quoted {
            if c == '\\' && i + 1 < t.len() {
                split_from(t, i + 2, depth, true, cur.push(c).push(t[i + 1]))
            } else {
                split_from(t, i + 1, depth, c != '"', cur.push(c))
            }
        } else if c == ',' && depth == 0 {
            seq![cur] + split_from(t, i + 1, 0, false, seq![])
        } else if opens(c) {
            split_from(t, i + 1, depth + 1, false, cur.push(c))
        } else if closes(c) {
            split_from(t, i + 1, if depth > 0 { (depth - 1) as nat } else { 0 }, false, cur.push(c))
        } else {
            split_from(t, i + 1, depth, c == '"', cur.push(c))
        }
    }
}

/// The comma-separated expressions of an argument text.
pub open spec fn split_args(t: Seq<char>) -> Seq<Seq<char>> {
    split_from(t, 0, 0, false, seq![])
}

/// Whether an argument expression, trimmed, is kept as a variable.
pub open spec fn keeps(lang: SourceLanguage, p: Seq<char>) -> bool {
    trim_of(p).len() > 0 && !denylisted(lang, lower_of(trim_of(p)))
}

/// The variables that a run of argument expressions contributes.
pub open spec fn kept_args(lang: SourceLanguage, ps: Seq<Seq<char>>) -> Seq<Seq<char>>
    decreases ps.len(),
{
    if ps.len() == 0 {
        seq![]
    } else {
        kept_args(lang, ps.drop_last()) + if keeps(lang, ps.last()) {
            seq![trim_of(ps.last())]
        } else {
            seq![]
        }
    }
}

/// The reference that a literal match opens.
pub open spec fn new_ref(lang: SourceLanguage, path: Seq<char>, m: MatchView) -> SourceRefView {
    SourceRefView {
        source_path: path,
        language: lang,
        line_no: m.start_row + 1,
        end_line_no: m.start_row + 1,
        column: m.start_column,
        name: m.context,
        text: m.text,
        vars: seq![],
        pattern: pattern_of(lang, m.text),
        args: args_of(lang, m.text),
    }
}

/// The reference `r` after an argument match `m`.
pub open spec fn with_args(lang: SourceLanguage, r: SourceRefView, m: MatchView) -> SourceRefView {
    let kept = kept_args(lang, split_args(m.text));
    SourceRefView {
        vars: r.vars + kept,
        end_line_no: if kept.len() > 0 {
            m.end_row + 1
        } else {
            r.end_line_no
        },
        ..r
    }
}

/// The references that the matches `ms` of one file produce, in order.
pub open spec fn build_refs(lang: SourceLanguage, path: Seq<char>, ms: Seq<MatchView>) -> Seq<
    SourceRefView,
>
    decreases ms.len(),
{
    if ms.len() == 0 {
        seq![]
    } else {
        let prev = build_refs(lang, path, ms.drop_last());
        let m = ms.last();
        if is_literal_kind(m.kind) {
            prev.push(new_ref(lang, path, m))
        } else if is_arg_kind(m.kind) && prev.len() > 0 {
            prev.update(prev.len() - 1, with_args(lang, prev.last(), m))
        } else {
            prev
        }
    }
}

/// Rows that leave room for a one-based line number.
pub open spec fn rows_fit(ms: Seq<MatchView>) -> bool {
    forall|i: int|
        0 <= i < ms.len() ==> (#[trigger] ms[i]).start_row < usize::MAX && ms[i].end_row
            < usize::MAX
}

/// Splits an argument text at its top-level commas.
pub fn split_arguments(t: &str) -> (r: Vec<String>)
    ensures
        strings_view(r@) == split_args(t@),
{
    let c = chars_of(t);
    let mut out: Vec<String> = Vec::new();
    let mut cur: Vec<char> = Vec::new();
    let mut depth: usize = 0;
    let mut quoted = false;
    let mut i: usize = 0;
    while i < c.len()
        invariant
            c@ == t@,
            i <= c@.len() + 1,
            depth <= i,
            split_args(t@) == strings_view(out@) + split_from(
                t@,
                i as int,
                depth as nat,
                quoted,
                cur@,
            ),
        decreases c@.len() + 1 - i,
    {
        let ch = c[i];
        let ghost before = strings_view(out@);
        if quoted {
            if ch == '\\' && i + 1 < c.len() {
                cur.push(ch);
                cur.push(c[i + 1]);
                i = i + 2;
            } else {
                cur.push(ch);
                quoted = ch != '"';
                i = i + 1;
            }
        } else if ch == ',' && depth == 0 {
            let s = string_of(&cur);
            out.push(s);
            proof {
                assert(strings_view(out@) =~= before.push(cur@));
                assert(before + (seq![cur@] + split_from(t@, i + 1, 0, false, seq![])) =~= before.push(
                    cur@,
                ) + split_from(t@, i + 1, 0, false, seq![]));
            }
            cur = Vec::new();
            assert(cur@ =~= seq![]);
            i = i + 1;
        } else if ch == '(' || ch == '[' || ch == '{' {
            cur.push(ch);
            depth = depth + 1;
            i = i + 1;
        } else if ch == ')' || ch == ']' || ch == '}' {
            cur.push(ch);
            if depth > 0 {
                depth = depth - 1;
            }
            i = i + 1;
        } else {
            cur.push(ch);
            quoted = ch == '"';
            i = i + 1;
        }
    }
    let s = string_of(&cur);
    out.push(s);
    proof {
        assert(split_from(t@, i as int, depth as nat, quoted, cur@) == seq![cur@]);
        assert(strings_view(out@) =~= strings_view(out@).drop_last().push(cur@));
        assert(strings_view(out@).drop_last() =~= strings_view(out@.drop_last()));
    }
    out
}

proof fn lemma_strings_push(v: Seq<String>, s: String)
    ensures
        strings_view(v.push(s)) == strings_view(v).push(s@),
{
    assert(strings_view(v.push(s)) =~= strings_view(v).push(s@));
}

/// The variables kept from the expressions of an argument match.
pub fn keep_arguments(lang: SourceLanguage, t: &str) -> (r: Vec<String>)
    ensures
        strings_view(r@) == kept_args(lang, split_args(t@)),
        forall|i: int| 0 <= i < r@.len() ==> !denylisted(lang, lower_of((#[trigger] r@[i])@)),
{
    let parts = split_arguments(t);
    let ghost ps = split_args(t@);
    let mut out: Vec<String> = Vec::new();
    let mut k: usize = 0;
    while k < parts.len()
        invariant
            strings_view(parts@) == ps,
            k <= parts@.len(),
            strings_view(out@) == kept_args(lang, ps.subrange(0, k as int)),
            forall|i: int| 0 <= i < out@.len() ==> !denylisted(lang, lower_of((#[trigger] out@[i])@)),
        decreases parts@.len() - k,
    {
        let ghost sub = ps.subrange(0, k + 1);
        assert(sub.drop_last() =~= ps.subrange(0, k as int));
        assert(sub.last() == parts@[k as int]@);
        let p = trimmed(parts[k].as_str());
        let low = lowercase(p.as_str());
        if p.as_str().unicode_len() > 0 && !lang.is_denylisted(low.as_str()) {
            proof {
                lemma_strings_push(out@, p);
            }
            out.push(p);
        } else {
            assert(kept_args(lang, sub) =~= kept_args(lang, ps.subrange(0, k as int)));
        }
        k = k + 1;
    }
    assert(ps.subrange(0, k as int) =~= ps);
    out
}

fn is_literal_kind_exec(k: &str) -> (r: bool)
    ensures
        r == is_literal_kind(k@),
{
    same_text(k, "string_literal") || same_text(k, "arguments")
}

fn is_arg_kind_exec(k: &str) -> (r: bool)
    ensures
        r == is_arg_kind(k@),
{
    same_text(k, "args") || same_text(k, "this")
}

impl SourceRef {
    /// The reference that a literal match opens in the file at `path`.
    pub fn new(lang: SourceLanguage, path: &str, m: &QueryMatch) -> (r: SourceRef)
        requires
            m.start_row < usize::MAX,
        ensures
            r@ == new_ref(lang, path@, m@),
    {
        let (pattern, args) = derive_pattern(lang, m.text.as_str());
        let r = SourceRef {
            source_path: path.to_owned(),
            language: lang,
            line_no: m.start_row + 1,
            end_line_no: m.start_row + 1,
            column: m.start_column,
            name: m.context.clone(),
            text: m.text.clone(),
            vars: Vec::new(),
            pattern,
            args,
        };
        assert(strings_view(r.vars@) =~= seq![]);
        r
    }

    /// A copy of this reference.
    pub fn duplicate(&self) -> (r: SourceRef)
        ensures
            r@ == self@,
    {
        let mut vars: Vec<String> = Vec::new();
        let mut k: usize = 0;
        while k < self.vars.len()
            invariant
                k <= self.vars@.len(),
                strings_view(vars@) == strings_view(self.vars@.subrange(0, k as int)),
            decreases self.vars@.len() - k,
        {
            let c = self.vars[k].clone();
            proof {
                lemma_strings_push(vars@, c);
                lemma_strings_push(self.vars@.subrange(0, k as int), self.vars@[k as int]);
                assert(self.vars@.subrange(0, k + 1) =~= self.vars@.subrange(0, k as int).push(
                    self.vars@[k as int],
                ));
            }
            vars.push(c);
            k = k + 1;
        }
        assert(self.vars@.subrange(0, k as int) =~= self.vars@);
        let mut args: Vec<FormatArgument> = Vec::new();
        let mut j: usize = 0;
        while j < self.args.len()
            invariant
                j <= self.args@.len(),
                args_view(args@) == args_view(self.args@.subrange(0, j as int)),
            decreases self.args@.len() - j,
        {
            let a = match &self.args[j] {
                FormatArgument::Named(n) => FormatArgument::Named(n.clone()),
                FormatArgument::Positional(p) => FormatArgument::Positional(*p),
                FormatArgument::Placeholder => FormatArgument::Placeholder,
            };
            proof {
                assert(self.args@.subrange(0, j + 1) =~= self.args@.subrange(0, j as int).push(
                    self.args@[j as int],
                ));
                assert(args_view(args@.push(a)) =~= args_view(args@).push(a@));
                assert(args_view(self.args@.subrange(0, j + 1)) =~= args_view(
                    self.args@.subrange(0, j as int),
                ).push(self.args@[j as int]@));
            }
            args.push(a);
            j = j + 1;
        }
        assert(self.args@.subrange(0, j as int) =~= self.args@);
        SourceRef {
            source_path: self.source_path.clone(),
            language: self.language,
            line_no: self.line_no,
            end_line_no: self.end_line_no,
            column: self.column,
            name: self.name.clone(),
            text: self.text.clone(),
            vars,
            pattern: self.pattern.clone(),
            args,
        }
    }
}

/// Builds the references of one file from its query matches, in source
/// order: a literal match opens a call site; an argument match adds its
/// trimmed expressions, but for denylisted identifiers, to the latest one.
pub fn build_source_refs(lang: SourceLanguage, path: &str, ms: &Vec<QueryMatch>) -> (r: Vec<
    SourceRef,
>)
    requires
        rows_fit(matches_view(ms@)),
    ensures
        refs_view(r@) == build_refs(lang, path@, matches_view(ms@)),
{
    let mut out: Vec<SourceRef> = Vec::new();
    let mut k: usize = 0;
    while k < ms.len()
        invariant
            rows_fit(matches_view(ms@)),
            k <= ms@.len(),
            refs_view(out@) == build_refs(lang, path@, matches_view(ms@.subrange(0, k as int))),
        decreases ms@.len() - k,
    {
        let m = &ms[k];
        let ghost sub = matches_view(ms@.subrange(0, k + 1));
        assert(sub.drop_last() =~= matches_view(ms@.subrange(0, k as int)));
        assert(sub.last() == m@);
        assert(m.start_row < usize::MAX && m.end_row < usize::MAX) by {
            assert(matches_view(ms@)[k as int] == m@);
        }
        if is_literal_kind_exec(m.kind.as_str()) {
            let r = SourceRef::new(lang, path, m);
            out.push(r);
            assert(refs_view(out@) =~= build_refs(lang, path@, sub));
        } else if is_arg_kind_exec(m.kind.as_str()) && out.len() > 0 {
            let kept = keep_arguments(lang, m.text.as_str());
            let mut last = out.pop().unwrap();
            let ghost old_last = last@;
            assert(refs_view(out@).push(old_last) =~= build_refs(
                lang,
                path@,
                matches_view(ms@.subrange(0, k as int)),
            ));
            let mut j: usize = 0;
            while j < kept.len()
                invariant
                    j <= kept@.len(),
                    last@ == (SourceRefView {
                        vars: old_last.vars + strings_view(kept@.subrange(0, j as int)),
                        ..old_last
                    }),
                decreases kept@.len() - j,
            {
                let c = kept[j].clone();
                proof {
                    lemma_strings_push(last.vars@, c);
                    lemma_strings_push(kept@.subrange(0, j as int), kept@[j as int]);
                    assert(kept@.subrange(0, j + 1) =~= kept@.subrange(0, j as int).push(
                        kept@[j as int],
                    ));
                }
                last.vars.push(c);
                assert(strings_view(last.vars@) =~= old_last.vars + strings_view(
                    kept@.subrange(0, j + 1),
                ));
                j = j + 1;
            }
            assert(kept@.subrange(0, j as int) =~= kept@);
            if kept.len() > 0 {
                last.end_line_no = m.end_row + 1;
            }
            out.push(last);
            assert(refs_view(out@) =~= build_refs(lang, path@, sub));
        } else {
            assert(refs_view(out@) =~= build_refs(lang, path@, sub));
        }
        k = k + 1;
    }
    assert(ms@.subrange(0, k as int) =~= ms@);
    out
}

/// Every reference built from the matches of a file stands in that file.
pub proof fn lemma_refs_path(lang: SourceLanguage, path: Seq<char>, ms: Seq<MatchView>)
    ensures
        forall|k: int|
            0 <= k < build_refs(lang, path, ms).len() ==> (#[trigger] build_refs(lang, path, ms)[k]).source_path == path,
    decreases ms.len(),
{
    if ms.len() > 0 {
        lemma_refs_path(lang, path, ms.drop_last());
    }
}

/// A denylisted identifier, in lower case, is never among the variables of
/// a reference built from query matches.
pub proof fn lemma_denylist_sound(lang: SourceLanguage, path: Seq<char>, ms: Seq<MatchView>)
    ensures
        forall|i: int, j: int|
            0 <= i < build_refs(lang, path, ms).len() && 0 <= j < build_refs(
                lang,
                path,
                ms,
            )[i].vars.len() ==> !denylisted(lang, lower_of(#[trigger] build_refs(lang, path, ms)[i].vars[j])),
    decreases ms.len(),
{
    if ms.len() > 0 {
        lemma_denylist_sound(lang, path, ms.drop_last());
        let m = ms.last();
        lemma_kept_sound(lang, split_args(m.text));
    }
}

proof fn lemma_kept_sound(lang: SourceLanguage, ps: Seq<Seq<char>>)
    ensures
        forall|j: int|
            0 <= j < kept_args(lang, ps).len() ==> !denylisted(lang, lower_of(#[trigger] kept_args(lang, ps)[j])),
    decreases ps.len(),
{
    if ps.len() > 0 {
        lemma_kept_sound(lang, ps.drop_last());
        let pre = kept_args(lang, ps.drop_last());
        assert forall|j: int| 0 <= j < kept_args(lang, ps).len() implies !denylisted(
            lang,
            lower_of(#[trigger] kept_args(lang, ps)[j]),
        ) by {
            if j < pre.len() {
                assert(kept_args(lang, ps)[j] == pre[j]);
            }
        }
    }
}

} // verus!
