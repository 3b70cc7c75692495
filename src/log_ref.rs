//! Log lines, the format that splits them into parts, and the variables
//! recovered from a line by a source reference's pattern.
use vstd::prelude::*;
use vstd::string::StrSliceExecFns;
use crate::format::{ArgModel, FormatArgument};
use crate::source_ref::{strings_view, SourceRef};
use crate::text::{chars_of, contains, contains_text, parse_u32, parse_usize, unsigned_of};

verus! {

/// What a pattern captures on a text: `None` where it does not match (or
/// does not compile); else the text of each group after the whole match,
/// `None` for a group that took no part.
pub uninterp spec fn captures_of(pattern: Seq<char>, text: Seq<char>) -> Option<
    Seq<Option<Seq<char>>>,
>;

/// What the group called `name` of a pattern captures on a text.
pub uninterp spec fn group_of(pattern: Seq<char>, text: Seq<char>, name: Seq<char>) -> Option<
    Seq<char>,
>;

pub open spec fn captures_view(c: Option<Vec<Option<String>>>) -> Option<Seq<Option<Seq<char>>>> {
    match c {
        Some(v) => Some(
            v@.map_values(
                |g: Option<String>|
                    match g {
                        Some(s) => Some(s@),
                        None => None,
                    },
            ),
        ),
        None => None,
    }
}

/// Relies on `regex::Regex::new` and `regex::Regex::captures`: the groups
/// that `pattern` captures on `text`, after the implicit whole match.
#[verifier::external_body]
pub(crate) fn pattern_captures(pattern: &str, text: &str) -> (r: Option<Vec<Option<String>>>)
    ensures
        captures_view(r) == captures_of(pattern@, text@),
{
    let re = regex::Regex::new(pattern).ok()?;
    let caps = re.captures(text)?;
    Some(caps.iter().skip(1).map(|g| g.map(|m| m.as_str().to_string())).collect())
}

/// Relies on `regex::Regex::new`, `regex::Regex::captures` and
/// `regex::Captures::name`: the text of the group `name`, a part of `text`.
#[verifier::external_body]
fn named_group<'a>(pattern: &str, text: &'a str, name: &str) -> (r: Option<&'a str>)
    ensures
        r matches Some(s) ==> group_of(pattern@, text@, name@) == Some(s@) && contains_text(
            text@,
            s@,
        ),
        r is None ==> group_of(pattern@, text@, name@) is None,
{
    let re = regex::Regex::new(pattern).ok()?;
    re.captures(text)?.name(name).map(|m| m.as_str())
}

/// A user-supplied pattern that splits a log line into named parts
/// (`file`, `line`, `body`, and any others).
#[derive(Debug, Clone)]
pub struct LogFormat {
    pub pattern: String,
}

impl LogFormat {
    /// The format of `pattern`; `.` in it also matches a line break, so that
    /// a body may span lines.
    pub fn new(pattern: String) -> (r: LogFormat)
        ensures
            r.pattern@ == "(?s)"@ + pattern@,
    {
        let mut p = String::from_str("(?s)");
        p.append(pattern.as_str());
        LogFormat { pattern: p }
    }
}

/// The parts that a log format found in a line.
#[derive(Copy, Clone, Debug, PartialEq)]
pub struct LogDetails<'a> {
    pub file: Option<&'a str>,
    pub lineno: Option<u32>,
    pub body: Option<&'a str>,
}

/// One log line, with the parts that a log format found in it, if any.
#[derive(Copy, Clone, Debug, PartialEq)]
pub struct LogRef<'a> {
    pub line: &'a str,
    pub details: Option<LogDetails<'a>>,
}

/// A variable of a call site and the value that a log line shows for it.
#[derive(PartialEq, Clone, Debug)]
pub struct VariablePair {
    pub expr: String,
    pub value: String,
}

pub open spec fn opt_view(o: Option<&str>) -> Option<Seq<char>> {
    match o {
        Some(s) => Some(s@),
        None => None,
    }
}

/// The line number that a `line` part announces.
pub open spec fn lineno_of(s: Option<Seq<char>>) -> Option<u32> {
    match s {
        Some(t) => match unsigned_of(t, u32::MAX as nat) {
            Some(v) => Some(v as u32),
            None => None,
        },
        None => None,
    }
}

/// The details that format `pattern` finds in `line`.
pub open spec fn details_match(d: LogDetails, pattern: Seq<char>, line: Seq<char>) -> bool {
    &&& opt_view(d.file) == group_of(pattern, line, "file"@)
    &&& d.lineno == lineno_of(group_of(pattern, line, "line"@))
    &&& opt_view(d.body) == group_of(pattern, line, "body"@)
}

/// The text that matching works on: the body where one was found, else the line.
pub open spec fn body_of(r: LogRef) -> Seq<char> {
    match r.details {
        Some(d) => match d.body {
            Some(b) => b@,
            None => r.line@,
        },
        None => r.line@,
    }
}

impl<'a> LogRef<'a> {
    /// A line with no parts found.
    pub fn new(line: &'a str) -> (r: LogRef<'a>)
        ensures
            r.line == line,
            r.details is None,
    {
        LogRef { line, details: None }
    }

    /// A line whose parts were found elsewhere.
    pub fn from_parsed(file: Option<&'a str>, lineno: Option<u32>, body: &'a str) -> (r: LogRef<'a>)
        ensures
            r.line == body,
            r.details == Some(LogDetails { file, lineno, body: Some(body) }),
    {
        LogRef { line: body, details: Some(LogDetails { file, lineno, body: Some(body) }) }
    }

    /// A line split into parts by `log_format`.
    pub fn with_format(line: &'a str, log_format: LogFormat) -> (r: LogRef<'a>)
        ensures
            r.line == line,
            r.details matches Some(d) && details_match(d, log_format.pattern@, line@),
            r.details matches Some(d) ==> (d.file matches Some(f) ==> contains_text(line@, f@)),
            r.details matches Some(d) ==> (d.body matches Some(b) ==> contains_text(line@, b@)),
    {
        let p = log_format.pattern.as_str();
        let file = named_group(p, line, "file");
        let lineno = match named_group(p, line, "line") {
            Some(t) => parse_u32(t),
            None => None,
        };
        let body = named_group(p, line, "body");
        LogRef { line, details: Some(LogDetails { file, lineno, body }) }
    }

    /// The text that matching works on: the body where one was found, else the line.
    pub fn body(self) -> (r: &'a str)
        ensures
            r@ == body_of(self),
    {
        match self.details {
            Some(d) => match d.body {
                Some(b) => b,
                None => self.line,
            },
            None => self.line,
        }
    }
}

/// The name given to an argument that the call does not have.
pub open spec fn unknown_expr() -> Seq<char> {
    "<unknown>"@
}

/// The expression that the `index`-th placeholder `a` of `sr` stands for.
pub open spec fn expr_of(sr: crate::source_ref::SourceRefView, a: ArgModel, index: int) -> Seq<char> {
    match a {
        ArgModel::Named(n) => n,
        ArgModel::Positional(p) => if p < sr.vars.len() {
            sr.vars[p as int]
        } else {
            unknown_expr()
        },
        ArgModel::Placeholder => if index < sr.vars.len() {
            sr.vars[index]
        } else {
            unknown_expr()
        },
    }
}

/// The pairs for the captured groups `caps` of `sr`'s pattern: groups and
/// placeholders taken together in order, as many as the shorter has.
pub open spec fn pairs_of(sr: crate::source_ref::SourceRefView, caps: Seq<Option<Seq<char>>>) -> Seq<
    (Seq<char>, Seq<char>),
> {
    let n = if caps.len() < sr.args.len() {
        caps.len()
    } else {
        sr.args.len()
    };
    Seq::new(
        n,
        |i: int|
            (
                expr_of(sr, sr.args[i], i),
                match caps[i] {
                    Some(v) => v,
                    None => seq![],
                },
            ),
    )
}

pub open spec fn pairs_view(v: Seq<VariablePair>) -> Seq<(Seq<char>, Seq<char>)> {
    v.map_values(|p: VariablePair| (p.expr@, p.value@))
}

/// For a reference whose placeholders are all `{}` or `%s`, one for each of
/// its variables, groups that capture exactly the variables' own text give
/// back each variable paired with itself, in order.
pub proof fn lemma_placeholder_pairs(sr: crate::source_ref::SourceRefView, caps: Seq<Option<Seq<char>>>)
    requires
        sr.args.len() == sr.vars.len(),
        forall|i: int| 0 <= i < sr.args.len() ==> #[trigger] sr.args[i] == ArgModel::Placeholder,
        caps.len() == sr.vars.len(),
        forall|i: int| 0 <= i < caps.len() ==> #[trigger] caps[i] == Some(sr.vars[i]),
    ensures
        pairs_of(sr, caps).len() == sr.vars.len(),
        forall|i: int|
            0 <= i < sr.vars.len() ==> #[trigger] pairs_of(sr, caps)[i] == (sr.vars[i], sr.vars[i]),
{
    assert forall|i: int| 0 <= i < sr.vars.len() implies #[trigger] pairs_of(sr, caps)[i] == (
    sr.vars[i], sr.vars[i]) by {
        assert(sr.args[i] == ArgModel::Placeholder);
        assert(caps[i] == Some(sr.vars[i]));
    }
}

/// The variables of `sr` whose values were captured as `caps`.
pub fn variables_from_captures(src_ref: &SourceRef, caps: &Vec<Option<String>>) -> (r: Vec<
    VariablePair,
>)
    ensures
        pairs_view(r@) == pairs_of(
            src_ref@,
            captures_view(Some(*caps))->Some_0,
        ),
{
    let ghost cv = captures_view(Some(*caps))->Some_0;
    let n = if caps.len() < src_ref.args.len() {
        caps.len()
    } else {
        src_ref.args.len()
    };
    let mut out: Vec<VariablePair> = Vec::new();
    let mut i: usize = 0;
    while i < n
        invariant
            cv == captures_view(Some(*caps))->Some_0,
            n <= caps@.len(),
            n <= src_ref.args@.len(),
            n == pairs_of(src_ref@, cv).len(),
            i <= n,
            pairs_view(out@) == pairs_of(src_ref@, cv).subrange(0, i as int),
        decreases n - i,
    {
        let expr = match &src_ref.args[i] {
            FormatArgument::Named(name) => name.clone(),
            FormatArgument::Positional(p) => {
                if *p < src_ref.vars.len() {
                    src_ref.vars[*p].clone()
                } else {
                    String::from_str("<unknown>")
                }
            },
            FormatArgument::Placeholder => {
                if i < src_ref.vars.len() {
                    src_ref.vars[i].clone()
                } else {
                    String::from_str("<unknown>")
                }
            },
        };
        let value = match &caps[i] {
            Some(v) => v.clone(),
            None => String::new(),
        };
        let pair = VariablePair { expr, value };
        proof {
            assert(src_ref@.args[i as int] == src_ref.args@[i as int]@);
            assert(src_ref@.vars == strings_view(src_ref.vars@));
            assert(cv[i as int] == match caps@[i as int] {
                Some(s) => Some(s@),
                None => None,
            });
            assert(pair.value@ == pairs_of(src_ref@, cv)[i as int].1);
            assert(pair.expr@ == pairs_of(src_ref@, cv)[i as int].0);
            assert(pairs_view(out@.push(pair)) =~= pairs_view(out@).push((pair.expr@, pair.value@)));
            assert(pairs_of(src_ref@, cv).subrange(0, i + 1) =~= pairs_of(src_ref@, cv).subrange(
                0,
                i as int,
            ).push(pairs_of(src_ref@, cv)[i as int]));
        }
        out.push(pair);
        i = i + 1;
    }
    assert(pairs_of(src_ref@, cv).subrange(0, i as int) =~= pairs_of(src_ref@, cv));
    out
}

/// The variables of `src_ref` that the log line shows: its pattern is
/// applied to the line's body; none where it does not match.
pub fn extract_variables(log_ref: &LogRef, src_ref: &SourceRef) -> (r: Vec<VariablePair>)
    ensures
        pairs_view(r@) == match captures_of(src_ref.pattern@, body_of(*log_ref)) {
            Some(caps) => pairs_of(src_ref@, caps),
            None => seq![],
        },
{
    let body = log_ref.body();
    match pattern_captures(src_ref.pattern.as_str(), body) {
        Some(caps) => variables_from_captures(src_ref, &caps),
        None => {
            let r: Vec<VariablePair> = Vec::new();
            assert(pairs_view(r@) =~= seq![]);
            r
        },
    }
}

/// Whether `sr`'s pattern matches the body of `r`.
pub open spec fn links(r: LogRef, sr: crate::source_ref::SourceRefView) -> bool {
    captures_of(sr.pattern, body_of(r)) is Some
}

/// The first source reference whose pattern matches the line's body.
pub fn link_to_source<'b>(log_ref: &LogRef, src_refs: &'b [SourceRef]) -> (r: Option<&'b SourceRef>)
    ensures
        r matches Some(s) ==> exists|i: int|
            0 <= i < src_refs@.len() && src_refs@[i] == *s && links(*log_ref, src_refs@[i]@)
                && forall|j: int| 0 <= j < i ==> !links(*log_ref, #[trigger] src_refs@[j]@),
        r is None ==> forall|j: int| 0 <= j < src_refs@.len() ==> !links(*log_ref, #[trigger] src_refs@[j]@),
{
    let body = log_ref.body();
    let mut i: usize = 0;
    while i < src_refs.len()
        invariant
            body@ == body_of(*log_ref),
            i <= src_refs@.len(),
            forall|j: int| 0 <= j < i ==> !links(*log_ref, #[trigger] src_refs@[j]@),
        decreases src_refs@.len() - i,
    {
        let c = pattern_captures(src_refs[i].pattern.as_str(), body);
        if c.is_some() {
            return Some(&src_refs[i]);
        }
        i = i + 1;
    }
    None
}

/// A line without the `\r` that ends it, if any.
pub open spec fn strip_cr(x: Seq<char>) -> Seq<char> {
    if x.len() > 0 && x.last() == '\r' {
        x.drop_last()
    } else {
        x
    }
}

/// The lines of `s` from position `i` on, the current one begun at `start`:
/// each ended by `\n` (with a `\r` before it dropped), the last one by the
/// end of the text unless it is empty.
pub open spec fn lines_from(s: Seq<char>, start: int, i: int) -> Seq<Seq<char>>
    decreases s.len() - i,
{
    if i < 0 || i >= s.len() {
        if 0 <= start < s.len() {
            seq![s.subrange(start, s.len() as int)]
        } else {
            seq![]
        }
    } else if s[i] == '\n' {
        seq![strip_cr(s.subrange(start, i))] + lines_from(s, i + 1, i + 1)
    } else {
        lines_from(s, start, i + 1)
    }
}

/// The lines of a text, as `str::lines` gives them.
pub open spec fn lines_of(s: Seq<char>) -> Seq<Seq<char>> {
    lines_from(s, 0, 0)
}

/// The lines of `buffer`.
pub fn split_lines<'a>(buffer: &'a str) -> (r: Vec<&'a str>)
    ensures
        r@.map_values(|l: &str| l@) == lines_of(buffer@),
{
    let n = buffer.unicode_len();
    let mut out: Vec<&'a str> = Vec::new();
    let mut start: usize = 0;
    let mut i: usize = 0;
    while i < n
        invariant
            n == buffer@.len(),
            start <= i <= n,
            lines_of(buffer@) == out@.map_values(|l: &str| l@) + lines_from(
                buffer@,
                start as int,
                i as int,
            ),
        decreases n - i,
    {
        if buffer.get_char(i) == '\n' {
            let mut end = i;
            if end > start && buffer.get_char(end - 1) == '\r' {
                end = end - 1;
            }
            let line = buffer.substring_char(start, end);
            proof {
                let x = buffer@.subrange(start as int, i as int);
                if i > start && buffer@[i - 1] == '\r' {
                    assert(x.drop_last() =~= line@);
                } else {
                    assert(x =~= line@);
                }
                let before = out@.map_values(|l: &str| l@);
                assert(out@.push(line).map_values(|l: &str| l@) =~= before.push(line@));
                assert(before + (seq![line@] + lines_from(buffer@, i + 1, i + 1)) =~= before.push(
                    line@,
                ) + lines_from(buffer@, i + 1, i + 1));
            }
            out.push(line);
            start = i + 1;
        }
        i = i + 1;
    }
    if start < n {
        let line = buffer.substring_char(start, n);
        proof {
            let before = out@.map_values(|l: &str| l@);
            assert(out@.push(line).map_values(|l: &str| l@) =~= before.push(line@));
            assert(before + seq![line@] =~= before.push(line@));
        }
        out.push(line);
    } else {
        assert(out@.map_values(|l: &str| l@) + seq![] =~= out@.map_values(|l: &str| l@));
    }
    out
}

/// The lines of `buffer` numbered from `start` up to `end` (counting from
/// zero, `end` excluded), each with the parts that `log_format`, if given,
/// finds in it.
pub fn filter_log<'a>(buffer: &'a str, start: usize, end: usize, log_format: Option<String>) -> (r:
    Vec<LogRef<'a>>)
    ensures
        ({
            let ls = lines_of(buffer@);
            let lo = if start < ls.len() { start as int } else { ls.len() as int };
            let hi = if end < ls.len() { end as int } else { ls.len() as int };
            let sel = if lo < hi { ls.subrange(lo, hi) } else { seq![] };
            &&& r@.len() == sel.len()
            &&& forall|k: int| 0 <= k < sel.len() ==> (#[trigger] r@[k]).line@ == sel[k]
            &&& forall|k: int| 0 <= k < sel.len() ==> match log_format {
                None => (#[trigger] r@[k]).details is None,
                Some(p) => (#[trigger] r@[k]).details matches Some(d) && details_match(
                    d,
                    "(?s)"@ + p@,
                    sel[k],
                ),
            }
        }),
{
    let format = match log_format {
        Some(p) => Some(LogFormat::new(p)),
        None => None,
    };
    let lines = split_lines(buffer);
    let ghost ls = lines_of(buffer@);
    let lo = if start < lines.len() { start } else { lines.len() };
    let hi = if end < lines.len() { end } else { lines.len() };
    let mut out: Vec<LogRef<'a>> = Vec::new();
    if lo >= hi {
        return out;
    }
    let mut k: usize = lo;
    while k < hi
        invariant
            lines@.map_values(|l: &str| l@) == ls,
            lo <= k <= hi <= lines@.len(),
            out@.len() == k - lo,
            forall|j: int| 0 <= j < out@.len() ==> (#[trigger] out@[j]).line@ == ls[lo + j],
            forall|j: int| 0 <= j < out@.len() ==> match format {
                None => (#[trigger] out@[j]).details is None,
                Some(f) => (#[trigger] out@[j]).details matches Some(d) && details_match(
                    d,
                    f.pattern@,
                    ls[lo + j],
                ),
            },
        decreases hi - k,
    {
        let line = lines[k];
        assert(line@ == ls[k as int]);
        let r = match &format {
            Some(f) => LogRef::with_format(line, LogFormat { pattern: f.pattern.clone() }),
            None => LogRef::new(line),
        };
        out.push(r);
        k = k + 1;
    }
    out
}

/// Whether `s` stands in a file whose path contains `file`, at line `line`.
pub open spec fn at_place(s: SourceRef, file: Seq<char>, line: nat) -> bool {
    contains_text(s.source_path@, file) && s.line_no == line
}

/// The first source reference in the file and at the line that the line's
/// body announces through `log_format`: its path contains the `file` part
/// (or anything, without one) and its line is the `line` part (or zero,
/// without one that reads as a number).
pub fn lookup_source<'b>(log_ref: &LogRef, log_format: &LogFormat, src_refs: &'b [SourceRef]) -> (r:
    Option<&'b SourceRef>)
    ensures
        ({
            let body = body_of(*log_ref);
            let file = match group_of(log_format.pattern@, body, "file"@) {
                Some(f) => f,
                None => seq![],
            };
            let line: nat = match group_of(log_format.pattern@, body, "line"@) {
                Some(t) => match unsigned_of(t, usize::MAX as nat) {
                    Some(v) => v,
                    None => 0,
                },
                None => 0,
            };
            &&& r matches Some(s) ==> exists|i: int|
                0 <= i < src_refs@.len() && src_refs@[i] == *s && at_place(src_refs@[i], file, line)
                    && forall|j: int| 0 <= j < i ==> !at_place(#[trigger] src_refs@[j], file, line)
            &&& r is None ==> forall|j: int|
                0 <= j < src_refs@.len() ==> !at_place(#[trigger] src_refs@[j], file, line)
        }),
{
    let body = log_ref.body();
    let p = log_format.pattern.as_str();
    let file = match named_group(p, body, "file") {
        Some(f) => f,
        None => "",
    };
    proof {
        reveal_strlit("");
        assert(file@ == match group_of(log_format.pattern@, body@, "file"@) {
            Some(f) => f,
            None => seq![],
        });
    }
    let line: usize = match named_group(p, body, "line") {
        Some(t) => match parse_usize(t) {
            Some(v) => v,
            None => 0,
        },
        None => 0,
    };
    let ghost spec_line: nat = match group_of(log_format.pattern@, body@, "line"@) {
        Some(t) => match unsigned_of(t, usize::MAX as nat) {
            Some(v) => v,
            None => 0,
        },
        None => 0,
    };
    assert(line as nat == spec_line);
    let mut i: usize = 0;
    while i < src_refs.len()
        invariant
            i <= src_refs@.len(),
            line as nat == spec_line,
            body@ == body_of(*log_ref),
            spec_line == match group_of(log_format.pattern@, body@, "line"@) {
                Some(t) => match unsigned_of(t, usize::MAX as nat) {
                    Some(v) => v,
                    None => 0,
                },
                None => 0,
            },
            file@ == match group_of(log_format.pattern@, body@, "file"@) {
                Some(f) => f,
                None => seq![],
            },
            forall|j: int| 0 <= j < i ==> !at_place(#[trigger] src_refs@[j], file@, line as nat),
        decreases src_refs@.len() - i,
    {
        if contains(src_refs[i].source_path.as_str(), file) && src_refs[i].line_no == line {
            assert(at_place(src_refs@[i as int], file@, spec_line));
            return Some(&src_refs[i]);
        }
        i = i + 1;
    }
    None
}

} // verus!
