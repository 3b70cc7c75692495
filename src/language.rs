//! The supported source languages: how a file is recognised, the query that
//! selects its log call sites, and the identifiers that are never variables.
use vstd::prelude::*;
use vstd::string::StrSliceExecFns;
use crate::text::same_text;

verus! {

#[derive(Debug, PartialEq, Eq, Structural, Copy, Clone)]
pub enum SourceLanguage {
    Rust,
    Java,
    Cpp,
}

/// The language that a file extension announces.
pub open spec fn language_of_extension(e: Seq<char>) -> Option<SourceLanguage> {
    if e == "rs"@ {
        Some(SourceLanguage::Rust)
    } else if e == "java"@ {
        Some(SourceLanguage::Java)
    } else if e == "h"@ || e == "hh"@ || e == "hpp"@ || e == "hxx"@ || e == "tpp"@ || e
        == "cc"@ || e == "cpp"@ || e == "cxx"@ {
        Some(SourceLanguage::Cpp)
    } else {
        None
    }
}

/// Position of the last `c` in `s`, if any.
pub open spec fn last_index_of(s: Seq<char>, c: char) -> Option<int>
    decreases s.len(),
{
    if s.len() == 0 {
        None
    } else if s.last() == c {
        Some(s.len() - 1)
    } else {
        last_index_of(s.drop_last(), c)
    }
}

/// A path without the separators and `.` components that end it.
pub open spec fn trim_tail(p: Seq<char>) -> Seq<char>
    decreases p.len(),
{
    if p.len() > 0 && p.last() == '/' {
        trim_tail(p.drop_last())
    } else if p.len() >= 2 && p.last() == '.' && p[p.len() - 2] == '/' {
        trim_tail(p.drop_last())
    } else {
        p
    }
}

/// The last component of a `/`-separated path.
pub open spec fn file_name_of(p: Seq<char>) -> Seq<char> {
    match last_index_of(p, '/') {
        Some(k) => p.skip(k + 1),
        None => p,
    }
}

/// The extension of a path: what follows the last `.` of its file name,
/// unless that dot opens the name.
pub open spec fn extension_of(p: Seq<char>) -> Option<Seq<char>> {
    let name = file_name_of(trim_tail(p));
    match last_index_of(name, '.') {
        Some(k) => if k > 0 {
            Some(name.skip(k + 1))
        } else {
            None
        },
        None => None,
    }
}

/// The language of the file at path `p`.
pub open spec fn language_of_path(p: Seq<char>) -> Option<SourceLanguage> {
    match extension_of(p) {
        Some(e) => language_of_extension(e),
        None => None,
    }
}

/// Identifiers, in lower case, that name logging calls rather than variables.
pub open spec fn denylisted(lang: SourceLanguage, w: Seq<char>) -> bool {
    match lang {
        SourceLanguage::Rust => w == "debug"@ || w == "info"@ || w == "warn"@,
        SourceLanguage::Java => w == "logger"@ || w == "log"@ || w == "fine"@ || w == "debug"@
            || w == "info"@ || w == "warn"@ || w == "trace"@,
        SourceLanguage::Cpp => w == "debug"@ || w == "info"@ || w == "warn"@ || w == "trace"@,
    }
}

/// Position of the last `c` in `v`.
fn last_index(v: &str, c: char) -> (r: Option<usize>)
    ensures
        r matches Some(k) ==> last_index_of(v@, c) == Some(k as int) && k < v@.len(),
        r is None ==> last_index_of(v@, c) is None,
{
    let n = v.unicode_len();
    let mut i: usize = n;
    assert(v@.subrange(0, n as int) =~= v@);
    while i > 0
        invariant
            i <= n == v@.len(),
            last_index_of(v@, c) == last_index_of(v@.subrange(0, i as int), c),
        decreases i,
    {
        let ghost pre = v@.subrange(0, i as int);
        assert(pre.drop_last() =~= v@.subrange(0, i - 1));
        if v.get_char(i - 1) == c {
            return Some(i - 1);
        }
        i = i - 1;
    }
    None
}

/// `p` without the separators and `.` components that end it.
pub(crate) fn trim_tail_exec(p: &str) -> (r: &str)
    ensures
        r@ == trim_tail(p@),
{
    let mut n = p.unicode_len();
    assert(p@.subrange(0, n as int) =~= p@);
    while n > 0
        invariant
            n <= p@.len(),
            trim_tail(p@) == trim_tail(p@.subrange(0, n as int)),
        decreases n,
    {
        let ghost cur = p@.subrange(0, n as int);
        assert(cur.drop_last() =~= p@.subrange(0, n - 1));
        if p.get_char(n - 1) == '/' {
            n = n - 1;
        } else if n >= 2 && p.get_char(n - 1) == '.' && p.get_char(n - 2) == '/' {
            n = n - 1;
        } else {
            return p.substring_char(0, n);
        }
    }
    p.substring_char(0, 0)
}

impl SourceLanguage {
    /// The display name of the language.
    pub fn as_str(&self) -> (r: &'static str)
        ensures
            r@ == self.name(),
    {
        match self {
            SourceLanguage::Rust => "Rust",
            SourceLanguage::Java => "Java",
            SourceLanguage::Cpp => "C++",
        }
    }

    pub open spec fn name(&self) -> Seq<char> {
        match self {
            SourceLanguage::Rust => "Rust"@,
            SourceLanguage::Java => "Java"@,
            SourceLanguage::Cpp => "C++"@,
        }
    }

    /// The language that a file extension announces.
    pub fn from_extension(e: &str) -> (r: Option<SourceLanguage>)
        ensures
            r == language_of_extension(e@),
    {
        if same_text(e, "rs") {
            Some(SourceLanguage::Rust)
        } else if same_text(e, "java") {
            Some(SourceLanguage::Java)
        } else if same_text(e, "h") || same_text(e, "hh") || same_text(e, "hpp") || same_text(
            e,
            "hxx",
        ) || same_text(e, "tpp") || same_text(e, "cc") || same_text(e, "cpp") || same_text(
            e,
            "cxx",
        ) {
            Some(SourceLanguage::Cpp)
        } else {
            None
        }
    }

    /// The language of the file at `path`, from its extension.
    pub fn from_path(full: &str) -> (r: Option<SourceLanguage>)
        ensures
            r == language_of_path(full@),
    {
        let path = trim_tail_exec(full);
        let n = path.unicode_len();
        let name = match last_index(path, '/') {
            Some(k) => path.substring_char(k + 1, n),
            None => path,
        };
        assert(name@ == file_name_of(path@));
        let m = name.unicode_len();
        match last_index(name, '.') {
            Some(k) => {
                if k > 0 {
                    SourceLanguage::from_extension(name.substring_char(k + 1, m))
                } else {
                    None
                }
            },
            None => None,
        }
    }

    /// Whether `word`, already in lower case, names a logging call of this language.
    pub fn is_denylisted(&self, word: &str) -> (r: bool)
        ensures
            r == denylisted(*self, word@),
    {
        match self {
            SourceLanguage::Rust => same_text(word, "debug") || same_text(word, "info")
                || same_text(word, "warn"),
            SourceLanguage::Java => same_text(word, "logger") || same_text(word, "log")
                || same_text(word, "fine") || same_text(word, "debug") || same_text(word, "info")
                || same_text(word, "warn") || same_text(word, "trace"),
            SourceLanguage::Cpp => same_text(word, "debug") || same_text(word, "info")
                || same_text(word, "warn") || same_text(word, "trace"),
        }
    }

    /// The syntactic query that selects this language's log call sites.
    pub open spec fn query_text(&self) -> Seq<char> {
        match self {
            SourceLanguage::Rust => "(macro_invocation macro: (identifier) (token_tree (string_literal) @log))"@,
            SourceLanguage::Java => "(method_invocation object: (identifier) @object-name name: (identifier) @method-name arguments: [(argument_list (template_expression template_argument: (string_literal) @arguments)) (argument_list (string_literal) @arguments)] (#match? @object-name \"log(ger)?|LOG(GER)?\") (#match? @method-name \"fine|debug|info|warn|trace\"))"@,
            SourceLanguage::Cpp => "((compound_statement (expression_statement (call_expression function: (_) @fname arguments: (argument_list (string_literal) @arguments)))) (#not-match? @fname \"snprintf|sprintf\"))"@,
        }
    }

    /// The syntactic query that selects this language's log call sites.
    pub fn get_query(&self) -> (r: &'static str)
        ensures
            r@ == self.query_text(),
    {
        match self {
            SourceLanguage::Rust => "(macro_invocation macro: (identifier) (token_tree (string_literal) @log))",
            SourceLanguage::Java => "(method_invocation object: (identifier) @object-name name: (identifier) @method-name arguments: [(argument_list (template_expression template_argument: (string_literal) @arguments)) (argument_list (string_literal) @arguments)] (#match? @object-name \"log(ger)?|LOG(GER)?\") (#match? @method-name \"fine|debug|info|warn|trace\"))",
            SourceLanguage::Cpp => "((compound_statement (expression_statement (call_expression function: (_) @fname arguments: (argument_list (string_literal) @arguments)))) (#not-match? @fname \"snprintf|sprintf\"))",
        }
    }
}

} // verus!
