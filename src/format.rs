//! Turning a format literal into an anchored pattern whose capture groups
//! stand for the literal's placeholders.
use vstd::prelude::*;
use crate::language::SourceLanguage;
use crate::text::{all_digits, chars_of, parse_u32, string_of, unsigned_of};

verus! {

/// One placeholder of a format literal.
#[derive(Debug, Clone, PartialEq)]
pub enum FormatArgument {
    /// `{name}`: the value of the variable `name`.
    Named(String),
    /// `{N}`: the value of the call's `N`-th argument.
    Positional(usize),
    /// `{}` or a printf conversion: the value of the next argument.
    Placeholder,
}

/// What a `FormatArgument` stands for.
pub enum ArgModel {
    Named(Seq<char>),
    Positional(nat),
    Placeholder,
}

impl View for FormatArgument {
    type V = ArgModel;

    open spec fn view(&self) -> ArgModel {
        match self {
            FormatArgument::Named(n) => ArgModel::Named(n@),
            FormatArgument::Positional(p) => ArgModel::Positional(*p as nat),
            FormatArgument::Placeholder => ArgModel::Placeholder,
        }
    }
}

pub open spec fn args_view(v: Seq<FormatArgument>) -> Seq<ArgModel> {
    v.map_values(|a: FormatArgument| a@)
}

/// One unit of a scanned literal: a character of plain text, or a placeholder.
pub enum Piece {
    Char(char),
    Hole(ArgModel),
}

/// Position of the first `c` in `s` at or after `i`.
pub open spec fn first_from(s: Seq<char>, c: char, i: int) -> Option<int>
    decreases s.len() - i,
{
    if i < 0 || i >= s.len() {
        None
    } else if s[i] == c {
        Some(i)
    } else {
        first_from(s, c, i + 1)
    }
}

/// The content of a literal: what stands between its first and its last quote.
pub open spec fn unquote(t: Seq<char>) -> Seq<char> {
    match first_from(t, '"', 0) {
        Some(a) => match last_quote(t) {
            Some(b) => if a < b {
                t.subrange(a + 1, b)
            } else {
                t
            },
            None => t,
        },
        None => t,
    }
}

pub open spec fn last_quote(t: Seq<char>) -> Option<int> {
    crate::language::last_index_of(t, '"')
}

/// What an escape sequence `\c` stands for.
pub open spec fn escaped(c: char) -> Seq<char> {
    if c == 'n' {
        seq!['\n']
    } else if c == 't' {
        seq!['\t']
    } else if c == 'r' {
        seq!['\r']
    } else if c == '0' {
        seq!['\0']
    } else if c == '\\' || c == '"' || c == '\'' {
        seq![c]
    } else {
        seq!['\\', c]
    }
}

/// The characters that `s` denotes from position `i` on, escapes processed.
pub open spec fn unescape_from(s: Seq<char>, i: int) -> Seq<char>
    decreases s.len() - i,
{
    if i < 0 || i >= s.len() {
        seq![]
    } else if s[i] == '\\' && i + 1 < s.len() {
        escaped(s[i + 1]) + unescape_from(s, i + 2)
    } else {
        seq![s[i]] + unescape_from(s, i + 1)
    }
}

/// The placeholder that the text between `{` and `}` names: what precedes
/// a `:` is a position, a name, or nothing.
pub open spec fn arg_model(inner: Seq<char>) -> ArgModel {
    let head = match first_from(inner, ':', 0) {
        Some(k) => inner.subrange(0, k),
        None => inner,
    };
    if head.len() == 0 {
        ArgModel::Placeholder
    } else {
        match unsigned_of(head, u32::MAX as nat) {
            Some(v) => ArgModel::Positional(v),
            None => ArgModel::Named(head),
        }
    }
}

pub open spec fn java_conversion(c: char) -> bool {
    c == 's' || c == 'd' || c == 'f' || c == 'x' || c == 'c' || c == 'b' || c == 'e' || c
        == 'g' || c == 'o' || c == 'h'
}

pub open spec fn cpp_conversion(c: char) -> bool {
    c == 's' || c == 'd' || c == 'u' || c == 'x' || c == 'f' || c == 'c' || c == 'p'
}

/// The piece that starts at position `i` of the content `u`, and its length.
pub open spec fn step(lang: SourceLanguage, u: Seq<char>, i: int) -> (Piece, int) {
    let c = u[i];
    let has_next = i + 1 < u.len();
    match lang {
        SourceLanguage::Rust => if c == '{' && has_next && u[i + 1] == '{' {
            (Piece::Char('{'), 2)
        } else if c == '}' && has_next && u[i + 1] == '}' {
            (Piece::Char('}'), 2)
        } else if c == '{' && first_from(u, '}', i + 1) is Some {
            let j = first_from(u, '}', i + 1)->Some_0;
            (Piece::Hole(arg_model(u.subrange(i + 1, j))), j + 1 - i)
        } else {
            (Piece::Char(c), 1)
        },
        SourceLanguage::Java => if c == '{' && has_next && u[i + 1] == '}' {
            (Piece::Hole(ArgModel::Placeholder), 2)
        } else if c == '%' && has_next && u[i + 1] == '%' {
            (Piece::Char('%'), 2)
        } else if c == '%' && has_next && java_conversion(u[i + 1]) {
            (Piece::Hole(ArgModel::Placeholder), 2)
        } else {
            (Piece::Char(c), 1)
        },
        SourceLanguage::Cpp => if c == '%' && has_next && u[i + 1] == '%' {
            (Piece::Char('%'), 2)
        } else if c == '%' && has_next && cpp_conversion(u[i + 1]) {
            (Piece::Hole(ArgModel::Placeholder), 2)
        } else {
            (Piece::Char(c), 1)
        },
    }
}

/// The pieces of the content `u` from position `i` on.
pub open spec fn pieces_from(lang: SourceLanguage, u: Seq<char>, i: int) -> Seq<Piece>
    decreases u.len() - i,
{
    if i < 0 || i >= u.len() {
        seq![]
    } else {
        if step(lang, u, i).1 <= 0 || i + step(lang, u, i).1 > u.len() {
            seq![]
        } else {
            seq![step(lang, u, i).0] + pieces_from(lang, u, i + step(lang, u, i).1)
        }
    }
}

/// The pieces of a literal, quotes stripped and escapes processed.
pub open spec fn pieces_of(lang: SourceLanguage, literal: Seq<char>) -> Seq<Piece> {
    pieces_from(lang, unescape_from(unquote(literal), 0), 0)
}

/// The characters that a regular expression gives a meaning of their own.
pub open spec fn is_meta(c: char) -> bool {
    c == '\\' || c == '.' || c == '+' || c == '*' || c == '?' || c == '(' || c == ')' || c == '|'
        || c == '[' || c == ']' || c == '{' || c == '}' || c == '^' || c == '$' || c == '#' || c
        == '&' || c == '-' || c == '~'
}

/// A character as a pattern matches it literally: meta characters get a backslash.
pub open spec fn escape_char(c: char) -> Seq<char> {
    if is_meta(c) {
        seq!['\\', c]
    } else {
        seq![c]
    }
}

/// A text as a pattern matches it literally.
pub open spec fn escape_of(s: Seq<char>) -> Seq<char>
    decreases s.len(),
{
    if s.len() == 0 {
        seq![]
    } else {
        escape_of(s.drop_last()) + escape_char(s.last())
    }
}

/// The pattern text for one piece.
pub open spec fn piece_pattern(p: Piece) -> Seq<char> {
    match p {
        Piece::Char(c) => escape_char(c),
        Piece::Hole(_) => "(.*?)"@,
    }
}

/// The pattern text for a run of pieces.
pub open spec fn render(ps: Seq<Piece>) -> Seq<char>
    decreases ps.len(),
{
    if ps.len() == 0 {
        seq![]
    } else {
        render(ps.drop_last()) + piece_pattern(ps.last())
    }
}

/// The placeholders among a run of pieces, in order.
pub open spec fn holes(ps: Seq<Piece>) -> Seq<ArgModel>
    decreases ps.len(),
{
    if ps.len() == 0 {
        seq![]
    } else {
        holes(ps.drop_last()) + match ps.last() {
            Piece::Hole(a) => seq![a],
            Piece::Char(_) => seq![],
        }
    }
}

/// The number of pieces that are placeholders.
pub open spec fn hole_count(ps: Seq<Piece>) -> nat
    decreases ps.len(),
{
    if ps.len() == 0 {
        0
    } else {
        hole_count(ps.drop_last()) + if ps.last() is Hole {
            1nat
        } else {
            0nat
        }
    }
}

/// The anchored pattern of a literal.
pub open spec fn pattern_of(lang: SourceLanguage, literal: Seq<char>) -> Seq<char> {
    "^"@ + render(pieces_of(lang, literal)) + "$"@
}

/// The placeholders of a literal, in order.
pub open spec fn args_of(lang: SourceLanguage, literal: Seq<char>) -> Seq<ArgModel> {
    holes(pieces_of(lang, literal))
}

/// Relies on `regex::escape`: a backslash before each meta character.
#[verifier::external_body]
fn escape_text(s: &str) -> (r: String)
    ensures
        r@ == escape_of(s@),
{
    regex::escape(s)
}

/// `first_from` finds a match at or after its start, and skips none.
proof fn lemma_first_from(s: Seq<char>, c: char, i: int)
    requires
        0 <= i,
    ensures
        first_from(s, c, i) matches Some(j) ==> i <= j < s.len() && s[j] == c,
    decreases s.len() - i,
{
    if i < s.len() && s[i] != c {
        lemma_first_from(s, c, i + 1);
    }
}

fn find_from(s: &Vec<char>, c: char, i: usize) -> (r: Option<usize>)
    ensures
        r matches Some(j) ==> first_from(s@, c, i as int) == Some(j as int),
        r is None ==> first_from(s@, c, i as int) is None,
{
    let mut k: usize = i;
    while k < s.len()
        invariant
            i <= k,
            first_from(s@, c, i as int) == first_from(s@, c, k as int),
        decreases s@.len() - k,
    {
        if s[k] == c {
            return Some(k);
        }
        k = k + 1;
    }
    None
}

fn last_from(s: &Vec<char>, c: char) -> (r: Option<usize>)
    ensures
        r matches Some(j) ==> crate::language::last_index_of(s@, c) == Some(j as int) && j
            < s@.len(),
        r is None ==> crate::language::last_index_of(s@, c) is None,
{
    let mut i: usize = s.len();
    assert(s@.subrange(0, i as int) =~= s@);
    while i > 0
        invariant
            i <= s@.len(),
            crate::language::last_index_of(s@, c) == crate::language::last_index_of(
                s@.subrange(0, i as int),
                c,
            ),
        decreases i,
    {
        assert(s@.subrange(0, i as int).drop_last() =~= s@.subrange(0, i - 1));
        if s[i - 1] == c {
            return Some(i - 1);
        }
        i = i - 1;
    }
    None
}

/// The characters of `s` from `a` to `b`.
pub fn slice_chars(s: &Vec<char>, a: usize, b: usize) -> (r: Vec<char>)
    requires
        a <= b <= s@.len(),
    ensures
        r@ == s@.subrange(a as int, b as int),
{
    let mut r: Vec<char> = Vec::new();
    let mut k: usize = a;
    while k < b
        invariant
            a <= k <= b <= s@.len(),
            r@ == s@.subrange(a as int, k as int),
        decreases b - k,
    {
        r.push(s[k]);
        assert(r@ =~= s@.subrange(a as int, k + 1));
        k = k + 1;
    }
    r
}

/// Appends the characters of `s` to `out`.
pub fn push_all(out: &mut Vec<char>, s: &Vec<char>)
    ensures
        final(out)@ == old(out)@ + s@,
{
    let ghost start = out@;
    let mut k: usize = 0;
    while k < s.len()
        invariant
            k <= s@.len(),
            out@ == start + s@.subrange(0, k as int),
        decreases s@.len() - k,
    {
        out.push(s[k]);
        assert(out@ =~= start + s@.subrange(0, k + 1));
        k = k + 1;
    }
    assert(s@.subrange(0, s@.len() as int) =~= s@);
}

fn unquote_exec(t: &Vec<char>) -> (r: Vec<char>)
    ensures
        r@ == unquote(t@),
{
    match find_from(t, '"', 0) {
        Some(a) => match last_from(t, '"') {
            Some(b) => if a < b {
                slice_chars(t, a + 1, b)
            } else {
                slice_chars(t, 0, t.len())
            },
            None => slice_chars(t, 0, t.len()),
        },
        None => slice_chars(t, 0, t.len()),
    }
}

fn escaped_exec(c: char) -> (r: Vec<char>)
    ensures
        r@ == escaped(c),
{
    let mut r: Vec<char> = Vec::new();
    if c == 'n' {
        r.push('\n');
    } else if c == 't' {
        r.push('\t');
    } else if c == 'r' {
        r.push('\r');
    } else if c == '0' {
        r.push('\0');
    } else if c == '\\' || c == '"' || c == '\'' {
        r.push(c);
    } else {
        r.push('\\');
        r.push(c);
    }
    assert(r@ =~= escaped(c));
    r
}

fn unescape_exec(s: &Vec<char>) -> (r: Vec<char>)
    ensures
        r@ == unescape_from(s@, 0),
{
    let mut out: Vec<char> = Vec::new();
    let mut i: usize = 0;
    while i < s.len()
        invariant
            i <= s@.len() + 1,
            unescape_from(s@, 0) == out@ + unescape_from(s@, i as int),
        decreases s@.len() + 1 - i,
    {
        let ghost before = out@;
        if s[i] == '\\' && i + 1 < s.len() {
            let e = escaped_exec(s[i + 1]);
            push_all(&mut out, &e);
            assert(before + (e@ + unescape_from(s@, i + 2)) =~= out@ + unescape_from(
                s@,
                i + 2,
            ));
            i = i + 2;
        } else {
            out.push(s[i]);
            assert(before + (seq![s@[i as int]] + unescape_from(s@, i + 1)) =~= out@
                + unescape_from(s@, i + 1));
            i = i + 1;
        }
    }
    assert(unescape_from(s@, i as int) =~= seq![]);
    assert(out@ + seq![] =~= out@);
    out
}

fn arg_exec(u: &Vec<char>, a: usize, b: usize) -> (r: FormatArgument)
    requires
        a <= b <= u@.len(),
    ensures
        r@ == arg_model(u@.subrange(a as int, b as int)),
{
    let inner = slice_chars(u, a, b);
    let head = match find_from(&inner, ':', 0) {
        Some(k) => {
            proof {
                lemma_first_from(inner@, ':', 0);
            }
            slice_chars(&inner, 0, k)
        },
        None => slice_chars(&inner, 0, inner.len()),
    };
    assert(inner@.subrange(0, inner@.len() as int) =~= inner@);
    if head.len() == 0 {
        FormatArgument::Placeholder
    } else {
        let text = string_of(&head);
        match parse_u32(text.as_str()) {
            Some(v) => FormatArgument::Positional(v as usize),
            None => FormatArgument::Named(text),
        }
    }
}

fn conversion_exec(lang: SourceLanguage, c: char) -> (r: bool)
    ensures
        lang == SourceLanguage::Java ==> r == java_conversion(c),
        lang == SourceLanguage::Cpp ==> r == cpp_conversion(c),
{
    match lang {
        SourceLanguage::Java => c == 's' || c == 'd' || c == 'f' || c == 'x' || c == 'c' || c
            == 'b' || c == 'e' || c == 'g' || c == 'o' || c == 'h',
        _ => c == 's' || c == 'd' || c == 'u' || c == 'x' || c == 'f' || c == 'c' || c == 'p',
    }
}

/// The piece at position `i` of `u`, and its length.
fn step_exec(lang: SourceLanguage, u: &Vec<char>, i: usize) -> (r: (Option<char>, Option<FormatArgument>, usize))
    requires
        i < u.len(),
    ensures
        r.2 == step(lang, u@, i as int).1,
        r.2 >= 1,
        i + r.2 <= u@.len(),
        step(lang, u@, i as int).0 matches Piece::Char(c) ==> r.0 == Some(c) && r.1 is None,
        step(lang, u@, i as int).0 matches Piece::Hole(a) ==> r.0 is None && r.1 is Some
            && r.1->Some_0@ == a,
{
    let c = u[i];
    let has_next = i + 1 < u.len();
    match lang {
        SourceLanguage::Rust => {
            if c == '{' && has_next && u[i + 1] == '{' {
                (Some('{'), None, 2)
            } else if c == '}' && has_next && u[i + 1] == '}' {
                (Some('}'), None, 2)
            } else if c == '{' {
                match find_from(u, '}', i + 1) {
                    Some(j) => {
                        proof {
                            lemma_first_from(u@, '}', i + 1);
                        }
                        let f = arg_exec(u, i + 1, j);
                        (None, Some(f), j + 1 - i)
                    },
                    None => (Some(c), None, 1),
                }
            } else {
                (Some(c), None, 1)
            }
        },
        _ => {
            if lang == SourceLanguage::Java && c == '{' && has_next && u[i + 1] == '}' {
                (None, Some(FormatArgument::Placeholder), 2)
            } else if c == '%' && has_next && u[i + 1] == '%' {
                (Some('%'), None, 2)
            } else if c == '%' && has_next && conversion_exec(lang, u[i + 1]) {
                (None, Some(FormatArgument::Placeholder), 2)
            } else {
                (Some(c), None, 1)
            }
        },
    }
}

proof fn lemma_render_push(ps: Seq<Piece>, p: Piece)
    ensures
        render(ps.push(p)) == render(ps) + piece_pattern(p),
        holes(ps.push(p)) == holes(ps) + match p {
            Piece::Hole(a) => seq![a],
            Piece::Char(_) => seq![],
        },
        hole_count(ps.push(p)) == hole_count(ps) + if p is Hole {
            1nat
        } else {
            0nat
        },
{
    assert(ps.push(p).drop_last() =~= ps);
}

/// The anchored pattern and the placeholders of a format literal of `lang`.
///
/// The literal is taken with its quotes; its content is read with escapes
/// processed, plain text is escaped, and each placeholder becomes a
/// non-greedy capture group.
pub fn derive_pattern(lang: SourceLanguage, literal: &str) -> (r: (String, Vec<FormatArgument>))
    ensures
        r.0@ == pattern_of(lang, literal@),
        args_view(r.1@) == args_of(lang, literal@),
        r.0@.len() >= 2,
        r.0@[0] == '^',
        r.0@.last() == '$',
{
    let t = chars_of(literal);
    let q = unquote_exec(&t);
    let u = unescape_exec(&q);
    let ghost all = pieces_from(lang, u@, 0);
    let ghost done: Seq<Piece> = seq![];
    let mut pat: Vec<char> = chars_of("^");
    let mut args: Vec<FormatArgument> = Vec::new();
    let group = chars_of("(.*?)");
    let mut i: usize = 0;
    while i < u.len()
        invariant
            u@ == unescape_from(unquote(literal@), 0),
            all == pieces_from(lang, u@, 0),
            group@ == "(.*?)"@,
            i <= u@.len(),
            all == done + pieces_from(lang, u@, i as int),
            pat@ == "^"@ + render(done),
            args_view(args@) == holes(done),
        decreases u@.len() - i,
    {
        let (ch, hole, n) = step_exec(lang, &u, i);
        let ghost p = step(lang, u@, i as int).0;
        proof {
            lemma_render_push(done, p);
            assert(all =~= done.push(p) + pieces_from(lang, u@, i + n));
            done = done.push(p);
        }
        match ch {
            Some(c) => {
                let mut one: Vec<char> = Vec::new();
                one.push(c);
                assert(one@ =~= seq![c]);
                let s = string_of(&one);
                let e = escape_text(s.as_str());
                let ec = chars_of(e.as_str());
                assert(seq![c].drop_last() =~= Seq::<char>::empty());
                assert(escape_of(Seq::<char>::empty()) == Seq::<char>::empty());
                assert(seq![c].last() == c);
                assert(escape_of(seq![c]) == escape_of(seq![c].drop_last()) + escape_char(c));
                assert(ec@ =~= escape_char(c));
                push_all(&mut pat, &ec);
                assert(pat@ =~= "^"@ + render(done));
            },
            None => {
                push_all(&mut pat, &group);
                assert(pat@ =~= "^"@ + render(done));
                match hole {
                    Some(f) => {
                        args.push(f);
                        assert(args_view(args@) =~= holes(done));
                    },
                    None => {},
                }
            },
        }
        i = i + n;
    }
    assert(done + seq![] =~= done);
    let end = chars_of("$");
    push_all(&mut pat, &end);
    proof {
        reveal_strlit("^");
        reveal_strlit("$");
    }
    (string_of(&pat), args)
}

/// The pattern of a literal is anchored: it opens with `^` and closes with `$`.
pub proof fn lemma_pattern_anchored(lang: SourceLanguage, literal: Seq<char>)
    ensures
        pattern_of(lang, literal).len() >= 2,
        pattern_of(lang, literal)[0] == '^',
        pattern_of(lang, literal).last() == '$',
{
    reveal_strlit("^");
    reveal_strlit("$");
}

/// Reading a text left to right: the `(` met so far that no backslash
/// escapes, and whether the next character is escaped.
pub open spec fn group_scan(s: Seq<char>) -> (nat, bool)
    decreases s.len(),
{
    if s.len() == 0 {
        (0, false)
    } else {
        let (n, esc) = group_scan(s.drop_last());
        let c = s.last();
        if esc {
            (n, false)
        } else if c == '\\' {
            (n, true)
        } else if c == '(' {
            (n + 1, false)
        } else {
            (n, false)
        }
    }
}

/// The capture groups of a pattern that this library derives: there every
/// `(` that no backslash escapes opens one (no `(?` construct occurs).
pub open spec fn group_count(s: Seq<char>) -> nat {
    group_scan(s).0
}

/// The capture groups that a piece adds to a pattern.
pub open spec fn hole_weight(p: Piece) -> nat {
    match p {
        Piece::Hole(_) => 1,
        Piece::Char(_) => 0,
    }
}

proof fn lemma_scan_piece(x: Seq<char>, p: Piece)
    requires
        !group_scan(x).1,
    ensures
        group_scan(x + piece_pattern(p)).0 == group_scan(x).0 + hole_weight(p),
        !group_scan(x + piece_pattern(p)).1,
{
    reveal_strlit("(.*?)");
    let n = group_scan(x).0;
    match p {
        Piece::Char(c) => {
            assert(piece_pattern(p) == escape_char(c));
            if is_meta(c) {
                let y = x + seq!['\\', c];
                assert(x + piece_pattern(p) =~= y);
                assert(y.drop_last() =~= x + seq!['\\']);
                assert((x + seq!['\\']).drop_last() =~= x);
                assert((x + seq!['\\']).last() == '\\');
                assert(group_scan(x + seq!['\\']) == (n, true));
                assert(y.last() == c);
                assert(group_scan(y) == (n, false));
            } else {
                let y = x + seq![c];
                assert(x + piece_pattern(p) =~= y);
                assert(y.drop_last() =~= x);
                assert(y.last() == c);
                assert(c != '\\' && c != '(');
                assert(group_scan(y) == (n, false));
            }

        },
        Piece::Hole(_) => {
            let h = "(.*?)"@;
            assert(h =~= seq!['(', '.', '*', '?', ')']);
            let y1 = x + seq!['('];
            let y2 = y1 + seq!['.'];
            let y3 = y2 + seq!['*'];
            let y4 = y3 + seq!['?'];
            let y5 = y4 + seq![')'];
            assert(y1.drop_last() =~= x);
            assert(y2.drop_last() =~= y1);
            assert(y3.drop_last() =~= y2);
            assert(y4.drop_last() =~= y3);
            assert(y5.drop_last() =~= y4);
            assert(y1.last() == '(' && y2.last() == '.' && y3.last() == '*' && y4.last() == '?' && y5.last() == ')');
            assert(group_scan(y1) == (n + 1, false));
            assert(group_scan(y2) == (n + 1, false));
            assert(group_scan(y3) == (n + 1, false));
            assert(group_scan(y4) == (n + 1, false));
            assert(group_scan(y5) == (n + 1, false));
            assert(x + h =~= y5);
            assert(piece_pattern(p) == h);
        },
    }
}

proof fn lemma_scan_render(x: Seq<char>, ps: Seq<Piece>)
    requires
        !group_scan(x).1,
    ensures
        group_scan(x + render(ps)) == (group_scan(x).0 + hole_count(ps), false),
    decreases ps.len(),
{
    if ps.len() == 0 {
        assert(x + render(ps) =~= x);
    } else {
        lemma_scan_render(x, ps.drop_last());
        lemma_scan_piece(x + render(ps.drop_last()), ps.last());
        assert(x + render(ps) =~= (x + render(ps.drop_last())) + piece_pattern(ps.last()));
    }
}

/// A literal's pattern holds one capture group for each of its placeholders.
pub proof fn lemma_group_count(lang: SourceLanguage, literal: Seq<char>)
    ensures
        group_count(pattern_of(lang, literal)) == args_of(lang, literal).len(),
{
    reveal_strlit("^");
    reveal_strlit("$");
    let ps = pieces_of(lang, literal);
    let e = Seq::<char>::empty();
    assert("^"@ =~= e + seq!['^']);
    assert((e + seq!['^']).drop_last() =~= e);
    assert(group_scan(e) == (0nat, false));
    assert(group_scan("^"@) == (0nat, false));
    lemma_scan_render("^"@, ps);
    let y = "^"@ + render(ps);
    assert(group_scan(y) == (hole_count(ps), false));
    assert(pattern_of(lang, literal) =~= y + seq!['$']);
    assert((y + seq!['$']).drop_last() =~= y);
    lemma_holes_count(ps);
}

/// The placeholders of a literal are as many as the capture groups that its
/// pattern renders: one for each placeholder piece, in order.
pub proof fn lemma_count_invariant(lang: SourceLanguage, literal: Seq<char>)
    ensures
        args_of(lang, literal).len() == hole_count(pieces_of(lang, literal)),
{
    lemma_holes_count(pieces_of(lang, literal));
}

proof fn lemma_holes_count(ps: Seq<Piece>)
    ensures
        holes(ps).len() == hole_count(ps),
    decreases ps.len(),
{
    if ps.len() > 0 {
        lemma_holes_count(ps.drop_last());
    }
}

} // verus!
