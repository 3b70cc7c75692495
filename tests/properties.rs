use log2src::format::derive_pattern;
use log2src::log_ref::split_lines;
use log2src::source_ref::{build_source_refs, keep_arguments, split_arguments};
use log2src::text::parse_u32;
use log2src::{
    extract_logging, extract_variables, filter_log, link_to_source, lookup_source, CodeSource,
    FormatArgument, LogError, LogFormat, LogMatcher, LogRef, QueryMatch, SourceLanguage, SourceQuery,
    SourceRef,
    VariablePair,
};

const RUST_SOURCE: &str = r#"
fn main() {
    debug!("you're only as funky as your last cut");
}

fn nope(i: u32, j: i32) {
    debug!("this won't match i={}; j={}", i, j);
}

fn namedarg(name: &str) {
    debug!("Hello, {name}!");
}
"#;

fn refs_of(path: &str, text: &str) -> Vec<SourceRef> {
    let code = CodeSource::from_string(path, text).unwrap();
    extract_logging(&[code]).pop().unwrap().log_statements
}

fn pair(e: &str, v: &str) -> VariablePair {
    VariablePair {
        expr: e.to_string(),
        value: v.to_string(),
    }
}

fn matcher_with(path: &str, text: &str) -> LogMatcher {
    let mut m = LogMatcher::new();
    m.add_root("/src").unwrap();
    let code = CodeSource::new(path, 7, text).unwrap();
    for sif in extract_logging(&[code]) {
        m.insert_statements(0, sif);
    }
    m
}

#[test]
fn rust_pattern_escapes_text_and_captures_placeholders() {
    let (pattern, args) = derive_pattern(SourceLanguage::Rust, "\"a.b {} {x} {1:?}\"");
    assert_eq!(pattern, r"^a\.b (.*?) (.*?) (.*?)$");
    assert_eq!(
        args,
        vec![
            FormatArgument::Placeholder,
            FormatArgument::Named("x".to_string()),
            FormatArgument::Positional(1)
        ]
    );
}

#[test]
fn rust_doubled_braces_are_text() {
    let (pattern, args) = derive_pattern(SourceLanguage::Rust, "\"{{x}}\"");
    assert_eq!(pattern, r"^\{x\}$");
    assert!(args.is_empty());
}

#[test]
fn meta_characters_are_escaped() {
    let (pattern, _) = derive_pattern(SourceLanguage::Cpp, "\"a+b|c-d #1 & ~x\"");
    assert_eq!(pattern, r"^a\+b\|c\-d \#1 \& \~x$");
}

#[test]
fn rust_escaped_newline_is_kept() {
    let (pattern, _) = derive_pattern(SourceLanguage::Rust, "\"a\\nb\"");
    assert_eq!(pattern, "^a\nb$");
}

#[test]
fn cpp_percent_forms() {
    let (pattern, args) = derive_pattern(SourceLanguage::Cpp, "\"100%% %d %q\"");
    assert_eq!(pattern, "^100% (.*?) %q$");
    assert_eq!(args, vec![FormatArgument::Placeholder]);
}

#[test]
fn java_braces_and_conversions() {
    let (pattern, args) = derive_pattern(SourceLanguage::Java, "\"{}: took %d ms\"");
    assert_eq!(pattern, "^(.*?): took (.*?) ms$");
    assert_eq!(args.len(), 2);
}

#[test]
fn arguments_split_at_top_level_commas() {
    let parts = split_arguments(", f(a, b), \"x,y\"");
    assert_eq!(parts, vec!["", " f(a, b)", " \"x,y\""]);
}

#[test]
fn denylisted_arguments_are_dropped_after_trim_and_lowercase() {
    let kept = keep_arguments(SourceLanguage::Java, ", LOG,  count ");
    assert_eq!(kept, vec!["count".to_string()]);
    let kept = keep_arguments(SourceLanguage::Rust, ", DEBUG, Warn, x");
    assert_eq!(kept, vec!["x".to_string()]);
}

#[test]
fn builder_pairs_arguments_with_latest_literal() {
    let lit = QueryMatch {
        kind: "string_literal".to_string(),
        text: "\"v={}\"".to_string(),
        start_row: 2,
        start_column: 4,
        end_row: 2,
        context: "run".to_string(),
    };
    let args = QueryMatch {
        kind: "args".to_string(),
        text: ", value".to_string(),
        start_row: 2,
        start_column: 4,
        end_row: 3,
        context: String::new(),
    };
    let other = QueryMatch {
        kind: "fname".to_string(),
        ..args.clone()
    };
    let refs = build_source_refs(SourceLanguage::Rust, "a.rs", &vec![args.clone(), lit, other, args]);
    assert_eq!(refs.len(), 1);
    assert_eq!(refs[0].line_no, 3);
    assert_eq!(refs[0].end_line_no, 4);
    assert_eq!(refs[0].column, 4);
    assert_eq!(refs[0].name, "run");
    assert_eq!(refs[0].vars, vec!["value".to_string()]);
    assert_eq!(refs[0].pattern, "^v=(.*?)$");
}

#[test]
fn java_logger_object_is_not_a_variable() {
    let src = "class A {\n  void run() {\n    LOG.info(\"{}: Started\", this);\n  }\n}\n";
    let refs = refs_of("A.java", src);
    assert_eq!(refs.len(), 1);
    assert_eq!(refs[0].vars, vec!["this".to_string()]);
    assert_eq!(refs[0].name, "run");
    for r in &refs {
        for v in &r.vars {
            assert_ne!(v.to_lowercase(), "log");
        }
    }
}

#[test]
fn cpp_printf_variables() {
    let src = "int main(int argc, char* argv[]) {\n    printf(\"Hello, %s!\", argv[1]);\n}\n";
    let refs = refs_of("m.cc", src);
    assert_eq!(refs.len(), 1);
    assert_eq!(refs[0].vars, vec!["argv[1]".to_string()]);
    assert_eq!(refs[0].name, "main");
    let vars = extract_variables(&LogRef::new("Hello, Steve!"), &refs[0]);
    assert_eq!(vars, vec![pair("argv[1]", "Steve")]);
}

#[test]
fn query_matches_emit_literal_then_arguments() {
    let code = CodeSource::from_string("x.rs", "fn f() {\n    info!(\"a {}\", b);\n}\n").unwrap();
    let ms = SourceQuery::new(&code).query();
    assert_eq!(ms.len(), 2);
    assert_eq!(ms[0].kind, "string_literal");
    assert_eq!(ms[0].text, "\"a {}\"");
    assert_eq!(ms[0].context, "f");
    assert_eq!(ms[1].kind, "args");
    assert_eq!(ms[1].text, ", b");
}

#[test]
fn round_trip_on_placeholder_literals() {
    let refs = refs_of("in-mem.rs", RUST_SOURCE);
    let r = &refs[1];
    let body = "this won't match i=i; j=j";
    let found = link_to_source(&LogRef::new(body), &refs).unwrap();
    assert_eq!(found.line_no, r.line_no);
    let vars = extract_variables(&LogRef::new(body), r);
    let exprs: Vec<String> = vars.iter().map(|p| p.value.clone()).collect();
    assert_eq!(exprs, r.vars);
}

#[test]
fn patterns_are_anchored() {
    let refs = refs_of("in-mem.rs", RUST_SOURCE);
    assert!(link_to_source(&LogRef::new("Hello, x y!"), &refs).is_some());
    assert!(link_to_source(&LogRef::new("> Hello, x!"), &refs).is_none());
    assert!(link_to_source(&LogRef::new("Hello, x! <"), &refs).is_none());
}

#[test]
fn captures_count_equals_placeholders() {
    let refs = refs_of("in-mem.rs", RUST_SOURCE);
    let vars = extract_variables(&LogRef::new("this won't match i=1; j=2"), &refs[1]);
    assert_eq!(vars.len(), refs[1].args.len());
    assert_eq!(vars, vec![pair("i", "1"), pair("j", "2")]);
    assert!(extract_variables(&LogRef::new("unrelated"), &refs[1]).is_empty());
}

#[test]
fn positional_placeholder_out_of_range_is_unknown() {
    let src = "fn g() {\n    debug!(\"{0} and {3}\", a);\n}\n";
    let refs = refs_of("g.rs", src);
    let vars = extract_variables(&LogRef::new("x and y"), &refs[0]);
    assert_eq!(vars, vec![pair("a", "x"), pair("<unknown>", "y")]);
}

#[test]
fn matcher_finds_statement_and_variables() {
    let m = matcher_with("/src/in-mem.rs", RUST_SOURCE);
    assert!(!m.is_empty());
    let line = LogRef::new("Hello, Tim!");
    let mapping = m.match_log_statement(&line).unwrap();
    assert_eq!(mapping.src_ref.unwrap().name, "namedarg");
    assert_eq!(mapping.variables, vec![pair("name", "Tim")]);
}

#[test]
fn matcher_reports_no_match() {
    let m = matcher_with("/src/in-mem.rs", RUST_SOURCE);
    assert!(m.match_log_statement(&LogRef::new("nope!")).is_none());
}

#[test]
fn matcher_uses_file_hint() {
    let m = matcher_with("/src/in-mem.rs", RUST_SOURCE);
    let other = LogRef::from_parsed(Some("other.rs"), None, "Hello, Tim!");
    assert!(m.match_log_statement(&other).is_none());
    let same = LogRef::from_parsed(Some("in-mem"), Some(11), "Hello, Tim!");
    assert!(m.match_log_statement(&same).is_some());
}

#[test]
fn add_root_rejects_nested_paths() {
    let mut m = LogMatcher::new();
    assert!(m.is_empty());
    assert!(m.add_root("/a").is_ok());
    match m.add_root("/a/b") {
        Err(LogError::PathExists { path, root }) => {
            assert_eq!(path, "/a/b");
            assert_eq!(root, "/a");
        }
        _ => panic!("expected PathExists"),
    }
    assert!(m.add_root("/ab").is_ok());
    assert_eq!(m.root_paths(), vec!["/a".to_string(), "/ab".to_string()]);
}

#[test]
fn add_root_accepts_enclosing_paths() {
    let mut m = LogMatcher::new();
    assert!(m.add_root("/x/y/z").is_ok());
    assert!(m.add_root("/x/y").is_ok());
    assert_eq!(m.root_paths(), vec!["/x/y/z".to_string(), "/x/y".to_string()]);
}

#[test]
fn add_root_ignores_trailing_separators() {
    let mut m = LogMatcher::new();
    assert!(m.add_root("/a/").is_ok());
    match m.add_root("/a") {
        Err(LogError::PathExists { path, root }) => {
            assert_eq!(path, "/a");
            assert_eq!(root, "/a/");
        }
        _ => panic!("expected PathExists"),
    }
    assert!(m.add_root("/a/b/.").is_err());
}

#[test]
fn extracted_statements_agree_with_their_file() {
    let code = CodeSource::new("/src/in-mem.rs", 3, RUST_SOURCE).unwrap();
    let files = extract_logging(&[code]);
    assert_eq!(files.len(), 1);
    assert!(files[0].is_consistent());
    assert_eq!(files[0].id, 3);
    assert!(files[0].log_statements.iter().all(|s| s.source_path == "/src/in-mem.rs"));
}

#[test]
fn sources_without_call_sites_yield_nothing() {
    let a = CodeSource::from_string("a.rs", "fn f() {}\n").unwrap();
    let b = CodeSource::new("b.rs", 9, RUST_SOURCE).unwrap();
    let files = extract_logging(&[a, b]);
    assert_eq!(files.len(), 1);
    assert_eq!(files[0].id, 9);
    assert_eq!(files[0].log_statements.len(), 3);
}

#[test]
fn reinserting_and_removing_files() {
    let mut m = matcher_with("/src/in-mem.rs", RUST_SOURCE);
    let code = CodeSource::new("/src/in-mem.rs", 7, RUST_SOURCE).unwrap();
    for sif in extract_logging(&[code]) {
        m.insert_statements(0, sif);
    }
    let s = m.find_source_file_statements("/src/in-mem.rs").unwrap();
    assert_eq!(s.log_statements.len(), 3);
    m.remove_file(0, 7);
    assert!(m.is_empty());
    assert!(m.find_source_file_statements("/src/in-mem.rs").is_none());
}

#[test]
fn unsupported_file_type() {
    match CodeSource::from_string("notes.txt", "") {
        Err(LogError::UnsupportedFileType { name }) => assert_eq!(name, "notes.txt"),
        _ => panic!("expected UnsupportedFileType"),
    }
}

#[test]
fn languages_from_paths() {
    assert_eq!(SourceLanguage::from_path("src/a.rs"), Some(SourceLanguage::Rust));
    assert_eq!(SourceLanguage::from_path("A.java"), Some(SourceLanguage::Java));
    assert_eq!(SourceLanguage::from_path("x/y.hpp"), Some(SourceLanguage::Cpp));
    assert_eq!(SourceLanguage::from_path("dir.rs/readme"), None);
    assert_eq!(SourceLanguage::from_path(".rs"), None);
    assert_eq!(SourceLanguage::from_path("x.rs/"), Some(SourceLanguage::Rust));
    assert_eq!(SourceLanguage::from_path("d/A.java/."), Some(SourceLanguage::Java));
    assert_eq!(SourceLanguage::Cpp.as_str(), "C++");
}

#[test]
fn pre_parser_with_python_style_groups() {
    let f = LogFormat::new(
        r"^(?P<timestamp>\d{4}-\d{2}-\d{2} \d{2}:\d{2}:\d{2}) (?P<level>\w+)\s+ (?P<file>[\w$.]+):(?P<line>\d+) - (?P<body>.*)$"
            .to_string(),
    );
    let r = LogRef::with_format(
        "2025-04-10 22:12:52 INFO  JvmPauseMonitor:146 - JvmPauseMonitor-n0: Started",
        f,
    );
    let d = r.details.unwrap();
    assert_eq!(d.file, Some("JvmPauseMonitor"));
    assert_eq!(d.lineno, Some(146));
    assert_eq!(r.body(), "JvmPauseMonitor-n0: Started");
}

#[test]
fn lookup_by_file_and_line() {
    let refs = refs_of("in-mem.rs", RUST_SOURCE);
    let f = LogFormat::new(r"^(?<file>\S+):(?<line>\d+) (?<rest>.*)$".to_string());
    let hit = lookup_source(&LogRef::new("in-mem:7 whatever"), &f, &refs).unwrap();
    assert_eq!(hit.name, "nope");
    assert!(lookup_source(&LogRef::new("in-mem:8 whatever"), &f, &refs).is_none());
}

#[test]
fn lines_and_ranges() {
    let lines = split_lines("a\r\nb\n\nc\n");
    assert_eq!(lines, vec!["a", "b", "", "c"]);
    let refs = filter_log("a\nb\nc", 2, 10, None);
    assert_eq!(refs, vec![LogRef::new("c")]);
    assert!(filter_log("a\nb", 1, 1, None).is_empty());
}

#[test]
fn parse_numbers() {
    assert_eq!(parse_u32("146"), Some(146));
    assert_eq!(parse_u32("+7"), Some(7));
    assert_eq!(parse_u32("4294967296"), None);
    assert_eq!(parse_u32("1a"), None);
    assert_eq!(parse_u32(""), None);
}
