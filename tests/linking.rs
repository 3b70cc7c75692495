use log2src::{
    extract_logging, extract_variables, filter_log, link_to_source, CodeSource, LogDetails,
    LogFormat, LogRef, SourceRef, VariablePair,
};
use std::ptr;

#[test]
fn test_filter_log_defaults() {
    let buffer = String::from("hello\nwarning\nerror\nboom");
    let result = filter_log(&buffer, 0, usize::MAX, None);
    assert_eq!(
        result,
        vec![
            LogRef::new("hello"),
            LogRef::new("warning"),
            LogRef::new("error"),
            LogRef::new("boom"),
        ]
    );
}

#[test]
fn test_filter_log_with_filter() {
    let buffer = String::from("hello\nwarning\nerror\nboom");
    let result = filter_log(&buffer, 1, 2, None);
    assert_eq!(result, vec![LogRef::new("warning")]);
}

#[test]
fn test_filter_log_with_format() {
    let buffer = String::from(
        "2025-04-10 22:12:52 INFO  JvmPauseMonitor:146 - JvmPauseMonitor-n0: Started",
    );
    let regex = String::from(
        r"^(?<timestamp>\d{4}-\d{2}-\d{2} \d{2}:\d{2}:\d{2}) (?<level>\w+)\s+ (?<file>[\w$.]+):(?<line>\d+) - (?<body>.*)$",
    );
    let log_format = Some(regex);
    let result = filter_log(&buffer, 0, usize::MAX, log_format);
    let details = Some(LogDetails {
        file: Some("JvmPauseMonitor"),
        lineno: Some(146),
        body: Some("JvmPauseMonitor-n0: Started"),
    });
    assert_eq!(
        result,
        vec![LogRef {
            line: "2025-04-10 22:12:52 INFO  JvmPauseMonitor:146 - JvmPauseMonitor-n0: Started",
            details
        }]
    );
}

const TEST_SOURCE: &str = r#"
#[macro_use]
extern crate log;

fn main() {
    env_logger::init();
    debug!("you're only as funky as your last cut");
    for i in 0..3 {
        foo(i);
    }
}

fn foo(i: u32) {
    nope(i);
}

fn nope(i: u32, j: i32) {
    debug!("this won't match i={}; j={}", i, j);
}

fn namedarg(name: &str) {
    debug!("Hello, {name}!");
}
    "#;

fn refs_of(path: &str, text: &str) -> Vec<SourceRef> {
    let code = CodeSource::from_string(path, text).unwrap();
    extract_logging(&[code]).pop().unwrap().log_statements
}

#[test]
fn test_extract_logging() {
    let src_refs = refs_of("in-mem.rs", TEST_SOURCE);
    assert_eq!(src_refs.len(), 3);
    let first = &src_refs[0];
    assert_eq!(first.line_no, 7);
    assert_eq!(first.column, 11);
    assert_eq!(first.name, "main");
    assert_eq!(first.text, "\"you're only as funky as your last cut\"");
    assert!(first.vars.is_empty());

    let second = &src_refs[1];
    assert_eq!(second.line_no, 18);
    assert_eq!(second.column, 11);
    assert_eq!(second.name, "nope");
    assert_eq!(second.text, "\"this won't match i={}; j={}\"");
    assert_eq!(second.vars[0], "i");
}

#[test]
fn test_link_to_source() {
    let lf = LogFormat::new(
        r#"^\[\d{4}-\d{2}-\d{2}T\d{2}:\d{2}:\d{2}Z \w+ \w+\]\s+(?<body>.*)"#.to_string(),
    );
    let log_ref = LogRef::with_format(
        "[2024-05-09T19:58:53Z DEBUG main] you're only as funky as your last cut",
        lf,
    );
    let src_refs = refs_of("in-mem.rs", TEST_SOURCE);
    assert_eq!(src_refs.len(), 3);
    let result = link_to_source(&log_ref, &src_refs);
    assert!(ptr::eq(result.unwrap(), &src_refs[0]));
}

const MULTILINE_SOURCE: &str = r#"
#[macro_use]
extern crate log;

fn main() {
    env_logger::init();
    let adjective = "funky";
    debug!("you're only as {}\n as your last cut", adjective);
}
"#;

#[test]
fn test_link_multiline() {
    let lf = LogFormat::new(
        r#"^\[\d{4}-\d{2}-\d{2}T\d{2}:\d{2}:\d{2}Z \w+ \w+\]\s+(?<body>.*)"#.to_string(),
    );
    let log_ref = LogRef::with_format(
        "[2024-05-09T19:58:53Z DEBUG main] you're only as funky\n as your last cut",
        lf,
    );
    let src_refs = refs_of("in-mem.rs", MULTILINE_SOURCE);
    assert_eq!(src_refs.len(), 1);
    let result = link_to_source(&log_ref, &src_refs);
    assert!(ptr::eq(result.unwrap(), &src_refs[0]));
    let vars = extract_variables(&log_ref, &src_refs[0]);
    assert_eq!(
        vars,
        [VariablePair {
            expr: "adjective".to_string(),
            value: "funky".to_string()
        }]
    );
}

#[test]
fn test_link_to_source_no_matches() {
    let log_ref = LogRef::new("nope!");
    let src_refs = refs_of("in-mem.rs", TEST_SOURCE);
    assert_eq!(src_refs.len(), 3);
    let result = link_to_source(&log_ref, &src_refs);
    assert!(result.is_none());
}

#[test]
fn test_extract_variables() {
    let log_ref = LogRef::new("this won't match i=1; j=2");
    let src_refs = refs_of("in-mem.rs", TEST_SOURCE);
    assert_eq!(src_refs.len(), 3);
    let vars = extract_variables(&log_ref, &src_refs[1]);
    assert_eq!(
        vars,
        vec![
            VariablePair {
                expr: "i".to_string(),
                value: "1".to_string()
            },
            VariablePair {
                expr: "j".to_string(),
                value: "2".to_string()
            }
        ]
    );
}

#[test]
fn test_extract_named() {
    let log_ref = LogRef::new("Hello, Tim!");
    let src_refs = refs_of("in-mem.rs", TEST_SOURCE);
    assert_eq!(src_refs.len(), 3);
    let vars = extract_variables(&log_ref, &src_refs[2]);
    assert_eq!(
        vars,
        vec![VariablePair {
            expr: "name".to_string(),
            value: "Tim".to_string()
        },]
    );
}

const TEST_PUNC_SRC: &str = r#"""
  private void run() {
    LOG.info("{}: Started", this);
    try {
      for (; Thread.currentThread().equals(threadRef.get()); ) {
        detectPause();
      }
    } finally {
      LOG.info("{}: Stopped", this);
    }
  }
"""#;

#[test]
fn test_extract_var_punctuation() {
    let regex = String::from(
        r"^(?<timestamp>\d{4}-\d{2}-\d{2} \d{2}:\d{2}:\d{2}) (?<level>\w+)\s+ (?<file>[\w$.]+):(?<line>\d+) - (?<body>.*)$",
    );
    let log_format = LogFormat::new(regex);
    let log_ref = LogRef::with_format(
        "2025-04-10 22:12:52 INFO  JvmPauseMonitor:146 - JvmPauseMonitor-n0: Started",
        log_format,
    );
    let src_refs = refs_of("in-mem.java", TEST_PUNC_SRC);
    assert_eq!(src_refs.len(), 2);
    let vars = extract_variables(&log_ref, &src_refs[0]);
    assert_eq!(
        vars,
        vec![VariablePair {
            expr: "this".to_string(),
            value: "JvmPauseMonitor-n0".to_string()
        },]
    );
}

const CPP_SOURCE: &str = r#"
    #include <stdio.h>

    int main(int argc, char* argv[]) {
        printf("Hello, %s!", argv[1]);
    }
    "#;

#[test]
fn test_basic_cpp() {
    let log_ref = LogRef::new("Hello, Steve!");
    let src_refs = refs_of("in-mem.cc", CPP_SOURCE);
    assert_eq!(src_refs.len(), 1);
    let vars = extract_variables(&log_ref, &src_refs[0]);
    assert_eq!(
        vars,
        vec![VariablePair {
            expr: "argv[1]".to_string(),
            value: "Steve".to_string()
        },]
    );
}
