//! Tests of the stat-definition parser and the value extractors.

use cgmem::file_proc::{
    get_file_processor, CountProcessor, FileProcessor, FileProcessorError, KeyedProcessor,
    SingleValueProcessor,
};
use cgmem::fsdata::{FsDir, FsFile};
use cgmem::text::{parse_usize, split_sep, split_ws, str_cmp, usize_to_string};

fn dir_with(files: Vec<FsFile>) -> FsDir {
    FsDir { name: String::from("d"), files, subdirs: Vec::new(), error: None }
}

fn file(name: &str, lines: &[&str]) -> FsFile {
    FsFile {
        name: String::from(name),
        content: Ok(lines.iter().map(|l| String::from(*l)).collect()),
    }
}

#[test]
fn parse_single_value_definition() {
    match get_file_processor("memory.current") {
        Some(FileProcessor::Single(p)) => {
            assert_eq!(p.file.as_deref(), Some("memory.current"));
        }
        _ => panic!("expected a single-value processor"),
    }
}

#[test]
fn parse_keyed_definition() {
    match get_file_processor("memory.stat/=/1/anon/2") {
        Some(FileProcessor::Keyed(p)) => {
            assert_eq!(p.file.as_deref(), Some("memory.stat"));
            assert_eq!(p.match_col, 1);
            assert_eq!(p.match_val, "anon");
            assert_eq!(p.ret_col, 2);
        }
        _ => panic!("expected a keyed processor"),
    }
}

#[test]
fn parse_count_definition() {
    match get_file_processor("cgroup.procs/#") {
        Some(FileProcessor::Count(p)) => {
            assert_eq!(p.file.as_deref(), Some("cgroup.procs"));
        }
        _ => panic!("expected a count processor"),
    }
}

#[test]
fn parse_rejects_malformed_definitions() {
    assert!(get_file_processor("").is_none());
    assert!(get_file_processor("/x").is_none());
    assert!(get_file_processor("f/=/0/v/2").is_none());
    assert!(get_file_processor("f/=/1/v/0").is_none());
    assert!(get_file_processor("f/=/1//2").is_none());
    assert!(get_file_processor("f/=/1/v").is_none());
    assert!(get_file_processor("f/=/x/v/2").is_none());
    assert!(get_file_processor("f/#/extra").is_none());
    assert!(get_file_processor("f/?").is_none());
}

#[test]
fn single_value_reads_first_line() {
    let d = dir_with(vec![file("memory.current", &["300", "ignored"])]);
    let mut p = SingleValueProcessor::new();
    p.set_file("memory.current");
    assert_eq!(p.get_value(&d).unwrap(), "300");
}

#[test]
fn single_value_empty_file_is_value_not_found() {
    let d = dir_with(vec![file("memory.current", &[])]);
    let mut p = SingleValueProcessor::new();
    p.set_file("memory.current");
    match p.get_value(&d) {
        Err(FileProcessorError::ValueNotFound) => {}
        _ => panic!("expected ValueNotFound"),
    }
}

#[test]
fn missing_file_is_io_error() {
    let d = dir_with(vec![]);
    let mut p = SingleValueProcessor::new();
    p.set_file("absent");
    match p.get_value(&d) {
        Err(FileProcessorError::IoError(m)) => assert_eq!(m, "No such file"),
        _ => panic!("expected IoError"),
    }
}

#[test]
fn unreadable_file_carries_its_message() {
    let d = dir_with(vec![FsFile {
        name: String::from("memory.current"),
        content: Err(String::from("Permission denied (os error 13)")),
    }]);
    let mut p = SingleValueProcessor::new();
    p.set_file("memory.current");
    match p.get_value(&d) {
        Err(FileProcessorError::IoError(m)) => assert_eq!(m, "Permission denied (os error 13)"),
        _ => panic!("expected IoError"),
    }
}

#[test]
fn keyed_extraction_is_idempotent_and_order_sensitive() {
    let d = dir_with(vec![file("memory.stat", &["anon 100", "file 200"])]);
    let mut p = KeyedProcessor::new(1, "file", 2);
    p.set_file("memory.stat");
    assert_eq!(p.get_value(&d).unwrap(), "200");
    // reusing the extractor yields the same value
    assert_eq!(p.get_value(&d).unwrap(), "200");

    let mut q = KeyedProcessor::new(1, "anon", 2);
    q.set_file("memory.stat");
    assert_eq!(q.get_value(&d).unwrap(), "100");
}

#[test]
fn keyed_extraction_skips_short_lines_and_misses() {
    // the empty line has no column 2 to match and is skipped; the second
    // line matches
    let d = dir_with(vec![file("memory.stat", &["", "x anon 7"])]);
    let mut p = KeyedProcessor::new(2, "anon", 3);
    p.set_file("memory.stat");
    assert_eq!(p.get_value(&d).unwrap(), "7");

    let mut q = KeyedProcessor::new(1, "slab", 2);
    q.set_file("memory.stat");
    match q.get_value(&d) {
        Err(FileProcessorError::ValueNotFound) => {}
        _ => panic!("expected ValueNotFound"),
    }
}

#[test]
fn keyed_extraction_considers_a_match_in_the_last_column() {
    // the first line's match column is its last column: it matches, and
    // the missing result column fails the extraction there and then
    let d = dir_with(vec![file("memory.stat", &["anon", "anon 7"])]);
    let mut p = KeyedProcessor::new(1, "anon", 2);
    p.set_file("memory.stat");
    match p.get_value(&d) {
        Err(FileProcessorError::ValueNotFound) => {}
        _ => panic!("expected ValueNotFound"),
    }
}

#[test]
fn keyed_extraction_takes_the_first_matching_line() {
    // both lines match in column 2; the first one wins even though its
    // match column is its last
    let d = dir_with(vec![file("memory.stat", &["x a", "y a z"])]);
    let mut p = KeyedProcessor::new(2, "a", 1);
    p.set_file("memory.stat");
    assert_eq!(p.get_value(&d).unwrap(), "x");
}

#[test]
fn keyed_extraction_missing_result_column() {
    let d = dir_with(vec![file("memory.stat", &["anon 100"])]);
    let mut p = KeyedProcessor::new(1, "anon", 3);
    p.set_file("memory.stat");
    match p.get_value(&d) {
        Err(FileProcessorError::ValueNotFound) => {}
        _ => panic!("expected ValueNotFound"),
    }
}

#[test]
fn count_processor_counts_lines() {
    let d = dir_with(vec![file("cgroup.procs", &["12", "34", "56"])]);
    let mut p = CountProcessor::new();
    p.set_file("cgroup.procs");
    assert_eq!(p.get_value(&d).unwrap(), "3");
    let fp = FileProcessor::Count(p);
    assert_eq!(fp.get_stat(&d).unwrap(), 3);
}

#[test]
fn get_stat_parses_and_reports_bad_numbers() {
    let d = dir_with(vec![file("memory.current", &["300"]), file("bad", &["threehundred"])]);
    let mut p = SingleValueProcessor::new();
    p.set_file("memory.current");
    let fp = FileProcessor::Single(p);
    assert_eq!(fp.get_stat(&d).unwrap(), 300);

    let mut q = SingleValueProcessor::new();
    q.set_file("bad");
    let fq = FileProcessor::Single(q);
    match fq.get_stat(&d) {
        Err(FileProcessorError::ParseError(v)) => {
            assert_eq!(v, "threehundred");
            assert_eq!(FileProcessorError::ParseError(v).message(), "Invalid number");
        }
        _ => panic!("expected ParseError"),
    }
}

#[test]
fn error_messages() {
    assert_eq!(FileProcessorError::ValueNotFound.message(), "No value found");
    assert_eq!(FileProcessorError::IoError(String::from("boom")).message(), "boom");
}

#[test]
fn parse_usize_accepts_digits_only() {
    assert_eq!(parse_usize("0"), Some(0));
    assert_eq!(parse_usize("42"), Some(42));
    assert_eq!(parse_usize("007"), Some(7));
    assert_eq!(parse_usize(""), None);
    assert_eq!(parse_usize("4x2"), None);
    assert_eq!(parse_usize("-3"), None);
    assert_eq!(parse_usize("999999999999999999999999999999"), None);
}

#[test]
fn usize_to_string_writes_decimal() {
    assert_eq!(usize_to_string(0), "0");
    assert_eq!(usize_to_string(7), "7");
    assert_eq!(usize_to_string(1024), "1024");
}

#[test]
fn split_sep_keeps_empty_pieces() {
    let parts = split_sep("a/=/1//2", '/');
    assert_eq!(parts, vec!["a", "=", "1", "", "2"]);
    assert_eq!(split_sep("abc", '/'), vec!["abc"]);
}

#[test]
fn split_ws_finds_columns() {
    assert_eq!(split_ws("  anon\t 100 "), vec!["anon", "100"]);
    assert_eq!(split_ws(""), Vec::<String>::new());
}

#[test]
fn str_cmp_orders_lexicographically() {
    assert_eq!(str_cmp("abc", "abd"), -1);
    assert_eq!(str_cmp("abc", "abc"), 0);
    assert_eq!(str_cmp("b", "abc"), 1);
    assert_eq!(str_cmp("ab", "abc"), -1);
}
