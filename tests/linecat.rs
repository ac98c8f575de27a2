use git_linecat::change::{assemble, extension, Category, Change};
use git_linecat::line::{Header, PathStat};
use git_linecat::machine::{run, Collect, RunError};

const H1: &str = r#""61708727af02089cef4a72c6a532ddf332111b14","luna@moon.com","2019-08-08 18:03:38 -0400""#;
const H2: &str = r#""0123456789abcdef0123456789abcdef01234567","sol@sun.com","2019-08-09 09:00:00 +0000""#;

fn lines(ls: &[&str]) -> Vec<String> {
    ls.iter().map(|l| l.to_string()).collect()
}

fn collect(ls: &[&str]) -> (Result<(), RunError>, Vec<Change>) {
    let mut sink = Collect::new();
    let r = run("test".to_string(), &lines(ls), &mut sink);
    (r, sink.changes)
}

#[test]
fn header_line_parses() {
    let h = Header::parse(H1);
    assert!(h.is_ok());
}

#[test]
fn path_line_parses() {
    let p = PathStat::parse("6       3       foo/bar/baz.rs");
    assert!(p.is_ok());
}

#[test]
fn paths_with_test_are_categorized() {
    assert_eq!(Change::categorize("foo/test/bar.txt"), Category::Test)
}

#[test]
fn paths_without_test_are_categorized() {
    assert_eq!(Change::categorize("foo/bar/baz.txt"), Category::Default)
}

#[test]
fn header_fields_are_kept_exactly() {
    let h = Header::parse(H1).ok().unwrap();
    assert_eq!(h.sha, "61708727af02089cef4a72c6a532ddf332111b14");
    assert_eq!(h.author, "luna@moon.com");
    assert_eq!(h.timestamp, "2019-08-08 18:03:38 -0400");
}

#[test]
fn header_round_trips_written_fields() {
    let line = format!("\"{}\",\"{}\",\"{}\"", "abc", "a.b@c.d", "x y \"z\"");
    let h = Header::parse(&line).ok().unwrap();
    assert_eq!(h.sha, "abc");
    assert_eq!(h.author, "a.b@c.d");
    assert_eq!(h.timestamp, "x y \"z\"");
}

#[test]
fn header_after_leading_text() {
    let line = format!("\u{feff}{}", H1);
    let h = Header::parse(&line).ok().unwrap();
    assert_eq!(h.sha, "61708727af02089cef4a72c6a532ddf332111b14");
    let h = Header::parse(r#"x "y "a","b","c d" tail"#).ok().unwrap();
    assert_eq!((h.sha.as_str(), h.author.as_str(), h.timestamp.as_str()), ("a", "b", "c d"));
}

#[test]
fn header_takes_the_longest_sha_then_author() {
    let h = Header::parse(r#""a"b","c","d""#).ok().unwrap();
    assert_eq!((h.sha.as_str(), h.author.as_str(), h.timestamp.as_str()), ("a\"b", "c", "d"));
    let h = Header::parse(r#""a","b","c","d""#).ok().unwrap();
    assert_eq!((h.sha.as_str(), h.author.as_str(), h.timestamp.as_str()), ("a\",\"b", "c", "d"));
    let h = Header::parse("\"a\",\"b\",\"c\" x\"\ny\"").ok().unwrap();
    assert_eq!(h.timestamp, "c\" x");
}

#[test]
fn header_rejects_other_lines() {
    for l in [
        "",
        "6\t3\tfoo.rs",
        r#""a b","c","d""#,
        r#""","c","d""#,
        r#""a","c","""#,
        r#""a","c""#,
        r#""a";"c";"d""#,
    ] {
        let e = Header::parse(l).err().unwrap();
        assert_eq!(e.line, l);
    }
}

#[test]
fn stat_line_values() {
    let p = PathStat::parse("6\t3\tfoo/bar/baz.rs").ok().unwrap();
    assert_eq!(p.additions, 6);
    assert_eq!(p.deletions, 3);
    assert_eq!(p.path, "foo/bar/baz.rs");
    let p = PathStat::parse("0120 18446744073709551615  my file.txt").ok().unwrap();
    assert_eq!(p.additions, 120);
    assert_eq!(p.deletions, 18446744073709551615);
    assert_eq!(p.path, "my");
}

#[test]
fn stat_line_leftmost_match() {
    let p = PathStat::parse("x 7 8 y 1 2 z").ok().unwrap();
    assert_eq!((p.additions, p.deletions), (7, 8));
    assert_eq!(p.path, "y");
}

#[test]
fn binary_line_is_not_a_stat_line() {
    let e = PathStat::parse("-\t-\tsome/binary.png").err().unwrap();
    assert_eq!(e.line, "-\t-\tsome/binary.png");
}

#[test]
fn stat_line_rejects_overflow_and_missing_parts() {
    assert!(PathStat::parse("18446744073709551616 1 a").is_err());
    assert!(PathStat::parse("1 2").is_err());
    assert!(PathStat::parse("1 2 ").is_err());
    assert!(PathStat::parse("1,2 a").is_err());
    assert!(PathStat::parse(H1).is_err());
}

#[test]
fn categorize_adversarial_paths() {
    assert_eq!(Change::categorize("contest/foo.rs"), Category::Test);
    assert_eq!(Change::categorize("/attestation"), Category::Test);
    assert_eq!(Change::categorize("test"), Category::Test);
    assert_eq!(Change::categorize("Test/Foo.rs"), Category::Default);
    assert_eq!(Change::categorize("tes"), Category::Default);
    assert_eq!(Change::categorize(""), Category::Default);
}

#[test]
fn extension_cases() {
    assert_eq!(extension("a/b/c.rs"), Some("rs".to_string()));
    assert_eq!(extension("a/b/.gitignore"), None);
    assert_eq!(extension("a/b/noext"), None);
    assert_eq!(extension("a.d/noext"), None);
    assert_eq!(extension("x.tar.gz"), Some("gz".to_string()));
    assert_eq!(extension("a/.b.c"), Some("c".to_string()));
    assert_eq!(extension("a/b."), Some(String::new()));
}

#[test]
fn assemble_copies_and_derives() {
    let h = Header::parse(H1).ok().unwrap();
    let p = PathStat::parse("1 2 src/test/util.py").ok().unwrap();
    let c = assemble("repo".to_string(), h, p);
    assert_eq!(c.repo, "repo");
    assert_eq!(c.sha, "61708727af02089cef4a72c6a532ddf332111b14");
    assert_eq!(c.path, "src/test/util.py");
    assert_eq!(c.ext, Some("py".to_string()));
    assert_eq!(c.category, Category::Test);
    assert_eq!((c.additions, c.deletions), (1, 2));
}

#[test]
fn single_path_commit_emits_one_change() {
    let (r, out) = collect(&[H1, "6\t3\tfoo/bar/baz.rs", ""]);
    assert!(r.is_ok());
    assert_eq!(out.len(), 1);
    let c = &out[0];
    assert_eq!(c.repo, "test");
    assert_eq!(c.sha, "61708727af02089cef4a72c6a532ddf332111b14");
    assert_eq!(c.author, "luna@moon.com");
    assert_eq!(c.timestamp, "2019-08-08 18:03:38 -0400");
    assert_eq!(c.path, "foo/bar/baz.rs");
    assert_eq!(c.ext, Some("rs".to_string()));
    assert_eq!(c.category, Category::Default);
    assert_eq!((c.additions, c.deletions), (6, 3));
}

#[test]
fn second_path_line_only_decides_the_transition() {
    let (r, out) = collect(&[H1, "6\t3\tfoo/bar/baz.rs", "1\t1\tsrc/test/x.rs", ""]);
    assert!(r.is_ok());
    assert_eq!(out.len(), 1);
    assert_eq!(out[0].path, "foo/bar/baz.rs");
}

#[test]
fn empty_commit_emits_nothing_and_resets() {
    let (r, out) = collect(&[H1, ""]);
    assert!(r.is_ok());
    assert_eq!(out.len(), 0);
    let (r, out) = collect(&[H1, "", H2, "2\t0\ta.txt", ""]);
    assert!(r.is_ok());
    assert_eq!(out.len(), 1);
    assert_eq!(out[0].sha, "0123456789abcdef0123456789abcdef01234567");
    assert_eq!(out[0].ext, Some("txt".to_string()));
}

#[test]
fn binary_line_is_skipped() {
    let (r, out) = collect(&[H1, "-\t-\tsome/binary.png", "6\t3\tfoo/bar/baz.rs", ""]);
    assert!(r.is_ok());
    assert_eq!(out.len(), 1);
    assert_eq!(out[0].path, "foo/bar/baz.rs");
}

#[test]
fn header_after_header_is_the_next_commit() {
    let (r, out) = collect(&[H1, H2, "4\t5\tdocs/readme.md", ""]);
    assert!(r.is_ok());
    assert_eq!(out.len(), 1);
    assert_eq!(out[0].author, "sol@sun.com");
    assert_eq!((out[0].additions, out[0].deletions), (4, 5));
}

#[test]
fn pending_record_at_end_is_not_emitted() {
    let (r, out) = collect(&[H1, "6\t3\tfoo/bar/baz.rs"]);
    assert!(r.is_ok());
    assert_eq!(out.len(), 0);
}

#[test]
fn non_empty_line_after_record_keeps_the_header() {
    let (r, out) = collect(&[H1, "1\t1\ta.rs", "x", "2\t2\tb.rs", ""]);
    assert!(r.is_ok());
    assert_eq!(out.len(), 2);
    assert_eq!(out[1].path, "b.rs");
    assert_eq!(out[1].sha, out[0].sha);
}

#[test]
fn bad_header_stops_the_run() {
    let (r, out) = collect(&["not a header", H1]);
    assert_eq!(out.len(), 0);
    match r {
        Err(RunError::HeaderParse { line, failure }) => {
            assert_eq!(line, 0);
            assert_eq!(failure.line, "not a header");
        }
        _ => panic!("expected a header failure"),
    }
}

#[test]
fn bad_path_line_stops_the_run() {
    let (r, out) = collect(&[H1, "1\t1\ta.rs", "", H2, "garbage", "3\t3\tb.rs", ""]);
    assert_eq!(out.len(), 1);
    match r {
        Err(RunError::PathParse { line, failure }) => {
            assert_eq!(line, 4);
            assert_eq!(failure.line, "garbage");
        }
        _ => panic!("expected a path failure"),
    }
}

#[test]
fn sink_failure_halts_the_run() {
    let ls = lines(&[H1, "1\t1\ta.rs", "", H1, "2\t2\tb.rs", "", H1, "3\t3\tc.rs", ""]);
    let mut sink = Collect::with_capacity(1);
    let r = run("test".to_string(), &ls, &mut sink);
    assert_eq!(sink.changes.len(), 1);
    assert_eq!(sink.changes[0].path, "a.rs");
    match r {
        Err(RunError::Sink { line, record, cause }) => {
            assert_eq!(line, 5);
            assert_eq!(record, 1);
            assert_eq!(cause.message, "the sink is full");
        }
        _ => panic!("expected a sink failure"),
    }
}

#[test]
fn parses_lines() {
    let log = [
        H1,
        "6\t3\tfoo/bar/baz.rs",
        "",
        H2,
        "",
        "\"aaaa\",\"x@y.z\",\"2019-08-10 10:00:00 +0200\"",
        "-\t-\tlogo.png",
    ];
    let mut counter = Collect::new();
    let r = run("test".to_string(), &lines(&log), &mut counter);
    assert!(r.is_ok());
    assert_eq!(1, counter.changes.len());
}
