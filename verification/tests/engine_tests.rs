use std::io::Write;

use cljscan::archive::extract_members;
use cljscan::parse::{evaluate_file, FatalError, Outcome};
use cljscan::run::{process_archive, process_file, run_units, ScanUnit};
use cljscan::stats::{Origin, RunStats};

fn b(s: &str) -> Vec<u8> {
    s.as_bytes().to_vec()
}

const VALID: &str = "(defn double-it [x] (* x 2))\n";
const INVALID: &str = "(defn broken [x\n";

/// Builds an in-memory zip archive from (member name, member bytes) pairs.
fn make_zip(members: &[(&str, &[u8])]) -> Vec<u8> {
    let cursor = std::io::Cursor::new(Vec::new());
    let mut w = zip::ZipWriter::new(cursor);
    let options = zip::write::SimpleFileOptions::default()
        .compression_method(zip::CompressionMethod::Stored);
    for (name, bytes) in members {
        w.start_file::<&str, ()>(name, options).expect("start member");
        w.write_all(bytes).expect("write member");
    }
    w.finish().expect("finish archive").into_inner()
}

#[test]
fn valid_text_parses_clean() {
    assert_eq!(evaluate_file(&b(VALID)), Ok(Outcome::Clean));
}

#[test]
fn unmatched_delimiter_is_syntax_error() {
    assert_eq!(evaluate_file(&b(INVALID)), Ok(Outcome::SyntaxError));
    assert_eq!(evaluate_file(&b("(]")), Ok(Outcome::SyntaxError));
}

#[test]
fn non_utf8_is_unreadable() {
    assert_eq!(evaluate_file(&vec![0xff, 0xfe, 0x28]), Ok(Outcome::Unreadable));
}

#[test]
fn unreadable_file_reported_not_counted() {
    let mut stats = RunStats::new();
    process_file(&mut stats, b("junk.clj"), &vec![0xc3, 0x28]).expect("recoverable");
    assert_eq!(stats.processed, 0);
    assert!(stats.failures.is_empty());
    assert_eq!(stats.unreadable, vec![Origin::File { path: b("junk.clj") }]);
}

#[test]
fn scenario_directory_with_one_bad_file() {
    // One directory holding a valid file and a file with an unmatched
    // opening delimiter: exactly the bad file is reported, two processed.
    let mut stats = RunStats::new();
    let units = vec![
        ScanUnit::SourceFile { path: b("d/ok.clj"), bytes: b(VALID) },
        ScanUnit::SourceFile { path: b("d/bad.clj"), bytes: b(INVALID) },
    ];
    run_units(&mut stats, units).expect("run completes");
    assert_eq!(stats.processed, 2);
    assert_eq!(stats.failures, vec![Origin::File { path: b("d/bad.clj") }]);
    assert!(stats.unreadable.is_empty());
}

#[test]
fn scenario_archive_with_mixed_members() {
    // An archive with a valid member, an invalid member and an ignored
    // member: one failure line naming archive and member, two processed.
    let zip_bytes = make_zip(&[
        ("a.clj", VALID.as_bytes()),
        ("b.clj", INVALID.as_bytes()),
        ("readme.txt", b"hello"),
    ]);
    let mut stats = RunStats::new();
    let units = vec![ScanUnit::ArchiveFile { path: b("pkg.zip"), bytes: zip_bytes }];
    run_units(&mut stats, units).expect("run completes");
    assert_eq!(stats.processed, 2);
    assert_eq!(
        stats.failures,
        vec![Origin::Member { archive: b("pkg.zip"), member: b("b.clj") }]
    );
    assert!(stats.unreadable.is_empty());
}

#[test]
fn archive_member_selection() {
    // Exactly the regular members with a source extension come back, in
    // entry order, with their text.
    let zip_bytes = make_zip(&[
        ("x.clj", b"(a)"),
        ("notes.md", b"nope"),
        ("sub/y.cljs", b"(b)"),
        ("z.cljc", b"(c)"),
    ]);
    let members = extract_members(&zip_bytes).expect("valid archive");
    let got: Vec<(Vec<u8>, Option<Vec<u8>>)> =
        members.into_iter().map(|m| (m.name, m.text)).collect();
    let expected = vec![
        (b("x.clj"), Some(b("(a)"))),
        (b("sub/y.cljs"), Some(b("(b)"))),
        (b("z.cljc"), Some(b("(c)"))),
    ];
    assert_eq!(got, expected);
}

#[test]
fn archive_non_text_member_unreadable() {
    let zip_bytes = make_zip(&[("ok.clj", b"(a)"), ("bin.clj", &[0xff, 0xfe, 0x00])]);
    let mut stats = RunStats::new();
    process_archive(&mut stats, b("pkg.jar"), &zip_bytes).expect("run completes");
    assert_eq!(stats.processed, 1);
    assert!(stats.failures.is_empty());
    assert_eq!(
        stats.unreadable,
        vec![Origin::Member { archive: b("pkg.jar"), member: b("bin.clj") }]
    );
}

#[test]
fn invalid_archive_is_fatal_and_records_nothing() {
    let mut stats = RunStats::new();
    let r = process_archive(&mut stats, b("broken.jar"), &b("this is no archive"));
    assert_eq!(r, Err(FatalError::InvalidArchive));
    assert_eq!(stats, RunStats::new());
}

#[test]
fn empty_archive_processes_nothing() {
    let zip_bytes = make_zip(&[]);
    let mut stats = RunStats::new();
    process_archive(&mut stats, b("empty.jar"), &zip_bytes).expect("run completes");
    assert_eq!(stats, RunStats::new());
}

#[test]
fn repeated_run_repeats_report() {
    // Idempotence: the same input set yields the same diagnostics and the
    // same processed count, run after run.
    let build = || {
        vec![
            ScanUnit::SourceFile { path: b("ok.clj"), bytes: b(VALID) },
            ScanUnit::SourceFile { path: b("bad.clj"), bytes: b(INVALID) },
            ScanUnit::ArchiveFile {
                path: b("p.jar"),
                bytes: make_zip(&[("m.clj", INVALID.as_bytes()), ("n.clj", VALID.as_bytes())]),
            },
        ]
    };
    let mut first = RunStats::new();
    run_units(&mut first, build()).expect("first run completes");
    let mut second = RunStats::new();
    run_units(&mut second, build()).expect("second run completes");
    assert_eq!(first, second);
    assert_eq!(first.processed, 4);
    assert_eq!(
        first.failures,
        vec![
            Origin::File { path: b("bad.clj") },
            Origin::Member { archive: b("p.jar"), member: b("m.clj") },
        ]
    );
}
