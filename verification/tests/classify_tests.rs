use cljscan::names::{
    bytes_end_with, classify, extension_of_bytes, is_archive_ext_bytes, is_source_ext_bytes,
    is_source_member_name, PathKind,
};

fn b(s: &str) -> Vec<u8> {
    s.as_bytes().to_vec()
}

#[test]
fn extension_simple() {
    assert_eq!(extension_of_bytes(&b("foo.clj")), Some(b("clj")));
    assert_eq!(extension_of_bytes(&b("a/b/foo.cljs")), Some(b("cljs")));
    assert_eq!(extension_of_bytes(&b("a.b.cljc")), Some(b("cljc")));
    assert_eq!(extension_of_bytes(&b("lib.jar")), Some(b("jar")));
}

#[test]
fn extension_absent() {
    assert_eq!(extension_of_bytes(&b("noext")), None);
    assert_eq!(extension_of_bytes(&b("dir.clj/noext")), None);
    assert_eq!(extension_of_bytes(&b(".bashrc")), None);
    assert_eq!(extension_of_bytes(&b("a/.hidden")), None);
    assert_eq!(extension_of_bytes(&b("")), None);
}

#[test]
fn extension_edge() {
    assert_eq!(extension_of_bytes(&b("x.")), Some(b("")));
    assert_eq!(extension_of_bytes(&b("a/.x.clj")), Some(b("clj")));
}

#[test]
fn source_and_archive_exts() {
    assert!(is_source_ext_bytes(&b("clj")));
    assert!(is_source_ext_bytes(&b("cljc")));
    assert!(is_source_ext_bytes(&b("cljs")));
    assert!(!is_source_ext_bytes(&b("txt")));
    assert!(!is_source_ext_bytes(&b("cljx")));
    assert!(!is_source_ext_bytes(&b("jar")));
    assert!(is_archive_ext_bytes(&b("jar")));
    assert!(!is_archive_ext_bytes(&b("zip")));
}

#[test]
fn classify_routes() {
    assert_eq!(classify(true, false, &b("somedir")), PathKind::Directory);
    assert_eq!(classify(true, false, &b("dir.clj")), PathKind::Directory);
    assert_eq!(classify(false, true, &b("a/ok.clj")), PathKind::SourceFile);
    assert_eq!(classify(false, true, &b("a/ok.cljc")), PathKind::SourceFile);
    assert_eq!(classify(false, true, &b("a/ok.cljs")), PathKind::SourceFile);
    assert_eq!(classify(false, true, &b("a/lib.jar")), PathKind::Archive);
    assert_eq!(classify(false, true, &b("a/readme.txt")), PathKind::Ignored);
    assert_eq!(classify(false, true, &b("a/noext")), PathKind::Ignored);
    // Neither a directory nor a regular file: a socket, a device, a dangling link.
    assert_eq!(classify(false, false, &b("weird.clj")), PathKind::Ignored);
}

#[test]
fn member_name_suffixes() {
    assert!(is_source_member_name(&b("core.clj")));
    assert!(is_source_member_name(&b("dir/core.cljc")));
    assert!(is_source_member_name(&b("dir/core.cljs")));
    assert!(!is_source_member_name(&b("core.txt")));
    assert!(!is_source_member_name(&b("clj")));
    assert!(!is_source_member_name(&b("core.CLJ")));
    assert!(!is_source_member_name(&b("")));
}

#[test]
fn suffix_test_basics() {
    assert!(bytes_end_with(&b("abc"), &b("bc")));
    assert!(bytes_end_with(&b("abc"), &b("")));
    assert!(bytes_end_with(&b("abc"), &b("abc")));
    assert!(!bytes_end_with(&b("abc"), &b("ab")));
    assert!(!bytes_end_with(&b("c"), &b("bc")));
}
