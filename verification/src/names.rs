//! Byte-level path and member-name logic: suffix tests, extension
//! extraction, and classification of paths into the four routing kinds.

use vstd::prelude::*;

verus! {

/// True when `s` ends with `suffix`.
pub open spec fn seq_ends_with(s: Seq<u8>, suffix: Seq<u8>) -> bool {
    suffix.len() <= s.len() && s.subrange(s.len() - suffix.len(), s.len() as int) == suffix
}

/// Byte-wise suffix test.
pub fn bytes_end_with(s: &Vec<u8>, suffix: &Vec<u8>) -> (r: bool)
    ensures
        r == seq_ends_with(s@, suffix@),
{
    if suffix.len() > s.len() {
        assert(!seq_ends_with(s@, suffix@));
        return false;
    }
    let offset = s.len() - suffix.len();
    let mut i: usize = 0;
    while i < suffix.len()
        invariant
            suffix.len() <= s.len(),
            offset == s.len() - suffix.len(),
            i <= suffix.len(),
            forall|j: int| 0 <= j < i ==> s@[offset + j] == suffix@[j],
        decreases suffix.len() - i,
    {
        if s[offset + i] != suffix[i] {
            assert(s@.subrange(offset as int, s@.len() as int)[i as int] != suffix@[i as int]);
            return false;
        }
        i += 1;
    }
    assert(s@.subrange(offset as int, s@.len() as int) =~= suffix@);
    true
}

/// The position of the last occurrence of `b` in `s`, if any.
pub open spec fn last_pos(s: Seq<u8>, b: u8) -> Option<int>
    decreases s.len(),
{
    if s.len() == 0 {
        None
    } else if s[s.len() - 1] == b {
        Some(s.len() - 1)
    } else {
        last_pos(s.drop_last(), b)
    }
}

/// Scans `s` from the end for the last occurrence of `b`.
pub fn find_last(s: &Vec<u8>, b: u8) -> (r: Option<usize>)
    ensures
        r matches Some(i) ==> last_pos(s@, b) == Some(i as int),
        r is None ==> last_pos(s@, b) is None,
{
    let mut j: usize = s.len();
    assert(s@.take(s@.len() as int) =~= s@);
    while j > 0
        invariant
            j <= s.len(),
            last_pos(s@, b) == last_pos(s@.take(j as int), b),
        decreases j,
    {
        let ghost prev = s@.take(j as int);
        assert(prev.drop_last() =~= s@.take(j - 1));
        if s[j - 1] == b {
            assert(last_pos(prev, b) == Some(j - 1));
            return Some(j - 1);
        }
        assert(last_pos(prev, b) == last_pos(s@.take(j - 1), b));
        j -= 1;
    }
    assert(s@.take(0) =~= Seq::<u8>::empty());
    None
}

/// Copies `s[a..b]` into a fresh vector.
pub fn bytes_range(s: &Vec<u8>, a: usize, b: usize) -> (r: Vec<u8>)
    requires
        a <= b <= s@.len(),
    ensures
        r@ == s@.subrange(a as int, b as int),
{
    let mut r: Vec<u8> = Vec::new();
    let mut i: usize = a;
    while i < b
        invariant
            a <= i <= b <= s@.len(),
            r@ == s@.subrange(a as int, i as int),
        decreases b - i,
    {
        r.push(s[i]);
        assert(r@ =~= s@.subrange(a as int, i + 1));
        i += 1;
    }
    r
}

/// The final path component: everything after the last separator.
pub open spec fn file_name_of(p: Seq<u8>) -> Seq<u8> {
    match last_pos(p, 47u8) {
        None => p,
        Some(i) => p.subrange(i + 1, p.len() as int),
    }
}

/// The extension of a path: the part of its file name after the last dot,
/// absent when the file name has no dot or starts with its only dot.
pub open spec fn extension_of(p: Seq<u8>) -> Option<Seq<u8>> {
    let n = file_name_of(p);
    match last_pos(n, 46u8) {
        None => None,
        Some(i) => if i == 0 {
            None
        } else {
            Some(n.subrange(i + 1, n.len() as int))
        },
    }
}

proof fn lemma_last_pos_bounds(s: Seq<u8>, b: u8)
    ensures
        last_pos(s, b) matches Some(i) ==> 0 <= i < s.len(),
    decreases s.len(),
{
    if s.len() > 0 && s[s.len() - 1] != b {
        lemma_last_pos_bounds(s.drop_last(), b);
    }
}

/// Computes the extension of a path, per `extension_of`.
pub fn extension_of_bytes(p: &Vec<u8>) -> (r: Option<Vec<u8>>)
    ensures
        r matches Some(v) ==> extension_of(p@) == Some(v@),
        r is None ==> extension_of(p@) is None,
{
    proof {
        lemma_last_pos_bounds(p@, 47u8);
    }
    let plen = p.len();
    let name_start: usize = match find_last(p, 47u8) {
        None => 0,
        Some(i) => {
            assert(i < plen);
            i + 1
        },
    };
    let name = bytes_range(p, name_start, p.len());
    assert(name@ =~= file_name_of(p@));
    proof {
        lemma_last_pos_bounds(name@, 46u8);
    }
    match find_last(&name, 46u8) {
        None => None,
        Some(i) => {
            if i == 0 {
                None
            } else {
                Some(bytes_range(&name, i + 1, name.len()))
            }
        },
    }
}

/// Bytes of the extension `clj`.
pub open spec fn ext_clj() -> Seq<u8> {
    seq![99u8, 108u8, 106u8]
}

/// Bytes of the extension `cljc`.
pub open spec fn ext_cljc() -> Seq<u8> {
    seq![99u8, 108u8, 106u8, 99u8]
}

/// Bytes of the extension `cljs`.
pub open spec fn ext_cljs() -> Seq<u8> {
    seq![99u8, 108u8, 106u8, 115u8]
}

/// Bytes of the extension `jar`.
pub open spec fn ext_jar() -> Seq<u8> {
    seq![106u8, 97u8, 114u8]
}

/// True of the recognized source-file extensions.
pub open spec fn is_source_ext(e: Seq<u8>) -> bool {
    e == ext_clj() || e == ext_cljc() || e == ext_cljs()
}

/// True of the recognized archive-container extension.
pub open spec fn is_archive_ext(e: Seq<u8>) -> bool {
    e == ext_jar()
}

/// Tests a computed extension against the recognized source extensions.
pub fn is_source_ext_bytes(e: &Vec<u8>) -> (r: bool)
    ensures
        r == is_source_ext(e@),
{
    if e.len() == 3 && e[0] == 99 && e[1] == 108 && e[2] == 106 {
        assert(e@ =~= ext_clj());
        true
    } else if e.len() == 4 && e[0] == 99 && e[1] == 108 && e[2] == 106 && e[3] == 99 {
        assert(e@ =~= ext_cljc());
        true
    } else if e.len() == 4 && e[0] == 99 && e[1] == 108 && e[2] == 106 && e[3] == 115 {
        assert(e@ =~= ext_cljs());
        true
    } else {
        assert(e@ != ext_clj() && e@ != ext_cljc() && e@ != ext_cljs());
        false
    }
}

/// Tests a computed extension against the recognized archive extension.
pub fn is_archive_ext_bytes(e: &Vec<u8>) -> (r: bool)
    ensures
        r == is_archive_ext(e@),
{
    if e.len() == 3 && e[0] == 106 && e[1] == 97 && e[2] == 114 {
        assert(e@ =~= ext_jar());
        true
    } else {
        assert(e@ != ext_jar());
        false
    }
}

/// True when an archive member name ends in a recognized source extension.
pub open spec fn has_source_suffix(n: Seq<u8>) -> bool {
    seq_ends_with(n, seq![46u8, 99u8, 108u8, 106u8]) || seq_ends_with(
        n,
        seq![46u8, 99u8, 108u8, 106u8, 99u8],
    ) || seq_ends_with(n, seq![46u8, 99u8, 108u8, 106u8, 115u8])
}

/// Tests an archive member name for a recognized source suffix.
pub fn is_source_member_name(n: &Vec<u8>) -> (r: bool)
    ensures
        r == has_source_suffix(n@),
{
    let mut clj: Vec<u8> = Vec::new();
    clj.push(46);
    clj.push(99);
    clj.push(108);
    clj.push(106);
    assert(clj@ =~= seq![46u8, 99u8, 108u8, 106u8]);
    if bytes_end_with(n, &clj) {
        return true;
    }
    let mut cljc = clj.clone();
    cljc.push(99);
    assert(cljc@ =~= seq![46u8, 99u8, 108u8, 106u8, 99u8]);
    if bytes_end_with(n, &cljc) {
        return true;
    }
    let mut cljs = clj;
    cljs.push(115);
    assert(cljs@ =~= seq![46u8, 99u8, 108u8, 106u8, 115u8]);
    bytes_end_with(n, &cljs)
}

/// How a filesystem path is routed.
#[derive(Clone, Copy, Debug, PartialEq, Eq, Structural)]
pub enum PathKind {
    /// A directory, to be expanded into its descendants.
    Directory,
    /// A regular file with a recognized source extension.
    SourceFile,
    /// A regular file with the recognized archive-container extension.
    Archive,
    /// Anything else: silently skipped.
    Ignored,
}

/// Classification of a path from its metadata and its extension.
pub open spec fn classify_spec(is_dir: bool, is_file: bool, path: Seq<u8>) -> PathKind {
    if is_dir {
        PathKind::Directory
    } else if is_file {
        match extension_of(path) {
            None => PathKind::Ignored,
            Some(e) => if is_source_ext(e) {
                PathKind::SourceFile
            } else if is_archive_ext(e) {
                PathKind::Archive
            } else {
                PathKind::Ignored
            },
        }
    } else {
        PathKind::Ignored
    }
}

/// Routes a path: directories are structural, regular files go by their
/// extension, and everything else is ignored.
pub fn classify(is_dir: bool, is_file: bool, path: &Vec<u8>) -> (k: PathKind)
    ensures
        k == classify_spec(is_dir, is_file, path@),
{
    if is_dir {
        PathKind::Directory
    } else if is_file {
        match extension_of_bytes(path) {
            None => PathKind::Ignored,
            Some(e) => {
                if is_source_ext_bytes(&e) {
                    PathKind::SourceFile
                } else if is_archive_ext_bytes(&e) {
                    PathKind::Archive
                } else {
                    PathKind::Ignored
                }
            },
        }
    } else {
        PathKind::Ignored
    }
}

} // verus!
