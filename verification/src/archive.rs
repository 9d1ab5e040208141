//! The archive reader: opens an in-memory archive container, enumerates
//! its entries, and extracts the regular members whose names end in a
//! recognized source extension. The archive codec itself is the zip
//! crate's; its calls stand behind trusted items.

use vstd::prelude::*;
use crate::names::{has_source_suffix, is_source_member_name};
use crate::parse::{opt_bytes_view, FatalError};

verus! {

#[verifier::external_type_specification]
#[verifier::external_body]
#[verifier::reject_recursive_types(R)]
pub struct ExZipArchive<R>(zip::ZipArchive<R>);

#[verifier::external_type_specification]
#[verifier::external_body]
#[verifier::reject_recursive_types(T)]
pub struct ExCursor<T>(std::io::Cursor<T>);

/// An archive held wholly in memory.
pub type InMemArchive = zip::ZipArchive<std::io::Cursor<Vec<u8>>>;

/// Whether the bytes form a valid archive container of the expected
/// format.
pub uninterp spec fn is_zip_archive(bytes: Seq<u8>) -> bool;

/// The entries a valid archive's bytes hold, in index order: each entry's
/// name, whether it is a regular file, and its contents when they could be
/// extracted as valid text.
pub uninterp spec fn zip_entries_of(bytes: Seq<u8>) -> Seq<(Seq<u8>, bool, Option<Seq<u8>>)>;

/// What an open archive value holds, entry by entry, as `zip_entries_of`
/// describes it for the bytes it was opened from.
pub uninterp spec fn archive_entries(a: InMemArchive) -> Seq<(Seq<u8>, bool, Option<Seq<u8>>)>;

/// Relies on zip::ZipArchive::new: reading the central directory of the
/// given bytes succeeds exactly when they form a valid archive, and what
/// the archive then holds is a function of the bytes alone.
#[verifier::external_body]
pub(crate) fn open_archive(bytes: &Vec<u8>) -> (r: Result<InMemArchive, FatalError>)
    ensures
        r matches Ok(a) ==> is_zip_archive(bytes@) && archive_entries(a) == zip_entries_of(
            bytes@,
        ),
        r matches Err(e) ==> !is_zip_archive(bytes@) && e == FatalError::InvalidArchive,
{
    match zip::ZipArchive::new(std::io::Cursor::new(bytes.clone())) {
        Ok(a) => Ok(a),
        Err(_) => Err(FatalError::InvalidArchive),
    }
}

/// Relies on zip::ZipArchive::len: the number of entries of the archive.
#[verifier::external_body]
pub(crate) fn archive_len(a: &InMemArchive) -> (r: usize)
    ensures
        r == archive_entries(*a).len(),
{
    a.len()
}

/// Relies on zip::ZipArchive::by_index and on ZipFile::name, is_file and
/// the std Read::read_to_string it carries; the member borrow those calls
/// share cannot outlive this body, so one trusted item holds the four.
/// For fixed archive bytes and index the result is deterministic: the
/// entry's name, whether it is a regular file, and, for a regular file,
/// its contents when they decompress to valid text. The contents are
/// `None` when they fail to decompress or are not valid text: such a
/// member is reported unreadable rather than aborting the archive scan.
/// An entry whose metadata `by_index` itself refuses comes back with the
/// regular-file flag false, so it is skipped like a directory entry.
/// Reading leaves the archive's entries as they were.
#[verifier::external_body]
pub(crate) fn read_entry(a: &mut InMemArchive, i: usize) -> (r: (Vec<u8>, bool, Option<Vec<u8>>))
    requires
        i < archive_entries(*old(a)).len(),
    ensures
        archive_entries(*final(a)) == archive_entries(*old(a)),
        (r.0@, r.1, opt_bytes_view(r.2)) == archive_entries(*old(a))[i as int],
{
    match a.by_index(i) {
        Err(_) => (Vec::new(), false, None),
        Ok(mut f) => {
            let name = f.name().as_bytes().to_vec();
            let is_file = f.is_file();
            let mut s = String::new();
            let ok = is_file && std::io::Read::read_to_string(&mut f, &mut s).is_ok();
            (name, is_file, if ok { Some(s.into_bytes()) } else { None })
        },
    }
}

/// One extracted archive member: its name within the archive and its
/// contents when they were readable as valid text.
#[derive(Clone, Debug, PartialEq, Eq)]
pub struct MemberUnit {
    pub name: Vec<u8>,
    pub text: Option<Vec<u8>>,
}

/// The mathematical value of a `MemberUnit`.
pub struct MemberV {
    pub name: Seq<u8>,
    pub text: Option<Seq<u8>>,
}

impl View for MemberUnit {
    type V = MemberV;

    open spec fn view(&self) -> MemberV {
        MemberV { name: self.name@, text: opt_bytes_view(self.text) }
    }
}

/// The values of a sequence of extracted members.
pub open spec fn member_views(s: Seq<MemberUnit>) -> Seq<MemberV> {
    s.map_values(|m: MemberUnit| m@)
}

/// The members an archive's entries yield: exactly those entries that are
/// regular files and whose names end in a recognized source extension, in
/// entry order.
pub open spec fn selected_members(entries: Seq<(Seq<u8>, bool, Option<Seq<u8>>)>) -> Seq<MemberV>
    decreases entries,
{
    if entries.len() == 0 {
        seq![]
    } else {
        let e = entries[0];
        let rest = selected_members(entries.drop_first());
        if e.1 && has_source_suffix(e.0) {
            seq![MemberV { name: e.0, text: e.2 }] + rest
        } else {
            rest
        }
    }
}

/// Opens the archive held in `bytes` and extracts every regular member
/// with a recognized source extension, in entry order; any other entry is
/// skipped. An invalid container is fatal; enumeration completes before
/// the members are handed on.
pub fn extract_members(bytes: &Vec<u8>) -> (r: Result<Vec<MemberUnit>, FatalError>)
    ensures
        r matches Ok(v) ==> is_zip_archive(bytes@) && member_views(v@) == selected_members(
            zip_entries_of(bytes@),
        ),
        r matches Err(e) ==> !is_zip_archive(bytes@) && e == FatalError::InvalidArchive,
{
    let mut a = match open_archive(bytes) {
        Ok(a) => a,
        Err(e) => {
            return Err(e);
        },
    };
    let ghost entries = zip_entries_of(bytes@);
    let n = archive_len(&a);
    let mut out: Vec<MemberUnit> = Vec::new();
    let mut i: usize = 0;
    assert(entries.skip(0) =~= entries);
    assert(member_views(out@) =~= Seq::<MemberV>::empty());
    while i < n
        invariant
            i <= n,
            n == entries.len(),
            archive_entries(a) == entries,
            member_views(out@) + selected_members(entries.skip(i as int)) == selected_members(
                entries,
            ),
        decreases n - i,
    {
        let ghost prev = out@;
        let ghost rest = entries.skip(i as int);
        proof {
            assert(rest.drop_first() =~= entries.skip(i + 1));
            assert(rest[0] == entries[i as int]);
        }
        let (name, is_file, text) = read_entry(&mut a, i);
        if is_file && is_source_member_name(&name) {
            let ghost m = MemberV { name: name@, text: opt_bytes_view(text) };
            out.push(MemberUnit { name, text });
            proof {
                assert(member_views(out@) =~= member_views(prev) + seq![m]);
                assert(member_views(out@) + selected_members(entries.skip(i + 1)) =~= member_views(
                    prev,
                ) + selected_members(rest));
            }
        } else {
            proof {
                assert(selected_members(rest) == selected_members(entries.skip(i + 1)));
            }
        }
        i += 1;
    }
    proof {
        assert(entries.skip(entries.len() as int) =~= Seq::<(Seq<u8>, bool, Option<Seq<u8>>)>::empty());
        assert(member_views(out@) + selected_members(entries.skip(entries.len() as int))
            =~= member_views(out@));
    }
    Ok(out)
}

} // verus!
