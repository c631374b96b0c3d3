//! Transfer archives: a path packed into one compressed archive stream.
//!
//! An archive has a single top-level name: a file is stored under its base
//! name, a directory's descendants are stored under `<base name>/...`,
//! preserving relative structure. Packing a tree and unpacking the result
//! yields the same relative paths with byte-identical contents.

use vstd::prelude::*;

use crate::errors::ArchiveError;
use crate::identifier::{lemma_split_sep_len, lemma_split_sep_push, split_sep};

use std::io::Read;

verus! {

/// One archive entry: a relative path and the file's bytes.
#[derive(Debug)]
pub struct ArchiveEntry {
    pub path: String,
    pub data: Vec<u8>,
}

impl View for ArchiveEntry {
    type V = (Seq<char>, Seq<u8>);

    open spec fn view(&self) -> Self::V {
        (self.path@, self.data@)
    }
}

/// The views of a sequence of entries.
pub open spec fn entries_view(s: Seq<ArchiveEntry>) -> Seq<(Seq<char>, Seq<u8>)> {
    s.map_values(|e: ArchiveEntry| e@)
}

/// The compressed archive bytes for a list of entries with canonical
/// paths. Headers are fully fixed (zeroed metadata, default compression),
/// so the bytes are a function of the entries alone; they are left
/// unspecified.
pub uninterp spec fn targz_of(entries: Seq<(Seq<char>, Seq<u8>)>) -> Seq<u8>;

/// A path segment the archive format stores as it stands: non-empty and
/// not one of the relative markers `.` and `..`.
pub open spec fn canonical_segment(seg: Seq<char>) -> bool {
    seg.len() > 0 && seg != seq!['.'] && seg != seq!['.', '.']
}

/// A path the archive format stores verbatim: `/`-separated canonical
/// segments, free of NUL and backslash characters. Everything else is
/// either refused by the format (`..`, an absolute or empty path, NUL) or
/// silently normalized while packing (`./a` to `a`, `a//b` to `a/b`,
/// `\` to `/` on some platforms), and would not survive a round trip
/// unchanged.
pub open spec fn canonical_path(p: Seq<char>) -> bool {
    &&& forall|i: int| 0 <= i < p.len() ==> p[i] != '\\' && p[i] != '\u{0}'
    &&& forall|i: int|
        0 <= i < split_sep(p, '/').len() ==> canonical_segment(#[trigger] split_sep(p, '/')[i])
}

/// Every entry path canonical.
pub open spec fn canonical_entries(entries: Seq<(Seq<char>, Seq<u8>)>) -> bool {
    forall|i: int| 0 <= i < entries.len() ==> canonical_path((#[trigger] entries[i]).0)
}

/// A segment equals `.` or `..` exactly when it is one or two characters
/// long and made of dots alone.
proof fn lemma_segment_dots(seg: Seq<char>)
    ensures
        (seg == seq!['.']) <==> (seg.len() == 1 && (forall|j: int|
            0 <= j < seg.len() ==> seg[j] == '.')),
        (seg == seq!['.', '.']) <==> (seg.len() == 2 && (forall|j: int|
            0 <= j < seg.len() ==> seg[j] == '.')),
{
    if seg.len() == 1 && (forall|j: int| 0 <= j < seg.len() ==> seg[j] == '.') {
        assert(seg =~= seq!['.']);
    }
    if seg.len() == 2 && (forall|j: int| 0 <= j < seg.len() ==> seg[j] == '.') {
        assert(seg =~= seq!['.', '.']);
    }
}

/// Whether the archive format stores this path exactly as given.
fn path_is_canonical(p: &str) -> (r: bool)
    ensures
        r == canonical_path(p@),
{
    let n = p.unicode_len();
    let mut i: usize = 0;
    // Length of the segment currently being read.
    let mut cur_len: usize = 0;
    // Whether every character of the current segment is a dot.
    let mut cur_all_dots = true;
    // Whether every completed segment was canonical.
    let mut prev_ok = true;
    // Whether no character so far was a NUL or backslash.
    let mut chars_ok = true;
    proof {
        assert(p@.take(0) =~= Seq::<char>::empty());
    }
    while i < n
        invariant
            n == p@.len(),
            i <= n,
            cur_len <= i,
            split_sep(p@.take(i as int), '/').len() >= 1,
            cur_len == split_sep(p@.take(i as int), '/').last().len(),
            cur_all_dots == (forall|j: int|
                0 <= j < cur_len ==> split_sep(p@.take(i as int), '/').last()[j] == '.'),
            prev_ok == (forall|j: int|
                0 <= j < split_sep(p@.take(i as int), '/').len() - 1 ==> canonical_segment(
                    #[trigger] split_sep(p@.take(i as int), '/')[j],
                )),
            chars_ok == (forall|j: int| 0 <= j < i ==> p@[j] != '\\' && p@[j] != '\u{0}'),
        decreases n - i,
    {
        let c = p.get_char(i);
        proof {
            lemma_split_sep_push(p@.take(i as int), '/', c);
            lemma_split_sep_len(p@.take(i as int), '/');
            assert(p@.take(i as int).push(c) =~= p@.take(i + 1 as int));
        }
        let ghost sp = split_sep(p@.take(i as int), '/');
        let ghost sp2 = split_sep(p@.take(i + 1 as int), '/');
        if c == '\\' || c == '\u{0}' {
            chars_ok = false;
        }
        if c == '/' {
            proof {
                assert(sp2 == sp.push(Seq::<char>::empty()));
                assert(sp2.last() =~= Seq::<char>::empty());
                assert forall|j: int| 0 <= j < sp2.len() - 1 implies sp2[j] == sp[j] by {}
                lemma_segment_dots(sp.last());
            }
            if cur_len == 0 || (cur_all_dots && cur_len <= 2) {
                prev_ok = false;
            }
            cur_len = 0;
            cur_all_dots = true;
        } else {
            proof {
                assert(sp2 == sp.drop_last().push(sp.last().push(c)));
                assert(sp2.last() == sp.last().push(c));
                assert forall|j: int| 0 <= j < sp2.len() - 1 implies sp2[j] == sp[j] by {}
                assert(sp2.last().len() == cur_len + 1);
                assert forall|j: int| 0 <= j < cur_len implies sp2.last()[j] == sp.last()[j] by {}
                assert(sp2.last()[cur_len as int] == c);
            }
            cur_all_dots = cur_all_dots && c == '.';
            cur_len = cur_len + 1;
        }
        i = i + 1;
    }
    proof {
        assert(p@.take(n as int) =~= p@);
        lemma_segment_dots(split_sep(p@, '/').last());
    }
    chars_ok && prev_ok && cur_len > 0 && !(cur_all_dots && cur_len <= 2)
}

/// Whether every entry path is stored verbatim by the archive format.
fn entries_are_canonical(entries: &Vec<ArchiveEntry>) -> (r: bool)
    ensures
        r == canonical_entries(entries_view(entries@)),
{
    let mut i: usize = 0;
    while i < entries.len()
        invariant
            i <= entries@.len(),
            forall|j: int|
                0 <= j < i ==> canonical_path((#[trigger] entries_view(entries@)[j]).0),
        decreases entries.len() - i,
    {
        if !path_is_canonical(entries[i].path.as_str()) {
            proof {
                assert(entries_view(entries@)[i as int].0 == entries@[i as int].path@);
            }
            return false;
        }
        proof {
            assert(entries_view(entries@)[i as int].0 == entries@[i as int].path@);
        }
        i = i + 1;
    }
    true
}

/// Entry paths placed under a top-level directory name.
pub open spec fn rooted(root: Seq<char>, entries: Seq<(Seq<char>, Seq<u8>)>) -> Seq<
    (Seq<char>, Seq<u8>),
> {
    entries.map_values(|e: (Seq<char>, Seq<u8>)| (root + seq!['/'] + e.0, e.1))
}

/// Entry paths with a top-level directory name stripped again.
pub open spec fn strip_root(root: Seq<char>, entries: Seq<(Seq<char>, Seq<u8>)>) -> Seq<
    (Seq<char>, Seq<u8>),
> {
    entries.map_values(|e: (Seq<char>, Seq<u8>)| (e.0.skip(root.len() + 1 as int), e.1))
}

/// Rooting keeps every entry: stripping the root prefix recovers exactly
/// the original relative paths, with byte-identical contents.
pub proof fn lemma_strip_rooted_round_trip(root: Seq<char>, entries: Seq<(Seq<char>, Seq<u8>)>)
    ensures
        strip_root(root, rooted(root, entries)) == entries,
{
    let r = strip_root(root, rooted(root, entries));
    assert forall|i: int| 0 <= i < entries.len() implies r[i] == entries[i] by {
        assert((root + seq!['/'] + entries[i].0).skip(root.len() + 1 as int) =~= entries[i].0);
    }
    assert(r =~~= entries);
}

/// Rooting is injective: two different trees never produce the same
/// rooted entry list.
pub proof fn lemma_rooted_injective(
    root: Seq<char>,
    a: Seq<(Seq<char>, Seq<u8>)>,
    b: Seq<(Seq<char>, Seq<u8>)>,
)
    requires
        rooted(root, a) == rooted(root, b),
    ensures
        a == b,
{
    lemma_strip_rooted_round_trip(root, a);
    lemma_strip_rooted_round_trip(root, b);
}

/// Relies on tar's `Builder` with GNU headers whose metadata is zeroed,
/// and flate2's `GzEncoder` at the default level with its default header
/// (zero timestamp, fixed flags): on canonical paths, which tar stores
/// verbatim and never refuses, the produced bytes are a deterministic
/// function of the entries alone, and writing into memory cannot fail.
#[verifier::external_body]
fn targz_pack(entries: &Vec<ArchiveEntry>) -> (r: Vec<u8>)
    requires
        canonical_entries(entries_view(entries@)),
    ensures
        r@ == targz_of(entries_view(entries@)),
{
    let gz = flate2::write::GzEncoder::new(Vec::new(), flate2::Compression::default());
    let mut builder = tar::Builder::new(gz);
    for e in entries.iter() {
        let mut h = tar::Header::new_gnu();
        h.set_size(e.data.len() as u64);
        h.set_mode(0o644);
        h.set_cksum();
        builder.append_data(&mut h, &e.path, e.data.as_slice()).expect("canonical path");
    }
    builder.into_inner().expect("in-memory write").finish().expect("in-memory write")
}

/// Relies on tar's `Archive` over flate2's `GzDecoder`: reading back the
/// bytes that `targz_pack` produced for canonical entries lists exactly
/// those entries, paths and contents intact and in order (tar stores
/// canonical paths verbatim, so no two canonical entry lists share their
/// archive bytes).
#[verifier::external_body]
fn targz_unpack(bytes: &Vec<u8>) -> (r: Option<Vec<ArchiveEntry>>)
    ensures
        forall|es: Seq<(Seq<char>, Seq<u8>)>|
            canonical_entries(es) && bytes@ == #[trigger] targz_of(es) ==> r is Some
                && entries_view(r->0@) == es,
{
    let mut out: Vec<ArchiveEntry> = Vec::new();
    let mut archive = tar::Archive::new(flate2::read::GzDecoder::new(bytes.as_slice()));
    for entry in archive.entries().ok()? {
        let mut entry = entry.ok()?;
        let path = entry.path().ok()?.to_string_lossy().into_owned();
        let mut data = Vec::new();
        entry.read_to_end(&mut data).ok()?;
        out.push(ArchiveEntry { path, data });
    }
    Some(out)
}

/// Prefix every entry path with `root` and a slash.
fn root_entries(root: &str, entries: Vec<ArchiveEntry>) -> (r: Vec<ArchiveEntry>)
    ensures
        entries_view(r@) == rooted(root@, entries_view(entries@)),
{
    let ghost orig = entries@;
    let mut rest = entries;
    let mut out: Vec<ArchiveEntry> = Vec::new();
    proof {
        reveal_strlit("/");
        assert(orig.skip(0) =~= orig);
        assert(entries_view(out@) =~= rooted(root@, entries_view(orig.take(0))));
    }
    while rest.len() > 0
        invariant
            rest@.len() <= orig.len(),
            rest@ == orig.skip(orig.len() - rest@.len()),
            entries_view(out@) == rooted(root@, entries_view(orig.take(orig.len() - rest@.len()))),
            ("/")@ == seq!['/'],
        decreases rest.len(),
    {
        let ghost done = orig.len() - rest@.len();
        proof {
            assert(rest@ == orig.skip(done));
        }
        let e = rest.remove(0);
        proof {
            assert(orig.skip(done)[0] == orig[done]);
            assert(e == orig[done]);
            assert(rest@ == orig.skip(done).remove(0));
            assert(rest@ =~= orig.skip(done + 1));
        }
        let mut p = root.to_owned();
        p.append("/");
        p.append(e.path.as_str());
        let ghost new_path = p@;
        let ghost prev_out = out@;
        out.push(ArchiveEntry { path: p, data: e.data });
        proof {
            assert(new_path == root@ + seq!['/'] + e.path@);
            assert(out@ == prev_out.push(out@.last()));
            assert(out@.last()@ == (new_path, e.data@));
            assert(orig.take(done + 1) =~= orig.take(done).push(orig[done]));
            assert(entries_view(orig.take(done + 1)) =~~= entries_view(orig.take(done)).push(
                orig[done]@,
            ));
            assert(rooted(root@, entries_view(orig.take(done)).push(orig[done]@)) =~~= rooted(
                root@,
                entries_view(orig.take(done)),
            ).push((root@ + seq!['/'] + orig[done]@.0, orig[done]@.1)));
            assert(entries_view(out@) =~~= rooted(root@, entries_view(orig.take(done + 1))));
        }
    }
    proof {
        assert(orig.take(orig.len() as int) =~= orig);
    }
    out
}

/// Pack a single file under its base name. Succeeds exactly when the
/// name is a path the archive format stores verbatim.
pub fn pack_file_archive(name: &str, data: Vec<u8>) -> (r: Result<Vec<u8>, ArchiveError>)
    ensures
        r is Ok <==> canonical_path(name@),
        r is Ok ==> r->Ok_0@ == targz_of(seq![(name@, data@)]),
        r is Err ==> r->Err_0 == ArchiveError::PackFailed,
{
    if !path_is_canonical(name) {
        return Err(ArchiveError::PackFailed);
    }
    let mut entries: Vec<ArchiveEntry> = Vec::new();
    entries.push(ArchiveEntry { path: name.to_owned(), data });
    proof {
        assert(entries_view(entries@) =~= seq![(name@, data@)]);
    }
    Ok(targz_pack(&entries))
}

/// Pack a directory's descendants under one top-level entry named by the
/// directory's base name. Succeeds exactly when every rooted entry path
/// is one the archive format stores verbatim.
pub fn pack_directory_archive(root_name: &str, entries: Vec<ArchiveEntry>) -> (r: Result<
    Vec<u8>,
    ArchiveError,
>)
    ensures
        r is Ok <==> canonical_entries(rooted(root_name@, entries_view(entries@))),
        r is Ok ==> r->Ok_0@ == targz_of(rooted(root_name@, entries_view(entries@))),
        r is Err ==> r->Err_0 == ArchiveError::PackFailed,
{
    let rooted_entries = root_entries(root_name, entries);
    if !entries_are_canonical(&rooted_entries) {
        return Err(ArchiveError::PackFailed);
    }
    Ok(targz_pack(&rooted_entries))
}

/// Read an archive stream back into its entries. Any stream produced by
/// the packing functions yields exactly the entries they were given; a
/// stream that is not a valid archive is reported corrupt.
pub fn extract_archive(bytes: &Vec<u8>) -> (r: Result<Vec<ArchiveEntry>, ArchiveError>)
    ensures
        forall|es: Seq<(Seq<char>, Seq<u8>)>|
            canonical_entries(es) && bytes@ == #[trigger] targz_of(es) ==> r is Ok
                && entries_view(r->Ok_0@) == es,
        r is Err ==> r->Err_0 == ArchiveError::Corrupt,
{
    match targz_unpack(bytes) {
        Some(entries) => Ok(entries),
        None => Err(ArchiveError::Corrupt),
    }
}

} // verus!
