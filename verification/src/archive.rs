//! Zip archives in memory, and the names of their entries.

use vstd::prelude::*;
use vstd::string::*;
use vstd::utf8::*;
use std::io::{Read, Write};

verus! {

// ---- the zip crate ----

/// A zip archive of the `zip` crate.
#[verifier::external_type_specification]
#[verifier::external_body]
#[verifier::reject_recursive_types(R)]
pub struct ExZipArchive<R>(zip::ZipArchive<R>);

/// A reader over bytes in memory.
#[verifier::external_type_specification]
#[verifier::external_body]
#[verifier::reject_recursive_types(T)]
pub struct ExCursor<T>(std::io::Cursor<T>);

/// An error of the `zip` crate.
#[verifier::external_type_specification]
#[verifier::external_body]
pub struct ExZipError(zip::result::ZipError);

/// One entry of an archive, as its directory and its data give it.
#[verifier::ext_equal]
pub struct EntryView {
    pub name: Seq<char>,
    /// The uncompressed size that the directory states.
    pub size: u64,
    /// Can the entry be opened? An encrypted entry, for one, cannot.
    pub opens: bool,
    /// The uncompressed bytes; nothing where reading them fails.
    pub data: Option<Seq<u8>>,
}

/// The entries of an archive, in the order of its directory.
pub uninterp spec fn entries_of(a: zip::ZipArchive<std::io::Cursor<Vec<u8>>>) -> Seq<EntryView>;

/// The entries of the archive that `bytes` spell; nothing where they spell none.
pub uninterp spec fn archive_in(bytes: Seq<u8>) -> Option<Seq<EntryView>>;

/// The name and size of an entry.
pub struct Entry {
    pub name: String,
    pub size: u64,
}

/// `ZipArchive::new` reads the directory of the archive that `bytes` spell, and
/// fails where they spell none. It depends on the bytes alone.
#[verifier::external_body]
pub(crate) fn open(bytes: &[u8]) -> (r: Result<
    zip::ZipArchive<std::io::Cursor<Vec<u8>>>,
    zip::result::ZipError,
>)
    ensures
        match r {
            Ok(a) => archive_in(bytes@) == Some(entries_of(a)),
            Err(_) => archive_in(bytes@) is None,
        },
{
    zip::ZipArchive::new(std::io::Cursor::new(bytes.to_vec()))
}

/// `ZipArchive::len` is the number of entries.
#[verifier::external_body]
pub(crate) fn count(a: &zip::ZipArchive<std::io::Cursor<Vec<u8>>>) -> (r: usize)
    ensures
        r == entries_of(*a).len(),
{
    a.len()
}

/// `ZipArchive::by_index` opens the entry at a position and fails where there
/// is none or it cannot be opened; the entry tells its name and its size. The
/// entries stay what they are.
#[verifier::external_body]
pub(crate) fn entry_at(
    a: &mut zip::ZipArchive<std::io::Cursor<Vec<u8>>>,
    i: usize,
) -> (r: Result<Entry, zip::result::ZipError>)
    ensures
        entries_of(*final(a)) == entries_of(*old(a)),
        match r {
            Ok(e) => i < entries_of(*old(a)).len() && entries_of(*old(a))[i as int].opens && e.name@
                == entries_of(*old(a))[i as int].name && e.size == entries_of(
                *old(a),
            )[i as int].size,
            Err(_) => i < entries_of(*old(a)).len() ==> !entries_of(*old(a))[i as int].opens,
        },
{
    let f = a.by_index(i)?;
    Ok(Entry { name: f.name().to_string(), size: f.size() })
}

/// `Display` of a zip error says in words what went wrong; in which words is
/// left open.
#[verifier::external_body]
pub(crate) fn error_text(e: &zip::result::ZipError) -> (r: String) {
    format!("{e}")
}

/// The position of the entry with the given name.
pub open spec fn named(entries: Seq<EntryView>, name: Seq<char>, n: int) -> Option<int>
    decreases n,
{
    if n <= 0 {
        None
    } else {
        match named(entries, name, n - 1) {
            Some(k) => Some(k),
            None => if entries[n - 1].name == name {
                Some(n - 1)
            } else {
                None
            },
        }
    }
}

/// The entry with the given name, if there is one and it can be opened.
pub open spec fn opened(entries: Seq<EntryView>, name: Seq<char>) -> Option<EntryView> {
    match named(entries, name, entries.len() as int) {
        Some(k) => if entries[k].opens {
            Some(entries[k])
        } else {
            None
        },
        None => None,
    }
}

/// `ZipArchive::by_name` opens the entry with the given name and fails where
/// there is none or it cannot be opened. An archive holds each name once.
#[verifier::external_body]
pub(crate) fn opens(a: &mut zip::ZipArchive<std::io::Cursor<Vec<u8>>>, name: &str) -> (r: bool)
    ensures
        entries_of(*final(a)) == entries_of(*old(a)),
        r == (opened(entries_of(*old(a)), name@) is Some),
{
    a.by_name(name).is_ok()
}

/// `Read::read_to_end` on the entry with the given name gives its bytes, and
/// fails where the entry cannot be opened or its data cannot be read.
#[verifier::external_body]
pub(crate) fn read_entry(
    a: &mut zip::ZipArchive<std::io::Cursor<Vec<u8>>>,
    name: &str,
) -> (r: Result<Vec<u8>, zip::result::ZipError>)
    ensures
        entries_of(*final(a)) == entries_of(*old(a)),
        match r {
            Ok(data) => opened(entries_of(*old(a)), name@) is Some && opened(
                entries_of(*old(a)),
                name@,
            )->0.data == Some(data@),
            Err(_) => opened(entries_of(*old(a)), name@) is Some ==> opened(
                entries_of(*old(a)),
                name@,
            )->0.data is None,
        },
{
    let mut f = a.by_name(name)?;
    let mut data = Vec::new();
    f.read_to_end(&mut data)?;
    Ok(data)
}

/// `Read::take` and `Read::read_to_end` on the entry at a position give its
/// first bytes, up to `limit` of them. They fail where the entry cannot be
/// opened, and at most where its data cannot be read to the end; data that goes
/// wrong may be given up to where it does.
#[verifier::external_body]
pub(crate) fn read_at(
    a: &mut zip::ZipArchive<std::io::Cursor<Vec<u8>>>,
    i: usize,
    limit: u64,
) -> (r: Result<Vec<u8>, zip::result::ZipError>)
    ensures
        entries_of(*final(a)) == entries_of(*old(a)),
        match r {
            Ok(d) => i < entries_of(*old(a)).len() && entries_of(*old(a))[i as int].opens
                && d@.len() <= limit && (entries_of(*old(a))[i as int].data matches Some(all) ==> d@
                == first_bytes(all, limit as int)),
            Err(_) => i < entries_of(*old(a)).len() ==> !entries_of(*old(a))[i as int].opens
                || entries_of(*old(a))[i as int].data is None,
        },
{
    let f = a.by_index(i)?;
    let mut data = Vec::new();
    f.take(limit).read_to_end(&mut data)?;
    Ok(data)
}

/// The first bytes of `all`, up to `limit` of them.
pub open spec fn first_bytes(all: Seq<u8>, limit: int) -> Seq<u8> {
    if all.len() <= limit {
        all
    } else {
        all.take(limit)
    }
}

// ---- writing archives ----

/// A zip archive that is being written with the `zip` crate.
#[verifier::external_body]
pub struct ZipFiles {
    writer: zip::ZipWriter<std::io::Cursor<Vec<u8>>>,
}

/// The files that were put into an archive, by name, in order.
pub uninterp spec fn files_in(w: ZipFiles) -> Seq<(Seq<char>, Seq<u8>)>;

/// Can a file be put into an archive after the given ones?
pub uninterp spec fn takes(
    files: Seq<(Seq<char>, Seq<u8>)>,
    name: Seq<char>,
    data: Seq<u8>,
) -> bool;

/// The bytes of the archive with the given files; nothing where it cannot be
/// completed.
pub uninterp spec fn zip_bytes(files: Seq<(Seq<char>, Seq<u8>)>) -> Option<Seq<u8>>;

/// `ZipWriter::new` begins an archive without files.
#[verifier::external_body]
pub(crate) fn begin() -> (r: ZipFiles)
    ensures
        files_in(r) == Seq::<(Seq<char>, Seq<u8>)>::empty(),
{
    ZipFiles { writer: zip::ZipWriter::new(std::io::Cursor::new(Vec::new())) }
}

/// `ZipWriter::start_file` with the default options and `Write::write_all` put
/// a file behind those that are there, and take no name twice. Whether they
/// succeed depends on the files alone: the default options date every file to
/// the same day. A name has at most 65535 bytes, or the call panics.
#[verifier::external_body]
pub(crate) fn put(w: ZipFiles, name: &str, data: &[u8]) -> (r: Result<
    ZipFiles,
    zip::result::ZipError,
>)
    requires
        encode_utf8(name@).len() <= 0xFFFF,
    ensures
        match r {
            Ok(next) => takes(files_in(w), name@, data@) && files_in(next) == files_in(w).push(
                (name@, data@),
            ) && (forall|j: int|
                0 <= j < files_in(w).len() ==> (#[trigger] files_in(w)[j]).0 != name@),
            Err(_) => !takes(files_in(w), name@, data@),
        },
{
    let mut w = w;
    w.writer.start_file(name, zip::write::FileOptions::<()>::default())?;
    w.writer.write_all(data)?;
    Ok(w)
}

/// `ZipWriter::finish` completes an archive. Its bytes depend on the files
/// that were put into it alone.
#[verifier::external_body]
pub(crate) fn complete(w: ZipFiles) -> (r: Result<Vec<u8>, zip::result::ZipError>)
    ensures
        match r {
            Ok(bytes) => zip_bytes(files_in(w)) == Some(bytes@),
            Err(_) => zip_bytes(files_in(w)) is None,
        },
{
    Ok(w.writer.finish()?.into_inner())
}

// ---- text in entries ----

/// Bytes that are not UTF-8, as text with replacement characters.
pub uninterp spec fn repaired_text(bytes: Seq<u8>) -> Seq<char>;

/// The text that `bytes` spell in UTF-8; what is no UTF-8 is replaced.
pub open spec fn text_of(bytes: Seq<u8>) -> Seq<char> {
    if valid_utf8(bytes) {
        decode_utf8(bytes)
    } else {
        repaired_text(bytes)
    }
}

/// `String::from_utf8_lossy` decodes UTF-8. Where the bytes are no UTF-8 it
/// puts replacement characters in; where exactly is not spelled out.
#[verifier::external_body]
pub(crate) fn lossy_text(bytes: &Vec<u8>) -> (r: String)
    ensures
        r@ == if valid_utf8(bytes@) {
            decode_utf8(bytes@)
        } else {
            repaired_text(bytes@)
        },
{
    String::from_utf8_lossy(bytes).into_owned()
}

// ---- what is found in an archive ----

proof fn lemma_named(entries: Seq<EntryView>, name: Seq<char>, n: int)
    requires
        0 <= n <= entries.len(),
    ensures
        match named(entries, name, n) {
            Some(k) => 0 <= k < n && entries[k].name == name && forall|j: int|
                0 <= j < k ==> (#[trigger] entries[j]).name != name,
            None => forall|j: int| 0 <= j < n ==> (#[trigger] entries[j]).name != name,
        },
    decreases n,
{
    if n > 0 {
        lemma_named(entries, name, n - 1);
    }
}

/// The entry that a name opens is the first one with exactly that name, where
/// that one can be opened.
pub proof fn law_opened(entries: Seq<EntryView>, k: int)
    requires
        0 <= k < entries.len(),
        forall|j: int| 0 <= j < k ==> (#[trigger] entries[j]).name != entries[k].name,
    ensures
        entries[k].opens ==> opened(entries, entries[k].name) == Some(entries[k]),
        !entries[k].opens ==> opened(entries, entries[k].name) is None,
{
    lemma_named(entries, entries[k].name, entries.len() as int);
    let f = named(entries, entries[k].name, entries.len() as int)->0;
    if f < k {
        assert(entries[f].name != entries[k].name);
    }
}

/// A name that no entry has opens nothing.
pub proof fn law_not_opened(entries: Seq<EntryView>, name: Seq<char>)
    requires
        forall|j: int| 0 <= j < entries.len() ==> (#[trigger] entries[j]).name != name,
    ensures
        opened(entries, name) is None,
{
    lemma_named(entries, name, entries.len() as int);
}

/// Bytes that are UTF-8 are read as the text they spell.
pub proof fn law_text(bytes: Seq<u8>)
    requires
        valid_utf8(bytes),
    ensures
        text_of(bytes) == decode_utf8(bytes),
{
}

} // verus!
