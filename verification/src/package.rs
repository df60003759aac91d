//! Packing plugins for a repository: the names of packages and of the files in
//! them, and the check of what was packed.

use vstd::prelude::*;
use vstd::string::*;
use vstd::utf8::*;
use crate::install::RepoEntry;
use crate::plugin::PluginManifest;
use crate::archive;
use crate::encode;
use crate::install;
use crate::text;

verus! {

/// The name of the package of a plugin.
pub open spec fn package_name(id: Seq<char>, version: Seq<char>) -> Seq<char> {
    id + "-"@ + version + ".zip"@
}

/// The name of the package of a plugin.
pub fn zip_name(id: &str, version: &str) -> (r: String)
    ensures
        r@ == package_name(id@, version@),
{
    let mut s = id.to_string();
    s.append("-");
    s.append(version);
    s.append(".zip");
    s
}

/// The name of a file in a package, from its path relative to the plugin:
/// its parts are separated by slashes on every system.
pub fn entry_name(relative: &str) -> (r: String)
    ensures
        r@ == text::replaced(relative@, "\\"@, "/"@),
{
    proof {
        reveal_strlit("\\");
    }
    text::replace(relative, "\\", "/")
}

/// A file to pack: its path relative to the plugin, and what it holds.
pub struct PackFile {
    pub path: String,
    pub data: Vec<u8>,
}

impl DeepView for PackFile {
    type V = (Seq<char>, Seq<u8>);

    open spec fn deep_view(&self) -> (Seq<char>, Seq<u8>) {
        (self.path@, self.data@)
    }
}

/// Why a plugin cannot be packed.
#[derive(Debug)]
pub enum PackError {
    /// The name of a file is too long for an archive.
    LongName(String),
    /// The archive cannot be written; the text says why.
    Zip(String),
}

/// Why a plugin cannot be packed, without the wording of the archive writer.
#[verifier::ext_equal]
pub enum PackStop {
    LongName(Seq<char>),
    Zip,
}

/// The most bytes that the name of a file in an archive may have.
pub const MAX_NAME: usize = 65535;

/// The files of a package: those of the plugin, under the names that they have
/// in the package.
pub open spec fn package_files(files: Seq<(Seq<char>, Seq<u8>)>) -> Seq<(Seq<char>, Seq<u8>)> {
    files.map_values(
        |f: (Seq<char>, Seq<u8>)| (text::replaced(f.0, "\\"@, "/"@), f.1),
    )
}

/// Why packing stops within the first `n` files, where it does.
pub open spec fn stopped_at(files: Seq<(Seq<char>, Seq<u8>)>, n: int) -> Option<PackStop>
    decreases n,
{
    if n <= 0 {
        None
    } else {
        match stopped_at(files, n - 1) {
            Some(e) => Some(e),
            None => if encode_utf8(files[n - 1].0).len() > MAX_NAME {
                Some(PackStop::LongName(files[n - 1].0))
            } else if !archive::takes(files.take(n - 1), files[n - 1].0, files[n - 1].1) {
                Some(PackStop::Zip)
            } else {
                None
            },
        }
    }
}

/// Packs the files of a plugin, in their order. A name that is too long stops
/// it, and so does a file that the archive writer refuses.
pub fn pack(files: &Vec<PackFile>) -> (r: Result<Vec<u8>, PackError>)
    ensures
        match stopped_at(package_files(files.deep_view()), files@.len() as int) {
            Some(PackStop::LongName(name)) => r matches Err(PackError::LongName(s)) && s@ == name,
            Some(PackStop::Zip) => r matches Err(PackError::Zip(_)),
            None => match archive::zip_bytes(package_files(files.deep_view())) {
                Some(bytes) => r matches Ok(b) && b@ == bytes,
                None => r matches Err(PackError::Zip(_)),
            },
        },
        r is Ok ==> forall|i: int, j: int|
            0 <= i < j < files@.len() ==> (#[trigger] package_files(files.deep_view())[i]).0 != (
            #[trigger] package_files(files.deep_view())[j]).0,
{
    let ghost all = package_files(files.deep_view());
    let mut w = archive::begin();
    let mut k: usize = 0;
    assert(all.take(0) =~= Seq::empty());
    while k < files.len()
        invariant
            all == package_files(files.deep_view()),
            k <= files.len(),
            archive::files_in(w) == all.take(k as int),
            stopped_at(all, k as int) is None,
            forall|i: int, j: int|
                0 <= i < j < k ==> (#[trigger] all[i]).0 != (#[trigger] all[j]).0,
        decreases files.len() - k,
    {
        let name = entry_name(files[k].path.as_str());
        assert(files.deep_view()[k as int] == files@[k as int].deep_view());
        assert(all[k as int] == (name@, files@[k as int].data@));
        if name.as_str().as_bytes().len() > MAX_NAME {
            proof {
                lemma_stays_stopped(all, k + 1, all.len() as int);
            }
            return Err(PackError::LongName(name));
        }
        match archive::put(w, name.as_str(), files[k].data.as_slice()) {
            Ok(next) => {
                assert(all.take(k + 1) =~= all.take(k as int).push(all[k as int]));
                assert forall|i: int| 0 <= i < k implies (#[trigger] all[i]).0 != name@ by {
                    assert(all.take(k as int)[i] == all[i]);
                }
                w = next;
            },
            Err(e) => {
                proof {
                    lemma_stays_stopped(all, k + 1, all.len() as int);
                }
                return Err(PackError::Zip(archive::error_text(&e)));
            },
        }
        k += 1;
    }
    assert(all.take(all.len() as int) =~= all);
    match archive::complete(w) {
        Ok(bytes) => Ok(bytes),
        Err(e) => Err(PackError::Zip(archive::error_text(&e))),
    }
}

proof fn lemma_stays_stopped(files: Seq<(Seq<char>, Seq<u8>)>, m: int, n: int)
    requires
        0 <= m <= n,
        stopped_at(files, m) is Some,
    ensures
        stopped_at(files, n) == stopped_at(files, m),
    decreases n - m,
{
    if m < n {
        lemma_stays_stopped(files, m, n - 1);
    }
}

/// The index entry of a packed plugin.
pub fn index_entry(m: PluginManifest, author: Option<String>, package: &[u8], base: &str) -> (r:
    RepoEntry)
    ensures
        r.id@ == m.id@,
        r.kind@ == m.kind@,
        r.version@ == m.version@,
        r.package@ == base@ + "/"@ + package_name(m.id@, m.version@),
        r.sha256@ == encode::hex_of(install::sha256_of(package@)),
        r.capabilities == m.capabilities,
        r.author == author,
        r.description == m.description,
{
    let name = zip_name(m.id.as_str(), m.version.as_str());
    let mut url = base.to_string();
    url.append("/");
    url.append(name.as_str());
    assert(url@ =~= base@ + "/"@ + package_name(m.id@, m.version@));
    RepoEntry {
        id: m.id,
        kind: m.kind,
        version: m.version,
        package: url,
        sha256: install::checksum(package),
        capabilities: m.capabilities,
        author,
        description: m.description,
    }
}

/// Does a package have the checksum that its index entry states?
pub fn check(package: &[u8], e: &RepoEntry) -> (r: bool)
    ensures
        r == (encode::hex_of(install::sha256_of(package@)) == e.sha256@),
{
    text::same(install::checksum(package).as_str(), e.sha256.as_str())
}

/// A package that was packed can be installed: its bytes pass the checksum test
/// of its own index entry.
pub proof fn law_packed_installs(package: Seq<u8>)
    ensures
        install::checksum_matches(package, encode::hex_of(install::sha256_of(package))),
{
    let s = encode::hex_of(install::sha256_of(package));
    assert forall|i: int| 0 <= i < s.len() implies #[trigger] s[i] as u32 <= 127
        && text::ascii_lowered_char(s[i]) == s[i] by {}
    assert(text::ascii_lowered(s) =~= s);
    assert(vstd::utf8::is_ascii_chars(s));
}

/// Packing keeps every file with its own bytes, in order; only the backslashes of
/// its path become slashes.
pub proof fn law_package_files(files: Seq<(Seq<char>, Seq<u8>)>)
    ensures
        package_files(files).len() == files.len(),
        forall|i: int|
            0 <= i < files.len() ==> (#[trigger] package_files(files)[i]).1 == files[i].1
                && package_files(files)[i].0 == text::replaced(files[i].0, "\\"@, "/"@),
        forall|i: int|
            0 <= i < files.len() && !text::has(files[i].0, "\\"@) ==> (
            #[trigger] package_files(files)[i]).0 == files[i].0,
{
    reveal_strlit("\\");
    assert forall|i: int|
        0 <= i < files.len() && !text::has(files[i].0, "\\"@) implies (#[trigger] package_files(
        files,
    )[i]).0 == files[i].0 by {
        text::law_replaced(files[i].0, "\\"@, "/"@);
    }
}

/// A plugin is packed exactly where no name is too long and the archive takes
/// each file after those before it; a name that is too long is told.
pub proof fn law_packed(files: Seq<(Seq<char>, Seq<u8>)>, n: int)
    requires
        0 <= n <= files.len(),
    ensures
        stopped_at(files, n) is None <==> forall|i: int|
            0 <= i < n ==> encode_utf8((#[trigger] files[i]).0).len() <= 65535 && archive::takes(
                files.take(i),
                files[i].0,
                files[i].1,
            ),
        stopped_at(files, n) matches Some(PackStop::LongName(name)) ==> encode_utf8(name).len()
            > 65535 && exists|i: int| 0 <= i < n && (#[trigger] files[i]).0 == name,
    decreases n,
{
    if n > 0 {
        law_packed(files, n - 1);
        let last = files[n - 1];
    }
}

/// The package of a plugin is named by its id and its version.
pub proof fn law_package_name(id: Seq<char>, version: Seq<char>)
    ensures
        text::occurs_at(package_name(id, version), id + "-"@ + version, 0),
        text::ends(package_name(id, version), ".zip"@),
{
    let s = package_name(id, version);
    let front = id + "-"@ + version;
    assert(s.subrange(0, front.len() as int) =~= front);
    assert(s.subrange(s.len() - ".zip"@.len(), s.len() as int) =~= ".zip"@);
}

/// What is packed passes the test of its own index entry, which names the plugin,
/// its version and where its package lies; a package of another digest does not
/// pass.
pub proof fn law_index_entry(
    m: PluginManifest,
    author: Option<String>,
    package: &[u8],
    base: &str,
    e: RepoEntry,
    other: &[u8],
    ok: bool,
    passes: bool,
)
    requires
        call_ensures(index_entry, (m, author, package, base), e),
        call_ensures(check, (package, &e), ok),
        call_ensures(check, (other, &e), passes),
    ensures
        ok,
        passes <==> install::sha256_of(other@) == install::sha256_of(package@),
        e.id@ == m.id@ && e.kind@ == m.kind@ && e.version@ == m.version@,
        e.capabilities == m.capabilities && e.description == m.description && e.author == author,
        text::occurs_at(e.package@, base@ + "/"@ + m.id@ + "-"@ + m.version@, 0),
        install::checksum_matches(package@, e.sha256@),
{
    if passes {
        encode::law_hex_injective(install::sha256_of(other@), install::sha256_of(package@));
    }
    law_packed_installs(package@);
    let front = base@ + "/"@ + m.id@ + "-"@ + m.version@;
    assert(e.package@.subrange(0, front.len() as int) =~= front);
}

} // verus!
