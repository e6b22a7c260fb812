//! Build contexts: which files of a build directory are packaged, in what
//! order, the SHA-256 digest of their contents, and the gzip-compressed tar
//! archive handed to the engine.

use vstd::prelude::*;

use sha2::Digest;
use std::io::Write;

use crate::error::{Error, ErrorKind};
use crate::hex::{hex_of, lemma_hex_len, HexSlice};
use crate::registry::digests_file_name;

verus! {

/// One file of a build directory, as read from disk.
#[derive(Debug, Clone)]
pub struct ContextFile {
    /// Path relative to the build directory, `/`-separated.
    pub path: String,
    /// Permission bits.
    pub mode: u32,
    /// Modification time, in seconds since the Unix epoch.
    pub mtime: u64,
    pub data: Vec<u8>,
}

/// What a file contributes: its path, permission bits, modification time and bytes.
pub type FileView = (Seq<char>, u32, u64, Seq<u8>);

impl View for ContextFile {
    type V = FileView;

    open spec fn view(&self) -> FileView {
        (self.path@, self.mode, self.mtime, self.data@)
    }
}

/// A packaged build directory: a gzip-compressed tar archive, and the digest
/// of the contents of the files in it.
#[derive(Debug, Clone)]
pub struct BuildContext {
    pub archive: Vec<u8>,
    pub digest: String,
}

pub open spec fn files_view(fs: Seq<ContextFile>) -> Seq<FileView> {
    fs.map_values(|f: ContextFile| f@)
}

/// The bytes that the SHA-256 function of the `sha2` crate gives for `data`.
pub uninterp spec fn sha256_of(data: Seq<u8>) -> Seq<u8>;

/// The entries that a tar builder holds, in the order in which they were appended.
pub uninterp spec fn archive_entries(b: TarArchive) -> Seq<FileView>;

/// The bytes of a finished tar archive of `entries`.
pub uninterp spec fn tar_bytes(entries: Seq<FileView>) -> Seq<u8>;

/// Whether `tar` accepts `path` as the name of an entry: it refuses an empty
/// or absolute path, one with a `..` component or a NUL, and a long name whose
/// shortened form it cannot store. The verdict depends on the path alone.
pub uninterp spec fn tar_accepts(path: Seq<char>) -> bool;

/// The gzip stream that `flate2` produces for `data` at the default level.
pub uninterp spec fn gzip_of(data: Seq<u8>) -> Seq<u8>;

/// A tar archive under construction in memory. Verus does not accept a
/// declaration of `tar::Builder`, whose parameter is bound by `std::io::Write`,
/// so the builder is held here, out of Verus's sight.
#[verifier::external_body]
pub struct TarArchive {
    builder: tar::Builder<Vec<u8>>,
}

#[verifier::external_type_specification]
#[verifier::external_body]
pub struct ExIoError(std::io::Error);

/// Relies on `sha2::Sha256::digest`: the 32-byte SHA-256 hash of `data`.
#[verifier::external_body]
fn sha256(data: &Vec<u8>) -> (r: Vec<u8>)
    ensures
        r@ == sha256_of(data@),
        r@.len() == 32,
{
    sha2::Sha256::digest(data.as_slice()).to_vec()
}

/// Relies on `tar::Builder::new`: a builder over an empty buffer holds no entry.
#[verifier::external_body]
fn archive_new() -> (b: TarArchive)
    ensures
        archive_entries(b) == Seq::<FileView>::empty(),
{
    TarArchive { builder: tar::Builder::new(Vec::new()) }
}

/// Relies on `tar::Builder::append_data`, with a GNU header (`Header::new_gnu`)
/// that carries the file's size, mode and modification time. The buffer is a
/// `Vec`, so only tar's verdict on the path can make it fail; on success the
/// file is the builder's last entry.
#[verifier::external_body]
fn archive_append(b: &mut TarArchive, file: &ContextFile) -> (r: Result<(), std::io::Error>)
    ensures
        r is Ok <==> tar_accepts(file.path@),
        r is Ok ==> archive_entries(*final(b)) == archive_entries(*old(b)).push(file@),
{
    let mut header = tar::Header::new_gnu();
    header.set_size(file.data.len() as u64);
    header.set_mode(file.mode);
    header.set_mtime(file.mtime);
    b.builder.append_data(&mut header, file.path.as_str(), file.data.as_slice())
}

/// Relies on `tar::Builder::into_inner`: it writes the archive's end and
/// hands back the buffer; writing into a `Vec` does not fail.
#[verifier::external_body]
fn archive_finish(b: TarArchive) -> (r: Result<Vec<u8>, std::io::Error>)
    ensures
        r is Ok,
        r matches Ok(bytes) ==> bytes@ == tar_bytes(archive_entries(b)),
{
    b.builder.into_inner()
}

/// Relies on `flate2::write::GzEncoder` at `Compression::default()`: `write_all`
/// of `data`, then `finish`, which hands back the compressed stream. Its
/// header carries no time stamp and a fixed system byte, so the stream
/// depends on `data` alone. Writing into a `Vec` does not fail.
#[verifier::external_body]
fn gzip(data: &Vec<u8>) -> (r: Result<Vec<u8>, std::io::Error>)
    ensures
        r is Ok,
        r matches Ok(bytes) ==> bytes@ == gzip_of(data@),
{
    let mut encoder = flate2::write::GzEncoder::new(Vec::new(), flate2::Compression::default());
    encoder.write_all(data.as_slice())?;
    encoder.finish()
}

/// Whether the last component of `path` is the registry file's name.
pub open spec fn is_registry_file(path: Seq<char>) -> bool {
    let n = digests_file_name();
    ||| path == n
    ||| (path.len() > n.len() && path.skip(path.len() - n.len()) == n && path[path.len() - n.len() - 1] == '/')
}

/// Lexicographic order of paths, character by character.
pub open spec fn path_less(a: Seq<char>, b: Seq<char>) -> bool
    decreases a.len(),
{
    if a.len() == 0 {
        b.len() > 0
    } else if b.len() == 0 {
        false
    } else if a[0] != b[0] {
        a[0] < b[0]
    } else {
        path_less(a.drop_first(), b.drop_first())
    }
}

/// The files that a build context holds: all but the registry file.
pub open spec fn kept(fs: Seq<FileView>) -> Seq<FileView>
    decreases fs.len(),
{
    if fs.len() == 0 {
        seq![]
    } else if is_registry_file(fs[0].0) {
        kept(fs.drop_first())
    } else {
        seq![fs[0]] + kept(fs.drop_first())
    }
}

/// Where `x` goes in `s`: before the first entry whose path is not below `x`'s.
pub open spec fn insert_pos(s: Seq<FileView>, x: FileView, j: int) -> int
    decreases s.len() - j,
{
    if j >= s.len() {
        s.len() as int
    } else if !path_less(s[j].0, x.0) {
        j
    } else {
        insert_pos(s, x, j + 1)
    }
}

pub open spec fn insert_sorted(s: Seq<FileView>, x: FileView) -> Seq<FileView> {
    s.insert(insert_pos(s, x, 0), x)
}

/// The files ordered by path.
pub open spec fn sort_by_path(fs: Seq<FileView>) -> Seq<FileView>
    decreases fs.len(),
{
    if fs.len() == 0 {
        seq![]
    } else {
        insert_sorted(sort_by_path(fs.drop_first()), fs[0])
    }
}

/// The files of a build context, in the order in which they are hashed and archived.
pub open spec fn context_files(fs: Seq<FileView>) -> Seq<FileView> {
    sort_by_path(kept(fs))
}

/// The contents of `fs`, one file after the other.
pub open spec fn contents(fs: Seq<FileView>) -> Seq<u8>
    decreases fs.len(),
{
    if fs.len() == 0 {
        seq![]
    } else {
        contents(fs.drop_last()) + fs.last().3
    }
}

/// `sha256:` and the hash in lower-case hex.
pub open spec fn digest_text(hash: Seq<u8>) -> Seq<char> {
    seq!['s', 'h', 'a', '2', '5', '6', ':'] + hex_of(hash)
}

/// The digest of a build directory's files: SHA-256 over the contents of the
/// files of the context, in path order.
pub open spec fn context_digest(fs: Seq<FileView>) -> Seq<char> {
    digest_text(sha256_of(contents(context_files(fs))))
}

/// Whether the last component of `path` is the registry file's name.
pub fn registry_file(path: &str) -> (r: bool)
    ensures
        r == is_registry_file(path@),
{
    let n = path.unicode_len();
    let name = crate::registry::DIGESTS_FILE_NAME;
    proof {
        reveal_strlit(".digests");
        assert(name@ == digests_file_name());
    }
    let m: usize = 8;
    if n < m {
        return false;
    }
    let mut i: usize = 0;
    while i < m
        invariant
            n == path@.len(),
            m <= n,
            name@ == digests_file_name(),
            m == name@.len(),
            i <= m,
            forall|j: int| 0 <= j < i ==> path@[n - m + j] == name@[j],
        decreases m - i,
    {
        if path.get_char(n - m + i) != name.get_char(i) {
            proof {
                assert(path@.skip(n - m)[i as int] != digests_file_name()[i as int]);
            }
            return false;
        }
        i = i + 1;
    }
    assert(path@.skip(n - m) =~= digests_file_name());
    if n == m {
        assert(path@ =~= digests_file_name());
        true
    } else {
        path.get_char(n - m - 1) == '/'
    }
}

/// Whether `a` comes before `b` in path order.
pub fn path_is_less(a: &str, b: &str) -> (r: bool)
    ensures
        r == path_less(a@, b@),
{
    let n = a.unicode_len();
    let m = b.unicode_len();
    let mut i: usize = 0;
    assert(a@.skip(0) =~= a@ && b@.skip(0) =~= b@);
    while i < n && i < m
        invariant
            n == a@.len(),
            m == b@.len(),
            i <= n,
            i <= m,
            path_less(a@, b@) == path_less(a@.skip(i as int), b@.skip(i as int)),
        decreases n - i,
    {
        let x = a.get_char(i);
        let y = b.get_char(i);
        if x != y {
            return x < y;
        }
        proof {
            assert(a@.skip(i as int).drop_first() =~= a@.skip(i + 1));
            assert(b@.skip(i as int).drop_first() =~= b@.skip(i + 1));
        }
        i = i + 1;
    }
    i == n && i < m
}

/// Inserts `x` before the first file whose path is not below `x`'s.
fn insert_by_path(out: &mut Vec<ContextFile>, x: ContextFile)
    ensures
        files_view(final(out)@) == insert_sorted(files_view(old(out)@), x@),
{
    let ghost s = files_view(out@);
    let mut j: usize = 0;
    while j < out.len() && path_is_less(out[j].path.as_str(), x.path.as_str())
        invariant
            s == files_view(out@),
            j <= out@.len(),
            insert_pos(s, x@, 0) == insert_pos(s, x@, j as int),
        decreases out.len() - j,
    {
        j = j + 1;
    }
    out.insert(j, x);
    assert(files_view(out@) =~= s.insert(j as int, x@));
}

/// The files of a build context: the registry file left out, the rest
/// ordered by path.
pub fn select_files(files: Vec<ContextFile>) -> (r: Vec<ContextFile>)
    ensures
        files_view(r@) == context_files(files_view(files@)),
{
    let ghost orig = files_view(files@);
    let mut rest = files;
    let mut out: Vec<ContextFile> = Vec::new();
    assert(orig.skip(orig.len() as int) =~= seq![]);
    assert(files_view(out@) =~= seq![]);
    while rest.len() > 0
        invariant
            rest@.len() <= orig.len(),
            files_view(rest@) == orig.take(rest@.len() as int),
            files_view(out@) == sort_by_path(kept(orig.skip(rest@.len() as int))),
        decreases rest.len(),
    {
        let ghost i = rest@.len() - 1;
        let x = rest.pop().unwrap();
        proof {
            assert(files_view(rest@) =~= orig.take(i));
            assert(orig.take(i + 1)[i] == orig[i]);
            assert(x@ == orig[i]);
            assert(orig.skip(i).drop_first() =~= orig.skip(i + 1));
            assert(orig.skip(i)[0] == x@);
        }
        if !registry_file(x.path.as_str()) {
            insert_by_path(&mut out, x);
            proof {
                let k = kept(orig.skip(i + 1));
                assert((seq![x@] + k).drop_first() =~= k);
            }
        }
    }
    assert(orig.skip(0) =~= orig);
    out
}

/// The contents of `fs`, one file after the other.
fn concat_contents(fs: &Vec<ContextFile>) -> (r: Vec<u8>)
    ensures
        r@ == contents(files_view(fs@)),
{
    let mut out: Vec<u8> = Vec::new();
    let mut i: usize = 0;
    while i < fs.len()
        invariant
            i <= fs@.len(),
            out@ == contents(files_view(fs@).take(i as int)),
        decreases fs.len() - i,
    {
        let data = &fs[i].data;
        let ghost before = out@;
        let mut j: usize = 0;
        while j < data.len()
            invariant
                j <= data@.len(),
                out@ == before + data@.take(j as int),
            decreases data.len() - j,
        {
            out.push(data[j]);
            proof {
                assert(data@.take(j + 1) =~= data@.take(j as int).push(data@[j as int]));
            }
            j = j + 1;
        }
        proof {
            let v = files_view(fs@);
            assert(v.take(i + 1).drop_last() =~= v.take(i as int));
            assert(data@.take(data@.len() as int) =~= data@);
        }
        i = i + 1;
    }
    assert(files_view(fs@).take(fs@.len() as int) =~= files_view(fs@));
    out
}

/// The digest text of a SHA-256 hash: `sha256:` and the hash in lower-case hex.
pub fn digest_string(hash: &[u8]) -> (r: String)
    ensures
        r@ == digest_text(hash@),
{
    let mut out = String::from_str("sha256:");
    proof {
        reveal_strlit("sha256:");
    }
    out.append(HexSlice(hash).to_string().as_str());
    out
}

fn build_error(e: std::io::Error) -> (r: Error)
    ensures
        r.kind == ErrorKind::Build,
{
    Error::new(ErrorKind::Build, e.to_string())
}

/// Packages the files of a build directory.
pub struct ImageContext;

impl ImageContext {
    /// Packages `files` into a build context: the registry file is left out,
    /// the rest are archived in path order as a gzip-compressed tar, and the
    /// digest is SHA-256 over their contents in that order. Fails, with no
    /// partial archive, exactly when tar refuses the path of one of the files.
    pub fn create(files: Vec<ContextFile>) -> (r: Result<BuildContext, Error>)
        ensures
            r is Ok <==> forall|i: int|
                0 <= i < context_files(files_view(files@)).len() ==> tar_accepts(
                    (#[trigger] context_files(files_view(files@))[i]).0,
                ),
            match r {
                Ok(c) => {
                    &&& c.digest@ == context_digest(files_view(files@))
                    &&& c.digest@.len() == 71
                    &&& c.archive@ == gzip_of(tar_bytes(context_files(files_view(files@))))
                },
                Err(e) => e.kind == ErrorKind::Build,
            },
    {
        let ghost cf = context_files(files_view(files@));
        let selected = select_files(files);
        let mut archive = archive_new();
        let mut i: usize = 0;
        while i < selected.len()
            invariant
                i <= selected@.len(),
                files_view(selected@) == cf,
                cf == context_files(files_view(files@)),
                archive_entries(archive) == files_view(selected@).take(i as int),
                forall|j: int| 0 <= j < i ==> tar_accepts((#[trigger] cf[j]).0),
            decreases selected.len() - i,
        {
            match archive_append(&mut archive, &selected[i]) {
                Ok(()) => {},
                Err(e) => {
                    assert(cf[i as int] == selected@[i as int]@);
                    assert(!tar_accepts(cf[i as int].0));
                    assert(cf == context_files(files_view(files@)));
                    return Err(build_error(e));
                },
            }
            assert(cf[i as int] == selected@[i as int]@);
            proof {
                assert(files_view(selected@).take(i + 1) =~= files_view(selected@).take(i as int).push(selected@[i as int]@));
            }
            i = i + 1;
        }
        assert(files_view(selected@).take(selected@.len() as int) =~= files_view(selected@));
        let uncompressed = match archive_finish(archive) {
            Ok(bytes) => bytes,
            Err(e) => {
                return Err(build_error(e));
            },
        };
        let compressed = match gzip(&uncompressed) {
            Ok(bytes) => bytes,
            Err(e) => {
                return Err(build_error(e));
            },
        };
        let hash = sha256(&concat_contents(&selected));
        let digest = digest_string(hash.as_slice());
        proof {
            lemma_hex_len(hash@);
        }
        Ok(BuildContext { archive: compressed, digest })
    }
}

/// Two listings with the same paths and contents, file by file; they may
/// differ in permission bits and modification times.
pub open spec fn same_paths_and_contents(a: Seq<FileView>, b: Seq<FileView>) -> bool {
    &&& a.len() == b.len()
    &&& forall|i: int| 0 <= i < a.len() ==> (#[trigger] a[i]).0 == b[i].0 && a[i].3 == b[i].3
}

proof fn lemma_kept_same(a: Seq<FileView>, b: Seq<FileView>)
    requires
        same_paths_and_contents(a, b),
    ensures
        same_paths_and_contents(kept(a), kept(b)),
    decreases a.len(),
{
    if a.len() > 0 {
        assert(a[0].0 == b[0].0);
        assert forall|i: int| 0 <= i < a.len() - 1 implies (#[trigger] a.drop_first()[i]).0 == b.drop_first()[i].0
            && a.drop_first()[i].3 == b.drop_first()[i].3 by {
            assert(a[i + 1].0 == b[i + 1].0);
        }
        lemma_kept_same(a.drop_first(), b.drop_first());
        let ka = kept(a.drop_first());
        let kb = kept(b.drop_first());
        if !is_registry_file(a[0].0) {
            assert forall|i: int| 0 <= i < ka.len() + 1 implies (#[trigger] (seq![a[0]] + ka)[i]).0 == (seq![b[0]] + kb)[i].0
                && (seq![a[0]] + ka)[i].3 == (seq![b[0]] + kb)[i].3 by {
                if i > 0 {
                    assert(ka[i - 1].0 == kb[i - 1].0);
                }
            }
        }
    }
}

proof fn lemma_insert_pos_same(s: Seq<FileView>, t: Seq<FileView>, x: FileView, y: FileView, j: int)
    requires
        same_paths_and_contents(s, t),
        x.0 == y.0,
        0 <= j,
    ensures
        insert_pos(s, x, j) == insert_pos(t, y, j),
    decreases s.len() - j,
{
    if j < s.len() {
        assert(s[j].0 == t[j].0);
        lemma_insert_pos_same(s, t, x, y, j + 1);
    }
}

proof fn lemma_insert_pos_bounds(s: Seq<FileView>, x: FileView, j: int)
    requires
        0 <= j <= s.len(),
    ensures
        j <= insert_pos(s, x, j) <= s.len(),
    decreases s.len() - j,
{
    if j < s.len() {
        lemma_insert_pos_bounds(s, x, j + 1);
    }
}

proof fn lemma_sort_same(a: Seq<FileView>, b: Seq<FileView>)
    requires
        same_paths_and_contents(a, b),
    ensures
        same_paths_and_contents(sort_by_path(a), sort_by_path(b)),
    decreases a.len(),
{
    if a.len() > 0 {
        assert(a[0].0 == b[0].0);
        assert forall|i: int| 0 <= i < a.len() - 1 implies (#[trigger] a.drop_first()[i]).0 == b.drop_first()[i].0
            && a.drop_first()[i].3 == b.drop_first()[i].3 by {
            assert(a[i + 1].0 == b[i + 1].0);
        }
        lemma_sort_same(a.drop_first(), b.drop_first());
        let sa = sort_by_path(a.drop_first());
        let sb = sort_by_path(b.drop_first());
        lemma_insert_pos_same(sa, sb, a[0], b[0], 0);
        lemma_insert_pos_bounds(sa, a[0], 0);
        let p = insert_pos(sa, a[0], 0);
        let ra = sa.insert(p, a[0]);
        let rb = sb.insert(p, b[0]);
        assert forall|i: int| 0 <= i < ra.len() implies (#[trigger] ra[i]).0 == rb[i].0 && ra[i].3 == rb[i].3 by {
            if i < p {
                assert(sa[i].0 == sb[i].0);
            } else if i > p {
                assert(sa[i - 1].0 == sb[i - 1].0);
            }
        }
    }
}

proof fn lemma_contents_same(a: Seq<FileView>, b: Seq<FileView>)
    requires
        same_paths_and_contents(a, b),
    ensures
        contents(a) == contents(b),
    decreases a.len(),
{
    if a.len() > 0 {
        assert(a[a.len() - 1].3 == b[b.len() - 1].3);
        assert forall|i: int| 0 <= i < a.len() - 1 implies (#[trigger] a.drop_last()[i]).0 == b.drop_last()[i].0
            && a.drop_last()[i].3 == b.drop_last()[i].3 by {
            assert(a[i].0 == b[i].0);
        }
        lemma_contents_same(a.drop_last(), b.drop_last());
    }
}

/// The digest depends on paths and contents alone: changing only permission
/// bits or modification times leaves it as it was.
pub proof fn lemma_digest_ignores_metadata(a: Seq<FileView>, b: Seq<FileView>)
    requires
        same_paths_and_contents(a, b),
    ensures
        context_digest(a) == context_digest(b),
{
    lemma_kept_same(a, b);
    lemma_sort_same(kept(a), kept(b));
    lemma_contents_same(context_files(a), context_files(b));
}

proof fn lemma_kept_excludes(fs: Seq<FileView>)
    ensures
        forall|i: int| 0 <= i < kept(fs).len() ==> !is_registry_file((#[trigger] kept(fs)[i]).0),
    decreases fs.len(),
{
    if fs.len() > 0 {
        lemma_kept_excludes(fs.drop_first());
        let k = kept(fs.drop_first());
        if !is_registry_file(fs[0].0) {
            assert forall|i: int| 0 <= i < k.len() + 1 implies !is_registry_file((#[trigger] (seq![fs[0]] + k)[i]).0) by {
                if i > 0 {
                    assert((seq![fs[0]] + k)[i] == k[i - 1]);
                }
            }
        }
    }
}

proof fn lemma_sort_elements(fs: Seq<FileView>)
    ensures
        sort_by_path(fs).len() == fs.len(),
        forall|i: int| 0 <= i < fs.len() ==> fs.contains(#[trigger] sort_by_path(fs)[i]),
    decreases fs.len(),
{
    if fs.len() > 0 {
        let rest = fs.drop_first();
        lemma_sort_elements(rest);
        let sr = sort_by_path(rest);
        lemma_insert_pos_bounds(sr, fs[0], 0);
        let p = insert_pos(sr, fs[0], 0);
        assert forall|i: int| 0 <= i < fs.len() implies fs.contains(#[trigger] sort_by_path(fs)[i]) by {
            if i == p {
                assert(fs[0] == sort_by_path(fs)[i]);
            } else {
                let j = if i < p { i } else { i - 1 };
                assert(sort_by_path(fs)[i] == sr[j]);
                assert(rest.contains(sr[j]));
                let k = choose|k: int| 0 <= k < rest.len() && rest[k] == sr[j];
                assert(fs[k + 1] == rest[k]);
            }
        }
    }
}

/// The registry file is never hashed nor archived: no file of a build
/// context has its name.
pub proof fn lemma_registry_file_excluded(fs: Seq<FileView>)
    ensures
        forall|i: int| 0 <= i < context_files(fs).len() ==> !is_registry_file((#[trigger] context_files(fs)[i]).0),
{
    let k = kept(fs);
    lemma_kept_excludes(fs);
    lemma_sort_elements(k);
    assert forall|i: int| 0 <= i < context_files(fs).len() implies !is_registry_file((#[trigger] context_files(fs)[i]).0) by {
        assert(k.contains(context_files(fs)[i]));
        let j = choose|j: int| 0 <= j < k.len() && k[j] == context_files(fs)[i];
        assert(!is_registry_file(k[j].0));
    }
}

proof fn lemma_path_less_irreflexive(a: Seq<char>)
    ensures
        !path_less(a, a),
    decreases a.len(),
{
    if a.len() > 0 {
        lemma_path_less_irreflexive(a.drop_first());
    }
}

proof fn lemma_path_less_total(a: Seq<char>, b: Seq<char>)
    requires
        a != b,
    ensures
        path_less(a, b) || path_less(b, a),
    decreases a.len(),
{
    if a.len() > 0 && b.len() > 0 {
        if a[0] == b[0] {
            if a.drop_first() == b.drop_first() {
                assert(a =~= seq![a[0]] + a.drop_first());
                assert(b =~= seq![b[0]] + b.drop_first());
            }
            lemma_path_less_total(a.drop_first(), b.drop_first());
        }
    } else if a.len() == 0 && b.len() == 0 {
        assert(a =~= b);
    }
}

proof fn lemma_path_less_asymmetric(a: Seq<char>, b: Seq<char>)
    requires
        path_less(a, b),
    ensures
        !path_less(b, a),
    decreases a.len(),
{
    if a.len() > 0 && b.len() > 0 && a[0] == b[0] {
        lemma_path_less_asymmetric(a.drop_first(), b.drop_first());
    }
}

proof fn lemma_path_less_transitive(a: Seq<char>, b: Seq<char>, c: Seq<char>)
    requires
        path_less(a, b),
        path_less(b, c),
    ensures
        path_less(a, c),
    decreases a.len(),
{
    if a.len() > 0 && b.len() > 0 && c.len() > 0 && a[0] == b[0] && b[0] == c[0] {
        lemma_path_less_transitive(a.drop_first(), b.drop_first(), c.drop_first());
    }
}

/// No two files share a path.
pub open spec fn paths_distinct(s: Seq<FileView>) -> bool {
    forall|i: int, j: int| 0 <= i < s.len() && 0 <= j < s.len() && i != j ==> (#[trigger] s[i]).0 != (#[trigger] s[j]).0
}

/// The files are in strictly increasing path order.
pub open spec fn path_sorted(s: Seq<FileView>) -> bool {
    forall|i: int, j: int| 0 <= i < j < s.len() ==> path_less((#[trigger] s[i]).0, (#[trigger] s[j]).0)
}

/// The same files, each listed once, in some order.
pub open spec fn same_listing(a: Seq<FileView>, b: Seq<FileView>) -> bool {
    &&& paths_distinct(a)
    &&& paths_distinct(b)
    &&& forall|x: FileView| a.contains(x) <==> b.contains(x)
}

proof fn lemma_insert_pos_facts(s: Seq<FileView>, x: FileView, j: int)
    requires
        0 <= j <= s.len(),
        forall|k: int| 0 <= k < j ==> path_less((#[trigger] s[k]).0, x.0),
    ensures
        forall|k: int| 0 <= k < insert_pos(s, x, j) ==> path_less((#[trigger] s[k]).0, x.0),
        insert_pos(s, x, j) < s.len() ==> !path_less(s[insert_pos(s, x, j)].0, x.0),
    decreases s.len() - j,
{
    if j < s.len() && path_less(s[j].0, x.0) {
        lemma_insert_pos_facts(s, x, j + 1);
    }
}

proof fn lemma_insert_sorted(t: Seq<FileView>, x: FileView)
    requires
        path_sorted(t),
        forall|k: int| 0 <= k < t.len() ==> (#[trigger] t[k]).0 != x.0,
    ensures
        path_sorted(insert_sorted(t, x)),
{
    lemma_insert_pos_facts(t, x, 0);
    lemma_insert_pos_bounds(t, x, 0);
    let p = insert_pos(t, x, 0);
    let u = insert_sorted(t, x);
    if p < t.len() {
        lemma_path_less_total(t[p].0, x.0);
    }
    assert forall|i: int, k: int| 0 <= i < k < u.len() implies path_less((#[trigger] u[i]).0, (#[trigger] u[k]).0) by {
        if k < p {
            assert(u[i] == t[i] && u[k] == t[k]);
        } else if k == p {
            assert(u[i] == t[i]);
        } else if i > p {
            assert(u[i] == t[i - 1] && u[k] == t[k - 1]);
        } else if i == p {
            assert(u[k] == t[k - 1]);
            if k - 1 > p {
                lemma_path_less_transitive(x.0, t[p].0, t[k - 1].0);
            }
        } else {
            assert(u[i] == t[i] && u[k] == t[k - 1]);
        }
    }
}

proof fn lemma_sort_sorted(fs: Seq<FileView>)
    requires
        paths_distinct(fs),
    ensures
        path_sorted(sort_by_path(fs)),
        forall|x: FileView| fs.contains(x) <==> sort_by_path(fs).contains(x),
    decreases fs.len(),
{
    if fs.len() > 0 {
        let rest = fs.drop_first();
        assert(paths_distinct(rest)) by {
            assert forall|i: int, j: int| 0 <= i < rest.len() && 0 <= j < rest.len() && i != j implies (#[trigger] rest[i]).0 != (#[trigger] rest[j]).0 by {
                assert(rest[i] == fs[i + 1] && rest[j] == fs[j + 1]);
            }
        }
        lemma_sort_sorted(rest);
        lemma_sort_elements(rest);
        let sr = sort_by_path(rest);
        assert forall|k: int| 0 <= k < sr.len() implies (#[trigger] sr[k]).0 != fs[0].0 by {
            assert(rest.contains(sr[k]));
            let m = choose|m: int| 0 <= m < rest.len() && rest[m] == sr[k];
            assert(fs[m + 1] == rest[m]);
        }
        lemma_insert_sorted(sr, fs[0]);
        lemma_insert_pos_bounds(sr, fs[0], 0);
        let p = insert_pos(sr, fs[0], 0);
        let u = sort_by_path(fs);
        assert forall|x: FileView| fs.contains(x) <==> u.contains(x) by {
            if fs.contains(x) {
                let m = choose|m: int| 0 <= m < fs.len() && fs[m] == x;
                if m == 0 {
                    assert(u[p] == x);
                } else {
                    assert(rest[m - 1] == x);
                    assert(rest.contains(x));
                    assert(sr.contains(x));
                    let q = choose|q: int| 0 <= q < sr.len() && sr[q] == x;
                    if q < p {
                        assert(u[q] == x);
                    } else {
                        assert(u[q + 1] == x);
                    }
                }
            }
            if u.contains(x) {
                let q = choose|q: int| 0 <= q < u.len() && u[q] == x;
                if q == p {
                    assert(fs[0] == x);
                } else {
                    let q2 = if q < p { q } else { q - 1 };
                    assert(sr[q2] == x);
                    assert(sr.contains(x));
                    assert(rest.contains(x));
                    let m = choose|m: int| 0 <= m < rest.len() && rest[m] == x;
                    assert(fs[m + 1] == x);
                }
            }
        }
    }
}

proof fn lemma_kept_listing(fs: Seq<FileView>)
    requires
        paths_distinct(fs),
    ensures
        paths_distinct(kept(fs)),
        forall|x: FileView| kept(fs).contains(x) <==> (fs.contains(x) && !is_registry_file(x.0)),
    decreases fs.len(),
{
    if fs.len() > 0 {
        let rest = fs.drop_first();
        assert(paths_distinct(rest)) by {
            assert forall|i: int, j: int| 0 <= i < rest.len() && 0 <= j < rest.len() && i != j implies (#[trigger] rest[i]).0 != (#[trigger] rest[j]).0 by {
                assert(rest[i] == fs[i + 1] && rest[j] == fs[j + 1]);
            }
        }
        lemma_kept_listing(rest);
        let k = kept(rest);
        assert forall|x: FileView| fs.contains(x) <==> (x == fs[0] || rest.contains(x)) by {
            if fs.contains(x) {
                let m = choose|m: int| 0 <= m < fs.len() && fs[m] == x;
                if m > 0 {
                    assert(rest[m - 1] == x);
                }
            }
            if rest.contains(x) {
                let m = choose|m: int| 0 <= m < rest.len() && rest[m] == x;
                assert(fs[m + 1] == x);
            }
            if x == fs[0] {
                assert(fs[0] == x);
            }
        }
        if !is_registry_file(fs[0].0) {
            let u = seq![fs[0]] + k;
            assert forall|x: FileView| u.contains(x) <==> (x == fs[0] || k.contains(x)) by {
                if u.contains(x) {
                    let m = choose|m: int| 0 <= m < u.len() && u[m] == x;
                    if m > 0 {
                        assert(k[m - 1] == x);
                    }
                }
                if k.contains(x) {
                    let m = choose|m: int| 0 <= m < k.len() && k[m] == x;
                    assert(u[m + 1] == x);
                }
                if x == fs[0] {
                    assert(u[0] == x);
                }
            }
            assert forall|i: int, j: int| 0 <= i < u.len() && 0 <= j < u.len() && i != j implies (#[trigger] u[i]).0 != (#[trigger] u[j]).0 by {
                if i > 0 && j > 0 {
                    assert(u[i] == k[i - 1] && u[j] == k[j - 1]);
                } else {
                    let o = if i == 0 { j } else { i };
                    assert(u[o] == k[o - 1]);
                    assert(k.contains(k[o - 1]));
                    assert(rest.contains(k[o - 1]));
                    let m = choose|m: int| 0 <= m < rest.len() && rest[m] == k[o - 1];
                    assert(fs[m + 1] == rest[m]);
                }
            }
            assert forall|x: FileView| kept(fs).contains(x) <==> (fs.contains(x) && !is_registry_file(x.0)) by {
                assert(kept(fs) == u);
                if k.contains(x) {
                    assert(rest.contains(x));
                }
                if rest.contains(x) && !is_registry_file(x.0) {
                    assert(k.contains(x));
                }
            }
        } else {
            assert forall|x: FileView| kept(fs).contains(x) <==> (fs.contains(x) && !is_registry_file(x.0)) by {
                assert(kept(fs) == k);
                if k.contains(x) {
                    assert(rest.contains(x));
                }
                if rest.contains(x) && !is_registry_file(x.0) {
                    assert(k.contains(x));
                }
            }
        }
    }
}

proof fn lemma_sorted_unique(s: Seq<FileView>, t: Seq<FileView>)
    requires
        path_sorted(s),
        path_sorted(t),
        forall|x: FileView| s.contains(x) <==> t.contains(x),
    ensures
        s == t,
    decreases s.len() + t.len(),
{
    if s.len() == 0 {
        if t.len() > 0 {
            assert(t.contains(t[0]));
        }
        assert(s =~= t);
    } else if t.len() == 0 {
        assert(s.contains(s[0]));
    } else {
        assert(s.contains(s[0]) && t.contains(t[0]));
        let i = choose|i: int| 0 <= i < t.len() && t[i] == s[0];
        let j = choose|j: int| 0 <= j < s.len() && s[j] == t[0];
        if i > 0 && j > 0 {
            assert(path_less(t[0].0, t[i].0));
            assert(path_less(s[0].0, s[j].0));
            lemma_path_less_asymmetric(t[0].0, s[0].0);
        } else if i > 0 {
            assert(s[0] == t[0]);
            assert(path_less(t[0].0, t[i].0));
            lemma_path_less_irreflexive(t[0].0);
        } else if j > 0 {
            assert(path_less(s[0].0, s[j].0));
            lemma_path_less_irreflexive(s[0].0);
        }
        assert(s[0] == t[0]);
        let s1 = s.drop_first();
        let t1 = t.drop_first();
        assert forall|x: FileView| s1.contains(x) <==> t1.contains(x) by {
            if s1.contains(x) {
                let m = choose|m: int| 0 <= m < s1.len() && s1[m] == x;
                assert(s[m + 1] == x);
                assert(path_less(s[0].0, x.0));
                lemma_path_less_irreflexive(x.0);
                assert(t.contains(x));
                let q = choose|q: int| 0 <= q < t.len() && t[q] == x;
                assert(q != 0);
                assert(t1[q - 1] == x);
            }
            if t1.contains(x) {
                let m = choose|m: int| 0 <= m < t1.len() && t1[m] == x;
                assert(t[m + 1] == x);
                assert(path_less(t[0].0, x.0));
                lemma_path_less_irreflexive(x.0);
                assert(s.contains(x));
                let q = choose|q: int| 0 <= q < s.len() && s[q] == x;
                assert(q != 0);
                assert(s1[q - 1] == x);
            }
        }
        assert(path_sorted(s1)) by {
            assert forall|a: int, b: int| 0 <= a < b < s1.len() implies path_less((#[trigger] s1[a]).0, (#[trigger] s1[b]).0) by {
                assert(s1[a] == s[a + 1] && s1[b] == s[b + 1]);
            }
        }
        assert(path_sorted(t1)) by {
            assert forall|a: int, b: int| 0 <= a < b < t1.len() implies path_less((#[trigger] t1[a]).0, (#[trigger] t1[b]).0) by {
                assert(t1[a] == t[a + 1] && t1[b] == t[b + 1]);
            }
        }
        lemma_sorted_unique(s1, t1);
        assert(s =~= seq![s[0]] + s1);
        assert(t =~= seq![t[0]] + t1);
    }
}

/// The same files, listed once each in any order, make the same build
/// context: the same files in the same order, hence the same digest and the
/// same archive.
pub proof fn lemma_context_independent_of_listing_order(a: Seq<FileView>, b: Seq<FileView>)
    requires
        same_listing(a, b),
    ensures
        context_files(a) == context_files(b),
        context_digest(a) == context_digest(b),
{
    lemma_kept_listing(a);
    lemma_kept_listing(b);
    lemma_sort_sorted(kept(a));
    lemma_sort_sorted(kept(b));
    assert forall|x: FileView| context_files(a).contains(x) <==> context_files(b).contains(x) by {
        if context_files(a).contains(x) {
            assert(kept(a).contains(x));
            assert(a.contains(x));
            assert(b.contains(x));
            assert(kept(b).contains(x));
        }
        if context_files(b).contains(x) {
            assert(kept(b).contains(x));
            assert(b.contains(x));
            assert(a.contains(x));
            assert(kept(a).contains(x));
        }
    }
    lemma_sorted_unique(context_files(a), context_files(b));
}

/// Two listings with the same paths and file sizes, file by file.
pub open spec fn same_paths_and_sizes(a: Seq<FileView>, b: Seq<FileView>) -> bool {
    &&& a.len() == b.len()
    &&& forall|i: int| 0 <= i < a.len() ==> (#[trigger] a[i]).0 == b[i].0 && a[i].3.len() == b[i].3.len()
}

proof fn lemma_kept_sizes(a: Seq<FileView>, b: Seq<FileView>)
    requires
        same_paths_and_sizes(a, b),
    ensures
        same_paths_and_sizes(kept(a), kept(b)),
    decreases a.len(),
{
    if a.len() > 0 {
        assert(a[0].0 == b[0].0);
        assert forall|i: int| 0 <= i < a.len() - 1 implies (#[trigger] a.drop_first()[i]).0 == b.drop_first()[i].0
            && a.drop_first()[i].3.len() == b.drop_first()[i].3.len() by {
            assert(a[i + 1].0 == b[i + 1].0);
        }
        lemma_kept_sizes(a.drop_first(), b.drop_first());
        let ka = kept(a.drop_first());
        let kb = kept(b.drop_first());
        if !is_registry_file(a[0].0) {
            assert forall|i: int| 0 <= i < ka.len() + 1 implies (#[trigger] (seq![a[0]] + ka)[i]).0 == (seq![b[0]] + kb)[i].0
                && (seq![a[0]] + ka)[i].3.len() == (seq![b[0]] + kb)[i].3.len() by {
                if i > 0 {
                    assert(ka[i - 1].0 == kb[i - 1].0);
                }
            }
        }
    }
}

proof fn lemma_insert_pos_sizes(s: Seq<FileView>, t: Seq<FileView>, x: FileView, y: FileView, j: int)
    requires
        same_paths_and_sizes(s, t),
        x.0 == y.0,
        0 <= j,
    ensures
        insert_pos(s, x, j) == insert_pos(t, y, j),
    decreases s.len() - j,
{
    if j < s.len() {
        assert(s[j].0 == t[j].0);
        lemma_insert_pos_sizes(s, t, x, y, j + 1);
    }
}

proof fn lemma_sort_sizes(a: Seq<FileView>, b: Seq<FileView>)
    requires
        same_paths_and_sizes(a, b),
    ensures
        same_paths_and_sizes(sort_by_path(a), sort_by_path(b)),
    decreases a.len(),
{
    if a.len() > 0 {
        assert(a[0].0 == b[0].0);
        assert forall|i: int| 0 <= i < a.len() - 1 implies (#[trigger] a.drop_first()[i]).0 == b.drop_first()[i].0
            && a.drop_first()[i].3.len() == b.drop_first()[i].3.len() by {
            assert(a[i + 1].0 == b[i + 1].0);
        }
        lemma_sort_sizes(a.drop_first(), b.drop_first());
        let sa = sort_by_path(a.drop_first());
        let sb = sort_by_path(b.drop_first());
        lemma_insert_pos_sizes(sa, sb, a[0], b[0], 0);
        lemma_insert_pos_bounds(sa, a[0], 0);
        let p = insert_pos(sa, a[0], 0);
        let ra = sa.insert(p, a[0]);
        let rb = sb.insert(p, b[0]);
        assert forall|i: int| 0 <= i < ra.len() implies (#[trigger] ra[i]).0 == rb[i].0 && ra[i].3.len() == rb[i].3.len() by {
            if i < p {
                assert(sa[i].0 == sb[i].0);
            } else if i > p {
                assert(sa[i - 1].0 == sb[i - 1].0);
            }
        }
    }
}

proof fn lemma_contents_split(a: Seq<FileView>, b: Seq<FileView>)
    requires
        same_paths_and_sizes(a, b),
        contents(a) == contents(b),
    ensures
        forall|i: int| 0 <= i < a.len() ==> (#[trigger] a[i]).3 == b[i].3,
    decreases a.len(),
{
    if a.len() > 0 {
        let a0 = a.drop_last();
        let b0 = b.drop_last();
        assert forall|i: int| 0 <= i < a0.len() implies (#[trigger] a0[i]).0 == b0[i].0 && a0[i].3.len() == b0[i].3.len() by {
            assert(a[i].0 == b[i].0);
        }
        lemma_contents_len(a0, b0);
        let n = contents(a0).len() as int;
        assert(contents(a0) =~= contents(a).take(n));
        assert(contents(b0) =~= contents(b).take(n));
        assert(a.last().3 =~= contents(a).skip(n));
        assert(b.last().3 =~= contents(b).skip(n));
        lemma_contents_split(a0, b0);
        assert forall|i: int| 0 <= i < a.len() implies (#[trigger] a[i]).3 == b[i].3 by {
            if i < a0.len() {
                assert(a0[i] == a[i] && b0[i] == b[i]);
            }
        }
    }
}

proof fn lemma_contents_len(a: Seq<FileView>, b: Seq<FileView>)
    requires
        same_paths_and_sizes(a, b),
    ensures
        contents(a).len() == contents(b).len(),
    decreases a.len(),
{
    if a.len() > 0 {
        let a0 = a.drop_last();
        let b0 = b.drop_last();
        assert forall|i: int| 0 <= i < a0.len() implies (#[trigger] a0[i]).0 == b0[i].0 && a0[i].3.len() == b0[i].3.len() by {
            assert(a[i].0 == b[i].0);
        }
        assert(a[a.len() - 1].3.len() == b[b.len() - 1].3.len());
        lemma_contents_len(a0, b0);
    }
}

/// Changing the bytes of one file of the context, at the same size, changes
/// the bytes that are hashed. (That the SHA-256 digest of different bytes
/// differs is the hash function's collision resistance, which is not proved.)
pub proof fn lemma_changed_file_changes_hashed_bytes(a: Seq<FileView>, b: Seq<FileView>, k: int)
    requires
        paths_distinct(a),
        paths_distinct(b),
        same_paths_and_sizes(a, b),
        0 <= k < a.len(),
        !is_registry_file(a[k].0),
        a[k].3 != b[k].3,
    ensures
        contents(context_files(a)) != contents(context_files(b)),
{
    let ca = context_files(a);
    let cb = context_files(b);
    lemma_kept_sizes(a, b);
    lemma_sort_sizes(kept(a), kept(b));
    lemma_kept_listing(a);
    lemma_kept_listing(b);
    lemma_sort_sorted(kept(a));
    lemma_sort_sorted(kept(b));
    if contents(ca) == contents(cb) {
        lemma_contents_split(ca, cb);
        assert(a.contains(a[k]));
        assert(kept(a).contains(a[k]));
        assert(ca.contains(a[k]));
        let q = choose|q: int| 0 <= q < ca.len() && ca[q] == a[k];
        assert(cb[q].0 == a[k].0);
        assert(cb.contains(cb[q]));
        assert(kept(b).contains(cb[q]));
        assert(b.contains(cb[q]));
        let m = choose|m: int| 0 <= m < b.len() && b[m] == cb[q];
        assert(b[k].0 == a[k].0);
        assert(m == k);
        assert(ca[q].3 == cb[q].3);
    }
}

} // verus!
