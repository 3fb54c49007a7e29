//! The static-assets manifest of a directory.
//!
//! Cloudflare's asset hash is `hex(sha256(base64(file_content) + extension))[..32]`
//! where `extension` is the file extension without the leading dot. The
//! manifest maps each deployable file's path (`/dir/file.ext`) to its entry,
//! sorted by path.

use vstd::prelude::*;
use vstd::utf8::encode_utf8;
use crate::encoding::{
    base64_encode, base64_standard, hex_of, is_lower_hex, lemma_hex_concat, lemma_hex_digits, push_hex, sha256,
    sha256_digest,
};
use crate::order::{compare_chars, lemma_lex_irreflexive, lemma_lex_total, lemma_lex_transitive, lex_lt, Order};
use crate::text::{chars_of, decimal, decimal_string, push_char, push_str};

verus! {

/// Most files a temporary account accepts in one deployment.
pub const MAX_FILES: usize = 1_000;

/// Largest asset a temporary account accepts (5 MiB).
pub const MAX_FILE_SIZE: u64 = 5 * 1024 * 1024;

/// One deployable file.
#[derive(Debug, Clone)]
pub struct AssetEntry {
    /// Manifest key, e.g. "/index.html"
    pub manifest_path: String,
    /// Where the file is on disk
    pub disk_path: String,
    pub hash: String,
    pub size: u64,
    /// File content, base64-encoded (kept for upload)
    pub content_b64: String,
}

/// The mathematical value of an [`AssetEntry`].
pub struct AssetEntryView {
    pub manifest_path: Seq<char>,
    pub disk_path: Seq<char>,
    pub hash: Seq<char>,
    pub size: u64,
    pub content_b64: Seq<char>,
}

impl View for AssetEntry {
    type V = AssetEntryView;

    open spec fn view(&self) -> AssetEntryView {
        AssetEntryView {
            manifest_path: self.manifest_path@,
            disk_path: self.disk_path@,
            hash: self.hash@,
            size: self.size,
            content_b64: self.content_b64@,
        }
    }
}

/// A file found under the directory, with its contents.
pub struct SourceFile {
    /// Path components relative to the directory.
    pub rel: Vec<String>,
    /// Where the file is on disk.
    pub disk_path: String,
    pub content: Vec<u8>,
}

/// The mathematical value of a [`SourceFile`].
pub struct SourceFileView {
    pub rel: Seq<Seq<char>>,
    pub disk_path: Seq<char>,
    pub content: Seq<u8>,
}

/// The characters of each string.
pub open spec fn strings_view(v: Seq<String>) -> Seq<Seq<char>> {
    v.map_values(|s: String| s@)
}

impl View for SourceFile {
    type V = SourceFileView;

    open spec fn view(&self) -> SourceFileView {
        SourceFileView { rel: strings_view(self.rel@), disk_path: self.disk_path@, content: self.content@ }
    }
}

/// The mathematical value of a list of entries.
pub open spec fn entries_view(v: Seq<AssetEntry>) -> Seq<AssetEntryView> {
    v.map_values(|e: AssetEntry| e@)
}

/// The mathematical value of a list of files.
pub open spec fn files_view(v: Seq<SourceFile>) -> Seq<SourceFileView> {
    v.map_values(|f: SourceFile| f@)
}

/// The asset hash: the first 32 lowercase hex digits of the SHA-256 of the
/// UTF-8 of the base64 content followed by the extension.
pub open spec fn asset_hash_spec(content_b64: Seq<char>, extension: Seq<char>) -> Seq<char> {
    hex_of(sha256_digest(encode_utf8(content_b64) + encode_utf8(extension))).take(32)
}

/// Cloudflare's asset hash for a file's content and extension.
pub fn asset_hash(content_b64: &str, extension: &str) -> (h: String)
    ensures
        h@ == asset_hash_spec(content_b64@, extension@),
        h@.len() == 32,
        forall|i: int| 0 <= i < 32 ==> is_lower_hex(#[trigger] h@[i]),
{
    let mut data: Vec<u8> = Vec::new();
    data.extend_from_slice(content_b64.as_bytes());
    data.extend_from_slice(extension.as_bytes());
    assert(data@ =~= encode_utf8(content_b64@) + encode_utf8(extension@));
    let digest = sha256(data.as_slice());
    let mut h = String::new();
    push_hex(&mut h, &digest.as_slice()[0..16]);
    proof {
        let d = digest@;
        lemma_hex_concat(d.take(16), d.skip(16));
        assert(d.take(16) + d.skip(16) =~= d);
        assert(d.subrange(0, 16) =~= d.take(16));
        assert(hex_of(d).take(32) =~= hex_of(d.take(16)));
        lemma_hex_digits(d.take(16));
    }
    h
}

/// Whether some path component starts with `.` (hidden files and
/// directories such as `.git` or `.DS_Store`).
pub open spec fn is_hidden_spec(rel: Seq<Seq<char>>) -> bool {
    exists|i: int| 0 <= i < rel.len() && rel[i].len() > 0 && rel[i][0] == '.'
}

/// Whether the relative path names a hidden file or lies in a hidden
/// directory.
pub fn is_hidden(rel: &[String]) -> (r: bool)
    ensures
        r == is_hidden_spec(strings_view(rel@)),
{
    let ghost rv = strings_view(rel@);
    let n = rel.len();
    for i in 0..n
        invariant
            n == rel@.len(),
            rv == strings_view(rel@),
            forall|j: int| 0 <= j < i ==> !(rv[j].len() > 0 && rv[j][0] == '.'),
    {
        let c = chars_of(rel[i].as_str());
        if c.len() > 0 && c[0] == '.' {
            assert(rv[i as int] == c@);
            return true;
        }
    }
    false
}

/// The position of the last `.` in `s`, or -1.
pub open spec fn last_dot(s: Seq<char>) -> int
    decreases s.len(),
{
    if s.len() == 0 {
        -1
    } else if s.last() == '.' {
        s.len() - 1
    } else {
        last_dot(s.drop_last())
    }
}

/// The extension of a file name, as `Path::extension` gives it, or empty
/// when there is none: the text after the last `.`, unless that dot starts
/// the name or the name is `..`.
pub open spec fn extension_spec(name: Seq<char>) -> Seq<char> {
    let i = last_dot(name);
    if i <= 0 || name == seq!['.', '.'] {
        Seq::empty()
    } else {
        name.skip(i + 1)
    }
}

/// The extension of a file name without the dot, or empty when it has none.
pub fn extension_of(name: &str) -> (ext: String)
    ensures
        ext@ == extension_spec(name@),
{
    let v = chars_of(name);
    let n = v.len();
    let mut i = n;
    assert(v@.take(n as int) =~= v@);
    while i > 0 && v[i - 1] != '.'
        invariant
            i <= n == v@.len(),
            v@ == name@,
            last_dot(v@) == last_dot(v@.take(i as int)),
        decreases i,
    {
        assert(v@.take(i as int).drop_last() =~= v@.take(i - 1));
        i = i - 1;
    }
    proof {
        assert(v@.take(n as int) =~= v@);
        if i > 0 {
            assert(v@.take(i as int).last() == '.');
        }
    }
    let mut ext = String::new();
    if i <= 1 || (n == 2 && v[0] == '.' && v[1] == '.') {
        proof {
            if n == 2 && v@[0] == '.' && v@[1] == '.' {
                assert(v@ =~= seq!['.', '.']);
            }
        }
        return ext;
    }
    proof {
        if v@ == seq!['.', '.'] {
            assert(v@.len() == 2 && v@[0] == '.' && v@[1] == '.');
        }
    }
    let mut k = i;
    while k < n
        invariant
            i <= k <= n == v@.len(),
            ext@ == v@.subrange(i as int, k as int),
        decreases n - k,
    {
        push_char(&mut ext, v[k]);
        assert(v@.subrange(i as int, k + 1) =~= v@.subrange(i as int, k as int).push(v@[k as int]));
        k = k + 1;
    }
    assert(v@.subrange(i as int, n as int) =~= v@.skip(i as int));
    ext
}

/// The components joined by `/`.
pub open spec fn join_path(rel: Seq<Seq<char>>) -> Seq<char>
    decreases rel.len(),
{
    if rel.len() == 0 {
        Seq::empty()
    } else if rel.len() == 1 {
        rel[0]
    } else {
        join_path(rel.drop_last()) + seq!['/'] + rel.last()
    }
}

/// `s` with every `\` turned into `/`.
pub open spec fn forward_slashes(s: Seq<char>) -> Seq<char> {
    s.map_values(|c: char| if c == '\\' { '/' } else { c })
}

/// The manifest key of a relative path: `/` followed by the components
/// joined by `/`, with any `\` turned into `/`.
pub open spec fn manifest_path_spec(rel: Seq<Seq<char>>) -> Seq<char> {
    seq!['/'] + forward_slashes(join_path(rel))
}

fn push_forward(out: &mut String, s: &str)
    ensures
        final(out)@ == old(out)@ + forward_slashes(s@),
{
    let v = chars_of(s);
    let n = v.len();
    for i in 0..n
        invariant
            n == v@.len(),
            v@ == s@,
            out@ == old(out)@ + forward_slashes(v@.take(i as int)),
    {
        let c = if v[i] == '\\' { '/' } else { v[i] };
        push_char(out, c);
        assert(forward_slashes(v@.take(i + 1)) =~= forward_slashes(v@.take(i as int)).push(c));
    }
    assert(v@.take(n as int) =~= v@);
}

/// The manifest key of a relative path.
pub fn manifest_path(rel: &[String]) -> (p: String)
    ensures
        p@ == manifest_path_spec(strings_view(rel@)),
{
    let ghost rv = strings_view(rel@);
    let mut p = String::new();
    push_char(&mut p, '/');
    let n = rel.len();
    for i in 0..n
        invariant
            n == rel@.len(),
            rv == strings_view(rel@),
            p@ == seq!['/'] + forward_slashes(join_path(rv.take(i as int))),
    {
        if i > 0 {
            push_char(&mut p, '/');
        }
        push_forward(&mut p, rel[i].as_str());
        proof {
            let t = rv.take(i + 1);
            assert(t.drop_last() =~= rv.take(i as int));
            if i == 0 {
                assert(forward_slashes(join_path(t)) =~= forward_slashes(rv[0]));
                assert(forward_slashes(join_path(rv.take(0))) =~= Seq::<char>::empty());
            } else {
                assert(forward_slashes(join_path(t)) =~= forward_slashes(join_path(rv.take(i as int)))
                    + seq!['/'] + forward_slashes(rv[i as int]));
            }
        }
    }
    assert(rv.take(n as int) =~= rv);
    p
}

/// The last component of a relative path, or empty.
pub open spec fn file_name_spec(rel: Seq<Seq<char>>) -> Seq<char> {
    if rel.len() > 0 {
        rel.last()
    } else {
        Seq::empty()
    }
}

/// The manifest entry of a file.
pub open spec fn entry_spec(f: SourceFileView) -> AssetEntryView {
    let b64 = base64_standard(f.content);
    AssetEntryView {
        manifest_path: manifest_path_spec(f.rel),
        disk_path: f.disk_path,
        hash: asset_hash_spec(b64, extension_spec(file_name_spec(f.rel))),
        size: f.content.len() as u64,
        content_b64: b64,
    }
}

fn make_entry(f: &SourceFile) -> (e: AssetEntry)
    ensures
        e@ == entry_spec(f@),
{
    let content_b64 = base64_encode(f.content.as_slice());
    let ext = if f.rel.len() > 0 {
        extension_of(f.rel[f.rel.len() - 1].as_str())
    } else {
        let e = String::new();
        assert(extension_spec(Seq::<char>::empty()) =~= Seq::<char>::empty());
        e
    };
    let hash = asset_hash(content_b64.as_str(), ext.as_str());
    AssetEntry {
        manifest_path: manifest_path(f.rel.as_slice()),
        disk_path: f.disk_path.clone(),
        hash,
        size: f.content.len() as u64,
        content_b64,
    }
}

/// `s` with `e` put in its place by path: replacing the entry with the same
/// path, or inserted before the first entry whose path sorts after it.
pub open spec fn sorted_insert(s: Seq<AssetEntryView>, e: AssetEntryView) -> Seq<AssetEntryView>
    decreases s.len(),
{
    if s.len() == 0 {
        seq![e]
    } else if s[0].manifest_path == e.manifest_path {
        seq![e] + s.drop_first()
    } else if lex_lt(e.manifest_path, s[0].manifest_path) {
        seq![e] + s
    } else {
        seq![s[0]] + sorted_insert(s.drop_first(), e)
    }
}

/// The manifest of the files: the entries of the files that are not hidden,
/// each path once (the last file with that path wins), sorted by path.
pub open spec fn manifest_entries(files: Seq<SourceFileView>) -> Seq<AssetEntryView>
    decreases files.len(),
{
    if files.len() == 0 {
        Seq::empty()
    } else {
        let prev = manifest_entries(files.drop_last());
        let f = files.last();
        if is_hidden_spec(f.rel) {
            prev
        } else {
            sorted_insert(prev, entry_spec(f))
        }
    }
}

/// Whether a file is deployable but too large.
pub open spec fn oversized(f: SourceFileView) -> bool {
    !is_hidden_spec(f.rel) && f.content.len() > MAX_FILE_SIZE
}

/// The position of the first oversized file, if any.
pub open spec fn first_oversized(files: Seq<SourceFileView>) -> Option<int> {
    if exists|i: int| 0 <= i < files.len() && oversized(files[i]) {
        Some(choose|i: int| 0 <= i < files.len() && oversized(files[i]) && forall|j: int| 0 <= j < i ==> !oversized(files[j]))
    } else {
        None
    }
}

proof fn lemma_first_oversized(files: Seq<SourceFileView>, i: int)
    requires
        0 <= i < files.len(),
        oversized(files[i]),
        forall|j: int| 0 <= j < i ==> !oversized(files[j]),
    ensures
        first_oversized(files) == Some(i),
{
    let w = choose|k: int| 0 <= k < files.len() && oversized(files[k]) && forall|j: int| 0 <= j < k ==> !oversized(files[j]);
    assert(0 <= w < files.len() && oversized(files[w]) && forall|j: int| 0 <= j < w ==> !oversized(files[j]));
    if w > i {
        assert(!oversized(files[i]));
    }
}

/// Why a manifest could not be built.
#[derive(Debug, Clone, PartialEq, Eq)]
pub enum ManifestError {
    /// A deployable file is larger than [`MAX_FILE_SIZE`].
    TooLarge { path: String, size: u64 },
    /// No deployable file was found in the directory.
    Empty { dir: String },
    /// More than [`MAX_FILES`] deployable files.
    TooMany(usize),
}

/// The mathematical value of a [`ManifestError`].
pub enum ManifestErrorView {
    TooLarge { path: Seq<char>, size: u64 },
    Empty { dir: Seq<char> },
    TooMany(nat),
}

impl View for ManifestError {
    type V = ManifestErrorView;

    open spec fn view(&self) -> ManifestErrorView {
        match self {
            ManifestError::TooLarge { path, size } => ManifestErrorView::TooLarge { path: path@, size: *size },
            ManifestError::Empty { dir } => ManifestErrorView::Empty { dir: dir@ },
            ManifestError::TooMany(n) => ManifestErrorView::TooMany(*n as nat),
        }
    }
}

/// The text shown for a manifest error.
pub open spec fn manifest_error_message(e: ManifestErrorView) -> Seq<char> {
    match e {
        ManifestErrorView::TooLarge { path, size } => path + " is "@ + decimal(size as nat)
            + " bytes; temporary accounts cap each asset at 5 MiB"@,
        ManifestErrorView::Empty { dir } => "no deployable files found in "@ + dir,
        ManifestErrorView::TooMany(n) => decimal(n) + " files found; temporary accounts cap deployments at "@
            + decimal(MAX_FILES as nat) + " files"@,
    }
}

impl ManifestError {
    /// The text shown for this error.
    pub fn message(&self) -> (m: String)
        ensures
            m@ == manifest_error_message(self@),
    {
        let mut m = String::new();
        match self {
            ManifestError::TooLarge { path, size } => {
                push_str(&mut m, path.as_str());
                push_str(&mut m, " is ");
                let d = decimal_string(*size as u128);
                push_str(&mut m, d.as_str());
                push_str(&mut m, " bytes; temporary accounts cap each asset at 5 MiB");
            },
            ManifestError::Empty { dir } => {
                push_str(&mut m, "no deployable files found in ");
                push_str(&mut m, dir.as_str());
            },
            ManifestError::TooMany(n) => {
                let d = decimal_string(*n as u128);
                push_str(&mut m, d.as_str());
                push_str(&mut m, " files found; temporary accounts cap deployments at ");
                let cap = decimal_string(MAX_FILES as u128);
                push_str(&mut m, cap.as_str());
                push_str(&mut m, " files");
            },
        }
        m
    }
}

/// The manifest of `files` (found under `dir`, in walk order), or why there
/// is none.
pub open spec fn build_manifest_spec(files: Seq<SourceFileView>, dir: Seq<char>) -> Result<
    Seq<AssetEntryView>,
    ManifestErrorView,
> {
    match first_oversized(files) {
        Some(i) => Err(
            ManifestErrorView::TooLarge { path: files[i].disk_path, size: files[i].content.len() as u64 },
        ),
        None => {
            let m = manifest_entries(files);
            if m.len() == 0 {
                Err(ManifestErrorView::Empty { dir })
            } else if m.len() > MAX_FILES {
                Err(ManifestErrorView::TooMany(m.len()))
            } else {
                Ok(m)
            }
        },
    }
}

/// The mathematical value of a manifest result.
pub open spec fn manifest_result_view(r: Result<Vec<AssetEntry>, ManifestError>) -> Result<
    Seq<AssetEntryView>,
    ManifestErrorView,
> {
    match r {
        Ok(v) => Ok(entries_view(v@)),
        Err(e) => Err(e@),
    }
}

proof fn lemma_sorted_insert_at(s: Seq<AssetEntryView>, e: AssetEntryView, j: int)
    requires
        0 <= j <= s.len(),
        forall|k: int| 0 <= k < j ==> lex_lt(s[k].manifest_path, e.manifest_path),
        j < s.len() ==> !lex_lt(s[j].manifest_path, e.manifest_path),
    ensures
        sorted_insert(s, e) == if j < s.len() && s[j].manifest_path == e.manifest_path {
            s.take(j) + seq![e] + s.skip(j + 1)
        } else {
            s.take(j) + seq![e] + s.skip(j)
        },
    decreases s.len(),
{
    if s.len() == 0 {
        assert(s.take(j) + seq![e] + s.skip(j) =~= seq![e]);
    } else if j == 0 {
        lemma_lex_total(s[0].manifest_path, e.manifest_path);
        if s[0].manifest_path == e.manifest_path {
            assert(s.take(0) + seq![e] + s.skip(1) =~= seq![e] + s.drop_first());
        } else {
            assert(s.take(0) + seq![e] + s.skip(0) =~= seq![e] + s);
        }
    } else {
        lemma_lex_total(s[0].manifest_path, e.manifest_path);
        lemma_lex_irreflexive(e.manifest_path);
        let t = s.drop_first();
        assert forall|k: int| 0 <= k < j - 1 implies lex_lt(t[k].manifest_path, e.manifest_path) by {
            assert(t[k] == s[k + 1]);
        }
        lemma_sorted_insert_at(t, e, j - 1);
        if j < s.len() && s[j].manifest_path == e.manifest_path {
            assert(seq![s[0]] + (t.take(j - 1) + seq![e] + t.skip(j)) =~= s.take(j) + seq![e] + s.skip(j + 1));
        } else {
            assert(seq![s[0]] + (t.take(j - 1) + seq![e] + t.skip(j - 1)) =~= s.take(j) + seq![e] + s.skip(j));
        }
    }
}

fn insert_entry(entries: &mut Vec<AssetEntry>, e: AssetEntry)
    ensures
        entries_view(final(entries)@) == sorted_insert(entries_view(old(entries)@), e@),
{
    let ghost s = entries_view(entries@);
    let key = chars_of(e.manifest_path.as_str());
    let n = entries.len();
    let mut j: usize = 0;
    let mut found_equal = false;
    while j < n
        invariant_except_break
            n == entries@.len(),
            s == entries_view(entries@),
            key@ == e.manifest_path@,
            j <= n,
            !found_equal,
            forall|k: int| 0 <= k < j ==> lex_lt(s[k].manifest_path, e@.manifest_path),
        ensures
            n == entries@.len(),
            s == entries_view(entries@),
            j <= n,
            forall|k: int| 0 <= k < j ==> lex_lt(s[k].manifest_path, e@.manifest_path),
            j < n ==> !lex_lt(s[j as int].manifest_path, e@.manifest_path),
            found_equal ==> j < n && s[j as int].manifest_path == e@.manifest_path,
            !found_equal && j < n ==> s[j as int].manifest_path != e@.manifest_path,
        decreases n - j,
    {
        let other = chars_of(entries[j].manifest_path.as_str());
        assert(other@ == s[j as int].manifest_path);
        proof {
            lemma_lex_total(s[j as int].manifest_path, e@.manifest_path);
            lemma_lex_irreflexive(e@.manifest_path);
        }
        match compare_chars(other.as_slice(), key.as_slice()) {
            Order::Less => {},
            Order::Equal => {
                found_equal = true;
                break;
            },
            Order::Greater => {
                break;
            },
        }
        j = j + 1;
    }
    proof {
        lemma_sorted_insert_at(s, e@, j as int);
    }
    if found_equal {
        entries.set(j, e);
        assert(entries_view(entries@) =~= s.take(j as int) + seq![e@] + s.skip(j + 1));
    } else {
        entries.insert(j, e);
        assert(entries_view(entries@) =~= s.take(j as int) + seq![e@] + s.skip(j as int));
    }
}

/// The sum of the entries' sizes.
pub open spec fn total_size_spec(s: Seq<AssetEntryView>) -> int
    decreases s.len(),
{
    if s.len() == 0 {
        0
    } else {
        total_size_spec(s.drop_last()) + s.last().size
    }
}

/// The total size of the entries in bytes.
pub fn total_size(entries: &[AssetEntry]) -> (t: u128)
    ensures
        t == total_size_spec(entries_view(entries@)),
{
    let ghost ev = entries_view(entries@);
    let mut t: u128 = 0;
    let n = entries.len();
    for i in 0..n
        invariant
            n == entries@.len(),
            ev == entries_view(entries@),
            t == total_size_spec(ev.take(i as int)),
            t <= i * 0xFFFF_FFFF_FFFF_FFFFu128,
    {
        assert(ev.take(i + 1).drop_last() =~= ev.take(i as int));
        assert(ev[i as int].size == entries@[i as int].size);
        let k: u128 = i as u128 + 1;
        assert(k <= 0xFFFF_FFFF_FFFF_FFFFu128);
        assert(k * 0xFFFF_FFFF_FFFF_FFFFu128 <= 0xFFFF_FFFF_FFFF_FFFFu128 * 0xFFFF_FFFF_FFFF_FFFFu128) by (nonlinear_arith)
            requires
                k <= 0xFFFF_FFFF_FFFF_FFFFu128,
        ;
        assert(i * 0xFFFF_FFFF_FFFF_FFFFu128 + 0xFFFF_FFFF_FFFF_FFFFu128 == k * 0xFFFF_FFFF_FFFF_FFFFu128) by (nonlinear_arith)
            requires
                k == i + 1,
        ;
        t = t + entries[i].size as u128;
    }
    assert(ev.take(n as int) =~= ev);
    t
}

/// Entries strictly ascending by path, so no path occurs twice.
pub open spec fn paths_ascending(s: Seq<AssetEntryView>) -> bool {
    forall|i: int, j: int| 0 <= i < j < s.len() ==> lex_lt(#[trigger] s[i].manifest_path, #[trigger] s[j].manifest_path)
}

proof fn lemma_sorted_insert_keeps(s: Seq<AssetEntryView>, e: AssetEntryView)
    requires
        paths_ascending(s),
    ensures
        paths_ascending(sorted_insert(s, e)),
        sorted_insert(s, e).contains(e),
        forall|k: int| 0 <= k < sorted_insert(s, e).len() ==> #[trigger] sorted_insert(s, e)[k] == e
            || s.contains(sorted_insert(s, e)[k]),
        forall|j: int| 0 <= j < s.len() && #[trigger] s[j].manifest_path != e.manifest_path
            ==> sorted_insert(s, e).contains(s[j]),
    decreases s.len(),
{
    let r = sorted_insert(s, e);
    if s.len() == 0 {
        assert(r[0] == e);
    } else if s[0].manifest_path == e.manifest_path {
        assert(r[0] == e);
        assert forall|i: int, j: int| 0 <= i < j < r.len() implies lex_lt(#[trigger] r[i].manifest_path, #[trigger] r[j].manifest_path) by {
            assert(r[j] == s[j]);
            if i > 0 {
                assert(r[i] == s[i]);
            }
        }
        assert forall|k: int| 0 <= k < r.len() implies #[trigger] r[k] == e || s.contains(r[k]) by {
            if k > 0 {
                assert(r[k] == s[k]);
            }
        }
        assert forall|j: int| 0 <= j < s.len() && #[trigger] s[j].manifest_path != e.manifest_path implies r.contains(s[j]) by {
            assert(r[j] == s[j]);
        }
    } else if lex_lt(e.manifest_path, s[0].manifest_path) {
        assert(r[0] == e);
        assert forall|i: int, j: int| 0 <= i < j < r.len() implies lex_lt(#[trigger] r[i].manifest_path, #[trigger] r[j].manifest_path) by {
            assert(r[j] == s[j - 1]);
            if i > 0 {
                assert(r[i] == s[i - 1]);
            } else if j > 1 {
                lemma_lex_transitive(e.manifest_path, s[0].manifest_path, s[j - 1].manifest_path);
            }
        }
        assert forall|k: int| 0 <= k < r.len() implies #[trigger] r[k] == e || s.contains(r[k]) by {
            if k > 0 {
                assert(r[k] == s[k - 1]);
            }
        }
        assert forall|j: int| 0 <= j < s.len() && #[trigger] s[j].manifest_path != e.manifest_path implies r.contains(s[j]) by {
            assert(r[j + 1] == s[j]);
        }
    } else {
        let t = s.drop_first();
        assert forall|i: int, j: int| 0 <= i < j < t.len() implies lex_lt(#[trigger] t[i].manifest_path, #[trigger] t[j].manifest_path) by {
            assert(t[i] == s[i + 1] && t[j] == s[j + 1]);
        }
        lemma_sorted_insert_keeps(t, e);
        let q = sorted_insert(t, e);
        assert(r == seq![s[0]] + q);
        lemma_lex_total(s[0].manifest_path, e.manifest_path);
        assert forall|i: int, j: int| 0 <= i < j < r.len() implies lex_lt(#[trigger] r[i].manifest_path, #[trigger] r[j].manifest_path) by {
            assert(r[j] == q[j - 1]);
            if i > 0 {
                assert(r[i] == q[i - 1]);
            } else {
                if q[j - 1] != e {
                    let m = choose|m: int| 0 <= m < t.len() && t[m] == q[j - 1];
                    assert(t[m] == s[m + 1]);
                }
            }
        }
        assert forall|k: int| 0 <= k < r.len() implies #[trigger] r[k] == e || s.contains(r[k]) by {
            if k > 0 {
                assert(r[k] == q[k - 1]);
                if q[k - 1] != e {
                    let m = choose|m: int| 0 <= m < t.len() && t[m] == q[k - 1];
                    assert(t[m] == s[m + 1]);
                }
            } else {
                assert(s[0] == r[0]);
            }
        }
        let w = choose|w: int| 0 <= w < q.len() && q[w] == e;
        assert(r[w + 1] == e);
        assert forall|j: int| 0 <= j < s.len() && #[trigger] s[j].manifest_path != e.manifest_path implies r.contains(s[j]) by {
            if j == 0 {
                assert(r[0] == s[0]);
            } else {
                assert(t[j - 1] == s[j]);
                let m = choose|m: int| 0 <= m < q.len() && q[m] == t[j - 1];
                assert(r[m + 1] == s[j]);
            }
        }
    }
}

/// Every entry of the manifest is the entry of a file that is not hidden.
pub open spec fn entries_from_files(m: Seq<AssetEntryView>, files: Seq<SourceFileView>) -> bool {
    forall|k: int| 0 <= k < m.len() ==> exists|i: int|
        0 <= i < files.len() && !is_hidden_spec(files[i].rel) && #[trigger] m[k] == entry_spec(files[i])
}

/// Every file that is not hidden has an entry under its path.
pub open spec fn files_listed(m: Seq<AssetEntryView>, files: Seq<SourceFileView>) -> bool {
    forall|i: int| 0 <= i < files.len() && !is_hidden_spec(#[trigger] files[i].rel) ==> exists|k: int|
        0 <= k < m.len() && m[k].manifest_path == manifest_path_spec(files[i].rel)
}

proof fn lemma_manifest_step(files: Seq<SourceFileView>)
    requires
        files.len() > 0,
    ensures
        manifest_entries(files) == if is_hidden_spec(files.last().rel) {
            manifest_entries(files.drop_last())
        } else {
            sorted_insert(manifest_entries(files.drop_last()), entry_spec(files.last()))
        },
{
}

proof fn lemma_manifest_sorted(files: Seq<SourceFileView>)
    ensures
        paths_ascending(manifest_entries(files)),
        entries_from_files(manifest_entries(files), files),
    decreases files.len(),
{
    if files.len() > 0 {
        let d = files.drop_last();
        lemma_manifest_sorted(d);
        lemma_manifest_step(files);
        let prev = manifest_entries(d);
        let m = manifest_entries(files);
        let f = files.last();
        let e = entry_spec(f);
        if !is_hidden_spec(f.rel) {
            lemma_sorted_insert_keeps(prev, e);
        }
        assert forall|k: int| 0 <= k < m.len() implies exists|i: int|
            0 <= i < files.len() && !is_hidden_spec(files[i].rel) && #[trigger] m[k] == entry_spec(files[i]) by {
            if !is_hidden_spec(f.rel) && m[k] == e {
                assert(files[files.len() - 1] == f);
            } else {
                let j = choose|j: int| 0 <= j < prev.len() && prev[j] == m[k];
                let i = choose|i: int| 0 <= i < d.len() && !is_hidden_spec(d[i].rel) && #[trigger] prev[j] == entry_spec(d[i]);
                assert(d[i] == files[i]);
            }
        }
    }
}

proof fn lemma_manifest_covers(files: Seq<SourceFileView>)
    ensures
        files_listed(manifest_entries(files), files),
    decreases files.len(),
{
    if files.len() > 0 {
        let d = files.drop_last();
        lemma_manifest_covers(d);
        lemma_manifest_sorted(d);
        lemma_manifest_step(files);
        let prev = manifest_entries(d);
        let m = manifest_entries(files);
        let f = files.last();
        let e = entry_spec(f);
        let n = files.len() - 1;
        if !is_hidden_spec(f.rel) {
            lemma_sorted_insert_keeps(prev, e);
        }
        assert forall|i: int| 0 <= i < files.len() && !is_hidden_spec(#[trigger] files[i].rel) implies exists|k: int|
            0 <= k < m.len() && m[k].manifest_path == manifest_path_spec(files[i].rel) by {
            if i == n {
                let w = choose|w: int| 0 <= w < m.len() && m[w] == e;
            } else {
                assert(d[i] == files[i]);
                let k0 = choose|k: int| 0 <= k < prev.len() && prev[k].manifest_path == manifest_path_spec(d[i].rel);
                if is_hidden_spec(f.rel) {
                } else if prev[k0].manifest_path == e.manifest_path {
                    let w = choose|w: int| 0 <= w < m.len() && m[w] == e;
                } else {
                    let w = choose|w: int| 0 <= w < m.len() && m[w] == prev[k0];
                }
            }
        }
    }
}

/// The manifest lists each deployable file once and nothing else: its
/// entries are strictly ascending by path (so no path occurs twice), each
/// is the entry of a file that is not hidden, and every file that is not
/// hidden has an entry under its path.
pub proof fn lemma_manifest_entries(files: Seq<SourceFileView>)
    ensures
        paths_ascending(manifest_entries(files)),
        entries_from_files(manifest_entries(files), files),
        files_listed(manifest_entries(files), files),
{
    lemma_manifest_sorted(files);
    lemma_manifest_covers(files);
}

/// An accepted manifest holds 1 to 1000 entries, ascending by path, none
/// over 5 MiB, each the entry of a file that is not hidden.
pub proof fn lemma_accepted_manifest(files: Seq<SourceFileView>, dir: Seq<char>)
    ensures
        build_manifest_spec(files, dir) matches Ok(m) ==> {
            &&& 1 <= m.len() <= MAX_FILES
            &&& paths_ascending(m)
            &&& entries_from_files(m, files)
            &&& forall|k: int| 0 <= k < m.len() ==> #[trigger] m[k].size <= MAX_FILE_SIZE
        },
{
    lemma_manifest_entries(files);
    let m = manifest_entries(files);
    if first_oversized(files) is None {
        assert forall|k: int| 0 <= k < m.len() implies #[trigger] m[k].size <= MAX_FILE_SIZE by {
            let i = choose|i: int| 0 <= i < files.len() && !is_hidden_spec(files[i].rel) && #[trigger] m[k] == entry_spec(files[i]);
            assert(!oversized(files[i]));
        }
    }
}

/// How many of the files are not hidden.
pub open spec fn visible_count(files: Seq<SourceFileView>) -> nat
    decreases files.len(),
{
    if files.len() == 0 {
        0
    } else {
        visible_count(files.drop_last()) + if is_hidden_spec(files.last().rel) {
            0nat
        } else {
            1nat
        }
    }
}

/// No two visible files share a manifest path (as with the files a
/// directory walk finds).
pub open spec fn distinct_visible_paths(files: Seq<SourceFileView>) -> bool {
    forall|i: int, j: int|
        0 <= i < j < files.len() && !is_hidden_spec(#[trigger] files[i].rel) && !is_hidden_spec(#[trigger] files[j].rel)
            ==> manifest_path_spec(files[i].rel) != manifest_path_spec(files[j].rel)
}

proof fn lemma_sorted_insert_new(s: Seq<AssetEntryView>, e: AssetEntryView)
    requires
        forall|j: int| 0 <= j < s.len() ==> #[trigger] s[j].manifest_path != e.manifest_path,
    ensures
        sorted_insert(s, e).len() == s.len() + 1,
    decreases s.len(),
{
    if s.len() > 0 && !lex_lt(e.manifest_path, s[0].manifest_path) {
        let t = s.drop_first();
        assert forall|j: int| 0 <= j < t.len() implies #[trigger] t[j].manifest_path != e.manifest_path by {
            assert(t[j] == s[j + 1]);
        }
        assert(s[0].manifest_path != e.manifest_path);
        lemma_sorted_insert_new(t, e);
    }
}

proof fn lemma_manifest_len(files: Seq<SourceFileView>)
    requires
        distinct_visible_paths(files),
    ensures
        manifest_entries(files).len() == visible_count(files),
    decreases files.len(),
{
    if files.len() > 0 {
        let d = files.drop_last();
        let n = files.len() - 1;
        assert forall|i: int, j: int|
            0 <= i < j < d.len() && !is_hidden_spec(#[trigger] d[i].rel) && !is_hidden_spec(#[trigger] d[j].rel)
                implies manifest_path_spec(d[i].rel) != manifest_path_spec(d[j].rel) by {
            assert(d[i] == files[i] && d[j] == files[j]);
        }
        lemma_manifest_len(d);
        lemma_manifest_sorted(d);
        lemma_manifest_step(files);
        let prev = manifest_entries(d);
        let f = files.last();
        if !is_hidden_spec(f.rel) {
            assert forall|j: int| 0 <= j < prev.len() implies #[trigger] prev[j].manifest_path != entry_spec(f).manifest_path by {
                let i = choose|i: int| 0 <= i < d.len() && !is_hidden_spec(d[i].rel) && #[trigger] prev[j] == entry_spec(d[i]);
                assert(d[i] == files[i]);
                assert(files[n] == f);
                assert(!is_hidden_spec(files[i].rel) && !is_hidden_spec(files[n].rel));
            }
            lemma_sorted_insert_new(prev, entry_spec(f));
        }
    }
}

/// With every visible file under its own path, the manifest has one entry
/// per visible file, and building it is refused exactly when there is no
/// visible file, more than 1000 of them, or a visible file over 5 MiB.
pub proof fn lemma_manifest_refused(files: Seq<SourceFileView>, dir: Seq<char>)
    requires
        distinct_visible_paths(files),
    ensures
        manifest_entries(files).len() == visible_count(files),
        build_manifest_spec(files, dir) is Err <==> {
            ||| visible_count(files) == 0
            ||| visible_count(files) > MAX_FILES
            ||| exists|i: int| 0 <= i < files.len() && #[trigger] oversized(files[i])
        },
{
    lemma_manifest_len(files);
}

/// Whether some component of a relative path starts with `.`.
pub open spec fn has_dot_component(rel: Seq<Seq<char>>) -> bool {
    exists|c: int| 0 <= c < rel.len() && (#[trigger] rel[c]).len() > 0 && rel[c][0] == '.'
}

/// Every file with no component starting with `.` has an entry under its
/// path.
pub open spec fn undotted_listed(m: Seq<AssetEntryView>, files: Seq<SourceFileView>) -> bool {
    forall|i: int| 0 <= i < files.len() && !has_dot_component(#[trigger] files[i].rel) ==> exists|k: int|
        0 <= k < m.len() && m[k].manifest_path == manifest_path_spec(files[i].rel)
}

/// Every entry is the entry of a file with no component starting with `.`.
pub open spec fn entries_undotted(m: Seq<AssetEntryView>, files: Seq<SourceFileView>) -> bool {
    forall|k: int| 0 <= k < m.len() ==> exists|i: int|
        0 <= i < files.len() && !has_dot_component(files[i].rel) && #[trigger] m[k] == entry_spec(files[i])
}

proof fn lemma_hidden_is_dot(r: Seq<Seq<char>>)
    ensures
        is_hidden_spec(r) <==> has_dot_component(r),
{
    if is_hidden_spec(r) {
        let c = choose|c: int| 0 <= c < r.len() && r[c].len() > 0 && r[c][0] == '.';
        assert(0 <= c < r.len() && (r[c]).len() > 0 && r[c][0] == '.');
    }
    if has_dot_component(r) {
        let c = choose|c: int| 0 <= c < r.len() && (#[trigger] r[c]).len() > 0 && r[c][0] == '.';
        assert(r[c].len() > 0 && r[c][0] == '.');
    }
}

/// A file is left out of the manifest exactly when some component of its
/// path starts with `.`: every other file (`_next/app.js` as much as
/// `index.html`) has an entry under its path, and every entry is the entry
/// of such a file.
pub proof fn lemma_only_dot_paths_left_out(files: Seq<SourceFileView>)
    ensures
        undotted_listed(manifest_entries(files), files),
        entries_undotted(manifest_entries(files), files),
{
    lemma_undotted_listed(files);
    lemma_entries_undotted(files);
}

proof fn lemma_undotted_listed(files: Seq<SourceFileView>)
    ensures
        undotted_listed(manifest_entries(files), files),
{
    lemma_manifest_covers(files);
    let m = manifest_entries(files);
    assert(files_listed(m, files));
    assert forall|i: int| 0 <= i < files.len() && !has_dot_component(#[trigger] files[i].rel) implies exists|k: int|
        0 <= k < m.len() && m[k].manifest_path == manifest_path_spec(files[i].rel) by {
        lemma_hidden_is_dot(files[i].rel);
        assert(!is_hidden_spec(files[i].rel));
    }
}

proof fn lemma_entries_undotted(files: Seq<SourceFileView>)
    ensures
        entries_undotted(manifest_entries(files), files),
{
    lemma_manifest_sorted(files);
    let m = manifest_entries(files);
    assert(entries_from_files(m, files));
    assert forall|k: int| 0 <= k < m.len() implies exists|i: int|
        0 <= i < files.len() && !has_dot_component(files[i].rel) && #[trigger] m[k] == entry_spec(files[i]) by {
        let i = choose|i: int| 0 <= i < files.len() && !is_hidden_spec(files[i].rel) && #[trigger] m[k] == entry_spec(files[i]);
        lemma_hidden_is_dot(files[i].rel);
    }
}

/// Builds the manifest from the files found under `dir`, in walk order:
/// hidden files are skipped, a deployable file over [`MAX_FILE_SIZE`] is
/// refused, the entries come sorted by path, and an empty manifest or one
/// over [`MAX_FILES`] entries is refused.
pub fn build_manifest_from(files: &[SourceFile], dir: &str) -> (r: Result<Vec<AssetEntry>, ManifestError>)
    ensures
        manifest_result_view(r) == build_manifest_spec(files_view(files@), dir@),
{
    let ghost fv = files_view(files@);
    let mut entries: Vec<AssetEntry> = Vec::new();
    let n = files.len();
    assert(fv.take(0) =~= Seq::<SourceFileView>::empty());
    assert(entries_view(entries@) =~= Seq::<AssetEntryView>::empty());
    for i in 0..n
        invariant
            n == files@.len(),
            fv == files_view(files@),
            entries_view(entries@) == manifest_entries(fv.take(i as int)),
            forall|j: int| 0 <= j < i ==> !oversized(fv[j]),
    {
        let f = &files[i];
        assert(fv[i as int] == f@);
        assert(fv.take(i + 1).drop_last() =~= fv.take(i as int));
        if !is_hidden(f.rel.as_slice()) {
            if f.content.len() as u64 > MAX_FILE_SIZE {
                proof {
                    lemma_first_oversized(fv, i as int);
                }
                return Err(
                    ManifestError::TooLarge { path: f.disk_path.clone(), size: f.content.len() as u64 },
                );
            }
            let e = make_entry(f);
            insert_entry(&mut entries, e);
        }
    }
    assert(fv.take(n as int) =~= fv);
    assert(first_oversized(fv) is None);
    if entries.len() == 0 {
        return Err(ManifestError::Empty { dir: dir.to_owned() });
    }
    if entries.len() > MAX_FILES {
        return Err(ManifestError::TooMany(entries.len()));
    }
    Ok(entries)
}

} // verus!
