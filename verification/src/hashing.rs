//! Source fingerprinting for the incremental-build decision: selects the
//! files of a plugin directory that count as sources, canonicalises their
//! order, and digests their relative paths and contents so that identical
//! directory contents always give the identical digest.
use vstd::prelude::*;
use vstd::multiset::Multiset;
use vstd::relations::sorted_by;
use crate::text::{lex_le, contains_seq, bytes_eq, bytes_le};
use crate::text::{lemma_lex_le_antisymmetric, lemma_lex_le_total, lemma_lex_le_transitive};

verus! {

/// Mathematical model of one file handed to the fingerprint: its relative
/// path inside the plugin directory and its raw content.
#[verifier::ext_equal]
pub ghost struct FileModel {
    pub path: Seq<u8>,
    pub content: Seq<u8>,
}

/// One file of a plugin directory: the path relative to the directory root
/// (separated by `/` or `\`) and the file's bytes.
pub struct SourceFile {
    pub path: Vec<u8>,
    pub content: Vec<u8>,
}

impl View for SourceFile {
    type V = FileModel;

    open spec fn view(&self) -> FileModel {
        FileModel { path: self.path@, content: self.content@ }
    }
}

impl Clone for SourceFile {
    fn clone(&self) -> (r: Self)
        ensures
            r@ == self@,
    {
        SourceFile {
            path: vstd::slice::slice_to_vec(self.path.as_slice()),
            content: vstd::slice::slice_to_vec(self.content.as_slice()),
        }
    }
}

/// The models of a list of files.
pub open spec fn files_view(s: Seq<SourceFile>) -> Seq<FileModel> {
    s.map_values(|f: SourceFile| f@)
}

/// A path separator byte.
pub open spec fn is_sep(b: u8) -> bool {
    b == '/' as u8 || b == '\\' as u8
}

/// The path with every separator written as `/`.
pub open spec fn normalize_seps(path: Seq<u8>) -> Seq<u8> {
    path.map_values(|b: u8| if is_sep(b) { '/' as u8 } else { b })
}

/// The path wrapped in separators, so that whole components can be found
/// by substring search.
pub open spec fn wrapped_path(path: Seq<u8>) -> Seq<u8> {
    seq!['/' as u8] + normalize_seps(path) + seq!['/' as u8]
}

/// Whether some whole component of the path equals `name`.
pub open spec fn has_component(path: Seq<u8>, name: Seq<u8>) -> bool {
    contains_seq(wrapped_path(path), seq!['/' as u8] + name + seq!['/' as u8])
}

/// Position just after the last separator, or 0 when there is none.
pub open spec fn file_name_start(path: Seq<u8>) -> int
    decreases path.len(),
{
    if path.len() == 0 {
        0
    } else if is_sep(path.last()) {
        path.len() as int
    } else {
        file_name_start(path.drop_last())
    }
}

/// The file name: everything after the last separator.
pub open spec fn file_name_of(path: Seq<u8>) -> Seq<u8> {
    path.skip(file_name_start(path))
}

/// The extension of a file name: what follows the last dot, provided that
/// dot is not the leading character; otherwise empty.
pub open spec fn ext_of(name: Seq<u8>) -> Seq<u8> {
    let d = last_dot(name);
    if d <= 0 {
        Seq::empty()
    } else {
        name.skip(d + 1)
    }
}

/// Index of the last dot in a name, or -1 when there is none.
pub open spec fn last_dot(name: Seq<u8>) -> int
    decreases name.len(),
{
    if name.len() == 0 {
        -1
    } else if name.last() == '.' as u8 {
        name.len() - 1
    } else {
        last_dot(name.drop_last())
    }
}

/// The extensions that count as plugin source files.
pub open spec fn is_source_ext(ext: Seq<u8>) -> bool {
    ||| ext == seq!['r' as u8, 's' as u8]
    ||| ext == seq!['j' as u8, 's' as u8, 'x' as u8]
    ||| ext == seq!['j' as u8, 's' as u8]
    ||| ext == seq!['t' as u8, 's' as u8]
    ||| ext == seq!['t' as u8, 's' as u8, 'x' as u8]
    ||| ext == seq!['j' as u8, 's' as u8, 'o' as u8, 'n' as u8]
    ||| ext == seq!['t' as u8, 'o' as u8, 'm' as u8, 'l' as u8]
    ||| ext == seq!['c' as u8, 's' as u8, 's' as u8]
    ||| ext == seq!['s' as u8, 'c' as u8, 's' as u8, 's' as u8]
}

/// Components whose subtrees are build artifacts, never sources.
pub open spec fn is_excluded_path(path: Seq<u8>) -> bool {
    ||| has_component(path, seq!['t' as u8, 'a' as u8, 'r' as u8, 'g' as u8, 'e' as u8, 't' as u8])
    ||| has_component(
        path,
        seq!['n' as u8, 'o' as u8, 'd' as u8, 'e' as u8, '_' as u8, 'm' as u8, 'o' as u8,
            'd' as u8, 'u' as u8, 'l' as u8, 'e' as u8, 's' as u8],
    )
    ||| has_component(path, seq!['.' as u8, 'g' as u8, 'i' as u8, 't' as u8])
}

/// Dependency lockfiles, excluded by exact file name.
pub open spec fn is_lock_file(name: Seq<u8>) -> bool {
    ||| name == seq!['p' as u8, 'a' as u8, 'c' as u8, 'k' as u8, 'a' as u8, 'g' as u8, 'e' as u8,
        '-' as u8, 'l' as u8, 'o' as u8, 'c' as u8, 'k' as u8, '.' as u8, 'j' as u8, 's' as u8,
        'o' as u8, 'n' as u8]
    ||| name == seq!['b' as u8, 'u' as u8, 'n' as u8, '.' as u8, 'l' as u8, 'o' as u8, 'c' as u8,
        'k' as u8, 'b' as u8]
    ||| name == seq!['C' as u8, 'a' as u8, 'r' as u8, 'g' as u8, 'o' as u8, '.' as u8, 'l' as u8,
        'o' as u8, 'c' as u8, 'k' as u8]
}

/// Whether a file takes part in the fingerprint: a source extension, not
/// under an excluded subtree, and not a lockfile.
pub open spec fn included(f: FileModel) -> bool {
    &&& is_source_ext(ext_of(file_name_of(f.path)))
    &&& !is_excluded_path(f.path)
    &&& !is_lock_file(file_name_of(f.path))
}

pub open spec fn included_fn() -> spec_fn(FileModel) -> bool {
    |f: FileModel| included(f)
}

/// Order in which files are digested: by path, ties broken by content.
pub open spec fn file_le(a: FileModel, b: FileModel) -> bool {
    if a.path != b.path {
        lex_le(a.path, b.path)
    } else {
        lex_le(a.content, b.content)
    }
}

pub open spec fn file_le_fn() -> spec_fn(FileModel, FileModel) -> bool {
    |a: FileModel, b: FileModel| file_le(a, b)
}

/// What one file feeds to the digest: its path bytes, then its content.
pub open spec fn file_bytes(f: FileModel) -> Seq<u8> {
    f.path + f.content
}

/// The byte stream fed to the digest for a list of files, in order.
pub open spec fn stream_of(files: Seq<FileModel>) -> Seq<u8>
    decreases files.len(),
{
    if files.len() == 0 {
        Seq::empty()
    } else {
        file_bytes(files.first()) + stream_of(files.drop_first())
    }
}

/// The files that take part, in canonical order.
pub open spec fn canonical_files(files: Seq<FileModel>) -> Seq<FileModel> {
    files.filter(included_fn()).sort_by(file_le_fn())
}

/// The exact byte stream that the fingerprint digests for a directory
/// listing, whatever order the listing arrived in.
pub open spec fn digest_input(files: Seq<FileModel>) -> Seq<u8> {
    stream_of(canonical_files(files))
}

/// The SHA-256 digest of a byte string.
pub uninterp spec fn sha256_of(data: Seq<u8>) -> Seq<u8>;

/// Relies on sha2's `Sha256`: the digest is a function of the input bytes
/// alone and is 32 bytes long.
#[verifier::external_body]
fn sha256_digest(data: &[u8]) -> (r: Vec<u8>)
    ensures
        r@ == sha256_of(data@),
        r@.len() == 32,
{
    let mut hasher = <sha2::Sha256 as sha2::Digest>::new();
    sha2::Digest::update(&mut hasher, data);
    sha2::Digest::finalize(hasher).to_vec()
}

/// The lower-case hexadecimal character for a value below 16.
pub open spec fn hex_char(v: u8) -> char {
    if v < 10 {
        (('0' as u8) + v) as char
    } else {
        (('a' as u8) + (v - 10)) as char
    }
}

/// Lower-case hexadecimal text of a byte string, two characters per byte.
pub open spec fn hex_str_of(data: Seq<u8>) -> Seq<char>
    decreases data.len(),
{
    if data.len() == 0 {
        Seq::empty()
    } else {
        seq![hex_char(data.first() / 16), hex_char(data.first() % 16)] + hex_str_of(
            data.drop_first(),
        )
    }
}

/// Writes a byte string as lower-case hexadecimal text.
pub fn to_hex(data: &[u8]) -> (r: String)
    ensures
        r@ == hex_str_of(data@),
{
    let mut out: String = String::new();
    let n: usize = data.len();
    let mut i: usize = 0;
    proof {
        assert(data@.skip(0) =~= data@);
    }
    while i < n
        invariant
            n == data@.len(),
            0 <= i <= n,
            hex_str_of(data@) == out@ + hex_str_of(data@.skip(i as int)),
        decreases n - i,
    {
        let b: u8 = data[i];
        let hi: u8 = b / 16;
        let lo: u8 = b % 16;
        let c_hi: char = if hi < 10 {
            (('0' as u8) + hi) as char
        } else {
            (('a' as u8) + (hi - 10)) as char
        };
        let c_lo: char = if lo < 10 {
            (('0' as u8) + lo) as char
        } else {
            (('a' as u8) + (lo - 10)) as char
        };
        crate::text::push_char(&mut out, c_hi);
        crate::text::push_char(&mut out, c_lo);
        proof {
            assert(data@.skip(i as int).first() == b);
            assert(data@.skip(i as int).drop_first() =~= data@.skip(i as int + 1));
        }
        i += 1;
    }
    proof {
        assert(data@.skip(n as int) =~= Seq::<u8>::empty());
        assert(out@ =~= hex_str_of(data@));
    }
    out
}

/// Position just after the last separator of `path`.
fn find_file_name_start(path: &[u8]) -> (r: usize)
    ensures
        r as int == file_name_start(path@),
        r <= path@.len(),
{
    let n: usize = path.len();
    let mut i: usize = n;
    proof {
        assert(path@.take(n as int) =~= path@);
    }
    loop
        invariant
            n == path@.len(),
            0 <= i <= n,
            file_name_start(path@) == file_name_start(path@.take(i as int)),
        decreases i,
    {
        if i == 0 {
            return 0;
        }
        let b: u8 = path[i - 1];
        proof {
            assert(path@.take(i as int).last() == b);
        }
        if b == '/' as u8 || b == '\\' as u8 {
            assert(file_name_start(path@.take(i as int)) == i);
            return i;
        }
        proof {
            assert(path@.take(i as int).drop_last() =~= path@.take(i as int - 1));
        }
        i -= 1;
    }
}

/// Index of the last dot of `name`, if any.
fn find_last_dot(name: &[u8]) -> (r: Option<usize>)
    ensures
        match r {
            Some(d) => last_dot(name@) == d as int && (d as int) < name@.len(),
            None => last_dot(name@) == -1,
        },
{
    let n: usize = name.len();
    let mut i: usize = n;
    proof {
        assert(name@.take(n as int) =~= name@);
    }
    loop
        invariant
            n == name@.len(),
            0 <= i <= n,
            last_dot(name@) == last_dot(name@.take(i as int)),
        decreases i,
    {
        if i == 0 {
            return None;
        }
        let b: u8 = name[i - 1];
        proof {
            assert(name@.take(i as int).last() == b);
        }
        if b == '.' as u8 {
            assert(last_dot(name@.take(i as int)) == i - 1);
            return Some(i - 1);
        }
        proof {
            assert(name@.take(i as int).drop_last() =~= name@.take(i as int - 1));
        }
        i -= 1;
    }
}

/// Whether the extension is on the source allow-list.
fn is_source_ext_exec(ext: &[u8]) -> (r: bool)
    ensures
        r == is_source_ext(ext@),
{
    let e_rs: [u8; 2] = ['r' as u8, 's' as u8];
    let e_jsx: [u8; 3] = ['j' as u8, 's' as u8, 'x' as u8];
    let e_js: [u8; 2] = ['j' as u8, 's' as u8];
    let e_ts: [u8; 2] = ['t' as u8, 's' as u8];
    let e_tsx: [u8; 3] = ['t' as u8, 's' as u8, 'x' as u8];
    let e_json: [u8; 4] = ['j' as u8, 's' as u8, 'o' as u8, 'n' as u8];
    let e_toml: [u8; 4] = ['t' as u8, 'o' as u8, 'm' as u8, 'l' as u8];
    let e_css: [u8; 3] = ['c' as u8, 's' as u8, 's' as u8];
    let e_scss: [u8; 4] = ['s' as u8, 'c' as u8, 's' as u8, 's' as u8];
    proof {
        assert(e_rs@ =~= seq!['r' as u8, 's' as u8]);
        assert(e_jsx@ =~= seq!['j' as u8, 's' as u8, 'x' as u8]);
        assert(e_js@ =~= seq!['j' as u8, 's' as u8]);
        assert(e_ts@ =~= seq!['t' as u8, 's' as u8]);
        assert(e_tsx@ =~= seq!['t' as u8, 's' as u8, 'x' as u8]);
        assert(e_json@ =~= seq!['j' as u8, 's' as u8, 'o' as u8, 'n' as u8]);
        assert(e_toml@ =~= seq!['t' as u8, 'o' as u8, 'm' as u8, 'l' as u8]);
        assert(e_css@ =~= seq!['c' as u8, 's' as u8, 's' as u8]);
        assert(e_scss@ =~= seq!['s' as u8, 'c' as u8, 's' as u8, 's' as u8]);
    }
    bytes_eq(ext, e_rs.as_slice()) || bytes_eq(ext, e_jsx.as_slice()) || bytes_eq(
        ext,
        e_js.as_slice(),
    ) || bytes_eq(ext, e_ts.as_slice()) || bytes_eq(ext, e_tsx.as_slice()) || bytes_eq(
        ext,
        e_json.as_slice(),
    ) || bytes_eq(ext, e_toml.as_slice()) || bytes_eq(ext, e_css.as_slice()) || bytes_eq(
        ext,
        e_scss.as_slice(),
    )
}

/// Whether some whole component of `path` equals `name`.
fn has_component_exec(path: &[u8], name: &[u8]) -> (r: bool)
    ensures
        r == has_component(path@, name@),
{
    let mut wp: Vec<u8> = Vec::new();
    wp.push('/' as u8);
    let n: usize = path.len();
    let mut i: usize = 0;
    while i < n
        invariant
            n == path@.len(),
            0 <= i <= n,
            wp@ =~= seq!['/' as u8] + normalize_seps(path@.take(i as int)),
        decreases n - i,
    {
        let b: u8 = path[i];
        if b == '/' as u8 || b == '\\' as u8 {
            wp.push('/' as u8);
        } else {
            wp.push(b);
        }
        proof {
            assert(path@.take(i as int + 1).drop_last() =~= path@.take(i as int));
            assert(wp@ =~= seq!['/' as u8] + normalize_seps(path@.take(i as int + 1)));
        }
        i += 1;
    }
    wp.push('/' as u8);
    proof {
        assert(path@.take(n as int) =~= path@);
        assert(wp@ =~= wrapped_path(path@));
    }
    let mut wn: Vec<u8> = Vec::new();
    wn.push('/' as u8);
    let m: usize = name.len();
    let mut j: usize = 0;
    while j < m
        invariant
            m == name@.len(),
            0 <= j <= m,
            wn@ =~= seq!['/' as u8] + name@.take(j as int),
        decreases m - j,
    {
        wn.push(name[j]);
        proof {
            assert(wn@ =~= seq!['/' as u8] + name@.take(j as int + 1));
        }
        j += 1;
    }
    wn.push('/' as u8);
    proof {
        assert(name@.take(m as int) =~= name@);
        assert(wn@ =~= seq!['/' as u8] + name@ + seq!['/' as u8]);
    }
    crate::text::contains_bytes(wp.as_slice(), wn.as_slice())
}

/// Whether `path` lies under one of the excluded subtrees.
fn is_excluded_path_exec(path: &[u8]) -> (r: bool)
    ensures
        r == is_excluded_path(path@),
{
    let c_target: [u8; 6] = ['t' as u8, 'a' as u8, 'r' as u8, 'g' as u8, 'e' as u8, 't' as u8];
    let c_nm: [u8; 12] = ['n' as u8, 'o' as u8, 'd' as u8, 'e' as u8, '_' as u8, 'm' as u8,
        'o' as u8, 'd' as u8, 'u' as u8, 'l' as u8, 'e' as u8, 's' as u8];
    let c_git: [u8; 4] = ['.' as u8, 'g' as u8, 'i' as u8, 't' as u8];
    proof {
        assert(c_target@ =~= seq!['t' as u8, 'a' as u8, 'r' as u8, 'g' as u8, 'e' as u8,
            't' as u8]);
        assert(c_nm@ =~= seq!['n' as u8, 'o' as u8, 'd' as u8, 'e' as u8, '_' as u8, 'm' as u8,
            'o' as u8, 'd' as u8, 'u' as u8, 'l' as u8, 'e' as u8, 's' as u8]);
        assert(c_git@ =~= seq!['.' as u8, 'g' as u8, 'i' as u8, 't' as u8]);
    }
    has_component_exec(path, c_target.as_slice()) || has_component_exec(path, c_nm.as_slice())
        || has_component_exec(path, c_git.as_slice())
}

/// Whether the file name is one of the lockfile names.
fn is_lock_file_exec(name: &[u8]) -> (r: bool)
    ensures
        r == is_lock_file(name@),
{
    let l_pkg: [u8; 17] = ['p' as u8, 'a' as u8, 'c' as u8, 'k' as u8, 'a' as u8, 'g' as u8,
        'e' as u8, '-' as u8, 'l' as u8, 'o' as u8, 'c' as u8, 'k' as u8, '.' as u8, 'j' as u8,
        's' as u8, 'o' as u8, 'n' as u8];
    let l_bun: [u8; 9] = ['b' as u8, 'u' as u8, 'n' as u8, '.' as u8, 'l' as u8, 'o' as u8,
        'c' as u8, 'k' as u8, 'b' as u8];
    let l_cargo: [u8; 10] = ['C' as u8, 'a' as u8, 'r' as u8, 'g' as u8, 'o' as u8, '.' as u8,
        'l' as u8, 'o' as u8, 'c' as u8, 'k' as u8];
    proof {
        assert(l_pkg@ =~= seq!['p' as u8, 'a' as u8, 'c' as u8, 'k' as u8, 'a' as u8, 'g' as u8,
            'e' as u8, '-' as u8, 'l' as u8, 'o' as u8, 'c' as u8, 'k' as u8, '.' as u8,
            'j' as u8, 's' as u8, 'o' as u8, 'n' as u8]);
        assert(l_bun@ =~= seq!['b' as u8, 'u' as u8, 'n' as u8, '.' as u8, 'l' as u8, 'o' as u8,
            'c' as u8, 'k' as u8, 'b' as u8]);
        assert(l_cargo@ =~= seq!['C' as u8, 'a' as u8, 'r' as u8, 'g' as u8, 'o' as u8, '.' as u8,
            'l' as u8, 'o' as u8, 'c' as u8, 'k' as u8]);
    }
    bytes_eq(name, l_pkg.as_slice()) || bytes_eq(name, l_bun.as_slice()) || bytes_eq(
        name,
        l_cargo.as_slice(),
    )
}

/// Whether one file takes part in the fingerprint.
pub fn file_included(f: &SourceFile) -> (r: bool)
    ensures
        r == included(f@),
{
    let path: &[u8] = f.path.as_slice();
    let start: usize = find_file_name_start(path);
    let name: &[u8] = &path[start..path.len()];
    proof {
        assert(name@ =~= file_name_of(f.path@));
    }
    let ext_ok: bool = match find_last_dot(name) {
        Some(d) => {
            if d > 0 {
                let ext: &[u8] = &name[d + 1..name.len()];
                proof {
                    assert(ext@ =~= ext_of(file_name_of(f.path@)));
                }
                is_source_ext_exec(ext)
            } else {
                let ext: &[u8] = &name[0..0];
                proof {
                    assert(ext@ =~= ext_of(file_name_of(f.path@)));
                }
                is_source_ext_exec(ext)
            }
        },
        None => {
            let ext: &[u8] = &name[0..0];
            proof {
                assert(ext@ =~= ext_of(file_name_of(f.path@)));
            }
            is_source_ext_exec(ext)
        },
    };
    ext_ok && !is_excluded_path_exec(path) && !is_lock_file_exec(name)
}

pub proof fn lemma_file_le_total(a: FileModel, b: FileModel)
    ensures
        file_le(a, b) || file_le(b, a),
{
    if a.path == b.path {
        lemma_lex_le_total(a.content, b.content);
    } else {
        lemma_lex_le_total(a.path, b.path);
    }
}

pub proof fn lemma_file_le_antisymmetric(a: FileModel, b: FileModel)
    requires
        file_le(a, b),
        file_le(b, a),
    ensures
        a == b,
{
    if a.path == b.path {
        lemma_lex_le_antisymmetric(a.content, b.content);
        assert(a =~= b);
    } else {
        lemma_lex_le_antisymmetric(a.path, b.path);
    }
}

pub proof fn lemma_file_le_transitive(a: FileModel, b: FileModel, c: FileModel)
    requires
        file_le(a, b),
        file_le(b, c),
    ensures
        file_le(a, c),
{
    if a.path == b.path && b.path == c.path {
        lemma_lex_le_transitive(a.content, b.content, c.content);
    } else if a.path == b.path {
        assert(file_le(a, c));
    } else if b.path == c.path {
        assert(file_le(a, c));
    } else {
        lemma_lex_le_transitive(a.path, b.path, c.path);
        if a.path == c.path {
            lemma_lex_le_antisymmetric(a.path, b.path);
        }
    }
}

/// Two sequences sorted by an antisymmetric order and holding the same
/// multiset of elements are the same sequence.
pub proof fn lemma_sorted_by_unique<T>(s1: Seq<T>, s2: Seq<T>, leq: spec_fn(T, T) -> bool)
    requires
        sorted_by(s1, leq),
        sorted_by(s2, leq),
        forall|x: T, y: T| #![trigger leq(x, y), leq(y, x)] leq(x, y) && leq(y, x) ==> x == y,
        s1.to_multiset() == s2.to_multiset(),
    ensures
        s1 == s2,
    decreases s1.len(),
{
    vstd::seq_lib::to_multiset_len(s1);
    vstd::seq_lib::to_multiset_len(s2);
    if s1.len() == 0 {
        assert(s1 =~= s2);
    } else {
        assert(s1.contains(s1[0])) by {
            assert(0 <= 0 < s1.len() && s1[0] == s1[0]);
        }
        assert(s2.contains(s2[0])) by {
            assert(0 <= 0 < s2.len() && s2[0] == s2[0]);
        }
        vstd::seq_lib::to_multiset_contains(s1, s1[0]);
        vstd::seq_lib::to_multiset_contains(s2, s1[0]);
        vstd::seq_lib::to_multiset_contains(s1, s2[0]);
        vstd::seq_lib::to_multiset_contains(s2, s2[0]);
        assert(s2.contains(s1[0]));
        assert(s1.contains(s2[0]));
        let j = choose|j: int| 0 <= j < s2.len() && s2[j] == s1[0];
        let i = choose|i: int| 0 <= i < s1.len() && s1[i] == s2[0];
        assert(s1[0] == s2[0]) by {
            if i > 0 && j > 0 {
                assert(leq(s2[0], s2[j]));
                assert(leq(s1[0], s1[i]));
            }
        }
        let t1 = s1.remove(0);
        let t2 = s2.remove(0);
        vstd::seq_lib::to_multiset_remove(s1, 0);
        vstd::seq_lib::to_multiset_remove(s2, 0);
        s1.remove_ensures(0);
        s2.remove_ensures(0);
        assert(sorted_by(t1, leq)) by {
            assert forall|p: int, q: int| 0 <= p < q < t1.len() implies #[trigger] leq(
                t1[p],
                t1[q],
            ) by {
                assert(t1[p] == s1[p + 1]);
                assert(t1[q] == s1[q + 1]);
                assert(leq(s1[p + 1], s1[q + 1]));
            }
        }
        assert(sorted_by(t2, leq)) by {
            assert forall|p: int, q: int| 0 <= p < q < t2.len() implies #[trigger] leq(
                t2[p],
                t2[q],
            ) by {
                assert(t2[p] == s2[p + 1]);
                assert(t2[q] == s2[q + 1]);
                assert(leq(s2[p + 1], s2[q + 1]));
            }
        }
        lemma_sorted_by_unique(t1, t2, leq);
        assert(s1 =~= s2) by {
            assert forall|k: int| 0 <= k < s1.len() implies s1[k] == s2[k] by {
                if k > 0 {
                    assert(t1[k - 1] == s1[k]);
                    assert(t2[k - 1] == s2[k]);
                }
            }
        }
    }
}

/// Filtering commutes with reordering: sequences holding the same multiset
/// keep the same multiset after filtering.
pub proof fn lemma_filter_multiset_eq<A>(s1: Seq<A>, s2: Seq<A>, p: spec_fn(A) -> bool)
    requires
        s1.to_multiset() == s2.to_multiset(),
    ensures
        s1.filter(p).to_multiset() == s2.filter(p).to_multiset(),
    decreases s1.len(),
{
    broadcast use vstd::multiset::group_multiset_axioms;

    vstd::seq_lib::to_multiset_len(s1);
    vstd::seq_lib::to_multiset_len(s2);
    if s1.len() == 0 {
        assert(s2.len() == 0);
        assert(s1 =~= s2);
    } else {
        let x = s1.last();
        assert(s1.contains(x)) by {
            assert(0 <= s1.len() - 1 < s1.len() && s1[s1.len() - 1] == x);
        }
        vstd::seq_lib::to_multiset_contains(s1, x);
        vstd::seq_lib::to_multiset_contains(s2, x);
        assert(s2.contains(x));
        let j = choose|j: int| 0 <= j < s2.len() && s2[j] == x;
        let t1 = s1.drop_last();
        let t2 = s2.remove(j);
        assert(t1 =~= s1.remove(s1.len() - 1));
        vstd::seq_lib::to_multiset_remove(s1, s1.len() - 1);
        vstd::seq_lib::to_multiset_remove(s2, j);
        assert(t1.to_multiset() =~= s1.to_multiset().remove(x));
        assert(t2.to_multiset() =~= s2.to_multiset().remove(x));
        lemma_filter_multiset_eq(t1, t2, p);
        assert(s1.filter(p) == if p(x) {
            t1.filter(p).push(x)
        } else {
            t1.filter(p)
        }) by {
            reveal(Seq::filter);
        }
        let a = s2.subrange(0, j);
        let b = s2.subrange(j + 1, s2.len() as int);
        assert(s2 =~= a + seq![x] + b);
        assert(t2 == a + b);
        assert(s2.filter(p) == (a + seq![x]).filter(p) + b.filter(p)) by {
            Seq::filter_distributes_over_add(a + seq![x], b, p);
        }
        assert((a + seq![x]).filter(p) == a.filter(p) + seq![x].filter(p)) by {
            Seq::filter_distributes_over_add(a, seq![x], p);
        }
        assert(t2.filter(p) == a.filter(p) + b.filter(p)) by {
            Seq::filter_distributes_over_add(a, b, p);
        }
        lemma_filter_singleton(x, p);
        if p(x) {
            vstd::seq_lib::to_multiset_build(t1.filter(p), x);
            assert(s1.filter(p).to_multiset() =~= t1.filter(p).to_multiset().insert(x));
            vstd::seq_lib::lemma_multiset_commutative(a.filter(p) + seq![x], b.filter(p));
            vstd::seq_lib::lemma_multiset_commutative(a.filter(p), seq![x]);
            vstd::seq_lib::lemma_multiset_commutative(a.filter(p), b.filter(p));
            assert(seq![x].to_multiset() =~= Multiset::<A>::empty().insert(x)) by {
                vstd::seq_lib::to_multiset_build(Seq::<A>::empty(), x);
                vstd::seq_lib::to_multiset_len(Seq::<A>::empty());
                vstd::multiset::lemma_multiset_empty_len(Seq::<A>::empty().to_multiset());
                assert(Seq::<A>::empty().push(x) =~= seq![x]);
            }
            assert(s2.filter(p) == a.filter(p) + seq![x] + b.filter(p));
            assert((a.filter(p) + seq![x] + b.filter(p)).to_multiset() =~= a.filter(
                p,
            ).to_multiset().add(seq![x].to_multiset()).add(b.filter(p).to_multiset()));
            assert(t2.filter(p).to_multiset() =~= a.filter(p).to_multiset().add(
                b.filter(p).to_multiset(),
            ));
            assert(s2.filter(p).to_multiset() =~= t2.filter(p).to_multiset().insert(x));
        } else {
            assert(s2.filter(p) =~= t2.filter(p));
        }
    }
}

/// Filtering a one-element sequence.
proof fn lemma_filter_singleton<A>(x: A, p: spec_fn(A) -> bool)
    ensures
        seq![x].filter(p) == if p(x) {
            seq![x]
        } else {
            Seq::<A>::empty()
        },
{
    reveal(Seq::filter);
    assert(seq![x].drop_last() =~= Seq::<A>::empty());
    assert(Seq::<A>::empty().filter(p) =~= Seq::<A>::empty());
    if p(x) {
        assert(seq![x].filter(p) =~= Seq::<A>::empty().push(x));
        assert(Seq::<A>::empty().push(x) =~= seq![x]);
    }
}

/// Appending one element to a filtered sequence.
proof fn lemma_filter_push<A>(s: Seq<A>, x: A, p: spec_fn(A) -> bool)
    ensures
        s.push(x).filter(p) == if p(x) {
            s.filter(p).push(x)
        } else {
            s.filter(p)
        },
{
    reveal(Seq::filter);
    assert(s.push(x).drop_last() =~= s);
    assert(s.push(x).last() == x);
}

/// The digest stream of a concatenation.
pub proof fn lemma_stream_add(a: Seq<FileModel>, b: Seq<FileModel>)
    ensures
        stream_of(a + b) == stream_of(a) + stream_of(b),
    decreases a.len(),
{
    if a.len() == 0 {
        assert(a + b =~= b);
        assert(stream_of(a) + stream_of(b) =~= stream_of(b));
    } else {
        assert((a + b).first() == a.first());
        assert((a + b).drop_first() =~= a.drop_first() + b);
        lemma_stream_add(a.drop_first(), b);
        assert(stream_of(a + b) =~= stream_of(a) + stream_of(b));
    }
}

/// The digest stream after one more file.
pub proof fn lemma_stream_push(s: Seq<FileModel>, f: FileModel)
    ensures
        stream_of(s.push(f)) == stream_of(s) + file_bytes(f),
{
    assert(s.push(f) =~= s + seq![f]);
    lemma_stream_add(s, seq![f]);
    assert(seq![f].drop_first() =~= Seq::<FileModel>::empty());
    assert(seq![f].first() == f);
    assert(stream_of(Seq::<FileModel>::empty()) == Seq::<u8>::empty());
    assert(stream_of(seq![f]) =~= file_bytes(f));
    assert(stream_of(s) + stream_of(seq![f]) =~= stream_of(s) + file_bytes(f));
}

/// The canonical file order is a total order.
pub proof fn lemma_file_le_total_ordering()
    ensures
        vstd::relations::total_ordering(file_le_fn()),
{
    let leq = file_le_fn();
    assert(vstd::relations::reflexive(leq)) by {
        assert forall|x: FileModel| #[trigger] leq(x, x) by {
            crate::text::lemma_lex_le_reflexive(x.content);
        }
    }
    assert(vstd::relations::antisymmetric(leq)) by {
        assert forall|x: FileModel, y: FileModel| #[trigger] leq(x, y) && #[trigger] leq(
            y,
            x,
        ) implies x == y by {
            lemma_file_le_antisymmetric(x, y);
        }
    }
    assert(vstd::relations::transitive(leq)) by {
        assert forall|x: FileModel, y: FileModel, z: FileModel|
            #[trigger] leq(x, y) && #[trigger] leq(y, z) implies leq(x, z) by {
            lemma_file_le_transitive(x, y, z);
        }
    }
    assert(vstd::relations::strongly_connected(leq)) by {
        assert forall|x: FileModel, y: FileModel| #[trigger] leq(x, y) || #[trigger] leq(
            y,
            x,
        ) by {
            lemma_file_le_total(x, y);
        }
    }
}

/// The digest stream of a single file.
proof fn lemma_stream_singleton(f: FileModel)
    ensures
        stream_of(seq![f]) == file_bytes(f),
{
    assert(seq![f].drop_first() =~= Seq::<FileModel>::empty());
    assert(seq![f].first() == f);
    assert(stream_of(Seq::<FileModel>::empty()) == Seq::<u8>::empty());
    assert(stream_of(seq![f]) =~= file_bytes(f));
}

/// Filtering keeps a sequence whose elements all pass.
proof fn lemma_filter_all<A>(s: Seq<A>, p: spec_fn(A) -> bool)
    requires
        forall|k: int| 0 <= k < s.len() ==> p(#[trigger] s[k]),
    ensures
        s.filter(p) == s,
    decreases s.len(),
{
    reveal(Seq::filter);
    if s.len() > 0 {
        lemma_filter_all(s.drop_last(), p);
        assert(s.drop_last().push(s.last()) =~= s);
    }
}

/// Hashing is invariant to filesystem enumeration order: two directory
/// listings holding the same files, in whatever order, are digested
/// identically, so their fingerprints agree.
pub proof fn lemma_digest_order_invariant(files1: Seq<FileModel>, files2: Seq<FileModel>)
    requires
        files1.to_multiset() == files2.to_multiset(),
    ensures
        digest_input(files1) == digest_input(files2),
{
    lemma_filter_multiset_eq(files1, files2, included_fn());
    lemma_file_le_total_ordering();
    files1.filter(included_fn()).lemma_sort_by_ensures(file_le_fn());
    files2.filter(included_fn()).lemma_sort_by_ensures(file_le_fn());
    assert forall|x: FileModel, y: FileModel|
        #![trigger file_le_fn()(x, y), file_le_fn()(y, x)]
        file_le_fn()(x, y) && file_le_fn()(y, x) implies x == y by {
        lemma_file_le_antisymmetric(x, y);
    }
    lemma_sorted_by_unique(
        files1.filter(included_fn()).sort_by(file_le_fn()),
        files2.filter(included_fn()).sort_by(file_le_fn()),
        file_le_fn(),
    );
}

/// Files under excluded directories and exact-match lockfile names never
/// influence the digest: adding such a file anywhere in the listing leaves
/// the digested input unchanged.
pub proof fn lemma_excluded_no_influence(files: Seq<FileModel>, f: FileModel, i: int)
    requires
        0 <= i <= files.len(),
        !included(f),
    ensures
        digest_input(files.insert(i, f)) == digest_input(files),
{
    let p = included_fn();
    let a = files.subrange(0, i);
    let b = files.subrange(i, files.len() as int);
    assert(files =~= a + b);
    assert(files.insert(i, f) =~= a + seq![f] + b);
    Seq::filter_distributes_over_add(a + seq![f], b, p);
    Seq::filter_distributes_over_add(a, seq![f], p);
    Seq::filter_distributes_over_add(a, b, p);
    lemma_filter_singleton(f, p);
    assert(!p(f));
    assert((a + seq![f]).filter(p) =~= a.filter(p));
    assert(files.insert(i, f).filter(p) =~= files.filter(p));
}

/// A directory listing in canonical form — every file included, already in
/// canonical order — is digested exactly as it stands.
pub proof fn lemma_digest_input_canonical(files: Seq<FileModel>)
    requires
        sorted_by(files, file_le_fn()),
        forall|k: int| 0 <= k < files.len() ==> included(#[trigger] files[k]),
    ensures
        digest_input(files) == stream_of(files),
{
    assert forall|k: int| 0 <= k < files.len() implies included_fn()(#[trigger] files[k]) by {
        assert(included(files[k]));
    }
    lemma_filter_all(files, included_fn());
    lemma_file_le_total_ordering();
    files.lemma_sort_by_ensures(file_le_fn());
    assert forall|x: FileModel, y: FileModel|
        #![trigger file_le_fn()(x, y), file_le_fn()(y, x)]
        file_le_fn()(x, y) && file_le_fn()(y, x) implies x == y by {
        lemma_file_le_antisymmetric(x, y);
    }
    lemma_sorted_by_unique(files.sort_by(file_le_fn()), files, file_le_fn());
    assert(files.filter(included_fn()).sort_by(file_le_fn()) == files.sort_by(file_le_fn()));
}

/// Decomposition of the digest stream around one position of the listing.
proof fn lemma_stream_around(files: Seq<FileModel>, i: int)
    requires
        0 <= i < files.len(),
    ensures
        stream_of(files) == stream_of(files.subrange(0, i)) + file_bytes(files[i]) + stream_of(
            files.subrange(i + 1, files.len() as int),
        ),
{
    let a = files.subrange(0, i);
    let b = files.subrange(i + 1, files.len() as int);
    assert(files =~= a + seq![files[i]] + b);
    lemma_stream_add(a + seq![files[i]], b);
    lemma_stream_add(a, seq![files[i]]);
    lemma_stream_singleton(files[i]);
}

/// Changing one byte in one file's content changes the digested input:
/// with the rest of the listing fixed, the byte streams fed to the digest
/// differ.
pub proof fn lemma_content_change_changes_stream(
    files1: Seq<FileModel>,
    files2: Seq<FileModel>,
    i: int,
    j: int,
)
    requires
        files1.len() == files2.len(),
        0 <= i < files1.len(),
        forall|k: int| 0 <= k < files1.len() && k != i ==> files1[k] == files2[k],
        files1[i].path == files2[i].path,
        files1[i].content.len() == files2[i].content.len(),
        0 <= j < files1[i].content.len(),
        files1[i].content[j] != files2[i].content[j],
    ensures
        stream_of(files1) != stream_of(files2),
{
    lemma_stream_around(files1, i);
    lemma_stream_around(files2, i);
    assert(files1.subrange(0, i) =~= files2.subrange(0, i));
    assert(files1.subrange(i + 1, files1.len() as int) =~= files2.subrange(
        i + 1,
        files2.len() as int,
    ));
    let pre = stream_of(files1.subrange(0, i));
    let off = pre.len() + files1[i].path.len() + j;
    assert(stream_of(files1)[off] == files1[i].content[j]);
    assert(stream_of(files2)[off] == files2[i].content[j]);
}

/// Renaming a file — the same content under a different relative path —
/// changes the digested input: with the rest of the listing fixed, the
/// byte streams fed to the digest differ.
pub proof fn lemma_rename_changes_stream(files1: Seq<FileModel>, files2: Seq<FileModel>, i: int)
    requires
        files1.len() == files2.len(),
        0 <= i < files1.len(),
        forall|k: int| 0 <= k < files1.len() && k != i ==> files1[k] == files2[k],
        files1[i].content == files2[i].content,
        files1[i].path != files2[i].path,
    ensures
        stream_of(files1) != stream_of(files2),
{
    lemma_stream_around(files1, i);
    lemma_stream_around(files2, i);
    assert(files1.subrange(0, i) =~= files2.subrange(0, i));
    assert(files1.subrange(i + 1, files1.len() as int) =~= files2.subrange(
        i + 1,
        files2.len() as int,
    ));
    let p1 = files1[i].path;
    let p2 = files2[i].path;
    if p1.len() == p2.len() {
        assert(exists|k: int| 0 <= k < p1.len() && p1[k] != p2[k]) by {
            if forall|k: int| 0 <= k < p1.len() ==> p1[k] == #[trigger] p2[k] {
                assert(p1 =~= p2);
            }
        }
        let k = choose|k: int| 0 <= k < p1.len() && p1[k] != p2[k];
        let pre = stream_of(files1.subrange(0, i));
        let off = pre.len() + k;
        assert(stream_of(files1)[off] == p1[k]);
        assert(stream_of(files2)[off] == p2[k]);
    } else {
        assert(stream_of(files1).len() != stream_of(files2).len());
    }
}

/// Changing one byte in one included file's content changes the bytes
/// the fingerprint digests: for two canonical listings — every file
/// included, canonically ordered — that agree everywhere but in one
/// file's content, which differs in one byte, the digested inputs
/// differ.
pub proof fn lemma_content_change_changes_digest_input(
    files1: Seq<FileModel>,
    files2: Seq<FileModel>,
    i: int,
    j: int,
)
    requires
        sorted_by(files1, file_le_fn()),
        sorted_by(files2, file_le_fn()),
        forall|k: int| 0 <= k < files1.len() ==> included(#[trigger] files1[k]),
        forall|k: int| 0 <= k < files2.len() ==> included(#[trigger] files2[k]),
        files1.len() == files2.len(),
        0 <= i < files1.len(),
        forall|k: int| 0 <= k < files1.len() && k != i ==> files1[k] == files2[k],
        files1[i].path == files2[i].path,
        files1[i].content.len() == files2[i].content.len(),
        0 <= j < files1[i].content.len(),
        files1[i].content[j] != files2[i].content[j],
    ensures
        digest_input(files1) != digest_input(files2),
{
    lemma_digest_input_canonical(files1);
    lemma_digest_input_canonical(files2);
    lemma_content_change_changes_stream(files1, files2, i, j);
}

/// Renaming one included file — the same content under a different
/// relative path — changes the bytes the fingerprint digests, for two
/// canonical listings that agree everywhere else.
pub proof fn lemma_rename_changes_digest_input(
    files1: Seq<FileModel>,
    files2: Seq<FileModel>,
    i: int,
)
    requires
        sorted_by(files1, file_le_fn()),
        sorted_by(files2, file_le_fn()),
        forall|k: int| 0 <= k < files1.len() ==> included(#[trigger] files1[k]),
        forall|k: int| 0 <= k < files2.len() ==> included(#[trigger] files2[k]),
        files1.len() == files2.len(),
        0 <= i < files1.len(),
        forall|k: int| 0 <= k < files1.len() && k != i ==> files1[k] == files2[k],
        files1[i].content == files2[i].content,
        files1[i].path != files2[i].path,
    ensures
        digest_input(files1) != digest_input(files2),
{
    lemma_digest_input_canonical(files1);
    lemma_digest_input_canonical(files2);
    lemma_rename_changes_stream(files1, files2, i);
}

/// Comparison in the canonical file order.
fn file_le_exec(a: &SourceFile, b: &SourceFile) -> (r: bool)
    ensures
        r == file_le(a@, b@),
{
    if bytes_eq(a.path.as_slice(), b.path.as_slice()) {
        bytes_le(a.content.as_slice(), b.content.as_slice())
    } else {
        bytes_le(a.path.as_slice(), b.path.as_slice())
    }
}

/// Keeps the files that take part in the fingerprint, in arrival order.
fn filter_files(files: &Vec<SourceFile>) -> (r: Vec<SourceFile>)
    ensures
        files_view(r@) == files_view(files@).filter(included_fn()),
{
    let mut out: Vec<SourceFile> = Vec::new();
    let n: usize = files.len();
    let mut i: usize = 0;
    proof {
        assert(files_view(files@.take(0)) =~= Seq::<FileModel>::empty());
        assert(files_view(out@) =~= files_view(files@.take(0)).filter(included_fn())) by {
            reveal(Seq::filter);
        }
    }
    while i < n
        invariant
            n == files@.len(),
            0 <= i <= n,
            files_view(out@) == files_view(files@.take(i as int)).filter(included_fn()),
        decreases n - i,
    {
        let ghost prev = files_view(files@.take(i as int));
        if file_included(&files[i]) {
            out.push(files[i].clone());
        }
        proof {
            assert(files_view(files@.take(i as int + 1)) =~= prev.push(files@[i as int]@)) by {
                assert(files@.take(i as int + 1).drop_last() =~= files@.take(i as int));
            }
            lemma_filter_push(prev, files@[i as int]@, included_fn());
            assert(files_view(out@) =~= files_view(files@.take(i as int + 1)).filter(
                included_fn(),
            ));
        }
        i += 1;
    }
    proof {
        assert(files@.take(n as int) =~= files@);
    }
    out
}

/// Sorts files into the canonical digest order.
fn sort_files(files: Vec<SourceFile>) -> (r: Vec<SourceFile>)
    ensures
        sorted_by(files_view(r@), file_le_fn()),
        files_view(r@).to_multiset() == files_view(files@).to_multiset(),
{
    broadcast use vstd::seq_lib::group_to_multiset_ensures;
    broadcast use vstd::multiset::group_multiset_axioms;

    let ghost orig = files@;
    let mut rest = files;
    let mut out: Vec<SourceFile> = Vec::new();
    loop
        invariant
            orig == files@,
            sorted_by(files_view(out@), file_le_fn()),
            files_view(out@).to_multiset().add(files_view(rest@).to_multiset()) == files_view(
                orig,
            ).to_multiset(),
        decreases rest@.len(),
    {
        let ghost rest_before = rest@;
        let popped = rest.pop();
        match popped {
            None => {
                proof {
                    broadcast use vstd::multiset::group_multiset_axioms;

                    assert(files_view(rest_before) =~= Seq::<FileModel>::empty());
                    vstd::seq_lib::to_multiset_len(files_view(rest_before));
                    vstd::multiset::lemma_multiset_empty_len(files_view(rest_before).to_multiset());
                    assert(files_view(rest_before).to_multiset() =~= Multiset::<
                        FileModel,
                    >::empty());
                    assert(files_view(out@).to_multiset() =~= files_view(out@).to_multiset().add(
                        Multiset::<FileModel>::empty(),
                    ));
                }
                return out;
            },
            Some(f) => {
                proof {
                    broadcast use vstd::multiset::group_multiset_axioms;

                    assert(files_view(rest_before) =~= files_view(rest@).push(f@)) by {
                        assert(rest@ =~= rest_before.drop_last());
                    }
                    vstd::seq_lib::to_multiset_build(files_view(rest@), f@);
                    assert(files_view(rest_before).to_multiset() =~= files_view(
                        rest@,
                    ).to_multiset().insert(f@));
                }
                let mut pos: usize = 0;
                let len: usize = out.len();
                loop
                    invariant
                        0 <= pos <= len,
                        len == out@.len(),
                        sorted_by(files_view(out@), file_le_fn()),
                        forall|k: int|
                            0 <= k < pos ==> file_le(#[trigger] files_view(out@)[k], f@),
                    ensures
                        0 <= pos <= len,
                        len == out@.len(),
                        forall|k: int|
                            0 <= k < pos ==> file_le(#[trigger] files_view(out@)[k], f@),
                        pos == len || !file_le(files_view(out@)[pos as int], f@),
                    decreases len - pos,
                {
                    if pos == len {
                        break;
                    }
                    if !file_le_exec(&out[pos], &f) {
                        break;
                    }
                    pos += 1;
                }
                proof {
                    if pos < len {
                        lemma_file_le_total(files_view(out@)[pos as int], f@);
                    }
                    assert(forall|k: int|
                        pos <= k < len ==> file_le(f@, #[trigger] files_view(out@)[k])) by {
                        if pos < len {
                            assert forall|k: int|
                                pos <= k < len implies file_le(
                                f@,
                                #[trigger] files_view(out@)[k],
                            ) by {
                                if k > pos {
                                    assert(file_le_fn()(
                                        files_view(out@)[pos as int],
                                        files_view(out@)[k],
                                    ));
                                    lemma_file_le_transitive(
                                        f@,
                                        files_view(out@)[pos as int],
                                        files_view(out@)[k],
                                    );
                                }
                            }
                        }
                    }
                }
                let ghost out_before = out@;
                out.insert(pos, f);
                proof {
                    broadcast use vstd::multiset::group_multiset_axioms;

                    assert(files_view(out@) =~= files_view(out_before).insert(pos as int, f@)) by {
                        files_view(out_before).insert_ensures(pos as int, f@);
                        out_before.insert_ensures(pos as int, f);
                        assert forall|k: int| 0 <= k < files_view(out@).len() implies files_view(
                            out@,
                        )[k] == files_view(out_before).insert(pos as int, f@)[k] by {
                            if k < pos {
                                assert(out@[k] == out_before[k]);
                            } else if k == pos {
                                assert(out@[k] == f);
                            } else {
                                assert(out@[k] == out_before[k - 1]);
                            }
                        }
                    }
                    files_view(out_before).insert_ensures(pos as int, f@);
                    assert(sorted_by(files_view(out@), file_le_fn())) by {
                        let newv = files_view(out_before).insert(pos as int, f@);
                        assert forall|p: int, q: int| 0 <= p < q < newv.len() implies file_le_fn()(
                            newv[p],
                            newv[q],
                        ) by {
                            let old_of = |k: int|
                                if k < pos {
                                    files_view(out_before)[k]
                                } else {
                                    files_view(out_before)[k - 1]
                                };
                            if p == pos {
                                assert(newv[q] == files_view(out_before)[q - 1]);
                                assert(file_le(f@, files_view(out_before)[q - 1]));
                            } else if q == pos {
                                assert(newv[p] == files_view(out_before)[p]);
                                assert(file_le(files_view(out_before)[p], f@));
                            } else {
                                let pp = if p < pos {
                                    p
                                } else {
                                    p - 1
                                };
                                let qq = if q < pos {
                                    q
                                } else {
                                    q - 1
                                };
                                assert(newv[p] == files_view(out_before)[pp]);
                                assert(newv[q] == files_view(out_before)[qq]);
                                if pp == qq {
                                    assert(p < pos && q > pos);
                                    assert(file_le(files_view(out_before)[pp], f@));
                                    assert(file_le(f@, files_view(out_before)[qq]));
                                    lemma_file_le_transitive(
                                        files_view(out_before)[pp],
                                        f@,
                                        files_view(out_before)[qq],
                                    );
                                } else {
                                    assert(file_le_fn()(
                                        files_view(out_before)[pp],
                                        files_view(out_before)[qq],
                                    ));
                                }
                            }
                        }
                    }
                    vstd::seq_lib::to_multiset_insert(files_view(out_before), pos as int, f@);
                    assert(files_view(out@).to_multiset() =~= files_view(
                        out_before,
                    ).to_multiset().insert(f@));
                    assert(files_view(out@).to_multiset().add(files_view(rest@).to_multiset())
                        =~= files_view(orig).to_multiset());
                }
            },
        }
    }
}

/// Builds the exact byte stream that is digested.
fn build_stream(files: &Vec<SourceFile>) -> (r: Vec<u8>)
    ensures
        r@ == stream_of(files_view(files@)),
{
    let mut out: Vec<u8> = Vec::new();
    let n: usize = files.len();
    let mut i: usize = 0;
    proof {
        assert(files_view(files@.take(0)) =~= Seq::<FileModel>::empty());
    }
    while i < n
        invariant
            n == files@.len(),
            0 <= i <= n,
            out@ == stream_of(files_view(files@.take(i as int))),
        decreases n - i,
    {
        let ghost prev = out@;
        let f = &files[i];
        let pn: usize = f.path.len();
        let mut j: usize = 0;
        while j < pn
            invariant
                pn == f.path@.len(),
                0 <= j <= pn,
                f == &files[i as int],
                i < n == files@.len(),
                out@ == prev + f.path@.take(j as int),
            decreases pn - j,
        {
            out.push(f.path[j]);
            proof {
                assert(out@ =~= prev + f.path@.take(j as int + 1));
            }
            j += 1;
        }
        let cn: usize = f.content.len();
        let mut k: usize = 0;
        proof {
            assert(f.path@.take(pn as int) =~= f.path@);
        }
        while k < cn
            invariant
                cn == f.content@.len(),
                0 <= k <= cn,
                f == &files[i as int],
                i < n == files@.len(),
                out@ == prev + f.path@ + f.content@.take(k as int),
            decreases cn - k,
        {
            out.push(f.content[k]);
            proof {
                assert(out@ =~= prev + f.path@ + f.content@.take(k as int + 1));
            }
            k += 1;
        }
        proof {
            assert(f.content@.take(cn as int) =~= f.content@);
            assert(files_view(files@.take(i as int + 1)) =~= files_view(files@.take(i as int)).push(
                files@[i as int]@,
            )) by {
                assert(files@.take(i as int + 1).drop_last() =~= files@.take(i as int));
            }
            lemma_stream_push(files_view(files@.take(i as int)), files@[i as int]@);
            assert(out@ =~= stream_of(files_view(files@.take(i as int + 1))));
        }
        i += 1;
    }
    proof {
        assert(files@.take(n as int) =~= files@);
    }
    out
}

/// Content fingerprint of a plugin directory listing: the selected files'
/// relative paths and contents, digested in canonical order, as lower-case
/// hexadecimal text. The digest depends only on which included files exist
/// and what they hold, never on the order the listing arrived in.
pub fn calculate_plugin_hash(files: &Vec<SourceFile>) -> (r: String)
    ensures
        r@ == hex_str_of(sha256_of(digest_input(files_view(files@)))),
{
    let kept = filter_files(files);
    let sorted = sort_files(kept);
    proof {
        let inc = files_view(files@).filter(included_fn());
        lemma_file_le_total_ordering();
        inc.lemma_sort_by_ensures(file_le_fn());
        assert forall|x: FileModel, y: FileModel|
            #![trigger file_le_fn()(x, y), file_le_fn()(y, x)]
            file_le_fn()(x, y) && file_le_fn()(y, x) implies x == y by {
            lemma_file_le_antisymmetric(x, y);
        }
        lemma_sorted_by_unique(files_view(sorted@), inc.sort_by(file_le_fn()), file_le_fn());
    }
    let stream = build_stream(&sorted);
    let digest = sha256_digest(stream.as_slice());
    to_hex(digest.as_slice())
}

} // verus!
