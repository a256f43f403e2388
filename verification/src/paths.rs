//! Source paths: which file a step belongs to, and the per-line byte
//! lengths of a source file.

use vstd::prelude::*;
use crate::text::{chars_of, contains_char, string_of, trim, trim_chars};

verus! {

// The path names below stand for `std::path` as built for the target: path
// syntax (separators, prefixes) differs between Unix and Windows builds.

/// What `Path::file_name` gives for the path `p`, as text.
pub uninterp spec fn path_file_name(p: Seq<char>) -> Option<Seq<char>>;

/// What `Path::parent` gives for the path `p`, as text.
pub uninterp spec fn path_parent(p: Seq<char>) -> Option<Seq<char>>;

/// What `Path::join` gives for the path `base` and the component `tail`, as text.
pub uninterp spec fn path_join(base: Seq<char>, tail: Seq<char>) -> Seq<char>;

/// Whether `Path` equality holds between the paths `a` and `b` (it compares
/// components, so `a//b` and `a/b` are the same path).
pub uninterp spec fn path_equiv(a: Seq<char>, b: Seq<char>) -> bool;

pub open spec fn opt_view(o: Option<String>) -> Option<Seq<char>> {
    match o {
        Some(s) => Some(s@),
        None => None,
    }
}

/// The final component of the path `p`.
///
/// Trusted: calls `std::path::Path::file_name` and converts the component
/// to a `String`; the claim is only that the result is the named function
/// `path_file_name` of the argument.
#[verifier::external_body]
fn file_name_of(p: &str) -> (res: Option<String>)
    ensures
        opt_view(res) == path_file_name(p@),
{
    std::path::Path::new(p).file_name().and_then(|s| s.to_str()).map(|s| s.to_string())
}

/// The parent of the path `p`.
///
/// Trusted: calls `std::path::Path::parent` and converts the result to a
/// `String`; the claim is only that the result is the named function
/// `path_parent` of the argument.
#[verifier::external_body]
fn parent_of(p: &str) -> (res: Option<String>)
    ensures
        opt_view(res) == path_parent(p@),
{
    std::path::Path::new(p).parent().and_then(|q| q.to_str()).map(|q| q.to_string())
}

/// The path `base` joined with `tail`.
///
/// Trusted: calls `std::path::Path::join` and converts the result to a
/// `String`; the claim is only that the result is the named function
/// `path_join` of the arguments.
#[verifier::external_body]
pub(crate) fn join_path(base: &str, tail: &str) -> (res: String)
    ensures
        res@ == path_join(base@, tail@),
{
    std::path::Path::new(base).join(tail).to_string_lossy().into_owned()
}

/// Whether the two paths are equal as paths.
///
/// Trusted: compares with `PartialEq` for `std::path::Path`; the claim is
/// that the result is the named relation `path_equiv`, which holds of equal
/// texts (`Path` is `Eq`, and equal texts give equal components).
#[verifier::external_body]
pub(crate) fn same_path(a: &str, b: &str) -> (res: bool)
    ensures
        res == path_equiv(a@, b@),
        a@ == b@ ==> res,
{
    std::path::Path::new(a) == std::path::Path::new(b)
}

/// The path a step's `file` field names, given the entry source's file name
/// `entry` and its parent directory joined with the trimmed `file`
/// (`joined`, absent when the entry source has no parent).
pub open spec fn step_path_from(
    source_path: Seq<char>,
    file: Seq<char>,
    entry: Option<Seq<char>>,
    joined: Option<Seq<char>>,
) -> Seq<char> {
    let t = trim(file);
    let entry_name = match entry {
        Some(n) => n,
        None => seq![],
    };
    if t.len() == 0 {
        source_path
    } else if t == entry_name {
        source_path
    } else if t.contains('/') {
        t
    } else {
        match joined {
            Some(j) => j,
            None => t,
        }
    }
}

/// The path a step's `file` field names, relative to the entry source
/// `source_path`: the entry itself when `file` is empty or is its file name,
/// `file` as written when it holds a directory, else `file` beside the entry.
pub open spec fn step_path(source_path: Seq<char>, file: Seq<char>) -> Seq<char> {
    let joined = match path_parent(source_path) {
        Some(p) => Some(path_join(p, trim(file))),
        None => None,
    };
    step_path_from(source_path, file, path_file_name(source_path), joined)
}

/// Choose a step's path from the entry's file name and the joined sibling path.
pub fn choose_step_path(
    source_path: &str,
    file: &str,
    entry: Option<String>,
    joined: Option<String>,
) -> (res: String)
    ensures
        res@ == step_path_from(source_path@, file@, opt_view(entry), opt_view(joined)),
{
    let fc = chars_of(file);
    let t = trim_chars(&fc);
    let entry_name: Vec<char> = match &entry {
        Some(n) => chars_of(n.as_str()),
        None => Vec::new(),
    };
    let sc = chars_of(source_path);
    if t.len() == 0 {
        return string_of(&sc);
    }
    let same = crate::text::chars_eq(&t, &entry_name);
    if same {
        return string_of(&sc);
    }
    if contains_char(&t, '/') {
        return string_of(&t);
    }
    match joined {
        Some(j) => j,
        None => string_of(&t),
    }
}

/// Resolve the source path of a step event's `file` field.
pub fn resolve_step_source_path(source_path: &str, file: &str) -> (res: String)
    ensures
        res@ == step_path(source_path@, file@),
{
    let fc = chars_of(file);
    let t = trim_chars(&fc);
    let ts = string_of(&t);
    let entry = file_name_of(source_path);
    let joined = match parent_of(source_path) {
        Some(p) => Some(join_path(p.as_str(), ts.as_str())),
        None => None,
    };
    choose_step_path(source_path, file, entry, joined)
}

/// Byte positions of the newlines in `b` below `n`.
pub open spec fn newlines(b: Seq<u8>, n: int) -> Seq<int>
    decreases n,
{
    if n <= 0 {
        seq![]
    } else if b[n - 1] == 10 {
        newlines(b, n - 1).push(n - 1)
    } else {
        newlines(b, n - 1)
    }
}

/// The byte length of every line of the UTF-8 text `b`, newlines excluded;
/// a last line without a newline counts when it is not empty. Each length
/// is kept modulo 2^32, as a `u32`.
pub open spec fn line_lengths(b: Seq<u8>) -> Seq<u32> {
    let nl = newlines(b, b.len() as int);
    let full = Seq::new(
        nl.len(),
        |k: int| (nl[k] - (if k == 0 { 0 } else { nl[k - 1] + 1 })) as u32,
    );
    let last_start = if nl.len() == 0 {
        0
    } else {
        nl.last() + 1
    };
    if last_start < b.len() {
        full.push((b.len() - last_start) as u32)
    } else {
        full
    }
}

proof fn lemma_newlines_wf(b: Seq<u8>, n: int)
    requires
        0 <= n <= b.len(),
    ensures
        forall|k: int| 0 <= k < newlines(b, n).len() ==> 0 <= #[trigger] newlines(b, n)[k] < n,
        forall|k: int, l: int| 0 <= k < l < newlines(b, n).len() ==> newlines(b, n)[k] < newlines(b, n)[l],
    decreases n,
{
    if n > 0 {
        lemma_newlines_wf(b, n - 1);
        let c = newlines(b, n - 1);
        if b[n - 1] == 10 {
            assert(newlines(b, n) == c.push(n - 1));
            assert forall|k: int| 0 <= k < newlines(b, n).len() implies 0 <= #[trigger] newlines(b, n)[k] < n by {
                if k < c.len() {
                    assert(newlines(b, n)[k] == c[k]);
                }
            }
            assert forall|k: int, l: int| 0 <= k < l < newlines(b, n).len() implies newlines(b, n)[k] < newlines(b, n)[l] by {
                assert(newlines(b, n)[k] == c[k]);
                if l < c.len() {
                    assert(newlines(b, n)[l] == c[l]);
                }
            }
        } else {
            assert(newlines(b, n) == c);
        }
    }
}

/// Per-line UTF-8 byte lengths of `source`.
pub fn compute_line_lengths(source: &str) -> (res: Vec<u32>)
    ensures
        res@ == line_lengths(vstd::utf8::encode_utf8(source@)),
{
    let b = source.as_bytes();
    let ghost bs = b@;
    let mut lengths: Vec<u32> = Vec::new();
    let mut line_start: usize = 0;
    let mut i: usize = 0;
    while i < b.len()
        invariant
            i <= b@.len(),
            bs == b@,
            lengths@.len() == newlines(bs, i as int).len(),
            line_start == (if newlines(bs, i as int).len() == 0 { 0 } else { newlines(bs, i as int).last() + 1 }),
            line_start <= i,
            forall|k: int| 0 <= k < lengths@.len() ==> #[trigger] lengths@[k] == (newlines(bs, i as int)[k] - (if k == 0 { 0 } else { newlines(bs, i as int)[k - 1] + 1 })) as u32,
        decreases b@.len() - i,
    {
        proof {
            lemma_newlines_wf(bs, i as int);
        }
        let ghost n0 = newlines(bs, i as int);
        if b[i] == 10 {
            lengths.push((i - line_start) as u32);
            line_start = i + 1;
        }
        i = i + 1;
        proof {
            let n1 = newlines(bs, i as int);
            assert forall|k: int| 0 <= k < lengths@.len() implies #[trigger] lengths@[k] == (n1[k] - (if k == 0 { 0 } else { n1[k - 1] + 1 })) as u32 by {
                if k < n0.len() {
                    assert(n1[k] == n0[k]);
                    if k > 0 {
                        assert(n1[k - 1] == n0[k - 1]);
                    }
                }
            }
        }
    }
    if line_start < b.len() {
        lengths.push((b.len() - line_start) as u32);
    }
    assert(lengths@ =~= line_lengths(bs));
    lengths
}

} // verus!
