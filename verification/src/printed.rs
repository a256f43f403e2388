//! Readers for the printed forms of Cadence values: arrays, dictionaries,
//! structs and resource handles, split at their top level only.

use vstd::prelude::*;
use crate::text::{
    find_char, first_index, lemma_first_index_bounds, lemma_trim_shorter,
    parse_u64_radix, slice_chars, spec_parse_u64_radix, trim, trim_chars,
};

verus! {

pub open spec fn is_open_bracket(c: char) -> bool {
    c == '[' || c == '{' || c == '('
}

pub open spec fn is_close_bracket(c: char) -> bool {
    c == ']' || c == '}' || c == ')'
}

/// Nesting depth and quote state of the scan just before `s[i]`: brackets
/// nest, and a double-quoted run is opaque.
pub open spec fn scan_state(s: Seq<char>, i: int) -> (int, bool)
    decreases i,
{
    if i <= 0 {
        (0, false)
    } else {
        let (d, q) = scan_state(s, i - 1);
        let ch = s[i - 1];
        if q {
            (d, ch != '"')
        } else if ch == '"' {
            (d, true)
        } else if is_open_bracket(ch) {
            (d + 1, false)
        } else if is_close_bracket(ch) {
            (d - 1, false)
        } else {
            (d, false)
        }
    }
}

/// `s[i]` is an occurrence of `sep` outside quotes and at depth zero.
pub open spec fn is_top_sep(s: Seq<char>, sep: char, i: int) -> bool {
    &&& 0 <= i < s.len()
    &&& !scan_state(s, i).1
    &&& s[i] == sep
    &&& s[i] != '"'
    &&& !is_open_bracket(s[i])
    &&& !is_close_bracket(s[i])
    &&& scan_state(s, i).0 == 0
}

/// The positions below `n` of top-level separators, in increasing order.
pub open spec fn cuts(s: Seq<char>, sep: char, n: int) -> Seq<int>
    decreases n,
{
    if n <= 0 {
        seq![]
    } else if is_top_sep(s, sep, n - 1) {
        cuts(s, sep, n - 1).push(n - 1)
    } else {
        cuts(s, sep, n - 1)
    }
}

/// Start of the `k`-th piece between the cuts `c`.
pub open spec fn piece_start(c: Seq<int>, k: int) -> int {
    if k == 0 {
        0
    } else {
        c[k - 1] + 1
    }
}

/// End of the `k`-th piece between the cuts `c` of a string of length `n`.
pub open spec fn piece_end(c: Seq<int>, k: int, n: int) -> int {
    if k == c.len() {
        n
    } else {
        c[k]
    }
}

/// `s` split at its top-level separators, each piece trimmed; a string that
/// trims to nothing and has no separator gives no piece at all.
pub open spec fn split_top(s: Seq<char>, sep: char) -> Seq<Seq<char>> {
    let c = cuts(s, sep, s.len() as int);
    if c.len() == 0 && trim(s).len() == 0 {
        seq![]
    } else {
        Seq::new(
            (c.len() + 1) as nat,
            |k: int| trim(s.subrange(piece_start(c, k), piece_end(c, k, s.len() as int))),
        )
    }
}

/// Position of the first top-level `sep` in `s`.
pub open spec fn top_index(s: Seq<char>, sep: char) -> Option<int> {
    let c = cuts(s, sep, s.len() as int);
    if c.len() > 0 {
        Some(c[0])
    } else {
        None
    }
}

pub open spec fn views(v: Seq<Vec<char>>) -> Seq<Seq<char>> {
    v.map_values(|x: Vec<char>| x@)
}

pub proof fn lemma_scan_depth_bound(s: Seq<char>, i: int)
    requires
        0 <= i,
    ensures
        -i <= scan_state(s, i).0 <= i,
    decreases i,
{
    if i > 0 {
        lemma_scan_depth_bound(s, i - 1);
    }
}

/// The cuts are increasing positions below `n`.
pub proof fn lemma_cuts_wf(s: Seq<char>, sep: char, n: int)
    requires
        0 <= n <= s.len(),
    ensures
        forall|k: int| 0 <= k < cuts(s, sep, n).len() ==> 0 <= #[trigger] cuts(s, sep, n)[k] < n,
        forall|k: int, l: int|
            0 <= k < l < cuts(s, sep, n).len() ==> cuts(s, sep, n)[k] < cuts(s, sep, n)[l],
        cuts(s, sep, n).len() <= n,
    decreases n,
{
    if n > 0 {
        lemma_cuts_wf(s, sep, n - 1);
    }
}

/// Cuts below `n` are a prefix of the cuts below `m >= n`.
pub proof fn lemma_cuts_prefix(s: Seq<char>, sep: char, n: int, m: int)
    requires
        0 <= n <= m,
    ensures
        cuts(s, sep, n).len() <= cuts(s, sep, m).len(),
        forall|k: int| 0 <= k < cuts(s, sep, n).len() ==> cuts(s, sep, m)[k] == cuts(s, sep, n)[k],
    decreases m - n,
{
    if n < m {
        lemma_cuts_prefix(s, sep, n, m - 1);
    }
}

/// The first top-level separator is a position inside the string.
pub proof fn lemma_top_index_in_range(s: Seq<char>, sep: char)
    ensures
        top_index(s, sep) matches Some(j) ==> 0 <= j < s.len(),
{
    lemma_cuts_wf(s, sep, s.len() as int);
}

/// Each piece of a split is no longer than the split string.
pub proof fn lemma_split_pieces_shorter(s: Seq<char>, sep: char)
    ensures
        forall|k: int| 0 <= k < split_top(s, sep).len() ==> #[trigger] split_top(s, sep)[k].len() <= s.len(),
{
    let c = cuts(s, sep, s.len() as int);
    lemma_cuts_wf(s, sep, s.len() as int);
    assert forall|k: int| 0 <= k < split_top(s, sep).len() implies #[trigger] split_top(s, sep)[k].len() <= s.len() by {
        let a = piece_start(c, k);
        let b = piece_end(c, k, s.len() as int);
        if k > 0 && k < c.len() {
            assert(c[k - 1] < c[k]);
        }
        lemma_trim_shorter(s.subrange(a, b));
    }
}

fn step_scan(ch: char, depth: i128, in_quote: bool) -> (res: (i128, bool))
    requires
        -0x1_0000_0000_0000_0000 <= depth <= 0x1_0000_0000_0000_0000,
    ensures
        res.0 == (if in_quote || ch == '"' { depth as int } else if is_open_bracket(ch) { depth + 1 } else if is_close_bracket(ch) { depth - 1 } else { depth as int }),
        res.1 == (if in_quote { ch != '"' } else { ch == '"' }),
{
    if in_quote {
        (depth, ch != '"')
    } else if ch == '"' {
        (depth, true)
    } else if ch == '[' || ch == '{' || ch == '(' {
        (depth + 1, false)
    } else if ch == ']' || ch == '}' || ch == ')' {
        (depth - 1, false)
    } else {
        (depth, false)
    }
}

/// Split `s` at its top-level occurrences of `sep`, trimming each piece.
pub fn split_top_level(s: &[char], sep: char) -> (res: Vec<Vec<char>>)
    ensures
        views(res@) == split_top(s@, sep),
{
    let mut out: Vec<Vec<char>> = Vec::new();
    let mut depth: i128 = 0;
    let mut in_quote = false;
    let mut start: usize = 0;
    let mut i: usize = 0;
    while i < s.len()
        invariant
            i <= s@.len(),
            (depth as int, in_quote) == scan_state(s@, i as int),
            out@.len() == cuts(s@, sep, i as int).len(),
            start == piece_start(cuts(s@, sep, i as int), cuts(s@, sep, i as int).len() as int),
            start <= i,
            forall|k: int|
                0 <= k < out@.len() ==> (#[trigger] out@[k])@ == trim(
                    s@.subrange(
                        piece_start(cuts(s@, sep, i as int), k),
                        cuts(s@, sep, i as int)[k],
                    ),
                ),
        decreases s@.len() - i,
    {
        proof {
            lemma_scan_depth_bound(s@, i as int);
            lemma_cuts_wf(s@, sep, i as int);
        }
        let ch = s[i];
        let ghost c0 = cuts(s@, sep, i as int);
        if !in_quote && ch != '"' && !(ch == '[' || ch == '{' || ch == '(') && !(ch == ']' || ch
            == '}' || ch == ')') && ch == sep && depth == 0 {
            assert(is_top_sep(s@, sep, i as int));
            let piece = slice_chars(s, start, i);
            let t = trim_chars(&piece);
            out.push(t);
            start = i + 1;
        } else {
            assert(!is_top_sep(s@, sep, i as int));
        }
        let (d2, q2) = step_scan(ch, depth, in_quote);
        depth = d2;
        in_quote = q2;
        i = i + 1;
        proof {
            let c1 = cuts(s@, sep, i as int);
            assert forall|k: int| 0 <= k < out@.len() implies (#[trigger] out@[k])@ == trim(
                s@.subrange(piece_start(c1, k), c1[k]),
            ) by {
                if k < c0.len() {
                    assert(c1[k] == c0[k]);
                    if k > 0 {
                        assert(c1[k - 1] == c0[k - 1]);
                    }
                }
            }
        }
    }
    let ghost c = cuts(s@, sep, s@.len() as int);
    assert(s@.subrange(0, s@.len() as int) =~= s@);
    let last_piece = slice_chars(s, start, s.len());
    let last = trim_chars(&last_piece);
    if last.len() > 0 || out.len() > 0 {
        out.push(last);
        proof {
            let sp = split_top(s@, sep);
            if c.len() == 0 {
                assert(trim(s@).len() > 0);
            }
            assert(sp.len() == out@.len());
            assert forall|k: int| 0 <= k < out@.len() implies views(out@)[k] == sp[k] by {
                if k < c.len() {
                    assert(piece_end(c, k, s@.len() as int) == c[k]);
                }
            }
        }
        assert(views(out@) =~= split_top(s@, sep));
    } else {
        assert(trim(s@) == last@);
        assert(views(out@) =~= split_top(s@, sep));
    }
    out
}

/// Position of the first top-level `sep` in `s`, counted in characters (the
/// text is a character slice, so this is not a byte offset).
pub fn top_level_index_of(s: &[char], sep: char) -> (res: Option<usize>)
    ensures
        res is None <==> top_index(s@, sep) is None,
        res matches Some(j) ==> top_index(s@, sep) == Some(j as int) && j < s@.len(),
{
    let mut depth: i128 = 0;
    let mut in_quote = false;
    let mut i: usize = 0;
    while i < s.len()
        invariant
            i <= s@.len(),
            (depth as int, in_quote) == scan_state(s@, i as int),
            cuts(s@, sep, i as int).len() == 0,
        decreases s@.len() - i,
    {
        proof {
            lemma_scan_depth_bound(s@, i as int);
        }
        let ch = s[i];
        if !in_quote && ch != '"' && !(ch == '[' || ch == '{' || ch == '(') && !(ch == ']' || ch
            == '}' || ch == ')') && ch == sep && depth == 0 {
            proof {
                assert(is_top_sep(s@, sep, i as int));
                assert(cuts(s@, sep, i + 1)[0] == i);
                lemma_cuts_prefix(s@, sep, i + 1, s@.len() as int);
            }
            return Some(i);
        }
        let (d2, q2) = step_scan(ch, depth, in_quote);
        depth = d2;
        in_quote = q2;
        i = i + 1;
    }
    None
}

/// Whether the trimmed `v` is wrapped in the brackets `open` .. `close`.
pub open spec fn wrapped(v: Seq<char>, open: char, close: char) -> bool {
    v.len() > 0 && v[0] == open && v.last() == close
}

/// The element texts of a printed array `[a, b, ...]`; nothing for any
/// other shape.
pub open spec fn array_elems(value: Seq<char>) -> Seq<Seq<char>> {
    let v = trim(value);
    if wrapped(v, '[', ']') {
        split_top(v.subrange(1, v.len() - 1), ',')
    } else {
        seq![]
    }
}

/// `s` trimmed, then without one pair of surrounding double quotes.
pub open spec fn strip_quotes_spec(s: Seq<char>) -> Seq<char> {
    let t = trim(s);
    if t.len() >= 2 && t[0] == '"' && t.last() == '"' {
        t.subrange(1, t.len() - 1)
    } else {
        t
    }
}

/// One `key: value` entry of a printed dictionary.
pub open spec fn dict_entry(e: Seq<char>) -> Option<(Seq<char>, Seq<char>)> {
    match top_index(e, ':') {
        Some(j) => Some(
            (strip_quotes_spec(trim(e.subrange(0, j))), trim(e.subrange(j + 1, e.len() as int))),
        ),
        None => None,
    }
}

/// The entries that have a top-level `:`, read as `(key, value)`.
pub open spec fn dict_entries(es: Seq<Seq<char>>) -> Seq<(Seq<char>, Seq<char>)>
    decreases es.len(),
{
    if es.len() == 0 {
        seq![]
    } else {
        let r = dict_entries(es.drop_last());
        match dict_entry(es.last()) {
            Some(p) => r.push(p),
            None => r,
        }
    }
}

/// The `(key, value)` texts of a printed dictionary `{k: v, ...}`; keys lose
/// one pair of quotes.
pub open spec fn dict_pairs(value: Seq<char>) -> Seq<(Seq<char>, Seq<char>)> {
    let v = trim(value);
    if wrapped(v, '{', '}') {
        dict_entries(split_top(v.subrange(1, v.len() - 1), ','))
    } else {
        seq![]
    }
}

/// One `name: value` field of a printed struct.
pub open spec fn struct_field(f: Seq<char>) -> Option<(Seq<char>, Seq<char>)> {
    match top_index(f, ':') {
        Some(j) => Some((trim(f.subrange(0, j)), trim(f.subrange(j + 1, f.len() as int)))),
        None => None,
    }
}

pub open spec fn struct_entries(fs: Seq<Seq<char>>) -> Seq<(Seq<char>, Seq<char>)>
    decreases fs.len(),
{
    if fs.len() == 0 {
        seq![]
    } else {
        let r = struct_entries(fs.drop_last());
        match struct_field(fs.last()) {
            Some(p) => r.push(p),
            None => r,
        }
    }
}

/// The `(name, value)` fields of a printed struct `Name(f: v, ...)`.
pub open spec fn struct_fields(value: Seq<char>) -> Seq<(Seq<char>, Seq<char>)> {
    let v = trim(value);
    match first_index(v, '(') {
        None => seq![],
        Some(o) => if v.len() > 0 && v.last() == ')' {
            struct_entries(split_top(v.subrange(o + 1, v.len() - 1), ','))
        } else {
            seq![]
        },
    }
}

/// A printed resource handle `@Type#uuid` or `@Type#uuid@owner`.
pub open spec fn resource_handle(value: Seq<char>) -> Option<(Seq<char>, u64, Option<Seq<char>>)> {
    let v = trim(value);
    if !(v.len() > 0 && v[0] == '@') {
        None
    } else {
        let w = v.drop_first();
        match first_index(w, '#') {
            None => None,
            Some(h) => {
                let ty = w.subrange(0, h);
                let rest = w.subrange(h + 1, w.len() as int);
                let (u, owner) = match first_index(rest, '@') {
                    Some(a) => (rest.subrange(0, a), Some(rest.subrange(a + 1, rest.len() as int))),
                    None => (rest, None),
                };
                match spec_parse_u64_radix(u, 10) {
                    Some(n) => Some((ty, n, owner)),
                    None => None,
                }
            },
        }
    }
}

pub open spec fn pair_views(v: Seq<(Vec<char>, Vec<char>)>) -> Seq<(Seq<char>, Seq<char>)> {
    v.map_values(|p: (Vec<char>, Vec<char>)| (p.0@, p.1@))
}

/// Element texts of a printed array.
pub fn parse_cadence_array(value: &[char]) -> (res: Vec<Vec<char>>)
    ensures
        views(res@) == array_elems(value@),
{
    let v = trim_chars(value);
    if v.len() > 0 && v[0] == '[' && v[v.len() - 1] == ']' {
        let inner = slice_chars(&v, 1, v.len() - 1);
        split_top_level(&inner, ',')
    } else {
        let out: Vec<Vec<char>> = Vec::new();
        assert(views(out@) =~= seq![]);
        out
    }
}

/// `s` trimmed and without one pair of surrounding double quotes.
pub fn strip_quotes(s: &[char]) -> (res: Vec<char>)
    ensures
        res@ == strip_quotes_spec(s@),
{
    let t = trim_chars(s);
    if t.len() >= 2 && t[0] == '"' && t[t.len() - 1] == '"' {
        slice_chars(&t, 1, t.len() - 1)
    } else {
        t
    }
}

/// The `(key, value)` texts of a printed dictionary.
pub fn parse_cadence_dict(value: &[char]) -> (res: Vec<(Vec<char>, Vec<char>)>)
    ensures
        pair_views(res@) == dict_pairs(value@),
{
    let v = trim_chars(value);
    let mut out: Vec<(Vec<char>, Vec<char>)> = Vec::new();
    if !(v.len() > 0 && v[0] == '{' && v[v.len() - 1] == '}') {
        assert(pair_views(out@) =~= seq![]);
        return out;
    }
    let inner = slice_chars(&v, 1, v.len() - 1);
    let entries = split_top_level(&inner, ',');
    let ghost es = views(entries@);
    let mut i: usize = 0;
    while i < entries.len()
        invariant
            i <= entries@.len(),
            es == views(entries@),
            es == split_top(v@.subrange(1, v@.len() - 1), ','),
            v@ == trim(value@),
            wrapped(v@, '{', '}'),
            pair_views(out@) == dict_entries(es.take(i as int)),
        decreases entries@.len() - i,
    {
        let e = &entries[i];
        assert(es.take(i + 1).drop_last() =~= es.take(i as int));
        assert(es.take(i + 1).last() == e@);
        match top_level_index_of(e, ':') {
            Some(j) => {
                let k0 = slice_chars(e, 0, j);
                let k1 = trim_chars(&k0);
                let key = strip_quotes(&k1);
                let elen = e.len();
                assert(j < elen);
                let v0 = slice_chars(e, j + 1, elen);
                let val = trim_chars(&v0);
                out.push((key, val));
                assert(pair_views(out@) =~= dict_entries(es.take(i + 1)));
            },
            None => {},
        }
        i = i + 1;
    }
    assert(es.take(entries@.len() as int) =~= es);
    out
}

/// The `(name, value)` fields of a printed struct.
pub fn parse_cadence_struct(value: &[char]) -> (res: Vec<(Vec<char>, Vec<char>)>)
    ensures
        pair_views(res@) == struct_fields(value@),
{
    let v = trim_chars(value);
    let mut out: Vec<(Vec<char>, Vec<char>)> = Vec::new();
    proof {
        lemma_first_index_bounds(v@, '(');
    }
    let open = match find_char(&v, '(') {
        Some(o) => o,
        None => {
            assert(pair_views(out@) =~= seq![]);
            return out;
        },
    };
    if !(v.len() > 0 && v[v.len() - 1] == ')') {
        assert(pair_views(out@) =~= seq![]);
        return out;
    }
    assert(open + 1 <= v.len() - 1);
    let inner = slice_chars(&v, open + 1, v.len() - 1);
    let fields = split_top_level(&inner, ',');
    let ghost fs = views(fields@);
    let mut i: usize = 0;
    while i < fields.len()
        invariant
            i <= fields@.len(),
            fs == views(fields@),
            fs == split_top(v@.subrange(open + 1, v@.len() - 1), ','),
            v@ == trim(value@),
            first_index(v@, '(') == Some(open as int),
            v@.len() > 0 && v@.last() == ')',
            pair_views(out@) == struct_entries(fs.take(i as int)),
        decreases fields@.len() - i,
    {
        let f = &fields[i];
        assert(fs.take(i + 1).drop_last() =~= fs.take(i as int));
        assert(fs.take(i + 1).last() == f@);
        match top_level_index_of(f, ':') {
            Some(j) => {
                let n0 = slice_chars(f, 0, j);
                let name = trim_chars(&n0);
                let flen = f.len();
                assert(j < flen);
                let v0 = slice_chars(f, j + 1, flen);
                let val = trim_chars(&v0);
                out.push((name, val));
                assert(pair_views(out@) =~= struct_entries(fs.take(i + 1)));
            },
            None => {},
        }
        i = i + 1;
    }
    assert(fs.take(fields@.len() as int) =~= fs);
    out
}

/// The `(type, uuid, owner)` of a printed resource handle.
pub fn parse_resource_handle(value: &[char]) -> (res: Option<(Vec<char>, u64, Option<Vec<char>>)>)
    ensures
        match resource_handle(value@) {
            None => res is None,
            Some((ty, n, owner)) => res matches Some((rt, rn, ro)) && rt@ == ty && rn == n && match owner {
                None => ro is None,
                Some(o) => ro matches Some(x) && x@ == o,
            },
        },
{
    let v = trim_chars(value);
    if !(v.len() > 0 && v[0] == '@') {
        return None;
    }
    let w = slice_chars(&v, 1, v.len());
    assert(w@ =~= v@.drop_first());
    proof {
        lemma_first_index_bounds(w@, '#');
    }
    let h = match find_char(&w, '#') {
        Some(h) => h,
        None => return None,
    };
    let ty = slice_chars(&w, 0, h);
    let rest = slice_chars(&w, h + 1, w.len());
    proof {
        lemma_first_index_bounds(rest@, '@');
    }
    let (u, owner) = match find_char(&rest, '@') {
        Some(a) => (slice_chars(&rest, 0, a), Some(slice_chars(&rest, a + 1, rest.len()))),
        None => (rest, None),
    };
    match parse_u64_radix(&u, 10) {
        Some(n) => Some((ty, n, owner)),
        None => None,
    }
}

/// The first top-level separator is where the first piece of the split
/// ends: there is one exactly when the split gives more than one piece, and
/// then the first piece is the trimmed text before it.
pub proof fn law_first_separator_ends_first_piece(s: Seq<char>, sep: char)
    ensures
        top_index(s, sep) is Some <==> split_top(s, sep).len() > 1,
        top_index(s, sep) matches Some(i) ==> split_top(s, sep)[0] == trim(s.subrange(0, i)),
{
}

} // verus!
