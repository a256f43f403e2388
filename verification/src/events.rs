//! The helper's trace events, and the framing of its NDJSON output.

use vstd::prelude::*;
use crate::text::{chars_of, slice_chars, string_of, trim, trim_chars};

verus! {

/// A call argument or event field reported by the helper.
#[derive(Debug, Clone, PartialEq)]
pub struct TraceArg {
    pub name: String,
    pub value: String,
    pub cadence_type: Option<String>,
}

/// One trace event emitted by the Cadence helper.
#[derive(Debug, Clone, PartialEq)]
pub enum TraceEvent {
    /// Execution reached `file:line`, at a 1-based `column` when known.
    Step { file: String, line: u32, column: Option<u32> },
    /// A local binding and its printed value.
    Variable { name: String, value: String, cadence_type: Option<String> },
    /// A call; `access` is the callee's declared visibility, `script` marks
    /// the script entry point.
    Call { name: String, args: Vec<TraceArg>, access: Option<String>, script: bool },
    /// A return with its printed value, if any.
    Return { value: Option<String>, cadence_type: Option<String> },
    /// A Cadence error; `error_kind` is `pre`, `post` or `panic` when known.
    Error { message: String, error_kind: Option<String> },
    /// A Cadence event with its pre-rendered payload.
    Event { name: String, payload: String },
    ResourceCreate {
        resource_type: String,
        uuid: u64,
        owner: String,
        file: String,
        line: u32,
        column: Option<u32>,
    },
    ResourceMove {
        resource_type: String,
        uuid: u64,
        from_owner: String,
        to_owner: String,
        file: String,
        line: u32,
        column: Option<u32>,
    },
    ResourceDestroy {
        resource_type: String,
        uuid: u64,
        owner: String,
        file: String,
        line: u32,
        column: Option<u32>,
    },
    ResourceOwnerChange {
        resource_type: String,
        uuid: u64,
        from_owner: String,
        to_owner: String,
        file: String,
        line: u32,
        column: Option<u32>,
    },
    /// Force-unwrap of a `nil` optional at the site `context`.
    ForceNilUnwrap { context: String },
    /// `emit Name(fields...)` with typed field values.
    Emit { name: String, fields: Vec<TraceArg> },
    /// The composite kind (`structure`, `resource`, `event`) of a declared type.
    CompositeKind { kind: String, declared_type: String },
    /// A value of the concrete `runtime_type` bound to `varname` under the
    /// dynamic `static_type`.
    AnyTypeBind { static_type: String, runtime_type: String, varname: String },
    TypeAlias { alias_name: String, underlying_type: String },
    AttachmentAttach { attachment_type: String, target_type: String },
    AttachmentRemove { attachment_type: String, target_type: String },
}

pub struct ArgV {
    pub name: Seq<char>,
    pub value: Seq<char>,
    pub cadence_type: Option<Seq<char>>,
}

pub enum EventV {
    Step { file: Seq<char>, line: u32, column: Option<u32> },
    Variable { name: Seq<char>, value: Seq<char>, cadence_type: Option<Seq<char>> },
    Call { name: Seq<char>, args: Seq<ArgV>, access: Option<Seq<char>>, script: bool },
    Return { value: Option<Seq<char>>, cadence_type: Option<Seq<char>> },
    Error { message: Seq<char>, error_kind: Option<Seq<char>> },
    Event { name: Seq<char>, payload: Seq<char> },
    ResourceCreate {
        resource_type: Seq<char>,
        uuid: u64,
        owner: Seq<char>,
        file: Seq<char>,
        line: u32,
        column: Option<u32>,
    },
    ResourceMove {
        resource_type: Seq<char>,
        uuid: u64,
        from_owner: Seq<char>,
        to_owner: Seq<char>,
        file: Seq<char>,
        line: u32,
        column: Option<u32>,
    },
    ResourceDestroy {
        resource_type: Seq<char>,
        uuid: u64,
        owner: Seq<char>,
        file: Seq<char>,
        line: u32,
        column: Option<u32>,
    },
    ResourceOwnerChange {
        resource_type: Seq<char>,
        uuid: u64,
        from_owner: Seq<char>,
        to_owner: Seq<char>,
        file: Seq<char>,
        line: u32,
        column: Option<u32>,
    },
    ForceNilUnwrap { context: Seq<char> },
    Emit { name: Seq<char>, fields: Seq<ArgV> },
    CompositeKind { kind: Seq<char>, declared_type: Seq<char> },
    AnyTypeBind { static_type: Seq<char>, runtime_type: Seq<char>, varname: Seq<char> },
    TypeAlias { alias_name: Seq<char>, underlying_type: Seq<char> },
    AttachmentAttach { attachment_type: Seq<char>, target_type: Seq<char> },
    AttachmentRemove { attachment_type: Seq<char>, target_type: Seq<char> },
}

pub open spec fn opt_str(o: Option<String>) -> Option<Seq<char>> {
    match o {
        Some(s) => Some(s@),
        None => None,
    }
}

impl View for TraceArg {
    type V = ArgV;

    open spec fn view(&self) -> ArgV {
        ArgV { name: self.name@, value: self.value@, cadence_type: opt_str(self.cadence_type) }
    }
}

pub open spec fn args_view(a: Seq<TraceArg>) -> Seq<ArgV> {
    a.map_values(|x: TraceArg| x@)
}

impl View for TraceEvent {
    type V = EventV;

    open spec fn view(&self) -> EventV {
        match self {
            TraceEvent::Step { file, line, column } => EventV::Step {
                file: file@,
                line: *line,
                column: *column,
            },
            TraceEvent::Variable { name, value, cadence_type } => EventV::Variable {
                name: name@,
                value: value@,
                cadence_type: opt_str(*cadence_type),
            },
            TraceEvent::Call { name, args, access, script } => EventV::Call {
                name: name@,
                args: args_view(args@),
                access: opt_str(*access),
                script: *script,
            },
            TraceEvent::Return { value, cadence_type } => EventV::Return {
                value: opt_str(*value),
                cadence_type: opt_str(*cadence_type),
            },
            TraceEvent::Error { message, error_kind } => EventV::Error {
                message: message@,
                error_kind: opt_str(*error_kind),
            },
            TraceEvent::Event { name, payload } => EventV::Event {
                name: name@,
                payload: payload@,
            },
            TraceEvent::ResourceCreate { resource_type, uuid, owner, file, line, column } =>
                EventV::ResourceCreate {
                resource_type: resource_type@,
                uuid: *uuid,
                owner: owner@,
                file: file@,
                line: *line,
                column: *column,
            },
            TraceEvent::ResourceMove {
                resource_type,
                uuid,
                from_owner,
                to_owner,
                file,
                line,
                column,
            } => EventV::ResourceMove {
                resource_type: resource_type@,
                uuid: *uuid,
                from_owner: from_owner@,
                to_owner: to_owner@,
                file: file@,
                line: *line,
                column: *column,
            },
            TraceEvent::ResourceDestroy { resource_type, uuid, owner, file, line, column } =>
                EventV::ResourceDestroy {
                resource_type: resource_type@,
                uuid: *uuid,
                owner: owner@,
                file: file@,
                line: *line,
                column: *column,
            },
            TraceEvent::ResourceOwnerChange {
                resource_type,
                uuid,
                from_owner,
                to_owner,
                file,
                line,
                column,
            } => EventV::ResourceOwnerChange {
                resource_type: resource_type@,
                uuid: *uuid,
                from_owner: from_owner@,
                to_owner: to_owner@,
                file: file@,
                line: *line,
                column: *column,
            },
            TraceEvent::ForceNilUnwrap { context } => EventV::ForceNilUnwrap { context: context@ },
            TraceEvent::Emit { name, fields } => EventV::Emit {
                name: name@,
                fields: args_view(fields@),
            },
            TraceEvent::CompositeKind { kind, declared_type } => EventV::CompositeKind {
                kind: kind@,
                declared_type: declared_type@,
            },
            TraceEvent::AnyTypeBind { static_type, runtime_type, varname } => EventV::AnyTypeBind {
                static_type: static_type@,
                runtime_type: runtime_type@,
                varname: varname@,
            },
            TraceEvent::TypeAlias { alias_name, underlying_type } => EventV::TypeAlias {
                alias_name: alias_name@,
                underlying_type: underlying_type@,
            },
            TraceEvent::AttachmentAttach { attachment_type, target_type } =>
                EventV::AttachmentAttach {
                attachment_type: attachment_type@,
                target_type: target_type@,
            },
            TraceEvent::AttachmentRemove { attachment_type, target_type } =>
                EventV::AttachmentRemove {
                attachment_type: attachment_type@,
                target_type: target_type@,
            },
        }
    }
}

pub open spec fn events_view(e: Seq<TraceEvent>) -> Seq<EventV> {
    e.map_values(|x: TraceEvent| x@)
}

/// Positions of `'\n'` in `s` below `n`.
pub open spec fn line_breaks(s: Seq<char>, n: int) -> Seq<int>
    decreases n,
{
    if n <= 0 {
        seq![]
    } else if s[n - 1] == '\n' {
        line_breaks(s, n - 1).push(n - 1)
    } else {
        line_breaks(s, n - 1)
    }
}

/// The `k`-th line of `s`, given its line breaks `nl`.
pub open spec fn line_at(s: Seq<char>, nl: Seq<int>, k: int) -> Seq<char> {
    s.subrange(
        if k == 0 {
            0
        } else {
            nl[k - 1] + 1
        },
        if k == nl.len() {
            s.len() as int
        } else {
            nl[k]
        },
    )
}

/// The trimmed, non-blank lines among the first `m` lines of `s`, each with
/// its 1-based line number.
pub open spec fn records_upto(s: Seq<char>, nl: Seq<int>, m: int) -> Seq<(nat, Seq<char>)>
    decreases m,
{
    if m <= 0 {
        seq![]
    } else {
        let r = records_upto(s, nl, m - 1);
        let t = trim(line_at(s, nl, m - 1));
        if t.len() == 0 {
            r
        } else {
            r.push((m as nat, t))
        }
    }
}

/// The records of an NDJSON text: each non-blank line, trimmed, with its
/// 1-based line number.
pub open spec fn ndjson_records_spec(s: Seq<char>) -> Seq<(nat, Seq<char>)> {
    let nl = line_breaks(s, s.len() as int);
    records_upto(s, nl, (nl.len() + 1) as int)
}

proof fn lemma_line_breaks_wf(s: Seq<char>, n: int)
    requires
        0 <= n <= s.len(),
    ensures
        forall|k: int| 0 <= k < line_breaks(s, n).len() ==> 0 <= #[trigger] line_breaks(s, n)[k] < n,
        forall|k: int, l: int|
            0 <= k < l < line_breaks(s, n).len() ==> line_breaks(s, n)[k] < line_breaks(s, n)[l],
        line_breaks(s, n).len() <= n,
    decreases n,
{
    if n > 0 {
        lemma_line_breaks_wf(s, n - 1);
        let c = line_breaks(s, n - 1);
        if s[n - 1] == '\n' {
            assert(line_breaks(s, n) == c.push(n - 1));
            assert forall|k: int| 0 <= k < line_breaks(s, n).len() implies 0 <= #[trigger] line_breaks(s, n)[k] < n by {
                if k < c.len() {
                    assert(line_breaks(s, n)[k] == c[k]);
                }
            }
            assert forall|k: int, l: int| 0 <= k < l < line_breaks(s, n).len() implies line_breaks(s, n)[k] < line_breaks(s, n)[l] by {
                assert(line_breaks(s, n)[k] == c[k]);
                if l < c.len() {
                    assert(line_breaks(s, n)[l] == c[l]);
                }
            }
        } else {
            assert(line_breaks(s, n) == c);
        }
    }
}

pub open spec fn record_views(v: Seq<(usize, String)>) -> Seq<(nat, Seq<char>)> {
    v.map_values(|r: (usize, String)| (r.0 as nat, r.1@))
}

/// Frame the helper's NDJSON output: every non-blank line, trimmed, with
/// its 1-based line number (blank lines are skipped).
pub fn ndjson_records(text: &str) -> (res: Vec<(usize, String)>)
    ensures
        record_views(res@) == ndjson_records_spec(text@),
{
    let s = chars_of(text);
    let ghost sv = s@;
    let mut out: Vec<(usize, String)> = Vec::new();
    let mut start: usize = 0;
    let mut i: usize = 0;
    let mut lines_done: usize = 0;
    while i < s.len()
        invariant
            i <= s@.len(),
            sv == s@,
            sv == text@,
            lines_done == line_breaks(sv, i as int).len(),
            start == (if lines_done == 0 { 0 } else { line_breaks(sv, i as int)[lines_done - 1] + 1 }),
            start <= i,
            lines_done <= start,
            record_views(out@) == records_upto(sv, line_breaks(sv, i as int), lines_done as int),
        decreases s@.len() - i,
    {
        proof {
            lemma_line_breaks_wf(sv, i as int);
        }
        let ghost nl0 = line_breaks(sv, i as int);
        if s[i] == '\n' {
            let piece = slice_chars(&s, start, i);
            let t = trim_chars(&piece);
            proof {
                let nl1 = line_breaks(sv, i + 1);
                assert(nl1 == nl0.push(i as int));
                assert(line_at(sv, nl1, lines_done as int) == piece@);
                lemma_records_prefix(sv, nl0, nl1, lines_done as int);
            }
            if t.len() > 0 {
                out.push((lines_done + 1, string_of(&t)));
            }
            lines_done = lines_done + 1;
            start = i + 1;
            proof {
                let nl1 = line_breaks(sv, i + 1);
                assert(record_views(out@) =~= records_upto(sv, nl1, lines_done as int));
            }
        } else {
            proof {
                assert(line_breaks(sv, i + 1) == nl0);
            }
        }
        i = i + 1;
    }
    proof {
        lemma_line_breaks_wf(sv, sv.len() as int);
    }
    let ghost nl = line_breaks(sv, sv.len() as int);
    let piece = slice_chars(&s, start, s.len());
    let t = trim_chars(&piece);
    assert(line_at(sv, nl, lines_done as int) == piece@);
    proof {
        crate::text::lemma_trim_shorter(piece@);
    }
    if t.len() > 0 {
        out.push((lines_done + 1, string_of(&t)));
    }
    assert(record_views(out@) =~= records_upto(sv, nl, (nl.len() + 1) as int));
    out
}

/// Records of the first `m` lines depend only on the breaks before them.
proof fn lemma_records_prefix(s: Seq<char>, nl0: Seq<int>, nl1: Seq<int>, m: int)
    requires
        nl0.len() <= nl1.len(),
        forall|k: int| 0 <= k < nl0.len() ==> nl1[k] == nl0[k],
        0 <= m <= nl0.len(),
    ensures
        records_upto(s, nl1, m) == records_upto(s, nl0, m),
    decreases m,
{
    if m > 0 {
        lemma_records_prefix(s, nl0, nl1, m - 1);
        assert(line_at(s, nl1, m - 1) == line_at(s, nl0, m - 1));
    }
}

proof fn lemma_records_upto(s: Seq<char>, nl: Seq<int>, m: int)
    requires
        m >= 0,
    ensures
        forall|i: int|
            0 <= i < records_upto(s, nl, m).len() ==> 1 <= (#[trigger] records_upto(s, nl, m)[i]).0
                <= m && records_upto(s, nl, m)[i].1.len() > 0,
        forall|i: int, j: int|
            0 <= i < j < records_upto(s, nl, m).len() ==> (#[trigger] records_upto(s, nl, m)[i]).0
                < (#[trigger] records_upto(s, nl, m)[j]).0,
    decreases m,
{
    if m > 0 {
        lemma_records_upto(s, nl, m - 1);
        let r = records_upto(s, nl, m - 1);
        let t = trim(line_at(s, nl, m - 1));
        if t.len() > 0 {
            let q = r.push((m as nat, t));
            assert(records_upto(s, nl, m) == q);
            assert forall|i: int| 0 <= i < q.len() implies 1 <= (#[trigger] q[i]).0 <= m && q[i].1.len() > 0 by {
                if i < r.len() {
                    assert(q[i] == r[i]);
                }
            }
            assert forall|i: int, j: int| 0 <= i < j < q.len() implies (#[trigger] q[i]).0 < (#[trigger] q[j]).0 by {
                assert(q[i] == r[i]);
                if j < r.len() {
                    assert(q[j] == r[j]);
                }
            }
        }
    }
}

/// Framing skips blank lines and nothing else of order: every record is a
/// non-blank line, numbered from 1 and no further than the text's last
/// line, and records come in the order of their lines.
pub proof fn law_ndjson_records_ordered(s: Seq<char>)
    ensures
        forall|i: int|
            0 <= i < ndjson_records_spec(s).len() ==> 1 <= (#[trigger] ndjson_records_spec(s)[i]).0
                <= line_breaks(s, s.len() as int).len() + 1 && ndjson_records_spec(s)[i].1.len() > 0,
        forall|i: int, j: int|
            0 <= i < j < ndjson_records_spec(s).len() ==> (#[trigger] ndjson_records_spec(s)[i]).0
                < (#[trigger] ndjson_records_spec(s)[j]).0,
{
    let nl = line_breaks(s, s.len() as int);
    lemma_records_upto(s, nl, (nl.len() + 1) as int);
}

/// The number of `'\n'` characters in `s`.
pub open spec fn newline_count(s: Seq<char>) -> nat
    decreases s.len(),
{
    if s.len() == 0 {
        0
    } else {
        newline_count(s.drop_last()) + if s.last() == '\n' {
            1nat
        } else {
            0nat
        }
    }
}

proof fn lemma_breaks_count(s: Seq<char>, n: int)
    requires
        0 <= n <= s.len(),
    ensures
        line_breaks(s, n).len() == newline_count(s.subrange(0, n)),
    decreases n,
{
    if n > 0 {
        lemma_breaks_count(s, n - 1);
        assert(s.subrange(0, n).drop_last() =~= s.subrange(0, n - 1));
    }
}

proof fn lemma_breaks_none(s: Seq<char>, a: int, n: int)
    requires
        0 <= a <= n <= s.len(),
        forall|i: int| a <= i < n ==> s[i] != '\n',
    ensures
        line_breaks(s, n) == line_breaks(s, a),
    decreases n,
{
    if n > a {
        lemma_breaks_none(s, a, n - 1);
    }
}

proof fn lemma_breaks_prefix(s: Seq<char>, a: int, n: int)
    requires
        0 <= a <= n <= s.len(),
    ensures
        line_breaks(s, a).len() <= line_breaks(s, n).len(),
        forall|k: int| 0 <= k < line_breaks(s, a).len() ==> #[trigger] line_breaks(s, n)[k] == line_breaks(s, a)[k],
    decreases n,
{
    if n > a {
        lemma_breaks_prefix(s, a, n - 1);
        let c = line_breaks(s, n - 1);
        if s[n - 1] == '\n' {
            assert forall|k: int| 0 <= k < line_breaks(s, a).len() implies #[trigger] line_breaks(s, n)[k] == line_breaks(s, a)[k] by {
                assert(line_breaks(s, n)[k] == c[k]);
            }
        }
    }
}

proof fn lemma_records_contain(s: Seq<char>, nl: Seq<int>, m: int, k: int)
    requires
        0 <= k < m,
        trim(line_at(s, nl, k)).len() > 0,
    ensures
        records_upto(s, nl, m).contains(((k + 1) as nat, trim(line_at(s, nl, k)))),
    decreases m,
{
    let r = records_upto(s, nl, m - 1);
    let t = trim(line_at(s, nl, m - 1));
    if k == m - 1 {
        assert(records_upto(s, nl, m) == r.push((m as nat, t)));
        assert(records_upto(s, nl, m)[r.len() as int] == (m as nat, t));
    } else {
        lemma_records_contain(s, nl, m - 1, k);
        let x = ((k + 1) as nat, trim(line_at(s, nl, k)));
        let j = choose|j: int| 0 <= j < r.len() && r[j] == x;
        if t.len() > 0 {
            assert(records_upto(s, nl, m)[j] == x);
        }
    }
}

/// Every non-blank line of the text is framed, the last one included
/// whether or not a line break ends the text: for a line `s[a..b]` (it
/// starts the text or follows a `'\n'`, ends the text or precedes one, and
/// holds no `'\n'`) whose trimmed text is not empty, the records hold that
/// trimmed text numbered one more than the line breaks before the line.
pub proof fn law_every_line_framed(s: Seq<char>, a: int, b: int)
    requires
        0 <= a <= b <= s.len(),
        a == 0 || s[a - 1] == '\n',
        b == s.len() || s[b] == '\n',
        forall|i: int| a <= i < b ==> s[i] != '\n',
        trim(s.subrange(a, b)).len() > 0,
    ensures
        ndjson_records_spec(s).contains(
            (newline_count(s.subrange(0, a)) + 1, trim(s.subrange(a, b))),
        ),
{
    let n = s.len() as int;
    let nl = line_breaks(s, n);
    let k = line_breaks(s, a).len() as int;
    lemma_breaks_count(s, a);
    lemma_breaks_prefix(s, a, n);
    if a > 0 {
        assert(line_breaks(s, a) == line_breaks(s, a - 1).push(a - 1));
        assert(line_breaks(s, a)[k - 1] == a - 1);
        assert(nl[k - 1] == a - 1);
    }
    if b == n {
        lemma_breaks_none(s, a, n);
        assert(k == nl.len());
    } else {
        lemma_breaks_none(s, a, b);
        assert(line_breaks(s, b + 1) == line_breaks(s, b).push(b));
        lemma_breaks_prefix(s, b + 1, n);
        assert(line_breaks(s, b + 1)[k] == b);
        assert(nl[k] == b);
        assert(k < nl.len());
    }
    assert(line_at(s, nl, k) == s.subrange(a, b));
    lemma_records_contain(s, nl, (nl.len() + 1) as int, k);
}

/// `s[a..b]` is a whole line of `s`: it starts the text or follows a
/// `'\n'`, ends the text or precedes one, and holds no `'\n'`.
pub open spec fn is_line(s: Seq<char>, a: int, b: int) -> bool {
    &&& 0 <= a <= b <= s.len()
    &&& (a == 0 || s[a - 1] == '\n')
    &&& (b == s.len() || s[b] == '\n')
    &&& forall|i: int| a <= i < b ==> s[i] != '\n'
}

proof fn lemma_breaks_are_newlines(s: Seq<char>, n: int)
    requires
        0 <= n <= s.len(),
    ensures
        forall|j: int| 0 <= j < line_breaks(s, n).len() ==> s[#[trigger] line_breaks(s, n)[j]] == '\n',
    decreases n,
{
    if n > 0 {
        lemma_breaks_are_newlines(s, n - 1);
        let c = line_breaks(s, n - 1);
        if s[n - 1] == '\n' {
            assert forall|j: int| 0 <= j < line_breaks(s, n).len() implies s[#[trigger] line_breaks(s, n)[j]] == '\n' by {
                if j < c.len() {
                    assert(line_breaks(s, n)[j] == c[j]);
                }
            }
        }
    }
}

proof fn lemma_breaks_complete(s: Seq<char>, n: int, p: int)
    requires
        0 <= p < n <= s.len(),
        s[p] == '\n',
    ensures
        exists|j: int| 0 <= j < line_breaks(s, n).len() && line_breaks(s, n)[j] == p,
    decreases n,
{
    let c = line_breaks(s, n - 1);
    if p == n - 1 {
        assert(line_breaks(s, n) == c.push(p));
        assert(line_breaks(s, n)[c.len() as int] == p);
    } else {
        lemma_breaks_complete(s, n - 1, p);
        let j = choose|j: int| 0 <= j < c.len() && c[j] == p;
        lemma_breaks_prefix(s, n - 1, n);
        assert(line_breaks(s, n)[j] == p);
    }
}

/// The `k`-th line of the framing is a whole line of the text, preceded by
/// `k` line breaks.
proof fn lemma_line_at_is_line(s: Seq<char>, k: int)
    requires
        0 <= k <= line_breaks(s, s.len() as int).len(),
    ensures
        ({
            let nl = line_breaks(s, s.len() as int);
            let a = if k == 0 { 0 } else { nl[k - 1] + 1 };
            let b = if k == nl.len() { s.len() as int } else { nl[k] };
            &&& is_line(s, a, b)
            &&& line_at(s, nl, k) == s.subrange(a, b)
            &&& newline_count(s.subrange(0, a)) == k
        }),
{
    let n = s.len() as int;
    let nl = line_breaks(s, n);
    lemma_line_breaks_wf(s, n);
    lemma_breaks_are_newlines(s, n);
    let a = if k == 0 { 0 } else { nl[k - 1] + 1 };
    let b = if k == nl.len() { n } else { nl[k] };
    if k > 0 {
        assert(s[nl[k - 1]] == '\n');
    }
    if k < nl.len() {
        assert(s[nl[k]] == '\n');
        if k > 0 {
            assert(nl[k - 1] < nl[k]);
        }
    }
    assert forall|i: int| a <= i < b implies s[i] != '\n' by {
        if s[i] == '\n' {
            lemma_breaks_complete(s, n, i);
            let j = choose|j: int| 0 <= j < nl.len() && nl[j] == i;
            if j < k {
                if j < k - 1 {
                    assert(nl[j] < nl[k - 1]);
                }
            } else if j > k {
                assert(nl[k] < nl[j]);
            }
        }
    }
    lemma_breaks_count(s, a);
    if k > 0 {
        let p = nl[k - 1];
        let c = line_breaks(s, p + 1);
        assert(c == line_breaks(s, p).push(p));
        lemma_breaks_prefix(s, p + 1, n);
        let l = c.len() as int;
        assert(nl[l - 1] == p);
        if l - 1 < k - 1 {
            assert(nl[l - 1] < nl[k - 1]);
        } else if l - 1 > k - 1 {
            assert(nl[k - 1] < nl[l - 1]);
        }
    }
}

proof fn lemma_records_from_lines(s: Seq<char>, nl: Seq<int>, m: int)
    requires
        m >= 0,
    ensures
        forall|i: int|
            0 <= i < records_upto(s, nl, m).len() ==> exists|k: int|
                0 <= k < m && #[trigger] records_upto(s, nl, m)[i] == ((k + 1) as nat, trim(
                    line_at(s, nl, k),
                )),
    decreases m,
{
    if m > 0 {
        lemma_records_from_lines(s, nl, m - 1);
        let r = records_upto(s, nl, m - 1);
        let t = trim(line_at(s, nl, m - 1));
        assert forall|i: int| 0 <= i < records_upto(s, nl, m).len() implies exists|k: int|
            0 <= k < m && #[trigger] records_upto(s, nl, m)[i] == ((k + 1) as nat, trim(
                line_at(s, nl, k),
            )) by {
            if i < r.len() {
                assert(records_upto(s, nl, m)[i] == r[i]);
                let k = choose|k: int|
                    0 <= k < m - 1 && #[trigger] r[i] == ((k + 1) as nat, trim(line_at(s, nl, k)));
                assert(0 <= k < m);
            } else {
                assert(records_upto(s, nl, m)[i] == ((m - 1 + 1) as nat, t));
            }
        }
    }
}

/// `r` is the record of a whole, non-blank line of `s`: its trimmed text,
/// numbered one more than the line breaks before the line.
pub open spec fn is_line_record(s: Seq<char>, r: (nat, Seq<char>)) -> bool {
    exists|a: int, b: int|
        #[trigger] is_line(s, a, b) && trim(s.subrange(a, b)).len() > 0 && r.0 == newline_count(
            s.subrange(0, a),
        ) + 1 && r.1 == trim(s.subrange(a, b))
}

proof fn lemma_record_is_line(s: Seq<char>, i: int)
    requires
        0 <= i < ndjson_records_spec(s).len(),
    ensures
        is_line_record(s, ndjson_records_spec(s)[i]),
{
    let n = s.len() as int;
    let nl = line_breaks(s, n);
    let m = (nl.len() + 1) as int;
    lemma_records_from_lines(s, nl, m);
    lemma_records_upto(s, nl, m);
    let r = records_upto(s, nl, m);
    assert(r == ndjson_records_spec(s));
    let k = choose|k: int| 0 <= k < m && #[trigger] r[i] == ((k + 1) as nat, trim(line_at(s, nl, k)));
    lemma_line_at_is_line(s, k);
    let a = if k == 0 { 0 } else { nl[k - 1] + 1 };
    let b = if k == nl.len() { n } else { nl[k] };
    assert(r[i].1.len() > 0);
    assert(is_line(s, a, b));
}

/// Framing invents nothing: every record is a whole, non-blank line of the
/// text, trimmed, numbered one more than the line breaks before it.
pub proof fn law_records_are_lines(s: Seq<char>)
    ensures
        forall|i: int|
            0 <= i < ndjson_records_spec(s).len() ==> is_line_record(
                s,
                #[trigger] ndjson_records_spec(s)[i],
            ),
{
    assert forall|i: int| 0 <= i < ndjson_records_spec(s).len() implies is_line_record(
        s,
        #[trigger] ndjson_records_spec(s)[i],
    ) by {
        lemma_record_is_line(s, i);
    }
}

} // verus!
