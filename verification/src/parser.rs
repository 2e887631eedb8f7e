//! Parsing of the inventory tool's textual output.
//!
//! The tool prints one line per block device; a line carries five quoted
//! `KEY="value"` fields (device kernel name, file-system type, mount point,
//! transport and label) separated by whitespace, in any order. An empty
//! quoted value means the field is absent. A line that does not have this
//! shape is skipped, never an error: the output format carries no contract,
//! and discovery must survive an unexpected line.

use crate::record::{opt_view, FileSystem, FsView};
use crate::record::str_eq;
use vstd::prelude::*;

verus! {

/// Whitespace that may separate the fields of a line.
pub open spec fn is_ws(c: char) -> bool {
    c == ' ' || c == '\t' || c == '\r'
}

/// Index of the first occurrence of `c` in `s` at or after `from`.
pub open spec fn find_from(s: Seq<char>, from: int, c: char) -> Option<int>
    decreases s.len() - from
        when 0 <= from
{
    if from >= s.len() {
        None
    } else if s[from] == c {
        Some(from)
    } else {
        find_from(s, from + 1, c)
    }
}

/// What `find_from` returns is a position of `c`, and lies in range.
pub proof fn lemma_find_from_bounds(s: Seq<char>, from: int, c: char)
    requires
        0 <= from,
    ensures
        find_from(s, from, c) matches Some(j) ==> from <= j < s.len() && s[j] == c,
    decreases s.len() - from,
{
    if from < s.len() && s[from] != c {
        lemma_find_from_bounds(s, from + 1, c);
    }
}

/// The characters of a key span: no whitespace and no quote before the `=`.
pub open spec fn key_span_ok(s: Seq<char>, i: int, j: int) -> bool {
    forall|m: int| i <= m < j ==> !is_ws(#[trigger] s[m]) && s[m] != '"'
}

/// The `KEY="value"` fields of `s` from position `i` on, as (key, value)
/// pairs in order of appearance; `None` when the text does not have that
/// shape.
pub open spec fn spec_tokens(s: Seq<char>, i: int) -> Option<Seq<(Seq<char>, Seq<char>)>>
    decreases s.len() - i
        when 0 <= i
        via spec_tokens_dec
{
    if i >= s.len() {
        Some(Seq::empty())
    } else if is_ws(s[i]) {
        spec_tokens(s, i + 1)
    } else {
        match find_from(s, i, '=') {
            None => None,
            Some(j) => {
                if !(i < j && key_span_ok(s, i, j) && j + 1 < s.len() && s[j + 1] == '"') {
                    None
                } else {
                    match find_from(s, j + 2, '"') {
                        None => None,
                        Some(k) => {
                            if k + 1 < s.len() && !is_ws(s[k + 1]) {
                                None
                            } else {
                                match spec_tokens(s, k + 1) {
                                    None => None,
                                    Some(rest) => Some(
                                        seq![(s.subrange(i, j), s.subrange(j + 2, k))] + rest,
                                    ),
                                }
                            }
                        },
                    }
                }
            },
        }
    }
}

#[via_fn]
proof fn spec_tokens_dec(s: Seq<char>, i: int) {
    if 0 <= i && i < s.len() && !is_ws(s[i]) {
        lemma_find_from_bounds(s, i, '=');
        match find_from(s, i, '=') {
            None => {},
            Some(j) => {
                if i < j && key_span_ok(s, i, j) && j + 1 < s.len() && s[j + 1] == '"' {
                    lemma_find_from_bounds(s, j + 2, '"');
                }
            },
        }
    }
}

/// The value of the first field named `key`.
pub open spec fn lookup(toks: Seq<(Seq<char>, Seq<char>)>, key: Seq<char>) -> Option<Seq<char>>
    decreases toks.len(),
{
    if toks.len() == 0 {
        None
    } else if toks[0].0 == key {
        Some(toks[0].1)
    } else {
        lookup(toks.drop_first(), key)
    }
}

/// How many fields are named `key`.
pub open spec fn count_key(toks: Seq<(Seq<char>, Seq<char>)>, key: Seq<char>) -> nat
    decreases toks.len(),
{
    if toks.len() == 0 {
        0
    } else {
        (if toks[0].0 == key {
            1nat
        } else {
            0nat
        }) + count_key(toks.drop_first(), key)
    }
}

pub open spec fn kname_key() -> Seq<char> {
    "KNAME"@
}

pub open spec fn fstype_key() -> Seq<char> {
    "FSTYPE"@
}

pub open spec fn mountpoint_key() -> Seq<char> {
    "MOUNTPOINT"@
}

pub open spec fn tran_key() -> Seq<char> {
    "TRAN"@
}

pub open spec fn label_key() -> Seq<char> {
    "LABEL"@
}

/// A well-formed line carries exactly the five expected fields, each once.
pub open spec fn wf_tokens(toks: Seq<(Seq<char>, Seq<char>)>) -> bool {
    &&& toks.len() == 5
    &&& count_key(toks, kname_key()) == 1
    &&& count_key(toks, fstype_key()) == 1
    &&& count_key(toks, mountpoint_key()) == 1
    &&& count_key(toks, tran_key()) == 1
    &&& count_key(toks, label_key()) == 1
}

/// An empty quoted value denotes an absent field, never an empty string.
pub open spec fn opt_field(v: Seq<char>) -> Option<Seq<char>> {
    if v.len() == 0 {
        None
    } else {
        Some(v)
    }
}

/// The record described by the fields of a well-formed line.
pub open spec fn record_of_tokens(toks: Seq<(Seq<char>, Seq<char>)>) -> FsView {
    FsView {
        block_device: lookup(toks, kname_key())->0,
        fstype: opt_field(lookup(toks, fstype_key())->0),
        mount_point: opt_field(lookup(toks, mountpoint_key())->0),
        transport: opt_field(lookup(toks, tran_key())->0),
        label: opt_field(lookup(toks, label_key())->0),
    }
}

/// The record described by one line of output: `None` for a malformed line
/// (wrong field shape, a missing, repeated or foreign key, or an empty
/// device name).
pub open spec fn spec_parse_line(s: Seq<char>) -> Option<FsView> {
    match spec_tokens(s, 0) {
        None => None,
        Some(toks) => {
            if wf_tokens(toks) && lookup(toks, kname_key())->0.len() > 0 {
                Some(record_of_tokens(toks))
            } else {
                None
            }
        },
    }
}

/// The lines of `s` from position `i` on, split at every newline.
pub open spec fn spec_lines_from(s: Seq<char>, i: int) -> Seq<Seq<char>>
    decreases s.len() - i
        when 0 <= i
        via spec_lines_from_dec
{
    match find_from(s, i, '\n') {
        None => seq![s.subrange(i, s.len() as int)],
        Some(j) => seq![s.subrange(i, j)] + spec_lines_from(s, j + 1),
    }
}

#[via_fn]
proof fn spec_lines_from_dec(s: Seq<char>, i: int) {
    if 0 <= i {
        lemma_find_from_bounds(s, i, '\n');
    }
}

/// The lines of `s`.
pub open spec fn spec_lines(s: Seq<char>) -> Seq<Seq<char>> {
    spec_lines_from(s, 0)
}

/// The model of an executable token list.
pub open spec fn tok_views(ts: Seq<(String, String)>) -> Seq<(Seq<char>, Seq<char>)> {
    ts.map_values(|t: (String, String)| (t.0@, t.1@))
}

/// Whether `c` separates fields.
pub(crate) fn ws_char(c: char) -> (r: bool)
    ensures
        r == is_ws(c),
{
    c == ' ' || c == '\t' || c == '\r'
}

/// First occurrence of `c` in `s` at or after `from`.
pub(crate) fn find_char(s: &str, from: usize, c: char) -> (r: Option<usize>)
    requires
        from as int <= s@.len(),
    ensures
        match r {
            Some(j) => {
                &&& find_from(s@, from as int, c) == Some(j as int)
                &&& from <= j < s@.len()
                &&& s@[j as int] == c
            },
            None => find_from(s@, from as int, c) is None,
        },
{
    let n: usize = s.unicode_len();
    let mut i: usize = from;
    while i < n
        invariant
            from <= i <= n,
            n == s@.len(),
            find_from(s@, from as int, c) == find_from(s@, i as int, c),
        decreases n - i,
    {
        let ch = s.get_char(i);
        if ch == c {
            return Some(i);
        }
        i = i + 1;
    }
    None
}

/// The `KEY="value"` fields of a line, or `None` when the line does not have
/// that shape.
pub(crate) fn tokenize(line: &str) -> (r: Option<Vec<(String, String)>>)
    ensures
        match r {
            Some(toks) => spec_tokens(line@, 0) == Some(tok_views(toks@)),
            None => spec_tokens(line@, 0) is None,
        },
{
    let n: usize = line.unicode_len();
    let mut toks: Vec<(String, String)> = Vec::new();
    let mut i: usize = 0;
    while i < n
        invariant
            i <= n,
            n == line@.len(),
            spec_tokens(line@, i as int) is Some ==> spec_tokens(line@, 0) == Some(
                tok_views(toks@) + spec_tokens(line@, i as int)->0,
            ),
            spec_tokens(line@, i as int) is None ==> spec_tokens(line@, 0) is None,
        decreases n - i,
    {
        let ch = line.get_char(i);
        if ws_char(ch) {
            i = i + 1;
        } else {
            let j = match find_char(line, i, '=') {
                None => {
                    return None;
                },
                Some(j) => j,
            };
            if j == i {
                return None;
            }
            let mut m: usize = i;
            let mut key_ok: bool = true;
            while m < j && key_ok
                invariant
                    i <= m <= j,
                    j < n,
                    n == line@.len(),
                    key_ok ==> forall|q: int|
                        i <= q < m ==> !is_ws(#[trigger] line@[q]) && line@[q] != '"',
                    !key_ok ==> !key_span_ok(line@, i as int, j as int),
                decreases j - m + (if key_ok {
                    1int
                } else {
                    0int
                }),
            {
                let cm = line.get_char(m);
                if ws_char(cm) || cm == '"' {
                    key_ok = false;
                } else {
                    m = m + 1;
                }
            }
            if !key_ok {
                return None;
            }
            if !(j + 1 < n) {
                return None;
            }
            if line.get_char(j + 1) != '"' {
                return None;
            }
            let k = match find_char(line, j + 2, '"') {
                None => {
                    return None;
                },
                Some(k) => k,
            };
            if k + 1 < n && !ws_char(line.get_char(k + 1)) {
                return None;
            }
            let key = line.substring_char(i, j).to_owned();
            let val = line.substring_char(j + 2, k).to_owned();
            let ghost old_toks = toks@;
            toks.push((key, val));
            proof {
                let s = line@;
                let ii = i as int;
                let jj = j as int;
                let kk = k as int;
                let tok = (s.subrange(ii, jj), s.subrange(jj + 2, kk));
                assert(tok_views(toks@) =~= tok_views(old_toks).push(tok));
                match spec_tokens(s, kk + 1) {
                    None => {
                        assert(spec_tokens(s, ii) is None);
                    },
                    Some(rest) => {
                        assert(spec_tokens(s, ii) == Some(seq![tok] + rest));
                        assert(tok_views(old_toks) + (seq![tok] + rest) =~= tok_views(toks@)
                            + rest);
                    },
                }
            }
            i = k + 1;
        }
    }
    Some(toks)
}

/// The value of `key` when the line carries it exactly once, `None`
/// otherwise.
pub(crate) fn unique_value(toks: &Vec<(String, String)>, key: &str) -> (r: Option<String>)
    ensures
        match r {
            Some(v) => count_key(tok_views(toks@), key@) == 1 && lookup(tok_views(toks@), key@)
                == Some(v@),
            None => count_key(tok_views(toks@), key@) != 1,
        },
{
    let ghost tv = tok_views(toks@);
    let n: usize = toks.len();
    let mut cnt: usize = 0;
    let mut first: Option<String> = None;
    let mut p: usize = 0;
    proof {
        assert(tv.subrange(0, n as int) =~= tv);
    }
    while p < n
        invariant
            p <= n,
            n == toks@.len(),
            cnt <= p,
            tv == tok_views(toks@),
            tv.len() == n,
            cnt + count_key(tv.subrange(p as int, n as int), key@) == count_key(tv, key@),
            match first {
                Some(v) => cnt >= 1 && lookup(tv, key@) == Some(v@),
                None => cnt == 0 && lookup(tv, key@) == lookup(
                    tv.subrange(p as int, n as int),
                    key@,
                ),
            },
        decreases n - p,
    {
        proof {
            assert(tv.subrange(p as int, n as int).drop_first() =~= tv.subrange(
                p as int + 1,
                n as int,
            ));
        }
        let hit = str_eq(toks[p].0.as_str(), key);
        if hit {
            cnt = cnt + 1;
            if first.is_none() {
                first = Some(toks[p].1.clone());
            }
        }
        p = p + 1;
    }
    proof {
        assert(tv.subrange(n as int, n as int) =~= Seq::<(Seq<char>, Seq<char>)>::empty());
    }
    if cnt == 1 {
        first
    } else {
        None
    }
}

/// An empty field value becomes an absent field.
pub(crate) fn to_opt_field(v: String) -> (r: Option<String>)
    ensures
        opt_view(r) == opt_field(v@),
{
    if v.as_str().is_empty() {
        None
    } else {
        Some(v)
    }
}

/// The record described by one line of output, or `None` for a malformed
/// line, which discovery skips.
pub fn parse_line(line: &str) -> (r: Option<FileSystem>)
    ensures
        match r {
            Some(fs) => spec_parse_line(line@) == Some(fs@),
            None => spec_parse_line(line@) is None,
        },
{
    let toks = match tokenize(line) {
        None => {
            return None;
        },
        Some(toks) => toks,
    };
    let ghost tv = tok_views(toks@);
    if toks.len() != 5 {
        return None;
    }
    let kname = match unique_value(&toks, "KNAME") {
        None => {
            return None;
        },
        Some(v) => v,
    };
    let fstype = match unique_value(&toks, "FSTYPE") {
        None => {
            return None;
        },
        Some(v) => v,
    };
    let mount_point = match unique_value(&toks, "MOUNTPOINT") {
        None => {
            return None;
        },
        Some(v) => v,
    };
    let tran = match unique_value(&toks, "TRAN") {
        None => {
            return None;
        },
        Some(v) => v,
    };
    let label = match unique_value(&toks, "LABEL") {
        None => {
            return None;
        },
        Some(v) => v,
    };
    if kname.as_str().is_empty() {
        return None;
    }
    let fs = FileSystem {
        block_device: kname,
        fstype: to_opt_field(fstype),
        mount_point: to_opt_field(mount_point),
        transport: to_opt_field(tran),
        label: to_opt_field(label),
    };
    proof {
        assert(fs@ =~= record_of_tokens(tv));
    }
    Some(fs)
}

/// The lines of `s`, split at every newline.
pub fn split_lines(s: &str) -> (r: Vec<String>)
    ensures
        r@.map_values(|l: String| l@) == spec_lines(s@),
{
    let n: usize = s.unicode_len();
    let mut out: Vec<String> = Vec::new();
    let mut start: usize = 0;
    let mut done: bool = false;
    while !done
        invariant
            start <= n,
            n == s@.len(),
            !done ==> out@.map_values(|l: String| l@) + spec_lines_from(s@, start as int)
                == spec_lines(s@),
            done ==> out@.map_values(|l: String| l@) == spec_lines(s@),
        decreases (if done {
            0int
        } else {
            n - start + 1
        }),
    {
        let ghost old_out = out@;
        match find_char(s, start, '\n') {
            None => {
                let line = s.substring_char(start, n).to_owned();
                out.push(line);
                done = true;
                proof {
                    assert(spec_lines_from(s@, start as int) =~= seq![
                        s@.subrange(start as int, n as int),
                    ]);
                    assert(out@.map_values(|l: String| l@) =~= old_out.map_values(|l: String| l@)
                        + spec_lines_from(s@, start as int));
                }
            },
            Some(j) => {
                let line = s.substring_char(start, j).to_owned();
                out.push(line);
                proof {
                    assert(out@.map_values(|l: String| l@) =~= old_out.map_values(
                        |l: String| l@,
                    ).push(s@.subrange(start as int, j as int)));
                    assert(old_out.map_values(|l: String| l@) + (seq![
                        s@.subrange(start as int, j as int),
                    ] + spec_lines_from(s@, j + 1)) =~= out@.map_values(|l: String| l@)
                        + spec_lines_from(s@, j + 1));
                }
                start = j + 1;
            },
        }
    }
    out
}

/// A field submitted as an empty quoted string is represented as absent,
/// never as an empty string, and the device name of a parsed record is never
/// empty.
pub proof fn lemma_empty_fields_absent(line: Seq<char>)
    ensures
        spec_parse_line(line) matches Some(r) ==> {
            &&& r.block_device.len() > 0
            &&& (r.fstype matches Some(t) ==> t.len() > 0)
            &&& (r.mount_point matches Some(t) ==> t.len() > 0)
            &&& (r.transport matches Some(t) ==> t.len() > 0)
            &&& (r.label matches Some(t) ==> t.len() > 0)
        },
{
}

} // verus!
