//! Looking into a registered dataset: which files are its data, the rows
//! it shows on a peek, how many rows it holds, and whether its bytes still
//! match the hash recorded at registration.
use vstd::prelude::*;
use crate::jsonread::{json_field, object_field};
use crate::settings::{lines_of, split_lines};
use crate::text::{chars_vec, concat, ends_with, eq_str, has_suffix, take_chars, take_str, trim, trim_str, trim_vec};

verus! {

/// The most rows a peek shows.
pub const PEEK_MAX: i64 = 20;

/// The most characters a peeked row shows.
pub const PEEK_WIDTH: usize = 200;

/// The non-blank lines, trimmed and cut to `PEEK_WIDTH` characters.
pub open spec fn peek_candidates(lines: Seq<Seq<char>>) -> Seq<Seq<char>>
    decreases lines.len(),
{
    if lines.len() == 0 {
        Seq::empty()
    } else {
        let prev = peek_candidates(lines.drop_last());
        let t = trim(lines.last());
        if t.len() == 0 {
            prev
        } else {
            prev.push(take_chars(t, PEEK_WIDTH as int))
        }
    }
}

/// How many rows a peek of `peek` shows at most.
pub open spec fn peek_cap(peek: int) -> int {
    if peek < PEEK_MAX { peek } else { PEEK_MAX as int }
}

/// The rows a peek shows: the first `peek_cap(peek)` candidates.
pub open spec fn peek_spec(lines: Seq<Seq<char>>, peek: int) -> Seq<Seq<char>> {
    let c = peek_candidates(lines);
    if c.len() <= peek_cap(peek) { c } else { c.take(peek_cap(peek)) }
}

/// Whether a peek is taken: a positive peek, at least one data file, and
/// a format with lines.
pub open spec fn peek_wanted_spec(peek: int, files: int, format: Seq<char>) -> bool {
    peek > 0 && files > 0 && format != "parquet"@
}

/// Whether a peek is taken (see `peek_wanted_spec`).
pub fn peek_wanted(peek: i64, files: usize, format: &str) -> (b: bool)
    ensures
        b == peek_wanted_spec(peek as int, files as int, format@),
{
    peek > 0 && files > 0 && !eq_str(format, "parquet")
}

/// The rows a peek of the first data file shows, from its lines.
pub fn peek_rows(lines: &Vec<String>, peek: i64) -> (rows: Vec<String>)
    requires
        peek > 0,
    ensures
        rows@.map_values(|r: String| r@) == peek_spec(lines@.map_values(|l: String| l@), peek as int),
{
    let ghost lv = lines@.map_values(|l: String| l@);
    let cap: usize = if peek < PEEK_MAX { peek as usize } else { PEEK_MAX as usize };
    let mut rows: Vec<String> = Vec::new();
    let mut i: usize = 0;
    while i < lines.len()
        invariant
            i <= lines.len(),
            cap as int == peek_cap(peek as int),
            lv == lines@.map_values(|l: String| l@),
            rows@.map_values(|r: String| r@) == peek_spec(lv.take(i as int), peek as int),
        decreases lines.len() - i,
    {
        let ghost prev = peek_candidates(lv.take(i as int));
        assert(lv.take(i + 1).drop_last() == lv.take(i as int));
        assert(lv.take(i + 1).last() == lines[i as int]@);
        let t = trim_str(lines[i].as_str());
        if t.as_str().unicode_len() > 0 {
            let ghost next = prev.push(take_chars(t@, PEEK_WIDTH as int));
            if rows.len() < cap {
                let ghost before = rows@.map_values(|r: String| r@);
                rows.push(take_str(t.as_str(), PEEK_WIDTH));
                assert(rows@.map_values(|r: String| r@) =~= before.push(take_chars(t@, PEEK_WIDTH as int)));
                assert(before == prev);
                assert(next.len() <= cap);
            } else {
                assert(next.take(cap as int) =~= prev.take(cap as int));
            }
        }
        i = i + 1;
    }
    assert(lv.take(lines.len() as int) == lv);
    rows
}

/// How many of `lines` are not blank.
pub open spec fn nonblank_count(lines: Seq<Seq<char>>) -> nat
    decreases lines.len(),
{
    if lines.len() == 0 {
        0
    } else {
        nonblank_count(lines.drop_last()) + if trim(lines.last()).len() == 0 { 0nat } else { 1nat }
    }
}

/// How many rows a data file holds: its non-blank lines.
pub fn count_rows(lines: &Vec<String>) -> (n: usize)
    ensures
        n == nonblank_count(lines@.map_values(|l: String| l@)),
{
    let ghost lv = lines@.map_values(|l: String| l@);
    let mut n: usize = 0;
    let mut i: usize = 0;
    while i < lines.len()
        invariant
            i <= lines.len(),
            n <= i,
            lv == lines@.map_values(|l: String| l@),
            n == nonblank_count(lv.take(i as int)),
        decreases lines.len() - i,
    {
        assert(lv.take(i + 1).drop_last() == lv.take(i as int));
        assert(lv.take(i + 1).last() == lines[i as int]@);
        let t = trim_vec(&chars_vec(lines[i].as_str()));
        if t.len() > 0 {
            n = n + 1;
        }
        i = i + 1;
    }
    assert(lv.take(lines.len() as int) == lv);
    n
}

/// Whether a file belongs to a dataset of `format`: its path ends with
/// `.` and the format.
pub open spec fn is_data_file_spec(path: Seq<char>, format: Seq<char>) -> bool {
    has_suffix(path, "."@ + format)
}

/// Whether a file belongs to a dataset of `format`.
pub fn is_data_file(path: &str, format: &str) -> (b: bool)
    ensures
        b == is_data_file_spec(path@, format@),
{
    let ext = concat(".", format);
    ends_with(&chars_vec(path), &chars_vec(ext.as_str()))
}

/// The verdict on a dataset's bytes: a stream's hash is rolling, a
/// snapshot's must match the one recorded.
pub open spec fn hash_verdict_spec(recorded: Seq<char>, now: Seq<char>) -> Seq<char> {
    if recorded == "rolling"@ {
        "rolling (a stream - drift is the point)"@
    } else if recorded == now {
        "ok"@
    } else {
        "MISMATCH - the bytes changed since registration"@
    }
}

/// The verdict on a dataset's bytes (see `hash_verdict_spec`).
pub fn hash_verdict(recorded: &str, now: &str) -> (v: String)
    ensures
        v@ == hash_verdict_spec(recorded@, now@),
{
    if eq_str(recorded, "rolling") {
        String::from_str("rolling (a stream - drift is the point)")
    } else if eq_str(recorded, now) {
        String::from_str("ok")
    } else {
        String::from_str("MISMATCH - the bytes changed since registration")
    }
}

/// Whether a persona line, trimmed, is a row: a JSON object with both
/// `user` and `assistant`, or with `messages`.
pub open spec fn persona_row(t: Seq<char>) -> bool {
    match json_field(t, "user"@) {
        None => false,
        Some(u) => (u is Some && json_field(t, "assistant"@) matches Some(Some(_)))
            || json_field(t, "messages"@) matches Some(Some(_)),
    }
}

/// The positions, among the persona file's lines, of its rows: the
/// non-blank lines whose trimmed text is a row.
pub open spec fn persona_valid_lines(lines: Seq<Seq<char>>) -> Seq<int>
    decreases lines.len(),
{
    if lines.len() == 0 {
        Seq::empty()
    } else {
        let prev = persona_valid_lines(lines.drop_last());
        let t = trim(lines.last());
        if t.len() > 0 && persona_row(t) {
            prev.push(lines.len() - 1)
        } else {
            prev
        }
    }
}

/// Whether the trimmed line `t` is a persona row (see `persona_row`).
pub fn is_persona_row(t: &str) -> (b: bool)
    ensures
        b == persona_row(t@),
{
    match object_field(t, "user") {
        None => false,
        Some(u) => {
            let both = match object_field(t, "assistant") {
                Some(Some(_)) => u.is_some(),
                _ => false,
            };
            both || match object_field(t, "messages") {
                Some(Some(_)) => true,
                _ => false,
            }
        },
    }
}

/// Reads a persona file's text: the positions of its rows among its
/// lines (see `persona_valid_lines`), and how many non-blank lines are not
/// rows.
pub fn persona_rows(text: &str) -> (r: (Vec<usize>, usize))
    ensures
        r.0@.map_values(|i: usize| i as int) == persona_valid_lines(lines_of(text@)),
        r.1 == nonblank_count(lines_of(text@)) - r.0.len(),
{
    let lines = split_lines(text);
    let ghost ls = lines_of(text@);
    let mut rows: Vec<usize> = Vec::new();
    let mut invalid: usize = 0;
    let mut i: usize = 0;
    assert(ls.take(0) == Seq::<Seq<char>>::empty());
    while i < lines.len()
        invariant
            i <= lines.len(),
            lines@.map_values(|l: String| l@) == ls,
            rows@.map_values(|j: usize| j as int) == persona_valid_lines(ls.take(i as int)),
            invalid + rows.len() == nonblank_count(ls.take(i as int)),
            rows.len() <= i,
            invalid <= i,
        decreases lines.len() - i,
    {
        assert(ls.take(i + 1).drop_last() == ls.take(i as int));
        assert(ls.take(i + 1).last() == lines@[i as int]@);
        let t = trim_str(lines[i].as_str());
        if t.as_str().unicode_len() > 0 {
            if is_persona_row(t.as_str()) {
                let ghost before = rows@;
                rows.push(i);
                assert(rows@.map_values(|j: usize| j as int) =~= before.map_values(|j: usize| j as int).push(i as int));
            } else {
                invalid = invalid + 1;
            }
        }
        i = i + 1;
    }
    assert(ls.take(lines.len() as int) == ls);
    (rows, invalid)
}

} // verus!
