//! The training feedstock: the JSONL sample lines the curriculum export
//! writes, and the line-wise dedupe that makes
//! sweeping into a stream dataset idempotent.
use vstd::prelude::*;
use vstd::utf8::encode_utf8;
use std::collections::HashSet;
use crate::fnv::{fnv64_fold, fnv64_update, FNV64_OFFSET};
use crate::json::{esc_json, json_escape};
use crate::settings::{join_lines, lemma_lines_of_block, lemma_lines_of_concat, line_block, lines_of, split_lines};
use crate::text::{chars_vec, concat, concat3, concat5, has_prefix, starts_with, string_of, trim, trim_vec};

verus! {

broadcast use vstd::std_specs::hash::group_hash_axioms;

/// The prefix that marks a salience-pair sample line.
pub open spec fn pair_prefix() -> Seq<char> {
    "{\"kind\": \"salience_pair\""@
}

/// A sample line as a stream dataset stores it: newlines turned into
/// spaces, so that one sample is one line.
pub open spec fn flatten(s: Seq<char>) -> Seq<char> {
    s.map_values(|c: char| if c == '\n' { ' ' } else { c })
}

/// FNV-1a 64 of the UTF-8 bytes of a line: the identity by which a
/// stream dataset recognises a line it already holds.
pub open spec fn line_hash(s: Seq<char>) -> u64 {
    fnv64_fold(FNV64_OFFSET, encode_utf8(s))
}

/// Whether a line is blank (only whitespace).
pub open spec fn is_blank(s: Seq<char>) -> bool {
    trim(s).len() == 0
}

/// The hashes of the non-blank lines of a stream file.
pub open spec fn seen_hashes(lines: Seq<Seq<char>>) -> Set<u64>
    decreases lines.len(),
{
    if lines.len() == 0 {
        Set::empty()
    } else if is_blank(lines.last()) {
        seen_hashes(lines.drop_last())
    } else {
        seen_hashes(lines.drop_last()).insert(line_hash(lines.last()))
    }
}

/// Whether a sample line belongs to the stream being filled: the
/// salience-pairs stream takes the salience-pair lines, the memory
/// stream all the others.
pub open spec fn wanted(line: Seq<char>, want_pairs: bool) -> bool {
    has_prefix(line, pair_prefix()) == want_pairs
}

/// One sweep of sample lines into a stream: starting from the hashes
/// already seen, each wanted line, flattened, is fresh when its hash has
/// not been seen; a fresh line's hash is then seen. The result is the
/// final set of seen hashes and the fresh lines in order.
pub open spec fn sweep(seen: Set<u64>, lines: Seq<Seq<char>>, want_pairs: bool) -> (Set<u64>, Seq<Seq<char>>)
    decreases lines.len(),
{
    if lines.len() == 0 {
        (seen, Seq::empty())
    } else {
        let prev = sweep(seen, lines.drop_last(), want_pairs);
        let line = lines.last();
        let flat = flatten(line);
        if !wanted(line, want_pairs) || prev.0.contains(line_hash(flat)) {
            prev
        } else {
            (prev.0.insert(line_hash(flat)), prev.1.push(flat))
        }
    }
}

/// FNV-1a 64 of the UTF-8 bytes of `s`.
pub fn fnv_line(s: &str) -> (h: u64)
    ensures
        h == line_hash(s@),
{
    fnv64_update(FNV64_OFFSET, s.as_bytes())
}

proof fn lemma_seen_finite(lines: Seq<Seq<char>>)
    ensures
        seen_hashes(lines).finite(),
    decreases lines.len(),
{
    if lines.len() > 0 {
        lemma_seen_finite(lines.drop_last());
    }
}

/// The hashes of the non-blank lines of a stream file's text.
pub fn existing_hashes(text: &str) -> (seen: HashSet<u64>)
    ensures
        seen@ == seen_hashes(lines_of(text@)),
{
    let ls = split_lines(text);
    let ghost lv = ls@.map_values(|l: String| l@);
    let mut seen: HashSet<u64> = HashSet::new();
    let mut i: usize = 0;
    while i < ls.len()
        invariant
            i <= ls.len(),
            lv == ls@.map_values(|l: String| l@),
            seen@ == seen_hashes(lv.take(i as int)),
        decreases ls.len() - i,
    {
        let t = trim_vec(&chars_vec(ls[i].as_str()));
        assert(lv.take(i + 1).drop_last() == lv.take(i as int));
        assert(lv.take(i + 1).last() == ls[i as int]@);
        if t.len() > 0 {
            let h = fnv_line(ls[i].as_str());
            seen.insert(h);
        }
        i = i + 1;
    }
    assert(lv.take(ls.len() as int) == lv);
    seen
}

/// `s` flattened (see `flatten`).
pub fn flatten_line(s: &str) -> (r: String)
    ensures
        r@ == flatten(s@),
{
    let v = chars_vec(s);
    let mut out: Vec<char> = Vec::new();
    let mut i: usize = 0;
    while i < v.len()
        invariant
            i <= v.len(),
            v@ == s@,
            out@ == flatten(v@.take(i as int)),
        decreases v.len() - i,
    {
        if v[i] == '\n' {
            out.push(' ');
        } else {
            out.push(v[i]);
        }
        assert(flatten(v@.take(i + 1)) =~= flatten(v@.take(i as int)).push(
            if v@[i as int] == '\n' { ' ' } else { v@[i as int] }));
        i = i + 1;
    }
    assert(v@.take(v.len() as int) == v@);
    string_of(&out)
}

/// Whether a sample line is a salience-pair line.
pub fn is_pair_line(line: &str) -> (b: bool)
    ensures
        b == has_prefix(line@, pair_prefix()),
{
    starts_with(&chars_vec(line), &chars_vec("{\"kind\": \"salience_pair\""))
}

/// Sweeps `lines` into a stream whose file holds `existing`: returns the
/// fresh lines to append, in order, and how many distinct lines the
/// stream then holds (see `sweep`).
pub fn stream_fresh(existing: &str, lines: &Vec<String>, want_pairs: bool) -> (r: (Vec<String>, usize))
    ensures
        r.0@.map_values(|l: String| l@) == sweep(seen_hashes(lines_of(existing@)), lines@.map_values(|l: String| l@), want_pairs).1,
        r.1 == sweep(seen_hashes(lines_of(existing@)), lines@.map_values(|l: String| l@), want_pairs).0.len(),
{
    let ghost lv = lines@.map_values(|l: String| l@);
    let ghost s0 = seen_hashes(lines_of(existing@));
    let mut seen = existing_hashes(existing);
    let mut fresh: Vec<String> = Vec::new();
    let mut i: usize = 0;
    proof {
        lemma_seen_finite(lines_of(existing@));
    }
    while i < lines.len()
        invariant
            i <= lines.len(),
            lv == lines@.map_values(|l: String| l@),
            seen@ == sweep(s0, lv.take(i as int), want_pairs).0,
            fresh@.map_values(|l: String| l@) == sweep(s0, lv.take(i as int), want_pairs).1,
            seen@.finite(),
        decreases lines.len() - i,
    {
        assert(lv.take(i + 1).drop_last() == lv.take(i as int));
        assert(lv.take(i + 1).last() == lines[i as int]@);
        let line = lines[i].as_str();
        if is_pair_line(line) == want_pairs {
            let flat = flatten_line(line);
            let h = fnv_line(flat.as_str());
            if seen.insert(h) {
                let ghost before = fresh@;
                fresh.push(flat);
                assert(fresh@.map_values(|l: String| l@) =~= before.map_values(|l: String| l@).push(flatten(lines[i as int]@)));
            }
        }
        i = i + 1;
    }
    assert(lv.take(lines.len() as int) == lv);
    (fresh, seen.len())
}

/// What sweeping leaves seen: what was seen, and the hash of every
/// wanted line.
proof fn lemma_sweep_covers(seen: Set<u64>, lines: Seq<Seq<char>>, want_pairs: bool)
    ensures
        seen.subset_of(sweep(seen, lines, want_pairs).0),
        forall|i: int| 0 <= i < lines.len() && wanted(#[trigger] lines[i], want_pairs)
            ==> sweep(seen, lines, want_pairs).0.contains(line_hash(flatten(lines[i]))),
        forall|h: u64| #[trigger] sweep(seen, lines, want_pairs).0.contains(h)
            ==> seen.contains(h) || exists|j: int| 0 <= j < sweep(seen, lines, want_pairs).1.len()
                && line_hash(#[trigger] sweep(seen, lines, want_pairs).1[j]) == h,
        forall|j: int| 0 <= j < sweep(seen, lines, want_pairs).1.len()
            ==> exists|i: int| 0 <= i < lines.len() && wanted(lines[i], want_pairs)
                && #[trigger] sweep(seen, lines, want_pairs).1[j] == flatten(#[trigger] lines[i]),
    decreases lines.len(),
{
    if lines.len() > 0 {
        let prev = sweep(seen, lines.drop_last(), want_pairs);
        lemma_sweep_covers(seen, lines.drop_last(), want_pairs);
        let r = sweep(seen, lines, want_pairs);
        let last = lines.len() - 1;
        assert forall|i: int| 0 <= i < lines.len() && wanted(#[trigger] lines[i], want_pairs)
            implies r.0.contains(line_hash(flatten(lines[i]))) by {
            if i < last {
                assert(lines.drop_last()[i] == lines[i]);
            }
        }
        assert forall|h: u64| #[trigger] r.0.contains(h)
            implies seen.contains(h) || exists|j: int| 0 <= j < r.1.len() && line_hash(#[trigger] r.1[j]) == h by {
            if prev.0.contains(h) {
                if !seen.contains(h) {
                    let j = choose|j: int| 0 <= j < prev.1.len() && line_hash(#[trigger] prev.1[j]) == h;
                    assert(r.1[j] == prev.1[j]);
                }
            } else {
                assert(r.1[prev.1.len() as int] == flatten(lines.last()));
            }
        }
        assert forall|j: int| 0 <= j < r.1.len()
            implies exists|i: int| 0 <= i < lines.len() && wanted(lines[i], want_pairs)
                && #[trigger] r.1[j] == flatten(#[trigger] lines[i]) by {
            if j < prev.1.len() {
                let i = choose|i: int| 0 <= i < lines.drop_last().len() && wanted(lines.drop_last()[i], want_pairs)
                    && #[trigger] prev.1[j] == flatten(#[trigger] lines.drop_last()[i]);
                assert(lines[i] == lines.drop_last()[i]);
                assert(r.1[j] == prev.1[j]);
            } else {
                assert(lines[last] == lines.last());
            }
        }
    }
}

/// A sweep in which every wanted line is already seen finds nothing.
proof fn lemma_sweep_nothing_fresh(seen: Set<u64>, lines: Seq<Seq<char>>, want_pairs: bool)
    requires
        forall|i: int| 0 <= i < lines.len() && wanted(#[trigger] lines[i], want_pairs)
            ==> seen.contains(line_hash(flatten(lines[i]))),
    ensures
        sweep(seen, lines, want_pairs) == (seen, Seq::<Seq<char>>::empty()),
    decreases lines.len(),
{
    if lines.len() > 0 {
        assert forall|i: int| 0 <= i < lines.drop_last().len() && wanted(#[trigger] lines.drop_last()[i], want_pairs)
            implies seen.contains(line_hash(flatten(lines.drop_last()[i]))) by {
            assert(lines.drop_last()[i] == lines[i]);
        }
        lemma_sweep_nothing_fresh(seen, lines.drop_last(), want_pairs);
        assert(lines.last() == lines[lines.len() - 1]);
    }
}

/// The seen hashes of a file extended by lines: those of the file, and
/// those of the non-blank added lines.
proof fn lemma_seen_append(a: Seq<Seq<char>>, b: Seq<Seq<char>>)
    ensures
        seen_hashes(a).subset_of(seen_hashes(a + b)),
        forall|j: int| 0 <= j < b.len() && !is_blank(#[trigger] b[j])
            ==> seen_hashes(a + b).contains(line_hash(b[j])),
    decreases b.len(),
{
    if b.len() == 0 {
        assert(a + b == a);
    } else {
        lemma_seen_append(a, b.drop_last());
        assert((a + b).drop_last() == a + b.drop_last());
        assert((a + b).last() == b.last());
        assert forall|j: int| 0 <= j < b.len() && !is_blank(#[trigger] b[j])
            implies seen_hashes(a + b).contains(line_hash(b[j])) by {
            if j < b.len() - 1 {
                assert(b.drop_last()[j] == b[j]);
            }
        }
    }
}

/// Exporting twice appends nothing the second time: once the fresh lines
/// of a sweep have been added to the stream file, sweeping the same
/// sample lines again finds none fresh. This holds of sample lines whose
/// flattened form is not blank, which every sample line the export
/// writes is.
pub proof fn law_stream_sweep_idempotent(existing: Seq<Seq<char>>, lines: Seq<Seq<char>>, want_pairs: bool)
    requires
        forall|i: int| 0 <= i < lines.len() && wanted(#[trigger] lines[i], want_pairs)
            ==> !is_blank(flatten(lines[i])),
    ensures
        sweep(seen_hashes(existing + sweep(seen_hashes(existing), lines, want_pairs).1), lines, want_pairs).1
            == Seq::<Seq<char>>::empty(),
{
    let s0 = seen_hashes(existing);
    let r = sweep(s0, lines, want_pairs);
    lemma_sweep_covers(s0, lines, want_pairs);
    lemma_seen_append(existing, r.1);
    let t = seen_hashes(existing + r.1);
    assert forall|i: int| 0 <= i < lines.len() && wanted(#[trigger] lines[i], want_pairs)
        implies t.contains(line_hash(flatten(lines[i]))) by {
        let h = line_hash(flatten(lines[i]));
        assert(r.0.contains(h));
        if !s0.contains(h) {
            let j = choose|j: int| 0 <= j < r.1.len() && line_hash(#[trigger] r.1[j]) == h;
            let k = choose|k: int| 0 <= k < lines.len() && wanted(lines[k], want_pairs)
                && #[trigger] r.1[j] == flatten(#[trigger] lines[k]);
            assert(!is_blank(r.1[j]));
        }
    }
    lemma_sweep_nothing_fresh(t, lines, want_pairs);
}

/// A sweep that finds nothing fresh sees nothing new.
proof fn lemma_sweep_nothing_new(seen: Set<u64>, lines: Seq<Seq<char>>, want_pairs: bool)
    requires
        sweep(seen, lines, want_pairs).1 == Seq::<Seq<char>>::empty(),
    ensures
        sweep(seen, lines, want_pairs).0 == seen,
    decreases lines.len(),
{
    if lines.len() > 0 {
        let prev = sweep(seen, lines.drop_last(), want_pairs);
        let flat = flatten(lines.last());
        if !(!wanted(lines.last(), want_pairs) || prev.0.contains(line_hash(flat))) {
            assert(prev.1.push(flat).len() > 0);
        }
        lemma_sweep_nothing_new(seen, lines.drop_last(), want_pairs);
    }
}

/// Exporting twice appends nothing the second time, on the stream file
/// itself: once the fresh lines of a sweep are appended to the file
/// (each with its newline), sweeping the same sample lines against the
/// file's new text finds none fresh, and the stream's row count is then
/// the number of distinct non-blank lines (by hash) the file holds. This
/// holds when the file ended a line before the append, and of sample
/// lines whose flattened form is not blank and does not end with a
/// carriage return, as every sample line the export writes.
pub proof fn law_stream_file_idempotent(existing: Seq<char>, lines: Seq<Seq<char>>, want_pairs: bool)
    requires
        existing.len() == 0 || existing.last() == '\n',
        forall|i: int| 0 <= i < lines.len() && wanted(#[trigger] lines[i], want_pairs)
            ==> !is_blank(flatten(lines[i])) && flatten(lines[i]).last() != '\r',
    ensures
        sweep(
            seen_hashes(lines_of(existing + line_block(sweep(seen_hashes(lines_of(existing)), lines, want_pairs).1))),
            lines,
            want_pairs,
        ).1 == Seq::<Seq<char>>::empty(),
        sweep(
            seen_hashes(lines_of(existing + line_block(sweep(seen_hashes(lines_of(existing)), lines, want_pairs).1))),
            lines,
            want_pairs,
        ).0 == seen_hashes(lines_of(existing + line_block(sweep(seen_hashes(lines_of(existing)), lines, want_pairs).1))),
{
    let f = sweep(seen_hashes(lines_of(existing)), lines, want_pairs).1;
    lemma_sweep_covers(seen_hashes(lines_of(existing)), lines, want_pairs);
    assert forall|j: int| 0 <= j < f.len() implies !(#[trigger] f[j]).contains('\n') && (f[j].len() == 0
        || f[j].last() != '\r') by {
        let i = choose|i: int| 0 <= i < lines.len() && wanted(lines[i], want_pairs)
            && #[trigger] f[j] == flatten(#[trigger] lines[i]);
        if f[j].contains('\n') {
            let k = choose|k: int| 0 <= k < f[j].len() && f[j][k] == '\n';
            assert(flatten(lines[i])[k] != '\n');
        }
    }
    lemma_lines_of_block(f);
    lemma_lines_of_concat(existing, line_block(f));
    law_stream_sweep_idempotent(lines_of(existing), lines, want_pairs);
    lemma_sweep_nothing_new(seen_hashes(lines_of(existing + line_block(f))), lines, want_pairs);
}

/// The sample line for one salience-log row (`row` is the row's JSON).
pub open spec fn salience_line_spec(row: Seq<char>) -> Seq<char> {
    "{\"kind\": \"salience_pair\", \"row\": "@ + row + "}"@
}

/// The home of a memory: its library and control name, joined by a dot.
pub open spec fn home_spec(lib: Seq<char>, name: Seq<char>) -> Seq<char> {
    lib + "."@ + name
}

/// The sample line for one adjudication trace of a home.
pub open spec fn trace_line_spec(home: Seq<char>, trace: Seq<char>) -> Seq<char> {
    "{\"kind\": \"curation_trace\", \"home\": \""@ + esc_json(home) + "\", \"trace\": "@ + trace + "}"@
}

/// The sample line for one live claim of a home.
pub open spec fn claim_line_spec(home: Seq<char>, entry: Seq<char>) -> Seq<char> {
    "{\"kind\": \"claim\", \"home\": \""@ + esc_json(home) + "\", \"entry\": "@ + entry + "}"@
}

/// The sample line for one salience-log row.
pub fn salience_line(row: &str) -> (r: String)
    ensures
        r@ == salience_line_spec(row@),
{
    concat3("{\"kind\": \"salience_pair\", \"row\": ", row, "}")
}

/// The home of a memory (see `home_spec`).
pub fn home_of(lib: &str, name: &str) -> (r: String)
    ensures
        r@ == home_spec(lib@, name@),
{
    concat3(lib, ".", name)
}

/// The sample line for one adjudication trace.
pub fn trace_line(home: &str, trace: &str) -> (r: String)
    ensures
        r@ == trace_line_spec(home@, trace@),
{
    let h = json_escape(home);
    concat5("{\"kind\": \"curation_trace\", \"home\": \"", h.as_str(), "\", \"trace\": ", trace, "}")
}

/// The sample line for one live claim.
pub fn claim_line(home: &str, entry: &str) -> (r: String)
    ensures
        r@ == claim_line_spec(home@, entry@),
{
    let h = json_escape(home);
    concat5("{\"kind\": \"claim\", \"home\": \"", h.as_str(), "\", \"entry\": ", entry, "}")
}

/// Salience rows go to the salience-pairs stream; traces and claims to
/// the memory stream.
pub proof fn law_samples_sorted_by_kind(row: Seq<char>, home: Seq<char>, body: Seq<char>)
    ensures
        has_prefix(salience_line_spec(row), pair_prefix()),
        !has_prefix(trace_line_spec(home, body), pair_prefix()),
        !has_prefix(claim_line_spec(home, body), pair_prefix()),
{
    reveal_strlit("{\"kind\": \"salience_pair\"");
    reveal_strlit("{\"kind\": \"salience_pair\", \"row\": ");
    reveal_strlit("{\"kind\": \"curation_trace\", \"home\": \"");
    reveal_strlit("{\"kind\": \"claim\", \"home\": \"");
    let p = pair_prefix();
    let s = salience_line_spec(row);
    assert(s.take(p.len() as int) =~= p);
    let a = "{\"kind\": \"curation_trace\", \"home\": \""@;
    let t = trace_line_spec(home, body);
    assert(t == a + (esc_json(home) + "\", \"trace\": "@ + body + "}"@));
    assert(a[10] == 'c' && p[10] == 's' && a.len() > p.len());
    assert(t[10] == a[10]);
    assert(t.take(p.len() as int)[10] != p[10]);
    let b = "{\"kind\": \"claim\", \"home\": \""@;
    let c = claim_line_spec(home, body);
    assert(c == b + (esc_json(home) + "\", \"entry\": "@ + body + "}"@));
    assert(b[10] == 'c' && b.len() > p.len());
    assert(c[10] == b[10]);
    assert(c.take(p.len() as int)[10] != p[10]);
}

/// The batch file's text: the sample lines joined by newlines, with a
/// final newline.
pub open spec fn batch_text(lines: Seq<Seq<char>>) -> Seq<char> {
    join_lines(lines) + "\n"@
}

/// The batch file's text (see `batch_text`).
pub fn batch_content(lines: &Vec<String>) -> (r: String)
    ensures
        r@ == batch_text(lines@.map_values(|l: String| l@)),
{
    let ghost lv = lines@.map_values(|l: String| l@);
    let mut out = String::new();
    let n = lines.len();
    let mut i: usize = n;
    proof {
        reveal_strlit("\n");
    }
    // built from the back: join(ls[i..]) is known by its first element
    let mut tail: String = String::new();
    while i > 0
        invariant
            i <= n,
            n == lines.len(),
            lv == lines@.map_values(|l: String| l@),
            tail@ == join_lines(lv.skip(i as int)),
        decreases i,
    {
        let ghost rest = lv.skip(i as int);
        i = i - 1;
        let ghost now = lv.skip(i as int);
        assert(now.drop_first() =~= rest);
        assert(now[0] == lines[i as int]@);
        if i + 1 == n {
            assert(rest.len() == 0);
            tail = concat(lines[i].as_str(), "");
            proof {
                reveal_strlit("");
            }
            assert(tail@ =~= now[0]);
        } else {
            tail = concat3(lines[i].as_str(), "\n", tail.as_str());
            proof {
                reveal_strlit("\n");
            }
        }
    }
    assert(lv.skip(0) =~= lv);
    out = concat(tail.as_str(), "\n");
    out
}

/// Whether a memory entry is exported as a claim: it states a claim and
/// has not been superseded.
pub fn exported_claim(has_claim: bool, superseded: bool) -> (b: bool)
    ensures
        b == (has_claim && !superseded),
{
    has_claim && !superseded
}

} // verus!
