//! Agent settings: the one-line `KEY=value` entries of `botd.properties`.
//! A setting is changed by rewriting the file in place, every other line
//! kept; an empty value removes the setting.
use vstd::prelude::*;
use crate::text::{lemma_trim_start_skip, chars_vec, concat, concat3, contains, eq_str, has_infix, has_prefix, is_ws, string_of, trim, trim_end, trim_start, trim_str, trim_vec};

verus! {

/// What std's `format!("{:?}", s)` writes for a string: the string
/// quoted, with its special characters escaped.
pub uninterp spec fn debug_text(s: Seq<char>) -> Seq<char>;

/// std's `Debug` rendering of a string (`format!("{:?}", s)`), taken as
/// the name `debug_text`; its escaping rules are not restated here.
#[verifier::external_body]
fn debug_string(s: &str) -> (r: String)
    ensures
        r@ == debug_text(s@),
{
    format!("{:?}", s)
}

/// A character a setting's key may hold: `[A-Z0-9_]`.
pub open spec fn is_key_char(c: char) -> bool {
    let u = c as u32;
    (0x41 <= u <= 0x5a) || (0x30 <= u <= 0x39) || c == '_'
}

/// A setting key: non-empty upper snake case.
pub open spec fn key_ok(k: Seq<char>) -> bool {
    k.len() > 0 && forall|i: int| 0 <= i < k.len() ==> is_key_char(#[trigger] k[i])
}

/// A key that looks like it holds a secret.
pub open spec fn secret_looking(k: Seq<char>) -> bool {
    has_infix(k, "KEY"@) || has_infix(k, "TOKEN"@) || has_infix(k, "SECRET"@)
}

/// What `set_setting` makes of its arguments: the trimmed key and value,
/// or the error text of the first check that fails.
pub open spec fn setting_request_spec(key: Seq<char>, value: Seq<char>) -> Result<(Seq<char>, Seq<char>), Seq<char>> {
    setting_checks(trim(key), debug_text(trim(key)), trim(value))
}

/// The checks of `setting_request_spec` on the trimmed key `k`, shown in
/// an error as `shown` (its Debug rendering), and the trimmed value `v`.
pub open spec fn setting_checks(k: Seq<char>, shown: Seq<char>, v: Seq<char>) -> Result<(Seq<char>, Seq<char>), Seq<char>> {
    if !key_ok(k) {
        Err("key must be UPPER_SNAKE ([A-Z0-9_]): "@ + shown)
    } else if secret_looking(k) {
        Err("secret-looking keys are not editable from the UI - edit botd.properties directly"@)
    } else if v.contains('\n') || v.contains('\r') {
        Err("value must be a single line"@)
    } else {
        Ok((k, v))
    }
}

fn key_chars_only(v: &Vec<char>) -> (b: bool)
    ensures
        b == key_ok(v@),
{
    if v.len() == 0 {
        return false;
    }
    let mut i: usize = 0;
    while i < v.len()
        invariant
            i <= v.len(),
            forall|k: int| 0 <= k < i ==> is_key_char(#[trigger] v@[k]),
        decreases v.len() - i,
    {
        let u = v[i] as u32;
        if !((0x41 <= u && u <= 0x5a) || (0x30 <= u && u <= 0x39) || v[i] == '_') {
            return false;
        }
        i = i + 1;
    }
    true
}

fn has_char(v: &Vec<char>, c: char) -> (b: bool)
    ensures
        b == v@.contains(c),
{
    let mut i: usize = 0;
    while i < v.len()
        invariant
            i <= v.len(),
            forall|k: int| 0 <= k < i ==> v@[k] != c,
        decreases v.len() - i,
    {
        if v[i] == c {
            return true;
        }
        i = i + 1;
    }
    false
}

/// The checks `set_setting` makes of its arguments: a well-formed key, no
/// secret-looking key, a one-line value.
pub fn setting_request(key: &str, value: &str) -> (r: Result<(String, String), String>)
    ensures
        match r {
            Ok((k, v)) => setting_request_spec(key@, value@) == Ok::<(Seq<char>, Seq<char>), Seq<char>>((k@, v@)),
            Err(m) => setting_request_spec(key@, value@) == Err::<(Seq<char>, Seq<char>), Seq<char>>(m@),
        },
{
    let k = trim_str(key);
    let shown = debug_string(k.as_str());
    let v = trim_str(value);
    setting_checked(k, shown.as_str(), v)
}

/// The checks of `setting_request` on the trimmed key `k`, shown in an
/// error as `shown`, and the trimmed value `v` (see `setting_checks`).
pub fn setting_checked(k: String, shown: &str, v: String) -> (r: Result<(String, String), String>)
    ensures
        match r {
            Ok((a, b)) => setting_checks(k@, shown@, v@) == Ok::<(Seq<char>, Seq<char>), Seq<char>>((a@, b@)),
            Err(m) => setting_checks(k@, shown@, v@) == Err::<(Seq<char>, Seq<char>), Seq<char>>(m@),
        },
{
    let kv = chars_vec(k.as_str());
    if !key_chars_only(&kv) {
        return Err(concat("key must be UPPER_SNAKE ([A-Z0-9_]): ", shown));
    }
    if contains(&kv, &chars_vec("KEY")) || contains(&kv, &chars_vec("TOKEN")) || contains(&kv, &chars_vec("SECRET")) {
        return Err(String::from_str("secret-looking keys are not editable from the UI - edit botd.properties directly"));
    }
    let vv = chars_vec(v.as_str());
    if has_char(&vv, '\n') || has_char(&vv, '\r') {
        return Err(String::from_str("value must be a single line"));
    }
    Ok((k, v))
}

/// `l` without one trailing carriage return.
pub open spec fn strip_cr(l: Seq<char>) -> Seq<char> {
    if l.len() > 0 && l.last() == '\r' {
        l.drop_last()
    } else {
        l
    }
}

/// The first index of `c` in `s`.
pub open spec fn index_of(s: Seq<char>, c: char) -> Option<int>
    decreases s.len(),
{
    if s.len() == 0 {
        None
    } else if s[0] == c {
        Some(0)
    } else {
        match index_of(s.drop_first(), c) {
            Some(i) => Some(i + 1),
            None => None,
        }
    }
}

/// The lines of `s` as std's `str::lines` yields them: split at `\n`,
/// a `\r` before the `\n` dropped, no empty line after a final `\n`.
pub open spec fn lines_of(s: Seq<char>) -> Seq<Seq<char>>
    decreases s.len(),
{
    if s.len() == 0 {
        Seq::empty()
    } else {
        match index_of(s, '\n') {
            Some(i) => if 0 <= i < s.len() {
                seq![strip_cr(s.take(i))] + lines_of(s.skip(i + 1))
            } else {
                seq![s]
            },
            None => seq![s],
        }
    }
}

proof fn lemma_index_of_bounds(s: Seq<char>, c: char)
    ensures
        match index_of(s, c) {
            Some(i) => 0 <= i < s.len() && s[i] == c && forall|j: int| 0 <= j < i ==> s[j] != c,
            None => forall|j: int| 0 <= j < s.len() ==> s[j] != c,
        },
    decreases s.len(),
{
    if s.len() > 0 {
        lemma_index_of_bounds(s.drop_first(), c);
        if s[0] != c {
            match index_of(s.drop_first(), c) {
                Some(i) => {
                    assert forall|j: int| 0 <= j < i + 1 implies s[j] != c by {
                        if j > 0 {
                            assert(s[j] == s.drop_first()[j - 1]);
                        }
                    }
                },
                None => {
                    assert forall|j: int| 0 <= j < s.len() implies s[j] != c by {
                        if j > 0 {
                            assert(s[j] == s.drop_first()[j - 1]);
                        }
                    }
                },
            }
        }
    }
}

proof fn lemma_index_of_char_at(s: Seq<char>, c: char, i: int)
    requires
        0 <= i < s.len(),
        s[i] == c,
        forall|j: int| 0 <= j < i ==> s[j] != c,
    ensures
        index_of(s, c) == Some(i),
    decreases i,
{
    if i > 0 {
        lemma_index_of_char_at(s.drop_first(), c, i - 1);
    }
}

proof fn lemma_index_of_none(s: Seq<char>, c: char)
    requires
        forall|j: int| 0 <= j < s.len() ==> s[j] != c,
    ensures
        index_of(s, c) is None,
    decreases s.len(),
{
    if s.len() > 0 {
        lemma_index_of_none(s.drop_first(), c);
    }
}

/// The lines of `text`, as std's `str::lines` yields them.
pub fn split_lines(text: &str) -> (ls: Vec<String>)
    ensures
        ls@.map_values(|l: String| l@) == lines_of(text@),
{
    let v = chars_vec(text);
    let mut out: Vec<String> = Vec::new();
    let mut cur: Vec<char> = Vec::new();
    let mut start: usize = 0;
    let mut i: usize = 0;
    assert(v@.skip(0) == v@);
    while i < v.len()
        invariant
            start <= i <= v.len(),
            v@ == text@,
            lines_of(v@) == out@.map_values(|l: String| l@) + lines_of(v@.skip(start as int)),
            cur@ == v@.subrange(start as int, i as int),
            forall|j: int| start <= j < i ==> v@[j] != '\n',
        decreases v.len() - i,
    {
        if v[i] == '\n' {
            let ghost rest = v@.skip(start as int);
            proof {
                assert forall|j: int| 0 <= j < i - start implies rest[j] != '\n' by {
                    assert(rest[j] == v@[start + j]);
                }
                assert(rest[i - start] == '\n');
                lemma_index_of_char_at(rest, '\n', i - start);
                assert(rest.take(i - start) == cur@);
                assert(rest.skip(i - start + 1) == v@.skip(i + 1));
            }
            let mut line = cur;
            if line.len() > 0 && line[line.len() - 1] == '\r' {
                line.pop();
                assert(line@ == cur@.drop_last());
            }
            let ghost before = out@;
            out.push(string_of(&line));
            proof {
                assert(out@.map_values(|l: String| l@) == before.map_values(|l: String| l@).push(strip_cr(cur@)));
                assert(lines_of(rest) == seq![strip_cr(cur@)] + lines_of(v@.skip(i + 1)));
                assert(before.map_values(|l: String| l@) + (seq![strip_cr(cur@)] + lines_of(v@.skip(i + 1)))
                    == before.map_values(|l: String| l@).push(strip_cr(cur@)) + lines_of(v@.skip(i + 1)));
            }
            cur = Vec::new();
            start = i + 1;
        } else {
            cur.push(v[i]);
            assert(v@.subrange(start as int, i + 1) == v@.subrange(start as int, i as int).push(v@[i as int]));
        }
        i = i + 1;
    }
    let ghost rest = v@.skip(start as int);
    if start < v.len() {
        proof {
            assert forall|j: int| 0 <= j < rest.len() implies rest[j] != '\n' by {
                assert(rest[j] == v@[start + j]);
            }
            lemma_index_of_none(rest, '\n');
            assert(rest == cur@);
            assert(lines_of(rest) == seq![rest]);
        }
        let ghost before = out@;
        out.push(string_of(&cur));
        assert(out@.map_values(|l: String| l@) == before.map_values(|l: String| l@).push(cur@));
        assert(before.map_values(|l: String| l@) + seq![cur@] == before.map_values(|l: String| l@).push(cur@));
    } else {
        assert(rest.len() == 0);
        assert(lines_of(rest) == Seq::<Seq<char>>::empty());
        assert(out@.map_values(|l: String| l@) + Seq::<Seq<char>>::empty() == out@.map_values(|l: String| l@));
    }
    out
}

/// Whether `line` sets `key`: not a comment, and the text before its
/// first `=` is the key, give or take whitespace.
pub open spec fn is_key_line(line: Seq<char>, key: Seq<char>) -> bool {
    let t = trim(line);
    !has_prefix(t, "#"@) && match index_of(t, '=') {
        Some(eq) => trim(t.take(eq)) == key,
        None => false,
    }
}

/// The line that sets `key` to `value`.
pub open spec fn setting_line(key: Seq<char>, value: Seq<char>) -> Seq<char> {
    key + "="@ + value
}

/// The file's lines after setting `key` to `value`, from `lines` on:
/// the first line for the key becomes the new setting (or goes, for an
/// empty value), later ones go, others stay; an unset key is appended.
pub open spec fn rewrite_from(lines: Seq<Seq<char>>, key: Seq<char>, value: Seq<char>, replaced: bool) -> Seq<Seq<char>>
    decreases lines.len(),
{
    let new_line = if value.len() > 0 && !replaced { seq![setting_line(key, value)] } else { Seq::empty() };
    if lines.len() == 0 {
        new_line
    } else if is_key_line(lines[0], key) {
        new_line + rewrite_from(lines.drop_first(), key, value, true)
    } else {
        seq![lines[0]] + rewrite_from(lines.drop_first(), key, value, replaced)
    }
}

/// Lines joined with `\n` between them.
pub open spec fn join_lines(ls: Seq<Seq<char>>) -> Seq<char>
    decreases ls.len(),
{
    if ls.len() == 0 {
        Seq::empty()
    } else if ls.len() == 1 {
        ls[0]
    } else {
        ls[0] + "\n"@ + join_lines(ls.drop_first())
    }
}

/// The file's text after setting `key` to `value`: the rewritten lines,
/// each ended by a newline.
pub open spec fn rewritten_text(text: Seq<char>, key: Seq<char>, value: Seq<char>) -> Seq<char> {
    let j = join_lines(rewrite_from(lines_of(text), key, value, false));
    if j.len() > 0 { j + "\n"@ } else { j }
}

/// Whether any line of `lines` sets `key`.
pub open spec fn has_key_line(lines: Seq<Seq<char>>, key: Seq<char>) -> bool {
    exists|i: int| 0 <= i < lines.len() && is_key_line(#[trigger] lines[i], key)
}

/// What the change did: removed (empty value), updated (the key was
/// there), or added.
pub open spec fn setting_action(text: Seq<char>, key: Seq<char>, value: Seq<char>) -> Seq<char> {
    if value.len() == 0 {
        "removed"@
    } else if has_key_line(lines_of(text), key) {
        "updated"@
    } else {
        "added"@
    }
}

/// Whether `line` sets `key`.
pub fn key_line(line: &str, key: &str) -> (b: bool)
    ensures
        b == is_key_line(line@, key@),
{
    proof {
        reveal_strlit("#");
    }
    let tv = trim_vec(&chars_vec(line));
    if tv.len() > 0 && tv[0] == '#' {
        assert(tv@.take(1) == seq!['#']);
        assert("#"@ == seq!['#']);
        return false;
    }
    assert(!has_prefix(tv@, "#"@)) by {
        assert("#"@ == seq!['#']);
        if tv@.len() > 0 {
            assert(tv@.take(1)[0] == tv@[0]);
        }
    }
    let mut i: usize = 0;
    while i < tv.len() && tv[i] != '='
        invariant
            i <= tv.len(),
            forall|j: int| 0 <= j < i ==> tv@[j] != '=',
        decreases tv.len() - i,
    {
        i = i + 1;
    }
    if i == tv.len() {
        proof {
            lemma_index_of_none(tv@, '=');
        }
        return false;
    }
    proof {
        lemma_index_of_char_at(tv@, '=', i as int);
    }
    let mut before: Vec<char> = Vec::new();
    let mut j: usize = 0;
    while j < i
        invariant
            j <= i < tv.len(),
            before@ == tv@.take(j as int),
        decreases i - j,
    {
        before.push(tv[j]);
        assert(tv@.take(j + 1) == tv@.take(j as int).push(tv@[j as int]));
        j = j + 1;
    }
    let b = trim_vec(&before);
    let s = string_of(&b);
    eq_str(s.as_str(), key)
}

proof fn lemma_join_push(ls: Seq<Seq<char>>, x: Seq<char>)
    ensures
        join_lines(ls.push(x)) == if ls.len() == 0 { x } else { join_lines(ls) + "\n"@ + x },
    decreases ls.len(),
{
    if ls.len() == 0 {
        assert(ls.push(x) == seq![x]);
    } else if ls.len() == 1 {
        assert(ls.push(x).drop_first() == seq![x]);
        assert(join_lines(seq![x]) == x);
        assert(ls.push(x)[0] == ls[0]);
    } else if ls.len() > 1 {
        assert(ls.push(x)[0] == ls[0]);
        lemma_join_push(ls.drop_first(), x);
        assert(ls.push(x).drop_first() == ls.drop_first().push(x));
        assert(ls[0] + "\n"@ + (join_lines(ls.drop_first()) + "\n"@ + x) == ls[0] + "\n"@ + join_lines(ls.drop_first()) + "\n"@ + x);
    }
}

/// The file's text after setting `key` to `value`, and what the change
/// did (see `rewritten_text` and `setting_action`).
pub fn rewrite_setting(text: &str, key: &str, value: &str) -> (r: (String, String))
    ensures
        r.0@ == rewritten_text(text@, key@, value@),
        r.1@ == setting_action(text@, key@, value@),
{
    let lines = split_lines(text);
    let ghost lv = lines@.map_values(|l: String| l@);
    let has_value = value.unicode_len() > 0;
    let mut out: Vec<String> = Vec::new();
    let mut replaced = false;
    let mut i: usize = 0;
    assert(lv.skip(0) == lv);
    assert(Seq::<Seq<char>>::empty() + rewrite_from(lv, key@, value@, false) == rewrite_from(lv, key@, value@, false));
    while i < lines.len()
        invariant
            i <= lines.len(),
            lv == lines@.map_values(|l: String| l@),
            lv == lines_of(text@),
            has_value == (value@.len() > 0),
            rewrite_from(lv, key@, value@, false) == out@.map_values(|l: String| l@) + rewrite_from(lv.skip(i as int), key@, value@, replaced),
            replaced == has_key_line(lv.take(i as int), key@),
        decreases lines.len() - i,
    {
        let ghost rest = lv.skip(i as int);
        let ghost before = out@.map_values(|l: String| l@);
        assert(rest[0] == lines@[i as int]@);
        assert(rest.drop_first() == lv.skip(i + 1));
        let k = key_line(lines[i].as_str(), key);
        if k {
            if has_value && !replaced {
                out.push(concat3(key, "=", value));
                assert(out@.map_values(|l: String| l@) == before.push(setting_line(key@, value@)));
                assert(before + (seq![setting_line(key@, value@)] + rewrite_from(lv.skip(i + 1), key@, value@, true))
                    == before.push(setting_line(key@, value@)) + rewrite_from(lv.skip(i + 1), key@, value@, true));
            } else {
                assert(out@.map_values(|l: String| l@) == before);
                assert(Seq::<Seq<char>>::empty() + rewrite_from(lv.skip(i + 1), key@, value@, true) == rewrite_from(lv.skip(i + 1), key@, value@, true));
            }
            replaced = true;
        } else {
            out.push(lines[i].clone());
            assert(out@.map_values(|l: String| l@) == before.push(lv[i as int]));
            assert(before + (seq![lv[i as int]] + rewrite_from(lv.skip(i + 1), key@, value@, replaced))
                == before.push(lv[i as int]) + rewrite_from(lv.skip(i + 1), key@, value@, replaced));
        }
        proof {
            assert(lv.take(i + 1) == lv.take(i as int).push(lv[i as int]));
            if is_key_line(lv[i as int], key@) {
                assert(is_key_line(lv.take(i + 1)[i as int], key@));
            }
            if has_key_line(lv.take(i + 1), key@) && !is_key_line(lv[i as int], key@) {
                let w = choose|w: int| 0 <= w < lv.take(i + 1).len() && is_key_line(#[trigger] lv.take(i + 1)[w], key@);
                assert(w < i);
                assert(lv.take(i as int)[w] == lv.take(i + 1)[w]);
            }
            if has_key_line(lv.take(i as int), key@) {
                let w = choose|w: int| 0 <= w < lv.take(i as int).len() && is_key_line(#[trigger] lv.take(i as int)[w], key@);
                assert(lv.take(i + 1)[w] == lv.take(i as int)[w]);
            }
        }
        i = i + 1;
    }
    assert(lv.take(lines.len() as int) == lv);
    let ghost tailv = rewrite_from(lv.skip(i as int), key@, value@, replaced);
    assert(lv.skip(i as int).len() == 0);
    if has_value && !replaced {
        let ghost before = out@.map_values(|l: String| l@);
        out.push(concat3(key, "=", value));
        assert(out@.map_values(|l: String| l@) == before.push(setting_line(key@, value@)));
        assert(tailv == seq![setting_line(key@, value@)]);
        assert(before + seq![setting_line(key@, value@)] == before.push(setting_line(key@, value@)));
    } else {
        assert(tailv == Seq::<Seq<char>>::empty());
        assert(out@.map_values(|l: String| l@) + Seq::<Seq<char>>::empty() == out@.map_values(|l: String| l@));
    }
    let ghost ov = out@.map_values(|l: String| l@);
    assert(ov == rewrite_from(lv, key@, value@, false));
    let mut content = String::new();
    let mut j: usize = 0;
    while j < out.len()
        invariant
            j <= out.len(),
            ov == out@.map_values(|l: String| l@),
            content@ == join_lines(ov.take(j as int)),
        decreases out.len() - j,
    {
        proof {
            lemma_join_push(ov.take(j as int), ov[j as int]);
            assert(ov.take(j + 1) == ov.take(j as int).push(ov[j as int]));
        }
        if j == 0 {
            content = out[0].clone();
        } else {
            content = concat3(content.as_str(), "\n", out[j].as_str());
        }
        j = j + 1;
    }
    assert(ov.take(out.len() as int) == ov);
    if content.as_str().unicode_len() > 0 {
        content = concat(content.as_str(), "\n");
    }
    let action = if !has_value {
        String::from_str("removed")
    } else if replaced {
        String::from_str("updated")
    } else {
        String::from_str("added")
    };
    (content, action)
}

/// Every line without one trailing carriage return.
pub open spec fn strip_all(ls: Seq<Seq<char>>) -> Seq<Seq<char>> {
    ls.map_values(|l: Seq<char>| strip_cr(l))
}

/// How many of `lines` set `key`.
pub open spec fn key_line_count(lines: Seq<Seq<char>>, key: Seq<char>) -> nat
    decreases lines.len(),
{
    if lines.len() == 0 {
        0
    } else {
        (if is_key_line(lines[0], key) { 1nat } else { 0nat }) + key_line_count(lines.drop_first(), key)
    }
}

proof fn lemma_lines_have_no_newline(s: Seq<char>)
    ensures
        forall|i: int| 0 <= i < lines_of(s).len() ==> !(#[trigger] lines_of(s)[i]).contains('\n'),
    decreases s.len(),
{
    if s.len() > 0 {
        lemma_index_of_bounds(s, '\n');
        match index_of(s, '\n') {
            Some(k) => {
                lemma_lines_have_no_newline(s.skip(k + 1));
                let first = strip_cr(s.take(k));
                assert(!first.contains('\n')) by {
                    if first.contains('\n') {
                        let j = choose|j: int| 0 <= j < first.len() && first[j] == '\n';
                        assert(s.take(k)[j] == '\n');
                    }
                }
                let ls = lines_of(s);
                assert(ls == seq![first] + lines_of(s.skip(k + 1)));
                assert forall|i: int| 0 <= i < ls.len() implies !(#[trigger] ls[i]).contains('\n') by {
                    if i > 0 {
                        assert(ls[i] == lines_of(s.skip(k + 1))[i - 1]);
                    }
                }
            },
            None => {
                assert(!s.contains('\n'));
            },
        }
    }
}

proof fn lemma_trim_start_shape(s: Seq<char>) -> (k: int)
    ensures
        0 <= k <= s.len(),
        trim_start(s) == s.skip(k),
        forall|j: int| 0 <= j < k ==> is_ws(#[trigger] s[j]),
        k < s.len() ==> !is_ws(s[k]),
    decreases s.len(),
{
    if s.len() > 0 && is_ws(s[0]) {
        let k1 = lemma_trim_start_shape(s.drop_first());
        assert(s.drop_first().skip(k1) == s.skip(k1 + 1));
        assert forall|j: int| 0 <= j < k1 + 1 implies is_ws(#[trigger] s[j]) by {
            if j > 0 {
                assert(s[j] == s.drop_first()[j - 1]);
            }
        }
        if k1 + 1 < s.len() {
            assert(s[k1 + 1] == s.drop_first()[k1]);
        }
        k1 + 1
    } else {
        assert(s.skip(0) == s);
        0
    }
}

/// Trimming ignores one more trailing whitespace character.
proof fn lemma_trim_drop_ws_last(s: Seq<char>)
    requires
        s.len() > 0,
        is_ws(s.last()),
    ensures
        trim(s.drop_last()) == trim(s),
{
    let k = lemma_trim_start_shape(s);
    let d = s.drop_last();
    if k < s.len() {
        assert(k < s.len() - 1);
        lemma_trim_start_skip(d, k);
        assert(d.subrange(k, d.len() as int) == d.skip(k));
        assert(d.skip(k)[0] == s[k]);
        assert(trim_start(d.skip(k)) == d.skip(k));
        let t = s.skip(k);
        assert(t.len() > 0 && t.last() == s.last());
        assert(t.drop_last() == d.skip(k));
        assert(trim_end(t) == trim_end(t.drop_last()));
    } else {
        lemma_trim_start_skip(d, d.len() as int);
        assert(d.subrange(d.len() as int, d.len() as int) == Seq::<char>::empty());
        assert(trim_start(Seq::<char>::empty()) == Seq::<char>::empty());
        assert(s.skip(k) == Seq::<char>::empty());
        assert(trim_end(Seq::<char>::empty()) == Seq::<char>::empty());
    }
}

proof fn lemma_key_line_strip_cr(l: Seq<char>, key: Seq<char>)
    ensures
        is_key_line(strip_cr(l), key) == is_key_line(l, key),
{
    if l.len() > 0 && l.last() == '\r' {
        lemma_trim_drop_ws_last(l);
    }
}

proof fn lemma_trim_of_unpadded(s: Seq<char>)
    requires
        s.len() > 0,
        !is_ws(s[0]),
        !is_ws(s.last()),
    ensures
        trim(s) == s,
{
    assert(trim_start(s) == s);
}

proof fn lemma_trimmed_ends(v: Seq<char>)
    requires
        v == trim(v),
        v.len() > 0,
    ensures
        !is_ws(v[0]),
        !is_ws(v.last()),
{
    let k = lemma_trim_start_shape(v);
    let t = v.skip(k);
    if k > 0 || (t.len() > 0 && is_ws(t.last())) {
        // trimming would shorten v
        lemma_trim_end_shorter(t);
        assert(trim(v).len() < v.len());
    }
    if t.len() == 0 {
        assert(trim_end(t) == t);
    }
}

proof fn lemma_trim_end_shape(s: Seq<char>) -> (m: int)
    ensures
        0 <= m <= s.len(),
        trim_end(s) == s.take(m),
        m > 0 ==> !is_ws(s[m - 1]),
    decreases s.len(),
{
    if s.len() > 0 && is_ws(s.last()) {
        let m1 = lemma_trim_end_shape(s.drop_last());
        assert(s.drop_last().take(m1) == s.take(m1));
        if m1 > 0 {
            assert(s.drop_last()[m1 - 1] == s[m1 - 1]);
        }
        m1
    } else {
        assert(s.take(s.len() as int) == s);
        s.len() as int
    }
}

proof fn lemma_trim_idempotent(x: Seq<char>)
    ensures
        trim(trim(x)) == trim(x),
{
    let k = lemma_trim_start_shape(x);
    let y = x.skip(k);
    let m = lemma_trim_end_shape(y);
    let t = y.take(m);
    if m > 0 {
        assert(t[0] == y[0]);
        assert(y[0] == x[k]);
        assert(t.last() == y[m - 1]);
        lemma_trim_of_unpadded(t);
    } else {
        assert(t == Seq::<char>::empty());
        assert(trim_start(t) == t);
        assert(trim_end(t) == t);
    }
}

proof fn lemma_trim_end_shorter(t: Seq<char>)
    ensures
        trim_end(t).len() <= t.len(),
        t.len() > 0 && is_ws(t.last()) ==> trim_end(t).len() < t.len(),
    decreases t.len(),
{
    if t.len() > 0 && is_ws(t.last()) {
        lemma_trim_end_shorter(t.drop_last());
    }
}

proof fn lemma_setting_line_is_key_line(key: Seq<char>, value: Seq<char>)
    requires
        key_ok(key),
        value == trim(value),
        value.len() > 0,
    ensures
        is_key_line(setting_line(key, value), key),
{
    reveal_strlit("=");
    reveal_strlit("#");
    lemma_trimmed_ends(value);
    let l = setting_line(key, value);
    assert(l[0] == key[0]);
    assert(is_key_char(key[0]));
    assert(l.last() == value.last());
    lemma_trim_of_unpadded(l);
    assert forall|j: int| 0 <= j < key.len() implies l[j] != '=' by {
        assert(l[j] == key[j]);
        assert(is_key_char(key[j]));
    }
    assert(l[key.len() as int] == '=');
    lemma_index_of_char_at(l, '=', key.len() as int);
    assert(l.take(key.len() as int) == key);
    lemma_trim_of_unpadded(key);
    assert(!has_prefix(l, "#"@)) by {
        assert(l.take(1)[0] == key[0]);
    }
}

proof fn lemma_rewrite_props(lines: Seq<Seq<char>>, key: Seq<char>, value: Seq<char>, replaced: bool)
    requires
        value.len() > 0 ==> is_key_line(setting_line(key, value), key),
    ensures
        key_line_count(rewrite_from(lines, key, value, replaced), key) == if value.len() > 0 && !replaced { 1nat } else { 0nat },
        forall|i: int| 0 <= i < rewrite_from(lines, key, value, replaced).len()
            && is_key_line(#[trigger] rewrite_from(lines, key, value, replaced)[i], key)
            ==> rewrite_from(lines, key, value, replaced)[i] == setting_line(key, value),
    decreases lines.len(),
{
    let out = rewrite_from(lines, key, value, replaced);
    let new_line = if value.len() > 0 && !replaced { seq![setting_line(key, value)] } else { Seq::<Seq<char>>::empty() };
    assert(key_line_count(Seq::<Seq<char>>::empty(), key) == 0);
    if lines.len() == 0 {
        if value.len() > 0 && !replaced {
            assert(out == seq![setting_line(key, value)]);
            assert(out.drop_first() == Seq::<Seq<char>>::empty());
            assert(out[0] == setting_line(key, value));
            assert(key_line_count(out, key) == 1 + key_line_count(out.drop_first(), key));
        } else {
            assert(out == Seq::<Seq<char>>::empty());
        }
    } else if is_key_line(lines[0], key) {
        let rest = rewrite_from(lines.drop_first(), key, value, true);
        lemma_rewrite_props(lines.drop_first(), key, value, true);
        assert(out == new_line + rest);
        if value.len() > 0 && !replaced {
            assert(out.drop_first() == rest);
            assert(out[0] == setting_line(key, value));
            assert(key_line_count(out, key) == 1 + key_line_count(out.drop_first(), key));
        } else {
            assert(out == rest);
        }
        assert forall|i: int| 0 <= i < out.len() && is_key_line(#[trigger] out[i], key) implies out[i] == setting_line(key, value) by {
            if i >= new_line.len() {
                assert(out[i] == rest[i - new_line.len()]);
            }
        }
    } else {
        let rest = rewrite_from(lines.drop_first(), key, value, replaced);
        lemma_rewrite_props(lines.drop_first(), key, value, replaced);
        assert(out == seq![lines[0]] + rest);
        assert(out.drop_first() == rest);
        assert(out[0] == lines[0]);
        assert(key_line_count(out, key) == 0 + key_line_count(out.drop_first(), key));
        assert forall|i: int| 0 <= i < out.len() && is_key_line(#[trigger] out[i], key) implies out[i] == setting_line(key, value) by {
            if i > 0 {
                assert(out[i] == rest[i - 1]);
            }
        }
    }
}

proof fn lemma_rewrite_no_newline(lines: Seq<Seq<char>>, key: Seq<char>, value: Seq<char>, replaced: bool)
    requires
        forall|i: int| 0 <= i < lines.len() ==> !(#[trigger] lines[i]).contains('\n'),
        !setting_line(key, value).contains('\n'),
    ensures
        forall|i: int| 0 <= i < rewrite_from(lines, key, value, replaced).len()
            ==> !(#[trigger] rewrite_from(lines, key, value, replaced)[i]).contains('\n'),
    decreases lines.len(),
{
    let out = rewrite_from(lines, key, value, replaced);
    if lines.len() > 0 {
        let r2 = is_key_line(lines[0], key) || replaced;
        assert forall|i: int| 0 <= i < lines.drop_first().len() implies !(#[trigger] lines.drop_first()[i]).contains('\n') by {
            assert(lines.drop_first()[i] == lines[i + 1]);
        }
        lemma_rewrite_no_newline(lines.drop_first(), key, value, r2);
        let rest = rewrite_from(lines.drop_first(), key, value, r2);
        let head = if is_key_line(lines[0], key) {
            if value.len() > 0 && !replaced { seq![setting_line(key, value)] } else { Seq::<Seq<char>>::empty() }
        } else {
            seq![lines[0]]
        };
        assert(out == head + rest);
        assert forall|i: int| 0 <= i < out.len() implies !(#[trigger] out[i]).contains('\n') by {
            if i >= head.len() {
                assert(out[i] == rest[i - head.len()]);
            }
        }
    }
}

proof fn lemma_lines_of_join(ls: Seq<Seq<char>>)
    requires
        ls.len() > 0,
        forall|i: int| 0 <= i < ls.len() ==> !(#[trigger] ls[i]).contains('\n'),
    ensures
        lines_of(join_lines(ls) + "\n"@) == strip_all(ls),
    decreases ls.len(),
{
    reveal_strlit("\n");
    let first = ls[0];
    let s = join_lines(ls) + "\n"@;
    let rest_text = if ls.len() == 1 { Seq::<char>::empty() } else { join_lines(ls.drop_first()) + "\n"@ };
    assert(s == first + "\n"@ + rest_text) by {
        if ls.len() > 1 {
            assert(join_lines(ls) == first + "\n"@ + join_lines(ls.drop_first()));
        }
    }
    assert(!first.contains('\n'));
    assert forall|j: int| 0 <= j < first.len() implies s[j] != '\n' by {
        assert(s[j] == first[j]);
        if s[j] == '\n' {
            assert(first.contains('\n'));
        }
    }
    assert(s[first.len() as int] == '\n');
    lemma_index_of_char_at(s, '\n', first.len() as int);
    assert(s.take(first.len() as int) == first);
    assert(s.skip(first.len() as int + 1) == rest_text);
    if ls.len() == 1 {
        assert(lines_of(rest_text) == Seq::<Seq<char>>::empty());
        assert(strip_all(ls) =~= seq![strip_cr(first)]);
        assert(seq![strip_cr(first)] + Seq::<Seq<char>>::empty() == seq![strip_cr(first)]);
    } else {
        assert forall|i: int| 0 <= i < ls.drop_first().len() implies !(#[trigger] ls.drop_first()[i]).contains('\n') by {
            assert(ls.drop_first()[i] == ls[i + 1]);
        }
        lemma_lines_of_join(ls.drop_first());
        assert(strip_all(ls) =~= seq![strip_cr(first)] + strip_all(ls.drop_first()));
    }
}

proof fn lemma_count_strip_cr(ls: Seq<Seq<char>>, key: Seq<char>)
    ensures
        key_line_count(strip_all(ls), key) == key_line_count(ls, key),
        forall|i: int| 0 <= i < ls.len() ==> is_key_line(#[trigger] strip_all(ls)[i], key)
            == is_key_line(ls[i], key),
    decreases ls.len(),
{
    let m = strip_all(ls);
    assert forall|i: int| 0 <= i < ls.len() implies is_key_line(#[trigger] m[i], key) == is_key_line(ls[i], key) by {
        lemma_key_line_strip_cr(ls[i], key);
    }
    if ls.len() > 0 {
        lemma_count_strip_cr(ls.drop_first(), key);
        assert(m.drop_first() == strip_all(ls.drop_first()));
    }
}

/// A setting written is read back: after `set_setting` succeeds with a
/// value, the file has exactly one line for the key, and it sets the
/// key to that value; after it succeeds with an empty value, no line for
/// the key is left.
pub proof fn law_setting_read_back(text: Seq<char>, key_arg: Seq<char>, value_arg: Seq<char>, key: Seq<char>, value: Seq<char>)
    requires
        setting_request_spec(key_arg, value_arg) == Ok::<(Seq<char>, Seq<char>), Seq<char>>((key, value)),
    ensures
        key_line_count(lines_of(rewritten_text(text, key, value)), key) == if value.len() > 0 { 1nat } else { 0nat },
        forall|i: int| 0 <= i < lines_of(rewritten_text(text, key, value)).len()
            && is_key_line(#[trigger] lines_of(rewritten_text(text, key, value))[i], key)
            ==> lines_of(rewritten_text(text, key, value))[i] == setting_line(key, value),
{
    reveal_strlit("=");
    reveal_strlit("\n");
    lemma_trim_idempotent(value_arg);
    let ls = lines_of(text);
    if value.len() > 0 {
        lemma_setting_line_is_key_line(key, value);
    }
    lemma_rewrite_props(ls, key, value, false);
    lemma_lines_have_no_newline(text);
    assert(!setting_line(key, value).contains('\n')) by {
        let l = setting_line(key, value);
        if l.contains('\n') {
            let j = choose|j: int| 0 <= j < l.len() && l[j] == '\n';
            if j < key.len() {
                assert(l[j] == key[j]);
                assert(is_key_char(key[j]));
            } else if j == key.len() {
            } else {
                assert(l[j] == value[j - key.len() - 1]);
                assert(value.contains('\n'));
            }
        }
    }
    lemma_rewrite_no_newline(ls, key, value, false);
    let out = rewrite_from(ls, key, value, false);
    let j = join_lines(out);
    if j.len() > 0 {
        assert(out.len() > 0);
        lemma_lines_of_join(out);
        lemma_count_strip_cr(out, key);
        let m = strip_all(out);
        assert forall|i: int| 0 <= i < m.len() && is_key_line(#[trigger] m[i], key) implies m[i] == setting_line(key, value) by {
            assert(is_key_line(out[i], key));
            let sl = setting_line(key, value);
            assert(out[i] == sl);
            if value.len() > 0 {
                lemma_trimmed_ends(value);
                assert(sl.last() == value.last());
            } else {
                assert(sl.last() == '=');
            }
            assert(sl.last() != '\r');
        }
    } else {
        assert(lines_of(j) == Seq::<Seq<char>>::empty());
        assert(out.len() <= 1) by {
            if out.len() > 1 {
                assert(join_lines(out) == out[0] + "\n"@ + join_lines(out.drop_first()));
            }
        }
        if out.len() == 1 {
            assert(out[0] == j);
            assert(!is_key_line(out[0], key)) by {
                assert(trim(out[0]) == Seq::<char>::empty());
                assert(index_of(Seq::<char>::empty(), '=') is None);
            }
            assert(out.drop_first() == Seq::<Seq<char>>::empty());
        }
    }
}

/// The lines of `lines` that do not set `key`, in order.
pub open spec fn other_lines(lines: Seq<Seq<char>>, key: Seq<char>) -> Seq<Seq<char>>
    decreases lines.len(),
{
    if lines.len() == 0 {
        Seq::empty()
    } else if is_key_line(lines[0], key) {
        other_lines(lines.drop_first(), key)
    } else {
        seq![lines[0]] + other_lines(lines.drop_first(), key)
    }
}

proof fn lemma_rewrite_keeps_others(lines: Seq<Seq<char>>, key: Seq<char>, value: Seq<char>, replaced: bool)
    requires
        value.len() > 0 ==> is_key_line(setting_line(key, value), key),
    ensures
        other_lines(rewrite_from(lines, key, value, replaced), key) == other_lines(lines, key),
    decreases lines.len(),
{
    let new_line = if value.len() > 0 && !replaced { seq![setting_line(key, value)] } else { Seq::<Seq<char>>::empty() };
    if lines.len() == 0 {
        assert(rewrite_from(lines, key, value, replaced) == new_line);
        if new_line.len() > 0 {
            assert(new_line.drop_first() =~= Seq::<Seq<char>>::empty());
            assert(new_line[0] == setting_line(key, value));
            assert(other_lines(new_line, key) == other_lines(new_line.drop_first(), key));
        }
    } else if is_key_line(lines[0], key) {
        lemma_rewrite_keeps_others(lines.drop_first(), key, value, true);
        let rest = rewrite_from(lines.drop_first(), key, value, true);
        assert(rewrite_from(lines, key, value, replaced) == new_line + rest);
        assert(other_lines(lines, key) == other_lines(lines.drop_first(), key));
        if new_line.len() > 0 {
            assert((new_line + rest)[0] == setting_line(key, value));
            assert((new_line + rest).drop_first() =~= rest);
            assert(other_lines(new_line + rest, key) == other_lines((new_line + rest).drop_first(), key));
        } else {
            assert(new_line + rest =~= rest);
        }
    } else {
        lemma_rewrite_keeps_others(lines.drop_first(), key, value, replaced);
        let rest = rewrite_from(lines.drop_first(), key, value, replaced);
        assert((seq![lines[0]] + rest)[0] == lines[0]);
        assert((seq![lines[0]] + rest).drop_first() =~= rest);
    }
}

proof fn lemma_other_lines_strip(ls: Seq<Seq<char>>, key: Seq<char>)
    ensures
        other_lines(strip_all(ls), key) == strip_all(other_lines(ls, key)),
    decreases ls.len(),
{
    lemma_count_strip_cr(ls, key);
    if ls.len() > 0 {
        lemma_other_lines_strip(ls.drop_first(), key);
        assert(strip_all(ls).drop_first() =~= strip_all(ls.drop_first()));
        assert(strip_all(ls)[0] == strip_cr(ls[0]));
        if !is_key_line(ls[0], key) {
            assert(strip_all(seq![ls[0]] + other_lines(ls.drop_first(), key))
                =~= seq![strip_cr(ls[0])] + strip_all(other_lines(ls.drop_first(), key)));
        }
    } else {
        assert(strip_all(ls) =~= Seq::<Seq<char>>::empty());
        assert(strip_all(Seq::<Seq<char>>::empty()) =~= Seq::<Seq<char>>::empty());
    }
}

/// Setting a key keeps every other line: the lines of the rewritten file
/// that do not set the key are the old file's lines that did not, in
/// order (each without a trailing carriage return). Left out is the one
/// input on which the rewrite drops a line: a file whose only other line
/// is empty, with an empty value (the file becomes empty).
pub proof fn law_setting_keeps_other_lines(text: Seq<char>, key_arg: Seq<char>, value_arg: Seq<char>, key: Seq<char>, value: Seq<char>)
    requires
        setting_request_spec(key_arg, value_arg) == Ok::<(Seq<char>, Seq<char>), Seq<char>>((key, value)),
        !(value.len() == 0 && other_lines(lines_of(text), key) == seq![Seq::<char>::empty()]),
    ensures
        other_lines(lines_of(rewritten_text(text, key, value)), key) == strip_all(other_lines(lines_of(text), key)),
{
    reveal_strlit("=");
    reveal_strlit("\n");
    lemma_trim_idempotent(value_arg);
    let ls = lines_of(text);
    if value.len() > 0 {
        lemma_setting_line_is_key_line(key, value);
    }
    lemma_rewrite_keeps_others(ls, key, value, false);
    lemma_rewrite_props(ls, key, value, false);
    lemma_lines_have_no_newline(text);
    assert(!setting_line(key, value).contains('\n')) by {
        let l = setting_line(key, value);
        if l.contains('\n') {
            let j = choose|j: int| 0 <= j < l.len() && l[j] == '\n';
            if j < key.len() {
                assert(l[j] == key[j]);
                assert(is_key_char(key[j]));
            } else if j == key.len() {
            } else {
                assert(l[j] == value[j - key.len() - 1]);
                assert(value.contains('\n'));
            }
        }
    }
    lemma_rewrite_no_newline(ls, key, value, false);
    let out = rewrite_from(ls, key, value, false);
    let j = join_lines(out);
    if j.len() > 0 {
        lemma_lines_of_join(out);
        lemma_other_lines_strip(out, key);
    } else {
        assert(out.len() <= 1) by {
            if out.len() > 1 {
                assert(join_lines(out) == out[0] + "\n"@ + join_lines(out.drop_first()));
            }
        }
        assert(lines_of(rewritten_text(text, key, value)) =~= Seq::<Seq<char>>::empty());
        if out.len() == 1 {
            assert(out[0] == j);
            assert(!is_key_line(out[0], key)) by {
                assert(trim(out[0]) == Seq::<char>::empty());
                assert(index_of(Seq::<char>::empty(), '=') is None);
            }
            assert(out.drop_first() =~= Seq::<Seq<char>>::empty());
            assert(out[0] =~= Seq::<char>::empty());
            assert(other_lines(out, key) == seq![out[0]] + other_lines(out.drop_first(), key));
            assert(other_lines(out, key) =~= seq![Seq::<char>::empty()]);
            if value.len() > 0 {
                assert(key_line_count(out, key) == key_line_count(out.drop_first(), key));
                assert(key_line_count(out.drop_first(), key) == 0);
            }
            assert(false);
        } else {
            assert(other_lines(out, key) =~= Seq::<Seq<char>>::empty());
            assert(strip_all(Seq::<Seq<char>>::empty()) =~= Seq::<Seq<char>>::empty());
        }
    }
}

/// Lines, each followed by a newline.
pub open spec fn line_block(ls: Seq<Seq<char>>) -> Seq<char>
    decreases ls.len(),
{
    if ls.len() == 0 {
        Seq::empty()
    } else {
        ls[0] + seq!['\n'] + line_block(ls.drop_first())
    }
}

/// Reading text that ends a line, then more text, reads the lines of
/// each in turn.
pub proof fn lemma_lines_of_concat(a: Seq<char>, b: Seq<char>)
    requires
        a.len() == 0 || a.last() == '\n',
    ensures
        lines_of(a + b) == lines_of(a) + lines_of(b),
    decreases a.len(),
{
    if a.len() == 0 {
        assert(a + b =~= b);
        assert(lines_of(a) + lines_of(b) =~= lines_of(b));
    } else {
        let s = a + b;
        lemma_index_of_bounds(a, '\n');
        let i = index_of(a, '\n')->0;
        assert forall|j: int| 0 <= j < i implies s[j] != '\n' by {
            assert(s[j] == a[j]);
        }
        assert(s[i] == a[i]);
        lemma_index_of_char_at(s, '\n', i);
        assert(s.take(i) =~= a.take(i));
        assert(s.skip(i + 1) =~= a.skip(i + 1) + b);
        let rest = a.skip(i + 1);
        if rest.len() > 0 {
            assert(rest.last() == a.last());
            lemma_lines_of_concat(rest, b);
        } else {
            assert(rest + b =~= b);
        }
        assert(lines_of(a) == seq![strip_cr(a.take(i))] + lines_of(rest));
        assert(lines_of(s) == seq![strip_cr(s.take(i))] + lines_of(s.skip(i + 1)));
        assert(seq![strip_cr(a.take(i))] + (lines_of(rest) + lines_of(b))
            =~= seq![strip_cr(a.take(i))] + lines_of(rest) + lines_of(b));
    }
}

/// Lines written each with its newline read back as themselves, when
/// none holds a newline or ends with a carriage return.
pub proof fn lemma_lines_of_block(ls: Seq<Seq<char>>)
    requires
        forall|i: int| 0 <= i < ls.len() ==> !(#[trigger] ls[i]).contains('\n'),
        forall|i: int| 0 <= i < ls.len() ==> (#[trigger] ls[i]).len() == 0 || ls[i].last() != '\r',
    ensures
        lines_of(line_block(ls)) == ls,
    decreases ls.len(),
{
    if ls.len() == 0 {
        assert(lines_of(Seq::<char>::empty()) =~= Seq::<Seq<char>>::empty());
    } else {
        let first = ls[0] + seq!['\n'];
        let t = ls.drop_first();
        assert forall|i: int| 0 <= i < t.len() implies !(#[trigger] t[i]).contains('\n') by {
            assert(t[i] == ls[i + 1]);
        }
        assert forall|i: int| 0 <= i < t.len() implies (#[trigger] t[i]).len() == 0 || t[i].last() != '\r' by {
            assert(t[i] == ls[i + 1]);
        }
        lemma_lines_of_block(t);
        assert(line_block(ls) == first + line_block(t));
        lemma_lines_of_concat(first, line_block(t));
        assert forall|j: int| 0 <= j < ls[0].len() implies first[j] != '\n' by {
            assert(first[j] == ls[0][j]);
            if ls[0][j] == '\n' {
                assert(ls[0].contains('\n'));
            }
        }
        lemma_index_of_char_at(first, '\n', ls[0].len() as int);
        assert(first.take(ls[0].len() as int) =~= ls[0]);
        assert(first.skip(ls[0].len() + 1 as int) =~= Seq::<char>::empty());
        assert(strip_cr(ls[0]) == ls[0]);
        assert(lines_of(first.skip(ls[0].len() + 1 as int)) =~= Seq::<Seq<char>>::empty());
        assert(lines_of(first) == seq![strip_cr(first.take(ls[0].len() as int))] + lines_of(first.skip(ls[0].len() + 1 as int)));
        assert(lines_of(first) =~= seq![ls[0]]);
        assert(seq![ls[0]] + t =~= ls);
    }
}

} // verus!
