//! JSON text as the agent writes it: string escaping, and a canonical
//! pretty-printer for a JSON value whose object members come out in a
//! fixed order (the entry fields first, then the rest by name), so that
//! rewriting a memory file diffs cleanly.
use vstd::prelude::*;
use crate::fnv::hex_fixed;
use vstd::string::StringExecFns;
use crate::text::{chars_vec, concat, eq_str, int_string, int_text, push_char, string_of};

verus! {

/// How one character is written inside a JSON string: quote, backslash,
/// newline, carriage return and tab by their short escapes, any other
/// control character as `\u00XX`, everything else as itself.
pub open spec fn esc_char(c: char) -> Seq<char> {
    if c == '"' {
        seq!['\\', '"']
    } else if c == '\\' {
        seq!['\\', '\\']
    } else if c == '\n' {
        seq!['\\', 'n']
    } else if c == '\r' {
        seq!['\\', 'r']
    } else if c == '\t' {
        seq!['\\', 't']
    } else if (c as u32) < 0x20 {
        seq!['\\', 'u'] + hex_fixed(c as nat, 4)
    } else {
        seq![c]
    }
}

/// `s` written inside a JSON string.
pub open spec fn esc_json(s: Seq<char>) -> Seq<char>
    decreases s.len(),
{
    if s.len() == 0 {
        Seq::empty()
    } else {
        esc_json(s.drop_last()) + esc_char(s.last())
    }
}

/// Escaping distributes over concatenation.
pub proof fn lemma_esc_json_concat(a: Seq<char>, b: Seq<char>)
    ensures
        esc_json(a + b) == esc_json(a) + esc_json(b),
    decreases b.len(),
{
    if b.len() == 0 {
        assert(a + b == a);
        assert(esc_json(a) + Seq::<char>::empty() == esc_json(a));
    } else {
        lemma_esc_json_concat(a, b.drop_last());
        assert((a + b).drop_last() == a + b.drop_last());
        assert((a + b).last() == b.last());
        assert(esc_json(a) + esc_json(b.drop_last()) + esc_char(b.last())
            == esc_json(a) + (esc_json(b.drop_last()) + esc_char(b.last())));
    }
}

fn hex_digit_char(x: u32) -> (c: char)
    requires
        x < 16,
    ensures
        c == crate::fnv::hex_char(x as nat),
{
    if x < 10 {
        ((48 + x) as u8) as char
    } else {
        ((87 + x) as u8) as char
    }
}

/// Appends the escape of one character to `out`.
fn push_escaped(out: &mut Vec<char>, c: char)
    ensures
        final(out)@ == old(out)@ + esc_char(c),
{
    let ghost before = out@;
    if c == '"' {
        out.push('\\');
        out.push('"');
    } else if c == '\\' {
        out.push('\\');
        out.push('\\');
    } else if c == '\n' {
        out.push('\\');
        out.push('n');
    } else if c == '\r' {
        out.push('\\');
        out.push('r');
    } else if c == '\t' {
        out.push('\\');
        out.push('t');
    } else if (c as u32) < 0x20 {
        let n = c as u32;
        out.push('\\');
        out.push('u');
        out.push('0');
        out.push('0');
        out.push(hex_digit_char(n / 16));
        out.push(hex_digit_char(n % 16));
        proof {
            let m = n as nat;
            assert(m / 256 == 0);
            assert((m / 16) / 16 == 0);
            assert((m / 16) % 16 == m / 16);
            assert(hex_fixed(0, 0) == Seq::<char>::empty());
            assert(crate::fnv::hex_char(0) == '0');
            assert(hex_fixed(m, 4) == hex_fixed(m / 16, 3).push(crate::fnv::hex_char(m % 16)));
            assert(hex_fixed(m / 16, 3) == hex_fixed(0, 2).push(crate::fnv::hex_char(m / 16)));
            assert(hex_fixed(0, 2) == hex_fixed(0, 1).push('0'));
            assert(hex_fixed(0, 1) == Seq::<char>::empty().push('0'));
            assert(out@ =~= before + esc_char(c));
        }
    } else {
        out.push(c);
    }
    proof {
        assert(out@ =~= before + esc_char(c));
    }
}

/// `s` written inside a JSON string (see `esc_json`).
pub fn json_escape(s: &str) -> (r: String)
    ensures
        r@ == esc_json(s@),
{
    let v = chars_vec(s);
    let mut out: Vec<char> = Vec::new();
    let mut i: usize = 0;
    while i < v.len()
        invariant
            i <= v.len(),
            v@ == s@,
            out@ == esc_json(v@.take(i as int)),
        decreases v.len() - i,
    {
        let c = v[i];
        push_escaped(&mut out, c);
        assert(v@.take(i + 1).drop_last() == v@.take(i as int));
        assert(v@.take(i + 1).last() == c);
        i = i + 1;
    }
    assert(v@.take(v.len() as int) == v@);
    string_of(&out)
}

/// A JSON value. A number that is not an integer is held as the text
/// it is written with.
pub enum Json {
    Str(String),
    Int(i64),
    Num(String),
    Bool(bool),
    Null,
    Arr(Vec<Json>),
    Obj(Vec<(String, Json)>),
}

/// Where a member's key stands in the canonical order: the entry fields
/// `claim, detail, tags, source, confidence, time`, then the pointer
/// fields `lib, ctl, facet, hash, doc`; every other key ranks last.
pub open spec fn key_rank(k: Seq<char>) -> int {
    if k == "claim"@ {
        0
    } else if k == "detail"@ {
        1
    } else if k == "tags"@ {
        2
    } else if k == "source"@ {
        3
    } else if k == "confidence"@ {
        4
    } else if k == "time"@ {
        5
    } else if k == "lib"@ {
        6
    } else if k == "ctl"@ {
        7
    } else if k == "facet"@ {
        8
    } else if k == "hash"@ {
        9
    } else if k == "doc"@ {
        10
    } else {
        11
    }
}

/// Lexicographic order of strings by character code (the order of
/// std's `String`, whose bytes are UTF-8).
pub open spec fn chars_lt(a: Seq<char>, b: Seq<char>) -> bool
    decreases a.len(),
{
    if a.len() == 0 {
        b.len() > 0
    } else if b.len() == 0 {
        false
    } else if a[0] != b[0] {
        (a[0] as int) < (b[0] as int)
    } else {
        chars_lt(a.drop_first(), b.drop_first())
    }
}

/// Whether a member keyed `a` comes before one keyed `b`: by rank, and
/// among the keys of the last rank by name.
pub open spec fn key_before(a: Seq<char>, b: Seq<char>) -> bool {
    key_rank(a) < key_rank(b) || (key_rank(a) == 11 && key_rank(b) == 11 && chars_lt(a, b))
}

/// `i` inserted into the ordered positions `s`: before the first whose
/// key it comes before, else at the end.
pub open spec fn insert_index(s: Seq<int>, i: int, keys: Seq<Seq<char>>) -> Seq<int>
    decreases s.len(),
{
    if s.len() == 0 {
        seq![i]
    } else if key_before(keys[i], keys[s[0]]) {
        seq![i] + s
    } else {
        seq![s[0]] + insert_index(s.drop_first(), i, keys)
    }
}

/// The canonical order of the first `n` members of an object whose keys
/// are `keys`, as positions: each member inserted in turn, so that
/// members with equal keys keep their order.
pub open spec fn member_order(keys: Seq<Seq<char>>, n: nat) -> Seq<int>
    decreases n,
{
    if n == 0 {
        Seq::empty()
    } else {
        insert_index(member_order(keys, (n - 1) as nat), n - 1, keys)
    }
}

/// The keys of an object's members.
pub open spec fn member_keys(m: Seq<(String, Json)>) -> Seq<Seq<char>> {
    m.map_values(|p: (String, Json)| p.0@)
}

/// A string written as a JSON string.
pub open spec fn quoted(s: Seq<char>) -> Seq<char> {
    seq!['"'] + esc_json(s) + seq!['"']
}

/// One level of indentation.
pub open spec fn indent() -> Seq<char> {
    seq![' ', ' ']
}

/// `v` pretty-printed at indentation `pad`: scalars inline; a non-empty
/// array or object opens a line per element, indented one level
/// further, and closes on a line of its own at `pad`; object members in
/// canonical order (see `member_order`).
pub open spec fn render(v: Json, pad: Seq<char>) -> Seq<char>
    decreases v, 2int, 0int,
{
    match v {
        Json::Str(s) => quoted(s@),
        Json::Int(i) => int_text(i as int),
        Json::Num(t) => t@,
        Json::Bool(b) => if b {
            seq!['t', 'r', 'u', 'e']
        } else {
            seq!['f', 'a', 'l', 's', 'e']
        },
        Json::Null => seq!['n', 'u', 'l', 'l'],
        Json::Arr(a) => if a.len() == 0 {
            seq!['[', ']']
        } else {
            seq!['['] + render_items(v, a.len() as int, pad + indent()) + seq!['\n'] + pad + seq![']']
        },
        Json::Obj(m) => if m.len() == 0 {
            seq!['{', '}']
        } else {
            seq!['{'] + render_members(v, m.len() as int, pad + indent()) + seq!['\n'] + pad + seq!['}']
        },
    }
}

/// The first `k` elements of the array `v`, each on its own line at
/// `pad`, separated by commas.
pub open spec fn render_items(v: Json, k: int, pad: Seq<char>) -> Seq<char>
    decreases v, 1int, k,
{
    match v {
        Json::Arr(a) => if k <= 0 || k > a.len() {
            Seq::empty()
        } else {
            proof {
                assert(decreases_to!(v => a));
                assert(decreases_to!(a => a@));
                assert(decreases_to!(a@ => a@[k - 1]));
            }
            render_items(v, k - 1, pad) + (if k > 1 { seq![','] } else { Seq::empty() }) + seq!['\n'] + pad
                + render(a@[k - 1], pad)
        },
        _ => Seq::empty(),
    }
}

/// The first `k` members of the object `v` in canonical order, each on
/// its own line at `pad` as `"key": value`, separated by commas.
pub open spec fn render_members(v: Json, k: int, pad: Seq<char>) -> Seq<char>
    decreases v, 1int, k,
{
    match v {
        Json::Obj(m) => {
            let order = member_order(member_keys(m@), m.len() as nat);
            if k <= 0 || k > order.len() {
                Seq::empty()
            } else {
                let j = order[k - 1];
                if 0 <= j < m.len() {
                    proof {
                        assert(decreases_to!(v => m));
                        assert(decreases_to!(m => m@));
                        assert(decreases_to!(m@ => m@[j]));
                        assert(decreases_to!(m@[j] => m@[j].1));
                    }
                    render_members(v, k - 1, pad) + (if k > 1 { seq![','] } else { Seq::empty() }) + seq!['\n'] + pad
                        + quoted(m@[j].0@) + seq![':', ' '] + render(m@[j].1, pad)
                } else {
                    render_members(v, k - 1, pad)
                }
            }
        },
        _ => Seq::empty(),
    }
}

/// The canonical rank of a key (see `key_rank`).
pub fn rank_of(k: &str) -> (r: u8)
    ensures
        r as int == key_rank(k@),
{
    if eq_str(k, "claim") {
        0
    } else if eq_str(k, "detail") {
        1
    } else if eq_str(k, "tags") {
        2
    } else if eq_str(k, "source") {
        3
    } else if eq_str(k, "confidence") {
        4
    } else if eq_str(k, "time") {
        5
    } else if eq_str(k, "lib") {
        6
    } else if eq_str(k, "ctl") {
        7
    } else if eq_str(k, "facet") {
        8
    } else if eq_str(k, "hash") {
        9
    } else if eq_str(k, "doc") {
        10
    } else {
        11
    }
}

proof fn lemma_chars_lt_skip(a: Seq<char>, b: Seq<char>, i: int)
    requires
        0 <= i <= a.len(),
        i <= b.len(),
        forall|j: int| 0 <= j < i ==> a[j] == b[j],
    ensures
        chars_lt(a, b) == chars_lt(a.skip(i), b.skip(i)),
    decreases i,
{
    if i > 0 {
        lemma_chars_lt_skip(a.drop_first(), b.drop_first(), i - 1);
        assert(a.drop_first().skip(i - 1) == a.skip(i));
        assert(b.drop_first().skip(i - 1) == b.skip(i));
    } else {
        assert(a.skip(0) == a);
        assert(b.skip(0) == b);
    }
}

/// Whether `a` comes before `b` by character code.
pub fn str_lt(a: &str, b: &str) -> (r: bool)
    ensures
        r == chars_lt(a@, b@),
{
    let x = chars_vec(a);
    let y = chars_vec(b);
    let mut i: usize = 0;
    while i < x.len() && i < y.len() && x[i] == y[i]
        invariant
            i <= x.len(),
            i <= y.len(),
            x@ == a@,
            y@ == b@,
            forall|j: int| 0 <= j < i ==> x@[j] == y@[j],
        decreases x.len() - i,
    {
        i = i + 1;
    }
    proof {
        lemma_chars_lt_skip(x@, y@, i as int);
        if i < x.len() {
            assert(x@.skip(i as int)[0] == x@[i as int]);
            assert(x@.skip(i as int).len() > 0);
        }
        if i < y.len() {
            assert(y@.skip(i as int)[0] == y@[i as int]);
        }
    }
    if i == x.len() {
        i < y.len()
    } else if i == y.len() {
        false
    } else {
        x[i] < y[i]
    }
}

/// Whether a member keyed `a` comes before one keyed `b`.
pub fn comes_before(a: &str, b: &str) -> (r: bool)
    ensures
        r == key_before(a@, b@),
{
    let ra = rank_of(a);
    let rb = rank_of(b);
    ra < rb || (ra == 11 && rb == 11 && str_lt(a, b))
}

proof fn lemma_insert_at(s: Seq<int>, i: int, keys: Seq<Seq<char>>, p: int)
    requires
        0 <= p <= s.len(),
        forall|q: int| 0 <= q < p ==> !key_before(keys[i], #[trigger] keys[s[q]]),
        p < s.len() ==> key_before(keys[i], keys[s[p]]),
    ensures
        insert_index(s, i, keys) == s.insert(p, i),
    decreases s.len(),
{
    if s.len() > 0 {
        if p == 0 {
            assert(seq![i] + s =~= s.insert(0, i));
        } else {
            assert(!key_before(keys[i], keys[s[0]]));
            assert forall|q: int| 0 <= q < p - 1 implies !key_before(keys[i], #[trigger] keys[s.drop_first()[q]]) by {
                assert(s.drop_first()[q] == s[q + 1]);
            }
            lemma_insert_at(s.drop_first(), i, keys, p - 1);
            assert(seq![s[0]] + s.drop_first().insert(p - 1, i) =~= s.insert(p, i));
        }
    } else {
        assert(seq![i] =~= s.insert(0, i));
    }
}

proof fn lemma_insert_range(s: Seq<int>, i: int, keys: Seq<Seq<char>>, n: int)
    requires
        0 <= i < n,
        forall|q: int| 0 <= q < s.len() ==> 0 <= #[trigger] s[q] < n,
    ensures
        insert_index(s, i, keys).len() == s.len() + 1,
        forall|q: int| 0 <= q < s.len() + 1 ==> 0 <= #[trigger] insert_index(s, i, keys)[q] < n,
    decreases s.len(),
{
    let r = insert_index(s, i, keys);
    if s.len() == 0 {
    } else if key_before(keys[i], keys[s[0]]) {
        assert forall|q: int| 0 <= q < s.len() + 1 implies 0 <= #[trigger] r[q] < n by {
            if q > 0 {
                assert(r[q] == s[q - 1]);
            }
        }
    } else {
        let t = s.drop_first();
        assert forall|q: int| 0 <= q < t.len() implies 0 <= #[trigger] t[q] < n by {
            assert(t[q] == s[q + 1]);
        }
        lemma_insert_range(t, i, keys, n);
        assert forall|q: int| 0 <= q < s.len() + 1 implies 0 <= #[trigger] r[q] < n by {
            if q > 0 {
                assert(r[q] == insert_index(t, i, keys)[q - 1]);
            }
        }
    }
}

/// The canonical order is an order of positions below `n`, one per member.
pub proof fn lemma_member_order_range(keys: Seq<Seq<char>>, n: nat)
    ensures
        member_order(keys, n).len() == n,
        forall|q: int| 0 <= q < n ==> 0 <= #[trigger] member_order(keys, n)[q] < n,
    decreases n,
{
    if n > 0 {
        let prev = member_order(keys, (n - 1) as nat);
        lemma_member_order_range(keys, (n - 1) as nat);
        lemma_insert_range(prev, n - 1, keys, n as int);
    }
}

/// The canonical order of an object's members, as positions.
pub fn canonical_order(m: &Vec<(String, Json)>) -> (o: Vec<usize>)
    ensures
        o@.map_values(|i: usize| i as int) == member_order(member_keys(m@), m.len() as nat),
        forall|q: int| 0 <= q < o.len() ==> o@[q] < m.len(),
{
    let ghost keys = member_keys(m@);
    let mut o: Vec<usize> = Vec::new();
    let mut i: usize = 0;
    while i < m.len()
        invariant
            i <= m.len(),
            keys == member_keys(m@),
            o@.map_values(|x: usize| x as int) == member_order(keys, i as nat),
            o.len() == i,
            forall|q: int| 0 <= q < o.len() ==> o@[q] < i,
        decreases m.len() - i,
    {
        let ghost s = o@.map_values(|x: usize| x as int);
        let mut p: usize = 0;
        while p < o.len() && !comes_before(m[i].0.as_str(), m[o[p]].0.as_str())
            invariant
                p <= o.len(),
                i < m.len(),
                o.len() == i,
                forall|q: int| 0 <= q < o.len() ==> o@[q] < i,
                s == o@.map_values(|x: usize| x as int),
                keys == member_keys(m@),
                forall|q: int| 0 <= q < p ==> !key_before(keys[i as int], #[trigger] keys[s[q]]),
            decreases o.len() - p,
        {
            assert(keys[i as int] == m@[i as int].0@);
            assert(keys[s[p as int]] == m@[o@[p as int] as int].0@);
            p = p + 1;
        }
        proof {
            if p < o.len() {
                assert(keys[i as int] == m@[i as int].0@);
                assert(keys[s[p as int]] == m@[o@[p as int] as int].0@);
            }
            lemma_insert_at(s, i as int, keys, p as int);
        }
        o.insert(p, i);
        proof {
            assert(o@.map_values(|x: usize| x as int) =~= s.insert(p as int, i as int));
            assert forall|q: int| 0 <= q < o.len() implies o@[q] < i + 1 by {
                if q < p {
                } else if q > p {
                }
            }
        }
        i = i + 1;
    }
    o
}

fn deeper(pad: &str) -> (r: String)
    ensures
        r@ == pad@ + indent(),
{
    let mut r = concat(pad, "");
    proof {
        reveal_strlit("");
    }
    push_char(&mut r, ' ');
    push_char(&mut r, ' ');
    assert(r@ =~= pad@ + indent());
    r
}

fn push_chars(out: &mut String, cs: &[char])
    ensures
        final(out)@ == old(out)@ + cs@,
{
    let ghost start = out@;
    let mut i: usize = 0;
    while i < cs.len()
        invariant
            i <= cs.len(),
            out@ == start + cs@.take(i as int),
        decreases cs.len() - i,
    {
        push_char(out, cs[i]);
        assert(cs@.take(i + 1) == cs@.take(i as int).push(cs@[i as int]));
        i = i + 1;
    }
    assert(cs@.take(cs.len() as int) == cs@);
}

fn push_quoted(out: &mut String, s: &str)
    ensures
        final(out)@ == old(out)@ + quoted(s@),
{
    push_char(out, '"');
    let e = json_escape(s);
    out.append(e.as_str());
    push_char(out, '"');
    assert(out@ =~= old(out)@ + quoted(s@));
}

/// Appends `v` pretty-printed at indentation `pad` (see `render`).
pub fn render_into(v: &Json, pad: &str, out: &mut String)
    ensures
        final(out)@ == old(out)@ + render(*v, pad@),
    decreases v,
{
    let ghost start = out@;
    match v {
        Json::Str(s) => push_quoted(out, s.as_str()),
        Json::Int(i) => {
            let t = int_string(*i);
            out.append(t.as_str());
        },
        Json::Num(t) => out.append(t.as_str()),
        Json::Bool(b) => {
            if *b {
                push_chars(out, &['t', 'r', 'u', 'e']);
                assert(['t', 'r', 'u', 'e']@ =~= seq!['t', 'r', 'u', 'e']);
            } else {
                push_chars(out, &['f', 'a', 'l', 's', 'e']);
                assert(['f', 'a', 'l', 's', 'e']@ =~= seq!['f', 'a', 'l', 's', 'e']);
            }
        },
        Json::Null => {
            push_chars(out, &['n', 'u', 'l', 'l']);
            assert(['n', 'u', 'l', 'l']@ =~= seq!['n', 'u', 'l', 'l']);
        },
        Json::Arr(a) => {
            if a.len() == 0 {
                push_char(out, '[');
                push_char(out, ']');
                assert(out@ =~= start + seq!['[', ']']);
            } else {
                let inner = deeper(pad);
                push_char(out, '[');
                let mut k: usize = 0;
                while k < a.len()
                    invariant
                        k <= a.len(),
                        *v == Json::Arr(*a),
                        inner@ == pad@ + indent(),
                        out@ == start + seq!['['] + render_items(*v, k as int, inner@),
                    decreases a.len() - k,
                {
                    let ghost before = out@;
                    if k > 0 {
                        push_char(out, ',');
                    }
                    push_char(out, '\n');
                    out.append(inner.as_str());
                    proof {
                        assert(decreases_to!(*v => (*v)->Arr_0));
                        assert(decreases_to!((*v)->Arr_0 => a@[k as int]));
                    }
                    render_into(&a[k], inner.as_str(), out);
                    assert(out@ =~= before + (if k + 1 > 1 { seq![','] } else { Seq::<char>::empty() }) + seq!['\n']
                        + inner@ + render(a@[k as int], inner@));
                    k = k + 1;
                }
                push_char(out, '\n');
                out.append(pad);
                push_char(out, ']');
                assert(out@ =~= start + (seq!['['] + render_items(*v, a.len() as int, pad@ + indent()) + seq!['\n']
                    + pad@ + seq![']']));
            }
        },
        Json::Obj(m) => {
            if m.len() == 0 {
                push_char(out, '{');
                push_char(out, '}');
                assert(out@ =~= start + seq!['{', '}']);
            } else {
                let order = canonical_order(m);
                let ghost ov = order@.map_values(|x: usize| x as int);
                proof {
                    lemma_member_order_range(member_keys(m@), m.len() as nat);
                }
                let inner = deeper(pad);
                push_char(out, '{');
                let mut k: usize = 0;
                while k < order.len()
                    invariant
                        k <= order.len(),
                        order.len() == m.len(),
                        *v == Json::Obj(*m),
                        ov == order@.map_values(|x: usize| x as int),
                        ov == member_order(member_keys(m@), m.len() as nat),
                        forall|q: int| 0 <= q < order.len() ==> order@[q] < m.len(),
                        inner@ == pad@ + indent(),
                        out@ == start + seq!['{'] + render_members(*v, k as int, inner@),
                    decreases order.len() - k,
                {
                    let ghost before = out@;
                    let j = order[k];
                    assert(ov[k as int] == j as int);
                    if k > 0 {
                        push_char(out, ',');
                    }
                    push_char(out, '\n');
                    out.append(inner.as_str());
                    push_quoted(out, m[j].0.as_str());
                    push_char(out, ':');
                    push_char(out, ' ');
                    render_into(&m[j].1, inner.as_str(), out);
                    assert(out@ =~= before + (if k + 1 > 1 { seq![','] } else { Seq::<char>::empty() }) + seq!['\n']
                        + inner@ + quoted(m@[j as int].0@) + seq![':', ' '] + render(m@[j as int].1, inner@));
                    k = k + 1;
                }
                push_char(out, '\n');
                out.append(pad);
                push_char(out, '}');
                assert(out@ =~= start + (seq!['{'] + render_members(*v, m.len() as int, pad@ + indent()) + seq!['\n']
                    + pad@ + seq!['}']));
            }
        },
    }
}

/// `v` pretty-printed from the left margin.
pub fn render_json(v: &Json) -> (s: String)
    ensures
        s@ == render(*v, Seq::empty()),
{
    let mut out = String::new();
    let pad = String::new();
    render_into(v, pad.as_str(), &mut out);
    assert(out@ =~= render(*v, Seq::empty()));
    out
}

proof fn lemma_chars_lt_irrefl(a: Seq<char>)
    ensures
        !chars_lt(a, a),
    decreases a.len(),
{
    if a.len() > 0 {
        lemma_chars_lt_irrefl(a.drop_first());
    }
}

proof fn lemma_chars_lt_trans(a: Seq<char>, b: Seq<char>, c: Seq<char>)
    requires
        chars_lt(a, b),
        chars_lt(b, c),
    ensures
        chars_lt(a, c),
    decreases a.len(),
{
    if a.len() > 0 && b.len() > 0 && c.len() > 0 && a[0] == b[0] && b[0] == c[0] {
        lemma_chars_lt_trans(a.drop_first(), b.drop_first(), c.drop_first());
    }
}

proof fn lemma_chars_lt_total(a: Seq<char>, b: Seq<char>)
    requires
        a != b,
    ensures
        chars_lt(a, b) || chars_lt(b, a),
    decreases a.len(),
{
    if a.len() > 0 && b.len() > 0 && a[0] == b[0] {
        if a.drop_first() == b.drop_first() {
            assert(a =~= seq![a[0]] + a.drop_first());
            assert(b =~= seq![b[0]] + b.drop_first());
        }
        lemma_chars_lt_total(a.drop_first(), b.drop_first());
    } else if a.len() == 0 && b.len() == 0 {
        assert(a =~= b);
    }
}

/// The canonical order is a strict total order on distinct keys.
proof fn lemma_key_before_order(a: Seq<char>, b: Seq<char>, c: Seq<char>)
    ensures
        !key_before(a, a),
        key_before(a, b) && key_before(b, c) ==> key_before(a, c),
        a != b ==> key_before(a, b) || key_before(b, a),
        key_before(a, b) ==> !key_before(b, a),
{
    lemma_chars_lt_irrefl(a);
    if key_before(a, b) && key_before(b, c) && key_rank(a) == 11 && key_rank(c) == 11 {
        lemma_chars_lt_trans(a, b, c);
    }
    if a != b && key_rank(a) == key_rank(b) && key_rank(a) == 11 {
        lemma_chars_lt_total(a, b);
    }
    if key_before(a, b) && key_before(b, a) {
        lemma_chars_lt_trans(a, b, a);
    }
}

/// Whether `x` occurs in `s`.
pub open spec fn appears(s: Seq<int>, x: int) -> bool {
    exists|p: int| 0 <= p < s.len() && s[p] == x
}

/// Whether positions are in strictly increasing canonical order of their
/// keys.
pub open spec fn sorted_by_key(s: Seq<int>, keys: Seq<Seq<char>>) -> bool {
    forall|j: int, k: int| 0 <= j < k < s.len() ==> key_before(keys[s[j]], keys[s[k]])
}

proof fn lemma_insert_elems(s: Seq<int>, i: int, keys: Seq<Seq<char>>)
    ensures
        insert_index(s, i, keys).len() == s.len() + 1,
        forall|q: int| 0 <= q < s.len() + 1 ==> #[trigger] insert_index(s, i, keys)[q] == i
            || appears(s, insert_index(s, i, keys)[q]),
        appears(insert_index(s, i, keys), i),
        forall|w: int| 0 <= w < s.len() ==> appears(insert_index(s, i, keys), #[trigger] s[w]),
    decreases s.len(),
{
    let r = insert_index(s, i, keys);
    if s.len() == 0 {
        assert(r[0] == i);
    } else if key_before(keys[i], keys[s[0]]) {
        assert(r[0] == i);
        assert forall|q: int| 0 <= q < s.len() + 1 implies #[trigger] r[q] == i || appears(s, r[q]) by {
            if q > 0 {
                assert(r[q] == s[q - 1]);
            }
        }
        assert forall|w: int| 0 <= w < s.len() implies appears(r, #[trigger] s[w]) by {
            assert(r[w + 1] == s[w]);
        }
    } else {
        let t = s.drop_first();
        lemma_insert_elems(t, i, keys);
        let rt = insert_index(t, i, keys);
        assert(r == seq![s[0]] + rt);
        assert forall|q: int| 0 <= q < s.len() + 1 implies #[trigger] r[q] == i || appears(s, r[q]) by {
            if q == 0 {
                assert(s[0] == r[q]);
            } else {
                assert(r[q] == rt[q - 1]);
                if rt[q - 1] != i {
                    assert(appears(t, rt[q - 1]));
                    let w = choose|w: int| 0 <= w < t.len() && t[w] == rt[q - 1];
                    assert(s[w + 1] == r[q]);
                }
            }
        }
        assert(appears(rt, i));
        let p = choose|p: int| 0 <= p < rt.len() && rt[p] == i;
        assert(r[p + 1] == i);
        assert forall|w: int| 0 <= w < s.len() implies appears(r, #[trigger] s[w]) by {
            if w == 0 {
                assert(r[0] == s[0]);
            } else {
                assert(t[w - 1] == s[w]);
                assert(appears(rt, t[w - 1]));
                let p = choose|p: int| 0 <= p < rt.len() && rt[p] == t[w - 1];
                assert(r[p + 1] == s[w]);
            }
        }
    }
}

proof fn lemma_insert_sorted(s: Seq<int>, i: int, keys: Seq<Seq<char>>)
    requires
        sorted_by_key(s, keys),
        forall|w: int| 0 <= w < s.len() ==> keys[#[trigger] s[w]] != keys[i],
    ensures
        sorted_by_key(insert_index(s, i, keys), keys),
    decreases s.len(),
{
    let r = insert_index(s, i, keys);
    if s.len() == 0 {
    } else if key_before(keys[i], keys[s[0]]) {
        assert forall|j: int, k: int| 0 <= j < k < r.len() implies key_before(keys[r[j]], keys[r[k]]) by {
            if j == 0 {
                assert(r[k] == s[k - 1]);
                if k - 1 > 0 {
                    lemma_key_before_order(keys[i], keys[s[0]], keys[s[k - 1]]);
                }
            } else {
                assert(r[j] == s[j - 1] && r[k] == s[k - 1]);
            }
        }
    } else {
        let t = s.drop_first();
        assert forall|j: int, k: int| 0 <= j < k < t.len() implies key_before(keys[t[j]], keys[t[k]]) by {
            assert(t[j] == s[j + 1] && t[k] == s[k + 1]);
        }
        assert forall|w: int| 0 <= w < t.len() implies keys[#[trigger] t[w]] != keys[i] by {
            assert(t[w] == s[w + 1]);
        }
        lemma_insert_sorted(t, i, keys);
        lemma_insert_elems(t, i, keys);
        let rt = insert_index(t, i, keys);
        assert(r == seq![s[0]] + rt);
        lemma_key_before_order(keys[i], keys[s[0]], keys[i]);
        assert(key_before(keys[s[0]], keys[i]));
        assert forall|j: int, k: int| 0 <= j < k < r.len() implies key_before(keys[r[j]], keys[r[k]]) by {
            if j == 0 {
                assert(r[k] == rt[k - 1]);
                if rt[k - 1] != i {
                    assert(appears(t, rt[k - 1]));
                    let w = choose|w: int| 0 <= w < t.len() && t[w] == rt[k - 1];
                    assert(s[w + 1] == r[k]);
                }
            } else {
                assert(r[j] == rt[j - 1] && r[k] == rt[k - 1]);
            }
        }
    }
}

/// With distinct keys, the canonical order is strictly increasing by key.
pub proof fn lemma_member_order_sorted(keys: Seq<Seq<char>>, n: nat)
    requires
        forall|i: int, j: int| 0 <= i < j < n ==> keys[i] != keys[j],
    ensures
        sorted_by_key(member_order(keys, n), keys),
    decreases n,
{
    if n > 0 {
        let prev = member_order(keys, (n - 1) as nat);
        lemma_member_order_sorted(keys, (n - 1) as nat);
        lemma_member_order_range(keys, (n - 1) as nat);
        assert forall|w: int| 0 <= w < prev.len() implies keys[#[trigger] prev[w]] != keys[n - 1] by {
            assert(0 <= prev[w] < n - 1);
        }
        lemma_insert_sorted(prev, n - 1, keys);
    }
}

/// The canonical order lists every position below `n`.
pub proof fn lemma_member_order_covers(keys: Seq<Seq<char>>, n: nat)
    ensures
        forall|k: int| 0 <= k < n ==> appears(member_order(keys, n), k),
    decreases n,
{
    if n > 0 {
        let prev = member_order(keys, (n - 1) as nat);
        lemma_member_order_covers(keys, (n - 1) as nat);
        lemma_insert_elems(prev, n - 1, keys);
        let r = member_order(keys, n);
        assert forall|k: int| 0 <= k < n implies appears(r, k) by {
            if k < n - 1 {
                assert(appears(prev, k));
                let w = choose|w: int| 0 <= w < prev.len() && prev[w] == k;
                assert(appears(r, prev[w]));
            }
        }
    }
}

/// An object's members in canonical order.
pub open spec fn canonical_members(m: Seq<(String, Json)>) -> Seq<(String, Json)> {
    let o = member_order(member_keys(m), m.len());
    Seq::new(m.len(), |j: int| m[o[j]])
}

/// No two members share a key.
pub open spec fn keys_distinct(m: Seq<(String, Json)>) -> bool {
    forall|i: int, j: int| 0 <= i < j < m.len() ==> m[i].0@ != m[j].0@
}

proof fn lemma_canonical_facts(m: Seq<(String, Json)>)
    requires
        keys_distinct(m),
    ensures
        canonical_members(m).len() == m.len(),
        forall|j: int, k: int| 0 <= j < k < m.len() ==> key_before(
            (#[trigger] canonical_members(m)[j]).0@,
            (#[trigger] canonical_members(m)[k]).0@,
        ),
        forall|w: int| 0 <= w < m.len() ==> exists|p: int| 0 <= p < m.len() && canonical_members(m)[p] == #[trigger] m[w],
        forall|j: int| 0 <= j < m.len() ==> m.contains(#[trigger] canonical_members(m)[j]),
{
    let keys = member_keys(m);
    let n = m.len();
    let o = member_order(keys, n);
    let c = canonical_members(m);
    assert forall|i: int, j: int| 0 <= i < j < n implies keys[i] != keys[j] by {
        assert(keys[i] == m[i].0@ && keys[j] == m[j].0@);
    }
    lemma_member_order_range(keys, n);
    lemma_member_order_sorted(keys, n);
    lemma_member_order_covers(keys, n);
    assert forall|j: int, k: int| 0 <= j < k < n implies key_before((#[trigger] c[j]).0@, (#[trigger] c[k]).0@) by {
        assert(c[j] == m[o[j]] && c[k] == m[o[k]]);
        assert(keys[o[j]] == m[o[j]].0@ && keys[o[k]] == m[o[k]].0@);
    }
    assert forall|w: int| 0 <= w < n implies exists|p: int| 0 <= p < n && c[p] == #[trigger] m[w] by {
        assert(appears(o, w));
        let p = choose|p: int| 0 <= p < o.len() && o[p] == w;
        assert(c[p] == m[w]);
    }
    assert forall|j: int| 0 <= j < n implies m.contains(#[trigger] c[j]) by {
        assert(0 <= o[j] < n);
        assert(c[j] == m[o[j]]);
    }
}

proof fn lemma_permutation_facts(a: Seq<(String, Json)>, b: Seq<(String, Json)>)
    requires
        a.to_multiset() == b.to_multiset(),
        keys_distinct(a),
    ensures
        a.len() == b.len(),
        keys_distinct(b),
        forall|x: (String, Json)| a.contains(x) <==> b.contains(x),
{
    a.to_multiset_ensures();
    b.to_multiset_ensures();
    assert forall|x: (String, Json)| a.contains(x) <==> b.contains(x) by {
        a.to_multiset_ensures();
        b.to_multiset_ensures();
        assert(a.to_multiset().count(x) == b.to_multiset().count(x));
        assert(a.contains(x) <==> a.to_multiset().count(x) > 0);
        assert(b.contains(x) <==> b.to_multiset().count(x) > 0);
    }
    assert(a.no_duplicates()) by {
        assert forall|i: int, j: int| 0 <= i < a.len() && 0 <= j < a.len() && i != j implies a[i] != a[j] by {
            if i < j {
                assert(a[i].0@ != a[j].0@);
            } else {
                assert(a[j].0@ != a[i].0@);
            }
        }
    }
    a.lemma_multiset_has_no_duplicates();
    assert forall|x: (String, Json)| b.to_multiset().contains(x) implies b.to_multiset().count(x) == 1 by {
        assert(a.to_multiset().contains(x));
    }
    b.lemma_multiset_has_no_duplicates_conv();
    assert forall|i: int, j: int| 0 <= i < j < b.len() implies b[i].0@ != b[j].0@ by {
        if b[i].0@ == b[j].0@ {
            assert(b.contains(b[i]) && b.contains(b[j]));
            assert(a.contains(b[i]) && a.contains(b[j]));
            let x = choose|x: int| 0 <= x < a.len() && a[x] == b[i];
            let y = choose|y: int| 0 <= y < a.len() && a[y] == b[j];
            if x < y {
                assert(a[x].0@ != a[y].0@);
            } else if y < x {
                assert(a[y].0@ != a[x].0@);
            } else {
                assert(b[i] == b[j]);
            }
        }
    }
}

proof fn lemma_canonical_prefix(a: Seq<(String, Json)>, b: Seq<(String, Json)>, j: int)
    requires
        a.to_multiset() == b.to_multiset(),
        keys_distinct(a),
        0 <= j <= a.len(),
    ensures
        forall|k: int| 0 <= k < j ==> canonical_members(a)[k] == canonical_members(b)[k],
    decreases j,
{
    if j > 0 {
        lemma_canonical_prefix(a, b, j - 1);
        lemma_permutation_facts(a, b);
        lemma_canonical_facts(a);
        lemma_canonical_facts(b);
        let ca = canonical_members(a);
        let cb = canonical_members(b);
        let i = j - 1;
        if ca[i] != cb[i] {
            assert(a.contains(ca[i]));
            assert(b.contains(ca[i]));
            let w = choose|w: int| 0 <= w < b.len() && b[w] == ca[i];
            let p = choose|p: int| 0 <= p < b.len() && cb[p] == #[trigger] b[w];
            assert(b.contains(cb[i]));
            assert(a.contains(cb[i]));
            let v = choose|v: int| 0 <= v < a.len() && a[v] == cb[i];
            let q = choose|q: int| 0 <= q < a.len() && ca[q] == #[trigger] a[v];
            if p < i {
                assert(ca[p] == cb[p]);
                assert(key_before(ca[p].0@, ca[i].0@));
                lemma_key_before_order(ca[i].0@, ca[i].0@, ca[i].0@);
            } else if q < i {
                assert(ca[q] == cb[q]);
                assert(key_before(cb[q].0@, cb[i].0@));
                lemma_key_before_order(cb[i].0@, cb[i].0@, cb[i].0@);
            } else {
                assert(p > i && q > i);
                assert(key_before(cb[i].0@, cb[p].0@));
                assert(key_before(ca[i].0@, ca[q].0@));
                lemma_key_before_order(ca[i].0@, cb[i].0@, ca[i].0@);
            }
        }
    }
}

proof fn lemma_render_members_eq(a: Vec<(String, Json)>, b: Vec<(String, Json)>, k: int, pad: Seq<char>)
    requires
        a.len() == b.len(),
        canonical_members(a@) == canonical_members(b@),
        0 <= k <= a.len(),
    ensures
        render_members(Json::Obj(a), k, pad) == render_members(Json::Obj(b), k, pad),
    decreases k,
{
    if k > 0 {
        lemma_render_members_eq(a, b, k - 1, pad);
        lemma_member_order_range(member_keys(a@), a.len() as nat);
        lemma_member_order_range(member_keys(b@), b.len() as nat);
        let oa = member_order(member_keys(a@), a.len() as nat);
        let ob = member_order(member_keys(b@), b.len() as nat);
        assert(canonical_members(a@)[k - 1] == a@[oa[k - 1]]);
        assert(canonical_members(b@)[k - 1] == b@[ob[k - 1]]);
    }
}

/// Rewrites diff cleanly: an object renders the same whatever the order
/// its members are held in, as long as no two members share a key.
pub proof fn law_render_ignores_member_order(a: Vec<(String, Json)>, b: Vec<(String, Json)>, pad: Seq<char>)
    requires
        a@.to_multiset() == b@.to_multiset(),
        keys_distinct(a@),
    ensures
        render(Json::Obj(a), pad) == render(Json::Obj(b), pad),
{
    lemma_permutation_facts(a@, b@);
    lemma_canonical_facts(a@);
    lemma_canonical_facts(b@);
    lemma_canonical_prefix(a@, b@, a.len() as int);
    assert(canonical_members(a@) =~= canonical_members(b@));
    lemma_render_members_eq(a, b, a.len() as int, pad + indent());
}

} // verus!
