//! The message store's identities and reads: a content record is keyed
//! by the FNV-1a 128 of its text, an occurrence by an `mo` id; a put is
//! checked before anything is written, and a read of recent messages
//! takes the newest of one venue from the append-only index.
use vstd::prelude::*;
use vstd::utf8::encode_utf8;
use crate::fnv::{fnv128_fold, fnv128_update, hex128, hex_fixed, FNV128_OFFSET};
use crate::registry::{normalize, normalized};
use crate::text::{chars_vec, concat, concat3, eq_str, has_prefix, starts_with, trim, trim_str};

verus! {

/// The id of the content record for `text`: `mc` and the FNV-1a 128 of
/// its UTF-8 bytes in 32 hexadecimal digits.
pub open spec fn content_id_spec(text: Seq<char>) -> Seq<char> {
    "mc"@ + hex_fixed(fnv128_fold(FNV128_OFFSET, encode_utf8(text)) as nat, 32)
}

/// The id of the content record for `text` (see `content_id_spec`).
pub fn content_id(text: &str) -> (id: String)
    ensures
        id@ == content_id_spec(text@),
{
    let h = fnv128_update(FNV128_OFFSET, text.as_bytes());
    let x = hex128(h);
    concat("mc", x.as_str())
}

/// A put that passed its checks: the role and venue normalized, the
/// content's record id, the caller's occurrence id (when one was given,
/// trimmed; it is checked once the content is stored), and the entity
/// and provenance trimmed.
pub struct PutRequest {
    pub role: String,
    pub venue: String,
    pub content_id: String,
    pub supplied_id: Option<String>,
    pub entity: String,
    pub provenance: String,
}

/// What a put makes of its arguments: the request, or the error text.
pub open spec fn put_request_spec(role: Seq<char>, venue: Seq<char>, content: Seq<char>, entity: Seq<char>,
    provenance: Seq<char>, id: Seq<char>) -> Result<(Seq<char>, Seq<char>, Seq<char>, Option<Seq<char>>, Seq<char>, Seq<char>), Seq<char>>
{
    put_checks(normalized(role), normalized(venue), content, entity, provenance, id)
}

/// The checks of `put_request_spec`, given the normalized role `r` and
/// venue `v`.
pub open spec fn put_checks(r: Seq<char>, v: Seq<char>, content: Seq<char>, entity: Seq<char>,
    provenance: Seq<char>, id: Seq<char>) -> Result<(Seq<char>, Seq<char>, Seq<char>, Option<Seq<char>>, Seq<char>, Seq<char>), Seq<char>>
{
    if r.len() == 0 {
        Err("role is required (user|assistant|system|speaker)"@)
    } else if v.len() == 0 {
        Err("venue is required (chat|room|escalation|...) - it is how consumers filter without knowing which sensor produced a message"@)
    } else if content.len() == 0 {
        Err("content is required - an empty message is not an event"@)
    } else {
        Ok((r, v, content_id_spec(content),
            if trim(id).len() > 0 { Some(trim(id)) } else { None }, trim(entity), trim(provenance)))
    }
}

/// The checks a put makes before it writes anything.
pub fn put_request(role: &str, venue: &str, content: &str, entity: &str, provenance: &str, id: &str)
    -> (r: Result<PutRequest, String>)
    ensures
        match r {
            Ok(p) => put_request_spec(role@, venue@, content@, entity@, provenance@, id@) == Ok::<
                (Seq<char>, Seq<char>, Seq<char>, Option<Seq<char>>, Seq<char>, Seq<char>),
                Seq<char>,
            >((p.role@, p.venue@, p.content_id@, match p.supplied_id {
                Some(s) => Some(s@),
                None => None,
            }, p.entity@, p.provenance@)),
            Err(m) => put_request_spec(role@, venue@, content@, entity@, provenance@, id@) == Err::<
                (Seq<char>, Seq<char>, Seq<char>, Option<Seq<char>>, Seq<char>, Seq<char>),
                Seq<char>,
            >(m@),
        },
{
    let r = normalize(role);
    let v = normalize(venue);
    put_checked(r, v, content, entity, provenance, id)
}

/// The checks of `put_request`, given the normalized role `r` and venue
/// `v`.
pub fn put_checked(r: String, v: String, content: &str, entity: &str, provenance: &str, id: &str)
    -> (res: Result<PutRequest, String>)
    ensures
        match res {
            Ok(p) => put_checks(r@, v@, content@, entity@, provenance@, id@) == Ok::<
                (Seq<char>, Seq<char>, Seq<char>, Option<Seq<char>>, Seq<char>, Seq<char>),
                Seq<char>,
            >((p.role@, p.venue@, p.content_id@, match p.supplied_id {
                Some(s) => Some(s@),
                None => None,
            }, p.entity@, p.provenance@)),
            Err(m) => put_checks(r@, v@, content@, entity@, provenance@, id@) == Err::<
                (Seq<char>, Seq<char>, Seq<char>, Option<Seq<char>>, Seq<char>, Seq<char>),
                Seq<char>,
            >(m@),
        },
{
    if r.as_str().unicode_len() == 0 {
        return Err(String::from_str("role is required (user|assistant|system|speaker)"));
    }
    if v.as_str().unicode_len() == 0 {
        return Err(String::from_str(
            "venue is required (chat|room|escalation|...) - it is how consumers filter without knowing which sensor produced a message",
        ));
    }
    if content.unicode_len() == 0 {
        return Err(String::from_str("content is required - an empty message is not an event"));
    }
    let i = trim_str(id);
    let supplied = if i.as_str().unicode_len() > 0 {
        Some(i)
    } else {
        None
    };
    Ok(PutRequest {
        role: r,
        venue: v,
        content_id: content_id(content),
        supplied_id: supplied,
        entity: trim_str(entity),
        provenance: trim_str(provenance),
    })
}

/// The occurrence a put records, once its content is stored: a supplied
/// id outside the `mo` namespace is refused; a supplied id already
/// recorded is not recorded again (`true`: the occurrence is deduped);
/// otherwise the supplied id, or `mo` and the freshly minted `minted`, is
/// recorded. `known` is whether the supplied id is already recorded.
pub open spec fn occurrence_spec(supplied: Option<Seq<char>>, known: bool, minted: Seq<char>) -> Result<
    (Seq<char>, bool),
    Seq<char>,
> {
    match supplied {
        Some(s) => if !has_prefix(s, "mo"@) {
            Err("a supplied id must start with 'mo' (occurrence namespace)"@)
        } else {
            Ok((s, known))
        },
        None => Ok(("mo"@ + minted, false)),
    }
}

/// What a put does about its occurrence.
pub enum OccurrenceStep {
    /// The supplied id is refused with this message.
    Refuse(String),
    /// The supplied occurrence is already recorded: nothing more is
    /// written.
    Known(String),
    /// The occurrence is recorded under this id.
    Record(String),
}

/// The plan of a put that passed its checks, given whether its content
/// is already stored and whether its supplied occurrence id is already
/// recorded: whether the content record is written (only when it is not
/// stored yet; the content is then not deduped), and what happens to the
/// occurrence (see `occurrence_spec`).
pub fn put_plan(p: &PutRequest, content_known: bool, occurrence_known: bool, minted: &str) -> (r: (
    bool,
    OccurrenceStep,
))
    ensures
        r.0 == !content_known,
        ({
            let sup = match p.supplied_id {
                Some(s) => Some(s@),
                None => None,
            };
            match r.1 {
                OccurrenceStep::Refuse(m) => occurrence_spec(sup, occurrence_known, minted@) == Err::<
                    (Seq<char>, bool),
                    Seq<char>,
                >(m@),
                OccurrenceStep::Known(x) => occurrence_spec(sup, occurrence_known, minted@) == Ok::<
                    (Seq<char>, bool),
                    Seq<char>,
                >((x@, true)),
                OccurrenceStep::Record(x) => occurrence_spec(sup, occurrence_known, minted@) == Ok::<
                    (Seq<char>, bool),
                    Seq<char>,
                >((x@, false)),
            }
        }),
{
    let step = match &p.supplied_id {
        Some(s) => {
            if !starts_with(&chars_vec(s.as_str()), &chars_vec("mo")) {
                OccurrenceStep::Refuse(String::from_str("a supplied id must start with 'mo' (occurrence namespace)"))
            } else if occurrence_known {
                OccurrenceStep::Known(String::from_str(s.as_str()))
            } else {
                OccurrenceStep::Record(String::from_str(s.as_str()))
            }
        },
        None => OccurrenceStep::Record(concat("mo", minted)),
    };
    (!content_known, step)
}

/// What a put that passed its checks does to the store, whose record
/// ids are `store`: the content record `content_id_spec(text)` is there
/// afterwards (the content is deduped when it was there before), and the
/// occurrence is recorded as `occurrence_spec` says. Returns the store
/// after, the occurrence's outcome, and whether the content was deduped.
pub open spec fn put_effect(store: Set<Seq<char>>, text: Seq<char>, supplied: Option<Seq<char>>, minted: Seq<char>) -> (
    Set<Seq<char>>,
    Result<(Seq<char>, bool), Seq<char>>,
    bool,
) {
    let cid = content_id_spec(text);
    let with_content = store.insert(cid);
    let known = match supplied {
        Some(s) => with_content.contains(s),
        None => false,
    };
    let occ = occurrence_spec(supplied, known, minted);
    let after = match occ {
        Ok((id, false)) => with_content.insert(id),
        _ => with_content,
    };
    (after, occ, store.contains(cid))
}

/// Identical text is written once while every message is its own
/// occurrence: of two puts of one text without a supplied id, the second
/// finds its content deduped; both name the same content record, which
/// the store holds; each records an occurrence under an `mo` id, and the
/// two ids differ whenever the two minted ids do (minting gives a fresh
/// id each time).
pub proof fn law_put_dedupes_content(store: Set<Seq<char>>, text: Seq<char>, m1: Seq<char>, m2: Seq<char>)
    ensures
        ({
            let (s1, o1, d1) = put_effect(store, text, None, m1);
            let (s2, o2, d2) = put_effect(s1, text, None, m2);
            &&& d2
            &&& o1 is Ok && o2 is Ok
            &&& !o1->Ok_0.1 && !o2->Ok_0.1
            &&& has_prefix(o1->Ok_0.0, "mo"@) && has_prefix(o2->Ok_0.0, "mo"@)
            &&& s2.contains(content_id_spec(text)) && s2.contains(o1->Ok_0.0) && s2.contains(o2->Ok_0.0)
            &&& m1 != m2 ==> o1->Ok_0.0 != o2->Ok_0.0
        }),
{
    reveal_strlit("mo");
    let a = "mo"@ + m1;
    let b = "mo"@ + m2;
    assert(a.take(2) == "mo"@);
    assert(b.take(2) == "mo"@);
    if a == b {
        assert(a.skip(2) == m1);
        assert(b.skip(2) == m2);
    }
}

/// Content ids and occurrence ids never meet: a content id begins `mc`,
/// every occurrence id a put records begins `mo`.
pub proof fn law_id_namespaces_disjoint(text: Seq<char>, supplied: Option<Seq<char>>, known: bool, minted: Seq<char>)
    requires
        occurrence_spec(supplied, known, minted) is Ok,
    ensures
        content_id_spec(text) != occurrence_spec(supplied, known, minted)->Ok_0.0,
{
    reveal_strlit("mc");
    reveal_strlit("mo");
    let c = content_id_spec(text);
    let o = occurrence_spec(supplied, known, minted)->Ok_0.0;
    assert(c[1] == 'c');
    assert(o.len() >= 2 && o[1] == 'o') by {
        assert(o.take(2) == "mo"@);
        assert(o.take(2)[1] == o[1]);
    }
}

/// Identical text is stored once: two puts of the same content name the
/// same content record.
pub proof fn law_same_text_same_record(a: Seq<char>, b: Seq<char>)
    requires
        a == b,
    ensures
        content_id_spec(a) == content_id_spec(b),
{
}

/// What a read of one message makes of its id: the id trimmed, or the
/// error when there is none.
pub fn message_id(id: &str) -> (r: Result<String, String>)
    ensures
        match r {
            Ok(t) => t@ == trim(id@) && t@.len() > 0,
            Err(m) => trim(id@).len() == 0 && m@ == "id is required"@,
        },
{
    let t = trim_str(id);
    if t.as_str().unicode_len() == 0 {
        Err(String::from_str("id is required"))
    } else {
        Ok(t)
    }
}

/// The error when no record has the id.
pub fn no_message(id: &str) -> (m: String)
    ensures
        m@ == "no message '"@ + id@ + "'"@,
{
    concat3("no message '", id, "'")
}

/// The most messages one read of recent messages returns.
pub const RECENT_MAX: i64 = 500;

/// The positions of the index rows of `venue` (every row when `venue`
/// is empty), in order; `venues` holds each row's venue (empty when it
/// has none).
pub open spec fn venue_hits(venues: Seq<Seq<char>>, venue: Seq<char>) -> Seq<int>
    decreases venues.len(),
{
    if venues.len() == 0 {
        Seq::empty()
    } else {
        let prev = venue_hits(venues.drop_last(), venue);
        if venue.len() == 0 || venues.last() == venue {
            prev.push(venues.len() - 1)
        } else {
            prev
        }
    }
}

/// The newest `cap` of `hits`.
pub open spec fn window(hits: Seq<int>, cap: int) -> Seq<int> {
    if hits.len() > cap { hits.skip(hits.len() - cap) } else { hits }
}

/// What a read of recent messages makes of its arguments: the positions
/// of the rows it returns (the newest `min(limit, RECENT_MAX)` rows of
/// the venue, oldest first) and how many rows the venue has, or the
/// error.
pub open spec fn recent_spec(venues: Seq<Seq<char>>, venue: Seq<char>, limit: int) -> Result<(Seq<int>, int), Seq<char>> {
    recent_picks(venues, normalized(venue), limit)
}

/// The rows of `recent_spec`, given the normalized venue `v`.
pub open spec fn recent_picks(venues: Seq<Seq<char>>, v: Seq<char>, limit: int) -> Result<(Seq<int>, int), Seq<char>> {
    if limit <= 0 {
        Err("limit must be > 0"@)
    } else {
        let hits = venue_hits(venues, v);
        Ok((window(hits, if limit > RECENT_MAX { RECENT_MAX as int } else { limit }), hits.len() as int))
    }
}

/// Picks the rows a read of recent messages returns (see `recent_spec`).
pub fn recent_rows(venues: &Vec<String>, venue: &str, limit: i64) -> (r: Result<(Vec<usize>, usize), String>)
    ensures
        match r {
            Ok((rows, n)) => recent_spec(venues@.map_values(|v: String| v@), venue@, limit as int) == Ok::<
                (Seq<int>, int),
                Seq<char>,
            >((rows@.map_values(|i: usize| i as int), n as int)),
            Err(m) => recent_spec(venues@.map_values(|v: String| v@), venue@, limit as int) == Err::<
                (Seq<int>, int),
                Seq<char>,
            >(m@),
        },
{
    let v = normalize(venue);
    recent_picked(venues, v, limit)
}

/// The rows a read of recent messages returns, given the normalized
/// venue `v` (see `recent_picks`).
pub fn recent_picked(venues: &Vec<String>, v: String, limit: i64) -> (r: Result<(Vec<usize>, usize), String>)
    ensures
        match r {
            Ok((rows, n)) => recent_picks(venues@.map_values(|x: String| x@), v@, limit as int) == Ok::<
                (Seq<int>, int),
                Seq<char>,
            >((rows@.map_values(|i: usize| i as int), n as int)),
            Err(m) => recent_picks(venues@.map_values(|x: String| x@), v@, limit as int) == Err::<
                (Seq<int>, int),
                Seq<char>,
            >(m@),
        },
{
    if limit <= 0 {
        return Err(String::from_str("limit must be > 0"));
    }
    let cap: usize = if limit > RECENT_MAX { RECENT_MAX as usize } else { limit as usize };
    let ghost vv = venues@.map_values(|x: String| x@);
    let mut hits: Vec<usize> = Vec::new();
    let mut i: usize = 0;
    while i < venues.len()
        invariant
            i <= venues.len(),
            vv == venues@.map_values(|x: String| x@),
            hits@.map_values(|k: usize| k as int) == venue_hits(vv.take(i as int), v@),
            hits.len() <= i,
        decreases venues.len() - i,
    {
        assert(vv.take(i + 1).drop_last() == vv.take(i as int));
        assert(vv.take(i + 1).last() == venues[i as int]@);
        if v.as_str().unicode_len() == 0 || eq_str(venues[i].as_str(), v.as_str()) {
            let ghost before = hits@.map_values(|k: usize| k as int);
            hits.push(i);
            assert(hits@.map_values(|k: usize| k as int) =~= before.push(i as int));
        }
        i = i + 1;
    }
    assert(vv.take(venues.len() as int) == vv);
    let ghost hv = hits@.map_values(|k: usize| k as int);
    let start: usize = if hits.len() > cap { hits.len() - cap } else { 0 };
    let mut out: Vec<usize> = Vec::new();
    let mut k: usize = start;
    while k < hits.len()
        invariant
            start <= k <= hits.len(),
            hv == hits@.map_values(|x: usize| x as int),
            out@.map_values(|x: usize| x as int) == hv.subrange(start as int, k as int),
        decreases hits.len() - k,
    {
        let ghost before = out@.map_values(|x: usize| x as int);
        out.push(hits[k]);
        assert(out@.map_values(|x: usize| x as int) =~= before.push(hv[k as int]));
        assert(hv.subrange(start as int, k + 1) =~= hv.subrange(start as int, k as int).push(hv[k as int]));
        k = k + 1;
    }
    assert(hv.subrange(start as int, hits.len() as int) =~= window(hv, cap as int));
    Ok((out, hits.len()))
}

proof fn lemma_venue_hits(venues: Seq<Seq<char>>, venue: Seq<char>)
    ensures
        forall|j: int| 0 <= j < venue_hits(venues, venue).len() ==> 0 <= #[trigger] venue_hits(venues, venue)[j] < venues.len()
            && (venue.len() == 0 || venues[venue_hits(venues, venue)[j]] == venue),
        forall|j: int, k: int| 0 <= j < k < venue_hits(venues, venue).len()
            ==> venue_hits(venues, venue)[j] < venue_hits(venues, venue)[k],
    decreases venues.len(),
{
    if venues.len() > 0 {
        lemma_venue_hits(venues.drop_last(), venue);
        let prev = venue_hits(venues.drop_last(), venue);
        let h = venue_hits(venues, venue);
        assert forall|j: int| 0 <= j < h.len() implies 0 <= #[trigger] h[j] < venues.len()
            && (venue.len() == 0 || venues[h[j]] == venue) by {
            if j < prev.len() {
                assert(h[j] == prev[j]);
                assert(venues.drop_last()[prev[j]] == venues[prev[j]]);
            }
        }
        assert forall|j: int, k: int| 0 <= j < k < h.len() implies h[j] < h[k] by {
            if k < prev.len() {
                assert(h[j] == prev[j] && h[k] == prev[k]);
            } else {
                assert(h[j] == prev[j]);
            }
        }
    }
}

/// A read of recent messages returns at most `min(limit, RECENT_MAX)`
/// rows, every one of the venue asked for, oldest first, and when the
/// venue has that many it returns exactly that many, the newest of them.
pub proof fn law_recent_window(venues: Seq<Seq<char>>, venue: Seq<char>, limit: int)
    requires
        limit > 0,
    ensures
        ({
            let (rows, n) = recent_spec(venues, venue, limit)->Ok_0;
            let cap = if limit > RECENT_MAX { RECENT_MAX as int } else { limit };
            &&& rows.len() <= cap
            &&& (n >= cap ==> rows.len() == cap)
            &&& forall|j: int| 0 <= j < rows.len() ==> 0 <= #[trigger] rows[j] < venues.len()
                && (normalized(venue).len() == 0 || venues[rows[j]] == normalized(venue))
            &&& forall|j: int, k: int| 0 <= j < k < rows.len() ==> rows[j] < rows[k]
            &&& (rows.len() > 0 ==> rows.last() == venue_hits(venues, normalized(venue)).last())
        }),
{
    let hits = venue_hits(venues, normalized(venue));
    lemma_venue_hits(venues, normalized(venue));
    let cap = if limit > RECENT_MAX { RECENT_MAX as int } else { limit };
    let rows = window(hits, cap);
    assert forall|j: int| 0 <= j < rows.len() implies 0 <= #[trigger] rows[j] < venues.len()
        && (normalized(venue).len() == 0 || venues[rows[j]] == normalized(venue)) by {
        if hits.len() > cap {
            assert(rows[j] == hits[j + hits.len() - cap]);
        }
    }
    assert forall|j: int, k: int| 0 <= j < k < rows.len() implies rows[j] < rows[k] by {
        if hits.len() > cap {
            assert(rows[j] == hits[j + hits.len() - cap]);
            assert(rows[k] == hits[k + hits.len() - cap]);
        }
    }
}

} // verus!
