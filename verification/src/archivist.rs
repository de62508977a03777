//! The archivist: the turn queue it keeps, the wonderings it collects,
//! the neighbourhood it shows when it looks for a connection, and how a
//! sweep of subject claims into their home library is tallied.
use vstd::prelude::*;
use vstd::string::StringExecFns;
use crate::json::{render, render_json, Json};
use crate::jsonread::{array_items, json_array, item_view, Item, ItemView};
use crate::registry::{find_named, first_named, named_at};
use crate::text::{concat, concat3, decimal, decimal_string, eq_str, first_pos, has_prefix, has_string, int_string,
    int_text, joined, join_strings, string_of, chars_vec, starts_with, take_chars, take_str, trim, trim_str, bracketed,
    bracketed_span};

verus! {

// ---------------------------------------------------------------- queues

/// The newest `cap` elements of `s` (all of them when there are fewer).
pub open spec fn newest<T>(s: Seq<T>, cap: nat) -> Seq<T> {
    if s.len() > cap {
        s.skip(s.len() - cap)
    } else {
        s
    }
}

/// Appends `item` to a bounded queue, dropping the oldest entries until
/// at most `cap` remain.
pub fn push_capped<T>(q: &mut Vec<T>, item: T, cap: usize)
    ensures
        final(q)@ == newest(old(q)@.push(item), cap as nat),
{
    q.push(item);
    let ghost full = q@;
    while q.len() > cap
        invariant
            q@ == full.skip(full.len() - q.len()),
            q.len() <= full.len(),
            q.len() >= cap || q.len() == full.len(),
        decreases q.len(),
    {
        q.remove(0);
        assert(q@ =~= full.skip(full.len() - q.len()));
    }
    assert(full.skip(0) =~= full);
}

/// A bounded queue keeps at most its bound, keeps the newest entry last,
/// and drops nothing while there is room.
pub proof fn law_capped_queue<T>(s: Seq<T>, item: T, cap: nat)
    requires
        cap > 0,
    ensures
        newest(s.push(item), cap).len() <= cap,
        newest(s.push(item), cap).last() == item,
        s.len() < cap ==> newest(s.push(item), cap) == s.push(item),
{
}

/// The most turns the archivist queue holds.
pub const TURN_QUEUE_CAP: usize = 200;

/// A completed turn as the archivist queues it.
pub struct Turn {
    pub venue: String,
    pub ask: String,
    pub reply: String,
    pub tools: String,
}

/// A turn with its ask and reply cut to 4000 characters and its tool
/// trace to 400.
pub fn clip_turn(venue: &str, ask: &str, reply: &str, tools: &str) -> (t: Turn)
    ensures
        t.venue@ == venue@,
        t.ask@ == take_chars(ask@, 4000),
        t.reply@ == take_chars(reply@, 4000),
        t.tools@ == take_chars(tools@, 400),
{
    Turn {
        venue: String::from_str(venue),
        ask: take_str(ask, 4000),
        reply: take_str(reply, 4000),
        tools: take_str(tools, 400),
    }
}

// ---------------------------------------------------------------- frontier

/// How a failed frontier answer is reported: replies that begin with
/// `ERROR` are failures, shown by their first 200 characters.
pub open spec fn frontier_failure_spec(reply: Seq<char>) -> Option<Seq<char>> {
    if has_prefix(reply, "ERROR"@) {
        Some("the frontier arm failed: "@ + take_chars(reply, 200))
    } else {
        None
    }
}

/// The error a failed frontier answer gives (see `frontier_failure_spec`).
pub fn frontier_failure(reply: &str) -> (r: Option<String>)
    ensures
        match r {
            Some(m) => frontier_failure_spec(reply@) == Some(m@),
            None => frontier_failure_spec(reply@) is None,
        },
{
    if starts_with(&chars_vec(reply), &chars_vec("ERROR")) {
        let head = take_str(reply, 200);
        Some(concat("the frontier arm failed: ", head.as_str()))
    } else {
        None
    }
}

// ---------------------------------------------------------------- wonder

/// The most wonderings held.
pub const WONDER_CAP: usize = 20;

/// The training banks as the wonder prompt lists them: `name=rows` for
/// each, separated by spaces.
pub open spec fn bank_items(banks: Seq<(Seq<char>, int)>) -> Seq<char>
    decreases banks.len(),
{
    if banks.len() == 0 {
        Seq::empty()
    } else {
        bank_items(banks.drop_last()) + banks.last().0 + "="@ + int_text(banks.last().1) + " "@
    }
}

/// The training banks listed (see `bank_items`), trimmed.
pub fn bank_summary(banks: &Vec<(String, i64)>) -> (s: String)
    ensures
        s@ == trim(bank_items(banks@.map_values(|b: (String, i64)| (b.0@, b.1 as int)))),
{
    let ghost bv = banks@.map_values(|b: (String, i64)| (b.0@, b.1 as int));
    let mut out = String::new();
    let mut i: usize = 0;
    while i < banks.len()
        invariant
            i <= banks.len(),
            bv == banks@.map_values(|b: (String, i64)| (b.0@, b.1 as int)),
            out@ == bank_items(bv.take(i as int)),
        decreases banks.len() - i,
    {
        assert(bv.take(i + 1).drop_last() == bv.take(i as int));
        assert(bv.take(i + 1).last() == (banks[i as int].0@, banks[i as int].1 as int));
        let rows = int_string(banks[i].1);
        let item = concat3(banks[i].0.as_str(), "=", rows.as_str());
        out = concat3(out.as_str(), item.as_str(), " ");
        i = i + 1;
    }
    assert(bv.take(banks.len() as int) == bv);
    trim_str(out.as_str())
}

/// The prompt that asks the frontier for open questions, given the work
/// queue's counts and the banks listed.
pub open spec fn wonder_prompt_spec(stale: int, review: int, unpromoted: int, banks: Seq<char>) -> Seq<char> {
    "You are an autonomous agent taking stock of its own gaps. Facts about your current state:\n- memory work queue: "@
        + int_text(stale) + " stale, "@ + int_text(review) + " awaiting review, "@ + int_text(unpromoted)
        + " unpromoted subject claims\n- training banks (rows): "@ + banks
        + "\n- chartered but unbuilt: the camera sensor (visual_event is reserved in the perception contract); hollis's calibration self-reporting\n- your senses: store journals, room audio, system state\nGenerate 1 to 2 OPEN QUESTIONS worth the owner's attention - genuine wonderings about what to build, verify, or watch next. Not tasks, not answers: questions that would teach something if pursued.\nReply with ONLY a JSON array, no fences: [\"<question>\", ...]"@
}

/// The wonder prompt (see `wonder_prompt_spec`).
pub fn wonder_prompt(stale: i64, review: i64, unpromoted: i64, banks: &str) -> (p: String)
    ensures
        p@ == wonder_prompt_spec(stale as int, review as int, unpromoted as int, banks@),
{
    let s = int_string(stale);
    let r = int_string(review);
    let u = int_string(unpromoted);
    let a = concat3(
        "You are an autonomous agent taking stock of its own gaps. Facts about your current state:\n- memory work queue: ",
        s.as_str(),
        " stale, ",
    );
    let b = concat3(a.as_str(), r.as_str(), " awaiting review, ");
    let c = concat3(b.as_str(), u.as_str(), " unpromoted subject claims\n- training banks (rows): ");
    concat3(
        c.as_str(),
        banks,
        "\n- chartered but unbuilt: the camera sensor (visual_event is reserved in the perception contract); hollis's calibration self-reporting\n- your senses: store journals, room audio, system state\nGenerate 1 to 2 OPEN QUESTIONS worth the owner's attention - genuine wonderings about what to build, verify, or watch next. Not tasks, not answers: questions that would teach something if pursued.\nReply with ONLY a JSON array, no fences: [\"<question>\", ...]",
    )
}

/// The questions a reply adds, in order: each string answer, trimmed,
/// unless it is empty or already held (by the existing wonderings, whose
/// questions are `existing`, or by one added before it).
pub open spec fn wonder_fresh(existing: Seq<Option<String>>, answers: Seq<Option<String>>) -> Seq<Seq<char>>
    decreases answers.len(),
{
    if answers.len() == 0 {
        Seq::empty()
    } else {
        let prev = wonder_fresh(existing, answers.drop_last());
        match answers.last() {
            None => prev,
            Some(q) => {
                let t = trim(q@);
                if t.len() == 0 || first_named(existing, t) is Some || prev.contains(t) {
                    prev
                } else {
                    prev.push(t)
                }
            },
        }
    }
}

/// How many of the oldest wonderings leave so that at most
/// `WONDER_CAP` are held.
pub open spec fn wonder_drop(held: int) -> int {
    if held > WONDER_CAP { held - WONDER_CAP } else { 0 }
}

/// Merges a reply's questions into the wonderings: the questions to add,
/// in order, and how many of the oldest entries then leave.
pub fn wonder_merge(existing: &Vec<Option<String>>, answers: &Vec<Option<String>>) -> (r: (Vec<String>, usize))
    requires
        existing.len() + answers.len() <= usize::MAX,
    ensures
        r.0@.map_values(|s: String| s@) == wonder_fresh(existing@, answers@),
        r.1 == wonder_drop((existing.len() + r.0.len()) as int),
{
    let mut fresh: Vec<String> = Vec::new();
    let mut i: usize = 0;
    while i < answers.len()
        invariant
            i <= answers.len(),
            fresh@.map_values(|s: String| s@) == wonder_fresh(existing@, answers@.take(i as int)),
            fresh.len() <= i,
        decreases answers.len() - i,
    {
        assert(answers@.take(i + 1).drop_last() == answers@.take(i as int));
        assert(answers@.take(i + 1).last() == answers@[i as int]);
        match &answers[i] {
            None => {},
            Some(q) => {
                let t = trim_str(q.as_str());
                if t.as_str().unicode_len() > 0 && find_named(existing, t.as_str()).is_none()
                    && !has_string(&fresh, t.as_str()) {
                    let ghost before = fresh@.map_values(|s: String| s@);
                    fresh.push(t);
                    assert(fresh@.map_values(|s: String| s@) =~= before.push(trim(q@)));
                }
            },
        }
        i = i + 1;
    }
    assert(answers@.take(answers.len() as int) == answers@);
    let held = existing.len() + fresh.len();
    let drop: usize = if held > WONDER_CAP {
        held - WONDER_CAP
    } else {
        0
    };
    (fresh, drop)
}

/// The wonderings are deduplicated and capped: every question added is
/// non-empty, new to the list and added once, and after the oldest leave
/// at most `WONDER_CAP` are held.
pub proof fn law_wonderings_deduped_and_capped(existing: Seq<Option<String>>, answers: Seq<Option<String>>)
    ensures
        forall|i: int| 0 <= i < wonder_fresh(existing, answers).len()
            ==> (#[trigger] wonder_fresh(existing, answers)[i]).len() > 0
                && first_named(existing, wonder_fresh(existing, answers)[i]) is None,
        forall|i: int, j: int| 0 <= i < j < wonder_fresh(existing, answers).len()
            ==> wonder_fresh(existing, answers)[i] != wonder_fresh(existing, answers)[j],
        existing.len() + wonder_fresh(existing, answers).len()
            - wonder_drop((existing.len() + wonder_fresh(existing, answers).len()) as int) <= WONDER_CAP,
    decreases answers.len(),
{
    if answers.len() > 0 {
        law_wonderings_deduped_and_capped(existing, answers.drop_last());
        let prev = wonder_fresh(existing, answers.drop_last());
        let f = wonder_fresh(existing, answers);
        if f != prev {
            let t = f.last();
            assert(f == prev.push(t));
            assert(!prev.contains(t));
            assert forall|i: int, j: int| 0 <= i < j < f.len() implies f[i] != f[j] by {
                if j == f.len() - 1 {
                    assert(prev[i] == f[i]);
                    assert(prev.contains(f[i]));
                } else {
                    assert(prev[i] == f[i] && prev[j] == f[j]);
                }
            }
            assert forall|i: int| 0 <= i < f.len() implies (#[trigger] f[i]).len() > 0
                && first_named(existing, f[i]) is None by {
                if i < f.len() - 1 {
                    assert(prev[i] == f[i]);
                }
            }
        }
    }
}

/// A wondering's question as its list entry holds it (`None`: the entry
/// holds no question).
pub open spec fn q_view(q: Option<String>) -> Option<Seq<char>> {
    match q {
        Some(s) => Some(s@),
        None => None,
    }
}

/// The wonderings' questions after a merge: the existing entries, then
/// one per fresh question, in order, less the oldest beyond
/// `WONDER_CAP`: the last `min(WONDER_CAP, n)` of the `n` entries.
pub open spec fn wonder_list(existing: Seq<Option<String>>, answers: Seq<Option<String>>) -> Seq<Option<Seq<char>>> {
    let all = existing.map_values(|q: Option<String>| q_view(q)) + wonder_fresh(existing, answers).map_values(
        |t: Seq<char>| Some(t),
    );
    all.skip(wonder_drop(all.len() as int))
}

/// No two entries of a list hold the same question.
pub open spec fn questions_distinct(l: Seq<Option<Seq<char>>>) -> bool {
    forall|i: int, j: int| 0 <= i < j < l.len() && (#[trigger] l[i]) is Some ==> l[i] != #[trigger] l[j]
}

/// The wonder list stays deduplicated and capped: when the existing
/// entries hold distinct questions, the list after a merge holds distinct
/// questions and at most `WONDER_CAP` entries.
pub proof fn law_wonder_list(existing: Seq<Option<String>>, answers: Seq<Option<String>>)
    requires
        questions_distinct(existing.map_values(|q: Option<String>| q_view(q))),
    ensures
        wonder_list(existing, answers).len() <= WONDER_CAP,
        questions_distinct(wonder_list(existing, answers)),
{
    law_wonderings_deduped_and_capped(existing, answers);
    let ev = existing.map_values(|q: Option<String>| q_view(q));
    let f = wonder_fresh(existing, answers);
    let fv = f.map_values(|t: Seq<char>| Some(t));
    let all = ev + fv;
    let d = wonder_drop(all.len() as int);
    assert forall|i: int, j: int| 0 <= i < j < all.len() && (#[trigger] all[i]) is Some implies all[i] != #[trigger] all[j] by {
        if j < ev.len() {
            assert(all[i] == ev[i] && all[j] == ev[j]);
        } else if i >= ev.len() {
            assert(all[i] == fv[i - ev.len()] && all[j] == fv[j - ev.len()]);
            assert(f[i - ev.len()] != f[j - ev.len()]);
        } else {
            let t = f[j - ev.len()];
            assert(all[j] == Some(t));
            assert(first_named(existing, t) is None);
            if all[i] == all[j] {
                assert(named_at(existing, i, t));
            }
        }
    }
    let l = all.skip(d);
    assert forall|i: int, j: int| 0 <= i < j < l.len() && (#[trigger] l[i]) is Some implies l[i] != #[trigger] l[j] by {
        assert(l[i] == all[i + d] && l[j] == all[j + d]);
    }
}

// ---------------------------------------------------------------- connect

/// The subject a connection is sought for: the one given, trimmed; when
/// none is given, the kind of the executive's last perception; failing
/// that, the agent's own recent work.
pub open spec fn connect_subject_spec(subject: Seq<char>, last_kind: Option<Seq<char>>) -> Seq<char> {
    if trim(subject).len() > 0 {
        trim(subject)
    } else if last_kind matches Some(k) && k.len() > 0 {
        last_kind->0
    } else {
        "the agent's own recent work"@
    }
}

/// The subject a connection is sought for (see `connect_subject_spec`).
pub fn connect_subject(subject: &str, last_kind: Option<&str>) -> (s: String)
    ensures
        s@ == connect_subject_spec(subject@, match last_kind {
            Some(k) => Some(k@),
            None => None,
        }),
{
    let t = trim_str(subject);
    if t.as_str().unicode_len() > 0 {
        return t;
    }
    match last_kind {
        Some(k) => {
            if k.unicode_len() > 0 {
                return String::from_str(k);
            }
        },
        None => {},
    }
    String::from_str("the agent's own recent work")
}

/// The fewest claims a neighbourhood needs.
pub const NEIGHBOURHOOD_MIN: usize = 3;

/// Why a recall too small to connect is skipped.
pub open spec fn too_few_spec(count: nat, subject: Seq<char>) -> Seq<char> {
    "only "@ + decimal(count) + " claims recalled for '"@ + subject + "' - a neighborhood needs 3"@
}

/// Why a recall of `count` claims is skipped, when it is (fewer than 3).
pub fn too_few(count: usize, subject: &str) -> (r: Option<String>)
    ensures
        count < NEIGHBOURHOOD_MIN ==> (r matches Some(m) && m@ == too_few_spec(count as nat, subject@)),
        count >= NEIGHBOURHOOD_MIN ==> r is None,
{
    if count < NEIGHBOURHOOD_MIN {
        let n = decimal_string(count as u64);
        let a = concat3("only ", n.as_str(), " claims recalled for '");
        Some(concat3(a.as_str(), subject, "' - a neighborhood needs 3"))
    } else {
        None
    }
}

/// The recalled claims listed for the prompt: `n. [home] claim` per
/// claim, numbered by position from 1, each claim cut to 300 characters;
/// an entry that is not a claim (`None`) is left out but keeps its number.
pub open spec fn claim_listing_spec(claims: Seq<Option<(String, String)>>) -> Seq<char>
    decreases claims.len(),
{
    if claims.len() == 0 {
        Seq::empty()
    } else {
        claim_listing_spec(claims.drop_last()) + match claims.last() {
            Some(c) => decimal(claims.len()) + ". ["@ + c.0@ + "] "@ + take_chars(c.1@, 300) + "\n"@,
            None => Seq::empty(),
        }
    }
}

/// The recalled claims listed (see `claim_listing_spec`); each is
/// `(home, claim)`.
pub fn claim_listing(claims: &Vec<Option<(String, String)>>) -> (s: String)
    ensures
        s@ == claim_listing_spec(claims@),
{
    let mut out = String::new();
    let mut i: usize = 0;
    while i < claims.len()
        invariant
            i <= claims.len(),
            out@ == claim_listing_spec(claims@.take(i as int)),
        decreases claims.len() - i,
    {
        assert(claims@.take(i + 1).drop_last() == claims@.take(i as int));
        assert(claims@.take(i + 1).last() == claims@[i as int]);
        match &claims[i] {
            Some(c) => {
                let n = decimal_string(i as u64 + 1);
                let head = concat3(n.as_str(), ". [", c.0.as_str());
                let body = take_str(c.1.as_str(), 300);
                let line = concat3(head.as_str(), "] ", body.as_str());
                out = concat3(out.as_str(), line.as_str(), "\n");
            },
            None => {
                assert(out@ + Seq::<char>::empty() == out@);
            },
        }
        i = i + 1;
    }
    assert(claims@.take(claims.len() as int) == claims@);
    out
}

/// The prompt that asks the frontier for one inference from the listed
/// claims.
pub open spec fn connect_prompt_spec(subject: Seq<char>, listing: Seq<char>) -> Seq<char> {
    "You are the agent reflecting on its own knowledge. Below are related claims it holds about '"@ + subject
        + "'.\nCLAIMS:\n"@ + listing
        + "\nState ONE inference that FOLLOWS from these claims together but is stated in none of them - a connection, a consequence, or a tension worth noticing. It must be non-obvious and checkable. If nothing genuinely follows, say so.\nReply with ONLY one JSON object, no fences:\n{\"notion\": \"<one standalone sentence, or empty if nothing follows>\", \"from\": [<claim numbers used>], \"why\": \"<one sentence>\"}"@
}

/// The connect prompt (see `connect_prompt_spec`).
pub fn connect_prompt(subject: &str, listing: &str) -> (p: String)
    ensures
        p@ == connect_prompt_spec(subject@, listing@),
{
    let a = concat3(
        "You are the agent reflecting on its own knowledge. Below are related claims it holds about '",
        subject,
        "'.\nCLAIMS:\n",
    );
    concat3(
        a.as_str(),
        listing,
        "\nState ONE inference that FOLLOWS from these claims together but is stated in none of them - a connection, a consequence, or a tension worth noticing. It must be non-obvious and checkable. If nothing genuinely follows, say so.\nReply with ONLY one JSON object, no fences:\n{\"notion\": \"<one standalone sentence, or empty if nothing follows>\", \"from\": [<claim numbers used>], \"why\": \"<one sentence>\"}",
    )
}

/// The claims an inference names as its grounds, each cut to 80
/// characters: every integer of `from` that numbers a listed claim.
pub open spec fn used_parts(from: Seq<Option<i64>>, claims: Seq<Option<(String, String)>>) -> Seq<Seq<char>>
    decreases from.len(),
{
    if from.len() == 0 {
        Seq::empty()
    } else {
        let prev = used_parts(from.drop_last(), claims);
        match from.last() {
            Some(n) => if 1 <= n <= claims.len() && claims[n - 1] is Some {
                let c = claims[n - 1]->0;
                prev.push(take_chars(c.1@, 80))
            } else {
                prev
            },
            None => prev,
        }
    }
}

/// The grounds of an inference, joined by ` | ` (see `used_parts`).
pub fn used_claims(from: &Vec<Option<i64>>, claims: &Vec<Option<(String, String)>>) -> (s: String)
    ensures
        s@ == joined(used_parts(from@, claims@), " | "@),
{
    let mut parts: Vec<String> = Vec::new();
    let mut i: usize = 0;
    while i < from.len()
        invariant
            i <= from.len(),
            parts@.map_values(|s: String| s@) == used_parts(from@.take(i as int), claims@),
        decreases from.len() - i,
    {
        assert(from@.take(i + 1).drop_last() == from@.take(i as int));
        assert(from@.take(i + 1).last() == from@[i as int]);
        match from[i] {
            Some(n) => {
                if n >= 1 && (n as u64) <= (claims.len() as u64) {
                    let k = (n - 1) as usize;
                    match &claims[k] {
                        Some(c) => {
                            let ghost before = parts@.map_values(|s: String| s@);
                            parts.push(take_str(c.1.as_str(), 80));
                            assert(parts@.map_values(|s: String| s@) =~= before.push(take_chars(c.1@, 80)));
                        },
                        None => {},
                    }
                }
            },
            None => {},
        }
        i = i + 1;
    }
    assert(from@.take(from.len() as int) == from@);
    join_strings(&parts, " | ")
}

/// The detail a notion is filed with: why it follows, and from what.
pub fn notion_detail(why: &str, used: &str) -> (s: String)
    ensures
        s@ == why@ + " [follows from: "@ + used@ + "]"@,
{
    let a = concat3(why, " [follows from: ", used);
    concat(a.as_str(), "]")
}

// ---------------------------------------------------------------- promote

/// The library and control a claim's `subject` names: split at the first
/// dot; a bare library names its eponymous control.
pub open spec fn subject_target_spec(subject: Seq<char>) -> (Seq<char>, Seq<char>) {
    match first_pos(subject, '.') {
        Some(p) => (subject.take(p), subject.skip(p + 1)),
        None => (subject, subject),
    }
}

/// The library and control a claim's subject names.
pub fn subject_target(subject: &str) -> (r: (String, String))
    ensures
        (r.0@, r.1@) == subject_target_spec(subject@),
{
    let v = chars_vec(subject);
    let mut i: usize = 0;
    while i < v.len() && v[i] != '.'
        invariant
            i <= v.len(),
            v@ == subject@,
            forall|j: int| 0 <= j < i ==> v@[j] != '.',
        decreases v.len() - i,
    {
        i = i + 1;
    }
    if i < v.len() {
        proof {
            let w = choose|k: int| 0 <= k < v@.len() && v@[k] == '.' && forall|j: int| 0 <= j < k ==> v@[j] != '.';
            if w > i {
                assert(v@[i as int] != '.');
            }
        }
        let mut a: Vec<char> = Vec::new();
        let mut k: usize = 0;
        while k < i
            invariant
                k <= i,
                i < v.len(),
                a@ == v@.take(k as int),
            decreases i - k,
        {
            a.push(v[k]);
            assert(v@.take(k + 1) == v@.take(k as int).push(v@[k as int]));
            k = k + 1;
        }
        let mut b: Vec<char> = Vec::new();
        let mut k: usize = i + 1;
        while k < v.len()
            invariant
                i + 1 <= k <= v.len(),
                b@ == v@.subrange(i + 1, k as int),
            decreases v.len() - k,
        {
            b.push(v[k]);
            assert(v@.subrange(i + 1, k + 1) == v@.subrange(i + 1, k as int).push(v@[k as int]));
            k = k + 1;
        }
        (string_of(&a), string_of(&b))
    } else {
        (String::from_str(subject), String::from_str(subject))
    }
}

/// What filing a claim into its home came to.
pub enum FileOutcome {
    /// Filed.
    Filed,
    /// The exact claim was already there; the union holds either way.
    AlreadyPresent,
    /// Refused, with the message.
    Failed(String),
}

/// Reads the filing's answer.
pub fn file_outcome(status: &str, msg: &str) -> (o: FileOutcome)
    ensures
        match o {
            FileOutcome::Filed => status@ == "ok"@,
            FileOutcome::AlreadyPresent => status@ != "ok"@ && crate::text::has_infix(msg@, "exact claim already exists"@),
            FileOutcome::Failed(m) => status@ != "ok"@ && !crate::text::has_infix(msg@, "exact claim already exists"@)
                && m@ == msg@,
        },
{
    if eq_str(status, "ok") {
        FileOutcome::Filed
    } else if crate::text::contains(&chars_vec(msg), &chars_vec("exact claim already exists")) {
        FileOutcome::AlreadyPresent
    } else {
        FileOutcome::Failed(String::from_str(msg))
    }
}

/// The running count of a promotion sweep.
pub struct PromoteTally {
    pub promoted: u64,
    pub already: u64,
    pub failed: u64,
}

impl PromoteTally {
    /// Nothing counted yet.
    pub fn new() -> (t: PromoteTally)
        ensures
            t.promoted == 0 && t.already == 0 && t.failed == 0,
    {
        PromoteTally { promoted: 0, already: 0, failed: 0 }
    }

    /// How many claims have been counted.
    pub open spec fn total(self) -> int {
        self.promoted + self.already + self.failed
    }

    /// Counts one filing; returns whether the claim's brain copy is to be
    /// stamped promoted (it is, unless the filing failed).
    pub fn record(&mut self, o: &FileOutcome) -> (stamp: bool)
        requires
            old(self).total() < u64::MAX,
        ensures
            final(self).total() == old(self).total() + 1,
            stamp == !(o is Failed),
            o is Filed ==> final(self).promoted == old(self).promoted + 1 && final(self).already == old(self).already
                && final(self).failed == old(self).failed,
            o is AlreadyPresent ==> final(self).already == old(self).already + 1
                && final(self).promoted == old(self).promoted && final(self).failed == old(self).failed,
            o is Failed ==> final(self).failed == old(self).failed + 1 && final(self).promoted == old(self).promoted
                && final(self).already == old(self).already,
    {
        match o {
            FileOutcome::Filed => {
                self.promoted = self.promoted + 1;
                true
            },
            FileOutcome::AlreadyPresent => {
                self.already = self.already + 1;
                true
            },
            FileOutcome::Failed(_) => {
                self.failed = self.failed + 1;
                false
            },
        }
    }
}

/// Whether a brain entry is a promotion candidate for `lib`: a claim with
/// a subject, not yet promoted, whose subject names `lib`. Returns the
/// target control when it is.
pub fn promotion_target(has_claim: bool, subject: Option<&str>, promoted: bool, lib: &str) -> (r: Option<(String, String)>)
    ensures
        match r {
            Some((l, c)) => has_claim && !promoted && (subject matches Some(s)
                && (l@, c@) == subject_target_spec(s@) && l@ == lib@),
            None => !has_claim || promoted || subject is None
                || subject_target_spec(subject->0@).0 != lib@,
        },
{
    if !has_claim || promoted {
        return None;
    }
    match subject {
        None => None,
        Some(s) => {
            let (l, c) = subject_target(s);
            if eq_str(l.as_str(), lib) {
                Some((l, c))
            } else {
                None
            }
        },
    }
}

/// The journal label of a stamping patch.
pub fn promote_label(stamped: u64, lib: &str) -> (s: String)
    ensures
        s@ == "promote: "@ + decimal(stamped as nat) + " claim(s) -> "@ + lib@,
{
    let n = decimal_string(stamped);
    let a = concat3("promote: ", n.as_str(), " claim(s) -> ");
    concat(a.as_str(), lib)
}

/// A memory facet's new text: the entries pretty-printed, then a newline.
pub fn memory_source(entries: &Json) -> (s: String)
    ensures
        s@ == render(*entries, Seq::empty()) + seq!['\n'],
{
    let mut s = render_json(entries);
    crate::text::push_char(&mut s, '\n');
    s
}

/// The questions of a wonder reply: the JSON array between its first `[`
/// and its last `]`, each item a question where it is a string; `None`
/// when the reply holds no such array.
pub open spec fn wonder_answers_spec(reply: Seq<char>) -> Option<Seq<Option<Seq<char>>>> {
    match bracketed(reply, '[', ']') {
        Some(span) => match array_items(span) {
            Some(items) => Some(items.map_values(|it: ItemView| match it {
                ItemView::Text(q) => Some(q),
                _ => None,
            })),
            None => None,
        },
        None => None,
    }
}

/// The questions of a wonder reply (see `wonder_answers_spec`), as
/// `wonder_merge` takes them.
pub fn wonder_answers(reply: &str) -> (r: Option<Vec<Option<String>>>)
    ensures
        match r {
            Some(v) => wonder_answers_spec(reply@) == Some(v@.map_values(|q: Option<String>| match q {
                Some(s) => Some(s@),
                None => None,
            })),
            None => wonder_answers_spec(reply@) is None,
        },
{
    let span = match bracketed_span(reply, '[', ']') {
        Some(s) => s,
        None => return None,
    };
    let items = match json_array(span.as_str()) {
        Some(v) => v,
        None => return None,
    };
    let ghost iv = items@.map_values(|i: Item| item_view(i));
    let mut out: Vec<Option<String>> = Vec::new();
    let mut i: usize = 0;
    while i < items.len()
        invariant
            i <= items.len(),
            iv == items@.map_values(|i: Item| item_view(i)),
            out@.map_values(|q: Option<String>| match q {
                Some(s) => Some(s@),
                None => None,
            }) == iv.take(i as int).map_values(|it: ItemView| match it {
                ItemView::Text(q) => Some(q),
                _ => None,
            }),
        decreases items.len() - i,
    {
        let q = match &items[i] {
            Item::Text(s) => Some(String::from_str(s.as_str())),
            _ => None,
        };
        let ghost before = out@;
        out.push(q);
        assert(iv.take(i + 1) == iv.take(i as int).push(iv[i as int]));
        assert(out@ == before.push(q));
        assert(out@.map_values(|q: Option<String>| match q {
            Some(s) => Some(s@),
            None => None,
        }) =~= before.map_values(|q: Option<String>| match q {
            Some(s) => Some(s@),
            None => None,
        }).push(match q {
            Some(s) => Some(s@),
            None => None,
        }));
        i = i + 1;
    }
    assert(iv.take(items.len() as int) == iv);
    Some(out)
}

} // verus!
