//! The tool loop's bookkeeping: the state it carries between model
//! replies, what it does with each reply and each tool call, and how it
//! trims an observation before the model sees it. The calls to the model
//! and to the tools are made by the caller, who hands their results in.
use vstd::prelude::*;
use vstd::utf8::encode_utf8;
use vstd::string::StringSliceAdditionalSpecFns;
use crate::jsonread::{array_items, json_array};
use crate::text::{byte_len, chars_vec, concat, concat3, concat5, contains, decimal, decimal_string, eq_str, find, first_occurrence, has_infix, has_prefix, lemma_byte_len_is_encoding_len, replace_all, replace_str, starts_with, string_of, take_chars, take_str, trim_start, utf8_width, char_width, is_whitespace, ends_with, has_suffix, int_string, int_text};

verus! {

/// The most model replies one loop asks for.
pub const MAX_ITERATIONS: u64 = 24;

/// How many bytes of a tool's observation reach the model when the tool
/// compiles code.
pub const COMPILE_BUDGET: usize = 8000;

/// How many bytes of any other tool's observation reach the model.
pub const PLAIN_BUDGET: usize = 6000;

/// How many UTF-8 bytes the first `k` characters of `s` take.
pub open spec fn prefix_bytes(s: Seq<char>, k: int) -> nat {
    byte_len(s.take(k))
}

proof fn lemma_prefix_step(s: Seq<char>, k: int)
    requires
        0 <= k < s.len(),
    ensures
        prefix_bytes(s, k + 1) == prefix_bytes(s, k) + char_width(s[k]),
{
    assert(s.take(k + 1).drop_last() == s.take(k));
    assert(s.take(k + 1).last() == s[k]);
}

proof fn lemma_prefix_width_positive(c: char)
    ensures
        char_width(c) >= 1,
{
    vstd::utf8::char_is_scalar(c);
}

proof fn lemma_prefix_mono(s: Seq<char>, i: int, j: int)
    requires
        0 <= i <= j <= s.len(),
    ensures
        prefix_bytes(s, i) <= prefix_bytes(s, j),
        i < j ==> prefix_bytes(s, i) < prefix_bytes(s, j),
    decreases j - i,
{
    if i < j {
        lemma_prefix_mono(s, i, j - 1);
        lemma_prefix_step(s, j - 1);
        lemma_prefix_width_positive(s[j - 1]);
    }
}

/// `k` is where the head of a clamped text ends: the most characters
/// whose bytes fit in `limit`.
pub open spec fn is_head_cut(s: Seq<char>, limit: int, k: int) -> bool {
    0 <= k <= s.len() && prefix_bytes(s, k) <= limit && (k < s.len() ==> prefix_bytes(s, k + 1) > limit)
}

/// `k` is where the tail of a clamped text starts: the fewest characters
/// whose bytes reach `need`.
pub open spec fn is_tail_cut(s: Seq<char>, need: int, k: int) -> bool {
    0 <= k <= s.len() && prefix_bytes(s, k) >= need && (k > 0 ==> prefix_bytes(s, k - 1) < need)
}

/// The head cut of `s` under `limit`.
pub open spec fn head_cut(s: Seq<char>, limit: int) -> int {
    choose|k: int| is_head_cut(s, limit, k)
}

/// The tail cut of `s` for `need`.
pub open spec fn tail_cut(s: Seq<char>, need: int) -> int {
    choose|k: int| is_tail_cut(s, need, k)
}

proof fn lemma_head_cut_unique(s: Seq<char>, limit: int, k: int)
    requires
        is_head_cut(s, limit, k),
    ensures
        head_cut(s, limit) == k,
{
    let c = head_cut(s, limit);
    assert(is_head_cut(s, limit, c));
    if c < k {
        lemma_prefix_mono(s, c + 1, k);
    } else if c > k {
        lemma_prefix_mono(s, k + 1, c);
    }
}

proof fn lemma_tail_cut_unique(s: Seq<char>, need: int, k: int)
    requires
        is_tail_cut(s, need, k),
    ensures
        tail_cut(s, need) == k,
{
    let c = tail_cut(s, need);
    assert(is_tail_cut(s, need, c));
    if c < k {
        lemma_prefix_mono(s, c, k - 1);
    } else if c > k {
        lemma_prefix_mono(s, k, c - 1);
    }
}

/// `s` cut to fit `budget` bytes, head-biased: when it is too long, the
/// first two thirds of the budget's worth of whole characters, a marker
/// saying how many bytes were left out, and the last third's worth.
pub open spec fn clamp_spec(s: Seq<char>, budget: int) -> Seq<char> {
    if byte_len(s) <= budget {
        s
    } else {
        let head_len = budget * 2 / 3;
        let tail_len = budget - head_len;
        let h = head_cut(s, head_len);
        let t = tail_cut(s, byte_len(s) - tail_len);
        s.take(h) + "\n...["@ + decimal((prefix_bytes(s, t) - prefix_bytes(s, h)) as nat)
            + " bytes omitted]...\n"@ + s.skip(t)
    }
}

proof fn lemma_byte_len_concat(a: Seq<char>, b: Seq<char>)
    ensures
        byte_len(a + b) == byte_len(a) + byte_len(b),
    decreases b.len(),
{
    if b.len() == 0 {
        assert(a + b == a);
    } else {
        lemma_byte_len_concat(a, b.drop_last());
        assert((a + b).drop_last() == a + b.drop_last());
        assert((a + b).last() == b.last());
    }
}

proof fn lemma_head_cut_exists(s: Seq<char>, limit: int, k: int)
    requires
        0 <= k <= s.len(),
        prefix_bytes(s, k) <= limit,
    ensures
        is_head_cut(s, limit, head_cut(s, limit)),
    decreases s.len() - k,
{
    if k == s.len() || prefix_bytes(s, k + 1) > limit {
        assert(is_head_cut(s, limit, k));
    } else {
        lemma_head_cut_exists(s, limit, k + 1);
    }
}

proof fn lemma_tail_cut_exists(s: Seq<char>, need: int, k: int)
    requires
        0 <= k <= s.len(),
        prefix_bytes(s, k) >= need,
    ensures
        is_tail_cut(s, need, tail_cut(s, need)),
    decreases k,
{
    if k == 0 || prefix_bytes(s, k - 1) < need {
        assert(is_tail_cut(s, need, k));
    } else {
        lemma_tail_cut_exists(s, need, k - 1);
    }
}

/// A clamped text keeps at most its budget of the original: when `s` is
/// over `budget` bytes, its clamp is a head of `s` of at most two thirds
/// of the budget, the marker, and a tail of `s`; head and tail together
/// take at most `budget` bytes, and the marker counts exactly the bytes
/// between them.
pub proof fn law_clamp_within_budget(s: Seq<char>, budget: int)
    requires
        0 <= budget < byte_len(s),
    ensures
        ({
            let h = head_cut(s, budget * 2 / 3);
            let t = tail_cut(s, byte_len(s) - (budget - budget * 2 / 3));
            &&& 0 <= h <= t <= s.len()
            &&& clamp_spec(s, budget) == s.take(h) + "\n...["@ + decimal(
                (byte_len(s) - byte_len(s.take(h)) - byte_len(s.skip(t))) as nat,
            ) + " bytes omitted]...\n"@ + s.skip(t)
            &&& byte_len(s.take(h)) <= budget * 2 / 3
            &&& byte_len(s.take(h)) + byte_len(s.skip(t)) <= budget
        }),
{
    let head_len = budget * 2 / 3;
    let need = byte_len(s) - (budget - head_len);
    assert(s.take(0) == Seq::<char>::empty());
    lemma_head_cut_exists(s, head_len, 0);
    assert(s.take(s.len() as int) == s);
    lemma_tail_cut_exists(s, need, s.len() as int);
    let h = head_cut(s, head_len);
    let t = tail_cut(s, need);
    if t < h {
        lemma_prefix_mono(s, t, h);
    }
    assert(s == s.take(t) + s.skip(t));
    lemma_byte_len_concat(s.take(t), s.skip(t));
}

/// Cuts `s` to fit `budget` bytes (see `clamp_spec`): the first
/// observation bytes carry the root cause, later ones usually cascade.
pub fn clamp(s: &str, budget: usize) -> (r: String)
    requires
        budget <= usize::MAX / 2,
    ensures
        r@ == clamp_spec(s@, budget as int),
{
    proof {
        lemma_byte_len_is_encoding_len(s@);
    }
    let bytes = s.as_bytes();
    let total = bytes.len();
    assert(total == s.spec_bytes().len());
    assert(s.spec_bytes() == encode_utf8(s@));
    assert(total == encode_utf8(s@).len());
    assert(total == byte_len(s@));
    if total <= budget {
        return String::from_str(s);
    }
    let head_len = budget * 2 / 3;
    let tail_len = budget - head_len;
    let need = total - tail_len;
    let v = chars_vec(s);
    assert(v@.take(0) == Seq::<char>::empty());
    assert(v@.take(v@.len() as int) == v@);
    let mut k: usize = 0;
    let mut pb: usize = 0;
    let mut stop = false;
    while k < v.len() && !stop
        invariant
            v@ == s@,
            k <= v.len(),
            pb == prefix_bytes(v@, k as int),
            pb <= head_len,
            total == byte_len(v@),
            prefix_bytes(v@, v@.len() as int) == total,
            stop ==> k < v.len() && prefix_bytes(v@, k + 1) > head_len,
        decreases v.len() - k, if stop { 0int } else { 1int },
    {
        let w = utf8_width(v[k]);
        proof {
            lemma_prefix_step(v@, k as int);
            lemma_prefix_mono(v@, k + 1, v@.len() as int);
        }
        if pb + w > head_len {
            stop = true;
        } else {
            pb = pb + w;
            k = k + 1;
        }
    }
    let hk = k;
    let hb = pb;
    assert(is_head_cut(v@, head_len as int, hk as int)) by {
        if hk < v.len() {
            lemma_prefix_step(v@, hk as int);
        }
    }
    proof {
        lemma_head_cut_unique(v@, head_len as int, hk as int);
    }
    while pb < need
        invariant
            v@ == s@,
            hk <= k <= v.len(),
            pb == prefix_bytes(v@, k as int),
            total == byte_len(v@),
            need <= total,
            head_len < need,
            prefix_bytes(v@, v@.len() as int) == total,
            hb <= head_len,
            hb == prefix_bytes(v@, hk as int),
            k > hk ==> prefix_bytes(v@, k - 1) < need,
        decreases v.len() - k,
    {
        assert(k < v.len());
        let w = utf8_width(v[k]);
        proof {
            lemma_prefix_step(v@, k as int);
            lemma_prefix_mono(v@, k + 1, v@.len() as int);
        }
        pb = pb + w;
        k = k + 1;
    }
    let tk = k;
    assert(is_tail_cut(v@, need as int, tk as int)) by {
        if tk == hk && tk > 0 {
            lemma_prefix_mono(v@, tk - 1, tk as int);
        }
    }
    proof {
        lemma_tail_cut_unique(v@, need as int, tk as int);
    }
    let mut head: Vec<char> = Vec::new();
    let mut i: usize = 0;
    while i < hk
        invariant
            i <= hk <= v.len(),
            head@ == v@.take(i as int),
        decreases hk - i,
    {
        head.push(v[i]);
        assert(v@.take(i + 1) == v@.take(i as int).push(v@[i as int]));
        i = i + 1;
    }
    let mut tail: Vec<char> = Vec::new();
    let mut j: usize = tk;
    while j < v.len()
        invariant
            tk <= j <= v.len(),
            tail@ == v@.subrange(tk as int, j as int),
        decreases v.len() - j,
    {
        tail.push(v[j]);
        assert(v@.subrange(tk as int, j + 1) == v@.subrange(tk as int, j as int).push(v@[j as int]));
        j = j + 1;
    }
    assert(v@.subrange(tk as int, v@.len() as int) == v@.skip(tk as int));
    let hs = string_of(&head);
    let ts = string_of(&tail);
    let n = decimal_string((pb - hb) as u64);
    let r = concat5(hs.as_str(), "\n...[", n.as_str(), " bytes omitted]...\n", ts.as_str());
    r
}

/// A compile failure's report as the model should read it: escaped
/// newlines and quotes unescaped, then everything from the first rustc
/// error marker (`error[`, else `error:`) on.
pub open spec fn compile_errors_spec(raw: Seq<char>) -> Seq<char> {
    let e = replace_all(replace_all(raw, "\\n"@, "\n"@), "\\\""@, "\""@);
    match first_occurrence(e, "error["@) {
        Some(i) => e.skip(i),
        None => match first_occurrence(e, "error:"@) {
            Some(i) => e.skip(i),
            None => e,
        },
    }
}

/// The rustc errors in a compile failure's report.
pub fn compile_errors(raw: &str) -> (r: String)
    ensures
        r@ == compile_errors_spec(raw@),
{
    let v = chars_vec(raw);
    let p1 = chars_vec("\\n");
    let r1 = chars_vec("\n");
    let p2 = chars_vec("\\\"");
    let r2 = chars_vec("\"");
    proof {
        reveal_strlit("\\n");
        reveal_strlit("\\\"");
    }
    let e1 = replace_str(&v, &p1, &r1);
    let e = replace_str(&e1, &p2, &r2);
    let m1 = chars_vec("error[");
    let m2 = chars_vec("error:");
    let at = match find(&e, &m1) {
        Some(i) => Some(i),
        None => find(&e, &m2),
    };
    match at {
        Some(i) => {
            let mut out: Vec<char> = Vec::new();
            let mut j: usize = i;
            while j < e.len()
                invariant
                    i <= j <= e.len(),
                    out@ == e@.subrange(i as int, j as int),
                decreases e.len() - j,
            {
                out.push(e[j]);
                assert(e@.subrange(i as int, j + 1) == e@.subrange(i as int, j as int).push(e@[j as int]));
                j = j + 1;
            }
            assert(e@.subrange(i as int, e@.len() as int) == e@.skip(i as int));
            string_of(&out)
        },
        None => string_of(&e),
    }
}

/// Whether an observation reports a failure: an unregistered command, an
/// `err` status, an error or panic report, a failed compile, or the
/// repeated-call notice.
pub open spec fn is_failure(o: Seq<char>) -> bool {
    ||| has_infix(o, "was not registered"@)
    ||| has_infix(o, "\"status\":\"err\""@)
    ||| has_prefix(o, "error"@)
    ||| has_prefix(o, "Tool Error"@)
    ||| has_prefix(o, "Tool panicked"@)
    ||| has_prefix(o, "Compilation failed"@)
    ||| has_infix(o, "You already called this exact tool"@)
}

/// Whether the observation `o` reports a failure.
pub fn failure(o: &str) -> (b: bool)
    ensures
        b == is_failure(o@),
{
    let v = chars_vec(o);
    contains(&v, &chars_vec("was not registered")) || contains(&v, &chars_vec("\"status\":\"err\""))
        || starts_with(&v, &chars_vec("error")) || starts_with(&v, &chars_vec("Tool Error"))
        || starts_with(&v, &chars_vec("Tool panicked")) || starts_with(&v, &chars_vec("Compilation failed"))
        || contains(&v, &chars_vec("You already called this exact tool"))
}

/// Whether a tool writes command code (its observation carries rustc
/// output, and the command it wrote is now unverified).
pub open spec fn is_writer(name: Seq<char>) -> bool {
    has_suffix(name, "upsert_command"@) || has_suffix(name, "patch_command_body"@)
}

/// Whether a tool runs code (which verifies what was written).
pub open spec fn is_runner(name: Seq<char>) -> bool {
    has_suffix(name, "invoke_command"@) || has_suffix(name, "evaluate_rust"@) || has_suffix(name, "delete_command"@)
}

fn writer(name: &str) -> (b: bool)
    ensures
        b == is_writer(name@),
{
    let v = chars_vec(name);
    ends_with(&v, &chars_vec("upsert_command")) || ends_with(&v, &chars_vec("patch_command_body"))
}

fn runner(name: &str) -> (b: bool)
    ensures
        b == is_runner(name@),
{
    let v = chars_vec(name);
    ends_with(&v, &chars_vec("invoke_command")) || ends_with(&v, &chars_vec("evaluate_rust")) || ends_with(
        &v,
        &chars_vec("delete_command"),
    )
}

/// What the model sees of a tool's observation: a writer's report cut to
/// its rustc errors within 8000 bytes, anything else within 6000.
pub open spec fn observation_spec(name: Seq<char>, raw: Seq<char>) -> Seq<char> {
    if is_writer(name) {
        clamp_spec(compile_errors_spec(raw), COMPILE_BUDGET as int)
    } else {
        clamp_spec(raw, PLAIN_BUDGET as int)
    }
}

/// What the model sees of the observation `raw` from the tool `name`.
pub fn observation(name: &str, raw: &str) -> (r: String)
    ensures
        r@ == observation_spec(name@, raw@),
{
    if writer(name) {
        let e = compile_errors(raw);
        clamp(e.as_str(), COMPILE_BUDGET)
    } else {
        clamp(raw, PLAIN_BUDGET)
    }
}

/// The answer when the model never settles.
pub open spec fn max_iterations_msg() -> Seq<char> {
    "Error: Maximum tool loop iterations exceeded."@
}

/// The observation for a call identical to the one before it.
pub open spec fn repeat_notice() -> Seq<char> {
    "You already called this exact tool with these exact arguments; the result will not change. Adjust the arguments or take a different approach."@
}

/// The reminder to run what was modified before answering.
pub open spec fn nudge_msg(dirty: Seq<char>) -> Seq<char> {
    "You modified `"@ + dirty
        + "` but never executed it. Follow your workflow: verify with dev-code-invoke_command (or dev-code-evaluate_rust for a test harness) before giving your final answer. If you already verified it another way, state how and answer."@
}

/// The answer when the model keeps repeating one call.
pub open spec fn repeat_abort_msg(name: Seq<char>, times: nat) -> Seq<char> {
    "Aborting: the model repeated the identical call to "@ + name + " "@ + decimal(times)
        + " times despite being told the result will not change. Last real result from this tool is above in the transcript. This usually means the underlying operation is failing and the model has no viable alternative."@
}

/// The answer when one failure keeps coming back.
pub open spec fn failure_abort_msg(times: nat, name: Seq<char>, obs: Seq<char>) -> Seq<char> {
    "Aborting: the same failure occurred "@ + decimal(times) + " times in a row from "@ + name
        + " with no change in outcome: "@ + take_chars(obs, 500)
}

/// The tool loop's state, as the contracts see it.
pub struct LoopState {
    /// Model replies asked for so far.
    pub iterations: nat,
    /// The command written but not yet run (`lib-ctl-cmd`), or empty.
    pub dirty: Seq<char>,
    /// Whether the current unrun modification has had its reminder.
    pub nudged: bool,
    /// The last executed call, `name::arguments`.
    pub last_sig: Seq<char>,
    /// How many times in a row that call was repeated since.
    pub repeat_count: nat,
    /// How many observations in a row failed with the same head.
    pub failures: nat,
    /// The first 120 characters of the last failing observation.
    pub last_err_head: Seq<char>,
    /// The answer, once there is one.
    pub answer: Seq<char>,
    /// Whether the loop has ended.
    pub done: bool,
}

/// The tool loop's state between the model's replies.
pub struct ToolLoop {
    iterations: u64,
    dirty: String,
    nudged: bool,
    last_sig: String,
    repeat_count: u64,
    failures: u64,
    last_err_head: String,
    answer: String,
    done: bool,
}

impl View for ToolLoop {
    type V = LoopState;

    closed spec fn view(&self) -> LoopState {
        LoopState {
            iterations: self.iterations as nat,
            dirty: self.dirty@,
            nudged: self.nudged,
            last_sig: self.last_sig@,
            repeat_count: self.repeat_count as nat,
            failures: self.failures as nat,
            last_err_head: self.last_err_head@,
            answer: self.answer@,
            done: self.done,
        }
    }
}

/// The bounds every reachable state keeps.
pub open spec fn loop_wf(s: LoopState) -> bool {
    s.iterations <= MAX_ITERATIONS && s.repeat_count <= 3 && s.failures <= 3 && (!s.done ==> s.repeat_count < 3
        && s.failures < 3)
}

/// The state a loop starts in.
pub open spec fn initial_loop() -> LoopState {
    LoopState {
        iterations: 0,
        dirty: Seq::empty(),
        nudged: false,
        last_sig: Seq::empty(),
        repeat_count: 0,
        failures: 0,
        last_err_head: Seq::empty(),
        answer: Seq::empty(),
        done: false,
    }
}

/// Starting a round: past the limit the loop ends with the limit's
/// message; otherwise one more reply is asked for.
pub open spec fn round_spec(s: LoopState) -> (LoopState, bool) {
    if s.iterations >= MAX_ITERATIONS {
        (LoopState { answer: max_iterations_msg(), done: true, ..s }, false)
    } else {
        (LoopState { iterations: s.iterations + 1, ..s }, true)
    }
}

/// A backend error ends the loop with its text.
pub open spec fn error_spec(s: LoopState, content: Seq<char>) -> LoopState {
    LoopState { answer: "LLM backend error: "@ + content, done: true, ..s }
}

/// A text reply is the answer, unless a modification was never run and
/// has not been reminded of: then the reminder is sent once instead.
pub open spec fn text_spec(s: LoopState, content: Seq<char>) -> (LoopState, Option<Seq<char>>) {
    if s.dirty.len() > 0 && !s.nudged {
        (LoopState { nudged: true, ..s }, Some(nudge_msg(s.dirty)))
    } else {
        (LoopState { answer: content, done: true, ..s }, None)
    }
}

/// What to do with one tool call.
#[derive(PartialEq, Eq, Structural, Clone, Copy, Debug)]
pub enum CallStep {
    /// Run the tool.
    Execute,
    /// Do not run it: answer with the repeated-call notice.
    Repeat,
    /// The loop ends: the model keeps repeating itself.
    Abort,
}

/// The signature that identifies a call.
pub open spec fn signature(name: Seq<char>, args: Seq<char>) -> Seq<char> {
    name + "::"@ + args
}

/// A call identical to the last executed one is not run again; the third
/// repeat in a row ends the loop.
pub open spec fn call_spec(s: LoopState, name: Seq<char>, args: Seq<char>) -> (LoopState, CallStep) {
    let sig = signature(name, args);
    if sig == s.last_sig {
        let rc = s.repeat_count + 1;
        if rc >= 3 {
            (LoopState { repeat_count: rc, answer: repeat_abort_msg(name, rc + 1), done: true, ..s }, CallStep::Abort)
        } else {
            (LoopState { repeat_count: rc, ..s }, CallStep::Repeat)
        }
    } else {
        (LoopState { repeat_count: 0, last_sig: sig, ..s }, CallStep::Execute)
    }
}

/// The command a writer call names, joined as `lib-ctl-cmd`.
pub open spec fn target_text(target: Option<(String, String, String)>, name: Seq<char>) -> Seq<char> {
    match target {
        Some((l, c, m)) => l@ + "-"@ + c@ + "-"@ + m@,
        None => name,
    }
}

/// Bookkeeping after an observation `obs` (as the model sees it) from
/// the tool `name`: a writer marks its command unrun, a runner clears the
/// mark; failures with one head are counted, and the third ends the loop.
pub open spec fn record_spec(s: LoopState, name: Seq<char>, target: Option<(String, String, String)>, obs: Seq<char>) -> LoopState {
    let dirty1 = if is_writer(name) { target_text(target, name) } else { s.dirty };
    let nudged1 = if is_writer(name) { false } else { s.nudged };
    let dirty2 = if is_runner(name) { Seq::<char>::empty() } else { dirty1 };
    let nudged2 = if is_runner(name) { false } else { nudged1 };
    let head = take_chars(obs, 120);
    let failures = if is_failure(obs) {
        if head == s.last_err_head { s.failures + 1 } else { 1 }
    } else {
        0
    };
    let last_head = if is_failure(obs) { head } else { Seq::<char>::empty() };
    if failures >= 3 {
        LoopState {
            dirty: dirty2,
            nudged: nudged2,
            failures: failures,
            last_err_head: last_head,
            answer: failure_abort_msg(failures, name, obs),
            done: true,
            ..s
        }
    } else {
        LoopState { dirty: dirty2, nudged: nudged2, failures: failures, last_err_head: last_head, ..s }
    }
}

impl ToolLoop {
    /// A loop that has asked nothing yet.
    pub fn new() -> (r: ToolLoop)
        ensures
            r@ == initial_loop(),
            loop_wf(r@),
    {
        ToolLoop {
            iterations: 0,
            dirty: String::new(),
            nudged: false,
            last_sig: String::new(),
            repeat_count: 0,
            failures: 0,
            last_err_head: String::new(),
            answer: String::new(),
            done: false,
        }
    }

    /// Whether the loop has ended.
    pub fn is_done(&self) -> (b: bool)
        ensures
            b == self@.done,
    {
        self.done
    }

    /// The answer (empty until there is one).
    pub fn answer(&self) -> (a: String)
        ensures
            a@ == self@.answer,
    {
        self.answer.clone()
    }

    /// Starts a round; `false` means the limit was reached and the loop
    /// has ended.
    pub fn begin_round(&mut self) -> (go: bool)
        requires
            loop_wf(old(self)@),
            !old(self)@.done,
        ensures
            (final(self)@, go) == round_spec(old(self)@),
            loop_wf(final(self)@),
    {
        if self.iterations >= MAX_ITERATIONS {
            self.answer = String::from_str("Error: Maximum tool loop iterations exceeded.");
            self.done = true;
            false
        } else {
            self.iterations = self.iterations + 1;
            true
        }
    }

    /// The model backend failed with `content`.
    pub fn on_error(&mut self, content: &str)
        requires
            loop_wf(old(self)@),
            !old(self)@.done,
        ensures
            final(self)@ == error_spec(old(self)@, content@),
            loop_wf(final(self)@),
    {
        self.answer = concat("LLM backend error: ", content);
        self.done = true;
    }

    /// The model answered with text; `Some` is a reminder to send back
    /// (with the reply) before asking again.
    pub fn on_text(&mut self, content: &str) -> (nudge: Option<String>)
        requires
            loop_wf(old(self)@),
            !old(self)@.done,
        ensures
            (final(self)@, match nudge {
                Some(m) => Some(m@),
                None => None,
            }) == text_spec(old(self)@, content@),
            loop_wf(final(self)@),
    {
        if self.dirty.as_str().unicode_len() > 0 && !self.nudged {
            self.nudged = true;
            Some(concat3(
                "You modified `",
                self.dirty.as_str(),
                "` but never executed it. Follow your workflow: verify with dev-code-invoke_command (or dev-code-evaluate_rust for a test harness) before giving your final answer. If you already verified it another way, state how and answer.",
            ))
        } else {
            self.answer = String::from_str(content);
            self.done = true;
            None
        }
    }

    /// The model asked to call `name` with `args`.
    pub fn on_call(&mut self, name: &str, args: &str) -> (step: CallStep)
        requires
            loop_wf(old(self)@),
            !old(self)@.done,
        ensures
            (final(self)@, step) == call_spec(old(self)@, name@, args@),
            loop_wf(final(self)@),
    {
        let sig = concat3(name, "::", args);
        if eq_str(sig.as_str(), self.last_sig.as_str()) {
            let rc = self.repeat_count + 1;
            self.repeat_count = rc;
            if rc >= 3 {
                let times = decimal_string(rc + 1);
                let a = concat5(
                    "Aborting: the model repeated the identical call to ",
                    name,
                    " ",
                    times.as_str(),
                    " times despite being told the result will not change. Last real result from this tool is above in the transcript. This usually means the underlying operation is failing and the model has no viable alternative.",
                );
                self.answer = a;
                self.done = true;
                CallStep::Abort
            } else {
                CallStep::Repeat
            }
        } else {
            self.repeat_count = 0;
            self.last_sig = sig;
            CallStep::Execute
        }
    }

    /// The observation for a repeated call.
    pub fn repeat_observation() -> (s: String)
        ensures
            s@ == repeat_notice(),
    {
        String::from_str(
            "You already called this exact tool with these exact arguments; the result will not change. Adjust the arguments or take a different approach.",
        )
    }

    /// Records the observation `raw` from the tool `name` (whose arguments
    /// named the command `target`, where they did) and returns what the
    /// model is shown of it.
    pub fn after_call(&mut self, name: &str, target: Option<(String, String, String)>, raw: &str) -> (obs: String)
        requires
            loop_wf(old(self)@),
            !old(self)@.done,
        ensures
            obs@ == observation_spec(name@, raw@),
            final(self)@ == record_spec(old(self)@, name@, target, obs@),
            loop_wf(final(self)@),
    {
        if writer(name) {
            self.nudged = false;
            self.dirty = match &target {
                Some((l, c, m)) => concat5(l.as_str(), "-", c.as_str(), "-", m.as_str()),
                None => String::from_str(name),
            };
        }
        if runner(name) {
            self.dirty = String::new();
            self.nudged = false;
        }
        let obs = observation(name, raw);
        let head = take_str(obs.as_str(), 120);
        if failure(obs.as_str()) {
            if eq_str(head.as_str(), self.last_err_head.as_str()) {
                self.failures = self.failures + 1;
            } else {
                self.failures = 1;
                self.last_err_head = head;
            }
        } else {
            self.failures = 0;
            self.last_err_head = String::new();
        }
        if self.failures >= 3 {
            let times = decimal_string(self.failures);
            let shown = take_str(obs.as_str(), 500);
            self.answer = concat5(
                concat("Aborting: the same failure occurred ", times.as_str()).as_str(),
                " times in a row from ",
                name,
                " with no change in outcome: ",
                shown.as_str(),
            );
            self.done = true;
        }
        obs
    }
}

/// The model is asked at most `MAX_ITERATIONS` times: a round starts
/// only below the limit, and at the limit the loop ends with the limit's
/// message.
pub proof fn law_round_limit(s: LoopState)
    requires
        loop_wf(s),
    ensures
        round_spec(s).1 ==> round_spec(s).0.iterations == s.iterations + 1 <= MAX_ITERATIONS,
        !round_spec(s).1 <==> s.iterations == MAX_ITERATIONS,
        !round_spec(s).1 ==> round_spec(s).0.done && round_spec(s).0.answer == max_iterations_msg(),
{
}

/// The reminder to run a modification is sent at most once: of two text
/// replies in a row, the second always ends the loop with its text.
pub proof fn law_reminder_at_most_once(s: LoopState, first: Seq<char>, second: Seq<char>)
    requires
        loop_wf(s),
        !s.done,
        text_spec(s, first).1 is Some,
    ensures
        text_spec(text_spec(s, first).0, second).0.done,
        text_spec(text_spec(s, first).0, second).0.answer == second,
        text_spec(text_spec(s, first).0, second).1 is None,
{
}

/// A modification the model never ran is reminded of: after a tool call
/// that writes command code, the next text reply is answered with the
/// reminder naming that command, not taken as the answer.
pub proof fn law_unrun_modification_is_reminded(
    s: LoopState,
    name: Seq<char>,
    target: Option<(String, String, String)>,
    obs: Seq<char>,
    reply: Seq<char>,
)
    requires
        is_writer(name),
        !is_runner(name),
        !record_spec(s, name, target, obs).done,
    ensures
        text_spec(record_spec(s, name, target, obs), reply).1 == Some(nudge_msg(target_text(target, name))),
        !text_spec(record_spec(s, name, target, obs), reply).0.done,
{
    let t = target_text(target, name);
    assert(t.len() > 0) by {
        match target {
            Some((l, c, m)) => {
                assert(t == l@ + "-"@ + c@ + "-"@ + m@);
                assert(("-"@).len() == 1) by {
                    reveal_strlit("-");
                }
            },
            None => {
                if has_suffix(name, "upsert_command"@) {
                    assert(("upsert_command"@).len() == 14) by {
                        reveal_strlit("upsert_command");
                    }
                } else {
                    assert(("patch_command_body"@).len() == 18) by {
                        reveal_strlit("patch_command_body");
                    }
                }
            },
        }
    }
}

/// One failure three times in a row ends the loop: from a clean count,
/// three failing observations with the same first 120 characters leave
/// the loop done with the failure's message.
pub proof fn law_repeated_failure_ends_loop(
    s: LoopState,
    n1: Seq<char>,
    t1: Option<(String, String, String)>,
    o1: Seq<char>,
    n2: Seq<char>,
    t2: Option<(String, String, String)>,
    o2: Seq<char>,
    n3: Seq<char>,
    t3: Option<(String, String, String)>,
    o3: Seq<char>,
)
    requires
        s.failures == 0,
        is_failure(o1),
        is_failure(o2),
        is_failure(o3),
        take_chars(o1, 120) == take_chars(o2, 120),
        take_chars(o2, 120) == take_chars(o3, 120),
    ensures
        record_spec(record_spec(record_spec(s, n1, t1, o1), n2, t2, o2), n3, t3, o3).done,
        record_spec(record_spec(record_spec(s, n1, t1, o1), n2, t2, o2), n3, t3, o3).answer
            == failure_abort_msg(3, n3, o3),
{
}

/// Observations never touch the repeat bookkeeping.
pub proof fn lemma_record_keeps_repeats(s: LoopState, name: Seq<char>, target: Option<(String, String, String)>, obs: Seq<char>)
    ensures
        record_spec(s, name, target, obs).last_sig == s.last_sig,
        record_spec(s, name, target, obs).repeat_count == s.repeat_count,
{
}

/// A call is never run four times in a row: after it ran, two identical
/// calls are answered with the repeat notice, and a third ends the loop
/// (if a failure count has not ended it before).
pub proof fn law_repeated_call_ends_loop(
    s: LoopState,
    name: Seq<char>,
    args: Seq<char>,
    t1: Option<(String, String, String)>,
    o1: Seq<char>,
    t2: Option<(String, String, String)>,
    o2: Seq<char>,
)
    requires
        !s.done,
        s.last_sig == signature(name, args),
        s.repeat_count == 0,
    ensures
        call_spec(s, name, args).1 == CallStep::Repeat,
        ({
            let b = record_spec(call_spec(s, name, args).0, name, t1, o1);
            !b.done ==> call_spec(b, name, args).1 == CallStep::Repeat && ({
                let d = record_spec(call_spec(b, name, args).0, name, t2, o2);
                !d.done ==> call_spec(d, name, args).1 == CallStep::Abort && call_spec(d, name, args).0.done
            })
        }),
{
}

/// How many `-` characters `s` holds.
pub open spec fn dash_count(s: Seq<char>) -> nat
    decreases s.len(),
{
    if s.len() == 0 {
        0
    } else {
        dash_count(s.drop_last()) + if s.last() == '-' { 1nat } else { 0nat }
    }
}

proof fn lemma_dash_count_concat(a: Seq<char>, b: Seq<char>)
    ensures
        dash_count(a + b) == dash_count(a) + dash_count(b),
    decreases b.len(),
{
    if b.len() == 0 {
        assert(a + b == a);
    } else {
        lemma_dash_count_concat(a, b.drop_last());
        assert((a + b).drop_last() == a + b.drop_last());
    }
}

/// A tool's name splits into library, control and command at its two
/// dashes; any other number of dashes is no tool name.
pub fn tool_name_parts(name: &str) -> (r: Option<(String, String, String)>)
    ensures
        r is Some <==> dash_count(name@) == 2,
        r matches Some((l, c, m)) ==> name@ == l@ + "-"@ + c@ + "-"@ + m@ && dash_count(l@) == 0
            && dash_count(c@) == 0 && dash_count(m@) == 0,
{
    proof {
        reveal_strlit("-");
    }
    let v = chars_vec(name);
    let mut parts: Vec<Vec<char>> = Vec::new();
    let mut cur: Vec<char> = Vec::new();
    let mut i: usize = 0;
    let ghost mut seen: Seq<char> = Seq::empty();
    while i < v.len()
        invariant
            i <= v.len(),
            v@ == name@,
            seen == v@.take(i as int),
            dash_count(seen) == parts.len(),
            parts.len() <= 2,
            dash_count(cur@) == 0,
            parts.len() == 0 ==> seen == cur@,
            parts.len() == 1 ==> seen == parts@[0]@ + "-"@ + cur@ && dash_count(parts@[0]@) == 0,
            parts.len() == 2 ==> seen == parts@[0]@ + "-"@ + parts@[1]@ + "-"@ + cur@ && dash_count(parts@[0]@)
                == 0 && dash_count(parts@[1]@) == 0,
        decreases v.len() - i,
    {
        let c = v[i];
        proof {
            assert(v@.take(i + 1) == v@.take(i as int).push(c));
        }
        if c == '-' {
            if parts.len() >= 2 {
                proof {
                    assert(v@.take(i + 1).drop_last() == v@.take(i as int));
                    assert(v@.take(i + 1).last() == '-');
                    assert(dash_count(v@.take(i + 1)) == 3);
                    let rest = v@.skip(i + 1);
                    assert(v@ == v@.take(i + 1) + rest);
                    lemma_dash_count_concat(v@.take(i + 1), rest);
                }
                return None;
            }
            let ghost old_cur = cur@;
            parts.push(cur);
            cur = Vec::new();
            proof {
                let ns = seen.push(c);
                assert(ns.drop_last() == seen);
                seen = ns;
                assert(cur@ == Seq::<char>::empty());
                reveal_strlit("-");
                assert("-"@ == seq!['-']);
                if parts.len() == 1 {
                    assert(parts@[0]@ == old_cur);
                    assert(seen =~= parts@[0]@ + "-"@ + cur@);
                } else {
                    assert(parts@[1]@ == old_cur);
                    assert(seen =~= parts@[0]@ + "-"@ + parts@[1]@ + "-"@ + cur@);
                }
            }
        } else {
            let ghost old_cur = cur@;
            cur.push(c);
            proof {
                let ns = seen.push(c);
                assert(ns.drop_last() == seen);
                assert(cur@.drop_last() == old_cur);
                seen = ns;
                reveal_strlit("-");
                if parts.len() == 1 {
                    assert(seen == parts@[0]@ + "-"@ + cur@);
                } else if parts.len() == 2 {
                    assert(seen == parts@[0]@ + "-"@ + parts@[1]@ + "-"@ + cur@);
                }
            }
        }
        i = i + 1;
    }
    assert(v@.take(v.len() as int) == v@);
    if parts.len() != 2 {
        return None;
    }
    let l = string_of(&parts[0]);
    let m = string_of(&parts[1]);
    let t = string_of(&cur);
    Some((l, m, t))
}

/// What a tool's panic is reported as: a compile failure when the
/// message carries a rustc error, a runtime failure otherwise.
pub open spec fn panic_report_spec(msg: Seq<char>) -> Seq<char> {
    if has_infix(msg, "error["@) || has_prefix(trim_start(msg), "error"@) {
        "Compilation failed. Fix the code and try again:\n"@ + msg
    } else {
        "Tool panicked: '"@ + msg
            + "'. This is a runtime failure in the tool, not a formatting problem. Reconsider the arguments or approach before retrying."@
    }
}

/// What a tool's panic with message `msg` is reported as.
pub fn panic_report(msg: &str) -> (r: String)
    ensures
        r@ == panic_report_spec(msg@),
{
    let v = chars_vec(msg);
    let mut i: usize = 0;
    assert(v@.skip(0) == v@);
    while i < v.len() && is_whitespace(v[i])
        invariant
            i <= v.len(),
            v@ == msg@,
            trim_start(v@) == trim_start(v@.skip(i as int)),
        decreases v.len() - i,
    {
        assert(v@.skip(i as int).drop_first() == v@.skip(i + 1));
        assert(v@.skip(i as int)[0] == v@[i as int]);
        i = i + 1;
    }
    let mut rest: Vec<char> = Vec::new();
    let mut j: usize = i;
    while j < v.len()
        invariant
            i <= j <= v.len(),
            rest@ == v@.subrange(i as int, j as int),
        decreases v.len() - j,
    {
        rest.push(v[j]);
        assert(v@.subrange(i as int, j + 1) == v@.subrange(i as int, j as int).push(v@[j as int]));
        j = j + 1;
    }
    assert(rest@ == v@.skip(i as int));
    assert(trim_start(v@) == rest@) by {
        assert(v@.skip(i as int) == v@.subrange(i as int, v@.len() as int));
        if i < v.len() {
            assert(v@.skip(i as int)[0] == v@[i as int]);
        }
    }
    if contains(&v, &chars_vec("error[")) || starts_with(&rest, &chars_vec("error")) {
        concat("Compilation failed. Fix the code and try again:\n", msg)
    } else {
        concat3(
            "Tool panicked: '",
            msg,
            "'. This is a runtime failure in the tool, not a formatting problem. Reconsider the arguments or approach before retrying.",
        )
    }
}

/// The observation for arguments that are not a JSON object.
pub fn bad_arguments_report(args: &str) -> (r: String)
    ensures
        r@ == "Error: tool arguments were not a valid JSON object: "@ + args@,
{
    concat("Error: tool arguments were not a valid JSON object: ", args)
}

/// The observation for a tool name that is not `library-control-command`.
pub fn bad_tool_name_report(name: &str) -> (r: String)
    ensures
        r@ == "Error: Invalid tool name '"@ + name@ + "'. Must be in the format 'library-control-command'"@,
{
    concat3("Error: Invalid tool name '", name, "'. Must be in the format 'library-control-command'")
}

/// The memory index's heading in the system prompt.
pub open spec fn memory_index_heading() -> Seq<char> {
    "\n\nMEMORY INDEX (recall with dev-code-read_control_facet lib:<lib> ctl:<ctl> facet:\"memory\"):\n"@
}

/// One domain's line in the memory index: `lib.name`, the entry count in
/// parentheses when the memory facet parsed (`count` is negative when it
/// did not), the tags in brackets when there are any, then the
/// description.
pub open spec fn memory_index_line_spec(lib: Seq<char>, name: Seq<char>, count: int, tags: Seq<char>, desc: Seq<char>) -> Seq<char> {
    "- "@ + lib + "."@ + name + (if count >= 0 { " ("@ + int_text(count) + ")"@ } else { Seq::empty() })
        + (if tags.len() > 0 { " ["@ + tags + "]"@ } else { Seq::empty() }) + " - "@ + desc + "\n"@
}

/// One domain's line in the memory index (see `memory_index_line_spec`).
pub fn memory_index_line(lib: &str, name: &str, count: i64, tags: &str, desc: &str) -> (s: String)
    ensures
        s@ == memory_index_line_spec(lib@, name@, count as int, tags@, desc@),
{
    let mut out = concat3("- ", lib, ".");
    out = concat(out.as_str(), name);
    if count >= 0 {
        let n = int_string(count);
        out = concat3(out.as_str(), " (", n.as_str());
        out = concat(out.as_str(), ")");
    }
    if tags.unicode_len() > 0 {
        out = concat3(out.as_str(), " [", tags);
        out = concat(out.as_str(), "]");
    }
    out = concat3(out.as_str(), " - ", desc);
    out = concat(out.as_str(), "\n");
    proof {
        reveal_strlit("");
    }
    assert(out@ =~= memory_index_line_spec(lib@, name@, count as int, tags@, desc@));
    out
}

/// The memory index's heading (see `memory_index_heading`).
pub fn memory_index_header() -> (s: String)
    ensures
        s@ == memory_index_heading(),
{
    String::from_str("\n\nMEMORY INDEX (recall with dev-code-read_control_facet lib:<lib> ctl:<ctl> facet:\"memory\"):\n")
}

/// How many entries a domain's memory facet holds, for the memory index:
/// the length of the JSON array it is, or -1 when it is none.
pub open spec fn memory_count_spec(facet: Seq<char>) -> int {
    match array_items(facet) {
        Some(items) => items.len() as int,
        None => -1,
    }
}

/// How many entries a memory facet holds (see `memory_count_spec`).
pub fn memory_count(facet: &str) -> (n: i64)
    ensures
        memory_count_spec(facet@) <= i64::MAX ==> n == memory_count_spec(facet@),
{
    match json_array(facet) {
        Some(v) => {
            let len = v.len() as u64;
            if len <= 9223372036854775807u64 {
                len as i64
            } else {
                i64::MAX
            }
        },
        None => -1,
    }
}

/// Running a command settles its modification: after an observation
/// from a tool whose name ends in `invoke_command`, `evaluate_rust` or
/// `delete_command` (when it does not end the loop), nothing is pending
/// and no reminder is owed, so the next text reply is the loop's answer.
pub proof fn law_run_clears_modification(
    s: LoopState,
    name: Seq<char>,
    target: Option<(String, String, String)>,
    obs: Seq<char>,
    reply: Seq<char>,
)
    requires
        has_suffix(name, "invoke_command"@) || has_suffix(name, "evaluate_rust"@) || has_suffix(
            name,
            "delete_command"@,
        ),
        !record_spec(s, name, target, obs).done,
    ensures
        record_spec(s, name, target, obs).dirty.len() == 0,
        !record_spec(s, name, target, obs).nudged,
        text_spec(record_spec(s, name, target, obs), reply).1 is None,
        text_spec(record_spec(s, name, target, obs), reply).0.done,
        text_spec(record_spec(s, name, target, obs), reply).0.answer == reply,
{
}

} // verus!
