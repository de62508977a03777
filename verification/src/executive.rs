//! The executive: the explicit, killable observe-orient-decide-act loop.
//! Its state is shared under one key; each tick either orients one queued
//! perception or, when the queue is idle and the drive budget allows,
//! acts on the top item of the epistemic work queue. The recall, the work
//! queue and the decay are commands the caller runs; this module decides.
use vstd::prelude::*;
use crate::text::{concat3, eq_str, take_chars, take_str};

verus! {

/// Milliseconds in an hour: the drive is a budget of acts per hour.
pub const HOUR_MS: i64 = 3600000;

/// The most characters of a perception that go into its recall query.
pub const QUERY_CHARS: usize = 240;

/// A claim bound to a perception by its sensor, as far as it is read.
#[derive(Clone)]
pub struct BoundClaim {
    pub claim: Option<String>,
    pub stale: Option<bool>,
}

/// A queued perception, as far as the executive reads it: its kind, time,
/// sensor, the string values of its payload (in the payload's order), and
/// the claims bound to it (`None` when it carries no claim list; an entry
/// that is not an object is `None`).
#[derive(Clone)]
pub struct Perception {
    pub kind: Option<String>,
    pub time: Option<i64>,
    pub sensor: Option<String>,
    pub payload: Vec<String>,
    pub claims: Option<Vec<Option<BoundClaim>>>,
}

/// What orienting on a perception found.
#[derive(Clone)]
pub struct Context {
    pub query: String,
    pub matched: i64,
    pub bound: Option<i64>,
    pub bound_top: Option<String>,
    pub bound_top_stale: Option<bool>,
    pub top_claim: Option<String>,
    pub top_home: Option<String>,
    pub top_stale: Option<bool>,
}

/// The top of the epistemic work queue.
#[derive(Clone)]
pub struct WorkItem {
    pub kind: String,
    pub claim: String,
    pub lib: String,
    pub domain: String,
    pub why: String,
}

/// What the executive did about a work item. Its attribution (kind,
/// claim, home, why, time) is recorded before anything else happens; the
/// action is added once it is known.
#[derive(Clone)]
pub struct Act {
    pub kind: String,
    pub claim: String,
    pub home: String,
    pub why: String,
    pub time: i64,
    pub action: Option<String>,
    pub before: Option<String>,
    pub after: Option<String>,
}

/// The executive's shared state.
#[derive(Clone)]
pub struct ExecState {
    pub running: bool,
    pub phase: String,
    /// Queued perceptions; an entry that is not an object is `None`.
    pub queue: Vec<Option<Perception>>,
    pub perceived_total: i64,
    pub started: i64,
    pub last_kind: String,
    pub last_time: i64,
    /// Acts per hour; 0 turns initiative off.
    pub drive: i64,
    pub next_act_time: i64,
    pub acts_total: i64,
    pub work_depth: i64,
    pub last_context: Option<Context>,
    pub last_act: Option<Act>,
    pub salience_calls: i64,
    pub escalations: i64,
    pub audits: i64,
    pub esc_dropped: i64,
    pub disagreements: i64,
}

/// The state an executive starts from before it ever ran.
pub open spec fn is_initial_state(s: ExecState) -> bool {
    &&& !s.running
    &&& s.phase@ == "stopped"@
    &&& s.queue.len() == 0
    &&& s.perceived_total == 0
    &&& s.started == 0
    &&& s.last_kind@ == Seq::<char>::empty()
    &&& s.last_time == 0
    &&& s.drive == 4
    &&& s.next_act_time == 0
    &&& s.acts_total == 0
    &&& s.work_depth == 0
    &&& s.last_context is None
    &&& s.last_act is None
    &&& s.salience_calls == 0
    &&& s.escalations == 0
    &&& s.audits == 0
    &&& s.esc_dropped == 0
    &&& s.disagreements == 0
}

/// `parts` joined with single spaces.
pub open spec fn join_spaces(parts: Seq<Seq<char>>) -> Seq<char>
    decreases parts.len(),
{
    if parts.len() == 0 {
        Seq::empty()
    } else if parts.len() == 1 {
        parts[0]
    } else {
        join_spaces(parts.drop_last()) + " "@ + parts.last()
    }
}

/// The words a perception contributes to its recall query: its kind,
/// its sensor, then its payload's string values.
pub open spec fn query_parts(p: Perception) -> Seq<Seq<char>> {
    let k = match p.kind {
        Some(k) => seq![k@],
        None => Seq::empty(),
    };
    let s = match p.sensor {
        Some(s) => seq![s@],
        None => Seq::empty(),
    };
    k + s + p.payload@.map_values(|v: String| v@)
}

/// The recall query for a perception: its words joined by spaces, cut
/// to 240 characters.
pub open spec fn query_of(p: Perception) -> Seq<char> {
    take_chars(join_spaces(query_parts(p)), QUERY_CHARS as int)
}

/// Starting: a running loop is left alone; a stopped one runs, idle,
/// started now.
pub open spec fn start_spec(s: ExecState, now: i64, t: ExecState, already: bool) -> bool {
    if s.running {
        t == s && already
    } else {
        !already && t == (ExecState { running: true, phase: t.phase, started: now, ..s }) && t.phase@ == "idle"@
    }
}

/// Stopping: the flag drops; the loop exits at its next tick.
pub open spec fn stop_spec(s: ExecState) -> (ExecState, bool) {
    (ExecState { running: false, ..s }, s.running)
}

/// The loop takes initiative only with nothing queued (perceptions
/// always preempt it), a positive drive, and once the paced time has come.
pub open spec fn initiative_due_spec(s: ExecState, now: i64) -> bool {
    s.queue.len() == 0 && s.drive > 0 && now >= s.next_act_time
}

impl ExecState {
    /// The state an executive starts from before it ever ran: stopped,
    /// nothing queued, drive 4 acts per hour.
    pub fn initial() -> (s: ExecState)
        ensures
            is_initial_state(s),
    {
        ExecState {
            running: false,
            phase: String::from_str("stopped"),
            queue: Vec::new(),
            perceived_total: 0,
            started: 0,
            last_kind: String::new(),
            last_time: 0,
            drive: 4,
            next_act_time: 0,
            acts_total: 0,
            work_depth: 0,
            last_context: None,
            last_act: None,
            salience_calls: 0,
            escalations: 0,
            audits: 0,
            esc_dropped: 0,
            disagreements: 0,
        }
    }

    /// Starts the loop: returns whether it was already running (then
    /// nothing changes); otherwise it is now running, idle, started now.
    pub fn start(&mut self, now: i64) -> (already: bool)
        ensures
            start_spec(*old(self), now, *final(self), already),
    {
        if self.running {
            return true;
        }
        self.running = true;
        self.phase = String::from_str("idle");
        self.started = now;
        false
    }

    /// Stops the loop (it exits at its next tick): returns whether it was
    /// running; nothing else changes.
    pub fn stop(&mut self) -> (was: bool)
        ensures
            (*final(self), was) == stop_spec(*old(self)),
    {
        let was = self.running;
        self.running = false;
        was
    }

    /// Whether the loop takes initiative now.
    pub fn initiative_due(&self, now: i64) -> (due: bool)
        ensures
            due == initiative_due_spec(*self, now),
    {
        self.queue.len() == 0 && self.drive > 0 && now >= self.next_act_time
    }

    /// Paces the next act: the phase is `deciding` and the next act may
    /// come an hour divided by the drive from now.
    pub fn schedule(&mut self, now: i64)
        requires
            old(self).drive > 0,
            now + HOUR_MS / old(self).drive <= i64::MAX,
        ensures
            final(self).next_act_time == now + HOUR_MS / old(self).drive,
            final(self).phase@ == "deciding"@,
            *final(self) == (ExecState { next_act_time: final(self).next_act_time, phase: final(self).phase, ..*old(self) }),
    {
        self.phase = String::from_str("deciding");
        self.next_act_time = now + HOUR_MS / self.drive;
    }

    /// Ends a tick: the phase is `idle` again.
    pub fn settle(&mut self)
        ensures
            final(self).phase@ == "idle"@,
            *final(self) == (ExecState { phase: final(self).phase, ..*old(self) }),
    {
        self.phase = String::from_str("idle");
    }
}

/// The recall query for a perception (see `query_of`).
pub fn perception_query(p: &Perception) -> (q: String)
    ensures
        q@ == query_of(*p),
{
    let mut parts: Vec<String> = Vec::new();
    if let Some(k) = &p.kind {
        parts.push(k.clone());
    }
    if let Some(sn) = &p.sensor {
        parts.push(sn.clone());
    }
    let ghost head = parts@;
    let mut i: usize = 0;
    while i < p.payload.len()
        invariant
            i <= p.payload.len(),
            parts@ == head + p.payload@.take(i as int),
        decreases p.payload.len() - i,
    {
        parts.push(p.payload[i].clone());
        assert(p.payload@.take(i + 1) == p.payload@.take(i as int).push(p.payload@[i as int]));
        i = i + 1;
    }
    assert(p.payload@.take(p.payload.len() as int) == p.payload@);
    let ghost words = parts@.map_values(|v: String| v@);
    assert(words == query_parts(*p)) by {
        assert(words =~= query_parts(*p));
    }
    let mut out = String::new();
    let mut j: usize = 0;
    while j < parts.len()
        invariant
            j <= parts.len(),
            words == parts@.map_values(|v: String| v@),
            out@ == join_spaces(words.take(j as int)),
        decreases parts.len() - j,
    {
        assert(words.take(j + 1).drop_last() == words.take(j as int));
        assert(words.take(j + 1).last() == parts@[j as int]@);
        if j == 0 {
            out = parts[0].clone();
            assert(words.take(1) =~= seq![words[0]]);
        } else {
            out = concat3(out.as_str(), " ", parts[j].as_str());
        }
        j = j + 1;
    }
    assert(words.take(parts.len() as int) == words);
    take_str(out.as_str(), QUERY_CHARS)
}

/// The context orienting starts from: the query, nothing matched yet,
/// and what the sensor bound (how many claims, and the first one's claim
/// and staleness).
pub open spec fn bound_context(p: Perception, c: Context) -> bool {
    &&& c.query@ == query_of(p)
    &&& c.matched == 0
    &&& c.top_claim is None && c.top_home is None && c.top_stale is None
    &&& match p.claims {
        None => c.bound is None && c.bound_top is None && c.bound_top_stale is None,
        Some(bc) => c.bound == Some(bc.len() as i64) && if bc.len() > 0 && bc[0] is Some {
            c.bound_top == bc[0]->0.claim && c.bound_top_stale == bc[0]->0.stale
        } else {
            c.bound_top is None && c.bound_top_stale is None
        },
    }
}

/// Starts orienting on a perception.
pub fn orient(p: &Perception) -> (c: Context)
    ensures
        bound_context(*p, c),
{
    let q = perception_query(p);
    let mut c = Context {
        query: q,
        matched: 0,
        bound: None,
        bound_top: None,
        bound_top_stale: None,
        top_claim: None,
        top_home: None,
        top_stale: None,
    };
    if let Some(bc) = &p.claims {
        c.bound = Some(bc.len() as i64);
        if bc.len() > 0 {
            if let Some(b0) = &bc[0] {
                c.bound_top = b0.claim.clone();
                c.bound_top_stale = b0.stale;
            }
        }
    }
    c
}

/// The top claim recall returned.
#[derive(Clone)]
pub struct RecalledClaim {
    pub claim: Option<String>,
    pub home: Option<String>,
    pub stale: Option<bool>,
}

/// What the fuzzy recall answered: its status, how many claims matched,
/// and the first of them.
pub struct RecallAnswer {
    pub status: Option<String>,
    pub matched: i64,
    pub top: Option<RecalledClaim>,
}

/// Whether a recall answered `ok`.
pub open spec fn recall_ok(r: RecallAnswer) -> bool {
    r.status matches Some(st) && st@ == "ok"@
}

/// A context with an `ok` recall's findings added (how many matched, and
/// the first claim's text, home and staleness); any other answer leaves
/// it as it was.
pub open spec fn recall_context(c: Context, r: RecallAnswer) -> Context {
    if recall_ok(r) {
        Context {
            matched: r.matched,
            top_claim: match r.top { Some(t) => t.claim, None => c.top_claim },
            top_home: match r.top { Some(t) => t.home, None => c.top_home },
            top_stale: match r.top { Some(t) => t.stale, None => c.top_stale },
            ..c
        }
    } else {
        c
    }
}

/// Adds an `ok` recall's findings to a context; any other answer leaves
/// it as it was.
pub fn with_recall(c: Context, r: &RecallAnswer) -> (o: Context)
    ensures
        o == recall_context(c, *r),
{
    let ok = match &r.status {
        Some(st) => eq_str(st.as_str(), "ok"),
        None => false,
    };
    if !ok {
        return c;
    }
    let mut o = c;
    o.matched = r.matched;
    if let Some(t) = &r.top {
        o.top_claim = t.claim.clone();
        o.top_home = t.home.clone();
        o.top_stale = t.stale;
    }
    o
}

/// What decay answered, as far as the executive reads it.
pub struct DecayAnswer {
    pub action: Option<String>,
    pub before: Option<String>,
    pub after: Option<String>,
}

/// Taking the head of the queue: it leaves the queue either way; a
/// perception (an object) counts as perceived, its kind and time are the
/// last seen, and `ctx` is kept as the last context.
pub open spec fn observe_spec(s: ExecState, ctx: Option<Context>, t: ExecState) -> bool {
    &&& t.queue@ == s.queue@.drop_first()
    &&& match s.queue@[0] {
        Some(p) => {
            &&& t == (ExecState {
                queue: t.queue,
                phase: t.phase,
                perceived_total: (s.perceived_total + 1) as i64,
                last_kind: match p.kind { Some(k) => k, None => s.last_kind },
                last_time: match p.time { Some(x) => x, None => s.last_time },
                last_context: ctx,
                ..s
            })
            &&& t.phase@ == "orienting"@
        },
        None => t == (ExecState { queue: t.queue, phase: t.phase, ..s }) && t.phase@ == "observing"@,
    }
}

/// `a` is the attribution of an act on `item` at `now`: its kind, claim,
/// `lib.domain` home, why and time, with nothing done yet.
pub open spec fn is_attribution(a: Act, item: WorkItem, now: i64) -> bool {
    &&& a.kind == item.kind && a.claim == item.claim && a.why == item.why && a.time == now
    &&& a.home@ == item.lib@ + "."@ + item.domain@
    &&& a.action is None && a.before is None && a.after is None
}

/// Whether an act's action is `act_failed`.
pub open spec fn is_failed_action(x: Option<String>) -> bool {
    x matches Some(t) && t@ == "act_failed"@
}

/// `o` is the act `a` completed by decay's answer `d`: decay's action
/// (`act_failed` when it named none or did not answer), and the claim's
/// text before and after where decay gave them.
pub open spec fn is_decayed(a: Act, d: Option<DecayAnswer>, o: Act) -> bool {
    &&& o == (Act { action: o.action, before: o.before, after: o.after, ..a })
    &&& match d {
        Some(x) => {
            &&& o.before == match x.before { Some(b) => Some(b), None => a.before }
            &&& o.after == match x.after { Some(b) => Some(b), None => a.after }
            &&& match x.action {
                Some(t) => o.action == Some(t),
                None => is_failed_action(o.action),
            }
        },
        None => o.before == a.before && o.after == a.after && is_failed_action(o.action),
    }
}

/// Completes an act with decay's answer (see `is_decayed`).
pub fn with_decay(act: Act, d: &Option<DecayAnswer>) -> (o: Act)
    ensures
        is_decayed(act, *d, o),
{
    let mut o = act;
    o.action = Some(String::from_str("act_failed"));
    if let Some(a) = d {
        if let Some(x) = &a.action {
            o.action = Some(x.clone());
        }
        if let Some(x) = &a.before {
            o.before = Some(x.clone());
        }
        if let Some(x) = &a.after {
            o.after = Some(x.clone());
        }
    }
    o
}

/// What one tick asks its caller to do next.
pub enum TickAction {
    /// Run recall on this context's query; hand its answer to
    /// `after_recall`.
    Recall(Context),
    /// Run the epistemic work queue; hand its answer to `after_work`.
    Work,
    /// Run decay on this item's claim; hand its answer to `after_decay`.
    Decay(WorkItem),
    /// The tick is over.
    Done,
}

/// The start of a tick. A queued perception is oriented first (recall
/// comes next); a queued entry that is no perception just leaves the
/// queue. With nothing queued, initiative, when due, paces the next act
/// and asks the work queue; otherwise the loop rests, idle.
pub open spec fn begin_tick_spec(s: ExecState, now: i64, t: ExecState, r: TickAction) -> bool {
    if s.queue.len() > 0 {
        match s.queue@[0] {
            Some(p) => t == s && (r matches TickAction::Recall(c) && bound_context(p, c)),
            None => r is Done && observe_spec(s, None, t),
        }
    } else if initiative_due_spec(s, now) {
        &&& r is Work
        &&& t == (ExecState { next_act_time: (now + HOUR_MS / s.drive) as i64, phase: t.phase, ..s })
        &&& t.phase@ == "deciding"@
    } else {
        r is Done && t == (ExecState { phase: t.phase, ..s }) && t.phase@ == "idle"@
    }
}

/// After the work queue answered (`None`: it did not): its depth is
/// recorded where given; its top item's attribution is recorded as the
/// last act before anything else; a stale claim is then decayed, any
/// other item is surfaced (the act is done, and counted). Without an item
/// the tick ends, idle.
pub open spec fn after_work_spec(
    s: ExecState,
    now: i64,
    answer: Option<(Option<i64>, Option<WorkItem>)>,
    t: ExecState,
    r: TickAction,
) -> bool {
    match answer {
        None => r is Done && t == (ExecState { phase: t.phase, ..s }) && t.phase@ == "idle"@,
        Some((total, top)) => {
            let depth = match total {
                Some(d) => d,
                None => s.work_depth,
            };
            match top {
                None => r is Done && t == (ExecState { work_depth: depth, phase: t.phase, ..s }) && t.phase@
                    == "idle"@,
                Some(item) => if item.kind@ == "stale"@ {
                    &&& r == TickAction::Decay(item)
                    &&& t == (ExecState { work_depth: depth, phase: t.phase, last_act: t.last_act, ..s })
                    &&& t.phase@ == "acting"@
                    &&& t.last_act matches Some(a) && is_attribution(a, item, now)
                } else {
                    &&& r is Done
                    &&& t == (ExecState {
                        work_depth: depth,
                        phase: t.phase,
                        last_act: t.last_act,
                        acts_total: (s.acts_total + 1) as i64,
                        ..s
                    })
                    &&& t.phase@ == "idle"@
                    &&& t.last_act matches Some(a) && is_attribution(Act { action: None, ..a }, item, now)
                        && (a.action matches Some(x) && x@ == "surfaced"@)
                },
            }
        },
    }
}

impl ExecState {
    /// Takes the head of the queue (see `observe_spec`).
    pub fn observe(&mut self, ctx: Option<Context>)
        requires
            old(self).queue.len() > 0,
            old(self).queue@[0] is Some ==> old(self).perceived_total < i64::MAX,
        ensures
            observe_spec(*old(self), ctx, *final(self)),
    {
        self.phase = String::from_str("observing");
        let head = self.queue.remove(0);
        if let Some(p) = head {
            self.perceived_total = self.perceived_total + 1;
            if let Some(k) = p.kind {
                self.last_kind = k;
            }
            if let Some(t) = p.time {
                self.last_time = t;
            }
            self.phase = String::from_str("orienting");
            self.last_context = ctx;
        }
    }

    /// Plans the act on the top work item: its attribution (kind, claim,
    /// `lib.domain` home, why, time) is recorded as the last act first,
    /// before anything is done. Only a stale claim is acted on (by decay,
    /// the phase is then `acting`); review and unpromoted items are only
    /// surfaced.
    pub fn plan_act(&mut self, item: &WorkItem, now: i64) -> (r: (Act, bool))
        ensures
            r.1 == (item.kind@ == "stale"@),
            is_attribution(r.0, *item, now),
            final(self).last_act == Some(r.0),
            *final(self) == (ExecState { phase: final(self).phase, last_act: final(self).last_act, ..*old(self) }),
            r.1 ==> final(self).phase@ == "acting"@,
            !r.1 ==> final(self).phase == old(self).phase,
    {
        let stale = eq_str(item.kind.as_str(), "stale");
        if stale {
            self.phase = String::from_str("acting");
        }
        let home = concat3(item.lib.as_str(), ".", item.domain.as_str());
        let act = Act {
            kind: item.kind.clone(),
            claim: item.claim.clone(),
            home: home.clone(),
            why: item.why.clone(),
            time: now,
            action: None,
            before: None,
            after: None,
        };
        self.last_act = Some(
            Act {
                kind: item.kind.clone(),
                claim: item.claim.clone(),
                home: home,
                why: item.why.clone(),
                time: now,
                action: None,
                before: None,
                after: None,
            },
        );
        (act, stale)
    }

    /// Begins a tick (see `begin_tick_spec`).
    pub fn begin_tick(&mut self, now: i64) -> (r: TickAction)
        requires
            initiative_due_spec(*old(self), now) ==> now + HOUR_MS / old(self).drive <= i64::MAX,
        ensures
            begin_tick_spec(*old(self), now, *final(self), r),
    {
        if self.queue.len() > 0 {
            if let Some(p) = &self.queue[0] {
                let c = orient(p);
                return TickAction::Recall(c);
            }
            self.observe(None);
            return TickAction::Done;
        }
        if self.initiative_due(now) {
            self.schedule(now);
            TickAction::Work
        } else {
            self.settle();
            TickAction::Done
        }
    }

    /// After recall answered for the queued perception (`None`: it did
    /// not): the perception is observed with the context `ctx` completed
    /// by an `ok` answer, and the tick ends.
    pub fn after_recall(&mut self, ctx: Context, answer: Option<RecallAnswer>) -> (r: TickAction)
        requires
            old(self).queue.len() > 0,
            old(self).queue@[0] is Some ==> old(self).perceived_total < i64::MAX,
        ensures
            r is Done,
            observe_spec(
                *old(self),
                Some(
                    match answer {
                        Some(a) => recall_context(ctx, a),
                        None => ctx,
                    },
                ),
                *final(self),
            ),
    {
        let c = match &answer {
            Some(a) => with_recall(ctx, a),
            None => ctx,
        };
        self.observe(Some(c));
        TickAction::Done
    }

    /// After the work queue answered (see `after_work_spec`).
    pub fn after_work(&mut self, now: i64, answer: Option<(Option<i64>, Option<WorkItem>)>) -> (r: TickAction)
        requires
            (answer matches Some((_, Some(_)))) ==> old(self).acts_total < i64::MAX,
        ensures
            after_work_spec(*old(self), now, answer, *final(self), r),
    {
        match answer {
            None => {
                self.settle();
                TickAction::Done
            },
            Some((total, top)) => {
                if let Some(d) = total {
                    self.work_depth = d;
                }
                match top {
                    None => {
                        self.settle();
                        TickAction::Done
                    },
                    Some(item) => {
                        let (act, stale) = self.plan_act(&item, now);
                        if stale {
                            TickAction::Decay(item)
                        } else {
                            self.last_act = Some(Act { action: Some(String::from_str("surfaced")), ..act });
                            self.acts_total = self.acts_total + 1;
                            self.settle();
                            TickAction::Done
                        }
                    },
                }
            },
        }
    }

    /// After decay answered for the planned act (`None`: it did not): the
    /// recorded act is completed by the answer (see `is_decayed`), counted,
    /// and the tick ends, idle.
    pub fn after_decay(&mut self, answer: Option<DecayAnswer>) -> (r: TickAction)
        requires
            old(self).last_act is Some,
            old(self).acts_total < i64::MAX,
        ensures
            r is Done,
            *final(self) == (ExecState {
                last_act: final(self).last_act,
                acts_total: (old(self).acts_total + 1) as i64,
                phase: final(self).phase,
                ..*old(self)
            }),
            final(self).phase@ == "idle"@,
            match old(self).last_act {
                Some(a) => final(self).last_act matches Some(o) && is_decayed(a, answer, o),
                None => false,
            },
    {
        let planned = self.last_act.take();
        match planned {
            Some(a) => {
                let done = with_decay(a, &answer);
                self.last_act = Some(done);
            },
            None => {},
        }
        self.acts_total = self.acts_total + 1;
        self.settle();
        TickAction::Done
    }
}

/// The check at the top of every tick: a loop whose `running` flag is
/// cleared ends, with the phase `stopped`; a running loop goes on,
/// unchanged.
pub open spec fn loop_check_spec(s: ExecState, t: ExecState, go: bool) -> bool {
    if s.running {
        go && t == s
    } else {
        !go && t == (ExecState { phase: t.phase, ..s }) && t.phase@ == "stopped"@
    }
}

impl ExecState {
    /// Whether the loop goes on (see `loop_check_spec`).
    pub fn keep_running(&mut self) -> (go: bool)
        ensures
            loop_check_spec(*old(self), *final(self), go),
    {
        if self.running {
            true
        } else {
            self.phase = String::from_str("stopped");
            false
        }
    }
}

/// Stopping ends the loop: after a stop, the loop's next check ends it
/// with the phase `stopped`, and a second stop reports the loop was not
/// running.
pub proof fn law_stop_ends_loop(s: ExecState, t: ExecState, go: bool)
    requires
        loop_check_spec(stop_spec(s).0, t, go),
    ensures
        !go,
        !t.running,
        t.phase@ == "stopped"@,
        !stop_spec(stop_spec(s).0).1,
{
}

/// How a tick takes initiative: queued perceptions are always handled
/// first; the work queue is asked exactly when nothing is queued, the
/// drive is positive and the paced time has come, and the next act is
/// then paced an hour divided by the drive from now; a drive of zero
/// never asks it.
pub proof fn law_tick_initiative(s: ExecState, now: i64, t: ExecState, r: TickAction)
    requires
        begin_tick_spec(s, now, t, r),
        initiative_due_spec(s, now) ==> now + HOUR_MS / s.drive <= i64::MAX,
    ensures
        (r is Work) <==> (s.queue.len() == 0 && s.drive > 0 && now >= s.next_act_time),
        s.queue.len() > 0 ==> !(r is Work) && t.next_act_time == s.next_act_time,
        s.drive <= 0 ==> !(r is Work),
        r is Work ==> t.next_act_time == now + HOUR_MS / s.drive && t.phase@ == "deciding"@,
{
}

/// Only a stale claim is acted on: the work queue's top item goes to
/// decay exactly when its kind is `stale`; any other item is surfaced,
/// and the act is counted.
pub proof fn law_only_stale_is_acted_on(
    s: ExecState,
    now: i64,
    answer: Option<(Option<i64>, Option<WorkItem>)>,
    t: ExecState,
    r: TickAction,
)
    requires
        after_work_spec(s, now, answer, t, r),
        answer matches Some((_, Some(_))),
        s.acts_total < i64::MAX,
    ensures
        match answer {
            Some((_, Some(item))) => {
                &&& (r is Decay) <==> (item.kind@ == "stale"@)
                &&& item.kind@ != "stale"@ ==> (t.last_act matches Some(a) && (a.action matches Some(x) && x@
                    == "surfaced"@)) && t.acts_total == s.acts_total + 1
            },
            _ => true,
        },
{
}

/// Every act records its attribution before anything is done: when a tick
/// hands a stale claim to decay, the last act is already that claim's
/// attribution, and decay's answer only completes it.
pub proof fn law_attribution_before_act(
    s: ExecState,
    now: i64,
    answer: Option<(Option<i64>, Option<WorkItem>)>,
    t: ExecState,
    r: TickAction,
    d: Option<DecayAnswer>,
    u: ExecState,
)
    requires
        after_work_spec(s, now, answer, t, r),
        r is Decay,
        t.acts_total < i64::MAX,
        u == (ExecState { last_act: u.last_act, acts_total: (t.acts_total + 1) as i64, phase: u.phase, ..t }),
        match t.last_act {
            Some(a) => u.last_act matches Some(o) && is_decayed(a, d, o),
            None => false,
        },
    ensures
        answer matches Some((_, Some(item))) && item.kind@ == "stale"@ && r == TickAction::Decay(item)
            && (t.last_act matches Some(a) && is_attribution(a, item, now)) && (u.last_act matches Some(o)
            && is_attribution(Act { action: None, before: None, after: None, ..o }, item, now)),
        u.acts_total == s.acts_total + 1,
{
}

/// What `status` reports of the executive beyond its fields: how long
/// until initiative may act again (never negative).
pub fn next_act_in_ms(s: &ExecState, now: i64) -> (ms: i64)
    requires
        s.next_act_time > now ==> s.next_act_time - now <= i64::MAX,
    ensures
        ms == if s.next_act_time > now { s.next_act_time - now } else { 0 },
        ms >= 0,
{
    if s.next_act_time > now {
        s.next_act_time - now
    } else {
        0
    }
}

/// Stopping always stops: after a start and a stop the loop is not
/// running, whatever it was before.
pub proof fn law_stop_after_start(s: ExecState, now: i64, started: ExecState, already: bool)
    requires
        start_spec(s, now, started, already),
    ensures
        !stop_spec(started).0.running,
        stop_spec(started).1,
{
}

/// Starting is idempotent: a second start reports the loop already
/// running and changes nothing.
pub proof fn law_start_idempotent(s: ExecState, now: i64, later: i64, t1: ExecState, a1: bool, t2: ExecState, a2: bool)
    requires
        start_spec(s, now, t1, a1),
        start_spec(t1, later, t2, a2),
    ensures
        a2,
        t2 == t1,
{
}

/// Perceptions always preempt initiative: with anything queued the loop
/// never takes initiative.
pub proof fn law_perceptions_preempt(s: ExecState, now: i64)
    requires
        s.queue.len() > 0,
    ensures
        !initiative_due_spec(s, now),
{
}

/// Initiative is paced by the drive: after an act is scheduled at `now`,
/// no further initiative is due before an hour divided by the drive.
pub proof fn law_initiative_paced(s: ExecState, now: i64, later: i64)
    requires
        s.drive > 0,
        now + HOUR_MS / s.drive <= i64::MAX,
        later < now + HOUR_MS / s.drive,
    ensures
        !initiative_due_spec(ExecState { next_act_time: (now + HOUR_MS / s.drive) as i64, ..s }, later),
{
}

/// A drive of zero turns initiative off.
pub proof fn law_zero_drive_no_initiative(s: ExecState, now: i64)
    requires
        s.drive <= 0,
    ensures
        !initiative_due_spec(s, now),
{
}

/// Orienting keeps what recall found: for an `ok` answer, the context
/// records how many claims matched and, when a claim came back, that
/// claim's text, home and staleness.
pub proof fn law_recall_keeps_top_claim(c: Context, r: RecallAnswer)
    requires
        r.status matches Some(st) && st@ == "ok"@,
    ensures
        recall_context(c, r).matched == r.matched,
        recall_context(c, r).query == c.query,
        match r.top {
            Some(t) => {
                &&& recall_context(c, r).top_claim == t.claim
                &&& recall_context(c, r).top_home == t.home
                &&& recall_context(c, r).top_stale == t.stale
            },
            None => {
                &&& recall_context(c, r).top_claim == c.top_claim
                &&& recall_context(c, r).top_home == c.top_home
                &&& recall_context(c, r).top_stale == c.top_stale
            },
        },
{
}

} // verus!
