//! The bench: checks for an experiment between two registered training
//! recipes and for a supervised fine-tuning run, the one-brick diff
//! between two recipes, and how the service's answer is read.
use vstd::prelude::*;
use crate::registry::{first_named, find_named, name_chars_only, normalize, normalized, run_name_ok, ServiceReply};
use crate::text::{chars_vec, concat, concat3, contains, decimal, decimal_string, eq_str, has_infix, joined,
    join_strings, trim, trim_str};

verus! {

/// A training recipe as the bench compares it: its string bricks (empty
/// where the recipe has none) and its step count (0 where it has none).
pub struct Recipe {
    pub base: String,
    pub mix: String,
    pub posture: String,
    pub lr: String,
    pub evals: String,
    pub steps: i64,
}

/// `key` when the two values differ, nothing when they agree.
pub open spec fn moved(a: Seq<char>, b: Seq<char>, key: Seq<char>) -> Seq<Seq<char>> {
    if a != b {
        seq![key]
    } else {
        Seq::empty()
    }
}

/// The bricks that moved from `c` to `v`, in the order base, mix,
/// posture, lr, evals, steps.
pub open spec fn bricks_spec(c: Recipe, v: Recipe) -> Seq<Seq<char>> {
    moved(c.base@, v.base@, "base"@) + moved(c.mix@, v.mix@, "mix"@) + moved(c.posture@, v.posture@, "posture"@)
        + moved(c.lr@, v.lr@, "lr"@) + moved(c.evals@, v.evals@, "evals"@)
        + (if c.steps != v.steps { seq!["steps"@] } else { Seq::<Seq<char>>::empty() })
}

/// The warning an experiment carries for the bricks that moved: none when
/// exactly one moved.
pub open spec fn brick_warning_spec(bricks: Seq<Seq<char>>) -> Seq<char> {
    if bricks.len() == 0 {
        "control and variant are IDENTICAL - this measures run-to-run noise, which is honest but probably not what you meant"@
    } else if bricks.len() == 1 {
        Seq::empty()
    } else {
        decimal(bricks.len()) + " bricks moved ("@ + joined(bricks, ", "@)
            + ") - attribution will be confounded; the report records all of them honestly"@
    }
}

/// The one-brick diff of an experiment.
pub struct BrickDiff {
    /// The bricks that moved.
    pub bricks: Vec<String>,
    /// Whether exactly one moved (or there is no variant).
    pub one_brick: bool,
    /// The warning; empty when there is none.
    pub warning: String,
}

fn push_if_moved(bricks: &mut Vec<String>, a: &str, b: &str, key: &str)
    ensures
        final(bricks)@.map_values(|l: String| l@) == old(bricks)@.map_values(|l: String| l@) + moved(a@, b@, key@),
{
    let ghost before = bricks@.map_values(|l: String| l@);
    if !eq_str(a, b) {
        bricks.push(String::from_str(key));
        assert(bricks@.map_values(|l: String| l@) =~= before + seq![key@]);
    } else {
        assert(before + Seq::<Seq<char>>::empty() =~= before);
    }
}

/// The one-brick diff between the control and the variant: which bricks
/// moved, whether exactly one did, and the warning. With no variant
/// nothing moved and no warning is given.
pub fn brick_diff(c: &Recipe, v: Option<&Recipe>) -> (d: BrickDiff)
    ensures
        match v {
            Some(v) => {
                &&& d.bricks@.map_values(|l: String| l@) == bricks_spec(*c, *v)
                &&& d.one_brick == (bricks_spec(*c, *v).len() == 1)
                &&& d.warning@ == brick_warning_spec(bricks_spec(*c, *v))
            },
            None => d.bricks@.len() == 0 && d.one_brick && d.warning@.len() == 0,
        },
{
    match v {
        None => BrickDiff { bricks: Vec::new(), one_brick: true, warning: String::new() },
        Some(v) => {
            let mut bricks: Vec<String> = Vec::new();
            assert(bricks@.map_values(|l: String| l@) =~= Seq::<Seq<char>>::empty());
            push_if_moved(&mut bricks, c.base.as_str(), v.base.as_str(), "base");
            push_if_moved(&mut bricks, c.mix.as_str(), v.mix.as_str(), "mix");
            push_if_moved(&mut bricks, c.posture.as_str(), v.posture.as_str(), "posture");
            push_if_moved(&mut bricks, c.lr.as_str(), v.lr.as_str(), "lr");
            push_if_moved(&mut bricks, c.evals.as_str(), v.evals.as_str(), "evals");
            let ghost before = bricks@.map_values(|l: String| l@);
            if c.steps != v.steps {
                bricks.push(String::from_str("steps"));
                assert(bricks@.map_values(|l: String| l@) =~= before + seq!["steps"@]);
            } else {
                assert(before + Seq::<Seq<char>>::empty() =~= before);
            }
            let ghost bv = bricks@.map_values(|l: String| l@);
            assert(bv == bricks_spec(*c, *v));
            let n = bricks.len();
            assert(bv.len() == n);
            let warning = if n == 0 {
                String::from_str(
                    "control and variant are IDENTICAL - this measures run-to-run noise, which is honest but probably not what you meant",
                )
            } else if n == 1 {
                String::new()
            } else {
                let count = decimal_string(n as u64);
                let list = join_strings(&bricks, ", ");
                let head = concat3(count.as_str(), " bricks moved (", list.as_str());
                concat(head.as_str(), ") - attribution will be confounded; the report records all of them honestly")
            };
            BrickDiff { bricks, one_brick: n == 1, warning }
        },
    }
}

/// What `experiment` makes of its arguments and the registered recipe
/// names: the experiment's name and the positions of the control and of
/// the variant (none when no variant is named), or the error text.
pub open spec fn experiment_request_spec(name: Seq<char>, control: Seq<char>, variant: Seq<char>, budget_steps: int,
    recipes: Seq<Option<String>>) -> Result<(Seq<char>, int, Option<int>), Seq<char>>
{
    experiment_checks(normalized(name), normalized(control), normalized(variant), budget_steps, recipes)
}

/// The checks of `experiment_request_spec`, given the normalized names.
pub open spec fn experiment_checks(n: Seq<char>, c: Seq<char>, v: Seq<char>, budget_steps: int,
    recipes: Seq<Option<String>>) -> Result<(Seq<char>, int, Option<int>), Seq<char>>
{
    if n.len() == 0 {
        Err("name the experiment"@)
    } else if first_named(recipes, c) is None {
        Err("control recipe '"@ + c + "' is not registered"@)
    } else if v.len() > 0 && first_named(recipes, v) is None {
        Err("variant recipe '"@ + v + "' is not registered"@)
    } else if budget_steps <= 0 {
        Err("budget_steps must be > 0"@)
    } else {
        Ok((n, first_named(recipes, c)->0, if v.len() > 0 { first_named(recipes, v) } else { None }))
    }
}

/// The checks `experiment` makes before it asks the service.
pub fn experiment_request(name: &str, control: &str, variant: &str, budget_steps: i64, recipes: &Vec<Option<String>>)
    -> (r: Result<(String, usize, Option<usize>), String>)
    ensures
        match r {
            Ok((n, c, v)) => experiment_request_spec(name@, control@, variant@, budget_steps as int, recipes@)
                == Ok::<(Seq<char>, int, Option<int>), Seq<char>>((n@, c as int, match v {
                    Some(i) => Some(i as int),
                    None => None,
                })),
            Err(m) => experiment_request_spec(name@, control@, variant@, budget_steps as int, recipes@)
                == Err::<(Seq<char>, int, Option<int>), Seq<char>>(m@),
        },
{
    let n = normalize(name);
    let c = normalize(control);
    let v = normalize(variant);
    experiment_checked(n, c, v, budget_steps, recipes)
}

/// The checks of `experiment_request`, given the normalized names.
pub fn experiment_checked(n: String, c: String, v: String, budget_steps: i64, recipes: &Vec<Option<String>>)
    -> (r: Result<(String, usize, Option<usize>), String>)
    ensures
        match r {
            Ok((n2, ci, vi)) => experiment_checks(n@, c@, v@, budget_steps as int, recipes@)
                == Ok::<(Seq<char>, int, Option<int>), Seq<char>>((n2@, ci as int, match vi {
                    Some(i) => Some(i as int),
                    None => None,
                })),
            Err(m) => experiment_checks(n@, c@, v@, budget_steps as int, recipes@)
                == Err::<(Seq<char>, int, Option<int>), Seq<char>>(m@),
        },
{
    if n.as_str().unicode_len() == 0 {
        return Err(String::from_str("name the experiment"));
    }
    let ci = match find_named(recipes, c.as_str()) {
        Some(i) => i,
        None => {
            return Err(concat3("control recipe '", c.as_str(), "' is not registered"));
        },
    };
    let mut vi: Option<usize> = None;
    if v.as_str().unicode_len() > 0 {
        match find_named(recipes, v.as_str()) {
            Some(i) => {
                vi = Some(i);
            },
            None => {
                return Err(concat3("variant recipe '", v.as_str(), "' is not registered"));
            },
        }
    }
    if budget_steps <= 0 {
        return Err(String::from_str("budget_steps must be > 0"));
    }
    Ok((n, ci, vi))
}

/// How a bench run reads the service's answer to the request that starts
/// it; `raw` is the body as received (empty when it could not be read),
/// and `what` names the run in a refusal.
pub open spec fn run_reply_spec(what: Seq<char>, raw: Seq<char>, r: ServiceReply) -> Result<(), Seq<char>> {
    match r {
        ServiceReply::Failed(e) => if has_infix(e@, "409"@) {
            Err(busy_msg(what))
        } else {
            Err("the service is not answering - bootstrap it first"@)
        },
        ServiceReply::Unreadable(_) => Err("service reply was not JSON: "@ + raw),
        ServiceReply::NotJson => Err("service reply was not JSON: "@ + raw),
        ServiceReply::Json { started, msg, .. } => if started {
            Ok(())
        } else {
            Err(what + " refused: "@ + match msg {
                Some(m) => m@,
                None => raw,
            })
        },
    }
}

/// The refusal a busy service gives, by the kind of run.
pub open spec fn busy_msg(what: Seq<char>) -> Seq<char> {
    if what == "experiment"@ {
        "the service is busy (stub mode, or an experiment already running) - check agent-model-experiments"@
    } else {
        "the service is busy (stub mode, or the time-share is borrowed) - check agent-model-service_status"@
    }
}

/// How a bench run reads the service's answer (see `run_reply_spec`);
/// `what` is `experiment` or `sft_run`.
pub fn run_reply(what: &str, raw: &str, r: &ServiceReply) -> (o: Result<(), String>)
    ensures
        match o {
            Ok(()) => run_reply_spec(what@, raw@, *r) == Ok::<(), Seq<char>>(()),
            Err(m) => run_reply_spec(what@, raw@, *r) == Err::<(), Seq<char>>(m@),
        },
{
    match r {
        ServiceReply::Failed(e) => {
            if contains(&chars_vec(e.as_str()), &chars_vec("409")) {
                if eq_str(what, "experiment") {
                    Err(String::from_str(
                        "the service is busy (stub mode, or an experiment already running) - check agent-model-experiments",
                    ))
                } else {
                    Err(String::from_str(
                        "the service is busy (stub mode, or the time-share is borrowed) - check agent-model-service_status",
                    ))
                }
            } else {
                Err(String::from_str("the service is not answering - bootstrap it first"))
            }
        },
        ServiceReply::Unreadable(_) => Err(concat("service reply was not JSON: ", raw)),
        ServiceReply::NotJson => Err(concat("service reply was not JSON: ", raw)),
        ServiceReply::Json { started, msg, .. } => {
            if *started {
                Ok(())
            } else {
                let m = match msg {
                    Some(m) => m.as_str(),
                    None => raw,
                };
                Err(concat3(what, " refused: ", m))
            }
        },
    }
}

/// What `sft_run` makes of its arguments and the registries: the run's
/// name, the dataset's name and the base, or the error text. `datasets`
/// holds the registered dataset names and `kinds` each one's kind (empty
/// where it has none); `models` the registered model names.
pub open spec fn sft_request_spec(name: Seq<char>, dataset: Seq<char>, base: Seq<char>, rank: int, steps: int,
    datasets: Seq<Option<String>>, kinds: Seq<String>, models: Seq<Option<String>>)
    -> Result<(Seq<char>, Seq<char>, Seq<char>), Seq<char>>
{
    sft_checks(name, normalized(name), normalized(dataset), base, rank, steps, datasets, kinds, models)
}

/// The checks of `sft_request_spec`, given the normalized run name `n`
/// (beside the name as given) and dataset name `d`.
pub open spec fn sft_checks(name: Seq<char>, n: Seq<char>, d: Seq<char>, base: Seq<char>, rank: int, steps: int,
    datasets: Seq<Option<String>>, kinds: Seq<String>, models: Seq<Option<String>>)
    -> Result<(Seq<char>, Seq<char>, Seq<char>), Seq<char>>
{
    let b = trim(base);
    if !run_name_ok(n) {
        Err("name must be lowercase [a-z0-9-_] (got '"@ + name + "')"@)
    } else if first_named(datasets, d) is None {
        Err("dataset '"@ + d + "' is not registered"@)
    } else if kinds[first_named(datasets, d)->0]@ != "sft"@ && kinds[first_named(datasets, d)->0]@ != "persona"@ {
        Err("dataset '"@ + d + "' is kind '"@ + kinds[first_named(datasets, d)->0]@
            + "' - SFT trains on conversation datasets (sft or persona)"@)
    } else if b != "pointer"@ && first_named(models, b) is None {
        Err("base '"@ + b + "' is neither 'pointer' nor a registered model"@)
    } else if rank <= 0 || steps <= 0 {
        Err("rank and steps must be > 0"@)
    } else {
        Ok((n, d, b))
    }
}

/// The checks `sft_run` makes before it asks the service.
pub fn sft_request(name: &str, dataset: &str, base: &str, rank: i64, steps: i64,
    datasets: &Vec<Option<String>>, kinds: &Vec<String>, models: &Vec<Option<String>>)
    -> (r: Result<(String, String, String), String>)
    requires
        kinds.len() == datasets.len(),
    ensures
        match r {
            Ok((n, d, b)) => sft_request_spec(name@, dataset@, base@, rank as int, steps as int, datasets@, kinds@, models@)
                == Ok::<(Seq<char>, Seq<char>, Seq<char>), Seq<char>>((n@, d@, b@)),
            Err(m) => sft_request_spec(name@, dataset@, base@, rank as int, steps as int, datasets@, kinds@, models@)
                == Err::<(Seq<char>, Seq<char>, Seq<char>), Seq<char>>(m@),
        },
{
    let n = normalize(name);
    let d = normalize(dataset);
    sft_checked(name, n, d, base, rank, steps, datasets, kinds, models)
}

/// The checks of `sft_request`, given the normalized run name `n` and
/// dataset name `d`.
pub fn sft_checked(name: &str, n: String, d: String, base: &str, rank: i64, steps: i64,
    datasets: &Vec<Option<String>>, kinds: &Vec<String>, models: &Vec<Option<String>>)
    -> (r: Result<(String, String, String), String>)
    requires
        kinds.len() == datasets.len(),
    ensures
        match r {
            Ok((n2, d2, b)) => sft_checks(name@, n@, d@, base@, rank as int, steps as int, datasets@, kinds@, models@)
                == Ok::<(Seq<char>, Seq<char>, Seq<char>), Seq<char>>((n2@, d2@, b@)),
            Err(m) => sft_checks(name@, n@, d@, base@, rank as int, steps as int, datasets@, kinds@, models@)
                == Err::<(Seq<char>, Seq<char>, Seq<char>), Seq<char>>(m@),
        },
{
    if !(n.as_str().unicode_len() > 0 && name_chars_only(n.as_str())) {
        return Err(concat3("name must be lowercase [a-z0-9-_] (got '", name, "')"));
    }
    let di = match find_named(datasets, d.as_str()) {
        Some(i) => i,
        None => {
            return Err(concat3("dataset '", d.as_str(), "' is not registered"));
        },
    };
    let kind = kinds[di].as_str();
    if !eq_str(kind, "sft") && !eq_str(kind, "persona") {
        let head = concat3("dataset '", d.as_str(), "' is kind '");
        return Err(concat3(head.as_str(), kind, "' - SFT trains on conversation datasets (sft or persona)"));
    }
    let b = trim_str(base);
    if !eq_str(b.as_str(), "pointer") && find_named(models, b.as_str()).is_none() {
        return Err(concat3("base '", b.as_str(), "' is neither 'pointer' nor a registered model"));
    }
    if rank <= 0 || steps <= 0 {
        return Err(String::from_str("rank and steps must be > 0"));
    }
    Ok((n, d, b))
}

/// A brick is listed as moved exactly when the control's and the
/// variant's values for it differ, for each of base, mix, posture, lr,
/// evals and steps; nothing else is listed, and no brick twice.
pub proof fn law_bricks_are_the_differences(c: Recipe, v: Recipe)
    ensures
        bricks_spec(c, v).contains("base"@) <==> c.base@ != v.base@,
        bricks_spec(c, v).contains("mix"@) <==> c.mix@ != v.mix@,
        bricks_spec(c, v).contains("posture"@) <==> c.posture@ != v.posture@,
        bricks_spec(c, v).contains("lr"@) <==> c.lr@ != v.lr@,
        bricks_spec(c, v).contains("evals"@) <==> c.evals@ != v.evals@,
        bricks_spec(c, v).contains("steps"@) <==> c.steps != v.steps,
        bricks_spec(c, v).len() == (if c.base@ != v.base@ { 1int } else { 0 }) + (if c.mix@ != v.mix@ { 1int } else { 0 })
            + (if c.posture@ != v.posture@ { 1int } else { 0 }) + (if c.lr@ != v.lr@ { 1int } else { 0 }) + (if c.evals@
            != v.evals@ { 1int } else { 0 }) + (if c.steps != v.steps { 1int } else { 0 }),
{
    reveal_strlit("base");
    reveal_strlit("mix");
    reveal_strlit("posture");
    reveal_strlit("lr");
    reveal_strlit("evals");
    reveal_strlit("steps");
    let p0 = moved(c.base@, v.base@, "base"@);
    let p1 = moved(c.mix@, v.mix@, "mix"@);
    let p2 = moved(c.posture@, v.posture@, "posture"@);
    let p3 = moved(c.lr@, v.lr@, "lr"@);
    let p4 = moved(c.evals@, v.evals@, "evals"@);
    let p5 = if c.steps != v.steps { seq!["steps"@] } else { Seq::<Seq<char>>::empty() };
    assert(("evals"@)[0] != ("steps"@)[0]);
    assert forall|x: Seq<char>| #[trigger] bricks_spec(c, v).contains(x) <==> (p0.contains(x) || p1.contains(x)
        || p2.contains(x) || p3.contains(x) || p4.contains(x) || p5.contains(x)) by {
        lemma_contains_concat(p0, p1, x);
        lemma_contains_concat(p0 + p1, p2, x);
        lemma_contains_concat(p0 + p1 + p2, p3, x);
        lemma_contains_concat(p0 + p1 + p2 + p3, p4, x);
        lemma_contains_concat(p0 + p1 + p2 + p3 + p4, p5, x);
    }
    assert(("base"@).len() == 4 && ("mix"@).len() == 3 && ("posture"@).len() == 7 && ("lr"@).len() == 2
        && ("evals"@).len() == 5 && ("steps"@).len() == 5);
    assert forall|x: Seq<char>| #[trigger] p0.contains(x) <==> (c.base@ != v.base@ && x == "base"@) by {
        lemma_moved_contains(c.base@, v.base@, "base"@, x);
    }
    assert forall|x: Seq<char>| #[trigger] p1.contains(x) <==> (c.mix@ != v.mix@ && x == "mix"@) by {
        lemma_moved_contains(c.mix@, v.mix@, "mix"@, x);
    }
    assert forall|x: Seq<char>| #[trigger] p2.contains(x) <==> (c.posture@ != v.posture@ && x == "posture"@) by {
        lemma_moved_contains(c.posture@, v.posture@, "posture"@, x);
    }
    assert forall|x: Seq<char>| #[trigger] p3.contains(x) <==> (c.lr@ != v.lr@ && x == "lr"@) by {
        lemma_moved_contains(c.lr@, v.lr@, "lr"@, x);
    }
    assert forall|x: Seq<char>| #[trigger] p4.contains(x) <==> (c.evals@ != v.evals@ && x == "evals"@) by {
        lemma_moved_contains(c.evals@, v.evals@, "evals"@, x);
    }
    assert forall|x: Seq<char>| #[trigger] p5.contains(x) <==> (c.steps != v.steps && x == "steps"@) by {
        if c.steps != v.steps {
            if x == "steps"@ {
                assert(p5[0] == x);
            }
        }
    }
    assert(bricks_spec(c, v).contains("base"@) == (p0.contains("base"@) || p1.contains("base"@) || p2.contains("base"@)
        || p3.contains("base"@) || p4.contains("base"@) || p5.contains("base"@)));
    assert(bricks_spec(c, v).contains("mix"@) == (p0.contains("mix"@) || p1.contains("mix"@) || p2.contains("mix"@)
        || p3.contains("mix"@) || p4.contains("mix"@) || p5.contains("mix"@)));
    assert(bricks_spec(c, v).contains("posture"@) == (p0.contains("posture"@) || p1.contains("posture"@)
        || p2.contains("posture"@) || p3.contains("posture"@) || p4.contains("posture"@) || p5.contains("posture"@)));
    assert(bricks_spec(c, v).contains("lr"@) == (p0.contains("lr"@) || p1.contains("lr"@) || p2.contains("lr"@)
        || p3.contains("lr"@) || p4.contains("lr"@) || p5.contains("lr"@)));
    assert(bricks_spec(c, v).contains("evals"@) == (p0.contains("evals"@) || p1.contains("evals"@) || p2.contains(
        "evals"@) || p3.contains("evals"@) || p4.contains("evals"@) || p5.contains("evals"@)));
    assert(bricks_spec(c, v).contains("steps"@) == (p0.contains("steps"@) || p1.contains("steps"@) || p2.contains(
        "steps"@) || p3.contains("steps"@) || p4.contains("steps"@) || p5.contains("steps"@)));
}

proof fn lemma_moved_contains(a: Seq<char>, b: Seq<char>, key: Seq<char>, x: Seq<char>)
    ensures
        moved(a, b, key).contains(x) <==> (a != b && x == key),
{
    if a != b && x == key {
        assert(moved(a, b, key)[0] == x);
    }
}

proof fn lemma_contains_concat(a: Seq<Seq<char>>, b: Seq<Seq<char>>, x: Seq<char>)
    ensures
        (a + b).contains(x) <==> a.contains(x) || b.contains(x),
{
    if (a + b).contains(x) {
        let i = choose|i: int| 0 <= i < (a + b).len() && (a + b)[i] == x;
        if i < a.len() {
            assert(a[i] == x);
        } else {
            assert(b[i - a.len()] == x);
        }
    }
    if a.contains(x) {
        let i = choose|i: int| 0 <= i < a.len() && a[i] == x;
        assert((a + b)[i] == x);
    }
    if b.contains(x) {
        let i = choose|i: int| 0 <= i < b.len() && b[i] == x;
        assert((a + b)[i + a.len()] == x);
    }
}

} // verus!
