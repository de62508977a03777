use newbound_agent::curriculum::exported_claim;
use newbound_agent::llm::core_prompt;
use newbound_agent::settings::setting_checked;
use newbound_agent::registry::{dataset_measures, model_footprint, purge_outcome, Backend};
use newbound_agent::service::{plain_reply, salience_reply, CallEnd};
use newbound_agent::archivist::{
    bank_summary, claim_listing, clip_turn, connect_prompt, connect_subject, file_outcome, frontier_failure,
    memory_source, notion_detail, promote_label, promotion_target, push_capped, subject_target, too_few,
    used_claims, wonder_merge, wonder_prompt, FileOutcome, PromoteTally,
};
use newbound_agent::bench::{brick_diff, experiment_checked, experiment_request, run_reply, sft_checked, sft_request, Recipe};
use newbound_agent::command::missing_parameter;
use newbound_agent::curriculum::{
    batch_content, claim_line, existing_hashes, flatten_line, fnv_line, home_of, is_pair_line, salience_line,
    stream_fresh, trace_line,
};
use newbound_agent::executive::{next_act_in_ms, orient, perception_query, with_decay, Act, BoundClaim, DecayAnswer, ExecState, Perception, RecallAnswer, TickAction, WorkItem};
use newbound_agent::inspect::{count_rows, hash_verdict, is_data_file, peek_rows, peek_wanted};
use newbound_agent::json::Json;
use newbound_agent::llm::{ask_answer, ask_messages, describe_prompt, ParamInfo};
use newbound_agent::messages::{content_id, message_id, no_message, put_plan, OccurrenceStep, put_checked, put_request, recent_picked, recent_rows};
use newbound_agent::registry::ServiceReply;
use newbound_agent::sensor::{edge_key, gpu_metric, sweep, worsening};
use newbound_agent::service::{
    bootstrap_ok, endpoint, env_after_install, env_install_command, env_stage, launch_command, launch_outcome,
    log_tail, salience_base, setting_or, unreachable_msg, EnvStage,
};
use newbound_agent::toolloop::{clamp, compile_errors, failure, memory_index_header, memory_index_line, observation, tool_name_parts, CallStep, ToolLoop};
use newbound_agent::settings::rewrite_setting;

fn s(v: &str) -> String {
    v.to_string()
}

fn recipe(base: &str, mix: &str, steps: i64) -> Recipe {
    Recipe { base: s(base), mix: s(mix), posture: s("p"), lr: s("1e-4"), evals: s(""), steps }
}

#[test]
fn curriculum_sample_lines() {
    assert_eq!(salience_line("{\"a\":1}"), "{\"kind\": \"salience_pair\", \"row\": {\"a\":1}}");
    assert_eq!(home_of("kb", "dev"), "kb.dev");
    assert_eq!(trace_line("kb.\"x\"", "{}"), "{\"kind\": \"curation_trace\", \"home\": \"kb.\\\"x\\\"\", \"trace\": {}}");
    assert_eq!(claim_line("kb.dev", "{\"claim\":\"c\"}"), "{\"kind\": \"claim\", \"home\": \"kb.dev\", \"entry\": {\"claim\":\"c\"}}");
    assert!(is_pair_line(salience_line("{}").as_str()));
    assert!(!is_pair_line(claim_line("h", "{}").as_str()));
    assert_eq!(batch_content(&vec![s("a"), s("b")]), "a\nb\n");
    assert_eq!(batch_content(&Vec::new()), "\n");
    assert_eq!(flatten_line("a\nb"), "a b");
    assert_eq!(fnv_line("a"), 0xaf63dc4c8601ec8c);
}

#[test]
fn stream_sweep_dedupes_and_is_idempotent() {
    let lines = vec![salience_line("{\"r\":1}"), claim_line("kb.x", "{\"claim\":\"c\"}"), salience_line("{\"r\":1}"),
        salience_line("{\"r\":\n2}")];
    let (fresh, total) = stream_fresh("", &lines, true);
    assert_eq!(fresh, vec![salience_line("{\"r\":1}"), salience_line("{\"r\": 2}")]);
    assert_eq!(total, 2);
    let mut file = String::new();
    for l in &fresh {
        file.push_str(l);
        file.push('\n');
    }
    let (again, total2) = stream_fresh(file.as_str(), &lines, true);
    assert!(again.is_empty());
    assert_eq!(total2, 2);
    let (mem, n_mem) = stream_fresh(file.as_str(), &lines, false);
    assert_eq!(mem, vec![claim_line("kb.x", "{\"claim\":\"c\"}")]);
    assert_eq!(n_mem, 3);
    assert_eq!(existing_hashes("a\n  \nb\na\n").len(), 2);
}

#[test]
fn bench_brick_diff() {
    let c = recipe("pointer", "a=1", 100);
    let d = brick_diff(&c, Some(&recipe("pointer", "a=2", 100)));
    assert_eq!(d.bricks, vec![s("mix")]);
    assert!(d.one_brick);
    assert_eq!(d.warning, "");
    let same = brick_diff(&c, Some(&recipe("pointer", "a=1", 100)));
    assert!(same.bricks.is_empty() && !same.one_brick);
    assert_eq!(same.warning, "control and variant are IDENTICAL - this measures run-to-run noise, which is honest but probably not what you meant");
    let two = brick_diff(&c, Some(&recipe("m", "a=1", 5)));
    assert_eq!(two.bricks, vec![s("base"), s("steps")]);
    assert_eq!(two.warning, "2 bricks moved (base, steps) - attribution will be confounded; the report records all of them honestly");
    let none = brick_diff(&c, None);
    assert!(none.bricks.is_empty() && none.one_brick && none.warning.is_empty());
}

#[test]
fn bench_requests_and_replies() {
    let recipes = vec![Some(s("ctl")), None, Some(s("var"))];
    assert_eq!(experiment_request(" Exp ", "CTL", "var", 10, &recipes).unwrap(), (s("exp"), 0, Some(2)));
    assert_eq!(experiment_request("e", "ctl", "", 10, &recipes).unwrap(), (s("e"), 0, None));
    assert_eq!(experiment_request(" ", "ctl", "", 10, &recipes).err().unwrap(), "name the experiment");
    assert_eq!(experiment_request("e", "x", "", 10, &recipes).err().unwrap(), "control recipe 'x' is not registered");
    assert_eq!(experiment_request("e", "ctl", "y", 10, &recipes).err().unwrap(), "variant recipe 'y' is not registered");
    assert_eq!(experiment_request("e", "ctl", "", 0, &recipes).err().unwrap(), "budget_steps must be > 0");
    assert_eq!(run_reply("experiment", "", &ServiceReply::Failed(s("status code 409"))).err().unwrap(),
        "the service is busy (stub mode, or an experiment already running) - check agent-model-experiments");
    assert_eq!(run_reply("sft_run", "", &ServiceReply::Failed(s("status code 409"))).err().unwrap(),
        "the service is busy (stub mode, or the time-share is borrowed) - check agent-model-service_status");
    assert_eq!(run_reply("sft_run", "", &ServiceReply::Failed(s("refused"))).err().unwrap(),
        "the service is not answering - bootstrap it first");
    let refused = ServiceReply::Json { started: false, rows: false, status: None, msg: None };
    assert_eq!(run_reply("experiment", "{\"x\":1}", &refused).err().unwrap(), "experiment refused: {\"x\":1}");
    let started = ServiceReply::Json { started: true, rows: false, status: None, msg: None };
    assert!(run_reply("experiment", "{}", &started).is_ok());
}

#[test]
fn sft_checks() {
    let ds = vec![Some(s("conv")), Some(s("raw"))];
    let kinds = vec![s("persona"), s("cpt")];
    let models = vec![Some(s("base"))];
    assert_eq!(sft_request("Run1", "conv", "pointer", 8, 100, &ds, &kinds, &models).unwrap(), (s("run1"), s("conv"), s("pointer")));
    assert_eq!(sft_request("bad name", "conv", "pointer", 8, 100, &ds, &kinds, &models).err().unwrap(),
        "name must be lowercase [a-z0-9-_] (got 'bad name')");
    assert_eq!(sft_request("r", "raw", "pointer", 8, 100, &ds, &kinds, &models).err().unwrap(),
        "dataset 'raw' is kind 'cpt' - SFT trains on conversation datasets (sft or persona)");
    assert_eq!(sft_request("r", "conv", "other", 8, 100, &ds, &kinds, &models).err().unwrap(),
        "base 'other' is neither 'pointer' nor a registered model");
    assert_eq!(sft_request("r", "conv", "base", 0, 100, &ds, &kinds, &models).err().unwrap(), "rank and steps must be > 0");
}

#[test]
fn inspect_peek_count_verdict() {
    let lines = vec![s("  "), s(" {\"a\": 1} "), s(&"x".repeat(250)), s("third")];
    let rows = peek_rows(&lines, 2);
    assert_eq!(rows, vec![s("{\"a\": 1}"), "x".repeat(200)]);
    assert_eq!(peek_rows(&lines, 100).len(), 3);
    assert_eq!(count_rows(&lines), 3);
    assert!(peek_wanted(1, 1, "jsonl"));
    assert!(!peek_wanted(1, 1, "parquet"));
    assert!(!peek_wanted(0, 1, "jsonl"));
    assert!(is_data_file("/d/a.jsonl", "jsonl"));
    assert!(!is_data_file("/d/ajsonl", "jsonl"));
    assert_eq!(hash_verdict("rolling", "abc"), "rolling (a stream - drift is the point)");
    assert_eq!(hash_verdict("abc", "abc"), "ok");
    assert_eq!(hash_verdict("abd", "abc"), "MISMATCH - the bytes changed since registration");
}

#[test]
fn message_ids_and_puts() {
    assert_eq!(content_id("a"), "mcd228cb696f1a8caf78912b704e4a8964");
    let p = put_request(" User ", "Chat", "hi", " ent ", " prov ", "").unwrap();
    assert_eq!((p.role.as_str(), p.venue.as_str(), p.entity.as_str(), p.provenance.as_str()), ("user", "chat", "ent", "prov"));
    assert_eq!(p.content_id, content_id("hi"));
    assert!(matches!(put_plan(&p, false, false, "abc"), (true, OccurrenceStep::Record(ref x)) if x == "moabc"));
    let q = put_request("user", "chat", "hi", "", "", " mo123 ").unwrap();
    assert!(matches!(put_plan(&q, true, false, "abc"), (false, OccurrenceStep::Record(ref x)) if x == "mo123"));
    assert!(matches!(put_plan(&q, true, true, "abc"), (false, OccurrenceStep::Known(ref x)) if x == "mo123"));
    assert_eq!(put_request(" ", "chat", "hi", "", "", "").err().unwrap(), "role is required (user|assistant|system|speaker)");
    assert_eq!(put_request("u", "", "hi", "", "", "").err().unwrap(),
        "venue is required (chat|room|escalation|...) - it is how consumers filter without knowing which sensor produced a message");
    assert_eq!(put_request("u", "v", "", "", "", "").err().unwrap(), "content is required - an empty message is not an event");
    let bad = put_request("u", "v", "x", "", "", "mc1").unwrap();
    assert!(matches!(put_plan(&bad, false, false, "abc"),
        (true, OccurrenceStep::Refuse(ref m)) if m == "a supplied id must start with 'mo' (occurrence namespace)"));
    assert_eq!(message_id("  mo1 ").unwrap(), "mo1");
    assert_eq!(message_id(" ").err().unwrap(), "id is required");
    assert_eq!(no_message("mo9"), "no message 'mo9'");
}

#[test]
fn recent_takes_newest_of_a_venue() {
    let venues = vec![s("chat"), s("room"), s("chat"), s("chat"), s("")];
    assert_eq!(recent_rows(&venues, " CHAT ", 2).unwrap(), (vec![2, 3], 3));
    assert_eq!(recent_rows(&venues, "", 10).unwrap(), (vec![0, 1, 2, 3, 4], 5));
    assert_eq!(recent_rows(&venues, "chat", 0).err().unwrap(), "limit must be > 0");
}

#[test]
fn sensor_coalesces_band_changes() {
    let mut bands: Vec<(String, i64)> = Vec::new();
    let first = vec![(s("disk_free_gb"), 0), (s("gpu0_free_pct"), 1)];
    assert!(sweep(&mut bands, &first).is_empty());
    assert!(sweep(&mut bands, &first).is_empty());
    let worse = vec![(s("disk_free_gb"), 2), (s("gpu0_free_pct"), 1)];
    let c = sweep(&mut bands, &worse);
    assert_eq!(c.len(), 1);
    assert_eq!((c[0].metric.as_str(), c[0].band, c[0].prev), ("disk_free_gb", 2, 0));
    assert!(worsening(&c[0]));
    assert!(sweep(&mut bands, &worse).is_empty());
    assert_eq!(edge_key("gpu3_free_pct"), "gpu_free_pct");
    assert_eq!(edge_key("mem_avail_pct"), "mem_avail_pct");
    assert_eq!(gpu_metric(2), "gpu2_free_pct");
}

#[test]
fn archivist_queue_and_turns() {
    let mut q: Vec<i32> = (0..200).collect();
    push_capped(&mut q, 200, 200);
    assert_eq!(q.len(), 200);
    assert_eq!(q[0], 1);
    assert_eq!(q[199], 200);
    let t = clip_turn("chat", &"a".repeat(5000), "r", &"t".repeat(500));
    assert_eq!(t.ask.chars().count(), 4000);
    assert_eq!(t.reply, "r");
    assert_eq!(t.tools.chars().count(), 400);
}

#[test]
fn wonder_merging() {
    let existing = vec![Some(s("why?")), None];
    let answers = vec![Some(s(" why? ")), Some(s("how?")), None, Some(s("how?")), Some(s("  "))];
    let (fresh, drop) = wonder_merge(&existing, &answers);
    assert_eq!(fresh, vec![s("how?")]);
    assert_eq!(drop, 0);
    let full: Vec<Option<String>> = (0..20).map(|i| Some(format!("q{}", i))).collect();
    let (f2, d2) = wonder_merge(&full, &vec![Some(s("new one"))]);
    assert_eq!(f2, vec![s("new one")]);
    assert_eq!(d2, 1);
    assert_eq!(bank_summary(&vec![(s("a"), 3), (s("b"), -1)]), "a=3 b=-1");
    assert!(wonder_prompt(1, 2, 3, "a=3").contains("- memory work queue: 1 stale, 2 awaiting review, 3 unpromoted subject claims\n- training banks (rows): a=3\n"));
    assert_eq!(frontier_failure("ERROR: down"), Some(s("the frontier arm failed: ERROR: down")));
    assert_eq!(frontier_failure("[\"q\"]"), None);
}

#[test]
fn connect_pieces() {
    assert_eq!(connect_subject("  topic ", Some("room")), "topic");
    assert_eq!(connect_subject(" ", Some("room")), "room");
    assert_eq!(connect_subject("", Some("")), "the agent's own recent work");
    assert_eq!(connect_subject("", None), "the agent's own recent work");
    assert_eq!(too_few(2, "x"), Some(s("only 2 claims recalled for 'x' - a neighborhood needs 3")));
    assert_eq!(too_few(3, "x"), None);
    let claims = vec![Some((s("kb.a"), s("first"))), None, Some((s(""), s("third")))];
    assert_eq!(claim_listing(&claims), "1. [kb.a] first\n3. [] third\n");
    assert!(connect_prompt("x", "L").starts_with("You are the agent reflecting on its own knowledge. Below are related claims it holds about 'x'.\nCLAIMS:\nL\n"));
    assert_eq!(used_claims(&vec![Some(1), Some(2), Some(3), Some(9), None, Some(0)], &claims), "first | third");
    assert_eq!(notion_detail("because", "a | b"), "because [follows from: a | b]");
}

#[test]
fn promote_pieces() {
    assert_eq!(subject_target("dev.code"), (s("dev"), s("code")));
    assert_eq!(subject_target("dev"), (s("dev"), s("dev")));
    assert_eq!(subject_target("a.b.c"), (s("a"), s("b.c")));
    assert_eq!(promotion_target(true, Some("dev.x"), false, "dev"), Some((s("dev"), s("x"))));
    assert_eq!(promotion_target(true, Some("kb.x"), false, "dev"), None);
    assert_eq!(promotion_target(true, Some("dev.x"), true, "dev"), None);
    assert_eq!(promotion_target(false, Some("dev.x"), false, "dev"), None);
    let mut t = PromoteTally::new();
    assert!(t.record(&file_outcome("ok", "")));
    assert!(t.record(&file_outcome("err", "the exact claim already exists here")));
    let f = file_outcome("err", "nope");
    assert!(matches!(f, FileOutcome::Failed(ref m) if m == "nope"));
    assert!(!t.record(&f));
    assert_eq!((t.promoted, t.already, t.failed), (1, 1, 1));
    assert_eq!(promote_label(2, "dev"), "promote: 2 claim(s) -> dev");
    let arr = Json::Arr(vec![Json::Obj(vec![(s("claim"), Json::Str(s("c")))])]);
    assert_eq!(memory_source(&arr), "[\n  {\n    \"claim\": \"c\"\n  }\n]\n");
}

#[test]
fn service_pieces() {
    assert_eq!(setting_or(Some("  9000 "), "8077"), "9000");
    assert_eq!(setting_or(Some("  "), "8077"), "8077");
    assert_eq!(setting_or(None, "8077"), "8077");
    assert_eq!(endpoint("8077", "/status"), "http://127.0.0.1:8077/status");
    assert!(matches!(env_stage("stub", false, false), EnvStage::NotNeeded));
    assert!(matches!(env_stage("/ck", true, true), EnvStage::Ready));
    assert!(matches!(env_stage("/ck", true, false), EnvStage::Install));
    assert_eq!(env_after_install(false), "install_failed");
    assert!(env_install_command("/d", "R").starts_with("set -e; cd /d; git clone R nanochat; cd nanochat;"));
    assert!(env_install_command("/d", "R").ends_with("pip install -r .deps.txt; touch env_ready"));
    assert_eq!(launch_command("/r", "stub", "8077", "/nc", "/nc/venv/bin/python"),
        "cd /r; nohup 'python3' runtime/agent/model/service.py --data-dir runtime/agent/model --port 8077 --checkpoint 'stub' >> runtime/agent/model/service.log 2>&1 &");
    assert_eq!(launch_command("/r", "/ck", "1", "/nc", "/nc/venv/bin/python"),
        "cd /r; PYTHONPATH='/nc' nohup '/nc/venv/bin/python' runtime/agent/model/service.py --data-dir runtime/agent/model --port 1 --checkpoint '/ck' >> runtime/agent/model/service.log 2>&1 &");
    assert_eq!(launch_outcome(true, false), "already_running");
    assert_eq!(launch_outcome(false, true), "launched");
    assert_eq!(launch_outcome(false, false), "launch_failed");
    assert!(bootstrap_ok("ready", "launched"));
    assert!(!bootstrap_ok("install_failed", "launched"));
    let log: String = (0..30).map(|i| format!("step {}\n", i)).collect();
    let tail = log_tail(log.as_str());
    assert_eq!(tail.len(), 25);
    assert_eq!(tail[0], "step 5");
    assert_eq!(log_tail(&"y".repeat(300))[0].chars().count(), 220);
    assert_eq!(unreachable_msg("http://h/x", " (already stopped?)", "refused"),
        "model service unreachable at http://h/x (already stopped?): refused");
}

#[test]
fn llm_pieces() {
    let m = ask_messages("q", " sys ");
    assert_eq!(m.len(), 2);
    assert_eq!((m[0].role.as_str(), m[0].content.as_str()), ("system", " sys "));
    assert_eq!((m[1].role.as_str(), m[1].content.as_str()), ("user", "q"));
    assert_eq!(ask_messages("q", "  ").len(), 1);
    assert_eq!(ask_answer(Some("text"), Some("hi")), "hi");
    assert_eq!(ask_answer(Some("text"), None), "");
    assert_eq!(ask_answer(Some("tool_calls"), Some(" ")), "ERROR: the provider answered with tool calls although no tools were offered");
    assert_eq!(ask_answer(Some("tool_calls"), Some("x")), "x");
    assert_eq!(ask_answer(Some("error"), Some("boom")), "ERROR: boom");
    assert_eq!(ask_answer(None, None), "ERROR: LLM call failed");
    let params = vec![ParamInfo { name: s("a"), kind: s("String"), desc: s("") },
        ParamInfo { name: s("b"), kind: s("int"), desc: s("count") }];
    let p = describe_prompt("cmd", "rust", "String", "", &params, "", "let x = 1;", "");
    assert!(p.contains("\nCommand Name: \"cmd\"\nLanguage: \"rust\"\nReturn Type: \"String\"\n\nParameters:\n  - Name: \"a\", Type: \"String\"\n  - Name: \"b\", Type: \"int\", Current Description: \"count\"\n\nCode Snippet:\n```rust\nlet x = 1;\n```\n\n--- INSTRUCTIONS ---"));
    assert!(p.ends_with("\n\nNo existing description provided. Generate a new one.\n\nNew Command Description:"));
    let q = describe_prompt("c", "js", "void", "g", &Vec::new(), "imp", "", "old");
    assert!(q.contains("\nGroups: \"g\"\n\nParameters: None\n\nImports:\n```js\nimp\n```\n\n--- INSTRUCTIONS ---"));
    assert!(q.contains("\n\nExisting Description (improve if necessary): \"old\""));
}

#[test]
fn command_envelope() {
    assert_eq!(missing_parameter(&vec![(s("a"), true), (s("b"), false), (s("c"), false)]),
        Some(s("missing required parameter: b")));
    assert_eq!(missing_parameter(&vec![(s("a"), true)]), None);
}

#[test]
fn tool_loop_scenarios() {
    let mut l = ToolLoop::new();
    assert!(l.begin_round());
    assert!(matches!(l.on_call("dev-code-upsert_command", "{}"), CallStep::Execute));
    let obs = l.after_call("dev-code-upsert_command", Some((s("lib"), s("ctl"), s("cmd"))), "ok");
    assert_eq!(obs, "ok");
    assert!(l.begin_round());
    let nudge = l.on_text("done");
    assert!(nudge.unwrap().starts_with("You modified `lib-ctl-cmd` but never executed it."));
    assert!(l.begin_round());
    assert_eq!(l.on_text("done"), None);
    assert!(l.is_done());
    assert_eq!(l.answer(), "done");

    let mut r = ToolLoop::new();
    assert!(r.begin_round());
    assert!(matches!(r.on_call("a-b-c", "{\"x\":1}"), CallStep::Execute));
    assert!(matches!(r.on_call("a-b-c", "{\"x\":1}"), CallStep::Repeat));
    assert!(matches!(r.on_call("a-b-c", "{\"x\":1}"), CallStep::Repeat));
    assert!(matches!(r.on_call("a-b-c", "{\"x\":1}"), CallStep::Abort));
    assert!(r.answer().starts_with("Aborting: the model repeated the identical call to a-b-c 4 times"));

    let mut f = ToolLoop::new();
    for _ in 0..3 {
        assert!(f.begin_round());
        assert!(!f.is_done());
        f.after_call("a-b-c", None, "Tool Error: broken");
    }
    assert!(f.is_done());
    assert_eq!(f.answer(), "Aborting: the same failure occurred 3 times in a row from a-b-c with no change in outcome: Tool Error: broken");

    let mut m = ToolLoop::new();
    let mut rounds = 0;
    while m.begin_round() {
        rounds += 1;
    }
    assert_eq!(rounds, 24);
    assert_eq!(m.answer(), "Error: Maximum tool loop iterations exceeded.");
}

#[test]
fn tool_loop_helpers() {
    assert_eq!(tool_name_parts("a-b-c"), Some((s("a"), s("b"), s("c"))));
    assert_eq!(tool_name_parts("a-b"), None);
    assert!(failure("error: x"));
    assert!(failure("x {\"status\":\"err\"}"));
    assert!(!failure("fine"));
    assert_eq!(compile_errors("noise\\nerror[E1]: \\\"x\\\""), "error[E1]: \"x\"");
    assert_eq!(clamp("short", 100), "short");
    let long = "a".repeat(30);
    assert_eq!(clamp(long.as_str(), 9), format!("{}\n...[{} bytes omitted]...\n{}", "a".repeat(6), 21, "a".repeat(3)));
    assert_eq!(observation("x-y-z", "plain"), "plain");
}

#[test]
fn executive_steps() {
    let mut e = ExecState::initial();
    assert!(!e.start(10));
    assert!(e.running);
    assert_eq!(e.phase, "idle");
    assert!(e.start(20));
    assert_eq!(e.started, 10);
    assert!(e.initiative_due(0));
    e.schedule(1000);
    assert_eq!(e.next_act_time, 1000 + 900000);
    assert!(!e.initiative_due(1000));
    assert_eq!(next_act_in_ms(&e, 1000), 900000);
    let p = Perception { kind: Some(s("speech")), time: Some(5), sensor: Some(s("room")),
        payload: vec![s("hello"), s("there")],
        claims: Some(vec![Some(BoundClaim { claim: Some(s("c1")), stale: Some(true) }), None]) };
    assert_eq!(perception_query(&p), "speech room hello there");
    let c = orient(&p);
    assert_eq!(c.bound, Some(2));
    assert_eq!(c.bound_top, Some(s("c1")));
    e.queue.push(Some(p));
    assert!(!e.initiative_due(i64::MAX));
    e.observe(Some(c));
    assert_eq!(e.perceived_total, 1);
    assert_eq!(e.last_kind, "speech");
    assert_eq!(e.phase, "orienting");
    let item = WorkItem { kind: s("stale"), claim: s("c"), lib: s("kb"), domain: s("dev"), why: s("old") };
    let (act, act_now) = e.plan_act(&item, 7);
    assert!(act_now);
    assert_eq!(act.home, "kb.dev");
    assert_eq!(act.action, None);
    assert_eq!(e.last_act.as_ref().map(|a| a.home.clone()), Some(s("kb.dev")));
    let done = with_decay(act, &Some(DecayAnswer { action: Some(s("decayed")), before: Some(s("0.9")), after: None }));
    assert_eq!(done.action, Some(s("decayed")));
    assert_eq!(done.before, Some(s("0.9")));
    let failed = with_decay(done, &None);
    assert_eq!(failed.action, Some(s("act_failed")));
    assert!(e.stop());
    assert!(!e.running);
    let _unused: Option<Act> = None;
}

#[test]
fn executive_tick_records_attribution_before_decay() {
    let mut e = ExecState::initial();
    e.start(10);
    assert!(matches!(e.begin_tick(100), TickAction::Work));
    assert_eq!(e.phase, "deciding");
    assert_eq!(e.next_act_time, 100 + 900000);
    let item = WorkItem { kind: s("stale"), claim: s("c"), lib: s("kb"), domain: s("dev"), why: s("old") };
    let step = e.after_work(100, Some((Some(3), Some(item))));
    assert!(matches!(step, TickAction::Decay(ref it) if it.claim == "c"));
    assert_eq!(e.phase, "acting");
    assert_eq!(e.work_depth, 3);
    assert_eq!(e.acts_total, 0);
    let recorded = e.last_act.clone().unwrap();
    assert_eq!((recorded.kind.as_str(), recorded.claim.as_str(), recorded.home.as_str(), recorded.why.as_str(), recorded.time),
        ("stale", "c", "kb.dev", "old", 100));
    assert_eq!(recorded.action, None);
    assert!(matches!(e.after_decay(None), TickAction::Done));
    assert_eq!(e.last_act.clone().unwrap().action, Some(s("act_failed")));
    assert_eq!(e.acts_total, 1);
    assert_eq!(e.phase, "idle");
    assert!(matches!(e.begin_tick(200), TickAction::Done));
    let review = WorkItem { kind: s("review"), claim: s("r"), lib: s("kb"), domain: s("x"), why: s("w") };
    e.next_act_time = 0;
    assert!(matches!(e.begin_tick(300), TickAction::Work));
    assert!(matches!(e.after_work(300, Some((None, Some(review)))), TickAction::Done));
    assert_eq!(e.last_act.clone().unwrap().action, Some(s("surfaced")));
    assert_eq!(e.acts_total, 2);
    e.queue.push(None);
    assert!(matches!(e.begin_tick(400), TickAction::Done));
    assert!(e.queue.is_empty());
    e.queue.push(Some(Perception { kind: Some(s("k")), time: Some(1), sensor: None, payload: vec![], claims: None }));
    let ctx = match e.begin_tick(500) { TickAction::Recall(c) => c, _ => panic!("expected recall") };
    assert_eq!(ctx.query, "k");
    let ans = RecallAnswer { status: Some(s("ok")), matched: 2, top: None };
    assert!(matches!(e.after_recall(ctx, Some(ans)), TickAction::Done));
    assert_eq!(e.last_context.as_ref().unwrap().matched, 2);
    assert_eq!(e.perceived_total, 1);
}

#[test]
fn salience_base_address() {
    assert_eq!(salience_base(Some(" http://h:1/// ")), "http://h:1");
    assert_eq!(salience_base(Some("  ")), "http://127.0.0.1:8077");
    assert_eq!(salience_base(None), "http://127.0.0.1:8077");
}

#[test]
fn memory_index_lines() {
    assert_eq!(memory_index_line("kb", "dev", 3, "a,b", "desc"), "- kb.dev (3) [a,b] - desc\n");
    assert_eq!(memory_index_line("kb", "x", -1, "", "d"), "- kb.x - d\n");
    assert!(memory_index_header().starts_with("\n\nMEMORY INDEX (recall with dev-code-read_control_facet"));
}

#[test]
fn setting_keeps_other_lines() {
    let (content, _) = rewrite_setting("# top\nA=1\nB=2\n\nC=3\n", "B", "");
    assert_eq!(content, "# top\nA=1\n\nC=3\n");
    let (content2, _) = rewrite_setting("# top\nA=1\n", "B", "7");
    assert_eq!(content2, "# top\nA=1\nB=7\n");
}

#[test]
fn checks_given_normalized_values() {
    let recipes = vec![Some(s("c"))];
    assert_eq!(experiment_checked(s("e"), s("c"), s(""), 1, &recipes).unwrap(), (s("e"), 0, None));
    assert_eq!(experiment_checked(s(""), s("c"), s(""), 1, &recipes).err().unwrap(), "name the experiment");
    let ds = vec![Some(s("d"))];
    assert_eq!(sft_checked("R", s("r"), s("d"), " pointer ", 1, 1, &ds, &vec![s("sft")], &Vec::new()).unwrap(),
        (s("r"), s("d"), s("pointer")));
    assert_eq!(put_checked(s(""), s("v"), "x", "", "", "").err().unwrap(), "role is required (user|assistant|system|speaker)");
    assert_eq!(recent_picked(&vec![s("a"), s("b")], s("b"), 5).unwrap(), (vec![1], 1));
}

#[test]
fn clamp_keeps_whole_characters_within_budget() {
    let wide = "\u{e9}".repeat(10);
    let r = clamp(wide.as_str(), 9);
    assert_eq!(r, format!("{}\n...[{} bytes omitted]...\n{}", "\u{e9}".repeat(3), 12, "\u{e9}"));
    let marker = "\n...[12 bytes omitted]...\n";
    assert!(r.len() - marker.len() <= 9);
}

#[test]
fn second_put_of_same_text_dedupes_content() {
    let first = put_request("user", "chat", "ok", "", "", "").unwrap();
    let second = put_request("speaker", "room", "ok", "", "", "").unwrap();
    assert_eq!(first.content_id, second.content_id);
    let (w1, o1) = put_plan(&first, false, false, "a1");
    let (w2, o2) = put_plan(&second, true, false, "a2");
    assert!(w1 && !w2);
    match (o1, o2) {
        (OccurrenceStep::Record(x), OccurrenceStep::Record(y)) => {
            assert!(x.starts_with("mo") && y.starts_with("mo"));
            assert_ne!(x, y);
        }
        _ => panic!("both puts record an occurrence"),
    }
}

#[test]
fn small_command_decisions() {
    let refusal = "agent.prompts `prompt` facet unavailable - the curriculum is store-resident (docs/prompting.md); pull canon";
    assert_eq!(core_prompt(Some(" core ")), Ok(s(" core ")));
    assert_eq!(core_prompt(Some("  ")), Err(s(refusal)));
    assert_eq!(core_prompt(None), Err(s(refusal)));
    assert_eq!(purge_outcome(true, true), (true, None));
    assert_eq!(purge_outcome(true, false), (false, Some(s("bytes left in place - path is outside the managed weights dir"))));
    assert_eq!(purge_outcome(false, false), (false, None));
    assert_eq!(dataset_measures("parquet", "stream"), (Some(-1), Some(s("rolling"))));
    assert_eq!(dataset_measures("jsonl", "static"), (None, None));
    assert!(exported_claim(true, false));
    assert!(!exported_claim(true, true));
    assert!(!exported_claim(false, false));
}

#[test]
fn service_reply_mapping() {
    let u = "http://h/x";
    assert_eq!(plain_reply(u, "", None, &CallEnd::Answered { json: true, has_status: false }), None);
    assert_eq!(plain_reply(u, "", None, &CallEnd::Answered { json: false, has_status: false }),
        Some(s("service answered non-JSON at http://h/x")));
    assert_eq!(plain_reply(u, " (hint)", None, &CallEnd::Refused { json: true, reason: s("500") }),
        Some(s("model service unreachable at http://h/x (hint): 500")));
    assert_eq!(plain_reply(u, "", Some("no run"), &CallEnd::Refused { json: false, reason: s("500") }), Some(s("no run")));
    assert_eq!(plain_reply(u, "", Some("no run"), &CallEnd::Refused { json: true, reason: s("500") }), None);
    assert_eq!(plain_reply(u, "", None, &CallEnd::Unreadable(s("eof"))), Some(s("service read failed: eof")));
    assert_eq!(salience_reply(u, &CallEnd::Answered { json: true, has_status: false }), Ok(Some(s("ok"))));
    assert_eq!(salience_reply(u, &CallEnd::Answered { json: true, has_status: true }), Ok(None));
    assert_eq!(salience_reply(u, &CallEnd::Answered { json: false, has_status: false }),
        Err(s("model service answered non-JSON at http://h/x")));
    assert_eq!(salience_reply(u, &CallEnd::Unreachable(s("refused"))), Err(s("model service unreachable at http://h/x: refused")));
    assert_eq!(salience_reply(u, &CallEnd::Unreadable(s("eof"))), Err(s("model service read failed: eof")));
}

#[test]
fn import_footprint_and_loop_exit() {
    assert_eq!(model_footprint(Backend::Hf, Some(4096), Some(s("bfloat16")), Some(7)), (4096, s("bfloat16")));
    assert_eq!(model_footprint(Backend::Hf, None, None, Some(7)), (0, s("")));
    assert_eq!(model_footprint(Backend::Nanochat, Some(4096), Some(s("x")), Some(2048)), (2048, s("bf16")));
    assert_eq!(model_footprint(Backend::Nanochat, None, None, None), (0, s("bf16")));
    let mut e = ExecState::initial();
    e.start(1);
    assert!(e.keep_running());
    assert_eq!(e.phase, "idle");
    assert!(e.stop());
    assert!(!e.keep_running());
    assert_eq!(e.phase, "stopped");
    assert!(!e.stop());
}

#[test]
fn wonder_list_and_setting_checks() {
    use_checks();
}

fn use_checks() {
    assert_eq!(setting_checked(s("lower"), "\"lower\"", s("x")).err().unwrap(), "key must be UPPER_SNAKE ([A-Z0-9_]): \"lower\"");
    assert_eq!(setting_checked(s("A_B"), "ignored", s("v")), Ok((s("A_B"), s("v"))));
    let existing: Vec<Option<String>> = (0..19).map(|i| Some(format!("q{}", i))).collect();
    let answers = vec![Some(s(" new ")), Some(s("q3")), Some(s("new")), Some(s("other"))];
    let (fresh, drop) = wonder_merge(&existing, &answers);
    assert_eq!(fresh, vec![s("new"), s("other")]);
    assert_eq!(drop, 1);
}
