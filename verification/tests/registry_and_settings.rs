use newbound_agent::registry::{
    adapter_apply_check, adapter_delete_check, adapter_reply, adapter_route, anchor_status, anchor_waiters,
    check_model_dir, check_new_dataset, check_new_model, dataset_request, derive_reply, derive_request,
    derived_lineage, find_named, import_request, mint_outcome, model_remove_check, normalize, resolve_format,
    AdapterState, Backend, FormatsPresent, ModelAnchor, ModelDirShape, ServiceReply,
};
use newbound_agent::registry::{adapter_apply_checked, adapter_delete_checked, dataset_checked, derive_checked, import_checked, model_remove_checked};
use newbound_agent::settings::{key_line, rewrite_setting, setting_request, split_lines};

fn names(v: &[&str]) -> Vec<Option<String>> {
    v.iter().map(|s| Some(s.to_string())).collect()
}

#[test]
fn normalize_trims_and_lowercases() {
    assert_eq!(normalize("  My-Model "), "my-model");
}

#[test]
fn find_named_takes_the_first_match() {
    let l = vec![None, Some("a".to_string()), Some("b".to_string()), Some("a".to_string())];
    assert_eq!(find_named(&l, "a"), Some(1));
    assert_eq!(find_named(&l, "c"), None);
}

#[test]
fn import_request_checks_in_order() {
    let ok = import_request(" Base ", " /models/base ", "nanochat", " mint ").unwrap();
    assert_eq!(ok.name, "base");
    assert_eq!(ok.backend, Backend::Nanochat);
    assert_eq!(ok.anchor, "mint");
    assert_eq!(ok.source, "/models/base");
    assert_eq!(import_request("stub", "/x", "hf", "none").err().unwrap(),
        "name must be lowercase [a-z0-9-_], non-empty, not 'stub' (got 'stub')");
    assert_eq!(import_request("m", "/x", "gguf", "none").err().unwrap(),
        "backend must be nanochat or hf (got 'gguf')");
    assert_eq!(import_request("m", "/x", "hf", "  ").err().unwrap(),
        "anchor must be mint, none, or a dataset name");
    assert_eq!(import_request("m", "hf:org/x", "hf", "none").err().unwrap(),
        "hub fetch lands later on this branch - pass a local path for now");
}

#[test]
fn model_dir_shape_by_backend() {
    let mut d = ModelDirShape {
        tokenizer_dir: true, base_checkpoints_dir: false, chatsft_checkpoints_dir: false,
        chatrl_checkpoints_dir: false, train_done: true, config_json_file: false,
    };
    assert!(check_model_dir(Backend::Nanochat, &d, "/m").is_ok());
    assert_eq!(check_model_dir(Backend::Hf, &d, "/m").err().unwrap(), "/m is not an HF model dir (no config.json)");
    d.tokenizer_dir = false;
    assert_eq!(check_model_dir(Backend::Nanochat, &d, "/m").err().unwrap(),
        "/m is not a nanochat base dir (needs tokenizer/ plus base_checkpoints/ or a sibling phase dir, or train_done)");
}

#[test]
fn anchor_status_and_duplicates() {
    assert_eq!(anchor_status("mint"), "mint_pending");
    assert_eq!(anchor_status("none"), "none");
    assert_eq!(anchor_status("persona"), "named");
    assert_eq!(check_new_model(&names(&["a"]), "a").err().unwrap(),
        "model 'a' is already registered - model_remove it first");
    assert!(check_new_model(&names(&["a"]), "b").is_ok());
    assert_eq!(check_new_dataset(&names(&["d"]), "d").err().unwrap(), "dataset 'd' is already registered");
}

#[test]
fn mint_outcomes() {
    let started = ServiceReply::Json { started: true, rows: false, status: None, msg: None };
    assert_eq!(mint_outcome(&started), "requested");
    let refused = ServiceReply::Json { started: false, rows: false, status: None, msg: Some("busy".to_string()) };
    assert_eq!(mint_outcome(&refused), "deferred: busy");
    assert_eq!(mint_outcome(&ServiceReply::Failed("http status 409".to_string())),
        "deferred: stub mode or a mint already running - re-run import once a real checkpoint serves");
    assert_eq!(mint_outcome(&ServiceReply::Failed("connection refused".to_string())),
        "deferred: service not answering - bootstrap it and re-run import, or mint later");
}

#[test]
fn dataset_request_checks() {
    let r = dataset_request("Pairs", " sft ", " auto ", 10, " stream ").unwrap();
    assert_eq!((r.name.as_str(), r.kind.as_str(), r.format.as_str(), r.mode.as_str()), ("pairs", "sft", "auto", "stream"));
    assert_eq!(dataset_request("replay", "sft", "auto", 0, "stream").err().unwrap(),
        "name must be lowercase [a-z0-9-_], non-empty, and not a built-in pool name (got 'replay')");
    assert_eq!(dataset_request("d", "chat", "auto", 0, "stream").err().unwrap(),
        "kind must be cpt|sft|eval|persona|anchor (got 'chat')");
    assert_eq!(dataset_request("d", "cpt", "auto", 0, "live").err().unwrap(),
        "mode must be stream or snapshot (got 'live')");
    assert_eq!(dataset_request("d", "cpt", "csv", 0, "stream").err().unwrap(),
        "format must be auto|jsonl|txt|parquet (got 'csv')");
    assert_eq!(dataset_request("d", "cpt", "txt", -1, "stream").err().unwrap(),
        "holdout_every must be >= 0 (0 = no held-out split)");
}

#[test]
fn format_resolution() {
    let p = FormatsPresent { jsonl: false, txt: true, parquet: true };
    assert_eq!(resolve_format("auto", &p, "/d").unwrap(), "txt");
    assert_eq!(resolve_format("jsonl", &p, "/d").err().unwrap(), "no .jsonl files under /d");
    let none = FormatsPresent { jsonl: false, txt: false, parquet: false };
    assert_eq!(resolve_format("auto", &none, "/d").err().unwrap(), "no .jsonl/.txt/.parquet files under /d");
}

#[test]
fn anchor_waiters_by_name_or_mint() {
    let models = vec![
        Some(ModelAnchor { name: Some("base".to_string()), anchor: Some("mint".to_string()) }),
        None,
        Some(ModelAnchor { name: Some("other".to_string()), anchor: Some("base-anchor".to_string()) }),
        Some(ModelAnchor { name: Some("x".to_string()), anchor: Some("none".to_string()) }),
    ];
    assert_eq!(anchor_waiters(&models, "base-anchor"), vec![0, 2]);
}

#[test]
fn derive_checks_and_reply() {
    let l = Some(names(&["src"]));
    assert_eq!(derive_request("SRC", "out", "render_dialect", &l).unwrap(), ("src".to_string(), "out".to_string(), 0));
    assert_eq!(derive_request("src", "out", "x", &l).err().unwrap(),
        "this branch ships one transform: render_dialect (got 'x')");
    assert_eq!(derive_request("src", "src", "render_dialect", &l).err().unwrap(), "'src' is already registered");
    assert_eq!(derive_request("src", "out", "render_dialect", &None).err().unwrap(), "no datasets registered");
    let rows = ServiceReply::Json { started: false, rows: true, status: None, msg: None };
    assert!(derive_reply("{}", &rows).is_ok());
    assert_eq!(derive_reply("oops", &ServiceReply::NotJson).err().unwrap(), "service reply was not JSON: oops");
    assert_eq!(derived_lineage("src"), "derived:render_dialect:src");
}

#[test]
fn model_remove_refuses_the_serving_model() {
    let l = Some(names(&["a", "b"]));
    assert_eq!(model_remove_check("b", "B", &l).err().unwrap(),
        "refusing: MODEL= currently names 'b' - point MODEL= elsewhere first");
    assert_eq!(model_remove_check("", "b", &l).unwrap(), ("b".to_string(), 1));
    assert_eq!(model_remove_check("", "c", &l).err().unwrap(), "model 'c' is not registered");
}

#[test]
fn adapters() {
    let l = Some(names(&["p", "q"]));
    let st = vec![AdapterState { applied: true, path: None }, AdapterState { applied: false, path: Some("/a/q".to_string()) }];
    assert_eq!(adapter_delete_check("p", &l, &st).err().unwrap(), "refusing: 'p' is applied - adapter_unapply it first");
    assert_eq!(adapter_delete_check("q", &l, &st).unwrap(), ("q".to_string(), 1, "/a/q".to_string()));
    assert_eq!(adapter_apply_check("z", &l).err().unwrap(), "adapter 'z' is not recorded - adapter_derive it first");
    assert_eq!(adapter_route(true), "adapter_apply");
    assert_eq!(adapter_route(false), "adapter_unapply");
    let no = ServiceReply::Json { started: false, rows: false, status: Some("err".to_string()), msg: Some("gate".to_string()) };
    assert_eq!(adapter_reply("{}", &no).err().unwrap(), "stack change refused: gate");
}

#[test]
fn setting_request_rules() {
    assert_eq!(setting_request(" SALIENCE ", " on ").unwrap(), ("SALIENCE".to_string(), "on".to_string()));
    assert_eq!(setting_request("lower", "x").err().unwrap(), "key must be UPPER_SNAKE ([A-Z0-9_]): \"lower\"");
    assert_eq!(setting_request("API_KEY", "x").err().unwrap(),
        "secret-looking keys are not editable from the UI - edit botd.properties directly");
    assert_eq!(setting_request("A", "x\ny").err().unwrap(), "value must be a single line");
}

#[test]
fn rewrite_setting_updates_adds_and_removes() {
    let text = "# comment\nA=1\nB = 2\r\nA=3\n";
    assert_eq!(rewrite_setting(text, "A", "9"), ("# comment\nA=9\nB = 2\n".to_string(), "updated".to_string()));
    assert_eq!(rewrite_setting(text, "C", "x"), ("# comment\nA=1\nB = 2\nA=3\nC=x\n".to_string(), "added".to_string()));
    assert_eq!(rewrite_setting(text, "B", ""), ("# comment\nA=1\nA=3\n".to_string(), "removed".to_string()));
    assert_eq!(rewrite_setting("", "A", ""), ("".to_string(), "removed".to_string()));
}

#[test]
fn setting_read_back_after_write() {
    let (content, _) = rewrite_setting("X=1\n#A=0\n", "A", "5");
    let lines = split_lines(content.as_str());
    let hits: Vec<&String> = lines.iter().filter(|l| key_line(l.as_str(), "A")).collect();
    assert_eq!(hits.len(), 1);
    assert_eq!(hits[0], "A=5");
}

#[test]
fn split_lines_like_std() {
    assert_eq!(split_lines("a\r\nb\n\nc"), vec!["a", "b", "", "c"]);
    assert_eq!(split_lines("a\n"), vec!["a"]);
    assert!(split_lines("").is_empty());
}

#[test]
fn checks_given_normalized_names() {
    assert_eq!(normalize(" ÄB "), "äb");
    assert_eq!(import_checked("Ä", "ä".to_string(), "/x", "hf", "none").err().unwrap(),
        "name must be lowercase [a-z0-9-_], non-empty, not 'stub' (got 'Ä')");
    assert_eq!(dataset_checked("D", "d".to_string(), "cpt", "auto", 0, "stream").unwrap().name, "d");
    let l = Some(names(&["src"]));
    assert_eq!(derive_checked("src".to_string(), "Out", "out".to_string(), "render_dialect", &l).unwrap(),
        ("src".to_string(), "out".to_string(), 0));
    assert_eq!(model_remove_checked("m", "m".to_string(), &l).err().unwrap(),
        "refusing: MODEL= currently names 'm' - point MODEL= elsewhere first");
    assert_eq!(adapter_apply_checked("src".to_string(), &l).unwrap(), ("src".to_string(), 0));
    assert_eq!(adapter_delete_checked("x".to_string(), &None, &Vec::new()).err().unwrap(), "no adapters recorded");
}
