//! The model, dataset and adapter registries kept in the runtime
//! library: the rules an entry must meet at the door, how a name is found
//! in a list, and what each registration or removal changes.
use vstd::prelude::*;
use crate::text::{chars_vec, concat, concat3, contains, has_infix, eq_str, has_prefix, lowercase, starts_with, to_lowercase, trim, trim_str};

verus! {

/// A character a registry name may hold: `[a-z0-9-_]`.
pub open spec fn is_name_char(c: char) -> bool {
    let u = c as u32;
    (0x61 <= u <= 0x7a) || (0x30 <= u <= 0x39) || c == '-' || c == '_'
}

/// Every character of `s` is a registry name character.
pub open spec fn all_name_chars(s: Seq<char>) -> bool {
    forall|i: int| 0 <= i < s.len() ==> is_name_char(#[trigger] s[i])
}

/// A raw name as the registries compare it: trimmed, then lowercased.
pub open spec fn normalized(raw: Seq<char>) -> Seq<char> {
    lowercase(trim(raw))
}

/// The pool names that the training service owns; no dataset may take one.
pub open spec fn is_builtin_pool(n: Seq<char>) -> bool {
    n == "fresh"@ || n == "replay"@ || n == "standard"@ || n == "stub"@
}

/// The rule for a model's name.
pub open spec fn model_name_ok(n: Seq<char>) -> bool {
    n.len() > 0 && n != "stub"@ && all_name_chars(n)
}

/// The rule for a dataset's name.
pub open spec fn dataset_name_ok(n: Seq<char>) -> bool {
    n.len() > 0 && !is_builtin_pool(n) && all_name_chars(n)
}

/// The rule for a training run's name.
pub open spec fn run_name_ok(n: Seq<char>) -> bool {
    n.len() > 0 && all_name_chars(n)
}

/// Whether `c` is a registry name character.
pub fn name_char(c: char) -> (b: bool)
    ensures
        b == is_name_char(c),
{
    let u = c as u32;
    (0x61 <= u && u <= 0x7a) || (0x30 <= u && u <= 0x39) || c == '-' || c == '_'
}

/// Whether every character of `s` is a registry name character.
pub fn name_chars_only(s: &str) -> (b: bool)
    ensures
        b == all_name_chars(s@),
{
    let v = chars_vec(s);
    let mut i: usize = 0;
    while i < v.len()
        invariant
            i <= v.len(),
            v@ == s@,
            forall|k: int| 0 <= k < i ==> is_name_char(#[trigger] v@[k]),
        decreases v.len() - i,
    {
        if !name_char(v[i]) {
            return false;
        }
        i = i + 1;
    }
    true
}

/// Trims `raw` and lowercases it.
pub fn normalize(raw: &str) -> (n: String)
    ensures
        n@ == normalized(raw@),
{
    let t = trim_str(raw);
    to_lowercase(t.as_str())
}

/// Whether `n` is one of the service's built-in pool names.
pub fn builtin_pool(n: &str) -> (b: bool)
    ensures
        b == is_builtin_pool(n@),
{
    eq_str(n, "fresh") || eq_str(n, "replay") || eq_str(n, "standard") || eq_str(n, "stub")
}

/// Whether the entry at `i` is named `name`; an entry that is not an
/// object, or has no name, holds `None`.
pub open spec fn named_at(names: Seq<Option<String>>, i: int, name: Seq<char>) -> bool {
    names[i] matches Some(n) && n@ == name
}

/// The first position in `names` that holds `name`.
pub open spec fn first_named(names: Seq<Option<String>>, name: Seq<char>) -> Option<int> {
    if exists|i: int| 0 <= i < names.len() && #[trigger] named_at(names, i, name) {
        Some(choose|i: int| 0 <= i < names.len() && #[trigger] named_at(names, i, name)
            && forall|j: int| 0 <= j < i ==> !named_at(names, j, name))
    } else {
        None
    }
}

/// The first position of `name` in `names`.
pub fn find_named(names: &Vec<Option<String>>, name: &str) -> (r: Option<usize>)
    ensures
        match r {
            Some(i) => i < names.len() && named_at(names@, i as int, name@) && forall|j: int|
                0 <= j < i ==> !named_at(names@, j, name@),
            None => forall|j: int| 0 <= j < names.len() ==> !named_at(names@, j, name@),
        },
        first_named(names@, name@) == match r { Some(i) => Some(i as int), None => None::<int> },
{
    let mut i: usize = 0;
    while i < names.len()
        invariant
            i <= names.len(),
            forall|j: int| 0 <= j < i ==> !named_at(names@, j, name@),
        decreases names.len() - i,
    {
        let hit = match &names[i] {
            Some(n) => eq_str(n.as_str(), name),
            None => false,
        };
        if hit {
            proof {
                assert(named_at(names@, i as int, name@));
                let w = choose|k: int| 0 <= k < names.len() && #[trigger] named_at(names@, k, name@)
                    && forall|j: int| 0 <= j < k ==> !named_at(names@, j, name@);
                assert(0 <= w < names.len() && named_at(names@, w, name@));
                if w > i {
                    assert(!named_at(names@, i as int, name@));
                }
            }
            return Some(i);
        }
        i = i + 1;
    }
    None
}

/// The error text for a refused model name.
pub open spec fn bad_model_name_msg(raw: Seq<char>) -> Seq<char> {
    "name must be lowercase [a-z0-9-_], non-empty, not 'stub' (got '"@ + raw + "')"@
}

/// The error text for a refused backend.
pub open spec fn bad_backend_msg(raw: Seq<char>) -> Seq<char> {
    "backend must be nanochat or hf (got '"@ + raw + "')"@
}

/// The backends a model can be served by.
#[derive(PartialEq, Eq, Structural, Clone, Copy, Debug)]
pub enum Backend {
    Nanochat,
    Hf,
}

/// A validated request to register a model: the name as it will be
/// recorded, its backend, the trimmed anchor and the trimmed source.
pub struct ImportRequest {
    pub name: String,
    pub backend: Backend,
    pub anchor: String,
    pub source: String,
}

/// What `import` makes of its four arguments before it touches the disk:
/// the request, or the error text.
pub open spec fn import_request_spec(name: Seq<char>, source: Seq<char>, backend: Seq<char>, anchor: Seq<char>)
    -> Result<(Seq<char>, Backend, Seq<char>, Seq<char>), Seq<char>>
{
    import_checks(name, normalized(name), source, backend, anchor)
}

/// The checks of `import_request_spec`, given the name as the registry
/// compares it (`n`) beside the name as given.
pub open spec fn import_checks(name: Seq<char>, n: Seq<char>, source: Seq<char>, backend: Seq<char>, anchor: Seq<char>)
    -> Result<(Seq<char>, Backend, Seq<char>, Seq<char>), Seq<char>>
{
    let b = trim(backend);
    if !model_name_ok(n) {
        Err(bad_model_name_msg(name))
    } else if b != "nanochat"@ && b != "hf"@ {
        Err(bad_backend_msg(backend))
    } else if trim(anchor).len() == 0 {
        Err("anchor must be mint, none, or a dataset name"@)
    } else if has_prefix(trim(source), "hf:"@) {
        Err("hub fetch lands later on this branch - pass a local path for now"@)
    } else {
        Ok((n, if b == "nanochat"@ { Backend::Nanochat } else { Backend::Hf }, trim(anchor), trim(source)))
    }
}

/// The view of an import check's result.
pub open spec fn import_request_view(r: Result<ImportRequest, String>)
    -> Result<(Seq<char>, Backend, Seq<char>, Seq<char>), Seq<char>>
{
    match r {
        Ok(q) => Ok((q.name@, q.backend, q.anchor@, q.source@)),
        Err(m) => Err(m@),
    }
}

/// The checks `import` makes of its arguments, in its order: the name,
/// the backend, a non-empty anchor, and a local (not hub) source.
pub fn import_request(name: &str, source: &str, backend: &str, anchor: &str) -> (r: Result<ImportRequest, String>)
    ensures
        import_request_view(r) == import_request_spec(name@, source@, backend@, anchor@),
{
    let n = normalize(name);
    import_checked(name, n, source, backend, anchor)
}

/// The checks of `import_request`, given the normalized name `n`.
pub fn import_checked(name: &str, n: String, source: &str, backend: &str, anchor: &str) -> (r: Result<ImportRequest, String>)
    ensures
        import_request_view(r) == import_checks(name@, n@, source@, backend@, anchor@),
{
    if !(n.as_str().unicode_len() > 0 && !eq_str(n.as_str(), "stub") && name_chars_only(n.as_str())) {
        return Err(concat3("name must be lowercase [a-z0-9-_], non-empty, not 'stub' (got '", name, "')"));
    }
    let b = trim_str(backend);
    let is_nano = eq_str(b.as_str(), "nanochat");
    let is_hf = eq_str(b.as_str(), "hf");
    if !is_nano && !is_hf {
        return Err(concat3("backend must be nanochat or hf (got '", backend, "')"));
    }
    let a = trim_str(anchor);
    if a.as_str().unicode_len() == 0 {
        return Err(String::from_str("anchor must be mint, none, or a dataset name"));
    }
    let s = trim_str(source);
    let sv = chars_vec(s.as_str());
    let hf = chars_vec("hf:");
    if starts_with(&sv, &hf) {
        return Err(String::from_str("hub fetch lands later on this branch - pass a local path for now"));
    }
    Ok(ImportRequest { name: n, backend: if is_nano { Backend::Nanochat } else { Backend::Hf }, anchor: a, source: s })
}

/// The error text for a source directory of the wrong shape.
pub open spec fn bad_model_dir_msg(backend: Backend, display: Seq<char>) -> Seq<char> {
    match backend {
        Backend::Nanochat => display
            + " is not a nanochat base dir (needs tokenizer/ plus base_checkpoints/ or a sibling phase dir, or train_done)"@,
        Backend::Hf => display + " is not an HF model dir (no config.json)"@,
    }
}

/// What a model directory holds, as far as the import door looks.
pub struct ModelDirShape {
    pub tokenizer_dir: bool,
    pub base_checkpoints_dir: bool,
    pub chatsft_checkpoints_dir: bool,
    pub chatrl_checkpoints_dir: bool,
    pub train_done: bool,
    pub config_json_file: bool,
}

/// Whether a directory of this shape can be served by `backend`: a
/// nanochat dir needs a tokenizer and a checkpoint phase (or a finished
/// training run), an HF dir a `config.json`.
pub open spec fn shape_fits(backend: Backend, d: ModelDirShape) -> bool {
    match backend {
        Backend::Nanochat => d.tokenizer_dir && (d.base_checkpoints_dir || d.chatsft_checkpoints_dir
            || d.chatrl_checkpoints_dir || d.train_done),
        Backend::Hf => d.config_json_file,
    }
}

/// Refuses a directory that `backend` cannot serve, at the door rather
/// than at serving time; `display` is how the directory is shown.
pub fn check_model_dir(backend: Backend, d: &ModelDirShape, display: &str) -> (r: Result<(), String>)
    ensures
        r is Ok <==> shape_fits(backend, *d),
        r matches Err(m) ==> m@ == bad_model_dir_msg(backend, display@),
{
    match backend {
        Backend::Nanochat => {
            let has_ckpt = d.base_checkpoints_dir || d.chatsft_checkpoints_dir || d.chatrl_checkpoints_dir
                || d.train_done;
            if !d.tokenizer_dir || !has_ckpt {
                return Err(concat(display,
                    " is not a nanochat base dir (needs tokenizer/ plus base_checkpoints/ or a sibling phase dir, or train_done)"));
            }
            Ok(())
        },
        Backend::Hf => {
            if !d.config_json_file {
                return Err(concat(display, " is not an HF model dir (no config.json)"));
            }
            Ok(())
        },
    }
}

/// The anchor status a fresh import records: a requested mint is
/// pending, `none` is none, anything else names a dataset.
pub open spec fn anchor_status_of(anchor: Seq<char>) -> Seq<char> {
    if anchor == "mint"@ {
        "mint_pending"@
    } else if anchor == "none"@ {
        "none"@
    } else {
        "named"@
    }
}

/// The anchor status a fresh import records for `anchor`.
pub fn anchor_status(anchor: &str) -> (s: String)
    ensures
        s@ == anchor_status_of(anchor@),
{
    if eq_str(anchor, "mint") {
        String::from_str("mint_pending")
    } else if eq_str(anchor, "none") {
        String::from_str("none")
    } else {
        String::from_str("named")
    }
}

/// Refuses a model name that the registry already holds.
pub fn check_new_model(names: &Vec<Option<String>>, name: &str) -> (r: Result<(), String>)
    ensures
        r is Ok <==> first_named(names@, name@) is None,
        r matches Err(m) ==> m@ == "model '"@ + name@ + "' is already registered - model_remove it first"@,
{
    match find_named(names, name) {
        Some(_) => Err(concat3("model '", name, "' is already registered - model_remove it first")),
        None => Ok(()),
    }
}

/// What came back from the model service, with the fields of a JSON
/// reply that the commands read.
pub enum ServiceReply {
    /// A JSON object: whether it has `started`, `rows`, and its `status`
    /// and `msg` strings where present.
    Json { started: bool, rows: bool, status: Option<String>, msg: Option<String> },
    /// A body that is not a JSON object.
    NotJson,
    /// A body that could not be read, with the error's text.
    Unreadable(String),
    /// No answer (or an error status), with the error's text.
    Failed(String),
}

/// What `import` records of its request to mint an anchor.
pub open spec fn mint_outcome_of(r: ServiceReply) -> Seq<char> {
    match r {
        ServiceReply::Json { started, msg, .. } => if started {
            "requested"@
        } else if msg is Some {
            "deferred: "@ + msg->0@
        } else {
            "deferred: unexpected service reply"@
        },
        ServiceReply::NotJson => "deferred: unexpected service reply"@,
        ServiceReply::Unreadable(_) => "deferred: unreadable service reply"@,
        ServiceReply::Failed(e) => if has_infix(e@, "409"@) {
            "deferred: stub mode or a mint already running - re-run import once a real checkpoint serves"@
        } else {
            "deferred: service not answering - bootstrap it and re-run import, or mint later"@
        },
    }
}

/// What `import` records of its request to mint an anchor: a deferred
/// mint is recorded, never fatal.
pub fn mint_outcome(r: &ServiceReply) -> (s: String)
    ensures
        s@ == mint_outcome_of(*r),
{
    match r {
        ServiceReply::Json { started, msg, .. } => {
            if *started {
                String::from_str("requested")
            } else {
                match msg {
                    Some(m) => concat("deferred: ", m.as_str()),
                    None => String::from_str("deferred: unexpected service reply"),
                }
            }
        },
        ServiceReply::NotJson => String::from_str("deferred: unexpected service reply"),
        ServiceReply::Unreadable(_) => String::from_str("deferred: unreadable service reply"),
        ServiceReply::Failed(e) => {
            let ev = chars_vec(e.as_str());
            let p = chars_vec("409");
            if contains(&ev, &p) {
                String::from_str(
                    "deferred: stub mode or a mint already running - re-run import once a real checkpoint serves",
                )
            } else {
                String::from_str("deferred: service not answering - bootstrap it and re-run import, or mint later")
            }
        },
    }
}

/// The dataset kinds the trainer knows.
pub open spec fn is_dataset_kind(k: Seq<char>) -> bool {
    k == "cpt"@ || k == "sft"@ || k == "eval"@ || k == "persona"@ || k == "anchor"@
}

/// The dataset modes: a stream grows, a snapshot is pinned by its hash.
pub open spec fn is_dataset_mode(m: Seq<char>) -> bool {
    m == "stream"@ || m == "snapshot"@
}

/// The formats a dataset may be registered with (`auto` detects one).
pub open spec fn is_dataset_format(f: Seq<char>) -> bool {
    f == "auto"@ || f == "jsonl"@ || f == "txt"@ || f == "parquet"@
}

/// A dataset registration that passed the door's checks.
pub struct DatasetRequest {
    pub name: String,
    pub kind: String,
    pub format: String,
    pub mode: String,
}

/// What `dataset_add` makes of its arguments before it touches the disk:
/// the normalized fields, or the error text of the first check that fails.
pub open spec fn dataset_request_spec(name: Seq<char>, kind: Seq<char>, format: Seq<char>, holdout_every: int, mode: Seq<char>)
    -> Result<(Seq<char>, Seq<char>, Seq<char>, Seq<char>), Seq<char>>
{
    dataset_checks(name, normalized(name), kind, format, holdout_every, mode)
}

/// The checks of `dataset_request_spec`, given the normalized name `n`.
pub open spec fn dataset_checks(name: Seq<char>, n: Seq<char>, kind: Seq<char>, format: Seq<char>, holdout_every: int, mode: Seq<char>)
    -> Result<(Seq<char>, Seq<char>, Seq<char>, Seq<char>), Seq<char>>
{
    if !dataset_name_ok(n) {
        Err("name must be lowercase [a-z0-9-_], non-empty, and not a built-in pool name (got '"@ + name + "')"@)
    } else if !is_dataset_kind(trim(kind)) {
        Err("kind must be cpt|sft|eval|persona|anchor (got '"@ + kind + "')"@)
    } else if !is_dataset_mode(trim(mode)) {
        Err("mode must be stream or snapshot (got '"@ + mode + "')"@)
    } else if !is_dataset_format(trim(format)) {
        Err("format must be auto|jsonl|txt|parquet (got '"@ + format + "')"@)
    } else if holdout_every < 0 {
        Err("holdout_every must be >= 0 (0 = no held-out split)"@)
    } else {
        Ok((n, trim(kind), trim(format), trim(mode)))
    }
}

/// The view of a dataset check's result.
pub open spec fn dataset_request_view(r: Result<DatasetRequest, String>)
    -> Result<(Seq<char>, Seq<char>, Seq<char>, Seq<char>), Seq<char>>
{
    match r {
        Ok(q) => Ok((q.name@, q.kind@, q.format@, q.mode@)),
        Err(m) => Err(m@),
    }
}

fn one_of5(s: &str, a: &str, b: &str, c: &str, d: &str, e: &str) -> (r: bool)
    ensures
        r == (s@ == a@ || s@ == b@ || s@ == c@ || s@ == d@ || s@ == e@),
{
    eq_str(s, a) || eq_str(s, b) || eq_str(s, c) || eq_str(s, d) || eq_str(s, e)
}

/// The checks `dataset_add` makes of its arguments, in its order.
pub fn dataset_request(name: &str, kind: &str, format: &str, holdout_every: i64, mode: &str)
    -> (r: Result<DatasetRequest, String>)
    ensures
        dataset_request_view(r) == dataset_request_spec(name@, kind@, format@, holdout_every as int, mode@),
{
    let n = normalize(name);
    dataset_checked(name, n, kind, format, holdout_every, mode)
}

/// The checks of `dataset_request`, given the normalized name `n`.
pub fn dataset_checked(name: &str, n: String, kind: &str, format: &str, holdout_every: i64, mode: &str)
    -> (r: Result<DatasetRequest, String>)
    ensures
        dataset_request_view(r) == dataset_checks(name@, n@, kind@, format@, holdout_every as int, mode@),
{
    if !(n.as_str().unicode_len() > 0 && !builtin_pool(n.as_str()) && name_chars_only(n.as_str())) {
        return Err(concat3(
            "name must be lowercase [a-z0-9-_], non-empty, and not a built-in pool name (got '",
            name,
            "')",
        ));
    }
    let k = trim_str(kind);
    if !one_of5(k.as_str(), "cpt", "sft", "eval", "persona", "anchor") {
        return Err(concat3("kind must be cpt|sft|eval|persona|anchor (got '", kind, "')"));
    }
    let m = trim_str(mode);
    if !(eq_str(m.as_str(), "stream") || eq_str(m.as_str(), "snapshot")) {
        return Err(concat3("mode must be stream or snapshot (got '", mode, "')"));
    }
    let f = trim_str(format);
    if !(eq_str(f.as_str(), "auto") || eq_str(f.as_str(), "jsonl") || eq_str(f.as_str(), "txt")
        || eq_str(f.as_str(), "parquet")) {
        return Err(concat3("format must be auto|jsonl|txt|parquet (got '", format, "')"));
    }
    if holdout_every < 0 {
        return Err(String::from_str("holdout_every must be >= 0 (0 = no held-out split)"));
    }
    Ok(DatasetRequest { name: n, kind: k, format: f, mode: m })
}

/// Which of the three file formats occur under a dataset's source.
pub struct FormatsPresent {
    pub jsonl: bool,
    pub txt: bool,
    pub parquet: bool,
}

/// The format a dataset is registered with: `auto` takes the first of
/// jsonl, txt, parquet that has files; an explicit format must have
/// files of its own.
pub open spec fn resolve_format_spec(format: Seq<char>, p: FormatsPresent, display: Seq<char>) -> Result<Seq<char>, Seq<char>> {
    if format == "auto"@ {
        if p.jsonl {
            Ok("jsonl"@)
        } else if p.txt {
            Ok("txt"@)
        } else if p.parquet {
            Ok("parquet"@)
        } else {
            Err("no .jsonl/.txt/.parquet files under "@ + display)
        }
    } else if (format == "jsonl"@ && p.jsonl) || (format == "txt"@ && p.txt) || (format == "parquet"@ && p.parquet) {
        Ok(format)
    } else {
        Err("no ."@ + format + " files under "@ + display)
    }
}

/// Resolves the format a dataset is registered with (`format` is one of
/// auto, jsonl, txt, parquet).
pub fn resolve_format(format: &str, p: &FormatsPresent, display: &str) -> (r: Result<String, String>)
    requires
        is_dataset_format(format@),
    ensures
        match r {
            Ok(f) => resolve_format_spec(format@, *p, display@) == Ok::<Seq<char>, Seq<char>>(f@),
            Err(m) => resolve_format_spec(format@, *p, display@) == Err::<Seq<char>, Seq<char>>(m@),
        },
{
    if eq_str(format, "auto") {
        assert(format@ == "auto"@);
        if p.jsonl {
            assert(resolve_format_spec(format@, *p, display@) == Ok::<Seq<char>, Seq<char>>("jsonl"@));
            Ok(String::from_str("jsonl"))
        } else if p.txt {
            Ok(String::from_str("txt"))
        } else if p.parquet {
            Ok(String::from_str("parquet"))
        } else {
            Err(concat("no .jsonl/.txt/.parquet files under ", display))
        }
    } else if (eq_str(format, "jsonl") && p.jsonl) || (eq_str(format, "txt") && p.txt) || (eq_str(
        format,
        "parquet",
    ) && p.parquet) {
        Ok(String::from_str(format))
    } else {
        let r = concat3("no .", format, concat(" files under ", display).as_str());
        assert(r@ == "no ."@ + format@ + " files under "@ + display@);
        Err(r)
    }
}

/// Refuses a dataset name that the registry already holds.
pub fn check_new_dataset(names: &Vec<Option<String>>, name: &str) -> (r: Result<(), String>)
    ensures
        r is Ok <==> first_named(names@, name@) is None,
        r matches Err(m) ==> m@ == "dataset '"@ + name@ + "' is already registered"@,
{
    match find_named(names, name) {
        Some(_) => Err(concat3("dataset '", name, "' is already registered")),
        None => Ok(()),
    }
}

/// A registered model as anchor registration reads it: `None` for an
/// entry that is not an object.
pub struct ModelAnchor {
    pub name: Option<String>,
    pub anchor: Option<String>,
}

/// Whether registering the anchor dataset `ds` settles this model's
/// anchor: it names `ds`, or it asked for a mint whose set is named
/// `<model>-anchor` and `ds` is that set.
pub open spec fn waits_on(m: Option<ModelAnchor>, ds: Seq<char>) -> bool {
    match m {
        Some(e) => match e.anchor {
            Some(a) => a@ == ds || (a@ == "mint"@ && match e.name {
                Some(n) => n@ + "-anchor"@ == ds,
                None => false,
            }),
            None => false,
        },
        None => false,
    }
}

fn waiting(m: &Option<ModelAnchor>, ds: &str) -> (b: bool)
    ensures
        b == waits_on(*m, ds@),
{
    match m {
        Some(e) => match &e.anchor {
            Some(a) => {
                if eq_str(a.as_str(), ds) {
                    true
                } else if eq_str(a.as_str(), "mint") {
                    match &e.name {
                        Some(n) => {
                            let full = concat(n.as_str(), "-anchor");
                            eq_str(full.as_str(), ds)
                        },
                        None => false,
                    }
                } else {
                    false
                }
            },
            None => false,
        },
        None => false,
    }
}

/// The positions of the models whose anchor the dataset `ds` settles,
/// in list order: each of them is flipped to name `ds`, status `named`.
pub fn anchor_waiters(models: &Vec<Option<ModelAnchor>>, ds: &str) -> (r: Vec<usize>)
    ensures
        forall|k: int| #![trigger r@[k]] 0 <= k < r.len() ==> r@[k] < models.len() && waits_on(models@[r@[k] as int], ds@),
        forall|k: int, l: int| 0 <= k < l < r.len() ==> r@[k] < r@[l],
        forall|i: int| 0 <= i < models.len() && waits_on(#[trigger] models@[i], ds@) ==> r@.contains(i as usize),
{
    let mut r: Vec<usize> = Vec::new();
    let mut i: usize = 0;
    while i < models.len()
        invariant
            i <= models.len(),
            forall|k: int| #![trigger r@[k]] 0 <= k < r.len() ==> r@[k] < i && waits_on(models@[r@[k] as int], ds@),
            forall|k: int, l: int| 0 <= k < l < r.len() ==> r@[k] < r@[l],
            forall|j: int| 0 <= j < i && waits_on(#[trigger] models@[j], ds@) ==> r@.contains(j as usize),
        decreases models.len() - i,
    {
        let ghost before = r@;
        if waiting(&models[i], ds) {
            r.push(i);
            assert(r@ == before.push(i));
        } else {
            assert(r@ == before);
        }
        proof {
            assert forall|k: int| #![trigger r@[k]] 0 <= k < r.len() implies r@[k] < i + 1 && waits_on(models@[r@[k] as int], ds@) by {
                if k < before.len() {
                    assert(r@[k] == before[k]);
                }
            }
            assert forall|j: int| 0 <= j < i + 1 && waits_on(#[trigger] models@[j], ds@) implies r@.contains(j as usize) by {
                if j == i {
                    assert(r@[r.len() - 1] == i);
                } else {
                    assert(before.contains(j as usize));
                    let k = choose|k: int| 0 <= k < before.len() && before[k] == j as usize;
                    assert(r@[k] == j as usize);
                }
            }
        }
        i = i + 1;
    }
    r
}

/// What `dataset_derive` makes of its arguments and the registered
/// dataset names (`None` when no datasets record exists): the source
/// name, the output name and the source's position, or the error text.
pub open spec fn derive_request_spec(name: Seq<char>, out_name: Seq<char>, transform: Seq<char>, names: Option<Seq<Option<String>>>)
    -> Result<(Seq<char>, Seq<char>, int), Seq<char>>
{
    derive_checks(normalized(name), out_name, normalized(out_name), transform, names)
}

/// The checks of `derive_request_spec`, given the normalized source name
/// `n` and output name `o` (beside the output name as given).
pub open spec fn derive_checks(n: Seq<char>, out_name: Seq<char>, o: Seq<char>, transform: Seq<char>, names: Option<Seq<Option<String>>>)
    -> Result<(Seq<char>, Seq<char>, int), Seq<char>>
{
    if trim(transform) != "render_dialect"@ {
        Err("this branch ships one transform: render_dialect (got '"@ + transform + "')"@)
    } else if !dataset_name_ok(o) {
        Err("out_name must be lowercase [a-z0-9-_] and not a built-in pool name (got '"@ + out_name + "')"@)
    } else {
        match names {
            None => Err("no datasets registered"@),
            Some(l) => match first_named(l, n) {
                None => Err("dataset '"@ + n + "' is not registered"@),
                Some(i) => if first_named(l, o) is Some {
                    Err("'"@ + o + "' is already registered"@)
                } else {
                    Ok((n, o, i))
                },
            },
        }
    }
}

/// The checks `dataset_derive` makes before it asks the service.
pub fn derive_request(name: &str, out_name: &str, transform: &str, names: &Option<Vec<Option<String>>>)
    -> (r: Result<(String, String, usize), String>)
    ensures
        match r {
            Ok((n, o, i)) => derive_request_spec(name@, out_name@, transform@, match names {
                Some(l) => Some(l@),
                None => None,
            }) == Ok::<(Seq<char>, Seq<char>, int), Seq<char>>((n@, o@, i as int)),
            Err(m) => derive_request_spec(name@, out_name@, transform@, match names {
                Some(l) => Some(l@),
                None => None,
            }) == Err::<(Seq<char>, Seq<char>, int), Seq<char>>(m@),
        },
{
    let n = normalize(name);
    let o = normalize(out_name);
    derive_checked(n, out_name, o, transform, names)
}

/// The checks of `derive_request`, given the normalized source name `n`
/// and output name `o`.
pub fn derive_checked(n: String, out_name: &str, o: String, transform: &str, names: &Option<Vec<Option<String>>>)
    -> (r: Result<(String, String, usize), String>)
    ensures
        match r {
            Ok((n2, o2, i)) => derive_checks(n@, out_name@, o@, transform@, match names {
                Some(l) => Some(l@),
                None => None,
            }) == Ok::<(Seq<char>, Seq<char>, int), Seq<char>>((n2@, o2@, i as int)),
            Err(m) => derive_checks(n@, out_name@, o@, transform@, match names {
                Some(l) => Some(l@),
                None => None,
            }) == Err::<(Seq<char>, Seq<char>, int), Seq<char>>(m@),
        },
{
    let t = trim_str(transform);
    if !eq_str(t.as_str(), "render_dialect") {
        return Err(concat3("this branch ships one transform: render_dialect (got '", transform, "')"));
    }
    if !(o.as_str().unicode_len() > 0 && !builtin_pool(o.as_str()) && name_chars_only(o.as_str())) {
        return Err(concat3(
            "out_name must be lowercase [a-z0-9-_] and not a built-in pool name (got '",
            out_name,
            "')",
        ));
    }
    match names {
        None => Err(String::from_str("no datasets registered")),
        Some(l) => match find_named(l, n.as_str()) {
            None => Err(concat3("dataset '", n.as_str(), "' is not registered")),
            Some(i) => {
                if find_named(l, o.as_str()).is_some() {
                    Err(concat3("'", o.as_str(), "' is already registered"))
                } else {
                    Ok((n, o, i))
                }
            },
        },
    }
}

/// How `dataset_derive` reads the service's answer; `raw` is the body
/// as received.
pub open spec fn derive_reply_spec(raw: Seq<char>, r: ServiceReply) -> Result<(), Seq<char>> {
    match r {
        ServiceReply::Failed(_) => Err(
            "the service renders transforms (one dialect home) - bootstrap it first; stub mode serves /derive too"@,
        ),
        ServiceReply::Unreadable(e) => Err("unreadable service reply: "@ + e@),
        ServiceReply::NotJson => Err("service reply was not JSON: "@ + raw),
        ServiceReply::Json { rows, msg, .. } => if rows {
            Ok(())
        } else {
            Err("derive failed: "@ + match msg {
                Some(m) => m@,
                None => raw,
            })
        },
    }
}

fn msg_or_raw<'a>(msg: &'a Option<String>, raw: &'a str) -> (s: &'a str)
    ensures
        s@ == match msg {
            Some(m) => m@,
            None => raw@,
        },
{
    match msg {
        Some(m) => m.as_str(),
        None => raw,
    }
}

/// How `dataset_derive` reads the service's answer.
pub fn derive_reply(raw: &str, r: &ServiceReply) -> (o: Result<(), String>)
    ensures
        match o {
            Ok(()) => derive_reply_spec(raw@, *r) == Ok::<(), Seq<char>>(()),
            Err(m) => derive_reply_spec(raw@, *r) == Err::<(), Seq<char>>(m@),
        },
{
    match r {
        ServiceReply::Failed(_) => Err(String::from_str(
            "the service renders transforms (one dialect home) - bootstrap it first; stub mode serves /derive too",
        )),
        ServiceReply::Unreadable(e) => Err(concat("unreadable service reply: ", e.as_str())),
        ServiceReply::NotJson => Err(concat("service reply was not JSON: ", raw)),
        ServiceReply::Json { rows, msg, .. } => {
            if *rows {
                Ok(())
            } else {
                Err(concat("derive failed: ", msg_or_raw(msg, raw)))
            }
        },
    }
}

/// The lineage a derived dataset records: the transform and its source.
pub fn derived_lineage(source: &str) -> (s: String)
    ensures
        s@ == "derived:render_dialect:"@ + source@,
{
    concat("derived:render_dialect:", source)
}

/// What `model_remove` makes of its arguments: the normalized name and
/// its position, or the error text. `model_setting` is the current
/// `MODEL=` setting (empty when unset); `names` is `None` when no models
/// record exists.
pub open spec fn model_remove_spec(model_setting: Seq<char>, name: Seq<char>, names: Option<Seq<Option<String>>>)
    -> Result<(Seq<char>, int), Seq<char>>
{
    model_remove_checks(model_setting, normalized(name), names)
}

/// The checks of `model_remove_spec`, given the normalized name `n`.
pub open spec fn model_remove_checks(model_setting: Seq<char>, n: Seq<char>, names: Option<Seq<Option<String>>>)
    -> Result<(Seq<char>, int), Seq<char>>
{
    if model_setting == n {
        Err("refusing: MODEL= currently names '"@ + n + "' - point MODEL= elsewhere first"@)
    } else {
        match names {
            None => Err("no models registered"@),
            Some(l) => match first_named(l, n) {
                None => Err("model '"@ + n + "' is not registered"@),
                Some(i) => Ok((n, i)),
            },
        }
    }
}

/// The checks `model_remove` makes before it removes the record: the
/// model the `MODEL=` setting names is never removed.
pub fn model_remove_check(model_setting: &str, name: &str, names: &Option<Vec<Option<String>>>)
    -> (r: Result<(String, usize), String>)
    ensures
        match r {
            Ok((n, i)) => model_remove_spec(model_setting@, name@, match names {
                Some(l) => Some(l@),
                None => None,
            }) == Ok::<(Seq<char>, int), Seq<char>>((n@, i as int)),
            Err(m) => model_remove_spec(model_setting@, name@, match names {
                Some(l) => Some(l@),
                None => None,
            }) == Err::<(Seq<char>, int), Seq<char>>(m@),
        },
{
    let n = normalize(name);
    model_remove_checked(model_setting, n, names)
}

/// The checks of `model_remove_check`, given the normalized name `n`.
pub fn model_remove_checked(model_setting: &str, n: String, names: &Option<Vec<Option<String>>>)
    -> (r: Result<(String, usize), String>)
    ensures
        match r {
            Ok((n2, i)) => model_remove_checks(model_setting@, n@, match names {
                Some(l) => Some(l@),
                None => None,
            }) == Ok::<(Seq<char>, int), Seq<char>>((n2@, i as int)),
            Err(m) => model_remove_checks(model_setting@, n@, match names {
                Some(l) => Some(l@),
                None => None,
            }) == Err::<(Seq<char>, int), Seq<char>>(m@),
        },
{
    if eq_str(model_setting, n.as_str()) {
        return Err(concat3("refusing: MODEL= currently names '", n.as_str(), "' - point MODEL= elsewhere first"));
    }
    match names {
        None => Err(String::from_str("no models registered")),
        Some(l) => match find_named(l, n.as_str()) {
            None => Err(concat3("model '", n.as_str(), "' is not registered")),
            Some(i) => Ok((n, i)),
        },
    }
}

/// A recorded adapter as the adapter commands read it.
pub struct AdapterState {
    pub applied: bool,
    pub path: Option<String>,
}

/// What `adapter_delete` makes of its argument: the normalized name, its
/// position and the blob path to delete (empty when none is recorded),
/// or the error text. An applied adapter is never deleted.
pub open spec fn adapter_delete_spec(name: Seq<char>, names: Option<Seq<Option<String>>>, states: Seq<AdapterState>)
    -> Result<(Seq<char>, int, Seq<char>), Seq<char>>
{
    adapter_delete_checks(normalized(name), names, states)
}

/// The checks of `adapter_delete_spec`, given the normalized name `n`.
pub open spec fn adapter_delete_checks(n: Seq<char>, names: Option<Seq<Option<String>>>, states: Seq<AdapterState>)
    -> Result<(Seq<char>, int, Seq<char>), Seq<char>>
{
    match names {
        None => Err("no adapters recorded"@),
        Some(l) => match first_named(l, n) {
            None => Err("adapter '"@ + n + "' is not recorded"@),
            Some(i) => if states[i].applied {
                Err("refusing: '"@ + n + "' is applied - adapter_unapply it first"@)
            } else {
                Ok((n, i, match states[i].path {
                    Some(p) => p@,
                    None => Seq::<char>::empty(),
                }))
            },
        },
    }
}

/// The checks `adapter_delete` makes before it removes the record and
/// its blob; `states` runs beside the names, entry for entry.
pub fn adapter_delete_check(name: &str, names: &Option<Vec<Option<String>>>, states: &Vec<AdapterState>)
    -> (r: Result<(String, usize, String), String>)
    requires
        names matches Some(l) ==> l.len() == states.len(),
    ensures
        match r {
            Ok((n, i, p)) => adapter_delete_spec(name@, match names {
                Some(l) => Some(l@),
                None => None,
            }, states@) == Ok::<(Seq<char>, int, Seq<char>), Seq<char>>((n@, i as int, p@)),
            Err(m) => adapter_delete_spec(name@, match names {
                Some(l) => Some(l@),
                None => None,
            }, states@) == Err::<(Seq<char>, int, Seq<char>), Seq<char>>(m@),
        },
{
    let n = normalize(name);
    adapter_delete_checked(n, names, states)
}

/// The checks of `adapter_delete_check`, given the normalized name `n`.
pub fn adapter_delete_checked(n: String, names: &Option<Vec<Option<String>>>, states: &Vec<AdapterState>)
    -> (r: Result<(String, usize, String), String>)
    requires
        names matches Some(l) ==> l.len() == states.len(),
    ensures
        match r {
            Ok((n2, i, p)) => adapter_delete_checks(n@, match names {
                Some(l) => Some(l@),
                None => None,
            }, states@) == Ok::<(Seq<char>, int, Seq<char>), Seq<char>>((n2@, i as int, p@)),
            Err(m) => adapter_delete_checks(n@, match names {
                Some(l) => Some(l@),
                None => None,
            }, states@) == Err::<(Seq<char>, int, Seq<char>), Seq<char>>(m@),
        },
{
    match names {
        None => Err(String::from_str("no adapters recorded")),
        Some(l) => match find_named(l, n.as_str()) {
            None => Err(concat3("adapter '", n.as_str(), "' is not recorded")),
            Some(i) => {
                if states[i].applied {
                    Err(concat3("refusing: '", n.as_str(), "' is applied - adapter_unapply it first"))
                } else {
                    let p = match &states[i].path {
                        Some(p) => p.clone(),
                        None => String::new(),
                    };
                    Ok((n, i, p))
                }
            },
        },
    }
}

/// What `adapter_apply` makes of its argument: the normalized name and
/// the adapter's position, or the error text.
pub fn adapter_apply_check(name: &str, names: &Option<Vec<Option<String>>>) -> (r: Result<(String, usize), String>)
    ensures
        match r {
            Ok((n, i)) => n@ == normalized(name@) && (names matches Some(l) && first_named(l@, n@) == Some(i as int)),
            Err(m) => m@ == "adapter '"@ + normalized(name@) + "' is not recorded - adapter_derive it first"@
                && (names matches Some(l) ==> first_named(l@, normalized(name@)) is None),
        },
{
    let n = normalize(name);
    adapter_apply_checked(n, names)
}

/// The check of `adapter_apply_check`, given the normalized name `n`.
pub fn adapter_apply_checked(n: String, names: &Option<Vec<Option<String>>>) -> (r: Result<(String, usize), String>)
    ensures
        match r {
            Ok((n2, i)) => n2@ == n@ && (names matches Some(l) && first_named(l@, n@) == Some(i as int)),
            Err(m) => m@ == "adapter '"@ + n@ + "' is not recorded - adapter_derive it first"@
                && (names matches Some(l) ==> first_named(l@, n@) is None),
        },
{
    let found = match names {
        Some(l) => find_named(l, n.as_str()),
        None => None,
    };
    match found {
        Some(i) => Ok((n, i)),
        None => Err(concat3("adapter '", n.as_str(), "' is not recorded - adapter_derive it first")),
    }
}

/// The service route that changes the stack: apply or unapply.
pub fn adapter_route(on: bool) -> (s: String)
    ensures
        s@ == if on { "adapter_apply"@ } else { "adapter_unapply"@ },
{
    if on {
        String::from_str("adapter_apply")
    } else {
        String::from_str("adapter_unapply")
    }
}

/// How `adapter_apply` reads the service's answer (an error status still
/// carries a body, which `raw` holds): the stack serves only when the
/// service says `ok`.
pub open spec fn adapter_reply_spec(raw: Seq<char>, r: ServiceReply) -> Result<(), Seq<char>> {
    match r {
        ServiceReply::Failed(_) => Err("the service owns the stack - bootstrap it first"@),
        ServiceReply::Unreadable(_) => Err("service reply was not JSON: "@),
        ServiceReply::NotJson => Err("service reply was not JSON: "@ + raw),
        ServiceReply::Json { status, msg, .. } => if status matches Some(s) && s@ == "ok"@ {
            Ok(())
        } else {
            Err("stack change refused: "@ + match msg {
                Some(m) => m@,
                None => raw,
            })
        },
    }
}

/// How `adapter_apply` reads the service's answer.
pub fn adapter_reply(raw: &str, r: &ServiceReply) -> (o: Result<(), String>)
    ensures
        match o {
            Ok(()) => adapter_reply_spec(raw@, *r) == Ok::<(), Seq<char>>(()),
            Err(m) => adapter_reply_spec(raw@, *r) == Err::<(), Seq<char>>(m@),
        },
{
    match r {
        ServiceReply::Failed(_) => Err(String::from_str("the service owns the stack - bootstrap it first")),
        ServiceReply::Unreadable(_) => Err(String::from_str("service reply was not JSON: ")),
        ServiceReply::NotJson => Err(concat("service reply was not JSON: ", raw)),
        ServiceReply::Json { status, msg, .. } => {
            let ok = match status {
                Some(s) => eq_str(s.as_str(), "ok"),
                None => false,
            };
            if ok {
                Ok(())
            } else {
                Err(concat("stack change refused: ", msg_or_raw(msg, raw)))
            }
        },
    }
}

/// What removing a model does to its files: with `purge`, the weights
/// are deleted only when they lie in the managed weights directory (`true`:
/// purged); otherwise they stay, with a note saying why. Without `purge`
/// nothing is touched and nothing is said.
pub fn purge_outcome(purge: bool, managed: bool) -> (r: (bool, Option<String>))
    ensures
        r.0 == (purge && managed),
        match r.1 {
            Some(n) => purge && !managed && n@ == "bytes left in place - path is outside the managed weights dir"@,
            None => !(purge && !managed),
        },
{
    if purge && !managed {
        (false, Some(String::from_str("bytes left in place - path is outside the managed weights dir")))
    } else {
        (purge && managed, None)
    }
}

/// The row count and hash a dataset is registered with where they are not
/// taken from its files: a parquet dataset's rows are not counted (-1),
/// and a stream dataset's hash is `rolling`, since it keeps growing.
/// `None` means the files are counted, or hashed.
pub fn dataset_measures(format: &str, mode: &str) -> (r: (Option<i64>, Option<String>))
    ensures
        r.0 == if format@ == "parquet"@ { Some(-1i64) } else { None },
        match r.1 {
            Some(h) => mode@ == "stream"@ && h@ == "rolling"@,
            None => mode@ != "stream"@,
        },
{
    let rows = if eq_str(format, "parquet") { Some(-1i64) } else { None };
    let hash = if eq_str(mode, "stream") { Some(String::from_str("rolling")) } else { None };
    (rows, hash)
}

/// A model's footprint as import records it, from its metadata files:
/// its context length and dtype. An `hf` model takes them from its
/// config's `max_position_embeddings` and `torch_dtype` (0 and empty
/// where absent); a nanochat model is `bf16`, with the `sequence_len` of
/// the first checkpoint's metadata (0 where absent).
pub open spec fn footprint_spec(backend: Backend, max_pos: Option<i64>, torch_dtype: Option<Seq<char>>, seq_len: Option<
    i64,
>) -> (i64, Seq<char>) {
    match backend {
        Backend::Hf => (
            match max_pos {
                Some(m) => m,
                None => 0,
            },
            match torch_dtype {
                Some(d) => d,
                None => Seq::empty(),
            },
        ),
        Backend::Nanochat => (
            match seq_len {
                Some(l) => l,
                None => 0,
            },
            "bf16"@,
        ),
    }
}

/// A model's footprint (see `footprint_spec`).
pub fn model_footprint(backend: Backend, max_pos: Option<i64>, torch_dtype: Option<String>, seq_len: Option<i64>) -> (r: (
    i64,
    String,
))
    ensures
        (r.0, r.1@) == footprint_spec(backend, max_pos, match torch_dtype {
            Some(d) => Some(d@),
            None => None,
        }, seq_len),
{
    match backend {
        Backend::Hf => {
            let n = match max_pos {
                Some(m) => m,
                None => 0,
            };
            let d = match torch_dtype {
                Some(t) => t,
                None => String::new(),
            };
            (n, d)
        },
        Backend::Nanochat => {
            let n = match seq_len {
                Some(l) => l,
                None => 0,
            };
            (n, String::from_str("bf16"))
        },
    }
}

/// `auto` picks formats in the order jsonl, txt, parquet: the format it
/// picks has files, and none before it in that order does; it fails only
/// when none of the three has files.
pub proof fn law_auto_format_order(p: FormatsPresent, display: Seq<char>)
    ensures
        resolve_format_spec("auto"@, p, display) is Ok <==> (p.jsonl || p.txt || p.parquet),
        p.jsonl ==> resolve_format_spec("auto"@, p, display) == Ok::<Seq<char>, Seq<char>>("jsonl"@),
        !p.jsonl && p.txt ==> resolve_format_spec("auto"@, p, display) == Ok::<Seq<char>, Seq<char>>("txt"@),
        !p.jsonl && !p.txt && p.parquet ==> resolve_format_spec("auto"@, p, display) == Ok::<Seq<char>, Seq<
            char,
        >>("parquet"@),
{
}

} // verus!
