//! The model service the agent runs for itself: how a setting is read,
//! where the service listens, the shell commands that build its
//! environment and launch it, how the bootstrap stages end, and the
//! training log tail shown while a base run is going.
use vstd::prelude::*;
use crate::settings::{lines_of, split_lines};
use crate::text::{chars_vec, concat3, concat5, eq_str, string_of, take_chars, take_str, trim, trim_str};

verus! {

/// A runtime setting's value: the stored value, trimmed, unless it is
/// missing or blank; then the default.
pub open spec fn setting_or_spec(stored: Option<Seq<char>>, default: Seq<char>) -> Seq<char> {
    match stored {
        Some(v) => if trim(v).len() > 0 { trim(v) } else { default },
        None => default,
    }
}

/// A runtime setting's value (see `setting_or_spec`).
pub fn setting_or(stored: Option<&str>, default: &str) -> (r: String)
    ensures
        r@ == setting_or_spec(match stored {
            Some(v) => Some(v@),
            None => None,
        }, default@),
{
    match stored {
        Some(v) => {
            let t = trim_str(v);
            if t.as_str().unicode_len() > 0 {
                t
            } else {
                String::from_str(default)
            }
        },
        None => String::from_str(default),
    }
}

/// The default port of the model service.
pub open spec fn default_port() -> Seq<char> {
    "8077"@
}

/// The address of an endpoint of the service listening on `port`
/// (`path` is empty or starts with `/`).
pub open spec fn endpoint_spec(port: Seq<char>, path: Seq<char>) -> Seq<char> {
    "http://127.0.0.1:"@ + port + path
}

/// The address of an endpoint of the service (see `endpoint_spec`).
pub fn endpoint(port: &str, path: &str) -> (r: String)
    ensures
        r@ == endpoint_spec(port@, path@),
{
    concat3("http://127.0.0.1:", port, path)
}

/// The checkpoint setting that means no real model: the stdlib stub.
pub open spec fn is_stub(checkpoint: Seq<char>) -> bool {
    checkpoint == "stub"@
}

/// What the first bootstrap stage does about the nanochat environment.
pub enum EnvStage {
    /// The stub needs none.
    NotNeeded,
    /// It was built before (its sentinel and its venv are there).
    Ready,
    /// It must be (re)built.
    Install,
}

/// What the first stage does, given the checkpoint setting and whether
/// the environment's success sentinel and venv exist.
pub fn env_stage(checkpoint: &str, sentinel: bool, venv: bool) -> (s: EnvStage)
    ensures
        is_stub(checkpoint@) ==> s is NotNeeded,
        !is_stub(checkpoint@) && sentinel && venv ==> s is Ready,
        !is_stub(checkpoint@) && !(sentinel && venv) ==> s is Install,
{
    if eq_str(checkpoint, "stub") {
        EnvStage::NotNeeded
    } else if sentinel && venv {
        EnvStage::Ready
    } else {
        EnvStage::Install
    }
}

/// The shell command that builds the nanochat environment under `deps`
/// from `repo`; its last act writes the success sentinel, so a failed
/// step never marks the environment ready.
pub open spec fn env_install_spec(deps: Seq<char>, repo: Seq<char>) -> Seq<char> {
    "set -e; cd "@ + deps + "; git clone "@ + repo
        + " nanochat; cd nanochat; python3 -m venv venv; source venv/bin/activate; pip install --upgrade pip setuptools wheel; python3 -c 'import tomllib; print(\"\\n\".join(tomllib.load(open(\"pyproject.toml\",\"rb\"))[\"project\"][\"dependencies\"]))' > .deps.txt; pip install -r .deps.txt; touch env_ready"@
}

/// The environment build command (see `env_install_spec`).
pub fn env_install_command(deps: &str, repo: &str) -> (c: String)
    ensures
        c@ == env_install_spec(deps@, repo@),
{
    concat5(
        "set -e; cd ",
        deps,
        "; git clone ",
        repo,
        " nanochat; cd nanochat; python3 -m venv venv; source venv/bin/activate; pip install --upgrade pip setuptools wheel; python3 -c 'import tomllib; print(\"\\n\".join(tomllib.load(open(\"pyproject.toml\",\"rb\"))[\"project\"][\"dependencies\"]))' > .deps.txt; pip install -r .deps.txt; touch env_ready",
    )
}

/// How the first stage ends after a build: by whether the sentinel now
/// exists.
pub open spec fn env_after_install_spec(sentinel: bool) -> Seq<char> {
    if sentinel { "installed"@ } else { "install_failed"@ }
}

/// How the first stage ends after a build.
pub fn env_after_install(sentinel: bool) -> (s: String)
    ensures
        s@ == env_after_install_spec(sentinel),
{
    if sentinel {
        String::from_str("installed")
    } else {
        String::from_str("install_failed")
    }
}

/// The shell command that launches the service from the agent's root:
/// the stub runs on the system python; a real checkpoint on the venv's
/// python (`venv_python`) with `PYTHONPATH` at the clone (`clone`).
pub open spec fn launch_spec(root: Seq<char>, checkpoint: Seq<char>, port: Seq<char>, clone: Seq<char>,
    venv_python: Seq<char>) -> Seq<char>
{
    let (py, envprefix) = if is_stub(checkpoint) {
        ("python3"@, Seq::<char>::empty())
    } else {
        (venv_python, "PYTHONPATH='"@ + clone + "' "@)
    };
    "cd "@ + root + "; "@ + envprefix + "nohup '"@ + py
        + "' runtime/agent/model/service.py --data-dir runtime/agent/model --port "@ + port + " --checkpoint '"@
        + checkpoint + "' >> runtime/agent/model/service.log 2>&1 &"@
}

/// The launch command (see `launch_spec`).
pub fn launch_command(root: &str, checkpoint: &str, port: &str, clone: &str, venv_python: &str) -> (c: String)
    ensures
        c@ == launch_spec(root@, checkpoint@, port@, clone@, venv_python@),
{
    let (py, envprefix) = if eq_str(checkpoint, "stub") {
        (String::from_str("python3"), String::new())
    } else {
        (String::from_str(venv_python), concat3("PYTHONPATH='", clone, "' "))
    };
    let a = concat5("cd ", root, "; ", envprefix.as_str(), "nohup '");
    let b = concat5(
        a.as_str(),
        py.as_str(),
        "' runtime/agent/model/service.py --data-dir runtime/agent/model --port ",
        port,
        " --checkpoint '",
    );
    let c = concat3(b.as_str(), checkpoint, "' >> runtime/agent/model/service.log 2>&1 &");
    assert(c@ =~= launch_spec(root@, checkpoint@, port@, clone@, venv_python@));
    c
}

/// How the launch stage ends: by whether the service answered before,
/// and (when it had to be launched) after.
pub open spec fn launch_outcome_spec(before: bool, after: bool) -> Seq<char> {
    if before {
        "already_running"@
    } else if after {
        "launched"@
    } else {
        "launch_failed"@
    }
}

/// How the launch stage ends (see `launch_outcome_spec`).
pub fn launch_outcome(before: bool, after: bool) -> (s: String)
    ensures
        s@ == launch_outcome_spec(before, after),
{
    if before {
        String::from_str("already_running")
    } else if after {
        String::from_str("launched")
    } else {
        String::from_str("launch_failed")
    }
}

/// Whether a bootstrap succeeded: neither the build nor the launch failed.
pub fn bootstrap_ok(env: &str, service: &str) -> (ok: bool)
    ensures
        ok == (env@ != "install_failed"@ && service@ != "launch_failed"@),
{
    !eq_str(env, "install_failed") && !eq_str(service, "launch_failed")
}

/// The most lines of the training log shown.
pub const LOG_TAIL_LINES: usize = 25;

/// The most characters of a training log line shown.
pub const LOG_LINE_WIDTH: usize = 220;

/// The tail of the training log: its last `LOG_TAIL_LINES` lines, each
/// cut to `LOG_LINE_WIDTH` characters.
pub open spec fn log_tail_spec(log: Seq<char>) -> Seq<Seq<char>> {
    let all = lines_of(log);
    let start = if all.len() > LOG_TAIL_LINES { all.len() - LOG_TAIL_LINES } else { 0 };
    all.skip(start).map_values(|l: Seq<char>| take_chars(l, LOG_LINE_WIDTH as int))
}

/// The tail of the training log (see `log_tail_spec`).
pub fn log_tail(log: &str) -> (r: Vec<String>)
    ensures
        r@.map_values(|l: String| l@) == log_tail_spec(log@),
{
    let all = split_lines(log);
    let ghost av = all@.map_values(|l: String| l@);
    let start: usize = if all.len() > LOG_TAIL_LINES { all.len() - LOG_TAIL_LINES } else { 0 };
    let mut r: Vec<String> = Vec::new();
    let mut i: usize = start;
    while i < all.len()
        invariant
            start <= i <= all.len(),
            av == all@.map_values(|l: String| l@),
            r@.map_values(|l: String| l@) == av.subrange(start as int, i as int).map_values(
                |l: Seq<char>| take_chars(l, LOG_LINE_WIDTH as int),
            ),
        decreases all.len() - i,
    {
        let ghost before = r@.map_values(|l: String| l@);
        assert(av[i as int] == all@[i as int]@);
        assert(av.subrange(start as int, i + 1) =~= av.subrange(start as int, i as int).push(av[i as int]));
        r.push(take_str(all[i].as_str(), LOG_LINE_WIDTH));
        assert(r@.map_values(|l: String| l@) =~= before.push(take_chars(av[i as int], LOG_LINE_WIDTH as int)));
        assert(av.subrange(start as int, i + 1).map_values(|l: Seq<char>| take_chars(l, LOG_LINE_WIDTH as int))
            =~= av.subrange(start as int, i as int).map_values(|l: Seq<char>| take_chars(l, LOG_LINE_WIDTH as int)).push(
            take_chars(av[i as int], LOG_LINE_WIDTH as int)));
        assert(r@.map_values(|l: String| l@) =~= av.subrange(start as int, i + 1).map_values(
            |l: Seq<char>| take_chars(l, LOG_LINE_WIDTH as int),
        ));
        i = i + 1;
    }
    assert(av.subrange(start as int, all.len() as int) =~= av.skip(start as int));
    r
}

/// The error when the service cannot be reached at `url`; `why` is the
/// transport error, and `hint` what the command adds (empty for none).
pub fn unreachable_msg(url: &str, hint: &str, why: &str) -> (m: String)
    ensures
        m@ == "model service unreachable at "@ + url@ + hint@ + ": "@ + why@,
{
    concat5("model service unreachable at ", url, hint, ": ", why)
}

/// `s` without its trailing slashes.
pub open spec fn strip_slashes(s: Seq<char>) -> Seq<char>
    decreases s.len(),
{
    if s.len() > 0 && s.last() == '/' {
        strip_slashes(s.drop_last())
    } else {
        s
    }
}

/// The salience scorer's base address: the stored `MODEL_SERVICE_URL`,
/// trimmed and without trailing slashes, unless it is missing or blank;
/// then the service's default address.
pub open spec fn salience_base_spec(stored: Option<Seq<char>>) -> Seq<char> {
    match stored {
        Some(v) => if trim(v).len() > 0 { strip_slashes(trim(v)) } else { endpoint_spec(default_port(), Seq::empty()) },
        None => endpoint_spec(default_port(), Seq::empty()),
    }
}

/// The salience scorer's base address (see `salience_base_spec`).
pub fn salience_base(stored: Option<&str>) -> (r: String)
    ensures
        r@ == salience_base_spec(match stored {
            Some(v) => Some(v@),
            None => None,
        }),
{
    let fallback = endpoint("8077", "");
    proof {
        reveal_strlit("");
    }
    match stored {
        Some(v) => {
            let t = chars_vec(trim_str(v).as_str());
            if t.len() == 0 {
                return fallback;
            }
            let mut n: usize = t.len();
            assert(t@.take(t.len() as int) =~= t@);
            while n > 0 && t[n - 1] == '/'
                invariant
                    n <= t.len(),
                    strip_slashes(t@) == strip_slashes(t@.take(n as int)),
                decreases n,
            {
                assert(t@.take(n as int).drop_last() =~= t@.take(n - 1));
                n = n - 1;
            }
            let mut out: Vec<char> = Vec::new();
            let mut k: usize = 0;
            while k < n
                invariant
                    k <= n,
                    n <= t.len(),
                    out@ == t@.take(k as int),
                decreases n - k,
            {
                out.push(t[k]);
                assert(t@.take(k + 1) == t@.take(k as int).push(t@[k as int]));
                k = k + 1;
            }
            assert(strip_slashes(t@.take(n as int)) == t@.take(n as int));
            string_of(&out)
        },
        None => fallback,
    }
}

/// How a call to the model service ended, as far as its reply is read.
pub enum CallEnd {
    /// It answered; `json` is whether the body parsed as a JSON object,
    /// `has_status` whether that object has a `status`.
    Answered { json: bool, has_status: bool },
    /// It answered with an error status, for the reason given; `json` is
    /// whether the body parsed as a JSON object.
    Refused { json: bool, reason: String },
    /// Its body could not be read, for the reason given.
    Unreadable(String),
    /// It could not be reached, for the reason given.
    Unreachable(String),
}

/// The error a plain call to `url` reports, or `None` when the JSON it
/// got back is the result: an answer that is no JSON object is an error;
/// an error status counts as an answer only where the command names its
/// own message for a non-JSON error body (`status_body`); a body that
/// cannot be read, or any other failure, is reported with its reason.
pub open spec fn plain_reply_spec(url: Seq<char>, hint: Seq<char>, status_body: Option<Seq<char>>, end: CallEnd) -> Option<
    Seq<char>,
> {
    match end {
        CallEnd::Answered { json, has_status } => if json {
            None
        } else {
            Some("service answered non-JSON at "@ + url)
        },
        CallEnd::Refused { json, reason } => match status_body {
            Some(b) => if json {
                None
            } else {
                Some(b)
            },
            None => Some("model service unreachable at "@ + url + hint + ": "@ + reason@),
        },
        CallEnd::Unreadable(e) => Some("service read failed: "@ + e@),
        CallEnd::Unreachable(e) => Some("model service unreachable at "@ + url + hint + ": "@ + e@),
    }
}

/// The error a plain call reports (see `plain_reply_spec`).
pub fn plain_reply(url: &str, hint: &str, status_body: Option<&str>, end: &CallEnd) -> (r: Option<String>)
    ensures
        match r {
            Some(m) => plain_reply_spec(url@, hint@, match status_body {
                Some(b) => Some(b@),
                None => None,
            }, *end) == Some(m@),
            None => plain_reply_spec(url@, hint@, match status_body {
                Some(b) => Some(b@),
                None => None,
            }, *end) is None,
        },
{
    proof {
        reveal_strlit("");
    }
    match end {
        CallEnd::Answered { json, has_status: _ } => if *json {
            None
        } else {
            Some(concat3("service answered non-JSON at ", url, ""))
        },
        CallEnd::Refused { json, reason } => match status_body {
            Some(b) => if *json {
                None
            } else {
                Some(String::from_str(b))
            },
            None => Some(unreachable_msg(url, hint, reason.as_str())),
        },
        CallEnd::Unreadable(e) => Some(concat3("service read failed: ", e.as_str(), "")),
        CallEnd::Unreachable(e) => Some(unreachable_msg(url, hint, e.as_str())),
    }
}

/// What the salience call to `url` makes of its end: `Ok` when the JSON
/// it got back is the result, with the `status` to add (`ok`, where the
/// answer has none); otherwise the error. Every failure short of an
/// answer, an error status included, counts as the service unreachable.
pub open spec fn salience_reply_spec(url: Seq<char>, end: CallEnd) -> Result<Option<Seq<char>>, Seq<char>> {
    match end {
        CallEnd::Answered { json, has_status } => if !json {
            Err("model service answered non-JSON at "@ + url)
        } else if has_status {
            Ok(None)
        } else {
            Ok(Some("ok"@))
        },
        CallEnd::Refused { json, reason } => Err("model service unreachable at "@ + url + ": "@ + reason@),
        CallEnd::Unreadable(e) => Err("model service read failed: "@ + e@),
        CallEnd::Unreachable(e) => Err("model service unreachable at "@ + url + ": "@ + e@),
    }
}

/// What the salience call makes of its end (see `salience_reply_spec`).
pub fn salience_reply(url: &str, end: &CallEnd) -> (r: Result<Option<String>, String>)
    ensures
        match r {
            Ok(Some(x)) => salience_reply_spec(url@, *end) == Ok::<Option<Seq<char>>, Seq<char>>(Some(x@)),
            Ok(None) => salience_reply_spec(url@, *end) == Ok::<Option<Seq<char>>, Seq<char>>(None),
            Err(m) => salience_reply_spec(url@, *end) == Err::<Option<Seq<char>>, Seq<char>>(m@),
        },
{
    proof {
        reveal_strlit("");
    }
    match end {
        CallEnd::Answered { json, has_status } => if !*json {
            Err(concat3("model service answered non-JSON at ", url, ""))
        } else if *has_status {
            Ok(None)
        } else {
            Ok(Some(String::from_str("ok")))
        },
        CallEnd::Refused { json: _, reason } => Err(unreachable_msg(url, "", reason.as_str())),
        CallEnd::Unreadable(e) => Err(concat3("model service read failed: ", e.as_str(), "")),
        CallEnd::Unreachable(e) => Err(unreachable_msg(url, "", e.as_str())),
    }
}

} // verus!
