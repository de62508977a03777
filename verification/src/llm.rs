//! The one-shot question to the frontier model: the conversation it
//! sends, how the model's answer is read (a failure always begins with
//! `ERROR: `, which the archivist's sweep relies on), and the prompt that
//! asks for a command's description.
use vstd::prelude::*;
use crate::text::{concat, concat3, concat5, has_prefix, trim, trim_str};

verus! {

/// A message of a conversation.
pub struct Message {
    pub role: String,
    pub content: String,
}

/// The conversation a one-shot question sends: the system prompt first
/// when there is a non-blank one, then the user's prompt.
pub open spec fn ask_messages_spec(prompt: Seq<char>, system: Seq<char>) -> Seq<(Seq<char>, Seq<char>)> {
    if trim(system).len() > 0 {
        seq![("system"@, system), ("user"@, prompt)]
    } else {
        seq![("user"@, prompt)]
    }
}

/// The conversation a one-shot question sends (see `ask_messages_spec`);
/// `system` is empty when no system prompt is given.
pub fn ask_messages(prompt: &str, system: &str) -> (m: Vec<Message>)
    ensures
        m@.map_values(|x: Message| (x.role@, x.content@)) == ask_messages_spec(prompt@, system@),
{
    let mut m: Vec<Message> = Vec::new();
    let t = trim_str(system);
    if t.as_str().unicode_len() > 0 {
        m.push(Message { role: String::from_str("system"), content: String::from_str(system) });
    }
    m.push(Message { role: String::from_str("user"), content: String::from_str(prompt) });
    assert(m@.map_values(|x: Message| (x.role@, x.content@)) =~= ask_messages_spec(prompt@, system@));
    m
}

/// What a one-shot question returns for the model's answer, given its
/// `kind` and `content` (each `None` when absent): the text of a text
/// answer; for a tool-call answer (no tools were offered) its text when
/// there is any, else an error; anything else is an error carrying the
/// answer's content.
pub open spec fn ask_answer_spec(kind: Option<Seq<char>>, content: Option<Seq<char>>) -> Seq<char> {
    let c = match content {
        Some(c) => c,
        None => Seq::empty(),
    };
    match kind {
        Some(k) => if k == "text"@ {
            c
        } else if k == "tool_calls"@ {
            if trim(c).len() > 0 {
                c
            } else {
                "ERROR: the provider answered with tool calls although no tools were offered"@
            }
        } else {
            "ERROR: "@ + match content {
                Some(c) => c,
                None => "LLM call failed"@,
            }
        },
        None => "ERROR: "@ + match content {
            Some(c) => c,
            None => "LLM call failed"@,
        },
    }
}

/// What a one-shot question returns (see `ask_answer_spec`).
pub fn ask_answer(kind: Option<&str>, content: Option<&str>) -> (r: String)
    ensures
        r@ == ask_answer_spec(match kind {
            Some(k) => Some(k@),
            None => None,
        }, match content {
            Some(c) => Some(c@),
            None => None,
        }),
{
    let c: &str = match content {
        Some(c) => c,
        None => "",
    };
    proof {
        reveal_strlit("");
    }
    let failed = match content {
        Some(c) => concat("ERROR: ", c),
        None => String::from_str("ERROR: LLM call failed"),
    };
    proof {
        reveal_strlit("ERROR: LLM call failed");
        reveal_strlit("ERROR: ");
        reveal_strlit("LLM call failed");
        assert(content is None ==> failed@ =~= "ERROR: "@ + "LLM call failed"@);
    }
    match kind {
        Some(k) => {
            if crate::text::eq_str(k, "text") {
                String::from_str(c)
            } else if crate::text::eq_str(k, "tool_calls") {
                let t = trim_str(c);
                if t.as_str().unicode_len() > 0 {
                    String::from_str(c)
                } else {
                    String::from_str("ERROR: the provider answered with tool calls although no tools were offered")
                }
            } else {
                failed
            }
        },
        None => failed,
    }
}

/// A failed answer is marked: whatever the model answered, a one-shot
/// question's result that is not the model's own text begins with
/// `ERROR: `.
pub proof fn law_failure_marked(kind: Option<Seq<char>>, content: Option<Seq<char>>)
    requires
        !(kind matches Some(k) && (k == "text"@ || (k == "tool_calls"@ && (content matches Some(c) && trim(c).len() > 0)))),
    ensures
        has_prefix(ask_answer_spec(kind, content), "ERROR: "@),
{
    reveal_strlit("ERROR: ");
    reveal_strlit("ERROR: the provider answered with tool calls although no tools were offered");
    let r = ask_answer_spec(kind, content);
    let p = "ERROR: "@;
    if kind matches Some(k) && k == "tool_calls"@ {
        assert(r.take(7) =~= p);
    } else {
        let c = match content {
            Some(c) => c,
            None => "LLM call failed"@,
        };
        assert(r == p + c);
        assert(r.take(7) =~= p);
    }
}

/// A parameter of a command, as its description prompt lists it.
pub struct ParamInfo {
    pub name: String,
    pub kind: String,
    pub desc: String,
}

/// One parameter's line of the prompt.
pub open spec fn param_line(name: Seq<char>, kind: Seq<char>, desc: Seq<char>) -> Seq<char> {
    "\n  - Name: \""@ + name + "\", Type: \""@ + kind + "\""@ + if desc.len() > 0 {
        ", Current Description: \""@ + desc + "\""@
    } else {
        Seq::empty()
    }
}

/// The parameters' lines.
pub open spec fn param_lines(ps: Seq<(Seq<char>, Seq<char>, Seq<char>)>) -> Seq<char>
    decreases ps.len(),
{
    if ps.len() == 0 {
        Seq::empty()
    } else {
        param_lines(ps.drop_last()) + param_line(ps.last().0, ps.last().1, ps.last().2)
    }
}

/// A fenced block of `lang` with its title, when `body` is not empty.
pub open spec fn fenced(title: Seq<char>, lang: Seq<char>, body: Seq<char>) -> Seq<char> {
    if body.len() > 0 {
        "\n\n"@ + title + ":\n```"@ + lang + "\n"@ + body + "\n```"@
    } else {
        Seq::empty()
    }
}

/// The prompt that asks for a command's description.
pub open spec fn describe_prompt_spec(name: Seq<char>, lang: Seq<char>, returntype: Seq<char>, groups: Seq<char>,
    params: Seq<(Seq<char>, Seq<char>, Seq<char>)>, imports: Seq<char>, code: Seq<char>, current: Seq<char>) -> Seq<char>
{
    "You are an AI assistant tasked with generating a concise and informative description for a backend command in the Newbound IDE.\n\n--- COMMAND DETAILS ---\nCommand Name: \""@
        + name + "\"\nLanguage: \""@ + lang + "\"\nReturn Type: \""@ + returntype + "\""@
        + (if groups.len() > 0 { "\nGroups: \""@ + groups + "\""@ } else { Seq::empty() })
        + (if params.len() > 0 { "\n\nParameters:"@ + param_lines(params) } else { "\n\nParameters: None"@ })
        + fenced("Imports"@, lang, imports) + fenced("Code Snippet"@, lang, code)
        + "\n\n--- INSTRUCTIONS ---\nBased on the above command details, generate a new, concise, and professional description for this command.\nFocus on what the command *does*, its *purpose*, and its *inputs/outputs*.\nKeep it to 1-3 sentences."@
        + (if current.len() > 0 {
            "\n\nExisting Description (improve if necessary): \""@ + current + "\""@
        } else {
            "\n\nNo existing description provided. Generate a new one."@
        })
        + "\n\nNew Command Description:"@
}

fn push_fenced(out: &mut String, title: &str, lang: &str, body: &str)
    ensures
        final(out)@ == old(out)@ + fenced(title@, lang@, body@),
{
    if body.unicode_len() > 0 {
        let a = concat5(out.as_str(), "\n\n", title, ":\n```", lang);
        *out = concat5(a.as_str(), "\n", body, "\n```", "");
        proof {
            reveal_strlit("");
        }
        assert(out@ =~= old(out)@ + fenced(title@, lang@, body@));
    } else {
        assert(old(out)@ + Seq::<char>::empty() =~= old(out)@);
    }
}

/// The prompt that asks for a command's description (see
/// `describe_prompt_spec`); an empty `desc` of a parameter means it has
/// none.
pub fn describe_prompt(name: &str, lang: &str, returntype: &str, groups: &str, params: &Vec<ParamInfo>,
    imports: &str, code: &str, current: &str) -> (p: String)
    ensures
        p@ == describe_prompt_spec(name@, lang@, returntype@, groups@,
            params@.map_values(|x: ParamInfo| (x.name@, x.kind@, x.desc@)), imports@, code@, current@),
{
    let ghost pv = params@.map_values(|x: ParamInfo| (x.name@, x.kind@, x.desc@));
    let a = concat5(
        "You are an AI assistant tasked with generating a concise and informative description for a backend command in the Newbound IDE.\n\n--- COMMAND DETAILS ---\nCommand Name: \"",
        name,
        "\"\nLanguage: \"",
        lang,
        "\"\nReturn Type: \"",
    );
    let mut out = concat3(a.as_str(), returntype, "\"");
    if groups.unicode_len() > 0 {
        out = concat5(out.as_str(), "\nGroups: \"", groups, "\"", "");
        proof {
            reveal_strlit("");
        }
    }
    let ghost after_groups = out@;
    if params.len() > 0 {
        out = concat(out.as_str(), "\n\nParameters:");
        let ghost base = out@;
        let mut i: usize = 0;
        while i < params.len()
            invariant
                i <= params.len(),
                pv == params@.map_values(|x: ParamInfo| (x.name@, x.kind@, x.desc@)),
                out@ == base + param_lines(pv.take(i as int)),
            decreases params.len() - i,
        {
            assert(pv.take(i + 1).drop_last() == pv.take(i as int));
            assert(pv.take(i + 1).last() == (params@[i as int].name@, params@[i as int].kind@, params@[i as int].desc@));
            let p = &params[i];
            let line = concat5("\n  - Name: \"", p.name.as_str(), "\", Type: \"", p.kind.as_str(), "\"");
            if p.desc.as_str().unicode_len() > 0 {
                let d = concat3(", Current Description: \"", p.desc.as_str(), "\"");
                out = concat3(out.as_str(), line.as_str(), d.as_str());
            } else {
                out = concat(out.as_str(), line.as_str());
                assert(line@ + Seq::<char>::empty() =~= line@);
            }
            i = i + 1;
        }
        assert(pv.take(params.len() as int) == pv);
    } else {
        out = concat(out.as_str(), "\n\nParameters: None");
    }
    push_fenced(&mut out, "Imports", lang, imports);
    push_fenced(&mut out, "Code Snippet", lang, code);
    out = concat(
        out.as_str(),
        "\n\n--- INSTRUCTIONS ---\nBased on the above command details, generate a new, concise, and professional description for this command.\nFocus on what the command *does*, its *purpose*, and its *inputs/outputs*.\nKeep it to 1-3 sentences.",
    );
    if current.unicode_len() > 0 {
        out = concat3(out.as_str(), "\n\nExisting Description (improve if necessary): \"", current);
        out = concat(out.as_str(), "\"");
    } else {
        out = concat(out.as_str(), "\n\nNo existing description provided. Generate a new one.");
    }
    out = concat(out.as_str(), "\n\nNew Command Description:");
    proof {
        reveal_strlit("");
    }
    assert(out@ =~= describe_prompt_spec(name@, lang@, returntype@, groups@, pv, imports@, code@, current@));
    out
}

/// Why the tool loop refuses to run without its core prompt.
pub open spec fn missing_core_msg() -> Seq<char> {
    "agent.prompts `prompt` facet unavailable - the curriculum is store-resident (docs/prompting.md); pull canon"@
}

/// The core of the tool loop's system prompt, from the stored `prompt`
/// facet (`None` when there is none): a blank or missing facet refuses
/// the loop rather than run it with a thin prompt.
pub fn core_prompt(stored: Option<&str>) -> (r: Result<String, String>)
    ensures
        match stored {
            Some(p) => if trim(p@).len() > 0 {
                r matches Ok(x) && x@ == p@
            } else {
                r matches Err(m) && m@ == missing_core_msg()
            },
            None => r matches Err(m) && m@ == missing_core_msg(),
        },
{
    if let Some(p) = stored {
        let t = trim_str(p);
        if t.as_str().unicode_len() > 0 {
            return Ok(String::from_str(p));
        }
    }
    Err(
        String::from_str(
            "agent.prompts `prompt` facet unavailable - the curriculum is store-resident (docs/prompting.md); pull canon",
        ),
    )
}

} // verus!
