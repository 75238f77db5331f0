//! The system prompts of the chat modes and the skills appended to them.
use vstd::prelude::*;

use crate::mode::AgentMode;
use crate::paths::{self, path_join};
use crate::text::{self, chars_of, string_of, push_str, trim_str};
use crate::tools::{self, join_strings};

verus! {

/// System prompt of Ask mode.
pub const ASK_SYSTEM_PROMPT: &'static str = "You are an autonomous software engineering assistant embedded in the DevForge code editor.\n\nYou are currently in Ask mode:\n- You may inspect the workspace using tools.\n- You must NOT modify files, run mutating shell commands, or perform git writes.\n- Prefer tools over guessing file contents.\n- Prefer minimal, accurate answers grounded in the project.\n- Never expose secrets. If a file looks like credentials, refuse and explain.\n- After finishing, give a concise summary.\n\nRules:\n1. Inspect before answering about code.\n2. Never assume file contents — read them.\n3. Use tools to verify information.\n4. Prefer minimal explanations that cite paths.\n5. Preserve existing architecture advice.\n6. Do not invent APIs or files that do not exist.\n";

/// System prompt of Edit mode.
pub const EDIT_SYSTEM_PROMPT: &'static str = "You are an autonomous software engineering assistant embedded in the DevForge code editor.\n\nYou are currently in Edit mode:\n- Inspect the workspace with read tools, then apply focused code changes with write tools.\n- Prefer `str_replace` for surgical edits; use `write_file` for new files or full rewrites.\n- Do not run shell/git commands. Stay within the workspace root.\n- Never expose secrets. Refuse edits to credential files (.env, keys, etc.).\n- After changes, briefly summarize what you changed and why.\n\nRules:\n1. Read before editing.\n2. Keep diffs minimal and match existing style.\n3. Do not invent APIs or files that do not exist.\n4. If unsure, ask — do not spray speculative edits.\n";

/// System prompt of Agent mode.
pub const AGENT_SYSTEM_PROMPT: &'static str = "You are an autonomous software engineering assistant embedded in the DevForge code editor.\n\nYou are currently in Agent mode:\n- Plan briefly, then use tools to inspect and modify the workspace until the task is done.\n- Prefer `str_replace` for surgical edits; use `write_file` for new files or full rewrites.\n- You may create directories when needed. Stay within the workspace root.\n- Never expose secrets. Refuse edits to credential files (.env, keys, etc.).\n- Iterate with tools; do not stop after a single guess if verification is needed.\n- End with a concise summary of actions and results.\n\nRules:\n1. Inspect before changing.\n2. Prefer minimal, correct changes over large rewrites.\n3. Verify with read/search tools after edits when useful.\n4. Do not invent APIs or files that do not exist.\n";

/// The system prompt of a mode.
pub fn system_prompt(mode: AgentMode) -> (r: &'static str)
    ensures
        r@ == match mode {
            AgentMode::Ask => ASK_SYSTEM_PROMPT@,
            AgentMode::Edit => EDIT_SYSTEM_PROMPT@,
            AgentMode::Agent => AGENT_SYSTEM_PROMPT@,
        },
{
    match mode {
        AgentMode::Ask => ASK_SYSTEM_PROMPT,
        AgentMode::Edit => EDIT_SYSTEM_PROMPT,
        AgentMode::Agent => AGENT_SYSTEM_PROMPT,
    }
}

/// The chunk of one skill file: its name (the file stem, `skill` when there
/// is none) and its trimmed text; nothing when the text is blank.
pub open spec fn skill_chunk(stem: Option<Seq<char>>, content: Seq<char>) -> Option<Seq<char>> {
    let t = text::trim(content);
    if t.len() == 0 {
        None
    } else {
        Some("### Skill: "@ + (match stem {
            Some(s) => s,
            None => "skill"@,
        }) + "\n"@ + t)
    }
}

pub open spec fn skill_chunks(files: Seq<(Option<Seq<char>>, Seq<char>)>) -> Seq<Seq<char>>
    decreases files.len(),
{
    if files.len() == 0 {
        Seq::empty()
    } else {
        let prev = skill_chunks(files.drop_last());
        match skill_chunk(files.last().0, files.last().1) {
            Some(c) => prev.push(c),
            None => prev,
        }
    }
}

/// The skills section of the system prompt, for the skill files read (in
/// order): nothing when no file has text.
pub open spec fn spec_skills_prompt(files: Seq<(Option<Seq<char>>, Seq<char>)>) -> Seq<char> {
    let chunks = skill_chunks(files);
    if chunks.len() == 0 {
        Seq::empty()
    } else {
        "\n\n# Agent Skills\nFollow these skills when relevant:\n\n"@ + tools::join(chunks, "\n\n"@)
    }
}

pub open spec fn files_view(files: Seq<(Option<String>, String)>) -> Seq<(Option<Seq<char>>, Seq<char>)> {
    files.map_values(|f: (Option<String>, String)| (match f.0 {
        Some(s) => Some(s@),
        None => None,
    }, f.1@))
}

/// The skills section for the skill files read: `(file stem, text)` each.
pub fn skills_prompt(files: &Vec<(Option<String>, String)>) -> (r: String)
    ensures
        r@ == spec_skills_prompt(files_view(files@)),
{
    let ghost fv = files_view(files@);
    let mut chunks: Vec<String> = Vec::new();
    let mut i: usize = 0;
    while i < files.len()
        invariant
            i <= files.len(),
            fv == files_view(files@),
            chunks@.map_values(|s: String| s@) == skill_chunks(fv.take(i as int)),
        decreases files.len() - i,
    {
        assert(fv.take(i + 1).drop_last() =~= fv.take(i as int));
        assert(fv.take(i + 1).last() == fv[i as int]);
        let t = trim_str(files[i].1.as_str());
        if t.len() > 0 {
            let mut c = String::new();
            push_str(&mut c, "### Skill: ");
            match &files[i].0 {
                Some(s) => push_str(&mut c, s.as_str()),
                None => push_str(&mut c, "skill"),
            }
            push_str(&mut c, "\n");
            text::push_chars(&mut c, &t);
            let ghost before = chunks@.map_values(|s: String| s@);
            chunks.push(c);
            assert(chunks@.map_values(|s: String| s@) =~= before.push(chunks@.last()@));
        }
        i = i + 1;
    }
    assert(fv.take(i as int) =~= fv);
    if chunks.len() == 0 {
        return String::new();
    }
    let mut out = String::new();
    push_str(&mut out, "\n\n# Agent Skills\nFollow these skills when relevant:\n\n");
    push_str(&mut out, join_strings(&chunks, "\n\n").as_str());
    out
}


pub open spec fn skill_dirs_under(base: Seq<char>) -> Seq<Seq<char>> {
    seq![paths::spec_path_join(base, ".devforge/skills"@), paths::spec_path_join(base, ".cursor/skills"@)]
}

/// Where skill files are looked for: under the home directory, then under
/// the workspace root (`.devforge/skills`, then `.cursor/skills`, each).
pub open spec fn spec_skill_dirs(home: Option<Seq<char>>, root: Option<Seq<char>>) -> Seq<Seq<char>> {
    (match home {
        Some(h) => skill_dirs_under(h),
        None => Seq::empty(),
    }) + (match root {
        Some(r) => skill_dirs_under(r),
        None => Seq::empty(),
    })
}

pub fn skill_dirs(home: Option<&str>, root: Option<&str>) -> (r: Vec<String>)
    ensures
        r@.map_values(|s: String| s@) == spec_skill_dirs(
            match home { Some(h) => Some(h@), None => None },
            match root { Some(x) => Some(x@), None => None },
        ),
{
    let mut out: Vec<String> = Vec::new();
    match home {
        Some(h) => {
            out.push(path_join(h, ".devforge/skills"));
            out.push(path_join(h, ".cursor/skills"));
        },
        None => {},
    }
    let ghost mid = out@.map_values(|s: String| s@);
    match root {
        Some(x) => {
            out.push(path_join(x, ".devforge/skills"));
            out.push(path_join(x, ".cursor/skills"));
        },
        None => {},
    }
    assert(out@.map_values(|s: String| s@) =~= spec_skill_dirs(
        match home { Some(h) => Some(h@), None => None },
        match root { Some(x) => Some(x@), None => None },
    ));
    out
}

} // verus!
