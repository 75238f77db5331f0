//! Chat modes of the agent: Ask (read-only), Edit and Agent.
use vstd::prelude::*;

use crate::text::{self, chars_of, lower_exec, chars_eq_str};

verus! {

#[derive(Debug, Clone, Copy, PartialEq, Eq, Structural)]
pub enum AgentMode {
    Ask,
    Edit,
    Agent,
}

impl Default for AgentMode {
    fn default() -> (r: AgentMode)
        ensures
            r == AgentMode::Ask,
    {
        AgentMode::Ask
    }
}

impl AgentMode {
    pub open spec fn spec_as_str(self) -> Seq<char> {
        match self {
            AgentMode::Ask => "ask"@,
            AgentMode::Edit => "edit"@,
            AgentMode::Agent => "agent"@,
        }
    }

    pub open spec fn spec_label(self) -> Seq<char> {
        match self {
            AgentMode::Ask => "Ask"@,
            AgentMode::Edit => "Edit"@,
            AgentMode::Agent => "Agent"@,
        }
    }

    /// `edit` and `agent` in any ASCII case; everything else is Ask.
    pub open spec fn spec_from_str_loose(s: Seq<char>) -> AgentMode {
        if text::lower(s) == "edit"@ {
            AgentMode::Edit
        } else if text::lower(s) == "agent"@ {
            AgentMode::Agent
        } else {
            AgentMode::Ask
        }
    }

    pub fn as_str(self) -> (r: &'static str)
        ensures
            r@ == self.spec_as_str(),
    {
        match self {
            AgentMode::Ask => "ask",
            AgentMode::Edit => "edit",
            AgentMode::Agent => "agent",
        }
    }

    pub fn label(self) -> (r: &'static str)
        ensures
            r@ == self.spec_label(),
    {
        match self {
            AgentMode::Ask => "Ask",
            AgentMode::Edit => "Edit",
            AgentMode::Agent => "Agent",
        }
    }

    pub fn from_str_loose(s: &str) -> (r: AgentMode)
        ensures
            r == AgentMode::spec_from_str_loose(s@),
    {
        let l = lower_exec(&chars_of(s));
        if chars_eq_str(&l, "edit") {
            AgentMode::Edit
        } else if chars_eq_str(&l, "agent") {
            AgentMode::Agent
        } else {
            AgentMode::Ask
        }
    }
}

/// A mode is read back from its string form in any ASCII case
/// (`AgentMode::from_str_loose("EDIT") == Edit`).
pub proof fn law_mode_any_case(m: AgentMode, x: Seq<char>)
    requires
        text::lower(x) == m.spec_as_str(),
    ensures
        AgentMode::spec_from_str_loose(x) == m,
{
    reveal_strlit("ask");
    reveal_strlit("edit");
    reveal_strlit("agent");
    assert("ask"@.len() == 3);
    assert("edit"@.len() == 4);
    assert("agent"@.len() == 5);
}

/// Text that lower-cases to neither `edit` nor `agent` is read as Ask
/// (the empty text, `bogus`, ` edit` with its space).
pub proof fn law_mode_fallback(x: Seq<char>)
    requires
        text::lower(x) != "edit"@,
        text::lower(x) != "agent"@,
    ensures
        AgentMode::spec_from_str_loose(x) == AgentMode::Ask,
{
}

/// Each mode is read back from its string form and from its label:
/// `AgentMode::from_str_loose(m.as_str()) == m` and
/// `AgentMode::from_str_loose(m.label()) == m`.
pub proof fn law_mode_str_round_trip(m: AgentMode)
    ensures
        AgentMode::spec_from_str_loose(m.spec_as_str()) == m,
        AgentMode::spec_from_str_loose(m.spec_label()) == m,
{
    reveal_strlit("ask");
    reveal_strlit("edit");
    reveal_strlit("agent");
    reveal_strlit("Ask");
    reveal_strlit("Edit");
    reveal_strlit("Agent");
    assert("ask"@.len() == 3);
    assert("edit"@.len() == 4);
    assert("agent"@.len() == 5);
    text::lemma_plain_trim_lower(m.spec_as_str());
    assert(text::lower("Ask"@) =~= "ask"@);
    assert(text::lower("Edit"@) =~= "edit"@);
    assert(text::lower("Agent"@) =~= "agent"@);
}

} // verus!
