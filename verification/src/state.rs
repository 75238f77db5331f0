//! Coarse state of an agent run, shown in the UI.
use vstd::prelude::*;

verus! {

#[derive(Debug, Clone, Copy, PartialEq, Eq, Structural)]
pub enum AgentState {
    Idle,
    Analyzing,
    Planning,
    WaitingPermission,
    ExecutingTool,
    Editing,
    Running,
    Verifying,
    Error,
    Completed,
    Cancelled,
}

impl Default for AgentState {
    fn default() -> (r: AgentState)
        ensures
            r == AgentState::Idle,
    {
        AgentState::Idle
    }
}

impl AgentState {
    pub open spec fn spec_label(self) -> Seq<char> {
        match self {
            AgentState::Idle => "Idle"@,
            AgentState::Analyzing => "Analyzing"@,
            AgentState::Planning => "Planning"@,
            AgentState::WaitingPermission => "Waiting for permission"@,
            AgentState::ExecutingTool => "Executing tool"@,
            AgentState::Editing => "Editing"@,
            AgentState::Running => "Running"@,
            AgentState::Verifying => "Verifying"@,
            AgentState::Error => "Error"@,
            AgentState::Completed => "Completed"@,
            AgentState::Cancelled => "Cancelled"@,
        }
    }

    pub fn label(self) -> (r: &'static str)
        ensures
            r@ == self.spec_label(),
    {
        match self {
            AgentState::Idle => "Idle",
            AgentState::Analyzing => "Analyzing",
            AgentState::Planning => "Planning",
            AgentState::WaitingPermission => "Waiting for permission",
            AgentState::ExecutingTool => "Executing tool",
            AgentState::Editing => "Editing",
            AgentState::Running => "Running",
            AgentState::Verifying => "Verifying",
            AgentState::Error => "Error",
            AgentState::Completed => "Completed",
            AgentState::Cancelled => "Cancelled",
        }
    }
}

} // verus!
