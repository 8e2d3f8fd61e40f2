//! The sub-agents tool surface that the session registers: the handler
//! marker, the kind it registers under, and the template listing entry.
//! Spawning, polling and cancelling live with the surrounding session.

use vstd::prelude::*;

verus! {

/// How a tool is invoked by the session's registry.
#[derive(Clone, Copy, Debug, PartialEq, Eq, Structural)]
pub enum ToolKind {
    Function,
}

/// The handler registered for the sub-agents tool.
pub struct SubAgentsHandler;

impl SubAgentsHandler {
    /// The registry kind the handler answers to.
    pub fn kind(&self) -> (k: ToolKind)
        ensures
            k == ToolKind::Function,
    {
        ToolKind::Function
    }
}

/// A sub-agent template as the session loads it.
pub struct SubAgentTemplate {
    pub name: String,
    pub instructions: String,
    pub skills: Vec<String>,
    pub model: Option<String>,
}

/// A template as the tool lists it to the agent.
pub struct TemplateEntry {
    pub name: String,
    pub instructions: String,
    pub skills: Vec<String>,
    pub model: Option<String>,
}

/// The listing entry for one template: every field carried over.
pub fn template_entry(template: SubAgentTemplate) -> (e: TemplateEntry)
    ensures
        e.name@ == template.name@,
        e.instructions@ == template.instructions@,
        e.skills.deep_view() == template.skills.deep_view(),
        e.model.deep_view() == template.model.deep_view(),
{
    TemplateEntry {
        name: template.name,
        instructions: template.instructions,
        skills: template.skills,
        model: template.model,
    }
}

} // verus!
