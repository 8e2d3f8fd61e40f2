use plan_questions::instructions::{
    inject_developer_message, plan_mode_developer_instructions, InteractionMode, Message,
};
use plan_questions::subagents::{template_entry, SubAgentTemplate, SubAgentsHandler, ToolKind};

fn message(role: &str, text: &str) -> Message {
    Message {
        role: role.to_string(),
        text: text.to_string(),
    }
}

#[test]
fn plan_mode_inserts_after_leading_developer_messages() {
    let input = vec![
        message("developer", "house rules"),
        message("user", "hello"),
    ];
    let out = inject_developer_message(input, InteractionMode::Plan);
    assert_eq!(out.len(), 3);
    assert_eq!(out[0].text, "house rules");
    assert_eq!(out[1].role, "developer");
    assert_eq!(out[1].text, plan_mode_developer_instructions());
    assert_eq!(out[2].role, "user");
}

#[test]
fn plan_mode_inserts_first_without_developer_prefix() {
    let input = vec![message("user", "hello")];
    let out = inject_developer_message(input, InteractionMode::Plan);
    assert_eq!(out.len(), 2);
    assert_eq!(out[0].role, "developer");
    assert_eq!(out[1].role, "user");
}

#[test]
fn other_modes_leave_the_conversation_alone() {
    let input = vec![message("user", "hello")];
    let out = inject_developer_message(input, InteractionMode::Chat);
    assert_eq!(out.len(), 1);
    assert_eq!(out[0].role, "user");
}

#[test]
fn instructions_fix_the_grammar() {
    let text = plan_mode_developer_instructions();
    assert!(text.contains("Decision points"));
    assert!(text.contains("(None) Type your answer"));
}

#[test]
fn template_entry_carries_every_field() {
    let entry = template_entry(SubAgentTemplate {
        name: "researcher".to_string(),
        instructions: "dig".to_string(),
        skills: vec!["search".to_string()],
        model: None,
    });
    assert_eq!(entry.name, "researcher");
    assert_eq!(entry.instructions, "dig");
    assert_eq!(entry.skills, vec!["search".to_string()]);
    assert!(entry.model.is_none());
}

#[test]
fn subagents_handler_is_a_function_tool() {
    let handler = SubAgentsHandler;
    assert!(matches!(handler.kind(), ToolKind::Function));
}
