use minuet::kernel::{KernelError, KernelOptions, KernelState};
use minuet::model::{ModelName, ModelSelection, ProviderId, ReasoningEffort};
use minuet::session::MemorySessionRepository;
use minuet::tool::{ToolDefinition, ToolRegistry};

fn kernel() -> KernelState {
    let tools = ToolRegistry::new(
        vec![ToolDefinition { name: "echo".into(), description: "Echo".into(), parameters: "{}".into() }],
        &[],
    )
    .unwrap();
    let options = KernelOptions {
        model: ModelSelection {
            provider: ProviderId::new("test").unwrap(),
            model: ModelName::new("test-model").unwrap(),
        },
        default_reasoning_effort: None,
        default_enabled_tools: vec!["echo".to_owned()],
    };
    KernelState::start(MemorySessionRepository::new(), tools, options).ok().unwrap()
}

#[test]
fn tools_are_toggled_per_session_and_unknown_ones_refused() {
    let mut k = kernel();
    assert!(k.list_tools().ok().unwrap()[0].enabled);
    k.set_tool_enabled("echo", false).ok().unwrap();
    assert!(!k.list_tools().ok().unwrap()[0].enabled);
    k.set_tool_enabled("echo", true).ok().unwrap();
    k.set_tool_enabled("echo", true).ok().unwrap();
    let id = k.active_session();
    assert_eq!(k.store().snapshot(id).unwrap().config.enabled_tools, ["echo"]);
    assert!(matches!(k.set_tool_enabled("nope", true), Err(KernelError::Tool(_))));
}

#[test]
fn effort_is_session_state_and_the_active_session_cannot_be_deleted() {
    let mut k = kernel();
    k.set_reasoning_effort(Some(ReasoningEffort::new("vendor-7").unwrap())).ok().unwrap();
    let info = k.model_info().ok().unwrap();
    assert_eq!(info.provider, "test");
    assert_eq!(info.reasoning_effort.as_deref(), Some("vendor-7"));
    let first = k.active_session();
    assert!(matches!(k.delete_session(first), Err(KernelError::ActiveSession)));
    let view = k.new_session().ok().unwrap();
    assert!(view.entries.is_empty());
    assert_eq!(k.model_info().ok().unwrap().reasoning_effort, None);
    assert!(k.delete_session(first).is_ok());
    assert!(matches!(k.switch_session(first), Err(KernelError::Session(_))));
    assert_eq!(KernelError::ActiveSession.message(), "the active session cannot be deleted");
}

#[test]
fn clearing_keeps_the_configuration() {
    let mut k = kernel();
    let id = k.active_session();
    k.store_mut().commit_user(id, "hello").unwrap();
    let view = k.clear_session().ok().unwrap();
    assert_eq!(view.id, id);
    assert!(k.store().snapshot(id).unwrap().items.is_empty());
    assert_eq!(k.store().snapshot(id).unwrap().config.enabled_tools, ["echo"]);
    let switched = k.switch_session(id).ok().unwrap();
    assert!(switched.entries.is_empty());
}
