use modalterm::context::Context;

#[test]
fn a_fresh_context_holds_no_request() {
    let mut context = Context::new();
    assert!(context.take_call().is_none());
    assert!(context.take_editor_call().is_none());
}

#[test]
fn call_records_the_name_and_the_argument() {
    let mut context = Context::new();
    context.call("editor".to_string(), "/tmp/a.txt".to_string());
    let sr = context.take_call().expect("a pending request");
    assert_eq!(sr.application_type, "editor");
    assert_eq!(sr.arguments, "/tmp/a.txt");
    assert!(context.take_call().is_none());
}

#[test]
fn a_second_call_in_the_same_cycle_overwrites_the_first() {
    let mut context = Context::new();
    context.call("editor".to_string(), "first".to_string());
    context.call("editor".to_string(), "second".to_string());
    let sr = context.take_call().expect("a pending request");
    assert_eq!(sr.arguments, "second");
}

#[test]
fn take_editor_call_hands_back_an_editor_request() {
    let mut context = Context::new();
    context.call("editor".to_string(), "/tmp/b.txt".to_string());
    assert_eq!(context.take_editor_call().as_deref(), Some("/tmp/b.txt"));
    assert!(context.take_editor_call().is_none());
}

#[test]
fn take_editor_call_drops_a_request_for_an_unknown_target() {
    let mut context = Context::new();
    context.call("browser".to_string(), "/tmp".to_string());
    assert!(context.take_editor_call().is_none());
    assert!(context.take_call().is_none());
}
