use forge_egui::tone::Tone;
use forge_egui::chat::{
    ChatItem, ChatPrompt, ChatPromptData, ChatPromptState, ChatViewState, Composer, LinkCard,
    PromptAnswer, PromptControl, Role, ToolStatus,
};

#[test]
fn prompt_button_click_returns_answer() {
    let data = ChatPromptData::new(
        "Deploy now?",
        PromptControl::Buttons(vec!["Yes".into(), "No".into(), "Later".into()]),
    );
    // A click on "No", the second button.
    assert_eq!(ChatPrompt::new(&data).button_answer(1), Some(PromptAnswer::Button(1)));
    assert_eq!(ChatPrompt::new(&data).button_answer(3), None);
}

#[test]
fn prompt_radio_needs_submit() {
    let data = ChatPromptData::new(
        "Pick one",
        PromptControl::Radio(vec!["Alpha".into(), "Beta".into()]),
    );
    let mut state = ChatPromptState::new();
    let prompt = ChatPrompt::new(&data);
    assert!(prompt.submit_disabled(&state), "nothing chosen: no submit");
    assert_eq!(prompt.button_answer(0), None, "radio prompts have no buttons");
    // Choosing "Beta".
    state.choice = Some(1);
    assert_eq!(state.choice, Some(1));
    assert!(!prompt.submit_disabled(&state));
    assert_eq!(prompt.submit_answer(&state), Some(PromptAnswer::Radio(1)));
}

#[test]
fn checkbox_prompt_collects_checked_indices() {
    let data = ChatPromptData::new(
        "Which?",
        PromptControl::Checkbox(vec!["a".into(), "b".into(), "c".into()]),
    );
    let prompt = ChatPrompt::new(&data);
    let mut state = ChatPromptState::new();
    state.fit_checks(3);
    assert_eq!(state.checks, vec![false, false, false]);
    assert!(prompt.submit_disabled(&state));
    state.checks[0] = true;
    state.checks[2] = true;
    assert!(!prompt.submit_disabled(&state));
    assert_eq!(prompt.submit_answer(&state), Some(PromptAnswer::Checks(vec![0, 2])));
    state.fit_checks(1);
    assert_eq!(state.checks, vec![true]);
}

#[test]
fn select_prompt_answers_the_selected_option() {
    let data = ChatPromptData::new("Env", PromptControl::Select(vec!["dev".into(), "prod".into()]));
    let prompt = ChatPrompt::new(&data);
    let mut state = ChatPromptState::new();
    assert!(prompt.submit_disabled(&state));
    assert_eq!(prompt.submit_answer(&state), None);
    state.select.value = Some(0);
    assert_eq!(prompt.submit_answer(&state), Some(PromptAnswer::Select(0)));
}

#[test]
fn composer_enter_submits() {
    let mut draft = String::from("hello there");
    let composer = Composer::new(&mut draft);
    assert!(!composer.submits(false, false));
    assert!(composer.submits(true, false), "Enter should submit the draft");
    assert_eq!(composer.rows(), 1);
}

#[test]
fn blank_drafts_never_submit() {
    let mut draft = String::from("  \n\t ");
    let composer = Composer::new(&mut draft).placeholder("Say something");
    assert!(!composer.submits(true, true));
}

#[test]
fn composer_grows_up_to_five_rows() {
    let mut two = String::from("a\nb");
    assert_eq!(Composer::new(&mut two).rows(), 2);
    let mut many = String::from("1\n2\n3\n4\n5\n6\n7");
    assert_eq!(Composer::new(&mut many).rows(), 5);
    let mut empty = String::new();
    assert_eq!(Composer::new(&mut empty).rows(), 1);
}

#[test]
fn chat_items_carry_role_and_body() {
    match ChatItem::assistant("All good.") {
        ChatItem::Message { role, name, time, markdown } => {
            assert_eq!(role, Role::Assistant);
            assert!(name.is_none() && time.is_none());
            assert_eq!(markdown, "All good.");
        }
        other => panic!("expected message, got {other:?}"),
    }
    assert!(matches!(ChatItem::user("hi"), ChatItem::Message { role: Role::User, .. }));
    assert!(matches!(ChatItem::system("x"), ChatItem::Message { role: Role::System, .. }));
    match ChatItem::tool_with("read_file", ToolStatus::Done, "src/main.rs") {
        ChatItem::ToolCall { title, status, body } => {
            assert_eq!(title, "read_file");
            assert_eq!(status, ToolStatus::Done);
            assert_eq!(body.as_deref(), Some("src/main.rs"));
        }
        other => panic!("expected tool call, got {other:?}"),
    }
    assert!(matches!(ChatItem::tool("t", ToolStatus::Running), ChatItem::ToolCall { body: None, .. }));
    assert!(ChatViewState::new().stick);
}

#[test]
fn link_cards_open_only_safe_schemes() {
    assert_eq!(LinkCard::new("Docs", " https://forge.dev ").open_target(), Some("https://forge.dev"));
    assert_eq!(
        LinkCard::new("Evil", "javascript:alert(1)").description("nope").open_target(),
        None
    );
}

#[test]
fn captions_and_tool_marks() {
    assert_eq!(Role::User.caption(None), "You");
    assert_eq!(Role::Assistant.caption(None), "Assistant");
    assert_eq!(Role::System.caption(None), "System");
    assert_eq!(Role::Assistant.caption(Some("Forge")), "Forge");
    assert!(Role::User.right_aligned());
    assert!(!Role::System.right_aligned());
    assert_eq!(ToolStatus::Running.mark(), ('\u{27f3}', Tone::Info));
    assert_eq!(ToolStatus::Done.mark(), ('\u{2713}', Tone::Success));
    assert_eq!(ToolStatus::Error.mark(), ('\u{2717}', Tone::Danger));
}

#[test]
fn dividers_show_a_tracked_caption() {
    assert_eq!(
        ChatItem::Divider("today".into()).divider_caption().as_deref(),
        Some("T\u{200a}O\u{200a}D\u{200a}A\u{200a}Y")
    );
    assert_eq!(ChatItem::Typing.divider_caption(), None);
}

#[test]
fn chat_view_state_default_sticks() {
    assert!(ChatViewState::default().stick);
}
