use chat_client::conversation::Role;
use chat_client::conversation::append_assistant_turn;
use chat_client::conversation::append_user_turn;
use chat_client::conversation::build_prompt;

#[test]
fn build_prompt_preserves_texts_in_order() {
    let prompts = vec!["first".to_string(), "second".to_string(), "third".to_string()];
    let c = build_prompt("gpt-4", &prompts);
    assert_eq!(c.model, "gpt-4");
    assert_eq!(c.messages.len(), 3);
    for (i, m) in c.messages.iter().enumerate() {
        assert!(matches!(m.role, Role::User));
        assert_eq!(m.content, prompts[i]);
    }
}

#[test]
fn build_prompt_accepts_an_empty_sequence() {
    let c = build_prompt("gpt-4", &[]);
    assert_eq!(c.model, "gpt-4");
    assert_eq!(c.messages.len(), 0);
}

#[test]
fn build_prompt_permits_empty_strings() {
    let prompts = vec![String::new()];
    let c = build_prompt("gpt-4", &prompts);
    assert_eq!(c.messages.len(), 1);
    assert_eq!(c.messages[0].content, "");
}

#[test]
fn alternating_turns_keep_strict_alternation() {
    let mut c = build_prompt("gpt-4", &[]);
    for i in 0..3 {
        append_user_turn(&mut c, format!("question {}", i));
        append_assistant_turn(&mut c, format!("answer {}", i));
    }
    assert_eq!(c.messages.len(), 6);
    for (i, m) in c.messages.iter().enumerate() {
        if i % 2 == 0 {
            assert!(matches!(m.role, Role::User));
            assert_eq!(m.content, format!("question {}", i / 2));
        } else {
            assert!(matches!(m.role, Role::Assistant));
            assert_eq!(m.content, format!("answer {}", i / 2));
        }
    }
}

#[test]
fn appends_only_grow_the_end_of_the_history() {
    let mut c = build_prompt("gpt-4", &["start".to_string()]);
    append_user_turn(&mut c, "next".to_string());
    assert_eq!(c.messages.len(), 2);
    assert_eq!(c.messages[0].content, "start");
    assert_eq!(c.messages[1].content, "next");
    assert!(matches!(c.messages[1].role, Role::User));
}
