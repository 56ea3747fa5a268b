use chat_client::conversation::Role;
use chat_client::conversation::append_assistant_turn;
use chat_client::conversation::append_user_turn;
use chat_client::conversation::build_prompt;
use chat_client::parser::parse_conversation;
use chat_client::parser::parse_response;
use chat_client::wire::encode_conversation;

#[test]
fn encode_single_user_message_exactly() {
    let c = build_prompt("gpt-4", &["Hello".to_string()]);
    let s = encode_conversation(&c);
    assert_eq!(
        s,
        "{\"model\":\"gpt-4\",\"messages\":[{\"role\":\"user\",\"content\":\"Hello\"}]}"
    );
}

#[test]
fn encode_empty_message_list_exactly() {
    let c = build_prompt("gpt-4", &[]);
    let s = encode_conversation(&c);
    assert_eq!(s, "{\"model\":\"gpt-4\",\"messages\":[]}");
}

#[test]
fn encode_escapes_special_characters() {
    let c = build_prompt("m", &["say \"hi\" a\\b\nc\td".to_string()]);
    let s = encode_conversation(&c);
    assert_eq!(
        s,
        "{\"model\":\"m\",\"messages\":[{\"role\":\"user\",\"content\":\"say \\\"hi\\\" a\\\\b\\nc\\td\"}]}"
    );
}

#[test]
fn encode_writes_assistant_role() {
    let mut c = build_prompt("m", &[]);
    append_assistant_turn(&mut c, "ok".to_string());
    let s = encode_conversation(&c);
    assert_eq!(
        s,
        "{\"model\":\"m\",\"messages\":[{\"role\":\"assistant\",\"content\":\"ok\"}]}"
    );
}

#[test]
fn round_trip_preserves_the_message_list() {
    let mut c = build_prompt("gpt-4", &["Hello".to_string(), "again \"quoted\"".to_string()]);
    append_assistant_turn(&mut c, "line one\nline two\ttabbed \\ backslash".to_string());
    append_user_turn(&mut c, String::new());
    let s = encode_conversation(&c);
    let back = parse_conversation(&s).expect("the encoder's output must parse");
    assert_eq!(back.model, c.model);
    assert_eq!(back.messages.len(), c.messages.len());
    for (a, b) in back.messages.iter().zip(c.messages.iter()) {
        assert_eq!(a.content, b.content);
        assert_eq!(
            matches!(a.role, Role::User),
            matches!(b.role, Role::User)
        );
    }
}

#[test]
fn encoder_output_is_json_to_other_readers() {
    let c = build_prompt("gpt-4", &["say \"hi\" a\\b\nc".to_string()]);
    let s = encode_conversation(&c);
    let v: serde_json::Value = serde_json::from_str(&s).expect("valid JSON");
    assert_eq!(v["model"].as_str().unwrap(), "gpt-4");
    assert_eq!(v["messages"][0]["role"].as_str().unwrap(), "user");
    assert_eq!(v["messages"][0]["content"].as_str().unwrap(), "say \"hi\" a\\b\nc");
}

#[test]
fn parse_response_reads_the_success_shape() {
    let body = "{\"id\":\"chatcmpl-1\",\"object\":\"chat.completion\",\"created\":1700000000,\"model\":\"gpt-4\",\"choices\":[{\"message\":{\"role\":\"assistant\",\"content\":\"Hi there\"}}]}";
    let r = parse_response(body).expect("must parse");
    assert_eq!(r.id, "chatcmpl-1");
    assert_eq!(r.object, "chat.completion");
    assert_eq!(r.created, 1700000000u64);
    assert_eq!(r.model, "gpt-4");
    assert_eq!(r.choices.len(), 1);
    assert!(matches!(r.choices[0].message.role, Role::Assistant));
    assert_eq!(r.choices[0].message.content, "Hi there");
}

#[test]
fn parse_response_allows_whitespace_between_tokens() {
    let body = "{ \"id\" : \"x\" , \"object\" : \"o\" , \"created\" : 5 , \"model\" : \"m\" , \"choices\" : [ ] }\n";
    let r = parse_response(body).expect("must parse");
    assert_eq!(r.created, 5);
    assert_eq!(r.choices.len(), 0);
}

#[test]
fn parse_response_handles_escapes_in_content() {
    let body = "{\"id\":\"i\",\"object\":\"o\",\"created\":1,\"model\":\"m\",\"choices\":[{\"message\":{\"role\":\"assistant\",\"content\":\"a \\\"b\\\" \\\\ \\n \\t \\/ c\"}}]}";
    let r = parse_response(body).expect("must parse");
    assert_eq!(r.choices[0].message.content, "a \"b\" \\ \n \t / c");
}

#[test]
fn parse_response_rejects_a_missing_field() {
    let body = "{\"id\":\"i\",\"object\":\"o\",\"created\":1,\"model\":\"m\"}";
    assert!(parse_response(body).is_none());
}

#[test]
fn parse_response_rejects_a_wrong_type() {
    let body = "{\"id\":7,\"object\":\"o\",\"created\":1,\"model\":\"m\",\"choices\":[]}";
    assert!(parse_response(body).is_none());
}

#[test]
fn parse_response_rejects_an_unknown_role() {
    let body = "{\"id\":\"i\",\"object\":\"o\",\"created\":1,\"model\":\"m\",\"choices\":[{\"message\":{\"role\":\"system\",\"content\":\"x\"}}]}";
    assert!(parse_response(body).is_none());
}

#[test]
fn parse_response_rejects_trailing_text() {
    let body = "{\"id\":\"i\",\"object\":\"o\",\"created\":1,\"model\":\"m\",\"choices\":[]}x";
    assert!(parse_response(body).is_none());
}

#[test]
fn parse_response_reads_the_largest_created() {
    let body = "{\"id\":\"i\",\"object\":\"o\",\"created\":18446744073709551615,\"model\":\"m\",\"choices\":[]}";
    let r = parse_response(body).expect("must parse");
    assert_eq!(r.created, u64::MAX);
}

#[test]
fn parse_response_rejects_an_oversized_created() {
    let body = "{\"id\":\"i\",\"object\":\"o\",\"created\":18446744073709551616,\"model\":\"m\",\"choices\":[]}";
    assert!(parse_response(body).is_none());
}

#[test]
fn parse_conversation_rejects_unbalanced_text() {
    assert!(parse_conversation("{\"model\":\"m\",\"messages\":[").is_none());
    assert!(parse_conversation("").is_none());
    assert!(parse_conversation("{\"model\":\"m\"}").is_none());
}

#[test]
fn parse_response_accepts_members_in_any_order() {
    let body = "{\"model\":\"m\",\"choices\":[{\"message\":{\"content\":\"hey\",\"role\":\"assistant\"}}],\"id\":\"i\",\"created\":7,\"object\":\"o\"}";
    let r = parse_response(body).expect("any member order must parse");
    assert_eq!(r.id, "i");
    assert_eq!(r.created, 7);
    assert_eq!(r.choices[0].message.content, "hey");
    assert!(matches!(r.choices[0].message.role, Role::Assistant));
}

#[test]
fn parse_response_skips_unknown_members() {
    let body = "{\"id\":\"i\",\"object\":\"o\",\"created\":1,\"model\":\"m\",\"system_fingerprint\":null,\"choices\":[{\"index\":0,\"message\":{\"role\":\"assistant\",\"content\":\"ok\",\"refusal\":null},\"finish_reason\":\"stop\",\"logprobs\":null}],\"usage\":{\"prompt_tokens\":9,\"completion_tokens\":12,\"total_tokens\":21,\"details\":{\"cached\":0,\"flags\":[true,false,-1.5e3]}}}";
    let r = parse_response(body).expect("unknown members must be skipped");
    assert_eq!(r.choices.len(), 1);
    assert_eq!(r.choices[0].message.content, "ok");
}

#[test]
fn parse_response_rejects_a_duplicate_member() {
    let body = "{\"id\":\"i\",\"id\":\"j\",\"object\":\"o\",\"created\":1,\"model\":\"m\",\"choices\":[]}";
    assert!(parse_response(body).is_none());
}

#[test]
fn parse_response_decodes_unicode_escapes() {
    let body = "{\"id\":\"i\",\"object\":\"o\",\"created\":1,\"model\":\"m\",\"choices\":[{\"message\":{\"role\":\"assistant\",\"content\":\"\\u0041\\u00e9\\u4e2d\"}}]}";
    let r = parse_response(body).expect("unicode escapes must parse");
    assert_eq!(r.choices[0].message.content, "A\u{e9}\u{4e2d}");
}

#[test]
fn parse_response_combines_surrogate_pairs() {
    let body = "{\"id\":\"i\",\"object\":\"o\",\"created\":1,\"model\":\"m\",\"choices\":[{\"message\":{\"role\":\"assistant\",\"content\":\"\\uD83D\\uDE00\"}}]}";
    let r = parse_response(body).expect("a surrogate pair must parse");
    assert_eq!(r.choices[0].message.content, "\u{1F600}");
}

#[test]
fn parse_response_rejects_a_lone_surrogate() {
    let body = "{\"id\":\"i\",\"object\":\"o\",\"created\":1,\"model\":\"m\",\"choices\":[{\"message\":{\"role\":\"assistant\",\"content\":\"\\uD83D\"}}]}";
    assert!(parse_response(body).is_none());
}

#[test]
fn encode_escapes_control_characters() {
    let c = build_prompt("m", &["a\u{0B}b\u{1F}c".to_string()]);
    let s = encode_conversation(&c);
    assert_eq!(
        s,
        "{\"model\":\"m\",\"messages\":[{\"role\":\"user\",\"content\":\"a\\u000bb\\u001fc\"}]}"
    );
    let v: serde_json::Value = serde_json::from_str(&s).expect("control characters must be escaped");
    assert_eq!(v["messages"][0]["content"].as_str().unwrap(), "a\u{0B}b\u{1F}c");
    let back = parse_conversation(&s).expect("must round-trip");
    assert_eq!(back.messages[0].content, "a\u{0B}b\u{1F}c");
}

#[test]
fn parse_conversation_accepts_members_in_any_order() {
    let body = "{\"messages\":[],\"model\":\"m\"}";
    let c = parse_conversation(body).expect("any member order must parse");
    assert_eq!(c.model, "m");
    assert_eq!(c.messages.len(), 0);
}

