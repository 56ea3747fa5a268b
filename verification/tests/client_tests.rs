use chat_client::client::ClientError;
use chat_client::client::HttpOutcome;
use chat_client::client::TurnPlan;
use chat_client::client::complete_turn;
use chat_client::client::extract_reply;
use chat_client::client::plan_turn;
use chat_client::client::process_outcome;
use chat_client::conversation::Message;
use chat_client::conversation::Role;
use chat_client::conversation::build_prompt;
use chat_client::wire::Choice;
use chat_client::wire::Response;
use chat_client::wire::encode_conversation;

fn sample_response(choices: Vec<Choice>) -> Response {
    Response {
        id: String::from("chatcmpl-1"),
        object: String::from("chat.completion"),
        created: 1700000000,
        model: String::from("gpt-4"),
        choices,
    }
}

#[test]
fn empty_choices_is_a_recoverable_error() {
    let r = sample_response(Vec::new());
    let e = extract_reply(&r).expect_err("empty choices must fail");
    assert!(matches!(e, ClientError::EmptyChoices));
}

#[test]
fn the_first_choice_is_the_reply() {
    let first = Choice {
        message: Message { role: Role::Assistant, content: String::from("first reply") },
    };
    let second = Choice {
        message: Message { role: Role::Assistant, content: String::from("second reply") },
    };
    let r = sample_response(vec![first, second]);
    assert_eq!(extract_reply(&r).unwrap(), "first reply");
}

#[test]
fn rejected_status_carries_code_and_body() {
    let outcome = HttpOutcome::Received {
        status: 401,
        body: String::from("invalid api key"),
    };
    let e = process_outcome(outcome).expect_err("a 401 must be rejected");
    match e {
        ClientError::RequestRejected { status, body } => {
            assert_eq!(status, 401);
            assert_eq!(body, "invalid api key");
        },
        other => panic!("wrong error: {:?}", other),
    }
}

#[test]
fn a_failed_turn_leaves_the_history_unchanged() {
    let mut c = build_prompt("gpt-4", &["question".to_string()]);
    let outcome = HttpOutcome::Received {
        status: 401,
        body: String::from("invalid api key"),
    };
    let e = complete_turn(&mut c, outcome).expect_err("a 401 must be rejected");
    assert!(matches!(e, ClientError::RequestRejected { .. }));
    assert_eq!(c.messages.len(), 1);
    assert_eq!(c.messages[0].content, "question");
}

#[test]
fn transport_failure_is_classified() {
    let e = process_outcome(HttpOutcome::Transport).expect_err("must fail");
    assert!(matches!(e, ClientError::TransportFailure));
}

#[test]
fn an_unreadable_body_is_malformed() {
    let outcome = HttpOutcome::Received { status: 200, body: String::from("not json") };
    let e = process_outcome(outcome).expect_err("must fail");
    assert!(matches!(e, ClientError::MalformedResponse));
}

#[test]
fn a_successful_turn_appends_the_assistant_reply() {
    let mut c = build_prompt("gpt-4", &["Hello".to_string()]);
    let body = "{\"id\":\"i\",\"object\":\"o\",\"created\":1,\"model\":\"gpt-4\",\"choices\":[{\"message\":{\"role\":\"assistant\",\"content\":\"Hi there\"}}]}";
    let outcome = HttpOutcome::Received { status: 200, body: String::from(body) };
    let reply = complete_turn(&mut c, outcome).expect("a 200 with a choice must succeed");
    assert_eq!(reply, "Hi there");
    assert_eq!(c.messages.len(), 2);
    assert!(matches!(c.messages[1].role, Role::Assistant));
    assert_eq!(c.messages[1].content, "Hi there");
}

#[test]
fn exit_command_in_any_casing_ends_the_loop() {
    for line in ["exit", "EXIT", "Exit", "eXiT", "  exit  ", "\texit\n"] {
        let mut c = build_prompt("gpt-4", &[]);
        let p = plan_turn(&mut c, line);
        assert_eq!(p, TurnPlan::Exit, "line {:?} must end the loop", line);
        assert_eq!(c.messages.len(), 0, "line {:?} must not grow the history", line);
    }
}

#[test]
fn other_lines_become_the_next_user_message() {
    for line in ["exits", "quit", "hello", " exi t "] {
        let mut c = build_prompt("gpt-4", &[]);
        let p = plan_turn(&mut c, line);
        assert_eq!(p, TurnPlan::Send);
        assert_eq!(c.messages.len(), 1);
        assert!(matches!(c.messages[0].role, Role::User));
        assert_eq!(c.messages[0].content, line.trim());
    }
}

#[test]
fn single_shot_scenario_yields_the_printed_reply() {
    // One initial text, a mocked success response: the reply handed to the
    // caller for printing is exactly the mocked assistant content.
    let conversation = build_prompt("gpt-4", &["Hello".to_string()]);
    let request_body = encode_conversation(&conversation);
    assert_eq!(
        request_body,
        "{\"model\":\"gpt-4\",\"messages\":[{\"role\":\"user\",\"content\":\"Hello\"}]}"
    );
    let mocked = "{\"id\":\"chatcmpl-1\",\"object\":\"chat.completion\",\"created\":1700000000,\"model\":\"gpt-4\",\"choices\":[{\"message\":{\"role\":\"assistant\",\"content\":\"Hi there\"}}]}";
    let outcome = HttpOutcome::Received { status: 200, body: String::from(mocked) };
    let response = process_outcome(outcome).expect("the mocked response must be accepted");
    let reply = extract_reply(&response).expect("one choice is present");
    assert_eq!(reply, "Hi there");
}

#[test]
fn each_error_condition_has_its_phrase() {
    assert_eq!(
        ClientError::CredentialUnavailable.describe(),
        "could not read the api key"
    );
    assert_eq!(
        ClientError::SerializationFailure.describe(),
        "could not encode the request"
    );
    assert_eq!(ClientError::TransportFailure.describe(), "error sending request");
    assert_eq!(
        ClientError::RequestRejected { status: 500, body: String::new() }.describe(),
        "request rejected by the server"
    );
    assert_eq!(
        ClientError::MalformedResponse.describe(),
        "response body did not match the expected shape"
    );
    assert_eq!(
        ClientError::EmptyChoices.describe(),
        "response contained no choices"
    );
}

#[test]
fn exit_followed_by_unicode_whitespace_ends_the_loop() {
    let mut c = build_prompt("gpt-4", &[]);
    let p = plan_turn(&mut c, "exit\u{00A0}");
    assert_eq!(p, TurnPlan::Exit);
    assert_eq!(c.messages.len(), 0);
}

