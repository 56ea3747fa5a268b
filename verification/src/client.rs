//! The request/response client logic that needs no network: classifying
//! the outcome of one HTTPS exchange into the error taxonomy, extracting
//! the assistant's reply from a parsed response, and the decisions of the
//! interactive loop. The surrounding binary performs the actual POST and
//! hands the status and body (or the fact of a transport failure) in as
//! plain values.

use vstd::prelude::*;
use vstd::string::StringExecFns;

use crate::conversation::Conversation;
use crate::conversation::MessageView;
use crate::conversation::Role;
use crate::conversation::append_assistant_turn;
use crate::conversation::append_user_turn;
use crate::parser::parse_response;
use crate::parser::parse_response_seq;
use crate::text::is_exit_command;
use crate::text::is_exit_line;
use crate::text::trim_line;
use crate::text::trimmed;
use crate::wire::Response;
use crate::wire::ResponseView;

verus! {

/// Everything that can go wrong between composing a request and reading a
/// reply. `CredentialUnavailable` is produced by the caller that reads the
/// key file; `SerializationFailure` is kept for completeness of the
/// taxonomy — encoding a conversation cannot fail here.
#[derive(Debug)]
pub enum ClientError {
    CredentialUnavailable,
    SerializationFailure,
    TransportFailure,
    RequestRejected { status: u16, body: String },
    MalformedResponse,
    EmptyChoices,
}

/// Mathematical image of a [`ClientError`].
#[verifier::ext_equal]
pub enum ClientErrorView {
    CredentialUnavailable,
    SerializationFailure,
    TransportFailure,
    RequestRejected { status: u16, body: Seq<char> },
    MalformedResponse,
    EmptyChoices,
}

impl View for ClientError {
    type V = ClientErrorView;

    open spec fn view(&self) -> ClientErrorView {
        match self {
            ClientError::CredentialUnavailable => ClientErrorView::CredentialUnavailable,
            ClientError::SerializationFailure => ClientErrorView::SerializationFailure,
            ClientError::TransportFailure => ClientErrorView::TransportFailure,
            ClientError::RequestRejected { status, body } => ClientErrorView::RequestRejected {
                status: *status,
                body: body@,
            },
            ClientError::MalformedResponse => ClientErrorView::MalformedResponse,
            ClientError::EmptyChoices => ClientErrorView::EmptyChoices,
        }
    }
}

/// The diagnostic phrase for each error condition.
pub open spec fn error_text(e: ClientErrorView) -> Seq<char> {
    match e {
        ClientErrorView::CredentialUnavailable => "could not read the api key"@,
        ClientErrorView::SerializationFailure => "could not encode the request"@,
        ClientErrorView::TransportFailure => "error sending request"@,
        ClientErrorView::RequestRejected { .. } => "request rejected by the server"@,
        ClientErrorView::MalformedResponse => "response body did not match the expected shape"@,
        ClientErrorView::EmptyChoices => "response contained no choices"@,
    }
}

impl ClientError {
    /// A short diagnostic phrase for display.
    pub fn describe(&self) -> (r: String)
        ensures
            r@ == error_text(self@),
    {
        match self {
            ClientError::CredentialUnavailable => String::from_str("could not read the api key"),
            ClientError::SerializationFailure => String::from_str("could not encode the request"),
            ClientError::TransportFailure => String::from_str("error sending request"),
            ClientError::RequestRejected { .. } => String::from_str(
                "request rejected by the server",
            ),
            ClientError::MalformedResponse => String::from_str(
                "response body did not match the expected shape",
            ),
            ClientError::EmptyChoices => String::from_str("response contained no choices"),
        }
    }
}

/// What one HTTPS exchange produced: either a transport-level failure
/// (DNS, TLS, connection reset, timeout), or a status code with the
/// response body text.
#[derive(Debug)]
pub enum HttpOutcome {
    Transport,
    Received { status: u16, body: String },
}

/// Mathematical image of an [`HttpOutcome`].
#[verifier::ext_equal]
pub enum HttpOutcomeView {
    Transport,
    Received { status: u16, body: Seq<char> },
}

impl View for HttpOutcome {
    type V = HttpOutcomeView;

    open spec fn view(&self) -> HttpOutcomeView {
        match self {
            HttpOutcome::Transport => HttpOutcomeView::Transport,
            HttpOutcome::Received { status, body } => HttpOutcomeView::Received {
                status: *status,
                body: body@,
            },
        }
    }
}

/// A 2xx status code.
pub open spec fn is_success_status(status: u16) -> bool {
    200 <= status && status < 300
}

/// What one exchange must be classified as: a transport failure maps to
/// `TransportFailure`; a non-2xx status is rejected with its code and body;
/// a 2xx body either parses to a response or is `MalformedResponse`.
pub open spec fn outcome_verdict(o: HttpOutcomeView) -> Result<ResponseView, ClientErrorView> {
    match o {
        HttpOutcomeView::Transport => Err(ClientErrorView::TransportFailure),
        HttpOutcomeView::Received { status, body } => if !is_success_status(status) {
            Err(ClientErrorView::RequestRejected { status, body })
        } else {
            match parse_response_seq(body) {
                Some(v) => Ok(v),
                None => Err(ClientErrorView::MalformedResponse),
            }
        },
    }
}

/// Classifies one exchange, exactly as [`outcome_verdict`] states it.
pub fn process_outcome(outcome: HttpOutcome) -> (r: Result<Response, ClientError>)
    ensures
        match r {
            Ok(resp) => outcome_verdict(outcome@) == Ok::<ResponseView, ClientErrorView>(resp@),
            Err(e) => outcome_verdict(outcome@) == Err::<ResponseView, ClientErrorView>(e@),
        },
{
    match outcome {
        HttpOutcome::Transport => Err(ClientError::TransportFailure),
        HttpOutcome::Received { status, body } => {
            if status < 200 || status >= 300 {
                Err(ClientError::RequestRejected { status, body })
            } else {
                match parse_response(body.as_str()) {
                    Some(resp) => Ok(resp),
                    None => Err(ClientError::MalformedResponse),
                }
            }
        },
    }
}

/// Returns the content of the first choice; a response with an empty
/// choice list is refused with `EmptyChoices`, never indexed.
pub fn extract_reply(response: &Response) -> (r: Result<String, ClientError>)
    ensures
        response@.choices.len() > 0 ==> (r matches Ok(s) && s@
            == response@.choices[0].message.content),
        response@.choices.len() == 0 ==> (r matches Err(e) && e@ == ClientErrorView::EmptyChoices),
{
    if response.choices.len() == 0 {
        Err(ClientError::EmptyChoices)
    } else {
        proof {
            assert(response@.choices[0] == response.choices@[0]@);
        }
        Ok(response.choices[0].message.content.clone())
    }
}

/// What the interactive loop does with one input line.
#[derive(Clone, Copy, Debug, PartialEq, Eq, Structural)]
pub enum TurnPlan {
    Exit,
    Send,
}

/// Decides one input line of the interactive loop. A line whose trimmed
/// form reads `exit` in any letter casing ends the loop with the
/// conversation untouched — no request is made for it. Any other line,
/// trimmed, becomes the next `user` message, and a request is owed.
pub fn plan_turn(conversation: &mut Conversation, line: &str) -> (p: TurnPlan)
    ensures
        is_exit_line(trimmed(line@)) ==> p == TurnPlan::Exit && *final (conversation) == *old(conversation),
        !is_exit_line(trimmed(line@)) ==> p == TurnPlan::Send && final (conversation)@.model == old(
            conversation,
        )@.model && final (conversation)@.messages == old(conversation)@.messages.push(
            MessageView { role: Role::User, content: trimmed(line@) },
        ) && crate::conversation::ready_to_send(final (conversation)@),
{
    let t = trim_line(line);
    if is_exit_command(t.as_str()) {
        TurnPlan::Exit
    } else {
        append_user_turn(conversation, t);
        TurnPlan::Send
    }
}

/// Finishes one turn from the outcome of its exchange. On success the
/// reply is returned and appended to the history as the `assistant`
/// message; on any failure the conversation is left exactly as it was —
/// the failed turn's user message stays, no assistant message is added.
pub fn complete_turn(conversation: &mut Conversation, outcome: HttpOutcome) -> (r: Result<
    String,
    ClientError,
>)
    ensures
        match r {
            Ok(reply) => {
                &&& outcome_verdict(outcome@) matches Ok(v) && v.choices.len() > 0 && reply@
                    == v.choices[0].message.content
                &&& final (conversation)@.model == old(conversation)@.model
                &&& final (conversation)@.messages == old(conversation)@.messages.push(
                    MessageView { role: Role::Assistant, content: reply@ },
                )
            },
            Err(e) => {
                &&& *final (conversation) == *old(conversation)
                &&& match outcome_verdict(outcome@) {
                    Ok(v) => v.choices.len() == 0 && e@ == ClientErrorView::EmptyChoices,
                    Err(ev) => e@ == ev,
                }
            },
        },
{
    let response = match process_outcome(outcome) {
        Ok(resp) => resp,
        Err(e) => {
            return Err(e);
        },
    };
    let reply = match extract_reply(&response) {
        Ok(text) => text,
        Err(e) => {
            return Err(e);
        },
    };
    append_assistant_turn(conversation, reply.clone());
    Ok(reply)
}

} // verus!
