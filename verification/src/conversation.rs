//! The conversation data model: role-tagged messages in chronological order,
//! plus the builder operations that grow a conversation one turn at a time.

use vstd::prelude::*;

verus! {

/// Who authored a message: the human user or the remote model.
#[derive(Clone, Copy, Debug, PartialEq, Eq, Structural)]
pub enum Role {
    User,
    Assistant,
}

/// One turn of dialogue. Immutable once created.
#[derive(Clone, Debug)]
pub struct Message {
    pub role: Role,
    pub content: String,
}

/// Mathematical image of a [`Message`]: the role and the content as a
/// sequence of characters.
#[verifier::ext_equal]
pub struct MessageView {
    pub role: Role,
    pub content: Seq<char>,
}

impl View for Message {
    type V = MessageView;

    open spec fn view(&self) -> MessageView {
        MessageView { role: self.role, content: self.content@ }
    }
}

/// The dialogue so far, together with the model identifier it is addressed
/// to. Messages are only ever appended at the end, never reordered or
/// removed.
#[derive(Clone, Debug)]
pub struct Conversation {
    pub model: String,
    pub messages: Vec<Message>,
}

/// Mathematical image of a [`Conversation`].
#[verifier::ext_equal]
pub struct ConversationView {
    pub model: Seq<char>,
    pub messages: Seq<MessageView>,
}

/// The views of a sequence of messages, element by element.
pub open spec fn messages_view(ms: Seq<Message>) -> Seq<MessageView> {
    Seq::new(ms.len(), |i: int| ms[i]@)
}

impl View for Conversation {
    type V = ConversationView;

    open spec fn view(&self) -> ConversationView {
        ConversationView { model: self.model@, messages: messages_view(self.messages@) }
    }
}

/// The invariant owed before a reply is requested: the message list is
/// non-empty and ends with a `user` message.
pub open spec fn ready_to_send(c: ConversationView) -> bool {
    c.messages.len() > 0 && c.messages.last().role == Role::User
}

/// Builds the starting conversation: one `user` message per initial text,
/// in input order. An empty slice yields an empty message list.
pub fn build_prompt(model: &str, prompts: &[String]) -> (c: Conversation)
    ensures
        c@.model == model@,
        c@.messages.len() == prompts@.len(),
        forall|i: int|
            0 <= i < prompts@.len() ==> c@.messages[i] == (MessageView {
                role: Role::User,
                content: prompts@[i]@,
            }),
        prompts@.len() > 0 ==> ready_to_send(c@),
{
    let mut messages: Vec<Message> = Vec::new();
    let mut idx: usize = 0;
    while idx < prompts.len()
        invariant
            idx <= prompts@.len(),
            messages@.len() == idx,
            forall|i: int|
                0 <= i < idx ==> messages@[i]@ == (MessageView {
                    role: Role::User,
                    content: prompts@[i]@,
                }),
        decreases prompts@.len() - idx,
    {
        let text: String = prompts[idx].clone();
        messages.push(Message { role: Role::User, content: text });
        idx = idx + 1;
    }
    Conversation { model: model.to_owned(), messages }
}

/// Appends a `user` message with the given text at the end of the history.
pub fn append_user_turn(conversation: &mut Conversation, text: String)
    ensures
        final (conversation)@.model == old(conversation)@.model,
        final (conversation)@.messages == old(conversation)@.messages.push(
            MessageView { role: Role::User, content: text@ },
        ),
{
    let ghost pre = conversation@;
    let ghost t = text@;
    conversation.messages.push(Message { role: Role::User, content: text });
    proof {
        assert(conversation@.messages =~= pre.messages.push(
            MessageView { role: Role::User, content: t },
        ));
    }
}

/// Appends an `assistant` message with the given text at the end of the
/// history.
pub fn append_assistant_turn(conversation: &mut Conversation, text: String)
    ensures
        final (conversation)@.model == old(conversation)@.model,
        final (conversation)@.messages == old(conversation)@.messages.push(
            MessageView { role: Role::Assistant, content: text@ },
        ),
{
    let ghost pre = conversation@;
    let ghost t = text@;
    conversation.messages.push(Message { role: Role::Assistant, content: text });
    proof {
        assert(conversation@.messages =~= pre.messages.push(
            MessageView { role: Role::Assistant, content: t },
        ));
    }
}

/// Roles alternate strictly, `user` first: every even position is a `user`
/// message and every odd position an `assistant` message.
pub open spec fn roles_alternate_from_user(messages: Seq<MessageView>) -> bool {
    forall|i: int|
        0 <= i < messages.len() ==> messages[i].role == (if i % 2 == 0 {
            Role::User
        } else {
            Role::Assistant
        })
}

/// Appending one user turn and one assistant turn to an alternating history
/// of even length keeps it alternating, of even length, still starting with
/// `user`. Applied turn after turn from the empty history, this is the law
/// that N user turns and N assistant turns in alternation yield a message
/// list of length `2 * N` with strictly alternating roles.
pub proof fn lemma_alternation_extends(
    messages: Seq<MessageView>,
    user_text: Seq<char>,
    assistant_text: Seq<char>,
)
    requires
        roles_alternate_from_user(messages),
        messages.len() % 2 == 0,
    ensures
        ({
            let extended = messages.push(
                MessageView { role: Role::User, content: user_text },
            ).push(MessageView { role: Role::Assistant, content: assistant_text });
            &&& roles_alternate_from_user(extended)
            &&& extended.len() == messages.len() + 2
            &&& extended.len() % 2 == 0
        }),
{
    let extended = messages.push(MessageView { role: Role::User, content: user_text }).push(
        MessageView { role: Role::Assistant, content: assistant_text },
    );
    assert forall|i: int| 0 <= i < extended.len() implies extended[i].role == (if i % 2 == 0 {
        Role::User
    } else {
        Role::Assistant
    }) by {
        if i < messages.len() {
            assert(extended[i] == messages[i]);
        }
    }
}

/// The empty history alternates vacuously; together with
/// [`lemma_alternation_extends`] this anchors the induction over turns.
pub proof fn lemma_alternation_empty()
    ensures
        roles_alternate_from_user(Seq::<MessageView>::empty()),
{
}

} // verus!
