//! The JSON wire format. The request body carries exactly the fields
//! `model` and `messages`; a success response body carries `id`, `object`,
//! `created`, `model` and `choices`, each choice wrapping one message.
//! This module states the encoding as spec functions over character
//! sequences and proves the executable encoder against them.

use vstd::prelude::*;
use vstd::string::StrSliceExecFns;
use vstd::string::StringExecFns;

use crate::conversation::Conversation;
use crate::conversation::ConversationView;
use crate::conversation::Message;
use crate::conversation::MessageView;
use crate::conversation::Role;

verus! {

/// One candidate reply returned by the remote model.
#[derive(Clone, Debug)]
pub struct Choice {
    pub message: Message,
}

/// Mathematical image of a [`Choice`].
#[verifier::ext_equal]
pub struct ChoiceView {
    pub message: MessageView,
}

impl View for Choice {
    type V = ChoiceView;

    open spec fn view(&self) -> ChoiceView {
        ChoiceView { message: self.message@ }
    }
}

/// A parsed success response from the chat-completion endpoint.
#[derive(Clone, Debug)]
pub struct Response {
    pub id: String,
    pub object: String,
    pub created: u64,
    pub model: String,
    pub choices: Vec<Choice>,
}

/// Mathematical image of a [`Response`].
#[verifier::ext_equal]
pub struct ResponseView {
    pub id: Seq<char>,
    pub object: Seq<char>,
    pub created: u64,
    pub model: Seq<char>,
    pub choices: Seq<ChoiceView>,
}

/// The views of a sequence of choices, element by element.
pub open spec fn choices_view(cs: Seq<Choice>) -> Seq<ChoiceView> {
    Seq::new(cs.len(), |i: int| cs[i]@)
}

impl View for Response {
    type V = ResponseView;

    open spec fn view(&self) -> ResponseView {
        ResponseView {
            id: self.id@,
            object: self.object@,
            created: self.created,
            model: self.model@,
            choices: choices_view(self.choices@),
        }
    }
}

// ---------------------------------------------------------------------------
// The encoding, as spec functions.
// ---------------------------------------------------------------------------

/// The lower-case hexadecimal digit for a value below sixteen.
pub open spec fn hex_digit(d: int) -> char {
    if d == 0 {
        '0'
    } else if d == 1 {
        '1'
    } else if d == 2 {
        '2'
    } else if d == 3 {
        '3'
    } else if d == 4 {
        '4'
    } else if d == 5 {
        '5'
    } else if d == 6 {
        '6'
    } else if d == 7 {
        '7'
    } else if d == 8 {
        '8'
    } else if d == 9 {
        '9'
    } else if d == 10 {
        'a'
    } else if d == 11 {
        'b'
    } else if d == 12 {
        'c'
    } else if d == 13 {
        'd'
    } else if d == 14 {
        'e'
    } else {
        'f'
    }
}

/// How one character is written inside a JSON string: the quote and the
/// backslash are escaped, the three named control characters by their
/// letters, every other control character below U+0020 as `\u00XX`, and
/// every other character stands for itself.
pub open spec fn escape_char(c: char) -> Seq<char> {
    if c == '"' {
        seq!['\\', '"']
    } else if c == '\\' {
        seq!['\\', '\\']
    } else if c == '\n' {
        seq!['\\', 'n']
    } else if c == '\r' {
        seq!['\\', 'r']
    } else if c == '\t' {
        seq!['\\', 't']
    } else if (c as u32) < 0x20 {
        seq!['\\', 'u', '0', '0', hex_digit(c as u32 as int / 16), hex_digit(c as u32 as int % 16)]
    } else {
        seq![c]
    }
}

/// A character sequence written inside a JSON string.
pub open spec fn escape_seq(s: Seq<char>) -> Seq<char>
    decreases s.len(),
{
    if s.len() == 0 {
        Seq::empty()
    } else {
        escape_char(s[0]) + escape_seq(s.drop_first())
    }
}

/// A sequence wrapped in quotes, written as it stands.
pub open spec fn quoted(s: Seq<char>) -> Seq<char> {
    seq!['"'] + s + seq!['"']
}

/// A JSON string literal: the escaped contents wrapped in quotes.
pub open spec fn json_string(s: Seq<char>) -> Seq<char> {
    quoted(escape_seq(s))
}

/// The wire name of a role.
pub open spec fn role_name(r: Role) -> Seq<char> {
    if r == Role::User {
        seq!['u', 's', 'e', 'r']
    } else {
        seq!['a', 's', 's', 'i', 's', 't', 'a', 'n', 't']
    }
}

pub open spec fn role_key() -> Seq<char> {
    seq!['r', 'o', 'l', 'e']
}

pub open spec fn content_key() -> Seq<char> {
    seq!['c', 'o', 'n', 't', 'e', 'n', 't']
}

pub open spec fn model_key() -> Seq<char> {
    seq!['m', 'o', 'd', 'e', 'l']
}

pub open spec fn messages_key() -> Seq<char> {
    seq!['m', 'e', 's', 's', 'a', 'g', 'e', 's']
}

pub open spec fn id_key() -> Seq<char> {
    seq!['i', 'd']
}

pub open spec fn object_key() -> Seq<char> {
    seq!['o', 'b', 'j', 'e', 'c', 't']
}

pub open spec fn created_key() -> Seq<char> {
    seq!['c', 'r', 'e', 'a', 't', 'e', 'd']
}

pub open spec fn choices_key() -> Seq<char> {
    seq!['c', 'h', 'o', 'i', 'c', 'e', 's']
}

pub open spec fn message_key() -> Seq<char> {
    seq!['m', 'e', 's', 's', 'a', 'g', 'e']
}

/// One message on the wire: `{"role":"<role>","content":"<escaped text>"}`.
pub open spec fn message_json(m: MessageView) -> Seq<char> {
    seq!['{'] + quoted(role_key()) + seq![':'] + quoted(role_name(m.role)) + seq![','] + quoted(
        content_key(),
    ) + seq![':'] + json_string(m.content) + seq!['}']
}

/// Second and later messages of a list, each preceded by a comma.
pub open spec fn messages_tail_json(ms: Seq<MessageView>) -> Seq<char>
    decreases ms.len(),
{
    if ms.len() == 0 {
        Seq::empty()
    } else {
        seq![','] + message_json(ms[0]) + messages_tail_json(ms.drop_first())
    }
}

/// The contents of the `messages` array, comma-separated.
pub open spec fn messages_json(ms: Seq<MessageView>) -> Seq<char> {
    if ms.len() == 0 {
        Seq::empty()
    } else {
        message_json(ms[0]) + messages_tail_json(ms.drop_first())
    }
}

/// A whole request body: `{"model":"<id>","messages":[...]}`.
pub open spec fn conversation_json(c: ConversationView) -> Seq<char> {
    seq!['{'] + quoted(model_key()) + seq![':'] + json_string(c.model) + seq![','] + quoted(
        messages_key(),
    ) + seq![':'] + seq!['['] + messages_json(c.messages) + seq![']'] + seq!['}']
}

// ---------------------------------------------------------------------------
// Facts about the encoding.
// ---------------------------------------------------------------------------

pub proof fn lemma_escape_snoc(s: Seq<char>, c: char)
    ensures
        escape_seq(s.push(c)) == escape_seq(s) + escape_char(c),
    decreases s.len(),
{
    if s.len() == 0 {
        assert(s.push(c)[0] == c);
        assert(s.push(c).drop_first() =~= s);
        assert(escape_seq(s) == Seq::<char>::empty());
        assert(escape_seq(s.push(c)) =~= escape_seq(s) + escape_char(c));
    } else {
        assert(s.push(c)[0] == s[0]);
        assert(s.push(c).drop_first() =~= s.drop_first().push(c));
        lemma_escape_snoc(s.drop_first(), c);
        assert(escape_seq(s.push(c)) =~= escape_seq(s) + escape_char(c));
    }
}

pub proof fn lemma_messages_tail_snoc(ms: Seq<MessageView>, m: MessageView)
    ensures
        messages_tail_json(ms.push(m)) == messages_tail_json(ms) + seq![','] + message_json(m),
    decreases ms.len(),
{
    if ms.len() == 0 {
        assert(ms.push(m)[0] == m);
        assert(ms.push(m).drop_first() =~= ms);
        assert(messages_tail_json(ms) == Seq::<char>::empty());
        assert(messages_tail_json(ms.push(m)) =~= messages_tail_json(ms) + seq![',']
            + message_json(m));
    } else {
        assert(ms.push(m)[0] == ms[0]);
        assert(ms.push(m).drop_first() =~= ms.drop_first().push(m));
        lemma_messages_tail_snoc(ms.drop_first(), m);
        assert(messages_tail_json(ms.push(m)) =~= messages_tail_json(ms) + seq![',']
            + message_json(m));
    }
}

pub proof fn lemma_messages_snoc(ms: Seq<MessageView>, m: MessageView)
    ensures
        messages_json(ms.push(m)) == if ms.len() == 0 {
            message_json(m)
        } else {
            messages_json(ms) + seq![','] + message_json(m)
        },
{
    if ms.len() == 0 {
        assert(ms.push(m)[0] == m);
        assert(ms.push(m).drop_first() =~= Seq::<MessageView>::empty());
        assert(messages_json(ms.push(m)) =~= message_json(m));
    } else {
        assert(ms.push(m)[0] == ms[0]);
        assert(ms.push(m).drop_first() =~= ms.drop_first().push(m));
        lemma_messages_tail_snoc(ms.drop_first(), m);
        assert(messages_json(ms.push(m)) =~= messages_json(ms) + seq![','] + message_json(m));
    }
}

// ---------------------------------------------------------------------------
// The executable encoder.
// ---------------------------------------------------------------------------

/// The one-character string for a hexadecimal digit.
fn hex_char_str(d: u32) -> (r: &'static str)
    requires
        d < 16,
    ensures
        r@ == seq![hex_digit(d as int)],
{
    if d == 0 {
        proof {
            reveal_strlit("0");
            assert("0"@ =~= seq!['0']);
        }
        "0"
    } else if d == 1 {
        proof {
            reveal_strlit("1");
            assert("1"@ =~= seq!['1']);
        }
        "1"
    } else if d == 2 {
        proof {
            reveal_strlit("2");
            assert("2"@ =~= seq!['2']);
        }
        "2"
    } else if d == 3 {
        proof {
            reveal_strlit("3");
            assert("3"@ =~= seq!['3']);
        }
        "3"
    } else if d == 4 {
        proof {
            reveal_strlit("4");
            assert("4"@ =~= seq!['4']);
        }
        "4"
    } else if d == 5 {
        proof {
            reveal_strlit("5");
            assert("5"@ =~= seq!['5']);
        }
        "5"
    } else if d == 6 {
        proof {
            reveal_strlit("6");
            assert("6"@ =~= seq!['6']);
        }
        "6"
    } else if d == 7 {
        proof {
            reveal_strlit("7");
            assert("7"@ =~= seq!['7']);
        }
        "7"
    } else if d == 8 {
        proof {
            reveal_strlit("8");
            assert("8"@ =~= seq!['8']);
        }
        "8"
    } else if d == 9 {
        proof {
            reveal_strlit("9");
            assert("9"@ =~= seq!['9']);
        }
        "9"
    } else if d == 10 {
        proof {
            reveal_strlit("a");
            assert("a"@ =~= seq!['a']);
        }
        "a"
    } else if d == 11 {
        proof {
            reveal_strlit("b");
            assert("b"@ =~= seq!['b']);
        }
        "b"
    } else if d == 12 {
        proof {
            reveal_strlit("c");
            assert("c"@ =~= seq!['c']);
        }
        "c"
    } else if d == 13 {
        proof {
            reveal_strlit("d");
            assert("d"@ =~= seq!['d']);
        }
        "d"
    } else if d == 14 {
        proof {
            reveal_strlit("e");
            assert("e"@ =~= seq!['e']);
        }
        "e"
    } else {
        proof {
            reveal_strlit("f");
            assert("f"@ =~= seq!['f']);
        }
        "f"
    }
}

/// Appends the escaped image of `s` to `out`.
fn append_escaped(out: &mut String, s: &str)
    ensures
        final (out)@ == old(out)@ + escape_seq(s@),
{
    let n = s.unicode_len();
    let mut i: usize = 0;
    while i < n
        invariant
            0 <= i <= n,
            n == s@.len(),
            out@ == old(out)@ + escape_seq(s@.take(i as int)),
        decreases n - i,
    {
        let c = s.get_char(i);
        if c == '"' {
            out.append("\\\"");
            proof {
                reveal_strlit("\\\"");
                assert("\\\""@ =~= escape_char(s@[i as int]));
            }
        } else if c == '\\' {
            out.append("\\\\");
            proof {
                reveal_strlit("\\\\");
                assert("\\\\"@ =~= escape_char(s@[i as int]));
            }
        } else if c == '\n' {
            out.append("\\n");
            proof {
                reveal_strlit("\\n");
                assert("\\n"@ =~= escape_char(s@[i as int]));
            }
        } else if c == '\r' {
            out.append("\\r");
            proof {
                reveal_strlit("\\r");
                assert("\\r"@ =~= escape_char(s@[i as int]));
            }
        } else if c == '\t' {
            out.append("\\t");
            proof {
                reveal_strlit("\\t");
                assert("\\t"@ =~= escape_char(s@[i as int]));
            }
        } else if (c as u32) < 0x20 {
            let d: u32 = c as u32;
            out.append("\\u00");
            out.append(hex_char_str(d / 16));
            out.append(hex_char_str(d % 16));
            proof {
                reveal_strlit("\\u00");
                assert("\\u00"@ =~= seq!['\\', 'u', '0', '0']);
                assert("\\u00"@ + seq![hex_digit((d / 16) as int)] + seq![hex_digit((d % 16) as int)] =~= escape_char(
                    s@[i as int],
                ));
            }
        } else {
            let piece = s.substring_char(i, i + 1);
            out.append(piece);
            proof {
                assert(piece@ =~= seq![s@[i as int]]);
                assert(seq![s@[i as int]] =~= escape_char(s@[i as int]));
            }
        }
        proof {
            lemma_escape_snoc(s@.take(i as int), s@[i as int]);
            assert(s@.take(i as int).push(s@[i as int]) =~= s@.take(i as int + 1));
            assert(out@ =~= old(out)@ + escape_seq(s@.take(i as int + 1)));
        }
        i = i + 1;
    }
    proof {
        assert(s@.take(n as int) =~= s@);
    }
}

/// Appends the JSON string literal for `s` to `out`.
fn append_json_string(out: &mut String, s: &str)
    ensures
        final (out)@ == old(out)@ + json_string(s@),
{
    out.append("\"");
    append_escaped(out, s);
    out.append("\"");
    proof {
        reveal_strlit("\"");
        assert("\""@ =~= seq!['"']);
        assert(out@ =~= old(out)@ + json_string(s@));
    }
}

/// Appends the wire image of one message to `out`.
fn append_message(out: &mut String, m: &Message)
    ensures
        final (out)@ == old(out)@ + message_json(m@),
{
    out.append("{\"role\":\"");
    proof {
        reveal_strlit("{\"role\":\"");
        assert("{\"role\":\""@ =~= seq!['{'] + quoted(role_key()) + seq![':'] + seq!['"']);
    }
    match m.role {
        Role::User => {
            out.append("user\"");
            proof {
                reveal_strlit("user\"");
                assert("user\""@ =~= role_name(m@.role) + seq!['"']);
            }
        },
        Role::Assistant => {
            out.append("assistant\"");
            proof {
                reveal_strlit("assistant\"");
                assert("assistant\""@ =~= role_name(m@.role) + seq!['"']);
            }
        },
    }
    out.append(",\"content\":");
    proof {
        reveal_strlit(",\"content\":");
        assert(",\"content\":"@ =~= seq![','] + quoted(content_key()) + seq![':']);
    }
    append_json_string(out, m.content.as_str());
    out.append("}");
    proof {
        reveal_strlit("}");
        assert("}"@ =~= seq!['}']);
        assert(out@ =~= old(out)@ + message_json(m@));
    }
}

/// Encodes a conversation into its request body,
/// `{"model":"<id>","messages":[...]}`, exactly as [`conversation_json`]
/// states it.
pub fn encode_conversation(c: &Conversation) -> (out: String)
    ensures
        out@ == conversation_json(c@),
{
    let ghost head = seq!['{'] + quoted(model_key()) + seq![':'] + json_string(c@.model) + seq![',']
        + quoted(messages_key()) + seq![':'] + seq!['['];
    let mut out = String::new();
    out.append("{\"model\":");
    proof {
        reveal_strlit("{\"model\":");
        assert("{\"model\":"@ =~= seq!['{'] + quoted(model_key()) + seq![':']);
    }
    append_json_string(&mut out, c.model.as_str());
    out.append(",\"messages\":[");
    proof {
        reveal_strlit(",\"messages\":[");
        assert(",\"messages\":["@ =~= seq![','] + quoted(messages_key()) + seq![':'] + seq!['[']);
        assert(out@ =~= head + messages_json(c@.messages.take(0)));
    }
    let n = c.messages.len();
    let mut i: usize = 0;
    while i < n
        invariant
            0 <= i <= n,
            n == c@.messages.len(),
            out@ == head + messages_json(c@.messages.take(i as int)),
        decreases n - i,
    {
        if i > 0 {
            out.append(",");
            proof {
                reveal_strlit(",");
                assert(","@ =~= seq![',']);
            }
        }
        append_message(&mut out, &c.messages[i]);
        proof {
            assert(c.messages@[i as int]@ == c@.messages[i as int]);
            lemma_messages_snoc(c@.messages.take(i as int), c@.messages[i as int]);
            assert(c@.messages.take(i as int).push(c@.messages[i as int]) =~= c@.messages.take(
                i as int + 1,
            ));
            assert(out@ =~= head + messages_json(c@.messages.take(i as int + 1)));
        }
        i = i + 1;
    }
    out.append("]}");
    proof {
        reveal_strlit("]}");
        assert("]}"@ =~= seq![']'] + seq!['}']);
        assert(c@.messages.take(n as int) =~= c@.messages);
        assert(out@ =~= conversation_json(c@));
    }
    out
}

} // verus!
