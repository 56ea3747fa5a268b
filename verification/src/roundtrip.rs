//! The encoder and the parser are inverse: a conversation written by
//! [`conversation_json`] is read back by [`parse_conversation_seq`] as an
//! equal value. Stated over the spec functions, so it carries over to the
//! executable encoder and parser through their contracts.

use vstd::prelude::*;

use crate::conversation::ConversationView;
use crate::conversation::MessageView;
use crate::conversation::Role;
use crate::parser::code_char;
use crate::parser::expect_tok;
use crate::parser::finish_conversation;
use crate::parser::finish_message;
use crate::parser::hex4_val;
use crate::parser::hex_val;
use crate::parser::parse_conversation_member;
use crate::parser::parse_conversation_members;
use crate::parser::parse_conversation_seq;
use crate::parser::parse_message;
use crate::parser::parse_message_list;
use crate::parser::parse_message_member;
use crate::parser::parse_message_members;
use crate::parser::parse_messages_tail;
use crate::parser::parse_string;
use crate::parser::role_of_name;
use crate::parser::skip_ws;
use crate::parser::string_body;
use crate::parser::unescape_char;
use crate::text::is_ascii_ws;
use crate::wire::content_key;
use crate::wire::conversation_json;
use crate::wire::escape_char;
use crate::wire::escape_seq;
use crate::wire::hex_digit;
use crate::wire::json_string;
use crate::wire::message_json;
use crate::wire::messages_json;
use crate::wire::messages_key;
use crate::wire::messages_tail_json;
use crate::wire::model_key;
use crate::wire::quoted;
use crate::wire::role_key;
use crate::wire::role_name;

verus! {

/// Characters that stand for themselves inside a quoted literal.
pub open spec fn plain_chars(s: Seq<char>) -> bool {
    forall|i: int| 0 <= i < s.len() ==> s[i] != '"' && s[i] != '\\'
}

proof fn lemma_expect_head(t: Seq<char>, c: char)
    requires
        t.len() > 0,
        t[0] == c,
        !is_ascii_ws(c),
    ensures
        expect_tok(t, c) == Some(t.drop_first()),
{
    assert(skip_ws(t) == t);
}

proof fn lemma_hex_val_digit(d: int)
    requires
        0 <= d < 16,
    ensures
        hex_val(hex_digit(d)) == Some(d),
{
}

proof fn lemma_string_body_plain(u: Seq<char>, rest: Seq<char>)
    requires
        plain_chars(u),
    ensures
        string_body(u + seq!['"'] + rest) == Some((u, rest)),
    decreases u.len(),
{
    let t = u + seq!['"'] + rest;
    if u.len() == 0 {
        assert(t =~= seq!['"'] + rest);
        assert(t[0] == '"');
        assert(t.drop_first() =~= rest);
        assert(u =~= Seq::<char>::empty());
    } else {
        let tail = u.drop_first();
        assert(t[0] == u[0]);
        assert(u[0] != '"' && u[0] != '\\');
        assert forall|i: int| 0 <= i < tail.len() implies tail[i] != '"' && tail[i] != '\\' by {
            assert(tail[i] == u[i + 1]);
        }
        lemma_string_body_plain(tail, rest);
        assert(t.drop_first() =~= tail + seq!['"'] + rest);
        assert(seq![u[0]] + tail =~= u);
    }
}

proof fn lemma_string_body_escaped(content: Seq<char>, rest: Seq<char>)
    ensures
        string_body(escape_seq(content) + seq!['"'] + rest) == Some((content, rest)),
    decreases content.len(),
{
    let t = escape_seq(content) + seq!['"'] + rest;
    if content.len() == 0 {
        assert(escape_seq(content) =~= Seq::<char>::empty());
        assert(t =~= seq!['"'] + rest);
        assert(t[0] == '"');
        assert(t.drop_first() =~= rest);
        assert(content =~= Seq::<char>::empty());
    } else {
        let c0 = content[0];
        let tail = content.drop_first();
        let t2 = escape_seq(tail) + seq!['"'] + rest;
        assert(escape_seq(content) == escape_char(c0) + escape_seq(tail));
        lemma_string_body_escaped(tail, rest);
        assert(seq![c0] + tail =~= content);
        if c0 == '"' || c0 == '\\' || c0 == '\n' || c0 == '\r' || c0 == '\t' {
            let e = if c0 == '"' {
                '"'
            } else if c0 == '\\' {
                '\\'
            } else if c0 == '\n' {
                'n'
            } else if c0 == '\r' {
                'r'
            } else {
                't'
            };
            assert(escape_char(c0) =~= seq!['\\', e]);
            assert(unescape_char(e) == Some(c0));
            assert(t.len() >= 2);
            assert(t[0] == '\\');
            assert(t[1] == e);
            assert(t.skip(2) =~= t2);
        } else if (c0 as u32) < 0x20 {
            let v = c0 as u32;
            let hi = v as int / 16;
            let lo = v as int % 16;
            assert(escape_char(c0) =~= seq!['\\', 'u', '0', '0', hex_digit(hi), hex_digit(lo)]);
            assert(t.len() >= 6);
            assert(t[0] == '\\');
            assert(t[1] == 'u');
            assert(t[2] == '0');
            assert(t[3] == '0');
            assert(t[4] == hex_digit(hi));
            assert(t[5] == hex_digit(lo));
            assert(hex_val('0') == Some(0int));
            lemma_hex_val_digit(hi);
            lemma_hex_val_digit(lo);
            assert(hex4_val(t, 2) == Some(hi * 16 + lo));
            assert(hi * 16 + lo == v as int);
            assert((v as int) < 0xD800);
            vstd::utf8::char_u32_cast(c0, v);
            assert(code_char(v as int) == c0);
            assert(t.skip(6) =~= t2);
            assert(seq![code_char(v as int)] + tail =~= content);
        } else {
            assert(escape_char(c0) =~= seq![c0]);
            assert(t[0] == c0);
            assert(t.drop_first() =~= t2);
        }
    }
}

proof fn lemma_parse_string_plain(u: Seq<char>, rest: Seq<char>)
    requires
        plain_chars(u),
    ensures
        parse_string(quoted(u) + rest) == Some((u, rest)),
{
    let t = quoted(u) + rest;
    assert(t.len() > 0 && t[0] == '"');
    lemma_expect_head(t, '"');
    assert(t.drop_first() =~= u + seq!['"'] + rest);
    lemma_string_body_plain(u, rest);
}

proof fn lemma_parse_string_json(content: Seq<char>, rest: Seq<char>)
    ensures
        parse_string(json_string(content) + rest) == Some((content, rest)),
{
    let t = json_string(content) + rest;
    assert(t.len() > 0 && t[0] == '"');
    lemma_expect_head(t, '"');
    assert(t.drop_first() =~= escape_seq(content) + seq!['"'] + rest);
    lemma_string_body_escaped(content, rest);
}

#[verifier::rlimit(100)]
proof fn lemma_message_round(m: MessageView, rest: Seq<char>)
    ensures
        parse_message(message_json(m) + rest) == Some((m, rest)),
{
    let close = seq!['}'] + rest;
    let r5 = json_string(m.content) + close;
    let r4 = quoted(content_key()) + seq![':'] + r5;
    let r3 = seq![','] + r4;
    let r2 = quoted(role_name(m.role)) + r3;
    let r1 = quoted(role_key()) + seq![':'] + r2;
    let t = message_json(m) + rest;
    assert(plain_chars(role_key()));
    assert(plain_chars(content_key()));
    assert(plain_chars(role_name(m.role)));
    assert(t.len() > 0 && t[0] == '{');
    lemma_expect_head(t, '{');
    assert(t.drop_first() =~= r1);
    assert(r1[0] == '"');
    assert(skip_ws(r1) == r1);
    assert(expect_tok(r1, '}') is None);
    // the first member: "role"
    assert(r1 =~= quoted(role_key()) + (seq![':'] + r2));
    lemma_parse_string_plain(role_key(), seq![':'] + r2);
    assert((seq![':'] + r2)[0] == ':');
    lemma_expect_head(seq![':'] + r2, ':');
    assert((seq![':'] + r2).drop_first() =~= r2);
    lemma_parse_string_plain(role_name(m.role), r3);
    assert(role_name(Role::User).len() != role_name(Role::Assistant).len());
    assert(role_of_name(role_name(m.role)) == Some(m.role));
    assert(parse_message_member(r1, None, None) == Some(
        (Some(m.role), None::<Seq<char>>, r3),
    ));
    assert(r3[0] == ',');
    assert(skip_ws(r3) == r3);
    assert(expect_tok(r3, '}') is None);
    lemma_expect_head(r3, ',');
    assert(r3.drop_first() =~= r4);
    // the second member: "content"
    assert(role_key().len() != content_key().len());
    assert(r4 =~= quoted(content_key()) + (seq![':'] + r5));
    lemma_parse_string_plain(content_key(), seq![':'] + r5);
    assert((seq![':'] + r5)[0] == ':');
    lemma_expect_head(seq![':'] + r5, ':');
    assert((seq![':'] + r5).drop_first() =~= r5);
    lemma_parse_string_json(m.content, close);
    assert(parse_message_member(r4, Some(m.role), None) == Some(
        (Some(m.role), Some(m.content), close),
    ));
    assert(close[0] == '}');
    lemma_expect_head(close, '}');
    assert(close.drop_first() =~= rest);
    assert(finish_message(Some(m.role), Some(m.content), rest) == Some(
        ((MessageView { role: m.role, content: m.content }), rest),
    ));
    assert((MessageView { role: m.role, content: m.content }) =~= m);
    assert(parse_message_members(r4, Some(m.role), None::<Seq<char>>) == Some((m, rest)));
    assert(parse_message_members(r1, None, None::<Seq<char>>) == Some((m, rest)));
    assert(parse_message(t) == Some((m, rest)));
}

proof fn lemma_messages_tail_round(ms: Seq<MessageView>, rest: Seq<char>)
    ensures
        parse_messages_tail(messages_tail_json(ms) + seq![']'] + rest) == Some((ms, rest)),
    decreases ms.len(),
{
    let t = messages_tail_json(ms) + seq![']'] + rest;
    if ms.len() == 0 {
        assert(messages_tail_json(ms) =~= Seq::<char>::empty());
        assert(t =~= seq![']'] + rest);
        assert(t[0] == ']');
        lemma_expect_head(t, ']');
        assert(t.drop_first() =~= rest);
        assert(ms =~= Seq::<MessageView>::empty());
    } else {
        let tail = ms.drop_first();
        let u = message_json(ms[0]) + (messages_tail_json(tail) + seq![']'] + rest);
        assert(t[0] == ',');
        assert(skip_ws(t) == t);
        assert(expect_tok(t, ']') is None);
        lemma_expect_head(t, ',');
        assert(t.drop_first() =~= u);
        lemma_message_round(ms[0], messages_tail_json(tail) + seq![']'] + rest);
        lemma_messages_tail_round(tail, rest);
        assert(seq![ms[0]] + tail =~= ms);
    }
}

proof fn lemma_message_list_round(ms: Seq<MessageView>, rest: Seq<char>)
    ensures
        parse_message_list(seq!['['] + messages_json(ms) + seq![']'] + rest) == Some((ms, rest)),
{
    let t = seq!['['] + messages_json(ms) + seq![']'] + rest;
    assert(t[0] == '[');
    lemma_expect_head(t, '[');
    if ms.len() == 0 {
        assert(messages_json(ms) =~= Seq::<char>::empty());
        let u = seq![']'] + rest;
        assert(t.drop_first() =~= u);
        assert(u[0] == ']');
        lemma_expect_head(u, ']');
        assert(u.drop_first() =~= rest);
        assert(ms =~= Seq::<MessageView>::empty());
    } else {
        let tail = ms.drop_first();
        let u = message_json(ms[0]) + (messages_tail_json(tail) + seq![']'] + rest);
        assert(t.drop_first() =~= u);
        assert(u[0] == '{');
        assert(skip_ws(u) == u);
        assert(expect_tok(u, ']') is None);
        lemma_message_round(ms[0], messages_tail_json(tail) + seq![']'] + rest);
        lemma_messages_tail_round(tail, rest);
        assert(seq![ms[0]] + tail =~= ms);
    }
}

/// The round trip: every conversation written by the encoder is read back
/// by the parser, and to an equal value — equal model identifier, equal
/// message list.
#[verifier::rlimit(100)]
pub proof fn lemma_conversation_round_trip(c: ConversationView)
    ensures
        parse_conversation_seq(conversation_json(c)) == Some(c),
{
    let l = seq!['['] + messages_json(c.messages) + seq![']'] + seq!['}'];
    let r4 = quoted(messages_key()) + seq![':'] + l;
    let r3 = seq![','] + r4;
    let r2 = json_string(c.model) + r3;
    let r1 = quoted(model_key()) + seq![':'] + r2;
    let t = conversation_json(c);
    assert(plain_chars(model_key()));
    assert(plain_chars(messages_key()));
    assert(t.len() > 0 && t[0] == '{');
    lemma_expect_head(t, '{');
    assert(t.drop_first() =~= r1);
    assert(r1[0] == '"');
    assert(skip_ws(r1) == r1);
    assert(expect_tok(r1, '}') is None);
    // the first member: "model"
    assert(r1 =~= quoted(model_key()) + (seq![':'] + r2));
    lemma_parse_string_plain(model_key(), seq![':'] + r2);
    assert((seq![':'] + r2)[0] == ':');
    lemma_expect_head(seq![':'] + r2, ':');
    assert((seq![':'] + r2).drop_first() =~= r2);
    lemma_parse_string_json(c.model, r3);
    assert(parse_conversation_member(r1, None, None) == Some(
        (Some(c.model), None::<Seq<MessageView>>, r3),
    ));
    assert(r3[0] == ',');
    assert(skip_ws(r3) == r3);
    assert(expect_tok(r3, '}') is None);
    lemma_expect_head(r3, ',');
    assert(r3.drop_first() =~= r4);
    // the second member: "messages"
    assert(model_key().len() != messages_key().len());
    assert(r4 =~= quoted(messages_key()) + (seq![':'] + l));
    lemma_parse_string_plain(messages_key(), seq![':'] + l);
    assert((seq![':'] + l)[0] == ':');
    lemma_expect_head(seq![':'] + l, ':');
    assert((seq![':'] + l).drop_first() =~= l);
    lemma_message_list_round(c.messages, seq!['}']);
    assert(parse_conversation_member(r4, Some(c.model), None) == Some(
        (Some(c.model), Some(c.messages), seq!['}']),
    ));
    let close = seq!['}'];
    assert(close[0] == '}');
    lemma_expect_head(close, '}');
    assert(close.drop_first() =~= Seq::<char>::empty());
    assert(skip_ws(Seq::<char>::empty()).len() == 0);
    assert(finish_conversation(Some(c.model), Some(c.messages), Seq::<char>::empty()) == Some(
        ((ConversationView { model: c.model, messages: c.messages }), Seq::<char>::empty()),
    ));
    assert((ConversationView { model: c.model, messages: c.messages }) =~= c);
    assert(parse_conversation_members(r4, Some(c.model), None::<Seq<MessageView>>) == Some(
        (c, Seq::<char>::empty()),
    ));
    assert(parse_conversation_members(r1, None, None::<Seq<MessageView>>) == Some(
        (c, Seq::<char>::empty()),
    ));
    assert(parse_conversation_seq(t) == Some(c));
}

} // verus!
