//! Parsing the JSON wire format back into values: first as total spec
//! functions over character sequences (the authoritative statement of what
//! parses and to what), then as an executable parser proved to return
//! exactly what the spec functions say.
//!
//! The grammar is JSON as the wire format needs it: objects whose members
//! may come in any order, with unknown members skipped and duplicate known
//! members refused; string literals with the backslash escapes including
//! `\uXXXX` (surrogate pairs combined, lone surrogates refused); an
//! unsigned integer for `created`; whitespace between tokens.

use vstd::prelude::*;
use vstd::string::StrSliceExecFns;
use vstd::string::StringExecFns;

use crate::conversation::Conversation;
use crate::conversation::ConversationView;
use crate::conversation::Message;
use crate::conversation::MessageView;
use crate::conversation::Role;
use crate::conversation::messages_view;
use crate::text::is_ascii_ws;
use crate::text::str_eq;
use crate::wire::Choice;
use crate::wire::ChoiceView;
use crate::wire::Response;
use crate::wire::ResponseView;
use crate::wire::choices_key;
use crate::wire::choices_view;
use crate::wire::content_key;
use crate::wire::created_key;
use crate::wire::id_key;
use crate::wire::message_key;
use crate::wire::messages_key;
use crate::wire::model_key;
use crate::wire::object_key;
use crate::wire::role_key;
use crate::wire::role_name;

verus! {

// ---------------------------------------------------------------------------
// The grammar, as spec functions. Each takes the text still to be read and
// returns what it recognised together with the text that remains, or `None`.
// ---------------------------------------------------------------------------

/// The text with its leading whitespace removed.
pub open spec fn skip_ws(t: Seq<char>) -> Seq<char>
    decreases t.len(),
{
    if t.len() > 0 && is_ascii_ws(t[0]) {
        skip_ws(t.drop_first())
    } else {
        t
    }
}

/// Recognises the single character `c`, whitespace before it allowed.
pub open spec fn expect_tok(t: Seq<char>, c: char) -> Option<Seq<char>> {
    let u = skip_ws(t);
    if u.len() > 0 && u[0] == c {
        Some(u.drop_first())
    } else {
        None
    }
}

/// The character denoted by a one-letter backslash escape.
pub open spec fn unescape_char(c: char) -> Option<char> {
    if c == '"' {
        Some('"')
    } else if c == '\\' {
        Some('\\')
    } else if c == '/' {
        Some('/')
    } else if c == 'n' {
        Some('\n')
    } else if c == 'r' {
        Some('\r')
    } else if c == 't' {
        Some('\t')
    } else if c == 'b' {
        Some('\u{0008}')
    } else if c == 'f' {
        Some('\u{000C}')
    } else {
        None
    }
}

/// The value of one hexadecimal digit, upper or lower case.
pub open spec fn hex_val(c: char) -> Option<int> {
    let d = c as u32;
    if 48 <= d && d <= 57 {
        Some(d as int - 48)
    } else if 97 <= d && d <= 102 {
        Some(d as int - 87)
    } else if 65 <= d && d <= 70 {
        Some(d as int - 55)
    } else {
        None
    }
}

/// The value of the four hexadecimal digits at `t[i..i+4]`.
pub open spec fn hex4_val(t: Seq<char>, i: int) -> Option<int> {
    if 0 <= i && i + 4 <= t.len() {
        match (hex_val(t[i]), hex_val(t[i + 1]), hex_val(t[i + 2]), hex_val(t[i + 3])) {
            (Some(a), Some(b), Some(c), Some(d)) => Some(a * 4096 + b * 256 + c * 16 + d),
            _ => None,
        }
    } else {
        None
    }
}

/// The character with the given code.
pub open spec fn code_char(v: int) -> char {
    (v as u32) as char
}

/// The inside of a string literal, read from just after the opening quote
/// up to and including the closing quote. A `\uXXXX` escape denotes its
/// code point; a high surrogate must be followed by an escaped low
/// surrogate and the pair denotes one character.
pub open spec fn string_body(t: Seq<char>) -> Option<(Seq<char>, Seq<char>)>
    decreases t.len(),
{
    if t.len() == 0 {
        None
    } else if t[0] == '"' {
        Some((Seq::empty(), t.drop_first()))
    } else if t[0] == '\\' {
        if t.len() < 2 {
            None
        } else if t[1] == 'u' {
            match hex4_val(t, 2) {
                Some(v) => if !(0xD800 <= v && v < 0xE000) {
                    match string_body(t.skip(6)) {
                        Some((u, r)) => Some((seq![code_char(v)] + u, r)),
                        None => None,
                    }
                } else if v < 0xDC00 {
                    if t.len() >= 12 && t[6] == '\\' && t[7] == 'u' {
                        match hex4_val(t, 8) {
                            Some(w) => if 0xDC00 <= w && w < 0xE000 {
                                match string_body(t.skip(12)) {
                                    Some((u, r)) => Some(
                                        (
                                            seq![
                                                code_char(
                                                    0x10000 + (v - 0xD800) * 0x400 + (w - 0xDC00),
                                                ),
                                            ] + u,
                                            r,
                                        ),
                                    ),
                                    None => None,
                                }
                            } else {
                                None
                            },
                            None => None,
                        }
                    } else {
                        None
                    }
                } else {
                    None
                },
                None => None,
            }
        } else {
            match unescape_char(t[1]) {
                Some(c) => match string_body(t.skip(2)) {
                    Some((u, r)) => Some((seq![c] + u, r)),
                    None => None,
                },
                None => None,
            }
        }
    } else {
        match string_body(t.drop_first()) {
            Some((u, r)) => Some((seq![t[0]] + u, r)),
            None => None,
        }
    }
}

/// A whole string literal, whitespace before it allowed.
pub open spec fn parse_string(t: Seq<char>) -> Option<(Seq<char>, Seq<char>)> {
    match expect_tok(t, '"') {
        Some(u) => string_body(u),
        None => None,
    }
}

/// The role a wire name denotes.
pub open spec fn role_of_name(s: Seq<char>) -> Option<Role> {
    if s == role_name(Role::User) {
        Some(Role::User)
    } else if s == role_name(Role::Assistant) {
        Some(Role::Assistant)
    } else {
        None
    }
}

/// Whether `c` is a decimal digit.
pub open spec fn is_digit(c: char) -> bool {
    48 <= c as u32 && c as u32 <= 57
}

/// The numeric value of a digit.
pub open spec fn digit_val(c: char) -> nat {
    ((c as u32) - 48) as nat
}

/// Reads digits left to right, folding them onto `acc`; returns the value
/// and the first non-digit rest.
pub open spec fn take_digits(t: Seq<char>, acc: nat) -> (nat, Seq<char>)
    decreases t.len(),
{
    if t.len() > 0 && is_digit(t[0]) {
        take_digits(t.drop_first(), acc * 10 + digit_val(t[0]))
    } else {
        (acc, t)
    }
}

/// An unsigned integer that fits in 64 bits, whitespace before it allowed.
pub open spec fn parse_u64(t: Seq<char>) -> Option<(u64, Seq<char>)> {
    let u = skip_ws(t);
    if u.len() > 0 && is_digit(u[0]) {
        let (n, r) = take_digits(u, 0);
        if n <= u64::MAX {
            Some((n as u64, r))
        } else {
            None
        }
    } else {
        None
    }
}

// ---------------------------------------------------------------------------
// Every parser consumes at least one character when it succeeds. These
// facts justify termination of the recursive parsers below and of the
// executable loops.
// ---------------------------------------------------------------------------

pub proof fn lemma_skip_ws_len(t: Seq<char>)
    ensures
        skip_ws(t).len() <= t.len(),
    decreases t.len(),
{
    if t.len() > 0 && is_ascii_ws(t[0]) {
        lemma_skip_ws_len(t.drop_first());
    }
}

pub proof fn lemma_expect_tok_len(t: Seq<char>, c: char)
    ensures
        expect_tok(t, c) matches Some(u) ==> u.len() < t.len(),
{
    lemma_skip_ws_len(t);
}

pub proof fn lemma_string_body_len(t: Seq<char>)
    ensures
        string_body(t) matches Some((u, r)) ==> r.len() < t.len(),
    decreases t.len(),
{
    if t.len() == 0 {
    } else if t[0] == '"' {
    } else if t[0] == '\\' {
        if t.len() >= 2 {
            if t[1] == 'u' {
                if t.len() >= 6 {
                    lemma_string_body_len(t.skip(6));
                }
                if t.len() >= 12 {
                    lemma_string_body_len(t.skip(12));
                }
            } else {
                lemma_string_body_len(t.skip(2));
            }
        }
    } else {
        lemma_string_body_len(t.drop_first());
    }
}

pub proof fn lemma_parse_string_len(t: Seq<char>)
    ensures
        parse_string(t) matches Some((u, r)) ==> r.len() < t.len(),
{
    lemma_expect_tok_len(t, '"');
    match expect_tok(t, '"') {
        Some(u) => lemma_string_body_len(u),
        None => {},
    }
}

proof fn lemma_take_digits_len(t: Seq<char>, acc: nat)
    ensures
        take_digits(t, acc).1.len() <= t.len(),
    decreases t.len(),
{
    if t.len() > 0 && is_digit(t[0]) {
        lemma_take_digits_len(t.drop_first(), acc * 10 + digit_val(t[0]));
    }
}

pub proof fn lemma_parse_u64_len(t: Seq<char>)
    ensures
        parse_u64(t) matches Some((v, r)) ==> r.len() < t.len(),
{
    lemma_skip_ws_len(t);
    let u = skip_ws(t);
    if u.len() > 0 && is_digit(u[0]) {
        lemma_take_digits_len(u.drop_first(), digit_val(u[0]));
    }
}

// ---------------------------------------------------------------------------
// Skipping one unknown JSON value: string, number, object, array, `true`,
// `false` or `null`, nested values included. The fuel only bounds the
// recursion; `skip_value_whole` supplies more than any input can use.
// ---------------------------------------------------------------------------

/// A character that can continue a JSON number.
pub open spec fn is_num_char(c: char) -> bool {
    is_digit(c) || c == '-' || c == '+' || c == '.' || c == 'e' || c == 'E'
}

/// The text after a greedy run of number characters.
pub open spec fn num_rest(t: Seq<char>) -> Seq<char>
    decreases t.len(),
{
    if t.len() > 0 && is_num_char(t[0]) {
        num_rest(t.drop_first())
    } else {
        t
    }
}

/// One JSON value, whitespace before it allowed.
pub open spec fn skip_value(t: Seq<char>, fuel: nat) -> Option<Seq<char>>
    decreases fuel,
{
    if fuel == 0 {
        None
    } else {
        let u = skip_ws(t);
        if u.len() == 0 {
            None
        } else if u[0] == '"' {
            match string_body(u.drop_first()) {
                Some((txt, r)) => Some(r),
                None => None,
            }
        } else if u[0] == '{' {
            skip_object_rest(u.drop_first(), (fuel - 1) as nat)
        } else if u[0] == '[' {
            skip_array_rest(u.drop_first(), (fuel - 1) as nat)
        } else if u[0] == 't' {
            if u.len() >= 4 && u[1] == 'r' && u[2] == 'u' && u[3] == 'e' {
                Some(u.skip(4))
            } else {
                None
            }
        } else if u[0] == 'f' {
            if u.len() >= 5 && u[1] == 'a' && u[2] == 'l' && u[3] == 's' && u[4] == 'e' {
                Some(u.skip(5))
            } else {
                None
            }
        } else if u[0] == 'n' {
            if u.len() >= 4 && u[1] == 'u' && u[2] == 'l' && u[3] == 'l' {
                Some(u.skip(4))
            } else {
                None
            }
        } else if u[0] == '-' || is_digit(u[0]) {
            Some(num_rest(u.drop_first()))
        } else {
            None
        }
    }
}

/// The rest of an object, read from just after its opening brace.
pub open spec fn skip_object_rest(t: Seq<char>, fuel: nat) -> Option<Seq<char>>
    decreases fuel,
{
    if fuel == 0 {
        None
    } else {
        match expect_tok(t, '}') {
            Some(r) => Some(r),
            None => skip_members(t, (fuel - 1) as nat),
        }
    }
}

/// One or more object members, then the closing brace.
pub open spec fn skip_members(t: Seq<char>, fuel: nat) -> Option<Seq<char>>
    decreases fuel,
{
    if fuel == 0 {
        None
    } else {
        match parse_string(t) {
            Some((k, r1)) => match expect_tok(r1, ':') {
                Some(r2) => match skip_value(r2, (fuel - 1) as nat) {
                    Some(r3) => match expect_tok(r3, '}') {
                        Some(r4) => Some(r4),
                        None => match expect_tok(r3, ',') {
                            Some(r5) => skip_members(r5, (fuel - 1) as nat),
                            None => None,
                        },
                    },
                    None => None,
                },
                None => None,
            },
            None => None,
        }
    }
}

/// The rest of an array, read from just after its opening bracket.
pub open spec fn skip_array_rest(t: Seq<char>, fuel: nat) -> Option<Seq<char>>
    decreases fuel,
{
    if fuel == 0 {
        None
    } else {
        match expect_tok(t, ']') {
            Some(r) => Some(r),
            None => skip_elements(t, (fuel - 1) as nat),
        }
    }
}

/// One or more array elements, then the closing bracket.
pub open spec fn skip_elements(t: Seq<char>, fuel: nat) -> Option<Seq<char>>
    decreases fuel,
{
    if fuel == 0 {
        None
    } else {
        match skip_value(t, (fuel - 1) as nat) {
            Some(r) => match expect_tok(r, ']') {
                Some(r2) => Some(r2),
                None => match expect_tok(r, ',') {
                    Some(r3) => skip_elements(r3, (fuel - 1) as nat),
                    None => None,
                },
            },
            None => None,
        }
    }
}

/// One JSON value with fuel no input can exhaust: nesting consumes at
/// least one character for every three fuel units spent.
pub open spec fn skip_value_whole(t: Seq<char>) -> Option<Seq<char>> {
    skip_value(t, (3 * t.len() + 3) as nat)
}

proof fn lemma_num_rest_len(t: Seq<char>)
    ensures
        num_rest(t).len() <= t.len(),
    decreases t.len(),
{
    if t.len() > 0 && is_num_char(t[0]) {
        lemma_num_rest_len(t.drop_first());
    }
}

proof fn lemma_skip_value_len(t: Seq<char>, fuel: nat)
    ensures
        skip_value(t, fuel) matches Some(r) ==> r.len() < t.len(),
    decreases fuel,
{
    if fuel > 0 {
        lemma_skip_ws_len(t);
        let u = skip_ws(t);
        if u.len() > 0 {
            if u[0] == '"' {
                lemma_string_body_len(u.drop_first());
            } else if u[0] == '{' {
                lemma_skip_object_rest_len(u.drop_first(), (fuel - 1) as nat);
            } else if u[0] == '[' {
                lemma_skip_array_rest_len(u.drop_first(), (fuel - 1) as nat);
            } else if u[0] == '-' || is_digit(u[0]) {
                lemma_num_rest_len(u.drop_first());
            }
        }
    }
}

proof fn lemma_skip_object_rest_len(t: Seq<char>, fuel: nat)
    ensures
        skip_object_rest(t, fuel) matches Some(r) ==> r.len() < t.len(),
    decreases fuel,
{
    if fuel > 0 {
        lemma_expect_tok_len(t, '}');
        lemma_skip_members_len(t, (fuel - 1) as nat);
    }
}

proof fn lemma_skip_members_len(t: Seq<char>, fuel: nat)
    ensures
        skip_members(t, fuel) matches Some(r) ==> r.len() < t.len(),
    decreases fuel,
{
    if fuel > 0 {
        lemma_parse_string_len(t);
        match parse_string(t) {
            Some((k, r1)) => {
                lemma_expect_tok_len(r1, ':');
                match expect_tok(r1, ':') {
                    Some(r2) => {
                        lemma_skip_value_len(r2, (fuel - 1) as nat);
                        match skip_value(r2, (fuel - 1) as nat) {
                            Some(r3) => {
                                lemma_expect_tok_len(r3, '}');
                                lemma_expect_tok_len(r3, ',');
                                match expect_tok(r3, ',') {
                                    Some(r5) => {
                                        lemma_skip_members_len(r5, (fuel - 1) as nat);
                                    },
                                    None => {},
                                }
                            },
                            None => {},
                        }
                    },
                    None => {},
                }
            },
            None => {},
        }
    }
}

proof fn lemma_skip_array_rest_len(t: Seq<char>, fuel: nat)
    ensures
        skip_array_rest(t, fuel) matches Some(r) ==> r.len() < t.len(),
    decreases fuel,
{
    if fuel > 0 {
        lemma_expect_tok_len(t, ']');
        lemma_skip_elements_len(t, (fuel - 1) as nat);
    }
}

proof fn lemma_skip_elements_len(t: Seq<char>, fuel: nat)
    ensures
        skip_elements(t, fuel) matches Some(r) ==> r.len() < t.len(),
    decreases fuel,
{
    if fuel > 0 {
        lemma_skip_value_len(t, (fuel - 1) as nat);
        match skip_value(t, (fuel - 1) as nat) {
            Some(r) => {
                lemma_expect_tok_len(r, ']');
                lemma_expect_tok_len(r, ',');
                match expect_tok(r, ',') {
                    Some(r3) => {
                        lemma_skip_elements_len(r3, (fuel - 1) as nat);
                    },
                    None => {},
                }
            },
            None => {},
        }
    }
}

pub proof fn lemma_skip_value_whole_len(t: Seq<char>)
    ensures
        skip_value_whole(t) matches Some(r) ==> r.len() < t.len(),
{
    lemma_skip_value_len(t, (3 * t.len() + 3) as nat);
}

// ---------------------------------------------------------------------------
// Message objects: members in any order, `role` and `content` required
// once each, unknown members skipped.
// ---------------------------------------------------------------------------

/// The finished message once its closing brace is read, if both required
/// members were present.
pub open spec fn finish_message(
    role: Option<Role>,
    content: Option<Seq<char>>,
    rest: Seq<char>,
) -> Option<(MessageView, Seq<char>)> {
    match (role, content) {
        (Some(ro), Some(co)) => Some((MessageView { role: ro, content: co }, rest)),
        _ => None,
    }
}

/// One member of a message object, updating the slot it names.
pub open spec fn parse_message_member(
    t: Seq<char>,
    role: Option<Role>,
    content: Option<Seq<char>>,
) -> Option<(Option<Role>, Option<Seq<char>>, Seq<char>)> {
    match parse_string(t) {
        Some((k, r1)) => match expect_tok(r1, ':') {
            Some(r2) => if k == role_key() {
                if role is Some {
                    None
                } else {
                    match parse_string(r2) {
                        Some((rname, r3)) => match role_of_name(rname) {
                            Some(ro) => Some((Some(ro), content, r3)),
                            None => None,
                        },
                        None => None,
                    }
                }
            } else if k == content_key() {
                if content is Some {
                    None
                } else {
                    match parse_string(r2) {
                        Some((co, r3)) => Some((role, Some(co), r3)),
                        None => None,
                    }
                }
            } else {
                match skip_value_whole(r2) {
                    Some(r3) => Some((role, content, r3)),
                    None => None,
                }
            },
            None => None,
        },
        None => None,
    }
}

proof fn lemma_parse_message_member_len(t: Seq<char>, role: Option<Role>, content: Option<Seq<char>>)
    ensures
        parse_message_member(t, role, content) matches Some(p) ==> p.2.len() < t.len(),
{
    lemma_parse_string_len(t);
    match parse_string(t) {
        Some((k, r1)) => {
            lemma_expect_tok_len(r1, ':');
            match expect_tok(r1, ':') {
                Some(r2) => {
                    lemma_parse_string_len(r2);
                    lemma_skip_value_whole_len(r2);
                },
                None => {},
            }
        },
        None => {},
    }
}

/// The members of a message object, read from after the opening brace (at
/// least one member), up to and including the closing brace.
pub open spec fn parse_message_members(
    t: Seq<char>,
    role: Option<Role>,
    content: Option<Seq<char>>,
) -> Option<(MessageView, Seq<char>)>
    decreases t.len(),
    via check_parse_message_members
{
    match parse_message_member(t, role, content) {
        Some((role2, content2, r)) => match expect_tok(r, '}') {
            Some(r2) => finish_message(role2, content2, r2),
            None => match expect_tok(r, ',') {
                Some(r3) => parse_message_members(r3, role2, content2),
                None => None,
            },
        },
        None => None,
    }
}

#[via_fn]
proof fn check_parse_message_members(t: Seq<char>, role: Option<Role>, content: Option<Seq<char>>) {
    lemma_parse_message_member_len(t, role, content);
    match parse_message_member(t, role, content) {
        Some((role2, content2, r)) => {
            lemma_expect_tok_len(r, ',');
        },
        None => {},
    }
}

/// One message object: `role` and `content` in either order, unknown
/// members skipped, an empty object refused.
pub open spec fn parse_message(t: Seq<char>) -> Option<(MessageView, Seq<char>)> {
    match expect_tok(t, '{') {
        Some(u) => match expect_tok(u, '}') {
            Some(r) => None,
            None => parse_message_members(u, None, None),
        },
        None => None,
    }
}

proof fn lemma_parse_message_members_len(
    t: Seq<char>,
    role: Option<Role>,
    content: Option<Seq<char>>,
)
    ensures
        parse_message_members(t, role, content) matches Some((m, r)) ==> r.len() < t.len(),
    decreases t.len(),
{
    lemma_parse_message_member_len(t, role, content);
    match parse_message_member(t, role, content) {
        Some((role2, content2, r)) => {
            lemma_expect_tok_len(r, '}');
            lemma_expect_tok_len(r, ',');
            match expect_tok(r, ',') {
                Some(r3) => {
                    lemma_parse_message_members_len(r3, role2, content2);
                },
                None => {},
            }
        },
        None => {},
    }
}

pub proof fn lemma_parse_message_len(t: Seq<char>)
    ensures
        parse_message(t) matches Some((m, r)) ==> r.len() < t.len(),
{
    lemma_expect_tok_len(t, '{');
    match expect_tok(t, '{') {
        Some(u) => {
            lemma_parse_message_members_len(u, None, None);
        },
        None => {},
    }
}

// ---------------------------------------------------------------------------
// Lists.
// ---------------------------------------------------------------------------

/// After one element of the `messages` array: either the closing bracket,
/// or a comma and a further message, repeated.
pub open spec fn parse_messages_tail(t: Seq<char>) -> Option<(Seq<MessageView>, Seq<char>)>
    decreases t.len(),
    via check_parse_messages_tail
{
    match expect_tok(t, ']') {
        Some(r) => Some((Seq::empty(), r)),
        None => match expect_tok(t, ',') {
            Some(u) => match parse_message(u) {
                Some((m, r)) => match parse_messages_tail(r) {
                    Some((ms, r2)) => Some((seq![m] + ms, r2)),
                    None => None,
                },
                None => None,
            },
            None => None,
        },
    }
}

#[via_fn]
proof fn check_parse_messages_tail(t: Seq<char>) {
    lemma_expect_tok_len(t, ',');
    match expect_tok(t, ',') {
        Some(u) => lemma_parse_message_len(u),
        None => {},
    }
}

/// A whole `messages` array, brackets included.
pub open spec fn parse_message_list(t: Seq<char>) -> Option<(Seq<MessageView>, Seq<char>)> {
    match expect_tok(t, '[') {
        Some(u) => match expect_tok(u, ']') {
            Some(r) => Some((Seq::empty(), r)),
            None => match parse_message(u) {
                Some((m, r)) => match parse_messages_tail(r) {
                    Some((ms, r2)) => Some((seq![m] + ms, r2)),
                    None => None,
                },
                None => None,
            },
        },
        None => None,
    }
}

proof fn lemma_parse_messages_tail_len(t: Seq<char>)
    ensures
        parse_messages_tail(t) matches Some((ms, r)) ==> r.len() < t.len(),
    decreases t.len(),
{
    lemma_expect_tok_len(t, ']');
    lemma_expect_tok_len(t, ',');
    match expect_tok(t, ',') {
        Some(u) => {
            lemma_parse_message_len(u);
            match parse_message(u) {
                Some((m, r)) => {
                    lemma_parse_messages_tail_len(r);
                },
                None => {},
            }
        },
        None => {},
    }
}

proof fn lemma_parse_message_list_len(t: Seq<char>)
    ensures
        parse_message_list(t) matches Some((ms, r)) ==> r.len() < t.len(),
{
    lemma_expect_tok_len(t, '[');
    match expect_tok(t, '[') {
        Some(u) => {
            lemma_expect_tok_len(u, ']');
            lemma_parse_message_len(u);
            match parse_message(u) {
                Some((m, r)) => {
                    lemma_parse_messages_tail_len(r);
                },
                None => {},
            }
        },
        None => {},
    }
}

// ---------------------------------------------------------------------------
// Choice objects: the `message` member required once, unknown members
// skipped.
// ---------------------------------------------------------------------------

/// The finished choice once its closing brace is read.
pub open spec fn finish_choice(msg: Option<MessageView>, rest: Seq<char>) -> Option<
    (ChoiceView, Seq<char>),
> {
    match msg {
        Some(m) => Some((ChoiceView { message: m }, rest)),
        None => None,
    }
}

/// One member of a choice object.
pub open spec fn parse_choice_member(t: Seq<char>, msg: Option<MessageView>) -> Option<
    (Option<MessageView>, Seq<char>),
> {
    match parse_string(t) {
        Some((k, r1)) => match expect_tok(r1, ':') {
            Some(r2) => if k == message_key() {
                if msg is Some {
                    None
                } else {
                    match parse_message(r2) {
                        Some((m, r3)) => Some((Some(m), r3)),
                        None => None,
                    }
                }
            } else {
                match skip_value_whole(r2) {
                    Some(r3) => Some((msg, r3)),
                    None => None,
                }
            },
            None => None,
        },
        None => None,
    }
}

proof fn lemma_parse_choice_member_len(t: Seq<char>, msg: Option<MessageView>)
    ensures
        parse_choice_member(t, msg) matches Some(p) ==> p.1.len() < t.len(),
{
    lemma_parse_string_len(t);
    match parse_string(t) {
        Some((k, r1)) => {
            lemma_expect_tok_len(r1, ':');
            match expect_tok(r1, ':') {
                Some(r2) => {
                    lemma_parse_message_len(r2);
                    lemma_skip_value_whole_len(r2);
                },
                None => {},
            }
        },
        None => {},
    }
}

/// The members of a choice object, read from after the opening brace.
pub open spec fn parse_choice_members(t: Seq<char>, msg: Option<MessageView>) -> Option<
    (ChoiceView, Seq<char>),
>
    decreases t.len(),
    via check_parse_choice_members
{
    match parse_choice_member(t, msg) {
        Some((msg2, r)) => match expect_tok(r, '}') {
            Some(r2) => finish_choice(msg2, r2),
            None => match expect_tok(r, ',') {
                Some(r3) => parse_choice_members(r3, msg2),
                None => None,
            },
        },
        None => None,
    }
}

#[via_fn]
proof fn check_parse_choice_members(t: Seq<char>, msg: Option<MessageView>) {
    lemma_parse_choice_member_len(t, msg);
    match parse_choice_member(t, msg) {
        Some((msg2, r)) => {
            lemma_expect_tok_len(r, ',');
        },
        None => {},
    }
}

/// One choice object: the `message` member, unknown members skipped, an
/// empty object refused.
pub open spec fn parse_choice(t: Seq<char>) -> Option<(ChoiceView, Seq<char>)> {
    match expect_tok(t, '{') {
        Some(u) => match expect_tok(u, '}') {
            Some(r) => None,
            None => parse_choice_members(u, None),
        },
        None => None,
    }
}

proof fn lemma_parse_choice_members_len(t: Seq<char>, msg: Option<MessageView>)
    ensures
        parse_choice_members(t, msg) matches Some((c, r)) ==> r.len() < t.len(),
    decreases t.len(),
{
    lemma_parse_choice_member_len(t, msg);
    match parse_choice_member(t, msg) {
        Some((msg2, r)) => {
            lemma_expect_tok_len(r, '}');
            lemma_expect_tok_len(r, ',');
            match expect_tok(r, ',') {
                Some(r3) => {
                    lemma_parse_choice_members_len(r3, msg2);
                },
                None => {},
            }
        },
        None => {},
    }
}

pub proof fn lemma_parse_choice_len(t: Seq<char>)
    ensures
        parse_choice(t) matches Some((c, r)) ==> r.len() < t.len(),
{
    lemma_expect_tok_len(t, '{');
    match expect_tok(t, '{') {
        Some(u) => {
            lemma_parse_choice_members_len(u, None);
        },
        None => {},
    }
}

/// After one element of the `choices` array.
pub open spec fn parse_choices_tail(t: Seq<char>) -> Option<(Seq<ChoiceView>, Seq<char>)>
    decreases t.len(),
    via check_parse_choices_tail
{
    match expect_tok(t, ']') {
        Some(r) => Some((Seq::empty(), r)),
        None => match expect_tok(t, ',') {
            Some(u) => match parse_choice(u) {
                Some((m, r)) => match parse_choices_tail(r) {
                    Some((ms, r2)) => Some((seq![m] + ms, r2)),
                    None => None,
                },
                None => None,
            },
            None => None,
        },
    }
}

#[via_fn]
proof fn check_parse_choices_tail(t: Seq<char>) {
    lemma_expect_tok_len(t, ',');
    match expect_tok(t, ',') {
        Some(u) => lemma_parse_choice_len(u),
        None => {},
    }
}

/// A whole `choices` array, brackets included.
pub open spec fn parse_choice_list(t: Seq<char>) -> Option<(Seq<ChoiceView>, Seq<char>)> {
    match expect_tok(t, '[') {
        Some(u) => match expect_tok(u, ']') {
            Some(r) => Some((Seq::empty(), r)),
            None => match parse_choice(u) {
                Some((m, r)) => match parse_choices_tail(r) {
                    Some((ms, r2)) => Some((seq![m] + ms, r2)),
                    None => None,
                },
                None => None,
            },
        },
        None => None,
    }
}

proof fn lemma_parse_choices_tail_len(t: Seq<char>)
    ensures
        parse_choices_tail(t) matches Some((cs, r)) ==> r.len() < t.len(),
    decreases t.len(),
{
    lemma_expect_tok_len(t, ']');
    lemma_expect_tok_len(t, ',');
    match expect_tok(t, ',') {
        Some(u) => {
            lemma_parse_choice_len(u);
            match parse_choice(u) {
                Some((c, r)) => {
                    lemma_parse_choices_tail_len(r);
                },
                None => {},
            }
        },
        None => {},
    }
}

proof fn lemma_parse_choice_list_len(t: Seq<char>)
    ensures
        parse_choice_list(t) matches Some((cs, r)) ==> r.len() < t.len(),
{
    lemma_expect_tok_len(t, '[');
    match expect_tok(t, '[') {
        Some(u) => {
            lemma_expect_tok_len(u, ']');
            lemma_parse_choice_len(u);
            match parse_choice(u) {
                Some((c, r)) => {
                    lemma_parse_choices_tail_len(r);
                },
                None => {},
            }
        },
        None => {},
    }
}

// ---------------------------------------------------------------------------
// The two top-level bodies.
// ---------------------------------------------------------------------------

/// The finished conversation once its closing brace is read.
pub open spec fn finish_conversation(
    model: Option<Seq<char>>,
    messages: Option<Seq<MessageView>>,
    rest: Seq<char>,
) -> Option<(ConversationView, Seq<char>)> {
    match (model, messages) {
        (Some(mo), Some(ms)) => Some((ConversationView { model: mo, messages: ms }, rest)),
        _ => None,
    }
}

/// One member of a request-body object.
pub open spec fn parse_conversation_member(
    t: Seq<char>,
    model: Option<Seq<char>>,
    messages: Option<Seq<MessageView>>,
) -> Option<(Option<Seq<char>>, Option<Seq<MessageView>>, Seq<char>)> {
    match parse_string(t) {
        Some((k, r1)) => match expect_tok(r1, ':') {
            Some(r2) => if k == model_key() {
                if model is Some {
                    None
                } else {
                    match parse_string(r2) {
                        Some((v, r3)) => Some((Some(v), messages, r3)),
                        None => None,
                    }
                }
            } else if k == messages_key() {
                if messages is Some {
                    None
                } else {
                    match parse_message_list(r2) {
                        Some((v, r3)) => Some((model, Some(v), r3)),
                        None => None,
                    }
                }
            } else {
                match skip_value_whole(r2) {
                    Some(r3) => Some((model, messages, r3)),
                    None => None,
                }
            },
            None => None,
        },
        None => None,
    }
}

proof fn lemma_parse_conversation_member_len(
    t: Seq<char>,
    model: Option<Seq<char>>,
    messages: Option<Seq<MessageView>>,
)
    ensures
        parse_conversation_member(t, model, messages) matches Some(p) ==> p.2.len() < t.len(),
{
    lemma_parse_string_len(t);
    match parse_string(t) {
        Some((k, r1)) => {
            lemma_expect_tok_len(r1, ':');
            match expect_tok(r1, ':') {
                Some(r2) => {
                    lemma_parse_string_len(r2);
                    lemma_parse_message_list_len(r2);
                    lemma_skip_value_whole_len(r2);
                },
                None => {},
            }
        },
        None => {},
    }
}

/// The members of a request-body object, read from after the opening
/// brace.
pub open spec fn parse_conversation_members(
    t: Seq<char>,
    model: Option<Seq<char>>,
    messages: Option<Seq<MessageView>>,
) -> Option<(ConversationView, Seq<char>)>
    decreases t.len(),
    via check_parse_conversation_members
{
    match parse_conversation_member(t, model, messages) {
        Some((model2, messages2, r)) => match expect_tok(r, '}') {
            Some(r2) => finish_conversation(model2, messages2, r2),
            None => match expect_tok(r, ',') {
                Some(r3) => parse_conversation_members(r3, model2, messages2),
                None => None,
            },
        },
        None => None,
    }
}

#[via_fn]
proof fn check_parse_conversation_members(
    t: Seq<char>,
    model: Option<Seq<char>>,
    messages: Option<Seq<MessageView>>,
) {
    lemma_parse_conversation_member_len(t, model, messages);
    match parse_conversation_member(t, model, messages) {
        Some((model2, messages2, r)) => {
            lemma_expect_tok_len(r, ',');
        },
        None => {},
    }
}

/// A whole request body: `model` and `messages` in either order, unknown
/// members skipped, with nothing but whitespace after the object.
pub open spec fn parse_conversation_seq(t: Seq<char>) -> Option<ConversationView> {
    match expect_tok(t, '{') {
        Some(u) => match expect_tok(u, '}') {
            Some(r) => None,
            None => match parse_conversation_members(u, None, None) {
                Some((c, rest)) => if skip_ws(rest).len() == 0 {
                    Some(c)
                } else {
                    None
                },
                None => None,
            },
        },
        None => None,
    }
}

/// The finished response once its closing brace is read.
pub open spec fn finish_response(
    id: Option<Seq<char>>,
    object: Option<Seq<char>>,
    created: Option<u64>,
    model: Option<Seq<char>>,
    choices: Option<Seq<ChoiceView>>,
    rest: Seq<char>,
) -> Option<(ResponseView, Seq<char>)> {
    match (id, object, created, model, choices) {
        (Some(i), Some(o), Some(cr), Some(mo), Some(ch)) => Some(
            (ResponseView { id: i, object: o, created: cr, model: mo, choices: ch }, rest),
        ),
        _ => None,
    }
}

/// One member of a response-body object.
pub open spec fn parse_response_member(
    t: Seq<char>,
    id: Option<Seq<char>>,
    object: Option<Seq<char>>,
    created: Option<u64>,
    model: Option<Seq<char>>,
    choices: Option<Seq<ChoiceView>>,
) -> Option<
    (
        Option<Seq<char>>,
        Option<Seq<char>>,
        Option<u64>,
        Option<Seq<char>>,
        Option<Seq<ChoiceView>>,
        Seq<char>,
    ),
> {
    match parse_string(t) {
        Some((k, r1)) => match expect_tok(r1, ':') {
            Some(r2) => if k == id_key() {
                if id is Some {
                    None
                } else {
                    match parse_string(r2) {
                        Some((v, r3)) => Some((Some(v), object, created, model, choices, r3)),
                        None => None,
                    }
                }
            } else if k == object_key() {
                if object is Some {
                    None
                } else {
                    match parse_string(r2) {
                        Some((v, r3)) => Some((id, Some(v), created, model, choices, r3)),
                        None => None,
                    }
                }
            } else if k == created_key() {
                if created is Some {
                    None
                } else {
                    match parse_u64(r2) {
                        Some((v, r3)) => Some((id, object, Some(v), model, choices, r3)),
                        None => None,
                    }
                }
            } else if k == model_key() {
                if model is Some {
                    None
                } else {
                    match parse_string(r2) {
                        Some((v, r3)) => Some((id, object, created, Some(v), choices, r3)),
                        None => None,
                    }
                }
            } else if k == choices_key() {
                if choices is Some {
                    None
                } else {
                    match parse_choice_list(r2) {
                        Some((v, r3)) => Some((id, object, created, model, Some(v), r3)),
                        None => None,
                    }
                }
            } else {
                match skip_value_whole(r2) {
                    Some(r3) => Some((id, object, created, model, choices, r3)),
                    None => None,
                }
            },
            None => None,
        },
        None => None,
    }
}

proof fn lemma_parse_response_member_len(
    t: Seq<char>,
    id: Option<Seq<char>>,
    object: Option<Seq<char>>,
    created: Option<u64>,
    model: Option<Seq<char>>,
    choices: Option<Seq<ChoiceView>>,
)
    ensures
        parse_response_member(t, id, object, created, model, choices) matches Some(p) ==> p.5.len()
            < t.len(),
{
    lemma_parse_string_len(t);
    match parse_string(t) {
        Some((k, r1)) => {
            lemma_expect_tok_len(r1, ':');
            match expect_tok(r1, ':') {
                Some(r2) => {
                    lemma_parse_string_len(r2);
                    lemma_parse_u64_len(r2);
                    lemma_parse_choice_list_len(r2);
                    lemma_skip_value_whole_len(r2);
                },
                None => {},
            }
        },
        None => {},
    }
}

/// The members of a response-body object, read from after the opening
/// brace.
pub open spec fn parse_response_members(
    t: Seq<char>,
    id: Option<Seq<char>>,
    object: Option<Seq<char>>,
    created: Option<u64>,
    model: Option<Seq<char>>,
    choices: Option<Seq<ChoiceView>>,
) -> Option<(ResponseView, Seq<char>)>
    decreases t.len(),
    via check_parse_response_members
{
    match parse_response_member(t, id, object, created, model, choices) {
        Some((id2, object2, created2, model2, choices2, r)) => match expect_tok(r, '}') {
            Some(r2) => finish_response(id2, object2, created2, model2, choices2, r2),
            None => match expect_tok(r, ',') {
                Some(r3) => parse_response_members(r3, id2, object2, created2, model2, choices2),
                None => None,
            },
        },
        None => None,
    }
}

#[via_fn]
proof fn check_parse_response_members(
    t: Seq<char>,
    id: Option<Seq<char>>,
    object: Option<Seq<char>>,
    created: Option<u64>,
    model: Option<Seq<char>>,
    choices: Option<Seq<ChoiceView>>,
) {
    lemma_parse_response_member_len(t, id, object, created, model, choices);
    match parse_response_member(t, id, object, created, model, choices) {
        Some((id2, object2, created2, model2, choices2, r)) => {
            lemma_expect_tok_len(r, ',');
        },
        None => {},
    }
}

/// A whole success-response body: the five fields in any order, unknown
/// members skipped, with nothing but whitespace after the object.
pub open spec fn parse_response_seq(t: Seq<char>) -> Option<ResponseView> {
    match expect_tok(t, '{') {
        Some(u) => match expect_tok(u, '}') {
            Some(r) => None,
            None => match parse_response_members(u, None, None, None, None, None) {
                Some((resp, rest)) => if skip_ws(rest).len() == 0 {
                    Some(resp)
                } else {
                    None
                },
                None => None,
            },
        },
        None => None,
    }
}

// ---------------------------------------------------------------------------
// Two facts about std that vstd does not provide.
// ---------------------------------------------------------------------------

/// Relies on `String::push`: appends exactly the one character.
#[verifier::external_body]
fn push_char(out: &mut String, c: char)
    ensures
        final (out)@ == old(out)@.push(c),
{
    out.push(c);
}

/// Relies on `char::from_u32`: `Some` exactly for the non-surrogate code
/// points up to U+10FFFF, returning the character with that code.
#[verifier::external_body]
fn char_from_u32(v: u32) -> (r: Option<char>)
    ensures
        match r {
            Some(c) => c as u32 == v,
            None => (0xD800 <= v && v < 0xE000) || v > 0x10FFFF,
        },
{
    char::from_u32(v)
}

// ---------------------------------------------------------------------------
// The executable parser. Each function reads `s` from character index `i`
// on and returns exactly what the spec function of the same grammar rule
// says about the corresponding suffix.
// ---------------------------------------------------------------------------

/// Executable test for [`is_digit`].
fn is_digit_char(c: char) -> (r: bool)
    ensures
        r == is_digit(c),
{
    let d: u32 = c as u32;
    48 <= d && d <= 57
}

/// Executable test for [`is_num_char`].
fn is_num_char_exec(c: char) -> (r: bool)
    ensures
        r == is_num_char(c),
{
    is_digit_char(c) || c == '-' || c == '+' || c == '.' || c == 'e' || c == 'E'
}

/// Executable form of [`hex_val`].
fn hex_val_char(c: char) -> (r: Option<u32>)
    ensures
        match r {
            Some(v) => hex_val(c) == Some(v as int) && v < 16,
            None => hex_val(c) is None,
        },
{
    let d: u32 = c as u32;
    if 48 <= d && d <= 57 {
        Some(d - 48)
    } else if 97 <= d && d <= 102 {
        Some(d - 87)
    } else if 65 <= d && d <= 70 {
        Some(d - 55)
    } else {
        None
    }
}

fn skip_ws_at(s: &str, i: usize) -> (j: usize)
    requires
        i <= s@.len(),
    ensures
        i <= j <= s@.len(),
        s@.skip(j as int) == skip_ws(s@.skip(i as int)),
{
    let n = s.unicode_len();
    let mut j: usize = i;
    while j < n && crate::text::is_json_ws_char(s.get_char(j))
        invariant
            i <= j <= n,
            n == s@.len(),
            skip_ws(s@.skip(i as int)) == skip_ws(s@.skip(j as int)),
        decreases n - j,
    {
        proof {
            assert(s@.skip(j as int)[0] == s@[j as int]);
            assert(s@.skip(j as int).drop_first() =~= s@.skip(j as int + 1));
        }
        j = j + 1;
    }
    proof {
        if j < n {
            assert(s@.skip(j as int)[0] == s@[j as int]);
        }
        assert(skip_ws(s@.skip(j as int)) == s@.skip(j as int));
    }
    j
}

fn num_rest_at(s: &str, i: usize) -> (j: usize)
    requires
        i <= s@.len(),
    ensures
        i <= j <= s@.len(),
        s@.skip(j as int) == num_rest(s@.skip(i as int)),
{
    let n = s.unicode_len();
    let mut j: usize = i;
    while j < n && is_num_char_exec(s.get_char(j))
        invariant
            i <= j <= n,
            n == s@.len(),
            num_rest(s@.skip(i as int)) == num_rest(s@.skip(j as int)),
        decreases n - j,
    {
        proof {
            assert(s@.skip(j as int)[0] == s@[j as int]);
            assert(s@.skip(j as int).drop_first() =~= s@.skip(j as int + 1));
        }
        j = j + 1;
    }
    proof {
        if j < n {
            assert(s@.skip(j as int)[0] == s@[j as int]);
        }
        assert(num_rest(s@.skip(j as int)) == s@.skip(j as int));
    }
    j
}

fn expect_at(s: &str, i: usize, c: char) -> (r: Option<usize>)
    requires
        i <= s@.len(),
    ensures
        match r {
            Some(j) => j <= s@.len() && expect_tok(s@.skip(i as int), c) == Some(
                s@.skip(j as int),
            ),
            None => expect_tok(s@.skip(i as int), c) is None,
        },
{
    let n = s.unicode_len();
    let j = skip_ws_at(s, i);
    if j < n {
        let ch = s.get_char(j);
        proof {
            assert(s@.skip(j as int)[0] == s@[j as int]);
        }
        if ch == c {
            proof {
                assert(s@.skip(j as int).drop_first() =~= s@.skip(j as int + 1));
            }
            Some(j + 1)
        } else {
            None
        }
    } else {
        proof {
            assert(s@.skip(j as int).len() == 0);
        }
        None
    }
}

#[verifier::rlimit(100)]
fn string_body_at(s: &str, i: usize) -> (r: Option<(String, usize)>)
    requires
        i <= s@.len(),
    ensures
        match r {
            Some(p) => p.1 <= s@.len() && string_body(s@.skip(i as int)) == Some(
                (p.0@, s@.skip(p.1 as int)),
            ),
            None => string_body(s@.skip(i as int)) is None,
        },
{
    let n = s.unicode_len();
    let mut out = String::new();
    let mut k: usize = i;
    proof {
        match string_body(s@.skip(i as int)) {
            Some((u, r)) => {
                assert(Seq::<char>::empty() + u =~= u);
            },
            None => {},
        }
    }
    loop
        invariant
            i <= k <= n,
            n == s@.len(),
            string_body(s@.skip(i as int)) == (match string_body(s@.skip(k as int)) {
                Some((u, r)) => Some((out@ + u, r)),
                None => None::<(Seq<char>, Seq<char>)>,
            }),
        decreases n - k,
    {
        if k == n {
            proof {
                assert(s@.skip(k as int).len() == 0);
            }
            return None;
        }
        let c = s.get_char(k);
        proof {
            assert(s@.skip(k as int)[0] == s@[k as int]);
        }
        if c == '"' {
            proof {
                assert(s@.skip(k as int).drop_first() =~= s@.skip(k as int + 1));
                match string_body(s@.skip(k as int)) {
                    Some((u, r)) => {
                        assert(out@ + Seq::<char>::empty() =~= out@);
                    },
                    None => {},
                }
            }
            return Some((out, k + 1));
        } else if c == '\\' {
            if k + 1 == n {
                proof {
                    assert(s@.skip(k as int).len() == 1);
                }
                return None;
            }
            let e = s.get_char(k + 1);
            proof {
                assert(s@.skip(k as int)[1] == s@[k as int + 1]);
            }
            if e == 'u' {
                let ghost t = s@.skip(k as int);
                if n - k < 6 {
                    proof {
                        assert(t.len() < 6);
                        assert(hex4_val(t, 2) is None);
                    }
                    return None;
                }
                proof {
                    assert(t[2] == s@[k as int + 2]);
                    assert(t[3] == s@[k as int + 3]);
                    assert(t[4] == s@[k as int + 4]);
                    assert(t[5] == s@[k as int + 5]);
                }
                let h0 = hex_val_char(s.get_char(k + 2));
                let h1 = hex_val_char(s.get_char(k + 3));
                let h2 = hex_val_char(s.get_char(k + 4));
                let h3 = hex_val_char(s.get_char(k + 5));
                let v: u32;
                match (h0, h1, h2, h3) {
                    (Some(a), Some(b), Some(cc), Some(d)) => {
                        v = a * 4096 + b * 256 + cc * 16 + d;
                        proof {
                            assert(hex4_val(t, 2) == Some(v as int));
                        }
                    },
                    _ => {
                        proof {
                            assert(hex4_val(t, 2) is None);
                        }
                        return None;
                    },
                }
                if !(0xD800 <= v && v < 0xE000) {
                    let ch: char;
                    match char_from_u32(v) {
                        Some(c2) => {
                            ch = c2;
                        },
                        None => {
                            proof {
                                assert(false);
                            }
                            return None;
                        },
                    }
                    proof {
                        vstd::utf8::char_u32_cast(ch, v);
                        assert(ch == code_char(v as int));
                    }
                    let ghost out0 = out@;
                    push_char(&mut out, ch);
                    proof {
                        assert(out@ =~= out0 + seq![ch]);
                        assert(t.skip(6) =~= s@.skip(k as int + 6));
                        match string_body(s@.skip(k as int + 6)) {
                            Some((u, r)) => {
                                assert(out@ + u =~= out0 + (seq![code_char(v as int)] + u));
                            },
                            None => {},
                        }
                    }
                    k = k + 6;
                } else if v < 0xDC00 {
                    if n - k < 12 {
                        proof {
                            assert(t.len() < 12);
                        }
                        return None;
                    }
                    proof {
                        assert(t[6] == s@[k as int + 6]);
                        assert(t[7] == s@[k as int + 7]);
                        assert(t[8] == s@[k as int + 8]);
                        assert(t[9] == s@[k as int + 9]);
                        assert(t[10] == s@[k as int + 10]);
                        assert(t[11] == s@[k as int + 11]);
                    }
                    if !(s.get_char(k + 6) == '\\' && s.get_char(k + 7) == 'u') {
                        return None;
                    }
                    let g0 = hex_val_char(s.get_char(k + 8));
                    let g1 = hex_val_char(s.get_char(k + 9));
                    let g2 = hex_val_char(s.get_char(k + 10));
                    let g3 = hex_val_char(s.get_char(k + 11));
                    let w: u32;
                    match (g0, g1, g2, g3) {
                        (Some(a), Some(b), Some(cc), Some(d)) => {
                            w = a * 4096 + b * 256 + cc * 16 + d;
                            proof {
                                assert(hex4_val(t, 8) == Some(w as int));
                            }
                        },
                        _ => {
                            proof {
                                assert(hex4_val(t, 8) is None);
                            }
                            return None;
                        },
                    }
                    if !(0xDC00 <= w && w < 0xE000) {
                        return None;
                    }
                    let code: u32 = 0x10000 + (v - 0xD800) * 0x400 + (w - 0xDC00);
                    let ch: char;
                    match char_from_u32(code) {
                        Some(c2) => {
                            ch = c2;
                        },
                        None => {
                            proof {
                                assert(false);
                            }
                            return None;
                        },
                    }
                    proof {
                        vstd::utf8::char_u32_cast(ch, code);
                        assert(ch == code_char(code as int));
                    }
                    let ghost out0 = out@;
                    push_char(&mut out, ch);
                    proof {
                        assert(out@ =~= out0 + seq![ch]);
                        assert(t.skip(12) =~= s@.skip(k as int + 12));
                        match string_body(s@.skip(k as int + 12)) {
                            Some((u, r)) => {
                                assert(out@ + u =~= out0 + (seq![code_char(code as int)] + u));
                            },
                            None => {},
                        }
                    }
                    k = k + 12;
                } else {
                    return None;
                }
            } else {
                let piece: &str;
                if e == '"' {
                    piece = "\"";
                    proof {
                        reveal_strlit("\"");
                        assert(piece@ =~= seq!['"']);
                    }
                } else if e == '\\' {
                    piece = "\\";
                    proof {
                        reveal_strlit("\\");
                        assert(piece@ =~= seq!['\\']);
                    }
                } else if e == '/' {
                    piece = "/";
                    proof {
                        reveal_strlit("/");
                        assert(piece@ =~= seq!['/']);
                    }
                } else if e == 'n' {
                    piece = "\n";
                    proof {
                        reveal_strlit("\n");
                        assert(piece@ =~= seq!['\n']);
                    }
                } else if e == 'r' {
                    piece = "\r";
                    proof {
                        reveal_strlit("\r");
                        assert(piece@ =~= seq!['\r']);
                    }
                } else if e == 't' {
                    piece = "\t";
                    proof {
                        reveal_strlit("\t");
                        assert(piece@ =~= seq!['\t']);
                    }
                } else if e == 'b' {
                    piece = "\u{0008}";
                    proof {
                        reveal_strlit("\u{0008}");
                        assert(piece@ =~= seq!['\u{0008}']);
                    }
                } else if e == 'f' {
                    piece = "\u{000C}";
                    proof {
                        reveal_strlit("\u{000C}");
                        assert(piece@ =~= seq!['\u{000C}']);
                    }
                } else {
                    proof {
                        assert(unescape_char(s@[k as int + 1]) is None);
                    }
                    return None;
                }
                let ghost out0 = out@;
                let ghost uc = unescape_char(s@[k as int + 1])->Some_0;
                out.append(piece);
                proof {
                    assert(out@ == out0 + seq![uc]);
                    assert(s@.skip(k as int).skip(2) =~= s@.skip(k as int + 2));
                    match string_body(s@.skip(k as int + 2)) {
                        Some((u, r)) => {
                            assert(out@ + u =~= out0 + (seq![uc] + u));
                        },
                        None => {},
                    }
                }
                k = k + 2;
            }
        } else {
            let piece = s.substring_char(k, k + 1);
            let ghost out0 = out@;
            out.append(piece);
            proof {
                assert(piece@ =~= seq![s@[k as int]]);
                assert(s@.skip(k as int).drop_first() =~= s@.skip(k as int + 1));
                match string_body(s@.skip(k as int + 1)) {
                    Some((u, r)) => {
                        assert(out@ + u =~= out0 + (seq![s@[k as int]] + u));
                    },
                    None => {},
                }
            }
            k = k + 1;
        }
    }
}

fn parse_string_at(s: &str, i: usize) -> (r: Option<(String, usize)>)
    requires
        i <= s@.len(),
    ensures
        match r {
            Some(p) => p.1 <= s@.len() && parse_string(s@.skip(i as int)) == Some(
                (p.0@, s@.skip(p.1 as int)),
            ),
            None => parse_string(s@.skip(i as int)) is None,
        },
{
    match expect_at(s, i, '"') {
        Some(j) => string_body_at(s, j),
        None => None,
    }
}

fn parse_u64_at(s: &str, i: usize) -> (r: Option<(u64, usize)>)
    requires
        i <= s@.len(),
    ensures
        match r {
            Some(p) => p.1 <= s@.len() && parse_u64(s@.skip(i as int)) == Some(
                (p.0, s@.skip(p.1 as int)),
            ),
            None => parse_u64(s@.skip(i as int)) is None,
        },
{
    let n = s.unicode_len();
    let j = skip_ws_at(s, i);
    if j == n {
        proof {
            assert(s@.skip(j as int).len() == 0);
        }
        return None;
    }
    proof {
        assert(s@.skip(j as int)[0] == s@[j as int]);
    }
    if !is_digit_char(s.get_char(j)) {
        return None;
    }
    let mut k: usize = j;
    let mut acc: u128 = 0;
    let mut big = false;
    let ghost mut g: nat = 0nat;
    while k < n && is_digit_char(s.get_char(k))
        invariant
            j <= k <= n,
            n == s@.len(),
            take_digits(s@.skip(j as int), 0) == take_digits(s@.skip(k as int), g),
            big ==> g > u64::MAX,
            !big ==> acc == g && acc <= u64::MAX,
        decreases n - k,
    {
        let c = s.get_char(k);
        let d: u32 = c as u32;
        let dv: u128 = (d - 48) as u128;
        proof {
            assert(s@.skip(k as int)[0] == s@[k as int]);
            assert(s@.skip(k as int).drop_first() =~= s@.skip(k as int + 1));
            assert(digit_val(s@[k as int]) == dv);
        }
        if big {
            proof {
                g = g * 10 + digit_val(s@[k as int]);
            }
        } else {
            let acc2: u128 = acc * 10 + dv;
            if acc2 > 0xFFFF_FFFF_FFFF_FFFF {
                big = true;
            } else {
                acc = acc2;
            }
            proof {
                g = g * 10 + digit_val(s@[k as int]);
            }
        }
        k = k + 1;
    }
    proof {
        if k < n {
            assert(s@.skip(k as int)[0] == s@[k as int]);
        }
        assert(take_digits(s@.skip(k as int), g) == (g, s@.skip(k as int)));
    }
    if big {
        None
    } else {
        Some((acc as u64, k))
    }
}

// ---------------------------------------------------------------------------
// Executable value skipping, mirroring the skip spec functions.
// ---------------------------------------------------------------------------

fn skip_value_at(s: &str, i: usize, fuel: u128) -> (r: Option<usize>)
    requires
        i <= s@.len(),
    ensures
        match r {
            Some(j) => j <= s@.len() && skip_value(s@.skip(i as int), fuel as nat) == Some(
                s@.skip(j as int),
            ),
            None => skip_value(s@.skip(i as int), fuel as nat) is None,
        },
    decreases fuel,
{
    if fuel == 0 {
        return None;
    }
    let n = s.unicode_len();
    let j = skip_ws_at(s, i);
    if j == n {
        proof {
            assert(s@.skip(j as int).len() == 0);
        }
        return None;
    }
    let c = s.get_char(j);
    proof {
        assert(s@.skip(j as int)[0] == s@[j as int]);
    }
    if c == '"' {
        proof {
            assert(s@.skip(j as int).drop_first() =~= s@.skip(j as int + 1));
        }
        match string_body_at(s, j + 1) {
            Some((_text, r)) => Some(r),
            None => None,
        }
    } else if c == '{' {
        proof {
            assert(s@.skip(j as int).drop_first() =~= s@.skip(j as int + 1));
        }
        skip_object_rest_at(s, j + 1, fuel - 1)
    } else if c == '[' {
        proof {
            assert(s@.skip(j as int).drop_first() =~= s@.skip(j as int + 1));
        }
        skip_array_rest_at(s, j + 1, fuel - 1)
    } else if c == 't' {
        if n - j >= 4 {
            proof {
                assert(s@.skip(j as int)[1] == s@[j as int + 1]);
                assert(s@.skip(j as int)[2] == s@[j as int + 2]);
                assert(s@.skip(j as int)[3] == s@[j as int + 3]);
            }
            if s.get_char(j + 1) == 'r' && s.get_char(j + 2) == 'u' && s.get_char(j + 3) == 'e' {
                proof {
                    assert(s@.skip(j as int).skip(4) =~= s@.skip(j as int + 4));
                }
                Some(j + 4)
            } else {
                None
            }
        } else {
            None
        }
    } else if c == 'f' {
        if n - j >= 5 {
            proof {
                assert(s@.skip(j as int)[1] == s@[j as int + 1]);
                assert(s@.skip(j as int)[2] == s@[j as int + 2]);
                assert(s@.skip(j as int)[3] == s@[j as int + 3]);
                assert(s@.skip(j as int)[4] == s@[j as int + 4]);
            }
            if s.get_char(j + 1) == 'a' && s.get_char(j + 2) == 'l' && s.get_char(j + 3) == 's'
                && s.get_char(j + 4) == 'e' {
                proof {
                    assert(s@.skip(j as int).skip(5) =~= s@.skip(j as int + 5));
                }
                Some(j + 5)
            } else {
                None
            }
        } else {
            None
        }
    } else if c == 'n' {
        if n - j >= 4 {
            proof {
                assert(s@.skip(j as int)[1] == s@[j as int + 1]);
                assert(s@.skip(j as int)[2] == s@[j as int + 2]);
                assert(s@.skip(j as int)[3] == s@[j as int + 3]);
            }
            if s.get_char(j + 1) == 'u' && s.get_char(j + 2) == 'l' && s.get_char(j + 3) == 'l' {
                proof {
                    assert(s@.skip(j as int).skip(4) =~= s@.skip(j as int + 4));
                }
                Some(j + 4)
            } else {
                None
            }
        } else {
            None
        }
    } else if c == '-' || is_digit_char(c) {
        proof {
            assert(s@.skip(j as int).drop_first() =~= s@.skip(j as int + 1));
        }
        let r = num_rest_at(s, j + 1);
        Some(r)
    } else {
        None
    }
}

fn skip_object_rest_at(s: &str, i: usize, fuel: u128) -> (r: Option<usize>)
    requires
        i <= s@.len(),
    ensures
        match r {
            Some(j) => j <= s@.len() && skip_object_rest(s@.skip(i as int), fuel as nat) == Some(
                s@.skip(j as int),
            ),
            None => skip_object_rest(s@.skip(i as int), fuel as nat) is None,
        },
    decreases fuel,
{
    if fuel == 0 {
        return None;
    }
    if let Some(j) = expect_at(s, i, '}') {
        return Some(j);
    }
    skip_members_at(s, i, fuel - 1)
}

fn skip_members_at(s: &str, i: usize, fuel: u128) -> (r: Option<usize>)
    requires
        i <= s@.len(),
    ensures
        match r {
            Some(j) => j <= s@.len() && skip_members(s@.skip(i as int), fuel as nat) == Some(
                s@.skip(j as int),
            ),
            None => skip_members(s@.skip(i as int), fuel as nat) is None,
        },
    decreases fuel,
{
    if fuel == 0 {
        return None;
    }
    let r1 = match parse_string_at(s, i) {
        Some((_key, j)) => j,
        None => {
            return None;
        },
    };
    let r2 = match expect_at(s, r1, ':') {
        Some(j) => j,
        None => {
            return None;
        },
    };
    let r3 = match skip_value_at(s, r2, fuel - 1) {
        Some(j) => j,
        None => {
            return None;
        },
    };
    if let Some(r4) = expect_at(s, r3, '}') {
        return Some(r4);
    }
    let r5 = match expect_at(s, r3, ',') {
        Some(j) => j,
        None => {
            return None;
        },
    };
    skip_members_at(s, r5, fuel - 1)
}

fn skip_array_rest_at(s: &str, i: usize, fuel: u128) -> (r: Option<usize>)
    requires
        i <= s@.len(),
    ensures
        match r {
            Some(j) => j <= s@.len() && skip_array_rest(s@.skip(i as int), fuel as nat) == Some(
                s@.skip(j as int),
            ),
            None => skip_array_rest(s@.skip(i as int), fuel as nat) is None,
        },
    decreases fuel,
{
    if fuel == 0 {
        return None;
    }
    if let Some(j) = expect_at(s, i, ']') {
        return Some(j);
    }
    skip_elements_at(s, i, fuel - 1)
}

fn skip_elements_at(s: &str, i: usize, fuel: u128) -> (r: Option<usize>)
    requires
        i <= s@.len(),
    ensures
        match r {
            Some(j) => j <= s@.len() && skip_elements(s@.skip(i as int), fuel as nat) == Some(
                s@.skip(j as int),
            ),
            None => skip_elements(s@.skip(i as int), fuel as nat) is None,
        },
    decreases fuel,
{
    if fuel == 0 {
        return None;
    }
    let r = match skip_value_at(s, i, fuel - 1) {
        Some(j) => j,
        None => {
            return None;
        },
    };
    if let Some(r2) = expect_at(s, r, ']') {
        return Some(r2);
    }
    let r3 = match expect_at(s, r, ',') {
        Some(j) => j,
        None => {
            return None;
        },
    };
    skip_elements_at(s, r3, fuel - 1)
}

/// Skips one value with the same ample fuel the spec uses.
fn skip_value_whole_at(s: &str, i: usize) -> (r: Option<usize>)
    requires
        i <= s@.len(),
    ensures
        match r {
            Some(j) => j <= s@.len() && skip_value_whole(s@.skip(i as int)) == Some(
                s@.skip(j as int),
            ),
            None => skip_value_whole(s@.skip(i as int)) is None,
        },
{
    let n = s.unicode_len();
    let rem: u128 = (n - i) as u128;
    let fuel: u128 = 3 * rem + 3;
    proof {
        assert(s@.skip(i as int).len() == n - i);
        assert(fuel as nat == (3 * s@.skip(i as int).len() + 3) as nat);
    }
    skip_value_at(s, i, fuel)
}

// ---------------------------------------------------------------------------
// Executable object parsing.
// ---------------------------------------------------------------------------

/// The view of an optional owned string.
pub open spec fn str_opt_view(o: Option<String>) -> Option<Seq<char>> {
    match o {
        Some(s) => Some(s@),
        None => None,
    }
}

/// The view of an optional message.
pub open spec fn msg_opt_view(o: Option<Message>) -> Option<MessageView> {
    match o {
        Some(m) => Some(m@),
        None => None,
    }
}

/// The views of an optional message list.
pub open spec fn msgs_opt_view(o: Option<Vec<Message>>) -> Option<Seq<MessageView>> {
    match o {
        Some(ms) => Some(messages_view(ms@)),
        None => None,
    }
}

/// The views of an optional choice list.
pub open spec fn choices_opt_view(o: Option<Vec<Choice>>) -> Option<Seq<ChoiceView>> {
    match o {
        Some(cs) => Some(choices_view(cs@)),
        None => None,
    }
}

fn parse_message_at(s: &str, i: usize) -> (r: Option<(Message, usize)>)
    requires
        i <= s@.len(),
    ensures
        match r {
            Some(p) => p.1 <= s@.len() && parse_message(s@.skip(i as int)) == Some(
                (p.0@, s@.skip(p.1 as int)),
            ),
            None => parse_message(s@.skip(i as int)) is None,
        },
{
    proof {
        reveal_strlit("role");
        assert("role"@ =~= role_key());
        reveal_strlit("content");
        assert("content"@ =~= content_key());
        reveal_strlit("user");
        assert("user"@ =~= role_name(Role::User));
        reveal_strlit("assistant");
        assert("assistant"@ =~= role_name(Role::Assistant));
    }
    let n = s.unicode_len();
    let t1 = match expect_at(s, i, '{') {
        Some(j) => j,
        None => {
            return None;
        },
    };
    if let Some(_j) = expect_at(s, t1, '}') {
        return None;
    }
    let mut role_slot: Option<Role> = None;
    let mut content_slot: Option<String> = None;
    let mut k: usize = t1;
    loop
        invariant
            k <= n,
            n == s@.len(),
            parse_message(s@.skip(i as int)) == parse_message_members(
                s@.skip(k as int),
                role_slot,
                str_opt_view(content_slot),
            ),
        decreases n - k,
    {
        proof {
            reveal_strlit("role");
            assert("role"@ =~= role_key());
            reveal_strlit("content");
            assert("content"@ =~= content_key());
            reveal_strlit("user");
            assert("user"@ =~= role_name(Role::User));
            reveal_strlit("assistant");
            assert("assistant"@ =~= role_name(Role::Assistant));
        }
        let ghost role0 = role_slot;
        let ghost content0 = str_opt_view(content_slot);
        let (key, r1) = match parse_string_at(s, k) {
            Some(p) => p,
            None => {
                return None;
            },
        };
        let r2 = match expect_at(s, r1, ':') {
            Some(j) => j,
            None => {
                return None;
            },
        };
        let r3: usize;
        if str_eq(key.as_str(), "role") {
            if role_slot.is_some() {
                return None;
            }
            let (rname, r3a) = match parse_string_at(s, r2) {
                Some(p) => p,
                None => {
                    return None;
                },
            };
            let role: Role;
            if str_eq(rname.as_str(), "user") {
                role = Role::User;
            } else if str_eq(rname.as_str(), "assistant") {
                role = Role::Assistant;
            } else {
                proof {
                    assert(role_of_name(rname@) is None);
                }
                return None;
            }
            proof {
                assert(role_name(Role::User).len() != role_name(Role::Assistant).len());
                assert(role_of_name(rname@) == Some(role));
            }
            role_slot = Some(role);
            r3 = r3a;
        } else if str_eq(key.as_str(), "content") {
            if content_slot.is_some() {
                return None;
            }
            let (text, r3a) = match parse_string_at(s, r2) {
                Some(p) => p,
                None => {
                    return None;
                },
            };
            content_slot = Some(text);
            r3 = r3a;
        } else {
            let r3a = match skip_value_whole_at(s, r2) {
                Some(j) => j,
                None => {
                    return None;
                },
            };
            r3 = r3a;
        }
        proof {
            assert(parse_message_member(s@.skip(k as int), role0, content0) == Some(
                (role_slot, str_opt_view(content_slot), s@.skip(r3 as int)),
            ));
        }
        if let Some(r4) = expect_at(s, r3, '}') {
            match (role_slot, content_slot) {
                (Some(role), Some(content)) => {
                    let m = Message { role, content };
                    proof {
                        assert(m@ =~= (MessageView { role: role, content: m.content@ }));
                    }
                    return Some((m, r4));
                },
                _ => {
                    return None;
                },
            }
        }
        let r5 = match expect_at(s, r3, ',') {
            Some(j) => j,
            None => {
                return None;
            },
        };
        proof {
            lemma_parse_string_len(s@.skip(k as int));
            lemma_expect_tok_len(s@.skip(r1 as int), ':');
            lemma_parse_string_len(s@.skip(r2 as int));
            lemma_skip_value_whole_len(s@.skip(r2 as int));
            lemma_expect_tok_len(s@.skip(r3 as int), ',');
        }
        k = r5;
    }
}

fn parse_choice_at(s: &str, i: usize) -> (r: Option<(Choice, usize)>)
    requires
        i <= s@.len(),
    ensures
        match r {
            Some(p) => p.1 <= s@.len() && parse_choice(s@.skip(i as int)) == Some(
                (p.0@, s@.skip(p.1 as int)),
            ),
            None => parse_choice(s@.skip(i as int)) is None,
        },
{
    proof {
        reveal_strlit("message");
        assert("message"@ =~= message_key());
    }
    let n = s.unicode_len();
    let t1 = match expect_at(s, i, '{') {
        Some(j) => j,
        None => {
            return None;
        },
    };
    if let Some(_j) = expect_at(s, t1, '}') {
        return None;
    }
    let mut msg_slot: Option<Message> = None;
    let mut k: usize = t1;
    loop
        invariant
            k <= n,
            n == s@.len(),
            parse_choice(s@.skip(i as int)) == parse_choice_members(
                s@.skip(k as int),
                msg_opt_view(msg_slot),
            ),
        decreases n - k,
    {
        proof {
            reveal_strlit("message");
            assert("message"@ =~= message_key());
        }
        let ghost msg0 = msg_opt_view(msg_slot);
        let (key, r1) = match parse_string_at(s, k) {
            Some(p) => p,
            None => {
                return None;
            },
        };
        let r2 = match expect_at(s, r1, ':') {
            Some(j) => j,
            None => {
                return None;
            },
        };
        let r3: usize;
        if str_eq(key.as_str(), "message") {
            if msg_slot.is_some() {
                return None;
            }
            let (m, r3a) = match parse_message_at(s, r2) {
                Some(p) => p,
                None => {
                    return None;
                },
            };
            msg_slot = Some(m);
            r3 = r3a;
        } else {
            let r3a = match skip_value_whole_at(s, r2) {
                Some(j) => j,
                None => {
                    return None;
                },
            };
            r3 = r3a;
        }
        proof {
            assert(parse_choice_member(s@.skip(k as int), msg0) == Some(
                (msg_opt_view(msg_slot), s@.skip(r3 as int)),
            ));
        }
        if let Some(r4) = expect_at(s, r3, '}') {
            match msg_slot {
                Some(m) => {
                    let c = Choice { message: m };
                    proof {
                        assert(c@ =~= (ChoiceView { message: c.message@ }));
                    }
                    return Some((c, r4));
                },
                None => {
                    return None;
                },
            }
        }
        let r5 = match expect_at(s, r3, ',') {
            Some(j) => j,
            None => {
                return None;
            },
        };
        proof {
            lemma_parse_string_len(s@.skip(k as int));
            lemma_expect_tok_len(s@.skip(r1 as int), ':');
            lemma_parse_message_len(s@.skip(r2 as int));
            lemma_skip_value_whole_len(s@.skip(r2 as int));
            lemma_expect_tok_len(s@.skip(r3 as int), ',');
        }
        k = r5;
    }
}

fn parse_message_list_at(s: &str, i: usize) -> (r: Option<(Vec<Message>, usize)>)
    requires
        i <= s@.len(),
    ensures
        match r {
            Some(p) => p.1 <= s@.len() && parse_message_list(s@.skip(i as int)) == Some(
                (messages_view(p.0@), s@.skip(p.1 as int)),
            ),
            None => parse_message_list(s@.skip(i as int)) is None,
        },
{
    let n = s.unicode_len();
    let t1 = match expect_at(s, i, '[') {
        Some(j) => j,
        None => {
            return None;
        },
    };
    if let Some(j) = expect_at(s, t1, ']') {
        let empty: Vec<Message> = Vec::new();
        proof {
            assert(messages_view(empty@) =~= Seq::<MessageView>::empty());
        }
        return Some((empty, j));
    }
    let (m0, k0) = match parse_message_at(s, t1) {
        Some(p) => p,
        None => {
            return None;
        },
    };
    let mut acc: Vec<Message> = Vec::new();
    acc.push(m0);
    let mut k: usize = k0;
    proof {
        match parse_messages_tail(s@.skip(k as int)) {
            Some((ms, r)) => {
                assert(messages_view(acc@) + ms =~= seq![m0@] + ms);
            },
            None => {},
        }
    }
    loop
        invariant
            k <= n,
            n == s@.len(),
            parse_message_list(s@.skip(i as int)) == (match parse_messages_tail(
                s@.skip(k as int),
            ) {
                Some((ms, r)) => Some((messages_view(acc@) + ms, r)),
                None => None::<(Seq<MessageView>, Seq<char>)>,
            }),
        decreases n - k,
    {
        if let Some(j) = expect_at(s, k, ']') {
            proof {
                assert(messages_view(acc@) + Seq::<MessageView>::empty() =~= messages_view(acc@));
            }
            return Some((acc, j));
        }
        let u = match expect_at(s, k, ',') {
            Some(j) => j,
            None => {
                return None;
            },
        };
        let (m, k2) = match parse_message_at(s, u) {
            Some(p) => p,
            None => {
                return None;
            },
        };
        let ghost acc0 = acc@;
        acc.push(m);
        proof {
            assert(messages_view(acc@) =~= messages_view(acc0) + seq![m@]);
            match parse_messages_tail(s@.skip(k2 as int)) {
                Some((ms2, r)) => {
                    assert(messages_view(acc@) + ms2 =~= messages_view(acc0) + (seq![m@] + ms2));
                },
                None => {},
            }
            lemma_expect_tok_len(s@.skip(k as int), ',');
            lemma_parse_message_len(s@.skip(u as int));
        }
        k = k2;
    }
}

fn parse_choice_list_at(s: &str, i: usize) -> (r: Option<(Vec<Choice>, usize)>)
    requires
        i <= s@.len(),
    ensures
        match r {
            Some(p) => p.1 <= s@.len() && parse_choice_list(s@.skip(i as int)) == Some(
                (choices_view(p.0@), s@.skip(p.1 as int)),
            ),
            None => parse_choice_list(s@.skip(i as int)) is None,
        },
{
    let n = s.unicode_len();
    let t1 = match expect_at(s, i, '[') {
        Some(j) => j,
        None => {
            return None;
        },
    };
    if let Some(j) = expect_at(s, t1, ']') {
        let empty: Vec<Choice> = Vec::new();
        proof {
            assert(choices_view(empty@) =~= Seq::<ChoiceView>::empty());
        }
        return Some((empty, j));
    }
    let (c0, k0) = match parse_choice_at(s, t1) {
        Some(p) => p,
        None => {
            return None;
        },
    };
    let mut acc: Vec<Choice> = Vec::new();
    acc.push(c0);
    let mut k: usize = k0;
    proof {
        match parse_choices_tail(s@.skip(k as int)) {
            Some((cs, r)) => {
                assert(choices_view(acc@) + cs =~= seq![c0@] + cs);
            },
            None => {},
        }
    }
    loop
        invariant
            k <= n,
            n == s@.len(),
            parse_choice_list(s@.skip(i as int)) == (match parse_choices_tail(s@.skip(k as int)) {
                Some((cs, r)) => Some((choices_view(acc@) + cs, r)),
                None => None::<(Seq<ChoiceView>, Seq<char>)>,
            }),
        decreases n - k,
    {
        if let Some(j) = expect_at(s, k, ']') {
            proof {
                assert(choices_view(acc@) + Seq::<ChoiceView>::empty() =~= choices_view(acc@));
            }
            return Some((acc, j));
        }
        let u = match expect_at(s, k, ',') {
            Some(j) => j,
            None => {
                return None;
            },
        };
        let (c, k2) = match parse_choice_at(s, u) {
            Some(p) => p,
            None => {
                return None;
            },
        };
        let ghost acc0 = acc@;
        acc.push(c);
        proof {
            assert(choices_view(acc@) =~= choices_view(acc0) + seq![c@]);
            match parse_choices_tail(s@.skip(k2 as int)) {
                Some((cs2, r)) => {
                    assert(choices_view(acc@) + cs2 =~= choices_view(acc0) + (seq![c@] + cs2));
                },
                None => {},
            }
            lemma_expect_tok_len(s@.skip(k as int), ',');
            lemma_parse_choice_len(s@.skip(u as int));
        }
        k = k2;
    }
}

/// Parses a whole request body back into a conversation, exactly as
/// [`parse_conversation_seq`] states it.
pub fn parse_conversation(s: &str) -> (r: Option<Conversation>)
    ensures
        match r {
            Some(c) => parse_conversation_seq(s@) == Some(c@),
            None => parse_conversation_seq(s@) is None,
        },
{
    proof {
        assert(s@.skip(0) =~= s@);
        reveal_strlit("model");
        assert("model"@ =~= model_key());
        reveal_strlit("messages");
        assert("messages"@ =~= messages_key());
    }
    let n = s.unicode_len();
    let t1 = match expect_at(s, 0, '{') {
        Some(j) => j,
        None => {
            return None;
        },
    };
    if let Some(_j) = expect_at(s, t1, '}') {
        return None;
    }
    let mut model_slot: Option<String> = None;
    let mut messages_slot: Option<Vec<Message>> = None;
    let mut k: usize = t1;
    loop
        invariant
            k <= n,
            n == s@.len(),
            parse_conversation_seq(s@) == (match parse_conversation_members(
                s@.skip(k as int),
                str_opt_view(model_slot),
                msgs_opt_view(messages_slot),
            ) {
                Some((c, rest)) => if skip_ws(rest).len() == 0 {
                    Some(c)
                } else {
                    None::<ConversationView>
                },
                None => None::<ConversationView>,
            }),
        decreases n - k,
    {
        proof {
            reveal_strlit("model");
            assert("model"@ =~= model_key());
            reveal_strlit("messages");
            assert("messages"@ =~= messages_key());
        }
        let ghost model0 = str_opt_view(model_slot);
        let ghost messages0 = msgs_opt_view(messages_slot);
        let (key, r1) = match parse_string_at(s, k) {
            Some(p) => p,
            None => {
                return None;
            },
        };
        let r2 = match expect_at(s, r1, ':') {
            Some(j) => j,
            None => {
                return None;
            },
        };
        let r3: usize;
        if str_eq(key.as_str(), "model") {
            if model_slot.is_some() {
                return None;
            }
            let (v, r3a) = match parse_string_at(s, r2) {
                Some(p) => p,
                None => {
                    return None;
                },
            };
            model_slot = Some(v);
            r3 = r3a;
        } else if str_eq(key.as_str(), "messages") {
            if messages_slot.is_some() {
                return None;
            }
            let (v, r3a) = match parse_message_list_at(s, r2) {
                Some(p) => p,
                None => {
                    return None;
                },
            };
            messages_slot = Some(v);
            r3 = r3a;
        } else {
            let r3a = match skip_value_whole_at(s, r2) {
                Some(j) => j,
                None => {
                    return None;
                },
            };
            r3 = r3a;
        }
        proof {
            assert(parse_conversation_member(s@.skip(k as int), model0, messages0) == Some(
                (str_opt_view(model_slot), msgs_opt_view(messages_slot), s@.skip(r3 as int)),
            ));
        }
        if let Some(r4) = expect_at(s, r3, '}') {
            let j = skip_ws_at(s, r4);
            if j != n {
                proof {
                    assert(skip_ws(s@.skip(r4 as int)).len() == n - j);
                }
                return None;
            }
            proof {
                assert(skip_ws(s@.skip(r4 as int)).len() == 0);
            }
            match (model_slot, messages_slot) {
                (Some(model), Some(messages)) => {
                    let c = Conversation { model, messages };
                    proof {
                        assert(c@ =~= (ConversationView {
                            model: c.model@,
                            messages: messages_view(c.messages@),
                        }));
                    }
                    return Some(c);
                },
                _ => {
                    return None;
                },
            }
        }
        let r5 = match expect_at(s, r3, ',') {
            Some(j) => j,
            None => {
                return None;
            },
        };
        proof {
            lemma_parse_string_len(s@.skip(k as int));
            lemma_expect_tok_len(s@.skip(r1 as int), ':');
            lemma_parse_string_len(s@.skip(r2 as int));
            lemma_parse_message_list_len(s@.skip(r2 as int));
            lemma_skip_value_whole_len(s@.skip(r2 as int));
            lemma_expect_tok_len(s@.skip(r3 as int), ',');
        }
        k = r5;
    }
}

/// Parses a whole success-response body, exactly as [`parse_response_seq`]
/// states it.
pub fn parse_response(s: &str) -> (r: Option<Response>)
    ensures
        match r {
            Some(resp) => parse_response_seq(s@) == Some(resp@),
            None => parse_response_seq(s@) is None,
        },
{
    proof {
        assert(s@.skip(0) =~= s@);
        reveal_strlit("id");
        assert("id"@ =~= id_key());
        reveal_strlit("object");
        assert("object"@ =~= object_key());
        reveal_strlit("created");
        assert("created"@ =~= created_key());
        reveal_strlit("model");
        assert("model"@ =~= model_key());
        reveal_strlit("choices");
        assert("choices"@ =~= choices_key());
    }
    let n = s.unicode_len();
    let t1 = match expect_at(s, 0, '{') {
        Some(j) => j,
        None => {
            return None;
        },
    };
    if let Some(_j) = expect_at(s, t1, '}') {
        return None;
    }
    let mut id_slot: Option<String> = None;
    let mut object_slot: Option<String> = None;
    let mut created_slot: Option<u64> = None;
    let mut model_slot: Option<String> = None;
    let mut choices_slot: Option<Vec<Choice>> = None;
    let mut k: usize = t1;
    loop
        invariant
            k <= n,
            n == s@.len(),
            parse_response_seq(s@) == (match parse_response_members(
                s@.skip(k as int),
                str_opt_view(id_slot),
                str_opt_view(object_slot),
                created_slot,
                str_opt_view(model_slot),
                choices_opt_view(choices_slot),
            ) {
                Some((resp, rest)) => if skip_ws(rest).len() == 0 {
                    Some(resp)
                } else {
                    None::<ResponseView>
                },
                None => None::<ResponseView>,
            }),
        decreases n - k,
    {
        proof {
            reveal_strlit("id");
            assert("id"@ =~= id_key());
            reveal_strlit("object");
            assert("object"@ =~= object_key());
            reveal_strlit("created");
            assert("created"@ =~= created_key());
            reveal_strlit("model");
            assert("model"@ =~= model_key());
            reveal_strlit("choices");
            assert("choices"@ =~= choices_key());
        }
        let ghost id0 = str_opt_view(id_slot);
        let ghost object0 = str_opt_view(object_slot);
        let ghost created0 = created_slot;
        let ghost model0 = str_opt_view(model_slot);
        let ghost choices0 = choices_opt_view(choices_slot);
        let (key, r1) = match parse_string_at(s, k) {
            Some(p) => p,
            None => {
                return None;
            },
        };
        let r2 = match expect_at(s, r1, ':') {
            Some(j) => j,
            None => {
                return None;
            },
        };
        let r3: usize;
        if str_eq(key.as_str(), "id") {
            if id_slot.is_some() {
                return None;
            }
            let (v, r3a) = match parse_string_at(s, r2) {
                Some(p) => p,
                None => {
                    return None;
                },
            };
            id_slot = Some(v);
            r3 = r3a;
        } else if str_eq(key.as_str(), "object") {
            if object_slot.is_some() {
                return None;
            }
            let (v, r3a) = match parse_string_at(s, r2) {
                Some(p) => p,
                None => {
                    return None;
                },
            };
            object_slot = Some(v);
            r3 = r3a;
        } else if str_eq(key.as_str(), "created") {
            if created_slot.is_some() {
                return None;
            }
            let (v, r3a) = match parse_u64_at(s, r2) {
                Some(p) => p,
                None => {
                    return None;
                },
            };
            created_slot = Some(v);
            r3 = r3a;
        } else if str_eq(key.as_str(), "model") {
            if model_slot.is_some() {
                return None;
            }
            let (v, r3a) = match parse_string_at(s, r2) {
                Some(p) => p,
                None => {
                    return None;
                },
            };
            model_slot = Some(v);
            r3 = r3a;
        } else if str_eq(key.as_str(), "choices") {
            if choices_slot.is_some() {
                return None;
            }
            let (v, r3a) = match parse_choice_list_at(s, r2) {
                Some(p) => p,
                None => {
                    return None;
                },
            };
            choices_slot = Some(v);
            r3 = r3a;
        } else {
            let r3a = match skip_value_whole_at(s, r2) {
                Some(j) => j,
                None => {
                    return None;
                },
            };
            r3 = r3a;
        }
        proof {
            assert(parse_response_member(
                s@.skip(k as int),
                id0,
                object0,
                created0,
                model0,
                choices0,
            ) == Some(
                (
                    str_opt_view(id_slot),
                    str_opt_view(object_slot),
                    created_slot,
                    str_opt_view(model_slot),
                    choices_opt_view(choices_slot),
                    s@.skip(r3 as int),
                ),
            ));
        }
        if let Some(r4) = expect_at(s, r3, '}') {
            let j = skip_ws_at(s, r4);
            if j != n {
                proof {
                    assert(skip_ws(s@.skip(r4 as int)).len() == n - j);
                }
                return None;
            }
            proof {
                assert(skip_ws(s@.skip(r4 as int)).len() == 0);
            }
            match (id_slot, object_slot, created_slot, model_slot, choices_slot) {
                (Some(id), Some(object), Some(created), Some(model), Some(choices)) => {
                    let resp = Response { id, object, created, model, choices };
                    proof {
                        assert(resp@ =~= (ResponseView {
                            id: resp.id@,
                            object: resp.object@,
                            created: resp.created,
                            model: resp.model@,
                            choices: choices_view(resp.choices@),
                        }));
                    }
                    return Some(resp);
                },
                _ => {
                    return None;
                },
            }
        }
        let r5 = match expect_at(s, r3, ',') {
            Some(j) => j,
            None => {
                return None;
            },
        };
        proof {
            lemma_parse_string_len(s@.skip(k as int));
            lemma_expect_tok_len(s@.skip(r1 as int), ':');
            lemma_parse_string_len(s@.skip(r2 as int));
            lemma_parse_u64_len(s@.skip(r2 as int));
            lemma_parse_choice_list_len(s@.skip(r2 as int));
            lemma_skip_value_whole_len(s@.skip(r2 as int));
            lemma_expect_tok_len(s@.skip(r3 as int), ',');
        }
        k = r5;
    }
}

} // verus!
