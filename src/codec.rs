//! The wire encoding of what the hub sends, and the split between tagged
//! client messages and legacy bare text.

use crate::shared::{ClientMessage, SerializableUser, ServerMessage};
use vstd::prelude::*;
use vstd::string::*;

verus! {

/// The lower-case hexadecimal digit for `d`, below 16.
pub open spec fn hex_digit(d: nat) -> char {
    if d < 10 {
        digit_char(d)
    } else if d == 10 {
        'a'
    } else if d == 11 {
        'b'
    } else if d == 12 {
        'c'
    } else if d == 13 {
        'd'
    } else if d == 14 {
        'e'
    } else {
        'f'
    }
}

/// How one character is written inside a JSON string literal: quote and
/// backslash behind a backslash, the five control characters that have a
/// short escape with it, the other control characters as `\u00` and two
/// hexadecimal digits, and every other character as it is.
pub open spec fn escaped_char(c: char) -> Seq<char> {
    if c == '"' {
        seq!['\\', '"']
    } else if c == '\\' {
        seq!['\\', '\\']
    } else if c == '\u{8}' {
        seq!['\\', 'b']
    } else if c == '\t' {
        seq!['\\', 't']
    } else if c == '\n' {
        seq!['\\', 'n']
    } else if c == '\u{c}' {
        seq!['\\', 'f']
    } else if c == '\r' {
        seq!['\\', 'r']
    } else if (c as u32) < 0x20 {
        seq!['\\', 'u', '0', '0', hex_digit((c as u32 / 16) as nat), hex_digit((c as u32 % 16) as nat)]
    } else {
        seq![c]
    }
}

/// Every character of `s` written as inside a JSON string literal.
pub open spec fn escaped(s: Seq<char>) -> Seq<char>
    decreases s.len(),
{
    if s.len() == 0 {
        Seq::empty()
    } else {
        escaped(s.drop_last()) + escaped_char(s.last())
    }
}

/// The JSON string literal of `s`, as serde_json writes it.
pub open spec fn json_quoted(s: Seq<char>) -> Seq<char> {
    seq!['"'] + escaped(s) + seq!['"']
}

/// Relies on `serde_json::to_string` applied to a `str` (its escaping is
/// `format_escaped_str` with the `ESCAPE` table and `write_char_escape` of
/// the compact formatter): the JSON string literal of `s`. Writing a `str`
/// into memory cannot fail.
#[verifier::external_body]
fn json_string(s: &str) -> (r: String)
    ensures
        r@ == json_quoted(s@),
{
    match serde_json::to_string(s) {
        Ok(text) => text,
        Err(_) => String::new(),
    }
}

/// The decimal digit character for `d`.
pub open spec fn digit_char(d: nat) -> char {
    if d == 0 {
        '0'
    } else if d == 1 {
        '1'
    } else if d == 2 {
        '2'
    } else if d == 3 {
        '3'
    } else if d == 4 {
        '4'
    } else if d == 5 {
        '5'
    } else if d == 6 {
        '6'
    } else if d == 7 {
        '7'
    } else if d == 8 {
        '8'
    } else {
        '9'
    }
}

/// `n` written in decimal, without leading zeros.
pub open spec fn decimal(n: nat) -> Seq<char>
    decreases n,
{
    if n < 10 {
        seq![digit_char(n)]
    } else {
        decimal(n / 10) + seq![digit_char(n % 10)]
    }
}

/// The one-character text of the digit `d`.
fn digit_text(d: usize) -> (r: &'static str)
    requires
        d < 10,
    ensures
        r@ == seq![digit_char(d as nat)],
{
    proof {
        reveal_strlit("0");
        reveal_strlit("1");
        reveal_strlit("2");
        reveal_strlit("3");
        reveal_strlit("4");
        reveal_strlit("5");
        reveal_strlit("6");
        reveal_strlit("7");
        reveal_strlit("8");
        reveal_strlit("9");
    }
    if d == 0 {
        "0"
    } else if d == 1 {
        "1"
    } else if d == 2 {
        "2"
    } else if d == 3 {
        "3"
    } else if d == 4 {
        "4"
    } else if d == 5 {
        "5"
    } else if d == 6 {
        "6"
    } else if d == 7 {
        "7"
    } else if d == 8 {
        "8"
    } else {
        "9"
    }
}

/// `n` written in decimal.
pub fn decimal_text(n: usize) -> (r: String)
    ensures
        r@ == decimal(n as nat),
    decreases n,
{
    if n < 10 {
        String::from_str(digit_text(n))
    } else {
        let mut text = decimal_text(n / 10);
        text.append(digit_text(n % 10));
        text
    }
}

/// One entry of a user list on the wire: `{"name":<name>}`.
pub open spec fn user_json(u: SerializableUser) -> Seq<char> {
    "{\"name\":"@ + json_quoted(u.name@) + "}"@
}

/// The entries of a user list on the wire, separated by commas.
pub open spec fn users_json(users: Seq<SerializableUser>) -> Seq<char>
    decreases users.len(),
{
    if users.len() == 0 {
        Seq::empty()
    } else if users.len() == 1 {
        user_json(users[0])
    } else {
        users_json(users.drop_last()) + ","@ + user_json(users.last())
    }
}

/// A hub event on the wire: a JSON object whose `type` field names the
/// variant, followed by the variant's own fields.
pub open spec fn server_json(m: ServerMessage) -> Seq<char> {
    match m {
        ServerMessage::Chat { text } => "{\"type\":\"Chat\",\"text\":"@ + json_quoted(text@) + "}"@,
        ServerMessage::UserList(list) => "{\"type\":\"UserList\",\"users\":["@ + users_json(
            list.users@,
        ) + "],\"count\":"@ + decimal(list.count as nat) + "}"@,
        ServerMessage::UserJoined { name } => "{\"type\":\"UserJoined\",\"name\":"@ + json_quoted(
            name@,
        ) + "}"@,
        ServerMessage::UserLeft { name } => "{\"type\":\"UserLeft\",\"name\":"@ + json_quoted(name@)
            + "}"@,
    }
}

/// The wire text of the entries of a user list.
fn encode_users(users: &Vec<SerializableUser>) -> (r: String)
    ensures
        r@ == users_json(users@),
{
    let mut text = String::new();
    let mut i: usize = 0;
    while i < users.len()
        invariant
            i <= users@.len(),
            text@ == users_json(users@.subrange(0, i as int)),
        decreases users@.len() - i,
    {
        let ghost next = users@.subrange(0, i + 1);
        assert(next.drop_last() =~= users@.subrange(0, i as int));
        assert(next.last() == users@[i as int]);
        if i > 0 {
            text.append(",");
        }
        text.append("{\"name\":");
        let quoted = json_string(users[i].name.as_str());
        text.append(quoted.as_str());
        text.append("}");
        proof {
            if i == 0 {
                assert(next[0] == users@[0]);
                assert(text@ =~= user_json(next[0]));
            }
        }
        i += 1;
    }
    assert(users@.subrange(0, i as int) =~= users@);
    text
}

/// `prefix` followed by the JSON string literal of `value` and a closing brace.
fn object_with_string(prefix: &str, value: &str) -> (r: String)
    ensures
        r@ == prefix@ + json_quoted(value@) + "}"@,
{
    let mut text = String::from_str(prefix);
    let quoted = json_string(value);
    text.append(quoted.as_str());
    text.append("}");
    text
}

/// The wire text of a hub event.
pub fn encode_server_message(m: &ServerMessage) -> (r: String)
    ensures
        r@ == server_json(*m),
{
    match m {
        ServerMessage::Chat { text } => object_with_string("{\"type\":\"Chat\",\"text\":", text.as_str()),
        ServerMessage::UserList(list) => {
            let mut text = String::from_str("{\"type\":\"UserList\",\"users\":[");
            let entries = encode_users(&list.users);
            text.append(entries.as_str());
            text.append("],\"count\":");
            let count = decimal_text(list.count);
            text.append(count.as_str());
            text.append("}");
            text
        },
        ServerMessage::UserJoined { name } => object_with_string(
            "{\"type\":\"UserJoined\",\"name\":",
            name.as_str(),
        ),
        ServerMessage::UserLeft { name } => object_with_string(
            "{\"type\":\"UserLeft\",\"name\":",
            name.as_str(),
        ),
    }
}

/// An inbound frame, read either as a tagged client message or, failing
/// that, as legacy bare chat text.
#[derive(Debug, Clone)]
pub enum Decoded {
    /// The frame is a tagged client message.
    Typed(ClientMessage),
    /// The frame is not a tagged client message: its raw text, verbatim.
    Legacy(String),
}

impl Decoded {
    /// Classifies the frame `raw`, where `parsed` is what reading `raw` as a
    /// tagged client message gave (`None` where that failed).
    pub fn from_frame(raw: String, parsed: Option<ClientMessage>) -> (d: Decoded)
        ensures
            parsed matches Some(m) ==> d == Decoded::Typed(m),
            parsed is None ==> (d matches Decoded::Legacy(text) && text@ == raw@),
    {
        match parsed {
            Some(m) => Decoded::Typed(m),
            None => Decoded::Legacy(raw),
        }
    }
}

} // verus!
