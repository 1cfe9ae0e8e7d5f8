//! The JSON command boundary: command names, field errors and the reply
//! envelopes.
use vstd::prelude::*;

use crate::error::{error_text, Error};
use crate::order::{symbol_order, SymbolOrder};

verus! {

/// A command of the JSON boundary.
#[derive(Clone, Copy, Debug, PartialEq, Eq, Structural)]
pub enum Command {
    /// Replace the spec (and clear the streaming state).
    SetSpec,
    /// Feed one event to one symbol.
    Feed,
    /// Feed a list of events to one symbol, in order.
    FeedBatch,
    /// Scan a whole batch of per-symbol events.
    Scan,
    /// Report on the streaming state.
    Alerts,
    /// Clear the streaming state, keeping the spec.
    Reset,
    /// Report the library version.
    Version,
}

/// The command named `name`, if any.
pub open spec fn command_named(name: Seq<char>) -> Option<Command> {
    if name == "set_spec"@ {
        Some(Command::SetSpec)
    } else if name == "feed"@ {
        Some(Command::Feed)
    } else if name == "feed_batch"@ {
        Some(Command::FeedBatch)
    } else if name == "scan"@ {
        Some(Command::Scan)
    } else if name == "alerts"@ {
        Some(Command::Alerts)
    } else if name == "reset"@ {
        Some(Command::Reset)
    } else if name == "version"@ {
        Some(Command::Version)
    } else {
        None
    }
}

/// The message for an absent envelope field.
pub open spec fn missing_field_text(name: Seq<char>) -> Seq<char> {
    "missing \""@ + name + "\""@
}

/// The message for an absent or non-string envelope field that must be a
/// string.
pub open spec fn missing_string_text(name: Seq<char>) -> Seq<char> {
    "missing string \""@ + name + "\""@
}

/// The error for an absent envelope field.
pub fn missing_field(name: &str) -> (e: Error)
    ensures
        e matches Error::BadSpec(m) && m@ == missing_field_text(name@),
{
    let mut m = "missing \"".to_owned();
    m.append(name);
    m.append("\"");
    Error::BadSpec(m)
}

/// The error for an envelope field that is absent or not a string.
pub fn missing_string(name: &str) -> (e: Error)
    ensures
        e matches Error::BadSpec(m) && m@ == missing_string_text(name@),
{
    let mut m = "missing string \"".to_owned();
    m.append(name);
    m.append("\"");
    Error::BadSpec(m)
}

fn same(a: &str, b: &str) -> (r: bool)
    ensures
        r == (a@ == b@),
{
    symbol_order(a, b) == SymbolOrder::Same
}

/// Decode the `cmd` field of an envelope: `None` when it is absent or not a
/// string.
pub fn parse_command(cmd: Option<&str>) -> (r: Result<Command, Error>)
    ensures
        cmd is None ==> (r matches Err(Error::BadSpec(m)) && m@ == missing_field_text("cmd"@)),
        cmd is Some && command_named(cmd->Some_0@) is Some ==> r == Ok::<Command, Error>(
            command_named(cmd->Some_0@)->Some_0,
        ),
        cmd is Some && command_named(cmd->Some_0@) is None ==> (r matches Err(Error::BadSpec(m))
            && m@ == "unknown cmd: "@ + cmd->Some_0@),
{
    match cmd {
        None => Err(missing_field("cmd")),
        Some(c) => {
            if same(c, "set_spec") {
                Ok(Command::SetSpec)
            } else if same(c, "feed") {
                Ok(Command::Feed)
            } else if same(c, "feed_batch") {
                Ok(Command::FeedBatch)
            } else if same(c, "scan") {
                Ok(Command::Scan)
            } else if same(c, "alerts") {
                Ok(Command::Alerts)
            } else if same(c, "reset") {
                Ok(Command::Reset)
            } else if same(c, "version") {
                Ok(Command::Version)
            } else {
                let mut m = "unknown cmd: ".to_owned();
                m.append(c);
                Err(Error::BadSpec(m))
            }
        },
    }
}

/// The lowercase hexadecimal digit of `d` (below sixteen).
pub open spec fn hex_digit(d: int) -> char {
    if d == 0 {
        '0'
    } else if d == 1 {
        '1'
    } else if d == 2 {
        '2'
    } else if d == 3 {
        '3'
    } else if d == 4 {
        '4'
    } else if d == 5 {
        '5'
    } else if d == 6 {
        '6'
    } else if d == 7 {
        '7'
    } else if d == 8 {
        '8'
    } else if d == 9 {
        '9'
    } else if d == 10 {
        'a'
    } else if d == 11 {
        'b'
    } else if d == 12 {
        'c'
    } else if d == 13 {
        'd'
    } else if d == 14 {
        'e'
    } else {
        'f'
    }
}

/// How a character is written inside a JSON string: `"` and `\` behind a
/// backslash, backspace, tab, line feed, form feed and carriage return as
/// `\b \t \n \f \r`, other characters below U+0020 as `\u00xx` in
/// lowercase hexadecimal, every other character as itself.
pub open spec fn json_escaped(c: char) -> Seq<char> {
    let n = c as int;
    if c == '"' {
        seq!['\\', '"']
    } else if c == '\\' {
        seq!['\\', '\\']
    } else if n == 8 {
        seq!['\\', 'b']
    } else if n == 9 {
        seq!['\\', 't']
    } else if n == 10 {
        seq!['\\', 'n']
    } else if n == 12 {
        seq!['\\', 'f']
    } else if n == 13 {
        seq!['\\', 'r']
    } else if n < 32 {
        seq!['\\', 'u', '0', '0', hex_digit(n / 16), hex_digit(n % 16)]
    } else {
        seq![c]
    }
}

/// The characters of `s`, each written as inside a JSON string.
pub open spec fn json_escaped_text(s: Seq<char>) -> Seq<char>
    decreases s.len(),
{
    if s.len() == 0 {
        Seq::empty()
    } else {
        json_escaped_text(s.drop_last()) + json_escaped(s.last())
    }
}

/// The JSON string literal for `s`: its escaped characters in double quotes.
pub open spec fn json_string(s: Seq<char>) -> Seq<char> {
    seq!['"'] + json_escaped_text(s) + seq!['"']
}

/// Writes `s` as a JSON string with `serde_json` (`Value::String` displayed).
/// The contract claims the escaping of `serde_json`'s compact formatter: the
/// text in double quotes, with `json_escaped` applied to each character.
#[verifier::external_body]
fn quote_json(s: &str) -> (q: String)
    ensures
        q@ == json_string(s@),
{
    serde_json::Value::String(s.to_owned()).to_string()
}

/// The success reply `{"ok":true}`.
pub fn ok_json() -> (s: String)
    ensures
        s@ == "{\"ok\":true}"@,
{
    "{\"ok\":true}".to_owned()
}

/// The text of the error reply for `message`.
pub open spec fn error_json_text(message: Seq<char>) -> Seq<char> {
    "{\"error\":"@ + json_string(message) + ",\"ok\":false}"@
}

/// The error reply `{"error":<message>,"ok":false}` (object keys in sorted
/// order, as `serde_json` writes a map).
pub fn error_json(message: &str) -> (s: String)
    ensures
        s@ == error_json_text(message@),
{
    let mut s = "{\"error\":".to_owned();
    s.append(quote_json(message).as_str());
    s.append(",\"ok\":false}");
    s
}

/// The library version: the current release, the same as the package
/// version in Cargo.toml.
pub fn version() -> (v: &'static str)
    ensures
        v@ == "0.1.4"@,
{
    "0.1.4"
}

/// The reply to the `version` command, `{"version":"<version>"}`.
pub fn version_json() -> (s: String)
    ensures
        s@ == "{\"version\":\"0.1.4\"}"@,
{
    let v = version();
    let mut s = "{\"version\":".to_owned();
    s.append(quote_json(v).as_str());
    s.append("}");
    proof {
        reveal_strlit("0.1.4");
        reveal_strlit("{\"version\":");
        reveal_strlit("}");
        reveal_strlit("{\"version\":\"0.1.4\"}");
        reveal_with_fuel(json_escaped_text, 6);
        assert(json_string(v@) =~= seq!['"', '0', '.', '1', '.', '4', '"']);
        assert(s@ =~= "{\"version\":\"0.1.4\"}"@);
    }
    s
}

/// The reply of the command boundary: the command's own reply when it
/// succeeded, the error reply for its message otherwise, so the boundary never
/// fails.
pub fn reply(outcome: Result<String, Error>) -> (s: String)
    ensures
        outcome matches Ok(t) ==> s == t,
        outcome matches Err(e) ==> s@ == error_json_text(error_text(e)),
{
    match outcome {
        Ok(t) => t,
        Err(e) => error_json(e.message().as_str()),
    }
}

} // verus!
