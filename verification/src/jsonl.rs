//! Event files hold one JSON event per line: the records of such a file are its
//! lines, trimmed of surrounding whitespace, with blank lines skipped.
use vstd::prelude::*;

use crate::order::{symbol_order, SymbolOrder};
use crate::signal::string_views;

verus! {

/// The pieces of `s` between newline characters, in order (an empty piece
/// before a leading, after a trailing and between adjacent newlines).
pub open spec fn split_on_newlines(s: Seq<char>) -> Seq<Seq<char>>
    decreases s.len(),
{
    if s.len() == 0 {
        seq![Seq::empty()]
    } else {
        let r = split_on_newlines(s.drop_last());
        if s.last() == '\n' {
            r.push(Seq::empty())
        } else {
            r.update(r.len() - 1, r.last().push(s.last()))
        }
    }
}

/// Splits `s` at every `'\n'` with `str::split`; the contract claims exactly
/// the pieces `split_on_newlines` describes.
#[verifier::external_body]
fn split_newlines(s: &str) -> (parts: Vec<String>)
    ensures
        string_views(parts@) == split_on_newlines(s@),
{
    s.split('\n').map(str::to_owned).collect()
}

/// Whether `c` has the Unicode White_Space property (as `char::is_whitespace`
/// tests it): U+0009 to U+000D, U+0020, U+0085, U+00A0, U+1680, U+2000 to
/// U+200A, U+2028, U+2029, U+202F, U+205F and U+3000.
pub open spec fn is_white_space(c: char) -> bool {
    let n = c as int;
    ||| 0x9 <= n <= 0xD
    ||| n == 0x20
    ||| n == 0x85
    ||| n == 0xA0
    ||| n == 0x1680
    ||| 0x2000 <= n <= 0x200A
    ||| n == 0x2028
    ||| n == 0x2029
    ||| n == 0x202F
    ||| n == 0x205F
    ||| n == 0x3000
}

/// `s` without its leading white space.
pub open spec fn trim_start(s: Seq<char>) -> Seq<char>
    decreases s.len(),
{
    if s.len() > 0 && is_white_space(s[0]) {
        trim_start(s.drop_first())
    } else {
        s
    }
}

/// `s` without its trailing white space.
pub open spec fn trim_end(s: Seq<char>) -> Seq<char>
    decreases s.len(),
{
    if s.len() > 0 && is_white_space(s.last()) {
        trim_end(s.drop_last())
    } else {
        s
    }
}

/// `s` without its leading and trailing white space, as `str::trim` returns
/// it.
pub open spec fn trimmed(s: Seq<char>) -> Seq<char> {
    trim_end(trim_start(s))
}

/// Trims `s` with `str::trim`, which removes leading and trailing characters
/// with the Unicode White_Space property; the contract claims exactly that.
#[verifier::external_body]
fn trim_text(s: &str) -> (t: String)
    ensures
        t@ == trimmed(s@),
{
    s.trim().to_owned()
}

/// The records of an event file: each line trimmed, blank ones skipped.
pub open spec fn record_lines(s: Seq<char>) -> Seq<Seq<char>> {
    split_on_newlines(s).map_values(|l: Seq<char>| trimmed(l)).filter(|l: Seq<char>| l.len() > 0)
}

/// The records of an event file, in order: its lines (split at `'\n'`; a
/// carriage return before it is whitespace) trimmed, blank lines skipped.
pub fn event_records(text: &str) -> (records: Vec<String>)
    ensures
        string_views(records@) == record_lines(text@),
{
    let parts = split_newlines(text);
    let ghost pieces = split_on_newlines(text@).map_values(|l: Seq<char>| trimmed(l));
    let ghost keep = |l: Seq<char>| l.len() > 0;
    let mut records: Vec<String> = Vec::new();
    let mut i: usize = 0;
    while i < parts.len()
        invariant
            i <= parts.len(),
            string_views(parts@) == split_on_newlines(text@),
            pieces == split_on_newlines(text@).map_values(|l: Seq<char>| trimmed(l)),
            keep == (|l: Seq<char>| l.len() > 0),
            string_views(records@) == pieces.take(i as int).filter(keep),
        decreases parts.len() - i,
    {
        let line = trim_text(parts[i].as_str());
        assert(string_views(parts@)[i as int] == parts@[i as int]@);
        assert(line@ == pieces[i as int]);
        assert(pieces.take(i + 1) =~= pieces.take(i as int).push(pieces[i as int]));
        proof {
            pieces.take(i as int).lemma_filter_push(pieces[i as int], keep);
        }
        if line.unicode_len() > 0 {
            let ghost before = records@;
            records.push(line);
            assert(string_views(records@) =~= string_views(before).push(pieces[i as int]));
        }
        i = i + 1;
    }
    assert(pieces.take(parts.len() as int) =~= pieces);
    records
}

/// The position of the last `.` in `s`, or `-1` when there is none.
pub open spec fn last_dot(s: Seq<char>) -> int
    decreases s.len(),
{
    if s.len() == 0 {
        -1
    } else if s.last() == '.' {
        s.len() - 1
    } else {
        last_dot(s.drop_last())
    }
}

/// The symbol an event file holds, from the file's name: the name before its
/// last `.` when what follows is `jsonl` and the name does not begin with that
/// `.`, else none (the file is not an event file).
pub open spec fn event_file_symbol_of(name: Seq<char>) -> Option<Seq<char>> {
    let p = last_dot(name);
    if p > 0 && name.subrange(p + 1, name.len() as int) == "jsonl"@ {
        Some(name.subrange(0, p))
    } else {
        None
    }
}

/// The symbol of an event file named `name` (`<SYMBOL>.jsonl`), or `None` for
/// a file that is not an event file.
pub fn event_file_symbol(name: &str) -> (r: Option<String>)
    ensures
        r is Some <==> event_file_symbol_of(name@) is Some,
        r matches Some(sym) ==> sym@ == event_file_symbol_of(name@)->Some_0,
{
    let n = name.unicode_len();
    let mut j: usize = n;
    assert(name@.take(n as int) =~= name@);
    while j > 0 && name.get_char(j - 1) != '.'
        invariant
            n == name@.len(),
            j <= n,
            last_dot(name@) == last_dot(name@.take(j as int)),
        decreases j,
    {
        assert(name@.take(j as int).drop_last() =~= name@.take(j - 1));
        j = j - 1;
    }
    if j > 0 {
        assert(name@.take(j as int).last() == name@[j - 1]);
    }
    if j <= 1 {
        return None;
    }
    let p = j - 1;
    let ext = name.substring_char(p + 1, n);
    if symbol_order(ext, "jsonl") == SymbolOrder::Same {
        Some(name.substring_char(0, p).to_owned())
    } else {
        None
    }
}

} // verus!
