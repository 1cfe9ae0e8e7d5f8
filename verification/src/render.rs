//! The human-readable report: an aligned table of alerts.
use vstd::prelude::*;
use vstd::string::StringSliceAdditionalSpecFns;
use vstd::utf8::encode_utf8;

use crate::signal::joined;
use crate::text::{decimal, decimal_string};

verus! {

/// How a report is rendered.
#[derive(Clone, Copy, Debug, PartialEq, Eq, Structural)]
pub enum Format {
    /// An aligned human-readable table of alerts.
    Text,
    /// The report serialized as JSON.
    Json,
}

/// One alert as the table shows it; the numbers arrive already rendered.
pub struct TextRow {
    /// The perp symbol.
    pub symbol: String,
    /// The severity with four decimals.
    pub severity: String,
    /// How many of the ten bar cells the severity fills.
    pub filled: usize,
    /// The highest-scoring signal as `key=score`, or empty.
    pub top_factor: String,
}

/// `n` copies of `c`.
pub open spec fn repeat(c: char, n: nat) -> Seq<char> {
    Seq::new(n, |i: int| c)
}

/// `s` padded with spaces on the right to `w` characters.
pub open spec fn pad_right(s: Seq<char>, w: nat) -> Seq<char> {
    if s.len() < w {
        s + repeat(' ', (w - s.len()) as nat)
    } else {
        s
    }
}

/// `s` padded with spaces on the left to `w` characters.
pub open spec fn pad_left(s: Seq<char>, w: nat) -> Seq<char> {
    if s.len() < w {
        repeat(' ', (w - s.len()) as nat) + s
    } else {
        s
    }
}

/// The number of bytes of the UTF-8 encoding of `s`, as `str::len` gives it.
pub open spec fn byte_len(s: Seq<char>) -> usize {
    encode_utf8(s).len() as usize
}

/// The symbol column's width: the longest symbol in bytes, and at least six.
pub open spec fn column_width(rows: Seq<TextRow>) -> nat
    decreases rows.len(),
{
    if rows.len() == 0 {
        6
    } else {
        let rest = column_width(rows.drop_last());
        let w = byte_len(rows.last().symbol@);
        if w > rest {
            w as nat
        } else {
            rest
        }
    }
}

/// The symbol column fits every symbol and is no wider than it must be: at
/// least six, at least the byte length of every row's symbol, and equal to six
/// or to the byte length of some row's symbol.
pub proof fn lemma_column_width_is_widest_symbol(rows: Seq<TextRow>)
    ensures
        column_width(rows) >= 6,
        forall|i: int| 0 <= i < rows.len() ==> byte_len(#[trigger] rows[i].symbol@) <= column_width(rows),
        column_width(rows) == 6 || exists|j: int|
            0 <= j < rows.len() && column_width(rows) == byte_len(#[trigger] rows[j].symbol@),
    decreases rows.len(),
{
    if rows.len() > 0 {
        let prev = rows.drop_last();
        lemma_column_width_is_widest_symbol(prev);
        assert forall|i: int| 0 <= i < rows.len() implies byte_len(#[trigger] rows[i].symbol@)
            <= column_width(rows) by {
            if i < prev.len() {
                assert(prev[i] == rows[i]);
            }
        }
        let last = rows.len() - 1;
        if column_width(rows) != 6 {
            if byte_len(rows.last().symbol@) > column_width(prev) {
                assert(column_width(rows) == byte_len(rows[last].symbol@));
            } else {
                let j = choose|j: int|
                    0 <= j < prev.len() && column_width(prev) == byte_len(#[trigger] prev[j].symbol@);
                assert(prev[j] == rows[j]);
                assert(column_width(rows) == byte_len(rows[j].symbol@));
            }
        }
    }
}

/// A ten-cell bar with `filled` cells filled, e.g. `[######    ]`.
pub open spec fn bar_text(filled: nat) -> Seq<char> {
    seq!['['] + repeat('#', filled) + repeat(' ', (10 - filled) as nat) + seq![']']
}

/// The table header for a symbol column of width `w`.
pub open spec fn header_text(w: nat) -> Seq<char> {
    pad_right("symbol"@, w) + "  severity              signal"@
}

/// The table line of one alert.
pub open spec fn row_text(r: TextRow, w: nat) -> Seq<char> {
    pad_right(r.symbol@, w) + "  "@ + pad_left(r.severity@, 8) + " "@ + bar_text(r.filled as nat)
        + "  "@ + r.top_factor@
}

/// The last line of the table.
pub open spec fn summary_text(n: nat, scanned: nat) -> Seq<char> {
    decimal(n) + " alert(s), "@ + decimal(scanned) + " scanned"@
}

/// The whole text report: the table lines joined by newlines, or a one-line
/// note when no alert was raised.
pub open spec fn report_text(rows: Seq<TextRow>, scanned: nat) -> Seq<char> {
    if rows.len() == 0 {
        "no alerts ("@ + decimal(scanned) + " scanned)"@
    } else {
        let w = column_width(rows);
        joined(
            seq![header_text(w)] + Seq::new(rows.len(), |i: int| row_text(rows[i], w)) + seq![
                summary_text(rows.len(), scanned),
            ],
            '\n',
        )
    }
}

fn append_repeat(s: &mut String, unit: &str, n: usize)
    requires
        unit@.len() == 1,
    ensures
        final(s)@ == old(s)@ + repeat(unit@[0], n as nat),
{
    let mut i: usize = 0;
    while i < n
        invariant
            unit@.len() == 1,
            i <= n,
            s@ == old(s)@ + repeat(unit@[0], i as nat),
        decreases n - i,
    {
        s.append(unit);
        i = i + 1;
        assert(s@ =~= old(s)@ + repeat(unit@[0], i as nat));
    }
}

fn padded_right(s: &str, w: usize) -> (r: String)
    ensures
        r@ == pad_right(s@, w as nat),
{
    proof {
        reveal_strlit(" ");
    }
    let mut r = s.to_owned();
    let n = s.unicode_len();
    if n < w {
        append_repeat(&mut r, " ", w - n);
    }
    r
}

fn padded_left(s: &str, w: usize) -> (r: String)
    ensures
        r@ == pad_left(s@, w as nat),
{
    proof {
        reveal_strlit(" ");
    }
    let mut r = String::new();
    let n = s.unicode_len();
    if n < w {
        append_repeat(&mut r, " ", w - n);
    }
    r.append(s);
    assert(r@ =~= pad_left(s@, w as nat));
    r
}

/// The ten-cell severity bar with `filled` cells filled.
pub fn severity_bar(filled: usize) -> (b: String)
    requires
        filled <= 10,
    ensures
        b@ == bar_text(filled as nat),
{
    proof {
        reveal_strlit("[");
        reveal_strlit("]");
        reveal_strlit("#");
        reveal_strlit(" ");
    }
    let mut b = "[".to_owned();
    append_repeat(&mut b, "#", filled);
    append_repeat(&mut b, " ", 10 - filled);
    b.append("]");
    b
}

fn symbol_column_width(rows: &Vec<TextRow>) -> (w: usize)
    ensures
        w == column_width(rows@),
{
    let mut w: usize = 6;
    let mut i: usize = 0;
    while i < rows.len()
        invariant
            i <= rows.len(),
            w == column_width(rows@.take(i as int)),
        decreases rows.len() - i,
    {
        assert(rows@.take(i + 1).drop_last() =~= rows@.take(i as int));
        let sym = rows[i].symbol.as_str();
        let n = sym.len();
        assert(rows@.take(i + 1).last() == rows@[i as int]);
        assert(sym.spec_bytes() == encode_utf8(rows@[i as int].symbol@));
        assert(n == byte_len(rows@[i as int].symbol@));
        if n > w {
            w = n;
        }
        i = i + 1;
    }
    assert(rows@.take(rows.len() as int) =~= rows@);
    w
}

fn row_line(r: &TextRow, w: usize) -> (line: String)
    requires
        r.filled <= 10,
    ensures
        line@ == row_text(*r, w as nat),
{
    proof {
        reveal_strlit(" ");
        reveal_strlit("  ");
    }
    let mut line = padded_right(r.symbol.as_str(), w);
    line.append("  ");
    line.append(padded_left(r.severity.as_str(), 8).as_str());
    line.append(" ");
    line.append(severity_bar(r.filled).as_str());
    line.append("  ");
    line.append(r.top_factor.as_str());
    line
}

/// Render a report as an aligned table: a header, one line per alert (symbol,
/// severity, bar, top signal), and a count line; or `no alerts (N scanned)`.
pub fn render_text(rows: &Vec<TextRow>, scanned: usize) -> (t: String)
    requires
        forall|i: int| 0 <= i < rows@.len() ==> (#[trigger] rows@[i]).filled <= 10,
    ensures
        t@ == report_text(rows@, scanned as nat),
{
    if rows.len() == 0 {
        let mut t = "no alerts (".to_owned();
        t.append(decimal_string(scanned).as_str());
        t.append(" scanned)");
        return t;
    }
    let w = symbol_column_width(rows);
    let ghost lines = seq![header_text(w as nat)] + Seq::new(
        rows@.len(),
        |i: int| row_text(rows@[i], w as nat),
    ) + seq![summary_text(rows@.len(), scanned as nat)];
    let mut t = padded_right("symbol", w);
    t.append("  severity              signal");
    assert(t@ == joined(lines.take(1), '\n')) by {
        assert(lines.take(1) =~= seq![header_text(w as nat)]);
    }
    let mut i: usize = 0;
    while i < rows.len()
        invariant
            i <= rows.len(),
            forall|j: int| 0 <= j < rows@.len() ==> (#[trigger] rows@[j]).filled <= 10,
            lines == seq![header_text(w as nat)] + Seq::new(
                rows@.len(),
                |j: int| row_text(rows@[j], w as nat),
            ) + seq![summary_text(rows@.len(), scanned as nat)],
            t@ == joined(lines.take(i + 1), '\n'),
        decreases rows.len() - i,
    {
        proof {
            reveal_strlit("\n");
        }
        t.append("\n");
        t.append(row_line(&rows[i], w).as_str());
        assert(lines.take(i + 2).drop_last() =~= lines.take(i + 1));
        assert(lines.take(i + 2).last() == row_text(rows@[i as int], w as nat));
        i = i + 1;
        assert(t@ =~= joined(lines.take(i + 1), '\n'));
    }
    proof {
        reveal_strlit("\n");
    }
    t.append("\n");
    t.append(decimal_string(rows.len()).as_str());
    t.append(" alert(s), ");
    t.append(decimal_string(scanned).as_str());
    t.append(" scanned");
    assert(lines.take(rows@.len() as int + 2).drop_last() =~= lines.take(rows@.len() as int + 1));
    assert(lines.take(rows@.len() as int + 2) =~= lines);
    assert(t@ =~= joined(lines, '\n'));
    t
}

} // verus!
