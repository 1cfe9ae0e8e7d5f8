//! The order of symbols: lexicographic by character, as `String`'s own order
//! (UTF-8 byte order coincides with code-point order).
use vstd::prelude::*;

verus! {

/// Whether `a` sorts strictly before `b`, comparing from position `i` on.
pub open spec fn precedes_from(a: Seq<char>, b: Seq<char>, i: int) -> bool
    decreases a.len() - i,
{
    if i < 0 {
        false
    } else if i >= a.len() {
        i < b.len()
    } else if i >= b.len() {
        false
    } else if a[i] != b[i] {
        (a[i] as int) < (b[i] as int)
    } else {
        precedes_from(a, b, i + 1)
    }
}

/// Whether symbol `a` sorts strictly before symbol `b`.
pub open spec fn precedes(a: Seq<char>, b: Seq<char>) -> bool {
    precedes_from(a, b, 0)
}

/// No symbol precedes itself.
pub proof fn lemma_precedes_irreflexive(a: Seq<char>, i: int)
    requires
        0 <= i,
    ensures
        !precedes_from(a, a, i),
    decreases a.len() - i,
{
    if i < a.len() {
        lemma_precedes_irreflexive(a, i + 1);
    }
}

/// Of two symbols, at most one precedes the other.
pub proof fn lemma_precedes_asymmetric(a: Seq<char>, b: Seq<char>, i: int)
    requires
        0 <= i,
    ensures
        !(precedes_from(a, b, i) && precedes_from(b, a, i)),
    decreases a.len() - i,
{
    if i < a.len() && i < b.len() && a[i] == b[i] {
        lemma_precedes_asymmetric(a, b, i + 1);
    }
}

/// Precedence is transitive.
pub proof fn lemma_precedes_transitive(a: Seq<char>, b: Seq<char>, c: Seq<char>, i: int)
    requires
        0 <= i,
        precedes_from(a, b, i),
        precedes_from(b, c, i),
    ensures
        precedes_from(a, c, i),
    decreases a.len() - i,
{
    if i < a.len() && i < b.len() && i < c.len() && a[i] == b[i] && b[i] == c[i] {
        lemma_precedes_transitive(a, b, c, i + 1);
    }
}

/// Two symbols that agree up to `i` and neither of which precedes the other
/// from `i` on are equal.
pub proof fn lemma_precedes_total(a: Seq<char>, b: Seq<char>, i: int)
    requires
        0 <= i <= a.len(),
        i <= b.len(),
        a.take(i) == b.take(i),
        !precedes_from(a, b, i),
        !precedes_from(b, a, i),
    ensures
        a == b,
    decreases a.len() - i,
{
    if i < a.len() && i < b.len() {
        assert(a[i] == b[i]) by {
            if a[i] != b[i] {
                assert((a[i] as int) != (b[i] as int));
            }
        }
        assert(a.take(i + 1) =~= a.take(i).push(a[i]));
        assert(b.take(i + 1) =~= b.take(i).push(b[i]));
        lemma_precedes_total(a, b, i + 1);
    } else {
        assert(a =~= a.take(i));
        assert(b =~= b.take(i));
    }
}

/// Of two distinct symbols, one precedes the other.
pub proof fn lemma_precedes_connected(a: Seq<char>, b: Seq<char>)
    ensures
        a != b ==> precedes(a, b) || precedes(b, a),
{
    if !precedes(a, b) && !precedes(b, a) {
        assert(a.take(0) =~= b.take(0));
        lemma_precedes_total(a, b, 0);
    }
}

/// Comparing from any position before the first difference gives the same
/// answer as comparing from the first difference.
proof fn lemma_precedes_skips_common_prefix(a: Seq<char>, b: Seq<char>, k: int, i: int)
    requires
        0 <= k <= i,
        i <= a.len(),
        i <= b.len(),
        a.take(i) == b.take(i),
    ensures
        precedes_from(a, b, k) == precedes_from(a, b, i),
    decreases i - k,
{
    if k < i {
        assert(a[k] == a.take(i)[k]);
        assert(b[k] == b.take(i)[k]);
        lemma_precedes_skips_common_prefix(a, b, k + 1, i);
    }
}

/// Symbol order is `String` order, character by character: when `a` and `b`
/// agree on their first `i` characters and differ at position `i`, `a` sorts
/// before `b` exactly when its character there has the smaller code point
/// (so `"1000PEPEUSDT"` sorts before `"BTCUSDT"`); when `a` is a proper prefix
/// of `b`, `a` sorts before `b`.
pub proof fn lemma_precedes_is_code_point_order(a: Seq<char>, b: Seq<char>, i: int)
    requires
        0 <= i <= a.len(),
        i <= b.len(),
        a.take(i) == b.take(i),
    ensures
        i < a.len() && i < b.len() && a[i] != b[i] ==> (precedes(a, b) <==> (a[i] as int) < (
        b[i] as int)),
        i == a.len() && i < b.len() ==> precedes(a, b),
        i == a.len() && i < b.len() ==> !precedes(b, a),
{
    lemma_precedes_skips_common_prefix(a, b, 0, i);
    lemma_precedes_skips_common_prefix(b, a, 0, i);
}

/// The relative order of two symbols.
#[derive(Clone, Copy, Debug, PartialEq, Eq, Structural)]
pub enum SymbolOrder {
    /// The first symbol sorts before the second.
    Before,
    /// The symbols are equal.
    Same,
    /// The first symbol sorts after the second.
    After,
}

/// Compare two symbols character by character.
pub fn symbol_order(a: &str, b: &str) -> (r: SymbolOrder)
    ensures
        (r == SymbolOrder::Before) == precedes(a@, b@),
        (r == SymbolOrder::Same) == (a@ == b@),
        (r == SymbolOrder::After) == precedes(b@, a@),
{
    let la = a.unicode_len();
    let lb = b.unicode_len();
    let mut i: usize = 0;
    while i < la && i < lb
        invariant
            la == a@.len(),
            lb == b@.len(),
            i <= la,
            i <= lb,
            a@.take(i as int) == b@.take(i as int),
            precedes(a@, b@) == precedes_from(a@, b@, i as int),
            precedes(b@, a@) == precedes_from(b@, a@, i as int),
        decreases la - i,
    {
        let ca = a.get_char(i);
        let cb = b.get_char(i);
        if ca != cb {
            proof {
                lemma_precedes_asymmetric(a@, b@, i as int);
                assert(a@[i as int] != b@[i as int]);
            }
            if (ca as u32) < (cb as u32) {
                return SymbolOrder::Before;
            } else {
                return SymbolOrder::After;
            }
        }
        assert(a@.take(i + 1) =~= a@.take(i as int).push(ca));
        assert(b@.take(i + 1) =~= b@.take(i as int).push(cb));
        i = i + 1;
    }
    if la == lb {
        assert(a@ =~= a@.take(i as int));
        assert(b@ =~= b@.take(i as int));
        proof {
            lemma_precedes_irreflexive(a@, 0);
        }
        SymbolOrder::Same
    } else if la < lb {
        SymbolOrder::Before
    } else {
        SymbolOrder::After
    }
}

} // verus!
