//! Lexicographic order.

use vstd::prelude::*;
use vstd::relations::strict_total_ordering;

verus! {

/// Whether a sequence comes before another one: at the first position where they differ, its item
/// is the lesser one, or it ends there.
pub open spec fn comes_before<T>(a: Seq<T>, b: Seq<T>, less: spec_fn(T, T) -> bool) -> bool
    decreases a.len(),
{
    if b.len() == 0 {
        false
    } else if a.len() == 0 {
        true
    } else if a[0] == b[0] {
        comes_before(a.skip(1), b.skip(1), less)
    } else {
        less(a[0], b[0])
    }
}

/// The lexicographic order for a given order of the items.
pub open spec fn lexicographic<T>(less: spec_fn(T, T) -> bool) -> spec_fn(Seq<T>, Seq<T>) -> bool {
    |a: Seq<T>, b: Seq<T>| comes_before(a, b, less)
}

/// The order of bytes.
pub open spec fn byte_order() -> spec_fn(u8, u8) -> bool {
    |a: u8, b: u8| a < b
}

/// Of two different sequences exactly one comes before the other.
proof fn lemma_comes_before_is_connected<T>(a: Seq<T>, b: Seq<T>, less: spec_fn(T, T) -> bool)
    requires
        strict_total_ordering(less),
    ensures
        a == b ==> !comes_before(a, b, less),
        a != b ==> comes_before(a, b, less) != comes_before(b, a, less),
    decreases a.len(),
{
    if a.len() > 0 && b.len() > 0 {
        if a[0] == b[0] {
            lemma_comes_before_is_connected(a.skip(1), b.skip(1), less);
            assert(seq![a[0]] + a.skip(1) =~= a);
            assert(seq![b[0]] + b.skip(1) =~= b);
        } else {
            assert(less(a[0], b[0]) || less(b[0], a[0]));
        }
    } else if a.len() == 0 && b.len() == 0 {
        assert(a =~= b);
    }
}

/// What comes before a sequence also comes before everything behind this one.
proof fn lemma_comes_before_is_transitive<T>(
    a: Seq<T>,
    b: Seq<T>,
    c: Seq<T>,
    less: spec_fn(T, T) -> bool,
)
    requires
        strict_total_ordering(less),
        comes_before(a, b, less),
        comes_before(b, c, less),
    ensures
        comes_before(a, c, less),
    decreases a.len(),
{
    if a.len() > 0 {
        if a[0] == b[0] && b[0] == c[0] {
            lemma_comes_before_is_transitive(a.skip(1), b.skip(1), c.skip(1), less);
        } else if a[0] != b[0] && b[0] != c[0] {
            assert(less(a[0], b[0]) && less(b[0], c[0]));
            assert(less(a[0], c[0]));
            assert(less(a[0], a[0]) == false);
        }
    }
}

/// If any two items can be compared, so can any two sequences.
pub proof fn lemma_lexicographic<T>(less: spec_fn(T, T) -> bool)
    requires
        strict_total_ordering(less),
    ensures
        strict_total_ordering(lexicographic(less)),
{
    let order = lexicographic(less);
    assert forall|a: Seq<T>| #[trigger] order(a, a) == false by {
        lemma_comes_before_is_connected(a, a, less);
    }
    assert forall|a: Seq<T>, b: Seq<T>| #[trigger] order(a, b) && #[trigger] order(b, a) implies a
        == b by {
        lemma_comes_before_is_connected(a, b, less);
    }
    assert forall|a: Seq<T>, b: Seq<T>| a != b implies #[trigger] order(a, b) || #[trigger] order(
        b,
        a,
    ) by {
        lemma_comes_before_is_connected(a, b, less);
    }
    assert forall|a: Seq<T>, b: Seq<T>, c: Seq<T>| #[trigger]
        order(a, b) && #[trigger] order(b, c) implies order(a, c) by {
        lemma_comes_before_is_transitive(a, b, c, less);
    }
}

/// Determines whether bytes come before other bytes.
pub fn bytes_before(a: &[u8], b: &[u8]) -> (r: bool)
    ensures
        r == comes_before(a@, b@, byte_order()),
        r <==> exists|n: int|
            0 <= n <= a@.len() && n < b@.len() && #[trigger] a@.take(n) == b@.take(n) && (n
                == a@.len() || a@[n] < b@[n]),
{
    let mut i: usize = 0;
    assert(a@.skip(0) =~= a@ && b@.skip(0) =~= b@);
    while i < a.len() && i < b.len() && a[i] == b[i]
        invariant
            i <= a.len(),
            i <= b.len(),
            comes_before(a@, b@, byte_order()) == comes_before(
                a@.skip(i as int),
                b@.skip(i as int),
                byte_order(),
            ),
        decreases a.len() - i,
    {
        assert(a@.skip(i as int).skip(1) =~= a@.skip(i + 1));
        assert(b@.skip(i as int).skip(1) =~= b@.skip(i + 1));
        i += 1;
    }
    proof {
        law_comes_before(a@, b@, byte_order());
    }
    i < b.len() && (i == a.len() || a[i] < b[i])
}

/// A sequence comes before another one if and only if both start with the same items, and then it
/// ends while the other one does not, or its next item is the lesser one.
pub proof fn law_comes_before<T>(a: Seq<T>, b: Seq<T>, less: spec_fn(T, T) -> bool)
    requires
        strict_total_ordering(less),
    ensures
        comes_before(a, b, less) <==> exists|n: int|
            0 <= n <= a.len() && n < b.len() && #[trigger] a.take(n) == b.take(n) && (n == a.len()
                || less(a[n], b[n])),
    decreases a.len(),
{
    if b.len() > 0 && a.len() > 0 && a[0] == b[0] {
        let x = a.skip(1);
        let y = b.skip(1);
        law_comes_before(x, y, less);
        if comes_before(a, b, less) {
            let n = choose|n: int|
                0 <= n <= x.len() && n < y.len() && #[trigger] x.take(n) == y.take(n) && (n
                    == x.len() || less(x[n], y[n]));
            assert(a.take(n + 1) =~= seq![a[0]] + x.take(n));
            assert(b.take(n + 1) =~= seq![b[0]] + y.take(n));
            assert(a.take(n + 1) == b.take(n + 1));
        }
        if exists|n: int|
            0 <= n <= a.len() && n < b.len() && #[trigger] a.take(n) == b.take(n) && (n == a.len()
                || less(a[n], b[n])) {
            let n = choose|n: int|
                0 <= n <= a.len() && n < b.len() && #[trigger] a.take(n) == b.take(n) && (n
                    == a.len() || less(a[n], b[n]));
            assert(less(a[0], a[0]) == false);
            assert(n > 0);
            assert(x.take(n - 1) =~= a.take(n).skip(1));
            assert(y.take(n - 1) =~= b.take(n).skip(1));
            assert(x.take(n - 1) == y.take(n - 1));
        }
    } else if b.len() > 0 {
        if comes_before(a, b, less) {
            assert(a.take(0) =~= b.take(0));
        }
        assert forall|n: int|
            0 < n <= a.len() && n < b.len() implies #[trigger] a.take(n) != b.take(n) by {
            assert(a.take(n)[0] == a[0] && b.take(n)[0] == b[0]);
        }
    }
}

} // verus!
