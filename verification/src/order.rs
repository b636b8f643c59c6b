use vstd::prelude::*;

verus! {

/// `lt` is a strict total order.
pub open spec fn strict_total_order<T>(lt: spec_fn(T, T) -> bool) -> bool {
    &&& forall|a: T| !#[trigger] lt(a, a)
    &&& forall|a: T, b: T, c: T| #[trigger] lt(a, b) && #[trigger] lt(b, c) ==> lt(a, c)
    &&& forall|a: T, b: T| a != b ==> #[trigger] lt(a, b) || lt(b, a)
}

/// `a` and `b` agree before position `i`, where `a` ends or holds the smaller item.
pub open spec fn first_difference<T>(
    a: Seq<T>,
    b: Seq<T>,
    lt: spec_fn(T, T) -> bool,
    i: int,
) -> bool {
    &&& 0 <= i <= a.len()
    &&& i < b.len()
    &&& forall|j: int| 0 <= j < i ==> #[trigger] a[j] == b[j]
    &&& i == a.len() || lt(a[i], b[i])
}

/// The lexicographic order on sequences: a proper prefix comes first.
pub open spec fn lex_lt<T>(a: Seq<T>, b: Seq<T>, lt: spec_fn(T, T) -> bool) -> bool {
    exists|i: int| first_difference(a, b, lt, i)
}

/// The lexicographic order over a strict total order is one itself.
pub proof fn lemma_lex_order<T>(lt: spec_fn(T, T) -> bool)
    requires
        strict_total_order(lt),
    ensures
        strict_total_order(|a: Seq<T>, b: Seq<T>| lex_lt(a, b, lt)),
{
    let lex = |a: Seq<T>, b: Seq<T>| lex_lt(a, b, lt);
    assert forall|a: Seq<T>| !#[trigger] lex(a, a) by {
        if lex_lt(a, a, lt) {
            let i = choose|i: int| first_difference(a, a, lt, i);
            assert(!lt(a[i], a[i]));
        }
    }
    assert forall|a: Seq<T>, b: Seq<T>, c: Seq<T>| #[trigger] lex(a, b) && #[trigger]
        lex(b, c) implies lex(a, c) by {
        let i = choose|i: int| first_difference(a, b, lt, i);
        let j = choose|j: int| first_difference(b, c, lt, j);
        let k = if i < j { i } else { j };
        assert forall|m: int| 0 <= m < k implies #[trigger] a[m] == c[m] by {
            assert(a[m] == b[m]);
            assert(b[m] == c[m]);
        }
        if i < j {
            assert(b[i] == c[i]);
        } else if i == j {
            if i != a.len() {
                assert(lt(a[i], b[i]) && lt(b[i], c[i]));
            }
        } else {
            assert(a[j] == b[j]);
        }
        assert(first_difference(a, c, lt, k));
    }
    assert forall|a: Seq<T>, b: Seq<T>| a != b implies #[trigger] lex(a, b) || lex(b, a) by {
        lemma_lex_connected(a, b, lt, 0);
    }
}

/// Two different sequences that agree up to `i` compare one way or the other.
proof fn lemma_lex_connected<T>(a: Seq<T>, b: Seq<T>, lt: spec_fn(T, T) -> bool, i: int)
    requires
        strict_total_order(lt),
        a != b,
        0 <= i <= a.len(),
        i <= b.len(),
        forall|j: int| 0 <= j < i ==> #[trigger] a[j] == b[j],
    ensures
        lex_lt(a, b, lt) || lex_lt(b, a, lt),
    decreases a.len() - i,
{
    if i == a.len() {
        if i == b.len() {
            assert(a =~= b);
        }
        assert(first_difference(a, b, lt, i));
    } else if i == b.len() {
        assert(first_difference(b, a, lt, i));
    } else if a[i] == b[i] {
        lemma_lex_connected(a, b, lt, i + 1);
    } else {
        assert(lt(a[i], b[i]) || lt(b[i], a[i]));
        if lt(a[i], b[i]) {
            assert(first_difference(a, b, lt, i));
        } else {
            assert(first_difference(b, a, lt, i));
        }
    }
}

} // verus!
