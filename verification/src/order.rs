//! Lists in order.

use vstd::prelude::*;

verus! {

/// The order of byte sequences: where they first differ the lesser byte comes
/// first, and a beginning of a longer sequence comes before it.
pub open spec fn bytes_before(a: Seq<u8>, b: Seq<u8>) -> bool {
    exists|n: int| #[trigger] decides(a, b, n)
}

/// `a` and `b` agree on the first `n` bytes, and then `a` ends or is less.
pub open spec fn decides(a: Seq<u8>, b: Seq<u8>, n: int) -> bool {
    &&& 0 <= n <= a.len()
    &&& n < b.len()
    &&& a.take(n) == b.take(n)
    &&& n == a.len() || a[n] < b[n]
}

/// Whether `a` comes before `b`, see [`bytes_before`].
pub fn comes_before(a: &Vec<u8>, b: &Vec<u8>) -> (res: bool)
    ensures
        res == bytes_before(a@, b@),
{
    let mut i: usize = 0;
    while i < a.len() && i < b.len() && a[i] == b[i]
        invariant
            0 <= i <= a.len(),
            i <= b.len(),
            a@.take(i as int) == b@.take(i as int),
        decreases a.len() - i,
    {
        proof {
            assert(a@.take(i + 1) =~= a@.take(i as int).push(a@[i as int]));
            assert(b@.take(i + 1) =~= b@.take(i as int).push(b@[i as int]));
        }
        i = i + 1;
    }
    let res: bool = i < b.len() && (i == a.len() || a[i] < b[i]);
    proof {
        if res {
            assert(decides(a@, b@, i as int));
        } else {
            assert forall|n: int| !#[trigger] decides(a@, b@, n) by {
                if decides(a@, b@, n) {
                    if n < i {
                        assert(a@.take(i as int)[n] == b@.take(i as int)[n]);
                    } else if n > i {
                        assert(a@.take(n)[i as int] == b@.take(n)[i as int]);
                    }
                }
            }
        }
    }
    res
}

/// Of two byte sequences at most one comes before the other.
pub proof fn bytes_come_one_way(a: Seq<u8>, b: Seq<u8>)
    ensures
        !(bytes_before(a, b) && bytes_before(b, a)),
{
    if bytes_before(a, b) && bytes_before(b, a) {
        let n = choose|n: int| #[trigger] decides(a, b, n);
        let m = choose|m: int| #[trigger] decides(b, a, m);
        if n < m {
            assert(a.take(m)[n] == b.take(m)[n]);
        } else if m < n {
            assert(a.take(n)[m] == b.take(n)[m]);
        }
    }
}

/// The order of byte sequences carries over.
pub proof fn bytes_order_is_transitive(a: Seq<u8>, b: Seq<u8>, c: Seq<u8>)
    requires
        bytes_before(a, b),
        bytes_before(b, c),
    ensures
        bytes_before(a, c),
{
    let n = choose|n: int| #[trigger] decides(a, b, n);
    let m = choose|m: int| #[trigger] decides(b, c, m);
    let least = if n <= m {
        n
    } else {
        m
    };
    assert(a.take(least) =~= a.take(n).take(least));
    assert(b.take(least) =~= b.take(n).take(least));
    assert(b.take(least) =~= b.take(m).take(least));
    assert(c.take(least) =~= c.take(m).take(least));
    if n < m {
        assert(b.take(m)[n] == c.take(m)[n]);
    } else if m < n {
        assert(a.take(n)[m] == b.take(n)[m]);
    }
    assert(decides(a, c, least));
}

/// Of two different byte sequences one comes before the other.
pub proof fn bytes_order_is_total(a: Seq<u8>, b: Seq<u8>)
    ensures
        a == b || bytes_before(a, b) || bytes_before(b, a),
{
    assert(a.take(0) =~= b.take(0));
    lemma_total_from(a, b, 0);
}

/// Of two different byte sequences that begin with the same `n` bytes one
/// comes before the other.
proof fn lemma_total_from(a: Seq<u8>, b: Seq<u8>, n: int)
    requires
        0 <= n <= a.len(),
        n <= b.len(),
        a.take(n) == b.take(n),
    ensures
        a == b || bytes_before(a, b) || bytes_before(b, a),
    decreases a.len() - n,
{
    if n == a.len() && n == b.len() {
        assert(a =~= a.take(n));
        assert(b =~= b.take(n));
    } else if n == a.len() || n < b.len() && a[n] < b[n] {
        assert(decides(a, b, n));
    } else if n == b.len() || b[n] < a[n] {
        assert(decides(b, a, n));
    } else {
        assert(a.take(n + 1) =~= a.take(n).push(a[n]));
        assert(b.take(n + 1) =~= b.take(n).push(b[n]));
        lemma_total_from(a, b, n + 1);
    }
}

/// Of two elements at most one comes before the other.
pub open spec fn goes_one_way<A>(before: spec_fn(A, A) -> bool) -> bool {
    forall|a: A, b: A| !(#[trigger] before(a, b) && before(b, a))
}

/// Each element comes before all that follow it.
pub open spec fn in_turn<A>(list: Seq<A>, before: spec_fn(A, A) -> bool) -> bool {
    forall|i: int, j: int|
        0 <= i < j < list.len() ==> before(#[trigger] list[i], #[trigger] list[j])
}

/// Two lists of the same elements in the same order are the same.
pub proof fn order_determines_a_list<A>(
    list: Seq<A>,
    other: Seq<A>,
    before: spec_fn(A, A) -> bool,
)
    requires
        goes_one_way(before),
        in_turn(list, before),
        in_turn(other, before),
        forall|a: A| #[trigger] list.contains(a) <==> other.contains(a),
    ensures
        list == other,
    decreases list.len(),
{
    if list.len() == 0 {
        if other.len() > 0 {
            assert(other.contains(other[0]));
            assert(list.contains(other[0]));
        }
        assert(list =~= other);
    } else {
        assert(list.contains(list[0]));
        let i = choose|i: int| 0 <= i < other.len() && other[i] == list[0];
        assert(other.contains(other[0]));
        assert(list.contains(other[0]));
        let j = choose|j: int| 0 <= j < list.len() && list[j] == other[0];
        assert(i == 0) by {
            if i > 0 {
                assert(before(other[0], other[i]));
                if j > 0 {
                    assert(before(list[0], list[j]));
                }
            }
        }
        let rest = list.drop_first();
        let other_rest = other.drop_first();
        assert forall|a: A| #[trigger] rest.contains(a) <==> other_rest.contains(a) by {
            if rest.contains(a) {
                let n = choose|n: int| 0 <= n < rest.len() && rest[n] == a;
                assert(list[n + 1] == a);
                assert(before(list[0], list[n + 1]));
                assert(list.contains(a));
                let m = choose|m: int| 0 <= m < other.len() && other[m] == a;
                assert(m > 0);
                assert(other_rest[m - 1] == a);
            }
            if other_rest.contains(a) {
                let n = choose|n: int| 0 <= n < other_rest.len() && other_rest[n] == a;
                assert(other[n + 1] == a);
                assert(before(other[0], other[n + 1]));
                assert(other.contains(a));
                assert(list.contains(a));
                let m = choose|m: int| 0 <= m < list.len() && list[m] == a;
                assert(m > 0);
                assert(rest[m - 1] == a);
            }
        }
        order_determines_a_list(rest, other_rest, before);
        assert(list =~= seq![list[0]] + rest);
        assert(other =~= seq![other[0]] + other_rest);
    }
}

/// Where two byte sequences first differ, the lesser byte decides, whatever
/// follows.
pub proof fn the_first_difference_decides(
    head: Seq<u8>,
    a: u8,
    b: u8,
    rest: Seq<u8>,
    other: Seq<u8>,
)
    requires
        a < b,
    ensures
        bytes_before(head.push(a) + rest, head.push(b) + other),
        !bytes_before(head.push(b) + other, head.push(a) + rest),
{
    let less = head.push(a) + rest;
    let more = head.push(b) + other;
    let n = head.len() as int;
    assert(less.take(n) =~= head);
    assert(more.take(n) =~= head);
    assert(decides(less, more, n));
    bytes_come_one_way(less, more);
}

/// The beginning of a longer byte sequence comes before it, and nothing comes
/// before itself.
pub proof fn beginnings_come_first(head: Seq<u8>, rest: Seq<u8>)
    requires
        rest.len() > 0,
    ensures
        bytes_before(head, head + rest),
        !bytes_before(head + rest, head),
        !bytes_before(head, head),
{
    let longer = head + rest;
    let n = head.len() as int;
    assert(longer.take(n) =~= head.take(n));
    assert(decides(head, longer, n));
    bytes_come_one_way(head, longer);
    bytes_come_one_way(head, head);
}

} // verus!
