//! The order of byte strings, and the sorted set of a list of strings.
//!
//! Strings are ordered as their bytes are, position by position, a proper
//! prefix before the longer string. A list is a sorted set when it ascends
//! strictly, so that no string stands in it twice.

use vstd::prelude::*;
use vstd::string::StringSliceAdditionalSpecFns;

verus! {

/// `a` and `b` agree on their first `k` bytes, and there `a` ends while `b`
/// goes on, or `a` holds the smaller byte.
pub open spec fn precedes_at(a: Seq<u8>, b: Seq<u8>, k: int) -> bool {
    &&& 0 <= k <= a.len()
    &&& k < b.len()
    &&& forall|i: int| 0 <= i < k ==> a[i] == b[i]
    &&& k < a.len() ==> a[k] < b[k]
}

/// `a` comes strictly before `b`.
pub open spec fn precedes(a: Seq<u8>, b: Seq<u8>) -> bool {
    exists|k: int| precedes_at(a, b, k)
}

/// Each string of `s` comes strictly before all that follow it.
pub open spec fn ascending(s: Seq<Seq<u8>>) -> bool {
    forall|i: int, j: int| 0 <= i < j < s.len() ==> precedes(#[trigger] s[i], #[trigger] s[j])
}

/// `a` and `b` hold the same strings, however often and in whatever order.
pub open spec fn same_members(a: Seq<Seq<u8>>, b: Seq<Seq<u8>>) -> bool {
    forall|x: Seq<u8>| a.contains(x) <==> b.contains(x)
}

/// `set` is `list` sorted ascending with its repetitions removed.
pub open spec fn is_sorted_set_of(set: Seq<Seq<u8>>, list: Seq<Seq<u8>>) -> bool {
    ascending(set) && same_members(set, list)
}

/// The bytes of each string of `v`.
pub open spec fn texts(v: Seq<&str>) -> Seq<Seq<u8>> {
    Seq::new(v.len(), |i: int| v[i].spec_bytes())
}

/// No string comes before itself.
pub proof fn precedes_is_irreflexive(a: Seq<u8>)
    ensures
        !precedes(a, a),
{
}

/// The order is transitive.
pub proof fn precedes_is_transitive(a: Seq<u8>, b: Seq<u8>, c: Seq<u8>)
    requires
        precedes(a, b),
        precedes(b, c),
    ensures
        precedes(a, c),
{
    let k1 = choose|k: int| precedes_at(a, b, k);
    let k2 = choose|k: int| precedes_at(b, c, k);
    if k1 <= k2 {
        assert(precedes_at(a, c, k1));
    } else {
        assert(precedes_at(a, c, k2));
    }
}

/// Of two strings at most one comes before the other.
pub proof fn precedes_is_asymmetric(a: Seq<u8>, b: Seq<u8>)
    requires
        precedes(a, b),
    ensures
        !precedes(b, a),
{
    if precedes(b, a) {
        precedes_is_transitive(a, b, a);
        precedes_is_irreflexive(a);
    }
}

/// An ascending list holds no string twice.
pub proof fn ascending_has_no_duplicates(s: Seq<Seq<u8>>)
    requires
        ascending(s),
    ensures
        s.no_duplicates(),
{
    assert forall|i: int, j: int| 0 <= i < s.len() && 0 <= j < s.len() && i != j implies s[i]
        != s[j] by {
        if i < j {
            assert(precedes(s[i], s[j]));
        } else {
            assert(precedes(s[j], s[i]));
        }
        precedes_is_irreflexive(s[i]);
    }
}

/// A list has at most one sorted set: two ascending lists with the same
/// members are the same list.
pub proof fn sorted_set_is_unique(a: Seq<Seq<u8>>, b: Seq<Seq<u8>>)
    requires
        ascending(a),
        ascending(b),
        same_members(a, b),
    ensures
        a == b,
    decreases a.len(),
{
    if a.len() == 0 {
        if b.len() > 0 {
            assert(b.contains(b[0]));
            assert(a.contains(b[0]));
        }
        assert(a =~= b);
    } else {
        assert(a.contains(a[0]));
        assert(b.contains(a[0]));
        let j = choose|j: int| 0 <= j < b.len() && b[j] == a[0];
        assert(b.contains(b[0]));
        assert(a.contains(b[0]));
        let i = choose|i: int| 0 <= i < a.len() && a[i] == b[0];
        if i > 0 {
            if j > 0 {
                precedes_is_asymmetric(a[0], a[i]);
            } else {
                precedes_is_irreflexive(a[0]);
            }
        }
        assert(a[0] == b[0]);
        let ta = a.drop_first();
        let tb = b.drop_first();
        assert(ascending(ta)) by {
            assert forall|p: int, q: int| 0 <= p < q < ta.len() implies precedes(
                #[trigger] ta[p],
                #[trigger] ta[q],
            ) by {
                assert(ta[p] == a[p + 1] && ta[q] == a[q + 1]);
            }
        }
        assert(ascending(tb)) by {
            assert forall|p: int, q: int| 0 <= p < q < tb.len() implies precedes(
                #[trigger] tb[p],
                #[trigger] tb[q],
            ) by {
                assert(tb[p] == b[p + 1] && tb[q] == b[q + 1]);
            }
        }
        assert forall|x: Seq<u8>| ta.contains(x) <==> tb.contains(x) by {
            if ta.contains(x) {
                let p = choose|p: int| 0 <= p < ta.len() && ta[p] == x;
                assert(a[p + 1] == x);
                assert(a.contains(x));
                assert(precedes(a[0], a[p + 1]));
                let q = choose|q: int| 0 <= q < b.len() && b[q] == x;
                if q == 0 {
                    precedes_is_irreflexive(x);
                }
                assert(tb[q - 1] == x);
            }
            if tb.contains(x) {
                let q = choose|q: int| 0 <= q < tb.len() && tb[q] == x;
                assert(b[q + 1] == x);
                assert(b.contains(x));
                assert(precedes(b[0], b[q + 1]));
                let p = choose|p: int| 0 <= p < a.len() && a[p] == x;
                if p == 0 {
                    precedes_is_irreflexive(x);
                }
                assert(ta[p - 1] == x);
            }
        }
        sorted_set_is_unique(ta, tb);
        assert(a =~= seq![a[0]] + ta);
        assert(b =~= seq![b[0]] + tb);
    }
}

/// The sorted set of a list depends on the strings that the list holds
/// alone, not on their order nor on how often each stands in it.
pub proof fn sorted_set_ignores_order_and_repetition(
    first_set: Seq<Seq<u8>>,
    first_list: Seq<Seq<u8>>,
    second_set: Seq<Seq<u8>>,
    second_list: Seq<Seq<u8>>,
)
    requires
        is_sorted_set_of(first_set, first_list),
        is_sorted_set_of(second_set, second_list),
        same_members(first_list, second_list),
    ensures
        first_set == second_set,
{
    sorted_set_is_unique(first_set, second_set);
}

/// Each string of `set` stands among the first `n` strings of `list`.
spec fn drawn_from(set: Seq<Seq<u8>>, list: Seq<Seq<u8>>, n: int) -> bool {
    forall|j: int| 0 <= j < set.len() ==> list.subrange(0, n).contains(#[trigger] set[j])
}

/// Each of the first `n` strings of `list` stands in `set`.
spec fn covers(set: Seq<Seq<u8>>, list: Seq<Seq<u8>>, n: int) -> bool {
    forall|k: int| 0 <= k < n ==> set.contains(#[trigger] list[k])
}

/// Looking at one more string of the list that the set already holds.
proof fn sorted_set_skips(set: Seq<Seq<u8>>, list: Seq<Seq<u8>>, n: int)
    requires
        0 <= n < list.len(),
        covers(set, list, n),
        drawn_from(set, list, n),
        set.contains(list[n]),
    ensures
        covers(set, list, n + 1),
        drawn_from(set, list, n + 1),
{
    assert forall|j: int| 0 <= j < set.len() implies list.subrange(0, n + 1).contains(
        #[trigger] set[j],
    ) by {
        let k = choose|k: int| 0 <= k < n && list.subrange(0, n)[k] == set[j];
        assert(list.subrange(0, n + 1)[k] == set[j]);
    }
}

/// Putting a new string of the list into the set at its place.
proof fn sorted_set_takes(set: Seq<Seq<u8>>, list: Seq<Seq<u8>>, n: int, p: int)
    requires
        0 <= n < list.len(),
        0 <= p <= set.len(),
        ascending(set),
        covers(set, list, n),
        drawn_from(set, list, n),
        forall|j: int| 0 <= j < p ==> precedes(#[trigger] set[j], list[n]),
        forall|j: int| p <= j < set.len() ==> precedes(list[n], #[trigger] set[j]),
    ensures
        ascending(set.insert(p, list[n])),
        covers(set.insert(p, list[n]), list, n + 1),
        drawn_from(set.insert(p, list[n]), list, n + 1),
{
    let x = list[n];
    let grown = set.insert(p, x);
    assert forall|a: int, b: int| 0 <= a < b < grown.len() implies precedes(
        #[trigger] grown[a],
        #[trigger] grown[b],
    ) by {
        if b < p {
            assert(grown[a] == set[a] && grown[b] == set[b]);
        } else if b == p {
            assert(grown[a] == set[a]);
        } else if a < p {
            assert(grown[a] == set[a] && grown[b] == set[b - 1]);
        } else if a == p {
            assert(grown[b] == set[b - 1]);
        } else {
            assert(grown[a] == set[a - 1] && grown[b] == set[b - 1]);
        }
    }
    assert forall|k: int| 0 <= k < n + 1 implies grown.contains(#[trigger] list[k]) by {
        if k < n {
            let j = choose|j: int| 0 <= j < set.len() && set[j] == list[k];
            if j < p {
                assert(grown[j] == list[k]);
            } else {
                assert(grown[j + 1] == list[k]);
            }
        } else {
            assert(grown[p] == list[k]);
        }
    }
    assert forall|j: int| 0 <= j < grown.len() implies list.subrange(0, n + 1).contains(
        #[trigger] grown[j],
    ) by {
        if j == p {
            assert(list.subrange(0, n + 1)[n] == grown[j]);
        } else {
            let i = if j < p { j } else { j - 1 };
            assert(grown[j] == set[i]);
            let k = choose|k: int| 0 <= k < n && list.subrange(0, n)[k] == set[i];
            assert(list.subrange(0, n + 1)[k] == grown[j]);
        }
    }
}

/// How one string stands to another.
#[derive(Clone, Copy, Debug, PartialEq, Eq, Structural)]
pub enum Order {
    Before,
    Same,
    After,
}

/// Whether `a` comes before `b`, is `b`, or comes after it.
pub fn compare(a: &str, b: &str) -> (r: Order)
    ensures
        match r {
            Order::Before => precedes(a.spec_bytes(), b.spec_bytes()),
            Order::Same => a.spec_bytes() == b.spec_bytes(),
            Order::After => precedes(b.spec_bytes(), a.spec_bytes()),
        },
{
    let x = a.as_bytes();
    let y = b.as_bytes();
    let n: usize = x.len();
    let m: usize = y.len();
    let mut k: usize = 0;
    while k < n && k < m && x[k] == y[k]
        invariant
            n == x@.len(),
            m == y@.len(),
            k <= n,
            k <= m,
            forall|i: int| 0 <= i < k ==> x@[i] == y@[i],
        decreases n - k,
    {
        k += 1;
    }
    if k == n && k == m {
        assert(x@ =~= y@);
        Order::Same
    } else if k == n {
        assert(precedes_at(x@, y@, k as int));
        Order::Before
    } else if k == m {
        assert(precedes_at(y@, x@, k as int));
        Order::After
    } else if x[k] < y[k] {
        assert(precedes_at(x@, y@, k as int));
        Order::Before
    } else {
        assert(precedes_at(y@, x@, k as int));
        Order::After
    }
}

/// The sorted set of `list`: its strings in ascending order, each once.
pub fn sorted_set<'a>(list: &Vec<&'a str>) -> (set: Vec<&'a str>)
    ensures
        is_sorted_set_of(texts(set@), texts(list@)),
{
    let mut set: Vec<&'a str> = Vec::new();
    let mut i: usize = 0;
    while i < list.len()
        invariant
            i <= list.len(),
            ascending(texts(set@)),
            covers(texts(set@), texts(list@), i as int),
            drawn_from(texts(set@), texts(list@), i as int),
        decreases list.len() - i,
    {
        let item: &'a str = list[i];
        let ghost before = set@;
        let mut p: usize = 0;
        let mut found: bool = false;
        while p < set.len()
            invariant_except_break
                !found,
            invariant
                set@ == before,
                ascending(texts(set@)),
                p <= set.len(),
                forall|j: int| 0 <= j < p ==> precedes(#[trigger] texts(set@)[j], item.spec_bytes()),
            ensures
                found ==> p < set.len() && texts(set@)[p as int] == item.spec_bytes(),
                !found ==> forall|j: int|
                    p <= j < set.len() ==> precedes(item.spec_bytes(), #[trigger] texts(set@)[j]),
            decreases set.len() - p,
        {
            match compare(set[p], item) {
                Order::Before => {
                    p += 1;
                },
                Order::Same => {
                    found = true;
                    break ;
                },
                Order::After => {
                    proof {
                        let t = texts(set@);
                        assert forall|j: int| p <= j < set.len() implies precedes(
                            item.spec_bytes(),
                            #[trigger] t[j],
                        ) by {
                            if j > p {
                                assert(precedes(t[p as int], t[j]));
                                precedes_is_transitive(item.spec_bytes(), t[p as int], t[j]);
                            }
                        }
                    }
                    break ;
                },
            }
        }
        if found {
            proof {
                sorted_set_skips(texts(set@), texts(list@), i as int);
            }
        } else {
            set.insert(p, item);
            proof {
                sorted_set_takes(texts(before), texts(list@), i as int, p as int);
                assert(texts(set@) =~= texts(before).insert(p as int, item.spec_bytes()));
            }
        }
        i += 1;
    }
    proof {
        let s = texts(set@);
        let l = texts(list@);
        assert(l.subrange(0, i as int) =~= l);
        assert forall|x: Seq<u8>| s.contains(x) <==> l.contains(x) by {
            if l.contains(x) {
                let k = choose|k: int| 0 <= k < l.len() && l[k] == x;
                assert(s.contains(l[k]));
            }
        }
    }
    set
}

} // verus!
