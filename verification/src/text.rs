//! Literal markers in a text: where one stands, where it stands first, and
//! the two halves of the text around it.

use vstd::prelude::*;

verus! {

/// `needle` stands in `hay` at index `i`.
pub open spec fn occurs_at<T>(hay: Seq<T>, needle: Seq<T>, i: int) -> bool {
    &&& 0 <= i
    &&& i + needle.len() <= hay.len()
    &&& hay.subrange(i, i + needle.len()) == needle
}

/// `needle` stands somewhere in `hay`.
pub open spec fn occurs<T>(hay: Seq<T>, needle: Seq<T>) -> bool {
    exists|i: int| occurs_at(hay, needle, i)
}

/// `i` is the leftmost index at which `needle` stands in `hay`.
pub open spec fn first_at<T>(hay: Seq<T>, needle: Seq<T>, i: int) -> bool {
    &&& occurs_at(hay, needle, i)
    &&& forall|j: int| 0 <= j < i ==> !occurs_at(hay, needle, j)
}

/// The leftmost index at which `needle` stands in `hay`, where it occurs.
pub open spec fn first_index<T>(hay: Seq<T>, needle: Seq<T>) -> int {
    choose|i: int| first_at(hay, needle, i)
}

/// The text before the first occurrence of `needle` and the text after it,
/// or `None` where `needle` does not occur.
pub open spec fn cut<T>(hay: Seq<T>, needle: Seq<T>) -> Option<(Seq<T>, Seq<T>)> {
    if occurs(hay, needle) {
        let i = first_index(hay, needle);
        Some((hay.subrange(0, i), hay.subrange(i + needle.len(), hay.len() as int)))
    } else {
        None
    }
}

/// There is at most one leftmost occurrence.
pub proof fn first_at_is_unique<T>(hay: Seq<T>, needle: Seq<T>, i: int, j: int)
    requires
        first_at(hay, needle, i),
        first_at(hay, needle, j),
    ensures
        i == j,
{
}

proof fn least_occurrence<T>(hay: Seq<T>, needle: Seq<T>, i: int) -> (k: int)
    requires
        occurs_at(hay, needle, i),
    ensures
        first_at(hay, needle, k),
        k <= i,
    decreases i,
{
    if exists|j: int| 0 <= j < i && occurs_at(hay, needle, j) {
        let j = choose|j: int| 0 <= j < i && occurs_at(hay, needle, j);
        least_occurrence(hay, needle, j)
    } else {
        i
    }
}

/// A needle that occurs has a leftmost occurrence, and `first_index` names it.
pub proof fn first_index_is_first<T>(hay: Seq<T>, needle: Seq<T>)
    requires
        occurs(hay, needle),
    ensures
        first_at(hay, needle, first_index(hay, needle)),
{
    let i = choose|i: int| occurs_at(hay, needle, i);
    let k = least_occurrence(hay, needle, i);
}

/// Where the leftmost occurrence is known, the cut is made there.
pub proof fn cut_at_first<T>(hay: Seq<T>, needle: Seq<T>, i: int)
    requires
        first_at(hay, needle, i),
    ensures
        cut(hay, needle) == Some(
            (hay.subrange(0, i), hay.subrange(i + needle.len(), hay.len() as int)),
        ),
{
    first_index_is_first(hay, needle);
    first_at_is_unique(hay, needle, i, first_index(hay, needle));
}

/// The two halves of a cut, with the needle between them, are the text.
pub proof fn cut_rejoins<T>(hay: Seq<T>, needle: Seq<T>)
    requires
        cut(hay, needle) is Some,
    ensures
        ({
            let (before, after) = cut(hay, needle)->0;
            &&& hay == before + needle + after
            &&& first_at(hay, needle, before.len() as int)
            &&& hay.len() == before.len() + needle.len() + after.len()
        }),
{
    first_index_is_first(hay, needle);
    let i = first_index(hay, needle);
    let (before, after) = cut(hay, needle)->0;
    assert(hay =~= before + hay.subrange(i, i + needle.len()) + after);
}

/// The leftmost index at which `needle` stands in `hay`.
pub fn find(hay: &[u8], needle: &[u8]) -> (r: Option<usize>)
    ensures
        match r {
            Some(i) => first_at(hay@, needle@, i as int),
            None => !occurs(hay@, needle@),
        },
{
    let n: usize = hay.len();
    let m: usize = needle.len();
    if m > n {
        return None;
    }
    let last: usize = n - m;
    let mut i: usize = 0;
    while i <= last
        invariant
            n == hay@.len(),
            m == needle@.len(),
            last == n - m,
            i <= last + 1,
            forall|j: int| 0 <= j < i ==> !occurs_at(hay@, needle@, j),
        decreases last + 1 - i,
    {
        let mut k: usize = 0;
        while k < m && hay[i + k] == needle[k]
            invariant
                n == hay@.len(),
                m == needle@.len(),
                i + m <= n,
                k <= m,
                forall|t: int| 0 <= t < k ==> hay@[i + t] == needle@[t],
            decreases m - k,
        {
            k += 1;
        }
        if k == m {
            assert(hay@.subrange(i as int, i + m) =~= needle@);
            return Some(i);
        }
        assert(!occurs_at(hay@, needle@, i as int)) by {
            assert(hay@.subrange(i as int, i + m)[k as int] == hay@[i + k]);
        }
        i += 1;
    }
    None
}

} // verus!
