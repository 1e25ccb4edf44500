//! Byte-exact search for fixed signatures inside a buffer.

use vstd::prelude::*;

verus! {

/// `pattern` occurs contiguously in `data` at offset `i`.
pub open spec fn matches_at(data: Seq<u8>, i: int, pattern: Seq<u8>) -> bool {
    &&& 0 <= i
    &&& i + pattern.len() <= data.len()
    &&& data.subrange(i, i + pattern.len()) == pattern
}

/// `i` is the lowest offset at or after `from` at which `pattern` occurs.
pub open spec fn is_first_match(data: Seq<u8>, from: int, pattern: Seq<u8>, i: int) -> bool {
    &&& from <= i
    &&& matches_at(data, i, pattern)
    &&& forall|j: int| from <= j < i ==> !matches_at(data, j, pattern)
}

/// The lowest offset at or after `from` at which `pattern` occurs, if any.
pub open spec fn first_match(data: Seq<u8>, from: int, pattern: Seq<u8>) -> Option<int> {
    if exists|i: int| is_first_match(data, from, pattern, i) {
        Some(choose|i: int| is_first_match(data, from, pattern, i))
    } else {
        None
    }
}

/// At most one offset is the first match.
pub proof fn lemma_first_match_unique(data: Seq<u8>, from: int, pattern: Seq<u8>, i: int, k: int)
    requires
        is_first_match(data, from, pattern, i),
        is_first_match(data, from, pattern, k),
    ensures
        i == k,
{
    if i < k {
        assert(!matches_at(data, i, pattern));
    } else if k < i {
        assert(!matches_at(data, k, pattern));
    }
}

/// Relates a witnessed first match, or the absence of any match, to `first_match`.
pub proof fn lemma_first_match_is(data: Seq<u8>, from: int, pattern: Seq<u8>, r: Option<int>)
    requires
        match r {
            Some(i) => is_first_match(data, from, pattern, i),
            None => forall|j: int| from <= j ==> !matches_at(data, j, pattern),
        },
    ensures
        first_match(data, from, pattern) == r,
{
    match r {
        Some(i) => {
            assert(is_first_match(data, from, pattern, i));
            let k = choose|k: int| is_first_match(data, from, pattern, k);
            lemma_first_match_unique(data, from, pattern, i, k);
        },
        None => {
            assert(!exists|i: int| is_first_match(data, from, pattern, i));
        },
    }
}

/// The first match, when there is one, has the defining properties.
pub proof fn lemma_first_match_props(data: Seq<u8>, from: int, pattern: Seq<u8>)
    ensures
        first_match(data, from, pattern) matches Some(i) ==> is_first_match(data, from, pattern, i),
        first_match(data, from, pattern) is None ==> forall|j: int|
            from <= j ==> !#[trigger] matches_at(data, j, pattern),
{
    if first_match(data, from, pattern) is None {
        assert forall|j: int| from <= j implies !#[trigger] matches_at(data, j, pattern) by {
            if matches_at(data, j, pattern) {
                lemma_earliest_match_exists(data, from, pattern, j);
            }
        }
    }
}

/// Where `pattern` occurs at some offset at or after `from`, a first match exists.
pub proof fn lemma_earliest_match_exists(data: Seq<u8>, from: int, pattern: Seq<u8>, j: int)
    requires
        from <= j,
        matches_at(data, j, pattern),
    ensures
        exists|i: int| is_first_match(data, from, pattern, i),
    decreases j - from,
{
    if forall|k: int| from <= k < j ==> !matches_at(data, k, pattern) {
        assert(is_first_match(data, from, pattern, j));
    } else {
        let k = choose|k: int| from <= k < j && matches_at(data, k, pattern);
        lemma_earliest_match_exists(data, from, pattern, k);
    }
}

/// Whether `pattern` occurs at offset `i` of `data`.
pub(crate) fn pattern_at(data: &[u8], i: usize, pattern: &[u8]) -> (r: bool)
    requires
        i + pattern@.len() <= data@.len(),
    ensures
        r == matches_at(data@, i as int, pattern@),
{
    let n = pattern.len();
    let len = data.len();
    let mut k: usize = 0;
    while k < n
        invariant
            n == pattern@.len(),
            len == data@.len(),
            i + n <= data@.len(),
            k <= n,
            forall|t: int| 0 <= t < k ==> data@[i + t] == pattern@[t],
        decreases n - k,
    {
        if data[i + k] != pattern[k] {
            proof {
                assert(data@.subrange(i as int, i + n)[k as int] != pattern@[k as int]);
            }
            return false;
        }
        k = k + 1;
    }
    proof {
        assert(data@.subrange(i as int, i + n) =~= pattern@);
    }
    true
}

/// Finds the lowest offset at or after `from` at which `pattern` occurs.
/// Returns `None` when the rest of the buffer is shorter than the pattern
/// or the pattern does not occur there.
pub fn find_signature(data: &[u8], from: usize, pattern: &[u8]) -> (r: Option<usize>)
    ensures
        r matches Some(i) ==> first_match(data@, from as int, pattern@) == Some(i as int)
            && is_first_match(data@, from as int, pattern@, i as int),
        r is None ==> first_match(data@, from as int, pattern@) is None,
{
    let n = pattern.len();
    let len = data.len();
    if n > len || from > len - n {
        proof {
            lemma_first_match_is(data@, from as int, pattern@, None);
        }
        return None;
    }
    let last = len - n;
    let mut i: usize = from;
    loop
        invariant
            n == pattern@.len(),
            len == data@.len(),
            last + n == len,
            from <= i <= last,
            forall|j: int| from <= j < i ==> !matches_at(data@, j, pattern@),
        ensures
            forall|j: int| from <= j <= last ==> !matches_at(data@, j, pattern@),
        decreases last - i,
    {
        if pattern_at(data, i, pattern) {
            proof {
                lemma_first_match_is(data@, from as int, pattern@, Some(i as int));
            }
            return Some(i);
        }
        if i == last {
            break;
        }
        i = i + 1;
    }
    proof {
        lemma_first_match_is(data@, from as int, pattern@, None);
    }
    None
}

} // verus!
