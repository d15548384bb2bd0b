//! Searching byte strings: first occurrence of a byte or of a short pattern.
use vstd::prelude::*;

verus! {

/// Index of the first `c` in `s`, or `s.len()` when there is none.
pub open spec fn first_index(s: Seq<u8>, c: u8) -> int
    decreases s.len(),
{
    if s.len() == 0 {
        0
    } else if s[0] == c {
        0
    } else {
        1 + first_index(s.drop_first(), c)
    }
}

/// Whether `pat` occurs in `s` at `i`.
pub open spec fn occurs_at(s: Seq<u8>, pat: Seq<u8>, i: int) -> bool {
    0 <= i && i + pat.len() <= s.len() && s.subrange(i, i + pat.len() as int) == pat
}

/// Index of the first occurrence of `pat` in `s`, or `s.len()` when there
/// is none.
pub open spec fn first_pat(s: Seq<u8>, pat: Seq<u8>) -> int
    decreases s.len(),
{
    if s.len() < pat.len() || s.len() == 0 {
        s.len() as int
    } else if s.take(pat.len() as int) == pat {
        0
    } else {
        1 + first_pat(s.drop_first(), pat)
    }
}

pub proof fn lemma_first_pat(s: Seq<u8>, pat: Seq<u8>, i: int)
    requires
        pat.len() > 0,
        0 <= i,
        forall|j: int| 0 <= j < i ==> !occurs_at(s, pat, j),
        occurs_at(s, pat, i) || i + pat.len() > s.len(),
    ensures
        first_pat(s, pat) == if occurs_at(s, pat, i) {
            i
        } else {
            s.len() as int
        },
    decreases s.len(),
{
    if s.len() < pat.len() || s.len() == 0 {
    } else if s.take(pat.len() as int) == pat {
        assert(s.subrange(0, pat.len() as int) =~= s.take(pat.len() as int));
        assert(occurs_at(s, pat, 0));
        if i > 0 {
            assert(!occurs_at(s, pat, 0));
        }
    } else {
        assert(s.subrange(0, pat.len() as int) =~= s.take(pat.len() as int));
        assert(!occurs_at(s, pat, 0));
        let t = s.drop_first();
        if i == 0 {
            assert(i + pat.len() > s.len());
        }
        assert forall|j: int| 0 <= j < i - 1 implies !occurs_at(t, pat, j) by {
            assert(!occurs_at(s, pat, j + 1));
            if j + pat.len() <= t.len() {
                assert(t.subrange(j, j + pat.len()) =~= s.subrange(j + 1, j + 1 + pat.len()));
            }
        }
        if occurs_at(s, pat, i) {
            assert(t.subrange(i - 1, i - 1 + pat.len()) =~= s.subrange(i, i + pat.len()));
        } else if i - 1 + pat.len() <= t.len() {
            assert(false);
        }
        lemma_first_pat(t, pat, i - 1);
        if occurs_at(t, pat, i - 1) {
            assert(t.subrange(i - 1, i - 1 + pat.len()) =~= s.subrange(i, i + pat.len()));
        }
    }
}

pub proof fn lemma_first_index(s: Seq<u8>, c: u8, i: int)
    requires
        0 <= i <= s.len(),
        forall|j: int| 0 <= j < i ==> s[j] != c,
        i < s.len() ==> s[i] == c,
    ensures
        first_index(s, c) == i,
    decreases i,
{
    if i > 0 {
        assert forall|j: int| 0 <= j < i - 1 implies s.drop_first()[j] != c by {
            assert(s.drop_first()[j] == s[j + 1]);
        }
        if i < s.len() {
            assert(s.drop_first()[i - 1] == s[i]);
        }
        lemma_first_index(s.drop_first(), c, i - 1);
    }
}

pub proof fn lemma_first_index_bounds(s: Seq<u8>, c: u8)
    ensures
        0 <= first_index(s, c) <= s.len(),
        forall|j: int| 0 <= j < first_index(s, c) ==> s[j] != c,
        first_index(s, c) < s.len() ==> s[first_index(s, c)] == c,
    decreases s.len(),
{
    if s.len() > 0 && s[0] != c {
        lemma_first_index_bounds(s.drop_first(), c);
        assert forall|j: int| 0 <= j < first_index(s, c) implies s[j] != c by {
            if j > 0 {
                assert(s[j] == s.drop_first()[j - 1]);
            }
        }
        if first_index(s, c) < s.len() {
            assert(s[first_index(s, c)] == s.drop_first()[first_index(s, c) - 1]);
        }
    }
}

/// Position of the first `c` in `v[from..to]`, or `to`.
pub fn find_byte(v: &[u8], from: usize, to: usize, c: u8) -> (r: usize)
    requires
        from <= to <= v@.len(),
    ensures
        from <= r <= to,
        r - from == first_index(v@.subrange(from as int, to as int), c),
{
    let mut i = from;
    while i < to && v[i] != c
        invariant
            from <= i <= to <= v@.len(),
            forall|j: int| from <= j < i ==> v@[j] != c,
        decreases to - i,
    {
        i += 1;
    }
    proof {
        let s = v@.subrange(from as int, to as int);
        assert forall|j: int| 0 <= j < i - from implies s[j] != c by {
            assert(s[j] == v@[j + from]);
        }
        if i < to {
            assert(s[i - from] == v@[i as int]);
        }
        lemma_first_index(s, c, i - from);
    }
    i
}

/// Position of the first occurrence of `pat` in `v`, or `None`.
pub fn find_pattern(v: &[u8], pat: &[u8]) -> (r: Option<usize>)
    requires
        pat@.len() > 0,
    ensures
        match r {
            Some(i) => first_pat(v@, pat@) == i && occurs_at(v@, pat@, i as int),
            None => first_pat(v@, pat@) == v@.len(),
        },
{
    let n = v.len();
    let m = pat.len();
    if n < m {
        proof {
            lemma_first_pat(v@, pat@, 0);
        }
        return None;
    }
    let mut i: usize = 0;
    while i <= n - m
        invariant
            n == v@.len(),
            m == pat@.len(),
            0 < m <= n,
            i <= n - m + 1,
            forall|j: int| 0 <= j < i ==> !occurs_at(v@, pat@, j),
        decreases n - i,
    {
        let mut k: usize = 0;
        while k < m && v[i + k] == pat[k]
            invariant
                i + m <= n,
                n == v@.len(),
                m == pat@.len(),
                k <= m,
                forall|t: int| 0 <= t < k ==> v@[i + t] == pat@[t],
            decreases m - k,
        {
            k += 1;
        }
        if k == m {
            proof {
                assert(v@.subrange(i as int, i + m) =~= pat@);
                lemma_first_pat(v@, pat@, i as int);
            }
            return Some(i);
        }
        proof {
            assert(v@.subrange(i as int, i + m)[k as int] == v@[i + k]);
        }
        i += 1;
    }
    proof {
        lemma_first_pat(v@, pat@, i as int);
    }
    None
}

} // verus!
