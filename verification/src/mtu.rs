//! Path MTU selection: the explicit setting, the per-protocol cache of probe
//! results, and the IPv6 floor.
use vstd::prelude::*;

use crate::text::{ascii_lower, fold, folded, opt_view, parse_unsigned, parse_unsigned_chars, trim, trimmed};

verus! {

/// IPv6's link minimum; with a v6 address configured nothing smaller works.
pub const IPV6_MIN_MTU: usize = 1280;
/// The MTU used when nothing was resolved.
pub const SAFE_DEFAULT: usize = 1280;

/// Raise anything below the IPv6 minimum when v6 is configured.
pub open spec fn spec_clamp(mtu: usize, ipv6_configured: bool) -> usize {
    if ipv6_configured && mtu < IPV6_MIN_MTU { IPV6_MIN_MTU } else { mtu }
}

pub fn clamp_for_ip_families(mtu: usize, ipv6_configured: bool) -> (r: usize)
    ensures
        r == spec_clamp(mtu, ipv6_configured),
        ipv6_configured ==> r >= IPV6_MIN_MTU,
        !ipv6_configured ==> r == mtu,
{
    if ipv6_configured && mtu < IPV6_MIN_MTU {
        IPV6_MIN_MTU
    } else {
        mtu
    }
}

/// Resolved MTUs keyed by protocol; the key is the protocol name trimmed and
/// ASCII-lowercased.
pub struct MtuCache {
    by_protocol: Vec<(Vec<char>, usize)>,
}

/// Whether `k` has an entry in `s`.
pub open spec fn has_key(s: Seq<(Seq<char>, usize)>, k: Seq<char>) -> bool {
    exists|i: int| 0 <= i < s.len() && #[trigger] s[i].0 == k
}

/// The entries as a map from key to MTU.
pub open spec fn entries_map(s: Seq<(Seq<char>, usize)>) -> Map<Seq<char>, usize> {
    Map::new(
        |k: Seq<char>| has_key(s, k),
        |k: Seq<char>| s[choose|i: int| 0 <= i < s.len() && #[trigger] s[i].0 == k].1,
    )
}

pub open spec fn keys_unique(s: Seq<(Seq<char>, usize)>) -> bool {
    forall|i: int, j: int| 0 <= i < j < s.len() ==> s[i].0 != s[j].0
}

impl MtuCache {
    pub closed spec fn entries(&self) -> Seq<(Seq<char>, usize)> {
        self.by_protocol@.map_values(|e: (Vec<char>, usize)| (e.0@, e.1))
    }

    /// The cache as a map from canonical protocol key to MTU.
    pub open spec fn map(&self) -> Map<Seq<char>, usize> {
        entries_map(self.entries())
    }

    pub open spec fn wf(&self) -> bool {
        keys_unique(self.entries())
    }

    pub fn new() -> (c: MtuCache)
        ensures
            c.wf(),
            c.map() == Map::<Seq<char>, usize>::empty(),
    {
        let c = MtuCache { by_protocol: Vec::new() };
        assert(c.map() =~= Map::<Seq<char>, usize>::empty());
        c
    }

    /// `masque`, `MASQUE` and ` masque ` are one key.
    pub fn key(protocol: &str) -> (k: Vec<char>)
        ensures
            k@ == folded(protocol@),
    {
        fold(protocol)
    }

    fn find(&self, k: &Vec<char>) -> (r: Option<usize>)
        requires
            self.wf(),
        ensures
            r matches Some(i) ==> i < self.entries().len() && self.entries()[i as int].0 == k@,
            r is None ==> !has_key(self.entries(), k@),
    {
        let mut i: usize = 0;
        while i < self.by_protocol.len()
            invariant
                i <= self.by_protocol@.len(),
                self.entries().len() == self.by_protocol@.len(),
                forall|j: int| 0 <= j < i ==> #[trigger] self.entries()[j].0 != k@,
            decreases self.by_protocol@.len() - i,
        {
            if vec_eq(&self.by_protocol[i].0, k) {
                return Some(i);
            }
            i += 1;
        }
        None
    }

    /// The MTU resolved for `protocol`, if any.
    pub fn get(&self, protocol: &str) -> (r: Option<usize>)
        requires
            self.wf(),
        ensures
            r == (if self.map().contains_key(folded(protocol@)) {
                Some(self.map()[folded(protocol@)])
            } else {
                None
            }),
    {
        let k = Self::key(protocol);
        match self.find(&k) {
            Some(i) => {
                proof {
                    let j = choose|j: int| 0 <= j < self.entries().len() && #[trigger] self.entries()[j].0 == k@;
                    if j != i {
                        assert(self.entries()[j].0 == self.entries()[i as int].0);
                    }
                }
                Some(self.by_protocol[i].1)
            },
            None => None,
        }
    }

    /// Records the MTU resolved for `protocol`, leaving every other protocol
    /// as it was.
    pub fn put(&mut self, protocol: &str, mtu: usize)
        requires
            old(self).wf(),
        ensures
            final(self).wf(),
            final(self).map() == old(self).map().insert(folded(protocol@), mtu),
    {
        let k = Self::key(protocol);
        let ghost e0 = self.entries();
        match self.find(&k) {
            Some(i) => {
                let kk = k.clone();
                self.by_protocol.set(i, (kk, mtu));
                proof {
                    assert(self.entries() =~= e0.update(i as int, (k@, mtu)));
                    lemma_map_update(e0, i as int, mtu);
                }
            },
            None => {
                let kk = k.clone();
                self.by_protocol.push((kk, mtu));
                proof {
                    assert(self.entries() =~= e0.push((k@, mtu)));
                    lemma_map_push(e0, k@, mtu);
                }
            },
        }
    }

    /// The smallest MTU any protocol resolved to, for readers that cannot name
    /// their protocol: under-claiming is safe, over-claiming is not.
    pub fn conservative(&self) -> (r: Option<usize>)
        requires
            self.wf(),
        ensures
            r is None <==> self.map().dom().is_empty(),
            r matches Some(m) ==> (exists|k: Seq<char>| #[trigger] self.map().contains_key(k) && self.map()[k] == m)
                && forall|k: Seq<char>| #[trigger] self.map().contains_key(k) ==> m <= self.map()[k],
    {
        let mut best: Option<usize> = None;
        let mut i: usize = 0;
        while i < self.by_protocol.len()
            invariant
                i <= self.by_protocol@.len(),
                self.entries().len() == self.by_protocol@.len(),
                best is None <==> i == 0,
                best matches Some(m) ==> (exists|j: int| 0 <= j < i && #[trigger] self.entries()[j].1 == m)
                    && forall|j: int| 0 <= j < i ==> m <= #[trigger] self.entries()[j].1,
            decreases self.by_protocol@.len() - i,
        {
            let v = self.by_protocol[i].1;
            assert(self.entries()[i as int].1 == v);
            best = match best {
                None => Some(v),
                Some(m) => if v < m { Some(v) } else { Some(m) },
            };
            i += 1;
        }
        proof {
            let e = self.entries();
            if e.len() == 0 {
                assert(self.map().dom() =~= Set::<Seq<char>>::empty());
            } else {
                assert(self.map().contains_key(e[0].0));
                assert(!self.map().dom().is_empty());
                let m = best->0;
                let j = choose|j: int| 0 <= j < e.len() && #[trigger] e[j].1 == m;
                lemma_map_at(e, j);
                assert(self.map().contains_key(e[j].0) && self.map()[e[j].0] == m);
                assert forall|k: Seq<char>| #[trigger] self.map().contains_key(k) implies m <= self.map()[k] by {
                    let t = choose|t: int| 0 <= t < e.len() && #[trigger] e[t].0 == k;
                    lemma_map_at(e, t);
                }
            }
        }
        best
    }
}

/// Whether two character vectors are equal.
pub fn vec_eq(a: &Vec<char>, b: &Vec<char>) -> (r: bool)
    ensures
        r == (a@ == b@),
{
    if a.len() != b.len() {
        return false;
    }
    let mut i: usize = 0;
    while i < a.len()
        invariant
            a@.len() == b@.len(),
            i <= a@.len(),
            forall|j: int| 0 <= j < i ==> a@[j] == b@[j],
        decreases a@.len() - i,
    {
        if a[i] != b[i] {
            return false;
        }
        i += 1;
    }
    assert(a@ =~= b@);
    true
}

proof fn lemma_map_at(s: Seq<(Seq<char>, usize)>, i: int)
    requires
        keys_unique(s),
        0 <= i < s.len(),
    ensures
        entries_map(s).contains_key(s[i].0),
        entries_map(s)[s[i].0] == s[i].1,
{
    let k = s[i].0;
    assert(has_key(s, k));
    let j = choose|j: int| 0 <= j < s.len() && #[trigger] s[j].0 == k;
    if j != i {
        assert(s[j].0 == s[i].0);
    }
}

proof fn lemma_map_update(s: Seq<(Seq<char>, usize)>, i: int, v: usize)
    requires
        keys_unique(s),
        0 <= i < s.len(),
    ensures
        keys_unique(s.update(i, (s[i].0, v))),
        entries_map(s.update(i, (s[i].0, v))) == entries_map(s).insert(s[i].0, v),
{
    let t = s.update(i, (s[i].0, v));
    assert forall|a: int, b: int| 0 <= a < b < t.len() implies t[a].0 != t[b].0 by {
        assert(t[a].0 == s[a].0 && t[b].0 == s[b].0);
    }
    assert forall|k: Seq<char>| has_key(t, k) == has_key(s, k) by {
        if has_key(t, k) {
            let j = choose|j: int| 0 <= j < t.len() && #[trigger] t[j].0 == k;
            assert(s[j].0 == k);
        }
        if has_key(s, k) {
            let j = choose|j: int| 0 <= j < s.len() && #[trigger] s[j].0 == k;
            assert(t[j].0 == k);
        }
    }
    assert forall|k: Seq<char>| #[trigger] entries_map(t).contains_key(k) implies entries_map(t)[k]
        == entries_map(s).insert(s[i].0, v)[k] by {
        let j = choose|j: int| 0 <= j < t.len() && #[trigger] t[j].0 == k;
        lemma_map_at(t, j);
        if j != i {
            assert(t[j] == s[j]);
            lemma_map_at(s, j);
        }
    }
    assert(entries_map(t) =~= entries_map(s).insert(s[i].0, v));
}

proof fn lemma_map_push(s: Seq<(Seq<char>, usize)>, k: Seq<char>, v: usize)
    requires
        keys_unique(s),
        !has_key(s, k),
    ensures
        keys_unique(s.push((k, v))),
        entries_map(s.push((k, v))) == entries_map(s).insert(k, v),
{
    let t = s.push((k, v));
    assert forall|a: int, b: int| 0 <= a < b < t.len() implies t[a].0 != t[b].0 by {
        if b == s.len() {
            assert(t[a] == s[a]);
            if s[a].0 == k {
                assert(has_key(s, k));
            }
        }
    }
    assert forall|q: Seq<char>| has_key(t, q) == (has_key(s, q) || q == k) by {
        if has_key(s, q) {
            let j = choose|j: int| 0 <= j < s.len() && #[trigger] s[j].0 == q;
            assert(t[j].0 == q);
        }
        if q == k {
            assert(t[s.len() as int].0 == q);
        }
        if has_key(t, q) && q != k {
            let j = choose|j: int| 0 <= j < t.len() && #[trigger] t[j].0 == q;
            assert(s[j].0 == q);
        }
    }
    assert forall|q: Seq<char>| #[trigger] entries_map(t).contains_key(q) implies entries_map(t)[q]
        == entries_map(s).insert(k, v)[q] by {
        let j = choose|j: int| 0 <= j < t.len() && #[trigger] t[j].0 == q;
        lemma_map_at(t, j);
        if j < s.len() {
            assert(t[j] == s[j]);
            lemma_map_at(s, j);
        }
    }
    assert(entries_map(t) =~= entries_map(s).insert(k, v));
}

/// A valid `AETHER_MTU` setting: a decimal between 576 and 1500.
pub open spec fn spec_mtu_setting(setting: Option<Seq<char>>) -> Option<usize> {
    match setting {
        Some(v) => match parse_unsigned(trim(v), usize::MAX as nat) {
            Some(n) => if 576 <= n <= 1500 { Some(n as usize) } else { None },
            None => None,
        },
        None => None,
    }
}

fn mtu_setting(setting: Option<&str>) -> (r: Option<usize>)
    ensures
        r == spec_mtu_setting(opt_view(setting)),
{
    match setting {
        None => None,
        Some(v) => {
            let t = trimmed(v);
            match parse_unsigned_chars(&t, usize::MAX as u64) {
                Some(n) => if 576 <= n && n <= 1500 { Some(n as usize) } else { None },
                None => None,
            }
        },
    }
}

/// The operator's explicit `AETHER_MTU`, if usable, raised to the IPv6
/// minimum when v6 is configured.
pub fn env_override(setting: Option<&str>, ipv6_configured: bool) -> (r: Option<usize>)
    ensures
        r == match spec_mtu_setting(opt_view(setting)) {
            Some(n) => Some(spec_clamp(n, ipv6_configured)),
            None => None,
        },
{
    match mtu_setting(setting) {
        Some(n) => Some(clamp_for_ip_families(n, ipv6_configured)),
        None => None,
    }
}

/// The MTU for a reader that cannot name its protocol: a valid `AETHER_MTU`,
/// else the smallest any protocol resolved to, else the safe default.
pub fn current(setting: Option<&str>, cache: &MtuCache) -> (r: usize)
    requires
        cache.wf(),
    ensures
        spec_mtu_setting(opt_view(setting)) matches Some(n) ==> r == n,
        spec_mtu_setting(opt_view(setting)) is None && cache.map().dom().is_empty() ==> r
            == SAFE_DEFAULT,
        spec_mtu_setting(opt_view(setting)) is None && !cache.map().dom().is_empty() ==> (exists|
            k: Seq<char>,
        | #[trigger] cache.map().contains_key(k) && cache.map()[k] == r) && forall|k: Seq<char>|
            #[trigger] cache.map().contains_key(k) ==> r <= cache.map()[k],
{
    if let Some(n) = mtu_setting(setting) {
        return n;
    }
    match cache.conservative() {
        Some(m) => m,
        None => SAFE_DEFAULT,
    }
}

/// The MTU resolved for one protocol: a valid `AETHER_MTU`, else that
/// protocol's own result, else the safe default.
pub fn current_for(setting: Option<&str>, cache: &MtuCache, protocol: &str) -> (r: usize)
    requires
        cache.wf(),
    ensures
        r == match spec_mtu_setting(opt_view(setting)) {
            Some(n) => n,
            None => if cache.map().contains_key(folded(protocol@)) {
                cache.map()[folded(protocol@)]
            } else {
                SAFE_DEFAULT
            },
        },
{
    if let Some(n) = mtu_setting(setting) {
        return n;
    }
    match cache.get(protocol) {
        Some(m) => m,
        None => SAFE_DEFAULT,
    }
}

/// A resolved MTU belongs to its protocol: recording one protocol's value
/// changes what every other protocol reads not at all.
pub proof fn lemma_put_is_per_protocol(m: Map<Seq<char>, usize>, p: Seq<char>, q: Seq<char>, mtu: usize)
    requires
        folded(p) != folded(q),
    ensures
        m.insert(folded(p), mtu).contains_key(folded(q)) == m.contains_key(folded(q)),
        m.contains_key(folded(q)) ==> m.insert(folded(p), mtu)[folded(q)] == m[folded(q)],
        m.insert(folded(p), mtu)[folded(p)] == mtu,
{
}

} // verus!
