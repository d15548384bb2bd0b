//! The warm-endpoint file: one endpoint per line, best first, each with an
//! optional round trip in milliseconds. Reading keeps the first twelve
//! distinct addresses; saving puts this session's hits first, fastest
//! first, then the older entries nobody re-probed.
use vstd::prelude::*;

use crate::ip::{spec_parse_socket_addr, spec_sockaddr_text, SockAddr};
use crate::paths::{file_stem_of, joined, parent_of, path_file_stem, path_join, path_parent};
use crate::text::{chars_of, decimal, is_ws, opt_view, owned, split_on, string_of, trim};

verus! {

/// The most endpoints the file keeps.
pub const MAX_ENTRIES: usize = 12;

/// The round trip written for an older entry that was not re-probed; any
/// value this large is written without a round trip.
pub const UNMEASURED_MS: u64 = 0x7fff_ffff_ffff_ffff;

/// Where the file for `kind` lives: beside the `AETHER_CONFIG` file as
/// `<stem>-<kind>-lastconn.txt` (stem `aether` when it has none, directory
/// `.` when it has no parent), else `aether-<kind>-lastconn.txt`.
pub open spec fn spec_cache_path(config: Option<Seq<char>>, kind: Seq<char>) -> Seq<char> {
    match config {
        Some(base) => {
            let stem = match file_stem_of(base) {
                Some(s) => s,
                None => "aether"@,
            };
            let dir = match parent_of(base) {
                Some(p) => p,
                None => "."@,
            };
            joined(dir, stem + "-"@ + kind + "-lastconn.txt"@)
        },
        None => "aether-"@ + kind + "-lastconn.txt"@,
    }
}

pub fn cache_path(config: Option<&str>, kind: &str) -> (r: String)
    ensures
        r@ == spec_cache_path(opt_view(config), kind@),
{
    match config {
        Some(base) => {
            let stem = match path_file_stem(base) {
                Some(s) => s,
                None => owned("aether"),
            };
            let dir = match path_parent(base) {
                Some(p) => p,
                None => owned("."),
            };
            let mut name = crate::text::join2(stem.as_str(), "-");
            name.append(kind);
            name.append("-lastconn.txt");
            path_join(dir.as_str(), name.as_str())
        },
        None => {
            let mut name = owned("aether-");
            name.append(kind);
            name.append("-lastconn.txt");
            name
        },
    }
}

/// Where the first whitespace character of `s` is (its length if none).
pub open spec fn first_ws_index(s: Seq<char>) -> int
    decreases s.len(),
{
    if s.len() == 0 {
        0
    } else if is_ws(s[0]) {
        0
    } else {
        1 + first_ws_index(s.drop_first())
    }
}

proof fn lemma_first_ws_index(s: Seq<char>)
    ensures
        0 <= first_ws_index(s) <= s.len(),
        forall|i: int| 0 <= i < first_ws_index(s) ==> !is_ws(#[trigger] s[i]),
        first_ws_index(s) < s.len() ==> is_ws(s[first_ws_index(s)]),
    decreases s.len(),
{
    if s.len() > 0 && !is_ws(s[0]) {
        lemma_first_ws_index(s.drop_first());
        assert forall|i: int| 0 <= i < first_ws_index(s) implies !is_ws(#[trigger] s[i]) by {
            if i > 0 {
                assert(s[i] == s.drop_first()[i - 1]);
            }
        }
    }
}

/// The address a line names: none for a blank line or a comment, else its
/// first word read as a socket address.
pub open spec fn line_addr(line: Seq<char>) -> Option<SockAddr> {
    let t = trim(line);
    if t.len() == 0 || t[0] == '#' {
        None
    } else {
        spec_parse_socket_addr(t.take(first_ws_index(t)))
    }
}

/// The first twelve distinct addresses the lines name, in order.
pub open spec fn ranked_from(lines: Seq<Seq<char>>) -> Seq<SockAddr>
    decreases lines.len(),
{
    if lines.len() == 0 {
        seq![]
    } else {
        let r = ranked_from(lines.drop_last());
        if r.len() >= MAX_ENTRIES {
            r
        } else {
            match line_addr(lines.last()) {
                Some(a) => if r.contains(a) { r } else { r.push(a) },
                None => r,
            }
        }
    }
}

/// The ranked endpoints a file's text holds.
pub open spec fn spec_parse_ranked(text: Seq<char>) -> Seq<SockAddr> {
    ranked_from(split_on(text, '\n'))
}

fn first_word(t: &Vec<char>) -> (w: String)
    ensures
        w@ == t@.take(first_ws_index(t@)),
{
    proof {
        lemma_first_ws_index(t@);
    }
    let mut i: usize = 0;
    while i < t.len() && !crate::text::is_ws_exec(t[i])
        invariant
            i <= t@.len(),
            i <= first_ws_index(t@),
            forall|k: int| 0 <= k < first_ws_index(t@) ==> !is_ws(#[trigger] t@[k]),
            first_ws_index(t@) < t@.len() ==> is_ws(t@[first_ws_index(t@)]),
            first_ws_index(t@) <= t@.len(),
        decreases t@.len() - i,
    {
        i += 1;
    }
    let w = string_of(&crate::text::slice_chars(t, 0, i));
    assert(t@.subrange(0, i as int) =~= t@.take(i as int));
    w
}

fn contains_addr(v: &Vec<SockAddr>, a: SockAddr) -> (b: bool)
    ensures
        b == v@.contains(a),
{
    let mut i: usize = 0;
    while i < v.len()
        invariant
            i <= v@.len(),
            forall|k: int| 0 <= k < i ==> v@[k] != a,
        decreases v@.len() - i,
    {
        if v[i] == a {
            assert(v@[i as int] == a);
            return true;
        }
        i += 1;
    }
    false
}

/// The ranked endpoints in a file's text (best first, at most twelve).
pub fn parse_ranked(text: &str) -> (out: Vec<SockAddr>)
    ensures
        out@ == spec_parse_ranked(text@),
        out@.len() <= MAX_ENTRIES,
        out@.no_duplicates(),
{
    let v = chars_of(text);
    let lines = crate::text::split_chars(&v, '\n');
    let ghost ls = lines@.map_values(|x: Vec<char>| x@);
    let mut out: Vec<SockAddr> = Vec::new();
    let mut i: usize = 0;
    while i < lines.len()
        invariant
            i <= lines@.len(),
            ls == lines@.map_values(|x: Vec<char>| x@),
            out@ == ranked_from(ls.take(i as int)),
            out@.len() <= MAX_ENTRIES,
            out@.no_duplicates(),
        decreases lines@.len() - i,
    {
        proof {
            assert(ls.take(i + 1).drop_last() =~= ls.take(i as int));
            assert(ls.take(i + 1).last() == lines@[i as int]@);
        }
        if out.len() < MAX_ENTRIES {
            let line = string_of(&lines[i]);
            let t = crate::text::trimmed(line.as_str());
            if t.len() > 0 && t[0] != '#' {
                let w = first_word(&t);
                match crate::ip::parse_socket_addr(w.as_str()) {
                    Some(a) => {
                        if !contains_addr(&out, a) {
                            let ghost before = out@;
                            out.push(a);
                            proof {
                                assert forall|x: int, y: int| 0 <= x < y < out@.len() implies out@[x] != out@[y] by {
                                    if y == before.len() {
                                        assert(out@[x] == before[x]);
                                        if before[x] == a {
                                            assert(before.contains(a));
                                        }
                                    }
                                }
                            }
                        }
                    },
                    None => {},
                }
            }
        }
        i += 1;
    }
    assert(ls.take(ls.len() as int) =~= ls);
    out
}

/// Where a hit with round trip `x` goes among hits sorted fastest first:
/// after every hit at least as fast.
pub open spec fn rtt_pos(s: Seq<(SockAddr, u64)>, x: u64) -> int
    decreases s.len(),
{
    if s.len() == 0 {
        0
    } else if s.last().1 <= x {
        s.len() as int
    } else {
        rtt_pos(s.drop_last(), x)
    }
}

/// The hits sorted by round trip, fastest first, equal round trips in the
/// order given (a stable sort).
pub open spec fn sorted_by_rtt(s: Seq<(SockAddr, u64)>) -> Seq<(SockAddr, u64)>
    decreases s.len(),
{
    if s.len() == 0 {
        seq![]
    } else {
        let r = sorted_by_rtt(s.drop_last());
        r.insert(rtt_pos(r, s.last().1), s.last())
    }
}

proof fn lemma_rtt_pos(s: Seq<(SockAddr, u64)>, x: u64)
    ensures
        0 <= rtt_pos(s, x) <= s.len(),
    decreases s.len(),
{
    if s.len() > 0 && s.last().1 > x {
        lemma_rtt_pos(s.drop_last(), x);
    }
}

proof fn lemma_sorted_len(s: Seq<(SockAddr, u64)>)
    ensures
        sorted_by_rtt(s).len() == s.len(),
    decreases s.len(),
{
    if s.len() > 0 {
        lemma_sorted_len(s.drop_last());
        lemma_rtt_pos(sorted_by_rtt(s.drop_last()), s.last().1);
    }
}

fn sort_by_rtt(hits: &[(SockAddr, u64)]) -> (out: Vec<(SockAddr, u64)>)
    ensures
        out@ == sorted_by_rtt(hits@),
{
    let mut out: Vec<(SockAddr, u64)> = Vec::new();
    let mut i: usize = 0;
    while i < hits.len()
        invariant
            i <= hits@.len(),
            out@ == sorted_by_rtt(hits@.take(i as int)),
            out@.len() == i,
        decreases hits@.len() - i,
    {
        let x = hits[i];
        let mut j: usize = out.len();
        assert(out@.take(j as int) =~= out@);
        while j > 0 && out[j - 1].1 > x.1
            invariant
                j <= out@.len(),
                rtt_pos(out@, x.1) == rtt_pos(out@.take(j as int), x.1),
            decreases j,
        {
            assert(out@.take(j as int).drop_last() =~= out@.take(j - 1));
            j -= 1;
        }
        proof {
            if j > 0 {
                assert(out@.take(j as int).last() == out@[j - 1]);
            }
            assert(hits@.take(i + 1).drop_last() =~= hits@.take(i as int));
            assert(hits@.take(i + 1).last() == x);
            lemma_sorted_len(hits@.take(i as int));
        }
        out.insert(j, x);
        i += 1;
    }
    assert(hits@.take(hits@.len() as int) =~= hits@);
    out
}

pub open spec fn addrs_of(m: Seq<(SockAddr, u64)>) -> Seq<SockAddr> {
    m.map_values(|p: (SockAddr, u64)| p.0)
}

/// The sorted hits with each address once (its fastest round trip), in
/// whole milliseconds.
pub open spec fn first_hits(sorted: Seq<(SockAddr, u64)>) -> Seq<(SockAddr, u64)>
    decreases sorted.len(),
{
    if sorted.len() == 0 {
        seq![]
    } else {
        let r = first_hits(sorted.drop_last());
        let h = sorted.last();
        if addrs_of(r).contains(h.0) { r } else { r.push((h.0, h.1 / 1_000_000)) }
    }
}

/// The older entries not re-probed, behind the hits, while fewer than
/// twelve are kept.
pub open spec fn with_olds(m: Seq<(SockAddr, u64)>, olds: Seq<SockAddr>) -> Seq<(SockAddr, u64)>
    decreases olds.len(),
{
    if olds.len() == 0 {
        m
    } else {
        let r = with_olds(m, olds.drop_last());
        if r.len() >= MAX_ENTRIES || addrs_of(r).contains(olds.last()) {
            r
        } else {
            r.push((olds.last(), UNMEASURED_MS))
        }
    }
}

/// What the file keeps after a session: this session's hits (round trips
/// in nanoseconds) first, fastest first and each address once, then the
/// older entries, at most twelve in all.
pub open spec fn spec_merge_ranked(hits: Seq<(SockAddr, u64)>, olds: Seq<SockAddr>) -> Seq<(SockAddr, u64)> {
    let m = with_olds(first_hits(sorted_by_rtt(hits)), olds);
    if m.len() <= MAX_ENTRIES { m } else { m.take(MAX_ENTRIES as int) }
}

fn contains_first(v: &Vec<(SockAddr, u64)>, a: SockAddr) -> (b: bool)
    ensures
        b == addrs_of(v@).contains(a),
{
    let mut i: usize = 0;
    while i < v.len()
        invariant
            i <= v@.len(),
            forall|k: int| 0 <= k < i ==> v@[k].0 != a,
        decreases v@.len() - i,
    {
        if v[i].0 == a {
            assert(addrs_of(v@)[i as int] == a);
            return true;
        }
        i += 1;
    }
    proof {
        if addrs_of(v@).contains(a) {
            let k = choose|k: int| 0 <= k < addrs_of(v@).len() && addrs_of(v@)[k] == a;
            assert(v@[k].0 == a);
        }
    }
    false
}

/// The entries the file keeps after a session.
pub fn merge_ranked(hits: &[(SockAddr, u64)], olds: &[SockAddr]) -> (merged: Vec<(SockAddr, u64)>)
    ensures
        merged@ == spec_merge_ranked(hits@, olds@),
        merged@.len() <= MAX_ENTRIES,
{
    let sorted = sort_by_rtt(hits);
    let mut merged: Vec<(SockAddr, u64)> = Vec::new();
    let mut i: usize = 0;
    while i < sorted.len()
        invariant
            i <= sorted@.len(),
            merged@ == first_hits(sorted@.take(i as int)),
        decreases sorted@.len() - i,
    {
        let (a, ns) = sorted[i];
        proof {
            assert(sorted@.take(i + 1).drop_last() =~= sorted@.take(i as int));
            assert(sorted@.take(i + 1).last() == sorted@[i as int]);
        }
        if !contains_first(&merged, a) {
            merged.push((a, ns / 1_000_000));
        }
        i += 1;
    }
    assert(sorted@.take(sorted@.len() as int) =~= sorted@);
    let ghost m0 = merged@;
    let mut k: usize = 0;
    while k < olds.len()
        invariant
            k <= olds@.len(),
            merged@ == with_olds(m0, olds@.take(k as int)),
        decreases olds@.len() - k,
    {
        let o = olds[k];
        proof {
            assert(olds@.take(k + 1).drop_last() =~= olds@.take(k as int));
            assert(olds@.take(k + 1).last() == o);
        }
        if merged.len() < MAX_ENTRIES && !contains_first(&merged, o) {
            merged.push((o, UNMEASURED_MS));
        }
        k += 1;
    }
    assert(olds@.take(olds@.len() as int) =~= olds@);
    merged.truncate(MAX_ENTRIES);
    merged
}

/// One line of the file: the address, then its round trip unless it is 0
/// or unmeasured.
pub open spec fn ranked_line(a: SockAddr, ms: u64) -> Seq<char> {
    if ms == 0 || ms >= 0x3fff_ffff_ffff_ffff {
        spec_sockaddr_text(a) + seq!['\n']
    } else {
        spec_sockaddr_text(a) + seq![' '] + decimal(ms as nat) + seq!['\n']
    }
}

pub open spec fn ranked_text(m: Seq<(SockAddr, u64)>) -> Seq<char>
    decreases m.len(),
{
    if m.len() == 0 {
        seq![]
    } else {
        ranked_text(m.drop_last()) + ranked_line(m.last().0, m.last().1)
    }
}

/// The file's text for the kept entries.
pub fn render_ranked(merged: &[(SockAddr, u64)]) -> (text: String)
    ensures
        text@ == ranked_text(merged@),
{
    let mut out: Vec<char> = Vec::new();
    let mut i: usize = 0;
    while i < merged.len()
        invariant
            i <= merged@.len(),
            out@ == ranked_text(merged@.take(i as int)),
        decreases merged@.len() - i,
    {
        let (a, ms) = merged[i];
        let t = crate::ip::sockaddr_text(a);
        let mut tv = chars_of(t.as_str());
        let ghost before = out@;
        out.append(&mut tv);
        if ms == 0 || ms >= 0x3fff_ffff_ffff_ffff {
            out.push('\n');
        } else {
            out.push(' ');
            let d = crate::text::decimal_string(ms);
            let mut dv = chars_of(d.as_str());
            out.append(&mut dv);
            out.push('\n');
        }
        proof {
            assert(merged@.take(i + 1).drop_last() =~= merged@.take(i as int));
            assert(merged@.take(i + 1).last() == merged@[i as int]);
            assert(out@ =~= before + ranked_line(a, ms));
        }
        i += 1;
    }
    assert(merged@.take(merged@.len() as int) =~= merged@);
    string_of(&out)
}

/// The file's new text after a session, or `None` when the session had
/// no hits (the file is then left alone).
pub fn ranked_file(hits: &[(SockAddr, u64)], olds: &[SockAddr]) -> (text: Option<String>)
    ensures
        hits@.len() == 0 ==> text is None,
        hits@.len() > 0 ==> (text matches Some(t) && t@ == ranked_text(spec_merge_ranked(hits@, olds@))),
{
    if hits.len() == 0 {
        return None;
    }
    let merged = merge_ranked(hits, olds);
    Some(render_ranked(&merged))
}

/// The warm endpoint a single-endpoint caller uses: the first ranked one.
pub fn first_ranked(ranked: &[SockAddr]) -> (a: Option<SockAddr>)
    ensures
        a == (if ranked@.len() > 0 { Some(ranked@[0]) } else { None::<SockAddr> }),
{
    if ranked.len() > 0 { Some(ranked[0]) } else { None }
}

/// Whether the round trips of `s` never decrease.
pub open spec fn rtt_sorted(s: Seq<(SockAddr, u64)>) -> bool {
    forall|i: int, j: int| 0 <= i <= j < s.len() ==> #[trigger] s[i].1 <= #[trigger] s[j].1
}

proof fn lemma_rtt_pos_splits(r: Seq<(SockAddr, u64)>, x: u64)
    requires
        rtt_sorted(r),
    ensures
        0 <= rtt_pos(r, x) <= r.len(),
        forall|i: int| 0 <= i < rtt_pos(r, x) ==> #[trigger] r[i].1 <= x,
        forall|i: int| rtt_pos(r, x) <= i < r.len() ==> #[trigger] r[i].1 > x,
    decreases r.len(),
{
    if r.len() > 0 {
        if r.last().1 <= x {
            assert forall|i: int| 0 <= i < r.len() implies #[trigger] r[i].1 <= x by {
                assert(r[i].1 <= r[r.len() - 1].1);
            }
        } else {
            let d = r.drop_last();
            assert(rtt_sorted(d)) by {
                assert forall|i: int, j: int| 0 <= i <= j < d.len() implies #[trigger] d[i].1 <= #[trigger] d[j].1 by {
                    assert(d[i] == r[i] && d[j] == r[j]);
                }
            }
            lemma_rtt_pos_splits(d, x);
            assert forall|i: int| 0 <= i < rtt_pos(r, x) implies #[trigger] r[i].1 <= x by {
                assert(r[i] == d[i]);
            }
            assert forall|i: int| rtt_pos(r, x) <= i < r.len() implies #[trigger] r[i].1 > x by {
                if i < d.len() {
                    assert(r[i] == d[i]);
                }
            }
        }
    }
}

/// The sort keeps every hit (as a multiset) and orders them by round trip.
pub proof fn lemma_sorted_by_rtt(s: Seq<(SockAddr, u64)>)
    ensures
        rtt_sorted(sorted_by_rtt(s)),
        sorted_by_rtt(s).to_multiset() == s.to_multiset(),
        sorted_by_rtt(s).len() == s.len(),
    decreases s.len(),
{
    if s.len() > 0 {
        let d = s.drop_last();
        let x = s.last();
        lemma_sorted_by_rtt(d);
        let r = sorted_by_rtt(d);
        let p = rtt_pos(r, x.1);
        lemma_rtt_pos_splits(r, x.1);
        let t = r.insert(p, x);
        assert forall|i: int, j: int| 0 <= i <= j < t.len() implies #[trigger] t[i].1 <= #[trigger] t[j].1 by {
            if i < p {
                assert(t[i] == r[i]);
                if j < p {
                    assert(t[j] == r[j]);
                } else if j == p {
                    assert(t[j] == x);
                } else {
                    assert(t[j] == r[j - 1]);
                }
            } else if i == p {
                assert(t[i] == x);
                if j > p {
                    assert(t[j] == r[j - 1]);
                }
            } else {
                assert(t[i] == r[i - 1]);
                assert(t[j] == r[j - 1]);
            }
        }
        vstd::seq_lib::to_multiset_insert(r, p, x);
        vstd::seq_lib::to_multiset_build(d, x);
        assert(s =~= d.push(x));
        assert(sorted_by_rtt(s) == t);
        assert(t.to_multiset() =~= s.to_multiset());
    } else {
        assert(sorted_by_rtt(s) =~= s);
    }
}

/// After a session with hits, the file leads with the fastest hit: its
/// round trip is no slower than any hit's, and on a tie it is the one given
/// first.
pub proof fn lemma_fastest_hit_leads(hits: Seq<(SockAddr, u64)>, olds: Seq<SockAddr>)
    requires
        hits.len() > 0,
    ensures
        spec_merge_ranked(hits, olds).len() > 0,
        hits.contains((spec_merge_ranked(hits, olds)[0].0, sorted_by_rtt(hits)[0].1)),
        spec_merge_ranked(hits, olds)[0].1 == sorted_by_rtt(hits)[0].1 / 1_000_000,
        forall|i: int| 0 <= i < hits.len() ==> sorted_by_rtt(hits)[0].1 <= #[trigger] hits[i].1,
{
    let s = sorted_by_rtt(hits);
    lemma_sorted_by_rtt(hits);
    lemma_first_hits_head(s);
    lemma_with_olds_keeps(first_hits(s), olds);
    assert(s.to_multiset().count(s[0]) > 0) by {
        broadcast use vstd::seq_lib::group_to_multiset_ensures;
        assert(s.contains(s[0]));
    }
    assert(hits.contains(s[0])) by {
        broadcast use vstd::seq_lib::group_to_multiset_ensures;
    }
    assert forall|i: int| 0 <= i < hits.len() implies s[0].1 <= #[trigger] hits[i].1 by {
        assert(hits.to_multiset().count(hits[i]) > 0) by {
            broadcast use vstd::seq_lib::group_to_multiset_ensures;
            assert(hits.contains(hits[i]));
        }
        assert(s.contains(hits[i])) by {
            broadcast use vstd::seq_lib::group_to_multiset_ensures;
        }
        let k = choose|k: int| 0 <= k < s.len() && s[k] == hits[i];
        assert(s[0].1 <= s[k].1);
    }
}

proof fn lemma_first_hits_head(s: Seq<(SockAddr, u64)>)
    requires
        s.len() > 0,
    ensures
        first_hits(s).len() > 0,
        first_hits(s)[0] == (s[0].0, s[0].1 / 1_000_000),
    decreases s.len(),
{
    if s.len() == 1 {
        assert(s.drop_last().len() == 0);
        assert(first_hits(s.drop_last()) == Seq::<(SockAddr, u64)>::empty());
    } else {
        lemma_first_hits_head(s.drop_last());
        assert(s.drop_last()[0] == s[0]);
    }
}

proof fn lemma_with_olds_keeps(m: Seq<(SockAddr, u64)>, olds: Seq<SockAddr>)
    ensures
        with_olds(m, olds).len() >= m.len(),
        forall|i: int| 0 <= i < m.len() ==> #[trigger] with_olds(m, olds)[i] == m[i],
    decreases olds.len(),
{
    if olds.len() > 0 {
        lemma_with_olds_keeps(m, olds.drop_last());
    }
}

} // verus!
