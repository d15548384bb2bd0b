//! Reading back what was written: the text of a number, of an IP address
//! and of a socket address parses back to the value it was written from,
//! and so does a whole warm-endpoint file.
use vstd::prelude::*;

use crate::ip::{
    double_colon, ipv6_text, longest_zero_run, spec_parse_ipv6, spec_words, zero_run, dotted, hex_char, join_groups, spec_groups, hex_digit_value, hex_text, hex_value, is_hex_digit, spec_group, spec_octet, spec_parse_ipv4,
};
use crate::account::Identity;
use crate::config::{decoded_ok, identity_error, identity_matches, spec_client_id, spec_decode_key, spec_masque_endpoint, PersistedIdentity};
use crate::keyhandoff::base64_decoded;
use crate::text::opt_string_view;
use crate::ip::{spec_parse_socket_addr, spec_sockaddr_text, SockAddr};
use crate::endpoint_cache::{first_hits, sorted_by_rtt, spec_merge_ranked, with_olds, addrs_of, first_ws_index, line_addr, ranked_from, ranked_line, ranked_text, spec_parse_ranked, MAX_ENTRIES};
use crate::text::{is_ws, trim, first_index_char, all_digits, decimal, digits_value, is_digit, last_index_of, lemma_last_index_bounds, split_on};

verus! {

/// The text of a number is all digits, at least one, with no leading zero,
/// and reads back as the number.
pub proof fn lemma_decimal(n: nat)
    ensures
        decimal(n).len() >= 1,
        all_digits(decimal(n)),
        digits_value(decimal(n)) == n,
        n >= 1 ==> decimal(n)[0] != '0',
        n < 10 ==> decimal(n).len() == 1,
        n < 100 ==> decimal(n).len() <= 2,
        n < 1000 ==> decimal(n).len() <= 3,
    decreases n,
{
    let last = (('0' as u32) + (n % 10)) as char;
    assert(last as u32 == ('0' as u32) + (n % 10));
    assert(n == (n / 10) * 10 + n % 10) by (nonlinear_arith);
    if n >= 10 {
        lemma_decimal(n / 10);
        let p = decimal(n / 10);
        let d = decimal(n);
        assert(d == p.push((('0' as u32) + (n % 10)) as char));
        assert(d.drop_last() =~= p);
        assert forall|i: int| 0 <= i < d.len() implies is_digit(#[trigger] d[i]) by {
            if i < p.len() {
                assert(d[i] == p[i]);
            }
        }
        assert(d[0] == p[0]);
        assert(d.last() == last);
        assert(digits_value(d) == digits_value(p) * 10 + ((last as u32) - ('0' as u32)) as nat);
    } else {
        let d = decimal(n);
        assert(n % 10 == n);
        assert(d.drop_last() =~= Seq::<char>::empty());
        assert(d.last() == last);
        assert(digits_value(d) == digits_value(d.drop_last()) * 10 + ((last as u32) - ('0' as u32)) as nat);
    }
}

/// The last `c` of a text with none is at -1.
proof fn lemma_last_index_absent(s: Seq<char>, c: char)
    requires
        !s.contains(c),
    ensures
        last_index_of(s, c) == -1,
    decreases s.len(),
{
    if s.len() > 0 {
        assert(s.last() != c) by {
            assert(s[s.len() - 1] == s.last());
        }
        assert forall|i: int| 0 <= i < s.drop_last().len() implies s.drop_last()[i] != c by {
            assert(s.drop_last()[i] == s[i]);
        }
        lemma_last_index_absent(s.drop_last(), c);
    }
}

/// A text with no `c` is one piece.
proof fn lemma_split_none(s: Seq<char>, c: char)
    requires
        !s.contains(c),
    ensures
        split_on(s, c) == seq![s],
{
    lemma_last_index_absent(s, c);
}

proof fn lemma_last_index_join(x: Seq<char>, y: Seq<char>, c: char)
    ensures
        last_index_of(x + seq![c] + y, c) == (if last_index_of(y, c) >= 0 {
            x.len() + 1 + last_index_of(y, c)
        } else {
            x.len() as int
        }),
    decreases y.len(),
{
    let s = x + seq![c] + y;
    if y.len() == 0 {
        assert(s.last() == c);
    } else {
        assert(s.last() == y.last());
        if y.last() != c {
            assert(s.drop_last() =~= x + seq![c] + y.drop_last());
            lemma_last_index_join(x, y.drop_last(), c);
        }
    }
}

/// Splitting at a `c` between two texts splits each of them.
proof fn lemma_split_join(x: Seq<char>, y: Seq<char>, c: char)
    ensures
        split_on(x + seq![c] + y, c) == split_on(x, c) + split_on(y, c),
    decreases y.len(),
{
    let s = x + seq![c] + y;
    lemma_last_index_join(x, y, c);
    lemma_last_index_bounds(y, c);
    let j = last_index_of(y, c);
    if j >= 0 {
        let k = x.len() + 1 + j;
        assert(s.take(k) =~= x + seq![c] + y.take(j));
        assert(s.skip(k + 1) =~= y.skip(j + 1));
        lemma_split_join(x, y.take(j), c);
        assert(split_on(y, c) == split_on(y.take(j), c).push(y.skip(j + 1)));
        assert(split_on(x, c) + split_on(y.take(j), c).push(y.skip(j + 1)) =~= (split_on(x, c) + split_on(y.take(j), c)).push(y.skip(j + 1)));
    } else {
        let k = x.len() as int;
        assert(s.take(k) =~= x);
        assert(s.skip(k + 1) =~= y);
        assert(split_on(y, c) == seq![y]);
        assert(split_on(x, c).push(y) =~= split_on(x, c) + seq![y]);
    }
}

/// A run of digits holds no other character.
proof fn lemma_digits_lack(s: Seq<char>, c: char)
    requires
        all_digits(s),
        !is_digit(c),
    ensures
        !s.contains(c),
{
    if s.contains(c) {
        let i = choose|i: int| 0 <= i < s.len() && s[i] == c;
        assert(is_digit(s[i]));
    }
}

/// The text of an octet reads back as that octet.
proof fn lemma_octet_text(n: u8)
    ensures
        spec_octet(decimal(n as nat)) == Some(n),
{
    lemma_decimal(n as nat);
}

/// Dotted-decimal text reads back as the four octets it was written from.
pub proof fn lemma_dotted_parse(o: Seq<u8>)
    requires
        o.len() == 4,
    ensures
        spec_parse_ipv4(dotted(o)) == Some(o),
        !dotted(o).contains(':'),
        forall|i: int| 0 <= i < dotted(o).len() ==> is_digit(#[trigger] dotted(o)[i]) || dotted(o)[i] == '.',
{
    let d0 = decimal(o[0] as nat);
    let d1 = decimal(o[1] as nat);
    let d2 = decimal(o[2] as nat);
    let d3 = decimal(o[3] as nat);
    lemma_decimal(o[0] as nat);
    lemma_decimal(o[1] as nat);
    lemma_decimal(o[2] as nat);
    lemma_decimal(o[3] as nat);
    lemma_digits_lack(d0, '.');
    lemma_digits_lack(d1, '.');
    lemma_digits_lack(d2, '.');
    lemma_digits_lack(d3, '.');
    lemma_split_none(d0, '.');
    lemma_split_none(d1, '.');
    lemma_split_none(d2, '.');
    lemma_split_none(d3, '.');
    lemma_split_join(d0, d1, '.');
    lemma_split_join(d0 + seq!['.'] + d1, d2, '.');
    lemma_split_join(d0 + seq!['.'] + d1 + seq!['.'] + d2, d3, '.');
    let t = dotted(o);
    assert(t =~= d0 + seq!['.'] + d1 + seq!['.'] + d2 + seq!['.'] + d3);
    let parts = split_on(t, '.');
    assert(parts =~= seq![d0, d1, d2, d3]);
    lemma_octet_text(o[0]);
    lemma_octet_text(o[1]);
    lemma_octet_text(o[2]);
    lemma_octet_text(o[3]);
    assert(seq![o[0], o[1], o[2], o[3]] =~= o);
    assert forall|i: int| 0 <= i < t.len() implies is_digit(#[trigger] t[i]) || t[i] == '.' by {
        let a = d0.len() as int;
        let b = a + 1 + d1.len();
        let c = b + 1 + d2.len();
        if i < a {
            assert(t[i] == d0[i]);
        } else if i == a {
        } else if i < b {
            assert(t[i] == d1[i - a - 1]);
        } else if i == b {
        } else if i < c {
            assert(t[i] == d2[i - b - 1]);
        } else if i == c {
        } else {
            assert(t[i] == d3[i - c - 1]);
        }
    }
    if t.contains(':') {
        let i = choose|i: int| 0 <= i < t.len() && t[i] == ':';
        assert(is_digit(t[i]) || t[i] == '.');
    }
}

/// A hex digit written for `d` reads back as `d`, and is a digit or one of
/// `a` to `f`.
proof fn lemma_hex_char(d: int)
    requires
        0 <= d < 16,
    ensures
        is_hex_digit(hex_char(d)),
        hex_digit_value(hex_char(d)) == d,
        is_digit(hex_char(d)) || ('a' <= hex_char(d) && hex_char(d) <= 'f'),
{
    let c = hex_char(d);
    if d < 10 {
        assert(c as u32 == ('0' as u32) + d);
    } else {
        assert(c as u32 == ('a' as u32) + d - 10);
    }
}

/// Hex text: at least one lowercase hex digit, no more than a 16-bit
/// value needs, reading back as the number.
proof fn lemma_hex_text(x: nat)
    ensures
        hex_text(x).len() >= 1,
        forall|i: int| 0 <= i < hex_text(x).len() ==> is_hex_digit(#[trigger] hex_text(x)[i])
            && (is_digit(hex_text(x)[i]) || ('a' <= hex_text(x)[i] && hex_text(x)[i] <= 'f')),
        hex_value(hex_text(x)) == x,
        x < 65536 ==> hex_text(x).len() <= 4,
        x < 4096 ==> hex_text(x).len() <= 3,
        x < 256 ==> hex_text(x).len() <= 2,
        x < 16 ==> hex_text(x).len() == 1,
    decreases x,
{
    lemma_hex_char((x % 16) as int);
    assert(x == (x / 16) * 16 + x % 16) by (nonlinear_arith);
    if x >= 16 {
        lemma_hex_text(x / 16);
        let p = hex_text(x / 16);
        let t = hex_text(x);
        assert(t.drop_last() =~= p);
        assert forall|i: int| 0 <= i < t.len() implies is_hex_digit(#[trigger] t[i])
            && (is_digit(t[i]) || ('a' <= t[i] && t[i] <= 'f')) by {
            if i < p.len() {
                assert(t[i] == p[i]);
            }
        }
        assert(x / 16 < 4096 ==> x < 65536) by (nonlinear_arith) requires x == (x / 16) * 16 + x % 16, x % 16 < 16;
        assert(x < 65536 ==> x / 16 < 4096) by (nonlinear_arith) requires x == (x / 16) * 16 + x % 16;
        assert(x < 4096 ==> x / 16 < 256) by (nonlinear_arith) requires x == (x / 16) * 16 + x % 16;
        assert(x < 256 ==> x / 16 < 16) by (nonlinear_arith) requires x == (x / 16) * 16 + x % 16;
        assert(t.last() == hex_char((x % 16) as int));
        assert(hex_value(t) == hex_value(p) * 16 + hex_digit_value(t.last()));
    } else {
        let t = hex_text(x);
        assert(x % 16 == x);
        assert(t.drop_last() =~= Seq::<char>::empty());
        assert(t.last() == hex_char(x as int));
        assert(hex_value(t) == hex_value(t.drop_last()) * 16 + hex_digit_value(t.last()));
    }
}

/// A group written in hex reads back as the group.
proof fn lemma_group_text(w: u16)
    ensures
        spec_group(hex_text(w as nat)) == Some(w),
{
    lemma_hex_text(w as nat);
}

/// Hex text holds none of the separators an address uses.
proof fn lemma_hex_lacks(x: nat, c: char)
    requires
        !is_hex_digit(c),
    ensures
        !hex_text(x).contains(c),
{
    lemma_hex_text(x);
    if hex_text(x).contains(c) {
        let i = choose|i: int| 0 <= i < hex_text(x).len() && hex_text(x)[i] == c;
        assert(is_hex_digit(hex_text(x)[i]));
    }
}

pub open spec fn group_texts(w: Seq<u16>) -> Seq<Seq<char>> {
    w.map_values(|x: u16| hex_text(x as nat))
}

/// Whether two colons stand next to each other anywhere in `s`.
pub open spec fn no_double_colon(s: Seq<char>) -> bool {
    forall|i: int| 0 <= i < s.len() - 1 ==> !(#[trigger] s[i] == ':' && s[i + 1] == ':')
}

/// Groups joined by colons split back into their texts, read back as the
/// groups, and never put two colons side by side.
proof fn lemma_join_groups(w: Seq<u16>)
    requires
        w.len() >= 1,
    ensures
        split_on(join_groups(w), ':') == group_texts(w),
        spec_groups(group_texts(w)) == Some(w),
        join_groups(w).len() >= 1,
        is_hex_digit(join_groups(w)[0]),
        is_hex_digit(join_groups(w).last()),
        forall|i: int| 0 <= i < join_groups(w).len() ==> is_hex_digit(#[trigger] join_groups(w)[i]) || join_groups(w)[i] == ':',
        no_double_colon(join_groups(w)),
    decreases w.len(),
{
    let j = join_groups(w);
    let h = hex_text(w.last() as nat);
    lemma_hex_text(w.last() as nat);
    lemma_group_text(w.last());
    lemma_hex_lacks(w.last() as nat, ':');
    lemma_split_none(h, ':');
    if w.len() == 1 {
        assert(j == h);
        assert(w.last() == w[0]);
        assert(group_texts(w) =~= seq![h]);
        assert(group_texts(w).drop_last() =~= Seq::<Seq<char>>::empty());
        assert(group_texts(w).last() == h);
        assert(spec_groups(group_texts(w).drop_last()) == Some(Seq::<u16>::empty()));
        assert(Seq::<u16>::empty().push(w.last()) =~= w);
        assert forall|i: int| 0 <= i < j.len() - 1 implies !(#[trigger] j[i] == ':' && j[i + 1] == ':') by {
            assert(is_hex_digit(j[i]));
        }
    } else {
        let p = w.drop_last();
        lemma_join_groups(p);
        let jp = join_groups(p);
        assert(j == jp + seq![':'] + h);
        lemma_split_join(jp, h, ':');
        assert(group_texts(w) =~= group_texts(p).push(h));
        assert(group_texts(w).drop_last() =~= group_texts(p));
        assert(p.push(w.last()) =~= w);
        assert(group_texts(w).last() == h);
        assert(j[0] == jp[0]);
        assert(j.last() == h.last());
        assert(h.last() == h[h.len() - 1]);
        assert forall|i: int| 0 <= i < j.len() implies is_hex_digit(#[trigger] j[i]) || j[i] == ':' by {
            if i < jp.len() {
                assert(j[i] == jp[i]);
            } else if i > jp.len() {
                assert(j[i] == h[i - jp.len() - 1]);
            }
        }
        assert forall|i: int| 0 <= i < j.len() - 1 implies !(#[trigger] j[i] == ':' && j[i + 1] == ':') by {
            if i + 1 < jp.len() {
                assert(j[i] == jp[i] && j[i + 1] == jp[i + 1]);
            } else if i + 1 == jp.len() {
                assert(j[i] == jp.last());
            } else if i == jp.len() {
                assert(j[i + 1] == h[0]);
            } else {
                assert(j[i] == h[i - jp.len() - 1]);
            }
        }
    }
}

/// Joined groups read back as the groups, whether or not an IPv4 tail is
/// allowed (hex text is never an IPv4 address).
proof fn lemma_words_of_join(w: Seq<u16>, v4_tail: bool)
    requires
        w.len() >= 1,
    ensures
        spec_words(join_groups(w), v4_tail) == Some(w),
{
    lemma_join_groups(w);
    let parts = split_on(join_groups(w), ':');
    let last = hex_text(w.last() as nat);
    assert(parts.last() == group_texts(w).last());
    assert(group_texts(w).last() == last);
    lemma_hex_lacks(w.last() as nat, '.');
    lemma_split_none(last, '.');
    assert(spec_parse_ipv4(last) is None);
}

/// A run of zero groups is zeros, inside the address.
proof fn lemma_zero_run(w: Seq<u16>, i: int)
    requires
        0 <= i <= w.len(),
    ensures
        i + zero_run(w, i) <= w.len(),
        forall|k: int| i <= k < i + zero_run(w, i) ==> w[k] == 0,
    decreases w.len() - i,
{
    if i < w.len() && w[i] == 0 {
        lemma_zero_run(w, i + 1);
    }
}

/// The longest run found is a real run of zeros inside the address.
proof fn lemma_longest_zero_run(w: Seq<u16>, n: nat)
    requires
        n <= w.len(),
    ensures
        0 <= longest_zero_run(w, n).0,
        longest_zero_run(w, n).0 + longest_zero_run(w, n).1 <= w.len(),
        forall|k: int| longest_zero_run(w, n).0 <= k < longest_zero_run(w, n).0 + longest_zero_run(w, n).1 ==> w[k] == 0,
    decreases n,
{
    if n > 0 {
        lemma_longest_zero_run(w, (n - 1) as nat);
        lemma_zero_run(w, n - 1);
    }
}

/// `::` first appears where it is known to be, when no pair of colons
/// stands before it.
proof fn lemma_double_colon_at(s: Seq<char>, k: int)
    requires
        0 <= k,
        k + 1 < s.len(),
        s[k] == ':' && s[k + 1] == ':',
        forall|i: int| 0 <= i < k ==> !(#[trigger] s[i] == ':' && s[i + 1] == ':'),
    ensures
        double_colon(s) == k,
    decreases k,
{
    if k > 0 {
        let t = s.drop_first();
        assert forall|i: int| 0 <= i < k - 1 implies !(#[trigger] t[i] == ':' && t[i + 1] == ':') by {
            assert(t[i] == s[i + 1] && t[i + 1] == s[i + 2]);
        }
        assert(!(s[0] == ':' && s[1] == ':'));
        lemma_double_colon_at(t, k - 1);
    }
}

/// A text with no pair of colons has no `::`.
proof fn lemma_double_colon_none(s: Seq<char>)
    requires
        no_double_colon(s),
    ensures
        double_colon(s) == s.len(),
    decreases s.len(),
{
    if s.len() >= 2 {
        assert(!(s[0] == ':' && s[1] == ':'));
        let t = s.drop_first();
        assert forall|i: int| 0 <= i < t.len() - 1 implies !(#[trigger] t[i] == ':' && t[i + 1] == ':') by {
            assert(t[i] == s[i + 1] && t[i + 1] == s[i + 2]);
        }
        lemma_double_colon_none(t);
    }
}

proof fn lemma_words_part(w: Seq<u16>, v4_tail: bool)
    ensures
        spec_words(if w.len() == 0 { seq![] } else { join_groups(w) }, v4_tail) == Some(w),
{
    if w.len() == 0 {
        assert(w =~= Seq::<u16>::empty());
    } else {
        lemma_words_of_join(w, v4_tail);
    }
}

/// The canonical text of an IPv6 address reads back as the address.
#[verifier::rlimit(60)]
#[verifier::spinoff_prover]
pub proof fn lemma_ipv6_text_parse(w: Seq<u16>)
    requires
        w.len() == 8,
    ensures
        spec_parse_ipv6(ipv6_text(w)) == Some(w),
{
    let s = ipv6_text(w);
    if w[0] == 0 && w[1] == 0 && w[2] == 0 && w[3] == 0 && w[4] == 0 && w[5] == 0xffff {
        lemma_mapped_parse(w);
    } else {
        let z = longest_zero_run(w, 8);
        lemma_longest_zero_run(w, 8);
        let a = z.0;
        let l = z.1;
        if l > 1 {
            let head = w.take(a);
            let tail = w.skip(a + l);
            let ht = if head.len() == 0 { Seq::<char>::empty() } else { join_groups(head) };
            let tt = if tail.len() == 0 { Seq::<char>::empty() } else { join_groups(tail) };
            reveal_strlit("::");
            assert(s == join_groups(head) + "::"@ + join_groups(tail));
            assert(join_groups(Seq::<u16>::empty()) == Seq::<char>::empty());
            assert(join_groups(head) == ht);
            assert(join_groups(tail) == tt);
            assert(s =~= ht + seq![':', ':'] + tt);
            let k = ht.len() as int;
            if head.len() > 0 {
                lemma_join_groups(head);
            }
            assert forall|i: int| 0 <= i < k implies !(#[trigger] s[i] == ':' && s[i + 1] == ':') by {
                assert(s[i] == ht[i]);
                if i + 1 < k {
                    assert(s[i + 1] == ht[i + 1]);
                } else {
                    assert(ht[i] == ht.last());
                }
            }
            lemma_double_colon_at(s, k);
            assert(s.take(k) =~= ht);
            assert(s.skip(k + 2) =~= tt);
            lemma_words_part(head, false);
            lemma_words_part(tail, true);
            let r = head + Seq::new((8 - head.len() - tail.len()) as nat, |i: int| 0u16) + tail;
            assert(r =~= w) by {
                assert forall|i: int| 0 <= i < 8 implies r[i] == w[i] by {
                    if a <= i < a + l {
                        assert(w[i] == 0);
                    }
                }
            }
        } else {
            assert(s == join_groups(w));
            lemma_join_groups(w);
            lemma_double_colon_none(s);
            lemma_words_of_join(w, true);
        }
    }
}

/// The IPv4-mapped text `::ffff:a.b.c.d` reads back as the address.
#[verifier::rlimit(40)]
#[verifier::spinoff_prover]
proof fn lemma_mapped_parse(w: Seq<u16>)
    requires
        w.len() == 8,
        w[0] == 0 && w[1] == 0 && w[2] == 0 && w[3] == 0 && w[4] == 0 && w[5] == 0xffff,
    ensures
        spec_parse_ipv6(ipv6_text(w)) == Some(w),
{
    let o = seq![(w[6] / 256) as u8, (w[6] % 256) as u8, (w[7] / 256) as u8, (w[7] % 256) as u8];
    let d = dotted(o);
    let s = ipv6_text(w);
    reveal_strlit("::ffff:");
    assert(s == "::ffff:"@ + d);
    let f = seq!['f', 'f', 'f', 'f'];
    assert(s =~= seq![':', ':'] + (f + seq![':'] + d));
    assert(s[0] == ':' && s[1] == ':');
    lemma_double_colon_at(s, 0);
    assert(s.take(0) =~= Seq::<char>::empty());
    assert(s.skip(2) =~= f + seq![':'] + d);
    lemma_dotted_parse(o);
    lemma_split_join(f, d, ':');
    lemma_split_none(f, ':');
    lemma_split_none(d, ':');
    let parts = split_on(s.skip(2), ':');
    assert(parts =~= seq![f, d]);
    assert(parts.last() == d);
    assert(parts.drop_last() =~= seq![f]);
    lemma_ffff();
    assert((w[6] / 256) * 256 + w[6] % 256 == w[6]) by (nonlinear_arith);
    assert((w[7] / 256) * 256 + w[7] % 256 == w[7]) by (nonlinear_arith);
    let t = seq![0xffffu16] + seq![(o[0] as int * 256 + o[1]) as u16, (o[2] as int * 256 + o[3]) as u16];
    assert(spec_words(s.skip(2), true) == Some(t));
    assert(spec_words(s.take(0), false) == Some(Seq::<u16>::empty()));
    let r = Seq::<u16>::empty() + Seq::new(5, |i: int| 0u16) + t;
    assert(r =~= w);
}

proof fn lemma_ffff()
    ensures
        spec_groups(seq![seq!['f', 'f', 'f', 'f']]) == Some(seq![0xffffu16]),
{
    let f = seq!['f', 'f', 'f', 'f'];
    let c = hex_char(15);
    assert(c as u32 == ('a' as u32) + 5);
    assert(c == 'f');
    assert(hex_text(15) == seq![c]);
    assert(hex_text(255) == hex_text(15).push(c));
    assert(hex_text(4095) == hex_text(255).push(c));
    assert(hex_text(65535) == hex_text(4095).push(c));
    assert(hex_text(65535) =~= f);
    lemma_group_text(0xffff);
    assert(spec_group(f) == Some(0xffffu16));
    assert(spec_groups(Seq::<Seq<char>>::empty()) == Some(Seq::<u16>::empty()));
    assert(seq![f].drop_last() =~= Seq::<Seq<char>>::empty());
    assert(seq![f].last() == f);
    assert(Seq::<u16>::empty().push(0xffffu16) =~= seq![0xffffu16]);
}

/// The words of a 128-bit address make it up again.
proof fn lemma_words_of_value(x: u128)
    ensures
        crate::ip::words_value(crate::ip::words_of(x)) == x,
{
    let w = crate::ip::words_of(x);
    let w0 = (x >> 112u128) as u16;
    let w1 = (x >> 96u128) as u16;
    let w2 = (x >> 80u128) as u16;
    let w3 = (x >> 64u128) as u16;
    let w4 = (x >> 48u128) as u16;
    let w5 = (x >> 32u128) as u16;
    let w6 = (x >> 16u128) as u16;
    let w7 = x as u16;
    assert(x == w0 as u128 * 0x1_0000_0000_0000_0000_0000_0000_0000 + w1 as u128 * 0x1_0000_0000_0000_0000_0000_0000
        + w2 as u128 * 0x1_0000_0000_0000_0000_0000 + w3 as u128 * 0x1_0000_0000_0000_0000 + w4 as u128 * 0x1_0000_0000_0000
        + w5 as u128 * 0x1_0000_0000 + w6 as u128 * 0x1_0000 + w7 as u128) by (bit_vector)
        requires
            w0 == (x >> 112u128) as u16, w1 == (x >> 96u128) as u16, w2 == (x >> 80u128) as u16,
            w3 == (x >> 64u128) as u16, w4 == (x >> 48u128) as u16, w5 == (x >> 32u128) as u16,
            w6 == (x >> 16u128) as u16, w7 == x as u16;
    reveal_with_fuel(crate::ip::words_value, 9);
    assert(w.drop_last().drop_last().drop_last().drop_last().drop_last().drop_last().drop_last().drop_last() =~= Seq::<u16>::empty());
    assert(w.drop_last() =~= seq![w0, w1, w2, w3, w4, w5, w6]);
    assert(w.drop_last().drop_last() =~= seq![w0, w1, w2, w3, w4, w5]);
    assert(w.drop_last().drop_last().drop_last() =~= seq![w0, w1, w2, w3, w4]);
    assert(w.drop_last().drop_last().drop_last().drop_last() =~= seq![w0, w1, w2, w3]);
    assert(w.drop_last().drop_last().drop_last().drop_last().drop_last() =~= seq![w0, w1, w2]);
    assert(w.drop_last().drop_last().drop_last().drop_last().drop_last().drop_last() =~= seq![w0, w1]);
    assert(w.drop_last().drop_last().drop_last().drop_last().drop_last().drop_last().drop_last() =~= seq![w0]);
}

/// The four octets of a 32-bit address make it up again.
proof fn lemma_octets_of_value(x: u128)
    requires
        x < 0x1_0000_0000,
    ensures
        crate::ip::spec_ipv4_u32(crate::ip::octets_of(x)) == x,
{
    let o0 = (x >> 24u128) as u8;
    let o1 = (x >> 16u128) as u8;
    let o2 = (x >> 8u128) as u8;
    let o3 = x as u8;
    assert(x == o0 as u128 * 16777216 + o1 as u128 * 65536 + o2 as u128 * 256 + o3 as u128) by (bit_vector)
        requires
            x < 0x1_0000_0000, o0 == (x >> 24u128) as u8, o1 == (x >> 16u128) as u8, o2 == (x >> 8u128) as u8,
            o3 == x as u8;
}

/// The first `c` of a text is after everything before it that lacks one.
proof fn lemma_first_index_after(x: Seq<char>, y: Seq<char>, c: char)
    requires
        !x.contains(c),
    ensures
        first_index_char(x + y, c) == x.len() + first_index_char(y, c),
    decreases x.len(),
{
    if x.len() > 0 {
        assert(x[0] != c) by {
            assert(x.contains(x[0]));
        }
        assert((x + y)[0] == x[0]);
        assert((x + y).drop_first() =~= x.drop_first() + y);
        assert(!x.drop_first().contains(c)) by {
            if x.drop_first().contains(c) {
                let i = choose|i: int| 0 <= i < x.drop_first().len() && x.drop_first()[i] == c;
                assert(x[i + 1] == c);
            }
        }
        lemma_first_index_after(x.drop_first(), y, c);
    } else {
        assert(x + y =~= y);
    }
}

/// A text without `c` has its first `c` at its end.
proof fn lemma_first_index_absent(x: Seq<char>, c: char)
    requires
        !x.contains(c),
    ensures
        first_index_char(x, c) == x.len(),
{
    lemma_first_index_after(x, Seq::<char>::empty(), c);
    assert(x + Seq::<char>::empty() =~= x);
}

/// The first piece of a text that does not start with the separator starts
/// with the text's first character.
proof fn lemma_split_first(t: Seq<char>, c: char)
    requires
        t.len() > 0,
        t[0] != c,
    ensures
        split_on(t, c)[0].len() > 0,
        split_on(t, c)[0][0] == t[0],
    decreases t.len(),
{
    let k = last_index_of(t, c);
    lemma_last_index_bounds(t, c);
    if 0 <= k < t.len() {
        assert(t[k] == c) by {
            lemma_last_index_is(t, c);
        }
        assert(k >= 1);
        lemma_split_first(t.take(k), c);
        crate::text::lemma_split_on_len(t.take(k), c);
    }
}

proof fn lemma_last_index_is(t: Seq<char>, c: char)
    requires
        last_index_of(t, c) >= 0,
    ensures
        last_index_of(t, c) < t.len(),
        t[last_index_of(t, c)] == c,
    decreases t.len(),
{
    if t.last() != c {
        lemma_last_index_is(t.drop_last(), c);
    }
}

/// Text that starts with `[` is not an IPv4 address.
proof fn lemma_bracket_not_ipv4(t: Seq<char>)
    requires
        t.len() > 0,
        t[0] == '[',
    ensures
        spec_parse_ipv4(t) is None,
{
    lemma_split_first(t, '.');
    let p0 = split_on(t, '.')[0];
    assert(!is_digit(p0[0]));
}

/// The characters of IPv6 text: hex digits, colons and dots.
#[verifier::spinoff_prover]
proof fn lemma_ipv6_text_chars(w: Seq<u16>)
    requires
        w.len() == 8,
    ensures
        forall|i: int| 0 <= i < ipv6_text(w).len() ==> is_hex_digit(#[trigger] ipv6_text(w)[i]) || ipv6_text(w)[i] == ':'
            || ipv6_text(w)[i] == '.',
        ipv6_text(w).len() >= 2,
{
    let t = ipv6_text(w);
    if w[0] == 0 && w[1] == 0 && w[2] == 0 && w[3] == 0 && w[4] == 0 && w[5] == 0xffff {
        let o = seq![(w[6] / 256) as u8, (w[6] % 256) as u8, (w[7] / 256) as u8, (w[7] % 256) as u8];
        lemma_dotted_parse(o);
        reveal_strlit("::ffff:");
        let d = dotted(o);
        assert(t == "::ffff:"@ + d);
        assert forall|i: int| 0 <= i < t.len() implies is_hex_digit(#[trigger] t[i]) || t[i] == ':' || t[i] == '.' by {
            if i >= 7 {
                assert(t[i] == d[i - 7]);
            }
        }
    } else {
        let z = longest_zero_run(w, 8);
        lemma_longest_zero_run(w, 8);
        lemma_join_groups(w);
        if z.1 > 1 {
            reveal_strlit("::");
            let head = w.take(z.0);
            let tail = w.skip(z.0 + z.1);
            let ht = join_groups(head);
            let tt = join_groups(tail);
            assert(join_groups(Seq::<u16>::empty()) == Seq::<char>::empty());
            if head.len() > 0 {
                lemma_join_groups(head);
            }
            if tail.len() > 0 {
                lemma_join_groups(tail);
            }
            assert(t =~= ht + seq![':', ':'] + tt);
            assert forall|i: int| 0 <= i < t.len() implies is_hex_digit(#[trigger] t[i]) || t[i] == ':' || t[i] == '.' by {
                if i < ht.len() {
                    assert(t[i] == ht[i]);
                } else if i >= ht.len() + 2 {
                    assert(t[i] == tt[i - ht.len() - 2]);
                }
            }
        } else {
            assert(t == join_groups(w));
            let p = w.drop_last();
            assert(join_groups(w) == join_groups(p) + seq![':'] + hex_text(w.last() as nat));
            lemma_join_groups(p);
        }
    }
}

/// A socket address as the standard library holds one: an IPv4 address in
/// 32 bits, with no scope.
pub open spec fn sockaddr_wf(a: SockAddr) -> bool {
    a.v6 || (a.ip < 0x1_0000_0000 && a.scope_id == 0)
}

proof fn lemma_decimal_at_most(n: nat, max: nat)
    requires
        n <= max,
    ensures
        crate::ip::spec_decimal_at_most(decimal(n), max) == Some(n),
{
    lemma_decimal(n);
}

/// A character that is no hex digit and no separator of IPv6 text does
/// not occur in it.
proof fn lemma_ipv6_text_lacks(w: Seq<u16>, c: char)
    requires
        w.len() == 8,
        !is_hex_digit(c),
        c != ':',
        c != '.',
    ensures
        !ipv6_text(w).contains(c),
{
    lemma_ipv6_text_chars(w);
    if ipv6_text(w).contains(c) {
        let i = choose|i: int| 0 <= i < ipv6_text(w).len() && ipv6_text(w)[i] == c;
        assert(is_hex_digit(ipv6_text(w)[i]) || ipv6_text(w)[i] == ':' || ipv6_text(w)[i] == '.');
    }
}

/// The text of a socket address reads back as that address.
pub proof fn lemma_sockaddr_text_parse(a: SockAddr)
    requires
        sockaddr_wf(a),
    ensures
        spec_parse_socket_addr(spec_sockaddr_text(a)) == Some(a),
{
    if !a.v6 {
        lemma_sockaddr_text_parse_v4(a);
    } else {
        lemma_sockaddr_text_parse_v6(a);
    }
}

#[verifier::spinoff_prover]
#[verifier::rlimit(60)]
proof fn lemma_sockaddr_text_parse_v4(a: SockAddr)
    requires
        sockaddr_wf(a),
        !a.v6,
    ensures
        spec_parse_socket_addr(spec_sockaddr_text(a)) == Some(a),
{
    let s = spec_sockaddr_text(a);
    let pt = decimal(a.port as nat);
    lemma_decimal_at_most(a.port as nat, 65535);
    let o = crate::ip::octets_of(a.ip);
    let d = dotted(o);
    lemma_dotted_parse(o);
    lemma_octets_of_value(a.ip);
    assert(s =~= d + (seq![':'] + pt));
    lemma_first_index_after(d, seq![':'] + pt, ':');
    assert((seq![':'] + pt)[0] == ':');
    assert(first_index_char(seq![':'] + pt, ':') == 0);
    let k = first_index_char(s, ':');
    assert(k == d.len());
    assert(s.take(k) =~= d);
    assert(s.skip(k + 1) =~= pt);
    assert(a.port as nat as u16 == a.port);
}

#[verifier::spinoff_prover]
#[verifier::rlimit(60)]
proof fn lemma_sockaddr_text_parse_v6(a: SockAddr)
    requires
        sockaddr_wf(a),
        a.v6,
    ensures
        spec_parse_socket_addr(spec_sockaddr_text(a)) == Some(a),
{
    let s = spec_sockaddr_text(a);
    let pt = decimal(a.port as nat);
    lemma_decimal_at_most(a.port as nat, 65535);
    let w = crate::ip::words_of(a.ip);
    let t = ipv6_text(w);
    lemma_ipv6_text_parse(w);
    lemma_ipv6_text_chars(w);
    lemma_words_of_value(a.ip);
    let sc = if a.scope_id == 0 { Seq::<char>::empty() } else { seq!['%'] + decimal(a.scope_id as nat) };
    assert(s =~= seq!['['] + (t + sc) + seq![']', ':'] + pt);
    assert(s[0] == '[');
    let k = first_index_char(s, ':');
    crate::text::lemma_first_index_char(s, ':');
    assert(k != 0);
    assert(s.take(k)[0] == '[');
    lemma_bracket_not_ipv4(s.take(k));
    // the closing bracket
    lemma_ipv6_text_lacks(w, ']');
    lemma_ipv6_text_lacks(w, '%');
    lemma_decimal(a.scope_id as nat);
    lemma_digits_lack(decimal(a.scope_id as nat), ']');
    let inside = t + sc;
    assert(!sc.contains(']')) by {
        if a.scope_id != 0 {
            let ds = decimal(a.scope_id as nat);
            if sc.contains(']') {
                let i = choose|i: int| 0 <= i < sc.len() && sc[i] == ']';
                if i > 0 {
                    assert(sc[i] == ds[i - 1]);
                    assert(ds.contains(']'));
                }
            }
        }
    }
    assert(!inside.contains(']')) by {
        if inside.contains(']') {
            let i = choose|i: int| 0 <= i < inside.len() && inside[i] == ']';
            if i < t.len() {
                assert(inside[i] == t[i]);
                assert(t.contains(']'));
            } else {
                assert(inside[i] == sc[i - t.len()]);
                assert(sc.contains(']'));
            }
        }
    }
    assert(s =~= seq!['['] + inside + (seq![']', ':'] + pt));
    lemma_first_index_after(seq!['['] + inside, seq![']', ':'] + pt, ']');
    assert(!(seq!['['] + inside).contains(']')) by {
        if (seq!['['] + inside).contains(']') {
            let i = choose|i: int| 0 <= i < (seq!['['] + inside).len() && (seq!['['] + inside)[i] == ']';
            assert(i > 0);
            assert((seq!['['] + inside)[i] == inside[i - 1]);
            assert(inside.contains(']'));
        }
    }
    assert(first_index_char(seq![']', ':'] + pt, ']') == 0);
    let e = first_index_char(s, ']');
    assert(e == 1 + inside.len());
    assert(s[e + 1] == ':');
    assert(s.subrange(1, e) =~= inside);
    assert(s.skip(e + 2) =~= pt);
    let pct = first_index_char(inside, '%');
    if a.scope_id == 0 {
        assert(inside =~= t);
        lemma_first_index_absent(t, '%');
        assert(pct == inside.len());
        assert(inside.take(pct) =~= t);
    } else {
        lemma_first_index_after(t, sc, '%');
        assert(sc[0] == '%');
        assert(first_index_char(sc, '%') == 0);
        assert(pct == t.len());
        assert(inside.take(pct) =~= t);
        assert(inside.skip(pct + 1) =~= decimal(a.scope_id as nat));
        lemma_decimal_at_most(a.scope_id as nat, u32::MAX as nat);
    }
    assert(a.port as nat as u16 == a.port);
    assert(a.scope_id as nat as u32 == a.scope_id);

}


/// Characters the text of a socket address is made of.
pub open spec fn addr_char(c: char) -> bool {
    is_hex_digit(c) || c == ':' || c == '.' || c == '[' || c == ']' || c == '%'
}

/// The text of a socket address: address characters only, starting with a
/// digit or `[` and ending with a digit.
#[verifier::spinoff_prover]
proof fn lemma_sockaddr_text_chars(a: SockAddr)
    ensures
        spec_sockaddr_text(a).len() >= 1,
        forall|i: int| 0 <= i < spec_sockaddr_text(a).len() ==> addr_char(#[trigger] spec_sockaddr_text(a)[i]),
        is_digit(spec_sockaddr_text(a)[0]) || spec_sockaddr_text(a)[0] == '[',
        is_digit(spec_sockaddr_text(a).last()),
{
    let s = spec_sockaddr_text(a);
    let pt = decimal(a.port as nat);
    lemma_decimal(a.port as nat);
    assert(pt.last() == pt[pt.len() - 1]);
    if !a.v6 {
        let o = crate::ip::octets_of(a.ip);
        let d = dotted(o);
        lemma_dotted_parse(o);
        lemma_decimal(o[0] as nat);
        assert(s =~= d + seq![':'] + pt);
        assert(d[0] == decimal(o[0] as nat)[0]);
        assert forall|i: int| 0 <= i < s.len() implies addr_char(#[trigger] s[i]) by {
            if i < d.len() {
                assert(s[i] == d[i]);
                assert(is_digit(d[i]) || d[i] == '.');
            } else if i > d.len() {
                assert(s[i] == pt[i - d.len() - 1]);
            }
        }
        assert(s.last() == pt.last());
    } else {
        let w = crate::ip::words_of(a.ip);
        let t = ipv6_text(w);
        lemma_ipv6_text_chars(w);
        lemma_decimal(a.scope_id as nat);
        let ds = decimal(a.scope_id as nat);
        let sc = if a.scope_id == 0 { Seq::<char>::empty() } else { seq!['%'] + ds };
        assert(s =~= seq!['['] + t + sc + seq![']', ':'] + pt);
        assert forall|i: int| 0 <= i < s.len() implies addr_char(#[trigger] s[i]) by {
            let n1 = 1 + t.len();
            let n2 = n1 + sc.len();
            if 1 <= i < n1 {
                assert(s[i] == t[i - 1]);
            } else if n1 <= i < n2 {
                assert(s[i] == sc[i - n1]);
                if i > n1 {
                    assert(sc[i - n1] == ds[i - n1 - 1]);
                }
            } else if i >= n2 + 2 {
                assert(s[i] == pt[i - n2 - 2]);
            }
        }
        assert(s.last() == pt.last());
    }
}

/// The body of one line of the file (without its newline).
pub open spec fn line_body(a: SockAddr, ms: u64) -> Seq<char> {
    if ms == 0 || ms >= 0x3fff_ffff_ffff_ffff {
        spec_sockaddr_text(a)
    } else {
        spec_sockaddr_text(a) + seq![' '] + decimal(ms as nat)
    }
}

pub open spec fn bodies(m: Seq<(SockAddr, u64)>) -> Seq<Seq<char>> {
    m.map_values(|p: (SockAddr, u64)| line_body(p.0, p.1))
}

#[verifier::spinoff_prover]
proof fn lemma_line_body(a: SockAddr, ms: u64)
    requires
        sockaddr_wf(a),
    ensures
        !line_body(a, ms).contains('\n'),
        line_body(a, ms).len() >= 1,
        line_addr(line_body(a, ms)) == Some(a),
        ranked_line(a, ms) == line_body(a, ms) + seq!['\n'],
{
    let b = line_body(a, ms);
    let t = spec_sockaddr_text(a);
    lemma_sockaddr_text_chars(a);
    lemma_sockaddr_text_parse(a);
    let tail = if ms == 0 || ms >= 0x3fff_ffff_ffff_ffff { Seq::<char>::empty() } else { seq![' '] + decimal(ms as nat) };
    lemma_decimal(ms as nat);
    assert(b =~= t + tail);
    assert forall|i: int| 0 <= i < tail.len() implies #[trigger] tail[i] == ' ' || is_digit(tail[i]) by {
        if i > 0 {
            assert(tail[i] == decimal(ms as nat)[i - 1]);
        }
    }
    assert forall|i: int| 0 <= i < b.len() implies #[trigger] b[i] != '\n' by {
        if i < t.len() {
            assert(b[i] == t[i]);
            assert(addr_char(t[i]));
        } else {
            assert(b[i] == tail[i - t.len()]);
        }
    }
    assert(!b.contains('\n'));
    // no whitespace around the body: trimming keeps it
    assert(b[0] == t[0]);
    assert(!is_ws(b[0]));
    if tail.len() > 0 {
        assert(b.last() == tail.last());
        assert(tail.last() == decimal(ms as nat).last());
        assert(decimal(ms as nat).last() == decimal(ms as nat)[decimal(ms as nat).len() - 1]);
    } else {
        assert(b.last() == t.last());
    }
    assert(!is_ws(b.last()));
    assert(crate::text::lead_ws(b) == 0);
    assert(crate::text::trim_start(b) =~= b);
    assert(crate::text::trail_ws(b) == 0);
    assert(crate::text::trim_end(b) =~= b);
    assert(trim(b) == b);
    assert(b[0] != '#');
    // the first word is the address
    assert forall|i: int| 0 <= i < t.len() implies !is_ws(#[trigger] t[i]) by {
        assert(addr_char(t[i]));
    }
    lemma_first_ws_after(t, tail);
    if tail.len() > 0 {
        assert(is_ws(tail[0]));
        assert(first_ws_index(tail) == 0);
    }
    assert(first_ws_index(b) == t.len());
    assert(b.take(t.len() as int) =~= t);
}

proof fn lemma_first_ws_after(x: Seq<char>, y: Seq<char>)
    requires
        forall|i: int| 0 <= i < x.len() ==> !is_ws(#[trigger] x[i]),
    ensures
        first_ws_index(x + y) == x.len() + first_ws_index(y),
    decreases x.len(),
{
    if x.len() > 0 {
        assert((x + y)[0] == x[0]);
        assert((x + y).drop_first() =~= x.drop_first() + y);
        assert forall|i: int| 0 <= i < x.drop_first().len() implies !is_ws(#[trigger] x.drop_first()[i]) by {
            assert(x.drop_first()[i] == x[i + 1]);
        }
        lemma_first_ws_after(x.drop_first(), y);
    } else {
        assert(x + y =~= y);
    }
}

/// The file splits into its line bodies and an empty remainder.
#[verifier::spinoff_prover]
proof fn lemma_split_lines(m: Seq<(SockAddr, u64)>)
    requires
        forall|i: int| 0 <= i < m.len() ==> sockaddr_wf(#[trigger] m[i].0),
    ensures
        split_on(ranked_text(m), '\n') == bodies(m).push(Seq::<char>::empty()),
        m.len() > 0 ==> ranked_text(m).len() > 0 && ranked_text(m).last() == '\n',
    decreases m.len(),
{
    if m.len() == 0 {
        assert(ranked_text(m) == Seq::<char>::empty());
        lemma_split_none(Seq::<char>::empty(), '\n');
        assert(bodies(m) =~= Seq::<Seq<char>>::empty());
    } else {
        let p = m.drop_last();
        let (a, ms) = m.last();
        assert(sockaddr_wf(m[m.len() - 1].0));
        lemma_line_body(a, ms);
        let b = line_body(a, ms);
        let r = ranked_text(p);
        assert forall|i: int| 0 <= i < p.len() implies sockaddr_wf(#[trigger] p[i].0) by {
            assert(p[i] == m[i]);
        }
        lemma_split_lines(p);
        assert(ranked_text(m) == r + (b + seq!['\n']));
        lemma_split_none(b, '\n');
        lemma_split_none(Seq::<char>::empty(), '\n');
        lemma_split_join(b, Seq::<char>::empty(), '\n');
        assert(b + seq!['\n'] + Seq::<char>::empty() =~= b + seq!['\n']);
        assert(bodies(m) =~= bodies(p).push(b));
        if p.len() == 0 {
            assert(r == Seq::<char>::empty());
            assert(ranked_text(m) =~= b + seq!['\n'] + Seq::<char>::empty());
            assert(bodies(p) =~= Seq::<Seq<char>>::empty());
            assert(bodies(m).push(Seq::<char>::empty()) =~= seq![b] + seq![Seq::<char>::empty()]);
        } else {
            let rd = r.drop_last();
            assert(r =~= rd + seq!['\n'] + Seq::<char>::empty());
            lemma_split_join(rd, Seq::<char>::empty(), '\n');
            assert(split_on(rd, '\n') + seq![Seq::<char>::empty()] == bodies(p).push(Seq::<char>::empty()));
            assert(split_on(rd, '\n') =~= bodies(p)) by {
                let x = split_on(rd, '\n');
                assert((x + seq![Seq::<char>::empty()]).drop_last() =~= x);
                assert(bodies(p).push(Seq::<char>::empty()).drop_last() =~= bodies(p));
            }
            assert(ranked_text(m) =~= rd + seq!['\n'] + (b + seq!['\n']));
            lemma_split_join(rd, b + seq!['\n'], '\n');
            assert(bodies(p) + (seq![b] + seq![Seq::<char>::empty()]) =~= bodies(m).push(Seq::<char>::empty()));
        }
    }
}

/// The addresses the line bodies name, read in order.
proof fn lemma_ranked_bodies(m: Seq<(SockAddr, u64)>)
    requires
        m.len() <= MAX_ENTRIES,
        addrs_of(m).no_duplicates(),
        forall|i: int| 0 <= i < m.len() ==> sockaddr_wf(#[trigger] m[i].0),
    ensures
        ranked_from(bodies(m)) == addrs_of(m),
    decreases m.len(),
{
    if m.len() > 0 {
        let p = m.drop_last();
        assert forall|i: int| 0 <= i < p.len() implies sockaddr_wf(#[trigger] p[i].0) by {
            assert(p[i] == m[i]);
        }
        assert(addrs_of(p) =~= addrs_of(m).drop_last());
        assert(addrs_of(p).no_duplicates()) by {
            assert forall|i: int, j: int| 0 <= i < j < addrs_of(p).len() implies addrs_of(p)[i] != addrs_of(p)[j] by {
                assert(addrs_of(p)[i] == addrs_of(m)[i] && addrs_of(p)[j] == addrs_of(m)[j]);
            }
        }
        lemma_ranked_bodies(p);
        assert(bodies(m).drop_last() =~= bodies(p));
        let (a, ms) = m.last();
        assert(sockaddr_wf(m[m.len() - 1].0));
        lemma_line_body(a, ms);
        assert(bodies(m).last() == line_body(a, ms));
        assert(!addrs_of(p).contains(a)) by {
            if addrs_of(p).contains(a) {
                let k = choose|k: int| 0 <= k < addrs_of(p).len() && addrs_of(p)[k] == a;
                assert(addrs_of(m)[k] == a && addrs_of(m)[m.len() - 1] == a);
            }
        }
        assert(addrs_of(p).push(a) =~= addrs_of(m));
    } else {
        assert(bodies(m) =~= Seq::<Seq<char>>::empty());
        assert(addrs_of(m) =~= Seq::<SockAddr>::empty());
    }
}

/// What the file holds reads back as the endpoints it was written from, in
/// order: at most twelve, each once, each a socket address the standard
/// library can hold.
pub proof fn lemma_ranked_text_reads_back(m: Seq<(SockAddr, u64)>)
    requires
        m.len() <= MAX_ENTRIES,
        addrs_of(m).no_duplicates(),
        forall|i: int| 0 <= i < m.len() ==> sockaddr_wf(#[trigger] m[i].0),
    ensures
        spec_parse_ranked(ranked_text(m)) == addrs_of(m),
{
    lemma_split_lines(m);
    lemma_ranked_bodies(m);
    let lines = bodies(m).push(Seq::<char>::empty());
    assert(lines.drop_last() =~= bodies(m));
    assert(line_addr(Seq::<char>::empty()) is None) by {
        assert(trim(Seq::<char>::empty()).len() == 0);
    }
}

proof fn lemma_first_hits_distinct(s: Seq<(SockAddr, u64)>)
    ensures
        addrs_of(first_hits(s)).no_duplicates(),
        forall|i: int| 0 <= i < first_hits(s).len() ==> addrs_of(s).contains(#[trigger] first_hits(s)[i].0),
    decreases s.len(),
{
    if s.len() > 0 {
        let p = s.drop_last();
        lemma_first_hits_distinct(p);
        let r = first_hits(p);
        let h = s.last();
        assert forall|i: int| 0 <= i < r.len() implies addrs_of(s).contains(#[trigger] r[i].0) by {
            let k = choose|k: int| 0 <= k < addrs_of(p).len() && addrs_of(p)[k] == r[i].0;
            assert(addrs_of(s)[k] == addrs_of(p)[k]);
        }
        if !addrs_of(r).contains(h.0) {
            let n = r.push((h.0, h.1 / 1_000_000));
            assert(addrs_of(n) =~= addrs_of(r).push(h.0));
            assert forall|i: int, j: int| 0 <= i < j < addrs_of(n).len() implies addrs_of(n)[i] != addrs_of(n)[j] by {
                if j == r.len() {
                    assert(addrs_of(n)[i] == addrs_of(r)[i]);
                }
            }
            assert(addrs_of(s)[s.len() - 1] == h.0);
            assert forall|i: int| 0 <= i < n.len() implies addrs_of(s).contains(#[trigger] n[i].0) by {
                if i < r.len() {
                    assert(n[i] == r[i]);
                }
            }
        }
    }
}

proof fn lemma_with_olds_distinct(m: Seq<(SockAddr, u64)>, olds: Seq<SockAddr>)
    requires
        addrs_of(m).no_duplicates(),
    ensures
        addrs_of(with_olds(m, olds)).no_duplicates(),
        forall|i: int| 0 <= i < with_olds(m, olds).len() ==> addrs_of(m).contains(#[trigger] with_olds(m, olds)[i].0)
            || olds.contains(with_olds(m, olds)[i].0),
    decreases olds.len(),
{
    if olds.len() > 0 {
        let p = olds.drop_last();
        lemma_with_olds_distinct(m, p);
        let r = with_olds(m, p);
        let o = olds.last();
        assert forall|i: int| 0 <= i < r.len() implies addrs_of(m).contains(#[trigger] r[i].0) || olds.contains(r[i].0) by {
            if p.contains(r[i].0) {
                let k = choose|k: int| 0 <= k < p.len() && p[k] == r[i].0;
                assert(olds[k] == p[k]);
            }
        }
        if !(r.len() >= MAX_ENTRIES || addrs_of(r).contains(o)) {
            let n = r.push((o, crate::endpoint_cache::UNMEASURED_MS));
            assert(addrs_of(n) =~= addrs_of(r).push(o));
            assert forall|i: int, j: int| 0 <= i < j < addrs_of(n).len() implies addrs_of(n)[i] != addrs_of(n)[j] by {
                if j == r.len() {
                    assert(addrs_of(n)[i] == addrs_of(r)[i]);
                }
            }
            assert(olds[olds.len() - 1] == o);
            assert forall|i: int| 0 <= i < n.len() implies addrs_of(m).contains(#[trigger] n[i].0) || olds.contains(n[i].0) by {
                if i < r.len() {
                    assert(n[i] == r[i]);
                }
            }
        }
    } else {
        assert forall|i: int| 0 <= i < m.len() implies addrs_of(m).contains(#[trigger] m[i].0) by {
            assert(addrs_of(m)[i] == m[i].0);
        }
    }
}

/// What a session saves reads back as the endpoints it kept, in order:
/// the fastest hit first, then the others and the older entries.
#[verifier::spinoff_prover]
pub proof fn lemma_saved_file_reads_back(hits: Seq<(SockAddr, u64)>, olds: Seq<SockAddr>)
    requires
        forall|i: int| 0 <= i < hits.len() ==> sockaddr_wf(#[trigger] hits[i].0),
        forall|i: int| 0 <= i < olds.len() ==> sockaddr_wf(#[trigger] olds[i]),
    ensures
        spec_parse_ranked(ranked_text(spec_merge_ranked(hits, olds))) == addrs_of(spec_merge_ranked(hits, olds)),
{
    let sorted = sorted_by_rtt(hits);
    crate::endpoint_cache::lemma_sorted_by_rtt(hits);
    lemma_first_hits_distinct(sorted);
    let f = first_hits(sorted);
    lemma_with_olds_distinct(f, olds);
    let w = with_olds(f, olds);
    let m = spec_merge_ranked(hits, olds);
    assert forall|i: int| 0 <= i < w.len() implies sockaddr_wf(#[trigger] w[i].0) by {
        if addrs_of(f).contains(w[i].0) {
            let k = choose|k: int| 0 <= k < addrs_of(f).len() && addrs_of(f)[k] == w[i].0;
            assert(addrs_of(sorted).contains(f[k].0));
            let j = choose|j: int| 0 <= j < addrs_of(sorted).len() && addrs_of(sorted)[j] == f[k].0;
            assert(sorted.to_multiset().count(sorted[j]) > 0) by {
                broadcast use vstd::seq_lib::group_to_multiset_ensures;
                assert(sorted.contains(sorted[j]));
            }
            assert(hits.contains(sorted[j])) by {
                broadcast use vstd::seq_lib::group_to_multiset_ensures;
            }
            let h = choose|h: int| 0 <= h < hits.len() && hits[h] == sorted[j];
            assert(sockaddr_wf(hits[h].0));
        } else {
            let k = choose|k: int| 0 <= k < olds.len() && olds[k] == w[i].0;
            assert(sockaddr_wf(olds[k]));
        }
    }
    if w.len() > MAX_ENTRIES {
        let t = w.take(MAX_ENTRIES as int);
        assert(m == t);
        assert(addrs_of(t) =~= addrs_of(w).take(MAX_ENTRIES as int));
        assert(addrs_of(t).no_duplicates()) by {
            assert forall|i: int, j: int| 0 <= i < j < addrs_of(t).len() implies addrs_of(t)[i] != addrs_of(t)[j] by {
                assert(addrs_of(t)[i] == addrs_of(w)[i] && addrs_of(t)[j] == addrs_of(w)[j]);
            }
        }
        assert forall|i: int| 0 <= i < t.len() implies sockaddr_wf(#[trigger] t[i].0) by {
            assert(t[i] == w[i]);
        }
    }
    lemma_ranked_text_reads_back(m);
}

/// Text without whitespace is its own trimmed form.
proof fn lemma_trim_plain(s: Seq<char>)
    requires
        forall|i: int| 0 <= i < s.len() ==> !is_ws(#[trigger] s[i]),
    ensures
        trim(s) == s,
{
    if s.len() > 0 {
        assert(!is_ws(s[0]));
        assert(!is_ws(s[s.len() - 1]));
    }
    assert(crate::text::lead_ws(s) == 0);
    assert(crate::text::trim_start(s) =~= s);
    assert(crate::text::trail_ws(s) == 0);
    assert(crate::text::trim_end(s) =~= s);
}

/// The standard text of a socket address is written back unchanged.
pub proof fn lemma_sockaddr_display(a: SockAddr)
    requires
        sockaddr_wf(a),
    ensures
        crate::ip::spec_socket_display(spec_sockaddr_text(a)) == Some(spec_sockaddr_text(a)),
{
    if !a.v6 {
        lemma_sockaddr_display_v4(a);
    } else {
        lemma_sockaddr_display_v6(a);
    }
}

#[verifier::spinoff_prover]
#[verifier::rlimit(60)]
proof fn lemma_sockaddr_display_v4(a: SockAddr)
    requires
        sockaddr_wf(a),
        !a.v6,
    ensures
        crate::ip::spec_socket_display(spec_sockaddr_text(a)) == Some(spec_sockaddr_text(a)),
{
    let s = spec_sockaddr_text(a);
    let pt = decimal(a.port as nat);
    lemma_sockaddr_text_parse(a);
    lemma_decimal_at_most(a.port as nat, 65535);
    let o = crate::ip::octets_of(a.ip);
    let d = dotted(o);
    lemma_dotted_parse(o);
    assert(s =~= d + (seq![':'] + pt));
    lemma_first_index_after(d, seq![':'] + pt, ':');
    assert(first_index_char(seq![':'] + pt, ':') == 0);
    let k = first_index_char(s, ':');
    assert(s.take(k) =~= d);
    assert(s.skip(k + 1) =~= pt);
    assert(crate::ip::spec_socket_host(s) == Some((d, a.port)));
    assert(s =~= d + seq![':'] + pt);
}

#[verifier::spinoff_prover]
#[verifier::rlimit(60)]
proof fn lemma_sockaddr_display_v6(a: SockAddr)
    requires
        sockaddr_wf(a),
        a.v6,
    ensures
        crate::ip::spec_socket_display(spec_sockaddr_text(a)) == Some(spec_sockaddr_text(a)),
{
    let s = spec_sockaddr_text(a);
    let pt = decimal(a.port as nat);
    lemma_sockaddr_text_parse(a);
    lemma_decimal_at_most(a.port as nat, 65535);
    let w = crate::ip::words_of(a.ip);
    let t = ipv6_text(w);
    lemma_ipv6_text_parse(w);
    lemma_ipv6_text_chars(w);
    lemma_decimal(a.scope_id as nat);
    let sc = if a.scope_id == 0 { Seq::<char>::empty() } else { seq!['%'] + decimal(a.scope_id as nat) };
    assert(s =~= seq!['['] + (t + sc) + seq![']', ':'] + pt);
    assert(s[0] == '[');
    let k = first_index_char(s, ':');
    crate::text::lemma_first_index_char(s, ':');
    assert(k != 0);
    assert(s.take(k)[0] == '[');
    lemma_bracket_not_ipv4(s.take(k));
    lemma_ipv6_text_lacks(w, ']');
    lemma_ipv6_text_lacks(w, '%');
    lemma_digits_lack(decimal(a.scope_id as nat), ']');
    let inside = t + sc;
    assert(!sc.contains(']')) by {
        if a.scope_id != 0 {
            let ds = decimal(a.scope_id as nat);
            if sc.contains(']') {
                let i = choose|i: int| 0 <= i < sc.len() && sc[i] == ']';
                if i > 0 {
                    assert(sc[i] == ds[i - 1]);
                    assert(ds.contains(']'));
                }
            }
        }
    }
    assert(!(seq!['['] + inside).contains(']')) by {
        if (seq!['['] + inside).contains(']') {
            let i = choose|i: int| 0 <= i < (seq!['['] + inside).len() && (seq!['['] + inside)[i] == ']';
            assert(i > 0);
            assert((seq!['['] + inside)[i] == inside[i - 1]);
            if i - 1 < t.len() {
                assert(inside[i - 1] == t[i - 1]);
                assert(t.contains(']'));
            } else {
                assert(inside[i - 1] == sc[i - 1 - t.len()]);
                assert(sc.contains(']'));
            }
        }
    }
    assert(s =~= seq!['['] + inside + (seq![']', ':'] + pt));
    lemma_first_index_after(seq!['['] + inside, seq![']', ':'] + pt, ']');
    assert(first_index_char(seq![']', ':'] + pt, ']') == 0);
    let e = first_index_char(s, ']');
    assert(s.subrange(1, e) =~= inside);
    let pct = first_index_char(inside, '%');
    if a.scope_id == 0 {
        assert(inside =~= t);
        lemma_first_index_absent(t, '%');
        assert(inside.take(pct) =~= t);
    } else {
        lemma_first_index_after(t, sc, '%');
        assert(sc[0] == '%');
        assert(first_index_char(sc, '%') == 0);
        assert(inside.take(pct) =~= t);
    }
    assert(crate::ip::spec_socket_host(s) == Some((t, a.port)));
    if a.scope_id == 0 {
        assert(s =~= seq!['['] + t + seq![']', ':'] + pt);
    } else {
        assert(s =~= seq!['['] + t + seq!['%'] + decimal(a.scope_id as nat) + seq![']', ':'] + pt);
    }

}


/// An identity in the form the library keeps it: its addresses in their
/// standard text, its certificate and key valid UTF-8, its MASQUE endpoint
/// (if any) a socket address in its standard text.
pub open spec fn identity_canonical(id: Identity) -> bool {
    &&& exists|o: Seq<u8>| o.len() == 4 && id.ipv4@ == dotted(o)
    &&& exists|w: Seq<u16>| w.len() == 8 && id.ipv6@ == ipv6_text(w)
    &&& vstd::utf8::valid_utf8(id.cert_pem@)
    &&& vstd::utf8::valid_utf8(id.key_pem@)
    &&& match id.masque_endpoint {
        Some(e) => exists|a: SockAddr| sockaddr_wf(a) && e@ == spec_sockaddr_text(a),
        None => true,
    }
}

/// What saving writes for an identity (see `PersistedIdentity::from_identity`).
pub open spec fn saved_as(p: PersistedIdentity, id: Identity) -> bool {
    &&& p.device_id@ == id.device_id@
    &&& p.access_token@ == id.access_token@
    &&& p.ipv4@ == id.ipv4@
    &&& p.ipv6@ == id.ipv6@
    &&& opt_string_view(p.masque_endpoint) == opt_string_view(id.masque_endpoint)
    &&& spec_decode_key(p.wg_private_key@, "wg private key"@) == decoded_ok(id.wg_private_key@)
    &&& spec_decode_key(p.wg_peer_public_key@, "wg peer public key"@) == decoded_ok(id.wg_peer_public_key@)
    &&& base64_decoded(p.client_id@) == decoded_ok(id.client_id@)
    &&& p.client_id@.len() == 4
    &&& (vstd::utf8::valid_utf8(id.cert_pem@) ==> p.cert_pem@ == vstd::utf8::decode_utf8(id.cert_pem@))
    &&& (vstd::utf8::valid_utf8(id.key_pem@) ==> p.key_pem@ == vstd::utf8::decode_utf8(id.key_pem@))
}

/// Two identities with the same contents.
pub open spec fn same_identity(a: Identity, b: Identity) -> bool {
    &&& a.device_id@ == b.device_id@
    &&& a.access_token@ == b.access_token@
    &&& a.cert_pem@ == b.cert_pem@
    &&& a.key_pem@ == b.key_pem@
    &&& a.ipv4@ == b.ipv4@
    &&& a.ipv6@ == b.ipv6@
    &&& a.wg_private_key@ == b.wg_private_key@
    &&& a.wg_peer_public_key@ == b.wg_peer_public_key@
    &&& a.client_id@ == b.client_id@
    &&& opt_string_view(a.masque_endpoint) == opt_string_view(b.masque_endpoint)
}

/// Loading what was saved gives the identity back: the stored form of a
/// kept identity is accepted, and whatever it loads as has the same
/// contents as the identity that was saved.
#[verifier::spinoff_prover]
pub proof fn lemma_saved_identity_loads_back(p: PersistedIdentity, id: Identity)
    requires
        saved_as(p, id),
        identity_canonical(id),
    ensures
        identity_error(p) is None,
        identity_matches(p, id),
        forall|back: Identity| identity_matches(p, back) ==> same_identity(back, id),
{
    // addresses
    let o = choose|o: Seq<u8>| o.len() == 4 && id.ipv4@ == dotted(o);
    let w = choose|w: Seq<u16>| w.len() == 8 && id.ipv6@ == ipv6_text(w);
    lemma_dotted_parse(o);
    assert forall|i: int| 0 <= i < dotted(o).len() implies !is_ws(#[trigger] dotted(o)[i]) by {
        assert(is_digit(dotted(o)[i]) || dotted(o)[i] == '.');
    }
    lemma_trim_plain(dotted(o));
    lemma_ipv6_text_parse(w);
    lemma_ipv6_text_chars(w);
    assert forall|i: int| 0 <= i < ipv6_text(w).len() implies !is_ws(#[trigger] ipv6_text(w)[i]) by {
        assert(is_hex_digit(ipv6_text(w)[i]) || ipv6_text(w)[i] == ':' || ipv6_text(w)[i] == '.');
    }
    lemma_trim_plain(ipv6_text(w));
    // certificate and key
    vstd::utf8::decode_utf8_encode_utf8(id.cert_pem@);
    vstd::utf8::decode_utf8_encode_utf8(id.key_pem@);
    // client id
    assert(spec_client_id(p.client_id@) == Ok::<Seq<u8>, Seq<char>>(id.client_id@));
    // endpoint
    match id.masque_endpoint {
        Some(e) => {
            let a = choose|a: SockAddr| sockaddr_wf(a) && e@ == spec_sockaddr_text(a);
            lemma_sockaddr_text_chars(a);
            assert forall|i: int| 0 <= i < spec_sockaddr_text(a).len() implies !is_ws(#[trigger] spec_sockaddr_text(a)[i]) by {
                assert(addr_char(spec_sockaddr_text(a)[i]));
            }
            lemma_trim_plain(spec_sockaddr_text(a));
            lemma_sockaddr_display(a);
            assert(spec_masque_endpoint(opt_string_view(p.masque_endpoint)) == Ok::<Option<Seq<char>>, Seq<char>>(Some(e@)));
        },
        None => {},
    }
    assert(identity_matches(p, id));
    assert forall|back: Identity| identity_matches(p, back) implies same_identity(back, id) by {
        assert(back.wg_private_key@ == id.wg_private_key@);
        assert(back.wg_peer_public_key@ == id.wg_peer_public_key@);
        assert(back.client_id@ == id.client_id@);
    }
}

} // verus!
