//! Custom Packet Signatures: a text template of `<tag data>` items that
//! expands to the bytes of a decoy packet.
//!
//! Tags: `<b HEX>` literal bytes (an optional `0x`/`0X` prefix, whitespace
//! ignored), `<t>` the UNIX time, `<c>` the time modulo `0xFFFFFFFF` (both
//! four bytes big-endian), `<n>` an eight-byte nonce, and `<r L>`, `<rc L>`,
//! `<rd L>` for random bytes, letters or digits, where `L` is a count `N` or
//! a range `MIN-MAX`. Text outside tags and unknown tags contribute nothing.
use vstd::prelude::*;

use crate::text::{
    all_digits, first_index_char, is_ws, is_ws_exec, lemma_first_index_char, parse_unsigned,
    parse_unsigned_chars, slice_chars, trim, trim_bounds,
};

verus! {

/// The largest random run one tag may ask for.
pub const MAX_RANDOM_RUN: usize = 2048;

/// How many bytes a random tag asks for: a count, or a range drawn from.
#[derive(Debug, Clone, Copy, PartialEq, Eq, Structural)]
pub enum CpsLen {
    Fixed(usize),
    Between(usize, usize),
}

/// One tag of a template, parsed.
#[derive(Debug, Clone, PartialEq, Eq)]
pub enum CpsTag {
    Bytes(Vec<u8>),
    Timestamp,
    Counter,
    Nonce,
    Random(CpsLen),
    Alpha(CpsLen),
    Digits(CpsLen),
}

/// A parsed tag as a mathematical value.
pub enum CpsItem {
    Bytes(Seq<u8>),
    Timestamp,
    Counter,
    Nonce,
    Random(CpsLen),
    Alpha(CpsLen),
    Digits(CpsLen),
}

impl View for CpsTag {
    type V = CpsItem;

    open spec fn view(&self) -> CpsItem {
        match self {
            CpsTag::Bytes(b) => CpsItem::Bytes(b@),
            CpsTag::Timestamp => CpsItem::Timestamp,
            CpsTag::Counter => CpsItem::Counter,
            CpsTag::Nonce => CpsItem::Nonce,
            CpsTag::Random(l) => CpsItem::Random(*l),
            CpsTag::Alpha(l) => CpsItem::Alpha(*l),
            CpsTag::Digits(l) => CpsItem::Digits(*l),
        }
    }
}

pub open spec fn is_tag_letter(c: char) -> bool {
    'a' <= c && c <= 'z'
}

/// Length of the run of tag letters that `s` starts with.
pub open spec fn letter_run(s: Seq<char>) -> nat
    decreases s.len(),
{
    if s.len() > 0 && is_tag_letter(s[0]) {
        1 + letter_run(s.drop_first())
    } else {
        0
    }
}

/// Index of the first `>` after position `p`, or the length when there is none.
pub open spec fn close_after(s: Seq<char>, p: int) -> int {
    p + 1 + first_index_char(s.skip(p + 1), '>')
}

/// Whether a tag opens at `p`: a `<`, at least one tag letter, and a `>`
/// somewhere after it.
pub open spec fn tag_at(s: Seq<char>, p: int) -> bool {
    &&& 0 <= p
    &&& p + 1 < s.len()
    &&& s[p] == '<'
    &&& is_tag_letter(s[p + 1])
    &&& close_after(s, p) < s.len()
}

/// The tags from position `p` on, leftmost first and without overlap, each
/// as its name and its trimmed data.
pub open spec fn tags_from(s: Seq<char>, p: int) -> Seq<(Seq<char>, Seq<char>)>
    decreases s.len() - p,
{
    if p < 0 || p >= s.len() {
        seq![]
    } else if tag_at(s, p) {
        let n = letter_run(s.skip(p + 1));
        let e = close_after(s, p);
        proof {
            lemma_first_index_char(s.skip(p + 1), '>');
        }
        seq![(s.subrange(p + 1, p + 1 + n), trim(s.subrange(p + 1 + n, e)))] + tags_from(s, e + 1)
    } else {
        tags_from(s, p + 1)
    }
}

/// `s` with every whitespace character removed.
pub open spec fn without_ws(s: Seq<char>) -> Seq<char>
    decreases s.len(),
{
    if s.len() == 0 {
        seq![]
    } else if is_ws(s.last()) {
        without_ws(s.drop_last())
    } else {
        without_ws(s.drop_last()).push(s.last())
    }
}

/// `s` without a leading `0x` or `0X`.
pub open spec fn strip_hex_prefix(s: Seq<char>) -> Seq<char> {
    if s.len() >= 2 && s[0] == '0' && (s[1] == 'x' || s[1] == 'X') {
        s.skip(2)
    } else {
        s
    }
}

pub open spec fn is_hex(c: char) -> bool {
    ('0' <= c && c <= '9') || ('a' <= c && c <= 'f') || ('A' <= c && c <= 'F')
}

pub open spec fn hex_val(c: char) -> int {
    if '0' <= c && c <= '9' {
        (c as int) - ('0' as int)
    } else if 'a' <= c && c <= 'f' {
        (c as int) - ('a' as int) + 10
    } else {
        (c as int) - ('A' as int) + 10
    }
}

/// `hex::decode`: pairs of hex digits of either case, each pair one byte,
/// high digit first; an odd count or a character that is no hex digit is an
/// error.
pub open spec fn spec_hex_decode(s: Seq<char>) -> Option<Seq<u8>> {
    if s.len() % 2 == 0 && forall|i: int| 0 <= i < s.len() ==> is_hex(#[trigger] s[i]) {
        Some(Seq::new((s.len() / 2) as nat, |i: int| (hex_val(s[2 * i]) * 16 + hex_val(s[2 * i + 1])) as u8))
    } else {
        None
    }
}

/// The value of a count, 0 when it does not parse.
pub open spec fn count_or_zero(s: Seq<char>) -> int {
    match parse_unsigned(trim(s), usize::MAX as nat) {
        Some(n) => n as int,
        None => 0,
    }
}

/// The length a random tag's data asks for: `MIN-MAX` (the first two pieces
/// between dashes) when both parse and `0 < MIN < MAX`, else the whole data
/// as a count (0 when it does not parse), at most 2048.
pub open spec fn spec_cps_len(data: Seq<char>) -> CpsLen {
    let k = first_index_char(data, '-');
    let whole = count_or_zero(data);
    let fixed = CpsLen::Fixed((if whole <= 2048 { whole } else { 2048 }) as usize);
    if k < data.len() {
        let rest = data.skip(k + 1);
        let lo = count_or_zero(data.take(k));
        let hi = count_or_zero(rest.take(first_index_char(rest, '-')));
        if hi > lo && lo > 0 {
            CpsLen::Between(lo as usize, hi as usize)
        } else {
            fixed
        }
    } else {
        fixed
    }
}

/// What a tag's name and data make, if anything.
pub open spec fn spec_cps_tag(name: Seq<char>, data: Seq<char>) -> Option<CpsItem> {
    if name == seq!['b'] {
        match spec_hex_decode(strip_hex_prefix(without_ws(data))) {
            Some(b) => Some(CpsItem::Bytes(b)),
            None => None,
        }
    } else if name == seq!['t'] {
        Some(CpsItem::Timestamp)
    } else if name == seq!['c'] {
        Some(CpsItem::Counter)
    } else if name == seq!['n'] {
        Some(CpsItem::Nonce)
    } else if name == seq!['r'] {
        Some(CpsItem::Random(spec_cps_len(data)))
    } else if name == seq!['r', 'c'] {
        Some(CpsItem::Alpha(spec_cps_len(data)))
    } else if name == seq!['r', 'd'] {
        Some(CpsItem::Digits(spec_cps_len(data)))
    } else {
        None
    }
}

/// The items of a list of tags, skipping the ones that make nothing.
pub open spec fn items_of(tags: Seq<(Seq<char>, Seq<char>)>) -> Seq<CpsItem>
    decreases tags.len(),
{
    if tags.len() == 0 {
        seq![]
    } else {
        let rest = items_of(tags.drop_last());
        match spec_cps_tag(tags.last().0, tags.last().1) {
            Some(it) => rest.push(it),
            None => rest,
        }
    }
}

/// The items a template makes, in order.
pub open spec fn spec_cps_items(s: Seq<char>) -> Seq<CpsItem> {
    items_of(tags_from(s, 0))
}

/// Whether a random run of `n` bytes can come from `l`: exactly the count,
/// or a draw from the range capped at 2048.
pub open spec fn len_fits(l: CpsLen, n: int) -> bool {
    match l {
        CpsLen::Fixed(f) => n == f,
        CpsLen::Between(lo, hi) => {
            &&& (if lo <= 2048 { lo as int } else { 2048 }) <= n
            &&& n <= (if hi <= 2048 { hi as int } else { 2048 })
        },
    }
}

pub open spec fn is_ascii_alpha(b: u8) -> bool {
    (65 <= b && b <= 90) || (97 <= b && b <= 122)
}

pub open spec fn is_ascii_digit(b: u8) -> bool {
    48 <= b && b <= 57
}

/// The big-endian bytes of a 64-bit value.
pub open spec fn be64(n: u64) -> Seq<u8> {
    crate::bytes::be32((n >> 32u64) as u32) + crate::bytes::be32((n % 0x1_0000_0000) as u32)
}

/// The clock as a tag writes it, from the UNIX time `secs`: `<t>` is the
/// time as a big-endian 32-bit value, `<c>` (the counter) the seconds modulo
/// `0xFFFFFFFF`.
pub open spec fn spec_clock_piece(counter: bool, secs: u64) -> Seq<u8> {
    crate::bytes::be32((if counter { secs % 0xFFFF_FFFF } else { secs % 0x1_0000_0000 }) as u32)
}

/// The bytes of a `<t>` (or, for `counter`, a `<c>`) tag at UNIX time `secs`.
pub fn clock_piece(counter: bool, secs: u64) -> (p: Vec<u8>)
    ensures
        p@ == spec_clock_piece(counter, secs),
{
    let v: u64 = if counter { secs % 0xFFFF_FFFF } else { secs % 0x1_0000_0000 };
    let mut out: Vec<u8> = Vec::new();
    crate::bytes::push_be32(&mut out, v as u32);
    assert(out@ =~= spec_clock_piece(counter, secs));
    out
}

/// The bytes of a `<n>` tag for the random draw `n`.
pub fn nonce_piece(n: u64) -> (p: Vec<u8>)
    ensures
        p@ == be64(n),
{
    let mut out: Vec<u8> = Vec::new();
    crate::bytes::push_be32(&mut out, (n >> 32) as u32);
    crate::bytes::push_be32(&mut out, (n % 0x1_0000_0000) as u32);
    assert(out@ =~= be64(n));
    out
}

/// Whether `piece` is something `item` can expand to.
pub open spec fn piece_fits(item: CpsItem, piece: Seq<u8>) -> bool {
    match item {
        CpsItem::Bytes(b) => piece == b,
        CpsItem::Timestamp => exists|secs: u64| piece == #[trigger] spec_clock_piece(false, secs),
        CpsItem::Counter => exists|secs: u64| piece == #[trigger] spec_clock_piece(true, secs),
        CpsItem::Nonce => exists|n: u64| piece == #[trigger] be64(n),
        CpsItem::Random(l) => len_fits(l, piece.len() as int),
        CpsItem::Alpha(l) => len_fits(l, piece.len() as int) && forall|i: int|
            0 <= i < piece.len() ==> is_ascii_alpha(#[trigger] piece[i]),
        CpsItem::Digits(l) => len_fits(l, piece.len() as int) && forall|i: int|
            0 <= i < piece.len() ==> is_ascii_digit(#[trigger] piece[i]),
    }
}

/// The pieces one after another.
pub open spec fn concat(pieces: Seq<Seq<u8>>) -> Seq<u8>
    decreases pieces.len(),
{
    if pieces.len() == 0 {
        seq![]
    } else {
        concat(pieces.drop_last()) + pieces.last()
    }
}

/// Whether `out` is an expansion of `items`: one fitting piece per item, in
/// order.
pub open spec fn expands_to(items: Seq<CpsItem>, out: Seq<u8>) -> bool {
    exists|pieces: Seq<Seq<u8>>|
        #![trigger concat(pieces)]
        pieces.len() == items.len() && concat(pieces) == out && forall|i: int|
            0 <= i < items.len() ==> piece_fits(items[i], #[trigger] pieces[i])
}

/// The index of the first `>` at or after `from`, or the length.
fn find_close(v: &Vec<char>, from: usize) -> (k: usize)
    requires
        from <= v@.len(),
    ensures
        k == from + first_index_char(v@.skip(from as int), '>'),
        k <= v@.len(),
{
    let ghost t = v@.skip(from as int);
    let mut k = from;
    while k < v.len() && v[k] != '>'
        invariant
            from <= k <= v@.len(),
            t == v@.skip(from as int),
            forall|j: int| from <= j < k ==> v@[j] != '>',
        decreases v@.len() - k,
    {
        k += 1;
    }
    proof {
        lemma_first_index_char(t, '>');
        let f = first_index_char(t, '>');
        if f < k - from {
            assert(t[f] == v@[from + f]);
        }
        if k - from < f {
            assert(t[k - from] == v@[k as int]);
        }
    }
    k
}

proof fn lemma_letter_run_bound(s: Seq<char>, k: int)
    requires
        0 <= k <= s.len(),
        k < s.len() ==> !is_tag_letter(s[k]),
    ensures
        letter_run(s) <= k,
    decreases s.len(),
{
    if s.len() > 0 && is_tag_letter(s[0]) {
        assert(k > 0);
        lemma_letter_run_bound(s.drop_first(), k - 1);
    }
}

/// Length of the run of tag letters starting at `from`.
fn letters_at(v: &Vec<char>, from: usize) -> (n: usize)
    requires
        from <= v@.len(),
    ensures
        n == letter_run(v@.skip(from as int)),
        from + n <= v@.len(),
{
    let mut i = from;
    while i < v.len() && 'a' <= v[i] && v[i] <= 'z'
        invariant
            from <= i <= v@.len(),
            forall|j: int| from <= j < i ==> is_tag_letter(v@[j]),
        decreases v@.len() - i,
    {
        i += 1;
    }
    proof {
        lemma_letter_run_exact(v@.skip(from as int), i - from);
    }
    i - from
}

proof fn lemma_letter_run_exact(s: Seq<char>, k: int)
    requires
        0 <= k <= s.len(),
        forall|j: int| 0 <= j < k ==> is_tag_letter(s[j]),
        k < s.len() ==> !is_tag_letter(s[k]),
    ensures
        letter_run(s) == k,
    decreases s.len(),
{
    if k > 0 {
        assert forall|j: int| 0 <= j < k - 1 implies is_tag_letter(s.drop_first()[j]) by {
            assert(s.drop_first()[j] == s[j + 1]);
        }
        if k - 1 < s.len() - 1 {
            assert(s.drop_first()[k - 1] == s[k]);
        }
        lemma_letter_run_exact(s.drop_first(), k - 1);
    } else {
        if s.len() > 0 {
            assert(!is_tag_letter(s[0]));
        }
    }
}

/// The tags of a template, each as its name and trimmed data.
pub fn tag_spans(v: &Vec<char>) -> (out: Vec<(Vec<char>, Vec<char>)>)
    ensures
        out@.map_values(|t: (Vec<char>, Vec<char>)| (t.0@, t.1@)) == tags_from(v@, 0),
{
    let mut out: Vec<(Vec<char>, Vec<char>)> = Vec::new();
    let mut p: usize = 0;
    while p < v.len()
        invariant
            p <= v@.len(),
            out@.map_values(|t: (Vec<char>, Vec<char>)| (t.0@, t.1@)) + tags_from(v@, p as int)
                == tags_from(v@, 0),
        decreases v@.len() - p,
    {
        let ghost before = out@.map_values(|t: (Vec<char>, Vec<char>)| (t.0@, t.1@));
        if v[p] == '<' && p + 1 < v.len() && 'a' <= v[p + 1] && v[p + 1] <= 'z' {
            let e = find_close(v, p + 1);
            assert(v@.skip(p + 1) == v@.skip((p + 1) as int));
            if e < v.len() {
                proof {
                    lemma_first_index_char(v@.skip(p + 1), '>');
                    assert(v@[e as int] == '>');
                }
                assert(tag_at(v@, p as int));
                let n = letters_at(v, p + 1);
                proof {
                    lemma_letter_run_bound(v@.skip(p + 1), e - p - 1);
                }
                let name = slice_chars(v, p + 1, p + 1 + n);
                let (a, b) = trim_bounds(&slice_chars(v, p + 1 + n, e));
                let body = slice_chars(&slice_chars(v, p + 1 + n, e), a, b);
                let ghost item = (name@, body@);
                proof {
                    assert(item == (v@.subrange(p + 1, p + 1 + n), trim(v@.subrange(p + 1 + n, e as int))));
                }
                out.push((name, body));
                assert(out@.map_values(|t: (Vec<char>, Vec<char>)| (t.0@, t.1@)) =~= before.push(item));
                assert(before + tags_from(v@, p as int) =~= before.push(item) + tags_from(v@, e + 1));
                p = e + 1;
                continue;
            }
            assert(!tag_at(v@, p as int));
        }
        assert(!tag_at(v@, p as int));
        p += 1;
    }
    out
}

/// `hex::decode` on characters.
pub fn hex_decode(v: &[char]) -> (r: Option<Vec<u8>>)
    ensures
        match r {
            Some(b) => spec_hex_decode(v@) == Some(b@),
            None => spec_hex_decode(v@) is None,
        },
{
    let n = v.len();
    if n % 2 != 0 {
        return None;
    }
    let mut out: Vec<u8> = Vec::new();
    let mut i: usize = 0;
    while i < n / 2
        invariant
            n == v@.len(),
            n % 2 == 0,
            i <= n / 2,
            out@.len() == i,
            forall|j: int| 0 <= j < 2 * i ==> is_hex(#[trigger] v@[j]),
            forall|j: int| 0 <= j < i ==> out@[j] == (hex_val(v@[2 * j]) * 16 + hex_val(v@[2 * j + 1])) as u8,
        decreases n / 2 - i,
    {
        let hi = hex_digit(v[2 * i]);
        let lo = hex_digit(v[2 * i + 1]);
        match (hi, lo) {
            (Some(h), Some(l)) => {
                out.push(h * 16 + l);
            },
            _ => {
                proof {
                    if hi is None {
                        assert(!is_hex(v@[2 * i as int]));
                    } else {
                        assert(!is_hex(v@[2 * i + 1]));
                    }
                }
                return None;
            },
        }
        i += 1;
    }
    assert(out@ =~= Seq::new((n / 2) as nat, |j: int| (hex_val(v@[2 * j]) * 16 + hex_val(v@[2 * j + 1])) as u8));
    Some(out)
}

fn hex_digit(c: char) -> (r: Option<u8>)
    ensures
        match r {
            Some(d) => is_hex(c) && d == hex_val(c) && d < 16,
            None => !is_hex(c),
        },
{
    if '0' <= c && c <= '9' {
        Some((c as u32 - '0' as u32) as u8)
    } else if 'a' <= c && c <= 'f' {
        Some((c as u32 - 'a' as u32 + 10) as u8)
    } else if 'A' <= c && c <= 'F' {
        Some((c as u32 - 'A' as u32 + 10) as u8)
    } else {
        None
    }
}


/// Every item a template makes is well formed.
pub proof fn lemma_template_items_wf(s: Seq<char>)
    ensures
        forall|i: int| 0 <= i < spec_cps_items(s).len() ==> item_wf(#[trigger] spec_cps_items(s)[i]),
{
    lemma_items_wf(tags_from(s, 0));
}

/// Whether a length is one a template can ask for: a range never runs
/// backwards.
pub open spec fn len_wf(l: CpsLen) -> bool {
    match l {
        CpsLen::Between(lo, hi) => lo <= hi,
        CpsLen::Fixed(_) => true,
    }
}

pub open spec fn item_wf(it: CpsItem) -> bool {
    match it {
        CpsItem::Random(l) => len_wf(l),
        CpsItem::Alpha(l) => len_wf(l),
        CpsItem::Digits(l) => len_wf(l),
        _ => true,
    }
}

proof fn lemma_items_wf(tags: Seq<(Seq<char>, Seq<char>)>)
    ensures
        forall|i: int| 0 <= i < items_of(tags).len() ==> item_wf(#[trigger] items_of(tags)[i]),
    decreases tags.len(),
{
    if tags.len() > 0 {
        let rest = items_of(tags.drop_last());
        lemma_items_wf(tags.drop_last());
        let d = tags.last().1;
        assert(len_wf(spec_cps_len(d)));
        match spec_cps_tag(tags.last().0, d) {
            Some(it) => {
                assert(item_wf(it));
                assert forall|i: int| 0 <= i < rest.len() implies rest.push(it)[i] == rest[i] by {}
            },
            None => {},
        }
    }
}

fn trim_chars(v: &[char]) -> (r: Vec<char>)
    ensures
        r@ == trim(v@),
{
    let (a, b) = trim_bounds(v);
    slice_chars(v, a, b)
}

fn count_value(v: &[char]) -> (n: usize)
    ensures
        n == count_or_zero(v@),
{
    let t = trim_chars(v);
    match parse_unsigned_chars(&t, usize::MAX as u64) {
        Some(n) => n as usize,
        None => 0,
    }
}

/// The length a random tag's data asks for.
pub fn cps_len(data: &[char]) -> (l: CpsLen)
    ensures
        l == spec_cps_len(data@),
{
    let k = crate::text::find_char(data, '-');
    proof {
        lemma_first_index_char(data@, '-');
    }
    let whole = count_value(data);
    let fixed = CpsLen::Fixed(if whole <= MAX_RANDOM_RUN { whole } else { MAX_RANDOM_RUN });
    if k < data.len() {
        let rest = slice_chars(data, k + 1, data.len());
        assert(rest@ =~= data@.skip(k + 1));
        let k2 = crate::text::find_char(&rest, '-');
        proof {
            lemma_first_index_char(rest@, '-');
        }
        let first = slice_chars(data, 0, k);
        assert(first@ =~= data@.take(k as int));
        let second = slice_chars(&rest, 0, k2);
        assert(second@ =~= rest@.take(k2 as int));
        let lo = count_value(&first);
        let hi = count_value(&second);
        if hi > lo && lo > 0 {
            CpsLen::Between(lo, hi)
        } else {
            fixed
        }
    } else {
        fixed
    }
}

fn strip_ws(v: &[char]) -> (r: Vec<char>)
    ensures
        r@ == without_ws(v@),
{
    let mut r: Vec<char> = Vec::new();
    let mut i: usize = 0;
    while i < v.len()
        invariant
            i <= v@.len(),
            r@ == without_ws(v@.take(i as int)),
        decreases v@.len() - i,
    {
        assert(v@.take(i + 1).drop_last() =~= v@.take(i as int));
        if !is_ws_exec(v[i]) {
            r.push(v[i]);
        }
        i += 1;
    }
    assert(v@.take(v@.len() as int) =~= v@);
    r
}

fn hex_body(v: &[char]) -> (r: Vec<char>)
    ensures
        r@ == strip_hex_prefix(v@),
{
    if v.len() >= 2 && v[0] == '0' && (v[1] == 'x' || v[1] == 'X') {
        let r = slice_chars(v, 2, v.len());
        assert(r@ =~= v@.skip(2));
        r
    } else {
        slice_chars(v, 0, v.len())
    }
}

fn is_name(name: &[char], a: char, b: Option<char>) -> (r: bool)
    ensures
        r == (name@ == match b {
            Some(c) => seq![a, c],
            None => seq![a],
        }),
{
    match b {
        Some(c) => {
            let r = name.len() == 2 && name[0] == a && name[1] == c;
            proof {
                if r {
                    assert(name@ =~= seq![a, c]);
                } else if name@.len() == 2 {
                    assert(name@[0] != seq![a, c][0] || name@[1] != seq![a, c][1]);
                }
            }
            r
        },
        None => {
            let r = name.len() == 1 && name[0] == a;
            proof {
                if r {
                    assert(name@ =~= seq![a]);
                } else if name@.len() == 1 {
                    assert(name@[0] != seq![a][0]);
                }
            }
            r
        },
    }
}

/// What a tag's name and data make, if anything.
pub fn cps_tag(name: &[char], data: &[char]) -> (r: Option<CpsTag>)
    ensures
        match r {
            Some(t) => spec_cps_tag(name@, data@) == Some(t@),
            None => spec_cps_tag(name@, data@) is None,
        },
{
    if is_name(name, 'b', None) {
        let body = hex_body(&strip_ws(data));
        match hex_decode(&body) {
            Some(b) => Some(CpsTag::Bytes(b)),
            None => None,
        }
    } else if is_name(name, 't', None) {
        Some(CpsTag::Timestamp)
    } else if is_name(name, 'c', None) {
        Some(CpsTag::Counter)
    } else if is_name(name, 'n', None) {
        Some(CpsTag::Nonce)
    } else if is_name(name, 'r', None) {
        Some(CpsTag::Random(cps_len(data)))
    } else if is_name(name, 'r', Some('c')) {
        Some(CpsTag::Alpha(cps_len(data)))
    } else if is_name(name, 'r', Some('d')) {
        Some(CpsTag::Digits(cps_len(data)))
    } else {
        None
    }
}

/// The items a template makes, in order.
pub fn cps_tags(spec: &str) -> (tags: Vec<CpsTag>)
    ensures
        tags@.map_values(|t: CpsTag| t@) == spec_cps_items(spec@),
{
    let v = crate::text::chars_of(spec);
    let spans = tag_spans(&v);
    let ghost sv = spans@.map_values(|t: (Vec<char>, Vec<char>)| (t.0@, t.1@));
    let mut tags: Vec<CpsTag> = Vec::new();
    let mut i: usize = 0;
    while i < spans.len()
        invariant
            i <= spans@.len(),
            sv == spans@.map_values(|t: (Vec<char>, Vec<char>)| (t.0@, t.1@)),
            tags@.map_values(|t: CpsTag| t@) == items_of(sv.take(i as int)),
        decreases spans@.len() - i,
    {
        assert(sv.take(i + 1).drop_last() =~= sv.take(i as int));
        assert(sv.take(i + 1).last() == sv[i as int]);
        let ghost before = tags@.map_values(|t: CpsTag| t@);
        match cps_tag(&spans[i].0, &spans[i].1) {
            Some(t) => {
                tags.push(t);
                assert(tags@.map_values(|t: CpsTag| t@) =~= before.push(t@));
            },
            None => {},
        }
        i += 1;
    }
    assert(sv.take(spans@.len() as int) =~= sv);
    tags
}

/// A length drawn for a random tag.
fn draw_len(l: CpsLen) -> (n: usize)
    requires
        len_wf(l),
    ensures
        len_fits(l, n as int),
{
    match l {
        CpsLen::Fixed(f) => f,
        CpsLen::Between(lo, hi) => {
            let d = crate::rng::random_between(lo, hi);
            if d <= MAX_RANDOM_RUN { d } else { MAX_RANDOM_RUN }
        },
    }
}

/// One tag expanded: literal bytes as given, the clock, or fresh random
/// draws of the asked-for length.
pub fn render_tag(tag: &CpsTag) -> (piece: Vec<u8>)
    requires
        item_wf(tag@),
    ensures
        piece_fits(tag@, piece@),
{
    match tag {
        CpsTag::Bytes(b) => {
            let out = crate::bytes::copy_range(b, 0, b.len());
            assert(out@ =~= b@);
            out
        },
        CpsTag::Timestamp => {
            let secs = crate::rng::unix_time_secs();
            clock_piece(false, secs)
        },
        CpsTag::Counter => {
            let secs = crate::rng::unix_time_secs();
            clock_piece(true, secs)
        },
        CpsTag::Nonce => {
            let n = crate::rng::random_u64();
            nonce_piece(n)
        },
        CpsTag::Random(l) => {
            let n = draw_len(*l);
            if n > 0 {
                crate::rng::random_bytes(n)
            } else {
                Vec::new()
            }
        },
        CpsTag::Alpha(l) => {
            let n = draw_len(*l);
            let mut out: Vec<u8> = Vec::new();
            let mut i: usize = 0;
            while i < n
                invariant
                    i <= n,
                    out@.len() == i,
                    forall|j: int| 0 <= j < i ==> is_ascii_alpha(#[trigger] out@[j]),
                decreases n - i,
            {
                let k = crate::rng::random_below(52);
                let c: u8 = if k < 26 { 97 + k as u8 } else { 65 + (k - 26) as u8 };
                out.push(c);
                i += 1;
            }
            out
        },
        CpsTag::Digits(l) => {
            let n = draw_len(*l);
            let mut out: Vec<u8> = Vec::new();
            let mut i: usize = 0;
            while i < n
                invariant
                    i <= n,
                    out@.len() == i,
                    forall|j: int| 0 <= j < i ==> is_ascii_digit(#[trigger] out@[j]),
                decreases n - i,
            {
                let k = crate::rng::random_below(10);
                out.push(48 + k as u8);
                i += 1;
            }
            out
        },
    }
}

/// Expands a template: each tag's piece in order, text outside tags and tags
/// that make nothing left out.
pub fn expand(tags: &Vec<CpsTag>) -> (out: Vec<u8>)
    requires
        forall|i: int| 0 <= i < tags@.len() ==> item_wf(#[trigger] tags@[i]@),
    ensures
        expands_to(tags@.map_values(|t: CpsTag| t@), out@),
{
    let ghost items = tags@.map_values(|t: CpsTag| t@);
    let mut out: Vec<u8> = Vec::new();
    let ghost mut pieces: Seq<Seq<u8>> = seq![];
    let mut i: usize = 0;
    while i < tags.len()
        invariant
            i <= tags@.len(),
            items == tags@.map_values(|t: CpsTag| t@),
            forall|k: int| 0 <= k < tags@.len() ==> item_wf(#[trigger] tags@[k]@),
            pieces.len() == i,
            concat(pieces) == out@,
            forall|k: int| 0 <= k < i ==> piece_fits(items[k], #[trigger] pieces[k]),
        decreases tags@.len() - i,
    {
        let piece = render_tag(&tags[i]);
        crate::bytes::extend(&mut out, &piece);
        proof {
            let np = pieces.push(piece@);
            assert(np.drop_last() =~= pieces);
            assert forall|k: int| 0 <= k < i + 1 implies piece_fits(items[k], #[trigger] np[k]) by {
                if k < i {
                    assert(np[k] == pieces[k]);
                }
            }
            pieces = np;
        }
        i += 1;
    }
    assert(concat(pieces) == out@);
    out
}


} // verus!
