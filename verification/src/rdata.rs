//! Typed wire data for records, and the per-kind grammars that turn a
//! textual record value into it: IPv4 and IPv6 addresses, domain names,
//! MX priority/exchange pairs, and TXT payload chunking.

use vstd::prelude::*;

use crate::name::{parse_name_spec, DomainName};
use crate::record::{RecordType, RecordValue};
use crate::text::{
    dec_val, hex_val, hex_value, is_digits, is_hex_digits, split_chars, split_str,
    dec_value_checked, views_of_strings,
};
use vstd::utf8::{char_is_scalar, encode_scalar, encode_utf8, is_ascii_chars};

verus! {

/// SOA fields: primary master, responsible mailbox, and the five timers.
#[derive(Debug)]
pub struct SoaData {
    pub mname: DomainName,
    pub rname: DomainName,
    pub serial: u32,
    pub refresh: u32,
    pub retry: u32,
    pub expire: u32,
    pub minimum: u32,
}

/// The abstract contents of a `SoaData`.
pub struct SoaDataV {
    pub mname: Seq<char>,
    pub rname: Seq<char>,
    pub serial: u32,
    pub refresh: u32,
    pub retry: u32,
    pub expire: u32,
    pub minimum: u32,
}

impl View for SoaData {
    type V = SoaDataV;

    open spec fn view(&self) -> SoaDataV {
        SoaDataV {
            mname: self.mname@,
            rname: self.rname@,
            serial: self.serial,
            refresh: self.refresh,
            retry: self.retry,
            expire: self.expire,
            minimum: self.minimum,
        }
    }
}

impl Clone for SoaData {
    fn clone(&self) -> (r: Self)
        ensures
            r == *self,
    {
        SoaData {
            mname: self.mname.clone(),
            rname: self.rname.clone(),
            serial: self.serial,
            refresh: self.refresh,
            retry: self.retry,
            expire: self.expire,
            minimum: self.minimum,
        }
    }
}

/// Typed wire data of one record.
#[derive(Debug)]
pub enum RData {
    A(u8, u8, u8, u8),
    AAAA(u16, u16, u16, u16, u16, u16, u16, u16),
    CNAME(DomainName),
    MX(u16, DomainName),
    TXT(Vec<String>),
    PTR(DomainName),
    SOA(SoaData),
    NS(DomainName),
}

/// The abstract contents of an `RData`.
pub enum RDataV {
    A(u8, u8, u8, u8),
    AAAA(u16, u16, u16, u16, u16, u16, u16, u16),
    CNAME(Seq<char>),
    MX(u16, Seq<char>),
    TXT(Seq<Seq<char>>),
    PTR(Seq<char>),
    SOA(SoaDataV),
    NS(Seq<char>),
}

impl View for RData {
    type V = RDataV;

    open spec fn view(&self) -> RDataV {
        match *self {
            RData::A(a, b, c, d) => RDataV::A(a, b, c, d),
            RData::AAAA(a, b, c, d, e, f, g, h) => RDataV::AAAA(a, b, c, d, e, f, g, h),
            RData::CNAME(n) => RDataV::CNAME(n@),
            RData::MX(p, n) => RDataV::MX(p, n@),
            RData::TXT(v) => RDataV::TXT(v@.map_values(|x: String| x@)),
            RData::PTR(n) => RDataV::PTR(n@),
            RData::SOA(d) => RDataV::SOA(d@),
            RData::NS(n) => RDataV::NS(n@),
        }
    }
}

impl Clone for RData {
    fn clone(&self) -> (r: Self)
        ensures
            r@ == self@,
    {
        match self {
            RData::A(a, b, c, d) => RData::A(*a, *b, *c, *d),
            RData::AAAA(a, b, c, d, e, f, g, h) => RData::AAAA(*a, *b, *c, *d, *e, *f, *g, *h),
            RData::CNAME(n) => RData::CNAME(n.clone()),
            RData::MX(p, n) => RData::MX(*p, n.clone()),
            RData::TXT(v) => {
                let mut items: Vec<String> = Vec::new();
                let mut i: usize = 0;
                while i < v.len()
                    invariant
                        0 <= i <= v.len(),
                        items@.len() == i,
                        forall|j: int| 0 <= j < i ==> items@[j] == v@[j],
                    decreases v.len() - i,
                {
                    items.push(v[i].clone());
                    i = i + 1;
                }
                proof {
                    assert(items@ =~= v@);
                }
                RData::TXT(items)
            },
            RData::PTR(n) => RData::PTR(n.clone()),
            RData::SOA(d) => RData::SOA(d.clone()),
            RData::NS(n) => RData::NS(n.clone()),
        }
    }
}

/// A decimal IPv4 octet: up to three digits, no leading zero, at most 255.
pub open spec fn dec_octet_ok(s: Seq<char>) -> bool {
    is_digits(s) && s.len() <= 3 && (s.len() > 1 ==> s[0] != '0') && dec_val(s) <= 255
}

/// The dotted-quad IPv4 grammar.
pub open spec fn ipv4_spec(s: Seq<char>) -> Option<(u8, u8, u8, u8)> {
    let ps = split_chars(s, '.');
    if ps.len() == 4 && dec_octet_ok(ps[0]) && dec_octet_ok(ps[1]) && dec_octet_ok(ps[2])
        && dec_octet_ok(ps[3]) {
        Some(
            (
                dec_val(ps[0]) as u8,
                dec_val(ps[1]) as u8,
                dec_val(ps[2]) as u8,
                dec_val(ps[3]) as u8,
            ),
        )
    } else {
        None
    }
}

/// One IPv6 group: one to four hexadecimal digits.
pub open spec fn hex_group_ok(s: Seq<char>) -> bool {
    is_hex_digits(s) && s.len() <= 4
}

pub open spec fn groups_ok(ps: Seq<Seq<char>>) -> bool {
    forall|i: int| 0 <= i < ps.len() ==> hex_group_ok(#[trigger] ps[i])
}

pub open spec fn group_vals(ps: Seq<Seq<char>>) -> Seq<u16> {
    ps.map_values(|p: Seq<char>| hex_val(p) as u16)
}

pub open spec fn zero_groups(n: int) -> Seq<u16> {
    Seq::new(n as nat, |i: int| 0u16)
}

/// The position of the first empty part, or a negative value if none.
pub open spec fn find_empty(ps: Seq<Seq<char>>) -> int
    decreases ps.len(),
{
    if ps.len() == 0 {
        -1
    } else if ps[0].len() == 0 {
        0
    } else if find_empty(ps.drop_first()) < 0 {
        -1
    } else {
        find_empty(ps.drop_first()) + 1
    }
}

/// The two groups an embedded dotted-quad tail stands for.
pub open spec fn v4_groups(t: (u8, u8, u8, u8)) -> Seq<u16> {
    seq![
        ((t.0 as u16) * 256 + (t.1 as u16)) as u16,
        ((t.2 as u16) * 256 + (t.3 as u16)) as u16,
    ]
}

/// The colon-separated IPv6 grammar: eight hexadecimal groups, or fewer
/// with one `::` run standing for the missing zero groups; the last two
/// groups may instead be written as an embedded dotted-quad IPv4 tail.
pub open spec fn ipv6_groups(s: Seq<char>) -> Option<Seq<u16>> {
    let ps = split_chars(s, ':');
    let n = ps.len() as int;
    if n == 8 && groups_ok(ps) {
        Some(group_vals(ps))
    } else if n == 7 && groups_ok(ps.take(6)) && ipv4_spec(ps[6]) is Some {
        Some(group_vals(ps.take(6)) + v4_groups(ipv4_spec(ps[6])->Some_0))
    } else if n == 3 && ps[0].len() == 0 && ps[1].len() == 0 && ps[2].len() == 0 {
        Some(zero_groups(8))
    } else {
        let i = find_empty(ps);
        if i == 0 && n >= 3 && ps[1].len() == 0 && n - 2 <= 7 && groups_ok(ps.skip(2)) {
            Some(zero_groups(8 - (n - 2)) + group_vals(ps.skip(2)))
        } else if i == 0 && n >= 3 && ps[1].len() == 0 && n - 1 <= 7 && groups_ok(
            ps.skip(2).take(n - 3),
        ) && ipv4_spec(ps[n - 1]) is Some {
            Some(
                zero_groups(8 - (n - 1)) + group_vals(ps.skip(2).take(n - 3)) + v4_groups(
                    ipv4_spec(ps[n - 1])->Some_0,
                ),
            )
        } else if i == n - 2 && n >= 3 && ps[n - 1].len() == 0 && n - 2 <= 7 && groups_ok(
            ps.take(n - 2),
        ) {
            Some(group_vals(ps.take(n - 2)) + zero_groups(8 - (n - 2)))
        } else if 1 <= i && i <= n - 2 && n - 1 <= 7 && groups_ok(ps.take(i)) && groups_ok(
            ps.skip(i + 1),
        ) {
            Some(group_vals(ps.take(i)) + zero_groups(8 - (n - 1)) + group_vals(ps.skip(i + 1)))
        } else if 1 <= i && i <= n - 2 && n <= 7 && groups_ok(ps.take(i)) && groups_ok(
            ps.skip(i + 1).take(n - i - 2),
        ) && ipv4_spec(ps[n - 1]) is Some {
            Some(
                group_vals(ps.take(i)) + zero_groups(8 - n) + group_vals(
                    ps.skip(i + 1).take(n - i - 2),
                ) + v4_groups(ipv4_spec(ps[n - 1])->Some_0),
            )
        } else {
            None
        }
    }
}

/// The MX value grammar: a decimal priority, one space, an exchange name;
/// anything after a second space is ignored.
pub open spec fn mx_spec(s: Seq<char>) -> Option<(u16, Seq<char>)> {
    let ps = split_chars(s, ' ');
    let p0 = ps[0];
    let p1 = if ps.len() >= 2 {
        ps[1]
    } else {
        Seq::<char>::empty()
    };
    let t = if p0.len() > 0 && p0[0] == '+' {
        p0.drop_first()
    } else {
        p0
    };
    if is_digits(t) && dec_val(t) <= 0xFFFF && parse_name_spec(p1) is Some {
        Some(((dec_val(t) as u16), parse_name_spec(p1)->Some_0))
    } else {
        None
    }
}

/// The UTF-8 byte length of one character.
pub open spec fn char_utf8_len(c: char) -> int {
    encode_scalar(c as u32).len() as int
}

/// The UTF-8 byte length of a string of characters.
pub open spec fn utf8_len(s: Seq<char>) -> int {
    encode_utf8(s).len() as int
}

/// How many leading characters fit a byte budget, greedily.
pub open spec fn fit_count(s: Seq<char>, budget: int) -> int
    decreases s.len(),
{
    if s.len() == 0 {
        0
    } else if char_utf8_len(s[0]) > budget {
        0
    } else {
        1 + fit_count(s.drop_first(), budget - char_utf8_len(s[0]))
    }
}

proof fn lemma_char_utf8_len_bounds(c: char)
    ensures
        1 <= char_utf8_len(c) <= 4,
{
    char_is_scalar(c);
}

proof fn lemma_fit_count_range(s: Seq<char>, budget: int)
    ensures
        0 <= fit_count(s, budget) <= s.len(),
    decreases s.len(),
{
    if s.len() > 0 && char_utf8_len(s[0]) <= budget {
        lemma_fit_count_range(s.drop_first(), budget - char_utf8_len(s[0]));
    }
}

proof fn lemma_fit_count_pos(s: Seq<char>, budget: int)
    requires
        s.len() > 0,
        budget >= 4,
    ensures
        fit_count(s, budget) >= 1,
{
    lemma_char_utf8_len_bounds(s[0]);
    lemma_fit_count_range(s.drop_first(), budget - char_utf8_len(s[0]));
}

/// UTF-8 encoding distributes over concatenation.
proof fn lemma_encode_utf8_concat(a: Seq<char>, b: Seq<char>)
    ensures
        encode_utf8(a + b) == encode_utf8(a) + encode_utf8(b),
    decreases a.len(),
{
    if a.len() == 0 {
        assert(a + b =~= b);
        assert(encode_utf8(a) + encode_utf8(b) =~= encode_utf8(b));
    } else {
        assert((a + b)[0] == a[0]);
        assert((a + b).drop_first() =~= a.drop_first() + b);
        lemma_encode_utf8_concat(a.drop_first(), b);
        assert(encode_scalar(a[0] as u32) + (encode_utf8(a.drop_first()) + encode_utf8(b))
            =~= (encode_scalar(a[0] as u32) + encode_utf8(a.drop_first())) + encode_utf8(b));
    }
}

/// Appending one character adds its encoding's length.
proof fn lemma_utf8_len_snoc(s: Seq<char>, c: char)
    ensures
        utf8_len(s.push(c)) == utf8_len(s) + char_utf8_len(c),
{
    assert(s.push(c) =~= s + seq![c]);
    lemma_encode_utf8_concat(s, seq![c]);
    assert(seq![c].drop_first() =~= Seq::<char>::empty());
    assert(encode_utf8(seq![c]) == encode_scalar(c as u32) + encode_utf8(seq![c].drop_first()));
    assert(encode_scalar(c as u32) + Seq::<u8>::empty() =~= encode_scalar(c as u32));
}

/// The characters a byte budget admits encode within that budget.
proof fn lemma_fit_count_bytes(s: Seq<char>, budget: int)
    requires
        budget >= 0,
    ensures
        utf8_len(s.take(fit_count(s, budget))) <= budget,
    decreases s.len(),
{
    let k = fit_count(s, budget);
    lemma_fit_count_range(s, budget);
    if s.len() == 0 || char_utf8_len(s[0]) > budget {
        assert(s.take(0) =~= Seq::<char>::empty());
    } else {
        let rest = s.drop_first();
        lemma_fit_count_bytes(rest, budget - char_utf8_len(s[0]));
        lemma_fit_count_range(rest, budget - char_utf8_len(s[0]));
        let kr = fit_count(rest, budget - char_utf8_len(s[0]));
        assert(s.take(k) =~= seq![s[0]] + rest.take(kr));
        lemma_encode_utf8_concat(seq![s[0]], rest.take(kr));
        assert(seq![s[0]].drop_first() =~= Seq::<char>::empty());
        assert(encode_utf8(seq![s[0]]) == encode_scalar(s[0] as u32) + encode_utf8(
            seq![s[0]].drop_first(),
        ));
        assert(encode_scalar(s[0] as u32) + Seq::<u8>::empty() =~= encode_scalar(s[0] as u32));
    }
}

/// TXT payload chunking: greedy pieces of at most 255 bytes each, split
/// only at character boundaries.
pub open spec fn txt_chunks(s: Seq<char>) -> Seq<Seq<char>>
    decreases s.len(),
    via txt_chunks_decreases
{
    if s.len() == 0 {
        Seq::<Seq<char>>::empty()
    } else {
        let k = if fit_count(s, 255) >= 1 {
            fit_count(s, 255)
        } else {
            1
        };
        seq![s.take(k)] + txt_chunks(s.skip(k))
    }
}

#[via_fn]
proof fn txt_chunks_decreases(s: Seq<char>) {
    lemma_fit_count_range(s, 255);
}

/// The joined contents of a sequence of chunks.
pub open spec fn concat_chunks(cs: Seq<Seq<char>>) -> Seq<char>
    decreases cs.len(),
{
    if cs.len() == 0 {
        Seq::<char>::empty()
    } else {
        cs[0] + concat_chunks(cs.drop_first())
    }
}

/// The joined UTF-8 bytes of a sequence of chunks.
pub open spec fn concat_chunk_bytes(cs: Seq<Seq<char>>) -> Seq<u8>
    decreases cs.len(),
{
    if cs.len() == 0 {
        Seq::<u8>::empty()
    } else {
        encode_utf8(cs[0]) + concat_chunk_bytes(cs.drop_first())
    }
}

/// Chunking never loses or reorders anything: each piece is at most 255
/// bytes and at least one character, and the pieces join back to the
/// payload, character for character and byte for byte.
pub proof fn lemma_txt_chunks(s: Seq<char>)
    ensures
        concat_chunks(txt_chunks(s)) == s,
        concat_chunk_bytes(txt_chunks(s)) == encode_utf8(s),
        forall|i: int|
            0 <= i < txt_chunks(s).len() ==> utf8_len(#[trigger] txt_chunks(s)[i]) <= 255,
        forall|i: int| 0 <= i < txt_chunks(s).len() ==> #[trigger] txt_chunks(s)[i].len() >= 1,
        s.len() >= 1 ==> txt_chunks(s).len() >= 1,
    decreases s.len(),
{
    if s.len() == 0 {
        assert(concat_chunks(txt_chunks(s)) =~= s);
        assert(concat_chunk_bytes(txt_chunks(s)) =~= encode_utf8(s));
    } else {
        lemma_fit_count_pos(s, 255);
        lemma_fit_count_range(s, 255);
        let k = fit_count(s, 255);
        lemma_fit_count_bytes(s, 255);
        lemma_txt_chunks(s.skip(k));
        let cs = txt_chunks(s);
        let rest = txt_chunks(s.skip(k));
        assert(cs == seq![s.take(k)] + rest);
        assert(cs[0] == s.take(k));
        assert(cs.drop_first() =~= rest);
        assert(s.take(k) + s.skip(k) =~= s);
        assert(concat_chunks(cs) == s.take(k) + concat_chunks(rest));
        assert(concat_chunks(cs) =~= s);
        lemma_encode_utf8_concat(s.take(k), s.skip(k));
        assert(concat_chunk_bytes(cs) == encode_utf8(s.take(k)) + concat_chunk_bytes(rest));
        assert(concat_chunk_bytes(cs) =~= encode_utf8(s));
        assert(forall|i: int| 1 <= i < cs.len() ==> cs[i] == rest[i - 1]);
    }
}

fn parse_octet(s: &str) -> (r: Option<u8>)
    ensures
        match r {
            Some(v) => dec_octet_ok(s@) && dec_val(s@) == v,
            None => !dec_octet_ok(s@),
        },
{
    let n = s.unicode_len();
    if n == 0 || n > 3 {
        return None;
    }
    if n > 1 && s.get_char(0) == '0' {
        return None;
    }
    match dec_value_checked(s, 255) {
        Some(v) => Some(v as u8),
        None => None,
    }
}

/// Parse a dotted-quad IPv4 address.
fn parse_ipv4(s: &str) -> (r: Option<(u8, u8, u8, u8)>)
    ensures
        r == ipv4_spec(s@),
{
    let parts = split_str(s, '.');
    proof {
        assert(views_of_strings(parts@).len() == parts@.len());
    }
    if parts.len() != 4 {
        return None;
    }
    let a = parse_octet(parts[0].as_str());
    let b = parse_octet(parts[1].as_str());
    let c = parse_octet(parts[2].as_str());
    let d = parse_octet(parts[3].as_str());
    match (a, b, c, d) {
        (Some(a), Some(b), Some(c), Some(d)) => Some((a, b, c, d)),
        _ => None,
    }
}

fn hex_groups_range(parts: &Vec<String>, from: usize, to: usize) -> (r: Option<Vec<u16>>)
    requires
        from <= to <= parts@.len(),
    ensures
        ({
            let ps = views_of_strings(parts@).subrange(from as int, to as int);
            match r {
                Some(v) => groups_ok(ps) && v@ == group_vals(ps),
                None => !groups_ok(ps),
            }
        }),
{
    let ghost ps = views_of_strings(parts@).subrange(from as int, to as int);
    let mut v: Vec<u16> = Vec::new();
    let mut i: usize = from;
    while i < to
        invariant
            from <= i <= to <= parts@.len(),
            ps == views_of_strings(parts@).subrange(from as int, to as int),
            forall|j: int| 0 <= j < i - from ==> hex_group_ok(#[trigger] ps[j]),
            v@ =~= group_vals(views_of_strings(parts@).subrange(from as int, i as int)),
        decreases to - i,
    {
        proof {
            assert(ps[i - from] == parts@[i as int]@);
        }
        match hex_value(parts[i].as_str()) {
            Some(h) => {
                v.push(h);
                proof {
                    assert(v@ =~= group_vals(
                        views_of_strings(parts@).subrange(from as int, i + 1 as int),
                    ));
                }
            },
            None => {
                proof {
                    assert(!hex_group_ok(ps[i - from]));
                }
                return None;
            },
        }
        i = i + 1;
    }
    proof {
        assert(v@ =~= group_vals(ps));
        assert(groups_ok(ps));
    }
    Some(v)
}

proof fn lemma_find_empty_at(ps: Seq<Seq<char>>, i: int)
    requires
        0 <= i < ps.len(),
        ps[i].len() == 0,
        forall|j: int| 0 <= j < i ==> (#[trigger] ps[j]).len() > 0,
    ensures
        find_empty(ps) == i,
    decreases i,
{
    if i > 0 {
        let t = ps.drop_first();
        assert(forall|j: int| 0 <= j < i - 1 ==> (#[trigger] t[j]).len() > 0);
        lemma_find_empty_at(t, i - 1);
    }
}

proof fn lemma_find_empty_none(ps: Seq<Seq<char>>)
    requires
        forall|j: int| 0 <= j < ps.len() ==> (#[trigger] ps[j]).len() > 0,
    ensures
        find_empty(ps) < 0,
    decreases ps.len(),
{
    if ps.len() > 0 {
        lemma_find_empty_none(ps.drop_first());
    }
}

fn fill8(left: &Vec<u16>, right: &Vec<u16>) -> (r: (u16, u16, u16, u16, u16, u16, u16, u16))
    requires
        left@.len() + right@.len() <= 8,
    ensures
        seq![r.0, r.1, r.2, r.3, r.4, r.5, r.6, r.7] == left@ + zero_groups(
            8 - left@.len() - right@.len(),
        ) + right@,
{
    let mut out: Vec<u16> = Vec::new();
    let mut i: usize = 0;
    while i < left.len()
        invariant
            0 <= i <= left@.len(),
            out@ =~= left@.subrange(0, i as int),
        decreases left@.len() - i,
    {
        out.push(left[i]);
        i = i + 1;
    }
    let zeros = 8 - left.len() - right.len();
    let mut k: usize = 0;
    while k < zeros
        invariant
            0 <= k <= zeros,
            out@ =~= left@ + zero_groups(k as int),
        decreases zeros - k,
    {
        out.push(0);
        proof {
            assert(out@ =~= left@ + zero_groups(k + 1 as int));
        }
        k = k + 1;
    }
    let mut m: usize = 0;
    while m < right.len()
        invariant
            0 <= m <= right@.len(),
            out@ =~= left@ + zero_groups((8 - left@.len() - right@.len()) as int) + right@.subrange(
                0,
                m as int,
            ),
        decreases right@.len() - m,
    {
        out.push(right[m]);
        m = m + 1;
    }
    proof {
        assert(out@ =~= left@ + zero_groups((8 - left@.len() - right@.len()) as int) + right@);
        assert(out@.len() == 8);
    }
    let r = (out[0], out[1], out[2], out[3], out[4], out[5], out[6], out[7]);
    proof {
        assert(seq![r.0, r.1, r.2, r.3, r.4, r.5, r.6, r.7] =~= out@);
    }
    r
}

/// Append the two groups of an embedded dotted-quad tail.
fn push_v4_groups(v: &mut Vec<u16>, t: (u8, u8, u8, u8))
    ensures
        final(v)@ == old(v)@ + v4_groups(t),
{
    v.push((t.0 as u16) * 256 + (t.1 as u16));
    v.push((t.2 as u16) * 256 + (t.3 as u16));
    proof {
        assert(v@ =~= old(v)@ + v4_groups(t));
    }
}

/// Parse a textual IPv6 address into its eight groups.
#[verifier::rlimit(60)]
fn parse_ipv6(s: &str) -> (r: Option<(u16, u16, u16, u16, u16, u16, u16, u16)>)
    ensures
        match r {
            Some(t) => ipv6_groups(s@) == Some(seq![t.0, t.1, t.2, t.3, t.4, t.5, t.6, t.7]),
            None => ipv6_groups(s@) is None,
        },
{
    let parts = split_str(s, ':');
    let n = parts.len();
    let ghost ps = views_of_strings(parts@);
    proof {
        assert(ps == split_chars(s@, ':'));
        assert(n >= 1);
    }
    let empty_right: Vec<u16> = Vec::new();
    if n == 8 {
        let direct = hex_groups_range(&parts, 0, 8);
        if let Some(v) = direct {
            proof {
                assert(ps.subrange(0, 8) =~= ps);
            }
            let t = fill8(&v, &empty_right);
            proof {
                assert(seq![t.0, t.1, t.2, t.3, t.4, t.5, t.6, t.7] =~= group_vals(ps));
            }
            return Some(t);
        }
        proof {
            assert(ps.subrange(0, 8) =~= ps);
            assert(!groups_ok(ps));
        }
    }
    if n == 7 {
        let hexes = hex_groups_range(&parts, 0, 6);
        let v4 = parse_ipv4(parts[6].as_str());
        proof {
            assert(ps.subrange(0, 6) =~= ps.take(6));
            assert(ps[6] == parts@[6]@);
        }
        if let (Some(l), Some(t4)) = (hexes, v4) {
            let mut full = l;
            push_v4_groups(&mut full, t4);
            let t = fill8(&full, &empty_right);
            proof {
                assert(seq![t.0, t.1, t.2, t.3, t.4, t.5, t.6, t.7] =~= group_vals(ps.take(6))
                    + v4_groups(ipv4_spec(ps[6])->Some_0));
            }
            return Some(t);
        }
    }
    let e0 = parts[0].as_str().unicode_len() == 0;
    if n == 3 && e0 && parts[1].as_str().unicode_len() == 0 && parts[2].as_str().unicode_len()
        == 0 {
        let t = fill8(&empty_right, &empty_right);
        proof {
            assert(seq![t.0, t.1, t.2, t.3, t.4, t.5, t.6, t.7] =~= zero_groups(8));
        }
        return Some(t);
    }
    let mut fe: usize = 0;
    let mut found = false;
    let mut k: usize = 0;
    while k < n
        invariant
            0 <= k <= n,
            n == ps.len(),
            ps == views_of_strings(parts@),
            n == parts@.len(),
            !found ==> forall|j: int| 0 <= j < k ==> (#[trigger] ps[j]).len() > 0,
            found ==> fe < k && ps[fe as int].len() == 0 && (forall|j: int|
                0 <= j < fe ==> (#[trigger] ps[j]).len() > 0),
        decreases n - k,
    {
        if !found && parts[k].as_str().unicode_len() == 0 {
            fe = k;
            found = true;
        }
        k = k + 1;
    }
    if !found {
        proof {
            lemma_find_empty_none(ps);
        }
        return None;
    }
    proof {
        lemma_find_empty_at(ps, fe as int);
    }
    let i = fe;
    if i == 0 && n >= 3 && parts[1].as_str().unicode_len() == 0 {
        if n - 2 <= 7 {
            if let Some(v) = hex_groups_range(&parts, 2, n) {
                proof {
                    assert(ps.subrange(2, n as int) =~= ps.skip(2));
                }
                let t = fill8(&empty_right, &v);
                return Some(t);
            }
            proof {
                assert(ps.subrange(2, n as int) =~= ps.skip(2));
            }
        }
        if n - 1 <= 7 {
            let mid = hex_groups_range(&parts, 2, n - 1);
            let v4 = parse_ipv4(parts[n - 1].as_str());
            proof {
                assert(ps.subrange(2, n - 1 as int) =~= ps.skip(2).take(n - 3));
                assert(ps[n - 1] == parts@[n - 1]@);
            }
            if let (Some(m), Some(t4)) = (mid, v4) {
                let mut right = m;
                push_v4_groups(&mut right, t4);
                let t = fill8(&empty_right, &right);
                proof {
                    assert(seq![t.0, t.1, t.2, t.3, t.4, t.5, t.6, t.7] =~= zero_groups(8 - (n - 1))
                        + group_vals(ps.skip(2).take(n - 3)) + v4_groups(
                        ipv4_spec(ps[n - 1])->Some_0,
                    ));
                }
                return Some(t);
            }
        }
        return None;
    }
    if n >= 3 && i == n - 2 && parts[n - 1].as_str().unicode_len() == 0 && n - 2 <= 7 {
        if let Some(v) = hex_groups_range(&parts, 0, n - 2) {
            proof {
                assert(ps.subrange(0, n - 2 as int) =~= ps.take(n - 2));
            }
            let t = fill8(&v, &empty_right);
            return Some(t);
        }
        proof {
            assert(ps.subrange(0, n - 2 as int) =~= ps.take(n - 2));
        }
        return None;
    }
    if 1 <= i && n >= 3 && i <= n - 2 {
        proof {
            assert(ps.subrange(0, i as int) =~= ps.take(i as int));
        }
        if n - 1 <= 7 {
            let left = hex_groups_range(&parts, 0, i);
            let right = hex_groups_range(&parts, i + 1, n);
            proof {
                assert(ps.subrange(i + 1 as int, n as int) =~= ps.skip(i + 1));
            }
            if let (Some(l), Some(rr)) = (left, right) {
                let t = fill8(&l, &rr);
                return Some(t);
            }
        }
        if n <= 7 {
            let left = hex_groups_range(&parts, 0, i);
            let mid = hex_groups_range(&parts, i + 1, n - 1);
            let v4 = parse_ipv4(parts[n - 1].as_str());
            proof {
                assert(ps.subrange(i + 1 as int, n - 1 as int) =~= ps.skip(i + 1).take(n - i - 2));
                assert(ps[n - 1] == parts@[n - 1]@);
            }
            if let (Some(l), Some(m), Some(t4)) = (left, mid, v4) {
                let mut right = m;
                push_v4_groups(&mut right, t4);
                let t = fill8(&l, &right);
                proof {
                    assert(seq![t.0, t.1, t.2, t.3, t.4, t.5, t.6, t.7] =~= group_vals(
                        ps.take(i as int),
                    ) + zero_groups(8 - n) + group_vals(ps.skip(i + 1).take(n - i - 2)) + v4_groups(
                        ipv4_spec(ps[n - 1])->Some_0,
                    ));
                }
                return Some(t);
            }
        }
        return None;
    }
    None
}

/// Parse an MX value: priority, space, exchange name.
fn parse_mx(s: &str) -> (r: Option<(u16, DomainName)>)
    ensures
        match r {
            Some(t) => mx_spec(s@) == Some((t.0, t.1@)) && t.1.wf(),
            None => mx_spec(s@) is None,
        },
{
    let parts = split_str(s, ' ');
    let ghost ps = views_of_strings(parts@);
    let p0 = parts[0].as_str();
    let n0 = p0.unicode_len();
    let plus = n0 > 0 && p0.get_char(0) == '+';
    let t: &str = if plus {
        p0.substring_char(1, n0)
    } else {
        p0
    };
    proof {
        assert(ps[0] == parts@[0]@);
        if plus {
            assert(t@ =~= ps[0].drop_first());
        }
    }
    let pr = dec_value_checked(t, 0xFFFF);
    let exch: &str = if parts.len() >= 2 {
        parts[1].as_str()
    } else {
        proof {
            reveal_strlit("");
        }
        ""
    };
    proof {
        if parts@.len() >= 2 {
            assert(ps[1] == parts@[1]@);
        }
    }
    match (pr, DomainName::parse(exch)) {
        (Some(p), Some(d)) => Some((p as u16, d)),
        _ => None,
    }
}

/// The UTF-8 byte length of one character, from its scalar value.
fn char_len(c: char) -> (r: usize)
    ensures
        r == char_utf8_len(c),
{
    proof {
        char_is_scalar(c);
    }
    let u = c as u32;
    if u <= 0x7F {
        1
    } else if u <= 0x7FF {
        2
    } else if u <= 0xFFFF {
        3
    } else {
        4
    }
}

/// Whether the next character still fits the 255-byte chunk budget.
fn next_fits(s: &str, j: usize, b: usize) -> (r: bool)
    requires
        j < s@.len(),
        b <= 255,
    ensures
        r == (b + char_utf8_len(s@[j as int]) <= 255),
{
    let cl = char_len(s.get_char(j));
    b + cl <= 255
}

/// Chunk a TXT payload greedily into pieces of at most 255 bytes,
/// splitting only at character boundaries; only the empty payload fails.
fn chunk_txt(s: &str) -> (r: Option<Vec<String>>)
    ensures
        match r {
            Some(v) => s@.len() >= 1 && views_of_strings(v@) == txt_chunks(s@),
            None => s@.len() == 0,
        },
{
    let n = s.unicode_len();
    if n == 0 {
        return None;
    }
    let mut out: Vec<String> = Vec::new();
    let mut i: usize = 0;
    proof {
        assert(s@.skip(0) =~= s@);
        assert(views_of_strings(out@) + txt_chunks(s@.skip(0)) =~~= txt_chunks(s@));
    }
    while i < n
        invariant
            n == s@.len(),
            0 <= i <= n,
            txt_chunks(s@) =~~= views_of_strings(out@) + txt_chunks(s@.skip(i as int)),
        decreases n - i,
    {
        let ghost tail = s@.skip(i as int);
        let mut j: usize = i;
        let mut b: usize = 0;
        proof {
            assert(tail.skip(0) =~= tail);
            assert(s@.subrange(i as int, i as int) =~= Seq::<char>::empty());
        }
        while j < n && next_fits(s, j, b)
            invariant
                n == s@.len(),
                tail == s@.skip(i as int),
                0 <= i <= j <= n,
                b == utf8_len(s@.subrange(i as int, j as int)),
                b <= 255,
                fit_count(tail, 255) == (j - i) + fit_count(s@.skip(j as int), 255 - b),
            decreases n - j,
        {
            let c = s.get_char(j);
            let cl = char_len(c);
            proof {
                lemma_utf8_len_snoc(s@.subrange(i as int, j as int), s@[j as int]);
                assert(s@.subrange(i as int, j + 1 as int) =~= s@.subrange(
                    i as int,
                    j as int,
                ).push(s@[j as int]));
                let rest = s@.skip(j as int);
                assert(rest[0] == s@[j as int]);
                assert(rest.drop_first() =~= s@.skip(j + 1 as int));
                assert(fit_count(rest, 255 - b) == 1 + fit_count(
                    s@.skip(j + 1 as int),
                    255 - b - char_utf8_len(s@[j as int]),
                ));
            }
            b = b + cl;
            j = j + 1;
        }
        proof {
            if j < n {
                let rest = s@.skip(j as int);
                assert(rest[0] == s@[j as int]);
                assert(char_utf8_len(s@[j as int]) > 255 - b);
                assert(fit_count(rest, 255 - b) == 0);
            } else {
                assert(s@.skip(j as int) =~= Seq::<char>::empty());
            }
            assert(fit_count(tail, 255) == j - i);
            if j == i {
                lemma_fit_count_pos(tail, 255);
                assert(false);
            }
        }
        let piece = s.substring_char(i, j);
        proof {
            let k = fit_count(tail, 255);
            assert(k == j - i);
            assert(piece@ =~= s@.subrange(i as int, j as int));
            assert(tail.take(k) =~= s@.subrange(i as int, j as int));
            assert(tail.skip(k) =~= s@.skip(j as int));
            assert(txt_chunks(tail) == seq![tail.take(k)] + txt_chunks(tail.skip(k)));
        }
        out.push(String::from_str(piece));
        proof {
            assert(txt_chunks(s@) =~~= views_of_strings(out@) + txt_chunks(s@.skip(j as int)));
        }
        i = j;
    }
    proof {
        assert(s@.skip(n as int) =~= Seq::<char>::empty());
        assert(txt_chunks(s@.skip(n as int)) =~= Seq::<Seq<char>>::empty());
        assert(views_of_strings(out@) =~~= txt_chunks(s@));
    }
    Some(out)
}

proof fn lemma_fit_count_ascii(s: Seq<char>, budget: int)
    requires
        is_ascii_chars(s),
        budget >= 0,
    ensures
        fit_count(s, budget) == (if s.len() <= budget {
            s.len() as int
        } else {
            budget
        }),
    decreases s.len(),
{
    if s.len() > 0 {
        assert('\0' <= s[0] <= '\u{7f}');
        assert(char_utf8_len(s[0]) == 1);
        if budget >= 1 {
            assert(forall|j: int|
                0 <= j < s.drop_first().len() ==> (s.drop_first()[j]) == s[j + 1]);
            assert(is_ascii_chars(s.drop_first()));
            lemma_fit_count_ascii(s.drop_first(), budget - 1);
        }
    }
}

/// On an ASCII payload a byte is a character, so the greedy split gives
/// ASCII chunks of exactly 255 characters, the last aside.
pub proof fn lemma_txt_chunks_ascii(s: Seq<char>)
    requires
        is_ascii_chars(s),
    ensures
        forall|i: int|
            0 <= i < txt_chunks(s).len() ==> is_ascii_chars(#[trigger] txt_chunks(s)[i]),
        forall|i: int|
            0 <= i < txt_chunks(s).len() - 1 ==> (#[trigger] txt_chunks(s)[i]).len() == 255,
    decreases s.len(),
{
    if s.len() > 0 {
        lemma_fit_count_ascii(s, 255);
        lemma_fit_count_pos(s, 255);
        let k = fit_count(s, 255);
        assert(forall|j: int| 0 <= j < s.skip(k).len() ==> (s.skip(k)[j]) == s[j + k]);
        assert(is_ascii_chars(s.skip(k)));
        lemma_txt_chunks_ascii(s.skip(k));
        let cs = txt_chunks(s);
        let rest = txt_chunks(s.skip(k));
        assert(cs == seq![s.take(k)] + rest);
        assert(forall|i: int| 1 <= i < cs.len() ==> cs[i] == rest[i - 1]);
        assert(forall|j: int| 0 <= j < s.take(k).len() ==> (s.take(k)[j]) == s[j]);
        assert(is_ascii_chars(s.take(k)));
        if s.len() > 255 {
            assert(k == 255);
        } else {
            assert(rest =~= Seq::<Seq<char>>::empty());
            assert(cs.len() == 1);
        }
    }
}

/// What typed data a textual value denotes for a given record kind.
pub open spec fn rdata_of(v: Seq<char>, kind: RecordType) -> Option<RDataV> {
    match kind {
        RecordType::A => match ipv4_spec(v) {
            Some(t) => Some(RDataV::A(t.0, t.1, t.2, t.3)),
            None => None,
        },
        RecordType::AAAA => match ipv6_groups(v) {
            Some(g) => Some(RDataV::AAAA(g[0], g[1], g[2], g[3], g[4], g[5], g[6], g[7])),
            None => None,
        },
        RecordType::CNAME => match parse_name_spec(v) {
            Some(n) => Some(RDataV::CNAME(n)),
            None => None,
        },
        RecordType::MX => match mx_spec(v) {
            Some(t) => Some(RDataV::MX(t.0, t.1)),
            None => None,
        },
        RecordType::TXT => if v.len() >= 1 {
            Some(RDataV::TXT(txt_chunks(v)))
        } else {
            None
        },
        RecordType::PTR => match parse_name_spec(v) {
            Some(n) => Some(RDataV::PTR(n)),
            None => None,
        },
    }
}

impl RecordValue {
    /// Parse this value as typed wire data for the given record kind; a
    /// value outside the kind's grammar is invalid.
    pub fn to_wire(&self, record_type: &RecordType) -> (r: Result<RData, ()>)
        ensures
            match r {
                Ok(d) => rdata_of(self@, *record_type) == Some(d@),
                Err(_) => rdata_of(self@, *record_type) is None,
            },
    {
        match record_type {
            RecordType::A => match parse_ipv4(self.to_str()) {
                Some(t) => Ok(RData::A(t.0, t.1, t.2, t.3)),
                None => Err(()),
            },
            RecordType::AAAA => match parse_ipv6(self.to_str()) {
                Some(t) => {
                    proof {
                        let g = seq![t.0, t.1, t.2, t.3, t.4, t.5, t.6, t.7];
                        assert(ipv6_groups(self@) == Some(g));
                        assert(g[0] == t.0 && g[1] == t.1 && g[2] == t.2 && g[3] == t.3 && g[4]
                            == t.4 && g[5] == t.5 && g[6] == t.6 && g[7] == t.7);
                    }
                    Ok(RData::AAAA(t.0, t.1, t.2, t.3, t.4, t.5, t.6, t.7))
                },
                None => Err(()),
            },
            RecordType::CNAME => match DomainName::parse(self.to_str()) {
                Some(n) => Ok(RData::CNAME(n)),
                None => Err(()),
            },
            RecordType::MX => match parse_mx(self.to_str()) {
                Some(t) => Ok(RData::MX(t.0, t.1)),
                None => Err(()),
            },
            RecordType::TXT => match chunk_txt(self.to_str()) {
                Some(v) => {
                    proof {
                        assert(v@.map_values(|x: String| x@) == views_of_strings(v@));
                    }
                    Ok(RData::TXT(v))
                },
                None => Err(()),
            },
            RecordType::PTR => match DomainName::parse(self.to_str()) {
                Some(n) => Ok(RData::PTR(n)),
                None => Err(()),
            },
        }
    }
}

} // verus!
