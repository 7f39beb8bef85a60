//! Character-level helpers shared by the name and record-value grammars:
//! ASCII case folding, separator splitting, and decimal / hexadecimal
//! numerals.

use vstd::prelude::*;

verus! {

/// ASCII case folding of one character; everything outside `A`..`Z` is kept.
pub open spec fn lower_char(c: char) -> char {
    if 65 <= c as u32 && c as u32 <= 90 {
        ((c as u32 + 32) as u8) as char
    } else {
        c
    }
}

/// ASCII case folding of a whole string.
pub open spec fn lower(s: Seq<char>) -> Seq<char> {
    Seq::new(s.len(), |i: int| lower_char(s[i]))
}

/// A string is folded when case folding leaves it unchanged.
pub open spec fn is_folded(s: Seq<char>) -> bool {
    forall|i: int| 0 <= i < s.len() ==> lower_char(#[trigger] s[i]) == s[i]
}

pub proof fn lemma_lower_char_folded(c: char)
    ensures
        lower_char(lower_char(c)) == lower_char(c),
{
    if 65 <= c as u32 && c as u32 <= 90 {
        let d = ((c as u32 + 32) as u8) as char;
        assert(d as u32 == c as u32 + 32);
    }
}

/// Case folding leaves nothing left to fold.
pub proof fn lemma_lower_is_folded(s: Seq<char>)
    ensures
        is_folded(lower(s)),
{
    assert forall|i: int| 0 <= i < lower(s).len() implies lower_char(
        #[trigger] lower(s)[i],
    ) == lower(s)[i] by {
        lemma_lower_char_folded(s[i]);
    }
}

pub proof fn lemma_lower_folded(s: Seq<char>)
    requires
        is_folded(s),
    ensures
        lower(s) == s,
{
    assert(lower(s) =~= s);
}

/// Splitting at every occurrence of `sep`; the result always has one part
/// more than the string has separators, so it is never empty.
pub open spec fn split_chars(s: Seq<char>, sep: char) -> Seq<Seq<char>>
    decreases s.len(),
{
    if s.len() == 0 {
        seq![Seq::<char>::empty()]
    } else if s[0] == sep {
        seq![Seq::<char>::empty()] + split_chars(s.drop_first(), sep)
    } else {
        let rest = split_chars(s.drop_first(), sep);
        seq![seq![s[0]] + rest[0]] + rest.drop_first()
    }
}

pub proof fn lemma_split_chars_len(s: Seq<char>, sep: char)
    ensures
        split_chars(s, sep).len() >= 1,
    decreases s.len(),
{
    if s.len() > 0 {
        lemma_split_chars_len(s.drop_first(), sep);
    }
}

pub open spec fn is_digit(c: char) -> bool {
    48 <= c as u32 && c as u32 <= 57
}

pub open spec fn is_digits(s: Seq<char>) -> bool {
    s.len() >= 1 && forall|i: int| 0 <= i < s.len() ==> is_digit(#[trigger] s[i])
}

/// The value of a string of decimal digits.
pub open spec fn dec_val(s: Seq<char>) -> int
    decreases s.len(),
{
    if s.len() == 0 {
        0
    } else {
        dec_val(s.drop_last()) * 10 + (s.last() as u32 - 48)
    }
}

pub open spec fn is_hex_digit(c: char) -> bool {
    is_digit(c) || (97 <= c as u32 && c as u32 <= 102) || (65 <= c as u32 && c as u32 <= 70)
}

pub open spec fn is_hex_digits(s: Seq<char>) -> bool {
    s.len() >= 1 && forall|i: int| 0 <= i < s.len() ==> is_hex_digit(#[trigger] s[i])
}

pub open spec fn hex_digit_val(c: char) -> int {
    if is_digit(c) {
        c as u32 - 48
    } else if 97 <= c as u32 && c as u32 <= 102 {
        c as u32 - 87
    } else {
        c as u32 - 55
    }
}

/// The value of a string of hexadecimal digits.
pub open spec fn hex_val(s: Seq<char>) -> int
    decreases s.len(),
{
    if s.len() == 0 {
        0
    } else {
        hex_val(s.drop_last()) * 16 + hex_digit_val(s.last())
    }
}

proof fn lemma_dec_val_nonneg(s: Seq<char>)
    requires
        forall|i: int| 0 <= i < s.len() ==> is_digit(#[trigger] s[i]),
    ensures
        dec_val(s) >= 0,
    decreases s.len(),
{
    if s.len() > 0 {
        assert(forall|i: int|
            0 <= i < s.drop_last().len() ==> is_digit(#[trigger] s.drop_last()[i]));
        lemma_dec_val_nonneg(s.drop_last());
    }
}

/// On digit strings the value of a prefix never exceeds the value of the whole.
proof fn lemma_dec_val_prefix(s: Seq<char>, n: int)
    requires
        forall|i: int| 0 <= i < s.len() ==> is_digit(#[trigger] s[i]),
        0 <= n <= s.len(),
    ensures
        dec_val(s.subrange(0, n)) <= dec_val(s),
    decreases s.len() - n,
{
    if n == s.len() {
        assert(s.subrange(0, n) =~= s);
    } else {
        lemma_dec_val_prefix(s, n + 1);
        let p = s.subrange(0, n + 1);
        assert(p.drop_last() =~= s.subrange(0, n));
        lemma_dec_val_nonneg(s.subrange(0, n));
        assert(dec_val(p) == dec_val(s.subrange(0, n)) * 10 + (p.last() as u32 - 48));
    }
}

spec fn pow16(n: nat) -> int
    decreases n,
{
    if n == 0 {
        1
    } else {
        16 * pow16((n - 1) as nat)
    }
}

proof fn lemma_hex_val_pow_bound(s: Seq<char>)
    requires
        forall|i: int| 0 <= i < s.len() ==> is_hex_digit(#[trigger] s[i]),
    ensures
        0 <= hex_val(s) < pow16(s.len()),
    decreases s.len(),
{
    if s.len() > 0 {
        assert(forall|i: int|
            0 <= i < s.drop_last().len() ==> is_hex_digit(#[trigger] s.drop_last()[i]));
        lemma_hex_val_pow_bound(s.drop_last());
        assert(0 <= hex_digit_val(s.last()) <= 15);
    }
}

proof fn lemma_hex_val_bound(s: Seq<char>)
    requires
        forall|i: int| 0 <= i < s.len() ==> is_hex_digit(#[trigger] s[i]),
        s.len() <= 4,
    ensures
        0 <= hex_val(s) < 0x10000,
{
    lemma_hex_val_pow_bound(s);
    assert(pow16(0) == 1);
    assert(pow16(1) == 16);
    assert(pow16(2) == 256);
    assert(pow16(3) == 4096);
    assert(pow16(4) == 65536);
    if s.len() == 0 {
    } else if s.len() == 1 {
    } else if s.len() == 2 {
    } else if s.len() == 3 {
    } else {
        assert(s.len() == 4);
    }
}

/// Relies on `String::push`: appends the given character to the end of the
/// string.
#[verifier::external_body]
pub fn push_char(s: &mut String, c: char)
    ensures
        final(s)@ == old(s)@.push(c),
{
    s.push(c)
}

/// Whether two string slices hold the same characters.
pub fn str_eq(a: &str, b: &str) -> (r: bool)
    ensures
        r == (a@ == b@),
{
    let oa = String::from_str(a);
    let ob = String::from_str(b);
    oa == ob
}

/// ASCII case folding, character by character.
pub fn lower_str(s: &str) -> (r: String)
    ensures
        r@ == lower(s@),
{
    let n = s.unicode_len();
    let mut r = String::new();
    let mut i: usize = 0;
    while i < n
        invariant
            n == s@.len(),
            0 <= i <= n,
            r@ =~= lower(s@.subrange(0, i as int)),
        decreases n - i,
    {
        let c = s.get_char(i);
        let u = c as u32;
        let lc: char = if 65 <= u && u <= 90 {
            ((u + 32) as u8) as char
        } else {
            c
        };
        assert(lc == lower_char(s@[i as int]));
        push_char(&mut r, lc);
        assert(r@ =~= lower(s@.subrange(0, i + 1 as int)));
        i = i + 1;
    }
    proof {
        assert(s@.subrange(0, n as int) =~= s@);
    }
    r
}

/// The views of a vector of strings.
pub open spec fn views_of_strings(v: Seq<String>) -> Seq<Seq<char>> {
    v.map_values(|p: String| p@)
}

/// Split a string at every occurrence of `sep`, mirroring `split_chars`.
pub fn split_str(s: &str, sep: char) -> (parts: Vec<String>)
    ensures
        views_of_strings(parts@) == split_chars(s@, sep),
        parts@.len() >= 1,
    decreases s@.len(),
{
    let n = s.unicode_len();
    if n == 0 {
        let mut parts: Vec<String> = Vec::new();
        parts.push(String::new());
        proof {
            assert(views_of_strings(parts@) =~~= split_chars(s@, sep));
        }
        parts
    } else {
        let c = s.get_char(0);
        let rest = s.substring_char(1, n);
        proof {
            assert(rest@ =~= s@.drop_first());
        }
        let mut parts = split_str(rest, sep);
        proof {
            lemma_split_chars_len(rest@, sep);
        }
        if c == sep {
            parts.insert(0, String::new());
            proof {
                assert(views_of_strings(parts@) =~~= seq![Seq::<char>::empty()] + split_chars(
                    s@.drop_first(),
                    sep,
                ));
            }
        } else {
            let head = parts.remove(0);
            let mut grown = String::new();
            push_char(&mut grown, c);
            grown.append(head.as_str());
            parts.insert(0, grown);
            proof {
                let rsplit = split_chars(s@.drop_first(), sep);
                assert(grown@ =~= seq![s@[0]] + rsplit[0]);
                assert(views_of_strings(parts@) =~~= seq![seq![s@[0]] + rsplit[0]]
                    + rsplit.drop_first());
            }
        }
        parts
    }
}

/// Parse a string of decimal digits, rejecting values over `max`.
pub fn dec_value_checked(s: &str, max: u32) -> (r: Option<u32>)
    requires
        max <= 0xFFFF,
    ensures
        match r {
            Some(v) => is_digits(s@) && dec_val(s@) == v && v <= max,
            None => !(is_digits(s@) && dec_val(s@) <= max),
        },
{
    let n = s.unicode_len();
    if n == 0 {
        return None;
    }
    let mut i: usize = 0;
    while i < n
        invariant
            n == s@.len(),
            0 <= i <= n,
            forall|j: int| 0 <= j < i ==> is_digit(#[trigger] s@[j]),
        decreases n - i,
    {
        let c = s.get_char(i);
        let u = c as u32;
        if !(48 <= u && u <= 57) {
            return None;
        }
        i = i + 1;
    }
    let mut acc: u32 = 0;
    let mut k: usize = 0;
    while k < n
        invariant
            n == s@.len(),
            n >= 1,
            max <= 0xFFFF,
            0 <= k <= n,
            forall|j: int| 0 <= j < n ==> is_digit(#[trigger] s@[j]),
            acc == dec_val(s@.subrange(0, k as int)),
            acc <= max,
        decreases n - k,
    {
        let c = s.get_char(k);
        let d = c as u32 - 48;
        proof {
            assert(s@.subrange(0, k + 1 as int).drop_last() =~= s@.subrange(0, k as int));
        }
        let next: u32 = acc * 10 + d;
        if next > max {
            proof {
                lemma_dec_val_prefix(s@, k + 1);
            }
            return None;
        }
        acc = next;
        k = k + 1;
    }
    proof {
        assert(s@.subrange(0, n as int) =~= s@);
    }
    Some(acc)
}

/// Parse a group of at most four hexadecimal digits.
pub fn hex_value(s: &str) -> (r: Option<u16>)
    ensures
        match r {
            Some(v) => is_hex_digits(s@) && s@.len() <= 4 && hex_val(s@) == v,
            None => !(is_hex_digits(s@) && s@.len() <= 4),
        },
{
    let n = s.unicode_len();
    if n == 0 || n > 4 {
        return None;
    }
    let mut i: usize = 0;
    let mut acc: u32 = 0;
    while i < n
        invariant
            n == s@.len(),
            1 <= n <= 4,
            0 <= i <= n,
            forall|j: int| 0 <= j < i ==> is_hex_digit(#[trigger] s@[j]),
            acc == hex_val(s@.subrange(0, i as int)),
            acc < 0x10000,
        decreases n - i,
    {
        let c = s.get_char(i);
        let u = c as u32;
        let d: u32 = if 48 <= u && u <= 57 {
            u - 48
        } else if 97 <= u && u <= 102 {
            u - 87
        } else if 65 <= u && u <= 70 {
            u - 55
        } else {
            return None;
        };
        proof {
            assert(s@.subrange(0, i + 1 as int).drop_last() =~= s@.subrange(0, i as int));
            assert(is_hex_digit(s@[i as int]));
            assert(d == hex_digit_val(s@[i as int]));
            lemma_hex_val_bound(s@.subrange(0, i + 1 as int));
        }
        acc = acc * 16 + d;
        i = i + 1;
    }
    proof {
        assert(s@.subrange(0, n as int) =~= s@);
        lemma_hex_val_bound(s@);
    }
    Some(acc as u16)
}

} // verus!
