//! Typed representation of DNS record kinds and internal record names.

use vstd::prelude::*;

use crate::name::{is_suffix_of, DomainName};
use crate::text::{is_folded, lower, lower_char, lower_str, push_char, str_eq};

verus! {

/// The closed set of record kinds that the store may hold.
#[derive(Clone, Copy, Debug, PartialEq, Eq, Hash, Structural)]
pub enum RecordType {
    A,
    AAAA,
    CNAME,
    MX,
    TXT,
    PTR,
}

/// Wire codes of the supported record kinds (RFC 1035 / RFC 3596).
pub const WIRE_TYPE_A: u16 = 1;

pub const WIRE_TYPE_NS: u16 = 2;

pub const WIRE_TYPE_CNAME: u16 = 5;

pub const WIRE_TYPE_SOA: u16 = 6;

pub const WIRE_TYPE_PTR: u16 = 12;

pub const WIRE_TYPE_MX: u16 = 15;

pub const WIRE_TYPE_TXT: u16 = 16;

pub const WIRE_TYPE_AAAA: u16 = 28;

/// The textual label of each record kind, as accepted by `from_str`.
pub open spec fn rt_to_text(t: RecordType) -> Seq<char> {
    match t {
        RecordType::A => "a"@,
        RecordType::AAAA => "aaaa"@,
        RecordType::CNAME => "cname"@,
        RecordType::MX => "mx"@,
        RecordType::TXT => "txt"@,
        RecordType::PTR => "ptr"@,
    }
}

/// The wire type code of each supported record kind.
pub open spec fn rt_to_code(t: RecordType) -> u16 {
    match t {
        RecordType::A => WIRE_TYPE_A,
        RecordType::AAAA => WIRE_TYPE_AAAA,
        RecordType::CNAME => WIRE_TYPE_CNAME,
        RecordType::MX => WIRE_TYPE_MX,
        RecordType::TXT => WIRE_TYPE_TXT,
        RecordType::PTR => WIRE_TYPE_PTR,
    }
}

/// Which record kind, if any, a wire type code denotes.
pub open spec fn rt_from_code(code: u16) -> Option<RecordType> {
    if code == WIRE_TYPE_A {
        Some(RecordType::A)
    } else if code == WIRE_TYPE_AAAA {
        Some(RecordType::AAAA)
    } else if code == WIRE_TYPE_CNAME {
        Some(RecordType::CNAME)
    } else if code == WIRE_TYPE_MX {
        Some(RecordType::MX)
    } else if code == WIRE_TYPE_TXT {
        Some(RecordType::TXT)
    } else if code == WIRE_TYPE_PTR {
        Some(RecordType::PTR)
    } else {
        None
    }
}

impl RecordType {
    /// Parse a lowercase textual record kind; any other string is rejected.
    pub fn from_str(value: &str) -> (r: Option<RecordType>)
        ensures
            match r {
                Some(t) => value@ == rt_to_text(t),
                None => forall|t: RecordType| value@ != rt_to_text(t),
            },
    {
        proof {
            reveal_strlit("a");
            reveal_strlit("aaaa");
            reveal_strlit("cname");
            reveal_strlit("mx");
            reveal_strlit("txt");
            reveal_strlit("ptr");
        }
        let v = String::from_str(value);
        if v == String::from_str("a") {
            Some(RecordType::A)
        } else if v == String::from_str("aaaa") {
            Some(RecordType::AAAA)
        } else if v == String::from_str("cname") {
            Some(RecordType::CNAME)
        } else if v == String::from_str("mx") {
            Some(RecordType::MX)
        } else if v == String::from_str("txt") {
            Some(RecordType::TXT)
        } else if v == String::from_str("ptr") {
            Some(RecordType::PTR)
        } else {
            None
        }
    }

    /// Map a wire type code onto the supported set; any other code is unsupported.
    pub fn from_wire(code: u16) -> (r: Result<RecordType, ()>)
        ensures
            match r {
                Ok(t) => rt_from_code(code) == Some(t),
                Err(_) => rt_from_code(code) is None,
            },
    {
        if code == WIRE_TYPE_A {
            Ok(RecordType::A)
        } else if code == WIRE_TYPE_AAAA {
            Ok(RecordType::AAAA)
        } else if code == WIRE_TYPE_CNAME {
            Ok(RecordType::CNAME)
        } else if code == WIRE_TYPE_MX {
            Ok(RecordType::MX)
        } else if code == WIRE_TYPE_TXT {
            Ok(RecordType::TXT)
        } else if code == WIRE_TYPE_PTR {
            Ok(RecordType::PTR)
        } else {
            Err(())
        }
    }

    /// The lowercase textual label of this record kind.
    pub fn to_str(&self) -> (r: &'static str)
        ensures
            r@ == rt_to_text(*self),
    {
        match *self {
            RecordType::A => "a",
            RecordType::AAAA => "aaaa",
            RecordType::CNAME => "cname",
            RecordType::MX => "mx",
            RecordType::TXT => "txt",
            RecordType::PTR => "ptr",
        }
    }

    /// The wire type code of this record kind; total over the supported set.
    pub fn to_wire(&self) -> (r: Result<u16, ()>)
        ensures
            r == Ok::<u16, ()>(rt_to_code(*self)),
    {
        match *self {
            RecordType::A => Ok(WIRE_TYPE_A),
            RecordType::AAAA => Ok(WIRE_TYPE_AAAA),
            RecordType::CNAME => Ok(WIRE_TYPE_CNAME),
            RecordType::MX => Ok(WIRE_TYPE_MX),
            RecordType::TXT => Ok(WIRE_TYPE_TXT),
            RecordType::PTR => Ok(WIRE_TYPE_PTR),
        }
    }

    /// All supported record kinds, in a fixed order.
    pub fn list_choices() -> (r: Vec<RecordType>)
        ensures
            r@ == seq![
                RecordType::A,
                RecordType::AAAA,
                RecordType::CNAME,
                RecordType::MX,
                RecordType::TXT,
                RecordType::PTR,
            ],
    {
        let mut v: Vec<RecordType> = Vec::new();
        v.push(RecordType::A);
        v.push(RecordType::AAAA);
        v.push(RecordType::CNAME);
        v.push(RecordType::MX);
        v.push(RecordType::TXT);
        v.push(RecordType::PTR);
        proof {
            assert(v@ =~= seq![
                RecordType::A,
                RecordType::AAAA,
                RecordType::CNAME,
                RecordType::MX,
                RecordType::TXT,
                RecordType::PTR,
            ]);
        }
        v
    }
}

/// Every supported record kind survives the trip onto the wire and back:
/// `from_wire(to_wire(t)) == Ok(t)`.
pub proof fn lemma_record_type_wire_round_trip(t: RecordType)
    ensures
        rt_from_code(rt_to_code(t)) == Some(t),
{
}

/// Characters a record-name label part may hold: anything but the six
/// delimiters reserved by the grammar.
pub open spec fn rn_char_ok(c: char) -> bool {
    c != '\\' && c != '/' && c != ':' && c != '@' && c != '&' && c != '*'
}

/// One or more label characters followed by a final dot.
pub open spec fn rn_body_ok(b: Seq<char>) -> bool {
    b.len() >= 2 && b.last() == '.' && (forall|i: int|
        0 <= i < b.len() - 1 ==> rn_char_ok(#[trigger] b[i]))
}

/// The part of a record name covered by the optional wildcard prefix.
pub open spec fn rn_body_of(r: Seq<char>) -> Seq<char> {
    if r.len() >= 2 && r[0] == '*' && r[1] == '.' {
        r.skip(2)
    } else {
        r
    }
}

/// What may stand before the `@` sentinel: nothing (the apex), the bare
/// wildcard prefix `*.`, or an optional `*.` followed by one or more
/// dot-terminated label characters.
pub open spec fn rn_prefix_ok(r: Seq<char>) -> bool {
    r.len() == 0 || r == seq!['*', '.'] || (r.len() >= 1 && r.last() == '.' && rn_body_ok(
        rn_body_of(r),
    ))
}

/// The record-name grammar: an optional wildcard prefix, an optional
/// dot-terminated run of labels, then the `@` apex sentinel.
pub open spec fn valid_record_name(s: Seq<char>) -> bool {
    s.len() >= 1 && s.last() == '@' && rn_prefix_ok(s.drop_last())
}

/// What parsing a record name yields: the grammar checked on the raw
/// string, then case folding.
pub open spec fn rn_parse_spec(s: Seq<char>) -> Option<Seq<char>> {
    if valid_record_name(s) {
        Some(lower(s))
    } else {
        None
    }
}

proof fn lemma_valid_rn_lower(s: Seq<char>)
    requires
        valid_record_name(s),
    ensures
        valid_record_name(lower(s)),
{
    let t = lower(s);
    assert(t.last() == s.last());
    let r = s.drop_last();
    let tr = t.drop_last();
    assert(tr =~= lower(r));
    if r.len() == 0 {
    } else if r == seq!['*', '.'] {
        assert(tr =~= seq!['*', '.']);
    } else {
        assert(rn_body_ok(rn_body_of(r)));
        assert(tr.last() == r.last());
        let star = r.len() >= 2 && r[0] == '*' && r[1] == '.';
        assert(tr[0] == lower_char(r[0]));
        assert(forall|c: char| lower_char(c) == '*' ==> c == '*');
        assert((tr.len() >= 2 && tr[0] == '*' && tr[1] == '.') == star);
        let b = rn_body_of(r);
        let tb = rn_body_of(tr);
        if star {
            assert(b == r.skip(2));
            assert(tb == tr.skip(2));
        } else {
            assert(b == r);
            assert(tb == tr);
        }
        assert(tb =~= lower(b));
        assert(tb.last() == b.last());
        assert forall|i: int| 0 <= i < tb.len() - 1 implies rn_char_ok(#[trigger] tb[i]) by {
            assert(rn_char_ok(b[i]));
            assert(tb[i] == lower_char(b[i]));
            assert(rn_char_ok(lower_char(b[i])));
        }
        assert(rn_body_ok(tb));
    }
}

/// A canonical record name survives being printed and parsed back:
/// `from_str` on the text of a well-formed name yields the name itself.
pub proof fn lemma_record_name_round_trip(s: Seq<char>)
    requires
        valid_record_name(s),
        is_folded(s),
    ensures
        rn_parse_spec(s) == Some(s),
{
    crate::text::lemma_lower_folded(s);
}

/// A record name in the zone-internal format: labels relative to the
/// zone apex, ending with the `@` sentinel, stored folded.
#[derive(Debug, PartialEq, Eq, Hash)]
pub struct RecordName {
    pub text: String,
}

impl View for RecordName {
    type V = Seq<char>;

    open spec fn view(&self) -> Seq<char> {
        self.text@
    }
}

impl Clone for RecordName {
    fn clone(&self) -> (r: Self)
        ensures
            r == *self,
    {
        RecordName { text: self.text.clone() }
    }
}

impl RecordName {
    /// Whether this name matches the grammar and is folded.
    pub open spec fn wf(&self) -> bool {
        valid_record_name(self@) && is_folded(self@)
    }

    /// Whether a string matches the record-name grammar.
    pub fn validate(value: &str) -> (r: bool)
        ensures
            r == valid_record_name(value@),
    {
        let n = value.unicode_len();
        if n == 0 {
            return false;
        }
        if value.get_char(n - 1) != '@' {
            return false;
        }
        let rlen = n - 1;
        let ghost rv = value@.drop_last();
        proof {
            assert(rv.len() == rlen);
            assert(forall|j: int| 0 <= j < rlen ==> rv[j] == value@[j]);
        }
        if rlen == 0 {
            return true;
        }
        if value.get_char(rlen - 1) != '.' {
            proof {
                assert(rv.last() != '.');
                assert(rv != seq!['*', '.']);
            }
            return false;
        }
        let star = rlen >= 2 && value.get_char(0) == '*' && value.get_char(1) == '.';
        if star && rlen == 2 {
            proof {
                assert(rv =~= seq!['*', '.']);
            }
            return true;
        }
        let b0: usize = if star {
            2
        } else {
            0
        };
        let ghost bv = rn_body_of(rv);
        proof {
            if star {
                assert(bv == rv.skip(2));
            } else {
                assert(bv == rv);
            }
            assert(bv.len() == rlen - b0);
            assert(forall|j: int| 0 <= j < bv.len() ==> bv[j] == value@[j + b0]);
            assert(rv != seq!['*', '.']);
        }
        if rlen - b0 < 2 {
            proof {
                assert(bv.len() < 2);
                assert(!rn_body_ok(bv));
                assert(!rn_prefix_ok(rv));
            }
            return false;
        }
        let mut i: usize = b0;
        while i < rlen - 1
            invariant
                n == value@.len(),
                n >= 1,
                rlen == n - 1,
                b0 <= i <= rlen - 1,
                b0 == 2 || b0 == 0,
                b0 < rlen,
                rv == value@.drop_last(),
                rv.len() == rlen,
                rv != seq!['*', '.'],
                value@.last() == '@',
                rv.last() == '.',
                bv == rn_body_of(rv),
                bv.len() == rlen - b0,
                bv.len() >= 2,
                forall|j: int| 0 <= j < bv.len() ==> bv[j] == value@[j + b0],
                forall|j: int| 0 <= j < i - b0 ==> rn_char_ok(#[trigger] bv[j]),
            decreases rlen - i,
        {
            let c = value.get_char(i);
            if c == '\\' || c == '/' || c == ':' || c == '@' || c == '&' || c == '*' {
                proof {
                    assert(bv[i - b0] == value@[i as int]);
                    assert(!rn_char_ok(bv[i - b0]));
                    assert(0 <= i - b0 < bv.len() - 1);
                    assert(!rn_body_ok(bv));
                    assert(!rn_prefix_ok(rv));
                }
                return false;
            }
            i = i + 1;
        }
        proof {
            assert(forall|j: int| 0 <= j < bv.len() - 1 ==> rn_char_ok(#[trigger] bv[j]));
            assert(bv.last() == value@[rlen - 1]);
            assert(rn_body_ok(bv));
            assert(rn_prefix_ok(rv));
        }
        true
    }

    /// Parse a record name, folding its case.
    pub fn from_str(value: &str) -> (r: Option<RecordName>)
        ensures
            match r {
                Some(m) => rn_parse_spec(value@) == Some(m@) && m.wf(),
                None => rn_parse_spec(value@) is None,
            },
    {
        if Self::validate(value) {
            let t = lower_str(value);
            proof {
                lemma_valid_rn_lower(value@);
                crate::text::lemma_lower_is_folded(value@);
            }
            Some(RecordName { text: t })
        } else {
            None
        }
    }

    /// The canonical text of the record name.
    pub fn to_str(&self) -> (r: &str)
        ensures
            r@ == self@,
    {
        self.text.as_str()
    }

    /// The name without its `@` sentinel; empty for the apex itself.
    pub fn to_subdomain(&self) -> (r: &str)
        ensures
            r@ == (if self@.len() > 1 {
                self@.drop_last()
            } else {
                Seq::<char>::empty()
            }),
    {
        let n = self.text.as_str().unicode_len();
        if n > 1 {
            let r = self.text.as_str().substring_char(0, n - 1);
            proof {
                assert(r@ =~= self@.drop_last());
            }
            r
        } else {
            proof {
                reveal_strlit("");
            }
            ""
        }
    }

    /// Whether two record names hold the same characters.
    pub fn same_as(&self, other: &RecordName) -> (r: bool)
        ensures
            r == (self@ == other@),
    {
        str_eq(self.text.as_str(), other.text.as_str())
    }
}

/// How a queried wire name projects onto the zone-internal format: the
/// zone origin is stripped as a suffix when present, then the `@`
/// sentinel is appended and the grammar applied.
pub open spec fn from_query_spec(zone: Seq<char>, query: Seq<char>) -> Option<Seq<char>> {
    let q = lower(query);
    let z = lower(zone);
    let stripped = if q.len() > 0 && q.last() == '.' && is_suffix_of(z, q) {
        q.take(q.len() - z.len())
    } else {
        q
    };
    rn_parse_spec(stripped.push('@'))
}

impl RecordName {
    /// Project a queried name onto the zone-internal format.
    pub fn from_query(zone: &DomainName, query_name: &DomainName) -> (r: Option<RecordName>)
        ensures
            match r {
                Some(m) => from_query_spec(zone@, query_name@) == Some(m@) && m.wf(),
                None => from_query_spec(zone@, query_name@) is None,
            },
    {
        let lq = lower_str(query_name.to_str());
        let lz = lower_str(zone.to_str());
        let qn = lq.as_str().unicode_len();
        let zn = lz.as_str().unicode_len();
        let ends = qn >= zn && str_eq(lq.as_str().substring_char(qn - zn, qn), lz.as_str());
        let strip = qn > 0 && lq.as_str().get_char(qn - 1) == '.' && ends;
        let mut s: String;
        if strip {
            s = String::from_str(lq.as_str().substring_char(0, qn - zn));
            proof {
                assert(s@ =~= lower(query_name@).take(qn - zn));
            }
        } else {
            s = lq;
        }
        push_char(&mut s, '@');
        Self::from_str(s.as_str())
    }
}

/// An opaque per-kind record value, e.g. `"1.2.3.4"` or a TXT payload.
#[derive(Debug, PartialEq, Eq, Hash)]
pub struct RecordValue {
    pub text: String,
}

impl View for RecordValue {
    type V = Seq<char>;

    open spec fn view(&self) -> Seq<char> {
        self.text@
    }
}

impl Clone for RecordValue {
    fn clone(&self) -> (r: Self)
        ensures
            r == *self,
    {
        RecordValue { text: self.text.clone() }
    }
}

impl RecordValue {
    /// Wrap a textual value.
    pub fn new(value: String) -> (r: RecordValue)
        ensures
            r@ == value@,
    {
        RecordValue { text: value }
    }

    /// The raw text of the value.
    pub fn to_str(&self) -> (r: &str)
        ensures
            r@ == self@,
    {
        self.text.as_str()
    }
}

/// An ordered sequence of record values.
#[derive(Debug)]
pub struct RecordValues {
    pub items: Vec<RecordValue>,
}

impl View for RecordValues {
    type V = Seq<Seq<char>>;

    open spec fn view(&self) -> Seq<Seq<char>> {
        self.items@.map_values(|v: RecordValue| v@)
    }
}

impl Clone for RecordValues {
    fn clone(&self) -> (r: Self)
        ensures
            r@ == self@,
    {
        let mut items: Vec<RecordValue> = Vec::new();
        let mut i: usize = 0;
        while i < self.items.len()
            invariant
                0 <= i <= self.items.len(),
                items@.len() == i,
                forall|j: int| 0 <= j < i ==> items@[j] == self.items@[j],
            decreases self.items.len() - i,
        {
            items.push(self.items[i].clone());
            i = i + 1;
        }
        let r = RecordValues { items };
        proof {
            assert(r@ =~= self@);
        }
        r
    }
}

impl RecordValues {
    /// Wrap an ordered list of values.
    pub fn new(items: Vec<RecordValue>) -> (r: RecordValues)
        ensures
            r.items@ == items@,
    {
        RecordValues { items }
    }

    /// How many values are held.
    pub fn len(&self) -> (r: usize)
        ensures
            r == self@.len(),
    {
        self.items.len()
    }

    /// The value at one position.
    pub fn get(&self, i: usize) -> (r: &RecordValue)
        requires
            i < self@.len(),
        ensures
            r@ == self@[i as int],
    {
        &self.items[i]
    }
}

/// A two-letter country code, as the geo policy engine uses it.
#[derive(Clone, Copy, Debug, PartialEq, Eq, Hash, Structural)]
pub struct CountryCode {
    pub first: u8,
    pub second: u8,
}

/// The set of countries a record is hidden from.
#[derive(Debug)]
pub struct RecordBlackhole {
    pub countries: Vec<CountryCode>,
}

impl View for RecordBlackhole {
    type V = Seq<CountryCode>;

    open spec fn view(&self) -> Seq<CountryCode> {
        self.countries@
    }
}

impl Clone for RecordBlackhole {
    fn clone(&self) -> (r: Self)
        ensures
            r@ == self@,
    {
        let mut countries: Vec<CountryCode> = Vec::new();
        let mut i: usize = 0;
        while i < self.countries.len()
            invariant
                0 <= i <= self.countries.len(),
                countries@ =~= self.countries@.subrange(0, i as int),
            decreases self.countries.len() - i,
        {
            countries.push(self.countries[i]);
            i = i + 1;
        }
        proof {
            assert(countries@ =~= self.countries@);
        }
        RecordBlackhole { countries }
    }
}

impl RecordBlackhole {
    /// Wrap a list of blackholed countries.
    pub fn new(countries: Vec<CountryCode>) -> (r: RecordBlackhole)
        ensures
            r@ == countries@,
    {
        RecordBlackhole { countries }
    }

    /// Whether any country is blackholed at all.
    pub fn has_items(&self) -> (r: bool)
        ensures
            r == (self@.len() > 0),
    {
        self.countries.len() > 0
    }

    /// Whether the given country is blackholed.
    pub fn has_country(&self, country: &CountryCode) -> (r: bool)
        ensures
            r == self@.contains(*country),
    {
        let mut i: usize = 0;
        while i < self.countries.len()
            invariant
                0 <= i <= self.countries.len(),
                forall|j: int| 0 <= j < i ==> self.countries@[j] != *country,
            decreases self.countries.len() - i,
        {
            if self.countries[i] == *country {
                return true;
            }
            i = i + 1;
        }
        false
    }
}

/// Per-region value overrides, read through to the geo policy engine and
/// never interpreted by the resolution core.
#[derive(Debug)]
pub struct RecordRegions {
    pub nnam: Option<RecordValues>,
    pub snam: Option<RecordValues>,
    pub nsam: Option<RecordValues>,
    pub ssam: Option<RecordValues>,
    pub weu: Option<RecordValues>,
    pub ceu: Option<RecordValues>,
    pub eeu: Option<RecordValues>,
    pub ru: Option<RecordValues>,
    pub me: Option<RecordValues>,
    pub naf: Option<RecordValues>,
    pub maf: Option<RecordValues>,
    pub saf: Option<RecordValues>,
    pub seas: Option<RecordValues>,
    pub neas: Option<RecordValues>,
    pub oc: Option<RecordValues>,
    pub india: Option<RecordValues>,
}

/// The view of one optional value list.
pub open spec fn opt_values_view(o: Option<RecordValues>) -> Option<Seq<Seq<char>>> {
    match o {
        Some(v) => Some(v@),
        None => None,
    }
}

/// The abstract contents of a `RecordRegions`.
pub struct RecordRegionsV {
    pub nnam: Option<Seq<Seq<char>>>,
    pub snam: Option<Seq<Seq<char>>>,
    pub nsam: Option<Seq<Seq<char>>>,
    pub ssam: Option<Seq<Seq<char>>>,
    pub weu: Option<Seq<Seq<char>>>,
    pub ceu: Option<Seq<Seq<char>>>,
    pub eeu: Option<Seq<Seq<char>>>,
    pub ru: Option<Seq<Seq<char>>>,
    pub me: Option<Seq<Seq<char>>>,
    pub naf: Option<Seq<Seq<char>>>,
    pub maf: Option<Seq<Seq<char>>>,
    pub saf: Option<Seq<Seq<char>>>,
    pub seas: Option<Seq<Seq<char>>>,
    pub neas: Option<Seq<Seq<char>>>,
    pub oc: Option<Seq<Seq<char>>>,
    pub india: Option<Seq<Seq<char>>>,
}

impl View for RecordRegions {
    type V = RecordRegionsV;

    open spec fn view(&self) -> RecordRegionsV {
        RecordRegionsV {
            nnam: opt_values_view(self.nnam),
            snam: opt_values_view(self.snam),
            nsam: opt_values_view(self.nsam),
            ssam: opt_values_view(self.ssam),
            weu: opt_values_view(self.weu),
            ceu: opt_values_view(self.ceu),
            eeu: opt_values_view(self.eeu),
            ru: opt_values_view(self.ru),
            me: opt_values_view(self.me),
            naf: opt_values_view(self.naf),
            maf: opt_values_view(self.maf),
            saf: opt_values_view(self.saf),
            seas: opt_values_view(self.seas),
            neas: opt_values_view(self.neas),
            oc: opt_values_view(self.oc),
            india: opt_values_view(self.india),
        }
    }
}

/// Clone one optional value list, keeping its contents.
fn clone_opt_values(o: &Option<RecordValues>) -> (r: Option<RecordValues>)
    ensures
        opt_values_view(r) == opt_values_view(*o),
{
    match o {
        Some(v) => Some(v.clone()),
        None => None,
    }
}

impl Clone for RecordRegions {
    fn clone(&self) -> (r: Self)
        ensures
            r@ == self@,
    {
        RecordRegions {
            nnam: clone_opt_values(&self.nnam),
            snam: clone_opt_values(&self.snam),
            nsam: clone_opt_values(&self.nsam),
            ssam: clone_opt_values(&self.ssam),
            weu: clone_opt_values(&self.weu),
            ceu: clone_opt_values(&self.ceu),
            eeu: clone_opt_values(&self.eeu),
            ru: clone_opt_values(&self.ru),
            me: clone_opt_values(&self.me),
            naf: clone_opt_values(&self.naf),
            maf: clone_opt_values(&self.maf),
            saf: clone_opt_values(&self.saf),
            seas: clone_opt_values(&self.seas),
            neas: clone_opt_values(&self.neas),
            oc: clone_opt_values(&self.oc),
            india: clone_opt_values(&self.india),
        }
    }
}

} // verus!
