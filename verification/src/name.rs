//! Absolute domain names in canonical text form: lowercase labels, each
//! followed by one dot, so the root is the empty string and every other
//! name ends with a dot (`"www.example.com."`).

use vstd::prelude::*;

use crate::text::{lower, lower_char, lower_str, push_char, str_eq};

verus! {

/// Characters a canonical name may hold: printable ASCII, already folded.
pub open spec fn name_char_ok(c: char) -> bool {
    33 <= c as u32 <= 126 && lower_char(c) == c
}

/// A canonical absolute name: empty (the root), or at most 254 characters
/// of printable folded ASCII, ending with a dot and with no empty label.
pub open spec fn wf_name(s: Seq<char>) -> bool {
    s.len() == 0 || (s.len() <= 254 && s.last() == '.' && s[0] != '.' && (forall|i: int|
        0 <= i < s.len() ==> name_char_ok(#[trigger] s[i])) && (forall|i: int|
        0 <= i < s.len() - 1 ==> !((#[trigger] s[i]) == '.' && s[i + 1] == '.')))
}

/// What parsing a textual name yields: case folding, a trailing dot added
/// when missing, and the canonical shape required; anything else rejected.
pub open spec fn parse_name_spec(s: Seq<char>) -> Option<Seq<char>> {
    if s.len() == 0 {
        None
    } else {
        let t = lower(s);
        let u = if t.last() == '.' {
            t
        } else {
            t.push('.')
        };
        if wf_name(u) && u.len() > 0 {
            Some(u)
        } else {
            None
        }
    }
}

/// Everything after the first dot; the empty sequence when there is none.
pub open spec fn base_name_of(s: Seq<char>) -> Seq<char>
    decreases s.len(),
{
    if s.len() == 0 {
        s
    } else if s[0] == '.' {
        s.drop_first()
    } else {
        base_name_of(s.drop_first())
    }
}

/// Stripping a label never grows a name, and shrinks a nonempty one.
pub proof fn lemma_base_name_len(s: Seq<char>)
    ensures
        base_name_of(s).len() <= s.len(),
        s.len() > 0 ==> base_name_of(s).len() < s.len(),
    decreases s.len(),
{
    if s.len() > 0 && s[0] != '.' {
        lemma_base_name_len(s.drop_first());
    }
}

/// Whether `suffix` is a character suffix of `s`.
pub open spec fn is_suffix_of(suffix: Seq<char>, s: Seq<char>) -> bool {
    s.len() >= suffix.len() && s.subrange(s.len() - suffix.len(), s.len() as int) == suffix
}

proof fn lemma_base_name_at_dot(s: Seq<char>, i: int)
    requires
        0 <= i < s.len(),
        s[i] == '.',
        forall|j: int| 0 <= j < i ==> s[j] != '.',
    ensures
        base_name_of(s) =~= s.subrange(i + 1, s.len() as int),
    decreases i,
{
    if i == 0 {
        assert(base_name_of(s) == s.drop_first());
        assert(s.drop_first() =~= s.subrange(1, s.len() as int));
    } else {
        let t = s.drop_first();
        assert(forall|j: int| 0 <= j < i - 1 ==> t[j] != '.');
        lemma_base_name_at_dot(t, i - 1);
        assert(t.subrange(i, t.len() as int) =~= s.subrange(i + 1, s.len() as int));
    }
}

proof fn lemma_base_name_no_dot(s: Seq<char>)
    requires
        forall|j: int| 0 <= j < s.len() ==> s[j] != '.',
    ensures
        base_name_of(s) =~= Seq::<char>::empty(),
    decreases s.len(),
{
    if s.len() > 0 {
        lemma_base_name_no_dot(s.drop_first());
    }
}

/// An absolute domain name in canonical text form.
#[derive(Debug, PartialEq, Eq, Hash)]
pub struct DomainName {
    pub text: String,
}

impl View for DomainName {
    type V = Seq<char>;

    open spec fn view(&self) -> Seq<char> {
        self.text@
    }
}

impl Clone for DomainName {
    fn clone(&self) -> (r: Self)
        ensures
            r == *self,
    {
        DomainName { text: self.text.clone() }
    }
}

impl DomainName {
    /// Whether this name is in canonical shape.
    pub open spec fn wf(&self) -> bool {
        wf_name(self@)
    }

    /// The root name, above every zone.
    pub fn root() -> (r: DomainName)
        ensures
            r@ == Seq::<char>::empty(),
            r.wf(),
    {
        DomainName { text: String::new() }
    }

    /// Parse a textual name into canonical form.
    pub fn parse(value: &str) -> (r: Option<DomainName>)
        ensures
            match r {
                Some(d) => parse_name_spec(value@) == Some(d@) && d.wf(),
                None => parse_name_spec(value@) is None,
            },
    {
        let n = value.unicode_len();
        if n == 0 {
            return None;
        }
        let mut t = lower_str(value);
        let had_dot = t.as_str().get_char(n - 1) == '.';
        if !had_dot {
            push_char(&mut t, '.');
        }
        proof {
            assert(t@.last() == '.');
            assert(t@ == (if lower(value@).last() == '.' {
                lower(value@)
            } else {
                lower(value@).push('.')
            }));
        }
        let u_len = t.as_str().unicode_len();
        if u_len > 254 {
            proof {
                assert(!wf_name(t@));
            }
            return None;
        }
        let mut i: usize = 0;
        let mut ok = true;
        while i < u_len
            invariant
                u_len == t@.len(),
                0 <= i <= u_len,
                ok ==> forall|j: int| 0 <= j < i ==> name_char_ok(#[trigger] t@[j]),
                ok ==> forall|j: int|
                    0 <= j < i && j < u_len - 1 ==> !((#[trigger] t@[j]) == '.' && t@[j + 1]
                        == '.'),
                ok ==> (i > 0 ==> t@[0] != '.'),
                !ok ==> !wf_name(t@),
                t@.len() > 0,
            decreases u_len - i,
        {
            let c = t.as_str().get_char(i);
            let u = c as u32;
            if !(33 <= u && u <= 126) {
                ok = false;
            } else {
                let lc: char = if 65 <= u && u <= 90 {
                    ((u + 32) as u8) as char
                } else {
                    c
                };
                if lc != c {
                    ok = false;
                }
            }
            if c == '.' {
                if i == 0 {
                    ok = false;
                } else if i + 1 < u_len && t.as_str().get_char(i + 1) == '.' {
                    ok = false;
                }
            }
            i = i + 1;
        }
        if ok {
            proof {
                assert(wf_name(t@));
            }
            Some(DomainName { text: t })
        } else {
            None
        }
    }

    /// The canonical text of the name.
    pub fn to_str(&self) -> (r: &str)
        ensures
            r@ == self@,
    {
        self.text.as_str()
    }

    /// Whether this is the root name.
    pub fn is_root(&self) -> (r: bool)
        ensures
            r == (self@.len() == 0),
    {
        self.text.as_str().unicode_len() == 0
    }

    /// The name with its leftmost label removed; the root stays the root.
    pub fn base_name(&self) -> (r: DomainName)
        ensures
            r@ == base_name_of(self@),
            self@.len() > 0 ==> r@.len() < self@.len(),
            self.wf() ==> r.wf(),
            self.wf() ==> r@.len() + 2 <= self@.len() || self@.len() == 0,
    {
        let n = self.text.as_str().unicode_len();
        let mut i: usize = 0;
        while i < n
            invariant
                n == self@.len(),
                0 <= i <= n,
                forall|j: int| 0 <= j < i ==> self@[j] != '.',
            decreases n - i,
        {
            if self.text.as_str().get_char(i) == '.' {
                proof {
                    lemma_base_name_at_dot(self@, i as int);
                }
                let rest = self.text.as_str().substring_char(i + 1, n);
                let r = DomainName { text: String::from_str(rest) };
                proof {
                    if self.wf() && r@.len() > 0 {
                        assert(r@[0] == self@[i + 1]);
                        assert(r@.last() == self@.last());
                        assert(forall|k: int|
                            0 <= k < r@.len() ==> r@[k] == self@[i + 1 + k]
                                && name_char_ok(#[trigger] r@[k]));
                        assert(forall|k: int|
                            0 <= k < r@.len() - 1 ==> !((#[trigger] r@[k]) == '.' && r@[k + 1]
                                == '.'));
                    }
                }
                return r;
            }
            i = i + 1;
        }
        proof {
            lemma_base_name_no_dot(self@);
        }
        DomainName { text: String::new() }
    }

    /// Whether `suffix` ends this name, character for character.
    pub fn ends_with(&self, suffix: &DomainName) -> (r: bool)
        ensures
            r == is_suffix_of(suffix@, self@),
    {
        let n = self.text.as_str().unicode_len();
        let m = suffix.text.as_str().unicode_len();
        if n < m {
            return false;
        }
        let tail = self.text.as_str().substring_char(n - m, n);
        str_eq(tail, suffix.text.as_str())
    }

    /// Whether two names are the same.
    pub fn same_as(&self, other: &DomainName) -> (r: bool)
        ensures
            r == (self@ == other@),
    {
        str_eq(self.text.as_str(), other.text.as_str())
    }
}

/// The wildcard owner covering the immediate children of this name's
/// parent: `*.` prefixed to the name less its leftmost label. There is
/// none when the parent has no label, or when the name is that wildcard
/// already.
pub open spec fn wildcard_of_spec(q: Seq<char>) -> Option<Seq<char>> {
    let parent = base_name_of(q);
    if parent.len() == 0 {
        None
    } else {
        let w = seq!['*', '.'] + parent;
        if w == q {
            None
        } else {
            Some(w)
        }
    }
}

impl DomainName {
    /// The wildcard owner that could cover this name, if any.
    pub fn wildcard(&self) -> (r: Option<DomainName>)
        ensures
            match r {
                Some(w) => wildcard_of_spec(self@) == Some(w@) && (self.wf() ==> w.wf()),
                None => wildcard_of_spec(self@) is None,
            },
    {
        let parent = self.base_name();
        if parent.is_root() {
            return None;
        }
        proof {
            reveal_strlit("*.");
        }
        let mut w = String::from_str("*.");
        w.append(parent.text.as_str());
        proof {
            assert(w@ =~= seq!['*', '.'] + parent@);
        }
        if str_eq(w.as_str(), self.text.as_str()) {
            return None;
        }
        let d = DomainName { text: w };
        proof {
            if self.wf() {
                assert(d@[0] == '*');
                assert(d@[1] == '.');
                assert(parent@[0] != '.');
                assert(d@.last() == parent@.last());
                assert(name_char_ok('*'));
                assert(d@.len() == parent@.len() + 2 <= self@.len() <= 254);
                assert(forall|i: int| 0 <= i < d@.len() ==> name_char_ok(#[trigger] d@[i]));
                assert(forall|i: int|
                    0 <= i < d@.len() - 1 ==> !((#[trigger] d@[i]) == '.' && d@[i + 1] == '.'));
            }
        }
        Some(d)
    }
}

} // verus!
