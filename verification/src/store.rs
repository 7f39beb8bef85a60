//! The read-only record store the engine consults, keyed by zone, record
//! name, and record kind. The engine treats any miss the same whether the
//! backend found nothing or failed.

use vstd::prelude::*;

use crate::name::DomainName;
use crate::record::{
    CountryCode, RecordBlackhole, RecordName, RecordRegions, RecordRegionsV, RecordType,
    RecordValues,
};
use crate::text::str_eq;

verus! {

/// The apex name identifying a zone in the store.
#[derive(Debug, PartialEq, Eq, Hash)]
pub struct ZoneName {
    pub text: String,
}

impl View for ZoneName {
    type V = Seq<char>;

    open spec fn view(&self) -> Seq<char> {
        self.text@
    }
}

impl Clone for ZoneName {
    fn clone(&self) -> (r: Self)
        ensures
            r == *self,
    {
        ZoneName { text: self.text.clone() }
    }
}

impl ZoneName {
    /// Project an authority origin onto its store key; the root denotes
    /// no zone.
    pub fn from_name(origin: &DomainName) -> (r: Option<ZoneName>)
        ensures
            match r {
                Some(z) => origin@.len() > 0 && z@ == origin@,
                None => origin@.len() == 0,
            },
    {
        if origin.is_root() {
            None
        } else {
            Some(ZoneName { text: String::from_str(origin.to_str()) })
        }
    }

    /// The zone's apex name text.
    pub fn to_str(&self) -> (r: &str)
        ensures
            r@ == self@,
    {
        self.text.as_str()
    }

    /// Whether two zone names are the same.
    pub fn same_as(&self, other: &ZoneName) -> (r: bool)
        ensures
            r == (self@ == other@),
    {
        str_eq(self.text.as_str(), other.text.as_str())
    }
}

/// Why a store read yielded nothing: a plain miss, or a failing backend.
/// The engine treats both as a miss.
#[derive(Clone, Copy, Debug, PartialEq, Eq, Structural)]
pub enum StoreError {
    NotFound,
    Backend,
}

/// One stored record set: its kind, ordered values, optional time to
/// live, and the geo fields read through to the policy engine.
#[derive(Debug)]
pub struct StoreRecord {
    pub kind: RecordType,
    pub values: RecordValues,
    pub ttl: Option<u32>,
    pub regions: Option<RecordRegions>,
    pub blackhole: Option<RecordBlackhole>,
}

/// The abstract contents of a `StoreRecord`.
#[verifier::ext_equal]
pub struct StoreRecordV {
    pub kind: RecordType,
    pub values: Seq<Seq<char>>,
    pub ttl: Option<u32>,
    pub regions: Option<RecordRegionsV>,
    pub blackhole: Option<Seq<CountryCode>>,
}

/// The view of an optional regions table.
pub open spec fn opt_regions_view(o: Option<RecordRegions>) -> Option<RecordRegionsV> {
    match o {
        Some(v) => Some(v@),
        None => None,
    }
}

/// The view of an optional blackhole set.
pub open spec fn opt_blackhole_view(o: Option<RecordBlackhole>) -> Option<Seq<CountryCode>> {
    match o {
        Some(v) => Some(v@),
        None => None,
    }
}

impl View for StoreRecord {
    type V = StoreRecordV;

    open spec fn view(&self) -> StoreRecordV {
        StoreRecordV {
            kind: self.kind,
            values: self.values@,
            ttl: self.ttl,
            regions: opt_regions_view(self.regions),
            blackhole: opt_blackhole_view(self.blackhole),
        }
    }
}

impl Clone for StoreRecord {
    fn clone(&self) -> (r: Self)
        ensures
            r@ == self@,
    {
        let regions = match &self.regions {
            Some(v) => Some(v.clone()),
            None => None,
        };
        let blackhole = match &self.blackhole {
            Some(v) => Some(v.clone()),
            None => None,
        };
        StoreRecord {
            kind: self.kind,
            values: self.values.clone(),
            ttl: self.ttl,
            regions,
            blackhole,
        }
    }
}

impl StoreRecord {
    /// Build a stored record set.
    pub fn new(kind: RecordType, values: RecordValues, ttl: Option<u32>) -> (r: StoreRecord)
        ensures
            r@ == (StoreRecordV {
                kind,
                values: values@,
                ttl,
                regions: None,
                blackhole: None,
            }),
    {
        StoreRecord { kind, values, ttl, regions: None, blackhole: None }
    }
}

/// One keyed entry of the in-memory store.
#[derive(Debug)]
pub struct StoreEntry {
    pub zone: ZoneName,
    pub name: RecordName,
    pub record: StoreRecord,
}

/// The abstract contents of a `StoreEntry`.
#[verifier::ext_equal]
pub struct StoreEntryV {
    pub zone: Seq<char>,
    pub name: Seq<char>,
    pub record: StoreRecordV,
}

impl View for StoreEntry {
    type V = StoreEntryV;

    open spec fn view(&self) -> StoreEntryV {
        StoreEntryV { zone: self.zone@, name: self.name@, record: self.record@ }
    }
}

/// What a lookup finds: the first entry matching zone, name, and kind.
pub open spec fn store_lookup(
    entries: Seq<StoreEntryV>,
    zone: Seq<char>,
    name: Seq<char>,
    kind: RecordType,
) -> Option<StoreRecordV>
    decreases entries.len(),
{
    if entries.len() == 0 {
        None
    } else if entries[0].zone == zone && entries[0].name == name && entries[0].record.kind
        == kind {
        Some(entries[0].record)
    } else {
        store_lookup(entries.drop_first(), zone, name, kind)
    }
}

proof fn lemma_store_lookup_skip(
    entries: Seq<StoreEntryV>,
    zone: Seq<char>,
    name: Seq<char>,
    kind: RecordType,
    k: int,
)
    requires
        0 <= k <= entries.len(),
        forall|j: int|
            0 <= j < k ==> !((#[trigger] entries[j]).zone == zone && entries[j].name == name
                && entries[j].record.kind == kind),
    ensures
        store_lookup(entries, zone, name, kind) == store_lookup(entries.skip(k), zone, name, kind),
    decreases k,
{
    if k > 0 {
        let t = entries.drop_first();
        assert(!(entries[0].zone == zone && entries[0].name == name && entries[0].record.kind
            == kind));
        assert(store_lookup(entries, zone, name, kind) == store_lookup(t, zone, name, kind));
        assert(forall|j: int|
            0 <= j < k - 1 ==> !((#[trigger] t[j]).zone == zone && t[j].name == name
                && t[j].record.kind == kind));
        lemma_store_lookup_skip(t, zone, name, kind, k - 1);
        assert(t.skip(k - 1) =~= entries.skip(k));
    } else {
        assert(entries.skip(0) =~= entries);
    }
}

/// The in-memory record store, populated by the admin plane.
#[derive(Debug)]
pub struct Store {
    pub entries: Vec<StoreEntry>,
}

impl View for Store {
    type V = Seq<StoreEntryV>;

    open spec fn view(&self) -> Seq<StoreEntryV> {
        self.entries@.map_values(|e: StoreEntry| e@)
    }
}

impl Store {
    /// An empty store.
    pub fn new() -> (r: Store)
        ensures
            r@ == Seq::<StoreEntryV>::empty(),
    {
        let r = Store { entries: Vec::new() };
        proof {
            assert(r@ =~= Seq::<StoreEntryV>::empty());
        }
        r
    }

    /// Put a record set under a key; a newer entry shadows an older one
    /// with the same key.
    pub fn insert(&mut self, zone: ZoneName, name: RecordName, record: StoreRecord)
        ensures
            final(self)@ == seq![
                StoreEntryV { zone: zone@, name: name@, record: record@ },
            ] + old(self)@,
    {
        let ghost ev = StoreEntryV { zone: zone@, name: name@, record: record@ };
        self.entries.insert(0, StoreEntry { zone, name, record });
        proof {
            assert(final(self)@ =~= seq![ev] + old(self)@);
        }
    }

    /// Read the record set under a key; a miss is `NotFound`.
    pub fn get(&self, zone: &ZoneName, name: &RecordName, kind: &RecordType) -> (r: Result<
        StoreRecord,
        StoreError,
    >)
        ensures
            match r {
                Ok(rec) => store_lookup(self@, zone@, name@, *kind) == Some(rec@),
                Err(e) => store_lookup(self@, zone@, name@, *kind) is None && e
                    == StoreError::NotFound,
            },
    {
        let mut i: usize = 0;
        while i < self.entries.len()
            invariant
                0 <= i <= self.entries@.len(),
                forall|j: int|
                    0 <= j < i ==> !((#[trigger] self@[j]).zone == zone@ && self@[j].name == name@
                        && self@[j].record.kind == *kind),
            decreases self.entries@.len() - i,
        {
            let e = &self.entries[i];
            if e.zone.same_as(zone) && e.name.same_as(name) && e.record.kind == *kind {
                proof {
                    lemma_store_lookup_skip(self@, zone@, name@, *kind, i as int);
                    assert(self@.skip(i as int)[0] == self@[i as int]);
                }
                return Ok(e.record.clone());
            }
            i = i + 1;
        }
        proof {
            lemma_store_lookup_skip(self@, zone@, name@, *kind, self@.len() as int);
            assert(self@.skip(self@.len() as int) =~= Seq::<StoreEntryV>::empty());
        }
        Err(StoreError::NotFound)
    }
}

} // verus!
