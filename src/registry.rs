//! The asset metadata registry: display metadata per asset identifier,
//! built once from a list of records and read-only afterwards.
use vstd::prelude::*;
use crate::amount::{format_scaled, scaled_text};
use crate::asset::AssetId;
use vstd::string::StringExecFns;
use vstd::string::StrSliceExecFns;

verus! {

/// One icon variant; an empty string means that the variant is absent.
#[derive(Clone, Debug)]
pub struct AssetImage {
    pub png: String,
    pub svg: String,
}

/// What formatting needs to know of an asset.
#[derive(Clone, Debug)]
pub struct AugmentedMetadata {
    /// The atomic amount is divided by `10^exponent` for display.
    pub exponent: u8,
    pub symbol: String,
    pub images: Vec<AssetImage>,
}

/// The first non-empty raster icon.
pub open spec fn first_png(images: Seq<AssetImage>) -> Option<Seq<char>>
    decreases images.len(),
{
    if images.len() == 0 {
        None
    } else if images[0].png@.len() > 0 {
        Some(images[0].png@)
    } else {
        first_png(images.drop_first())
    }
}

/// The first non-empty vector icon.
pub open spec fn first_svg(images: Seq<AssetImage>) -> Option<Seq<char>>
    decreases images.len(),
{
    if images.len() == 0 {
        None
    } else if images[0].svg@.len() > 0 {
        Some(images[0].svg@)
    } else {
        first_svg(images.drop_first())
    }
}

/// Raster before vector, first match wins.
pub open spec fn icon_of(images: Seq<AssetImage>) -> Option<Seq<char>> {
    match first_png(images) {
        Some(p) => Some(p),
        None => first_svg(images),
    }
}

pub open spec fn text_of(o: Option<String>) -> Option<Seq<char>> {
    match o {
        Some(t) => Some(t@),
        None => None,
    }
}

impl AugmentedMetadata {
    /// `amount / 10^exponent`, rounded half up to four fractional digits.
    pub fn format(&self, _asset: &AssetId, amount: u128) -> (r: String)
        ensures
            r@ == scaled_text(amount as nat, self.exponent as nat),
    {
        format_scaled(amount, self.exponent)
    }

    /// The formatted amount, a space, and the asset's symbol.
    pub fn format_with_symbol(&self, asset: &AssetId, amount: u128) -> (r: String)
        ensures
            r@ == scaled_text(amount as nat, self.exponent as nat) + seq![' '] + self.symbol@,
    {
        let s = self.format(asset, amount);
        proof {
            reveal_strlit(" ");
        }
        let s = s.concat(" ");
        s.concat(self.symbol.as_str())
    }

    /// The icon to show: the first non-empty PNG, else the first non-empty SVG.
    pub fn image(&self) -> (r: Option<String>)
        ensures
            text_of(r) == icon_of(self.images@),
    {
        let n = self.images.len();
        let mut i: usize = 0;
        proof {
            assert(self.images@.subrange(0, n as int) =~= self.images@);
        }
        while i < n
            invariant
                n == self.images@.len(),
                0 <= i <= n,
                first_png(self.images@) == first_png(self.images@.subrange(i as int, n as int)),
            decreases n - i,
        {
            proof {
                assert(self.images@.subrange(i as int, n as int).drop_first()
                    =~= self.images@.subrange(i + 1, n as int));
            }
            if self.images[i].png.as_str().unicode_len() != 0 {
                return Some(self.images[i].png.clone());
            }
            i = i + 1;
        }
        let mut j: usize = 0;
        proof {
            assert(self.images@.subrange(0, n as int) =~= self.images@);
        }
        while j < n
            invariant
                n == self.images@.len(),
                0 <= j <= n,
                first_png(self.images@) is None,
                first_svg(self.images@) == first_svg(self.images@.subrange(j as int, n as int)),
            decreases n - j,
        {
            proof {
                assert(self.images@.subrange(j as int, n as int).drop_first()
                    =~= self.images@.subrange(j + 1, n as int));
            }
            if self.images[j].svg.as_str().unicode_len() != 0 {
                return Some(self.images[j].svg.clone());
            }
            j = j + 1;
        }
        None
    }
}


/// One record of the registry dataset, as read from the document.
#[derive(Clone, Debug)]
pub struct MetadataRecord {
    /// Raw identifier bytes; absent when the record names no identifier.
    pub asset_id: Option<Vec<u8>>,
    pub metadata: AugmentedMetadata,
}

/// Why a registry dataset was refused.
#[derive(Clone, Copy, Debug, PartialEq, Eq, Structural)]
pub enum LoadError {
    /// A record carries no asset identifier.
    MissingAssetId,
    /// A record's identifier is not 32 bytes long.
    InvalidAssetId,
}

pub open spec fn record_error(r: MetadataRecord) -> Option<LoadError> {
    match r.asset_id {
        None => Some(LoadError::MissingAssetId),
        Some(b) => if b@.len() != 32 {
            Some(LoadError::InvalidAssetId)
        } else {
            None
        },
    }
}

/// The error of the first faulty record, if any.
pub open spec fn first_load_error(s: Seq<MetadataRecord>) -> Option<LoadError>
    decreases s.len(),
{
    if s.len() == 0 {
        None
    } else {
        match record_error(s[0]) {
            Some(e) => Some(e),
            None => first_load_error(s.drop_first()),
        }
    }
}

/// Identifier bytes to metadata; a later record for the same identifier
/// replaces an earlier one.
pub open spec fn records_map(s: Seq<MetadataRecord>) -> Map<Seq<u8>, AugmentedMetadata>
    decreases s.len(),
{
    if s.len() == 0 {
        Map::empty()
    } else {
        let m = records_map(s.drop_last());
        match s.last().asset_id {
            Some(b) => m.insert(b@, s.last().metadata),
            None => m,
        }
    }
}

pub open spec fn entries_map(s: Seq<(AssetId, AugmentedMetadata)>) -> Map<Seq<u8>, AugmentedMetadata>
    decreases s.len(),
{
    if s.len() == 0 {
        Map::empty()
    } else {
        entries_map(s.drop_last()).insert(s.last().0.bytes@, s.last().1)
    }
}

/// What loading `records` yields: the registry of all records if every
/// record is sound, else the error of the first faulty one.
pub open spec fn load_result(records: Seq<MetadataRecord>, r: Result<Registry, LoadError>) -> bool {
    match r {
        Ok(reg) => first_load_error(records) is None && reg@ == records_map(records),
        Err(e) => first_load_error(records) == Some(e),
    }
}

/// Read-only map from asset identifier to display metadata.
#[derive(Clone, Debug)]
pub struct Registry {
    entries: Vec<(AssetId, AugmentedMetadata)>,
}

impl View for Registry {
    type V = Map<Seq<u8>, AugmentedMetadata>;

    closed spec fn view(&self) -> Map<Seq<u8>, AugmentedMetadata> {
        entries_map(self.entries@)
    }
}

proof fn lemma_entries_map_suffix(s: Seq<(AssetId, AugmentedMetadata)>, n: int, k: Seq<u8>)
    requires
        0 <= n <= s.len(),
        forall|j: int| n <= j < s.len() ==> (#[trigger] s[j]).0.bytes@ != k,
    ensures
        entries_map(s).contains_key(k) == entries_map(s.subrange(0, n)).contains_key(k),
        entries_map(s).contains_key(k) ==> entries_map(s)[k] == entries_map(s.subrange(0, n))[k],
    decreases s.len() - n,
{
    if n < s.len() {
        let t = s.subrange(0, n + 1);
        lemma_entries_map_suffix(s, n + 1, k);
        assert(t.drop_last() =~= s.subrange(0, n));
        assert(t.last() == s[n]);
    } else {
        assert(s.subrange(0, n) =~= s);
    }
}

impl Registry {
    fn new(entries: Vec<(AssetId, AugmentedMetadata)>) -> (r: Registry)
        ensures
            r@ == entries_map(entries@),
    {
        Registry { entries }
    }

    /// Builds the registry from the dataset's records, all or nothing.
    pub fn from_records(records: Vec<MetadataRecord>) -> (r: Result<Registry, LoadError>)
        ensures
            load_result(records@, r),
    {
        let ghost all = records@;
        let mut rest = records;
        let mut entries: Vec<(AssetId, AugmentedMetadata)> = Vec::new();
        let ghost mut done: int = 0;
        while rest.len() > 0
            invariant
                all == records@,
                0 <= done <= all.len(),
                rest@ == all.subrange(done, all.len() as int),
                first_load_error(all) == first_load_error(rest@),
                first_load_error(all.subrange(0, done)) is None,
                entries_map(entries@) == records_map(all.subrange(0, done)),
            decreases rest.len(),
        {
            let ghost cur = rest@;
            let rec = rest.remove(0);
            proof {
                assert(all.subrange(done, all.len() as int)[0] == all[done]);
                assert(rec == all[done]);
                assert(all.subrange(done, all.len() as int).drop_first()
                    =~= all.subrange(done + 1, all.len() as int));
                assert(all.subrange(0, done + 1).drop_last() =~= all.subrange(0, done));
            }
            match rec.asset_id {
                None => {
                    assert(record_error(cur[0]) == Some(LoadError::MissingAssetId));
                    assert(first_load_error(cur) == Some(LoadError::MissingAssetId));
                    return Err(LoadError::MissingAssetId);
                },
                Some(b) => {
                    match AssetId::from_slice(b.as_slice()) {
                        None => {
                            assert(record_error(cur[0]) == Some(LoadError::InvalidAssetId));
                            assert(first_load_error(cur) == Some(LoadError::InvalidAssetId));
                            return Err(LoadError::InvalidAssetId);
                        },
                        Some(id) => {
                            let ghost before = entries@;
                            entries.push((id, rec.metadata));
                            proof {
                                lemma_first_error_append(all.subrange(0, done), all[done]);
                                assert(all.subrange(0, done).push(all[done])
                                    =~= all.subrange(0, done + 1));
                                assert(entries@.drop_last() =~= before);
                                done = done + 1;
                            }
                        },
                    }
                },
            }
        }
        proof {
            assert(all.subrange(0, done) =~= all);
        }
        Ok(Registry::new(entries))
    }

    /// The metadata of `asset`, or `None` for an asset the registry does not know.
    pub fn metadata(&self, asset: &AssetId) -> (r: Option<&AugmentedMetadata>)
        ensures
            match r {
                Some(m) => self@.contains_key(asset.bytes@) && self@[asset.bytes@] == *m,
                None => !self@.contains_key(asset.bytes@),
            },
    {
        let n = self.entries.len();
        let mut i: usize = n;
        while i > 0
            invariant
                n == self.entries@.len(),
                0 <= i <= n,
                forall|j: int| i <= j < n ==> (#[trigger] self.entries@[j]).0.bytes@ != asset.bytes@,
            decreases i,
        {
            if self.entries[i - 1].0.same_as(asset) {
                proof {
                    lemma_entries_map_suffix(self.entries@, i as int, asset.bytes@);
                    assert(self.entries@.subrange(0, i as int).drop_last()
                        =~= self.entries@.subrange(0, i - 1));
                }
                return Some(&self.entries[i - 1].1);
            }
            i = i - 1;
        }
        proof {
            lemma_entries_map_suffix(self.entries@, 0, asset.bytes@);
        }
        None
    }
}

proof fn lemma_first_error_append(s: Seq<MetadataRecord>, x: MetadataRecord)
    requires
        first_load_error(s) is None,
        record_error(x) is None,
    ensures
        first_load_error(s.push(x)) is None,
    decreases s.len(),
{
    if s.len() > 0 {
        lemma_first_error_append(s.drop_first(), x);
        assert(s.push(x).drop_first() =~= s.drop_first().push(x));
        assert(s.push(x)[0] == s[0]);
    } else {
        assert(s.push(x).drop_first() =~= Seq::<MetadataRecord>::empty());
        assert(s.push(x)[0] == x);
        assert(first_load_error(Seq::<MetadataRecord>::empty()) is None);
    }
}

/// Loading the same dataset twice gives the same outcome: both loads fail
/// alike, or both succeed with registries that agree on every identifier.
pub proof fn lemma_load_deterministic(
    records: Seq<MetadataRecord>,
    first: Result<Registry, LoadError>,
    second: Result<Registry, LoadError>,
)
    requires
        load_result(records, first),
        load_result(records, second),
    ensures
        first is Ok <==> second is Ok,
        first matches Err(e1) ==> second matches Err(e2) && e1 == e2,
        first matches Ok(a) ==> second matches Ok(b) && (forall|id: Seq<u8>|
            #![trigger a@.contains_key(id)]
            a@.contains_key(id) == b@.contains_key(id) && (a@.contains_key(id) ==> a@[id]
                == b@[id])),
{
}

} // verus!
