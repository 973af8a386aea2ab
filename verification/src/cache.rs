//! The storage-engine cache hierarchy: bounded, size-weighted caches for
//! SST metadata, repeated-value vectors and decoded column pages, plus a
//! write-through file cache, behind one facade.
//!
//! Each cache is backed by a size-bounded concurrent store from an
//! outside crate; the facade's contracts are stated over the store's
//! contents, and the exported byte gauges are computed by a verified scan
//! so that they equal the sum of the live entries' weights.

use vstd::prelude::*;
use crate::ids::{FileId, RegionId};
use crate::accounting::{map_sum, pair_seq_sum, lemma_enumeration_sum};

verus! {

/// Declares the outside parquet footer type so that values of it can be
/// carried through the metadata cache; the control plane never looks
/// inside one.
#[verifier::external_type_specification]
#[verifier::external_body]
pub struct ExParquetMetaData(parquet::file::metadata::ParquetMetaData);

/// Declares the outside concurrent cache store.
#[verifier::external_type_specification]
#[verifier::external_body]
#[verifier::reject_recursive_types(K)]
#[verifier::reject_recursive_types(V)]
#[verifier::reject_recursive_types(S)]
pub struct ExMokaCache<K, V, S>(moka::sync::Cache<K, V, S>);

/// Cache key (region id, file id) for SST metadata.
#[derive(Clone, Copy, PartialEq, Eq, Structural, Hash, Debug)]
pub struct SstMetaKey(pub RegionId, pub FileId);

impl SstMetaKey {
    /// Memory used by the key itself (estimated): the two ids.
    pub fn estimated_size(&self) -> (r: u32)
        ensures
            r == 24,
    {
        24
    }
}

/// Cache key for the decoded pages of one column of one row group.
#[derive(Clone, Copy, PartialEq, Eq, Structural, Hash, Debug)]
pub struct PageKey {
    pub region_id: RegionId,
    pub file_id: FileId,
    pub row_group_idx: usize,
    pub column_idx: usize,
}

impl PageKey {
    /// Memory used by the key itself (estimated).
    pub fn estimated_size(&self) -> (r: u32)
        ensures
            r == 40,
    {
        40
    }
}

/// A scalar value, as the projection rewrite sees it: the key of the
/// repeated-value vector cache.
#[derive(Clone, PartialEq, Eq, Hash, Debug)]
pub enum ScalarValue {
    Null,
    Bool(bool),
    Int64(i64),
    UInt64(u64),
    Utf8(String),
}

/// Spec view of a scalar value.
pub enum ScalarValueView {
    Null,
    Bool(bool),
    Int64(i64),
    UInt64(u64),
    Utf8(Seq<char>),
}

pub open spec fn scalar_view(s: ScalarValue) -> ScalarValueView {
    match s {
        ScalarValue::Null => ScalarValueView::Null,
        ScalarValue::Bool(b) => ScalarValueView::Bool(b),
        ScalarValue::Int64(v) => ScalarValueView::Int64(v),
        ScalarValue::UInt64(v) => ScalarValueView::UInt64(v),
        ScalarValue::Utf8(s) => ScalarValueView::Utf8(s@),
    }
}

/// A vector holding one scalar repeated `len` times; what the vector
/// cache memoizes.
#[derive(Clone, Debug)]
pub struct RepeatedVector {
    pub value: ScalarValue,
    pub len: usize,
}

pub struct RepeatedVectorView {
    pub value: ScalarValueView,
    pub len: nat,
}

pub open spec fn vector_view(v: RepeatedVector) -> RepeatedVectorView {
    RepeatedVectorView { value: scalar_view(v.value), len: v.len as nat }
}

/// Decoded column pages of one row group, as raw page buffers.
pub struct PageValue {
    pub pages: Vec<Vec<u8>>,
}

impl PageValue {
    pub fn new(pages: Vec<Vec<u8>>) -> (r: PageValue)
        ensures
            r.pages@ == pages@,
    {
        PageValue { pages }
    }

    /// Total heap size of the page buffers, saturated at the weigher's
    /// range.
    pub fn estimated_size(&self) -> (r: u32)
        ensures
            r == spec_pages_size(pages_view(self.pages@)),
    {
        let mut acc: u64 = 0;
        let n = self.pages.len();
        proof {
            assert(pages_view(self.pages@).take(0) =~= Seq::empty());
        }
        for i in 0..n
            invariant
                n == self.pages@.len(),
                acc == spec_seq_bytes_capped(pages_view(self.pages@).take(i as int)),
                acc <= 0xFFFF_FFFF,
        {
            let l = self.pages[i].len();
            let add: u64 = if l as u64 > 0xFFFF_FFFFu64 { 0xFFFF_FFFFu64 } else { l as u64 };
            acc = acc + add;
            if acc > 0xFFFF_FFFF {
                acc = 0xFFFF_FFFF;
            }
            proof {
                assert(pages_view(self.pages@).take(i + 1).drop_last()
                    =~= pages_view(self.pages@).take(i as int));
                assert(pages_view(self.pages@).take(i + 1).last() == self.pages@[i as int]@);
            }
        }
        proof {
            assert(pages_view(self.pages@).take(n as int) =~= pages_view(self.pages@));
        }
        acc as u32
    }
}

pub open spec fn pages_view(pages: Seq<Vec<u8>>) -> Seq<Seq<u8>> {
    pages.map_values(|p: Vec<u8>| p@)
}

/// Byte count of a sequence of buffers, saturated at `u32::MAX` after
/// each addition (the weigher works in that range).
pub open spec fn spec_seq_bytes_capped(pages: Seq<Seq<u8>>) -> nat
    decreases pages.len(),
{
    if pages.len() == 0 {
        0
    } else {
        let prev = spec_seq_bytes_capped(pages.drop_last());
        let add: nat = if pages.last().len() > 0xFFFF_FFFF { 0xFFFF_FFFF as nat } else {
            pages.last().len()
        };
        if prev + add > 0xFFFF_FFFF {
            0xFFFF_FFFF as nat
        } else {
            prev + add
        }
    }
}

pub open spec fn spec_pages_size(pages: Seq<Seq<u8>>) -> nat {
    spec_seq_bytes_capped(pages)
}

/// The cached SST metadata together with the weight recorded for it when
/// it was inserted.
#[derive(Clone)]
pub struct MetaEntry {
    pub meta: std::sync::Arc<parquet::file::metadata::ParquetMetaData>,
    pub size: u32,
}

/// Keys of the backing store: one variant per cache tier.  The tiers use
/// separate stores, so variants never mix within one store; the facade's
/// invariant says so.
#[derive(Clone, PartialEq, Eq, Hash, Debug)]
pub enum CacheKey {
    Meta(SstMetaKey),
    Scalar(ScalarValue),
    Page(PageKey),
}

pub enum CacheKeyView {
    Meta(SstMetaKey),
    Scalar(ScalarValueView),
    Page(PageKey),
}

pub open spec fn key_view(k: CacheKey) -> CacheKeyView {
    match k {
        CacheKey::Meta(m) => CacheKeyView::Meta(m),
        CacheKey::Scalar(s) => CacheKeyView::Scalar(scalar_view(s)),
        CacheKey::Page(p) => CacheKeyView::Page(p),
    }
}

/// Values of the backing store.
#[derive(Clone)]
pub enum CacheVal {
    Meta(MetaEntry),
    Vector(RepeatedVector),
    Page(std::sync::Arc<PageValue>),
}

pub enum CacheValView {
    /// The cached footer handle and the weight recorded for it.
    Meta(std::sync::Arc<parquet::file::metadata::ParquetMetaData>, u32),
    Vector(RepeatedVectorView),
    Page(Seq<Seq<u8>>),
}

pub open spec fn val_view(v: CacheVal) -> CacheValView {
    match v {
        CacheVal::Meta(e) => CacheValView::Meta(e.meta, e.size),
        CacheVal::Vector(rv) => CacheValView::Vector(vector_view(rv)),
        CacheVal::Page(p) => CacheValView::Page(pages_view(p.pages@)),
    }
}

/// Deterministic weight of an entry, in bytes; drives both capacity
/// enforcement and the exported gauges.
pub open spec fn spec_entry_weight(k: CacheKeyView, v: CacheValView) -> nat {
    match v {
        CacheValView::Meta(_, size) => size as nat,
        CacheValView::Vector(rv) => spec_vector_weight(rv.len),
        CacheValView::Page(pages) => if 40 + spec_pages_size(pages) > 0xFFFF_FFFF {
            0xFFFF_FFFF as nat
        } else {
            (40 + spec_pages_size(pages)) as nat
        },
    }
}

/// Weight of a repeated-value vector: the scalar slot plus eight bytes
/// per repetition, saturated at the weigher's range.
pub open spec fn spec_vector_weight(len: nat) -> nat {
    if 32 + len * 8 > 0xFFFF_FFFF {
        0xFFFF_FFFF as nat
    } else {
        (32 + len * 8) as nat
    }
}

/// Executable twin of `spec_entry_weight`; this is the weigher handed to
/// the backing store.
pub fn entry_weight(k: &CacheKey, v: &CacheVal) -> (r: u32)
    ensures
        r as nat == spec_entry_weight(key_view(*k), val_view(*v)),
{
    match v {
        CacheVal::Meta(e) => e.size,
        CacheVal::Vector(rv) => {
            let len = rv.len;
            if len as u64 > (0xFFFF_FFFFu64 - 32) / 8 {
                proof {
                    assert(32 + (len as nat) * 8 > 0xFFFF_FFFF) by (nonlinear_arith)
                        requires len as nat > (0xFFFF_FFFFu64 - 32) / 8;
                }
                0xFFFF_FFFF
            } else {
                proof {
                    assert(32 + (len as nat) * 8 <= 0xFFFF_FFFF) by (nonlinear_arith)
                        requires len as nat <= (0xFFFF_FFFFu64 - 32) / 8;
                }
                32 + (len as u32) * 8
            }
        },
        CacheVal::Page(p) => {
            let s = p.estimated_size();
            if s > 0xFFFF_FFFF - 40 {
                0xFFFF_FFFF
            } else {
                40 + s
            }
        },
    }
}

} // verus!

verus! {

/// What the backing store holds: the live entries, as a map from key
/// views to value views.  Every wrapper below speaks over this.
pub uninterp spec fn store_contents(c: moka::sync::Cache<CacheKey, CacheVal>) -> Map<CacheKeyView, CacheValView>;

/// The byte budget the backing store was built with.
pub uninterp spec fn store_capacity(c: moka::sync::Cache<CacheKey, CacheVal>) -> u64;

/// Total weight of a contents map.
pub open spec fn contents_weight(m: Map<CacheKeyView, CacheValView>) -> nat {
    map_sum(m, |k: CacheKeyView, v: CacheValView| spec_entry_weight(k, v))
}

/// Relies on moka::sync::Cache::builder, max_capacity, weigher and
/// build: the store starts empty, is bounded by `budget` bytes and
/// weighs entries with exactly our weight function.
#[verifier::external_body]
fn store_new(budget: u64) -> (r: moka::sync::Cache<CacheKey, CacheVal>)
    ensures
        store_contents(r).dom().finite(),
        forall|k2: CacheKeyView| !store_contents(r).dom().contains(k2),
        store_capacity(r) == budget,
{
    moka::sync::Cache::builder()
        .max_capacity(budget)
        .weigher(|k: &CacheKey, v: &CacheVal| entry_weight(k, v))
        .build()
}

/// Relies on moka::sync::Cache::insert: the pair is stored, updating the
/// key if present; the store evicts entries only when the total weight
/// exceeds its capacity, so an insert that fits is exact (a store built
/// with capacity zero keeps nothing at all), and in any case no foreign
/// key appears and surviving entries keep their values.
#[verifier::external_body]
fn store_insert(c: &mut moka::sync::Cache<CacheKey, CacheVal>, k: CacheKey, v: CacheVal)
    ensures
        store_capacity(*final(c)) == store_capacity(*old(c)),
        store_contents(*final(c)).dom().finite(),
        store_capacity(*old(c)) != 0
            && contents_weight(store_contents(*old(c))) + spec_entry_weight(key_view(k), val_view(v))
                <= store_capacity(*old(c))
            ==> store_contents(*final(c))
                == store_contents(*old(c)).insert(key_view(k), val_view(v)),
        forall|k2: CacheKeyView| #[trigger] store_contents(*final(c)).dom().contains(k2)
            ==> k2 == key_view(k) || store_contents(*old(c)).dom().contains(k2),
        forall|k2: CacheKeyView|
            store_contents(*final(c)).dom().contains(k2) && k2 != key_view(k)
                ==> #[trigger] store_contents(*final(c))[k2] == store_contents(*old(c))[k2],
        store_contents(*final(c)).dom().contains(key_view(k))
            ==> store_contents(*final(c))[key_view(k)] == val_view(v),
{
    c.insert(k, v);
}

/// Relies on moka::sync::Cache::get: returns a clone of the stored value
/// exactly when the key is live; a read adds nothing, and while the
/// store is within its capacity it evicts nothing either.
#[verifier::external_body]
fn store_get(c: &mut moka::sync::Cache<CacheKey, CacheVal>, k: &CacheKey) -> (r: Option<CacheVal>)
    ensures
        store_capacity(*final(c)) == store_capacity(*old(c)),
        store_contents(*final(c)).dom().finite(),
        match r {
            Some(v) => store_contents(*old(c)).dom().contains(key_view(*k))
                && val_view(v) == store_contents(*old(c))[key_view(*k)],
            None => !store_contents(*old(c)).dom().contains(key_view(*k)),
        },
        contents_weight(store_contents(*old(c))) <= store_capacity(*old(c))
            ==> store_contents(*final(c)) == store_contents(*old(c)),
        forall|k2: CacheKeyView| #[trigger] store_contents(*final(c)).dom().contains(k2)
            ==> store_contents(*old(c)).dom().contains(k2),
        forall|k2: CacheKeyView| store_contents(*final(c)).dom().contains(k2)
            ==> #[trigger] store_contents(*final(c))[k2] == store_contents(*old(c))[k2],
{
    c.get(k)
}

/// Relies on moka::sync::Cache::invalidate: the entry for the key is
/// discarded; nothing else changes while the store is within capacity.
#[verifier::external_body]
fn store_remove(c: &mut moka::sync::Cache<CacheKey, CacheVal>, k: &CacheKey)
    ensures
        store_capacity(*final(c)) == store_capacity(*old(c)),
        store_contents(*final(c)).dom().finite(),
        !store_contents(*final(c)).dom().contains(key_view(*k)),
        contents_weight(store_contents(*old(c))) <= store_capacity(*old(c))
            ==> store_contents(*final(c)) == store_contents(*old(c)).remove(key_view(*k)),
        forall|k2: CacheKeyView| #[trigger] store_contents(*final(c)).dom().contains(k2)
            ==> store_contents(*old(c)).dom().contains(k2),
        forall|k2: CacheKeyView| store_contents(*final(c)).dom().contains(k2)
            ==> #[trigger] store_contents(*final(c))[k2] == store_contents(*old(c))[k2],
{
    c.invalidate(k);
}

/// Relies on moka::sync::Cache::iter: with no concurrent writers it
/// yields every live entry exactly once.
#[verifier::external_body]
fn store_entries(c: &moka::sync::Cache<CacheKey, CacheVal>) -> (r: Vec<(CacheKey, CacheVal)>)
    ensures
        forall|i: int| 0 <= i < r@.len()
            ==> store_contents(*c).contains_pair(
                key_view((#[trigger] r@[i]).0), val_view(r@[i].1)),
        forall|i: int, j: int| 0 <= i < j < r@.len()
            ==> key_view((#[trigger] r@[i]).0) != key_view((#[trigger] r@[j]).0),
        forall|k2: CacheKeyView| #[trigger] store_contents(*c).dom().contains(k2)
            ==> exists|i: int| 0 <= i < r@.len() && key_view((#[trigger] r@[i]).0) == k2,
{
    let mut out = Vec::new();
    for (k, v) in c.iter() {
        out.push(((*k).clone(), v));
    }
    out
}

/// The heap footprint parquet's ParquetMetaData::memory_size reports
/// for a footer: a deterministic function of the footer alone, named so
/// that the metadata cache's admission condition can speak of it.
pub uninterp spec fn footer_size_of(m: std::sync::Arc<parquet::file::metadata::ParquetMetaData>) -> nat;

/// Relies on std::sync::Arc::clone: a second handle to the same parquet
/// footer.
#[verifier::external_body]
fn clone_meta_handle(
    a: &std::sync::Arc<parquet::file::metadata::ParquetMetaData>,
) -> (r: std::sync::Arc<parquet::file::metadata::ParquetMetaData>)
    ensures
        r == *a,
{
    std::sync::Arc::clone(a)
}

/// Relies on parquet's ParquetMetaData::memory_size: the footer's heap
/// footprint estimate, the same number for the same footer.
#[verifier::external_body]
fn parquet_meta_size(m: &std::sync::Arc<parquet::file::metadata::ParquetMetaData>) -> (r: usize)
    ensures
        r as nat == footer_size_of(*m),
{
    m.memory_size()
}

/// The weight the metadata cache records for a footer: the key's size
/// plus the footer's heap footprint, saturated at the weigher's range.
pub open spec fn spec_meta_weight(m: std::sync::Arc<parquet::file::metadata::ParquetMetaData>) -> nat {
    if 24 + footer_size_of(m) > 0xFFFF_FFFF {
        0xFFFF_FFFF as nat
    } else {
        (24 + footer_size_of(m)) as nat
    }
}

/// The saturated sum of the weights of a store's entries, computed by a
/// verified scan: the exported byte gauge.
fn store_bytes(c: &moka::sync::Cache<CacheKey, CacheVal>) -> (r: u64)
    requires
        store_contents(*c).dom().finite(),
    ensures
        r == if contents_weight(store_contents(*c)) > u64::MAX {
            u64::MAX as nat
        } else {
            contents_weight(store_contents(*c))
        },
{
    let entries = store_entries(c);
    let ghost f = |k: CacheKeyView, v: CacheValView| spec_entry_weight(k, v);
    let ghost views = entries@.map_values(|e: (CacheKey, CacheVal)| (key_view(e.0), val_view(e.1)));
    let mut acc: u64 = 0;
    let n = entries.len();
    proof {
        assert(views.take(0) =~= Seq::empty());
    }
    for i in 0..n
        invariant
            n == entries@.len(),
            views == entries@.map_values(
                |e: (CacheKey, CacheVal)| (key_view(e.0), val_view(e.1))),
            f == (|k: CacheKeyView, v: CacheValView| spec_entry_weight(k, v)),
            acc == if pair_seq_sum(views.take(i as int), f) > u64::MAX {
                u64::MAX as nat
            } else {
                pair_seq_sum(views.take(i as int), f)
            },
    {
        let w = entry_weight(&entries[i].0, &entries[i].1);
        if acc > u64::MAX - (w as u64) {
            acc = u64::MAX;
        } else {
            acc = acc + (w as u64);
        }
        proof {
            assert(views.take(i + 1).drop_last() =~= views.take(i as int));
            assert(views.take(i + 1).last() == (key_view(entries@[i as int].0),
                val_view(entries@[i as int].1)));
            crate::accounting::lemma_pair_seq_sum_push(
                views.take(i as int), f, views.take(i + 1).last());
            assert(views.take(i + 1) =~= views.take(i as int).push(views.take(i + 1).last()));
        }
    }
    proof {
        assert(views.take(n as int) =~= views);
        assert forall|i: int| 0 <= i < views.len()
            implies store_contents(*c).contains_pair((#[trigger] views[i]).0, views[i].1) by {
            assert(views[i] == (key_view(entries@[i].0), val_view(entries@[i].1)));
        }
        assert forall|i: int, j: int| 0 <= i < j < views.len()
            implies (#[trigger] views[i]).0 != (#[trigger] views[j]).0 by {
            assert(views[i].0 == key_view(entries@[i].0));
            assert(views[j].0 == key_view(entries@[j].0));
        }
        assert forall|k2: CacheKeyView| #[trigger] store_contents(*c).dom().contains(k2)
            implies exists|i: int| 0 <= i < views.len() && (#[trigger] views[i]).0 == k2 by {
            let i = choose|i: int|
                0 <= i < entries@.len() && key_view((#[trigger] entries@[i]).0) == k2;
            assert(views[i].0 == k2);
        }
        lemma_enumeration_sum(views, store_contents(*c), f);
    }
    acc
}

} // verus!

verus! {

/// Kind of file kept by the write-through file cache.
#[derive(Clone, Copy, PartialEq, Eq, Structural, Hash, Debug)]
pub enum FileType {
    Parquet,
    Puffin,
}

/// Key of the write-through file cache.
#[derive(Clone, Copy, PartialEq, Eq, Structural, Hash, Debug)]
pub struct IndexKey {
    pub region_id: RegionId,
    pub file_id: FileId,
    pub file_type: FileType,
}

impl IndexKey {
    pub fn new(region_id: RegionId, file_id: FileId, file_type: FileType) -> (r: IndexKey)
        ensures
            r == (IndexKey { region_id, file_id, file_type }),
    {
        IndexKey { region_id, file_id, file_type }
    }
}

/// The write-through cache of files uploaded to the object store, at the
/// granularity the metadata path reads it: for each locally kept parquet
/// file, its decoded footer.
pub struct WriteCache {
    pub files: Vec<(IndexKey, std::sync::Arc<parquet::file::metadata::ParquetMetaData>)>,
}

impl WriteCache {
    pub open spec fn wf(self) -> bool {
        forall|i: int, j: int|
            0 <= i < j < self.files@.len() ==> (#[trigger] self.files@[i]).0 != (#[trigger] self.files@[j]).0
    }

    pub open spec fn spec_has(self, key: IndexKey) -> bool {
        exists|i: int| 0 <= i < self.files@.len() && (#[trigger] self.files@[i]).0 == key
    }

    pub open spec fn spec_file_index(self, key: IndexKey) -> int {
        choose|i: int| 0 <= i < self.files@.len() && (#[trigger] self.files@[i]).0 == key
    }

    /// The footer stored for a file; meaningful when the file is held.
    pub open spec fn spec_file_at(self, key: IndexKey) -> std::sync::Arc<parquet::file::metadata::ParquetMetaData> {
        self.files@[self.spec_file_index(key)].1
    }

    pub fn new() -> (r: WriteCache)
        ensures
            r.wf(),
            r.files@.len() == 0,
    {
        WriteCache { files: Vec::new() }
    }

    /// Records a locally kept file's decoded footer (the write path calls
    /// this after a successful upload); a repeated upload of the same
    /// file replaces the footer.
    pub fn put_file(&mut self, key: IndexKey, meta: std::sync::Arc<parquet::file::metadata::ParquetMetaData>)
        requires
            old(self).wf(),
        ensures
            final(self).wf(),
            final(self).spec_has(key),
            final(self).spec_file_at(key) == meta,
            forall|k2: IndexKey| #[trigger] final(self).spec_has(k2)
                <==> old(self).spec_has(k2) || k2 == key,
            forall|k2: IndexKey| old(self).spec_has(k2) && k2 != key
                ==> #[trigger] final(self).spec_file_at(k2) == old(self).spec_file_at(k2),
    {
        let n = self.files.len();
        let mut at: usize = n;
        for i in 0..n
            invariant
                n == self.files@.len(),
                self.wf(),
                at == n,
                *self == *old(self),
                forall|j: int| 0 <= j < i ==> (#[trigger] self.files@[j]).0 != key,
        {
            if self.files[i].0 == key {
                proof {
                    assert(old(self).spec_has(key));
                    let k = old(self).spec_file_index(key);
                    assert(0 <= k < old(self).files@.len() && old(self).files@[k].0 == key);
                    if k != i as int {
                        assert(old(self).files@[k].0 != old(self).files@[i as int].0);
                    }
                }
                let _ = self.files.remove(i);
                self.files.insert(i, (key, meta));
                proof {
                    assert(self.files@ =~= old(self).files@.update(i as int, (key, meta)));
                    assert(self.files@[i as int].0 == key);
                    assert(self.spec_has(key));
                    let k2i = self.spec_file_index(key);
                    assert(0 <= k2i < self.files@.len() && self.files@[k2i].0 == key);
                    if k2i != i as int {
                        assert(self.files@[k2i].0 != self.files@[i as int].0);
                    }
                    assert forall|k2: IndexKey| #[trigger] self.spec_has(k2)
                        <==> old(self).spec_has(k2) by {
                        if old(self).spec_has(k2) {
                            let a = old(self).spec_file_index(k2);
                            assert(self.files@[a].0 == k2);
                        }
                        if self.spec_has(k2) {
                            let a = choose|a: int|
                                0 <= a < self.files@.len() && (#[trigger] self.files@[a]).0 == k2;
                            assert(old(self).files@[a].0 == k2);
                        }
                    }
                    assert forall|k2: IndexKey| old(self).spec_has(k2) && k2 != key
                        implies #[trigger] self.spec_file_at(k2) == old(self).spec_file_at(k2) by {
                        let a = old(self).spec_file_index(k2);
                        assert(0 <= a < old(self).files@.len() && old(self).files@[a].0 == k2);
                        if a == i as int {
                            assert(old(self).files@[i as int].0 == key);
                        }
                        assert(self.files@[a] == old(self).files@[a]);
                        let b = self.spec_file_index(k2);
                        assert(0 <= b < self.files@.len() && self.files@[b].0 == k2);
                        if b != a {
                            assert(self.files@[b].0 != self.files@[a].0);
                        }
                    }
                }
                return;
            }
        }
        self.files.push((key, meta));
        proof {
            assert(self.files@[self.files@.len() - 1].0 == key);
            let k = self.spec_file_index(key);
            assert(0 <= k < self.files@.len() && self.files@[k].0 == key);
            if k != self.files@.len() - 1 {
                assert(old(self).files@[k].0 == key);
            }
            assert forall|k2: IndexKey| old(self).spec_has(k2)
                implies #[trigger] self.spec_has(k2) by {
                let i = choose|i: int|
                    0 <= i < old(self).files@.len() && (#[trigger] old(self).files@[i]).0 == k2;
                assert(self.files@[i].0 == k2);
            }
            assert forall|k2: IndexKey| #[trigger] self.spec_has(k2)
                implies old(self).spec_has(k2) || k2 == key by {
                let i = choose|i: int|
                    0 <= i < self.files@.len() && (#[trigger] self.files@[i]).0 == k2;
                if i < self.files@.len() - 1 {
                    assert(old(self).files@[i].0 == k2);
                }
            }
            assert forall|k2: IndexKey| old(self).spec_has(k2) && k2 != key
                implies #[trigger] self.spec_file_at(k2) == old(self).spec_file_at(k2) by {
                let a = old(self).spec_file_index(k2);
                assert(0 <= a < old(self).files@.len() && old(self).files@[a].0 == k2);
                assert(self.files@[a] == old(self).files@[a]);
                let b = self.spec_file_index(k2);
                assert(0 <= b < self.files@.len() && self.files@[b].0 == k2);
                if b != a {
                    assert(self.files@[b].0 != self.files@[a].0);
                }
            }
        }
    }

    /// Returns the decoded footer of a locally kept file, exactly when
    /// the cache holds that file.
    pub fn get_parquet_meta_data(&self, key: IndexKey)
        -> (r: Option<std::sync::Arc<parquet::file::metadata::ParquetMetaData>>)
        requires
            self.wf(),
        ensures
            match r {
                Some(a) => self.spec_has(key) && a == self.spec_file_at(key),
                None => !self.spec_has(key),
            },
    {
        let n = self.files.len();
        for i in 0..n
            invariant
                n == self.files@.len(),
                self.wf(),
                forall|j: int| 0 <= j < i ==> (#[trigger] self.files@[j]).0 != key,
        {
            if self.files[i].0 == key {
                proof {
                    let k = self.spec_file_index(key);
                    assert(0 <= k < self.files@.len() && self.files@[k].0 == key);
                    if k != i as int {
                        assert(self.files@[k].0 != self.files@[i as int].0);
                    }
                }
                return Some(clone_meta_handle(&self.files[i].1));
            }
        }
        None
    }
}

/// Hit and miss counters per cache tier: the observability surface.
#[derive(Clone, Copy, PartialEq, Eq, Structural, Debug)]
pub struct CacheStats {
    pub meta_hits: u64,
    pub meta_misses: u64,
    pub vector_hits: u64,
    pub vector_misses: u64,
    pub page_hits: u64,
    pub page_misses: u64,
}

/// Bumps the hit counter when a lookup produced a value and the miss
/// counter otherwise, handing the value through unchanged.
pub fn update_hit_miss<T>(hits: &mut u64, misses: &mut u64, value: Option<T>) -> (r: Option<T>)
    ensures
        r == value,
        value is Some ==> *final(hits) == sat_inc(*old(hits)) && *final(misses) == *old(misses),
        value is None ==> *final(misses) == sat_inc(*old(misses)) && *final(hits) == *old(hits),
{
    if value.is_some() {
        if *hits < u64::MAX {
            *hits = *hits + 1;
        }
    } else {
        if *misses < u64::MAX {
            *misses = *misses + 1;
        }
    }
    value
}

/// A counter bump that stops at the top instead of wrapping.
pub open spec fn sat_inc(v: u64) -> u64 {
    if v < u64::MAX { (v + 1) as u64 } else { v }
}

/// Only metadata entries live in the metadata store.
pub open spec fn meta_typed(m: Map<CacheKeyView, CacheValView>) -> bool {
    forall|k: CacheKeyView| #[trigger] m.dom().contains(k) ==> k is Meta && m[k] is Meta
}

/// Only repeated-value entries live in the vector store.
pub open spec fn vector_typed(m: Map<CacheKeyView, CacheValView>) -> bool {
    forall|k: CacheKeyView| #[trigger] m.dom().contains(k) ==> k is Scalar && m[k] is Vector
}

/// Only page entries live in the page store.
pub open spec fn page_typed(m: Map<CacheKeyView, CacheValView>) -> bool {
    forall|k: CacheKeyView| #[trigger] m.dom().contains(k) ==> k is Page && m[k] is Page
}

/// Manages the cached data for the engine: three bounded size-weighted
/// stores plus the optional write-through file cache.  A byte budget of
/// zero disables the tier: its store is never touched, so it stays
/// empty and every probe misses.
pub struct CacheManager {
    pub sst_meta_cache: Option<moka::sync::Cache<CacheKey, CacheVal>>,
    pub vector_cache: Option<moka::sync::Cache<CacheKey, CacheVal>>,
    pub page_cache: Option<moka::sync::Cache<CacheKey, CacheVal>>,
    pub write_cache: Option<WriteCache>,
    pub meta_budget: u64,
    pub vector_budget: u64,
    pub page_budget: u64,
    pub stats: CacheStats,
}

impl CacheManager {
    pub open spec fn spec_meta_contents(self) -> Map<CacheKeyView, CacheValView> {
        match self.sst_meta_cache {
            Some(c) => store_contents(c),
            None => Map::empty(),
        }
    }

    pub open spec fn spec_vector_contents(self) -> Map<CacheKeyView, CacheValView> {
        match self.vector_cache {
            Some(c) => store_contents(c),
            None => Map::empty(),
        }
    }

    pub open spec fn spec_page_contents(self) -> Map<CacheKeyView, CacheValView> {
        match self.page_cache {
            Some(c) => store_contents(c),
            None => Map::empty(),
        }
    }

    pub open spec fn wf(self) -> bool {
        &&& (self.sst_meta_cache is Some <==> self.meta_budget != 0)
        &&& (self.vector_cache is Some <==> self.vector_budget != 0)
        &&& (self.page_cache is Some <==> self.page_budget != 0)
        &&& (match self.sst_meta_cache {
            Some(c) => store_capacity(c) == self.meta_budget
                && store_contents(c).dom().finite() && meta_typed(store_contents(c)),
            None => true,
        })
        &&& (match self.vector_cache {
            Some(c) => store_capacity(c) == self.vector_budget
                && store_contents(c).dom().finite() && vector_typed(store_contents(c)),
            None => true,
        })
        &&& (match self.page_cache {
            Some(c) => store_capacity(c) == self.page_budget
                && store_contents(c).dom().finite() && page_typed(store_contents(c)),
            None => true,
        })
        &&& (match self.write_cache {
            Some(w) => w.wf(),
            None => true,
        })
    }

    /// Returns a builder to build the cache.
    pub fn builder() -> (r: CacheManagerBuilder)
        ensures
            r.sst_meta_cache_size == 0,
            r.vector_cache_size == 0,
            r.page_cache_size == 0,
            r.write_cache is None,
    {
        CacheManagerBuilder {
            sst_meta_cache_size: 0,
            vector_cache_size: 0,
            page_cache_size: 0,
            write_cache: None,
        }
    }

    /// The write-through file cache, if one was attached.
    pub fn write_cache(&self) -> (r: &Option<WriteCache>)
        ensures
            r == &self.write_cache,
    {
        &self.write_cache
    }
}

impl Default for CacheManager {
    /// All caches disabled.
    fn default() -> (r: CacheManager)
        ensures
            r.wf(),
            r.meta_budget == 0,
            r.vector_budget == 0,
            r.page_budget == 0,
            r.write_cache is None,
            r.spec_meta_contents().dom() == Set::<CacheKeyView>::empty(),
            r.spec_vector_contents().dom() == Set::<CacheKeyView>::empty(),
            r.spec_page_contents().dom() == Set::<CacheKeyView>::empty(),
    {
        CacheManager {
            sst_meta_cache: None,
            vector_cache: None,
            page_cache: None,
            write_cache: None,
            meta_budget: 0,
            vector_budget: 0,
            page_budget: 0,
            stats: CacheStats {
                meta_hits: 0,
                meta_misses: 0,
                vector_hits: 0,
                vector_misses: 0,
                page_hits: 0,
                page_misses: 0,
            },
        }
    }
}

/// Builder to construct a [`CacheManager`].
pub struct CacheManagerBuilder {
    pub sst_meta_cache_size: u64,
    pub vector_cache_size: u64,
    pub page_cache_size: u64,
    pub write_cache: Option<WriteCache>,
}

impl Default for CacheManagerBuilder {
    fn default() -> (r: CacheManagerBuilder)
        ensures
            r.sst_meta_cache_size == 0,
            r.vector_cache_size == 0,
            r.page_cache_size == 0,
            r.write_cache is None,
    {
        CacheManager::builder()
    }
}

impl CacheManagerBuilder {
    /// Sets the metadata cache's byte budget.
    pub fn sst_meta_cache_size(self, bytes: u64) -> (r: Self)
        ensures
            r == (CacheManagerBuilder { sst_meta_cache_size: bytes, ..self }),
    {
        CacheManagerBuilder { sst_meta_cache_size: bytes, ..self }
    }

    /// Sets the vector cache's byte budget.
    pub fn vector_cache_size(self, bytes: u64) -> (r: Self)
        ensures
            r == (CacheManagerBuilder { vector_cache_size: bytes, ..self }),
    {
        CacheManagerBuilder { vector_cache_size: bytes, ..self }
    }

    /// Sets the page cache's byte budget.
    pub fn page_cache_size(self, bytes: u64) -> (r: Self)
        ensures
            r == (CacheManagerBuilder { page_cache_size: bytes, ..self }),
    {
        CacheManagerBuilder { page_cache_size: bytes, ..self }
    }

    /// Attaches (or detaches) the write-through file cache.
    pub fn write_cache(self, cache: Option<WriteCache>) -> (r: Self)
        ensures
            r.sst_meta_cache_size == self.sst_meta_cache_size,
            r.vector_cache_size == self.vector_cache_size,
            r.page_cache_size == self.page_cache_size,
            r.write_cache == cache,
    {
        CacheManagerBuilder { write_cache: cache, ..self }
    }

    /// Builds the [`CacheManager`]: each tier with a non-zero budget gets
    /// an empty bounded store; a zero budget leaves the tier absent.
    pub fn build(self) -> (r: CacheManager)
        requires
            (match self.write_cache {
                Some(w) => w.wf(),
                None => true,
            }),
        ensures
            r.wf(),
            r.meta_budget == self.sst_meta_cache_size,
            r.vector_budget == self.vector_cache_size,
            r.page_budget == self.page_cache_size,
            r.write_cache == self.write_cache,
            forall|k2: CacheKeyView| !r.spec_meta_contents().dom().contains(k2),
            forall|k2: CacheKeyView| !r.spec_vector_contents().dom().contains(k2),
            forall|k2: CacheKeyView| !r.spec_page_contents().dom().contains(k2),
            r.stats == (CacheStats {
                meta_hits: 0,
                meta_misses: 0,
                vector_hits: 0,
                vector_misses: 0,
                page_hits: 0,
                page_misses: 0,
            }),
    {
        let sst_meta_cache = if self.sst_meta_cache_size != 0 {
            Some(store_new(self.sst_meta_cache_size))
        } else {
            None
        };
        let vector_cache = if self.vector_cache_size != 0 {
            Some(store_new(self.vector_cache_size))
        } else {
            None
        };
        let page_cache = if self.page_cache_size != 0 {
            Some(store_new(self.page_cache_size))
        } else {
            None
        };
        CacheManager {
            sst_meta_cache,
            vector_cache,
            page_cache,
            write_cache: self.write_cache,
            meta_budget: self.sst_meta_cache_size,
            vector_budget: self.vector_cache_size,
            page_budget: self.page_cache_size,
            stats: CacheStats {
                meta_hits: 0,
                meta_misses: 0,
                vector_hits: 0,
                vector_misses: 0,
                page_hits: 0,
                page_misses: 0,
            },
        }
    }
}

} // verus!

verus! {

impl ScalarValue {
    /// A view-preserving copy (a derived clone says nothing about the
    /// copy).
    pub fn dup(&self) -> (r: ScalarValue)
        ensures
            scalar_view(r) == scalar_view(*self),
    {
        match self {
            ScalarValue::Null => ScalarValue::Null,
            ScalarValue::Bool(b) => ScalarValue::Bool(*b),
            ScalarValue::Int64(v) => ScalarValue::Int64(*v),
            ScalarValue::UInt64(v) => ScalarValue::UInt64(*v),
            ScalarValue::Utf8(s) => ScalarValue::Utf8(s.clone()),
        }
    }
}

impl CacheManager {
    /// Everything but the vector tier and the counters is unchanged.
    pub open spec fn spec_same_but_vector(self, other: CacheManager) -> bool {
        self.sst_meta_cache == other.sst_meta_cache && self.page_cache == other.page_cache
            && self.write_cache == other.write_cache && self.meta_budget == other.meta_budget
            && self.vector_budget == other.vector_budget && self.page_budget == other.page_budget
            && self.vector_cache is Some == other.vector_cache is Some
    }

    /// Everything but the metadata tier and the counters is unchanged.
    pub open spec fn spec_same_but_meta(self, other: CacheManager) -> bool {
        self.vector_cache == other.vector_cache && self.page_cache == other.page_cache
            && self.write_cache == other.write_cache && self.meta_budget == other.meta_budget
            && self.vector_budget == other.vector_budget && self.page_budget == other.page_budget
            && self.sst_meta_cache is Some == other.sst_meta_cache is Some
    }

    /// Everything but the page tier and the counters is unchanged.
    pub open spec fn spec_same_but_page(self, other: CacheManager) -> bool {
        self.sst_meta_cache == other.sst_meta_cache && self.vector_cache == other.vector_cache
            && self.write_cache == other.write_cache && self.meta_budget == other.meta_budget
            && self.vector_budget == other.vector_budget && self.page_budget == other.page_budget
            && self.page_cache is Some == other.page_cache is Some
    }

    /// Gets the vector of repeated values for the scalar.  With a zero
    /// budget the probe always misses; otherwise it returns exactly the
    /// entry the store holds for the key, and within the budget the
    /// store is left untouched.
    pub fn get_repeated_vector(&mut self, key: &ScalarValue) -> (r: Option<RepeatedVector>)
        requires
            old(self).wf(),
        ensures
            final(self).wf(),
            final(self).spec_same_but_vector(*old(self)),
            old(self).vector_budget == 0 ==> r is None,
            ({
                let kv = CacheKeyView::Scalar(scalar_view(*key));
                let m = old(self).spec_vector_contents();
                &&& (match r {
                    Some(v) => m.dom().contains(kv)
                        && m[kv] == CacheValView::Vector(vector_view(v)),
                    None => !m.dom().contains(kv),
                })
                &&& (contents_weight(m) <= old(self).vector_budget
                    ==> final(self).spec_vector_contents() == m)
                &&& (forall|k2: CacheKeyView|
                    #[trigger] final(self).spec_vector_contents().dom().contains(k2)
                        ==> m.dom().contains(k2)
                            && final(self).spec_vector_contents()[k2] == m[k2])
                &&& final(self).stats == (if r is Some {
                    CacheStats { vector_hits: sat_inc(old(self).stats.vector_hits), ..old(self).stats }
                } else {
                    CacheStats { vector_misses: sat_inc(old(self).stats.vector_misses), ..old(self).stats }
                })
            }),
    {
        let found = match &mut self.vector_cache {
            Some(c) => {
                let k = CacheKey::Scalar(key.dup());
                match store_get(c, &k) {
                    Some(CacheVal::Vector(rv)) => Some(rv),
                    Some(_) => {
                        proof {
                            assert(false);
                        }
                        None
                    },
                    None => None,
                }
            },
            None => None,
        };
        update_hit_miss(&mut self.stats.vector_hits, &mut self.stats.vector_misses, found)
    }

    /// Puts a vector of repeated values into the cache.  The put silently
    /// does nothing when the tier is disabled or the entry's weight
    /// exceeds the whole budget; a put that fits beside the live entries
    /// lands exactly.
    pub fn put_repeated_vector(&mut self, key: ScalarValue, vector: RepeatedVector)
        requires
            old(self).wf(),
        ensures
            final(self).wf(),
            final(self).spec_same_but_vector(*old(self)),
            final(self).stats == old(self).stats,
            ({
                let kv = CacheKeyView::Scalar(scalar_view(key));
                let vv = CacheValView::Vector(vector_view(vector));
                let m = old(self).spec_vector_contents();
                let w = spec_entry_weight(kv, vv);
                &&& (old(self).vector_budget == 0 ==> final(self).spec_vector_contents() == m)
                &&& (w > old(self).vector_budget ==> final(self).spec_vector_contents() == m)
                &&& (old(self).vector_budget != 0 && contents_weight(m) + w <= old(self).vector_budget
                    ==> final(self).spec_vector_contents() == m.insert(kv, vv))
                &&& (forall|k2: CacheKeyView|
                    #[trigger] final(self).spec_vector_contents().dom().contains(k2)
                        ==> k2 == kv || m.dom().contains(k2))
                &&& (forall|k2: CacheKeyView|
                    final(self).spec_vector_contents().dom().contains(k2) && k2 != kv
                        ==> #[trigger] final(self).spec_vector_contents()[k2] == m[k2])
            }),
    {
        let w = entry_weight(&CacheKey::Scalar(key.dup()), &CacheVal::Vector(RepeatedVector {
            value: key.dup(),
            len: vector.len,
        }));
        if (w as u64) > self.vector_budget {
            // a value heavier than the whole budget is not admitted
            return;
        }
        match &mut self.vector_cache {
            Some(c) => {
                store_insert(c, CacheKey::Scalar(key), CacheVal::Vector(vector));
            },
            None => {
                proof {
                    assert(false);
                }
            },
        }
    }

    /// Gets the cached pages of a row group's column.
    pub fn get_pages(&mut self, page_key: &PageKey) -> (r: Option<std::sync::Arc<PageValue>>)
        requires
            old(self).wf(),
        ensures
            final(self).wf(),
            final(self).spec_same_but_page(*old(self)),
            old(self).page_budget == 0 ==> r is None,
            ({
                let kv = CacheKeyView::Page(*page_key);
                let m = old(self).spec_page_contents();
                &&& (match r {
                    Some(v) => m.dom().contains(kv)
                        && m[kv] == CacheValView::Page(pages_view(v.pages@)),
                    None => !m.dom().contains(kv),
                })
                &&& (contents_weight(m) <= old(self).page_budget
                    ==> final(self).spec_page_contents() == m)
                &&& (forall|k2: CacheKeyView|
                    #[trigger] final(self).spec_page_contents().dom().contains(k2)
                        ==> m.dom().contains(k2)
                            && final(self).spec_page_contents()[k2] == m[k2])
                &&& final(self).stats == (if r is Some {
                    CacheStats { page_hits: sat_inc(old(self).stats.page_hits), ..old(self).stats }
                } else {
                    CacheStats { page_misses: sat_inc(old(self).stats.page_misses), ..old(self).stats }
                })
            }),
    {
        let found = match &mut self.page_cache {
            Some(c) => {
                let k = CacheKey::Page(*page_key);
                match store_get(c, &k) {
                    Some(CacheVal::Page(p)) => Some(p),
                    Some(_) => {
                        proof {
                            assert(false);
                        }
                        None
                    },
                    None => None,
                }
            },
            None => None,
        };
        update_hit_miss(&mut self.stats.page_hits, &mut self.stats.page_misses, found)
    }

    /// Puts the pages of a row group's column into the cache; same
    /// admission rules as the vector tier.
    pub fn put_pages(&mut self, page_key: PageKey, pages: std::sync::Arc<PageValue>)
        requires
            old(self).wf(),
        ensures
            final(self).wf(),
            final(self).spec_same_but_page(*old(self)),
            final(self).stats == old(self).stats,
            ({
                let kv = CacheKeyView::Page(page_key);
                let vv = CacheValView::Page(pages_view(pages.pages@));
                let m = old(self).spec_page_contents();
                let w = spec_entry_weight(kv, vv);
                &&& (old(self).page_budget == 0 ==> final(self).spec_page_contents() == m)
                &&& (w > old(self).page_budget ==> final(self).spec_page_contents() == m)
                &&& (old(self).page_budget != 0 && contents_weight(m) + w <= old(self).page_budget
                    ==> final(self).spec_page_contents() == m.insert(kv, vv))
                &&& (forall|k2: CacheKeyView|
                    #[trigger] final(self).spec_page_contents().dom().contains(k2)
                        ==> k2 == kv || m.dom().contains(k2))
                &&& (forall|k2: CacheKeyView|
                    final(self).spec_page_contents().dom().contains(k2) && k2 != kv
                        ==> #[trigger] final(self).spec_page_contents()[k2] == m[k2])
            }),
    {
        let w = entry_weight(&CacheKey::Page(page_key), &CacheVal::Page(pages.clone()));
        proof {
            assert(val_view(CacheVal::Page(pages)) == CacheValView::Page(pages_view(pages.pages@)));
        }
        if (w as u64) > self.page_budget {
            return;
        }
        match &mut self.page_cache {
            Some(c) => {
                store_insert(c, CacheKey::Page(page_key), CacheVal::Page(pages));
            },
            None => {
                proof {
                    assert(false);
                }
            },
        }
    }
}

} // verus!

verus! {

impl CacheManager {
    /// Removes the cached footer of a file; within the budget the removal
    /// is exact, and the key is gone in any case.
    pub fn remove_parquet_meta_data(&mut self, region_id: RegionId, file_id: FileId)
        requires
            old(self).wf(),
        ensures
            final(self).wf(),
            final(self).spec_same_but_meta(*old(self)),
            final(self).stats == old(self).stats,
            ({
                let kv = CacheKeyView::Meta(SstMetaKey(region_id, file_id));
                let m = old(self).spec_meta_contents();
                &&& !final(self).spec_meta_contents().dom().contains(kv)
                &&& (old(self).meta_budget != 0 && contents_weight(m) <= old(self).meta_budget
                    ==> final(self).spec_meta_contents() == m.remove(kv))
                &&& (old(self).meta_budget == 0 ==> final(self).spec_meta_contents() == m)
                &&& (forall|k2: CacheKeyView|
                    #[trigger] final(self).spec_meta_contents().dom().contains(k2)
                        ==> m.dom().contains(k2)
                            && final(self).spec_meta_contents()[k2] == m[k2])
            }),
    {
        match &mut self.sst_meta_cache {
            Some(c) => {
                let k = CacheKey::Meta(SstMetaKey(region_id, file_id));
                store_remove(c, &k);
            },
            None => {},
        }
    }

    /// Puts a decoded footer into the metadata cache, weighted by the
    /// key's size plus the footer's estimated heap size.  No-op when the
    /// tier is disabled or the weight exceeds the whole budget; a put
    /// that fits lands exactly.
    pub fn put_parquet_meta_data(
        &mut self,
        region_id: RegionId,
        file_id: FileId,
        metadata: std::sync::Arc<parquet::file::metadata::ParquetMetaData>,
    )
        requires
            old(self).wf(),
        ensures
            final(self).wf(),
            final(self).spec_same_but_meta(*old(self)),
            final(self).stats == old(self).stats,
            ({
                let kv = CacheKeyView::Meta(SstMetaKey(region_id, file_id));
                let m = old(self).spec_meta_contents();
                let w = spec_meta_weight(metadata);
                &&& (old(self).meta_budget == 0 ==> final(self).spec_meta_contents() == m)
                &&& (w > old(self).meta_budget ==> final(self).spec_meta_contents() == m)
                &&& (old(self).meta_budget != 0 && contents_weight(m) + w <= old(self).meta_budget
                    ==> final(self).spec_meta_contents()
                        == m.insert(kv, CacheValView::Meta(metadata, w as u32)))
                &&& (forall|k2: CacheKeyView|
                    #[trigger] final(self).spec_meta_contents().dom().contains(k2)
                        ==> k2 == kv || m.dom().contains(k2))
                &&& (forall|k2: CacheKeyView|
                    final(self).spec_meta_contents().dom().contains(k2) && k2 != kv
                        ==> #[trigger] final(self).spec_meta_contents()[k2] == m[k2])
                &&& (old(self).meta_budget != 0 && w <= old(self).meta_budget
                    && final(self).spec_meta_contents().dom().contains(kv)
                    ==> final(self).spec_meta_contents()[kv]
                        == CacheValView::Meta(metadata, w as u32))
            }),
    {
        let key = SstMetaKey(region_id, file_id);
        let meta_size = parquet_meta_size(&metadata);
        let w: u32 = if meta_size as u64 > (0xFFFF_FFFFu64 - 24) {
            0xFFFF_FFFF
        } else {
            24 + (meta_size as u32)
        };
        proof {
            assert(w as nat == spec_meta_weight(metadata));
        }
        if (w as u64) > self.meta_budget {
            // disabled tier or an entry heavier than the whole budget
            return;
        }
        match &mut self.sst_meta_cache {
            Some(c) => {
                store_insert(c, CacheKey::Meta(key), CacheVal::Meta(MetaEntry { meta: metadata, size: w }));
            },
            None => {
                proof {
                    assert(false);
                }
            },
        }
    }

    /// Gets a cached footer: first from the metadata cache, then from
    /// the write-through file cache; a hit in the second tier is
    /// promoted into the first.  Returns `None` exactly when neither
    /// tier has the file.
    pub fn get_parquet_meta_data(&mut self, region_id: RegionId, file_id: FileId)
        -> (r: Option<std::sync::Arc<parquet::file::metadata::ParquetMetaData>>)
        requires
            old(self).wf(),
        ensures
            final(self).wf(),
            final(self).spec_same_but_meta(*old(self)),
            ({
                let kv = CacheKeyView::Meta(SstMetaKey(region_id, file_id));
                let fkey = IndexKey {
                    region_id,
                    file_id,
                    file_type: FileType::Parquet,
                };
                let m = old(self).spec_meta_contents();
                &&& (r is Some <==> (m.dom().contains(kv)
                    || (match old(self).write_cache {
                        Some(w) => w.spec_has(fkey),
                        None => false,
                    })))
                // a first-tier hit returns exactly the cached footer
                &&& (m.dom().contains(kv) ==> (match (r, m[kv]) {
                    (Some(a), CacheValView::Meta(b, w)) => a == b,
                    _ => false,
                }))
                // a file-tier hit returns exactly the locally kept footer
                &&& (!m.dom().contains(kv) ==> (match old(self).write_cache {
                    Some(wc) => wc.spec_has(fkey) ==> (match r {
                        Some(a) => a == wc.spec_file_at(fkey),
                        None => false,
                    }),
                    None => true,
                }))
                // ... and is promoted into the first tier when it fits
                &&& (!m.dom().contains(kv) && old(self).meta_budget != 0
                    ==> (match old(self).write_cache {
                        Some(wc) => wc.spec_has(fkey)
                            && contents_weight(m) + spec_meta_weight(wc.spec_file_at(fkey))
                                <= old(self).meta_budget
                            ==> final(self).spec_meta_contents().dom().contains(kv)
                                && final(self).spec_meta_contents()[kv]
                                    == CacheValView::Meta(wc.spec_file_at(fkey),
                                        spec_meta_weight(wc.spec_file_at(fkey)) as u32),
                        None => true,
                    }))
                &&& (forall|k2: CacheKeyView|
                    #[trigger] final(self).spec_meta_contents().dom().contains(k2)
                        ==> k2 == kv || m.dom().contains(k2))
                &&& (forall|k2: CacheKeyView|
                    final(self).spec_meta_contents().dom().contains(k2) && k2 != kv
                        ==> #[trigger] final(self).spec_meta_contents()[k2] == m[k2])
                &&& (m.dom().contains(kv) ==> final(self).stats
                    == (CacheStats { meta_hits: sat_inc(old(self).stats.meta_hits), ..old(self).stats }))
                &&& (!m.dom().contains(kv) ==> final(self).stats
                    == (CacheStats { meta_misses: sat_inc(old(self).stats.meta_misses), ..old(self).stats }))
            }),
    {
        // first tier: the metadata cache
        let key = SstMetaKey(region_id, file_id);
        let found = match &mut self.sst_meta_cache {
            Some(c) => {
                let k = CacheKey::Meta(key);
                match store_get(c, &k) {
                    Some(CacheVal::Meta(e)) => Some(e.meta),
                    Some(_) => {
                        proof {
                            assert(false);
                        }
                        None
                    },
                    None => None,
                }
            },
            None => None,
        };
        let found = update_hit_miss(&mut self.stats.meta_hits, &mut self.stats.meta_misses, found);
        if found.is_some() {
            return found;
        }
        // second tier: the write-through file cache; promote on hit
        let fkey = IndexKey::new(region_id, file_id, FileType::Parquet);
        let from_file = match &self.write_cache {
            Some(w) => w.get_parquet_meta_data(fkey),
            None => None,
        };
        match from_file {
            Some(meta) => {
                let out = clone_meta_handle(&meta);
                self.put_parquet_meta_data(region_id, file_id, meta);
                Some(out)
            },
            None => None,
        }
    }

    /// Exported gauge: the bytes held by the metadata cache, equal to
    /// the summed weights of its live entries.
    pub fn meta_cache_bytes(&self) -> (r: u64)
        requires
            self.wf(),
        ensures
            r == if contents_weight(self.spec_meta_contents()) > u64::MAX {
                u64::MAX as nat
            } else {
                contents_weight(self.spec_meta_contents())
            },
    {
        match &self.sst_meta_cache {
            Some(c) => store_bytes(c),
            None => {
                proof {
                    lemma_empty_weight();
                }
                0
            },
        }
    }

    /// Exported gauge: the bytes held by the vector cache.
    pub fn vector_cache_bytes(&self) -> (r: u64)
        requires
            self.wf(),
        ensures
            r == if contents_weight(self.spec_vector_contents()) > u64::MAX {
                u64::MAX as nat
            } else {
                contents_weight(self.spec_vector_contents())
            },
    {
        match &self.vector_cache {
            Some(c) => store_bytes(c),
            None => {
                proof {
                    lemma_empty_weight();
                }
                0
            },
        }
    }

    /// Exported gauge: the bytes held by the page cache.
    pub fn page_cache_bytes(&self) -> (r: u64)
        requires
            self.wf(),
        ensures
            r == if contents_weight(self.spec_page_contents()) > u64::MAX {
                u64::MAX as nat
            } else {
                contents_weight(self.spec_page_contents())
            },
    {
        match &self.page_cache {
            Some(c) => store_bytes(c),
            None => {
                proof {
                    lemma_empty_weight();
                }
                0
            },
        }
    }
}

/// An absent tier holds nothing and weighs nothing.
pub proof fn lemma_empty_weight()
    ensures
        contents_weight(Map::<CacheKeyView, CacheValView>::empty()) == 0,
{
    assert(Map::<CacheKeyView, CacheValView>::empty().dom().is_empty());
}

} // verus!

verus! {

/// Cache round trip: a put that fits leaves the pair live, so a get of
/// the same key returns exactly the value put, until an eviction removes
/// it.
pub proof fn lemma_cache_round_trip(
    m: Map<CacheKeyView, CacheValView>,
    k: CacheKeyView,
    v: CacheValView,
)
    ensures
        m.insert(k, v).dom().contains(k),
        m.insert(k, v)[k] == v,
{
}

/// Cache disable round trip: a tier with a zero byte budget holds
/// nothing, so after any sequence of puts a get returns absence for
/// every key of every kind.
pub proof fn lemma_disabled_tiers_empty(c: CacheManager)
    requires
        c.wf(),
        c.meta_budget == 0,
        c.vector_budget == 0,
        c.page_budget == 0,
    ensures
        forall|k: CacheKeyView| !c.spec_meta_contents().dom().contains(k),
        forall|k: CacheKeyView| !c.spec_vector_contents().dom().contains(k),
        forall|k: CacheKeyView| !c.spec_page_contents().dom().contains(k),
{
    assert(c.sst_meta_cache is None);
    assert(c.vector_cache is None);
    assert(c.page_cache is None);
}

} // verus!
