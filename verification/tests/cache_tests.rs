use std::sync::Arc;

use parquet::file::metadata::{FileMetaData, ParquetMetaData};
use parquet::schema::types::{SchemaDescriptor, Type};

use region_control::cache::{
    CacheManager, FileType, IndexKey, PageKey, PageValue, RepeatedVector, ScalarValue, SstMetaKey,
    WriteCache,
};
use region_control::ids::{FileId, RegionId};

fn parquet_meta() -> Arc<ParquetMetaData> {
    let schema = Arc::new(Type::group_type_builder("schema").build().unwrap());
    let descr = Arc::new(SchemaDescriptor::new(schema));
    let file_meta = FileMetaData::new(2, 10, None, None, descr, None);
    Arc::new(ParquetMetaData::new(file_meta, Vec::new()))
}

#[test]
fn test_disable_cache() {
    let mut cache = CacheManager::default();
    assert!(cache.sst_meta_cache.is_none());
    assert!(cache.vector_cache.is_none());
    assert!(cache.page_cache.is_none());

    let region_id = RegionId::new(1, 1);
    let file_id = FileId::new(7, 9);
    let metadata = parquet_meta();
    cache.put_parquet_meta_data(region_id, file_id, metadata);
    assert!(cache.get_parquet_meta_data(region_id, file_id).is_none());

    let value = ScalarValue::Int64(10);
    let vector = RepeatedVector { value: ScalarValue::Int64(10), len: 4 };
    cache.put_repeated_vector(value.dup(), vector);
    assert!(cache.get_repeated_vector(&value).is_none());

    let key = PageKey { region_id, file_id, row_group_idx: 0, column_idx: 0 };
    let pages = Arc::new(PageValue::new(Vec::new()));
    cache.put_pages(key, pages);
    assert!(cache.get_pages(&key).is_none());

    assert!(cache.write_cache().is_none());
}

#[test]
fn test_parquet_meta_cache() {
    let mut cache = CacheManager::builder().sst_meta_cache_size(2000).build();
    let region_id = RegionId::new(1, 1);
    let file_id = FileId::new(3, 5);
    assert!(cache.get_parquet_meta_data(region_id, file_id).is_none());
    let metadata = parquet_meta();
    cache.put_parquet_meta_data(region_id, file_id, metadata);
    assert!(cache.get_parquet_meta_data(region_id, file_id).is_some());
    cache.remove_parquet_meta_data(region_id, file_id);
    assert!(cache.get_parquet_meta_data(region_id, file_id).is_none());
}

#[test]
fn test_repeated_vector_cache() {
    let mut cache = CacheManager::builder().vector_cache_size(4096).build();
    let value = ScalarValue::Int64(10);
    assert!(cache.get_repeated_vector(&value).is_none());
    let vector = RepeatedVector { value: ScalarValue::Int64(10), len: 4 };
    cache.put_repeated_vector(value.dup(), vector);
    let cached = cache.get_repeated_vector(&value).unwrap();
    assert_eq!(cached.value, ScalarValue::Int64(10));
    assert_eq!(cached.len, 4);
}

#[test]
fn test_page_cache() {
    let mut cache = CacheManager::builder().page_cache_size(1000).build();
    let region_id = RegionId::new(1, 1);
    let file_id = FileId::new(11, 13);
    let key = PageKey { region_id, file_id, row_group_idx: 0, column_idx: 0 };
    assert!(cache.get_pages(&key).is_none());
    let pages = Arc::new(PageValue::new(Vec::new()));
    cache.put_pages(key, pages);
    assert!(cache.get_pages(&key).is_some());
}

#[test]
fn test_cache_bytes_match_live_entries() {
    let mut cache = CacheManager::builder().vector_cache_size(4096).page_cache_size(4096).build();
    assert_eq!(cache.vector_cache_bytes(), 0);
    assert_eq!(cache.page_cache_bytes(), 0);

    // a repeated vector weighs 32 bytes plus 8 per repetition
    cache.put_repeated_vector(
        ScalarValue::Int64(10),
        RepeatedVector { value: ScalarValue::Int64(10), len: 4 },
    );
    assert_eq!(cache.vector_cache_bytes(), 64);
    cache.put_repeated_vector(
        ScalarValue::Int64(11),
        RepeatedVector { value: ScalarValue::Int64(11), len: 8 },
    );
    assert_eq!(cache.vector_cache_bytes(), 64 + 96);
    // updating a key replaces its weight instead of adding a second entry
    cache.put_repeated_vector(
        ScalarValue::Int64(10),
        RepeatedVector { value: ScalarValue::Int64(10), len: 1 },
    );
    assert_eq!(cache.vector_cache_bytes(), 40 + 96);

    // a page entry weighs 40 bytes for the key plus its buffers
    let key = PageKey {
        region_id: RegionId::new(1, 1),
        file_id: FileId::new(1, 2),
        row_group_idx: 0,
        column_idx: 0,
    };
    let pages = Arc::new(PageValue::new(vec![vec![0u8; 100], vec![0u8; 60]]));
    cache.put_pages(key, pages);
    assert_eq!(cache.page_cache_bytes(), 40 + 160);
}

#[test]
fn test_overweight_put_is_ignored() {
    let mut cache = CacheManager::builder().vector_cache_size(64).build();
    // 32 + 8 * 100 bytes exceeds the whole budget: the put must no-op
    cache.put_repeated_vector(
        ScalarValue::Int64(1),
        RepeatedVector { value: ScalarValue::Int64(1), len: 100 },
    );
    assert!(cache.get_repeated_vector(&ScalarValue::Int64(1)).is_none());
    assert_eq!(cache.vector_cache_bytes(), 0);
}

#[test]
fn test_write_cache_second_tier() {
    let region_id = RegionId::new(4, 2);
    let file_id = FileId::new(21, 22);
    let mut wc = WriteCache::new();
    wc.put_file(IndexKey::new(region_id, file_id, FileType::Parquet), parquet_meta());

    let mut cache = CacheManager::builder()
        .sst_meta_cache_size(2000)
        .write_cache(Some(wc))
        .build();

    // miss in the first tier, hit in the file cache, promoted on the way out
    assert!(cache.get_parquet_meta_data(region_id, file_id).is_some());
    assert_eq!(cache.stats.meta_hits, 0);
    assert_eq!(cache.stats.meta_misses, 1);
    // the promotion makes the next probe a first-tier hit
    assert!(cache.get_parquet_meta_data(region_id, file_id).is_some());
    assert_eq!(cache.stats.meta_hits, 1);
    assert!(cache.get_parquet_meta_data(RegionId::new(4, 3), file_id).is_none());

    let meta_key = SstMetaKey(region_id, file_id);
    assert_eq!(meta_key.estimated_size(), 24);
}

#[test]
fn test_parquet_meta_round_trip_same_footer() {
    let mut cache = CacheManager::builder().sst_meta_cache_size(4000).build();
    let region_id = RegionId::new(9, 9);
    let file_id = FileId::new(1, 1);
    let metadata = parquet_meta();
    cache.put_parquet_meta_data(region_id, file_id, Arc::clone(&metadata));
    // the footer a hit returns is the very footer that was put
    let got = cache.get_parquet_meta_data(region_id, file_id).unwrap();
    assert!(Arc::ptr_eq(&got, &metadata));
}
