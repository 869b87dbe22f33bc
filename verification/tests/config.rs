use databend::background_config::BackgroundCompactionConfig;
use databend::background_config::BackgroundConfig;
use databend::background_config::BackgroundJobType;
use databend::background_config::BackgroundScheduledConfig;
use databend::cache_manager::CacheCapacity;
use databend::cache_manager::CacheConfig;
use databend::cache_manager::CacheManager;
use databend::cache_manager::CacheStorageTypeInnerConfig;
use databend::cache_manager::DiskCacheConfig;
use databend::cache_manager::DiskCacheKeyReloadPolicy;
use databend::error::ErrorCode;

fn compaction(mode: &str, cron: &str, time_zone: Option<&str>) -> BackgroundCompactionConfig {
    BackgroundCompactionConfig {
        compact_mode: mode.to_string(),
        segment_limit: Some(3),
        block_limit: None,
        scheduled_config: BackgroundScheduledConfig {
            duration_secs: 60,
            cron: cron.to_string(),
            time_zone: time_zone.map(|s| s.to_string()),
        },
    }
}

#[test]
fn compaction_modes_are_read() {
    let one_shot = compaction("one_shot", "", None).try_into().unwrap();
    assert!(matches!(one_shot.params.job_type, BackgroundJobType::ONESHOT));
    assert_eq!(one_shot.segment_limit, Some(3));
    let interval = compaction("interval", "", None).try_into().unwrap();
    assert!(matches!(interval.params.job_type, BackgroundJobType::INTERVAL));
    assert_eq!(interval.params.scheduled_job_interval_secs, 60);
    let cron = compaction("cron", "0 0 * * *", Some("Asia/Shanghai")).try_into().unwrap();
    assert!(matches!(cron.params.job_type, BackgroundJobType::CRON));
    assert_eq!(cron.params.scheduled_job_cron, "0 0 * * *");
    assert_eq!(cron.params.scheduled_job_timezone, Some("Asia/Shanghai".to_string()));
}

#[test]
fn bad_compaction_configs_are_refused() {
    assert!(matches!(compaction("cron", "", None).try_into(), Err(ErrorCode::InvalidArgument(_))));
    assert!(matches!(compaction("sometimes", "", None).try_into(), Err(ErrorCode::InvalidArgument(_))));
    assert!(matches!(compaction("cron", "0 0 * * *", Some("Mars/Olympus")).try_into(), Err(ErrorCode::InvalidArgument(_))));
}

#[test]
fn configs_are_read_back() {
    let config = BackgroundConfig { enable: true, compaction: compaction("cron", "1 2 * * *", Some("UTC")) };
    let inner = config.try_into().unwrap();
    assert!(inner.enable);
    let written = BackgroundConfig::from_inner(inner);
    assert_eq!(written.compaction.compact_mode, "cron");
    assert_eq!(written.compaction.scheduled_config.cron, "1 2 * * *");
    assert_eq!(written.compaction.scheduled_config.time_zone, Some("UTC".to_string()));
}

fn cache_config() -> CacheConfig {
    CacheConfig {
        enable_table_meta_cache: true,
        table_meta_snapshot_count: 256,
        table_meta_segment_bytes: 1000,
        block_meta_count: 0,
        table_meta_statistic_count: 16,
        table_bloom_index_meta_count: 17,
        table_bloom_index_filter_size: 18,
        inverted_index_meta_count: 19,
        inverted_index_filter_size: 20,
        inverted_index_filter_memory_ratio: 0,
        table_prune_partitions_count: 21,
        data_cache_storage: CacheStorageTypeInnerConfig::Off,
        table_data_cache_population_queue_size: 0,
        data_cache_key_reload_policy: DiskCacheKeyReloadPolicy::Reset,
        disk_cache_config: DiskCacheConfig { max_bytes: 77, path: "/cache".to_string(), sync_data: true },
        table_data_deserialized_data_bytes: 0,
        table_data_deserialized_memory_ratio: 10,
    }
}

#[test]
fn caches_are_as_configured() {
    let m = CacheManager::init(&cache_config(), &5000, "tenant", 4);
    let snapshot = m.get_table_snapshot_cache().unwrap();
    assert_eq!(snapshot.name, "memory_cache_table_snapshot");
    assert!(matches!(snapshot.capacity, CacheCapacity::Items(256)));
    assert!(matches!(m.get_table_segment_cache().unwrap().capacity, CacheCapacity::Bytes(1000)));
    assert!(m.get_block_meta_cache().is_none());
    assert!(matches!(m.get_table_data_array_cache().unwrap().capacity, CacheCapacity::Bytes(500)));
    assert!(matches!(m.get_inverted_index_file_cache().unwrap().capacity, CacheCapacity::Bytes(20)));
    assert!(matches!(m.get_file_meta_data_cache().unwrap().capacity, CacheCapacity::Items(3000)));
    assert!(m.get_table_data_cache().is_none());
    assert!(CacheManager::new_named_items_cache(0, "x").is_none());
}

#[test]
fn meta_caches_are_switched_off_together() {
    let mut config = cache_config();
    config.enable_table_meta_cache = false;
    config.data_cache_storage = CacheStorageTypeInnerConfig::Disk;
    config.table_data_deserialized_data_bytes = 9;
    let m = CacheManager::init(&config, &5000, "tenant", 4);
    assert!(m.get_table_snapshot_cache().is_none());
    assert!(m.get_bloom_index_meta_cache().is_none());
    assert!(m.get_file_meta_data_cache().is_none());
    let disk = m.get_table_data_cache().unwrap();
    assert_eq!(disk.bytes, 77);
    assert_eq!(disk.root, vec!["/cache".to_string(), "tenant".to_string(), "v1".to_string()]);
    assert!(matches!(m.get_table_data_array_cache().unwrap().capacity, CacheCapacity::Bytes(9)));
}

#[test]
fn schedules_are_read_from_jobs() {
    let job = databend::background_config::BackgroundJobParams::new_interval_job(60);
    let c = databend::background_config::BackgroundScheduledConfig::from_params(&job);
    assert_eq!((c.duration_secs, c.cron.as_str(), c.time_zone), (60, "", None));
}
