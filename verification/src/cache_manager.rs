//! Which caches there are, and how large they are.

use vstd::prelude::*;

use crate::text::texts;

verus! {

/// How many file metas are kept.
pub const DEFAULT_FILE_META_DATA_CACHE_ITEMS: u64 = 3000;

#[derive(Clone, Copy, Debug, PartialEq, Eq, Structural)]
pub enum CacheStorageTypeInnerConfig {
    Off,
    Disk,
}

/// What becomes of the keys of a disk cache when it is opened again.
#[derive(Clone, Copy, Debug, PartialEq, Eq, Structural)]
pub enum DiskCacheKeyReloadPolicy {
    Reset,
    Fuzzy,
}

#[derive(Debug)]
pub struct DiskCacheConfig {
    pub max_bytes: u64,
    pub path: String,
    pub sync_data: bool,
}

#[derive(Debug)]
pub struct CacheConfig {
    pub enable_table_meta_cache: bool,
    pub table_meta_snapshot_count: u64,
    pub table_meta_segment_bytes: u64,
    pub block_meta_count: u64,
    pub table_meta_statistic_count: u64,
    pub table_bloom_index_meta_count: u64,
    pub table_bloom_index_filter_size: u64,
    pub inverted_index_meta_count: u64,
    pub inverted_index_filter_size: u64,
    pub inverted_index_filter_memory_ratio: u64,
    pub table_prune_partitions_count: u64,
    pub data_cache_storage: CacheStorageTypeInnerConfig,
    pub table_data_cache_population_queue_size: u32,
    pub data_cache_key_reload_policy: DiskCacheKeyReloadPolicy,
    pub disk_cache_config: DiskCacheConfig,
    pub table_data_deserialized_data_bytes: u64,
    pub table_data_deserialized_memory_ratio: u64,
}

/// What a cache may hold: a number of items, or items of a number of bytes.
#[derive(Clone, Copy, Debug, PartialEq, Eq, Structural)]
pub enum CacheCapacity {
    Items(u64),
    Bytes(u64),
}

/// A cache in memory that drops what has not been used for longest.
#[derive(Debug)]
pub struct InMemoryLruCache {
    pub name: String,
    pub capacity: CacheCapacity,
}

pub struct CacheView {
    pub name: Seq<char>,
    pub capacity: CacheCapacity,
}

impl View for InMemoryLruCache {
    type V = CacheView;

    open spec fn view(&self) -> CacheView {
        CacheView { name: self.name@, capacity: self.capacity }
    }
}

impl Clone for InMemoryLruCache {
    fn clone(&self) -> (r: InMemoryLruCache)
        ensures
            r@ == self@,
    {
        InMemoryLruCache { name: self.name.clone(), capacity: self.capacity }
    }
}

pub open spec fn cache_view(c: Option<InMemoryLruCache>) -> Option<CacheView> {
    match c {
        Some(c) => Some(c@),
        None => None,
    }
}

/// A cache of table data on disk.
#[derive(Debug)]
pub struct TableDataCache {
    /// The parts of the path to its directory.
    pub root: Vec<String>,
    pub population_queue_size: u32,
    pub bytes: u64,
    pub key_reload_policy: DiskCacheKeyReloadPolicy,
    pub sync_data: bool,
}

pub struct DiskCacheView {
    pub root: Seq<Seq<char>>,
    pub population_queue_size: u32,
    pub bytes: u64,
    pub key_reload_policy: DiskCacheKeyReloadPolicy,
    pub sync_data: bool,
}

impl View for TableDataCache {
    type V = DiskCacheView;

    open spec fn view(&self) -> DiskCacheView {
        DiskCacheView {
            root: texts(self.root@),
            population_queue_size: self.population_queue_size,
            bytes: self.bytes,
            key_reload_policy: self.key_reload_policy,
            sync_data: self.sync_data,
        }
    }
}

pub open spec fn disk_cache_view(c: Option<TableDataCache>) -> Option<DiskCacheView> {
    match c {
        Some(c) => Some(c@),
        None => None,
    }
}

/// Where all the caches reside
#[derive(Debug)]
pub struct CacheManager {
    pub table_snapshot_cache: Option<InMemoryLruCache>,
    pub table_statistic_cache: Option<InMemoryLruCache>,
    pub compact_segment_info_cache: Option<InMemoryLruCache>,
    pub columnar_segment_info_cache: Option<InMemoryLruCache>,
    pub bloom_index_filter_cache: Option<InMemoryLruCache>,
    pub bloom_index_meta_cache: Option<InMemoryLruCache>,
    pub inverted_index_meta_cache: Option<InMemoryLruCache>,
    pub inverted_index_file_cache: Option<InMemoryLruCache>,
    pub prune_partitions_cache: Option<InMemoryLruCache>,
    pub parquet_file_meta_data_cache: Option<InMemoryLruCache>,
    pub table_data_cache: Option<TableDataCache>,
    pub in_memory_table_data_cache: Option<InMemoryLruCache>,
    pub block_meta_cache: Option<InMemoryLruCache>,
}

/// A cache of a number of items; none where the number is 0.
pub open spec fn items_cache(name: Seq<char>, items: u64) -> Option<CacheView> {
    if items == 0 {
        None
    } else {
        Some(CacheView { name, capacity: CacheCapacity::Items(items) })
    }
}

/// A cache of a number of bytes; none where the number is 0.
pub open spec fn bytes_cache(name: Seq<char>, bytes: int) -> Option<CacheView> {
    if bytes == 0 {
        None
    } else {
        Some(CacheView { name, capacity: CacheCapacity::Bytes(bytes as u64) })
    }
}

/// A share of the memory of the server, in percent.
pub open spec fn memory_share(memory: u64, percent: u64) -> int {
    memory * percent / 100
}

/// How many bytes of table data are kept in memory: the configured number, or else the
/// configured share of the memory.
pub open spec fn table_data_bytes(config: CacheConfig, memory: u64) -> int {
    if config.table_data_deserialized_data_bytes != 0 {
        config.table_data_deserialized_data_bytes as int
    } else {
        memory_share(memory, config.table_data_deserialized_memory_ratio)
    }
}

/// How many bytes of inverted index files are kept in memory: the configured share of the
/// memory, or else the configured number.
pub open spec fn inverted_index_bytes(config: CacheConfig, memory: u64) -> int {
    if config.inverted_index_filter_memory_ratio != 0 {
        memory_share(memory, config.inverted_index_filter_memory_ratio)
    } else {
        config.inverted_index_filter_size as int
    }
}

/// How many blocks wait to be written to disk: the configured number, or else five for each
/// thread.
pub open spec fn population_queue_size(config: CacheConfig, parallelism: u32) -> int {
    if config.table_data_cache_population_queue_size > 0 {
        config.table_data_cache_population_queue_size as int
    } else if parallelism < 1 {
        5
    } else {
        parallelism * 5
    }
}

/// The disk cache that a configuration asks for.
pub open spec fn disk_cache(config: CacheConfig, tenant: Seq<char>, parallelism: u32) -> Option<DiskCacheView> {
    if config.data_cache_storage is Disk && config.disk_cache_config.max_bytes > 0 {
        Some(
            DiskCacheView {
                root: seq![config.disk_cache_config.path@, tenant, "v1"@],
                population_queue_size: population_queue_size(config, parallelism) as u32,
                bytes: config.disk_cache_config.max_bytes,
                key_reload_policy: config.data_cache_key_reload_policy,
                sync_data: config.disk_cache_config.sync_data,
            },
        )
    } else {
        None
    }
}

/// A cache of table metas: none where such caches are switched off.
pub open spec fn meta_cache(config: CacheConfig, cache: Option<CacheView>) -> Option<CacheView> {
    if config.enable_table_meta_cache {
        cache
    } else {
        None
    }
}

fn share_of_memory(memory: u64, percent: u64) -> (r: u64)
    requires
        memory * percent <= u64::MAX,
    ensures
        r == memory_share(memory, percent),
{
    memory * percent / 100
}

impl CacheManager {
    /// The caches that a configuration asks for, on a server with the given memory and number of
    /// threads. The disk cache is still to be opened.
    pub fn init(config: &CacheConfig, max_server_memory_usage: &u64, tenant_id: &str, parallelism: u32) -> (r: CacheManager)
        requires
            config.table_data_deserialized_data_bytes == 0 ==> *max_server_memory_usage
                * config.table_data_deserialized_memory_ratio <= u64::MAX,
            config.enable_table_meta_cache && config.inverted_index_filter_memory_ratio != 0 ==> *max_server_memory_usage
                * config.inverted_index_filter_memory_ratio <= u64::MAX,
            config.data_cache_storage is Disk ==> population_queue_size(*config, parallelism) <= u32::MAX,
        ensures
            disk_cache_view(r.table_data_cache) == disk_cache(*config, tenant_id@, parallelism),
            cache_view(r.in_memory_table_data_cache) == bytes_cache(
                "memory_cache_table_data"@,
                table_data_bytes(*config, *max_server_memory_usage),
            ),
            cache_view(r.table_snapshot_cache) == meta_cache(
                *config,
                items_cache("memory_cache_table_snapshot"@, config.table_meta_snapshot_count),
            ),
            cache_view(r.table_statistic_cache) == meta_cache(
                *config,
                items_cache("memory_cache_table_statistics"@, config.table_meta_statistic_count),
            ),
            cache_view(r.compact_segment_info_cache) == meta_cache(
                *config,
                bytes_cache("memory_cache_compact_segment_info"@, config.table_meta_segment_bytes as int),
            ),
            cache_view(r.columnar_segment_info_cache) == meta_cache(
                *config,
                bytes_cache("memory_cache_columnar_segment_info"@, config.table_meta_segment_bytes as int),
            ),
            cache_view(r.bloom_index_filter_cache) == meta_cache(
                *config,
                bytes_cache("memory_cache_bloom_index_filter"@, config.table_bloom_index_filter_size as int),
            ),
            cache_view(r.bloom_index_meta_cache) == meta_cache(
                *config,
                items_cache("memory_cache_bloom_index_file_meta_data"@, config.table_bloom_index_meta_count),
            ),
            cache_view(r.inverted_index_meta_cache) == meta_cache(
                *config,
                items_cache("memory_cache_inverted_index_file_meta_data"@, config.inverted_index_meta_count),
            ),
            cache_view(r.inverted_index_file_cache) == meta_cache(
                *config,
                bytes_cache(
                    "memory_cache_inverted_index_file"@,
                    inverted_index_bytes(*config, *max_server_memory_usage),
                ),
            ),
            cache_view(r.prune_partitions_cache) == meta_cache(
                *config,
                items_cache("memory_cache_prune_partitions"@, config.table_prune_partitions_count),
            ),
            cache_view(r.parquet_file_meta_data_cache) == meta_cache(
                *config,
                items_cache("memory_cache_parquet_file_meta"@, DEFAULT_FILE_META_DATA_CACHE_ITEMS),
            ),
            cache_view(r.block_meta_cache) == meta_cache(
                *config,
                items_cache("memory_cache_block_meta"@, config.block_meta_count),
            ),
    {
        let table_data_cache = match config.data_cache_storage {
            CacheStorageTypeInnerConfig::Off => None,
            CacheStorageTypeInnerConfig::Disk => {
                let mut root: Vec<String> = Vec::new();
                root.push(config.disk_cache_config.path.clone());
                root.push(tenant_id.to_owned());
                root.push("v1".to_owned());
                assert(texts(root@) =~= seq![config.disk_cache_config.path@, tenant_id@, "v1"@]);
                let queue_size: u32 = if config.table_data_cache_population_queue_size > 0 {
                    config.table_data_cache_population_queue_size
                } else if parallelism < 1 {
                    5
                } else {
                    parallelism * 5
                };
                Self::new_block_data_cache(
                    root,
                    queue_size,
                    config.disk_cache_config.max_bytes,
                    config.data_cache_key_reload_policy,
                    config.disk_cache_config.sync_data,
                )
            },
        };
        let memory_cache_capacity: u64 = if config.table_data_deserialized_data_bytes != 0 {
            config.table_data_deserialized_data_bytes
        } else {
            share_of_memory(*max_server_memory_usage, config.table_data_deserialized_memory_ratio)
        };
        let in_memory_table_data_cache = Self::new_named_bytes_cache("memory_cache_table_data", memory_cache_capacity);
        if !config.enable_table_meta_cache {
            CacheManager {
                table_snapshot_cache: None,
                table_statistic_cache: None,
                compact_segment_info_cache: None,
                columnar_segment_info_cache: None,
                bloom_index_filter_cache: None,
                bloom_index_meta_cache: None,
                inverted_index_meta_cache: None,
                inverted_index_file_cache: None,
                prune_partitions_cache: None,
                parquet_file_meta_data_cache: None,
                table_data_cache,
                in_memory_table_data_cache,
                block_meta_cache: None,
            }
        } else {
            let inverted_index_file_size: u64 = if config.inverted_index_filter_memory_ratio != 0 {
                share_of_memory(*max_server_memory_usage, config.inverted_index_filter_memory_ratio)
            } else {
                config.inverted_index_filter_size
            };
            CacheManager {
                table_snapshot_cache: Self::new_named_items_cache(
                    config.table_meta_snapshot_count,
                    "memory_cache_table_snapshot",
                ),
                table_statistic_cache: Self::new_named_items_cache(
                    config.table_meta_statistic_count,
                    "memory_cache_table_statistics",
                ),
                compact_segment_info_cache: Self::new_named_bytes_cache(
                    "memory_cache_compact_segment_info",
                    config.table_meta_segment_bytes,
                ),
                columnar_segment_info_cache: Self::new_named_bytes_cache(
                    "memory_cache_columnar_segment_info",
                    config.table_meta_segment_bytes,
                ),
                bloom_index_filter_cache: Self::new_named_bytes_cache(
                    "memory_cache_bloom_index_filter",
                    config.table_bloom_index_filter_size,
                ),
                bloom_index_meta_cache: Self::new_named_items_cache(
                    config.table_bloom_index_meta_count,
                    "memory_cache_bloom_index_file_meta_data",
                ),
                inverted_index_meta_cache: Self::new_named_items_cache(
                    config.inverted_index_meta_count,
                    "memory_cache_inverted_index_file_meta_data",
                ),
                inverted_index_file_cache: Self::new_named_bytes_cache(
                    "memory_cache_inverted_index_file",
                    inverted_index_file_size,
                ),
                prune_partitions_cache: Self::new_named_items_cache(
                    config.table_prune_partitions_count,
                    "memory_cache_prune_partitions",
                ),
                parquet_file_meta_data_cache: Self::new_named_items_cache(
                    DEFAULT_FILE_META_DATA_CACHE_ITEMS,
                    "memory_cache_parquet_file_meta",
                ),
                table_data_cache,
                in_memory_table_data_cache,
                block_meta_cache: Self::new_named_items_cache(config.block_meta_count, "memory_cache_block_meta"),
            }
        }
    }

    pub fn new_named_items_cache(capacity: u64, name: &str) -> (r: Option<InMemoryLruCache>)
        ensures
            cache_view(r) == items_cache(name@, capacity),
    {
        if capacity == 0 {
            None
        } else {
            Some(InMemoryLruCache { name: name.to_owned(), capacity: CacheCapacity::Items(capacity) })
        }
    }

    fn new_named_bytes_cache(name: &str, bytes_capacity: u64) -> (r: Option<InMemoryLruCache>)
        ensures
            cache_view(r) == bytes_cache(name@, bytes_capacity as int),
    {
        if bytes_capacity == 0 {
            None
        } else {
            Some(InMemoryLruCache { name: name.to_owned(), capacity: CacheCapacity::Bytes(bytes_capacity) })
        }
    }

    fn new_block_data_cache(
        root: Vec<String>,
        population_queue_size: u32,
        bytes: u64,
        key_reload_policy: DiskCacheKeyReloadPolicy,
        sync_data: bool,
    ) -> (r: Option<TableDataCache>)
        ensures
            r is Some <==> bytes > 0,
            r matches Some(c) ==> c@ == (DiskCacheView {
                root: texts(root@),
                population_queue_size,
                bytes,
                key_reload_policy,
                sync_data,
            }),
    {
        if bytes > 0 {
            Some(TableDataCache { root, population_queue_size, bytes, key_reload_policy, sync_data })
        } else {
            None
        }
    }

    pub fn get_table_snapshot_cache(&self) -> (r: Option<InMemoryLruCache>)
        ensures
            cache_view(r) == cache_view(self.table_snapshot_cache),
    {
        clone_cache(&self.table_snapshot_cache)
    }

    pub fn get_block_meta_cache(&self) -> (r: Option<InMemoryLruCache>)
        ensures
            cache_view(r) == cache_view(self.block_meta_cache),
    {
        clone_cache(&self.block_meta_cache)
    }

    pub fn get_table_snapshot_statistics_cache(&self) -> (r: Option<InMemoryLruCache>)
        ensures
            cache_view(r) == cache_view(self.table_statistic_cache),
    {
        clone_cache(&self.table_statistic_cache)
    }

    pub fn get_table_segment_cache(&self) -> (r: Option<InMemoryLruCache>)
        ensures
            cache_view(r) == cache_view(self.compact_segment_info_cache),
    {
        clone_cache(&self.compact_segment_info_cache)
    }

    pub fn get_columnar_segment_cache(&self) -> (r: Option<InMemoryLruCache>)
        ensures
            cache_view(r) == cache_view(self.columnar_segment_info_cache),
    {
        clone_cache(&self.columnar_segment_info_cache)
    }

    pub fn get_bloom_index_filter_cache(&self) -> (r: Option<InMemoryLruCache>)
        ensures
            cache_view(r) == cache_view(self.bloom_index_filter_cache),
    {
        clone_cache(&self.bloom_index_filter_cache)
    }

    pub fn get_bloom_index_meta_cache(&self) -> (r: Option<InMemoryLruCache>)
        ensures
            cache_view(r) == cache_view(self.bloom_index_meta_cache),
    {
        clone_cache(&self.bloom_index_meta_cache)
    }

    pub fn get_inverted_index_meta_cache(&self) -> (r: Option<InMemoryLruCache>)
        ensures
            cache_view(r) == cache_view(self.inverted_index_meta_cache),
    {
        clone_cache(&self.inverted_index_meta_cache)
    }

    pub fn get_inverted_index_file_cache(&self) -> (r: Option<InMemoryLruCache>)
        ensures
            cache_view(r) == cache_view(self.inverted_index_file_cache),
    {
        clone_cache(&self.inverted_index_file_cache)
    }

    pub fn get_prune_partitions_cache(&self) -> (r: Option<InMemoryLruCache>)
        ensures
            cache_view(r) == cache_view(self.prune_partitions_cache),
    {
        clone_cache(&self.prune_partitions_cache)
    }

    pub fn get_file_meta_data_cache(&self) -> (r: Option<InMemoryLruCache>)
        ensures
            cache_view(r) == cache_view(self.parquet_file_meta_data_cache),
    {
        clone_cache(&self.parquet_file_meta_data_cache)
    }

    pub fn get_table_data_array_cache(&self) -> (r: Option<InMemoryLruCache>)
        ensures
            cache_view(r) == cache_view(self.in_memory_table_data_cache),
    {
        clone_cache(&self.in_memory_table_data_cache)
    }

    pub fn get_table_data_cache(&self) -> (r: Option<TableDataCache>)
        ensures
            disk_cache_view(r) == disk_cache_view(self.table_data_cache),
    {
        match &self.table_data_cache {
            Some(c) => {
                let mut root: Vec<String> = Vec::new();
                let mut i: usize = 0;
                while i < c.root.len()
                    invariant
                        i <= c.root.len(),
                        root@.len() == i,
                        forall|j: int| 0 <= j < i ==> (#[trigger] root@[j])@ == c.root@[j]@,
                    decreases c.root.len() - i,
                {
                    root.push(c.root[i].clone());
                    i += 1;
                }
                assert(texts(root@) =~= texts(c.root@));
                Some(
                    TableDataCache {
                        root,
                        population_queue_size: c.population_queue_size,
                        bytes: c.bytes,
                        key_reload_policy: c.key_reload_policy,
                        sync_data: c.sync_data,
                    },
                )
            },
            None => None,
        }
    }
}

/// Without caches of table metas, table data can still be cached.
pub proof fn meta_switch_leaves_table_data(a: CacheConfig, b: CacheConfig, tenant: Seq<char>, parallelism: u32, memory: u64)
    requires
        b == (CacheConfig { enable_table_meta_cache: false, ..a }),
    ensures
        disk_cache(a, tenant, parallelism) == disk_cache(b, tenant, parallelism),
        table_data_bytes(a, memory) == table_data_bytes(b, memory),
        forall|c: Option<CacheView>| #[trigger] meta_cache(b, c) is None,
{
}

fn clone_cache(c: &Option<InMemoryLruCache>) -> (r: Option<InMemoryLruCache>)
    ensures
        cache_view(r) == cache_view(*c),
{
    match c {
        Some(c) => Some(c.clone()),
        None => None,
    }
}

/// A share of the memory is so many hundredths of it, rounded down.
pub proof fn a_share_is_so_many_hundredths(memory: u64, percent: u64)
    ensures
        100 * memory_share(memory, percent) <= memory * percent < 100 * memory_share(memory, percent) + 100,
{
    let total = memory * percent;
    assert(total >= 0) by (nonlinear_arith)
        requires
            total == memory * percent,
            memory >= 0,
            percent >= 0,
    ;
    assert(100 * (total / 100) <= total < 100 * (total / 100) + 100);
}

/// Table data is cached in as many bytes as are configured, and in a share of the memory only where
/// none are; inverted indexes in a share of the memory where one is configured, and in as many
/// bytes as are configured only where none is.
pub proof fn bytes_of_the_large_caches(config: CacheConfig, memory: u64)
    ensures
        config.table_data_deserialized_data_bytes > 0 ==> table_data_bytes(config, memory)
            == config.table_data_deserialized_data_bytes,
        config.table_data_deserialized_data_bytes == 0 ==> table_data_bytes(config, memory) == memory_share(
            memory,
            config.table_data_deserialized_memory_ratio,
        ),
        config.inverted_index_filter_memory_ratio > 0 ==> inverted_index_bytes(config, memory) == memory_share(
            memory,
            config.inverted_index_filter_memory_ratio,
        ),
        config.inverted_index_filter_memory_ratio == 0 ==> inverted_index_bytes(config, memory)
            == config.inverted_index_filter_size,
{
}

/// A cache of no items or no bytes is none; any other has its name and its capacity. A cache of
/// table metas is there only where these are cached at all.
pub proof fn caches_of_nothing_are_none(config: CacheConfig, name: Seq<char>, n: u64)
    ensures
        items_cache(name, n) is None <==> n == 0,
        bytes_cache(name, n as int) is None <==> n == 0,
        items_cache(name, n) matches Some(c) ==> c.name == name && c.capacity == CacheCapacity::Items(n),
        bytes_cache(name, n as int) matches Some(c) ==> c.name == name && c.capacity == CacheCapacity::Bytes(n),
        config.enable_table_meta_cache ==> meta_cache(config, items_cache(name, n)) == items_cache(name, n),
        !config.enable_table_meta_cache ==> meta_cache(config, items_cache(name, n)) is None,
{
}

/// Table data is cached on a disk exactly where the configuration says so and grants it bytes: in
/// the directory of the tenant, with a queue as long as is configured, or else of five for each
/// thread and at least five.
pub proof fn when_table_data_is_cached_on_disk(config: CacheConfig, tenant: Seq<char>, parallelism: u32)
    ensures
        disk_cache(config, tenant, parallelism) is Some <==> config.data_cache_storage is Disk
            && config.disk_cache_config.max_bytes != 0,
        disk_cache(config, tenant, parallelism) matches Some(d) ==> d.bytes == config.disk_cache_config.max_bytes
            && d.sync_data == config.disk_cache_config.sync_data && d.key_reload_policy
            == config.data_cache_key_reload_policy && d.root.len() == 3 && d.root[0] == config.disk_cache_config.path@
            && d.root[1] == tenant,
        config.table_data_cache_population_queue_size != 0 ==> population_queue_size(config, parallelism)
            == config.table_data_cache_population_queue_size,
        config.table_data_cache_population_queue_size == 0 && parallelism >= 1 ==> population_queue_size(
            config,
            parallelism,
        ) == 5 * parallelism,
        config.table_data_cache_population_queue_size == 0 && parallelism == 0 ==> population_queue_size(
            config,
            parallelism,
        ) == 5,
{
}

}
