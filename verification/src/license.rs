//! Licenses: which features they grant, and within which quotas.

use vstd::prelude::*;

use crate::error::ErrorCode;
use crate::text::decimal;
use crate::text::join;
use crate::text::push_decimal;
use crate::text::separated;
use crate::text::sort_texts;
use crate::text::sorted_texts;
use crate::text::texts;

verus! {

#[derive(Clone, Copy, Debug, PartialEq, Eq, PartialOrd, Ord, Structural)]
pub struct ComputeQuota {
    pub threads_num: Option<usize>,
    pub memory_usage: Option<usize>,
}

#[derive(Clone, Copy, Debug, PartialEq, Eq, PartialOrd, Ord, Structural)]
pub struct ClusterQuota {
    pub max_clusters: Option<usize>,
    pub max_nodes_per_cluster: Option<usize>,
}

impl ClusterQuota {
    pub fn un_limit() -> (r: ClusterQuota)
        ensures
            r == (ClusterQuota { max_clusters: None, max_nodes_per_cluster: None }),
    {
        ClusterQuota { max_clusters: None, max_nodes_per_cluster: None }
    }

    pub fn limit_clusters(max_clusters: usize) -> (r: ClusterQuota)
        ensures
            r == (ClusterQuota { max_clusters: Some(max_clusters), max_nodes_per_cluster: None }),
    {
        ClusterQuota { max_nodes_per_cluster: None, max_clusters: Some(max_clusters) }
    }

    pub fn limit_nodes(nodes: usize) -> (r: ClusterQuota)
        ensures
            r == (ClusterQuota { max_clusters: None, max_nodes_per_cluster: Some(nodes) }),
    {
        ClusterQuota { max_clusters: None, max_nodes_per_cluster: Some(nodes) }
    }

    pub fn limit_full(max_clusters: usize, nodes: usize) -> (r: ClusterQuota)
        ensures
            r == (ClusterQuota { max_clusters: Some(max_clusters), max_nodes_per_cluster: Some(nodes) }),
    {
        ClusterQuota { max_clusters: Some(max_clusters), max_nodes_per_cluster: Some(nodes) }
    }
}

#[derive(Clone, Copy, Debug, PartialEq, Eq, PartialOrd, Ord, Structural)]
pub struct StorageQuota {
    pub storage_usage: Option<u64>,
}

/// The storage that may be used without a license for more: 1 TiB.
pub const DEFAULT_STORAGE_USAGE: u64 = 1_099_511_627_776;

impl Default for StorageQuota {
    fn default() -> (r: StorageQuota)
        ensures
            r == (StorageQuota { storage_usage: Some(DEFAULT_STORAGE_USAGE) }),
            DEFAULT_STORAGE_USAGE == 1024 * 1024 * 1024 * 1024,
    {
        StorageQuota { storage_usage: Some(DEFAULT_STORAGE_USAGE) }
    }
}

/// All enterprise features are defined here.
#[derive(Clone, Copy, Debug, PartialEq, Eq, PartialOrd, Ord, Structural)]
pub enum Feature {
    LicenseInfo,
    Vacuum,
    Test,
    VirtualColumn,
    BackgroundService,
    DataMask,
    AggregateIndex,
    InvertedIndex,
    ComputedColumn,
    StorageEncryption,
    Stream,
    AttacheTable,
    ComputeQuota(ComputeQuota),
    StorageQuota(StorageQuota),
    ClusterQuota(ClusterQuota),
    AmendTable,
    Unknown,
}

/// A limit in a text: the number, or that there is none.
pub open spec fn limit_text(limit: Option<int>) -> Seq<char> {
    match limit {
        None => "unlimited,"@,
        Some(n) => decimal(n as nat),
    }
}

pub open spec fn as_limit(limit: Option<usize>) -> Option<int> {
    match limit {
        None => None,
        Some(n) => Some(n as int),
    }
}

/// How a feature is shown.
pub open spec fn feature_text(f: Feature) -> Seq<char> {
    match f {
        Feature::LicenseInfo => "license_info"@,
        Feature::Vacuum => "vacuum"@,
        Feature::Test => "test"@,
        Feature::VirtualColumn => "virtual_column"@,
        Feature::BackgroundService => "background_service"@,
        Feature::DataMask => "data_mask"@,
        Feature::AggregateIndex => "aggregate_index"@,
        Feature::InvertedIndex => "inverted_index"@,
        Feature::ComputedColumn => "computed_column"@,
        Feature::StorageEncryption => "storage_encryption"@,
        Feature::Stream => "stream"@,
        Feature::AttacheTable => "attach_table"@,
        Feature::ComputeQuota(v) => "compute_quota(threads_num: "@ + limit_text(as_limit(v.threads_num))
            + ", memory_usage: "@ + limit_text(as_limit(v.memory_usage)) + ")"@,
        Feature::StorageQuota(v) => "storage_quota(storage_usage: "@ + limit_text(
            match v.storage_usage {
                None => None,
                Some(n) => Some(n as int),
            },
        ) + ")"@,
        Feature::ClusterQuota(v) => "cluster_quota(max_clusters: "@ + limit_text(as_limit(v.max_clusters))
            + "max_nodes_per_cluster: "@ + limit_text(as_limit(v.max_nodes_per_cluster)) + ")"@,
        Feature::AmendTable => "amend_table"@,
        Feature::Unknown => "unknown"@,
    }
}

fn push_limit(s: &mut String, limit: Option<u64>)
    ensures
        final(s)@ == old(s)@ + limit_text(
            match limit {
                None => None,
                Some(n) => Some(n as int),
            },
        ),
{
    match limit {
        None => {
            s.append("unlimited,");
        },
        Some(n) => {
            push_decimal(s, n);
        },
    }
}

fn widen(limit: Option<usize>) -> (r: Option<u64>)
    ensures
        r is None <==> limit is None,
        r matches Some(n) ==> limit == Some(n as usize) && n == limit->0,
{
    match limit {
        None => None,
        Some(n) => Some(n as u64),
    }
}

/// What a license says to a request.
pub enum Verdict {
    Granted,
    NotGranted,
    TooManyClusters { allowed: int, requested: int },
    TooManyNodes { allowed: int, requested: int },
}

/// What is asked for where no number is given.
pub open spec fn requested(limit: Option<usize>) -> int {
    match limit {
        Some(n) => n as int,
        None => usize::MAX as int,
    }
}

pub open spec fn storage_requested(limit: Option<u64>) -> int {
    match limit {
        Some(n) => n as int,
        None => u64::MAX as int,
    }
}

/// What a licensed feature says to a requested one. A compute or storage quota has to be above
/// what is asked for; a cluster quota has to be at least what is asked for.
pub open spec fn verdict(licensed: Feature, asked: Feature) -> Verdict {
    match (licensed, asked) {
        (Feature::ComputeQuota(c), Feature::ComputeQuota(v)) => {
            if (c.threads_num matches Some(n) && n <= requested(v.threads_num)) || (c.memory_usage matches Some(n) && n
                <= requested(v.memory_usage)) {
                Verdict::NotGranted
            } else {
                Verdict::Granted
            }
        },
        (Feature::StorageQuota(c), Feature::StorageQuota(v)) => {
            if c.storage_usage matches Some(n) && n <= storage_requested(v.storage_usage) {
                Verdict::NotGranted
            } else {
                Verdict::Granted
            }
        },
        (Feature::ClusterQuota(c), Feature::ClusterQuota(v)) => {
            if c.max_clusters matches Some(n) && n < requested(v.max_clusters) {
                Verdict::TooManyClusters {
                    allowed: c.max_clusters->0 as int,
                    requested: requested(v.max_clusters),
                }
            } else if c.max_nodes_per_cluster matches Some(n) && n < requested(v.max_nodes_per_cluster) {
                Verdict::TooManyNodes {
                    allowed: c.max_nodes_per_cluster->0 as int,
                    requested: requested(v.max_nodes_per_cluster),
                }
            } else {
                Verdict::Granted
            }
        },
        (Feature::Test, Feature::Test) => Verdict::Granted,
        (Feature::AggregateIndex, Feature::AggregateIndex) => Verdict::Granted,
        (Feature::ComputedColumn, Feature::ComputedColumn) => Verdict::Granted,
        (Feature::Vacuum, Feature::Vacuum) => Verdict::Granted,
        (Feature::LicenseInfo, Feature::LicenseInfo) => Verdict::Granted,
        (Feature::Stream, Feature::Stream) => Verdict::Granted,
        (Feature::BackgroundService, Feature::BackgroundService) => Verdict::Granted,
        (Feature::DataMask, Feature::DataMask) => Verdict::Granted,
        (Feature::InvertedIndex, Feature::InvertedIndex) => Verdict::Granted,
        (Feature::VirtualColumn, Feature::VirtualColumn) => Verdict::Granted,
        (Feature::AttacheTable, Feature::AttacheTable) => Verdict::Granted,
        (Feature::StorageEncryption, Feature::StorageEncryption) => Verdict::Granted,
        _ => Verdict::NotGranted,
    }
}

pub open spec fn clusters_exceeded_text(allowed: int, requested: int) -> Seq<char> {
    "The number of clusters exceeds the quota specified in the Databend Enterprise Edition license. Maximum allowed: "@
        + decimal(allowed as nat) + ", Requested: "@ + decimal(requested as nat)
        + ". Please contact Databend to review your licensing options. Learn more at https://docs.databend.com/guides/overview/editions/dee/"@
}

pub open spec fn nodes_exceeded_text(allowed: int, requested: int) -> Seq<char> {
    "The number of nodes per cluster exceeds the quota specified in the Databend Enterprise Edition license. Maximum allowed: "@
        + decimal(allowed as nat) + ", Requested: "@ + decimal(requested as nat)
        + ". Please contact Databend to review your licensing options. Learn more at https://docs.databend.com/guides/overview/editions/dee/"@
}

fn exceeded_text(what: &str, allowed: usize, asked: usize) -> (r: String)
    ensures
        r@ == what@ + decimal(allowed as nat) + ", Requested: "@ + decimal(asked as nat)
            + ". Please contact Databend to review your licensing options. Learn more at https://docs.databend.com/guides/overview/editions/dee/"@,
{
    let mut s = what.to_owned();
    push_decimal(&mut s, allowed as u64);
    s.append(", Requested: ");
    push_decimal(&mut s, asked as u64);
    s.append(
        ". Please contact Databend to review your licensing options. Learn more at https://docs.databend.com/guides/overview/editions/dee/",
    );
    s
}

/// What is granted without a license: one cluster of one node.
pub open spec fn within_default(q: ClusterQuota) -> bool {
    !(q.max_clusters matches Some(x) && x > 1) && !(q.max_nodes_per_cluster matches Some(x) && x > 1)
}

impl Feature {
    /// How the feature is shown.
    pub fn to_text(&self) -> (r: String)
        ensures
            r@ == feature_text(*self),
    {
        let r = match self {
            Feature::LicenseInfo => "license_info".to_owned(),
            Feature::Vacuum => "vacuum".to_owned(),
            Feature::Test => "test".to_owned(),
            Feature::VirtualColumn => "virtual_column".to_owned(),
            Feature::BackgroundService => "background_service".to_owned(),
            Feature::DataMask => "data_mask".to_owned(),
            Feature::AggregateIndex => "aggregate_index".to_owned(),
            Feature::InvertedIndex => "inverted_index".to_owned(),
            Feature::ComputedColumn => "computed_column".to_owned(),
            Feature::StorageEncryption => "storage_encryption".to_owned(),
            Feature::Stream => "stream".to_owned(),
            Feature::AttacheTable => "attach_table".to_owned(),
            Feature::ComputeQuota(v) => {
                let mut s = "compute_quota(threads_num: ".to_owned();
                push_limit(&mut s, widen(v.threads_num));
                s.append(", memory_usage: ");
                push_limit(&mut s, widen(v.memory_usage));
                s.append(")");
                s
            },
            Feature::StorageQuota(v) => {
                let mut s = "storage_quota(storage_usage: ".to_owned();
                push_limit(&mut s, v.storage_usage);
                s.append(")");
                s
            },
            Feature::ClusterQuota(v) => {
                let mut s = "cluster_quota(max_clusters: ".to_owned();
                push_limit(&mut s, widen(v.max_clusters));
                s.append("max_nodes_per_cluster: ");
                push_limit(&mut s, widen(v.max_nodes_per_cluster));
                s.append(")");
                s
            },
            Feature::AmendTable => "amend_table".to_owned(),
            Feature::Unknown => "unknown".to_owned(),
        };
        r
    }

    /// Whether the feature is granted without a license.
    pub fn verify_default(&self, message: &str) -> (r: Result<(), ErrorCode>)
        ensures
            r is Ok <==> (self matches Feature::ClusterQuota(q) && within_default(*q)),
            r matches Err(e) ==> (e matches ErrorCode::LicenseKeyInvalid(m) && m@ == (match *self {
                Feature::ClusterQuota(q) => if q.max_clusters matches Some(x) && x > 1 {
                    "No license found. The default configuration of Databend Community Edition only supports 1 cluster. To use more clusters, please consider upgrading to Databend Enterprise Edition. Learn more at https://docs.databend.com/guides/overview/editions/dee/"@
                } else {
                    "No license found. The default configuration of Databend Community Edition only supports up to 1 nodes per cluster. To use more nodes per cluster, please consider upgrading to Databend Enterprise Edition. Learn more at https://docs.databend.com/guides/overview/editions/dee/"@
                },
                _ => message@,
            })),
    {
        match self {
            Feature::ClusterQuota(cluster_quota) => {
                if matches!(cluster_quota.max_clusters, Some(x) if x > 1) {
                    return Err(
                        ErrorCode::LicenseKeyInvalid(
                            "No license found. The default configuration of Databend Community Edition only supports 1 cluster. To use more clusters, please consider upgrading to Databend Enterprise Edition. Learn more at https://docs.databend.com/guides/overview/editions/dee/".to_owned(),
                        ),
                    );
                }
                if matches!(cluster_quota.max_nodes_per_cluster, Some(x) if x > 1) {
                    return Err(
                        ErrorCode::LicenseKeyInvalid(
                            "No license found. The default configuration of Databend Community Edition only supports up to 1 nodes per cluster. To use more nodes per cluster, please consider upgrading to Databend Enterprise Edition. Learn more at https://docs.databend.com/guides/overview/editions/dee/".to_owned(),
                        ),
                    );
                }
                Ok(())
            },
            _ => Err(ErrorCode::LicenseKeyInvalid(message.to_owned())),
        }
    }

    /// What the licensed feature says to a requested one.
    pub fn verify(&self, feature: &Feature) -> (r: Result<bool, ErrorCode>)
        ensures
            match verdict(*self, *feature) {
                Verdict::Granted => r == Ok::<bool, ErrorCode>(true),
                Verdict::NotGranted => r == Ok::<bool, ErrorCode>(false),
                Verdict::TooManyClusters { allowed, requested } => r matches Err(ErrorCode::LicenseKeyInvalid(m)) && m@
                    == clusters_exceeded_text(allowed, requested),
                Verdict::TooManyNodes { allowed, requested } => r matches Err(ErrorCode::LicenseKeyInvalid(m)) && m@
                    == nodes_exceeded_text(allowed, requested),
            },
    {
        match (self, feature) {
            (Feature::ComputeQuota(c), Feature::ComputeQuota(v)) => {
                if let Some(thread_num) = c.threads_num {
                    if thread_num <= v.threads_num.unwrap_or(usize::MAX) {
                        return Ok(false);
                    }
                }
                if let Some(max_memory_usage) = c.memory_usage {
                    if max_memory_usage <= v.memory_usage.unwrap_or(usize::MAX) {
                        return Ok(false);
                    }
                }
                Ok(true)
            },
            (Feature::StorageQuota(c), Feature::StorageQuota(v)) => {
                if let Some(max_storage_usage) = c.storage_usage {
                    if max_storage_usage <= v.storage_usage.unwrap_or(u64::MAX) {
                        return Ok(false);
                    }
                }
                Ok(true)
            },
            (Feature::ClusterQuota(c), Feature::ClusterQuota(v)) => {
                if let Some(max_clusters) = c.max_clusters {
                    let asked: usize = v.max_clusters.unwrap_or(usize::MAX);
                    if max_clusters < asked {
                        return Err(
                            ErrorCode::LicenseKeyInvalid(
                                exceeded_text(
                                    "The number of clusters exceeds the quota specified in the Databend Enterprise Edition license. Maximum allowed: ",
                                    max_clusters,
                                    asked,
                                ),
                            ),
                        );
                    }
                }
                if let Some(max_nodes_per_cluster) = c.max_nodes_per_cluster {
                    let asked: usize = v.max_nodes_per_cluster.unwrap_or(usize::MAX);
                    if max_nodes_per_cluster < asked {
                        return Err(
                            ErrorCode::LicenseKeyInvalid(
                                exceeded_text(
                                    "The number of nodes per cluster exceeds the quota specified in the Databend Enterprise Edition license. Maximum allowed: ",
                                    max_nodes_per_cluster,
                                    asked,
                                ),
                            ),
                        );
                    }
                }
                Ok(true)
            },
            (Feature::Test, Feature::Test) => Ok(true),
            (Feature::AggregateIndex, Feature::AggregateIndex) => Ok(true),
            (Feature::ComputedColumn, Feature::ComputedColumn) => Ok(true),
            (Feature::Vacuum, Feature::Vacuum) => Ok(true),
            (Feature::LicenseInfo, Feature::LicenseInfo) => Ok(true),
            (Feature::Stream, Feature::Stream) => Ok(true),
            (Feature::BackgroundService, Feature::BackgroundService) => Ok(true),
            (Feature::DataMask, Feature::DataMask) => Ok(true),
            (Feature::InvertedIndex, Feature::InvertedIndex) => Ok(true),
            (Feature::VirtualColumn, Feature::VirtualColumn) => Ok(true),
            (Feature::AttacheTable, Feature::AttacheTable) => Ok(true),
            (Feature::StorageEncryption, Feature::StorageEncryption) => Ok(true),
            _ => Ok(false),
        }
    }
}

#[derive(Debug)]
pub struct LicenseInfo {
    pub license_type: Option<String>,
    pub org: Option<String>,
    pub tenants: Option<Vec<String>>,
    pub features: Option<Vec<Feature>>,
}

/// The texts of the features but for the test feature.
pub open spec fn shown_features(features: Seq<Feature>) -> Seq<Seq<char>> {
    features.filter(|f: Feature| f != Feature::Test).map_values(|f: Feature| feature_text(f))
}

/// The storage quota that comes first among features.
pub open spec fn first_storage_quota(features: Seq<Feature>) -> Option<StorageQuota>
    decreases features.len(),
{
    if features.len() == 0 {
        None
    } else {
        match features[0] {
            Feature::StorageQuota(q) => Some(q),
            _ => first_storage_quota(features.skip(1)),
        }
    }
}

/// A text that may be missing.
pub open spec fn optional_text(s: Option<String>) -> Seq<char> {
    match s {
        Some(t) => t@,
        None => "None"@,
    }
}

/// How many texts of a list are shown before some are left out.
pub const SHOWN_TENANTS: usize = 5;

/// How a list of texts is shown: all of them, or the first four and the last one.
pub open spec fn list_text(v: Seq<Seq<char>>) -> Seq<char> {
    if v.len() <= SHOWN_TENANTS {
        "["@ + separated(v, ","@) + "]"@
    } else {
        "["@ + separated(v.take(SHOWN_TENANTS - 1), ","@) + ",..,"@ + v.last() + "]"@
    }
}

fn push_optional(s: &mut String, t: &Option<String>)
    ensures
        final(s)@ == old(s)@ + optional_text(*t),
{
    match t {
        Some(t) => {
            s.append(t.as_str());
        },
        None => {
            s.append("None");
        },
    }
}

fn push_list(s: &mut String, v: &Vec<String>)
    ensures
        final(s)@ == old(s)@ + list_text(texts(v@)),
{
    let ghost before = s@;
    s.append("[");
    if v.len() <= SHOWN_TENANTS {
        let all = join(v, ",");
        s.append(all.as_str());
    } else {
        let mut first: Vec<String> = Vec::new();
        let mut i: usize = 0;
        while i < SHOWN_TENANTS - 1
            invariant
                i <= SHOWN_TENANTS - 1,
                v@.len() > SHOWN_TENANTS,
                first@.len() == i,
                texts(first@) == texts(v@).take(i as int),
            decreases SHOWN_TENANTS - 1 - i,
        {
            let ghost was = first@;
            first.push(v[i].clone());
            assert(texts(first@) =~= texts(was).push(v@[i as int]@));
            assert(texts(v@).take(i + 1) =~= texts(v@).take(i as int).push(v@[i as int]@));
            i += 1;
        }
        let all = join(&first, ",");
        s.append(all.as_str());
        s.append(",..,");
        s.append(v[v.len() - 1].as_str());
    }
    s.append("]");
    assert(s@ =~= before + list_text(texts(v@)));
}

impl LicenseInfo {
    /// The features in alphabetic order, without the test feature.
    pub fn display_features(&self) -> (r: String)
        ensures
            self.features is None ==> r@ == "Unlimited"@,
            self.features matches Some(features) ==> r@ == separated(
                sorted_texts(shown_features(features@)),
                ","@,
            ),
    {
        match &self.features {
            None => "Unlimited".to_owned(),
            Some(features) => {
                let mut shown: Vec<String> = Vec::new();
                let ghost all = features@;
                let ghost p = |f: Feature| f != Feature::Test;
                let mut i: usize = 0;
                proof {
                    reveal(Seq::filter);
                    assert(all.take(0).filter(p) =~= Seq::<Feature>::empty());
                    assert(texts(shown@) =~= shown_features(all.take(0)));
                }
                while i < features.len()
                    invariant
                        i <= features.len(),
                        all == features@,
                        p == (|f: Feature| f != Feature::Test),
                        texts(shown@) == shown_features(all.take(i as int)),
                    decreases features.len() - i,
                {
                    let ghost before = shown@;
                    proof {
                        reveal(Seq::filter);
                        assert(all.take(i + 1).drop_last() =~= all.take(i as int));
                        assert(all.take(i + 1).last() == all[i as int]);
                    }
                    if !matches!(features[i], Feature::Test) {
                        shown.push(features[i].to_text());
                        assert(texts(shown@) =~= texts(before).push(feature_text(all[i as int])));
                        assert(shown_features(all.take(i + 1)) =~= shown_features(all.take(i as int)).push(
                            feature_text(all[i as int]),
                        ));
                    }
                    i += 1;
                }
                assert(all.take(i as int) =~= all);
                let sorted = sort_texts(shown);
                join(&sorted, ",")
            },
        }
    }

    /// How the license is shown.
    pub fn to_text(&self) -> (r: String)
        ensures
            r@ == "LicenseInfo{ type: "@ + optional_text(self.license_type) + ", org: "@ + optional_text(self.org)
                + ", tenants: "@ + (match self.tenants {
                Some(v) => list_text(texts(v@)),
                None => "None"@,
            }) + ", features: ["@ + (match self.features {
                Some(features) => separated(sorted_texts(shown_features(features@)), ","@),
                None => "Unlimited"@,
            }) + "] }"@,
    {
        let mut s = "LicenseInfo{ type: ".to_owned();
        push_optional(&mut s, &self.license_type);
        s.append(", org: ");
        push_optional(&mut s, &self.org);
        s.append(", tenants: ");
        match &self.tenants {
            Some(v) => {
                push_list(&mut s, v);
            },
            None => {
                s.append("None");
            },
        }
        s.append(", features: [");
        let features = self.display_features();
        s.append(features.as_str());
        s.append("] }");
        s
    }

    /// Get Storage Quota from given license info.
    ///
    /// Returns the default storage quota if the storage quota is not licensed.
    pub fn get_storage_quota(&self) -> (r: StorageQuota)
        ensures
            r == (match self.features {
                None => StorageQuota { storage_usage: Some(DEFAULT_STORAGE_USAGE) },
                Some(features) => match first_storage_quota(features@) {
                    Some(q) => q,
                    None => StorageQuota { storage_usage: Some(DEFAULT_STORAGE_USAGE) },
                },
            }),
    {
        match &self.features {
            None => StorageQuota::default(),
            Some(features) => {
                let mut i: usize = 0;
                assert(features@.skip(0) =~= features@);
                while i < features.len()
                    invariant
                        i <= features.len(),
                        self.features == Some(*features),
                        first_storage_quota(features@) == first_storage_quota(features@.skip(i as int)),
                    decreases features.len() - i,
                {
                    assert(features@.skip(i as int)[0] == features@[i as int]);
                    if let Feature::StorageQuota(q) = features[i] {
                        return q;
                    }
                    assert(features@.skip(i as int).skip(1) =~= features@.skip(i + 1));
                    i += 1;
                }
                StorageQuota::default()
            },
        }
    }
}

/// A cluster quota without limits grants every request for clusters.
pub proof fn unlimited_clusters_grant_all(asked: ClusterQuota)
    ensures
        verdict(
            Feature::ClusterQuota(ClusterQuota { max_clusters: None, max_nodes_per_cluster: None }),
            Feature::ClusterQuota(asked),
        ) is Granted,
{
}

/// A cluster quota grants a request exactly where neither number is above its limit.
pub proof fn cluster_quota_grants_what_is_within(q: ClusterQuota, clusters: usize, nodes: usize)
    ensures
        (verdict(
            Feature::ClusterQuota(q),
            Feature::ClusterQuota(
                ClusterQuota { max_clusters: Some(clusters), max_nodes_per_cluster: Some(nodes) },
            ),
        ) is Granted) <==> (q.max_clusters matches Some(n) ==> clusters <= n) && (q.max_nodes_per_cluster matches Some(
            n,
        ) ==> nodes <= n),
{
}

/// What a quota grants, it grants to every request that asks for no more.
pub proof fn smaller_requests_are_granted(licensed: Feature, a: Feature, b: Feature)
    requires
        verdict(licensed, b) is Granted,
        match (a, b) {
            (Feature::ClusterQuota(x), Feature::ClusterQuota(y)) => requested(x.max_clusters) <= requested(
                y.max_clusters,
            ) && requested(x.max_nodes_per_cluster) <= requested(y.max_nodes_per_cluster),
            (Feature::ComputeQuota(x), Feature::ComputeQuota(y)) => requested(x.threads_num) <= requested(
                y.threads_num,
            ) && requested(x.memory_usage) <= requested(y.memory_usage),
            (Feature::StorageQuota(x), Feature::StorageQuota(y)) => storage_requested(x.storage_usage)
                <= storage_requested(y.storage_usage),
            _ => a == b,
        },
    ensures
        verdict(licensed, a) is Granted,
{
}

/// A feature is granted only by a license for a feature of its kind, and neither an unknown
/// feature nor the amending of tables is ever granted.
pub proof fn only_the_same_kind_grants(licensed: Feature, asked: Feature)
    requires
        verdict(licensed, asked) is Granted,
    ensures
        match (licensed, asked) {
            (Feature::ClusterQuota(_), Feature::ClusterQuota(_)) => true,
            (Feature::ComputeQuota(_), Feature::ComputeQuota(_)) => true,
            (Feature::StorageQuota(_), Feature::StorageQuota(_)) => true,
            _ => licensed == asked,
        },
        !(asked is Unknown) && !(asked is AmendTable),
{
}

/// A compute quota grants a request exactly where each number that it limits is asked for, and is
/// below the limit.
pub proof fn compute_quota_grants_what_is_below(q: ComputeQuota, asked: ComputeQuota)
    ensures
        ({
            let v = verdict(Feature::ComputeQuota(q), Feature::ComputeQuota(asked));
            let below = |limit: Option<usize>, wanted: Option<usize>|
                limit matches Some(n) ==> (wanted matches Some(m) && m < n);
            &&& v is Granted <==> below(q.threads_num, asked.threads_num) && below(q.memory_usage, asked.memory_usage)
            &&& !(v is Granted) ==> v is NotGranted
        }),
{
}

/// A storage quota grants a request exactly where it has no limit, or an amount below it is asked
/// for.
pub proof fn storage_quota_grants_what_is_below(q: StorageQuota, asked: StorageQuota)
    ensures
        ({
            let v = verdict(Feature::StorageQuota(q), Feature::StorageQuota(asked));
            &&& v is Granted <==> (q.storage_usage matches Some(n) ==> (asked.storage_usage matches Some(m) && m < n))
            &&& !(v is Granted) ==> v is NotGranted
        }),
{
}

/// What a cluster quota does not grant, it names: too many clusters where their limit is passed,
/// and otherwise too many nodes; with the limit, and with what is asked for.
pub proof fn cluster_quota_names_what_is_exceeded(q: ClusterQuota, clusters: usize, nodes: usize)
    ensures
        ({
            let v = verdict(
                Feature::ClusterQuota(q),
                Feature::ClusterQuota(
                    ClusterQuota { max_clusters: Some(clusters), max_nodes_per_cluster: Some(nodes) },
                ),
            );
            &&& (q.max_clusters matches Some(n) && clusters > n) ==> v == (Verdict::TooManyClusters {
                allowed: q.max_clusters->0 as int,
                requested: clusters as int,
            })
            &&& (q.max_clusters matches Some(n) ==> clusters <= n) && (q.max_nodes_per_cluster matches Some(n) && nodes
                > n) ==> v == (Verdict::TooManyNodes {
                allowed: q.max_nodes_per_cluster->0 as int,
                requested: nodes as int,
            })
        }),
{
}

/// A license for a feature without a quota grants it.
pub proof fn plain_features_are_granted(f: Feature)
    requires
        !(f is ComputeQuota || f is StorageQuota || f is ClusterQuota),
        !(f is Unknown || f is AmendTable),
    ensures
        verdict(f, f) is Granted,
{
}

/// Without a license one cluster of one node may be run.
pub proof fn the_default_is_one_cluster_of_one_node(q: ClusterQuota)
    ensures
        within_default(q) <==> (q.max_clusters matches Some(n) ==> n <= 1) && (q.max_nodes_per_cluster matches Some(n)
            ==> n <= 1),
{
}

/// The storage quota of a license is the first among its features.
pub proof fn the_first_storage_quota_counts(features: Seq<Feature>)
    ensures
        match first_storage_quota(features) {
            Some(q) => exists|i: int|
                {
                    &&& 0 <= i < features.len()
                    &&& #[trigger] features[i] == Feature::StorageQuota(q)
                    &&& forall|j: int| 0 <= j < i ==> !((#[trigger] features[j]) is StorageQuota)
                },
            None => forall|j: int| 0 <= j < features.len() ==> !((#[trigger] features[j]) is StorageQuota),
        },
    decreases features.len(),
{
    if features.len() > 0 && !(features[0] is StorageQuota) {
        let rest = features.skip(1);
        the_first_storage_quota_counts(rest);
        match first_storage_quota(rest) {
            Some(q) => {
                let i = choose|i: int|
                    {
                        &&& 0 <= i < rest.len()
                        &&& #[trigger] rest[i] == Feature::StorageQuota(q)
                        &&& forall|j: int| 0 <= j < i ==> !((#[trigger] rest[j]) is StorageQuota)
                    };
                assert(features[i + 1] == rest[i]);
                assert forall|j: int| 0 <= j < i + 1 implies !((#[trigger] features[j]) is StorageQuota) by {
                    if j > 0 {
                        assert(features[j] == rest[j - 1]);
                    }
                }
            },
            None => {
                assert forall|j: int| 0 <= j < features.len() implies !((#[trigger] features[j]) is StorageQuota) by {
                    if j > 0 {
                        assert(features[j] == rest[j - 1]);
                    }
                }
            },
        }
    }
}

/// Every feature is shown, but for the one for tests, and nothing else is.
pub proof fn all_features_but_the_test_are_shown(features: Seq<Feature>, text: Seq<char>)
    ensures
        shown_features(features).contains(text) <==> exists|i: int|
            0 <= i < features.len() && !((#[trigger] features[i]) is Test) && feature_text(features[i]) == text,
    decreases features.len(),
{
    reveal(Seq::filter);
    let shows = |f: Feature| f != Feature::Test;
    let of = |f: Feature| feature_text(f);
    if features.len() > 0 {
        let before = features.drop_last();
        let last = features.last();
        all_features_but_the_test_are_shown(before, text);
        let was = shown_features(before);
        let now = shown_features(features);
        if shows(last) {
            assert(now =~= was.push(feature_text(last)));
        } else {
            assert(now =~= was);
        }
        if now.contains(text) {
            let i = choose|i: int| 0 <= i < now.len() && now[i] == text;
            if i < was.len() {
                assert(was[i] == text);
                assert(was.contains(text));
                let j = choose|j: int|
                    0 <= j < before.len() && !((#[trigger] before[j]) is Test) && feature_text(before[j]) == text;
                assert(features[j] == before[j]);
            } else {
                assert(features[features.len() - 1] == last);
            }
        }
        if exists|i: int| 0 <= i < features.len() && !((#[trigger] features[i]) is Test) && feature_text(features[i])
            == text {
            let i = choose|i: int|
                0 <= i < features.len() && !((#[trigger] features[i]) is Test) && feature_text(features[i]) == text;
            if i < before.len() {
                assert(before[i] == features[i]);
                assert(was.contains(text));
                let j = choose|j: int| 0 <= j < was.len() && was[j] == text;
                assert(now[j] == text);
            } else {
                assert(now[was.len() as int] == text);
            }
        }
    }
}

/// What is said of a quota that is exceeded names what is allowed before what is asked for.
pub proof fn what_is_allowed_is_named_first(allowed: int, requested: int)
    requires
        allowed >= 0,
        requested >= 0,
    ensures
        clusters_exceeded_text(allowed, requested)
            == "The number of clusters exceeds the quota specified in the Databend Enterprise Edition license. Maximum allowed: "@
            + decimal(allowed as nat) + ", Requested: "@ + decimal(requested as nat)
            + ". Please contact Databend to review your licensing options. Learn more at https://docs.databend.com/guides/overview/editions/dee/"@,
        nodes_exceeded_text(allowed, requested)
            == "The number of nodes per cluster exceeds the quota specified in the Databend Enterprise Edition license. Maximum allowed: "@
            + decimal(allowed as nat) + ", Requested: "@ + decimal(requested as nat)
            + ". Please contact Databend to review your licensing options. Learn more at https://docs.databend.com/guides/overview/editions/dee/"@,
        limit_text(Some(allowed)) == decimal(allowed as nat),
        limit_text(None) == "unlimited,"@,
{
}

/// Up to five texts of a list are all shown. Of more than that the first four are, and the last.
pub proof fn long_lists_are_cut(v: Seq<Seq<char>>)
    ensures
        v.len() <= 5 ==> list_text(v) == "["@ + separated(v, ","@) + "]"@,
        v.len() > 5 ==> list_text(v) == "["@ + separated(seq![v[0], v[1], v[2], v[3]], ","@) + ",..,"@ + v[v.len() - 1]
            + "]"@,
{
    if v.len() > 5 {
        assert(v.take(4) =~= seq![v[0], v[1], v[2], v[3]]);
    }
}

}
