use databend::error::ErrorCode;
use databend::license::ClusterQuota;
use databend::license::ComputeQuota;
use databend::license::Feature;
use databend::license::LicenseInfo;
use databend::license::StorageQuota;

#[test]
fn test_cluster_quota_verify_default() {
    assert!(Feature::ClusterQuota(ClusterQuota::limit_clusters(1)).verify_default("").is_ok());
    assert!(Feature::ClusterQuota(ClusterQuota::limit_nodes(1)).verify_default("").is_ok());
    assert!(Feature::ClusterQuota(ClusterQuota::limit_nodes(2)).verify_default("").is_err());

    for nodes in 0..2 {
        assert!(Feature::ClusterQuota(ClusterQuota::limit_full(1, nodes)).verify_default("").is_ok());
    }

    assert!(Feature::ClusterQuota(ClusterQuota::limit_clusters(2)).verify_default("").is_err());
    assert!(Feature::ClusterQuota(ClusterQuota::limit_nodes(4)).verify_default("").is_err());
    assert!(Feature::ClusterQuota(ClusterQuota::limit_full(2, 1)).verify_default("").is_err());
    assert!(Feature::ClusterQuota(ClusterQuota::limit_full(1, 4)).verify_default("").is_err());
}

#[test]
fn test_cluster_quota_verify() -> Result<(), ErrorCode> {
    let unlimit_feature = Feature::ClusterQuota(ClusterQuota::un_limit());

    for cluster_num in 0..1000 {
        for node_num in 0..1000 {
            let feature = Feature::ClusterQuota(ClusterQuota::limit_full(cluster_num, node_num));
            assert!(unlimit_feature.verify(&feature)?);
        }
    }

    let unlimit_cluster_feature = Feature::ClusterQuota(ClusterQuota::limit_nodes(1));

    for cluster_num in 0..1000 {
        let feature = Feature::ClusterQuota(ClusterQuota::limit_full(cluster_num, 1));
        assert!(unlimit_cluster_feature.verify(&feature)?);
        let feature = Feature::ClusterQuota(ClusterQuota::limit_full(cluster_num, 2));
        assert!(unlimit_cluster_feature.verify(&feature).is_err());
    }

    let unlimit_nodes_feature = Feature::ClusterQuota(ClusterQuota::limit_clusters(1));

    for nodes_num in 0..1000 {
        let feature = Feature::ClusterQuota(ClusterQuota::limit_full(1, nodes_num));
        assert!(unlimit_nodes_feature.verify(&feature)?);
        let feature = Feature::ClusterQuota(ClusterQuota::limit_full(2, nodes_num));
        assert!(unlimit_nodes_feature.verify(&feature).is_err());
    }

    let limit_full = Feature::ClusterQuota(ClusterQuota::limit_full(1, 1));
    let feature = Feature::ClusterQuota(ClusterQuota::limit_full(1, 1));
    assert!(limit_full.verify(&feature)?);
    let feature = Feature::ClusterQuota(ClusterQuota::limit_full(2, 1));
    assert!(limit_full.verify(&feature).is_err());
    let feature = Feature::ClusterQuota(ClusterQuota::limit_full(1, 2));
    assert!(limit_full.verify(&feature).is_err());

    Ok(())
}

#[test]
fn test_display_license_info() {
    let license_info = LicenseInfo {
        license_type: Some("enterprise".to_string()),
        org: Some("databend".to_string()),
        tenants: Some(vec!["databend_tenant".to_string(), "foo".to_string()]),
        features: Some(vec![
            Feature::LicenseInfo,
            Feature::Vacuum,
            Feature::Test,
            Feature::VirtualColumn,
            Feature::BackgroundService,
            Feature::DataMask,
            Feature::AggregateIndex,
            Feature::InvertedIndex,
            Feature::ComputedColumn,
            Feature::StorageEncryption,
            Feature::Stream,
            Feature::AttacheTable,
            Feature::ComputeQuota(ComputeQuota { threads_num: Some(1), memory_usage: Some(1) }),
            Feature::StorageQuota(StorageQuota { storage_usage: Some(1) }),
            Feature::AmendTable,
        ]),
    };

    assert_eq!(
        "LicenseInfo{ type: enterprise, org: databend, tenants: [databend_tenant,foo], features: [aggregate_index,amend_table,attach_table,background_service,compute_quota(threads_num: 1, memory_usage: 1),computed_column,data_mask,inverted_index,license_info,storage_encryption,storage_quota(storage_usage: 1),stream,vacuum,virtual_column] }",
        license_info.to_text()
    );
}

#[test]
fn quotas_have_to_be_above_what_is_asked_for() {
    let licensed = Feature::ComputeQuota(ComputeQuota { threads_num: Some(4), memory_usage: None });
    let asked = |n| Feature::ComputeQuota(ComputeQuota { threads_num: Some(n), memory_usage: Some(100) });
    assert!(licensed.verify(&asked(3)).unwrap());
    assert!(!licensed.verify(&asked(4)).unwrap());
    let storage = Feature::StorageQuota(StorageQuota { storage_usage: Some(10) });
    let wanted = |n| Feature::StorageQuota(StorageQuota { storage_usage: n });
    assert!(storage.verify(&wanted(Some(9))).unwrap());
    assert!(!storage.verify(&wanted(Some(10))).unwrap());
    assert!(!storage.verify(&wanted(None)).unwrap());
    assert!(!Feature::Stream.verify(&Feature::Vacuum).unwrap());
    assert!(Feature::Stream.verify(&Feature::Stream).unwrap());
}

#[test]
fn exceeded_cluster_quota_is_explained() {
    let licensed = Feature::ClusterQuota(ClusterQuota::limit_full(1, 2));
    let message = |f: &Feature| match licensed.verify(f) {
        Err(ErrorCode::LicenseKeyInvalid(m)) => m,
        other => panic!("{:?}", other),
    };
    assert_eq!(
        message(&Feature::ClusterQuota(ClusterQuota::limit_full(3, 2))),
        "The number of clusters exceeds the quota specified in the Databend Enterprise Edition license. Maximum allowed: 1, Requested: 3. Please contact Databend to review your licensing options. Learn more at https://docs.databend.com/guides/overview/editions/dee/"
    );
    assert_eq!(
        message(&Feature::ClusterQuota(ClusterQuota::limit_full(1, 5))),
        "The number of nodes per cluster exceeds the quota specified in the Databend Enterprise Edition license. Maximum allowed: 2, Requested: 5. Please contact Databend to review your licensing options. Learn more at https://docs.databend.com/guides/overview/editions/dee/"
    );
}

#[test]
fn default_storage_quota_is_one_tebibyte() {
    let info = LicenseInfo { license_type: None, org: None, tenants: None, features: None };
    assert_eq!(info.get_storage_quota().storage_usage, Some(1024 * 1024 * 1024 * 1024));
    let more = LicenseInfo {
        license_type: None,
        org: None,
        tenants: None,
        features: Some(vec![Feature::StorageQuota(StorageQuota { storage_usage: Some(7) })]),
    };
    assert_eq!(more.get_storage_quota().storage_usage, Some(7));
}
