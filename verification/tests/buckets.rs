use s3_viewer::api::{
    BucketHttpModel, FileHttpModel, FolderHttpModel, ListBucketsResponse, ListObjectsInputModel,
    ListObjectsResponse,
};
use s3_viewer::buckets::{list_buckets, S3Bucket, S3Buckets};
use s3_viewer::errors::S3ViewerError;
use s3_viewer::flows::{configured_bucket, list_objects_target};
use s3_viewer::mcp::{
    ListBucketsMcpResponse, ListObjectsInputData, ListObjectsMcpResponse, McpFileModel,
    McpFolderModel,
};
use s3_viewer::settings::model::BucketSettingsModel;

fn settings(name: &str, endpoint: &str) -> BucketSettingsModel {
    BucketSettingsModel {
        name: name.to_string(),
        endpoint: endpoint.to_string(),
        region: "r".to_string(),
        access_key: "a".to_string(),
        secret_key: "s".to_string(),
    }
}

// A stand-in client that remembers which endpoint it was built for.
fn buckets() -> S3Buckets<String> {
    let configured = vec![
        settings("b2", "https://two"),
        settings("b1", "https://one"),
        settings("b2", "https://second-two"),
    ];
    S3Buckets::new(&configured, |s: &BucketSettingsModel| s.endpoint.clone())
}

#[test]
fn buckets_keep_the_settings_order_and_their_clients() {
    let buckets = buckets();
    let all = buckets.get_all();
    let names: Vec<&str> = all.iter().map(|b| b.name.as_str()).collect();
    assert_eq!(names, vec!["b2", "b1", "b2"]);
    assert_eq!(all[1].client, "https://one");
}

#[test]
fn lookup_finds_the_first_bucket_of_a_name() {
    let buckets = buckets();
    assert_eq!(buckets.get("b2").unwrap().client, "https://two");
    assert_eq!(buckets.get("b1").unwrap().client, "https://one");
    assert!(buckets.get("B1").is_none());
    assert!(buckets.get("").is_none());
}

#[test]
fn bucket_list_answers_names_only_in_settings_order() {
    let response = list_buckets(&buckets());
    assert_eq!(
        response,
        ListBucketsResponse {
            buckets: vec![
                BucketHttpModel { name: "b2".to_string() },
                BucketHttpModel { name: "b1".to_string() },
                BucketHttpModel { name: "b2".to_string() },
            ]
        }
    );
    let bucket = S3Bucket::new(&settings("x", "https://x"), 7u8);
    assert_eq!(bucket.client, 7);
    assert_eq!(BucketHttpModel::from(&bucket).name, "x");
}

#[test]
fn a_request_for_an_unknown_bucket_is_refused() {
    let buckets = buckets();
    assert!(matches!(
        configured_bucket(&buckets, "nope"),
        Err(S3ViewerError::BucketIsNotConfigured)
    ));
    assert_eq!(configured_bucket(&buckets, "b1").ok().unwrap().client, "https://one");
    let target = list_objects_target(
        &buckets,
        ListObjectsInputModel { bucket: "missing".to_string(), prefix: None },
    );
    assert!(matches!(target, Err(S3ViewerError::BucketIsNotConfigured)));
}

#[test]
fn a_listing_request_names_a_bucket_and_a_folder() {
    let buckets = buckets();
    let (bucket, prefix) = list_objects_target(
        &buckets,
        ListObjectsInputModel { bucket: "b2".to_string(), prefix: Some("docs".to_string()) },
    )
    .ok()
    .unwrap();
    assert_eq!(bucket.client, "https://two");
    assert_eq!(prefix, "docs/");
    let (_, prefix) = list_objects_target(
        &buckets,
        ListObjectsInputModel { bucket: "b1".to_string(), prefix: None },
    )
    .ok()
    .unwrap();
    assert_eq!(prefix, "");
}

#[test]
fn mcp_answers_mirror_the_rest_answers() {
    let buckets = ListBucketsMcpResponse::from(list_buckets(&buckets()));
    assert_eq!(buckets.buckets, vec!["b2", "b1", "b2"]);

    let response = ListObjectsResponse {
        bucket: "b1".to_string(),
        prefix: "a/".to_string(),
        folders: vec![FolderHttpModel { prefix: "a/c/".to_string(), name: "c".to_string() }],
        files: vec![FileHttpModel {
            key: "a/f.txt".to_string(),
            name: "f.txt".to_string(),
            size: 9,
            last_modified: "2026-01-01T00:00:00.000Z".to_string(),
        }],
        is_truncated: true,
    };
    let mcp = ListObjectsMcpResponse::from(response);
    assert_eq!(mcp.bucket, "b1");
    assert_eq!(mcp.prefix, "a/");
    assert!(mcp.is_truncated);
    assert_eq!(mcp.folders.len(), 1);
    assert_eq!(mcp.folders[0].prefix, "a/c/");
    assert_eq!(mcp.folders[0].name, "c");
    assert_eq!(mcp.files.len(), 1);
    assert_eq!(mcp.files[0].object_key, "a/f.txt");
    assert_eq!(mcp.files[0].name, "f.txt");
    assert_eq!(mcp.files[0].size, 9);
    assert_eq!(mcp.files[0].last_modified, "2026-01-01T00:00:00.000Z");

    let folder = McpFolderModel::from(FolderHttpModel { prefix: "p/".to_string(), name: "p".to_string() });
    assert_eq!((folder.prefix.as_str(), folder.name.as_str()), ("p/", "p"));
    let file = McpFileModel::from(FileHttpModel {
        key: "k".to_string(),
        name: "k".to_string(),
        size: 0,
        last_modified: String::new(),
    });
    assert_eq!(file.object_key, "k");

    let input = ListObjectsInputModel::from(ListObjectsInputData {
        bucket: "b1".to_string(),
        prefix: Some("x/".to_string()),
    });
    assert_eq!(input.bucket, "b1");
    assert_eq!(input.prefix.as_deref(), Some("x/"));
}
