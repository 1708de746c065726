use api::routes::s3proxy::{bucket_or_default, endpoint_or_default, proxy_target};

const BUCKET: &str = "uploads";
const ENDPOINT: &str = "http://plane-minio:9000";

#[test]
fn target_keeps_bucket_root_for_presigned_post() {
    assert_eq!(
        proxy_target("uploads", "", None, BUCKET, ENDPOINT).as_deref(),
        Some("http://plane-minio:9000/uploads/")
    );
}

#[test]
fn target_preserves_key_and_query_verbatim() {
    assert_eq!(
        proxy_target(
            "uploads",
            "abc/file.png",
            Some("X-Amz-Algorithm=AWS4-HMAC-SHA256"),
            BUCKET,
            ENDPOINT
        )
        .as_deref(),
        Some("http://plane-minio:9000/uploads/abc/file.png?X-Amz-Algorithm=AWS4-HMAC-SHA256")
    );
}

#[test]
fn rejects_wrong_bucket_and_traversal() {
    assert!(proxy_target("other", "", None, BUCKET, ENDPOINT).is_none());
    assert!(proxy_target("uploads", "../etc/passwd", None, BUCKET, ENDPOINT).is_none());
}

#[test]
fn empty_endpoint_env_falls_through_to_default() {
    assert_eq!(endpoint_or_default(Some(""), Some("")), "http://plane-minio:9000");
}

#[test]
fn endpoint_and_bucket_settings() {
    assert_eq!(endpoint_or_default(Some("http://a:1"), Some("http://b:2")), "http://a:1");
    assert_eq!(endpoint_or_default(Some(""), Some("http://b:2")), "http://b:2");
    assert_eq!(endpoint_or_default(None, None), "http://plane-minio:9000");
    assert_eq!(bucket_or_default(None), "uploads");
    assert_eq!(bucket_or_default(Some("media")), "media");
    assert_eq!(bucket_or_default(Some("")), "");
}

#[test]
fn target_slash_and_dot_handling() {
    assert_eq!(
        proxy_target("uploads", "//a/b", Some(""), BUCKET, "http://m:9000///").as_deref(),
        Some("http://m:9000/uploads/a/b")
    );
    assert!(proxy_target("uploads", "a/../b", None, BUCKET, ENDPOINT).is_none());
    assert!(proxy_target("uploads", "a/..", None, BUCKET, ENDPOINT).is_none());
    assert_eq!(
        proxy_target("uploads", "a/.../b", None, BUCKET, ENDPOINT).as_deref(),
        Some("http://plane-minio:9000/uploads/a/.../b")
    );
}
