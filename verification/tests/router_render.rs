use autoindex::config::{has_matching_extension, DownloadRules};
use autoindex::error::HttpError;
use autoindex::local::LocalStorageProvider;
use autoindex::nginx::NginxStorageProvider;
use autoindex::render::{format_size, render_list, IndexDirEntry};
use autoindex::router::{
    full_request_path, plan_request, stream_response, validate_path, listing_response,
    RequestPlan, StreamOutcome,
};
use autoindex::storage::{StorageEntry, StorageError, StorageProvider};

fn rules() -> DownloadRules {
    DownloadRules {
        extensions: vec!["iso".to_string(), "bin".to_string()],
    }
}

fn local() -> StorageProvider {
    StorageProvider::Local(LocalStorageProvider::new(
        "/srv/data".to_string(),
        "/pub".to_string(),
    ))
}

fn remote() -> StorageProvider {
    StorageProvider::Nginx(
        NginxStorageProvider::new(
            "http://files.internal/".to_string(),
            "/pub".to_string(),
            "http://pub.example.com/".to_string(),
        )
        .unwrap(),
    )
}

#[test]
fn test_full_request_path() {
    assert_eq!(full_request_path("/pub", ""), "/pub/");
    assert_eq!(full_request_path("/pub", "a/b"), "/pub/a/b");
    assert_eq!(full_request_path("/pub", "///a"), "/pub/a");
    assert_eq!(full_request_path("/pub", "/"), "/pub/");
}

#[test]
fn test_validate_path_rejects_traversal() {
    // Any normalized path with a `..` segment is forbidden (403).
    let err = validate_path("/pub/../etc/passwd").unwrap_err();
    assert_eq!(err.status_code(), 403);
    let err = validate_path("/pub/a/..").unwrap_err();
    assert_eq!(err.status_code(), 403);
    // Dots inside a name do not count; nor does a `...` segment.
    assert!(validate_path("/pub/a..b").is_ok());
    assert!(validate_path("/pub/.../x").is_ok());
    assert_eq!(validate_path("/pub/a/b").unwrap(), "/pub/a/b");
}

#[test]
fn test_plan_rejects_traversal_for_every_backend() {
    for provider in [local(), remote()] {
        match plan_request(&provider, &rules(), "/pub", "../secret") {
            RequestPlan::Fail(e) => assert_eq!(e.status_code(), 403),
            other => panic!("expected a forbidden failure, got {:?}", other),
        }
    }
}

#[test]
fn test_plan_download_branch_on_matching_extension() {
    // A matching extension always takes the download branch, even when the
    // addressed resource would be a directory.
    match plan_request(&local(), &rules(), "/pub", "dir.iso") {
        RequestPlan::StreamLocalFile {
            path_in_provider,
            abs_path,
        } => {
            assert_eq!(path_in_provider, "/dir.iso");
            assert_eq!(abs_path, "/srv/data//dir.iso");
        }
        other => panic!("expected a local stream plan, got {:?}", other),
    }
    match plan_request(&remote(), &rules(), "/pub", "dir.iso") {
        RequestPlan::Redirect(u) => assert_eq!(u, "http://pub.example.com/dir.iso"),
        other => panic!("expected a redirect, got {:?}", other),
    }
}

#[test]
fn test_plan_listing_branch() {
    match plan_request(&local(), &rules(), "/pub", "docs") {
        RequestPlan::ListLocal {
            path_in_provider,
            abs_path,
        } => {
            assert_eq!(path_in_provider, "/docs");
            assert_eq!(abs_path, "/srv/data//docs");
        }
        other => panic!("expected a local listing plan, got {:?}", other),
    }
    match plan_request(&remote(), &rules(), "/pub", "docs") {
        RequestPlan::ListRemote { path_in_provider } => {
            assert_eq!(path_in_provider, "/docs");
        }
        other => panic!("expected a remote listing plan, got {:?}", other),
    }
}

#[test]
fn test_plan_no_matching_provider_is_not_found() {
    // The provider answers /files, but requests are mounted under /pub.
    let p = StorageProvider::Local(LocalStorageProvider::new(
        "/srv/data".to_string(),
        "/files".to_string(),
    ));
    match plan_request(&p, &rules(), "/pub", "a") {
        RequestPlan::Fail(e) => assert_eq!(e.status_code(), 404),
        other => panic!("expected not found, got {:?}", other),
    }
}

#[test]
fn test_listing_response_maps_outcomes() {
    let entries = vec![StorageEntry {
        name: "a".to_string(),
        url: "/a".to_string(),
        modified: 0,
        size: None,
    }];
    assert_eq!(listing_response(Ok(Some(entries))).unwrap().len(), 1);
    assert_eq!(listing_response(Ok(None)).unwrap_err().status_code(), 404);
    assert_eq!(
        listing_response(Err(StorageError::BackendUnavailable))
            .unwrap_err()
            .status_code(),
        500
    );
    assert_eq!(
        listing_response(Err(StorageError::Internal))
            .unwrap_err()
            .status_code(),
        500
    );
}

#[test]
fn test_stream_response_headers() {
    let h = stream_response(StreamOutcome::Opened {
        file_name: "a.bin".to_string(),
        len: 10,
    })
    .unwrap();
    assert_eq!(h.content_type, "application/octet-stream");
    assert_eq!(h.content_disposition, "attachment; filename=\"a.bin\"");
    assert_eq!(h.content_length, "10");
    assert_eq!(
        stream_response(StreamOutcome::NotFoundFile)
            .unwrap_err()
            .status_code(),
        404
    );
    assert_eq!(
        stream_response(StreamOutcome::ResolveFailed)
            .unwrap_err()
            .status_code(),
        500
    );
}

#[test]
fn test_has_matching_extension() {
    let exts = vec!["gz".to_string(), "iso".to_string()];
    assert!(has_matching_extension("/pub/x.tar.gz", &exts));
    assert!(has_matching_extension("/pub/x.iso", &exts));
    assert!(!has_matching_extension("/pub/x.tar", &exts));
    assert!(!has_matching_extension("/pub/gz", &exts));
    assert!(!has_matching_extension("/pub/.gz", &exts));
    // trailing separators are ignored: the final name decides
    assert!(has_matching_extension("/pub/dir.gz/", &exts));
    assert!(!has_matching_extension("/pub/dir/", &exts));
    assert!(!has_matching_extension("", &exts));
}

#[test]
fn test_format_size() {
    assert_eq!(format_size(None), "-");
    assert_eq!(format_size(Some(0)), "0 B");
    assert_eq!(format_size(Some(1023)), "1023 B");
    assert_eq!(format_size(Some(1024)), "1.0 KB");
    assert_eq!(format_size(Some(10752)), "10.5 KB");
    assert_eq!(format_size(Some(2 * 1024 * 1024 + 512 * 1024)), "2.5 MB");
    // halfway values round to the even tenth, as the float formatter does
    assert_eq!(format_size(Some(1280)), "1.2 KB"); // 1.25 KB
    assert_eq!(format_size(Some(1792)), "1.8 KB"); // 1.75 KB
}

#[test]
fn test_render_list_parent_first() {
    let entries = vec![
        StorageEntry {
            name: "a.txt".to_string(),
            url: "/d/a.txt".to_string(),
            modified: 0,
            size: Some(10),
        },
        StorageEntry {
            name: "sub".to_string(),
            url: "/d/sub".to_string(),
            modified: 0,
            size: None,
        },
    ];
    let rows = render_list("/pub", entries);
    assert_eq!(rows.len(), 3);
    assert_eq!(rows[0].name, "../");
    assert_eq!(rows[0].url, "../");
    assert_eq!(rows[1].name, "a.txt");
    assert_eq!(rows[1].url, "/pub//d/a.txt");
    assert_eq!(rows[1].size, "10 B");
    assert_eq!(rows[2].name, "sub");
    assert_eq!(rows[2].size, "-");
}

#[test]
fn test_error_template() {
    let e = HttpError::forbidden("access denied", "the request path is invalid");
    assert_eq!(e.status_code(), 403);
    let t = e.to_template();
    assert_eq!(t.title, "403 - Error");
    assert_eq!(t.status_code, "403");
    assert_eq!(t.message, "access denied");
    assert_eq!(t.error_code, "FORBIDDEN");
    assert_eq!(t.description, "the request path is invalid");
    assert_eq!(t.home_url, "/");

    assert_eq!(HttpError::not_found("a", "b").status_code(), 404);
    assert_eq!(HttpError::bad_request("a", "b").status_code(), 400);
    assert_eq!(HttpError::internal_error("a", "b").status_code(), 500);
    assert_eq!(
        HttpError::not_found("a", "b").to_template().error_code,
        "NOT_FOUND"
    );
    assert_eq!(
        HttpError::bad_request("a", "b").to_template().error_code,
        "BAD_REQUEST"
    );
    assert_eq!(
        HttpError::internal_error("a", "b").to_template().error_code,
        "INTERNAL_ERROR"
    );
}

#[test]
fn test_parent_entry() {
    let p = IndexDirEntry::parent_entry();
    assert_eq!(p.name, "../");
    assert_eq!(p.url, "../");
    assert_eq!(p.modified, "");
    assert_eq!(p.size, "");
}
