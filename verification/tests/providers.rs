use autoindex::config::{
    Config, ConfigError, DownloadRules, LocalStorageConfig, NginxStorageConfig, StorageBackend,
    StorageConfig,
};
use autoindex::local::LocalStorageProvider;
use autoindex::nginx::NginxStorageProvider;
use autoindex::storage::{
    build_provider, select_provider, DirScan, FetchOutcome, RawDirEntry, RawMeta, StorageError,
    StorageProvider,
};

fn raw(name: &str, is_file: bool, len: usize, modified: i64) -> RawDirEntry {
    RawDirEntry {
        name: name.to_string(),
        meta: Some(RawMeta {
            is_file,
            len,
            modified,
        }),
    }
}

#[test]
fn test_local_listing_two_entries() {
    // A directory holding a 10-byte file and a subdirectory yields two rows
    // ordered [a.txt, sub]: the file with its size, the directory without.
    let p = LocalStorageProvider::new("/srv/data".to_string(), "/pub".to_string());
    let scan = DirScan::Entries(vec![raw("sub", false, 4096, 7), raw("a.txt", true, 10, 5)]);
    let entries = p.list_directory("/d", scan).unwrap().unwrap();
    assert_eq!(entries.len(), 2);
    assert_eq!(entries[0].name, "a.txt");
    assert_eq!(entries[0].url, "/d/a.txt");
    assert_eq!(entries[0].size, Some(10));
    assert_eq!(entries[0].modified, 5);
    assert_eq!(entries[1].name, "sub");
    assert_eq!(entries[1].url, "/d/sub");
    assert_eq!(entries[1].size, None);
}

#[test]
fn test_local_listing_skips_failed_entries() {
    // A child whose metadata could not be read is skipped; the rest of the
    // listing still succeeds.
    let p = LocalStorageProvider::new("/srv/data".to_string(), "/pub".to_string());
    let broken = RawDirEntry {
        name: "broken".to_string(),
        meta: None,
    };
    let scan = DirScan::Entries(vec![broken, raw("ok.txt", true, 1, 0)]);
    let entries = p.list_directory("", scan).unwrap().unwrap();
    assert_eq!(entries.len(), 1);
    assert_eq!(entries[0].name, "ok.txt");
}

#[test]
fn test_local_listing_keeps_duplicate_names() {
    // Two children with the same name both stay (the scan decides what
    // exists; the listing only orders it).
    let p = LocalStorageProvider::new("/srv/data".to_string(), "/pub".to_string());
    let scan = DirScan::Entries(vec![
        raw("same", true, 1, 0),
        raw("other", true, 2, 0),
        raw("same", false, 3, 0),
    ]);
    let entries = p.list_directory("", scan).unwrap().unwrap();
    assert_eq!(entries.len(), 3);
    assert_eq!(entries[0].name, "other");
    assert_eq!(entries[1].name, "same");
    assert_eq!(entries[2].name, "same");
}

#[test]
fn test_local_listing_absent_cases() {
    // A path that resolves to a regular file (not a directory) is absent,
    // not an error; so is a path that fails to resolve at all. Only a
    // directory that cannot be read is an internal error.
    let p = LocalStorageProvider::new("/srv/data".to_string(), "/pub".to_string());
    assert!(matches!(
        p.list_directory("/f.txt", DirScan::NotDirectory),
        Ok(None)
    ));
    assert!(matches!(
        p.list_directory("/gone", DirScan::ResolveFailed),
        Ok(None)
    ));
    assert!(matches!(
        p.list_directory("/locked", DirScan::OpenFailed),
        Err(StorageError::Internal)
    ));
}

#[test]
fn test_local_get_download_url_is_always_none() {
    let p = LocalStorageProvider::new("/srv/data".to_string(), "/pub".to_string());
    assert_eq!(p.get_download_url("/pub/file.iso"), None);
    assert_eq!(p.get_download_url("/pub"), None);
    assert_eq!(p.get_download_url(""), None);
    assert!(p.is_local());
}

#[test]
fn test_local_paths() {
    let p = LocalStorageProvider::new("/srv/data".to_string(), "/pub".to_string());
    assert_eq!(p.path_in_provider("/pub/a/b"), Some("/a/b".to_string()));
    assert_eq!(p.path_in_provider("/other/a"), None);
    assert_eq!(p.abs_path("/a/b"), "/srv/data//a/b");
}

#[test]
fn test_nginx_new_validates_scheme() {
    let ok = NginxStorageProvider::new(
        "http://files.internal".to_string(),
        "/pub".to_string(),
        "https://pub.example.com".to_string(),
    )
    .unwrap();
    assert_eq!(ok.base_url, "http://files.internal/");
    assert_eq!(ok.public_url, "https://pub.example.com/");

    let bad_scheme = NginxStorageProvider::new(
        "ftp://files.internal".to_string(),
        "/pub".to_string(),
        "https://pub.example.com".to_string(),
    );
    assert_eq!(bad_scheme.unwrap_err(), ConfigError::UnsupportedScheme);

    let not_a_url = NginxStorageProvider::new(
        "not a url".to_string(),
        "/pub".to_string(),
        "https://pub.example.com".to_string(),
    );
    assert_eq!(not_a_url.unwrap_err(), ConfigError::InvalidBaseUrl);
}

fn nginx() -> NginxStorageProvider {
    NginxStorageProvider::new(
        "http://files.internal/".to_string(),
        "/pub".to_string(),
        "http://pub.example.com/".to_string(),
    )
    .unwrap()
}

#[test]
fn test_nginx_get_download_url() {
    let p = nginx();
    assert_eq!(
        p.get_download_url("/pub/dir/file.bin"),
        Ok(Some("http://pub.example.com/dir/file.bin".to_string()))
    );
    // a request outside the prefix is not for this provider
    assert_eq!(p.get_download_url("/other/file.bin"), Ok(None));
    // the whole prefix alone resolves to the public base itself
    assert_eq!(
        p.get_download_url("/pub"),
        Ok(Some("http://pub.example.com/".to_string()))
    );
    assert!(!p.is_local());
}

const AUTOINDEX_PAGE: &str = "<html><head><title>Index of /</title></head><body><h1>Index of /</h1><hr><pre><a href=\"../\">../</a>\n<a href=\"docs/\">docs/</a>                      17-Apr-2024 09:45                   -\n<a href=\"file.bin\">file.bin</a>                01-Jan-2020 00:00               10240\n</pre><hr></body></html>";

#[test]
fn test_nginx_listing_scrapes_page() {
    let p = nginx();
    let entries = p
        .list_directory("/sub", FetchOutcome::Body(AUTOINDEX_PAGE.to_string()), 999)
        .unwrap()
        .unwrap();
    assert_eq!(entries.len(), 2);
    // the parent link is skipped; rows are sorted by name
    assert_eq!(entries[0].name, "docs/");
    assert_eq!(entries[0].url, "/sub/docs/");
    assert_eq!(entries[0].size, None);
    assert_eq!(entries[0].modified, 1713347100); // 2024-04-17 09:45 UTC
    assert_eq!(entries[1].name, "file.bin");
    assert_eq!(entries[1].url, "/sub/file.bin");
    assert_eq!(entries[1].size, Some(10240));
    assert_eq!(entries[1].modified, 1577836800); // 2020-01-01 00:00 UTC
}

#[test]
fn test_nginx_listing_defaults_when_line_is_short() {
    // An anchor whose matching line has fewer than four tokens gets the
    // fallback timestamp and no size.
    let page = "<html><body><pre><a href=\"x\">x</a>\n</pre></body></html>";
    let p = nginx();
    let entries = p
        .list_directory("", FetchOutcome::Body(page.to_string()), 4242)
        .unwrap()
        .unwrap();
    assert_eq!(entries.len(), 1);
    assert_eq!(entries[0].name, "x");
    assert_eq!(entries[0].url, "/x");
    assert_eq!(entries[0].modified, 4242);
    assert_eq!(entries[0].size, None);
}

#[test]
fn test_nginx_listing_substring_join_is_positional_by_first_match() {
    // The scrape joins anchors to text lines by substring containment, so a
    // name that is a substring of an earlier line takes that line's
    // metadata.
    let page = "<html><body><pre><a href=\"ab.txt\">ab.txt</a>   01-Jan-2020 00:00   100\n<a href=\"b.txt\">b.txt</a>     02-Jan-2020 00:00   200\n</pre></body></html>";
    let p = nginx();
    let entries = p
        .list_directory("", FetchOutcome::Body(page.to_string()), 0)
        .unwrap()
        .unwrap();
    assert_eq!(entries.len(), 2);
    // "b.txt" is contained in the "ab.txt" line, which comes first
    assert_eq!(entries[0].name, "ab.txt");
    assert_eq!(entries[0].size, Some(100));
    assert_eq!(entries[1].name, "b.txt");
    assert_eq!(entries[1].size, Some(100));
    assert_eq!(entries[1].modified, entries[0].modified);
}

#[test]
fn test_nginx_listing_is_sorted_by_name() {
    // Rows come out sorted by name even when the page lists them otherwise.
    let page = "<html><body><pre><a href=\"z.txt\">z.txt</a>   01-Jan-2020 00:00   2\n<a href=\"a.txt\">a.txt</a>   01-Jan-2020 00:00   1\n</pre></body></html>";
    let p = nginx();
    let entries = p
        .list_directory("", FetchOutcome::Body(page.to_string()), 0)
        .unwrap()
        .unwrap();
    assert_eq!(entries.len(), 2);
    assert_eq!(entries[0].name, "a.txt");
    assert_eq!(entries[0].size, Some(1));
    assert_eq!(entries[1].name, "z.txt");
    assert_eq!(entries[1].size, Some(2));
}

#[test]
fn test_nginx_listing_outcomes() {
    let p = nginx();
    // backend 404: the directory is absent (the client sees 404)
    assert!(matches!(
        p.list_directory("/x", FetchOutcome::HttpFailure(404), 0),
        Ok(None)
    ));
    // other failure statuses are folded into absent as well
    assert!(matches!(
        p.list_directory("/x", FetchOutcome::HttpFailure(503), 0),
        Ok(None)
    ));
    // connection refused: an error (the client sees 500)
    assert!(matches!(
        p.list_directory("/x", FetchOutcome::ConnectFailed, 0),
        Err(StorageError::BackendUnavailable)
    ));
    // a 200 page without a preformatted block: parse failure folded to absent
    let no_pre = "<html><body><p>hello</p></body></html>";
    assert!(matches!(
        p.list_directory("/x", FetchOutcome::Body(no_pre.to_string()), 0),
        Ok(None)
    ));
    // another transport failure after connecting is folded to absent too
    assert!(matches!(
        p.list_directory("/x", FetchOutcome::TransportFailed, 0),
        Ok(None)
    ));
}

#[test]
fn test_build_provider() {
    let config = Config {
        storage: StorageConfig {
            backend: StorageBackend::Local,
            local: Some(LocalStorageConfig {
                root_path: "/srv/data".to_string(),
            }),
            nginx: None,
        },
        download_rules: DownloadRules { extensions: vec![] },
    };
    let p = build_provider(&config, "/pub").unwrap();
    assert!(p.is_local());
    let (got, pip) = select_provider(&p, "/pub/a").unwrap();
    assert!(got.is_local());
    assert_eq!(pip, "/a");
    assert!(select_provider(&p, "/nope").is_none());

    let missing = Config {
        storage: StorageConfig {
            backend: StorageBackend::Nginx,
            local: None,
            nginx: None,
        },
        download_rules: DownloadRules { extensions: vec![] },
    };
    assert_eq!(
        build_provider(&missing, "/pub").unwrap_err(),
        ConfigError::MissingNginxConfig
    );

    let missing_local = Config {
        storage: StorageConfig {
            backend: StorageBackend::Local,
            local: None,
            nginx: None,
        },
        download_rules: DownloadRules { extensions: vec![] },
    };
    assert_eq!(
        build_provider(&missing_local, "/pub").unwrap_err(),
        ConfigError::MissingLocalConfig
    );

    let remote = Config {
        storage: StorageConfig {
            backend: StorageBackend::Nginx,
            local: None,
            nginx: Some(NginxStorageConfig {
                base_url: "http://files.internal".to_string(),
                public_url: "http://pub.example.com".to_string(),
            }),
        },
        download_rules: DownloadRules { extensions: vec![] },
    };
    let p = build_provider(&remote, "/pub").unwrap();
    assert!(!p.is_local());
    match p {
        StorageProvider::Nginx(np) => {
            assert_eq!(np.base_url, "http://files.internal/");
            assert_eq!(np.public_url, "http://pub.example.com/");
        }
        StorageProvider::Local(_) => panic!("expected the remote provider"),
    }
}
