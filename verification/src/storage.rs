//! The storage model: listing entries, backend outcomes, and the provider
//! registry.
//!
//! Backends produce `StorageEntry` rows. The embedding application performs
//! the actual I/O (a directory scan, an HTTP fetch) and hands its outcome to
//! the providers as plain values (`DirScan`, `FetchOutcome`); everything the
//! providers decide from those values is verified.

use vstd::prelude::*;
use vstd::multiset::Multiset;
use vstd::seq_lib::{to_multiset_insert, to_multiset_remove};

use crate::config::{Config, ConfigError, StorageBackend};
use crate::local::LocalStorageProvider;
use crate::nginx::{url_scheme_of, with_trailing_slash, NginxStorageProvider};
use crate::strings::{is_prefix_of, lemma_lex_leq_total, lemma_lex_leq_trans, lex_leq, str_leq};

verus! {

broadcast use vstd::seq_lib::group_to_multiset_ensures;

/// One directory-listing row: a display name, the address of the entry
/// relative to the current listing, a modification time in seconds since the
/// Unix epoch, and a byte count (absent for directories and unknown sizes).
///
/// Within one listing, rows are ordered by name, byte-wise ascending.
#[derive(Debug)]
pub struct StorageEntry {
    pub name: String,
    pub url: String,
    pub modified: i64,
    pub size: Option<usize>,
}

/// The mathematical view of one listing row.
pub ghost struct EntryV {
    pub name: Seq<char>,
    pub url: Seq<char>,
    pub modified: i64,
    pub size: Option<usize>,
}

impl View for StorageEntry {
    type V = EntryV;

    open spec fn view(&self) -> EntryV {
        EntryV { name: self.name@, url: self.url@, modified: self.modified, size: self.size }
    }
}

/// The views of a row sequence.
pub open spec fn views_of(s: Seq<StorageEntry>) -> Seq<EntryV> {
    s.map_values(|e: StorageEntry| e@)
}

/// Rows ordered by name, byte-wise ascending.
pub open spec fn sorted_by_name(s: Seq<StorageEntry>) -> bool {
    forall|i: int, j: int| 0 <= i < j < s.len() ==> lex_leq(s[i]@.name, s[j]@.name)
}

/// What one directory child looked like on disk; `meta` is absent when its
/// metadata could not be read.
#[derive(Debug)]
pub struct RawDirEntry {
    pub name: String,
    pub meta: Option<RawMeta>,
}

/// The metadata of one directory child.
#[derive(Debug)]
pub struct RawMeta {
    pub is_file: bool,
    pub len: usize,
    pub modified: i64,
}

/// The outcome of resolving and reading a directory on disk, as the
/// embedding application reports it.
#[derive(Debug)]
pub enum DirScan {
    /// The path did not resolve: missing, a broken link, or denied.
    ResolveFailed,
    /// The resolved path is not a directory.
    NotDirectory,
    /// The directory itself could not be opened or read.
    OpenFailed,
    /// The directory's children, in the order the filesystem returned them.
    Entries(Vec<RawDirEntry>),
}

/// The outcome of fetching a remote autoindex page, as the embedding
/// application reports it.
#[derive(Debug)]
pub enum FetchOutcome {
    /// A success status; carries the response body.
    Body(String),
    /// A non-success HTTP status.
    HttpFailure(u16),
    /// The backend could not be reached at all.
    ConnectFailed,
    /// Another transport failure after connecting.
    TransportFailed,
}

/// A provider-level failure; both map to a 500-class response.
#[derive(Debug, PartialEq, Eq, Structural)]
pub enum StorageError {
    /// The remote backend cannot be reached.
    BackendUnavailable,
    /// Any other internal failure.
    Internal,
}

/// Inserts `e` into a name-sorted row vector, keeping it sorted.
#[verifier::loop_isolation(false)]
fn insert_sorted(out: &mut Vec<StorageEntry>, e: StorageEntry)
    requires
        sorted_by_name(old(out)@),
    ensures
        sorted_by_name(final(out)@),
        views_of(final(out)@).to_multiset() == views_of(old(out)@).to_multiset().insert(e@),
{
    let mut idx: usize = 0;
    while idx < out.len() && str_leq(out[idx].name.as_str(), e.name.as_str())
        invariant
            idx <= out@.len(),
            forall|j: int| 0 <= j < idx ==> lex_leq(out@[j]@.name, e@.name),
        decreases out@.len() - idx,
    {
        idx = idx + 1;
    }
    proof {
        assert forall|j: int| idx <= j < out@.len() implies lex_leq(e@.name, out@[j]@.name) by {
            lemma_lex_leq_total(out@[idx as int]@.name, e@.name);
            if j > idx {
                lemma_lex_leq_trans(e@.name, out@[idx as int]@.name, out@[j]@.name);
            }
        }
        out@.insert_ensures(idx as int, e);
    }
    let ghost pre = out@;
    out.insert(idx, e);
    proof {
        assert forall|i: int, j: int| 0 <= i < j < out@.len() implies lex_leq(
            out@[i]@.name,
            out@[j]@.name,
        ) by {
            if i < idx && j < idx {
            } else if i == idx {
            } else if j == idx {
            }
        }
        assert(views_of(out@) =~= views_of(pre).insert(idx as int, e@));
        to_multiset_insert(views_of(pre), idx as int, e@);
    }
}

/// Sorts rows by name, byte-wise ascending, keeping exactly the same rows.
#[verifier::loop_isolation(false)]
pub fn sort_entries_by_name(entries: Vec<StorageEntry>) -> (r: Vec<StorageEntry>)
    ensures
        sorted_by_name(r@),
        views_of(r@).to_multiset() == views_of(entries@).to_multiset(),
{
    let ghost orig = entries@;
    let mut rest = entries;
    let mut out: Vec<StorageEntry> = Vec::new();
    proof {
        assert(views_of(out@).to_multiset().add(views_of(rest@).to_multiset()) =~= views_of(
            orig,
        ).to_multiset());
    }
    while rest.len() > 0
        invariant
            sorted_by_name(out@),
            views_of(out@).to_multiset().add(views_of(rest@).to_multiset()) == views_of(
                orig,
            ).to_multiset(),
        decreases rest.len(),
    {
        let ghost pre_rest = rest@;
        let ghost pre_out = out@;
        let e = rest.remove(0);
        proof {
            to_multiset_remove(views_of(pre_rest), 0);
            assert(views_of(rest@) =~= views_of(pre_rest).remove(0));
            assert(views_of(pre_rest)[0] == e@);
            assert(views_of(pre_rest).to_multiset().count(e@) > 0) by {
                views_of(pre_rest).to_multiset_ensures();
                assert(views_of(pre_rest).contains(e@));
            }
        }
        insert_sorted(&mut out, e);
        proof {
            assert(views_of(out@).to_multiset().add(views_of(rest@).to_multiset()) =~= views_of(
                orig,
            ).to_multiset());
        }
    }
    proof {
        assert(views_of(rest@).to_multiset() =~= Multiset::<EntryV>::empty()) by {
            views_of(rest@).to_multiset_ensures();
        }
        assert(views_of(out@).to_multiset() =~= views_of(orig).to_multiset());
    }
    out
}

/// The configured provider: a single backend serves the whole mount. The
/// closed pair of variants keeps every match over backends exhaustive.
#[derive(Debug)]
pub enum StorageProvider {
    Local(LocalStorageProvider),
    Nginx(NginxStorageProvider),
}

impl StorageProvider {
    /// The request-path prefix this provider answers.
    pub open spec fn spec_prefix(&self) -> Seq<char> {
        match self {
            StorageProvider::Local(p) => p.req_path_prefix@,
            StorageProvider::Nginx(p) => p.req_path_prefix@,
        }
    }

    /// Whether the provider streams files itself (the local one) or
    /// redirects to an external URL (the remote one).
    pub fn is_local(&self) -> (r: bool)
        ensures
            r == (self is Local),
    {
        match self {
            StorageProvider::Local(_) => true,
            StorageProvider::Nginx(_) => false,
        }
    }

    /// The request path with the provider's prefix removed; nothing if the
    /// prefix does not match.
    pub fn path_in_provider(&self, full_path: &str) -> (r: Option<String>)
        ensures
            match r {
                Some(p) => is_prefix_of(self.spec_prefix(), full_path@) && p@ == full_path@.skip(
                    self.spec_prefix().len() as int,
                ),
                None => !is_prefix_of(self.spec_prefix(), full_path@),
            },
    {
        match self {
            StorageProvider::Local(p) => p.path_in_provider(full_path),
            StorageProvider::Nginx(p) => p.path_in_provider(full_path),
        }
    }

    /// The external URL a download redirects to: always nothing for the
    /// local provider; for the remote one, the provider-relative path joined
    /// against the public base URL.
    pub fn get_download_url(&self, full_path: &str) -> (r: Result<Option<String>, StorageError>)
        ensures
            match self {
                StorageProvider::Local(_) => r == Result::<
                    Option<String>,
                    StorageError,
                >::Ok(Option::None),
                StorageProvider::Nginx(p) => match r {
                    Result::Ok(Option::None) => !is_prefix_of(p.req_path_prefix@, full_path@),
                    Result::Ok(Option::Some(u)) => is_prefix_of(p.req_path_prefix@, full_path@)
                        && crate::nginx::url_join_of(
                        p.public_url@,
                        crate::nginx::join_target(
                            full_path@.skip(p.req_path_prefix@.len() as int),
                        ),
                    ) == Option::Some(u@),
                    Result::Err(e) => e == StorageError::Internal && is_prefix_of(
                        p.req_path_prefix@,
                        full_path@,
                    ) && crate::nginx::url_join_of(
                        p.public_url@,
                        crate::nginx::join_target(
                            full_path@.skip(p.req_path_prefix@.len() as int),
                        ),
                    ) is None,
                },
            },
    {
        match self {
            StorageProvider::Local(p) => {
                let r = p.get_download_url(full_path);
                Ok(r)
            },
            StorageProvider::Nginx(p) => p.get_download_url(full_path),
        }
    }
}

/// Selects the provider serving `full_path` and the path relative to it:
/// nothing if the configured provider's prefix does not match the request.
pub fn select_provider<'a>(provider: &'a StorageProvider, full_path: &str) -> (r: Option<
    (&'a StorageProvider, String),
>)
    ensures
        match r {
            Some(pr) => pr.0 == provider && is_prefix_of(provider.spec_prefix(), full_path@)
                && pr.1@ == full_path@.skip(provider.spec_prefix().len() as int),
            None => !is_prefix_of(provider.spec_prefix(), full_path@),
        },
{
    match provider.path_in_provider(full_path) {
        Some(p) => Some((provider, p)),
        None => None,
    }
}

/// Builds the one provider the configuration selects: the explicit registry
/// constructed once at startup and passed to the router. The local root must
/// already be canonical (the embedding application canonicalizes it and
/// aborts startup if that fails); missing backend settings and an invalid
/// remote base URL are fatal.
pub fn build_provider(config: &Config, req_path_prefix: &str) -> (r: Result<
    StorageProvider,
    ConfigError,
>)
    ensures
        match r {
            Result::Ok(p) => match config.storage.backend {
                StorageBackend::Local => config.storage.local is Some && (
                p matches StorageProvider::Local(lp) && lp.root_path@
                    == config.storage.local->Some_0.root_path@ && lp.req_path_prefix@
                    == req_path_prefix@),
                StorageBackend::Nginx => config.storage.nginx is Some && (
                p matches StorageProvider::Nginx(np) && np.base_url@ == with_trailing_slash(
                    config.storage.nginx->Some_0.base_url@,
                ) && np.public_url@ == with_trailing_slash(
                    config.storage.nginx->Some_0.public_url@,
                ) && np.req_path_prefix@ == req_path_prefix@),
            },
            Result::Err(ConfigError::MissingLocalConfig) => config.storage.backend
                == StorageBackend::Local && config.storage.local is None,
            Result::Err(ConfigError::MissingNginxConfig) => config.storage.backend
                == StorageBackend::Nginx && config.storage.nginx is None,
            Result::Err(ConfigError::InvalidBaseUrl) => config.storage.backend
                == StorageBackend::Nginx && config.storage.nginx is Some && url_scheme_of(
                config.storage.nginx->Some_0.base_url@,
            ) is None,
            Result::Err(ConfigError::UnsupportedScheme) => config.storage.backend
                == StorageBackend::Nginx && config.storage.nginx is Some && (url_scheme_of(
                config.storage.nginx->Some_0.base_url@,
            ) matches Option::Some(sch) && sch != "http"@ && sch != "https"@),
        },
{
    match config.storage.backend {
        StorageBackend::Local => {
            let local = match &config.storage.local {
                Some(l) => l,
                None => {
                    return Err(ConfigError::MissingLocalConfig);
                },
            };
            Ok(
                StorageProvider::Local(
                    LocalStorageProvider::new(
                        local.root_path.clone(),
                        req_path_prefix.to_owned(),
                    ),
                ),
            )
        },
        StorageBackend::Nginx => {
            let nginx = match &config.storage.nginx {
                Some(n) => n,
                None => {
                    return Err(ConfigError::MissingNginxConfig);
                },
            };
            match NginxStorageProvider::new(
                nginx.base_url.clone(),
                req_path_prefix.to_owned(),
                nginx.public_url.clone(),
            ) {
                Ok(p) => Ok(StorageProvider::Nginx(p)),
                Err(e) => Err(e),
            }
        },
    }
}

} // verus!
