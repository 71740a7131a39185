//! The request router.
//!
//! Each request is handled statelessly in two verified steps around the
//! application's I/O. `plan_request` normalizes the inbound path, rejects
//! paths that could escape the mount, classifies the request as a download
//! or a listing, selects
//! the provider, and decides everything that needs no I/O (redirects and
//! failures). The application then performs the planned I/O and maps its
//! outcome through `listing_response` or `stream_response`.

use vstd::prelude::*;
use vstd::string::StrSliceExecFns;
use vstd::string::StringExecFns;

use crate::config::{has_matching_extension, spec_has_matching_extension, DownloadRules};
use crate::error::HttpError;
use crate::nginx::{join_target, url_join_of};
use crate::storage::{StorageEntry, StorageError, StorageProvider};
use crate::strings::{is_prefix_of, spec_digits, split_on, split_on_char, str_eq, u64_to_string};

verus! {

/// `s` without its leading `/` separators.
pub open spec fn skip_leading_slashes(s: Seq<char>) -> Seq<char>
    decreases s.len(),
{
    if s.len() > 0 && s[0] == '/' {
        skip_leading_slashes(s.skip(1))
    } else {
        s
    }
}

/// The full mount path of a request: the mount prefix, a separator, and the
/// request's own path with leading separators removed. (An empty request
/// path addresses the mount's root.)
pub open spec fn spec_full_request_path(base_path: Seq<char>, req_path: Seq<char>) -> Seq<char> {
    base_path + seq!['/'] + skip_leading_slashes(req_path)
}

proof fn lemma_skip_leading_slashes(s: Seq<char>, k: int)
    requires
        0 <= k <= s.len(),
        forall|j: int| 0 <= j < k ==> s[j] == '/',
        k < s.len() ==> s[k] != '/',
    ensures
        skip_leading_slashes(s) == s.skip(k),
    decreases s.len(),
{
    if s.len() > 0 && s[0] == '/' {
        if k == 0 {
        } else {
            lemma_skip_leading_slashes(s.skip(1), k - 1);
            assert(s.skip(1).skip(k - 1) =~= s.skip(k));
        }
    } else {
        assert(s.skip(k) =~= s);
    }
}

/// Builds the full mount path, as `spec_full_request_path` describes.
#[verifier::loop_isolation(false)]
pub fn full_request_path(base_path: &str, req_path: &str) -> (r: String)
    ensures
        r@ == spec_full_request_path(base_path@, req_path@),
{
    let len = req_path.unicode_len();
    let mut k: usize = 0;
    while k < len && req_path.get_char(k) == '/'
        invariant
            k <= len,
            forall|j: int| 0 <= j < k ==> req_path@[j] == '/',
        decreases len - k,
    {
        k = k + 1;
    }
    proof {
        lemma_skip_leading_slashes(req_path@, k as int);
        reveal_strlit("/");
        assert("/"@ =~= seq!['/']);
    }
    let tail = req_path.substring_char(k, len);
    let mut full = base_path.to_owned();
    full.append("/");
    full.append(tail);
    full
}

/// The path's segment sequence (split at `/`) contains a parent-directory
/// segment: such a path could escape the served namespace.
pub open spec fn spec_has_dotdot(path: Seq<char>) -> bool {
    exists|i: int|
        0 <= i < split_on(path, '/').len() && #[trigger] split_on(path, '/')[i] == seq!['.', '.']
}

/// Path safety: rejects (as forbidden) any path with a `..` segment,
/// whichever backend serves it; every other path passes through unchanged.
#[verifier::loop_isolation(false)]
pub fn validate_path<'a>(full_path: &'a str) -> (r: Result<&'a str, HttpError>)
    ensures
        match r {
            Result::Ok(s) => s@ == full_path@ && !spec_has_dotdot(full_path@),
            Result::Err(e) => spec_has_dotdot(full_path@) && (
            e matches HttpError::Forbidden { message, description } && message@ == "access denied"@
                && description@ == "the request path is invalid"@),
        },
{
    let segs = split_on_char(full_path, '/');
    proof {
        reveal_strlit("..");
        assert(".."@ =~= seq!['.', '.']);
    }
    let mut i: usize = 0;
    while i < segs.len()
        invariant
            i <= segs.len(),
            segs.deep_view() == split_on(full_path@, '/'),
            forall|j: int| 0 <= j < i ==> segs.deep_view()[j] != seq!['.', '.'],
        decreases segs.len() - i,
    {
        proof {
            assert(segs.deep_view()[i as int] == segs[i as int]@);
        }
        if str_eq(segs[i].as_str(), "..") {
            return Err(HttpError::forbidden("access denied", "the request path is invalid"));
        }
        i = i + 1;
    }
    proof {
        assert(!spec_has_dotdot(full_path@));
    }
    Ok(full_path)
}

/// The router's decision for one request, before any I/O happens.
#[derive(Debug)]
pub enum RequestPlan {
    /// Respond with this error.
    Fail(HttpError),
    /// Redirect the download to this external URL (302).
    Redirect(String),
    /// Stream this local file as a download.
    StreamLocalFile { path_in_provider: String, abs_path: String },
    /// List this directory on the local filesystem.
    ListLocal { path_in_provider: String, abs_path: String },
    /// List this directory by fetching the remote autoindex page.
    ListRemote { path_in_provider: String },
}

/// Classifies one request and decides everything that needs no I/O.
///
/// The normalized path is checked for safety first (a `..` segment is
/// forbidden for every backend); a path whose extension is among the download
/// rules takes the download branch — whatever the underlying resource is —
/// and every other path the listing branch. A request no provider prefix
/// matches is not found. Remote downloads resolve to a redirect immediately;
/// local downloads and both listing kinds name the I/O the application must
/// perform next.
#[verifier::rlimit(30)]
pub fn plan_request(
    provider: &StorageProvider,
    rules: &DownloadRules,
    base_path: &str,
    req_path: &str,
) -> (r: RequestPlan)
    ensures
        ({
            let full = spec_full_request_path(base_path@, req_path@);
            let download = spec_has_matching_extension(full, rules.extensions.deep_view());
            let matched = is_prefix_of(provider.spec_prefix(), full);
            let pip = full.skip(provider.spec_prefix().len() as int);
            &&& spec_has_dotdot(full) ==> (r matches RequestPlan::Fail(e) && e is Forbidden)
            &&& !spec_has_dotdot(full) && !matched ==> (r matches RequestPlan::Fail(e)
                && e is NotFound)
            &&& !spec_has_dotdot(full) && matched && download && provider is Local ==> (
            r matches RequestPlan::StreamLocalFile { path_in_provider, abs_path }
                && path_in_provider@ == pip && abs_path@ == provider->Local_0.root_path@ + seq![
                '/',
            ] + pip)
            &&& !spec_has_dotdot(full) && matched && download && provider is Nginx ==> match url_join_of(
                provider->Nginx_0.public_url@,
                join_target(pip),
            ) {
                Option::Some(u) => r matches RequestPlan::Redirect(ru) && ru@ == u,
                Option::None => r matches RequestPlan::Fail(e) && e is InternalServerError,
            }
            &&& !spec_has_dotdot(full) && matched && !download && provider is Local ==> (
            r matches RequestPlan::ListLocal { path_in_provider, abs_path } && path_in_provider@
                == pip && abs_path@ == provider->Local_0.root_path@ + seq!['/'] + pip)
            &&& !spec_has_dotdot(full) && matched && !download && provider is Nginx ==> (
            r matches RequestPlan::ListRemote { path_in_provider } && path_in_provider@ == pip)
        }),
{
    let full = full_request_path(base_path, req_path);
    if let Err(e) = validate_path(full.as_str()) {
        return RequestPlan::Fail(e);
    }
    let download = has_matching_extension(full.as_str(), &rules.extensions);
    let pip = match provider.path_in_provider(full.as_str()) {
        Some(p) => p,
        None => {
            return RequestPlan::Fail(
                HttpError::not_found("path not found", "the requested resource does not exist"),
            );
        },
    };
    if download {
        match provider {
            StorageProvider::Local(p) => {
                let abs_path = p.abs_path(pip.as_str());
                RequestPlan::StreamLocalFile { path_in_provider: pip, abs_path }
            },
            StorageProvider::Nginx(_) => {
                match provider.get_download_url(full.as_str()) {
                    Ok(Some(u)) => RequestPlan::Redirect(u),
                    Ok(None) => RequestPlan::Fail(
                        HttpError::not_found(
                            "file not found",
                            "the requested download file does not exist",
                        ),
                    ),
                    Err(_) => RequestPlan::Fail(
                        HttpError::internal_error(
                            "server error",
                            "failed to produce the download link",
                        ),
                    ),
                }
            },
        }
    } else {
        match provider {
            StorageProvider::Local(p) => {
                let abs_path = p.abs_path(pip.as_str());
                RequestPlan::ListLocal { path_in_provider: pip, abs_path }
            },
            StorageProvider::Nginx(_) => {
                RequestPlan::ListRemote { path_in_provider: pip }
            },
        }
    }
}

/// Maps a provider's listing outcome onto the response: an absent directory
/// is not found (404); a provider failure — the backend unreachable, or any
/// other internal fault — is a server error (500).
pub fn listing_response(outcome: Result<Option<Vec<StorageEntry>>, StorageError>) -> (r: Result<
    Vec<StorageEntry>,
    HttpError,
>)
    ensures
        match outcome {
            Result::Ok(Option::Some(v)) => r matches Result::Ok(w) && w == v,
            Result::Ok(Option::None) => r matches Result::Err(e) && e is NotFound
                && e.spec_description() == "the requested directory does not exist"@,
            Result::Err(StorageError::BackendUnavailable) => r matches Result::Err(e)
                && e is InternalServerError && e.spec_description()
                == "cannot reach the storage backend"@,
            Result::Err(StorageError::Internal) => r matches Result::Err(e)
                && e is InternalServerError && e.spec_description()
                == "failed to list the directory"@,
        },
{
    match outcome {
        Ok(Some(v)) => Ok(v),
        Ok(None) => Err(
            HttpError::not_found("directory not found", "the requested directory does not exist"),
        ),
        Err(StorageError::BackendUnavailable) => Err(
            HttpError::internal_error("server error", "cannot reach the storage backend"),
        ),
        Err(StorageError::Internal) => Err(
            HttpError::internal_error("server error", "failed to list the directory"),
        ),
    }
}

/// What the application found when it tried to open a planned local file.
#[derive(Debug)]
pub enum StreamOutcome {
    /// The file is open and will be streamed; its base name and byte length,
    /// for the response headers.
    Opened { file_name: String, len: u64 },
    /// The file could not be opened: it is absent.
    NotFoundFile,
    /// The path below the root could not be resolved at all.
    ResolveFailed,
}

/// The headers of a streamed download response. The inbound `Range` header,
/// if any, is forwarded verbatim by the application; the library does not
/// interpret it.
#[derive(Debug)]
pub struct DownloadHeaders {
    /// Always the generic binary type, forcing a download.
    pub content_type: String,
    /// An attachment carrying the file's base name.
    pub content_disposition: String,
    /// The file's byte length, in decimal.
    pub content_length: String,
}

/// Maps the outcome of opening a planned local file onto the response: an
/// open file is streamed with forced-download headers, a missing file is not
/// found (404), and a path that failed to resolve is a server error (500).
pub fn stream_response(outcome: StreamOutcome) -> (r: Result<DownloadHeaders, HttpError>)
    ensures
        match outcome {
            StreamOutcome::Opened { file_name, len } => r matches Result::Ok(h) && (
            h.content_type@ == "application/octet-stream"@ && h.content_disposition@
                == "attachment; filename=\""@ + file_name@ + seq!['"'] && h.content_length@
                == spec_digits(len)),
            StreamOutcome::NotFoundFile => r matches Result::Err(e) && e is NotFound
                && e.spec_description() == "the requested download file does not exist"@,
            StreamOutcome::ResolveFailed => r matches Result::Err(e) && e is InternalServerError
                && e.spec_description() == "failed to process the file"@,
        },
{
    match outcome {
        StreamOutcome::Opened { file_name, len } => {
            proof {
                reveal_strlit("\"");
                assert("\""@ =~= seq!['"']);
            }
            let mut content_disposition = "attachment; filename=\"".to_owned();
            content_disposition.append(file_name.as_str());
            content_disposition.append("\"");
            Ok(
                DownloadHeaders {
                    content_type: "application/octet-stream".to_owned(),
                    content_disposition,
                    content_length: u64_to_string(len),
                },
            )
        },
        StreamOutcome::NotFoundFile => Err(
            HttpError::not_found("file not found", "the requested download file does not exist"),
        ),
        StreamOutcome::ResolveFailed => Err(
            HttpError::internal_error("server error", "failed to process the file"),
        ),
    }
}

} // verus!
