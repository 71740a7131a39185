//! The remote autoindex provider.
//!
//! It lists directories by scraping an HTML autoindex page that a remote
//! HTTP server renders, and resolves downloads by redirecting to a public
//! base URL. The embedding application performs the fetch itself and reports
//! it as a `FetchOutcome`; the scraping — pairing every anchor with the first
//! preformatted-text line that contains its name, and reading a date and a
//! size out of that line — is verified against the parsed document's anchors
//! and preformatted text, which the scraper crate extracts behind trusted
//! wrappers.

use vstd::prelude::*;
use vstd::string::StrSliceExecFns;
use vstd::string::StringExecFns;

use crate::config::{strip_trailing_slashes, ConfigError};
use crate::storage::{
    sort_entries_by_name, sorted_by_name, views_of, EntryV, FetchOutcome, StorageEntry,
    StorageError,
};
use crate::strings::{
    contains_seq, contains_str, is_prefix_of, split_on, split_on_char, split_whitespace_tokens,
    split_ws, starts_with_str, str_eq,
};
use crate::utils::{parse_file_size, parse_size_spec};

verus! {

/// The scheme of `s` parsed as a URL, or nothing if `s` is not a valid URL.
pub uninterp spec fn url_scheme_of(s: Seq<char>) -> Option<Seq<char>>;

/// Relies on url::Url::parse: the parsed URL's scheme, which the url crate
/// normalizes to lower case; nothing if `s` does not parse as a URL.
#[verifier::external_body]
fn parse_url_scheme(s: &str) -> (r: Option<String>)
    ensures
        match r {
            Option::Some(sch) => url_scheme_of(s@) == Option::Some(sch@),
            Option::None => url_scheme_of(s@) is None,
        },
{
    match url::Url::parse(s) {
        Ok(u) => Some(u.scheme().to_string()),
        Err(_) => None,
    }
}

/// The absolute URL that `rel` denotes against base URL `base`, or nothing
/// if `base` does not parse or the join fails.
pub uninterp spec fn url_join_of(base: Seq<char>, rel: Seq<char>) -> Option<Seq<char>>;

/// Relies on url::Url::parse and url::Url::join: the text of `rel` resolved
/// against `base`.
#[verifier::external_body]
fn join_url(base: &str, rel: &str) -> (r: Option<String>)
    ensures
        match r {
            Option::Some(u) => url_join_of(base@, rel@) == Option::Some(u@),
            Option::None => url_join_of(base@, rel@) is None,
        },
{
    match url::Url::parse(base) {
        Ok(b) => match b.join(rel) {
            Ok(u) => Some(u.to_string()),
            Err(_) => None,
        },
        Err(_) => None,
    }
}

/// The text content of the first `pre` element of the document parsed from
/// `html`, or nothing if it has none.
pub uninterp spec fn pre_text_of(html: Seq<char>) -> Option<Seq<char>>;

/// Relies on scraper's Html::parse_document, Html::select and
/// ElementRef::text: the concatenated text of the document's first `pre`
/// element.
#[verifier::external_body]
fn html_pre_text(html: &str) -> (r: Option<String>)
    ensures
        match r {
            Option::Some(p) => pre_text_of(html@) == Option::Some(p@),
            Option::None => pre_text_of(html@) is None,
        },
{
    let document = scraper::Html::parse_document(html);
    let pre_selector = scraper::Selector::parse("pre").unwrap();
    document.select(&pre_selector).next().map(|el| el.text().collect::<String>())
}

/// The `href` attribute and text content of every anchor element of the
/// document parsed from `html`, in document order; anchors without an `href`
/// are skipped.
pub uninterp spec fn links_of(html: Seq<char>) -> Seq<(Seq<char>, Seq<char>)>;

/// Relies on scraper's Html::parse_document, Html::select, Element::attr and
/// ElementRef::text: each `a` element's `href` and text.
#[verifier::external_body]
fn html_links(html: &str) -> (r: Vec<(String, String)>)
    ensures
        r.deep_view() == links_of(html@),
{
    let document = scraper::Html::parse_document(html);
    let link_selector = scraper::Selector::parse("a").unwrap();
    let mut links = Vec::new();
    for element in document.select(&link_selector) {
        if let Some(href) = element.value().attr("href") {
            links.push((href.to_string(), element.text().collect::<String>()));
        }
    }
    links
}

/// The timestamp `s` denotes in the fixed autoindex format
/// `day-abbreviatedMonth-year hour:minute` (for example `17-Apr-2024 09:45`),
/// in seconds since the Unix epoch; nothing if `s` does not match it.
pub uninterp spec fn parsed_datetime(s: Seq<char>) -> Option<i64>;

/// Relies on chrono's NaiveDateTime::parse_from_str with the fixed format
/// string `%d-%b-%Y %H:%M`, and NaiveDateTime::and_utc: the result depends
/// on the text alone.
#[verifier::external_body]
fn parse_autoindex_datetime(s: &str) -> (r: Option<i64>)
    ensures
        match r {
            Option::Some(ts) => parsed_datetime(s@) == Option::Some(ts),
            Option::None => parsed_datetime(s@) is None,
        },
{
    match chrono::NaiveDateTime::parse_from_str(s, "%d-%b-%Y %H:%M") {
        Ok(dt) => Some(dt.and_utc().timestamp()),
        Err(_) => None,
    }
}

/// `s` with a `/` appended unless it is empty or already ends with one.
pub open spec fn with_trailing_slash(s: Seq<char>) -> Seq<char> {
    if s.len() > 0 && s.last() != '/' {
        s.push('/')
    } else {
        s
    }
}

/// The HTTP-backed provider: the base URL that is scraped, the request-path
/// prefix it answers, and the public base URL under which clients reach the
/// same files.
#[derive(Debug)]
pub struct NginxStorageProvider {
    pub base_url: String,
    pub req_path_prefix: String,
    pub public_url: String,
}

/// Index of the first line that contains `name`, or -1 if none does.
pub open spec fn first_matching_line(lines: Seq<Seq<char>>, name: Seq<char>) -> int
    decreases lines.len(),
{
    if lines.len() == 0 {
        -1
    } else if contains_seq(lines[0], name) {
        0
    } else {
        let r = first_matching_line(lines.skip(1), name);
        if r == -1 {
            -1
        } else {
            r + 1
        }
    }
}

proof fn lemma_first_matching_line(lines: Seq<Seq<char>>, name: Seq<char>, k: int)
    requires
        0 <= k <= lines.len(),
        forall|j: int| 0 <= j < k ==> !contains_seq(#[trigger] lines[j], name),
        k < lines.len() ==> contains_seq(lines[k], name),
    ensures
        k < lines.len() ==> first_matching_line(lines, name) == k,
        k == lines.len() ==> first_matching_line(lines, name) == -1,
    decreases lines.len(),
{
    if lines.len() == 0 {
    } else if contains_seq(lines[0], name) {
    } else {
        lemma_first_matching_line(lines.skip(1), name, k - 1);
    }
}

/// The date and size an entry named `name` gets from the preformatted text:
/// those written on the first line that contains the name — the second and
/// third whitespace-separated tokens as the date and time (falling back to
/// `now` when they do not parse), the fourth as the size. An entry whose
/// name no line contains, or whose line has fewer than four tokens, gets
/// `now` and no size.
pub open spec fn line_meta(lines: Seq<Seq<char>>, name: Seq<char>, now: i64) -> (i64, Option<
    usize,
>) {
    let li = first_matching_line(lines, name);
    if 0 <= li < lines.len() {
        let parts = split_ws(lines[li]);
        if parts.len() >= 4 {
            let m = match parsed_datetime(parts[1] + seq![' '] + parts[2]) {
                Option::Some(ts) => ts,
                Option::None => now,
            };
            (m, parse_size_spec(parts[3]))
        } else {
            (now, Option::<usize>::None)
        }
    } else {
        (now, Option::<usize>::None)
    }
}

/// The row one anchor contributes: its text is the name, its target joined
/// below the listing path is the address, and date and size come from the
/// matching preformatted-text line.
pub open spec fn autoindex_row(
    link: (Seq<char>, Seq<char>),
    lines: Seq<Seq<char>>,
    path: Seq<char>,
    now: i64,
) -> EntryV {
    EntryV {
        name: link.1,
        url: strip_trailing_slashes(path) + seq!['/'] + link.0,
        modified: line_meta(lines, link.1, now).0,
        size: line_meta(lines, link.1, now).1,
    }
}

/// The rows of an autoindex page, in document order: one per anchor, except
/// the self-referential parent-directory anchor `../`.
pub open spec fn autoindex_rows(
    links: Seq<(Seq<char>, Seq<char>)>,
    lines: Seq<Seq<char>>,
    path: Seq<char>,
    now: i64,
) -> Seq<EntryV>
    decreases links.len(),
{
    if links.len() == 0 {
        Seq::empty()
    } else if links[0].0 == seq!['.', '.', '/'] {
        autoindex_rows(links.skip(1), lines, path, now)
    } else {
        seq![autoindex_row(links[0], lines, path, now)] + autoindex_rows(
            links.skip(1),
            lines,
            path,
            now,
        )
    }
}

impl NginxStorageProvider {
    /// A provider over a validated scrape base URL: the URL must parse and
    /// its scheme must be http or https (anything else is a fatal
    /// configuration error); both base URLs are normalized to end with a
    /// separator.
    pub fn new(base_url: String, req_path_prefix: String, public_url: String) -> (r: Result<
        Self,
        ConfigError,
    >)
        ensures
            match r {
                Result::Ok(p) => {
                    &&& (url_scheme_of(base_url@) == Option::Some("http"@) || url_scheme_of(
                        base_url@,
                    ) == Option::Some("https"@))
                    &&& p.base_url@ == with_trailing_slash(base_url@)
                    &&& p.req_path_prefix@ == req_path_prefix@
                    &&& p.public_url@ == with_trailing_slash(public_url@)
                },
                Result::Err(ConfigError::InvalidBaseUrl) => url_scheme_of(base_url@) is None,
                Result::Err(ConfigError::UnsupportedScheme) => url_scheme_of(
                    base_url@,
                ) matches Option::Some(sch) && sch != "http"@ && sch != "https"@,
                Result::Err(_) => false,
            },
    {
        let scheme = match parse_url_scheme(base_url.as_str()) {
            Some(s) => s,
            None => {
                return Err(ConfigError::InvalidBaseUrl);
            },
        };
        if !(str_eq(scheme.as_str(), "http") || str_eq(scheme.as_str(), "https")) {
            return Err(ConfigError::UnsupportedScheme);
        }
        let base_url = push_trailing_slash(base_url);
        let public_url = push_trailing_slash(public_url);
        Ok(NginxStorageProvider { base_url, req_path_prefix, public_url })
    }

    /// The request path with this provider's prefix removed; nothing if the
    /// prefix does not match, meaning the request is not for this provider.
    pub fn path_in_provider(&self, full_path: &str) -> (r: Option<String>)
        ensures
            match r {
                Some(p) => is_prefix_of(self.req_path_prefix@, full_path@) && p@
                    == full_path@.skip(self.req_path_prefix@.len() as int),
                None => !is_prefix_of(self.req_path_prefix@, full_path@),
            },
    {
        if starts_with_str(full_path, self.req_path_prefix.as_str()) {
            let l = full_path.unicode_len();
            let pl = self.req_path_prefix.as_str().unicode_len();
            let rest = full_path.substring_char(pl, l);
            proof {
                assert(rest@ =~= full_path@.skip(self.req_path_prefix@.len() as int));
            }
            Some(rest.to_owned())
        } else {
            None
        }
    }

    /// The remote provider redirects instead of streaming.
    pub fn is_local(&self) -> (r: bool)
        ensures
            r == false,
    {
        false
    }

    /// The public URL a download of `full_path` redirects to: the
    /// provider-relative path (its leading separator removed; a relative path
    /// without one contributes nothing) joined against the public base URL.
    /// Nothing if the prefix does not match; an internal error if the public
    /// base URL does not parse or the join fails.
    pub fn get_download_url(&self, full_path: &str) -> (r: Result<Option<String>, StorageError>)
        ensures
            match r {
                Result::Ok(Option::None) => !is_prefix_of(self.req_path_prefix@, full_path@),
                Result::Ok(Option::Some(u)) => is_prefix_of(self.req_path_prefix@, full_path@)
                    && url_join_of(
                    self.public_url@,
                    join_target(full_path@.skip(self.req_path_prefix@.len() as int)),
                ) == Option::Some(u@),
                Result::Err(e) => e == StorageError::Internal && is_prefix_of(
                    self.req_path_prefix@,
                    full_path@,
                ) && url_join_of(
                    self.public_url@,
                    join_target(full_path@.skip(self.req_path_prefix@.len() as int)),
                ) is None,
            },
    {
        let pip = match self.path_in_provider(full_path) {
            Some(p) => p,
            None => {
                return Ok(None);
            },
        };
        let pl = pip.as_str().unicode_len();
        let rel = if pl > 0 && pip.as_str().get_char(0) == '/' {
            pip.as_str().substring_char(1, pl)
        } else {
            ""
        };
        proof {
            reveal_strlit("");
            assert(rel@ =~= join_target(pip@));
        }
        match join_url(self.public_url.as_str(), rel) {
            Some(u) => Ok(Some(u)),
            None => Err(StorageError::Internal),
        }
    }

    /// The rows scraped from an autoindex page's markup, in document order:
    /// one per anchor except the parent link, as `autoindex_rows` describes;
    /// nothing if the page has no preformatted block. `now` supplies the
    /// fallback timestamp.
    #[verifier::loop_isolation(false)]
    #[verifier::rlimit(30)]
    pub fn parse_entries(&self, html: &str, path: &str, now: i64) -> (r: Option<
        Vec<StorageEntry>,
    >)
        ensures
            match r {
                Option::Some(v) => pre_text_of(html@) matches Option::Some(pre) && views_of(v@)
                    == autoindex_rows(links_of(html@), split_on(pre, '\n'), path@, now),
                Option::None => pre_text_of(html@) is None,
            },
    {
        let pre = match html_pre_text(html) {
            Some(p) => p,
            None => {
                return None;
            },
        };
        let lines = split_on_char(pre.as_str(), '\n');
        let links = html_links(html);
        let ghost linesv = lines.deep_view();
        let ghost lk = links.deep_view();
        // the listing path with trailing separators removed
        let plen = path.unicode_len();
        let mut pend = plen;
        while pend > 0 && path.get_char(pend - 1) == '/'
            invariant
                pend <= plen,
                forall|j: int| pend <= j < plen ==> path@[j] == '/',
            decreases pend,
        {
            pend = pend - 1;
        }
        proof {
            crate::config::lemma_strip_trailing_slashes(path@, pend as int);
        }
        let base = path.substring_char(0, pend);
        let mut entries: Vec<StorageEntry> = Vec::new();
        let mut i: usize = 0;
        proof {
            assert(lk.skip(0) =~= lk);
            assert(views_of(entries@) + autoindex_rows(lk.skip(0), linesv, path@, now)
                =~= autoindex_rows(lk, linesv, path@, now));
        }
        while i < links.len()
            invariant
                i <= links.len(),
                views_of(entries@) + autoindex_rows(lk.skip(i as int), linesv, path@, now)
                    == autoindex_rows(lk, linesv, path@, now),
            decreases links.len() - i,
        {
            let ghost pre_entries = entries@;
            let pair = &links[i];
            proof {
                assert(lk[i as int] == (pair.0@, pair.1@));
                assert(lk.skip(i as int)[0] == lk[i as int]);
                assert(lk.skip(i as int).skip(1) =~= lk.skip(i + 1));
                reveal_strlit("../");
                assert("../"@ =~= seq!['.', '.', '/']);
            }
            if str_eq(pair.0.as_str(), "../") {
                proof {
                    assert(views_of(entries@) + autoindex_rows(lk.skip(i + 1), linesv, path@, now)
                        =~= autoindex_rows(lk, linesv, path@, now));
                }
                i = i + 1;
                continue ;
            }
            let href = pair.0.clone();
            let name = pair.1.clone();
            // the entry's address below the listing
            proof {
                reveal_strlit("/");
                assert("/"@ =~= seq!['/']);
            }
            let mut url = base.to_owned();
            url.append("/");
            url.append(href.as_str());
            // the matching preformatted-text line, if any
            let mut li: usize = 0;
            while li < lines.len() && !contains_str(lines[li].as_str(), name.as_str())
                invariant
                    li <= lines.len(),
                    forall|j: int| 0 <= j < li ==> !contains_seq(#[trigger] linesv[j], name@),
                decreases lines.len() - li,
            {
                li = li + 1;
            }
            proof {
                lemma_first_matching_line(linesv, name@, li as int);
            }
            let mut modified = now;
            let mut size: Option<usize> = None;
            if li < lines.len() {
                let parts = split_whitespace_tokens(lines[li].as_str());
                if parts.len() >= 4 {
                    proof {
                        reveal_strlit(" ");
                        assert(" "@ =~= seq![' ']);
                    }
                    let mut dt = parts[1].clone();
                    dt.append(" ");
                    dt.append(parts[2].as_str());
                    proof {
                        assert(parts.deep_view()[1] == parts[1]@);
                        assert(parts.deep_view()[2] == parts[2]@);
                        assert(parts.deep_view()[3] == parts[3]@);
                    }
                    match parse_autoindex_datetime(dt.as_str()) {
                        Some(ts) => {
                            modified = ts;
                        },
                        None => {},
                    }
                    size = parse_file_size(parts[3].as_str());
                }
            }
            let entry = StorageEntry { name, url, modified, size };
            proof {
                assert(entry@ == autoindex_row(lk[i as int], linesv, path@, now));
            }
            entries.push(entry);
            proof {
                assert(views_of(entries@) =~= views_of(pre_entries).push(entry@));
                assert(views_of(entries@) + autoindex_rows(lk.skip(i + 1), linesv, path@, now)
                    =~= autoindex_rows(lk, linesv, path@, now));
            }
            i = i + 1;
        }
        proof {
            assert(autoindex_rows(lk.skip(links@.len() as int), linesv, path@, now) =~= Seq::<
                EntryV,
            >::empty());
            assert(views_of(entries@) =~= autoindex_rows(lk, linesv, path@, now));
        }
        Some(entries)
    }

    /// The listing scraped from a fetch's outcome, sorted by name. A failure
    /// status (404 or any other) and an unparsable page are absent
    /// (`Ok(None)`); only a connection-level failure is an error.
    pub fn list_directory(&self, path_in_provider: &str, outcome: FetchOutcome, now: i64) -> (r:
        Result<Option<Vec<StorageEntry>>, StorageError>)
        ensures
            match outcome {
                FetchOutcome::Body(html) => match r {
                    Result::Ok(Option::Some(v)) => {
                        &&& pre_text_of(html@) matches Option::Some(pre)
                        &&& sorted_by_name(v@)
                        &&& views_of(v@).to_multiset() == autoindex_rows(
                            links_of(html@),
                            split_on(pre_text_of(html@)->Some_0, '\n'),
                            path_in_provider@,
                            now,
                        ).to_multiset()
                    },
                    Result::Ok(Option::None) => pre_text_of(html@) is None,
                    Result::Err(_) => false,
                },
                FetchOutcome::HttpFailure(_) => r == Result::<
                    Option<Vec<StorageEntry>>,
                    StorageError,
                >::Ok(Option::None),
                FetchOutcome::TransportFailed => r == Result::<
                    Option<Vec<StorageEntry>>,
                    StorageError,
                >::Ok(Option::None),
                FetchOutcome::ConnectFailed => r == Result::<
                    Option<Vec<StorageEntry>>,
                    StorageError,
                >::Err(StorageError::BackendUnavailable),
            },
    {
        let html = match outcome {
            FetchOutcome::Body(html) => html,
            FetchOutcome::HttpFailure(_) => {
                return Ok(None);
            },
            FetchOutcome::TransportFailed => {
                return Ok(None);
            },
            FetchOutcome::ConnectFailed => {
                return Err(StorageError::BackendUnavailable);
            },
        };
        match self.parse_entries(html.as_str(), path_in_provider, now) {
            Some(entries) => Ok(Some(sort_entries_by_name(entries))),
            None => Ok(None),
        }
    }
}

/// The text joined against the public base URL: the provider-relative path
/// without its leading separator, or nothing of it when it has none. (A
/// relative path without a leading separator contributes an empty join
/// target, so the download URL is the public base itself.)
pub open spec fn join_target(pip: Seq<char>) -> Seq<char> {
    if pip.len() > 0 && pip[0] == '/' {
        pip.skip(1)
    } else {
        Seq::empty()
    }
}

/// Appends a `/` unless the string is empty or already ends with one.
fn push_trailing_slash(s: String) -> (r: String)
    ensures
        r@ == with_trailing_slash(s@),
{
    let ghost sv = s@;
    let l = s.as_str().unicode_len();
    if l > 0 && s.as_str().get_char(l - 1) != '/' {
        proof {
            reveal_strlit("/");
            assert("/"@ =~= seq!['/']);
        }
        let mut r = s;
        r.append("/");
        proof {
            assert(r@ =~= with_trailing_slash(sv));
        }
        r
    } else {
        s
    }
}

} // verus!
