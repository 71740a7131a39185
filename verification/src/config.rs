//! Configuration model and the download rules.
//!
//! These structures mirror what the deployment's configuration file provides:
//! which backend serves the mount, where its data lives, and the set of file
//! extensions that are served as downloads instead of listings.

use vstd::prelude::*;
use vstd::string::StrSliceExecFns;
use vstd::string::StringExecFns;

use crate::strings::str_eq;

verus! {

/// Which backend serves the mount.
#[derive(Debug, PartialEq, Eq, Structural)]
pub enum StorageBackend {
    Local,
    Nginx,
}

/// Settings of the local filesystem backend.
#[derive(Debug)]
pub struct LocalStorageConfig {
    pub root_path: String,
}

/// Settings of the remote autoindex backend: the URL that is scraped and the
/// distinct URL under which clients can reach the same files.
#[derive(Debug)]
pub struct NginxStorageConfig {
    pub base_url: String,
    pub public_url: String,
}

/// The storage section: the chosen backend and its settings.
#[derive(Debug)]
pub struct StorageConfig {
    pub backend: StorageBackend,
    pub local: Option<LocalStorageConfig>,
    pub nginx: Option<NginxStorageConfig>,
}

/// The set of file extensions (without a leading dot) that are handled as
/// downloads.
#[derive(Debug)]
pub struct DownloadRules {
    pub extensions: Vec<String>,
}

/// The whole configuration.
#[derive(Debug)]
pub struct Config {
    pub storage: StorageConfig,
    pub download_rules: DownloadRules,
}

/// A fatal construction-time configuration fault. The composition root
/// aborts startup on any of these; none is recoverable at request time.
#[derive(Debug, PartialEq, Eq, Structural)]
pub enum ConfigError {
    /// The local backend is selected but its settings are missing.
    MissingLocalConfig,
    /// The remote backend is selected but its settings are missing.
    MissingNginxConfig,
    /// The remote scrape base URL does not parse as a URL.
    InvalidBaseUrl,
    /// The remote scrape base URL is neither http nor https.
    UnsupportedScheme,
}

/// `path` with trailing `/` separators removed.
pub open spec fn strip_trailing_slashes(path: Seq<char>) -> Seq<char>
    decreases path.len(),
{
    if path.len() > 0 && path.last() == '/' {
        strip_trailing_slashes(path.drop_last())
    } else {
        path
    }
}

/// The characters after the last `/` of `s` (all of `s` if it has none).
pub open spec fn last_segment(s: Seq<char>) -> Seq<char>
    decreases s.len(),
{
    if s.len() == 0 || s.last() == '/' {
        Seq::empty()
    } else {
        last_segment(s.drop_last()).push(s.last())
    }
}

/// The file name a path addresses: its last segment, ignoring trailing
/// separators; none for an empty path or a bare `.` or `..` segment.
pub open spec fn spec_file_name(path: Seq<char>) -> Option<Seq<char>> {
    let st = strip_trailing_slashes(path);
    if st.len() == 0 {
        Option::None
    } else {
        let name = last_segment(st);
        if name.len() == 0 || name == seq!['.'] || name == seq!['.', '.'] {
            Option::None
        } else {
            Option::Some(name)
        }
    }
}

/// Index of the last `.` in `name`, or -1 if there is none.
pub open spec fn find_last_dot(name: Seq<char>) -> int
    decreases name.len(),
{
    if name.len() == 0 {
        -1
    } else if name.last() == '.' {
        name.len() - 1
    } else {
        find_last_dot(name.drop_last())
    }
}

/// The extension of the file a path addresses: what follows the final `.` of
/// its file name. A name without a dot, or whose only dot leads it, has none.
pub open spec fn spec_extension(path: Seq<char>) -> Option<Seq<char>> {
    match spec_file_name(path) {
        Option::None => Option::None,
        Option::Some(name) => {
            let d = find_last_dot(name);
            if d <= 0 {
                Option::None
            } else {
                Option::Some(name.skip(d + 1))
            }
        },
    }
}

/// Whether the extension of `path` is one of `extensions`.
pub open spec fn spec_has_matching_extension(path: Seq<char>, extensions: Seq<Seq<char>>) -> bool {
    match spec_extension(path) {
        Option::None => false,
        Option::Some(e) => exists|i: int| 0 <= i < extensions.len() && extensions[i] == e,
    }
}

pub proof fn lemma_strip_trailing_slashes(s: Seq<char>, end: int)
    requires
        0 <= end <= s.len(),
        forall|j: int| end <= j < s.len() ==> s[j] == '/',
        end > 0 ==> s[end - 1] != '/',
    ensures
        strip_trailing_slashes(s) == s.subrange(0, end),
    decreases s.len(),
{
    if s.len() > 0 && s.last() == '/' {
        lemma_strip_trailing_slashes(s.drop_last(), end);
        assert(s.drop_last().subrange(0, end) =~= s.subrange(0, end));
    } else {
        assert(s.subrange(0, end) =~= s);
    }
}

proof fn lemma_last_segment(t: Seq<char>, st: int)
    requires
        0 <= st <= t.len(),
        forall|j: int| st <= j < t.len() ==> t[j] != '/',
        st > 0 ==> t[st - 1] == '/',
    ensures
        last_segment(t) == t.subrange(st, t.len() as int),
    decreases t.len(),
{
    if t.len() == 0 || t.last() == '/' {
        assert(t.subrange(st, t.len() as int) =~= Seq::<char>::empty());
    } else {
        lemma_last_segment(t.drop_last(), st);
        assert(t.drop_last().subrange(st, t.len() - 1).push(t.last()) =~= t.subrange(
            st,
            t.len() as int,
        ));
    }
}

proof fn lemma_find_last_dot(t: Seq<char>, k: int)
    requires
        -1 <= k < t.len(),
        forall|j: int| k < j < t.len() ==> t[j] != '.',
        k >= 0 ==> t[k] == '.',
    ensures
        find_last_dot(t) == k,
    decreases t.len(),
{
    if t.len() == 0 {
    } else if t.last() == '.' {
    } else {
        lemma_find_last_dot(t.drop_last(), k);
    }
}

/// The file name `path` addresses, as `spec_file_name` describes it.
#[verifier::loop_isolation(false)]
pub fn file_base_name(path: &str) -> (r: Option<String>)
    ensures
        match r {
            Option::Some(name) => spec_file_name(path@) == Option::Some(name@),
            Option::None => spec_file_name(path@) is None,
        },
{
    let len = path.unicode_len();
    let mut end = len;
    while end > 0 && path.get_char(end - 1) == '/'
        invariant
            end <= len,
            forall|j: int| end <= j < len ==> path@[j] == '/',
        decreases end,
    {
        end = end - 1;
    }
    proof {
        lemma_strip_trailing_slashes(path@, end as int);
    }
    if end == 0 {
        return None;
    }
    let mut st = end;
    while st > 0 && path.get_char(st - 1) != '/'
        invariant
            st <= end,
            forall|j: int| st <= j < end ==> path@[j] != '/',
        decreases st,
    {
        st = st - 1;
    }
    proof {
        let stripped = path@.subrange(0, end as int);
        lemma_last_segment(stripped, st as int);
        assert(stripped.subrange(st as int, end as int) =~= path@.subrange(st as int, end as int));
    }
    if st == end {
        proof {
            assert(path@.subrange(st as int, end as int) =~= Seq::<char>::empty());
        }
        return None;
    }
    let name = path.substring_char(st, end);
    proof {
        reveal_strlit(".");
        reveal_strlit("..");
    }
    if str_eq(name, ".") || str_eq(name, "..") {
        proof {
            assert(".."@ =~= seq!['.', '.']);
            assert("."@ =~= seq!['.']);
        }
        return None;
    }
    proof {
        assert(name@ != seq!['.'] && name@ != seq!['.', '.']) by {
            assert(".."@ =~= seq!['.', '.']);
            assert("."@ =~= seq!['.']);
        }
    }
    Some(name.to_owned())
}

/// The extension of the file `path` addresses, as `spec_extension`
/// describes it.
#[verifier::loop_isolation(false)]
pub fn extension_of(path: &str) -> (r: Option<String>)
    ensures
        match r {
            Option::Some(e) => spec_extension(path@) == Option::Some(e@),
            Option::None => spec_extension(path@) is None,
        },
{
    let name = match file_base_name(path) {
        Some(n) => n,
        None => {
            return None;
        },
    };
    let ghost nv = name@;
    let nlen = name.as_str().unicode_len();
    let mut d = nlen;
    while d > 0 && name.as_str().get_char(d - 1) != '.'
        invariant
            d <= nlen,
            nlen == nv.len(),
            nv == name@,
            forall|j: int| d <= j < nlen ==> nv[j] != '.',
        decreases d,
    {
        d = d - 1;
    }
    if d <= 1 {
        proof {
            if d == 0 {
                lemma_find_last_dot(nv, -1);
            } else {
                lemma_find_last_dot(nv, 0);
            }
        }
        return None;
    }
    proof {
        lemma_find_last_dot(nv, d - 1);
    }
    let e = name.as_str().substring_char(d, nlen);
    proof {
        assert(e@ =~= nv.skip(d as int));
    }
    Some(e.to_owned())
}

/// Whether the extension of `path` is one of the download-rule `extensions`:
/// such a request is served as a download rather than a listing.
#[verifier::loop_isolation(false)]
pub fn has_matching_extension(path: &str, extensions: &Vec<String>) -> (r: bool)
    ensures
        r == spec_has_matching_extension(path@, extensions.deep_view()),
{
    let e = match extension_of(path) {
        Some(e) => e,
        None => {
            return false;
        },
    };
    let mut i: usize = 0;
    while i < extensions.len()
        invariant
            i <= extensions.len(),
            forall|j: int| 0 <= j < i ==> extensions.deep_view()[j] != e@,
        decreases extensions.len() - i,
    {
        if str_eq(extensions[i].as_str(), e.as_str()) {
            proof {
                assert(extensions.deep_view()[i as int] == extensions[i as int]@);
            }
            return true;
        }
        proof {
            assert(extensions.deep_view()[i as int] == extensions[i as int]@);
        }
        i = i + 1;
    }
    false
}

} // verus!
