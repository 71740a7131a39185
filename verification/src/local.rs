//! The local filesystem provider.
//!
//! It serves a canonical root directory. The embedding application resolves
//! and reads directories (that is I/O) and reports what it saw as a
//! `DirScan`; this module turns that report into the listing the router
//! serves. Resolution failures are deliberately folded into "absent" rather
//! than "error", so a missing or unreadable path becomes a 404-class outcome;
//! only a directory that resolves but cannot be read is an internal error.

use vstd::prelude::*;
use vstd::string::StrSliceExecFns;
use vstd::string::StringExecFns;

use crate::storage::{
    sort_entries_by_name, sorted_by_name, views_of, DirScan, EntryV, RawDirEntry, StorageEntry,
    StorageError,
};
use crate::strings::{is_prefix_of, starts_with_str};

verus! {

/// The filesystem-backed provider: the canonical root it serves and the
/// request-path prefix it answers.
#[derive(Debug)]
pub struct LocalStorageProvider {
    pub root_path: String,
    pub req_path_prefix: String,
}

/// The row a successfully read directory child becomes: the child's name,
/// its address below the listing, its modification time, and its byte count
/// (only regular files have one).
pub open spec fn local_row(path_in_provider: Seq<char>, raw: RawDirEntry) -> EntryV {
    EntryV {
        name: raw.name@,
        url: path_in_provider + seq!['/'] + raw.name@,
        modified: raw.meta->Some_0.modified,
        size: if raw.meta->Some_0.is_file {
            Some(raw.meta->Some_0.len)
        } else {
            None
        },
    }
}

/// The rows of a scanned directory, in scan order: one per child whose
/// metadata could be read; the others are skipped (partial success).
pub open spec fn local_rows(path_in_provider: Seq<char>, raws: Seq<RawDirEntry>) -> Seq<EntryV>
    decreases raws.len(),
{
    if raws.len() == 0 {
        Seq::empty()
    } else if raws[0].meta is Some {
        seq![local_row(path_in_provider, raws[0])] + local_rows(path_in_provider, raws.skip(1))
    } else {
        local_rows(path_in_provider, raws.skip(1))
    }
}

impl LocalStorageProvider {
    /// A provider over an already canonicalized root. The embedding
    /// application canonicalizes the configured root first and treats a root
    /// that cannot be canonicalized as a fatal startup error.
    pub fn new(root_path: String, req_path_prefix: String) -> (p: Self)
        ensures
            p.root_path@ == root_path@,
            p.req_path_prefix@ == req_path_prefix@,
    {
        LocalStorageProvider { root_path, req_path_prefix }
    }

    /// The location of a provider-relative path below the root: the root,
    /// a separator, and the relative path. (The embedding application
    /// canonicalizes the result before touching the filesystem.)
    pub fn abs_path(&self, path_in_provider: &str) -> (r: String)
        ensures
            r@ == self.root_path@ + seq!['/'] + path_in_provider@,
    {
        proof {
            reveal_strlit("/");
            assert("/"@ =~= seq!['/']);
        }
        let mut s = self.root_path.clone();
        s.append("/");
        s.append(path_in_provider);
        s
    }

    /// The request path with this provider's prefix removed; nothing if the
    /// prefix does not match, meaning the request is not for this provider.
    pub fn path_in_provider(&self, full_path: &str) -> (r: Option<String>)
        ensures
            match r {
                Some(p) => is_prefix_of(self.req_path_prefix@, full_path@) && p@
                    == full_path@.skip(self.req_path_prefix@.len() as int),
                None => !is_prefix_of(self.req_path_prefix@, full_path@),
            },
    {
        if starts_with_str(full_path, self.req_path_prefix.as_str()) {
            let l = full_path.unicode_len();
            let pl = self.req_path_prefix.as_str().unicode_len();
            let rest = full_path.substring_char(pl, l);
            proof {
                assert(rest@ =~= full_path@.skip(self.req_path_prefix@.len() as int));
            }
            Some(rest.to_owned())
        } else {
            None
        }
    }

    /// The local provider never redirects: it has no external URL to offer.
    pub fn get_download_url(&self, _full_path: &str) -> (r: Option<String>)
        ensures
            r is None,
    {
        None
    }

    /// The local provider streams files itself.
    pub fn is_local(&self) -> (r: bool)
        ensures
            r == true,
    {
        true
    }

    /// One listing row from one scanned child, or nothing if its metadata
    /// could not be read (that child is skipped, the listing still succeeds).
    pub fn process_entry(&self, path_in_provider: &str, raw: RawDirEntry) -> (r: Option<
        StorageEntry,
    >)
        ensures
            match r {
                Some(e) => raw.meta is Some && e@ == local_row(path_in_provider@, raw),
                None => raw.meta is None,
            },
    {
        let RawDirEntry { name, meta } = raw;
        let m = match meta {
            Some(m) => m,
            None => {
                return None;
            },
        };
        proof {
            reveal_strlit("/");
            assert("/"@ =~= seq!['/']);
        }
        let mut url = path_in_provider.to_owned();
        url.append("/");
        url.append(name.as_str());
        let size = if m.is_file {
            Some(m.len)
        } else {
            None
        };
        Some(StorageEntry { name, url, modified: m.modified, size })
    }

    /// The listing of a scanned directory: one row per readable child,
    /// sorted by name. A path that did not resolve or is not a directory is
    /// absent (`Ok(None)`); a directory that could not be read is an error.
    #[verifier::loop_isolation(false)]
    pub fn list_directory(&self, path_in_provider: &str, scan: DirScan) -> (r: Result<
        Option<Vec<StorageEntry>>,
        StorageError,
    >)
        ensures
            match scan {
                DirScan::ResolveFailed => r == Result::<
                    Option<Vec<StorageEntry>>,
                    StorageError,
                >::Ok(Option::None),
                DirScan::NotDirectory => r == Result::<
                    Option<Vec<StorageEntry>>,
                    StorageError,
                >::Ok(Option::None),
                DirScan::OpenFailed => r == Result::<
                    Option<Vec<StorageEntry>>,
                    StorageError,
                >::Err(StorageError::Internal),
                DirScan::Entries(raws) => match r {
                    Result::Ok(Option::Some(v)) => sorted_by_name(v@) && views_of(
                        v@,
                    ).to_multiset() == local_rows(path_in_provider@, raws@).to_multiset(),
                    _ => false,
                },
            },
    {
        let raws = match scan {
            DirScan::ResolveFailed => {
                return Ok(None);
            },
            DirScan::NotDirectory => {
                return Ok(None);
            },
            DirScan::OpenFailed => {
                return Err(StorageError::Internal);
            },
            DirScan::Entries(raws) => raws,
        };
        let ghost all = raws@;
        let mut rest = raws;
        let mut entries: Vec<StorageEntry> = Vec::new();
        proof {
            assert(rest@ =~= all.skip(0));
            assert(views_of(entries@) + local_rows(path_in_provider@, all.skip(0)) =~= local_rows(
                path_in_provider@,
                all,
            ));
        }
        let ghost done: int = 0;
        while rest.len() > 0
            invariant
                0 <= done <= all.len(),
                rest@ == all.skip(done),
                views_of(entries@) + local_rows(path_in_provider@, all.skip(done)) == local_rows(
                    path_in_provider@,
                    all,
                ),
            decreases rest.len(),
        {
            let ghost pre_entries = entries@;
            let ghost pre_rest = rest@;
            let raw = rest.remove(0);
            match self.process_entry(path_in_provider, raw) {
                Some(e) => {
                    entries.push(e);
                    proof {
                        assert(views_of(entries@) =~= views_of(pre_entries).push(e@));
                    }
                },
                None => {},
            }
            proof {
                assert(pre_rest.skip(1) =~= all.skip(done + 1));
                assert(views_of(entries@) + local_rows(path_in_provider@, all.skip(done + 1))
                    =~= local_rows(path_in_provider@, all));
            }
            proof {
                done = done + 1;
            }
        }
        proof {
            assert(local_rows(path_in_provider@, all.skip(done)) =~= Seq::<EntryV>::empty());
            assert(views_of(entries@) =~= local_rows(path_in_provider@, all));
        }
        let sorted = sort_entries_by_name(entries);
        Ok(Some(sorted))
    }
}

} // verus!
