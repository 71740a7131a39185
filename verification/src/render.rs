//! Preparing listing rows and error-page fields for the markup layer.
//!
//! The embedding application renders the actual HTML; this module computes
//! everything that goes into it: the ordered rows of a listing page (the
//! parent-navigation row first), the formatted size column, and the fields of
//! an error page. Only the rendered modification time is unspecified, because
//! it depends on the machine's local time zone.

use vstd::prelude::*;
use vstd::string::StrSliceExecFns;
use vstd::string::StringExecFns;

use chrono::TimeZone;

use crate::error::HttpError;
use crate::storage::{sorted_by_name, StorageEntry};
use vstd::arithmetic::div_mod::{lemma_div_is_ordered_by_denominator, lemma_multiply_divide_lt};

use crate::strings::{digit_char, lex_leq, spec_digits, u64_to_string};

verus! {

/// The fields of the error page.
#[derive(Debug)]
pub struct ErrorTemplate {
    pub title: String,
    pub status_code: String,
    pub message: String,
    pub error_code: String,
    pub description: String,
    pub home_url: String,
}

/// One row of the listing page, every column already formatted.
#[derive(Debug)]
pub struct IndexDirEntry {
    pub name: String,
    pub url: String,
    pub modified: String,
    pub size: String,
}

/// Relies on chrono's TimeZone::timestamp_opt for the local time zone and
/// DateTime::format: renders a timestamp as local `year-month-day
/// hour:minute:second` text. The local time zone makes the text depend on the
/// machine, so nothing is promised of it.
#[verifier::external_body]
fn format_time(timestamp: i64) -> (r: String) {
    match chrono::Local.timestamp_opt(timestamp, 0) {
        chrono::LocalResult::Single(dt) => dt.format("%Y-%m-%d %H:%M:%S").to_string(),
        _ => String::new(),
    }
}

/// `n * 10 / d` rounded to the nearest integer, ties to even: the number of
/// tenths shown when `n / d` is printed with one decimal digit.
pub open spec fn round_tenths(n: int, d: int) -> int {
    let q = (n * 10) / d;
    let r = (n * 10) % d;
    if 2 * r > d {
        q + 1
    } else if 2 * r < d {
        q
    } else if q % 2 == 0 {
        q
    } else {
        q + 1
    }
}

/// The size column of one row: `-` when no size is known, the exact count
/// under a kibibyte, and otherwise one decimal digit of kibibytes or
/// mebibytes.
pub open spec fn spec_format_size(size: Option<usize>) -> Seq<char> {
    match size {
        Option::None => seq!['-'],
        Option::Some(s) => if s < 1024 {
            spec_digits(s as u64) + seq![' ', 'B']
        } else if s < 0x100000 {
            let t = round_tenths(s as int, 1024);
            spec_digits((t / 10) as u64) + seq!['.', digit_char((t % 10) as u64)] + seq![
                ' ',
                'K',
                'B',
            ]
        } else {
            let t = round_tenths(s as int, 0x100000);
            spec_digits((t / 10) as u64) + seq!['.', digit_char((t % 10) as u64)] + seq![
                ' ',
                'M',
                'B',
            ]
        },
    }
}

/// Renders a size in `d`-sized units with one decimal digit, rounding half
/// to even.
#[verifier::loop_isolation(false)]
fn format_scaled(s: usize, d: u64, suffix: &'static str) -> (r: String)
    requires
        1024 <= s,
        1024 <= d <= 0x100000,
    ensures
        r@ == spec_digits((round_tenths(s as int, d as int) / 10) as u64) + seq![
            '.',
            digit_char((round_tenths(s as int, d as int) % 10) as u64),
        ] + suffix@,
{
    let n10: u128 = (s as u128) * 10;
    let q128: u128 = n10 / (d as u128);
    let rem: u128 = n10 % (d as u128);
    let ghost qi = (s as int * 10) / (d as int);
    let ghost ri = (s as int * 10) % (d as int);
    proof {
        assert(n10 == s as int * 10);
        assert(q128 == qi && rem == ri);
        assert(qi < s) by {
            assert(n10 < 1024 * (s as int)) by (nonlinear_arith)
                requires
                    n10 == s as int * 10,
                    s >= 1024,
            ;
            lemma_multiply_divide_lt(n10 as int, 1024, s as int);
            lemma_div_is_ordered_by_denominator(n10 as int, 1024, d as int);
        }
    }
    let q: u64 = q128 as u64;
    let t: u64 = if 2 * rem > (d as u128) {
        q + 1
    } else if 2 * rem < (d as u128) {
        q
    } else if q % 2 == 0 {
        q
    } else {
        q + 1
    };
    proof {
        assert(t == round_tenths(s as int, d as int));
        assert(t % 10 < 10);
    }
    let mut out = u64_to_string(t / 10);
    proof {
        reveal_strlit(".");
        assert("."@ =~= seq!['.']);
    }
    out.append(".");
    out.append(crate::strings::digit_str(t % 10));
    out.append(suffix);
    proof {
        assert(out@ =~= spec_digits((round_tenths(s as int, d as int) / 10) as u64) + seq![
            '.',
            digit_char((round_tenths(s as int, d as int) % 10) as u64),
        ] + suffix@);
    }
    out
}

/// The size column of one row, as `spec_format_size` describes.
pub fn format_size(size: Option<usize>) -> (r: String)
    ensures
        r@ == spec_format_size(size),
{
    match size {
        None => {
            proof {
                reveal_strlit("-");
                assert("-"@ =~= seq!['-']);
            }
            "-".to_owned()
        },
        Some(s) => {
            if s < 1024 {
                proof {
                    reveal_strlit(" B");
                    assert(" B"@ =~= seq![' ', 'B']);
                }
                let mut out = u64_to_string(s as u64);
                out.append(" B");
                proof {
                    assert(out@ =~= spec_format_size(Some(s)));
                }
                out
            } else if s < 0x100000 {
                proof {
                    reveal_strlit(" KB");
                    assert(" KB"@ =~= seq![' ', 'K', 'B']);
                }
                let out = format_scaled(s, 1024, " KB");
                proof {
                    assert(out@ =~= spec_format_size(Some(s)));
                }
                out
            } else {
                proof {
                    reveal_strlit(" MB");
                    assert(" MB"@ =~= seq![' ', 'M', 'B']);
                }
                let out = format_scaled(s, 0x100000, " MB");
                proof {
                    assert(out@ =~= spec_format_size(Some(s)));
                }
                out
            }
        },
    }
}

impl IndexDirEntry {
    /// The synthetic first row that navigates to the parent directory.
    pub fn parent_entry() -> (r: IndexDirEntry)
        ensures
            r.name@ == "../"@,
            r.url@ == "../"@,
            r.modified@ == Seq::<char>::empty(),
            r.size@ == Seq::<char>::empty(),
    {
        IndexDirEntry {
            name: "../".to_owned(),
            url: "../".to_owned(),
            modified: String::new(),
            size: String::new(),
        }
    }
}

/// The rows of the listing page: the parent row first, then one row per
/// entry in the given order, its address prefixed with the mount path and
/// its size column formatted. The modification column is rendered in the
/// machine's local time zone, so nothing is stated of it.
#[verifier::loop_isolation(false)]
pub fn render_list(base_path: &str, src_entries: Vec<StorageEntry>) -> (r: Vec<IndexDirEntry>)
    ensures
        r@.len() == src_entries@.len() + 1,
        r@[0].name@ == "../"@,
        r@[0].url@ == "../"@,
        forall|i: int|
            1 <= i < r@.len() ==> {
                &&& (#[trigger] r@[i]).name@ == src_entries@[i - 1]@.name
                &&& r@[i].url@ == base_path@ + seq!['/'] + src_entries@[i - 1]@.url
                &&& r@[i].size@ == spec_format_size(src_entries@[i - 1]@.size)
            },
{
    let ghost src = src_entries@;
    let mut rows: Vec<IndexDirEntry> = Vec::new();
    rows.push(IndexDirEntry::parent_entry());
    let mut rest = src_entries;
    let ghost done: int = 0;
    proof {
        reveal_strlit("/");
        assert("/"@ =~= seq!['/']);
    }
    while rest.len() > 0
        invariant
            0 <= done <= src.len(),
            rest@ == src.skip(done),
            rows@.len() == done + 1,
            rows@[0].name@ == "../"@,
            rows@[0].url@ == "../"@,
            forall|i: int|
                1 <= i < rows@.len() ==> {
                    &&& (#[trigger] rows@[i]).name@ == src[i - 1]@.name
                    &&& rows@[i].url@ == base_path@ + seq!['/'] + src[i - 1]@.url
                    &&& rows@[i].size@ == spec_format_size(src[i - 1]@.size)
                },
        decreases rest.len(),
    {
        let ghost pre_rest = rest@;
        let e = rest.remove(0);
        proof {
            assert(pre_rest[0] == src[done]);
            assert(pre_rest.skip(1) =~= src.skip(done + 1));
        }
        let mut url = base_path.to_owned();
        url.append("/");
        url.append(e.url.as_str());
        let row = IndexDirEntry {
            name: e.name,
            url,
            modified: format_time(e.modified),
            size: format_size(e.size),
        };
        rows.push(row);
        proof {
            done = done + 1;
        }
    }
    rows
}

/// For any listing, the rendered rows keep the backends' order: when the
/// entries are sorted by name, every pair of data rows after the leading
/// parent row is too.
pub proof fn lemma_rendered_rows_sorted(
    entries: Seq<StorageEntry>,
    rows: Seq<IndexDirEntry>,
    base_path: Seq<char>,
)
    requires
        sorted_by_name(entries),
        rows.len() == entries.len() + 1,
        forall|i: int| 1 <= i < rows.len() ==> (#[trigger] rows[i]).name@ == entries[i - 1]@.name,
    ensures
        forall|i: int, j: int|
            1 <= i < j < rows.len() ==> lex_leq(rows[i].name@, rows[j].name@),
{
}

impl HttpError {
    /// The message the error carries.
    pub open spec fn spec_message(&self) -> Seq<char> {
        match self {
            HttpError::Forbidden { message, .. } => message@,
            HttpError::NotFound { message, .. } => message@,
            HttpError::BadRequest { message, .. } => message@,
            HttpError::InternalServerError { message, .. } => message@,
        }
    }

    /// The description the error carries.
    pub open spec fn spec_description(&self) -> Seq<char> {
        match self {
            HttpError::Forbidden { description, .. } => description@,
            HttpError::NotFound { description, .. } => description@,
            HttpError::BadRequest { description, .. } => description@,
            HttpError::InternalServerError { description, .. } => description@,
        }
    }

    /// The short code name of the error class.
    pub open spec fn spec_error_code(&self) -> Seq<char> {
        match self {
            HttpError::Forbidden { .. } => "FORBIDDEN"@,
            HttpError::NotFound { .. } => "NOT_FOUND"@,
            HttpError::BadRequest { .. } => "BAD_REQUEST"@,
            HttpError::InternalServerError { .. } => "INTERNAL_ERROR"@,
        }
    }

    /// The fields of the error page this error renders to: the status code
    /// and a title derived from it, the error's own message and description,
    /// its class's code name, and a link home.
    pub fn to_template(&self) -> (r: ErrorTemplate)
        ensures
            r.title@ == spec_digits(self.spec_status_code() as u64) + " - Error"@,
            r.status_code@ == spec_digits(self.spec_status_code() as u64),
            r.message@ == self.spec_message(),
            r.error_code@ == self.spec_error_code(),
            r.description@ == self.spec_description(),
            r.home_url@ == "/"@,
    {
        let code = self.status_code();
        let status_code = u64_to_string(code as u64);
        let mut title = status_code.clone();
        title.append(" - Error");
        let (message, description) = match self {
            HttpError::Forbidden { message, description } => (message.clone(), description.clone()),
            HttpError::NotFound { message, description } => (message.clone(), description.clone()),
            HttpError::BadRequest { message, description } => (
                message.clone(),
                description.clone(),
            ),
            HttpError::InternalServerError { message, description } => (
                message.clone(),
                description.clone(),
            ),
        };
        let error_code = match self {
            HttpError::Forbidden { .. } => "FORBIDDEN",
            HttpError::NotFound { .. } => "NOT_FOUND",
            HttpError::BadRequest { .. } => "BAD_REQUEST",
            HttpError::InternalServerError { .. } => "INTERNAL_ERROR",
        };
        ErrorTemplate {
            title,
            status_code,
            message,
            error_code: error_code.to_owned(),
            description,
            home_url: "/".to_owned(),
        }
    }
}

} // verus!
