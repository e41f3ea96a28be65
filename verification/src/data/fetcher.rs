//! From the publisher's directory listing to the records of its latest archive.
//!
//! The two downloads of a fetch are the caller's: it gets the listing, asks
//! `latest_archive_url` where the latest archive lies, gets that archive, and
//! hands its bytes to `read_dispatch_archive` or `read_predispatch_archive`.

use vstd::prelude::*;
use vstd::string::*;
use crate::data::parser::{
    dispatch_records,
    forecast_record_views,
    parse_dispatch,
    parse_predispatch,
    predispatch_records,
    price_record_views,
    ForecastRecord,
    PriceRecord,
};
use crate::text::{has_prefix, lemma_text_lt_transitive, starts_with, text_less, text_lt};

verus! {

/// A fetch is tried this many times.
pub const FETCH_ATTEMPTS: u32 = 3;

/// The wait between two tries of a fetch, in seconds.
pub const RETRY_WAIT_SECS: u64 = 30;

/// No request may take longer than this, in seconds.
pub const HTTP_TIMEOUT_SECS: u64 = 30;

/// The address of the listing of the dispatch archives.
pub open spec fn dispatch_url_text() -> Seq<char> {
    "https://nemweb.com.au/Reports/Current/DispatchIS_Reports/"@
}

/// The address of the listing of the pre-dispatch archives.
pub open spec fn predispatch_url_text() -> Seq<char> {
    "https://nemweb.com.au/Reports/Current/PredispatchIS_Reports/"@
}

/// The listing of the dispatch archives.
pub fn dispatch_url() -> (r: &'static str)
    ensures
        r@ == dispatch_url_text(),
{
    "https://nemweb.com.au/Reports/Current/DispatchIS_Reports/"
}

/// The listing of the pre-dispatch archives.
pub fn predispatch_url() -> (r: &'static str)
    ensures
        r@ == predispatch_url_text(),
{
    "https://nemweb.com.au/Reports/Current/PredispatchIS_Reports/"
}

/// What the names of the dispatch archives hold.
pub fn dispatch_pattern() -> (r: &'static str)
    ensures
        r@ == "PUBLIC_DISPATCHIS_"@,
{
    "PUBLIC_DISPATCHIS_"
}

/// What the names of the pre-dispatch archives hold.
pub fn predispatch_pattern() -> (r: &'static str)
    ensures
        r@ == "PUBLIC_PREDISPATCHIS_"@,
{
    "PUBLIC_PREDISPATCHIS_"
}

/// Why a fetch brought no records.
#[derive(Clone, Copy, Debug, PartialEq, Eq, Structural)]
pub enum FetchError {
    /// The listing could not be searched for this pattern.
    BadPattern,
    /// The listing names no archive.
    NoFiles,
    /// The archive could not be opened or its first entry is no text.
    BadArchive,
}

/// The error of the regex crate, carried through as it is.
#[verifier::external_type_specification]
#[verifier::external_body]
pub struct ExRegexError(regex::Error);

/// The error of the zip crate, carried through as it is.
#[verifier::external_type_specification]
#[verifier::external_body]
pub struct ExZipError(zip::result::ZipError);

/// The texts of a list, as values.
pub open spec fn texts(list: Seq<String>) -> Seq<Seq<char>> {
    Seq::new(list.len(), |i: int| list[i]@)
}

/// The search expression for the anchors of a listing whose target holds
/// `pattern` and ends in `.zip`, whatever the case of the letters; its
/// first group is the target.
pub open spec fn href_expression(pattern: Seq<char>) -> Seq<char> {
    "(?i)href=\"([^\"]*"@ + pattern + "[^\"]*\\.zip)\""@
}

/// The search expression for the anchors of a listing.
pub fn link_expression(pattern: &str) -> (r: String)
    ensures
        r@ == href_expression(pattern@),
{
    let mut r = String::from_str("(?i)href=\"([^\"]*");
    r.append(pattern);
    r.append("[^\"]*\\.zip)\"");
    r
}

/// What the first group of a search expression holds in each of its matches
/// in a text in which the group takes part, match by match from the left;
/// `None` where the expression is none that can be searched for.
pub uninterp spec fn first_groups(expression: Seq<char>, text: Seq<char>) -> Option<
    Seq<Seq<char>>,
>;

/// `Regex::new` and `Regex::captures_iter` of the regex crate: the first
/// group of every match of the expression in the text, in order, where the
/// match has one. The result is `first_groups` of the arguments, and an
/// error exactly where that is `None`.
#[verifier::external_body]
fn capture_first_groups(expression: &str, text: &str) -> (r: Result<Vec<String>, regex::Error>)
    ensures
        match r {
            Ok(groups) => first_groups(expression@, text@) == Some(texts(groups@)),
            Err(_) => first_groups(expression@, text@) is None,
        },
{
    let re = regex::Regex::new(expression)?;
    Ok(re.captures_iter(text).filter_map(|c| c.get(1).map(|m| m.as_str().to_string())).collect())
}

/// The targets of the anchors of `html` that hold `pattern` and end in
/// `.zip`, in the order of the listing.
pub open spec fn href_captures(html: Seq<char>, pattern: Seq<char>) -> Option<Seq<Seq<char>>> {
    first_groups(href_expression(pattern), html)
}

/// The text of entry `index` of a ZIP archive; `None` where the bytes are no
/// archive, where it has no such entry, or where the entry is no UTF-8 text.
pub uninterp spec fn archive_entry(bytes: Seq<u8>, index: int) -> Option<Seq<char>>;

/// `ZipArchive::new` and `ZipArchive::by_index` of the zip crate, on the
/// bytes in memory, and the entry read to its end as text. The result is
/// `archive_entry` of the arguments, and an error exactly where that is
/// `None`.
#[verifier::external_body]
fn entry_text(bytes: &[u8], index: usize) -> (r: Result<String, zip::result::ZipError>)
    ensures
        match r {
            Ok(text) => archive_entry(bytes@, index as int) == Some(text@),
            Err(_) => archive_entry(bytes@, index as int) is None,
        },
{
    let mut archive = zip::ZipArchive::new(std::io::Cursor::new(bytes))?;
    let mut file = archive.by_index(index)?;
    let mut text = String::new();
    std::io::Read::read_to_string(&mut file, &mut text)?;
    Ok(text)
}

/// The text of the first entry of a ZIP archive.
pub open spec fn archive_first_entry(bytes: Seq<u8>) -> Option<Seq<char>> {
    archive_entry(bytes, 0)
}

/// The place of the greatest of `links` in the order of texts, the first of
/// them where several are equal; archive names carry their time, so the
/// greatest is the latest.
pub open spec fn greatest(links: Seq<Seq<char>>) -> Option<int>
    decreases links.len(),
{
    if links.len() == 0 {
        None
    } else {
        let n = links.len() - 1;
        match greatest(links.drop_last()) {
            None => Some(n),
            Some(b) => if text_lt(links[b], links[n]) {
                Some(n)
            } else {
                Some(b)
            },
        }
    }
}

/// The address that an anchor's target stands for: a target that begins
/// with a slash is a path on the publisher's host, any other continues the
/// address of the listing.
pub open spec fn resolved_url(base_url: Seq<char>, href: Seq<char>) -> Seq<char> {
    if has_prefix(href, "/"@) {
        "https://nemweb.com.au"@ + href
    } else {
        base_url + href
    }
}

/// The address of the latest of `links`, and nothing where there is no link.
pub open spec fn latest_of(links: Seq<Seq<char>>, base_url: Seq<char>) -> Option<Seq<char>> {
    match greatest(links) {
        Some(i) => Some(resolved_url(base_url, links[i])),
        None => None,
    }
}

/// The address of the latest archive among the targets found in a listing.
pub fn latest_url(links: &Vec<String>, base_url: &str) -> (r: Option<String>)
    ensures
        match r {
            Some(url) => latest_of(texts(links@), base_url@) == Some(url@),
            None => latest_of(texts(links@), base_url@) is None,
        },
{
    let ghost all = texts(links@);
    let mut best: Option<usize> = None;
    let mut i: usize = 0;
    assert(all.take(0) =~= Seq::<Seq<char>>::empty());
    while i < links.len()
        invariant
            i <= links@.len(),
            all == texts(links@),
            match best {
                Some(b) => greatest(all.take(i as int)) == Some(b as int) && b < i,
                None => greatest(all.take(i as int)) is None,
            },
        decreases links@.len() - i,
    {
        proof {
            let t = all.take(i + 1);
            assert(t.drop_last() =~= all.take(i as int));
            assert(forall|k: int| 0 <= k <= i ==> t[k] == links@[k]@);
        }
        match best {
            None => {
                best = Some(i);
            },
            Some(b) => {
                if text_less(links[b].as_str(), links[i].as_str()) {
                    best = Some(i);
                }
            },
        }
        i += 1;
    }
    assert(all.take(i as int) =~= all);
    match best {
        None => None,
        Some(b) => {
            let href = links[b].as_str();
            let mut url = if starts_with(href, "/") {
                String::from_str("https://nemweb.com.au")
            } else {
                String::from_str(base_url)
            };
            url.append(href);
            Some(url)
        },
    }
}

/// What `latest_archive_url` makes of the targets found in a listing.
pub open spec fn archive_url_of(found: Option<Seq<Seq<char>>>, base_url: Seq<char>) -> Result<
    Seq<char>,
    FetchError,
> {
    match found {
        None => Err(FetchError::BadPattern),
        Some(links) => match latest_of(links, base_url) {
            Some(url) => Ok(url),
            None => Err(FetchError::NoFiles),
        },
    }
}

/// Where the latest archive of a listing lies: the greatest of the anchor
/// targets that hold `pattern` and end in `.zip`, as an address.
pub fn latest_archive_url(html: &str, base_url: &str, pattern: &str) -> (r: Result<
    String,
    FetchError,
>)
    ensures
        match r {
            Ok(url) => archive_url_of(href_captures(html@, pattern@), base_url@) == Ok::<
                Seq<char>,
                FetchError,
            >(url@),
            Err(e) => archive_url_of(href_captures(html@, pattern@), base_url@) == Err::<
                Seq<char>,
                FetchError,
            >(e),
        },
{
    let expression = link_expression(pattern);
    match capture_first_groups(expression.as_str(), html) {
        Err(_) => Err(FetchError::BadPattern),
        Ok(links) => match latest_url(&links, base_url) {
            Some(url) => Ok(url),
            None => Err(FetchError::NoFiles),
        },
    }
}

/// The price records of a dispatch archive: those of the text of its first
/// entry.
pub fn read_dispatch_archive(bytes: &[u8]) -> (r: Result<Vec<PriceRecord>, FetchError>)
    ensures
        match r {
            Ok(records) => archive_first_entry(bytes@) matches Some(text) && price_record_views(
                records@,
            ) == dispatch_records(text),
            Err(e) => archive_first_entry(bytes@) is None && e == FetchError::BadArchive,
        },
{
    match entry_text(bytes, 0) {
        Ok(text) => Ok(parse_dispatch(text.as_str())),
        Err(_) => Err(FetchError::BadArchive),
    }
}

/// The forecast records of a pre-dispatch archive: those of the text of its
/// first entry.
pub fn read_predispatch_archive(bytes: &[u8]) -> (r: Result<Vec<ForecastRecord>, FetchError>)
    ensures
        match r {
            Ok(records) => archive_first_entry(bytes@) matches Some(text)
                && forecast_record_views(records@) == predispatch_records(text),
            Err(e) => archive_first_entry(bytes@) is None && e == FetchError::BadArchive,
        },
{
    match entry_text(bytes, 0) {
        Ok(text) => Ok(parse_predispatch(text.as_str())),
        Err(_) => Err(FetchError::BadArchive),
    }
}

/// What a fetch does after a try.
#[derive(Clone, Copy, Debug, PartialEq, Eq, Structural)]
pub enum RetryStep {
    /// The try brought the records.
    Done,
    /// Wait this many seconds, then try again.
    Retry { wait_secs: u64 },
    /// The fetch has failed.
    GiveUp,
}

/// What follows the try number `attempt` (the first is 0) of a fetch: after
/// a failure it is tried again half a minute later, until three tries are
/// used up.
pub fn fetch_retry_step(attempt: u32, succeeded: bool) -> (r: RetryStep)
    ensures
        r == if succeeded {
            RetryStep::Done
        } else if attempt + 1 < FETCH_ATTEMPTS {
            RetryStep::Retry { wait_secs: RETRY_WAIT_SECS }
        } else {
            RetryStep::GiveUp
        },
{
    if succeeded {
        RetryStep::Done
    } else if attempt < FETCH_ATTEMPTS - 1 {
        RetryStep::Retry { wait_secs: RETRY_WAIT_SECS }
    } else {
        RetryStep::GiveUp
    }
}

/// No link comes after the greatest in the order of texts.
pub proof fn lemma_greatest_is_greatest(links: Seq<Seq<char>>)
    ensures
        match greatest(links) {
            None => links.len() == 0,
            Some(b) => 0 <= b < links.len() && forall|i: int|
                0 <= i < links.len() ==> !text_lt(links[b], #[trigger] links[i]),
        },
    decreases links.len(),
{
    if links.len() > 0 {
        let rest = links.drop_last();
        let n = links.len() - 1;
        lemma_greatest_is_greatest(rest);
        assert(forall|i: int| 0 <= i < n ==> rest[i] == links[i]);
        crate::text::lemma_text_lt_irreflexive(links[n]);
        match greatest(rest) {
            None => {},
            Some(b) => {
                if text_lt(links[b], links[n]) {
                    assert forall|i: int| 0 <= i < links.len() implies !text_lt(
                        links[n],
                        #[trigger] links[i],
                    ) by {
                        if i < n && text_lt(links[n], links[i]) {
                            lemma_text_lt_transitive(links[b], links[n], links[i]);
                        }
                    }
                }
            },
        }
    }
}

} // verus!
