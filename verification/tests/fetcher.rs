use nem_price_bot::data::fetcher::{
    dispatch_pattern, dispatch_url, fetch_retry_step, latest_archive_url, latest_url,
    predispatch_pattern, predispatch_url, read_dispatch_archive, read_predispatch_archive,
    FetchError, RetryStep,
};
use std::io::Write;

const LISTING: &str = "<html><body><pre>\
<A HREF=\"/Reports/Current/DispatchIS_Reports/\">[To Parent Directory]</A><br>\
<A HREF=\"/Reports/Current/DispatchIS_Reports/PUBLIC_DISPATCHIS_202602271355_0000000501.zip\">a</A><br>\
<A HREF=\"/Reports/Current/DispatchIS_Reports/PUBLIC_DISPATCHIS_202602271405_0000000503.zip\">c</A><br>\
<a href=\"/Reports/Current/DispatchIS_Reports/PUBLIC_DISPATCHIS_202602271400_0000000502.ZIP\">b</a><br>\
<A HREF=\"/Reports/Current/DispatchIS_Reports/PUBLIC_OTHER_202602271500.zip\">d</A><br>\
<A HREF=\"/Reports/Current/DispatchIS_Reports/PUBLIC_DISPATCHIS_202602271500.txt\">e</A><br>\
</pre></body></html>";

fn archive(entries: &[(&str, &str)]) -> Vec<u8> {
    let mut w = zip::ZipWriter::new(std::io::Cursor::new(Vec::new()));
    for (name, text) in entries {
        w.start_file(*name, zip::write::SimpleFileOptions::default()).unwrap();
        w.write_all(text.as_bytes()).unwrap();
    }
    w.finish().unwrap().into_inner()
}

#[test]
fn the_latest_archive_is_the_greatest_name() {
    assert_eq!(
        latest_archive_url(LISTING, dispatch_url(), dispatch_pattern()),
        Ok("https://nemweb.com.au/Reports/Current/DispatchIS_Reports/\
            PUBLIC_DISPATCHIS_202602271405_0000000503.zip"
            .to_string())
    );
}

#[test]
fn a_listing_without_archives_is_an_error() {
    assert_eq!(
        latest_archive_url(LISTING, predispatch_url(), predispatch_pattern()),
        Err(FetchError::NoFiles)
    );
    assert_eq!(latest_archive_url("", dispatch_url(), dispatch_pattern()), Err(FetchError::NoFiles));
}

#[test]
fn a_pattern_that_is_no_expression_is_an_error() {
    assert_eq!(latest_archive_url(LISTING, dispatch_url(), "(("), Err(FetchError::BadPattern));
}

#[test]
fn relative_targets_continue_the_listing_address() {
    let links = vec!["PUBLIC_A_1.zip".to_string(), "PUBLIC_A_3.zip".to_string(), "PUBLIC_A_2.zip".to_string()];
    assert_eq!(
        latest_url(&links, "https://example.org/dir/"),
        Some("https://example.org/dir/PUBLIC_A_3.zip".to_string())
    );
    let rooted = vec!["/x/PUBLIC_A_1.zip".to_string()];
    assert_eq!(
        latest_url(&rooted, "https://example.org/dir/"),
        Some("https://nemweb.com.au/x/PUBLIC_A_1.zip".to_string())
    );
    assert_eq!(latest_url(&Vec::new(), "https://example.org/dir/"), None);
}

#[test]
fn the_first_entry_of_an_archive_is_read() {
    let csv = "I,DISPATCH,PRICE,1,SETTLEMENTDATE,REGIONID,RRP\n\
               D,DISPATCH,PRICE,1,\"2026/02/27 14:00:00\",NSW1,85.5\n";
    let bytes = archive(&[("first.csv", csv), ("second.csv", "I,DISPATCH,PRICE\n")]);
    let records = read_dispatch_archive(&bytes).unwrap();
    assert_eq!(records.len(), 1);
    assert_eq!(records[0].region, "NSW1");
    assert_eq!(records[0].price, 85_500_000);
    assert_eq!(records[0].interval_time, "2026/02/27 14:00:00");
}

#[test]
fn a_predispatch_archive_gives_forecasts() {
    let csv = "I,PREDISPATCH,REGION_PRICES,1,DATETIME,REGIONID,RRP\n\
               D,PREDISPATCH,REGION_PRICES,1,\"2026/02/27 14:30:00\",QLD1,301\n";
    let bytes = archive(&[("p.csv", csv)]);
    let records = read_predispatch_archive(&bytes).unwrap();
    assert_eq!(records.len(), 1);
    assert_eq!(records[0].region, "QLD1");
    assert_eq!(records[0].forecast_time, "2026/02/27 14:30:00");
    assert_eq!(records[0].price, 301_000_000);
}

#[test]
fn bytes_that_are_no_archive_are_an_error() {
    assert!(matches!(read_dispatch_archive(b"not a zip"), Err(FetchError::BadArchive)));
    assert!(matches!(read_predispatch_archive(&[]), Err(FetchError::BadArchive)));
    let empty = archive(&[]);
    assert!(matches!(read_dispatch_archive(&empty), Err(FetchError::BadArchive)));
}

#[test]
fn a_fetch_is_tried_three_times() {
    assert_eq!(fetch_retry_step(0, true), RetryStep::Done);
    assert_eq!(fetch_retry_step(0, false), RetryStep::Retry { wait_secs: 30 });
    assert_eq!(fetch_retry_step(1, false), RetryStep::Retry { wait_secs: 30 });
    assert_eq!(fetch_retry_step(2, false), RetryStep::GiveUp);
    assert_eq!(fetch_retry_step(u32::MAX, false), RetryStep::GiveUp);
    assert_eq!(fetch_retry_step(2, true), RetryStep::Done);
}
