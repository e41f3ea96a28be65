use nem_price_bot::data::parser::{parse_dispatch, parse_predispatch};

const DISPATCH: &str = "C,NEMP.WORLD,DISPATCHIS,AEMO,PUBLIC,2026/02/27,14:00:05\n\
I,DISPATCH,PRICE,5,SETTLEMENTDATE,RUNNO,REGIONID,DISPATCHINTERVAL,INTERVENTION,RRP,EEP\n\
D,DISPATCH,PRICE,5,\"2026/02/27 14:00:00\",1,NSW1,20260227169,0,85.12345,0\n\
D,DISPATCH,PRICE,5,\"2026/02/27 14:00:00\",1,QLD1,20260227169,0,-12.5,0\n\
D,DISPATCH,PRICE,5,\"2026/02/27 14:00:00\",1,SA1,20260227169,0,17500.01,0\n\
D,DISPATCH,PRICE,5,\"2026/02/27 14:00:00\",1,TAS1,20260227169,0,abc,0\n\
D,DISPATCH,REGIONSUM,5,\"2026/02/27 14:00:00\",1,VIC1,20260227169,0,55,0\n\
D,DISPATCH,PRICE,5,\"2026/02/27 14:00:00\",1, VIC1 ,20260227169,0, 17500 ,0\r\n\
C,END OF REPORT,9\n";

#[test]
fn dispatch_rows_are_read_by_the_header_columns() {
    let records = parse_dispatch(DISPATCH);
    assert_eq!(records.len(), 3);
    assert_eq!(records[0].region, "NSW1");
    assert_eq!(records[0].price, 85_123_450);
    assert_eq!(records[0].interval_time, "2026/02/27 14:00:00");
    assert_eq!(records[1].region, "QLD1");
    assert_eq!(records[1].price, -12_500_000);
    assert_eq!(records[2].region, "VIC1");
    assert_eq!(records[2].price, 17_500_000_000);
}

#[test]
fn data_rows_without_a_header_yield_nothing() {
    let csv = "D,DISPATCH,PRICE,5,\"2026/02/27 14:00:00\",1,NSW1,20260227169,0,85.0,0\n\
               D,DISPATCH,PRICE,5,\"2026/02/27 14:00:00\",1,QLD1,20260227169,0,90.0,0\n";
    assert!(parse_dispatch(csv).is_empty());
    assert!(parse_predispatch(csv).is_empty());
}

#[test]
fn empty_text_yields_nothing() {
    assert!(parse_dispatch("").is_empty());
    assert!(parse_predispatch("").is_empty());
}

#[test]
fn a_header_of_another_table_places_no_columns() {
    let csv = "I,DISPATCH,REGIONSUM,5,SETTLEMENTDATE,RUNNO,REGIONID,RRP\n\
               D,DISPATCH,PRICE,5,2026/02/27 14:00:00,1,NSW1,85\n";
    assert!(parse_dispatch(csv).is_empty());
}

#[test]
fn a_later_header_moves_the_columns() {
    let csv = "I,DISPATCH,PRICE,1,SETTLEMENTDATE,REGIONID,RRP\n\
               D,DISPATCH,PRICE,1,2026/02/27 14:00:00,NSW1,10\n\
               I,DISPATCH,PRICE,1,RRP,REGIONID,SETTLEMENTDATE\n\
               D,DISPATCH,PRICE,1,20,VIC1,2026/02/27 14:05:00\n";
    let records = parse_dispatch(csv);
    assert_eq!(records.len(), 2);
    assert_eq!(records[0].region, "NSW1");
    assert_eq!(records[0].price, 10_000_000);
    assert_eq!(records[1].region, "VIC1");
    assert_eq!(records[1].price, 20_000_000);
    assert_eq!(records[1].interval_time, "2026/02/27 14:05:00");
}

#[test]
fn a_column_beyond_the_row_rejects_the_row() {
    let csv = "I,DISPATCH,PRICE,1,SETTLEMENTDATE,REGIONID,X,Y,RRP\n\
               D,DISPATCH,PRICE,1,2026/02/27 14:00:00,NSW1,10\n";
    assert!(parse_dispatch(csv).is_empty());
}

#[test]
fn prices_at_the_bounds_are_kept_and_beyond_them_dropped() {
    let csv = "I,DISPATCH,PRICE,1,SETTLEMENTDATE,REGIONID,RRP\n\
               D,DISPATCH,PRICE,1,t1,A,-1000\n\
               D,DISPATCH,PRICE,1,t2,B,-1000.000001\n\
               D,DISPATCH,PRICE,1,t3,C,17500\n\
               D,DISPATCH,PRICE,1,t4,D,17500.000001\n\
               D,DISPATCH,PRICE,1,t4,D,17500.0000001\n\
               D,DISPATCH,PRICE,1,t4,D,-1000.00000000001\n\
               D,DISPATCH,PRICE,1,t4,D,+17500.000000000\n\
               D,DISPATCH,PRICE,1,t5,E,inf\n\
               D,DISPATCH,PRICE,1,t6,F,NaN\n\
               D,DISPATCH,PRICE,1,t7,G,\n";
    let records = parse_dispatch(csv);
    assert_eq!(records.len(), 3);
    assert_eq!(records[0].region, "A");
    assert_eq!(records[0].price, -1_000_000_000);
    assert_eq!(records[1].region, "C");
    assert_eq!(records[1].price, 17_500_000_000);
    assert_eq!(records[2].region, "D");
    assert_eq!(records[2].price, 17_500_000_000);
}

#[test]
fn digits_past_the_sixth_place_are_dropped_within_the_bounds() {
    let csv = "I,DISPATCH,PRICE,1,SETTLEMENTDATE,REGIONID,RRP\n\
               D,DISPATCH,PRICE,1,t1,A,85.1234567\n\
               D,DISPATCH,PRICE,1,t2,B,-0.0000009\n\
               D,DISPATCH,PRICE,1,t3,C,17499.9999999\n\
               D,DISPATCH,PRICE,1,t4,D,-999.9999999\n";
    let records = parse_dispatch(csv);
    assert_eq!(records.len(), 4);
    assert_eq!(records[0].price, 85_123_456);
    assert_eq!(records[1].price, 0);
    assert_eq!(records[2].price, 17_499_999_999);
    assert_eq!(records[3].price, -999_999_999);
}

#[test]
fn a_price_may_carry_an_exponent() {
    let csv = "I,DISPATCH,PRICE,1,SETTLEMENTDATE,REGIONID,RRP\n\
               D,DISPATCH,PRICE,1,t1,A,1e2\n\
               D,DISPATCH,PRICE,1,t2,B,1.5E+1\n\
               D,DISPATCH,PRICE,1,t3,C,-1e3\n\
               D,DISPATCH,PRICE,1,t4,D,175e2\n\
               D,DISPATCH,PRICE,1,t5,E,175000000001e-7\n\
               D,DISPATCH,PRICE,1,t6,F,1e5\n\
               D,DISPATCH,PRICE,1,t7,G,-1000000001e-6\n\
               D,DISPATCH,PRICE,1,t8,H,5e-7\n";
    let records = parse_dispatch(csv);
    let got: Vec<(&str, i64)> = records.iter().map(|r| (r.region.as_str(), r.price)).collect();
    assert_eq!(
        got,
        vec![
            ("A", 100_000_000),
            ("B", 15_000_000),
            ("C", -1_000_000_000),
            ("D", 17_500_000_000),
            ("H", 0),
        ]
    );
}

#[test]
fn a_name_of_a_special_value_is_no_price() {
    let csv = "I,DISPATCH,PRICE,1,SETTLEMENTDATE,REGIONID,RRP\n\
               D,DISPATCH,PRICE,1,t3,C,inf\n\
               D,DISPATCH,PRICE,1,t4,D,-infinity\n\
               D,DISPATCH,PRICE,1,t5,E,nan\n\
               D,DISPATCH,PRICE,1,t6,F,100\n";
    let records = parse_dispatch(csv);
    assert_eq!(records.len(), 1);
    assert_eq!(records[0].region, "F");
    assert_eq!(records[0].price, 100_000_000);
}

#[test]
fn a_header_row_speaks_for_its_own_subtype_only() {
    let csv = "I,PREDISPATCH,PRICE,REGIONID,RRP,DATETIME\n\
               D,PREDISPATCH,REGION_PRICES,NSW1,100,2026/02/27 14:30:00\n";
    assert!(parse_predispatch(csv).is_empty());
    let other = "I,PREDISPATCH,REGION_PRICES,REGIONID,RRP,DATETIME\n\
                 D,PREDISPATCH,PRICE,NSW1,100,2026/02/27 14:30:00\n";
    assert!(parse_predispatch(other).is_empty());
}

#[test]
fn each_subtype_keeps_its_own_columns() {
    let csv = "I,PREDISPATCH,PRICE,REGIONID,RRP,DATETIME\n\
               I,PREDISPATCH,REGION_PRICES,DATETIME,RRP,REGIONID\n\
               D,PREDISPATCH,PRICE,NSW1,100,2026/02/27 14:30:00\n\
               D,PREDISPATCH,REGION_PRICES,2026/02/27 15:00:00,200,VIC1\n\
               I,PREDISPATCH,PRICE,RRP,REGIONID,DATETIME\n\
               D,PREDISPATCH,REGION_PRICES,2026/02/27 15:30:00,300,QLD1\n\
               D,PREDISPATCH,PRICE,400,SA1,2026/02/27 16:00:00\n";
    let records = parse_predispatch(csv);
    assert_eq!(records.len(), 4);
    assert_eq!(records[0].region, "NSW1");
    assert_eq!(records[0].price, 100_000_000);
    assert_eq!(records[0].forecast_time, "2026/02/27 14:30:00");
    assert_eq!(records[1].region, "VIC1");
    assert_eq!(records[1].price, 200_000_000);
    assert_eq!(records[1].forecast_time, "2026/02/27 15:00:00");
    assert_eq!(records[2].region, "QLD1");
    assert_eq!(records[2].price, 300_000_000);
    assert_eq!(records[3].region, "SA1");
    assert_eq!(records[3].price, 400_000_000);
    assert_eq!(records[3].forecast_time, "2026/02/27 16:00:00");
}

#[test]
fn predispatch_prefers_datetime_over_periodid() {
    let csv = "I,PREDISPATCH,REGION_PRICES,1,PERIODID,REGIONID,RRP,DATETIME\n\
               D,PREDISPATCH,REGION_PRICES,1,7,NSW1,301.5,\"2026/02/27 14:30:00\"\n\
               I,PREDISPATCH,PRICE,1,PERIODID,REGIONID,RRP\n\
               D,PREDISPATCH,PRICE,1,8,QLD1,42\n\
               D,DISPATCH,PRICE,1,8,QLD1,42\n";
    let records = parse_predispatch(csv);
    assert_eq!(records.len(), 2);
    assert_eq!(records[0].region, "NSW1");
    assert_eq!(records[0].forecast_time, "2026/02/27 14:30:00");
    assert_eq!(records[0].price, 301_500_000);
    assert_eq!(records[1].region, "QLD1");
    assert_eq!(records[1].forecast_time, "8");
    assert_eq!(records[1].price, 42_000_000);
}

#[test]
fn a_record_written_back_as_a_row_reads_as_itself() {
    let csv = "I,DISPATCH,PRICE,1,SETTLEMENTDATE,REGIONID,RRP\n\
               D,DISPATCH,PRICE,1, \"2026/02/27 14:00:00\" ,\"NSW1\",  85.5 \n";
    let first = parse_dispatch(csv);
    assert_eq!(first.len(), 1);
    let row = format!(
        "I,DISPATCH,PRICE,1,SETTLEMENTDATE,REGIONID,RRP\nD,DISPATCH,PRICE,1,{},{},{}.{:06}\n",
        first[0].interval_time,
        first[0].region,
        first[0].price / 1_000_000,
        first[0].price % 1_000_000
    );
    let second = parse_dispatch(&row);
    assert_eq!(second.len(), 1);
    assert_eq!(second[0].region, first[0].region);
    assert_eq!(second[0].interval_time, first[0].interval_time);
    assert_eq!(second[0].price, first[0].price);
}
