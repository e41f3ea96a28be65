//! The publisher's CSV files, read into price and forecast records.

use vstd::prelude::*;
use vstd::slice::slice_subrange;
use vstd::string::*;
use crate::numeral::{decimal_micros, numeral_within, read_numeral};
use crate::price::{decimal_text, lemma_decimal_text_reads_back};
use crate::text::{chars_of, same_text, text_of};

verus! {

/// The settled price of one region for one interval of five minutes.
#[derive(Debug)]
pub struct PriceRecord {
    pub region: String,
    /// Millionths of a dollar per megawatt hour.
    pub price: i64,
    pub interval_time: String,
}

/// A price record as a value.
pub ghost struct PriceRecordView {
    pub region: Seq<char>,
    pub price: int,
    pub interval_time: Seq<char>,
}

impl View for PriceRecord {
    type V = PriceRecordView;

    open spec fn view(&self) -> PriceRecordView {
        PriceRecordView {
            region: self.region@,
            price: self.price as int,
            interval_time: self.interval_time@,
        }
    }
}

/// The forecast price of one region for one time ahead.
#[derive(Debug)]
pub struct ForecastRecord {
    pub region: String,
    pub forecast_time: String,
    /// Millionths of a dollar per megawatt hour.
    pub price: i64,
}

/// A forecast record as a value.
pub ghost struct ForecastRecordView {
    pub region: Seq<char>,
    pub forecast_time: Seq<char>,
    pub price: int,
}

impl View for ForecastRecord {
    type V = ForecastRecordView;

    open spec fn view(&self) -> ForecastRecordView {
        ForecastRecordView {
            region: self.region@,
            forecast_time: self.forecast_time@,
            price: self.price as int,
        }
    }
}

/// The records of a list, as values.
pub open spec fn price_record_views(records: Seq<PriceRecord>) -> Seq<PriceRecordView> {
    Seq::new(records.len(), |i: int| records[i]@)
}

/// The records of a list, as values.
pub open spec fn forecast_record_views(records: Seq<ForecastRecord>) -> Seq<ForecastRecordView> {
    Seq::new(records.len(), |i: int| records[i]@)
}

/// The lowest price that a record may carry: -1000 dollars.
pub const PRICE_FLOOR: i64 = -1_000_000_000;

/// The highest price that a record may carry: 17500 dollars.
pub const PRICE_CAP: i64 = 17_500_000_000;

/// The characters that Unicode calls white space.
pub open spec fn is_space(c: char) -> bool {
    ('\u{9}' <= c && c <= '\u{d}') || c == ' ' || c == '\u{85}' || c == '\u{a0}' || c
        == '\u{1680}' || ('\u{2000}' <= c && c <= '\u{200a}') || c == '\u{2028}' || c
        == '\u{2029}' || c == '\u{202f}' || c == '\u{205f}' || c == '\u{3000}'
}

/// What is stripped from the ends of a cell: double quotes, or white space.
pub open spec fn strips(c: char, quotes: bool) -> bool {
    if quotes {
        c == '"'
    } else {
        is_space(c)
    }
}

/// `s` from its first character on that is not stripped.
pub open spec fn strip_start(s: Seq<char>, quotes: bool) -> Seq<char>
    decreases s.len(),
{
    if s.len() > 0 && strips(s[0], quotes) {
        strip_start(s.drop_first(), quotes)
    } else {
        s
    }
}

/// `s` up to its last character that is not stripped.
pub open spec fn strip_end(s: Seq<char>, quotes: bool) -> Seq<char>
    decreases s.len(),
{
    if s.len() > 0 && strips(s.last(), quotes) {
        strip_end(s.drop_last(), quotes)
    } else {
        s
    }
}

/// `s` without the white space, or without the double quotes, at its ends.
pub open spec fn stripped(s: Seq<char>, quotes: bool) -> Seq<char> {
    strip_end(strip_start(s, quotes), quotes)
}

/// `s` without the white space at its ends.
pub open spec fn trimmed(s: Seq<char>) -> Seq<char> {
    stripped(s, false)
}

/// What a field holds: the field without the white space around it and then
/// without the double quotes around that.
pub open spec fn cell(field: Seq<char>) -> Seq<char> {
    stripped(stripped(field, false), true)
}

/// The pieces of `s` between the separators: one more than there are
/// separators in `s`.
pub open spec fn split(s: Seq<char>, sep: char) -> Seq<Seq<char>>
    decreases s.len(),
{
    if s.len() == 0 {
        seq![Seq::<char>::empty()]
    } else {
        let rest = split(s.drop_last(), sep);
        if s.last() == sep {
            rest.push(Seq::<char>::empty())
        } else {
            rest.update(rest.len() - 1, rest.last().push(s.last()))
        }
    }
}

/// The columns that a data row is read by, as its header row named them.
pub ghost struct ColumnsView {
    pub region: Option<int>,
    pub price: Option<int>,
    pub time: Option<int>,
}

/// A data row that was accepted.
pub ghost struct RowView {
    pub region: Seq<char>,
    pub price: int,
    pub time: Seq<char>,
}

/// The last field of a header row that holds `name`.
pub open spec fn last_column(fields: Seq<Seq<char>>, name: Seq<char>) -> Option<int>
    decreases fields.len(),
{
    if fields.len() == 0 {
        None
    } else if cell(fields.last()) == name {
        Some(fields.len() - 1)
    } else {
        last_column(fields.drop_last(), name)
    }
}

/// The subtypes of the price tables. Each has its header rows and its data
/// rows, and a header row speaks for the data rows of its own subtype only.
#[derive(Clone, Copy, Debug, PartialEq, Eq, Structural)]
pub enum Subtype {
    /// `PRICE`, of the prices and of the forecasts.
    Price,
    /// `REGION_PRICES`, of the forecasts only.
    RegionPrices,
}

/// The subtype of a row of at least three fields that begins with this tag
/// and belongs to the feed's price table: `DISPATCH,PRICE` for the prices,
/// `PREDISPATCH` with `PRICE` or with `REGION_PRICES` for the forecasts.
/// `None` for any other row.
pub open spec fn tagged_subtype(fields: Seq<Seq<char>>, tag: Seq<char>, forecast: bool) -> Option<
    Subtype,
> {
    if fields.len() < 3 || trimmed(fields[0]) != tag {
        None
    } else if forecast {
        if trimmed(fields[1]) != "PREDISPATCH"@ {
            None
        } else if trimmed(fields[2]) == "PRICE"@ {
            Some(Subtype::Price)
        } else if trimmed(fields[2]) == "REGION_PRICES"@ {
            Some(Subtype::RegionPrices)
        } else {
            None
        }
    } else {
        if trimmed(fields[1]) == "DISPATCH"@ && trimmed(fields[2]) == "PRICE"@ {
            Some(Subtype::Price)
        } else {
            None
        }
    }
}

/// The subtype that a header row speaks for: tag `I`.
pub open spec fn header_subtype(line: Seq<char>, forecast: bool) -> Option<Subtype> {
    tagged_subtype(split(line, ','), "I"@, forecast)
}

/// The subtype that a data row belongs to: tag `D`.
pub open spec fn data_subtype(line: Seq<char>, forecast: bool) -> Option<Subtype> {
    tagged_subtype(split(line, ','), "D"@, forecast)
}

/// The columns that a header row names: `REGIONID`, `RRP`, and for the time
/// `SETTLEMENTDATE` in the prices, `DATETIME` or else `PERIODID` in the
/// forecasts.
pub open spec fn header_columns(fields: Seq<Seq<char>>, forecast: bool) -> ColumnsView {
    ColumnsView {
        region: last_column(fields, "REGIONID"@),
        price: last_column(fields, "RRP"@),
        time: if forecast {
            match last_column(fields, "DATETIME"@) {
                Some(i) => Some(i),
                None => last_column(fields, "PERIODID"@),
            }
        } else {
            last_column(fields, "SETTLEMENTDATE"@)
        },
    }
}

/// No column is named.
pub open spec fn no_columns() -> ColumnsView {
    ColumnsView { region: None, price: None, time: None }
}

/// The columns in force for a subtype after `lines`: those of the last
/// header row of that subtype among them, and none where there is no such
/// header row.
pub open spec fn columns_after(lines: Seq<Seq<char>>, forecast: bool, subtype: Subtype)
    -> ColumnsView
    decreases lines.len(),
{
    if lines.len() == 0 {
        no_columns()
    } else if header_subtype(lines.last(), forecast) == Some(subtype) {
        header_columns(split(lines.last(), ','), forecast)
    } else {
        columns_after(lines.drop_last(), forecast, subtype)
    }
}

/// Whether a price is one that a record may carry.
pub open spec fn acceptable(price: int) -> bool {
    PRICE_FLOOR <= price <= PRICE_CAP
}

/// What a data row yields under the columns in force: nothing where a column
/// is not named or lies beyond the row's fields, where the price is no
/// decimal numeral, or where the price as written lies outside the bounds.
/// A price is kept in millionths, what it writes beyond them dropped; but
/// one that is a bound and then some in the dropped digits lies outside.
pub open spec fn row_of(fields: Seq<Seq<char>>, cols: ColumnsView) -> Option<RowView> {
    match (cols.region, cols.price, cols.time) {
        (Some(ri), Some(pi), Some(ti)) => if ri < fields.len() && pi < fields.len() && ti
            < fields.len() {
            match decimal_micros(cell(fields[pi])) {
                Some(v) => if numeral_within(
                    cell(fields[pi]),
                    PRICE_FLOOR as int,
                    PRICE_CAP as int,
                ) {
                    Some(RowView { region: cell(fields[ri]), price: v, time: cell(fields[ti]) })
                } else {
                    None
                },
                None => None,
            }
        } else {
            None
        },
        _ => None,
    }
}

/// The rows that `lines` yield, in their order: each data row read by the
/// columns of the last header row of its own subtype before it.
pub open spec fn rows_of(lines: Seq<Seq<char>>, forecast: bool) -> Seq<RowView>
    decreases lines.len(),
{
    if lines.len() == 0 {
        Seq::empty()
    } else {
        let rest = rows_of(lines.drop_last(), forecast);
        match data_subtype(lines.last(), forecast) {
            Some(subtype) => match row_of(
                split(lines.last(), ','),
                columns_after(lines.drop_last(), forecast, subtype),
            ) {
                Some(r) => rest.push(r),
                None => rest,
            },
            None => rest,
        }
    }
}

/// The rows that a file yields: those of its lines, taken between line feeds.
pub open spec fn feed_rows(csv: Seq<char>, forecast: bool) -> Seq<RowView> {
    rows_of(split(csv, '\n'), forecast)
}

/// The price records of a dispatch file.
pub open spec fn dispatch_records(csv: Seq<char>) -> Seq<PriceRecordView> {
    let rows = feed_rows(csv, false);
    Seq::new(
        rows.len(),
        |i: int|
            PriceRecordView {
                region: rows[i].region,
                price: rows[i].price,
                interval_time: rows[i].time,
            },
    )
}

/// The forecast records of a pre-dispatch file.
pub open spec fn predispatch_records(csv: Seq<char>) -> Seq<ForecastRecordView> {
    let rows = feed_rows(csv, true);
    Seq::new(
        rows.len(),
        |i: int|
            ForecastRecordView {
                region: rows[i].region,
                forecast_time: rows[i].time,
                price: rows[i].price,
            },
    )
}

/// The pieces that a list of ranges cuts out of `chars`.
pub open spec fn pieces(chars: Seq<char>, ranges: Seq<(usize, usize)>) -> Seq<Seq<char>> {
    Seq::new(ranges.len(), |i: int| chars.subrange(ranges[i].0 as int, ranges[i].1 as int))
}

/// Whether every range is one, and lies between `from` and `to`.
pub open spec fn ranges_within(ranges: Seq<(usize, usize)>, from: int, to: int) -> bool {
    forall|i: int|
        0 <= i < ranges.len() ==> from <= (#[trigger] ranges[i]).0 <= ranges[i].1 <= to
}

/// Whether a character is white space.
pub fn is_space_char(c: char) -> (r: bool)
    ensures
        r == is_space(c),
{
    ('\u{9}' <= c && c <= '\u{d}') || c == ' ' || c == '\u{85}' || c == '\u{a0}' || c
        == '\u{1680}' || ('\u{2000}' <= c && c <= '\u{200a}') || c == '\u{2028}' || c
        == '\u{2029}' || c == '\u{202f}' || c == '\u{205f}' || c == '\u{3000}'
}

fn strips_char(c: char, quotes: bool) -> (r: bool)
    ensures
        r == strips(c, quotes),
{
    if quotes {
        c == '"'
    } else {
        is_space_char(c)
    }
}

/// Where the pieces of `chars[from..to]` between the separators lie.
fn split_ranges(chars: &[char], from: usize, to: usize, sep: char) -> (ranges: Vec<
    (usize, usize),
>)
    requires
        from <= to <= chars@.len(),
    ensures
        pieces(chars@, ranges@) == split(chars@.subrange(from as int, to as int), sep),
        ranges_within(ranges@, from as int, to as int),
        ranges@.len() >= 1,
{
    let mut ranges: Vec<(usize, usize)> = Vec::new();
    let mut start: usize = from;
    let mut j: usize = from;
    proof {
        assert(chars@.subrange(from as int, from as int) =~= Seq::<char>::empty());
        assert(pieces(chars@, ranges@.push((start, j))) =~= seq![Seq::<char>::empty()]);
    }
    while j < to
        invariant
            from <= start <= j <= to <= chars@.len(),
            pieces(chars@, ranges@.push((start, j))) == split(
                chars@.subrange(from as int, j as int),
                sep,
            ),
            ranges_within(ranges@, from as int, to as int),
        decreases to - j,
    {
        let ghost before = pieces(chars@, ranges@.push((start, j)));
        proof {
            let t = chars@.subrange(from as int, j + 1);
            assert(t.drop_last() =~= chars@.subrange(from as int, j as int));
            assert(t.last() == chars@[j as int]);
        }
        if chars[j] == sep {
            ranges.push((start, j));
            start = j + 1;
            proof {
                assert(chars@.subrange(j + 1, j + 1) =~= Seq::<char>::empty());
                assert(pieces(chars@, ranges@.push((start, (j + 1) as usize))) =~= before.push(
                    Seq::<char>::empty(),
                ));
            }
        } else {
            proof {
                assert(chars@.subrange(start as int, j + 1) =~= chars@.subrange(
                    start as int,
                    j as int,
                ).push(chars@[j as int]));
                assert(pieces(chars@, ranges@.push((start, (j + 1) as usize))) =~= before.update(
                    before.len() - 1,
                    before.last().push(chars@[j as int]),
                ));
            }
        }
        j += 1;
    }
    ranges.push((start, j));
    ranges
}

/// Where `chars[a..b]` lies without the white space, or the double quotes,
/// at its ends.
fn strip_range(chars: &[char], a: usize, b: usize, quotes: bool) -> (r: (usize, usize))
    requires
        a <= b <= chars@.len(),
    ensures
        a <= r.0 <= r.1 <= b,
        chars@.subrange(r.0 as int, r.1 as int) == stripped(
            chars@.subrange(a as int, b as int),
            quotes,
        ),
{
    let mut i: usize = a;
    while i < b && strips_char(chars[i], quotes)
        invariant
            a <= i <= b <= chars@.len(),
            strip_start(chars@.subrange(a as int, b as int), quotes) == strip_start(
                chars@.subrange(i as int, b as int),
                quotes,
            ),
        decreases b - i,
    {
        proof {
            let t = chars@.subrange(i as int, b as int);
            assert(t[0] == chars@[i as int]);
            assert(t.drop_first() =~= chars@.subrange(i + 1, b as int));
        }
        i += 1;
    }
    proof {
        let t = chars@.subrange(i as int, b as int);
        if i < b {
            assert(t[0] == chars@[i as int]);
        }
        assert(strip_start(t, quotes) == t);
    }
    let mut j: usize = b;
    while i < j && strips_char(chars[j - 1], quotes)
        invariant
            i <= j <= b <= chars@.len(),
            strip_end(chars@.subrange(i as int, b as int), quotes) == strip_end(
                chars@.subrange(i as int, j as int),
                quotes,
            ),
        decreases j - i,
    {
        proof {
            let t = chars@.subrange(i as int, j as int);
            assert(t.last() == chars@[j - 1]);
            assert(t.drop_last() =~= chars@.subrange(i as int, j - 1));
        }
        j -= 1;
    }
    proof {
        let t = chars@.subrange(i as int, j as int);
        if i < j {
            assert(t.last() == chars@[j - 1]);
        }
        assert(strip_end(t, quotes) == t);
    }
    (i, j)
}

/// Where the content of the field `chars[a..b]` lies.
fn cell_range(chars: &[char], a: usize, b: usize) -> (r: (usize, usize))
    requires
        a <= b <= chars@.len(),
    ensures
        a <= r.0 <= r.1 <= b,
        chars@.subrange(r.0 as int, r.1 as int) == cell(chars@.subrange(a as int, b as int)),
{
    let t = strip_range(chars, a, b, false);
    strip_range(chars, t.0, t.1, true)
}

/// The columns as positions in a row.
#[derive(Clone, Copy, Debug, PartialEq, Eq, Structural)]
pub struct Columns {
    pub region: Option<usize>,
    pub price: Option<usize>,
    pub time: Option<usize>,
}

/// A position as a number, where there is one.
pub open spec fn column_view(i: Option<usize>) -> Option<int> {
    match i {
        Some(k) => Some(k as int),
        None => None,
    }
}

impl View for Columns {
    type V = ColumnsView;

    open spec fn view(&self) -> ColumnsView {
        ColumnsView {
            region: column_view(self.region),
            price: column_view(self.price),
            time: column_view(self.time),
        }
    }
}

/// The last field of a header row that holds `name`.
fn find_column(chars: &[char], fields: &Vec<(usize, usize)>, name: &str) -> (r: Option<usize>)
    requires
        ranges_within(fields@, 0, chars@.len() as int),
    ensures
        column_view(r) == last_column(pieces(chars@, fields@), name@),
        r matches Some(i) ==> i < fields@.len(),
{
    let ghost all = pieces(chars@, fields@);
    let mut found: Option<usize> = None;
    let mut i: usize = 0;
    assert(all.take(0) =~= Seq::<Seq<char>>::empty());
    while i < fields.len()
        invariant
            i <= fields@.len(),
            all == pieces(chars@, fields@),
            ranges_within(fields@, 0, chars@.len() as int),
            column_view(found) == last_column(all.take(i as int), name@),
            found matches Some(k) ==> k < i,
        decreases fields@.len() - i,
    {
        proof {
            let t = all.take(i + 1);
            assert(t.drop_last() =~= all.take(i as int));
            assert(t.last() == chars@.subrange(fields@[i as int].0 as int, fields@[i as int].1 as int));
        }
        let f = fields[i];
        let c = cell_range(chars, f.0, f.1);
        let content = text_of(chars, c.0, c.1);
        if same_text(content.as_str(), name) {
            found = Some(i);
        }
        i += 1;
    }
    assert(all.take(i as int) =~= all);
    found
}

/// The subtype of a row that begins with this tag and belongs to the feed's
/// price table.
fn row_subtype(chars: &[char], fields: &Vec<(usize, usize)>, tag: &str, forecast: bool) -> (r:
    Option<Subtype>)
    requires
        ranges_within(fields@, 0, chars@.len() as int),
    ensures
        r == tagged_subtype(pieces(chars@, fields@), tag@, forecast),
{
    if fields.len() < 3 {
        return None;
    }
    let ghost all = pieces(chars@, fields@);
    assert(all[0] == chars@.subrange(fields@[0].0 as int, fields@[0].1 as int));
    assert(all[1] == chars@.subrange(fields@[1].0 as int, fields@[1].1 as int));
    assert(all[2] == chars@.subrange(fields@[2].0 as int, fields@[2].1 as int));
    let t0 = strip_range(chars, fields[0].0, fields[0].1, false);
    let first = text_of(chars, t0.0, t0.1);
    if !same_text(first.as_str(), tag) {
        return None;
    }
    let t1 = strip_range(chars, fields[1].0, fields[1].1, false);
    let table = text_of(chars, t1.0, t1.1);
    let t2 = strip_range(chars, fields[2].0, fields[2].1, false);
    let sub = text_of(chars, t2.0, t2.1);
    if forecast {
        if !same_text(table.as_str(), "PREDISPATCH") {
            None
        } else if same_text(sub.as_str(), "PRICE") {
            Some(Subtype::Price)
        } else if same_text(sub.as_str(), "REGION_PRICES") {
            Some(Subtype::RegionPrices)
        } else {
            None
        }
    } else {
        if same_text(table.as_str(), "DISPATCH") && same_text(sub.as_str(), "PRICE") {
            Some(Subtype::Price)
        } else {
            None
        }
    }
}

/// The columns that a header row names.
fn read_header(chars: &[char], fields: &Vec<(usize, usize)>, forecast: bool) -> (r: Columns)
    requires
        ranges_within(fields@, 0, chars@.len() as int),
    ensures
        r@ == header_columns(pieces(chars@, fields@), forecast),
{
    let region = find_column(chars, fields, "REGIONID");
    let price = find_column(chars, fields, "RRP");
    let time = if forecast {
        match find_column(chars, fields, "DATETIME") {
            Some(i) => Some(i),
            None => find_column(chars, fields, "PERIODID"),
        }
    } else {
        find_column(chars, fields, "SETTLEMENTDATE")
    };
    Columns { region, price, time }
}

/// What a data row yields under the columns in force.
fn read_row(chars: &[char], fields: &Vec<(usize, usize)>, cols: &Columns) -> (r: Option<
    PriceRecord,
>)
    requires
        ranges_within(fields@, 0, chars@.len() as int),
    ensures
        match r {
            Some(rec) => row_of(pieces(chars@, fields@), cols@) == Some(
                RowView { region: rec.region@, price: rec.price as int, time: rec.interval_time@ },
            ),
            None => row_of(pieces(chars@, fields@), cols@) is None,
        },
{
    let ghost all = pieces(chars@, fields@);
    match (cols.region, cols.price, cols.time) {
        (Some(ri), Some(pi), Some(ti)) => {
            if ri < fields.len() && pi < fields.len() && ti < fields.len() {
                assert(all[ri as int] == chars@.subrange(
                    fields@[ri as int].0 as int,
                    fields@[ri as int].1 as int,
                ));
                assert(all[pi as int] == chars@.subrange(
                    fields@[pi as int].0 as int,
                    fields@[pi as int].1 as int,
                ));
                assert(all[ti as int] == chars@.subrange(
                    fields@[ti as int].0 as int,
                    fields@[ti as int].1 as int,
                ));
                let pc = cell_range(chars, fields[pi].0, fields[pi].1);
                match read_numeral(slice_subrange(chars, pc.0, pc.1)) {
                    Some(n) => {
                        let v = n.micros;
                        if n.within(PRICE_FLOOR, PRICE_CAP) {
                            let rc = cell_range(chars, fields[ri].0, fields[ri].1);
                            let tc = cell_range(chars, fields[ti].0, fields[ti].1);
                            Some(
                                PriceRecord {
                                    region: text_of(chars, rc.0, rc.1),
                                    price: v,
                                    interval_time: text_of(chars, tc.0, tc.1),
                                },
                            )
                        } else {
                            None
                        }
                    },
                    None => None,
                }
            } else {
                None
            }
        },
        _ => None,
    }
}

/// The rows of a list of records, as values.
pub open spec fn record_rows(records: Seq<PriceRecord>) -> Seq<RowView> {
    Seq::new(
        records.len(),
        |i: int|
            RowView {
                region: records[i].region@,
                price: records[i].price as int,
                time: records[i].interval_time@,
            },
    )
}

/// The rows that a file yields.
fn parse_feed(csv: &str, forecast: bool) -> (records: Vec<PriceRecord>)
    ensures
        record_rows(records@) == feed_rows(csv@, forecast),
{
    let text = chars_of(csv);
    let chars = text.as_slice();
    let lines = split_ranges(chars, 0, chars.len(), '\n');
    assert(chars@.subrange(0, chars@.len() as int) =~= csv@);
    let ghost all = pieces(chars@, lines@);
    let mut records: Vec<PriceRecord> = Vec::new();
    let mut price_cols = Columns { region: None, price: None, time: None };
    let mut region_cols = Columns { region: None, price: None, time: None };
    let mut k: usize = 0;
    assert(all.take(0) =~= Seq::<Seq<char>>::empty());
    assert(record_rows(records@) =~= Seq::<RowView>::empty());
    while k < lines.len()
        invariant
            k <= lines@.len(),
            all == pieces(chars@, lines@),
            ranges_within(lines@, 0, chars@.len() as int),
            price_cols@ == columns_after(all.take(k as int), forecast, Subtype::Price),
            region_cols@ == columns_after(all.take(k as int), forecast, Subtype::RegionPrices),
            record_rows(records@) == rows_of(all.take(k as int), forecast),
        decreases lines@.len() - k,
    {
        let line = lines[k];
        let ghost t = all.take(k + 1);
        proof {
            assert(t.drop_last() =~= all.take(k as int));
            assert(t.last() == chars@.subrange(line.0 as int, line.1 as int));
            reveal_strlit("I");
            reveal_strlit("D");
            assert("I"@[0] != "D"@[0]);
        }
        let fields = split_ranges(chars, line.0, line.1, ',');
        assert(ranges_within(fields@, 0, chars@.len() as int));
        assert(pieces(chars@, fields@) == split(t.last(), ','));
        match row_subtype(chars, &fields, "I", forecast) {
            Some(subtype) => {
                assert(data_subtype(t.last(), forecast) is None);
                let named = read_header(chars, &fields, forecast);
                match subtype {
                    Subtype::Price => {
                        price_cols = named;
                    },
                    Subtype::RegionPrices => {
                        region_cols = named;
                    },
                }
            },
            None => {
                match row_subtype(chars, &fields, "D", forecast) {
                    Some(subtype) => {
                        let cols = match subtype {
                            Subtype::Price => price_cols,
                            Subtype::RegionPrices => region_cols,
                        };
                        match read_row(chars, &fields, &cols) {
                            Some(rec) => {
                                let ghost held = record_rows(records@);
                                let ghost row = RowView {
                                    region: rec.region@,
                                    price: rec.price as int,
                                    time: rec.interval_time@,
                                };
                                records.push(rec);
                                assert(record_rows(records@) =~= held.push(row));
                            },
                            None => {},
                        }
                    },
                    None => {},
                }
            },
        }
        k += 1;
    }
    assert(all.take(k as int) =~= all);
    records
}

/// Reads a dispatch file: the rows `D,DISPATCH,PRICE`, each by the columns
/// `REGIONID`, `RRP` and `SETTLEMENTDATE` as the last row `I,DISPATCH,PRICE`
/// before it placed them. Rows that cannot be read are left out; the rest
/// come in the order of the file.
pub fn parse_dispatch(csv: &str) -> (records: Vec<PriceRecord>)
    ensures
        price_record_views(records@) == dispatch_records(csv@),
{
    let records = parse_feed(csv, false);
    assert(price_record_views(records@) =~= dispatch_records(csv@)) by {
        let rows = feed_rows(csv@, false);
        assert(record_rows(records@) == rows);
        assert forall|i: int| 0 <= i < records@.len() implies price_record_views(records@)[i]
            == dispatch_records(csv@)[i] by {
            assert(record_rows(records@)[i] == rows[i]);
        }
    }
    records
}

/// Reads a pre-dispatch file: the rows `D,PREDISPATCH` of `PRICE` and of
/// `REGION_PRICES`, each by the columns `REGIONID`, `RRP` and `DATETIME`, or
/// `PERIODID` where no `DATETIME` is named, as the last row `I` of its own
/// subtype before it placed them. A header row of the one subtype places
/// nothing for the rows of the other. Rows that cannot be read are left
/// out; the rest come in the order of the file.
pub fn parse_predispatch(csv: &str) -> (records: Vec<ForecastRecord>)
    ensures
        forecast_record_views(records@) == predispatch_records(csv@),
{
    let rows = parse_feed(csv, true);
    let mut records: Vec<ForecastRecord> = Vec::new();
    let mut i: usize = 0;
    while i < rows.len()
        invariant
            i <= rows@.len(),
            records@.len() == i,
            forall|k: int|
                0 <= k < i ==> (#[trigger] records@[k])@ == (ForecastRecordView {
                    region: rows@[k].region@,
                    forecast_time: rows@[k].interval_time@,
                    price: rows@[k].price as int,
                }),
        decreases rows@.len() - i,
    {
        let r = &rows[i];
        records.push(
            ForecastRecord {
                region: r.region.clone(),
                forecast_time: r.interval_time.clone(),
                price: r.price,
            },
        );
        i += 1;
    }
    assert(forecast_record_views(records@) =~= predispatch_records(csv@)) by {
        let all = feed_rows(csv@, true);
        assert(record_rows(rows@) == all);
        assert forall|k: int| 0 <= k < records@.len() implies forecast_record_views(records@)[k]
            == predispatch_records(csv@)[k] by {
            assert(record_rows(rows@)[k] == all[k]);
        }
    }
    records
}

/// Without a header row of a subtype among them, lines place no columns
/// for that subtype.
pub proof fn lemma_no_header_no_columns(lines: Seq<Seq<char>>, forecast: bool, subtype: Subtype)
    requires
        forall|i: int|
            0 <= i < lines.len() ==> header_subtype(#[trigger] lines[i], forecast) != Some(
                subtype,
            ),
    ensures
        columns_after(lines, forecast, subtype) == no_columns(),
    decreases lines.len(),
{
    if lines.len() > 0 {
        lemma_no_header_no_columns(lines.drop_last(), forecast, subtype);
    }
}

/// Whether no data row of `lines` has a header row of its own subtype
/// before it.
pub open spec fn no_header_before_data(lines: Seq<Seq<char>>, forecast: bool) -> bool {
    forall|i: int, k: int|
        0 <= i < k < lines.len() && data_subtype(lines[k], forecast) is Some ==> header_subtype(
            lines[i],
            forecast,
        ) != data_subtype(lines[k], forecast)
}

/// Lines in which no header row of its own subtype stands before a data row
/// yield no rows. A header row of another subtype does not count.
pub proof fn lemma_no_header_no_rows(lines: Seq<Seq<char>>, forecast: bool)
    requires
        no_header_before_data(lines, forecast),
    ensures
        rows_of(lines, forecast).len() == 0,
    decreases lines.len(),
{
    if lines.len() > 0 {
        let rest = lines.drop_last();
        assert(no_header_before_data(rest, forecast)) by {
            assert forall|i: int, k: int|
                0 <= i < k < rest.len() && data_subtype(
                    rest[k],
                    forecast,
                ) is Some implies header_subtype(rest[i], forecast) != data_subtype(
                rest[k],
                forecast,
            ) by {
                assert(rest[k] == lines[k] && rest[i] == lines[i]);
            }
        }
        lemma_no_header_no_rows(rest, forecast);
        match data_subtype(lines.last(), forecast) {
            Some(subtype) => {
                assert forall|i: int| 0 <= i < rest.len() implies header_subtype(
                    #[trigger] rest[i],
                    forecast,
                ) != Some(subtype) by {
                    assert(rest[i] == lines[i]);
                    assert(lines[lines.len() - 1] == lines.last());
                }
                lemma_no_header_no_columns(rest, forecast, subtype);
            },
            None => {},
        }
    }
}

/// A file in which no header row of its own subtype stands before a data
/// row yields no record, of prices or of forecasts.
pub proof fn lemma_data_before_header_yields_nothing(csv: Seq<char>, forecast: bool)
    requires
        no_header_before_data(split(csv, '\n'), forecast),
    ensures
        feed_rows(csv, forecast).len() == 0,
        !forecast ==> dispatch_records(csv).len() == 0,
        forecast ==> predispatch_records(csv).len() == 0,
{
    lemma_no_header_no_rows(split(csv, '\n'), forecast);
}

/// A record comes only from a data row that stands after a header row of
/// its own subtype: lines that yield a row hold such a pair.
pub proof fn lemma_rows_need_a_header(lines: Seq<Seq<char>>, forecast: bool)
    requires
        rows_of(lines, forecast).len() > 0,
    ensures
        exists|i: int, k: int|
            0 <= i < k < lines.len() && data_subtype(lines[k], forecast) is Some
                && header_subtype(lines[i], forecast) == data_subtype(lines[k], forecast),
{
    if no_header_before_data(lines, forecast) {
        lemma_no_header_no_rows(lines, forecast);
    }
}

/// A header row of the one subtype and a data row of the other after it
/// yield nothing.
pub proof fn lemma_header_of_another_subtype_places_nothing(
    header: Seq<char>,
    data: Seq<char>,
    forecast: bool,
)
    requires
        header_subtype(header, forecast) is Some,
        data_subtype(data, forecast) is Some,
        header_subtype(header, forecast) != data_subtype(data, forecast),
    ensures
        rows_of(seq![header, data], forecast).len() == 0,
{
    reveal_strlit("I");
    reveal_strlit("D");
    assert("I"@[0] != "D"@[0]);
    let lines = seq![header, data];
    assert(data_subtype(header, forecast) is None);
    assert forall|i: int, k: int|
        0 <= i < k < lines.len() && data_subtype(lines[k], forecast) is Some implies header_subtype(
        lines[i],
        forecast,
    ) != data_subtype(lines[k], forecast) by {
        assert(i == 0 && k == 1);
    }
    lemma_no_header_no_rows(lines, forecast);
}

/// The column that a header row gives a name holds that name.
pub proof fn lemma_last_column_holds_name(fields: Seq<Seq<char>>, name: Seq<char>)
    ensures
        last_column(fields, name) matches Some(i) ==> 0 <= i < fields.len() && cell(fields[i])
            == name,
    decreases fields.len(),
{
    if fields.len() > 0 && cell(fields.last()) != name {
        lemma_last_column_holds_name(fields.drop_last(), name);
    }
}

/// The fields of a data row with a record written into its columns: the
/// region and the time as they are, the price as a decimal numeral with
/// six places.
pub open spec fn written_back(fields: Seq<Seq<char>>, cols: ColumnsView, row: RowView) -> Seq<
    Seq<char>,
> {
    fields.update(cols.region->0, row.region).update(cols.time->0, row.time).update(
        cols.price->0,
        decimal_text(row.price),
    )
}

/// What a clean text holds is the text itself: one that neither begins nor
/// ends with white space or a double quote.
proof fn lemma_cell_of_clean_text(s: Seq<char>)
    requires
        s.len() > 0,
        !is_space(s[0]) && s[0] != '"',
        !is_space(s.last()) && s.last() != '"',
    ensures
        cell(s) == s,
{
    assert(strip_start(s, false) == s);
    assert(strip_end(s, false) == s);
    assert(strip_start(s, true) == s);
    assert(strip_end(s, true) == s);
}

/// A record that a data row yielded, written back into the columns that the
/// header row named, reads as the same record, up to the white space and
/// the quotes that reading strips: the price as it is, region and time as
/// what they hold.
pub proof fn lemma_row_written_back_reads_the_same(
    header: Seq<Seq<char>>,
    forecast: bool,
    fields: Seq<Seq<char>>,
    row: RowView,
)
    requires
        row_of(fields, header_columns(header, forecast)) == Some(row),
    ensures
        row_of(
            written_back(fields, header_columns(header, forecast), row),
            header_columns(header, forecast),
        ) == Some(RowView { region: cell(row.region), price: row.price, time: cell(row.time) }),
{
    let cols = header_columns(header, forecast);
    let ri = cols.region->0;
    let pi = cols.price->0;
    let ti = cols.time->0;
    lemma_last_column_holds_name(header, "REGIONID"@);
    lemma_last_column_holds_name(header, "RRP"@);
    lemma_last_column_holds_name(header, "SETTLEMENTDATE"@);
    lemma_last_column_holds_name(header, "DATETIME"@);
    lemma_last_column_holds_name(header, "PERIODID"@);
    reveal_strlit("REGIONID");
    reveal_strlit("RRP");
    reveal_strlit("SETTLEMENTDATE");
    reveal_strlit("DATETIME");
    reveal_strlit("PERIODID");
    assert("RRP"@.len() == 3);
    assert("REGIONID"@.len() == 8);
    assert("SETTLEMENTDATE"@.len() == 14);
    assert("DATETIME"@.len() == 8);
    assert("PERIODID"@.len() == 8);
    assert(pi != ri);
    assert(pi != ti);
    let text = decimal_text(row.price);
    lemma_decimal_text_reads_back(row.price);
    lemma_cell_of_clean_text(text);
    let w = written_back(fields, cols, row);
    assert(w[pi] == text);
    assert(w[ti] == row.time);
    if ri != ti {
        assert(w[ri] == row.region);
    } else {
        assert(row.region == row.time);
    }
}

/// Pieces set one after the other with a separator between each two.
pub open spec fn joined(pieces: Seq<Seq<char>>, sep: char) -> Seq<char>
    decreases pieces.len(),
{
    if pieces.len() == 0 {
        Seq::<char>::empty()
    } else if pieces.len() == 1 {
        pieces[0]
    } else {
        joined(pieces.drop_last(), sep) + seq![sep] + pieces.last()
    }
}

/// The pieces of a text hold no separator, and joined by the separator they
/// make the text again: splitting loses nothing and invents nothing.
pub proof fn lemma_split_then_join(s: Seq<char>, sep: char)
    ensures
        split(s, sep).len() >= 1,
        joined(split(s, sep), sep) == s,
        forall|i: int, k: int|
            0 <= i < split(s, sep).len() && 0 <= k < split(s, sep)[i].len() ==> split(
                s,
                sep,
            )[i][k] != sep,
    decreases s.len(),
{
    let all = split(s, sep);
    if s.len() == 0 {
        assert(joined(all, sep) =~= s);
    } else {
        let head = s.drop_last();
        let rest = split(head, sep);
        lemma_split_then_join(head, sep);
        if s.last() == sep {
            assert(all.drop_last() =~= rest);
            assert(joined(all, sep) =~= joined(rest, sep) + seq![sep] + Seq::<char>::empty());
            assert(joined(all, sep) =~= s);
        } else {
            let grown = rest.last().push(s.last());
            assert(all.last() == grown);
            if rest.len() == 1 {
                assert(joined(rest, sep) == rest[0]);
                assert(joined(all, sep) == grown);
                assert(grown =~= s);
            } else {
                assert(all.drop_last() =~= rest.drop_last());
                assert(joined(all, sep) =~= (joined(rest.drop_last(), sep) + seq![sep]
                    + rest.last()).push(s.last()));
                assert(joined(all, sep) =~= s);
            }
            assert forall|i: int, k: int|
                0 <= i < all.len() && 0 <= k < all[i].len() implies all[i][k] != sep by {
                if i < all.len() - 1 {
                    assert(all[i] == rest[i]);
                } else if k < rest.last().len() {
                    assert(all[i][k] == rest[i][k]);
                }
            }
        }
    }
}

/// Characters without a separator, set behind a text, lengthen its last piece.
proof fn lemma_split_of_longer(x: Seq<char>, y: Seq<char>, sep: char)
    requires
        forall|k: int| 0 <= k < y.len() ==> y[k] != sep,
    ensures
        split(x, sep).len() >= 1,
        split(x + y, sep) == split(x, sep).update(
            split(x, sep).len() - 1,
            split(x, sep).last() + y,
        ),
    decreases y.len(),
{
    lemma_split_then_join(x, sep);
    let pieces = split(x, sep);
    if y.len() == 0 {
        assert(x + y =~= x);
        assert(pieces.last() + y =~= pieces.last());
        assert(pieces.update(pieces.len() - 1, pieces.last()) =~= pieces);
    } else {
        let head = y.drop_last();
        lemma_split_of_longer(x, head, sep);
        assert((x + y).drop_last() =~= x + head);
        assert((x + y).last() == y.last());
        let before = split(x + head, sep);
        assert(before.last() == pieces.last() + head);
        assert((pieces.last() + head).push(y.last()) =~= pieces.last() + y);
        assert(split(x + y, sep) =~= pieces.update(pieces.len() - 1, pieces.last() + y));
    }
}

/// Pieces without a separator, joined by it, split into the same pieces:
/// joining loses nothing either.
pub proof fn lemma_join_then_split(pieces: Seq<Seq<char>>, sep: char)
    requires
        pieces.len() >= 1,
        forall|i: int, k: int|
            0 <= i < pieces.len() && 0 <= k < pieces[i].len() ==> pieces[i][k] != sep,
    ensures
        split(joined(pieces, sep), sep) == pieces,
    decreases pieces.len(),
{
    if pieces.len() == 1 {
        let only = pieces[0];
        lemma_split_of_longer(Seq::<char>::empty(), only, sep);
        assert(Seq::<char>::empty() + only =~= only);
        assert(split(Seq::<char>::empty(), sep) =~= seq![Seq::<char>::empty()]);
        assert(split(only, sep) =~= pieces);
    } else {
        let init = pieces.drop_last();
        let last = pieces.last();
        assert forall|i: int, k: int|
            0 <= i < init.len() && 0 <= k < init[i].len() implies init[i][k] != sep by {
            assert(init[i] == pieces[i]);
        }
        lemma_join_then_split(init, sep);
        let x = joined(init, sep) + seq![sep];
        assert(x.drop_last() =~= joined(init, sep));
        assert(split(x, sep) == init.push(Seq::<char>::empty()));
        lemma_split_of_longer(x, last, sep);
        assert(joined(pieces, sep) == x + last);
        assert(Seq::<char>::empty() + last =~= last);
        assert(split(x + last, sep) =~= pieces);
    }
}

/// Stripping the ends of a text brings no character into it.
proof fn lemma_stripped_holds_no_more(s: Seq<char>, quotes: bool, c: char)
    requires
        forall|k: int| 0 <= k < s.len() ==> s[k] != c,
    ensures
        forall|k: int| 0 <= k < stripped(s, quotes).len() ==> stripped(s, quotes)[k] != c,
{
    lemma_strip_start_holds_no_more(s, quotes, c);
    lemma_strip_end_holds_no_more(strip_start(s, quotes), quotes, c);
}

proof fn lemma_strip_start_holds_no_more(s: Seq<char>, quotes: bool, c: char)
    requires
        forall|k: int| 0 <= k < s.len() ==> s[k] != c,
    ensures
        forall|k: int| 0 <= k < strip_start(s, quotes).len() ==> strip_start(s, quotes)[k] != c,
    decreases s.len(),
{
    if s.len() > 0 && strips(s[0], quotes) {
        let t = s.drop_first();
        assert forall|k: int| 0 <= k < t.len() implies t[k] != c by {
            assert(t[k] == s[k + 1]);
        }
        lemma_strip_start_holds_no_more(t, quotes, c);
        assert(strip_start(s, quotes) == strip_start(t, quotes));
    } else {
        assert(strip_start(s, quotes) == s);
    }
}

proof fn lemma_strip_end_holds_no_more(s: Seq<char>, quotes: bool, c: char)
    requires
        forall|k: int| 0 <= k < s.len() ==> s[k] != c,
    ensures
        forall|k: int| 0 <= k < strip_end(s, quotes).len() ==> strip_end(s, quotes)[k] != c,
    decreases s.len(),
{
    if s.len() > 0 && strips(s.last(), quotes) {
        let t = s.drop_last();
        assert forall|k: int| 0 <= k < t.len() implies t[k] != c by {
            assert(t[k] == s[k]);
        }
        lemma_strip_end_holds_no_more(t, quotes, c);
        assert(strip_end(s, quotes) == strip_end(t, quotes));
    } else {
        assert(strip_end(s, quotes) == s);
    }
}

/// A record that a data row yielded, written back into the row as text,
/// reads as the same record, up to the white space and the quotes that
/// reading strips. The row is written with the record in the columns that
/// the header row named, the price as a decimal numeral with six places,
/// and commas between the fields.
pub proof fn lemma_record_written_to_a_row_reads_the_same(
    header: Seq<Seq<char>>,
    forecast: bool,
    line: Seq<char>,
    row: RowView,
)
    requires
        row_of(split(line, ','), header_columns(header, forecast)) == Some(row),
    ensures
        row_of(
            split(
                joined(
                    written_back(split(line, ','), header_columns(header, forecast), row),
                    ',',
                ),
                ',',
            ),
            header_columns(header, forecast),
        ) == Some(RowView { region: cell(row.region), price: row.price, time: cell(row.time) }),
{
    let cols = header_columns(header, forecast);
    let fields = split(line, ',');
    let written = written_back(fields, cols, row);
    lemma_split_then_join(line, ',');
    lemma_row_written_back_reads_the_same(header, forecast, fields, row);
    lemma_decimal_text_reads_back(row.price);
    let ri = cols.region->0;
    let pi = cols.price->0;
    let ti = cols.time->0;
    lemma_last_column_holds_name(header, "REGIONID"@);
    lemma_last_column_holds_name(header, "RRP"@);
    lemma_last_column_holds_name(header, "SETTLEMENTDATE"@);
    lemma_last_column_holds_name(header, "DATETIME"@);
    lemma_last_column_holds_name(header, "PERIODID"@);
    assert(0 <= ri < fields.len() && 0 <= pi < fields.len() && 0 <= ti < fields.len());
    assert forall|k: int| 0 <= k < fields[ri].len() implies fields[ri][k] != ',' by {
        assert(split(line, ',')[ri][k] != ',');
    }
    assert forall|k: int| 0 <= k < fields[ti].len() implies fields[ti][k] != ',' by {
        assert(split(line, ',')[ti][k] != ',');
    }
    lemma_stripped_holds_no_more(fields[ri], false, ',');
    lemma_stripped_holds_no_more(stripped(fields[ri], false), true, ',');
    lemma_stripped_holds_no_more(fields[ti], false, ',');
    lemma_stripped_holds_no_more(stripped(fields[ti], false), true, ',');
    assert forall|i: int, k: int|
        0 <= i < written.len() && 0 <= k < written[i].len() implies written[i][k] != ',' by {
        if i == pi {
            assert(written[i] == decimal_text(row.price));
            assert(decimal_text(row.price)[k] != ',');
        } else if i == ti {
            assert(written[i] == row.time);
            assert(row.time == cell(fields[ti]));
        } else if i == ri {
            assert(written[i] == row.region);
            assert(row.region == cell(fields[ri]));
        } else {
            assert(written[i] == fields[i]);
            assert(split(line, ',')[i][k] != ',');
        }
    }
    lemma_join_then_split(written, ',');
}

impl Clone for PriceRecord {
    fn clone(&self) -> (r: Self)
        ensures
            r@ == self@,
    {
        PriceRecord {
            region: self.region.clone(),
            price: self.price,
            interval_time: self.interval_time.clone(),
        }
    }
}

impl Clone for ForecastRecord {
    fn clone(&self) -> (r: Self)
        ensures
            r@ == self@,
    {
        ForecastRecord {
            region: self.region.clone(),
            forecast_time: self.forecast_time.clone(),
            price: self.price,
        }
    }
}

/// Every row that lines yield carries a price within the bounds.
pub proof fn lemma_rows_carry_acceptable_prices(lines: Seq<Seq<char>>, forecast: bool, k: int)
    requires
        0 <= k < rows_of(lines, forecast).len(),
    ensures
        acceptable(rows_of(lines, forecast)[k].price),
    decreases lines.len(),
{
    if lines.len() > 0 {
        let rest = rows_of(lines.drop_last(), forecast);
        if k < rest.len() {
            lemma_rows_carry_acceptable_prices(lines.drop_last(), forecast, k);
        }
    }
}

/// Every record of a file carries a price between -1000 and 17500 dollars.
pub proof fn lemma_records_carry_acceptable_prices(csv: Seq<char>)
    ensures
        forall|k: int|
            0 <= k < dispatch_records(csv).len() ==> acceptable(
                (#[trigger] dispatch_records(csv)[k]).price,
            ),
        forall|k: int|
            0 <= k < predispatch_records(csv).len() ==> acceptable(
                (#[trigger] predispatch_records(csv)[k]).price,
            ),
{
    assert forall|k: int| 0 <= k < dispatch_records(csv).len() implies acceptable(
        (#[trigger] dispatch_records(csv)[k]).price,
    ) by {
        lemma_rows_carry_acceptable_prices(split(csv, '\n'), false, k);
    }
    assert forall|k: int| 0 <= k < predispatch_records(csv).len() implies acceptable(
        (#[trigger] predispatch_records(csv)[k]).price,
    ) by {
        lemma_rows_carry_acceptable_prices(split(csv, '\n'), true, k);
    }
}

} // verus!
