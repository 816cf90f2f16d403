//! Reading the tabular form back: rows of samples, malformed rows skipped
//! and counted, and a sample store rebuilt from the rows.
use crate::numeric::{all_digits, chars_of, digits_value, is_digit, parse_range, parse_u64};
use crate::sample::{appended, renamed, AngleSample, Position, SampleStore, SeriesView};
use vstd::prelude::*;

verus! {

/// The records that the `csv` crate reads from `text` after its header
/// line: the fields of each, or `None` where it reports an error for the
/// record.
pub uninterp spec fn csv_records_of(text: Seq<u8>) -> Seq<Option<Seq<Seq<char>>>>;

/// The content of read records.
pub open spec fn records_view(r: Seq<Option<Vec<String>>>) -> Seq<Option<Seq<Seq<char>>>> {
    r.map_values(
        |o: Option<Vec<String>>|
            match o {
                Some(v) => Some(v@.map_values(|s: String| s@)),
                None => None,
            },
    )
}

/// Relies on `csv::Reader` (with a header line, not flexible) over the
/// bytes of `text`: each record after the header as its fields, or `None`
/// where `StringRecordsIter` yields an error.
#[verifier::external_body]
fn read_records(text: &[u8]) -> (r: Vec<Option<Vec<String>>>)
    ensures
        records_view(r@) == csv_records_of(text@),
{
    let mut reader = csv::ReaderBuilder::new().has_headers(true).from_reader(text);
    let mut out = Vec::new();
    for record in reader.records() {
        out.push(match record {
            Ok(fields) => Some(fields.iter().map(String::from).collect()),
            Err(_) => None,
        });
    }
    out
}

/// `c` is `n` or `N`, `a` or `A`: the letters of `NaN`.
pub open spec fn is_nan_text(t: Seq<char>) -> bool {
    &&& t.len() == 3
    &&& (t[0] == 'n' || t[0] == 'N')
    &&& (t[1] == 'a' || t[1] == 'A')
    &&& (t[2] == 'n' || t[2] == 'N')
}

/// One or more digits.
pub open spec fn digit_run(u: Seq<char>) -> bool {
    u.len() > 0 && all_digits(u)
}

/// The value of a digit.
pub open spec fn digit_value(c: char) -> int {
    c as int - '0' as int
}

/// An unsigned decimal with at most two decimals, in hundredths: `12`,
/// `12.3` or `12.34`.
pub open spec fn unsigned_centi(u: Seq<char>) -> Option<int> {
    let n = u.len() as int;
    if digit_run(u) {
        Some(digits_value(u) as int * 100)
    } else if n >= 3 && u[n - 2] == '.' && digit_run(u.take(n - 2)) && is_digit(u[n - 1]) {
        Some(digits_value(u.take(n - 2)) * 100 + digit_value(u[n - 1]) * 10)
    } else if n >= 4 && u[n - 3] == '.' && digit_run(u.take(n - 3)) && is_digit(u[n - 2])
        && is_digit(u[n - 1]) {
        Some(digits_value(u.take(n - 3)) * 100 + digit_value(u[n - 2]) * 10 + digit_value(u[n - 1]))
    } else {
        None
    }
}

/// A signed decimal with at most two decimals, in hundredths, if it fits
/// an `i32`.
pub open spec fn centi_of(t: Seq<char>) -> Option<i32> {
    let neg = t.len() > 0 && t[0] == '-';
    let u = if t.len() > 0 && (t[0] == '-' || t[0] == '+') {
        t.drop_first()
    } else {
        t
    };
    match unsigned_centi(u) {
        Some(v) => {
            let s = if neg {
                -v
            } else {
                v
            };
            if i32::MIN <= s <= i32::MAX {
                Some(s as i32)
            } else {
                None
            }
        },
        None => None,
    }
}

/// A number cell: `None` when malformed, `Some(None)` for `NaN`.
pub open spec fn cell_value(t: Seq<char>) -> Option<Option<i32>> {
    if is_nan_text(t) {
        Some(None)
    } else {
        match centi_of(t) {
            Some(v) => Some(Some(v)),
            None => None,
        }
    }
}

/// One row of the table.
pub struct TableRow {
    pub tick: u32,
    pub player: u64,
    pub name: String,
    /// `None` when a coordinate is `NaN`.
    pub position: Option<Position>,
    /// `None` for `NaN`.
    pub yaw: Option<i32>,
    /// `None` for `NaN`.
    pub pitch: Option<i32>,
}

/// The mathematical content of a [`TableRow`].
pub struct RowView {
    pub tick: u32,
    pub player: u64,
    pub name: Seq<char>,
    pub position: Option<Position>,
    pub yaw: Option<i32>,
    pub pitch: Option<i32>,
}

impl View for TableRow {
    type V = RowView;

    open spec fn view(&self) -> RowView {
        RowView {
            tick: self.tick,
            player: self.player,
            name: self.name@,
            position: self.position,
            yaw: self.yaw,
            pitch: self.pitch,
        }
    }
}

/// The row that the ten fields `f` make (tick, player id, name, three
/// coordinates, yaw, pitch, and two change columns that are not read), or
/// `None` when the record is malformed.
pub open spec fn row_of(f: Seq<Seq<char>>) -> Option<RowView> {
    if f.len() != 10 {
        None
    } else {
        match (parse_u64(f[0]), parse_u64(f[1])) {
            (Some(tick), Some(player)) => match (
                cell_value(f[3]),
                cell_value(f[4]),
                cell_value(f[5]),
                cell_value(f[6]),
                cell_value(f[7]),
            ) {
                (Some(x), Some(y), Some(z), Some(yaw), Some(pitch)) => if tick <= u32::MAX {
                    Some(
                        RowView {
                            tick: tick as u32,
                            player,
                            name: f[2],
                            position: match (x, y, z) {
                                (Some(x), Some(y), Some(z)) => Some(Position { x, y, z }),
                                _ => None,
                            },
                            yaw,
                            pitch,
                        },
                    )
                } else {
                    None
                },
                _ => None,
            },
            _ => None,
        }
    }
}

/// The rows of the records, in order, and the number of records skipped as
/// malformed.
pub open spec fn table_of(recs: Seq<Option<Seq<Seq<char>>>>) -> (Seq<RowView>, nat)
    decreases recs.len(),
{
    if recs.len() == 0 {
        (Seq::empty(), 0)
    } else {
        let (rows, skipped) = table_of(recs.drop_last());
        match recs.last() {
            Some(f) => match row_of(f) {
                Some(r) => (rows.push(r), skipped),
                None => (rows, skipped + 1),
            },
            None => (rows, skipped + 1),
        }
    }
}

/// `digits[from..to]` is one or more digits.
fn is_digit_run(t: &Vec<char>, from: usize, to: usize) -> (r: bool)
    requires
        from <= to <= t@.len(),
    ensures
        r == digit_run(t@.subrange(from as int, to as int)),
{
    if from == to {
        return false;
    }
    let mut i = from;
    while i < to
        invariant
            from <= i <= to <= t@.len(),
            forall|k: int| from <= k < i ==> is_digit(#[trigger] t@[k]),
        decreases to - i,
    {
        if !('0' <= t[i] && t[i] <= '9') {
            assert(!is_digit(t@.subrange(from as int, to as int)[i - from]));
            return false;
        }
        i = i + 1;
    }
    assert(all_digits(t@.subrange(from as int, to as int)));
    true
}

/// The value of a run of digits, if it fits a `u64`.
fn run_value(t: &Vec<char>, from: usize, to: usize) -> (r: Option<u64>)
    requires
        from <= to <= t@.len(),
        digit_run(t@.subrange(from as int, to as int)),
    ensures
        match r {
            Some(v) => v == digits_value(t@.subrange(from as int, to as int)),
            None => digits_value(t@.subrange(from as int, to as int)) > u64::MAX,
        },
{
    let ghost u = t@.subrange(from as int, to as int);
    assert(!(u.len() > 0 && u[0] == '+'));
    assert(crate::numeric::unsigned_part(u) == u);
    parse_range(t, from, to)
}

fn digit_of(c: char) -> (r: u128)
    requires
        is_digit(c),
    ensures
        r == digit_value(c),
{
    (c as u32 - '0' as u32) as u128
}

/// Reads a number cell.
pub fn cell(t: &Vec<char>) -> (r: Option<Option<i32>>)
    ensures
        r == cell_value(t@),
{
    let n = t.len();
    if n == 3 && (t[0] == 'n' || t[0] == 'N') && (t[1] == 'a' || t[1] == 'A') && (t[2] == 'n'
        || t[2] == 'N') {
        return Some(None);
    }
    let neg = n > 0 && t[0] == '-';
    let start: usize = if n > 0 && (t[0] == '-' || t[0] == '+') {
        1
    } else {
        0
    };
    let ghost u = t@.subrange(start as int, n as int);
    assert(u =~= if t@.len() > 0 && (t@[0] == '-' || t@[0] == '+') {
        t@.drop_first()
    } else {
        t@
    });
    let ulen = n - start;
    let value: u128;
    if is_digit_run(t, start, n) {
        match run_value(t, start, n) {
            Some(v) => {
                value = v as u128 * 100;
            },
            None => {
                return None;
            },
        }
    } else if ulen >= 3 && t[n - 2] == '.' && is_digit_run(t, start, n - 2) && '0' <= t[n - 1]
        && t[n - 1] <= '9' {
        assert(u.take(ulen - 2) =~= t@.subrange(start as int, n - 2));
        assert(u[ulen - 2] == t@[n - 2] && u[ulen - 1] == t@[n - 1]);
        match run_value(t, start, n - 2) {
            Some(v) => {
                value = v as u128 * 100 + digit_of(t[n - 1]) * 10;
            },
            None => {
                return None;
            },
        }
    } else if ulen >= 4 && t[n - 3] == '.' && is_digit_run(t, start, n - 3) && '0' <= t[n - 2]
        && t[n - 2] <= '9' && '0' <= t[n - 1] && t[n - 1] <= '9' {
        assert(u.take(ulen - 3) =~= t@.subrange(start as int, n - 3));
        assert(u[ulen - 3] == t@[n - 3] && u[ulen - 2] == t@[n - 2] && u[ulen - 1] == t@[n - 1]);
        match run_value(t, start, n - 3) {
            Some(v) => {
                value = v as u128 * 100 + digit_of(t[n - 2]) * 10 + digit_of(t[n - 1]);
            },
            None => {
                return None;
            },
        }
    } else {
        proof {
            if ulen >= 3 {
                assert(u.take(ulen - 2) =~= t@.subrange(start as int, n - 2));
                assert(u[ulen - 2] == t@[n - 2] && u[ulen - 1] == t@[n - 1]);
            }
            if ulen >= 4 {
                assert(u.take(ulen - 3) =~= t@.subrange(start as int, n - 3));
                assert(u[ulen - 3] == t@[n - 3] && u[ulen - 2] == t@[n - 2]);
            }
        }
        return None;
    }
    if neg {
        if value > 0x8000_0000 {
            return None;
        }
        Some(Some((0 - value as i64) as i32))
    } else {
        if value > 0x7FFF_FFFF {
            return None;
        }
        Some(Some(value as i32))
    }
}

/// The fields of a record, as text.
pub open spec fn fields_view(f: Seq<String>) -> Seq<Seq<char>> {
    f.map_values(|s: String| s@)
}

/// Reads an unsigned whole-number field.
fn whole_field(f: &String) -> (r: Option<u64>)
    ensures
        r == parse_u64(f@),
{
    let chars = chars_of(f.as_str());
    assert(chars@.subrange(0, chars@.len() as int) =~= f@);
    parse_range(&chars, 0, chars.len())
}

/// Reads a number cell of a field.
fn cell_field(f: &String) -> (r: Option<Option<i32>>)
    ensures
        r == cell_value(f@),
{
    let chars = chars_of(f.as_str());
    cell(&chars)
}

/// Reads one record as a row.
pub fn parse_row(fields: &Vec<String>) -> (r: Option<TableRow>)
    ensures
        match r {
            Some(x) => row_of(fields_view(fields@)) == Some(x@),
            None => row_of(fields_view(fields@)) is None,
        },
{
    let ghost f = fields_view(fields@);
    if fields.len() != 10 {
        return None;
    }
    assert(f[0] == fields@[0]@ && f[1] == fields@[1]@ && f[2] == fields@[2]@);
    assert(f[3] == fields@[3]@ && f[4] == fields@[4]@ && f[5] == fields@[5]@);
    assert(f[6] == fields@[6]@ && f[7] == fields@[7]@);
    let tick = whole_field(&fields[0]);
    let player = whole_field(&fields[1]);
    let x = cell_field(&fields[3]);
    let y = cell_field(&fields[4]);
    let z = cell_field(&fields[5]);
    let yaw = cell_field(&fields[6]);
    let pitch = cell_field(&fields[7]);
    match (tick, player, x, y, z, yaw, pitch) {
        (Some(tick), Some(player), Some(x), Some(y), Some(z), Some(yaw), Some(pitch)) => {
            if tick > u32::MAX as u64 {
                return None;
            }
            let position = match (x, y, z) {
                (Some(x), Some(y), Some(z)) => Some(Position { x, y, z }),
                _ => None,
            };
            Some(
                TableRow {
                    tick: tick as u32,
                    player,
                    name: fields[2].clone(),
                    position,
                    yaw,
                    pitch,
                },
            )
        },
        _ => None,
    }
}

/// Reads the rows of records: the rows, in order, and the number of
/// records skipped as malformed.
pub fn rows_from_records(records: &Vec<Option<Vec<String>>>) -> (r: (Vec<TableRow>, usize))
    ensures
        (r.0@.map_values(|x: TableRow| x@), r.1 as nat) == table_of(records_view(records@)),
{
    let ghost recs = records_view(records@);
    let mut rows: Vec<TableRow> = Vec::new();
    let mut skipped: usize = 0;
    let mut i: usize = 0;
    while i < records.len()
        invariant
            i <= records@.len(),
            recs == records_view(records@),
            skipped <= i,
            (rows@.map_values(|x: TableRow| x@), skipped as nat) == table_of(recs.take(i as int)),
        decreases records.len() - i,
    {
        assert(recs.take(i + 1).drop_last() =~= recs.take(i as int));
        assert(recs.take(i + 1).last() == recs[i as int]);
        match &records[i] {
            Some(fields) => {
                assert(recs[i as int] == Some(fields_view(fields@)));
                match parse_row(fields) {
                    Some(row) => {
                        let ghost before = rows@;
                        rows.push(row);
                        assert(rows@.map_values(|x: TableRow| x@) =~= before.map_values(
                            |x: TableRow| x@,
                        ).push(row@));
                    },
                    None => {
                        skipped = skipped + 1;
                    },
                }
            },
            None => {
                skipped = skipped + 1;
            },
        }
        i = i + 1;
    }
    assert(recs.take(i as int) =~= recs);
    (rows, skipped)
}

/// Reads the rows of the tabular form `text`: the rows, in order, and the
/// number of records skipped as malformed.
pub fn parse_table(text: &[u8]) -> (r: (Vec<TableRow>, usize))
    ensures
        (r.0@.map_values(|x: TableRow| x@), r.1 as nat) == table_of(csv_records_of(text@)),
{
    let records = read_records(text);
    rows_from_records(&records)
}

/// `s` after one row: the name noted when known, and the sample appended
/// when both its yaw and pitch are numbers.
pub open spec fn load_row(s: Seq<SeriesView>, r: RowView) -> Seq<SeriesView> {
    let named = if r.name.len() > 0 {
        renamed(s, r.player, r.name)
    } else {
        s
    };
    match (r.yaw, r.pitch) {
        (Some(yaw), Some(pitch)) => appended(
            named,
            r.player,
            AngleSample { tick: r.tick, pitch, yaw, roll: 0, position: r.position },
        ),
        _ => named,
    }
}

/// The store that the rows make, from an empty one.
pub open spec fn loaded(rows: Seq<RowView>) -> Seq<SeriesView>
    decreases rows.len(),
{
    if rows.len() == 0 {
        Seq::empty()
    } else {
        load_row(loaded(rows.drop_last()), rows.last())
    }
}

/// Rebuilds a sample store from rows; a row with a `NaN` yaw or pitch is
/// no observation.
pub fn load_rows(rows: &Vec<TableRow>) -> (r: SampleStore)
    ensures
        r.wf(),
        r@ == loaded(rows@.map_values(|x: TableRow| x@)),
{
    let ghost v = rows@.map_values(|x: TableRow| x@);
    let mut store = SampleStore::new();
    let mut i: usize = 0;
    while i < rows.len()
        invariant
            i <= rows@.len() == v.len(),
            v == rows@.map_values(|x: TableRow| x@),
            store.wf(),
            store@ == loaded(v.take(i as int)),
        decreases rows.len() - i,
    {
        let row = &rows[i];
        assert(v.take(i + 1).drop_last() =~= v.take(i as int));
        assert(v.take(i + 1).last() == row@);
        if row.name.as_str().unicode_len() > 0 {
            store.set_name(row.player, row.name.clone());
        }
        match (row.yaw, row.pitch) {
            (Some(yaw), Some(pitch)) => {
                store.append(
                    row.player,
                    AngleSample { tick: row.tick, pitch, yaw, roll: 0, position: row.position },
                );
            },
            _ => {},
        }
        i = i + 1;
    }
    assert(v.take(i as int) =~= v);
    store
}

/// Reads a session back from its tabular form: the rebuilt store and the
/// number of records skipped as malformed.
pub fn read_session(text: &[u8]) -> (r: (SampleStore, usize))
    ensures
        r.0.wf(),
        r.0@ == loaded(table_of(csv_records_of(text@)).0),
        r.1 == table_of(csv_records_of(text@)).1,
{
    let (rows, skipped) = parse_table(text);
    let store = load_rows(&rows);
    (store, skipped)
}

} // verus!
