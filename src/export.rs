//! The flat tabular form of a sample store: one comma-separated line per
//! stored sample, after a header line.
use crate::angle::abs;
use crate::sample::{delta_in_range, AngleDelta, Entry, PlayerSeries, SampleStore, SeriesView};
use vstd::prelude::*;
use vstd::string::StringSliceAdditionalSpecFns;

verus! {

/// Decimal digits of `n`, most significant first, as ASCII.
pub open spec fn digits(n: nat) -> Seq<u8>
    decreases n,
{
    if n < 10 {
        seq![(48 + n) as u8]
    } else {
        digits(n / 10).push((48 + n % 10) as u8)
    }
}

/// A value in hundredths written with two decimals: `-5` is `-0.05`.
pub open spec fn fixed2(v: int) -> Seq<u8> {
    let a = abs(v);
    (if v < 0 {
        seq![45u8]
    } else {
        Seq::empty()
    }) + digits((a / 100) as nat) + seq![46u8, (48 + (a % 100) / 10) as u8, (48 + a % 10) as u8]
}

/// The token for a missing value.
pub open spec fn nan_text() -> Seq<u8> {
    seq![78u8, 97u8, 78u8]
}

/// `s` without its commas.
pub open spec fn strip_commas(s: Seq<u8>) -> Seq<u8>
    decreases s.len(),
{
    if s.len() == 0 {
        s
    } else if s.last() == 44u8 {
        strip_commas(s.drop_last())
    } else {
        strip_commas(s.drop_last()).push(s.last())
    }
}

/// The header line.
pub open spec fn header_text() -> Seq<u8> {
    "tick,player_id,player_name,origin_x,origin_y,origin_z,viewangle,pitchangle,yaw_delta,pitch_delta\n".spec_bytes()
}

/// The name column of `player`: its name without commas, or `Player <id>`
/// while unnamed.
pub open spec fn name_text(player: u64, name: Seq<char>) -> Seq<u8> {
    if name.len() == 0 {
        "Player ".spec_bytes() + digits(player as nat)
    } else {
        strip_commas(vstd::utf8::encode_utf8(name))
    }
}

/// The yaw and pitch change columns.
pub open spec fn delta_text(d: Option<AngleDelta>) -> Seq<u8> {
    match d {
        Some(d) => fixed2(d.yaw as int) + seq![44u8] + fixed2(d.pitch as int),
        None => nan_text() + seq![44u8] + nan_text(),
    }
}

/// The position columns; a missing position is written as the origin.
pub open spec fn position_text(e: Entry) -> Seq<u8> {
    match e.sample.position {
        Some(p) => fixed2(p.x as int) + seq![44u8] + fixed2(p.y as int) + seq![44u8] + fixed2(
            p.z as int,
        ),
        None => fixed2(0) + seq![44u8] + fixed2(0) + seq![44u8] + fixed2(0),
    }
}

/// The line of one entry.
pub open spec fn row_text(player: u64, name: Seq<u8>, e: Entry) -> Seq<u8> {
    digits(e.sample.tick as nat) + seq![44u8] + digits(player as nat) + seq![44u8] + name + seq![
        44u8,
    ] + position_text(e) + seq![44u8] + fixed2(e.sample.yaw as int) + seq![44u8] + fixed2(
        e.sample.pitch as int,
    ) + seq![44u8] + delta_text(e.delta) + seq![10u8]
}

/// The lines of a series' entries.
pub open spec fn rows_text(player: u64, name: Seq<u8>, es: Seq<Entry>) -> Seq<u8>
    decreases es.len(),
{
    if es.len() == 0 {
        Seq::empty()
    } else {
        rows_text(player, name, es.drop_last()) + row_text(player, name, es.last())
    }
}

/// The lines of every series, in order.
pub open spec fn series_text(s: Seq<SeriesView>) -> Seq<u8>
    decreases s.len(),
{
    if s.len() == 0 {
        Seq::empty()
    } else {
        series_text(s.drop_last()) + rows_text(
            s.last().player,
            name_text(s.last().player, s.last().name),
            s.last().entries,
        )
    }
}

/// The whole table.
pub open spec fn table_text(s: Seq<SeriesView>) -> Seq<u8> {
    header_text() + series_text(s)
}

/// Appends the decimal digits of `n`.
pub fn push_digits(out: &mut Vec<u8>, n: u64)
    ensures
        final(out)@ == old(out)@ + digits(n as nat),
    decreases n,
{
    if n >= 10 {
        push_digits(out, n / 10);
    }
    out.push((48 + n % 10) as u8);
    assert(final(out)@ =~= old(out)@ + digits(n as nat));
}

/// Appends `v` hundredths with two decimals.
pub fn push_fixed2(out: &mut Vec<u8>, v: i64)
    requires
        v > i64::MIN,
    ensures
        final(out)@ == old(out)@ + fixed2(v as int),
{
    let ghost start = old(out)@;
    let a: u64 = if v < 0 {
        out.push(45u8);
        (-v) as u64
    } else {
        v as u64
    };
    let ghost signed = out@;
    push_digits(out, a / 100);
    out.push(46u8);
    out.push((48 + (a % 100) / 10) as u8);
    out.push((48 + a % 10) as u8);
    assert(out@ =~= start + fixed2(v as int));
}

/// Appends the bytes of `s`.
pub fn push_str(out: &mut Vec<u8>, s: &str)
    ensures
        final(out)@ == old(out)@ + s.spec_bytes(),
{
    let b = s.as_bytes();
    let ghost start = old(out)@;
    let mut i: usize = 0;
    while i < b.len()
        invariant
            i <= b@.len(),
            b@ == s.spec_bytes(),
            out@ == start + b@.take(i as int),
        decreases b.len() - i,
    {
        out.push(b[i]);
        assert(out@ =~= start + b@.take(i + 1));
        i = i + 1;
    }
    assert(b@.take(i as int) =~= b@);
}

/// The name column of `player`.
pub fn name_column(player: u64, name: &String) -> (r: Vec<u8>)
    ensures
        r@ == name_text(player, name@),
{
    let mut r: Vec<u8> = Vec::new();
    if name.as_str().unicode_len() == 0 {
        push_str(&mut r, "Player ");
        push_digits(&mut r, player);
        assert(r@ =~= name_text(player, name@));
        return r;
    }
    let b = name.as_str().as_bytes();
    let mut i: usize = 0;
    while i < b.len()
        invariant
            i <= b@.len(),
            b@ == vstd::utf8::encode_utf8(name@),
            r@ == strip_commas(b@.take(i as int)),
        decreases b.len() - i,
    {
        assert(b@.take(i + 1).drop_last() =~= b@.take(i as int));
        if b[i] != 44u8 {
            r.push(b[i]);
        }
        i = i + 1;
    }
    assert(b@.take(i as int) =~= b@);
    r
}

fn push_bytes(out: &mut Vec<u8>, b: &Vec<u8>)
    ensures
        final(out)@ == old(out)@ + b@,
{
    let ghost start = old(out)@;
    let mut i: usize = 0;
    while i < b.len()
        invariant
            i <= b@.len(),
            out@ == start + b@.take(i as int),
        decreases b.len() - i,
    {
        out.push(b[i]);
        assert(out@ =~= start + b@.take(i + 1));
        i = i + 1;
    }
    assert(b@.take(i as int) =~= b@);
}

fn push_position(out: &mut Vec<u8>, e: &Entry)
    ensures
        final(out)@ == old(out)@ + position_text(*e),
{
    let ghost start = old(out)@;
    let (x, y, z) = match e.sample.position {
        Some(p) => (p.x as i64, p.y as i64, p.z as i64),
        None => (0i64, 0i64, 0i64),
    };
    push_fixed2(out, x);
    out.push(44u8);
    push_fixed2(out, y);
    out.push(44u8);
    push_fixed2(out, z);
    assert(out@ =~= start + position_text(*e));
}

fn push_delta(out: &mut Vec<u8>, delta: Option<AngleDelta>)
    requires
        delta matches Some(d) ==> delta_in_range(d),
    ensures
        final(out)@ == old(out)@ + delta_text(delta),
{
    let ghost start = old(out)@;
    match delta {
        Some(d) => {
            push_fixed2(out, d.yaw as i64);
            out.push(44u8);
            push_fixed2(out, d.pitch);
        },
        None => {
            out.push(78u8);
            out.push(97u8);
            out.push(78u8);
            out.push(44u8);
            out.push(78u8);
            out.push(97u8);
            out.push(78u8);
        },
    }
    assert(out@ =~= start + delta_text(delta));
}

/// The tick and player columns.
pub open spec fn ids_text(player: u64, e: Entry) -> Seq<u8> {
    digits(e.sample.tick as nat) + seq![44u8] + digits(player as nat) + seq![44u8]
}

/// The yaw and pitch columns.
pub open spec fn angles_text(e: Entry) -> Seq<u8> {
    fixed2(e.sample.yaw as int) + seq![44u8] + fixed2(e.sample.pitch as int)
}

proof fn lemma_row_parts(player: u64, name: Seq<u8>, e: Entry)
    ensures
        row_text(player, name, e) == ids_text(player, e) + name + seq![44u8] + position_text(e)
            + seq![44u8] + angles_text(e) + seq![44u8] + delta_text(e.delta) + seq![10u8],
{
    assert(row_text(player, name, e) =~= ids_text(player, e) + name + seq![44u8] + position_text(
        e,
    ) + seq![44u8] + angles_text(e) + seq![44u8] + delta_text(e.delta) + seq![10u8]);
}

/// Appends the line of one entry.
fn push_row(out: &mut Vec<u8>, player: u64, name: &Vec<u8>, e: &Entry)
    requires
        e.delta matches Some(d) ==> delta_in_range(d),
    ensures
        final(out)@ == old(out)@ + row_text(player, name@, *e),
{
    let ghost s0 = old(out)@;
    push_digits(out, e.sample.tick as u64);
    out.push(44u8);
    push_digits(out, player);
    out.push(44u8);
    assert(out@ =~= s0 + ids_text(player, *e));
    let ghost s1 = out@;
    push_bytes(out, name);
    out.push(44u8);
    let ghost s2 = out@;
    push_position(out, e);
    out.push(44u8);
    let ghost s3 = out@;
    push_fixed2(out, e.sample.yaw as i64);
    out.push(44u8);
    push_fixed2(out, e.sample.pitch as i64);
    assert(out@ =~= s3 + angles_text(*e));
    out.push(44u8);
    let ghost s4 = out@;
    push_delta(out, e.delta);
    out.push(10u8);
    proof {
        lemma_row_parts(player, name@, *e);
        assert(s2 =~= s0 + ids_text(player, *e) + name@ + seq![44u8]);
        assert(s4 =~= s2 + position_text(*e) + seq![44u8] + angles_text(*e) + seq![44u8]);
        assert(out@ =~= s4 + delta_text(e.delta) + seq![10u8]);
        assert(out@ =~= s0 + row_text(player, name@, *e));
    }
}

impl SampleStore {
    /// The tabular form of every stored sample: a header line, then one line
    /// per sample, series by series in order of first appearance.
    pub fn export(&self) -> (r: Vec<u8>)
        requires
            self.wf(),
        ensures
            r@ == table_text(self@),
    {
        let series = self.series();
        let ghost v = self@;
        let mut out: Vec<u8> = Vec::new();
        push_str(
            &mut out,
            "tick,player_id,player_name,origin_x,origin_y,origin_z,viewangle,pitchangle,yaw_delta,pitch_delta\n",
        );
        assert(out@ =~= header_text() + series_text(v.take(0)));
        let mut i: usize = 0;
        while i < series.len()
            invariant
                i <= series@.len() == v.len(),
                series@.map_values(|p: PlayerSeries| p@) == v,
                crate::sample::store_wf(v),
                out@ == header_text() + series_text(v.take(i as int)),
            decreases series.len() - i,
        {
            let p = &series[i];
            assert(v[i as int] == p@);
            let name = name_column(p.player, &p.name);
            let ghost before = out@;
            proof {
                assert(crate::sample::entries_wf(v[i as int].entries));
                crate::sample::lemma_wf_in_range(p.entries@);
            }
            let mut j: usize = 0;
            while j < p.entries.len()
                invariant
                    j <= p.entries@.len(),
                    crate::sample::deltas_in_range(p.entries@),
                    out@ == before + rows_text(p.player, name@, p.entries@.take(j as int)),
                decreases p.entries.len() - j,
            {
                assert(p.entries@[j as int].delta matches Some(d) ==> delta_in_range(d));
                push_row(&mut out, p.player, &name, &p.entries[j]);
                assert(p.entries@.take(j + 1).drop_last() =~= p.entries@.take(j as int));
                assert(out@ =~= before + rows_text(p.player, name@, p.entries@.take(j + 1)));
                j = j + 1;
            }
            assert(p.entries@.take(j as int) =~= p.entries@);
            assert(v.take(i + 1).drop_last() =~= v.take(i as int));
            assert(out@ =~= header_text() + series_text(v.take(i + 1)));
            i = i + 1;
        }
        assert(v.take(i as int) =~= v);
        out
    }
}

/// Exporting depends on the stored content alone: exporting a store twice
/// with no append in between, or two stores of equal content, gives
/// byte-identical tables.
pub proof fn lemma_export_repeatable(a: &SampleStore, b: &SampleStore)
    requires
        a@ == b@,
    ensures
        table_text(a@) == table_text(b@),
{
}

} // verus!
