//! What is shown and kept of the runs: a table, a file of comma-separated values, and a line
//! per run.

use crate::metrics::{Metrics, MetricsState};
use crate::percentile::{percentile, Percentile};
use crate::stack::{law_words_for_stacks, name_of_stack, stack_name, stack_of_token, Stack};
use crate::text::{
    decimal, is_digit, is_whitespace, join, joined, law_decimal_reads_back,
    law_padded_text_is_right_aligned, lemma_trimmed, pad_left, padded, push_decimal, texts, trimmed,
    unsigned_value,
};
use vstd::prelude::*;

verus! {

/// The figures of a run that are no whole numbers, as they are shown.
#[derive(Debug)]
pub struct Figures {
    pub delivery_percent: String,
    pub jitter_us: String,
    pub goodput_mbps: String,
    pub overhead: String,
    pub cpu_avg: String,
    pub mem_avg: String,
}

/// What is reported of a run.
#[derive(Debug)]
pub struct BenchRow {
    pub stack: Stack,
    pub payload: usize,
    pub requested: usize,
    pub sent: u64,
    pub delivered: u64,
    pub publish_failed: u64,
    pub dial_ms: u128,
    pub median_us: Option<u64>,
    pub p95_us: Option<u64>,
    pub p99_us: Option<u64>,
    pub figures: Figures,
}

/// What is reported of a run with these metrics.
pub open spec fn row_of(
    stack: Stack,
    payload: usize,
    requested: usize,
    dial_ms: u128,
    m: MetricsState,
    figures: Figures,
) -> BenchRow {
    BenchRow {
        stack,
        payload,
        requested,
        sent: m.counts.data_sent,
        delivered: m.counts.data_delivered,
        publish_failed: m.counts.publish_failed,
        dial_ms,
        median_us: percentile(m.rtt_us, Percentile::Median),
        p95_us: percentile(m.rtt_us, Percentile::P95),
        p99_us: percentile(m.rtt_us, Percentile::P99),
        figures,
    }
}

/// What is reported of a run with these metrics.
pub fn bench_row(
    stack: Stack,
    payload: usize,
    requested: usize,
    dial_ms: u128,
    metrics: &Metrics,
    figures: Figures,
) -> (r: BenchRow)
    ensures
        r == row_of(stack, payload, requested, dial_ms, metrics@, figures),
{
    let counts = metrics.counts();
    BenchRow {
        stack,
        payload,
        requested,
        sent: counts.data_sent,
        delivered: counts.data_delivered,
        publish_failed: counts.publish_failed,
        dial_ms,
        median_us: metrics.median_rtt_us(),
        p95_us: metrics.p95_rtt_us(),
        p99_us: metrics.p99_rtt_us(),
        figures,
    }
}

/// A number in decimal digits.
fn decimal_text(n: u128) -> (r: String)
    ensures
        r@ == decimal(n as nat),
{
    let mut out = String::new();
    push_decimal(&mut out, n);
    assert(out@ =~= decimal(n as nat));
    out
}

/// A time in the table: digits, or that there is none.
pub open spec fn time_or_none(us: Option<u64>) -> Seq<char> {
    match us {
        Some(n) => decimal(n as nat),
        None => "n/a"@,
    }
}

/// A time in the file: digits, zero where there is none.
pub open spec fn time_or_zero(us: Option<u64>) -> Seq<char> {
    match us {
        Some(n) => decimal(n as nat),
        None => decimal(0),
    }
}

fn show_time_or_none(us: Option<u64>) -> (r: String)
    ensures
        r@ == time_or_none(us),
{
    match us {
        Some(n) => decimal_text(n as u128),
        None => "n/a".to_owned(),
    }
}

fn show_time_or_zero(us: Option<u64>) -> (r: String)
    ensures
        r@ == time_or_zero(us),
{
    decimal_text(us.unwrap_or(0) as u128)
}

/// The names of the columns of the file.
pub open spec fn csv_columns() -> Seq<Seq<char>> {
    seq![
        "stack"@,
        "payload"@,
        "requested"@,
        "sent"@,
        "delivered"@,
        "publish_failed"@,
        "dial_ms"@,
        "delivery_percent"@,
        "median_us"@,
        "p95_us"@,
        "p99_us"@,
        "jitter_us"@,
        "goodput_mbps"@,
        "overhead"@,
        "cpu_avg"@,
        "mem_avg_mb"@,
    ]
}

/// The cells of a run in the file.
pub open spec fn csv_cells(row: BenchRow) -> Seq<Seq<char>> {
    seq![
        name_of_stack(row.stack),
        decimal(row.payload as nat),
        decimal(row.requested as nat),
        decimal(row.sent as nat),
        decimal(row.delivered as nat),
        decimal(row.publish_failed as nat),
        decimal(row.dial_ms as nat),
        row.figures.delivery_percent@,
        time_or_zero(row.median_us),
        time_or_zero(row.p95_us),
        time_or_zero(row.p99_us),
        row.figures.jitter_us@,
        row.figures.goodput_mbps@,
        row.figures.overhead@,
        row.figures.cpu_avg@,
        row.figures.mem_avg@,
    ]
}

/// The heads of the columns of the table.
pub open spec fn table_heads() -> Seq<Seq<char>> {
    seq![
        padded("stack"@, 6),
        padded("payload"@, 7),
        padded("req"@, 8),
        padded("sent"@, 7),
        padded("deliv"@, 7),
        padded("fail"@, 7),
        padded("dialms"@, 7),
        padded("deliv%"@, 8),
        padded("medianus"@, 9),
        padded("p95us"@, 9),
        padded("p99us"@, 9),
        padded("jitter"@, 8),
        padded("goodput"@, 9),
        padded("overhead"@, 9),
        padded("cpu"@, 7),
        padded("mem"@, 7),
    ]
}

/// The cells of a run in the table.
pub open spec fn table_cells(row: BenchRow) -> Seq<Seq<char>> {
    seq![
        padded(name_of_stack(row.stack), 6),
        padded(decimal(row.payload as nat), 7),
        padded(decimal(row.requested as nat), 8),
        padded(decimal(row.sent as nat), 7),
        padded(decimal(row.delivered as nat), 7),
        padded(decimal(row.publish_failed as nat), 7),
        padded(decimal(row.dial_ms as nat), 7),
        padded(row.figures.delivery_percent@, 7) + "%"@,
        padded(time_or_none(row.median_us), 9),
        padded(time_or_none(row.p95_us), 9),
        padded(time_or_none(row.p99_us), 9),
        padded(row.figures.jitter_us@, 7),
        padded(row.figures.goodput_mbps@, 8),
        padded(row.figures.overhead@, 8),
        padded(row.figures.cpu_avg@, 6),
        padded(row.figures.mem_avg@, 6),
    ]
}

/// The line of dashes above, below and inside the table.
pub open spec fn rule() -> Seq<char> {
    "-------------------------------------------------------------------------------------------------------------------------------------------------------------------"@
}

/// A line of the table.
pub open spec fn table_line(cells: Seq<Seq<char>>) -> Seq<char> {
    joined(cells, " | "@)
}

/// A line of the file.
pub open spec fn csv_line(cells: Seq<Seq<char>>) -> Seq<char> {
    joined(cells, ","@)
}

/// The lines of the table: between empty lines, the heads between dashes, the runs, and
/// dashes.
pub open spec fn table(rows: Seq<BenchRow>) -> Seq<Seq<char>> {
    seq![Seq::empty(), rule(), table_line(table_heads()), rule()] + rows.map_values(
        |row: BenchRow| table_line(table_cells(row)),
    ) + seq![rule(), Seq::empty()]
}

/// The lines of the file: the names of the columns, then the runs.
pub open spec fn csv(rows: Seq<BenchRow>) -> Seq<Seq<char>> {
    seq![csv_line(csv_columns())] + rows.map_values(|row: BenchRow| csv_line(csv_cells(row)))
}

/// The first line of the file.
fn csv_head() -> (r: String)
    ensures
        r@ == csv_line(csv_columns()),
{
    let mut cells: Vec<String> = Vec::new();
    cells.push("stack".to_owned());
    cells.push("payload".to_owned());
    cells.push("requested".to_owned());
    cells.push("sent".to_owned());
    cells.push("delivered".to_owned());
    cells.push("publish_failed".to_owned());
    cells.push("dial_ms".to_owned());
    cells.push("delivery_percent".to_owned());
    cells.push("median_us".to_owned());
    cells.push("p95_us".to_owned());
    cells.push("p99_us".to_owned());
    cells.push("jitter_us".to_owned());
    cells.push("goodput_mbps".to_owned());
    cells.push("overhead".to_owned());
    cells.push("cpu_avg".to_owned());
    cells.push("mem_avg_mb".to_owned());
    assert(texts(cells@) =~= csv_columns());
    join(&cells, ",")
}

/// The line of a run in the file.
fn csv_row(row: &BenchRow) -> (r: String)
    ensures
        r@ == csv_line(csv_cells(*row)),
{
    let mut cells: Vec<String> = Vec::new();
    cells.push(stack_name(row.stack).to_owned());
    cells.push(decimal_text(row.payload as u128));
    cells.push(decimal_text(row.requested as u128));
    cells.push(decimal_text(row.sent as u128));
    cells.push(decimal_text(row.delivered as u128));
    cells.push(decimal_text(row.publish_failed as u128));
    cells.push(decimal_text(row.dial_ms));
    cells.push(row.figures.delivery_percent.clone());
    cells.push(show_time_or_zero(row.median_us));
    cells.push(show_time_or_zero(row.p95_us));
    cells.push(show_time_or_zero(row.p99_us));
    cells.push(row.figures.jitter_us.clone());
    cells.push(row.figures.goodput_mbps.clone());
    cells.push(row.figures.overhead.clone());
    cells.push(row.figures.cpu_avg.clone());
    cells.push(row.figures.mem_avg.clone());
    assert(texts(cells@) =~= csv_cells(*row));
    join(&cells, ",")
}

/// The line of the heads of the table.
fn table_head() -> (r: String)
    ensures
        r@ == table_line(table_heads()),
{
    let mut cells: Vec<String> = Vec::new();
    cells.push(pad_left("stack", 6));
    cells.push(pad_left("payload", 7));
    cells.push(pad_left("req", 8));
    cells.push(pad_left("sent", 7));
    cells.push(pad_left("deliv", 7));
    cells.push(pad_left("fail", 7));
    cells.push(pad_left("dialms", 7));
    cells.push(pad_left("deliv%", 8));
    cells.push(pad_left("medianus", 9));
    cells.push(pad_left("p95us", 9));
    cells.push(pad_left("p99us", 9));
    cells.push(pad_left("jitter", 8));
    cells.push(pad_left("goodput", 9));
    cells.push(pad_left("overhead", 9));
    cells.push(pad_left("cpu", 7));
    cells.push(pad_left("mem", 7));
    assert(texts(cells@) =~= table_heads());
    join(&cells, " | ")
}

/// The line of a run in the table.
fn table_row(row: &BenchRow) -> (r: String)
    ensures
        r@ == table_line(table_cells(*row)),
{
    let mut cells: Vec<String> = Vec::new();
    cells.push(pad_left(stack_name(row.stack), 6));
    cells.push(pad_left(decimal_text(row.payload as u128).as_str(), 7));
    cells.push(pad_left(decimal_text(row.requested as u128).as_str(), 8));
    cells.push(pad_left(decimal_text(row.sent as u128).as_str(), 7));
    cells.push(pad_left(decimal_text(row.delivered as u128).as_str(), 7));
    cells.push(pad_left(decimal_text(row.publish_failed as u128).as_str(), 7));
    cells.push(pad_left(decimal_text(row.dial_ms).as_str(), 7));
    cells.push(pad_left(row.figures.delivery_percent.as_str(), 7).concat("%"));
    cells.push(pad_left(show_time_or_none(row.median_us).as_str(), 9));
    cells.push(pad_left(show_time_or_none(row.p95_us).as_str(), 9));
    cells.push(pad_left(show_time_or_none(row.p99_us).as_str(), 9));
    cells.push(pad_left(row.figures.jitter_us.as_str(), 7));
    cells.push(pad_left(row.figures.goodput_mbps.as_str(), 8));
    cells.push(pad_left(row.figures.overhead.as_str(), 8));
    cells.push(pad_left(row.figures.cpu_avg.as_str(), 6));
    cells.push(pad_left(row.figures.mem_avg.as_str(), 6));
    assert(texts(cells@) =~= table_cells(*row));
    join(&cells, " | ")
}

/// The lines of the table of some runs.
pub fn table_lines(rows: &[BenchRow]) -> (r: Vec<String>)
    ensures
        texts(r@) == table(rows@),
{
    let mut lines: Vec<String> = Vec::new();
    lines.push(String::new());
    lines.push("-------------------------------------------------------------------------------------------------------------------------------------------------------------------".to_owned());
    lines.push(table_head());
    lines.push("-------------------------------------------------------------------------------------------------------------------------------------------------------------------".to_owned());
    let ghost shown = rows@.map_values(|row: BenchRow| table_line(table_cells(row)));
    let ghost above = seq![Seq::empty(), rule(), table_line(table_heads()), rule()];
    assert(texts(lines@) =~= above + shown.take(0));
    let mut i: usize = 0;
    while i < rows.len()
        invariant
            i <= rows.len(),
            shown == rows@.map_values(|row: BenchRow| table_line(table_cells(row))),
            texts(lines@) == above + shown.take(i as int),
        decreases rows.len() - i,
    {
        let ghost before = texts(lines@);
        lines.push(table_row(&rows[i]));
        assert(texts(lines@) =~= before.push(shown[i as int]));
        assert(texts(lines@) =~= above + shown.take(i + 1));
        i = i + 1;
    }
    assert(shown.take(rows@.len() as int) =~= shown);
    let ghost before = texts(lines@);
    lines.push("-------------------------------------------------------------------------------------------------------------------------------------------------------------------".to_owned());
    lines.push(String::new());
    assert(texts(lines@) =~= before + seq![rule(), Seq::empty()]);
    lines
}

/// A file of comma-separated values.
pub struct CsvFile {
    pub name: String,
    pub lines: Vec<String>,
}

/// The name of the file that is written at a time, in seconds.
pub open spec fn csv_name(seconds: u64) -> Seq<char> {
    "results_"@ + decimal(seconds as nat) + ".csv"@
}

/// The file of some runs, written at a time in seconds; none where there are no runs.
pub fn csv_file(rows: &[BenchRow], seconds: u64) -> (r: Option<CsvFile>)
    ensures
        r is None <==> rows@.len() == 0,
        r matches Some(file) ==> {
            &&& file.name@ == csv_name(seconds)
            &&& texts(file.lines@) == csv(rows@)
        },
{
    if rows.len() == 0 {
        return None;
    }
    let mut name = String::new();
    name.append("results_");
    push_decimal(&mut name, seconds as u128);
    name.append(".csv");
    assert(name@ =~= csv_name(seconds));
    let mut lines: Vec<String> = Vec::new();
    lines.push(csv_head());
    let ghost shown = rows@.map_values(|row: BenchRow| csv_line(csv_cells(row)));
    let ghost above = seq![csv_line(csv_columns())];
    assert(texts(lines@) =~= above + shown.take(0));
    let mut i: usize = 0;
    while i < rows.len()
        invariant
            i <= rows.len(),
            shown == rows@.map_values(|row: BenchRow| csv_line(csv_cells(row))),
            texts(lines@) == above + shown.take(i as int),
        decreases rows.len() - i,
    {
        let ghost before = texts(lines@);
        lines.push(csv_row(&rows[i]));
        assert(texts(lines@) =~= before.push(shown[i as int]));
        assert(texts(lines@) =~= above + shown.take(i + 1));
        i = i + 1;
    }
    assert(shown.take(rows@.len() as int) =~= shown);
    Some(CsvFile { name, lines })
}

/// A time as a value that may be absent.
pub open spec fn optional_time(us: Option<u64>) -> Seq<char> {
    match us {
        Some(n) => "Some("@ + decimal(n as nat) + ")"@,
        None => "None"@,
    }
}

/// The line that is shown after a run.
pub open spec fn progress(row: BenchRow) -> Seq<char> {
    "["@ + name_of_stack(row.stack) + "] "@ + decimal(row.payload as nat) + "B | "@ + decimal(
        row.delivered as nat,
    ) + "/"@ + decimal(row.requested as nat) + " | "@ + optional_time(row.median_us) + "us | "@
        + row.figures.goodput_mbps@ + " Mbps"@
}

/// The line that is shown after a run.
pub fn progress_line(row: &BenchRow) -> (r: String)
    ensures
        r@ == progress(*row),
{
    let mut out = String::new();
    out.append("[");
    out.append(stack_name(row.stack));
    out.append("] ");
    push_decimal(&mut out, row.payload as u128);
    out.append("B | ");
    push_decimal(&mut out, row.delivered as u128);
    out.append("/");
    push_decimal(&mut out, row.requested as u128);
    out.append(" | ");
    match row.median_us {
        Some(n) => {
            let mut some = String::new();
            some.append("Some(");
            push_decimal(&mut some, n as u128);
            some.append(")");
            assert(some@ =~= optional_time(row.median_us));
            out.append(some.as_str());
        },
        None => {
            out.append("None");
        },
    }
    out.append("us | ");
    out.append(row.figures.goodput_mbps.as_str());
    out.append(" Mbps");
    assert(out@ =~= progress(*row));
    out
}

/// Every line of the file has a cell for each column, and every line of the table one for
/// each head.
pub proof fn law_rows_fill_the_columns(row: BenchRow)
    ensures
        csv_cells(row).len() == csv_columns().len(),
        table_cells(row).len() == table_heads().len(),
        csv_columns().len() == table_heads().len(),
{
}

/// The place of the last comma of a text, or -1.
pub open spec fn last_comma(s: Seq<char>) -> int
    decreases s.len(),
{
    if s.len() == 0 {
        -1
    } else if s.last() == ',' {
        s.len() - 1
    } else {
        last_comma(s.drop_last())
    }
}

proof fn lemma_last_comma_bound(s: Seq<char>)
    ensures
        -1 <= last_comma(s) < s.len(),
    decreases s.len(),
{
    if s.len() > 0 {
        lemma_last_comma_bound(s.drop_last());
    }
}

/// The pieces of a text between its commas.
pub open spec fn split_at_commas(s: Seq<char>) -> Seq<Seq<char>>
    decreases s.len(),
    via split_at_commas_shrinks
{
    let k = last_comma(s);
    if k < 0 {
        seq![s]
    } else {
        split_at_commas(s.take(k)).push(s.skip(k + 1))
    }
}

#[via_fn]
proof fn split_at_commas_shrinks(s: Seq<char>) {
    lemma_last_comma_bound(s);
}

proof fn lemma_last_comma(front: Seq<char>, back: Seq<char>)
    requires
        !back.contains(','),
    ensures
        last_comma(front + seq![','] + back) == front.len(),
        last_comma(back) == -1,
    decreases back.len(),
{
    let s = front + seq![','] + back;
    if back.len() > 0 {
        let rest = back.drop_last();
        assert(back.last() != ',') by {
            assert(back.contains(back.last()));
        }
        assert(!rest.contains(',')) by {
            if rest.contains(',') {
                let i = choose|i: int| 0 <= i < rest.len() && rest[i] == ',';
                assert(back[i] == ',');
            }
        }
        lemma_last_comma(front, rest);
        assert(s.last() == back.last());
        assert(s.drop_last() =~= front + seq![','] + rest);
    } else {
        assert(s.last() == ',');
    }
}

proof fn lemma_joined_splits_back(cells: Seq<Seq<char>>)
    requires
        cells.len() > 0,
        forall|i: int| 0 <= i < cells.len() ==> !(#[trigger] cells[i]).contains(','),
    ensures
        split_at_commas(csv_line(cells)) == cells,
    decreases cells.len(),
{
    reveal_strlit(",");
    assert(","@ =~= seq![',']);
    let last = cells.last();
    assert(!last.contains(','));
    if cells.len() == 1 {
        lemma_last_comma(Seq::empty(), last);
        assert(seq![last] =~= cells);
    } else {
        let front = cells.drop_last();
        assert forall|i: int| 0 <= i < front.len() implies !(#[trigger] front[i]).contains(',') by {
            assert(front[i] == cells[i]);
        }
        lemma_joined_splits_back(front);
        let line = csv_line(cells);
        lemma_last_comma(csv_line(front), last);
        assert(line =~= csv_line(front) + seq![','] + last);
        assert(line.take(csv_line(front).len() as int) =~= csv_line(front));
        assert(line.skip(csv_line(front).len() as int + 1) =~= last);
        assert(front.push(last) =~= cells);
    }
}

proof fn lemma_decimal_has_no_comma(n: nat)
    ensures
        !decimal(n).contains(','),
{
    law_decimal_reads_back(n);
    if decimal(n).contains(',') {
        let i = choose|i: int| 0 <= i < decimal(n).len() && decimal(n)[i] == ',';
        assert(is_digit(decimal(n)[i]));
    }
}

/// A line of the file splits at its commas into the cells of its run, as long as no figure is
/// shown with a comma.
pub proof fn law_csv_row_splits_back(row: BenchRow)
    requires
        !row.figures.delivery_percent@.contains(','),
        !row.figures.jitter_us@.contains(','),
        !row.figures.goodput_mbps@.contains(','),
        !row.figures.overhead@.contains(','),
        !row.figures.cpu_avg@.contains(','),
        !row.figures.mem_avg@.contains(','),
    ensures
        split_at_commas(csv_line(csv_cells(row))) == csv_cells(row),
{
    reveal_strlit("tcp");
    reveal_strlit("quic");
    reveal_strlit("ws");
    reveal_strlit("udp");
    reveal_strlit("tor");
    reveal_strlit("all");
    assert(!name_of_stack(row.stack).contains(','));
    let times = seq![row.median_us, row.p95_us, row.p99_us];
    assert forall|i: int| 0 <= i < times.len() implies !(#[trigger] time_or_zero(
        times[i],
    )).contains(',') by {
        match times[i] {
            Some(n) => lemma_decimal_has_no_comma(n as nat),
            None => lemma_decimal_has_no_comma(0),
        }
    }
    assert(!time_or_zero(times[0]).contains(','));
    assert(!time_or_zero(times[1]).contains(','));
    assert(!time_or_zero(times[2]).contains(','));
    lemma_decimal_has_no_comma(row.payload as nat);
    lemma_decimal_has_no_comma(row.requested as nat);
    lemma_decimal_has_no_comma(row.sent as nat);
    lemma_decimal_has_no_comma(row.delivered as nat);
    lemma_decimal_has_no_comma(row.publish_failed as nat);
    lemma_decimal_has_no_comma(row.dial_ms as nat);
    lemma_joined_splits_back(csv_cells(row));
}

/// The last place of a character in a text, or -1.
pub open spec fn last_place(s: Seq<char>, c: char) -> int
    decreases s.len(),
{
    if s.len() == 0 {
        -1
    } else if s.last() == c {
        s.len() - 1
    } else {
        last_place(s.drop_last(), c)
    }
}

proof fn lemma_last_place_bound(s: Seq<char>, c: char)
    ensures
        -1 <= last_place(s, c) < s.len(),
    decreases s.len(),
{
    if s.len() > 0 {
        lemma_last_place_bound(s.drop_last(), c);
    }
}

/// The pieces of a text between the places of a character.
pub open spec fn split_at(s: Seq<char>, c: char) -> Seq<Seq<char>>
    decreases s.len(),
    via split_at_shrinks
{
    let k = last_place(s, c);
    if k < 0 {
        seq![s]
    } else {
        split_at(s.take(k), c).push(s.skip(k + 1))
    }
}

#[via_fn]
proof fn split_at_shrinks(s: Seq<char>, c: char) {
    lemma_last_place_bound(s, c);
}

proof fn lemma_last_place(front: Seq<char>, back: Seq<char>, c: char)
    requires
        !back.contains(c),
    ensures
        last_place(front + seq![c] + back, c) == front.len(),
        last_place(back, c) == -1,
    decreases back.len(),
{
    let s = front + seq![c] + back;
    if back.len() > 0 {
        let rest = back.drop_last();
        assert(back.last() != c) by {
            assert(back.contains(back.last()));
        }
        assert(!rest.contains(c)) by {
            if rest.contains(c) {
                let i = choose|i: int| 0 <= i < rest.len() && rest[i] == c;
                assert(back[i] == c);
            }
        }
        lemma_last_place(front, rest, c);
        assert(s.last() == back.last());
        assert(s.drop_last() =~= front + seq![c] + rest);
    } else {
        assert(s.last() == c);
    }
}

/// A text split at a character: what is in front of its last place, and then what is behind.
proof fn lemma_split_at_last(front: Seq<char>, back: Seq<char>, c: char)
    requires
        !back.contains(c),
    ensures
        split_at(front + seq![c] + back, c) == split_at(front, c).push(back),
        split_at(back, c) == seq![back],
{
    let s = front + seq![c] + back;
    lemma_last_place(front, back, c);
    assert(s.take(front.len() as int) =~= front);
    assert(s.skip(front.len() as int + 1) =~= back);
}


/// The pieces of cells joined with bars between spaces, with `tail` after the last.
spec fn bar_pieces(cells: Seq<Seq<char>>, tail: Seq<char>) -> Seq<Seq<char>>
    decreases cells.len(),
{
    if cells.len() <= 1 {
        seq![cells[0] + tail]
    } else {
        bar_pieces(cells.drop_last(), seq![' ']).push(seq![' '] + cells.last() + tail)
    }
}

proof fn lemma_bar_pieces(cells: Seq<Seq<char>>, tail: Seq<char>, k: int)
    requires
        0 <= k < cells.len(),
    ensures
        bar_pieces(cells, tail).len() == cells.len(),
        bar_pieces(cells, tail)[k] == (if k == 0 {
            Seq::<char>::empty()
        } else {
            seq![' ']
        }) + cells[k] + (if k == cells.len() - 1 {
            tail
        } else {
            seq![' ']
        }),
    decreases cells.len(),
{
    if cells.len() == 1 {
        assert(cells[0] + tail =~= Seq::<char>::empty() + cells[0] + tail);
    } else if k < cells.len() - 1 {
        lemma_bar_pieces(cells.drop_last(), seq![' '], k);
    } else {
        lemma_bar_pieces(cells.drop_last(), seq![' '], 0);
    }
}

proof fn lemma_no_bar_in_sum(a: Seq<char>, b: Seq<char>)
    requires
        !a.contains('|'),
        !b.contains('|'),
    ensures
        !(a + b).contains('|'),
{
    if (a + b).contains('|') {
        let i = choose|i: int| 0 <= i < (a + b).len() && (a + b)[i] == '|';
        if i < a.len() {
            assert(a[i] == '|');
        } else {
            assert(b[i - a.len()] == '|');
        }
    }
}

proof fn lemma_split_at_bars(cells: Seq<Seq<char>>, tail: Seq<char>)
    requires
        cells.len() > 0,
        forall|i: int| 0 <= i < cells.len() ==> !(#[trigger] cells[i]).contains('|'),
        !tail.contains('|'),
    ensures
        split_at(table_line(cells) + tail, '|') == bar_pieces(cells, tail),
    decreases cells.len(),
{
    reveal_strlit(" | ");
    assert(" | "@ =~= seq![' ', '|', ' ']);
    let last = cells.last();
    assert(!last.contains('|'));
    if cells.len() == 1 {
        lemma_no_bar_in_sum(last, tail);
        lemma_split_at_last(Seq::empty(), last + tail, '|');
    } else {
        let front = cells.drop_last();
        let space = seq![' '];
        assert forall|i: int| 0 <= i < front.len() implies !(#[trigger] front[i]).contains('|') by {
            assert(front[i] == cells[i]);
        }
        assert(!space.contains('|'));
        lemma_split_at_bars(front, space);
        lemma_no_bar_in_sum(space, last);
        lemma_no_bar_in_sum(space + last, tail);
        lemma_split_at_last(table_line(front) + space, space + last + tail, '|');
        assert(table_line(cells) + tail =~= (table_line(front) + space) + seq!['|'] + (space + last
            + tail));
    }
}

/// A cell of a line that was split at its bars, for a cell of a width that ends with a text.
proof fn lemma_cell_in_line(cells: Seq<Seq<char>>, k: int, text: Seq<char>, width: nat)
    requires
        0 <= k < cells.len(),
        forall|i: int| 0 <= i < cells.len() ==> !(#[trigger] cells[i]).contains('|'),
        cells[k] == padded(text, width),
        text.len() > 0,
        !is_whitespace(text[0]),
        !is_whitespace(text.last()),
    ensures
        split_at(table_line(cells), '|').len() == cells.len(),
        trimmed(split_at(table_line(cells), '|')[k]) == text,
        split_at(table_line(cells), '|')[k].len() == wider(text.len(), width) + (if k == 0 {
            0int
        } else {
            1int
        }) + (if k == cells.len() - 1 {
            0int
        } else {
            1int
        }),
{
    lemma_split_at_bars(cells, Seq::empty());
    assert(table_line(cells) + Seq::<char>::empty() =~= table_line(cells));
    lemma_bar_pieces(cells, Seq::empty(), k);
    law_padded_text_is_right_aligned(text, width);
    let space = seq![' '];
    let cell = cells[k];
    let gap = cell.take(cell.len() - text.len());
    let before = (if k == 0 {
        Seq::<char>::empty()
    } else {
        space
    }) + gap;
    let after = if k == cells.len() - 1 {
        Seq::<char>::empty()
    } else {
        space
    };
    assert(cell =~= gap + text);
    assert(split_at(table_line(cells), '|')[k] =~= before + text + after);
    assert forall|i: int| 0 <= i < before.len() implies is_whitespace(#[trigger] before[i]) by {
        assert(before[i] == ' ');
    }
    lemma_trimmed(before, text, after);
}

/// The greater of two widths.
pub open spec fn wider(a: nat, b: nat) -> nat {
    if a >= b {
        a
    } else {
        b
    }
}

/// Whether a text fills a cell: it has characters, no bar among them, and no whitespace at
/// either end.
pub open spec fn fills_cell(text: Seq<char>) -> bool {
    &&& text.len() > 0
    &&& !text.contains('|')
    &&& !is_whitespace(text[0])
    &&& !is_whitespace(text.last())
}

/// Whether no figure of a run is shown with a comma.
pub open spec fn figures_without_commas(f: Figures) -> bool {
    &&& !f.delivery_percent@.contains(',')
    &&& !f.jitter_us@.contains(',')
    &&& !f.goodput_mbps@.contains(',')
    &&& !f.overhead@.contains(',')
    &&& !f.cpu_avg@.contains(',')
    &&& !f.mem_avg@.contains(',')
}

/// Whether every figure of a run fills a cell.
pub open spec fn figures_fill_cells(f: Figures) -> bool {
    &&& fills_cell(f.delivery_percent@)
    &&& fills_cell(f.jitter_us@)
    &&& fills_cell(f.goodput_mbps@)
    &&& fills_cell(f.overhead@)
    &&& fills_cell(f.cpu_avg@)
    &&& fills_cell(f.mem_avg@)
}

/// The file has a line of names and then a line for each run, in their order. Split at its
/// commas, each line has sixteen cells, and in the line of a run each cell holds what the name
/// in the same place of the first line says: numbers in decimal digits, times as zero where
/// there are none, and figures as they are shown.
pub proof fn law_csv_cells_stand_under_their_names(rows: Seq<BenchRow>, i: int)
    requires
        0 <= i < rows.len(),
        figures_without_commas(rows[i].figures),
    ensures
        csv(rows).len() == rows.len() + 1,
        ({
            let names = split_at_commas(csv(rows)[0]);
            let cells = split_at_commas(csv(rows)[i + 1]);
            let row = rows[i];
            let number = |n: int| decimal(n as nat);
            let time = |us: Option<u64>| decimal(if us is Some {
                us->0 as nat
            } else {
                0
            });
            &&& names.len() == 16 && cells.len() == 16
            &&& names[0] == "stack"@ && cells[0] == name_of_stack(row.stack)
            &&& names[1] == "payload"@ && cells[1] == number(row.payload as int)
            &&& names[2] == "requested"@ && cells[2] == number(row.requested as int)
            &&& names[3] == "sent"@ && cells[3] == number(row.sent as int)
            &&& names[4] == "delivered"@ && cells[4] == number(row.delivered as int)
            &&& names[5] == "publish_failed"@ && cells[5] == number(row.publish_failed as int)
            &&& names[6] == "dial_ms"@ && cells[6] == number(row.dial_ms as int)
            &&& names[7] == "delivery_percent"@ && cells[7] == row.figures.delivery_percent@
            &&& names[8] == "median_us"@ && cells[8] == time(row.median_us)
            &&& names[9] == "p95_us"@ && cells[9] == time(row.p95_us)
            &&& names[10] == "p99_us"@ && cells[10] == time(row.p99_us)
            &&& names[11] == "jitter_us"@ && cells[11] == row.figures.jitter_us@
            &&& names[12] == "goodput_mbps"@ && cells[12] == row.figures.goodput_mbps@
            &&& names[13] == "overhead"@ && cells[13] == row.figures.overhead@
            &&& names[14] == "cpu_avg"@ && cells[14] == row.figures.cpu_avg@
            &&& names[15] == "mem_avg_mb"@ && cells[15] == row.figures.mem_avg@
        }),
{
    reveal_strlit("stack");
    reveal_strlit("payload");
    reveal_strlit("requested");
    reveal_strlit("sent");
    reveal_strlit("delivered");
    reveal_strlit("publish_failed");
    reveal_strlit("dial_ms");
    reveal_strlit("delivery_percent");
    reveal_strlit("median_us");
    reveal_strlit("p95_us");
    reveal_strlit("p99_us");
    reveal_strlit("jitter_us");
    reveal_strlit("goodput_mbps");
    reveal_strlit("overhead");
    reveal_strlit("cpu_avg");
    reveal_strlit("mem_avg_mb");
    let columns = csv_columns();
    assert forall|k: int| 0 <= k < columns.len() implies !(#[trigger] columns[k]).contains(',') by {
        let name = columns[k];
        assert(forall|x: int| 0 <= x < name.len() ==> #[trigger] name[x] != ',');
    }
    lemma_joined_splits_back(columns);
    law_csv_row_splits_back(rows[i]);
    assert(csv(rows)[i + 1] == csv_line(csv_cells(rows[i])));
}

/// The numbers in the file read back as what was counted and measured.
pub proof fn law_csv_numbers_read_back(rows: Seq<BenchRow>, i: int)
    requires
        0 <= i < rows.len(),
        figures_without_commas(rows[i].figures),
    ensures
        ({
            let cells = split_at_commas(csv(rows)[i + 1]);
            let row = rows[i];
            &&& stack_of_token(cells[0]) == Some(row.stack)
            &&& unsigned_value(cells[1]) == Some(row.payload as nat)
            &&& unsigned_value(cells[2]) == Some(row.requested as nat)
            &&& unsigned_value(cells[3]) == Some(row.sent as nat)
            &&& unsigned_value(cells[4]) == Some(row.delivered as nat)
            &&& unsigned_value(cells[5]) == Some(row.publish_failed as nat)
            &&& unsigned_value(cells[6]) == Some(row.dial_ms as nat)
            &&& row.median_us matches Some(us) ==> unsigned_value(cells[8]) == Some(us as nat)
            &&& row.p95_us matches Some(us) ==> unsigned_value(cells[9]) == Some(us as nat)
            &&& row.p99_us matches Some(us) ==> unsigned_value(cells[10]) == Some(us as nat)
            &&& row.median_us is None ==> unsigned_value(cells[8]) == Some(0nat)
            &&& row.p95_us is None ==> unsigned_value(cells[9]) == Some(0nat)
            &&& row.p99_us is None ==> unsigned_value(cells[10]) == Some(0nat)
        }),
{
    let row = rows[i];
    law_csv_cells_stand_under_their_names(rows, i);
    law_words_for_stacks(name_of_stack(row.stack), row.stack);
    law_decimal_reads_back(row.payload as nat);
    law_decimal_reads_back(row.requested as nat);
    law_decimal_reads_back(row.sent as nat);
    law_decimal_reads_back(row.delivered as nat);
    law_decimal_reads_back(row.publish_failed as nat);
    law_decimal_reads_back(row.dial_ms as nat);
    law_decimal_reads_back(0);
    if let Some(us) = row.median_us {
        law_decimal_reads_back(us as nat);
    }
    if let Some(us) = row.p95_us {
        law_decimal_reads_back(us as nat);
    }
    if let Some(us) = row.p99_us {
        law_decimal_reads_back(us as nat);
    }
}

/// The name of the file starts with `results_`, ends with `.csv`, and between them holds the
/// seconds in decimal digits.
pub proof fn law_file_is_named_by_its_time(seconds: u64)
    ensures
        ({
            let name = csv_name(seconds);
            let end = name.len() - 4;
            &&& end > 8
            &&& name.take(8) == "results_"@
            &&& name.skip(end) == ".csv"@
            &&& name.subrange(8, end) == decimal(seconds as nat)
            &&& unsigned_value(name.subrange(8, end)) == Some(seconds as nat)
        }),
{
    reveal_strlit("results_");
    reveal_strlit(".csv");
    law_decimal_reads_back(seconds as nat);
    let name = csv_name(seconds);
    let end = name.len() - 4;
    assert(name.take(8) =~= "results_"@);
    assert(name.skip(end) =~= ".csv"@);
    assert(name.subrange(8, end) =~= decimal(seconds as nat));
}

/// A row reports the counts and the round-trip times of its run.
pub proof fn law_row_reports_its_run(
    stack: Stack,
    payload: usize,
    requested: usize,
    dial_ms: u128,
    m: MetricsState,
    figures: Figures,
)
    ensures
        ({
            let row = row_of(stack, payload, requested, dial_ms, m, figures);
            &&& row.stack == stack && row.payload == payload && row.requested == requested
            &&& row.dial_ms == dial_ms && row.figures == figures
            &&& row.sent == m.counts.data_sent
            &&& row.delivered == m.counts.data_delivered
            &&& row.publish_failed == m.counts.publish_failed
            &&& row.median_us == percentile(m.rtt_us, Percentile::Median)
            &&& row.p95_us == percentile(m.rtt_us, Percentile::P95)
            &&& row.p99_us == percentile(m.rtt_us, Percentile::P99)
        }),
{
}

/// A time in decimal digits, or `n/a`.
pub open spec fn shown_time(us: Option<u64>) -> Seq<char> {
    if us is Some {
        decimal(us->0 as nat)
    } else {
        seq!['n', '/', 'a']
    }
}

proof fn lemma_digit_is_no_space(c: char)
    requires
        is_digit(c),
    ensures
        !is_whitespace(c),
        c != '|',
{
}

proof fn lemma_decimal_fills_cell(n: nat)
    ensures
        fills_cell(decimal(n)),
{
    law_decimal_reads_back(n);
    let d = decimal(n);
    assert(is_digit(d[0]));
    assert(is_digit(d[d.len() - 1]));
    lemma_digit_is_no_space(d[0]);
    lemma_digit_is_no_space(d.last());
    if d.contains('|') {
        let i = choose|i: int| 0 <= i < d.len() && d[i] == '|';
        assert(is_digit(d[i]));
        lemma_digit_is_no_space(d[i]);
    }
}

proof fn lemma_time_fills_cell(us: Option<u64>)
    ensures
        fills_cell(shown_time(us)),
        time_or_none(us) == shown_time(us),
{
    reveal_strlit("n/a");
    match us {
        Some(n) => lemma_decimal_fills_cell(n as nat),
        None => {
            assert("n/a"@ =~= seq!['n', '/', 'a']);
        },
    }
}

proof fn lemma_padded_has_no_bar(text: Seq<char>, width: nat)
    requires
        !text.contains('|'),
    ensures
        !padded(text, width).contains('|'),
{
    let p = padded(text, width);
    law_padded_text_is_right_aligned(text, width);
    if p.contains('|') {
        let i = choose|i: int| 0 <= i < p.len() && p[i] == '|';
        let from = p.len() - text.len();
        if i >= from {
            assert(p.skip(from)[i - from] == p[i]);
            assert(text[i - from] == '|');
        }
    }
}

/// The texts in the cells of a run, and how wide each cell is at least.
spec fn texts_of_row(row: BenchRow) -> Seq<(Seq<char>, nat)> {
    seq![
        (name_of_stack(row.stack), 6),
        (decimal(row.payload as nat), 7),
        (decimal(row.requested as nat), 8),
        (decimal(row.sent as nat), 7),
        (decimal(row.delivered as nat), 7),
        (decimal(row.publish_failed as nat), 7),
        (decimal(row.dial_ms as nat), 7),
        (row.figures.delivery_percent@ + seq!['%'], 8),
        (shown_time(row.median_us), 9),
        (shown_time(row.p95_us), 9),
        (shown_time(row.p99_us), 9),
        (row.figures.jitter_us@, 7),
        (row.figures.goodput_mbps@, 8),
        (row.figures.overhead@, 8),
        (row.figures.cpu_avg@, 6),
        (row.figures.mem_avg@, 6),
    ]
}

/// The texts in the heads, and how wide each is at least.
spec fn texts_of_heads() -> Seq<(Seq<char>, nat)> {
    seq![
        ("stack"@, 6),
        ("payload"@, 7),
        ("req"@, 8),
        ("sent"@, 7),
        ("deliv"@, 7),
        ("fail"@, 7),
        ("dialms"@, 7),
        ("deliv%"@, 8),
        ("medianus"@, 9),
        ("p95us"@, 9),
        ("p99us"@, 9),
        ("jitter"@, 8),
        ("goodput"@, 9),
        ("overhead"@, 9),
        ("cpu"@, 7),
        ("mem"@, 7),
    ]
}

proof fn lemma_cells_in_line(cells: Seq<Seq<char>>, shown: Seq<(Seq<char>, nat)>)
    requires
        cells.len() == 16,
        shown.len() == 16,
        forall|k: int| 0 <= k < 16 ==> #[trigger] cells[k] == padded(shown[k].0, shown[k].1),
        forall|k: int| 0 <= k < 16 ==> fills_cell((#[trigger] shown[k]).0),
    ensures
        split_at(table_line(cells), '|').len() == 16,
        forall|k: int|
            0 <= k < 16 ==> {
                &&& trimmed(#[trigger] split_at(table_line(cells), '|')[k]) == shown[k].0
                &&& split_at(table_line(cells), '|')[k].len() == wider(
                    shown[k].0.len(),
                    shown[k].1,
                ) + (if k == 0 || k == 15 {
                    1int
                } else {
                    2int
                })
            },
{
    assert forall|k: int| 0 <= k < 16 implies !(#[trigger] cells[k]).contains('|') by {
        assert(fills_cell(shown[k].0));
        lemma_padded_has_no_bar(shown[k].0, shown[k].1);
    }
    assert(fills_cell(shown[0].0));
    assert(cells[0] == padded(shown[0].0, shown[0].1));
    lemma_cell_in_line(cells, 0, shown[0].0, shown[0].1);
    assert forall|k: int| 0 <= k < 16 implies {
        &&& trimmed(#[trigger] split_at(table_line(cells), '|')[k]) == shown[k].0
        &&& split_at(table_line(cells), '|')[k].len() == wider(shown[k].0.len(), shown[k].1) + (if k
            == 0 || k == 15 {
            1int
        } else {
            2int
        })
    } by {
        assert(fills_cell(shown[k].0));
        assert(cells[k] == padded(shown[k].0, shown[k].1));
        lemma_cell_in_line(cells, k, shown[k].0, shown[k].1);
    }
}

proof fn lemma_texts_of_row(row: BenchRow)
    requires
        figures_fill_cells(row.figures),
    ensures
        forall|k: int|
            0 <= k < 16 ==> #[trigger] table_cells(row)[k] == padded(
                texts_of_row(row)[k].0,
                texts_of_row(row)[k].1,
            ),
        forall|k: int| 0 <= k < 16 ==> fills_cell((#[trigger] texts_of_row(row)[k]).0),
{
    reveal_strlit("tcp");
    reveal_strlit("quic");
    reveal_strlit("ws");
    reveal_strlit("udp");
    reveal_strlit("tor");
    reveal_strlit("all");
    assert(fills_cell(name_of_stack(row.stack)));
    lemma_decimal_fills_cell(row.payload as nat);
    lemma_decimal_fills_cell(row.requested as nat);
    lemma_decimal_fills_cell(row.sent as nat);
    lemma_decimal_fills_cell(row.delivered as nat);
    lemma_decimal_fills_cell(row.publish_failed as nat);
    lemma_decimal_fills_cell(row.dial_ms as nat);
    lemma_time_fills_cell(row.median_us);
    lemma_time_fills_cell(row.p95_us);
    lemma_time_fills_cell(row.p99_us);
    reveal_strlit("%");
    assert("%"@ =~= seq!['%']);
    let percent = row.figures.delivery_percent@;
    assert(padded(percent, 7) + seq!['%'] =~= padded(percent + seq!['%'], 8));
    assert(!seq!['%'].contains('|'));
    lemma_no_bar_in_sum(percent, seq!['%']);
    assert(fills_cell(percent + seq!['%']));
}

/// The table has the heads and then a line for each run, in their order, with a line of 163
/// dashes before the heads, after them and after the runs, and an empty line at either end.
pub proof fn law_table_shape(rows: Seq<BenchRow>)
    ensures
        ({
            let lines = table(rows);
            let dashes = Seq::new(163, |i: int| '-');
            &&& lines.len() == rows.len() + 6
            &&& lines[0].len() == 0
            &&& lines[1] == dashes
            &&& lines[3] == dashes
            &&& lines[rows.len() as int + 4] == dashes
            &&& lines[rows.len() as int + 5].len() == 0
        }),
{
    reveal_strlit(
        "-------------------------------------------------------------------------------------------------------------------------------------------------------------------",
    );
    assert(rule() =~= Seq::new(163, |i: int| '-'));
}

/// Split at its bars, the line of heads has sixteen pieces, each of which holds a head, and
/// spaces in front of it up to its width.
pub proof fn law_table_heads(rows: Seq<BenchRow>)
    ensures
        ({
            let heads = split_at(table(rows)[2], '|');
            &&& heads.len() == 16
            &&& trimmed(heads[0]) == "stack"@ && heads[0].len() == 7
            &&& trimmed(heads[1]) == "payload"@ && heads[1].len() == 9
            &&& trimmed(heads[2]) == "req"@ && heads[2].len() == 10
            &&& trimmed(heads[3]) == "sent"@ && heads[3].len() == 9
            &&& trimmed(heads[4]) == "deliv"@ && heads[4].len() == 9
            &&& trimmed(heads[5]) == "fail"@ && heads[5].len() == 9
            &&& trimmed(heads[6]) == "dialms"@ && heads[6].len() == 9
            &&& trimmed(heads[7]) == "deliv%"@ && heads[7].len() == 10
            &&& trimmed(heads[8]) == "medianus"@ && heads[8].len() == 11
            &&& trimmed(heads[9]) == "p95us"@ && heads[9].len() == 11
            &&& trimmed(heads[10]) == "p99us"@ && heads[10].len() == 11
            &&& trimmed(heads[11]) == "jitter"@ && heads[11].len() == 10
            &&& trimmed(heads[12]) == "goodput"@ && heads[12].len() == 11
            &&& trimmed(heads[13]) == "overhead"@ && heads[13].len() == 11
            &&& trimmed(heads[14]) == "cpu"@ && heads[14].len() == 9
            &&& trimmed(heads[15]) == "mem"@ && heads[15].len() == 8
        }),
{
    reveal_strlit("stack");
    reveal_strlit("payload");
    reveal_strlit("req");
    reveal_strlit("sent");
    reveal_strlit("deliv");
    reveal_strlit("fail");
    reveal_strlit("dialms");
    reveal_strlit("deliv%");
    reveal_strlit("medianus");
    reveal_strlit("p95us");
    reveal_strlit("p99us");
    reveal_strlit("jitter");
    reveal_strlit("goodput");
    reveal_strlit("overhead");
    reveal_strlit("cpu");
    reveal_strlit("mem");
    let shown = texts_of_heads();
    assert forall|k: int| 0 <= k < 16 implies fills_cell((#[trigger] shown[k]).0) by {
        let text = shown[k].0;
        assert(forall|x: int| 0 <= x < text.len() ==> #[trigger] text[x] != '|');
    }
    lemma_cells_in_line(table_heads(), shown);
    let pieces = split_at(table_line(table_heads()), '|');
    assert(trimmed(pieces[0]) == shown[0].0);
    assert(trimmed(pieces[1]) == shown[1].0);
    assert(trimmed(pieces[2]) == shown[2].0);
    assert(trimmed(pieces[3]) == shown[3].0);
    assert(trimmed(pieces[4]) == shown[4].0);
    assert(trimmed(pieces[5]) == shown[5].0);
    assert(trimmed(pieces[6]) == shown[6].0);
    assert(trimmed(pieces[7]) == shown[7].0);
    assert(trimmed(pieces[8]) == shown[8].0);
    assert(trimmed(pieces[9]) == shown[9].0);
    assert(trimmed(pieces[10]) == shown[10].0);
    assert(trimmed(pieces[11]) == shown[11].0);
    assert(trimmed(pieces[12]) == shown[12].0);
    assert(trimmed(pieces[13]) == shown[13].0);
    assert(trimmed(pieces[14]) == shown[14].0);
    assert(trimmed(pieces[15]) == shown[15].0);
}

/// Split at its bars, the line of a run has sixteen pieces, and each of them holds what the
/// head in the same place of the line of heads says, with spaces in front of it up to its
/// width: numbers in decimal digits, times as `n/a` where there are none, and figures as they
/// are shown.
pub proof fn law_table_cells_stand_under_their_heads(rows: Seq<BenchRow>, i: int)
    requires
        0 <= i < rows.len(),
        figures_fill_cells(rows[i].figures),
    ensures
        ({
            let cells = split_at(table(rows)[i + 4], '|');
            let row = rows[i];
            let width = |k: int| cells[k].len() - (if k == 0 || k == 15 {
                1int
            } else {
                2int
            });
            &&& cells.len() == 16
            &&& trimmed(cells[0]) == name_of_stack(row.stack)
            &&& width(0) == wider((name_of_stack(row.stack)).len(), 6)
            &&& trimmed(cells[1]) == decimal(row.payload as nat)
            &&& width(1) == wider((decimal(row.payload as nat)).len(), 7)
            &&& trimmed(cells[2]) == decimal(row.requested as nat)
            &&& width(2) == wider((decimal(row.requested as nat)).len(), 8)
            &&& trimmed(cells[3]) == decimal(row.sent as nat)
            &&& width(3) == wider((decimal(row.sent as nat)).len(), 7)
            &&& trimmed(cells[4]) == decimal(row.delivered as nat)
            &&& width(4) == wider((decimal(row.delivered as nat)).len(), 7)
            &&& trimmed(cells[5]) == decimal(row.publish_failed as nat)
            &&& width(5) == wider((decimal(row.publish_failed as nat)).len(), 7)
            &&& trimmed(cells[6]) == decimal(row.dial_ms as nat)
            &&& width(6) == wider((decimal(row.dial_ms as nat)).len(), 7)
            &&& trimmed(cells[7]) == row.figures.delivery_percent@ + seq!['%']
            &&& width(7) == wider((row.figures.delivery_percent@ + seq!['%']).len(), 8)
            &&& trimmed(cells[8]) == shown_time(row.median_us)
            &&& width(8) == wider((shown_time(row.median_us)).len(), 9)
            &&& trimmed(cells[9]) == shown_time(row.p95_us)
            &&& width(9) == wider((shown_time(row.p95_us)).len(), 9)
            &&& trimmed(cells[10]) == shown_time(row.p99_us)
            &&& width(10) == wider((shown_time(row.p99_us)).len(), 9)
            &&& trimmed(cells[11]) == row.figures.jitter_us@
            &&& width(11) == wider((row.figures.jitter_us@).len(), 7)
            &&& trimmed(cells[12]) == row.figures.goodput_mbps@
            &&& width(12) == wider((row.figures.goodput_mbps@).len(), 8)
            &&& trimmed(cells[13]) == row.figures.overhead@
            &&& width(13) == wider((row.figures.overhead@).len(), 8)
            &&& trimmed(cells[14]) == row.figures.cpu_avg@
            &&& width(14) == wider((row.figures.cpu_avg@).len(), 6)
            &&& trimmed(cells[15]) == row.figures.mem_avg@
            &&& width(15) == wider((row.figures.mem_avg@).len(), 6)
        }),
{
    let row = rows[i];
    let shown = texts_of_row(row);
    lemma_texts_of_row(row);
    lemma_cells_in_line(table_cells(row), shown);
    assert(table(rows)[i + 4] == table_line(table_cells(row)));
    let pieces = split_at(table_line(table_cells(row)), '|');
    assert(trimmed(pieces[0]) == shown[0].0);
    assert(trimmed(pieces[1]) == shown[1].0);
    assert(trimmed(pieces[2]) == shown[2].0);
    assert(trimmed(pieces[3]) == shown[3].0);
    assert(trimmed(pieces[4]) == shown[4].0);
    assert(trimmed(pieces[5]) == shown[5].0);
    assert(trimmed(pieces[6]) == shown[6].0);
    assert(trimmed(pieces[7]) == shown[7].0);
    assert(trimmed(pieces[8]) == shown[8].0);
    assert(trimmed(pieces[9]) == shown[9].0);
    assert(trimmed(pieces[10]) == shown[10].0);
    assert(trimmed(pieces[11]) == shown[11].0);
    assert(trimmed(pieces[12]) == shown[12].0);
    assert(trimmed(pieces[13]) == shown[13].0);
    assert(trimmed(pieces[14]) == shown[14].0);
    assert(trimmed(pieces[15]) == shown[15].0);
}

/// The parts of the line that is shown after a run.
spec fn progress_parts(row: BenchRow) -> Seq<Seq<char>> {
    seq![
        "["@ + name_of_stack(row.stack) + "] "@ + decimal(row.payload as nat) + "B"@,
        decimal(row.delivered as nat) + "/"@ + decimal(row.requested as nat),
        match row.median_us {
            Some(us) => "Some("@ + decimal(us as nat) + ")us"@,
            None => "Noneus"@,
        },
        row.figures.goodput_mbps@ + " Mbps"@,
    ]
}

proof fn lemma_joined_four(a: Seq<char>, b: Seq<char>, c: Seq<char>, d: Seq<char>, sep: Seq<char>)
    ensures
        joined(seq![a, b, c, d], sep) == a + sep + b + sep + c + sep + d,
{
    let cells = seq![a, b, c, d];
    assert(cells.drop_last() =~= seq![a, b, c]);
    assert(cells.drop_last().drop_last() =~= seq![a, b]);
    assert(cells.drop_last().drop_last().drop_last() =~= seq![a]);
    reveal_with_fuel(joined, 5);
}

proof fn lemma_progress_is_joined(row: BenchRow)
    ensures
        progress(row) == table_line(progress_parts(row)),
{
    reveal_strlit("B");
    reveal_strlit("B | ");
    reveal_strlit(" | ");
    reveal_strlit(")");
    reveal_strlit(")us");
    reveal_strlit("None");
    reveal_strlit("Noneus");
    reveal_strlit("us | ");
    let parts = progress_parts(row);
    lemma_joined_four(parts[0], parts[1], parts[2], parts[3], " | "@);
    assert(parts =~= seq![parts[0], parts[1], parts[2], parts[3]]);
    assert("B | "@ =~= "B"@ + " | "@);
    assert(optional_time(row.median_us) + "us | "@ =~= parts[2] + " | "@);
    let front = "["@ + name_of_stack(row.stack) + "] "@ + decimal(row.payload as nat);
    assert(front + "B | "@ =~= parts[0] + " | "@);
    assert(progress(row) =~= (front + "B | "@) + parts[1] + " | "@ + (optional_time(row.median_us)
        + "us | "@) + parts[3]);
    assert(progress(row) =~= table_line(parts));
}

proof fn lemma_progress_parts_fill(row: BenchRow)
    requires
        fills_cell(row.figures.goodput_mbps@),
    ensures
        forall|k: int| 0 <= k < 4 ==> fills_cell(#[trigger] progress_parts(row)[k]),
{
    reveal_strlit("[");
    reveal_strlit("] ");
    reveal_strlit("B");
    reveal_strlit("/");
    reveal_strlit("Some(");
    reveal_strlit(")us");
    reveal_strlit("Noneus");
    reveal_strlit(" Mbps");
    reveal_strlit("tcp");
    reveal_strlit("quic");
    reveal_strlit("ws");
    reveal_strlit("udp");
    reveal_strlit("tor");
    reveal_strlit("all");
    let name = name_of_stack(row.stack);
    let payload = decimal(row.payload as nat);
    let delivered = decimal(row.delivered as nat);
    let requested = decimal(row.requested as nat);
    lemma_decimal_fills_cell(row.payload as nat);
    lemma_decimal_fills_cell(row.delivered as nat);
    lemma_decimal_fills_cell(row.requested as nat);
    assert(fills_cell(name));
    lemma_no_bar_in_sum("["@, name);
    lemma_no_bar_in_sum("["@ + name, "] "@);
    lemma_no_bar_in_sum("["@ + name + "] "@, payload);
    lemma_no_bar_in_sum("["@ + name + "] "@ + payload, "B"@);
    lemma_no_bar_in_sum(delivered, "/"@);
    lemma_no_bar_in_sum(delivered + "/"@, requested);
    lemma_no_bar_in_sum(row.figures.goodput_mbps@, " Mbps"@);
    if let Some(us) = row.median_us {
        lemma_decimal_fills_cell(us as nat);
        lemma_no_bar_in_sum("Some("@, decimal(us as nat));
        lemma_no_bar_in_sum("Some("@ + decimal(us as nat), ")us"@);
    }
    let parts = progress_parts(row);
    assert(fills_cell(parts[0]));
    assert(fills_cell(parts[1]));
    assert(fills_cell(parts[2]));
    assert(fills_cell(parts[3]));
}

/// The line that is shown after a run, split at its bars: the stack in brackets with the size
/// of a payload in bytes, what was delivered of what was requested, the median time if there
/// is one, and the goodput.
pub proof fn law_progress_in_parts(row: BenchRow)
    requires
        fills_cell(row.figures.goodput_mbps@),
    ensures
        ({
            let parts = split_at(progress(row), '|');
            let time = match row.median_us {
                Some(us) => "Some("@ + decimal(us as nat) + ")us"@,
                None => "Noneus"@,
            };
            &&& parts.len() == 4
            &&& trimmed(parts[0]) == "["@ + name_of_stack(row.stack) + "] "@ + decimal(
                row.payload as nat,
            ) + "B"@
            &&& trimmed(parts[1]) == decimal(row.delivered as nat) + "/"@ + decimal(
                row.requested as nat,
            )
            &&& trimmed(parts[2]) == time
            &&& trimmed(parts[3]) == row.figures.goodput_mbps@ + " Mbps"@
        }),
{
    let parts = progress_parts(row);
    lemma_progress_is_joined(row);
    lemma_progress_parts_fill(row);
    assert(fills_cell(parts[0]) && fills_cell(parts[1]));
    assert(fills_cell(parts[2]) && fills_cell(parts[3]));
    assert forall|k: int| 0 <= k < parts.len() implies !(#[trigger] parts[k]).contains('|') by {
        assert(fills_cell(parts[k]));
    }
    lemma_cell_in_line(parts, 0, parts[0], 0);
    lemma_cell_in_line(parts, 1, parts[1], 0);
    lemma_cell_in_line(parts, 2, parts[2], 0);
    lemma_cell_in_line(parts, 3, parts[3], 0);
}

} // verus!
