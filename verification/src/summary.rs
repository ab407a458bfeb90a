//! The summary of a spill log: one table with a row for every record.

use crate::elog::{cell_texts, count_cells, count_row, record_views};
use crate::render::{
    build_table, builder_rows, builder_width, new_builder, push_record, rendered_table,
    to_uppercase, uppercase,
};
use crate::spill_log::{Record, RecordView, SpillLog};
use vstd::prelude::*;

verus! {

/// The first row of the summary: the headings of the event and of its times,
/// then the names of the columns.
pub open spec fn summary_header(columns: Seq<Seq<char>>) -> Seq<Seq<char>> {
    seq!["Event"@, "Start time"@, "Stop time"@] + columns
}

/// The name of an event: the sequencer in upper case, then the event.
pub open spec fn event_name(upper_name: Seq<char>, event_description: Seq<char>) -> Seq<char> {
    upper_name + " - "@ + event_description
}

/// The row of one record: the name of its event, its start and its stop as
/// they are shown, then for each column the count of that channel or the mark
/// that the spill log has none.
pub open spec fn summary_row(
    upper_name: Seq<char>,
    record: RecordView,
    times: (Seq<char>, Seq<char>),
    columns: Seq<Seq<char>>,
) -> Seq<Seq<char>> {
    seq![event_name(upper_name, record.event_description), times.0, times.1] + cell_texts(
        count_cells(record, columns),
    )
}

/// The times that `times` holds for the record at `index`: a record beyond
/// the end of `times` has two empty ones.
pub open spec fn times_at(times: Seq<(Seq<char>, Seq<char>)>, index: int) -> (
    Seq<char>,
    Seq<char>,
) {
    if 0 <= index < times.len() {
        times[index]
    } else {
        (Seq::empty(), Seq::empty())
    }
}

/// The rows of the summary: the header, then the records in their order.
pub open spec fn summary_rows(
    records: Seq<RecordView>,
    times: Seq<(Seq<char>, Seq<char>)>,
    columns: Seq<Seq<char>>,
) -> Seq<Seq<Seq<char>>> {
    seq![summary_header(columns)] + Seq::new(
        records.len(),
        |i: int|
            summary_row(
                uppercase(records[i].sequencer_name),
                records[i],
                times_at(times, i),
                columns,
            ),
    )
}

/// Writes the first row of the summary.
pub fn header_cells(columns: &Vec<String>) -> (cells: Vec<String>)
    ensures
        cells.deep_view() == summary_header(columns.deep_view()),
{
    let ghost names = columns.deep_view();
    let mut cells: Vec<String> = Vec::new();
    cells.push(String::from_str("Event"));
    cells.push(String::from_str("Start time"));
    cells.push(String::from_str("Stop time"));
    let mut i: usize = 0;
    assert(cells.deep_view() =~= seq!["Event"@, "Start time"@, "Stop time"@] + names.take(0));
    while i < columns.len()
        invariant
            i <= columns.len(),
            names == columns.deep_view(),
            cells.deep_view() == seq!["Event"@, "Start time"@, "Stop time"@] + names.take(i as int),
        decreases columns.len() - i,
    {
        let ghost before = cells.deep_view();
        cells.push(columns[i].clone());
        assert(cells.deep_view() =~= before.push(names[i as int]));
        assert(cells.deep_view() =~= seq!["Event"@, "Start time"@, "Stop time"@] + names.take(
            i + 1,
        ));
        i += 1;
    }
    assert(names.take(i as int) =~= names);
    cells
}

/// Writes the row of one record, given the upper-case form of its sequencer's
/// name and its two times as they are shown.
pub fn row_cells(
    upper_name: &str,
    record: &Record,
    start: &str,
    stop: &str,
    columns: &Vec<String>,
) -> (cells: Vec<String>)
    ensures
        cells.deep_view() == summary_row(upper_name@, record@, (start@, stop@), columns.deep_view()),
{
    let mut event = String::from_str(upper_name);
    event.append(" - ");
    event.append(record.event_description.as_str());
    let mut cells: Vec<String> = Vec::new();
    cells.push(event);
    cells.push(String::from_str(start));
    cells.push(String::from_str(stop));
    let ghost lead = cells.deep_view();
    assert(lead =~= seq![event_name(upper_name@, record@.event_description), start@, stop@]);
    let mut counts = count_row(record, columns);
    let ghost counted = counts.deep_view();
    cells.append(&mut counts);
    assert(cells.deep_view() =~= lead + counted);
    cells
}

/// Draws the summary of a spill log as a table with one row for each record
/// and one column for each channel of `columns`.
///
/// `times` holds, record by record, the start and the stop time as they are
/// to be shown. A record beyond the end of `times` shows no times.
pub fn spill_log_summary(
    spill_log: &SpillLog,
    times: &Vec<(String, String)>,
    columns: &Vec<String>,
) -> (text: String)
    ensures
        text@ == rendered_table(
            summary_rows(
                record_views(spill_log.records@),
                times.deep_view(),
                columns.deep_view(),
            ),
        ),
{
    let ghost records = record_views(spill_log.records@);
    let ghost shown = times.deep_view();
    let ghost names = columns.deep_view();
    let ghost rows = summary_rows(records, shown, names);
    let mut builder = new_builder();
    let header = header_cells(columns);
    push_record(&mut builder, &header);
    assert(builder_rows(builder) =~= rows.take(1));
    assert(header@.len() == header.deep_view().len());

    let mut r: usize = 0;
    while r < spill_log.records.len()
        invariant
            r <= spill_log.records.len(),
            records == record_views(spill_log.records@),
            shown == times.deep_view(),
            names == columns.deep_view(),
            rows == summary_rows(records, shown, names),
            builder_rows(builder) == rows.take(r + 1),
            builder_width(builder) == 3 + names.len(),
        decreases spill_log.records.len() - r,
    {
        let record = &spill_log.records[r];
        let upper = to_uppercase(record.sequencer_name.as_str());
        let row = if r < times.len() {
            assert(shown[r as int] == (times@[r as int].0@, times@[r as int].1@));
            row_cells(upper.as_str(), record, times[r].0.as_str(), times[r].1.as_str(), columns)
        } else {
            row_cells(upper.as_str(), record, "", "", columns)
        };
        proof {
            reveal_strlit("");
            assert(""@ =~= Seq::<char>::empty());
        }
        assert(row.deep_view() =~= rows[r + 1]);
        assert(row@.len() == row.deep_view().len());
        push_record(&mut builder, &row);
        assert(builder_rows(builder) =~= rows.take(r + 2));
        r += 1;
    }
    assert(rows.take(r + 1) =~= rows);
    build_table(builder)
}

} // verus!
