//! The logbook entry of a run: which records of the spill log are reported,
//! in which order, and the text and attachments that each of them adds.

use crate::chronobox::{find_chronobox_channel, resolution, Resolution};
use crate::config::{
    ChronoboxTableConfig, ChronoboxTableView, EntryConfig, EntryView, LogRule, RuleView,
};
use crate::data_handler::{ChronoboxTimestampsArgs, ClientRequest, PlotArgsView, RequestView};
use crate::odb::Json;
use crate::render::{
    build_table, builder_rows, indent_by, indented, new_builder, push_record, rendered_table,
    to_uppercase, uppercase,
};
use crate::spill_log::{Record, RecordView, SpillLog};
use crate::text::{
    decimal, decimal_string, lemma_decimal_digits, lemma_decimal_injective, lemma_decimal_nonempty,
};
use std::path::PathBuf;
use vstd::prelude::*;

verus! {

/// A record of the spill log together with the rule that it matched.
#[derive(Debug)]
pub struct LoggableRecord {
    pub record: Record,
    pub config: EntryConfig,
}

/// What a [`LoggableRecord`] says.
pub ghost struct LoggableView {
    pub record: RecordView,
    pub config: EntryView,
}

impl View for LoggableRecord {
    type V = LoggableView;

    open spec fn view(&self) -> LoggableView {
        LoggableView { record: self.record@, config: self.config@ }
    }
}

/// Whether a rule is written for a record: both name the same sequencer and
/// the same event.
pub open spec fn rule_matches(rule: RuleView, record: RecordView) -> bool {
    rule.sequencer_name == record.sequencer_name && rule.event_description
        == record.event_description
}

/// The position of the first rule written for `record`, or the number of
/// rules where none is.
pub open spec fn first_match(rules: Seq<RuleView>, record: RecordView) -> int
    decreases rules.len(),
{
    if rules.len() == 0 {
        0
    } else if rule_matches(rules[0], record) {
        0
    } else {
        1 + first_match(rules.drop_first(), record)
    }
}

/// What the rules say of a record: the configuration of the first rule that
/// matches it, or nothing.
pub open spec fn matched_config(rules: Seq<RuleView>, record: RecordView) -> Option<EntryView> {
    let at = first_match(rules, record);
    if 0 <= at < rules.len() {
        Some(rules[at].config)
    } else {
        None
    }
}

/// The rule at [`first_match`] matches and none before it does; where
/// [`first_match`] is the number of rules, no rule matches.
pub proof fn lemma_first_match(rules: Seq<RuleView>, record: RecordView)
    ensures
        0 <= first_match(rules, record) <= rules.len(),
        first_match(rules, record) < rules.len() ==> rule_matches(
            rules[first_match(rules, record)],
            record,
        ),
        forall|i: int| 0 <= i < first_match(rules, record) ==> !rule_matches(#[trigger] rules[i], record),
    decreases rules.len(),
{
    if rules.len() > 0 && !rule_matches(rules[0], record) {
        let rest = rules.drop_first();
        lemma_first_match(rest, record);
        assert forall|i: int| 0 <= i < first_match(rules, record) implies !rule_matches(
            #[trigger] rules[i],
            record,
        ) by {
            if i > 0 {
                assert(rules[i] == rest[i - 1]);
            }
        }
    }
}

/// The rule matcher returns the first rule whose key equals the record's key,
/// and nothing exactly when no rule has that key.
pub proof fn lemma_match_is_first_or_none(rules: Seq<RuleView>, record: RecordView)
    ensures
        match matched_config(rules, record) {
            Some(config) => exists|i: int|
                0 <= i < rules.len() && rule_matches(#[trigger] rules[i], record) && rules[i].config
                    == config && forall|j: int|
                    0 <= j < i ==> !rule_matches(#[trigger] rules[j], record),
            None => forall|i: int| 0 <= i < rules.len() ==> !rule_matches(#[trigger] rules[i], record),
        },
{
    lemma_first_match(rules, record);
    let at = first_match(rules, record);
    if at < rules.len() {
        assert(rule_matches(rules[at], record));
    }
}

/// The views of the rules, in their order.
pub open spec fn rule_views(rules: Seq<LogRule>) -> Seq<RuleView> {
    rules.map_values(|rule: LogRule| rule@)
}

/// Finds the configuration for a record: that of the first rule, in the
/// configured order, that names the record's sequencer and event.
pub fn find_config<'a>(record: &Record, rules: &'a Vec<LogRule>) -> (config: Option<
    &'a EntryConfig,
>)
    ensures
        match config {
            Some(found) => matched_config(rule_views(rules@), record@) == Some(found@),
            None => matched_config(rule_views(rules@), record@) is None,
        },
{
    let ghost views = rule_views(rules@);
    let mut i: usize = 0;
    assert(views.skip(0) =~= views);
    while i < rules.len()
        invariant
            i <= rules.len(),
            views == rule_views(rules@),
            first_match(views, record@) == i + first_match(views.skip(i as int), record@),
        decreases rules.len() - i,
    {
        let ghost rest = views.skip(i as int);
        assert(rest[0] == rules@[i as int]@);
        assert(rest.drop_first() =~= views.skip(i + 1));
        let rule = &rules[i];
        if rule.sequencer_name == record.sequencer_name && rule.event_description
            == record.event_description {
            return Some(&rule.config);
        }
        i += 1;
    }
    None
}

/// The records that a rule is written for, each with the configuration that
/// [`matched_config`] gives it, in the order of the log.
pub open spec fn loggable(records: Seq<RecordView>, rules: Seq<RuleView>) -> Seq<LoggableView>
    decreases records.len(),
{
    if records.len() == 0 {
        Seq::empty()
    } else {
        let before = loggable(records.drop_last(), rules);
        match matched_config(rules, records.last()) {
            Some(config) => before.push(LoggableView { record: records.last(), config }),
            None => before,
        }
    }
}

/// What is picked is what the rules match: every picked record stands in the
/// log and carries the configuration of its first matching rule, and every
/// record of the log that a rule matches is picked. A record that no rule
/// matches is in the log only.
pub proof fn lemma_loggable(records: Seq<RecordView>, rules: Seq<RuleView>)
    ensures
        loggable(records, rules).len() <= records.len(),
        forall|k: int|
            0 <= k < loggable(records, rules).len() ==> records.contains(
                (#[trigger] loggable(records, rules)[k]).record,
            ) && matched_config(rules, loggable(records, rules)[k].record) == Some(
                loggable(records, rules)[k].config,
            ),
        forall|i: int|
            0 <= i < records.len() && matched_config(rules, #[trigger] records[i]) is Some
                ==> loggable(records, rules).contains(
                LoggableView {
                    record: records[i],
                    config: matched_config(rules, records[i])->Some_0,
                },
            ),
    decreases records.len(),
{
    if records.len() > 0 {
        let before = loggable(records.drop_last(), rules);
        let all = loggable(records, rules);
        lemma_loggable(records.drop_last(), rules);
        assert forall|k: int| 0 <= k < all.len() implies records.contains((#[trigger] all[k]).record)
            && matched_config(rules, all[k].record) == Some(all[k].config) by {
            if k < before.len() {
                assert(all[k] == before[k]);
                let i = choose|i: int|
                    0 <= i < records.drop_last().len() && records.drop_last()[i]
                        == before[k].record;
                assert(records[i] == before[k].record);
            } else {
                assert(records[records.len() - 1] == all[k].record);
            }
        }
        assert forall|i: int|
            0 <= i < records.len() && matched_config(rules, #[trigger] records[i]) is Some implies all.contains(
            LoggableView { record: records[i], config: matched_config(rules, records[i])->Some_0 },
        ) by {
            let wanted = LoggableView {
                record: records[i],
                config: matched_config(rules, records[i])->Some_0,
            };
            if i < records.len() - 1 {
                assert(records.drop_last()[i] == records[i]);
                assert(before.contains(wanted));
                let k = choose|k: int| 0 <= k < before.len() && before[k] == wanted;
                assert(all[k] == wanted);
            } else {
                assert(all[all.len() - 1] == wanted);
            }
        }
    }
}

/// The views of the records, in their order.
pub open spec fn record_views(records: Seq<Record>) -> Seq<RecordView> {
    records.map_values(|record: Record| record@)
}

/// The views of the loggable records, in their order.
pub open spec fn loggable_views(records: Seq<LoggableRecord>) -> Seq<LoggableView> {
    records.map_values(|record: LoggableRecord| record@)
}

/// Picks the records of the spill log that are to be reported, each with the
/// configuration of its rule. A record without a rule is left out.
pub fn loggable_records(spill_log: &SpillLog, rules: &Vec<LogRule>) -> (picked: Vec<
    LoggableRecord,
>)
    ensures
        loggable_views(picked@) == loggable(record_views(spill_log.records@), rule_views(rules@)),
{
    let ghost records = record_views(spill_log.records@);
    let ghost views = rule_views(rules@);
    let mut picked: Vec<LoggableRecord> = Vec::new();
    let mut i: usize = 0;
    assert(loggable_views(picked@) =~= loggable(records.take(0), views));
    while i < spill_log.records.len()
        invariant
            i <= spill_log.records.len(),
            records == record_views(spill_log.records@),
            views == rule_views(rules@),
            loggable_views(picked@) == loggable(records.take(i as int), views),
        decreases spill_log.records.len() - i,
    {
        let ghost next = records.take(i + 1);
        assert(next.drop_last() =~= records.take(i as int));
        assert(next.last() == spill_log.records@[i as int]@);
        let record = &spill_log.records[i];
        let ghost before = loggable_views(picked@);
        match find_config(record, rules) {
            Some(config) => {
                picked.push(LoggableRecord { record: record.clone(), config: config.clone() });
                assert(loggable_views(picked@) =~= before.push(picked@.last()@));
            },
            None => {},
        }
        i += 1;
    }
    assert(records.take(i as int) =~= records);
    picked
}

/// Whether the item at position `a` comes before the item at position `b`
/// when the items are put in the order of their keys: the smaller key first,
/// and of two equal keys the one that stood first.
pub open spec fn comes_before(keys: Seq<u64>, a: int, b: int) -> bool {
    keys[a] < keys[b] || (keys[a] == keys[b] && a < b)
}

/// Whether `order` lists the positions of `keys` by ascending key, equal keys
/// in the order in which they stand: every position once, each before all
/// those that it comes before.
pub open spec fn is_ascending_order(order: Seq<usize>, keys: Seq<u64>) -> bool {
    &&& order.len() == keys.len()
    &&& forall|i: int| 0 <= i < order.len() ==> (#[trigger] order[i]) < keys.len()
    &&& forall|position: int|
        0 <= position < keys.len() ==> #[trigger] order.contains(position as usize)
    &&& forall|i: int, j: int|
        0 <= i < j < order.len() ==> comes_before(keys, #[trigger] order[i] as int, #[trigger] order[j] as int)
}

/// Two ascending orders of the same keys agree on their first `upto` places.
proof fn lemma_ascending_orders_agree(
    first: Seq<usize>,
    second: Seq<usize>,
    keys: Seq<u64>,
    upto: int,
)
    requires
        is_ascending_order(first, keys),
        is_ascending_order(second, keys),
        0 <= upto <= keys.len(),
    ensures
        forall|k: int| 0 <= k < upto ==> first[k] == second[k],
    decreases upto,
{
    if upto > 0 {
        lemma_ascending_orders_agree(first, second, keys, upto - 1);
        let i = upto - 1;
        let x = first[i];
        let y = second[i];
        if x != y {
            assert(second.contains((x as int) as usize));
            let j = choose|j: int| 0 <= j < second.len() && second[j] == x;
            assert(first.contains((y as int) as usize));
            let k = choose|k: int| 0 <= k < first.len() && first[k] == y;
            if j < i {
                assert(comes_before(keys, first[j] as int, first[i] as int));
            } else if k < i {
                assert(comes_before(keys, second[k] as int, second[i] as int));
            } else {
                assert(comes_before(keys, second[i] as int, second[j] as int));
                assert(comes_before(keys, first[i] as int, first[k] as int));
            }
        }
    }
}

/// The ascending order of given keys is one order only: the keys and the
/// places at which they stand decide where every position goes.
pub proof fn lemma_ascending_order_unique(first: Seq<usize>, second: Seq<usize>, keys: Seq<u64>)
    requires
        is_ascending_order(first, keys),
        is_ascending_order(second, keys),
    ensures
        first == second,
{
    lemma_ascending_orders_agree(first, second, keys, keys.len() as int);
    assert(first =~= second);
}

/// The keys by which loggable records are ordered: those of their stop times.
pub open spec fn stop_keys_of(records: Seq<LoggableView>) -> Seq<u64> {
    Seq::new(records.len(), |i: int| records[i].record.stop_time.spec_order_key())
}

/// Lists the positions of `keys` by ascending key, equal keys in the order in
/// which they stand.
pub fn ascending_order(keys: &Vec<u64>) -> (order: Vec<usize>)
    ensures
        is_ascending_order(order@, keys@),
{
    let mut order: Vec<usize> = Vec::new();
    let mut next: usize = 0;
    while next < keys.len()
        invariant
            next <= keys.len(),
            order@.len() == next,
            forall|i: int| 0 <= i < order@.len() ==> (#[trigger] order@[i]) < next,
            forall|position: int|
                0 <= position < next ==> #[trigger] order@.contains(position as usize),
            forall|i: int, j: int|
                0 <= i < j < order@.len() ==> comes_before(
                    keys@,
                    #[trigger] order@[i] as int,
                    #[trigger] order@[j] as int,
                ),
        decreases keys.len() - next,
    {
        let key = keys[next];
        let mut at: usize = 0;
        while at < order.len() && keys[order[at]] <= key
            invariant
                at <= order@.len(),
                order@.len() == next,
                next < keys.len(),
                key == keys@[next as int],
                forall|i: int| 0 <= i < order@.len() ==> (#[trigger] order@[i]) < next,
                forall|i: int| 0 <= i < at ==> keys@[(#[trigger] order@[i]) as int] <= key,
            decreases order@.len() - at,
        {
            at += 1;
        }
        let ghost before = order@;
        order.insert(at, next);
        proof {
            assert forall|position: int| 0 <= position < next + 1 implies #[trigger] order@.contains(
                position as usize,
            ) by {
                if position < next {
                    assert(before.contains(position as usize));
                    let i = choose|i: int| 0 <= i < before.len() && before[i] == position as usize;
                    if i < at {
                        assert(order@[i] == position as usize);
                    } else {
                        assert(order@[i + 1] == position as usize);
                    }
                } else {
                    assert(order@[at as int] == position as usize);
                }
            }
            assert forall|i: int, j: int| 0 <= i < j < order@.len() implies comes_before(
                keys@,
                #[trigger] order@[i] as int,
                #[trigger] order@[j] as int,
            ) by {
                if j < at {
                    assert(order@[i] == before[i] && order@[j] == before[j]);
                } else if j == at {
                    assert(order@[i] == before[i]);
                } else if i < at {
                    assert(order@[i] == before[i] && order@[j] == before[j - 1]);
                } else if i == at {
                    assert(order@[j] == before[j - 1]);
                    assert(comes_before(keys@, before[at as int] as int, before[j - 1] as int)
                        || j - 1 == at);
                } else {
                    assert(order@[i] == before[i - 1] && order@[j] == before[j - 1]);
                }
            }
        }
        next += 1;
    }
    order
}

/// The order in which the records are reported: by ascending stop time, records
/// that stop at the same time in the order in which they stand.
pub fn chronological_order(records: &Vec<LoggableRecord>) -> (order: Vec<usize>)
    ensures
        is_ascending_order(order@, stop_keys_of(loggable_views(records@))),
{
    let mut keys: Vec<u64> = Vec::new();
    let mut i: usize = 0;
    while i < records.len()
        invariant
            i <= records.len(),
            keys@.len() == i,
            forall|k: int|
                0 <= k < i ==> #[trigger] keys@[k]
                    == records@[k]@.record.stop_time.spec_order_key(),
        decreases records.len() - i,
    {
        keys.push(records[i].record.stop_time.order_key());
        i += 1;
    }
    assert(keys@ =~= stop_keys_of(loggable_views(records@)));
    ascending_order(&keys)
}

/// What a cell of a record's data row stands for.
pub ghost enum Cell {
    /// The count of a channel.
    Count(u32),
    /// The spill log has no count for the channel.
    NotInSpillLog,
    /// The channel could not be found in the ODB, so no plot was asked for.
    NotInOdb,
    /// The data handler did not deliver the plot.
    DataHandlerError,
    /// The plot is the attachment at this position, counted from one.
    Attachment(nat),
}

/// The text that refers to the attachment at `position`, counted from one.
pub open spec fn reference_text(position: nat) -> Seq<char> {
    "elog:/"@ + decimal(position)
}

/// The text that a cell shows.
pub open spec fn cell_text(cell: Cell) -> Seq<char> {
    match cell {
        Cell::Count(count) => decimal(count as nat),
        Cell::NotInSpillLog => "<NOT_IN_SPILL_LOG>"@,
        Cell::NotInOdb => "<NOT_IN_ODB>"@,
        Cell::DataHandlerError => "<DATA_HANDLER_ERROR>"@,
        Cell::Attachment(position) => reference_text(position),
    }
}

/// The first character of a cell's text tells what the cell is: a digit for a
/// count, `<` for a mark, `e` for a reference.
proof fn lemma_cell_text_start(cell: Cell)
    ensures
        cell_text(cell).len() > 0,
        cell is Attachment <==> cell_text(cell)[0] == 'e',
        cell is Count <==> cell_text(cell)[0] != 'e' && cell_text(cell)[0] != '<',
        cell is NotInSpillLog ==> cell_text(cell).len() == 18,
        cell is NotInOdb ==> cell_text(cell).len() == 12,
        cell is DataHandlerError ==> cell_text(cell).len() == 20,
{
    reveal_strlit("<NOT_IN_SPILL_LOG>");
    reveal_strlit("<NOT_IN_ODB>");
    reveal_strlit("<DATA_HANDLER_ERROR>");
    reveal_strlit("elog:/");
    match cell {
        Cell::Count(count) => {
            lemma_decimal_nonempty(count as nat);
            lemma_decimal_digits(count as nat, 0);
        },
        Cell::Attachment(position) => {
            assert(reference_text(position)[0] == "elog:/"@[0]);
        },
        _ => {},
    }
}

/// No two cells show the same text. In particular a text that refers to an
/// attachment is shown by the cell of that attachment only: neither a count
/// nor a mark can be taken for a reference.
pub proof fn lemma_cell_text_injective(a: Cell, b: Cell)
    requires
        cell_text(a) == cell_text(b),
    ensures
        a == b,
{
    lemma_cell_text_start(a);
    lemma_cell_text_start(b);
    match (a, b) {
        (Cell::Count(x), Cell::Count(y)) => {
            lemma_decimal_injective(x as nat, y as nat);
        },
        (Cell::Attachment(x), Cell::Attachment(y)) => {
            reveal_strlit("elog:/");
            assert(reference_text(x).skip(6) =~= decimal(x));
            assert(reference_text(y).skip(6) =~= decimal(y));
            lemma_decimal_injective(x, y);
        },
        _ => {},
    }
}

/// The texts of a row of cells.
pub open spec fn cell_texts(cells: Seq<Cell>) -> Seq<Seq<char>> {
    cells.map_values(|cell: Cell| cell_text(cell))
}

/// How the request for the plot of one channel ended.
pub ghost enum PlotOutcome {
    /// The channel could not be found in the ODB, so no plot was asked for.
    NotInOdb,
    /// The data handler did not deliver the plot.
    Failed,
    /// The plot is in this file.
    Plotted(PathBuf),
}

/// The outcome for one channel: without a place in the ODB there is no
/// request, whatever `plot` holds; with one, `plot` is what the request gave.
pub open spec fn plot_outcome(odb: Json, channel: Seq<char>, plot: Option<PathBuf>) -> PlotOutcome {
    if !(resolution(odb, channel) is Found) {
        PlotOutcome::NotInOdb
    } else {
        match plot {
            Some(path) => PlotOutcome::Plotted(path),
            None => PlotOutcome::Failed,
        }
    }
}

/// The plot that `plots` holds for the channel at `index`: a channel beyond
/// the end of `plots` has none, as if its plot had not been delivered.
pub open spec fn plot_at(plots: Seq<Option<PathBuf>>, index: int) -> Option<PathBuf> {
    if 0 <= index < plots.len() {
        plots[index]
    } else {
        None
    }
}

/// The outcomes for the channels of a table, channel by channel. What
/// `plots` holds beyond the channels counts for nothing.
pub open spec fn plot_outcomes(
    odb: Json,
    channels: Seq<Seq<char>>,
    plots: Seq<Option<PathBuf>>,
) -> Seq<PlotOutcome> {
    Seq::new(channels.len(), |i: int| plot_outcome(odb, channels[i], plot_at(plots, i)))
}

/// The files of the plots that were delivered, in the order of the channels.
pub open spec fn plotted(outcomes: Seq<PlotOutcome>) -> Seq<PathBuf>
    decreases outcomes.len(),
{
    if outcomes.len() == 0 {
        Seq::empty()
    } else {
        let before = plotted(outcomes.drop_last());
        match outcomes.last() {
            PlotOutcome::Plotted(path) => before.push(path),
            _ => before,
        }
    }
}

/// The cells that stand for the outcomes when `base` attachments precede the
/// plots: a delivered plot is referred to by the position that it takes in
/// the attachment list.
pub open spec fn plot_cells(outcomes: Seq<PlotOutcome>, base: nat) -> Seq<Cell>
    decreases outcomes.len(),
{
    if outcomes.len() == 0 {
        Seq::empty()
    } else {
        let before = plot_cells(outcomes.drop_last(), base);
        match outcomes.last() {
            PlotOutcome::NotInOdb => before.push(Cell::NotInOdb),
            PlotOutcome::Failed => before.push(Cell::DataHandlerError),
            PlotOutcome::Plotted(_) => before.push(Cell::Attachment(base + plotted(outcomes).len())),
        }
    }
}

/// The attachment positions that the cells refer to, in the order of the
/// cells.
pub open spec fn references_in(cells: Seq<Cell>) -> Seq<nat>
    decreases cells.len(),
{
    if cells.len() == 0 {
        Seq::empty()
    } else {
        let before = references_in(cells.drop_last());
        match cells.last() {
            Cell::Attachment(position) => before.push(position),
            _ => before,
        }
    }
}

/// The positions `first + 1`, `first + 2`, up to `first + count`.
pub open spec fn positions_after(first: nat, count: nat) -> Seq<nat> {
    Seq::new(count, |i: int| (first + 1 + i) as nat)
}

/// The cell of a channel's count.
pub open spec fn count_cell(record: RecordView, channel: Seq<char>) -> Cell {
    match record.count(channel) {
        Some(count) => Cell::Count(count),
        None => Cell::NotInSpillLog,
    }
}

/// The cells of the counts of `channels`, channel by channel.
pub open spec fn count_cells(record: RecordView, channels: Seq<Seq<char>>) -> Seq<Cell> {
    Seq::new(channels.len(), |i: int| count_cell(record, channels[i]))
}

/// The first row of a record's table: the channel names and, where plots are
/// attached, as many empty headings after them.
pub open spec fn header_row(table: ChronoboxTableView) -> Seq<Seq<char>> {
    if table.include_attachments {
        table.channel_names + Seq::new(table.channel_names.len(), |i: int| Seq::<char>::empty())
    } else {
        table.channel_names
    }
}

/// The outcomes that count for a table: one for each channel where plots are
/// attached, none otherwise.
pub open spec fn table_outcomes(
    table: ChronoboxTableView,
    odb: Json,
    plots: Seq<Option<PathBuf>>,
) -> Seq<PlotOutcome> {
    if table.include_attachments {
        plot_outcomes(odb, table.channel_names, plots)
    } else {
        Seq::empty()
    }
}

/// The second row of a record's table: the counts and, where plots are
/// attached, the cells of the plots after them.
pub open spec fn data_row(
    table: ChronoboxTableView,
    record: RecordView,
    outcomes: Seq<PlotOutcome>,
    base: nat,
) -> Seq<Cell> {
    count_cells(record, table.channel_names) + plot_cells(outcomes, base)
}

/// The outcomes that count for a record.
pub open spec fn record_outcomes(
    loggable: LoggableView,
    odb: Json,
    plots: Seq<Option<PathBuf>>,
) -> Seq<PlotOutcome> {
    match loggable.config.chronobox_table {
        Some(table) => table_outcomes(table, odb, plots),
        None => Seq::empty(),
    }
}

/// The number of plots that a record asks for.
pub open spec fn plot_count(loggable: LoggableView) -> nat {
    match loggable.config.chronobox_table {
        Some(table) => if table.include_attachments {
            table.channel_names.len()
        } else {
            0
        },
        None => 0,
    }
}

impl LoggableRecord {
    /// The number of plots that the record asks for: one for each channel of
    /// its table where the rule attaches plots, none otherwise.
    pub fn plot_count(&self) -> (count: usize)
        ensures
            count == plot_count(self@),
    {
        match &self.config.chronobox_table {
            Some(table) => {
                if table.include_attachments {
                    assert(table@.channel_names.len() == table.channel_names@.len());
                    table.channel_names.len()
                } else {
                    0
                }
            },
            None => 0,
        }
    }
}

/// The line that names a record: the sequencer in upper case, then the event.
pub open spec fn title_line(upper_name: Seq<char>, event_description: Seq<char>) -> Seq<char> {
    upper_name + " - "@ + event_description + "\n"@
}

/// What a record adds to the text before it is indented: its title line and,
/// in lines of its own, its table.
pub open spec fn block_text(
    upper_name: Seq<char>,
    event_description: Seq<char>,
    table: Option<Seq<char>>,
) -> Seq<char> {
    match table {
        Some(drawn) => title_line(upper_name, event_description) + drawn + "\n"@,
        None => title_line(upper_name, event_description),
    }
}

/// The cells that a record adds to the text: those of its data row, if it
/// has a table.
pub open spec fn record_cells(
    loggable: LoggableView,
    outcomes: Seq<PlotOutcome>,
    base: nat,
) -> Seq<Cell> {
    match loggable.config.chronobox_table {
        Some(table) => data_row(table, loggable.record, outcomes, base),
        None => Seq::empty(),
    }
}

/// The drawing of a record's table, if it has one: the header row above the
/// data row.
pub open spec fn record_table(
    loggable: LoggableView,
    outcomes: Seq<PlotOutcome>,
    base: nat,
) -> Option<Seq<char>> {
    match loggable.config.chronobox_table {
        Some(table) => Some(
            rendered_table(
                seq![header_row(table), cell_texts(record_cells(loggable, outcomes, base))],
            ),
        ),
        None => None,
    }
}

/// The cells of counts refer to no attachment.
pub proof fn lemma_count_cells_without_references(record: RecordView, channels: Seq<Seq<char>>)
    ensures
        references_in(count_cells(record, channels)) == Seq::<nat>::empty(),
    decreases channels.len(),
{
    if channels.len() > 0 {
        lemma_count_cells_without_references(record, channels.drop_last());
        assert(count_cells(record, channels).drop_last() =~= count_cells(
            record,
            channels.drop_last(),
        ));
    }
}

/// The references of two rows of cells, one after the other, are those of
/// the first followed by those of the second.
pub proof fn lemma_references_in_concat(first: Seq<Cell>, second: Seq<Cell>)
    ensures
        references_in(first + second) == references_in(first) + references_in(second),
    decreases second.len(),
{
    if second.len() == 0 {
        assert(first + second =~= first);
        assert(references_in(first) + references_in(second) =~= references_in(first));
    } else {
        lemma_references_in_concat(first, second.drop_last());
        assert((first + second).drop_last() =~= first + second.drop_last());
        assert((first + second).last() == second.last());
        match second.last() {
            Cell::Attachment(position) => {
                assert(references_in(first + second) =~= references_in(first) + references_in(
                    second,
                ));
            },
            _ => {},
        }
    }
}

/// The cells of the plots refer to exactly the attachments that the plots
/// become: with `base` attachments before them, the delivered plots take the
/// positions `base + 1`, `base + 2` and so on, and the cells refer to these
/// positions, each once and in this order.
pub proof fn lemma_plot_cells_refer_to_plotted(outcomes: Seq<PlotOutcome>, base: nat)
    ensures
        plot_cells(outcomes, base).len() == outcomes.len(),
        references_in(plot_cells(outcomes, base)) == positions_after(base, plotted(outcomes).len()),
    decreases outcomes.len(),
{
    if outcomes.len() == 0 {
        assert(references_in(plot_cells(outcomes, base)) =~= positions_after(base, 0));
    } else {
        lemma_plot_cells_refer_to_plotted(outcomes.drop_last(), base);
        let cells = plot_cells(outcomes, base);
        assert(cells.drop_last() =~= plot_cells(outcomes.drop_last(), base));
        match outcomes.last() {
            PlotOutcome::Plotted(_) => {
                assert(cells.last() == Cell::Attachment(base + plotted(outcomes).len()));
                assert(references_in(cells) =~= positions_after(base, plotted(outcomes).len()));
            },
            _ => {},
        }
    }
}

/// What one record adds keeps references and attachments in step: its cells
/// refer to exactly the attachments that it adds, at the positions that they
/// take behind the `base` attachments that were there before.
pub proof fn lemma_record_references(
    loggable: LoggableView,
    odb: Json,
    plots: Seq<Option<PathBuf>>,
    base: nat,
)
    ensures
        references_in(record_cells(loggable, record_outcomes(loggable, odb, plots), base))
            == positions_after(base, plotted(record_outcomes(loggable, odb, plots)).len()),
{
    let outcomes = record_outcomes(loggable, odb, plots);
    lemma_plot_cells_refer_to_plotted(outcomes, base);
    match loggable.config.chronobox_table {
        Some(table) => {
            lemma_count_cells_without_references(loggable.record, table.channel_names);
            lemma_references_in_concat(
                count_cells(loggable.record, table.channel_names),
                plot_cells(outcomes, base),
            );
            assert(Seq::<nat>::empty() + positions_after(base, plotted(outcomes).len())
                =~= positions_after(base, plotted(outcomes).len()));
        },
        None => {
            assert(references_in(Seq::<Cell>::empty()) =~= positions_after(base, 0));
        },
    }
}

/// Positions that follow one another join: `count` positions after `first`
/// and then `more` positions after those are `count + more` positions after
/// `first`.
pub proof fn lemma_positions_after_join(first: nat, count: nat, more: nat)
    ensures
        positions_after(first, count) + positions_after(first + count, more) == positions_after(
            first,
            count + more,
        ),
{
    assert(positions_after(first, count) + positions_after(first + count, more)
        =~= positions_after(first, count + more));
}

/// The request for the plot of one channel of a record: the channel's
/// timestamps between the record's start and its stop, where the ODB says
/// where the channel sits, and no request where it does not.
pub open spec fn planned_request(
    run_number: u32,
    record: RecordView,
    odb: Json,
    channel: Seq<char>,
) -> Option<RequestView> {
    match resolution(odb, channel) {
        Resolution::Found { board, channel_number } => Some(
            RequestView::ChronoboxPlot {
                run_number,
                args: PlotArgsView {
                    board_name: board,
                    channel_number,
                    t_bins: None,
                    t_max: Some(record.stop_time),
                    t_min: Some(record.start_time),
                },
            },
        ),
        _ => None,
    }
}

/// What a planned request says.
pub open spec fn planned_view(request: Option<ClientRequest>) -> Option<RequestView> {
    match request {
        Some(request) => Some(request@),
        None => None,
    }
}

/// The channels, in the order of the table, whose plots a record asks for.
pub open spec fn plot_channels(loggable: LoggableView) -> Seq<Seq<char>> {
    match loggable.config.chronobox_table {
        Some(table) => if table.include_attachments {
            table.channel_names
        } else {
            Seq::empty()
        },
        None => Seq::empty(),
    }
}

/// Plans the plots of a record: for each channel whose plot the rule asks
/// for, in the order of the table, the request to send to the data handler,
/// or nothing where the channel cannot be found in the ODB.
pub fn plot_requests(run_number: u32, loggable: &LoggableRecord, odb: &Json) -> (requests: Vec<
    Option<ClientRequest>,
>)
    ensures
        requests@.len() == plot_count(loggable@),
        requests@.len() == plot_channels(loggable@).len(),
        forall|i: int|
            0 <= i < requests@.len() ==> planned_view(#[trigger] requests@[i]) == planned_request(
                run_number,
                loggable@.record,
                *odb,
                plot_channels(loggable@)[i],
            ),
{
    let mut requests: Vec<Option<ClientRequest>> = Vec::new();
    match &loggable.config.chronobox_table {
        Some(table) => {
            if table.include_attachments {
                let channels = &table.channel_names;
                let mut i: usize = 0;
                while i < channels.len()
                    invariant
                        i <= channels.len(),
                        channels.deep_view() == plot_channels(loggable@),
                        requests@.len() == i,
                        forall|k: int|
                            0 <= k < i ==> planned_view(#[trigger] requests@[k])
                                == planned_request(
                                run_number,
                                loggable@.record,
                                *odb,
                                plot_channels(loggable@)[k],
                            ),
                    decreases channels.len() - i,
                {
                    assert(channels.deep_view()[i as int] == channels@[i as int]@);
                    let request = match find_chronobox_channel(channels[i].as_str(), odb) {
                        Ok(channel) => Some(
                            ClientRequest::ChronoboxPlot {
                                run_number,
                                args: ChronoboxTimestampsArgs {
                                    board_name: channel.board_name,
                                    channel_number: channel.channel_number,
                                    t_bins: None,
                                    t_max: Some(loggable.record.stop_time),
                                    t_min: Some(loggable.record.start_time),
                                },
                            },
                        ),
                        Err(_) => None,
                    };
                    requests.push(request);
                    i += 1;
                }
            }
        },
        None => {},
    }
    requests
}

/// A record together with the plots that were delivered for it.
pub ghost struct Assembled {
    pub loggable: LoggableView,
    pub plots: Seq<Option<PathBuf>>,
}

/// The number of attachments that a run of records adds, one record after the
/// other.
pub open spec fn attachments_added(records: Seq<Assembled>, odb: Json) -> nat
    decreases records.len(),
{
    if records.len() == 0 {
        0
    } else {
        attachments_added(records.drop_last(), odb) + plotted(
            record_outcomes(records.last().loggable, odb, records.last().plots),
        ).len()
    }
}

/// The references that a run of records writes, one record after the other,
/// into an entry that had `base` attachments before.
pub open spec fn references_written(records: Seq<Assembled>, odb: Json, base: nat) -> Seq<nat>
    decreases records.len(),
{
    if records.len() == 0 {
        Seq::empty()
    } else {
        let last = records.last();
        references_written(records.drop_last(), odb, base) + references_in(
            record_cells(
                last.loggable,
                record_outcomes(last.loggable, odb, last.plots),
                base + attachments_added(records.drop_last(), odb),
            ),
        )
    }
}

/// However many records are added and however many plots each of them brings,
/// the references that they write are exactly the positions of the
/// attachments that they add: as many references as attachments, each to an
/// attachment of its own, in the order of the attachment list.
pub proof fn lemma_references_match_attachments(records: Seq<Assembled>, odb: Json, base: nat)
    ensures
        references_written(records, odb, base) == positions_after(
            base,
            attachments_added(records, odb),
        ),
    decreases records.len(),
{
    if records.len() == 0 {
        assert(references_written(records, odb, base) =~= positions_after(base, 0));
    } else {
        let last = records.last();
        let before = attachments_added(records.drop_last(), odb);
        let added = plotted(record_outcomes(last.loggable, odb, last.plots)).len();
        lemma_references_match_attachments(records.drop_last(), odb, base);
        lemma_record_references(last.loggable, odb, last.plots, base + before);
        lemma_positions_after_join(base, before, added);
    }
}

/// In a consistent entry every reference points to an attachment that exists,
/// no two references point to the same attachment, and there are as many
/// references as attachments.
pub proof fn lemma_consistent_references(entry: ElogEntry)
    requires
        entry.consistent(),
    ensures
        entry.reference_list().len() == entry.attachment_list().len(),
        forall|i: int|
            0 <= i < entry.reference_list().len() ==> 1 <= (#[trigger] entry.reference_list()[i])
                <= entry.attachment_list().len(),
        forall|i: int, j: int|
            0 <= i < j < entry.reference_list().len() ==> (#[trigger] entry.reference_list()[i]) != (
            #[trigger] entry.reference_list()[j]),
{
}

/// The subject of a run: the comment that was entered when the run started,
/// or a mark where the comment is empty. There is none where the ODB holds no
/// comment that is a string.
pub open spec fn subject_of(odb: Json) -> Option<Seq<char>> {
    match odb.spec_lookup(seq!["Experiment"@, "Edit on start"@, "Comment"@]) {
        Some(value) => match value.spec_text() {
            Some(comment) => Some(
                if comment.len() == 0 {
                    "MISSING START-RUN COMMENT"@
                } else {
                    comment
                },
            ),
            None => None,
        },
        None => None,
    }
}

/// The subject of a run, from the comment in its final ODB.
pub fn subject(odb: &Json) -> (subject: Option<String>)
    ensures
        match subject {
            Some(text) => subject_of(*odb) == Some(text@),
            None => subject_of(*odb) is None,
        },
{
    let path: [&str; 3] = ["Experiment", "Edit on start", "Comment"];
    assert(crate::odb::names_of(path@) =~= seq!["Experiment"@, "Edit on start"@, "Comment"@]);
    match odb.lookup(path.as_slice()) {
        Some(value) => match value.as_str() {
            Some(comment) => {
                if comment.is_empty() {
                    Some(String::from_str("MISSING START-RUN COMMENT"))
                } else {
                    Some(String::from_str(comment))
                }
            },
            None => None,
        },
        None => None,
    }
}

/// Writes the cells of the counts of `channels` in a record, channel by
/// channel: the count, or the mark that the spill log has none.
pub fn count_row(record: &Record, channels: &Vec<String>) -> (cells: Vec<String>)
    ensures
        cells.deep_view() == cell_texts(count_cells(record@, channels.deep_view())),
{
    let ghost names = channels.deep_view();
    let mut cells: Vec<String> = Vec::new();
    let mut i: usize = 0;
    assert(cells.deep_view() =~= cell_texts(count_cells(record@, names.take(0))));
    while i < channels.len()
        invariant
            i <= channels.len(),
            names == channels.deep_view(),
            cells.deep_view() == cell_texts(count_cells(record@, names.take(i as int))),
        decreases channels.len() - i,
    {
        let ghost before = cells.deep_view();
        assert(names[i as int] == channels@[i as int]@);
        let cell = match record.count(channels[i].as_str()) {
            Some(count) => decimal_string(count as u64),
            None => String::from_str("<NOT_IN_SPILL_LOG>"),
        };
        assert(cell@ == cell_text(count_cell(record@, names[i as int])));
        cells.push(cell);
        assert(cells.deep_view() =~= before.push(cell@));
        assert(cells.deep_view() =~= cell_texts(count_cells(record@, names.take(i + 1))));
        i += 1;
    }
    assert(names.take(i as int) =~= names);
    cells
}

/// Writes the first row of a record's table: the channel names and, where
/// plots are attached, as many empty headings after them.
pub fn header_cells(table: &ChronoboxTableConfig) -> (cells: Vec<String>)
    ensures
        cells.deep_view() == header_row(table@),
{
    let ghost names = table@.channel_names;
    let mut cells: Vec<String> = Vec::new();
    let mut i: usize = 0;
    assert(cells.deep_view() =~= names.take(0));
    while i < table.channel_names.len()
        invariant
            i <= table.channel_names.len(),
            names == table.channel_names.deep_view(),
            cells.deep_view() == names.take(i as int),
        decreases table.channel_names.len() - i,
    {
        let ghost before = cells.deep_view();
        cells.push(table.channel_names[i].clone());
        assert(cells.deep_view() =~= before.push(names[i as int]));
        assert(cells.deep_view() =~= names.take(i + 1));
        i += 1;
    }
    assert(names.take(i as int) =~= names);
    if table.include_attachments {
        let mut j: usize = 0;
        assert(cells.deep_view() =~= names + Seq::new(0, |k: int| Seq::<char>::empty()));
        while j < table.channel_names.len()
            invariant
                j <= table.channel_names.len(),
                names == table.channel_names.deep_view(),
                cells.deep_view() == names + Seq::new(j as nat, |k: int| Seq::<char>::empty()),
            decreases table.channel_names.len() - j,
        {
            let ghost before = cells.deep_view();
            cells.push(String::new());
            assert(cells.deep_view() =~= before.push(Seq::<char>::empty()));
            assert(cells.deep_view() =~= names + Seq::new(
                (j + 1) as nat,
                |k: int| Seq::<char>::empty(),
            ));
            j += 1;
        }
    }
    cells
}

/// The logbook entry that is being written: its text and the files attached
/// to it. The text refers to an attachment by the position of the file in the
/// list, counted from one.
pub struct ElogEntry {
    text: String,
    attachments: Vec<PathBuf>,
    /// The attachment positions that the text refers to, in the order in
    /// which the references were written.
    references: Ghost<Seq<nat>>,
}

impl ElogEntry {
    /// The text of the entry.
    pub closed spec fn text_view(&self) -> Seq<char> {
        self.text@
    }

    /// The files attached to the entry, in their order.
    pub closed spec fn attachment_list(&self) -> Seq<PathBuf> {
        self.attachments@
    }

    /// The attachment positions that the text refers to, in the order in
    /// which the references were written.
    pub closed spec fn reference_list(&self) -> Seq<nat> {
        self.references@
    }

    /// The references and the attachments agree: the text refers to each
    /// attachment once, to the first one first, and to nothing else.
    pub open spec fn consistent(&self) -> bool {
        self.reference_list() == positions_after(0, self.attachment_list().len())
    }

    /// The text of the entry.
    pub fn text(&self) -> (text: &str)
        ensures
            text@ == self.text_view(),
    {
        self.text.as_str()
    }

    /// The files attached to the entry, in their order.
    pub fn attachments(&self) -> (attachments: &Vec<PathBuf>)
        ensures
            attachments@ == self.attachment_list(),
    {
        &self.attachments
    }

    /// An entry without text and without attachments.
    pub fn new() -> (entry: Self)
        ensures
            entry.text_view() == Seq::<char>::empty(),
            entry.attachment_list() == Seq::<PathBuf>::empty(),
            entry.reference_list() == Seq::<nat>::empty(),
            entry.consistent(),
    {
        let entry = ElogEntry {
            text: String::new(),
            attachments: Vec::new(),
            references: Ghost(Seq::empty()),
        };
        assert(entry.reference_list() =~= positions_after(0, 0));
        entry
    }

    /// Attaches a file and writes the line that refers to it: the label, a
    /// colon and the reference.
    pub fn add_attachment(&mut self, label: &str, path: PathBuf)
        ensures
            final(self).attachment_list() == old(self).attachment_list().push(path),
            final(self).reference_list() == old(self).reference_list().push(
                final(self).attachment_list().len() as nat,
            ),
            final(self).text_view() == old(self).text_view() + label@ + ": "@ + reference_text(
                final(self).attachment_list().len() as nat,
            ) + "\n"@,
            old(self).consistent() ==> final(self).consistent(),
    {
        self.attachments.push(path);
        let position = self.attachments.len();
        self.references = Ghost(self.reference_list().push(position as nat));
        let mut line = String::from_str(label);
        line.append(": elog:/");
        line.append(decimal_string(position as u64).as_str());
        line.append("\n");
        proof {
            reveal_strlit(": ");
            reveal_strlit("elog:/");
            reveal_strlit(": elog:/");
            assert(": elog:/"@ =~= ": "@ + "elog:/"@);
            assert(line@ =~= label@ + ": "@ + reference_text(position as nat) + "\n"@);
        }
        self.text.append(line.as_str());
        proof {
            assert(final(self).text_view() =~= old(self).text_view() + label@ + ": "@ + reference_text(
                position as nat,
            ) + "\n"@);
            if old(self).consistent() {
                assert(self.reference_list() =~= positions_after(0, self.attachment_list().len()));
            }
        }
    }

    /// Ends a paragraph of the text with an empty line.
    pub fn add_blank_line(&mut self)
        ensures
            final(self).text_view() == old(self).text_view() + "\n"@,
            final(self).attachment_list() == old(self).attachment_list(),
            final(self).reference_list() == old(self).reference_list(),
    {
        self.text.append("\n");
    }

    /// Attaches the plots that were delivered for the channels of a table and
    /// gives the cells that stand for the requests, channel by channel: the
    /// mark of the ODB where the channel has no place in it, the reference to
    /// the new attachment where `plots` holds the plot, and the mark of the
    /// data handler where it holds none, be it that the plot was not
    /// delivered or that `plots` ends before the channel.
    pub fn attach_plots(
        &mut self,
        channels: &Vec<String>,
        odb: &Json,
        plots: &Vec<Option<PathBuf>>,
    ) -> (cells: Vec<String>)
        ensures
            cells.deep_view() == cell_texts(
                plot_cells(
                    plot_outcomes(*odb, channels.deep_view(), plots@),
                    old(self).attachment_list().len(),
                ),
            ),
            final(self).attachment_list() == old(self).attachment_list() + plotted(
                plot_outcomes(*odb, channels.deep_view(), plots@),
            ),
            final(self).reference_list() == old(self).reference_list() + references_in(
                plot_cells(
                    plot_outcomes(*odb, channels.deep_view(), plots@),
                    old(self).attachment_list().len(),
                ),
            ),
            final(self).text_view() == old(self).text_view(),
            old(self).consistent() ==> final(self).consistent(),
    {
        let ghost base = self.attachment_list().len();
        let ghost names = channels.deep_view();
        let ghost outcomes = plot_outcomes(*odb, names, plots@);
        let mut cells: Vec<String> = Vec::new();
        let mut i: usize = 0;
        assert(outcomes.take(0) =~= Seq::<PlotOutcome>::empty());
        assert(self.attachment_list() =~= old(self).attachment_list() + plotted(outcomes.take(0)));
        assert(self.reference_list() =~= old(self).reference_list() + references_in(
            plot_cells(outcomes.take(0), base),
        ));
        assert(cells.deep_view() =~= cell_texts(plot_cells(outcomes.take(0), base)));
        while i < channels.len()
            invariant
                i <= channels.len(),
                names == channels.deep_view(),
                outcomes == plot_outcomes(*odb, names, plots@),
                base == old(self).attachment_list().len(),
                self.text_view() == old(self).text_view(),
                self.attachment_list() == old(self).attachment_list() + plotted(outcomes.take(i as int)),
                self.reference_list() == old(self).reference_list() + references_in(
                    plot_cells(outcomes.take(i as int), base),
                ),
                cells.deep_view() == cell_texts(plot_cells(outcomes.take(i as int), base)),
            decreases channels.len() - i,
        {
            let ghost cells_before = cells.deep_view();
            let ghost row_before = plot_cells(outcomes.take(i as int), base);
            let ghost next = outcomes.take(i + 1);
            proof {
                assert(next.drop_last() =~= outcomes.take(i as int));
                assert(next.last() == plot_outcome(
                    *odb,
                    names[i as int],
                    plot_at(plots@, i as int),
                ));
                assert(names[i as int] == channels@[i as int]@);
                assert(plot_cells(next, base).drop_last() =~= row_before);
            }
            let delivered = if i < plots.len() {
                plots[i].as_ref()
            } else {
                None
            };
            let cell = match find_chronobox_channel(channels[i].as_str(), odb) {
                Ok(_) => match delivered {
                    Some(path) => {
                        self.attachments.push(path.clone());
                        let position = self.attachments.len();
                        self.references = Ghost(self.reference_list().push(position as nat));
                        let mut reference = String::from_str("elog:/");
                        reference.append(decimal_string(position as u64).as_str());
                        proof {
                            assert(self.attachment_list() =~= old(self).attachment_list() + plotted(next));
                            assert(position == base + plotted(next).len());
                            assert(self.reference_list() =~= old(self).reference_list() + references_in(
                                plot_cells(next, base),
                            ));
                        }
                        reference
                    },
                    None => String::from_str("<DATA_HANDLER_ERROR>"),
                },
                Err(_) => String::from_str("<NOT_IN_ODB>"),
            };
            assert(cell@ == cell_text(plot_cells(next, base).last()));
            cells.push(cell);
            proof {
                assert(plot_cells(next, base) =~= row_before.push(plot_cells(next, base).last()));
                assert(cells.deep_view() =~= cells_before.push(cell@));
                assert(cells.deep_view() =~= cell_texts(plot_cells(next, base)));
            }
            i += 1;
        }
        proof {
            assert(outcomes.take(i as int) =~= outcomes);
            lemma_plot_cells_refer_to_plotted(outcomes, base);
            if old(self).consistent() {
                lemma_positions_after_join(0, base, plotted(outcomes).len());
            }
        }
        cells
    }

    /// Adds one record to the entry: its title line, its table if the rule
    /// asks for one, and the plots that were delivered for it.
    ///
    /// `plots` holds, channel by channel, the file of the plot that
    /// [`plot_requests`] asked for, or nothing where the data handler did not
    /// deliver it; a channel beyond the end of `plots` has no plot either. No
    /// channel makes the record fail: a channel without a count or without a
    /// plot shows in its cell why.
    pub fn add_record(
        &mut self,
        loggable: &LoggableRecord,
        odb: &Json,
        plots: &Vec<Option<PathBuf>>,
    )
        ensures
            final(self).attachment_list() == old(self).attachment_list() + plotted(
                record_outcomes(loggable@, *odb, plots@),
            ),
            final(self).reference_list() == old(self).reference_list() + references_in(
                record_cells(
                    loggable@,
                    record_outcomes(loggable@, *odb, plots@),
                    old(self).attachment_list().len(),
                ),
            ),
            final(self).text_view() == old(self).text_view() + indented(
                4,
                block_text(
                    uppercase(loggable@.record.sequencer_name),
                    loggable@.record.event_description,
                    record_table(
                        loggable@,
                        record_outcomes(loggable@, *odb, plots@),
                        old(self).attachment_list().len(),
                    ),
                ),
            ),
            old(self).consistent() ==> final(self).consistent(),
    {
        let ghost base = self.attachment_list().len();
        let ghost outcomes = record_outcomes(loggable@, *odb, plots@);
        let upper = to_uppercase(loggable.record.sequencer_name.as_str());
        match &loggable.config.chronobox_table {
            Some(table) => {
                let header = header_cells(table);
                let mut data = count_row(&loggable.record, &table.channel_names);
                if table.include_attachments {
                    let ghost counts = data.deep_view();
                    let mut cells = self.attach_plots(&table.channel_names, odb, plots);
                    let ghost added = cells.deep_view();
                    data.append(&mut cells);
                    assert(data.deep_view() =~= counts + added);
                } else {
                    assert(self.attachment_list() =~= old(self).attachment_list() + plotted(outcomes));
                    assert(self.reference_list() =~= old(self).reference_list() + references_in(
                        plot_cells(outcomes, base),
                    ));
                }
                proof {
                    let counted = count_cells(loggable@.record, table@.channel_names);
                    lemma_plot_cells_refer_to_plotted(outcomes, base);
                    lemma_count_cells_without_references(loggable@.record, table@.channel_names);
                    lemma_references_in_concat(counted, plot_cells(outcomes, base));
                    assert(data.deep_view() =~= cell_texts(counted + plot_cells(outcomes, base)));
                }
                proof {
                    assert(header@.len() == header.deep_view().len());
                    assert(data@.len() == data.deep_view().len());
                    assert(count_cells(loggable@.record, table@.channel_names).len()
                        == table@.channel_names.len());
                    assert(plot_cells(outcomes, base).len() == outcomes.len());
                    assert(header_row(table@).len() == data.deep_view().len());
                }
                let mut builder = new_builder();
                push_record(&mut builder, &header);
                push_record(&mut builder, &data);
                let drawn = build_table(builder);
                assert(builder_rows(builder) =~= seq![
                    header_row(table@),
                    cell_texts(record_cells(loggable@, outcomes, base)),
                ]);
                self.push_block(
                    upper.as_str(),
                    loggable.record.event_description.as_str(),
                    Some(drawn.as_str()),
                );
            },
            None => {
                assert(self.attachment_list() =~= old(self).attachment_list() + plotted(outcomes));
                assert(self.reference_list() =~= old(self).reference_list() + references_in(
                    record_cells(loggable@, outcomes, base),
                ));
                self.push_block(upper.as_str(), loggable.record.event_description.as_str(), None);
            },
        }
        proof {
            lemma_record_references(loggable@, *odb, plots@, base);
            if old(self).consistent() {
                lemma_positions_after_join(0, base, plotted(outcomes).len());
            }
        }
    }

    /// Writes the block of one record: the title line and, if there is one,
    /// the drawn table, every line after the first moved right by four spaces.
    pub fn push_block(&mut self, upper_name: &str, event_description: &str, table: Option<&str>)
        ensures
            final(self).text_view() == old(self).text_view() + indented(
                4,
                block_text(
                    upper_name@,
                    event_description@,
                    match table {
                        Some(drawn) => Some(drawn@),
                        None => None,
                    },
                ),
            ),
            final(self).attachment_list() == old(self).attachment_list(),
            final(self).reference_list() == old(self).reference_list(),
    {
        let mut block = String::from_str(upper_name);
        block.append(" - ");
        block.append(event_description);
        block.append("\n");
        match table {
            Some(drawn) => {
                block.append(drawn);
                block.append("\n");
            },
            None => {},
        }
        let moved = indent_by(4, block.as_str());
        self.text.append(moved.as_str());
    }
}

} // verus!
