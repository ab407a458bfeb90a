use alpha_g_elogger::config::{ChronoboxTableConfig, EntryConfig, LogRule};
use alpha_g_elogger::data_handler::ClientRequest;
use alpha_g_elogger::elog::{
    ascending_order, chronological_order, find_config, loggable_records, plot_requests, ElogEntry,
    LoggableRecord,
};
use alpha_g_elogger::odb::Json;
use alpha_g_elogger::spill_log::{Record, SpillLog, Seconds};
use std::path::PathBuf;

fn time(seconds: f64) -> Seconds {
    Seconds::from_bits(seconds.to_bits())
}

fn record(sequencer: &str, event: &str, start: f64, stop: f64, counts: &[(&str, u32)]) -> Record {
    Record {
        sequencer_name: String::from(sequencer),
        event_description: String::from(event),
        start_time: time(start),
        stop_time: time(stop),
        counts: counts.iter().map(|(name, count)| (String::from(*name), *count)).collect(),
    }
}

fn table(channels: &[&str], include_attachments: bool) -> EntryConfig {
    EntryConfig {
        chronobox_table: Some(ChronoboxTableConfig {
            channel_names: channels.iter().map(|name| String::from(*name)).collect(),
            include_attachments,
        }),
        external_resources: Vec::new(),
    }
}

fn no_table() -> EntryConfig {
    EntryConfig { chronobox_table: None, external_resources: Vec::new() }
}

fn rule(sequencer: &str, event: &str, config: EntryConfig) -> LogRule {
    LogRule {
        sequencer_name: String::from(sequencer),
        event_description: String::from(event),
        config,
    }
}

fn channels_of(config: &EntryConfig) -> Vec<String> {
    match &config.chronobox_table {
        Some(table) => table.channel_names.clone(),
        None => Vec::new(),
    }
}

fn odb() -> Json {
    Json::parse(
        "{\"Equipment\": {\
         \"cb01\": {\"Settings\": {\"names\": [\"chA\", \"chB\"]}}, \
         \"cb02\": {\"Settings\": {\"names\": [\"chC\"]}}, \
         \"cb03\": {\"Settings\": {\"names\": [\"dup\"]}}, \
         \"cb04\": {\"Settings\": {\"names\": [\"dup\"]}}}}",
    )
    .unwrap()
}

fn count_of(text: &str, pattern: &str) -> usize {
    text.matches(pattern).count()
}

#[test]
fn find_config_returns_the_first_matching_rule() {
    let rules = vec![
        rule("seqA", "other", table(&["x"], false)),
        rule("seqA", "fillA", table(&["first"], false)),
        rule("seqA", "fillA", table(&["second"], false)),
        rule("seqB", "fillA", table(&["third"], false)),
    ];
    let found = find_config(&record("seqA", "fillA", 0.0, 1.0, &[]), &rules).unwrap();
    assert_eq!(channels_of(found), vec![String::from("first")]);
    let found = find_config(&record("seqB", "fillA", 0.0, 1.0, &[]), &rules).unwrap();
    assert_eq!(channels_of(found), vec![String::from("third")]);
}

#[test]
fn find_config_needs_both_names_to_be_equal() {
    let rules = vec![rule("seqA", "fillA", no_table())];
    assert!(find_config(&record("seqA", "fillB", 0.0, 1.0, &[]), &rules).is_none());
    assert!(find_config(&record("seqB", "fillA", 0.0, 1.0, &[]), &rules).is_none());
    assert!(find_config(&record("SEQA", "fillA", 0.0, 1.0, &[]), &rules).is_none());
    assert!(find_config(&record("seqA", "fillA", 0.0, 1.0, &[]), &rules).is_some());
    let none: Vec<LogRule> = Vec::new();
    assert!(find_config(&record("seqA", "fillA", 0.0, 1.0, &[]), &none).is_none());
}

#[test]
fn loggable_records_leaves_out_records_without_a_rule() {
    let rules = vec![
        rule("seqA", "fillA", table(&["a"], false)),
        rule("seqB", "dump", table(&["b"], true)),
    ];
    let spill_log = SpillLog {
        records: vec![
            record("seqB", "dump", 1.0, 2.0, &[("b", 1)]),
            record("seqC", "nothing", 2.0, 3.0, &[]),
            record("seqA", "fillA", 3.0, 4.0, &[("a", 2)]),
            record("seqB", "dump", 4.0, 5.0, &[("b", 3)]),
        ],
    };
    let picked = loggable_records(&spill_log, &rules);
    assert_eq!(picked.len(), 3);
    assert_eq!(picked[0].record.sequencer_name, "seqB");
    assert_eq!(picked[0].record.counts, vec![(String::from("b"), 1)]);
    assert_eq!(channels_of(&picked[0].config), vec![String::from("b")]);
    assert_eq!(picked[1].record.sequencer_name, "seqA");
    assert_eq!(picked[1].record.start_time, time(3.0));
    assert_eq!(picked[1].record.stop_time, time(4.0));
    assert_eq!(channels_of(&picked[1].config), vec![String::from("a")]);
    assert_eq!(picked[2].record.counts, vec![(String::from("b"), 3)]);
    assert_eq!(spill_log.records.len(), 4);
}

#[test]
fn ascending_order_is_by_key_and_keeps_equal_keys_in_place() {
    assert_eq!(ascending_order(&vec![30, 10, 20]), vec![1, 2, 0]);
    assert_eq!(ascending_order(&vec![5, 5, 1, 5, 1]), vec![2, 4, 0, 1, 3]);
    assert_eq!(ascending_order(&vec![]), Vec::<usize>::new());
    assert_eq!(ascending_order(&vec![7]), vec![0]);
    assert_eq!(ascending_order(&vec![1, 2, 3]), vec![0, 1, 2]);
    assert_eq!(ascending_order(&vec![3, 2, 1]), vec![2, 1, 0]);
}

#[test]
fn records_are_reported_by_ascending_stop_time() {
    let records = vec![
        LoggableRecord { record: record("seq", "third", 0.0, 30.5, &[]), config: no_table() },
        LoggableRecord { record: record("seq", "first", 0.0, 10.25, &[]), config: no_table() },
        LoggableRecord { record: record("seq", "second", 0.0, 20.0, &[]), config: no_table() },
    ];
    let order = chronological_order(&records);
    assert_eq!(order, vec![1, 2, 0]);

    let mut entry = ElogEntry::new();
    for index in order {
        entry.add_record(&records[index], &odb(), &Vec::new());
    }
    assert_eq!(entry.text(), "SEQ - first\nSEQ - second\nSEQ - third\n");
}

#[test]
fn negative_stop_times_come_before_positive_ones() {
    let records = vec![
        LoggableRecord { record: record("seq", "c", 0.0, 1.5, &[]), config: no_table() },
        LoggableRecord { record: record("seq", "a", 0.0, -2.0, &[]), config: no_table() },
        LoggableRecord { record: record("seq", "b", 0.0, -0.5, &[]), config: no_table() },
        LoggableRecord { record: record("seq", "d", 0.0, 1.5, &[]), config: no_table() },
    ];
    assert_eq!(chronological_order(&records), vec![1, 2, 0, 3]);
}

#[test]
fn a_channel_without_a_count_shows_the_mark_of_the_spill_log() {
    let loggable = LoggableRecord {
        record: record("seqA", "fillA", 100.0, 200.0, &[("chA", 5)]),
        config: table(&["X"], false),
    };
    let mut entry = ElogEntry::new();
    entry.add_record(&loggable, &odb(), &Vec::new());
    assert_eq!(
        entry.text(),
        "SEQA - fillA\n\
         \x20   +--------------------+\n\
         \x20   | X                  |\n\
         \x20   +--------------------+\n\
         \x20   | <NOT_IN_SPILL_LOG> |\n\
         \x20   +--------------------+\n"
    );
    assert!(entry.attachments().is_empty());
}

#[test]
fn a_record_with_one_count_and_one_channel_that_the_log_lacks() {
    let rules = vec![rule("seqA", "fillA", table(&["chA", "chB"], false))];
    let spill_log =
        SpillLog { records: vec![record("seqA", "fillA", 100.0, 200.0, &[("chA", 5)])] };
    let picked = loggable_records(&spill_log, &rules);
    assert_eq!(picked.len(), 1);
    assert!(plot_requests(7, &picked[0], &odb()).is_empty());

    let mut entry = ElogEntry::new();
    entry.add_record(&picked[0], &odb(), &Vec::new());
    assert_eq!(
        entry.text(),
        "SEQA - fillA\n\
         \x20   +-----+--------------------+\n\
         \x20   | chA | chB                |\n\
         \x20   +-----+--------------------+\n\
         \x20   | 5   | <NOT_IN_SPILL_LOG> |\n\
         \x20   +-----+--------------------+\n"
    );
    assert!(entry.attachments().is_empty());
}

#[test]
fn a_record_without_a_table_adds_its_title_only() {
    let loggable = LoggableRecord {
        record: record("seqä", "Mixing", 1.0, 2.0, &[("chA", 5)]),
        config: no_table(),
    };
    let mut entry = ElogEntry::new();
    entry.add_record(&loggable, &odb(), &Vec::new());
    entry.add_record(&loggable, &odb(), &Vec::new());
    assert_eq!(entry.text(), "SEQÄ - Mixing\nSEQÄ - Mixing\n");
}

#[test]
fn plot_requests_ask_for_the_window_of_the_record() {
    let loggable = LoggableRecord {
        record: record("seqA", "fillA", 100.5, 200.25, &[]),
        config: table(&["chB", "nowhere", "chC", "dup"], true),
    };
    let requests = plot_requests(4321, &loggable, &odb());
    assert_eq!(requests.len(), 4);
    match &requests[0] {
        Some(ClientRequest::ChronoboxPlot { run_number, args }) => {
            assert_eq!(*run_number, 4321);
            assert_eq!(args.board_name, "cb01");
            assert_eq!(args.channel_number, 1);
            assert_eq!(args.t_bins, None);
            assert_eq!(args.t_min, Some(time(100.5)));
            assert_eq!(args.t_max, Some(time(200.25)));
        }
        other => panic!("unexpected request: {:?}", other),
    }
    assert!(requests[1].is_none());
    match &requests[2] {
        Some(ClientRequest::ChronoboxPlot { args, .. }) => {
            assert_eq!(args.board_name, "cb02");
            assert_eq!(args.channel_number, 0);
        }
        other => panic!("unexpected request: {:?}", other),
    }
    assert!(requests[3].is_none());
}

#[test]
fn plot_requests_are_none_without_attachments() {
    let without = LoggableRecord {
        record: record("seqA", "fillA", 1.0, 2.0, &[]),
        config: table(&["chA"], false),
    };
    assert!(plot_requests(1, &without, &odb()).is_empty());
    let bare =
        LoggableRecord { record: record("seqA", "fillA", 1.0, 2.0, &[]), config: no_table() };
    assert!(plot_requests(1, &bare, &odb()).is_empty());
}

#[test]
fn plots_are_attached_and_referred_to_by_position() {
    let loggable = LoggableRecord {
        record: record("seqA", "fillA", 100.0, 200.0, &[("chA", 5), ("chC", 12)]),
        config: table(&["chA", "nowhere", "chC", "chB"], true),
    };
    let plots = vec![
        Some(PathBuf::from("/tmp/a.pdf")),
        Some(PathBuf::from("/tmp/ignored.pdf")),
        None,
        Some(PathBuf::from("/tmp/b.pdf")),
    ];
    let mut entry = ElogEntry::new();
    entry.add_attachment("Sequencer", PathBuf::from("/tmp/sequencer.txt"));
    entry.add_blank_line();
    entry.add_record(&loggable, &odb(), &plots);
    assert_eq!(
        *entry.attachments(),
        vec![
            PathBuf::from("/tmp/sequencer.txt"),
            PathBuf::from("/tmp/a.pdf"),
            PathBuf::from("/tmp/b.pdf"),
        ]
    );
    assert_eq!(
        entry.text(),
        "Sequencer: elog:/1\n\
         \n\
         SEQA - fillA\n\
         \x20   +-----+--------------------+-----+--------------------+---------+--------------+----------------------+---------+\n\
         \x20   | chA | nowhere            | chC | chB                |         |              |                      |         |\n\
         \x20   +-----+--------------------+-----+--------------------+---------+--------------+----------------------+---------+\n\
         \x20   | 5   | <NOT_IN_SPILL_LOG> | 12  | <NOT_IN_SPILL_LOG> | elog:/2 | <NOT_IN_ODB> | <DATA_HANDLER_ERROR> | elog:/3 |\n\
         \x20   +-----+--------------------+-----+--------------------+---------+--------------+----------------------+---------+\n"
    );
}

#[test]
fn an_ambiguous_channel_gets_no_plot() {
    let loggable = LoggableRecord {
        record: record("seqA", "fillA", 100.0, 200.0, &[]),
        config: table(&["dup"], true),
    };
    let mut entry = ElogEntry::new();
    entry.add_record(&loggable, &odb(), &vec![Some(PathBuf::from("/tmp/never.pdf"))]);
    assert!(entry.attachments().is_empty());
    assert_eq!(count_of(entry.text(), "<NOT_IN_ODB>"), 1);
    assert_eq!(count_of(entry.text(), "elog:/"), 0);
}

#[test]
fn references_and_attachments_stay_in_step_over_many_records() {
    let mut entry = ElogEntry::new();
    entry.add_attachment("Sequencer", PathBuf::from("/tmp/sequencer.txt"));
    entry.add_attachment("Spill log summary", PathBuf::from("/tmp/summary.txt"));
    entry.add_blank_line();
    let mut expected = 2;
    for round in 0..12 {
        let loggable = LoggableRecord {
            record: record("seqA", "fillA", 1.0, 2.0, &[("chA", round)]),
            config: table(&["chA", "chB", "chC"], true),
        };
        let plots: Vec<Option<PathBuf>> = (0..3)
            .map(|channel| {
                if (round + channel) % 3 == 0 {
                    None
                } else {
                    Some(PathBuf::from(format!("/tmp/plot_{}_{}.pdf", round, channel)))
                }
            })
            .collect();
        expected += plots.iter().filter(|plot| plot.is_some()).count();
        entry.add_record(&loggable, &odb(), &plots);
        assert_eq!(entry.attachments().len(), expected);
    }
    assert_eq!(expected, 2 + 24);
    assert_eq!(count_of(entry.text(), "elog:/"), entry.attachments().len());
    for position in 1..=entry.attachments().len() {
        let reference = format!("elog:/{} ", position);
        let at_line_end = format!("elog:/{}\n", position);
        assert_eq!(
            count_of(entry.text(), &reference) + count_of(entry.text(), &at_line_end),
            1,
            "position {}",
            position
        );
    }
    assert_eq!(count_of(entry.text(), "<DATA_HANDLER_ERROR>"), 12);
}

#[test]
fn a_new_entry_is_empty() {
    let entry = ElogEntry::new();
    assert_eq!(entry.text(), "");
    assert!(entry.attachments().is_empty());
}

#[test]
fn add_attachment_writes_the_label_and_the_reference() {
    let mut entry = ElogEntry::new();
    entry.add_attachment("Sequencer", PathBuf::from("a.txt"));
    entry.add_attachment("Spill log summary", PathBuf::from("b.txt"));
    entry.add_blank_line();
    assert_eq!(entry.text(), "Sequencer: elog:/1\nSpill log summary: elog:/2\n\n");
    assert_eq!(*entry.attachments(), vec![PathBuf::from("a.txt"), PathBuf::from("b.txt")]);
}

#[test]
fn push_block_moves_every_line_but_the_first() {
    let mut entry = ElogEntry::new();
    entry.push_block("SEQ", "event", Some("line one\n\nline three"));
    assert_eq!(entry.text(), "SEQ - event\n    line one\n\n    line three\n");
    entry.push_block("SEQ", "next", None);
    assert_eq!(
        entry.text(),
        "SEQ - event\n    line one\n\n    line three\nSEQ - next\n"
    );
}

#[test]
fn push_block_drops_a_carriage_return_before_a_line_feed() {
    let mut entry = ElogEntry::new();
    entry.push_block("SEQ", "event\r", Some("a\r\nb\r"));
    assert_eq!(entry.text(), "SEQ - event\n    a\n    b\n");
    let mut entry = ElogEntry::new();
    entry.push_block("", "", Some(""));
    assert_eq!(entry.text(), " - \n\n");
}

#[test]
fn a_record_asks_for_a_plot_of_each_channel_of_its_table() {
    let with = LoggableRecord {
        record: record("seqA", "fillA", 1.0, 2.0, &[]),
        config: table(&["chA", "chB", "chC"], true),
    };
    assert_eq!(with.plot_count(), 3);
    assert_eq!(plot_requests(1, &with, &odb()).len(), 3);
    let without = LoggableRecord {
        record: record("seqA", "fillA", 1.0, 2.0, &[]),
        config: table(&["chA", "chB", "chC"], false),
    };
    assert_eq!(without.plot_count(), 0);
    let bare =
        LoggableRecord { record: record("seqA", "fillA", 1.0, 2.0, &[]), config: no_table() };
    assert_eq!(bare.plot_count(), 0);
}

#[test]
fn a_table_without_channels_is_drawn_as_nothing() {
    let loggable = LoggableRecord {
        record: record("seqA", "fillA", 1.0, 2.0, &[("chA", 1)]),
        config: table(&[], true),
    };
    let mut entry = ElogEntry::new();
    entry.add_record(&loggable, &odb(), &Vec::new());
    assert_eq!(entry.text(), "SEQA - fillA\n\n");
    assert!(entry.attachments().is_empty());
}

#[test]
fn cells_of_several_lines_keep_the_table_indented() {
    let loggable = LoggableRecord {
        record: record("seqA", "fillA", 1.0, 2.0, &[("two\nlines", 7)]),
        config: table(&["two\nlines"], false),
    };
    let mut entry = ElogEntry::new();
    entry.add_record(&loggable, &odb(), &Vec::new());
    assert_eq!(
        entry.text(),
        "SEQA - fillA\n\
         \x20   +-------+\n\
         \x20   | two   |\n\
         \x20   | lines |\n\
         \x20   +-------+\n\
         \x20   | 7     |\n\
         \x20   +-------+\n"
    );
}

#[test]
fn a_record_without_the_outcomes_of_its_plots_shows_the_mark_of_the_data_handler() {
    let loggable = LoggableRecord {
        record: record("seqA", "fillA", 1.0, 2.0, &[("chA", 3)]),
        config: table(&["chA", "nowhere"], true),
    };
    let mut entry = ElogEntry::new();
    entry.add_record(&loggable, &odb(), &Vec::new());
    assert_eq!(
        entry.text(),
        "SEQA - fillA\n\
         \x20   +-----+--------------------+----------------------+--------------+\n\
         \x20   | chA | nowhere            |                      |              |\n\
         \x20   +-----+--------------------+----------------------+--------------+\n\
         \x20   | 3   | <NOT_IN_SPILL_LOG> | <DATA_HANDLER_ERROR> | <NOT_IN_ODB> |\n\
         \x20   +-----+--------------------+----------------------+--------------+\n"
    );
    assert!(entry.attachments().is_empty());
}

#[test]
fn plots_of_a_record_without_attachments_are_not_looked_at() {
    let loggable = LoggableRecord {
        record: record("seqA", "fillA", 1.0, 2.0, &[("chA", 3)]),
        config: table(&["chA"], false),
    };
    let mut entry = ElogEntry::new();
    entry.add_record(&loggable, &odb(), &vec![Some(PathBuf::from("/tmp/a.pdf"))]);
    assert!(entry.attachments().is_empty());
    assert_eq!(count_of(entry.text(), "elog:/"), 0);
}
