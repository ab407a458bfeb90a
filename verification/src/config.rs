//! The operator's configuration: where the logbook and the data handler are,
//! and the rules that say which spill-log records are reported and how.

use std::path::PathBuf;
use vstd::prelude::*;

verus! {

/// `std::path::PathBuf`, carried through as an opaque value.
#[verifier::external_type_specification]
#[verifier::external_body]
pub struct ExPathBuf(PathBuf);

/// `PathBuf::clone`: the copy is the same path.
pub assume_specification[ <PathBuf as Clone>::clone ](path: &PathBuf) -> (copy: PathBuf)
    ensures
        copy == *path,
;

/// The whole configuration of the program.
#[derive(Debug)]
pub struct Config {
    /// Chronobox channels that get a column in the spill-log summary.
    pub spill_log_columns: Vec<String>,
    pub elog: ElogConfig,
    pub data_handler: DataHandlerConfig,
    /// The rules, in the order in which they are tried.
    pub rules: Vec<LogRule>,
}

/// How the logbook is reached.
#[derive(Debug)]
pub struct ElogConfig {
    /// The logbook's command-line client.
    pub client: PathBuf,
    pub host: String,
    pub port: u16,
    pub logbook: Logbook,
}

/// The logbooks that an entry can go to.
#[derive(Clone, Copy, Debug, PartialEq, Eq, Structural)]
pub enum Logbook {
    DataLog,
    Test,
}

impl Logbook {
    /// The name under which the logbook server knows this logbook.
    pub open spec fn spec_name(self) -> Seq<char> {
        match self {
            Logbook::DataLog => "DataLog"@,
            Logbook::Test => "test"@,
        }
    }

    /// The name under which the logbook server knows this logbook.
    pub fn name(&self) -> (name: String)
        ensures
            name@ == self.spec_name(),
    {
        match self {
            Logbook::DataLog => String::from_str("DataLog"),
            Logbook::Test => String::from_str("test"),
        }
    }
}

/// Where the data handler listens.
#[derive(Debug)]
pub struct DataHandlerConfig {
    pub host: String,
    pub port: u16,
}

/// One rule: the records of this sequencer with this event description are
/// reported as `config` says.
#[derive(Debug)]
pub struct LogRule {
    pub sequencer_name: String,
    pub event_description: String,
    pub config: EntryConfig,
}

/// How a matching record is reported.
#[derive(Debug)]
pub struct EntryConfig {
    /// The table of Chronobox counts, if the record gets one.
    pub chronobox_table: Option<ChronoboxTableConfig>,
    pub external_resources: Vec<ExternalResourceConfig>,
}

/// The table of Chronobox counts of one record.
#[derive(Debug)]
pub struct ChronoboxTableConfig {
    /// The channels, one column each, in this order.
    pub channel_names: Vec<String>,
    /// Whether each channel also gets a plot of its timestamps.
    pub include_attachments: bool,
}

/// Files written by other systems while the run was taken.
#[derive(Debug)]
pub struct ExternalResourceConfig {
    /// The directory below which the files lie, by date.
    pub base_path: PathBuf,
    pub header: Option<String>,
    pub include_description: bool,
    pub include_attachment: bool,
}

/// What a [`ChronoboxTableConfig`] says.
pub ghost struct ChronoboxTableView {
    pub channel_names: Seq<Seq<char>>,
    pub include_attachments: bool,
}

/// What an [`ExternalResourceConfig`] says.
pub ghost struct ExternalResourceView {
    pub base_path: PathBuf,
    pub header: Option<Seq<char>>,
    pub include_description: bool,
    pub include_attachment: bool,
}

/// What an [`EntryConfig`] says.
pub ghost struct EntryView {
    pub chronobox_table: Option<ChronoboxTableView>,
    pub external_resources: Seq<ExternalResourceView>,
}

/// What a [`LogRule`] says.
pub ghost struct RuleView {
    pub sequencer_name: Seq<char>,
    pub event_description: Seq<char>,
    pub config: EntryView,
}

impl View for ChronoboxTableConfig {
    type V = ChronoboxTableView;

    open spec fn view(&self) -> ChronoboxTableView {
        ChronoboxTableView {
            channel_names: self.channel_names.deep_view(),
            include_attachments: self.include_attachments,
        }
    }
}

impl View for ExternalResourceConfig {
    type V = ExternalResourceView;

    open spec fn view(&self) -> ExternalResourceView {
        ExternalResourceView {
            base_path: self.base_path,
            header: match self.header {
                Some(h) => Some(h@),
                None => None,
            },
            include_description: self.include_description,
            include_attachment: self.include_attachment,
        }
    }
}

impl View for EntryConfig {
    type V = EntryView;

    open spec fn view(&self) -> EntryView {
        EntryView {
            chronobox_table: match self.chronobox_table {
                Some(t) => Some(t@),
                None => None,
            },
            external_resources: self.external_resources@.map_values(
                |r: ExternalResourceConfig| r@,
            ),
        }
    }
}

impl View for LogRule {
    type V = RuleView;

    open spec fn view(&self) -> RuleView {
        RuleView {
            sequencer_name: self.sequencer_name@,
            event_description: self.event_description@,
            config: self.config@,
        }
    }
}

impl Clone for ChronoboxTableConfig {
    fn clone(&self) -> (copy: Self)
        ensures
            copy@ == self@,
    {
        let channel_names = self.channel_names.clone();
        assert(channel_names.deep_view() =~= self.channel_names.deep_view());
        ChronoboxTableConfig { channel_names, include_attachments: self.include_attachments }
    }
}

impl Clone for ExternalResourceConfig {
    fn clone(&self) -> (copy: Self)
        ensures
            copy@ == self@,
    {
        let header = match &self.header {
            Some(h) => Some(h.clone()),
            None => None,
        };
        ExternalResourceConfig {
            base_path: self.base_path.clone(),
            header,
            include_description: self.include_description,
            include_attachment: self.include_attachment,
        }
    }
}

impl Clone for EntryConfig {
    fn clone(&self) -> (copy: Self)
        ensures
            copy@ == self@,
    {
        let chronobox_table = match &self.chronobox_table {
            Some(t) => Some(t.clone()),
            None => None,
        };
        let mut external_resources: Vec<ExternalResourceConfig> = Vec::new();
        let mut i: usize = 0;
        while i < self.external_resources.len()
            invariant
                i <= self.external_resources.len(),
                external_resources@.len() == i,
                forall|j: int|
                    0 <= j < i ==> (#[trigger] external_resources@[j])@
                        == self.external_resources@[j]@,
            decreases self.external_resources.len() - i,
        {
            external_resources.push(self.external_resources[i].clone());
            i += 1;
        }
        let copy = EntryConfig { chronobox_table, external_resources };
        assert(copy@.external_resources =~= self@.external_resources);
        copy
    }
}

} // verus!
