//! Writes the logbook entry of one data-taking run.
//!
//! The library holds the decisions and leaves the doing to its caller:
//!
//! - [`data_handler`]: the steps of a job with the data handler, from the
//!   readiness probe to the download, as a state machine, and the reading of
//!   what was downloaded;
//! - [`spill_log`] and [`odb`]: the records of the spill log and the final
//!   ODB, a JSON document that is read by paths of names;
//! - [`elog`]: which records are reported, in which order, and the text and
//!   the attachments that each of them adds to the entry;
//! - [`chronobox`]: where a Chronobox channel sits, by the ODB;
//! - [`summary`]: the table of the whole spill log;
//! - [`external_resources`]: the files of other systems that belong to a run;
//! - [`config`]: the operator's configuration;
//! - [`render`] and [`text`]: tables, indentation and numerals.
//!
//! Nothing here performs I/O. A caller runs the network exchanges that the
//! state machine asks for and hands the outcomes back.

pub mod chronobox;
pub mod config;
pub mod data_handler;
pub mod elog;
pub mod external_resources;
pub mod odb;
pub mod render;
pub mod spill_log;
pub mod summary;
pub mod text;
