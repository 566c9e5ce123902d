//! OneZipper's decision logic: which folders qualify, what a command line
//! means, what the reports say, and how an archive is checked before any
//! original is deleted.

pub mod text;
pub mod cli;
pub mod order;
pub mod select;
pub mod paths;
pub mod report;
pub mod marker;
pub mod ignore_list;
pub mod checksum;
pub mod archive;
pub mod timestamp;
pub mod job;
pub mod walk;
