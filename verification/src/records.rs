//! The record types a parsed document is made of, with their ghost views.

use vstd::prelude::*;
use crate::model::{FileLogV, RecordV, UpdateV};

verus! {

/// One key/value update inside a record.
pub struct Update {
    pub key: String,
    pub value: String,
}

impl DeepView for Update {
    type V = UpdateV;

    open spec fn deep_view(&self) -> UpdateV {
        UpdateV { key: self.key@, value: self.value@ }
    }
}

/// One update record: its category name and its `old`, `new` and `info`
/// update lists. `old` and `new` are paired positionally.
pub struct LogRecord {
    pub name: String,
    pub old: Vec<Update>,
    pub new: Vec<Update>,
    pub info: Vec<Update>,
}

impl DeepView for LogRecord {
    type V = RecordV;

    open spec fn deep_view(&self) -> RecordV {
        RecordV {
            name: self.name@,
            old: self.old.deep_view(),
            new: self.new.deep_view(),
            info: self.info.deep_view(),
        }
    }
}

/// One source file's name and its records.
pub struct SourceFileLog {
    pub name: String,
    pub logs: Vec<LogRecord>,
}

impl DeepView for SourceFileLog {
    type V = FileLogV;

    open spec fn deep_view(&self) -> FileLogV {
        FileLogV { name: self.name@, logs: self.logs.deep_view() }
    }
}

} // verus!
