//! The record of when each source was last seen modified, by which a run
//! leaves out the conversions that are up to date.

use crate::config::convert::{task_views, ConvertTask, ConvertTaskView};
use crate::config::utils::ProbeMismatch;
use crate::text::{ends_with, is_suffix, join_path, path_join};
use vstd::prelude::*;

verus! {

/// When a source was last seen modified, in seconds since the epoch.
#[derive(Debug, Clone)]
pub struct SourceRecord {
    pub file: String,
    pub modified_at: u64,
}

/// The mathematical value of a [`SourceRecord`].
pub struct SourceRecordView {
    pub file: Seq<char>,
    pub modified_at: u64,
}

impl View for SourceRecord {
    type V = SourceRecordView;

    open spec fn view(&self) -> SourceRecordView {
        SourceRecordView { file: self.file@, modified_at: self.modified_at }
    }
}

/// The views of a sequence of records, entry by entry.
pub open spec fn record_views(s: Seq<SourceRecord>) -> Seq<SourceRecordView> {
    s.map_values(|r: SourceRecord| r@)
}

/// What the file system says of a conversion.
#[derive(Debug, Clone, Copy, PartialEq, Eq, Structural)]
pub struct SourceProbe {
    /// The source exists and is a file.
    pub source_is_file: bool,
    /// When the source was modified, in seconds since the epoch. Read only
    /// where the source is a file.
    pub modified_at: u64,
    /// The destination exists.
    pub destination_exists: bool,
}

/// One entry of the source directory.
#[derive(Debug, Clone)]
pub struct SourceEntry {
    pub file_name: String,
    pub is_file: bool,
    pub modified_at: u64,
}

/// What the records say of `path`: its last record counts.
pub open spec fn recorded(records: Seq<SourceRecordView>, path: Seq<char>) -> Option<u64>
    decreases records.len(),
{
    if records.len() == 0 {
        None
    } else if records.last().file == path {
        Some(records.last().modified_at)
    } else {
        recorded(records.drop_last(), path)
    }
}

/// A conversion has to run: its source is no file, or was never recorded,
/// or was modified after its record, or its destination is missing.
pub open spec fn updated(stored: Option<u64>, probe: SourceProbe) -> bool {
    ||| !probe.source_is_file
    ||| stored is None
    ||| probe.modified_at > stored->0
    ||| !probe.destination_exists
}

/// The conversions that have to run.
pub open spec fn updated_tasks(
    records: Seq<SourceRecordView>,
    tasks: Seq<ConvertTaskView>,
    probes: Seq<SourceProbe>,
) -> Seq<ConvertTaskView>
    decreases tasks.len(),
{
    if tasks.len() == 0 || probes.len() == 0 {
        Seq::<ConvertTaskView>::empty()
    } else {
        let rest = updated_tasks(records, tasks.drop_last(), probes.drop_last());
        if updated(recorded(records, tasks.last().source), probes.last()) {
            rest.push(tasks.last())
        } else {
            rest
        }
    }
}

/// The entry is a file whose name ends in `.rtf`.
pub open spec fn is_rtf_file(e: SourceEntry) -> bool {
    e.is_file && is_suffix(".rtf"@, e.file_name@)
}

/// The records of the RTF files among the entries of the directory `dir`.
pub open spec fn records_of(dir: Seq<char>, entries: Seq<SourceEntry>) -> Seq<SourceRecordView>
    decreases entries.len(),
{
    if entries.len() == 0 {
        Seq::<SourceRecordView>::empty()
    } else {
        let rest = records_of(dir, entries.drop_last());
        if is_rtf_file(entries.last()) {
            rest.push(
                SourceRecordView {
                    file: path_join(dir, entries.last().file_name@),
                    modified_at: entries.last().modified_at,
                },
            )
        } else {
            rest
        }
    }
}

/// `record` is that of a file among `entries` whose name ends in `.rtf`.
pub open spec fn made_of(dir: Seq<char>, entries: Seq<SourceEntry>, record: SourceRecordView) -> bool {
    exists|i: int|
        0 <= i < entries.len() && is_rtf_file(#[trigger] entries[i]) && record.file == path_join(
            dir,
            entries[i].file_name@,
        ) && record.modified_at == entries[i].modified_at
}

/// Every record made of the entries of a directory is that of a file of the
/// directory whose name ends in `.rtf`.
pub proof fn lemma_records_are_rtf(dir: Seq<char>, entries: Seq<SourceEntry>)
    ensures
        forall|k: int|
            0 <= k < records_of(dir, entries).len() ==> made_of(
                dir,
                entries,
                #[trigger] records_of(dir, entries)[k],
            ),
    decreases entries.len(),
{
    if entries.len() > 0 {
        let rest = entries.drop_last();
        lemma_records_are_rtf(dir, rest);
        assert forall|k: int| 0 <= k < records_of(dir, entries).len() implies made_of(
            dir,
            entries,
            #[trigger] records_of(dir, entries)[k],
        ) by {
            if k < records_of(dir, rest).len() {
                assert(records_of(dir, entries)[k] == records_of(dir, rest)[k]);
                assert(made_of(dir, rest, records_of(dir, rest)[k]));
                let i = choose|i: int|
                    0 <= i < rest.len() && is_rtf_file(#[trigger] rest[i]) && records_of(
                        dir,
                        rest,
                    )[k].file == path_join(dir, rest[i].file_name@) && records_of(
                        dir,
                        rest,
                    )[k].modified_at == rest[i].modified_at;
                assert(entries[i] == rest[i]);
            } else {
                assert(is_rtf_file(entries[entries.len() - 1]));
            }
        }
    }
}

/// The record of sources of one workspace.
#[derive(Debug, Clone)]
pub struct Source {
    filepath: String,
    data: Vec<SourceRecord>,
}

impl Source {
    /// Where the record is kept.
    pub closed spec fn location(&self) -> Seq<char> {
        self.filepath@
    }

    /// The records, oldest first.
    pub closed spec fn records(&self) -> Seq<SourceRecordView> {
        record_views(self.data@)
    }

    /// When `path` was last seen modified, if it was recorded.
    pub open spec fn stored(&self, path: Seq<char>) -> Option<u64> {
        recorded(self.records(), path)
    }

    /// The record of the workspace, holding `records` as they were read
    /// from `source.json` in it; none where that file is missing.
    pub fn new(workspace: &str, records: Vec<SourceRecord>) -> (r: Self)
        ensures
            r.location() == path_join(workspace@, "source.json"@),
            r.records() == record_views(records@),
    {
        Source { filepath: join_path(workspace, "source.json"), data: records }
    }

    /// Where the record is kept.
    pub fn filepath(&self) -> (r: &String)
        ensures
            r@ == self.location(),
    {
        &self.filepath
    }

    /// When `source` was last seen modified, if it was recorded.
    pub fn last_modified(&self, source: &String) -> (r: Option<u64>)
        ensures
            r == self.stored(source@),
    {
        let mut i = self.data.len();
        assert(self.records().take(i as int) =~= self.records());
        while i > 0
            invariant
                i <= self.data@.len(),
                self.stored(source@) == recorded(self.records().take(i as int), source@),
            decreases i,
        {
            i = i - 1;
            proof {
                assert(self.records().take(i + 1).drop_last() =~= self.records().take(i as int));
                assert(self.records().take(i + 1).last() == self.data@[i as int]@);
            }
            if self.data[i].file == *source {
                return Some(self.data[i].modified_at);
            }
        }
        None
    }

    /// Whether the conversion of `source` has to run: `true` unless the
    /// source is a file that was recorded, was not modified after its
    /// record, and has its destination.
    pub fn is_updated(&self, source: &String, probe: &SourceProbe) -> (r: bool)
        ensures
            r == updated(self.stored(source@), *probe),
            self.stored(source@) matches Some(at) && at < probe.modified_at ==> r,
            !probe.destination_exists ==> r,
            self.stored(source@) is None ==> r,
    {
        if probe.source_is_file {
            match self.last_modified(source) {
                Some(last_modified) => {
                    let is_source_updated = probe.modified_at > last_modified;
                    is_source_updated || !probe.destination_exists
                },
                None => true,
            }
        } else {
            true
        }
    }

    /// The tasks that have to run, in order: those for which `is_updated`
    /// holds. `probes` says of each task what is on disk; it fails unless
    /// there is one probe per task.
    pub fn filter_convert_tasks(&self, tasks: &Vec<ConvertTask>, probes: &Vec<SourceProbe>) -> (r:
        Result<Vec<ConvertTask>, ProbeMismatch>)
        ensures
            r is Ok <==> tasks@.len() == probes@.len(),
            r matches Ok(filtered) ==> task_views(filtered@) == updated_tasks(
                self.records(),
                task_views(tasks@),
                probes@,
            ),
    {
        let n = tasks.len();
        if probes.len() != n {
            return Err(ProbeMismatch);
        }
        let ghost all = task_views(tasks@);
        let mut filtered: Vec<ConvertTask> = Vec::new();
        let mut i: usize = 0;
        assert(task_views(filtered@) =~= updated_tasks(
            self.records(),
            all.take(0),
            probes@.take(0),
        ));
        while i < n
            invariant
                n == tasks@.len(),
                n == probes@.len(),
                i <= n,
                all == task_views(tasks@),
                task_views(filtered@) == updated_tasks(
                    self.records(),
                    all.take(i as int),
                    probes@.take(i as int),
                ),
            decreases n - i,
        {
            let task = &tasks[i];
            let ghost old_filtered = filtered@;
            proof {
                assert(all.take(i + 1).drop_last() =~= all.take(i as int));
                assert(probes@.take(i + 1).drop_last() =~= probes@.take(i as int));
                assert(all.take(i + 1).last() == task@);
            }
            if self.is_updated(&task.source, &probes[i]) {
                filtered.push(task.duplicate());
                assert(task_views(filtered@) =~= task_views(old_filtered).push(task@));
            }
            i = i + 1;
        }
        assert(all.take(n as int) =~= all);
        assert(probes@.take(n as int) =~= probes@);
        Ok(filtered)
    }

    /// The records to write for the source directory `source`: one for each
    /// of its entries that is a file whose name ends in `.rtf`.
    pub fn update_source(&self, source: &str, entries: &Vec<SourceEntry>) -> (r: Vec<SourceRecord>)
        ensures
            record_views(r@) == records_of(source@, entries@),
    {
        let mut data: Vec<SourceRecord> = Vec::new();
        let n = entries.len();
        let mut i: usize = 0;
        assert(record_views(data@) =~= records_of(source@, entries@.take(0)));
        while i < n
            invariant
                n == entries@.len(),
                i <= n,
                record_views(data@) == records_of(source@, entries@.take(i as int)),
            decreases n - i,
        {
            let entry = &entries[i];
            let ghost old_data = data@;
            proof {
                assert(entries@.take(i + 1).drop_last() =~= entries@.take(i as int));
                assert(entries@.take(i + 1).last() == *entry);
            }
            if entry.is_file && ends_with(entry.file_name.as_str(), ".rtf") {
                let record = SourceRecord {
                    file: join_path(source, entry.file_name.as_str()),
                    modified_at: entry.modified_at,
                };
                data.push(record);
                assert(record_views(data@) =~= record_views(old_data).push(record@));
            }
            i = i + 1;
        }
        assert(entries@.take(n as int) =~= entries@);
        data
    }
}

} // verus!
