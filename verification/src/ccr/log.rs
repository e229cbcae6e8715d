//! The replicated log: entries indexed from 0, each with the term in which it
//! was appended. The caller persists what this log holds (see `entries`).
use vstd::prelude::*;

verus! {

#[derive(Debug)]
pub struct LogEntry {
    pub index: u64,
    pub term: u64,
    pub command: String,
}

/// Errors of the log: reading or writing its file, decoding it, or an index
/// past its end.
#[derive(Debug)]
pub enum LogError {
    IOError(String),
    SerializationError(String),
    IndexOutOfBounds,
}

pub struct Log {
    entries: Vec<LogEntry>,
    file_path: String,
}

impl View for Log {
    type V = Seq<LogEntry>;

    closed spec fn view(&self) -> Seq<LogEntry> {
        self.entries@
    }
}

impl Log {
    /// The path of the file the log is persisted in.
    pub closed spec fn path(&self) -> Seq<char> {
        self.file_path@
    }

    /// A log persisted at `file_path` holding the entries read back from it
    /// (none for a new file).
    pub fn new(file_path: &str, persisted: Vec<LogEntry>) -> (r: Log)
        ensures
            r@ == persisted@,
            r.path() == file_path@,
    {
        Log { entries: persisted, file_path: file_path.to_owned() }
    }

    /// Appends an entry with the given term and command; its index is the
    /// number of entries before it, which is returned.
    pub fn append(&mut self, term: u64, command: String) -> (r: u64)
        requires
            old(self)@.len() < u64::MAX,
        ensures
            r == old(self)@.len(),
            final(self)@ == old(self)@.push(LogEntry { index: r, term, command }),
            final(self).path() == old(self).path(),
    {
        let index = self.entries.len() as u64;
        let entry = LogEntry { index, term, command };
        self.entries.push(entry);
        index
    }

    /// The entry at position `index`, if there is one.
    pub fn get(&self, index: u64) -> (r: Option<&LogEntry>)
        ensures
            match r {
                Some(e) => index < self@.len() && *e == self@[index as int],
                None => index >= self@.len(),
            },
    {
        if index < self.entries.len() as u64 {
            Some(&self.entries[index as usize])
        } else {
            None
        }
    }

    /// The last entry, if the log is not empty.
    pub fn last(&self) -> (r: Option<&LogEntry>)
        ensures
            match r {
                Some(e) => self@.len() > 0 && *e == self@.last(),
                None => self@.len() == 0,
            },
    {
        if self.entries.len() == 0 {
            None
        } else {
            Some(&self.entries[self.entries.len() - 1])
        }
    }

    /// The number of entries.
    pub fn len(&self) -> (r: usize)
        ensures
            r == self@.len(),
    {
        self.entries.len()
    }

    /// Keeps the first `from_index` entries; an index past the end is
    /// refused and leaves the log as it was.
    pub fn truncate(&mut self, from_index: u64) -> (r: Result<(), LogError>)
        ensures
            final(self).path() == old(self).path(),
            from_index > old(self)@.len() ==> (r matches Err(LogError::IndexOutOfBounds)
                && final(self)@ == old(self)@),
            from_index <= old(self)@.len() ==> r is Ok && final(self)@ == old(self)@.take(
                from_index as int,
            ),
    {
        if from_index > self.entries.len() as u64 {
            return Err(LogError::IndexOutOfBounds);
        }
        self.entries.truncate(from_index as usize);
        Ok(())
    }

    /// The entries, for persisting them.
    pub fn entries(&self) -> (r: &Vec<LogEntry>)
        ensures
            r@ == self@,
    {
        &self.entries
    }

    /// The path of the file the log is persisted in.
    pub fn file_path(&self) -> (r: &str)
        ensures
            r@ == self.path(),
    {
        self.file_path.as_str()
    }
}

} // verus!
