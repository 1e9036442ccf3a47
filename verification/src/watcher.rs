//! Polling for changes to a file, and a configuration source that reads a
//! file and polls it.

use std::hash::Hasher;
use vstd::std_specs::hash::DefaultHasherAdditionalSpecFns;
use vstd::prelude::*;
use crate::ConfigError;
use crate::sources::file::{
    config_from_document,
    document_result_holds,
    extension_of,
    extension_text,
    file_name_of,
    format_error_message,
    format_of,
    format_result_holds,
    mtime_step,
    named_format,
    option_bytes,
    owned_path,
    parse_text,
    parsed_text,
    path_as_path,
    path_clone,
    path_file_name,
    read_mtime,
    ConfigFormat,
    ParsedDocument,
};
use crate::value::ConfigMap;

verus! {

/// The hash of a file's content, as `Hash` for a byte slice feeds it to
/// `DefaultHasher`: the length, as eight little-endian bytes, then the bytes.
pub open spec fn content_hash(data: Seq<u8>) -> u64 {
    std::collections::hash_map::DefaultHasher::spec_finish(
        seq![vstd::bytes::spec_u64_to_le_bytes(data.len() as u64), data],
    )
}

/// The content hash depends on the bytes alone: the same bytes give the same
/// hash, whichever watcher computes it.
pub proof fn law_content_hash_of_bytes(a: Seq<u8>, b: Seq<u8>)
    requires
        a == b,
    ensures
        content_hash(a) == content_hash(b),
{
}

/// Watches a file for changes by polling its modification time and the hash
/// of its content.
pub struct FileWatcher {
    path: std::path::PathBuf,
    last_modified: Option<i128>,
    last_content_hash: u64,
    changed: bool,
}

/// The state of a [`FileWatcher`].
pub struct WatcherModel {
    /// The path of the file watched.
    pub path: std::path::PathBuf,
    /// The last modification time seen, in nanoseconds from the Unix epoch.
    pub last_modified: Option<i128>,
    /// The hash of the content last read.
    pub last_content_hash: u64,
    /// Whether a change has been seen.
    pub changed: bool,
}

impl View for FileWatcher {
    type V = WatcherModel;

    closed spec fn view(&self) -> WatcherModel {
        WatcherModel {
            path: self.path,
            last_modified: self.last_modified,
            last_content_hash: self.last_content_hash,
            changed: self.changed,
        }
    }
}

impl FileWatcher {
    /// Creates a watcher for the file at `path`.
    pub fn new(path: std::path::PathBuf) -> (r: FileWatcher)
        ensures
            r@.path == path,
            r@.last_modified is None,
            r@.last_content_hash == 0,
            !r@.changed,
    {
        FileWatcher { path, last_modified: None, last_content_hash: 0, changed: false }
    }

    /// Records the modification time of the file, if it could be had, and
    /// tells whether the file was modified after the time recorded before.
    pub fn check_modified(&mut self, modified: Option<i128>) -> (r: bool)
        ensures
            (final(self)@.last_modified, r) == mtime_step(old(self)@.last_modified, modified),
            final(self)@.changed == (old(self)@.changed || r),
            final(self)@.last_content_hash == old(self)@.last_content_hash,
            final(self)@.path == old(self)@.path,
    {
        match modified {
            None => false,
            Some(t) => match self.last_modified {
                Some(last) => if t > last {
                    self.last_modified = Some(t);
                    self.changed = true;
                    true
                } else {
                    false
                },
                None => {
                    self.last_modified = Some(t);
                    false
                },
            },
        }
    }

    fn compute_hash(&self, data: &[u8]) -> (r: u64)
        ensures
            r == content_hash(data@),
    {
        let length = vstd::bytes::u64_to_le_bytes(data.len() as u64);
        let mut hasher = std::collections::hash_map::DefaultHasher::new();
        hasher.write(length.as_slice());
        hasher.write(data);
        assert(hasher@ =~= seq![length@, data@]);
        hasher.finish()
    }

    /// Hashes the content of the file, records the hash, and marks a change
    /// where it differs from the hash recorded before.
    pub fn record_content_hash(&mut self, content: &[u8]) -> (r: u64)
        ensures
            r == content_hash(content@),
            final(self)@.last_content_hash == r,
            final(self)@.changed == (old(self)@.changed || r != old(self)@.last_content_hash),
            final(self)@.last_modified == old(self)@.last_modified,
            final(self)@.path == old(self)@.path,
    {
        let hash = self.compute_hash(content);
        if hash != self.last_content_hash {
            self.last_content_hash = hash;
            self.changed = true;
        }
        hash
    }

    /// The path being watched.
    pub fn path(&self) -> (r: &std::path::Path)
        ensures
            owned_path(r) == self@.path,
    {
        path_as_path(&self.path)
    }
}

/// A configuration source that reads a JSON or a TOML file, told by its
/// extension (a file whose name has none is read as JSON), and polls the
/// file for changes.
pub struct FileWatcherSource {
    name: String,
    path: std::path::PathBuf,
    file_name: Option<Vec<u8>>,
    watcher: FileWatcher,
}

/// The state of a [`FileWatcherSource`].
pub struct WatcherSourceModel {
    pub name: Seq<char>,
    /// The path of the file.
    pub path: std::path::PathBuf,
    /// The final component of the path, as bytes.
    pub file_name: Option<Seq<u8>>,
    pub watcher: WatcherModel,
}

impl View for FileWatcherSource {
    type V = WatcherSourceModel;

    closed spec fn view(&self) -> WatcherSourceModel {
        WatcherSourceModel {
            name: self.name@,
            path: self.path,
            file_name: option_bytes(self.file_name),
            watcher: self.watcher@,
        }
    }
}

impl FileWatcherSource {
    /// Creates a source named `name` for the file at `path`.
    pub fn new(name: &str, path: std::path::PathBuf) -> (r: FileWatcherSource)
        ensures
            r@.name == name@,
            r@.path == path,
            r@.file_name == file_name_of(path),
            r@.watcher.path == path,
            r@.watcher.last_modified is None,
            r@.watcher.last_content_hash == 0,
            !r@.watcher.changed,
    {
        let file_name = path_file_name(&path);
        let watcher = FileWatcher::new(path_clone(&path));
        FileWatcherSource { name: name.to_owned(), path, file_name, watcher }
    }

    /// The name of the source.
    pub fn name(&self) -> (r: &str)
        ensures
            r@ == self@.name,
    {
        self.name.as_str()
    }

    /// The format of the file, told by its extension; a file whose name
    /// has no extension (or one that is not valid UTF-8) is read as JSON.
    pub fn format(&self) -> (r: Result<ConfigFormat, ConfigError>)
        ensures
            match extension_text(self@.file_name) {
                None => r matches Ok(ConfigFormat::Json),
                Some(e) => format_result_holds(Some(e), "Unsupported file format: "@, Seq::empty(), r),
            },
    {
        match extension_of(&self.file_name) {
            None => Ok(ConfigFormat::Json),
            Some(e) => format_of(Some(e), "Unsupported file format: ", ""),
        }
    }

    /// The configuration that the parsed text of the file gives, `modified`
    /// being the modification time of the file when it was read, if it could
    /// be had. A successful read records that time in the watcher, so that a
    /// later check reports a modification made after the read.
    pub fn read_document(&mut self, doc: &ParsedDocument, modified: Option<i128>) -> (r: Result<
        ConfigMap,
        ConfigError,
    >)
        ensures
            document_result_holds(*doc, r),
            r is Ok ==> final(self)@.watcher.last_modified == read_mtime(
                old(self)@.watcher.last_modified,
                modified,
            ),
            r is Err ==> final(self)@.watcher.last_modified == old(self)@.watcher.last_modified,
            final(self)@.watcher.changed == old(self)@.watcher.changed,
            final(self)@.watcher.last_content_hash == old(self)@.watcher.last_content_hash,
            final(self)@.watcher.path == old(self)@.watcher.path,
            final(self)@.name == old(self)@.name,
            final(self)@.path == old(self)@.path,
            final(self)@.file_name == old(self)@.file_name,
    {
        let r = config_from_document(doc);
        if r.is_ok() {
            if modified.is_some() {
                self.watcher.last_modified = modified;
            }
        }
        r
    }

    /// Reads the text of the file: parses it in the format of the file (JSON
    /// where its name has no extension) and gives the configuration it
    /// holds, as [`FileWatcherSource::read_document`] does. A file of an
    /// unknown format gives the error of [`FileWatcherSource::format`] and
    /// leaves the source as it was.
    pub fn read_text(&mut self, text: &str, modified: Option<i128>) -> (r: Result<
        ConfigMap,
        ConfigError,
    >)
        ensures
            match extension_text(old(self)@.file_name) {
                None => document_result_holds(parsed_text(ConfigFormat::Json, text@), r),
                Some(e) => match named_format(Some(e)) {
                    Some(f) => document_result_holds(parsed_text(f, text@), r),
                    None => r matches Err(ConfigError::Parse(m)) && m@ == format_error_message(
                        Some(e),
                        "Unsupported file format: "@,
                        Seq::empty(),
                    ),
                },
            },
            r is Ok ==> final(self)@.watcher.last_modified == read_mtime(
                old(self)@.watcher.last_modified,
                modified,
            ),
            r is Err ==> final(self)@.watcher.last_modified == old(self)@.watcher.last_modified,
            final(self)@.watcher.changed == old(self)@.watcher.changed,
            final(self)@.watcher.last_content_hash == old(self)@.watcher.last_content_hash,
            final(self)@.watcher.path == old(self)@.watcher.path,
            final(self)@.name == old(self)@.name,
            final(self)@.path == old(self)@.path,
            final(self)@.file_name == old(self)@.file_name,
    {
        match self.format() {
            Ok(format) => {
                let doc = parse_text(format, text);
                self.read_document(&doc, modified)
            },
            Err(e) => Err(e),
        }
    }

    /// The path of the file.
    pub fn path(&self) -> (r: &std::path::Path)
        ensures
            owned_path(r) == self@.path,
    {
        path_as_path(&self.path)
    }

    /// Tells whether the file was modified after the modification time
    /// recorded before, and records `modified`.
    pub fn has_changed(&mut self, modified: Option<i128>) -> (r: bool)
        ensures
            (final(self)@.watcher.last_modified, r) == mtime_step(
                old(self)@.watcher.last_modified,
                modified,
            ),
            final(self)@.watcher.changed == (old(self)@.watcher.changed || r),
            final(self)@.watcher.last_content_hash == old(self)@.watcher.last_content_hash,
            final(self)@.name == old(self)@.name,
            final(self)@.file_name == old(self)@.file_name,
            final(self)@.path == old(self)@.path,
            final(self)@.watcher.path == old(self)@.watcher.path,
    {
        self.watcher.check_modified(modified)
    }
}

} // verus!
