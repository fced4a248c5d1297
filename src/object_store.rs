use vstd::prelude::*;

use crate::error::BridgeError;
use crate::reader::ReadCursor;

verus! {

/// A file as the query engine describes it: a path that only the host
/// filesystem interprets, and its size in bytes.
#[derive(Clone, Debug, PartialEq, Eq)]
pub struct SizedFile {
    pub path: String,
    pub size: u64,
}

/// Object store for single files on the host's distributed filesystem.
/// Reading is its only operation; listing is not offered.
#[derive(Clone, Copy, Debug)]
pub struct HDFSSingleFileObjectStore;

/// A reader of one file, sharing the host input stream `stream` with the
/// synchronous readers it hands out.
#[derive(Clone, Debug)]
pub struct HDFSObjectReader<S> {
    pub file: SizedFile,
    pub stream: S,
}

impl HDFSSingleFileObjectStore {
    pub fn new() -> (r: Self) {
        HDFSSingleFileObjectStore
    }

    /// Listing files is not offered; fails without contacting the host.
    pub fn list_file(&self, _prefix: &str) -> (r: Result<Vec<SizedFile>, BridgeError>)
        ensures
            r matches Err(BridgeError::NotImplemented(op)) && op@ == "list_file"@,
    {
        Err(BridgeError::NotImplemented("list_file".to_owned()))
    }

    /// Listing directories is not offered; fails without contacting the host.
    pub fn list_dir(&self, _prefix: &str, _delimiter: Option<String>) -> (r: Result<
        Vec<String>,
        BridgeError,
    >)
        ensures
            r matches Err(BridgeError::NotImplemented(op)) && op@ == "list_dir"@,
    {
        Err(BridgeError::NotImplemented("list_dir".to_owned()))
    }

    /// Builds the reader of `file` from the outcome of opening it on the
    /// host: the durable stream handle, or the host's diagnostic, which
    /// becomes an open error tagged with the file's path.
    pub fn file_reader<S>(&self, file: SizedFile, opened: Result<S, String>) -> (r: Result<
        HDFSObjectReader<S>,
        BridgeError,
    >)
        ensures
            match opened {
                Ok(s) => r == Ok::<HDFSObjectReader<S>, BridgeError>(
                    HDFSObjectReader { file, stream: s },
                ),
                Err(m) => r == Err::<HDFSObjectReader<S>, BridgeError>(
                    BridgeError::Open { path: file.path, message: m },
                ),
            },
    {
        match opened {
            Ok(stream) => Ok(HDFSObjectReader { file, stream }),
            Err(message) => Err(BridgeError::Open { path: file.path, message }),
        }
    }
}

impl<S> HDFSObjectReader<S> {
    /// The recorded size of the file; the host is not asked.
    pub fn length(&self) -> (r: u64)
        ensures
            r == self.file.size,
    {
        self.file.size
    }

    /// A synchronous reader positioned at `start`. The length is advisory and
    /// ignored: each read asks for as many bytes as its buffer holds.
    pub fn sync_chunk_reader(&self, start: u64, _length: usize) -> (r: ReadCursor)
        ensures
            r == (ReadCursor { path: self.file.path, start, pos: start }),
    {
        ReadCursor::new(self.file.path.clone(), start)
    }

    /// A synchronous reader of the whole file, from its first byte.
    pub fn sync_reader(&self) -> (r: ReadCursor)
        ensures
            r == (ReadCursor { path: self.file.path, start: 0, pos: 0 }),
    {
        self.sync_chunk_reader(0, 0)
    }

    /// Asynchronous chunk reading is not offered.
    pub fn chunk_reader(&self, _start: u64, _length: usize) -> (r: Result<(), BridgeError>)
        ensures
            r matches Err(BridgeError::NotImplemented(op)) && op@ == "chunk_reader"@,
    {
        Err(BridgeError::NotImplemented("chunk_reader".to_owned()))
    }
}

} // verus!
