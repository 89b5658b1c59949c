//! The capability descriptions of a stage's streams: where a stage
//! reads from and writes to.  The descriptions are plain values; the
//! surrounding program turns them into real handles when it runs a
//! pipeline.

use vstd::prelude::*;

verus! {

/// Where a stage writes: a standard stream, one end of a numbered
/// pipe, a file opened truncated or for append, or nowhere.
#[derive(Debug, PartialEq, Eq)]
pub enum Writer {
    Stdout,
    Stderr,
    Pipe(usize),
    File { path: String, append: bool },
    Null,
}

/// Where a stage reads from: the inherited standard input, one end of
/// a numbered pipe, or a file.
#[derive(Debug, PartialEq, Eq)]
pub enum Reader {
    Stdin,
    Pipe(usize),
    File(String),
}

impl Writer {
    /// A second handle on the same sink.  A description always
    /// duplicates cleanly; the surrounding program may fail when it
    /// materialises the handle, which is why the result is a `Result`.
    pub fn try_clone(&self) -> (r: Result<Writer, String>)
        ensures
            r == Ok::<Writer, String>(*self),
    {
        let w = match self {
            Writer::Stdout => Writer::Stdout,
            Writer::Stderr => Writer::Stderr,
            Writer::Pipe(k) => Writer::Pipe(*k),
            Writer::File { path, append } => Writer::File {
                path: path.clone(),
                append: *append,
            },
            Writer::Null => Writer::Null,
        };
        Ok(w)
    }
}

impl Reader {
    /// A second handle on the same source.
    pub fn try_clone(&self) -> (r: Result<Reader, String>)
        ensures
            r == Ok::<Reader, String>(*self),
    {
        let rd = match self {
            Reader::Stdin => Reader::Stdin,
            Reader::Pipe(k) => Reader::Pipe(*k),
            Reader::File(path) => Reader::File(path.clone()),
        };
        Ok(rd)
    }
}

/// The mathematical description of a writer, over character
/// sequences.
pub enum WriterModel {
    Stdout,
    Stderr,
    Pipe(int),
    File { path: Seq<char>, append: bool },
    Null,
}

/// The mathematical description of a reader.
pub enum ReaderModel {
    Stdin,
    Pipe(int),
    File(Seq<char>),
}

/// The model of a writer value.
pub open spec fn writer_model(w: Writer) -> WriterModel {
    match w {
        Writer::Stdout => WriterModel::Stdout,
        Writer::Stderr => WriterModel::Stderr,
        Writer::Pipe(k) => WriterModel::Pipe(k as int),
        Writer::File { path, append } => WriterModel::File { path: path@, append },
        Writer::Null => WriterModel::Null,
    }
}

/// The model of a reader value.
pub open spec fn reader_model(r: Reader) -> ReaderModel {
    match r {
        Reader::Stdin => ReaderModel::Stdin,
        Reader::Pipe(k) => ReaderModel::Pipe(k as int),
        Reader::File(path) => ReaderModel::File(path@),
    }
}

} // verus!
