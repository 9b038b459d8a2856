//! The size and kind checks around file reads, and the collection of the
//! contents of several reads.

use vstd::prelude::*;
use vstd::utf8::encode_utf8;

verus! {

/// The largest file, in bytes, that is read (1 MiB).
pub const MAX_FILE_SIZE: u64 = 1048576;

/// How many bytes a read may take at most: one past the limit, so that a file
/// that grew past it is noticed.
pub fn read_limit() -> (r: u64)
    ensures
        r == MAX_FILE_SIZE + 1,
{
    MAX_FILE_SIZE + 1
}

/// Why a read was refused.
pub enum ReadError {
    NotAFile,
    TooLarge(u64),
    ExceededDuringRead,
}

/// The check on the metadata of the opened file: it must be a regular file of at
/// most `MAX_FILE_SIZE` bytes.
pub fn check_file_metadata(is_file: bool, len: u64) -> (r: Result<(), ReadError>)
    ensures
        !is_file ==> r matches Err(ReadError::NotAFile),
        is_file && len > MAX_FILE_SIZE ==> (r matches Err(ReadError::TooLarge(l)) && l == len),
        is_file && len <= MAX_FILE_SIZE ==> r is Ok,
{
    if !is_file {
        return Err(ReadError::NotAFile);
    }
    if len > MAX_FILE_SIZE {
        return Err(ReadError::TooLarge(len));
    }
    Ok(())
}

/// The check on what was read: at most `MAX_FILE_SIZE` bytes of UTF-8.
pub fn check_read_contents(contents: String) -> (r: Result<String, ReadError>)
    ensures
        match r {
            Ok(s) => s@ == contents@ && encode_utf8(s@).len() <= MAX_FILE_SIZE,
            Err(e) => e is ExceededDuringRead && encode_utf8(contents@).len() > MAX_FILE_SIZE,
        },
{
    let n = contents.as_str().as_bytes().len();
    if n as u64 > MAX_FILE_SIZE {
        return Err(ReadError::ExceededDuringRead);
    }
    Ok(contents)
}

/// The contents of the reads that succeeded, in order.
pub open spec fn successes(results: Seq<Option<String>>) -> Seq<Seq<char>>
    decreases results.len(),
{
    if results.len() == 0 {
        Seq::empty()
    } else {
        let init = successes(results.drop_last());
        match results.last() {
            Some(s) => init.push(s@),
            None => init,
        }
    }
}

/// Keeps the contents of the reads that succeeded, in order; failed reads are
/// dropped.
pub fn collect_successes(results: Vec<Option<String>>) -> (r: Vec<String>)
    ensures
        r@.map_values(|s: String| s@) == successes(results@),
{
    let mut out: Vec<String> = Vec::new();
    for i in 0..results.len()
        invariant
            out@.map_values(|s: String| s@) == successes(results@.take(i as int)),
    {
        assert(results@.take(i + 1).drop_last() == results@.take(i as int));
        match &results[i] {
            Some(s) => {
                let ghost before = out@.map_values(|s: String| s@);
                let c = s.clone();
                out.push(c);
                assert(out@.map_values(|s: String| s@) =~= before.push(c@));
            },
            None => {},
        }
    }
    assert(results@.take(results.len() as int) == results@);
    out
}

} // verus!
