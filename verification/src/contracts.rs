//! What the indexers share: the file handed to them and the document they
//! extract from it.
use vstd::prelude::*;

use crate::apps::{path_extension, path_extension_of};

verus! {

/// Returns the error message unchanged, so that it can be logged and handed on.
pub fn log_and_return_error_string(error_string: String) -> (res: String)
    ensures
        res@ == error_string@,
{
    error_string
}

/// The BLAKE2b digest, with the default 64-byte output, of the given bytes.
pub uninterp spec fn blake2b_digest(input: Seq<u8>) -> Seq<u8>;

/// Hashes the contents of a file with `blake2b_simd::blake2b`, which computes
/// BLAKE2b with the default parameters; the digest is 64 bytes long.
#[verifier::external_body]
fn calculate_hash(input: &[u8]) -> (res: Vec<u8>)
    ensures
        res@ == blake2b_digest(input@),
        res@.len() == 64,
{
    blake2b_simd::blake2b(input).as_bytes().to_vec()
}

/// A file waiting to be indexed: where it lies, the hash of its contents, and
/// the contents.
#[derive(Debug, Clone)]
pub struct FileCandidate {
    pub path: String,
    pub hash: Vec<u8>,
    pub contents: Vec<u8>,
}

impl FileCandidate {
    /// The path of the file.
    pub fn path(&self) -> (r: String)
        ensures
            r@ == self.path@,
    {
        self.path.clone()
    }

    /// The extension of the file, as its path gives it, if it has one.
    pub fn extension(&self) -> (r: Option<String>)
        ensures
            match r {
                Some(e) => path_extension_of(self.path@) == Some(e@),
                None => path_extension_of(self.path@) is None,
            },
    {
        path_extension(self.path.as_str())
    }
}

/// The candidate for a file read from `path`: its contents and their hash.
pub fn new_file_to_process(path: String, contents: Vec<u8>) -> (candidate: FileCandidate)
    ensures
        candidate.path@ == path@,
        candidate.contents@ == contents@,
        candidate.hash@ == blake2b_digest(contents@),
{
    let hash = calculate_hash(contents.as_slice());
    FileCandidate { path, hash, contents }
}

/// The hash of a candidate is that of its whole contents and of nothing else:
/// two candidates made from the same contents get the same hash wherever they
/// lie, and a candidate's hash is the one its complete contents give.
pub proof fn lemma_hash_follows_contents(a: FileCandidate, b: FileCandidate)
    requires
        a.hash@ == blake2b_digest(a.contents@),
        b.hash@ == blake2b_digest(b.contents@),
        a.contents@ == b.contents@,
    ensures
        a.hash@ == b.hash@,
        a.hash@ == blake2b_digest(b.contents@),
{
}

/// What an indexer extracts from a file.
#[derive(Debug, Clone, PartialEq, Eq)]
pub struct DocumentSchema {
    pub name: String,
    pub body: String,
    pub media_type: String,
    pub path: String,
}

/// What a document holds, as character sequences.
pub struct DocView {
    pub name: Seq<char>,
    pub body: Seq<char>,
    pub media_type: Seq<char>,
    pub path: Seq<char>,
}

impl View for DocumentSchema {
    type V = DocView;

    open spec fn view(&self) -> DocView {
        DocView { name: self.name@, body: self.body@, media_type: self.media_type@, path: self.path@ }
    }
}

/// The outcome of indexing, with the document taken by its view.
pub open spec fn outcome_view(r: Result<DocumentSchema, IndexError>) -> Result<DocView, IndexError> {
    match r {
        Ok(doc) => Ok(doc@),
        Err(e) => Err(e),
    }
}

/// Why an indexer could not index a file.
#[derive(Debug, Clone, PartialEq, Eq)]
pub enum IndexError {
    /// The text of the file could not be extracted.
    TextExtraction,
    /// The extracted text could not be cleaned up.
    TextCleanup,
}

} // verus!
