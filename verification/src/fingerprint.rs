//! The fingerprint of one file: the digest of its contents, or the reason why
//! its contents could not be read.

use crate::digest::{
    digest_text, is_digest_text, lemma_lower_hex_shape, lower_hex, md5_compute, md5_digest,
};
use vstd::prelude::*;

verus! {

/// What a [`Hash`] stands for.
pub enum Fingerprint {
    /// The file was read; `hash` is the text of the digest of its contents.
    Valid { hash: Seq<char> },
    /// The file could not be opened or read; `error` says why.
    Invalid { error: Seq<char> },
}

impl Fingerprint {
    /// The text by which two fingerprints are compared: the digest of a file
    /// that was read, the reason of one that was not. The variant itself plays
    /// no part in the comparison.
    pub open spec fn comparison_value(self) -> Seq<char> {
        match self {
            Fingerprint::Valid { hash } => hash,
            Fingerprint::Invalid { error } => error,
        }
    }

    /// The fingerprint of a file whose contents are `contents`.
    pub open spec fn of_contents(contents: Seq<u8>) -> Fingerprint {
        Fingerprint::Valid { hash: lower_hex(md5_digest(contents)) }
    }

    /// The fingerprint that an attempt to read a file leaves: of its contents
    /// where it succeeded, of the failure's description where it did not.
    pub open spec fn of_read(read: Result<Seq<u8>, Seq<char>>) -> Fingerprint {
        match read {
            Ok(contents) => Fingerprint::of_contents(contents),
            Err(error) => Fingerprint::Invalid { error },
        }
    }
}

/// The outcome of reading and hashing one file.
#[derive(Debug)]
pub enum Hash {
    Valid { hash: String },
    Invalid { error: String },
}

impl View for Hash {
    type V = Fingerprint;

    open spec fn view(&self) -> Fingerprint {
        match *self {
            Hash::Valid { hash } => Fingerprint::Valid { hash: hash@ },
            Hash::Invalid { error } => Fingerprint::Invalid { error: error@ },
        }
    }
}

/// What was read from a file, or the description of the failure, as the
/// model sees it.
pub open spec fn read_view(read: Result<Vec<u8>, String>) -> Result<Seq<u8>, Seq<char>> {
    match read {
        Ok(contents) => Ok(contents@),
        Err(error) => Err(error@),
    }
}

impl Hash {
    /// Fingerprints one file from the outcome of reading it: `Ok` with the
    /// whole contents, or `Err` with the description of the failure to open or
    /// read it. A failure becomes an `Invalid` fingerprint, never an error of
    /// its own.
    pub fn new(read: Result<Vec<u8>, String>) -> (fingerprint: Hash)
        ensures
            fingerprint@ == Fingerprint::of_read(read_view(read)),
            fingerprint is Valid ==> is_digest_text(fingerprint@.comparison_value()),
    {
        match read {
            Ok(contents) => {
                let digest = md5_compute(contents.as_slice());
                Hash::from_digest(digest)
            },
            Err(error) => Hash::Invalid { error },
        }
    }

    /// The fingerprint of a file whose contents have the given MD5 digest.
    pub fn from_digest(digest: [u8; 16]) -> (fingerprint: Hash)
        ensures
            fingerprint@ == (Fingerprint::Valid { hash: lower_hex(digest@) }),
            is_digest_text(fingerprint@.comparison_value()),
    {
        proof {
            lemma_lower_hex_shape(digest@);
        }
        Hash::Valid { hash: digest_text(digest) }
    }
}

impl Clone for Hash {
    fn clone(&self) -> (copy: Hash)
        ensures
            copy == *self,
    {
        match self {
            Hash::Valid { hash } => Hash::Valid { hash: hash.clone() },
            Hash::Invalid { error } => Hash::Invalid { error: error.clone() },
        }
    }
}

} // verus!
