//! The ingestion pipeline and the content store.
//!
//! An upload is streamed chunk by chunk into a staging file while a 128-bit
//! fingerprint is computed over the same bytes in the same order; nothing is
//! buffered beyond the chunk at hand. Once the stream ends the fingerprint
//! becomes the object's 20-character content hash, and commit moves the
//! staging file under `<data_dir>/<hash>` — by rename, never by copy, which
//! is why the staging directory must live on the volume of the store. An
//! object already present under its hash is left untouched and the staged
//! file is discarded: content at a given hash never changes.

use vstd::prelude::*;
use vstd::string::StringExecFns;
use std::io::Write;
use std::path::Path;
use tempfile::NamedTempFile;
use xxhash_rust::xxh3::Xxh3;

use crate::StoreError;
use crate::hashing::HASH_CHARS;
use crate::hashing::is_base64url_char;
use crate::hashing::content_hash;
use crate::hashing::content_hash_of;
use crate::hashing::xxh3_fed;
use crate::hashing::xxh3_new;
use crate::hashing::xxh3_update;

verus! {

/// A staging file, held opaquely: `tempfile::NamedTempFile`'s default file
/// parameter is a type Verus cannot take in a declaration, so the handle
/// lives behind this struct and is touched only by the wrappers below.
/// Dropping it deletes the temporary file.
#[verifier::external_body]
struct StagingFile {
    inner: NamedTempFile,
}

/// Relies on `tempfile::NamedTempFile::new_in`: a fresh, uniquely named
/// temporary file inside the given directory, or an I/O failure.
#[verifier::external_body]
fn temp_file_in(dir: &str) -> (r: Result<StagingFile, ()>)
{
    match NamedTempFile::new_in(dir) {
        Ok(inner) => Ok(StagingFile { inner }),
        Err(_) => Err(()),
    }
}

/// Relies on `std::io::Write::write_all` through tempfile's `Write` impl:
/// appends the whole chunk to the staging file, or reports an I/O failure.
#[verifier::external_body]
fn append_chunk(file: &mut StagingFile, chunk: &[u8]) -> (r: Result<(), ()>)
{
    file.inner.write_all(chunk).map_err(|_| ())
}

/// Relies on `tempfile::NamedTempFile::persist`: renames the staging file to
/// the target path — same volume, so atomically — or reports a failure.
#[verifier::external_body]
fn persist_to(file: StagingFile, path: &str) -> (r: Result<(), ()>)
{
    match file.inner.persist(path) {
        Ok(_) => Ok(()),
        Err(_) => Err(()),
    }
}

/// Relies on `std::path::Path::exists`: whether something sits at the path
/// right now; the answer can go stale the moment it is returned.
#[verifier::external_body]
fn path_exists(path: &str) -> (r: bool)
{
    Path::new(path).exists()
}

/// The path of the store entry for a name: `<dir>/<name>`.
pub open spec fn spec_store_path(dir: Seq<char>, name: Seq<char>) -> Seq<char> {
    dir + "/"@ + name
}

/// Joins a file name under a directory with a plain `/`.
pub fn join_under(dir: &str, name: &str) -> (r: String)
    ensures
        r@ == spec_store_path(dir@, name@),
{
    let mut r = String::from_str(dir);
    r.append("/");
    r.append(name);
    r
}

/// What an upload reports back: the content hash under which the object is
/// now stored.
pub struct UploadVO {
    pub hash: String,
}

/// The store's configuration: where finished objects live, where uploads
/// are staged (same volume!), and the optional admin password.
#[derive(Clone)]
pub struct OSSContext {
    pub data_dir: String,
    pub buf_dir: String,
    pub password: Option<String>,
}

/// An upload in progress: a staging file and a running fingerprint, both fed
/// every chunk in arrival order. The ghost `bytes` is the model: everything
/// received so far, in order.
pub struct StagedObject {
    file: StagingFile,
    hasher: Xxh3,
    target: String,
    bytes: Ghost<Seq<u8>>,
}

impl StagedObject {
    /// The bytes this upload has received so far, in order.
    pub closed spec fn received(&self) -> Seq<u8> {
        self.bytes@
    }

    /// The store directory this upload will commit into.
    pub closed spec fn target_dir(&self) -> Seq<char> {
        self.target@
    }

    /// The fingerprint accumulator has consumed exactly the received bytes.
    pub closed spec fn wf(&self) -> bool {
        xxh3_fed(self.hasher) == self.bytes@
    }

    /// Feeds one chunk: appended to the staging file and into the
    /// fingerprint, in arrival order. On an I/O failure the caller discards
    /// the whole upload, so the model advances either way.
    pub fn push(&mut self, chunk: &[u8]) -> (r: Result<(), StoreError>)
        requires
            old(self).wf(),
        ensures
            final(self).wf(),
            final(self).received() == old(self).received() + chunk@,
            final(self).target_dir() == old(self).target_dir(),
            r matches Err(e) ==> e == StoreError::StorageIo,
    {
        xxh3_update(&mut self.hasher, chunk);
        proof {
            self.bytes@ = self.bytes@ + chunk@;
        }
        match append_chunk(&mut self.file, chunk) {
            Ok(_) => Ok(()),
            Err(_) => Err(StoreError::StorageIo),
        }
    }

    /// Ends the stream: the fingerprint becomes immutable and the upload
    /// turns into a committable object whose hash is the content hash of
    /// everything received.
    pub fn finish(self) -> (r: FileBuf)
        requires
            self.wf(),
        ensures
            r.spec_hash() == content_hash_of(self.received()),
            r.spec_hash().len() == HASH_CHARS,
            forall|i: int|
                0 <= i < r.spec_hash().len() ==> is_base64url_char(#[trigger] r.spec_hash()[i]),
            r.target_dir() == self.target_dir(),
    {
        let hash = content_hash(&self.hasher);
        FileBuf { file: self.file, hash, target: self.target }
    }
}

impl OSSContext {
    /// Starts receiving one object: a staging file is created in `buf_dir`
    /// and the fingerprint starts empty.
    pub fn begin_upload(&self) -> (r: Result<StagedObject, StoreError>)
        ensures
            r matches Ok(s) ==> s.wf() && s.received() == Seq::<u8>::empty() && s.target_dir()
                == self.data_dir@,
            r matches Err(e) ==> e == StoreError::StorageIo,
    {
        match temp_file_in(self.buf_dir.as_str()) {
            Ok(file) => Ok(
                StagedObject {
                    file,
                    hasher: xxh3_new(),
                    target: self.data_dir.clone(),
                    bytes: Ghost(Seq::empty()),
                },
            ),
            Err(_) => Err(StoreError::StorageIo),
        }
    }
}

/// A finished upload, hashed and ready to commit.
pub struct FileBuf {
    file: StagingFile,
    target: String,
    /// The 20-character content hash of the staged bytes.
    pub hash: String,
}

/// What a commit found and did.
pub struct SaveOutcome {
    /// The hash the object is stored under.
    pub hash: String,
    /// An object with this hash was already present; the staged bytes were
    /// discarded and the store is unchanged.
    pub deduplicated: bool,
}

impl FileBuf {
    /// The store directory this object commits into.
    pub closed spec fn target_dir(&self) -> Seq<char> {
        self.target@
    }

    /// The content hash this object is keyed by.
    pub closed spec fn spec_hash(&self) -> Seq<char> {
        self.hash@
    }

    /// Commits the object once the store has answered whether an entry with
    /// this hash already exists. First writer wins: when it exists, the
    /// commit succeeds without touching the store and the staged file is
    /// dropped — equal hashes are trusted to mean equal content, so content
    /// at a hash never changes. When it does not, the staged file is renamed
    /// to `<target>/<hash>` atomically, and only the rename can fail.
    pub fn save_given_existence(self, exists: bool) -> (r: Result<SaveOutcome, StoreError>)
        ensures
            exists ==> (r matches Ok(o) && o.deduplicated && o.hash@ == self.spec_hash()),
            !exists ==> (r matches Ok(o) ==> !o.deduplicated && o.hash@ == self.spec_hash()),
            !exists ==> (r matches Err(e) ==> e == StoreError::StorageIo),
    {
        let FileBuf { file, target, hash } = self;
        if exists {
            // Dropping `file` deletes the staged bytes.
            Ok(SaveOutcome { hash, deduplicated: true })
        } else {
            let path = join_under(target.as_str(), hash.as_str());
            match persist_to(file, path.as_str()) {
                Ok(_) => Ok(SaveOutcome { hash, deduplicated: false }),
                Err(_) => Err(StoreError::StorageIo),
            }
        }
    }

    /// Commits the object under `<target>/<hash>`: asks the store whether an
    /// entry with this hash is present and decides per
    /// `save_given_existence`, which states what comes back for each answer.
    pub fn save(self) -> (r: Result<SaveOutcome, StoreError>)
        ensures
            r matches Ok(o) ==> o.hash@ == self.spec_hash(),
            r matches Err(e) ==> e == StoreError::StorageIo,
    {
        let path = join_under(self.target.as_str(), self.hash.as_str());
        let exists = path_exists(path.as_str());
        self.save_given_existence(exists)
    }
}

} // verus!
