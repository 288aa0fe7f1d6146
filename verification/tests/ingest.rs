//! The ingestion pipeline and the content store, against real directories:
//! hashes are 20 characters, chunking never changes them, and committing
//! the same content twice leaves a single entry.

use lwoss::StoreError;
use lwoss::context::OSSContext;
use lwoss::context::join_under;

fn context_in(dir: &tempfile::TempDir) -> OSSContext {
    let data = tempfile::tempdir_in(dir.path()).unwrap();
    let buf = tempfile::tempdir_in(dir.path()).unwrap();
    OSSContext {
        data_dir: data.keep().to_str().unwrap().to_string(),
        buf_dir: buf.keep().to_str().unwrap().to_string(),
        password: None,
    }
}

fn upload(ctx: &OSSContext, chunks: &[&[u8]]) -> String {
    let mut staged = ctx.begin_upload().unwrap();
    for chunk in chunks {
        staged.push(chunk).unwrap();
    }
    staged.finish().hash
}

#[test]
fn hash_is_twenty_characters() {
    let root = tempfile::tempdir().unwrap();
    let ctx = context_in(&root);
    let hash = upload(&ctx, &[b"hello world"]);
    assert_eq!(hash.len(), 20);
    let empty = upload(&ctx, &[]);
    assert_eq!(empty.len(), 20);
    assert_ne!(hash, empty);
}

#[test]
fn hash_ignores_chunk_boundaries() {
    let root = tempfile::tempdir().unwrap();
    let ctx = context_in(&root);
    let whole = upload(&ctx, &[b"the quick brown fox jumps over the lazy dog"]);
    let split = upload(&ctx, &[b"the quick brown ", b"fox jumps over", b" the lazy dog"]);
    let shredded = upload(
        &ctx,
        &[b"the", b" quick brown fox jumps", b"", b" over the lazy do", b"g"],
    );
    assert_eq!(whole, split);
    assert_eq!(whole, shredded);
}

#[test]
fn different_content_different_hash() {
    let root = tempfile::tempdir().unwrap();
    let ctx = context_in(&root);
    let a = upload(&ctx, &[b"content a"]);
    let b = upload(&ctx, &[b"content b"]);
    assert_ne!(a, b);
}

#[test]
fn commit_is_idempotent() {
    let root = tempfile::tempdir().unwrap();
    let ctx = context_in(&root);

    let mut staged = ctx.begin_upload().unwrap();
    staged.push(b"same bytes").unwrap();
    let first = staged.finish().save().unwrap();
    assert!(!first.deduplicated);

    let mut staged = ctx.begin_upload().unwrap();
    staged.push(b"same bytes").unwrap();
    let second = staged.finish().save().unwrap();

    // The same content commits under the same hash, and the second commit
    // finds the entry already present.
    assert_eq!(first.hash, second.hash);
    assert!(second.deduplicated);
}

#[test]
fn save_given_existence_decides_the_commit() {
    let root = tempfile::tempdir().unwrap();
    let ctx = context_in(&root);

    // With an entry already present the staged bytes are discarded and the
    // commit reports deduplication.
    let mut staged = ctx.begin_upload().unwrap();
    staged.push(b"payload").unwrap();
    let outcome = staged.finish().save_given_existence(true).unwrap();
    assert!(outcome.deduplicated);

    // Without one the staged file is renamed into place.
    let mut staged = ctx.begin_upload().unwrap();
    staged.push(b"payload").unwrap();
    let outcome = staged.finish().save_given_existence(false).unwrap();
    assert!(!outcome.deduplicated);

    // A plain save asks the store and now finds that entry.
    let mut staged = ctx.begin_upload().unwrap();
    staged.push(b"payload").unwrap();
    let outcome = staged.finish().save().unwrap();
    assert!(outcome.deduplicated);
}

#[test]
fn hash_uses_the_url_safe_alphabet() {
    let root = tempfile::tempdir().unwrap();
    let ctx = context_in(&root);
    let hash = upload(&ctx, &[&[0u8; 45], b"\xffbinary\x00bytes"]);
    assert!(hash
        .chars()
        .all(|c| c.is_ascii_alphanumeric() || c == '-' || c == '_'));
}

#[test]
fn begin_upload_reports_missing_staging_dir() {
    let root = tempfile::tempdir().unwrap();
    let data = tempfile::tempdir_in(root.path()).unwrap();
    let ctx = OSSContext {
        data_dir: data.path().to_str().unwrap().to_string(),
        buf_dir: format!("{}/definitely-not-there", root.path().to_str().unwrap()),
        password: None,
    };
    match ctx.begin_upload() {
        Err(StoreError::StorageIo) => {},
        Ok(_) => panic!("an upload must not start without its staging directory"),
    }
}

#[test]
fn join_under_joins_with_one_separator() {
    assert_eq!(join_under("data/files", "AQIDBAUGBwgJCgsMDQ4P"), "data/files/AQIDBAUGBwgJCgsMDQ4P");
    assert_eq!(join_under("", "x"), "/x");
}

#[test]
fn upload_vo_carries_the_hash() {
    let vo = lwoss::context::UploadVO { hash: "AQIDBAUGBwgJCgsMDQ4P".to_string() };
    assert_eq!(vo.hash.len(), 20);
}
