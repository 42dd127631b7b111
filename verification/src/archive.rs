//! Cursor containers: zip archives, read from memory.
//!
//! The archive format is the `zip` crate's business. What this module
//! states of it is believed, not proved: each function below that calls
//! into `zip` says in its comment what is taken on trust.

use std::io::Cursor;
use std::io::Read;
use vstd::prelude::*;
use zip::result::ZipError;
use zip::ZipArchive;

verus! {

/// `zip::ZipArchive`, an open archive over a reader. Nothing is known of
/// what it holds but through the functions below.
#[verifier::external_type_specification]
#[verifier::external_body]
#[verifier::reject_recursive_types(R)]
pub struct ExZipArchive<R>(ZipArchive<R>);

/// `std::io::Cursor`, the reader over bytes in memory that an archive is
/// opened on.
#[verifier::external_type_specification]
#[verifier::external_body]
#[verifier::reject_recursive_types(T)]
pub struct ExCursor<T>(Cursor<T>);

/// `zip::result::ZipError`, carried through as it is.
#[verifier::external_type_specification]
#[verifier::external_body]
pub struct ExZipError(ZipError);

/// `std::io::Error`, carried through as it is.
#[verifier::external_type_specification]
#[verifier::external_body]
pub struct ExIoError(std::io::Error);

/// The bytes of the container that an open archive reads from.
pub uninterp spec fn archive_source(archive: ZipArchive<Cursor<Vec<u8>>>) -> Seq<u8>;

/// Whether `zip::ZipArchive::new` opens a container: whether its bytes end
/// in a zip directory that can be read.
pub uninterp spec fn is_archive(container: Seq<u8>) -> bool;

/// The index that `zip::ZipArchive::index_for_path` gives for a path in a
/// container, if the container has an entry of that path.
pub uninterp spec fn entry_index(container: Seq<u8>, path: Seq<char>) -> Option<usize>;

/// What `zip::ZipArchive::by_index` and reading the entry as text give for
/// an index in a container: the text; or `Ok(Err(()))` where the entry opens
/// and its content cannot be read or is no UTF-8; or `Err(())` where the
/// entry does not open.
pub uninterp spec fn entry_text(container: Seq<u8>, index: usize) -> Result<
    Result<Seq<char>, ()>,
    (),
>;

/// What `zip::ZipArchive::by_name` and reading the entry give for a name in
/// a container: the bytes; or `Ok(Err(()))` where the entry opens and its
/// content cannot be read; or `Err(())` where there is no entry of that name
/// or it does not open.
pub uninterp spec fn entry_bytes(container: Seq<u8>, name: Seq<char>) -> Result<
    Result<Seq<u8>, ()>,
    (),
>;

/// What was read of an entry as text, without the errors' contents.
pub open spec fn text_outcome(r: Result<Result<String, std::io::Error>, ZipError>) -> Result<
    Result<Seq<char>, ()>,
    (),
> {
    match r {
        Ok(Ok(text)) => Ok(Ok(text@)),
        Ok(Err(_)) => Ok(Err(())),
        Err(_) => Err(()),
    }
}

/// What was read of an entry as bytes, without the errors' contents.
pub open spec fn bytes_outcome(r: Result<Result<Vec<u8>, std::io::Error>, ZipError>) -> Result<
    Result<Seq<u8>, ()>,
    (),
> {
    match r {
        Ok(Ok(bytes)) => Ok(Ok(bytes@)),
        Ok(Err(_)) => Ok(Err(())),
        Err(_) => Err(()),
    }
}

/// Calls `zip::ZipArchive::new` on the container. Believed: whether it
/// opens depends on the container's bytes alone, and the archive it gives
/// reads from those bytes.
#[verifier::external_body]
pub(crate) fn open_archive(container: Vec<u8>) -> (archive: Result<
    ZipArchive<Cursor<Vec<u8>>>,
    ZipError,
>)
    ensures
        archive is Ok <==> is_archive(container@),
        archive matches Ok(a) ==> archive_source(a) == container@,
{
    ZipArchive::new(Cursor::new(container))
}

/// Calls `zip::ZipArchive::index_for_path`. Believed: the index depends on
/// the container's bytes and the path alone.
#[verifier::external_body]
pub(crate) fn index_for_path(archive: &ZipArchive<Cursor<Vec<u8>>>, path: &str) -> (index: Option<
    usize,
>)
    ensures
        index == entry_index(archive_source(*archive), path@),
{
    archive.index_for_path(path)
}

/// Calls `zip::ZipArchive::by_index` and reads the entry to its end as
/// text. Believed: what is read depends on the container's bytes and the
/// index alone, and the archive reads from the same bytes afterwards.
#[verifier::external_body]
pub(crate) fn read_text(archive: &mut ZipArchive<Cursor<Vec<u8>>>, index: usize) -> (text: Result<
    Result<String, std::io::Error>,
    ZipError,
>)
    ensures
        text_outcome(text) == entry_text(archive_source(*old(archive)), index),
        archive_source(*final(archive)) == archive_source(*old(archive)),
{
    let mut file = archive.by_index(index)?;
    let mut text = String::new();
    match file.read_to_string(&mut text) {
        Ok(_) => Ok(Ok(text)),
        Err(e) => Ok(Err(e)),
    }
}

/// Calls `zip::ZipArchive::by_name` and reads the entry to its end.
/// Believed: what is read depends on the container's bytes and the name
/// alone, and the archive reads from the same bytes afterwards.
#[verifier::external_body]
pub(crate) fn read_bytes(archive: &mut ZipArchive<Cursor<Vec<u8>>>, name: &str) -> (bytes: Result<
    Result<Vec<u8>, std::io::Error>,
    ZipError,
>)
    ensures
        bytes_outcome(bytes) == entry_bytes(archive_source(*old(archive)), name@),
        archive_source(*final(archive)) == archive_source(*old(archive)),
{
    let mut file = archive.by_name(name)?;
    let mut bytes = Vec::new();
    match file.read_to_end(&mut bytes) {
        Ok(_) => Ok(Ok(bytes)),
        Err(e) => Ok(Err(e)),
    }
}

} // verus!
