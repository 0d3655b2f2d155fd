//! Packaging a signed binary: one tar archive holding the binary and its signature.

use vstd::prelude::*;

verus! {

/// A tar archive being built in memory: a `tar::Builder` over a byte vector, seen
/// through the entries appended to it.
#[verifier::external_body]
pub struct TarArchive {
    builder: tar::Builder<Vec<u8>>,
}

#[verifier::external_type_specification]
#[verifier::external_body]
pub struct ExIoError(std::io::Error);

/// Why a package could not be made.
#[derive(Debug, Clone, Copy, PartialEq, Eq, Structural)]
pub enum PackageError {
    /// An entry name cannot stand in a tar archive.
    InvalidEntryName,
    /// The archive could not be written out.
    Archive,
}

/// The entries, as (path, content), appended so far to an archive being built.
pub uninterp spec fn tar_entries(b: TarArchive) -> Seq<(Seq<char>, Seq<u8>)>;

/// Whether a path can name an entry of an archive.
pub uninterp spec fn tar_path_ok(path: Seq<char>) -> bool;

/// The bytes of a finished archive holding the given entries, in order.
pub uninterp spec fn tar_archive(entries: Seq<(Seq<char>, Seq<u8>)>) -> Seq<u8>;

/// Relies on `tar::Builder::new` over an empty buffer: nothing is appended yet.
#[verifier::external_body]
fn tar_builder() -> (r: TarArchive)
    ensures
        tar_entries(r) == Seq::<(Seq<char>, Seq<u8>)>::empty(),
{
    TarArchive { builder: tar::Builder::new(Vec::new()) }
}

/// Relies on `tar::Builder::append_data` with a fresh GNU header sized to the data:
/// whether the path is accepted depends on the path alone, and an accepted entry is
/// appended with the data as its content.
#[verifier::external_body]
fn tar_append(b: &mut TarArchive, path: &str, data: &[u8]) -> (r: Result<
    (),
    std::io::Error,
>)
    ensures
        r is Ok == tar_path_ok(path@),
        r is Ok ==> tar_entries(*final(b)) == tar_entries(*old(b)).push((path@, data@)),
{
    let mut header = tar::Header::new_gnu();
    header.set_size(data.len() as u64);
    b.builder.append_data(&mut header, path, data)
}

/// Relies on `tar::Builder::into_inner`, which finishes the archive by writing its
/// end blocks; it fails only when the writer fails, and writing to a vector does not.
#[verifier::external_body]
fn tar_finish(b: TarArchive) -> (r: Result<Vec<u8>, std::io::Error>)
    ensures
        r is Ok,
        r is Ok ==> r->Ok_0@ == tar_archive(tar_entries(b)),
{
    b.builder.into_inner()
}

/// The name of the signature entry of a binary.
pub open spec fn signature_name(binary_name: Seq<char>) -> Seq<char> {
    binary_name + ".sig"@
}

/// The entries of the package of a binary: the binary under its name, then the
/// signature under the name with `.sig` appended.
pub open spec fn package_entries(binary_name: Seq<char>, binary: Seq<u8>, signature: Seq<u8>) -> Seq<
    (Seq<char>, Seq<u8>),
> {
    seq![(binary_name, binary), (signature_name(binary_name), signature)]
}

/// Bundles a binary and its signature into one tar archive with exactly two
/// entries: the binary under `binary_name` and the signature under
/// `binary_name.sig`, each with its bytes unchanged.
pub fn package(binary_name: &str, binary: &[u8], signature: &[u8]) -> (r: Result<
    Vec<u8>,
    PackageError,
>)
    ensures
        r is Ok <==> tar_path_ok(binary_name@) && tar_path_ok(signature_name(binary_name@)),
        r is Err ==> r == Err::<Vec<u8>, PackageError>(PackageError::InvalidEntryName),
        r is Ok ==> r->Ok_0@ == tar_archive(package_entries(binary_name@, binary@, signature@)),
{
    let mut builder = tar_builder();
    match tar_append(&mut builder, binary_name, binary) {
        Ok(_) => {},
        Err(_) => return Err(PackageError::InvalidEntryName),
    }
    let signature_path = binary_name.to_owned().concat(".sig");
    match tar_append(&mut builder, signature_path.as_str(), signature) {
        Ok(_) => {},
        Err(_) => return Err(PackageError::InvalidEntryName),
    }
    proof {
        assert(tar_entries(builder) =~= package_entries(binary_name@, binary@, signature@));
    }
    match tar_finish(builder) {
        Ok(bytes) => Ok(bytes),
        Err(_) => Err(PackageError::Archive),
    }
}

/// The file name of a package: the binary's name with `.tar` appended.
pub fn package_file_name(binary_name: &str) -> (r: String)
    ensures
        r@ == binary_name@ + ".tar"@,
{
    binary_name.to_owned().concat(".tar")
}

} // verus!
