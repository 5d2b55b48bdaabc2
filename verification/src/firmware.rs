//! The archive in which the firmware of a vehicle travels from the gateway
//! to the canister: one file, named after the vehicle and the machine it
//! was built for.

use vstd::prelude::*;
use vstd::string::StringExecFns;
use std::io::{Cursor, Write};
use zip::write::SimpleFileOptions;

verus! {

/// The name of the firmware's file: the vehicle's identity as text, the
/// word `firmware`, and the machine.
pub open spec fn archive_name_spec(vehicle: Seq<char>, arch: Seq<char>) -> Seq<char> {
    vehicle + ".firmware."@ + arch
}

/// The name of the firmware's file.
pub fn archive_name(vehicle: &str, arch: &str) -> (name: String)
    ensures
        name@ == archive_name_spec(vehicle@, arch@),
{
    let mut name = String::from_str(vehicle);
    name.append(".firmware.");
    name.append(arch);
    name
}

/// The archive that holds one file of the given name with the given
/// bytes, stored as they are, marked as a program and dated with the first
/// day that an archive can name; `None` where no such archive can be made.
pub uninterp spec fn archive_of(name: Seq<char>, data: Seq<u8>) -> Option<Seq<u8>>;

/// `ZipWriter::start_file`, `Write::write_all` and `ZipWriter::finish` of
/// the `zip` crate, on a buffer in memory: the archive of one file with the
/// given name and bytes, or nothing where the crate refuses. The file is
/// stored as it is, marked as a program, and given a fixed date instead of
/// the time of day, so the archive depends on the name and the bytes alone.
#[verifier::external_body]
fn zip_one_file(name: &str, data: &[u8]) -> (r: Option<Vec<u8>>)
    ensures
        r is Some == archive_of(name@, data@) is Some,
        r is Some ==> r->0@ == archive_of(name@, data@)->0,
{
    let mut zip = zip::ZipWriter::new(Cursor::new(Vec::new()));
    let options = SimpleFileOptions::default()
        .compression_method(zip::CompressionMethod::Stored)
        .last_modified_time(zip::DateTime::default())
        .unix_permissions(0o755);
    zip.start_file(name, options).ok()?;
    zip.write_all(data).ok()?;
    match zip.finish() {
        Ok(buffer) => Some(buffer.into_inner()),
        Err(_) => None,
    }
}

/// What the gateway makes of an archive, or of the lack of one.
pub open spec fn archive_outcome_spec(zipped: Option<Seq<u8>>) -> Result<Seq<u8>, Seq<char>> {
    match zipped {
        Some(archive) => Ok(archive),
        None => Err("failed to archive firmware"@),
    }
}

/// That an executable outcome is the one that the rule gives.
pub open spec fn is_outcome(r: Result<Vec<u8>, String>, rule: Result<Seq<u8>, Seq<char>>) -> bool {
    match rule {
        Ok(archive) => r is Ok && r->Ok_0@ == archive,
        Err(why) => r is Err && r->Err_0@ == why,
    }
}

/// What the gateway makes of an archive, or of the lack of one: the
/// archive, or the reason that it reports.
pub fn archive_outcome(zipped: Option<Vec<u8>>) -> (r: Result<Vec<u8>, String>)
    ensures
        is_outcome(
            r,
            archive_outcome_spec(
                match zipped {
                    Some(archive) => Some(archive@),
                    None => None,
                },
            ),
        ),
{
    match zipped {
        Some(archive) => Ok(archive),
        None => Err(String::from_str("failed to archive firmware")),
    }
}

/// The archive of a vehicle's firmware: one file, named after the vehicle
/// and the machine, that holds the firmware; or why there is none.
pub fn compress_firmware(vehicle: &str, arch: &str, firmware: &[u8]) -> (r: Result<Vec<u8>, String>)
    ensures
        is_outcome(
            r,
            archive_outcome_spec(archive_of(archive_name_spec(vehicle@, arch@), firmware@)),
        ),
{
    let name = archive_name(vehicle, arch);
    archive_outcome(zip_one_file(name.as_str(), firmware))
}

} // verus!
