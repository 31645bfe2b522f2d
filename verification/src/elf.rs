//! The firmware sections that the host measures, read out of the ELF image.
use object::{Object, ObjectSection};
use vstd::prelude::*;

verus! {

/// Why a section could not be read from an object file.
#[derive(Debug, Clone, Copy, PartialEq, Eq, Structural)]
pub enum ElfError {
    /// The bytes are not an object file that the `object` crate can parse.
    Malformed,
    /// The file has no section of that name.
    MissingSection,
    /// The section's contents could not be read.
    UnreadableSection,
}

/// What the `object` crate reports for the section `name` of the object
/// file `image`: its address and contents, or the step that failed.
pub uninterp spec fn elf_section(image: Seq<u8>, name: Seq<char>) -> Result<(u64, Seq<u8>), ElfError>;

/// Calls `object::File::parse` on `image`, then `Object::section_by_name`,
/// then `ObjectSection::data` and `ObjectSection::address`. Claimed: the
/// outcome is the named `elf_section` of these two inputs (parsing is a
/// function of the bytes alone); each failing step is mapped to its error.
#[verifier::external_body]
fn read_section(image: &[u8], name: &str) -> (r: Result<(u64, Vec<u8>), ElfError>)
    ensures
        match r {
            Ok((address, data)) => elf_section(image@, name@) == Ok::<(u64, Seq<u8>), ElfError>((address, data@)),
            Err(e) => elf_section(image@, name@) == Err::<(u64, Seq<u8>), ElfError>(e),
        },
{
    let file = match object::File::parse(image) {
        Ok(file) => file,
        Err(_) => return Err(ElfError::Malformed),
    };
    let section = match file.section_by_name(name) {
        Some(section) => section,
        None => return Err(ElfError::MissingSection),
    };
    match section.data() {
        Ok(data) => Ok((section.address(), data.to_vec())),
        Err(_) => Err(ElfError::UnreadableSection),
    }
}

/// The `.text` and `.rodata` sections of a firmware image: address and bytes.
pub struct FirmwareSections {
    pub text_address: u64,
    pub text: Vec<u8>,
    pub rodata_address: u64,
    pub rodata: Vec<u8>,
}

/// The measured sections, in the order they are read.
#[derive(Debug, Clone, Copy, PartialEq, Eq, Structural)]
pub enum FirmwareSection {
    Text,
    Rodata,
}

/// Reads `.text`, then `.rodata`, out of the firmware image; the first
/// failure is returned with the section it concerns.
pub fn firmware_sections(image: &[u8]) -> (r: Result<FirmwareSections, (FirmwareSection, ElfError)>)
    ensures
        match r {
            Ok(s) => {
                &&& elf_section(image@, ".text"@) == Ok::<(u64, Seq<u8>), ElfError>((s.text_address, s.text@))
                &&& elf_section(image@, ".rodata"@) == Ok::<(u64, Seq<u8>), ElfError>((s.rodata_address, s.rodata@))
            },
            Err((FirmwareSection::Text, e)) => elf_section(image@, ".text"@) == Err::<(u64, Seq<u8>), ElfError>(e),
            Err((FirmwareSection::Rodata, e)) => {
                &&& elf_section(image@, ".text"@) is Ok
                &&& elf_section(image@, ".rodata"@) == Err::<(u64, Seq<u8>), ElfError>(e)
            },
        },
{
    let (text_address, text) = match read_section(image, ".text") {
        Ok(found) => found,
        Err(e) => {
            return Err((FirmwareSection::Text, e));
        },
    };
    let (rodata_address, rodata) = match read_section(image, ".rodata") {
        Ok(found) => found,
        Err(e) => {
            return Err((FirmwareSection::Rodata, e));
        },
    };
    Ok(FirmwareSections { text_address, text, rodata_address, rodata })
}

} // verus!
