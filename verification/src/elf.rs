//! Binary-format introspection: ELF class from the magic header, and the
//! presence of a named section (which marks a frozen-interpreter bundle).

use vstd::prelude::*;

verus! {

/// Word width of an ELF binary.
#[derive(Clone, Copy, Debug, PartialEq, Eq, Structural)]
pub enum ElfClass {
    Bits32,
    Bits64,
}

/// The launcher's fatal error taxonomy.
#[derive(Clone, Copy, Debug, PartialEq, Eq, Structural)]
pub enum LaunchError {
    /// The target does not start with the ELF signature.
    NotElf,
    /// No bundled dynamic loader exists in the chosen library root.
    InterpreterNotFound,
}

/// The class read from the first five bytes of an ELF file: the four
/// signature bytes, then the class byte (1 marks 32-bit).
pub open spec fn elf_class_spec(b: Seq<u8>) -> Result<ElfClass, LaunchError> {
    if b.len() >= 5 && b[0] == 0x7fu8 && b[1] == 0x45u8 && b[2] == 0x4cu8 && b[3] == 0x46u8 {
        if b[4] == 1u8 {
            Ok(ElfClass::Bits32)
        } else {
            Ok(ElfClass::Bits64)
        }
    } else {
        Err(LaunchError::NotElf)
    }
}

/// Classify a binary by its leading bytes.
pub fn elf_class(header: &Vec<u8>) -> (r: Result<ElfClass, LaunchError>)
    ensures
        r == elf_class_spec(header@),
{
    if header.len() < 5 {
        return Err(LaunchError::NotElf);
    }
    if header[0] == 0x7fu8 && header[1] == 0x45u8 && header[2] == 0x4cu8 && header[3] == 0x46u8 {
        if header[4] == 1u8 {
            Ok(ElfClass::Bits32)
        } else {
            Ok(ElfClass::Bits64)
        }
    } else {
        Err(LaunchError::NotElf)
    }
}

/// Whether an ELF image contains a section of the given name; a function of
/// the bytes alone, computed by the trusted parser below.
pub uninterp spec fn elf_section_present(bytes: Seq<u8>, name: Seq<char>) -> bool;

/// Relies on `goblin::elf::Elf::parse` and its section-header string table:
/// reports whether a section of the given name exists.  The result is a
/// function of the bytes and the name alone; bytes that do not parse as ELF
/// have no sections.
#[verifier::external_body]
fn parse_section_present(bytes: &Vec<u8>, name: &str) -> (r: bool)
    ensures
        r == elf_section_present(bytes@, name@),
{
    if let Ok(elf) = goblin::elf::Elf::parse(bytes) {
        for sh in &elf.section_headers {
            if let Some(n) = elf.shdr_strtab.get_at(sh.sh_name) {
                if n == name {
                    return true;
                }
            }
        }
    }
    false
}

/// Whether the binary image holds a section named `name`.
pub fn elf_has_section(bytes: &Vec<u8>, name: &str) -> (r: bool)
    ensures
        r == elf_section_present(bytes@, name@),
{
    parse_section_present(bytes, name)
}

} // verus!
