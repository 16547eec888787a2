//! The ELF program-header slice the loader hands the memory core: each
//! loadable segment becomes a (physical address, page count, virtual
//! address) triple whose frames are locked and mapped.

use vstd::prelude::*;

verus! {

#[derive(Clone, Copy, Debug, PartialEq, Eq, Structural)]
pub enum ElfPhysicalType {
    ElfPhysicalTypeNull,
    ElfPhysicalTypeLoad,
    ElfPhysicalTypeDynamic,
    ElfPhysicalTypeInterp,
    ElfPhysicalTypeNote,
    ElfPhysicalTypeShlib,
    ElfPhysicalTypePhdr,
    ElfPhysicalTypeTls,
    ElfPhysicalTypeNum,
    ElfPhysicalTypeLoOs,
    ElfPhysicalTypeGnuEhFrame,
    ElfPhysicalTypeGnuStack,
    ElfPhysicalTypeGnuRelRO,
    ElfPhysicalTypeGnuProperty,
    ElfPhysicalTypeSunWBss,
    ElfPhysicalTypeSunWStack,
    ElfPhysicalTypeHiSunW,
    ElfPhysicalTypeLoProc,
    ElfPhysicalTypeHiProc,
}

/// The segment type named by a raw program-header type code; codes with
/// no name fall back to the null type.
pub open spec fn spec_elf_physical_type(t: u32) -> ElfPhysicalType {
    if t == 1 {
        ElfPhysicalType::ElfPhysicalTypeLoad
    } else if t == 2 {
        ElfPhysicalType::ElfPhysicalTypeDynamic
    } else if t == 3 {
        ElfPhysicalType::ElfPhysicalTypeInterp
    } else if t == 4 {
        ElfPhysicalType::ElfPhysicalTypeNote
    } else if t == 5 {
        ElfPhysicalType::ElfPhysicalTypeShlib
    } else if t == 6 {
        ElfPhysicalType::ElfPhysicalTypePhdr
    } else if t == 7 {
        ElfPhysicalType::ElfPhysicalTypeTls
    } else if t == 8 {
        ElfPhysicalType::ElfPhysicalTypeNum
    } else if t == 0x60000000 {
        ElfPhysicalType::ElfPhysicalTypeLoOs
    } else if t == 0x6474e550 {
        ElfPhysicalType::ElfPhysicalTypeGnuEhFrame
    } else if t == 0x6474e551 {
        ElfPhysicalType::ElfPhysicalTypeGnuStack
    } else if t == 0x6474e552 {
        ElfPhysicalType::ElfPhysicalTypeGnuRelRO
    } else if t == 0x6474e553 {
        ElfPhysicalType::ElfPhysicalTypeGnuProperty
    } else if t == 0x6ffffffa {
        ElfPhysicalType::ElfPhysicalTypeSunWBss
    } else if t == 0x6ffffffb {
        ElfPhysicalType::ElfPhysicalTypeSunWStack
    } else if t == 0x6fffffff {
        ElfPhysicalType::ElfPhysicalTypeHiSunW
    } else if t == 0x70000000 {
        ElfPhysicalType::ElfPhysicalTypeLoProc
    } else if t == 0x7fffffff {
        ElfPhysicalType::ElfPhysicalTypeHiProc
    } else {
        ElfPhysicalType::ElfPhysicalTypeNull
    }
}

/// One 64-bit ELF program header.
#[derive(Clone, Copy, Debug)]
pub struct ElfPhysicalHeader64 {
    pub _p_type: u32,
    pub p_flags: u32,
    pub p_offset: u64,
    pub p_vaddr: u64,
    pub p_paddr: u64,
    pub p_filesz: u64,
    pub p_memsz: u64,
    pub p_align: u64,
}

impl ElfPhysicalHeader64 {
    /// The typed classification of this segment.
    pub fn p_type(&self) -> (r: ElfPhysicalType)
        ensures
            r == spec_elf_physical_type(self._p_type),
    {
        match self._p_type {
            1 => ElfPhysicalType::ElfPhysicalTypeLoad,
            2 => ElfPhysicalType::ElfPhysicalTypeDynamic,
            3 => ElfPhysicalType::ElfPhysicalTypeInterp,
            4 => ElfPhysicalType::ElfPhysicalTypeNote,
            5 => ElfPhysicalType::ElfPhysicalTypeShlib,
            6 => ElfPhysicalType::ElfPhysicalTypePhdr,
            7 => ElfPhysicalType::ElfPhysicalTypeTls,
            8 => ElfPhysicalType::ElfPhysicalTypeNum,
            0x60000000 => ElfPhysicalType::ElfPhysicalTypeLoOs,
            0x6474e550 => ElfPhysicalType::ElfPhysicalTypeGnuEhFrame,
            0x6474e551 => ElfPhysicalType::ElfPhysicalTypeGnuStack,
            0x6474e552 => ElfPhysicalType::ElfPhysicalTypeGnuRelRO,
            0x6474e553 => ElfPhysicalType::ElfPhysicalTypeGnuProperty,
            0x6ffffffa => ElfPhysicalType::ElfPhysicalTypeSunWBss,
            0x6ffffffb => ElfPhysicalType::ElfPhysicalTypeSunWStack,
            0x6fffffff => ElfPhysicalType::ElfPhysicalTypeHiSunW,
            0x70000000 => ElfPhysicalType::ElfPhysicalTypeLoProc,
            0x7fffffff => ElfPhysicalType::ElfPhysicalTypeHiProc,
            _ => ElfPhysicalType::ElfPhysicalTypeNull,
        }
    }
}

impl Default for ElfPhysicalHeader64 {
    /// A zeroed program header.
    fn default() -> (r: ElfPhysicalHeader64)
        ensures
            r._p_type == 0,
            r.p_flags == 0,
            r.p_offset == 0,
            r.p_vaddr == 0,
            r.p_paddr == 0,
            r.p_filesz == 0,
            r.p_memsz == 0,
            r.p_align == 0,
    {
        ElfPhysicalHeader64 {
            _p_type: 0,
            p_flags: 0,
            p_offset: 0,
            p_vaddr: 0,
            p_paddr: 0,
            p_filesz: 0,
            p_memsz: 0,
            p_align: 0,
        }
    }
}

} // verus!
