//! Executable images as the `goblin` crate reads them, in plain values.
//!
//! Parsing an image is the outside crate's work. What it reports is a function of
//! the bytes alone and is named here, so that contracts elsewhere can speak of it.

use crate::object_fields::{
    fields_fit, in_range, mach_fits, mach_in_range, pe_fits, pe_in_range,
};
use crate::text::texts;
use vstd::prelude::*;

verus! {

/// The container format of a byte buffer.
#[derive(Debug, Clone, Copy, PartialEq, Eq, Structural)]
pub enum ObjectFormat {
    Pe,
    Elf,
    Mach,
    Other,
}

/// One entry of a PE section table.
#[derive(Debug, Clone)]
pub struct SectionFacts {
    /// The section's name, where it is readable text.
    pub name: Option<String>,
    pub raw_pointer: u32,
    pub raw_size: u32,
    pub address: u32,
    pub virtual_size: u32,
    pub characteristics: u32,
}

pub struct SectionView {
    pub name: Option<Seq<char>>,
    pub raw_pointer: u32,
    pub raw_size: u32,
    pub address: u32,
    pub virtual_size: u32,
    pub characteristics: u32,
}

/// What the analysis reads of a PE image.
#[derive(Debug, Clone)]
pub struct PeLayout {
    pub sections: Vec<SectionFacts>,
    /// The names of the imported symbols.
    pub imports: Vec<String>,
    /// The library of each imported symbol.
    pub import_sources: Vec<String>,
    /// The names of the libraries that symbols are imported from.
    pub libraries: Vec<String>,
    pub entry: u64,
    pub timestamp: u32,
}

pub struct PeLayoutView {
    pub sections: Seq<SectionView>,
    pub imports: Seq<Seq<char>>,
    pub import_sources: Seq<Seq<char>>,
    pub libraries: Seq<Seq<char>>,
    pub entry: u64,
    pub timestamp: u32,
}

/// What the analysis reads of a PE optional header.
#[derive(Debug, Clone, Copy)]
pub struct OptionalHeader {
    pub linker_major: u8,
    pub linker_minor: u8,
    /// The size of the TLS directory, where there is one.
    pub tls_size: Option<u32>,
    /// Offset and size of the certificate table, where there is one.
    pub certificates: Option<(u32, u32)>,
}

/// One ELF program header.
#[derive(Debug, Clone, Copy)]
pub struct SegmentFacts {
    pub kind: u32,
    pub flags: u32,
    pub address: u64,
    pub memory_size: u64,
}

/// What the analysis reads of an ELF image.
#[derive(Debug, Clone)]
pub struct ElfLayout {
    pub segments: Vec<SegmentFacts>,
    pub entry: u64,
    pub library_count: usize,
    pub section_count: usize,
}

pub struct ElfLayoutView {
    pub segments: Seq<SegmentFacts>,
    pub entry: u64,
    pub library_count: usize,
    pub section_count: usize,
}

/// What the analysis reads of a Mach-O binary.
#[derive(Debug, Clone)]
pub struct MachLayout {
    /// The initial protection of each segment.
    pub protections: Vec<u32>,
    pub library_count: usize,
}

pub struct MachLayoutView {
    pub protections: Seq<u32>,
    pub library_count: usize,
}

impl View for SectionFacts {
    type V = SectionView;

    open spec fn view(&self) -> SectionView {
        SectionView {
            name: match self.name {
                Some(n) => Some(n@),
                None => None,
            },
            raw_pointer: self.raw_pointer,
            raw_size: self.raw_size,
            address: self.address,
            virtual_size: self.virtual_size,
            characteristics: self.characteristics,
        }
    }
}

impl View for PeLayout {
    type V = PeLayoutView;

    open spec fn view(&self) -> PeLayoutView {
        PeLayoutView {
            sections: self.sections@.map_values(|s: SectionFacts| s@),
            imports: texts(self.imports@),
            import_sources: texts(self.import_sources@),
            libraries: texts(self.libraries@),
            entry: self.entry,
            timestamp: self.timestamp,
        }
    }
}

impl View for ElfLayout {
    type V = ElfLayoutView;

    open spec fn view(&self) -> ElfLayoutView {
        ElfLayoutView {
            segments: self.segments@,
            entry: self.entry,
            library_count: self.library_count,
            section_count: self.section_count,
        }
    }
}

impl View for MachLayout {
    type V = MachLayoutView;

    open spec fn view(&self) -> MachLayoutView {
        MachLayoutView { protections: self.protections@, library_count: self.library_count }
    }
}

/// The format that `goblin::Object::parse` recognises, or the text of its error.
pub uninterp spec fn parsed_format(data: Seq<u8>) -> Result<ObjectFormat, Seq<char>>;

/// The layout that `goblin::pe::PE::parse` reports, if it accepts the image.
pub uninterp spec fn parsed_pe(data: Seq<u8>) -> Option<PeLayoutView>;

/// The optional header that `goblin::pe::header::Header::parse` reports, if it accepts
/// the headers and there is one.
pub uninterp spec fn parsed_optional_header(data: Seq<u8>) -> Option<OptionalHeader>;

/// The layout that `goblin::elf::Elf::parse` reports, if it accepts the image.
pub uninterp spec fn parsed_elf(data: Seq<u8>) -> Option<ElfLayoutView>;

/// The layout that `goblin::mach::Mach::parse` reports of a single-architecture binary.
pub uninterp spec fn parsed_mach(data: Seq<u8>) -> Option<MachLayoutView>;

/// `goblin::Object::parse`: which container the bytes hold, or why they could not be
/// parsed. Both depend on the bytes alone. It computes with some header fields unchecked,
/// which must be in range.
#[verifier::external_body]
fn parse_object(data: &[u8]) -> (format: Result<ObjectFormat, String>)
    requires
        fields_fit(data@),
    ensures
        match format {
            Ok(f) => parsed_format(data@) == Ok::<ObjectFormat, Seq<char>>(f),
            Err(e) => parsed_format(data@) == Err::<ObjectFormat, Seq<char>>(e@),
        },
{
    match goblin::Object::parse(data) {
        Ok(goblin::Object::PE(_)) => Ok(ObjectFormat::Pe),
        Ok(goblin::Object::Elf(_)) => Ok(ObjectFormat::Elf),
        Ok(goblin::Object::Mach(_)) => Ok(ObjectFormat::Mach),
        Ok(_) => Ok(ObjectFormat::Other),
        Err(e) => Err(format!("{}", e)),
    }
}

/// `goblin::pe::PE::parse`: sections, imported names and their libraries, entry point
/// and timestamp of a PE image. They depend on the bytes alone. A message of it adds a
/// section's address and size unchecked, which must be in range.
#[verifier::external_body]
fn parse_pe(data: &[u8]) -> (layout: Option<PeLayout>)
    requires
        pe_fits(data@),
    ensures
        match layout {
            Some(l) => parsed_pe(data@) == Some(l@),
            None => parsed_pe(data@) is None,
        },
{
    let pe = goblin::pe::PE::parse(data).ok()?;
    let sections = pe.sections.iter().map(|s| SectionFacts {
        name: s.name().ok().map(String::from),
        raw_pointer: s.pointer_to_raw_data,
        raw_size: s.size_of_raw_data,
        address: s.virtual_address,
        virtual_size: s.virtual_size,
        characteristics: s.characteristics,
    }).collect();
    let (imports, import_sources) =
        pe.imports.iter().map(|i| (i.name.to_string(), i.dll.to_string())).unzip();
    let libraries = pe.libraries.iter().map(|l| l.to_string()).collect();
    let timestamp = pe.header.coff_header.time_date_stamp;
    Some(PeLayout { sections, imports, import_sources, libraries, entry: pe.entry as u64, timestamp })
}

/// `goblin::pe::header::Header::parse`: linker version, TLS and certificate directories
/// of a PE optional header. They depend on the bytes alone.
#[verifier::external_body]
pub(crate) fn optional_header(data: &[u8]) -> (header: Option<OptionalHeader>)
    ensures
        header == parsed_optional_header(data@),
{
    let header = goblin::pe::header::Header::parse(data).ok()?;
    header.optional_header.map(|h| OptionalHeader {
        linker_major: h.standard_fields.major_linker_version,
        linker_minor: h.standard_fields.minor_linker_version,
        tls_size: h.data_directories.get_tls_table().map(|d| d.size),
        certificates: h.data_directories.get_certificate_table().map(|d| (d.virtual_address, d.size)),
    })
}

/// `goblin::elf::Elf::parse`: program headers, entry point and the numbers of libraries
/// and sections of an ELF image. They depend on the bytes alone.
#[verifier::external_body]
pub(crate) fn elf_layout(data: &[u8]) -> (layout: Option<ElfLayout>)
    ensures
        match layout {
            Some(l) => parsed_elf(data@) == Some(l@),
            None => parsed_elf(data@) is None,
        },
{
    let elf = goblin::elf::Elf::parse(data).ok()?;
    let segments = elf.program_headers.iter().map(|p| SegmentFacts {
        kind: p.p_type,
        flags: p.p_flags,
        address: p.p_vaddr,
        memory_size: p.p_memsz,
    }).collect();
    let library_count = elf.libraries.len();
    let section_count = elf.section_headers.len();
    Some(ElfLayout { segments, entry: elf.entry, library_count, section_count })
}

/// `goblin::mach::Mach::parse`: segment protections and the number of libraries of a
/// single-architecture Mach-O binary. They depend on the bytes alone. It computes the entry
/// point unchecked, which must be in range.
#[verifier::external_body]
fn parse_mach(data: &[u8]) -> (layout: Option<MachLayout>)
    requires
        mach_fits(data@),
    ensures
        match layout {
            Some(l) => parsed_mach(data@) == Some(l@),
            None => parsed_mach(data@) is None,
        },
{
    match goblin::mach::Mach::parse(data) {
        Ok(goblin::mach::Mach::Binary(mach)) => Some(MachLayout {
            protections: mach.segments.iter().map(|s| s.initprot).collect(),
            library_count: mach.libs.len(),
        }),
        Ok(goblin::mach::Mach::Fat(_)) => None,
        Err(_) => None,
    }
}

/// The container format of some bytes, or why they cannot be parsed. Header fields out of
/// range are a reason.
pub open spec fn format_of(data: Seq<u8>) -> Result<ObjectFormat, Seq<char>> {
    if fields_fit(data) {
        parsed_format(data)
    } else {
        Err("Malformed entity: header field out of range"@)
    }
}

pub(crate) fn object_format(data: &[u8]) -> (format: Result<ObjectFormat, String>)
    ensures
        match format {
            Ok(f) => format_of(data@) == Ok::<ObjectFormat, Seq<char>>(f),
            Err(e) => format_of(data@) == Err::<ObjectFormat, Seq<char>>(e@),
        },
{
    if in_range(data) {
        parse_object(data)
    } else {
        Err("Malformed entity: header field out of range".to_string())
    }
}

/// The layout of a PE image, if its fields are in range.
pub open spec fn pe_of(data: Seq<u8>) -> Option<PeLayoutView> {
    if pe_fits(data) {
        parsed_pe(data)
    } else {
        None
    }
}

pub(crate) fn pe_layout(data: &[u8]) -> (layout: Option<PeLayout>)
    ensures
        match layout {
            Some(l) => pe_of(data@) == Some(l@),
            None => pe_of(data@) is None,
        },
{
    if pe_in_range(data) {
        parse_pe(data)
    } else {
        None
    }
}

/// The layout of a single-architecture Mach-O binary, if its fields are in range.
pub open spec fn mach_of(data: Seq<u8>) -> Option<MachLayoutView> {
    if mach_fits(data) {
        parsed_mach(data)
    } else {
        None
    }
}

pub(crate) fn mach_layout(data: &[u8]) -> (layout: Option<MachLayout>)
    ensures
        match layout {
            Some(l) => mach_of(data@) == Some(l@),
            None => mach_of(data@) is None,
        },
{
    if mach_in_range(data) {
        parse_mach(data)
    } else {
        None
    }
}

} // verus!
