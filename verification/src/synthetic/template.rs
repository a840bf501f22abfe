//! The families of synthetic images: sections, imports and header traits.

use crate::score::{Score, ONE_UNITS};
use crate::synthetic::imports::{block_len, blob_len, blocks_len, hint_name, hint_names, library_names};
use crate::synthetic::imports::{import_plans, names, ImportPlan, ImportSpec};
use crate::text::same_text;
use vstd::prelude::*;
use vstd::utf8::{encode_utf8, is_ascii_chars, is_ascii_chars_encode_utf8};

verus! {

pub const FILE_ALIGNMENT: u32 = 0x200;

pub const SECTION_ALIGNMENT: u32 = 0x1000;

pub const HEADER_SIZE: usize = 0x400;

/// What the bytes of a section are drawn from.
#[derive(Clone, Copy, PartialEq, Eq, Structural)]
pub enum Fill {
    Zeros,
    Random,
    /// Random bytes among zeros; the share of random ones in hundredths.
    Mixed(u32),
    Ascii,
}

/// Where the build time of an image lies.
#[derive(Clone, Copy, PartialEq, Eq, Structural)]
pub enum TimestampMode {
    Recent,
    Zero,
    Ancient,
    Future,
}

#[derive(Clone)]
pub struct SectionSpec {
    pub name: &'static str,
    pub virtual_size: usize,
    pub characteristics: u32,
    pub fill: Fill,
}

pub struct SectionPlan {
    pub name: Seq<char>,
    pub virtual_size: nat,
    pub characteristics: u32,
    pub fill: Fill,
}

impl View for SectionSpec {
    type V = SectionPlan;

    open spec fn view(&self) -> SectionPlan {
        section_plan(
            self.name@,
            self.virtual_size as nat,
            self.characteristics,
            self.fill,
        )
    }
}

pub open spec fn section_plan(
    name: Seq<char>,
    virtual_size: nat,
    characteristics: u32,
    fill: Fill,
) -> SectionPlan {
    SectionPlan { name, virtual_size, characteristics, fill }
}

pub open spec fn import_plan(dll: Seq<char>, functions: Seq<Seq<char>>) -> ImportPlan {
    ImportPlan { dll, functions }
}

pub open spec fn section_plans(sections: Seq<SectionSpec>) -> Seq<SectionPlan> {
    sections.map_values(|s: SectionSpec| s@)
}

#[derive(Clone)]
pub struct PeTemplate {
    pub label: Score,
    pub family: &'static str,
    pub sections: Vec<SectionSpec>,
    pub imports: Vec<ImportSpec>,
    pub tls_present: bool,
    pub entry_in_last_section: bool,
    pub timestamp_mode: TimestampMode,
    pub subsystem: u16,
    pub overlay_bytes: usize,
}

pub struct TemplatePlan {
    pub label: Score,
    pub family: Seq<char>,
    pub sections: Seq<SectionPlan>,
    pub imports: Seq<ImportPlan>,
    pub tls_present: bool,
    pub entry_in_last_section: bool,
    pub timestamp_mode: TimestampMode,
    pub subsystem: u16,
    pub overlay_bytes: nat,
}

impl View for PeTemplate {
    type V = TemplatePlan;

    open spec fn view(&self) -> TemplatePlan {
        TemplatePlan {
            label: self.label,
            family: self.family@,
            sections: section_plans(self.sections@),
            imports: import_plans(self.imports@),
            tls_present: self.tls_present,
            entry_in_last_section: self.entry_in_last_section,
            timestamp_mode: self.timestamp_mode,
            subsystem: self.subsystem,
            overlay_bytes: self.overlay_bytes as nat,
        }
    }
}

/// The least multiple of `step` that is at least `n` and not zero.
pub open spec fn aligned(n: nat, step: nat) -> nat {
    if n == 0 {
        step
    } else {
        (n + step - 1) as nat / step * step
    }
}

/// The bytes that a section takes in the file.
pub open spec fn raw_size(section: SectionPlan) -> nat {
    aligned(section.virtual_size, FILE_ALIGNMENT as nat)
}

/// The file offset after the given sections.
pub open spec fn raw_end(sections: Seq<SectionPlan>) -> nat
    decreases sections.len(),
{
    if sections.len() == 0 {
        HEADER_SIZE as nat
    } else {
        raw_end(sections.drop_last()) + raw_size(sections.last())
    }
}

/// The address after the given sections.
pub open spec fn rva_end(sections: Seq<SectionPlan>) -> nat
    decreases sections.len(),
{
    if sections.len() == 0 {
        SECTION_ALIGNMENT as nat
    } else {
        rva_end(sections.drop_last()) + aligned(
            sections.last().virtual_size,
            SECTION_ALIGNMENT as nat,
        )
    }
}

/// The file offset of section `i`.
pub open spec fn raw_at(sections: Seq<SectionPlan>, i: int) -> nat {
    raw_end(sections.take(i))
}

/// The address of section `i`.
pub open spec fn rva_at(sections: Seq<SectionPlan>, i: int) -> nat {
    rva_end(sections.take(i))
}

impl TemplatePlan {
    /// The section that the entry point stands in.
    pub open spec fn entry_section(self) -> int {
        if self.entry_in_last_section {
            self.sections.len() - 1
        } else {
            0
        }
    }

    pub open spec fn has_imports(self) -> bool {
        self.imports.len() > 0 && self.sections.len() >= 2
    }

    pub open spec fn has_tls(self) -> bool {
        self.tls_present && self.sections.len() >= 2
    }

    /// The image can be laid out: the section table fits into the headers, addresses
    /// into 32 bits, the tables into the second section and the entry code with the
    /// marker into its section.
    pub open spec fn fits(self) -> bool {
        &&& 1 <= self.sections.len() <= 15
        &&& rva_end(self.sections) <= u32::MAX
        &&& raw_end(self.sections) + self.overlay_bytes <= usize::MAX
        &&& self.sections[self.entry_section()].virtual_size >= 53
        &&& self.has_imports() ==> blob_len(self.imports) <= self.sections[1].virtual_size
        &&& self.has_tls() ==> 0x82C <= self.sections[1].virtual_size
    }
}

pub const FAMILY_NAMES: [&'static str; 7] = [
    "benign_like",
    "packed_like",
    "api_heavy_like",
    "stealth_like",
    "credential_stealer_like",
    "downloader_like",
    "ransomware_like",
];

/// The `benign_like` family.
pub open spec fn benign_like_plan() -> TemplatePlan {
    TemplatePlan {
        label: Score::zero(),
        family: "benign_like"@,
        sections: seq![
            section_plan(".text"@, 0x600, 0x6000_0020, Fill::Mixed(25)),
            section_plan(".rdata"@, 0x900, 0x4000_0040, Fill::Ascii),
            section_plan(".data"@, 0x400, 0xC000_0040, Fill::Zeros),
            section_plan(".rsrc"@, 0x300, 0x4000_0040, Fill::Ascii),
        ],
        imports: seq![
            import_plan("KERNEL32.dll"@, seq!["CreateFileW"@, "ReadFile"@, "CloseHandle"@, "GetLastError"@]),
            import_plan("api-ms-win-crt-runtime-l1-1-0.dll"@, seq!["_initterm"@, "__C_specific_handler"@]),
        ],
        tls_present: false,
        entry_in_last_section: false,
        timestamp_mode: TimestampMode::Recent,
        subsystem: 2,
        overlay_bytes: 0,
    }
}

/// The `packed_like` family.
pub open spec fn packed_like_plan() -> TemplatePlan {
    TemplatePlan {
        label: Score::one(),
        family: "packed_like"@,
        sections: seq![
            section_plan(".text"@, 0x200, 0x6000_0020, Fill::Zeros),
            section_plan(".themida"@, 0x1800, 0xE000_00E0, Fill::Random),
            section_plan(".data"@, 0x200, 0xC000_0040, Fill::Random),
        ],
        imports: seq![
            import_plan("KERNEL32.dll"@, seq!["LoadLibraryA"@, "GetProcAddress"@, "VirtualProtect"@]),
        ],
        tls_present: true,
        entry_in_last_section: true,
        timestamp_mode: TimestampMode::Zero,
        subsystem: 3,
        overlay_bytes: 2048,
    }
}

/// The `api_heavy_like` family.
pub open spec fn api_heavy_like_plan() -> TemplatePlan {
    TemplatePlan {
        label: Score::one(),
        family: "api_heavy_like"@,
        sections: seq![
            section_plan(".text"@, 0x800, 0x6000_0020, Fill::Mixed(50)),
            section_plan(".rdata"@, 0xA00, 0x4000_0040, Fill::Mixed(35)),
            section_plan(".data"@, 0x400, 0xC000_0040, Fill::Mixed(20)),
        ],
        imports: seq![
            import_plan("advapi32.dll"@, seq!["VirtualAllocEx"@, "WriteProcessMemory"@, "CreateRemoteThread"@, "SetWindowsHookExW"@, "CryptEncrypt"@, "WinExec"@]),
            import_plan("ws2_32.dll"@, seq!["URLDownloadToFileW"@, "RegSetValueExW"@, "NtUnmapViewOfSection"@, "GetAsyncKeyState"@]),
            import_plan("user32.dll"@, seq!["SetWindowsHookExW"@, "GetAsyncKeyState"@]),
            import_plan("wininet.dll"@, seq!["InternetOpenW"@, "HttpSendRequestW"@]),
        ],
        tls_present: false,
        entry_in_last_section: false,
        timestamp_mode: TimestampMode::Ancient,
        subsystem: 3,
        overlay_bytes: 0,
    }
}

/// The `stealth_like` family.
pub open spec fn stealth_like_plan() -> TemplatePlan {
    TemplatePlan {
        label: Score::one(),
        family: "stealth_like"@,
        sections: seq![
            section_plan(".flat"@, 0x2000, 0xE000_00E0, Fill::Random),
            section_plan(".bss"@, 0xC00, 0xC000_0040, Fill::Mixed(60)),
        ],
        imports: Seq::empty(),
        tls_present: true,
        entry_in_last_section: true,
        timestamp_mode: TimestampMode::Future,
        subsystem: 3,
        overlay_bytes: 4096,
    }
}

/// The `credential_stealer_like` family.
pub open spec fn credential_stealer_like_plan() -> TemplatePlan {
    TemplatePlan {
        label: Score::one(),
        family: "credential_stealer_like"@,
        sections: seq![
            section_plan(".text"@, 0x700, 0x6000_0020, Fill::Mixed(35)),
            section_plan(".rdata"@, 0xB00, 0x4000_0040, Fill::Mixed(25)),
            section_plan(".data"@, 0x400, 0xC000_0040, Fill::Mixed(20)),
            section_plan(".rsrc"@, 0x200, 0x4000_0040, Fill::Ascii),
        ],
        imports: seq![
            import_plan("user32.dll"@, seq!["GetAsyncKeyState"@, "SetWindowsHookExW"@]),
            import_plan("advapi32.dll"@, seq!["RegOpenKeyExW"@, "RegQueryValueExW"@, "CryptAcquireContextW"@]),
            import_plan("KERNEL32.dll"@, seq!["VirtualAlloc"@, "WriteProcessMemory"@, "ReadProcessMemory"@]),
            import_plan("ws2_32.dll"@, seq!["send"@, "recv"@, "connect"@, "closesocket"@]),
        ],
        tls_present: true,
        entry_in_last_section: false,
        timestamp_mode: TimestampMode::Future,
        subsystem: 3,
        overlay_bytes: 1536,
    }
}

/// The `downloader_like` family.
pub open spec fn downloader_like_plan() -> TemplatePlan {
    TemplatePlan {
        label: Score::one(),
        family: "downloader_like"@,
        sections: seq![
            section_plan(".text"@, 0x800, 0x6000_0020, Fill::Mixed(40)),
            section_plan(".rdata"@, 0xC00, 0x4000_0040, Fill::Mixed(30)),
            section_plan(".data"@, 0x600, 0xC000_0040, Fill::Mixed(25)),
            section_plan(".rsrc"@, 0x300, 0x4000_0040, Fill::Ascii),
        ],
        imports: seq![
            import_plan("urlmon.dll"@, seq!["URLDownloadToFileW"@]),
            import_plan("wininet.dll"@, seq!["InternetOpenW"@, "InternetConnectW"@, "HttpSendRequestW"@]),
            import_plan("KERNEL32.dll"@, seq!["CreateFileW"@, "WriteFile"@, "CloseHandle"@, "GetTempPathW"@]),
        ],
        tls_present: false,
        entry_in_last_section: false,
        timestamp_mode: TimestampMode::Ancient,
        subsystem: 3,
        overlay_bytes: 2048,
    }
}

/// The `ransomware_like` family.
pub open spec fn ransomware_like_plan() -> TemplatePlan {
    TemplatePlan {
        label: Score::one(),
        family: "ransomware_like"@,
        sections: seq![
            section_plan(".text"@, 0x900, 0x6000_0020, Fill::Mixed(45)),
            section_plan(".rdata"@, 0x1000, 0x4000_0040, Fill::Mixed(30)),
            section_plan(".data"@, 0x700, 0xC000_0040, Fill::Mixed(30)),
            section_plan(".rsrc"@, 0x400, 0x4000_0040, Fill::Ascii),
        ],
        imports: seq![
            import_plan("advapi32.dll"@, seq!["CryptEncrypt"@, "CryptAcquireContextW"@, "RegSetValueExW"@]),
            import_plan("KERNEL32.dll"@, seq!["FindFirstFileW"@, "FindNextFileW"@, "MoveFileW"@, "DeleteFileW"@, "GetSystemMetricsW"@]),
            import_plan("user32.dll"@, seq!["MessageBoxW"@, "GetWindowTextW"@]),
        ],
        tls_present: true,
        entry_in_last_section: true,
        timestamp_mode: TimestampMode::Zero,
        subsystem: 3,
        overlay_bytes: 4096,
    }
}

/// The template of a family, if there is one of that name.
pub open spec fn family_plan(family: Seq<char>) -> Option<TemplatePlan> {
    if family == "benign_like"@ {
        Some(benign_like_plan())
    } else if family == "packed_like"@ {
        Some(packed_like_plan())
    } else if family == "api_heavy_like"@ {
        Some(api_heavy_like_plan())
    } else if family == "stealth_like"@ {
        Some(stealth_like_plan())
    } else if family == "credential_stealer_like"@ {
        Some(credential_stealer_like_plan())
    } else if family == "downloader_like"@ {
        Some(downloader_like_plan())
    } else if family == "ransomware_like"@ {
        Some(ransomware_like_plan())
    } else {
        None
    }
}

pub proof fn lemma_short_name(name: Seq<char>)
    requires
        is_ascii_chars(name),
        name.len() <= 40,
    ensures
        encode_utf8(name).len() <= 40,
{
    is_ascii_chars_encode_utf8(name);
}

proof fn lemma_few_functions(functions: Seq<Seq<char>>)
    requires
        forall|i: int|
            0 <= i < functions.len() ==> encode_utf8(#[trigger] functions[i]).len() <= 40,
    ensures
        hint_names(functions).len() <= 43 * functions.len(),
    decreases functions.len(),
{
    if functions.len() > 0 {
        assert forall|i: int| 0 <= i < functions.drop_last().len() implies encode_utf8(
            #[trigger] functions.drop_last()[i],
        ).len() <= 40 by {
            assert(functions.drop_last()[i] == functions[i]);
        }
        lemma_few_functions(functions.drop_last());
        assert(functions.last() == functions[functions.len() - 1]);
        assert(hint_name(functions.last()).len() == encode_utf8(functions.last()).len() + 3);
    }
}

/// Few short names: at most six functions of a library.
pub open spec fn short_import(plan: ImportPlan) -> bool {
    &&& plan.functions.len() <= 6
    &&& encode_utf8(plan.dll).len() <= 40
    &&& forall|i: int|
        0 <= i < plan.functions.len() ==> encode_utf8(#[trigger] plan.functions[i]).len() <= 40
}

/// Up to four libraries with short names fit into a section of 0x900 bytes.
proof fn lemma_few_imports(plans: Seq<ImportPlan>)
    requires
        plans.len() <= 4,
        forall|i: int| 0 <= i < plans.len() ==> short_import(#[trigger] plans[i]),
    ensures
        blob_len(plans) <= 20 + 431 * plans.len(),
        blocks_len(plans) <= 370 * plans.len(),
        library_names(plans).len() <= 41 * plans.len(),
    decreases plans.len(),
{
    if plans.len() > 0 {
        assert forall|i: int| 0 <= i < plans.drop_last().len() implies short_import(
            #[trigger] plans.drop_last()[i],
        ) by {
            assert(plans.drop_last()[i] == plans[i]);
        }
        lemma_few_imports(plans.drop_last());
        assert(plans.last() == plans[plans.len() - 1]);
        lemma_few_functions(plans.last().functions);
        assert(block_len(plans.last()) <= 370);
    }
}

/// Up to four sections of at most 0x2000 bytes take little room.
proof fn lemma_spans(sections: Seq<SectionPlan>)
    requires
        sections.len() <= 4,
        forall|i: int| 0 <= i < sections.len() ==> (#[trigger] sections[i]).virtual_size <= 0x2000,
    ensures
        rva_end(sections) <= 0x1000 + 0x3000 * sections.len(),
        raw_end(sections) <= 0x400 + 0x3000 * sections.len(),
    decreases sections.len(),
{
    if sections.len() > 0 {
        assert forall|i: int| 0 <= i < sections.drop_last().len() implies (
        #[trigger] sections.drop_last()[i]).virtual_size <= 0x2000 by {
            assert(sections.drop_last()[i] == sections[i]);
        }
        lemma_spans(sections.drop_last());
        assert(sections.last() == sections[sections.len() - 1]);
    }
}

fn section(name: &'static str, virtual_size: usize, characteristics: u32, fill: Fill) -> (s:
    SectionSpec)
    ensures
        s@ == section_plan(name@, virtual_size as nat, characteristics, fill),
{
    SectionSpec { name, virtual_size, characteristics, fill }
}

fn import(dll: &'static str, functions: Vec<&'static str>) -> (i: ImportSpec)
    ensures
        i@ == import_plan(dll@, names(functions@)),
        i.functions@ == functions@,
{
    ImportSpec { dll, functions }
}

fn benign_like() -> (template: PeTemplate)
    ensures
        template@ == benign_like_plan(),
        template@.fits(),
{
    let mut sections: Vec<SectionSpec> = Vec::new();
    sections.push(section(".text", 0x600, 0x6000_0020, Fill::Mixed(25)));
    sections.push(section(".rdata", 0x900, 0x4000_0040, Fill::Ascii));
    sections.push(section(".data", 0x400, 0xC000_0040, Fill::Zeros));
    sections.push(section(".rsrc", 0x300, 0x4000_0040, Fill::Ascii));
    let mut imports: Vec<ImportSpec> = Vec::new();
    imports.push(import("KERNEL32.dll", vec!["CreateFileW", "ReadFile", "CloseHandle", "GetLastError"]));
    imports.push(import("api-ms-win-crt-runtime-l1-1-0.dll", vec!["_initterm", "__C_specific_handler"]));
    proof {
        reveal_strlit("CloseHandle");
        reveal_strlit("CreateFileW");
        reveal_strlit("GetLastError");
        reveal_strlit("KERNEL32.dll");
        reveal_strlit("ReadFile");
        reveal_strlit("__C_specific_handler");
        reveal_strlit("_initterm");
        reveal_strlit("api-ms-win-crt-runtime-l1-1-0.dll");
        lemma_short_name("CloseHandle"@);
        lemma_short_name("CreateFileW"@);
        lemma_short_name("GetLastError"@);
        lemma_short_name("KERNEL32.dll"@);
        lemma_short_name("ReadFile"@);
        lemma_short_name("__C_specific_handler"@);
        lemma_short_name("_initterm"@);
        lemma_short_name("api-ms-win-crt-runtime-l1-1-0.dll"@);
        assert(names(imports@[0].functions@) =~= benign_like_plan().imports[0].functions);
        assert(names(imports@[1].functions@) =~= benign_like_plan().imports[1].functions);
        lemma_few_imports(benign_like_plan().imports);
        assert(import_plans(imports@) =~= benign_like_plan().imports);
        assert(section_plans(sections@) =~= benign_like_plan().sections);
        lemma_spans(benign_like_plan().sections);
    }
    PeTemplate {
        label: Score { units: 0 },
        family: "benign_like",
        sections,
        imports,
        tls_present: false,
        entry_in_last_section: false,
        timestamp_mode: TimestampMode::Recent,
        subsystem: 2,
        overlay_bytes: 0,
    }
}

fn packed_like() -> (template: PeTemplate)
    ensures
        template@ == packed_like_plan(),
        template@.fits(),
{
    let mut sections: Vec<SectionSpec> = Vec::new();
    sections.push(section(".text", 0x200, 0x6000_0020, Fill::Zeros));
    sections.push(section(".themida", 0x1800, 0xE000_00E0, Fill::Random));
    sections.push(section(".data", 0x200, 0xC000_0040, Fill::Random));
    let mut imports: Vec<ImportSpec> = Vec::new();
    imports.push(import("KERNEL32.dll", vec!["LoadLibraryA", "GetProcAddress", "VirtualProtect"]));
    proof {
        reveal_strlit("GetProcAddress");
        reveal_strlit("KERNEL32.dll");
        reveal_strlit("LoadLibraryA");
        reveal_strlit("VirtualProtect");
        lemma_short_name("GetProcAddress"@);
        lemma_short_name("KERNEL32.dll"@);
        lemma_short_name("LoadLibraryA"@);
        lemma_short_name("VirtualProtect"@);
        assert(names(imports@[0].functions@) =~= packed_like_plan().imports[0].functions);
        lemma_few_imports(packed_like_plan().imports);
        assert(import_plans(imports@) =~= packed_like_plan().imports);
        assert(section_plans(sections@) =~= packed_like_plan().sections);
        lemma_spans(packed_like_plan().sections);
    }
    PeTemplate {
        label: Score { units: ONE_UNITS },
        family: "packed_like",
        sections,
        imports,
        tls_present: true,
        entry_in_last_section: true,
        timestamp_mode: TimestampMode::Zero,
        subsystem: 3,
        overlay_bytes: 2048,
    }
}

fn api_heavy_like() -> (template: PeTemplate)
    ensures
        template@ == api_heavy_like_plan(),
        template@.fits(),
{
    let mut sections: Vec<SectionSpec> = Vec::new();
    sections.push(section(".text", 0x800, 0x6000_0020, Fill::Mixed(50)));
    sections.push(section(".rdata", 0xA00, 0x4000_0040, Fill::Mixed(35)));
    sections.push(section(".data", 0x400, 0xC000_0040, Fill::Mixed(20)));
    let mut imports: Vec<ImportSpec> = Vec::new();
    imports.push(import("advapi32.dll", vec!["VirtualAllocEx", "WriteProcessMemory", "CreateRemoteThread", "SetWindowsHookExW", "CryptEncrypt", "WinExec"]));
    imports.push(import("ws2_32.dll", vec!["URLDownloadToFileW", "RegSetValueExW", "NtUnmapViewOfSection", "GetAsyncKeyState"]));
    imports.push(import("user32.dll", vec!["SetWindowsHookExW", "GetAsyncKeyState"]));
    imports.push(import("wininet.dll", vec!["InternetOpenW", "HttpSendRequestW"]));
    proof {
        reveal_strlit("CreateRemoteThread");
        reveal_strlit("CryptEncrypt");
        reveal_strlit("GetAsyncKeyState");
        reveal_strlit("HttpSendRequestW");
        reveal_strlit("InternetOpenW");
        reveal_strlit("NtUnmapViewOfSection");
        reveal_strlit("RegSetValueExW");
        reveal_strlit("SetWindowsHookExW");
        reveal_strlit("URLDownloadToFileW");
        reveal_strlit("VirtualAllocEx");
        reveal_strlit("WinExec");
        reveal_strlit("WriteProcessMemory");
        reveal_strlit("advapi32.dll");
        reveal_strlit("user32.dll");
        reveal_strlit("wininet.dll");
        reveal_strlit("ws2_32.dll");
        lemma_short_name("CreateRemoteThread"@);
        lemma_short_name("CryptEncrypt"@);
        lemma_short_name("GetAsyncKeyState"@);
        lemma_short_name("HttpSendRequestW"@);
        lemma_short_name("InternetOpenW"@);
        lemma_short_name("NtUnmapViewOfSection"@);
        lemma_short_name("RegSetValueExW"@);
        lemma_short_name("SetWindowsHookExW"@);
        lemma_short_name("URLDownloadToFileW"@);
        lemma_short_name("VirtualAllocEx"@);
        lemma_short_name("WinExec"@);
        lemma_short_name("WriteProcessMemory"@);
        lemma_short_name("advapi32.dll"@);
        lemma_short_name("user32.dll"@);
        lemma_short_name("wininet.dll"@);
        lemma_short_name("ws2_32.dll"@);
        assert(names(imports@[0].functions@) =~= api_heavy_like_plan().imports[0].functions);
        assert(names(imports@[1].functions@) =~= api_heavy_like_plan().imports[1].functions);
        assert(names(imports@[2].functions@) =~= api_heavy_like_plan().imports[2].functions);
        assert(names(imports@[3].functions@) =~= api_heavy_like_plan().imports[3].functions);
        lemma_few_imports(api_heavy_like_plan().imports);
        assert(import_plans(imports@) =~= api_heavy_like_plan().imports);
        assert(section_plans(sections@) =~= api_heavy_like_plan().sections);
        lemma_spans(api_heavy_like_plan().sections);
    }
    PeTemplate {
        label: Score { units: ONE_UNITS },
        family: "api_heavy_like",
        sections,
        imports,
        tls_present: false,
        entry_in_last_section: false,
        timestamp_mode: TimestampMode::Ancient,
        subsystem: 3,
        overlay_bytes: 0,
    }
}

fn stealth_like() -> (template: PeTemplate)
    ensures
        template@ == stealth_like_plan(),
        template@.fits(),
{
    let mut sections: Vec<SectionSpec> = Vec::new();
    sections.push(section(".flat", 0x2000, 0xE000_00E0, Fill::Random));
    sections.push(section(".bss", 0xC00, 0xC000_0040, Fill::Mixed(60)));
    let mut imports: Vec<ImportSpec> = Vec::new();
    proof {
        assert(import_plans(imports@) =~= stealth_like_plan().imports);
        assert(section_plans(sections@) =~= stealth_like_plan().sections);
        lemma_spans(stealth_like_plan().sections);
    }
    PeTemplate {
        label: Score { units: ONE_UNITS },
        family: "stealth_like",
        sections,
        imports,
        tls_present: true,
        entry_in_last_section: true,
        timestamp_mode: TimestampMode::Future,
        subsystem: 3,
        overlay_bytes: 4096,
    }
}

fn credential_stealer_like() -> (template: PeTemplate)
    ensures
        template@ == credential_stealer_like_plan(),
        template@.fits(),
{
    let mut sections: Vec<SectionSpec> = Vec::new();
    sections.push(section(".text", 0x700, 0x6000_0020, Fill::Mixed(35)));
    sections.push(section(".rdata", 0xB00, 0x4000_0040, Fill::Mixed(25)));
    sections.push(section(".data", 0x400, 0xC000_0040, Fill::Mixed(20)));
    sections.push(section(".rsrc", 0x200, 0x4000_0040, Fill::Ascii));
    let mut imports: Vec<ImportSpec> = Vec::new();
    imports.push(import("user32.dll", vec!["GetAsyncKeyState", "SetWindowsHookExW"]));
    imports.push(import("advapi32.dll", vec!["RegOpenKeyExW", "RegQueryValueExW", "CryptAcquireContextW"]));
    imports.push(import("KERNEL32.dll", vec!["VirtualAlloc", "WriteProcessMemory", "ReadProcessMemory"]));
    imports.push(import("ws2_32.dll", vec!["send", "recv", "connect", "closesocket"]));
    proof {
        reveal_strlit("CryptAcquireContextW");
        reveal_strlit("GetAsyncKeyState");
        reveal_strlit("KERNEL32.dll");
        reveal_strlit("ReadProcessMemory");
        reveal_strlit("RegOpenKeyExW");
        reveal_strlit("RegQueryValueExW");
        reveal_strlit("SetWindowsHookExW");
        reveal_strlit("VirtualAlloc");
        reveal_strlit("WriteProcessMemory");
        reveal_strlit("advapi32.dll");
        reveal_strlit("closesocket");
        reveal_strlit("connect");
        reveal_strlit("recv");
        reveal_strlit("send");
        reveal_strlit("user32.dll");
        reveal_strlit("ws2_32.dll");
        lemma_short_name("CryptAcquireContextW"@);
        lemma_short_name("GetAsyncKeyState"@);
        lemma_short_name("KERNEL32.dll"@);
        lemma_short_name("ReadProcessMemory"@);
        lemma_short_name("RegOpenKeyExW"@);
        lemma_short_name("RegQueryValueExW"@);
        lemma_short_name("SetWindowsHookExW"@);
        lemma_short_name("VirtualAlloc"@);
        lemma_short_name("WriteProcessMemory"@);
        lemma_short_name("advapi32.dll"@);
        lemma_short_name("closesocket"@);
        lemma_short_name("connect"@);
        lemma_short_name("recv"@);
        lemma_short_name("send"@);
        lemma_short_name("user32.dll"@);
        lemma_short_name("ws2_32.dll"@);
        assert(names(imports@[0].functions@) =~= credential_stealer_like_plan().imports[0].functions);
        assert(names(imports@[1].functions@) =~= credential_stealer_like_plan().imports[1].functions);
        assert(names(imports@[2].functions@) =~= credential_stealer_like_plan().imports[2].functions);
        assert(names(imports@[3].functions@) =~= credential_stealer_like_plan().imports[3].functions);
        lemma_few_imports(credential_stealer_like_plan().imports);
        assert(import_plans(imports@) =~= credential_stealer_like_plan().imports);
        assert(section_plans(sections@) =~= credential_stealer_like_plan().sections);
        lemma_spans(credential_stealer_like_plan().sections);
    }
    PeTemplate {
        label: Score { units: ONE_UNITS },
        family: "credential_stealer_like",
        sections,
        imports,
        tls_present: true,
        entry_in_last_section: false,
        timestamp_mode: TimestampMode::Future,
        subsystem: 3,
        overlay_bytes: 1536,
    }
}

fn downloader_like() -> (template: PeTemplate)
    ensures
        template@ == downloader_like_plan(),
        template@.fits(),
{
    let mut sections: Vec<SectionSpec> = Vec::new();
    sections.push(section(".text", 0x800, 0x6000_0020, Fill::Mixed(40)));
    sections.push(section(".rdata", 0xC00, 0x4000_0040, Fill::Mixed(30)));
    sections.push(section(".data", 0x600, 0xC000_0040, Fill::Mixed(25)));
    sections.push(section(".rsrc", 0x300, 0x4000_0040, Fill::Ascii));
    let mut imports: Vec<ImportSpec> = Vec::new();
    imports.push(import("urlmon.dll", vec!["URLDownloadToFileW"]));
    imports.push(import("wininet.dll", vec!["InternetOpenW", "InternetConnectW", "HttpSendRequestW"]));
    imports.push(import("KERNEL32.dll", vec!["CreateFileW", "WriteFile", "CloseHandle", "GetTempPathW"]));
    proof {
        reveal_strlit("CloseHandle");
        reveal_strlit("CreateFileW");
        reveal_strlit("GetTempPathW");
        reveal_strlit("HttpSendRequestW");
        reveal_strlit("InternetConnectW");
        reveal_strlit("InternetOpenW");
        reveal_strlit("KERNEL32.dll");
        reveal_strlit("URLDownloadToFileW");
        reveal_strlit("WriteFile");
        reveal_strlit("urlmon.dll");
        reveal_strlit("wininet.dll");
        lemma_short_name("CloseHandle"@);
        lemma_short_name("CreateFileW"@);
        lemma_short_name("GetTempPathW"@);
        lemma_short_name("HttpSendRequestW"@);
        lemma_short_name("InternetConnectW"@);
        lemma_short_name("InternetOpenW"@);
        lemma_short_name("KERNEL32.dll"@);
        lemma_short_name("URLDownloadToFileW"@);
        lemma_short_name("WriteFile"@);
        lemma_short_name("urlmon.dll"@);
        lemma_short_name("wininet.dll"@);
        assert(names(imports@[0].functions@) =~= downloader_like_plan().imports[0].functions);
        assert(names(imports@[1].functions@) =~= downloader_like_plan().imports[1].functions);
        assert(names(imports@[2].functions@) =~= downloader_like_plan().imports[2].functions);
        lemma_few_imports(downloader_like_plan().imports);
        assert(import_plans(imports@) =~= downloader_like_plan().imports);
        assert(section_plans(sections@) =~= downloader_like_plan().sections);
        lemma_spans(downloader_like_plan().sections);
    }
    PeTemplate {
        label: Score { units: ONE_UNITS },
        family: "downloader_like",
        sections,
        imports,
        tls_present: false,
        entry_in_last_section: false,
        timestamp_mode: TimestampMode::Ancient,
        subsystem: 3,
        overlay_bytes: 2048,
    }
}

fn ransomware_like() -> (template: PeTemplate)
    ensures
        template@ == ransomware_like_plan(),
        template@.fits(),
{
    let mut sections: Vec<SectionSpec> = Vec::new();
    sections.push(section(".text", 0x900, 0x6000_0020, Fill::Mixed(45)));
    sections.push(section(".rdata", 0x1000, 0x4000_0040, Fill::Mixed(30)));
    sections.push(section(".data", 0x700, 0xC000_0040, Fill::Mixed(30)));
    sections.push(section(".rsrc", 0x400, 0x4000_0040, Fill::Ascii));
    let mut imports: Vec<ImportSpec> = Vec::new();
    imports.push(import("advapi32.dll", vec!["CryptEncrypt", "CryptAcquireContextW", "RegSetValueExW"]));
    imports.push(import("KERNEL32.dll", vec!["FindFirstFileW", "FindNextFileW", "MoveFileW", "DeleteFileW", "GetSystemMetricsW"]));
    imports.push(import("user32.dll", vec!["MessageBoxW", "GetWindowTextW"]));
    proof {
        reveal_strlit("CryptAcquireContextW");
        reveal_strlit("CryptEncrypt");
        reveal_strlit("DeleteFileW");
        reveal_strlit("FindFirstFileW");
        reveal_strlit("FindNextFileW");
        reveal_strlit("GetSystemMetricsW");
        reveal_strlit("GetWindowTextW");
        reveal_strlit("KERNEL32.dll");
        reveal_strlit("MessageBoxW");
        reveal_strlit("MoveFileW");
        reveal_strlit("RegSetValueExW");
        reveal_strlit("advapi32.dll");
        reveal_strlit("user32.dll");
        lemma_short_name("CryptAcquireContextW"@);
        lemma_short_name("CryptEncrypt"@);
        lemma_short_name("DeleteFileW"@);
        lemma_short_name("FindFirstFileW"@);
        lemma_short_name("FindNextFileW"@);
        lemma_short_name("GetSystemMetricsW"@);
        lemma_short_name("GetWindowTextW"@);
        lemma_short_name("KERNEL32.dll"@);
        lemma_short_name("MessageBoxW"@);
        lemma_short_name("MoveFileW"@);
        lemma_short_name("RegSetValueExW"@);
        lemma_short_name("advapi32.dll"@);
        lemma_short_name("user32.dll"@);
        assert(names(imports@[0].functions@) =~= ransomware_like_plan().imports[0].functions);
        assert(names(imports@[1].functions@) =~= ransomware_like_plan().imports[1].functions);
        assert(names(imports@[2].functions@) =~= ransomware_like_plan().imports[2].functions);
        lemma_few_imports(ransomware_like_plan().imports);
        assert(import_plans(imports@) =~= ransomware_like_plan().imports);
        assert(section_plans(sections@) =~= ransomware_like_plan().sections);
        lemma_spans(ransomware_like_plan().sections);
    }
    PeTemplate {
        label: Score { units: ONE_UNITS },
        family: "ransomware_like",
        sections,
        imports,
        tls_present: true,
        entry_in_last_section: true,
        timestamp_mode: TimestampMode::Zero,
        subsystem: 3,
        overlay_bytes: 4096,
    }
}

/// The template of a family, if there is one of that name.
pub fn family_template(family: &str) -> (template: Option<PeTemplate>)
    ensures
        match template {
            Some(t) => family_plan(family@) == Some(t@) && t@.fits(),
            None => family_plan(family@) is None,
        },
{
    if same_text(family, "benign_like") {
        Some(benign_like())
    } else if same_text(family, "packed_like") {
        Some(packed_like())
    } else if same_text(family, "api_heavy_like") {
        Some(api_heavy_like())
    } else if same_text(family, "stealth_like") {
        Some(stealth_like())
    } else if same_text(family, "credential_stealer_like") {
        Some(credential_stealer_like())
    } else if same_text(family, "downloader_like") {
        Some(downloader_like())
    } else if same_text(family, "ransomware_like") {
        Some(ransomware_like())
    } else {
        None
    }
}

} // verus!
