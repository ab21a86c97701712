//! What the enumeration and memory entry points of the host ABI hand over.
//!
//! Each function takes what the backend answered, as plain values, and
//! returns the records to pass to the host's callback, in callback order.
use crate::reclass::{
    path_buffer, EnumerateProcessData, EnumerateRemoteModuleData, EnumerateRemoteSectionData,
    ProcessId, SECTION_CATEGORY_UNKNOWN, SECTION_NAME_LEN, SECTION_PROTECTION_READ,
    SECTION_PROTECTION_WRITE, SECTION_TYPE_UNKNOWN, MAX_PATH,
};
use crate::memflow_wrapper::NTOSKRNL_PID;
use crate::sections::{coalesce, coalesced, Region};
use vstd::prelude::*;

verus! {

/// A process that the backend listed, with the name and path of its main
/// module.
pub struct ProcessEntry {
    pub pid: ProcessId,
    pub name: String,
    pub path: String,
}

/// A module that the backend listed.
pub struct ModuleEntry {
    pub base: u64,
    pub size: u64,
    pub path: String,
}

/// Name under which the kernel is listed as a process.
pub open spec fn kernel_name() -> Seq<char> {
    "ntoskrnl.exe"@
}

/// Path under which the kernel is listed as a process.
pub open spec fn kernel_path() -> Seq<char> {
    "\\SystemRoot\\system32\\ntoskrnl.exe"@
}

/// Whether a process record describes process `pid` with main module `name`
/// at `path`.
pub open spec fn describes_process(
    r: EnumerateProcessData,
    pid: ProcessId,
    name: Seq<char>,
    path: Seq<char>,
) -> bool {
    &&& r.pid == pid
    &&& r.name@ == path_buffer(name)
    &&& r.path@ == path_buffer(path)
}

/// Whether a section record describes `region`: its base and size, unknown
/// type and category, read-write protection, empty name and owner path.
pub open spec fn describes_section(r: EnumerateRemoteSectionData, region: Region) -> bool {
    &&& r.base_address == region.0
    &&& r.size == region.1
    &&& r.ty == SECTION_TYPE_UNKNOWN
    &&& r.category == SECTION_CATEGORY_UNKNOWN
    &&& r.protection == SECTION_PROTECTION_READ | SECTION_PROTECTION_WRITE
    &&& r.name@ == Seq::new(SECTION_NAME_LEN as nat, |i: int| 0u16)
    &&& r.owner_path@ == Seq::new(MAX_PATH as nat, |i: int| 0u16)
}

/// Whether a module record describes module `m`.
pub open spec fn describes_module(r: EnumerateRemoteModuleData, m: ModuleEntry) -> bool {
    &&& r.base_address == m.base
    &&& r.size == m.size
    &&& r.path@ == path_buffer(m.path@)
}

/// The processes that could be described, in order; a process whose main
/// module the backend could not give is left out.
pub open spec fn listed(ps: Seq<Option<ProcessEntry>>) -> Seq<ProcessEntry>
    decreases ps.len(),
{
    if ps.len() == 0 {
        Seq::empty()
    } else {
        match ps.last() {
            Some(p) => listed(ps.drop_last()).push(p),
            None => listed(ps.drop_last()),
        }
    }
}

/// The regions reported as sections: the coalesced page map when sections
/// are parsed and the backend can give a page map, none otherwise.
pub open spec fn sections_reported(parse_sections: bool, page_map: Option<Seq<Region>>) -> Seq<
    Region,
> {
    match page_map {
        Some(pm) => if parse_sections {
            coalesced(pm)
        } else {
            Seq::empty()
        },
        None => Seq::empty(),
    }
}

/// The entries of a page map that the backend may have given.
pub open spec fn page_map_view(page_map: Option<Vec<Region>>) -> Option<Seq<Region>> {
    match page_map {
        Some(v) => Some(v@),
        None => None,
    }
}

/// The process records for the host's process list: the kernel first, then
/// each process that could be described, in order.
pub fn process_records(processes: &Vec<Option<ProcessEntry>>) -> (r: Vec<EnumerateProcessData>)
    ensures
        r@.len() == listed(processes@).len() + 1,
        describes_process(r@[0], NTOSKRNL_PID, kernel_name(), kernel_path()),
        forall|k: int|
            0 <= k < listed(processes@).len() ==> describes_process(
                #[trigger] r@[k + 1],
                listed(processes@)[k].pid,
                listed(processes@)[k].name@,
                listed(processes@)[k].path@,
            ),
{
    let mut out: Vec<EnumerateProcessData> = Vec::new();
    out.push(
        EnumerateProcessData::new(NTOSKRNL_PID, "ntoskrnl.exe", "\\SystemRoot\\system32\\ntoskrnl.exe"),
    );
    let mut i: usize = 0;
    while i < processes.len()
        invariant
            i <= processes@.len(),
            out@.len() == listed(processes@.subrange(0, i as int)).len() + 1,
            describes_process(out@[0], NTOSKRNL_PID, kernel_name(), kernel_path()),
            forall|k: int|
                0 <= k < listed(processes@.subrange(0, i as int)).len() ==> describes_process(
                    #[trigger] out@[k + 1],
                    listed(processes@.subrange(0, i as int))[k].pid,
                    listed(processes@.subrange(0, i as int))[k].name@,
                    listed(processes@.subrange(0, i as int))[k].path@,
                ),
        decreases processes@.len() - i,
    {
        let ghost pre = processes@.subrange(0, i as int);
        let ghost post = processes@.subrange(0, i + 1);
        proof {
            assert(post.drop_last() =~= pre);
            assert(post.last() == processes@[i as int]);
        }
        match &processes[i] {
            Some(p) => {
                let rec = EnumerateProcessData::new(p.pid, p.name.as_str(), p.path.as_str());
                out.push(rec);
                proof {
                    assert(listed(post) == listed(pre).push(*p));
                    assert forall|k: int| 0 <= k < listed(post).len() implies describes_process(
                        #[trigger] out@[k + 1],
                        listed(post)[k].pid,
                        listed(post)[k].name@,
                        listed(post)[k].path@,
                    ) by {
                        if k < listed(pre).len() {
                            assert(listed(post)[k] == listed(pre)[k]);
                        }
                    }
                }
            },
            None => {
                proof {
                    assert(listed(post) == listed(pre));
                }
            },
        }
        i = i + 1;
    }
    assert(processes@.subrange(0, processes@.len() as int) =~= processes@);
    out
}

/// The section records of a subject: one per section of the coalesced page
/// map when sections are parsed and the backend gave a page map (it gives
/// none without translation support); none otherwise.
pub fn section_records(parse_sections: bool, page_map: Option<Vec<Region>>) -> (r: Vec<
    EnumerateRemoteSectionData,
>)
    ensures
        r@.len() == sections_reported(parse_sections, page_map_view(page_map)).len(),
        forall|k: int|
            0 <= k < r@.len() ==> describes_section(
                #[trigger] r@[k],
                sections_reported(parse_sections, page_map_view(page_map))[k],
            ),
{
    let mut out: Vec<EnumerateRemoteSectionData> = Vec::new();
    if !parse_sections {
        return out;
    }
    match page_map {
        None => out,
        Some(pm) => {
            let regions = coalesce(&pm);
            let mut i: usize = 0;
            while i < regions.len()
                invariant
                    i <= regions@.len(),
                    regions@ == coalesced(pm@),
                    out@.len() == i,
                    forall|k: int|
                        0 <= k < i ==> describes_section(#[trigger] out@[k], regions@[k]),
                decreases regions@.len() - i,
            {
                let (base, size) = regions[i];
                out.push(EnumerateRemoteSectionData::new(base, size));
                i = i + 1;
            }
            out
        },
    }
}

/// The module records of a subject, one per module in the order given.
pub fn module_records(modules: &Vec<ModuleEntry>) -> (r: Vec<EnumerateRemoteModuleData>)
    ensures
        r@.len() == modules@.len(),
        forall|k: int| 0 <= k < r@.len() ==> describes_module(#[trigger] r@[k], modules@[k]),
{
    let mut out: Vec<EnumerateRemoteModuleData> = Vec::new();
    let mut i: usize = 0;
    while i < modules.len()
        invariant
            i <= modules@.len(),
            out@.len() == i,
            forall|k: int| 0 <= k < i ==> describes_module(#[trigger] out@[k], modules@[k]),
        decreases modules@.len() - i,
    {
        let m = &modules[i];
        out.push(EnumerateRemoteModuleData::new(m.base, m.size, m.path.as_str()));
        i = i + 1;
    }
    out
}

/// The address that a read or write at `address` plus `offset` touches,
/// wrapping around at 64 bits; no address is rejected.
pub fn effective_address(address: u64, offset: i32) -> (r: u64)
    ensures
        r as int == (address as int + offset as int) % 0x1_0000_0000_0000_0000,
{
    address.wrapping_add_signed(offset as i64)
}

/// Without translation support the backend gives no page map: no section
/// is reported, whatever the settings, while module records do not depend on
/// it.
pub proof fn lemma_degraded_capability(parse_sections: bool)
    ensures
        sections_reported(parse_sections, None).len() == 0,
{
}

} // verus!
