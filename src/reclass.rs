//! Fixed-size records handed to the host, and their byte layout.
//!
//! Every record mirrors a packed C structure of the host ABI. The structures
//! themselves live on the host side of the boundary; here each record is a
//! plain value whose `to_bytes` yields exactly the bytes of the packed
//! structure (little endian, no padding).
use vstd::prelude::*;

verus! {

/// Capacity, in UTF-16 code units, of every path and name buffer of the ABI.
pub const MAX_PATH: usize = 260;

/// Capacity, in UTF-16 code units, of the section name buffer.
pub const SECTION_NAME_LEN: usize = 16;

/// Byte size of a packed process record.
pub const PROCESS_RECORD_SIZE: usize = 0x418;

/// Byte size of a packed section record.
pub const SECTION_RECORD_SIZE: usize = 0x244;

/// Byte size of a packed module record.
pub const MODULE_RECORD_SIZE: usize = 0x218;

/// Section type reported for every section: unknown.
pub const SECTION_TYPE_UNKNOWN: i32 = 0;

/// Section category reported for every section: unknown.
pub const SECTION_CATEGORY_UNKNOWN: i32 = 0;

/// Protection flag: readable.
pub const SECTION_PROTECTION_READ: i32 = 1;

/// Protection flag: writable.
pub const SECTION_PROTECTION_WRITE: i32 = 2;

/// A process identifier as the host passes it (pointer-sized).
pub type ProcessId = usize;

/// A handle to an open process as the host passes it (pointer-sized).
pub type ProcessHandle = usize;

// ---------------------------------------------------------------------------
// UTF-16 text
// ---------------------------------------------------------------------------

/// The UTF-16 code units of one character.
pub open spec fn utf16_of_char(c: char) -> Seq<u16> {
    let v = c as u32 as int;
    if v < 0x10000 {
        seq![v as u16]
    } else {
        let w = v - 0x10000;
        seq![(0xD800 + w / 0x400) as u16, (0xDC00 + w % 0x400) as u16]
    }
}

/// The UTF-16 encoding of a text.
pub open spec fn utf16_of(s: Seq<char>) -> Seq<u16>
    decreases s.len(),
{
    if s.len() == 0 {
        Seq::empty()
    } else {
        utf16_of(s.drop_last()) + utf16_of_char(s.last())
    }
}

/// A zero-initialised buffer of `n` units holding the first `n` units of
/// `units` (all of them if there are fewer): hard truncation, no terminator.
pub open spec fn packed(units: Seq<u16>, n: nat) -> Seq<u16> {
    Seq::new(n, |i: int| if i < units.len() { units[i] } else { 0u16 })
}

/// The fixed path buffer that the ABI holds for a text.
pub open spec fn path_buffer(s: Seq<char>) -> Seq<u16> {
    packed(utf16_of(s), MAX_PATH as nat)
}

/// Relies on `str::encode_utf16`: the UTF-16 code units of the text, in order.
#[verifier::external_body]
fn encode_utf16(s: &str) -> (r: Vec<u16>)
    ensures
        r@ == utf16_of(s@),
{
    s.encode_utf16().collect()
}

/// Copies UTF-16 units into a zeroed path buffer, keeping at most
/// `MAX_PATH` of them.
pub fn pack_path(units: &Vec<u16>) -> (r: [u16; MAX_PATH])
    ensures
        r@ == packed(units@, MAX_PATH as nat),
{
    let mut buf = [0u16; MAX_PATH];
    let n: usize = if units.len() < MAX_PATH {
        units.len()
    } else {
        MAX_PATH
    };
    let mut i: usize = 0;
    while i < n
        invariant
            n <= MAX_PATH,
            n <= units@.len(),
            n == units@.len() || n == MAX_PATH,
            i <= n,
            buf@.len() == MAX_PATH,
            forall|j: int| 0 <= j < i ==> buf@[j] == units@[j],
            forall|j: int| i <= j < MAX_PATH ==> buf@[j] == 0u16,
        decreases n - i,
    {
        buf[i] = units[i];
        i = i + 1;
    }
    assert(buf@ =~= packed(units@, MAX_PATH as nat));
    buf
}

/// Encodes a text as UTF-16 into a zeroed path buffer, truncated at
/// `MAX_PATH` units.
pub fn path_from_str(s: &str) -> (r: [u16; MAX_PATH])
    ensures
        r@ == path_buffer(s@),
{
    let units = encode_utf16(s);
    pack_path(&units)
}

// ---------------------------------------------------------------------------
// Byte layout
// ---------------------------------------------------------------------------

/// The `n` low bytes of `v`, least significant first.
pub open spec fn le_bytes(v: nat, n: nat) -> Seq<u8>
    decreases n,
{
    if n == 0 {
        Seq::empty()
    } else {
        seq![(v % 256) as u8] + le_bytes(v / 256, (n - 1) as nat)
    }
}

/// A sequence of UTF-16 units laid out as bytes, two per unit, little endian.
pub open spec fn units_bytes(units: Seq<u16>) -> Seq<u8>
    decreases units.len(),
{
    if units.len() == 0 {
        Seq::empty()
    } else {
        units_bytes(units.drop_last()) + le_bytes(units.last() as nat, 2)
    }
}

/// Appends the `n` low bytes of `v`, least significant first.
fn push_le(out: &mut Vec<u8>, v: u64, n: usize)
    requires
        n <= 8,
    ensures
        final(out)@ == old(out)@ + le_bytes(v as nat, n as nat),
{
    let ghost start = old(out)@;
    let mut cur: u64 = v;
    let mut i: usize = 0;
    while i < n
        invariant
            i <= n,
            start + le_bytes(v as nat, n as nat) == out@ + le_bytes(cur as nat, (n - i) as nat),
        decreases n - i,
    {
        let ghost before = out@;
        out.push((cur % 256) as u8);
        proof {
            assert(le_bytes(cur as nat, (n - i) as nat) == seq![(cur as nat % 256) as u8]
                + le_bytes(cur as nat / 256, (n - i - 1) as nat));
            assert(out@ == before + seq![(cur as nat % 256) as u8]);
            assert(out@ + le_bytes((cur / 256) as nat, (n - (i + 1)) as nat) =~= before
                + le_bytes(cur as nat, (n - i) as nat));
        }
        cur = cur / 256;
        i = i + 1;
    }
    assert(out@ + le_bytes(cur as nat, 0) =~= out@);
}

/// Appends the bytes of a unit buffer.
fn push_units(out: &mut Vec<u8>, units: &[u16])
    ensures
        final(out)@ == old(out)@ + units_bytes(units@),
{
    let ghost start = old(out)@;
    let mut i: usize = 0;
    while i < units.len()
        invariant
            i <= units@.len(),
            out@ == start + units_bytes(units@.subrange(0, i as int)),
        decreases units@.len() - i,
    {
        let ghost before = out@;
        push_le(out, units[i] as u64, 2);
        proof {
            let pre = units@.subrange(0, i as int);
            let post = units@.subrange(0, i + 1);
            assert(post.drop_last() =~= pre);
            assert(post.last() == units@[i as int]);
            assert(out@ =~= start + units_bytes(post));
        }
        i = i + 1;
    }
    assert(units@.subrange(0, units@.len() as int) =~= units@);
}

// ---------------------------------------------------------------------------
// Process record
// ---------------------------------------------------------------------------

/// One process as the host's process list shows it.
pub struct EnumerateProcessData {
    pub pid: ProcessId,
    pub name: [u16; MAX_PATH],
    pub path: [u16; MAX_PATH],
}

/// The packed bytes of a process record: id, name buffer, path buffer.
pub open spec fn process_record_bytes(pid: nat, name: Seq<u16>, path: Seq<u16>) -> Seq<u8> {
    le_bytes(pid, 8) + units_bytes(name) + units_bytes(path)
}

impl EnumerateProcessData {
    /// A process record whose name and path buffers hold the UTF-16 encoding
    /// of `name` and `path`, zero-padded and cut at `MAX_PATH` units.
    pub fn new(pid: ProcessId, name: &str, path: &str) -> (r: Self)
        ensures
            r.pid == pid,
            r.name@ == path_buffer(name@),
            r.path@ == path_buffer(path@),
    {
        let name = path_from_str(name);
        let path = path_from_str(path);
        EnumerateProcessData { pid, name, path }
    }

    /// The record as the host's packed structure lays it out.
    pub fn to_bytes(&self) -> (r: Vec<u8>)
        ensures
            r@ == process_record_bytes(self.pid as nat, self.name@, self.path@),
            r@.len() == PROCESS_RECORD_SIZE,
    {
        proof {
            lemma_le_bytes_len(self.pid as nat, 8);
            lemma_units_bytes_len(self.name@);
            lemma_units_bytes_len(self.path@);
        }
        let mut out: Vec<u8> = Vec::new();
        push_le(&mut out, self.pid as u64, 8);
        push_units(&mut out, self.name.as_slice());
        push_units(&mut out, self.path.as_slice());
        out
    }
}

// ---------------------------------------------------------------------------
// Section record
// ---------------------------------------------------------------------------

/// One section of an address space as the host shows it. Type and category
/// are always unknown and the protection is always read and write; name and
/// module path are empty.
pub struct EnumerateRemoteSectionData {
    pub base_address: u64,
    pub size: u64,
    pub ty: i32,
    pub category: i32,
    pub protection: i32,
    pub name: [u16; SECTION_NAME_LEN],
    pub owner_path: [u16; MAX_PATH],
}

/// The packed bytes of a section record: base, size, type, category,
/// protection, name buffer, module path buffer.
pub open spec fn section_record_bytes(r: EnumerateRemoteSectionData) -> Seq<u8> {
    le_bytes(r.base_address as nat, 8) + le_bytes(r.size as nat, 8) + le_bytes(
        r.ty as u32 as nat,
        4,
    ) + le_bytes(r.category as u32 as nat, 4) + le_bytes(r.protection as u32 as nat, 4)
        + units_bytes(r.name@) + units_bytes(r.owner_path@)
}

impl EnumerateRemoteSectionData {
    /// The record of the section of `size` bytes at `base_address`.
    pub fn new(base_address: u64, size: u64) -> (r: Self)
        ensures
            r.base_address == base_address,
            r.size == size,
            r.ty == SECTION_TYPE_UNKNOWN,
            r.category == SECTION_CATEGORY_UNKNOWN,
            r.protection == SECTION_PROTECTION_READ | SECTION_PROTECTION_WRITE,
            r.name@ == Seq::new(SECTION_NAME_LEN as nat, |i: int| 0u16),
            r.owner_path@ == Seq::new(MAX_PATH as nat, |i: int| 0u16),
    {
        let r = EnumerateRemoteSectionData {
            base_address,
            size,
            ty: SECTION_TYPE_UNKNOWN,
            category: SECTION_CATEGORY_UNKNOWN,
            protection: SECTION_PROTECTION_READ | SECTION_PROTECTION_WRITE,
            name: [0u16; SECTION_NAME_LEN],
            owner_path: [0u16; MAX_PATH],
        };
        assert(r.name@ =~= Seq::new(SECTION_NAME_LEN as nat, |i: int| 0u16));
        assert(r.owner_path@ =~= Seq::new(MAX_PATH as nat, |i: int| 0u16));
        r
    }

    /// The record as the host's packed structure lays it out.
    pub fn to_bytes(&self) -> (r: Vec<u8>)
        ensures
            r@ == section_record_bytes(*self),
            r@.len() == SECTION_RECORD_SIZE,
    {
        proof {
            lemma_section_record_len(*self);
        }
        let mut out: Vec<u8> = Vec::new();
        push_le(&mut out, self.base_address, 8);
        push_le(&mut out, self.size, 8);
        push_le(&mut out, self.ty as u32 as u64, 4);
        push_le(&mut out, self.category as u32 as u64, 4);
        push_le(&mut out, self.protection as u32 as u64, 4);
        push_units(&mut out, self.name.as_slice());
        push_units(&mut out, self.owner_path.as_slice());
        out
    }
}

// ---------------------------------------------------------------------------
// Module record
// ---------------------------------------------------------------------------

/// One module of an address space as the host shows it.
pub struct EnumerateRemoteModuleData {
    pub base_address: u64,
    pub size: u64,
    pub path: [u16; MAX_PATH],
}

/// The packed bytes of a module record: base, size, path buffer.
pub open spec fn module_record_bytes(r: EnumerateRemoteModuleData) -> Seq<u8> {
    le_bytes(r.base_address as nat, 8) + le_bytes(r.size as nat, 8) + units_bytes(r.path@)
}

impl EnumerateRemoteModuleData {
    /// The record of the module of `size` bytes at `base_address` loaded
    /// from `path`, the path encoded as UTF-16 and cut at `MAX_PATH` units.
    pub fn new(base_address: u64, size: u64, path: &str) -> (r: Self)
        ensures
            r.base_address == base_address,
            r.size == size,
            r.path@ == path_buffer(path@),
    {
        let path = path_from_str(path);
        EnumerateRemoteModuleData { base_address, size, path }
    }

    /// The record as the host's packed structure lays it out.
    pub fn to_bytes(&self) -> (r: Vec<u8>)
        ensures
            r@ == module_record_bytes(*self),
            r@.len() == MODULE_RECORD_SIZE,
    {
        proof {
            lemma_le_bytes_len(self.base_address as nat, 8);
            lemma_le_bytes_len(self.size as nat, 8);
            lemma_units_bytes_len(self.path@);
        }
        let mut out: Vec<u8> = Vec::new();
        push_le(&mut out, self.base_address, 8);
        push_le(&mut out, self.size, 8);
        push_units(&mut out, self.path.as_slice());
        out
    }
}

proof fn lemma_section_record_len(s: EnumerateRemoteSectionData)
    ensures
        section_record_bytes(s).len() == SECTION_RECORD_SIZE,
{
    lemma_le_bytes_len(s.base_address as nat, 8);
    lemma_le_bytes_len(s.size as nat, 8);
    lemma_le_bytes_len(s.ty as u32 as nat, 4);
    lemma_le_bytes_len(s.category as u32 as nat, 4);
    lemma_le_bytes_len(s.protection as u32 as nat, 4);
    lemma_units_bytes_len(s.name@);
    lemma_units_bytes_len(s.owner_path@);
}

proof fn lemma_le_bytes_len(v: nat, n: nat)
    ensures
        le_bytes(v, n).len() == n,
    decreases n,
{
    if n > 0 {
        lemma_le_bytes_len(v / 256, (n - 1) as nat);
    }
}

proof fn lemma_units_bytes_len(units: Seq<u16>)
    ensures
        units_bytes(units).len() == 2 * units.len(),
    decreases units.len(),
{
    if units.len() > 0 {
        lemma_units_bytes_len(units.drop_last());
        lemma_le_bytes_len(units.last() as nat, 2);
    }
}

} // verus!
