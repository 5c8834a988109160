use vstd::prelude::*;

verus! {

/// The classification of a memory region, decided by its type code.
#[derive(Debug, Clone, Copy, PartialEq, Eq, Structural)]
pub enum MemoryAreaType {
    Available,
    /// Usable memory holding ACPI information.
    AcpiReclaimable,
    FaultyRam,
    ReservedPreserveOnHibernation,
    Reserved,
}

/// The classification of a type code: codes without a meaning of their own
/// are reserved.
pub open spec fn type_of_code(code: u32) -> MemoryAreaType {
    if code == 1 {
        MemoryAreaType::Available
    } else if code == 3 {
        MemoryAreaType::AcpiReclaimable
    } else if code == 4 {
        MemoryAreaType::ReservedPreserveOnHibernation
    } else if code == 5 {
        MemoryAreaType::FaultyRam
    } else {
        MemoryAreaType::Reserved
    }
}

/// One decoded memory-map record: a region of physical memory and its type code.
#[derive(Debug, Clone, Copy, PartialEq, Eq, Structural)]
pub struct MemoryArea {
    pub base_addr: u64,
    pub length: u64,
    pub typ: u32,
    pub reserved: u32,
}

impl MemoryArea {
    /// The region ends within the address space of the machine.
    pub open spec fn fits(self) -> bool {
        self.base_addr + self.length <= usize::MAX
    }

    pub fn start_address(&self) -> (r: usize)
        ensures
            r == self.base_addr as usize,
    {
        self.base_addr as usize
    }

    pub fn end_address(&self) -> (r: usize)
        requires
            self.fits(),
        ensures
            r == self.base_addr + self.length,
    {
        (self.base_addr + self.length) as usize
    }

    pub fn size(&self) -> (r: usize)
        ensures
            r == self.length as usize,
    {
        self.length as usize
    }

    pub fn memory_type(&self) -> (r: MemoryAreaType)
        ensures
            r == type_of_code(self.typ),
    {
        match self.typ {
            1 => MemoryAreaType::Available,
            3 => MemoryAreaType::AcpiReclaimable,
            4 => MemoryAreaType::ReservedPreserveOnHibernation,
            5 => MemoryAreaType::FaultyRam,
            _ => MemoryAreaType::Reserved,
        }
    }
}


/// Length of the tag header: type, size, entry size and entry version, four
/// bytes each. The first record starts right after it.
pub const HEADER_LEN: u32 = 16;

/// Bytes at the start of each record that hold its fields; the rest of a
/// stride is padding.
pub const AREA_LEN: u32 = 24;

/// The little-endian 32-bit value stored at offset `o`.
pub open spec fn le_u32(b: Seq<u8>, o: int) -> int {
    b[o] as int + b[o + 1] as int * 0x100 + b[o + 2] as int * 0x1_0000 + b[o + 3] as int
        * 0x100_0000
}

/// The little-endian 64-bit value stored at offset `o`.
pub open spec fn le_u64(b: Seq<u8>, o: int) -> int {
    le_u32(b, o) + le_u32(b, o + 4) * 0x1_0000_0000
}

/// The record whose fields start at offset `o`.
pub open spec fn area_at(b: Seq<u8>, o: int) -> MemoryArea {
    MemoryArea {
        base_addr: le_u64(b, o) as u64,
        length: le_u64(b, o + 8) as u64,
        typ: le_u32(b, o + 16) as u32,
        reserved: le_u32(b, o + 20) as u32,
    }
}

/// The records at offsets `cur`, `cur + stride`, ... that do not pass `last`.
pub open spec fn areas_between(b: Seq<u8>, cur: int, last: int, stride: int) -> Seq<MemoryArea>
    decreases last + stride - cur,
{
    if stride > 0 && cur <= last {
        seq![area_at(b, cur)] + areas_between(b, cur + stride, last, stride)
    } else {
        seq![]
    }
}

pub open spec fn tag_typ(b: Seq<u8>) -> int {
    le_u32(b, 0)
}

/// Total length of the tag in bytes, header included.
pub open spec fn tag_size(b: Seq<u8>) -> int {
    le_u32(b, 4)
}

/// Distance in bytes between the starts of consecutive records.
pub open spec fn tag_entry_size(b: Seq<u8>) -> int {
    le_u32(b, 8)
}

pub open spec fn tag_entry_version(b: Seq<u8>) -> int {
    le_u32(b, 12)
}

/// A block that can be read as a memory-map tag: the header is present, the
/// declared size lies within the block, and each stride holds a whole record.
pub open spec fn tag_valid(b: Seq<u8>) -> bool {
    &&& b.len() >= HEADER_LEN
    &&& tag_size(b) <= b.len()
    &&& tag_entry_size(b) >= AREA_LEN
}

/// The records of a tag, in the order in which they are stored: one per
/// stride from the end of the header to the last stride that ends within the
/// declared size. A size below one stride holds no record.
pub open spec fn tag_areas(b: Seq<u8>) -> Seq<MemoryArea> {
    if tag_size(b) >= tag_entry_size(b) {
        areas_between(b, HEADER_LEN as int, tag_size(b) - tag_entry_size(b), tag_entry_size(b))
    } else {
        seq![]
    }
}

fn read_u32(bytes: &[u8], o: usize) -> (r: u32)
    requires
        o + 4 <= bytes.len(),
    ensures
        r == le_u32(bytes@, o as int),
{
    bytes[o] as u32 + bytes[o + 1] as u32 * 0x100 + bytes[o + 2] as u32 * 0x1_0000
        + bytes[o + 3] as u32 * 0x100_0000
}

fn read_u64(bytes: &[u8], o: usize) -> (r: u64)
    requires
        o + 8 <= bytes.len(),
    ensures
        r == le_u64(bytes@, o as int),
{
    let lo = read_u32(bytes, o);
    let hi = read_u32(bytes, o + 4);
    lo as u64 + hi as u64 * 0x1_0000_0000
}

fn read_area(bytes: &[u8], o: usize) -> (r: MemoryArea)
    requires
        o + AREA_LEN <= bytes.len(),
    ensures
        r == area_at(bytes@, o as int),
{
    MemoryArea {
        base_addr: read_u64(bytes, o),
        length: read_u64(bytes, o + 8),
        typ: read_u32(bytes, o + 16),
        reserved: read_u32(bytes, o + 20),
    }
}

/// A memory-map tag read in place from the block that holds it.
pub struct MemoryMapTag<'a> {
    typ: u32,
    size: u32,
    entry_size: u32,
    entry_version: u32,
    bytes: &'a [u8],
}

impl<'a> View for MemoryMapTag<'a> {
    type V = Seq<u8>;

    closed spec fn view(&self) -> Seq<u8> {
        self.bytes@
    }
}

impl<'a> MemoryMapTag<'a> {
    #[verifier::type_invariant]
    spec fn inv(self) -> bool {
        &&& tag_valid(self.bytes@)
        &&& self.typ == tag_typ(self.bytes@)
        &&& self.size == tag_size(self.bytes@)
        &&& self.entry_size == tag_entry_size(self.bytes@)
        &&& self.entry_version == tag_entry_version(self.bytes@)
    }

    /// Reads the header at the start of `bytes`. Fails where the block is
    /// not a readable tag: the header is cut short, the declared size runs
    /// past the block, or the stride cannot hold a record.
    pub fn new(bytes: &'a [u8]) -> (r: Option<MemoryMapTag<'a>>)
        ensures
            r is Some <==> tag_valid(bytes@),
            r is Some ==> r->0@ == bytes@,
    {
        if bytes.len() < HEADER_LEN as usize {
            return None;
        }
        let typ = read_u32(bytes, 0);
        let size = read_u32(bytes, 4);
        let entry_size = read_u32(bytes, 8);
        let entry_version = read_u32(bytes, 12);
        if size as usize > bytes.len() || entry_size < AREA_LEN {
            return None;
        }
        Some(MemoryMapTag { typ, size, entry_size, entry_version, bytes })
    }

    pub fn typ(&self) -> (r: u32)
        ensures
            r == tag_typ(self@),
    {
        proof {
            use_type_invariant(self);
        }
        self.typ
    }

    pub fn size(&self) -> (r: u32)
        ensures
            r == tag_size(self@),
    {
        proof {
            use_type_invariant(self);
        }
        self.size
    }

    pub fn entry_size(&self) -> (r: u32)
        ensures
            r == tag_entry_size(self@),
    {
        proof {
            use_type_invariant(self);
        }
        self.entry_size
    }

    pub fn entry_version(&self) -> (r: u32)
        ensures
            r == tag_entry_version(self@),
    {
        proof {
            use_type_invariant(self);
        }
        self.entry_version
    }

    /// A fresh iterator over the tag's records. Each call starts anew at the
    /// first record.
    pub fn memory_areas(&self) -> (r: MemoryAreaIter<'a>)
        ensures
            r@ == tag_areas(self@),
    {
        proof {
            use_type_invariant(self);
        }
        let entry_size = self.entry_size as usize;
        let last_area = if self.size as usize >= entry_size {
            self.size as usize - entry_size
        } else {
            0
        };
        MemoryAreaIter {
            bytes: self.bytes,
            current_area: HEADER_LEN as usize,
            last_area,
            entry_size,
        }
    }
}

/// Walks the records of a tag, one stride at a time, from the first record
/// to the last one that ends within the tag.
pub struct MemoryAreaIter<'a> {
    bytes: &'a [u8],
    current_area: usize,
    last_area: usize,
    entry_size: usize,
}

impl<'a> View for MemoryAreaIter<'a> {
    type V = Seq<MemoryArea>;

    /// The records not yet handed out, in order.
    closed spec fn view(&self) -> Seq<MemoryArea> {
        areas_between(
            self.bytes@,
            self.current_area as int,
            self.last_area as int,
            self.entry_size as int,
        )
    }
}

impl<'a> MemoryAreaIter<'a> {
    #[verifier::type_invariant]
    spec fn inv(self) -> bool {
        &&& self.entry_size >= AREA_LEN
        &&& self.current_area <= self.last_area ==> self.last_area + self.entry_size
            <= self.bytes.len()
    }

    /// Hands out the next record, or nothing once every record has been
    /// handed out; from then on it stays exhausted.
    pub fn next(&mut self) -> (r: Option<MemoryArea>)
        ensures
            old(self)@.len() == 0 ==> r is None && final(self)@ == old(self)@,
            old(self)@.len() > 0 ==> r == Some(old(self)@[0]) && final(self)@ == old(
                self,
            )@.drop_first(),
    {
        proof {
            use_type_invariant(&*self);
        }
        if self.current_area > self.last_area {
            None
        } else {
            let area = read_area(self.bytes, self.current_area);
            proof {
                let v = self@;
                assert(v.drop_first() =~= areas_between(
                    self.bytes@,
                    self.current_area + self.entry_size,
                    self.last_area as int,
                    self.entry_size as int,
                ));
            }
            self.current_area = self.current_area + self.entry_size;
            Some(area)
        }
    }
}


/// Starting at `cur` with the last offset `j` strides and a remainder
/// further on, exactly `j + 1` records are walked, one per stride.
proof fn lemma_areas_between_strides(b: Seq<u8>, cur: int, stride: int, j: nat, rest: int)
    requires
        stride > 0,
        0 <= rest < stride,
    ensures
        areas_between(b, cur, cur + j * stride + rest, stride).len() == j + 1,
        forall|i: int|
            0 <= i <= j ==> #[trigger] areas_between(b, cur, cur + j * stride + rest, stride)[i]
                == area_at(b, cur + i * stride),
    decreases j,
{
    let last = cur + j * stride + rest;
    let s = areas_between(b, cur, last, stride);
    if j == 0 {
        assert(j * stride == 0) by (nonlinear_arith)
            requires
                j == 0,
        ;
        assert(areas_between(b, cur + stride, last, stride).len() == 0);
        assert(s == seq![area_at(b, cur)] + areas_between(b, cur + stride, last, stride));
        assert(s[0] == area_at(b, cur + 0 * stride));
    } else {
        let jm: nat = (j - 1) as nat;
        assert(cur + j * stride + rest == (cur + stride) + jm * stride + rest) by (nonlinear_arith)
            requires
                jm == j - 1,
        ;
        lemma_areas_between_strides(b, cur + stride, stride, jm, rest);
        let tail = areas_between(b, cur + stride, last, stride);
        assert(s == seq![area_at(b, cur)] + tail);
        assert forall|i: int| 0 <= i <= j implies #[trigger] s[i] == area_at(b, cur + i * stride) by {
            if i > 0 {
                assert(tail[i - 1] == area_at(b, (cur + stride) + (i - 1) * stride));
                assert((cur + stride) + (i - 1) * stride == cur + i * stride) by (nonlinear_arith);
            }
        }
    }
}

/// A tag whose size is the header and `k` strides holds exactly `k`
/// records, in the order in which they are stored.
pub proof fn lemma_tag_holds_k_areas(b: Seq<u8>, k: nat)
    requires
        tag_valid(b),
        tag_size(b) == HEADER_LEN + k * tag_entry_size(b),
    ensures
        tag_areas(b).len() == k,
        forall|i: int|
            0 <= i < k ==> #[trigger] tag_areas(b)[i] == area_at(
                b,
                HEADER_LEN + i * tag_entry_size(b),
            ),
{
    let es = tag_entry_size(b);
    if k == 0 {
        assert(tag_size(b) < es);
    } else {
        let jm: nat = (k - 1) as nat;
        assert(tag_size(b) - es == HEADER_LEN + jm * es + 0) by (nonlinear_arith)
            requires
                jm == k - 1,
                tag_size(b) == HEADER_LEN + k * es,
        ;
        assert(tag_size(b) >= es) by (nonlinear_arith)
            requires
                k >= 1,
                es >= 0,
                tag_size(b) == HEADER_LEN + k * es,
        ;
        lemma_areas_between_strides(b, HEADER_LEN as int, es, jm, 0);
    }
}

/// A tag whose size is the header and one stride holds exactly one record,
/// the one right after the header.
pub proof fn lemma_tag_holds_one_area(b: Seq<u8>)
    requires
        tag_valid(b),
        tag_size(b) == HEADER_LEN + tag_entry_size(b),
    ensures
        tag_areas(b) == seq![area_at(b, HEADER_LEN as int)],
{
    lemma_tag_holds_k_areas(b, 1);
    assert(tag_areas(b) =~= seq![area_at(b, HEADER_LEN as int)]);
}

/// A tag whose size is below one stride holds no record.
pub proof fn lemma_short_tag_has_no_areas(b: Seq<u8>)
    requires
        tag_valid(b),
        tag_size(b) < tag_entry_size(b),
    ensures
        tag_areas(b).len() == 0,
{
}

/// Iterators made over the same bytes hand out the same records.
pub proof fn lemma_memory_areas_deterministic(
    t1: MemoryMapTag,
    t2: MemoryMapTag,
    i1: MemoryAreaIter,
    i2: MemoryAreaIter,
)
    requires
        t1@ == t2@,
        i1@ == tag_areas(t1@),
        i2@ == tag_areas(t2@),
    ensures
        i1@ == i2@,
{
}

/// Every type code has a classification: codes 1, 3, 4 and 5 their own, all
/// others reserved.
pub proof fn lemma_memory_type_total(code: u32)
    ensures
        type_of_code(code) == MemoryAreaType::Available <==> code == 1,
        type_of_code(code) == MemoryAreaType::AcpiReclaimable <==> code == 3,
        type_of_code(code) == MemoryAreaType::ReservedPreserveOnHibernation <==> code == 4,
        type_of_code(code) == MemoryAreaType::FaultyRam <==> code == 5,
        type_of_code(code) == MemoryAreaType::Reserved <==> !(code == 1 || code == 3 || code == 4
            || code == 5),
{
}

/// A region that fits the address space ends at its start plus its size,
/// and its size is its stored length.
pub proof fn lemma_area_extent(a: MemoryArea)
    requires
        a.fits(),
    ensures
        a.length as usize == a.length,
        a.base_addr as usize + a.length as usize == a.base_addr + a.length,
{
}

} // verus!
