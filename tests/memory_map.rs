use boot_memory_map::memory_map::{MemoryArea, MemoryAreaIter, MemoryAreaType, MemoryMapTag};

fn header(typ: u32, size: u32, entry_size: u32, entry_version: u32) -> Vec<u8> {
    let mut b = Vec::new();
    for v in [typ, size, entry_size, entry_version] {
        b.extend_from_slice(&v.to_le_bytes());
    }
    b
}

fn push_entry(b: &mut Vec<u8>, base: u64, length: u64, typ: u32, stride: usize) {
    let start = b.len();
    b.extend_from_slice(&base.to_le_bytes());
    b.extend_from_slice(&length.to_le_bytes());
    b.extend_from_slice(&typ.to_le_bytes());
    b.extend_from_slice(&0u32.to_le_bytes());
    while b.len() < start + stride {
        b.push(0xAA);
    }
}

fn drain(mut it: MemoryAreaIter) -> Vec<MemoryArea> {
    let mut out = Vec::new();
    while let Some(a) = it.next() {
        out.push(a);
    }
    out
}

fn tag_with(entries: &[(u64, u64, u32)], entry_size: u32) -> Vec<u8> {
    let size = 16 + entries.len() as u32 * entry_size;
    let mut b = header(6, size, entry_size, 0);
    for &(base, length, typ) in entries {
        push_entry(&mut b, base, length, typ, entry_size as usize);
    }
    b
}

#[test]
fn two_available_regions() {
    let b = tag_with(&[(0x0, 0x9FC00, 1), (0x100000, 0x7EE0000, 1)], 24);
    assert_eq!(b.len(), 64);
    let tag = MemoryMapTag::new(&b).unwrap();
    assert_eq!(tag.typ(), 6);
    assert_eq!(tag.size(), 64);
    assert_eq!(tag.entry_size(), 24);
    assert_eq!(tag.entry_version(), 0);
    let areas = drain(tag.memory_areas());
    assert_eq!(areas.len(), 2);
    assert_eq!(areas[0].start_address(), 0x0);
    assert_eq!(areas[0].end_address(), 0x9FC00);
    assert_eq!(areas[0].memory_type(), MemoryAreaType::Available);
    assert_eq!(areas[1].start_address(), 0x100000);
    assert_eq!(areas[1].end_address(), 0x7FE0000);
    assert_eq!(areas[1].memory_type(), MemoryAreaType::Available);
}

#[test]
fn one_stride_gives_one_record() {
    let b = tag_with(&[(0x1000, 0x2000, 3)], 24);
    let tag = MemoryMapTag::new(&b).unwrap();
    let areas = drain(tag.memory_areas());
    assert_eq!(areas.len(), 1);
    assert_eq!(areas[0].start_address(), 0x1000);
    assert_eq!(areas[0].size(), 0x2000);
    assert_eq!(areas[0].memory_type(), MemoryAreaType::AcpiReclaimable);
}

#[test]
fn k_strides_give_k_records_in_order() {
    let entries = [(0x0, 0x10, 1), (0x10, 0x20, 2), (0x30, 0x40, 4), (0x70, 0x80, 5)];
    let b = tag_with(&entries, 24);
    let tag = MemoryMapTag::new(&b).unwrap();
    let areas = drain(tag.memory_areas());
    assert_eq!(areas.len(), 4);
    for (a, &(base, length, typ)) in areas.iter().zip(entries.iter()) {
        assert_eq!(a.base_addr, base);
        assert_eq!(a.length, length);
        assert_eq!(a.typ, typ);
    }
}

#[test]
fn padded_stride_is_skipped() {
    let b = tag_with(&[(0x100, 0x200, 1), (0x300, 0x400, 4)], 40);
    let tag = MemoryMapTag::new(&b).unwrap();
    let areas = drain(tag.memory_areas());
    assert_eq!(areas.len(), 2);
    assert_eq!(areas[1].start_address(), 0x300);
    assert_eq!(areas[1].end_address(), 0x700);
    assert_eq!(areas[1].memory_type(), MemoryAreaType::ReservedPreserveOnHibernation);
}

#[test]
fn size_below_stride_gives_nothing() {
    let mut b = header(6, 20, 24, 0);
    push_entry(&mut b, 0x1000, 0x1000, 1, 24);
    let tag = MemoryMapTag::new(&b).unwrap();
    assert_eq!(drain(tag.memory_areas()).len(), 0);
    let b = header(6, 0, 24, 0);
    let tag = MemoryMapTag::new(&b).unwrap();
    assert_eq!(drain(tag.memory_areas()).len(), 0);
}

#[test]
fn header_only_gives_nothing() {
    let b = header(6, 16, 24, 0);
    let tag = MemoryMapTag::new(&b).unwrap();
    assert!(tag.memory_areas().next().is_none());
}

#[test]
fn iterators_over_one_tag_agree() {
    let b = tag_with(&[(0x0, 0x1000, 1), (0x2000, 0x1000, 2), (0x4000, 0x10, 5)], 24);
    let tag = MemoryMapTag::new(&b).unwrap();
    let first = drain(tag.memory_areas());
    let second = drain(tag.memory_areas());
    assert_eq!(first.len(), 3);
    assert_eq!(first, second);
}

#[test]
fn exhausted_iterator_stays_exhausted() {
    let b = tag_with(&[(0x0, 0x1000, 1)], 24);
    let tag = MemoryMapTag::new(&b).unwrap();
    let mut it = tag.memory_areas();
    assert!(it.next().is_some());
    assert!(it.next().is_none());
    assert!(it.next().is_none());
}

#[test]
fn type_codes_classify() {
    let cases = [
        (0u32, MemoryAreaType::Reserved),
        (1, MemoryAreaType::Available),
        (2, MemoryAreaType::Reserved),
        (3, MemoryAreaType::AcpiReclaimable),
        (4, MemoryAreaType::ReservedPreserveOnHibernation),
        (5, MemoryAreaType::FaultyRam),
        (6, MemoryAreaType::Reserved),
        (u32::MAX, MemoryAreaType::Reserved),
    ];
    for (code, expected) in cases {
        let a = MemoryArea { base_addr: 0, length: 0, typ: code, reserved: 0 };
        assert_eq!(a.memory_type(), expected);
    }
}

#[test]
fn end_is_start_plus_size() {
    let a = MemoryArea { base_addr: 0x100000, length: 0x7EE0000, typ: 1, reserved: 0 };
    assert_eq!(a.size(), 0x7EE0000);
    assert_eq!(a.end_address(), a.start_address() + a.size());
    assert_eq!(a.end_address(), 0x7FE0000);
}

#[test]
fn short_header_is_refused() {
    let b = header(6, 16, 24, 0);
    assert!(MemoryMapTag::new(&b[..15]).is_none());
    assert!(MemoryMapTag::new(&[]).is_none());
}

#[test]
fn size_past_block_is_refused() {
    let b = header(6, 40, 24, 0);
    assert!(MemoryMapTag::new(&b).is_none());
}

#[test]
fn stride_shorter_than_record_is_refused() {
    let b = tag_with(&[(0x0, 0x1000, 1)], 23);
    assert!(MemoryMapTag::new(&b).is_none());
    let b = header(6, 16, 0, 0);
    assert!(MemoryMapTag::new(&b).is_none());
}

#[test]
fn fields_are_read_little_endian() {
    let b = tag_with(&[(0x0102_0304_0506_0708, 0x1112_1314_1516_1718, 0x2122_2324)], 24);
    let tag = MemoryMapTag::new(&b).unwrap();
    let a = tag.memory_areas().next().unwrap();
    assert_eq!(a.base_addr, 0x0102_0304_0506_0708);
    assert_eq!(a.length, 0x1112_1314_1516_1718);
    assert_eq!(a.typ, 0x2122_2324);
    assert_eq!(a.reserved, 0);
}
