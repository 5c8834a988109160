//! Decoding of the boot loader's memory-map tag: a header followed by
//! fixed-stride records, each describing one physical memory region.

pub mod memory_map;
