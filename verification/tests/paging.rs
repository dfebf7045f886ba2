use riscv_kernel::page_allocator::{PageAllocator, PAGE_SIZE};
use riscv_kernel::paging::{
    craft_satp, get_address_from_entry, get_virtual_offsets, page_align_round_down, EntryBits,
    MemoryLayout, PageTable, PageTableEntry, PagingState,
};
use riscv_kernel::KernelError;

const REGION_BASE: usize = 0x8000_0000;

fn small_layout() -> MemoryLayout {
    MemoryLayout {
        text_start: 0x8000_0000,
        text_end: 0x8000_2000,
        stack_start: 0x8000_4000,
        stack_end: 0x8000_5000,
        data_start: 0x8000_6000,
        data_end: 0x8000_6800,
        rodata_start: 0x8000_7000,
        rodata_end: 0x8000_7100,
        bss_start: 0x8000_8000,
        bss_end: 0x8000_9000,
        heap_start: 0x8000_a000,
        heap_end: 0x8000_b000,
        uart_base: 0x1000_0000,
    }
}

fn booted() -> (PageAllocator, PagingState) {
    let mut allocator = PageAllocator::init_allocator(REGION_BASE, 64 * PAGE_SIZE);
    let paging = PagingState::init(&mut allocator, &small_layout()).unwrap();
    (allocator, paging)
}

#[test]
fn identity_mapped_ranges_translate_to_themselves() {
    let (_allocator, paging) = booted();
    let layout = small_layout();
    assert!(paging.init_sanity_check(&layout));
    // Not only the section starts: every probed address of a mapped
    // range is the identity.
    assert_eq!(
        paging.virtual_to_physical(0x8000_0123),
        Some(0x8000_0123u64)
    );
    assert_eq!(
        paging.virtual_to_physical(0x8000_1fff),
        Some(0x8000_1fffu64)
    );
    assert_eq!(
        paging.virtual_to_physical(0x1000_0aaa),
        Some(0x1000_0aaau64)
    );
}

#[test]
fn unmapped_addresses_translate_to_nothing() {
    let (_allocator, paging) = booted();
    // A hole between the mapped ranges, and a faraway address.
    assert_eq!(paging.virtual_to_physical(0x8000_3000), None);
    assert_eq!(paging.virtual_to_physical(0x4000_0000), None);
    assert_eq!(paging.virtual_to_physical(0), None);
}

#[test]
fn map_then_walk_single_page() {
    let (mut allocator, mut paging) = booted();
    let va: usize = 0x10_0000_0000;
    assert!(paging
        .map(&mut allocator, va, va, EntryBits::ReadWriteExecute.val())
        .is_ok());
    assert_eq!(paging.virtual_to_physical(va), Some(va as u64));
    assert_eq!(paging.virtual_to_physical(va + 0x500), Some(va as u64 + 0x500));
    // The neighbouring page stays unmapped.
    assert_eq!(paging.virtual_to_physical(va + PAGE_SIZE), None);
}

#[test]
fn non_identity_mapping_translates_page_granular() {
    let (mut allocator, mut paging) = booted();
    // A non-identity mapping: translation inverts the mapping up to the
    // in-page offset, at the 4 KiB granularity of a leaf-level entry.
    assert!(paging
        .map(
            &mut allocator,
            0x1000,
            0x8000_2000,
            EntryBits::ReadWrite.val()
        )
        .is_ok());
    assert_eq!(paging.virtual_to_physical(0x1000), Some(0x8000_2000u64));
    assert_eq!(paging.virtual_to_physical(0x1234), Some(0x8000_2234u64));
}

#[test]
fn mapping_carries_the_requested_permission_bits() {
    let (mut allocator, mut paging) = booted();
    assert!(paging
        .map(
            &mut allocator,
            0x2000,
            0x8000_5000,
            EntryBits::ReadWrite.val()
        )
        .is_ok());
    let leaf = paging.walk_leaf_entry(0x2000).unwrap();
    // Valid, readable, writable; not executable. The frame number sits
    // above the ten flag bits.
    assert_eq!(leaf & 0x3ff, 0x7);
    assert_eq!(leaf >> 10, 0x8000_5000 >> 12);
    // An unmapped address resolves no leaf at all.
    assert_eq!(paging.walk_leaf_entry(0x3000), None);
}

#[test]
fn identity_map_range_carries_the_requested_permission_bits() {
    let (mut allocator, mut paging) = booted();
    assert!(paging
        .identity_map_range(
            &mut allocator,
            0x9200_0000,
            0x9200_2000,
            EntryBits::ReadExecute.val()
        )
        .is_ok());
    let leaf = paging.walk_leaf_entry(0x9200_1000).unwrap();
    // Valid, readable, executable; not writable.
    assert_eq!(leaf & 0x3ff, 0xb);
    assert_eq!(leaf >> 10, 0x9200_1000 >> 12);
}

#[test]
fn identity_map_range_rounds_outward() {
    let (mut allocator, mut paging) = booted();
    // An unaligned range: both ends are aligned outward.
    assert!(paging
        .identity_map_range(
            &mut allocator,
            0x9000_0800,
            0x9000_1100,
            EntryBits::ReadWriteExecute.val()
        )
        .is_ok());
    assert_eq!(
        paging.virtual_to_physical(0x9000_0000),
        Some(0x9000_0000u64)
    );
    assert_eq!(
        paging.virtual_to_physical(0x9000_1fff),
        Some(0x9000_1fffu64)
    );
    assert_eq!(paging.virtual_to_physical(0x9000_2000), None);
}

#[test]
fn empty_range_maps_nothing() {
    let (mut allocator, mut paging) = booted();
    assert!(paging
        .identity_map_range(
            &mut allocator,
            0x9100_0000,
            0x9100_0000,
            EntryBits::ReadWriteExecute.val()
        )
        .is_ok());
    assert_eq!(paging.virtual_to_physical(0x9100_0000), None);
}

#[test]
fn exhausted_allocator_fails_the_mapping() {
    // One single page: enough for the root table, nothing for deeper
    // levels.
    let mut allocator = PageAllocator::init_allocator(REGION_BASE, PAGE_SIZE);
    assert_eq!(allocator.number_pages(), 1);
    let empty = MemoryLayout {
        text_start: 0x8000_0000,
        text_end: 0x8000_0000,
        stack_start: 0x8000_0000,
        stack_end: 0x8000_0000,
        data_start: 0x8000_0000,
        data_end: 0x8000_0000,
        rodata_start: 0x8000_0000,
        rodata_end: 0x8000_0000,
        bss_start: 0x8000_0000,
        bss_end: 0x8000_0000,
        heap_start: 0x8000_0000,
        heap_end: 0x8000_0000,
        uart_base: 0x1000_0000,
    };
    // The console window still needs two fresh table levels.
    assert_eq!(
        PagingState::init(&mut allocator, &empty).err(),
        Some(KernelError::OutOfMemory)
    );
}

#[test]
fn virtual_offsets_split_the_address() {
    let vo = get_virtual_offsets(0x8000_0000);
    assert_eq!(vo, [2, 0, 0]);
    let vo = get_virtual_offsets((3 << 30) | (5 << 21) | (7 << 12) | 0x123);
    assert_eq!(vo, [3, 5, 7]);
}

#[test]
fn entry_bits_have_their_hardware_values() {
    assert_eq!(EntryBits::Empty.val(), 0x0);
    assert_eq!(EntryBits::Valid.val(), 0x1);
    assert_eq!(EntryBits::Read.val(), 0x2);
    assert_eq!(EntryBits::Write.val(), 0x4);
    assert_eq!(EntryBits::Execute.val(), 0x8);
    assert_eq!(EntryBits::User.val(), 0x10);
    assert_eq!(EntryBits::Global.val(), 0x20);
    assert_eq!(EntryBits::Access.val(), 0x40);
    assert_eq!(EntryBits::Dirty.val(), 0x80);
    assert_eq!(EntryBits::ReadWrite.val(), 0x6);
    assert_eq!(EntryBits::ReadExecute.val(), 0xa);
    assert_eq!(EntryBits::ReadWriteExecute.val(), 0xe);
    assert_eq!(EntryBits::UserReadWrite.val(), 0x16);
    assert_eq!(EntryBits::UserReadExecute.val(), 0x1a);
    assert_eq!(EntryBits::UserReadWriteExecute.val(), 0x1e);
}

#[test]
fn entry_classification_follows_the_bits() {
    let mut e = PageTableEntry { entry: 0 };
    assert!(e.is_invalid());
    assert!(e.is_branch());
    e.set_entry(0x1);
    assert!(e.is_valid());
    assert!(e.is_branch());
    e.set_entry(0xf);
    assert!(e.is_valid());
    assert!(e.is_leaf());
    assert_eq!(e.get_entry(), 0xf);
}

#[test]
fn entry_address_shifts_the_frame_number() {
    let e = PageTableEntry {
        entry: (0x80002 << 10) | 0x1,
    };
    assert_eq!(get_address_from_entry(&e), 0x8000_2000);
}

#[test]
fn page_tables_have_512_entries() {
    assert_eq!(PageTable::len(), 512);
}

#[test]
fn align_down_truncates_to_the_page() {
    assert_eq!(page_align_round_down(0), 0);
    assert_eq!(page_align_round_down(4095), 0);
    assert_eq!(page_align_round_down(4096), 4096);
    assert_eq!(page_align_round_down(0x8000_0123), 0x8000_0000);
}

#[test]
fn satp_value_packs_mode_asid_and_frame() {
    let (_allocator, paging) = booted();
    let root = paging.get_root_address();
    assert_eq!(root % PAGE_SIZE, 0);
    let satp = craft_satp(8, 0, root);
    assert_eq!(satp, (8usize << 60) | (root >> 12));
    assert_eq!(craft_satp(8, 0, 0x8020_0000), 0x8000_0000_0008_0200);
    assert_eq!(craft_satp(8, 1, 0x8020_0000), 0x8000_1000_0008_0200);
}
