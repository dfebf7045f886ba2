use riscv_kernel::page_allocator::{
    page_align_round_up, Page, PageAllocator, EMPTY_PAGE, LAST_FLAG, PAGE_SIZE, TAKEN_FLAG,
};
use riscv_kernel::KernelError;

const REGION_BASE: usize = 0x8000_0000;

fn fresh(pages: usize) -> PageAllocator {
    PageAllocator::init_allocator(REGION_BASE, pages * PAGE_SIZE)
}

#[test]
fn sixteen_mebibytes_give_4096_descriptors() {
    let allocator = fresh(0);
    assert_eq!(allocator.number_pages(), 0);
    let allocator = PageAllocator::init_allocator(REGION_BASE, 0x100_0000);
    assert_eq!(allocator.number_pages(), 4096);
}

#[test]
fn first_allocation_is_aligned_and_above_the_region_base() {
    let mut allocator = PageAllocator::init_allocator(REGION_BASE, 0x100_0000);
    let first = allocator.alloc_pages(1).unwrap();
    assert!(first > REGION_BASE);
    assert_eq!(first % PAGE_SIZE, 0);
    assert_eq!(first, allocator.alloc_start_address());
    // The descriptor array of 4096 pages occupies one page at the front.
    assert_eq!(first, REGION_BASE + PAGE_SIZE);
}

#[test]
fn freed_run_is_handed_out_again_first_fit() {
    let mut allocator = fresh(32);
    let first = allocator.alloc_pages(3).unwrap();
    assert!(allocator.dealloc(first).is_ok());
    let second = allocator.alloc_pages(3).unwrap();
    assert_eq!(first, second);
}

#[test]
fn freed_run_is_reused_even_behind_a_live_allocation() {
    let mut allocator = fresh(32);
    let a = allocator.alloc_pages(1).unwrap();
    let b = allocator.alloc_pages(4).unwrap();
    assert_eq!(b, a + PAGE_SIZE);
    assert!(allocator.dealloc(a).is_ok());
    // The single freed page at the front is the first fit again.
    let c = allocator.alloc_pages(1).unwrap();
    assert_eq!(c, a);
}

#[test]
fn allocation_fails_without_a_contiguous_run() {
    let mut allocator = fresh(8);
    let a = allocator.alloc_pages(2).unwrap();
    let _b = allocator.alloc_pages(2).unwrap();
    let c = allocator.alloc_pages(2).unwrap();
    let _d = allocator.alloc_pages(2).unwrap();
    // Free four pages in two separate runs of two.
    assert!(allocator.dealloc(a).is_ok());
    assert!(allocator.dealloc(c).is_ok());
    // Four pages are free in total, but no three of them are contiguous.
    assert_eq!(allocator.alloc_pages(3), None);
    assert_eq!(allocator.alloc_pages(2), Some(a));
}

#[test]
fn big_allocation_fails_when_too_few_contiguous_pages_remain() {
    let mut allocator = fresh(256);
    let _one = allocator.alloc_pages(1).unwrap();
    assert_eq!(allocator.alloc_pages(256), None);
    assert!(allocator.alloc_pages(255).is_some());
}

#[test]
fn allocation_of_everything_then_nothing() {
    let mut allocator = fresh(4);
    let all = allocator.alloc_pages(4).unwrap();
    assert_eq!(allocator.alloc_pages(1), None);
    assert!(allocator.dealloc(all).is_ok());
    assert_eq!(allocator.alloc_pages(4), Some(all));
}

#[test]
fn double_free_is_detected() {
    let mut allocator = fresh(16);
    let p = allocator.alloc_pages(2).unwrap();
    assert_eq!(allocator.dealloc(p), Ok(()));
    assert_eq!(allocator.dealloc(p), Err(KernelError::DoubleFree));
}

#[test]
fn freeing_a_pointer_never_allocated_is_detected() {
    let mut allocator = fresh(16);
    let start = allocator.alloc_start_address();
    assert_eq!(allocator.dealloc(start), Err(KernelError::DoubleFree));
}

#[test]
fn freeing_a_pointer_outside_the_region_is_detected() {
    let mut allocator = fresh(16);
    assert_eq!(
        allocator.dealloc(REGION_BASE),
        Err(KernelError::InvalidPointer)
    );
    let past_end = allocator.alloc_start_address() + 16 * PAGE_SIZE;
    assert_eq!(allocator.dealloc(past_end), Err(KernelError::InvalidPointer));
}

#[test]
fn mid_page_pointer_frees_its_page_run() {
    let mut allocator = fresh(16);
    let p = allocator.alloc_pages(2).unwrap();
    // The originating page index comes from the pointer's offset, so a
    // pointer into the middle of the first page frees the same run.
    assert_eq!(allocator.dealloc(p + 100), Ok(()));
    assert_eq!(allocator.alloc_pages(2), Some(p));
}

#[test]
fn boot_self_check_passes_on_a_fresh_region() {
    let mut allocator = PageAllocator::init_allocator(REGION_BASE, 0x100_0000);
    assert!(allocator.init_sanity_check());
}

#[test]
fn page_flags_behave_as_bits() {
    let mut page = Page { flags: EMPTY_PAGE };
    assert!(page.free());
    assert!(!page.taken());
    assert!(!page.last());
    page.set_flag(TAKEN_FLAG);
    assert!(page.taken());
    assert!(!page.free());
    page.set_flag(LAST_FLAG);
    assert!(page.last());
    page.clear_flag(LAST_FLAG);
    assert!(page.taken());
    assert!(!page.last());
    page.clear_all_flags();
    assert!(page.free());
}

#[test]
fn page_alignment_rounds_up_to_boundaries() {
    assert_eq!(page_align_round_up(0), 0);
    assert_eq!(page_align_round_up(1), 4096);
    assert_eq!(page_align_round_up(4096), 4096);
    assert_eq!(page_align_round_up(4097), 8192);
    assert_eq!(page_align_round_up(0x8000_0123), 0x8000_1000);
}
