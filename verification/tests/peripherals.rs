use riscv_kernel::block;
use riscv_kernel::kmalloc::{KernelHeap, ALLOC_SPACE};
use riscv_kernel::lock::SpinLock;
use riscv_kernel::page_allocator::{PageAllocator, PAGE_SIZE};
use riscv_kernel::uart::{Uart, UART_BASE_ADDRESS};
use riscv_kernel::virtio::{
    DeviceType, MmioOffset, StatusField, VIRTIO_DESC_F_NEXT, VIRTIO_DESC_F_WRITE, VIRTIO_RING_SIZE,
};

const REGION_BASE: usize = 0x8000_0000;

#[test]
fn spin_lock_toggles() {
    let mut lock = SpinLock::new();
    assert!(!lock.is_locked());
    lock.lock();
    assert!(lock.is_locked());
    lock.unlock();
    assert!(!lock.is_locked());
}

#[test]
fn uart_sits_at_its_window() {
    let uart = Uart::get();
    assert_eq!(uart.base_address(), UART_BASE_ADDRESS);
    assert_eq!(UART_BASE_ADDRESS, 0x1000_0000);
}

#[test]
fn bump_allocator_advances_and_runs_out() {
    let mut allocator = PageAllocator::init_allocator(REGION_BASE, 300 * PAGE_SIZE);
    let mut heap = KernelHeap::init(&mut allocator).unwrap();
    assert!(heap.init_sanity_check());
    let a = heap.alloc_bytes(16).unwrap();
    let b = heap.alloc_bytes(16).unwrap();
    assert_eq!(b, a + 16);
    // Nothing is ever reclaimed, so the arena eventually runs dry.
    assert_eq!(heap.alloc_bytes(ALLOC_SPACE * PAGE_SIZE), None);
}

#[test]
fn bump_allocator_needs_its_arena() {
    let mut allocator = PageAllocator::init_allocator(REGION_BASE, (ALLOC_SPACE - 1) * PAGE_SIZE);
    assert!(KernelHeap::init(&mut allocator).is_none());
}

#[test]
fn block_layer_has_nothing_to_set_up() {
    block::init();
    block::init_sanity_check();
}

#[test]
fn device_ids_classify() {
    assert_eq!(DeviceType::new(0), DeviceType::NoDevice);
    assert_eq!(DeviceType::new(1), DeviceType::Network);
    assert_eq!(DeviceType::new(2), DeviceType::Disk);
    assert_eq!(DeviceType::new(4), DeviceType::Entropy);
    assert_eq!(DeviceType::new(3), DeviceType::Unknown);
    assert_eq!(DeviceType::new(99), DeviceType::Unknown);
}

#[test]
fn register_offsets_match_the_device_window() {
    assert_eq!(MmioOffset::MagicValue.val(), 0x0);
    assert_eq!(MmioOffset::Version.val(), 0x4);
    assert_eq!(MmioOffset::DeviceId.val(), 0x8);
    assert_eq!(MmioOffset::VendorId.val(), 0xc);
    assert_eq!(MmioOffset::QueueNumMax.val(), 0x34);
    assert_eq!(MmioOffset::QueuePfn.val(), 0x40);
    assert_eq!(MmioOffset::Status.val(), 0x70);
}

#[test]
fn status_bits_are_powers_of_two() {
    assert_eq!(StatusField::Acknowledge.val(), 1);
    assert_eq!(StatusField::Driver.val(), 2);
    assert_eq!(StatusField::DriverOk.val(), 4);
    assert_eq!(StatusField::FeaturesOk.val(), 8);
    assert_eq!(StatusField::DeviceNeedsReset.val(), 64);
    assert_eq!(StatusField::Failed.val(), 128);
}

#[test]
fn ring_constants_match_the_protocol() {
    assert_eq!(VIRTIO_RING_SIZE, 128);
    assert_eq!(VIRTIO_DESC_F_NEXT, 1);
    assert_eq!(VIRTIO_DESC_F_WRITE, 2);
}
