//! Descriptor-ring structures and register layout of the paravirtual
//! device bus.
//!
//! The probe loop and the device handshake are memory-mapped I/O and
//! live in the hardware-facing layer; this module holds the data layout
//! both sides agree on, and the classification of what a probed device
//! id means.

use vstd::prelude::*;

verus! {

/// Descriptor flag: the next field chains to another descriptor.
pub const VIRTIO_DESC_F_NEXT: u16 = 1;

/// Descriptor flag: the device writes this buffer.
pub const VIRTIO_DESC_F_WRITE: u16 = 2;

/// The number of descriptors in each ring. Must be a power of two.
pub const VIRTIO_RING_SIZE: usize = 128;

/// One buffer descriptor of the shared ring.
#[derive(Clone, Copy, PartialEq, Eq, Structural, Debug)]
pub struct Descriptor {
    pub addr: u64,
    pub len: u32,
    pub flags: u16,
    pub next: u16,
}

/// The ring of descriptor indices the driver offers to the device.
#[derive(Clone, Copy, Debug)]
pub struct Available {
    pub flags: u16,
    pub idx: u16,
    pub ring: [u16; 128],
    pub event: u16,
}

/// One completed request, as the device reports it back.
#[derive(Clone, Copy, PartialEq, Eq, Structural, Debug)]
pub struct UsedElem {
    pub id: u32,
    pub len: u32,
}

/// The ring of completions the device hands back to the driver.
#[derive(Clone, Copy, Debug)]
pub struct Used {
    pub flags: u16,
    pub idx: u16,
    pub ring: [UsedElem; 128],
    pub event: u16,
}

/// The registers of a device's memory-mapped window, by byte offset.
#[derive(Clone, Copy, PartialEq, Eq, Structural, Debug)]
pub enum MmioOffset {
    MagicValue,
    Version,
    DeviceId,
    VendorId,
    DeviceFeatures,
    DriverFeatures,
    GuestPageSize,
    QueueSel,
    QueueNumMax,
    QueueNum,
    QueueAlign,
    QueuePfn,
    QueueReady,
    QueueNotify,
    InterruptStatus,
    InterruptAck,
    Status,
}

impl MmioOffset {
    /// The register's byte offset in the device window.
    pub open spec fn spec_val(self) -> usize {
        match self {
            MmioOffset::MagicValue => 0x0,
            MmioOffset::Version => 0x4,
            MmioOffset::DeviceId => 0x8,
            MmioOffset::VendorId => 0xc,
            MmioOffset::DeviceFeatures => 0x10,
            MmioOffset::DriverFeatures => 0x20,
            MmioOffset::GuestPageSize => 0x28,
            MmioOffset::QueueSel => 0x30,
            MmioOffset::QueueNumMax => 0x34,
            MmioOffset::QueueNum => 0x38,
            MmioOffset::QueueAlign => 0x3c,
            MmioOffset::QueuePfn => 0x40,
            MmioOffset::QueueReady => 0x44,
            MmioOffset::QueueNotify => 0x50,
            MmioOffset::InterruptStatus => 0x60,
            MmioOffset::InterruptAck => 0x64,
            MmioOffset::Status => 0x70,
        }
    }

    #[verifier::when_used_as_spec(spec_val)]
    pub fn val(self) -> (r: usize)
        ensures
            r == self.spec_val(),
    {
        match self {
            MmioOffset::MagicValue => 0x0,
            MmioOffset::Version => 0x4,
            MmioOffset::DeviceId => 0x8,
            MmioOffset::VendorId => 0xc,
            MmioOffset::DeviceFeatures => 0x10,
            MmioOffset::DriverFeatures => 0x20,
            MmioOffset::GuestPageSize => 0x28,
            MmioOffset::QueueSel => 0x30,
            MmioOffset::QueueNumMax => 0x34,
            MmioOffset::QueueNum => 0x38,
            MmioOffset::QueueAlign => 0x3c,
            MmioOffset::QueuePfn => 0x40,
            MmioOffset::QueueReady => 0x44,
            MmioOffset::QueueNotify => 0x50,
            MmioOffset::InterruptStatus => 0x60,
            MmioOffset::InterruptAck => 0x64,
            MmioOffset::Status => 0x70,
        }
    }
}

/// The bits of a device's status register.
#[derive(Clone, Copy, PartialEq, Eq, Structural, Debug)]
pub enum StatusField {
    Acknowledge,
    Driver,
    DriverOk,
    FeaturesOk,
    DeviceNeedsReset,
    Failed,
}

impl StatusField {
    /// The numeric value of this status bit.
    pub open spec fn spec_val(self) -> u32 {
        match self {
            StatusField::Acknowledge => 1,
            StatusField::Driver => 2,
            StatusField::DriverOk => 4,
            StatusField::FeaturesOk => 8,
            StatusField::DeviceNeedsReset => 64,
            StatusField::Failed => 128,
        }
    }

    #[verifier::when_used_as_spec(spec_val)]
    pub fn val(self) -> (r: u32)
        ensures
            r == self.spec_val(),
    {
        match self {
            StatusField::Acknowledge => 1,
            StatusField::Driver => 2,
            StatusField::DriverOk => 4,
            StatusField::FeaturesOk => 8,
            StatusField::DeviceNeedsReset => 64,
            StatusField::Failed => 128,
        }
    }
}

/// What a probed device id names.
#[derive(Clone, Copy, PartialEq, Eq, Structural, Debug)]
pub enum DeviceType {
    NoDevice,
    Network,
    Disk,
    Entropy,
    Unknown,
}

impl DeviceType {
    /// Classify a device id read from a probed window.
    pub fn new(value: u32) -> (r: DeviceType)
        ensures
            r == (if value == 0 {
                DeviceType::NoDevice
            } else if value == 1 {
                DeviceType::Network
            } else if value == 2 {
                DeviceType::Disk
            } else if value == 4 {
                DeviceType::Entropy
            } else {
                DeviceType::Unknown
            }),
    {
        match value {
            0x0 => DeviceType::NoDevice,
            0x1 => DeviceType::Network,
            0x2 => DeviceType::Disk,
            0x4 => DeviceType::Entropy,
            _ => DeviceType::Unknown,
        }
    }
}

} // verus!
