//! Finding the network device on the PCI bus and talking to it through its
//! legacy register window: the numbers that go to the ports, and what the
//! numbers that come back mean.

use vstd::prelude::*;

verus! {

/// Vendor identifier of VirtIO devices.
pub const VIRTIO_VENDOR_ID: u16 = 0x1af4;

/// Device identifier of the legacy VirtIO network device.
pub const VIRTIO_NET_DEVICE_ID: u16 = 0x1000;

/// Offset of the device features register.
pub const HOST_FEATURES: u16 = 0;

/// Offset of the driver features register.
pub const GUEST_FEATURES: u16 = 4;

/// Offset of the queue address register.
pub const QUEUE_PFN: u16 = 8;

/// Offset of the queue size register.
pub const QUEUE_SIZE: u16 = 12;

/// Offset of the queue select register.
pub const QUEUE_SEL: u16 = 14;

/// Offset of the queue notify register.
pub const QUEUE_NOTIFY: u16 = 16;

/// Offset of the device status register.
pub const DEVICE_STATUS: u16 = 18;

/// Offset of the interrupt status register.
pub const ISR_STATUS: u16 = 19;

/// Offset of the device's configuration space.
pub const CONFIG_OFFSET: u16 = 20;

/// The feature bits that the driver never takes up: indirect descriptors
/// and event indices.
pub const UNUSED_FEATURES: u64 = 0x30000000;

/// The vendor and the device that a PCI slot reports.
#[derive(Debug, Clone, Copy, PartialEq, Eq, Structural)]
pub struct PciHeader {
    /// Who made the device.
    pub vendor_id: u16,
    /// Which device it is.
    pub device_id: u16,
}

/// The word that selects register `offset` of function `func` of the device
/// in `slot` on `bus` for configuration access.
pub open spec fn config_address(bus: u8, slot: u8, func: u8, offset: u8) -> u32 {
    0x80000000u32 | ((bus as u32) << 16) | ((slot as u32) << 11) | ((func as u32) << 8) | ((
    offset as u32) & 0xfc)
}

/// Computes the word that selects a configuration register.
pub fn pci_config_address(bus: u8, slot: u8, func: u8, offset: u8) -> (address: u32)
    ensures
        address == config_address(bus, slot, func, offset),
{
    0x80000000u32 | ((bus as u32) << 16) | ((slot as u32) << 11) | ((func as u32) << 8) | ((
    offset as u32) & 0xfc)
}

/// Reads the identification word of a PCI slot: all bits set means that
/// the slot is empty, else the low half names the vendor and the high half
/// the device.
pub fn verify_device(id: u32) -> (header: Option<PciHeader>)
    ensures
        header == if id == 0xFFFFFFFF {
            None
        } else {
            Some(
                PciHeader {
                    vendor_id: (id & 0xFFFF) as u16,
                    device_id: ((id >> 16) & 0xFFFF) as u16,
                },
            )
        },
{
    if id == 0xFFFFFFFF {
        return None;
    }
    let vendor = id & 0xFFFF;
    let device = (id >> 16) & 0xFFFF;
    assert(vendor <= 0xFFFF && device <= 0xFFFF) by (bit_vector)
        requires
            vendor == id & 0xFFFF,
            device == (id >> 16) & 0xFFFF,
    ;
    Some(PciHeader { vendor_id: vendor as u16, device_id: device as u16 })
}

/// Whether `header` is that of a legacy VirtIO network device.
pub fn is_virtio_net(header: &PciHeader) -> (found: bool)
    ensures
        found == (header.device_id == VIRTIO_NET_DEVICE_ID && header.vendor_id
            == VIRTIO_VENDOR_ID),
{
    header.device_id == VIRTIO_NET_DEVICE_ID && header.vendor_id == VIRTIO_VENDOR_ID
}

/// The base of the device's port window as its first base address register
/// gives it: the low 16 bits without the two flag bits, if the lowest bit
/// marks the window as ports; `None` if it marks memory.
pub fn io_base_of_bar(bar0: u32) -> (io_base: Option<u16>)
    ensures
        io_base == if bar0 & 1 == 1 {
            Some((bar0 & 0xFFFC) as u16)
        } else {
            None
        },
{
    if bar0 & 1 == 1 {
        let base = bar0 & 0xFFFC;
        assert(base <= 0xFFFF) by (bit_vector)
            requires
                base == bar0 & 0xFFFC,
        ;
        Some(base as u16)
    } else {
        None
    }
}

/// The command word with port access, memory access and bus mastering
/// switched on.
pub fn bus_master_command(command: u16) -> (enabled: u16)
    ensures
        enabled == command | 0x7,
{
    command | 0x7
}

/// The features that driver and device settle on: those that both offer,
/// without those that the driver never takes up.
pub fn negotiate_features(device_features: u64, supported_features: u64) -> (negotiated: u64)
    ensures
        negotiated == device_features & supported_features & !UNUSED_FEATURES,
{
    device_features & supported_features & !UNUSED_FEATURES
}

/// The page frame number that tells the device where a queue lies: the
/// low 32 bits of the queue's physical address without the offset in the
/// page.
pub fn queue_pfn(descriptors: u64) -> (pfn: u32)
    ensures
        pfn == (descriptors & 0xFFFF_FFFF) >> 12,
{
    let low = descriptors & 0xFFFF_FFFF;
    assert(low >> 12 <= 0xFFFFF) by (bit_vector)
        requires
            low == descriptors & 0xFFFF_FFFF,
    ;
    (low >> 12) as u32
}

/// Access to the device through its legacy port window.
pub struct LegacyTransport {
    io_base: u16,
}

impl LegacyTransport {
    /// The first port of the window.
    pub closed spec fn base(&self) -> u16 {
        self.io_base
    }

    /// Access through the window that starts at port `io_base`.
    pub fn new(io_base: u16) -> (transport: Self)
        ensures
            transport.base() == io_base,
    {
        Self { io_base }
    }

    /// The legacy layout is always in use.
    pub fn requires_legacy_layout(&self) -> (legacy: bool)
        ensures
            legacy,
    {
        true
    }

    /// The port of the register at `offset` in the window.
    pub fn port(&self, offset: u16) -> (port: u16)
        requires
            self.base() + offset <= u16::MAX,
        ensures
            port == self.base() + offset,
    {
        self.io_base + offset
    }

    /// The port of byte `index` of the configuration field at `offset`.
    pub fn config_port(&self, offset: u16, index: u16) -> (port: u16)
        requires
            self.base() + CONFIG_OFFSET + offset + index <= u16::MAX,
        ensures
            port == self.base() + CONFIG_OFFSET + offset + index,
    {
        self.io_base + CONFIG_OFFSET + offset + index
    }
}

} // verus!
