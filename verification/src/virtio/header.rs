//! The register block of a virtio MMIO device.

use vstd::prelude::*;
use crate::memory::config::PAGE_SIZE;

verus! {

/// The values of the status and descriptor flag combinations that the
/// drivers write.
pub(crate) proof fn lemma_flag_bits()
    by (bit_vector)
    ensures
        (1u32 | 2u32 | 8u32) == 11u32,
        11u32 & 8u32 != 0,
        (11u32 | 4u32) == 15u32,
        (1u32 | 4u32 | 8u32) & 8u32 != 0,
        1u16 & 1u16 != 0,
        2u16 & 1u16 == 0,
        (1u16 | 2u16) == 3u16,
        (1u16 | 0u16) == 1u16,
{
}

/// A value written to one of the device's registers.
#[derive(Clone, Copy, Debug, PartialEq, Eq, Structural)]
pub enum RegWrite {
    Status(u32),
    GuestFeatures(u32),
    GuestPageSize(u32),
    QueueSel(u32),
    QueueNum(u32),
    QueuePfn(u32),
}

/// The writes that open a device handshake, in order: reset, acknowledge,
/// driver, the guest features, features ok.
pub open spec fn handshake_seq(guest_features: u32) -> Seq<RegWrite> {
    seq![
        RegWrite::Status(0),
        RegWrite::Status(1),
        RegWrite::Status(3),
        RegWrite::GuestFeatures(guest_features),
        RegWrite::Status(11),
    ]
}

/// The writes that open a device handshake offering `guest_features`.
/// The driver then reads the status back and goes on only when the
/// features-ok bit stayed set.
pub fn handshake_writes(guest_features: u32) -> (w: Vec<RegWrite>)
    ensures
        w@ == handshake_seq(guest_features),
{
    proof {
        lemma_flag_bits();
    }
    let mut w: Vec<RegWrite> = Vec::new();
    let mut status: u32 = 0;
    w.push(RegWrite::Status(status));
    status = StatusField::Acknowledge.val32();
    w.push(RegWrite::Status(status));
    status = status | StatusField::Driver.val32();
    w.push(RegWrite::Status(status));
    w.push(RegWrite::GuestFeatures(guest_features));
    status = status | StatusField::FeaturesOk.val32();
    w.push(RegWrite::Status(status));
    proof {
        assert(w@ =~= handshake_seq(guest_features));
    }
    w
}

/// Device status bits.
#[derive(Clone, Copy, Debug, PartialEq, Eq)]
pub enum StatusField {
    Acknowledge,
    Driver,
    Failed,
    FeaturesOk,
    DriverOk,
    DeviceNeedsReset,
}

/// The value of a status bit.
pub open spec fn status_value(s: StatusField) -> u32 {
    match s {
        StatusField::Acknowledge => 1,
        StatusField::Driver => 2,
        StatusField::Failed => 128,
        StatusField::FeaturesOk => 8,
        StatusField::DriverOk => 4,
        StatusField::DeviceNeedsReset => 64,
    }
}

impl StatusField {
    /// The value of this status bit.
    pub fn val32(self) -> (v: u32)
        ensures
            v == status_value(self),
    {
        match self {
            StatusField::Acknowledge => 1,
            StatusField::Driver => 2,
            StatusField::Failed => 128,
            StatusField::FeaturesOk => 8,
            StatusField::DriverOk => 4,
            StatusField::DeviceNeedsReset => 64,
        }
    }
}

/// The registers of a virtio MMIO device, in register order.
#[derive(Clone, Copy, Debug, PartialEq, Eq)]
pub struct VirtHeader {
    pub magicvalue: u32,
    pub version: u32,
    pub deviceid: u32,
    pub vendorid: u32,
    pub host_features: u32,
    pub host_features_sel: u32,
    pub rev0: [u32; 2],
    pub guest_features: u32,
    pub guest_features_sel: u32,
    pub guest_page_size: u32,
    pub rev1: u32,
    pub queue_sel: u32,
    pub queue_num_max: u32,
    pub queue_num: u32,
    pub queue_align: u32,
    pub queue_pfn: u32,
    pub rev2: [u32; 3],
    pub queue_notify: u32,
    pub rev3: [u32; 3],
    pub interrupt_status: u32,
    pub interrupt_ack: u32,
    pub rev4: [u32; 2],
    pub status: u32,
}

impl VirtHeader {
    /// A register block with every register zero.
    pub fn new() -> (h: Self)
        ensures
            h.status == 0 && h.host_features == 0 && h.guest_features == 0 && h.queue_num_max
                == 0 && h.queue_num == 0 && h.queue_sel == 0 && h.queue_pfn == 0
                && h.guest_page_size == 0 && h.queue_notify == 0,
    {
        VirtHeader {
            magicvalue: 0,
            version: 0,
            deviceid: 0,
            vendorid: 0,
            host_features: 0,
            host_features_sel: 0,
            rev0: [0, 0],
            guest_features: 0,
            guest_features_sel: 0,
            guest_page_size: 0,
            rev1: 0,
            queue_sel: 0,
            queue_num_max: 0,
            queue_num: 0,
            queue_align: 0,
            queue_pfn: 0,
            rev2: [0, 0, 0],
            queue_notify: 0,
            rev3: [0, 0, 0],
            interrupt_status: 0,
            interrupt_ack: 0,
            rev4: [0, 0],
            status: 0,
        }
    }

    /// Negotiates features: the status walks through acknowledge, driver
    /// ok and features ok, and the guest features become the host features
    /// that `guest_feat` keeps. `status_back` is the status the device
    /// reads back after features ok was written; it fails when the
    /// features-ok bit is clear there.
    pub fn set_feature(&mut self, guest_feat: u32, status_back: u32) -> (r: Result<(), ()>)
        ensures
            r is Ok <==> status_back & 8u32 != 0,
            *final(self) == (VirtHeader {
                status: status_back,
                guest_features: old(self).host_features & guest_feat,
                ..*old(self)
            }),
    {
        self.status = 0;
        self.status = StatusField::Acknowledge.val32();
        self.status = self.status | StatusField::DriverOk.val32();
        self.guest_features = self.host_features & guest_feat;
        self.status = self.status | StatusField::FeaturesOk.val32();
        self.status = status_back;
        let status_ok = self.status;
        if status_ok & StatusField::FeaturesOk.val32() == 0 {
            return Err(());
        }
        Ok(())
    }

    /// Sets the queue size; fails, changing nothing, when it exceeds the
    /// device's maximum.
    pub fn set_ring_size(&mut self, size: u32) -> (r: Result<(), ()>)
        ensures
            r is Ok <==> size <= old(self).queue_num_max,
            r is Ok ==> *final(self) == (VirtHeader { queue_num: size, ..*old(self) }),
            r is Err ==> *final(self) == *old(self),
    {
        if self.queue_num_max < size {
            Err(())
        } else {
            self.queue_num = size;
            Ok(())
        }
    }

    /// Selects queue `sel` and gives the page number of the queue at
    /// physical address `addr` (its low 32 bits divided by the page size).
    pub fn set_pfn(&mut self, sel: u32, addr: usize)
        ensures
            *final(self) == (VirtHeader {
                queue_sel: sel,
                queue_pfn: ((addr as u32) / (PAGE_SIZE as u32)) as u32,
                ..*old(self)
            }),
    {
        self.queue_sel = sel;
        self.queue_pfn = addr as u32 / PAGE_SIZE as u32;
    }

    /// Tells the device the size of a page.
    pub fn set_page_size(&mut self, size: u32)
        ensures
            *final(self) == (VirtHeader { guest_page_size: size, ..*old(self) }),
    {
        self.guest_page_size = size;
    }

    /// Sets the status to driver ok alone.
    pub fn driver_ok(&mut self)
        ensures
            *final(self) == (VirtHeader { status: 4, ..*old(self) }),
    {
        self.status = StatusField::DriverOk.val32();
    }

    /// Notifies the device that queue 0 has new buffers.
    pub fn notify(&mut self)
        ensures
            *final(self) == (VirtHeader { queue_notify: 0, ..*old(self) }),
    {
        self.queue_notify = 0;
    }
}

} // verus!
