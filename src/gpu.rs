//! GPU devices and the inventory that the hardware probe reports.

use vstd::prelude::*;

verus! {

/// A GPU device.
#[derive(Debug)]
pub struct GpuDevice {
    /// Device index
    pub index: u32,
    /// Device name
    pub name: String,
    /// Total memory in bytes
    pub memory_total: u64,
    /// Free memory in bytes
    pub memory_free: u64,
    /// GPU vendor
    pub vendor: GpuVendor,
    /// Whether the device is available for allocation
    pub available: bool,
    /// Current utilization percentage (0-100)
    pub utilization: Option<u32>,
}

impl Clone for GpuDevice {
    fn clone(&self) -> (r: Self)
        ensures
            r == *self,
    {
        GpuDevice {
            index: self.index,
            name: self.name.clone(),
            memory_total: self.memory_total,
            memory_free: self.memory_free,
            vendor: self.vendor,
            available: self.available,
            utilization: self.utilization,
        }
    }
}

/// GPU vendors.
#[derive(Debug, Clone, Copy, PartialEq, Eq, Structural)]
pub enum GpuVendor {
    Nvidia,
    Amd,
    Intel,
    Apple,
    Unknown,
}

/// The display name of a vendor.
pub open spec fn vendor_name(v: GpuVendor) -> Seq<char> {
    match v {
        GpuVendor::Nvidia => "NVIDIA"@,
        GpuVendor::Amd => "AMD"@,
        GpuVendor::Intel => "Intel"@,
        GpuVendor::Apple => "Apple"@,
        GpuVendor::Unknown => "Unknown"@,
    }
}

impl GpuVendor {
    /// The display name of this vendor.
    pub fn to_string(&self) -> (r: String)
        ensures
            r@ == vendor_name(*self),
    {
        match self {
            GpuVendor::Nvidia => String::from_str("NVIDIA"),
            GpuVendor::Amd => String::from_str("AMD"),
            GpuVendor::Intel => String::from_str("Intel"),
            GpuVendor::Apple => String::from_str("Apple"),
            GpuVendor::Unknown => String::from_str("Unknown"),
        }
    }
}

/// The GPU inventory of the system.
#[derive(Debug, Clone)]
pub struct GpuInfo {
    /// Detected GPU devices
    pub devices: Vec<GpuDevice>,
    /// Total number of GPUs
    pub total_count: u32,
    /// Number of available GPUs
    pub available_count: u32,
}

/// The indices of the devices flagged available, in device order.
pub open spec fn available_indices_of(ds: Seq<GpuDevice>) -> Seq<u32>
    decreases ds.len(),
{
    if ds.len() == 0 {
        Seq::empty()
    } else {
        let rest = available_indices_of(ds.drop_last());
        if ds.last().available {
            rest.push(ds.last().index)
        } else {
            rest
        }
    }
}

impl Default for GpuInfo {
    fn default() -> (r: Self)
        ensures
            r.devices@.len() == 0,
            r.total_count == 0,
            r.available_count == 0,
    {
        GpuInfo::empty()
    }
}

impl GpuInfo {
    /// An inventory with no GPUs.
    pub fn empty() -> (r: Self)
        ensures
            r.devices@.len() == 0,
            r.total_count == 0,
            r.available_count == 0,
    {
        GpuInfo { devices: Vec::new(), total_count: 0, available_count: 0 }
    }

    /// The indices of the devices flagged available, in device order.
    pub fn available_indices(&self) -> (r: Vec<u32>)
        ensures
            r@ == available_indices_of(self.devices@),
    {
        let mut r: Vec<u32> = Vec::new();
        let mut i: usize = 0;
        while i < self.devices.len()
            invariant
                i <= self.devices@.len(),
                r@ == available_indices_of(self.devices@.subrange(0, i as int)),
            decreases self.devices@.len() - i,
        {
            let ghost prefix = self.devices@.subrange(0, i as int + 1);
            assert(prefix.drop_last() =~= self.devices@.subrange(0, i as int));
            if self.devices[i].available {
                r.push(self.devices[i].index);
            }
            i = i + 1;
        }
        assert(self.devices@.subrange(0, i as int) =~= self.devices@);
        r
    }
}

/// The inventory that the probe of this build reports: it has no vendor
/// library to ask, so it reports no devices.
pub fn detect_gpus() -> (r: GpuInfo)
    ensures
        r.devices@.len() == 0,
        r.total_count == 0,
        r.available_count == 0,
{
    match detect_nvidia_gpus() {
        Ok(info) => info,
        Err(_) => GpuInfo::empty(),
    }
}

/// The inventory of an Apple Silicon machine: one GPU with unified memory.
pub fn detect_apple_gpus() -> (r: GpuInfo)
    ensures
        r.devices@.len() == 1,
        r.devices@[0].index == 0,
        r.devices@[0].name@ == "Apple Silicon GPU"@,
        r.devices@[0].memory_total == 0,
        r.devices@[0].memory_free == 0,
        r.devices@[0].vendor == GpuVendor::Apple,
        r.devices@[0].available,
        r.devices@[0].utilization is None,
        r.total_count == 1,
        r.available_count == 1,
{
    let device = GpuDevice {
        index: 0,
        name: String::from_str("Apple Silicon GPU"),
        memory_total: 0,
        memory_free: 0,
        vendor: GpuVendor::Apple,
        available: true,
        utilization: None,
    };
    let mut devices: Vec<GpuDevice> = Vec::new();
    devices.push(device);
    GpuInfo { devices, total_count: 1, available_count: 1 }
}

/// The NVIDIA inventory: no management library is linked, so it is empty.
pub fn detect_nvidia_gpus() -> (r: Result<GpuInfo, crate::DmrletError>)
    ensures
        r matches Ok(info) && info.devices@.len() == 0 && info.total_count == 0
            && info.available_count == 0,
{
    Ok(GpuInfo::empty())
}

} // verus!
