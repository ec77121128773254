//! What the daemon reports about the machine.

use vstd::prelude::*;
use crate::text::{chars_of, has_substring, lowercase_of, to_lowercase, vec_contains};

verus! {

/// One disk as reported over the socket.
#[derive(Debug, Default)]
pub struct DiskInfoResponse {
    pub name: String,
    pub mount_point: String,
    pub total_space: u64,
    pub available_space: u64,
}

/// Facts about the machine gathered once at start-up.
#[derive(Clone, Debug)]
pub struct StaticSystemInfo {
    pub cpu_brand: String,
    pub physical_cores: u32,
    pub total_processor: u32,
    pub hyperthreading_enabled: bool,
    pub gpu: String,
    pub gpu_brand: String,
    pub gpu_memory_as_mb: u64,
    pub gpu_temperatuer_celsius: u32,
}

/// Where the GPU's usage is read from.
#[derive(Clone, Copy, Debug, PartialEq, Eq, Structural)]
pub enum GpuVendor {
    /// Through the NVIDIA management library.
    Nvidia,
    /// Through the kernel's `gpu_busy_percent` files.
    Amd,
    /// Not read; reported as zero.
    Other,
}

/// The vendor of a GPU whose name, in lower case, is `lower`.
pub open spec fn vendor_of_lowercase(lower: Seq<char>) -> GpuVendor {
    if has_substring(lower, "nvidia"@) {
        GpuVendor::Nvidia
    } else if has_substring(lower, "amd"@) || has_substring(lower, "radeon"@) {
        GpuVendor::Amd
    } else {
        GpuVendor::Other
    }
}

/// The vendor of a GPU whose name, already in lower case, is `lower`.
pub fn vendor_from_lowercase(lower: &str) -> (r: GpuVendor)
    ensures
        r == vendor_of_lowercase(lower@),
{
    let l = chars_of(lower);
    if vec_contains(&l, &chars_of("nvidia")) {
        GpuVendor::Nvidia
    } else if vec_contains(&l, &chars_of("amd")) || vec_contains(&l, &chars_of("radeon")) {
        GpuVendor::Amd
    } else {
        GpuVendor::Other
    }
}

/// The vendor follows the vendor words of the lower-case name: "nvidia"
/// means NVIDIA; otherwise "amd" or "radeon" means AMD; otherwise another
/// vendor.
pub proof fn lemma_vendor_words(lower: Seq<char>)
    ensures
        has_substring(lower, "nvidia"@) ==> vendor_of_lowercase(lower) == GpuVendor::Nvidia,
        !has_substring(lower, "nvidia"@) && (has_substring(lower, "amd"@) || has_substring(
            lower,
            "radeon"@,
        )) ==> vendor_of_lowercase(lower) == GpuVendor::Amd,
        !has_substring(lower, "nvidia"@) && !has_substring(lower, "amd"@) && !has_substring(
            lower,
            "radeon"@,
        ) ==> vendor_of_lowercase(lower) == GpuVendor::Other,
{
}

impl StaticSystemInfo {
    /// The vendor of this machine's GPU, judged from its name in lower case.
    pub fn gpu_vendor(&self) -> (r: GpuVendor)
        ensures
            r == vendor_of_lowercase(lowercase_of(self.gpu@)),
    {
        let lower = to_lowercase(self.gpu.as_str());
        vendor_from_lowercase(lower.as_str())
    }
}

} // verus!
