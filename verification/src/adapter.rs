//! Adapter descriptions and the scoring that picks the GPU to render with:
//! hardware GPUs over software renderers, NVIDIA, AMD and Intel Arc by
//! vendor or name, and Vulkan over DX12 over OpenGL/Metal.
use vstd::prelude::*;
use crate::text::{has_substring, lowercase, str_contains, to_lowercase};

verus! {

pub const VENDOR_NVIDIA: u32 = 0x10DE;
pub const VENDOR_AMD: u32 = 0x1002;
pub const VENDOR_INTEL: u32 = 0x8086;
pub const VENDOR_APPLE: u32 = 0x106B;

/// Kind of device an adapter drives.
#[derive(Debug, Clone, Copy, PartialEq, Eq, Structural)]
pub enum GpuDeviceType {
    Other,
    IntegratedGpu,
    DiscreteGpu,
    VirtualGpu,
    Cpu,
}

/// Graphics API an adapter is reached through.
#[derive(Debug, Clone, Copy, PartialEq, Eq, Structural)]
pub enum GpuBackend {
    Empty,
    Vulkan,
    Metal,
    Dx12,
    Gl,
    BrowserWebGpu,
}

/// What the selection reads of one enumerated adapter.
#[derive(Debug, Clone)]
pub struct AdapterCandidate {
    pub name: String,
    pub vendor: u32,
    pub device_type: GpuDeviceType,
    pub backend: GpuBackend,
    pub surface_compatible: bool,
}

/// Bonus by kind of device: hardware GPUs far above software renderers.
pub open spec fn device_bonus(device_type: GpuDeviceType) -> int {
    match device_type {
        GpuDeviceType::DiscreteGpu => 1000,
        GpuDeviceType::IntegratedGpu => 500,
        GpuDeviceType::VirtualGpu => 100,
        GpuDeviceType::Other => 50,
        GpuDeviceType::Cpu => -1000,
    }
}

/// Bonus of NVIDIA GPUs, more for RTX and most for the RTX 40 series.
pub open spec fn nvidia_bonus(n: Seq<char>, vendor: u32) -> int {
    if vendor == VENDOR_NVIDIA || has_substring(n, "nvidia"@) {
        500 + if has_substring(n, "rtx 40"@) {
            200int
        } else if has_substring(n, "rtx"@) {
            100int
        } else {
            0int
        }
    } else {
        0
    }
}

/// Bonus of AMD GPUs and of Intel Arc GPUs.
pub open spec fn amd_arc_bonus(n: Seq<char>, vendor: u32) -> int {
    (if vendor == VENDOR_AMD || has_substring(n, "amd"@) || has_substring(n, "radeon"@) {
        300int
    } else {
        0int
    }) + (if (vendor == VENDOR_INTEL || has_substring(n, "intel"@)) && has_substring(n, "arc"@) {
        200int
    } else {
        0int
    })
}

/// Penalty of software renderers, by name or kind.
pub open spec fn software_penalty(n: Seq<char>, device_type: GpuDeviceType) -> int {
    if has_substring(n, "llvmpipe"@) || has_substring(n, "software"@) || has_substring(n, "swiftshader"@)
        || device_type == GpuDeviceType::Cpu {
        -2000
    } else {
        0
    }
}

/// Bonus by API: Vulkan, then DX12, then OpenGL and Metal.
pub open spec fn backend_bonus(backend: GpuBackend) -> int {
    match backend {
        GpuBackend::Vulkan => 20,
        GpuBackend::Dx12 => 15,
        GpuBackend::Gl => 10,
        GpuBackend::Metal => 10,
        _ => 0,
    }
}

/// Score of an adapter whose lower-cased name is `n`; `None` when it is
/// skipped (not surface compatible and not an NVIDIA GPU). Surface
/// incompatible NVIDIA GPUs lose 500.
pub open spec fn adapter_score_of(
    n: Seq<char>,
    vendor: u32,
    device_type: GpuDeviceType,
    backend: GpuBackend,
    surface_compatible: bool,
) -> Option<i32> {
    if !surface_compatible && !(has_substring(n, "nvidia"@) || vendor == VENDOR_NVIDIA) {
        None
    } else {
        let compat: int = if surface_compatible { 0 } else { -500 };
        Some((compat + device_bonus(device_type) + nvidia_bonus(n, vendor) + amd_arc_bonus(n, vendor)
            + software_penalty(n, device_type) + backend_bonus(backend)) as i32)
    }
}

/// Score of a candidate, by its lower-cased name.
pub open spec fn candidate_score(c: AdapterCandidate) -> Option<i32> {
    adapter_score_of(lowercase(c.name@), c.vendor, c.device_type, c.backend, c.surface_compatible)
}

/// `i` holds the first of the highest scores, and that score beats -1.
pub open spec fn is_best_score(scores: Seq<Option<i32>>, i: int) -> bool {
    &&& 0 <= i < scores.len()
    &&& scores[i] matches Some(s) && s > -1
    &&& forall|j: int| 0 <= j < i ==> (#[trigger] scores[j] matches Some(t) ==> t < scores[i]->0)
    &&& forall|j: int| 0 <= j < scores.len() ==> (#[trigger] scores[j] matches Some(t) ==> t <= scores[i]->0)
}

/// No score beats -1.
pub open spec fn no_usable_score(scores: Seq<Option<i32>>) -> bool {
    forall|j: int| 0 <= j < scores.len() ==> (#[trigger] scores[j] matches Some(t) ==> t <= -1)
}

fn nvidia_points(name_lower: &str, vendor: u32) -> (r: i32)
    ensures
        r == nvidia_bonus(name_lower@, vendor),
{
    if vendor == VENDOR_NVIDIA || str_contains(name_lower, "nvidia") {
        if str_contains(name_lower, "rtx 40") {
            700
        } else if str_contains(name_lower, "rtx") {
            600
        } else {
            500
        }
    } else {
        0
    }
}

fn amd_arc_points(name_lower: &str, vendor: u32) -> (r: i32)
    ensures
        r == amd_arc_bonus(name_lower@, vendor),
{
    let amd: i32 = if vendor == VENDOR_AMD || str_contains(name_lower, "amd") || str_contains(name_lower, "radeon") {
        300
    } else {
        0
    };
    let arc: i32 = if (vendor == VENDOR_INTEL || str_contains(name_lower, "intel")) && str_contains(name_lower, "arc") {
        200
    } else {
        0
    };
    amd + arc
}

fn software_points(name_lower: &str, device_type: GpuDeviceType) -> (r: i32)
    ensures
        r == software_penalty(name_lower@, device_type),
{
    if str_contains(name_lower, "llvmpipe") || str_contains(name_lower, "software") || str_contains(
        name_lower,
        "swiftshader",
    ) || device_type == GpuDeviceType::Cpu {
        -2000
    } else {
        0
    }
}

/// Scores an adapter from its lower-cased name and what else it reports.
pub fn adapter_score(
    name_lower: &str,
    vendor: u32,
    device_type: GpuDeviceType,
    backend: GpuBackend,
    surface_compatible: bool,
) -> (r: Option<i32>)
    ensures
        r == adapter_score_of(name_lower@, vendor, device_type, backend, surface_compatible),
{
    let nvidia_named = str_contains(name_lower, "nvidia");
    if !surface_compatible && !(nvidia_named || vendor == VENDOR_NVIDIA) {
        return None;
    }
    let compat: i32 = if surface_compatible { 0 } else { -500 };
    let kind: i32 = match device_type {
        GpuDeviceType::DiscreteGpu => 1000,
        GpuDeviceType::IntegratedGpu => 500,
        GpuDeviceType::VirtualGpu => 100,
        GpuDeviceType::Other => 50,
        GpuDeviceType::Cpu => -1000,
    };
    let api: i32 = match backend {
        GpuBackend::Vulkan => 20,
        GpuBackend::Dx12 => 15,
        GpuBackend::Gl => 10,
        GpuBackend::Metal => 10,
        _ => 0,
    };
    let nv = nvidia_points(name_lower, vendor);
    let aa = amd_arc_points(name_lower, vendor);
    let sw = software_points(name_lower, device_type);
    Some(compat + kind + nv + aa + sw + api)
}

/// Index of the first highest score above -1, if any.
pub fn select_best_score(scores: &Vec<Option<i32>>) -> (r: Option<usize>)
    ensures
        r matches Some(i) ==> is_best_score(scores@, i as int),
        r is None <==> no_usable_score(scores@),
{
    let mut best: Option<usize> = None;
    let mut best_score: i32 = -1;
    let mut k: usize = 0;
    while k < scores.len()
        invariant
            k <= scores@.len(),
            best is None ==> best_score == -1 && no_usable_score(scores@.take(k as int)),
            best matches Some(i) ==> i < k && is_best_score(scores@.take(k as int), i as int) && scores@[i as int]
                == Some(best_score),
        decreases scores@.len() - k,
    {
        let ghost prev = scores@.take(k as int);
        let ghost next = scores@.take(k + 1);
        proof {
            assert(next =~= prev.push(scores@[k as int]));
        }
        match scores[k] {
            Some(s) => {
                if s > best_score {
                    best = Some(k);
                    best_score = s;
                }
            },
            None => {},
        }
        proof {
            assert forall|j: int| 0 <= j < k implies #[trigger] next[j] == prev[j] by {}
        }
        k = k + 1;
    }
    proof {
        assert(scores@.take(k as int) =~= scores@);
    }
    best
}

/// Picks the adapter to render with: the first with the highest score above
/// -1, with that score; `None` when no adapter qualifies.
pub fn choose_adapter(candidates: &Vec<AdapterCandidate>) -> (r: Option<(usize, i32)>)
    ensures
        ({
            let scores = candidates@.map_values(|c: AdapterCandidate| candidate_score(c));
            &&& r matches Some((i, s)) ==> is_best_score(scores, i as int) && scores[i as int] == Some(s)
            &&& r is None <==> no_usable_score(scores)
        }),
{
    let ghost want = candidates@.map_values(|c: AdapterCandidate| candidate_score(c));
    let mut scores: Vec<Option<i32>> = Vec::new();
    let mut k: usize = 0;
    while k < candidates.len()
        invariant
            k <= candidates@.len(),
            want == candidates@.map_values(|c: AdapterCandidate| candidate_score(c)),
            scores@ == want.take(k as int),
        decreases candidates@.len() - k,
    {
        let c = &candidates[k];
        let lower = to_lowercase(c.name.as_str());
        let s = adapter_score(lower.as_str(), c.vendor, c.device_type, c.backend, c.surface_compatible);
        scores.push(s);
        proof {
            assert(want.take(k + 1) =~= want.take(k as int).push(want[k as int]));
        }
        k = k + 1;
    }
    proof {
        assert(want.take(k as int) =~= want);
    }
    match select_best_score(&scores) {
        Some(i) => {
            let s = scores[i];
            match s {
                Some(v) => Some((i, v)),
                None => None,
            }
        },
        None => None,
    }
}

} // verus!
