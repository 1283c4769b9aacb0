//! GPU tier detection and the device limits requested for each tier.
use vstd::prelude::*;
use crate::adapter::{GpuDeviceType, VENDOR_AMD, VENDOR_APPLE, VENDOR_INTEL, VENDOR_NVIDIA};
use crate::text::{has_substring, lowercase, str_contains, to_lowercase};

verus! {

/// Clamps a requested texture size to the device maximum; the flag says
/// whether either side had to shrink.
pub fn validate_texture_dimensions(
    requested_width: u32,
    requested_height: u32,
    max_dimension: u32,
) -> (res: (u32, u32, bool))
    ensures
        res.0 == (if requested_width <= max_dimension { requested_width } else { max_dimension }),
        res.1 == (if requested_height <= max_dimension { requested_height } else { max_dimension }),
        res.2 == (requested_width > max_dimension || requested_height > max_dimension),
{
    let clamped_width = if requested_width < max_dimension { requested_width } else { max_dimension };
    let clamped_height = if requested_height < max_dimension { requested_height } else { max_dimension };
    let was_clamped = clamped_width != requested_width || clamped_height != requested_height;
    (clamped_width, clamped_height, was_clamped)
}

/// Performance class of a GPU, from its vendor, model name and limits.
#[derive(Debug, Clone, Copy, PartialEq, Eq, Structural)]
pub enum GpuTier {
    /// High-end modern GPUs (RTX 4070+, RX 7800+, etc)
    HighEnd,
    /// Mid-range modern GPUs (RTX 4060, RX 7600, etc)
    MidRange,
    /// Entry-level or older GPUs
    Entry,
    /// Integrated graphics or very old GPUs
    LowEnd,
    /// Software renderer or unknown
    Fallback,
}

/// The device limits the engine reads and adjusts.
#[derive(Debug, Clone, Copy, PartialEq, Eq, Structural)]
pub struct GpuLimits {
    pub max_texture_dimension_1d: u32,
    pub max_texture_dimension_2d: u32,
    pub max_texture_dimension_3d: u32,
    pub max_buffer_size: u64,
    pub max_vertex_buffers: u32,
    pub max_bind_groups: u32,
    pub max_vertex_attributes: u32,
    pub max_uniform_buffer_binding_size: u32,
    pub max_compute_workgroup_size_x: u32,
}

/// Which of wgpu's limit profiles the other limits of a request come from.
#[derive(Debug, Clone, Copy, PartialEq, Eq, Structural)]
pub enum LimitsBase {
    Default,
    Downlevel,
    DownlevelWebgl2,
}

/// Limits to request from a device: a wgpu profile with these fields set.
#[derive(Debug, Clone, Copy, PartialEq, Eq, Structural)]
pub struct RequestedLimits {
    pub base: LimitsBase,
    pub limits: GpuLimits,
}

pub const MIB: u64 = 1024 * 1024;

/// The fields of `wgpu::Limits::default()`.
pub open spec fn wgpu_default_limits() -> GpuLimits {
    GpuLimits {
        max_texture_dimension_1d: 8192,
        max_texture_dimension_2d: 8192,
        max_texture_dimension_3d: 2048,
        max_buffer_size: (256 * MIB) as u64,
        max_vertex_buffers: 8,
        max_bind_groups: 4,
        max_vertex_attributes: 16,
        max_uniform_buffer_binding_size: 65536,
        max_compute_workgroup_size_x: 256,
    }
}

/// The fields of `wgpu::Limits::downlevel_defaults()`.
pub open spec fn wgpu_downlevel_limits() -> GpuLimits {
    GpuLimits {
        max_texture_dimension_1d: 2048,
        max_texture_dimension_2d: 2048,
        max_texture_dimension_3d: 256,
        max_uniform_buffer_binding_size: 16384,
        ..wgpu_default_limits()
    }
}

/// The fields of `wgpu::Limits::downlevel_webgl2_defaults()`.
pub open spec fn wgpu_webgl2_limits() -> GpuLimits {
    GpuLimits { max_compute_workgroup_size_x: 0, ..wgpu_downlevel_limits() }
}

/// `wgpu::Limits::default()`, read into the fields the engine adjusts; the
/// values are those that wgpu-types' `Limits::defaults` sets.
#[verifier::external_body]
fn default_limits() -> (l: GpuLimits)
    ensures
        l == wgpu_default_limits(),
{
    let w = wgpu::Limits::default();
    GpuLimits {
        max_texture_dimension_1d: w.max_texture_dimension_1d,
        max_texture_dimension_2d: w.max_texture_dimension_2d,
        max_texture_dimension_3d: w.max_texture_dimension_3d,
        max_buffer_size: w.max_buffer_size,
        max_vertex_buffers: w.max_vertex_buffers,
        max_bind_groups: w.max_bind_groups,
        max_vertex_attributes: w.max_vertex_attributes,
        max_uniform_buffer_binding_size: w.max_uniform_buffer_binding_size,
        max_compute_workgroup_size_x: w.max_compute_workgroup_size_x,
    }
}

/// `wgpu::Limits::downlevel_defaults()`, read into the fields the engine
/// adjusts: the defaults with 2048 for 1D/2D and 256 for 3D textures and a
/// 16 KiB uniform binding.
#[verifier::external_body]
fn downlevel_limits() -> (l: GpuLimits)
    ensures
        l == wgpu_downlevel_limits(),
{
    let w = wgpu::Limits::downlevel_defaults();
    GpuLimits {
        max_texture_dimension_1d: w.max_texture_dimension_1d,
        max_texture_dimension_2d: w.max_texture_dimension_2d,
        max_texture_dimension_3d: w.max_texture_dimension_3d,
        max_buffer_size: w.max_buffer_size,
        max_vertex_buffers: w.max_vertex_buffers,
        max_bind_groups: w.max_bind_groups,
        max_vertex_attributes: w.max_vertex_attributes,
        max_uniform_buffer_binding_size: w.max_uniform_buffer_binding_size,
        max_compute_workgroup_size_x: w.max_compute_workgroup_size_x,
    }
}

/// `wgpu::Limits::downlevel_webgl2_defaults()`, read into the fields the
/// engine adjusts: the downlevel values with no compute workgroups.
#[verifier::external_body]
fn webgl2_limits() -> (l: GpuLimits)
    ensures
        l == wgpu_webgl2_limits(),
{
    let w = wgpu::Limits::downlevel_webgl2_defaults();
    GpuLimits {
        max_texture_dimension_1d: w.max_texture_dimension_1d,
        max_texture_dimension_2d: w.max_texture_dimension_2d,
        max_texture_dimension_3d: w.max_texture_dimension_3d,
        max_buffer_size: w.max_buffer_size,
        max_vertex_buffers: w.max_vertex_buffers,
        max_bind_groups: w.max_bind_groups,
        max_vertex_attributes: w.max_vertex_attributes,
        max_uniform_buffer_binding_size: w.max_uniform_buffer_binding_size,
        max_compute_workgroup_size_x: w.max_compute_workgroup_size_x,
    }
}

pub open spec fn name_has(n: Seq<char>, pat: Seq<char>) -> bool {
    has_substring(n, pat)
}

/// Tier of an NVIDIA GPU by model name: the RTX 4070 and up are high-end; the
/// RTX 4060 and the RTX 30 series are mid-range, except an RTX 4060 Ti with
/// 16K textures, which is high-end.
pub open spec fn nvidia_tier(n: Seq<char>, high_tex: bool, large_buf: bool) -> GpuTier {
    if name_has(n, "rtx 4070"@) || name_has(n, "rtx 4080"@) || name_has(n, "rtx 4090"@) {
        GpuTier::HighEnd
    } else if name_has(n, "rtx 4060"@) || name_has(n, "rtx 30"@) || name_has(n, "rtx 3070"@) || name_has(
        n,
        "rtx 3080"@,
    ) || name_has(n, "rtx 3090"@) {
        if name_has(n, "rtx 4060 ti"@) && high_tex {
            GpuTier::HighEnd
        } else {
            GpuTier::MidRange
        }
    } else if name_has(n, "rtx"@) || name_has(n, "gtx 16"@) || name_has(n, "gtx 20"@) {
        GpuTier::Entry
    } else if high_tex && large_buf {
        GpuTier::MidRange
    } else {
        GpuTier::LowEnd
    }
}

/// Tier of an AMD GPU by model name.
pub open spec fn amd_tier(n: Seq<char>, high_tex: bool) -> GpuTier {
    if name_has(n, "rx 7900"@) || name_has(n, "rx 7800"@) || name_has(n, "rx 6900"@) || name_has(n, "rx 6800"@) {
        GpuTier::HighEnd
    } else if name_has(n, "rx 7700"@) || name_has(n, "rx 7600"@) || name_has(n, "rx 6700"@) || name_has(n, "rx 6600"@) || name_has(
        n,
        "rx 5700"@,
    ) {
        GpuTier::MidRange
    } else if name_has(n, "rx"@) && high_tex {
        GpuTier::Entry
    } else {
        GpuTier::LowEnd
    }
}

/// Tier of an Intel GPU by model name.
pub open spec fn intel_tier(n: Seq<char>) -> GpuTier {
    if name_has(n, "arc a7"@) || name_has(n, "arc a770"@) {
        GpuTier::MidRange
    } else if name_has(n, "arc"@) {
        GpuTier::Entry
    } else if name_has(n, "iris xe"@) || name_has(n, "iris plus"@) {
        GpuTier::LowEnd
    } else {
        GpuTier::Fallback
    }
}

/// Tier of an Apple GPU by model name.
pub open spec fn apple_tier(n: Seq<char>) -> GpuTier {
    if name_has(n, "m2 pro"@) || name_has(n, "m2 max"@) || name_has(n, "m3 pro"@) || name_has(n, "m3 max"@) || name_has(n, "m1 pro"@)
        || name_has(n, "m1 max"@) {
        GpuTier::HighEnd
    } else if name_has(n, "m1"@) || name_has(n, "m2"@) || name_has(n, "m3"@) {
        GpuTier::MidRange
    } else {
        GpuTier::Entry
    }
}

pub open spec fn is_nvidia(vendor: u32, n: Seq<char>) -> bool {
    vendor == VENDOR_NVIDIA || name_has(n, "nvidia"@) || name_has(n, "geforce"@) || name_has(n, "rtx"@) || name_has(n, "gtx"@)
}

pub open spec fn is_amd(vendor: u32, n: Seq<char>) -> bool {
    vendor == VENDOR_AMD || name_has(n, "amd"@) || name_has(n, "radeon"@) || name_has(n, "rx "@)
}

pub open spec fn is_intel(vendor: u32, n: Seq<char>) -> bool {
    vendor == VENDOR_INTEL || (name_has(n, "intel"@) && !name_has(n, "nvidia"@))
}

pub open spec fn is_apple(vendor: u32, n: Seq<char>) -> bool {
    vendor == VENDOR_APPLE || name_has(n, "apple"@)
}

/// Tier of a GPU of kind `device_type` from vendor `vendor`, with
/// lower-cased name `n` and limits `l`: software renderers are `Fallback`;
/// known vendors go by model name, unknown ones by capabilities.
pub open spec fn gpu_tier_of(device_type: GpuDeviceType, vendor: u32, n: Seq<char>, l: GpuLimits) -> GpuTier {
    let high_tex = l.max_texture_dimension_2d >= 16384;
    let large_buf = l.max_buffer_size >= 2048 * MIB;
    let many_bind_groups = l.max_bind_groups >= 8;
    if device_type == GpuDeviceType::Cpu {
        GpuTier::Fallback
    } else if is_nvidia(vendor, n) {
        nvidia_tier(n, high_tex, large_buf)
    } else if is_amd(vendor, n) {
        amd_tier(n, high_tex)
    } else if is_intel(vendor, n) {
        intel_tier(n)
    } else if is_apple(vendor, n) {
        apple_tier(n)
    } else if high_tex && large_buf && many_bind_groups {
        GpuTier::MidRange
    } else if l.max_texture_dimension_2d >= 8192 && l.max_buffer_size >= 512 * MIB {
        GpuTier::Entry
    } else {
        GpuTier::LowEnd
    }
}

/// A name that holds a pattern holds every prefix of it.
proof fn lemma_name_has_prefix(n: Seq<char>, pat: Seq<char>, pre: Seq<char>)
    requires
        name_has(n, pat),
        pre.len() <= pat.len(),
        forall|k: int| 0 <= k < pre.len() ==> pat[k] == pre[k],
    ensures
        name_has(n, pre),
{
    reveal(has_substring);
    let i = choose|i: int| 0 <= i <= n.len() - pat.len() && #[trigger] n.subrange(i, i + pat.len()) == pat;
    let w = n.subrange(i, i + pat.len());
    assert forall|k: int| 0 <= k < pre.len() implies n.subrange(i, i + pre.len())[k] == pre[k] by {
        assert(w[k] == n[i + k]);
        assert(pat[k] == pre[k]);
    }
    assert(n.subrange(i, i + pre.len()) =~= pre);
    assert(has_substring(n, pre));
}

/// The tiers of NVIDIA's RTX models, for any adapter that is not a CPU
/// renderer, by its lower-cased name: the RTX 4070, 4080 and 4090 are
/// high-end; an RTX 4060 Ti is high-end with 16K textures; an RTX 4060
/// (not a Ti), 3070, 3080 or 3090 is mid-range; any other RTX is entry
/// level.
pub proof fn lemma_nvidia_model_tiers(device_type: GpuDeviceType, vendor: u32, n: Seq<char>, l: GpuLimits)
    requires
        device_type != GpuDeviceType::Cpu,
    ensures
        name_has(n, "rtx 4070"@) ==> gpu_tier_of(device_type, vendor, n, l) == GpuTier::HighEnd,
        name_has(n, "rtx 4080"@) ==> gpu_tier_of(device_type, vendor, n, l) == GpuTier::HighEnd,
        name_has(n, "rtx 4090"@) ==> gpu_tier_of(device_type, vendor, n, l) == GpuTier::HighEnd,
        name_has(n, "rtx 4060 ti"@) && l.max_texture_dimension_2d >= 16384 ==> gpu_tier_of(device_type, vendor, n, l)
            == GpuTier::HighEnd,
        (name_has(n, "rtx 4060"@) || name_has(n, "rtx 3070"@) || name_has(n, "rtx 3080"@) || name_has(n, "rtx 3090"@))
            && !name_has(n, "rtx 4060 ti"@) && !name_has(n, "rtx 4070"@) && !name_has(n, "rtx 4080"@) && !name_has(
            n,
            "rtx 4090"@,
        ) ==> gpu_tier_of(device_type, vendor, n, l) == GpuTier::MidRange,
        name_has(n, "rtx"@) && !name_has(n, "rtx 40"@) && !name_has(n, "rtx 30"@) ==> gpu_tier_of(
            device_type,
            vendor,
            n,
            l,
        ) == GpuTier::Entry,
{
    reveal_strlit("rtx");
    reveal_strlit("rtx 30");
    reveal_strlit("rtx 40");
    reveal_strlit("rtx 4060");
    reveal_strlit("rtx 4060 ti");
    reveal_strlit("rtx 4070");
    reveal_strlit("rtx 4080");
    reveal_strlit("rtx 4090");
    reveal_strlit("rtx 3070");
    reveal_strlit("rtx 3080");
    reveal_strlit("rtx 3090");
    if name_has(n, "rtx 4070"@) {
        lemma_name_has_prefix(n, "rtx 4070"@, "rtx"@);
    }
    if name_has(n, "rtx 4080"@) {
        lemma_name_has_prefix(n, "rtx 4080"@, "rtx"@);
    }
    if name_has(n, "rtx 4090"@) {
        lemma_name_has_prefix(n, "rtx 4090"@, "rtx"@);
    }
    if name_has(n, "rtx 4060 ti"@) {
        lemma_name_has_prefix(n, "rtx 4060 ti"@, "rtx"@);
        lemma_name_has_prefix(n, "rtx 4060 ti"@, "rtx 4060"@);
    }
    if name_has(n, "rtx 4060"@) {
        lemma_name_has_prefix(n, "rtx 4060"@, "rtx"@);
        lemma_name_has_prefix(n, "rtx 4060"@, "rtx 40"@);
    }
    if name_has(n, "rtx 4070"@) {
        lemma_name_has_prefix(n, "rtx 4070"@, "rtx 40"@);
    }
    if name_has(n, "rtx 4080"@) {
        lemma_name_has_prefix(n, "rtx 4080"@, "rtx 40"@);
    }
    if name_has(n, "rtx 4090"@) {
        lemma_name_has_prefix(n, "rtx 4090"@, "rtx 40"@);
    }
    if name_has(n, "rtx 3070"@) {
        lemma_name_has_prefix(n, "rtx 3070"@, "rtx"@);
        lemma_name_has_prefix(n, "rtx 3070"@, "rtx 30"@);
    }
    if name_has(n, "rtx 3080"@) {
        lemma_name_has_prefix(n, "rtx 3080"@, "rtx"@);
        lemma_name_has_prefix(n, "rtx 3080"@, "rtx 30"@);
    }
    if name_has(n, "rtx 3090"@) {
        lemma_name_has_prefix(n, "rtx 3090"@, "rtx"@);
        lemma_name_has_prefix(n, "rtx 3090"@, "rtx 30"@);
    }
}

fn nvidia_tier_exec(n: &str, high_tex: bool, large_buf: bool) -> (t: GpuTier)
    ensures
        t == nvidia_tier(n@, high_tex, large_buf),
{
    if str_contains(n, "rtx 4070") || str_contains(n, "rtx 4080") || str_contains(n, "rtx 4090") {
        GpuTier::HighEnd
    } else if str_contains(n, "rtx 4060") || str_contains(n, "rtx 30")
        || str_contains(n, "rtx 3070") || str_contains(n, "rtx 3080") || str_contains(n, "rtx 3090") {
        if str_contains(n, "rtx 4060 ti") && high_tex {
            GpuTier::HighEnd
        } else {
            GpuTier::MidRange
        }
    } else if str_contains(n, "rtx") || str_contains(n, "gtx 16") || str_contains(n, "gtx 20") {
        GpuTier::Entry
    } else if high_tex && large_buf {
        GpuTier::MidRange
    } else {
        GpuTier::LowEnd
    }
}

fn amd_tier_exec(n: &str, high_tex: bool) -> (t: GpuTier)
    ensures
        t == amd_tier(n@, high_tex),
{
    if str_contains(n, "rx 7900") || str_contains(n, "rx 7800") || str_contains(n, "rx 6900") || str_contains(
        n,
        "rx 6800",
    ) {
        GpuTier::HighEnd
    } else if str_contains(n, "rx 7700") || str_contains(n, "rx 7600") || str_contains(n, "rx 6700")
        || str_contains(n, "rx 6600") || str_contains(n, "rx 5700") {
        GpuTier::MidRange
    } else if str_contains(n, "rx") && high_tex {
        GpuTier::Entry
    } else {
        GpuTier::LowEnd
    }
}

fn intel_tier_exec(n: &str) -> (t: GpuTier)
    ensures
        t == intel_tier(n@),
{
    if str_contains(n, "arc a7") || str_contains(n, "arc a770") {
        GpuTier::MidRange
    } else if str_contains(n, "arc") {
        GpuTier::Entry
    } else if str_contains(n, "iris xe") || str_contains(n, "iris plus") {
        GpuTier::LowEnd
    } else {
        GpuTier::Fallback
    }
}

fn apple_tier_exec(n: &str) -> (t: GpuTier)
    ensures
        t == apple_tier(n@),
{
    if str_contains(n, "m2 pro") || str_contains(n, "m2 max") || str_contains(n, "m3 pro") || str_contains(
        n,
        "m3 max",
    ) || str_contains(n, "m1 pro") || str_contains(n, "m1 max") {
        GpuTier::HighEnd
    } else if str_contains(n, "m1") || str_contains(n, "m2") || str_contains(n, "m3") {
        GpuTier::MidRange
    } else {
        GpuTier::Entry
    }
}

/// Tier of a GPU from its kind, vendor id, lower-cased name and limits.
pub fn gpu_tier_for(device_type: GpuDeviceType, vendor: u32, name_lower: &str, limits: &GpuLimits) -> (t: GpuTier)
    ensures
        t == gpu_tier_of(device_type, vendor, name_lower@, *limits),
{
    if device_type == GpuDeviceType::Cpu {
        return GpuTier::Fallback;
    }
    let high_tex = limits.max_texture_dimension_2d >= 16384;
    let large_buf = limits.max_buffer_size >= 2048 * MIB;
    let many_bind_groups = limits.max_bind_groups >= 8;
    let n = name_lower;
    let nvidia = vendor == VENDOR_NVIDIA || str_contains(n, "nvidia") || str_contains(n, "geforce")
        || str_contains(n, "rtx") || str_contains(n, "gtx");
    if nvidia {
        return nvidia_tier_exec(n, high_tex, large_buf);
    }
    let amd = vendor == VENDOR_AMD || str_contains(n, "amd") || str_contains(n, "radeon") || str_contains(n, "rx ");
    if amd {
        return amd_tier_exec(n, high_tex);
    }
    let intel = vendor == VENDOR_INTEL || (str_contains(n, "intel") && !str_contains(n, "nvidia"));
    if intel {
        return intel_tier_exec(n);
    }
    let apple = vendor == VENDOR_APPLE || str_contains(n, "apple");
    if apple {
        return apple_tier_exec(n);
    }
    if high_tex && large_buf && many_bind_groups {
        GpuTier::MidRange
    } else if limits.max_texture_dimension_2d >= 8192 && limits.max_buffer_size >= 512 * MIB {
        GpuTier::Entry
    } else {
        GpuTier::LowEnd
    }
}

/// Determines the GPU tier from the adapter's kind, vendor, name and limits;
/// the name is compared in lower case.
pub fn determine_gpu_tier(device_type: GpuDeviceType, vendor: u32, name: &str, limits: &GpuLimits) -> (t: GpuTier)
    ensures
        t == gpu_tier_of(device_type, vendor, lowercase(name@), *limits),
{
    let lower = to_lowercase(name);
    gpu_tier_for(device_type, vendor, lower.as_str(), limits)
}

pub open spec fn min_u32(a: u32, b: u32) -> u32 {
    if a <= b { a } else { b }
}

pub open spec fn min_u64(a: u64, b: u64) -> u64 {
    if a <= b { a } else { b }
}

/// The limits requested for a tier on hardware with limits `hw`: wgpu's
/// defaults for high-end GPUs, its downlevel defaults (with 8192 textures
/// and 1 GiB buffers where available) for mid-range GPUs, its downlevel
/// defaults (with 4096 textures where available) for entry GPUs and its
/// WebGL2 defaults (with 4096 textures where available) otherwise, each
/// clamped to the hardware.
pub open spec fn tier_limits(tier: GpuTier, hw: GpuLimits) -> RequestedLimits {
    match tier {
        GpuTier::HighEnd => {
            let d = wgpu_default_limits();
            RequestedLimits {
                base: LimitsBase::Default,
                limits: GpuLimits {
                    max_texture_dimension_1d: min_u32(d.max_texture_dimension_1d, hw.max_texture_dimension_1d),
                    max_texture_dimension_2d: min_u32(d.max_texture_dimension_2d, hw.max_texture_dimension_2d),
                    max_texture_dimension_3d: min_u32(d.max_texture_dimension_3d, hw.max_texture_dimension_3d),
                    max_buffer_size: min_u64(d.max_buffer_size, hw.max_buffer_size),
                    max_vertex_buffers: min_u32(d.max_vertex_buffers, hw.max_vertex_buffers),
                    max_bind_groups: min_u32(d.max_bind_groups, hw.max_bind_groups),
                    max_vertex_attributes: min_u32(d.max_vertex_attributes, hw.max_vertex_attributes),
                    max_uniform_buffer_binding_size: min_u32(
                        d.max_uniform_buffer_binding_size,
                        hw.max_uniform_buffer_binding_size,
                    ),
                    max_compute_workgroup_size_x: d.max_compute_workgroup_size_x,
                },
            }
        },
        GpuTier::MidRange => {
            let d = wgpu_downlevel_limits();
            let tex2d: u32 = if hw.max_texture_dimension_2d >= 8192 { 8192 } else { d.max_texture_dimension_2d };
            let buf: u64 = if hw.max_buffer_size >= 1024 * MIB { (1024 * MIB) as u64 } else { d.max_buffer_size };
            RequestedLimits {
                base: LimitsBase::Downlevel,
                limits: GpuLimits {
                    max_texture_dimension_1d: min_u32(d.max_texture_dimension_1d, hw.max_texture_dimension_1d),
                    max_texture_dimension_2d: min_u32(tex2d, hw.max_texture_dimension_2d),
                    max_texture_dimension_3d: min_u32(d.max_texture_dimension_3d, hw.max_texture_dimension_3d),
                    max_buffer_size: min_u64(buf, hw.max_buffer_size),
                    max_vertex_buffers: min_u32(d.max_vertex_buffers, hw.max_vertex_buffers),
                    max_bind_groups: min_u32(d.max_bind_groups, hw.max_bind_groups),
                    ..d
                },
            }
        },
        GpuTier::Entry => {
            let d = wgpu_downlevel_limits();
            let tex2d: u32 = if hw.max_texture_dimension_2d >= 4096 { 4096 } else { d.max_texture_dimension_2d };
            RequestedLimits {
                base: LimitsBase::Downlevel,
                limits: GpuLimits {
                    max_texture_dimension_1d: min_u32(d.max_texture_dimension_1d, hw.max_texture_dimension_1d),
                    max_texture_dimension_2d: min_u32(tex2d, hw.max_texture_dimension_2d),
                    max_texture_dimension_3d: min_u32(d.max_texture_dimension_3d, hw.max_texture_dimension_3d),
                    max_buffer_size: min_u64(d.max_buffer_size, hw.max_buffer_size),
                    ..d
                },
            }
        },
        _ => {
            let d = wgpu_webgl2_limits();
            let tex2d: u32 = if hw.max_texture_dimension_2d >= 4096 { 4096 } else { d.max_texture_dimension_2d };
            RequestedLimits {
                base: LimitsBase::DownlevelWebgl2,
                limits: GpuLimits {
                    max_texture_dimension_1d: min_u32(d.max_texture_dimension_1d, hw.max_texture_dimension_1d),
                    max_texture_dimension_2d: min_u32(tex2d, hw.max_texture_dimension_2d),
                    max_texture_dimension_3d: min_u32(d.max_texture_dimension_3d, hw.max_texture_dimension_3d),
                    max_buffer_size: min_u64(d.max_buffer_size, hw.max_buffer_size),
                    ..d
                },
            }
        },
    }
}

fn min32(a: u32, b: u32) -> (r: u32)
    ensures
        r == min_u32(a, b),
{
    if a <= b { a } else { b }
}

fn min64(a: u64, b: u64) -> (r: u64)
    ensures
        r == min_u64(a, b),
{
    if a <= b { a } else { b }
}

/// Selects the limits to request for a GPU tier, never above the hardware's.
pub fn select_limits_for_tier(tier: GpuTier, hardware_limits: &GpuLimits) -> (r: RequestedLimits)
    ensures
        r == tier_limits(tier, *hardware_limits),
{
    let hw = hardware_limits;
    match tier {
        GpuTier::HighEnd => {
            let mut l = default_limits();
            l.max_texture_dimension_1d = min32(l.max_texture_dimension_1d, hw.max_texture_dimension_1d);
            l.max_texture_dimension_2d = min32(l.max_texture_dimension_2d, hw.max_texture_dimension_2d);
            l.max_texture_dimension_3d = min32(l.max_texture_dimension_3d, hw.max_texture_dimension_3d);
            l.max_buffer_size = min64(l.max_buffer_size, hw.max_buffer_size);
            l.max_vertex_buffers = min32(l.max_vertex_buffers, hw.max_vertex_buffers);
            l.max_bind_groups = min32(l.max_bind_groups, hw.max_bind_groups);
            l.max_vertex_attributes = min32(l.max_vertex_attributes, hw.max_vertex_attributes);
            l.max_uniform_buffer_binding_size = min32(
                l.max_uniform_buffer_binding_size,
                hw.max_uniform_buffer_binding_size,
            );
            RequestedLimits { base: LimitsBase::Default, limits: l }
        },
        GpuTier::MidRange => {
            let mut l = downlevel_limits();
            if hw.max_texture_dimension_2d >= 8192 {
                l.max_texture_dimension_2d = 8192;
            }
            if hw.max_buffer_size >= 1024 * MIB {
                l.max_buffer_size = 1024 * MIB;
            }
            l.max_texture_dimension_1d = min32(l.max_texture_dimension_1d, hw.max_texture_dimension_1d);
            l.max_texture_dimension_2d = min32(l.max_texture_dimension_2d, hw.max_texture_dimension_2d);
            l.max_texture_dimension_3d = min32(l.max_texture_dimension_3d, hw.max_texture_dimension_3d);
            l.max_buffer_size = min64(l.max_buffer_size, hw.max_buffer_size);
            l.max_vertex_buffers = min32(l.max_vertex_buffers, hw.max_vertex_buffers);
            l.max_bind_groups = min32(l.max_bind_groups, hw.max_bind_groups);
            RequestedLimits { base: LimitsBase::Downlevel, limits: l }
        },
        GpuTier::Entry => {
            let mut l = downlevel_limits();
            if hw.max_texture_dimension_2d >= 4096 {
                l.max_texture_dimension_2d = 4096;
            }
            l.max_texture_dimension_1d = min32(l.max_texture_dimension_1d, hw.max_texture_dimension_1d);
            l.max_texture_dimension_2d = min32(l.max_texture_dimension_2d, hw.max_texture_dimension_2d);
            l.max_texture_dimension_3d = min32(l.max_texture_dimension_3d, hw.max_texture_dimension_3d);
            l.max_buffer_size = min64(l.max_buffer_size, hw.max_buffer_size);
            RequestedLimits { base: LimitsBase::Downlevel, limits: l }
        },
        _ => {
            let mut l = webgl2_limits();
            if hw.max_texture_dimension_2d >= 4096 {
                l.max_texture_dimension_2d = 4096;
            }
            l.max_texture_dimension_1d = min32(l.max_texture_dimension_1d, hw.max_texture_dimension_1d);
            l.max_texture_dimension_2d = min32(l.max_texture_dimension_2d, hw.max_texture_dimension_2d);
            l.max_texture_dimension_3d = min32(l.max_texture_dimension_3d, hw.max_texture_dimension_3d);
            l.max_buffer_size = min64(l.max_buffer_size, hw.max_buffer_size);
            RequestedLimits { base: LimitsBase::DownlevelWebgl2, limits: l }
        },
    }
}

/// The limits after the voxel engine's adjustments: texture atlases of 8192
/// (else 4096) on high-end and mid-range GPUs and 512 3D textures where the
/// hardware has them, 4096 atlases elsewhere where available; 2 GiB buffers
/// on high-end and 1 GiB on mid-range GPUs where available, at least
/// 256 MiB elsewhere where available; 64 KiB uniform bindings on high-end
/// and mid-range GPUs where available.
pub open spec fn voxel_limits(l: GpuLimits, hw: GpuLimits, tier: GpuTier) -> GpuLimits {
    let modern = tier == GpuTier::HighEnd || tier == GpuTier::MidRange;
    let tex2d: u32 = if modern {
        if hw.max_texture_dimension_2d >= 8192 {
            8192
        } else if hw.max_texture_dimension_2d >= 4096 {
            4096
        } else {
            l.max_texture_dimension_2d
        }
    } else if hw.max_texture_dimension_2d >= 4096 {
        4096
    } else {
        l.max_texture_dimension_2d
    };
    let tex3d: u32 = if modern && hw.max_texture_dimension_3d >= 512 { 512 } else { l.max_texture_dimension_3d };
    let buf: u64 = match tier {
        GpuTier::HighEnd => if hw.max_buffer_size >= 2048 * MIB { (2048 * MIB) as u64 } else { l.max_buffer_size },
        GpuTier::MidRange => if hw.max_buffer_size >= 1024 * MIB { (1024 * MIB) as u64 } else { l.max_buffer_size },
        _ => if hw.max_buffer_size >= 256 * MIB {
            if l.max_buffer_size >= 256 * MIB { l.max_buffer_size } else { (256 * MIB) as u64 }
        } else {
            l.max_buffer_size
        },
    };
    let uniform: u32 = if modern && hw.max_uniform_buffer_binding_size >= 65536 {
        65536
    } else {
        l.max_uniform_buffer_binding_size
    };
    GpuLimits {
        max_texture_dimension_2d: tex2d,
        max_texture_dimension_3d: tex3d,
        max_buffer_size: buf,
        max_uniform_buffer_binding_size: uniform,
        ..l
    }
}

/// Adjusts requested limits to the voxel engine's texture, buffer and
/// uniform needs, as far as the hardware allows.
pub fn optimize_limits_for_voxel_engine(limits: &mut GpuLimits, hardware_limits: &GpuLimits, tier: GpuTier)
    ensures
        *final(limits) == voxel_limits(*old(limits), *hardware_limits, tier),
{
    let hw = hardware_limits;
    match tier {
        GpuTier::HighEnd | GpuTier::MidRange => {
            if hw.max_texture_dimension_2d >= 8192 {
                limits.max_texture_dimension_2d = 8192;
            } else if hw.max_texture_dimension_2d >= 4096 {
                limits.max_texture_dimension_2d = 4096;
            }
            if hw.max_texture_dimension_3d >= 512 {
                limits.max_texture_dimension_3d = 512;
            }
        },
        _ => {
            if hw.max_texture_dimension_2d >= 4096 {
                limits.max_texture_dimension_2d = 4096;
            }
        },
    }
    match tier {
        GpuTier::HighEnd => {
            if hw.max_buffer_size >= 2048 * MIB {
                limits.max_buffer_size = 2048 * MIB;
            }
        },
        GpuTier::MidRange => {
            if hw.max_buffer_size >= 1024 * MIB {
                limits.max_buffer_size = 1024 * MIB;
            }
        },
        _ => {
            let min_buffer_size: u64 = 256 * MIB;
            if hw.max_buffer_size >= min_buffer_size {
                if limits.max_buffer_size < min_buffer_size {
                    limits.max_buffer_size = min_buffer_size;
                }
            }
        },
    }
    if tier == GpuTier::HighEnd || tier == GpuTier::MidRange {
        if hw.max_uniform_buffer_binding_size >= 65536 {
            limits.max_uniform_buffer_binding_size = 65536;
        }
    }
}

/// The texture and buffer limits requested for a tier, after the voxel
/// engine's adjustments, never exceed what the hardware offers.
pub proof fn lemma_requested_limits_within_hardware(tier: GpuTier, hw: GpuLimits)
    ensures
        ({
            let l = voxel_limits(tier_limits(tier, hw).limits, hw, tier);
            &&& l.max_texture_dimension_1d <= hw.max_texture_dimension_1d
            &&& l.max_texture_dimension_2d <= hw.max_texture_dimension_2d
            &&& l.max_texture_dimension_3d <= hw.max_texture_dimension_3d
            &&& l.max_buffer_size <= hw.max_buffer_size
        }),
{
}

} // verus!
