use hearth_engine::adapter::{
    adapter_score, choose_adapter, select_best_score, AdapterCandidate, GpuBackend, GpuDeviceType,
};
use hearth_engine::gpu_limits::{
    determine_gpu_tier, gpu_tier_for, optimize_limits_for_voxel_engine, select_limits_for_tier, GpuLimits, GpuTier,
    LimitsBase,
};

fn limits(tex2d: u32, buffer: u64, bind_groups: u32) -> GpuLimits {
    GpuLimits {
        max_texture_dimension_1d: 16384,
        max_texture_dimension_2d: tex2d,
        max_texture_dimension_3d: 2048,
        max_buffer_size: buffer,
        max_vertex_buffers: 16,
        max_bind_groups: bind_groups,
        max_vertex_attributes: 32,
        max_uniform_buffer_binding_size: 65536,
        max_compute_workgroup_size_x: 1024,
    }
}

const GIB: u64 = 1024 * 1024 * 1024;

#[test]
fn tier_of_nvidia_models() {
    let l = limits(32768, 4 * GIB, 8);
    assert_eq!(gpu_tier_for(GpuDeviceType::DiscreteGpu, 0x10DE, "nvidia geforce rtx 4090", &l), GpuTier::HighEnd);
    assert_eq!(gpu_tier_for(GpuDeviceType::DiscreteGpu, 0x10DE, "nvidia geforce rtx 3080", &l), GpuTier::MidRange);
    assert_eq!(gpu_tier_for(GpuDeviceType::DiscreteGpu, 0x10DE, "nvidia geforce rtx 2060", &l), GpuTier::Entry);
    assert_eq!(gpu_tier_for(GpuDeviceType::DiscreteGpu, 0, "geforce gtx 1660", &l), GpuTier::Entry);
    assert_eq!(gpu_tier_for(GpuDeviceType::DiscreteGpu, 0x10DE, "quadro", &l), GpuTier::MidRange);
    let small = limits(8192, GIB, 4);
    assert_eq!(gpu_tier_for(GpuDeviceType::DiscreteGpu, 0x10DE, "quadro", &small), GpuTier::LowEnd);
}

#[test]
fn tier_of_rtx_4060_ti_depends_on_textures() {
    let big = limits(32768, 4 * GIB, 8);
    assert_eq!(gpu_tier_for(GpuDeviceType::DiscreteGpu, 0x10DE, "rtx 4060 ti", &big), GpuTier::HighEnd);
    let small = limits(8192, GIB, 4);
    assert_eq!(gpu_tier_for(GpuDeviceType::DiscreteGpu, 0x10DE, "rtx 4060 ti", &small), GpuTier::MidRange);
}

#[test]
fn rtx_4060_is_mid_range_and_4070_high_end() {
    let l = limits(32768, 4 * GIB, 8);
    assert_eq!(determine_gpu_tier(GpuDeviceType::DiscreteGpu, 0x10DE, "NVIDIA GeForce RTX 4060", &l), GpuTier::MidRange);
    assert_eq!(gpu_tier_for(GpuDeviceType::DiscreteGpu, 0x10DE, "nvidia geforce rtx 4070", &l), GpuTier::HighEnd);
    assert_eq!(gpu_tier_for(GpuDeviceType::DiscreteGpu, 0x10DE, "nvidia geforce rtx 3080", &l), GpuTier::MidRange);
}

#[test]
fn tier_of_other_vendors() {
    let l = limits(16384, 4 * GIB, 8);
    assert_eq!(gpu_tier_for(GpuDeviceType::DiscreteGpu, 0x1002, "amd radeon rx 7900 xtx", &l), GpuTier::HighEnd);
    assert_eq!(gpu_tier_for(GpuDeviceType::DiscreteGpu, 0x1002, "amd radeon rx 7600", &l), GpuTier::MidRange);
    assert_eq!(gpu_tier_for(GpuDeviceType::DiscreteGpu, 0x1002, "amd radeon rx 580", &l), GpuTier::Entry);
    assert_eq!(gpu_tier_for(GpuDeviceType::IntegratedGpu, 0x1002, "amd radeon graphics", &l), GpuTier::LowEnd);
    assert_eq!(gpu_tier_for(GpuDeviceType::DiscreteGpu, 0x8086, "intel arc a770", &l), GpuTier::MidRange);
    assert_eq!(gpu_tier_for(GpuDeviceType::DiscreteGpu, 0x8086, "intel arc a380", &l), GpuTier::Entry);
    assert_eq!(gpu_tier_for(GpuDeviceType::IntegratedGpu, 0x8086, "intel iris xe graphics", &l), GpuTier::LowEnd);
    assert_eq!(gpu_tier_for(GpuDeviceType::IntegratedGpu, 0x8086, "intel uhd graphics 620", &l), GpuTier::Fallback);
    assert_eq!(gpu_tier_for(GpuDeviceType::IntegratedGpu, 0x106B, "apple m2 max", &l), GpuTier::HighEnd);
    assert_eq!(gpu_tier_for(GpuDeviceType::IntegratedGpu, 0x106B, "apple m1", &l), GpuTier::MidRange);
    assert_eq!(gpu_tier_for(GpuDeviceType::IntegratedGpu, 0x106B, "apple gpu", &l), GpuTier::Entry);
}

#[test]
fn tier_of_unknown_and_software() {
    assert_eq!(gpu_tier_for(GpuDeviceType::Cpu, 0x10DE, "rtx 4090", &limits(32768, 4 * GIB, 8)), GpuTier::Fallback);
    assert_eq!(gpu_tier_for(GpuDeviceType::Other, 0x1234, "mystery", &limits(16384, 2 * GIB, 8)), GpuTier::MidRange);
    assert_eq!(gpu_tier_for(GpuDeviceType::Other, 0x1234, "mystery", &limits(8192, GIB / 2, 4)), GpuTier::Entry);
    assert_eq!(gpu_tier_for(GpuDeviceType::Other, 0x1234, "mystery", &limits(4096, GIB / 2, 4)), GpuTier::LowEnd);
}

#[test]
fn determine_gpu_tier_compares_names_in_lower_case() {
    let l = limits(32768, 4 * GIB, 8);
    assert_eq!(determine_gpu_tier(GpuDeviceType::DiscreteGpu, 0, "NVIDIA GeForce RTX 4090", &l), GpuTier::HighEnd);
    assert_eq!(determine_gpu_tier(GpuDeviceType::DiscreteGpu, 0, "AMD Radeon RX 6800", &l), GpuTier::HighEnd);
}

#[test]
fn limits_for_each_tier() {
    let hw = limits(16384, 4 * GIB, 8);
    let high = select_limits_for_tier(GpuTier::HighEnd, &hw);
    assert_eq!(high.base, LimitsBase::Default);
    assert_eq!(high.limits.max_texture_dimension_2d, 8192);
    assert_eq!(high.limits.max_buffer_size, 256 * 1024 * 1024);
    assert_eq!(high.limits.max_bind_groups, 4);
    let mid = select_limits_for_tier(GpuTier::MidRange, &hw);
    assert_eq!(mid.base, LimitsBase::Downlevel);
    assert_eq!(mid.limits.max_texture_dimension_2d, 8192);
    assert_eq!(mid.limits.max_buffer_size, GIB);
    assert_eq!(mid.limits.max_texture_dimension_3d, 256);
    let entry = select_limits_for_tier(GpuTier::Entry, &hw);
    assert_eq!(entry.limits.max_texture_dimension_2d, 4096);
    assert_eq!(entry.limits.max_uniform_buffer_binding_size, 16384);
    let low = select_limits_for_tier(GpuTier::LowEnd, &hw);
    assert_eq!(low.base, LimitsBase::DownlevelWebgl2);
    assert_eq!(low.limits.max_texture_dimension_2d, 4096);
    assert_eq!(low.limits.max_compute_workgroup_size_x, 0);
    let weak = limits(2048, 128 * 1024 * 1024, 4);
    let clamped = select_limits_for_tier(GpuTier::HighEnd, &weak);
    assert_eq!(clamped.limits.max_texture_dimension_2d, 2048);
    assert_eq!(clamped.limits.max_buffer_size, 128 * 1024 * 1024);
}

#[test]
fn voxel_engine_adjustments() {
    let hw = limits(16384, 4 * GIB, 8);
    let mut l = select_limits_for_tier(GpuTier::HighEnd, &hw).limits;
    optimize_limits_for_voxel_engine(&mut l, &hw, GpuTier::HighEnd);
    assert_eq!(l.max_texture_dimension_2d, 8192);
    assert_eq!(l.max_texture_dimension_3d, 512);
    assert_eq!(l.max_buffer_size, 2 * GIB);
    assert_eq!(l.max_uniform_buffer_binding_size, 65536);
    let mut e = select_limits_for_tier(GpuTier::Entry, &hw).limits;
    optimize_limits_for_voxel_engine(&mut e, &hw, GpuTier::Entry);
    assert_eq!(e.max_texture_dimension_2d, 4096);
    assert_eq!(e.max_buffer_size, 256 * 1024 * 1024);
    assert_eq!(e.max_uniform_buffer_binding_size, 16384);
}

#[test]
fn adapter_scores() {
    assert_eq!(adapter_score("nvidia geforce rtx 4090", 0x10DE, GpuDeviceType::DiscreteGpu, GpuBackend::Vulkan, true), Some(1720));
    assert_eq!(adapter_score("llvmpipe", 0, GpuDeviceType::Cpu, GpuBackend::Vulkan, true), Some(-2980));
    assert_eq!(adapter_score("intel arc a770", 0x8086, GpuDeviceType::DiscreteGpu, GpuBackend::Dx12, true), Some(1215));
    assert_eq!(adapter_score("amd radeon", 0, GpuDeviceType::IntegratedGpu, GpuBackend::Gl, false), None);
    assert_eq!(adapter_score("nvidia rtx 3080", 0, GpuDeviceType::DiscreteGpu, GpuBackend::Metal, false), Some(1110));
}

#[test]
fn best_adapter_is_first_highest_above_minus_one() {
    assert_eq!(select_best_score(&vec![Some(-5), None, Some(10), Some(10), Some(3)]), Some(2));
    assert_eq!(select_best_score(&vec![Some(-1), None]), None);
    assert_eq!(select_best_score(&vec![]), None);
    let candidates = vec![
        AdapterCandidate {
            name: "llvmpipe (LLVM 15.0.7, 256 bits)".to_string(),
            vendor: 0x10005,
            device_type: GpuDeviceType::Cpu,
            backend: GpuBackend::Vulkan,
            surface_compatible: true,
        },
        AdapterCandidate {
            name: "NVIDIA GeForce RTX 4070".to_string(),
            vendor: 0x10DE,
            device_type: GpuDeviceType::DiscreteGpu,
            backend: GpuBackend::Vulkan,
            surface_compatible: true,
        },
    ];
    assert_eq!(choose_adapter(&candidates), Some((1, 1720)));
    assert_eq!(choose_adapter(&candidates[..1].to_vec()), None);
}
