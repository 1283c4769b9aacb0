use hearth_engine::adapter::{GpuBackend, GpuDeviceType};
use hearth_engine::gpu_limits::LimitsBase;
use hearth_engine::gpu_recovery::{
    recovery_decision, FallbackSettings, GpuHealthMonitor, GpuRecovery, PowerPreference, TextureQuality,
};

#[test]
fn adapter_recovery_order() {
    let plans = GpuRecovery::adapter_recovery_plans();
    assert_eq!(plans.len(), 5);
    assert_eq!(plans[0].power_preference, PowerPreference::LowPower);
    assert_eq!(plans[1].power_preference, PowerPreference::HighPerformance);
    assert_eq!(plans[2].power_preference, PowerPreference::NoPreference);
    assert!(plans[..3].iter().all(|p| p.with_surface && !p.force_fallback_adapter));
    assert!(!plans[3].with_surface);
    assert!(plans[4].with_surface && plans[4].force_fallback_adapter);
    assert_eq!(GpuRecovery::device_recovery_limits(), vec![LimitsBase::Downlevel, LimitsBase::DownlevelWebgl2]);
}

#[test]
fn fallback_rendering_conditions() {
    assert!(GpuRecovery::can_use_fallback_rendering(GpuDeviceType::Cpu, GpuBackend::Vulkan, false));
    assert!(GpuRecovery::can_use_fallback_rendering(GpuDeviceType::DiscreteGpu, GpuBackend::Gl, true));
    assert!(!GpuRecovery::can_use_fallback_rendering(GpuDeviceType::DiscreteGpu, GpuBackend::Gl, false));
    assert!(!GpuRecovery::can_use_fallback_rendering(GpuDeviceType::IntegratedGpu, GpuBackend::Vulkan, true));
}

#[test]
fn fallback_settings_by_device() {
    let d = FallbackSettings::default();
    assert_eq!((d.chunk_size, d.render_distance, d.max_chunks_per_frame), (32, 8, 8));
    assert_eq!(d.texture_quality, TextureQuality::High);
    let big = 1u64 << 30;
    let cpu = GpuRecovery::get_fallback_settings(GpuDeviceType::Cpu, big, 8192);
    assert_eq!((cpu.chunk_size, cpu.render_distance, cpu.max_chunks_per_frame), (16, 2, 1));
    assert!(!cpu.enable_shadows && !cpu.enable_reflections);
    assert_eq!(cpu.texture_quality, TextureQuality::Low);
    let igpu = GpuRecovery::get_fallback_settings(GpuDeviceType::IntegratedGpu, big, 8192);
    assert_eq!((igpu.chunk_size, igpu.render_distance, igpu.max_chunks_per_frame), (24, 4, 4));
    assert!(!igpu.enable_shadows && igpu.enable_reflections);
    assert_eq!(igpu.texture_quality, TextureQuality::Medium);
    let small = GpuRecovery::get_fallback_settings(GpuDeviceType::DiscreteGpu, 128 << 20, 2048);
    assert_eq!((small.chunk_size, small.render_distance), (16, 4));
    assert_eq!(small.texture_quality, TextureQuality::Low);
    assert_eq!(GpuRecovery::get_fallback_settings(GpuDeviceType::DiscreteGpu, big, 8192), d);
}

#[test]
fn recovery_decisions() {
    assert!(recovery_decision(0, 0, None));
    assert!(!recovery_decision(3, 0, None));
    assert!(!recovery_decision(1, 6, Some(1_000_000_000)));
    assert!(recovery_decision(1, 6, Some(5_000_000_000)));
    assert!(recovery_decision(1, 5, Some(0)));
}

#[test]
fn health_monitor_counts_attempts() {
    let mut m = GpuHealthMonitor::new();
    assert!(m.should_attempt_recovery());
    m.record_error();
    assert!(m.should_attempt_recovery());
    for _ in 0..3 {
        m.record_recovery_attempt();
    }
    assert!(!m.should_attempt_recovery());
    m.reset();
    assert!(m.should_attempt_recovery());
    for _ in 0..6 {
        m.record_error();
    }
    assert!(!m.should_attempt_recovery());
}
