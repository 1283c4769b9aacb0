//! Recovery from GPU initialization failures: which adapter and device
//! requests to retry, fallback settings for weak GPUs, and a health monitor
//! that decides when recovery is still worth attempting.
use vstd::prelude::*;
use std::time::Instant;
use crate::adapter::{GpuBackend, GpuDeviceType};
use crate::clock::{elapsed_nanos, now};
use crate::gpu_limits::{LimitsBase, MIB};

verus! {

/// GPU recovery strategies for initialization failures
pub struct GpuRecovery;

/// Power preference of an adapter request.
#[derive(Debug, Clone, Copy, PartialEq, Eq, Structural)]
pub enum PowerPreference {
    NoPreference,
    LowPower,
    HighPerformance,
}

/// One adapter request of the recovery sequence.
#[derive(Debug, Clone, Copy, PartialEq, Eq, Structural)]
pub struct AdapterRequestPlan {
    pub power_preference: PowerPreference,
    /// Whether the adapter must be compatible with the window's surface.
    pub with_surface: bool,
    pub force_fallback_adapter: bool,
}

pub open spec fn plan(p: PowerPreference, with_surface: bool, force_fallback_adapter: bool) -> AdapterRequestPlan {
    AdapterRequestPlan { power_preference: p, with_surface, force_fallback_adapter }
}

/// The adapter requests tried in turn: each power preference with the
/// surface, then no preference without the surface, then a forced fallback
/// adapter with the surface.
pub open spec fn adapter_recovery_sequence() -> Seq<AdapterRequestPlan> {
    seq![
        plan(PowerPreference::LowPower, true, false),
        plan(PowerPreference::HighPerformance, true, false),
        plan(PowerPreference::NoPreference, true, false),
        plan(PowerPreference::NoPreference, false, false),
        plan(PowerPreference::NoPreference, true, true),
    ]
}

/// Fallback rendering settings for problematic GPUs
#[derive(Debug, Clone, Copy, PartialEq, Eq, Structural)]
pub struct FallbackSettings {
    pub chunk_size: u32,
    pub render_distance: u32,
    pub max_chunks_per_frame: usize,
    pub enable_shadows: bool,
    pub enable_reflections: bool,
    pub texture_quality: TextureQuality,
}

#[derive(Debug, Clone, Copy, PartialEq, Eq, Structural)]
pub enum TextureQuality {
    Low,
    Medium,
    High,
}

pub open spec fn default_fallback_settings() -> FallbackSettings {
    FallbackSettings {
        chunk_size: 32,
        render_distance: 8,
        max_chunks_per_frame: 8,
        enable_shadows: true,
        enable_reflections: true,
        texture_quality: TextureQuality::High,
    }
}

impl Default for FallbackSettings {
    fn default() -> (s: Self)
        ensures
            s == default_fallback_settings(),
    {
        Self {
            chunk_size: 32,
            render_distance: 8,
            max_chunks_per_frame: 8,
            enable_shadows: true,
            enable_reflections: true,
            texture_quality: TextureQuality::High,
        }
    }
}

/// Settings for an adapter of kind `device_type` with the given buffer and
/// 2D texture limits: small and plain for software renderers, reduced for
/// integrated GPUs, chunks of at most 16 and a distance of at most 4 below
/// 256 MiB buffers, low textures below 4096.
pub open spec fn fallback_settings_for(device_type: GpuDeviceType, max_buffer_size: u64, max_texture_2d: u32) -> FallbackSettings {
    let d = default_fallback_settings();
    let by_kind = match device_type {
        GpuDeviceType::Cpu => FallbackSettings {
            max_chunks_per_frame: 1,
            chunk_size: 16,
            render_distance: 2,
            enable_shadows: false,
            enable_reflections: false,
            texture_quality: TextureQuality::Low,
        },
        GpuDeviceType::IntegratedGpu => FallbackSettings {
            max_chunks_per_frame: 4,
            chunk_size: 24,
            render_distance: 4,
            enable_shadows: false,
            texture_quality: TextureQuality::Medium,
            ..d
        },
        _ => d,
    };
    let by_memory = if max_buffer_size < 256 * MIB {
        FallbackSettings {
            chunk_size: if by_kind.chunk_size <= 16 { by_kind.chunk_size } else { 16 },
            render_distance: if by_kind.render_distance <= 4 { by_kind.render_distance } else { 4 },
            ..by_kind
        }
    } else {
        by_kind
    };
    if max_texture_2d < 4096 {
        FallbackSettings { texture_quality: TextureQuality::Low, ..by_memory }
    } else {
        by_memory
    }
}

impl GpuRecovery {
    /// The adapter requests to try, in order, after the first request failed.
    pub fn adapter_recovery_plans() -> (r: Vec<AdapterRequestPlan>)
        ensures
            r@ == adapter_recovery_sequence(),
    {
        let mut r: Vec<AdapterRequestPlan> = Vec::new();
        r.push(AdapterRequestPlan {
            power_preference: PowerPreference::LowPower,
            with_surface: true,
            force_fallback_adapter: false,
        });
        r.push(AdapterRequestPlan {
            power_preference: PowerPreference::HighPerformance,
            with_surface: true,
            force_fallback_adapter: false,
        });
        r.push(AdapterRequestPlan {
            power_preference: PowerPreference::NoPreference,
            with_surface: true,
            force_fallback_adapter: false,
        });
        r.push(AdapterRequestPlan {
            power_preference: PowerPreference::NoPreference,
            with_surface: false,
            force_fallback_adapter: false,
        });
        r.push(AdapterRequestPlan {
            power_preference: PowerPreference::NoPreference,
            with_surface: true,
            force_fallback_adapter: true,
        });
        proof {
            assert(r@ =~= adapter_recovery_sequence());
        }
        r
    }

    /// The limit profiles to request a device with, in order, after the
    /// first device request failed: wgpu's downlevel, then its WebGL2 limits.
    pub fn device_recovery_limits() -> (r: Vec<LimitsBase>)
        ensures
            r@ == seq![LimitsBase::Downlevel, LimitsBase::DownlevelWebgl2],
    {
        let mut r: Vec<LimitsBase> = Vec::new();
        r.push(LimitsBase::Downlevel);
        r.push(LimitsBase::DownlevelWebgl2);
        proof {
            assert(r@ =~= seq![LimitsBase::Downlevel, LimitsBase::DownlevelWebgl2]);
        }
        r
    }

    /// Check if we can use a fallback rendering mode: on software renderers,
    /// and with OpenGL on Linux.
    pub fn can_use_fallback_rendering(device_type: GpuDeviceType, backend: GpuBackend, on_linux: bool) -> (r: bool)
        ensures
            r == (device_type == GpuDeviceType::Cpu || (on_linux && backend == GpuBackend::Gl)),
    {
        if device_type == GpuDeviceType::Cpu {
            return true;
        }
        if on_linux && backend == GpuBackend::Gl {
            return true;
        }
        false
    }

    /// Get recommended settings for problematic GPUs
    pub fn get_fallback_settings(device_type: GpuDeviceType, max_buffer_size: u64, max_texture_dimension_2d: u32) -> (s:
        FallbackSettings)
        ensures
            s == fallback_settings_for(device_type, max_buffer_size, max_texture_dimension_2d),
    {
        let mut settings = FallbackSettings::default();
        match device_type {
            GpuDeviceType::Cpu => {
                settings.max_chunks_per_frame = 1;
                settings.chunk_size = 16;
                settings.render_distance = 2;
                settings.enable_shadows = false;
                settings.enable_reflections = false;
                settings.texture_quality = TextureQuality::Low;
            },
            GpuDeviceType::IntegratedGpu => {
                settings.max_chunks_per_frame = 4;
                settings.chunk_size = 24;
                settings.render_distance = 4;
                settings.enable_shadows = false;
                settings.texture_quality = TextureQuality::Medium;
            },
            _ => {},
        }
        if max_buffer_size < 256 * MIB {
            if settings.chunk_size > 16 {
                settings.chunk_size = 16;
            }
            if settings.render_distance > 4 {
                settings.render_distance = 4;
            }
        }
        if max_texture_dimension_2d < 4096 {
            settings.texture_quality = TextureQuality::Low;
        }
        settings
    }
}

/// Recovery stops after this many attempts.
pub const MAX_RECOVERY_ATTEMPTS: usize = 3;

/// Errors within this many nanoseconds of the last one count as a burst.
pub const ERROR_BURST_WINDOW_NANOS: u128 = 5_000_000_000;

/// Recovery is allowed after fewer than three attempts, unless more than
/// five errors were recorded and the last one is less than five seconds
/// old (`since_last_error` in nanoseconds, `None` when there was none).
pub open spec fn recovery_allowed(recovery_attempts: usize, error_count: usize, since_last_error: Option<u128>) -> bool {
    recovery_attempts < MAX_RECOVERY_ATTEMPTS && !(since_last_error matches Some(t) && t
        < ERROR_BURST_WINDOW_NANOS && error_count > 5)
}

/// Whether recovery should be attempted, given the counters and the time
/// since the last error.
pub fn recovery_decision(recovery_attempts: usize, error_count: usize, since_last_error: Option<u128>) -> (r: bool)
    ensures
        r == recovery_allowed(recovery_attempts, error_count, since_last_error),
{
    if recovery_attempts >= MAX_RECOVERY_ATTEMPTS {
        return false;
    }
    match since_last_error {
        Some(t) => !(t < ERROR_BURST_WINDOW_NANOS && error_count > 5),
        None => true,
    }
}

/// GPU health monitor
pub struct GpuHealthMonitor {
    error_count: usize,
    last_error_time: Option<Instant>,
    recovery_attempts: usize,
}

impl GpuHealthMonitor {
    pub closed spec fn spec_error_count(&self) -> usize {
        self.error_count
    }

    pub closed spec fn spec_recovery_attempts(&self) -> usize {
        self.recovery_attempts
    }

    /// Whether an error was recorded since creation or the last reset.
    pub closed spec fn spec_has_error_time(&self) -> bool {
        self.last_error_time is Some
    }

    pub fn new() -> (m: Self)
        ensures
            m.spec_error_count() == 0,
            m.spec_recovery_attempts() == 0,
            !m.spec_has_error_time(),
    {
        Self { error_count: 0, last_error_time: None, recovery_attempts: 0 }
    }

    /// Counts an error and stamps its time.
    pub fn record_error(&mut self)
        requires
            old(self).spec_error_count() < usize::MAX,
        ensures
            final(self).spec_error_count() == old(self).spec_error_count() + 1,
            final(self).spec_recovery_attempts() == old(self).spec_recovery_attempts(),
            final(self).spec_has_error_time(),
    {
        self.error_count = self.error_count + 1;
        self.last_error_time = Some(now());
    }

    pub fn record_recovery_attempt(&mut self)
        requires
            old(self).spec_recovery_attempts() < usize::MAX,
        ensures
            final(self).spec_recovery_attempts() == old(self).spec_recovery_attempts() + 1,
            final(self).spec_error_count() == old(self).spec_error_count(),
            final(self).spec_has_error_time() == old(self).spec_has_error_time(),
    {
        self.recovery_attempts = self.recovery_attempts + 1;
    }

    /// Whether to attempt recovery: not after three attempts, nor while more
    /// than five errors were recorded and the last is under five seconds old.
    /// How old the last error is comes from the clock.
    pub fn should_attempt_recovery(&self) -> (r: bool)
        ensures
            self.spec_recovery_attempts() >= MAX_RECOVERY_ATTEMPTS ==> !r,
            self.spec_recovery_attempts() < MAX_RECOVERY_ATTEMPTS && (!self.spec_has_error_time()
                || self.spec_error_count() <= 5) ==> r,
            r ==> self.spec_recovery_attempts() < MAX_RECOVERY_ATTEMPTS,
    {
        let since = match &self.last_error_time {
            Some(t) => Some(elapsed_nanos(t)),
            None => None,
        };
        recovery_decision(self.recovery_attempts, self.error_count, since)
    }

    pub fn reset(&mut self)
        ensures
            final(self).spec_error_count() == 0,
            final(self).spec_recovery_attempts() == 0,
            !final(self).spec_has_error_time(),
    {
        self.error_count = 0;
        self.last_error_time = None;
        self.recovery_attempts = 0;
    }
}

} // verus!
