use hearth_engine::adapter::{GpuBackend, GpuDeviceType};
use hearth_engine::gpu_diagnostics::{
    AdapterFeatureFlags, AdapterInfo, AdapterLimits, DiagnosticsReport, GpuDiagnostics, LogLevel,
    OperationTestResult, TargetPlatform, TestStatus, ValidationResult,
};

fn messages(lines: &[hearth_engine::gpu_diagnostics::LogLine]) -> Vec<String> {
    lines.iter().map(|l| l.message.clone()).collect()
}

#[test]
fn backends_per_platform() {
    assert_eq!(GpuDiagnostics::check_backends(TargetPlatform::Windows), vec!["DirectX 12", "DirectX 11", "Vulkan"]);
    assert_eq!(GpuDiagnostics::check_backends(TargetPlatform::Linux), vec!["Vulkan", "OpenGL"]);
    assert_eq!(GpuDiagnostics::check_backends(TargetPlatform::MacOs), vec!["Metal"]);
    assert_eq!(GpuDiagnostics::check_backends(TargetPlatform::Wasm32), vec!["WebGPU", "WebGL2"]);
    assert!(GpuDiagnostics::check_backends(TargetPlatform::Other).is_empty());
}

#[test]
fn feature_names() {
    let f = AdapterFeatureFlags {
        depth_clip_control: true,
        texture_compression_bc: false,
        timestamp_query: true,
        indirect_first_instance: true,
    };
    assert_eq!(
        GpuDiagnostics::get_adapter_features(f),
        vec!["Depth Clip Control", "Timestamp Queries", "Indirect First Instance"]
    );
}

#[test]
fn validation_warnings() {
    let r = GpuDiagnostics::validate_capabilities(2048, 128 << 20, GpuDeviceType::Cpu, GpuBackend::Gl, true);
    assert!(r.is_valid);
    assert!(r.errors.is_empty());
    assert_eq!(
        r.warnings,
        vec![
            "Low max texture dimension: 2048 (recommended: 4096+ for high-quality terrain textures)",
            "Low max buffer size: 128 MB (recommended: 256+ MB)",
            "Using CPU/software renderer - performance will be poor",
            "OpenGL backend on Linux may have compatibility issues",
        ]
    );
    let ok = GpuDiagnostics::validate_capabilities(16384, 1 << 30, GpuDeviceType::DiscreteGpu, GpuBackend::Gl, false);
    assert!(ok.warnings.is_empty());
}

#[test]
fn report_lines() {
    let report = DiagnosticsReport {
        available_backends: vec!["Vulkan".to_string()],
        available_adapters: vec![AdapterInfo {
            name: "GPU".to_string(),
            backend: "Vulkan".to_string(),
            device_type: "DiscreteGpu".to_string(),
            vendor_id: 0x10de,
            device_id: 0x2684,
            driver_info: "550".to_string(),
            features: vec!["Timestamp Queries".to_string()],
            limits: AdapterLimits {
                max_texture_dimension_2d: 32768,
                max_texture_dimension_3d: 16384,
                max_buffer_size: 3 << 30,
                max_vertex_buffers: 16,
                max_bind_groups: 8,
                max_compute_workgroup_size_x: 1024,
                max_compute_workgroup_size_y: 1024,
                max_compute_workgroup_size_z: 64,
            },
        }],
        diagnostics_time: 1_500_000,
    };
    let lines = report.print_report();
    assert!(lines.iter().all(|l| l.level == LogLevel::Info));
    assert_eq!(
        messages(&lines),
        vec![
            "=== GPU Diagnostics Report ===",
            "Diagnostics completed in: 1.5ms",
            "\nAvailable Backends:",
            "  - Vulkan",
            "\nAvailable Adapters:",
            "\n  Adapter 0:",
            "    Name: GPU",
            "    Backend: Vulkan",
            "    Type: DiscreteGpu",
            "    Vendor ID: 0x10de",
            "    Device ID: 0x2684",
            "    Driver: 550",
            "    Features:",
            "      - Timestamp Queries",
            "    Limits:",
            "      Max Texture 2D: 32768",
            "      Max Buffer Size: 3072 MB",
            "      Max Vertex Buffers: 16",
        ]
    );
    let empty = DiagnosticsReport::default();
    assert_eq!(empty.print_report().len(), 4);
}

#[test]
fn hex_ids_are_padded() {
    let mut report = DiagnosticsReport::default();
    report.available_adapters.push(AdapterInfo {
        name: String::new(),
        backend: String::new(),
        device_type: String::new(),
        vendor_id: 0x5,
        device_id: 0x12345,
        driver_info: String::new(),
        features: vec![],
        limits: AdapterLimits {
            max_texture_dimension_2d: 0,
            max_texture_dimension_3d: 0,
            max_buffer_size: 0,
            max_vertex_buffers: 0,
            max_bind_groups: 0,
            max_compute_workgroup_size_x: 0,
            max_compute_workgroup_size_y: 0,
            max_compute_workgroup_size_z: 0,
        },
    });
    let m = messages(&report.print_report());
    assert_eq!(m[8], "    Vendor ID: 0x0005");
    assert_eq!(m[9], "    Device ID: 0x12345");
}

#[test]
fn validation_result_lines() {
    let r = ValidationResult { is_valid: false, warnings: vec!["w".to_string()], errors: vec!["e1".to_string(), "e2".to_string()] };
    let lines = r.print_results();
    let levels: Vec<LogLevel> = lines.iter().map(|l| l.level).collect();
    assert_eq!(
        levels,
        vec![LogLevel::Error, LogLevel::Warn, LogLevel::Warn, LogLevel::Error, LogLevel::Error, LogLevel::Error]
    );
    assert_eq!(
        messages(&lines),
        vec![
            "[GPU Validation] ✗ GPU validation failed",
            "[GPU Validation] Warnings:",
            "  - w",
            "[GPU Validation] Errors:",
            "  - e1",
            "  - e2",
        ]
    );
    let ok = ValidationResult { is_valid: true, warnings: vec![], errors: vec![] };
    assert_eq!(messages(&ok.print_results()), vec!["[GPU Validation] ✓ GPU capabilities validated successfully"]);
}

#[test]
fn operation_test_lines() {
    let r = OperationTestResult {
        buffer_test: TestStatus::Success(2_000_000_000),
        texture_test: TestStatus::Failed("out of memory".to_string()),
        shader_test: TestStatus::NotRun,
        max_tested_buffer_size: 256 << 20,
        max_tested_texture_dimension: 0,
        total_test_time: 3_000,
    };
    let lines = r.print_results();
    assert_eq!(
        messages(&lines),
        vec![
            "=== GPU Operation Tests ===",
            "Total test time: 3µs",
            "✓ Buffer creation: Success (2s)",
            "  Max tested size: 256 MB",
            "✗ Texture creation: Failed - out of memory",
            "- Shader compilation: Not tested",
        ]
    );
    assert_eq!(lines[4].level, LogLevel::Error);
    assert_eq!(lines[5].level, LogLevel::Warn);
    let d = OperationTestResult::default();
    assert_eq!(messages(&d.print_results()).len(), 5);
    let t = OperationTestResult { texture_test: TestStatus::Success(0), max_tested_texture_dimension: 4096, ..OperationTestResult::default() };
    assert!(messages(&t.print_results()).contains(&"  Max tested dimension: 4096x4096".to_string()));
}
