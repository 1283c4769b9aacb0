//! GPU diagnostics: the backends of a platform, the features and limits
//! worth reporting, capability validation, and the report lines logged
//! for each result. Durations are in nanoseconds.
use vstd::prelude::*;
use vstd::string::*;
use crate::adapter::{GpuBackend, GpuDeviceType};
use crate::clock::duration_max_nanos;
use crate::gpu_limits::MIB;
use crate::text::{decimal, hex4, push_decimal, push_hex4};

verus! {

/// GPU diagnostics and validation utilities
pub struct GpuDiagnostics;

/// The platform the engine was built for.
#[derive(Debug, Clone, Copy, PartialEq, Eq, Structural)]
pub enum TargetPlatform {
    Windows,
    Linux,
    MacOs,
    Wasm32,
    Other,
}

/// Important adapter features an adapter reports.
#[derive(Debug, Clone, Copy, PartialEq, Eq, Structural)]
pub struct AdapterFeatureFlags {
    pub depth_clip_control: bool,
    pub texture_compression_bc: bool,
    pub timestamp_query: bool,
    pub indirect_first_instance: bool,
}

/// Important adapter limits
#[derive(Debug, Clone, Copy, PartialEq, Eq, Structural)]
pub struct AdapterLimits {
    pub max_texture_dimension_2d: u32,
    pub max_texture_dimension_3d: u32,
    pub max_buffer_size: u64,
    pub max_vertex_buffers: u32,
    pub max_bind_groups: u32,
    pub max_compute_workgroup_size_x: u32,
    pub max_compute_workgroup_size_y: u32,
    pub max_compute_workgroup_size_z: u32,
}

/// Adapter information
#[derive(Debug)]
pub struct AdapterInfo {
    pub name: String,
    pub backend: String,
    pub device_type: String,
    pub vendor_id: u32,
    pub device_id: u32,
    pub driver_info: String,
    pub features: Vec<String>,
    pub limits: AdapterLimits,
}

/// Diagnostics report structure
#[derive(Debug)]
pub struct DiagnosticsReport {
    pub available_backends: Vec<String>,
    pub available_adapters: Vec<AdapterInfo>,
    pub diagnostics_time: u128,
}

impl Default for DiagnosticsReport {
    fn default() -> (r: Self)
        ensures
            r.available_backends@.len() == 0,
            r.available_adapters@.len() == 0,
            r.diagnostics_time == 0,
    {
        DiagnosticsReport { available_backends: Vec::new(), available_adapters: Vec::new(), diagnostics_time: 0 }
    }
}

/// Validation result
#[derive(Debug)]
pub struct ValidationResult {
    pub is_valid: bool,
    pub warnings: Vec<String>,
    pub errors: Vec<String>,
}

/// Test status
#[derive(Debug, Clone)]
pub enum TestStatus {
    NotRun,
    Success(u128),
    Failed(String),
}

impl Default for TestStatus {
    fn default() -> (s: Self)
        ensures
            s is NotRun,
    {
        TestStatus::NotRun
    }
}

/// GPU operation test result
#[derive(Debug)]
pub struct OperationTestResult {
    pub buffer_test: TestStatus,
    pub texture_test: TestStatus,
    pub shader_test: TestStatus,
    pub max_tested_buffer_size: u64,
    pub max_tested_texture_dimension: u32,
    pub total_test_time: u128,
}

impl Default for OperationTestResult {
    fn default() -> (r: Self)
        ensures
            r.buffer_test is NotRun,
            r.texture_test is NotRun,
            r.shader_test is NotRun,
            r.max_tested_buffer_size == 0,
            r.max_tested_texture_dimension == 0,
            r.total_test_time == 0,
    {
        OperationTestResult {
            buffer_test: TestStatus::NotRun,
            texture_test: TestStatus::NotRun,
            shader_test: TestStatus::NotRun,
            max_tested_buffer_size: 0,
            max_tested_texture_dimension: 0,
            total_test_time: 0,
        }
    }
}

/// Severity of a report line.
#[derive(Debug, Clone, Copy, PartialEq, Eq, Structural)]
pub enum LogLevel {
    Info,
    Warn,
    Error,
}

/// One line of a report, to be logged at its level.
#[derive(Debug, Clone)]
pub struct LogLine {
    pub level: LogLevel,
    pub message: String,
}

pub open spec fn line_view(l: LogLine) -> (LogLevel, Seq<char>) {
    (l.level, l.message@)
}

pub open spec fn lines_view(ls: Seq<LogLine>) -> Seq<(LogLevel, Seq<char>)> {
    ls.map_values(|l: LogLine| line_view(l))
}

pub open spec fn strings_view(v: Seq<String>) -> Seq<Seq<char>> {
    v.map_values(|s: String| s@)
}

/// How `Debug` prints the duration of `secs` seconds and `nanos` nanoseconds.
pub uninterp spec fn duration_debug_text(secs: u64, nanos: u32) -> Seq<char>;

/// How `Debug` prints a duration of `nanos` nanoseconds.
pub open spec fn duration_text(nanos: u128) -> Seq<char> {
    duration_debug_text((nanos / 1_000_000_000) as u64, (nanos % 1_000_000_000) as u32)
}

/// Formats `Duration::new(secs, nanos)` with `{:?}`; the text is named
/// `duration_debug_text`.
#[verifier::external_body]
fn duration_debug(secs: u64, nanos: u32) -> (s: String)
    requires
        nanos < 1_000_000_000,
    ensures
        s@ == duration_debug_text(secs, nanos),
{
    format!("{:?}", std::time::Duration::new(secs, nanos))
}

fn append_duration(out: &mut String, nanos: u128)
    requires
        nanos <= duration_max_nanos(),
    ensures
        final(out)@ == old(out)@ + duration_text(nanos),
{
    let secs = (nanos / 1_000_000_000) as u64;
    let sub = (nanos % 1_000_000_000) as u32;
    let d = duration_debug(secs, sub);
    out.append(d.as_str());
}

fn line(level: LogLevel, text: &str) -> (l: LogLine)
    ensures
        line_view(l) == (level, text@),
{
    LogLine { level, message: String::from_str(text) }
}

fn line_with(level: LogLevel, prefix: &str, text: &str) -> (l: LogLine)
    ensures
        line_view(l) == (level, prefix@ + text@),
{
    let mut m = String::from_str(prefix);
    m.append(text);
    LogLine { level, message: m }
}

fn push_line(out: &mut Vec<LogLine>, l: LogLine)
    ensures
        lines_view(final(out)@) == lines_view(old(out)@).push(line_view(l)),
{
    out.push(l);
    proof {
        assert(lines_view(final(out)@) =~= lines_view(old(out)@).push(line_view(l)));
    }
}

/// One line per item, each the prefix then the item.
pub open spec fn item_lines(level: LogLevel, prefix: Seq<char>, items: Seq<String>) -> Seq<(LogLevel, Seq<char>)> {
    Seq::new(items.len(), |i: int| (level, prefix + items[i]@))
}

fn push_items(out: &mut Vec<LogLine>, level: LogLevel, prefix: &str, items: &Vec<String>)
    ensures
        lines_view(final(out)@) == lines_view(old(out)@) + item_lines(level, prefix@, items@),
{
    let ghost start = lines_view(out@);
    let mut i: usize = 0;
    while i < items.len()
        invariant
            i <= items@.len(),
            lines_view(out@) == start + item_lines(level, prefix@, items@).take(i as int),
        decreases items@.len() - i,
    {
        push_line(out, line_with(level, prefix, items[i].as_str()));
        proof {
            assert(item_lines(level, prefix@, items@).take(i + 1) =~= item_lines(level, prefix@, items@).take(
                i as int,
            ).push((level, prefix@ + items@[i as int]@)));
        }
        i = i + 1;
    }
    proof {
        assert(item_lines(level, prefix@, items@).take(i as int) =~= item_lines(level, prefix@, items@));
    }
}

/// The backends the engine can use on a platform.
pub open spec fn platform_backends(p: TargetPlatform) -> Seq<Seq<char>> {
    match p {
        TargetPlatform::Windows => seq!["DirectX 12"@, "DirectX 11"@, "Vulkan"@],
        TargetPlatform::Linux => seq!["Vulkan"@, "OpenGL"@],
        TargetPlatform::MacOs => seq!["Metal"@],
        TargetPlatform::Wasm32 => seq!["WebGPU"@, "WebGL2"@],
        TargetPlatform::Other => seq![],
    }
}

/// The names of the important features an adapter has, in a fixed order.
pub open spec fn feature_names(f: AdapterFeatureFlags) -> Seq<Seq<char>> {
    (if f.depth_clip_control { seq!["Depth Clip Control"@] } else { seq![] })
        + (if f.texture_compression_bc { seq!["BC Texture Compression"@] } else { seq![] })
        + (if f.timestamp_query { seq!["Timestamp Queries"@] } else { seq![] })
        + (if f.indirect_first_instance { seq!["Indirect First Instance"@] } else { seq![] })
}

/// Warnings about an adapter: small textures, small buffers, a software
/// renderer, OpenGL on Linux.
pub open spec fn capability_warnings(
    max_texture_dimension_2d: u32,
    max_buffer_size: u64,
    device_type: GpuDeviceType,
    backend: GpuBackend,
    on_linux: bool,
) -> Seq<Seq<char>> {
    (if max_texture_dimension_2d < 4096 {
        seq![
            "Low max texture dimension: "@ + decimal(max_texture_dimension_2d as nat)
                + " (recommended: 4096+ for high-quality terrain textures)"@,
        ]
    } else {
        seq![]
    }) + (if max_buffer_size < 256 * MIB {
        seq!["Low max buffer size: "@ + decimal((max_buffer_size / MIB) as nat) + " MB (recommended: 256+ MB)"@]
    } else {
        seq![]
    }) + (if device_type == GpuDeviceType::Cpu {
        seq!["Using CPU/software renderer - performance will be poor"@]
    } else {
        seq![]
    }) + (if on_linux && backend == GpuBackend::Gl {
        seq!["OpenGL backend on Linux may have compatibility issues"@]
    } else {
        seq![]
    })
}

fn push_str(v: &mut Vec<String>, s: &str)
    ensures
        strings_view(final(v)@) == strings_view(old(v)@).push(s@),
{
    v.push(String::from_str(s));
    proof {
        assert(strings_view(final(v)@) =~= strings_view(old(v)@).push(s@));
    }
}

fn push_string(v: &mut Vec<String>, s: String)
    ensures
        strings_view(final(v)@) == strings_view(old(v)@).push(s@),
{
    let ghost t = s@;
    v.push(s);
    proof {
        assert(strings_view(final(v)@) =~= strings_view(old(v)@).push(t));
    }
}

impl GpuDiagnostics {
    /// Check which backends are available
    pub fn check_backends(platform: TargetPlatform) -> (r: Vec<String>)
        ensures
            strings_view(r@) == platform_backends(platform),
    {
        let mut backends: Vec<String> = Vec::new();
        match platform {
            TargetPlatform::Windows => {
                push_str(&mut backends, "DirectX 12");
                push_str(&mut backends, "DirectX 11");
                push_str(&mut backends, "Vulkan");
            },
            TargetPlatform::Linux => {
                push_str(&mut backends, "Vulkan");
                push_str(&mut backends, "OpenGL");
            },
            TargetPlatform::MacOs => {
                push_str(&mut backends, "Metal");
            },
            TargetPlatform::Wasm32 => {
                push_str(&mut backends, "WebGPU");
                push_str(&mut backends, "WebGL2");
            },
            TargetPlatform::Other => {},
        }
        proof {
            assert(strings_view(backends@) =~= platform_backends(platform));
        }
        backends
    }

    /// The names of the important features among those an adapter has.
    pub fn get_adapter_features(features: AdapterFeatureFlags) -> (r: Vec<String>)
        ensures
            strings_view(r@) == feature_names(features),
    {
        let mut list: Vec<String> = Vec::new();
        if features.depth_clip_control {
            push_str(&mut list, "Depth Clip Control");
        }
        if features.texture_compression_bc {
            push_str(&mut list, "BC Texture Compression");
        }
        if features.timestamp_query {
            push_str(&mut list, "Timestamp Queries");
        }
        if features.indirect_first_instance {
            push_str(&mut list, "Indirect First Instance");
        }
        proof {
            assert(strings_view(list@) =~= feature_names(features));
        }
        list
    }

    /// Validate GPU capabilities for the engine: always valid, with warnings
    /// for what may cause trouble.
    pub fn validate_capabilities(
        max_texture_dimension_2d: u32,
        max_buffer_size: u64,
        device_type: GpuDeviceType,
        backend: GpuBackend,
        on_linux: bool,
    ) -> (r: ValidationResult)
        ensures
            r.is_valid,
            r.errors@.len() == 0,
            strings_view(r.warnings@) == capability_warnings(
                max_texture_dimension_2d,
                max_buffer_size,
                device_type,
                backend,
                on_linux,
            ),
    {
        let mut warnings: Vec<String> = Vec::new();
        if max_texture_dimension_2d < 4096 {
            let mut m = String::from_str("Low max texture dimension: ");
            push_decimal(&mut m, max_texture_dimension_2d as u64);
            m.append(" (recommended: 4096+ for high-quality terrain textures)");
            push_string(&mut warnings, m);
        }
        let ghost w1 = strings_view(warnings@);
        if max_buffer_size < 256 * MIB {
            let mut m = String::from_str("Low max buffer size: ");
            push_decimal(&mut m, max_buffer_size / 1024 / 1024);
            m.append(" MB (recommended: 256+ MB)");
            push_string(&mut warnings, m);
        }
        let ghost w2 = strings_view(warnings@);
        if device_type == GpuDeviceType::Cpu {
            push_str(&mut warnings, "Using CPU/software renderer - performance will be poor");
        }
        let ghost w3 = strings_view(warnings@);
        if on_linux && backend == GpuBackend::Gl {
            push_str(&mut warnings, "OpenGL backend on Linux may have compatibility issues");
        }
        proof {
            vstd::arithmetic::div_mod::lemma_div_denominator(max_buffer_size as int, 1024, 1024);
            assert(strings_view(warnings@) =~= capability_warnings(
                max_texture_dimension_2d,
                max_buffer_size,
                device_type,
                backend,
                on_linux,
            ));
        }
        ValidationResult { is_valid: true, warnings, errors: Vec::new() }
    }
}

/// The lines of one adapter's entry in the report.
pub open spec fn adapter_lines(i: nat, a: &AdapterInfo) -> Seq<(LogLevel, Seq<char>)> {
    seq![
        (LogLevel::Info, "\n  Adapter "@ + decimal(i) + ":"@),
        (LogLevel::Info, "    Name: "@ + a.name@),
        (LogLevel::Info, "    Backend: "@ + a.backend@),
        (LogLevel::Info, "    Type: "@ + a.device_type@),
        (LogLevel::Info, "    Vendor ID: 0x"@ + hex4(a.vendor_id as nat)),
        (LogLevel::Info, "    Device ID: 0x"@ + hex4(a.device_id as nat)),
        (LogLevel::Info, "    Driver: "@ + a.driver_info@),
        (LogLevel::Info, "    Features:"@),
    ] + item_lines(LogLevel::Info, "      - "@, a.features@) + seq![
        (LogLevel::Info, "    Limits:"@),
        (LogLevel::Info, "      Max Texture 2D: "@ + decimal(a.limits.max_texture_dimension_2d as nat)),
        (LogLevel::Info, "      Max Buffer Size: "@ + decimal((a.limits.max_buffer_size / MIB) as nat) + " MB"@),
        (LogLevel::Info, "      Max Vertex Buffers: "@ + decimal(a.limits.max_vertex_buffers as nat)),
    ]
}

/// The lines of a diagnostics report: the title and time, the backends,
/// then each adapter.
pub open spec fn report_lines(r: &DiagnosticsReport) -> Seq<(LogLevel, Seq<char>)> {
    seq![
        (LogLevel::Info, "=== GPU Diagnostics Report ==="@),
        (LogLevel::Info, "Diagnostics completed in: "@ + duration_text(r.diagnostics_time)),
        (LogLevel::Info, "\nAvailable Backends:"@),
    ] + item_lines(LogLevel::Info, "  - "@, r.available_backends@) + seq![(LogLevel::Info, "\nAvailable Adapters:"@)]
        + Seq::new(r.available_adapters@.len(), |i: int| adapter_lines(i as nat, &r.available_adapters@[i])).flatten()
}

fn push_adapter_lines(out: &mut Vec<LogLine>, i: usize, a: &AdapterInfo)
    ensures
        lines_view(final(out)@) == lines_view(old(out)@) + adapter_lines(i as nat, a),
{
    let ghost start = lines_view(out@);
    let mut m = String::from_str("\n  Adapter ");
    push_decimal(&mut m, i as u64);
    m.append(":");
    push_line(out, LogLine { level: LogLevel::Info, message: m });
    push_line(out, line_with(LogLevel::Info, "    Name: ", a.name.as_str()));
    push_line(out, line_with(LogLevel::Info, "    Backend: ", a.backend.as_str()));
    push_line(out, line_with(LogLevel::Info, "    Type: ", a.device_type.as_str()));
    let mut v = String::from_str("    Vendor ID: 0x");
    push_hex4(&mut v, a.vendor_id);
    push_line(out, LogLine { level: LogLevel::Info, message: v });
    let mut d = String::from_str("    Device ID: 0x");
    push_hex4(&mut d, a.device_id);
    push_line(out, LogLine { level: LogLevel::Info, message: d });
    push_line(out, line_with(LogLevel::Info, "    Driver: ", a.driver_info.as_str()));
    push_line(out, line(LogLevel::Info, "    Features:"));
    let ghost before_features = lines_view(out@);
    push_items(out, LogLevel::Info, "      - ", &a.features);
    let ghost after_features = lines_view(out@);
    push_line(out, line(LogLevel::Info, "    Limits:"));
    let mut t = String::from_str("      Max Texture 2D: ");
    push_decimal(&mut t, a.limits.max_texture_dimension_2d as u64);
    push_line(out, LogLine { level: LogLevel::Info, message: t });
    let mut b = String::from_str("      Max Buffer Size: ");
    push_decimal(&mut b, a.limits.max_buffer_size / 1024 / 1024);
    b.append(" MB");
    push_line(out, LogLine { level: LogLevel::Info, message: b });
    let mut vb = String::from_str("      Max Vertex Buffers: ");
    push_decimal(&mut vb, a.limits.max_vertex_buffers as u64);
    push_line(out, LogLine { level: LogLevel::Info, message: vb });
    proof {
        vstd::arithmetic::div_mod::lemma_div_denominator(a.limits.max_buffer_size as int, 1024, 1024);
        assert(lines_view(out@) =~= start + adapter_lines(i as nat, a));
    }
}

impl DiagnosticsReport {
    /// The lines of the formatted report, in order, each with its log level.
    pub fn print_report(&self) -> (r: Vec<LogLine>)
        requires
            self.diagnostics_time <= duration_max_nanos(),
        ensures
            lines_view(r@) == report_lines(self),
    {
        let mut out: Vec<LogLine> = Vec::new();
        push_line(&mut out, line(LogLevel::Info, "=== GPU Diagnostics Report ==="));
        let mut t = String::from_str("Diagnostics completed in: ");
        append_duration(&mut t, self.diagnostics_time);
        push_line(&mut out, LogLine { level: LogLevel::Info, message: t });
        push_line(&mut out, line(LogLevel::Info, "\nAvailable Backends:"));
        push_items(&mut out, LogLevel::Info, "  - ", &self.available_backends);
        push_line(&mut out, line(LogLevel::Info, "\nAvailable Adapters:"));
        let ghost head = lines_view(out@);
        let ghost f = |i: int| adapter_lines(i as nat, &self.available_adapters@[i]);
        proof {
            assert(Seq::new(0, f).flatten() =~= Seq::<(LogLevel, Seq<char>)>::empty());
            assert(head =~= head + Seq::new(0, f).flatten());
        }
        let mut i: usize = 0;
        while i < self.available_adapters.len()
            invariant
                i <= self.available_adapters@.len(),
                f == (|i: int| adapter_lines(i as nat, &self.available_adapters@[i])),
                lines_view(out@) == head + Seq::new(i as nat, f).flatten(),
            decreases self.available_adapters@.len() - i,
        {
            push_adapter_lines(&mut out, i, &self.available_adapters[i]);
            proof {
                crate::chunk_rendering::lemma_flatten_new_step(i as nat, f);
            }
            i = i + 1;
        }
        proof {
            assert(lines_view(out@) =~= report_lines(self));
        }
        out
    }
}

/// The lines of a validation result: the verdict, then the warnings and
/// the errors, each under a heading when there are any.
pub open spec fn validation_lines(r: &ValidationResult) -> Seq<(LogLevel, Seq<char>)> {
    seq![
        if r.is_valid {
            (LogLevel::Info, "[GPU Validation] ✓ GPU capabilities validated successfully"@)
        } else {
            (LogLevel::Error, "[GPU Validation] ✗ GPU validation failed"@)
        },
    ] + (if r.warnings@.len() > 0 {
        seq![(LogLevel::Warn, "[GPU Validation] Warnings:"@)] + item_lines(LogLevel::Warn, "  - "@, r.warnings@)
    } else {
        seq![]
    }) + (if r.errors@.len() > 0 {
        seq![(LogLevel::Error, "[GPU Validation] Errors:"@)] + item_lines(LogLevel::Error, "  - "@, r.errors@)
    } else {
        seq![]
    })
}

impl ValidationResult {
    /// The lines of the validation results, in order, each with its level.
    pub fn print_results(&self) -> (r: Vec<LogLine>)
        ensures
            lines_view(r@) == validation_lines(self),
    {
        let mut out: Vec<LogLine> = Vec::new();
        if self.is_valid {
            push_line(&mut out, line(LogLevel::Info, "[GPU Validation] ✓ GPU capabilities validated successfully"));
        } else {
            push_line(&mut out, line(LogLevel::Error, "[GPU Validation] ✗ GPU validation failed"));
        }
        let ghost a = lines_view(out@);
        if self.warnings.len() > 0 {
            push_line(&mut out, line(LogLevel::Warn, "[GPU Validation] Warnings:"));
            push_items(&mut out, LogLevel::Warn, "  - ", &self.warnings);
        }
        let ghost b = lines_view(out@);
        if self.errors.len() > 0 {
            push_line(&mut out, line(LogLevel::Error, "[GPU Validation] Errors:"));
            push_items(&mut out, LogLevel::Error, "  - ", &self.errors);
        }
        proof {
            assert(lines_view(out@) =~= validation_lines(self));
        }
        out
    }
}

/// Durations in a test result are durations.
pub open spec fn status_time_ok(s: TestStatus) -> bool {
    s matches TestStatus::Success(d) ==> d <= duration_max_nanos()
}

/// The lines of one test's status: its success with the time taken (and
/// `extra` after it), its failure with the error, or that it did not run.
pub open spec fn status_lines(
    s: TestStatus,
    success: Seq<char>,
    failed: Seq<char>,
    not_run: Seq<char>,
    extra: Seq<(LogLevel, Seq<char>)>,
) -> Seq<(LogLevel, Seq<char>)> {
    match s {
        TestStatus::Success(d) => seq![(LogLevel::Info, success + duration_text(d) + ")"@)] + extra,
        TestStatus::Failed(e) => seq![(LogLevel::Error, failed + e@)],
        TestStatus::NotRun => seq![(LogLevel::Warn, not_run)],
    }
}

/// The lines of the operation test results: title and total time, then
/// the buffer, texture and shader tests.
pub open spec fn operation_lines(r: &OperationTestResult) -> Seq<(LogLevel, Seq<char>)> {
    seq![
        (LogLevel::Info, "=== GPU Operation Tests ==="@),
        (LogLevel::Info, "Total test time: "@ + duration_text(r.total_test_time)),
    ] + status_lines(
        r.buffer_test,
        "✓ Buffer creation: Success ("@,
        "✗ Buffer creation: Failed - "@,
        "- Buffer creation: Not tested"@,
        seq![(LogLevel::Info, "  Max tested size: "@ + decimal((r.max_tested_buffer_size / MIB) as nat) + " MB"@)],
    ) + status_lines(
        r.texture_test,
        "✓ Texture creation: Success ("@,
        "✗ Texture creation: Failed - "@,
        "- Texture creation: Not tested"@,
        seq![
            (LogLevel::Info, "  Max tested dimension: "@ + decimal(r.max_tested_texture_dimension as nat) + "x"@
                + decimal(r.max_tested_texture_dimension as nat)),
        ],
    ) + status_lines(
        r.shader_test,
        "✓ Shader compilation: Success ("@,
        "✗ Shader compilation: Failed - "@,
        "- Shader compilation: Not tested"@,
        seq![],
    )
}

fn push_status(out: &mut Vec<LogLine>, s: &TestStatus, success: &str, failed: &str, not_run: &str)
    requires
        status_time_ok(*s),
    ensures
        lines_view(final(out)@) == lines_view(old(out)@) + status_lines(*s, success@, failed@, not_run@, seq![]),
{
    match s {
        TestStatus::Success(d) => {
            let mut m = String::from_str(success);
            append_duration(&mut m, *d);
            m.append(")");
            push_line(out, LogLine { level: LogLevel::Info, message: m });
        },
        TestStatus::Failed(e) => {
            push_line(out, line_with(LogLevel::Error, failed, e.as_str()));
        },
        TestStatus::NotRun => {
            push_line(out, line(LogLevel::Warn, not_run));
        },
    }
    proof {
        assert(lines_view(final(out)@) =~= lines_view(old(out)@) + status_lines(*s, success@, failed@, not_run@, seq![]));
    }
}

impl OperationTestResult {
    /// The lines of the test results, in order, each with its level.
    pub fn print_results(&self) -> (r: Vec<LogLine>)
        requires
            self.total_test_time <= duration_max_nanos(),
            status_time_ok(self.buffer_test),
            status_time_ok(self.texture_test),
            status_time_ok(self.shader_test),
        ensures
            lines_view(r@) == operation_lines(self),
    {
        let mut out: Vec<LogLine> = Vec::new();
        push_line(&mut out, line(LogLevel::Info, "=== GPU Operation Tests ==="));
        let mut t = String::from_str("Total test time: ");
        append_duration(&mut t, self.total_test_time);
        push_line(&mut out, LogLine { level: LogLevel::Info, message: t });
        let ghost head = lines_view(out@);
        push_status(
            &mut out,
            &self.buffer_test,
            "✓ Buffer creation: Success (",
            "✗ Buffer creation: Failed - ",
            "- Buffer creation: Not tested",
        );
        if self.buffer_test.is_success() {
            let mut m = String::from_str("  Max tested size: ");
            push_decimal(&mut m, self.max_tested_buffer_size / 1024 / 1024);
            m.append(" MB");
            push_line(&mut out, LogLine { level: LogLevel::Info, message: m });
        }
        let ghost after_buffer = lines_view(out@);
        push_status(
            &mut out,
            &self.texture_test,
            "✓ Texture creation: Success (",
            "✗ Texture creation: Failed - ",
            "- Texture creation: Not tested",
        );
        if self.texture_test.is_success() {
            let mut m = String::from_str("  Max tested dimension: ");
            push_decimal(&mut m, self.max_tested_texture_dimension as u64);
            m.append("x");
            push_decimal(&mut m, self.max_tested_texture_dimension as u64);
            push_line(&mut out, LogLine { level: LogLevel::Info, message: m });
        }
        let ghost after_texture = lines_view(out@);
        push_status(
            &mut out,
            &self.shader_test,
            "✓ Shader compilation: Success (",
            "✗ Shader compilation: Failed - ",
            "- Shader compilation: Not tested",
        );
        proof {
            vstd::arithmetic::div_mod::lemma_div_denominator(self.max_tested_buffer_size as int, 1024, 1024);
            assert(lines_view(out@) =~= operation_lines(self));
        }
        out
    }
}

impl TestStatus {
    pub fn is_success(&self) -> (b: bool)
        ensures
            b == (*self is Success),
    {
        match self {
            TestStatus::Success(_) => true,
            _ => false,
        }
    }
}

} // verus!
