//! Configuration data for the server and its telemetry, as plain values.
//! Argument and environment parsing lives outside the library; these types
//! only carry the chosen settings, with their defaults.
use vstd::prelude::*;

verus! {

/// The default port the server listens on.
pub const DEFAULT_GRPC_PORT: u32 = 50051;

/// Transport settings.
pub struct ServerConfig {
    /// Port to listen to requests on.
    pub grpc_port: u32,
    /// Host name to bind to.
    pub grpc_hostname: String,
    /// Disable the reflection endpoint.
    pub disable_grpc_reflection: bool,
    /// Disable health checks; used only for testing.
    pub disable_health_checks: bool,
}

impl ServerConfig {
    pub fn default_config() -> (r: Self)
        ensures
            r.grpc_port == DEFAULT_GRPC_PORT,
            r.grpc_hostname@ == "0.0.0.0"@,
            !r.disable_grpc_reflection,
            !r.disable_health_checks,
    {
        Self {
            grpc_port: DEFAULT_GRPC_PORT,
            grpc_hostname: "0.0.0.0".to_owned(),
            disable_grpc_reflection: false,
            disable_health_checks: false,
        }
    }
}

/// Log output settings.
pub struct LoggingConfig {
    /// Disables all logging.
    pub disabled: bool,
    /// Log level name: one of trace, debug, info, warn, error.
    pub level: String,
    /// Multi-line output optimized for human readability.
    pub pretty: bool,
    /// Single-line output with span context.
    pub full: bool,
    /// Machine-readable output.
    pub json: bool,
    /// Exclude thread names from the output.
    pub exclude_thread_names: bool,
    /// Disable colored output.
    pub no_color: bool,
}

impl LoggingConfig {
    pub fn default_config() -> (r: Self)
        ensures
            !r.disabled,
            r.level@ == "info"@,
            !r.pretty && !r.full && !r.json,
            !r.exclude_thread_names,
            !r.no_color,
    {
        Self {
            disabled: false,
            level: "info".to_owned(),
            pretty: false,
            full: false,
            json: false,
            exclude_thread_names: false,
            no_color: false,
        }
    }
}

/// Telemetry export settings.
pub struct OpenTelemetryConfig {
    /// Enable span export.
    pub enable: bool,
    /// Collector endpoint.
    pub endpoint: String,
}

impl OpenTelemetryConfig {
    pub fn default_config() -> (r: Self)
        ensures
            !r.enable,
            r.endpoint@ == Seq::<char>::empty(),
    {
        Self { enable: false, endpoint: String::new() }
    }
}

/// Logging and telemetry settings together.
pub struct TracingConfig {
    pub logging: LoggingConfig,
    pub open_telemetry: OpenTelemetryConfig,
}

/// Everything the process needs to start.
pub struct Args {
    pub server_config: ServerConfig,
    pub tracing_config: TracingConfig,
}

} // verus!
