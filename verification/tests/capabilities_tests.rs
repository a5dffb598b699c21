use bache::capabilities::{
    CapabilitiesService, GetCapabilitiesRequest, COMPRESSOR_IDENTITY, DIGEST_FUNCTION_SHA256,
    MAX_BATCH_TOTAL_SIZE_BYTES, SYMLINK_ABSOLUTE_PATH_DISALLOWED,
};
use bache::config::{LoggingConfig, OpenTelemetryConfig, ServerConfig, DEFAULT_GRPC_PORT};

#[test]
fn capabilities_advertise_sha256_and_identity_only() {
    let svc = CapabilitiesService::new();
    let caps = svc.get_capabilities(GetCapabilitiesRequest { instance_name: "main".to_string() });
    let cache = caps.cache_capabilities.unwrap();
    assert_eq!(cache.digest_functions, vec![DIGEST_FUNCTION_SHA256]);
    assert_eq!(cache.supported_compressors, vec![COMPRESSOR_IDENTITY]);
    assert_eq!(cache.supported_batch_update_compressors, vec![COMPRESSOR_IDENTITY]);
    assert_eq!(cache.max_batch_total_size_bytes, MAX_BATCH_TOTAL_SIZE_BYTES);
    assert_eq!(cache.max_batch_total_size_bytes, 128 * 1024);
    assert_eq!(cache.symlink_absolute_path_strategy, SYMLINK_ABSOLUTE_PATH_DISALLOWED);
    assert!(cache.action_cache_update_capabilities.unwrap().update_enabled);
}

#[test]
fn capabilities_advertise_api_version_range() {
    let svc = CapabilitiesService::new();
    let caps = svc.get_capabilities(GetCapabilitiesRequest { instance_name: String::new() });
    let lo = caps.low_api_version.unwrap();
    let hi = caps.high_api_version.unwrap();
    assert_eq!((lo.major, lo.minor, lo.patch), (2, 0, 0));
    assert_eq!((hi.major, hi.minor, hi.patch), (2, 0, 0));
    assert!(lo.prerelease.is_empty());
    assert!(hi.prerelease.is_empty());
    assert!(caps.deprecated_api_version.is_none());
}

#[test]
fn config_defaults() {
    let server = ServerConfig::default_config();
    assert_eq!(server.grpc_port, DEFAULT_GRPC_PORT);
    assert_eq!(server.grpc_port, 50051);
    assert_eq!(server.grpc_hostname.as_str(), "0.0.0.0");
    assert!(!server.disable_grpc_reflection);
    assert!(!server.disable_health_checks);

    let logging = LoggingConfig::default_config();
    assert!(!logging.disabled);
    assert_eq!(logging.level.as_str(), "info");

    let telemetry = OpenTelemetryConfig::default_config();
    assert!(!telemetry.enable);
    assert!(telemetry.endpoint.is_empty());
}

#[test]
fn uuid_validation_goes_through_the_real_parser() {
    // hyphenated and simple forms parse; junk does not
    let hash = "a665a45920422f9d417e4867efdc4fb8a04a1f3fff1fa07e998e86f7f7a27ae3";
    let hyphenated = format!("t/uploads/550e8400-e29b-41d4-a716-446655440000/blobs/{hash}/1");
    assert!(bache::resource_name::ResourceName::parse(hyphenated.as_str()).is_ok());
    let simple = format!("t/uploads/550e8400e29b41d4a716446655440000/blobs/{hash}/1");
    assert!(bache::resource_name::ResourceName::parse(simple.as_str()).is_ok());
    let junk = format!("t/uploads/550e8400-e29b/blobs/{hash}/1");
    assert!(bache::resource_name::ResourceName::parse(junk.as_str()).is_err());
}
