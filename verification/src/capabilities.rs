//! Static capability advertisement: the supported digest function, the
//! identity-only compressor set, batch size limits and the supported API
//! version range. Pure, no failure path.
use vstd::prelude::*;

verus! {

/// Wire value of the SHA-256 digest function.
pub const DIGEST_FUNCTION_SHA256: i32 = 1;

/// Wire value of the identity (no compression) compressor.
pub const COMPRESSOR_IDENTITY: i32 = 0;

/// Wire value of the disallowed symlink-absolute-path strategy.
pub const SYMLINK_ABSOLUTE_PATH_DISALLOWED: i32 = 1;

/// The largest total payload a batch request may carry.
pub const MAX_BATCH_TOTAL_SIZE_BYTES: i64 = 131072;

/// A protocol version number.
pub struct SemVer {
    pub major: i32,
    pub minor: i32,
    pub patch: i32,
    pub prerelease: String,
}

pub struct ActionCacheUpdateCapabilities {
    pub update_enabled: bool,
}

pub struct CacheCapabilities {
    pub digest_functions: Vec<i32>,
    pub action_cache_update_capabilities: Option<ActionCacheUpdateCapabilities>,
    pub max_batch_total_size_bytes: i64,
    pub symlink_absolute_path_strategy: i32,
    pub supported_compressors: Vec<i32>,
    pub supported_batch_update_compressors: Vec<i32>,
}

pub struct ServerCapabilities {
    pub cache_capabilities: Option<CacheCapabilities>,
    pub deprecated_api_version: Option<SemVer>,
    pub low_api_version: Option<SemVer>,
    pub high_api_version: Option<SemVer>,
}

pub struct GetCapabilitiesRequest {
    pub instance_name: String,
}

/// The capability-negotiation handler.
pub struct CapabilitiesService {
}

impl CapabilitiesService {
    pub fn new() -> Self {
        Self {  }
    }

    /// Advertises the static capability set: SHA-256 as the only digest
    /// function, identity as the only compressor, cache updates enabled,
    /// absolute symlinks disallowed, the batch size limit, and API version
    /// 2.0.0 as both the lowest and the highest supported version.
    pub fn get_capabilities(&self, _request: GetCapabilitiesRequest) -> (r: ServerCapabilities)
        ensures
            ({
                &&& r.cache_capabilities matches Some(c) && {
                    &&& c.digest_functions@ == seq![DIGEST_FUNCTION_SHA256]
                    &&& c.action_cache_update_capabilities matches Some(a) && a.update_enabled
                    &&& c.max_batch_total_size_bytes == MAX_BATCH_TOTAL_SIZE_BYTES
                    &&& c.symlink_absolute_path_strategy == SYMLINK_ABSOLUTE_PATH_DISALLOWED
                    &&& c.supported_compressors@ == seq![COMPRESSOR_IDENTITY]
                    &&& c.supported_batch_update_compressors@ == seq![COMPRESSOR_IDENTITY]
                }
                &&& r.deprecated_api_version is None
                &&& r.low_api_version matches Some(lo) && lo.major == 2 && lo.minor == 0
                    && lo.patch == 0 && lo.prerelease@ == Seq::<char>::empty()
                &&& r.high_api_version matches Some(hi) && hi.major == 2 && hi.minor == 0
                    && hi.patch == 0 && hi.prerelease@ == Seq::<char>::empty()
            }),
    {
        let mut digest_functions: Vec<i32> = Vec::new();
        digest_functions.push(DIGEST_FUNCTION_SHA256);
        let mut supported_compressors: Vec<i32> = Vec::new();
        supported_compressors.push(COMPRESSOR_IDENTITY);
        let mut supported_batch_update_compressors: Vec<i32> = Vec::new();
        supported_batch_update_compressors.push(COMPRESSOR_IDENTITY);
        proof {
            assert(digest_functions@ =~= seq![DIGEST_FUNCTION_SHA256]);
            assert(supported_compressors@ =~= seq![COMPRESSOR_IDENTITY]);
            assert(supported_batch_update_compressors@ =~= seq![COMPRESSOR_IDENTITY]);
        }
        ServerCapabilities {
            cache_capabilities: Some(
                CacheCapabilities {
                    digest_functions,
                    action_cache_update_capabilities: Some(
                        ActionCacheUpdateCapabilities { update_enabled: true },
                    ),
                    max_batch_total_size_bytes: MAX_BATCH_TOTAL_SIZE_BYTES,
                    symlink_absolute_path_strategy: SYMLINK_ABSOLUTE_PATH_DISALLOWED,
                    supported_compressors,
                    supported_batch_update_compressors,
                },
            ),
            deprecated_api_version: None,
            low_api_version: Some(
                SemVer { major: 2, minor: 0, patch: 0, prerelease: String::new() },
            ),
            high_api_version: Some(
                SemVer { major: 2, minor: 0, patch: 0, prerelease: String::new() },
            ),
        }
    }
}

} // verus!
