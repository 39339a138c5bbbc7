//! Transports and the retry policy.
//!
//! A retry backs off exponentially: each delay is the previous one
//! times the backoff factor, jittered by a factor in [0.75, 1.25)
//! before the cap, then clamped to the maximum delay. The HTTP and
//! file transports hold the wiring (endpoint, headers, rotation); the
//! sends themselves are I/O and happen outside the library.

use vstd::prelude::*;

verus! {

/// Retry configuration, in integer milliseconds; the backoff factor is
/// expressed in permille (2000 means a factor of two).
#[derive(Debug, Clone, Copy, PartialEq, Eq, Structural)]
pub struct RetryConfig {
    /// Maximum number of retries.
    pub max_retries: usize,
    /// Initial delay in milliseconds.
    pub initial_delay_ms: u64,
    /// Cap on any delay, in milliseconds.
    pub max_delay_ms: u64,
    /// Backoff factor in permille.
    pub backoff_factor_permille: u64,
}

impl RetryConfig {
    /// The conventional policy: three retries, 100 ms doubling up to
    /// five seconds.
    pub fn new_default() -> (r: RetryConfig)
        ensures
            r.max_retries == 3,
            r.initial_delay_ms == 100,
            r.max_delay_ms == 5000,
            r.backoff_factor_permille == 2000,
    {
        RetryConfig {
            max_retries: 3,
            initial_delay_ms: 100,
            max_delay_ms: 5000,
            backoff_factor_permille: 2000,
        }
    }
}

/// Relies on `rand::Rng::gen_range`: a jitter factor in permille,
/// uniformly drawn from [750, 1250); only the range is promised.
#[verifier::external_body]
pub fn jitter_permille() -> (r: u64)
    ensures
        750 <= r < 1250,
{
    rand::Rng::gen_range(&mut rand::thread_rng(), 750u64..1250u64)
}

/// The next backoff delay: the current delay times the backoff factor,
/// jittered before the cap, then clamped to the maximum.
pub open spec fn spec_next_delay(
    delay_ms: u64,
    factor_permille: u64,
    jitter: u64,
    max_delay_ms: u64,
) -> int {
    let scaled = (delay_ms * factor_permille / 1000) * jitter / 1000;
    if scaled > max_delay_ms {
        max_delay_ms as int
    } else {
        scaled
    }
}

/// Compute the next backoff delay from the current one, applying the
/// jitter before the cap.
pub fn next_retry_delay(delay_ms: u64, config: &RetryConfig, jitter: u64) -> (r: u64)
    requires
        delay_ms <= 0x10_0000,
        config.backoff_factor_permille <= 0x10_0000,
        750 <= jitter < 1250,
    ensures
        r as int == spec_next_delay(
            delay_ms,
            config.backoff_factor_permille,
            jitter,
            config.max_delay_ms,
        ),
        r <= config.max_delay_ms || r as int == (delay_ms * config.backoff_factor_permille / 1000)
            * jitter / 1000,
{
    proof {
        assert(delay_ms * config.backoff_factor_permille <= 0x10_0000 * 0x10_0000)
            by (nonlinear_arith)
            requires
                delay_ms <= 0x10_0000,
                config.backoff_factor_permille <= 0x10_0000,
        ;
    }
    let scaled_wide: u64 = delay_ms * config.backoff_factor_permille / 1000;
    proof {
        assert(scaled_wide * jitter <= 0x100_0000_0000 * 1250) by (nonlinear_arith)
            requires
                scaled_wide <= 0x100_0000_0000,
                jitter < 1250,
        ;
    }
    let jittered: u64 = scaled_wide * jitter / 1000;
    if jittered > config.max_delay_ms {
        config.max_delay_ms
    } else {
        jittered
    }
}

/// Whether another attempt is allowed after `attempts` tries.
pub fn should_retry(attempts: usize, config: &RetryConfig) -> (r: bool)
    ensures
        r == (attempts < config.max_retries),
{
    attempts < config.max_retries
}

/// Authentication carried by an HTTP transport.
pub enum AuthConfig {
    /// Basic authentication.
    Basic {
        /// The account name.
        username: String,
        /// The account secret.
        password: String,
    },
    /// A bearer token.
    Bearer {
        /// The token text.
        token: String,
    },
    /// An API key under a custom header.
    ApiKey {
        /// The key text.
        key: String,
        /// The header carrying the key.
        header_name: String,
    },
}

/// The wiring of an HTTP transport; the sends happen outside the
/// library.
pub struct HttpTransport {
    /// The transport name.
    pub name: String,
    /// The endpoint URL.
    pub url: String,
    /// The HTTP method.
    pub method: String,
    /// The headers to send.
    pub headers: Vec<(String, String)>,
    /// The retry policy.
    pub retry_config: RetryConfig,
    /// The authentication, if any.
    pub auth: Option<AuthConfig>,
    /// Whether payloads are compressed.
    pub compression: bool,
}

impl HttpTransport {
    /// A POST transport to `url` with a JSON content type and the
    /// default retry policy.
    pub fn new(name: &str, url: &str) -> (r: HttpTransport)
        ensures
            r.name@ == name@,
            r.url@ == url@,
            r.method@ == "POST"@,
            r.headers@.len() == 1,
            r.retry_config == (RetryConfig {
                max_retries: 3,
                initial_delay_ms: 100,
                max_delay_ms: 5000,
                backoff_factor_permille: 2000,
            }),
            r.auth is None,
            !r.compression,
    {
        let mut headers: Vec<(String, String)> = Vec::new();
        headers.push(("Content-Type".to_owned(), "application/json".to_owned()));
        HttpTransport {
            name: name.to_owned(),
            url: url.to_owned(),
            method: "POST".to_owned(),
            headers,
            retry_config: RetryConfig::new_default(),
            auth: None,
            compression: false,
        }
    }

    /// Set the HTTP method.
    pub fn with_method(self, method: &str) -> (r: HttpTransport)
        ensures
            r.method@ == method@,
            r.name == self.name,
            r.url == self.url,
    {
        HttpTransport { method: method.to_owned(), ..self }
    }

    /// Add one header.
    pub fn add_header(&mut self, name: &str, value: &str)
        ensures
            final(self).headers@.len() == old(self).headers@.len() + 1,
            final(self).name == old(self).name,
            final(self).url == old(self).url,
    {
        self.headers.push((name.to_owned(), value.to_owned()));
    }

    /// Set the authentication.
    pub fn with_auth(self, auth: AuthConfig) -> (r: HttpTransport)
        ensures
            r.auth is Some,
            r.name == self.name,
            r.url == self.url,
    {
        HttpTransport { auth: Some(auth), ..self }
    }

    /// Set the retry policy.
    pub fn with_retry_config(self, retry_config: RetryConfig) -> (r: HttpTransport)
        ensures
            r.retry_config == retry_config,
            r.name == self.name,
            r.url == self.url,
    {
        HttpTransport { retry_config, ..self }
    }

    /// Enable or disable compression.
    pub fn with_compression(self, enabled: bool) -> (r: HttpTransport)
        ensures
            r.compression == enabled,
            r.name == self.name,
            r.url == self.url,
    {
        HttpTransport { compression: enabled, ..self }
    }
}

/// The wiring of a file transport: directory, naming, and rotation.
pub struct FileTransport {
    /// The transport name.
    pub name: String,
    /// The output directory.
    pub directory: String,
    /// The file name prefix.
    pub prefix: String,
    /// The file extension.
    pub extension: String,
    /// Rotate when a file exceeds this many bytes.
    pub max_file_size: usize,
    /// Rotate after this many milliseconds, if set.
    pub rotation_interval_ms: Option<u64>,
    /// Keep at most this many files, if set.
    pub max_files: Option<usize>,
    /// Whether written batches are compressed.
    pub compression: bool,
}

impl FileTransport {
    /// A transport writing hourly-rotated 10 MiB JSON files, keeping
    /// twenty-four of them.
    pub fn new(name: &str, directory: &str) -> (r: FileTransport)
        ensures
            r.name@ == name@,
            r.directory@ == directory@,
            r.prefix@ == "telemetry"@,
            r.extension@ == "json"@,
            r.max_file_size == 10485760,
            r.rotation_interval_ms == Some(3600000u64),
            r.max_files == Some(24usize),
            !r.compression,
    {
        FileTransport {
            name: name.to_owned(),
            directory: directory.to_owned(),
            prefix: "telemetry".to_owned(),
            extension: "json".to_owned(),
            max_file_size: 10485760,
            rotation_interval_ms: Some(3600000),
            max_files: Some(24),
            compression: false,
        }
    }

    /// Set the file name prefix.
    pub fn with_prefix(self, prefix: &str) -> (r: FileTransport)
        ensures
            r.prefix@ == prefix@,
            r.name == self.name,
            r.directory == self.directory,
            r.extension == self.extension,
            r.max_file_size == self.max_file_size,
            r.rotation_interval_ms == self.rotation_interval_ms,
            r.max_files == self.max_files,
            r.compression == self.compression,
    {
        FileTransport { prefix: prefix.to_owned(), ..self }
    }

    /// Set the file extension.
    pub fn with_extension(self, extension: &str) -> (r: FileTransport)
        ensures
            r.extension@ == extension@,
            r.name == self.name,
            r.directory == self.directory,
            r.prefix == self.prefix,
            r.max_file_size == self.max_file_size,
            r.rotation_interval_ms == self.rotation_interval_ms,
            r.max_files == self.max_files,
            r.compression == self.compression,
    {
        FileTransport { extension: extension.to_owned(), ..self }
    }

    /// Set the size threshold for rotation.
    pub fn with_max_file_size(self, max_file_size: usize) -> (r: FileTransport)
        ensures
            r.max_file_size == max_file_size,
            r.name == self.name,
            r.directory == self.directory,
            r.prefix == self.prefix,
            r.extension == self.extension,
            r.rotation_interval_ms == self.rotation_interval_ms,
            r.max_files == self.max_files,
            r.compression == self.compression,
    {
        FileTransport { max_file_size, ..self }
    }

    /// Set the time-based rotation interval in milliseconds.
    pub fn with_rotation_interval(self, interval_ms: u64) -> (r: FileTransport)
        ensures
            r.rotation_interval_ms == Some(interval_ms),
            r.name == self.name,
            r.directory == self.directory,
            r.prefix == self.prefix,
            r.extension == self.extension,
            r.max_file_size == self.max_file_size,
            r.max_files == self.max_files,
            r.compression == self.compression,
    {
        FileTransport { rotation_interval_ms: Some(interval_ms), ..self }
    }

    /// Set how many rotated files to keep.
    pub fn with_max_files(self, max_files: usize) -> (r: FileTransport)
        ensures
            r.max_files == Some(max_files),
            r.name == self.name,
            r.directory == self.directory,
            r.prefix == self.prefix,
            r.extension == self.extension,
            r.max_file_size == self.max_file_size,
            r.rotation_interval_ms == self.rotation_interval_ms,
            r.compression == self.compression,
    {
        FileTransport { max_files: Some(max_files), ..self }
    }

    /// Enable or disable compression.
    pub fn with_compression(self, enabled: bool) -> (r: FileTransport)
        ensures
            r.compression == enabled,
            r.name == self.name,
            r.directory == self.directory,
            r.prefix == self.prefix,
            r.extension == self.extension,
            r.max_file_size == self.max_file_size,
            r.rotation_interval_ms == self.rotation_interval_ms,
            r.max_files == self.max_files,
    {
        FileTransport { compression: enabled, ..self }
    }

    /// Whether the current file must rotate: its size passed the
    /// threshold, or the rotation interval elapsed.
    pub fn should_rotate(&self, current_size: usize, elapsed_ms: u64) -> (r: bool)
        ensures
            r == (current_size >= self.max_file_size || (
            self.rotation_interval_ms matches Some(iv) && elapsed_ms >= iv)),
    {
        if current_size >= self.max_file_size {
            return true;
        }
        match self.rotation_interval_ms {
            Some(iv) => elapsed_ms >= iv,
            None => false,
        }
    }

    /// How many of `count` retained files must leave, oldest first, to
    /// respect the retention limit.
    pub fn files_to_delete(&self, count: usize) -> (r: usize)
        ensures
            r == (match self.max_files {
                Some(m) => if count > m {
                    count - m
                } else {
                    0
                },
                None => 0,
            }),
    {
        match self.max_files {
            Some(m) => {
                if count > m {
                    count - m
                } else {
                    0
                }
            },
            None => 0,
        }
    }
}

/// A batch is delivered when at least one transport accepted it; the
/// spill path is taken only when every transport failed.
pub fn delivered(results: &Vec<bool>) -> (r: bool)
    ensures
        r == exists|i: int| 0 <= i < results@.len() && results@[i],
{
    let mut i: usize = 0;
    while i < results.len()
        invariant
            i <= results@.len(),
            forall|j: int| 0 <= j < i ==> !results@[j],
        decreases results@.len() - i,
    {
        if results[i] {
            return true;
        }
        i = i + 1;
    }
    false
}

} // verus!
