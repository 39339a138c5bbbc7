//! Collector configuration: frequencies, metadata, builders, and the
//! typed settings each collector family reads from its string map.
//!
//! A merge takes a family's defaults and overlays whatever valid
//! values the configuration map carries; a missing or malformed value
//! leaves the default in place, so a merge never fails on bad input.

use vstd::prelude::*;

use crate::dictionary::str_eq;
use crate::errors::AgentError;
use vstd::string::StringSliceAdditionalSpecFns;

verus! {

/// How often a collector runs.
#[derive(Debug, Clone, Copy, PartialEq, Eq, Structural)]
pub enum CollectionFrequency {
    /// Collect once on start.
    Once,
    /// Collect on every invocation.
    PerInvocation,
    /// Collect every so many milliseconds.
    Interval(u64),
    /// Collect on demand only.
    OnDemand,
}

/// Configuration for one collector.
pub struct CollectorConfig {
    /// Unique collector id.
    pub id: String,
    /// Collection frequency.
    pub frequency: CollectionFrequency,
    /// Whether this collector is enabled.
    pub enabled: bool,
    /// Collector-specific settings, as key/value pairs.
    pub settings: Option<Vec<(String, String)>>,
}

/// Metadata about a collector.
pub struct CollectorMetadata {
    /// Unique collector id.
    pub id: String,
    /// Display name.
    pub name: String,
    /// Description.
    pub description: String,
    /// Data source type.
    pub source_type: String,
    /// Whether this collector is enabled by default.
    pub enabled_by_default: bool,
}

/// The first value stored under a key, if any.
pub open spec fn spec_setting(
    settings: Seq<(Seq<char>, Seq<char>)>,
    key: Seq<char>,
) -> Option<Seq<char>>
    decreases settings.len(),
{
    if settings.len() == 0 {
        None
    } else if settings[0].0 == key {
        Some(settings[0].1)
    } else {
        spec_setting(settings.drop_first(), key)
    }
}

/// The model of a settings map.
pub open spec fn settings_model(settings: Seq<(String, String)>) -> Seq<(Seq<char>, Seq<char>)>
    decreases settings.len(),
{
    if settings.len() == 0 {
        Seq::empty()
    } else {
        seq![(settings[0].0@, settings[0].1@)] + settings_model(settings.drop_first())
    }
}

pub proof fn lemma_settings_model_index(s: Seq<(String, String)>, i: int)
    requires
        0 <= i < s.len(),
    ensures
        settings_model(s).len() == s.len(),
        settings_model(s)[i] == (s[i].0@, s[i].1@),
    decreases s.len(),
{
    if i > 0 {
        lemma_settings_model_index(s.drop_first(), i - 1);
    } else {
        lemma_settings_model_len(s.drop_first());
    }
}

pub proof fn lemma_settings_model_len(s: Seq<(String, String)>)
    ensures
        settings_model(s).len() == s.len(),
    decreases s.len(),
{
    if s.len() > 0 {
        lemma_settings_model_len(s.drop_first());
    }
}

proof fn lemma_setting_found(m: Seq<(Seq<char>, Seq<char>)>, i: int)
    requires
        0 <= i < m.len(),
        forall|j: int| 0 <= j < i ==> (#[trigger] m[j]).0 != m[i].0,
    ensures
        spec_setting(m, m[i].0) == Some(m[i].1),
    decreases i,
{
    if i > 0 {
        lemma_setting_found(m.drop_first(), i - 1);
    }
}

proof fn lemma_setting_absent(m: Seq<(Seq<char>, Seq<char>)>, key: Seq<char>)
    requires
        forall|j: int| 0 <= j < m.len() ==> (#[trigger] m[j]).0 != key,
    ensures
        spec_setting(m, key) is None,
    decreases m.len(),
{
    if m.len() > 0 {
        lemma_setting_absent(m.drop_first(), key);
    }
}

/// Look a key up in a settings map; the first entry wins.
pub fn lookup_setting<'a>(settings: &'a Vec<(String, String)>, key: &str) -> (r: Option<
    &'a String,
>)
    ensures
        r is Some <==> spec_setting(settings_model(settings@), key@) is Some,
        r is Some ==> r.unwrap()@ == spec_setting(settings_model(settings@), key@).unwrap(),
{
    proof {
        lemma_settings_model_len(settings@);
    }
    let mut i: usize = 0;
    while i < settings.len()
        invariant
            i <= settings@.len(),
            settings_model(settings@).len() == settings@.len(),
            forall|j: int| 0 <= j < i ==> (#[trigger] settings_model(settings@)[j]).0 != key@,
        decreases settings@.len() - i,
    {
        proof {
            lemma_settings_model_index(settings@, i as int);
        }
        if str_eq(settings[i].0.as_str(), key) {
            proof {
                lemma_setting_found(settings_model(settings@), i as int);
            }
            return Some(&settings[i].1);
        }
        i = i + 1;
    }
    proof {
        lemma_setting_absent(settings_model(settings@), key@);
    }
    None
}

/// Whether a setting text means "on": the strings `true` and `1`.
pub open spec fn spec_truthy(v: Seq<char>) -> bool {
    v == "true"@ || v == "1"@
}

/// Decide a boolean setting value.
pub fn is_truthy(v: &str) -> (r: bool)
    ensures
        r == spec_truthy(v@),
{
    str_eq(v, "true") || str_eq(v, "1")
}

/// The numeric value of an all-digit string.
pub open spec fn spec_digits_val(s: Seq<char>) -> int
    decreases s.len(),
{
    if s.len() == 0 {
        0
    } else {
        spec_digits_val(s.drop_last()) * 10 + (s.last() as int - '0' as int)
    }
}

/// Whether every character is an ASCII digit.
pub open spec fn spec_all_digits(s: Seq<char>) -> bool {
    forall|i: int| 0 <= i < s.len() ==> '0' <= #[trigger] s[i] <= '9'
}

proof fn lemma_digits_nonneg(s: Seq<char>)
    requires
        spec_all_digits(s),
    ensures
        spec_digits_val(s) >= 0,
    decreases s.len(),
{
    if s.len() > 0 {
        assert(spec_all_digits(s.drop_last())) by {
            assert forall|i: int| 0 <= i < s.drop_last().len() implies '0' <= #[trigger] s.drop_last()[i] <= '9' by {
                assert(s.drop_last()[i] == s[i]);
            }
        }
        lemma_digits_nonneg(s.drop_last());
    }
}

/// Parse an unsigned decimal number; rejects empty input, non-digits,
/// and values over `u64::MAX`.
#[verifier::loop_isolation(false)]
pub fn parse_u64(s: &str) -> (r: Option<u64>)
    ensures
        r is Some <==> (s@.len() > 0 && spec_all_digits(s@) && spec_digits_val(s@) <= u64::MAX),
        r is Some ==> r.unwrap() as int == spec_digits_val(s@),
{
    let n = vstd::string::StrSliceExecFns::unicode_len(s);
    if n == 0 {
        return None;
    }
    let mut acc: u64 = 0;
    let mut i: usize = 0;
    proof {
        assert(s@.take(0) =~= Seq::<char>::empty());
    }
    while i < n
        invariant
            i <= n,
            n == s@.len(),
            spec_all_digits(s@.take(i as int)),
            acc as int == spec_digits_val(s@.take(i as int)),
        decreases n - i,
    {
        let c = vstd::string::StrSliceExecFns::get_char(s, i);
        if !('0' <= c && c <= '9') {
            proof {
                assert(!spec_all_digits(s@));
            }
            return None;
        }
        let d = (c as u32 - '0' as u32) as u64;
        if acc > (u64::MAX - d) / 10 {
            proof {
                assert(spec_all_digits(s@.take(i as int + 1))) by {
                    assert forall|j: int| 0 <= j < i + 1 implies '0' <= #[trigger] s@.take(
                        i as int + 1,
                    )[j] <= '9' by {
                        if j < i {
                            assert(s@.take(i as int + 1)[j] == s@.take(i as int)[j]);
                        }
                    }
                }
                assert(s@.take(i as int + 1).drop_last() =~= s@.take(i as int));
                assert(spec_digits_val(s@.take(i as int + 1)) == acc * 10 + d);
                assert(acc * 10 + d > u64::MAX) by (nonlinear_arith)
                    requires
                        acc > (u64::MAX - d) / 10,
                        d <= 9,
                ;
                if spec_all_digits(s@) {
                    lemma_digits_grow(s@, i as int + 1);
                }
            }
            return None;
        }
        proof {
            assert(acc * 10 + d <= u64::MAX) by (nonlinear_arith)
                requires
                    acc <= (u64::MAX - d) / 10,
                    d <= 9,
            ;
            assert(s@.take(i as int + 1).drop_last() =~= s@.take(i as int));
            assert(s@.take(i as int + 1).last() == s@[i as int]);
            assert(spec_all_digits(s@.take(i as int + 1))) by {
                assert forall|j: int| 0 <= j < i + 1 implies '0' <= #[trigger] s@.take(
                    i as int + 1,
                )[j] <= '9' by {
                    if j < i {
                        assert(s@.take(i as int + 1)[j] == s@.take(i as int)[j]);
                    }
                }
            }
        }
        acc = acc * 10 + d;
        i = i + 1;
    }
    proof {
        assert(s@.take(n as int) =~= s@);
    }
    Some(acc)
}

/// A longer digit string never names a smaller number: dropping the
/// last digits cannot increase the value.
pub proof fn lemma_digits_grow(s: Seq<char>, k: int)
    requires
        0 < k <= s.len(),
        spec_all_digits(s),
    ensures
        spec_digits_val(s) >= spec_digits_val(s.take(k)),
    decreases s.len() - k,
{
    assert(spec_all_digits(s.take(k))) by {
        assert forall|j: int| 0 <= j < k implies '0' <= #[trigger] s.take(k)[j] <= '9' by {
            assert(s.take(k)[j] == s[j]);
        }
    }
    if k == s.len() {
        assert(s.take(k) =~= s);
    } else {
        lemma_digits_grow(s, k + 1);
        assert(s.take(k + 1).drop_last() =~= s.take(k));
        assert(s.take(k + 1).last() == s[k]);
        lemma_digits_nonneg(s.take(k));
        assert(spec_digits_val(s.take(k + 1)) >= spec_digits_val(s.take(k))) by (nonlinear_arith)
            requires
                spec_digits_val(s.take(k + 1)) == spec_digits_val(s.take(k)) * 10 + (s[k] as int
                    - '0' as int),
                spec_digits_val(s.take(k)) >= 0,
                '0' <= s[k] <= '9',
        ;
    }
}

/// Copy a settings map pair by pair.
fn clone_settings(settings: &Vec<(String, String)>) -> (r: Vec<(String, String)>)
    ensures
        r@ == settings@,
{
    let mut out: Vec<(String, String)> = Vec::new();
    let mut i: usize = 0;
    while i < settings.len()
        invariant
            i <= settings@.len(),
            out@ =~= settings@.take(i as int),
        decreases settings@.len() - i,
    {
        out.push((settings[i].0.clone(), settings[i].1.clone()));
        proof {
            assert(out@ =~= settings@.take(i as int + 1));
        }
        i = i + 1;
    }
    proof {
        assert(settings@.take(settings@.len() as int) =~= settings@);
    }
    out
}

/// Builder for collector metadata and configuration.
pub struct CollectorBuilder {
    /// The collector id, once set.
    pub id: Option<String>,
    /// The display name, once set.
    pub name: Option<String>,
    /// The description, once set.
    pub description: Option<String>,
    /// The source type, once set.
    pub source_type: Option<String>,
    /// Whether the collector starts enabled.
    pub enabled: bool,
    /// The collection frequency.
    pub frequency: CollectionFrequency,
    /// Collector-specific settings.
    pub settings: Vec<(String, String)>,
}

impl CollectorBuilder {
    /// A builder with defaults: enabled, per-invocation, no settings.
    pub fn new() -> (r: CollectorBuilder)
        ensures
            r.id is None,
            r.name is None,
            r.description is None,
            r.source_type is None,
            r.enabled,
            r.frequency == CollectionFrequency::PerInvocation,
            r.settings@.len() == 0,
    {
        CollectorBuilder {
            id: None,
            name: None,
            description: None,
            source_type: None,
            enabled: true,
            frequency: CollectionFrequency::PerInvocation,
            settings: Vec::new(),
        }
    }

    /// Set the collector id.
    pub fn with_id(self, id: &str) -> (r: CollectorBuilder)
        ensures
            (r.id matches Some(v) && v@ == id@),
            r.name == self.name,
            r.description == self.description,
            r.source_type == self.source_type,
            r.enabled == self.enabled,
            r.frequency == self.frequency,
            r.settings == self.settings,
    {
        CollectorBuilder { id: Some(id.to_owned()), ..self }
    }

    /// Set the display name.
    pub fn with_name(self, name: &str) -> (r: CollectorBuilder)
        ensures
            (r.name matches Some(v) && v@ == name@),
            r.id == self.id,
            r.description == self.description,
            r.source_type == self.source_type,
            r.enabled == self.enabled,
            r.frequency == self.frequency,
            r.settings == self.settings,
    {
        CollectorBuilder { name: Some(name.to_owned()), ..self }
    }

    /// Set the description.
    pub fn with_description(self, description: &str) -> (r: CollectorBuilder)
        ensures
            (r.description matches Some(v) && v@ == description@),
            r.id == self.id,
            r.name == self.name,
            r.source_type == self.source_type,
            r.enabled == self.enabled,
            r.frequency == self.frequency,
            r.settings == self.settings,
    {
        CollectorBuilder { description: Some(description.to_owned()), ..self }
    }

    /// Set the source type.
    pub fn with_source_type(self, source_type: &str) -> (r: CollectorBuilder)
        ensures
            (r.source_type matches Some(v) && v@ == source_type@),
            r.id == self.id,
            r.name == self.name,
            r.description == self.description,
            r.enabled == self.enabled,
            r.frequency == self.frequency,
            r.settings == self.settings,
    {
        CollectorBuilder { source_type: Some(source_type.to_owned()), ..self }
    }

    /// Set the enabled state.
    pub fn enabled(self, enabled: bool) -> (r: CollectorBuilder)
        ensures
            r.enabled == enabled,
            r.id == self.id,
            r.name == self.name,
            r.description == self.description,
            r.source_type == self.source_type,
            r.frequency == self.frequency,
            r.settings == self.settings,
    {
        CollectorBuilder { enabled, ..self }
    }

    /// Set the collection frequency.
    pub fn with_frequency(self, frequency: CollectionFrequency) -> (r: CollectorBuilder)
        ensures
            r.frequency == frequency,
            r.id == self.id,
            r.name == self.name,
            r.description == self.description,
            r.source_type == self.source_type,
            r.enabled == self.enabled,
            r.settings == self.settings,
    {
        CollectorBuilder { frequency, ..self }
    }

    /// Add one setting.
    pub fn with_setting(self, key: &str, value: &str) -> (r: CollectorBuilder)
        ensures
            r.settings@.len() == self.settings@.len() + 1,
            r.id == self.id,
            r.name == self.name,
            r.description == self.description,
            r.source_type == self.source_type,
            r.enabled == self.enabled,
            r.frequency == self.frequency,
    {
        let mut settings = self.settings;
        settings.push((key.to_owned(), value.to_owned()));
        CollectorBuilder {
            id: self.id,
            name: self.name,
            description: self.description,
            source_type: self.source_type,
            enabled: self.enabled,
            frequency: self.frequency,
            settings,
        }
    }

    /// Append many settings.
    pub fn with_settings(self, settings: Vec<(String, String)>) -> (r: CollectorBuilder)
        ensures
            r.settings@ == self.settings@ + settings@,
            r.id == self.id,
            r.name == self.name,
            r.description == self.description,
            r.source_type == self.source_type,
            r.enabled == self.enabled,
            r.frequency == self.frequency,
    {
        let mut all = self.settings;
        let mut extra = settings;
        all.append(&mut extra);
        CollectorBuilder {
            id: self.id,
            name: self.name,
            description: self.description,
            source_type: self.source_type,
            enabled: self.enabled,
            frequency: self.frequency,
            settings: all,
        }
    }

    /// Build the metadata; the id and source type are required.
    pub fn build_metadata(&self) -> (r: Result<CollectorMetadata, AgentError>)
        ensures
            r is Ok <==> self.id is Some && self.source_type is Some,
            r is Err ==> r == Err::<CollectorMetadata, AgentError>(AgentError::MissingField),
            r is Ok ==> ({
                let m = r.unwrap();
                &&& m.id@ == self.id.unwrap()@
                &&& m.source_type@ == self.source_type.unwrap()@
                &&& m.enabled_by_default == self.enabled
                &&& (self.name matches Some(n) ==> m.name@ == n@)
                &&& (self.name is None ==> m.name@ == self.id.unwrap()@)
                &&& (self.description matches Some(d) ==> m.description@ == d@)
                &&& (self.description is None ==> m.description@.len() == 0)
            }),
    {
        let id = match &self.id {
            Some(id) => id.clone(),
            None => {
                return Err(AgentError::MissingField);
            },
        };
        let source_type = match &self.source_type {
            Some(st) => st.clone(),
            None => {
                return Err(AgentError::MissingField);
            },
        };
        let name = match &self.name {
            Some(n) => n.clone(),
            None => id.clone(),
        };
        let description = match &self.description {
            Some(d) => d.clone(),
            None => String::new(),
        };
        Ok(
            CollectorMetadata {
                id,
                name,
                description,
                source_type,
                enabled_by_default: self.enabled,
            },
        )
    }

    /// Build the configuration; the id is required, and an empty
    /// settings map becomes no map at all.
    pub fn build_config(&self) -> (r: Result<CollectorConfig, AgentError>)
        ensures
            r is Ok <==> self.id is Some,
            r is Err ==> r == Err::<CollectorConfig, AgentError>(AgentError::MissingField),
            r is Ok ==> ({
                let c = r.unwrap();
                &&& c.id@ == self.id.unwrap()@
                &&& c.frequency == self.frequency
                &&& c.enabled == self.enabled
                &&& (self.settings@.len() == 0 ==> c.settings is None)
                &&& (self.settings@.len() > 0 ==> (c.settings matches Some(s) && s@
                    == self.settings@))
            }),
    {
        let id = match &self.id {
            Some(id) => id.clone(),
            None => {
                return Err(AgentError::MissingField);
            },
        };
        let settings = if self.settings.len() == 0 {
            None
        } else {
            Some(clone_settings(&self.settings))
        };
        Ok(CollectorConfig { id, frequency: self.frequency, enabled: self.enabled, settings })
    }
}

/// Split a comma-separated setting value into cleaned words: each
/// word is trimmed of ASCII whitespace, its ASCII letters lowercased,
/// and dropped when empty.
pub fn split_csv(v: &str) -> (r: Vec<String>)
    ensures
        forall|i: int| 0 <= i < r@.len() ==> (#[trigger] r@[i])@.len() > 0,
{
    let bytes = v.as_bytes();
    let mut words: Vec<String> = Vec::new();
    let mut current: Vec<u8> = Vec::new();
    let mut i: usize = 0;
    while i < bytes.len()
        invariant
            forall|k: int| 0 <= k < words@.len() ==> (#[trigger] words@[k])@.len() > 0,
        decreases bytes@.len() - i,
    {
        let b = *vstd::slice::slice_index_get(bytes, i);
        if b == 44 {
            match finish_word(&current) {
                Some(w) => {
                    words.push(w);
                },
                None => {},
            }
            current = Vec::new();
        } else {
            current.push(b);
        }
        i = i + 1;
    }
    match finish_word(&current) {
        Some(w) => {
            words.push(w);
        },
        None => {},
    }
    words
}

/// Trim ASCII whitespace off a word's bytes and lowercase its ASCII
/// letters; an all-whitespace or invalid word yields nothing.
fn finish_word(bytes: &Vec<u8>) -> (r: Option<String>)
    ensures
        r matches Some(w) ==> w@.len() > 0,
{
    let mut start: usize = 0;
    let mut end: usize = bytes.len();
    while start < end && is_space(bytes[start])
        invariant
            start <= end,
            end <= bytes@.len(),
        decreases end - start,
    {
        start = start + 1;
    }
    while start < end && is_space(bytes[end - 1])
        invariant
            start <= end,
            end <= bytes@.len(),
        decreases end - start,
    {
        end = end - 1;
    }
    if start >= end {
        return None;
    }
    let mut out: Vec<u8> = Vec::new();
    let mut i: usize = start;
    while i < end
        invariant
            start <= i <= end,
            end <= bytes@.len(),
            out@.len() == i - start,
        decreases end - i,
    {
        let b = bytes[i];
        let lb: u8 = if 65 <= b && b <= 90 {
            b + 32
        } else {
            b
        };
        out.push(lb);
        i = i + 1;
    }
    match core::str::from_utf8(out.as_slice()) {
        Ok(text) => {
            proof {
                if text@.len() == 0 {
                    assert(text.spec_bytes() =~= Seq::<u8>::empty());
                }
            }
            Some(text.to_owned())
        },
        Err(_) => None,
    }
}

/// Whether a byte is ASCII whitespace.
fn is_space(b: u8) -> (r: bool)
    ensures
        r == (b == 32 || b == 9 || b == 10 || b == 13),
{
    b == 32 || b == 9 || b == 10 || b == 13
}

/// Common settings for HTTP collectors.
pub struct HttpCollectorSettings {
    /// Whether to collect headers.
    pub collect_headers: bool,
    /// Whether to collect request and response bodies.
    pub collect_bodies: bool,
    /// Maximum size of collected bodies in bytes.
    pub max_body_size: usize,
    /// Headers to collect; empty means all.
    pub include_headers: Vec<String>,
    /// Headers to exclude.
    pub exclude_headers: Vec<String>,
    /// Whether to collect TLS information.
    pub collect_tls_info: bool,
}

impl HttpCollectorSettings {
    /// The defaults: headers on, bodies off at one kibibyte, the usual
    /// tracing headers included and the credential headers excluded.
    pub fn new_default() -> (r: HttpCollectorSettings)
        ensures
            r.collect_headers,
            !r.collect_bodies,
            r.max_body_size == 1024,
            r.include_headers@.len() == 5,
            r.exclude_headers@.len() == 4,
            r.collect_tls_info,
    {
        let mut include_headers: Vec<String> = Vec::new();
        include_headers.push("content-type".to_owned());
        include_headers.push("content-length".to_owned());
        include_headers.push("user-agent".to_owned());
        include_headers.push("x-request-id".to_owned());
        include_headers.push("x-trace-id".to_owned());
        let mut exclude_headers: Vec<String> = Vec::new();
        exclude_headers.push("authorization".to_owned());
        exclude_headers.push("cookie".to_owned());
        exclude_headers.push("set-cookie".to_owned());
        exclude_headers.push("x-api-key".to_owned());
        HttpCollectorSettings {
            collect_headers: true,
            collect_bodies: false,
            max_body_size: 1024,
            include_headers,
            exclude_headers,
            collect_tls_info: true,
        }
    }
}

/// Overlay HTTP collector settings with the valid values of a
/// configuration map; absent or malformed values keep the defaults.
pub fn merge_http_settings(
    defaults: &HttpCollectorSettings,
    config_settings: Option<&Vec<(String, String)>>,
) -> (r: Result<HttpCollectorSettings, AgentError>)
    ensures
        r is Ok,
        r is Ok ==> ({
            let m = r.unwrap();
            let cfg = spec_config_model(config_settings);
            &&& m.collect_headers == spec_bool_or(cfg, "collect_headers"@, defaults.collect_headers)
            &&& m.collect_bodies == spec_bool_or(cfg, "collect_bodies"@, defaults.collect_bodies)
            &&& m.collect_tls_info == spec_bool_or(
                cfg,
                "collect_tls_info"@,
                defaults.collect_tls_info,
            )
            &&& m.max_body_size as int == spec_usize_or(
                cfg,
                "max_body_size"@,
                defaults.max_body_size as int,
            )
            &&& (spec_setting(cfg, "include_headers"@) is None ==> m.include_headers@
                == defaults.include_headers@)
            &&& (spec_setting(cfg, "exclude_headers"@) is None ==> m.exclude_headers@
                == defaults.exclude_headers@)
        }),
{
    let mut m = HttpCollectorSettings {
        collect_headers: defaults.collect_headers,
        collect_bodies: defaults.collect_bodies,
        max_body_size: defaults.max_body_size,
        include_headers: clone_settings_list(&defaults.include_headers),
        exclude_headers: clone_settings_list(&defaults.exclude_headers),
        collect_tls_info: defaults.collect_tls_info,
    };
    match config_settings {
        None => Ok(m),
        Some(cfg) => {
            m.collect_headers = bool_setting(cfg, "collect_headers", defaults.collect_headers);
            m.collect_bodies = bool_setting(cfg, "collect_bodies", defaults.collect_bodies);
            m.collect_tls_info = bool_setting(cfg, "collect_tls_info", defaults.collect_tls_info);
            m.max_body_size = usize_setting(cfg, "max_body_size", defaults.max_body_size);
            match lookup_setting(cfg, "include_headers") {
                Some(v) => {
                    m.include_headers = split_csv(v.as_str());
                },
                None => {},
            }
            match lookup_setting(cfg, "exclude_headers") {
                Some(v) => {
                    m.exclude_headers = split_csv(v.as_str());
                },
                None => {},
            }
            Ok(m)
        },
    }
}

/// The model of an optional settings map.
pub open spec fn spec_config_model(cfg: Option<&Vec<(String, String)>>) -> Seq<
    (Seq<char>, Seq<char>),
> {
    match cfg {
        Some(c) => settings_model(c@),
        None => Seq::empty(),
    }
}

/// A boolean setting's effective value: the stored truthiness when the
/// key is present, the fallback otherwise.
pub open spec fn spec_bool_or(
    cfg: Seq<(Seq<char>, Seq<char>)>,
    key: Seq<char>,
    fallback: bool,
) -> bool {
    match spec_setting(cfg, key) {
        Some(v) => spec_truthy(v),
        None => fallback,
    }
}

/// A numeric setting's effective value: the parsed number when the key
/// holds a valid one that fits `usize`, the fallback otherwise.
pub open spec fn spec_usize_or(
    cfg: Seq<(Seq<char>, Seq<char>)>,
    key: Seq<char>,
    fallback: int,
) -> int {
    match spec_setting(cfg, key) {
        Some(v) => {
            if v.len() > 0 && spec_all_digits(v) && spec_digits_val(v) <= usize::MAX {
                spec_digits_val(v)
            } else {
                fallback
            }
        },
        None => fallback,
    }
}

/// Read a boolean setting with a fallback.
fn bool_setting(cfg: &Vec<(String, String)>, key: &str, fallback: bool) -> (r: bool)
    ensures
        r == spec_bool_or(settings_model(cfg@), key@, fallback),
{
    match lookup_setting(cfg, key) {
        Some(v) => is_truthy(v.as_str()),
        None => fallback,
    }
}

/// Read a numeric setting with a fallback.
fn usize_setting(cfg: &Vec<(String, String)>, key: &str, fallback: usize) -> (r: usize)
    ensures
        r as int == spec_usize_or(settings_model(cfg@), key@, fallback as int),
{
    match lookup_setting(cfg, key) {
        Some(v) => {
            match parse_u64(v.as_str()) {
                Some(n) => {
                    if n <= usize::MAX as u64 {
                        n as usize
                    } else {
                        fallback
                    }
                },
                None => fallback,
            }
        },
        None => fallback,
    }
}

/// Read a 64-bit numeric setting with a fallback.
fn u64_setting(cfg: &Vec<(String, String)>, key: &str, fallback: u64) -> (r: u64)
    ensures
        r as int == (match spec_setting(settings_model(cfg@), key@) {
            Some(v) => {
                if v.len() > 0 && spec_all_digits(v) && spec_digits_val(v) <= u64::MAX {
                    spec_digits_val(v)
                } else {
                    fallback as int
                }
            },
            None => fallback as int,
        }),
{
    match lookup_setting(cfg, key) {
        Some(v) => {
            match parse_u64(v.as_str()) {
                Some(n) => n,
                None => fallback,
            }
        },
        None => fallback,
    }
}

/// Read an optional text setting, copying the stored value.
fn text_setting(cfg: &Vec<(String, String)>, key: &str) -> (r: Option<String>)
    ensures
        r is Some <==> spec_setting(settings_model(cfg@), key@) is Some,
        r matches Some(v) ==> v@ == spec_setting(settings_model(cfg@), key@).unwrap(),
{
    match lookup_setting(cfg, key) {
        Some(v) => Some(v.clone()),
        None => None,
    }
}

/// Copy a list of strings.
fn clone_settings_list(list: &Vec<String>) -> (r: Vec<String>)
    ensures
        r@ == list@,
{
    let mut out: Vec<String> = Vec::new();
    let mut i: usize = 0;
    while i < list.len()
        invariant
            i <= list@.len(),
            out@ =~= list@.take(i as int),
        decreases list@.len() - i,
    {
        out.push(list[i].clone());
        proof {
            assert(out@ =~= list@.take(i as int + 1));
        }
        i = i + 1;
    }
    proof {
        assert(list@.take(list@.len() as int) =~= list@);
    }
    out
}

/// Common settings for database collectors.
pub struct DatabaseCollectorSettings {
    /// Whether to collect query text.
    pub collect_queries: bool,
    /// Maximum query length to collect.
    pub max_query_length: usize,
    /// Whether to collect parameters.
    pub collect_parameters: bool,
    /// Whether to collect execution plans.
    pub collect_execution_plans: bool,
    /// Whether to collect table metrics.
    pub collect_table_metrics: bool,
    /// Maximum queries kept in memory.
    pub max_queries: usize,
}

impl DatabaseCollectorSettings {
    /// The defaults: queries on up to a thousand characters, plans and
    /// parameters off, table metrics on, a hundred queries kept.
    pub fn new_default() -> (r: DatabaseCollectorSettings)
        ensures
            r.collect_queries,
            r.max_query_length == 1000,
            !r.collect_parameters,
            !r.collect_execution_plans,
            r.collect_table_metrics,
            r.max_queries == 100,
    {
        DatabaseCollectorSettings {
            collect_queries: true,
            max_query_length: 1000,
            collect_parameters: false,
            collect_execution_plans: false,
            collect_table_metrics: true,
            max_queries: 100,
        }
    }
}

/// Overlay database collector settings with the valid values of a
/// configuration map.
pub fn merge_db_settings(
    defaults: &DatabaseCollectorSettings,
    config_settings: Option<&Vec<(String, String)>>,
) -> (r: Result<DatabaseCollectorSettings, AgentError>)
    ensures
        r is Ok,
        r is Ok ==> ({
            let m = r.unwrap();
            let cfg = spec_config_model(config_settings);
            &&& m.collect_queries == spec_bool_or(cfg, "collect_queries"@, defaults.collect_queries)
            &&& m.collect_parameters == spec_bool_or(
                cfg,
                "collect_parameters"@,
                defaults.collect_parameters,
            )
            &&& m.collect_execution_plans == spec_bool_or(
                cfg,
                "collect_execution_plans"@,
                defaults.collect_execution_plans,
            )
            &&& m.collect_table_metrics == spec_bool_or(
                cfg,
                "collect_table_metrics"@,
                defaults.collect_table_metrics,
            )
            &&& m.max_query_length as int == spec_usize_or(
                cfg,
                "max_query_length"@,
                defaults.max_query_length as int,
            )
            &&& m.max_queries as int == spec_usize_or(
                cfg,
                "max_queries"@,
                defaults.max_queries as int,
            )
        }),
{
    let mut m = DatabaseCollectorSettings {
        collect_queries: defaults.collect_queries,
        max_query_length: defaults.max_query_length,
        collect_parameters: defaults.collect_parameters,
        collect_execution_plans: defaults.collect_execution_plans,
        collect_table_metrics: defaults.collect_table_metrics,
        max_queries: defaults.max_queries,
    };
    match config_settings {
        None => Ok(m),
        Some(cfg) => {
            m.collect_queries = bool_setting(cfg, "collect_queries", defaults.collect_queries);
            m.collect_parameters = bool_setting(
                cfg,
                "collect_parameters",
                defaults.collect_parameters,
            );
            m.collect_execution_plans = bool_setting(
                cfg,
                "collect_execution_plans",
                defaults.collect_execution_plans,
            );
            m.collect_table_metrics = bool_setting(
                cfg,
                "collect_table_metrics",
                defaults.collect_table_metrics,
            );
            m.max_query_length = usize_setting(cfg, "max_query_length", defaults.max_query_length);
            m.max_queries = usize_setting(cfg, "max_queries", defaults.max_queries);
            Ok(m)
        },
    }
}

/// Common settings for AWS SDK collectors.
pub struct AwsSdkCollectorSettings {
    /// The AWS region, if set.
    pub region: Option<String>,
    /// The AWS profile, if set.
    pub profile: Option<String>,
    /// Whether to use environment credentials.
    pub use_environment: bool,
    /// Whether to use the instance profile.
    pub use_instance_profile: bool,
    /// An endpoint override, if set.
    pub endpoint: Option<String>,
    /// Whether to collect detailed metrics.
    pub detailed_metrics: bool,
}

impl AwsSdkCollectorSettings {
    /// The defaults: environment credentials, nothing else set; the
    /// region comes from the environment and is passed in by the host.
    pub fn new_default(region: Option<String>) -> (r: AwsSdkCollectorSettings)
        ensures
            r.region == region,
            r.profile is None,
            r.use_environment,
            !r.use_instance_profile,
            r.endpoint is None,
            !r.detailed_metrics,
    {
        AwsSdkCollectorSettings {
            region,
            profile: None,
            use_environment: true,
            use_instance_profile: false,
            endpoint: None,
            detailed_metrics: false,
        }
    }
}

/// Overlay AWS SDK collector settings with the valid values of a
/// configuration map.
pub fn merge_aws_settings(
    defaults: &AwsSdkCollectorSettings,
    config_settings: Option<&Vec<(String, String)>>,
) -> (r: Result<AwsSdkCollectorSettings, AgentError>)
    ensures
        r is Ok,
        r is Ok ==> ({
            let m = r.unwrap();
            let cfg = spec_config_model(config_settings);
            &&& m.use_environment == spec_bool_or(cfg, "use_environment"@, defaults.use_environment)
            &&& m.use_instance_profile == spec_bool_or(
                cfg,
                "use_instance_profile"@,
                defaults.use_instance_profile,
            )
            &&& m.detailed_metrics == spec_bool_or(
                cfg,
                "detailed_metrics"@,
                defaults.detailed_metrics,
            )
            &&& (spec_setting(cfg, "region"@) is None ==> m.region == defaults.region)
            &&& (spec_setting(cfg, "region"@) matches Some(v) ==> (m.region matches Some(mr)
                && mr@ == v))
            &&& (spec_setting(cfg, "profile"@) is None ==> m.profile == defaults.profile)
            &&& (spec_setting(cfg, "endpoint"@) is None ==> m.endpoint == defaults.endpoint)
        }),
{
    let mut m = AwsSdkCollectorSettings {
        region: clone_opt_string(&defaults.region),
        profile: clone_opt_string(&defaults.profile),
        use_environment: defaults.use_environment,
        use_instance_profile: defaults.use_instance_profile,
        endpoint: clone_opt_string(&defaults.endpoint),
        detailed_metrics: defaults.detailed_metrics,
    };
    match config_settings {
        None => Ok(m),
        Some(cfg) => {
            match text_setting(cfg, "region") {
                Some(v) => {
                    m.region = Some(v);
                },
                None => {},
            }
            match text_setting(cfg, "profile") {
                Some(v) => {
                    m.profile = Some(v);
                },
                None => {},
            }
            match text_setting(cfg, "endpoint") {
                Some(v) => {
                    m.endpoint = Some(v);
                },
                None => {},
            }
            m.use_environment = bool_setting(cfg, "use_environment", defaults.use_environment);
            m.use_instance_profile = bool_setting(
                cfg,
                "use_instance_profile",
                defaults.use_instance_profile,
            );
            m.detailed_metrics = bool_setting(cfg, "detailed_metrics", defaults.detailed_metrics);
            Ok(m)
        },
    }
}

/// Copy an optional string.
fn clone_opt_string(v: &Option<String>) -> (r: Option<String>)
    ensures
        r == *v,
{
    match v {
        Some(s) => Some(s.clone()),
        None => None,
    }
}

/// Common settings for system metrics collectors.
pub struct SystemCollectorSettings {
    /// Collection interval in seconds.
    pub interval_seconds: u64,
    /// Whether to collect per-core CPU metrics.
    pub collect_per_core: bool,
    /// Whether to collect per-process metrics.
    pub collect_per_process: bool,
    /// Maximum processes to monitor.
    pub max_processes: usize,
    /// Whether to collect detailed metrics.
    pub collect_detailed: bool,
}

impl SystemCollectorSettings {
    /// The defaults: a minute interval, per-core on, per-process off,
    /// the ten busiest processes, details off.
    pub fn new_default() -> (r: SystemCollectorSettings)
        ensures
            r.interval_seconds == 60,
            r.collect_per_core,
            !r.collect_per_process,
            r.max_processes == 10,
            !r.collect_detailed,
    {
        SystemCollectorSettings {
            interval_seconds: 60,
            collect_per_core: true,
            collect_per_process: false,
            max_processes: 10,
            collect_detailed: false,
        }
    }
}

/// Overlay system collector settings with the valid values of a
/// configuration map.
pub fn merge_system_settings(
    defaults: &SystemCollectorSettings,
    config_settings: Option<&Vec<(String, String)>>,
) -> (r: Result<SystemCollectorSettings, AgentError>)
    ensures
        r is Ok,
        r is Ok ==> ({
            let m = r.unwrap();
            let cfg = spec_config_model(config_settings);
            &&& m.collect_per_core == spec_bool_or(
                cfg,
                "collect_per_core"@,
                defaults.collect_per_core,
            )
            &&& m.collect_per_process == spec_bool_or(
                cfg,
                "collect_per_process"@,
                defaults.collect_per_process,
            )
            &&& m.collect_detailed == spec_bool_or(
                cfg,
                "collect_detailed"@,
                defaults.collect_detailed,
            )
            &&& m.max_processes as int == spec_usize_or(
                cfg,
                "max_processes"@,
                defaults.max_processes as int,
            )
        }),
{
    let mut m = SystemCollectorSettings {
        interval_seconds: defaults.interval_seconds,
        collect_per_core: defaults.collect_per_core,
        collect_per_process: defaults.collect_per_process,
        max_processes: defaults.max_processes,
        collect_detailed: defaults.collect_detailed,
    };
    match config_settings {
        None => Ok(m),
        Some(cfg) => {
            m.interval_seconds = u64_setting(cfg, "interval_seconds", defaults.interval_seconds);
            m.collect_per_core = bool_setting(cfg, "collect_per_core", defaults.collect_per_core);
            m.collect_per_process = bool_setting(
                cfg,
                "collect_per_process",
                defaults.collect_per_process,
            );
            m.max_processes = usize_setting(cfg, "max_processes", defaults.max_processes);
            m.collect_detailed = bool_setting(cfg, "collect_detailed", defaults.collect_detailed);
            Ok(m)
        },
    }
}

} // verus!
