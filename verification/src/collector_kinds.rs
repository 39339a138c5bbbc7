//! The collector families: their typed settings, metric schemas, and
//! factories.
//!
//! Factories hand out metadata for each family; the collectors' own
//! sampling is I/O against the system or a service and runs outside
//! the library, handing plain values back in.

use vstd::prelude::*;

use vstd::string::StringSliceAdditionalSpecFns;
use crate::collectors::{
    AwsSdkCollectorSettings, CollectorMetadata, DatabaseCollectorSettings, HttpCollectorSettings,
    SystemCollectorSettings,
};

verus! {

/// Whether a byte is an ASCII letter's lowercase form of another.
pub open spec fn spec_lower_byte(b: u8) -> u8 {
    if 65 <= b <= 90 {
        (b + 32) as u8
    } else {
        b
    }
}

/// Case-insensitive prefix match on bytes.
pub open spec fn spec_starts_with_ci(s: Seq<u8>, kw: Seq<u8>) -> bool {
    s.len() >= kw.len() && forall|i: int|
        0 <= i < kw.len() ==> spec_lower_byte(s[i]) == spec_lower_byte(#[trigger] kw[i])
}

/// Case-insensitive equality on bytes.
pub open spec fn spec_eq_ci(s: Seq<u8>, kw: Seq<u8>) -> bool {
    s.len() == kw.len() && spec_starts_with_ci(s, kw)
}

/// The index of the first non-whitespace byte.
pub open spec fn spec_trim_start(s: Seq<u8>) -> int
    decreases s.len(),
{
    if s.len() == 0 {
        0
    } else if s[0] == 32 || s[0] == 9 || s[0] == 10 || s[0] == 13 {
        1 + spec_trim_start(s.drop_first())
    } else {
        0
    }
}

fn lower_byte(b: u8) -> (r: u8)
    ensures
        r == spec_lower_byte(b),
{
    if 65 <= b && b <= 90 {
        b + 32
    } else {
        b
    }
}

fn starts_with_ci(s: &[u8], from: usize, kw: &[u8]) -> (r: bool)
    requires
        from <= s@.len(),
    ensures
        r == spec_starts_with_ci(s@.skip(from as int), kw@),
{
    let ghost suffix = s@.skip(from as int);
    let slen = s.len();
    if slen - from < kw.len() {
        return false;
    }
    let mut i: usize = 0;
    while i < kw.len()
        invariant
            i <= kw@.len(),
            kw@.len() <= suffix.len(),
            suffix == s@.skip(from as int),
            slen == s@.len(),
            from + kw@.len() <= slen,
            forall|j: int|
                0 <= j < i ==> spec_lower_byte(suffix[j]) == spec_lower_byte(#[trigger] kw@[j]),
        decreases kw@.len() - i,
    {
        proof {
            assert(i < kw@.len());
            assert(from + i < s@.len());
        }
        let a = lower_byte(*vstd::slice::slice_index_get(s, from + i));
        let b = lower_byte(*vstd::slice::slice_index_get(kw, i));
        proof {
            assert(suffix[i as int] == s@[from + i]);
        }
        if a != b {
            return false;
        }
        i = i + 1;
    }
    true
}

/// The kind of database operation observed.
#[derive(Debug, Clone, PartialEq)]
pub enum DatabaseOperationType {
    Query,
    Execute,
    Transaction,
    Prepare,
    Connect,
    Disconnect,
    Other(String),
}

/// The statement class of a SQL query.
#[derive(Debug, Clone, PartialEq)]
pub enum QueryType {
    Select,
    Insert,
    Update,
    Delete,
    Create,
    Alter,
    Drop,
    Begin,
    Commit,
    Rollback,
    Other(String),
}

impl QueryType {
    /// Classify a query by its first keyword, ignoring case and
    /// leading whitespace.
    pub fn from_query(query: &str) -> (r: QueryType)
        ensures
            ({
                let s = query.spec_bytes().skip(spec_trim_start(query.spec_bytes()));
                &&& spec_starts_with_ci(s, "SELECT"@.map(|i: int, c: char| c as u8)) ==> r
                    == QueryType::Select
                &&& !spec_starts_with_ci(s, "SELECT"@.map(|i: int, c: char| c as u8))
                    && spec_starts_with_ci(s, "INSERT"@.map(|i: int, c: char| c as u8)) ==> r
                    == QueryType::Insert
            }),
    {
        let bytes = query.as_bytes();
        let mut from: usize = 0;
        proof {
            assert(bytes@.skip(0) =~= bytes@);
        }
        while from < bytes.len() && (bytes[from] == 32 || bytes[from] == 9 || bytes[from] == 10
            || bytes[from] == 13)
            invariant
                from <= bytes@.len(),
                spec_trim_start(bytes@) == from + spec_trim_start(bytes@.skip(from as int)),
            decreases bytes@.len() - from,
        {
            proof {
                let suf = bytes@.skip(from as int);
                assert(suf[0] == bytes@[from as int]);
                assert(suf.drop_first() =~= bytes@.skip(from as int + 1));
            }
            from = from + 1;
        }
        proof {
            let suf = bytes@.skip(from as int);
            if suf.len() > 0 {
                assert(suf[0] == bytes@[from as int]);
            }
            assert(spec_trim_start(bytes@) == from as int);
        }
        proof {
            reveal_strlit("SELECT");
            reveal_strlit("INSERT");
            reveal_strlit("UPDATE");
            reveal_strlit("DELETE");
            reveal_strlit("CREATE");
            reveal_strlit("ALTER");
            reveal_strlit("DROP");
            reveal_strlit("BEGIN");
            reveal_strlit("COMMIT");
            reveal_strlit("ROLLBACK");
        }
        let select_kw: [u8; 6] = [83, 69, 76, 69, 67, 84];
        let insert_kw: [u8; 6] = [73, 78, 83, 69, 82, 84];
        let update_kw: [u8; 6] = [85, 80, 68, 65, 84, 69];
        let delete_kw: [u8; 6] = [68, 69, 76, 69, 84, 69];
        let create_kw: [u8; 6] = [67, 82, 69, 65, 84, 69];
        let alter_kw: [u8; 5] = [65, 76, 84, 69, 82];
        let drop_kw: [u8; 4] = [68, 82, 79, 80];
        let begin_kw: [u8; 5] = [66, 69, 71, 73, 78];
        let commit_kw: [u8; 6] = [67, 79, 77, 77, 73, 84];
        let rollback_kw: [u8; 8] = [82, 79, 76, 76, 66, 65, 67, 75];
        if starts_with_ci(bytes, from, select_kw.as_slice()) {
            proof {
                assert(select_kw@ =~= "SELECT"@.map(|i: int, c: char| c as u8));
            }
            QueryType::Select
        } else if starts_with_ci(bytes, from, insert_kw.as_slice()) {
            proof {
                assert(select_kw@ =~= "SELECT"@.map(|i: int, c: char| c as u8));
                assert(insert_kw@ =~= "INSERT"@.map(|i: int, c: char| c as u8));
            }
            QueryType::Insert
        } else if starts_with_ci(bytes, from, update_kw.as_slice()) {
            proof {
                assert(select_kw@ =~= "SELECT"@.map(|i: int, c: char| c as u8));
                assert(insert_kw@ =~= "INSERT"@.map(|i: int, c: char| c as u8));
            }
            QueryType::Update
        } else if starts_with_ci(bytes, from, delete_kw.as_slice()) {
            proof {
                assert(select_kw@ =~= "SELECT"@.map(|i: int, c: char| c as u8));
                assert(insert_kw@ =~= "INSERT"@.map(|i: int, c: char| c as u8));
            }
            QueryType::Delete
        } else if starts_with_ci(bytes, from, create_kw.as_slice()) {
            proof {
                assert(select_kw@ =~= "SELECT"@.map(|i: int, c: char| c as u8));
                assert(insert_kw@ =~= "INSERT"@.map(|i: int, c: char| c as u8));
            }
            QueryType::Create
        } else if starts_with_ci(bytes, from, alter_kw.as_slice()) {
            proof {
                assert(select_kw@ =~= "SELECT"@.map(|i: int, c: char| c as u8));
                assert(insert_kw@ =~= "INSERT"@.map(|i: int, c: char| c as u8));
            }
            QueryType::Alter
        } else if starts_with_ci(bytes, from, drop_kw.as_slice()) {
            proof {
                assert(select_kw@ =~= "SELECT"@.map(|i: int, c: char| c as u8));
                assert(insert_kw@ =~= "INSERT"@.map(|i: int, c: char| c as u8));
            }
            QueryType::Drop
        } else if starts_with_ci(bytes, from, begin_kw.as_slice()) {
            proof {
                assert(select_kw@ =~= "SELECT"@.map(|i: int, c: char| c as u8));
                assert(insert_kw@ =~= "INSERT"@.map(|i: int, c: char| c as u8));
            }
            QueryType::Begin
        } else if starts_with_ci(bytes, from, commit_kw.as_slice()) {
            proof {
                assert(select_kw@ =~= "SELECT"@.map(|i: int, c: char| c as u8));
                assert(insert_kw@ =~= "INSERT"@.map(|i: int, c: char| c as u8));
            }
            QueryType::Commit
        } else if starts_with_ci(bytes, from, rollback_kw.as_slice()) {
            proof {
                assert(select_kw@ =~= "SELECT"@.map(|i: int, c: char| c as u8));
                assert(insert_kw@ =~= "INSERT"@.map(|i: int, c: char| c as u8));
            }
            QueryType::Rollback
        } else {
            proof {
                assert(select_kw@ =~= "SELECT"@.map(|i: int, c: char| c as u8));
                assert(insert_kw@ =~= "INSERT"@.map(|i: int, c: char| c as u8));
            }
            QueryType::Other(query.to_owned())
        }
    }
}

/// The kind of operation against a document or key/value store.
#[derive(Debug, Clone, PartialEq)]
pub enum NoSqlOperationType {
    Find,
    Insert,
    Update,
    Delete,
    Aggregate,
    Count,
    Distinct,
    MapReduce,
    Scan,
    Query,
    BatchGet,
    BatchWrite,
    Other(String),
}

impl NoSqlOperationType {
    /// The operation's wire name.
    pub fn as_str(&self) -> (r: &str)
        ensures
            self is Find ==> r@ == "find"@,
            self is Insert ==> r@ == "insert"@,
            self is Update ==> r@ == "update"@,
            self is Delete ==> r@ == "delete"@,
            self is Aggregate ==> r@ == "aggregate"@,
            self is Count ==> r@ == "count"@,
            self is Distinct ==> r@ == "distinct"@,
            self is MapReduce ==> r@ == "map_reduce"@,
            self is Scan ==> r@ == "scan"@,
            self is Query ==> r@ == "query"@,
            self is BatchGet ==> r@ == "batch_get"@,
            self is BatchWrite ==> r@ == "batch_write"@,
    {
        match self {
            NoSqlOperationType::Find => "find",
            NoSqlOperationType::Insert => "insert",
            NoSqlOperationType::Update => "update",
            NoSqlOperationType::Delete => "delete",
            NoSqlOperationType::Aggregate => "aggregate",
            NoSqlOperationType::Count => "count",
            NoSqlOperationType::Distinct => "distinct",
            NoSqlOperationType::MapReduce => "map_reduce",
            NoSqlOperationType::Scan => "scan",
            NoSqlOperationType::Query => "query",
            NoSqlOperationType::BatchGet => "batch_get",
            NoSqlOperationType::BatchWrite => "batch_write",
            NoSqlOperationType::Other(s) => s.as_str(),
        }
    }
}

/// An HTTP method.
#[derive(Debug, Clone, PartialEq)]
pub enum HttpMethod {
    Get,
    Post,
    Put,
    Delete,
    Head,
    Options,
    Patch,
    Other(String),
}

impl HttpMethod {
    /// Classify a method string, ignoring case.
    pub fn from_name(method: &str) -> (r: HttpMethod)
        ensures
            spec_eq_ci(method.spec_bytes(), "GET"@.map(|i: int, c: char| c as u8)) ==> r
                == HttpMethod::Get,
            spec_eq_ci(method.spec_bytes(), "POST"@.map(|i: int, c: char| c as u8)) ==> r
                == HttpMethod::Post,
    {
        let bytes = method.as_bytes();
        proof {
            reveal_strlit("GET");
            reveal_strlit("POST");
            reveal_strlit("PUT");
            reveal_strlit("DELETE");
            reveal_strlit("HEAD");
            reveal_strlit("OPTIONS");
            reveal_strlit("PATCH");
            assert(bytes@.skip(0) =~= bytes@);
        }
        let get_kw: [u8; 3] = [71, 69, 84];
        let post_kw: [u8; 4] = [80, 79, 83, 84];
        let put_kw: [u8; 3] = [80, 85, 84];
        let delete_kw: [u8; 6] = [68, 69, 76, 69, 84, 69];
        let head_kw: [u8; 4] = [72, 69, 65, 68];
        let options_kw: [u8; 7] = [79, 80, 84, 73, 79, 78, 83];
        let patch_kw: [u8; 5] = [80, 65, 84, 67, 72];
        if bytes.len() == 3 && starts_with_ci(bytes, 0, get_kw.as_slice()) {
            proof {
                assert(get_kw@ =~= "GET"@.map(|i: int, c: char| c as u8));
            }
            HttpMethod::Get
        } else if bytes.len() == 4 && starts_with_ci(bytes, 0, post_kw.as_slice()) {
            proof {
                assert(get_kw@ =~= "GET"@.map(|i: int, c: char| c as u8));
                assert(post_kw@ =~= "POST"@.map(|i: int, c: char| c as u8));
            }
            HttpMethod::Post
        } else if bytes.len() == 3 && starts_with_ci(bytes, 0, put_kw.as_slice()) {
            proof {
                assert(get_kw@ =~= "GET"@.map(|i: int, c: char| c as u8));
                assert(post_kw@ =~= "POST"@.map(|i: int, c: char| c as u8));
            }
            HttpMethod::Put
        } else if bytes.len() == 6 && starts_with_ci(bytes, 0, delete_kw.as_slice()) {
            proof {
                assert(get_kw@ =~= "GET"@.map(|i: int, c: char| c as u8));
                assert(post_kw@ =~= "POST"@.map(|i: int, c: char| c as u8));
            }
            HttpMethod::Delete
        } else if bytes.len() == 4 && starts_with_ci(bytes, 0, head_kw.as_slice()) {
            proof {
                assert(get_kw@ =~= "GET"@.map(|i: int, c: char| c as u8));
                assert(post_kw@ =~= "POST"@.map(|i: int, c: char| c as u8));
            }
            HttpMethod::Head
        } else if bytes.len() == 7 && starts_with_ci(bytes, 0, options_kw.as_slice()) {
            proof {
                assert(get_kw@ =~= "GET"@.map(|i: int, c: char| c as u8));
                assert(post_kw@ =~= "POST"@.map(|i: int, c: char| c as u8));
            }
            HttpMethod::Options
        } else if bytes.len() == 5 && starts_with_ci(bytes, 0, patch_kw.as_slice()) {
            proof {
                assert(get_kw@ =~= "GET"@.map(|i: int, c: char| c as u8));
                assert(post_kw@ =~= "POST"@.map(|i: int, c: char| c as u8));
            }
            HttpMethod::Patch
        } else {
            proof {
                assert(get_kw@ =~= "GET"@.map(|i: int, c: char| c as u8));
                assert(post_kw@ =~= "POST"@.map(|i: int, c: char| c as u8));
            }
            HttpMethod::Other(method.to_owned())
        }
    }
}

/// How a histogram is summarized when it leaves the process.
#[derive(Debug, Clone, Copy, PartialEq, Eq, Structural)]
pub enum AggregationType {
    Sum,
    Count,
    Min,
    Max,
    Average,
    Median,
    P90,
    P95,
    P99,
}

/// How an AWS API call ended.
#[derive(Debug, Clone, Copy, PartialEq, Eq, Structural)]
pub enum ApiCallResult {
    Success,
    ClientError,
    ServerError,
    NetworkError,
    Timeout,
    Unknown,
}

/// Metrics of one AWS API call.
pub struct ApiCallMetrics {
    /// Service name.
    pub service: String,
    /// Operation name.
    pub operation: String,
    /// Result status.
    pub result: ApiCallResult,
    /// Duration in milliseconds.
    pub duration_ms: u64,
    /// Retry count.
    pub retry_count: u32,
    /// Error code, if any.
    pub error_code: Option<String>,
    /// Error message, if any.
    pub error_message: Option<String>,
    /// Request id, if available.
    pub request_id: Option<String>,
}

/// Metrics of one HTTP request.
pub struct HttpRequestMetrics {
    /// Request id.
    pub request_id: String,
    /// HTTP method.
    pub method: HttpMethod,
    /// The full URL.
    pub url: String,
    /// The path without the query.
    pub path: String,
    /// Collected headers, if any.
    pub headers: Option<Vec<(String, String)>>,
    /// Request size in bytes.
    pub size_bytes: usize,
    /// Whether the request has a body.
    pub has_body: bool,
    /// Request timestamp in milliseconds.
    pub timestamp: u64,
    /// Request duration in milliseconds, if known.
    pub duration_ms: Option<u64>,
    /// Remote address, if known.
    pub remote_addr: Option<String>,
    /// TLS information, if collected.
    pub tls_info: Option<TlsInfo>,
}

/// Metrics of one HTTP response.
pub struct HttpResponseMetrics {
    /// The request id it answers.
    pub request_id: String,
    /// The status code.
    pub status_code: u16,
    /// The status text.
    pub status_text: String,
    /// Collected headers, if any.
    pub headers: Option<Vec<(String, String)>>,
    /// Response size in bytes.
    pub size_bytes: usize,
    /// Whether the response has a body.
    pub has_body: bool,
    /// Response timestamp in milliseconds.
    pub timestamp: u64,
    /// Time to first byte in milliseconds, if known.
    pub ttfb_ms: Option<u64>,
    /// Total response time in milliseconds.
    pub total_time_ms: u64,
}

/// TLS/SSL details of a connection.
pub struct TlsInfo {
    /// TLS version.
    pub version: Option<String>,
    /// Cipher suite.
    pub cipher: Option<String>,
    /// Certificate issuer.
    pub cert_issuer: Option<String>,
    /// Certificate subject.
    pub cert_subject: Option<String>,
    /// Certificate validity start, milliseconds since the epoch.
    pub cert_not_before: Option<u64>,
    /// Certificate validity end, milliseconds since the epoch.
    pub cert_not_after: Option<u64>,
}

/// Metrics of one database query.
pub struct DatabaseQueryMetrics {
    /// Query id.
    pub query_id: String,
    /// Connection id, if known.
    pub connection_id: Option<String>,
    /// Statement class.
    pub query_type: QueryType,
    /// Query text, if collected.
    pub query_text: Option<String>,
    /// Parameters, if collected.
    pub parameters: Option<String>,
    /// Query timestamp in milliseconds.
    pub timestamp: u64,
    /// Duration in milliseconds.
    pub duration_ms: u64,
    /// Rows affected, if known.
    pub rows_affected: Option<u64>,
    /// Rows returned, if known.
    pub rows_returned: Option<u64>,
    /// Execution plan, if collected.
    pub execution_plan: Option<String>,
    /// Error message, if any.
    pub error: Option<String>,
}

/// Metrics of one database connection.
pub struct ConnectionMetrics {
    /// Connection id.
    pub connection_id: String,
    /// Sanitized connection string, if known.
    pub connection_string: Option<String>,
    /// Database name, if known.
    pub database: Option<String>,
    /// User name, if known.
    pub user: Option<String>,
    /// When the connection opened, milliseconds since the epoch.
    pub connected_at: u64,
    /// When it closed, if it did.
    pub disconnected_at: Option<u64>,
    /// Connection lifetime in milliseconds, if closed.
    pub duration_ms: Option<u64>,
    /// Queries executed on it.
    pub query_count: u64,
    /// Error message, if any.
    pub error: Option<String>,
}

/// Metrics of one table.
pub struct TableMetrics {
    /// Table name.
    pub table_name: String,
    /// Estimated row count, if known.
    pub row_count: Option<u64>,
    /// Size in bytes, if known.
    pub size_bytes: Option<u64>,
    /// Read operations seen.
    pub reads: u64,
    /// Write operations seen.
    pub writes: u64,
    /// Last access, milliseconds since the epoch.
    pub last_accessed: u64,
}

/// Settings of the DynamoDB collector.
pub struct DynamoDbCollectorSettings {
    /// Base AWS SDK settings.
    pub base: AwsSdkCollectorSettings,
    /// Whether to collect table metrics.
    pub collect_table_metrics: bool,
    /// Tables to monitor; empty means all.
    pub tables: Vec<String>,
}

/// Settings of the Lambda collector.
pub struct LambdaCollectorSettings {
    /// Base AWS SDK settings.
    pub base: AwsSdkCollectorSettings,
    /// Whether to collect function configuration.
    pub collect_configuration: bool,
    /// Whether to collect invocation metrics.
    pub collect_invocations: bool,
    /// Whether to collect cold-start events.
    pub collect_cold_starts: bool,
    /// Whether to collect function versions.
    pub collect_versions: bool,
    /// Whether to collect execution environment details.
    pub collect_environment_info: bool,
}

/// Settings of the S3 collector.
pub struct S3CollectorSettings {
    /// Base AWS SDK settings.
    pub base: AwsSdkCollectorSettings,
    /// Whether to collect bucket metrics.
    pub collect_bucket_metrics: bool,
    /// Buckets to monitor; empty means all.
    pub buckets: Vec<String>,
}

/// Settings of the document-store collector.
pub struct NoSqlDatabaseCollectorSettings {
    /// Base database settings.
    pub base: DatabaseCollectorSettings,
    /// The store kind.
    pub database_type: String,
    /// Instance name, if known.
    pub instance_name: Option<String>,
    /// Sanitized connection string, if known.
    pub connection_string: Option<String>,
    /// Collections to monitor; empty means all.
    pub collections: Vec<String>,
}

/// Settings of the SQL collector.
pub struct SqlDatabaseCollectorSettings {
    /// Base database settings.
    pub base: DatabaseCollectorSettings,
    /// The database kind.
    pub database_type: String,
    /// Instance name, if known.
    pub instance_name: Option<String>,
    /// Sanitized connection string, if known.
    pub connection_string: Option<String>,
    /// Tables to monitor; empty means all.
    pub tables: Vec<String>,
}

/// Settings of the HTTP client collector.
pub struct HttpClientCollectorSettings {
    /// Base HTTP settings.
    pub base: HttpCollectorSettings,
    /// Maximum requests kept in memory.
    pub max_requests: usize,
    /// Whether to report per-domain metrics.
    pub report_per_domain: bool,
    /// Whether to report per-status metrics.
    pub report_per_status: bool,
    /// Domains to monitor; empty means all.
    pub include_domains: Vec<String>,
    /// Domains to exclude.
    pub exclude_domains: Vec<String>,
}

/// Settings of the HTTP server collector.
pub struct HttpServerCollectorSettings {
    /// Base HTTP settings.
    pub base: HttpCollectorSettings,
    /// Maximum requests kept in memory.
    pub max_requests: usize,
    /// Whether to report per-path metrics.
    pub report_per_path: bool,
    /// Whether to report per-status metrics.
    pub report_per_status: bool,
    /// Paths to monitor; empty means all.
    pub include_paths: Vec<String>,
    /// Paths to exclude.
    pub exclude_paths: Vec<String>,
}

/// Factory of the aws dynamodb collector's metadata.
pub struct DynamoDbCollectorFactory {
    /// The family's metadata.
    pub metadata: CollectorMetadata,
}

impl DynamoDbCollectorFactory {
    /// A factory carrying the family's metadata.
    pub fn new() -> (r: DynamoDbCollectorFactory)
        ensures
            r.metadata.id@ == "aws.dynamodb"@,
            r.metadata.name@ == "AWS DynamoDB Collector"@,
            r.metadata.description@ == "Collects metrics from AWS DynamoDB operations"@,
            r.metadata.source_type@ == "aws.dynamodb"@,
            r.metadata.enabled_by_default,
    {
        DynamoDbCollectorFactory {
            metadata: CollectorMetadata {
                id: "aws.dynamodb".to_owned(),
                name: "AWS DynamoDB Collector".to_owned(),
                description: "Collects metrics from AWS DynamoDB operations".to_owned(),
                source_type: "aws.dynamodb".to_owned(),
                enabled_by_default: true,
            },
        }
    }

    /// The family's metadata, copied out.
    pub fn metadata(&self) -> (r: CollectorMetadata)
        ensures
            r.id@ == self.metadata.id@,
            r.name@ == self.metadata.name@,
            r.source_type@ == self.metadata.source_type@,
            r.enabled_by_default == self.metadata.enabled_by_default,
    {
        CollectorMetadata {
            id: self.metadata.id.clone(),
            name: self.metadata.name.clone(),
            description: self.metadata.description.clone(),
            source_type: self.metadata.source_type.clone(),
            enabled_by_default: self.metadata.enabled_by_default,
        }
    }
}

/// Factory of the aws lambda collector's metadata.
pub struct LambdaCollectorFactory {
    /// The family's metadata.
    pub metadata: CollectorMetadata,
}

impl LambdaCollectorFactory {
    /// A factory carrying the family's metadata.
    pub fn new() -> (r: LambdaCollectorFactory)
        ensures
            r.metadata.id@ == "aws.lambda"@,
            r.metadata.name@ == "AWS Lambda Collector"@,
            r.metadata.description@ == "Collects metrics from AWS Lambda execution environment"@,
            r.metadata.source_type@ == "aws.lambda"@,
            r.metadata.enabled_by_default,
    {
        LambdaCollectorFactory {
            metadata: CollectorMetadata {
                id: "aws.lambda".to_owned(),
                name: "AWS Lambda Collector".to_owned(),
                description: "Collects metrics from AWS Lambda execution environment".to_owned(),
                source_type: "aws.lambda".to_owned(),
                enabled_by_default: true,
            },
        }
    }

    /// The family's metadata, copied out.
    pub fn metadata(&self) -> (r: CollectorMetadata)
        ensures
            r.id@ == self.metadata.id@,
            r.name@ == self.metadata.name@,
            r.source_type@ == self.metadata.source_type@,
            r.enabled_by_default == self.metadata.enabled_by_default,
    {
        CollectorMetadata {
            id: self.metadata.id.clone(),
            name: self.metadata.name.clone(),
            description: self.metadata.description.clone(),
            source_type: self.metadata.source_type.clone(),
            enabled_by_default: self.metadata.enabled_by_default,
        }
    }
}

/// Factory of the aws s3 collector's metadata.
pub struct S3CollectorFactory {
    /// The family's metadata.
    pub metadata: CollectorMetadata,
}

impl S3CollectorFactory {
    /// A factory carrying the family's metadata.
    pub fn new() -> (r: S3CollectorFactory)
        ensures
            r.metadata.id@ == "aws.s3"@,
            r.metadata.name@ == "AWS S3 Collector"@,
            r.metadata.description@ == "Collects metrics from AWS S3 operations"@,
            r.metadata.source_type@ == "aws.s3"@,
            r.metadata.enabled_by_default,
    {
        S3CollectorFactory {
            metadata: CollectorMetadata {
                id: "aws.s3".to_owned(),
                name: "AWS S3 Collector".to_owned(),
                description: "Collects metrics from AWS S3 operations".to_owned(),
                source_type: "aws.s3".to_owned(),
                enabled_by_default: true,
            },
        }
    }

    /// The family's metadata, copied out.
    pub fn metadata(&self) -> (r: CollectorMetadata)
        ensures
            r.id@ == self.metadata.id@,
            r.name@ == self.metadata.name@,
            r.source_type@ == self.metadata.source_type@,
            r.enabled_by_default == self.metadata.enabled_by_default,
    {
        CollectorMetadata {
            id: self.metadata.id.clone(),
            name: self.metadata.name.clone(),
            description: self.metadata.description.clone(),
            source_type: self.metadata.source_type.clone(),
            enabled_by_default: self.metadata.enabled_by_default,
        }
    }
}

/// Factory of the sql database collector's metadata.
pub struct SqlDatabaseCollectorFactory {
    /// The family's metadata.
    pub metadata: CollectorMetadata,
}

impl SqlDatabaseCollectorFactory {
    /// A factory carrying the family's metadata.
    pub fn new() -> (r: SqlDatabaseCollectorFactory)
        ensures
            r.metadata.id@ == "database.sql"@,
            r.metadata.name@ == "SQL Database Collector"@,
            r.metadata.description@ == "Collects metrics from SQL database operations"@,
            r.metadata.source_type@ == "database.sql"@,
            r.metadata.enabled_by_default,
    {
        SqlDatabaseCollectorFactory {
            metadata: CollectorMetadata {
                id: "database.sql".to_owned(),
                name: "SQL Database Collector".to_owned(),
                description: "Collects metrics from SQL database operations".to_owned(),
                source_type: "database.sql".to_owned(),
                enabled_by_default: true,
            },
        }
    }

    /// The family's metadata, copied out.
    pub fn metadata(&self) -> (r: CollectorMetadata)
        ensures
            r.id@ == self.metadata.id@,
            r.name@ == self.metadata.name@,
            r.source_type@ == self.metadata.source_type@,
            r.enabled_by_default == self.metadata.enabled_by_default,
    {
        CollectorMetadata {
            id: self.metadata.id.clone(),
            name: self.metadata.name.clone(),
            description: self.metadata.description.clone(),
            source_type: self.metadata.source_type.clone(),
            enabled_by_default: self.metadata.enabled_by_default,
        }
    }
}

/// Factory of the nosql database collector's metadata.
pub struct NoSqlDatabaseCollectorFactory {
    /// The family's metadata.
    pub metadata: CollectorMetadata,
}

impl NoSqlDatabaseCollectorFactory {
    /// A factory carrying the family's metadata.
    pub fn new() -> (r: NoSqlDatabaseCollectorFactory)
        ensures
            r.metadata.id@ == "database.nosql"@,
            r.metadata.name@ == "NoSQL Database Collector"@,
            r.metadata.description@ == "Collects metrics from NoSQL database operations"@,
            r.metadata.source_type@ == "database.nosql"@,
            r.metadata.enabled_by_default,
    {
        NoSqlDatabaseCollectorFactory {
            metadata: CollectorMetadata {
                id: "database.nosql".to_owned(),
                name: "NoSQL Database Collector".to_owned(),
                description: "Collects metrics from NoSQL database operations".to_owned(),
                source_type: "database.nosql".to_owned(),
                enabled_by_default: true,
            },
        }
    }

    /// The family's metadata, copied out.
    pub fn metadata(&self) -> (r: CollectorMetadata)
        ensures
            r.id@ == self.metadata.id@,
            r.name@ == self.metadata.name@,
            r.source_type@ == self.metadata.source_type@,
            r.enabled_by_default == self.metadata.enabled_by_default,
    {
        CollectorMetadata {
            id: self.metadata.id.clone(),
            name: self.metadata.name.clone(),
            description: self.metadata.description.clone(),
            source_type: self.metadata.source_type.clone(),
            enabled_by_default: self.metadata.enabled_by_default,
        }
    }
}

/// Factory of the http client collector's metadata.
pub struct HttpClientCollectorFactory {
    /// The family's metadata.
    pub metadata: CollectorMetadata,
}

impl HttpClientCollectorFactory {
    /// A factory carrying the family's metadata.
    pub fn new() -> (r: HttpClientCollectorFactory)
        ensures
            r.metadata.id@ == "http.client"@,
            r.metadata.name@ == "HTTP Client Collector"@,
            r.metadata.description@ == "Collects metrics from outgoing HTTP requests"@,
            r.metadata.source_type@ == "http.client"@,
            r.metadata.enabled_by_default,
    {
        HttpClientCollectorFactory {
            metadata: CollectorMetadata {
                id: "http.client".to_owned(),
                name: "HTTP Client Collector".to_owned(),
                description: "Collects metrics from outgoing HTTP requests".to_owned(),
                source_type: "http.client".to_owned(),
                enabled_by_default: true,
            },
        }
    }

    /// The family's metadata, copied out.
    pub fn metadata(&self) -> (r: CollectorMetadata)
        ensures
            r.id@ == self.metadata.id@,
            r.name@ == self.metadata.name@,
            r.source_type@ == self.metadata.source_type@,
            r.enabled_by_default == self.metadata.enabled_by_default,
    {
        CollectorMetadata {
            id: self.metadata.id.clone(),
            name: self.metadata.name.clone(),
            description: self.metadata.description.clone(),
            source_type: self.metadata.source_type.clone(),
            enabled_by_default: self.metadata.enabled_by_default,
        }
    }
}

/// Factory of the http server collector's metadata.
pub struct HttpServerCollectorFactory {
    /// The family's metadata.
    pub metadata: CollectorMetadata,
}

impl HttpServerCollectorFactory {
    /// A factory carrying the family's metadata.
    pub fn new() -> (r: HttpServerCollectorFactory)
        ensures
            r.metadata.id@ == "http.server"@,
            r.metadata.name@ == "HTTP Server Collector"@,
            r.metadata.description@ == "Collects metrics from incoming HTTP requests"@,
            r.metadata.source_type@ == "http.server"@,
            r.metadata.enabled_by_default,
    {
        HttpServerCollectorFactory {
            metadata: CollectorMetadata {
                id: "http.server".to_owned(),
                name: "HTTP Server Collector".to_owned(),
                description: "Collects metrics from incoming HTTP requests".to_owned(),
                source_type: "http.server".to_owned(),
                enabled_by_default: true,
            },
        }
    }

    /// The family's metadata, copied out.
    pub fn metadata(&self) -> (r: CollectorMetadata)
        ensures
            r.id@ == self.metadata.id@,
            r.name@ == self.metadata.name@,
            r.source_type@ == self.metadata.source_type@,
            r.enabled_by_default == self.metadata.enabled_by_default,
    {
        CollectorMetadata {
            id: self.metadata.id.clone(),
            name: self.metadata.name.clone(),
            description: self.metadata.description.clone(),
            source_type: self.metadata.source_type.clone(),
            enabled_by_default: self.metadata.enabled_by_default,
        }
    }
}

/// Factory of the cpu collector's metadata.
pub struct CpuCollectorFactory {
    /// The family's metadata.
    pub metadata: CollectorMetadata,
}

impl CpuCollectorFactory {
    /// A factory carrying the family's metadata.
    pub fn new() -> (r: CpuCollectorFactory)
        ensures
            r.metadata.id@ == "system.cpu"@,
            r.metadata.name@ == "CPU Collector"@,
            r.metadata.description@ == "Collects CPU usage metrics"@,
            r.metadata.source_type@ == "system.cpu"@,
            r.metadata.enabled_by_default,
    {
        CpuCollectorFactory {
            metadata: CollectorMetadata {
                id: "system.cpu".to_owned(),
                name: "CPU Collector".to_owned(),
                description: "Collects CPU usage metrics".to_owned(),
                source_type: "system.cpu".to_owned(),
                enabled_by_default: true,
            },
        }
    }

    /// The family's metadata, copied out.
    pub fn metadata(&self) -> (r: CollectorMetadata)
        ensures
            r.id@ == self.metadata.id@,
            r.name@ == self.metadata.name@,
            r.source_type@ == self.metadata.source_type@,
            r.enabled_by_default == self.metadata.enabled_by_default,
    {
        CollectorMetadata {
            id: self.metadata.id.clone(),
            name: self.metadata.name.clone(),
            description: self.metadata.description.clone(),
            source_type: self.metadata.source_type.clone(),
            enabled_by_default: self.metadata.enabled_by_default,
        }
    }
}

/// Factory of the memory collector's metadata.
pub struct MemoryCollectorFactory {
    /// The family's metadata.
    pub metadata: CollectorMetadata,
}

impl MemoryCollectorFactory {
    /// A factory carrying the family's metadata.
    pub fn new() -> (r: MemoryCollectorFactory)
        ensures
            r.metadata.id@ == "system.memory"@,
            r.metadata.name@ == "Memory Collector"@,
            r.metadata.description@ == "Collects memory usage metrics"@,
            r.metadata.source_type@ == "system.memory"@,
            r.metadata.enabled_by_default,
    {
        MemoryCollectorFactory {
            metadata: CollectorMetadata {
                id: "system.memory".to_owned(),
                name: "Memory Collector".to_owned(),
                description: "Collects memory usage metrics".to_owned(),
                source_type: "system.memory".to_owned(),
                enabled_by_default: true,
            },
        }
    }

    /// The family's metadata, copied out.
    pub fn metadata(&self) -> (r: CollectorMetadata)
        ensures
            r.id@ == self.metadata.id@,
            r.name@ == self.metadata.name@,
            r.source_type@ == self.metadata.source_type@,
            r.enabled_by_default == self.metadata.enabled_by_default,
    {
        CollectorMetadata {
            id: self.metadata.id.clone(),
            name: self.metadata.name.clone(),
            description: self.metadata.description.clone(),
            source_type: self.metadata.source_type.clone(),
            enabled_by_default: self.metadata.enabled_by_default,
        }
    }
}

/// Factory of the network collector's metadata.
pub struct NetworkCollectorFactory {
    /// The family's metadata.
    pub metadata: CollectorMetadata,
}

impl NetworkCollectorFactory {
    /// A factory carrying the family's metadata.
    pub fn new() -> (r: NetworkCollectorFactory)
        ensures
            r.metadata.id@ == "system.network"@,
            r.metadata.name@ == "Network Collector"@,
            r.metadata.description@ == "Collects network usage metrics"@,
            r.metadata.source_type@ == "system.network"@,
            r.metadata.enabled_by_default,
    {
        NetworkCollectorFactory {
            metadata: CollectorMetadata {
                id: "system.network".to_owned(),
                name: "Network Collector".to_owned(),
                description: "Collects network usage metrics".to_owned(),
                source_type: "system.network".to_owned(),
                enabled_by_default: true,
            },
        }
    }

    /// The family's metadata, copied out.
    pub fn metadata(&self) -> (r: CollectorMetadata)
        ensures
            r.id@ == self.metadata.id@,
            r.name@ == self.metadata.name@,
            r.source_type@ == self.metadata.source_type@,
            r.enabled_by_default == self.metadata.enabled_by_default,
    {
        CollectorMetadata {
            id: self.metadata.id.clone(),
            name: self.metadata.name.clone(),
            description: self.metadata.description.clone(),
            source_type: self.metadata.source_type.clone(),
            enabled_by_default: self.metadata.enabled_by_default,
        }
    }
}

/// Factory of the process collector's metadata.
pub struct ProcessCollectorFactory {
    /// The family's metadata.
    pub metadata: CollectorMetadata,
}

impl ProcessCollectorFactory {
    /// A factory carrying the family's metadata.
    pub fn new() -> (r: ProcessCollectorFactory)
        ensures
            r.metadata.id@ == "system.process"@,
            r.metadata.name@ == "Process Collector"@,
            r.metadata.description@ == "Collects process metrics"@,
            r.metadata.source_type@ == "system.process"@,
            r.metadata.enabled_by_default,
    {
        ProcessCollectorFactory {
            metadata: CollectorMetadata {
                id: "system.process".to_owned(),
                name: "Process Collector".to_owned(),
                description: "Collects process metrics".to_owned(),
                source_type: "system.process".to_owned(),
                enabled_by_default: true,
            },
        }
    }

    /// The family's metadata, copied out.
    pub fn metadata(&self) -> (r: CollectorMetadata)
        ensures
            r.id@ == self.metadata.id@,
            r.name@ == self.metadata.name@,
            r.source_type@ == self.metadata.source_type@,
            r.enabled_by_default == self.metadata.enabled_by_default,
    {
        CollectorMetadata {
            id: self.metadata.id.clone(),
            name: self.metadata.name.clone(),
            description: self.metadata.description.clone(),
            source_type: self.metadata.source_type.clone(),
            enabled_by_default: self.metadata.enabled_by_default,
        }
    }
}

/// The standard reason phrase of an HTTP status code.
pub open spec fn spec_status_text(status: u16) -> Seq<char> {
    if false {
        Seq::empty()
    } else if status == 100 {
        "Continue"@
    } else if status == 101 {
        "Switching Protocols"@
    } else if status == 102 {
        "Processing"@
    } else if status == 200 {
        "OK"@
    } else if status == 201 {
        "Created"@
    } else if status == 202 {
        "Accepted"@
    } else if status == 203 {
        "Non-Authoritative Information"@
    } else if status == 204 {
        "No Content"@
    } else if status == 205 {
        "Reset Content"@
    } else if status == 206 {
        "Partial Content"@
    } else if status == 300 {
        "Multiple Choices"@
    } else if status == 301 {
        "Moved Permanently"@
    } else if status == 302 {
        "Found"@
    } else if status == 303 {
        "See Other"@
    } else if status == 304 {
        "Not Modified"@
    } else if status == 307 {
        "Temporary Redirect"@
    } else if status == 308 {
        "Permanent Redirect"@
    } else if status == 400 {
        "Bad Request"@
    } else if status == 401 {
        "Unauthorized"@
    } else if status == 402 {
        "Payment Required"@
    } else if status == 403 {
        "Forbidden"@
    } else if status == 404 {
        "Not Found"@
    } else if status == 405 {
        "Method Not Allowed"@
    } else if status == 406 {
        "Not Acceptable"@
    } else if status == 407 {
        "Proxy Authentication Required"@
    } else if status == 408 {
        "Request Timeout"@
    } else if status == 409 {
        "Conflict"@
    } else if status == 410 {
        "Gone"@
    } else if status == 411 {
        "Length Required"@
    } else if status == 412 {
        "Precondition Failed"@
    } else if status == 413 {
        "Payload Too Large"@
    } else if status == 414 {
        "URI Too Long"@
    } else if status == 415 {
        "Unsupported Media Type"@
    } else if status == 416 {
        "Range Not Satisfiable"@
    } else if status == 417 {
        "Expectation Failed"@
    } else if status == 418 {
        "I'm a teapot"@
    } else if status == 422 {
        "Unprocessable Entity"@
    } else if status == 429 {
        "Too Many Requests"@
    } else if status == 500 {
        "Internal Server Error"@
    } else if status == 501 {
        "Not Implemented"@
    } else if status == 502 {
        "Bad Gateway"@
    } else if status == 503 {
        "Service Unavailable"@
    } else if status == 504 {
        "Gateway Timeout"@
    } else if status == 505 {
        "HTTP Version Not Supported"@
    } else {
        "Unknown"@
    }
}

/// The reason phrase sent beside a status code.
pub fn status_text(status: u16) -> (r: String)
    ensures
        r@ == spec_status_text(status),
{
    let r: String = match status {
        100 => "Continue".to_owned(),
        101 => "Switching Protocols".to_owned(),
        102 => "Processing".to_owned(),
        200 => "OK".to_owned(),
        201 => "Created".to_owned(),
        202 => "Accepted".to_owned(),
        203 => "Non-Authoritative Information".to_owned(),
        204 => "No Content".to_owned(),
        205 => "Reset Content".to_owned(),
        206 => "Partial Content".to_owned(),
        300 => "Multiple Choices".to_owned(),
        301 => "Moved Permanently".to_owned(),
        302 => "Found".to_owned(),
        303 => "See Other".to_owned(),
        304 => "Not Modified".to_owned(),
        307 => "Temporary Redirect".to_owned(),
        308 => "Permanent Redirect".to_owned(),
        400 => "Bad Request".to_owned(),
        401 => "Unauthorized".to_owned(),
        402 => "Payment Required".to_owned(),
        403 => "Forbidden".to_owned(),
        404 => "Not Found".to_owned(),
        405 => "Method Not Allowed".to_owned(),
        406 => "Not Acceptable".to_owned(),
        407 => "Proxy Authentication Required".to_owned(),
        408 => "Request Timeout".to_owned(),
        409 => "Conflict".to_owned(),
        410 => "Gone".to_owned(),
        411 => "Length Required".to_owned(),
        412 => "Precondition Failed".to_owned(),
        413 => "Payload Too Large".to_owned(),
        414 => "URI Too Long".to_owned(),
        415 => "Unsupported Media Type".to_owned(),
        416 => "Range Not Satisfiable".to_owned(),
        417 => "Expectation Failed".to_owned(),
        418 => "I'm a teapot".to_owned(),
        422 => "Unprocessable Entity".to_owned(),
        429 => "Too Many Requests".to_owned(),
        500 => "Internal Server Error".to_owned(),
        501 => "Not Implemented".to_owned(),
        502 => "Bad Gateway".to_owned(),
        503 => "Service Unavailable".to_owned(),
        504 => "Gateway Timeout".to_owned(),
        505 => "HTTP Version Not Supported".to_owned(),
        _ => "Unknown".to_owned(),
    };
    r
}

} // verus!
