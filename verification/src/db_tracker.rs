//! In-memory aggregation for the database collectors.
//!
//! A tracker counts queries by statement class, remembers the most
//! recent queries up to a cap, tallies errors, and keeps per-table
//! read/write counters. The databases themselves are outside; only
//! their observations come through here.

use vstd::prelude::*;

use crate::collector_kinds::{DatabaseQueryMetrics, QueryType, TableMetrics};
use crate::collectors::DatabaseCollectorSettings;
use crate::dictionary::str_eq;
use vstd::string::StringSliceAdditionalSpecFns;
use vstd::string::StrSliceExecFns;

verus! {

/// Relies on `uuid::Uuid::new_v4` and its hyphenated `to_string`: a
/// random identifier rendered as 36 characters; nothing else is
/// promised of its value.
#[verifier::external_body]
fn new_query_id() -> (r: String)
    ensures
        r@.len() == 36,
{
    uuid::Uuid::new_v4().to_string()
}

/// The count stored under a key, or zero.
pub open spec fn spec_count_of(counts: Seq<(Seq<char>, u64)>, key: Seq<char>) -> int
    decreases counts.len(),
{
    if counts.len() == 0 {
        0
    } else if counts[0].0 == key {
        counts[0].1 as int
    } else {
        spec_count_of(counts.drop_first(), key)
    }
}

/// The model of a count table.
pub open spec fn counts_model(counts: Seq<(String, u64)>) -> Seq<(Seq<char>, u64)>
    decreases counts.len(),
{
    if counts.len() == 0 {
        Seq::empty()
    } else {
        seq![(counts[0].0@, counts[0].1)] + counts_model(counts.drop_first())
    }
}

proof fn lemma_counts_model_index(s: Seq<(String, u64)>, i: int)
    requires
        0 <= i < s.len(),
    ensures
        counts_model(s).len() == s.len(),
        counts_model(s)[i] == (s[i].0@, s[i].1),
    decreases s.len(),
{
    if i > 0 {
        lemma_counts_model_index(s.drop_first(), i - 1);
    } else {
        lemma_counts_model_len(s.drop_first());
    }
}

proof fn lemma_counts_model_len(s: Seq<(String, u64)>)
    ensures
        counts_model(s).len() == s.len(),
    decreases s.len(),
{
    if s.len() > 0 {
        lemma_counts_model_len(s.drop_first());
    }
}

proof fn lemma_count_of_update(m: Seq<(Seq<char>, u64)>, i: int, v: u64)
    requires
        0 <= i < m.len(),
        forall|j: int| 0 <= j < i ==> (#[trigger] m[j]).0 != m[i].0,
    ensures
        spec_count_of(m.update(i, (m[i].0, v)), m[i].0) == v as int,
        forall|other: Seq<char>|
            other != m[i].0 ==> #[trigger] spec_count_of(m.update(i, (m[i].0, v)), other)
                == spec_count_of(m, other),
    decreases i,
{
    let m2 = m.update(i, (m[i].0, v));
    if i == 0 {
        assert(m2[0] == (m[0].0, v));
        assert(m2.drop_first() =~= m.drop_first());
        assert(spec_count_of(m2, m[i].0) == v as int);
        assert forall|other: Seq<char>|
            other != m[i].0 implies #[trigger] spec_count_of(m2, other) == spec_count_of(
            m,
            other,
        ) by {
            assert(spec_count_of(m2, other) == spec_count_of(m2.drop_first(), other));
            assert(spec_count_of(m, other) == spec_count_of(m.drop_first(), other));
        }
    } else {
        assert(m2[0] == m[0]);
        assert(m2.drop_first() =~= m.drop_first().update(i - 1, (m[i].0, v)));
        assert(m.drop_first()[i - 1] == m[i]);
        lemma_count_of_update(m.drop_first(), i - 1, v);
        assert(m[0].0 != m[i].0);
        assert(spec_count_of(m2, m[i].0) == spec_count_of(m2.drop_first(), m[i].0));
        assert(spec_count_of(m2, m[i].0) == v as int);
        assert forall|other: Seq<char>|
            other != m[i].0 implies #[trigger] spec_count_of(m2, other) == spec_count_of(
            m,
            other,
        ) by {
            if other == m[0].0 {
                assert(spec_count_of(m2, other) == m2[0].1 as int);
                assert(spec_count_of(m, other) == m[0].1 as int);
            } else {
                assert(spec_count_of(m2, other) == spec_count_of(m2.drop_first(), other));
                assert(spec_count_of(m, other) == spec_count_of(m.drop_first(), other));
            }
        }
    }
}

proof fn lemma_count_of_push(m: Seq<(Seq<char>, u64)>, e: (Seq<char>, u64))
    ensures
        (forall|j: int| 0 <= j < m.len() ==> (#[trigger] m[j]).0 != e.0) ==> spec_count_of(
            m.push(e),
            e.0,
        ) == e.1 as int,
        forall|other: Seq<char>|
            other != e.0 ==> #[trigger] spec_count_of(m.push(e), other) == spec_count_of(
                m,
                other,
            ),
    decreases m.len(),
{
    let m2 = m.push(e);
    if m.len() == 0 {
        assert(m2[0] == e);
        assert(m2.drop_first() =~= Seq::<(Seq<char>, u64)>::empty());
        assert(spec_count_of(m2, e.0) == e.1 as int);
        assert forall|other: Seq<char>|
            other != e.0 implies #[trigger] spec_count_of(m2, other) == spec_count_of(
            m,
            other,
        ) by {
            assert(spec_count_of(m2, other) == spec_count_of(m2.drop_first(), other));
        }
    } else {
        assert(m2[0] == m[0]);
        assert(m2.drop_first() =~= m.drop_first().push(e));
        lemma_count_of_push(m.drop_first(), e);
        if forall|j: int| 0 <= j < m.len() ==> (#[trigger] m[j]).0 != e.0 {
            assert forall|j: int|
                0 <= j < m.drop_first().len() implies (#[trigger] m.drop_first()[j]).0 != e.0 by {
                assert(m.drop_first()[j] == m[j + 1]);
            }
            assert(m[0].0 != e.0);
            assert(spec_count_of(m2, e.0) == spec_count_of(m2.drop_first(), e.0));
            assert(spec_count_of(m2, e.0) == e.1 as int);
        }
        assert forall|other: Seq<char>|
            other != e.0 implies #[trigger] spec_count_of(m2, other) == spec_count_of(
            m,
            other,
        ) by {
            if other == m[0].0 {
                assert(spec_count_of(m2, other) == m2[0].1 as int);
            } else {
                assert(spec_count_of(m2, other) == spec_count_of(m2.drop_first(), other));
                assert(spec_count_of(m, other) == spec_count_of(m.drop_first(), other));
            }
        }
    }
}

/// Bump the count stored under `key`, inserting it at the end when it
/// is new; a saturated counter stays put.
fn bump_count(counts: &mut Vec<(String, u64)>, key: &str)
    ensures
        final(counts)@.len() >= old(counts)@.len(),
        spec_count_of(counts_model(old(counts)@), key@) < u64::MAX ==> spec_count_of(
            counts_model(final(counts)@),
            key@,
        ) == spec_count_of(counts_model(old(counts)@), key@) + 1,
        spec_count_of(counts_model(old(counts)@), key@) == u64::MAX ==> spec_count_of(
            counts_model(final(counts)@),
            key@,
        ) == u64::MAX,
        spec_count_of(counts_model(final(counts)@), key@) == spec_count_of(
            counts_model(old(counts)@),
            key@,
        ) + 1 || spec_count_of(counts_model(final(counts)@), key@) == spec_count_of(
            counts_model(old(counts)@),
            key@,
        ),
        forall|other: Seq<char>|
            other != key@ ==> #[trigger] spec_count_of(counts_model(final(counts)@), other)
                == spec_count_of(counts_model(old(counts)@), other),
{
    proof {
        lemma_counts_model_len(counts@);
    }
    let mut i: usize = 0;
    let len = counts.len();
    while i < len
        invariant
            i <= len,
            len == counts@.len(),
            counts@ == old(counts)@,
            counts_model(counts@).len() == len,
            forall|j: int| 0 <= j < i ==> (#[trigger] counts_model(counts@)[j]).0 != key@,
        decreases len - i,
    {
        proof {
            lemma_counts_model_index(counts@, i as int);
        }
        if str_eq(counts[i].0.as_str(), key) {
            let ghost m = counts_model(counts@);
            proof {
                lemma_count_found(m, i as int);
            }
            let c = counts[i].1;
            if c < u64::MAX {
                let name = counts[i].0.clone();
                let ghost before = counts@;
                counts.remove(i);
                counts.insert(i, (name, c + 1));
                proof {
                    assert(counts@ =~= before.update(i as int, (before[i as int].0, (c
                        + 1) as u64)));
                    assert(counts_model(counts@) =~= m.update(i as int, (m[i as int].0, (c
                        + 1) as u64))) by {
                        lemma_counts_model_len(counts@);
                        assert forall|j: int|
                            0 <= j < counts@.len() implies #[trigger] counts_model(counts@)[j]
                            == m.update(i as int, (m[i as int].0, (c + 1) as u64))[j] by {
                            lemma_counts_model_index(counts@, j);
                            lemma_counts_model_index(before, j);
                        }
                    }
                    lemma_count_of_update(m, i as int, (c + 1) as u64);
                }
            }
            return ;
        }
        i = i + 1;
    }
    let ghost m = counts_model(counts@);
    proof {
        lemma_count_absent(m, key@);
    }
    let owned = key.to_owned();
    let ghost owned_snapshot = owned;
    counts.push((owned, 1));
    proof {
        assert(counts_model(counts@) =~= m.push((owned_snapshot@, 1u64))) by {
            lemma_counts_model_len(counts@);
            assert forall|j: int|
                0 <= j < counts@.len() implies #[trigger] counts_model(counts@)[j] == m.push(
                (owned_snapshot@, 1u64),
            )[j] by {
                lemma_counts_model_index(counts@, j);
                if j < old(counts)@.len() {
                    lemma_counts_model_index(old(counts)@, j);
                }
            }
        }
        lemma_count_of_push(m, (owned_snapshot@, 1u64));
    }
}

/// A statement tracker for one database collector.
pub struct DbQueryTracker {
    /// The collector's settings.
    pub settings: DatabaseCollectorSettings,
    /// Queries seen, by statement class name.
    pub query_type_counts: Vec<(String, u64)>,
    /// All queries seen.
    pub total_queries: u64,
    /// Queries that ended in an error.
    pub error_count: u64,
    /// The most recent query metrics, oldest first, capped at the
    /// settings' limit.
    pub recent: Vec<DatabaseQueryMetrics>,
    /// Per-table read/write tallies.
    pub tables: Vec<TableMetrics>,
}

impl DbQueryTracker {
    /// A fresh tracker for the given settings.
    pub fn new(settings: DatabaseCollectorSettings) -> (r: DbQueryTracker)
        ensures
            r.total_queries == 0,
            r.error_count == 0,
            r.recent@.len() == 0,
            r.tables@.len() == 0,
            r.query_type_counts@.len() == 0,
    {
        DbQueryTracker {
            settings,
            query_type_counts: Vec::new(),
            total_queries: 0,
            error_count: 0,
            recent: Vec::new(),
            tables: Vec::new(),
        }
    }

    /// Record one query observation: classify it, bump the counters,
    /// remember it up to the cap (dropping the oldest beyond it), and
    /// tally the touched table. Returns the query id.
    pub fn track_query(
        &mut self,
        query_text: &str,
        duration_ms: u64,
        rows_affected: Option<u64>,
        rows_returned: Option<u64>,
        error: Option<String>,
        timestamp_ms: u64,
    ) -> (r: String)
        requires
            old(self).total_queries < u64::MAX,
            old(self).error_count < u64::MAX,
        ensures
            final(self).total_queries == old(self).total_queries + 1,
            final(self).error_count == old(self).error_count + (if error is Some {
                1int
            } else {
                0int
            }),
            final(self).recent@.len() <= old(self).recent@.len() + 1,
            old(self).recent@.len() < old(self).settings.max_queries ==> final(self).recent@.len() == old(self).recent@.len() + 1,
            final(self).settings == old(self).settings,
            r@.len() == 36,
            // counters only grow, by at most one per observation, and
            // at most one statement class moves
            forall|k: Seq<char>|
                #[trigger] spec_count_of(counts_model(final(self).query_type_counts@), k)
                    == spec_count_of(counts_model(old(self).query_type_counts@), k)
                    || spec_count_of(counts_model(final(self).query_type_counts@), k)
                    == spec_count_of(counts_model(old(self).query_type_counts@), k) + 1,
            forall|k1: Seq<char>, k2: Seq<char>|
                k1 != k2 && #[trigger] spec_count_of(
                    counts_model(final(self).query_type_counts@),
                    k1,
                ) != spec_count_of(counts_model(old(self).query_type_counts@), k1)
                    && #[trigger] spec_count_of(counts_model(final(self).query_type_counts@), k2)
                    != spec_count_of(counts_model(old(self).query_type_counts@), k2) ==> false,
    {
        let query_id = new_query_id();
        let had_error = error.is_some();
        let query_type = QueryType::from_query(query_text);
        let class_name: &str = match &query_type {
            QueryType::Select => "select",
            QueryType::Insert => "insert",
            QueryType::Update => "update",
            QueryType::Delete => "delete",
            QueryType::Create => "create",
            QueryType::Alter => "alter",
            QueryType::Drop => "drop",
            QueryType::Begin => "begin",
            QueryType::Commit => "commit",
            QueryType::Rollback => "rollback",
            QueryType::Other(_) => "other",
        };
        bump_count(&mut self.query_type_counts, class_name);
        let ghost counts_after = self.query_type_counts@;
        self.total_queries = self.total_queries + 1;
        if had_error {
            self.error_count = self.error_count + 1;
        }
        let is_write = match &query_type {
            QueryType::Insert | QueryType::Update | QueryType::Delete => true,
            _ => false,
        };
        let stored_text = if self.settings.collect_queries {
            Some(truncate_query(query_text, self.settings.max_query_length))
        } else {
            None
        };
        let metrics = DatabaseQueryMetrics {
            query_id: query_id.clone(),
            connection_id: None,
            query_type,
            query_text: stored_text,
            parameters: None,
            timestamp: timestamp_ms,
            duration_ms,
            rows_affected,
            rows_returned,
            execution_plan: None,
            error,
        };
        self.recent.push(metrics);
        if self.recent.len() > self.settings.max_queries {
            self.recent.remove(0);
        }
        if self.settings.collect_table_metrics {
            match extract_table_name(query_text) {
                Some(table) => {
                    self.tally_table(table.as_str(), is_write, timestamp_ms);
                },
                None => {},
            }
        }
        proof {
            assert(self.query_type_counts@ == counts_after);
            assert forall|k: Seq<char>|
                #[trigger] spec_count_of(counts_model(self.query_type_counts@), k)
                    == spec_count_of(counts_model(old(self).query_type_counts@), k)
                    || spec_count_of(counts_model(self.query_type_counts@), k) == spec_count_of(
                    counts_model(old(self).query_type_counts@),
                    k,
                ) + 1 by {
                if k != class_name@ {
                    assert(spec_count_of(counts_model(self.query_type_counts@), k)
                        == spec_count_of(counts_model(old(self).query_type_counts@), k));
                }
            }
            assert forall|k1: Seq<char>, k2: Seq<char>|
                k1 != k2 && #[trigger] spec_count_of(counts_model(self.query_type_counts@), k1)
                    != spec_count_of(counts_model(old(self).query_type_counts@), k1)
                    && #[trigger] spec_count_of(counts_model(self.query_type_counts@), k2)
                    != spec_count_of(counts_model(old(self).query_type_counts@), k2) implies false by {
                if k1 != class_name@ {
                    assert(spec_count_of(counts_model(self.query_type_counts@), k1)
                        == spec_count_of(counts_model(old(self).query_type_counts@), k1));
                } else {
                    assert(spec_count_of(counts_model(self.query_type_counts@), k2)
                        == spec_count_of(counts_model(old(self).query_type_counts@), k2));
                }
            }
        }
        query_id
    }

    /// Record one document-store operation: count it under the
    /// operation's wire name and tally the touched collection.
    pub fn track_operation(
        &mut self,
        operation: &crate::collector_kinds::NoSqlOperationType,
        collection: &str,
        error: Option<String>,
        timestamp_ms: u64,
    )
        requires
            old(self).total_queries < u64::MAX,
            old(self).error_count < u64::MAX,
        ensures
            final(self).total_queries == old(self).total_queries + 1,
            final(self).error_count == old(self).error_count + (if error is Some {
                1int
            } else {
                0int
            }),
            final(self).settings == old(self).settings,
            final(self).recent == old(self).recent,
            // counters only grow, by at most one per observation, and
            // at most one statement class moves
            forall|k: Seq<char>|
                #[trigger] spec_count_of(counts_model(final(self).query_type_counts@), k)
                    == spec_count_of(counts_model(old(self).query_type_counts@), k)
                    || spec_count_of(counts_model(final(self).query_type_counts@), k)
                    == spec_count_of(counts_model(old(self).query_type_counts@), k) + 1,
            forall|k1: Seq<char>, k2: Seq<char>|
                k1 != k2 && #[trigger] spec_count_of(
                    counts_model(final(self).query_type_counts@),
                    k1,
                ) != spec_count_of(counts_model(old(self).query_type_counts@), k1)
                    && #[trigger] spec_count_of(counts_model(final(self).query_type_counts@), k2)
                    != spec_count_of(counts_model(old(self).query_type_counts@), k2) ==> false,
    {
        let op_name = operation.as_str();
        bump_count(&mut self.query_type_counts, op_name);
        let ghost counts_after = self.query_type_counts@;
        self.total_queries = self.total_queries + 1;
        if error.is_some() {
            self.error_count = self.error_count + 1;
        }
        let is_write = match operation {
            crate::collector_kinds::NoSqlOperationType::Insert
            | crate::collector_kinds::NoSqlOperationType::Update
            | crate::collector_kinds::NoSqlOperationType::Delete
            | crate::collector_kinds::NoSqlOperationType::BatchWrite => true,
            _ => false,
        };
        self.tally_table(collection, is_write, timestamp_ms);
        proof {
            assert(self.query_type_counts@ == counts_after);
            assert forall|k: Seq<char>|
                #[trigger] spec_count_of(counts_model(self.query_type_counts@), k)
                    == spec_count_of(counts_model(old(self).query_type_counts@), k)
                    || spec_count_of(counts_model(self.query_type_counts@), k) == spec_count_of(
                    counts_model(old(self).query_type_counts@),
                    k,
                ) + 1 by {
                if k != op_name@ {
                    assert(spec_count_of(counts_model(self.query_type_counts@), k)
                        == spec_count_of(counts_model(old(self).query_type_counts@), k));
                }
            }
            assert forall|k1: Seq<char>, k2: Seq<char>|
                k1 != k2 && #[trigger] spec_count_of(counts_model(self.query_type_counts@), k1)
                    != spec_count_of(counts_model(old(self).query_type_counts@), k1)
                    && #[trigger] spec_count_of(counts_model(self.query_type_counts@), k2)
                    != spec_count_of(counts_model(old(self).query_type_counts@), k2) implies false by {
                if k1 != op_name@ {
                    assert(spec_count_of(counts_model(self.query_type_counts@), k1)
                        == spec_count_of(counts_model(old(self).query_type_counts@), k1));
                } else {
                    assert(spec_count_of(counts_model(self.query_type_counts@), k2)
                        == spec_count_of(counts_model(old(self).query_type_counts@), k2));
                }
            }
        }
    }

    /// Bump a table's read or write tally, creating its row on first
    /// sight.
    fn tally_table(&mut self, table: &str, is_write: bool, timestamp_ms: u64)
        ensures
            final(self).tables@.len() >= old(self).tables@.len(),
            final(self).settings == old(self).settings,
            final(self).total_queries == old(self).total_queries,
            final(self).error_count == old(self).error_count,
            final(self).recent == old(self).recent,
            final(self).query_type_counts == old(self).query_type_counts,
    {
        let mut i: usize = 0;
        let len = self.tables.len();
        while i < len
            invariant
                i <= len,
                len == self.tables@.len(),
                self.tables@ == old(self).tables@,
                self.settings == old(self).settings,
                self.total_queries == old(self).total_queries,
                self.error_count == old(self).error_count,
                self.recent == old(self).recent,
                self.query_type_counts == old(self).query_type_counts,
            decreases len - i,
        {
            if str_eq(self.tables[i].table_name.as_str(), table) {
                let mut row = self.tables.remove(i);
                if is_write {
                    if row.writes < u64::MAX {
                        row.writes = row.writes + 1;
                    }
                } else {
                    if row.reads < u64::MAX {
                        row.reads = row.reads + 1;
                    }
                }
                row.last_accessed = timestamp_ms;
                self.tables.insert(i, row);
                return ;
            }
            i = i + 1;
        }
        self.tables.push(
            TableMetrics {
                table_name: table.to_owned(),
                row_count: None,
                size_bytes: None,
                reads: if is_write {
                    0
                } else {
                    1
                },
                writes: if is_write {
                    1
                } else {
                    0
                },
                last_accessed: timestamp_ms,
            },
        );
    }

    /// The count recorded for a statement class name.
    pub fn count_for(&self, class_name: &str) -> (r: u64)
        ensures
            r as int == spec_count_of(counts_model(self.query_type_counts@), class_name@),
    {
        proof {
            lemma_counts_model_len(self.query_type_counts@);
        }
        let mut i: usize = 0;
        let len = self.query_type_counts.len();
        while i < len
            invariant
                i <= len,
                len == self.query_type_counts@.len(),
                counts_model(self.query_type_counts@).len() == len,
                forall|j: int|
                    0 <= j < i ==> (#[trigger] counts_model(self.query_type_counts@)[j]).0
                        != class_name@,
            decreases len - i,
        {
            proof {
                lemma_counts_model_index(self.query_type_counts@, i as int);
            }
            if str_eq(self.query_type_counts[i].0.as_str(), class_name) {
                proof {
                    lemma_count_found(counts_model(self.query_type_counts@), i as int);
                }
                return self.query_type_counts[i].1;
            }
            i = i + 1;
        }
        proof {
            lemma_count_absent(counts_model(self.query_type_counts@), class_name@);
        }
        0
    }
}

proof fn lemma_count_found(m: Seq<(Seq<char>, u64)>, i: int)
    requires
        0 <= i < m.len(),
        forall|j: int| 0 <= j < i ==> (#[trigger] m[j]).0 != m[i].0,
    ensures
        spec_count_of(m, m[i].0) == m[i].1 as int,
    decreases i,
{
    if i > 0 {
        lemma_count_found(m.drop_first(), i - 1);
    }
}

proof fn lemma_count_absent(m: Seq<(Seq<char>, u64)>, key: Seq<char>)
    requires
        forall|j: int| 0 <= j < m.len() ==> (#[trigger] m[j]).0 != key,
    ensures
        spec_count_of(m, key) == 0,
    decreases m.len(),
{
    if m.len() > 0 {
        lemma_count_absent(m.drop_first(), key);
    }
}

/// The first `max_length` characters of a query.
pub fn truncate_query(query: &str, max_length: usize) -> (r: String)
    ensures
        r@ == (if query@.len() <= max_length {
            query@
        } else {
            query@.take(max_length as int)
        }),
{
    let n = query.unicode_len();
    if n <= max_length {
        query.to_owned()
    } else {
        let prefix = query.substring_char(0, max_length);
        proof {
            assert(query@.subrange(0, max_length as int) =~= query@.take(max_length as int));
        }
        prefix.to_owned()
    }
}

/// The table a statement touches: the word after `FROM`, `INTO`, or
/// `UPDATE`, stripped of quoting; nothing for statements without one.
pub fn extract_table_name(query: &str) -> (r: Option<String>)
    ensures
        r matches Some(t) ==> t@.len() > 0,
{
    let bytes = query.as_bytes();
    let fields = crate::procfs::split_fields(bytes);
    let mut i: usize = 0;
    while i < fields.len()
        invariant
            forall|k: int|
                0 <= k < fields@.len() ==> (#[trigger] fields@[k])@.len() > 0,
        decreases fields@.len() - i,
    {
        let f = &fields[i];
        let is_keyword = keyword_eq_ci(f, &[70, 82, 79, 77]) || keyword_eq_ci(
            f,
            &[73, 78, 84, 79],
        ) || keyword_eq_ci(f, &[85, 80, 68, 65, 84, 69]);
        if is_keyword && i + 1 < fields.len() {
            let name = strip_quotes(&fields[i + 1]);
            if name.len() > 0 {
                match core::str::from_utf8(name.as_slice()) {
                    Ok(text) => {
                        proof {
                            if text@.len() == 0 {
                                assert(text.spec_bytes() =~= Seq::<u8>::empty());
                            }
                        }
                        return Some(text.to_owned());
                    },
                    Err(_) => {
                        return None;
                    },
                }
            }
            return None;
        }
        i = i + 1;
    }
    None
}

/// Case-insensitive equality of a field against an uppercase keyword.
fn keyword_eq_ci(field: &Vec<u8>, kw: &[u8]) -> (r: bool) {
    if field.len() != kw.len() {
        return false;
    }
    let mut i: usize = 0;
    while i < kw.len()
        invariant
            field@.len() == kw@.len(),
            i <= kw@.len(),
        decreases kw@.len() - i,
    {
        let a = field[i];
        let ua: u8 = if 97 <= a && a <= 122 {
            a - 32
        } else {
            a
        };
        if ua != *vstd::slice::slice_index_get(kw, i) {
            return false;
        }
        i = i + 1;
    }
    true
}

/// Drop surrounding backticks or double quotes from an identifier.
fn strip_quotes(field: &Vec<u8>) -> (r: Vec<u8>) {
    let mut start: usize = 0;
    let mut end: usize = field.len();
    while start < end && (field[start] == 96 || field[start] == 34)
        invariant
            start <= end,
            end <= field@.len(),
        decreases end - start,
    {
        start = start + 1;
    }
    while start < end && (field[end - 1] == 96 || field[end - 1] == 34 || field[end - 1] == 59)
        invariant
            start <= end,
            end <= field@.len(),
        decreases end - start,
    {
        end = end - 1;
    }
    let mut out: Vec<u8> = Vec::new();
    let mut i: usize = start;
    while i < end
        invariant
            start <= i <= end,
            end <= field@.len(),
        decreases end - i,
    {
        out.push(field[i]);
        i = i + 1;
    }
    out
}

} // verus!
