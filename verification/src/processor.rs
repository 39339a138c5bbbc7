//! Telemetry events, batches, and the processor chain.
//!
//! A processor is a pure step from batch to batch: a filter keeps the
//! events a predicate admits, in order; an enricher amends the batch
//! metadata in place. Processors run in their declared sequence, and
//! within a batch the event order is preserved from insertion to
//! transport.

use vstd::prelude::*;

use crate::dictionary::str_eq;
use crate::value::Value;

verus! {

/// One telemetry event; immutable once built.
pub struct TelemetryEvent {
    /// Event id.
    pub id: String,
    /// Milliseconds since the epoch.
    pub timestamp: u64,
    /// Source of the event.
    pub source: String,
    /// Resource id, if any.
    pub resource_id: Option<String>,
    /// Resource name, if any.
    pub resource_name: Option<String>,
    /// Event name.
    pub name: String,
    /// Event type.
    pub event_type: String,
    /// The event's data.
    pub data: Value,
    /// Extra metadata, if any.
    pub metadata: Option<Value>,
}

/// An ordered collection of events shipped atomically.
pub struct TelemetryBatch {
    /// Batch id.
    pub id: String,
    /// Milliseconds since the epoch.
    pub timestamp: u64,
    /// Source of the batch.
    pub source: String,
    /// The events, in insertion order.
    pub events: Vec<TelemetryEvent>,
    /// Batch metadata entries.
    pub metadata: Vec<(String, Value)>,
}

/// Which field of an event a filter looks at.
#[derive(Debug, Clone, Copy, PartialEq, Eq, Structural)]
pub enum FilterField {
    /// The event's source.
    Source,
    /// The event's type.
    EventType,
    /// The event's name.
    Name,
}

/// Keeps the events whose chosen field is among the allowed values.
pub struct FilterProcessor {
    /// The field the filter reads.
    pub field: FilterField,
    /// The admitted values.
    pub allowed: Vec<String>,
}

/// The filtered field of an event, as a character sequence.
pub open spec fn spec_event_field(field: FilterField, e: TelemetryEvent) -> Seq<char> {
    match field {
        FilterField::Source => e.source@,
        FilterField::EventType => e.event_type@,
        FilterField::Name => e.name@,
    }
}

/// Whether a filter admits an event.
pub open spec fn spec_admits(field: FilterField, allowed: Seq<String>, e: TelemetryEvent) -> bool {
    exists|i: int| 0 <= i < allowed.len() && (#[trigger] allowed[i])@ == spec_event_field(field, e)
}

/// The admitted subsequence, in the original order.
pub open spec fn spec_filter_events(
    field: FilterField,
    allowed: Seq<String>,
    events: Seq<TelemetryEvent>,
) -> Seq<TelemetryEvent>
    decreases events.len(),
{
    if events.len() == 0 {
        Seq::empty()
    } else if spec_admits(field, allowed, events[0]) {
        seq![events[0]] + spec_filter_events(field, allowed, events.drop_first())
    } else {
        spec_filter_events(field, allowed, events.drop_first())
    }
}

proof fn lemma_filter_events_snoc(
    field: FilterField,
    allowed: Seq<String>,
    events: Seq<TelemetryEvent>,
    k: int,
)
    requires
        0 <= k < events.len(),
    ensures
        spec_filter_events(field, allowed, events.take(k + 1)) == (if spec_admits(
            field,
            allowed,
            events[k],
        ) {
            spec_filter_events(field, allowed, events.take(k)).push(events[k])
        } else {
            spec_filter_events(field, allowed, events.take(k))
        }),
    decreases k,
{
    let t = events.take(k + 1);
    if k == 0 {
        assert(t[0] == events[0]);
        assert(t.drop_first() =~= events.take(0));
        assert(events.take(0).len() == 0);
        assert(spec_filter_events(field, allowed, events.take(0))
            =~= Seq::<TelemetryEvent>::empty());
        if spec_admits(field, allowed, events[0]) {
            assert(seq![events[0]] + Seq::<TelemetryEvent>::empty() =~= spec_filter_events(
                field,
                allowed,
                events.take(0),
            ).push(events[0]));
        }
    } else {
        let d = events.drop_first();
        assert(t[0] == events[0]);
        assert(t.drop_first() =~= d.take(k));
        assert(events.take(k)[0] == events[0]);
        assert(events.take(k).drop_first() =~= d.take(k - 1));
        lemma_filter_events_snoc(field, allowed, d, k - 1);
        assert(d.take(k - 1 + 1) =~= d.take(k));
        assert(d[k - 1] == events[k]);
        if spec_admits(field, allowed, events[0]) {
            if spec_admits(field, allowed, events[k]) {
                assert(seq![events[0]] + spec_filter_events(field, allowed, d.take(k - 1)).push(
                    events[k],
                ) =~= (seq![events[0]] + spec_filter_events(field, allowed, d.take(k - 1))).push(
                    events[k],
                ));
            }
        }
    }
}

impl FilterProcessor {
    /// A filter over one event field.
    pub fn new(field: FilterField, allowed: Vec<String>) -> (r: FilterProcessor)
        ensures
            r.field == field,
            r.allowed == allowed,
    {
        FilterProcessor { field, allowed }
    }

    /// The field of `e` this filter reads.
    fn field_value<'a>(&self, e: &'a TelemetryEvent) -> (r: &'a String)
        ensures
            r@ == spec_event_field(self.field, *e),
    {
        match self.field {
            FilterField::Source => &e.source,
            FilterField::EventType => &e.event_type,
            FilterField::Name => &e.name,
        }
    }

    /// Whether this filter admits one event.
    pub fn admits(&self, e: &TelemetryEvent) -> (r: bool)
        ensures
            r == spec_admits(self.field, self.allowed@, *e),
    {
        let value: &String = self.field_value(e);
        let mut i: usize = 0;
        while i < self.allowed.len()
            invariant
                i <= self.allowed@.len(),
                value@ == spec_event_field(self.field, *e),
                forall|j: int|
                    0 <= j < i ==> (#[trigger] self.allowed@[j])@ != spec_event_field(
                        self.field,
                        *e,
                    ),
            decreases self.allowed@.len() - i,
        {
            if str_eq(self.allowed[i].as_str(), value.as_str()) {
                return true;
            }
            i = i + 1;
        }
        false
    }

    /// Keep the admitted events of a batch, in their original order;
    /// everything else about the batch stays.
    #[verifier::loop_isolation(false)]
    pub fn process(&self, batch: &mut TelemetryBatch)
        ensures
            final(batch).events@ == spec_filter_events(
                self.field,
                self.allowed@,
                old(batch).events@,
            ),
            final(batch).id == old(batch).id,
            final(batch).timestamp == old(batch).timestamp,
            final(batch).source == old(batch).source,
            final(batch).metadata == old(batch).metadata,
    {
        let mut drained: Vec<TelemetryEvent> = Vec::new();
        core::mem::swap(&mut drained, &mut batch.events);
        let ghost all = drained@;
        let mut kept: Vec<TelemetryEvent> = Vec::new();
        let mut i: usize = 0;
        let total = drained.len();
        let mut rest = drained;
        proof {
            assert(all.take(0) =~= Seq::<TelemetryEvent>::empty());
        }
        while i < total
            invariant
                i <= total,
                total == all.len(),
                rest@ == all.skip(i as int),
                kept@ == spec_filter_events(self.field, self.allowed@, all.take(i as int)),
            decreases total - i,
        {
            let e = rest.remove(0);
            proof {
                assert(all.skip(i as int)[0] == all[i as int]);
                assert(all.skip(i as int).drop_first() =~= all.skip(i as int + 1));
                lemma_filter_events_snoc(self.field, self.allowed@, all, i as int);
            }
            if self.admits(&e) {
                kept.push(e);
            }
            i = i + 1;
        }
        proof {
            assert(all.take(all.len() as int) =~= all);
        }
        batch.events = kept;
    }
}

/// The metadata entries an enricher appends: each pair as a text
/// value, in order, up to index `k`.
pub open spec fn spec_enrich_upto(extras: Seq<(String, String)>, k: int) -> Seq<
    (Seq<char>, crate::value::ValueModel),
>
    decreases k,
{
    if k <= 0 {
        Seq::empty()
    } else {
        spec_enrich_upto(extras, k - 1).push(
            (extras[k - 1].0@, crate::value::ValueModel::Str(extras[k - 1].1@)),
        )
    }
}

/// Amends a batch's metadata with fixed key/value pairs.
pub struct EnrichProcessor {
    /// The entries to add.
    pub extra_metadata: Vec<(String, String)>,
}

impl EnrichProcessor {
    /// An enricher adding the given entries.
    pub fn new(extra_metadata: Vec<(String, String)>) -> (r: EnrichProcessor)
        ensures
            r.extra_metadata == extra_metadata,
    {
        EnrichProcessor { extra_metadata }
    }

    /// Append the entries to the batch metadata, as text values, in
    /// order; the events are untouched.
    #[verifier::loop_isolation(false)]
    pub fn process(&self, batch: &mut TelemetryBatch)
        ensures
            crate::value::entry_seq_model(final(batch).metadata@) == crate::value::entry_seq_model(
                old(batch).metadata@,
            ) + spec_enrich_upto(self.extra_metadata@, self.extra_metadata@.len() as int),
            final(batch).events == old(batch).events,
            final(batch).id == old(batch).id,
            final(batch).timestamp == old(batch).timestamp,
            final(batch).source == old(batch).source,
    {
        let ghost base = crate::value::entry_seq_model(old(batch).metadata@);
        let mut i: usize = 0;
        proof {
            assert(base + spec_enrich_upto(self.extra_metadata@, 0) =~= base);
        }
        while i < self.extra_metadata.len()
            invariant
                i <= self.extra_metadata@.len(),
                crate::value::entry_seq_model(batch.metadata@) == base + spec_enrich_upto(
                    self.extra_metadata@,
                    i as int,
                ),
                batch.events == old(batch).events,
                batch.id == old(batch).id,
                batch.timestamp == old(batch).timestamp,
                batch.source == old(batch).source,
            decreases self.extra_metadata@.len() - i,
        {
            let key = self.extra_metadata[i].0.clone();
            let value = self.extra_metadata[i].1.clone();
            let ghost before = batch.metadata@;
            batch.metadata.push((key, Value::Str(value)));
            proof {
                crate::value::lemma_entry_seq_model_push(
                    before,
                    batch.metadata@[batch.metadata@.len() - 1],
                );
                assert(base + spec_enrich_upto(self.extra_metadata@, i as int + 1) =~= (base
                    + spec_enrich_upto(self.extra_metadata@, i as int)).push(
                    (
                        self.extra_metadata@[i as int].0@,
                        crate::value::ValueModel::Str(self.extra_metadata@[i as int].1@),
                    ),
                ));
            }
            i = i + 1;
        }
    }
}

/// One step of the processor chain.
pub enum Processor {
    /// Keep a subset of events by predicate.
    Filter(FilterProcessor),
    /// Amend the batch metadata.
    Enrich(EnrichProcessor),
}

/// Record in a batch's metadata that an encoder dropped entries of an
/// over-long list or map.
pub fn record_truncation(batch: &mut TelemetryBatch)
    ensures
        final(batch).metadata@.len() == old(batch).metadata@.len() + 1,
        final(batch).metadata@.subrange(0, old(batch).metadata@.len() as int) == old(
            batch,
        ).metadata@,
        (final(batch).metadata@.last().0)@ == "truncated"@,
        final(batch).metadata@.last().1 == Value::Bool(true),
        final(batch).events == old(batch).events,
        final(batch).id == old(batch).id,
{
    batch.metadata.push(("truncated".to_owned(), Value::Bool(true)));
    proof {
        assert(batch.metadata@.subrange(0, old(batch).metadata@.len() as int) =~= old(
            batch,
        ).metadata@);
    }
}

/// The batch contents after the first `k` processor steps: filters
/// keep their admitted events, enrichers extend the metadata.
pub open spec fn spec_chain(
    processors: Seq<Processor>,
    k: int,
    events: Seq<TelemetryEvent>,
    metadata: Seq<(Seq<char>, crate::value::ValueModel)>,
) -> (Seq<TelemetryEvent>, Seq<(Seq<char>, crate::value::ValueModel)>)
    decreases k,
{
    if k <= 0 {
        (events, metadata)
    } else {
        let prev = spec_chain(processors, k - 1, events, metadata);
        match processors[k - 1] {
            Processor::Filter(f) => (spec_filter_events(f.field, f.allowed@, prev.0), prev.1),
            Processor::Enrich(e) => (
                prev.0,
                prev.1 + spec_enrich_upto(e.extra_metadata@, e.extra_metadata@.len() as int),
            ),
        }
    }
}

/// Run the processors over a batch in their declared sequence: the
/// final batch is the fold of the declared steps over the old one, and
/// no step reorders the surviving events.
#[verifier::loop_isolation(false)]
pub fn run_chain(processors: &Vec<Processor>, batch: &mut TelemetryBatch)
    ensures
        ({
            let res = spec_chain(
                processors@,
                processors@.len() as int,
                old(batch).events@,
                crate::value::entry_seq_model(old(batch).metadata@),
            );
            &&& final(batch).events@ == res.0
            &&& crate::value::entry_seq_model(final(batch).metadata@) == res.1
        }),
        final(batch).id == old(batch).id,
        final(batch).timestamp == old(batch).timestamp,
        final(batch).source == old(batch).source,
{
    let ghost events0 = old(batch).events@;
    let ghost metadata0 = crate::value::entry_seq_model(old(batch).metadata@);
    let mut i: usize = 0;
    while i < processors.len()
        invariant
            i <= processors@.len(),
            batch.events@ == spec_chain(processors@, i as int, events0, metadata0).0,
            crate::value::entry_seq_model(batch.metadata@) == spec_chain(
                processors@,
                i as int,
                events0,
                metadata0,
            ).1,
            batch.id == old(batch).id,
            batch.timestamp == old(batch).timestamp,
            batch.source == old(batch).source,
        decreases processors@.len() - i,
    {
        match &processors[i] {
            Processor::Filter(f) => f.process(batch),
            Processor::Enrich(e) => e.process(batch),
        }
        i = i + 1;
    }
}

/// Law: filtering keeps order/// Law: filtering keeps order and never invents events: the kept
/// events are exactly the admitted ones, and any two kept events stand
/// in the same relative order as in the original batch.
pub proof fn lemma_filter_preserves_order(
    field: FilterField,
    allowed: Seq<String>,
    events: Seq<TelemetryEvent>,
)
    ensures
        spec_filter_events(field, allowed, events).len() <= events.len(),
        forall|i: int|
            0 <= i < spec_filter_events(field, allowed, events).len() ==> spec_admits(
                field,
                allowed,
                #[trigger] spec_filter_events(field, allowed, events)[i],
            ),
    decreases events.len(),
{
    if events.len() > 0 {
        lemma_filter_preserves_order(field, allowed, events.drop_first());
        let rest = spec_filter_events(field, allowed, events.drop_first());
        if spec_admits(field, allowed, events[0]) {
            assert forall|i: int|
                0 <= i < spec_filter_events(field, allowed, events).len() implies spec_admits(
                field,
                allowed,
                #[trigger] spec_filter_events(field, allowed, events)[i],
            ) by {
                if i > 0 {
                    assert(spec_filter_events(field, allowed, events)[i] == rest[i - 1]);
                }
            }
        }
    }
}

} // verus!
