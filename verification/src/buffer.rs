//! Bounded staging of metric entries and spill bookkeeping.
//!
//! Entries queue in arrival order; `add_metric` reports when the staged
//! count reaches the flush threshold, and over the capacity the oldest
//! entry is evicted with a counter bump. A flush drains everything at
//! once. Frames that failed to ship are appended to a scratch image in
//! a length-prefixed layout and replayed in order before new traffic.

use vstd::prelude::*;

use crate::errors::AgentError;
use crate::frame::MetricEntry;
use vstd::bytes::*;

verus! {

/// A FIFO of staged metric entries with a flush threshold and a hard
/// capacity.
pub struct TelemetryBuffer {
    /// The staged entries, oldest first.
    pub entries: Vec<MetricEntry>,
    /// Entries per shipped batch: `add_metric` reports a due flush at
    /// this size.
    pub batch_size: usize,
    /// The hard capacity; beyond it the oldest entry is evicted.
    pub max_buffer_size: usize,
    /// How many entries were ever added.
    pub metrics_count: u64,
    /// How many entries were evicted on overflow.
    pub dropped_count: u64,
}

impl TelemetryBuffer {
    /// An empty buffer with the given thresholds.
    pub fn new(batch_size: usize, max_buffer_size: usize) -> (r: TelemetryBuffer)
        requires
            batch_size >= 1,
            max_buffer_size >= batch_size,
        ensures
            r.entries@.len() == 0,
            r.batch_size == batch_size,
            r.max_buffer_size == max_buffer_size,
            r.metrics_count == 0,
            r.dropped_count == 0,
    {
        TelemetryBuffer {
            entries: Vec::new(),
            batch_size,
            max_buffer_size,
            metrics_count: 0,
            dropped_count: 0,
        }
    }

    /// The number of staged entries.
    pub fn len(&self) -> (r: usize)
        ensures
            r == self.entries@.len(),
    {
        self.entries.len()
    }

    /// How many entries were ever added.
    pub fn get_metrics_count(&self) -> (r: u64)
        ensures
            r == self.metrics_count,
    {
        self.metrics_count
    }

    /// The flush threshold.
    pub fn get_batch_size(&self) -> (r: usize)
        ensures
            r == self.batch_size,
    {
        self.batch_size
    }

    /// Stage one entry; returns whether the staged count has reached
    /// the flush threshold. Over capacity, the oldest entry leaves and
    /// the drop counter grows.
    pub fn add_metric(&mut self, entry: MetricEntry) -> (should_flush: bool)
        requires
            old(self).metrics_count < u64::MAX,
            old(self).dropped_count < u64::MAX,
        ensures
            final(self).batch_size == old(self).batch_size,
            final(self).max_buffer_size == old(self).max_buffer_size,
            final(self).metrics_count == old(self).metrics_count + 1,
            old(self).entries@.len() < old(self).max_buffer_size ==> final(self).entries@ == old(self).entries@.push(entry) && final(self).dropped_count == old(self).dropped_count,
            old(self).entries@.len() >= old(self).max_buffer_size ==> final(self).entries@ == old(self).entries@.push(entry).drop_first() && final(self).dropped_count == old(self).dropped_count + 1,
            should_flush == (final(self).entries@.len() >= final(self).batch_size),
    {
        self.metrics_count = self.metrics_count + 1;
        if self.entries.len() >= self.max_buffer_size {
            self.entries.push(entry);
            let ghost pushed = self.entries@;
            self.entries.remove(0);
            self.dropped_count = self.dropped_count + 1;
            proof {
                assert(self.entries@ =~= pushed.drop_first());
            }
        } else {
            self.entries.push(entry);
        }
        self.entries.len() >= self.batch_size
    }

    /// Drain every staged entry, oldest first.
    pub fn flush(&mut self) -> (r: Vec<MetricEntry>)
        ensures
            r@ == old(self).entries@,
            final(self).entries@.len() == 0,
            final(self).batch_size == old(self).batch_size,
            final(self).max_buffer_size == old(self).max_buffer_size,
            final(self).metrics_count == old(self).metrics_count,
            final(self).dropped_count == old(self).dropped_count,
    {
        let mut drained: Vec<MetricEntry> = Vec::new();
        core::mem::swap(&mut drained, &mut self.entries);
        drained
    }
}

/// The backup image of a sequence of frames: each frame behind a
/// four-byte little-endian length prefix, concatenated.
pub open spec fn spec_backup_image(frames: Seq<Seq<u8>>) -> Seq<u8>
    decreases frames.len(),
{
    if frames.len() == 0 {
        Seq::empty()
    } else {
        spec_u32_to_le_bytes(frames[0].len() as u32) + frames[0] + spec_backup_image(
            frames.drop_first(),
        )
    }
}

/// Append one frame to a scratch image in the backup layout.
pub fn append_backup_frame(image: &mut Vec<u8>, frame: &[u8])
    requires
        frame@.len() <= u32::MAX,
    ensures
        final(image)@ == old(image)@ + spec_u32_to_le_bytes(frame@.len() as u32) + frame@,
{
    let lb = u32_to_le_bytes(frame.len() as u32);
    image.extend_from_slice(lb.as_slice());
    image.extend_from_slice(frame);
}

/// Split a scratch image back into its frames; a length prefix that
/// runs past the end of the image aborts the replay.
#[verifier::loop_isolation(false)]
pub fn parse_backup_frames(image: &[u8]) -> (r: Result<Vec<Vec<u8>>, AgentError>)
    ensures
        forall|frames: Seq<Seq<u8>>|
            (image@ == #[trigger] spec_backup_image(frames) && (forall|i: int|
                0 <= i < frames.len() ==> (#[trigger] frames[i]).len() <= u32::MAX)) ==> r is Ok
                && r.unwrap()@.len() == frames.len() && (forall|i: int|
                0 <= i < frames.len() ==> (#[trigger] r.unwrap()@[i])@ == frames[i]),
{
    let mut out: Vec<Vec<u8>> = Vec::new();
    let mut pos: usize = 0;
    let len = image.len();
    let ghost gimage = image@;
    while pos < len
        invariant
            pos <= len,
            len == image@.len(),
            forall|frames: Seq<Seq<u8>>|
                (gimage == #[trigger] spec_backup_image(frames) && (forall|i: int|
                    0 <= i < frames.len() ==> (#[trigger] frames[i]).len() <= u32::MAX)) ==> ({
                    &&& exists|rest: Seq<Seq<u8>>|
                        gimage.skip(pos as int) == #[trigger] spec_backup_image(rest)
                            && out@.len() + rest.len() == frames.len() && (forall|i: int|
                            0 <= i < rest.len() ==> rest[i] == frames[out@.len() + i])
                    &&& forall|i: int|
                        0 <= i < out@.len() ==> (#[trigger] out@[i])@ == frames[i]
                }),
        decreases len - pos,
    {
        if len - pos < 4 {
            proof {
                assert forall|frames: Seq<Seq<u8>>|
                    (gimage == #[trigger] spec_backup_image(frames) && (forall|i: int|
                        0 <= i < frames.len() ==> (#[trigger] frames[i]).len() <= u32::MAX))
                    implies false by {
                    let rest = choose|rest: Seq<Seq<u8>>|
                        gimage.skip(pos as int) == #[trigger] spec_backup_image(rest) && out@.len()
                            + rest.len() == frames.len() && (forall|i: int|
                            0 <= i < rest.len() ==> rest[i] == frames[out@.len() + i]);
                    if rest.len() == 0 {
                        assert(gimage.skip(pos as int).len() == 0);
                    } else {
                        lemma_auto_spec_u32_to_from_le_bytes();
                        assert(spec_backup_image(rest).len() >= 4);
                    }
                }
            }
            return Err(AgentError::InvalidData);
        }
        let flen = u32_from_le_bytes(vstd::slice::slice_subrange(image, pos, pos + 4))
            as usize;
        proof {
            assert(gimage.subrange(pos as int, pos as int + 4) =~= gimage.skip(pos as int).subrange(
                0,
                4,
            ));
        }
        if len - pos - 4 < flen {
            proof {
                assert forall|frames: Seq<Seq<u8>>|
                    (gimage == #[trigger] spec_backup_image(frames) && (forall|i: int|
                        0 <= i < frames.len() ==> (#[trigger] frames[i]).len() <= u32::MAX))
                    implies false by {
                    let rest = choose|rest: Seq<Seq<u8>>|
                        gimage.skip(pos as int) == #[trigger] spec_backup_image(rest) && out@.len()
                            + rest.len() == frames.len() && (forall|i: int|
                            0 <= i < rest.len() ==> rest[i] == frames[out@.len() + i]);
                    lemma_auto_spec_u32_to_from_le_bytes();
                    assert(rest.len() > 0);
                    let img = gimage.skip(pos as int);
                    assert(img.subrange(0, 4) =~= spec_u32_to_le_bytes(rest[0].len() as u32));
                    assert(flen == rest[0].len());
                    assert(img.len() >= 4 + rest[0].len());
                }
            }
            return Err(AgentError::InvalidData);
        }
        let frame = vstd::slice::slice_to_vec(
            vstd::slice::slice_subrange(image, pos + 4, pos + 4 + flen),
        );
        let ghost out0 = out@;
        out.push(frame);
        proof {
            assert forall|frames: Seq<Seq<u8>>|
                (gimage == #[trigger] spec_backup_image(frames) && (forall|i: int|
                    0 <= i < frames.len() ==> (#[trigger] frames[i]).len() <= u32::MAX)) implies ({
                &&& exists|rest: Seq<Seq<u8>>|
                    gimage.skip(pos as int + 4 + flen) == #[trigger] spec_backup_image(rest)
                        && out@.len() + rest.len() == frames.len() && (forall|i: int|
                        0 <= i < rest.len() ==> rest[i] == frames[out@.len() + i])
                &&& forall|i: int| 0 <= i < out@.len() ==> (#[trigger] out@[i])@ == frames[i]
            }) by {
                let rest = choose|rest: Seq<Seq<u8>>|
                    gimage.skip(pos as int) == #[trigger] spec_backup_image(rest) && out0.len()
                        + rest.len() == frames.len() && (forall|i: int|
                        0 <= i < rest.len() ==> rest[i] == frames[out0.len() + i]);
                lemma_auto_spec_u32_to_from_le_bytes();
                assert(rest.len() > 0);
                let img = gimage.skip(pos as int);
                assert(img.subrange(0, 4) =~= spec_u32_to_le_bytes(rest[0].len() as u32));
                assert(flen == rest[0].len());
                assert(img.subrange(4, 4 + flen as int) =~= rest[0]);
                assert(frame@ =~= gimage.subrange(pos as int + 4, pos as int + 4 + flen as int));
                assert(gimage.subrange(pos as int + 4, pos as int + 4 + flen as int)
                    =~= img.subrange(4, 4 + flen as int));
                let tail = rest.drop_first();
                assert(img.skip(4 + flen as int) =~= spec_backup_image(tail));
                assert(gimage.skip(pos as int + 4 + flen) =~= img.skip(4 + flen as int));
                assert(out@.len() + tail.len() == frames.len());
                assert forall|i: int| 0 <= i < tail.len() implies tail[i] == frames[out@.len()
                    + i] by {
                    assert(tail[i] == rest[i + 1]);
                }
                assert forall|i: int| 0 <= i < out@.len() implies (#[trigger] out@[i])@
                    == frames[i] by {
                    if i < out0.len() {
                        assert(out@[i] == out0[i]);
                    } else {
                        assert(out@[i]@ == frame@);
                        assert(rest[0] == frames[out0.len() as int]);
                    }
                }
            }
        }
        pos = pos + 4 + flen;
    }
    proof {
        assert forall|frames: Seq<Seq<u8>>|
            (gimage == #[trigger] spec_backup_image(frames) && (forall|i: int|
                0 <= i < frames.len() ==> (#[trigger] frames[i]).len() <= u32::MAX)) implies out@.len()
            == frames.len() && (forall|i: int|
            0 <= i < frames.len() ==> (#[trigger] out@[i])@ == frames[i]) by {
            let rest = choose|rest: Seq<Seq<u8>>|
                gimage.skip(pos as int) == #[trigger] spec_backup_image(rest) && out@.len()
                    + rest.len() == frames.len() && (forall|i: int|
                    0 <= i < rest.len() ==> rest[i] == frames[out@.len() + i]);
            if rest.len() > 0 {
                lemma_auto_spec_u32_to_from_le_bytes();
                assert(spec_backup_image(rest).len() >= 4);
                assert(gimage.skip(pos as int).len() == 0);
            }
        }
    }
    Ok(out)
}

/// Bookkeeping for shipped and spilled frames: a failed send appends
/// the frame to the scratch queue; successfully replayed frames move to
/// the delivered log in order, before new traffic.
pub struct ShipTracker {
    /// Frames waiting in the scratch file, oldest first.
    pub scratch: Vec<Vec<u8>>,
    /// Frames delivered, in delivery order.
    pub delivered: Vec<Vec<u8>>,
}

impl ShipTracker {
    /// A tracker with an empty scratch queue and delivery log.
    pub fn new() -> (r: ShipTracker)
        ensures
            r.scratch@.len() == 0,
            r.delivered@.len() == 0,
    {
        ShipTracker { scratch: Vec::new(), delivered: Vec::new() }
    }

    /// Record one send attempt of a new frame: delivered on success,
    /// spilled to scratch on failure.
    pub fn on_send(&mut self, frame: Vec<u8>, success: bool)
        ensures
            success ==> final(self).delivered@ == old(self).delivered@.push(frame) && final(self).scratch@ == old(self).scratch@,
            !success ==> final(self).scratch@ == old(self).scratch@.push(frame) && final(self).delivered@ == old(self).delivered@,
    {
        if success {
            self.delivered.push(frame);
        } else {
            self.scratch.push(frame);
        }
    }

    /// Whether spilled frames are waiting.
    pub fn has_backup(&self) -> (r: bool)
        ensures
            r == (self.scratch@.len() > 0),
    {
        self.scratch.len() > 0
    }

    /// Replay the oldest spilled frame: on success it moves to the
    /// delivered log; on failure everything stays.
    pub fn replay_oldest(&mut self, success: bool) -> (r: bool)
        ensures
            r == (old(self).scratch@.len() > 0 && success),
            old(self).scratch@.len() > 0 && success ==> final(self).scratch@ == old(self).scratch@.drop_first() && final(self).delivered@ == old(self).delivered@.push(
                old(self).scratch@[0],
            ),
            !(old(self).scratch@.len() > 0 && success) ==> final(self).scratch@ == old(self).scratch@ && final(self).delivered@ == old(self).delivered@,
    {
        if self.scratch.len() > 0 && success {
            let frame = self.scratch.remove(0);
            proof {
                assert(self.scratch@ =~= old(self).scratch@.drop_first());
            }
            self.delivered.push(frame);
            true
        } else {
            false
        }
    }
}

} // verus!
