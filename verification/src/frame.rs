//! The framed batch codec.
//!
//! A frame starts with the magic bytes `PRBM`, a protocol version, the
//! metric count, and a flag word (bit 0: compressed, bit 1: CRC32
//! appended). The payload holds each metric as a fixed 34-byte head
//! (uuid, timestamp, memory, cpu, duration) followed by counted extra
//! fields encoded with the value codec. A payload over 1 KiB is
//! zlib-compressed, with the uncompressed and compressed sizes spliced
//! in before the bytes; the optional CRC32 trailer covers the whole
//! frame before it. Decoders check magic, version, sizes, and CRC in
//! that order.

use vstd::prelude::*;

use crate::compress::{compress_data, zlib_deflate};
use crate::crc::{compute_crc32, crc32_of, validate_crc32};
use crate::dictionary::{spec_get_id, FieldRegistry};
use crate::errors::AgentError;
use crate::fnv::{fnv1a_64, spec_fnv1a};
use crate::value::{encodable, encode, spec_encode, Value};
use vstd::bytes::*;
use vstd::string::StringSliceAdditionalSpecFns;
use vstd::string::StrSliceExecFns;

verus! {

/// Protocol version of the frame layout.
pub const PROTOCOL_VERSION: u32 = 1;

/// Payloads above this many bytes are compressed.
pub const PROTOCOL_MIN_COMPRESSION_SIZE: usize = 1024;

/// The four magic bytes `PRBM`.
pub open spec fn spec_magic() -> Seq<u8> {
    seq![80u8, 82u8, 66u8, 77u8]
}

/// The value of a hexadecimal digit character, if it is one.
pub open spec fn spec_hex_val(c: char) -> Option<u8> {
    if '0' <= c <= '9' {
        Some((c as u8 - '0' as u8) as u8)
    } else if 'a' <= c <= 'f' {
        Some((c as u8 - 'a' as u8 + 10) as u8)
    } else if 'A' <= c <= 'F' {
        Some((c as u8 - 'A' as u8 + 10) as u8)
    } else {
        None
    }
}

/// Whether every character of `s` is a hex digit.
pub open spec fn spec_all_hex(s: Seq<char>) -> bool {
    forall|i: int| 0 <= i < s.len() ==> spec_hex_val(#[trigger] s[i]) is Some
}

/// The bytes named by consecutive hex digit pairs.
pub open spec fn spec_hex_bytes(s: Seq<char>) -> Seq<u8>
    decreases s.len(),
{
    if s.len() < 2 {
        Seq::empty()
    } else {
        seq![
            ((spec_hex_val(s[0]).unwrap() * 16) + spec_hex_val(s[1]).unwrap()) as u8,
        ] + spec_hex_bytes(s.skip(2))
    }
}

/// The 32 hex digits of a UUID string, accepting the hyphenated
/// 8-4-4-4-12 form and the plain 32-digit form.
pub open spec fn spec_uuid_hex(s: Seq<char>) -> Option<Seq<char>> {
    if s.len() == 36 && s[8] == '-' && s[13] == '-' && s[18] == '-' && s[23] == '-' {
        let h = s.subrange(0, 8) + s.subrange(9, 13) + s.subrange(14, 18) + s.subrange(19, 23)
            + s.subrange(24, 36);
        if spec_all_hex(h) {
            Some(h)
        } else {
            None
        }
    } else if s.len() == 32 && spec_all_hex(s) {
        Some(s)
    } else {
        None
    }
}

/// The 16 bytes standing for a request id: its UUID bytes when the id
/// parses as a UUID, otherwise its FNV-1a digest in the first 8 bytes.
pub open spec fn spec_request_id_bytes(s: Seq<char>) -> Seq<u8> {
    match spec_uuid_hex(s) {
        Some(h) => spec_hex_bytes(h),
        None => spec_u64_to_le_bytes(spec_fnv1a(vstd::utf8::encode_utf8(s))) + seq![
            0u8,
            0u8,
            0u8,
            0u8,
            0u8,
            0u8,
            0u8,
            0u8,
        ],
    }
}

/// The value of one hex digit character, or none.
fn hex_val(c: char) -> (r: Option<u8>)
    ensures
        r == spec_hex_val(c),
{
    if '0' <= c && c <= '9' {
        Some(c as u8 - '0' as u8)
    } else if 'a' <= c && c <= 'f' {
        Some(c as u8 - 'a' as u8 + 10)
    } else if 'A' <= c && c <= 'F' {
        Some(c as u8 - 'A' as u8 + 10)
    } else {
        None
    }
}

/// One metric observation ready for framing: plain values only, with
/// floats already reduced to their IEEE-754 bits and the CPU percentage
/// already scaled to a byte.
pub struct MetricEntry {
    /// The request id string (UUID or arbitrary).
    pub request_id: String,
    /// Milliseconds since the epoch.
    pub timestamp_ms: u64,
    /// Bits of the memory gauge as a 32-bit float.
    pub memory_mb_bits: u32,
    /// CPU percentage scaled into 0..=255.
    pub cpu_scaled: u8,
    /// Duration in milliseconds.
    pub duration_ms: u32,
    /// Extra fields: name and value.
    pub extras: Vec<(String, Value)>,
}

/// The byte image of one metric's extra field.
pub open spec fn spec_encode_extra(
    reg: Seq<(Seq<char>, u8)>,
    name: Seq<char>,
    v: crate::value::ValueModel,
) -> Seq<u8> {
    seq![spec_get_id(reg, name)] + spec_encode(v)
}

pub open spec fn spec_encode_extras(
    reg: Seq<(Seq<char>, u8)>,
    extras: Seq<(Seq<char>, crate::value::ValueModel)>,
) -> Seq<u8>
    decreases extras.len(),
{
    if extras.len() == 0 {
        Seq::empty()
    } else {
        spec_encode_extra(reg, extras[0].0, extras[0].1) + spec_encode_extras(
            reg,
            extras.drop_first(),
        )
    }
}

/// The byte image of one metric in the payload.
pub open spec fn spec_encode_metric(reg: Seq<(Seq<char>, u8)>, e: MetricEntry) -> Seq<u8> {
    spec_request_id_bytes(e.request_id@) + spec_u64_to_le_bytes(e.timestamp_ms)
        + spec_u32_to_le_bytes(e.memory_mb_bits) + seq![e.cpu_scaled] + spec_u32_to_le_bytes(
        e.duration_ms,
    ) + seq![e.extras@.len() as u8] + spec_encode_extras(
        reg,
        crate::value::entry_seq_model(e.extras@),
    )
}

/// The raw (uncompressed) payload of a batch.
pub open spec fn spec_payload(reg: Seq<(Seq<char>, u8)>, metrics: Seq<MetricEntry>) -> Seq<u8>
    decreases metrics.len(),
{
    if metrics.len() == 0 {
        Seq::empty()
    } else {
        spec_encode_metric(reg, metrics[0]) + spec_payload(reg, metrics.drop_first())
    }
}

/// The frame head: magic, version, count, flags.
pub open spec fn spec_frame_header(count: u32, flags: u32) -> Seq<u8> {
    spec_magic() + spec_u32_to_le_bytes(PROTOCOL_VERSION) + spec_u32_to_le_bytes(count)
        + spec_u32_to_le_bytes(flags)
}

/// A whole frame for a payload: compression applied above the 1 KiB
/// threshold, and a CRC32 trailer when requested.
pub open spec fn spec_frame(count: u32, payload: Seq<u8>, level: u32, with_crc: bool) -> Seq<u8> {
    let compressed = payload.len() > PROTOCOL_MIN_COMPRESSION_SIZE;
    let flags = (if compressed {
        1u32
    } else {
        0u32
    }) | (if with_crc {
        2u32
    } else {
        0u32
    });
    let body = if compressed {
        let z = zlib_deflate(payload, level);
        spec_u32_to_le_bytes(payload.len() as u32) + spec_u32_to_le_bytes(z.len() as u32) + z
    } else {
        payload
    };
    let head = spec_frame_header(count, flags) + body;
    if with_crc {
        crate::crc::with_crc32(head)
    } else {
        head
    }
}

/// Parse a request id as a UUID's 16 bytes, or hash it.
#[verifier::loop_isolation(false)]
pub fn request_id_bytes(request_id: &str) -> (r: Vec<u8>)
    ensures
        r@ == spec_request_id_bytes(request_id@),
        r@.len() == 16,
{
    let ghost sc = request_id@;
    let mut chars: Vec<char> = Vec::new();
    let total = request_id.unicode_len();
    let mut ci: usize = 0;
    while ci < total
        invariant
            ci <= total,
            total == sc.len(),
            chars@ =~= sc.take(ci as int),
        decreases total - ci,
    {
        chars.push(request_id.get_char(ci));
        proof {
            assert(chars@ =~= sc.take(ci as int + 1));
        }
        ci = ci + 1;
    }
    proof {
        assert(chars@ =~= sc);
    }
    let n = chars.len();
    let mut hex: Vec<char> = Vec::new();
    let mut ok = false;
    if n == 36 {
        if chars[8] == '-' && chars[13] == '-' && chars[18] == '-' && chars[23] == '-' {
            let mut i: usize = 0;
            while i < 36
                invariant
                    i <= 36,
                    n == 36,
                    chars@.len() == 36,
                    hex@ =~= (chars@.subrange(0, 8) + chars@.subrange(9, 13) + chars@.subrange(
                        14,
                        18,
                    ) + chars@.subrange(19, 23) + chars@.subrange(24, 36)).take(
                        hex@.len() as int,
                    ),
                    hex@.len() == (if i <= 8 {
                        i as int
                    } else if i <= 13 {
                        if i <= 9 {
                            8
                        } else {
                            i - 1
                        }
                    } else if i <= 18 {
                        if i <= 14 {
                            12
                        } else {
                            i - 2
                        }
                    } else if i <= 23 {
                        if i <= 19 {
                            16
                        } else {
                            i - 3
                        }
                    } else {
                        if i <= 24 {
                            20
                        } else {
                            i - 4
                        }
                    }),
                decreases 36 - i,
            {
                if i != 8 && i != 13 && i != 18 && i != 23 {
                    hex.push(chars[i]);
                }
                proof {
                    let full = chars@.subrange(0, 8) + chars@.subrange(9, 13) + chars@.subrange(
                        14,
                        18,
                    ) + chars@.subrange(19, 23) + chars@.subrange(24, 36);
                    assert(hex@ =~= full.take(hex@.len() as int));
                }
                i = i + 1;
            }
            proof {
                let full = chars@.subrange(0, 8) + chars@.subrange(9, 13) + chars@.subrange(
                    14,
                    18,
                ) + chars@.subrange(19, 23) + chars@.subrange(24, 36);
                assert(hex@ =~= full);
            }
            ok = true;
        }
    } else if n == 32 {
        let mut i: usize = 0;
        while i < 32
            invariant
                i <= 32,
                n == 32,
                chars@.len() == 32,
                hex@ =~= chars@.take(i as int),
            decreases 32 - i,
        {
            hex.push(chars[i]);
            proof {
                assert(hex@ =~= chars@.take(i as int + 1));
            }
            i = i + 1;
        }
        proof {
            assert(hex@ =~= chars@);
        }
        ok = true;
    }
    if ok {
        // check every collected character is a hex digit
        let mut all = true;
        let mut i: usize = 0;
        while i < hex.len()
            invariant
                i <= hex@.len(),
                all == (forall|j: int| 0 <= j < i ==> spec_hex_val(#[trigger] hex@[j]) is Some),
            decreases hex@.len() - i,
        {
            if hex_val(hex[i]).is_none() {
                all = false;
            }
            i = i + 1;
        }
        if all {
            // turn the 32 digits into 16 bytes
            let mut out: Vec<u8> = Vec::new();
            let mut k: usize = 0;
            while k + 1 < hex.len() + 1 && k + 2 <= hex.len()
                invariant
                    k % 2 == 0,
                    k <= hex@.len(),
                    hex@.len() == 32,
                    spec_all_hex(hex@),
                    out@ =~= spec_hex_bytes(hex@.take(k as int)),
                    out@.len() == k / 2,
                decreases hex@.len() - k,
            {
                let hi = match hex_val(hex[k]) {
                    Some(v) => v,
                    None => 0,
                };
                let lo = match hex_val(hex[k + 1]) {
                    Some(v) => v,
                    None => 0,
                };
                out.push(hi * 16 + lo);
                proof {
                    lemma_hex_bytes_snoc(hex@, k as int);
                }
                k = k + 2;
            }
            proof {
                assert(hex@.take(32) =~= hex@);
                assert(spec_uuid_hex(sc) == Some(hex@));
            }
            return out;
        }
    }
    // not a UUID: hash the id
    let digest = fnv1a_64(request_id.as_bytes());
    let mut out = u64_to_le_bytes(digest);
    let mut pad: usize = 0;
    while pad < 8
        invariant
            pad <= 8,
            out@.len() == 8 + pad,
            out@ =~= spec_u64_to_le_bytes(spec_fnv1a(vstd::utf8::encode_utf8(sc))) + Seq::new(
                pad as nat,
                |i: int| 0u8,
            ),
        decreases 8 - pad,
    {
        out.push(0);
        proof {
            assert(out@ =~= spec_u64_to_le_bytes(spec_fnv1a(vstd::utf8::encode_utf8(sc)))
                + Seq::new((pad + 1) as nat, |i: int| 0u8));
        }
        pad = pad + 1;
    }
    proof {
        assert(spec_uuid_hex(sc) is None);
        assert(Seq::new(8nat, |i: int| 0u8) =~= seq![0u8, 0u8, 0u8, 0u8, 0u8, 0u8, 0u8, 0u8]);
    }
    out
}

proof fn lemma_hex_bytes_snoc(h: Seq<char>, k: int)
    requires
        0 <= k,
        k % 2 == 0,
        k + 2 <= h.len(),
        spec_all_hex(h),
    ensures
        spec_hex_bytes(h.take(k + 2)) == spec_hex_bytes(h.take(k)).push(
            ((spec_hex_val(h[k]).unwrap() * 16) + spec_hex_val(h[k + 1]).unwrap()) as u8,
        ),
    decreases k,
{
    let t = h.take(k + 2);
    if k == 0 {
        assert(t[0] == h[0] && t[1] == h[1]);
        assert(t.skip(2) =~= h.take(0).skip(0).take(0));
        assert(t.skip(2).len() == 0);
        assert(spec_hex_bytes(t.skip(2)) =~= Seq::<u8>::empty());
        assert(spec_hex_bytes(h.take(0)) =~= Seq::<u8>::empty());
        assert(spec_hex_bytes(t) =~= spec_hex_bytes(h.take(0)).push(
            ((spec_hex_val(h[0]).unwrap() * 16) + spec_hex_val(h[1]).unwrap()) as u8,
        ));
    } else {
        let d = h.skip(2);
        assert(t[0] == h[0] && t[1] == h[1]);
        assert(t.skip(2) =~= d.take(k));
        assert(h.take(k)[0] == h[0] && h.take(k)[1] == h[1]);
        assert(h.take(k).skip(2) =~= d.take(k - 2));
        assert(spec_all_hex(d)) by {
            assert forall|i: int| 0 <= i < d.len() implies spec_hex_val(#[trigger] d[i])
                is Some by {
                assert(d[i] == h[i + 2]);
            }
        }
        lemma_hex_bytes_snoc(d, k - 2);
        assert(d.take(k - 2 + 2) =~= d.take(k));
        assert(d[k - 2] == h[k] && d[k - 1] == h[k + 1]);
    }
}

/// Whether every extra value has a faithful encoding.
pub open spec fn extras_encodable(extras: Seq<(Seq<char>, crate::value::ValueModel)>) -> bool
    decreases extras.len(),
{
    if extras.len() == 0 {
        true
    } else {
        encodable(extras[0].1) && crate::value::within_caps(extras[0].1) && extras_encodable(
            extras.drop_first(),
        )
    }
}

proof fn lemma_extras_encodable_index(extras: Seq<(Seq<char>, crate::value::ValueModel)>, i: int)
    requires
        extras_encodable(extras),
        0 <= i < extras.len(),
    ensures
        encodable(extras[i].1),
    decreases i,
{
    if i > 0 {
        lemma_extras_encodable_index(extras.drop_first(), i - 1);
    }
}

proof fn lemma_encode_extras_snoc(
    reg: Seq<(Seq<char>, u8)>,
    extras: Seq<(Seq<char>, crate::value::ValueModel)>,
    k: int,
)
    requires
        0 <= k < extras.len(),
    ensures
        spec_encode_extras(reg, extras.take(k + 1)) == spec_encode_extras(reg, extras.take(k))
            + spec_encode_extra(reg, extras[k].0, extras[k].1),
    decreases k,
{
    let t = extras.take(k + 1);
    if k == 0 {
        assert(t.drop_first() =~= extras.take(0));
        assert(t[0] == extras[0]);
        assert(spec_encode_extras(reg, extras.take(0)) =~= Seq::<u8>::empty());
        assert(spec_encode_extras(reg, t) =~= spec_encode_extra(reg, extras[0].0, extras[0].1));
        assert(spec_encode_extras(reg, extras.take(0)) + spec_encode_extra(
            reg,
            extras[0].0,
            extras[0].1,
        ) =~= spec_encode_extra(reg, extras[0].0, extras[0].1));
    } else {
        let d = extras.drop_first();
        assert(t.drop_first() =~= d.take(k));
        assert(extras.take(k).drop_first() =~= d.take(k - 1));
        lemma_encode_extras_snoc(reg, d, k - 1);
        assert(d.take(k - 1 + 1) =~= d.take(k));
        assert(d[k - 1] == extras[k]);
        assert(t[0] == extras[0]);
        let head = spec_encode_extra(reg, extras[0].0, extras[0].1);
        assert(head + (spec_encode_extras(reg, d.take(k - 1)) + spec_encode_extra(
            reg,
            extras[k].0,
            extras[k].1,
        )) =~= (head + spec_encode_extras(reg, d.take(k - 1))) + spec_encode_extra(
            reg,
            extras[k].0,
            extras[k].1,
        ));
    }
}

/// Append one metric's image to the payload buffer.
#[verifier::loop_isolation(false)]
pub fn encode_metric(entry: &MetricEntry, registry: &FieldRegistry, buffer: &mut Vec<u8>)
    requires
        extras_encodable(crate::value::entry_seq_model(entry.extras@)),
        entry.extras@.len() <= 255,
    ensures
        final(buffer)@ == old(buffer)@ + spec_encode_metric(registry.view_entries(), *entry),
{
    let ghost extras_m = crate::value::entry_seq_model(entry.extras@);
    proof {
        crate::value::lemma_entry_seq_model_len(entry.extras@);
    }
    let idb = request_id_bytes(entry.request_id.as_str());
    buffer.extend_from_slice(idb.as_slice());
    let tsb = u64_to_le_bytes(entry.timestamp_ms);
    buffer.extend_from_slice(tsb.as_slice());
    let mb = u32_to_le_bytes(entry.memory_mb_bits);
    buffer.extend_from_slice(mb.as_slice());
    buffer.push(entry.cpu_scaled);
    let db = u32_to_le_bytes(entry.duration_ms);
    buffer.extend_from_slice(db.as_slice());
    buffer.push(entry.extras.len() as u8);
    let ghost head = buffer@;
    let mut i: usize = 0;
    while i < entry.extras.len()
        invariant
            i <= entry.extras@.len(),
            buffer@ == head + spec_encode_extras(registry.view_entries(), extras_m.take(i as int)),
        decreases entry.extras@.len() - i,
    {
        proof {
            crate::value::lemma_entry_seq_model_index(entry.extras@, i as int);
            lemma_extras_encodable_index(extras_m, i as int);
        }
        let id = registry.get_id_for_field(entry.extras[i].0.as_str());
        buffer.push(id);
        encode(&entry.extras[i].1, buffer);
        proof {
            lemma_encode_extras_snoc(registry.view_entries(), extras_m, i as int);
            assert(buffer@ =~= head + spec_encode_extras(
                registry.view_entries(),
                extras_m.take(i as int + 1),
            ));
        }
        i = i + 1;
    }
    proof {
        assert(extras_m.take(extras_m.len() as int) =~= extras_m);
        assert(buffer@ =~= old(buffer)@ + spec_encode_metric(registry.view_entries(), *entry));
    }
}

proof fn lemma_payload_snoc(reg: Seq<(Seq<char>, u8)>, metrics: Seq<MetricEntry>, k: int)
    requires
        0 <= k < metrics.len(),
    ensures
        spec_payload(reg, metrics.take(k + 1)) == spec_payload(reg, metrics.take(k))
            + spec_encode_metric(reg, metrics[k]),
    decreases k,
{
    let t = metrics.take(k + 1);
    if k == 0 {
        assert(t.drop_first() =~= metrics.take(0));
        assert(t[0] == metrics[0]);
        assert(spec_payload(reg, metrics.take(0)) =~= Seq::<u8>::empty());
        assert(spec_payload(reg, t) =~= spec_encode_metric(reg, metrics[0]));
        assert(spec_payload(reg, metrics.take(0)) + spec_encode_metric(reg, metrics[0])
            =~= spec_encode_metric(reg, metrics[0]));
    } else {
        let d = metrics.drop_first();
        assert(t.drop_first() =~= d.take(k));
        assert(metrics.take(k).drop_first() =~= d.take(k - 1));
        lemma_payload_snoc(reg, d, k - 1);
        assert(d.take(k - 1 + 1) =~= d.take(k));
        assert(d[k - 1] == metrics[k]);
        assert(t[0] == metrics[0]);
        let head = spec_encode_metric(reg, metrics[0]);
        assert(head + (spec_payload(reg, d.take(k - 1)) + spec_encode_metric(reg, metrics[k]))
            =~= (head + spec_payload(reg, d.take(k - 1))) + spec_encode_metric(reg, metrics[k]));
    }
}

/// Whether every metric of a batch can be framed faithfully.
pub open spec fn metrics_encodable(metrics: Seq<MetricEntry>) -> bool {
    forall|i: int|
        0 <= i < metrics.len() ==> extras_encodable(
            crate::value::entry_seq_model((#[trigger] metrics[i]).extras@),
        ) && metrics[i].extras@.len() <= 255
}

/// Serialize a batch of metrics into one frame: header, payload
/// (compressed above 1 KiB), and an optional CRC32 trailer.
#[verifier::loop_isolation(false)]
pub fn serialize_metrics_binary(
    metrics: &Vec<MetricEntry>,
    registry: &FieldRegistry,
    compression_level: u32,
    use_error_correction: bool,
) -> (r: Vec<u8>)
    requires
        compression_level <= 9,
        metrics@.len() <= u32::MAX,
        metrics_encodable(metrics@),
        spec_payload(registry.view_entries(), metrics@).len() <= u32::MAX,
        spec_payload(registry.view_entries(), metrics@).len() > PROTOCOL_MIN_COMPRESSION_SIZE
            ==> zlib_deflate(spec_payload(registry.view_entries(), metrics@), compression_level).len()
            <= u32::MAX,
    ensures
        r@ == spec_frame(
            metrics@.len() as u32,
            spec_payload(registry.view_entries(), metrics@),
            compression_level,
            use_error_correction,
        ),
{
    let ghost reg = registry.view_entries();
    let mut payload: Vec<u8> = Vec::new();
    let mut i: usize = 0;
    while i < metrics.len()
        invariant
            i <= metrics@.len(),
            payload@ == spec_payload(reg, metrics@.take(i as int)),
        decreases metrics@.len() - i,
    {
        proof {
            assert(metrics@.take(i as int + 1)[i as int] == metrics@[i as int]);
        }
        encode_metric(&metrics[i], registry, &mut payload);
        proof {
            lemma_payload_snoc(reg, metrics@, i as int);
        }
        i = i + 1;
    }
    proof {
        assert(metrics@.take(metrics@.len() as int) =~= metrics@);
    }
    let compressed = payload.len() > PROTOCOL_MIN_COMPRESSION_SIZE;
    let flags: u32 = (if compressed {
        1u32
    } else {
        0u32
    }) | (if use_error_correction {
        2u32
    } else {
        0u32
    });
    let mut buffer: Vec<u8> = Vec::new();
    buffer.push(80);
    buffer.push(82);
    buffer.push(66);
    buffer.push(77);
    let vb = u32_to_le_bytes(PROTOCOL_VERSION);
    buffer.extend_from_slice(vb.as_slice());
    let cb = u32_to_le_bytes(metrics.len() as u32);
    buffer.extend_from_slice(cb.as_slice());
    let fb = u32_to_le_bytes(flags);
    buffer.extend_from_slice(fb.as_slice());
    proof {
        assert(buffer@ =~= spec_frame_header(metrics@.len() as u32, flags));
    }
    if compressed {
        let z = match compress_data(payload.as_slice(), compression_level) {
            Ok(z) => z,
            Err(_) => Vec::new(),
        };
        let ub = u32_to_le_bytes(payload.len() as u32);
        buffer.extend_from_slice(ub.as_slice());
        let zb = u32_to_le_bytes(z.len() as u32);
        buffer.extend_from_slice(zb.as_slice());
        buffer.extend_from_slice(z.as_slice());
        proof {
            assert(buffer@ =~= spec_frame_header(metrics@.len() as u32, flags)
                + (spec_u32_to_le_bytes(payload@.len() as u32) + spec_u32_to_le_bytes(
                zlib_deflate(payload@, compression_level).len() as u32,
            ) + zlib_deflate(payload@, compression_level)));
        }
    } else {
        buffer.extend_from_slice(payload.as_slice());
    }
    if use_error_correction {
        let ghost head_bytes = buffer@;
        let crc = compute_crc32(buffer.as_slice());
        let crcb = u32_to_le_bytes(crc);
        buffer.extend_from_slice(crcb.as_slice());
        proof {
            let pl = spec_payload(reg, metrics@);
            let z = zlib_deflate(pl, compression_level);
            let spec_body = if pl.len() > PROTOCOL_MIN_COMPRESSION_SIZE {
                spec_u32_to_le_bytes(pl.len() as u32) + spec_u32_to_le_bytes(z.len() as u32) + z
            } else {
                pl
            };
            assert(head_bytes =~= spec_frame_header(metrics@.len() as u32, flags) + spec_body);
            assert(buffer@ =~= crate::crc::with_crc32(head_bytes));
            assert(buffer@ =~= spec_frame(
                metrics@.len() as u32,
                spec_payload(reg, metrics@),
                compression_level,
                use_error_correction,
            ));
        }
    } else {
        proof {
            assert(buffer@ =~= spec_frame(
                metrics@.len() as u32,
                spec_payload(reg, metrics@),
                compression_level,
                use_error_correction,
            ));
        }
    }
    buffer
}

/// Build the raw payload of a batch.
#[verifier::loop_isolation(false)]
pub fn encode_payload(metrics: &Vec<MetricEntry>, registry: &FieldRegistry) -> (r: Vec<u8>)
    requires
        metrics_encodable(metrics@),
    ensures
        r@ == spec_payload(registry.view_entries(), metrics@),
{
    let ghost reg = registry.view_entries();
    let mut payload: Vec<u8> = Vec::new();
    let mut i: usize = 0;
    while i < metrics.len()
        invariant
            i <= metrics@.len(),
            payload@ == spec_payload(reg, metrics@.take(i as int)),
        decreases metrics@.len() - i,
    {
        proof {
            assert(metrics@.take(i as int + 1)[i as int] == metrics@[i as int]);
        }
        encode_metric(&metrics[i], registry, &mut payload);
        proof {
            lemma_payload_snoc(reg, metrics@, i as int);
        }
        i = i + 1;
    }
    proof {
        assert(metrics@.take(metrics@.len() as int) =~= metrics@);
    }
    payload
}

/// Frame a batch after checking every size bound: the metric count and
/// payload must fit their header fields, and so must the compressed
/// size when compression applies. Nothing is framed when a bound
/// fails.
pub fn serialize_metrics_checked(
    metrics: &Vec<MetricEntry>,
    registry: &FieldRegistry,
    compression_level: u32,
    use_error_correction: bool,
) -> (r: Option<Vec<u8>>)
    requires
        compression_level <= 9,
        metrics_encodable(metrics@),
    ensures
        r matches Some(f) ==> f@ == spec_frame(
            metrics@.len() as u32,
            spec_payload(registry.view_entries(), metrics@),
            compression_level,
            use_error_correction,
        ),
        r is None ==> metrics@.len() > u32::MAX || spec_payload(
            registry.view_entries(),
            metrics@,
        ).len() > u32::MAX || (spec_payload(registry.view_entries(), metrics@).len()
            > PROTOCOL_MIN_COMPRESSION_SIZE && zlib_deflate(
            spec_payload(registry.view_entries(), metrics@),
            compression_level,
        ).len() > u32::MAX),
{
    if metrics.len() as u64 > u32::MAX as u64 {
        return None;
    }
    let payload = encode_payload(metrics, registry);
    if payload.len() as u64 > u32::MAX as u64 {
        return None;
    }
    if payload.len() > PROTOCOL_MIN_COMPRESSION_SIZE {
        match compress_data(payload.as_slice(), compression_level) {
            Ok(z) => {
                if z.len() as u64 > u32::MAX as u64 {
                    return None;
                }
            },
            Err(_) => {
                return None;
            },
        }
    }
    Some(serialize_metrics_binary(metrics, registry, compression_level, use_error_correction))
}

/// Field-level facts about a produced frame, read back off its bytes.
proof fn lemma_frame_fields(count: u32, payload: Seq<u8>, level: u32, wc: bool)
    ensures
        ({
            let f = spec_frame(count, payload, level, wc);
            let compressed = payload.len() > PROTOCOL_MIN_COMPRESSION_SIZE;
            let flags = (if compressed {
                1u32
            } else {
                0u32
            }) | (if wc {
                2u32
            } else {
                0u32
            });
            let z = zlib_deflate(payload, level);
            let body = if compressed {
                spec_u32_to_le_bytes(payload.len() as u32) + spec_u32_to_le_bytes(
                    z.len() as u32,
                ) + z
            } else {
                payload
            };
            let head = spec_frame_header(count, flags) + body;
            let body_end = head.len() as int;
            &&& f.len() == head.len() + (if wc {
                4int
            } else {
                0int
            })
            &&& f.len() >= 16
            &&& f.subrange(0, 4) == spec_magic()
            &&& spec_u32_from_le_bytes(f.subrange(4, 8)) == PROTOCOL_VERSION
            &&& spec_u32_from_le_bytes(f.subrange(8, 12)) == count
            &&& spec_u32_from_le_bytes(f.subrange(12, 16)) == flags
            &&& f.subrange(0, body_end) == head
            &&& (wc ==> spec_u32_from_le_bytes(f.subrange(body_end, f.len() as int)) == crc32_of(
                head,
            ))
            &&& (compressed ==> body_end >= 24 && spec_u32_from_le_bytes(f.subrange(16, 20))
                == payload.len() as u32 && spec_u32_from_le_bytes(f.subrange(20, 24))
                == z.len() as u32 && f.subrange(24, body_end) == z)
            &&& (!compressed ==> f.subrange(16, body_end) == payload)
            &&& (flags & 2 == 2) == wc
            &&& (flags & 1 == 1) == compressed
        }),
{
    let f = spec_frame(count, payload, level, wc);
    let compressed = payload.len() > PROTOCOL_MIN_COMPRESSION_SIZE;
    let flags = (if compressed {
        1u32
    } else {
        0u32
    }) | (if wc {
        2u32
    } else {
        0u32
    });
    let z = zlib_deflate(payload, level);
    let body = if compressed {
        spec_u32_to_le_bytes(payload.len() as u32) + spec_u32_to_le_bytes(z.len() as u32) + z
    } else {
        payload
    };
    let head = spec_frame_header(count, flags) + body;
    lemma_auto_spec_u32_to_from_le_bytes();
    assert(0u32 | 0u32 == 0u32 && 1u32 | 0u32 == 1u32 && 0u32 | 2u32 == 2u32 && 1u32 | 2u32
        == 3u32) by (bit_vector);
    assert(0u32 & 2 == 0u32 && 1u32 & 2 == 0u32 && 2u32 & 2 == 2u32 && 3u32 & 2 == 2u32)
        by (bit_vector);
    assert(0u32 & 1 == 0u32 && 1u32 & 1 == 1u32 && 2u32 & 1 == 0u32 && 3u32 & 1 == 1u32)
        by (bit_vector);
    if wc {
        assert(f =~= head + spec_u32_to_le_bytes(crc32_of(head)));
    } else {
        assert(f =~= head);
    }
    assert(f.subrange(0, 4) =~= spec_magic());
    assert(f.subrange(4, 8) =~= spec_u32_to_le_bytes(PROTOCOL_VERSION));
    assert(f.subrange(8, 12) =~= spec_u32_to_le_bytes(count));
    assert(f.subrange(12, 16) =~= spec_u32_to_le_bytes(flags));
    assert(f.subrange(0, head.len() as int) =~= head);
    if wc {
        assert(f.subrange(head.len() as int, f.len() as int) =~= spec_u32_to_le_bytes(
            crc32_of(head),
        ));
    }
    if compressed {
        assert(f.subrange(16, 20) =~= spec_u32_to_le_bytes(payload.len() as u32));
        assert(f.subrange(20, 24) =~= spec_u32_to_le_bytes(z.len() as u32));
        assert(f.subrange(24, head.len() as int) =~= z);
    } else {
        assert(f.subrange(16, head.len() as int) =~= payload);
    }
}

/// Check a frame's envelope and give back its metric count and raw
/// payload: magic, version, size bounds, and CRC are verified in that
/// order before any payload byte is interpreted.
#[verifier::loop_isolation(false)]
#[verifier::rlimit(100)]
pub fn deserialize_metrics_binary(data: &[u8]) -> (r: Result<(u32, Vec<u8>), AgentError>)
    ensures
        // a frame we produced comes back intact
        forall|count: u32, payload: Seq<u8>, level: u32, wc: bool|
            (data@ == #[trigger] spec_frame(count, payload, level, wc) && payload.len()
                <= u32::MAX && level <= 9 && (payload.len() > PROTOCOL_MIN_COMPRESSION_SIZE
                ==> zlib_deflate(payload, level).len() <= u32::MAX)) ==> r is Ok && r.unwrap().0
                == count && r.unwrap().1@ == payload,
        data@.len() < 16 ==> r == Err::<(u32, Vec<u8>), AgentError>(AgentError::InvalidData),
        data@.len() >= 16 && data@.subrange(0, 4) != spec_magic() ==> r == Err::<
            (u32, Vec<u8>),
            AgentError,
        >(AgentError::BadMagic),
        data@.len() >= 16 && data@.subrange(0, 4) == spec_magic() && spec_u32_from_le_bytes(
            data@.subrange(4, 8),
        ) != PROTOCOL_VERSION ==> r == Err::<(u32, Vec<u8>), AgentError>(
            AgentError::VersionMismatch,
        ),
{
    let len = data.len();
    if len < 16 {
        proof {
            assert forall|c: u32, pl: Seq<u8>, lv: u32, w: bool|
                (data@ == #[trigger] spec_frame(c, pl, lv, w) && pl.len() <= u32::MAX && lv <= 9
                    && (pl.len() > PROTOCOL_MIN_COMPRESSION_SIZE ==> zlib_deflate(pl, lv).len()
                    <= u32::MAX)) implies false by {
                lemma_frame_fields(c, pl, lv, w);
            }
        }
        return Err(AgentError::InvalidData);
    }
    let m0 = *vstd::slice::slice_index_get(data, 0);
    let m1 = *vstd::slice::slice_index_get(data, 1);
    let m2 = *vstd::slice::slice_index_get(data, 2);
    let m3 = *vstd::slice::slice_index_get(data, 3);
    if !(m0 == 80 && m1 == 82 && m2 == 66 && m3 == 77) {
        proof {
            assert(data@.subrange(0, 4) != spec_magic()) by {
                if data@.subrange(0, 4) == spec_magic() {
                    assert(data@.subrange(0, 4)[0] == 80u8);
                    assert(data@.subrange(0, 4)[1] == 82u8);
                    assert(data@.subrange(0, 4)[2] == 66u8);
                    assert(data@.subrange(0, 4)[3] == 77u8);
                }
            }
            assert forall|c: u32, pl: Seq<u8>, lv: u32, w: bool|
                (data@ == #[trigger] spec_frame(c, pl, lv, w) && pl.len() <= u32::MAX && lv <= 9
                    && (pl.len() > PROTOCOL_MIN_COMPRESSION_SIZE ==> zlib_deflate(pl, lv).len()
                    <= u32::MAX)) implies false by {
                lemma_frame_fields(c, pl, lv, w);
            }
        }
        return Err(AgentError::BadMagic);
    }
    proof {
        assert(data@.subrange(0, 4) =~= spec_magic());
    }
    let version = u32_from_le_bytes(vstd::slice::slice_subrange(data, 4, 8));
    if version != PROTOCOL_VERSION {
        proof {
            assert forall|c: u32, pl: Seq<u8>, lv: u32, w: bool|
                (data@ == #[trigger] spec_frame(c, pl, lv, w) && pl.len() <= u32::MAX && lv <= 9
                    && (pl.len() > PROTOCOL_MIN_COMPRESSION_SIZE ==> zlib_deflate(pl, lv).len()
                    <= u32::MAX)) implies false by {
                lemma_frame_fields(c, pl, lv, w);
            }
        }
        return Err(AgentError::VersionMismatch);
    }
    let count = u32_from_le_bytes(vstd::slice::slice_subrange(data, 8, 12));
    let flags = u32_from_le_bytes(vstd::slice::slice_subrange(data, 12, 16));
    let with_crc = flags & 2 == 2;
    let compressed_flag = flags & 1 == 1;
    let body_end = if with_crc {
        if len < 20 {
            proof {
                assert forall|c: u32, pl: Seq<u8>, lv: u32, w: bool|
                    (data@ == #[trigger] spec_frame(c, pl, lv, w) && pl.len() <= u32::MAX && lv
                        <= 9 && (pl.len() > PROTOCOL_MIN_COMPRESSION_SIZE ==> zlib_deflate(
                        pl,
                        lv,
                    ).len() <= u32::MAX)) implies false by {
                    lemma_frame_fields(c, pl, lv, w);
                    lemma_auto_spec_u32_to_from_le_bytes();
                    let fcompressed = pl.len() > PROTOCOL_MIN_COMPRESSION_SIZE;
                    let fflags = (if fcompressed {
                        1u32
                    } else {
                        0u32
                    }) | (if w {
                        2u32
                    } else {
                        0u32
                    });
                    assert(flags == fflags);
                    assert(w);
                    assert(spec_frame_header(c, fflags).len() == 16);
                    assert(data@.len() >= 20);
                }
            }
            return Err(AgentError::InvalidData);
        }
        len - 4
    } else {
        len
    };
    if with_crc {
        let content = vstd::slice::slice_subrange(data, 0, body_end);
        let stored = u32_from_le_bytes(vstd::slice::slice_subrange(data, body_end, len));
        if !validate_crc32(content, stored) {
            proof {
                assert forall|c: u32, pl: Seq<u8>, lv: u32, w: bool|
                    (data@ == #[trigger] spec_frame(c, pl, lv, w) && pl.len() <= u32::MAX && lv
                        <= 9 && (pl.len() > PROTOCOL_MIN_COMPRESSION_SIZE ==> zlib_deflate(
                        pl,
                        lv,
                    ).len() <= u32::MAX)) implies false by {
                    lemma_frame_fields(c, pl, lv, w);
                }
            }
            return Err(AgentError::ChecksumMismatch);
        }
    }
    let payload: Vec<u8>;
    if compressed_flag {
        if body_end < 24 {
            proof {
                assert forall|c: u32, pl: Seq<u8>, lv: u32, w: bool|
                    (data@ == #[trigger] spec_frame(c, pl, lv, w) && pl.len() <= u32::MAX && lv
                        <= 9 && (pl.len() > PROTOCOL_MIN_COMPRESSION_SIZE ==> zlib_deflate(
                        pl,
                        lv,
                    ).len() <= u32::MAX)) implies false by {
                    lemma_frame_fields(c, pl, lv, w);
                }
            }
            return Err(AgentError::InvalidData);
        }
        let usize_field = u32_from_le_bytes(vstd::slice::slice_subrange(data, 16, 20));
        let csize_field = u32_from_le_bytes(vstd::slice::slice_subrange(data, 20, 24));
        if (csize_field as u64) != (body_end - 24) as u64 {
            proof {
                assert forall|c: u32, pl: Seq<u8>, lv: u32, w: bool|
                    (data@ == #[trigger] spec_frame(c, pl, lv, w) && pl.len() <= u32::MAX && lv
                        <= 9 && (pl.len() > PROTOCOL_MIN_COMPRESSION_SIZE ==> zlib_deflate(
                        pl,
                        lv,
                    ).len() <= u32::MAX)) implies false by {
                    lemma_frame_fields(c, pl, lv, w);
                }
            }
            return Err(AgentError::InvalidData);
        }
        let zbytes = vstd::slice::slice_subrange(data, 24, body_end);
        match crate::compress::decompress_data(zbytes) {
            Ok(p) => {
                if (p.len() as u64) != (usize_field as u64) {
                    proof {
                        assert forall|c: u32, pl: Seq<u8>, lv: u32, w: bool|
                            (data@ == #[trigger] spec_frame(c, pl, lv, w) && pl.len() <= u32::MAX
                                && lv <= 9 && (pl.len() > PROTOCOL_MIN_COMPRESSION_SIZE
                                ==> zlib_deflate(pl, lv).len() <= u32::MAX)) implies false by {
                            lemma_frame_fields(c, pl, lv, w);
                            assert(zbytes@ == zlib_deflate(pl, lv));
                            assert(p@ == pl);
                        }
                    }
                    return Err(AgentError::DecompressionFailed);
                }
                payload = p;
            },
            Err(_) => {
                proof {
                    assert forall|c: u32, pl: Seq<u8>, lv: u32, w: bool|
                        (data@ == #[trigger] spec_frame(c, pl, lv, w) && pl.len() <= u32::MAX
                            && lv <= 9 && (pl.len() > PROTOCOL_MIN_COMPRESSION_SIZE
                            ==> zlib_deflate(pl, lv).len() <= u32::MAX)) implies false by {
                        lemma_frame_fields(c, pl, lv, w);
                        assert(zbytes@ == zlib_deflate(pl, lv));
                    }
                }
                return Err(AgentError::DecompressionFailed);
            },
        }
    } else {
        payload = vstd::slice::slice_to_vec(vstd::slice::slice_subrange(data, 16, body_end));
    }
    proof {
        assert forall|c: u32, pl: Seq<u8>, lv: u32, w: bool|
            (data@ == #[trigger] spec_frame(c, pl, lv, w) && pl.len() <= u32::MAX && lv <= 9 && (
            pl.len() > PROTOCOL_MIN_COMPRESSION_SIZE ==> zlib_deflate(pl, lv).len()
                <= u32::MAX)) implies count == c && payload@ == pl by {
            lemma_frame_fields(c, pl, lv, w);
            if pl.len() > PROTOCOL_MIN_COMPRESSION_SIZE {
                assert(payload@ == pl);
            } else {
                assert(payload@ =~= pl);
            }
        }
    }
    Ok((count, payload))
}

} // verus!
