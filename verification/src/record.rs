//! Bitpacked metric records.
//!
//! A record packs many small fields into 64-bit blocks. The allocator
//! hands out bit ranges front to back; a range never crosses a block
//! boundary, and a range of a full 64 bits always opens a fresh block
//! at offset zero. Setters OR the value into bits that are still zero,
//! so a field id must be added at most once; getters mask the mapped
//! range back out.

use vstd::prelude::*;

use crate::errors::AgentError;
use vstd::bytes::*;

verus! {

/// Where one field lives inside a record, and what was stored there.
pub ghost struct FieldSlot {
    /// Index of the 64-bit block.
    pub block: int,
    /// First bit inside the block.
    pub offset: int,
    /// Number of bits.
    pub width: int,
    /// The stored value.
    pub value: u64,
}

/// The low `w` bits set.
pub open spec fn mask_bits(w: int) -> u64
    recommends
        0 <= w <= 64,
{
    if w == 64 {
        0xffff_ffff_ffff_ffffu64
    } else {
        ((1u64 << (w as u64)) - 1) as u64
    }
}

/// An ultra-compact metrics record: a hashed request id, a timestamp,
/// bit-blocks, and a field table mapping each field id to its block and
/// bit offset.
pub struct CompactMetricsRecord {
    /// FNV-1a hash of the request id.
    pub request_id_hash: u64,
    /// Milliseconds since the epoch.
    pub timestamp: u64,
    /// The 64-bit blocks holding the packed fields.
    pub bitpacked_data: Vec<u64>,
    /// Field id to (block index, bit offset).
    pub field_mapping: Vec<(u16, (u16, u8))>,
    /// Bits handed out in the tail block.
    pub tail_used: u8,
    /// The slots of all added fields.
    pub fields: Ghost<Map<u16, FieldSlot>>,
}

/// First mapping entry for `id`, if any.
pub open spec fn spec_lookup(mapping: Seq<(u16, (u16, u8))>, id: u16) -> Option<(u16, u8)>
    decreases mapping.len(),
{
    if mapping.len() == 0 {
        None
    } else if mapping[0].0 == id {
        Some(mapping[0].1)
    } else {
        spec_lookup(mapping.drop_first(), id)
    }
}

impl CompactMetricsRecord {
    /// Structural soundness: every mapping entry points inside the
    /// block array at an offset below 64, and no field id repeats.
    pub open spec fn wf_struct(&self) -> bool {
        &&& forall|i: int|
            0 <= i < self.field_mapping@.len() ==> {
                &&& ((#[trigger] self.field_mapping@[i]).1).0 < self.bitpacked_data@.len()
                &&& (self.field_mapping@[i].1).1 < 64
            }
        &&& forall|i: int, j: int|
            0 <= i < j < self.field_mapping@.len() ==> (#[trigger] self.field_mapping@[i]).0 != (
            #[trigger] self.field_mapping@[j]).0
    }

    /// Full tracking invariant: the ghost slot table agrees with the
    /// field table, allocated ranges stay below the allocation frontier
    /// without overlapping, and every slot still holds its value.
    pub open spec fn wf(&self) -> bool {
        &&& self.wf_struct()
        &&& self.bitpacked_data@.len() <= 65535
        &&& (self.bitpacked_data@.len() == 0 ==> self.tail_used == 0)
        &&& (self.bitpacked_data@.len() > 0 ==> 1 <= self.tail_used <= 64)
        &&& (self.bitpacked_data@.len() > 0 && self.tail_used < 64
            ==> (self.bitpacked_data@[self.bitpacked_data@.len() - 1] >> (self.tail_used as u64))
            == 0)
        &&& self.fields@.dom() =~= Set::new(
            |id: u16| spec_lookup(self.field_mapping@, id) is Some,
        )
        &&& forall|i: int|
            0 <= i < self.field_mapping@.len() ==> {
                let id = (#[trigger] self.field_mapping@[i]).0;
                let slot = self.fields@[id];
                &&& self.fields@.dom().contains(id)
                &&& slot.block == (self.field_mapping@[i].1).0
                &&& slot.offset == (self.field_mapping@[i].1).1
            }
        &&& forall|id: u16|
            #[trigger] self.fields@.dom().contains(id) ==> {
                let slot = self.fields@[id];
                &&& 0 <= slot.block < self.bitpacked_data@.len()
                &&& 0 <= slot.offset
                &&& 1 <= slot.width
                &&& slot.offset + slot.width <= 64
                &&& slot.value <= mask_bits(slot.width)
                &&& (slot.block < self.bitpacked_data@.len() - 1 || slot.offset + slot.width
                    <= self.tail_used)
                &&& ((self.bitpacked_data@[slot.block] >> (slot.offset as u64)) & mask_bits(
                    slot.width,
                )) == slot.value
            }
        &&& forall|id1: u16, id2: u16|
            #[trigger] self.fields@.dom().contains(id1) && #[trigger] self.fields@.dom().contains(
                id2,
            ) && id1 != id2 ==> ({
                let s1 = self.fields@[id1];
                let s2 = self.fields@[id2];
                s1.block != s2.block || s1.offset + s1.width <= s2.offset || s2.offset + s2.width
                    <= s1.offset
            })
    }

    /// A fresh, empty record for a request id hash and timestamp.
    pub fn new(request_id_hash: u64, timestamp: u64) -> (r: CompactMetricsRecord)
        ensures
            r.wf(),
            r.request_id_hash == request_id_hash,
            r.timestamp == timestamp,
            r.bitpacked_data@.len() == 0,
            r.field_mapping@.len() == 0,
            r.fields@ =~= Map::<u16, FieldSlot>::empty(),
    {
        let r = CompactMetricsRecord {
            request_id_hash,
            timestamp,
            bitpacked_data: Vec::new(),
            field_mapping: Vec::new(),
            tail_used: 0,
            fields: Ghost(Map::empty()),
        };
        proof {
            assert(r.fields@.dom() =~= Set::new(
                |id: u16| spec_lookup(r.field_mapping@, id) is Some,
            ));
        }
        r
    }

    /// Reserve `bit_count` bits; the range lies in one block, and a full
    /// 64-bit request always gets a fresh block at offset zero.
    pub fn allocate_bits(&mut self, bit_count: u8) -> (r: (u16, u8))
        requires
            old(self).wf(),
            1 <= bit_count <= 64,
            old(self).bitpacked_data@.len() < 65535,
        ensures
            final(self).wf(),
            final(self).request_id_hash == old(self).request_id_hash,
            final(self).timestamp == old(self).timestamp,
            final(self).field_mapping == old(self).field_mapping,
            final(self).fields == old(self).fields,
            r.0 as int == final(self).bitpacked_data@.len() - 1,
            r.1 + bit_count <= 64,
            bit_count == 64 ==> r.1 == 0,
            // the range stays in the tail block unless it would cross
            // the boundary; only then a fresh block opens at offset 0
            old(self).bitpacked_data@.len() > 0 && old(self).tail_used + bit_count <= 64
                ==> final(self).bitpacked_data@.len() == old(self).bitpacked_data@.len() && r.1
                == old(self).tail_used,
            old(self).bitpacked_data@.len() == 0 || old(self).tail_used + bit_count > 64
                ==> final(self).bitpacked_data@.len() == old(self).bitpacked_data@.len() + 1
                && r.1 == 0,
            // allocation frontier: the new range begins where use ends
            r.1 + bit_count == final(self).tail_used,
            // the granted bits (and everything above them) are still zero
            (final(self).bitpacked_data@[r.0 as int] >> (r.1 as u64)) == 0,
            // untouched prefix of blocks
            final(self).bitpacked_data@.len() >= old(self).bitpacked_data@.len(),
            forall|b: int|
                0 <= b < old(self).bitpacked_data@.len() && b < final(self).bitpacked_data@.len()
                    - 1 ==> final(self).bitpacked_data@[b] == old(self).bitpacked_data@[b],
            final(self).bitpacked_data@.len() > old(self).bitpacked_data@.len()
                ==> final(self).bitpacked_data@.len() == old(self).bitpacked_data@.len() + 1,
            // existing slots end at or before the new range
            forall|id: u16|
                #[trigger] old(self).fields@.dom().contains(id) ==> {
                    let slot = old(self).fields@[id];
                    slot.block < r.0 as int || (slot.block == r.0 as int && slot.offset
                        + slot.width <= r.1 as int)
                },
            // old tail block kept its bits when a new block was opened
            forall|b: int|
                0 <= b < final(self).bitpacked_data@.len() && b < old(self).bitpacked_data@.len()
                    ==> final(self).bitpacked_data@[b] == old(self).bitpacked_data@[b],
    {
        let len = self.bitpacked_data.len();
        if len == 0 || self.tail_used as u16 + bit_count as u16 > 64 {
            self.bitpacked_data.push(0);
            self.tail_used = bit_count;
            let block_idx = (self.bitpacked_data.len() - 1) as u16;
            proof {
                assert(self.bitpacked_data@[self.bitpacked_data@.len() - 1] == 0u64);
                assert((0u64 >> 0u64) == 0u64) by (bit_vector);
                if self.tail_used < 64 {
                    let t = self.tail_used as u64;
                    assert(0u64 >> t == 0u64) by (bit_vector);
                }
            }
            (block_idx, 0)
        } else {
            let offset = self.tail_used;
            self.tail_used = self.tail_used + bit_count;
            let block_idx = (len - 1) as u16;
            proof {
                let x = self.bitpacked_data@[len - 1];
                let o = offset as u64;
                let t = self.tail_used as u64;
                if offset < 64 {
                    assert(x >> o == 0 ==> (o <= 64 ==> x >> o == 0)) by (bit_vector);
                }
                if self.tail_used < 64 {
                    let o2 = offset as u64;
                    assert((x >> o2 == 0 && o2 <= t && t <= 64) ==> x >> t == 0) by (bit_vector);
                }
            }
            (block_idx, offset)
        }
    }
}

proof fn lemma_or_sets_bits(x: u64, v: u64, o: u64, w: u64)
    requires
        1 <= w <= 64,
        o + w <= 64,
        v <= mask_bits(w as int),
        x >> o == 0,
    ensures
        ((x | (v << o)) >> o) & mask_bits(w as int) == v,
        o + w < 64 ==> ((x | (v << o)) >> ((o + w) as u64)) == 0,
{
    if w == 64 {
        assert((x >> o == 0 && o + 64 <= 64 && v <= 0xffff_ffff_ffff_ffffu64) ==> ((x | (v << o))
            >> o) & 0xffff_ffff_ffff_ffffu64 == v) by (bit_vector);
    } else {
        assert((x >> o == 0 && 1 <= w < 64 && o + w <= 64 && v <= ((1u64 << w) - 1) as u64) ==> ((
        x | (v << o)) >> o) & ((1u64 << w) - 1) as u64 == v) by (bit_vector);
        if o + w < 64 {
            let t = (o + w) as u64;
            assert((x >> o == 0 && 1 <= w < 64 && o + w < 64 && t == o + w && v <= ((1u64 << w)
                - 1) as u64) ==> (x | (v << o)) >> t == 0) by (bit_vector);
        }
    }
}

proof fn lemma_or_preserves_below(x: u64, v: u64, o: u64, so: u64, sw: u64)
    requires
        1 <= sw,
        so + sw <= o,
        o < 64,
    ensures
        ((x | (v << o)) >> so) & mask_bits(sw as int) == (x >> so) & mask_bits(sw as int),
{
    assert((1 <= sw < 64 && so + sw <= o && o < 64) ==> ((x | (v << o)) >> so) & ((1u64 << sw)
        - 1) as u64 == (x >> so) & ((1u64 << sw) - 1) as u64) by (bit_vector);
}

proof fn lemma_lookup_push(s: Seq<(u16, (u16, u8))>, e: (u16, (u16, u8)), id: u16)
    ensures
        spec_lookup(s.push(e), id) == (if spec_lookup(s, id) is Some {
            spec_lookup(s, id)
        } else if e.0 == id {
            Some(e.1)
        } else {
            None
        }),
    decreases s.len(),
{
    if s.len() == 0 {
        assert(spec_lookup(s, id) is None);
        assert(s.push(e).len() == 1);
        assert(s.push(e)[0] == e);
        assert(s.push(e).drop_first() =~= Seq::<(u16, (u16, u8))>::empty());
        if e.0 == id {
            assert(spec_lookup(s.push(e), id) == Some(e.1));
        } else {
            assert(spec_lookup(s.push(e), id) == spec_lookup(s.push(e).drop_first(), id));
            assert(spec_lookup(s.push(e), id) is None);
        }
    } else {
        assert(s.push(e)[0] == s[0]);
        assert(s.push(e).drop_first() =~= s.drop_first().push(e));
        lemma_lookup_push(s.drop_first(), e, id);
        if s[0].0 == id {
            assert(spec_lookup(s.push(e), id) == Some(s[0].1));
            assert(spec_lookup(s, id) == Some(s[0].1));
        } else {
            assert(spec_lookup(s.push(e), id) == spec_lookup(s.drop_first().push(e), id));
            assert(spec_lookup(s, id) == spec_lookup(s.drop_first(), id));
        }
    }
}

proof fn lemma_lookup_found(s: Seq<(u16, (u16, u8))>, i: int, id: u16)
    requires
        0 <= i < s.len(),
        s[i].0 == id,
        forall|j: int| 0 <= j < i ==> (#[trigger] s[j]).0 != id,
    ensures
        spec_lookup(s, id) == Some(s[i].1),
    decreases i,
{
    if i > 0 {
        lemma_lookup_found(s.drop_first(), i - 1, id);
    }
}

proof fn lemma_lookup_none(s: Seq<(u16, (u16, u8))>, id: u16)
    requires
        forall|j: int| 0 <= j < s.len() ==> (#[trigger] s[j]).0 != id,
    ensures
        spec_lookup(s, id) is None,
    decreases s.len(),
{
    if s.len() > 0 {
        lemma_lookup_none(s.drop_first(), id);
    }
}

impl CompactMetricsRecord {
    /// Whether a field id is already present.
    pub fn has_field(&self, field_id: u16) -> (r: bool)
        ensures
            r == (spec_lookup(self.field_mapping@, field_id) is Some),
    {
        self.lookup_mapping(field_id).is_some()
    }

    /// Find the block and offset recorded for a field id.
    fn lookup_mapping(&self, field_id: u16) -> (r: Option<(u16, u8)>)
        ensures
            r == spec_lookup(self.field_mapping@, field_id),
    {
        let len = self.field_mapping.len();
        let mut i: usize = 0;
        while i < len
            invariant
                i <= len,
                len == self.field_mapping@.len(),
                forall|j: int| 0 <= j < i ==> (#[trigger] self.field_mapping@[j]).0 != field_id,
            decreases len - i,
        {
            let (id, loc) = self.field_mapping[i];
            if id == field_id {
                proof {
                    lemma_lookup_found(self.field_mapping@, i as int, field_id);
                }
                return Some(loc);
            }
            i = i + 1;
        }
        proof {
            lemma_lookup_none(self.field_mapping@, field_id);
        }
        None
    }

    /// Store `value` in a fresh range of `width` bits and map `field_id`
    /// to it.
    fn add_field_bits(&mut self, field_id: u16, value: u64, width: u8)
        requires
            old(self).wf(),
            1 <= width <= 64,
            value <= mask_bits(width as int),
            !old(self).fields@.dom().contains(field_id),
            old(self).bitpacked_data@.len() < 65535,
        ensures
            final(self).wf(),
            final(self).request_id_hash == old(self).request_id_hash,
            final(self).timestamp == old(self).timestamp,
            final(self).fields@.dom() =~= old(self).fields@.dom().insert(field_id),
            final(self).fields@[field_id].width == width as int,
            final(self).fields@[field_id].value == value,
            forall|other: u16|
                #[trigger] old(self).fields@.dom().contains(other) && other != field_id ==> final(self).fields@[other] == old(self).fields@[other],
            final(self).field_mapping@.len() == old(self).field_mapping@.len() + 1,
            final(self).field_mapping@.subrange(0, old(self).field_mapping@.len() as int) == old(self).field_mapping@,
            final(self).bitpacked_data@.len() <= old(self).bitpacked_data@.len() + 1,
            final(self).bitpacked_data@.len() >= 1,
    {
        let (block_idx, bit_offset) = self.allocate_bits(width);
        let ghost mid = *self;
        let b = block_idx as usize;
        let old_block = self.bitpacked_data[b];
        let shifted = value << (bit_offset as u64);
        let new_block = old_block | shifted;
        self.bitpacked_data[b] = new_block;
        self.field_mapping.push((field_id, (block_idx, bit_offset)));
        let ghost slot = FieldSlot {
            block: block_idx as int,
            offset: bit_offset as int,
            width: width as int,
            value,
        };
        proof {
            self.fields@ = self.fields@.insert(field_id, slot);
        }
        proof {
            let o = bit_offset as u64;
            let w = width as u64;
            lemma_or_sets_bits(old_block, value, o, w);
            lemma_lookup_push(mid.field_mapping@, (field_id, (block_idx, bit_offset)), field_id);
            assert(self.field_mapping@.subrange(0, mid.field_mapping@.len() as int)
                =~= mid.field_mapping@);
            // the new mapping resolves ids as before, plus the new one
            assert forall|id: u16| #[trigger]
                self.fields@.dom().contains(id) implies spec_lookup(self.field_mapping@, id)
                is Some by {
                lemma_lookup_push(mid.field_mapping@, (field_id, (block_idx, bit_offset)), id);
            }
            assert forall|id: u16|
                spec_lookup(self.field_mapping@, id) is Some implies #[trigger]
                self.fields@.dom().contains(id) by {
                lemma_lookup_push(mid.field_mapping@, (field_id, (block_idx, bit_offset)), id);
            }
            assert(self.fields@.dom() =~= Set::new(
                |id: u16| spec_lookup(self.field_mapping@, id) is Some,
            ));
            // every old slot keeps its bits
            assert forall|id: u16| #[trigger]
                self.fields@.dom().contains(id) && id != field_id implies {
                let sl = self.fields@[id];
                &&& ((self.bitpacked_data@[sl.block] >> (sl.offset as u64)) & mask_bits(sl.width))
                    == sl.value
                &&& (sl.block < self.bitpacked_data@.len() - 1 || sl.offset + sl.width
                    <= self.tail_used)
            } by {
                let sl = mid.fields@[id];
                if sl.block == block_idx as int {
                    lemma_or_preserves_below(
                        old_block,
                        value,
                        bit_offset as u64,
                        sl.offset as u64,
                        sl.width as u64,
                    );
                }
            }
            assert(self.wf());
        }
    }

    /// Add a boolean field in one bit.
    pub fn add_bool_field(&mut self, field_id: u16, value: bool)
        requires
            old(self).wf(),
            !old(self).fields@.dom().contains(field_id),
            old(self).bitpacked_data@.len() < 65535,
        ensures
            final(self).wf(),
            final(self).request_id_hash == old(self).request_id_hash,
            final(self).timestamp == old(self).timestamp,
            final(self).fields@.dom() =~= old(self).fields@.dom().insert(field_id),
            final(self).fields@[field_id].width == 1,
            final(self).bitpacked_data@.len() <= old(self).bitpacked_data@.len() + 1,
            final(self).bitpacked_data@.len() >= 1,
            final(self).fields@[field_id].value == (if value {
                1u64
            } else {
                0u64
            }),
            forall|other: u16|
                #[trigger] old(self).fields@.dom().contains(other) && other != field_id ==> final(self).fields@[other] == old(self).fields@[other],
    {
        proof {
            assert(mask_bits(1) == 1) by {
                assert((1u64 << 1u64) == 2u64) by (bit_vector);
            }
        }
        self.add_field_bits(
            field_id,
            if value {
                1
            } else {
                0
            },
            1,
        );
    }

    /// Add a small integer field in four bits; only the low four bits of
    /// `value` are kept.
    pub fn add_small_int_field(&mut self, field_id: u16, value: u8)
        requires
            old(self).wf(),
            !old(self).fields@.dom().contains(field_id),
            old(self).bitpacked_data@.len() < 65535,
        ensures
            final(self).wf(),
            final(self).request_id_hash == old(self).request_id_hash,
            final(self).timestamp == old(self).timestamp,
            final(self).fields@.dom() =~= old(self).fields@.dom().insert(field_id),
            final(self).fields@[field_id].width == 4,
            final(self).bitpacked_data@.len() <= old(self).bitpacked_data@.len() + 1,
            final(self).bitpacked_data@.len() >= 1,
            final(self).fields@[field_id].value == (value & 0x0f) as u64,
            forall|other: u16|
                #[trigger] old(self).fields@.dom().contains(other) && other != field_id ==> final(self).fields@[other] == old(self).fields@[other],
    {
        let masked = value & 0x0f;
        proof {
            assert(mask_bits(4) == 0x0f) by {
                assert((1u64 << 4u64) == 16u64) by (bit_vector);
            }
            assert((value & 0x0f) <= 0x0f) by (bit_vector);
        }
        self.add_field_bits(field_id, masked as u64, 4);
    }

    /// Add a medium integer field in eight bits.
    pub fn add_medium_int_field(&mut self, field_id: u16, value: u8)
        requires
            old(self).wf(),
            !old(self).fields@.dom().contains(field_id),
            old(self).bitpacked_data@.len() < 65535,
        ensures
            final(self).wf(),
            final(self).request_id_hash == old(self).request_id_hash,
            final(self).timestamp == old(self).timestamp,
            final(self).fields@.dom() =~= old(self).fields@.dom().insert(field_id),
            final(self).fields@[field_id].width == 8,
            final(self).bitpacked_data@.len() <= old(self).bitpacked_data@.len() + 1,
            final(self).bitpacked_data@.len() >= 1,
            final(self).fields@[field_id].value == value as u64,
            forall|other: u16|
                #[trigger] old(self).fields@.dom().contains(other) && other != field_id ==> final(self).fields@[other] == old(self).fields@[other],
    {
        proof {
            assert(mask_bits(8) == 0xff) by {
                assert((1u64 << 8u64) == 256u64) by (bit_vector);
            }
        }
        self.add_field_bits(field_id, value as u64, 8);
    }

    /// Add a large integer field in sixteen bits.
    pub fn add_large_int_field(&mut self, field_id: u16, value: u16)
        requires
            old(self).wf(),
            !old(self).fields@.dom().contains(field_id),
            old(self).bitpacked_data@.len() < 65535,
        ensures
            final(self).wf(),
            final(self).request_id_hash == old(self).request_id_hash,
            final(self).timestamp == old(self).timestamp,
            final(self).fields@.dom() =~= old(self).fields@.dom().insert(field_id),
            final(self).fields@[field_id].width == 16,
            final(self).bitpacked_data@.len() <= old(self).bitpacked_data@.len() + 1,
            final(self).bitpacked_data@.len() >= 1,
            final(self).fields@[field_id].value == value as u64,
            forall|other: u16|
                #[trigger] old(self).fields@.dom().contains(other) && other != field_id ==> final(self).fields@[other] == old(self).fields@[other],
    {
        proof {
            assert(mask_bits(16) == 0xffff) by {
                assert((1u64 << 16u64) == 65536u64) by (bit_vector);
            }
        }
        self.add_field_bits(field_id, value as u64, 16);
    }

    /// Read a one-bit field back.
    pub fn get_bool_field(&self, field_id: u16) -> (r: Option<bool>)
        requires
            self.wf_struct(),
        ensures
            r is Some <==> spec_lookup(self.field_mapping@, field_id) is Some,
            spec_lookup(self.field_mapping@, field_id) matches Some(loc) ==> r == Some(
                ((self.bitpacked_data@[loc.0 as int] >> (loc.1 as u64)) & 1) != 0,
            ),
            self.wf() && self.fields@.dom().contains(field_id) && self.fields@[field_id].width
                == 1 ==> r == Some(self.fields@[field_id].value == 1),
    {
        match self.lookup_mapping(field_id) {
            Some((block_idx, bit_offset)) => {
                proof {
                    lemma_lookup_entry_agrees(self.field_mapping@, field_id);
                    assert(exists|i: int|
                        0 <= i < self.field_mapping@.len() && (
                        #[trigger] self.field_mapping@[i]).0 == field_id
                            && (self.field_mapping@[i].1).0 == block_idx
                            && (self.field_mapping@[i].1).1 == bit_offset);
                    assert(block_idx < self.bitpacked_data@.len() && bit_offset < 64);
                    assert(mask_bits(1) == 1) by {
                        assert((1u64 << 1u64) == 2u64) by (bit_vector);
                    }
                }
                let block = self.bitpacked_data[block_idx as usize];
                let bit = (block >> (bit_offset as u64)) & 1;
                Some(bit != 0)
            },
            None => None,
        }
    }

    /// Read a four-bit field back.
    pub fn get_small_int_field(&self, field_id: u16) -> (r: Option<u8>)
        requires
            self.wf_struct(),
        ensures
            r is Some <==> spec_lookup(self.field_mapping@, field_id) is Some,
            spec_lookup(self.field_mapping@, field_id) matches Some(loc) ==> r == Some(
                (((self.bitpacked_data@[loc.0 as int] >> (loc.1 as u64)) & 0x0f) as u8),
            ),
            self.wf() && self.fields@.dom().contains(field_id) && self.fields@[field_id].width
                == 4 ==> r == Some(self.fields@[field_id].value as u8),
    {
        match self.lookup_mapping(field_id) {
            Some((block_idx, bit_offset)) => {
                proof {
                    lemma_lookup_entry_agrees(self.field_mapping@, field_id);
                    assert(exists|i: int|
                        0 <= i < self.field_mapping@.len() && (
                        #[trigger] self.field_mapping@[i]).0 == field_id
                            && (self.field_mapping@[i].1).0 == block_idx
                            && (self.field_mapping@[i].1).1 == bit_offset);
                    assert(block_idx < self.bitpacked_data@.len() && bit_offset < 64);
                    assert(mask_bits(4) == 0x0f) by {
                        assert((1u64 << 4u64) == 16u64) by (bit_vector);
                    }
                }
                let block = self.bitpacked_data[block_idx as usize];
                let v = ((block >> (bit_offset as u64)) & 0x0f) as u8;
                Some(v)
            },
            None => None,
        }
    }

    /// Read an eight-bit field back.
    pub fn get_medium_int_field(&self, field_id: u16) -> (r: Option<u8>)
        requires
            self.wf_struct(),
        ensures
            r is Some <==> spec_lookup(self.field_mapping@, field_id) is Some,
            spec_lookup(self.field_mapping@, field_id) matches Some(loc) ==> r == Some(
                (((self.bitpacked_data@[loc.0 as int] >> (loc.1 as u64)) & 0xff) as u8),
            ),
            self.wf() && self.fields@.dom().contains(field_id) && self.fields@[field_id].width
                == 8 ==> r == Some(self.fields@[field_id].value as u8),
    {
        match self.lookup_mapping(field_id) {
            Some((block_idx, bit_offset)) => {
                proof {
                    lemma_lookup_entry_agrees(self.field_mapping@, field_id);
                    assert(exists|i: int|
                        0 <= i < self.field_mapping@.len() && (
                        #[trigger] self.field_mapping@[i]).0 == field_id
                            && (self.field_mapping@[i].1).0 == block_idx
                            && (self.field_mapping@[i].1).1 == bit_offset);
                    assert(block_idx < self.bitpacked_data@.len() && bit_offset < 64);
                    assert(mask_bits(8) == 0xff) by {
                        assert((1u64 << 8u64) == 256u64) by (bit_vector);
                    }
                }
                let block = self.bitpacked_data[block_idx as usize];
                let v = ((block >> (bit_offset as u64)) & 0xff) as u8;
                Some(v)
            },
            None => None,
        }
    }

    /// Read a sixteen-bit field back.
    pub fn get_large_int_field(&self, field_id: u16) -> (r: Option<u16>)
        requires
            self.wf_struct(),
        ensures
            r is Some <==> spec_lookup(self.field_mapping@, field_id) is Some,
            spec_lookup(self.field_mapping@, field_id) matches Some(loc) ==> r == Some(
                (((self.bitpacked_data@[loc.0 as int] >> (loc.1 as u64)) & 0xffff) as u16),
            ),
            self.wf() && self.fields@.dom().contains(field_id) && self.fields@[field_id].width
                == 16 ==> r == Some(self.fields@[field_id].value as u16),
    {
        match self.lookup_mapping(field_id) {
            Some((block_idx, bit_offset)) => {
                proof {
                    lemma_lookup_entry_agrees(self.field_mapping@, field_id);
                    assert(exists|i: int|
                        0 <= i < self.field_mapping@.len() && (
                        #[trigger] self.field_mapping@[i]).0 == field_id
                            && (self.field_mapping@[i].1).0 == block_idx
                            && (self.field_mapping@[i].1).1 == bit_offset);
                    assert(block_idx < self.bitpacked_data@.len() && bit_offset < 64);
                    assert(mask_bits(16) == 0xffff) by {
                        assert((1u64 << 16u64) == 65536u64) by (bit_vector);
                    }
                }
                let block = self.bitpacked_data[block_idx as usize];
                let v = ((block >> (bit_offset as u64)) & 0xffff) as u16;
                Some(v)
            },
            None => None,
        }
    }
}

/// Under the full invariant, the location that lookup returns is the
/// mapped slot's location.
proof fn lemma_lookup_entry_agrees(mapping: Seq<(u16, (u16, u8))>, id: u16)
    ensures
        spec_lookup(mapping, id) is Some ==> exists|i: int|
            0 <= i < mapping.len() && (#[trigger] mapping[i]).0 == id && mapping[i].1
                == spec_lookup(mapping, id).unwrap(),
    decreases mapping.len(),
{
    if mapping.len() > 0 {
        if mapping[0].0 == id {
            assert(mapping[0].0 == id && mapping[0].1 == spec_lookup(mapping, id).unwrap());
        } else {
            lemma_lookup_entry_agrees(mapping.drop_first(), id);
            if spec_lookup(mapping, id) is Some {
                let i = choose|i: int|
                    0 <= i < mapping.drop_first().len() && (
                    #[trigger] mapping.drop_first()[i]).0 == id && mapping.drop_first()[i].1
                        == spec_lookup(mapping.drop_first(), id).unwrap();
                assert(mapping[i + 1] == mapping.drop_first()[i]);
            }
        }
    }
}

/// Byte image of the blocks, 8 little-endian bytes each.
pub open spec fn spec_serialize_blocks(blocks: Seq<u64>) -> Seq<u8>
    decreases blocks.len(),
{
    if blocks.len() == 0 {
        Seq::empty()
    } else {
        spec_u64_to_le_bytes(blocks[0]) + spec_serialize_blocks(blocks.drop_first())
    }
}

/// Byte image of the field table, five bytes per entry.
pub open spec fn spec_serialize_mapping(mapping: Seq<(u16, (u16, u8))>) -> Seq<u8>
    decreases mapping.len(),
{
    if mapping.len() == 0 {
        Seq::empty()
    } else {
        spec_u16_to_le_bytes(mapping[0].0) + spec_u16_to_le_bytes((mapping[0].1).0) + seq![
            (mapping[0].1).1,
        ] + spec_serialize_mapping(mapping.drop_first())
    }
}

/// The serialized record layout: hash, timestamp, block count and
/// blocks, mapping count and entries, all little-endian.
pub open spec fn spec_serialize_record(
    hash: u64,
    timestamp: u64,
    blocks: Seq<u64>,
    mapping: Seq<(u16, (u16, u8))>,
) -> Seq<u8> {
    spec_u64_to_le_bytes(hash) + spec_u64_to_le_bytes(timestamp) + spec_u32_to_le_bytes(
        blocks.len() as u32,
    ) + spec_serialize_blocks(blocks) + spec_u32_to_le_bytes(mapping.len() as u32)
        + spec_serialize_mapping(mapping)
}

/// Parse `n` blocks from the front of `data`.
pub open spec fn spec_parse_blocks(data: Seq<u8>, n: nat) -> Option<(Seq<u64>, int)>
    decreases n,
{
    if n == 0 {
        Some((Seq::empty(), 0))
    } else if data.len() < 8 {
        None
    } else {
        match spec_parse_blocks(data.skip(8), (n - 1) as nat) {
            Some((more, used)) => Some(
                (seq![spec_u64_from_le_bytes(data.subrange(0, 8))] + more, 8 + used),
            ),
            None => None,
        }
    }
}

/// Parse `n` field-table entries from the front of `data`.
pub open spec fn spec_parse_mapping(data: Seq<u8>, n: nat) -> Option<
    (Seq<(u16, (u16, u8))>, int),
>
    decreases n,
{
    if n == 0 {
        Some((Seq::empty(), 0))
    } else if data.len() < 5 {
        None
    } else {
        match spec_parse_mapping(data.skip(5), (n - 1) as nat) {
            Some((more, used)) => Some(
                (
                    seq![
                        (
                            spec_u16_from_le_bytes(data.subrange(0, 2)),
                            (spec_u16_from_le_bytes(data.subrange(2, 4)), data[4]),
                        ),
                    ] + more,
                    5 + used,
                ),
            ),
            None => None,
        }
    }
}

/// Whether a parsed field table can serve lookups: every entry points
/// inside the blocks at an offset below 64, and no field id repeats.
pub open spec fn spec_mapping_valid(blocks: Seq<u64>, mapping: Seq<(u16, (u16, u8))>) -> bool {
    &&& forall|i: int|
        0 <= i < mapping.len() ==> ((#[trigger] mapping[i]).1).0 < blocks.len() && (
        mapping[i].1).1 < 64
    &&& forall|i: int, j: int|
        0 <= i < j < mapping.len() ==> (#[trigger] mapping[i]).0 != (#[trigger] mapping[j]).0
}

/// Parse a whole record image.
pub open spec fn spec_parse_record(data: Seq<u8>) -> Option<
    (u64, u64, Seq<u64>, Seq<(u16, (u16, u8))>),
> {
    if data.len() < 20 {
        None
    } else {
        let hash = spec_u64_from_le_bytes(data.subrange(0, 8));
        let timestamp = spec_u64_from_le_bytes(data.subrange(8, 16));
        let n_blocks = spec_u32_from_le_bytes(data.subrange(16, 20)) as nat;
        match spec_parse_blocks(data.skip(20), n_blocks) {
            Some((blocks, bused)) => {
                let off = 20 + bused;
                if data.len() < off + 4 {
                    None
                } else {
                    let n_map = spec_u32_from_le_bytes(data.subrange(off, off + 4)) as nat;
                    match spec_parse_mapping(data.skip(off + 4), n_map) {
                        Some((mapping, _)) => Some((hash, timestamp, blocks, mapping)),
                        None => None,
                    }
                }
            },
            None => None,
        }
    }
}

proof fn lemma_serialize_blocks_len(blocks: Seq<u64>)
    ensures
        spec_serialize_blocks(blocks).len() == 8 * blocks.len(),
    decreases blocks.len(),
{
    lemma_auto_spec_u64_to_from_le_bytes();
    if blocks.len() > 0 {
        lemma_serialize_blocks_len(blocks.drop_first());
    }
}

proof fn lemma_serialize_mapping_len(mapping: Seq<(u16, (u16, u8))>)
    ensures
        spec_serialize_mapping(mapping).len() == 5 * mapping.len(),
    decreases mapping.len(),
{
    lemma_auto_spec_u16_to_from_le_bytes();
    if mapping.len() > 0 {
        lemma_serialize_mapping_len(mapping.drop_first());
    }
}

proof fn lemma_serialize_blocks_snoc(blocks: Seq<u64>, k: int)
    requires
        0 <= k < blocks.len(),
    ensures
        spec_serialize_blocks(blocks.take(k + 1)) == spec_serialize_blocks(blocks.take(k))
            + spec_u64_to_le_bytes(blocks[k]),
    decreases k,
{
    let t = blocks.take(k + 1);
    if k == 0 {
        assert(t.drop_first() =~= blocks.take(0));
        assert(t[0] == blocks[0]);
        assert(spec_serialize_blocks(blocks.take(0)) =~= Seq::<u8>::empty());
        assert(spec_serialize_blocks(blocks.take(0)) + spec_u64_to_le_bytes(blocks[0])
            =~= spec_u64_to_le_bytes(blocks[0]));
        assert(spec_serialize_blocks(t) =~= spec_u64_to_le_bytes(blocks[0]));
    } else {
        let d = blocks.drop_first();
        assert(t.drop_first() =~= d.take(k));
        assert(blocks.take(k).drop_first() =~= d.take(k - 1));
        lemma_serialize_blocks_snoc(d, k - 1);
        assert(d.take(k - 1 + 1) =~= d.take(k));
        assert(d[k - 1] == blocks[k]);
        assert(t[0] == blocks[0]);
        assert(spec_u64_to_le_bytes(blocks[0]) + (spec_serialize_blocks(d.take(k - 1))
            + spec_u64_to_le_bytes(blocks[k])) =~= (spec_u64_to_le_bytes(blocks[0])
            + spec_serialize_blocks(d.take(k - 1))) + spec_u64_to_le_bytes(blocks[k]));
    }
}

proof fn lemma_serialize_mapping_snoc(mapping: Seq<(u16, (u16, u8))>, k: int)
    requires
        0 <= k < mapping.len(),
    ensures
        spec_serialize_mapping(mapping.take(k + 1)) == spec_serialize_mapping(mapping.take(k))
            + spec_u16_to_le_bytes(mapping[k].0) + spec_u16_to_le_bytes((mapping[k].1).0) + seq![
            (mapping[k].1).1,
        ],
    decreases k,
{
    let t = mapping.take(k + 1);
    let entry = |e: (u16, (u16, u8))| spec_u16_to_le_bytes(e.0) + spec_u16_to_le_bytes(e.1.0)
        + seq![e.1.1];
    if k == 0 {
        assert(t.drop_first() =~= mapping.take(0));
        assert(t[0] == mapping[0]);
        assert(spec_serialize_mapping(mapping.take(0)) =~= Seq::<u8>::empty());
        assert(spec_serialize_mapping(t) =~= spec_u16_to_le_bytes(mapping[0].0)
            + spec_u16_to_le_bytes((mapping[0].1).0) + seq![(mapping[0].1).1]);
        assert(spec_serialize_mapping(mapping.take(0)) + spec_u16_to_le_bytes(mapping[0].0)
            + spec_u16_to_le_bytes((mapping[0].1).0) + seq![(mapping[0].1).1]
            =~= spec_u16_to_le_bytes(mapping[0].0) + spec_u16_to_le_bytes((mapping[0].1).0)
            + seq![(mapping[0].1).1]);
    } else {
        let d = mapping.drop_first();
        assert(t.drop_first() =~= d.take(k));
        assert(mapping.take(k).drop_first() =~= d.take(k - 1));
        lemma_serialize_mapping_snoc(d, k - 1);
        assert(d.take(k - 1 + 1) =~= d.take(k));
        assert(d[k - 1] == mapping[k]);
        assert(t[0] == mapping[0]);
        let head = spec_u16_to_le_bytes(mapping[0].0) + spec_u16_to_le_bytes((mapping[0].1).0)
            + seq![(mapping[0].1).1];
        assert(spec_serialize_mapping(t) == head + spec_serialize_mapping(d.take(k)));
        assert(spec_serialize_mapping(d.take(k)) == spec_serialize_mapping(d.take(k - 1))
            + spec_u16_to_le_bytes(mapping[k].0) + spec_u16_to_le_bytes((mapping[k].1).0) + seq![
            (mapping[k].1).1,
        ]);
        assert(head + (spec_serialize_mapping(d.take(k - 1)) + spec_u16_to_le_bytes(mapping[k].0)
            + spec_u16_to_le_bytes((mapping[k].1).0) + seq![(mapping[k].1).1]) =~= ((head
            + spec_serialize_mapping(d.take(k - 1))) + spec_u16_to_le_bytes(mapping[k].0)
            + spec_u16_to_le_bytes((mapping[k].1).0)) + seq![(mapping[k].1).1]);
    }
}

impl CompactMetricsRecord {
    /// Serialize to the record's little-endian byte layout.
    #[verifier::loop_isolation(false)]
    pub fn serialize(&self) -> (r: Vec<u8>)
        requires
            self.bitpacked_data@.len() <= u32::MAX,
            self.field_mapping@.len() <= u32::MAX,
        ensures
            r@ == spec_serialize_record(
                self.request_id_hash,
                self.timestamp,
                self.bitpacked_data@,
                self.field_mapping@,
            ),
    {
        let mut buffer = u64_to_le_bytes(self.request_id_hash);
        let ts = u64_to_le_bytes(self.timestamp);
        buffer.extend_from_slice(ts.as_slice());
        let bc = u32_to_le_bytes(self.bitpacked_data.len() as u32);
        buffer.extend_from_slice(bc.as_slice());
        let ghost header = buffer@;
        let mut i: usize = 0;
        while i < self.bitpacked_data.len()
            invariant
                i <= self.bitpacked_data@.len(),
                buffer@ == header + spec_serialize_blocks(self.bitpacked_data@.take(i as int)),
            decreases self.bitpacked_data@.len() - i,
        {
            let bb = u64_to_le_bytes(self.bitpacked_data[i]);
            buffer.extend_from_slice(bb.as_slice());
            proof {
                lemma_serialize_blocks_snoc(self.bitpacked_data@, i as int);
            }
            i = i + 1;
        }
        proof {
            assert(self.bitpacked_data@.take(self.bitpacked_data@.len() as int)
                =~= self.bitpacked_data@);
        }
        let mc = u32_to_le_bytes(self.field_mapping.len() as u32);
        buffer.extend_from_slice(mc.as_slice());
        let ghost header2 = buffer@;
        let mut j: usize = 0;
        while j < self.field_mapping.len()
            invariant
                j <= self.field_mapping@.len(),
                buffer@ == header2 + spec_serialize_mapping(self.field_mapping@.take(j as int)),
            decreases self.field_mapping@.len() - j,
        {
            let (id, loc) = self.field_mapping[j];
            let idb = u16_to_le_bytes(id);
            buffer.extend_from_slice(idb.as_slice());
            let blb = u16_to_le_bytes(loc.0);
            buffer.extend_from_slice(blb.as_slice());
            buffer.push(loc.1);
            proof {
                lemma_serialize_mapping_snoc(self.field_mapping@, j as int);
                assert(buffer@ =~= header2 + spec_serialize_mapping(
                    self.field_mapping@.take(j as int + 1),
                ));
            }
            j = j + 1;
        }
        proof {
            assert(self.field_mapping@.take(self.field_mapping@.len() as int)
                =~= self.field_mapping@);
            assert(buffer@ =~= spec_serialize_record(
                self.request_id_hash,
                self.timestamp,
                self.bitpacked_data@,
                self.field_mapping@,
            ));
        }
        buffer
    }

    /// Parse a record image back; rejects short input and any field
    /// table entry that points outside the blocks.
    #[verifier::loop_isolation(false)]
    pub fn deserialize(data: &[u8]) -> (r: Result<CompactMetricsRecord, AgentError>)
        ensures
            r is Ok ==> ({
                let rec = r.unwrap();
                &&& rec.wf_struct()
                &&& spec_parse_record(data@) == Some(
                    (
                        rec.request_id_hash,
                        rec.timestamp,
                        rec.bitpacked_data@,
                        rec.field_mapping@,
                    ),
                )
            }),
            spec_parse_record(data@) is None ==> r is Err,
            (spec_parse_record(data@) matches Some(parts) && spec_mapping_valid(
                parts.2,
                parts.3,
            )) ==> r is Ok,
    {
        let len = data.len();
        if len < 20 {
            return Err(AgentError::InvalidData);
        }
        let request_id_hash = u64_from_le_bytes(vstd::slice::slice_subrange(data, 0, 8));
        let timestamp = u64_from_le_bytes(vstd::slice::slice_subrange(data, 8, 16));
        let n_blocks = u32_from_le_bytes(vstd::slice::slice_subrange(data, 16, 20)) as usize;
        proof {
            assert(data@.subrange(0, 8) =~= data@.subrange(0, 8));
        }
        let mut blocks: Vec<u64> = Vec::new();
        let mut pos: usize = 20;
        let mut k: usize = 0;
        while k < n_blocks
            invariant
                pos == 20 + 8 * k,
                k <= n_blocks,
                pos <= len,
                len == data@.len(),
                blocks@.len() == k,
                spec_parse_blocks(data@.skip(20), n_blocks as nat) == (match spec_parse_blocks(
                    data@.skip(pos as int),
                    (n_blocks - k) as nat,
                ) {
                    Some((more, used)) => Some((blocks@ + more, 8 * k + used)),
                    None => None::<(Seq<u64>, int)>,
                }),
            decreases n_blocks - k,
        {
            if len - pos < 8 {
                proof {
                    assert(spec_parse_blocks(data@.skip(pos as int), (n_blocks - k) as nat)
                        is None);
                    assert(spec_parse_record(data@) is None);
                }
                return Err(AgentError::InvalidData);
            }
            let b = u64_from_le_bytes(vstd::slice::slice_subrange(data, pos, pos + 8));
            let ghost old_blocks = blocks@;
            blocks.push(b);
            proof {
                let rem = data@.skip(pos as int);
                assert(data@.subrange(pos as int, pos as int + 8) =~= rem.subrange(0, 8));
                assert(rem.skip(8) =~= data@.skip(pos as int + 8));
                assert(blocks@ =~= old_blocks + seq![b]);
                assert forall|more: Seq<u64>| true implies old_blocks + (seq![b] + more) =~= (
                old_blocks + seq![b]) + more by {}
            }
            pos = pos + 8;
            k = k + 1;
        }
        proof {
            assert(spec_parse_blocks(data@.skip(pos as int), 0) == Some((Seq::<u64>::empty(), 0int)));
            assert(blocks@ + Seq::<u64>::empty() =~= blocks@);
        }
        if len - pos < 4 {
            proof {
                assert(spec_parse_blocks(data@.skip(20), n_blocks as nat) == Some(
                    (blocks@, (pos - 20) as int),
                ));
                assert(spec_parse_record(data@) is None);
            }
            return Err(AgentError::InvalidData);
        }
        let n_map = u32_from_le_bytes(vstd::slice::slice_subrange(data, pos, pos + 4)) as usize;
        proof {
            assert(data@.subrange(pos as int, pos as int + 4) =~= data@.subrange(
                pos as int,
                pos as int + 4,
            ));
        }
        let ghost header_pos = pos as int;
        proof {
            assert(spec_parse_blocks(data@.skip(20), n_blocks as nat) == Some(
                (blocks@, (pos - 20) as int),
            ));
        }
        let map_start = pos + 4;
        let mut mapping: Vec<(u16, (u16, u8))> = Vec::new();
        let mut pos2: usize = map_start;
        let mut m: usize = 0;
        while m < n_map
            invariant
                pos2 == map_start + 5 * m,
                m <= n_map,
                pos2 <= len,
                len == data@.len(),
                mapping@.len() == m,
                spec_parse_mapping(data@.skip(map_start as int), n_map as nat) == (match
                    spec_parse_mapping(data@.skip(pos2 as int), (n_map - m) as nat) {
                    Some((more, used)) => Some((mapping@ + more, 5 * m + used)),
                    None => None::<(Seq<(u16, (u16, u8))>, int)>,
                }),
                // every accepted entry is in range
                forall|i: int|
                    0 <= i < mapping@.len() ==> ((#[trigger] mapping@[i]).1).0 < blocks@.len() && (
                    mapping@[i].1).1 < 64,
            decreases n_map - m,
        {
            if len - pos2 < 5 {
                proof {
                    assert(spec_parse_mapping(data@.skip(pos2 as int), (n_map - m) as nat)
                        is None);
                    assert(spec_parse_mapping(data@.skip(map_start as int), n_map as nat)
                        is None);
                    assert(spec_parse_record(data@) is None);
                }
                return Err(AgentError::InvalidData);
            }
            let id = u16_from_le_bytes(vstd::slice::slice_subrange(data, pos2, pos2 + 2));
            let blk = u16_from_le_bytes(vstd::slice::slice_subrange(data, pos2 + 2, pos2 + 4));
            let off = *vstd::slice::slice_index_get(data, pos2 + 4);
            proof {
                let rem = data@.skip(pos2 as int);
                assert(data@.subrange(pos2 as int, pos2 as int + 2) =~= rem.subrange(0, 2));
                assert(data@.subrange(pos2 as int + 2, pos2 as int + 4) =~= rem.subrange(2, 4));
                assert(data@[pos2 as int + 4] == rem[4]);
                assert(rem.skip(5) =~= data@.skip(pos2 as int + 5));
            }
            if blk as usize >= blocks.len() || off >= 64 {
                proof {
                    let rem = data@.skip(pos2 as int);
                    match spec_parse_record(data@) {
                        Some(parts) => {
                            assert(parts.2 == blocks@);
                            match spec_parse_mapping(rem, (n_map - m) as nat) {
                                Some((more, used)) => {
                                    assert(more[0] == (id, (blk, off)));
                                    assert(parts.3 == mapping@ + more);
                                    assert(parts.3[m as int] == (id, (blk, off)));
                                    assert(!spec_mapping_valid(parts.2, parts.3));
                                },
                                None => {
                                    assert(spec_parse_record(data@) is None);
                                },
                            }
                        },
                        None => {},
                    }
                }
                return Err(AgentError::InvalidData);
            }
            let ghost old_mapping = mapping@;
            mapping.push((id, (blk, off)));
            proof {
                assert(mapping@ =~= old_mapping + seq![(id, (blk, off))]);
                assert forall|more: Seq<(u16, (u16, u8))>| true implies old_mapping + (seq![
                    (id, (blk, off)),
                ] + more) =~= (old_mapping + seq![(id, (blk, off))]) + more by {}
            }
            pos2 = pos2 + 5;
            m = m + 1;
        }
        proof {
            assert(spec_parse_mapping(data@.skip(pos2 as int), 0) == Some(
                (Seq::<(u16, (u16, u8))>::empty(), 0int),
            ));
            assert(mapping@ + Seq::<(u16, (u16, u8))>::empty() =~= mapping@);
        }
        // reject duplicate field ids so lookups are unambiguous
        let mut a: usize = 0;
        while a < mapping.len()
            invariant
                a <= mapping@.len(),
                forall|i: int, j: int|
                    0 <= i < j < mapping@.len() && i < a ==> (#[trigger] mapping@[i]).0 != (
                    #[trigger] mapping@[j]).0,
            decreases mapping@.len() - a,
        {
            let mut b2: usize = a + 1;
            while b2 < mapping.len()
                invariant
                    a < b2,
                    b2 <= mapping@.len() || b2 == a + 1,
                    a < mapping@.len(),
                    forall|j: int| a < j < b2 ==> (#[trigger] mapping@[j]).0 != mapping@[a as int].0,
                decreases mapping@.len() - b2,
            {
                if mapping[b2].0 == mapping[a].0 {
                    proof {
                        match spec_parse_record(data@) {
                            Some(parts) => {
                                assert(parts.3 == mapping@);
                                assert(!spec_mapping_valid(parts.2, parts.3));
                            },
                            None => {},
                        }
                    }
                    return Err(AgentError::InvalidData);
                }
                b2 = b2 + 1;
            }
            a = a + 1;
        }
        let tail_used: u8 = if blocks.len() > 0 {
            64
        } else {
            0
        };
        let rec = CompactMetricsRecord {
            request_id_hash,
            timestamp,
            bitpacked_data: blocks,
            field_mapping: mapping,
            tail_used,
            fields: Ghost(Map::empty()),
        };
        proof {
            assert(data@.subrange(0, 8) == data@.subrange(0, 8));
            assert(rec.wf_struct());
        }
        Ok(rec)
    }
}

/// Law: a record's serialized image parses back to the same hash,
/// timestamp, blocks, and field table, bit for bit.
pub proof fn lemma_record_round_trip(
    hash: u64,
    timestamp: u64,
    blocks: Seq<u64>,
    mapping: Seq<(u16, (u16, u8))>,
)
    requires
        blocks.len() <= u32::MAX,
        mapping.len() <= u32::MAX,
    ensures
        spec_parse_record(spec_serialize_record(hash, timestamp, blocks, mapping)) == Some(
            (hash, timestamp, blocks, mapping),
        ),
{
    let data = spec_serialize_record(hash, timestamp, blocks, mapping);
    lemma_auto_spec_u64_to_from_le_bytes();
    lemma_auto_spec_u32_to_from_le_bytes();
    lemma_auto_spec_u16_to_from_le_bytes();
    lemma_serialize_blocks_len(blocks);
    lemma_serialize_mapping_len(mapping);
    assert(data.subrange(0, 8) =~= spec_u64_to_le_bytes(hash));
    assert(data.subrange(8, 16) =~= spec_u64_to_le_bytes(timestamp));
    assert(data.subrange(16, 20) =~= spec_u32_to_le_bytes(blocks.len() as u32));
    let tail1 = spec_serialize_blocks(blocks) + (spec_u32_to_le_bytes(mapping.len() as u32)
        + spec_serialize_mapping(mapping));
    assert(data.skip(20) =~= tail1);
    lemma_parse_blocks_round_trip(
        blocks,
        spec_u32_to_le_bytes(mapping.len() as u32) + spec_serialize_mapping(mapping),
    );
    let off: int = 20 + 8 * (blocks.len() as int);
    assert(data.subrange(off, off + 4) =~= spec_u32_to_le_bytes(mapping.len() as u32));
    assert(data.skip(off + 4) =~= spec_serialize_mapping(mapping));
    lemma_parse_mapping_round_trip(mapping, Seq::empty());
    assert(spec_serialize_mapping(mapping) + Seq::<u8>::empty() =~= spec_serialize_mapping(
        mapping,
    ));
}

proof fn lemma_parse_blocks_round_trip(blocks: Seq<u64>, rest: Seq<u8>)
    ensures
        spec_parse_blocks(spec_serialize_blocks(blocks) + rest, blocks.len() as nat) == Some(
            (blocks, 8 * blocks.len() as int),
        ),
    decreases blocks.len(),
{
    lemma_auto_spec_u64_to_from_le_bytes();
    if blocks.len() == 0 {
        assert(spec_serialize_blocks(blocks) + rest =~= rest);
        assert(blocks =~= Seq::<u64>::empty());
    } else {
        let head = blocks[0];
        let tail = blocks.drop_first();
        let data = spec_serialize_blocks(blocks) + rest;
        lemma_serialize_blocks_len(blocks);
        assert(data =~= spec_u64_to_le_bytes(head) + (spec_serialize_blocks(tail) + rest));
        assert(data.subrange(0, 8) =~= spec_u64_to_le_bytes(head));
        assert(data.skip(8) =~= spec_serialize_blocks(tail) + rest);
        lemma_parse_blocks_round_trip(tail, rest);
        assert(seq![head] + tail =~= blocks);
    }
}

proof fn lemma_parse_mapping_round_trip(mapping: Seq<(u16, (u16, u8))>, rest: Seq<u8>)
    ensures
        spec_parse_mapping(spec_serialize_mapping(mapping) + rest, mapping.len() as nat) == Some(
            (mapping, 5 * mapping.len() as int),
        ),
    decreases mapping.len(),
{
    lemma_auto_spec_u16_to_from_le_bytes();
    if mapping.len() == 0 {
        assert(spec_serialize_mapping(mapping) + rest =~= rest);
        assert(mapping =~= Seq::<(u16, (u16, u8))>::empty());
    } else {
        let head = mapping[0];
        let tail = mapping.drop_first();
        let data = spec_serialize_mapping(mapping) + rest;
        lemma_serialize_mapping_len(mapping);
        assert(data =~= spec_u16_to_le_bytes(head.0) + spec_u16_to_le_bytes((head.1).0) + seq![
            (head.1).1,
        ] + (spec_serialize_mapping(tail) + rest));
        assert(data.subrange(0, 2) =~= spec_u16_to_le_bytes(head.0));
        assert(data.subrange(2, 4) =~= spec_u16_to_le_bytes((head.1).0));
        assert(data[4] == (head.1).1);
        assert(data.skip(5) =~= spec_serialize_mapping(tail) + rest);
        lemma_parse_mapping_round_trip(tail, rest);
        assert(seq![head] + tail =~= mapping);
    }
}

} // verus!
