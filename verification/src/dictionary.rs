//! The field-name dictionary shared with the sink.
//!
//! A registry maps field names to one-byte ids and back. Ids 1 through 9
//! are reserved for the canonical fields and never change; dynamic ids
//! are handed out from 10 upwards, scanning for a free slot once the
//! range is exhausted. A snapshot serializes as a version tag, an entry
//! count, and `{id, name_len, name}` entries; deserialization rejects a
//! mismatched version and never overwrites a reserved entry.

use vstd::prelude::*;

use crate::errors::AgentError;
use vstd::bytes::*;
use vstd::string::StringSliceAdditionalSpecFns;
use vstd::utf8::{decode_utf8, encode_utf8, valid_utf8};

verus! {

/// Version tag of the serialized registry snapshot.
pub const PROTOCOL_FIELD_REGISTRY_VERSION: u32 = 1;

/// The canonical name owning a reserved id, as a character sequence.
pub open spec fn spec_reserved_name(id: int) -> Seq<char> {
    if id == 1 {
        "timestamp"@
    } else if id == 2 {
        "request_id"@
    } else if id == 3 {
        "memory_usage_mb"@
    } else if id == 4 {
        "cpu_usage_percent"@
    } else if id == 5 {
        "duration_ms"@
    } else if id == 6 {
        "error"@
    } else if id == 7 {
        "function_name"@
    } else if id == 8 {
        "function_version"@
    } else {
        "region"@
    }
}

/// Whether a name is one of the nine canonical reserved names.
pub open spec fn spec_is_reserved_name(name: Seq<char>) -> bool {
    exists|id: int| 1 <= id <= 9 && spec_reserved_name(id) == name
}

/// Well-formedness of a registry's entry table: the nine reserved
/// entries head it with their canonical ids, names and ids never
/// repeat, dynamic ids stay outside the reserved range, every name
/// fits one length byte, and growth is capped at 256 entries.
pub open spec fn spec_registry_model_wf(m: Seq<(Seq<char>, u8)>) -> bool {
    &&& m.len() >= 9
    &&& forall|i: int| 0 <= i < 9 ==> (#[trigger] m[i]) == (spec_reserved_name(i + 1), (i
        + 1) as u8)
    &&& forall|i: int| 9 <= i < m.len() ==> 10 <= (#[trigger] m[i]).1
    &&& forall|i: int, j: int| 0 <= i < j < m.len() ==> (#[trigger] m[i]).0 != (#[trigger] m[j]).0
    &&& forall|i: int, j: int| 0 <= i < j < m.len() ==> (#[trigger] m[i]).1 != (#[trigger] m[j]).1
    &&& forall|i: int| 0 <= i < m.len() ==> encode_utf8((#[trigger] m[i]).0).len() <= 255
    &&& m.len() <= 256
}

/// The model of a registry: its entries in order, as (name, id) pairs.
pub open spec fn entries_model(entries: Seq<(String, u8)>) -> Seq<(Seq<char>, u8)>
    decreases entries.len(),
{
    if entries.len() == 0 {
        Seq::empty()
    } else {
        seq![(entries[0].0@, entries[0].1)] + entries_model(entries.drop_first())
    }
}

/// The id registered for a name, or zero when the name is absent.
pub open spec fn spec_get_id(entries: Seq<(Seq<char>, u8)>, name: Seq<char>) -> u8
    decreases entries.len(),
{
    if entries.len() == 0 {
        0u8
    } else if entries[0].0 == name {
        entries[0].1
    } else {
        spec_get_id(entries.drop_first(), name)
    }
}

/// The name registered under an id, if any.
pub open spec fn spec_get_name(entries: Seq<(Seq<char>, u8)>, id: u8) -> Option<Seq<char>>
    decreases entries.len(),
{
    if entries.len() == 0 {
        None
    } else if entries[0].1 == id {
        Some(entries[0].0)
    } else {
        spec_get_name(entries.drop_first(), id)
    }
}

/// A bidirectional field name to id registry.
pub struct FieldRegistry {
    /// The entries, reserved names first, in registration order.
    pub entries: Vec<(String, u8)>,
    /// The next dynamic id to try.
    pub next_id: u8,
}

impl FieldRegistry {
    /// The registry's mathematical model.
    pub open spec fn view_entries(&self) -> Seq<(Seq<char>, u8)> {
        entries_model(self.entries@)
    }

    /// Well-formedness: the reserved entries head the table with their
    /// canonical ids, names and ids never repeat, dynamic ids stay
    /// outside the reserved range, and every name fits one length byte.
    pub open spec fn wf(&self) -> bool {
        &&& self.view_entries().len() == self.entries@.len()
        &&& spec_registry_model_wf(self.view_entries())
        &&& self.next_id >= 10
    }
}

proof fn lemma_entries_model_index(s: Seq<(String, u8)>, i: int)
    requires
        0 <= i < s.len(),
    ensures
        entries_model(s).len() == s.len(),
        entries_model(s)[i] == (s[i].0@, s[i].1),
    decreases s.len(),
{
    if s.len() > 0 {
        if i > 0 {
            lemma_entries_model_index(s.drop_first(), i - 1);
        } else {
            lemma_entries_model_len(s.drop_first());
        }
    }
}

proof fn lemma_entries_model_len(s: Seq<(String, u8)>)
    ensures
        entries_model(s).len() == s.len(),
    decreases s.len(),
{
    if s.len() > 0 {
        lemma_entries_model_len(s.drop_first());
    }
}

proof fn lemma_entries_model_push(s: Seq<(String, u8)>, e: (String, u8))
    ensures
        entries_model(s.push(e)) == entries_model(s).push((e.0@, e.1)),
    decreases s.len(),
{
    lemma_entries_model_len(s);
    lemma_entries_model_len(s.push(e));
    if s.len() == 0 {
        assert(s.push(e)[0] == e);
        assert(s.push(e).drop_first() =~= Seq::<(String, u8)>::empty());
        assert(entries_model(s.push(e)) =~= entries_model(s).push((e.0@, e.1)));
    } else {
        assert(s.push(e)[0] == s[0]);
        assert(s.push(e).drop_first() =~= s.drop_first().push(e));
        lemma_entries_model_push(s.drop_first(), e);
        assert(entries_model(s.push(e)) =~= entries_model(s).push((e.0@, e.1)));
    }
}

proof fn lemma_get_id_found(m: Seq<(Seq<char>, u8)>, i: int)
    requires
        0 <= i < m.len(),
        forall|j: int| 0 <= j < i ==> (#[trigger] m[j]).0 != m[i].0,
    ensures
        spec_get_id(m, m[i].0) == m[i].1,
    decreases i,
{
    if i > 0 {
        lemma_get_id_found(m.drop_first(), i - 1);
    }
}

proof fn lemma_get_id_absent(m: Seq<(Seq<char>, u8)>, name: Seq<char>)
    requires
        forall|j: int| 0 <= j < m.len() ==> (#[trigger] m[j]).0 != name,
    ensures
        spec_get_id(m, name) == 0u8,
    decreases m.len(),
{
    if m.len() > 0 {
        lemma_get_id_absent(m.drop_first(), name);
    }
}

proof fn lemma_get_name_found(m: Seq<(Seq<char>, u8)>, i: int)
    requires
        0 <= i < m.len(),
        forall|j: int| 0 <= j < i ==> (#[trigger] m[j]).1 != m[i].1,
    ensures
        spec_get_name(m, m[i].1) == Some(m[i].0),
    decreases i,
{
    if i > 0 {
        lemma_get_name_found(m.drop_first(), i - 1);
    }
}

proof fn lemma_get_name_absent(m: Seq<(Seq<char>, u8)>, id: u8)
    requires
        forall|j: int| 0 <= j < m.len() ==> (#[trigger] m[j]).1 != id,
    ensures
        spec_get_name(m, id) is None,
    decreases m.len(),
{
    if m.len() > 0 {
        lemma_get_name_absent(m.drop_first(), id);
    }
}

/// Byte-for-byte string comparison, proved to decide view equality.
pub fn str_eq(a: &str, b: &str) -> (r: bool)
    ensures
        r == (a@ == b@),
{
    let ab = a.as_bytes();
    let bb = b.as_bytes();
    proof {
        vstd::utf8::encode_utf8_decode_utf8(a@);
        vstd::utf8::encode_utf8_decode_utf8(b@);
    }
    if ab.len() != bb.len() {
        return false;
    }
    let mut i: usize = 0;
    while i < ab.len()
        invariant
            i <= ab@.len(),
            ab@.len() == bb@.len(),
            ab@ == a.spec_bytes(),
            bb@ == b.spec_bytes(),
            forall|j: int| 0 <= j < i ==> ab@[j] == bb@[j],
        decreases ab@.len() - i,
    {
        if *vstd::slice::slice_index_get(ab, i) != *vstd::slice::slice_index_get(bb, i) {
            return false;
        }
        i = i + 1;
    }
    proof {
        assert(ab@ =~= bb@);
    }
    true
}

/// How many cells of a boolean table are set.
pub open spec fn spec_count_true(s: Seq<bool>) -> int
    decreases s.len(),
{
    if s.len() == 0 {
        0
    } else {
        (if s[0] {
            1int
        } else {
            0int
        }) + spec_count_true(s.drop_first())
    }
}

proof fn lemma_count_true_push(s: Seq<bool>, b: bool)
    ensures
        spec_count_true(s.push(b)) == spec_count_true(s) + (if b {
            1int
        } else {
            0int
        }),
    decreases s.len(),
{
    if s.len() == 0 {
        assert(s.push(b)[0] == b);
        assert(s.push(b).drop_first() =~= Seq::<bool>::empty());
        assert(spec_count_true(Seq::<bool>::empty()) == 0);
        assert(spec_count_true(s) == 0);
        assert(spec_count_true(s.push(b)) == (if b {
            1int
        } else {
            0int
        }) + spec_count_true(s.push(b).drop_first()));
    } else {
        assert(s.push(b)[0] == s[0]);
        assert(s.push(b).drop_first() =~= s.drop_first().push(b));
        lemma_count_true_push(s.drop_first(), b);
        assert(spec_count_true(s.push(b)) == (if s[0] {
            1int
        } else {
            0int
        }) + spec_count_true(s.drop_first().push(b)));
    }
}

proof fn lemma_count_true_update(s: Seq<bool>, k: int)
    requires
        0 <= k < s.len(),
    ensures
        spec_count_true(s.update(k, true)) <= spec_count_true(s) + 1,
    decreases s.len(),
{
    if k == 0 {
        assert(s.update(0, true)[0] == true);
        assert(s.update(0, true).drop_first() =~= s.drop_first());
    } else {
        assert(s.update(k, true)[0] == s[0]);
        assert(s.update(k, true).drop_first() =~= s.drop_first().update(k - 1, true));
        lemma_count_true_update(s.drop_first(), k - 1);
    }
}

proof fn lemma_count_true_all(s: Seq<bool>)
    requires
        forall|i: int| 0 <= i < s.len() ==> s[i],
    ensures
        spec_count_true(s) == s.len(),
    decreases s.len(),
{
    if s.len() > 0 {
        assert forall|i: int| 0 <= i < s.drop_first().len() implies s.drop_first()[i] by {
            assert(s.drop_first()[i] == s[i + 1]);
        }
        lemma_count_true_all(s.drop_first());
    }
}

impl FieldRegistry {
    /// A new registry holding exactly the nine reserved entries.
    pub fn new() -> (r: FieldRegistry)
        ensures
            r.wf(),
            r.view_entries().len() == 9,
            r.next_id == 10,
            forall|i: int|
                0 <= i < 9 ==> (#[trigger] r.view_entries()[i]) == (
                    spec_reserved_name(i + 1),
                    (i + 1) as u8,
                ),
    {
        let mut entries: Vec<(String, u8)> = Vec::new();
        entries.push(("timestamp".to_owned(), 1));
        entries.push(("request_id".to_owned(), 2));
        entries.push(("memory_usage_mb".to_owned(), 3));
        entries.push(("cpu_usage_percent".to_owned(), 4));
        entries.push(("duration_ms".to_owned(), 5));
        entries.push(("error".to_owned(), 6));
        entries.push(("function_name".to_owned(), 7));
        entries.push(("function_version".to_owned(), 8));
        entries.push(("region".to_owned(), 9));
        let r = FieldRegistry { entries, next_id: 10 };
        proof {
            reveal_strlit("timestamp");
            reveal_strlit("request_id");
            reveal_strlit("memory_usage_mb");
            reveal_strlit("cpu_usage_percent");
            reveal_strlit("duration_ms");
            reveal_strlit("error");
            reveal_strlit("function_name");
            reveal_strlit("function_version");
            reveal_strlit("region");
            assert forall|i: int| 0 <= i < 9 implies (#[trigger] r.view_entries()[i]) == (
                spec_reserved_name(i + 1),
                (i + 1) as u8,
            ) by {
                lemma_entries_model_index(r.entries@, i);
            }
            lemma_entries_model_len(r.entries@);
            let m = r.view_entries();
            assert(m.len() == 9);
            assert forall|i: int| 0 <= i < m.len() implies encode_utf8(
                (#[trigger] m[i]).0,
            ).len() <= 255 by {
                reveal_strlit("timestamp");
                reveal_strlit("request_id");
                reveal_strlit("memory_usage_mb");
                reveal_strlit("cpu_usage_percent");
                reveal_strlit("duration_ms");
                reveal_strlit("error");
                reveal_strlit("function_name");
                reveal_strlit("function_version");
                reveal_strlit("region");
                assert(m[i].0 == spec_reserved_name(i + 1));
                assert(vstd::utf8::is_ascii_chars(spec_reserved_name(i + 1)));
                vstd::utf8::is_ascii_chars_encode_utf8(spec_reserved_name(i + 1));
            }
            assert(r.wf());
        }
        r
    }

    /// The id registered for `name`, or zero when it is not registered.
    pub fn get_id_for_field(&self, name: &str) -> (r: u8)
        ensures
            r == spec_get_id(self.view_entries(), name@),
    {
        let len = self.entries.len();
        proof {
            lemma_entries_model_len(self.entries@);
        }
        let mut i: usize = 0;
        while i < len
            invariant
                i <= len,
                len == self.entries@.len(),
                self.view_entries().len() == len,
                forall|j: int| 0 <= j < i ==> (#[trigger] self.view_entries()[j]).0 != name@,
            decreases len - i,
        {
            proof {
                lemma_entries_model_index(self.entries@, i as int);
            }
            if str_eq(self.entries[i].0.as_str(), name) {
                proof {
                    lemma_get_id_found(self.view_entries(), i as int);
                }
                return self.entries[i].1;
            }
            i = i + 1;
        }
        proof {
            lemma_get_id_absent(self.view_entries(), name@);
        }
        0
    }

    /// Alias of `get_id_for_field`: a read-only id lookup.
    pub fn get_id(&self, name: &str) -> (r: u8)
        ensures
            r == spec_get_id(self.view_entries(), name@),
    {
        self.get_id_for_field(name)
    }

    /// The name registered under `id`, if any.
    pub fn get_field_for_id(&self, id: u8) -> (r: Option<&String>)
        ensures
            r is Some <==> spec_get_name(self.view_entries(), id) is Some,
            r is Some ==> r.unwrap()@ == spec_get_name(self.view_entries(), id).unwrap(),
    {
        let len = self.entries.len();
        proof {
            lemma_entries_model_len(self.entries@);
        }
        let mut i: usize = 0;
        while i < len
            invariant
                i <= len,
                len == self.entries@.len(),
                self.view_entries().len() == len,
                forall|j: int| 0 <= j < i ==> (#[trigger] self.view_entries()[j]).1 != id,
            decreases len - i,
        {
            proof {
                lemma_entries_model_index(self.entries@, i as int);
            }
            if self.entries[i].1 == id {
                proof {
                    lemma_get_name_found(self.view_entries(), i as int);
                }
                return Some(&self.entries[i].0);
            }
            i = i + 1;
        }
        proof {
            lemma_get_name_absent(self.view_entries(), id);
        }
        None
    }

    /// Whether some entry already uses `id`.
    fn id_in_use(&self, id: u8) -> (r: bool)
        ensures
            r == (spec_get_name(self.view_entries(), id) is Some),
    {
        let len = self.entries.len();
        proof {
            lemma_entries_model_len(self.entries@);
        }
        let mut i: usize = 0;
        while i < len
            invariant
                i <= len,
                len == self.entries@.len(),
                self.view_entries().len() == len,
                forall|j: int| 0 <= j < i ==> (#[trigger] self.view_entries()[j]).1 != id,
            decreases len - i,
        {
            proof {
                lemma_entries_model_index(self.entries@, i as int);
            }
            if self.entries[i].1 == id {
                proof {
                    lemma_get_name_found(self.view_entries(), i as int);
                }
                return true;
            }
            i = i + 1;
        }
        proof {
            lemma_get_name_absent(self.view_entries(), id);
        }
        false
    }

    /// Register `name` if it is new and return its id; an already
    /// registered name keeps its id. Returns zero when all 246 dynamic
    /// ids are taken.
    pub fn register_and_get_id_for_field(&mut self, name: &str) -> (r: u8)
        requires
            old(self).wf(),
            name.spec_bytes().len() <= 255,
        ensures
            final(self).wf(),
            spec_get_id(old(self).view_entries(), name@) != 0 ==> *final(self) == *old(self) && r
                == spec_get_id(old(self).view_entries(), name@),
            r != 0 ==> spec_get_id(final(self).view_entries(), name@) == r,
            r == 0 ==> *final(self) == *old(self),
            // a fresh name always gets a dynamic id while one is free
            old(self).view_entries().len() < 255 && spec_get_id(
                old(self).view_entries(),
                name@,
            ) == 0 ==> r >= 10 && spec_get_name(old(self).view_entries(), r) is None,
            // names registered before keep their ids
            forall|other: Seq<char>|
                #[trigger] spec_get_id(old(self).view_entries(), other) != 0 ==> spec_get_id(
                    final(self).view_entries(),
                    other,
                ) == spec_get_id(old(self).view_entries(), other),
    {
        let existing = self.get_id_for_field(name);
        if existing != 0 {
            proof {
                lemma_get_id_in_entries(self.view_entries(), name@);
            }
            return existing;
        }
        if self.entries.len() >= 256 {
            return 0;
        }
        proof {
            lemma_entries_model_len(self.entries@);
        }
        // the name is absent; find a free dynamic id
        let mut candidate: u8 = self.next_id;
        if candidate < 10 {
            candidate = 10;
        }
        let mut free: Option<u8> = None;
        if !self.id_in_use(candidate) {
            free = Some(candidate);
        } else {
            // mark every dynamic id in use, then scan for a free one;
            // fewer than 246 dynamic entries cannot fill all 246 marks
            let ghost m = self.view_entries();
            let mut used: Vec<bool> = Vec::new();
            let mut z: usize = 0;
            while z < 246
                invariant
                    used@.len() == z,
                    z <= 246,
                    spec_count_true(used@) == 0,
                    forall|d: int| 0 <= d < used@.len() ==> !used@[d],
                decreases 246 - z,
            {
                let ghost used_before = used@;
                used.push(false);
                proof {
                    lemma_count_true_push(used_before, false);
                    assert(used@ =~= used_before.push(false));
                }
                z = z + 1;
            }
            let mut t: usize = 9;
            while t < self.entries.len()
                invariant
                    9 <= t <= self.entries@.len(),
                    m == self.view_entries(),
                    m.len() == self.entries@.len(),
                    self.wf(),
                    used@.len() == 246,
                    spec_count_true(used@) <= t - 9,
                    forall|d: int|
                        0 <= d < 246 ==> (!used@[d] ==> forall|j: int|
                            9 <= j < t ==> (#[trigger] m[j]).1 != (d + 10) as u8),
                decreases self.entries@.len() - t,
            {
                proof {
                    lemma_entries_model_index(self.entries@, t as int);
                    assert(10 <= m[t as int].1);
                }
                let eid = self.entries[t].1;
                let d0 = (eid - 10) as usize;
                let ghost used0 = used@;
                used[d0] = true;
                proof {
                    lemma_count_true_update(used0, d0 as int);
                    assert forall|d: int|
                        0 <= d < 246 && !used@[d] implies forall|j: int|
                        9 <= j < t + 1 ==> (#[trigger] m[j]).1 != (d + 10) as u8 by {
                        assert(!used0[d]);
                        assert forall|j: int| 9 <= j < t + 1 implies (#[trigger] m[j]).1 != (d
                            + 10) as u8 by {
                            if j == t {
                                assert(m[j].1 == eid);
                                assert(d != d0 as int);
                            }
                        }
                    }
                }
                t = t + 1;
            }
            let mut p: usize = 0;
            while p < 246 && free.is_none()
                invariant
                    p <= 246,
                    m == self.view_entries(),
                    m.len() == self.entries@.len(),
                    self.wf(),
                    used@.len() == 246,
                    spec_count_true(used@) <= m.len() - 9,
                    free is None ==> forall|j: int| 0 <= j < p ==> used@[j],
                    forall|d: int|
                        0 <= d < 246 ==> (!used@[d] ==> forall|j: int|
                            9 <= j < m.len() ==> (#[trigger] m[j]).1 != (d + 10) as u8),
                    free matches Some(f) ==> spec_get_name(self.view_entries(), f) is None && f
                        >= 10,
                decreases 246 - p + (if free is None { 1int } else { 0int }),
            {
                if !used[p] {
                    let fid = (p + 10) as u8;
                    proof {
                        assert forall|j: int|
                            0 <= j < m.len() implies (#[trigger] m[j]).1 != fid by {
                            if j < 9 {
                                assert(m[j] == (spec_reserved_name(j + 1), (j + 1) as u8));
                            }
                        }
                        lemma_get_name_absent(m, fid);
                    }
                    free = Some(fid);
                }
                p = p + 1;
            }
            proof {
                if free is None {
                    assert forall|j: int| 0 <= j < used@.len() implies used@[j] by {}
                    lemma_count_true_all(used@);
                    assert(m.len() >= 255);
                }
            }
        }
        match free {
            Some(id) => {
                proof {
                    assert(spec_get_name(self.view_entries(), id) is None);
                    lemma_get_id_absent_from_zero(self.view_entries(), name@);
                }
                let ghost pre = *self;
                let owned = name.to_owned();
                let ghost owned_snapshot = owned;
                self.entries.push((owned, id));
                self.next_id = if id == 255 {
                    10
                } else {
                    id + 1
                };
                proof {
                    lemma_entries_model_push(pre.entries@, (owned_snapshot, id));
                    let m = self.view_entries();
                    let pm = pre.view_entries();
                    assert(m =~= pm.push((name@, id)));
                    lemma_entries_model_len(self.entries@);
                    assert forall|i: int| 0 <= i < 9 implies (#[trigger] m[i]) == (
                        spec_reserved_name(i + 1),
                        (i + 1) as u8,
                    ) by {
                        assert(m[i] == pm[i]);
                    }
                    assert forall|k: int| 0 <= k < pm.len() implies (#[trigger] pm[k]).1 != 0 by {
                        if k < 9 {
                            assert(pm[k] == (spec_reserved_name(k + 1), (k + 1) as u8));
                        }
                    }
                    assert forall|i: int, j: int| 0 <= i < j < m.len() implies (
                    #[trigger] m[i]).0 != (#[trigger] m[j]).0 by {
                        if j == m.len() - 1 {
                            assert(m[j].0 == name@);
                            assert(m[i] == pm[i]);
                            lemma_get_id_nonzero_if_present(pm, i);
                            assert(spec_get_id(pm, pm[i].0) != 0);
                        } else {
                            assert(m[i] == pm[i] && m[j] == pm[j]);
                        }
                    }
                    assert forall|i: int, j: int| 0 <= i < j < m.len() implies (
                    #[trigger] m[i]).1 != (#[trigger] m[j]).1 by {
                        if j == m.len() - 1 {
                            assert(m[i] == pm[i]);
                            lemma_get_name_some_if_present(pm, i);
                            assert(spec_get_name(pm, pm[i].1) is Some);
                        } else {
                            assert(m[i] == pm[i] && m[j] == pm[j]);
                        }
                    }
                    assert(spec_get_name(pm, id) is None);
                    assert(id >= 10);
                    assert forall|i: int| 0 <= i < m.len() implies encode_utf8(
                        (#[trigger] m[i]).0,
                    ).len() <= 255 by {
                        if i < m.len() - 1 {
                            assert(m[i] == pm[i]);
                        } else {
                            assert(m[i].0 == name@);
                        }
                    }
                    assert forall|i: int| 9 <= i < m.len() implies 10 <= (#[trigger] m[i]).1 by {
                        if i < m.len() - 1 {
                            assert(m[i] == pm[i]);
                        }
                    }
                    assert(self.wf());
                    lemma_get_id_found(m, m.len() - 1);
                    assert forall|other: Seq<char>| #[trigger]
                        spec_get_id(pm, other) != 0 implies spec_get_id(m, other)
                        == spec_get_id(pm, other) by {
                        lemma_get_id_push_other(pm, (name@, id), other);
                    }
                }
                id
            },
            None => {
                proof {
                    assert(old(self).view_entries().len() >= 255);
                }
                0
            },
        }
    }

    /// Serialize the registry snapshot: version, count, then each entry
    /// as id, name length, and name bytes.
    #[verifier::loop_isolation(false)]
    pub fn serialize(&self) -> (r: Vec<u8>)
        requires
            self.wf(),
        ensures
            r@ == spec_serialize_registry(self.view_entries()),
    {
        let mut buffer = u32_to_le_bytes(PROTOCOL_FIELD_REGISTRY_VERSION);
        let count = u16_to_le_bytes(self.entries.len() as u16);
        buffer.extend_from_slice(count.as_slice());
        proof {
            lemma_entries_model_len(self.entries@);
        }
        let ghost header = buffer@;
        let ghost m = self.view_entries();
        let mut i: usize = 0;
        while i < self.entries.len()
            invariant
                i <= self.entries@.len(),
                buffer@ == header + spec_serialize_entries(m.take(i as int)),
            decreases self.entries@.len() - i,
        {
            proof {
                lemma_entries_model_index(self.entries@, i as int);
            }
            buffer.push(self.entries[i].1);
            let name_bytes = self.entries[i].0.as_str().as_bytes();
            buffer.push(name_bytes.len() as u8);
            buffer.extend_from_slice(name_bytes);
            proof {
                lemma_serialize_entries_snoc(m, i as int);
                assert(buffer@ =~= header + spec_serialize_entries(m.take(i as int + 1)));
            }
            i = i + 1;
        }
        proof {
            assert(m.take(m.len() as int) =~= m);
            assert(buffer@ =~= spec_serialize_registry(m));
        }
        buffer
    }
}

proof fn lemma_get_id_in_entries(m: Seq<(Seq<char>, u8)>, name: Seq<char>)
    ensures
        spec_get_id(m, name) != 0 ==> exists|i: int|
            0 <= i < m.len() && (#[trigger] m[i]).0 == name && m[i].1 == spec_get_id(m, name),
    decreases m.len(),
{
    if m.len() > 0 && m[0].0 != name {
        lemma_get_id_in_entries(m.drop_first(), name);
        if spec_get_id(m, name) != 0 {
            let i = choose|i: int|
                0 <= i < m.drop_first().len() && (#[trigger] m.drop_first()[i]).0 == name
                    && m.drop_first()[i].1 == spec_get_id(m.drop_first(), name);
            assert(m[i + 1] == m.drop_first()[i]);
        }
    }
}

proof fn lemma_get_id_absent_from_zero(m: Seq<(Seq<char>, u8)>, name: Seq<char>)
    requires
        spec_get_id(m, name) == 0,
        forall|i: int| 0 <= i < m.len() ==> (#[trigger] m[i]).1 != 0,
    ensures
        forall|i: int| 0 <= i < m.len() ==> (#[trigger] m[i]).0 != name,
    decreases m.len(),
{
    if m.len() > 0 {
        lemma_get_id_absent_from_zero(m.drop_first(), name);
        assert forall|i: int| 0 <= i < m.len() implies (#[trigger] m[i]).0 != name by {
            if i > 0 {
                assert(m.drop_first()[i - 1] == m[i]);
            }
        }
    }
}

proof fn lemma_get_id_nonzero_if_present(m: Seq<(Seq<char>, u8)>, i: int)
    requires
        0 <= i < m.len(),
        forall|j: int| 0 <= j < m.len() ==> (#[trigger] m[j]).1 != 0,
        forall|j: int, k: int| 0 <= j < k < m.len() ==> (#[trigger] m[j]).0 != (#[trigger] m[k]).0,
    ensures
        spec_get_id(m, m[i].0) != 0,
{
    lemma_get_id_found_first(m, m[i].0);
}

proof fn lemma_get_id_found_first(m: Seq<(Seq<char>, u8)>, name: Seq<char>)
    requires
        exists|i: int| 0 <= i < m.len() && (#[trigger] m[i]).0 == name,
        forall|j: int| 0 <= j < m.len() ==> (#[trigger] m[j]).1 != 0,
    ensures
        spec_get_id(m, name) != 0,
    decreases m.len(),
{
    if m[0].0 != name {
        let i = choose|i: int| 0 <= i < m.len() && (#[trigger] m[i]).0 == name;
        assert(m.drop_first()[i - 1] == m[i]);
        lemma_get_id_found_first(m.drop_first(), name);
    }
}

proof fn lemma_get_name_some_if_present(m: Seq<(Seq<char>, u8)>, i: int)
    requires
        0 <= i < m.len(),
    ensures
        spec_get_name(m, m[i].1) is Some,
    decreases m.len(),
{
    if m[0].1 != m[i].1 {
        assert(m.drop_first()[i - 1] == m[i]);
        lemma_get_name_some_if_present(m.drop_first(), i - 1);
    }
}

proof fn lemma_get_id_push_other(m: Seq<(Seq<char>, u8)>, e: (Seq<char>, u8), other: Seq<char>)
    requires
        spec_get_id(m, other) != 0,
    ensures
        spec_get_id(m.push(e), other) == spec_get_id(m, other),
    decreases m.len(),
{
    if m.len() == 0 {
    } else {
        assert(m.push(e)[0] == m[0]);
        assert(m.push(e).drop_first() =~= m.drop_first().push(e));
        if m[0].0 != other {
            lemma_get_id_push_other(m.drop_first(), e, other);
        }
    }
}

/// The snapshot layout: version, entry count, then the entries.
pub open spec fn spec_serialize_registry(m: Seq<(Seq<char>, u8)>) -> Seq<u8> {
    spec_u32_to_le_bytes(PROTOCOL_FIELD_REGISTRY_VERSION) + spec_u16_to_le_bytes(m.len() as u16)
        + spec_serialize_entries(m)
}

pub open spec fn spec_serialize_entries(m: Seq<(Seq<char>, u8)>) -> Seq<u8>
    decreases m.len(),
{
    if m.len() == 0 {
        Seq::empty()
    } else {
        seq![m[0].1, encode_utf8(m[0].0).len() as u8] + encode_utf8(m[0].0)
            + spec_serialize_entries(m.drop_first())
    }
}

proof fn lemma_serialize_entries_snoc(m: Seq<(Seq<char>, u8)>, k: int)
    requires
        0 <= k < m.len(),
    ensures
        spec_serialize_entries(m.take(k + 1)) == spec_serialize_entries(m.take(k)) + seq![
            m[k].1,
            encode_utf8(m[k].0).len() as u8,
        ] + encode_utf8(m[k].0),
    decreases k,
{
    let t = m.take(k + 1);
    let head = seq![m[0].1, encode_utf8(m[0].0).len() as u8] + encode_utf8(m[0].0);
    if k == 0 {
        assert(t.drop_first() =~= m.take(0));
        assert(t[0] == m[0]);
        assert(spec_serialize_entries(m.take(0)) =~= Seq::<u8>::empty());
        assert(spec_serialize_entries(t) =~= head);
        assert(spec_serialize_entries(m.take(0)) + seq![m[0].1, encode_utf8(m[0].0).len() as u8]
            + encode_utf8(m[0].0) =~= head);
    } else {
        let d = m.drop_first();
        assert(t.drop_first() =~= d.take(k));
        assert(m.take(k).drop_first() =~= d.take(k - 1));
        lemma_serialize_entries_snoc(d, k - 1);
        assert(d.take(k - 1 + 1) =~= d.take(k));
        assert(d[k - 1] == m[k]);
        assert(t[0] == m[0]);
        assert(head + (spec_serialize_entries(d.take(k - 1)) + seq![
            m[k].1,
            encode_utf8(m[k].0).len() as u8,
        ] + encode_utf8(m[k].0)) =~= ((head + spec_serialize_entries(d.take(k - 1))) + seq![
            m[k].1,
            encode_utf8(m[k].0).len() as u8,
        ]) + encode_utf8(m[k].0));
    }
}

/// Parse `n` snapshot entries (`{id, name_len, name}`) from `data`.
pub open spec fn spec_parse_dict_entries(data: Seq<u8>, n: nat) -> Option<
    (Seq<(Seq<char>, u8)>, int),
>
    decreases n,
{
    if n == 0 {
        Some((Seq::empty(), 0))
    } else if data.len() < 2 {
        None
    } else {
        let id = data[0];
        let nl = data[1] as int;
        if data.len() < 2 + nl {
            None
        } else {
            let bytes = data.subrange(2, 2 + nl);
            if valid_utf8(bytes) {
                match spec_parse_dict_entries(data.skip(2 + nl), (n - 1) as nat) {
                    Some((more, used)) => Some(
                        (seq![(decode_utf8(bytes), id)] + more, 2 + nl + used),
                    ),
                    None => None,
                }
            } else {
                None
            }
        }
    }
}

/// The entries a deserializer keeps: reserved names and reserved ids in
/// the data are skipped, so reserved entries are never overwritten.
pub open spec fn spec_keep(parsed: Seq<(Seq<char>, u8)>) -> Seq<(Seq<char>, u8)>
    decreases parsed.len(),
{
    if parsed.len() == 0 {
        Seq::empty()
    } else if spec_is_reserved_name(parsed[0].0) || parsed[0].1 < 10 {
        spec_keep(parsed.drop_first())
    } else {
        seq![parsed[0]] + spec_keep(parsed.drop_first())
    }
}

/// The nine reserved entries, in id order.
pub open spec fn spec_reserved_entries() -> Seq<(Seq<char>, u8)> {
    Seq::new(9, |i: int| (spec_reserved_name(i + 1), (i + 1) as u8))
}

impl FieldRegistry {
    /// Whether any current entry has this exact name.
    fn name_in_use(&self, name: &str) -> (r: bool)
        ensures
            r == exists|j: int|
                0 <= j < self.view_entries().len() && (#[trigger] self.view_entries()[j]).0
                    == name@,
    {
        let len = self.entries.len();
        proof {
            lemma_entries_model_len(self.entries@);
        }
        let mut i: usize = 0;
        while i < len
            invariant
                i <= len,
                len == self.entries@.len(),
                self.view_entries().len() == len,
                forall|j: int| 0 <= j < i ==> (#[trigger] self.view_entries()[j]).0 != name@,
            decreases len - i,
        {
            proof {
                lemma_entries_model_index(self.entries@, i as int);
            }
            if str_eq(self.entries[i].0.as_str(), name) {
                proof {
                    assert((self.view_entries()[i as int]).0 == name@);
                }
                return true;
            }
            i = i + 1;
        }
        false
    }

    /// Rebuild a registry from a serialized snapshot. The version must
    /// match; reserved names and reserved ids in the data are skipped;
    /// duplicate names or ids are rejected.
    #[verifier::loop_isolation(false)]
    #[verifier::rlimit(60)]
    pub fn deserialize(data: &[u8]) -> (r: Result<FieldRegistry, AgentError>)
        ensures
            r is Ok ==> r.unwrap().wf(),
            data@.len() < 6 ==> r == Err::<FieldRegistry, AgentError>(AgentError::InvalidData),
            data@.len() >= 6 && spec_u32_from_le_bytes(data@.subrange(0, 4))
                != PROTOCOL_FIELD_REGISTRY_VERSION <==> r == Err::<
                FieldRegistry,
                AgentError,
            >(AgentError::VersionMismatch),
            // a well-formed table's own snapshot always deserializes
            // back to that table
            forall|mm: Seq<(Seq<char>, u8)>|
                (spec_registry_model_wf(mm) && data@ == #[trigger] spec_serialize_registry(mm))
                    ==> r is Ok && r.unwrap().view_entries() == mm,
            r is Ok ==> ({
                let count = spec_u16_from_le_bytes(data@.subrange(4, 6)) as nat;
                &&& spec_parse_dict_entries(data@.skip(6), count) is Some
                &&& r.unwrap().view_entries() == spec_reserved_entries() + spec_keep(
                    spec_parse_dict_entries(data@.skip(6), count).unwrap().0,
                )
            }),
    {
        if data.len() < 6 {
            proof {
                assert forall|mm: Seq<(Seq<char>, u8)>|
                    (spec_registry_model_wf(mm) && data@ == #[trigger] spec_serialize_registry(
                        mm,
                    )) implies false by {
                    lemma_registry_image(mm);
                }
            }
            return Err(AgentError::InvalidData);
        }
        let version = u32_from_le_bytes(vstd::slice::slice_subrange(data, 0, 4));
        if version != PROTOCOL_FIELD_REGISTRY_VERSION {
            proof {
                assert forall|mm: Seq<(Seq<char>, u8)>|
                    (spec_registry_model_wf(mm) && data@ == #[trigger] spec_serialize_registry(
                        mm,
                    )) implies false by {
                    lemma_registry_image(mm);
                }
            }
            return Err(AgentError::VersionMismatch);
        }
        let count = u16_from_le_bytes(vstd::slice::slice_subrange(data, 4, 6)) as usize;
        let mut registry = FieldRegistry::new();
        proof {
            lemma_entries_model_len(registry.entries@);
            assert(registry.view_entries() =~= spec_reserved_entries());
        }
        let mut pos: usize = 6;
        let mut k: usize = 0;
        let mut max_dynamic: u8 = 9;
        let ghost full = spec_parse_dict_entries(data@.skip(6), count as nat);
        let ghost mut sofar: Seq<(Seq<char>, u8)> = Seq::empty();
        proof {
            assert(spec_keep(sofar) =~= Seq::<(Seq<char>, u8)>::empty());
            assert(registry.view_entries() =~= spec_reserved_entries() + spec_keep(sofar));
            assert(data@.skip(6).skip(0) =~= data@.skip(6));
        }
        while k < count
            invariant
                k <= count,
                6 <= pos <= data@.len(),
                registry.wf(),
                max_dynamic >= 9,
                registry.next_id == 10,
                sofar.len() == k,
                registry.view_entries() == spec_reserved_entries() + spec_keep(sofar),
                full == (match spec_parse_dict_entries(
                    data@.skip(pos as int),
                    (count - k) as nat,
                ) {
                    Some((more, used)) => Some((sofar + more, pos - 6 + used)),
                    None => None::<(Seq<(Seq<char>, u8)>, int)>,
                }),
            decreases count - k,
        {
            if data.len() - pos < 2 {
                proof {
                assert forall|mm: Seq<(Seq<char>, u8)>|
                    (spec_registry_model_wf(mm) && data@ == #[trigger] spec_serialize_registry(
                        mm,
                    )) implies false by {
                    lemma_registry_image(mm);
                        assert(count as int == mm.len());
                        assert(spec_parse_dict_entries(data@.skip(pos as int), (count - k) as nat)
                            is None);
                    }
                }
                return Err(AgentError::InvalidData);
            }
            let id = *vstd::slice::slice_index_get(data, pos);
            let nl = *vstd::slice::slice_index_get(data, pos + 1) as usize;
            proof {
                let rem = data@.skip(pos as int);
                assert(rem[0] == data@[pos as int]);
                assert(rem[1] == data@[pos as int + 1]);
            }
            if data.len() - pos - 2 < nl {
                proof {
                    let rem = data@.skip(pos as int);
                    assert(rem.len() < 2 + rem[1] as int);
                    assert forall|mm: Seq<(Seq<char>, u8)>|
                        (spec_registry_model_wf(mm) && data@ == #[trigger] spec_serialize_registry(
                            mm,
                        )) implies false by {
                        lemma_registry_image(mm);
                        assert(count as int == mm.len());
                        assert(spec_parse_dict_entries(rem, (count - k) as nat) is None);
                    }
                }
                return Err(AgentError::InvalidData);
            }
            let name_bytes = vstd::slice::slice_subrange(data, pos + 2, pos + 2 + nl);
            proof {
                let rem = data@.skip(pos as int);
                assert(name_bytes@ =~= rem.subrange(2, 2 + rem[1] as int));
            }
            match core::str::from_utf8(name_bytes) {
                Ok(name) => {
                    let ghost e = (name@, id);
                    let ghost c = 2 + nl as int;
                    proof {
                        vstd::utf8::encode_utf8_decode_utf8(name@);
                        let rem = data@.skip(pos as int);
                        assert(rem.skip(2 + rem[1] as int) =~= data@.skip(pos as int + c));
                        // the single entry at `pos` parses as `e`
                        assert(rem.skip(c).skip(0) =~= rem.skip(c));
                        assert(spec_parse_dict_entries(rem.skip(c), 0) == Some(
                            (Seq::<(Seq<char>, u8)>::empty(), 0int),
                        ));
                        assert(seq![e] + Seq::<(Seq<char>, u8)>::empty() =~= seq![e]);
                        assert(spec_parse_dict_entries(rem, 1) == Some((seq![e], c)));
                    }
                    let is_reserved = registry.is_reserved_name(name);
                    if !is_reserved && id >= 10 {
                        if registry.name_in_use(name) {
                            proof {
                                assert forall|mm: Seq<(Seq<char>, u8)>|
                                    (spec_registry_model_wf(mm) && data@
                                        == #[trigger] spec_serialize_registry(
                                        mm,
                                    )) implies false by {
                                lemma_registry_image(mm);
                                assert(count as int == mm.len());
                                lemma_snapshot_prefix(
                                    data@,
                                    mm,
                                    count as nat,
                                    k as nat,
                                    pos as int,
                                    sofar,
                                    e,
                                    c,
                                    registry.view_entries(),
                                );
                                    if (k as int) < 9 {
                                        assert(mm[k as int].0 == spec_reserved_name(
                                            k as int + 1,
                                        ));
                                        assert(spec_is_reserved_name(e.0));
                                    }
                                    let view = registry.view_entries();
                                    let j = choose|j: int|
                                        0 <= j < view.len() && (#[trigger] view[j]).0 == name@;
                                    assert(view[j] == mm.take(k as int)[j]);
                                    assert(mm[j].0 == mm[k as int].0);
                                }
                            }
                            return Err(AgentError::InvalidData);
                        }
                        if registry.id_in_use(id) {
                            proof {
                                assert forall|mm: Seq<(Seq<char>, u8)>|
                                    (spec_registry_model_wf(mm) && data@
                                        == #[trigger] spec_serialize_registry(
                                        mm,
                                    )) implies false by {
                                lemma_registry_image(mm);
                                assert(count as int == mm.len());
                                lemma_snapshot_prefix(
                                    data@,
                                    mm,
                                    count as nat,
                                    k as nat,
                                    pos as int,
                                    sofar,
                                    e,
                                    c,
                                    registry.view_entries(),
                                );
                                    if (k as int) < 9 {
                                        assert(mm[k as int].0 == spec_reserved_name(
                                            k as int + 1,
                                        ));
                                        assert(spec_is_reserved_name(e.0));
                                    }
                                    let view = registry.view_entries();
                                    lemma_get_name_exists(view, id);
                                    let j = choose|j: int|
                                        0 <= j < view.len() && (#[trigger] view[j]).1 == id;
                                    assert(view[j] == mm.take(k as int)[j]);
                                    assert(mm[j].1 == mm[k as int].1);
                                }
                            }
                            return Err(AgentError::InvalidData);
                        }
                        if registry.entries.len() >= 256 {
                            proof {
                                assert forall|mm: Seq<(Seq<char>, u8)>|
                                    (spec_registry_model_wf(mm) && data@
                                        == #[trigger] spec_serialize_registry(
                                        mm,
                                    )) implies false by {
                                lemma_registry_image(mm);
                                assert(count as int == mm.len());
                                lemma_snapshot_prefix(
                                    data@,
                                    mm,
                                    count as nat,
                                    k as nat,
                                    pos as int,
                                    sofar,
                                    e,
                                    c,
                                    registry.view_entries(),
                                );
                                    assert(registry.view_entries().len()
                                        == registry.entries@.len());
                                    assert((k as int) < mm.len() && mm.len() <= 256);
                                }
                            }
                            return Err(AgentError::InvalidData);
                        }
                        let ghost pre = registry;
                        let owned = name.to_owned();
                        let ghost owned_snapshot = owned;
                        registry.entries.push((owned, id));
                        if id > max_dynamic {
                            max_dynamic = id;
                        }
                        proof {
                            lemma_entries_model_push(pre.entries@, (owned_snapshot, id));
                            lemma_entries_model_len(registry.entries@);
                            let m = registry.view_entries();
                            let pm = pre.view_entries();
                            assert(m =~= pm.push((name@, id)));
                            assert forall|i: int| 0 <= i < 9 implies (#[trigger] m[i]) == (
                                spec_reserved_name(i + 1),
                                (i + 1) as u8,
                            ) by {
                                assert(m[i] == pm[i]);
                            }
                            assert forall|i: int, j: int| 0 <= i < j < m.len() implies (
                            #[trigger] m[i]).0 != (#[trigger] m[j]).0 by {
                                if j == m.len() - 1 {
                                    assert(m[i] == pm[i]);
                                } else {
                                    assert(m[i] == pm[i] && m[j] == pm[j]);
                                }
                            }
                            assert forall|i: int, j: int| 0 <= i < j < m.len() implies (
                            #[trigger] m[i]).1 != (#[trigger] m[j]).1 by {
                                if j == m.len() - 1 {
                                    assert(m[i] == pm[i]);
                                    lemma_get_name_some_if_present(pm, i);
                                } else {
                                    assert(m[i] == pm[i] && m[j] == pm[j]);
                                }
                            }
                            assert forall|i: int| 0 <= i < m.len() implies encode_utf8(
                                (#[trigger] m[i]).0,
                            ).len() <= 255 by {
                                if i < m.len() - 1 {
                                    assert(m[i] == pm[i]);
                                } else {
                                    assert(m[i].0 == name@);
                                    assert(encode_utf8(name@) =~= name_bytes@);
                                }
                            }
                            assert(m[m.len() - 1] == (name@, id));
                            assert forall|i: int| 9 <= i < m.len() implies 10 <= (
                            #[trigger] m[i]).1 by {
                                if i < m.len() - 1 {
                                    assert(m[i] == pm[i]);
                                } else {
                                    assert(m[i].1 == id);
                                }
                            }
                            assert(registry.wf());
                        }
                    } else {
                        if registry.entries.len() >= 256 {
                            proof {
                                assert forall|mm: Seq<(Seq<char>, u8)>|
                                    (spec_registry_model_wf(mm) && data@
                                        == #[trigger] spec_serialize_registry(
                                        mm,
                                    )) implies false by {
                                lemma_registry_image(mm);
                                assert(count as int == mm.len());
                                lemma_snapshot_prefix(
                                    data@,
                                    mm,
                                    count as nat,
                                    k as nat,
                                    pos as int,
                                    sofar,
                                    e,
                                    c,
                                    registry.view_entries(),
                                );
                                    assert(registry.view_entries().len()
                                        == registry.entries@.len());
                                    assert((k as int) < mm.len() && mm.len() <= 256);
                                }
                            }
                            return Err(AgentError::InvalidData);
                        }
                    }
                    proof {
                        let sofar0 = sofar;
                        lemma_keep_push(sofar0, e);
                        sofar = sofar0.push(e);
                        // registry model matches the kept entries
                        if !(spec_is_reserved_name(e.0) || e.1 < 10) {
                            assert(spec_reserved_entries() + spec_keep(sofar0.push(e))
                                =~= (spec_reserved_entries() + spec_keep(sofar0)).push(e));
                        }
                        // recompose the full parse around the new offset
                        let rem = data@.skip(pos as int);
                        assert(rem.skip(c) =~= data@.skip(pos as int + c));
                        lemma_parse_dict_step(rem, (count - k) as nat, e, c);
                        assert forall|more: Seq<(Seq<char>, u8)>| true implies sofar0 + (seq![e]
                            + more) =~= sofar0.push(e) + more by {}
                    }
                    pos = pos + 2 + nl;
                    k = k + 1;
                },
                Err(_) => {
                    proof {
                        let rem = data@.skip(pos as int);
                    assert forall|mm: Seq<(Seq<char>, u8)>|
                        (spec_registry_model_wf(mm) && data@ == #[trigger] spec_serialize_registry(
                            mm,
                        )) implies false by {
                        lemma_registry_image(mm);
                        assert(count as int == mm.len());
                            assert(!valid_utf8(rem.subrange(2, 2 + rem[1] as int)));
                            assert(spec_parse_dict_entries(rem, (count - k) as nat) is None);
                        }
                    }
                    return Err(AgentError::InvalidData);
                },
            }
        }
        registry.next_id = if max_dynamic == 255 {
            10
        } else {
            max_dynamic + 1
        };
        proof {
            assert(spec_parse_dict_entries(data@.skip(pos as int), 0) == Some(
                (Seq::<(Seq<char>, u8)>::empty(), 0int),
            ));
            assert(sofar + Seq::<(Seq<char>, u8)>::empty() =~= sofar);
            assert(registry.wf());
            assert forall|mm: Seq<(Seq<char>, u8)>|
                (spec_registry_model_wf(mm) && data@ == #[trigger] spec_serialize_registry(
                    mm,
                )) implies registry.view_entries() == mm by {
                lemma_registry_image(mm);
                assert(count as int == mm.len());
                assert(sofar == mm);
                assert(registry.view_entries() == spec_reserved_entries() + spec_keep(mm));
            }
        }
        Ok(registry)
    }

    /// Whether a name is one of the nine canonical reserved names.
    pub fn is_reserved_name(&self, name: &str) -> (r: bool)
        ensures
            r == spec_is_reserved_name(name@),
    {
        proof {
            reveal_strlit("timestamp");
            reveal_strlit("request_id");
            reveal_strlit("memory_usage_mb");
            reveal_strlit("cpu_usage_percent");
            reveal_strlit("duration_ms");
            reveal_strlit("error");
            reveal_strlit("function_name");
            reveal_strlit("function_version");
            reveal_strlit("region");
        }
        let r = str_eq(name, "timestamp") || str_eq(name, "request_id") || str_eq(
            name,
            "memory_usage_mb",
        ) || str_eq(name, "cpu_usage_percent") || str_eq(name, "duration_ms") || str_eq(
            name,
            "error",
        ) || str_eq(name, "function_name") || str_eq(name, "function_version") || str_eq(
            name,
            "region",
        );
        proof {
            if r {
                assert(spec_is_reserved_name(name@)) by {
                    if name@ == "timestamp"@ {
                        assert(spec_reserved_name(1) == name@);
                    } else if name@ == "request_id"@ {
                        assert(spec_reserved_name(2) == name@);
                    } else if name@ == "memory_usage_mb"@ {
                        assert(spec_reserved_name(3) == name@);
                    } else if name@ == "cpu_usage_percent"@ {
                        assert(spec_reserved_name(4) == name@);
                    } else if name@ == "duration_ms"@ {
                        assert(spec_reserved_name(5) == name@);
                    } else if name@ == "error"@ {
                        assert(spec_reserved_name(6) == name@);
                    } else if name@ == "function_name"@ {
                        assert(spec_reserved_name(7) == name@);
                    } else if name@ == "function_version"@ {
                        assert(spec_reserved_name(8) == name@);
                    } else {
                        assert(spec_reserved_name(9) == name@);
                    }
                }
            } else {
                if spec_is_reserved_name(name@) {
                    let i = choose|i: int| 1 <= i <= 9 && spec_reserved_name(i) == name@;
                    assert(false);
                }
            }
        }
        r
    }
}

/// Mid-parse of a table's own snapshot: what has been read so far is
/// a prefix of the table, the entry at hand is the next one, and the
/// registry under construction mirrors that prefix.
proof fn lemma_snapshot_prefix(
    data: Seq<u8>,
    mm: Seq<(Seq<char>, u8)>,
    count: nat,
    k: nat,
    pos: int,
    sofar: Seq<(Seq<char>, u8)>,
    e: (Seq<char>, u8),
    c: int,
    view: Seq<(Seq<char>, u8)>,
)
    requires
        spec_registry_model_wf(mm),
        data == spec_serialize_registry(mm),
        count == mm.len(),
        k < count,
        sofar.len() == k,
        6 <= pos <= data.len(),
        spec_parse_dict_entries(data.skip(6), count) == (match spec_parse_dict_entries(
            data.skip(pos),
            (count - k) as nat,
        ) {
            Some((more, used)) => Some((sofar + more, pos - 6 + used)),
            None => None::<(Seq<(Seq<char>, u8)>, int)>,
        }),
        spec_parse_dict_entries(data.skip(pos), 1) == Some((seq![e], c)),
        0 < c <= data.len() - pos,
        view == spec_reserved_entries() + spec_keep(sofar),
    ensures
        sofar == mm.take(k as int),
        mm[k as int] == e,
        k >= 9 ==> view == mm.take(k as int),
        k < 9 ==> view == spec_reserved_entries(),
{
    lemma_registry_image(mm);
    let rem = data.skip(pos);
    lemma_parse_dict_step(rem, (count - k) as nat, e, c);
    match spec_parse_dict_entries(rem.subrange(c, rem.len() as int), (count - k - 1) as nat) {
        Some((more2, used2)) => {
            assert(rem.skip(c) =~= rem.subrange(c, rem.len() as int));
            assert(mm == sofar + (seq![e] + more2));
            assert(sofar =~= mm.take(k as int));
            assert(mm[k as int] == (sofar + (seq![e] + more2))[k as int]);
        },
        None => {
            assert(rem.skip(c) =~= rem.subrange(c, rem.len() as int));
            assert(spec_parse_dict_entries(data.skip(6), count) is None);
        },
    }
    lemma_keep_is_dynamic_tail(mm, k as int);
    if k >= 9 {
        assert(view =~= mm.take(k as int));
    } else {
        assert(spec_keep(mm.take(k as int)) =~= Seq::<(Seq<char>, u8)>::empty());
        assert(view =~= spec_reserved_entries());
    }
}

/// Unfolding one entry off the front of an `n`-entry parse.
proof fn lemma_parse_dict_step(data: Seq<u8>, n: nat, e: (Seq<char>, u8), c: int)
    requires
        n >= 1,
        spec_parse_dict_entries(data, 1) == Some((seq![e], c)),
        0 < c <= data.len(),
    ensures
        spec_parse_dict_entries(data, n) == (match spec_parse_dict_entries(
            data.skip(c),
            (n - 1) as nat,
        ) {
            Some((more, used)) => Some((seq![e] + more, c + used)),
            None => None::<(Seq<(Seq<char>, u8)>, int)>,
        }),
{
    let id0 = data[0];
    let nl0 = data[1] as int;
    let bytes0 = data.subrange(2, 2 + nl0);
    assert(data.len() >= 2 && data.len() >= 2 + nl0 && valid_utf8(bytes0));
    assert((decode_utf8(bytes0), id0) == e && 2 + nl0 == c) by {
        assert(spec_parse_dict_entries(data.skip(2 + nl0), 0) == Some(
            (Seq::<(Seq<char>, u8)>::empty(), 0int),
        ));
        assert(seq![(decode_utf8(bytes0), id0)] + Seq::<(Seq<char>, u8)>::empty() =~= seq![
            (decode_utf8(bytes0), id0),
        ]);
        assert(seq![(decode_utf8(bytes0), id0)] =~= seq![e]);
        assert(seq![(decode_utf8(bytes0), id0)][0] == seq![e][0]);
    }
}

/// How the kept entries grow when one parsed entry is appended.
proof fn lemma_keep_push(s: Seq<(Seq<char>, u8)>, e: (Seq<char>, u8))
    ensures
        spec_keep(s.push(e)) == (if spec_is_reserved_name(e.0) || e.1 < 10 {
            spec_keep(s)
        } else {
            spec_keep(s).push(e)
        }),
    decreases s.len(),
{
    if s.len() == 0 {
        assert(s.push(e)[0] == e);
        assert(s.push(e).drop_first() =~= Seq::<(Seq<char>, u8)>::empty());
        assert(spec_keep(Seq::<(Seq<char>, u8)>::empty()) =~= Seq::<(Seq<char>, u8)>::empty());
        assert(spec_keep(s) =~= Seq::<(Seq<char>, u8)>::empty());
        if !(spec_is_reserved_name(e.0) || e.1 < 10) {
            assert(spec_keep(s.push(e)) =~= seq![e] + spec_keep(s.push(e).drop_first()));
            assert(seq![e] + Seq::<(Seq<char>, u8)>::empty() =~= seq![e]);
            assert(spec_keep(s).push(e) =~= seq![e]);
            assert(spec_keep(s.push(e)) =~= spec_keep(s).push(e));
        } else {
            assert(spec_keep(s.push(e)) =~= spec_keep(s));
        }
    } else {
        assert(s.push(e)[0] == s[0]);
        assert(s.push(e).drop_first() =~= s.drop_first().push(e));
        lemma_keep_push(s.drop_first(), e);
        if !(spec_is_reserved_name(e.0) || e.1 < 10) {
            if spec_is_reserved_name(s[0].0) || s[0].1 < 10 {
            } else {
                assert(seq![s[0]] + spec_keep(s.drop_first()).push(e) =~= (seq![s[0]] + spec_keep(
                    s.drop_first(),
                )).push(e));
            }
        }
    }
}

proof fn lemma_serialize_entries_parse(m: Seq<(Seq<char>, u8)>, rest: Seq<u8>)
    requires
        forall|i: int| 0 <= i < m.len() ==> encode_utf8((#[trigger] m[i]).0).len() <= 255,
    ensures
        spec_parse_dict_entries(spec_serialize_entries(m) + rest, m.len() as nat) == Some(
            (m, spec_serialize_entries(m).len() as int),
        ),
    decreases m.len(),
{
    if m.len() == 0 {
        assert(spec_serialize_entries(m) + rest =~= rest);
        assert(m =~= Seq::<(Seq<char>, u8)>::empty());
    } else {
        let head = m[0];
        let tail = m.drop_first();
        let bytes = encode_utf8(head.0);
        let e_head = seq![head.1, bytes.len() as u8] + bytes;
        let e_tail = spec_serialize_entries(tail);
        let data = spec_serialize_entries(m) + rest;
        assert(data =~= e_head + (e_tail + rest));
        assert(data[0] == head.1);
        assert(data[1] == bytes.len() as u8);
        assert(data[1] as int == bytes.len());
        assert(data.subrange(2, 2 + bytes.len() as int) =~= bytes);
        vstd::utf8::encode_utf8_valid_utf8(head.0);
        vstd::utf8::encode_utf8_decode_utf8(head.0);
        assert(data.skip(2 + bytes.len() as int) =~= e_tail + rest);
        lemma_serialize_entries_parse(tail, rest);
        assert(seq![head] + tail =~= m);
        assert(spec_serialize_entries(m).len() == e_head.len() + e_tail.len());
    }
}

proof fn lemma_keep_all(s: Seq<(Seq<char>, u8)>)
    requires
        forall|j: int|
            0 <= j < s.len() ==> !spec_is_reserved_name((#[trigger] s[j]).0) && s[j].1 >= 10,
    ensures
        spec_keep(s) == s,
    decreases s.len(),
{
    if s.len() > 0 {
        lemma_keep_all(s.drop_first());
        assert(seq![s[0]] + s.drop_first() =~= s);
    }
}

proof fn lemma_keep_skips_reserved_head(m: Seq<(Seq<char>, u8)>, k: int)
    requires
        0 <= k <= 9,
        m.len() >= 9,
        forall|i: int| 0 <= i < 9 ==> (#[trigger] m[i]) == (spec_reserved_name(i + 1), (i
            + 1) as u8),
    ensures
        spec_keep(m.skip(k)) == spec_keep(m.skip(9)),
    decreases 9 - k,
{
    if k < 9 {
        let t = m.skip(k);
        assert(t[0] == m[k]);
        assert(spec_is_reserved_name(m[k].0)) by {
            assert(spec_reserved_name(k + 1) == m[k].0);
        }
        assert(t.drop_first() =~= m.skip(k + 1));
        lemma_keep_skips_reserved_head(m, k + 1);
    }
}

/// What a well-formed table's snapshot bytes look like, read back
/// field by field: the version and count are in place, the entries
/// parse to the same table, and the kept entries are exactly the
/// dynamic tail.
pub proof fn lemma_registry_image(m: Seq<(Seq<char>, u8)>)
    requires
        spec_registry_model_wf(m),
    ensures
        ({
            let bytes = spec_serialize_registry(m);
            &&& bytes.len() >= 6
            &&& spec_u32_from_le_bytes(bytes.subrange(0, 4)) == PROTOCOL_FIELD_REGISTRY_VERSION
            &&& spec_u16_from_le_bytes(bytes.subrange(4, 6)) as int == m.len()
            &&& spec_parse_dict_entries(bytes.skip(6), m.len() as nat) == Some(
                (m, bytes.len() - 6),
            )
            &&& spec_reserved_entries() + spec_keep(m) == m
        }),
{
    let bytes = spec_serialize_registry(m);
    lemma_auto_spec_u32_to_from_le_bytes();
    lemma_auto_spec_u16_to_from_le_bytes();
    assert(bytes.subrange(0, 4) =~= spec_u32_to_le_bytes(PROTOCOL_FIELD_REGISTRY_VERSION));
    assert(bytes.subrange(4, 6) =~= spec_u16_to_le_bytes(m.len() as u16));
    assert(bytes.skip(6) =~= spec_serialize_entries(m) + Seq::<u8>::empty());
    lemma_serialize_entries_parse(m, Seq::empty());
    assert(bytes.len() - 6 == spec_serialize_entries(m).len());
    lemma_keep_is_dynamic_tail(m, m.len() as int);
    assert(spec_reserved_entries() + m.skip(9) =~= m);
    assert(m.take(m.len() as int) =~= m);
}

/// Under the table invariant, the kept entries of a prefix are its
/// dynamic tail: the reserved head is skipped whole and nothing else is.
proof fn lemma_keep_is_dynamic_tail(m: Seq<(Seq<char>, u8)>, k: int)
    requires
        spec_registry_model_wf(m),
        0 <= k <= m.len(),
    ensures
        k <= 9 ==> spec_keep(m.take(k)) == Seq::<(Seq<char>, u8)>::empty(),
        k > 9 ==> spec_keep(m.take(k)) == m.take(k).skip(9),
{
    let t = m.take(k);
    if k <= 9 {
        assert forall|j: int| 0 <= j < t.len() implies spec_is_reserved_name(
            (#[trigger] t[j]).0,
        ) by {
            assert(t[j] == m[j]);
            assert(spec_reserved_name(j + 1) == m[j].0);
        }
        lemma_keep_all_reserved(t);
    } else {
        assert forall|i: int| 0 <= i < 9 implies (#[trigger] t[i]) == (
            spec_reserved_name(i + 1),
            (i + 1) as u8,
        ) by {
            assert(t[i] == m[i]);
        }
        assert(t.skip(0) =~= t);
        lemma_keep_skips_reserved_head(t, 0);
        let dynamic = t.skip(9);
        assert forall|j: int|
            0 <= j < dynamic.len() implies !spec_is_reserved_name((#[trigger] dynamic[j]).0)
            && dynamic[j].1 >= 10 by {
            assert(dynamic[j] == m[j + 9]);
            if spec_is_reserved_name(dynamic[j].0) {
                let rid = choose|rid: int| 1 <= rid <= 9 && spec_reserved_name(rid)
                    == dynamic[j].0;
                assert(m[rid - 1].0 == spec_reserved_name(rid));
                assert(m[rid - 1].0 == m[j + 9].0);
            }
        }
        lemma_keep_all(dynamic);
    }
}

/// A table of reserved-named entries keeps nothing.
proof fn lemma_keep_all_reserved(s: Seq<(Seq<char>, u8)>)
    requires
        forall|j: int| 0 <= j < s.len() ==> spec_is_reserved_name((#[trigger] s[j]).0),
    ensures
        spec_keep(s) == Seq::<(Seq<char>, u8)>::empty(),
    decreases s.len(),
{
    if s.len() > 0 {
        assert forall|j: int|
            0 <= j < s.drop_first().len() implies spec_is_reserved_name(
            (#[trigger] s.drop_first()[j]).0,
        ) by {
            assert(s.drop_first()[j] == s[j + 1]);
        }
        lemma_keep_all_reserved(s.drop_first());
    }
}

/// A name an id lookup finds sits at some entry.
proof fn lemma_get_name_exists(m: Seq<(Seq<char>, u8)>, id: u8)
    requires
        spec_get_name(m, id) is Some,
    ensures
        exists|j: int| 0 <= j < m.len() && (#[trigger] m[j]).1 == id,
    decreases m.len(),
{
    if m.len() > 0 && m[0].1 != id {
        lemma_get_name_exists(m.drop_first(), id);
        let j = choose|j: int|
            0 <= j < m.drop_first().len() && (#[trigger] m.drop_first()[j]).1 == id;
        assert(m[j + 1] == m.drop_first()[j]);
    }
}

/// Law: a well-formed registry's snapshot deserializes to the same
/// name/id table, so `get_id` answers match before and after the round
/// trip for every name.
pub proof fn lemma_dictionary_round_trip(d: FieldRegistry)
    requires
        d.wf(),
    ensures
        ({
            let bytes = spec_serialize_registry(d.view_entries());
            let count = spec_u16_from_le_bytes(bytes.subrange(4, 6)) as nat;
            &&& bytes.len() >= 6
            &&& spec_u32_from_le_bytes(bytes.subrange(0, 4)) == PROTOCOL_FIELD_REGISTRY_VERSION
            &&& count == d.view_entries().len()
            &&& spec_parse_dict_entries(bytes.skip(6), count) == Some(
                (d.view_entries(), bytes.len() - 6),
            )
            &&& spec_reserved_entries() + spec_keep(d.view_entries()) == d.view_entries()
        }),
{
    lemma_registry_image(d.view_entries());
}

impl FieldRegistry {
    /// A schema naming every registered field with the open type.
    pub fn create_schema(&self) -> (r: Schema)
        ensures
            r.fields@.len() == self.entries@.len(),
            r.required_fields@.len() == 0,
    {
        proof {
            reveal_strlit("any");
        }
        let mut fields: Vec<(String, String)> = Vec::new();
        let mut i: usize = 0;
        while i < self.entries.len()
            invariant
                i <= self.entries@.len(),
                fields@.len() == i,
            decreases self.entries@.len() - i,
        {
            fields.push((self.entries[i].0.clone(), "any".to_owned()));
            i = i + 1;
        }
        Schema { fields, required_fields: Vec::new() }
    }
}

/// The expected fields of a payload and which of them must be present.
pub struct Schema {
    /// Field name to expected kind name; `any` admits every kind.
    pub fields: Vec<(String, String)>,
    /// Names that must be present.
    pub required_fields: Vec<String>,
}

/// The kind name of a value, as schemas spell it.
pub open spec fn spec_kind_name(v: crate::value::ValueModel) -> Seq<char> {
    match v {
        crate::value::ValueModel::Null => "null"@,
        crate::value::ValueModel::Bool(_) => "boolean"@,
        crate::value::ValueModel::Int(_) => "number"@,
        crate::value::ValueModel::F32Bits(_) => "number"@,
        crate::value::ValueModel::F64Bits(_) => "number"@,
        crate::value::ValueModel::Str(_) => "string"@,
        crate::value::ValueModel::Binary(_) => "binary"@,
        crate::value::ValueModel::Timestamp(_, _) => "timestamp"@,
        crate::value::ValueModel::List(_) => "array"@,
        crate::value::ValueModel::Mapping(_) => "object"@,
    }
}

/// Whether a mapping's entries hold a key.
pub open spec fn spec_has_key(
    entries: Seq<(Seq<char>, crate::value::ValueModel)>,
    key: Seq<char>,
) -> bool {
    exists|i: int| 0 <= i < entries.len() && (#[trigger] entries[i]).0 == key
}

/// The first value a mapping stores under a key, if any.
pub open spec fn spec_map_get(
    entries: Seq<(Seq<char>, crate::value::ValueModel)>,
    key: Seq<char>,
) -> Option<crate::value::ValueModel>
    decreases entries.len(),
{
    if entries.len() == 0 {
        None
    } else if entries[0].0 == key {
        Some(entries[0].1)
    } else {
        spec_map_get(entries.drop_first(), key)
    }
}

proof fn lemma_map_get_found(
    entries: Seq<(Seq<char>, crate::value::ValueModel)>,
    i: int,
)
    requires
        0 <= i < entries.len(),
        forall|j: int| 0 <= j < i ==> (#[trigger] entries[j]).0 != entries[i].0,
    ensures
        spec_map_get(entries, entries[i].0) == Some(entries[i].1),
    decreases i,
{
    if i > 0 {
        lemma_map_get_found(entries.drop_first(), i - 1);
    }
}

proof fn lemma_map_get_absent(
    entries: Seq<(Seq<char>, crate::value::ValueModel)>,
    key: Seq<char>,
)
    requires
        forall|j: int| 0 <= j < entries.len() ==> (#[trigger] entries[j]).0 != key,
    ensures
        spec_map_get(entries, key) is None,
    decreases entries.len(),
{
    if entries.len() > 0 {
        lemma_map_get_absent(entries.drop_first(), key);
    }
}

/// One schema field checks out against a payload: its kind is open, or
/// its key is absent, or the stored value has the declared kind.
pub open spec fn spec_field_ok(
    dm: Seq<(Seq<char>, crate::value::ValueModel)>,
    name: Seq<char>,
    kind: Seq<char>,
) -> bool {
    kind == "any"@ || (match spec_map_get(dm, name) {
        Some(v) => spec_kind_name(v) == kind,
        None => true,
    })
}

use crate::collectors::{lemma_settings_model_index, lemma_settings_model_len, settings_model};

/// A payload map satisfies a schema: every required key is present and
/// every declared field checks out.
pub open spec fn spec_schema_ok(
    fields: Seq<(Seq<char>, Seq<char>)>,
    required: Seq<String>,
    dm: Seq<(Seq<char>, crate::value::ValueModel)>,
) -> bool {
    &&& forall|i: int| 0 <= i < required.len() ==> spec_has_key(dm, (#[trigger] required[i])@)
    &&& forall|i: int|
        0 <= i < fields.len() ==> spec_field_ok(dm, (#[trigger] fields[i]).0, fields[i].1)
}

impl Schema {
    /// An empty schema.
    pub fn new() -> (r: Schema)
        ensures
            r.fields@.len() == 0,
            r.required_fields@.len() == 0,
    {
        Schema { fields: Vec::new(), required_fields: Vec::new() }
    }

    /// Add one field, marking it required when asked.
    pub fn add_field(&mut self, name: String, field_type: String, required: bool)
        ensures
            final(self).fields@ == old(self).fields@.push((name, field_type)),
            required ==> final(self).required_fields@.len() == old(
                self,
            ).required_fields@.len() + 1,
            !required ==> final(self).required_fields@ == old(self).required_fields@,
    {
        let required_name = if required {
            Some(name.clone())
        } else {
            None
        };
        self.fields.push((name, field_type));
        match required_name {
            Some(n) => {
                self.required_fields.push(n);
            },
            None => {},
        }
    }

    /// Check a payload: it must be a map, every required field must be
    /// present, and a present field with a declared kind other than
    /// `any` must carry a value of that kind. Succeeds exactly when
    /// all of that holds.
    #[verifier::loop_isolation(false)]
    pub fn validate(&self, data: &crate::value::Value) -> (r: Result<(), crate::errors::AgentError>)
        ensures
            !(data@ is Mapping) ==> r == Err::<(), crate::errors::AgentError>(
                crate::errors::AgentError::InvalidData,
            ),
            data@ matches crate::value::ValueModel::Mapping(dm) ==> (r is Ok <==> spec_schema_ok(
                settings_model(self.fields@),
                self.required_fields@,
                dm,
            )),
    {
        proof {
            reveal_strlit("any");
            lemma_settings_model_len(self.fields@);
        }
        let entries: &Vec<(String, crate::value::Value)> = match data {
            crate::value::Value::Mapping(entries) => {
                proof {
                    assert(data@ is Mapping);
                }
                entries
            },
            _ => {
                proof {
                    assert(!(data@ is Mapping));
                }
                return Err(crate::errors::AgentError::InvalidData);
            },
        };
        let ghost dm = crate::value::entry_seq_model(entries@);
        // every required field must be present
        let mut i: usize = 0;
        while i < self.required_fields.len()
            invariant
                i <= self.required_fields@.len(),
                forall|j: int|
                    0 <= j < i ==> spec_has_key(dm, (#[trigger] self.required_fields@[j])@),
            decreases self.required_fields@.len() - i,
        {
            if !mapping_has_key(entries, self.required_fields[i].as_str()) {
                return Err(crate::errors::AgentError::MissingField);
            }
            i = i + 1;
        }
        // a declared kind must match the stored value's kind
        let mut j: usize = 0;
        while j < self.fields.len()
            invariant
                j <= self.fields@.len(),
                settings_model(self.fields@).len() == self.fields@.len(),
                forall|m: int|
                    0 <= m < j ==> spec_field_ok(
                        dm,
                        (#[trigger] settings_model(self.fields@)[m]).0,
                        settings_model(self.fields@)[m].1,
                    ),
            decreases self.fields@.len() - j,
        {
            proof {
                lemma_settings_model_index(self.fields@, j as int);
            }
            if !str_eq(self.fields[j].1.as_str(), "any") {
                match mapping_get(entries, self.fields[j].0.as_str()) {
                    Some(v) => {
                        let kind = kind_name(v);
                        if !str_eq(kind, self.fields[j].1.as_str()) {
                            return Err(crate::errors::AgentError::InvalidConfig);
                        }
                        proof {
                            assert(spec_map_get(dm, settings_model(self.fields@)[j as int].0)
                                == Some(v@));
                            assert(spec_field_ok(
                                dm,
                                settings_model(self.fields@)[j as int].0,
                                settings_model(self.fields@)[j as int].1,
                            ));
                        }
                    },
                    None => {
                        proof {
                            assert(spec_map_get(dm, settings_model(self.fields@)[j as int].0)
                                is None);
                            assert(spec_field_ok(
                                dm,
                                settings_model(self.fields@)[j as int].0,
                                settings_model(self.fields@)[j as int].1,
                            ));
                        }
                    },
                }
            } else {
                proof {
                    assert(settings_model(self.fields@)[j as int].1 == "any"@);
                }
            }
            j = j + 1;
        }
        Ok(())
    }
}

/// Whether a map value holds a key.
pub fn mapping_has_key(entries: &Vec<(String, crate::value::Value)>, key: &str) -> (r: bool)
    ensures
        r == spec_has_key(crate::value::entry_seq_model(entries@), key@),
{
    mapping_get(entries, key).is_some()
}

/// The first value stored under a key of a map value.
pub fn mapping_get<'a>(entries: &'a Vec<(String, crate::value::Value)>, key: &str) -> (r: Option<
    &'a crate::value::Value,
>)
    ensures
        r is Some <==> spec_has_key(crate::value::entry_seq_model(entries@), key@),
        r is Some <==> spec_map_get(crate::value::entry_seq_model(entries@), key@) is Some,
        r matches Some(v) ==> spec_map_get(crate::value::entry_seq_model(entries@), key@)
            == Some(v@),
{
    proof {
        crate::value::lemma_entry_seq_model_len(entries@);
    }
    let mut i: usize = 0;
    while i < entries.len()
        invariant
            i <= entries@.len(),
            crate::value::entry_seq_model(entries@).len() == entries@.len(),
            forall|j: int|
                0 <= j < i ==> (#[trigger] crate::value::entry_seq_model(entries@)[j]).0 != key@,
        decreases entries@.len() - i,
    {
        proof {
            crate::value::lemma_entry_seq_model_index(entries@, i as int);
        }
        if str_eq(entries[i].0.as_str(), key) {
            proof {
                lemma_map_get_found(crate::value::entry_seq_model(entries@), i as int);
            }
            return Some(&entries[i].1);
        }
        i = i + 1;
    }
    proof {
        lemma_map_get_absent(crate::value::entry_seq_model(entries@), key@);
    }
    None
}

/// The kind name of a value.
pub fn kind_name(v: &crate::value::Value) -> (r: &'static str)
    ensures
        r@ == spec_kind_name(v@),
{
    proof {
        reveal_strlit("null");
        reveal_strlit("boolean");
        reveal_strlit("number");
        reveal_strlit("string");
        reveal_strlit("binary");
        reveal_strlit("timestamp");
        reveal_strlit("array");
        reveal_strlit("object");
    }
    match v {
        crate::value::Value::Null => "null",
        crate::value::Value::Bool(_) => "boolean",
        crate::value::Value::Int(_) => "number",
        crate::value::Value::F32Bits(_) => "number",
        crate::value::Value::F64Bits(_) => "number",
        crate::value::Value::Str(_) => "string",
        crate::value::Value::Binary(_) => "binary",
        crate::value::Value::Timestamp(_, _) => "timestamp",
        crate::value::Value::List(_) => "array",
        crate::value::Value::Mapping(_) => "object",
    }
}

} // verus!
