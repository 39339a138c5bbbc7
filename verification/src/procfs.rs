//! Parsing kernels for the system collectors.
//!
//! The system collectors read `/proc` files; the reads happen outside
//! the library, and the text lands here as bytes. These kernels split
//! counter lines into fields, parse the counters, and derive the usage
//! figures. Ratios are integer permille values, so a gauge of 12.3
//! percent travels as 123.

use vstd::prelude::*;

use crate::collectors::{spec_all_digits, spec_digits_val};

verus! {

/// Whitespace-separated fields of a counter line; every field returned
/// is nonempty and free of whitespace.
pub fn split_fields(line: &[u8]) -> (r: Vec<Vec<u8>>)
    ensures
        forall|i: int| 0 <= i < r@.len() ==> (#[trigger] r@[i])@.len() > 0,
{
    let mut fields: Vec<Vec<u8>> = Vec::new();
    let mut current: Vec<u8> = Vec::new();
    let mut i: usize = 0;
    while i < line.len()
        invariant
            forall|k: int| 0 <= k < fields@.len() ==> (#[trigger] fields@[k])@.len() > 0,
        decreases line@.len() - i,
    {
        let b = *vstd::slice::slice_index_get(line, i);
        if b == 32 || b == 9 {
            if current.len() > 0 {
                fields.push(current);
                current = Vec::new();
            }
        } else {
            current.push(b);
        }
        i = i + 1;
    }
    if current.len() > 0 {
        fields.push(current);
    }
    fields
}

/// Parse an all-digit byte field as a counter.
pub fn parse_counter(field: &Vec<u8>) -> (r: Option<u64>)
    ensures
        r is Some <==> (field@.len() > 0 && spec_all_digits(field@.map(|i: int, b: u8| b as char))
            && spec_digits_val(field@.map(|i: int, b: u8| b as char)) <= u64::MAX),
        r matches Some(v) ==> v as int == spec_digits_val(field@.map(|i: int, b: u8| b as char)),
{
    let ghost chars = field@.map(|i: int, b: u8| b as char);
    if field.len() == 0 {
        return None;
    }
    let mut acc: u64 = 0;
    let mut i: usize = 0;
    proof {
        assert(chars.take(0) =~= Seq::<char>::empty());
    }
    while i < field.len()
        invariant
            i <= field@.len(),
            chars == field@.map(|k: int, b: u8| b as char),
            chars.len() == field@.len(),
            spec_all_digits(chars.take(i as int)),
            acc as int == spec_digits_val(chars.take(i as int)),
        decreases field@.len() - i,
    {
        let b = field[i];
        if !(48 <= b && b <= 57) {
            proof {
                assert(chars[i as int] == field@[i as int] as char);
                assert(!('0' <= chars[i as int] <= '9'));
            }
            return None;
        }
        let d = (b - 48) as u64;
        proof {
            assert(chars[i as int] == field@[i as int] as char);
        }
        if acc > (u64::MAX - d) / 10 {
            proof {
                assert(spec_all_digits(chars.take(i as int + 1))) by {
                    assert forall|j: int| 0 <= j < i + 1 implies '0' <= #[trigger] chars.take(
                        i as int + 1,
                    )[j] <= '9' by {
                        if j < i {
                            assert(chars.take(i as int + 1)[j] == chars.take(i as int)[j]);
                        }
                    }
                }
                assert(chars.take(i as int + 1).drop_last() =~= chars.take(i as int));
                assert(spec_digits_val(chars.take(i as int + 1)) == acc * 10 + d);
                assert(acc * 10 + d > u64::MAX) by (nonlinear_arith)
                    requires
                        acc > (u64::MAX - d) / 10,
                        d <= 9,
                ;
                if spec_all_digits(chars) {
                    crate::collectors::lemma_digits_grow(chars, i as int + 1);
                }
            }
            return None;
        }
        proof {
            assert(acc * 10 + d <= u64::MAX) by (nonlinear_arith)
                requires
                    acc <= (u64::MAX - d) / 10,
                    d <= 9,
            ;
            assert(chars.take(i as int + 1).drop_last() =~= chars.take(i as int));
            assert(chars.take(i as int + 1).last() == chars[i as int]);
            assert(spec_all_digits(chars.take(i as int + 1))) by {
                assert forall|j: int| 0 <= j < i + 1 implies '0' <= #[trigger] chars.take(
                    i as int + 1,
                )[j] <= '9' by {
                    if j < i {
                        assert(chars.take(i as int + 1)[j] == chars.take(i as int)[j]);
                    }
                }
            }
        }
        acc = acc * 10 + d;
        i = i + 1;
    }
    proof {
        assert(chars.take(chars.len() as int) =~= chars);
    }
    Some(acc)
}

/// The jiffy counters of one processor line.
#[derive(Debug, Clone, Copy, PartialEq, Eq, Structural)]
pub struct CpuCounters {
    /// Time in user mode.
    pub user: u64,
    /// Time in user mode at low priority.
    pub nice: u64,
    /// Time in system mode.
    pub system: u64,
    /// Idle time.
    pub idle: u64,
    /// Time waiting for I/O.
    pub iowait: u64,
    /// Time serving interrupts.
    pub irq: u64,
    /// Time serving soft interrupts.
    pub softirq: u64,
    /// Time stolen by the hypervisor.
    pub steal: u64,
}

impl CpuCounters {
    /// The counters' sum, as a mathematical integer.
    pub open spec fn spec_total(&self) -> int {
        self.user + self.nice + self.system + self.idle + self.iowait + self.irq + self.softirq
            + self.steal
    }

    /// Busy share in permille: one minus the idle share, or zero when
    /// the counters are all zero.
    pub open spec fn spec_usage_permille(&self) -> int {
        if self.spec_total() == 0 {
            0
        } else {
            1000 - (self.idle * 1000) / self.spec_total()
        }
    }

    /// Compute the busy share in permille.
    pub fn usage_permille(&self) -> (r: u32)
        requires
            self.spec_total() <= 0x0010_0000_0000_0000,
        ensures
            r as int == self.spec_usage_permille(),
            r <= 1000,
    {
        let total: u64 = self.user + self.nice + self.system + self.idle + self.iowait + self.irq
            + self.softirq + self.steal;
        if total == 0 {
            return 0;
        }
        proof {
            assert(self.idle * 1000 <= 0x0010_0000_0000_0000 * 1000) by (nonlinear_arith)
                requires
                    self.idle <= 0x0010_0000_0000_0000,
            ;
            assert((self.idle * 1000) / (total as int) <= 1000) by (nonlinear_arith)
                requires
                    total as int > 0,
                    self.idle <= total as int,
            ;
        }
        let idle_share: u64 = (self.idle * 1000) / total;
        (1000 - idle_share as u32 as u64) as u32
    }
}

/// Parse the fields of a `cpu` counter line (the label field first,
/// then at least eight counters; a missing steal counter counts as
/// zero, as older kernels omit it).
pub fn parse_cpu_counters(fields: &Vec<Vec<u8>>) -> (r: Option<CpuCounters>)
    ensures
        fields@.len() < 8 ==> r is None,
{
    if fields.len() < 8 {
        return None;
    }
    let user = parse_counter(&fields[1]);
    let nice = parse_counter(&fields[2]);
    let system = parse_counter(&fields[3]);
    let idle = parse_counter(&fields[4]);
    let iowait = parse_counter(&fields[5]);
    let irq = parse_counter(&fields[6]);
    let softirq = parse_counter(&fields[7]);
    let steal = if fields.len() >= 9 {
        parse_counter(&fields[8])
    } else {
        Some(0)
    };
    match (user, nice, system, idle, iowait, irq, softirq, steal) {
        (
            Some(user),
            Some(nice),
            Some(system),
            Some(idle),
            Some(iowait),
            Some(irq),
            Some(softirq),
            Some(steal),
        ) => Some(CpuCounters { user, nice, system, idle, iowait, irq, softirq, steal }),
        _ => None,
    }
}

/// Memory usage in permille of the total, from the two counters the
/// memory collector reads.
pub fn memory_usage_permille(total_kb: u64, available_kb: u64) -> (r: u32)
    requires
        total_kb <= 0x0010_0000_0000_0000,
    ensures
        total_kb == 0 ==> r == 0,
        available_kb > total_kb ==> r == 0,
        total_kb > 0 && available_kb <= total_kb ==> r as int == ((total_kb - available_kb)
            * 1000) / total_kb as int,
        r <= 1000,
    {
    if total_kb == 0 || available_kb > total_kb {
        return 0;
    }
    let used: u64 = total_kb - available_kb;
    proof {
        assert(used * 1000 <= 0x0010_0000_0000_0000 * 1000) by (nonlinear_arith)
            requires
                used <= 0x0010_0000_0000_0000,
        ;
        assert((used * 1000) / (total_kb as int) <= 1000) by (nonlinear_arith)
            requires
                total_kb as int > 0,
                used <= total_kb,
        ;
    }
    ((used * 1000) / total_kb) as u32
}

/// A transfer rate in bytes per second from two cumulative counters:
/// zero when the clock did not advance or the counter wrapped.
pub fn transfer_rate(prev_bytes: u64, cur_bytes: u64, elapsed_ms: u64) -> (r: u64)
    requires
        cur_bytes <= 0x0010_0000_0000_0000,
    ensures
        elapsed_ms == 0 || cur_bytes < prev_bytes ==> r == 0,
        elapsed_ms > 0 && cur_bytes >= prev_bytes ==> r as int == ((cur_bytes - prev_bytes)
            * 1000) / elapsed_ms as int,
{
    if elapsed_ms == 0 || cur_bytes < prev_bytes {
        return 0;
    }
    let delta: u64 = cur_bytes - prev_bytes;
    proof {
        assert(delta * 1000 <= 0x0010_0000_0000_0000 * 1000) by (nonlinear_arith)
            requires
                delta <= 0x0010_0000_0000_0000,
        ;
    }
    (delta * 1000) / elapsed_ms
}

/// The process tallies the process collector keeps.
#[derive(Debug, Clone, Copy, PartialEq, Eq, Structural)]
pub struct ProcessTallies {
    /// Processes seen.
    pub total: u64,
    /// In the running state.
    pub running: u64,
    /// Blocked on I/O.
    pub blocked: u64,
    /// Sleeping or idle.
    pub sleeping: u64,
    /// Zombies.
    pub zombie: u64,
}

/// Tally processes by the state byte of their status line: `R` runs,
/// `D` blocks, `S` and `I` sleep, `Z` is a zombie.
#[verifier::loop_isolation(false)]
pub fn tally_process_states(states: &Vec<u8>) -> (r: ProcessTallies)
    requires
        states@.len() <= 0xffff_ffff,
    ensures
        r.total == states@.len(),
        r.running <= r.total,
        r.blocked <= r.total,
        r.sleeping <= r.total,
        r.zombie <= r.total,
        r.running + r.blocked + r.sleeping + r.zombie <= r.total,
{
    let mut t = ProcessTallies { total: 0, running: 0, blocked: 0, sleeping: 0, zombie: 0 };
    let mut i: usize = 0;
    while i < states.len()
        invariant
            i <= states@.len(),
            t.total == i,
            t.running + t.blocked + t.sleeping + t.zombie <= t.total,
            t.running <= t.total,
            t.blocked <= t.total,
            t.sleeping <= t.total,
            t.zombie <= t.total,
        decreases states@.len() - i,
    {
        let s = states[i];
        t.total = t.total + 1;
        if s == 82 {
            t.running = t.running + 1;
        } else if s == 68 {
            t.blocked = t.blocked + 1;
        } else if s == 83 || s == 73 {
            t.sleeping = t.sleeping + 1;
        } else if s == 90 {
            t.zombie = t.zombie + 1;
        }
        i = i + 1;
    }
    t
}

} // verus!
