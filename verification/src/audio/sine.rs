//! A table-driven sine oscillator with a 32-bit phase accumulator.

use vstd::prelude::*;

verus! {

/// Number of entries in the wave table (`2^8`).
pub const TABLE_SIZE: usize = 256;

/// The phase after one step of `inc` from `p`, wrapping at `2^32`.
pub open spec fn next_phase(p: u32, inc: u32) -> u32 {
    ((p as int + inc as int) % 0x1_0000_0000) as u32
}

/// The phase after `n` steps of `inc` from `p`.
pub open spec fn phase_after(p: u32, inc: u32, n: nat) -> u32
    decreases n,
{
    if n == 0 {
        p
    } else {
        next_phase(phase_after(p, inc, (n - 1) as nat), inc)
    }
}

/// The table entry selected by a phase: its top eight bits.
pub open spec fn table_index(p: u32) -> int {
    p as int / 0x100_0000
}

/// The per-sample phase advance for `frequency` at `sample_rate`:
/// `frequency / sample_rate` of a full `2^32` cycle, kept modulo `2^32`.
pub open spec fn phase_increment(sample_rate: u32, frequency: u32) -> u32 {
    (((frequency as int * 0x1_0000_0000) / sample_rate as int) % 0x1_0000_0000) as u32
}

/// A numerically controlled oscillator over a 256-entry wave table.
pub struct SineGenerator {
    table: [i16; 256],
    phase: u32,
    phase_inc: u32,
}

impl SineGenerator {
    /// The wave table.
    pub closed spec fn wave(&self) -> Seq<i16> {
        self.table@
    }

    /// The current phase.
    pub closed spec fn phase(&self) -> u32 {
        self.phase
    }

    /// The phase advance per sample.
    pub closed spec fn increment(&self) -> u32 {
        self.phase_inc
    }

    pub broadcast proof fn lemma_wave_len(&self)
        ensures
            #[trigger] self.wave().len() == TABLE_SIZE,
    {
    }

    /// An oscillator at phase zero over `table`, stepping `frequency /
    /// sample_rate` of a cycle per sample.
    pub fn with_table(table: [i16; 256], sample_rate: u32, frequency: u32) -> (g: Self)
        requires
            sample_rate > 0,
        ensures
            g.wave() == table@,
            g.phase() == 0,
            g.increment() == phase_increment(sample_rate, frequency),
    {
        let shifted: u64 = (frequency as u64) << 32u64;
        assert(shifted == frequency as int * 0x1_0000_0000) by (bit_vector)
            requires
                shifted == (frequency as u64) << 32u64,
        ;
        let q: u64 = shifted / sample_rate as u64;
        let inc: u32 = q as u32;
        assert(inc == q % 0x1_0000_0000) by (bit_vector)
            requires
                inc == q as u32,
        ;
        SineGenerator { table, phase: 0, phase_inc: inc }
    }

    /// Return the table entry at the current phase and advance the phase.
    pub fn sample(&mut self) -> (s: i16)
        ensures
            s == old(self).wave()[table_index(old(self).phase())],
            final(self).phase() == next_phase(old(self).phase(), old(self).increment()),
            final(self).wave() == old(self).wave(),
            final(self).increment() == old(self).increment(),
    {
        let p = self.phase;
        let index = (p >> 24u32) as usize;
        assert(p >> 24u32 == p / 0x100_0000) by (bit_vector);
        let s = self.table[index];
        self.phase = self.phase.wrapping_add(self.phase_inc);
        s
    }

    /// Fill `buf` with interleaved stereo frames (left, right, left, ...),
    /// both channels of a frame carrying the same sample. A trailing odd
    /// element is left as it was.
    pub fn fill(&mut self, buf: &mut [i16])
        ensures
            final(buf)@.len() == old(buf)@.len(),
            forall|f: int| 0 <= f < old(buf)@.len() / 2 ==> {
                let s = old(self).wave()[table_index(
                    phase_after(old(self).phase(), old(self).increment(), f as nat),
                )];
                &&& #[trigger] final(buf)@[2 * f] == s
                &&& final(buf)@[2 * f + 1] == s
            },
            old(buf)@.len() % 2 == 1 ==> final(buf)@.last() == old(buf)@.last(),
            final(self).phase() == phase_after(
                old(self).phase(),
                old(self).increment(),
                (old(buf)@.len() / 2) as nat,
            ),
            final(self).wave() == old(self).wave(),
            final(self).increment() == old(self).increment(),
    {
        let ghost p0 = self.phase;
        let ghost inc = self.phase_inc;
        let mut i: usize = 0;
        while i + 1 < buf.len()
            invariant
                buf@.len() == old(buf)@.len(),
                i % 2 == 0,
                i <= buf@.len(),
                self.table == old(self).table,
                self.phase_inc == inc,
                inc == old(self).increment(),
                p0 == old(self).phase(),
                self.phase == phase_after(p0, inc, (i / 2) as nat),
                forall|f: int| 0 <= f < i / 2 ==> {
                    let s = self.table@[table_index(phase_after(p0, inc, f as nat))];
                    &&& #[trigger] buf@[2 * f] == s
                    &&& buf@[2 * f + 1] == s
                },
                forall|j: int| i <= j < buf@.len() ==> #[trigger] buf@[j] == old(buf)@[j],
            decreases buf@.len() - i,
        {
            let ghost f0 = (i / 2) as int;
            let ghost prev = buf@;
            let s = self.sample();
            buf[i] = s;
            buf[i + 1] = s;
            i = i + 2;
            assert(phase_after(p0, inc, (f0 + 1) as nat) == next_phase(phase_after(p0, inc, f0 as nat), inc));
            assert forall|f: int| 0 <= f < i / 2 implies {
                let s = self.table@[table_index(phase_after(p0, inc, f as nat))];
                &&& #[trigger] buf@[2 * f] == s
                &&& buf@[2 * f + 1] == s
            } by {
                if f < f0 {
                    assert(buf@[2 * f] == prev[2 * f]);
                    assert(buf@[2 * f + 1] == prev[2 * f + 1]);
                } else {
                    assert(f == f0);
                }
            }
        }
        assert(i / 2 == old(buf)@.len() / 2);
    }
}

/// After `n` steps of `inc` from phase `p`, the phase is `p + n * inc`
/// modulo `2^32`.
pub proof fn lemma_phase_after_closed_form(p: u32, inc: u32, n: nat)
    ensures
        phase_after(p, inc, n) as int == (p as int + n * inc as int) % 0x1_0000_0000,
    decreases n,
{
    if n > 0 {
        lemma_phase_after_closed_form(p, inc, (n - 1) as nat);
        let prev = p as int + (n - 1) * inc as int;
        vstd::arithmetic::div_mod::lemma_add_mod_noop(prev, inc as int, 0x1_0000_0000);
        vstd::arithmetic::div_mod::lemma_mod_twice(inc as int, 0x1_0000_0000);
        assert(prev + inc as int == p as int + n * inc as int) by (nonlinear_arith)
            requires
                prev == p as int + (n - 1) * inc as int,
                n > 0,
        ;
    } else {
        assert(p as int % 0x1_0000_0000 == p as int);
    }
}

/// The `k`-th sample of a generator started at phase zero reads table
/// entry `((k * inc) mod 2^32) >> 24`, always an index below 256.
pub proof fn lemma_kth_sample_entry(inc: u32, k: nat)
    ensures
        table_index(phase_after(0, inc, k)) == ((k * inc as int) % 0x1_0000_0000) / 0x100_0000,
        0 <= table_index(phase_after(0, inc, k)) < TABLE_SIZE,
{
    lemma_phase_after_closed_form(0, inc, k);
}

} // verus!
