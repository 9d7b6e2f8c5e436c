use vstd::prelude::*;
use bit_field::BitField;

verus! {

/// Value for the data direction register of port A while switching banks:
/// the three low lines are outputs.
pub const BANK_SWITCH_DIRECTIONS: u8 = 0b00000111;

/// Number of writes to port A that one bank switch makes.
pub const ROM_BANK_STEPS: u8 = 19;

/// Marker written to port B before a profiler id.
pub const PROFILER_MARKER: u8 = 0x80;

/// Bit set in a profiler id to mark the end of a section.
pub const PROFILER_END_FLAG: u8 = 0x40;

/// `BitField::get_bit` of the bit_field crate on a byte: whether bit `bit` is set,
/// computed there as `value & (1 << bit) != 0`; it panics unless `bit < 8`.
#[verifier::external_body]
fn byte_get_bit(value: u8, bit: usize) -> (b: bool)
    requires
        bit < 8,
    ensures
        b == ((value & (1u8 << bit)) != 0u8),
{
    value.get_bit(bit)
}

/// `BitField::set_bit` of the bit_field crate on a byte: the value with bit `bit`
/// set (`value | 1 << bit`) or cleared (`value & !(1 << bit)`); it panics unless `bit < 8`.
#[verifier::external_body]
fn byte_set_bit(value: u8, bit: usize, on: bool) -> (r: u8)
    requires
        bit < 8,
    ensures
        r == (if on { value | (1u8 << bit) } else { value & !(1u8 << bit) }),
{
    let mut v = value;
    v.set_bit(bit, on);
    v
}

/// Whether bit `i` of `banknum` is set.
pub open spec fn bank_bit(banknum: u8, i: int) -> bool {
    (banknum & (1u8 << (i as u8))) != 0u8
}

/// The data write of the bank shift register for bit `i`: the bit goes out on line 1,
/// with the clock (line 0) low.
pub open spec fn data_write(banknum: u8, i: int) -> u8 {
    if bank_bit(banknum, i) { 2 } else { 0 }
}

/// Whether step `step` of a bank switch reads port A back before writing it.
pub open spec fn step_reads_port(step: int) -> bool {
    (2 <= step <= 16 && step % 2 == 0) || step == 17
}

/// The value written to port A at step `step` of switching to bank `banknum`, where
/// `read_back` is what port A read just before (used only when the step reads it):
/// first 0; then for each bit from the highest down, the data write, then the same
/// with the clock raised; then the latch line (2) raised; then 0.
pub open spec fn rom_bank_write_spec(banknum: u8, step: int, read_back: u8) -> u8 {
    if step == 0 || step == 18 {
        0
    } else if step == 17 {
        read_back | 4
    } else if step % 2 == 1 {
        data_write(banknum, 7 - (step - 1) / 2)
    } else {
        read_back | 1
    }
}

/// Whether a step of the bank switch reads port A before it writes.
pub fn rom_bank_step_reads(step: u8) -> (b: bool)
    requires
        step < ROM_BANK_STEPS,
    ensures
        b == step_reads_port(step as int),
{
    step == 17 || (step >= 2 && step <= 16 && step % 2 == 0)
}

/// The value to write to port A at step `step` of switching to ROM bank `banknum`,
/// given what port A read back just before (ignored by the steps that do not read).
pub fn rom_bank_write(banknum: u8, step: u8, read_back: u8) -> (w: u8)
    requires
        step < ROM_BANK_STEPS,
    ensures
        w == rom_bank_write_spec(banknum, step as int, read_back),
{
    if step == 0 || step == 18 {
        0
    } else if step == 17 {
        assert(read_back | (1u8 << 2usize) == read_back | 4u8) by (bit_vector);
        byte_set_bit(read_back, 2, true)
    } else if step % 2 == 1 {
        let bit: u8 = 7 - (step - 1) / 2;
        let on = byte_get_bit(banknum, bit as usize);
        assert((banknum & (1u8 << (bit as usize))) == (banknum & (1u8 << bit))) by (bit_vector)
            requires
                bit < 8,
        ;
        let w = (on as u8) << 1;
        assert(w == (if on { 2u8 } else { 0u8 })) by (bit_vector)
            requires
                w == (on as u8) << 1u8,
        ;
        w
    } else {
        assert(read_back | (1u8 << 0usize) == read_back | 1u8) by (bit_vector);
        byte_set_bit(read_back, 0, true)
    }
}

/// The two writes to port B that open profiler section `id`.
pub fn profiler_start_writes(id: u8) -> (w: (u8, u8))
    ensures
        w == (PROFILER_MARKER, id),
{
    (PROFILER_MARKER, id)
}

/// The two writes to port B that close profiler section `id`.
pub fn profiler_end_writes(id: u8) -> (w: (u8, u8))
    ensures
        w == (PROFILER_MARKER, id | PROFILER_END_FLAG),
{
    (PROFILER_MARKER, id | PROFILER_END_FLAG)
}

/// The first `n` writes of a switch to bank `banknum` on a port that reads back
/// what was last written to it.
pub open spec fn rom_bank_trace(banknum: u8, n: nat) -> Seq<u8>
    decreases n,
{
    if n == 0 {
        Seq::empty()
    } else {
        let prev = rom_bank_trace(banknum, (n - 1) as nat);
        let read_back: u8 = if n == 1 { 0 } else { prev.last() };
        prev.push(rom_bank_write_spec(banknum, n - 1, read_back))
    }
}

/// The data line (line 1) of a port A value.
pub open spec fn data_line(w: u8) -> int {
    ((w >> 1u8) & 1u8) as int
}

/// The byte that a shift register on port A takes in, highest bit first, from the
/// data line at the eight rising clock edges of a bank switch.
pub open spec fn received_bank(t: Seq<u8>) -> int {
    128 * data_line(t[2]) + 64 * data_line(t[4]) + 32 * data_line(t[6]) + 16 * data_line(t[8])
        + 8 * data_line(t[10]) + 4 * data_line(t[12]) + 2 * data_line(t[14]) + data_line(t[16])
}

/// The trace of `n` steps holds `n` writes.
proof fn lemma_rom_bank_trace_len(banknum: u8, n: nat)
    ensures
        rom_bank_trace(banknum, n).len() == n,
    decreases n,
{
    if n > 0 {
        lemma_rom_bank_trace_len(banknum, (n - 1) as nat);
    }
}

/// Each write of the trace is the step's write given the write before it.
proof fn lemma_rom_bank_trace_step(banknum: u8, n: nat, k: int)
    requires
        0 <= k < n,
    ensures
        rom_bank_trace(banknum, n).len() == n,
        rom_bank_trace(banknum, n)[k] == rom_bank_write_spec(
            banknum,
            k,
            if k == 0 { 0u8 } else { rom_bank_trace(banknum, n)[k - 1] },
        ),
    decreases n,
{
    lemma_rom_bank_trace_len(banknum, n);
    lemma_rom_bank_trace_len(banknum, (n - 1) as nat);
    if k < n - 1 {
        lemma_rom_bank_trace_step(banknum, (n - 1) as nat, k);
    }
}

/// At the `i`-th bit of a bank switch the clock is low on the data write, high on
/// the write after it, and the data line carries bit `7 - i` of the bank.
proof fn lemma_bank_bit_clocked(banknum: u8, i: int)
    requires
        0 <= i < 8,
    ensures
        (rom_bank_trace(banknum, 19)[2 * i + 1] & 1u8) == 0u8,
        (rom_bank_trace(banknum, 19)[2 * i + 2] & 1u8) == 1u8,
        data_line(rom_bank_trace(banknum, 19)[2 * i + 2]) == (if bank_bit(banknum, 7 - i) {
            1int
        } else {
            0int
        }),
{
    let t = rom_bank_trace(banknum, 19);
    lemma_rom_bank_trace_step(banknum, 19, 2 * i + 1);
    lemma_rom_bank_trace_step(banknum, 19, 2 * i + 2);
    let w = t[2 * i + 1];
    assert(t[2 * i + 2] == w | 1u8);
    assert(w == data_write(banknum, 7 - i));
    assert((w & 1u8) == 0u8 && ((w | 1u8) & 1u8) == 1u8 && (((w | 1u8) >> 1u8) & 1u8) == w / 2)
        by (bit_vector)
        requires
            w == 0u8 || w == 2u8,
    ;
}

/// A bank switch on a port that reads back its last write sends the bank number
/// highest bit first: the clock line (0) is low at each data write and high at the
/// write after it, the data line holds the bank's bit while the clock rises, the
/// latch line (2) is raised after the last bit, and the port starts and ends at 0.
pub proof fn lemma_bank_switch_sends_bank(banknum: u8)
    ensures
        rom_bank_trace(banknum, 19).len() == 19,
        received_bank(rom_bank_trace(banknum, 19)) == banknum,
        forall|i: int| 0 <= i < 8 ==> {
            &&& (#[trigger] rom_bank_trace(banknum, 19)[2 * i + 1] & 1u8) == 0u8
            &&& (rom_bank_trace(banknum, 19)[2 * i + 2] & 1u8) == 1u8
        },
        rom_bank_trace(banknum, 19)[0] == 0u8,
        (rom_bank_trace(banknum, 19)[17] & 4u8) == 4u8,
        rom_bank_trace(banknum, 19)[18] == 0u8,
{
    let t = rom_bank_trace(banknum, 19);
    lemma_rom_bank_trace_step(banknum, 19, 0);
    lemma_rom_bank_trace_step(banknum, 19, 17);
    lemma_rom_bank_trace_step(banknum, 19, 18);
    assert forall|i: int| 0 <= i < 8 implies {
        &&& (#[trigger] t[2 * i + 1] & 1u8) == 0u8
        &&& (t[2 * i + 2] & 1u8) == 1u8
    } by {
        lemma_bank_bit_clocked(banknum, i);
    }
    let before_latch = t[16];
    assert((before_latch | 4u8) & 4u8 == 4u8) by (bit_vector);
    lemma_bank_bit_clocked(banknum, 0);
    lemma_bank_bit_clocked(banknum, 1);
    lemma_bank_bit_clocked(banknum, 2);
    lemma_bank_bit_clocked(banknum, 3);
    lemma_bank_bit_clocked(banknum, 4);
    lemma_bank_bit_clocked(banknum, 5);
    lemma_bank_bit_clocked(banknum, 6);
    lemma_bank_bit_clocked(banknum, 7);
    assert(banknum == 128 * (if (banknum & (1u8 << 7u8)) != 0u8 { 1int } else { 0int })
        + 64 * (if (banknum & (1u8 << 6u8)) != 0u8 { 1int } else { 0int })
        + 32 * (if (banknum & (1u8 << 5u8)) != 0u8 { 1int } else { 0int })
        + 16 * (if (banknum & (1u8 << 4u8)) != 0u8 { 1int } else { 0int })
        + 8 * (if (banknum & (1u8 << 3u8)) != 0u8 { 1int } else { 0int })
        + 4 * (if (banknum & (1u8 << 2u8)) != 0u8 { 1int } else { 0int })
        + 2 * (if (banknum & (1u8 << 1u8)) != 0u8 { 1int } else { 0int })
        + (if (banknum & (1u8 << 0u8)) != 0u8 { 1int } else { 0int })) by (bit_vector);
}

} // verus!
