use vstd::prelude::*;

verus! {

/// Fills the first `num` bytes of `mem` with `value`, one byte at a time.
pub fn __memset(mem: &mut [u8], value: u8, num: usize)
    requires
        num <= old(mem)@.len(),
    ensures
        final(mem)@.len() == old(mem)@.len(),
        forall|i: int| 0 <= i < num ==> #[trigger] final(mem)@[i] == value,
        forall|i: int| num <= i < old(mem)@.len() ==> #[trigger] final(mem)@[i] == old(mem)@[i],
{
    let mut current: usize = 0;
    while current < num
        invariant
            current <= num,
            num <= mem@.len(),
            mem@.len() == old(mem)@.len(),
            forall|i: int| 0 <= i < current ==> #[trigger] mem@[i] == value,
            forall|i: int| current <= i < old(mem)@.len() ==> #[trigger] mem@[i] == old(mem)@[i],
        decreases num - current,
    {
        mem[current] = value;
        current += 1;
    }
}

/// The low and the high byte of an address, as the boot code stores the end of
/// the heap in zero page.
pub fn address_bytes(addr: usize) -> (b: (u8, u8))
    ensures
        b.0 == addr % 256,
        b.1 == (addr / 256) % 256,
{
    let low = addr & 0xFF;
    let high = (addr >> 8) & 0xFF;
    assert(low == addr % 256 && high == (addr / 256) % 256) by (bit_vector)
        requires
            low == addr & 0xFFusize,
            high == (addr >> 8usize) & 0xFFusize,
    ;
    (low as u8, high as u8)
}

/// The two bytes of an address give back its low 16 bits.
pub proof fn lemma_address_bytes_rebuild(addr: usize)
    ensures
        addr % 256 + 256 * ((addr / 256) % 256) == addr % 0x10000,
{
    assert(addr % 256 + 256 * ((addr / 256) % 256) == addr % 0x10000) by (bit_vector);
}

} // verus!
