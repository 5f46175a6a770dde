//! Interrupt controllers: the register encodings and the computations made
//! when setting them up.

use vstd::prelude::*;

verus! {

/// The masked bit of a local vector table entry.
pub const MASKED: u32 = 0x1_0000u32;
/// The enable bit of the spurious-interrupt register.
pub const LAPIC_ENABLE: u32 = 0x100u32;
pub const SPURIOUS_VECTOR: u8 = 0xffu8;
pub const TIMER_PERIODIC: u32 = 0x2_0000u32;
pub const TIMER_DIVIDE_16: u32 = 3u32;
/// The frequency of the programmable interval timer, in hertz.
pub const PIT_FREQUENCY: u64 = 1_193_182u64;
/// The legacy interrupt lines of the timer and the keyboard.
pub const GSI_TIMER: u8 = 0u8;
pub const GSI_KEYBOARD: u8 = 1u8;

/// The local APIC identifier held in the top byte of its register.
pub fn lapic_id_of(raw: u32) -> (r: u8)
    ensures
        r == raw / 0x100_0000,
{
    let r = ((raw >> 24u32) & 0xFFu32) as u8;
    assert(((raw >> 24u32) & 0xFFu32) == raw / 0x100_0000u32) by (bit_vector);
    r
}

/// A legacy interrupt line redirected by the firmware: the line and the
/// global interrupt it arrives on.
#[derive(Clone, Copy, Debug)]
pub struct SourceOverride {
    pub isa_source: u8,
    pub global_system_interrupt: u32,
}

/// The global interrupt of legacy line `irq`: the first override of that
/// line, else the same number.
pub open spec fn gsi_of(overrides: Seq<SourceOverride>, irq: u8) -> u32
    decreases overrides.len(),
{
    if overrides.len() == 0 {
        irq as u32
    } else if overrides[0].isa_source == irq {
        overrides[0].global_system_interrupt
    } else {
        gsi_of(overrides.drop_first(), irq)
    }
}

pub fn irq_to_gsi(overrides: &[SourceOverride], irq: u8) -> (r: u32)
    ensures
        r == gsi_of(overrides@, irq),
{
    let mut i: usize = 0;
    proof {
        assert(overrides@.skip(0) =~= overrides@);
    }
    while i < overrides.len()
        invariant
            i <= overrides@.len(),
            gsi_of(overrides@, irq) == gsi_of(overrides@.skip(i as int), irq),
        decreases overrides@.len() - i,
    {
        proof {
            assert(overrides@.skip(i as int).drop_first() =~= overrides@.skip(i + 1));
        }
        if overrides[i].isa_source == irq {
            return overrides[i].global_system_interrupt;
        }
        i = i + 1;
    }
    proof {
        assert(overrides@.skip(i as int).len() == 0);
    }
    irq as u32
}

/// The register writes that route global interrupt `gsi` to vector `vec` of
/// the processor `dest`, on an I/O APIC whose first interrupt is `gsi_base`:
/// the entry masked first, then its destination, then unmasked. The
/// register number is the low byte of `0x10 + 2 * (gsi - gsi_base)`.
pub fn route_writes(gsi: u32, gsi_base: u32, vec: u8, dest: u8) -> (r: Vec<(u8, u32)>)
    requires
        gsi_base <= gsi,
        0x10 + (gsi - gsi_base) * 2 <= u32::MAX,
    ensures
        r@ == seq![
            (((0x10 + (gsi - gsi_base) * 2) % 256) as u8, (vec as u32 | MASKED) as u32),
            (((0x10 + (gsi - gsi_base) * 2) % 256 + 1) as u8, ((dest as u32) << 24u32) as u32),
            (((0x10 + (gsi - gsi_base) * 2) % 256) as u8, vec as u32),
        ],
{
    let idx = gsi - gsi_base;
    let reg = 0x10 + idx * 2;
    let low_reg = reg as u8;
    assert(low_reg == reg % 256 && low_reg < 255) by (bit_vector)
        requires
            low_reg == reg as u8,
            reg % 2 == 0,
    ;
    let high_reg = low_reg + 1;
    let mut v: Vec<(u8, u32)> = Vec::new();
    v.push((low_reg, vec as u32 | MASKED));
    v.push((high_reg, (dest as u32) << 24u32));
    v.push((low_reg, vec as u32));
    proof {
        assert(v@ =~= seq![
            (((0x10 + (gsi - gsi_base) * 2) % 256) as u8, (vec as u32 | MASKED) as u32),
            (((0x10 + (gsi - gsi_base) * 2) % 256 + 1) as u8, ((dest as u32) << 24u32) as u32),
            (((0x10 + (gsi - gsi_base) * 2) % 256) as u8, vec as u32),
        ]);
    }
    v
}

/// The interval timer count for a wait of `ms` milliseconds.
pub fn pit_count(ms: u64) -> (r: u64)
    requires
        ms <= 1000,
    ensures
        r == PIT_FREQUENCY * ms / 1000,
{
    PIT_FREQUENCY * ms / 1000
}

/// The initial count of the local timer for 100 interrupts a second, from
/// the count left after 50 ms starting at the maximum.
pub fn timer_initial_count(current_after_50ms: u32) -> (r: u32)
    ensures
        r == (u32::MAX - current_after_50ms) / 5,
{
    let ticks_50ms = u32::MAX - current_after_50ms;
    ticks_50ms / 5
}

} // verus!
