//! The local APIC: how its presence is told and where its registers lie.

use vstd::prelude::*;

verus! {

/// Interrupt vector of the first line of the first legacy controller.
pub const PIC_1_OFFSET: u8 = 32;

/// Interrupt vector of the first line of the second legacy controller.
pub const PIC_2_OFFSET: u8 = PIC_1_OFFSET + 8;

/// The bits of the APIC base register that hold the base address.
pub const APIC_BASE_MASK: u64 = 0xFFFF_FFFF_F000;

/// The bit of the APIC base register that switches the APIC on.
pub const APIC_ENABLE: u64 = 0x800;

/// Whether the processor has a local APIC: bit 9 of the feature flags that
/// CPUID leaf 1 leaves in EDX.
pub fn has_apic(edx: u32) -> (r: bool)
    ensures
        r == (edx & 0x200 != 0),
{
    (edx & 0x200) != 0
}

/// The value to write back to the APIC base register `value` so that the
/// APIC is on: `value` with the enable bit set.
pub fn apic_enabled(value: u64) -> (r: u64)
    ensures
        r == value | APIC_ENABLE,
{
    value | APIC_ENABLE
}

/// The base address of the APIC's registers that the APIC base register
/// `value` holds.
pub fn apic_base(value: u64) -> (r: u64)
    ensures
        r == value & APIC_BASE_MASK,
        r <= APIC_BASE_MASK,
        r % 4096 == 0,
{
    let r = value & APIC_BASE_MASK;
    assert(value & 0xFFFF_FFFF_F000 <= 0xFFFF_FFFF_F000 && (value & 0xFFFF_FFFF_F000) % 4096 == 0)
        by (bit_vector);
    r
}

/// The address of the 32-bit register at byte offset `offset` from the base
/// that `apic_base` holds: the base address with its low 12 bits cleared,
/// and `offset` rounded down to a whole register.
pub fn apic_register_address(apic_base: u64, offset: u64) -> (r: u64)
    requires
        offset < 0x1000,
    ensures
        r == (apic_base & APIC_BASE_MASK) + offset / 4 * 4,
{
    let base = self::apic_base(apic_base);
    base + offset / 4 * 4
}

} // verus!
