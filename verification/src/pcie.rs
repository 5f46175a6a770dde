//! PCI Express devices: where a function's configuration space lies, and
//! what its base address registers say.

use vstd::prelude::*;
use arrayvec::ArrayVec;

verus! {

/// A vector of at most `CAP` items stored inline.
#[verifier::external_type_specification]
#[verifier::external_body]
#[verifier::reject_recursive_types(T)]
pub struct ExArrayVec<T, const CAP: usize>(ArrayVec<T, CAP>);

/// How a base address register is reached.
#[derive(Clone, Copy, Debug, PartialEq, Eq, Structural)]
pub enum PciBarKind {
    Io { port: u16 },
    Memory { address: u64, prefetchable: bool },
}

/// A base address register in use: its index and what it maps.
#[derive(Clone, Copy, Debug, PartialEq, Eq, Structural)]
pub struct PciBar {
    pub idx: u8,
    pub kind: PciBarKind,
}

/// A register as plain values: index, 0 for ports or 1 for memory, the
/// port or address, whether prefetchable.
pub open spec fn bar_tuple(b: PciBar) -> (u8, u8, u64, bool) {
    match b.kind {
        PciBarKind::Io { port } => (b.idx, 0, port as u64, false),
        PciBarKind::Memory { address, prefetchable } => (b.idx, 1, address, prefetchable),
    }
}

/// What an inline vector of registers holds, in order.
pub uninterp spec fn bar_items(v: ArrayVec<PciBar, 6>) -> Seq<(u8, u8, u64, bool)>;

/// `ArrayVec::new`: an empty vector.
#[verifier::external_body]
fn bars_new() -> (r: ArrayVec<PciBar, 6>)
    ensures
        bar_items(r) == Seq::<(u8, u8, u64, bool)>::empty(),
{
    ArrayVec::new()
}

/// `ArrayVec::push`: appends `b`; the crate panics when the vector is full,
/// which is left out here.
#[verifier::external_body]
fn bars_push(v: &mut ArrayVec<PciBar, 6>, b: PciBar)
    requires
        bar_items(*old(v)).len() < 6,
    ensures
        bar_items(*final(v)) == bar_items(*old(v)).push(bar_tuple(b)),
{
    v.push(b)
}

/// `ArrayVec::len`: the number of items.
#[verifier::external_body]
fn bars_len(v: &ArrayVec<PciBar, 6>) -> (r: usize)
    ensures
        r == bar_items(*v).len(),
{
    v.len()
}

/// The registers in use among the raw values `raw`, from index `i` on.
pub open spec fn decode_from(raw: Seq<u32>, i: int) -> Seq<(u8, u8, u64, bool)>
    decreases 7 - i,
{
    if i < 0 || i >= 6 || raw.len() != 6 {
        Seq::empty()
    } else {
        let bar = raw[i];
        if bar == 0 {
            decode_from(raw, i + 1)
        } else if bar % 2 == 1 {
            seq![(i as u8, 0u8, ((bar / 4) * 4) as u16 as u64, false)] + decode_from(raw, i + 1)
        } else {
            let t = (bar / 2) % 4;
            let pf = (bar / 8) % 2 == 1;
            if t == 0 {
                seq![(i as u8, 1u8, ((bar / 16) * 16) as u64, pf)] + decode_from(raw, i + 1)
            } else {
                seq![(i as u8, 1u8, (raw[i + 1] as u64 * 0x1_0000_0000 + (bar / 16) * 16) as u64, pf)]
                    + decode_from(raw, i + 2)
            }
        }
    }
}

/// The memory registers from index `i` on are 32-bit or 64-bit ones, and a
/// 64-bit one is not the last.
pub open spec fn bars_supported(raw: Seq<u32>, i: int) -> bool
    decreases 7 - i,
{
    if i < 0 || i >= 6 || raw.len() != 6 {
        true
    } else {
        let bar = raw[i];
        if bar == 0 || bar % 2 == 1 {
            bars_supported(raw, i + 1)
        } else {
            let t = (bar / 2) % 4;
            if t == 0 {
                bars_supported(raw, i + 1)
            } else if t == 2 {
                i < 5 && bars_supported(raw, i + 2)
            } else {
                false
            }
        }
    }
}

proof fn lemma_decode_len(raw: Seq<u32>, i: int)
    requires
        0 <= i <= 6,
    ensures
        decode_from(raw, i).len() <= 6 - i,
    decreases 7 - i,
{
    if i < 6 && raw.len() == 6 {
        lemma_decode_len(raw, i + 1);
        if i + 2 <= 6 {
            lemma_decode_len(raw, i + 2);
        }
    }
}

/// Reads the base address registers `raw` of an ordinary device.
fn decode_bars(raw: &[u32; 6]) -> (r: ArrayVec<PciBar, 6>)
    requires
        bars_supported(raw@, 0),
    ensures
        bar_items(r) == decode_from(raw@, 0),
{
    let mut bars = bars_new();
    let mut idx: usize = 0;
    proof {
        lemma_decode_len(raw@, 0);
    }
    while idx < 6
        invariant
            raw@.len() == 6,
            idx <= 7,
            bars_supported(raw@, idx as int),
            bar_items(bars) + decode_from(raw@, idx as int) == decode_from(raw@, 0),
            bar_items(bars).len() + decode_from(raw@, idx as int).len() <= 6,
            idx >= 6 ==> decode_from(raw@, idx as int).len() == 0,
        decreases 7 - idx,
    {
        let bar = raw[idx];
        proof {
            assert((bar & 1u32 != 0 <==> bar % 2 == 1)
                && ((bar >> 1u32) & 3u32 == (bar / 2) % 4)
                && (bar & 8u32 != 0 <==> (bar / 8) % 2 == 1)
                && (bar & !3u32 == (bar / 4) * 4)
                && (bar & !0xfu32 == (bar / 16) * 16)
                && ((bar as u64) & 0xffff_fff0u64 == (bar / 16) * 16)) by (bit_vector);
        }
        if bar == 0 {
            idx = idx + 1;
        } else if bar & 1u32 != 0 {
            let port = (bar & !3u32) as u16;
            proof {
                lemma_decode_len(raw@, idx + 1);
            }
            bars_push(&mut bars, PciBar { idx: idx as u8, kind: PciBarKind::Io { port } });
            proof {
                assert(bar_items(bars) + decode_from(raw@, idx + 1) =~= decode_from(raw@, 0));
            }
            idx = idx + 1;
        } else {
            let mem_type = (bar >> 1u32) & 3u32;
            let prefetchable = bar & 8u32 != 0;
            if mem_type == 0 {
                let phys = (bar & !0xfu32) as u64;
                proof {
                    lemma_decode_len(raw@, idx + 1);
                }
                bars_push(&mut bars, PciBar { idx: idx as u8, kind: PciBarKind::Memory { address: phys, prefetchable } });
                proof {
                    assert(bar_items(bars) + decode_from(raw@, idx + 1) =~= decode_from(raw@, 0));
                }
                idx = idx + 1;
            } else {
                let low = bar as u64;
                let high = raw[idx + 1] as u64;
                let phys = (high << 32u64) | (low & 0xffff_fff0u64);
                proof {
                    assert((high << 32u64) | (low & 0xffff_fff0u64) == high * 0x1_0000_0000u64 + (low & 0xffff_fff0u64))
                        by (bit_vector)
                        requires
                            high < 0x1_0000_0000u64,
                    ;
                    if idx + 2 <= 6 {
                        lemma_decode_len(raw@, idx + 2);
                    }
                }
                bars_push(&mut bars, PciBar { idx: idx as u8, kind: PciBarKind::Memory { address: phys, prefetchable } });
                proof {
                    assert(bar_items(bars) + decode_from(raw@, idx + 2) =~= decode_from(raw@, 0));
                }
                idx = idx + 2;
            }
        }
    }
    proof {
        assert(bar_items(bars) + decode_from(raw@, idx as int) == bar_items(bars));
    }
    bars
}

/// A function found on the bus.
pub struct PcieDevice {
    pub bus: u8,
    pub dev: u8,
    pub function: u8,
    pub base_addr: u64,
    pub start_bus: u8,
    pub vendor_id: u16,
    pub device_id: u16,
    pub class_code: u8,
    pub subclass: u8,
    pub prog_if: u8,
    pub header_type: u8,
    pub bars: ArrayVec<PciBar, 6>,
}

/// The identification registers common to every function.
#[derive(Clone, Copy, Debug)]
pub struct CommonHeader {
    pub vendor_id: u16,
    pub device_id: u16,
    pub class_code: u8,
    pub subclass: u8,
    pub prog_if: u8,
}

/// The layout field of a header type: ordinary device, bridge, card bus.
pub open spec fn layout_of(header_type: u8) -> u8 {
    header_type % 128
}

/// Functions of these layouts are handled: ordinary devices whose
/// registers are supported, and any layout other than bridges and card
/// buses.
pub open spec fn device_supported_spec(header_type: u8, raw: Seq<u32>) -> bool {
    let layout = layout_of(header_type);
    &&& layout != 1
    &&& layout != 2
    &&& layout == 0 ==> bars_supported(raw, 0)
}

/// Whether a function with these header type and raw registers is handled.
pub fn device_supported(header_type: u8, raw: &[u32; 6]) -> (r: bool)
    ensures
        r == device_supported_spec(header_type, raw@),
{
    let layout = header_type & 0x7fu8;
    assert(header_type & 0x7fu8 == header_type % 128) by (bit_vector);
    if layout == 1 || layout == 2 {
        return false;
    }
    if layout != 0 {
        return true;
    }
    bars_ok(raw)
}

fn bars_ok(raw: &[u32; 6]) -> (r: bool)
    ensures
        r == bars_supported(raw@, 0),
{
    let mut idx: usize = 0;
    while idx < 6
        invariant
            raw@.len() == 6,
            idx <= 7,
            bars_supported(raw@, 0) == bars_supported(raw@, idx as int),
        decreases 7 - idx,
    {
        let bar = raw[idx];
        proof {
            assert((bar & 1u32 != 0 <==> bar % 2 == 1)
                && ((bar >> 1u32) & 3u32 == (bar / 2) % 4)) by (bit_vector);
        }
        if bar == 0 || bar & 1u32 != 0 {
            idx = idx + 1;
        } else {
            let t = (bar >> 1u32) & 3u32;
            if t == 0 {
                idx = idx + 1;
            } else if t == 2 {
                if idx >= 5 {
                    return false;
                }
                idx = idx + 2;
            } else {
                return false;
            }
        }
    }
    true
}

/// The device found at `bus`, `dev`, `function` whose identification is
/// `header`, type `header_type` and raw base address registers `raw`.
pub fn create_device(
    header: CommonHeader,
    base_addr: u64,
    start_bus: u8,
    bus: u8,
    dev: u8,
    function: u8,
    header_type: u8,
    raw: &[u32; 6],
) -> (r: PcieDevice)
    requires
        device_supported_spec(header_type, raw@),
    ensures
        r.bus == bus && r.dev == dev && r.function == function,
        r.base_addr == base_addr && r.start_bus == start_bus,
        r.vendor_id == header.vendor_id && r.device_id == header.device_id,
        r.class_code == header.class_code && r.subclass == header.subclass && r.prog_if == header.prog_if,
        r.header_type == header_type,
        bar_items(r.bars) == if layout_of(header_type) == 0 {
            decode_from(raw@, 0)
        } else {
            Seq::empty()
        },
{
    let layout = header_type & 0x7fu8;
    assert(header_type & 0x7fu8 == header_type % 128) by (bit_vector);
    let bars = if layout == 0 {
        decode_bars(raw)
    } else {
        bars_new()
    };
    PcieDevice {
        bus,
        dev,
        function,
        base_addr,
        start_bus,
        vendor_id: header.vendor_id,
        device_id: header.device_id,
        class_code: header.class_code,
        subclass: header.subclass,
        prog_if: header.prog_if,
        header_type,
        bars,
    }
}

/// The number of registers a device uses.
pub fn bar_count(device: &PcieDevice) -> (r: usize)
    ensures
        r == bar_items(device.bars).len(),
{
    bars_len(&device.bars)
}

/// The offset of a function's configuration space from the base of its
/// segment's space.
pub fn config_offset(start_bus: u8, bus: u8, dev: u8, function: u8) -> (r: u64)
    requires
        bus >= start_bus,
        dev < 32,
        function < 8,
    ensures
        r == (bus - start_bus) * 0x10_0000 + dev * 0x8000 + function * 0x1000,
{
    let b = (bus - start_bus) as u64;
    let d = dev as u64;
    let f = function as u64;
    assert((b << 20u64) + (d << 15u64) + (f << 12u64) == b * 0x10_0000 + d * 0x8000 + f * 0x1000) by (bit_vector)
        requires
            b < 256,
            d < 32,
            f < 8,
    ;
    (b << 20u64) + (d << 15u64) + (f << 12u64)
}

/// Whether a function has more than one function: bit 7 of its header type.
pub fn has_multiple_functions(header_type: u8) -> (r: bool)
    ensures
        r == (header_type >= 128),
{
    assert(header_type & 0x80u8 != 0 <==> header_type >= 128) by (bit_vector);
    header_type & 0x80u8 != 0
}

/// The drivers a function can have.
#[derive(Clone, Copy, Debug, PartialEq, Eq, Structural)]
pub enum Driver {
    Ahci,
    Unsupported,
}

/// The driver of a function with these class, subclass and interface:
/// SATA controllers in AHCI mode are handled, nothing else.
pub fn init_device(device: &PcieDevice) -> (r: Driver)
    ensures
        r is Ahci <==> (device.class_code == 1 && device.subclass == 6 && device.prog_if == 1),
{
    if device.class_code == 1 && device.subclass == 6 && device.prog_if == 1 {
        Driver::Ahci
    } else {
        Driver::Unsupported
    }
}

} // verus!
