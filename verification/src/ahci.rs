//! The SATA controller: what its status registers say and the addresses
//! and delays its setup computes.

use vstd::prelude::*;

verus! {

pub const HBA_PORT_IPM_ACTIVE: u8 = 1u8;
pub const HBA_PORT_DET_PRESENT: u8 = 3u8;
pub const SATA_SIG_ATA: u32 = 0x0000_0101u32;
pub const SATA_SIG_ATAPI: u32 = 0xEB14_0101u32;
pub const SATA_SIG_SEMB: u32 = 0xC33C_0101u32;
pub const SATA_SIG_PM: u32 = 0x9669_0101u32;

/// What is attached to a port.
#[derive(Clone, Copy, Debug, PartialEq, Eq, Structural)]
pub enum SataType {
    /// A disk.
    Sata,
    /// A packet device such as an optical drive.
    Satapi,
    /// An enclosure management bridge.
    Semb,
    /// A port multiplier.
    PM,
}

/// The device-detection field of a port status.
pub open spec fn det_of(ssts: u32) -> u32 {
    ssts % 16
}

/// The power-management field of a port status.
pub open spec fn ipm_of(ssts: u32) -> u32 {
    (ssts / 256) % 16
}

/// A known device signature.
pub open spec fn known_signature(sig: u32) -> bool {
    sig == SATA_SIG_ATA || sig == SATA_SIG_ATAPI || sig == SATA_SIG_SEMB || sig == SATA_SIG_PM
}

/// The kind of device on a port whose status is `ssts` and signature
/// `sig`: none unless a device is present and the link active.
pub fn get_port_type(ssts: u32, sig: u32) -> (r: Option<SataType>)
    requires
        det_of(ssts) == HBA_PORT_DET_PRESENT && ipm_of(ssts) == HBA_PORT_IPM_ACTIVE ==> known_signature(sig),
    ensures
        det_of(ssts) != HBA_PORT_DET_PRESENT || ipm_of(ssts) != HBA_PORT_IPM_ACTIVE ==> r is None,
        det_of(ssts) == HBA_PORT_DET_PRESENT && ipm_of(ssts) == HBA_PORT_IPM_ACTIVE ==> r == Some(
            if sig == SATA_SIG_ATA {
                SataType::Sata
            } else if sig == SATA_SIG_ATAPI {
                SataType::Satapi
            } else if sig == SATA_SIG_SEMB {
                SataType::Semb
            } else {
                SataType::PM
            },
        ),
{
    let det = (ssts & 0xFu32) as u8;
    let ipm = ((ssts >> 8u32) & 0xFu32) as u8;
    assert(ssts & 0xFu32 == ssts % 16) by (bit_vector);
    assert((ssts >> 8u32) & 0xFu32 == (ssts / 256) % 16) by (bit_vector);
    if det != HBA_PORT_DET_PRESENT {
        return None;
    }
    if ipm != HBA_PORT_IPM_ACTIVE {
        return None;
    }
    if sig == SATA_SIG_ATA {
        Some(SataType::Sata)
    } else if sig == SATA_SIG_ATAPI {
        Some(SataType::Satapi)
    } else if sig == SATA_SIG_SEMB {
        Some(SataType::Semb)
    } else {
        Some(SataType::PM)
    }
}

/// The timer ticks a wait of `timeout_ms` milliseconds takes at `hz` ticks a
/// second, rounded up.
pub open spec fn timeout_ticks_spec(timeout_ms: u64, hz: u64) -> int {
    let p = if timeout_ms * hz > u64::MAX { u64::MAX as int } else { timeout_ms * hz };
    (p + 999) / 1000
}

pub fn timeout_ticks(timeout_ms: u64, hz: u64) -> (r: u64)
    ensures
        r == timeout_ticks_spec(timeout_ms, hz),
{
    let p = match timeout_ms.checked_mul(hz) {
        Some(p) => p,
        None => u64::MAX,
    };
    p / 1000 + if p % 1000 != 0 {
        1
    } else {
        0
    }
}

/// Whether a wait started at tick `start` has run out at tick `now`.
pub fn wait_timed_out(start: u64, now: u64, ticks_needed: u64) -> (r: bool)
    ensures
        r == (now.wrapping_sub(start) >= ticks_needed),
{
    now.wrapping_sub(start) >= ticks_needed
}

/// One step of a bounded wait: done when the condition holds, given up when
/// the time is over, else wait on.
#[derive(Clone, Copy, Debug, PartialEq, Eq, Structural)]
pub enum WaitStep {
    Done,
    TimedOut,
    Again,
}

/// The decision of `wait_with_timeout` after testing the condition once.
pub fn wait_with_timeout(condition: bool, start: u64, now: u64, ticks_needed: u64) -> (r: WaitStep)
    ensures
        condition ==> r is Done,
        !condition && now.wrapping_sub(start) >= ticks_needed ==> r is TimedOut,
        !condition && now.wrapping_sub(start) < ticks_needed ==> r is Again,
{
    if condition {
        return WaitStep::Done;
    }
    if wait_timed_out(start, now, ticks_needed) {
        return WaitStep::TimedOut;
    }
    WaitStep::Again
}

/// The size of the command list and of the received-frame area that
/// follow each other in a port's memory.
pub const COMMAND_LIST_SIZE: u64 = 1024u64;
pub const RECEIVED_FIS_SIZE: u64 = 256u64;

/// The physical addresses of a port's structures in the page at
/// `dma_phys`: the command list, the received frames, the command table.
pub fn port_dma_layout(dma_phys: u64) -> (r: (u64, u64, u64))
    requires
        dma_phys + COMMAND_LIST_SIZE + RECEIVED_FIS_SIZE <= u64::MAX,
    ensures
        r == (dma_phys, (dma_phys + COMMAND_LIST_SIZE) as u64, (dma_phys + COMMAND_LIST_SIZE + RECEIVED_FIS_SIZE) as u64),
{
    let fis = dma_phys + COMMAND_LIST_SIZE;
    (dma_phys, fis, fis + RECEIVED_FIS_SIZE)
}

/// A 64-bit address as its low and high 32-bit halves.
pub fn split_address(addr: u64) -> (r: (u32, u32))
    ensures
        r.0 == addr % 0x1_0000_0000,
        r.1 == addr / 0x1_0000_0000,
{
    assert(addr as u32 == addr % 0x1_0000_0000u64) by (bit_vector);
    assert((addr >> 32u64) as u32 == addr / 0x1_0000_0000u64) by (bit_vector);
    (addr as u32, (addr >> 32u64) as u32)
}

pub const CAP2_BOH: u32 = 1u32;
pub const BOHC_BOS: u32 = 1u32;
pub const BOHC_OOS: u32 = 2u32;
pub const BOHC_BB: u32 = 0x10u32;

/// What the handoff from the firmware asks next.
#[derive(Clone, Copy, Debug, PartialEq, Eq, Structural)]
pub enum HandoffStep {
    /// The controller is ours.
    Owned,
    /// The firmware is cleaning up: wait up to two seconds for it to let go.
    WaitLong,
    /// Wait up to 25 ms for the firmware to let go or to report it is busy.
    WaitShort,
}

/// Whether the controller offers the handoff at all.
pub fn handoff_supported(cap2: u32) -> (r: bool)
    ensures
        r == (cap2 & CAP2_BOH != 0),
{
    cap2 & CAP2_BOH != 0
}

/// The handoff decision from the control register after asking for
/// ownership.
pub fn handoff_step(bohc: u32) -> (r: HandoffStep)
    ensures
        bohc & BOHC_BOS == 0 ==> r is Owned,
        bohc & BOHC_BOS != 0 && bohc & BOHC_BB != 0 ==> r is WaitLong,
        bohc & BOHC_BOS != 0 && bohc & BOHC_BB == 0 ==> r is WaitShort,
{
    if bohc & BOHC_BOS == 0 {
        return HandoffStep::Owned;
    }
    if bohc & BOHC_BB != 0 {
        return HandoffStep::WaitLong;
    }
    HandoffStep::WaitShort
}

/// The number of bytes of whole pages covering `size` bytes.
pub fn bar_mapping_size(size: u64) -> (r: u64)
    requires
        size + 4095 <= u64::MAX,
    ensures
        r == (size + 4095) / 4096 * 4096,
{
    let pages = size / 4096 + if size % 4096 != 0 {
        1
    } else {
        0
    };
    assert(pages == (size + 4095) / 4096) by (nonlinear_arith)
        requires
            pages == size / 4096 + if size % 4096 != 0 { 1int } else { 0int },
    ;
    assert(pages * 4096 <= size + 4095) by (nonlinear_arith)
        requires
            pages == (size + 4095) / 4096,
    ;
    pages * 4096
}

/// The ports present in the implemented-ports mask `pi`, in order.
pub fn implemented_ports(pi: u32) -> (r: Vec<u8>)
    ensures
        forall|i: int| 0 <= i < r@.len() ==> #[trigger] r@[i] < 32,
        forall|p: int| 0 <= p < 32 ==> (r@.contains(p as u8) <==> (pi as int / pow2_int(p)) % 2 == 1),
{
    let mut out: Vec<u8> = Vec::new();
    let mut bits = pi;
    let mut port: u8 = 0;
    while port < 32
        invariant
            port <= 32,
            bits as int == pi as int / pow2_int(port as int),
            forall|i: int| 0 <= i < out@.len() ==> #[trigger] out@[i] < port,
            forall|p: int| 0 <= p < port ==> (out@.contains(p as u8) <==> (pi as int / pow2_int(p)) % 2 == 1),
        decreases 32 - port,
    {
        let ghost before = out@;
        if bits & 1u32 != 0 {
            out.push(port);
        }
        proof {
            assert(bits & 1u32 != 0 <==> bits % 2 == 1) by (bit_vector);
            assert(bits >> 1u32 == bits / 2) by (bit_vector);
            lemma_pow2_div(pi as int, port as int);
            assert forall|p: int| 0 <= p < port + 1 implies (out@.contains(p as u8) <==> (pi as int / pow2_int(p)) % 2
                == 1) by {
                if p < port {
                    if out@.contains(p as u8) {
                        let k = choose|k: int| 0 <= k < out@.len() && out@[k] == p as u8;
                        if k < before.len() {
                            assert(before[k] == p as u8);
                            assert(before.contains(p as u8));
                        }
                    }
                    if before.contains(p as u8) {
                        let k = choose|k: int| 0 <= k < before.len() && before[k] == p as u8;
                        assert(out@[k] == p as u8);
                    }
                } else {
                    if bits % 2 == 1 {
                        assert(out@[out@.len() - 1] == port);
                    } else {
                        if out@.contains(p as u8) {
                            let k = choose|k: int| 0 <= k < out@.len() && out@[k] == p as u8;
                            assert(before[k] < port);
                        }
                    }
                }
            }
        }
        bits = bits >> 1u32;
        port = port + 1;
    }
    out
}

/// `2` to the power `n`.
pub open spec fn pow2_int(n: int) -> int
    decreases n,
{
    if n <= 0 {
        1
    } else {
        2 * pow2_int(n - 1)
    }
}

proof fn lemma_pow2_div(x: int, n: int)
    requires
        x >= 0,
        n >= 0,
    ensures
        x / pow2_int(n + 1) == (x / pow2_int(n)) / 2,
        pow2_int(n) > 0,
    decreases n,
{
    if n > 0 {
        lemma_pow2_div(x, n - 1);
    }
    assert(pow2_int(n + 1) == 2 * pow2_int(n));
    vstd::arithmetic::div_mod::lemma_div_denominator(x, pow2_int(n), 2);
}

/// The command that asks a disk to identify itself: the command-list header
/// fields, the register frame sent to the device, and the single buffer
/// descriptor of the 512-byte answer.
#[derive(Clone, Copy, Debug, PartialEq, Eq, Structural)]
pub struct IdentifyCommand {
    /// The header's flags: the frame's length in double words.
    pub header_flags: u16,
    pub prdt_length: u16,
    /// Type, port-multiplier byte with the command bit, and command of the frame.
    pub fis_type: u8,
    pub pmport_c: u8,
    pub command: u8,
    pub data_base_lower: u32,
    pub data_base_upper: u32,
    /// The byte count of the buffer, less one.
    pub dbc: u32,
}

pub const FIS_TYPE_REG_H2D: u8 = 0x27u8;
pub const FIS_COMMAND: u8 = 0x80u8;
pub const ATA_CMD_IDENTIFY: u8 = 0xECu8;
pub const FIS_REG_HOST_TO_DEV_IN_DWORDS: u16 = 5u16;

/// The IDENTIFY DEVICE command whose answer goes to the buffer at `buf_phys`.
pub fn identify_command(buf_phys: u64) -> (c: IdentifyCommand)
    ensures
        c.header_flags == FIS_REG_HOST_TO_DEV_IN_DWORDS,
        c.prdt_length == 1,
        c.fis_type == FIS_TYPE_REG_H2D,
        c.pmport_c == FIS_COMMAND,
        c.command == ATA_CMD_IDENTIFY,
        c.data_base_lower == buf_phys % 0x1_0000_0000,
        c.data_base_upper == buf_phys / 0x1_0000_0000,
        c.dbc == 511,
{
    let (lower, upper) = split_address(buf_phys);
    IdentifyCommand {
        header_flags: FIS_REG_HOST_TO_DEV_IN_DWORDS,
        prdt_length: 1,
        fis_type: FIS_TYPE_REG_H2D,
        pmport_c: FIS_COMMAND,
        command: ATA_CMD_IDENTIFY,
        data_base_lower: lower,
        data_base_upper: upper,
        dbc: 511,
    }
}

} // verus!
