//! The kernel's symbol table, for naming return addresses in backtraces.

use vstd::prelude::*;

verus! {

/// A function of the kernel: its start address and its name.
#[derive(Clone, Copy, Debug)]
pub struct KernelSymbol {
    pub addr: usize,
    pub name: &'static str,
}

/// The symbols are in increasing order of address.
pub open spec fn sorted_symbols(s: Seq<KernelSymbol>) -> bool {
    forall|i: int, j: int| 0 <= i <= j < s.len() ==> s[i].addr <= s[j].addr
}

/// The number of symbols that start at or before `ip`.
pub open spec fn starts_before(s: Seq<KernelSymbol>, ip: int, k: int) -> bool {
    &&& 0 <= k <= s.len()
    &&& forall|i: int| 0 <= i < k ==> s[i].addr <= ip
    &&& forall|i: int| k <= i < s.len() ==> s[i].addr > ip
}

/// The number of symbols that start at or before `ip`, counted from the end.
pub open spec fn count_le(s: Seq<KernelSymbol>, ip: int) -> int
    decreases s.len(),
{
    if s.len() == 0 {
        0
    } else if s.last().addr <= ip {
        s.len() as int
    } else {
        count_le(s.drop_last(), ip)
    }
}

proof fn lemma_count_le(s: Seq<KernelSymbol>, ip: int, k: int)
    requires
        starts_before(s, ip, k),
    ensures
        count_le(s, ip) == k,
    decreases s.len(),
{
    if s.len() > 0 && k < s.len() {
        assert(starts_before(s.drop_last(), ip, k));
        lemma_count_le(s.drop_last(), ip, k);
    }
}

/// The symbol a return address `addr` falls in (the call is at the byte
/// before it) and the offset of that byte into it; none before the first.
pub fn lookup_symbol(symbols: &[KernelSymbol], addr: usize) -> (r: Option<(&'static str, usize)>)
    requires
        sorted_symbols(symbols@),
    ensures
        ({
            let ip: int = if addr == 0 { 0 } else { addr - 1 };
            let k = count_le(symbols@, ip);
            r == if k == 0 {
                None
            } else {
                Some((symbols@[k - 1].name, (ip - symbols@[k - 1].addr) as usize))
            }
        }),
{
    let ip = if addr == 0 {
        0
    } else {
        addr - 1
    };
    let mut lo: usize = 0;
    let mut hi: usize = symbols.len();
    while lo < hi
        invariant
            sorted_symbols(symbols@),
            0 <= lo <= hi <= symbols@.len(),
            forall|i: int| 0 <= i < lo ==> symbols@[i].addr <= ip,
            forall|i: int| hi <= i < symbols@.len() ==> symbols@[i].addr > ip,
        decreases hi - lo,
    {
        let mid = lo + (hi - lo) / 2;
        if symbols[mid].addr <= ip {
            lo = mid + 1;
        } else {
            hi = mid;
        }
    }
    proof {
        let sip: int = if addr == 0 { 0 } else { addr - 1 };
        assert(sip == ip);
        lemma_count_le(symbols@, sip, lo as int);
    }
    if lo == 0 {
        return None;
    }
    let sym = &symbols[lo - 1];
    Some((sym.name, ip - sym.addr))
}

} // verus!
