//! The ustar archive the kernel boots with: header fields, octal numbers and
//! the walk over the archive's headers.

use vstd::prelude::*;
use vstd::slice::slice_subrange;
use vstd::utf8::{valid_utf8, decode_utf8, encode_utf8_decode_utf8};
use vstd::string::StringSliceAdditionalSpecFns;

verus! {

/// Size of a tar block: headers and file data are laid out in blocks of this size.
pub const BLOCK_SIZE: usize = 512usize;

#[derive(Debug, Clone, Copy, PartialEq, Eq)]
pub enum TarError {
    InvalidUtf8,
    InvalidOctal,
    NoEnd,
}

pub open spec fn is_octal_digit(b: u8) -> bool {
    48 <= b <= 55
}

pub open spec fn is_octal_end(b: u8) -> bool {
    b == 0 || b == 32
}

/// Octal number parsing from position `i` with the value `acc` so far: digits
/// accumulate, a NUL or a space ends the number, anything else is an error.
pub open spec fn octal_from(s: Seq<u8>, i: int, acc: int) -> Option<int>
    decreases s.len() - i,
{
    if i < 0 || i >= s.len() {
        Some(acc)
    } else if is_octal_end(s[i]) {
        Some(acc)
    } else if is_octal_digit(s[i]) {
        octal_from(s, i + 1, acc * 8 + (s[i] - 48))
    } else {
        None
    }
}

/// The value of the field `s` read as an octal number.
pub open spec fn parse_octal_spec(s: Seq<u8>) -> Option<int> {
    octal_from(s, 0, 0)
}

/// The value of the run of octal digits that starts at position `i`, ignoring what follows it.
pub open spec fn octal_run(s: Seq<u8>, i: int, acc: int) -> int
    decreases s.len() - i,
{
    if i < 0 || i >= s.len() {
        acc
    } else if is_octal_digit(s[i]) {
        octal_run(s, i + 1, acc * 8 + (s[i] - 48))
    } else {
        acc
    }
}

pub open spec fn pow8(k: nat) -> int
    decreases k,
{
    if k == 0 { 1 } else { 8 * pow8((k - 1) as nat) }
}

proof fn lemma_pow8_pos(k: nat)
    ensures
        pow8(k) >= 1,
    decreases k,
{
    if k > 0 {
        lemma_pow8_pos((k - 1) as nat);
    }
}

proof fn lemma_octal_from_is_run(s: Seq<u8>, i: int, acc: int, v: int)
    requires
        octal_from(s, i, acc) == Some(v),
    ensures
        v == octal_run(s, i, acc),
    decreases s.len() - i,
{
    if 0 <= i < s.len() && !is_octal_end(s[i]) && is_octal_digit(s[i]) {
        lemma_octal_from_is_run(s, i + 1, acc * 8 + (s[i] - 48), v);
    }
}

proof fn lemma_octal_run_grows(s: Seq<u8>, i: int, acc: int)
    requires
        acc >= 0,
    ensures
        octal_run(s, i, acc) >= acc,
    decreases s.len() - i,
{
    if 0 <= i < s.len() && is_octal_digit(s[i]) {
        lemma_octal_run_grows(s, i + 1, acc * 8 + (s[i] - 48));
    }
}

proof fn lemma_octal_run_bound(s: Seq<u8>, i: int, acc: int)
    requires
        0 <= i <= s.len(),
        acc >= 0,
    ensures
        octal_run(s, i, acc) < (acc + 1) * pow8((s.len() - i) as nat),
    decreases s.len() - i,
{
    lemma_pow8_pos((s.len() - i) as nat);
    if i < s.len() && is_octal_digit(s[i]) {
        let next = acc * 8 + (s[i] - 48);
        lemma_octal_run_bound(s, i + 1, next);
        let k = (s.len() - i - 1) as nat;
        assert(pow8((s.len() - i) as nat) == 8 * pow8(k));
        assert((next + 1) * pow8(k) <= (acc + 1) * (8 * pow8(k))) by (nonlinear_arith)
            requires
                next + 1 <= acc * 8 + 8,
                pow8(k) >= 1;
    } else {
        assert(acc < (acc + 1) * pow8((s.len() - i) as nat)) by (nonlinear_arith)
            requires
                pow8((s.len() - i) as nat) >= 1,
                acc >= 0;
    }
}

/// A twelve-byte field never holds an octal number too large for a `u64`.
proof fn lemma_octal_12_fits(s: Seq<u8>)
    requires
        s.len() == 12,
    ensures
        octal_run(s, 0, 0) < 68719476736,
{
    lemma_octal_run_bound(s, 0, 0);
    assert(pow8(12) == 68719476736) by {
        reveal_with_fuel(pow8, 13);
    }
}

/// Parses the octal number at the start of `buf`: digits up to a NUL, a space
/// or the end of the field.
pub fn parse_octal(buf: &[u8]) -> (r: Result<u64, TarError>)
    requires
        octal_run(buf@, 0, 0) <= u64::MAX,
    ensures
        match r {
            Ok(v) => parse_octal_spec(buf@) == Some(v as int),
            Err(e) => e == TarError::InvalidOctal && parse_octal_spec(buf@) is None,
        },
{
    let mut res: u64 = 0;
    let mut i: usize = 0;
    while i < buf.len()
        invariant
            i <= buf@.len(),
            octal_from(buf@, 0, 0) == octal_from(buf@, i as int, res as int),
            octal_run(buf@, 0, 0) == octal_run(buf@, i as int, res as int),
            octal_run(buf@, 0, 0) <= u64::MAX,
        decreases buf@.len() - i,
    {
        let b = buf[i];
        if b == 0 || b == 32 {
            return Ok(res);
        }
        if 48 <= b && b <= 55 {
            proof {
                lemma_octal_run_grows(buf@, i + 1, res * 8 + (b - 48));
            }
            res = res * 8 + (b - 48) as u64;
        } else {
            return Err(TarError::InvalidOctal);
        }
        i = i + 1;
    }
    Ok(res)
}

/// Position of the first NUL byte at or after `i`, or the length when there is none.
pub open spec fn nul_pos_from(s: Seq<u8>, i: int) -> int
    decreases s.len() - i,
{
    if i < 0 || i >= s.len() {
        s.len() as int
    } else if s[i] == 0 {
        i
    } else {
        nul_pos_from(s, i + 1)
    }
}

/// The field `s` without the NUL byte that ends it and what follows.
pub open spec fn trim_nul_spec(s: Seq<u8>) -> Seq<u8> {
    s.subrange(0, nul_pos_from(s, 0))
}

proof fn lemma_nul_pos_range(s: Seq<u8>, i: int)
    requires
        0 <= i <= s.len(),
    ensures
        i <= nul_pos_from(s, i) <= s.len(),
    decreases s.len() - i,
{
    if i < s.len() && s[i] != 0 {
        lemma_nul_pos_range(s, i + 1);
    }
}

/// The bytes of `buf` before its first NUL byte.
pub fn trim_right_nul(buf: &[u8]) -> (r: &[u8])
    ensures
        r@ == trim_nul_spec(buf@),
{
    let mut end_pos: usize = 0;
    while end_pos < buf.len()
        invariant
            end_pos <= buf@.len(),
            nul_pos_from(buf@, 0) == nul_pos_from(buf@, end_pos as int),
        decreases buf@.len() - end_pos,
    {
        if buf[end_pos] == 0 {
            proof {
                lemma_nul_pos_range(buf@, end_pos as int);
            }
            return slice_subrange(buf, 0, end_pos);
        }
        end_pos = end_pos + 1;
    }
    proof {
        lemma_nul_pos_range(buf@, end_pos as int);
    }
    slice_subrange(buf, 0, end_pos)
}

/// `core::str::from_utf8`: the bytes as a string slice when they are valid UTF-8.
#[verifier::external_body]
fn str_from_utf8(v: &[u8]) -> (r: Option<&str>)
    ensures
        match r {
            Some(s) => valid_utf8(v@) && s.spec_bytes() == v@,
            None => !valid_utf8(v@),
        },
{
    core::str::from_utf8(v).ok()
}

/// The text of a UTF-8 field, or `InvalidUtf8`.
pub open spec fn field_text(s: Seq<u8>) -> Result<Seq<char>, TarError> {
    if valid_utf8(s) {
        Ok(decode_utf8(s))
    } else {
        Err(TarError::InvalidUtf8)
    }
}

fn text_of(v: &[u8]) -> (r: Result<&str, TarError>)
    ensures
        match r {
            Ok(s) => field_text(v@) == Ok::<Seq<char>, TarError>(s@),
            Err(e) => field_text(v@) == Err::<Seq<char>, TarError>(e),
        },
{
    match str_from_utf8(v) {
        Some(s) => {
            proof {
                encode_utf8_decode_utf8(s@);
            }
            Ok(s)
        },
        None => Err(TarError::InvalidUtf8),
    }
}

/// A header block of the archive, together with everything that follows it.
pub struct TarHeader<'a> {
    block: &'a [u8],
}

pub open spec fn filename_field(b: Seq<u8>) -> Seq<u8> {
    b.subrange(0, 100)
}

pub open spec fn mode_field(b: Seq<u8>) -> Seq<u8> {
    b.subrange(100, 108)
}

pub open spec fn size_field(b: Seq<u8>) -> Seq<u8> {
    b.subrange(124, 136)
}

pub open spec fn prefix_field(b: Seq<u8>) -> Seq<u8> {
    b.subrange(345, 500)
}

/// The full name of an entry: the ustar prefix, a slash and the name, or the
/// name alone when the prefix is empty.
pub open spec fn header_filename(b: Seq<u8>) -> Result<Seq<char>, TarError> {
    match field_text(trim_nul_spec(filename_field(b))) {
        Err(e) => Err(e),
        Ok(name) => match field_text(trim_nul_spec(prefix_field(b))) {
            Err(e) => Err(e),
            Ok(prefix) => if prefix.len() == 0 {
                Ok(name)
            } else {
                Ok(prefix + seq!['/'] + name)
            },
        },
    }
}

impl<'a> TarHeader<'a> {
    /// The header block and the bytes after it.
    pub closed spec fn bytes(&self) -> Seq<u8> {
        self.block@
    }

    pub closed spec fn wf(&self) -> bool {
        self.block@.len() >= BLOCK_SIZE
    }

    /// The header that starts at the beginning of `block`.
    pub fn at(block: &'a [u8]) -> (r: Option<TarHeader<'a>>)
        ensures
            match r {
                Some(h) => h.wf() && h.bytes() == block@,
                None => block@.len() < BLOCK_SIZE,
            },
    {
        if block.len() >= BLOCK_SIZE {
            Some(TarHeader { block })
        } else {
            None
        }
    }

    /// The entry's full name.
    pub fn get_filename(&self) -> (r: Result<String, TarError>)
        requires
            self.wf(),
        ensures
            match r {
                Ok(s) => header_filename(self.bytes()) == Ok::<Seq<char>, TarError>(s@),
                Err(e) => header_filename(self.bytes()) == Err::<Seq<char>, TarError>(e),
            },
    {
        let filename = match text_of(trim_right_nul(slice_subrange(self.block, 0, 100))) {
            Ok(t) => t,
            Err(e) => return Err(e),
        };
        let prefix = match text_of(trim_right_nul(slice_subrange(self.block, 345, 500))) {
            Ok(t) => t,
            Err(e) => return Err(e),
        };
        proof {
            assert(filename_field(self.bytes()) == self.block@.subrange(0, 100));
            assert(prefix_field(self.bytes()) == self.block@.subrange(345, 500));
        }
        if prefix.is_empty() {
            let r = String::from_str(filename);
            assert(r@ == filename@);
            Ok(r)
        } else {
            let mut res = String::from_str(prefix);
            let slash = "/";
            proof {
                reveal_strlit("/");
            }
            res.append(slash);
            res.append(filename);
            assert(res@ == prefix@ + seq!['/'] + filename@);
            Ok(res)
        }
    }

    /// The size of the entry's data, in bytes.
    pub fn size(&self) -> (r: Result<u64, TarError>)
        requires
            self.wf(),
        ensures
            match r {
                Ok(v) => parse_octal_spec(size_field(self.bytes())) == Some(v as int),
                Err(e) => e == TarError::InvalidOctal && parse_octal_spec(size_field(self.bytes())) is None,
            },
    {
        let field = slice_subrange(self.block, 124, 136);
        proof {
            lemma_octal_12_fits(field@);
        }
        parse_octal(field)
    }

    /// The permission bits of the entry.
    pub fn get_mode(&self) -> (r: Result<u32, TarError>)
        requires
            self.wf(),
        ensures
            match r {
                Ok(v) => parse_octal_spec(mode_field(self.bytes())) == Some(v as int),
                Err(e) => e == TarError::InvalidOctal && parse_octal_spec(mode_field(self.bytes())) is None,
            },
    {
        let field = slice_subrange(self.block, 100, 108);
        proof {
            lemma_octal_run_bound(field@, 0, 0);
            assert(pow8(8) == 16777216) by {
                reveal_with_fuel(pow8, 9);
            }
        }
        match parse_octal(field) {
            Ok(v) => {
                proof {
                    lemma_octal_from_is_run(field@, 0, 0, v as int);
                }
                Ok(v as u32)
            },
            Err(e) => Err(e),
        }
    }

    /// The entry kind: `'0'` or NUL for a regular file, `'5'` for a directory.
    pub fn get_typeflag(&self) -> (r: u8)
        requires
            self.wf(),
        ensures
            r == self.bytes()[156],
    {
        self.block[156]
    }

    /// The data of the entry: the `size` bytes that follow the header block.
    pub fn content(&self) -> (r: Result<&'a [u8], TarError>)
        requires
            self.wf(),
        ensures
            match r {
                Ok(c) => exists|size: int| {
                    &&& parse_octal_spec(size_field(self.bytes())) == Some(size)
                    &&& BLOCK_SIZE + size <= self.bytes().len()
                    &&& c@ == self.bytes().subrange(BLOCK_SIZE as int, BLOCK_SIZE + size)
                },
                Err(e) => match parse_octal_spec(size_field(self.bytes())) {
                    None => e == TarError::InvalidOctal,
                    Some(size) => e == TarError::NoEnd && BLOCK_SIZE + size > self.bytes().len(),
                },
            },
    {
        let size = match self.size() {
            Ok(s) => s,
            Err(e) => return Err(e),
        };
        if size > (self.block.len() - BLOCK_SIZE) as u64 {
            return Err(TarError::NoEnd);
        }
        Ok(slice_subrange(self.block, BLOCK_SIZE, BLOCK_SIZE + size as usize))
    }
}

/// Where the header after the one at `off` starts: one block for the header,
/// then the data rounded up to whole blocks.
pub open spec fn next_header_offset(off: int, size: int) -> int {
    off + ((size / 512) + 1) * 512 + (if size % 512 != 0 { 512int } else { 0int })
}

/// The offsets of the headers from `off` on, up to the first header whose name
/// is empty. An archive that ends before that header is `NoEnd`.
pub open spec fn headers_from(content: Seq<u8>, off: int) -> Result<Seq<int>, TarError>
    decreases content.len() - off,
{
    if off < 0 || off + 512 >= content.len() {
        Err(TarError::NoEnd)
    } else if content[off] == 0 {
        Ok(Seq::<int>::empty())
    } else {
        match parse_octal_spec(content.subrange(off + 124, off + 136)) {
            None => Err(TarError::InvalidOctal),
            Some(size) => {
                let next = next_header_offset(off, size);
                if off < next && next < content.len() {
                    match headers_from(content, next) {
                        Ok(rest) => Ok(seq![off] + rest),
                        Err(e) => Err(e),
                    }
                } else {
                    Err(TarError::NoEnd)
                }
            },
        }
    }
}

/// Every header of an archive sits on a block boundary, after the previous
/// one: the offsets found from a block boundary are multiples of the block
/// size and increase.
pub proof fn lemma_headers_on_blocks(content: Seq<u8>, off: int)
    requires
        off >= 0,
        off % 512 == 0,
    ensures
        headers_from(content, off) matches Ok(offs) ==> {
            &&& forall|k: int| 0 <= k < offs.len() ==> (#[trigger] offs[k]) % 512 == 0 && offs[k] >= off
            &&& forall|i: int, j: int| 0 <= i < j < offs.len() ==> offs[i] < offs[j]
        },
    decreases content.len() - off,
{
    if off + 512 < content.len() && content[off] != 0 {
        if let Some(size) = parse_octal_spec(content.subrange(off + 124, off + 136)) {
            let next = next_header_offset(off, size);
            if off < next && next < content.len() {
                assert(size >= 0) by {
                    lemma_octal_nonneg(content.subrange(off + 124, off + 136), 0, 0, size);
                }
                let q = size / 512;
                assert(q >= 0);
                assert(((q + 1) * 512) % 512 == 0) by (nonlinear_arith);
                assert(next % 512 == 0) by (nonlinear_arith)
                    requires
                        next == off + (q + 1) * 512 + (if size % 512 != 0 { 512int } else { 0int }),
                        off % 512 == 0,
                        ((q + 1) * 512) % 512 == 0,
                ;
                lemma_headers_on_blocks(content, next);
                if let Ok(rest) = headers_from(content, next) {
                    let offs = seq![off] + rest;
                    assert forall|k: int| 0 <= k < offs.len() implies (#[trigger] offs[k]) % 512 == 0 && offs[k] >= off by {
                        if k > 0 {
                            assert(offs[k] == rest[k - 1]);
                        }
                    }
                    assert forall|i: int, j: int| 0 <= i < j < offs.len() implies offs[i] < offs[j] by {
                        if i > 0 {
                            assert(offs[i] == rest[i - 1] && offs[j] == rest[j - 1]);
                        } else {
                            assert(offs[j] == rest[j - 1]);
                        }
                    }
                }
            }
        }
    }
}

/// The headers `hs` are the blocks at the offsets `offs` of `content`.
pub open spec fn headers_at<'a>(content: Seq<u8>, offs: Seq<int>, hs: Seq<TarHeader<'a>>) -> bool {
    &&& hs.len() == offs.len()
    &&& forall|i: int| 0 <= i < hs.len() ==> {
        &&& (#[trigger] hs[i]).wf()
        &&& hs[i].bytes() == content.subrange(offs[i], content.len() as int)
    }
}

proof fn lemma_octal_nonneg(s: Seq<u8>, i: int, acc: int, v: int)
    requires
        acc >= 0,
        octal_from(s, i, acc) == Some(v),
    ensures
        v >= 0,
    decreases s.len() - i,
{
    if 0 <= i < s.len() && !is_octal_end(s[i]) && is_octal_digit(s[i]) {
        lemma_octal_nonneg(s, i + 1, acc * 8 + (s[i] - 48), v);
    }
}

/// Walks the archive from its first block and collects every header up to the
/// end marker.
fn get_headers<'a>(content: &'a [u8]) -> (r: Result<Vec<TarHeader<'a>>, TarError>)
    ensures
        match headers_from(content@, 0) {
            Ok(offs) => r matches Ok(hs) && headers_at(content@, offs, hs@),
            Err(e) => r == Err::<Vec<TarHeader<'a>>, TarError>(e),
        },
{
    let mut headers: Vec<TarHeader<'a>> = Vec::new();
    let ghost mut offs: Seq<int> = Seq::empty();
    let mut off: usize = 0;
    loop
        invariant
            off <= content@.len(),
            headers_at(content@, offs, headers@),
            headers_from(content@, 0) == match headers_from(content@, off as int) {
                Ok(rest) => Ok(offs + rest),
                Err(e) => Err(e),
            },
        decreases content@.len() - off,
    {
        if content.len() - off <= BLOCK_SIZE {
            return Err(TarError::NoEnd);
        }
        let block = slice_subrange(content, off, content.len());
        if content[off] == 0 {
            proof {
                assert(offs + Seq::<int>::empty() =~= offs);
            }
            return Ok(headers);
        }
        let size_field_bytes = slice_subrange(content, off + 124, off + 136);
        proof {
            lemma_octal_12_fits(size_field_bytes@);
        }
        let size = match parse_octal(size_field_bytes) {
            Ok(v) => v,
            Err(e) => return Err(e),
        };
        proof {
            lemma_octal_from_is_run(size_field_bytes@, 0, 0, size as int);
        }
        let span: u64 = ((size / 512) + 1) * 512 + if size % 512 != 0 { 512u64 } else { 0u64 };
        let next: u64 = match (off as u64).checked_add(span) {
            Some(n) => n,
            None => return Err(TarError::NoEnd),
        };
        if next >= content.len() as u64 {
            return Err(TarError::NoEnd);
        }
        headers.push(TarHeader { block });
        proof {
            let old_offs = offs;
            offs = offs.push(off as int);
            assert forall|rest: Seq<int>| old_offs + (seq![off as int] + rest) =~= offs + rest by {}
        }
        off = next as usize;
    }
}

/// The boot archive and its headers, in archive order.
pub struct TarInitrd<'a> {
    content: &'a [u8],
    pub headers: Vec<TarHeader<'a>>,
}

impl<'a> TarInitrd<'a> {
    pub closed spec fn content_bytes(&self) -> Seq<u8> {
        self.content@
    }

    pub closed spec fn header_seq(&self) -> Seq<TarHeader<'a>> {
        self.headers@
    }

    /// The number of entries.
    pub fn header_count(&self) -> (r: usize)
        ensures
            r == self.header_seq().len(),
    {
        self.headers.len()
    }

    /// The header of entry `i`.
    pub fn header(&self, i: usize) -> (r: &TarHeader<'a>)
        requires
            i < self.header_seq().len(),
        ensures
            *r == self.header_seq()[i as int],
    {
        &self.headers[i]
    }

    pub fn new(content: &'a [u8]) -> (r: Result<TarInitrd<'a>, TarError>)
        ensures
            match headers_from(content@, 0) {
                Ok(offs) => r matches Ok(t) && t.content_bytes() == content@ && headers_at(content@, offs, t.header_seq()),
                Err(e) => r is Err && r->Err_0 == e,
            },
    {
        match get_headers(content) {
            Ok(headers) => Ok(TarInitrd { content, headers }),
            Err(e) => Err(e),
        }
    }
}

} // verus!
