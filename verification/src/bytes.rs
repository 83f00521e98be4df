//! Numbers as bytes.
use vstd::prelude::*;

verus! {

/// The four bytes of a number, lowest first.
pub open spec fn le_bytes(n: u32) -> Seq<u8> {
    seq![
        (n % 256) as u8,
        ((n / 0x100) % 256) as u8,
        ((n / 0x1_0000) % 256) as u8,
        ((n / 0x100_0000) % 256) as u8,
    ]
}

/// The number that four bytes are, lowest first.
pub open spec fn le_value(b: Seq<u8>) -> u32 {
    (b[0] as int + b[1] as int * 0x100 + b[2] as int * 0x1_0000 + b[3] as int * 0x100_0000) as u32
}

/// The number that four bytes are, highest first.
pub open spec fn be_value(b: Seq<u8>) -> u32 {
    (b[3] as int + b[2] as int * 0x100 + b[1] as int * 0x1_0000 + b[0] as int * 0x100_0000) as u32
}

/// Appends the four bytes of `n`, lowest first.
pub fn push_le(out: &mut Vec<u8>, n: u32)
    ensures
        final(out)@ == old(out)@ + le_bytes(n),
{
    let ghost before = out@;
    out.push((n % 256) as u8);
    out.push(((n / 0x100) % 256) as u8);
    out.push(((n / 0x1_0000) % 256) as u8);
    out.push(((n / 0x100_0000) % 256) as u8);
    assert(out@ =~= before + le_bytes(n));
}

/// Appends the bytes of `bytes[from..to]`.
pub fn push_range(out: &mut Vec<u8>, bytes: &Vec<u8>, from: usize, to: usize)
    requires
        from <= to <= bytes.len(),
    ensures
        final(out)@ == old(out)@ + bytes@.subrange(from as int, to as int),
{
    let ghost before = out@;
    let mut i: usize = from;
    assert(before + bytes@.subrange(from as int, from as int) =~= before);
    while i < to
        invariant
            from <= i <= to <= bytes.len(),
            out@ == before + bytes@.subrange(from as int, i as int),
        decreases to - i,
    {
        out.push(bytes[i]);
        i = i + 1;
        assert(out@ =~= before + bytes@.subrange(from as int, i as int));
    }
}

/// The bytes of `bytes[from..to]`.
pub fn copy_of_range(bytes: &Vec<u8>, from: usize, to: usize) -> (r: Vec<u8>)
    requires
        from <= to <= bytes.len(),
    ensures
        r@ == bytes@.subrange(from as int, to as int),
{
    let mut r: Vec<u8> = Vec::new();
    push_range(&mut r, bytes, from, to);
    assert(r@ =~= bytes@.subrange(from as int, to as int));
    r
}

/// The number in the four bytes at `at`, lowest first.
pub fn read_le(bytes: &Vec<u8>, at: usize) -> (r: u32)
    requires
        at + 4 <= bytes.len(),
    ensures
        r == le_value(bytes@.subrange(at as int, at + 4)),
{
    (bytes[at] as u32) + (bytes[at + 1] as u32) * 0x100 + (bytes[at + 2] as u32) * 0x1_0000 + (
    bytes[at + 3] as u32) * 0x100_0000
}

/// The number in the four bytes at `at`, highest first.
pub fn read_be(bytes: &Vec<u8>, at: usize) -> (r: u32)
    requires
        at + 4 <= bytes.len(),
    ensures
        r == be_value(bytes@.subrange(at as int, at + 4)),
{
    (bytes[at + 3] as u32) + (bytes[at + 2] as u32) * 0x100 + (bytes[at + 1] as u32) * 0x1_0000 + (
    bytes[at] as u32) * 0x100_0000
}

/// A number reads back from its bytes.
pub proof fn le_bytes_read_back(n: u32)
    ensures
        le_bytes(n).len() == 4,
        le_value(le_bytes(n)) == n,
{
    let a = n as int % 256;
    let b = (n as int / 0x100) % 256;
    let c = (n as int / 0x1_0000) % 256;
    let d = (n as int / 0x100_0000) % 256;
    assert(n == a + b * 0x100 + c * 0x1_0000 + d * 0x100_0000);
}

}
