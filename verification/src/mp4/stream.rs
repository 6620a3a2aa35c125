//! Big-endian reads from an in-memory stream: the bytes of a file, and the
//! position a reader has reached in them. A position may lie past the end, as
//! after a seek; a read there fails as a file read would.
use vstd::prelude::*;
use crate::mp4::error::Error;

verus! {

/// `n` bytes can be read at `p`.
pub open spec fn fits(d: Seq<u8>, p: int, n: int) -> bool {
    0 <= p && p + n <= d.len()
}

pub open spec fn be16(d: Seq<u8>, p: int) -> u16 {
    (d[p] * 0x100 + d[p + 1]) as u16
}

pub open spec fn be24(d: Seq<u8>, p: int) -> u32 {
    (d[p] * 0x1_0000 + d[p + 1] * 0x100 + d[p + 2]) as u32
}

pub open spec fn be32(d: Seq<u8>, p: int) -> u32 {
    (be16(d, p) * 0x1_0000 + be16(d, p + 2)) as u32
}

pub open spec fn be48(d: Seq<u8>, p: int) -> u64 {
    (be16(d, p) * 0x1_0000_0000 + be32(d, p + 2)) as u64
}

pub open spec fn be64(d: Seq<u8>, p: int) -> u64 {
    (be32(d, p) * 0x1_0000_0000 + be32(d, p + 4)) as u64
}

pub fn read_u8(data: &[u8], pos: &mut u64) -> (r: Result<u8, Error>)
    ensures
        match r {
            Ok(v) => fits(data@, *old(pos) as int, 1) && v == data@[*old(pos) as int] && *final(pos)
                == *old(pos) + 1,
            Err(e) => !fits(data@, *old(pos) as int, 1) && e == Error::Io,
        },
{
    if *pos >= data.len() as u64 {
        return Err(Error::Io);
    }
    let v = data[*pos as usize];
    *pos = *pos + 1;
    Ok(v)
}

pub fn read_u16(data: &[u8], pos: &mut u64) -> (r: Result<u16, Error>)
    ensures
        match r {
            Ok(v) => fits(data@, *old(pos) as int, 2) && v == be16(data@, *old(pos) as int)
                && *final(pos) == *old(pos) + 2,
            Err(e) => !fits(data@, *old(pos) as int, 2) && e == Error::Io,
        },
{
    if *pos >= data.len() as u64 || data.len() as u64 - *pos < 2 {
        return Err(Error::Io);
    }
    let i = *pos as usize;
    let v = (data[i] as u16) * 0x100 + (data[i + 1] as u16);
    *pos = *pos + 2;
    Ok(v)
}

pub fn read_u24(data: &[u8], pos: &mut u64) -> (r: Result<u32, Error>)
    ensures
        match r {
            Ok(v) => fits(data@, *old(pos) as int, 3) && v == be24(data@, *old(pos) as int)
                && *final(pos) == *old(pos) + 3,
            Err(e) => !fits(data@, *old(pos) as int, 3) && e == Error::Io,
        },
{
    if *pos >= data.len() as u64 || data.len() as u64 - *pos < 3 {
        return Err(Error::Io);
    }
    let i = *pos as usize;
    let v = (data[i] as u32) * 0x1_0000 + (data[i + 1] as u32) * 0x100 + (data[i + 2] as u32);
    *pos = *pos + 3;
    Ok(v)
}

pub fn read_u32(data: &[u8], pos: &mut u64) -> (r: Result<u32, Error>)
    ensures
        match r {
            Ok(v) => fits(data@, *old(pos) as int, 4) && v == be32(data@, *old(pos) as int)
                && *final(pos) == *old(pos) + 4,
            Err(e) => !fits(data@, *old(pos) as int, 4) && e == Error::Io,
        },
{
    if *pos >= data.len() as u64 || data.len() as u64 - *pos < 4 {
        return Err(Error::Io);
    }
    let i = *pos as usize;
    let hi = (data[i] as u32) * 0x100 + (data[i + 1] as u32);
    let lo = (data[i + 2] as u32) * 0x100 + (data[i + 3] as u32);
    *pos = *pos + 4;
    Ok(hi * 0x1_0000 + lo)
}

pub fn read_u48(data: &[u8], pos: &mut u64) -> (r: Result<u64, Error>)
    ensures
        match r {
            Ok(v) => fits(data@, *old(pos) as int, 6) && v == be48(data@, *old(pos) as int)
                && *final(pos) == *old(pos) + 6,
            Err(e) => !fits(data@, *old(pos) as int, 6) && e == Error::Io,
        },
{
    if *pos >= data.len() as u64 || data.len() as u64 - *pos < 6 {
        return Err(Error::Io);
    }
    let hi = read_u16(data, pos)?;
    let lo = read_u32(data, pos)?;
    Ok((hi as u64) * 0x1_0000_0000 + (lo as u64))
}

pub fn read_u64(data: &[u8], pos: &mut u64) -> (r: Result<u64, Error>)
    ensures
        match r {
            Ok(v) => fits(data@, *old(pos) as int, 8) && v == be64(data@, *old(pos) as int)
                && *final(pos) == *old(pos) + 8,
            Err(e) => !fits(data@, *old(pos) as int, 8) && e == Error::Io,
        },
{
    if *pos >= data.len() as u64 || data.len() as u64 - *pos < 8 {
        return Err(Error::Io);
    }
    let hi = read_u32(data, pos)?;
    let lo = read_u32(data, pos)?;
    Ok((hi as u64) * 0x1_0000_0000 + (lo as u64))
}

/// Copies the `n` bytes at the position out, and moves past them.
pub fn read_bytes(data: &[u8], pos: &mut u64, n: u64) -> (r: Result<Vec<u8>, Error>)
    ensures
        match r {
            Ok(v) => fits(data@, *old(pos) as int, n as int) && v@ == data@.subrange(
                *old(pos) as int,
                *old(pos) + n,
            ) && *final(pos) == *old(pos) + n,
            Err(e) => !fits(data@, *old(pos) as int, n as int) && e == Error::Io,
        },
{
    if *pos > data.len() as u64 || data.len() as u64 - *pos < n {
        return Err(Error::Io);
    }
    let start = *pos as usize;
    let stop = start + n as usize;
    let v = vstd::slice::slice_to_vec(vstd::slice::slice_subrange(data, start, stop));
    *pos = *pos + n;
    Ok(v)
}

/// Moves the position `n` bytes on, as a relative seek does. It fails only
/// where the position would no longer fit in 64 bits.
pub fn skip_bytes(data: &[u8], pos: &mut u64, n: u64) -> (r: Result<(), Error>)
    ensures
        match r {
            Ok(_) => *old(pos) + n <= u64::MAX && *final(pos) == *old(pos) + n,
            Err(e) => *old(pos) + n > u64::MAX && *old(pos) + n > data@.len() && e == Error::Io,
        },
{
    let len = data.len() as u64;
    if *pos > u64::MAX - n {
        return Err(Error::Io);
    }
    *pos = *pos + n;
    Ok(())
}

/// `n` 32-bit numbers stored one after another at `p`.
pub open spec fn be32s(d: Seq<u8>, p: int, n: nat) -> Seq<u32> {
    Seq::new(n, |i: int| be32(d, p + 4 * i))
}

/// `n` 64-bit numbers stored one after another at `p`.
pub open spec fn be64s(d: Seq<u8>, p: int, n: nat) -> Seq<u64> {
    Seq::new(n, |i: int| be64(d, p + 8 * i))
}

/// Reads `count` 32-bit numbers.
pub fn read_u32s(data: &[u8], pos: &mut u64, count: u32) -> (r: Result<Vec<u32>, Error>)
    ensures
        match r {
            Ok(v) => (count == 0 || fits(data@, *old(pos) as int, 4 * count)) && v@ == be32s(
                data@,
                *old(pos) as int,
                count as nat,
            ) && *final(pos) == *old(pos) + 4 * count,
            Err(e) => count > 0 && !fits(data@, *old(pos) as int, 4 * count) && e == Error::Io,
        },
{
    let ghost p = *pos as int;
    let mut entries: Vec<u32> = Vec::new();
    let mut i: u32 = 0;
    while i < count
        invariant
            p == *old(pos) as int,
            i <= count,
            *pos == p + 4 * i,
            i > 0 ==> fits(data@, p, 4 * i),
            entries@ =~= be32s(data@, p, i as nat),
        decreases count - i,
    {
        let v = read_u32(data, pos)?;
        entries.push(v);
        i = i + 1;
    }
    Ok(entries)
}

/// Reads `count` 64-bit numbers.
pub fn read_u64s(data: &[u8], pos: &mut u64, count: u32) -> (r: Result<Vec<u64>, Error>)
    ensures
        match r {
            Ok(v) => (count == 0 || fits(data@, *old(pos) as int, 8 * count)) && v@ == be64s(
                data@,
                *old(pos) as int,
                count as nat,
            ) && *final(pos) == *old(pos) + 8 * count,
            Err(e) => count > 0 && !fits(data@, *old(pos) as int, 8 * count) && e == Error::Io,
        },
{
    let ghost p = *pos as int;
    let mut entries: Vec<u64> = Vec::new();
    let mut i: u32 = 0;
    while i < count
        invariant
            p == *old(pos) as int,
            i <= count,
            *pos == p + 8 * i,
            i > 0 ==> fits(data@, p, 8 * i),
            entries@ =~= be64s(data@, p, i as nat),
        decreases count - i,
    {
        let v = read_u64(data, pos)?;
        entries.push(v);
        i = i + 1;
    }
    Ok(entries)
}

/// `a - b`, or 0 when `b` is the larger: `u64::saturating_sub`.
pub open spec fn sat_sub(a: int, b: int) -> int {
    if a > b {
        a - b
    } else {
        0
    }
}

/// Reads `N` bytes into an array.
pub fn read_array<const N: usize>(data: &[u8], pos: &mut u64) -> (r: Result<[u8; N], Error>)
    ensures
        match r {
            Ok(a) => fits(data@, *old(pos) as int, N as int) && a@ == data@.subrange(
                *old(pos) as int,
                *old(pos) + N,
            ) && *final(pos) == *old(pos) + N,
            Err(e) => !fits(data@, *old(pos) as int, N as int) && e == Error::Io,
        },
{
    if *pos > data.len() as u64 || data.len() as u64 - *pos < N as u64 {
        return Err(Error::Io);
    }
    let start = *pos as usize;
    let mut a = [0u8; N];
    let mut i: usize = 0;
    while i < N
        invariant
            start == *old(pos),
            start + N <= data.len(),
            i <= N,
            a@.len() == N,
            forall|j: int| 0 <= j < i ==> a@[j] == data@[start + j],
        decreases N - i,
    {
        a[i] = data[start + i];
        i = i + 1;
    }
    assert(a@ =~= data@.subrange(start as int, start + N));
    *pos = *pos + N as u64;
    Ok(a)
}

/// Seeks to `offset` and fills `into` from there, as an exact read does;
/// `into` is left as it was where the stream ends first.
pub fn read_exact_at(data: &[u8], offset: u64, into: &mut [u8]) -> (r: Result<(), Error>)
    ensures
        match r {
            Ok(_) => fits(data@, offset as int, old(into)@.len() as int) && final(into)@ == data@.subrange(
                offset as int,
                offset + old(into)@.len(),
            ),
            Err(e) => !fits(data@, offset as int, old(into)@.len() as int) && e == Error::Io && final(into)@
                == old(into)@,
        },
{
    if offset > data.len() as u64 || (data.len() as u64 - offset) < into.len() as u64 {
        return Err(Error::Io);
    }
    let start = offset as usize;
    let n = into.len();
    let mut i: usize = 0;
    while i < n
        invariant
            n == into@.len(),
            n == old(into)@.len(),
            i <= n,
            start + n <= data.len(),
            start == offset,
            forall|j: int| 0 <= j < i ==> into@[j] == data@[start + j],
        decreases n - i,
    {
        into[i] = data[start + i];
        i = i + 1;
    }
    proof {
        assert(into@ =~= data@.subrange(offset as int, offset + n));
    }
    Ok(())
}

} // verus!
