//! Big-endian readers over byte slices.
use vstd::prelude::*;

verus! {

/// The big-endian 16-bit value stored at `off` in `s`.
pub open spec fn be_u16(s: Seq<u8>, off: int) -> int {
    s[off] * 256 + s[off + 1]
}

/// The big-endian 32-bit value stored at `off` in `s`.
pub open spec fn be_u32(s: Seq<u8>, off: int) -> int {
    s[off] * 16777216 + s[off + 1] * 65536 + s[off + 2] * 256 + s[off + 3]
}

/// The `count` consecutive big-endian 32-bit words that start at `off` in `s`.
pub open spec fn be_u32_words(s: Seq<u8>, off: int, count: nat) -> Seq<u32> {
    Seq::new(count, |i: int| be_u32(s, off + 4 * i) as u32)
}

/// Reads the big-endian `u16` at `offset`, or fails when fewer than two bytes remain there.
pub fn read_u16(data: &[u8], offset: usize) -> (r: Result<u16, String>)
    requires
        offset + 2 <= usize::MAX,
    ensures
        r is Ok <==> offset + 2 <= data@.len(),
        r matches Ok(v) ==> v == be_u16(data@, offset as int),
        r matches Err(e) ==> e@ == "Not enough data to read u16"@,
{
    if data.len() < offset + 2 {
        return Err(String::from_str("Not enough data to read u16"));
    }
    let hi = data[offset] as u16;
    let lo = data[offset + 1] as u16;
    Ok(hi * 256 + lo)
}

/// The big-endian word at `offset`; the caller has checked that four bytes are there.
fn word_at(data: &[u8], offset: usize) -> (v: u32)
    requires
        offset + 4 <= data@.len(),
    ensures
        v == be_u32(data@, offset as int),
{
    let b0 = data[offset] as u32;
    let b1 = data[offset + 1] as u32;
    let b2 = data[offset + 2] as u32;
    let b3 = data[offset + 3] as u32;
    b0 * 16777216 + b1 * 65536 + b2 * 256 + b3
}

/// Reads the big-endian `u32` at `offset`, or fails when fewer than four bytes remain there.
pub fn read_u32(data: &[u8], offset: usize) -> (r: Result<u32, String>)
    requires
        offset + 4 <= usize::MAX,
    ensures
        r is Ok <==> offset + 4 <= data@.len(),
        r matches Ok(v) ==> v == be_u32(data@, offset as int),
        r matches Err(e) ==> e@ == "Not enough data to read u32"@,
{
    if data.len() < offset + 4 {
        return Err(String::from_str("Not enough data to read u32"));
    }
    Ok(word_at(data, offset))
}

/// Reads the raw IEEE-754 bit pattern of the big-endian `f32` at `offset`,
/// or fails when fewer than four bytes remain there.
pub fn read_f32_bits(data: &[u8], offset: usize) -> (r: Result<u32, String>)
    requires
        offset + 4 <= usize::MAX,
    ensures
        r is Ok <==> offset + 4 <= data@.len(),
        r matches Ok(v) ==> v == be_u32(data@, offset as int),
        r matches Err(e) ==> e@ == "Not enough data to read f32"@,
{
    if data.len() < offset + 4 {
        return Err(String::from_str("Not enough data to read f32"));
    }
    Ok(word_at(data, offset))
}

/// The words read by a successful `read_vec_u32` or `read_vec_f32_bits`.
fn words_from(data: &[u8], offset: usize, count: usize) -> (v: Vec<u32>)
    requires
        offset + count * 4 <= data@.len(),
        offset + count * 4 <= usize::MAX,
    ensures
        v@ == be_u32_words(data@, offset as int, count as nat),
{
    let mut result: Vec<u32> = Vec::with_capacity(count);
    let mut i: usize = 0;
    while i < count
        invariant
            i <= count,
            offset + count * 4 <= data@.len(),
            offset + count * 4 <= usize::MAX,
            result@ == be_u32_words(data@, offset as int, i as nat),
        decreases count - i,
    {
        assert(i * 4 + 4 <= count * 4) by (nonlinear_arith)
            requires
                i < count,
        ;
        let w = word_at(data, offset + i * 4);
        result.push(w);
        i = i + 1;
        assert(result@ =~= be_u32_words(data@, offset as int, i as nat));
    }
    result
}

/// Reads `count` consecutive big-endian `u32` words starting at `offset`,
/// or fails when they do not all fit in `data`.
pub fn read_vec_u32(data: &[u8], offset: usize, count: usize) -> (r: Result<Vec<u32>, String>)
    requires
        offset + count * 4 <= usize::MAX,
    ensures
        r is Ok <==> offset + count * 4 <= data@.len(),
        r matches Ok(v) ==> v@ == be_u32_words(data@, offset as int, count as nat),
        r matches Err(e) ==> e@ == "Not enough data to read u32 vec"@,
{
    if data.len() < offset + count * 4 {
        return Err(String::from_str("Not enough data to read u32 vec"));
    }
    Ok(words_from(data, offset, count))
}

/// Reads the raw bit patterns of `count` consecutive big-endian `f32` values starting at
/// `offset`, or fails when they do not all fit in `data`.
pub fn read_vec_f32_bits(data: &[u8], offset: usize, count: usize) -> (r: Result<Vec<u32>, String>)
    requires
        offset + count * 4 <= usize::MAX,
    ensures
        r is Ok <==> offset + count * 4 <= data@.len(),
        r matches Ok(v) ==> v@ == be_u32_words(data@, offset as int, count as nat),
        r matches Err(e) ==> e@ == "Not enough data to read f32 vec"@,
{
    if data.len() < offset + count * 4 {
        return Err(String::from_str("Not enough data to read f32 vec"));
    }
    Ok(words_from(data, offset, count))
}

} // verus!
