//! Little-endian field decoding over a byte buffer, with a cursor that
//! refuses to read past the end of its buffer.

use vstd::prelude::*;

verus! {

/// `n` bytes starting at `p` lie inside `s`.
pub open spec fn in_range(s: Seq<u8>, p: int, n: int) -> bool {
    0 <= p && 0 <= n && p + n <= s.len()
}

/// The little-endian `u16` stored at `s[p..p + 2]`.
pub open spec fn le_u16(s: Seq<u8>, p: int) -> u16 {
    (s[p] as int + s[p + 1] as int * 0x100) as u16
}

/// The little-endian `u32` stored at `s[p..p + 4]`.
pub open spec fn le_u32(s: Seq<u8>, p: int) -> u32 {
    (s[p] as int + s[p + 1] as int * 0x100 + s[p + 2] as int * 0x1_0000 + s[p + 3] as int
        * 0x100_0000) as u32
}

/// The little-endian `u64` stored at `s[p..p + 8]`.
pub open spec fn le_u64(s: Seq<u8>, p: int) -> u64 {
    (le_u32(s, p) as int + le_u32(s, p + 4) as int * 0x1_0000_0000) as u64
}

/// The little-endian `i32` stored at `s[p..p + 4]` (two's complement).
pub open spec fn le_i32(s: Seq<u8>, p: int) -> i32 {
    le_u32(s, p) as i32
}

/// The little-endian `i64` stored at `s[p..p + 8]` (two's complement).
pub open spec fn le_i64(s: Seq<u8>, p: int) -> i64 {
    le_u64(s, p) as i64
}

/// The four little-endian bytes of `v`.
pub open spec fn le_bytes_u32(v: u32) -> Seq<u8> {
    seq![(v % 0x100) as u8, ((v / 0x100) % 0x100) as u8, ((v / 0x1_0000) % 0x100) as u8, (v / 0x100_0000) as u8]
}

/// The little-endian bytes of `v` read back as `v`.
pub proof fn lemma_le_bytes_u32(v: u32)
    ensures
        le_u32(le_bytes_u32(v), 0) == v,
{
    let b = le_bytes_u32(v);
    assert(b[0] as int + b[1] as int * 0x100 + b[2] as int * 0x1_0000 + b[3] as int * 0x100_0000
        == v as int);
}

/// Reads the little-endian `u32` at `b[p..p + 4]`.
pub fn read_u32_at(b: &[u8], p: usize) -> (v: u32)
    requires
        in_range(b@, p as int, 4),
    ensures
        v == le_u32(b@, p as int),
{
    b[p] as u32 + b[p + 1] as u32 * 0x100 + b[p + 2] as u32 * 0x1_0000 + b[p + 3] as u32 * 0x100_0000
}

/// Reads the little-endian `i32` at `b[p..p + 4]`.
pub fn read_i32_at(b: &[u8], p: usize) -> (v: i32)
    requires
        in_range(b@, p as int, 4),
    ensures
        v == le_i32(b@, p as int),
{
    read_u32_at(b, p) as i32
}

/// Reads the little-endian `i64` at `b[p..p + 8]`.
pub fn read_i64_at(b: &[u8], p: usize) -> (v: i64)
    requires
        in_range(b@, p as int, 8),
    ensures
        v == le_i64(b@, p as int),
{
    let len = b.len();
    let lo = read_u32_at(b, p) as u64;
    let hi = read_u32_at(b, p + 4) as u64;
    #[verifier::truncate]
    ((lo + hi * 0x1_0000_0000) as i64)
}

/// The bytes of `s`, each taken as the character with that code point.
pub open spec fn latin1(s: Seq<u8>) -> Seq<char> {
    s.map_values(|b: u8| b as char)
}

/// Length of the string body whose `i32` length prefix is at `p`
/// (a length that is zero or negative gives an empty string).
pub open spec fn str_len_at(s: Seq<u8>, p: int) -> int {
    let n = le_i32(s, p);
    if n <= 0 {
        0
    } else {
        n as int
    }
}

/// A length-prefixed string starting at `p` lies inside `s`.
pub open spec fn str_ok(s: Seq<u8>, p: int) -> bool {
    in_range(s, p, 4) && in_range(s, p + 4, str_len_at(s, p))
}

/// The position just past the length-prefixed string at `p`.
pub open spec fn str_end(s: Seq<u8>, p: int) -> int {
    p + 4 + str_len_at(s, p)
}

/// The characters of the length-prefixed string at `p`.
pub open spec fn str_at(s: Seq<u8>, p: int) -> Seq<char> {
    latin1(s.subrange(p + 4, str_end(s, p)))
}

/// A read position in a byte buffer.
pub struct Cur<'a> {
    pub b: &'a [u8],
    pub p: usize,
}

impl<'a> Cur<'a> {
    /// Takes one byte.
    pub fn u8(&mut self) -> (r: Option<u8>)
        ensures
            final(self).b@ == old(self).b@,
            r is Some <==> in_range(old(self).b@, old(self).p as int, 1),
            r matches Some(v) ==> v == old(self).b@[old(self).p as int] && final(self).p == old(
                self,
            ).p + 1,
    {
        if self.p < self.b.len() {
            let v = self.b[self.p];
            self.p = self.p + 1;
            Some(v)
        } else {
            None
        }
    }

    /// Takes a little-endian `u16`.
    pub fn u16(&mut self) -> (r: Option<u16>)
        ensures
            final(self).b@ == old(self).b@,
            r is Some <==> in_range(old(self).b@, old(self).p as int, 2),
            r matches Some(v) ==> v == le_u16(old(self).b@, old(self).p as int) && final(self).p
                == old(self).p + 2,
    {
        if self.p < self.b.len() && self.b.len() - self.p >= 2 {
            let v = self.b[self.p] as u16 + self.b[self.p + 1] as u16 * 0x100;
            self.p = self.p + 2;
            Some(v)
        } else {
            None
        }
    }

    /// Takes a little-endian `u32`.
    pub fn u32(&mut self) -> (r: Option<u32>)
        ensures
            final(self).b@ == old(self).b@,
            r is Some <==> in_range(old(self).b@, old(self).p as int, 4),
            r matches Some(v) ==> v == le_u32(old(self).b@, old(self).p as int) && final(self).p
                == old(self).p + 4,
    {
        if self.p <= self.b.len() && self.b.len() - self.p >= 4 {
            let v = read_u32_at(self.b, self.p);
            self.p = self.p + 4;
            Some(v)
        } else {
            None
        }
    }

    /// Takes a little-endian `i32`.
    pub fn i32(&mut self) -> (r: Option<i32>)
        ensures
            final(self).b@ == old(self).b@,
            r is Some <==> in_range(old(self).b@, old(self).p as int, 4),
            r matches Some(v) ==> v == le_i32(old(self).b@, old(self).p as int) && final(self).p
                == old(self).p + 4,
    {
        match self.u32() {
            Some(v) => Some(v as i32),
            None => None,
        }
    }

    /// Takes a little-endian `i64`.
    pub fn i64(&mut self) -> (r: Option<i64>)
        ensures
            final(self).b@ == old(self).b@,
            r is Some <==> in_range(old(self).b@, old(self).p as int, 8),
            r matches Some(v) ==> v == le_i64(old(self).b@, old(self).p as int) && final(self).p
                == old(self).p + 8,
    {
        if self.p <= self.b.len() && self.b.len() - self.p >= 8 {
            let v = read_i64_at(self.b, self.p);
            self.p = self.p + 8;
            Some(v)
        } else {
            None
        }
    }

    /// Takes a length-prefixed string: an `i32` length, then that many
    /// bytes, each read as one character.
    pub fn string(&mut self) -> (r: Option<String>)
        ensures
            final(self).b@ == old(self).b@,
            r is Some <==> str_ok(old(self).b@, old(self).p as int),
            r matches Some(v) ==> v@ == str_at(old(self).b@, old(self).p as int) && final(self).p
                == str_end(old(self).b@, old(self).p as int),
    {
        let n = match self.i32() {
            Some(n) => n,
            None => return None,
        };
        let len: usize = if n <= 0 {
            0
        } else {
            n as usize
        };
        if !(self.p <= self.b.len() && self.b.len() - self.p >= len) {
            return None;
        }
        let start = self.p;
        let mut s = String::new();
        let mut i: usize = 0;
        while i < len
            invariant
                self.b@ == old(self).b@,
                start + len <= self.b.len(),
                i <= len,
                s@ == latin1(self.b@.subrange(start as int, start + i)),
            decreases len - i,
        {
            let c = self.b[start + i] as char;
            crate::text::push_char(&mut s, c);
            i = i + 1;
            assert(s@ =~= latin1(self.b@.subrange(start as int, start + i)));
        }
        self.p = start + len;
        Some(s)
    }

    /// Moves past `n` bytes, which must lie inside the buffer.
    pub fn skip(&mut self, n: usize) -> (r: bool)
        ensures
            final(self).b@ == old(self).b@,
            r <==> in_range(old(self).b@, old(self).p as int, n as int),
            r ==> final(self).p == old(self).p + n,
    {
        if self.p <= self.b.len() && self.b.len() - self.p >= n {
            self.p = self.p + n;
            true
        } else {
            false
        }
    }
}

} // verus!
