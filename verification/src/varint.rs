//! The variable-length integers of QUIC: the two high bits of the first byte
//! say how many bytes there are, the other bits are the number, big-endian.
use vstd::prelude::*;

verus! {

/// The number whose big-endian bytes are `s`.
pub open spec fn big_endian(s: Seq<u8>) -> nat
    decreases s.len(),
{
    if s.len() == 0 {
        0
    } else {
        256 * big_endian(s.drop_last()) + s.last() as nat
    }
}

/// The number of bytes of an integer whose first byte is `first`.
pub open spec fn prefix_len(first: u8) -> nat {
    if first < 0x40 {
        1
    } else if first < 0x80 {
        2
    } else if first < 0xc0 {
        4
    } else {
        8
    }
}

/// The integer at the front of `s` and the number of bytes it takes, or `None`
/// where `s` ends before it does.
pub open spec fn decoded(s: Seq<u8>) -> Option<(u64, nat)> {
    if s.len() == 0 || s.len() < prefix_len(s[0]) {
        None
    } else {
        let n = prefix_len(s[0]);
        Some((big_endian(s.take(n as int).update(0, (s[0] % 64) as u8)) as u64, n))
    }
}

/// The two integers at the front of `s` and the number of bytes that both take.
pub open spec fn decoded_pair(s: Seq<u8>) -> Option<(u64, u64, nat)> {
    match decoded(s) {
        None => None,
        Some((x, a)) => match decoded(s.skip(a as int)) {
            None => None,
            Some((y, b)) => Some((x, y, a + b)),
        },
    }
}

/// The byte of `x` that stands for multiples of `unit`.
pub open spec fn digit(x: u64, unit: u64) -> u8 {
    ((x / unit) % 0x100) as u8
}

/// The shortest encoding of `x`.
pub open spec fn encoded(x: u64) -> Seq<u8> {
    if x < 0x40 {
        seq![x as u8]
    } else if x < 0x4000 {
        seq![(0x40 + x / 0x100) as u8, digit(x, 1)]
    } else if x < 0x4000_0000 {
        seq![
            (0x80 + x / 0x100_0000) as u8,
            digit(x, 0x1_0000),
            digit(x, 0x100),
            digit(x, 1),
        ]
    } else {
        seq![
            (0xc0 + x / 0x100_0000_0000_0000) as u8,
            digit(x, 0x1_0000_0000_0000),
            digit(x, 0x100_0000_0000),
            digit(x, 0x1_0000_0000),
            digit(x, 0x100_0000),
            digit(x, 0x1_0000),
            digit(x, 0x100),
            digit(x, 1),
        ]
    }
}

/// The bound below which `n` bytes of an integer stay, two bits being taken.
pub open spec fn bound(n: nat) -> nat
    decreases n,
{
    if n <= 1 {
        64
    } else {
        256 * bound((n - 1) as nat)
    }
}

pub proof fn lemma_bound(n: nat)
    requires
        1 <= n <= 8,
    ensures
        bound(n) <= VarInt::MAX + 1,
        n < 8 ==> 256 * bound(n) <= VarInt::MAX + 1,
{
    reveal_with_fuel(bound, 9);
}

/// One more byte at the end of a number.
pub proof fn lemma_big_endian_push(s: Seq<u8>, last: u8)
    ensures
        big_endian(s.push(last)) == 256 * big_endian(s) + last,
{
    assert(s.push(last).drop_last() =~= s);
}

/// An integer read back is the one that was written, however the input goes on.
pub proof fn decoded_encoded(x: u64, rest: Seq<u8>)
    requires
        x <= VarInt::MAX,
    ensures
        decoded(encoded(x) + rest) == Some((x, encoded(x).len())),
        1 <= encoded(x).len() <= 8,
{
    let s = encoded(x);
    let n = s.len();
    let all = s + rest;
    assert(all.take(n as int) =~= s);
    assert(prefix_len(all[0]) == n);
    let low = s.update(0, (s[0] % 64) as u8);
    assert(big_endian(low) == x) by {
        if x < 0x40 {
            lemma_big_endian_1(low);
        } else if x < 0x4000 {
            lemma_big_endian_2(low);
            lemma_digit(x, 1, 0x100);
        } else if x < 0x4000_0000 {
            lemma_big_endian_4(low);
            lemma_digit(x, 0x1_0000, 0x100_0000);
            lemma_digit(x, 0x100, 0x1_0000);
            lemma_digit(x, 1, 0x100);
        } else {
            lemma_big_endian_8(low);
            lemma_digits_8(x);
        }
    }
}

proof fn lemma_big_endian_1(s: Seq<u8>)
    requires
        s.len() == 1,
    ensures
        big_endian(s) == s[0],
{
    reveal_with_fuel(big_endian, 2);
}

proof fn lemma_big_endian_2(s: Seq<u8>)
    requires
        s.len() == 2,
    ensures
        big_endian(s) == 0x100 * s[0] + s[1],
{
    lemma_big_endian_1(s.drop_last());
}

proof fn lemma_big_endian_4(s: Seq<u8>)
    requires
        s.len() == 4,
    ensures
        big_endian(s) == 0x100_0000 * s[0] + 0x1_0000 * s[1] + 0x100 * s[2] + s[3],
{
    reveal_with_fuel(big_endian, 3);
    lemma_big_endian_2(s.drop_last().drop_last());
}

proof fn lemma_big_endian_8(s: Seq<u8>)
    requires
        s.len() == 8,
    ensures
        big_endian(s) == 0x100_0000_0000_0000 * s[0] + 0x1_0000_0000_0000 * s[1] + 0x100_0000_0000
            * s[2] + 0x1_0000_0000 * s[3] + 0x100_0000 * s[4] + 0x1_0000 * s[5] + 0x100 * s[6]
            + s[7],
{
    reveal_with_fuel(big_endian, 5);
    lemma_big_endian_4(s.drop_last().drop_last().drop_last().drop_last());
}

proof fn lemma_digits_8(x: u64)
    requires
        x <= VarInt::MAX,
    ensures
        x == 0x100_0000_0000_0000 * (x / 0x100_0000_0000_0000) + 0x1_0000_0000_0000 * digit(
            x,
            0x1_0000_0000_0000,
        ) + 0x100_0000_0000 * digit(x, 0x100_0000_0000) + 0x1_0000_0000 * digit(x, 0x1_0000_0000)
            + 0x100_0000 * digit(x, 0x100_0000) + 0x1_0000 * digit(x, 0x1_0000) + 0x100 * digit(
            x,
            0x100,
        ) + digit(x, 1),
        x / 0x100_0000_0000_0000 < 0x40,
{
    lemma_digit(x, 0x1_0000_0000_0000, 0x100_0000_0000_0000);
    lemma_digit(x, 0x100_0000_0000, 0x1_0000_0000_0000);
    lemma_digit(x, 0x1_0000_0000, 0x100_0000_0000);
    lemma_digit(x, 0x100_0000, 0x1_0000_0000);
    lemma_digit(x, 0x1_0000, 0x100_0000);
    lemma_digit(x, 0x100, 0x1_0000);
    lemma_digit(x, 1, 0x100);
}

proof fn lemma_digit(x: u64, unit: u64, next: u64)
    requires
        unit > 0,
        next == 0x100 * unit,
    ensures
        x / unit == 0x100 * (x / next) + digit(x, unit),
{
    vstd::arithmetic::div_mod::lemma_div_denominator(x as int, unit as int, 0x100);
}

/// An integer is read the same way however the input goes on.
pub proof fn decoded_extended(s: Seq<u8>, rest: Seq<u8>)
    ensures
        decoded(s) is Some ==> decoded(s + rest) == decoded(s),
{
    if decoded(s) is Some {
        let n = prefix_len(s[0]) as int;
        assert((s + rest)[0] == s[0]);
        assert((s + rest).take(n) =~= s.take(n));
    }
}

/// What the bytes of an integer stand for: the first one says how many there
/// are, in its two high bits, and each byte counts for 256 of those after it.
pub proof fn integer_bytes(s: Seq<u8>)
    ensures
        s.len() == 0 ==> decoded(s) is None,
        s.len() >= 1 && s[0] < 0x40 ==> decoded(s) == Some((s[0] as u64, 1nat)),
        s.len() == 1 && s[0] >= 0x40 ==> decoded(s) is None,
        s.len() >= 2 && 0x40 <= s[0] < 0x80 ==> decoded(s) == Some(
            (((s[0] - 0x40) * 0x100 + s[1]) as u64, 2nat),
        ),
        2 <= s.len() < 4 && s[0] >= 0x80 ==> decoded(s) is None,
        s.len() >= 4 && 0x80 <= s[0] < 0xc0 ==> decoded(s) == Some(
            (
                ((s[0] - 0x80) * 0x100_0000 + s[1] * 0x1_0000 + s[2] * 0x100 + s[3]) as u64,
                4nat,
            ),
        ),
        4 <= s.len() < 8 && s[0] >= 0xc0 ==> decoded(s) is None,
        s.len() >= 8 && s[0] >= 0xc0 ==> decoded(s) == Some(
            (
                ((s[0] - 0xc0) * 0x100_0000_0000_0000 + s[1] * 0x1_0000_0000_0000 + s[2]
                    * 0x100_0000_0000 + s[3] * 0x1_0000_0000 + s[4] * 0x100_0000 + s[5] * 0x1_0000
                    + s[6] * 0x100 + s[7]) as u64,
                8nat,
            ),
        ),
{
    if s.len() > 0 && s.len() >= prefix_len(s[0]) {
        let n = prefix_len(s[0]);
        let low = s.take(n as int).update(0, (s[0] % 64) as u8);
        if n == 1 {
            lemma_big_endian_1(low);
        } else if n == 2 {
            lemma_big_endian_2(low);
        } else if n == 4 {
            lemma_big_endian_4(low);
        } else {
            lemma_big_endian_8(low);
        }
    }
}

/// An integer is written in the fewest bytes that can hold it.
pub proof fn integer_is_short(x: u64)
    requires
        x <= 0x3fff_ffff_ffff_ffff,
    ensures
        x < 0x40 ==> encoded(x).len() == 1,
        0x40 <= x < 0x4000 ==> encoded(x).len() == 2,
        0x4000 <= x < 0x4000_0000 ==> encoded(x).len() == 4,
        0x4000_0000 <= x ==> encoded(x).len() == 8,
{
}

/// An integer of at most 62 bits.
#[derive(Clone, Copy, Debug, PartialEq, Eq, Structural)]
pub struct VarInt(u64);

impl View for VarInt {
    type V = u64;

    closed spec fn view(&self) -> u64 {
        self.0
    }
}

/// A number that has more than 62 bits.
#[derive(Clone, Copy, Debug, PartialEq, Eq, Structural)]
pub struct VarIntBoundsExceeded;

impl VarInt {
    /// The largest integer that can be encoded.
    pub const MAX: u64 = 0x3fff_ffff_ffff_ffff;

    #[verifier::type_invariant]
    spec fn inv(self) -> bool {
        self.0 <= Self::MAX
    }

    pub fn from_u32(x: u32) -> (v: VarInt)
        ensures
            v@ == x,
    {
        VarInt(x as u64)
    }

    pub fn from_u64(x: u64) -> (v: Result<VarInt, VarIntBoundsExceeded>)
        ensures
            v is Ok <==> x <= VarInt::MAX,
            v is Ok <==> x < 0x4000_0000_0000_0000,
            v matches Ok(v) ==> v@ == x,
    {
        if x <= Self::MAX {
            Ok(VarInt(x))
        } else {
            Err(VarIntBoundsExceeded)
        }
    }

    pub fn into_inner(self) -> (x: u64)
        ensures
            x == self@,
            x <= VarInt::MAX,
    {
        proof {
            use_type_invariant(&self);
        }
        self.0
    }

    /// Appends the shortest encoding of the integer to `out`.
    pub fn encode(&self, out: &mut Vec<u8>)
        ensures
            final(out)@ == old(out)@ + encoded(self@),
    {
        proof {
            use_type_invariant(self);
        }
        let x: u64 = self.0;
        if x < 0x40 {
            out.push(x as u8);
        } else if x < 0x4000 {
            out.push((0x40 + x / 0x100) as u8);
            out.push((x % 0x100) as u8);
        } else if x < 0x4000_0000 {
            out.push((0x80 + x / 0x100_0000) as u8);
            out.push(((x / 0x1_0000) % 0x100) as u8);
            out.push(((x / 0x100) % 0x100) as u8);
            out.push((x % 0x100) as u8);
        } else {
            out.push((0xc0 + x / 0x100_0000_0000_0000) as u8);
            out.push(((x / 0x1_0000_0000_0000) % 0x100) as u8);
            out.push(((x / 0x100_0000_0000) % 0x100) as u8);
            out.push(((x / 0x1_0000_0000) % 0x100) as u8);
            out.push(((x / 0x100_0000) % 0x100) as u8);
            out.push(((x / 0x1_0000) % 0x100) as u8);
            out.push(((x / 0x100) % 0x100) as u8);
            out.push((x % 0x100) as u8);
        }
        proof {
            assert(out@ =~= old(out)@ + encoded(self@));
        }
    }
}

} // verus!
