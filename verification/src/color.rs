//! Reading `#rrggbb` and `#rrggbbaa` color strings into channel bytes.
use crate::text::{chars_of, subvec, trim, trim_vec};
use vstd::prelude::*;

verus! {

/// Bytes a character takes in UTF-8.
pub open spec fn utf8_width(c: char) -> nat {
    if (c as u32) < 0x80 {
        1
    } else if (c as u32) < 0x800 {
        2
    } else if (c as u32) < 0x10000 {
        3
    } else {
        4
    }
}

/// Bytes a string takes in UTF-8.
pub open spec fn byte_len(s: Seq<char>) -> nat
    decreases s.len(),
{
    if s.len() == 0 {
        0
    } else {
        byte_len(s.drop_last()) + utf8_width(s.last())
    }
}

/// The color digits: the trimmed string without one leading `#`.
pub open spec fn hex_part(value: Seq<char>) -> Seq<char> {
    let t = trim(value);
    if t.len() > 0 && t[0] == '#' {
        t.drop_first()
    } else {
        t
    }
}

/// The next two bytes of `h` as characters, and what follows; none when two
/// bytes in is not a character boundary.
pub open spec fn next_two_bytes(h: Seq<char>) -> Option<(Seq<char>, Seq<char>)> {
    if h.len() >= 1 && utf8_width(h[0]) == 2 {
        Some((h.take(1), h.skip(1)))
    } else if h.len() >= 2 && utf8_width(h[0]) == 1 && utf8_width(h[1]) == 1 {
        Some((h.take(2), h.skip(2)))
    } else {
        None
    }
}

pub open spec fn is_hex(c: char) -> bool {
    ('0' <= c && c <= '9') || ('a' <= c && c <= 'f') || ('A' <= c && c <= 'F')
}

pub open spec fn hex_value(c: char) -> nat {
    if '0' <= c && c <= '9' {
        ((c as int) - ('0' as int)) as nat
    } else if 'a' <= c && c <= 'f' {
        ((c as int) - ('a' as int) + 10) as nat
    } else {
        ((c as int) - ('A' as int) + 10) as nat
    }
}

/// A byte read from two characters in base 16: two hex digits, or `+` and
/// one hex digit; anything else is rejected.
pub open spec fn hex_byte(s: Seq<char>) -> Option<u8> {
    if s.len() == 2 && s[0] == '+' && is_hex(s[1]) {
        Some(hex_value(s[1]) as u8)
    } else if s.len() == 2 && is_hex(s[0]) && is_hex(s[1]) {
        Some((hex_value(s[0]) * 16 + hex_value(s[1])) as u8)
    } else {
        None
    }
}

/// Reading a color either fails at a byte offset that splits a character,
/// or gives its channels (none for a malformed color).
#[derive(Debug, Clone, Copy)]
pub enum HexReading {
    SplitsCharacter,
    Read(Option<(u8, u8, u8, u8)>),
}

/// Reads the channel at the front of `h`, then the rest with `k`.
pub open spec fn read_channel(h: Seq<char>, k: spec_fn(u8, Seq<char>) -> HexReading) -> HexReading {
    match next_two_bytes(h) {
        None => HexReading::SplitsCharacter,
        Some((s, rest)) => match hex_byte(s) {
            None => HexReading::Read(None),
            Some(b) => k(b, rest),
        },
    }
}

/// Reading a color string: its digits must take 6 or 8 bytes; red, green,
/// blue and (for 8) alpha are read in turn, two bytes each, and alpha is
/// opaque when absent.
pub open spec fn hex_reading(value: Seq<char>) -> HexReading {
    let h = hex_part(value);
    let n = byte_len(h);
    if n != 6 && n != 8 {
        HexReading::Read(None)
    } else {
        read_channel(
            h,
            |r: u8, h1: Seq<char>|
                read_channel(
                    h1,
                    |g: u8, h2: Seq<char>|
                        read_channel(
                            h2,
                            |b: u8, h3: Seq<char>|
                                if n == 8 {
                                    read_channel(
                                        h3,
                                        |a: u8, h4: Seq<char>| HexReading::Read(Some((r, g, b, a))),
                                    )
                                } else {
                                    HexReading::Read(Some((r, g, b, 255u8)))
                                },
                        ),
                ),
        )
    }
}

fn width_of(c: char) -> (r: usize)
    ensures
        r == utf8_width(c),
{
    let u = c as u32;
    if u < 0x80 {
        1
    } else if u < 0x800 {
        2
    } else if u < 0x10000 {
        3
    } else {
        4
    }
}

/// `byte_len(v)` when it is at most 9, else 9.
fn byte_len_capped(v: &Vec<char>) -> (r: usize)
    ensures
        r == (if byte_len(v@) <= 9 {
            byte_len(v@)
        } else {
            9
        }),
{
    let mut total: usize = 0;
    let mut i: usize = 0;
    while i < v.len()
        invariant
            i <= v@.len(),
            total == byte_len(v@.take(i as int)),
            total <= 9,
        decreases v.len() - i,
    {
        assert(v@.take(i + 1).drop_last() =~= v@.take(i as int));
        let next = total + width_of(v[i]);
        if next > 9 {
            proof {
                lemma_byte_len_grows(v@, i + 1);
            }
            return 9;
        }
        total = next;
        i = i + 1;
    }
    assert(v@.take(v.len() as int) =~= v@);
    total
}

proof fn lemma_byte_len_grows(s: Seq<char>, k: int)
    requires
        0 <= k <= s.len(),
    ensures
        byte_len(s.take(k)) <= byte_len(s),
    decreases s.len() - k,
{
    if k < s.len() {
        assert(s.take(k + 1).drop_last() =~= s.take(k));
        lemma_byte_len_grows(s, k + 1);
    } else {
        assert(s.take(k) =~= s);
    }
}

fn is_hex_digit(c: char) -> (r: bool)
    ensures
        r == is_hex(c),
{
    ('0' <= c && c <= '9') || ('a' <= c && c <= 'f') || ('A' <= c && c <= 'F')
}

fn hex_digit_value(c: char) -> (r: u8)
    requires
        is_hex(c),
    ensures
        r as nat == hex_value(c),
        r < 16,
{
    if '0' <= c && c <= '9' {
        (c as u32 - 48) as u8
    } else if 'a' <= c && c <= 'f' {
        (c as u32 - 87) as u8
    } else {
        (c as u32 - 55) as u8
    }
}

/// Reads one channel at `h[at..]`: the index after it, or `Err` with what
/// the reading is when it stops there.
fn channel_at(h: &Vec<char>, at: usize) -> (r: Result<(u8, usize), HexReading>)
    requires
        at <= h@.len(),
    ensures
        match r {
            Ok((b, next)) => next <= h@.len() && next_two_bytes(h@.skip(at as int)) == Some(
                (h@.subrange(at as int, next as int), h@.skip(next as int)),
            ) && hex_byte(h@.subrange(at as int, next as int)) == Some(b),
            Err(e) => match next_two_bytes(h@.skip(at as int)) {
                None => e == HexReading::SplitsCharacter,
                Some((s, rest)) => hex_byte(s) is None && e == HexReading::Read(None),
            },
        },
{
    let ghost t = h@.skip(at as int);
    if at < h.len() && width_of(h[at]) == 2 {
        assert(t[0] == h@[at as int]);
        assert(t.take(1) =~= h@.subrange(at as int, at + 1));
        assert(t.skip(1) =~= h@.skip(at + 1));
        return Err(HexReading::Read(None));
    }
    if at < h.len() && h.len() - at >= 2 && width_of(h[at]) == 1 && width_of(h[at + 1]) == 1 {
        assert(t[0] == h@[at as int] && t[1] == h@[at + 1]);
        let s = subvec(h, at, at + 2);
        assert(t.take(2) =~= s@);
        assert(t.skip(2) =~= h@.skip(at + 2));
        let c0 = h[at];
        let c1 = h[at + 1];
        if c0 == '+' && is_hex_digit(c1) {
            return Ok((hex_digit_value(c1), at + 2));
        }
        if is_hex_digit(c0) && is_hex_digit(c1) {
            let v = hex_digit_value(c0) * 16 + hex_digit_value(c1);
            return Ok((v, at + 2));
        }
        return Err(HexReading::Read(None));
    }
    proof {
        if at < h@.len() {
            assert(t[0] == h@[at as int]);
        }
        if at + 1 < h@.len() {
            assert(t[1] == h@[at + 1]);
        }
    }
    Err(HexReading::SplitsCharacter)
}

/// Reads a `#rrggbb` or `#rrggbbaa` color: the channels (alpha 255 when
/// absent), none when malformed, or the report that a two-byte channel would
/// split a character.
pub fn read_hex_color(value: &str) -> (r: HexReading)
    ensures
        r == hex_reading(value@),
{
    let t = trim_vec(&chars_of(value));
    let h = if t.len() > 0 && t[0] == '#' {
        subvec(&t, 1, t.len())
    } else {
        t
    };
    assert(h@ == hex_part(value@)) by {
        if trim(value@).len() > 0 && trim(value@)[0] == '#' {
            assert(trim(value@).drop_first() =~= trim(value@).subrange(1, trim(value@).len() as int));
        }
    }
    let n = byte_len_capped(&h);
    if n != 6 && n != 8 {
        return HexReading::Read(None);
    }
    assert(h@.skip(0) =~= h@);
    let (red, i1) = match channel_at(&h, 0) {
        Ok(x) => x,
        Err(e) => return e,
    };
    let (green, i2) = match channel_at(&h, i1) {
        Ok(x) => x,
        Err(e) => return e,
    };
    let (blue, i3) = match channel_at(&h, i2) {
        Ok(x) => x,
        Err(e) => return e,
    };
    if n == 8 {
        let (alpha, _i4) = match channel_at(&h, i3) {
            Ok(x) => x,
            Err(e) => return e,
        };
        HexReading::Read(Some((red, green, blue, alpha)))
    } else {
        HexReading::Read(Some((red, green, blue, 255)))
    }
}

} // verus!
