//! Colors written as variable-length hexadecimal text.

use vstd::prelude::*;

verus! {

/// The value of one digit in the given radix, if `c` is one.
pub open spec fn digit_value(c: char, radix: nat) -> Option<nat> {
    let v: int = if '0' <= c && c <= '9' {
        c as int - '0' as int
    } else if 'a' <= c && c <= 'z' {
        c as int - 'a' as int + 10
    } else if 'A' <= c && c <= 'Z' {
        c as int - 'A' as int + 10
    } else {
        radix as int
    };
    if v < radix {
        Some(v as nat)
    } else {
        None
    }
}

/// The number that a non-empty run of digits denotes, most significant first.
pub open spec fn digits_value(s: Seq<char>, radix: nat) -> Option<nat>
    decreases s.len(),
{
    if s.len() == 0 {
        Some(0)
    } else {
        match (digits_value(s.drop_last(), radix), digit_value(s.last(), radix)) {
            (Some(h), Some(d)) => Some(h * radix + d),
            _ => None,
        }
    }
}

/// What `u32::from_str_radix` makes of `s`: an optional `+`, then at least one
/// digit, and a value that fits in 32 bits.
pub open spec fn parsed_u32(s: Seq<char>, radix: nat) -> Option<u32> {
    let body = if s.len() > 0 && s[0] == '+' {
        s.drop_first()
    } else {
        s
    };
    if body.len() == 0 {
        None
    } else {
        match digits_value(body, radix) {
            Some(v) => if v <= u32::MAX {
                Some(v as u32)
            } else {
                None
            },
            None => None,
        }
    }
}

/// Relies on `u32::from_str_radix`: an optional `+` followed by digits of the
/// radix, any other character or an overflow being an error.
#[verifier::external_body]
pub(crate) fn parse_u32(s: &str, radix: u32) -> (r: Option<u32>)
    requires
        2 <= radix <= 36,
    ensures
        r == parsed_u32(s@, radix as nat),
{
    u32::from_str_radix(s, radix).ok()
}

/// `s` without its leading `#` characters.
pub open spec fn strip_hashes(s: Seq<char>) -> Seq<char>
    decreases s.len(),
{
    if s.len() > 0 && s[0] == '#' {
        strip_hashes(s.drop_first())
    } else {
        s
    }
}

pub open spec fn is_hex_digit(c: char) -> bool {
    ('0' <= c && c <= '9') || ('a' <= c && c <= 'f') || ('A' <= c && c <= 'F')
}

/// Whether every character of `t` is a hexadecimal digit.
pub open spec fn all_hex(t: Seq<char>) -> bool {
    forall|i: int| 0 <= i < t.len() ==> is_hex_digit(#[trigger] t[i])
}

/// The channels (red, green, blue, alpha) that the text `s` stands for.
///
/// The digits after the leading `#` characters are read as one hexadecimal
/// number, and any other character makes the text no color; the length of
/// the whole text then says how its little-endian
/// bytes become channels.
pub open spec fn decode_hex(s: Seq<char>) -> Option<Seq<u8>> {
    if !all_hex(strip_hashes(s)) {
        None
    } else {
        decode_digits(s)
    }
}

/// The channels of `s` once its digits are known to be hexadecimal.
pub open spec fn decode_digits(s: Seq<char>) -> Option<Seq<u8>> {
    match parsed_u32(strip_hashes(s), 16) {
        None => None,
        Some(v) => {
            // the little-endian bytes of the number
            let b0 = (v % 256) as u8;
            let b1 = ((v / 256) % 256) as u8;
            let b2 = ((v / 65536) % 256) as u8;
            let b3 = (v / 16777216) as u8;
            if 1 <= s.len() <= 2 {
                Some(seq![b0, b0, b0, 255u8])
            } else if 3 <= s.len() <= 4 {
                Some(seq![b0, b1, b1, 255u8])
            } else if 5 <= s.len() <= 6 {
                Some(seq![b0, b1, b2, 255u8])
            } else if 7 <= s.len() <= 8 {
                Some(seq![b0, b1, b2, b3])
            } else {
                None
            }
        },
    }
}

/// A color as the scheme writes it: hexadecimal text, decoded on demand.
pub struct Color(pub String);

impl View for Color {
    type V = Seq<char>;

    open spec fn view(&self) -> Seq<char> {
        self.0@
    }
}

impl Clone for Color {
    fn clone(&self) -> (r: Self)
        ensures
            r@ == self@,
    {
        Color(self.0.clone())
    }
}

impl Color {
    pub fn from(value: &str) -> (r: Color)
        ensures
            r@ == value@,
    {
        Color(value.to_string())
    }

    /// The channels red, green, blue and alpha, or `None` where the text is
    /// no color.
    pub fn as_hex(&self) -> (r: Option<[u8; 4]>)
        ensures
            match r {
                Some(a) => decode_hex(self@) == Some(a@),
                None => decode_hex(self@).is_none(),
            },
    {
        let s = self.0.as_str();
        let n = s.unicode_len();
        let mut i: usize = 0;
        assert(s@.subrange(0, n as int) =~= s@);
        while i < n && s.get_char(i) == '#'
            invariant
                0 <= i <= n,
                n == s@.len(),
                strip_hashes(s@) == strip_hashes(s@.subrange(i as int, n as int)),
            decreases n - i,
        {
            proof {
                let t = s@.subrange(i as int, n as int);
                assert(t.drop_first() =~= s@.subrange(i + 1, n as int));
            }
            i = i + 1;
        }
        let digits = s.substring_char(i, n);
        proof {
            assert(s@.subrange(n as int, n as int).len() == 0);
        }
        assert(strip_hashes(digits@) == digits@);
        assert(strip_hashes(self@) == digits@);
        let m = digits.unicode_len();
        let mut j: usize = 0;
        while j < m
            invariant
                m == digits@.len(),
                0 <= j <= m,
                strip_hashes(self@) == digits@,
                forall|k: int| 0 <= k < j ==> is_hex_digit(#[trigger] digits@[k]),
            decreases m - j,
        {
            let c = digits.get_char(j);
            if !(('0' <= c && c <= '9') || ('a' <= c && c <= 'f') || ('A' <= c && c <= 'F')) {
                assert(!is_hex_digit(digits@[j as int]));
                assert(!all_hex(strip_hashes(self@)));
                return None;
            }
            j = j + 1;
        }
        assert(all_hex(strip_hashes(self@)));
        let v = match parse_u32(digits, 16) {
            Some(v) => v,
            None => return None,
        };
        let b0 = (v % 256) as u8;
        let b1 = ((v / 256) % 256) as u8;
        let b2 = ((v / 65536) % 256) as u8;
        let b3 = (v / 16777216) as u8;
        if 1 <= n && n <= 2 {
            let r = [b0, b0, b0, 255u8];
            assert(r@ =~= decode_hex(self@).unwrap());
            Some(r)
        } else if 3 <= n && n <= 4 {
            let r = [b0, b1, b1, 255u8];
            assert(r@ =~= decode_hex(self@).unwrap());
            Some(r)
        } else if 5 <= n && n <= 6 {
            let r = [b0, b1, b2, 255u8];
            assert(r@ =~= decode_hex(self@).unwrap());
            Some(r)
        } else if 7 <= n && n <= 8 {
            let r = [b0, b1, b2, b3];
            assert(r@ =~= decode_hex(self@).unwrap());
            Some(r)
        } else {
            None
        }
    }
}

} // verus!
