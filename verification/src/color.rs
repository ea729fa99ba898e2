//! Hex colour literals (`#rgb`, `#rrggbb`, `#rrggbbaa`) and the colour they denote.

use vstd::prelude::*;

verus! {

/// The value of an ASCII hex digit, or `None` for any other byte.
pub open spec fn nibble_value(b: u8) -> Option<u8> {
    if 48 <= b <= 57 {
        Some((b - 48) as u8)
    } else if 97 <= b <= 102 {
        Some((b - 97 + 10) as u8)
    } else if 65 <= b <= 70 {
        Some((b - 65 + 10) as u8)
    } else {
        None
    }
}

/// Decodes one ASCII hex digit (`0-9`, `a-f`, `A-F`) into its value.
pub fn decode_nibble(b: u8) -> (r: Option<u8>)
    ensures
        r == nibble_value(b),
        r matches Some(v) ==> v < 16,
{
    // '0'..='9', 'a'..='f' and 'A'..='F' as ASCII codes.
    if 48 <= b && b <= 57 {
        Some(b - 48)
    } else if 97 <= b && b <= 102 {
        Some(b - 97 + 10)
    } else if 65 <= b && b <= 70 {
        Some(b - 65 + 10)
    } else {
        None
    }
}


/// The value of a byte known to be a hex digit (0 for any other byte).
pub open spec fn nib(b: u8) -> int {
    match nibble_value(b) {
        Some(v) => v as int,
        None => 0,
    }
}

/// Every byte of `d` is an ASCII hex digit.
pub open spec fn all_hex(d: Seq<u8>) -> bool {
    forall|i: int| 0 <= i < d.len() ==> (#[trigger] nibble_value(d[i])) is Some
}

/// The digits that std's `u32::from_str_radix(_, 16)` reads from `d`: it takes
/// one leading `+` as a sign, which here reads as a leading zero.
pub open spec fn radix_digits(d: Seq<u8>) -> Seq<u8> {
    if d.len() > 0 && d[0] == 43 {
        seq![48u8] + d.drop_first()
    } else {
        d
    }
}

/// The byte written by the two hex digits `d[i]` and `d[i + 1]`.
pub open spec fn digit_pair(d: Seq<u8>, i: int) -> u8 {
    (nib(d[i]) * 16 + nib(d[i + 1])) as u8
}

/// An 8-bit-per-channel colour with straight alpha (`a == 255` is opaque).
#[derive(Clone, Copy, Debug, PartialEq, Eq)]
pub struct Rgba8 {
    pub r: u8,
    pub g: u8,
    pub b: u8,
    pub a: u8,
}

/// The colour written by the UTF-8 bytes of a hex literal, if they form one.
///
/// `#rgb` repeats each digit (`#3bf` is `#33bbff`) and is opaque; `#rrggbb` is
/// opaque; `#rrggbbaa` carries its alpha. The six- and eight-digit forms are
/// read as one hex number, so a `+` right after `#` stands for a leading zero.
pub open spec fn spec_parse_hex(bytes: Seq<u8>) -> Option<Rgba8> {
    if bytes.len() == 0 || bytes[0] != 35 {
        None
    } else {
        let d = bytes.drop_first();
        if d.len() == 3 {
            if all_hex(d) {
                Some(
                    Rgba8 {
                        r: (nib(d[0]) * 17) as u8,
                        g: (nib(d[1]) * 17) as u8,
                        b: (nib(d[2]) * 17) as u8,
                        a: 255,
                    },
                )
            } else {
                None
            }
        } else if d.len() == 6 || d.len() == 8 {
            let e = radix_digits(d);
            if all_hex(e) {
                Some(
                    Rgba8 {
                        r: digit_pair(e, 0),
                        g: digit_pair(e, 2),
                        b: digit_pair(e, 4),
                        a: if d.len() == 8 {
                            digit_pair(e, 6)
                        } else {
                            255
                        },
                    },
                )
            } else {
                None
            }
        } else {
            None
        }
    }
}

/// The digits after `#` as a reader takes them: with `sign_allowed` through
/// [`radix_digits`], otherwise as they stand.
pub open spec fn digits_read(bytes: Seq<u8>, sign_allowed: bool) -> Seq<u8> {
    if sign_allowed {
        radix_digits(bytes.drop_first())
    } else {
        bytes.drop_first()
    }
}

/// Reads the hex digits `bytes[1..]`; with `sign_allowed` a `+` at `bytes[1]`
/// reads as zero, as std's radix parser takes it for a sign.
fn collect_nibbles(bytes: &[u8], sign_allowed: bool) -> (r: Option<Vec<u8>>)
    requires
        bytes.len() >= 2,
    ensures
        r is Some <==> all_hex(digits_read(bytes@, sign_allowed)),
        r matches Some(v) ==> v.len() == bytes.len() - 1,
        r matches Some(v) ==> forall|i: int|
            0 <= i < v.len() ==> #[trigger] v@[i] < 16 && v@[i] as int == nib(
                digits_read(bytes@, sign_allowed)[i],
            ),
{
    let ghost e = digits_read(bytes@, sign_allowed);
    assert(e.len() == bytes.len() - 1);
    let mut out: Vec<u8> = Vec::new();
    let mut k: usize = 1;
    while k < bytes.len()
        invariant
            1 <= k <= bytes.len(),
            e.len() == bytes.len() - 1,
            e == digits_read(bytes@, sign_allowed),
            out.len() == k - 1,
            forall|i: int| 0 <= i < k - 1 ==> (#[trigger] nibble_value(e[i])) is Some,
            forall|i: int|
                0 <= i < k - 1 ==> out@[i] as int == #[trigger] nib(e[i]) && out@[i] < 16,
        decreases bytes.len() - k,
    {
        assert(e[k - 1] == (if sign_allowed && k == 1 && bytes@[1] == 43 {
            48u8
        } else {
            bytes@[k as int]
        }));
        let digit = if sign_allowed && k == 1 && bytes[1] == 43 {
            Some(0u8)
        } else {
            decode_nibble(bytes[k])
        };
        match digit {
            Some(v) => {
                assert(nibble_value(48u8) == Some(0u8));
                assert(nibble_value(e[k - 1]) == Some(v));
                out.push(v);
                assert(out@[k - 1] == v);
            },
            None => {
                assert(nibble_value(e[k - 1]) is None);
                return None;
            },
        }
        k = k + 1;
    }
    assert(all_hex(e));
    assert forall|i: int| 0 <= i < out.len() implies #[trigger] out@[i] < 16 && out@[i] as int
        == nib(digits_read(bytes@, sign_allowed)[i]) by {
        assert(out@[i] as int == nib(e[i]));
    }
    Some(out)
}

/// Parses a hex colour literal: `#rgb`, `#rrggbb` or `#rrggbbaa`.
///
/// Anything else, a missing `#` or a stray digit among them, gives `None`.
pub fn parse_hex(input: &str) -> (r: Option<Rgba8>)
    ensures
        r == spec_parse_hex(vstd::utf8::encode_utf8(input@)),
{
    let bytes = input.as_bytes();
    if bytes.len() == 0 || bytes[0] != 35 {
        return None;
    }
    let n = bytes.len() - 1;
    let ghost d = bytes@.drop_first();
    if n == 3 {
        match collect_nibbles(bytes, false) {
            Some(v) => {
                proof {
                    let e = digits_read(bytes@, false);
                    assert(v@[0] as int == nib(e[0]) && v@[1] as int == nib(e[1]) && v@[2] as int == nib(e[2]));
                }
                Some(Rgba8 { r: v[0] * 17, g: v[1] * 17, b: v[2] * 17, a: 255 })
            },
            None => None,
        }
    } else if n == 6 || n == 8 {
        match collect_nibbles(bytes, true) {
            Some(v) => {
                proof {
                    let e = digits_read(bytes@, true);
                                        assert(v@[0] as int == nib(e[0]) && v@[1] as int == nib(e[1]));
                    assert(v@[2] as int == nib(e[2]) && v@[3] as int == nib(e[3]));
                    assert(v@[4] as int == nib(e[4]) && v@[5] as int == nib(e[5]));
                    if n == 8 {
                        assert(v@[6] as int == nib(e[6]) && v@[7] as int == nib(e[7]));
                    }
                }
                let a = if n == 8 {
                    v[6] * 16 + v[7]
                } else {
                    255
                };
                Some(Rgba8 { r: v[0] * 16 + v[1], g: v[2] * 16 + v[3], b: v[4] * 16 + v[5], a })
            },
            None => None,
        }
    } else {
        None
    }
}


impl Rgba8 {
    /// The channels as one `0xRRGGBBAA` number, the form `gpui::rgba` takes.
    pub fn packed(&self) -> (r: u32)
        ensures
            r == self.r * 0x100_0000 + self.g * 0x1_0000 + self.b * 0x100 + self.a,
    {
        (self.r as u32) * 0x100_0000 + (self.g as u32) * 0x1_0000 + (self.b as u32) * 0x100
            + (self.a as u32)
    }
}

/// `#rgb` is shorthand for `#rrggbb`: each digit is written twice.
pub proof fn lemma_short_form_repeats_digits(x: u8, y: u8, z: u8)
    ensures
        spec_parse_hex(seq![35u8, x, y, z]) == spec_parse_hex(seq![35u8, x, x, y, y, z, z]),
{
    let short = seq![35u8, x, y, z];
    let long = seq![35u8, x, x, y, y, z, z];
    let d = short.drop_first();
    let e = radix_digits(long.drop_first());
    assert(d =~= seq![x, y, z]);
    assert(long.drop_first() =~= seq![x, x, y, y, z, z]);
    if x == 43 {
        assert(e =~= seq![48u8, x, y, y, z, z]);
        assert(nibble_value(e[1]) is None);
        assert(nibble_value(d[0]) is None);
    } else {
        assert(e =~= seq![x, x, y, y, z, z]);
        if all_hex(d) {
            assert(nibble_value(e[0]) is Some && nibble_value(e[2]) is Some && nibble_value(e[4]) is Some);
            assert forall|i: int| 0 <= i < e.len() implies (#[trigger] nibble_value(e[i])) is Some by {
                assert(e[i] == d[i / 2]);
            }
        } else {
            let i = choose|i: int| 0 <= i < d.len() && (#[trigger] nibble_value(d[i])) is None;
            assert(e[2 * i] == d[i]);
        }
    }
}

/// An eight-digit literal with alpha `ff` is the same colour as its six-digit prefix.
pub proof fn lemma_full_alpha_is_opaque(d: Seq<u8>)
    requires
        d.len() == 6,
    ensures
        spec_parse_hex(seq![35u8] + d) == spec_parse_hex(seq![35u8] + d + seq![102u8, 102u8]),
{
    let s6 = seq![35u8] + d;
    let s8 = seq![35u8] + d + seq![102u8, 102u8];
    assert(s6.drop_first() =~= d);
    assert(s8.drop_first() =~= d + seq![102u8, 102u8]);
    let e6 = radix_digits(d);
    let e8 = radix_digits(d + seq![102u8, 102u8]);
    assert(e8 =~= e6 + seq![102u8, 102u8]);
    assert(nibble_value(102u8) == Some(15u8));
    if all_hex(e6) {
        assert forall|i: int| 0 <= i < e8.len() implies (#[trigger] nibble_value(e8[i])) is Some by {
            if i < 6 {
                assert(e8[i] == e6[i]);
            }
        }
    } else {
        let i = choose|i: int| 0 <= i < e6.len() && (#[trigger] nibble_value(e6[i])) is None;
        assert(e8[i] == e6[i]);
    }
}


/// What `str::to_ascii_uppercase` does to one UTF-8 byte: `a`-`z` become
/// `A`-`Z`, every other byte stays.
pub open spec fn ascii_upper_byte(b: u8) -> u8 {
    if 97 <= b <= 122 {
        (b - 32) as u8
    } else {
        b
    }
}

/// What `str::to_ascii_lowercase` does to one UTF-8 byte: `A`-`Z` become
/// `a`-`z`, every other byte stays.
pub open spec fn ascii_lower_byte(b: u8) -> u8 {
    if 65 <= b <= 90 {
        (b + 32) as u8
    } else {
        b
    }
}

proof fn lemma_hex_under_map(b: Seq<u8>, f: spec_fn(u8) -> u8)
    requires
        forall|x: u8|
            nibble_value(#[trigger] f(x)) == nibble_value(x) && (f(x) == 35) == (x == 35) && (f(x)
                == 43) == (x == 43),
    ensures
        spec_parse_hex(b.map_values(f)) == spec_parse_hex(b),
{
    let c = b.map_values(f);
    if b.len() > 0 {
        assert(c[0] == f(b[0]));
        let d = b.drop_first();
        let dc = c.drop_first();
        assert(dc =~= d.map_values(f));
        let e = radix_digits(d);
        let ec = radix_digits(dc);
        assert(e.len() == ec.len());
        assert forall|i: int| 0 <= i < e.len() implies nibble_value(#[trigger] ec[i])
            == nibble_value(e[i]) by {
            if d.len() > 0 && d[0] == 43 && i == 0 {
                assert(dc[0] == f(d[0]));
            } else {
                assert(dc[i] == f(d[i]));
                if d.len() > 0 {
                    assert(dc[0] == f(d[0]));
                }
            }
        }
        assert forall|i: int| 0 <= i < d.len() implies nibble_value(#[trigger] dc[i])
            == nibble_value(d[i]) by {
            assert(dc[i] == f(d[i]));
        }
        assert(all_hex(e) == all_hex(ec)) by {
            if all_hex(e) {
                assert forall|i: int| 0 <= i < ec.len() implies (#[trigger] nibble_value(ec[i])) is Some by {
                    assert(nibble_value(ec[i]) == nibble_value(e[i]));
                }
            }
            if all_hex(ec) {
                assert forall|i: int| 0 <= i < e.len() implies (#[trigger] nibble_value(e[i])) is Some by {
                    assert(nibble_value(ec[i]) == nibble_value(e[i]));
                }
            }
        }
        assert(all_hex(d) == all_hex(dc)) by {
            if all_hex(d) {
                assert forall|i: int| 0 <= i < dc.len() implies (#[trigger] nibble_value(dc[i])) is Some by {
                    assert(nibble_value(dc[i]) == nibble_value(d[i]));
                }
            }
            if all_hex(dc) {
                assert forall|i: int| 0 <= i < d.len() implies (#[trigger] nibble_value(d[i])) is Some by {
                    assert(nibble_value(dc[i]) == nibble_value(d[i]));
                }
            }
        }
        if d.len() == 3 {
            assert(nibble_value(dc[0]) == nibble_value(d[0]));
            assert(nibble_value(dc[1]) == nibble_value(d[1]));
            assert(nibble_value(dc[2]) == nibble_value(d[2]));
        }
        if d.len() == 6 || d.len() == 8 {
            assert(nibble_value(ec[0]) == nibble_value(e[0]));
            assert(nibble_value(ec[1]) == nibble_value(e[1]));
            assert(nibble_value(ec[2]) == nibble_value(e[2]));
            assert(nibble_value(ec[3]) == nibble_value(e[3]));
            assert(nibble_value(ec[4]) == nibble_value(e[4]));
            assert(nibble_value(ec[5]) == nibble_value(e[5]));
            if d.len() == 8 {
                assert(nibble_value(ec[6]) == nibble_value(e[6]));
                assert(nibble_value(ec[7]) == nibble_value(e[7]));
            }
        }
    }
}

/// Hex digits read the same in either case: making a literal's ASCII letters
/// upper- or lowercase does not change the colour it gives (or that it gives none).
pub proof fn lemma_hex_ignores_ascii_case(b: Seq<u8>)
    ensures
        spec_parse_hex(b.map_values(|x: u8| ascii_upper_byte(x))) == spec_parse_hex(b),
        spec_parse_hex(b.map_values(|x: u8| ascii_lower_byte(x))) == spec_parse_hex(b),
{
    lemma_hex_under_map(b, |x: u8| ascii_upper_byte(x));
    lemma_hex_under_map(b, |x: u8| ascii_lower_byte(x));
}

} // verus!
