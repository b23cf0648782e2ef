//! Byte-level text encodings the handler needs: UTF-8 well-formedness, used
//! to validate request bodies, and percent-decoding, used on the key segment
//! of a request path.

use vstd::prelude::*;

verus! {

/// A UTF-8 continuation byte: `0b10xxxxxx`.
pub open spec fn is_cont(b: u8) -> bool {
    0x80 <= b && b <= 0xBF
}

/// The byte sequence `s` is well-formed UTF-8.
///
/// Each scalar value is encoded in the shortest form; the ranges of the
/// second byte after `0xE0`, `0xED`, `0xF0` and `0xF4` rule out overlong
/// encodings, surrogates and values above `0x10FFFF`, so this matches what
/// `String::from_utf8` accepts.
pub open spec fn is_utf8(s: Seq<u8>) -> bool
    decreases s.len(),
{
    if s.len() == 0 {
        true
    } else {
        let b0 = s[0];
        if b0 <= 0x7F {
            is_utf8(s.skip(1))
        } else if 0xC2 <= b0 && b0 <= 0xDF {
            s.len() >= 2 && is_cont(s[1]) && is_utf8(s.skip(2))
        } else if b0 == 0xE0 {
            s.len() >= 3 && 0xA0 <= s[1] && s[1] <= 0xBF && is_cont(s[2]) && is_utf8(s.skip(3))
        } else if (0xE1 <= b0 && b0 <= 0xEC) || b0 == 0xEE || b0 == 0xEF {
            s.len() >= 3 && is_cont(s[1]) && is_cont(s[2]) && is_utf8(s.skip(3))
        } else if b0 == 0xED {
            s.len() >= 3 && 0x80 <= s[1] && s[1] <= 0x9F && is_cont(s[2]) && is_utf8(s.skip(3))
        } else if b0 == 0xF0 {
            s.len() >= 4 && 0x90 <= s[1] && s[1] <= 0xBF && is_cont(s[2]) && is_cont(s[3])
                && is_utf8(s.skip(4))
        } else if 0xF1 <= b0 && b0 <= 0xF3 {
            s.len() >= 4 && is_cont(s[1]) && is_cont(s[2]) && is_cont(s[3]) && is_utf8(s.skip(4))
        } else if b0 == 0xF4 {
            s.len() >= 4 && 0x80 <= s[1] && s[1] <= 0x8F && is_cont(s[2]) && is_cont(s[3])
                && is_utf8(s.skip(4))
        } else {
            false
        }
    }
}

/// Decides whether `s` is well-formed UTF-8.
pub fn check_utf8(s: &Vec<u8>) -> (r: bool)
    ensures
        r == is_utf8(s@),
{
    let n = s.len();
    let mut i: usize = 0;
    proof {
        assert(s@.skip(0) =~= s@);
    }
    while i < n
        invariant
            n == s@.len(),
            i <= n,
            is_utf8(s@) == is_utf8(s@.skip(i as int)),
        decreases n - i,
    {
        let ghost t = s@.skip(i as int);
        let b0 = s[i];
        proof {
            assert(t[0] == s@[i as int]);
        }
        let w: usize = if b0 <= 0x7F {
            1
        } else if 0xC2 <= b0 && b0 <= 0xDF {
            if n - i < 2 || !is_cont_byte(s[i + 1]) {
                return false;
            }
            2
        } else if b0 == 0xE0 {
            if n - i < 3 || !(0xA0 <= s[i + 1] && s[i + 1] <= 0xBF) || !is_cont_byte(s[i + 2]) {
                return false;
            }
            3
        } else if (0xE1 <= b0 && b0 <= 0xEC) || b0 == 0xEE || b0 == 0xEF {
            if n - i < 3 || !is_cont_byte(s[i + 1]) || !is_cont_byte(s[i + 2]) {
                return false;
            }
            3
        } else if b0 == 0xED {
            if n - i < 3 || !(0x80 <= s[i + 1] && s[i + 1] <= 0x9F) || !is_cont_byte(s[i + 2]) {
                return false;
            }
            3
        } else if b0 == 0xF0 {
            if n - i < 4 || !(0x90 <= s[i + 1] && s[i + 1] <= 0xBF) || !is_cont_byte(s[i + 2])
                || !is_cont_byte(s[i + 3]) {
                return false;
            }
            4
        } else if 0xF1 <= b0 && b0 <= 0xF3 {
            if n - i < 4 || !is_cont_byte(s[i + 1]) || !is_cont_byte(s[i + 2]) || !is_cont_byte(
                s[i + 3],
            ) {
                return false;
            }
            4
        } else if b0 == 0xF4 {
            if n - i < 4 || !(0x80 <= s[i + 1] && s[i + 1] <= 0x8F) || !is_cont_byte(s[i + 2])
                || !is_cont_byte(s[i + 3]) {
                return false;
            }
            4
        } else {
            return false;
        };
        proof {
            assert(forall|j: int| 0 <= j < t.len() ==> t[j] == s@[i + j]);
            assert(t.skip(w as int) =~= s@.skip(i + w as int));
            assert(is_utf8(t) == is_utf8(s@.skip(i + w as int)));
        }
        i = i + w;
    }
    proof {
        assert(s@.skip(n as int) =~= Seq::<u8>::empty());
    }
    true
}

/// Decides whether `b` is a UTF-8 continuation byte.
fn is_cont_byte(b: u8) -> (r: bool)
    ensures
        r == is_cont(b),
{
    0x80 <= b && b <= 0xBF
}

/// An ASCII hexadecimal digit.
pub open spec fn is_hex(b: u8) -> bool {
    (0x30 <= b && b <= 0x39)  // '0' ..= '9'
     || (0x41 <= b && b <= 0x46)  // 'A' ..= 'F'
     || (0x61 <= b && b <= 0x66)  // 'a' ..= 'f'

}

/// The numeric value of an ASCII hexadecimal digit.
pub open spec fn hex_val(b: u8) -> u8 {
    if 0x30 <= b && b <= 0x39 {
        (b - 0x30) as u8
    } else if 0x41 <= b && b <= 0x46 {
        (b - 0x41 + 10) as u8
    } else if 0x61 <= b && b <= 0x66 {
        (b - 0x61 + 10) as u8
    } else {
        0
    }
}

/// The byte a percent-escape `%hl` denotes.
pub open spec fn hex_byte(h: u8, l: u8) -> u8
    recommends
        is_hex(h),
        is_hex(l),
{
    (hex_val(h) * 16 + hex_val(l)) as u8
}

/// The numeric value of `b` when it is a hexadecimal digit.
fn hex_value(b: u8) -> (r: Option<u8>)
    ensures
        r == if is_hex(b) {
            Some(hex_val(b))
        } else {
            None::<u8>
        },
{
    if 0x30 <= b && b <= 0x39 {
        Some(b - 0x30)
    } else if 0x41 <= b && b <= 0x46 {
        Some(b - 0x41 + 10)
    } else if 0x61 <= b && b <= 0x66 {
        Some(b - 0x61 + 10)
    } else {
        None
    }
}

/// The percent-decoding of `s`: `%hl` escapes become the byte they denote,
/// every other byte stands for itself.  `None` when a `%` is not followed by
/// two hexadecimal digits.
pub open spec fn pct_decode(s: Seq<u8>) -> Option<Seq<u8>>
    decreases s.len(),
{
    if s.len() == 0 {
        Some(Seq::<u8>::empty())
    } else if s[0] == 0x25 {  // '%'
        if s.len() >= 3 && is_hex(s[1]) && is_hex(s[2]) {
            match pct_decode(s.skip(3)) {
                Some(rest) => Some(seq![hex_byte(s[1], s[2])] + rest),
                None => None,
            }
        } else {
            None
        }
    } else {
        match pct_decode(s.skip(1)) {
            Some(rest) => Some(seq![s[0]] + rest),
            None => None,
        }
    }
}

/// A non-empty byte string percent-decodes, if at all, to a non-empty one:
/// every step of the decoding contributes at least one byte.
pub proof fn lemma_pct_decode_nonempty(s: Seq<u8>)
    requires
        s.len() > 0,
        pct_decode(s) is Some,
    ensures
        pct_decode(s).unwrap().len() > 0,
{
}

/// Percent-decodes `s`, or reports the malformed escape with `None`.
pub fn percent_decode(s: &Vec<u8>) -> (r: Option<Vec<u8>>)
    ensures
        match r {
            Some(out) => pct_decode(s@) == Some(out@),
            None => pct_decode(s@) is None,
        },
{
    let n = s.len();
    let mut out: Vec<u8> = Vec::new();
    let mut i: usize = 0;
    proof {
        assert(s@.skip(0) =~= s@);
        assert(out@ + pct_decode(s@).unwrap() =~= pct_decode(s@).unwrap());
    }
    while i < n
        invariant
            n == s@.len(),
            i <= n,
            match pct_decode(s@.skip(i as int)) {
                Some(rest) => pct_decode(s@) == Some(out@ + rest),
                None => pct_decode(s@) is None,
            },
        decreases n - i,
    {
        let ghost t = s@.skip(i as int);
        proof {
            assert(forall|j: int| 0 <= j < t.len() ==> t[j] == s@[i + j]);
        }
        let b = s[i];
        if b == 0x25 {
            if n - i < 3 {
                proof {
                    assert(pct_decode(t) is None);
                }
                return None;
            }
            let h = hex_value(s[i + 1]);
            let l = hex_value(s[i + 2]);
            match (h, l) {
                (Some(hv), Some(lv)) => {
                    out.push(hv * 16 + lv);
                    proof {
                        assert(t.skip(3) =~= s@.skip(i + 3));
                        let rest3 = pct_decode(s@.skip(i + 3));
                        if rest3 is Some {
                            assert(pct_decode(t) == Some(
                                seq![hex_byte(t[1], t[2])] + rest3.unwrap(),
                            ));
                            assert(out@ + rest3.unwrap() =~= (out@.drop_last() + (seq![
                                hex_byte(t[1], t[2]),
                            ] + rest3.unwrap())));
                        } else {
                            assert(pct_decode(t) is None);
                        }
                    }
                    i = i + 3;
                },
                _ => {
                    proof {
                        assert(pct_decode(t) is None);
                    }
                    return None;
                },
            }
        } else {
            out.push(b);
            proof {
                assert(t.skip(1) =~= s@.skip(i + 1));
                let rest1 = pct_decode(s@.skip(i + 1));
                if rest1 is Some {
                    assert(pct_decode(t) == Some(seq![t[0]] + rest1.unwrap()));
                    assert(out@ + rest1.unwrap() =~= (out@.drop_last() + (seq![t[0]]
                        + rest1.unwrap())));
                } else {
                    assert(pct_decode(t) is None);
                }
            }
            i = i + 1;
        }
    }
    proof {
        assert(s@.skip(n as int) =~= Seq::<u8>::empty());
        assert(out@ + Seq::<u8>::empty() =~= out@);
    }
    Some(out)
}

} // verus!
