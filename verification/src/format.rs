//! Rendering a numeric value in hexadecimal or binary text, with a
//! `0x`/`0b` prefix and a `.`-delimited fraction.
//!
//! A finite binary64 value has a finite expansion in any base that is
//! a power of two, so the digits come exactly from the value's bits:
//! the whole part truncates (saturating at the 32-bit limit, as the
//! narrowing cast does), and the fraction, held as a numerator over a
//! power of two, yields one digit per shift.

use vstd::prelude::*;

use crate::ast::spec_kind_prefix;
use crate::eval::Value;
use crate::lexer::NumberKind;
use crate::strutil::{digit_char, spec_digit_char};

verus! {

/// The sign bit of a binary64 bit pattern.
pub open spec fn spec_f64_sign(bits: u64) -> bool {
    bits >> 63 == 1
}

/// The raw exponent field of a binary64 bit pattern.
pub open spec fn spec_f64_exp(bits: u64) -> u64 {
    (bits >> 52) & 0x7FF
}

/// The mantissa field of a binary64 bit pattern.
pub open spec fn spec_f64_man(bits: u64) -> u64 {
    bits & 0xF_FFFF_FFFF_FFFF
}

/// Whether the bits denote a finite value (not an infinity, not the
/// not-a-number forms), the ones this rendering is defined on.
pub open spec fn spec_renderable(bits: u64) -> bool {
    spec_f64_exp(bits) != 0x7FF
}

/// The digits of `n` in radix `r`, most significant first.
pub open spec fn spec_radix_digits(n: u64, r: u64) -> Seq<char>
    recommends
        2 <= r <= 16,
    decreases n,
{
    if n < r || r < 2 {
        seq![spec_digit_char(if n < 16 {
            n
        } else {
            0
        })]
    } else {
        let q = if r == 2 {
            n / 2
        } else {
            n / 16
        };
        spec_radix_digits(q, r).push(spec_digit_char(n % r))
    }
}

/// The fraction digits of `fm / 2^fs` in radix `2^s`, stopping after
/// the last nonzero digit; each step shifts `s` bits out of the
/// numerator.
pub open spec fn spec_frac_digits(fm: u64, fs: u64, s: u64) -> Seq<char>
    recommends
        s == 1 || s == 4,
    decreases fs,
{
    if fm == 0 {
        Seq::empty()
    } else if fs <= s || s == 0 {
        seq![spec_digit_char(if fm << (s - fs) < 16 {
            fm << (s - fs)
        } else {
            0
        })]
    } else {
        let nfs = (fs - s) as u64;
        let d = if nfs >= 53 {
            0u64
        } else {
            fm >> nfs
        };
        let nfm = if nfs >= 53 {
            fm
        } else {
            fm & (((1u64 << nfs) - 1) as u64)
        };
        seq![spec_digit_char(if d < 16 {
            d
        } else {
            0
        })] + spec_frac_digits(nfm, nfs, s)
    }
}

/// The whole part of the value's magnitude, truncated toward zero and
/// saturated at the 32-bit limit, together with the fraction as a
/// numerator `fm` over `2^fs`.
pub open spec fn spec_f64_parts(bits: u64) -> (u64, u64, u64) {
    let exp = spec_f64_exp(bits);
    let man = spec_f64_man(bits);
    if exp >= 1075 {
        (0xFFFF_FFFFu64, 0u64, 0u64)
    } else {
        let m_full = if exp == 0 {
            man
        } else {
            (man + 0x10_0000_0000_0000) as u64
        };
        let shift = if exp == 0 {
            1074u64
        } else {
            (1075 - exp) as u64
        };
        let w64 = if shift >= 64 {
            0u64
        } else {
            m_full >> shift
        };
        let w = if w64 > 0xFFFF_FFFF {
            0xFFFF_FFFFu64
        } else {
            w64
        };
        let fm = if shift >= 64 {
            m_full
        } else {
            m_full & (((1u64 << shift) - 1) as u64)
        };
        (w, fm, shift)
    }
}

/// The rendering of a finite value in hexadecimal or binary: an
/// optional minus, the radix prefix, the whole part's digits, and --
/// when the fraction is not zero -- a dot and the fraction's digits.
pub open spec fn spec_render_radix(bits: u64, kind: NumberKind) -> Seq<char> {
    let neg = spec_f64_sign(bits) && !(spec_f64_exp(bits) == 0 && spec_f64_man(bits) == 0);
    let parts = spec_f64_parts(bits);
    let s = if kind == NumberKind::Bin {
        1u64
    } else {
        4u64
    };
    (if neg {
        "-"@
    } else {
        Seq::empty()
    }) + spec_kind_prefix(kind) + spec_radix_digits(parts.0, kind.spec_radix() as u64) + (if parts.1
        != 0 {
        "."@ + spec_frac_digits(parts.1, parts.2, s)
    } else {
        Seq::empty()
    })
}

/// Append the digits of `n` in radix `r`.
fn push_radix_digits(out: &mut String, n: u64, r: u64)
    requires
        r == 2 || r == 16,
    ensures
        final(out)@ == old(out)@ + spec_radix_digits(n, r),
    decreases n,
{
    if n < r {
        out.push(digit_char(n));
        proof {
            assert(out@ =~= old(out)@ + spec_radix_digits(n, r));
        }
    } else {
        push_radix_digits(out, n / r, r);
        let d = n % r;
        out.push(digit_char(d));
        proof {
            assert(out@ =~= old(out)@ + spec_radix_digits(n, r));
        }
    }
}

/// Append the fraction digits of `fm / 2^fs` in radix `2^s`.
#[verifier::loop_isolation(false)]
fn push_frac_digits(out: &mut String, fm: u64, fs: u64, s: u64)
    requires
        s == 1 || s == 4,
        fm < 0x20_0000_0000_0000,
        fs < 53 ==> fm < (1u64 << fs),
    ensures
        final(out)@ == old(out)@ + spec_frac_digits(fm, fs, s),
{
    let ghost out0 = old(out)@;
    let ghost fm0 = fm;
    let ghost fs0 = fs;
    let mut fm = fm;
    let mut fs = fs;
    let ghost mut emitted: Seq<char> = Seq::empty();
    proof {
        assert(out0 + emitted =~= out0);
        assert(emitted + spec_frac_digits(fm, fs, s) =~= spec_frac_digits(fm, fs, s));
    }
    while fm != 0
        invariant
            out@ == out0 + emitted,
            fm < 0x20_0000_0000_0000,
            fs < 53 ==> fm < (1u64 << fs),
            spec_frac_digits(fm0, fs0, s) == emitted + spec_frac_digits(fm, fs, s),
        decreases fs, fm,
    {
        let ghost em_old = emitted;
        if fs <= s {
            let d = fm << ((s - fs) as u64);
            proof {
                assert(fm << ((s - fs) as u64) < 16) by (bit_vector)
                    requires
                        fm < (1u64 << fs),
                        fs <= s,
                        s <= 4,
                ;
            }
            out.push(digit_char(d));
            proof {
                emitted = emitted + seq![spec_digit_char(d)];
                assert(out@ =~= out0 + emitted);
                assert(spec_frac_digits(fm, fs, s) =~= seq![spec_digit_char(d)]);
                assert(em_old + seq![spec_digit_char(d)] =~= emitted);
                assert(emitted + spec_frac_digits(0u64, fs, s) =~= emitted);
            }
            fm = 0;
        } else {
            let nfs = fs - s;
            let d = if nfs >= 53 {
                0u64
            } else {
                fm >> nfs
            };
            proof {
                if nfs < 53 {
                    assert(fm >> nfs < 16) by (bit_vector)
                        requires
                            fm < 0x20_0000_0000_0000u64,
                            fs < 53 ==> fm < (1u64 << fs),
                            nfs == fs - s,
                            1 <= s <= 4,
                            s < fs,
                            nfs < 53,
                    ;
                }
            }
            out.push(digit_char(d));
            proof {
                if nfs < 53 {
                    assert((1u64 << nfs) >= 1) by (bit_vector)
                        requires
                            nfs < 53,
                    ;
                }
            }
            let nfm = if nfs >= 53 {
                fm
            } else {
                fm & ((1u64 << nfs) - 1)
            };
            proof {
                if nfs < 53 {
                    assert((fm & (((1u64 << nfs) - 1) as u64)) < (1u64 << nfs)) by (bit_vector)
                        requires
                            nfs < 53,
                    ;
                    assert((1u64 << nfs) <= 0x20_0000_0000_0000u64) by (bit_vector)
                        requires
                            nfs < 53,
                    ;
                }
                emitted = emitted + seq![spec_digit_char(d)];
                assert(out@ =~= out0 + emitted);
                assert(em_old + (seq![spec_digit_char(d)] + spec_frac_digits(nfm, nfs, s)) =~= (
                em_old + seq![spec_digit_char(d)]) + spec_frac_digits(nfm, nfs, s));
            }
            fm = nfm;
            fs = nfs;
        }
    }
    proof {
        assert(emitted + spec_frac_digits(fm, fs, s) =~= emitted);
    }
}

/// Rendering in a numeral system: the value as text in the radix the
/// kind names.
pub trait ToStringRadix {
    /// The text the rendering gives.
    spec fn spec_to_string_radix(&self, kind: NumberKind) -> Seq<char>;

    /// The values and radix kinds the rendering is defined on.
    spec fn renderable(&self, kind: NumberKind) -> bool;

    /// Render the value in the radix the kind names.
    fn to_string_radix(&self, kind: NumberKind) -> (s: String)
        requires
            self.renderable(kind),
        ensures
            s@ == self.spec_to_string_radix(kind),
    ;
}

impl ToStringRadix for Value {
    /// The exact digits of the value in the radix, as the bits give
    /// them.
    open spec fn spec_to_string_radix(&self, kind: NumberKind) -> Seq<char> {
        spec_render_radix(self.bits, kind)
    }

    /// Finite values only, and only the hexadecimal and binary forms
    /// (a decimal fraction of a binary value has no finite exact
    /// rendering; decimal output is the host's).
    open spec fn renderable(&self, kind: NumberKind) -> bool {
        spec_renderable(self.bits) && kind != NumberKind::Dec
    }

    fn to_string_radix(&self, kind: NumberKind) -> (s: String)
    {
        let bits = self.bits;
        let sign = bits >> 63;
        let exp = (bits >> 52) & 0x7FF;
        let man = bits & 0xF_FFFF_FFFF_FFFF;
        let neg = sign == 1 && !(exp == 0 && man == 0);
        let s_log: u64 = if matches!(kind, NumberKind::Bin) {
            1
        } else {
            4
        };
        let (w, fm, shift): (u64, u64, u64) = if exp >= 1075 {
            (0xFFFF_FFFF, 0, 0)
        } else {
            proof {
                assert(man + 0x10_0000_0000_0000 < 0x20_0000_0000_0000) by (bit_vector)
                    requires
                        man == bits & 0xF_FFFF_FFFF_FFFF,
                ;
                assert(man < 0x20_0000_0000_0000) by (bit_vector)
                    requires
                        man == bits & 0xF_FFFF_FFFF_FFFF,
                ;
            }
            let m_full: u64 = if exp == 0 {
                man
            } else {
                man + 0x10_0000_0000_0000
            };
            let sh: u64 = if exp == 0 {
                1074
            } else {
                1075 - exp
            };
            let w64: u64 = if sh >= 64 {
                0
            } else {
                m_full >> sh
            };
            let w: u64 = if w64 > 0xFFFF_FFFF {
                0xFFFF_FFFF
            } else {
                w64
            };
            proof {
                if sh < 64 {
                    assert((1u64 << sh) >= 1) by (bit_vector)
                        requires
                            sh < 64,
                    ;
                }
            }
            let fm: u64 = if sh >= 64 {
                m_full
            } else {
                m_full & ((1u64 << sh) - 1)
            };
            proof {
                if sh < 64 {
                    assert((m_full & (((1u64 << sh) - 1) as u64)) < (1u64 << sh)) by (bit_vector)
                        requires
                            sh < 64,
                    ;
                    assert(m_full & (((1u64 << sh) - 1) as u64) <= m_full) by (bit_vector);
                    if sh < 53 {
                        assert((1u64 << sh) <= 0x20_0000_0000_0000u64) by (bit_vector)
                            requires
                                sh < 53,
                        ;
                    }
                }
            }
            (w, fm, sh)
        };
        let mut out = String::new();
        if neg {
            out.push('-');
        }
        match kind {
            NumberKind::Dec => {},
            NumberKind::Hex => out.append("0x"),
            NumberKind::Bin => out.append("0b"),
        }
        let radix: u64 = if matches!(kind, NumberKind::Bin) {
            2
        } else {
            16
        };
        push_radix_digits(&mut out, w, radix);
        if fm != 0 {
            out.push('.');
            push_frac_digits(&mut out, fm, shift, s_log);
        }
        proof {
            reveal_strlit("-");
            reveal_strlit(".");
            assert("-"@ =~= seq!['-']);
            assert("."@ =~= seq!['.']);
            let parts = spec_f64_parts(bits);
            assert(w == parts.0);
            assert(fm == parts.1);
            assert(shift == parts.2);
            assert(out@ =~= spec_render_radix(bits, kind));
        }
        out
    }
}

} // verus!
