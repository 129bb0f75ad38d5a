//! Exact fixed-point decimal numbers.
//!
//! A [`Decimal`] is a sign, a mantissa of 96 bits and a scale from 0 to 28: it
//! stands for the mantissa divided by ten to the power of the scale. Nothing is
//! ever rounded: two decimals are equal when sign, mantissa and scale are.

use vstd::prelude::*;
use vstd::std_specs::convert::FromSpecImpl;
use vstd::string::StringExecFns;
use crate::text::{digits, padded, write_digits, write_padded};
use crate::wire::{decode, le_bytes, lemma_head, lemma_le_len, lemma_round_trip, Wire};

verus! {

/// The largest scale of a [`Decimal`].
pub const MAX_SCALE: u32 = 28;

/// Two to the power of 32.
const WORD: u64 = 0x1_0000_0000;

/// An exact fixed-point decimal number.
#[derive(Clone, Copy, PartialEq, Eq, Hash, Debug, Structural)]
pub struct Decimal {
    negative: bool,
    scale: u32,
    lo: u32,
    mid: u32,
    hi: u32,
}

/// The flags word of a decimal: the scale in bits 16 to 23, the sign in bit 31.
pub open spec fn flags_of(negative: bool, scale: u32) -> u32
    recommends
        scale <= MAX_SCALE,
{
    (scale * 0x1_0000 + if negative {
        0x8000_0000int
    } else {
        0int
    }) as u32
}

/// Ten to the power of `k`.
pub open spec fn pow10(k: nat) -> nat
    decreases k,
{
    if k == 0 {
        1
    } else {
        10 * pow10((k - 1) as nat)
    }
}

/// Ten to the power of a scale is a one with 28 zeros at most.
pub proof fn lemma_pow10(k: nat)
    requires
        k <= MAX_SCALE,
    ensures
        1 <= pow10(k) <= 10_000_000_000_000_000_000_000_000_000,
        k < MAX_SCALE ==> pow10(k) <= 1_000_000_000_000_000_000_000_000_000,
    decreases MAX_SCALE - k,
{
    if k < MAX_SCALE {
        lemma_pow10(k + 1);
    } else {
        lemma_pow10_values();
    }
}

/// The powers of ten up to the largest scale.
proof fn lemma_pow10_values()
    ensures
        pow10(28) == 10_000_000_000_000_000_000_000_000_000,
{
    assert(pow10(0) == 1);
    assert(pow10(4) == 10_000) by {
        reveal_with_fuel(pow10, 5);
    }
    assert(pow10(8) == 10_000 * pow10(4)) by {
        reveal_with_fuel(pow10, 5);
    }
    assert(pow10(12) == 10_000 * pow10(8)) by {
        reveal_with_fuel(pow10, 5);
    }
    assert(pow10(16) == 10_000 * pow10(12)) by {
        reveal_with_fuel(pow10, 5);
    }
    assert(pow10(20) == 10_000 * pow10(16)) by {
        reveal_with_fuel(pow10, 5);
    }
    assert(pow10(24) == 10_000 * pow10(20)) by {
        reveal_with_fuel(pow10, 5);
    }
    assert(pow10(28) == 10_000 * pow10(24)) by {
        reveal_with_fuel(pow10, 5);
    }
}

/// Ten to the power of `k`.
fn ten_to(k: u32) -> (unit: u128)
    requires
        k <= MAX_SCALE,
    ensures
        unit == pow10(k as nat),
        unit >= 1,
{
    let mut unit: u128 = 1;
    let mut i: u32 = 0;
    while i < k
        invariant
            i <= k <= MAX_SCALE,
            unit == pow10(i as nat),
        decreases k - i,
    {
        proof {
            lemma_pow10(i as nat);
        }
        unit = unit * 10;
        i += 1;
    }
    proof {
        lemma_pow10(k as nat);
    }
    unit
}

impl Decimal {
    #[verifier::type_invariant]
    spec fn inv(self) -> bool {
        self.scale <= MAX_SCALE
    }

    /// The number is written with a minus sign.
    pub closed spec fn spec_negative(self) -> bool {
        self.negative
    }

    /// The number of digits behind the decimal point.
    pub closed spec fn spec_scale(self) -> u32 {
        self.scale
    }

    /// The low 32 bits of the mantissa.
    pub closed spec fn spec_lo(self) -> u32 {
        self.lo
    }

    /// The middle 32 bits of the mantissa.
    pub closed spec fn spec_mid(self) -> u32 {
        self.mid
    }

    /// The high 32 bits of the mantissa.
    pub closed spec fn spec_hi(self) -> u32 {
        self.hi
    }

    /// The decimal with these parts.
    pub closed spec fn spec_from_parts(
        lo: u32,
        mid: u32,
        hi: u32,
        negative: bool,
        scale: u32,
    ) -> Decimal {
        Decimal { negative, scale, lo, mid, hi }
    }

    /// The mantissa, without its sign.
    pub open spec fn spec_magnitude(self) -> nat {
        (self.spec_lo() + self.spec_mid() * 0x1_0000_0000 + self.spec_hi()
            * 0x1_0000_0000_0000_0000) as nat
    }

    /// The scale is one that a decimal can have.
    pub open spec fn wf(self) -> bool {
        self.spec_scale() <= MAX_SCALE
    }

    /// A decimal made of parts has these parts.
    pub proof fn lemma_parts(lo: u32, mid: u32, hi: u32, negative: bool, scale: u32)
        ensures
            Decimal::spec_from_parts(lo, mid, hi, negative, scale).spec_lo() == lo,
            Decimal::spec_from_parts(lo, mid, hi, negative, scale).spec_mid() == mid,
            Decimal::spec_from_parts(lo, mid, hi, negative, scale).spec_hi() == hi,
            Decimal::spec_from_parts(lo, mid, hi, negative, scale).spec_negative() == negative,
            Decimal::spec_from_parts(lo, mid, hi, negative, scale).spec_scale() == scale,
    {
    }

    /// Decimals with the same parts are the same decimal.
    pub proof fn lemma_ext(a: Decimal, b: Decimal)
        requires
            a.spec_lo() == b.spec_lo(),
            a.spec_mid() == b.spec_mid(),
            a.spec_hi() == b.spec_hi(),
            a.spec_negative() == b.spec_negative(),
            a.spec_scale() == b.spec_scale(),
        ensures
            a == b,
    {
    }

    /// Exactness: a decimal is read back from its encoding as it was written,
    /// with the same sign, the same mantissa and the same scale, whatever
    /// bytes follow the encoding; and decimals with one encoding are one
    /// decimal.
    pub proof fn lemma_exact(d: Decimal, other: Decimal, rest: Seq<u8>)
        requires
            d.wf(),
            other.wf(),
        ensures
            decode::<Decimal>(<Decimal as Wire>::bytes(d) + rest) == Some(d),
            <Decimal as Wire>::bytes(d) == <Decimal as Wire>::bytes(other) ==> d == other,
            <Decimal as Wire>::bytes(d).len() == 16,
    {
        lemma_round_trip::<Decimal>(d, rest);
        if <Decimal as Wire>::bytes(d) == <Decimal as Wire>::bytes(other) {
            <Decimal as Wire>::lemma_prefix_free(d, other);
        }
        lemma_le_len(flags_of(d.spec_negative(), d.spec_scale()) as nat, 4);
        lemma_le_len(d.spec_lo() as nat, 4);
        lemma_le_len(d.spec_mid() as nat, 4);
        lemma_le_len(d.spec_hi() as nat, 4);
    }

    /// The first four bytes of a decimal: two zeros, the scale, and 128 for a
    /// minus sign or 0 for none.
    pub proof fn lemma_flags_bytes(d: Decimal)
        requires
            d.wf(),
        ensures
            <Decimal as Wire>::bytes(d).subrange(0, 4) == seq![
                0u8,
                0u8,
                d.spec_scale() as u8,
                if d.spec_negative() {
                    0x80u8
                } else {
                    0u8
                },
            ],
    {
        reveal_with_fuel(le_bytes, 5);
        let flags = flags_of(d.spec_negative(), d.spec_scale());
        lemma_le_len(flags as nat, 4);
        assert(<Decimal as Wire>::bytes(d).subrange(0, 4) =~= le_bytes(flags as nat, 4));
        assert(le_bytes(flags as nat, 4) =~= seq![
            0u8,
            0u8,
            d.spec_scale() as u8,
            if d.spec_negative() {
                0x80u8
            } else {
                0u8
            },
        ]);
    }

    /// The number in decimal notation: a minus sign where the decimal has one,
    /// the whole part without leading zeros, and, where the scale is not 0, a
    /// point and as many digits as the scale says.
    pub open spec fn spec_text(self) -> Seq<char> {
        let unit = pow10(self.spec_scale() as nat);
        let sign = if self.spec_negative() {
            "-"@
        } else {
            Seq::empty()
        };
        let fraction = if self.spec_scale() > 0 {
            "."@ + padded(self.spec_magnitude() % unit, self.spec_scale() as nat)
        } else {
            Seq::empty()
        };
        sign + digits(self.spec_magnitude() / unit) + fraction
    }

    /// The decimal with the given mantissa words, sign and scale.
    pub fn from_parts(lo: u32, mid: u32, hi: u32, negative: bool, scale: u32) -> (d: Decimal)
        requires
            scale <= MAX_SCALE,
        ensures
            d == Decimal::spec_from_parts(lo, mid, hi, negative, scale),
            d.spec_lo() == lo,
            d.spec_mid() == mid,
            d.spec_hi() == hi,
            d.spec_negative() == negative,
            d.spec_scale() == scale,
    {
        Decimal { negative, scale, lo, mid, hi }
    }

    /// The decimal `num` divided by ten to the power of `scale`: the sign of
    /// `num`, its magnitude in the two lower words, and the scale.
    pub open spec fn spec_new(num: i64, scale: u32) -> Decimal {
        let magnitude = if num < 0 {
            -num
        } else {
            num as int
        };
        Decimal::spec_from_parts(
            (magnitude % 0x1_0000_0000) as u32,
            (magnitude / 0x1_0000_0000) as u32,
            0,
            num < 0,
            scale,
        )
    }

    /// The decimal of `num` and `scale` has the magnitude of `num`.
    pub proof fn lemma_new(num: i64, scale: u32)
        ensures
            Decimal::spec_new(num, scale).spec_magnitude() == if num < 0 {
                -num
            } else {
                num as int
            },
            Decimal::spec_new(num, scale).spec_negative() == (num < 0),
            Decimal::spec_new(num, scale).spec_scale() == scale,
    {
    }

    /// The decimal `num` divided by ten to the power of `scale`.
    pub fn new(num: i64, scale: u32) -> (d: Decimal)
        requires
            scale <= MAX_SCALE,
        ensures
            d == Decimal::spec_new(num, scale),
            d.spec_negative() == (num < 0),
            d.spec_scale() == scale,
            d.spec_hi() == 0,
            d.spec_mid() * 0x1_0000_0000 + d.spec_lo() == if num < 0 {
                -num
            } else {
                num as int
            },
    {
        let magnitude: u64 = if num >= 0 {
            num as u64
        } else if num == i64::MIN {
            0x8000_0000_0000_0000
        } else {
            (-num) as u64
        };
        Decimal {
            negative: num < 0,
            scale,
            lo: (magnitude % WORD) as u32,
            mid: (magnitude / WORD) as u32,
            hi: 0,
        }
    }

    /// As [`Decimal::new`], for every scale: `None` where the scale is over
    /// [`MAX_SCALE`].
    pub fn try_new(num: i64, scale: u32) -> (r: Option<Decimal>)
        ensures
            r == if scale <= MAX_SCALE {
                Some(Decimal::spec_new(num, scale))
            } else {
                None
            },
    {
        if scale > MAX_SCALE {
            None
        } else {
            Some(Decimal::new(num, scale))
        }
    }

    /// The number of digits behind the decimal point.
    pub fn scale(&self) -> (s: u32)
        ensures
            s == self.spec_scale(),
            s <= MAX_SCALE,
    {
        proof {
            use_type_invariant(self);
        }
        self.scale
    }

    /// The number is written with a minus sign.
    pub fn is_sign_negative(&self) -> (b: bool)
        ensures
            b == self.spec_negative(),
    {
        self.negative
    }

    /// The mantissa words, the least significant first.
    pub fn words(&self) -> (w: (u32, u32, u32))
        ensures
            w == (self.spec_lo(), self.spec_mid(), self.spec_hi()),
    {
        (self.lo, self.mid, self.hi)
    }

    /// The mantissa with its sign.
    pub fn mantissa(&self) -> (m: i128)
        ensures
            m == if self.spec_negative() {
                -(self.spec_magnitude() as int)
            } else {
                self.spec_magnitude() as int
            },
    {
        let magnitude: i128 = self.lo as i128 + self.mid as i128 * 0x1_0000_0000
            + self.hi as i128 * 0x1_0000_0000_0000_0000;
        if self.negative {
            -magnitude
        } else {
            magnitude
        }
    }

    /// The number in decimal notation.
    pub fn to_text(&self) -> (text: String)
        ensures
            text@ == self.spec_text(),
    {
        proof {
            use_type_invariant(self);
        }
        let magnitude: u128 = self.lo as u128 + self.mid as u128 * 0x1_0000_0000 + self.hi as u128
            * 0x1_0000_0000_0000_0000;
        let unit = ten_to(self.scale);
        let mut text = String::new();
        if self.negative {
            text.append("-");
        }
        write_digits(magnitude / unit, &mut text);
        if self.scale > 0 {
            text.append(".");
            write_padded(magnitude % unit, self.scale, &mut text);
        }
        assert(text@ =~= self.spec_text());
        text
    }

    /// The flags word: the scale in bits 16 to 23, the sign in bit 31.
    fn flags(&self) -> (f: u32)
        ensures
            f == flags_of(self.spec_negative(), self.spec_scale()),
            self.wf(),
    {
        proof {
            use_type_invariant(self);
        }
        let sign: u32 = if self.negative {
            0x8000_0000
        } else {
            0
        };
        self.scale * 0x1_0000 + sign
    }
}

impl From<u64> for Decimal {
    fn from(n: u64) -> (d: Decimal) {
        Decimal { negative: false, scale: 0, lo: (n % WORD) as u32, mid: (n / WORD) as u32, hi: 0 }
    }
}

impl FromSpecImpl<u64> for Decimal {
    open spec fn obeys_from_spec() -> bool {
        true
    }

    /// The whole number `n`: scale 0, no sign.
    open spec fn from_spec(n: u64) -> Decimal {
        Decimal::spec_from_parts(
            (n % 0x1_0000_0000) as u32,
            (n / 0x1_0000_0000) as u32,
            0,
            false,
            0,
        )
    }
}

/// The parts of a decimal in the order of its encoding.
pub type DecimalWords = (u32, (u32, (u32, u32)));

impl Wire for Decimal {
    type Model = Decimal;

    open spec fn model(&self) -> Decimal {
        *self
    }

    open spec fn valid(m: Decimal) -> bool {
        m.wf()
    }

    /// Sixteen bytes: the flags word, then the low, the middle and the high
    /// word of the mantissa, each with its least significant byte first.
    open spec fn bytes(m: Decimal) -> Seq<u8> {
        <DecimalWords as Wire>::bytes(
            (flags_of(m.spec_negative(), m.spec_scale()), (m.spec_lo(), (m.spec_mid(), m.spec_hi()))),
        )
    }

    proof fn lemma_nonempty(m: Decimal) {
        <DecimalWords as Wire>::lemma_nonempty(
            (flags_of(m.spec_negative(), m.spec_scale()), (m.spec_lo(), (m.spec_mid(), m.spec_hi()))),
        );
    }

    proof fn lemma_prefix_free(a: Decimal, b: Decimal) {
        <DecimalWords as Wire>::lemma_prefix_free(
            (flags_of(a.spec_negative(), a.spec_scale()), (a.spec_lo(), (a.spec_mid(), a.spec_hi()))),
            (flags_of(b.spec_negative(), b.spec_scale()), (b.spec_lo(), (b.spec_mid(), b.spec_hi()))),
        );
        Decimal::lemma_ext(a, b);
    }

    fn put(&self, out: &mut Vec<u8>) {
        let words: DecimalWords = (self.flags(), (self.lo, (self.mid, self.hi)));
        words.put(out);
    }

    fn read(buf: &[u8], start: usize) -> (r: Option<(Decimal, usize)>) {
        let ghost s = buf@.skip(start as int);
        match <DecimalWords as Wire>::read(buf, start) {
            None => {
                assert forall|m: Decimal| Self::valid(m) implies !(#[trigger] Self::bytes(
                    m,
                )).is_prefix_of(s) by {
                    let w = (
                        flags_of(m.spec_negative(), m.spec_scale()),
                        (m.spec_lo(), (m.spec_mid(), m.spec_hi())),
                    );
                    assert(Self::bytes(m) == <DecimalWords as Wire>::bytes(w));
                }
                None
            },
            Some(((flags, (lo, (mid, hi))), end)) => {
                let negative = flags >= 0x8000_0000;
                let rest: u32 = if negative {
                    flags - 0x8000_0000
                } else {
                    flags
                };
                let scale = rest / 0x1_0000;
                if rest % 0x1_0000 != 0 || scale > MAX_SCALE {
                    assert forall|m: Decimal| Self::valid(m) implies !(#[trigger] Self::bytes(
                        m,
                    )).is_prefix_of(s) by {
                        if Self::bytes(m).is_prefix_of(s) {
                            let f = flags_of(m.spec_negative(), m.spec_scale());
                            let tail = (m.spec_lo(), (m.spec_mid(), m.spec_hi()));
                            let ptail = (lo, (mid, hi));
                            assert(s =~= <DecimalWords as Wire>::bytes((flags, ptail)) + buf@.skip(
                                end as int,
                            ));
                            assert(<DecimalWords as Wire>::bytes((f, tail)) + Seq::<u8>::empty()
                                =~= <DecimalWords as Wire>::bytes((f, tail)));
                            lemma_head::<DecimalWords>(
                                (f, tail),
                                Seq::empty(),
                                (flags, ptail),
                                buf@.skip(end as int),
                            );
                        }
                    }
                    return None;
                }
                Some((Decimal { negative, scale, lo, mid, hi }, end))
            },
        }
    }
}

} // verus!
