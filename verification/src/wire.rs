//! Byte encodings of values, and what makes them decodable in one way only.
//!
//! A type that is [`Wire`] says which bytes stand for each of its values. No
//! encoding of one value begins the encoding of another, so a reader that knows
//! the type finds where a value ends without a terminator, and finds one value
//! at most.

use vstd::prelude::*;
use vstd::slice::*;
use vstd::utf8::*;

verus! {

/// A value with a byte encoding.
pub trait Wire: Sized {
    /// The mathematical value that an encoding stands for.
    type Model;

    /// The mathematical value of `self`.
    spec fn model(&self) -> Self::Model;

    /// The mathematical values that a value in memory can have.
    spec fn valid(m: Self::Model) -> bool;

    /// The encoding of `m`.
    spec fn bytes(m: Self::Model) -> Seq<u8>;

    /// No value has the empty encoding.
    proof fn lemma_nonempty(m: Self::Model)
        requires
            Self::valid(m),
        ensures
            Self::bytes(m).len() > 0,
    ;

    /// An encoding that begins another one is the encoding of the same value.
    proof fn lemma_prefix_free(a: Self::Model, b: Self::Model)
        requires
            Self::valid(a),
            Self::valid(b),
            Self::bytes(a).is_prefix_of(Self::bytes(b)),
        ensures
            a == b,
    ;

    /// Appends the encoding of `self` to `out`.
    fn put(&self, out: &mut Vec<u8>)
        ensures
            Self::valid(self.model()),
            final(out)@ == old(out)@ + Self::bytes(self.model()),
    ;

    /// Reads the value whose encoding begins at `start`, and says where it ends.
    /// `None` means that no value's encoding begins there.
    fn read(buf: &[u8], start: usize) -> (r: Option<(Self, usize)>)
        requires
            start <= buf@.len(),
        ensures
            match r {
                Some((v, end)) => {
                    &&& start <= end <= buf@.len()
                    &&& Self::valid(v.model())
                    &&& buf@.subrange(start as int, end as int) == Self::bytes(v.model())
                },
                None => forall|m: Self::Model|
                    Self::valid(m) ==> !(#[trigger] Self::bytes(m)).is_prefix_of(
                        buf@.skip(start as int),
                    ),
            },
    ;
}

/// `m` is the value whose encoding begins `s`.
pub open spec fn begins_with<T: Wire>(s: Seq<u8>, m: T::Model) -> bool {
    T::valid(m) && T::bytes(m).is_prefix_of(s)
}

/// The value whose encoding begins `s`, if there is one.
pub open spec fn decode<T: Wire>(s: Seq<u8>) -> Option<T::Model> {
    if exists|m: T::Model| begins_with::<T>(s, m) {
        Some(choose|m: T::Model| begins_with::<T>(s, m))
    } else {
        None
    }
}

/// Two sequences that begin a third: the shorter begins the longer.
pub proof fn lemma_prefixes_nest(x: Seq<u8>, y: Seq<u8>, s: Seq<u8>)
    requires
        x.is_prefix_of(s),
        y.is_prefix_of(s),
        x.len() <= y.len(),
    ensures
        x.is_prefix_of(y),
{
    assert(x =~= y.subrange(0, x.len() as int));
}

/// Where two encodings, each followed by more bytes, begin one another, they are
/// encodings of one value, and what follows the first begins what follows the
/// second.
pub proof fn lemma_head<T: Wire>(a: T::Model, ra: Seq<u8>, b: T::Model, rb: Seq<u8>)
    requires
        T::valid(a),
        T::valid(b),
        (T::bytes(a) + ra).is_prefix_of(T::bytes(b) + rb),
    ensures
        a == b,
        ra.is_prefix_of(rb),
{
    let ea = T::bytes(a);
    let eb = T::bytes(b);
    let whole = eb + rb;
    assert(ea.is_prefix_of(whole)) by {
        assert(ea =~= (ea + ra).subrange(0, ea.len() as int));
        assert(ea =~= whole.subrange(0, ea.len() as int));
    }
    assert(eb.is_prefix_of(whole)) by {
        assert(eb =~= whole.subrange(0, eb.len() as int));
    }
    if ea.len() <= eb.len() {
        lemma_prefixes_nest(ea, eb, whole);
        T::lemma_prefix_free(a, b);
    } else {
        lemma_prefixes_nest(eb, ea, whole);
        T::lemma_prefix_free(b, a);
    }
    assert(ra =~= rb.subrange(0, ra.len() as int)) by {
        assert forall|i: int| 0 <= i < ra.len() implies ra[i] == rb[i] by {
            assert((ea + ra)[ea.len() + i] == whole[ea.len() + i]);
        }
    }
}

/// The value that begins a sequence is the only one that does.
pub proof fn lemma_decode_unique<T: Wire>(s: Seq<u8>, m: T::Model)
    requires
        begins_with::<T>(s, m),
    ensures
        decode::<T>(s) == Some(m),
{
    let c = choose|c: T::Model| begins_with::<T>(s, c);
    if T::bytes(m).len() <= T::bytes(c).len() {
        lemma_prefixes_nest(T::bytes(m), T::bytes(c), s);
        T::lemma_prefix_free(m, c);
    } else {
        lemma_prefixes_nest(T::bytes(c), T::bytes(m), s);
        T::lemma_prefix_free(c, m);
    }
}

/// Decoding what was encoded gives the value back, whatever follows it.
pub proof fn lemma_round_trip<T: Wire>(m: T::Model, rest: Seq<u8>)
    requires
        T::valid(m),
    ensures
        decode::<T>(T::bytes(m) + rest) == Some(m),
{
    assert(T::bytes(m) =~= (T::bytes(m) + rest).subrange(0, T::bytes(m).len() as int));
    lemma_decode_unique::<T>(T::bytes(m) + rest, m);
}

/// 256 to the power of `n`.
pub open spec fn pow256(n: nat) -> nat
    decreases n,
{
    if n == 0 {
        1
    } else {
        256 * pow256((n - 1) as nat)
    }
}

/// The `n` low bytes of `x`, the least significant first.
pub open spec fn le_bytes(x: nat, n: nat) -> Seq<u8>
    decreases n,
{
    if n == 0 {
        Seq::empty()
    } else {
        seq![(x % 256) as u8] + le_bytes(x / 256, (n - 1) as nat)
    }
}

/// The number whose bytes `s` holds, the least significant first.
pub open spec fn le_value(s: Seq<u8>) -> nat
    decreases s.len(),
{
    if s.len() == 0 {
        0
    } else {
        s[0] as nat + 256 * le_value(s.drop_first())
    }
}

/// The powers of 256 that bound the whole numbers of 16, 32 and 64 bits.
pub proof fn lemma_pow256()
    ensures
        pow256(0) == 1,
        pow256(1) == 0x100,
        pow256(2) == 0x1_0000,
        pow256(4) == 0x1_0000_0000,
        pow256(8) == 0x1_0000_0000_0000_0000,
{
    assert(pow256(0) == 1);
    assert(pow256(1) == 0x100);
    assert(pow256(2) == 0x1_0000);
    assert(pow256(3) == 0x100_0000);
    assert(pow256(4) == 0x1_0000_0000);
    assert(pow256(5) == 0x100_0000_0000);
    assert(pow256(6) == 0x1_0000_0000_0000);
    assert(pow256(7) == 0x100_0000_0000_0000);
    assert(pow256(8) == 0x1_0000_0000_0000_0000);
}

/// A higher power of 256 is no smaller.
pub proof fn lemma_pow256_grows(a: nat, b: nat)
    requires
        a <= b,
    ensures
        1 <= pow256(a) <= pow256(b),
    decreases b,
{
    if b > 0 {
        if a < b {
            lemma_pow256_grows(a, (b - 1) as nat);
        } else {
            lemma_pow256_grows((a - 1) as nat, (b - 1) as nat);
        }
    }
}

/// `n` bytes are `n` bytes.
pub proof fn lemma_le_len(x: nat, n: nat)
    ensures
        le_bytes(x, n).len() == n,
    decreases n,
{
    if n > 0 {
        lemma_le_len(x / 256, (n - 1) as nat);
    }
}

/// A number that `n` bytes can hold is read back from its `n` bytes.
pub proof fn lemma_le_value(x: nat, n: nat)
    requires
        x < pow256(n),
    ensures
        le_value(le_bytes(x, n)) == x,
    decreases n,
{
    if n > 0 {
        lemma_le_value(x / 256, (n - 1) as nat);
        lemma_le_len(x / 256, (n - 1) as nat);
        let s = le_bytes(x, n);
        assert(s.drop_first() =~= le_bytes(x / 256, (n - 1) as nat));
        assert(s[0] == (x % 256) as u8);
    }
}

/// Bytes are the bytes of the number that they hold, and that number is one
/// that so many bytes can hold.
pub proof fn lemma_le_bytes(s: Seq<u8>)
    ensures
        le_bytes(le_value(s), s.len()) == s,
        le_value(s) < pow256(s.len()),
    decreases s.len(),
{
    if s.len() > 0 {
        lemma_le_bytes(s.drop_first());
        let v = le_value(s);
        let r = le_value(s.drop_first());
        assert(v % 256 == s[0] as nat);
        assert(v / 256 == r);
        assert(le_bytes(v, s.len()) =~= s);
    } else {
        assert(le_bytes(0, 0) =~= s);
    }
}

/// Appends the `n` low bytes of `x`, the least significant first.
pub fn put_le(x: u64, n: usize, out: &mut Vec<u8>)
    ensures
        final(out)@ == old(out)@ + le_bytes(x as nat, n as nat),
{
    let ghost whole = out@ + le_bytes(x as nat, n as nat);
    let mut rest = x;
    let mut i: usize = 0;
    while i < n
        invariant
            i <= n,
            out@ + le_bytes(rest as nat, (n - i) as nat) =~= whole,
        decreases n - i,
    {
        let ghost before = out@;
        out.push((rest % 256) as u8);
        assert(out@ + le_bytes((rest / 256) as nat, (n - i - 1) as nat) =~= before + le_bytes(
            rest as nat,
            (n - i) as nat,
        ));
        rest = rest / 256;
        i += 1;
    }
    assert(out@ + le_bytes(rest as nat, 0) =~= out@);
}

/// The number that the `n` bytes from `start` on hold, the least significant
/// first.
pub fn read_le(buf: &[u8], start: usize, n: usize) -> (v: u64)
    requires
        n <= 8,
        start + n <= buf@.len(),
    ensures
        v == le_value(buf@.subrange(start as int, start + n)),
        v < pow256(n as nat),
{
    let len = buf.len();
    let mut v: u64 = 0;
    let mut i: usize = n;
    assert(buf@.subrange(start + n, start + n) =~= Seq::<u8>::empty());
    while i > 0
        invariant
            i <= n <= 8,
            start + n <= buf@.len(),
            buf@.len() == len,
            v == le_value(buf@.subrange(start + i, start + n)),
            v < pow256((n - i) as nat),
        decreases i,
    {
        i -= 1;
        proof {
            lemma_pow256();
            lemma_pow256_grows((n - i) as nat, 8);
            let s = buf@.subrange(start + i, start + n);
            assert(s.drop_first() =~= buf@.subrange(start + i + 1, start + n));
            assert(pow256((n - i) as nat) == 256 * pow256((n - i - 1) as nat));
        }
        v = v * 256 + buf[start + i] as u64;
    }
    v
}

impl Wire for u64 {
    type Model = u64;

    open spec fn model(&self) -> u64 {
        *self
    }

    open spec fn valid(m: u64) -> bool {
        true
    }

    /// Eight bytes, the least significant first.
    open spec fn bytes(m: u64) -> Seq<u8> {
        le_bytes(m as nat, 8)
    }

    proof fn lemma_nonempty(m: u64) {
        lemma_le_len(m as nat, 8);
    }

    proof fn lemma_prefix_free(a: u64, b: u64) {
        lemma_le_len(a as nat, 8);
        lemma_le_len(b as nat, 8);
        assert(le_bytes(a as nat, 8) =~= le_bytes(b as nat, 8));
        lemma_pow256();
        lemma_le_value(a as nat, 8);
        lemma_le_value(b as nat, 8);
    }

    fn put(&self, out: &mut Vec<u8>) {
        put_le(*self, 8, out);
    }

    fn read(buf: &[u8], start: usize) -> (r: Option<(u64, usize)>) {
        if buf.len() - start < 8 {
            assert forall|m: u64| !(#[trigger] Self::bytes(m)).is_prefix_of(
                buf@.skip(start as int),
            ) by {
                lemma_le_len(m as nat, 8);
            }
            return None;
        }
        let v = read_le(buf, start, 8);
        proof {
            lemma_le_bytes(buf@.subrange(start as int, start + 8));
        }
        Some((v, start + 8))
    }
}

impl Wire for u32 {
    type Model = u32;

    open spec fn model(&self) -> u32 {
        *self
    }

    open spec fn valid(m: u32) -> bool {
        true
    }

    /// Four bytes, the least significant first.
    open spec fn bytes(m: u32) -> Seq<u8> {
        le_bytes(m as nat, 4)
    }

    proof fn lemma_nonempty(m: u32) {
        lemma_le_len(m as nat, 4);
    }

    proof fn lemma_prefix_free(a: u32, b: u32) {
        lemma_le_len(a as nat, 4);
        lemma_le_len(b as nat, 4);
        assert(le_bytes(a as nat, 4) =~= le_bytes(b as nat, 4));
        lemma_pow256();
        lemma_le_value(a as nat, 4);
        lemma_le_value(b as nat, 4);
    }

    fn put(&self, out: &mut Vec<u8>) {
        put_le(*self as u64, 4, out);
    }

    fn read(buf: &[u8], start: usize) -> (r: Option<(u32, usize)>) {
        if buf.len() - start < 4 {
            assert forall|m: u32| !(#[trigger] Self::bytes(m)).is_prefix_of(
                buf@.skip(start as int),
            ) by {
                lemma_le_len(m as nat, 4);
            }
            return None;
        }
        let v = read_le(buf, start, 4);
        proof {
            lemma_pow256();
            lemma_le_bytes(buf@.subrange(start as int, start + 4));
        }
        Some((v as u32, start + 4))
    }
}

impl Wire for u16 {
    type Model = u16;

    open spec fn model(&self) -> u16 {
        *self
    }

    open spec fn valid(m: u16) -> bool {
        true
    }

    /// Two bytes, the less significant first.
    open spec fn bytes(m: u16) -> Seq<u8> {
        le_bytes(m as nat, 2)
    }

    proof fn lemma_nonempty(m: u16) {
        lemma_le_len(m as nat, 2);
    }

    proof fn lemma_prefix_free(a: u16, b: u16) {
        lemma_le_len(a as nat, 2);
        lemma_le_len(b as nat, 2);
        assert(le_bytes(a as nat, 2) =~= le_bytes(b as nat, 2));
        lemma_pow256();
        lemma_le_value(a as nat, 2);
        lemma_le_value(b as nat, 2);
    }

    fn put(&self, out: &mut Vec<u8>) {
        put_le(*self as u64, 2, out);
    }

    fn read(buf: &[u8], start: usize) -> (r: Option<(u16, usize)>) {
        if buf.len() - start < 2 {
            assert forall|m: u16| !(#[trigger] Self::bytes(m)).is_prefix_of(
                buf@.skip(start as int),
            ) by {
                lemma_le_len(m as nat, 2);
            }
            return None;
        }
        let v = read_le(buf, start, 2);
        proof {
            lemma_pow256();
            lemma_le_bytes(buf@.subrange(start as int, start + 2));
        }
        Some((v as u16, start + 2))
    }
}

impl Wire for bool {
    type Model = bool;

    open spec fn model(&self) -> bool {
        *self
    }

    open spec fn valid(m: bool) -> bool {
        true
    }

    /// One byte: 1 for `true`, 0 for `false`.
    open spec fn bytes(m: bool) -> Seq<u8> {
        seq![if m { 1u8 } else { 0u8 }]
    }

    proof fn lemma_nonempty(m: bool) {
    }

    proof fn lemma_prefix_free(a: bool, b: bool) {
        assert(Self::bytes(a)[0] == Self::bytes(b).subrange(0, 1)[0]);
    }

    fn put(&self, out: &mut Vec<u8>) {
        let b: u8 = if *self { 1 } else { 0 };
        out.push(b);
        assert(final(out)@ =~= old(out)@ + Self::bytes(*self));
    }

    fn read(buf: &[u8], start: usize) -> (r: Option<(bool, usize)>) {
        if buf.len() - start < 1 {
            return None;
        }
        let b = buf[start];
        if b == 0 {
            assert(buf@.subrange(start as int, start + 1) =~= Self::bytes(false));
            Some((false, start + 1))
        } else if b == 1 {
            assert(buf@.subrange(start as int, start + 1) =~= Self::bytes(true));
            Some((true, start + 1))
        } else {
            assert forall|m: bool| !(#[trigger] Self::bytes(m)).is_prefix_of(
                buf@.skip(start as int),
            ) by {
                assert(buf@.skip(start as int)[0] == b);
                if Self::bytes(m).is_prefix_of(buf@.skip(start as int)) {
                    assert(Self::bytes(m)[0] == buf@.skip(start as int).subrange(0, 1)[0]);
                }
            }
            None
        }
    }
}

impl<T: Wire> Wire for Option<T> {
    type Model = Option<T::Model>;

    open spec fn model(&self) -> Option<T::Model> {
        match self {
            Some(v) => Some(v.model()),
            None => None,
        }
    }

    open spec fn valid(m: Option<T::Model>) -> bool {
        match m {
            Some(v) => T::valid(v),
            None => true,
        }
    }

    /// One byte: 0 where there is no value, 1 where there is one, which
    /// follows.
    open spec fn bytes(m: Option<T::Model>) -> Seq<u8> {
        match m {
            Some(v) => seq![1u8] + T::bytes(v),
            None => seq![0u8],
        }
    }

    proof fn lemma_nonempty(m: Option<T::Model>) {
    }

    proof fn lemma_prefix_free(a: Option<T::Model>, b: Option<T::Model>) {
        let ea = Self::bytes(a);
        let eb = Self::bytes(b);
        assert(ea[0] == eb.subrange(0, ea.len() as int)[0]);
        match (a, b) {
            (Some(x), Some(y)) => {
                assert(T::bytes(x) =~= T::bytes(y).subrange(0, T::bytes(x).len() as int)) by {
                    assert forall|i: int| 0 <= i < T::bytes(x).len() implies T::bytes(x)[i]
                        == T::bytes(y)[i] by {
                        assert(ea[i + 1] == eb.subrange(0, ea.len() as int)[i + 1]);
                    }
                }
                T::lemma_prefix_free(x, y);
            },
            _ => {},
        }
    }

    fn put(&self, out: &mut Vec<u8>) {
        match self {
            Some(v) => {
                out.push(1);
                v.put(out);
            },
            None => {
                out.push(0);
            },
        }
        assert(final(out)@ =~= old(out)@ + Self::bytes(self.model()));
    }

    fn read(buf: &[u8], start: usize) -> (r: Option<(Option<T>, usize)>) {
        let ghost s = buf@.skip(start as int);
        if buf.len() - start < 1 {
            return None;
        }
        let b = buf[start];
        assert(s[0] == b);
        if b == 0 {
            assert(buf@.subrange(start as int, start + 1) =~= Self::bytes(None));
            Some((None, start + 1))
        } else if b == 1 {
            match T::read(buf, start + 1) {
                Some((v, end)) => {
                    assert(buf@.subrange(start as int, end as int) =~= seq![1u8] + T::bytes(
                        v.model(),
                    ));
                    Some((Some(v), end))
                },
                None => {
                    assert forall|m: Option<T::Model>| Self::valid(m) implies !(
                    #[trigger] Self::bytes(m)).is_prefix_of(s) by {
                        if Self::bytes(m).is_prefix_of(s) {
                            assert(Self::bytes(m)[0] == s.subrange(0, Self::bytes(m).len() as int)[0]);
                            let x = m->Some_0;
                            assert(T::bytes(x) =~= buf@.skip(start + 1).subrange(
                                0,
                                T::bytes(x).len() as int,
                            )) by {
                                assert forall|i: int| 0 <= i < T::bytes(x).len() implies T::bytes(
                                    x,
                                )[i] == buf@.skip(start + 1)[i] by {
                                    assert(Self::bytes(m)[i + 1] == s.subrange(
                                        0,
                                        Self::bytes(m).len() as int,
                                    )[i + 1]);
                                }
                            }
                        }
                    }
                    None
                },
            }
        } else {
            assert forall|m: Option<T::Model>| Self::valid(m) implies !(#[trigger] Self::bytes(
                m,
            )).is_prefix_of(s) by {
                if Self::bytes(m).is_prefix_of(s) {
                    assert(Self::bytes(m)[0] == s.subrange(0, Self::bytes(m).len() as int)[0]);
                }
            }
            None
        }
    }
}

impl<A: Wire, B: Wire> Wire for (A, B) {
    type Model = (A::Model, B::Model);

    open spec fn model(&self) -> (A::Model, B::Model) {
        (self.0.model(), self.1.model())
    }

    open spec fn valid(m: (A::Model, B::Model)) -> bool {
        A::valid(m.0) && B::valid(m.1)
    }

    /// The first part's encoding, then the second's.
    open spec fn bytes(m: (A::Model, B::Model)) -> Seq<u8> {
        A::bytes(m.0) + B::bytes(m.1)
    }

    proof fn lemma_nonempty(m: (A::Model, B::Model)) {
        A::lemma_nonempty(m.0);
    }

    proof fn lemma_prefix_free(a: (A::Model, B::Model), b: (A::Model, B::Model)) {
        lemma_head::<A>(a.0, B::bytes(a.1), b.0, B::bytes(b.1));
        B::lemma_prefix_free(a.1, b.1);
    }

    fn put(&self, out: &mut Vec<u8>) {
        self.0.put(out);
        self.1.put(out);
        assert(final(out)@ =~= old(out)@ + Self::bytes(self.model()));
    }

    fn read(buf: &[u8], start: usize) -> (r: Option<((A, B), usize)>) {
        let ghost s = buf@.skip(start as int);
        match A::read(buf, start) {
            None => {
                assert forall|m: (A::Model, B::Model)| Self::valid(m) implies !(
                #[trigger] Self::bytes(m)).is_prefix_of(s) by {
                    if Self::bytes(m).is_prefix_of(s) {
                        assert(A::bytes(m.0) =~= s.subrange(0, A::bytes(m.0).len() as int));
                    }
                }
                None
            },
            Some((a, mid)) => {
                let ghost ea = A::bytes(a.model());
                assert(s =~= ea + buf@.skip(mid as int));
                match B::read(buf, mid) {
                    None => {
                        assert forall|m: (A::Model, B::Model)| Self::valid(m) implies !(
                        #[trigger] Self::bytes(m)).is_prefix_of(s) by {
                            if Self::bytes(m).is_prefix_of(s) {
                                lemma_head::<A>(
                                    m.0,
                                    B::bytes(m.1),
                                    a.model(),
                                    buf@.skip(mid as int),
                                );
                            }
                        }
                        None
                    },
                    Some((b, end)) => {
                        assert(buf@.subrange(start as int, end as int) =~= ea + B::bytes(
                            b.model(),
                        ));
                        Some(((a, b), end))
                    },
                }
            },
        }
    }
}

/// The error of `String::from_utf8`. Nothing is said of what it holds.
#[verifier::external_type_specification]
#[verifier::external_body]
pub struct ExFromUtf8Error(std::string::FromUtf8Error);

/// `String::from_utf8`: the string whose UTF-8 form is `bytes`, or an error
/// where `bytes` is not UTF-8.
#[verifier::external_body]
fn string_from_utf8(bytes: Vec<u8>) -> (r: Result<String, std::string::FromUtf8Error>)
    ensures
        match r {
            Ok(s) => encode_utf8(s@) == bytes@,
            Err(_) => !valid_utf8(bytes@),
        },
{
    String::from_utf8(bytes)
}

impl Wire for String {
    type Model = Seq<char>;

    open spec fn model(&self) -> Seq<char> {
        self@
    }

    /// A text whose UTF-8 form has a length that fits in 64 bits.
    open spec fn valid(m: Seq<char>) -> bool {
        encode_utf8(m).len() <= u64::MAX
    }

    /// The length of the UTF-8 form as a `u64`, then the UTF-8 form.
    open spec fn bytes(m: Seq<char>) -> Seq<u8> {
        <u64 as Wire>::bytes(encode_utf8(m).len() as u64) + encode_utf8(m)
    }

    proof fn lemma_nonempty(m: Seq<char>) {
        <u64 as Wire>::lemma_nonempty(encode_utf8(m).len() as u64);
    }

    proof fn lemma_prefix_free(a: Seq<char>, b: Seq<char>) {
        let ea = encode_utf8(a);
        let eb = encode_utf8(b);
        lemma_head::<u64>(ea.len() as u64, ea, eb.len() as u64, eb);
        assert(ea =~= eb);
        encode_utf8_decode_utf8(a);
        encode_utf8_decode_utf8(b);
    }

    fn put(&self, out: &mut Vec<u8>) {
        let text = self.as_str().as_bytes();
        let n = text.len() as u64;
        n.put(out);
        let mut copy = slice_to_vec(text);
        out.append(&mut copy);
        assert(final(out)@ =~= old(out)@ + Self::bytes(self@));
    }

    fn read(buf: &[u8], start: usize) -> (r: Option<(String, usize)>) {
        let ghost s = buf@.skip(start as int);
        let (n, mid) = match u64::read(buf, start) {
            Some(p) => p,
            None => {
                assert forall|m: Seq<char>| Self::valid(m) implies !(#[trigger] Self::bytes(
                    m,
                )).is_prefix_of(s) by {
                    let head = <u64 as Wire>::bytes(encode_utf8(m).len() as u64);
                    if Self::bytes(m).is_prefix_of(s) {
                        assert(head =~= s.subrange(0, head.len() as int));
                    }
                }
                return None;
            },
        };
        let ghost en = <u64 as Wire>::bytes(n);
        assert(s =~= en + buf@.skip(mid as int));
        if n > (buf.len() - mid) as u64 {
            assert forall|m: Seq<char>| Self::valid(m) implies !(#[trigger] Self::bytes(
                m,
            )).is_prefix_of(s) by {
                if Self::bytes(m).is_prefix_of(s) {
                    lemma_head::<u64>(
                        encode_utf8(m).len() as u64,
                        encode_utf8(m),
                        n,
                        buf@.skip(mid as int),
                    );
                }
            }
            return None;
        }
        let end = mid + n as usize;
        let text = slice_to_vec(slice_subrange(buf, mid, end));
        match string_from_utf8(text) {
            Ok(v) => {
                assert(buf@.subrange(start as int, end as int) =~= en + encode_utf8(v@));
                Some((v, end))
            },
            Err(_) => {
                assert forall|m: Seq<char>| Self::valid(m) implies !(#[trigger] Self::bytes(
                    m,
                )).is_prefix_of(s) by {
                    if Self::bytes(m).is_prefix_of(s) {
                        lemma_head::<u64>(
                            encode_utf8(m).len() as u64,
                            encode_utf8(m),
                            n,
                            buf@.skip(mid as int),
                        );
                        encode_utf8_valid_utf8(m);
                        assert(encode_utf8(m) =~= buf@.subrange(mid as int, end as int));
                    }
                }
                None
            },
        }
    }
}

/// The byte sequences of `parts`, one after another.
pub open spec fn join(parts: Seq<Seq<u8>>) -> Seq<u8>
    decreases parts.len(),
{
    if parts.len() == 0 {
        Seq::empty()
    } else {
        parts[0] + join(parts.drop_first())
    }
}

/// One part, joined, is that part.
pub proof fn lemma_join_single(part: Seq<u8>)
    ensures
        join(seq![part]) == part,
{
    let parts = seq![part];
    assert(parts.drop_first() =~= Seq::<Seq<u8>>::empty());
    assert(join(parts.drop_first()) =~= Seq::<u8>::empty());
    assert(join(parts) =~= parts[0] + join(parts.drop_first()));
    assert(part + Seq::<u8>::empty() =~= part);
}

/// Parts in two runs are joined as the first run, then the second.
pub proof fn lemma_join_concat(a: Seq<Seq<u8>>, b: Seq<Seq<u8>>)
    ensures
        join(a + b) == join(a) + join(b),
    decreases a.len(),
{
    if a.len() == 0 {
        assert(a + b =~= b);
        assert(join(a) + join(b) =~= join(b));
    } else {
        lemma_join_concat(a.drop_first(), b);
        assert((a + b).drop_first() =~= a.drop_first() + b);
        assert(join(a + b) =~= join(a) + join(b));
    }
}

/// The encodings of the items of `s`, item by item.
pub open spec fn encodings<T: Wire>(s: Seq<T::Model>) -> Seq<Seq<u8>> {
    Seq::new(s.len(), |i: int| T::bytes(s[i]))
}

/// The encodings of the items of `s`, one after another.
pub open spec fn items_bytes<T: Wire>(s: Seq<T::Model>) -> Seq<u8> {
    join(encodings::<T>(s))
}

/// Every item of `s` is a value that its type allows.
pub open spec fn items_valid<T: Wire>(s: Seq<T::Model>) -> bool {
    forall|i: int| 0 <= i < s.len() ==> T::valid(#[trigger] s[i])
}

/// The mathematical values of the items of `s`.
pub open spec fn models<T: Wire>(s: Seq<T>) -> Seq<T::Model> {
    Seq::new(s.len(), |i: int| s[i].model())
}

/// The items are encoded as the first of them, then the others; no items are
/// no bytes.
pub proof fn lemma_items_first<T: Wire>(s: Seq<T::Model>)
    ensures
        s.len() == 0 ==> items_bytes::<T>(s) == Seq::<u8>::empty(),
        s.len() > 0 ==> items_bytes::<T>(s) == T::bytes(s[0]) + items_bytes::<T>(s.drop_first()),
{
    if s.len() > 0 {
        assert(encodings::<T>(s).drop_first() =~= encodings::<T>(s.drop_first()));
    }
}

/// A single item is encoded as itself.
pub proof fn lemma_items_single<T: Wire>(m: T::Model)
    ensures
        items_bytes::<T>(seq![m]) == T::bytes(m),
{
    assert(encodings::<T>(seq![m]) =~= seq![T::bytes(m)]);
    lemma_join_single(T::bytes(m));
}

/// The items of `a + b` are encoded as those of `a`, then those of `b`.
pub proof fn lemma_items_concat<T: Wire>(a: Seq<T::Model>, b: Seq<T::Model>)
    ensures
        items_bytes::<T>(a + b) == items_bytes::<T>(a) + items_bytes::<T>(b),
{
    assert(encodings::<T>(a + b) =~= encodings::<T>(a) + encodings::<T>(b));
    lemma_join_concat(encodings::<T>(a), encodings::<T>(b));
}

/// Every item takes a byte at least.
pub proof fn lemma_items_len<T: Wire>(s: Seq<T::Model>)
    requires
        items_valid::<T>(s),
    ensures
        items_bytes::<T>(s).len() >= s.len(),
    decreases s.len(),
{
    lemma_items_first::<T>(s);
    if s.len() > 0 {
        T::lemma_nonempty(s[0]);
        lemma_items_len::<T>(s.drop_first());
    }
}

/// Where the encoded items of `m`, followed by `rm`, begin the encoded items of
/// `p`, followed by `rp`, and `m` has as many items as `p` at least, `m` begins
/// with the items of `p`, and the rest of `m`, followed by `rm`, begins `rp`.
pub proof fn lemma_items_agree<T: Wire>(
    m: Seq<T::Model>,
    rm: Seq<u8>,
    p: Seq<T::Model>,
    rp: Seq<u8>,
)
    requires
        items_valid::<T>(m),
        items_valid::<T>(p),
        p.len() <= m.len(),
        (items_bytes::<T>(m) + rm).is_prefix_of(items_bytes::<T>(p) + rp),
    ensures
        m.take(p.len() as int) == p,
        (items_bytes::<T>(m.skip(p.len() as int)) + rm).is_prefix_of(rp),
    decreases p.len(),
{
    lemma_items_first::<T>(m);
    lemma_items_first::<T>(p);
    if p.len() == 0 {
        assert(m.take(0) =~= p);
        assert(m.skip(0) =~= m);
        assert(items_bytes::<T>(p) + rp =~= rp);
    } else {
        let m_rest = m.drop_first();
        let p_rest = p.drop_first();
        assert(items_bytes::<T>(m) + rm =~= T::bytes(m[0]) + (items_bytes::<T>(m_rest) + rm));
        assert(items_bytes::<T>(p) + rp =~= T::bytes(p[0]) + (items_bytes::<T>(p_rest) + rp));
        lemma_head::<T>(m[0], items_bytes::<T>(m_rest) + rm, p[0], items_bytes::<T>(p_rest) + rp);
        lemma_items_agree::<T>(m_rest, rm, p_rest, rp);
        assert(m.take(p.len() as int) =~= p) by {
            assert forall|i: int| 0 <= i < p.len() implies m[i] == p[i] by {
                if i > 0 {
                    assert(m_rest.take(p_rest.len() as int)[i - 1] == p_rest[i - 1]);
                }
            }
        }
        assert(m.skip(p.len() as int) =~= m_rest.skip(p_rest.len() as int));
    }
}

impl<T: Wire> Wire for Vec<T> {
    type Model = Seq<T::Model>;

    open spec fn model(&self) -> Seq<T::Model> {
        models::<T>(self@)
    }

    /// Items that their type allows, and a count that fits in 64 bits.
    open spec fn valid(m: Seq<T::Model>) -> bool {
        m.len() <= u64::MAX && items_valid::<T>(m)
    }

    /// The number of items as a `u64`, then the items in order.
    open spec fn bytes(m: Seq<T::Model>) -> Seq<u8> {
        <u64 as Wire>::bytes(m.len() as u64) + items_bytes::<T>(m)
    }

    proof fn lemma_nonempty(m: Seq<T::Model>) {
        <u64 as Wire>::lemma_nonempty(m.len() as u64);
    }

    proof fn lemma_prefix_free(a: Seq<T::Model>, b: Seq<T::Model>) {
        lemma_head::<u64>(a.len() as u64, items_bytes::<T>(a), b.len() as u64, items_bytes::<T>(b));
        assert(items_bytes::<T>(a) + Seq::<u8>::empty() =~= items_bytes::<T>(a));
        assert(items_bytes::<T>(b) + Seq::<u8>::empty() =~= items_bytes::<T>(b));
        lemma_items_agree::<T>(a, Seq::empty(), b, Seq::empty());
        assert(a.take(b.len() as int) =~= a);
    }

    fn put(&self, out: &mut Vec<u8>) {
        let n = self.len();
        (n as u64).put(out);
        let ghost base = out@;
        let ghost ms = self.model();
        let mut i: usize = 0;
        while i < n
            invariant
                i <= n,
                n == self@.len(),
                ms == models::<T>(self@),
                out@ == base + items_bytes::<T>(ms.take(i as int)),
                items_valid::<T>(ms.take(i as int)),
            decreases n - i,
        {
            let ghost before = out@;
            self[i].put(out);
            proof {
                let done = ms.take(i as int);
                let next = ms.take(i + 1);
                assert(next =~= done + seq![ms[i as int]]);
                lemma_items_concat::<T>(done, seq![ms[i as int]]);
                lemma_items_single::<T>(ms[i as int]);
                assert(out@ =~= base + items_bytes::<T>(next));
                assert forall|j: int| 0 <= j < next.len() implies T::valid(#[trigger] next[j]) by {
                    if j < i {
                        assert(next[j] == done[j]);
                    }
                }
            }
            i += 1;
        }
        assert(ms.take(n as int) =~= ms);
        assert(final(out)@ =~= old(out)@ + Self::bytes(ms));
    }

    fn read(buf: &[u8], start: usize) -> (r: Option<(Vec<T>, usize)>) {
        let ghost s = buf@.skip(start as int);
        let (n, mid) = match u64::read(buf, start) {
            Some(p) => p,
            None => {
                assert forall|m: Seq<T::Model>| Self::valid(m) implies !(#[trigger] Self::bytes(
                    m,
                )).is_prefix_of(s) by {
                    let head = <u64 as Wire>::bytes(m.len() as u64);
                    if Self::bytes(m).is_prefix_of(s) {
                        assert(head =~= s.subrange(0, head.len() as int));
                    }
                }
                return None;
            },
        };
        let ghost en = <u64 as Wire>::bytes(n);
        assert(s =~= en + buf@.skip(mid as int));
        if n > (buf.len() - mid) as u64 {
            assert forall|m: Seq<T::Model>| Self::valid(m) implies !(#[trigger] Self::bytes(
                m,
            )).is_prefix_of(s) by {
                if Self::bytes(m).is_prefix_of(s) {
                    lemma_head::<u64>(m.len() as u64, items_bytes::<T>(m), n, buf@.skip(mid as int));
                    lemma_items_len::<T>(m);
                }
            }
            return None;
        }
        let mut items: Vec<T> = Vec::new();
        let mut pos = mid;
        let mut i: u64 = 0;
        assert(models::<T>(items@) =~= Seq::<T::Model>::empty());
        proof {
            lemma_items_first::<T>(models::<T>(items@));
        }
        assert(buf@.subrange(mid as int, pos as int) =~= items_bytes::<T>(models::<T>(items@)));
        while i < n
            invariant
                i <= n,
                mid <= pos <= buf@.len(),
                start <= mid,
                items@.len() == i,
                items_valid::<T>(models::<T>(items@)),
                buf@.subrange(mid as int, pos as int) == items_bytes::<T>(models::<T>(items@)),
                s == buf@.skip(start as int),
                s == en + buf@.skip(mid as int),
                en == <u64 as Wire>::bytes(n),
                buf@.subrange(start as int, mid as int) == en,
            decreases n - i,
        {
            let ghost done = models::<T>(items@);
            match T::read(buf, pos) {
                None => {
                    assert forall|m: Seq<T::Model>| Self::valid(m) implies !(
                    #[trigger] Self::bytes(m)).is_prefix_of(s) by {
                        if Self::bytes(m).is_prefix_of(s) {
                            let after = buf@.skip(mid as int);
                            lemma_head::<u64>(m.len() as u64, items_bytes::<T>(m), n, after);
                            assert(after =~= items_bytes::<T>(done) + buf@.skip(pos as int));
                            assert(items_bytes::<T>(m) + Seq::<u8>::empty() =~= items_bytes::<T>(m));
                            lemma_items_agree::<T>(
                                m,
                                Seq::empty(),
                                done,
                                buf@.skip(pos as int),
                            );
                            let rest = m.skip(i as int);
                            lemma_items_first::<T>(rest);
                            assert(items_bytes::<T>(rest) + Seq::<u8>::empty() =~= items_bytes::<T>(
                                rest,
                            ));
                            assert(rest[0] == m[i as int]);
                            assert(T::bytes(rest[0]) =~= buf@.skip(pos as int).subrange(
                                0,
                                T::bytes(rest[0]).len() as int,
                            ));
                        }
                    }
                    return None;
                },
                Some((v, next)) => {
                    proof {
                        let grown = models::<T>(items@.push(v));
                        assert(grown =~= done + seq![v.model()]);
                        lemma_items_concat::<T>(done, seq![v.model()]);
                        lemma_items_single::<T>(v.model());
                        assert(buf@.subrange(mid as int, next as int) =~= buf@.subrange(
                            mid as int,
                            pos as int,
                        ) + buf@.subrange(pos as int, next as int));
                        assert forall|j: int| 0 <= j < grown.len() implies T::valid(
                            #[trigger] grown[j],
                        ) by {
                            if j < i {
                                assert(grown[j] == done[j]);
                            }
                        }
                    }
                    items.push(v);
                    pos = next;
                    i += 1;
                },
            }
        }
        assert(buf@.subrange(start as int, pos as int) =~= en + items_bytes::<T>(
            models::<T>(items@),
        ));
        Some((items, pos))
    }
}

} // verus!
