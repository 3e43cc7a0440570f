use vstd::prelude::*;
use vstd::bytes::{
    spec_u16_to_le_bytes, spec_u16_from_le_bytes, lemma_auto_spec_u16_to_from_le_bytes,
    u16_to_le_bytes, u16_from_le_bytes, spec_u32_to_le_bytes, spec_u32_from_le_bytes,
    lemma_auto_spec_u32_to_from_le_bytes, u32_to_le_bytes, u32_from_le_bytes,
};

verus! {

/// A fixed-width value that can be laid down as raw bytes and read back.
/// The byte layout is little-endian and is the in-memory layout used by the
/// fast compression codec; it is deliberately not a portable interchange
/// format.
pub trait AsRawBytes: Sized + Copy {
    /// How many bytes one value occupies.
    spec fn spec_width() -> nat;

    /// The raw bytes of one value.
    spec fn spec_bytes(self) -> Seq<u8>;

    proof fn lemma_width()
        ensures
            0 < Self::spec_width(),
    ;

    proof fn lemma_bytes_len(self)
        ensures
            self.spec_bytes().len() == Self::spec_width(),
            0 < Self::spec_width(),
    ;

    proof fn lemma_bytes_injective(self, other: Self)
        ensures
            self.spec_bytes() == other.spec_bytes() ==> self == other,
    ;

    fn width() -> (r: usize)
        ensures
            r == Self::spec_width(),
    ;

    /// The raw bytes of one value.
    fn as_raw_bytes(&self) -> (r: Vec<u8>)
        ensures
            r@ == self.spec_bytes(),
    ;

    /// Read one value back from its raw bytes at `start`.
    fn from_raw_bytes(bytes: &Vec<u8>, start: usize) -> (r: Self)
        requires
            start + Self::spec_width() <= bytes@.len(),
        ensures
            r.spec_bytes() == bytes@.subrange(start as int, start + Self::spec_width()),
    ;
}

impl AsRawBytes for u8 {
    open spec fn spec_width() -> nat {
        1
    }

    open spec fn spec_bytes(self) -> Seq<u8> {
        seq![self]
    }

    proof fn lemma_width() {
    }

    proof fn lemma_bytes_len(self) {
    }

    proof fn lemma_bytes_injective(self, other: Self) {
        if self.spec_bytes() == other.spec_bytes() {
            assert(self.spec_bytes()[0] == other.spec_bytes()[0]);
        }
    }

    fn width() -> (r: usize) {
        1
    }

    fn as_raw_bytes(&self) -> (r: Vec<u8>) {
        let mut r: Vec<u8> = Vec::new();
        r.push(*self);
        proof {
            assert(r@ =~= self.spec_bytes());
        }
        r
    }

    fn from_raw_bytes(bytes: &Vec<u8>, start: usize) -> (r: Self) {
        let r = bytes[start];
        proof {
            assert(r.spec_bytes() =~= bytes@.subrange(start as int, start as int + 1));
        }
        r
    }
}

impl AsRawBytes for u16 {
    open spec fn spec_width() -> nat {
        2
    }

    open spec fn spec_bytes(self) -> Seq<u8> {
        spec_u16_to_le_bytes(self)
    }

    proof fn lemma_width() {
    }

    proof fn lemma_bytes_len(self) {
        lemma_auto_spec_u16_to_from_le_bytes();
    }

    proof fn lemma_bytes_injective(self, other: Self) {
        lemma_auto_spec_u16_to_from_le_bytes();
        assert(spec_u16_to_le_bytes(self).len() == 2);
        assert(spec_u16_to_le_bytes(other).len() == 2);
        assert(spec_u16_from_le_bytes(spec_u16_to_le_bytes(self)) == self);
        assert(spec_u16_from_le_bytes(spec_u16_to_le_bytes(other)) == other);
    }

    fn width() -> (r: usize) {
        2
    }

    fn as_raw_bytes(&self) -> (r: Vec<u8>) {
        u16_to_le_bytes(*self)
    }

    fn from_raw_bytes(bytes: &Vec<u8>, start: usize) -> (r: Self) {
        proof {
            assert(Self::spec_width() == 2);
        }
        let _bytes_len: usize = bytes.len();
        let mut tmp: Vec<u8> = Vec::new();
        tmp.push(bytes[start]);
        tmp.push(bytes[start + 1]);
        proof {
            assert(tmp@ =~= bytes@.subrange(start as int, start as int + 2));
        }
        let r = u16_from_le_bytes(tmp.as_slice());
        proof {
            lemma_auto_spec_u16_to_from_le_bytes();
            assert(spec_u16_to_le_bytes(spec_u16_from_le_bytes(tmp@)) == tmp@);
        }
        r
    }
}

impl AsRawBytes for i32 {
    open spec fn spec_width() -> nat {
        4
    }

    open spec fn spec_bytes(self) -> Seq<u8> {
        spec_u32_to_le_bytes(self as u32)
    }

    proof fn lemma_width() {
    }

    proof fn lemma_bytes_len(self) {
        lemma_auto_spec_u32_to_from_le_bytes();
    }

    proof fn lemma_bytes_injective(self, other: Self) {
        lemma_auto_spec_u32_to_from_le_bytes();
        if self.spec_bytes() == other.spec_bytes() {
            assert(spec_u32_to_le_bytes(self as u32).len() == 4);
            assert(spec_u32_to_le_bytes(other as u32).len() == 4);
            assert(spec_u32_from_le_bytes(spec_u32_to_le_bytes(self as u32)) == self as u32);
            assert(spec_u32_from_le_bytes(spec_u32_to_le_bytes(other as u32)) == other as u32);
            let a = self;
            let b = other;
            assert(a as u32 == b as u32 ==> a == b) by (bit_vector);
        }
    }

    fn width() -> (r: usize) {
        4
    }

    fn as_raw_bytes(&self) -> (r: Vec<u8>) {
        u32_to_le_bytes(*self as u32)
    }

    fn from_raw_bytes(bytes: &Vec<u8>, start: usize) -> (r: Self) {
        proof {
            assert(Self::spec_width() == 4);
        }
        let _bytes_len: usize = bytes.len();
        let mut tmp: Vec<u8> = Vec::new();
        tmp.push(bytes[start]);
        tmp.push(bytes[start + 1]);
        tmp.push(bytes[start + 2]);
        tmp.push(bytes[start + 3]);
        proof {
            assert(tmp@ =~= bytes@.subrange(start as int, start as int + 4));
        }
        let u = u32_from_le_bytes(tmp.as_slice());
        let r = u as i32;
        proof {
            lemma_auto_spec_u32_to_from_le_bytes();
            assert(spec_u32_to_le_bytes(spec_u32_from_le_bytes(tmp@)) == tmp@);
            assert(r as u32 == u) by (bit_vector)
                requires
                    r == u as i32,
            ;
        }
        r
    }
}

/// The raw bytes of a whole channel: each value's bytes in order.
pub open spec fn spec_channel_bytes<T: AsRawBytes>(s: Seq<T>) -> Seq<u8>
    decreases s.len(),
{
    if s.len() == 0 {
        Seq::empty()
    } else {
        spec_channel_bytes(s.drop_last()) + s.last().spec_bytes()
    }
}

pub proof fn lemma_channel_bytes_len<T: AsRawBytes>(s: Seq<T>)
    ensures
        spec_channel_bytes(s).len() == s.len() * T::spec_width(),
    decreases s.len(),
{
    if s.len() == 0 {
    } else {
        lemma_channel_bytes_len(s.drop_last());
        s.last().lemma_bytes_len();
        assert((s.len() - 1) * T::spec_width() + T::spec_width() == s.len() * T::spec_width())
            by (nonlinear_arith);
    }
}

/// Two equally long channels with the same raw bytes hold the same values.
pub proof fn lemma_channel_bytes_injective<T: AsRawBytes>(a: Seq<T>, b: Seq<T>)
    requires
        a.len() == b.len(),
        spec_channel_bytes(a) == spec_channel_bytes(b),
    ensures
        a == b,
    decreases a.len(),
{
    if a.len() == 0 {
        assert(a =~= b);
    } else {
        lemma_channel_bytes_len(a.drop_last());
        lemma_channel_bytes_len(b.drop_last());
        a.last().lemma_bytes_len();
        b.last().lemma_bytes_len();
        let la = spec_channel_bytes(a.drop_last()).len() as int;
        assert(spec_channel_bytes(a).subrange(0, la) =~= spec_channel_bytes(a.drop_last()));
        assert(spec_channel_bytes(b).subrange(0, la) =~= spec_channel_bytes(b.drop_last()));
        assert(spec_channel_bytes(a).subrange(la, spec_channel_bytes(a).len() as int)
            =~= a.last().spec_bytes());
        assert(spec_channel_bytes(b).subrange(la, spec_channel_bytes(b).len() as int)
            =~= b.last().spec_bytes());
        lemma_channel_bytes_injective(a.drop_last(), b.drop_last());
        a.last().lemma_bytes_injective(b.last());
        assert(a =~= a.drop_last().push(a.last()));
        assert(b =~= b.drop_last().push(b.last()));
        assert(a =~= b);
    }
}

/// The raw bytes of `values`, laid out value by value.
pub fn channel_to_raw_bytes<T: AsRawBytes>(values: &Vec<T>) -> (r: Vec<u8>)
    ensures
        r@ == spec_channel_bytes(values@),
        r@.len() == values@.len() * T::spec_width(),
{
    let n: usize = values.len();
    let mut r: Vec<u8> = Vec::new();
    let mut i: usize = 0;
    proof {
        assert(values@.subrange(0, 0) =~= Seq::<T>::empty());
    }
    while i < n
        invariant
            0 <= i <= n,
            n == values@.len(),
            r@ == spec_channel_bytes(values@.subrange(0, i as int)),
        decreases n - i,
    {
        let bs = values[i].as_raw_bytes();
        let m: usize = bs.len();
        let mut j: usize = 0;
        while j < m
            invariant
                0 <= j <= m,
                m == bs@.len(),
                r@ == spec_channel_bytes(values@.subrange(0, i as int)) + bs@.subrange(
                    0,
                    j as int,
                ),
            decreases m - j,
        {
            r.push(bs[j]);
            proof {
                assert(bs@.subrange(0, j + 1) =~= bs@.subrange(0, j as int).push(bs@[j as int]));
            }
            j = j + 1;
        }
        proof {
            let pre = values@.subrange(0, i as int);
            let cur = values@.subrange(0, i + 1);
            assert(cur.drop_last() =~= pre);
            assert(bs@.subrange(0, m as int) =~= bs@);
            assert(r@ == spec_channel_bytes(cur));
        }
        i = i + 1;
    }
    proof {
        assert(values@.subrange(0, n as int) =~= values@);
        lemma_channel_bytes_len(values@);
    }
    r
}

/// Reads `count` values back out of a raw channel image.  Returns `None`
/// when the byte length does not fit `count` values.
pub fn channel_from_raw_bytes<T: AsRawBytes>(bytes: &Vec<u8>, count: usize) -> (r: Option<Vec<T>>)
    ensures
        (bytes@.len() == count * T::spec_width() && count * T::spec_width() <= usize::MAX) ==> r
            is Some,
        r matches Some(v) ==> v@.len() == count && spec_channel_bytes(v@) == bytes@,
{
    let w: usize = T::width();
    let _bytes_len: usize = bytes.len();
    proof {
        T::lemma_width();
    }
    if count > 0 && bytes.len() / count != w {
        proof {
            if bytes@.len() == count * T::spec_width() {
                vstd::arithmetic::div_mod::lemma_div_multiples_vanish(
                    w as int,
                    count as int,
                );
                assert(count * T::spec_width() == (count as int) * (w as int));
            }
        }
        return None;
    }
    if bytes.len() % w != 0 || bytes.len() / w != count {
        proof {
            if bytes@.len() == count * T::spec_width() {
                vstd::arithmetic::div_mod::lemma_mod_multiples_basic(count as int, w as int);
                vstd::arithmetic::div_mod::lemma_div_multiples_vanish(count as int, w as int);
                assert(count * T::spec_width() == (count as int) * (w as int));
            }
        }
        return None;
    }
    proof {
        vstd::arithmetic::div_mod::lemma_fundamental_div_mod(bytes@.len() as int, w as int);
        assert(bytes@.len() as int == w as int * (bytes@.len() as int / w as int) + bytes@.len()
            as int % w as int);
        assert(bytes@.len() as int / w as int == count);
        assert(bytes@.len() as int % w as int == 0);
        assert(count as int * w as int == w as int * count as int) by (nonlinear_arith);
        assert(bytes@.len() == count * w);
    }
    let mut v: Vec<T> = Vec::new();
    let mut i: usize = 0;
    proof {
        assert(spec_channel_bytes(v@) =~= bytes@.subrange(0, 0));
    }
    while i < count
        invariant
            0 <= i <= count,
            w == T::spec_width(),
            1 <= w,
            bytes@.len() == count * w,
            bytes@.len() <= usize::MAX,
            v@.len() == i,
            spec_channel_bytes(v@) == bytes@.subrange(0, i as int * w as int),
        decreases count - i,
    {
        proof {
            assert((i + 1) * w <= count * w && i * w + w == (i + 1) * w && 0 <= i * w)
                by (nonlinear_arith)
                requires
                    0 <= i < count,
                    1 <= w,
            ;
        }
        let e = T::from_raw_bytes(bytes, i * w);
        let ghost prev = v@;
        v.push(e);
        proof {
            assert(v@.drop_last() =~= prev);
            assert(bytes@.subrange(0, (i + 1) as int * w as int) =~= bytes@.subrange(
                0,
                i as int * w as int,
            ) + bytes@.subrange(i as int * w as int, i as int * w as int + w as int));
        }
        i = i + 1;
    }
    proof {
        assert(bytes@.subrange(0, count as int * w as int) =~= bytes@);
    }
    Some(v)
}

} // verus!
