//! Fingerprints: FNV-1a over numbers and texts.

use vstd::prelude::*;
use vstd::string::*;
use vstd::utf8::*;

verus! {

pub const FNV_OFFSET: u64 = 0xcbf2_9ce4_8422_2325;

pub const FNV_PRIME: u64 = 0x100_0000_01b3;

/// The hash `h` after the byte `b`.
pub open spec fn with_byte(h: u64, b: u8) -> u64 {
    (h ^ (b as u64)).wrapping_mul(FNV_PRIME)
}

/// The hash `h` after the lowest `n` bytes of `v`, lowest first.
pub open spec fn with_low_bytes(h: u64, v: u64, n: nat) -> u64
    decreases n,
{
    if n == 0 {
        h
    } else {
        with_low_bytes(with_byte(h, (v % 256) as u8), v / 256, (n - 1) as nat)
    }
}

/// The hash `h` after the number `v`.
pub open spec fn with_number(h: u64, v: u64) -> u64 {
    with_low_bytes(h, v, 8)
}

/// The hash `h` after the bytes `s`.
pub open spec fn with_bytes(h: u64, s: Seq<u8>) -> u64
    decreases s.len(),
{
    if s.len() == 0 {
        h
    } else {
        with_byte(with_bytes(h, s.drop_last()), s.last())
    }
}

/// The hash `h` after the text `s` and its length in bytes.
pub open spec fn with_text(h: u64, s: Seq<char>) -> u64 {
    with_number(with_bytes(h, encode_utf8(s)), encode_utf8(s).len() as u64)
}

fn mix_byte(h: &mut u64, b: u8)
    ensures
        *final(h) == with_byte(*old(h), b),
{
    *h = *h ^ (b as u64);
    *h = (*h).wrapping_mul(FNV_PRIME);
}

/// Mixes a number into the hash.
pub fn mix_u64(h: &mut u64, v: u64)
    ensures
        *final(h) == with_number(*old(h), v),
{
    let mut rest: u64 = v;
    for i in 0..8
        invariant
            with_low_bytes(*h, rest, (8 - i) as nat) == with_number(*old(h), v),
    {
        mix_byte(h, (rest % 256) as u8);
        rest = rest / 256;
    }
}

pub open spec fn bit(v: bool) -> u64 {
    if v {
        1
    } else {
        0
    }
}

/// Mixes a flag into the hash.
pub fn mix_bool(h: &mut u64, v: bool)
    ensures
        *final(h) == with_number(*old(h), bit(v)),
{
    mix_u64(
        h,
        if v {
            1
        } else {
            0
        },
    );
}

/// Mixes a text into the hash.
pub fn mix_str(h: &mut u64, s: &str)
    ensures
        *final(h) == with_text(*old(h), s@),
{
    let bytes = s.as_bytes();
    for i in 0..bytes.len()
        invariant
            bytes@ == encode_utf8(s@),
            *h == with_bytes(*old(h), bytes@.take(i as int)),
    {
        assert(bytes@.take(i + 1).drop_last() =~= bytes@.take(i as int));
        mix_byte(h, bytes[i]);
    }
    assert(bytes@.take(bytes@.len() as int) =~= bytes@);
    mix_u64(h, bytes.len() as u64);
}

/// What goes into a fingerprint.
pub enum Mark {
    Number(u64),
    Text(Seq<char>),
}

/// The fingerprint of what has been mixed in, in order.
pub open spec fn fingerprint(marks: Seq<Mark>) -> u64
    decreases marks.len(),
{
    if marks.len() == 0 {
        FNV_OFFSET
    } else {
        let h = fingerprint(marks.drop_last());
        match marks.last() {
            Mark::Number(v) => with_number(h, v),
            Mark::Text(s) => with_text(h, s),
        }
    }
}

/// A fingerprint in the making.
pub struct Fingerprint {
    pub value: u64,
    /// What has been mixed in so far.
    pub marks: Ghost<Seq<Mark>>,
}

impl Fingerprint {
    pub open spec fn wf(self) -> bool {
        self.value == fingerprint(self.marks@)
    }

    /// The fingerprint of nothing.
    pub fn new() -> (r: Fingerprint)
        ensures
            r.wf(),
            r.marks@ == Seq::<Mark>::empty(),
    {
        Fingerprint { value: FNV_OFFSET, marks: Ghost(Seq::empty()) }
    }

    /// Mixes in a number.
    pub fn number(&mut self, v: u64)
        requires
            old(self).wf(),
        ensures
            final(self).wf(),
            final(self).marks@ == old(self).marks@.push(Mark::Number(v)),
    {
        let ghost next = self.marks@.push(Mark::Number(v));
        assert(next.drop_last() =~= self.marks@);
        mix_u64(&mut self.value, v);
        self.marks = Ghost(next);
    }

    /// Mixes in a flag.
    pub fn flag(&mut self, v: bool)
        requires
            old(self).wf(),
        ensures
            final(self).wf(),
            final(self).marks@ == old(self).marks@.push(Mark::Number(bit(v))),
    {
        let ghost next = self.marks@.push(Mark::Number(bit(v)));
        assert(next.drop_last() =~= self.marks@);
        mix_bool(&mut self.value, v);
        self.marks = Ghost(next);
    }

    /// Mixes in a text.
    pub fn text(&mut self, s: &str)
        requires
            old(self).wf(),
        ensures
            final(self).wf(),
            final(self).marks@ == old(self).marks@.push(Mark::Text(s@)),
    {
        let ghost next = self.marks@.push(Mark::Text(s@));
        assert(next.drop_last() =~= self.marks@);
        mix_str(&mut self.value, s);
        self.marks = Ghost(next);
    }
}

/// Each byte is mixed in by an exclusive or and a multiplication, and a text
/// byte by byte with its length behind it, so that where one text ends and the
/// next begins makes a difference.
pub proof fn texts_are_mixed_in_byte_by_byte(h: u64, s: Seq<u8>, b: u8, text: Seq<char>)
    ensures
        with_byte(h, b) == (h ^ (b as u64)).wrapping_mul(0x100_0000_01b3),
        with_bytes(h, Seq::empty()) == h,
        with_bytes(h, s.push(b)) == (with_bytes(h, s) ^ (b as u64)).wrapping_mul(0x100_0000_01b3),
        with_text(h, text) == with_number(
            with_bytes(h, encode_utf8(text)),
            encode_utf8(text).len() as u64,
        ),
        fingerprint(Seq::empty()) == 0xcbf2_9ce4_8422_2325,
{
    assert(s.push(b).drop_last() =~= s);
}

/// What is mixed in later changes the fingerprint of what came before.
pub proof fn marks_are_mixed_in_one_by_one(marks: Seq<Mark>, v: u64, text: Seq<char>, flag: bool)
    ensures
        fingerprint(marks.push(Mark::Number(v))) == with_number(fingerprint(marks), v),
        fingerprint(marks.push(Mark::Text(text))) == with_text(fingerprint(marks), text),
        bit(flag) == 1 <==> flag,
        bit(flag) == 0 <==> !flag,
{
    assert(marks.push(Mark::Number(v)).drop_last() =~= marks);
    assert(marks.push(Mark::Text(text)).drop_last() =~= marks);
}

/// A number is mixed in as its eight bytes, the lowest first.
pub proof fn numbers_are_mixed_in_low_byte_first(h: u64, v: u64)
    ensures
        with_number(h, v) == with_bytes(
            h,
            seq![
                (v % 256) as u8,
                (v / 256 % 256) as u8,
                (v / 256 / 256 % 256) as u8,
                (v / 256 / 256 / 256 % 256) as u8,
                (v / 256 / 256 / 256 / 256 % 256) as u8,
                (v / 256 / 256 / 256 / 256 / 256 % 256) as u8,
                (v / 256 / 256 / 256 / 256 / 256 / 256 % 256) as u8,
                (v / 256 / 256 / 256 / 256 / 256 / 256 / 256 % 256) as u8,
            ],
        ),
{
    let a = v / 256;
    let b = a / 256;
    let c = b / 256;
    let d = c / 256;
    let e = d / 256;
    let f = e / 256;
    let g = f / 256;
    reveal_with_fuel(with_low_bytes, 9);
    let s0 = Seq::<u8>::empty();
    let s1 = s0.push((v % 256) as u8);
    let s2 = s1.push((a % 256) as u8);
    let s3 = s2.push((b % 256) as u8);
    let s4 = s3.push((c % 256) as u8);
    let s5 = s4.push((d % 256) as u8);
    let s6 = s5.push((e % 256) as u8);
    let s7 = s6.push((f % 256) as u8);
    let s8 = s7.push((g % 256) as u8);
    assert(s1.drop_last() =~= s0 && s2.drop_last() =~= s1 && s3.drop_last() =~= s2);
    assert(s4.drop_last() =~= s3 && s5.drop_last() =~= s4 && s6.drop_last() =~= s5);
    assert(s7.drop_last() =~= s6 && s8.drop_last() =~= s7);
    assert(s8 =~= seq![
        (v % 256) as u8,
        (a % 256) as u8,
        (b % 256) as u8,
        (c % 256) as u8,
        (d % 256) as u8,
        (e % 256) as u8,
        (f % 256) as u8,
        (g % 256) as u8,
    ]);
    assert(with_bytes(h, s0) == h);
    assert(with_bytes(h, s1) == with_byte(h, (v % 256) as u8));
    assert(with_bytes(h, s2) == with_byte(with_bytes(h, s1), (a % 256) as u8));
    assert(with_bytes(h, s3) == with_byte(with_bytes(h, s2), (b % 256) as u8));
    assert(with_bytes(h, s4) == with_byte(with_bytes(h, s3), (c % 256) as u8));
    assert(with_bytes(h, s5) == with_byte(with_bytes(h, s4), (d % 256) as u8));
    assert(with_bytes(h, s6) == with_byte(with_bytes(h, s5), (e % 256) as u8));
    assert(with_bytes(h, s7) == with_byte(with_bytes(h, s6), (f % 256) as u8));
    assert(with_bytes(h, s8) == with_byte(with_bytes(h, s7), (g % 256) as u8));
}

} // verus!
