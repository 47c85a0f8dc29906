//! Byte strings: decoding them as text, and file paths made of them.

use vstd::prelude::*;
use vstd::slice::*;
use vstd::string::*;
use vstd::utf8::*;

use crate::text::{index_of_byte, infix, lemma_position_unique, position_of};

verus! {

/// The text that `String::from_utf8_lossy` makes of `bytes`.
pub uninterp spec fn utf8_lossy(bytes: Seq<u8>) -> Seq<char>;

/// The replacement character that stands for what could not be decoded.
pub open spec fn replacement() -> char {
    '\u{fffd}'
}

/// `String::from_utf8_lossy`: valid UTF-8 is decoded as it stands, and every
/// invalid stretch becomes a replacement character. So a stretch of valid
/// UTF-8 inside `bytes` shows up in the text, text free of replacement
/// characters comes from such a stretch, and no byte makes more than one
/// character.
#[verifier::external_body]
pub(crate) fn decode_lossy(bytes: &[u8]) -> (r: String)
    ensures
        r@ == utf8_lossy(bytes@),
        r@.len() <= bytes@.len(),
        valid_utf8(bytes@) ==> r@ == decode_utf8(bytes@),
        forall|m: Seq<char>|
            m.len() > 0 && #[trigger] infix(encode_utf8(m), bytes@) ==> infix(m, r@),
        forall|m: Seq<char>|
            m.len() > 0 && !m.contains(replacement()) && #[trigger] infix(m, r@) ==> infix(
                encode_utf8(m),
                bytes@,
            ),
{
    String::from_utf8_lossy(bytes).into_owned()
}

/// `std::str::from_utf8`: succeeds exactly on valid UTF-8, which it decodes.
#[verifier::external_body]
pub(crate) fn decode_strict(bytes: &[u8]) -> (r: Option<String>)
    ensures
        r is Some <==> valid_utf8(bytes@),
        r matches Some(s) ==> s@ == decode_utf8(bytes@),
{
    std::str::from_utf8(bytes).ok().map(str::to_string)
}

/// The UTF-8 bytes of `s`.
pub fn bytes_of(s: &str) -> (r: Vec<u8>)
    ensures
        r@ == encode_utf8(s@),
{
    slice_to_vec(s.as_bytes())
}

/// Whether two byte strings are equal.
pub fn same_bytes(a: &[u8], b: &[u8]) -> (r: bool)
    ensures
        r == (a@ == b@),
{
    if a.len() != b.len() {
        return false;
    }
    for i in 0..a.len()
        invariant
            a@.len() == b@.len(),
            forall|k: int| 0 <= k < i ==> a@[k] == b@[k],
    {
        if a[i] != b[i] {
            return false;
        }
    }
    assert(a@ =~= b@);
    true
}

/// Whether `s` starts with the bytes `p`.
pub fn starts_with_bytes(s: &[u8], p: &[u8]) -> (r: bool)
    ensures
        r == p@.is_prefix_of(s@),
{
    if p.len() > s.len() {
        return false;
    }
    let head = slice_subrange(s, 0, p.len());
    assert(p@.is_prefix_of(s@) <==> head@ =~= p@);
    same_bytes(head, p)
}

/// Byte strings in the order in which directory entries are sorted: byte by
/// byte, a proper prefix first.
pub open spec fn bytes_le(a: Seq<u8>, b: Seq<u8>) -> bool
    decreases a.len(),
{
    if a.len() == 0 {
        true
    } else if b.len() == 0 {
        false
    } else if a[0] != b[0] {
        a[0] < b[0]
    } else {
        bytes_le(a.skip(1), b.skip(1))
    }
}

pub proof fn lemma_bytes_le_total(a: Seq<u8>, b: Seq<u8>)
    ensures
        bytes_le(a, b) || bytes_le(b, a),
    decreases a.len(),
{
    if a.len() > 0 && b.len() > 0 && a[0] == b[0] {
        lemma_bytes_le_total(a.skip(1), b.skip(1));
    }
}

pub proof fn lemma_bytes_le_transitive(a: Seq<u8>, b: Seq<u8>, c: Seq<u8>)
    requires
        bytes_le(a, b),
        bytes_le(b, c),
    ensures
        bytes_le(a, c),
    decreases a.len(),
{
    if a.len() > 0 && b.len() > 0 && c.len() > 0 && a[0] == b[0] && b[0] == c[0] {
        lemma_bytes_le_transitive(a.skip(1), b.skip(1), c.skip(1));
    }
}

/// Whether `a` comes before `b`, or is the same.
pub fn bytes_ordered(a: &[u8], b: &[u8]) -> (r: bool)
    ensures
        r == bytes_le(a@, b@),
{
    let mut i: usize = 0;
    assert(a@.skip(0) =~= a@);
    assert(b@.skip(0) =~= b@);
    while i < a.len()
        invariant
            i <= a@.len(),
            i <= b@.len(),
            bytes_le(a@, b@) == bytes_le(a@.skip(i as int), b@.skip(i as int)),
        decreases a@.len() - i,
    {
        if i >= b.len() {
            return false;
        }
        if a[i] != b[i] {
            return a[i] < b[i];
        }
        assert(a@.skip(i as int).skip(1) =~= a@.skip(i + 1));
        assert(b@.skip(i as int).skip(1) =~= b@.skip(i + 1));
        i = i + 1;
    }
    true
}

// ---------------------------------------------------------------------------
// Bounded buffers
// ---------------------------------------------------------------------------

/// `buf` followed by as much of `chunk` as fits below `cap` bytes in all.
pub open spec fn filled(buf: Seq<u8>, chunk: Seq<u8>, cap: int) -> Seq<u8> {
    if buf.len() >= cap {
        buf
    } else if buf.len() + chunk.len() <= cap {
        buf + chunk
    } else {
        buf + chunk.take(cap - buf.len())
    }
}

/// Appends `chunk`, retaining at most `cap` bytes in all; true once the
/// buffer holds `cap` bytes.
pub fn append_capped(buf: &mut Vec<u8>, chunk: &[u8], cap: usize) -> (full: bool)
    ensures
        final(buf)@ == filled(old(buf)@, chunk@, cap as int),
        full == (final(buf)@.len() >= cap),
{
    let ghost before = buf@;
    let retain: usize = cap.saturating_sub(buf.len());
    if retain > 0 {
        let n: usize = if chunk.len() < retain {
            chunk.len()
        } else {
            retain
        };
        for i in 0..n
            invariant
                n <= chunk@.len(),
                buf@ == before + chunk@.take(i as int),
        {
            buf.push(chunk[i]);
            assert(chunk@.take(i + 1) =~= chunk@.take(i as int).push(chunk@[i as int]));
        }
        assert(chunk@.take(chunk@.len() as int) =~= chunk@);
    }
    buf.len() >= cap
}

/// However the input is cut into chunks, a bounded buffer ends up with the
/// first `cap` bytes of it.
pub proof fn bounded_buffer_keeps_the_head(buf: Seq<u8>, a: Seq<u8>, b: Seq<u8>, cap: nat)
    ensures
        filled(filled(buf, a, cap as int), b, cap as int) == filled(buf, a + b, cap as int),
        buf.len() <= cap ==> filled(buf, a, cap as int).len() <= cap,
{
    assert(filled(filled(buf, a, cap as int), b, cap as int) =~= filled(buf, a + b, cap as int));
}

// ---------------------------------------------------------------------------
// Paths
// ---------------------------------------------------------------------------

/// A file path as the operating system sees it.
#[derive(Debug)]
pub struct PathBytes {
    pub bytes: Vec<u8>,
}

impl View for PathBytes {
    type V = Seq<u8>;

    open spec fn view(&self) -> Seq<u8> {
        self.bytes@
    }
}

impl Clone for PathBytes {
    fn clone(&self) -> (r: Self)
        ensures
            r@ == self@,
    {
        PathBytes { bytes: slice_to_vec(self.bytes.as_slice()) }
    }
}

pub const SLASH: u8 = 0x2f;

pub open spec fn is_absolute_path(p: Seq<u8>) -> bool {
    p.len() > 0 && p[0] == SLASH
}

/// `rel` below `base`; an absolute `rel` replaces `base`.
pub open spec fn path_join(base: Seq<u8>, rel: Seq<u8>) -> Seq<u8> {
    if is_absolute_path(rel) {
        rel
    } else if base.len() > 0 && base.last() != SLASH {
        base.push(SLASH) + rel
    } else {
        base + rel
    }
}

impl PathBytes {
    pub fn from_bytes(bytes: &[u8]) -> (r: PathBytes)
        ensures
            r@ == bytes@,
    {
        PathBytes { bytes: slice_to_vec(bytes) }
    }

    pub fn from_text(s: &str) -> (r: PathBytes)
        ensures
            r@ == encode_utf8(s@),
    {
        PathBytes { bytes: bytes_of(s) }
    }

    pub fn is_absolute(&self) -> (r: bool)
        ensures
            r == is_absolute_path(self@),
    {
        self.bytes.len() > 0 && self.bytes[0] == SLASH
    }

    pub fn same_as(&self, other: &PathBytes) -> (r: bool)
        ensures
            r == (self@ == other@),
    {
        same_bytes(self.bytes.as_slice(), other.bytes.as_slice())
    }

    pub fn join_bytes(&self, rel: &[u8]) -> (r: PathBytes)
        ensures
            r@ == path_join(self@, rel@),
    {
        if rel.len() > 0 && rel[0] == SLASH {
            return PathBytes { bytes: slice_to_vec(rel) };
        }
        let mut out: Vec<u8> = slice_to_vec(self.bytes.as_slice());
        if out.len() > 0 && out[out.len() - 1] != SLASH {
            out.push(SLASH);
        }
        let mut tail: Vec<u8> = slice_to_vec(rel);
        out.append(&mut tail);
        PathBytes { bytes: out }
    }

    pub fn join(&self, rel: &str) -> (r: PathBytes)
        ensures
            r@ == path_join(self@, encode_utf8(rel@)),
    {
        self.join_bytes(bytes_of(rel).as_slice())
    }

    /// The path as text for messages, undecodable bytes replaced.
    pub fn display(&self) -> (r: String)
        ensures
            r@ == utf8_lossy(self@),
    {
        decode_lossy(self.bytes.as_slice())
    }
}

/// The pieces of `s` between the separators `sep`.
pub open spec fn pieces(s: Seq<u8>, sep: u8) -> Seq<Seq<u8>>
    decreases s.len(),
{
    let n = position_of(s, sep);
    if 0 <= n < s.len() {
        seq![s.take(n)] + pieces(s.skip(n + 1), sep)
    } else {
        seq![s]
    }
}

/// The nonempty ones among `pieces`.
pub open spec fn nonempty<T>(list: Seq<Seq<T>>) -> Seq<Seq<T>>
    decreases list.len(),
{
    if list.len() == 0 {
        list
    } else if list[0].len() == 0 {
        nonempty(list.skip(1))
    } else {
        seq![list[0]] + nonempty(list.skip(1))
    }
}

/// The byte strings held by a list.
pub open spec fn byte_texts(v: Seq<Vec<u8>>) -> Seq<Seq<u8>> {
    v.map_values(|b: Vec<u8>| b@)
}

/// The nonempty pieces of `s` between the separators `sep`.
pub fn split_nonempty(s: &[u8], sep: u8) -> (r: Vec<Vec<u8>>)
    ensures
        byte_texts(r@) == nonempty(pieces(s@, sep)),
{
    let mut out: Vec<Vec<u8>> = Vec::new();
    let mut i: usize = 0;
    assert(s@.skip(0) =~= s@);
    assert(byte_texts(out@) + nonempty(pieces(s@, sep)) =~= nonempty(pieces(s@, sep)));
    loop
        invariant
            i <= s@.len(),
            byte_texts(out@) + nonempty(pieces(s@.skip(i as int), sep)) == nonempty(
                pieces(s@, sep),
            ),
        decreases s@.len() - i,
    {
        let tail = slice_subrange(s, i, s.len());
        let ghost rest = s@.skip(i as int);
        assert(tail@ =~= rest);
        let n = index_of_byte(tail, sep);
        let piece = slice_to_vec(slice_subrange(tail, 0, n));
        let ghost before = byte_texts(out@);
        let ghost head = rest.take(n as int);
        assert(piece@ =~= head);
        proof {
            let all = pieces(rest, sep);
            if n < rest.len() {
                assert(all.skip(1) =~= pieces(rest.skip(n + 1), sep));
            } else {
                assert(rest.take(n as int) =~= rest);
                assert(all.skip(1) =~= Seq::<Seq<u8>>::empty());
                assert(nonempty(all.skip(1)) =~= Seq::<Seq<u8>>::empty());
            }
            assert(all[0] == head);
        }
        let keep = piece.len() > 0;
        if keep {
            out.push(piece);
            assert(byte_texts(out@) =~= before + seq![head]);
        }
        if n >= tail.len() {
            proof {
                if keep {
                    assert(before + (seq![head] + Seq::<Seq<u8>>::empty()) =~= byte_texts(out@));
                } else {
                    assert(before + Seq::<Seq<u8>>::empty() =~= byte_texts(out@));
                }
            }
            return out;
        }
        proof {
            let more = nonempty(pieces(rest.skip(n + 1), sep));
            assert(rest.skip(n + 1) =~= s@.skip(i + n + 1));
            if keep {
                assert(before + (seq![head] + more) =~= byte_texts(out@) + more);
            }
        }
        i = i + n + 1;
    }
}

// ---------------------------------------------------------------------------
// Laws
// ---------------------------------------------------------------------------

/// A path below another has exactly one slash between the two; an absolute
/// path stands alone.
pub proof fn joined_paths_have_one_slash_between(base: Seq<u8>, rel: Seq<u8>)
    ensures
        rel.len() > 0 && rel[0] == 0x2f ==> path_join(base, rel) == rel,
        !(rel.len() > 0 && rel[0] == 0x2f) && base.len() > 0 && base.last() != 0x2f ==> path_join(
            base,
            rel,
        ) == base + seq![0x2fu8] + rel,
        !(rel.len() > 0 && rel[0] == 0x2f) && base.len() > 0 && base.last() == 0x2f ==> path_join(
            base,
            rel,
        ) == base + rel,
        is_absolute_path(base) && base.len() > 0 ==> is_absolute_path(path_join(base, rel)),
        is_absolute_path(base) <==> base.len() > 0 && base[0] == 0x2f,
{
    if base.len() > 0 && base.last() != 0x2f {
        assert(base.push(0x2f) + rel =~= base + seq![0x2fu8] + rel);
    }
}

/// The first byte in which two names differ decides their order; a name that
/// is the beginning of another comes first.
pub proof fn names_are_ordered_by_their_first_difference(
    common: Seq<u8>,
    x: u8,
    y: u8,
    a: Seq<u8>,
    b: Seq<u8>,
)
    ensures
        x != y ==> (bytes_le(common + (seq![x] + a), common + (seq![y] + b)) <==> x < y),
        bytes_le(common, common + b),
        b.len() > 0 ==> !bytes_le(common + b, common),
    decreases common.len(),
{
    let p = common + (seq![x] + a);
    let q = common + (seq![y] + b);
    if common.len() == 0 {
        assert(p =~= seq![x] + a && q =~= seq![y] + b);
        assert(common + b =~= b);
    } else {
        let rest = common.skip(1);
        names_are_ordered_by_their_first_difference(rest, x, y, a, b);
        assert(p.skip(1) =~= rest + (seq![x] + a));
        assert(q.skip(1) =~= rest + (seq![y] + b));
        assert((common + b).skip(1) =~= rest + b);
    }
}

/// The pieces of a list stand between its separators, in order, and empty ones
/// do not count.
pub proof fn pieces_stand_between_separators(piece: Seq<u8>, sep: u8, rest: Seq<u8>)
    requires
        !piece.contains(sep),
    ensures
        pieces(piece, sep) == seq![piece],
        pieces(piece + seq![sep] + rest, sep) == seq![piece] + pieces(rest, sep),
        piece.len() > 0 ==> nonempty(pieces(piece, sep)) == seq![piece],
        nonempty(pieces(piece + seq![sep] + rest, sep)) == if piece.len() > 0 {
            seq![piece] + nonempty(pieces(rest, sep))
        } else {
            nonempty(pieces(rest, sep))
        },
{
    let s = piece + seq![sep] + rest;
    assert forall|k: int| 0 <= k < piece.len() implies s[k] != sep && piece[k] != sep by {
        assert(s[k] == piece[k]);
        assert(piece.contains(piece[k]));
    }
    assert(s[piece.len() as int] == sep);
    lemma_position_unique(s, sep, piece.len() as int);
    lemma_position_unique(piece, sep, piece.len() as int);
    assert(s.take(piece.len() as int) =~= piece);
    assert(s.skip(piece.len() as int + 1) =~= rest);
    let all = seq![piece] + pieces(rest, sep);
    assert(all.skip(1) =~= pieces(rest, sep));
    let one = seq![piece];
    let none = Seq::<Seq<u8>>::empty();
    assert(one.skip(1) =~= none);
    assert(nonempty(none) == none);
    assert(seq![piece] + none =~= seq![piece]);
}

/// A bounded buffer holds the beginning of what was read into it, as much as
/// fits.
pub proof fn buffers_hold_the_beginning(chunk: Seq<u8>, cap: int)
    requires
        cap >= 0,
    ensures
        filled(Seq::empty(), chunk, cap) == if chunk.len() <= cap {
            chunk
        } else {
            chunk.take(cap)
        },
{
    assert(Seq::<u8>::empty() + chunk =~= chunk);
    if chunk.len() > cap {
        assert(filled(Seq::empty(), chunk, cap) =~= chunk.take(cap));
    }
}

/// The byte strings of a list are those of its vectors, in their order.
pub proof fn lists_hold_their_byte_strings(v: Seq<Vec<u8>>, i: int)
    requires
        0 <= i < v.len(),
    ensures
        byte_texts(v).len() == v.len(),
        byte_texts(v)[i] == v[i]@,
{
}

} // verus!
