//! Text as sequences of characters: the handful of string operations the
//! rest of the crate is built from, each with an exact contract.

use vstd::prelude::*;
use vstd::slice::*;
use vstd::string::*;

verus! {

/// `String::push` appends one character at the end.
pub assume_specification[ String::push ](s: &mut String, c: char)
    ensures
        final(s)@ == old(s)@.push(c),
;

/// Characters with the Unicode `White_Space` property.
pub open spec fn white(c: char) -> bool {
    let n = c as int;
    ||| 0x9 <= n <= 0xd
    ||| n == 0x20
    ||| n == 0x85
    ||| n == 0xa0
    ||| n == 0x1680
    ||| 0x2000 <= n <= 0x200a
    ||| n == 0x2028
    ||| n == 0x2029
    ||| n == 0x202f
    ||| n == 0x205f
    ||| n == 0x3000
}

/// The five ASCII characters that separate fields in kernel text files.
pub open spec fn ascii_white(c: char) -> bool {
    c == ' ' || c == '\t' || c == '\n' || c == '\r' || c as int == 0xc
}

/// Characters of the Unicode general category `Cc`.
pub open spec fn control(c: char) -> bool {
    c as int <= 0x1f || 0x7f <= c as int <= 0x9f
}

pub open spec fn ascii_alphanumeric(c: char) -> bool {
    ('0' <= c && c <= '9') || ('A' <= c && c <= 'Z') || ('a' <= c && c <= 'z')
}

pub fn is_white(c: char) -> (r: bool)
    ensures
        r == white(c),
{
    let n: u32 = c as u32;
    (0x9 <= n && n <= 0xd) || n == 0x20 || n == 0x85 || n == 0xa0 || n == 0x1680 || (0x2000 <= n
        && n <= 0x200a) || n == 0x2028 || n == 0x2029 || n == 0x202f || n == 0x205f || n == 0x3000
}

pub fn is_ascii_white(c: char) -> (r: bool)
    ensures
        r == ascii_white(c),
{
    c == ' ' || c == '\t' || c == '\n' || c == '\r' || c as u32 == 0xc
}

pub fn is_control(c: char) -> (r: bool)
    ensures
        r == control(c),
{
    let n: u32 = c as u32;
    n <= 0x1f || (0x7f <= n && n <= 0x9f)
}

pub fn is_ascii_alphanumeric(c: char) -> (r: bool)
    ensures
        r == ascii_alphanumeric(c),
{
    ('0' <= c && c <= '9') || ('A' <= c && c <= 'Z') || ('a' <= c && c <= 'z')
}

/// The characters of `s`, in order.
pub fn chars_of(s: &str) -> (r: Vec<char>)
    ensures
        r@ == s@,
{
    let mut r: Vec<char> = Vec::new();
    for c in it: s.chars()
        invariant
            r@ == it.seq().take(it.index()),
            it.seq() == s@,
    {
        r.push(c);
    }
    assert(s@.take(s@.len() as int) =~= s@);
    r
}

/// The string made of the characters of `v`.
pub fn text_of(v: &[char]) -> (r: String)
    ensures
        r@ == v@,
{
    let mut r = String::new();
    push_chars(&mut r, v);
    r
}

/// Appends the characters of `v` to `out`.
pub fn push_chars(out: &mut String, v: &[char])
    ensures
        final(out)@ == old(out)@ + v@,
{
    for i in 0..v.len()
        invariant
            out@ == old(out)@ + v@.take(i as int),
    {
        out.push(v[i]);
        assert(v@.take(i + 1) =~= v@.take(i as int).push(v@[i as int]));
    }
    assert(v@.take(v@.len() as int) =~= v@);
}

/// Whether two sequences of characters are the same text.
pub fn same(a: &[char], b: &[char]) -> (r: bool)
    ensures
        r == (a@ == b@),
{
    if a.len() != b.len() {
        return false;
    }
    for i in 0..a.len()
        invariant
            a@.len() == b@.len(),
            forall|k: int| 0 <= k < i ==> a@[k] == b@[k],
    {
        if a[i] != b[i] {
            return false;
        }
    }
    assert(a@ =~= b@);
    true
}

/// Whether two strings hold the same text.
pub fn same_text(a: &str, b: &str) -> (r: bool)
    ensures
        r == (a@ == b@),
{
    same(chars_of(a).as_slice(), chars_of(b).as_slice())
}

/// Whether `s` holds no character.
pub fn is_blank(s: &str) -> (r: bool)
    ensures
        r == (s@.len() == 0),
{
    s.is_empty()
}

// ---------------------------------------------------------------------------
// Trimming
// ---------------------------------------------------------------------------

/// `s` without its leading white space.
pub open spec fn trimmed_start(s: Seq<char>) -> Seq<char>
    decreases s.len(),
{
    if s.len() > 0 && white(s[0]) {
        trimmed_start(s.skip(1))
    } else {
        s
    }
}

/// `s` without its trailing white space.
pub open spec fn trimmed_end(s: Seq<char>) -> Seq<char>
    decreases s.len(),
{
    if s.len() > 0 && white(s.last()) {
        trimmed_end(s.drop_last())
    } else {
        s
    }
}

/// `s` without leading and trailing white space.
pub open spec fn trimmed(s: Seq<char>) -> Seq<char> {
    trimmed_end(trimmed_start(s))
}

pub fn trim_start<'a>(s: &'a [char]) -> (r: &'a [char])
    ensures
        r@ == trimmed_start(s@),
{
    let mut i: usize = 0;
    assert(s@.skip(0) =~= s@);
    while i < s.len() && is_white(s[i])
        invariant
            i <= s@.len(),
            trimmed_start(s@) == trimmed_start(s@.skip(i as int)),
        decreases s@.len() - i,
    {
        assert(s@.skip(i as int).skip(1) =~= s@.skip(i + 1));
        i = i + 1;
    }
    assert(s@.subrange(i as int, s@.len() as int) =~= s@.skip(i as int));
    slice_subrange(s, i, s.len())
}

pub fn trim_end<'a>(s: &'a [char]) -> (r: &'a [char])
    ensures
        r@ == trimmed_end(s@),
{
    let mut n: usize = s.len();
    assert(s@.take(n as int) =~= s@);
    while n > 0 && is_white(s[n - 1])
        invariant
            n <= s@.len(),
            trimmed_end(s@) == trimmed_end(s@.take(n as int)),
        decreases n,
    {
        assert(s@.take(n as int).drop_last() =~= s@.take(n - 1));
        n = n - 1;
    }
    assert(s@.subrange(0, n as int) =~= s@.take(n as int));
    slice_subrange(s, 0, n)
}

pub fn trim<'a>(s: &'a [char]) -> (r: &'a [char])
    ensures
        r@ == trimmed(s@),
{
    trim_end(trim_start(s))
}

// ---------------------------------------------------------------------------
// Searching
// ---------------------------------------------------------------------------

/// `needle` stands somewhere in `hay` as one contiguous stretch.
pub open spec fn infix<T>(needle: Seq<T>, hay: Seq<T>) -> bool {
    exists|i: int| #[trigger] stands_at(needle, hay, i)
}

/// `needle` stands in `hay` from position `i` on.
pub open spec fn stands_at<T>(needle: Seq<T>, hay: Seq<T>, i: int) -> bool {
    0 <= i && i + needle.len() <= hay.len() && hay.subrange(i, i + needle.len()) == needle
}

/// The position of the first `c` in `s`, or the length of `s`.
pub open spec fn position_of<T>(s: Seq<T>, c: T) -> int
    decreases s.len(),
{
    if s.len() == 0 || s[0] == c {
        0
    } else {
        1 + position_of(s.skip(1), c)
    }
}

pub proof fn lemma_position_of<T>(s: Seq<T>, c: T)
    ensures
        0 <= position_of(s, c) <= s.len(),
        position_of(s, c) < s.len() ==> s[position_of(s, c)] == c,
        forall|k: int| 0 <= k < position_of(s, c) ==> s[k] != c,
    decreases s.len(),
{
    if s.len() > 0 && s[0] != c {
        lemma_position_of(s.skip(1), c);
        assert forall|k: int| 0 <= k < position_of(s, c) implies s[k] != c by {
            if k > 0 {
                assert(s[k] == s.skip(1)[k - 1]);
            }
        }
    }
}

/// The position described by its two properties is the first one.
pub proof fn lemma_position_unique<T>(s: Seq<T>, c: T, n: int)
    requires
        0 <= n <= s.len(),
        n < s.len() ==> s[n] == c,
        forall|k: int| 0 <= k < n ==> s[k] != c,
    ensures
        position_of(s, c) == n,
{
    lemma_position_of(s, c);
    let p = position_of(s, c);
    if p < n {
        assert(s[p] != c);
    } else if n < p {
        assert(s[n] != c);
    }
}

pub fn index_of_char(s: &[char], c: char) -> (r: usize)
    ensures
        r == position_of(s@, c),
        r <= s@.len(),
{
    let mut i: usize = 0;
    while i < s.len() && s[i] != c
        invariant
            i <= s@.len(),
            forall|k: int| 0 <= k < i ==> s@[k] != c,
        decreases s@.len() - i,
    {
        i = i + 1;
    }
    proof {
        lemma_position_unique(s@, c, i as int);
    }
    i
}

pub fn index_of_byte(s: &[u8], c: u8) -> (r: usize)
    ensures
        r == position_of(s@, c),
        r <= s@.len(),
{
    let mut i: usize = 0;
    while i < s.len() && s[i] != c
        invariant
            i <= s@.len(),
            forall|k: int| 0 <= k < i ==> s@[k] != c,
        decreases s@.len() - i,
    {
        i = i + 1;
    }
    proof {
        lemma_position_unique(s@, c, i as int);
    }
    i
}

pub fn has_char(s: &str, c: char) -> (r: bool)
    ensures
        r == s@.contains(c),
{
    let v = chars_of(s);
    let i = index_of_char(v.as_slice(), c);
    proof {
        lemma_position_of(s@, c);
        if s@.contains(c) {
            let k = s@.index_of(c);
            assert(s@[k] == c);
        }
    }
    i < v.len()
}

pub fn has_prefix(s: &[char], p: &[char]) -> (r: bool)
    ensures
        r == p@.is_prefix_of(s@),
{
    if p.len() > s.len() {
        return false;
    }
    let head = slice_subrange(s, 0, p.len());
    assert(p@.is_prefix_of(s@) <==> head@ =~= p@);
    same(head, p)
}

pub fn contains(hay: &[char], needle: &[char]) -> (r: bool)
    ensures
        r == infix(needle@, hay@),
{
    if needle.len() > hay.len() {
        return false;
    }
    let mut i: usize = 0;
    while i <= hay.len() - needle.len()
        invariant
            needle@.len() <= hay@.len(),
            i <= hay@.len() - needle@.len() + 1,
            forall|k: int| 0 <= k < i ==> !stands_at(needle@, hay@, k),
        decreases hay@.len() - i,
    {
        if same(slice_subrange(hay, i, i + needle.len()), needle) {
            assert(stands_at(needle@, hay@, i as int));
            return true;
        }
        if i == hay.len() - needle.len() {
            assert(!infix(needle@, hay@));
            return false;
        }
        i = i + 1;
    }
    false
}

// ---------------------------------------------------------------------------
// Order
// ---------------------------------------------------------------------------

/// `a` comes before `b` in the order of strings: character by character, a
/// proper prefix first.
pub open spec fn text_before(a: Seq<char>, b: Seq<char>) -> bool
    decreases a.len(),
{
    if b.len() == 0 {
        false
    } else if a.len() == 0 {
        true
    } else if a[0] != b[0] {
        a[0] < b[0]
    } else {
        text_before(a.skip(1), b.skip(1))
    }
}

/// Texts of the same length that are in order stay so, whatever follows them.
pub proof fn lemma_before_extends(a: Seq<char>, b: Seq<char>, x: Seq<char>, y: Seq<char>)
    requires
        a.len() == b.len(),
        text_before(a, b),
    ensures
        text_before(a + x, b + y),
    decreases a.len(),
{
    assert((a + x)[0] == a[0] && (b + y)[0] == b[0]);
    if a[0] == b[0] {
        assert((a + x).skip(1) =~= a.skip(1) + x);
        assert((b + y).skip(1) =~= b.skip(1) + y);
        lemma_before_extends(a.skip(1), b.skip(1), x, y);
    }
}

/// A common prefix does not matter for the order.
pub proof fn lemma_before_behind(p: Seq<char>, x: Seq<char>, y: Seq<char>)
    requires
        text_before(x, y),
    ensures
        text_before(p + x, p + y),
    decreases p.len(),
{
    if p.len() == 0 {
        assert(p + x =~= x && p + y =~= y);
    } else {
        assert((p + x).skip(1) =~= p.skip(1) + x);
        assert((p + y).skip(1) =~= p.skip(1) + y);
        lemma_before_behind(p.skip(1), x, y);
    }
}

// ---------------------------------------------------------------------------
// Splitting and joining
// ---------------------------------------------------------------------------

/// The length of the leading stretch of `s` that holds no separator.
pub open spec fn word_len(s: Seq<char>, ascii: bool) -> int
    decreases s.len(),
{
    if s.len() == 0 || separator(s[0], ascii) {
        0
    } else {
        1 + word_len(s.skip(1), ascii)
    }
}

/// Word separators: ASCII white space only, or all of Unicode's.
pub open spec fn separator(c: char, ascii: bool) -> bool {
    if ascii {
        ascii_white(c)
    } else {
        white(c)
    }
}

fn is_separator(c: char, ascii: bool) -> (r: bool)
    ensures
        r == separator(c, ascii),
{
    if ascii {
        is_ascii_white(c)
    } else {
        is_white(c)
    }
}

/// The length of the leading stretch of `s` that holds no white space.
pub fn leading_word(s: &[char]) -> (r: usize)
    ensures
        r == word_len(s@, false),
        r <= s@.len(),
        r < s@.len() ==> white(s@[r as int]),
{
    let mut i: usize = 0;
    assert(s@.skip(0) =~= s@);
    while i < s.len() && !is_white(s[i])
        invariant
            i <= s@.len(),
            word_len(s@, false) == i + word_len(s@.skip(i as int), false),
        decreases s@.len() - i,
    {
        assert(s@.skip(i as int).skip(1) =~= s@.skip(i + 1));
        i = i + 1;
    }
    i
}

/// The words of `s`: its maximal stretches free of separators.
pub open spec fn words(s: Seq<char>, ascii: bool) -> Seq<Seq<char>>
    decreases s.len(),
{
    if s.len() == 0 {
        Seq::empty()
    } else if separator(s[0], ascii) {
        words(s.skip(1), ascii)
    } else {
        let n = word_len(s, ascii);
        if 0 < n <= s.len() {
            seq![s.take(n)] + words(s.skip(n), ascii)
        } else {
            Seq::empty()
        }
    }
}

/// The texts held by a list of strings.
pub open spec fn texts(v: Seq<String>) -> Seq<Seq<char>> {
    v.map_values(|s: String| s@)
}

pub fn split_words(s: &[char], ascii: bool) -> (r: Vec<String>)
    ensures
        texts(r@) == words(s@, ascii),
{
    let mut out: Vec<String> = Vec::new();
    let mut i: usize = 0;
    assert(s@.skip(0) =~= s@);
    assert(texts(out@) + words(s@, ascii) =~= words(s@, ascii));
    while i < s.len()
        invariant
            i <= s@.len(),
            texts(out@) + words(s@.skip(i as int), ascii) == words(s@, ascii),
        decreases s@.len() - i,
    {
        let ghost rest = s@.skip(i as int);
        if is_separator(s[i], ascii) {
            assert(rest.skip(1) =~= s@.skip(i + 1));
            i = i + 1;
        } else {
            let mut j: usize = i + 1;
            assert(rest.skip(1) =~= s@.skip(j as int));
            while j < s.len() && !is_separator(s[j], ascii)
                invariant
                    i < j <= s@.len(),
                    rest == s@.skip(i as int),
                    word_len(rest, ascii) == j - i + word_len(s@.skip(j as int), ascii),
                decreases s@.len() - j,
            {
                assert(s@.skip(j as int).skip(1) =~= s@.skip(j + 1));
                j = j + 1;
            }
            let word = text_of(slice_subrange(s, i, j));
            let ghost before = out@;
            out.push(word);
            proof {
                assert(word@ =~= rest.take(j - i));
                assert(rest.skip(j - i) =~= s@.skip(j as int));
                assert(texts(out@) =~= texts(before) + seq![rest.take(j - i)]);
                assert(texts(out@) + words(s@.skip(j as int), ascii) =~= texts(before) + (seq![
                    rest.take(j - i),
                ] + words(s@.skip(j as int), ascii)));
            }
            i = j;
        }
    }
    assert(s@.skip(i as int) =~= Seq::<char>::empty());
    assert(texts(out@) + Seq::<Seq<char>>::empty() =~= texts(out@));
    out
}

/// `s` without one trailing carriage return.
pub open spec fn without_cr(s: Seq<char>) -> Seq<char> {
    if s.len() > 0 && s.last() == '\r' {
        s.drop_last()
    } else {
        s
    }
}

/// The lines of `s`: pieces ended by `\n` or `\r\n`, the last ending optional.
pub open spec fn lines(s: Seq<char>) -> Seq<Seq<char>>
    decreases s.len(),
{
    let n = position_of(s, '\n');
    if s.len() == 0 {
        Seq::empty()
    } else if 0 <= n < s.len() {
        seq![without_cr(s.take(n))] + lines(s.skip(n + 1))
    } else {
        seq![s]
    }
}

pub fn split_lines(s: &[char]) -> (r: Vec<String>)
    ensures
        texts(r@) == lines(s@),
{
    let mut out: Vec<String> = Vec::new();
    let mut i: usize = 0;
    assert(s@.skip(0) =~= s@);
    assert(texts(out@) + lines(s@) =~= lines(s@));
    while i < s.len()
        invariant
            i <= s@.len(),
            texts(out@) + lines(s@.skip(i as int)) == lines(s@),
        decreases s@.len() - i,
    {
        let ghost rest = s@.skip(i as int);
        let tail = slice_subrange(s, i, s.len());
        assert(tail@ =~= rest);
        let n = index_of_char(tail, '\n');
        let ghost before = out@;
        if n < tail.len() {
            let mut end: usize = n;
            if n > 0 && tail[n - 1] == '\r' {
                end = n - 1;
            }
            let line = text_of(slice_subrange(tail, 0, end));
            out.push(line);
            proof {
                assert(line@ =~= without_cr(rest.take(n as int)));
                assert(rest.skip(n + 1) =~= s@.skip(i + n + 1));
                assert(texts(out@) =~= texts(before) + seq![line@]);
                assert(texts(out@) + lines(rest.skip(n + 1)) =~= texts(before) + (seq![line@]
                    + lines(rest.skip(n + 1))));
            }
            i = i + n + 1;
        } else {
            let line = text_of(tail);
            out.push(line);
            proof {
                assert(texts(out@) =~= texts(before) + seq![rest]);
                assert(s@.skip(s@.len() as int) =~= Seq::<char>::empty());
                assert(texts(out@) + lines(Seq::<char>::empty()) =~= texts(out@));
            }
            i = s.len();
        }
    }
    assert(s@.skip(i as int) =~= Seq::<char>::empty());
    assert(texts(out@) + Seq::<Seq<char>>::empty() =~= texts(out@));
    out
}

/// `parts` one after the other, with `sep` between neighbours.
pub open spec fn joined(parts: Seq<Seq<char>>, sep: Seq<char>) -> Seq<char>
    decreases parts.len(),
{
    if parts.len() == 0 {
        Seq::empty()
    } else if parts.len() == 1 {
        parts[0]
    } else {
        joined(parts.drop_last(), sep) + sep + parts.last()
    }
}

pub fn join(parts: &Vec<String>, sep: &str) -> (r: String)
    ensures
        r@ == joined(texts(parts@), sep@),
{
    let mut out = String::new();
    for i in 0..parts.len()
        invariant
            out@ == joined(texts(parts@).take(i as int), sep@),
    {
        let ghost all = texts(parts@);
        if i > 0 {
            out.append(sep);
        }
        out.append(parts[i].as_str());
        proof {
            assert(all.take(i + 1).drop_last() =~= all.take(i as int));
            assert(all.take(i + 1).last() == parts@[i as int]@);
            if i == 0 {
                assert(out@ =~= parts@[0]@);
            }
        }
    }
    assert(texts(parts@).take(parts@.len() as int) =~= texts(parts@));
    out
}

/// A copy of a list of strings that holds the same strings.
pub fn copy_texts(v: &Vec<String>) -> (r: Vec<String>)
    ensures
        r@ == v@,
{
    let mut out: Vec<String> = Vec::new();
    for i in 0..v.len()
        invariant
            out@ == v@.take(i as int),
    {
        out.push(v[i].clone());
        assert(v@.take(i + 1) =~= v@.take(i as int).push(v@[i as int]));
    }
    assert(v@.take(v@.len() as int) =~= v@);
    out
}

// ---------------------------------------------------------------------------
// Clipping and padding
// ---------------------------------------------------------------------------

/// The number of characters `clip` keeps in front of its ellipsis.
pub open spec fn clip_keep(max_chars: int) -> int {
    if max_chars > 4 {
        max_chars - 3
    } else {
        1
    }
}

/// `s` cut to `max_chars` characters, the cut marked by an ASCII ellipsis.
pub open spec fn clipped(s: Seq<char>, max_chars: int) -> Seq<char> {
    if s.len() <= max_chars {
        s
    } else {
        s.take(clip_keep(max_chars)) + "..."@
    }
}

/// Char-boundary-safe truncation with an ASCII ellipsis.
pub fn clip(s: String, max_chars: usize) -> (r: String)
    ensures
        r@ == clipped(s@, max_chars as int),
{
    let v = chars_of(s.as_str());
    if v.len() <= max_chars {
        return s;
    }
    let mut keep: usize = max_chars.saturating_sub(3);
    if keep < 1 {
        keep = 1;
    }
    let mut out = text_of(slice_subrange(v.as_slice(), 0, keep));
    assert(s@.subrange(0, keep as int) =~= s@.take(keep as int));
    out.append("...");
    out
}

/// Clipped text fits its bound, and is the text itself or a prefix of it with
/// the ellipsis behind. A bound of fewer than four characters leaves no room
/// for both.
pub proof fn clipped_text_fits(s: Seq<char>, max_chars: int)
    requires
        max_chars >= 4,
    ensures
        clipped(s, max_chars).len() <= max_chars,
        s.len() <= max_chars ==> clipped(s, max_chars) == s,
        s.len() > max_chars ==> clipped(s, max_chars) == s.take(clip_keep(max_chars)) + "..."@,
{
    reveal_strlit("...");
}

/// The first `max` characters of `s`.
pub open spec fn capped(s: Seq<char>, max: int) -> Seq<char> {
    if s.len() <= max {
        s
    } else {
        s.take(max)
    }
}

/// At most the first `cap` characters of `src`.
pub fn copy_capped(src: &str, cap: usize) -> (r: String)
    ensures
        r@ == capped(src@, cap as int),
{
    let v = chars_of(src);
    if v.len() <= cap {
        text_of(v.as_slice())
    } else {
        let out = text_of(slice_subrange(v.as_slice(), 0, cap));
        assert(src@.subrange(0, cap as int) =~= src@.take(cap as int));
        out
    }
}

/// `n` spaces.
pub open spec fn spaces(n: int) -> Seq<char> {
    Seq::new(
        if n > 0 {
            n as nat
        } else {
            0
        },
        |i: int| ' ',
    )
}

pub fn push_spaces(out: &mut String, n: usize)
    ensures
        final(out)@ == old(out)@ + spaces(n as int),
{
    let ghost before = out@;
    for i in 0..n
        invariant
            out@ == before + spaces(i as int),
    {
        out.push(' ');
        assert(spaces(i + 1) =~= spaces(i as int).push(' '));
    }
}

/// `s` followed by the spaces that fill it up to `width` characters.
pub open spec fn left_aligned(s: Seq<char>, width: int) -> Seq<char> {
    s + spaces(width - s.len())
}

/// Appends `s`, filled up with spaces to `width` characters.
pub fn push_left_aligned(out: &mut String, s: &str, width: usize)
    ensures
        final(out)@ == old(out)@ + left_aligned(s@, width as int),
{
    let ghost before = out@;
    let n: usize = s.unicode_len();
    out.append(s);
    if n < width {
        push_spaces(out, width - n);
    }
    assert(out@ =~= before + left_aligned(s@, width as int));
}

/// `s` with every run of white space replaced by one space.
pub open spec fn collapsed(s: Seq<char>) -> Seq<char> {
    joined(words(s, false), " "@)
}

pub fn collapse_whitespace(s: &str) -> (r: String)
    ensures
        r@ == collapsed(s@),
{
    let v = chars_of(s);
    let w = split_words(v.as_slice(), false);
    join(&w, " ")
}

// ---------------------------------------------------------------------------
// Laws
// ---------------------------------------------------------------------------

/// The separators of words and lines are white, and no printable ASCII
/// character is.
pub proof fn spaces_and_line_breaks_are_white(c: char)
    ensures
        c == ' ' || c == '\t' || c == '\n' || c == '\r' ==> white(c),
        '!' <= c && c <= '~' ==> !white(c),
{
}

/// A text is found in another exactly when that is made of something, the
/// text, and something more.
pub proof fn found_texts_stand_between_others<T>(needle: Seq<T>, hay: Seq<T>)
    ensures
        infix(needle, hay) <==> exists|a: Seq<T>, b: Seq<T>| hay == #[trigger] (a + needle + b),
{
    if infix(needle, hay) {
        let i = choose|i: int| #[trigger] stands_at(needle, hay, i);
        let a = hay.take(i);
        let b = hay.skip(i + needle.len());
        assert(hay =~= a + needle + b);
    }
    if exists|a: Seq<T>, b: Seq<T>| hay == #[trigger] (a + needle + b) {
        let (a, b) = choose|a: Seq<T>, b: Seq<T>| hay == #[trigger] (a + needle + b);
        assert(hay.subrange(a.len() as int, a.len() as int + needle.len()) =~= needle);
        assert(stands_at(needle, hay, a.len() as int));
    }
}

/// Trimming takes away white space at both ends and nothing else.
pub proof fn trimming_takes_white_ends(s: Seq<char>)
    ensures
        trimmed(s).len() > 0 ==> !white(trimmed(s)[0]) && !white(trimmed(s).last()),
        exists|i: int, j: int|
            0 <= i <= j <= s.len() && trimmed(s) == #[trigger] s.subrange(i, j) && (forall|k: int|
                0 <= k < i || j <= k < s.len() ==> white(#[trigger] s[k])),
{
    let i = lemma_trimmed_start(s);
    let t = trimmed_start(s);
    let n = lemma_trimmed_end(t);
    assert(trimmed(s) =~= s.subrange(i, i + n));
    assert forall|k: int| 0 <= k < i || i + n <= k < s.len() implies white(#[trigger] s[k]) by {
        if k >= i {
            assert(s[k] == t[k - i]);
        }
    }
    if n > 0 {
        assert(trimmed(s)[0] == t[0]);
    }
}

proof fn lemma_trimmed_start(s: Seq<char>) -> (i: int)
    ensures
        0 <= i <= s.len(),
        trimmed_start(s) == s.skip(i),
        forall|k: int| 0 <= k < i ==> white(#[trigger] s[k]),
        i < s.len() ==> !white(s[i]),
    decreases s.len(),
{
    if s.len() > 0 && white(s[0]) {
        let i = lemma_trimmed_start(s.skip(1));
        assert(s.skip(1).skip(i) =~= s.skip(i + 1));
        assert forall|k: int| 0 <= k < i + 1 implies white(#[trigger] s[k]) by {
            if k > 0 {
                assert(s[k] == s.skip(1)[k - 1]);
            }
        }
        i + 1
    } else {
        assert(s.skip(0) =~= s);
        0
    }
}

proof fn lemma_trimmed_end(s: Seq<char>) -> (n: int)
    ensures
        0 <= n <= s.len(),
        trimmed_end(s) == s.take(n),
        forall|k: int| n <= k < s.len() ==> white(#[trigger] s[k]),
        n > 0 ==> !white(s[n - 1]),
    decreases s.len(),
{
    if s.len() > 0 && white(s.last()) {
        let n = lemma_trimmed_end(s.drop_last());
        assert(s.drop_last().take(n) =~= s.take(n));
        assert forall|k: int| n <= k < s.len() implies white(#[trigger] s[k]) by {
            if k < s.len() - 1 {
                assert(s[k] == s.drop_last()[k]);
            }
        }
        n
    } else {
        assert(s.take(s.len() as int) =~= s);
        s.len() as int
    }
}

/// A line ends at the first line break; what follows it are further lines. A
/// carriage return in front of the line break belongs to it.
pub proof fn lines_end_at_line_breaks(line: Seq<char>, rest: Seq<char>)
    requires
        !line.contains('\n'),
    ensures
        lines(line + seq!['\n'] + rest) == seq![
            if line.len() > 0 && line.last() == '\r' {
                line.drop_last()
            } else {
                line
            },
        ] + lines(rest),
        line.len() > 0 ==> lines(line) == seq![line],
        lines(Seq::empty()).len() == 0,
{
    let s = line + seq!['\n'] + rest;
    assert forall|k: int| 0 <= k < line.len() implies s[k] != '\n' && line[k] != '\n' by {
        assert(s[k] == line[k]);
        assert(line.contains(line[k]));
    }
    assert(s[line.len() as int] == '\n');
    lemma_position_unique(s, '\n', line.len() as int);
    lemma_position_unique(line, '\n', line.len() as int);
    assert(s.take(line.len() as int) =~= line);
    assert(s.skip(line.len() as int + 1) =~= rest);
}

/// A word ends at the first separator, and separators in front of a word do
/// not matter: runs of white space separate words.
pub proof fn words_are_separated_by_white_space(word: Seq<char>, c: char, rest: Seq<char>)
    requires
        forall|k: int| 0 <= k < word.len() ==> !white(#[trigger] word[k]),
        white(c),
    ensures
        words(seq![c] + rest, false) == words(rest, false),
        word.len() > 0 ==> words(word + (seq![c] + rest), false) == seq![word] + words(rest, false),
        word.len() > 0 ==> words(word, false) == seq![word],
{
    let tail = seq![c] + rest;
    assert(tail.skip(1) =~= rest);
    if word.len() > 0 {
        let s = word + tail;
        lemma_word_len(word, tail);
        assert(s[0] == word[0]);
        assert(s.take(word.len() as int) =~= word);
        assert(s.skip(word.len() as int) =~= tail);
        let none = Seq::<char>::empty();
        lemma_word_len(word, none);
        assert(word + none =~= word);
        assert(word.take(word.len() as int) =~= word);
        assert(word.skip(word.len() as int) =~= none);
        assert(seq![word] + words(none, false) =~= seq![word]);
    }
}

proof fn lemma_word_len(word: Seq<char>, tail: Seq<char>)
    requires
        forall|k: int| 0 <= k < word.len() ==> !white(#[trigger] word[k]),
        tail.len() == 0 || white(tail[0]),
    ensures
        word_len(word + tail, false) == word.len(),
    decreases word.len(),
{
    let s = word + tail;
    if word.len() == 0 {
        assert(s =~= tail);
    } else {
        assert(s[0] == word[0]);
        assert(s.skip(1) =~= word.skip(1) + tail);
        assert forall|k: int| 0 <= k < word.skip(1).len() implies !white(
            #[trigger] word.skip(1)[k],
        ) by {
            assert(word.skip(1)[k] == word[k + 1]);
        }
        lemma_word_len(word.skip(1), tail);
    }
}

/// Joined parts stand one behind the other, with the separator between.
pub proof fn joined_parts_stand_in_order(parts: Seq<Seq<char>>, last: Seq<char>, sep: Seq<char>)
    ensures
        joined(Seq::empty(), sep).len() == 0,
        joined(seq![last], sep) == last,
        parts.len() > 0 ==> joined(parts.push(last), sep) == joined(parts, sep) + sep + last,
{
    assert(parts.push(last).drop_last() =~= parts);
}

/// Fields of kernel text files end at ASCII white space, runs of which count as
/// one.
pub proof fn fields_are_separated_by_spaces(word: Seq<char>, c: char, rest: Seq<char>)
    requires
        forall|k: int|
            0 <= k < word.len() ==> #[trigger] word[k] != ' ' && word[k] != '\t' && word[k] != '\n'
                && word[k] != '\r' && word[k] != '\u{c}',
        c == ' ' || c == '\t' || c == '\n' || c == '\r' || c == '\u{c}',
    ensures
        words(seq![c] + rest, true) == words(rest, true),
        word.len() > 0 ==> words(word + (seq![c] + rest), true) == seq![word] + words(rest, true),
        word.len() > 0 ==> words(word, true) == seq![word],
        words(Seq::empty(), true).len() == 0,
{
    let tail = seq![c] + rest;
    assert(tail.skip(1) =~= rest);
    if word.len() > 0 {
        let s = word + tail;
        lemma_field_len(word, tail);
        assert(s[0] == word[0]);
        assert(s.take(word.len() as int) =~= word);
        assert(s.skip(word.len() as int) =~= tail);
        let none = Seq::<char>::empty();
        lemma_field_len(word, none);
        assert(word + none =~= word);
        assert(word.take(word.len() as int) =~= word);
        assert(word.skip(word.len() as int) =~= none);
        assert(seq![word] + words(none, true) =~= seq![word]);
    }
}

proof fn lemma_field_len(word: Seq<char>, tail: Seq<char>)
    requires
        forall|k: int| 0 <= k < word.len() ==> !ascii_white(#[trigger] word[k]),
        tail.len() == 0 || ascii_white(tail[0]),
    ensures
        word_len(word + tail, true) == word.len(),
    decreases word.len(),
{
    let s = word + tail;
    if word.len() == 0 {
        assert(s =~= tail);
    } else {
        assert(s[0] == word[0]);
        assert(s.skip(1) =~= word.skip(1) + tail);
        assert forall|k: int| 0 <= k < word.skip(1).len() implies !ascii_white(
            #[trigger] word.skip(1)[k],
        ) by {
            assert(word.skip(1)[k] == word[k + 1]);
        }
        lemma_field_len(word.skip(1), tail);
    }
}

/// Text that is not too long is left as it is; longer text is cut so that it
/// has with its ellipsis exactly the length allowed.
pub proof fn clipping_cuts_only_what_is_too_long(s: Seq<char>, max_chars: int)
    ensures
        s.len() <= max_chars ==> clipped(s, max_chars) == s,
        s.len() > max_chars >= 4 ==> clipped(s, max_chars) == s.take(max_chars - 3) + seq![
            '.',
            '.',
            '.',
        ] && clipped(s, max_chars).len() == max_chars,
        s.len() > max_chars && max_chars < 4 ==> clipped(s, max_chars) == s.take(1) + seq![
            '.',
            '.',
            '.',
        ],
        s.len() <= max_chars ==> capped(s, max_chars) == s,
        s.len() > max_chars ==> capped(s, max_chars) == s.take(max_chars),
{
    reveal_strlit("...");
    assert("..."@ =~= seq!['.', '.', '.']);
}

/// Aligned text is the text with only spaces behind it, up to its width; text
/// that is wider stays as it is.
pub proof fn aligned_text_fills_its_column(s: Seq<char>, width: int)
    ensures
        left_aligned(s, width).take(s.len() as int) == s,
        forall|i: int|
            s.len() <= i < left_aligned(s, width).len() ==> #[trigger] left_aligned(s, width)[i]
                == ' ',
        s.len() < width ==> left_aligned(s, width).len() == width,
        s.len() >= width ==> left_aligned(s, width) == s,
        forall|i: int| 0 <= i < spaces(width).len() ==> #[trigger] spaces(width)[i] == ' ',
        width >= 0 ==> spaces(width).len() == width,
{
    assert(left_aligned(s, width).take(s.len() as int) =~= s);
    if s.len() >= width {
        assert(left_aligned(s, width) =~= s);
    }
}

/// Collapsed text is its words with one space between any two.
pub proof fn collapsed_text_is_words_and_spaces(word: Seq<char>, c: char, rest: Seq<char>)
    requires
        word.len() > 0,
        forall|k: int| 0 <= k < word.len() ==> !white(#[trigger] word[k]),
        white(c),
    ensures
        collapsed(seq![c] + rest) == collapsed(rest),
        collapsed(word) == word,
        collapsed(Seq::empty()).len() == 0,
        words(rest, false).len() > 0 ==> collapsed(word + (seq![c] + rest)) == word + seq![' ']
            + collapsed(rest),
        words(rest, false).len() == 0 ==> collapsed(word + (seq![c] + rest)) == word,
{
    reveal_strlit(" ");
    assert(" "@ =~= seq![' ']);
    words_are_separated_by_white_space(word, c, rest);
    joined_parts_stand_in_order(Seq::empty(), word, " "@);
    let w = words(rest, false);
    if w.len() > 0 {
        joined_parts_start_with_the_first(word, w, " "@);
    } else {
        assert(seq![word] + w =~= seq![word]);
    }
}

/// The first of several parts stands in front of the others.
pub proof fn joined_parts_start_with_the_first(first: Seq<char>, parts: Seq<Seq<char>>, sep: Seq<char>)
    requires
        parts.len() > 0,
    ensures
        joined(seq![first] + parts, sep) == first + sep + joined(parts, sep),
    decreases parts.len(),
{
    let all = seq![first] + parts;
    let front = parts.drop_last();
    assert(parts =~= front.push(parts.last()));
    assert(all =~= (seq![first] + front).push(parts.last()));
    joined_parts_stand_in_order(seq![first] + front, parts.last(), sep);
    joined_parts_stand_in_order(front, parts.last(), sep);
    if front.len() > 0 {
        joined_parts_start_with_the_first(first, front, sep);
        assert(joined(all, sep) =~= first + sep + joined(parts, sep));
    } else {
        assert(seq![first] + front =~= seq![first]);
        joined_parts_stand_in_order(Seq::empty(), first, sep);
        assert(parts =~= seq![parts.last()]);
    }
}

/// The texts of a list are those of its strings, in their order.
pub proof fn lists_hold_the_texts_of_their_strings(v: Seq<String>, i: int)
    requires
        0 <= i < v.len(),
    ensures
        texts(v).len() == v.len(),
        texts(v)[i] == v[i]@,
{
}

/// Letters and digits of ASCII, and the control characters.
pub proof fn characters_have_their_classes(c: char)
    ensures
        ascii_alphanumeric(c) <==> ('0' <= c && c <= '9') || ('A' <= c && c <= 'Z') || ('a' <= c
            && c <= 'z'),
        control(c) <==> c < ' ' || ('\u{7f}' <= c && c <= '\u{9f}'),
{
}

} // verus!
