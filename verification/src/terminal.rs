//! Log output made fit for a terminal: escape sequences stripped, control
//! characters dropped, and the bounded excerpts shown in messages.

use vstd::prelude::*;
use vstd::slice::*;
use vstd::string::*;

use crate::bytes::{decode_lossy, filled, nonempty, append_capped, utf8_lossy};
use crate::number::{decimal, push_count};
use crate::text::{
    chars_of, clip, clipped, collapse_whitespace, collapsed, control, is_control, lines,
    lines_end_at_line_breaks, split_lines, text_of, texts, trim, trimmed, words,
};

verus! {

/// Longest version text kept, in characters.
pub const MAX_VERSION_CHARS: usize = 256;

/// Defensive cap so that a caller cannot turn `tail` into an unbounded read.
pub const MAX_TAIL_BYTES: usize = 1_048_576;

/// Longest log excerpt quoted in a message, in characters.
pub const EXCERPT_CHARS: usize = 160;

pub open spec fn esc() -> char {
    '\u{1b}'
}

pub open spec fn bell() -> char {
    '\u{7}'
}

pub open spec fn is_ascii_char(c: char) -> bool {
    c as int <= 0x7f
}

/// Final characters of a control sequence.
pub open spec fn csi_final(c: char) -> bool {
    0x40 <= c as int <= 0x7e
}

/// What follows the escape character of a device or system string.
pub open spec fn string_introducer(c: char) -> bool {
    c == ']' || c == 'P' || c == 'X' || c == '^' || c == '_'
}

/// The control characters that terminal text does not keep.
pub open spec fn dropped(c: char) -> bool {
    control(c) && c != '\n' && c != '\t'
}

/// The length of a control sequence behind its introducer.
pub open spec fn csi_len(s: Seq<char>) -> int
    decreases s.len(),
{
    if s.len() == 0 {
        0
    } else if csi_final(s[0]) {
        1
    } else {
        1 + csi_len(s.skip(1))
    }
}

/// The length of a device or system string behind its introducer: up to a
/// bell, up to a string terminator, or up to the next escape character.
pub open spec fn string_len(s: Seq<char>) -> int
    decreases s.len(),
{
    if s.len() == 0 {
        0
    } else if s[0] == bell() {
        1
    } else if s[0] == esc() {
        if s.len() > 1 && s[1] == '\\' {
            2
        } else {
            0
        }
    } else {
        1 + string_len(s.skip(1))
    }
}

/// The length of the escape sequence at the start of `s`. Escape sequences
/// are made of ASCII characters: an escape character in front of any other
/// character stands alone.
pub open spec fn escape_len(s: Seq<char>) -> int {
    if s.len() <= 1 {
        s.len() as int
    } else if !is_ascii_char(s[1]) {
        1
    } else if s[1] == '[' {
        2 + csi_len(s.skip(2))
    } else if string_introducer(s[1]) {
        2 + string_len(s.skip(2))
    } else {
        2
    }
}

proof fn lemma_csi_len(s: Seq<char>)
    ensures
        0 <= csi_len(s) <= s.len(),
    decreases s.len(),
{
    if s.len() > 0 && !csi_final(s[0]) {
        lemma_csi_len(s.skip(1));
    }
}

proof fn lemma_string_len(s: Seq<char>)
    ensures
        0 <= string_len(s) <= s.len(),
    decreases s.len(),
{
    if s.len() > 0 && s[0] != bell() && s[0] != esc() {
        lemma_string_len(s.skip(1));
    }
}

pub proof fn lemma_escape_len(s: Seq<char>)
    requires
        s.len() > 0,
    ensures
        1 <= escape_len(s) <= s.len(),
{
    if s.len() > 1 {
        lemma_csi_len(s.skip(2));
        lemma_string_len(s.skip(2));
    }
}

/// `s` without escape sequences and control characters; a carriage return
/// becomes a newline unless one follows it.
pub open spec fn sanitized(s: Seq<char>) -> Seq<char>
    decreases s.len(),
{
    if s.len() == 0 {
        s
    } else if s[0] == esc() {
        let n = escape_len(s);
        if 0 < n <= s.len() {
            sanitized(s.skip(n))
        } else {
            Seq::empty()
        }
    } else if s[0] == '\r' {
        if s.len() > 1 && s[1] == '\n' {
            sanitized(s.skip(1))
        } else {
            seq!['\n'] + sanitized(s.skip(1))
        }
    } else if dropped(s[0]) {
        sanitized(s.skip(1))
    } else {
        seq![s[0]] + sanitized(s.skip(1))
    }
}

fn is_csi_final(c: char) -> (r: bool)
    ensures
        r == csi_final(c),
{
    '@' <= c && c <= '~'
}

fn is_ascii(c: char) -> (r: bool)
    ensures
        r == is_ascii_char(c),
{
    c <= '\u{7f}'
}

fn is_dropped(c: char) -> (r: bool)
    ensures
        r == dropped(c),
{
    is_control(c) && c != '\n' && c != '\t'
}

/// The index just past the escape sequence that starts at `at`.
fn skip_escape_sequence(s: &[char], at: usize) -> (r: usize)
    requires
        at < s@.len(),
    ensures
        r == at + escape_len(s@.skip(at as int)),
        at < r <= s@.len(),
{
    let ghost rest = s@.skip(at as int);
    proof {
        lemma_escape_len(rest);
    }
    let len: usize = s.len();
    let mut i: usize = at + 1;
    if i >= len {
        return len;
    }
    let c = s[i];
    assert(rest[1] == c);
    if !is_ascii(c) {
        return i;
    }
    if c == '[' {
        i = i + 1;
        assert(rest.skip(2) =~= s@.skip(i as int));
        while i < s.len() && !is_csi_final(s[i])
            invariant
                at + 2 <= i <= s@.len(),
                csi_len(s@.skip(at + 2)) == i - (at + 2) + csi_len(s@.skip(i as int)),
            decreases s@.len() - i,
        {
            assert(s@.skip(i as int).skip(1) =~= s@.skip(i + 1));
            i = i + 1;
        }
        assert(rest.skip(2) =~= s@.skip(at + 2));
        if i < s.len() {
            i = i + 1;
        }
        return i;
    }
    if c == ']' || c == 'P' || c == 'X' || c == '^' || c == '_' {
        i = i + 1;
        assert(rest.skip(2) =~= s@.skip(at + 2));
        while i < s.len()
            invariant
                at + 2 <= i <= s@.len(),
                string_len(s@.skip(at + 2)) == i - (at + 2) + string_len(s@.skip(i as int)),
                rest == s@.skip(at as int),
                rest.len() > 1,
                string_introducer(rest[1]),
                rest.skip(2) == s@.skip(at + 2),
                1 <= escape_len(rest) <= rest.len(),
            decreases s@.len() - i,
        {
            let d = s[i];
            let ghost tail = s@.skip(i as int);
            if d == '\u{7}' {
                return i + 1;
            }
            if d == '\u{1b}' {
                if i + 1 < s.len() && s[i + 1] == '\\' {
                    assert(tail[1] == s@[i + 1]);
                    return i + 2;
                }
                return i;
            }
            assert(tail.skip(1) =~= s@.skip(i + 1));
            i = i + 1;
        }
        return i;
    }
    i + 1
}

/// Strips escape sequences, drops other control characters and converts a
/// lone carriage return to a newline so progress redraws stay readable.
pub fn sanitize_terminal(input: &str) -> (r: String)
    ensures
        r@ == sanitized(input@),
{
    let v = chars_of(input);
    let s = v.as_slice();
    let mut out = String::new();
    let mut i: usize = 0;
    assert(s@.skip(0) =~= s@);
    assert(Seq::<char>::empty() + sanitized(s@) =~= sanitized(s@));
    while i < s.len()
        invariant
            i <= s@.len(),
            s@ == input@,
            out@ + sanitized(s@.skip(i as int)) == sanitized(s@),
        decreases s@.len() - i,
    {
        let ghost rest = s@.skip(i as int);
        let ghost before = out@;
        let c = s[i];
        if c == '\u{1b}' {
            let next = skip_escape_sequence(s, i);
            assert(rest.skip(escape_len(rest)) =~= s@.skip(next as int));
            i = next;
        } else {
            assert(rest.skip(1) =~= s@.skip(i + 1));
            if c == '\r' {
                if i + 1 < s.len() && s[i + 1] == '\n' {
                    assert(rest[1] == s@[i + 1]);
                } else {
                    out.push('\n');
                    assert(out@ + sanitized(s@.skip(i + 1)) =~= before + (seq!['\n'] + sanitized(
                        s@.skip(i + 1),
                    )));
                }
            } else if !is_dropped(c) {
                out.push(c);
                assert(out@ + sanitized(s@.skip(i + 1)) =~= before + (seq![c] + sanitized(
                    s@.skip(i + 1),
                )));
            }
            i = i + 1;
        }
    }
    assert(s@.skip(i as int) =~= Seq::<char>::empty());
    assert(out@ + Seq::<char>::empty() =~= out@);
    out
}

/// Sanitized text is free of escape characters and of every other control
/// character but newlines and tabs, and is never longer than what was read.
pub proof fn sanitized_text_is_clean(s: Seq<char>)
    ensures
        forall|i: int| 0 <= i < sanitized(s).len() ==> !dropped(#[trigger] sanitized(s)[i]),
        sanitized(s).len() <= s.len(),
    decreases s.len(),
{
    if s.len() == 0 {
    } else if s[0] == esc() {
        lemma_escape_len(s);
        sanitized_text_is_clean(s.skip(escape_len(s)));
    } else {
        sanitized_text_is_clean(s.skip(1));
        let rest = sanitized(s.skip(1));
        let whole = sanitized(s);
        assert forall|i: int| 0 <= i < whole.len() implies !dropped(#[trigger] whole[i]) by {
            if whole.len() == rest.len() + 1 && i > 0 {
                assert(whole[i] == rest[i - 1]);
            }
        }
    }
}

proof fn lemma_clean_text_unchanged(s: Seq<char>)
    requires
        forall|i: int| 0 <= i < s.len() ==> !dropped(#[trigger] s[i]),
    ensures
        sanitized(s) == s,
    decreases s.len(),
{
    if s.len() > 0 {
        assert(!dropped(s[0]));
        assert forall|i: int| 0 <= i < s.skip(1).len() implies !dropped(#[trigger] s.skip(1)[i]) by {
            assert(s.skip(1)[i] == s[i + 1]);
        }
        lemma_clean_text_unchanged(s.skip(1));
        assert(s =~= seq![s[0]] + s.skip(1));
    }
}

/// Sanitizing sanitized text changes nothing.
pub proof fn sanitizing_twice_is_sanitizing_once(s: Seq<char>)
    ensures
        sanitized(sanitized(s)) == sanitized(s),
{
    sanitized_text_is_clean(s);
    lemma_clean_text_unchanged(sanitized(s));
}

// ---------------------------------------------------------------------------
// Log tails
// ---------------------------------------------------------------------------

/// The number of bytes `tail` reads at most.
pub open spec fn tail_cap(max_bytes: int) -> int {
    if max_bytes < MAX_TAIL_BYTES {
        max_bytes
    } else {
        MAX_TAIL_BYTES as int
    }
}

/// Where in a file of `len` bytes a tail of `max_bytes` starts.
pub fn tail_start(len: u64, max_bytes: usize) -> (r: u64)
    ensures
        r == (if len > tail_cap(max_bytes as int) {
            len - tail_cap(max_bytes as int)
        } else {
            0
        }),
{
    let cap: usize = if max_bytes < MAX_TAIL_BYTES {
        max_bytes
    } else {
        MAX_TAIL_BYTES
    };
    len.saturating_sub(cap as u64)
}

pub open spec fn continuation(b: u8) -> bool {
    0x80 <= b <= 0xbf
}

/// The continuation bytes, at most `limit`, that a cut has left in front.
pub open spec fn stray_len(buf: Seq<u8>, limit: int) -> int
    decreases limit,
{
    if limit <= 0 || buf.len() == 0 || !continuation(buf[0]) {
        0
    } else {
        1 + stray_len(buf.skip(1), limit - 1)
    }
}

/// The text of a log tail, from the first byte on that starts a character.
pub open spec fn tail_decoded(buf: Seq<u8>) -> Seq<char> {
    utf8_lossy(buf.skip(stray_len(buf, 4)))
}

/// The bytes of `read` that a tail of `max_bytes` keeps.
pub open spec fn tail_bytes(read: Seq<u8>, max_bytes: int) -> Seq<u8> {
    filled(Seq::empty(), read, tail_cap(max_bytes))
}

/// Decodes a log tail, resynchronized on the first byte that starts a
/// character.
pub fn decode_tail(buf: &[u8]) -> (r: String)
    ensures
        r@ == tail_decoded(buf@),
        r@.len() <= buf@.len(),
{
    let mut first: usize = 0;
    assert(buf@.skip(0) =~= buf@);
    while first < buf.len() && first < 4 && 0x80 <= buf[first] && buf[first] <= 0xbf
        invariant
            first <= buf@.len(),
            first <= 4,
            stray_len(buf@, 4) == first + stray_len(buf@.skip(first as int), 4 - first),
        decreases 4 - first,
    {
        assert(buf@.skip(first as int).skip(1) =~= buf@.skip(first + 1));
        first = first + 1;
    }
    assert(buf@.subrange(first as int, buf@.len() as int) =~= buf@.skip(first as int));
    decode_lossy(slice_subrange(buf, first, buf.len()))
}

/// At most the last `max_bytes` of a file as sanitized text. `read` holds the
/// bytes from `tail_start` on; an unreadable file yields an empty text.
pub fn tail(read: Option<&[u8]>, max_bytes: usize) -> (r: String)
    ensures
        r@ == (match read {
            Some(bytes) => if max_bytes > 0 {
                sanitized(tail_decoded(tail_bytes(bytes@, max_bytes as int)))
            } else {
                Seq::empty()
            },
            None => Seq::empty(),
        }),
        r@.len() <= max_bytes,
{
    let empty = String::new();
    assert(empty@ =~= Seq::<char>::empty());
    if max_bytes == 0 {
        return empty;
    }
    match read {
        None => empty,
        Some(bytes) => {
            let cap: usize = if max_bytes < MAX_TAIL_BYTES {
                max_bytes
            } else {
                MAX_TAIL_BYTES
            };
            let mut buf: Vec<u8> = Vec::new();
            append_capped(&mut buf, bytes, cap);
            let text = decode_tail(buf.as_slice());
            proof {
                sanitized_text_is_clean(text@);
            }
            sanitize_terminal(text.as_str())
        },
    }
}

/// The trimmed lines of `text` that are not blank.
pub open spec fn nonblank_lines(text: Seq<char>) -> Seq<Seq<char>> {
    nonempty(lines(text).map_values(|l: Seq<char>| trimmed(l)))
}

/// The trimmed lines of `text` that are not blank.
pub fn split_nonblank(text: &str) -> (r: Vec<String>)
    ensures
        texts(r@) == nonblank_lines(text@),
{
    let v = chars_of(text);
    let all = split_lines(v.as_slice());
    let mut out: Vec<String> = Vec::new();
    let ghost parts = lines(text@).map_values(|l: Seq<char>| trimmed(l));
    assert(parts.skip(0) =~= parts);
    assert(texts(out@) + nonempty(parts) =~= nonempty(parts));
    for i in 0..all.len()
        invariant
            texts(all@) == lines(text@),
            parts == lines(text@).map_values(|l: Seq<char>| trimmed(l)),
            texts(out@) + nonempty(parts.skip(i as int)) == nonempty(parts),
    {
        let line = chars_of(all[i].as_str());
        let t = trim(line.as_slice());
        let ghost before = texts(out@);
        proof {
            assert(texts(all@)[i as int] == all@[i as int]@);
            assert(parts[i as int] == t@);
            assert(parts.skip(i as int)[0] == t@);
            assert(parts.skip(i as int).skip(1) =~= parts.skip(i + 1));
        }
        if t.len() > 0 {
            out.push(text_of(t));
            proof {
                assert(texts(out@) =~= before + seq![t@]);
                assert(texts(out@) + nonempty(parts.skip(i + 1)) =~= before + (seq![t@] + nonempty(
                    parts.skip(i + 1),
                )));
            }
        }
    }
    proof {
        assert(texts(all@).len() == all@.len());
        assert(parts.skip(all@.len() as int) =~= Seq::<Seq<char>>::empty());
        assert(texts(out@) + Seq::<Seq<char>>::empty() =~= texts(out@));
    }
    out
}

/// The last meaningful line of a log tail, on one line and bounded.
pub open spec fn excerpt_form(text: Seq<char>) -> Seq<char> {
    let all = nonblank_lines(text);
    let last = if all.len() == 0 {
        Seq::empty()
    } else {
        all.last()
    };
    clipped(collapsed(last), EXCERPT_CHARS as int)
}

/// Bounded last-meaningful-line excerpt of a sanitized job-log tail.
pub fn log_excerpt(text: &str) -> (r: String)
    ensures
        r@ == excerpt_form(text@),
{
    let all = split_nonblank(text);
    proof {
        assert(texts(all@).len() == all@.len());
        if all@.len() > 0 {
            assert(texts(all@).last() == all@.last()@);
        }
    }
    if all.len() == 0 {
        clip(collapse_whitespace(String::new().as_str()), EXCERPT_CHARS)
    } else {
        clip(collapse_whitespace(all[all.len() - 1].as_str()), EXCERPT_CHARS)
    }
}

// ---------------------------------------------------------------------------
// Version output
// ---------------------------------------------------------------------------

/// What is said when the configured line is missing.
pub open spec fn missing_line_text(version_line: int) -> Seq<char> {
    "no nonempty output line at index "@ + decimal(version_line as nat)
}

/// The configured zero-based nonempty line of version output, cleaned and
/// bounded, or what is said when it is missing.
pub open spec fn version_text(text: Seq<char>, version_line: int) -> Result<Seq<char>, Seq<char>> {
    let all = nonblank_lines(text);
    if version_line < all.len() {
        Ok(clipped(sanitized(all[version_line]), MAX_VERSION_CHARS as int))
    } else {
        Err(missing_line_text(version_line))
    }
}

/// Picks the configured zero-based nonempty line of decoded version output.
/// Never fabricates: a missing line is an error.
pub fn version_in(text: &str, version_line: usize) -> (r: Result<String, String>)
    ensures
        match version_text(text@, version_line as int) {
            Ok(version) => r matches Ok(s) && s@ == version,
            Err(reason) => r matches Err(e) && e@ == reason,
        },
{
    let all = split_nonblank(text);
    assert(texts(all@).len() == all@.len());
    if version_line < all.len() {
        assert(texts(all@)[version_line as int] == all@[version_line as int]@);
        Ok(clip(sanitize_terminal(all[version_line].as_str()), MAX_VERSION_CHARS))
    } else {
        let mut e = "no nonempty output line at index ".to_owned();
        push_count(&mut e, version_line);
        Err(e)
    }
}

/// Parses the configured zero-based nonempty line from captured version
/// output, as `version_in` does from its text.
pub fn extract_version(bytes: &[u8], version_line: usize) -> (r: Result<String, String>)
    ensures
        match version_text(utf8_lossy(bytes@), version_line as int) {
            Ok(version) => r matches Ok(s) && s@ == version,
            Err(reason) => r matches Err(e) && e@ == reason,
        },
{
    let text = decode_lossy(bytes);
    version_in(text.as_str(), version_line)
}

// ---------------------------------------------------------------------------
// Laws
// ---------------------------------------------------------------------------

/// Text without control characters is shown as it is, and so are its newlines
/// and tabs.
pub proof fn printable_text_is_unchanged(s: Seq<char>)
    requires
        forall|i: int|
            0 <= i < s.len() ==> (#[trigger] s[i] == '\n' || s[i] == '\t' || (' ' <= s[i] && s[i]
                <= '~') || s[i] > '\u{9f}'),
    ensures
        sanitized(s) == s,
{
    assert forall|i: int| 0 <= i < s.len() implies !dropped(#[trigger] s[i]) by {
        assert(s[i] == '\n' || s[i] == '\t' || (' ' <= s[i] && s[i] <= '~') || s[i] > '\u{9f}');
    }
    lemma_clean_text_unchanged(s);
}

/// Sanitized text holds no control character but newlines and tabs.
pub proof fn sanitized_text_is_printable(s: Seq<char>, i: int)
    requires
        0 <= i < sanitized(s).len(),
    ensures
        ({
            let c = sanitized(s)[i];
            c == '\n' || c == '\t' || (' ' <= c && c <= '~') || c > '\u{9f}'
        }),
{
    sanitized_text_is_clean(s);
    assert(!dropped(sanitized(s)[i]));
}

/// A character in front of a text: a printable one is kept, a lone carriage
/// return becomes a newline, one in front of a newline goes, and so does any
/// other control character.
pub proof fn characters_are_taken_one_by_one(c: char, rest: Seq<char>)
    requires
        c != '\u{1b}',
    ensures
        ({
            let r = sanitized(seq![c] + rest);
            &&& c == '\n' || c == '\t' || (' ' <= c && c <= '~') || c > '\u{9f}' ==> r == seq![c]
                + sanitized(rest)
            &&& c == '\r' && rest.len() > 0 && rest[0] == '\n' ==> r == sanitized(rest)
            &&& c == '\r' && (rest.len() == 0 || rest[0] != '\n') ==> r == seq!['\n']
                + sanitized(rest)
            &&& c < ' ' && c != '\n' && c != '\t' && c != '\r' ==> r == sanitized(rest)
            &&& '\u{7f}' <= c && c <= '\u{9f}' ==> r == sanitized(rest)
        }),
{
    let s = seq![c] + rest;
    assert(s.skip(1) =~= rest);
    if rest.len() > 0 {
        assert(s[1] == rest[0]);
    }
}

/// A control sequence is stripped up to its final character, and what follows
/// it is kept.
pub proof fn control_sequences_are_stripped(params: Seq<char>, last: char, rest: Seq<char>)
    requires
        forall|i: int| 0 <= i < params.len() ==> !('@' <= #[trigger] params[i] && params[i] <= '~'),
        '@' <= last && last <= '~',
    ensures
        sanitized(seq!['\u{1b}', '['] + params + seq![last] + rest) == sanitized(rest),
{
    let body = params + seq![last] + rest;
    let s = seq!['\u{1b}', '['] + params + seq![last] + rest;
    assert(s.skip(2) =~= body);
    lemma_csi_ends(params, last, rest);
    assert(s.skip(2 + params.len() as int + 1) =~= rest);
    assert(escape_len(s) == 2 + params.len() + 1);
}

proof fn lemma_csi_ends(params: Seq<char>, last: char, rest: Seq<char>)
    requires
        forall|i: int| 0 <= i < params.len() ==> !('@' <= #[trigger] params[i] && params[i] <= '~'),
        '@' <= last && last <= '~',
    ensures
        csi_len(params + seq![last] + rest) == params.len() + 1,
    decreases params.len(),
{
    let s = params + seq![last] + rest;
    if params.len() == 0 {
        assert(s[0] == last);
    } else {
        assert(s[0] == params[0]);
        assert(s.skip(1) =~= params.skip(1) + seq![last] + rest);
        assert forall|i: int| 0 <= i < params.skip(1).len() implies !('@' <= #[trigger] params.skip(
            1,
        )[i] && params.skip(1)[i] <= '~') by {
            assert(params.skip(1)[i] == params[i + 1]);
        }
        lemma_csi_ends(params.skip(1), last, rest);
    }
}

/// A system or device string is stripped up to its bell or its terminator, and
/// what follows it is kept.
pub proof fn control_strings_are_stripped(
    introducer: char,
    body: Seq<char>,
    bell_ends: bool,
    rest: Seq<char>,
)
    requires
        introducer == ']' || introducer == 'P' || introducer == 'X' || introducer == '^'
            || introducer == '_',
        forall|i: int|
            0 <= i < body.len() ==> #[trigger] body[i] != '\u{7}' && body[i] != '\u{1b}',
    ensures
        ({
            let end = if bell_ends {
                seq!['\u{7}']
            } else {
                seq!['\u{1b}', '\\']
            };
            sanitized(seq!['\u{1b}', introducer] + body + end + rest) == sanitized(rest)
        }),
{
    let end = if bell_ends {
        seq!['\u{7}']
    } else {
        seq!['\u{1b}', '\\']
    };
    let s = seq!['\u{1b}', introducer] + body + end + rest;
    assert(s.skip(2) =~= body + end + rest);
    lemma_string_ends(body, end, rest);
    assert(s.skip(2 + body.len() as int + end.len()) =~= rest);
    assert(escape_len(s) == 2 + body.len() + end.len());
}

proof fn lemma_string_ends(body: Seq<char>, end: Seq<char>, rest: Seq<char>)
    requires
        forall|i: int|
            0 <= i < body.len() ==> #[trigger] body[i] != '\u{7}' && body[i] != '\u{1b}',
        end == seq!['\u{7}'] || end == seq!['\u{1b}', '\\'],
    ensures
        string_len(body + end + rest) == body.len() + end.len(),
    decreases body.len(),
{
    let s = body + end + rest;
    if body.len() == 0 {
        assert(s[0] == end[0]);
        if end.len() == 2 {
            assert(s[1] == end[1]);
        }
    } else {
        assert(s[0] == body[0]);
        assert(s.skip(1) =~= body.skip(1) + end + rest);
        assert forall|i: int| 0 <= i < body.skip(1).len() implies #[trigger] body.skip(1)[i]
            != '\u{7}' && body.skip(1)[i] != '\u{1b}' by {
            assert(body.skip(1)[i] == body[i + 1]);
        }
        lemma_string_ends(body.skip(1), end, rest);
    }
}

/// Lines are taken in order, each without the white space at its ends; blank
/// ones do not count.
pub proof fn blank_lines_do_not_count(line: Seq<char>, rest: Seq<char>)
    requires
        !line.contains('\n'),
        line.len() > 0 ==> line.last() != '\r',
    ensures
        nonblank_lines(line + seq!['\n'] + rest) == (if trimmed(line).len() > 0 {
            seq![trimmed(line)]
        } else {
            Seq::empty()
        }) + nonblank_lines(rest),
        line.len() > 0 && trimmed(line).len() > 0 ==> nonblank_lines(line) == seq![trimmed(line)],
        nonblank_lines(Seq::empty()).len() == 0,
{
    let f = |l: Seq<char>| trimmed(l);
    lines_end_at_line_breaks(line, rest);
    let all = lines(line + seq!['\n'] + rest).map_values(f);
    assert(all[0] == trimmed(line));
    assert(all.skip(1) =~= lines(rest).map_values(f));
    let tail = nonblank_lines(rest);
    assert(Seq::<Seq<char>>::empty() + tail =~= tail);
    let none = Seq::<Seq<char>>::empty();
    assert(nonempty(none) == none);
    assert(lines(Seq::<char>::empty()).map_values(f) =~= none);
    if line.len() > 0 && trimmed(line).len() > 0 {
        let one = lines(line).map_values(f);
        assert(one[0] == trimmed(line));
        assert(one.skip(1) =~= none);
        assert(nonempty(one) =~= seq![trimmed(line)]);
    }
}

/// A version line that is printable and not too long is shown as it is.
pub proof fn versions_are_shown_as_printed(text: Seq<char>, line: int)
    requires
        0 <= line < nonblank_lines(text).len(),
        nonblank_lines(text)[line].len() <= 256,
        forall|i: int|
            0 <= i < nonblank_lines(text)[line].len() ==> {
                let c = #[trigger] nonblank_lines(text)[line][i];
                (' ' <= c && c <= '~') || c > '\u{9f}'
            },
    ensures
        version_text(text, line) == Ok::<Seq<char>, Seq<char>>(nonblank_lines(text)[line]),
{
    printable_text_is_unchanged(nonblank_lines(text)[line]);
}

/// A line that is not there is an error, never another line.
pub proof fn missing_lines_are_errors(text: Seq<char>, line: int)
    requires
        line >= nonblank_lines(text).len(),
    ensures
        version_text(text, line) is Err,
{
}

/// What is read of the end of a log is at most what was asked for, from its
/// front on, and a text that starts with a whole character is decoded whole.
pub proof fn tails_keep_what_was_read(read: Seq<u8>, max_bytes: int)
    requires
        0 < max_bytes <= 1_048_576,
    ensures
        tail_bytes(read, max_bytes) == (if read.len() <= max_bytes {
            read
        } else {
            read.take(max_bytes)
        }),
        read.len() == 0 || read[0] < 0x80 || read[0] > 0xbf ==> tail_decoded(read) == utf8_lossy(
            read,
        ),
{
    assert(Seq::<u8>::empty() + read =~= read);
    assert(Seq::<u8>::empty() + read.take(max_bytes) =~= read.take(max_bytes));
    assert(read.skip(0) =~= read);
}

/// A cut through a character leaves at most its last bytes in front; these are
/// skipped.
pub proof fn tails_start_with_a_whole_character(stray: Seq<u8>, rest: Seq<u8>)
    requires
        stray.len() <= 4,
        forall|i: int| 0 <= i < stray.len() ==> 0x80 <= #[trigger] stray[i] <= 0xbf,
        rest.len() > 0 ==> rest[0] < 0x80 || rest[0] > 0xbf,
    ensures
        tail_decoded(stray + rest) == utf8_lossy(rest),
{
    lemma_stray(stray, rest, 4);
    assert((stray + rest).skip(stray.len() as int) =~= rest);
}

proof fn lemma_stray(stray: Seq<u8>, rest: Seq<u8>, limit: int)
    requires
        stray.len() <= limit,
        forall|i: int| 0 <= i < stray.len() ==> 0x80 <= #[trigger] stray[i] <= 0xbf,
        rest.len() > 0 ==> rest[0] < 0x80 || rest[0] > 0xbf,
    ensures
        stray_len(stray + rest, limit) == stray.len(),
    decreases stray.len(),
{
    let s = stray + rest;
    if stray.len() == 0 {
        assert(s =~= rest);
    } else {
        assert(s[0] == stray[0]);
        let more = stray.skip(1);
        assert forall|i: int| 0 <= i < more.len() implies 0x80 <= #[trigger] more[i] <= 0xbf by {
            assert(more[i] == stray[i + 1]);
        }
        assert(s.skip(1) =~= more + rest);
        lemma_stray(more, rest, limit - 1);
    }
}

/// What is said of a missing line names it; the tail of a log is as long as
/// asked for, up to a megabyte.
pub proof fn limits_and_texts_of_tails(line: nat, max_bytes: int)
    ensures
        missing_line_text(line as int) == "no nonempty output line at index "@ + decimal(line),
        max_bytes <= 1_048_576 ==> tail_cap(max_bytes) == max_bytes,
        max_bytes > 1_048_576 ==> tail_cap(max_bytes) == 1_048_576,
{
}

/// The excerpt of a log is its last line that is not blank, cut to a hundred
/// and sixty characters.
pub proof fn excerpts_are_the_last_line(text: Seq<char>)
    ensures
        nonblank_lines(text).len() > 0 ==> excerpt_form(text) == clipped(
            collapsed(nonblank_lines(text).last()),
            160,
        ),
        nonblank_lines(text).len() == 0 ==> excerpt_form(text).len() == 0,
{
    let none = Seq::<char>::empty();
    assert(words(none, false).len() == 0);
    assert(collapsed(none).len() == 0);
}

/// An escape character with one more character behind it goes with that; alone
/// at the end it goes, and in front of other text than ASCII only it goes.
pub proof fn other_escapes_are_stripped(c: char, rest: Seq<char>)
    ensures
        c <= '~' && c != '[' && c != ']' && c != 'P' && c != 'X' && c != '^' && c != '_'
            ==> sanitized(seq!['\u{1b}', c] + rest) == sanitized(rest),
        c > '\u{7f}' ==> sanitized(seq!['\u{1b}', c] + rest) == sanitized(seq![c] + rest),
        sanitized(seq!['\u{1b}']).len() == 0,
{
    let s = seq!['\u{1b}', c] + rest;
    assert(s.skip(2) =~= rest);
    assert(s.skip(1) =~= seq![c] + rest);
    let one = seq!['\u{1b}'];
    assert(one.skip(1) =~= Seq::<char>::empty());
    reveal_with_fuel(sanitized, 2);
}

} // verus!
