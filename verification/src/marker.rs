//! Failure markers: literal texts that declare an update failed although its
//! command exited with success.
//!
//! A log is scanned chunk by chunk. The scan carries over as many bytes as a
//! marker may have begun in, so memory stays bounded and a marker that spans
//! two chunks is found all the same.

use vstd::prelude::*;
use vstd::string::*;
use vstd::utf8::*;

use crate::bytes::{decode_lossy, nonempty, replacement, utf8_lossy};
use crate::number::{decimal, push_count};
use crate::text::{chars_of, contains, infix, is_blank, stands_at, texts};

verus! {

/// Longest marker that a scan takes, in bytes.
pub const MAX_MARKER_BYTES: usize = 4096;

/// Size of the chunks in which a log is read.
pub const SCAN_CHUNK: usize = 65536;

/// The byte length of `marker`.
pub open spec fn byte_len(marker: Seq<char>) -> int {
    encode_utf8(marker).len() as int
}

/// The byte length of the longest of `markers`, or zero.
pub open spec fn longest(markers: Seq<Seq<char>>) -> int
    decreases markers.len(),
{
    if markers.len() == 0 {
        0
    } else {
        let rest = longest(markers.drop_last());
        let n = byte_len(markers.last());
        if n > rest {
            n
        } else {
            rest
        }
    }
}

proof fn lemma_longest(markers: Seq<Seq<char>>, i: int)
    requires
        0 <= i < markers.len(),
    ensures
        byte_len(markers[i]) <= longest(markers),
    decreases markers.len(),
{
    if i < markers.len() - 1 {
        lemma_longest(markers.drop_last(), i);
    }
}

/// `k` is the first of `markers` for which `hit` holds.
pub open spec fn first_where(
    markers: Seq<Seq<char>>,
    hit: spec_fn(Seq<char>) -> bool,
    k: int,
) -> bool {
    &&& 0 <= k < markers.len()
    &&& hit(markers[k])
    &&& forall|j: int| 0 <= j < k ==> !hit(#[trigger] markers[j])
}

/// Why a scan for `marker` cannot be made.
pub open spec fn oversized_text(marker: Seq<char>) -> Seq<char> {
    "failure marker of "@ + decimal(byte_len(marker) as nat)
        + " bytes exceeds the 4096-byte scan bound"@
}

/// A scan under way.
pub struct MarkerScan {
    /// The markers that are looked for, none of them empty.
    pub live: Vec<String>,
    /// How many bytes are carried over between chunks.
    pub keep: usize,
    /// The last bytes of what has been read.
    pub carried: Vec<u8>,
    /// All that has been read.
    pub seen: Ghost<Seq<u8>>,
}

impl MarkerScan {
    /// The markers that are looked for.
    pub open spec fn markers(self) -> Seq<Seq<char>> {
        texts(self.live@)
    }

    /// What has been read holds none of the markers, and the carried bytes
    /// are its end.
    pub open spec fn wf(self) -> bool {
        &&& self.markers().len() > 0
        &&& forall|k: int|
            0 <= k < self.markers().len() ==> (#[trigger] self.markers()[k]).len() > 0
        &&& self.keep + 1 == longest(self.markers())
        &&& self.carried@ == kept(self.seen@, self.keep as int)
        &&& forall|k: int|
            0 <= k < self.markers().len() ==> !infix(
                encode_utf8(#[trigger] self.markers()[k]),
                self.seen@,
            )
    }
}

/// The last `keep` bytes of `bytes`, or all of them.
pub open spec fn kept(bytes: Seq<u8>, keep: int) -> Seq<u8> {
    if bytes.len() > keep {
        bytes.skip(bytes.len() - keep)
    } else {
        bytes
    }
}

fn live_markers(markers: &Vec<String>) -> (r: Vec<String>)
    ensures
        texts(r@) == nonempty(texts(markers@)),
        forall|k: int| 0 <= k < r@.len() ==> (#[trigger] r@[k])@.len() > 0,
{
    let mut out: Vec<String> = Vec::new();
    let ghost all = texts(markers@);
    assert(all.skip(0) =~= all);
    assert(texts(out@) + nonempty(all) =~= nonempty(all));
    for i in 0..markers.len()
        invariant
            all == texts(markers@),
            texts(out@) + nonempty(all.skip(i as int)) == nonempty(all),
            forall|k: int| 0 <= k < out@.len() ==> (#[trigger] out@[k])@.len() > 0,
    {
        let ghost before = texts(out@);
        proof {
            assert(all.skip(i as int)[0] == markers@[i as int]@);
            assert(all.skip(i as int).skip(1) =~= all.skip(i + 1));
        }
        if !is_blank(markers[i].as_str()) {
            out.push(markers[i].clone());
            proof {
                let rest = nonempty(all.skip(i + 1));
                let m = markers@[i as int]@;
                assert(texts(out@) =~= before + seq![m]);
                assert(texts(out@) + rest =~= before + (seq![m] + rest));
            }
        }
    }
    proof {
        assert(all.skip(markers@.len() as int) =~= Seq::<Seq<char>>::empty());
        assert(nonempty(Seq::<Seq<char>>::empty()) == Seq::<Seq<char>>::empty());
        assert(texts(out@) + Seq::<Seq<char>>::empty() =~= texts(out@));
    }
    out
}

/// Starts a scan for the nonempty ones among `markers`. There is nothing to
/// scan for without any; an oversized marker is an error, since a log that
/// was not verified must not pass as a clean one.
pub fn begin_scan(markers: &Vec<String>) -> (r: Result<Option<MarkerScan>, String>)
    ensures
        ({
            let live = nonempty(texts(markers@));
            let oversized = |m: Seq<char>| byte_len(m) > MAX_MARKER_BYTES;
            &&& r is Err <==> exists|k: int| first_where(live, oversized, k)
            &&& r matches Err(e) ==> exists|k: int|
                #[trigger] first_where(live, oversized, k) && e@ == oversized_text(live[k])
            &&& r matches Ok(scan) ==> (scan is None <==> live.len() == 0)
            &&& r matches Ok(Some(scan)) ==> {
                &&& scan.wf()
                &&& scan.markers() == live
                &&& scan.seen@.len() == 0
            }
        }),
{
    let live = live_markers(markers);
    let ghost list = texts(live@);
    let ghost oversized = |m: Seq<char>| byte_len(m) > MAX_MARKER_BYTES;
    let mut max_len: usize = 0;
    assert(list.take(0) =~= Seq::<Seq<char>>::empty());
    for i in 0..live.len()
        invariant
            list == texts(live@),
            list == nonempty(texts(markers@)),
            oversized == (|m: Seq<char>| byte_len(m) > MAX_MARKER_BYTES),
            max_len == longest(list.take(i as int)),
            max_len <= MAX_MARKER_BYTES,
            forall|k: int| 0 <= k < live@.len() ==> (#[trigger] live@[k])@.len() > 0,
            forall|k: int| 0 <= k < i ==> !oversized(#[trigger] list[k]),
    {
        let n: usize = live[i].as_str().as_bytes().len();
        assert(list[i as int] == live@[i as int]@);
        if n > MAX_MARKER_BYTES {
            let mut e = "failure marker of ".to_owned();
            push_count(&mut e, n);
            e.append(" bytes exceeds the 4096-byte scan bound");
            assert(first_where(list, oversized, i as int));
            return Err(e);
        }
        assert(list.take(i + 1).drop_last() =~= list.take(i as int));
        if n > max_len {
            max_len = n;
        }
    }
    assert(list.take(live@.len() as int) =~= list);
    if live.len() == 0 {
        return Ok(None);
    }
    proof {
        assert forall|k: int| 0 <= k < list.len() implies (#[trigger] list[k]).len() > 0 by {
            assert(list[k] == live@[k]@);
        }
        assert forall|k: int| 0 <= k < list.len() implies !infix(
            encode_utf8(#[trigger] list[k]),
            Seq::<u8>::empty(),
        ) by {
            lemma_encoding_is_not_empty(list[k]);
        }
        lemma_encoding_is_not_empty(list[0]);
        lemma_longest(list, 0);
    }
    Ok(
        Some(
            MarkerScan {
                live,
                keep: max_len - 1,
                carried: Vec::new(),
                seen: Ghost(Seq::empty()),
            },
        ),
    )
}

proof fn lemma_encoding_is_not_empty(m: Seq<char>)
    requires
        m.len() > 0,
    ensures
        encode_utf8(m).len() > 0,
{
    reveal_with_fuel(encode_utf8, 2);
}

/// A marker that stands in `seen + chunk` and not in `seen` stands in the
/// window that the scan decodes.
proof fn lemma_window_suffices(m: Seq<u8>, seen: Seq<u8>, chunk: Seq<u8>, keep: int)
    requires
        0 < m.len() <= keep + 1,
        infix(m, seen + chunk),
        !infix(m, seen),
    ensures
        infix(m, kept(seen, keep) + chunk),
{
    let whole = seen + chunk;
    let p = choose|p: int| #[trigger] stands_at(m, whole, p);
    if p + m.len() <= seen.len() {
        assert(seen.subrange(p, p + m.len()) =~= whole.subrange(p, p + m.len()));
        assert(stands_at(m, seen, p));
    }
    let window = kept(seen, keep) + chunk;
    let shift = whole.len() - window.len();
    assert(window =~= whole.skip(shift));
    assert(window.subrange(p - shift, p - shift + m.len()) =~= whole.subrange(p, p + m.len()));
    assert(stands_at(m, window, p - shift));
}

/// What stands in the window stands in what has been read.
proof fn lemma_window_is_read(m: Seq<u8>, seen: Seq<u8>, chunk: Seq<u8>, keep: int)
    requires
        0 <= keep,
        infix(m, kept(seen, keep) + chunk),
    ensures
        infix(m, seen + chunk),
{
    let whole = seen + chunk;
    let window = kept(seen, keep) + chunk;
    let shift = whole.len() - window.len();
    let p = choose|p: int| #[trigger] stands_at(m, window, p);
    assert(window =~= whole.skip(shift));
    assert(window.subrange(p, p + m.len()) =~= whole.subrange(p + shift, p + shift + m.len()));
    assert(stands_at(m, whole, p + shift));
}

impl MarkerScan {
    /// Reads one more chunk. Returns the first marker that shows in the
    /// decoded window of carried bytes and chunk.
    ///
    /// Nothing is missed: when no marker is returned, none stands in all that
    /// has been read, across chunk boundaries too. Nothing is made up: a
    /// returned marker stands there, unless it holds a replacement character
    /// itself.
    pub fn feed(&mut self, chunk: &[u8]) -> (r: Option<String>)
        requires
            old(self).wf(),
        ensures
            final(self).seen@ == old(self).seen@ + chunk@,
            final(self).markers() == old(self).markers(),
            final(self).keep == old(self).keep,
            ({
                let shows = |m: Seq<char>| infix(m, utf8_lossy(old(self).carried@ + chunk@));
                &&& r is Some <==> exists|k: int| first_where(old(self).markers(), shows, k)
                &&& r matches Some(m) ==> exists|k: int| #[trigger]
                    first_where(old(self).markers(), shows, k) && m@ == old(self).markers()[k]
            }),
            r is None ==> final(self).wf(),
            r is Some <== exists|k: int|
                0 <= k < old(self).markers().len() && infix(
                    encode_utf8(#[trigger] old(self).markers()[k]),
                    final(self).seen@,
                ),
            r matches Some(m) ==> !m@.contains(replacement()) ==> infix(
                encode_utf8(m@),
                final(self).seen@,
            ),
    {
        let ghost window = self.carried@ + chunk@;
        let ghost list = self.markers();
        let ghost shows = |m: Seq<char>| infix(m, utf8_lossy(window));
        let ghost seen = self.seen@;
        let keep: usize = self.keep;
        self.seen = Ghost(seen + chunk@);
        self.carried.extend_from_slice(chunk);
        assert(self.carried@ =~= window);
        let text = decode_lossy(self.carried.as_slice());
        let decoded = chars_of(text.as_str());
        for i in 0..self.live.len()
            invariant
                list == self.markers(),
                old(self).wf(),
                list == old(self).markers(),
                seen == old(self).seen@,
                self.seen@ == seen + chunk@,
                self.keep == old(self).keep,
                window == old(self).carried@ + chunk@,
                shows == (|m: Seq<char>| infix(m, utf8_lossy(window))),
                decoded@ == utf8_lossy(window),
                forall|m: Seq<char>|
                    m.len() > 0 && #[trigger] infix(encode_utf8(m), window) ==> infix(m, decoded@),
                forall|m: Seq<char>|
                    m.len() > 0 && !m.contains(replacement()) && #[trigger] infix(m, decoded@)
                        ==> infix(encode_utf8(m), window),
                forall|k: int| 0 <= k < i ==> !shows(#[trigger] list[k]),
        {
            let needle = chars_of(self.live[i].as_str());
            assert(list[i as int] == self.live@[i as int]@);
            if contains(decoded.as_slice(), needle.as_slice()) {
                assert(first_where(list, shows, i as int));
                proof {
                    let m = list[i as int];
                    if !m.contains(replacement()) {
                        assert(infix(encode_utf8(m), window));
                        lemma_window_is_read(encode_utf8(m), seen, chunk@, old(self).keep as int);
                    }
                }
                return Some(self.live[i].clone());
            }
        }
        if self.carried.len() > keep {
            let start: usize = self.carried.len() - keep;
            self.carried = self.carried.split_off(start);
        }
        proof {
            assert(self.carried@ =~= kept(self.seen@, keep as int));
            assert forall|k: int| 0 <= k < list.len() implies !infix(
                encode_utf8(#[trigger] list[k]),
                self.seen@,
            ) by {
                let m = list[k];
                if infix(encode_utf8(m), self.seen@) {
                    lemma_encoding_is_not_empty(m);
                    lemma_longest(list, k);
                    lemma_window_suffices(encode_utf8(m), seen, chunk@, keep as int);
                    assert(infix(m, decoded@));
                    assert(shows(list[k]));
                }
            }
        }
        None
    }
}

// ---------------------------------------------------------------------------
// Laws
// ---------------------------------------------------------------------------

/// The first hit is a hit, and none stands in front of it.
pub proof fn first_hits_come_first(
    markers: Seq<Seq<char>>,
    hit: spec_fn(Seq<char>) -> bool,
    k: int,
)
    ensures
        first_where(markers, hit, k) <==> 0 <= k < markers.len() && hit(markers[k]) && forall|
            j: int,
        |
            0 <= j < k ==> !hit(#[trigger] markers[j]),
{
}

/// What is carried over is the end of what was read, one byte less than the
/// longest marker, so that no marker that spans two chunks is missed.
pub proof fn enough_is_carried_over(scan: MarkerScan, k: int)
    requires
        scan.wf(),
        0 <= k < scan.live@.len(),
    ensures
        scan.live@[k]@.len() > 0,
        encode_utf8(scan.live@[k]@).len() <= scan.keep + 1,
        !infix(encode_utf8(scan.live@[k]@), scan.seen@),
        scan.seen@.len() <= scan.keep ==> scan.carried@ == scan.seen@,
        scan.seen@.len() > scan.keep ==> scan.carried@ == scan.seen@.skip(
            scan.seen@.len() - scan.keep,
        ),
{
    let list = scan.markers();
    assert(list.len() == scan.live@.len());
    assert(list[k] == scan.live@[k]@);
    lemma_longest(list, k);
}

/// What is said of a marker that is too long names its length and the bound.
pub proof fn oversized_markers_are_named(marker: Seq<char>)
    ensures
        oversized_text(marker) == "failure marker of "@ + decimal(encode_utf8(marker).len())
            + " bytes exceeds the 4096-byte scan bound"@,
        byte_len(marker) == encode_utf8(marker).len(),
{
}

} // verus!
