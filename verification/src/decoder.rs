//! Incremental stream decoder: network bytes arrive in arbitrary chunks,
//! are split on newlines into protocol lines, and every complete line is
//! classified into a text delta, an audio delta, a stop marker, or noise.
//! The whole decode is modelled as a function of the concatenated bytes
//! alone, so the outcome is independent of how the stream was chunked.

use vstd::prelude::*;

verus! {

use crate::codec::{b64_decode_of, le_words_of};
use crate::json::json_of;
use crate::records::spec_chunk_of;

/// ASCII whitespace, as trimmed off protocol lines.
pub open spec fn is_ws(b: u8) -> bool {
    b == 32 || (9 <= b && b <= 13)
}

pub open spec fn drop_leading(s: Seq<u8>) -> Seq<u8>
    decreases s.len(),
{
    if s.len() > 0 && is_ws(s[0]) {
        drop_leading(s.drop_first())
    } else {
        s
    }
}

pub open spec fn drop_trailing(s: Seq<u8>) -> Seq<u8>
    decreases s.len(),
{
    if s.len() > 0 && is_ws(s.last()) {
        drop_trailing(s.drop_last())
    } else {
        s
    }
}

/// A line with ASCII whitespace removed from both ends.
pub open spec fn spec_trim(s: Seq<u8>) -> Seq<u8> {
    drop_trailing(drop_leading(s))
}

/// The field marker stripped off each data line: `data: `.
pub open spec fn data_prefix() -> Seq<u8> {
    seq![100u8, 97u8, 116u8, 97u8, 58u8, 32u8]
}

/// The end-of-stream sentinel payload: `[DONE]`.
pub open spec fn done_marker() -> Seq<u8> {
    seq![91u8, 68u8, 79u8, 78u8, 69u8, 93u8]
}

/// The payload of a trimmed line: what follows the field marker when the
/// line carries one, or the whole trimmed line otherwise — the marker is
/// optional.
pub open spec fn spec_payload(t: Seq<u8>) -> Seq<u8> {
    if t.len() >= 6 && t.take(6) == data_prefix() {
        t.skip(6)
    } else {
        t
    }
}

/// Index of the first newline of a byte sequence, or its length if none.
pub open spec fn first_nl(b: Seq<u8>) -> nat
    decreases b.len(),
{
    if b.len() == 0 {
        0
    } else if b[0] == 10 {
        0
    } else {
        (1 + first_nl(b.drop_first())) as nat
    }
}

pub proof fn lemma_first_nl_props(b: Seq<u8>)
    ensures
        first_nl(b) <= b.len(),
        first_nl(b) < b.len() ==> b[first_nl(b) as int] == 10,
        forall|k: int| 0 <= k < first_nl(b) ==> b[k] != 10,
    decreases b.len(),
{
    if b.len() > 0 && b[0] != 10 {
        lemma_first_nl_props(b.drop_first());
        assert forall|k: int| 0 <= k < first_nl(b) implies b[k] != 10 by {
            if k > 0 {
                assert(b.drop_first()[k - 1] != 10);
            }
        }
    }
}

/// A position with no newline before it, and a newline at it (or the end),
/// is the first newline.
pub proof fn lemma_first_nl_at(b: Seq<u8>, i: int)
    requires
        0 <= i <= b.len(),
        forall|k: int| 0 <= k < i ==> b[k] != 10,
        i < b.len() ==> b[i] == 10,
    ensures
        first_nl(b) == i,
    decreases b.len(),
{
    if b.len() == 0 {
    } else if i == 0 {
    } else {
        assert(b[0] != 10);
        assert forall|k: int| 0 <= k < i - 1 implies b.drop_first()[k] != 10 by {
            assert(b[k + 1] != 10);
        }
        if i - 1 < b.drop_first().len() {
            assert(b.drop_first()[i - 1] == b[i]);
        }
        lemma_first_nl_at(b.drop_first(), i - 1);
    }
}

/// One decoded unit handed to the caller: a text fragment or a chunk of
/// audio sample words.
pub enum StreamEventModel {
    TextDelta(Seq<char>),
    AudioDelta(Seq<u32>),
}

/// What one protocol line means.
pub enum LineClass {
    /// Empty, sentinel, malformed, without usable choice, or a delta that
    /// carries neither text nor audio.
    Ignore,
    /// First choice carries the finish marker `stop`.
    Stop,
    /// A delta with at least one event: its nonempty text, if any, and its
    /// audio sample words.
    Delta(Option<Seq<char>>, Seq<u32>),
}

/// Classify one raw (untrimmed) line.
pub open spec fn classify_line(line: Seq<u8>) -> LineClass {
    let payload = spec_payload(spec_trim(line));
    if payload.len() == 0 || payload == done_marker() {
        LineClass::Ignore
    } else {
        match json_of(payload) {
            Option::None => LineClass::Ignore,
            Option::Some(node) => match spec_chunk_of(node) {
                Option::None => LineClass::Ignore,
                Option::Some(chunk) => match chunk.choices {
                    Option::None => LineClass::Ignore,
                    Option::Some(choices) => if choices.len() == 0 {
                        LineClass::Ignore
                    } else {
                        let choice = choices[0];
                        if choice.finish_reason == Option::Some("stop"@) {
                            LineClass::Stop
                        } else {
                            match choice.delta {
                                Option::None => LineClass::Ignore,
                                Option::Some(delta) => {
                                    let t = match delta.content {
                                        Option::Some(c) => if c.len() > 0 {
                                            Option::Some(c)
                                        } else {
                                            Option::None
                                        },
                                        Option::None => Option::None,
                                    };
                                    let a = match delta.audio_chunk {
                                        Option::Some(ac) => le_words_of(b64_decode_of(ac.data)),
                                        Option::None => Seq::<u32>::empty(),
                                    };
                                    if t is None && a.len() == 0 {
                                        LineClass::Ignore
                                    } else {
                                        LineClass::Delta(t, a)
                                    }
                                },
                            }
                        }
                    },
                },
            },
        }
    }
}

/// The events one delta line produces: its text fragment, then its audio
/// chunk when any sample survived decoding.
pub open spec fn line_events(t: Option<Seq<char>>, a: Seq<u32>) -> Seq<StreamEventModel> {
    (match t {
        Option::Some(txt) => seq![StreamEventModel::TextDelta(txt)],
        Option::None => Seq::empty(),
    }) + (if a.len() > 0 {
        seq![StreamEventModel::AudioDelta(a)]
    } else {
        Seq::empty()
    })
}

/// The outcome of decoding a byte sequence: the unconsumed tail, whether
/// the stop marker was seen, how many event-carrying delta lines were
/// accepted (each one samples the clock once), and the events in order.
pub struct DecodeModel {
    pub rest: Seq<u8>,
    pub done: bool,
    pub deltas: nat,
    pub events: Seq<StreamEventModel>,
}

/// Decode a byte sequence: consume complete lines in order, stopping right
/// after a stop line (later bytes stay unconsumed); a trailing partial
/// line stays buffered.
pub open spec fn decode_spec(b: Seq<u8>) -> DecodeModel
    decreases b.len(),
{
    if first_nl(b) >= b.len() {
        DecodeModel { rest: b, done: false, deltas: 0, events: Seq::empty() }
    } else {
        let i = first_nl(b) as int;
        let line = b.take(i);
        let tail = b.skip(i + 1);
        match classify_line(line) {
            LineClass::Ignore => decode_spec(tail),
            LineClass::Stop => DecodeModel {
                rest: tail,
                done: true,
                deltas: 0,
                events: Seq::empty(),
            },
            LineClass::Delta(t, a) => {
                let m = decode_spec(tail);
                DecodeModel {
                    rest: m.rest,
                    done: m.done,
                    deltas: (1 + m.deltas) as nat,
                    events: line_events(t, a) + m.events,
                }
            },
        }
    }
}

/// While the stream has not stopped, the unconsumed tail holds no complete
/// line.
pub proof fn lemma_decode_rest_no_nl(b: Seq<u8>)
    ensures
        !decode_spec(b).done ==> first_nl(decode_spec(b).rest) == decode_spec(b).rest.len(),
    decreases b.len(),
{
    lemma_first_nl_props(b);
    if first_nl(b) < b.len() {
        let i = first_nl(b) as int;
        let tail = b.skip(i + 1);
        match classify_line(b.take(i)) {
            LineClass::Ignore => {
                lemma_decode_rest_no_nl(tail);
            },
            LineClass::Stop => {},
            LineClass::Delta(t, a) => {
                lemma_decode_rest_no_nl(tail);
            },
        }
    }
}

/// Decoding is compositional in the byte stream: appending bytes continues
/// the decode from the unconsumed tail, and a stopped decode only buffers
/// them. This is what makes the outcome independent of chunk boundaries.
pub proof fn lemma_decode_append(b: Seq<u8>, c: Seq<u8>)
    ensures
        ({
            let m = decode_spec(b);
            let mc = decode_spec(b + c);
            let m2 = decode_spec(m.rest + c);
            &&& mc.done == (if m.done {
                true
            } else {
                m2.done
            })
            &&& mc.rest == (if m.done {
                m.rest + c
            } else {
                m2.rest
            })
            &&& mc.deltas == m.deltas + (if m.done {
                0
            } else {
                m2.deltas
            })
            &&& mc.events == m.events + (if m.done {
                Seq::<StreamEventModel>::empty()
            } else {
                m2.events
            })
        }),
    decreases b.len(),
{
    lemma_first_nl_props(b);
    let m = decode_spec(b);
    if first_nl(b) >= b.len() {
        // No complete line in `b`: everything restarts from `b + c` itself.
        assert(m.rest + c =~= b + c);
        let m2 = decode_spec(m.rest + c);
        assert(m.events + m2.events =~= m2.events);
    } else {
        let i = first_nl(b) as int;
        let line = b.take(i);
        let tail = b.skip(i + 1);
        // The first line and the following tail are unchanged by appending.
        assert forall|k: int| 0 <= k < i implies (b + c)[k] != 10 by {
            assert(b[k] != 10);
        }
        assert((b + c)[i] == 10);
        lemma_first_nl_at(b + c, i);
        assert((b + c).take(i) =~= line);
        assert((b + c).skip(i + 1) =~= tail + c);
        lemma_decode_append(tail, c);
        match classify_line(line) {
            LineClass::Ignore => {},
            LineClass::Stop => {},
            LineClass::Delta(t, a) => {
                let mt = decode_spec(tail);
                if mt.done {
                    assert((line_events(t, a) + mt.events) + Seq::<StreamEventModel>::empty()
                        =~= line_events(t, a) + (mt.events
                        + Seq::<StreamEventModel>::empty()));
                } else {
                    let m2 = decode_spec(mt.rest + c);
                    assert((line_events(t, a) + mt.events) + m2.events =~= line_events(t, a) + (
                    mt.events + m2.events));
                }
            },
        }
    }
}

/// The text fragments among a sequence of events, in order.
pub open spec fn texts_of(events: Seq<StreamEventModel>) -> Seq<Seq<char>>
    decreases events.len(),
{
    if events.len() == 0 {
        Seq::empty()
    } else {
        let pre = texts_of(events.drop_last());
        match events.last() {
            StreamEventModel::TextDelta(s) => pre.push(s),
            StreamEventModel::AudioDelta(_) => pre,
        }
    }
}

/// The total sample count over a sequence of events.
pub open spec fn audio_total(events: Seq<StreamEventModel>) -> nat
    decreases events.len(),
{
    if events.len() == 0 {
        0
    } else {
        audio_total(events.drop_last()) + (match events.last() {
            StreamEventModel::AudioDelta(a) => a.len(),
            StreamEventModel::TextDelta(_) => 0,
        })
    }
}

/// The number of audio chunks among a sequence of events.
pub open spec fn audio_count(events: Seq<StreamEventModel>) -> nat
    decreases events.len(),
{
    if events.len() == 0 {
        0
    } else {
        audio_count(events.drop_last()) + (match events.last() {
            StreamEventModel::AudioDelta(_) => 1nat,
            StreamEventModel::TextDelta(_) => 0,
        })
    }
}

pub proof fn lemma_texts_of_concat(a: Seq<StreamEventModel>, b: Seq<StreamEventModel>)
    ensures
        texts_of(a + b) == texts_of(a) + texts_of(b),
        audio_total(a + b) == audio_total(a) + audio_total(b),
        audio_count(a + b) == audio_count(a) + audio_count(b),
    decreases b.len(),
{
    if b.len() == 0 {
        assert(a + b =~= a);
        assert(texts_of(a) + texts_of(b) =~= texts_of(a));
    } else {
        lemma_texts_of_concat(a, b.drop_last());
        assert((a + b).drop_last() =~= a + b.drop_last());
        assert((a + b).last() == b.last());
        match b.last() {
            StreamEventModel::TextDelta(s) => {
                assert(texts_of(a) + texts_of(b) =~= (texts_of(a) + texts_of(b.drop_last())).push(
                    s,
                ));
            },
            StreamEventModel::AudioDelta(_) => {},
        }
    }
}


/// A trim scan's stopping position agrees with the recursive trim: with only
/// whitespace before `i` and none at `i`, the leading trim is `skip(i)`.
proof fn lemma_drop_leading_at(s: Seq<u8>, i: int)
    requires
        0 <= i <= s.len(),
        forall|k: int| 0 <= k < i ==> is_ws(s[k]),
        i < s.len() ==> !is_ws(s[i]),
    ensures
        drop_leading(s) == s.skip(i),
    decreases s.len(),
{
    if i == 0 {
        if s.len() == 0 || !is_ws(s[0]) {
            assert(s.skip(0) =~= s);
        }
    } else {
        assert(is_ws(s[0]));
        assert forall|k: int| 0 <= k < i - 1 implies is_ws(s.drop_first()[k]) by {
            assert(s[k + 1] == s.drop_first()[k]);
        }
        if i - 1 < s.drop_first().len() {
            assert(s.drop_first()[i - 1] == s[i]);
        }
        lemma_drop_leading_at(s.drop_first(), i - 1);
        assert(s.drop_first().skip(i - 1) =~= s.skip(i));
    }
}

/// With only whitespace at and after `j`, and none just before it, the
/// trailing trim is `take(j)`.
proof fn lemma_drop_trailing_at(s: Seq<u8>, j: int)
    requires
        0 <= j <= s.len(),
        forall|k: int| j <= k < s.len() ==> is_ws(s[k]),
        j > 0 ==> !is_ws(s[j - 1]),
    ensures
        drop_trailing(s) == s.take(j),
    decreases s.len(),
{
    if j == s.len() {
        assert(s.take(j) =~= s);
    } else {
        assert(is_ws(s.last()));
        lemma_drop_trailing_at(s.drop_last(), j);
        assert(s.drop_last().take(j) =~= s.take(j));
    }
}

/// Relies on std::time::Instant: an opaque reading of the monotonic clock.
#[verifier::external_type_specification]
#[verifier::external_body]
pub struct ExInstant(std::time::Instant);

/// Relies on std::time::Instant::now: the monotonic clock, read here.
#[verifier::external_body]
fn instant_now() -> (r: std::time::Instant) {
    std::time::Instant::now()
}

/// Relies on Instant::elapsed and Duration::as_millis: whole milliseconds
/// since the instant, truncated to 64 bits. The value depends on the wall
/// clock, so nothing is promised of it.
#[verifier::external_body]
fn elapsed_millis(t0: &std::time::Instant) -> (r: u64) {
    t0.elapsed().as_millis() as u64
}

/// Relies on String::push_str: appends the characters of `t` to `s`.
#[verifier::external_body]
fn string_append(s: &mut String, t: &str)
    ensures
        final(s)@ == old(s)@ + t@,
{
    s.push_str(t);
}

/// Millisecond clock whose readings never decrease across calls: raw
/// readings of the platform clock are clamped to the latest value seen.
pub struct MonotonicClock {
    t0: std::time::Instant,
    last: u64,
}

impl MonotonicClock {
    /// The largest reading handed out so far.
    pub closed spec fn last_tick(&self) -> u64 {
        self.last
    }

    pub fn new() -> (r: Self)
        ensures
            r.last_tick() == 0,
    {
        MonotonicClock { t0: instant_now(), last: 0 }
    }

    /// Milliseconds since the clock started, nondecreasing across calls.
    pub fn tick(&mut self) -> (r: u64)
        ensures
            r == final(self).last_tick(),
            old(self).last_tick() <= r,
    {
        let raw = elapsed_millis(&self.t0);
        if raw > self.last {
            self.last = raw;
        }
        self.last
    }
}

/// One decoded event handed to the caller: a text fragment to print, or a
/// chunk of audio sample words to enqueue for playback.
pub enum StreamEvent {
    TextDelta(String),
    AudioDelta(Vec<u32>),
}

impl View for StreamEvent {
    type V = StreamEventModel;

    open spec fn view(&self) -> StreamEventModel {
        match self {
            StreamEvent::TextDelta(s) => StreamEventModel::TextDelta(s@),
            StreamEvent::AudioDelta(v) => StreamEventModel::AudioDelta(v@),
        }
    }
}

/// The models of a sequence of events.
pub open spec fn events_view(s: Seq<StreamEvent>) -> Seq<StreamEventModel> {
    Seq::new(s.len(), |i: int| s[i]@)
}

/// Latency and throughput telemetry of one streamed request. Counts
/// saturate at the machine's integer bound; times are in milliseconds on
/// the decoder's monotonic clock.
pub struct StreamStats {
    pub ttft_millis: Option<u64>,
    pub total_millis: u64,
    pub text_chunk_count: usize,
    pub text_duration_millis: u64,
    pub total_audio_samples: usize,
    pub audio_duration_millis: u64,
    pub completed: bool,
}

/// A count clamped to what a machine integer can hold.
pub open spec fn sat(n: nat) -> nat {
    if n > usize::MAX as nat {
        usize::MAX as nat
    } else {
        n
    }
}

fn sat_add(a: usize, b: usize) -> (r: usize)
    ensures
        r as nat == sat(a as nat + b as nat),
{
    if a > usize::MAX - b {
        usize::MAX
    } else {
        a + b
    }
}

/// Saturated addition absorbs an earlier saturation.
proof fn lemma_sat_absorb(x: nat, n: nat)
    ensures
        sat(sat(x) + n) == sat(x + n),
{
}

fn append_bytes(dst: &mut Vec<u8>, src: &[u8])
    ensures
        final(dst)@ == old(dst)@ + src@,
{
    let n = src.len();
    let mut i: usize = 0;
    while i < n
        invariant
            n == src@.len(),
            i <= n,
            dst@ == old(dst)@ + src@.take(i as int),
        decreases n - i,
    {
        dst.push(*vstd::slice::slice_index_get(src, i));
        proof {
            assert(old(dst)@ + src@.take(i as int + 1) =~= (old(dst)@ + src@.take(i as int)).push(
                src@[i as int],
            ));
        }
        i = i + 1;
    }
    proof {
        assert(src@.take(n as int) =~= src@);
    }
}

fn byte_range(v: &Vec<u8>, from: usize, to: usize) -> (r: Vec<u8>)
    requires
        from <= to <= v@.len(),
    ensures
        r@ == v@.subrange(from as int, to as int),
{
    let mut r: Vec<u8> = Vec::new();
    let mut i: usize = from;
    while i < to
        invariant
            from <= i <= to <= v@.len(),
            r@ == v@.subrange(from as int, i as int),
        decreases to - i,
    {
        r.push(v[i]);
        proof {
            assert(v@.subrange(from as int, i as int + 1) =~= v@.subrange(
                from as int,
                i as int,
            ).push(v@[i as int]));
        }
        i = i + 1;
    }
    r
}

fn find_first_nl(v: &Vec<u8>) -> (r: usize)
    ensures
        r == first_nl(v@),
        r <= v@.len(),
{
    let n = v.len();
    let mut i: usize = 0;
    while i < n
        invariant
            n == v@.len(),
            i <= n,
            forall|k: int| 0 <= k < i ==> v@[k] != 10,
        decreases n - i,
    {
        if v[i] == 10 {
            proof {
                lemma_first_nl_at(v@, i as int);
            }
            return i;
        }
        i = i + 1;
    }
    proof {
        lemma_first_nl_at(v@, n as int);
    }
    n
}

fn is_ws_byte(b: u8) -> (r: bool)
    ensures
        r == is_ws(b),
{
    b == 32 || (9 <= b && b <= 13)
}

/// What the executable classifier found on one line.
enum LineOutcome {
    Skip,
    Stop,
    Delta(Option<String>, Vec<u32>),
}

/// Classify one raw line exactly as the line model does: trim it, strip
/// the optional field marker, drop empty and sentinel payloads, parse the
/// record, and read its first choice.
#[verifier::loop_isolation(false)]
fn classify(line: &[u8]) -> (r: LineOutcome)
    ensures
        match r {
            LineOutcome::Skip => classify_line(line@) == LineClass::Ignore,
            LineOutcome::Stop => classify_line(line@) == LineClass::Stop,
            LineOutcome::Delta(t, a) => classify_line(line@) == LineClass::Delta(
                match t {
                    Some(s) => Some(s@),
                    None => None,
                },
                a@,
            ),
        },
{
    let n = line.len();
    let mut s: usize = 0;
    while s < n && is_ws_byte(*vstd::slice::slice_index_get(line, s))
        invariant
            s <= n,
            forall|k: int| 0 <= k < s ==> is_ws(line@[k]),
        decreases n - s,
    {
        s = s + 1;
    }
    let mut e: usize = n;
    while e > s && is_ws_byte(*vstd::slice::slice_index_get(line, e - 1))
        invariant
            s <= e <= n,
            forall|k: int| e <= k < n ==> is_ws(line@[k]),
        decreases e,
    {
        e = e - 1;
    }
    proof {
        lemma_drop_leading_at(line@, s as int);
        lemma_drop_trailing_at(line@.skip(s as int), e - s);
        assert(line@.skip(s as int).take(e - s) =~= line@.subrange(s as int, e as int));
        assert(spec_trim(line@) == line@.subrange(s as int, e as int));
    }
    let ghost t = spec_trim(line@);
    // Strip the field marker where present; the marker is optional, so an
    // unmarked line is its own payload.
    let has_marker = e - s >= 6 && line[s] == 100 && line[s + 1] == 97 && line[s + 2] == 116
        && line[s + 3] == 97 && line[s + 4] == 58 && line[s + 5] == 32;
    let payload = if has_marker {
        proof {
            assert(t.take(6) =~= data_prefix());
            assert(spec_payload(t) == t.skip(6));
            assert(t.skip(6) =~= line@.subrange(s as int + 6, e as int));
        }
        vstd::slice::slice_subrange(line, s + 6, e)
    } else {
        proof {
            if t.len() >= 6 {
                assert(t.take(6) != data_prefix()) by {
                    if t.take(6) == data_prefix() {
                        assert(t[0] == 100u8 && t[1] == 97u8 && t[2] == 116u8 && t[3] == 97u8
                            && t[4] == 58u8 && t[5] == 32u8);
                    }
                }
            }
            assert(spec_payload(t) == t);
        }
        vstd::slice::slice_subrange(line, s, e)
    };
    let ghost p = spec_payload(t);
    proof {
        assert(p == payload@);
    }
    if payload.len() == 0 {
        return LineOutcome::Skip;
    }
    // The end-of-stream sentinel is ignored without ending the decode.
    if payload.len() == 6 {
        let is_done = payload[0] == 91 && payload[1] == 68 && payload[2] == 79 && payload[3] == 78
            && payload[4] == 69 && payload[5] == 93;
        if is_done {
            proof {
                assert(p =~= done_marker());
            }
            return LineOutcome::Skip;
        }
    }
    proof {
        assert(p != done_marker()) by {
            if p == done_marker() {
                assert(p.len() == 6);
                assert(p[0] == 91u8 && p[1] == 68u8 && p[2] == 79u8 && p[3] == 78u8 && p[4] == 69u8
                    && p[5] == 93u8);
            }
        }
    }
    let node = match crate::json::parse_json(payload) {
        Some(node) => node,
        None => {
            return LineOutcome::Skip;
        },
    };
    let chunk = match crate::records::chunk_of_json(&node) {
        Some(chunk) => chunk,
        None => {
            return LineOutcome::Skip;
        },
    };
    let choices = match &chunk.choices {
        Some(cs) => cs,
        None => {
            return LineOutcome::Skip;
        },
    };
    if choices.len() == 0 {
        return LineOutcome::Skip;
    }
    let choice = &choices[0];
    let ghost cm = chunk@.choices->Some_0[0];
    proof {
        assert(cm == choice@);
    }
    let is_stop = match &choice.finish_reason {
        Some(fr) => crate::json::str_eq(fr.as_str(), "stop"),
        None => false,
    };
    if is_stop {
        return LineOutcome::Stop;
    }
    proof {
        assert(cm.finish_reason != Option::Some("stop"@));
    }
    let delta = match &choice.delta {
        Some(d) => d,
        None => {
            return LineOutcome::Skip;
        },
    };
    let text: Option<String> = match &delta.content {
        Some(c) => {
            if c.as_str().is_empty() {
                None
            } else {
                Some(c.clone())
            }
        },
        None => None,
    };
    let audio: Vec<u32> = match &delta.audio_chunk {
        Some(ac) => {
            let bytes = crate::codec::b64_decode_or_empty(ac.data.as_str());
            crate::codec::samples_from_bytes(&bytes)
        },
        None => Vec::new(),
    };
    proof {
        assert(events_match_delta(cm, text, audio));
    }
    // A delta with neither text nor audio carries no event and is ignored.
    if text.is_none() && audio.len() == 0 {
        return LineOutcome::Skip;
    }
    LineOutcome::Delta(text, audio)
}

/// The text and audio read off a delta match the choice model.
spec fn events_match_delta(
    cm: crate::records::StreamChoiceModel,
    text: Option<String>,
    audio: Vec<u32>,
) -> bool {
    match cm.delta {
        Option::Some(dm) => {
            &&& (match text {
                Option::Some(s) => Option::Some(s@),
                Option::None => Option::None,
            }) == (match dm.content {
                Option::Some(c) => if c.len() > 0 {
                    Option::<Seq<char>>::Some(c)
                } else {
                    Option::None
                },
                Option::None => Option::None,
            })
            &&& audio@ == (match dm.audio_chunk {
                Option::Some(ac) => le_words_of(b64_decode_of(ac.data)),
                Option::None => Seq::<u32>::empty(),
            })
        },
        Option::None => false,
    }
}


/// The accumulated text fragments, in order, as one character sequence.
pub open spec fn concat_chars(parts: Seq<Seq<char>>) -> Seq<char>
    decreases parts.len(),
{
    if parts.len() == 0 {
        Seq::empty()
    } else {
        concat_chars(parts.drop_last()) + parts.last()
    }
}

/// The incremental stream decoder: buffers incoming bytes, consumes every
/// complete line, and accumulates output text, counters and timestamps.
/// Its whole visible state is a function of the bytes fed so far
/// (`decode_spec`), apart from the clock readings taken per delta.
pub struct StreamDecoder {
    buffer: Vec<u8>,
    text_parts: Vec<String>,
    total_samples: usize,
    completed: bool,
    ttft: Option<u64>,
    text_t_first: u64,
    text_t_last: u64,
    audio_t_first: u64,
    audio_t_last: u64,
    audio_seen: bool,
    clock: MonotonicClock,
    fed: Ghost<Seq<u8>>,
    dtimes: Ghost<Seq<u64>>,
    ttimes: Ghost<Seq<u64>>,
    atimes: Ghost<Seq<u64>>,
}

impl StreamDecoder {
    /// All bytes accepted so far.
    pub closed spec fn fed_bytes(&self) -> Seq<u8> {
        self.fed@
    }

    /// The clock reading of each accepted delta line, in order.
    pub closed spec fn delta_times(&self) -> Seq<u64> {
        self.dtimes@
    }

    /// The clock reading of each text event, in order.
    pub closed spec fn text_times(&self) -> Seq<u64> {
        self.ttimes@
    }

    /// The clock reading of each audio event, in order.
    pub closed spec fn audio_times(&self) -> Seq<u64> {
        self.atimes@
    }

    /// The recorded time-to-first-token, if any delta arrived.
    pub closed spec fn ttft_value(&self) -> Option<u64> {
        self.ttft
    }

    /// The exec counters and accumulators agree with an event history `e`.
    spec fn fields_match(&self, e: Seq<StreamEventModel>) -> bool {
        &&& Seq::new(self.text_parts@.len(), |i: int| self.text_parts@[i]@) == texts_of(e)
        &&& self.ttimes@.len() == texts_of(e).len()
        &&& self.atimes@.len() == audio_count(e)
        &&& self.total_samples as nat == sat(audio_total(e))
        &&& self.audio_seen == (audio_count(e) > 0)
    }

    /// Timestamps are nondecreasing, no later than the clock's last
    /// reading, and the derived first/last marks agree with them.
    spec fn times_wf(&self) -> bool {
        &&& forall|i: int, j: int|
            0 <= i <= j < self.dtimes@.len() ==> self.dtimes@[i] <= self.dtimes@[j]
        &&& forall|i: int, j: int|
            0 <= i <= j < self.ttimes@.len() ==> self.ttimes@[i] <= self.ttimes@[j]
        &&& forall|i: int, j: int|
            0 <= i <= j < self.atimes@.len() ==> self.atimes@[i] <= self.atimes@[j]
        &&& forall|i: int| 0 <= i < self.dtimes@.len() ==> self.dtimes@[i] <= self.clock.last_tick()
        &&& forall|i: int| 0 <= i < self.ttimes@.len() ==> self.ttimes@[i] <= self.clock.last_tick()
        &&& forall|i: int| 0 <= i < self.atimes@.len() ==> self.atimes@[i] <= self.clock.last_tick()
        &&& self.ttft == (if self.dtimes@.len() == 0 {
            Option::<u64>::None
        } else {
            Option::Some(self.dtimes@[0])
        })
        &&& self.ttimes@.len() > 0 ==> (self.text_t_first == self.ttimes@[0] && self.text_t_last
            == self.ttimes@.last())
        &&& self.atimes@.len() > 0 ==> (self.audio_t_first == self.atimes@[0] && self.audio_t_last
            == self.atimes@.last())
    }

    /// The decoder's state is exactly the decode of the bytes fed so far.
    pub closed spec fn wf(&self) -> bool {
        let m = decode_spec(self.fed@);
        &&& self.buffer@ == m.rest
        &&& self.completed == m.done
        &&& self.dtimes@.len() == m.deltas
        &&& self.fields_match(m.events)
        &&& self.times_wf()
    }

    /// A fresh decoder with its clock started: nothing fed, nothing seen.
    pub fn new() -> (r: Self)
        ensures
            r.wf(),
            r.fed_bytes() == Seq::<u8>::empty(),
            r.delta_times() == Seq::<u64>::empty(),
            r.text_times() == Seq::<u64>::empty(),
            r.audio_times() == Seq::<u64>::empty(),
            r.ttft_value() is None,
    {
        let r = StreamDecoder {
            buffer: Vec::new(),
            text_parts: Vec::new(),
            total_samples: 0,
            completed: false,
            ttft: None,
            text_t_first: 0,
            text_t_last: 0,
            audio_t_first: 0,
            audio_t_last: 0,
            audio_seen: false,
            clock: MonotonicClock::new(),
            fed: Ghost(Seq::empty()),
            dtimes: Ghost(Seq::empty()),
            ttimes: Ghost(Seq::empty()),
            atimes: Ghost(Seq::empty()),
        };
        proof {
            let m = decode_spec(r.fed@);
            assert(Seq::new(r.text_parts@.len(), |i: int| r.text_parts@[i]@) =~= texts_of(
                m.events,
            ));
        }
        r
    }

    /// Whether the stop marker has been decoded; later bytes are buffered
    /// without being consumed.
    pub fn is_complete(&self) -> (r: bool)
        requires
            self.wf(),
        ensures
            r == decode_spec(self.fed_bytes()).done,
    {
        self.completed
    }

    /// How many bytes sit unconsumed in the line buffer.
    pub fn buffered_len(&self) -> (r: usize)
        requires
            self.wf(),
        ensures
            r == decode_spec(self.fed_bytes()).rest.len(),
    {
        self.buffer.len()
    }

    /// Feed one network chunk: append its bytes and consume every complete
    /// line, stopping at a stop line. Returns the decoded events of this
    /// chunk in order; the whole decode so far is `decode_spec` of the
    /// bytes fed so far, however they were chunked.
    #[verifier::loop_isolation(false)]
    #[verifier::rlimit(100)]
    pub fn push_chunk(&mut self, chunk: &[u8]) -> (events: Vec<StreamEvent>)
        requires
            old(self).wf(),
        ensures
            final(self).wf(),
            final(self).fed_bytes() == old(self).fed_bytes() + chunk@,
            decode_spec(final(self).fed_bytes()).events == decode_spec(
                old(self).fed_bytes(),
            ).events + events_view(events@),
            old(self).delta_times().is_prefix_of(final(self).delta_times()),
            old(self).text_times().is_prefix_of(final(self).text_times()),
            old(self).audio_times().is_prefix_of(final(self).audio_times()),
            final(self).delta_times().len() == decode_spec(final(self).fed_bytes()).deltas,
            final(self).text_times().len() == texts_of(
                decode_spec(final(self).fed_bytes()).events,
            ).len(),
            final(self).audio_times().len() == audio_count(
                decode_spec(final(self).fed_bytes()).events,
            ),
            final(self).ttft_value() == (if decode_spec(final(self).fed_bytes()).deltas == 0 {
                Option::<u64>::None
            } else {
                Option::Some(final(self).delta_times()[0])
            }),
    {
        let ghost fed0 = self.fed@;
        let ghost m0 = decode_spec(fed0);
        let ghost dtimes0 = self.dtimes@;
        let ghost ttimes0 = self.ttimes@;
        let ghost atimes0 = self.atimes@;
        append_bytes(&mut self.buffer, chunk);
        self.fed = Ghost(fed0 + chunk@);
        proof {
            lemma_decode_append(fed0, chunk@);
            if m0.done {
                assert(m0.events + Seq::<StreamEventModel>::empty() =~= m0.events);
            }
        }
        let mut events: Vec<StreamEvent> = Vec::new();
        proof {
            assert(events_view(events@) =~= Seq::<StreamEventModel>::empty());
            assert(m0.events + events_view(events@) =~= m0.events);
        }
        loop
            invariant
                self.fed@ == fed0 + chunk@,
                self.fields_match(m0.events + events_view(events@)),
                self.times_wf(),
                dtimes0.is_prefix_of(self.dtimes@),
                ttimes0.is_prefix_of(self.ttimes@),
                atimes0.is_prefix_of(self.atimes@),
                ({
                    let mc = decode_spec(self.fed@);
                    let cm = decode_spec(self.buffer@);
                    let e = m0.events + events_view(events@);
                    if self.completed {
                        mc.rest == self.buffer@ && mc.done && mc.deltas == self.dtimes@.len()
                            && mc.events == e
                    } else {
                        mc.rest == cm.rest && mc.done == cm.done && mc.deltas == self.dtimes@.len()
                            + cm.deltas && mc.events == e + cm.events
                    }
                }),
            decreases self.buffer@.len(),
        {
            if self.completed {
                break ;
            }
            let nl = find_first_nl(&self.buffer);
            if nl == self.buffer.len() {
                proof {
                    let cm = decode_spec(self.buffer@);
                    assert(cm.rest == self.buffer@ && !cm.done && cm.deltas == 0 && cm.events
                        == Seq::<StreamEventModel>::empty());
                    assert((m0.events + events_view(events@)) + cm.events =~= m0.events
                        + events_view(events@));
                }
                break ;
            }
            let ghost buf0 = self.buffer@;
            let ghost cm0 = decode_spec(buf0);
            let ghost lineg = buf0.take(nl as int);
            let ghost tailg = buf0.skip(nl as int + 1);
            let line = byte_range(&self.buffer, 0, nl);
            let rest = byte_range(&self.buffer, nl + 1, self.buffer.len());
            self.buffer = rest;
            proof {
                assert(line@ =~= lineg);
                assert(self.buffer@ =~= tailg);
            }
            match classify(line.as_slice()) {
                LineOutcome::Skip => {
                    proof {
                        assert(cm0 == decode_spec(tailg));
                    }
                },
                LineOutcome::Stop => {
                    self.completed = true;
                    proof {
                        assert((m0.events + events_view(events@))
                            + Seq::<StreamEventModel>::empty() =~= m0.events + events_view(
                            events@,
                        ));
                    }
                },
                LineOutcome::Delta(t, a) => {
                    let ghost tm: Option<Seq<char>> = match &t {
                        Option::Some(s) => Option::Some(s@),
                        Option::None => Option::None,
                    };
                    let ghost le = line_events(tm, a@);
                    let ghost e0 = m0.events + events_view(events@);
                    let ghost cmt = decode_spec(tailg);
                    let now = self.clock.tick();
                    self.dtimes = Ghost(self.dtimes@.push(now));
                    if self.ttft.is_none() {
                        self.ttft = Some(now);
                    }
                    if let Some(txt) = t {
                        if self.text_parts.len() == 0 {
                            self.text_t_first = now;
                        }
                        self.text_t_last = now;
                        events.push(StreamEvent::TextDelta(txt.clone()));
                        self.text_parts.push(txt);
                        self.ttimes = Ghost(self.ttimes@.push(now));
                    }
                    if a.len() > 0 {
                        let nsamp = a.len();
                        self.total_samples = sat_add(self.total_samples, nsamp);
                        if !self.audio_seen {
                            self.audio_seen = true;
                            self.audio_t_first = now;
                        }
                        self.audio_t_last = now;
                        self.atimes = Ghost(self.atimes@.push(now));
                        events.push(StreamEvent::AudioDelta(a));
                    }
                    proof {
                        lemma_texts_of_concat(e0, le);
                        lemma_texts_of_singletons(tm, a@);
                        lemma_sat_absorb(audio_total(e0), audio_total(le));
                        assert(events_view(events@) =~= (e0 + le).skip(m0.events.len() as int));
                        assert(m0.events + events_view(events@) =~= e0 + le);
                        assert(Seq::new(self.text_parts@.len(), |i: int| self.text_parts@[i]@)
                            =~= texts_of(e0 + le));
                        assert((e0 + le) + cmt.events =~= e0 + (le + cmt.events));
                    }
                },
            }
        }
        proof {
            let mfin = decode_spec(self.fed@);
            assert(mfin.events == m0.events + events_view(events@));
        }
        events
    }

    /// Close the stream: the concatenated text and the telemetry record.
    /// The result reflects exactly the decode of the bytes fed, with the
    /// time-to-first-token and spans taken from the per-delta clock
    /// readings.
    #[verifier::loop_isolation(false)]
    pub fn finish(self) -> (r: (String, StreamStats))
        requires
            self.wf(),
        ensures
            ({
                let m = decode_spec(self.fed_bytes());
                &&& r.0@ == concat_chars(texts_of(m.events))
                &&& r.1.completed == m.done
                &&& r.1.text_chunk_count == texts_of(m.events).len()
                &&& r.1.total_audio_samples as nat == sat(audio_total(m.events))
                &&& r.1.ttft_millis == (if self.delta_times().len() == 0 {
                    Option::<u64>::None
                } else {
                    Option::Some(self.delta_times()[0])
                })
                &&& r.1.text_duration_millis as int == (if self.text_times().len() > 1 {
                    self.text_times().last() - self.text_times()[0]
                } else {
                    0
                })
                &&& r.1.audio_duration_millis as int == (if self.audio_times().len() > 0 {
                    self.audio_times().last() - self.audio_times()[0]
                } else {
                    0
                })
                &&& (r.1.ttft_millis matches Some(t) ==> t <= r.1.total_millis)
                &&& self.delta_times().len() == m.deltas
                &&& self.text_times().len() == texts_of(m.events).len()
                &&& self.audio_times().len() == audio_count(m.events)
            }),
    {
        let mut this = self;
        let ghost m = decode_spec(this.fed@);
        let ghost tviews = Seq::new(this.text_parts@.len(), |i: int| this.text_parts@[i]@);
        let mut full = String::new();
        let k = this.text_parts.len();
        let mut i: usize = 0;
        while i < k
            invariant
                k == this.text_parts@.len(),
                i <= k,
                full@ == concat_chars(tviews.take(i as int)),
            decreases k - i,
        {
            string_append(&mut full, this.text_parts[i].as_str());
            proof {
                assert(tviews.take(i as int + 1).drop_last() =~= tviews.take(i as int));
            }
            i = i + 1;
        }
        proof {
            assert(tviews.take(k as int) =~= tviews);
        }
        let total = this.clock.tick();
        let text_duration: u64 = if this.text_parts.len() > 1 {
            this.text_t_last - this.text_t_first
        } else {
            0
        };
        let audio_duration: u64 = if this.audio_seen {
            this.audio_t_last - this.audio_t_first
        } else {
            0
        };
        let stats = StreamStats {
            ttft_millis: this.ttft,
            total_millis: total,
            text_chunk_count: this.text_parts.len(),
            text_duration_millis: text_duration,
            total_audio_samples: this.total_samples,
            audio_duration_millis: audio_duration,
            completed: this.completed,
        };
        (full, stats)
    }
}

/// A single text event contributes its fragment and no samples; a single
/// audio event the reverse.
proof fn lemma_texts_of_singletons(tm: Option<Seq<char>>, a: Seq<u32>)
    ensures
        texts_of(line_events(tm, a)) == (match tm {
            Option::Some(s) => seq![s],
            Option::None => Seq::<Seq<char>>::empty(),
        }),
        audio_total(line_events(tm, a)) == (if a.len() > 0 {
            a.len()
        } else {
            0
        }),
        audio_count(line_events(tm, a)) == (if a.len() > 0 {
            1nat
        } else {
            0
        }),
{
    reveal_with_fuel(texts_of, 4);
    reveal_with_fuel(audio_total, 4);
    reveal_with_fuel(audio_count, 4);
    let le = line_events(tm, a);
    match tm {
        Option::Some(s) => {
            if a.len() > 0 {
                assert(le =~= seq![
                    StreamEventModel::TextDelta(s),
                    StreamEventModel::AudioDelta(a),
                ]);
                assert(le.drop_last() =~= seq![StreamEventModel::TextDelta(s)]);
                assert(le.drop_last().drop_last() =~= Seq::<StreamEventModel>::empty());
                assert(texts_of(le) =~= seq![s]);
            } else {
                assert(le =~= seq![StreamEventModel::TextDelta(s)]);
                assert(le.drop_last() =~= Seq::<StreamEventModel>::empty());
                assert(texts_of(le) =~= seq![s]);
            }
        },
        Option::None => {
            if a.len() > 0 {
                assert(le =~= seq![StreamEventModel::AudioDelta(a)]);
                assert(le.drop_last() =~= Seq::<StreamEventModel>::empty());
                assert(texts_of(le) =~= Seq::<Seq<char>>::empty());
            } else {
                assert(le =~= Seq::<StreamEventModel>::empty());
            }
        },
    }
}


/// Time-to-first-token is absent exactly when no text or audio delta was
/// decoded, and otherwise is the clock reading of the line that carried
/// the earliest delta, whether that delta was text or audio.
pub proof fn lemma_ttft_is_earliest_delta(d: &StreamDecoder)
    requires
        d.wf(),
    ensures
        (d.ttft_value() is None) <==> d.delta_times().len() == 0,
        (d.ttft_value() is None) <==> decode_spec(d.fed_bytes()).events.len() == 0,
        d.ttft_value() matches Some(t) ==> t == d.delta_times()[0],
        d.ttft_value() matches Some(t) ==> forall|i: int|
            0 <= i < d.delta_times().len() ==> t <= d.delta_times()[i],
{
    lemma_deltas_iff_events(d.fed_bytes());
}

/// The clock is sampled for a line exactly when the line yields an event:
/// the delta count is zero precisely when no event was decoded.
pub proof fn lemma_deltas_iff_events(b: Seq<u8>)
    ensures
        (decode_spec(b).deltas == 0) <==> (decode_spec(b).events.len() == 0),
    decreases b.len(),
{
    lemma_first_nl_props(b);
    if first_nl(b) < b.len() {
        let i = first_nl(b) as int;
        let tail = b.skip(i + 1);
        match classify_line(b.take(i)) {
            LineClass::Ignore => {
                lemma_deltas_iff_events(tail);
            },
            LineClass::Stop => {},
            LineClass::Delta(t, a) => {
                lemma_deltas_iff_events(tail);
                assert(line_events(t, a).len() >= 1);
            },
        }
    }
}

/// A line with no embedded newline.
pub open spec fn no_nl(l: Seq<u8>) -> bool {
    forall|k: int| 0 <= k < l.len() ==> l[k] != 10
}

/// The lines joined back into a byte stream, each closed by a newline.
pub open spec fn join_lines(lines: Seq<Seq<u8>>) -> Seq<u8>
    decreases lines.len(),
{
    if lines.len() == 0 {
        Seq::empty()
    } else {
        lines.first().push(10) + join_lines(lines.drop_first())
    }
}

/// The events one line contributes: those of its delta, if it is one.
pub open spec fn line_events_of(l: Seq<u8>) -> Seq<StreamEventModel> {
    match classify_line(l) {
        LineClass::Delta(t, a) => line_events(t, a),
        _ => Seq::empty(),
    }
}

/// The events of a sequence of lines, in order.
pub open spec fn all_events(lines: Seq<Seq<u8>>) -> Seq<StreamEventModel>
    decreases lines.len(),
{
    if lines.len() == 0 {
        Seq::empty()
    } else {
        line_events_of(lines.first()) + all_events(lines.drop_first())
    }
}

/// How many of the lines are delta lines.
pub open spec fn all_deltas(lines: Seq<Seq<u8>>) -> nat
    decreases lines.len(),
{
    if lines.len() == 0 {
        0
    } else {
        (match classify_line(lines.first()) {
            LineClass::Delta(t, a) => 1nat,
            _ => 0,
        }) + all_deltas(lines.drop_first())
    }
}

/// For a byte stream forming complete non-stop lines followed by a stop
/// line, decoding reports completion, consumes nothing past the stop
/// line's newline, and yields exactly the events and delta count of the
/// lines before the stop. Together with `push_chunk`, which decodes
/// whatever was fed as `decode_spec` of the concatenation, the outcome is
/// independent of how the bytes were split into network chunks.
pub proof fn lemma_lines_then_stop(lines: Seq<Seq<u8>>, stop_line: Seq<u8>, after: Seq<u8>)
    requires
        forall|i: int| 0 <= i < lines.len() ==> no_nl(#[trigger] lines[i]),
        forall|i: int| 0 <= i < lines.len() ==> !((#[trigger] classify_line(lines[i])) is Stop),
        no_nl(stop_line),
        classify_line(stop_line) is Stop,
    ensures
        ({
            let b = join_lines(lines) + stop_line.push(10) + after;
            let m = decode_spec(b);
            &&& m.done
            &&& m.rest == after
            &&& m.deltas == all_deltas(lines)
            &&& m.events == all_events(lines)
        }),
    decreases lines.len(),
{
    let b = join_lines(lines) + stop_line.push(10) + after;
    if lines.len() == 0 {
        assert(b =~= stop_line.push(10) + after);
        assert forall|k: int| 0 <= k < stop_line.len() implies b[k] != 10 by {
            assert(b[k] == stop_line[k]);
        }
        assert(b[stop_line.len() as int] == 10);
        lemma_first_nl_at(b, stop_line.len() as int);
        assert(b.take(stop_line.len() as int) =~= stop_line);
        assert(b.skip(stop_line.len() as int + 1) =~= after);
    } else {
        let l0 = lines.first();
        let tail_b = join_lines(lines.drop_first()) + stop_line.push(10) + after;
        assert(b =~= l0.push(10) + tail_b);
        assert forall|k: int| 0 <= k < l0.len() implies b[k] != 10 by {
            assert(b[k] == l0[k]);
        }
        assert(b[l0.len() as int] == 10);
        lemma_first_nl_at(b, l0.len() as int);
        assert(b.take(l0.len() as int) =~= l0);
        assert(b.skip(l0.len() as int + 1) =~= tail_b);
        lemma_lines_then_stop(lines.drop_first(), stop_line, after);
        match classify_line(l0) {
            LineClass::Ignore => {
                assert(all_events(lines) =~= all_events(lines.drop_first()));
            },
            LineClass::Stop => {
                assert(false);
            },
            LineClass::Delta(t, a) => {
                assert(line_events_of(l0) == line_events(t, a));
            },
        }
    }
}

} // verus!
