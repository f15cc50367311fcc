//! Wake stream: turns the server's event stream into wake-ups of the delta pull.
//!
//! Correctness never depends on this stream: events carry no data, and the
//! interval poll keeps running underneath.

use crate::text::{from_utf8, opt_view, same_text, trim, trimmed};
use vstd::prelude::*;
use vstd::string::*;
use vstd::utf8::{decode_utf8, valid_utf8};

verus! {

broadcast use vstd::string::group_string_axioms;

/// No bytes for this many seconds means that the stream is dead.
pub const IDLE_TIMEOUT_SECS: u64 = 90;

pub const BACKOFF_MIN_SECS: u64 = 1;

pub const BACKOFF_MAX_SECS: u64 = 60;

/// More unfinished bytes than this are dropped.
pub const MAX_BUFFER: usize = 65_536;

// ── Events ──────────────────────────────────────────────────────────────────

/// Two line feeds stand at `i`.
pub open spec fn blank_line_at(buf: Seq<u8>, i: int) -> bool {
    0 <= i && i + 1 < buf.len() && buf[i] == 10 && buf[i + 1] == 10
}

/// Where the first event of `buf` ends: the first blank line from `i` on.
pub open spec fn boundary_from(buf: Seq<u8>, i: int) -> Option<int>
    decreases buf.len() - i,
{
    if i < 0 || i + 1 >= buf.len() {
        None
    } else if blank_line_at(buf, i) {
        Some(i)
    } else {
        boundary_from(buf, i + 1)
    }
}

/// Where the first event of `buf` ends, if it does: at the first blank line.
pub fn find_event_boundary(buf: &[u8]) -> (r: Option<usize>)
    ensures
        match r {
            Some(i) => boundary_from(buf@, 0) == Some(i as int) && blank_line_at(buf@, i as int),
            None => boundary_from(buf@, 0) is None,
        },
{
    let mut i: usize = 0;
    if buf.len() < 2 {
        return None;
    }
    let last: usize = buf.len() - 1;
    while i < last
        invariant
            last == buf@.len() - 1,
            i <= last,
            boundary_from(buf@, 0) == boundary_from(buf@, i as int),
        decreases last - i,
    {
        if buf[i] == 10 && buf[i + 1] == 10 {
            return Some(i);
        }
        i += 1;
    }
    None
}

/// The first blank line is at `i`, and there is none before.
pub proof fn law_boundary_is_first(buf: Seq<u8>, from: int)
    requires
        0 <= from,
    ensures
        match boundary_from(buf, from) {
            Some(i) => from <= i && blank_line_at(buf, i) && forall|j: int|
                from <= j < i ==> !#[trigger] blank_line_at(buf, j),
            None => forall|j: int| from <= j ==> !#[trigger] blank_line_at(buf, j),
        },
    decreases buf.len() - from,
{
    if from + 1 < buf.len() && !blank_line_at(buf, from) {
        law_boundary_is_first(buf, from + 1);
    }
}

/// Where the line that starts at `i` ends: at the next line feed, or at the end.
pub open spec fn line_end(event: Seq<u8>, i: int) -> int
    decreases event.len() - i,
{
    if i < 0 || i >= event.len() || event[i] == 10 {
        i
    } else {
        line_end(event, i + 1)
    }
}

/// `event:`
pub open spec fn event_field() -> Seq<u8> {
    seq![101u8, 118, 101, 110, 116, 58]
}

/// A line that names the event.
pub open spec fn names_event(line: Seq<u8>) -> bool {
    line.len() >= 6 && line.take(6) == event_field()
}

/// The name that the lines from `i` on give the event: that of the first line
/// that names it, if it is UTF-8.
pub open spec fn name_from(event: Seq<u8>, i: int) -> Option<Seq<char>>
    decreases event.len() + 1 - i,
{
    if i < 0 || i > event.len() {
        None
    } else {
        let end = line_end(event, i);
        let line = event.subrange(i, end);
        if names_event(line) {
            let rest = line.skip(6);
            if valid_utf8(rest) {
                Some(trimmed(decode_utf8(rest)))
            } else {
                None
            }
        } else if i <= end < event.len() {
            name_from(event, end + 1)
        } else {
            None
        }
    }
}

/// The name of an event.
pub fn event_name(event: &[u8]) -> (r: Option<String>)
    ensures
        opt_view(r) == name_from(event@, 0),
{
    let mut start: usize = 0;
    let len: usize = event.len();
    let mut more = true;
    while more
        invariant
            len == event@.len(),
            more ==> start <= len && name_from(event@, 0) == name_from(event@, start as int),
            !more ==> name_from(event@, 0) is None,
        decreases
            (if more {
                len + 1 - start
            } else {
                0
            }),
    {
        let mut end: usize = start;
        while end < len && event[end] != 10
            invariant
                len == event@.len(),
                start <= end <= len,
                line_end(event@, start as int) == line_end(event@, end as int),
            decreases len - end,
        {
            end += 1;
        }
        let ghost line = event@.subrange(start as int, end as int);
        if end - start >= 6 && event[start] == 101 && event[start + 1] == 118 && event[start + 2]
            == 101 && event[start + 3] == 110 && event[start + 4] == 116 && event[start + 5]
            == 58 {
            assert(line.take(6) =~= event_field());
            let rest = vstd::slice::slice_subrange(event, start + 6, end);
            assert(rest@ =~= line.skip(6));
            return match from_utf8(rest) {
                Some(text) => Some(trim(text.as_str())),
                None => None,
            };
        }
        proof {
            if names_event(line) {
                let head = line.take(6);
                assert(head[0] == 101 && head[1] == 118 && head[2] == 101 && head[3] == 110
                    && head[4] == 116 && head[5] == 58);
                assert(head[0] == event@[start as int]);
                assert(head[1] == event@[start + 1]);
                assert(head[2] == event@[start + 2]);
                assert(head[3] == event@[start + 3]);
                assert(head[4] == event@[start + 4]);
                assert(head[5] == event@[start + 5]);
            }
        }
        if end == len {
            more = false;
        } else {
            start = end + 1;
        }
    }
    None
}

/// The event wakes the delta pull.
pub open spec fn wakes(event: Seq<u8>) -> bool {
    name_from(event, 0) == Some("changed"@)
}

/// Takes the finished events off `buf`: what is left, and how many of them wake
/// the delta pull.
pub open spec fn consumed(buf: Seq<u8>) -> (Seq<u8>, nat)
    decreases buf.len(),
{
    match boundary_from(buf, 0) {
        Some(i) => if 0 <= i && i + 2 <= buf.len() {
            let (rest, n) = consumed(buf.skip(i + 2));
            (
                rest,
                if wakes(buf.take(i + 2)) {
                    n + 1
                } else {
                    n
                },
            )
        } else {
            (buf, 0)
        },
        None => (buf, 0),
    }
}

/// What is kept of `buf` when `bytes` follow it, and how many events wake the
/// delta pull. An event that grows without end is dropped.
pub open spec fn fed(buf: Seq<u8>, bytes: Seq<u8>) -> (Seq<u8>, int) {
    let (rest, n) = consumed(buf + bytes);
    (
        if rest.len() > MAX_BUFFER {
            Seq::empty()
        } else {
            rest
        },
        n as int,
    )
}

/// The bytes of the stream that are not consumed yet.
#[derive(Debug)]
pub struct EventBuffer {
    buf: Vec<u8>,
}

impl View for EventBuffer {
    type V = Seq<u8>;

    closed spec fn view(&self) -> Seq<u8> {
        self.buf@
    }
}

impl EventBuffer {
    pub fn new() -> (r: Self)
        ensures
            r@.len() == 0,
    {
        EventBuffer { buf: Vec::new() }
    }

    /// Takes in bytes of the stream. Returns how many of the events that they
    /// finish wake the delta pull. An event that grows without end is dropped.
    pub fn feed(&mut self, bytes: &[u8]) -> (r: usize)
        ensures
            ({
                let (rest, n) = consumed(old(self)@ + bytes@);
                &&& r == n
                &&& final(self)@ == (if rest.len() > MAX_BUFFER {
                    Seq::empty()
                } else {
                    rest
                })
            }),
            (final(self)@, r as int) == fed(old(self)@, bytes@),
    {
        let ghost all = self.buf@ + bytes@;
        self.buf.extend_from_slice(bytes);
        assert(self.buf@ =~= all);
        let total: usize = self.buf.len();
        let mut count: usize = 0;
        let mut more = true;
        while more
            invariant
                total == all.len(),
                self.buf@.len() + count <= total,
                consumed(all).0 == consumed(self.buf@).0,
                consumed(all).1 == count + consumed(self.buf@).1,
                !more ==> boundary_from(self.buf@, 0) is None,
            decreases
                self.buf@.len(),
                (if more {
                    1int
                } else {
                    0int
                }),
        {
            let ghost before = self.buf@;
            match find_event_boundary(self.buf.as_slice()) {
                Some(i) => {
                    let event = vstd::slice::slice_to_vec(
                        vstd::slice::slice_subrange(self.buf.as_slice(), 0, i + 2),
                    );
                    assert(event@ =~= before.take(i + 2));
                    let rest = vstd::slice::slice_to_vec(
                        vstd::slice::slice_subrange(self.buf.as_slice(), i + 2, self.buf.len()),
                    );
                    assert(rest@ =~= before.skip(i + 2));
                    self.buf = rest;
                    match event_name(event.as_slice()) {
                        Some(name) => {
                            if same_text(name.as_str(), "changed") {
                                count += 1;
                            }
                        },
                        None => {},
                    }
                },
                None => {
                    more = false;
                },
            }
        }
        if self.buf.len() > MAX_BUFFER {
            self.buf.clear();
        }
        count
    }
}

// ── Reconnecting ────────────────────────────────────────────────────────────

/// Why an open stream ended.
#[derive(Debug, Clone, Copy, PartialEq, Eq, Structural)]
pub enum StreamEnd {
    Shutdown,
    Closed,
    Idle,
    Error,
}

/// What happened to the stream.
#[derive(Debug, Clone, Copy, PartialEq, Eq, Structural)]
pub enum StreamEvent {
    /// It was opened.
    Connected,
    /// It was open and ended.
    Ended(StreamEnd),
    /// The server has no such stream.
    NoRoute,
    /// It could not be opened.
    Failed,
}

/// What is to be done about it.
#[derive(Debug, Clone, Copy, PartialEq, Eq, Structural)]
pub enum StreamAction {
    /// Wake the delta pull, for what changed meanwhile, and listen.
    Listen,
    /// Wait this many seconds, then connect again.
    Reconnect(u64),
    /// Stop for good.
    Stop,
}

/// The state of the reconnect loop: how long the next wait is.
#[derive(Debug, Clone, Copy, PartialEq, Eq, Structural)]
pub struct StreamLoop {
    pub backoff_secs: u64,
}

/// The wait after a wait: twice as long, up to a minute.
pub open spec fn next_backoff(secs: u64) -> u64 {
    if secs * 2 > BACKOFF_MAX_SECS {
        BACKOFF_MAX_SECS
    } else {
        (secs * 2) as u64
    }
}

/// The reconnect loop after an event.
pub open spec fn stream_stepped(s: StreamLoop, e: StreamEvent) -> (StreamLoop, StreamAction) {
    match e {
        StreamEvent::Connected => (
            StreamLoop { backoff_secs: BACKOFF_MIN_SECS },
            StreamAction::Listen,
        ),
        StreamEvent::NoRoute => (s, StreamAction::Stop),
        StreamEvent::Ended(StreamEnd::Shutdown) => (s, StreamAction::Stop),
        _ => (
            StreamLoop { backoff_secs: next_backoff(s.backoff_secs) },
            StreamAction::Reconnect(s.backoff_secs),
        ),
    }
}

impl StreamLoop {
    pub fn new() -> (r: Self)
        ensures
            r.backoff_secs == BACKOFF_MIN_SECS,
    {
        StreamLoop { backoff_secs: BACKOFF_MIN_SECS }
    }

    /// Decides what is to be done about an event.
    pub fn step(&mut self, e: StreamEvent) -> (r: StreamAction)
        ensures
            (*final(self), r) == stream_stepped(*old(self), e),
    {
        match e {
            StreamEvent::Connected => {
                self.backoff_secs = BACKOFF_MIN_SECS;
                StreamAction::Listen
            },
            StreamEvent::NoRoute => StreamAction::Stop,
            StreamEvent::Ended(StreamEnd::Shutdown) => StreamAction::Stop,
            _ => {
                let wait: u64 = self.backoff_secs;
                self.backoff_secs = if wait > BACKOFF_MAX_SECS / 2 {
                    BACKOFF_MAX_SECS
                } else {
                    wait * 2
                };
                StreamAction::Reconnect(wait)
            },
        }
    }
}

// ── Laws ────────────────────────────────────────────────────────────────────

/// It does not matter how the stream is cut: feeding two pieces wakes as often
/// as feeding them at once, and leaves the same.
pub proof fn law_events_survive_any_cut(a: Seq<u8>, b: Seq<u8>)
    ensures
        consumed(consumed(a).0 + b).0 == consumed(a + b).0,
        consumed(a).1 + consumed(consumed(a).0 + b).1 == consumed(a + b).1,
    decreases a.len(),
{
    law_boundary_is_first(a, 0);
    match boundary_from(a, 0) {
        None => {},
        Some(i) => {
            let rest = a.skip(i + 2);
            law_events_survive_any_cut(rest, b);
            law_boundary_is_first(a + b, 0);
            assert(blank_line_at(a + b, i));
            assert(boundary_from(a + b, 0) == Some(i)) by {
                let j = boundary_from(a + b, 0)->0;
                assert(blank_line_at(a + b, j));
                if j < i {
                    assert(blank_line_at(a, j));
                }
            }
            assert((a + b).skip(i + 2) =~= rest + b);
            assert((a + b).take(i + 2) =~= a.take(i + 2));
        },
    }
}

/// The wait between two attempts stays between a second and a minute.
pub proof fn law_backoff_stays_in_range(s: StreamLoop, e: StreamEvent)
    requires
        BACKOFF_MIN_SECS <= s.backoff_secs <= BACKOFF_MAX_SECS,
    ensures
        BACKOFF_MIN_SECS <= stream_stepped(s, e).0.backoff_secs <= BACKOFF_MAX_SECS,
        stream_stepped(s, e).1 matches StreamAction::Reconnect(n) ==> BACKOFF_MIN_SECS <= n
            <= BACKOFF_MAX_SECS,
{
}

/// The name of the field that names an event is spelled out.
pub proof fn law_event_field_is_spelled()
    ensures
        event_field() == "event:"@.map_values(|c: char| c as u8),
{
    reveal_strlit("event:");
    assert(event_field() =~= "event:"@.map_values(|c: char| c as u8));
}

proof fn lemma_line_end(a: Seq<u8>, line: Seq<u8>, rest: Seq<u8>, i: int)
    requires
        !line.contains(10),
        0 <= i <= line.len(),
        rest.len() == 0 || rest[0] == 10,
    ensures
        line_end(a + line + rest, a.len() + i) == a.len() + line.len(),
    decreases line.len() - i,
{
    let e = a + line + rest;
    if i < line.len() {
        assert(e[a.len() + i] == line[i]);
        assert(line.contains(line[i]));
        lemma_line_end(a, line, rest, i + 1);
    } else if rest.len() > 0 {
        assert(e[a.len() + i] == rest[0]);
    }
}

/// An event has the name in the line that names it, without the space around it,
/// whatever follows.
pub proof fn law_event_is_named(value: Seq<u8>, rest: Seq<u8>)
    requires
        !value.contains(10),
        valid_utf8(value),
    ensures
        name_from(event_field() + value + seq![10u8] + rest, 0) == Some(
            trimmed(decode_utf8(value)),
        ),
{
    let line = event_field() + value;
    let tail = seq![10u8] + rest;
    let none = Seq::<u8>::empty();
    assert(!line.contains(10)) by {
        if line.contains(10) {
            let k = choose|k: int| 0 <= k < line.len() && line[k] == 10;
            if k >= 6 {
                assert(value[k - 6] == 10);
            }
        }
    }
    lemma_line_end(none, line, tail, 0);
    let event = event_field() + value + seq![10u8] + rest;
    assert(event =~= none + line + tail);
    assert(event.subrange(0, line.len() as int) =~= line);
    assert(line.take(6) =~= event_field());
    assert(line.skip(6) =~= value);
}

proof fn lemma_line_end_shift(a: Seq<u8>, rest: Seq<u8>, i: int)
    requires
        0 <= i,
    ensures
        line_end(a + rest, a.len() + i) == a.len() + line_end(rest, i),
        i <= line_end(rest, i),
        i <= rest.len() ==> line_end(rest, i) <= rest.len(),
    decreases rest.len() - i,
{
    if i < rest.len() {
        assert((a + rest)[a.len() + i] == rest[i]);
        if rest[i] != 10 {
            lemma_line_end_shift(a, rest, i + 1);
        }
    }
}

proof fn lemma_name_shift(a: Seq<u8>, rest: Seq<u8>, i: int)
    requires
        0 <= i,
    ensures
        name_from(a + rest, a.len() + i) == name_from(rest, i),
    decreases rest.len() + 1 - i,
{
    if i <= rest.len() {
        lemma_line_end_shift(a, rest, i);
        let end = line_end(rest, i);
        assert((a + rest).subrange(a.len() + i, a.len() + end) =~= rest.subrange(i, end));
        if end < rest.len() {
            lemma_name_shift(a, rest, end + 1);
        }
    }
}

/// A line that does not begin with the name of the field has no part in the name
/// of the event.
pub proof fn law_other_lines_name_nothing(line: Seq<u8>, rest: Seq<u8>)
    requires
        !line.contains(10),
        line.len() < 6 || line.take(6) != event_field(),
    ensures
        name_from(line + seq![10u8] + rest, 0) == name_from(rest, 0),
{
    let none = Seq::<u8>::empty();
    let a = line + seq![10u8];
    let event = a + rest;
    lemma_line_end(none, line, seq![10u8] + rest, 0);
    assert(event =~= none + line + (seq![10u8] + rest));
    assert(event.subrange(0, line.len() as int) =~= line);
    lemma_name_shift(a, rest, 0);
}

/// A finished event is taken off the front. It wakes the delta pull exactly where
/// its name is `changed`.
pub proof fn law_changed_event_wakes(event: Seq<u8>, rest: Seq<u8>)
    requires
        event.len() >= 2,
        blank_line_at(event, event.len() - 2),
        forall|j: int| 0 <= j < event.len() - 2 ==> !#[trigger] blank_line_at(event, j),
    ensures
        consumed(event + rest).0 == consumed(rest).0,
        consumed(event + rest).1 == consumed(rest).1 + (if name_from(event, 0) == Some(
            "changed"@,
        ) {
            1nat
        } else {
            0
        }),
{
    let all = event + rest;
    let i = event.len() - 2;
    law_boundary_is_first(all, 0);
    assert(blank_line_at(all, i));
    assert(boundary_from(all, 0) == Some(i)) by {
        let j = boundary_from(all, 0)->0;
        assert(blank_line_at(all, j));
        if j < i {
            assert(blank_line_at(event, j));
        }
    }
    assert(all.skip(i + 2) =~= rest);
    assert(all.take(i + 2) =~= event);
}

/// What is not finished is kept, and wakes nothing.
pub proof fn law_unfinished_event_is_kept(buf: Seq<u8>)
    requires
        forall|j: int| !#[trigger] blank_line_at(buf, j),
    ensures
        consumed(buf) == (buf, 0nat),
{
    law_boundary_is_first(buf, 0);
}

/// A stream that was opened is listened to, and its loss is followed by the
/// shortest wait. Each further failure waits twice as long as the last, up to a
/// minute. Only a shutdown and a server without the stream end the attempts.
pub proof fn law_stream_comes_back(s: StreamLoop, e: StreamEvent, next: StreamEvent)
    ensures
        ({
            let (s1, a1) = stream_stepped(s, e);
            let a2 = stream_stepped(s1, next).1;
            let stops = e == StreamEvent::NoRoute || e == StreamEvent::Ended(StreamEnd::Shutdown);
            &&& a1 is Stop <==> stops
            &&& a1 is Listen <==> e == StreamEvent::Connected
            &&& a2 matches StreamAction::Reconnect(n) ==> {
                &&& e == StreamEvent::Connected ==> n == 1
                &&& a1 matches StreamAction::Reconnect(m) ==> m == s.backoff_secs && n == (if 2 * m
                    < 60 {
                    2 * m
                } else {
                    60
                })
            }
        }),
{
}

/// However the stream is cut, the same events wake the pull, as long as none of
/// them is longer than the buffer: two pieces that are fed one after the other do
/// what both do at once. What is kept never outgrows the buffer.
pub proof fn law_feeding_loses_nothing(buf: Seq<u8>, a: Seq<u8>, b: Seq<u8>)
    ensures
        fed(buf, a).0.len() <= 65_536,
        consumed(buf + a).0.len() <= 65_536 ==> {
            let (rest, n) = fed(buf, a);
            let (end, m) = fed(rest, b);
            end == fed(buf, a + b).0 && n + m == fed(buf, a + b).1
        },
        consumed(buf + a).0.len() > 65_536 ==> fed(buf, a).0.len() == 0,
{
    law_events_survive_any_cut(buf + a, b);
    assert((buf + a) + b =~= buf + (a + b));
}

} // verus!
