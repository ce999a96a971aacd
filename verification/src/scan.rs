//! The interface scanner's decision logic: one event of the live
//! multicast-probe stream goes in, one action comes out. A reply's
//! responding address sits at a fixed token position of the raw line,
//! followed by one extra trailing character; a newly seen address
//! starts a prober, a duplicate is silently ignored, and the other
//! event kinds are reported or flagged. The event loop itself and the
//! spawned probe tasks are the caller's work.

use crate::text::{drop_last_char, spec_drop_last, spec_token_at, token_at};
use vstd::prelude::*;

verus! {

/// The zero-based position of the responding-address token in a
/// reply's space-delimited raw line.
pub const REPLY_ADDRESS_TOKEN: usize = 3;

/// One event of the live probe stream on one interface.
pub enum PingEvent {
    /// A responder answered; the raw diagnostic line is carried along.
    Reply(String),
    /// One probe went unanswered; listening continues.
    Timeout,
    /// The underlying probe process ended.
    ProcessExited,
    /// An event kind the scanner does not know.
    Unknown,
}

/// What the scan loop does in response to one event.
pub enum ScanAction {
    /// Start one prober task for this newly seen address.
    StartProbe(String),
    /// A duplicate or unparseable reply: nothing to do.
    Ignore,
    /// Report that one probe went unanswered and keep listening.
    ReportTimeout,
    /// Report that the underlying probe process ended and keep listening.
    ReportProcessExited,
    /// An unrecognized event kind: a bug signal, for the caller to
    /// escalate.
    Fatal,
}

/// The responding address of a reply line: the token at the fixed
/// position, its one trailing character stripped; `None` when the line
/// holds too few tokens.
pub open spec fn spec_parse_reply(line: Seq<char>) -> Option<Seq<char>> {
    match spec_token_at(line, REPLY_ADDRESS_TOKEN as nat, ' ') {
        None => None,
        Some(t) => Some(spec_drop_last(t)),
    }
}

/// Per-interface scan state: the candidate addresses for which a
/// prober was already started. Owned by one interface's scan loop
/// alone; first observation of an address wins.
pub struct ScanState {
    seen: Vec<String>,
}

impl View for ScanState {
    type V = Set<Seq<char>>;

    closed spec fn view(&self) -> Set<Seq<char>> {
        Set::new(
            |a: Seq<char>|
                exists|i: int| 0 <= i < self.seen@.len() && (#[trigger] self.seen@[i])@ == a,
        )
    }
}

impl ScanState {
    /// A fresh scan session: no address has been seen yet.
    pub fn new() -> (r: ScanState)
        ensures
            r@ == Set::<Seq<char>>::empty(),
    {
        let r = ScanState { seen: Vec::new() };
        proof {
            assert(r@ =~= Set::<Seq<char>>::empty());
        }
        r
    }

    /// Whether a prober was already started for this address.
    fn contains_addr(&self, addr: &String) -> (r: bool)
        ensures
            r == self@.contains(addr@),
    {
        let mut i: usize = 0;
        while i < self.seen.len()
            invariant
                i <= self.seen@.len(),
                forall|j: int| 0 <= j < i ==> (#[trigger] self.seen@[j])@ != addr@,
            decreases self.seen@.len() - i,
        {
            if self.seen[i] == *addr {
                return true;
            }
            i += 1;
        }
        false
    }

    /// Consumes a whole sequence of probe-stream events in order and
    /// hands back the addresses for which a prober was started, in
    /// the order the scan started them: exactly the addresses that
    /// `spec_scan_starts` records, so each distinct newly seen address
    /// appears exactly once however often it replied.
    pub fn observe_all(&mut self, events: Vec<PingEvent>) -> (started: Vec<String>)
        ensures
            started@.map_values(|s: String| s@) == spec_scan_starts(old(self)@, events@),
    {
        let ghost seen0 = old(self)@;
        let ghost events0 = events@;
        let mut events = events;
        let mut started: Vec<String> = Vec::new();
        proof {
            assert(started@.map_values(|s: String| s@) =~= Seq::<Seq<char>>::empty());
        }
        while events.len() > 0
            invariant
                spec_scan_starts(seen0, events0) == started@.map_values(|s: String| s@)
                    + spec_scan_starts(self@, events@),
            decreases events@.len(),
        {
            let ghost pre_seen = self@;
            let ghost pre_events = events@;
            let ghost pre_started = started@;
            let event = events.remove(0);
            proof {
                assert(events@ =~= pre_events.drop_first());
                assert(pre_events[0] == event);
            }
            match self.observe(event) {
                ScanAction::StartProbe(addr) => {
                    started.push(addr);
                    proof {
                        assert(started@.map_values(|s: String| s@) =~= pre_started.map_values(
                            |s: String| s@,
                        ).push(started@.last()@));
                        assert(spec_scan_starts(pre_seen, pre_events) =~= seq![started@.last()@]
                            + spec_scan_starts(self@, events@));
                        assert(pre_started.map_values(|s: String| s@) + spec_scan_starts(
                            pre_seen,
                            pre_events,
                        ) =~= started@.map_values(|s: String| s@) + spec_scan_starts(
                            self@,
                            events@,
                        ));
                    }
                },
                _ => {
                    proof {
                        assert(spec_scan_starts(pre_seen, pre_events) == spec_scan_starts(
                            self@,
                            events@,
                        ));
                    }
                },
            }
        }
        proof {
            assert(events@ =~= Seq::<PingEvent>::empty());
            assert(spec_scan_starts(self@, events@) =~= Seq::<Seq<char>>::empty());
            assert(started@.map_values(|s: String| s@) + Seq::<Seq<char>>::empty()
                =~= started@.map_values(|s: String| s@));
        }
        started
    }

    /// Consumes one event of the probe stream. A reply bearing an
    /// address not yet seen marks it seen and starts a prober; a
    /// duplicate or unparseable reply is ignored; timeouts and a probe
    /// process's exit are reported and the scan continues; an
    /// unrecognized event kind is flagged as fatal. Nothing but a
    /// first-seen address changes the state.
    pub fn observe(&mut self, event: PingEvent) -> (action: ScanAction)
        ensures
            match event {
                PingEvent::Reply(line) => match spec_parse_reply(line@) {
                    None => final(self)@ == old(self)@ && action == ScanAction::Ignore,
                    Some(a) => {
                        if old(self)@.contains(a) {
                            final(self)@ == old(self)@ && action == ScanAction::Ignore
                        } else {
                            &&& final(self)@ == old(self)@.insert(a)
                            &&& action matches ScanAction::StartProbe(started)
                            &&& started@ == a
                        }
                    },
                },
                PingEvent::Timeout => final(self)@ == old(self)@ && action
                    == ScanAction::ReportTimeout,
                PingEvent::ProcessExited => final(self)@ == old(self)@ && action
                    == ScanAction::ReportProcessExited,
                PingEvent::Unknown => final(self)@ == old(self)@ && action == ScanAction::Fatal,
            },
    {
        match event {
            PingEvent::Reply(line) => {
                match parse_reply_address(line.as_str()) {
                    None => ScanAction::Ignore,
                    Some(addr) => {
                        if self.contains_addr(&addr) {
                            ScanAction::Ignore
                        } else {
                            let ghost pre = self@;
                            let ghost pre_seen = self.seen@;
                            self.seen.push(addr.clone());
                            proof {
                                assert forall|x: Seq<char>|
                                    pre.insert(addr@).contains(x) implies self@.contains(x) by {
                                    if x == addr@ {
                                        assert((self.seen@[pre_seen.len() as int])@ == x);
                                    } else {
                                        let i = choose|i: int|
                                            0 <= i < pre_seen.len() && (#[trigger] pre_seen[i])@
                                                == x;
                                        assert((self.seen@[i])@ == x);
                                    }
                                }
                                assert forall|x: Seq<char>|
                                    self@.contains(x) implies pre.insert(addr@).contains(x) by {
                                    let i = choose|i: int|
                                        0 <= i < self.seen@.len() && (#[trigger] self.seen@[i])@
                                            == x;
                                    if i < pre_seen.len() {
                                        assert((pre_seen[i])@ == x);
                                    }
                                }
                                assert(self@ =~= pre.insert(addr@));
                            }
                            ScanAction::StartProbe(addr)
                        }
                    },
                }
            },
            PingEvent::Timeout => ScanAction::ReportTimeout,
            PingEvent::ProcessExited => ScanAction::ReportProcessExited,
            PingEvent::Unknown => ScanAction::Fatal,
        }
    }
}

/// The addresses for which a prober is started, in order, when a scan
/// session whose seen set is `seen` consumes `events` one by one: each
/// reply whose address parses and was not seen before starts exactly
/// one prober and marks the address seen; every other event starts
/// none.
pub open spec fn spec_scan_starts(seen: Set<Seq<char>>, events: Seq<PingEvent>) -> Seq<Seq<char>>
    decreases events.len(),
{
    if events.len() == 0 {
        Seq::empty()
    } else {
        let rest = events.drop_first();
        match events[0] {
            PingEvent::Reply(line) => match spec_parse_reply(line@) {
                Some(a) => if !seen.contains(a) {
                    seq![a] + spec_scan_starts(seen.insert(a), rest)
                } else {
                    spec_scan_starts(seen, rest)
                },
                None => spec_scan_starts(seen, rest),
            },
            _ => spec_scan_starts(seen, rest),
        }
    }
}

/// Whether some event of `events` is a reply whose line parses to the
/// address `a`.
pub open spec fn spec_has_reply_for(events: Seq<PingEvent>, a: Seq<char>) -> bool {
    exists|i: int|
        0 <= i < events.len() && ((#[trigger] events[i]) matches PingEvent::Reply(line)
            && spec_parse_reply(line@) == Some(a))
}

/// A reply for `a` stands in `events` exactly when the first event is
/// such a reply or one stands in the rest.
proof fn lemma_has_reply_shift(events: Seq<PingEvent>, a: Seq<char>)
    requires
        events.len() > 0,
    ensures
        spec_has_reply_for(events, a) <==> ((events[0] matches PingEvent::Reply(line)
            && spec_parse_reply(line@) == Some(a)) || spec_has_reply_for(
            events.drop_first(),
            a,
        )),
{
    let rest = events.drop_first();
    if spec_has_reply_for(events, a) {
        let i = choose|i: int|
            0 <= i < events.len() && ((#[trigger] events[i]) matches PingEvent::Reply(line)
                && spec_parse_reply(line@) == Some(a));
        if i > 0 {
            assert(rest[i - 1] == events[i]);
            assert(spec_has_reply_for(rest, a));
        }
    }
    if spec_has_reply_for(rest, a) {
        let i = choose|i: int|
            0 <= i < rest.len() && ((#[trigger] rest[i]) matches PingEvent::Reply(line)
                && spec_parse_reply(line@) == Some(a));
        assert(events[i + 1] == rest[i]);
        assert(spec_has_reply_for(events, a));
    }
}

/// Idempotent deduplication, for any event sequence and any starting
/// seen set: the started addresses hold no duplicate, an address
/// already seen is never started, and an address is started exactly
/// when some reply of the sequence parses to it and it was not seen
/// before — one prober per distinct address, independent of arrival
/// order, and at most one however often an address replies.
pub proof fn lemma_starts_deduplicated(seen: Set<Seq<char>>, events: Seq<PingEvent>)
    ensures
        spec_scan_starts(seen, events).no_duplicates(),
        forall|a: Seq<char>|
            #[trigger] spec_scan_starts(seen, events).contains(a) <==> (!seen.contains(a)
                && spec_has_reply_for(events, a)),
    decreases events.len(),
{
    let starts = spec_scan_starts(seen, events);
    if events.len() == 0 {
        assert(forall|a: Seq<char>| !spec_has_reply_for(events, a));
        assert(forall|a: Seq<char>| !starts.contains(a));
    } else {
        let rest = events.drop_first();
        assert(forall|a: Seq<char>|
            spec_has_reply_for(events, a) <==> ((events[0] matches PingEvent::Reply(line)
                && spec_parse_reply(line@) == Some(a)) || spec_has_reply_for(rest, a))) by {
            assert forall|a: Seq<char>| true implies (spec_has_reply_for(events, a) <==> ((
            events[0] matches PingEvent::Reply(line) && spec_parse_reply(line@) == Some(a))
                || spec_has_reply_for(rest, a))) by {
                lemma_has_reply_shift(events, a);
            }
        }
        match events[0] {
            PingEvent::Reply(line) => match spec_parse_reply(line@) {
                Some(b) => {
                    if !seen.contains(b) {
                        lemma_starts_deduplicated(seen.insert(b), rest);
                        let tail = spec_scan_starts(seen.insert(b), rest);
                        assert(starts == seq![b] + tail);
                        assert(!tail.contains(b));
                        assert forall|i: int, j: int|
                            0 <= i < j < starts.len() implies starts[i] != starts[j] by {
                            if i == 0 {
                                assert(starts[j] == tail[j - 1]);
                                assert(tail.contains(tail[j - 1]));
                            } else {
                                assert(starts[i] == tail[i - 1]);
                                assert(starts[j] == tail[j - 1]);
                            }
                        }
                        assert forall|a: Seq<char>| #[trigger] starts.contains(a) implies (
                        !seen.contains(a) && spec_has_reply_for(events, a)) by {
                            let i = choose|i: int| 0 <= i < starts.len() && starts[i] == a;
                            if i == 0 {
                            } else {
                                assert(tail[i - 1] == a);
                                assert(tail.contains(a));
                            }
                        }
                        assert forall|a: Seq<char>|
                            !seen.contains(a) && spec_has_reply_for(events, a) implies #[trigger]
                        starts.contains(a) by {
                            if a == b {
                                assert(starts[0] == a);
                            } else {
                                assert(tail.contains(a));
                                let i = choose|i: int| 0 <= i < tail.len() && tail[i] == a;
                                assert(starts[i + 1] == a);
                            }
                        }
                    } else {
                        lemma_starts_deduplicated(seen, rest);
                    }
                },
                None => {
                    lemma_starts_deduplicated(seen, rest);
                },
            },
            PingEvent::Timeout => {
                lemma_starts_deduplicated(seen, rest);
            },
            PingEvent::ProcessExited => {
                lemma_starts_deduplicated(seen, rest);
            },
            PingEvent::Unknown => {
                lemma_starts_deduplicated(seen, rest);
            },
        }
    }
}

/// Over one interface's whole scan session, begun with nothing seen:
/// exactly one prober is started for every address that some reply
/// parses to — at least one because it is started, at most one because
/// the started addresses hold no duplicate — and none for any other.
pub proof fn lemma_one_prober_per_address(events: Seq<PingEvent>)
    ensures
        spec_scan_starts(Set::empty(), events).no_duplicates(),
        forall|a: Seq<char>|
            #[trigger] spec_scan_starts(Set::empty(), events).contains(a) <==> spec_has_reply_for(
                events,
                a,
            ),
{
    lemma_starts_deduplicated(Set::empty(), events);
}

/// Parses the responding address out of a reply's raw line: the token
/// at the fixed position with its one trailing character stripped, or
/// `None` when the line holds too few tokens.
pub fn parse_reply_address(line: &str) -> (r: Option<String>)
    ensures
        match r {
            Some(a) => spec_parse_reply(line@) == Some(a@),
            None => spec_parse_reply(line@) is None,
        },
{
    match token_at(line, REPLY_ADDRESS_TOKEN, ' ') {
        None => None,
        Some(t) => Some(drop_last_char(t.as_str())),
    }
}

} // verus!
