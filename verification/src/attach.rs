//! Enabling the serial folder source of a node.
//!
//! The node acknowledges the enable command with a line of text. It may ask for containers before
//! it does, and those requests must be served during the handshake. A lost first command is sent
//! again only until binary framing appears; after that, sending text would be unsafe. All times are
//! nanoseconds of one clock.
use vstd::prelude::*;
use vstd::string::*;

use crate::stream::{
    first_outcome, in_frame, law_begun_frame_ends, LinkEvent, PumpEvent, StreamView,
};
use crate::text::{dec, push_dec, starts_with};

verus! {

/// How long and how often to try.
#[derive(Clone, Copy, Debug, PartialEq, Eq, Structural)]
pub struct AttachPolicy {
    /// The wait before the first command.
    pub settle: u64,
    /// The wait before the command is sent again.
    pub retry_after: u64,
    /// How long to wait for the acknowledgement in all.
    pub timeout: u64,
    pub max_attempts: usize,
}

impl Default for AttachPolicy {
    fn default() -> (r: AttachPolicy)
        ensures
            r.settle == 750_000_000,
            r.retry_after == 2_000_000_000,
            r.timeout == 12_000_000_000,
            r.max_attempts == 3,
    {
        AttachPolicy {
            settle: 750_000_000,
            retry_after: 2_000_000_000,
            timeout: 12_000_000_000,
            max_attempts: 3,
        }
    }
}

/// Why the folder source could not be enabled.
#[derive(Clone, Debug, PartialEq, Eq)]
pub enum AttachError {
    InterruptedBefore,
    Interrupted,
    /// No acknowledgement after this many attempts.
    TimedOut(usize),
    Closed,
    /// The node's refusal.
    Rejected(String),
}

impl AttachError {
    /// The message of the error.
    pub open spec fn message(self) -> Seq<char> {
        match self {
            AttachError::InterruptedBefore =>
                "interrupted before enabling the serial folder source"@,
            AttachError::Interrupted => "interrupted while enabling the serial folder source"@,
            AttachError::TimedOut(attempts) =>
                "timed out waiting for `OK folder attached` after "@ + dec(attempts as int)
                + " enable attempt"@ + if attempts == 1 {
                ""@
            } else {
                "s"@
            },
            AttachError::Closed => "serial link closed while enabling the folder source"@,
            AttachError::Rejected(reply) => "node rejected `ota folder on`: "@ + reply@,
        }
    }

    /// Writes the error's message.
    pub fn to_string(&self) -> (s: String)
        ensures
            s@ == self.message(),
    {
        match self {
            AttachError::InterruptedBefore => String::from_str(
                "interrupted before enabling the serial folder source",
            ),
            AttachError::Interrupted => String::from_str(
                "interrupted while enabling the serial folder source",
            ),
            AttachError::TimedOut(attempts) => {
                let mut s = String::from_str("timed out waiting for `OK folder attached` after ");
                push_dec(&mut s, *attempts as u64);
                s.append(" enable attempt");
                s.append(
                    if *attempts == 1 {
                        ""
                    } else {
                        "s"
                    },
                );
                s
            },
            AttachError::Closed => String::from_str(
                "serial link closed while enabling the folder source",
            ),
            AttachError::Rejected(reply) => {
                let mut s = String::from_str("node rejected `ota folder on`: ");
                s.append(reply.as_str());
                s
            },
        }
    }
}

/// A console line without the marker that dedicated consoles put before command replies.
pub open spec fn console_reply(line: Seq<char>) -> Seq<char> {
    if "  -> "@.is_prefix_of(line) {
        line.skip("  -> "@.len() as int)
    } else {
        line
    }
}

/// Whether a line is the prefix, alone or followed by a space or a colon.
pub open spec fn is_reply(line: Seq<char>, prefix: Seq<char>) -> bool {
    prefix.is_prefix_of(line) && (line.len() == prefix.len() || line[prefix.len() as int] == ' '
        || line[prefix.len() as int] == ':')
}

/// Whether a reply acknowledges the enable command.
pub open spec fn acknowledges(reply: Seq<char>) -> bool {
    is_reply(reply, "OK folder attached"@) || is_reply(reply, "OK folder refreshed"@)
}

fn has_reply_prefix(line: &str, prefix: &str) -> (r: bool)
    ensures
        r == is_reply(line@, prefix@),
{
    if !starts_with(line, prefix) {
        return false;
    }
    let n: usize = prefix.unicode_len();
    if line.unicode_len() == n {
        return true;
    }
    let c: char = line.get_char(n);
    c == ' ' || c == ':'
}

/// Dedicated consoles render command replies with a marker; a companion's USB mode emits the reply
/// bare. Either is accepted, without looking for a reply inside other text.
pub fn normalize_console_reply(line: &str) -> (r: &str)
    ensures
        r@ == console_reply(line@),
{
    if starts_with(line, "  -> ") {
        proof {
            reveal_strlit("  -> ");
        }
        let r = line.substring_char(5, line.unicode_len());
        assert(r@ =~= console_reply(line@));
        r
    } else {
        line
    }
}

/// Whether a reply acknowledges the enable command.
pub fn is_attach_ok(reply: &str) -> (r: bool)
    ensures
        r == acknowledges(reply@),
{
    has_reply_prefix(reply, "OK folder attached") || has_reply_prefix(reply, "OK folder refreshed")
}

/// Whether a reply refuses the enable command: `ERR` alone or followed by a space or a colon.
pub fn is_attach_err(reply: &str) -> (r: bool)
    ensures
        r == is_reply(reply@, "ERR"@),
{
    has_reply_prefix(reply, "ERR")
}

/// Something that happened on the link.
pub enum AttachEvent<'a> {
    /// A byte, or a timeout of the link: nothing complete.
    Quiet,
    /// A binary frame of the seeder protocol, damaged or not.
    Frame,
    /// A line of device text.
    Line(&'a str),
    Closed,
}

/// A handshake under way.
#[derive(Clone, Copy, Debug, PartialEq, Eq, Structural)]
pub struct Attach {
    pub policy: AttachPolicy,
    /// How often the enable command was sent.
    pub attempts: usize,
    /// When it may be sent again.
    pub retry_at: u64,
    pub deadline: u64,
    /// Whether binary framing was seen.
    pub protocol_seen: bool,
}

/// The sum of two times, held at the end of the clock.
pub open spec fn later(a: u64, b: u64) -> u64 {
    if a + b <= u64::MAX {
        (a + b) as u64
    } else {
        u64::MAX
    }
}

impl Attach {
    /// The command was sent at least once and never more often than the policy allows (once, where
    /// it allows none).
    pub open spec fn wf(self) -> bool {
        1 <= self.attempts && (self.attempts == 1 || self.attempts <= self.policy.max_attempts)
    }

    /// Whether the enable command is to be sent again. Never after binary framing was seen, nor
    /// between the two bytes of a request's magic.
    pub open spec fn may_retry(self, now: u64, pending_m: bool) -> bool {
        !self.protocol_seen && !pending_m && self.attempts < self.policy.max_attempts && now
            >= self.retry_at
    }

    /// The handshake after an event of the link.
    pub open spec fn after_event(self, frame: bool) -> Attach {
        Attach { protocol_seen: self.protocol_seen || frame, ..self }
    }

    /// The handshake after the decision whether to send the enable command again.
    pub open spec fn after_retry(self, now: u64, pending_m: bool) -> Attach {
        if self.may_retry(now, pending_m) {
            Attach {
                attempts: (self.attempts + 1) as usize,
                retry_at: later(now, self.policy.retry_after),
                ..self
            }
        } else {
            self
        }
    }

    /// The handshake after its first enable command was sent at `now`.
    pub fn start(policy: AttachPolicy, now: u64) -> (r: Attach)
        ensures
            r.wf(),
            r == (Attach {
                policy,
                attempts: 1,
                retry_at: later(now, policy.retry_after),
                deadline: later(now, policy.timeout),
                protocol_seen: false,
            }),
    {
        Attach {
            policy,
            attempts: 1,
            retry_at: now.saturating_add(policy.retry_after),
            deadline: now.saturating_add(policy.timeout),
            protocol_seen: false,
        }
    }

    /// Whether to go on at `now`: not where the user interrupted or the time is up.
    pub fn check(&self, now: u64, stop: bool) -> (r: Result<(), AttachError>)
        ensures
            match r {
                Ok(_) => !stop && now < self.deadline,
                Err(AttachError::Interrupted) => stop,
                Err(AttachError::TimedOut(n)) => !stop && now >= self.deadline && n
                    == self.attempts,
                Err(_) => false,
            },
    {
        if stop {
            return Err(AttachError::Interrupted);
        }
        if now >= self.deadline {
            return Err(AttachError::TimedOut(self.attempts));
        }
        Ok(())
    }

    /// Takes an event of the link. `Ok(true)` means that the node has acknowledged.
    pub fn on_event(&mut self, event: AttachEvent<'_>) -> (r: Result<bool, AttachError>)
        ensures
            *final(self) == old(self).after_event(event is Frame),
            match event {
                AttachEvent::Quiet => r == Ok::<bool, AttachError>(false),
                AttachEvent::Frame => r == Ok::<bool, AttachError>(false),
                AttachEvent::Closed => r == Err::<bool, AttachError>(AttachError::Closed),
                AttachEvent::Line(line) => {
                    let reply = console_reply(line@);
                    match r {
                        Ok(done) => done == acknowledges(reply) && (done || !is_reply(
                            reply,
                            "ERR"@,
                        )),
                        Err(AttachError::Rejected(text)) => text@ == reply && !acknowledges(reply)
                            && is_reply(reply, "ERR"@),
                        Err(_) => false,
                    }
                },
            },
    {
        match event {
            AttachEvent::Quiet => Ok(false),
            AttachEvent::Frame => {
                self.protocol_seen = true;
                Ok(false)
            },
            AttachEvent::Closed => Err(AttachError::Closed),
            AttachEvent::Line(line) => {
                let reply = normalize_console_reply(line);
                if is_attach_ok(reply) {
                    Ok(true)
                } else if is_attach_err(reply) {
                    Err(AttachError::Rejected(String::from_str(reply)))
                } else {
                    Ok(false)
                }
            },
        }
    }

    /// Takes what an event of the link meant. Every frame counts as binary framing, damaged or not:
    /// once the node has entered it, another text command could corrupt it.
    pub fn on_pump(&mut self, event: &PumpEvent) -> (r: Result<bool, AttachError>)
        ensures
            *final(self) == old(self).after_event(event is Request || event is Malformed),
            match event {
                PumpEvent::Closed => r == Err::<bool, AttachError>(AttachError::Closed),
                PumpEvent::DeviceLine(line) => {
                    let reply = console_reply(line@);
                    match r {
                        Ok(done) => done == acknowledges(reply) && (done || !is_reply(
                            reply,
                            "ERR"@,
                        )),
                        Err(AttachError::Rejected(text)) => text@ == reply && !acknowledges(reply)
                            && is_reply(reply, "ERR"@),
                        Err(_) => false,
                    }
                },
                _ => r == Ok::<bool, AttachError>(false),
            },
    {
        match event {
            PumpEvent::Closed => self.on_event(AttachEvent::Closed),
            PumpEvent::Request(_, _) => self.on_event(AttachEvent::Frame),
            PumpEvent::Malformed => self.on_event(AttachEvent::Frame),
            PumpEvent::DeviceLine(line) => self.on_event(AttachEvent::Line(line.as_str())),
            PumpEvent::Reading => self.on_event(AttachEvent::Quiet),
            PumpEvent::Activity => self.on_event(AttachEvent::Quiet),
            PumpEvent::Timeout => self.on_event(AttachEvent::Quiet),
        }
    }

    /// Whether to send the enable command again at `now`; if so, the attempt is counted.
    pub fn retry(&mut self, now: u64, pending_m: bool) -> (r: bool)
        ensures
            r == old(self).may_retry(now, pending_m),
            *final(self) == old(self).after_retry(now, pending_m),
    {
        if !self.protocol_seen && !pending_m && self.attempts < self.policy.max_attempts && now
            >= self.retry_at {
            self.attempts = self.attempts + 1;
            self.retry_at = now.saturating_add(self.policy.retry_after);
            true
        } else {
            false
        }
    }
}

/// Once binary framing was seen, the text command is never sent again: no event takes the sight of
/// it back, and no later moment allows a retry.
pub proof fn law_no_text_after_framing(a: Attach, frame: bool, now: u64, pending_m: bool)
    requires
        a.protocol_seen || frame,
    ensures
        a.after_event(frame).protocol_seen,
        !a.after_event(frame).may_retry(now, pending_m),
        a.after_event(frame).after_retry(now, pending_m) == a.after_event(frame),
        a.after_event(frame).attempts == a.attempts,
{
}

/// The number of commands that are sent is bounded, they are sent no earlier than the policy's wait
/// apart, and the deadline never moves.
pub proof fn law_attempts_and_wait_bounded(a: Attach, frame: bool, now: u64, pending_m: bool)
    requires
        a.wf(),
    ensures
        a.after_event(frame).wf(),
        a.after_retry(now, pending_m).wf(),
        a.after_event(frame).deadline == a.deadline,
        a.after_retry(now, pending_m).deadline == a.deadline,
        a.attempts <= a.after_retry(now, pending_m).attempts <= a.attempts + 1,
        a.after_retry(now, pending_m).attempts > a.attempts ==> now >= a.retry_at && a.after_retry(
            now,
            pending_m,
        ).retry_at == later(now, a.policy.retry_after),
{
}

/// One round of a handshake: what an event of the link meant, and the moment and stream state at
/// which a retry was then decided on.
pub struct Round {
    pub frame: bool,
    pub now: u64,
    pub pending_m: bool,
}

/// A handshake after any number of rounds.
pub open spec fn after_rounds(a: Attach, rounds: Seq<Round>) -> Attach
    decreases rounds.len(),
{
    if rounds.len() == 0 {
        a
    } else {
        let round = rounds.last();
        after_rounds(a, rounds.drop_last()).after_event(round.frame).after_retry(
            round.now,
            round.pending_m,
        )
    }
}

/// From the moment that binary framing was seen, no number of rounds sends the text command again.
pub proof fn law_no_text_ever_after_framing(a: Attach, rounds: Seq<Round>)
    requires
        a.protocol_seen,
    ensures
        after_rounds(a, rounds) == a,
    decreases rounds.len(),
{
    if rounds.len() > 0 {
        law_no_text_ever_after_framing(a, rounds.drop_last());
    }
}

/// However many rounds a handshake takes, the command is sent no more often than the policy allows,
/// and the deadline stays.
pub proof fn law_attempts_always_bounded(a: Attach, rounds: Seq<Round>)
    requires
        a.wf(),
    ensures
        after_rounds(a, rounds).wf(),
        after_rounds(a, rounds).policy == a.policy,
        after_rounds(a, rounds).deadline == a.deadline,
    decreases rounds.len(),
{
    if rounds.len() > 0 {
        law_attempts_always_bounded(a, rounds.drop_last());
    }
}

/// A frame of a known operation that has begun silences the text command: whatever the link brings,
/// the first thing that comes of it counts as framing, so that no later round sends text.
pub proof fn law_begun_frame_silences_text(
    a: Attach,
    s: StreamView,
    events: Seq<LinkEvent>,
    rounds: Seq<Round>,
)
    requires
        in_frame(s),
        first_outcome(s, events) is Some,
    ensures
        ({
            let (_, event) = first_outcome(s, events)->0;
            let seen = a.after_event(event is Request || event is Malformed);
            &&& seen.protocol_seen
            &&& after_rounds(seen, rounds) == seen
        }),
{
    law_begun_frame_ends(s, events);
    law_no_text_ever_after_framing(a.after_event(true), rounds);
}

/// When the enable command is sent again: exactly where no binary framing was seen, no request is
/// beginning, fewer commands than allowed were sent, and the wait is over. It then counts as sent and
/// the wait starts anew; otherwise nothing changes.
pub proof fn law_retry_when_due(a: Attach, now: u64, pending_m: bool)
    requires
        a.attempts < usize::MAX,
    ensures
        ({
            let due = !a.protocol_seen && !pending_m && a.attempts < a.policy.max_attempts
                && a.retry_at <= now;
            let after = a.after_retry(now, pending_m);
            &&& a.may_retry(now, pending_m) == due
            &&& after.attempts == a.attempts + if due {
                1int
            } else {
                0
            }
            &&& due && now + a.policy.retry_after <= u64::MAX ==> after.retry_at == now
                + a.policy.retry_after
            &&& !due ==> after == a
            &&& after.policy == a.policy && after.deadline == a.deadline && after.protocol_seen
                == a.protocol_seen
        }),
{
}

/// Only a frame is remembered as binary framing, and it is never forgotten.
pub proof fn law_framing_is_remembered(a: Attach, frame: bool)
    ensures
        a.after_event(frame).protocol_seen == (a.protocol_seen || frame),
        a.after_event(frame).attempts == a.attempts,
        a.after_event(frame).retry_at == a.retry_at,
        a.after_event(frame).deadline == a.deadline,
        a.after_event(frame).policy == a.policy,
{
}

/// The sum of two times is exact where the clock can hold it.
pub proof fn law_times_add(a: u64, b: u64)
    ensures
        a + b <= u64::MAX ==> later(a, b) == a + b,
        a + b > u64::MAX ==> later(a, b) == u64::MAX,
{
}

/// What counts as a reply: a phrase alone, or followed by a space or a colon and anything. Followed
/// by another character, or behind other text, it is none.
pub proof fn law_reply_forms(phrase: Seq<char>, c: char, rest: Seq<char>, line: Seq<char>)
    ensures
        is_reply(phrase, phrase),
        is_reply(phrase.push(c) + rest, phrase) <==> c == ' ' || c == ':',
        is_reply(line, phrase) ==> line.len() >= phrase.len() && line.take(phrase.len() as int)
            == phrase,
{
    let longer = phrase.push(c) + rest;
    assert(longer.subrange(0, phrase.len() as int) =~= phrase);
    assert(phrase.subrange(0, phrase.len() as int) =~= phrase);
    assert(longer[phrase.len() as int] == c);
    if is_reply(line, phrase) {
        assert(line.take(phrase.len() as int) =~= phrase);
    }
}

/// The replies that acknowledge are `OK folder attached` and `OK folder refreshed`; the marker
/// `  -> ` before a reply is taken off once, and a line without it is taken as it is.
pub proof fn law_acknowledgement(reply: Seq<char>, line: Seq<char>)
    ensures
        acknowledges(reply) <==> is_reply(reply, "OK folder attached"@) || is_reply(
            reply,
            "OK folder refreshed"@,
        ),
        console_reply("  -> "@ + reply) == reply,
        !"  -> "@.is_prefix_of(line) ==> console_reply(line) == line,
{
    let marked = "  -> "@ + reply;
    assert("  -> "@ =~= marked.subrange(0, "  -> "@.len() as int));
    assert(marked.skip("  -> "@.len() as int) =~= reply);
}

} // verus!
