//! The replay source: it publishes the lines of a recorded file, one after
//! the other, and starts over behind the last.
//!
//! Reading the file and keeping the cadence are the caller's part. What is
//! here cuts the file's bytes into lines and steps through them.

use crate::bytes::copy_range;
use crate::hub::{covers, refused, Delivery, DistributionHub};
use vstd::arithmetic::div_mod::{
    lemma_add_mod_noop_right, lemma_mod_add_multiples_vanish, lemma_mod_self_0, lemma_small_mod,
};
use vstd::prelude::*;
use vstd::utf8::{decode_utf8, valid_utf8};

verus! {

/// The pause between two replayed messages, in milliseconds.
pub const REPLAY_INTERVAL_MS: u64 = 200;

/// The byte that ends a line.
pub const NEWLINE: u8 = 0x0a;

/// The byte that may stand in front of the newline and then belongs to the
/// line's end.
pub const CARRIAGE_RETURN: u8 = 0x0d;

/// The number of bytes in front of the first newline of `s`, or the length
/// of `s` where it has none.
pub open spec fn line_len(s: Seq<u8>) -> int
    decreases s.len(),
{
    if s.len() == 0 || s[0] == NEWLINE {
        0
    } else {
        1 + line_len(s.skip(1))
    }
}

/// A line without the carriage return at its end, if it has one.
pub open spec fn trimmed(line: Seq<u8>) -> Seq<u8> {
    if line.len() > 0 && line.last() == CARRIAGE_RETURN {
        line.drop_last()
    } else {
        line
    }
}

/// The lines of `s`. A line ends with a newline, or with a carriage return
/// and a newline; neither belongs to the line. What follows the last newline
/// is a line too, unless it is empty.
pub open spec fn lines_of(s: Seq<u8>) -> Seq<Seq<u8>>
    decreases s.len(),
{
    if s.len() == 0 {
        Seq::empty()
    } else {
        let n = line_len(s);
        if n >= s.len() {
            seq![s]
        } else {
            proof {
                lemma_line_len(s);
            }
            seq![trimmed(s.take(n))] + lines_of(s.skip(n + 1))
        }
    }
}

/// The first newline of `s` is at `line_len(s)`, and none is before it.
pub proof fn lemma_line_len(s: Seq<u8>)
    ensures
        0 <= line_len(s) <= s.len(),
        line_len(s) < s.len() ==> s[line_len(s)] == NEWLINE,
        forall|i: int| 0 <= i < line_len(s) ==> s[i] != NEWLINE,
    decreases s.len(),
{
    if s.len() != 0 && s[0] != NEWLINE {
        lemma_line_len(s.skip(1));
        assert forall|i: int| 0 <= i < line_len(s) implies s[i] != NEWLINE by {
            if i > 0 {
                assert(s[i] == s.skip(1)[i - 1]);
            }
        }
    }
}

/// A position without a newline before it, that holds one or is the end, is
/// `line_len(s)`.
pub proof fn lemma_line_len_is(s: Seq<u8>, n: int)
    requires
        0 <= n <= s.len(),
        n < s.len() ==> s[n] == NEWLINE,
        forall|i: int| 0 <= i < n ==> s[i] != NEWLINE,
    ensures
        line_len(s) == n,
{
    lemma_line_len(s);
}

/// Cuts `content` into its lines.
pub fn split_lines(content: &[u8]) -> (lines: Vec<Vec<u8>>)
    ensures
        lines@.len() == lines_of(content@).len(),
        forall|i: int| 0 <= i < lines@.len() ==> (#[trigger] lines@[i])@ == lines_of(content@)[i],
{
    let mut lines: Vec<Vec<u8>> = Vec::new();
    let mut start: usize = 0;
    proof {
        assert(content@.skip(0) =~= content@);
    }
    while start < content.len()
        invariant
            start <= content.len(),
            lines_of(content@).len() == lines@.len() + lines_of(content@.skip(start as int)).len(),
            forall|i: int|
                0 <= i < lines@.len() ==> (#[trigger] lines@[i])@ == lines_of(content@)[i],
            forall|i: int|
                0 <= i < lines_of(content@.skip(start as int)).len() ==> lines_of(content@)[lines@.len()
                    + i] == #[trigger] lines_of(content@.skip(start as int))[i],
        decreases content.len() - start,
    {
        let ghost here = content@.skip(start as int);
        let ghost done = lines@;
        let mut end: usize = start;
        while end < content.len() && content[end] != NEWLINE
            invariant
                start <= end <= content.len(),
                forall|i: int| start <= i < end ==> content@[i] != NEWLINE,
            decreases content.len() - end,
        {
            end += 1;
        }
        proof {
            lemma_line_len_is(here, end - start);
        }
        if end >= content.len() {
            let line = copy_range(content, start, end);
            proof {
                assert(line@ =~= here);
                assert(lines_of(here) == seq![here]);
                assert(lines_of(content@)[done.len() as int] == lines_of(here)[0]);
                assert(content@.skip(end as int) =~= Seq::<u8>::empty());
                assert(lines_of(content@.skip(end as int)).len() == 0);
            }
            lines.push(line);
            start = end;
        } else {
            let stop: usize = if end > start && content[end - 1] == CARRIAGE_RETURN {
                end - 1
            } else {
                end
            };
            let line = copy_range(content, start, stop);
            proof {
                let whole = here.take(end - start);
                assert(whole =~= content@.subrange(start as int, end as int));
                assert(line@ =~= trimmed(whole));
                assert(here.skip(end - start + 1) =~= content@.skip(end + 1));
                let tail = lines_of(content@.skip(end + 1));
                assert(lines_of(here) == seq![trimmed(whole)] + tail);
                assert forall|i: int| 0 <= i < tail.len() implies lines_of(content@)[done.len() + 1
                    + i] == #[trigger] tail[i] by {
                    assert(lines_of(here)[i + 1] == tail[i]);
                }
                assert(lines_of(here)[0] == trimmed(whole));
                assert(lines_of(content@)[done.len() as int] == lines_of(here)[0]);
            }
            lines.push(line);
            start = end + 1;
        }
    }
    proof {
        assert(content@.skip(start as int) =~= Seq::<u8>::empty());
    }
    lines
}

/// Reads a line as text, by `String::from_utf8`: the characters that the
/// bytes encode in UTF-8, or `None` where the bytes are no valid UTF-8.
#[verifier::external_body]
fn text_of(bytes: Vec<u8>) -> (text: Option<String>)
    ensures
        text is Some <==> valid_utf8(bytes@),
        text is Some ==> text->0@ == decode_utf8(bytes@),
{
    match String::from_utf8(bytes) {
        Ok(text) => Some(text),
        Err(_) => None,
    }
}

/// The messages that the lines hold: each line that is valid UTF-8, in
/// order. A line that is not is left out.
pub open spec fn messages_of(lines: Seq<Seq<u8>>) -> Seq<Seq<char>>
    decreases lines.len(),
{
    if lines.len() == 0 {
        Seq::empty()
    } else {
        let front = messages_of(lines.drop_last());
        if valid_utf8(lines.last()) {
            front.push(decode_utf8(lines.last()))
        } else {
            front
        }
    }
}

/// The texts of `lines` as sequences of characters.
pub open spec fn texts(lines: Seq<String>) -> Seq<Seq<char>> {
    Seq::new(lines.len(), |i: int| lines[i]@)
}

/// A replay as a mathematical value.
pub struct ReplayView {
    /// The messages, in file order.
    pub lines: Seq<Seq<char>>,
    /// The index of the message that is published next.
    pub next: nat,
}

impl ReplayView {
    /// The replay `count` messages later: the position has moved on by
    /// `count`, around the end of the file.
    pub open spec fn after(self, count: nat) -> ReplayView {
        if self.lines.len() == 0 {
            self
        } else {
            ReplayView {
                lines: self.lines,
                next: ((self.next as int + count as int) % (self.lines.len() as int)) as nat,
            }
        }
    }

    /// The message that is published `count` messages from now.
    pub open spec fn message(self, count: nat) -> Seq<char>
        recommends
            self.lines.len() > 0,
    {
        self.lines[(self.next as int + count as int) % (self.lines.len() as int)]
    }
}

/// A source that steps through the messages of a recorded file, for ever.
pub struct Replay {
    lines: Vec<String>,
    next: usize,
}

impl View for Replay {
    type V = ReplayView;

    closed spec fn view(&self) -> ReplayView {
        ReplayView { lines: texts(self.lines@), next: self.next as nat }
    }
}

impl Replay {
    #[verifier::type_invariant]
    spec fn valid(self) -> bool {
        self.next < self.lines@.len() || (self.next == 0 && self.lines@.len() == 0)
    }

    /// A replay of the given messages, starting at the first.
    pub fn new(lines: Vec<String>) -> (replay: Replay)
        ensures
            replay@ == (ReplayView { lines: texts(lines@), next: 0 }),
    {
        Replay { lines, next: 0 }
    }

    /// A replay of the messages in the bytes of a recorded file, starting at
    /// the first.
    pub fn from_bytes(content: &[u8]) -> (replay: Replay)
        ensures
            replay@ == (ReplayView { lines: messages_of(lines_of(content@)), next: 0 }),
    {
        let mut raw = split_lines(content);
        let ghost all = lines_of(content@);
        let mut lines: Vec<String> = Vec::new();
        let mut i: usize = 0;
        let count: usize = raw.len();
        while i < count
            invariant
                i <= count,
                count == raw@.len(),
                raw@.len() == all.len(),
                forall|k: int| i <= k < raw@.len() ==> (#[trigger] raw@[k])@ == all[k],
                texts(lines@) == messages_of(all.take(i as int)),
            decreases count - i,
        {
            let mut line: Vec<u8> = Vec::new();
            core::mem::swap(&mut raw[i], &mut line);
            proof {
                assert(all.take(i + 1).drop_last() =~= all.take(i as int));
                assert(all.take(i + 1).last() == all[i as int]);
            }
            match text_of(line) {
                Some(text) => {
                    proof {
                        assert(texts(lines@.push(text)) =~= texts(lines@).push(text@));
                    }
                    lines.push(text);
                },
                None => {},
            }
            i += 1;
        }
        proof {
            assert(all.take(i as int) =~= all);
        }
        Replay { lines, next: 0 }
    }

    /// The number of messages in the file.
    pub fn len(&self) -> (count: usize)
        ensures
            count == self@.lines.len(),
    {
        self.lines.len()
    }

    /// The index of the message that is published next.
    pub fn position(&self) -> (next: usize)
        ensures
            next == self@.next,
            self@.lines.len() > 0 ==> next < self@.lines.len(),
    {
        proof {
            use_type_invariant(self);
        }
        self.next
    }

    /// The next message, or `None` where the file holds none. Behind the
    /// last message the first one follows.
    pub fn next_message(&mut self) -> (message: Option<String>)
        ensures
            final(self)@ == old(self)@.after(1),
            old(self)@.lines.len() == 0 ==> message is None,
            old(self)@.lines.len() > 0 ==> message is Some && message->0@ == old(self)@.message(0),
    {
        proof {
            use_type_invariant(&*self);
        }
        if self.lines.len() == 0 {
            return None;
        }
        let message = self.lines[self.next].clone();
        let next: usize = if self.next + 1 < self.lines.len() {
            self.next + 1
        } else {
            0
        };
        proof {
            let n = self.lines@.len();
            lemma_small_mod(self.next as nat, n);
            if self.next + 1 < n {
                lemma_small_mod((self.next + 1) as nat, n);
            } else {
                lemma_mod_self_0(n as int);
            }
        }
        self.next = next;
        Some(message)
    }

    /// Publishes the next message to every peer of the hub. `None`, and
    /// nothing published, where the file holds no message.
    pub fn publish_next(&mut self, hub: &mut DistributionHub) -> (deliveries: Option<Vec<Delivery>>)
        ensures
            final(self)@ == old(self)@.after(1),
            old(self)@.lines.len() == 0 ==> deliveries is None && final(hub)@ == old(hub)@,
            old(self)@.lines.len() > 0 ==> deliveries is Some && covers(
                deliveries->0@,
                old(hub)@.dom(),
            ) && final(hub)@ == old(hub)@.remove_keys(refused(deliveries->0@)),
    {
        match self.next_message() {
            Some(message) => Some(hub.publish(message.as_str())),
            None => None,
        }
    }
}

/// Stepping through a replay adds up: `a` messages and then `b` more leave
/// the replay where `a + b` messages leave it, and the message that comes
/// `b` messages after the first `a` is the one that comes `a + b` from the
/// start.
pub proof fn lemma_replay_steps(replay: ReplayView, a: nat, b: nat)
    requires
        replay.lines.len() > 0 ==> replay.next < replay.lines.len(),
    ensures
        replay.after(a).after(b) == replay.after(a + b),
        replay.lines.len() > 0 ==> replay.after(a).message(b) == replay.message(a + b),
{
    if replay.lines.len() > 0 {
        let n = replay.lines.len() as int;
        let x = replay.next as int + a as int;
        let y = b as int;
        lemma_add_mod_noop_right(y, x, n);
        assert((x % n) + y == y + (x % n));
    }
}

/// A replay is periodic: after as many messages as the file holds it is
/// where it was, so the message behind the last is the first again.
pub proof fn lemma_replay_loops(replay: ReplayView, count: nat)
    requires
        replay.lines.len() > 0,
        replay.next < replay.lines.len(),
    ensures
        replay.after(replay.lines.len()) == replay,
        replay.message(count + replay.lines.len()) == replay.message(count),
{
    let n = replay.lines.len() as int;
    let x = replay.next as int + count as int;
    lemma_mod_add_multiples_vanish(x, n);
    let y = replay.next as int;
    lemma_mod_add_multiples_vanish(y, n);
    lemma_small_mod(replay.next, replay.lines.len());
}

} // verus!
