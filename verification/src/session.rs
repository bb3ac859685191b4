//! The pending-request table of a session: which lines await an
//! acknowledgement, what is kept of them for a repeat, and what each line
//! that the device sends does to them.
//!
//! The table decides; it writes nothing. The loop that owns the stream
//! asks it what to do and does it.

use crate::encoder::{
    following, sequenced_line, serialize_unsequenced, unsequenced_line, well_formed, Sequenced,
    Value,
};
use crate::response::{acknowledged, acknowledgement, Response};
use crate::text::{own, texts};
use vstd::prelude::*;

verus! {

/// How many requests may await their acknowledgement at once.
pub const MAX_PENDING: usize = 4;

/// How many requests the outbound queue of a session holds.
pub const QUEUE_CAPACITY: usize = 16;

/// How many lines the response broadcast of a session retains.
pub const BROADCAST_CAPACITY: usize = 64;

/// A line for the device, with the sequence number it carries, if any, and
/// the handle that is to hear of its acknowledgement, if anyone waits.
#[derive(Debug)]
pub struct SendContent<H> {
    pub content: Vec<u8>,
    pub sequence: Option<i32>,
    pub responder: Option<H>,
}

impl<H> SendContent<H> {
    /// A request made of its parts.
    pub fn new(content: Vec<u8>, sequence: Option<i32>, responder: Option<H>) -> (r: Self)
        ensures
            r.content == content,
            r.sequence == sequence,
            r.responder == responder,
    {
        SendContent { content, sequence, responder }
    }
}

/// The request that sends `value` under the next sequence number of the
/// session, for `responder` to hear of its confirmation.
pub fn sequenced_request<H>(encoder: &mut Sequenced, value: &Value, responder: H) -> (request:
    SendContent<H>)
    requires
        well_formed(*value),
    ensures
        request.sequence == Some(old(encoder).upcoming()),
        request.content@ == sequenced_line(old(encoder).upcoming(), *value),
        request.responder == Some(responder),
        final(encoder).upcoming() == following(old(encoder).upcoming()),
{
    let (sequence, bytes) = encoder.serialize(value);
    SendContent::new(bytes, Some(sequence), Some(responder))
}

/// The request that sends `value` without sequence number, for `responder`
/// to hear of its confirmation.
pub fn unsequenced_request<H>(value: &Value, responder: H) -> (request: SendContent<H>)
    requires
        well_formed(*value),
    ensures
        request.sequence is None,
        request.content@ == unsequenced_line(*value),
        request.responder == Some(responder),
{
    SendContent::new(serialize_unsequenced(value), None, Some(responder))
}

/// The request that sends `bytes` as they are; no one hears of it again.
pub fn raw_request<H>(bytes: &[u8]) -> (request: SendContent<H>)
    ensures
        request.sequence is None,
        request.content@ == bytes@,
        request.responder is None,
{
    SendContent::new(own(bytes), None, None)
}

/// A request that awaits its acknowledgement.
#[derive(Debug)]
pub struct Entry<H> {
    pub key: Option<i32>,
    pub responder: H,
    pub line: Vec<u8>,
}

/// Where a key stands in the order of the table: the key of the lines
/// without number comes first, then the numbers in rising order.
pub open spec fn rank(key: Option<i32>) -> int {
    match key {
        None => i32::MIN - 1,
        Some(n) => n as int,
    }
}

/// The keys of `entries` rise strictly, so no key occurs twice.
pub open spec fn rising<H>(entries: Seq<Entry<H>>) -> bool {
    forall|i: int, j: int|
        0 <= i < j < entries.len() ==> rank(#[trigger] entries[i].key) < rank(
            #[trigger] entries[j].key,
        )
}

/// The retained lines of the first `n` entries that carry a number, in the
/// order of the table.
pub open spec fn numbered_lines<H>(entries: Seq<Entry<H>>, n: nat) -> Seq<Seq<u8>>
    decreases n,
{
    if n == 0 || n > entries.len() {
        Seq::empty()
    } else if entries[n - 1].key is Some {
        numbered_lines(entries, (n - 1) as nat).push(entries[n - 1].line@)
    } else {
        numbered_lines(entries, (n - 1) as nat)
    }
}

/// The responders of `entries`, in the order of the table.
pub open spec fn responders<H>(entries: Seq<Entry<H>>) -> Seq<H> {
    Seq::new(entries.len(), |i: int| entries[i].responder)
}

/// A request with this key stands among `entries`.
pub open spec fn holds_key<H>(entries: Seq<Entry<H>>, key: Option<i32>) -> bool {
    exists|i: int| 0 <= i < entries.len() && (#[trigger] entries[i]).key == key
}

/// `entries` keeps `line` for the request with this key.
pub open spec fn kept_for<H>(entries: Seq<Entry<H>>, key: Option<i32>, line: Seq<u8>) -> bool {
    exists|i: int|
        0 <= i < entries.len() && (#[trigger] entries[i]).key == key && entries[i].line@ == line
}

/// `after` is `before` without its request at `key`, which had this
/// responder: every other request stands as it did.
pub open spec fn taken_out<H>(
    before: Seq<Entry<H>>,
    after: Seq<Entry<H>>,
    key: Option<i32>,
    responder: H,
) -> bool {
    exists|i: int|
        0 <= i < before.len() && (#[trigger] before[i]).key == key && before[i].responder
            == responder && after == before.remove(i)
}

/// `after` is `before` with `entry` added: every other request stands as it
/// did.
pub open spec fn put_in<H>(before: Seq<Entry<H>>, after: Seq<Entry<H>>, entry: Entry<H>) -> bool {
    exists|i: int| 0 <= i <= before.len() && after == #[trigger] before.insert(i, entry)
}

/// `after` is `before` with `entry` in the place of the request that had its
/// key, whose responder was `former`: every other request stands as it did.
pub open spec fn put_over<H>(
    before: Seq<Entry<H>>,
    after: Seq<Entry<H>>,
    entry: Entry<H>,
    former: H,
) -> bool {
    exists|i: int|
        0 <= i < before.len() && (#[trigger] before[i]).key == entry.key && before[i].responder
            == former && after == before.update(i, entry)
}

/// Taking one request out leaves every other as it was: a request with
/// another key is pending after as it was before, with the same line kept
/// for it, and the key that was taken out is pending no more.
pub proof fn lemma_taken_out<H>(
    before: Seq<Entry<H>>,
    after: Seq<Entry<H>>,
    key: Option<i32>,
    responder: H,
    other: Option<i32>,
    line: Seq<u8>,
)
    requires
        rising(before),
        taken_out(before, after, key, responder),
        other != key,
    ensures
        !holds_key(after, key),
        holds_key(after, other) == holds_key(before, other),
        kept_for(after, other, line) == kept_for(before, other, line),
{
    let i = choose|i: int|
        0 <= i < before.len() && (#[trigger] before[i]).key == key && before[i].responder
            == responder && after == before.remove(i);
    if holds_key(after, key) {
        let j = choose|j: int| 0 <= j < after.len() && (#[trigger] after[j]).key == key;
        let k = if j < i {
            j
        } else {
            j + 1
        };
        assert(before[k].key == key);
        if k < i {
            assert(rank(before[k].key) < rank(before[i].key));
        } else {
            assert(rank(before[i].key) < rank(before[k].key));
        }
    }
    if holds_key(after, other) {
        let j = choose|j: int| 0 <= j < after.len() && (#[trigger] after[j]).key == other;
        let k = if j < i {
            j
        } else {
            j + 1
        };
        assert(before[k].key == other);
    }
    if holds_key(before, other) {
        let k = choose|k: int| 0 <= k < before.len() && (#[trigger] before[k]).key == other;
        let j = if k < i {
            k
        } else {
            k - 1
        };
        assert(after[j].key == other);
    }
    if kept_for(after, other, line) {
        let j = choose|j: int|
            0 <= j < after.len() && (#[trigger] after[j]).key == other && after[j].line@ == line;
        let k = if j < i {
            j
        } else {
            j + 1
        };
        assert(before[k].key == other && before[k].line@ == line);
    }
    if kept_for(before, other, line) {
        let k = choose|k: int|
            0 <= k < before.len() && (#[trigger] before[k]).key == other && before[k].line@
                == line;
        let j = if k < i {
            k
        } else {
            k - 1
        };
        assert(after[j].key == other && after[j].line@ == line);
    }
}

/// What the loop is to do about a line that the device sent.
#[derive(Debug)]
pub enum Reaction<H> {
    /// Nothing: the line acknowledges nothing that is pending.
    Nothing,
    /// Fire this responder: its request is confirmed and no longer pending.
    Complete(H),
    /// Write these lines to the device again, in this order.
    Rewrite(Vec<Vec<u8>>),
}

/// The requests of a session that await an acknowledgement, by key.
#[derive(Debug)]
pub struct Pending<H> {
    entries: Vec<Entry<H>>,
}

impl<H> Pending<H> {
    /// The pending requests in the order of their keys.
    pub closed spec fn entries(&self) -> Seq<Entry<H>> {
        self.entries@
    }

    /// No key occurs twice, the entries stand in the order of their keys, and
    /// there are no more of them than may be pending at once.
    pub open spec fn wf(&self) -> bool {
        rising(self.entries()) && self.entries().len() <= MAX_PENDING
    }

    /// A request with this key is pending.
    pub open spec fn has(&self, key: Option<i32>) -> bool {
        holds_key(self.entries(), key)
    }

    /// An empty table.
    pub fn new() -> (table: Self)
        ensures
            table.entries().len() == 0,
            table.wf(),
    {
        Pending { entries: Vec::new() }
    }

    /// How many requests are pending.
    pub fn len(&self) -> (n: usize)
        ensures
            n == self.entries().len(),
    {
        self.entries.len()
    }

    /// Whether as many requests are pending as may be: the loop takes no
    /// further request from the queue until one of them is confirmed.
    pub fn is_full(&self) -> (full: bool)
        ensures
            full == (self.entries().len() >= MAX_PENDING),
    {
        self.entries.len() >= MAX_PENDING
    }

    /// The first position whose key does not stand before `key`.
    fn slot(&self, key: Option<i32>) -> (at: usize)
        requires
            self.wf(),
        ensures
            at <= self.entries().len(),
            forall|i: int| 0 <= i < at ==> rank(#[trigger] self.entries()[i].key) < rank(key),
            forall|i: int|
                at <= i < self.entries().len() ==> rank(#[trigger] self.entries()[i].key) >= rank(
                    key,
                ),
            self.has(key) <==> (at < self.entries().len() && self.entries()[at as int].key == key),
    {
        let mut at: usize = 0;
        while at < self.entries.len() && stands_before(self.entries[at].key, key)
            invariant
                at <= self.entries@.len(),
                rising(self.entries@),
                forall|i: int| 0 <= i < at ==> rank(#[trigger] self.entries@[i].key) < rank(key),
            decreases self.entries@.len() - at,
        {
            at += 1;
        }
        proof {
            if at < self.entries@.len() {
                assert(rank(self.entries@[at as int].key) >= rank(key));
            }
            if self.has(key) {
                let i = choose|i: int|
                    0 <= i < self.entries().len() && (#[trigger] self.entries()[i]).key == key;
                assert(rank(self.entries@[i].key) == rank(key));
                if i != at {
                    if i < at {
                    } else {
                        assert(rank(self.entries@[at as int].key) < rank(self.entries@[i].key));
                    }
                }
            }
        }
        at
    }

    /// Takes a written line into the table under `key`, with the responder
    /// that awaits its acknowledgement. Returns the responder that held the
    /// key before, if there was one: it will not be answered any more.
    pub fn insert(&mut self, key: Option<i32>, responder: H, line: Vec<u8>) -> (displaced: Option<
        H,
    >)
        requires
            old(self).wf(),
            old(self).has(key) || old(self).entries().len() < MAX_PENDING,
        ensures
            final(self).wf(),
            final(self).has(key),
            match displaced {
                Some(former) => put_over(
                    old(self).entries(),
                    final(self).entries(),
                    (Entry { key, responder, line }),
                    former,
                ),
                None => !old(self).has(key) && put_in(
                    old(self).entries(),
                    final(self).entries(),
                    (Entry { key, responder, line }),
                ),
            },
    {
        let at = self.slot(key);
        let entry = Entry { key, responder, line };
        if at < self.entries.len() && same_key(self.entries[at].key, key) {
            let mut entry = entry;
            core::mem::swap(&mut self.entries[at], &mut entry);
            proof {
                assert(self.entries()[at as int].key == key);
                assert(old(self).entries()[at as int].key == key);
                assert(self.entries() =~= old(self).entries().update(
                    at as int,
                    Entry { key, responder, line },
                ));
                assert forall|i: int, j: int| 0 <= i < j < self.entries@.len() implies rank(
                    #[trigger] self.entries@[i].key,
                ) < rank(#[trigger] self.entries@[j].key) by {
                    let before = old(self).entries@;
                    assert(rank(before[i].key) < rank(before[j].key));
                }
            }
            Some(entry.responder)
        } else {
            self.entries.insert(at, entry);
            proof {
                assert(self.entries()[at as int].key == key);
                assert(self.entries() == old(self).entries().insert(
                    at as int,
                    Entry { key, responder, line },
                ));
                assert forall|i: int, j: int| 0 <= i < j < self.entries@.len() implies rank(
                    #[trigger] self.entries@[i].key,
                ) < rank(#[trigger] self.entries@[j].key) by {
                    let before = old(self).entries@;
                    let a = if i < at {
                        i
                    } else {
                        i - 1
                    };
                    let b = if j < at {
                        j
                    } else {
                        j - 1
                    };
                    if i != at && j != at {
                        assert(rank(before[a].key) < rank(before[b].key));
                    } else if i == at {
                        assert(rank(before[b].key) >= rank(key));
                        assert(before[b].key != key);
                    } else {
                        assert(rank(before[a].key) < rank(key));
                    }
                }
            }
            None
        }
    }

    /// Takes the request with this key out of the table. Returns its
    /// responder and the line that was kept for it.
    pub fn remove(&mut self, key: Option<i32>) -> (taken: Option<(H, Vec<u8>)>)
        requires
            old(self).wf(),
        ensures
            final(self).wf(),
            !final(self).has(key),
            match taken {
                Some((responder, line)) => taken_out(
                    old(self).entries(),
                    final(self).entries(),
                    key,
                    responder,
                ) && kept_for(old(self).entries(), key, line@),
                None => !old(self).has(key) && final(self).entries() == old(self).entries(),
            },
    {
        let at = self.slot(key);
        if at < self.entries.len() && same_key(self.entries[at].key, key) {
            let entry = self.entries.remove(at);
            proof {
                assert(old(self).entries()[at as int].key == key);
                assert forall|i: int, j: int| 0 <= i < j < self.entries@.len() implies rank(
                    #[trigger] self.entries@[i].key,
                ) < rank(#[trigger] self.entries@[j].key) by {
                    let before = old(self).entries@;
                    let a = if i < at {
                        i
                    } else {
                        i + 1
                    };
                    let b = if j < at {
                        j
                    } else {
                        j + 1
                    };
                    assert(rank(before[a].key) < rank(before[b].key));
                }
                if self.has(key) {
                    let i = choose|i: int|
                        0 <= i < self.entries().len() && (#[trigger] self.entries()[i]).key
                            == key;
                    let before = old(self).entries@;
                    let a = if i < at {
                        i
                    } else {
                        i + 1
                    };
                    assert(before[a].key == key);
                    if a < at {
                        assert(rank(before[a].key) < rank(before[at as int].key));
                    } else {
                        assert(rank(before[at as int].key) < rank(before[a].key));
                    }
                }
            }
            Some((entry.responder, entry.line))
        } else {
            None
        }
    }

    /// The line that is kept for the request with this key. The request stays
    /// pending.
    pub fn retained(&self, key: Option<i32>) -> (line: Option<&Vec<u8>>)
        requires
            self.wf(),
        ensures
            match line {
                Some(kept) => kept_for(self.entries(), key, kept@),
                None => !self.has(key),
            },
    {
        let at = self.slot(key);
        if at < self.entries.len() && same_key(self.entries[at].key, key) {
            assert(self.entries()[at as int].key == key);
            Some(&self.entries[at].line)
        } else {
            None
        }
    }

    /// The lines that are kept for the requests that carry a number, in rising
    /// order of their numbers. The requests stay pending.
    pub fn retained_numbered(&self) -> (lines: Vec<Vec<u8>>)
        ensures
            texts(lines) == numbered_lines(self.entries(), self.entries().len()),
    {
        let mut lines: Vec<Vec<u8>> = Vec::new();
        let mut i: usize = 0;
        assert(texts(lines) =~= numbered_lines(self.entries@, 0));
        while i < self.entries.len()
            invariant
                i <= self.entries@.len(),
                texts(lines) == numbered_lines(self.entries@, i as nat),
            decreases self.entries@.len() - i,
        {
            if self.entries[i].key.is_some() {
                let line = &self.entries[i].line;
                let copy = own(line.as_slice());
                lines.push(copy);
            }
            i += 1;
            assert(texts(lines) =~= numbered_lines(self.entries@, i as nat));
        }
        lines
    }

    /// Takes a request that was written to the device: where someone awaits
    /// its acknowledgement, it becomes pending under its sequence number and
    /// its bytes are kept; where no one does, nothing is kept. Returns the
    /// responder that held the key before, if there was one.
    pub fn track(&mut self, request: SendContent<H>) -> (displaced: Option<H>)
        requires
            old(self).wf(),
            old(self).entries().len() < MAX_PENDING,
        ensures
            final(self).wf(),
            match request.responder {
                Some(responder) => final(self).has(request.sequence) && match displaced {
                    Some(former) => put_over(
                        old(self).entries(),
                        final(self).entries(),
                        (Entry { key: request.sequence, responder, line: request.content }),
                        former,
                    ),
                    None => !old(self).has(request.sequence) && put_in(
                        old(self).entries(),
                        final(self).entries(),
                        (Entry { key: request.sequence, responder, line: request.content }),
                    ),
                },
                None => displaced is None && final(self).entries() == old(self).entries(),
            },
    {
        match request.responder {
            Some(responder) => self.insert(request.sequence, responder, request.content),
            None => None,
        }
    }

    /// Applies a line that the device sent.
    ///
    /// A confirmation takes the request with its key out of the table and hands
    /// its responder over to be fired; every other request stays as it is. A
    /// request to send a numbered line again hands out the bytes that were kept
    /// for it, and one without a number those of every numbered request, in
    /// rising order; the table stays as it is. Any other line does nothing.
    pub fn receive(&mut self, line: &[u8]) -> (reaction: Reaction<H>)
        requires
            old(self).wf(),
        ensures
            final(self).wf(),
            match acknowledged(line@) {
                Some(Response::Okay(key)) => {
                    &&& !final(self).has(key)
                    &&& match reaction {
                        Reaction::Complete(responder) => taken_out(
                            old(self).entries(),
                            final(self).entries(),
                            key,
                            responder,
                        ),
                        Reaction::Nothing => !old(self).has(key) && final(self).entries()
                            == old(self).entries(),
                        Reaction::Rewrite(_) => false,
                    }
                },
                Some(Response::Resend(Some(n))) => {
                    &&& final(self).entries() == old(self).entries()
                    &&& match reaction {
                        Reaction::Rewrite(lines) => lines@.len() == 1 && kept_for(
                            old(self).entries(),
                            Some(n),
                            lines@[0]@,
                        ),
                        Reaction::Nothing => !old(self).has(Some(n)),
                        Reaction::Complete(_) => false,
                    }
                },
                Some(Response::Resend(None)) => {
                    &&& final(self).entries() == old(self).entries()
                    &&& reaction matches Reaction::Rewrite(lines)
                    &&& texts(lines) == numbered_lines(
                        old(self).entries(),
                        old(self).entries().len(),
                    )
                },
                None => reaction is Nothing && final(self).entries() == old(self).entries(),
            },
    {
        match acknowledgement(line) {
            Some(Response::Okay(key)) => match self.remove(key) {
                Some((responder, _)) => Reaction::Complete(responder),
                None => Reaction::Nothing,
            },
            Some(Response::Resend(Some(n))) => match self.retained(Some(n)) {
                Some(kept) => {
                    let mut lines: Vec<Vec<u8>> = Vec::new();
                    let copy = own(kept.as_slice());
                    lines.push(copy);
                    Reaction::Rewrite(lines)
                },
                None => Reaction::Nothing,
            },
            Some(Response::Resend(None)) => Reaction::Rewrite(self.retained_numbered()),
            None => Reaction::Nothing,
        }
    }

    /// Ends the session: every pending request leaves the table, and its
    /// responder is handed out unanswered, for its waiter to learn that no
    /// acknowledgement will come.
    pub fn close(&mut self) -> (unanswered: Vec<H>)
        ensures
            final(self).entries().len() == 0,
            final(self).wf(),
            unanswered@ == responders(old(self).entries()),
    {
        let mut unanswered: Vec<H> = Vec::new();
        let ghost all = self.entries@;
        let mut entries: Vec<Entry<H>> = Vec::new();
        core::mem::swap(&mut self.entries, &mut entries);
        let mut taken: usize = 0;
        let total = entries.len();
        while entries.len() > 0
            invariant
                self.entries@.len() == 0,
                taken + entries@.len() == total == all.len(),
                unanswered@.len() == total - entries@.len(),
                forall|i: int| 0 <= i < entries@.len() ==> entries@[i] == all[i],
                forall|i: int|
                    0 <= i < unanswered@.len() ==> unanswered@[i] == all[total - 1 - i].responder,
            decreases entries@.len(),
        {
            let entry = entries.pop().unwrap();
            unanswered.push(entry.responder);
            taken += 1;
        }
        reverse(&mut unanswered);
        assert(unanswered@ =~= responders(all));
        unanswered
    }
}

/// Puts the items of `v` in the opposite order.
fn reverse<T>(v: &mut Vec<T>)
    ensures
        final(v)@.len() == old(v)@.len(),
        forall|i: int| 0 <= i < old(v)@.len() ==> final(v)@[i] == old(v)@[old(v)@.len() - 1 - i],
{
    let mut out: Vec<T> = Vec::new();
    let ghost all = v@;
    while v.len() > 0
        invariant
            v@.len() + out@.len() == all.len(),
            forall|i: int| 0 <= i < v@.len() ==> v@[i] == all[i],
            forall|i: int| 0 <= i < out@.len() ==> out@[i] == all[all.len() - 1 - i],
        decreases v@.len(),
    {
        let item = v.pop().unwrap();
        out.push(item);
    }
    core::mem::swap(v, &mut out);
}

/// Whether `a` stands before `b` in the order of the table.
pub fn stands_before(a: Option<i32>, b: Option<i32>) -> (r: bool)
    ensures
        r == (rank(a) < rank(b)),
{
    match (a, b) {
        (None, None) => false,
        (None, Some(_)) => true,
        (Some(_), None) => false,
        (Some(x), Some(y)) => x < y,
    }
}

/// Whether two keys are the same.
pub fn same_key(a: Option<i32>, b: Option<i32>) -> (r: bool)
    ensures
        r == (a == b),
{
    match (a, b) {
        (None, None) => true,
        (Some(x), Some(y)) => x == y,
        _ => false,
    }
}

} // verus!
