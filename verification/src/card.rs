//! The punch-card state machine: the ordered record sequence for one
//! tracking subject, most recent first, with the legality rules for
//! punching in and out and the detection of corruption.

use vstd::prelude::*;

use vstd::string::StringExecFns;

use crate::err::Error;
use crate::record::Record;
use crate::time::Timestamp;

verus! {

/// The derived state of a card. It is never stored: `status` computes it
/// from the record sequence on every call.
#[derive(Clone, Copy, Debug, PartialEq, Eq, Structural)]
pub enum CardStatus {
    /// The most recent record is open.
    PunchedIn,
    /// Every record is terminated, or there are none.
    PunchedOut,
    /// Some record other than the most recent one is not terminated.
    Corrupted,
}

impl CardStatus {
    /// The status as text, for display.
    pub fn name(&self) -> (m: &'static str) {
        match self {
            CardStatus::PunchedIn => "PunchedIn",
            CardStatus::PunchedOut => "PunchedOut",
            CardStatus::Corrupted => "Corrupted",
        }
    }
}

/// Every record after the most recent one is terminated.
pub open spec fn older_all_terminated(s: Seq<Record>) -> bool {
    forall|j: int| 1 <= j < s.len() ==> s[j].is_terminated_spec()
}

/// Every record is terminated.
pub open spec fn all_terminated(s: Seq<Record>) -> bool {
    forall|j: int| 0 <= j < s.len() ==> s[j].is_terminated_spec()
}

/// The status derived from a record sequence held most recent first.
pub open spec fn status_spec(s: Seq<Record>) -> CardStatus {
    if !older_all_terminated(s) {
        CardStatus::Corrupted
    } else if s.len() == 0 || s[0].is_terminated_spec() {
        CardStatus::PunchedOut
    } else {
        CardStatus::PunchedIn
    }
}

/// The note of a record punched out with `note`: a missing half passes the
/// other through, and two notes join with a `;` separator, preserving the
/// history of notes attached across in/out actions on one interval.
pub open spec fn joined_note(existing: Option<Seq<char>>, note: Option<Seq<char>>) -> Option<
    Seq<char>,
> {
    match (existing, note) {
        (None, None) => None,
        (Some(e), None) => Some(e),
        (None, Some(n)) => Some(n),
        (Some(e), Some(n)) => Some(e + seq![';'] + n),
    }
}

/// The view of an optional note as an optional character sequence.
pub open spec fn note_view(n: Option<String>) -> Option<Seq<char>> {
    match n {
        Some(s) => Some(s@),
        None => None,
    }
}

/// Punching in is allowed exactly when every existing record is
/// terminated: the card is consistently punched out.
pub open spec fn punch_in_allowed(s: Seq<Record>) -> bool {
    all_terminated(s)
}

/// The shape of a successful punch-in: `post` is `pre` with one new open
/// record at the front, indexed by the prior record count.
pub open spec fn punch_in_post(
    pre: Seq<Record>,
    post: Seq<Record>,
    t: Timestamp,
    note: Option<Seq<char>>,
) -> bool {
    &&& post.len() == pre.len() + 1
    &&& post.skip(1) == pre
    &&& post[0].i == pre.len()
    &&& post[0].start == t
    &&& post[0].end is None
    &&& note_view(post[0].note) == note
}

/// Punching out at `t` is allowed exactly when the most recent record
/// exists and is open, every older record is terminated, and `t` is not
/// before the open record's start.
pub open spec fn punch_out_allowed(s: Seq<Record>, t: Timestamp) -> bool {
    &&& s.len() > 0
    &&& s[0].end is None
    &&& older_all_terminated(s)
    &&& s[0].start.epoch <= t.epoch
}

/// The shape of a successful punch-out: only the most recent record
/// changes, receiving `t` as its end and the joined note.
pub open spec fn punch_out_post(
    pre: Seq<Record>,
    post: Seq<Record>,
    t: Timestamp,
    note: Option<Seq<char>>,
) -> bool {
    &&& pre.len() > 0
    &&& post.len() == pre.len()
    &&& post.skip(1) == pre.skip(1)
    &&& post[0].i == pre[0].i
    &&& post[0].start == pre[0].start
    &&& post[0].end == Some(t)
    &&& note_view(post[0].note) == joined_note(note_view(pre[0].note), note)
}

/// The ordered record sequence for one tracking subject, most recent
/// first, exactly as persisted.
#[derive(Debug)]
pub struct Card {
    pub records: Vec<Record>,
}

impl Card {
    /// A card over an already-loaded record sequence, most recent first.
    pub fn from_records(records: Vec<Record>) -> (c: Card)
        ensures
            c.records == records,
    {
        Card { records }
    }

    /// An empty card: no punches yet.
    pub fn empty() -> (c: Card)
        ensures
            c.records@.len() == 0,
    {
        Card { records: Vec::new() }
    }

    /// Derive the card's state by scanning all records: any non-terminated
    /// record other than the most recent one means corruption; otherwise
    /// the most recent record (or the lack of any) decides.
    pub fn status(&self) -> (st: CardStatus)
        ensures
            st == status_spec(self.records@),
    {
        let n: usize = self.records.len();
        let mut j: usize = 1;
        while j < n
            invariant
                1 <= j <= n || (n == 0 && j == 1),
                n == self.records@.len(),
                forall|k: int| 1 <= k < j ==> self.records@[k].is_terminated_spec(),
            decreases n - j,
        {
            if !self.records[j].is_terminated() {
                return CardStatus::Corrupted;
            }
            j += 1;
        }
        if n == 0 || self.records[0].is_terminated() {
            CardStatus::PunchedOut
        } else {
            CardStatus::PunchedIn
        }
    }

    /// Punch in at `timestamp`: legal only when every existing record is
    /// terminated. On success a new open record is inserted at the front
    /// with index equal to the prior record count; on failure nothing
    /// changes.
    pub fn punch_in(&mut self, timestamp: Timestamp, note: Option<&str>) -> (r: Result<(), Error>)
        ensures
            match r {
                Ok(()) => {
                    &&& punch_in_allowed(old(self).records@)
                    &&& punch_in_post(
                        old(self).records@,
                        final(self).records@,
                        timestamp,
                        match note {
                            Some(s) => Some(s@),
                            None => None::<Seq<char>>,
                        },
                    )
                },
                Err(e) => {
                    &&& e == Error::IncorrectCardStateForIn
                    &&& !punch_in_allowed(old(self).records@)
                    &&& *final(self) == *old(self)
                },
            },
    {
        let n: usize = self.records.len();
        let mut j: usize = 0;
        while j < n
            invariant
                0 <= j <= n,
                n == self.records@.len(),
                self == old(self),
                forall|k: int| 0 <= k < j ==> self.records@[k].is_terminated_spec(),
            decreases n - j,
        {
            if !self.records[j].is_terminated() {
                return Err(Error::IncorrectCardStateForIn);
            }
            j += 1;
        }
        let owned_note: Option<String> = match note {
            Some(s) => Some(s.to_owned()),
            None => None,
        };
        let rec = Record::new(timestamp, n, owned_note);
        self.records.insert(0, rec);
        proof {
            assert(self.records@.skip(1) =~= old(self).records@);
        }
        Ok(())
    }

    /// Punch out at `timestamp`: legal only when the most recent record
    /// exists and is open, every older record is terminated, and
    /// `timestamp` is not before the open record's start (an earlier end
    /// is rejected rather than written and later flagged as corruption).
    /// On success the open record's end is set and a supplied note is
    /// joined to any existing one; on failure nothing changes.
    pub fn punch_out(&mut self, timestamp: Timestamp, note: Option<String>) -> (r: Result<
        (),
        Error,
    >)
        ensures
            match r {
                Ok(()) => {
                    &&& punch_out_allowed(old(self).records@, timestamp)
                    &&& punch_out_post(
                        old(self).records@,
                        final(self).records@,
                        timestamp,
                        note_view(note),
                    )
                },
                Err(e) => {
                    &&& e == Error::IncorrectCardStateForOut
                    &&& !punch_out_allowed(old(self).records@, timestamp)
                    &&& *final(self) == *old(self)
                },
            },
    {
        let n: usize = self.records.len();
        if n == 0 {
            return Err(Error::IncorrectCardStateForOut);
        }
        let mut j: usize = 1;
        while j < n
            invariant
                1 <= j <= n,
                n == self.records@.len(),
                self == old(self),
                forall|k: int| 1 <= k < j ==> self.records@[k].is_terminated_spec(),
            decreases n - j,
        {
            if !self.records[j].is_terminated() {
                return Err(Error::IncorrectCardStateForOut);
            }
            j += 1;
        }
        let is_open: bool = match &self.records[0].end {
            Some(_) => false,
            None => true,
        };
        if !is_open {
            return Err(Error::IncorrectCardStateForOut);
        }
        if timestamp.epoch < self.records[0].start.epoch {
            return Err(Error::IncorrectCardStateForOut);
        }
        let mut first: Record = self.records.remove(0);
        first.end = Some(timestamp);
        first.note = match (first.note, note) {
            (None, None) => None,
            (Some(e), None) => Some(e),
            (None, Some(nn)) => Some(nn),
            (Some(e), Some(nn)) => {
                let mut joined: String = e;
                joined.append(";");
                joined.append(nn.as_str());
                proof {
                    reveal_strlit(";");
                    assert(";"@ =~= seq![';']);
                }
                Some(joined)
            },
        };
        self.records.insert(0, first);
        proof {
            assert(self.records@.skip(1) =~= old(self).records@.remove(0).insert(
                0,
                self.records@[0],
            ).skip(1));
            assert(self.records@.skip(1) =~= old(self).records@.skip(1));
        }
        Ok(())
    }
}

/// A card whose older records are all terminated and whose most recent
/// record is open reports `PunchedIn`; punching out at any instant not
/// before that record's start is allowed, and every sequence a successful
/// punch-out can produce is fully terminated and reports `PunchedOut`.
pub proof fn lemma_punched_in_then_out(
    s: Seq<Record>,
    s2: Seq<Record>,
    t: Timestamp,
    note: Option<Seq<char>>,
)
    requires
        s.len() > 0,
        s[0].end is None,
        older_all_terminated(s),
        s[0].start.epoch <= t.epoch,
        punch_out_post(s, s2, t, note),
    ensures
        status_spec(s) == CardStatus::PunchedIn,
        punch_out_allowed(s, t),
        all_terminated(s2),
        status_spec(s2) == CardStatus::PunchedOut,
{
    assert forall|j: int| 0 <= j < s2.len() implies s2[j].is_terminated_spec() by {
        if j >= 1 {
            assert(s2[j] == s2.skip(1)[j - 1]);
            assert(s.skip(1)[j - 1] == s[j]);
        }
    }
}

/// A card whose records are all terminated (or that is empty) reports
/// `PunchedOut`; punching in is allowed, and every sequence a successful
/// punch-in can produce has exactly one new open record at the front,
/// indexed by the prior count, and reports `PunchedIn`.
pub proof fn lemma_punched_out_then_in(
    s: Seq<Record>,
    s2: Seq<Record>,
    t: Timestamp,
    note: Option<Seq<char>>,
)
    requires
        all_terminated(s),
        punch_in_post(s, s2, t, note),
    ensures
        status_spec(s) == CardStatus::PunchedOut,
        punch_in_allowed(s),
        s2.len() == s.len() + 1,
        s2[0].end is None,
        s2[0].i == s.len(),
        s2.skip(1) == s,
        status_spec(s2) == CardStatus::PunchedIn,
{
    assert forall|j: int| 1 <= j < s2.len() implies s2[j].is_terminated_spec() by {
        assert(s2[j] == s2.skip(1)[j - 1]);
        assert(s[j - 1].is_terminated_spec());
    }
}

/// Punching in while already punched in, or punching out while already
/// punched out, is never allowed: the operations then fail with their
/// card-state error and change nothing.
pub proof fn lemma_wrong_state_rejected(s: Seq<Record>, t: Timestamp)
    ensures
        status_spec(s) == CardStatus::PunchedIn ==> !punch_in_allowed(s),
        status_spec(s) == CardStatus::PunchedOut ==> !punch_out_allowed(s, t),
{
}

/// A sequence with a non-final, non-terminated record reports `Corrupted`,
/// whatever the state of the most recent record.
pub proof fn lemma_corrupted_status(s: Seq<Record>, j: int)
    requires
        1 <= j < s.len(),
        !s[j].is_terminated_spec(),
    ensures
        status_spec(s) == CardStatus::Corrupted,
{
}

} // verus!

