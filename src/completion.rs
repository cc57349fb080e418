//! Tracking the subchannels of one invocation, and when the invocation as
//! a whole is complete.
use vstd::prelude::*;

verus! {

/// Where one subchannel stands.
#[derive(Clone, Copy, Debug, PartialEq, Eq, Structural)]
pub enum ChannelState {
    /// Data may still come.
    Open,
    /// The stream reached its end, or the future resolved.
    Done,
    /// The subchannel failed, or was cancelled before it finished.
    Failed,
}

/// What the completion of an invocation has come to.
#[derive(Clone, Copy, Debug, PartialEq, Eq, Structural)]
pub enum Completion {
    /// Some subchannel is still open, and none failed.
    Pending,
    /// Every subchannel finished.
    Complete,
    /// Some subchannel failed, or the invocation was cancelled.
    Failed,
}

/// The subchannels of one invocation, numbered in the order in which the
/// value's streams and futures come.
pub struct Subchannels {
    states: Vec<ChannelState>,
}

/// A subchannel reaching its end: an open one becomes done, any other stays
/// as it is.
pub open spec fn after_finish(s: Seq<ChannelState>, i: int) -> Seq<ChannelState> {
    if s[i] == ChannelState::Open {
        s.update(i, ChannelState::Done)
    } else {
        s
    }
}

/// A subchannel failing: an open one becomes failed, any other stays as it
/// is.
pub open spec fn after_fail(s: Seq<ChannelState>, i: int) -> Seq<ChannelState> {
    if s[i] == ChannelState::Open {
        s.update(i, ChannelState::Failed)
    } else {
        s
    }
}

/// Cancelling an invocation: every open subchannel fails.
pub open spec fn after_cancel(s: Seq<ChannelState>) -> Seq<ChannelState> {
    s.map_values(
        |c: ChannelState|
            if c == ChannelState::Open {
                ChannelState::Failed
            } else {
                c
            },
    )
}

/// What the completion of an invocation with subchannels `s` has come to.
pub open spec fn status_of(s: Seq<ChannelState>) -> Completion {
    if exists|i: int| 0 <= i < s.len() && s[i] == ChannelState::Failed {
        Completion::Failed
    } else if forall|i: int| 0 <= i < s.len() ==> s[i] == ChannelState::Done {
        Completion::Complete
    } else {
        Completion::Pending
    }
}

impl Subchannels {
    pub closed spec fn view(&self) -> Seq<ChannelState> {
        self.states@
    }

    /// `n` subchannels, all open.
    pub fn new(n: usize) -> (r: Subchannels)
        ensures
            r@ == Seq::new(n as nat, |i: int| ChannelState::Open),
    {
        let mut states: Vec<ChannelState> = Vec::new();
        let mut i: usize = 0;
        while i < n
            invariant
                i <= n,
                states@ == Seq::new(i as nat, |k: int| ChannelState::Open),
            decreases n - i,
        {
            states.push(ChannelState::Open);
            i = i + 1;
            assert(states@ =~= Seq::new(i as nat, |k: int| ChannelState::Open));
        }
        Subchannels { states }
    }

    /// The number of subchannels.
    pub fn len(&self) -> (r: usize)
        ensures
            r == self@.len(),
    {
        self.states.len()
    }

    /// Where subchannel `i` stands.
    pub fn state(&self, i: usize) -> (r: ChannelState)
        requires
            i < self@.len(),
        ensures
            r == self@[i as int],
    {
        self.states[i]
    }

    /// Subchannel `i` reached its end.
    pub fn finish(&mut self, i: usize)
        requires
            i < old(self)@.len(),
        ensures
            final(self)@ == after_finish(old(self)@, i as int),
    {
        if self.states[i] == ChannelState::Open {
            self.states.set(i, ChannelState::Done);
        }
    }

    /// Subchannel `i` failed.
    pub fn fail(&mut self, i: usize)
        requires
            i < old(self)@.len(),
        ensures
            final(self)@ == after_fail(old(self)@, i as int),
    {
        if self.states[i] == ChannelState::Open {
            self.states.set(i, ChannelState::Failed);
        }
    }

    /// The invocation was cancelled: every subchannel still open fails.
    pub fn cancel(&mut self)
        ensures
            final(self)@ == after_cancel(old(self)@),
    {
        let mut i: usize = 0;
        while i < self.states.len()
            invariant
                i <= self.states@.len(),
                self.states@.len() == old(self)@.len(),
                forall|k: int|
                    0 <= k < i ==> self.states@[k] == (if old(self)@[k] == ChannelState::Open {
                        ChannelState::Failed
                    } else {
                        old(self)@[k]
                    }),
                forall|k: int| i <= k < self.states@.len() ==> self.states@[k] == old(self)@[k],
            decreases self.states@.len() - i,
        {
            if self.states[i] == ChannelState::Open {
                self.states.set(i, ChannelState::Failed);
            }
            i = i + 1;
        }
        assert(self.states@ =~= after_cancel(old(self)@));
    }

    /// What the completion of the invocation has come to.
    pub fn status(&self) -> (r: Completion)
        ensures
            r == status_of(self@),
    {
        let mut all_done = true;
        let mut i: usize = 0;
        while i < self.states.len()
            invariant
                i <= self.states@.len(),
                forall|k: int| 0 <= k < i ==> self.states@[k] != ChannelState::Failed,
                all_done == forall|k: int| 0 <= k < i ==> self.states@[k] == ChannelState::Done,
            decreases self.states@.len() - i,
        {
            let c = self.states[i];
            if c == ChannelState::Failed {
                return Completion::Failed;
            }
            if c != ChannelState::Done {
                all_done = false;
            }
            i = i + 1;
        }
        if all_done {
            Completion::Complete
        } else {
            Completion::Pending
        }
    }
}

/// Subchannels are independent: two of them may reach their end in either
/// order, with the same outcome.
pub proof fn lemma_finish_commutes(s: Seq<ChannelState>, i: int, j: int)
    requires
        0 <= i < s.len(),
        0 <= j < s.len(),
    ensures
        after_finish(after_finish(s, i), j) == after_finish(after_finish(s, j), i),
{
    if i != j {
        assert(after_finish(after_finish(s, i), j) =~= after_finish(after_finish(s, j), i));
    }
}

/// While one of its subchannels is still open, an invocation is not
/// complete.
pub proof fn lemma_complete_needs_all(s: Seq<ChannelState>, i: int)
    requires
        0 <= i < s.len(),
        s[i] == ChannelState::Open,
    ensures
        status_of(s) != Completion::Complete,
{
}

/// Two open subchannels, drained in either order: the invocation is
/// pending after the first and complete after the second.
pub proof fn lemma_two_streams(s: Seq<ChannelState>, i: int, j: int)
    requires
        s.len() == 2,
        0 <= i < 2,
        0 <= j < 2,
        i != j,
        s[0] == ChannelState::Open,
        s[1] == ChannelState::Open,
    ensures
        status_of(s) == Completion::Pending,
        status_of(after_finish(s, i)) == Completion::Pending,
        status_of(after_finish(after_finish(s, i), j)) == Completion::Complete,
{
    let a = after_finish(s, i);
    let b = after_finish(a, j);
    assert(a[j] == ChannelState::Open);
    assert(!(exists|k: int| 0 <= k < a.len() && a[k] == ChannelState::Failed)) by {
        assert forall|k: int| 0 <= k < a.len() implies a[k] != ChannelState::Failed by {
            if k == i {
            } else {
                assert(k == j);
            }
        }
    }
    assert(!(exists|k: int| 0 <= k < b.len() && b[k] == ChannelState::Failed)) by {
        assert forall|k: int| 0 <= k < b.len() implies b[k] != ChannelState::Failed by {
            if k == i {
            } else {
                assert(k == j);
            }
        }
    }
    assert forall|k: int| 0 <= k < b.len() implies b[k] == ChannelState::Done by {
        if k == i {
        } else {
            assert(k == j);
        }
    }
}

} // verus!
