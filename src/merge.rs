//! A priority merge of a primary stream with a secondary one, which ends
//! when the primary ends.
//!
//! The merger holds the two streams and decides; whoever drives it polls the
//! streams and hands over what each poll gave.
use vstd::prelude::*;

verus! {

/// What one poll of a stream gave.
pub enum Polled<T> {
    Ready(T),
    Exhausted,
    Pending,
}

/// What to do after polling the primary stream.
pub enum MergeStep<T> {
    /// Hand out this primary item.
    Emit(T),
    /// The merged stream has ended.
    End,
    /// The primary has nothing ready: poll the secondary.
    PollSecondary,
}

/// What one poll of the merged stream hands out.
pub enum Merged<T> {
    Primary(T),
    Secondary(T),
    End,
    Waiting,
}

/// The decision after polling the primary stream.
pub open spec fn primary_step<T>(ended: bool, p: Polled<T>) -> MergeStep<T> {
    if ended {
        MergeStep::End
    } else {
        match p {
            Polled::Ready(x) => MergeStep::Emit(x),
            Polled::Exhausted => MergeStep::End,
            Polled::Pending => MergeStep::PollSecondary,
        }
    }
}

/// Whether the merged stream has ended after this poll of the primary.
pub open spec fn ended_after<T>(ended: bool, p: Polled<T>) -> bool {
    ended || p is Exhausted
}

/// The decision after polling the secondary stream: its item, if it had
/// one; its end alone does not end the merged stream.
pub open spec fn secondary_step<T>(s: Polled<T>) -> Option<T> {
    match s {
        Polled::Ready(x) => Some(x),
        _ => None,
    }
}

/// One poll of the merged stream, given what the primary's poll gives and
/// what the secondary's would give.
pub open spec fn merged_output<T>(ended: bool, p: Polled<T>, s: Polled<T>) -> Merged<T> {
    match primary_step(ended, p) {
        MergeStep::Emit(x) => Merged::Primary(x),
        MergeStep::End => Merged::End,
        MergeStep::PollSecondary => match secondary_step(s) {
            Some(y) => Merged::Secondary(y),
            None => Merged::Waiting,
        },
    }
}

/// Whether the merged stream has ended after the polls `rounds`.
pub open spec fn ended_after_rounds<T>(ended: bool, rounds: Seq<(Polled<T>, Polled<T>)>) -> bool
    decreases rounds.len(),
{
    if rounds.len() == 0 {
        ended
    } else {
        ended_after(ended_after_rounds(ended, rounds.drop_last()), rounds.last().0)
    }
}

/// What successive polls of the merged stream hand out.
pub open spec fn merged_outputs<T>(ended: bool, rounds: Seq<(Polled<T>, Polled<T>)>) -> Seq<Merged<T>>
    decreases rounds.len(),
{
    if rounds.len() == 0 {
        Seq::empty()
    } else {
        let before = ended_after_rounds(ended, rounds.drop_last());
        merged_outputs(ended, rounds.drop_last()).push(
            merged_output(before, rounds.last().0, rounds.last().1),
        )
    }
}

/// Merges `primary` and `secondary`: primary items first, secondary items
/// only while the primary has none ready, and the end with the primary's.
pub struct SelectUntilFirstEnds<S1, S2> {
    pub primary: S1,
    pub secondary: S2,
    pub primary_ended: bool,
}

impl<S1, S2> SelectUntilFirstEnds<S1, S2> {
    pub fn new(primary: S1, secondary: S2) -> (r: Self)
        ensures
            r.primary == primary,
            r.secondary == secondary,
            !r.primary_ended,
    {
        SelectUntilFirstEnds { primary, secondary, primary_ended: false }
    }

    /// Decides after the primary's poll.
    pub fn on_primary<T>(&mut self, polled: Polled<T>) -> (r: MergeStep<T>)
        ensures
            r == primary_step(old(self).primary_ended, polled),
            final(self).primary_ended == ended_after(old(self).primary_ended, polled),
            final(self).primary == old(self).primary,
            final(self).secondary == old(self).secondary,
    {
        if self.primary_ended {
            return MergeStep::End;
        }
        match polled {
            Polled::Ready(x) => MergeStep::Emit(x),
            Polled::Exhausted => {
                self.primary_ended = true;
                MergeStep::End
            },
            Polled::Pending => MergeStep::PollSecondary,
        }
    }

    /// Decides after the secondary's poll.
    pub fn on_secondary<T>(&self, polled: Polled<T>) -> (r: Option<T>)
        ensures
            r == secondary_step(polled),
    {
        match polled {
            Polled::Ready(x) => Some(x),
            _ => None,
        }
    }
}

/// Once the primary stream has ended, the merged stream hands out nothing
/// more, secondary items included; and a primary item that is ready is
/// handed out before any secondary item.
pub proof fn lemma_primary_governs<T>(ended: bool, rounds: Seq<(Polled<T>, Polled<T>)>)
    ensures
        merged_outputs(ended, rounds).len() == rounds.len(),
        forall|i: int, j: int|
            #![trigger rounds[i], merged_outputs(ended, rounds)[j]]
            0 <= i < j < rounds.len() && rounds[i].0 is Exhausted ==> merged_outputs(
                ended,
                rounds,
            )[j] is End,
        forall|i: int|
            0 <= i < rounds.len() && rounds[i].0 is Ready ==> !(#[trigger] merged_outputs(
                ended,
                rounds,
            )[i] is Secondary),
    decreases rounds.len(),
{
    if rounds.len() > 0 {
        let prev = rounds.drop_last();
        lemma_primary_governs(ended, prev);
        lemma_ended_stays(ended, prev);
        let outs = merged_outputs(ended, rounds);
        assert forall|i: int, j: int|
            #![trigger rounds[i], outs[j]]
            0 <= i < j < rounds.len() && rounds[i].0 is Exhausted implies outs[j] is End by {
            if j < prev.len() {
                assert(outs[j] == merged_outputs(ended, prev)[j]);
                assert(prev[i] == rounds[i]);
            } else {
                assert(prev[i] == rounds[i]);
            }
        }
        assert forall|i: int| 0 <= i < rounds.len() && rounds[i].0 is Ready implies !(
        #[trigger] outs[i] is Secondary) by {
            if i < prev.len() {
                assert(outs[i] == merged_outputs(ended, prev)[i]);
                assert(prev[i] == rounds[i]);
            }
        }
    }
}

proof fn lemma_ended_stays<T>(ended: bool, rounds: Seq<(Polled<T>, Polled<T>)>)
    ensures
        forall|i: int|
            0 <= i < rounds.len() && #[trigger] rounds[i].0 is Exhausted ==> ended_after_rounds(
                ended,
                rounds,
            ),
    decreases rounds.len(),
{
    if rounds.len() > 0 {
        let prev = rounds.drop_last();
        lemma_ended_stays(ended, prev);
        assert forall|i: int|
            0 <= i < rounds.len() && #[trigger] rounds[i].0 is Exhausted implies ended_after_rounds(
            ended,
            rounds,
        ) by {
            if i < prev.len() {
                assert(prev[i] == rounds[i]);
            }
        }
    }
}

} // verus!
