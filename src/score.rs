use vstd::prelude::*;

verus! {

/// The message sent when a word has been typed in full.
#[derive(Clone, Copy, Debug, PartialEq, Eq, Structural)]
pub struct WordCompleted {
    /// The number of characters of the completed word.
    pub length: usize,
}

/// Points for one completed word of `length` characters.
pub open spec fn points(length: nat) -> nat {
    10 * length
}

/// Points for all the messages of `msgs`.
pub open spec fn total_points(msgs: Seq<WordCompleted>) -> nat
    decreases msgs.len(),
{
    if msgs.len() == 0 {
        0
    } else {
        total_points(msgs.drop_last()) + points(msgs.last().length as nat)
    }
}

/// A prefix of the messages is worth no more than all of them.
pub proof fn lemma_total_points_prefix(msgs: Seq<WordCompleted>, i: int)
    requires
        0 <= i <= msgs.len(),
    ensures
        total_points(msgs.take(i)) <= total_points(msgs),
    decreases msgs.len() - i,
{
    if i < msgs.len() {
        lemma_total_points_prefix(msgs, i + 1);
        assert(msgs.take(i + 1).drop_last() =~= msgs.take(i));
    } else {
        assert(msgs.take(i) =~= msgs);
    }
}

/// The player's score; its only writer is this keeper.
pub struct ScoreKeeper {
    score: u64,
}

impl View for ScoreKeeper {
    type V = nat;

    closed spec fn view(&self) -> nat {
        self.score as nat
    }
}

impl ScoreKeeper {
    /// A score of zero.
    pub fn new() -> (r: ScoreKeeper)
        ensures
            r@ == 0,
    {
        ScoreKeeper { score: 0 }
    }

    pub fn score(&self) -> (r: u64)
        ensures
            r == self@,
    {
        self.score
    }

    /// Adds the points of one completed word.
    pub fn record(&mut self, msg: WordCompleted)
        requires
            old(self)@ + points(msg.length as nat) <= u64::MAX,
        ensures
            final(self)@ == old(self)@ + points(msg.length as nat),
    {
        self.score = self.score + 10 * msg.length as u64;
    }

    /// Adds the points of every completed word, in order.
    pub fn apply(&mut self, msgs: &Vec<WordCompleted>)
        requires
            old(self)@ + total_points(msgs@) <= u64::MAX,
        ensures
            final(self)@ == old(self)@ + total_points(msgs@),
    {
        let ghost start = self@;
        let mut i: usize = 0;
        while i < msgs.len()
            invariant
                i <= msgs@.len(),
                start + total_points(msgs@) <= u64::MAX,
                self@ == start + total_points(msgs@.take(i as int)),
            decreases msgs@.len() - i,
        {
            proof {
                assert(msgs@.take(i + 1).drop_last() =~= msgs@.take(i as int));
                lemma_total_points_prefix(msgs@, i + 1);
            }
            self.record(msgs[i]);
            i = i + 1;
        }
        assert(msgs@.take(i as int) =~= msgs@);
    }
}

} // verus!
