use vstd::prelude::*;

use crate::flight::MAX_COORD;
use crate::shot::Shot;

verus! {

/// The running tally: hits in a row, and misses in a row.
#[derive(PartialEq, Eq, Structural, Clone, Copy, Debug)]
pub struct Score {
    pub score: u64,
    pub consecutive_fails: u64,
}

/// The number of entries equal to `b` at the end of `o`.
pub open spec fn trailing(o: Seq<bool>, b: bool) -> nat
    decreases o.len(),
{
    if o.len() == 0 || o.last() != b {
        0
    } else {
        trailing(o.drop_last(), b) + 1
    }
}

impl Score {
    /// The tally after one more shot.
    pub open spec fn recorded(self, hit: bool) -> Score {
        if hit {
            Score { score: (self.score + 1) as u64, consecutive_fails: 0 }
        } else {
            Score { score: 0, consecutive_fails: (self.consecutive_fails + 1) as u64 }
        }
    }

    /// The tally after the shots `o`, in order; `true` is a hit.
    pub open spec fn played(self, o: Seq<bool>) -> Score
        decreases o.len(),
    {
        if o.len() == 0 {
            self
        } else {
            self.played(o.drop_last()).recorded(o.last())
        }
    }

    /// Whether the target taunts the player: after three misses in a row.
    pub open spec fn taunts(self) -> bool {
        self.consecutive_fails > 2
    }

    /// The tally at the start of a game.
    pub fn new() -> (r: Score)
        ensures
            r == (Score { score: 0, consecutive_fails: 0 }),
    {
        Score { score: 0, consecutive_fails: 0 }
    }

    /// Counts one shot: a hit adds one to the score and clears the misses, a
    /// miss clears the score and adds one to the misses.
    pub fn record(&mut self, hit: bool)
        requires
            hit ==> old(self).score < u64::MAX,
            !hit ==> old(self).consecutive_fails < u64::MAX,
        ensures
            *final(self) == old(self).recorded(hit),
            hit ==> final(self).score == old(self).score + 1 && final(self).consecutive_fails == 0,
            !hit ==> final(self).score == 0 && final(self).consecutive_fails
                == old(self).consecutive_fails + 1,
    {
        if hit {
            self.score = self.score + 1;
            self.consecutive_fails = 0;
        } else {
            self.score = 0;
            self.consecutive_fails = self.consecutive_fails + 1;
        }
    }

    /// Whether the taunt is shown and the alert sounds.
    pub fn taunting(&self) -> (r: bool)
        ensures
            r == self.taunts(),
    {
        self.consecutive_fails > 2
    }

    /// The row of the line under the score banner: one lower while the taunt
    /// is shown.
    pub fn underline_row(&self) -> (r: i32)
        ensures
            r == if self.taunts() {
                2int
            } else {
                1int
            },
    {
        if self.consecutive_fails > 2 {
            2
        } else {
            1
        }
    }

    /// The plural ending of "time" in the score banner.
    pub fn times_suffix(&self) -> (r: &'static str)
        ensures
            self.score == 1 ==> r@ == ""@,
            self.score != 1 ==> r@ == "s"@,
    {
        if self.score == 1 {
            ""
        } else {
            "s"
        }
    }
}

/// From a fresh tally, the score counts the hits at the end of the shots and
/// the miss counter counts the misses at the end.
pub proof fn lemma_counters_are_streaks(o: Seq<bool>)
    requires
        o.len() < u64::MAX,
    ensures
        (Score { score: 0, consecutive_fails: 0 }).played(o).score == trailing(o, true),
        (Score { score: 0, consecutive_fails: 0 }).played(o).consecutive_fails == trailing(o, false),
    decreases o.len(),
{
    if o.len() > 0 {
        lemma_counters_are_streaks(o.drop_last());
        lemma_trailing_bound(o.drop_last(), true);
        lemma_trailing_bound(o.drop_last(), false);
    }
}

proof fn lemma_trailing_bound(o: Seq<bool>, b: bool)
    ensures
        trailing(o, b) <= o.len(),
    decreases o.len(),
{
    if o.len() > 0 {
        lemma_trailing_bound(o.drop_last(), b);
    }
}

/// From a fresh tally, the taunt shows exactly when the last three shots all
/// missed: it starts at the third miss in a row and lasts until the next hit,
/// which clears the misses while the score counts up from zero.
pub proof fn lemma_taunt_after_three_misses(o: Seq<bool>)
    requires
        o.len() < u64::MAX,
    ensures
        (Score { score: 0, consecutive_fails: 0 }).played(o).taunts() <==> (o.len() >= 3 && !o[o.len() - 1] && !o[o.len()
            - 2] && !o[o.len() - 3]),
        o.len() > 0 && o.last() ==> !(Score { score: 0, consecutive_fails: 0 }).played(o).taunts(),
        o.len() > 0 && !o.last() ==> (Score { score: 0, consecutive_fails: 0 }).played(o).score == 0,
        o.len() > 1 && o.last() && !o[o.len() - 2] ==> (Score { score: 0, consecutive_fails: 0 }).played(o).score == 1,
{
    lemma_counters_are_streaks(o);
    reveal_with_fuel(trailing, 4);
    if o.len() >= 1 {
        let o1 = o.drop_last();
        if o1.len() >= 1 {
            let o2 = o1.drop_last();
            if o2.len() >= 1 {
                assert(o2.last() == o[o.len() - 3]);
            }
            assert(o1.last() == o[o.len() - 2]);
        }
    }
}

/// Where a click starts a shot: a press of the primary button in the left
/// half of the screen launches from `max_y - click_row` rows above the bottom,
/// at the clicked column. Any other click does nothing.
pub fn aim(primary_press: bool, click_row: i32, click_col: i32, max_y: i32, max_x: i32) -> (r:
    Option<Shot>)
    requires
        2 <= max_y <= MAX_COORD,
        0 <= max_x <= MAX_COORD,
        0 <= click_row < max_y,
        0 <= click_col < max_x,
    ensures
        primary_press && click_col < max_x / 2 ==> r == Some(
            Shot { launch_row: (max_y - click_row) as i32, launch_col: click_col, max_y, max_x, frame: 0 },
        ),
        !(primary_press && click_col < max_x / 2) ==> r.is_none(),
        r matches Some(s) ==> s.wf() && s.flying(),
{
    if primary_press && click_col < max_x / 2 {
        Some(Shot::new(max_y - click_row, click_col, max_y, max_x))
    } else {
        None
    }
}

} // verus!
