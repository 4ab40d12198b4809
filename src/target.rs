use vstd::prelude::*;

verus! {

/// The bouncing target: its row, its fixed column, and the direction flag.
///
/// When `going_down` is set the row decreases on the next tick, otherwise it
/// increases; the flag is flipped first whenever the row touches an edge.
#[derive(PartialEq, Eq, Structural, Clone, Copy, Debug)]
pub struct Target {
    pub y: i32,
    pub x: i32,
    pub going_down: bool,
}

impl Target {
    /// The state invariant on a screen of `max_y` rows: the row is on the
    /// screen, and at each edge the flag points the way the next tick turns.
    pub open spec fn wf(self, max_y: i32) -> bool {
        &&& 2 <= max_y
        &&& 0 <= self.y < max_y
        &&& self.y == 0 ==> self.going_down
        &&& self.y == max_y - 1 ==> !self.going_down
    }

    /// The state after one tick.
    pub open spec fn next(self, max_y: i32) -> Target {
        let flip = self.y == 0 || self.y == max_y - 1;
        let down = if flip { !self.going_down } else { self.going_down };
        let y = if down { self.y - 1 } else { self.y + 1 };
        Target { y: y as i32, x: self.x, going_down: down }
    }

    /// The state after `n` ticks.
    pub open spec fn after(self, max_y: i32, n: nat) -> Target
        decreases n,
    {
        if n == 0 {
            self
        } else {
            self.after(max_y, (n - 1) as nat).next(max_y)
        }
    }

    /// Where the state stands in its cycle of `2 * (max_y - 1)` ticks: the
    /// cycle starts in the top row, runs down to the bottom row and back.
    pub open spec fn phase(self, max_y: i32) -> int {
        if self.going_down && self.y != 0 {
            2 * (max_y - 1) - self.y
        } else {
            self.y as int
        }
    }

    /// A fresh target in the top row at column `x`.
    pub fn new(x: i32) -> (r: Target)
        ensures
            r == (Target { y: 0, x, going_down: true }),
    {
        Target { y: 0, x, going_down: true }
    }

    /// Moves the target one row, bouncing at the top and bottom edges.
    pub fn update(&mut self, max_y: i32)
        requires
            old(self).wf(max_y),
        ensures
            *final(self) == old(self).next(max_y),
            final(self).wf(max_y),
            final(self).going_down != old(self).going_down <==> (old(self).y == 0 || old(self).y
                == max_y - 1),
            final(self).y == old(self).y + 1 || final(self).y == old(self).y - 1,
    {
        if self.y == max_y - 1 || self.y == 0 {
            self.going_down = !self.going_down;
        }
        if self.going_down {
            self.y = self.y - 1;
        } else {
            self.y = self.y + 1;
        }
    }
}

/// The number of ticks after which the target is back where it was.
pub open spec fn period(max_y: i32) -> int {
    2 * (max_y - 1)
}

proof fn lemma_next_phase(t: Target, max_y: i32)
    requires
        t.wf(max_y),
    ensures
        t.next(max_y).wf(max_y),
        0 <= t.phase(max_y) < period(max_y),
        t.next(max_y).phase(max_y) == (t.phase(max_y) + 1) % period(max_y),
{
    let p = period(max_y);
    if t.phase(max_y) + 1 < p {
        vstd::arithmetic::div_mod::lemma_small_mod((t.phase(max_y) + 1) as nat, p as nat);
    } else {
        vstd::arithmetic::div_mod::lemma_mod_self_0(p);
    }
}

proof fn lemma_phase_determines(a: Target, b: Target, max_y: i32)
    requires
        a.wf(max_y),
        b.wf(max_y),
        a.x == b.x,
        a.phase(max_y) == b.phase(max_y),
    ensures
        a == b,
{
}

proof fn lemma_after_phase(t: Target, max_y: i32, n: nat)
    requires
        t.wf(max_y),
    ensures
        t.after(max_y, n).wf(max_y),
        t.after(max_y, n).x == t.x,
        t.after(max_y, n).phase(max_y) == (t.phase(max_y) + n) % period(max_y),
    decreases n,
{
    if n == 0 {
        lemma_next_phase(t, max_y);
        vstd::arithmetic::div_mod::lemma_small_mod(t.phase(max_y) as nat, period(max_y) as nat);
    } else {
        let m = (n - 1) as nat;
        lemma_after_phase(t, max_y, m);
        lemma_next_phase(t.after(max_y, m), max_y);
        let p = period(max_y);
        assert(((t.phase(max_y) + m) % p + 1) % p == (t.phase(max_y) + n) % p) by (nonlinear_arith)
            requires
                p > 0,
                n == m + 1,
        {
            vstd::arithmetic::div_mod::lemma_add_mod_noop(t.phase(max_y) + m, 1, p);
        }
    }
}

/// The target never leaves the screen, and its direction flag flips on a tick
/// exactly when the tick starts in the top or the bottom row.
pub proof fn lemma_target_stays_on_screen(t: Target, max_y: i32, n: nat)
    requires
        t.wf(max_y),
    ensures
        0 <= t.after(max_y, n).y < max_y,
        t.after(max_y, n).wf(max_y),
        t.after(max_y, n + 1).going_down != t.after(max_y, n).going_down <==> (t.after(max_y, n).y
            == 0 || t.after(max_y, n).y == max_y - 1),
{
    lemma_after_phase(t, max_y, n);
}

/// The target's motion repeats every `2 * (max_y - 1)` ticks.
pub proof fn lemma_target_periodic(t: Target, max_y: i32, n: nat)
    requires
        t.wf(max_y),
    ensures
        t.after(max_y, n + period(max_y) as nat) == t.after(max_y, n),
{
    let p = period(max_y);
    lemma_after_phase(t, max_y, n);
    lemma_after_phase(t, max_y, n + p as nat);
    vstd::arithmetic::div_mod::lemma_mod_add_multiples_vanish(t.phase(max_y) + n, p);
    lemma_phase_determines(t.after(max_y, n + p as nat), t.after(max_y, n), max_y);
}

} // verus!
