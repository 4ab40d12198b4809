use vstd::prelude::*;

use crate::flight::{
    advance, advance_at, ceil_sqrt, fall, floor_sqrt, lemma_floor_sqrt, lift_sq, rise, rise_at,
    screen_row, sprite_at, sprite_for, Sprite, MAX_COORD, MAX_FRAME,
};
use crate::target::Target;

verus! {

/// `a` lies within five cells of `b`.
pub open spec fn near(a: int, b: int) -> bool {
    b - 5 <= a <= b + 5
}

/// One projectile in flight: where it was launched from, the screen it flies
/// over, and the number of frames already shown.
#[derive(PartialEq, Eq, Structural, Clone, Copy, Debug)]
pub struct Shot {
    pub launch_row: i32,
    pub launch_col: i32,
    pub max_y: i32,
    pub max_x: i32,
    pub frame: u32,
}

/// What one frame of a shot comes to: a hit, which ends the shot before
/// anything is drawn, or the projectile's place and drawing for this frame,
/// with whether the shot has now left the screen.
#[derive(PartialEq, Eq, Structural, Clone, Copy, Debug)]
pub enum Frame {
    Hit,
    Drawn { row: i64, col: i64, sprite: Sprite, landed: bool },
}

impl Shot {
    pub open spec fn wf(self) -> bool {
        &&& 2 <= self.max_y <= MAX_COORD
        &&& 0 <= self.max_x <= MAX_COORD
        &&& 0 <= self.launch_row <= self.max_y
        &&& 0 <= self.launch_col <= self.max_x
    }

    /// At frame `k` the projectile has fallen below the bottom or passed the
    /// right edge, which ends the shot as a miss.
    pub open spec fn lands_at(self, k: int) -> bool {
        rise(self.launch_row as int, k) < 0 || advance(self.launch_col as int, k)
            > self.max_x
    }

    /// At frame `k` the projectile is within five rows and five columns of
    /// the target `t`.
    pub open spec fn strikes_at(self, t: Target, k: int) -> bool {
        &&& near(t.y as int, screen_row(self.launch_row as int, k, self.max_y as int))
        &&& near(t.x as int, advance(self.launch_col as int, k))
    }

    /// No frame shown so far has ended the shot.
    pub open spec fn flying(self) -> bool {
        self.frame == 0 || !self.lands_at(self.frame - 1)
    }

    /// Whether the shot, from frame `k` on, hits the target that stood as `t`
    /// at frame 0 (the target moves one tick per frame shown).
    pub open spec fn hits_from(self, t: Target, k: nat) -> bool
        decreases MAX_FRAME - k,
    {
        if self.strikes_at(t.after(self.max_y, k), k as int) {
            true
        } else if self.lands_at(k as int) || k >= MAX_FRAME {
            false
        } else {
            self.hits_from(t, k + 1)
        }
    }

    /// Whether the whole shot hits the target that stood as `t` at launch.
    pub open spec fn hits(self, t: Target) -> bool {
        self.hits_from(t, 0)
    }

    /// A shot launched `launch_row` rows above the bottom of a screen of
    /// `max_y` rows and `max_x` columns, from column `launch_col`.
    pub fn new(launch_row: i32, launch_col: i32, max_y: i32, max_x: i32) -> (r: Shot)
        requires
            2 <= max_y <= MAX_COORD,
            0 <= max_x <= MAX_COORD,
            0 <= launch_row <= max_y,
            0 <= launch_col <= max_x,
        ensures
            r == (Shot { launch_row, launch_col, max_y, max_x, frame: 0 }),
            r.wf(),
            r.flying(),
    {
        Shot { launch_row, launch_col, max_y, max_x, frame: 0 }
    }

    /// Runs one frame: a hit ends the shot with nothing drawn; otherwise the
    /// projectile's place and drawing are worked out, the target moves one
    /// tick, and the frame counter advances.
    pub fn step(&mut self, target: &mut Target) -> (r: Frame)
        requires
            old(self).wf(),
            old(self).flying(),
            old(target).wf(old(self).max_y),
        ensures
            final(self).wf(),
            final(self).launch_row == old(self).launch_row,
            final(self).launch_col == old(self).launch_col,
            final(self).max_y == old(self).max_y,
            final(self).max_x == old(self).max_x,
            final(target).wf(old(self).max_y),
            old(self).strikes_at(*old(target), old(self).frame as int) ==> {
                &&& r == Frame::Hit
                &&& *final(self) == *old(self)
                &&& *final(target) == *old(target)
            },
            !old(self).strikes_at(*old(target), old(self).frame as int) ==> {
                &&& r == (Frame::Drawn {
                    row: screen_row(
                        old(self).launch_row as int,
                        old(self).frame as int,
                        old(self).max_y as int,
                    ) as i64,
                    col: advance(old(self).launch_col as int, old(self).frame as int) as i64,
                    sprite: sprite_for(
                        old(self).launch_row as int,
                        old(self).launch_col as int,
                        old(self).frame as int,
                    ),
                    landed: old(self).lands_at(old(self).frame as int),
                })
                &&& final(self).frame == old(self).frame + 1
                &&& *final(target) == old(target).next(old(self).max_y)
            },
    {
        proof {
            self.lemma_frame_bound();
        }
        let k = self.frame;
        let rise = rise_at(self.launch_row, k);
        let row = self.max_y as i64 - rise;
        let col = advance_at(self.launch_col, k);
        let ty = target.y as i64;
        let tx = target.x as i64;
        if row - 5 <= ty && ty <= row + 5 && col - 5 <= tx && tx <= col + 5 {
            return Frame::Hit;
        }
        let sprite = sprite_at(self.launch_row, self.launch_col, k);
        target.update(self.max_y);
        let landed = rise < 0 || col > self.max_x as i64;
        self.frame = k + 1;
        Frame::Drawn { row, col, sprite, landed }
    }

    /// A frame that is still flying is at most 2173, well below `MAX_FRAME`.
    proof fn lemma_frame_bound(self)
        requires
            self.wf(),
            self.flying(),
        ensures
            self.frame <= 2173,
    {
        if self.frame > 0 {
            lemma_rising_frame_bound(self.launch_row as int, self.frame - 1);
        }
    }
}

/// Plays a whole shot without drawing it, moving the target one tick per frame
/// shown, and returns whether it hit.
pub fn resolve_shot(target: &mut Target, max_y: i32, max_x: i32, launch_row: i32, launch_col: i32) -> (r: bool)
    requires
        2 <= max_y <= MAX_COORD,
        0 <= max_x <= MAX_COORD,
        0 <= launch_row <= max_y,
        0 <= launch_col <= max_x,
        old(target).wf(max_y),
    ensures
        r == (Shot { launch_row, launch_col, max_y, max_x, frame: 0 }).hits(*old(target)),
        final(target).wf(max_y),
        exists|n: nat| *final(target) == old(target).after(max_y, n),
{
    let ghost t0 = *target;
    let ghost start = Shot { launch_row, launch_col, max_y, max_x, frame: 0 };
    let mut shot = Shot::new(launch_row, launch_col, max_y, max_x);
    assert(t0.after(max_y, 0) == t0);
    loop
        invariant
            shot.wf(),
            shot.flying(),
            shot.launch_row == launch_row,
            shot.launch_col == launch_col,
            shot.max_y == max_y,
            shot.max_x == max_x,
            target.wf(max_y),
            *target == t0.after(max_y, shot.frame as nat),
            start == (Shot { launch_row, launch_col, max_y, max_x, frame: 0 }),
            t0 == *old(target),
            start.hits(t0) == start.hits_from(t0, shot.frame as nat),
        decreases MAX_FRAME - shot.frame,
    {
        proof {
            shot.lemma_frame_bound();
        }
        let ghost k = shot.frame;
        match shot.step(target) {
            Frame::Hit => {
                assert(start.hits_from(t0, k as nat));
                assert(*target == t0.after(max_y, k as nat));
                return true;
            },
            Frame::Drawn { landed, .. } => {
                assert(*target == t0.after(max_y, (k + 1) as nat));
                if landed {
                    assert(!start.hits_from(t0, k as nat));
                    return false;
                }
                proof {
                    lemma_rising_frame_bound(launch_row as int, k as int);
                }
            },
        }
    }
}

/// A shot hits exactly when, at some frame before any frame at which it has
/// left the screen, it comes within five rows and five columns of the target
/// as the target then stands; a shot that leaves the screen without ever
/// coming that close misses.
pub proof fn lemma_hit_iff_close_in_flight(shot: Shot, t: Target)
    requires
        shot.wf(),
        t.wf(shot.max_y),
    ensures
        shot.hits(t) <==> exists|k: nat|
            #![trigger shot.strikes_at(t.after(shot.max_y, k), k as int)]
            shot.strikes_at(t.after(shot.max_y, k), k as int) && forall|j: nat|
                j < k ==> !#[trigger] shot.lands_at(j as int),
{
    lemma_hits_from_iff(shot, t, 0);
}

proof fn lemma_hits_from_iff(shot: Shot, t: Target, k: nat)
    requires
        shot.wf(),
    ensures
        shot.hits_from(t, k) <==> exists|m: nat|
            #![trigger shot.strikes_at(t.after(shot.max_y, m), m as int)]
            k <= m && shot.strikes_at(t.after(shot.max_y, m), m as int) && forall|j: nat|
                k <= j < m ==> !#[trigger] shot.lands_at(j as int),
    decreases MAX_FRAME - k,
{
    let rhs = exists|m: nat|
        #![trigger shot.strikes_at(t.after(shot.max_y, m), m as int)]
        k <= m && shot.strikes_at(t.after(shot.max_y, m), m as int) && forall|j: nat|
            k <= j < m ==> !#[trigger] shot.lands_at(j as int);
    if shot.strikes_at(t.after(shot.max_y, k), k as int) {
        assert(forall|j: nat| k <= j < k ==> !#[trigger] shot.lands_at(j as int));
        assert(rhs);
    } else if shot.lands_at(k as int) {
        if rhs {
            let m = choose|m: nat|
                #![trigger shot.strikes_at(t.after(shot.max_y, m), m as int)]
                k <= m && shot.strikes_at(t.after(shot.max_y, m), m as int) && forall|j: nat|
                    k <= j < m ==> !#[trigger] shot.lands_at(j as int);
            assert(!shot.lands_at(k as int));
        }
    } else if k >= MAX_FRAME {
        assert(rise(shot.launch_row as int, k as int) >= 0);
        lemma_rising_frame_bound(shot.launch_row as int, k as int);
    } else {
        lemma_hits_from_iff(shot, t, k + 1);
        if rhs {
            let m = choose|m: nat|
                #![trigger shot.strikes_at(t.after(shot.max_y, m), m as int)]
                k <= m && shot.strikes_at(t.after(shot.max_y, m), m as int) && forall|j: nat|
                    k <= j < m ==> !#[trigger] shot.lands_at(j as int);
            assert(m != k);
            assert(forall|j: nat| k + 1 <= j < m ==> !#[trigger] shot.lands_at(j as int));
        }
        if shot.hits_from(t, k + 1) {
            let m = choose|m: nat|
                #![trigger shot.strikes_at(t.after(shot.max_y, m), m as int)]
                k + 1 <= m && shot.strikes_at(t.after(shot.max_y, m), m as int) && forall|j: nat|
                    k + 1 <= j < m ==> !#[trigger] shot.lands_at(j as int);
            assert(forall|j: nat| k <= j < m ==> !#[trigger] shot.lands_at(j as int));
        }
    }
}

/// While the projectile is not below the bottom, at most 2172 frames have
/// passed.
proof fn lemma_rising_frame_bound(h: int, k: int)
    requires
        0 <= h <= MAX_COORD,
        0 <= k,
        rise(h, k) >= 0,
    ensures
        k <= 2172,
{
    if k > 2172 {
        let a = k * k;
        assert(a >= 2173 * 2173) by (nonlinear_arith)
            requires
                k > 2172,
                a == k * k,
        ;
        let l = lift_sq(h, k);
        let f = fall(k);
        assert(l <= 6422332000 * a) by (nonlinear_arith)
            requires
                l == 196000 * h * a,
                0 <= h <= 32767,
                a >= 0,
        ;
        let s = floor_sqrt(l as nat);
        lemma_floor_sqrt(l as nat);
        if l >= f * f {
            assert(false) by (nonlinear_arith)
                requires
                    l >= f * f,
                    f == 49 * a,
                    l <= 6422332000 * a,
                    a >= 2173 * 2173,
            ;
        } else {
            assert(ceil_sqrt(l as nat) <= s + 1);
            assert(f - 1000 <= s);
            let d = f - 1000;
            assert(d * d <= s * s) by (nonlinear_arith)
                requires
                    0 <= d <= s,
            ;
            assert(2304 * (a * a) <= d * d) by (nonlinear_arith)
                requires
                    d == 49 * a - 1000,
                    a >= 2173 * 2173,
            ;
            assert(false) by (nonlinear_arith)
                requires
                    2304 * (a * a) <= l,
                    l <= 6422332000 * a,
                    a >= 2173 * 2173,
            ;
        }
    }
}

} // verus!
