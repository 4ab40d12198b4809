use vstd::prelude::*;

use vstd::arithmetic::mul::lemma_mul_upper_bound;

verus! {

/// The largest screen row or column handled; curses keeps coordinates in a
/// `short`.
pub const MAX_COORD: i32 = 32767;

/// A frame number that no flight reaches from a launch row of at most
/// `MAX_COORD`.
pub const MAX_FRAME: u32 = 3162;

/// The largest `s` with `s * s <= n`.
pub open spec fn floor_sqrt(n: nat) -> nat
    decreases n,
{
    if n == 0 {
        0
    } else {
        let r = floor_sqrt((n - 1) as nat);
        if (r + 1) * (r + 1) <= n {
            r + 1
        } else {
            r
        }
    }
}

pub proof fn lemma_floor_sqrt(n: nat)
    ensures
        floor_sqrt(n) * floor_sqrt(n) <= n,
        n < (floor_sqrt(n) + 1) * (floor_sqrt(n) + 1),
    decreases n,
{
    if n > 0 {
        lemma_floor_sqrt((n - 1) as nat);
        let r = floor_sqrt((n - 1) as nat);
        assert((r + 1) * (r + 1) < (r + 1 + 1) * (r + 1 + 1)) by (nonlinear_arith);
        if (r + 1) * (r + 1) <= n {
            let f = floor_sqrt(n);
            assert(f == r + 1);
            assert(n < (r + 1 + 1) * (r + 1 + 1));
            assert(f * f <= n);
            assert(n < (f + 1) * (f + 1));
        } else {
            let f = floor_sqrt(n);
            assert(f == r);
            assert(f * f <= n);
            assert(n < (f + 1) * (f + 1));
        }
    } else {
        assert(floor_sqrt(0) == 0);
        assert(0 * 0 == 0 && (0 + 1) * (0 + 1) == 1) by (nonlinear_arith);
    }
}

proof fn lemma_square_monotone(a: int, b: int)
    requires
        0 <= a <= b,
    ensures
        a * a <= b * b,
{
    assert(a * a <= b * b) by (nonlinear_arith)
        requires
            0 <= a <= b,
    ;
}

/// Any `s` that brackets `n` between its square and the next is the floor of
/// the square root.
pub proof fn lemma_floor_sqrt_unique(n: nat, s: nat)
    requires
        s * s <= n < (s + 1) * (s + 1),
    ensures
        s == floor_sqrt(n),
{
    lemma_floor_sqrt(n);
    let r = floor_sqrt(n);
    if s < r {
        lemma_square_monotone(s + 1int, r as int);
    } else if r < s {
        lemma_square_monotone(r + 1int, s as int);
    }
}

/// The integer square root, rounded down.
pub fn isqrt(n: u64) -> (r: u64)
    ensures
        r == floor_sqrt(n as nat),
{
    let mut lo: u64 = 0;
    let mut hi: u64 = 0x1_0000_0000;
    assert(hi * hi > u64::MAX) by (nonlinear_arith)
        requires
            hi == 0x1_0000_0000u64,
    ;
    while hi - lo > 1
        invariant
            lo < hi <= 0x1_0000_0000,
            lo * lo <= n,
            n < hi * hi,
        decreases hi - lo,
    {
        let mid = lo + (hi - lo) / 2;
        assert(mid * mid <= 0xffff_ffff * 0xffff_ffffu64) by (nonlinear_arith)
            requires
                mid < 0x1_0000_0000,
        ;
        if mid * mid <= n {
            lo = mid;
        } else {
            hi = mid;
        }
    }
    proof {
        lemma_floor_sqrt_unique(n as nat, lo as nat);
    }
    lo
}

/// The smallest `s` with `n <= s * s`.
pub open spec fn ceil_sqrt(n: nat) -> nat {
    if floor_sqrt(n) * floor_sqrt(n) == n {
        floor_sqrt(n)
    } else {
        floor_sqrt(n) + 1
    }
}

// Physics of a shot launched `h` rows above the bottom from column `c`.
// Frame `k` is at time `t = k / 10`; the launch speeds are
// `v0y = sqrt(19.6 * h)` upwards and `v0x = c / 2` (integer division) to the
// right, and gravity is 9.8. Lengths are counted in thousandths of a cell, so
// that every quantity below is an integer:
//   upward travel without gravity  = sqrt(lift_sq(h, k)),
//   fall due to gravity            = fall(k),
//   rightward travel               = reach(c, k).

/// Square of `1000 * v0y * t`.
pub open spec fn lift_sq(h: int, k: int) -> int {
    196000 * h * (k * k)
}

/// `1000 * 4.9 * t * t`.
pub open spec fn fall(k: int) -> int {
    49 * (k * k)
}

/// `1000 * v0x * t`.
pub open spec fn reach(c: int, k: int) -> int {
    100 * (c / 2) * k
}

/// Height above the bottom row at frame `k`, in cells, truncated toward zero:
/// `trunc((sqrt(lift_sq) - fall) / 1000)`.
pub open spec fn rise(h: int, k: int) -> int {
    let l = lift_sq(h, k);
    let f = fall(k);
    if l >= f * f {
        (floor_sqrt(l as nat) - f) / 1000
    } else {
        -((f - ceil_sqrt(l as nat)) / 1000)
    }
}

/// Distance from the left edge at frame `k`, in cells, truncated toward zero.
pub open spec fn advance(c: int, k: int) -> int {
    (c / 2) * k / 10
}

/// The screen row of the projectile at frame `k`.
pub open spec fn screen_row(h: int, k: int, max_y: int) -> int {
    max_y - rise(h, k)
}

/// The three drawings of the projectile, by the steepness of its flight.
#[derive(PartialEq, Eq, Structural, Clone, Copy, Debug)]
pub enum Sprite {
    Straight,
    Angled,
    Upright,
}

/// The drawing for frame `k`, chosen by the angle `atan(2 * y / x)` of the
/// displacement `(x, y)` from the launch point: under 30 degrees `Straight`,
/// under 60 degrees `Angled`, else `Upright`. With no horizontal displacement
/// the angle is taken as 90 degrees.
///
/// With `Y = sqrt(l) - f` and `X = reach`, the angle is under 30 degrees when
/// `Y < 0` or `12 * Y * Y < X * X`, and under 60 degrees when `Y < 0` or
/// `4 * Y * Y < 3 * X * X`; the tests below are these with the square root
/// squared out.
pub open spec fn sprite_for(h: int, c: int, k: int) -> Sprite {
    let l = lift_sq(h, k);
    let f = fall(k);
    let x = reach(c, k);
    let m = 12 * (l + f * f) - x * x;
    let n = 4 * (l + f * f) - 3 * (x * x);
    if x == 0 {
        Sprite::Upright
    } else if l < f * f || m < 0 || m * m < 576 * (f * f) * l {
        Sprite::Straight
    } else if n < 0 || n * n < 64 * (f * f) * l {
        Sprite::Angled
    } else {
        Sprite::Upright
    }
}

proof fn lemma_sqrt_vs(l: nat, f: nat)
    ensures
        l >= f * f ==> floor_sqrt(l) >= f,
        l < f * f ==> ceil_sqrt(l) <= f,
{
    lemma_floor_sqrt(l);
    let s = floor_sqrt(l);
    if l >= f * f && s < f {
        lemma_square_monotone(s + 1int, f as int);
    }
    if l < f * f && s >= f {
        lemma_square_monotone(f as int, s as int);
    }
}

/// The projectile's height above the bottom row at frame `frame`.
pub fn rise_at(launch_row: i32, frame: u32) -> (r: i64)
    requires
        0 <= launch_row <= MAX_COORD,
        frame <= MAX_FRAME,
    ensures
        r == rise(launch_row as int, frame as int),
        -490000 <= r <= 253500,
{
    let k = frame as u64;
    let h = launch_row as u64;
    assert(k * k <= 9998244) by (nonlinear_arith)
        requires
            k <= 3162,
    ;
    let kk = k * k;
    assert(196000 * h * kk <= 64212042385008000) by (nonlinear_arith)
        requires
            h <= 32767,
            kk <= 9998244,
    ;
    let l = 196000 * h * kk;
    let f = 49 * kk;
    assert(f * f <= 240015684283569936) by (nonlinear_arith)
        requires
            f <= 489913956,
    ;
    proof {
        lemma_sqrt_vs(l as nat, f as nat);
        lemma_floor_sqrt(l as nat);
    }
    let s = isqrt(l);
    assert(s <= 253_500_000) by (nonlinear_arith)
        requires
            s * s <= l,
            l <= 64212042385008000,
    ;
    if l >= f * f {
        ((s - f) / 1000) as i64
    } else {
        let c = if s * s == l {
            s
        } else {
            s + 1
        };
        -(((f - c) / 1000) as i64)
    }
}

/// The projectile's distance from the left edge at frame `frame`.
pub fn advance_at(launch_col: i32, frame: u32) -> (r: i64)
    requires
        0 <= launch_col <= MAX_COORD,
        frame <= MAX_FRAME,
    ensures
        r == advance(launch_col as int, frame as int),
        0 <= r <= 5180304,
{
    let v = (launch_col / 2) as i64;
    assert(v * frame <= 16383 * 3162) by (nonlinear_arith)
        requires
            0 <= v <= 16383,
            frame <= 3162,
    ;
    v * (frame as i64) / 10
}

/// The drawing of the projectile at frame `frame`.
pub fn sprite_at(launch_row: i32, launch_col: i32, frame: u32) -> (r: Sprite)
    requires
        0 <= launch_row <= MAX_COORD,
        0 <= launch_col <= MAX_COORD,
        frame <= MAX_FRAME,
    ensures
        r == sprite_for(launch_row as int, launch_col as int, frame as int),
{
    let k = frame as i128;
    let h = launch_row as i128;
    let v = (launch_col / 2) as i128;
    assert(k * k <= 9998244) by (nonlinear_arith)
        requires
            0 <= k <= 3162,
    ;
    let kk = k * k;
    assert(196000 * h * kk <= 64212042385008000 && 100 * v * k <= 5180304600) by (nonlinear_arith)
        requires
            0 <= h <= 32767,
            0 <= kk <= 9998244,
            0 <= v <= 16383,
            0 <= k <= 3162,
    ;
    let l = 196000 * h * kk;
    let f = 49 * kk;
    let x = 100 * v * k;
    assert(f * f <= 240015684283569936 && x * x <= 26835555748781160000) by (nonlinear_arith)
        requires
            0 <= f <= 489913956,
            0 <= x <= 5180304600,
    ;
    let ff = f * f;
    let xx = x * x;
    assert(576 * ff * l <= 8877252840355175739850371409625088000 && 64 * ff * l <= 986361426706130637761152378847232000)
        by (nonlinear_arith)
        requires
            0 <= ff <= 240015684283569936,
            0 <= l <= 64212042385008000,
    ;
    let m = 12 * (l + ff) - xx;
    let n = 4 * (l + ff) - 3 * xx;
    if x == 0 {
        Sprite::Upright
    } else if l < ff || m < 0 || {
        assert(m * m <= 13327849393046059203806908104866893824) by (nonlinear_arith)
            requires
                0 <= m <= 3650732720022935232,
        ;
        m * m < 576 * ff * l
    } {
        Sprite::Straight
    } else if n < 0 || {
        assert(n * n <= 13327849393046059203806908104866893824) by (nonlinear_arith)
            requires
                0 <= n <= 3650732720022935232,
        ;
        n * n < 64 * ff * l
    } {
        Sprite::Angled
    } else {
        Sprite::Upright
    }
}

} // verus!
