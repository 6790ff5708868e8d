use vstd::prelude::*;

verus! {

/// Positions are measured in thousandths of a pixel; a coordinate never
/// leaves `[-COORD_LIMIT, COORD_LIMIT]`.
pub const COORD_LIMIT: i64 = 1_000_000_000_000_000;

/// The longest step, in milliseconds, that one tick may advance.
pub const MAX_TICK_MS: u64 = 1_000_000_000;

/// The largest displacement that one steering step may be asked for.
pub const MAX_STEP: i64 = 1_000_000_000_000;

/// A point on the play field, in thousandths of a pixel.
#[derive(Clone, Copy, Debug, PartialEq, Eq, Structural)]
pub struct Pos {
    pub x: i64,
    pub y: i64,
}

pub open spec fn in_field(v: int) -> bool {
    -COORD_LIMIT <= v <= COORD_LIMIT
}

impl Pos {
    pub open spec fn wf(self) -> bool {
        in_field(self.x as int) && in_field(self.y as int)
    }
}

/// Squared euclidean distance.
pub open spec fn dist2(a: Pos, b: Pos) -> int {
    (a.x - b.x) * (a.x - b.x) + (a.y - b.y) * (a.y - b.y)
}

/// `r` is the integer square root of `n`.
pub open spec fn is_root(n: int, r: int) -> bool {
    0 <= r && r * r <= n < (r + 1) * (r + 1)
}

/// The integer square root (the largest `r` with `r * r <= n`).
pub open spec fn root(n: nat) -> int {
    choose|r: int| is_root(n as int, r)
}

/// The component `d` of a direction of length `len`, rescaled to length
/// `step` and rounded toward zero.
pub open spec fn scale(d: int, step: int, len: int) -> int {
    if len <= 0 {
        0
    } else if d >= 0 {
        (d * step) / len
    } else {
        -(((-d) * step) / len)
    }
}

/// The integer square root rounded up: the least `r` with `r * r >= n`.
pub open spec fn root_up(n: nat) -> int {
    if root(n) * root(n) == n {
        root(n)
    } else {
        root(n) + 1
    }
}

/// The displacement of `step` along the direction from `from` to `to`,
/// each component rounded toward zero. The direction is divided by the
/// distance rounded up, so no component is longer than the exact one.
/// Two points in the same place give no direction, and so no displacement.
pub open spec fn steer_spec(to: Pos, from: Pos, step: int) -> (int, int) {
    let len = root_up(dist2(to, from) as nat);
    (scale(to.x - from.x, step, len), scale(to.y - from.y, step, len))
}

/// `v` brought back inside the play field.
pub open spec fn clamp_spec(v: int) -> int {
    if v < -COORD_LIMIT {
        -COORD_LIMIT as int
    } else if v > COORD_LIMIT {
        COORD_LIMIT as int
    } else {
        v
    }
}

/// `p` moved by `(dx, dy)`, each coordinate held inside the play field.
pub open spec fn shift_spec(p: Pos, dx: int, dy: int) -> Pos {
    Pos { x: clamp_spec(p.x + dx) as i64, y: clamp_spec(p.y + dy) as i64 }
}

proof fn lemma_root_unique(n: int, r1: int, r2: int)
    requires
        is_root(n, r1),
        is_root(n, r2),
    ensures
        r1 == r2,
{
    if r1 < r2 {
        assert((r1 + 1) * (r1 + 1) <= r2 * r2) by (nonlinear_arith)
            requires 0 <= r1 + 1 <= r2;
    } else if r2 < r1 {
        assert((r2 + 1) * (r2 + 1) <= r1 * r1) by (nonlinear_arith)
            requires 0 <= r2 + 1 <= r1;
    }
}

/// Every natural number has an integer square root.
pub proof fn lemma_root_exists(n: nat)
    ensures
        is_root(n as int, root(n)),
{
    assert(n < (n + 1) * (n + 1)) by (nonlinear_arith);
    let r = root_below(n, n + 1);
    assert(is_root(n as int, r));
    assert(exists|k: int| is_root(n as int, k));
}

/// The integer square root of `n`, found below `b` where `n < b * b`.
proof fn root_below(n: nat, b: nat) -> (r: int)
    requires
        n < b * b,
    ensures
        is_root(n as int, r),
    decreases b,
{
    if b == 0 {
        assert(false);
        0
    } else if (b - 1) * (b - 1) <= n {
        assert((b - 1 + 1) * (b - 1 + 1) == b * b);
        b - 1
    } else {
        root_below(n, (b - 1) as nat)
    }
}

/// Anything that is an integer square root is the one `root` names.
pub proof fn lemma_root_is(n: nat, r: int)
    requires
        is_root(n as int, r),
    ensures
        root(n) == r,
{
    let c = root(n);
    assert(is_root(n as int, c));
    lemma_root_unique(n as int, r, c);
}

/// The integer square root of `n`.
pub fn isqrt(n: u128) -> (r: u64)
    requires
        n < 0x100_0000_0000_0000_0000_0000_0000,
    ensures
        r as int == root(n as nat),
        is_root(n as int, r as int),
        r < 0x10_0000_0000_0000,
{
    let mut lo: u64 = 0;
    let mut hi: u64 = 0x10_0000_0000_0000;
    assert(0x10_0000_0000_0000u64 as int * 0x10_0000_0000_0000u64 as int
        == 0x100_0000_0000_0000_0000_0000_0000) by (nonlinear_arith);
    while hi - lo > 1
        invariant
            lo < hi <= 0x10_0000_0000_0000,
            lo as int * lo as int <= n as int,
            n < hi as int * hi as int,
        decreases hi - lo,
    {
        let mid: u64 = lo + (hi - lo) / 2;
        assert(mid as int * mid as int <= 0x100_0000_0000_0000_0000_0000_0000) by (nonlinear_arith)
            requires mid <= 0x10_0000_0000_0000;
        let sq: u128 = mid as u128 * mid as u128;
        if sq <= n {
            lo = mid;
        } else {
            hi = mid;
        }
    }
    assert(hi == lo + 1);
    proof {
        lemma_root_is(n as nat, lo as int);
    }
    lo
}

/// The integer square root of `n`, rounded up.
pub fn isqrt_up(n: u128) -> (r: u64)
    requires
        n < 0x100_0000_0000_0000_0000_0000_0000,
    ensures
        r as int == root_up(n as nat),
        n <= r as int * r as int,
        r == 0 || (r - 1) * (r - 1) < n,
        r <= 0x10_0000_0000_0000,
{
    let r = isqrt(n);
    assert(r as int * r as int <= 0x100_0000_0000_0000_0000_0000_0000) by (nonlinear_arith)
        requires r < 0x10_0000_0000_0000;
    if r as u128 * r as u128 == n {
        assert(r == 0 || (r - 1) * (r - 1) < r * r) by (nonlinear_arith)
            requires r >= 0;
        r
    } else {
        assert((r + 1) * (r + 1) > n);
        r + 1
    }
}

/// The squared distance between two points of the field.
pub fn distance_squared(a: Pos, b: Pos) -> (r: u128)
    requires
        a.wf(),
        b.wf(),
    ensures
        r as int == dist2(a, b),
        r < 0x100_0000_0000_0000_0000_0000_0000,
{
    let dx: i128 = a.x as i128 - b.x as i128;
    let dy: i128 = a.y as i128 - b.y as i128;
    let ax: u128 = if dx >= 0 { dx as u128 } else { (-dx) as u128 };
    let ay: u128 = if dy >= 0 { dy as u128 } else { (-dy) as u128 };
    assert(ax * ax <= 4_000_000_000_000_000_000_000_000_000_000) by (nonlinear_arith)
        requires ax <= 2_000_000_000_000_000;
    assert(ay * ay <= 4_000_000_000_000_000_000_000_000_000_000) by (nonlinear_arith)
        requires ay <= 2_000_000_000_000_000;
    assert(ax * ax == dx * dx) by (nonlinear_arith)
        requires ax == dx || ax == -dx;
    assert(ay * ay == dy * dy) by (nonlinear_arith)
        requires ay == dy || ay == -dy;
    ax * ax + ay * ay
}

/// `|d| * step / len` with the sign of `d`, for `|d| <= len`.
fn scale_component(d: i64, step: i64, len: u64) -> (r: i64)
    requires
        0 <= step <= MAX_STEP,
        0 < len <= 0x10_0000_0000_0000,
        -(len as int) <= d <= len,
    ensures
        r as int == scale(d as int, step as int, len as int),
        -step <= r <= step,
{
    let a: u128 = if d >= 0 { d as u128 } else { (-(d as i128)) as u128 };
    assert(a * (step as u128) <= len as int * step) by (nonlinear_arith)
        requires a <= len, 0 <= step;
    assert(len as int * step <= 0x10_0000_0000_0000 * MAX_STEP) by (nonlinear_arith)
        requires len <= 0x10_0000_0000_0000, 0 <= step <= MAX_STEP;
    let p: u128 = a * (step as u128);
    let q: u128 = p / (len as u128);
    assert(q <= step) by (nonlinear_arith)
        requires q as int == p as int / (len as int), p <= len as int * step, len > 0, step >= 0;
    if d >= 0 {
        q as i64
    } else {
        -(q as i64)
    }
}

/// The displacement of `step` along the direction from `from` to `to`,
/// each component rounded toward zero, so that it is never longer than
/// `step`; none when the two points coincide.
pub fn steer(to: Pos, from: Pos, step: i64) -> (r: (i64, i64))
    requires
        to.wf(),
        from.wf(),
        0 <= step <= MAX_STEP,
    ensures
        (r.0 as int, r.1 as int) == steer_spec(to, from, step as int),
        -step <= r.0 <= step,
        -step <= r.1 <= step,
{
    let n = distance_squared(to, from);
    let len = isqrt_up(n);
    let dx: i64 = to.x - from.x;
    let dy: i64 = to.y - from.y;
    if len == 0 {
        proof {
            let ddx = dx as int;
            let ddy = dy as int;
            assert(n == ddx * ddx + ddy * ddy);
            assert(len as int * len as int == 0) by (nonlinear_arith) requires len == 0;
            assert(ddx == 0 && ddy == 0) by (nonlinear_arith)
                requires n == ddx * ddx + ddy * ddy, n <= 0;
        }
        (0, 0)
    } else {
        proof {
            let ddx = dx as int;
            let ddy = dy as int;
            let l = len as int;
            assert(ddx * ddx <= n) by (nonlinear_arith)
                requires n == ddx * ddx + ddy * ddy;
            assert(ddy * ddy <= n) by (nonlinear_arith)
                requires n == ddx * ddx + ddy * ddy;
            assert(-l <= ddx <= l) by (nonlinear_arith)
                requires ddx * ddx <= l * l, l >= 0;
            assert(-l <= ddy <= l) by (nonlinear_arith)
                requires ddy * ddy <= l * l, l >= 0;
        }
        (scale_component(dx, step, len), scale_component(dy, step, len))
    }
}

/// Brings `v` back inside the play field.
pub fn clamp_coord(v: i128) -> (r: i64)
    ensures
        r as int == clamp_spec(v as int),
        in_field(r as int),
{
    if v < -(COORD_LIMIT as i128) {
        -COORD_LIMIT
    } else if v > COORD_LIMIT as i128 {
        COORD_LIMIT
    } else {
        v as i64
    }
}

/// Moves `p` by `(dx, dy)`, holding it inside the play field.
pub fn shift(p: Pos, dx: i128, dy: i128) -> (r: Pos)
    requires
        p.wf(),
        -0x100_0000_0000_0000_0000_0000_0000 <= dx <= 0x100_0000_0000_0000_0000_0000_0000,
        -0x100_0000_0000_0000_0000_0000_0000 <= dy <= 0x100_0000_0000_0000_0000_0000_0000,
    ensures
        r == shift_spec(p, dx as int, dy as int),
        r.wf(),
{
    Pos { x: clamp_coord(p.x as i128 + dx), y: clamp_coord(p.y as i128 + dy) }
}

/// Two points push each other equally and in opposite directions, so each
/// unordered pair contributes one push to either side.
pub proof fn lemma_steer_opposite(a: Pos, b: Pos, step: int)
    ensures
        steer_spec(a, b, step).0 == -steer_spec(b, a, step).0,
        steer_spec(a, b, step).1 == -steer_spec(b, a, step).1,
{
    assert(dist2(a, b) == dist2(b, a)) by (nonlinear_arith);
    let len = root_up(dist2(a, b) as nat);
    lemma_scale_odd(a.x - b.x, step, len);
    lemma_scale_odd(a.y - b.y, step, len);
    assert(b.x - a.x == -(a.x - b.x));
    assert(b.y - a.y == -(a.y - b.y));
}

proof fn lemma_scale_odd(d: int, step: int, len: int)
    ensures
        scale(-d, step, len) == -scale(d, step, len),
{
    if len > 0 && d == 0 {
        assert(d * step == 0);
        assert((-d) * step == 0);
    }
}

} // verus!
