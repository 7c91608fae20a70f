use vstd::prelude::*;
use crate::geometry::{
    div_toward_zero, floor_sqrt, is_floor_sqrt, trunc_div, Vec3, SCALE, UNIT_BOUND,
};
use crate::keys::{step_held, KeyAction, KeyEvent, KeySet, KEY_A, KEY_D, KEY_S, KEY_W};

verus! {

/// Distance moved along the view direction in one tick: half a unit.
pub const SPEED: i64 = 500;

/// A displacement in fixed-point steps, as mathematical integers.
pub type Delta = (int, int, int);

pub open spec fn delta_add(a: Delta, b: Delta) -> Delta {
    (a.0 + b.0, a.1 + b.1, a.2 + b.2)
}

pub open spec fn delta_neg(a: Delta) -> Delta {
    (-a.0, -a.1, -a.2)
}

pub open spec fn zero_delta() -> Delta {
    (0, 0, 0)
}

/// Every component of `d` lies within one unit.
pub open spec fn unit_bounded(d: Vec3) -> bool {
    -UNIT_BOUND <= d.x <= UNIT_BOUND && -UNIT_BOUND <= d.y <= UNIT_BOUND && -UNIT_BOUND <= d.z
        <= UNIT_BOUND
}

/// `direction * SPEED`.
pub open spec fn forward_delta(d: Vec3) -> Delta {
    (
        trunc_div(d.x * SPEED, SCALE as int),
        trunc_div(d.y * SPEED, SCALE as int),
        trunc_div(d.z * SPEED, SCALE as int),
    )
}

/// Squared length of `cross(f, up)` with `up = (0, 1, 0)`, which is `(-f.z, 0, f.x)`.
pub open spec fn cross_up_len2(f: Delta) -> int {
    f.2 * f.2 + f.0 * f.0
}

/// `normalize(cross(forward, up))`, scaled to `SCALE` per unit; zero where the
/// cross product is zero, i.e. where the view points straight up or down.
pub open spec fn strafe_delta(d: Vec3) -> Delta {
    let f = forward_delta(d);
    let n = cross_up_len2(f);
    if n == 0 {
        zero_delta()
    } else {
        let len = choose|r: int| is_floor_sqrt(n, r);
        (trunc_div(-f.2 * SCALE, len), 0, trunc_div(f.0 * SCALE, len))
    }
}

/// What holding key `k` moves the camera by in one tick.
pub open spec fn key_delta(d: Vec3, k: i32) -> Delta {
    if k == KEY_W {
        forward_delta(d)
    } else if k == KEY_S {
        delta_neg(forward_delta(d))
    } else if k == KEY_D {
        strafe_delta(d)
    } else if k == KEY_A {
        delta_neg(strafe_delta(d))
    } else {
        zero_delta()
    }
}

/// `key_delta(d, k)` if `k` is held, else zero.
pub open spec fn held_delta(d: Vec3, held: Set<i32>, k: i32) -> Delta {
    if held.contains(k) {
        key_delta(d, k)
    } else {
        zero_delta()
    }
}

/// One tick's displacement: the sum of what each held movement key moves by.
pub open spec fn displacement(d: Vec3, held: Set<i32>) -> Delta {
    delta_add(
        delta_add(held_delta(d, held, KEY_W), held_delta(d, held, KEY_A)),
        delta_add(held_delta(d, held, KEY_S), held_delta(d, held, KEY_D)),
    )
}

/// `a + b`, held within the range of `i64`.
pub open spec fn sat_add(a: i64, b: int) -> i64 {
    if a + b > i64::MAX {
        i64::MAX
    } else if a + b < i64::MIN {
        i64::MIN
    } else {
        (a + b) as i64
    }
}

/// `p + delta`, each coordinate held within the range of `i64`.
pub open spec fn moved(p: Vec3, delta: Delta) -> Vec3 {
    Vec3 { x: sat_add(p.x, delta.0), y: sat_add(p.y, delta.1), z: sat_add(p.z, delta.2) }
}

proof fn lemma_floor_sqrt_unique(n: int, r1: int, r2: int)
    requires
        is_floor_sqrt(n, r1),
        is_floor_sqrt(n, r2),
    ensures
        r1 == r2,
{
    if r1 < r2 {
        assert((r1 + 1) * (r1 + 1) <= r2 * r2) by (nonlinear_arith)
            requires 0 <= r1 + 1 <= r2;
    } else if r2 < r1 {
        assert((r2 + 1) * (r2 + 1) <= r1 * r1) by (nonlinear_arith)
            requires 0 <= r2 + 1 <= r1;
    }
}

proof fn lemma_trunc_div_bound(a: int, b: int)
    requires
        b >= 1,
    ensures
        a >= 0 ==> 0 <= trunc_div(a, b) <= a,
        a < 0 ==> a <= trunc_div(a, b) <= 0,
{
    if a >= 0 {
        assert(a / b <= a) by (nonlinear_arith)
            requires a >= 0, b >= 1;
        assert(a / b >= 0) by (nonlinear_arith)
            requires a >= 0, b >= 1;
    } else {
        assert((-a) / b <= -a) by (nonlinear_arith)
            requires -a >= 0, b >= 1;
        assert((-a) / b >= 0) by (nonlinear_arith)
            requires -a >= 0, b >= 1;
    }
}

/// `direction * SPEED`, in fixed-point steps.
pub fn forward_step(d: Vec3) -> (r: Vec3)
    requires
        unit_bounded(d),
    ensures
        (r.x as int, r.y as int, r.z as int) == forward_delta(d),
        -SPEED <= r.x <= SPEED && -SPEED <= r.y <= SPEED && -SPEED <= r.z <= SPEED,
{
    proof {
        lemma_trunc_div_bound(d.x * SPEED, SCALE as int);
        lemma_trunc_div_bound(d.y * SPEED, SCALE as int);
        lemma_trunc_div_bound(d.z * SPEED, SCALE as int);
    }
    let r = Vec3 {
        x: div_toward_zero(d.x * SPEED, SCALE),
        y: div_toward_zero(d.y * SPEED, SCALE),
        z: div_toward_zero(d.z * SPEED, SCALE),
    };
    r
}

/// `normalize(cross(direction * SPEED, up))` in fixed-point steps, or zero
/// where that cross product is zero.
pub fn strafe_step(d: Vec3) -> (r: Vec3)
    requires
        unit_bounded(d),
    ensures
        (r.x as int, r.y as int, r.z as int) == strafe_delta(d),
        -SCALE * SPEED <= r.x <= SCALE * SPEED && r.y == 0 && -SCALE * SPEED <= r.z <= SCALE
            * SPEED,
{
    let f = forward_step(d);
    assert(f.z * f.z <= SPEED * SPEED && f.x * f.x <= SPEED * SPEED) by (nonlinear_arith)
        requires -SPEED <= f.x <= SPEED, -SPEED <= f.z <= SPEED;
    assert(f.z * f.z >= 0 && f.x * f.x >= 0) by (nonlinear_arith);
    let n: u64 = (f.z * f.z + f.x * f.x) as u64;
    if n == 0 {
        return Vec3 { x: 0, y: 0, z: 0 };
    }
    let len = floor_sqrt(n);
    proof {
        let c = choose|r: int| is_floor_sqrt(n as int, r);
        lemma_floor_sqrt_unique(n as int, c, len as int);
        assert(len >= 1) by (nonlinear_arith)
            requires n >= 1, n < (len + 1) * (len + 1), len >= 0;
        assert(len <= 1_000_000) by (nonlinear_arith)
            requires len * len <= 1_000_000_000_000, len >= 0;
    }
    let a: i64 = -f.z * SCALE;
    let b: i64 = f.x * SCALE;
    proof {
        lemma_trunc_div_bound(a as int, len as int);
        lemma_trunc_div_bound(b as int, len as int);
    }
    Vec3 { x: div_toward_zero(a, len as i64), y: 0, z: div_toward_zero(b, len as i64) }
}

/// `a + b`, held within the range of `i64`.
pub fn saturating_add(a: i64, b: i64) -> (r: i64)
    ensures
        r == sat_add(a, b as int),
{
    if b >= 0 {
        if a > i64::MAX - b {
            i64::MAX
        } else {
            a + b
        }
    } else {
        if a < i64::MIN - b {
            i64::MIN
        } else {
            a + b
        }
    }
}

/// A first-person camera: where it stands, where it looks, and which keys
/// are held.
pub struct Camera {
    pub position: Vec3,
    pub direction: Vec3,
    pub keys: KeySet,
}

impl Camera {
    /// The held keys are well formed and the direction is within one unit.
    pub open spec fn wf(&self) -> bool {
        self.keys.wf() && unit_bounded(self.direction)
    }

    /// The camera at startup: five units back on the z axis, looking toward
    /// the origin, no key held.
    pub fn new() -> (r: Camera)
        ensures
            r.wf(),
            r.position == (Vec3 { x: 0, y: 0, z: 5000 }),
            r.direction == (Vec3 { x: 0, y: 0, z: -1000i64 }),
            r.keys@ == Set::<i32>::empty(),
    {
        Camera {
            position: Vec3 { x: 0, y: 0, z: 5 * SCALE },
            direction: Vec3 { x: 0, y: 0, z: -SCALE },
            keys: KeySet::new(),
        }
    }

    /// A camera at `position` looking along `direction`, with no key held;
    /// `None` where a component of `direction` exceeds one unit.
    pub fn with_pose(position: Vec3, direction: Vec3) -> (r: Option<Camera>)
        ensures
            r is None <==> !unit_bounded(direction),
            r matches Some(c) ==> c.wf() && c.position == position && c.direction == direction
                && c.keys@ == Set::<i32>::empty(),
    {
        if -UNIT_BOUND <= direction.x && direction.x <= UNIT_BOUND && -UNIT_BOUND <= direction.y
            && direction.y <= UNIT_BOUND && -UNIT_BOUND <= direction.z && direction.z
            <= UNIT_BOUND {
            Some(Camera { position, direction, keys: KeySet::new() })
        } else {
            None
        }
    }

    /// Records a key press or release; the camera does not move. Every key
    /// is recorded, Escape too: that an Escape press ends the loop is decided
    /// by `FrameLoop::handle`, which does not pass it on.
    pub fn on_key(&mut self, e: KeyEvent)
        requires
            old(self).wf(),
        ensures
            final(self).wf(),
            final(self).keys@ == step_held(old(self).keys@, e),
            final(self).position == old(self).position,
            final(self).direction == old(self).direction,
    {
        self.keys.apply(e);
    }

    /// One tick: moves by the displacement of the held movement keys.
    pub fn advance(&mut self)
        requires
            old(self).wf(),
        ensures
            final(self).wf(),
            final(self).position == moved(
                old(self).position,
                displacement(old(self).direction, old(self).keys@),
            ),
            final(self).direction == old(self).direction,
            final(self).keys@ == old(self).keys@,
            old(self).keys@ == Set::<i32>::empty() ==> final(self).position == old(self).position,
    {
        let f = forward_step(self.direction);
        let s = strafe_step(self.direction);
        let w = self.keys.contains(KEY_W);
        let a = self.keys.contains(KEY_A);
        let b = self.keys.contains(KEY_S);
        let r = self.keys.contains(KEY_D);
        let mut dx: i64 = 0;
        let mut dy: i64 = 0;
        let mut dz: i64 = 0;
        if w {
            dx = dx + f.x;
            dy = dy + f.y;
            dz = dz + f.z;
        }
        if a {
            dx = dx - s.x;
            dy = dy - s.y;
            dz = dz - s.z;
        }
        if b {
            dx = dx - f.x;
            dy = dy - f.y;
            dz = dz - f.z;
        }
        if r {
            dx = dx + s.x;
            dy = dy + s.y;
            dz = dz + s.z;
        }
        proof {
            let ghost d = self.direction;
            assert(displacement(d, self.keys@).0 == dx);
            assert(displacement(d, self.keys@).1 == dy);
            assert(displacement(d, self.keys@).2 == dz);
            if self.keys@ == Set::<i32>::empty() {
                assert(dx == 0 && dy == 0 && dz == 0);
            }
        }
        self.position = Vec3 {
            x: saturating_add(self.position.x, dx),
            y: saturating_add(self.position.y, dy),
            z: saturating_add(self.position.z, dz),
        };
    }
}

/// Motion adds up over keys: for two sets of held keys with no key in common,
/// the displacement of holding both is the sum of the displacements of each.
/// Holding forward and strafe-right together moves by forward plus strafe-right.
pub proof fn lemma_displacement_additive(d: Vec3, a: Set<i32>, b: Set<i32>)
    requires
        a.disjoint(b),
    ensures
        displacement(d, a.union(b)) == delta_add(displacement(d, a), displacement(d, b)),
{
    lemma_held_delta_union(d, a, b, KEY_W);
    lemma_held_delta_union(d, a, b, KEY_A);
    lemma_held_delta_union(d, a, b, KEY_S);
    lemma_held_delta_union(d, a, b, KEY_D);
    let wa = held_delta(d, a, KEY_W);
    let aa = held_delta(d, a, KEY_A);
    let sa = held_delta(d, a, KEY_S);
    let da = held_delta(d, a, KEY_D);
    let wb = held_delta(d, b, KEY_W);
    let ab = held_delta(d, b, KEY_A);
    let sb = held_delta(d, b, KEY_S);
    let db = held_delta(d, b, KEY_D);
    assert(displacement(d, a) == delta_add(delta_add(wa, aa), delta_add(sa, da)));
    assert(displacement(d, b) == delta_add(delta_add(wb, ab), delta_add(sb, db)));
}

proof fn lemma_held_delta_union(d: Vec3, a: Set<i32>, b: Set<i32>, k: i32)
    requires
        a.disjoint(b),
    ensures
        held_delta(d, a.union(b), k) == delta_add(held_delta(d, a, k), held_delta(d, b, k)),
{
    if a.contains(k) {
        assert(!b.contains(k));
    }
}

/// Holding forward and strafe-right for one tick moves by the forward step
/// plus the strafe-right step.
pub proof fn lemma_forward_and_right(d: Vec3)
    ensures
        displacement(d, set![KEY_W, KEY_D]) == delta_add(
            displacement(d, set![KEY_W]),
            displacement(d, set![KEY_D]),
        ),
        displacement(d, set![KEY_W]) == forward_delta(d),
        displacement(d, set![KEY_D]) == strafe_delta(d),
{
    assert(set![KEY_W].disjoint(set![KEY_D]));
    assert(set![KEY_W].union(set![KEY_D]) =~= set![KEY_W, KEY_D]);
    lemma_displacement_additive(d, set![KEY_W], set![KEY_D]);
}

proof fn lemma_floor_sqrt_exists(n: int)
    requires
        n >= 0,
    ensures
        exists|r: int| is_floor_sqrt(n, r),
    decreases n,
{
    if n == 0 {
        assert(is_floor_sqrt(0, 0));
    } else {
        lemma_floor_sqrt_exists(n - 1);
        let m = n - 1;
        let r = choose|r: int| is_floor_sqrt(m, r);
        if (r + 1) * (r + 1) <= n {
            assert(n < (r + 2) * (r + 2)) by (nonlinear_arith)
                requires r >= 0, (r + 1) * (r + 1) <= n, n - 1 < (r + 1) * (r + 1);
            assert(is_floor_sqrt(n, r + 1));
        } else {
            assert(is_floor_sqrt(n, r));
        }
    }
}

/// Largest magnitude of a strafe component: the cross product's components
/// are at most `SPEED` units, scaled by `SCALE` and divided by a length of
/// at least one step.
pub const STRAFE_BOUND: i64 = 500_000_000;

proof fn lemma_step_bounds(d: Vec3)
    requires
        unit_bounded(d),
    ensures
        -500_000 <= forward_delta(d).0 <= 500_000,
        -500_000 <= forward_delta(d).1 <= 500_000,
        -500_000 <= forward_delta(d).2 <= 500_000,
        -STRAFE_BOUND <= strafe_delta(d).0 <= STRAFE_BOUND,
        strafe_delta(d).1 == 0,
        -STRAFE_BOUND <= strafe_delta(d).2 <= STRAFE_BOUND,
{
    let f = forward_delta(d);
    lemma_trunc_div_bound(d.x * SPEED, SCALE as int);
    lemma_trunc_div_bound(d.y * SPEED, SCALE as int);
    lemma_trunc_div_bound(d.z * SPEED, SCALE as int);
    let n = cross_up_len2(f);
    assert(f.2 * f.2 >= 0 && f.0 * f.0 >= 0) by (nonlinear_arith);
    if n != 0 {
        lemma_floor_sqrt_exists(n);
        let len = choose|r: int| is_floor_sqrt(n, r);
        assert(len >= 1) by (nonlinear_arith)
            requires n >= 1, n < (len + 1) * (len + 1), len >= 0;
        lemma_trunc_div_bound(-f.2 * SCALE, len);
        lemma_trunc_div_bound(f.0 * SCALE, len);
    }
}

/// The change from position `p` to position `q`.
pub open spec fn offset(p: Vec3, q: Vec3) -> Delta {
    (q.x - p.x, q.y - p.y, q.z - p.z)
}

/// Largest coordinate magnitude for which a tick cannot reach the ends of
/// the `i64` range.
pub const CLEAR_BOUND: i64 = 1_000_000_000_000;

/// Holding forward and strafe-right for one tick moves the camera by what
/// forward alone moves it plus what strafe-right alone moves it, wherever
/// the position is clear of the ends of the `i64` range.
pub proof fn lemma_forward_and_right_moves(d: Vec3, p: Vec3)
    requires
        unit_bounded(d),
        -CLEAR_BOUND <= p.x <= CLEAR_BOUND,
        -CLEAR_BOUND <= p.y <= CLEAR_BOUND,
        -CLEAR_BOUND <= p.z <= CLEAR_BOUND,
    ensures
        offset(p, moved(p, displacement(d, set![KEY_W, KEY_D]))) == delta_add(
            offset(p, moved(p, displacement(d, set![KEY_W]))),
            offset(p, moved(p, displacement(d, set![KEY_D]))),
        ),
        offset(p, moved(p, displacement(d, set![KEY_W, KEY_D]))) == delta_add(
            forward_delta(d),
            strafe_delta(d),
        ),
{
    lemma_forward_and_right(d);
    lemma_step_bounds(d);
}

/// Releasing a key that is not held leaves the held set as it was.
pub proof fn lemma_release_unheld(held: Set<i32>, k: i32)
    requires
        !held.contains(k),
    ensures
        step_held(held, KeyEvent { key: k, action: KeyAction::Release }) == held,
{
    assert(held.remove(k) =~= held);
}

/// With no key held a tick moves the camera by nothing.
pub proof fn lemma_idle_tick(d: Vec3, p: Vec3)
    ensures
        displacement(d, Set::<i32>::empty()) == zero_delta(),
        moved(p, displacement(d, Set::<i32>::empty())) == p,
{
}

} // verus!
