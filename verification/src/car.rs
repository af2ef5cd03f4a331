//! The car agent: a motor-lane rectangle whose effective width grows with
//! speed, and the fastest-safe-speed rule that advances it each tick.

use crate::cells::RoadCells;
use crate::geometry::{euclid_mod, Coord, RectangleOccupier, RoadOccupier, Vehicle};
use crate::road::Road;
use crate::rng::bernoulli;
use crate::{RoadError, MAX_PARAM, MAX_ROAD_LENGTH, PROB_ONE};
use vstd::prelude::*;

verus! {

/// Width parameters are stored in hundredths of a cell: the effective width
/// at speed `s` is `ceil((const_width_hundredths + alpha_hundredths * s) / 100)`.
#[derive(Copy, Clone, Debug)]
pub struct Car {
    pub front: isize,
    pub length: usize,
    pub const_width_hundredths: u32,
    pub speed: isize,
    pub fast_acceleration: isize,
    pub slow_acceleration: isize,
    pub max_slow_speed: isize,
    pub speed_max: isize,
    pub alpha_hundredths: u32,
    pub deceleration_prob: u32,
}

/// Effective lateral width of `c` at the given speed, in cells.
pub open spec fn car_width_at(c: Car, speed: int) -> int {
    (c.const_width_hundredths + c.alpha_hundredths * speed + 99) / 100
}

/// The rectangle `c` would occupy with its front at `front` and the width
/// taken at `speed`; cars are anchored at lat zero.
pub open spec fn car_rect_at(c: Car, front: int, speed: int) -> RectangleOccupier {
    RectangleOccupier {
        front: front as isize,
        right: (car_width_at(c, speed) - 1) as isize,
        width: car_width_at(c, speed) as usize,
        length: c.length,
    }
}

/// The rectangle `c` occupies right now.
pub open spec fn car_rect(c: Car) -> RectangleOccupier {
    car_rect_at(c, c.front as int, c.speed as int)
}

/// Parameter sanity for a car resting on a road of width `w`, length `l`.
pub open spec fn car_wf(c: Car, w: int, l: int) -> bool {
    &&& 0 <= c.speed <= c.speed_max <= MAX_PARAM
    &&& 0 < c.length <= l
    &&& 0 <= c.front < l
    &&& 0 < c.const_width_hundredths <= 100_000
    &&& c.alpha_hundredths <= 100_000
    &&& -MAX_PARAM <= c.slow_acceleration <= MAX_PARAM
    &&& -MAX_PARAM <= c.fast_acceleration <= MAX_PARAM
    &&& -MAX_PARAM <= c.max_slow_speed <= MAX_PARAM
    &&& c.deceleration_prob <= PROB_ONE
    &&& car_width_at(c, c.speed as int) <= w
}

/// The bounds needed to evaluate the width formula safely.
pub open spec fn car_widths_computable(c: Car) -> bool {
    &&& 0 <= c.speed <= MAX_PARAM
    &&& 0 < c.const_width_hundredths <= 100_000
    &&& c.alpha_hundredths <= 100_000
}

/// Parameter sanity independent of any particular road.
pub open spec fn car_params_ok(c: Car) -> bool {
    &&& 0 <= c.speed <= c.speed_max <= MAX_PARAM
    &&& 0 < c.length <= MAX_ROAD_LENGTH
    &&& 0 < c.const_width_hundredths <= 100_000
    &&& c.alpha_hundredths <= 100_000
    &&& -MAX_PARAM <= c.slow_acceleration <= MAX_PARAM
    &&& -MAX_PARAM <= c.fast_acceleration <= MAX_PARAM
    &&& -MAX_PARAM <= c.max_slow_speed <= MAX_PARAM
    &&& c.deceleration_prob <= PROB_ONE
}

/// The speed `c` would reach next tick if nothing were in the way.
pub open spec fn potential_speed(c: Car) -> int {
    let a = if c.speed <= c.max_slow_speed {
        c.slow_acceleration
    } else {
        c.fast_acceleration
    };
    if c.speed + a <= c.speed_max {
        c.speed + a
    } else {
        c.speed_max as int
    }
}

/// Advancing `c` by `k` cells is unsafe: the width it would have at speed
/// `k` no longer fits the road laterally, or the placement would overlap
/// some other vehicle's cell in `cells`.
pub open spec fn car_collides_at(c: Car, cells: RoadCells, id: usize, k: int) -> bool {
    ||| car_width_at(c, k) > cells.road_width()
    ||| cells.conflict(car_rect_at(c, c.front + k, k), Some(Vehicle::Car(id)))
}

/// The scan behind the safe-speed rule: the largest `m` with `k <= m <= p`
/// such that every advance in `k+1 ..= m` is collision-free, given that all
/// advances up to `k` already were.
pub open spec fn fss_from(c: Car, cells: RoadCells, id: usize, k: int, p: int) -> int
    decreases p - k,
{
    if k >= p {
        k
    } else if car_collides_at(c, cells, id, k + 1) {
        k
    } else {
        fss_from(c, cells, id, k + 1, p)
    }
}

/// The fastest safe speed: scanning upward from one, the last advance that
/// is collision-free before the first blocked one, capped by the potential
/// speed; zero when even an advance of one collides or nothing is possible.
pub open spec fn fastest_safe_spec(c: Car, cells: RoadCells, id: usize) -> int {
    let p = potential_speed(c);
    if p <= 0 {
        0
    } else {
        fss_from(c, cells, id, 0, p)
    }
}

/// Widths do not shrink as speed grows.
pub proof fn lemma_car_width_monotone(c: Car, s1: int, s2: int)
    requires
        0 <= s1 <= s2,
    ensures
        car_width_at(c, s1) <= car_width_at(c, s2),
{
    assert(c.alpha_hundredths * s1 <= c.alpha_hundredths * s2) by (nonlinear_arith)
        requires 0 <= s1 <= s2 && c.alpha_hundredths >= 0;
    vstd::arithmetic::div_mod::lemma_div_is_ordered(
        c.const_width_hundredths + c.alpha_hundredths * s1 + 99,
        c.const_width_hundredths + c.alpha_hundredths * s2 + 99,
        100,
    );
}

/// The width at any speed up to the current one stays positive and on the
/// road.
pub proof fn lemma_car_width_in_range(c: Car, w: int, l: int, s: int)
    requires
        car_wf(c, w, l),
        0 <= s <= c.speed,
    ensures
        0 < car_width_at(c, s) <= w,
{
    lemma_car_width_monotone(c, 0, s);
    lemma_car_width_monotone(c, s, c.speed as int);
    assert(0 < car_width_at(c, 0)) by {
        vstd::arithmetic::div_mod::lemma_div_non_zero(
            c.const_width_hundredths + c.alpha_hundredths * 0 + 99,
            100,
        );
    }
}

/// The width formula stays within comfortable integer bounds.
pub proof fn lemma_car_width_bound(c: Car, s: int)
    requires
        c.const_width_hundredths <= 100_000,
        c.alpha_hundredths <= 100_000,
        0 <= s <= MAX_PARAM,
    ensures
        0 <= car_width_at(c, s) <= 1_100_000_000,
{
    assert(c.alpha_hundredths * s <= 100_000int * 1_000_000int) by (nonlinear_arith)
        requires c.alpha_hundredths <= 100_000 && 0 <= s <= 1_000_000;
    assert(0 <= c.alpha_hundredths * s) by (nonlinear_arith)
        requires 0 <= c.alpha_hundredths && 0 <= s;
    let num = c.const_width_hundredths + c.alpha_hundredths * s + 99;
    vstd::arithmetic::div_mod::lemma_div_is_ordered(0, num, 100);
    vstd::arithmetic::div_mod::lemma_div_is_ordered(num, 110_000_000_000int, 100);
}

/// Any positive width parameter yields at least one cell of width.
pub proof fn lemma_car_width_positive(c: Car, s: int)
    requires
        0 < c.const_width_hundredths,
        0 <= s,
    ensures
        0 < car_width_at(c, s),
{
    lemma_car_width_monotone(c, 0, s);
    assert(0 < car_width_at(c, 0)) by {
        vstd::arithmetic::div_mod::lemma_div_non_zero(
            c.const_width_hundredths + c.alpha_hundredths * 0 + 99,
            100,
        );
    }
}

/// Whatever the safe-speed scan returns, every advance up to it was found
/// collision-free.
pub proof fn lemma_fss_from_safe(c: Car, cells: RoadCells, id: usize, k: int, p: int)
    requires
        0 <= k <= p,
    ensures
        k <= fss_from(c, cells, id, k, p) <= p,
        forall|t: int| k < t <= fss_from(c, cells, id, k, p) ==> !(#[trigger] car_collides_at(
            c,
            cells,
            id,
            t,
        )),
    decreases p - k,
{
    if k >= p {
    } else if car_collides_at(c, cells, id, k + 1) {
    } else {
        lemma_fss_from_safe(c, cells, id, k + 1, p);
    }
}

/// With no collision at any candidate advance, the safe-speed scan runs to
/// the potential speed itself.
pub proof fn lemma_fss_no_collision(c: Car, cells: RoadCells, id: usize, k: int, p: int)
    requires
        0 <= k <= p,
        forall|m: int| k < m <= p ==> !(#[trigger] car_collides_at(c, cells, id, m)),
    ensures
        fss_from(c, cells, id, k, p) == p,
    decreases p - k,
{
    if k < p {
        lemma_fss_no_collision(c, cells, id, k + 1, p);
    }
}

impl Car {
    /// Effective width, in cells, at the given nonnegative speed.
    pub fn lateral_occupancy_at_speed(&self, speed: isize) -> (r: usize)
        requires
            0 <= speed <= MAX_PARAM,
            self.const_width_hundredths <= 100_000,
            self.alpha_hundredths <= 100_000,
        ensures
            r == car_width_at(*self, speed as int),
            r <= 1_100_000_000,
    {
        lateral_occupancy(self.const_width_hundredths, speed, self.alpha_hundredths)
    }

    /// Effective width, in cells, at the current speed.
    pub fn lateral_occupancy(&self) -> (r: usize)
        requires
            0 <= self.speed <= MAX_PARAM,
            self.const_width_hundredths <= 100_000,
            self.alpha_hundredths <= 100_000,
        ensures
            r == car_width_at(*self, self.speed as int),
            r <= 1_100_000_000,
    {
        self.lateral_occupancy_at_speed(self.speed)
    }

    /// The rectangle this car occupies right now.
    pub fn current_rect(&self) -> (r: RectangleOccupier)
        requires
            0 <= self.speed <= MAX_PARAM,
            self.const_width_hundredths <= 100_000,
            self.alpha_hundredths <= 100_000,
        ensures
            r == car_rect(*self),
    {
        let width = self.lateral_occupancy();
        RectangleOccupier {
            front: self.front,
            right: (width as isize) - 1,
            width,
            length: self.length,
        }
    }

    pub fn front(&self) -> (r: isize)
        ensures
            r == self.front,
    {
        self.front
    }

    /// The speed reached next tick when nothing is in the way: the current
    /// speed plus the applicable acceleration, capped at the maximum.
    pub fn next_iteration_potential_speed(&self) -> (r: isize)
        requires
            -MAX_PARAM <= self.speed <= MAX_PARAM,
            -MAX_PARAM <= self.slow_acceleration <= MAX_PARAM,
            -MAX_PARAM <= self.fast_acceleration <= MAX_PARAM,
        ensures
            r == potential_speed(*self),
    {
        let acceleration = if self.speed <= self.max_slow_speed {
            self.slow_acceleration
        } else {
            self.fast_acceleration
        };
        let summed = self.speed + acceleration;
        if summed <= self.speed_max {
            summed
        } else {
            self.speed_max
        }
    }
}

/// Effective width from raw parameters: `ceil((cw + alpha * speed) / 100)`
/// with everything in hundredths of a cell.
pub fn lateral_occupancy(const_width_hundredths: u32, speed: isize, alpha_hundredths: u32) -> (r:
    usize)
    requires
        0 <= speed <= MAX_PARAM,
        const_width_hundredths <= 100_000,
        alpha_hundredths <= 100_000,
    ensures
        r == (const_width_hundredths + alpha_hundredths * speed + 99) / 100,
        r <= 1_100_000_000,
{
    let a64 = alpha_hundredths as u64;
    let s64 = speed as u64;
    proof {
        assert(a64 * s64 <= 100_000u64 * 1_000_000u64) by (nonlinear_arith)
            requires a64 <= 100_000 && s64 <= 1_000_000;
    }
    let num: u64 = const_width_hundredths as u64 + a64 * s64 + 99;
    proof {
        vstd::arithmetic::div_mod::lemma_div_is_ordered(num as int, 110_000_000_000int, 100);
    }
    (num / 100) as usize
}

impl Car {
    /// Every speed in `0 ..= potential` whose hypothetical placement (at the
    /// width belonging to that speed) collides with no other vehicle.
    pub fn safe_speeds(&self, road: &Road, self_id: usize) -> (r: Vec<isize>)
        requires
            road.wf(),
            car_wf(*self, road.cells.road_width(), road.cells.road_length()),
        ensures
            forall|k: int| 0 <= k <= potential_speed(*self)
                ==> (r@.contains(k as isize) <==> !car_collides_at(
                    *self,
                    road.cells,
                    self_id,
                    k,
                )),
            forall|i: int| 0 <= i < r@.len()
                ==> 0 <= #[trigger] r@[i] <= potential_speed(*self),
    {
        let p = self.next_iteration_potential_speed();
        let mut out: Vec<isize> = Vec::new();
        if p < 0 {
            return out;
        }
        let mut k: isize = 0;
        while k <= p
            invariant
                road.wf(),
                car_wf(*self, road.cells.road_width(), road.cells.road_length()),
                p == potential_speed(*self),
                0 <= k <= p + 1,
                forall|j: int| 0 <= j < k
                    ==> (out@.contains(j as isize) <==> !car_collides_at(
                        *self,
                        road.cells,
                        self_id,
                        j,
                    )),
                forall|i: int| 0 <= i < out@.len() ==> 0 <= #[trigger] out@[i] < k,
            decreases p + 1 - k,
        {
            let ghost out_pre = out@;
            if !self.collides_moving(road, self_id, k) {
                out.push(k);
            }
            proof {
                assert forall|j: int| 0 <= j < k + 1 implies (out@.contains(j as isize)
                    <==> !car_collides_at(*self, road.cells, self_id, j)) by {
                    if j < k {
                        if out_pre.contains(j as isize) {
                            let i = choose|i: int| 0 <= i < out_pre.len() && out_pre[i] == j;
                            assert(out@[i] == j as isize);
                        }
                        if out@.contains(j as isize) {
                            let i = choose|i: int| 0 <= i < out@.len() && out@[i] == j;
                            if i < out_pre.len() {
                                assert(out_pre.contains(j as isize));
                            }
                        }
                    } else {
                        if !car_collides_at(*self, road.cells, self_id, j) {
                            assert(out@[out@.len() - 1] == k);
                        }
                        if out@.contains(j as isize) {
                            let i = choose|i: int| 0 <= i < out@.len() && out@[i] == j;
                            if i < out_pre.len() {
                                assert(out_pre[i] < k);
                                assert(false);
                            }
                        }
                    }
                }
            }
            k = k + 1;
        }
        out
    }

    /// Whether advancing by `k` cells is unsafe: too wide for the road at
    /// that speed, or colliding with some other vehicle.
    fn collides_moving(&self, road: &Road, self_id: usize, k: isize) -> (r: bool)
        requires
            road.wf(),
            car_wf(*self, road.cells.road_width(), road.cells.road_length()),
            0 <= k <= potential_speed(*self),
        ensures
            r == car_collides_at(*self, road.cells, self_id, k as int),
    {
        let width = self.lateral_occupancy_at_speed(k);
        if width > self.width_limit(road) {
            return true;
        }
        proof {
            lemma_car_width_positive(*self, k as int);
        }
        let rect = RectangleOccupier {
            front: self.front + k,
            right: (width - 1) as isize,
            width,
            length: self.length,
        };
        road.cells.scan_conflict(&rect, Some(Vehicle::Car(self_id)))
    }

    /// The total road width, as the bound the effective width must meet.
    fn width_limit(&self, road: &Road) -> (r: usize)
        requires
            road.wf(),
        ensures
            r == road.cells.road_width(),
    {
        road.cells.total_width()
    }

    /// The fastest safe speed: scan candidate advances upward from one and
    /// keep the last collision-free advance before the first blocked one.
    pub fn fastest_safe_speed(&self, road: &Road, self_id: usize) -> (r: isize)
        requires
            road.wf(),
            car_wf(*self, road.cells.road_width(), road.cells.road_length()),
        ensures
            r == fastest_safe_spec(*self, road.cells, self_id),
            0 <= r <= self.speed_max,
    {
        let p = self.next_iteration_potential_speed();
        if p <= 0 {
            return 0;
        }
        let mut k: isize = 0;
        while k < p
            invariant
                road.wf(),
                car_wf(*self, road.cells.road_width(), road.cells.road_length()),
                p == potential_speed(*self),
                0 < p,
                0 <= k <= p,
                fss_from(*self, road.cells, self_id, 0, p as int) == fss_from(
                    *self,
                    road.cells,
                    self_id,
                    k as int,
                    p as int,
                ),
            decreases p - k,
        {
            if self.collides_moving(road, self_id, k + 1) {
                proof {
                    assert(fss_from(*self, road.cells, self_id, k as int, p as int) == k);
                }
                return k;
            }
            k = k + 1;
        }
        k
    }

    /// One tick for this car: pick the fastest safe speed, decelerate by one
    /// with the configured probability, and advance around the ring.
    pub fn update(&self, road: &Road, self_id: usize) -> (r: Car)
        requires
            road.wf(),
            car_wf(*self, road.cells.road_width(), road.cells.road_length()),
        ensures
            r.length == self.length,
            r.const_width_hundredths == self.const_width_hundredths,
            r.alpha_hundredths == self.alpha_hundredths,
            r.slow_acceleration == self.slow_acceleration,
            r.fast_acceleration == self.fast_acceleration,
            r.max_slow_speed == self.max_slow_speed,
            r.speed_max == self.speed_max,
            r.deceleration_prob == self.deceleration_prob,
            0 <= r.speed <= r.speed_max,
            car_width_at(*self, r.speed as int) <= road.cells.road_width(),
            r.front == (self.front + r.speed) % road.cells.road_length(),
            ({
                let fss = fastest_safe_spec(*self, road.cells, self_id);
                let slowed: int = if fss >= 1 {
                    fss - 1
                } else {
                    0
                };
                &&& (r.speed == fss || r.speed == slowed)
                &&& (self.deceleration_prob == 0 ==> r.speed == fss)
                &&& (self.deceleration_prob >= PROB_ONE ==> r.speed == slowed)
            }),
    {
        let mut next_speed = self.fastest_safe_speed(road, self_id);
        proof {
            let p = potential_speed(*self);
            if p > 0 {
                lemma_fss_from_safe(*self, road.cells, self_id, 0, p);
            }
            if next_speed >= 1 {
                assert(!car_collides_at(*self, road.cells, self_id, next_speed as int));
            } else {
                lemma_car_width_monotone(*self, 0, self.speed as int);
            }
        }
        let ghost undecelerated = next_speed;
        if bernoulli(self.deceleration_prob) {
            next_speed = if next_speed >= 1 {
                next_speed - 1
            } else {
                0
            };
        }
        proof {
            lemma_car_width_monotone(*self, next_speed as int, undecelerated as int);
        }
        let next_front = euclid_mod((self.front + next_speed) as i128, road.cells.l) as isize;
        Car { front: next_front, speed: next_speed, ..*self }
    }
}

impl RoadOccupier for Car {
    fn occupied_cells(&self) -> Vec<Coord> {
        if 0 <= self.speed && self.speed <= MAX_PARAM && self.const_width_hundredths <= 100_000
            && self.alpha_hundredths <= 100_000 {
            let rect = self.current_rect();
            let left: i128 = rect.right as i128 - rect.width as i128 + 1;
            let back: i128 = rect.front as i128 - rect.length as i128 + 1;
            if isize::MIN as i128 <= left && left <= isize::MAX as i128
                && isize::MIN as i128 <= back && back <= isize::MAX as i128 {
                return RectangleOccupier::occupied_cells(&rect);
            }
        }
        Vec::new()
    }
}

/// Builds a `Car`, validating every parameter; width parameters are in
/// hundredths of a cell, the deceleration probability in parts per million.
#[derive(Debug, Copy, Clone, PartialEq, Eq, Structural)]
pub struct CarBuilder {
    pub front: isize,
    pub length: usize,
    pub car_width_hundredths: u32,
    pub alpha_hundredths: u32,
    pub beta_hundredths: u32,
    pub speed_max: isize,
    pub speed: isize,
    pub deceleration_prob: u32,
    pub slow_acceleration: isize,
    pub fast_acceleration: isize,
    pub max_slow_speed: isize,
}

/// What `CarBuilder::build` returns: the first failed check's error, or the
/// assembled car, whose constant width folds the base width and beta
/// together.
pub open spec fn car_build_spec(b: CarBuilder) -> Result<Car, RoadError> {
    if b.length < 1 {
        Err(RoadError::NonPositiveDimension)
    } else if b.length > MAX_ROAD_LENGTH {
        Err(RoadError::ParameterTooLarge)
    } else if b.car_width_hundredths > 50_000 || b.beta_hundredths > 50_000
        || b.alpha_hundredths > 100_000 {
        Err(RoadError::ParameterTooLarge)
    } else if b.car_width_hundredths + b.beta_hundredths == 0 {
        Err(RoadError::NonPositiveDimension)
    } else if b.speed < 0 {
        Err(RoadError::NegativeSpeed)
    } else if b.speed_max > MAX_PARAM {
        Err(RoadError::ParameterTooLarge)
    } else if b.speed_max < b.speed {
        Err(RoadError::SpeedAboveMax)
    } else if b.slow_acceleration < -MAX_PARAM || b.slow_acceleration > MAX_PARAM
        || b.fast_acceleration < -MAX_PARAM || b.fast_acceleration > MAX_PARAM
        || b.max_slow_speed < -MAX_PARAM || b.max_slow_speed > MAX_PARAM {
        Err(RoadError::ParameterTooLarge)
    } else if b.deceleration_prob > PROB_ONE {
        Err(RoadError::ProbabilityAboveOne)
    } else {
        Ok(
            Car {
                front: b.front,
                length: b.length,
                const_width_hundredths: (b.car_width_hundredths + b.beta_hundredths) as u32,
                speed: b.speed,
                fast_acceleration: b.fast_acceleration,
                slow_acceleration: b.slow_acceleration,
                max_slow_speed: b.max_slow_speed,
                speed_max: b.speed_max,
                alpha_hundredths: b.alpha_hundredths,
                deceleration_prob: b.deceleration_prob,
            },
        )
    }
}

impl CarBuilder {
    pub fn with_front_at(&self, front: isize) -> (r: Self)
        ensures
            r == (CarBuilder { front, ..*self }),
    {
        Self { front, ..*self }
    }

    pub fn with_slow_acceleration(&self, slow_acceleration: isize) -> (r: Self)
        ensures
            r == (CarBuilder { slow_acceleration, ..*self }),
    {
        Self { slow_acceleration, ..*self }
    }

    pub fn with_speed(&self, speed: isize) -> (r: Self)
        ensures
            r == (CarBuilder { speed, ..*self }),
    {
        Self { speed, ..*self }
    }

    /// Sets the per-tick deceleration probability, in parts per million;
    /// rejected above `PROB_ONE`.
    pub fn with_deceleration_prob(&self, deceleration_prob: u32) -> (r: Result<Self, RoadError>)
        ensures
            match r {
                Ok(b) => deceleration_prob <= PROB_ONE && b == (CarBuilder {
                    deceleration_prob,
                    ..*self
                }),
                Err(e) => deceleration_prob > PROB_ONE && e == RoadError::ProbabilityAboveOne,
            },
    {
        if deceleration_prob > PROB_ONE {
            Err(RoadError::ProbabilityAboveOne)
        } else {
            Ok(Self { deceleration_prob, ..*self })
        }
    }

    /// Validate every parameter and assemble the car.
    pub fn build(&self) -> (r: Result<Car, RoadError>)
        ensures
            r == car_build_spec(*self),
    {
        if self.length < 1 {
            Err(RoadError::NonPositiveDimension)
        } else if self.length > MAX_ROAD_LENGTH {
            Err(RoadError::ParameterTooLarge)
        } else if self.car_width_hundredths > 50_000 || self.beta_hundredths > 50_000
            || self.alpha_hundredths > 100_000 {
            Err(RoadError::ParameterTooLarge)
        } else if self.car_width_hundredths + self.beta_hundredths == 0 {
            Err(RoadError::NonPositiveDimension)
        } else if self.speed < 0 {
            Err(RoadError::NegativeSpeed)
        } else if self.speed_max > MAX_PARAM {
            Err(RoadError::ParameterTooLarge)
        } else if self.speed_max < self.speed {
            Err(RoadError::SpeedAboveMax)
        } else if self.slow_acceleration < -MAX_PARAM || self.slow_acceleration > MAX_PARAM
            || self.fast_acceleration < -MAX_PARAM || self.fast_acceleration > MAX_PARAM
            || self.max_slow_speed < -MAX_PARAM || self.max_slow_speed > MAX_PARAM {
            Err(RoadError::ParameterTooLarge)
        } else if self.deceleration_prob > PROB_ONE {
            Err(RoadError::ProbabilityAboveOne)
        } else {
            Ok(
                Car {
                    front: self.front,
                    length: self.length,
                    const_width_hundredths: self.car_width_hundredths + self.beta_hundredths,
                    speed: self.speed,
                    fast_acceleration: self.fast_acceleration,
                    slow_acceleration: self.slow_acceleration,
                    max_slow_speed: self.max_slow_speed,
                    speed_max: self.speed_max,
                    alpha_hundredths: self.alpha_hundredths,
                    deceleration_prob: self.deceleration_prob,
                },
            )
        }
    }
}

impl Default for CarBuilder {
    /// A compact car: five cells long, 3.6 cells of base width, beta 0.6,
    /// alpha 0.26, top speed twenty, one-in-five deceleration.
    fn default() -> (r: Self)
        ensures
            r == (CarBuilder {
                front: 5,
                length: 5,
                car_width_hundredths: 360,
                alpha_hundredths: 26,
                beta_hundredths: 60,
                speed_max: 20,
                speed: 0,
                deceleration_prob: 200_000,
                slow_acceleration: 2,
                fast_acceleration: 1,
                max_slow_speed: 5,
            }),
    {
        CarBuilder {
            front: 5,
            length: 5,
            car_width_hundredths: 360,
            alpha_hundredths: 26,
            beta_hundredths: 60,
            speed_max: 20,
            speed: 0,
            deceleration_prob: 200_000,
            slow_acceleration: 2,
            fast_acceleration: 1,
            max_slow_speed: 5,
        }
    }
}

} // verus!
