//! The bike agent: a rectangle that each tick first deliberates about a
//! lateral position among the candidates within its lateral speed, filtered
//! for feasibility and for trailing motor-lane traffic, and then advances
//! forward at a speed bounded by the free gap ahead.

use crate::geometry::{euclid_mod, Coord, RectangleOccupier, RoadOccupier, Vehicle};
use crate::road::Road;
use crate::rng::{bernoulli, random_below};
use crate::{RoadError, MAX_PARAM, MAX_ROAD_LENGTH, MAX_ROAD_WIDTH, PROB_ONE};
use vstd::prelude::*;

verus! {

/// How a bike breaks ties among the surviving lateral candidates.
#[derive(Debug, Copy, Clone, PartialEq, Eq, Structural)]
pub enum YStarSelectionStrategy {
    Rightmost,
    UniformRandom,
}

/// Probabilities are numerators out of `PROB_ONE` (parts per million).
#[derive(Debug, Copy, Clone, PartialEq, Eq, Structural)]
pub struct Bike {
    pub occupation: RectangleOccupier,
    pub forward_speed_max: isize,
    pub forward_speed: isize,
    pub forward_acceleration: isize,
    pub rightward_speed_max: isize,
    pub lateral_ignorance: u32,
    pub deceleration_prob: u32,
    pub y_star_selection_strategy: YStarSelectionStrategy,
}

/// Parameter and placement sanity for a bike resting on a road of width
/// `w`, length `l`.
pub open spec fn bike_wf(b: Bike, w: int, l: int) -> bool {
    &&& b.occupation.placed(w, l)
    &&& 0 <= b.forward_speed <= b.forward_speed_max <= MAX_PARAM
    &&& 1 <= b.forward_acceleration <= MAX_PARAM
    &&& 0 <= b.rightward_speed_max <= MAX_PARAM
    &&& b.lateral_ignorance <= PROB_ONE
    &&& b.deceleration_prob <= PROB_ONE
}

/// Parameter sanity independent of any particular road.
pub open spec fn bike_params_ok(b: Bike) -> bool {
    &&& 0 < b.occupation.width <= MAX_ROAD_WIDTH
    &&& 0 < b.occupation.length <= MAX_ROAD_LENGTH
    &&& 0 <= b.forward_speed <= b.forward_speed_max <= MAX_PARAM
    &&& 1 <= b.forward_acceleration <= MAX_PARAM
    &&& 0 <= b.rightward_speed_max <= MAX_PARAM
    &&& b.lateral_ignorance <= PROB_ONE
    &&& b.deceleration_prob <= PROB_ONE
}

/// The bike's occupation with its right edge moved to `p`.
pub open spec fn with_right(o: RectangleOccupier, p: int) -> RectangleOccupier {
    RectangleOccupier { front: o.front, right: p as isize, width: o.width, length: o.length }
}

impl Bike {
    pub fn front(&self) -> (r: isize)
        ensures
            r == self.occupation.front,
    {
        self.occupation.front
    }

    pub fn rectangle_occupation(&self) -> (r: RectangleOccupier)
        ensures
            r == self.occupation,
    {
        self.occupation
    }

    /// The right-edge positions the bike could reach this tick, leftmost
    /// first: the closed band around its current right edge.
    pub fn potential_lateral_positions(&self) -> (r: Vec<isize>)
        requires
            0 <= self.rightward_speed_max <= MAX_PARAM,
            -MAX_PARAM <= self.occupation.right <= MAX_PARAM,
        ensures
            r@.len() == 2 * self.rightward_speed_max + 1,
            forall|k: int| 0 <= k < r@.len() ==> r@[k] == self.occupation.right
                - self.rightward_speed_max + k,
    {
        let mut out: Vec<isize> = Vec::new();
        let base = self.occupation.right - self.rightward_speed_max;
        let count = 2 * (self.rightward_speed_max as usize) + 1;
        let mut k: usize = 0;
        while k < count
            invariant
                0 <= self.rightward_speed_max <= MAX_PARAM,
                -MAX_PARAM <= self.occupation.right <= MAX_PARAM,
                base == self.occupation.right - self.rightward_speed_max,
                count == 2 * self.rightward_speed_max + 1,
                k <= count,
                out@.len() == k,
                forall|i: int| 0 <= i < k ==> out@[i] == self.occupation.right
                    - self.rightward_speed_max + i,
            decreases count - k,
        {
            out.push(base + k as isize);
            k = k + 1;
        }
        out
    }

    /// Draw whether this bike skips lateral deliberation this tick.
    pub fn should_ignore_lateral_movement(&self) -> (r: bool)
        ensures
            self.lateral_ignorance == 0 ==> !r,
            self.lateral_ignorance >= PROB_ONE ==> r,
    {
        bernoulli(self.lateral_ignorance)
    }

    /// Draw whether this bike sheds one unit of speed this tick.
    pub fn should_decelerate(&self) -> (r: bool)
        ensures
            self.deceleration_prob == 0 ==> !r,
            self.deceleration_prob >= PROB_ONE ==> r,
    {
        bernoulli(self.deceleration_prob)
    }
}

impl RoadOccupier for Bike {
    fn occupied_cells(&self) -> Vec<Coord> {
        RoadOccupier::occupied_cells(&self.occupation)
    }
}

/// Which safety filter applies to a bike's lateral candidates, decided by
/// its current position and the traffic behind its back-left corner.
#[derive(Debug, Copy, Clone, PartialEq, Eq, Structural)]
pub enum YPrimePrimeFilter {
    MotorLaneBlocking,
    MotorLaneNonBlocking,
    BikeLane,
}

/// A candidate right edge `p` is feasible: the moved rectangle stays on the
/// road and overlaps no cell of any agent other than bike `id` itself.
pub open spec fn lat_feasible(road: Road, b: Bike, id: usize, p: int) -> bool {
    &&& with_right(b.occupation, p).on_lats(road.cells.road_width())
    &&& !road.cells.conflict(with_right(b.occupation, p), Some(Vehicle::Bike(id)))
}

/// The candidate band: every right edge within the bike's lateral speed.
pub open spec fn in_band(b: Bike, p: int) -> bool {
    b.occupation.right - b.rightward_speed_max <= p <= b.occupation.right + b.rightward_speed_max
}

/// The filter mode for a bike currently occupying `cur`: on the motor lane
/// it depends on whether the bike's own back-left cell is blocked by a
/// trailing car; entirely on the bike lane no blocking matters.
pub open spec fn lateral_filter_mode(road: Road, cur: RectangleOccupier) -> YPrimePrimeFilter {
    if cur.left_spec() < road.cells.mlw {
        if road.blocked_at(cur.left_spec(), cur.back_spec(), road.cells.road_length()) {
            YPrimePrimeFilter::MotorLaneBlocking
        } else {
            YPrimePrimeFilter::MotorLaneNonBlocking
        }
    } else {
        YPrimePrimeFilter::BikeLane
    }
}

/// The non-blocking filters keep a candidate unless it reaches left of the
/// boundary with a blocked back-left cell.
pub open spec fn keep_candidate(road: Road, boundary: int, c: RectangleOccupier) -> bool {
    if c.left_spec() < boundary {
        !road.blocked_at(c.left_spec(), c.back_spec(), road.cells.road_length())
    } else {
        true
    }
}

/// Whether some candidate in the feasible set reaches the bike lane
/// entirely (no covered lat below the motor-lane width).
pub open spec fn exists_bike_lane_candidate(road: Road, b: Bike, id: usize) -> bool {
    exists|p: int|
        in_band(b, p) && #[trigger] lat_feasible(road, b, id, p) && with_right(
            b.occupation,
            p,
        ).left_spec() >= road.cells.mlw
}

/// Membership in the safety-filtered candidate set Y'' of the lateral rule.
pub open spec fn ypp_member(road: Road, b: Bike, id: usize, c: RectangleOccupier) -> bool {
    let shape_ok = c.front == b.occupation.front && c.width == b.occupation.width && c.length
        == b.occupation.length;
    let base = shape_ok && in_band(b, c.right as int) && lat_feasible(road, b, id, c.right as int);
    match lateral_filter_mode(road, b.occupation) {
        YPrimePrimeFilter::MotorLaneBlocking => {
            if exists_bike_lane_candidate(road, b, id) {
                base && c.left_spec() >= road.cells.mlw
            } else {
                base && (forall|p: int|
                    in_band(b, p) && c.right < p ==> !(#[trigger] lat_feasible(road, b, id, p)))
            }
        },
        YPrimePrimeFilter::MotorLaneNonBlocking => base && keep_candidate(
            road,
            b.occupation.right as int,
            c,
        ),
        YPrimePrimeFilter::BikeLane => base && keep_candidate(road, b.occupation.right as int, c),
    }
}

/// Candidate lists are kept sorted by their right edge, ascending.
pub open spec fn sorted_by_right(s: Seq<RectangleOccupier>) -> bool {
    forall|k1: int, k2: int| 0 <= k1 < k2 < s.len() ==> s[k1].right < s[k2].right
}

impl Bike {
    /// The feasibility-filtered candidate set Y': every occupation within
    /// the lateral band that stays on the road and collides with nobody
    /// else, leftmost first.
    pub fn y_prime_j_t_plus_1(&self, road: &Road, self_id: usize) -> (r: Vec<RectangleOccupier>)
        requires
            road.wf(),
            bike_wf(*self, road.cells.road_width(), road.cells.road_length()),
        ensures
            forall|p: int| in_band(*self, p) ==> (r@.contains(with_right(self.occupation, p))
                <==> lat_feasible(*road, *self, self_id, p)),
            forall|k: int| 0 <= k < r@.len() ==> #[trigger] r@[k] == with_right(
                self.occupation,
                r@[k].right as int,
            ) && in_band(*self, r@[k].right as int) && lat_feasible(
                *road,
                *self,
                self_id,
                r@[k].right as int,
            ),
            sorted_by_right(r@),
    {
        let positions = self.potential_lateral_positions();
        let mut out: Vec<RectangleOccupier> = Vec::new();
        let mut k: usize = 0;
        while k < positions.len()
            invariant
                road.wf(),
                bike_wf(*self, road.cells.road_width(), road.cells.road_length()),
                positions@.len() == 2 * self.rightward_speed_max + 1,
                forall|i: int| 0 <= i < positions@.len() ==> positions@[i] == self.occupation.right
                    - self.rightward_speed_max + i,
                k <= positions@.len(),
                forall|i: int| 0 <= i < k ==> (out@.contains(
                    with_right(self.occupation, positions@[i] as int),
                ) <==> lat_feasible(*road, *self, self_id, positions@[i] as int)),
                forall|j: int| 0 <= j < out@.len() ==> #[trigger] out@[j] == with_right(
                    self.occupation,
                    out@[j].right as int,
                ) && in_band(*self, out@[j].right as int) && lat_feasible(
                    *road,
                    *self,
                    self_id,
                    out@[j].right as int,
                ) && out@[j].right < self.occupation.right - self.rightward_speed_max + k,
                sorted_by_right(out@),
            decreases positions@.len() - k,
        {
            let p = positions[k];
            let candidate = RectangleOccupier {
                front: self.occupation.front,
                right: p,
                width: self.occupation.width,
                length: self.occupation.length,
            };
            let ghost out_pre = out@;
            if self.candidate_is_feasible(road, self_id, &candidate) {
                out.push(candidate);
            }
            proof {
                assert(candidate == with_right(self.occupation, p as int));
                assert forall|i: int| 0 <= i < k + 1 implies (out@.contains(
                    with_right(self.occupation, positions@[i] as int),
                ) <==> lat_feasible(*road, *self, self_id, positions@[i] as int)) by {
                    let c = with_right(self.occupation, positions@[i] as int);
                    if i < k {
                        if out_pre.contains(c) {
                            let j = choose|j: int| 0 <= j < out_pre.len() && out_pre[j] == c;
                            assert(out@[j] == c);
                        }
                        if out@.contains(c) {
                            let j = choose|j: int| 0 <= j < out@.len() && out@[j] == c;
                            if j >= out_pre.len() {
                                assert(out@[j] == candidate);
                                assert(false);
                            }
                        }
                    } else {
                        if lat_feasible(*road, *self, self_id, positions@[i] as int) {
                            assert(out@[out@.len() - 1] == c);
                        }
                        if out@.contains(c) {
                            let j = choose|j: int| 0 <= j < out@.len() && out@[j] == c;
                            if j < out_pre.len() {
                                assert(out_pre[j].right < self.occupation.right
                                    - self.rightward_speed_max + k);
                                assert(false);
                            }
                        }
                    }
                }
            }
            k = k + 1;
        }
        proof {
            assert forall|p: int| in_band(*self, p) implies (out@.contains(
                with_right(self.occupation, p),
            ) <==> lat_feasible(*road, *self, self_id, p)) by {
                let i = p - (self.occupation.right - self.rightward_speed_max);
                assert(0 <= i < positions@.len());
                assert(positions@[i] as int == p);
            }
        }
        out
    }

    /// Whether one candidate occupation is on the road and free of others.
    fn candidate_is_feasible(
        &self,
        road: &Road,
        self_id: usize,
        candidate: &RectangleOccupier,
    ) -> (r: bool)
        requires
            road.wf(),
            0 < candidate.width,
            0 < candidate.length <= road.cells.road_length(),
        ensures
            r == (candidate.on_lats(road.cells.road_width()) && !road.cells.conflict(
                *candidate,
                Some(Vehicle::Bike(self_id)),
            )),
    {
        road.road_contains_occupier(candidate) && !road.is_collision_for(
            candidate,
            Vehicle::Bike(self_id),
        )
    }
}

/// The mode decision for the lateral safety filter: motor-lane occupations
/// check for a trailing car that could reach their back-left corner.
pub fn determine_y_prime_prime_j_t_plus_1_filter(
    road: &Road,
    current_occupation: RectangleOccupier,
) -> (r: YPrimePrimeFilter)
    requires
        road.wf(),
        current_occupation.placed(road.cells.road_width(), road.cells.road_length()),
    ensures
        r == lateral_filter_mode(*road, current_occupation),
{
    if road.motor_lane_contains_occupier(&current_occupation) {
        if road.is_blocking(&current_occupation.back_left(), None) {
            YPrimePrimeFilter::MotorLaneBlocking
        } else {
            YPrimePrimeFilter::MotorLaneNonBlocking
        }
    } else {
        YPrimePrimeFilter::BikeLane
    }
}

/// The non-blocking safety filter: drop candidates that reach left of the
/// boundary while their back-left cell is blocked by a trailing car.
pub fn avoid_blocking_ypp_filter(
    yp: &Vec<RectangleOccupier>,
    road: &Road,
    boundary: isize,
) -> (r: Vec<RectangleOccupier>)
    requires
        road.wf(),
        forall|k: int| 0 <= k < yp@.len() ==> (#[trigger] yp@[k]).placed(
            road.cells.road_width(),
            road.cells.road_length(),
        ),
        sorted_by_right(yp@),
    ensures
        forall|c: RectangleOccupier| r@.contains(c) <==> yp@.contains(c) && keep_candidate(
            *road,
            boundary as int,
            c,
        ),
        forall|k: int| 0 <= k < r@.len() ==> yp@.contains(#[trigger] r@[k]),
        sorted_by_right(r@),
        forall|k: int| 0 <= k < r@.len() ==> (#[trigger] r@[k]).placed(
            road.cells.road_width(),
            road.cells.road_length(),
        ),
{
    let mut out: Vec<RectangleOccupier> = Vec::new();
    let mut k: usize = 0;
    while k < yp.len()
        invariant
            road.wf(),
            forall|i: int| 0 <= i < yp@.len() ==> (#[trigger] yp@[i]).placed(
                road.cells.road_width(),
                road.cells.road_length(),
            ),
            sorted_by_right(yp@),
            k <= yp@.len(),
            forall|c: RectangleOccupier| out@.contains(c) <==> (exists|i: int|
                0 <= i < k && yp@[i] == c) && keep_candidate(*road, boundary as int, c),
            forall|j: int| 0 <= j < out@.len() ==> exists|i: int|
                0 <= i < k && yp@[i] == #[trigger] out@[j],
            forall|j: int| 0 <= j < out@.len() ==> (#[trigger] out@[j]).right < (if k == 0 {
                yp@[0].right as int
            } else {
                yp@[k - 1].right + 1
            }),
            sorted_by_right(out@),
        decreases yp@.len() - k,
    {
        let c = yp[k];
        let crosses_boundary = {
            let left: i128 = c.right as i128 - c.width as i128 + 1;
            left < boundary as i128
        };
        let keep = if crosses_boundary {
            !road.is_blocking(&c.back_left(), None)
        } else {
            true
        };
        let ghost out_pre = out@;
        if keep {
            out.push(c);
        }
        proof {
            assert forall|cc: RectangleOccupier| out@.contains(cc) <==> (exists|i: int|
                0 <= i < k + 1 && yp@[i] == cc) && keep_candidate(*road, boundary as int, cc) by {
                if out@.contains(cc) {
                    let j = choose|j: int| 0 <= j < out@.len() && out@[j] == cc;
                    if j < out_pre.len() {
                        assert(out_pre.contains(cc));
                    } else {
                        assert(cc == c);
                        assert(yp@[k as int] == cc);
                    }
                }
                if (exists|i: int| 0 <= i < k + 1 && yp@[i] == cc) && keep_candidate(
                    *road,
                    boundary as int,
                    cc,
                ) {
                    let i = choose|i: int| 0 <= i < k + 1 && yp@[i] == cc;
                    if i < k {
                        assert(out_pre.contains(cc));
                        let j = choose|j: int| 0 <= j < out_pre.len() && out_pre[j] == cc;
                        assert(out@[j] == cc);
                    } else {
                        assert(out@[out@.len() - 1] == cc);
                    }
                }
            }
        }
        k = k + 1;
    }
    out
}

/// The blocking-mode filter: when some candidate escapes to the bike lane,
/// exactly the bike-lane candidates survive; otherwise only the rightmost
/// (which is the last, the list being sorted) of the motor-lane candidates.
pub fn y_prime_prime_motor_lane_blocking(
    y_prime_j_t_plus_1: &Vec<RectangleOccupier>,
    road: &Road,
) -> (r: Vec<RectangleOccupier>)
    requires
        road.wf(),
        forall|k: int| 0 <= k < y_prime_j_t_plus_1@.len() ==> (#[trigger] y_prime_j_t_plus_1@[k]).placed(
            road.cells.road_width(),
            road.cells.road_length(),
        ),
        sorted_by_right(y_prime_j_t_plus_1@),
        y_prime_j_t_plus_1@.len() > 0,
    ensures
        if exists|k: int|
            0 <= k < y_prime_j_t_plus_1@.len() && (#[trigger] y_prime_j_t_plus_1@[k]).left_spec()
                >= road.cells.mlw {
            &&& forall|c: RectangleOccupier| r@.contains(c) <==> y_prime_j_t_plus_1@.contains(c)
                && c.left_spec() >= road.cells.mlw
            &&& sorted_by_right(r@)
        } else {
            r@ =~= seq![y_prime_j_t_plus_1@[y_prime_j_t_plus_1@.len() - 1]]
        },
        forall|k: int| 0 <= k < r@.len() ==> y_prime_j_t_plus_1@.contains(#[trigger] r@[k]),
{
    let yp = y_prime_j_t_plus_1;
    let mut on_bike_lane: Vec<RectangleOccupier> = Vec::new();
    let mut k: usize = 0;
    while k < yp.len()
        invariant
            road.wf(),
            forall|i: int| 0 <= i < yp@.len() ==> (#[trigger] yp@[i]).placed(
                road.cells.road_width(),
                road.cells.road_length(),
            ),
            sorted_by_right(yp@),
            k <= yp@.len(),
            forall|c: RectangleOccupier| on_bike_lane@.contains(c) <==> (exists|i: int|
                0 <= i < k && yp@[i] == c) && c.left_spec() >= road.cells.mlw,
            forall|j: int| 0 <= j < on_bike_lane@.len() ==> exists|i: int|
                0 <= i < k && yp@[i] == #[trigger] on_bike_lane@[j],
            forall|j: int| 0 <= j < on_bike_lane@.len() ==> (#[trigger] on_bike_lane@[j]).right < (
            if k == 0 {
                yp@[0].right as int
            } else {
                yp@[k - 1].right + 1
            }),
            sorted_by_right(on_bike_lane@),
        decreases yp@.len() - k,
    {
        let c = yp[k];
        let on_ml = road.motor_lane_contains_occupier(&c);
        let ghost pre = on_bike_lane@;
        if !on_ml {
            on_bike_lane.push(c);
        }
        proof {
            assert forall|cc: RectangleOccupier| on_bike_lane@.contains(cc) <==> (exists|i: int|
                0 <= i < k + 1 && yp@[i] == cc) && cc.left_spec() >= road.cells.mlw by {
                if on_bike_lane@.contains(cc) {
                    let j = choose|j: int| 0 <= j < on_bike_lane@.len() && on_bike_lane@[j] == cc;
                    if j < pre.len() {
                        assert(pre.contains(cc));
                    } else {
                        assert(cc == c);
                        assert(yp@[k as int] == cc);
                    }
                }
                if (exists|i: int| 0 <= i < k + 1 && yp@[i] == cc) && cc.left_spec()
                    >= road.cells.mlw {
                    let i = choose|i: int| 0 <= i < k + 1 && yp@[i] == cc;
                    if i < k {
                        assert(pre.contains(cc));
                        let j = choose|j: int| 0 <= j < pre.len() && pre[j] == cc;
                        assert(on_bike_lane@[j] == cc);
                    } else {
                        assert(on_bike_lane@[on_bike_lane@.len() - 1] == cc);
                    }
                }
            }
        }
        k = k + 1;
    }
    if on_bike_lane.len() > 0 {
        proof {
            let c0 = on_bike_lane@[0];
            assert(on_bike_lane@.contains(c0));
            let i = choose|i: int| 0 <= i < yp@.len() && yp@[i] == c0;
            assert(yp@[i].left_spec() >= road.cells.mlw);
        }
        on_bike_lane
    } else {
        let last = yp[yp.len() - 1];
        let mut out: Vec<RectangleOccupier> = Vec::new();
        out.push(last);
        proof {
            assert(yp@[yp@.len() - 1] == last);
            assert forall|kk: int|
                0 <= kk < yp@.len() implies !((#[trigger] yp@[kk]).left_spec()
                >= road.cells.mlw) by {
                if yp@[kk].left_spec() >= road.cells.mlw {
                    assert(on_bike_lane@.contains(yp@[kk]));
                }
            }
            assert(out@ =~= seq![yp@[yp@.len() - 1]]);
        }
        out
    }
}

/// The safety filter Y' to Y'': dispatch on the mode of the bike's current
/// occupation.
pub fn y_prime_prime_j_t_plus_1(
    road: &Road,
    current_occupation: RectangleOccupier,
    y_prime_j_t_plus_1: Vec<RectangleOccupier>,
) -> (r: Vec<RectangleOccupier>)
    requires
        road.wf(),
        current_occupation.placed(road.cells.road_width(), road.cells.road_length()),
        forall|k: int| 0 <= k < y_prime_j_t_plus_1@.len() ==> (#[trigger] y_prime_j_t_plus_1@[k]).placed(
            road.cells.road_width(),
            road.cells.road_length(),
        ),
        sorted_by_right(y_prime_j_t_plus_1@),
        lateral_filter_mode(*road, current_occupation) == YPrimePrimeFilter::MotorLaneBlocking
            ==> y_prime_j_t_plus_1@.len() > 0,
    ensures
        match lateral_filter_mode(*road, current_occupation) {
            YPrimePrimeFilter::MotorLaneBlocking => if exists|k: int|
                0 <= k < y_prime_j_t_plus_1@.len()
                    && (#[trigger] y_prime_j_t_plus_1@[k]).left_spec() >= road.cells.mlw {
                &&& forall|c: RectangleOccupier| r@.contains(c) <==> y_prime_j_t_plus_1@.contains(
                    c,
                ) && c.left_spec() >= road.cells.mlw
                &&& sorted_by_right(r@)
            } else {
                r@ =~= seq![y_prime_j_t_plus_1@[y_prime_j_t_plus_1@.len() - 1]]
            },
            _ => {
                &&& forall|c: RectangleOccupier| r@.contains(c) <==> y_prime_j_t_plus_1@.contains(
                    c,
                ) && keep_candidate(*road, current_occupation.right as int, c)
                &&& sorted_by_right(r@)
            },
        },
        forall|k: int| 0 <= k < r@.len() ==> y_prime_j_t_plus_1@.contains(#[trigger] r@[k]),
{
    match determine_y_prime_prime_j_t_plus_1_filter(road, current_occupation) {
        YPrimePrimeFilter::MotorLaneBlocking => y_prime_prime_motor_lane_blocking(
            &y_prime_j_t_plus_1,
            road,
        ),
        YPrimePrimeFilter::MotorLaneNonBlocking => {
            let r = avoid_blocking_ypp_filter(
                &y_prime_j_t_plus_1,
                road,
                current_occupation.right,
            );
            proof {
                assert forall|k: int| 0 <= k < r@.len() implies y_prime_j_t_plus_1@.contains(
                    #[trigger] r@[k],
                ) by {
                    assert(r@.contains(r@[k]));
                }
            }
            r
        },
        YPrimePrimeFilter::BikeLane => {
            let r = avoid_blocking_ypp_filter(
                &y_prime_j_t_plus_1,
                road,
                current_occupation.right,
            );
            proof {
                assert forall|k: int| 0 <= k < r@.len() implies y_prime_j_t_plus_1@.contains(
                    #[trigger] r@[k],
                ) by {
                    assert(r@.contains(r@[k]));
                }
            }
            r
        },
    }
}

/// The rightmost option: the one whose right edge is greatest.
pub fn rightmost_y_star_selector(options: &Vec<RectangleOccupier>) -> (r: Option<
    RectangleOccupier,
>)
    ensures
        match r {
            None => options@.len() == 0,
            Some(c) => options@.contains(c) && forall|k: int|
                0 <= k < options@.len() ==> (#[trigger] options@[k]).right <= c.right,
        },
{
    if options.len() == 0 {
        return None;
    }
    let mut best = options[0];
    let mut k: usize = 1;
    proof {
        assert(options@.contains(options@[0]));
    }
    while k < options.len()
        invariant
            options@.len() > 0,
            k <= options@.len(),
            options@.contains(best),
            forall|i: int| 0 <= i < k ==> (#[trigger] options@[i]).right <= best.right,
        decreases options@.len() - k,
    {
        if options[k].right >= best.right {
            best = options[k];
            proof {
                assert(options@.contains(options@[k as int]));
            }
        }
        k = k + 1;
    }
    Some(best)
}

/// A uniformly random option.
pub fn uniform_y_star_selector(options: &Vec<RectangleOccupier>) -> (r: Option<RectangleOccupier>)
    ensures
        match r {
            None => options@.len() == 0,
            Some(c) => options@.contains(c),
        },
{
    if options.len() == 0 {
        return None;
    }
    let i = random_below(options.len() as u64) as usize;
    proof {
        assert(options@.contains(options@[i as int]));
    }
    Some(options[i])
}

impl Bike {
    /// The safety-filtered candidate set Y'' for this bike.
    pub fn y_prime_prime_j_t_plus_1(&self, road: &Road, self_id: usize) -> (r: Vec<
        RectangleOccupier,
    >)
        requires
            road.wf(),
            self_id < road.bikes@.len(),
            *self == road.bikes@[self_id as int],
        ensures
            forall|c: RectangleOccupier| r@.contains(c) <==> ypp_member(*road, *self, self_id, c),
            sorted_by_right(r@),
    {
        let yp = self.y_prime_j_t_plus_1(road, self_id);
        proof {
            self.lemma_own_occupation_feasible(road, self_id);
            assert(with_right(self.occupation, self.occupation.right as int) == self.occupation);
            assert forall|k: int| 0 <= k < yp@.len() implies (#[trigger] yp@[k]).placed(
                road.cells.road_width(),
                road.cells.road_length(),
            ) by {
                assert(yp@[k] == with_right(self.occupation, yp@[k].right as int));
            }
            if lateral_filter_mode(*road, self.occupation)
                == YPrimePrimeFilter::MotorLaneBlocking {
                assert(yp@.contains(self.occupation));
            }
        }
        let r = y_prime_prime_j_t_plus_1(road, self.rectangle_occupation(), yp);
        proof {
            self.lemma_ypp_translation(road, self_id, yp@, r@);
        }
        r
    }

    /// The bike's own occupation is always a feasible candidate: it is on
    /// the road, within the band, and its cells carry only its own handle.
    proof fn lemma_own_occupation_feasible(&self, road: &Road, self_id: usize)
        requires
            road.wf(),
            self_id < road.bikes@.len(),
            *self == road.bikes@[self_id as int],
        ensures
            lat_feasible(*road, *self, self_id, self.occupation.right as int),
            in_band(*self, self.occupation.right as int),
    {
        let cur = with_right(self.occupation, self.occupation.right as int);
        assert(cur == self.occupation);
        if road.cells.conflict(cur, Some(Vehicle::Bike(self_id))) {
            let (lat, long) = choose|lat: int, long: int|
                road.cells.in_range(lat, long) && #[trigger] cur.covers(
                    road.cells.road_length(),
                    lat,
                    long,
                ) && road.cells.occ(lat, long).is_some() && road.cells.occ(lat, long) != Some(
                    Vehicle::Bike(self_id),
                );
            assert(self.occupation.covers(road.cells.road_length(), lat, long));
            assert(road.cells.occ(lat, long) == Some(Vehicle::Bike(self_id)));
        }
    }

    /// Translate the list-level contract of the Y'' filter into the
    /// spec-level membership predicate `ypp_member`.
    proof fn lemma_ypp_translation(
        &self,
        road: &Road,
        self_id: usize,
        yp: Seq<RectangleOccupier>,
        r: Seq<RectangleOccupier>,
    )
        requires
            road.wf(),
            self_id < road.bikes@.len(),
            *self == road.bikes@[self_id as int],
            forall|p: int| in_band(*self, p) ==> (yp.contains(with_right(self.occupation, p))
                <==> lat_feasible(*road, *self, self_id, p)),
            forall|k: int| 0 <= k < yp.len() ==> #[trigger] yp[k] == with_right(
                self.occupation,
                yp[k].right as int,
            ) && in_band(*self, yp[k].right as int) && lat_feasible(
                *road,
                *self,
                self_id,
                yp[k].right as int,
            ),
            sorted_by_right(yp),
            match lateral_filter_mode(*road, self.occupation) {
                YPrimePrimeFilter::MotorLaneBlocking => if exists|k: int|
                    0 <= k < yp.len() && (#[trigger] yp[k]).left_spec() >= road.cells.mlw {
                    &&& forall|c: RectangleOccupier| r.contains(c) <==> yp.contains(c)
                        && c.left_spec() >= road.cells.mlw
                    &&& sorted_by_right(r)
                } else {
                    r =~= seq![yp[yp.len() - 1]]
                },
                _ => {
                    &&& forall|c: RectangleOccupier| r.contains(c) <==> yp.contains(c)
                        && keep_candidate(*road, self.occupation.right as int, c)
                    &&& sorted_by_right(r)
                },
            },
            lateral_filter_mode(*road, self.occupation) == YPrimePrimeFilter::MotorLaneBlocking
                ==> yp.len() > 0,
        ensures
            forall|c: RectangleOccupier| r.contains(c) <==> ypp_member(*road, *self, self_id, c),
            sorted_by_right(r),
    {
        let mode = lateral_filter_mode(*road, self.occupation);
        match mode {
            YPrimePrimeFilter::MotorLaneBlocking => {
                let has_bl_list = exists|k: int|
                    0 <= k < yp.len() && (#[trigger] yp[k]).left_spec() >= road.cells.mlw;
                assert(has_bl_list <==> exists_bike_lane_candidate(*road, *self, self_id)) by {
                    if has_bl_list {
                        let k = choose|k: int|
                            0 <= k < yp.len() && (#[trigger] yp[k]).left_spec()
                                >= road.cells.mlw;
                        let p = yp[k].right as int;
                        assert(lat_feasible(*road, *self, self_id, p) && in_band(*self, p)
                            && with_right(self.occupation, p).left_spec() >= road.cells.mlw);
                    }
                    if exists_bike_lane_candidate(*road, *self, self_id) {
                        let p = choose|p: int|
                            in_band(*self, p) && #[trigger] lat_feasible(*road, *self, self_id, p)
                                && with_right(self.occupation, p).left_spec() >= road.cells.mlw;
                        assert(yp.contains(with_right(self.occupation, p)));
                        let k = choose|k: int|
                            0 <= k < yp.len() && yp[k] == with_right(self.occupation, p);
                        assert(yp[k].left_spec() >= road.cells.mlw);
                    }
                }
                if has_bl_list {
                    assert forall|c: RectangleOccupier| r.contains(c) <==> ypp_member(
                        *road,
                        *self,
                        self_id,
                        c,
                    ) by {
                        if r.contains(c) {
                            assert(yp.contains(c) && c.left_spec() >= road.cells.mlw);
                            let k = choose|k: int| 0 <= k < yp.len() && yp[k] == c;
                            assert(yp[k] == c);
                        }
                        if ypp_member(*road, *self, self_id, c) {
                            assert(c == with_right(self.occupation, c.right as int));
                            assert(yp.contains(c));
                        }
                    }
                } else {
                    let last = yp[yp.len() - 1];
                    assert forall|c: RectangleOccupier| r.contains(c) <==> ypp_member(
                        *road,
                        *self,
                        self_id,
                        c,
                    ) by {
                        if r.contains(c) {
                            assert(c == last);
                            assert(ypp_member(*road, *self, self_id, c)) by {
                                assert(lat_feasible(*road, *self, self_id, last.right as int));
                                assert forall|p: int| in_band(*self, p) && c.right < p
                                    implies !(#[trigger] lat_feasible(
                                    *road,
                                    *self,
                                    self_id,
                                    p,
                                )) by {
                                    if lat_feasible(*road, *self, self_id, p) {
                                        assert(yp.contains(with_right(self.occupation, p)));
                                        let k = choose|k: int|
                                            0 <= k < yp.len() && yp[k] == with_right(
                                                self.occupation,
                                                p,
                                            );
                                        if k < yp.len() - 1 {
                                            assert(yp[k].right < yp[yp.len() - 1].right);
                                        }
                                        assert(false);
                                    }
                                }
                            }
                        }
                        if ypp_member(*road, *self, self_id, c) {
                            assert(c == with_right(self.occupation, c.right as int));
                            assert(yp.contains(c));
                            let k = choose|k: int| 0 <= k < yp.len() && yp[k] == c;
                            if c.right < last.right {
                                assert(lat_feasible(*road, *self, self_id, last.right as int));
                                assert(in_band(*self, last.right as int));
                                assert(false);
                            }
                            if last.right < c.right {
                                if k < yp.len() - 1 {
                                    assert(yp[k].right < yp[yp.len() - 1].right);
                                }
                                assert(false);
                            }
                            assert(c == last);
                            assert(r[0] == last);
                            assert(r.contains(c));
                        }
                    }
                }
            },
            _ => {
                assert forall|c: RectangleOccupier| r.contains(c) <==> ypp_member(
                    *road,
                    *self,
                    self_id,
                    c,
                ) by {
                    if r.contains(c) {
                        assert(yp.contains(c));
                        let k = choose|k: int| 0 <= k < yp.len() && yp[k] == c;
                        assert(yp[k] == c);
                    }
                    if ypp_member(*road, *self, self_id, c) {
                        assert(c == with_right(self.occupation, c.right as int));
                        assert(yp.contains(c));
                    }
                }
            },
        }
    }

    /// Choose the bike's proposed lateral occupation from Y'' by its
    /// strategy; staying put is the fallback when Y'' is empty.
    pub fn select_y_star(&self, road: &Road, self_id: usize) -> (r: RectangleOccupier)
        requires
            road.wf(),
            self_id < road.bikes@.len(),
            *self == road.bikes@[self_id as int],
        ensures
            r == self.occupation || ypp_member(*road, *self, self_id, r),
            (!exists|c: RectangleOccupier| ypp_member(*road, *self, self_id, c)) ==> r
                == self.occupation,
            (self.y_star_selection_strategy == YStarSelectionStrategy::Rightmost && exists|
                c: RectangleOccupier,
            | ypp_member(*road, *self, self_id, c)) ==> ypp_member(*road, *self, self_id, r)
                && (forall|c: RectangleOccupier| ypp_member(*road, *self, self_id, c)
                ==> c.right <= r.right),
    {
        let y_prime_prime = self.y_prime_prime_j_t_plus_1(road, self_id);
        let selected = match self.y_star_selection_strategy {
            YStarSelectionStrategy::Rightmost => rightmost_y_star_selector(&y_prime_prime),
            YStarSelectionStrategy::UniformRandom => uniform_y_star_selector(&y_prime_prime),
        };
        proof {
            if exists|c: RectangleOccupier| ypp_member(*road, *self, self_id, c) {
                let c = choose|c: RectangleOccupier| ypp_member(*road, *self, self_id, c);
                assert(y_prime_prime@.contains(c));
                assert(y_prime_prime@.len() > 0);
            }
        }
        match selected {
            Some(choice) => {
                proof {
                    assert forall|c: RectangleOccupier| ypp_member(*road, *self, self_id, c)
                        implies c.right <= choice.right || self.y_star_selection_strategy
                        != YStarSelectionStrategy::Rightmost by {
                        if self.y_star_selection_strategy == YStarSelectionStrategy::Rightmost {
                            assert(y_prime_prime@.contains(c));
                            let k = choose|k: int|
                                0 <= k < y_prime_prime@.len() && y_prime_prime@[k] == c;
                            assert(y_prime_prime@[k].right <= choice.right);
                        }
                    }
                }
                choice
            },
            None => self.rectangle_occupation(),
        }
    }

    /// One lateral step: with probability `lateral_ignorance` keep the
    /// current occupation; otherwise move the right edge to the strategy's
    /// choice from the safety-filtered candidates.
    pub fn lateral_update(&self, self_id: usize, road: &Road) -> (r: Bike)
        requires
            road.wf(),
            self_id < road.bikes@.len(),
            *self == road.bikes@[self_id as int],
        ensures
            r.forward_speed_max == self.forward_speed_max,
            r.forward_speed == self.forward_speed,
            r.forward_acceleration == self.forward_acceleration,
            r.rightward_speed_max == self.rightward_speed_max,
            r.lateral_ignorance == self.lateral_ignorance,
            r.deceleration_prob == self.deceleration_prob,
            r.y_star_selection_strategy == self.y_star_selection_strategy,
            r.occupation.front == self.occupation.front,
            r.occupation.width == self.occupation.width,
            r.occupation.length == self.occupation.length,
            r.occupation == self.occupation || ypp_member(*road, *self, self_id, r.occupation),
            self.lateral_ignorance >= PROB_ONE ==> r.occupation == self.occupation,
            self.lateral_ignorance == 0 ==> ((!exists|c: RectangleOccupier|
                ypp_member(*road, *self, self_id, c)) ==> r.occupation == self.occupation),
            self.lateral_ignorance == 0 && self.y_star_selection_strategy
                == YStarSelectionStrategy::Rightmost && (exists|c: RectangleOccupier|
                ypp_member(*road, *self, self_id, c)) ==> ypp_member(
                *road,
                *self,
                self_id,
                r.occupation,
            ) && (forall|c: RectangleOccupier| ypp_member(*road, *self, self_id, c)
                ==> c.right <= r.occupation.right),
    {
        if self.should_ignore_lateral_movement() {
            Bike { ..*self }
        } else {
            Bike { occupation: self.select_y_star(road, self_id), ..*self }
        }
    }
}

/// The speed the forward rule settles on before the deceleration draw: the
/// accelerated speed, capped by the maximum and by the road-level front gap.
pub open spec fn forward_base_speed(road: Road, b: Bike) -> int {
    let gap = crate::road::min_front_gap_upto(road.cells, b.occupation, b.occupation.width as int);
    let accelerated = if b.forward_speed + b.forward_acceleration <= b.forward_speed_max {
        b.forward_speed + b.forward_acceleration
    } else {
        b.forward_speed_max as int
    };
    if gap < accelerated {
        gap
    } else {
        accelerated
    }
}

/// Without trailing pressure a bike only gains speed: when the free gap
/// ahead is at least the speed cap, the forward rule's base speed never
/// falls below the current speed, rises strictly while the cap is not yet
/// reached, and never exceeds the cap.  With a deceleration probability of
/// zero the base speed is exactly the speed driven, so speeds climb
/// monotonically toward the cap.
pub proof fn lemma_forward_speed_monotone(road: Road, b: Bike)
    requires
        bike_wf(b, road.cells.road_width(), road.cells.road_length()),
        crate::road::min_front_gap_upto(road.cells, b.occupation, b.occupation.width as int)
            >= b.forward_speed_max,
    ensures
        b.forward_speed <= forward_base_speed(road, b) <= b.forward_speed_max,
        b.forward_speed < b.forward_speed_max ==> b.forward_speed < forward_base_speed(road, b),
{
}

/// One unit of deceleration, floored at rest.
pub open spec fn decelerated(s: int) -> int {
    if s >= 1 {
        s - 1
    } else {
        0
    }
}

impl Bike {
    /// One forward step: accelerate, cap by the maximum and by the free gap
    /// ahead, decelerate by one with the configured probability, and move
    /// the front that many cells around the ring.
    pub fn forward_update(&self, road: &Road) -> (r: Bike)
        requires
            road.wf(),
            bike_wf(*self, road.cells.road_width(), road.cells.road_length()),
        ensures
            r.occupation.right == self.occupation.right,
            r.occupation.width == self.occupation.width,
            r.occupation.length == self.occupation.length,
            r.forward_speed_max == self.forward_speed_max,
            r.forward_acceleration == self.forward_acceleration,
            r.rightward_speed_max == self.rightward_speed_max,
            r.lateral_ignorance == self.lateral_ignorance,
            r.deceleration_prob == self.deceleration_prob,
            r.y_star_selection_strategy == self.y_star_selection_strategy,
            0 <= r.forward_speed <= r.forward_speed_max,
            r.forward_speed == forward_base_speed(*road, *self) || r.forward_speed == decelerated(
                forward_base_speed(*road, *self),
            ),
            self.deceleration_prob == 0 ==> r.forward_speed == forward_base_speed(*road, *self),
            self.deceleration_prob >= PROB_ONE ==> r.forward_speed == decelerated(
                forward_base_speed(*road, *self),
            ),
            r.occupation.front == (self.occupation.front + r.forward_speed)
                % road.cells.road_length(),
    {
        let occupation = self.rectangle_occupation();
        let gap: usize = match road.front_gap(&occupation) {
            Some(g) => g,
            None => {
                proof {
                    assert(false);
                }
                0
            },
        };
        proof {
            crate::road::lemma_min_gap_bounds(road.cells, occupation, occupation.width as int);
        }
        let mut next_speed: isize = self.forward_speed + self.forward_acceleration;
        if self.forward_speed_max < next_speed {
            next_speed = self.forward_speed_max;
        }
        if (gap as isize) < next_speed {
            next_speed = gap as isize;
        }
        if self.should_decelerate() {
            next_speed = if next_speed >= 1 {
                next_speed - 1
            } else {
                0
            };
        }
        let next_front = euclid_mod(
            (self.occupation.front + next_speed) as i128,
            road.cells.l,
        ) as isize;
        Bike {
            occupation: RectangleOccupier { front: next_front, ..self.occupation },
            forward_speed: next_speed,
            ..*self
        }
    }
}
#[derive(Debug, Copy, Clone, PartialEq, Eq, Structural)]
pub struct BikeBuilder {
    pub front: isize,
    pub right: isize,
    pub length: isize,
    pub width: isize,
    pub forward_speed_max: isize,
    pub forward_speed: isize,
    pub forward_acceleration: isize,
    pub rightward_speed_max: isize,
    pub lateral_ignorance: u32,
    pub deceleration_prob: u32,
    pub y_star_selection_strategy: YStarSelectionStrategy,
}

/// What `BikeBuilder::build` returns: the first failed check's error, or
/// the assembled bike.
pub open spec fn bike_build_spec(b: BikeBuilder) -> Result<Bike, RoadError> {
    if b.length < 1 || b.width < 1 {
        Err(RoadError::NonPositiveDimension)
    } else if b.length > MAX_ROAD_LENGTH || b.width > MAX_ROAD_WIDTH {
        Err(RoadError::ParameterTooLarge)
    } else if b.forward_speed < 0 || b.forward_speed_max < 0 {
        Err(RoadError::NegativeSpeed)
    } else if b.forward_speed_max > MAX_PARAM {
        Err(RoadError::ParameterTooLarge)
    } else if b.forward_speed_max < b.forward_speed {
        Err(RoadError::SpeedAboveMax)
    } else if b.forward_acceleration < 1 {
        Err(RoadError::AccelerationBelowOne)
    } else if b.forward_acceleration > MAX_PARAM {
        Err(RoadError::ParameterTooLarge)
    } else if b.rightward_speed_max < 0 {
        Err(RoadError::NegativeLateralSpeed)
    } else if b.rightward_speed_max > MAX_PARAM {
        Err(RoadError::ParameterTooLarge)
    } else if b.lateral_ignorance > PROB_ONE || b.deceleration_prob > PROB_ONE {
        Err(RoadError::ProbabilityAboveOne)
    } else {
        Ok(
            Bike {
                occupation: RectangleOccupier {
                    front: b.front,
                    right: b.right,
                    width: b.width as usize,
                    length: b.length as usize,
                },
                forward_speed_max: b.forward_speed_max,
                forward_speed: b.forward_speed,
                forward_acceleration: b.forward_acceleration,
                rightward_speed_max: b.rightward_speed_max,
                lateral_ignorance: b.lateral_ignorance,
                deceleration_prob: b.deceleration_prob,
                y_star_selection_strategy: b.y_star_selection_strategy,
            },
        )
    }
}

impl BikeBuilder {
    /// The default configuration with all randomness switched off:
    /// never ignoring the lateral step, never decelerating, rightmost
    /// tie-break.
    pub fn deterministic_default() -> (r: Self)
        ensures
            r == (BikeBuilder {
                lateral_ignorance: 0,
                deceleration_prob: 0,
                y_star_selection_strategy: YStarSelectionStrategy::Rightmost,
                ..BikeBuilder::default_spec()
            }),
    {
        Self {
            lateral_ignorance: 0,
            deceleration_prob: 0,
            y_star_selection_strategy: YStarSelectionStrategy::Rightmost,
            ..Default::default()
        }
    }

    /// The default field values, named so contracts can speak of them.
    pub open spec fn default_spec() -> BikeBuilder {
        BikeBuilder {
            front: 2,
            right: 2,
            length: 2,
            width: 2,
            forward_speed_max: 6,
            forward_speed: 0,
            forward_acceleration: 1,
            rightward_speed_max: 2,
            lateral_ignorance: 200_000,
            deceleration_prob: 200_000,
            y_star_selection_strategy: YStarSelectionStrategy::UniformRandom,
        }
    }

    pub fn with_front_at(&self, front: isize) -> (r: Self)
        ensures
            r == (BikeBuilder { front, ..*self }),
    {
        Self { front, ..*self }
    }

    pub fn with_right_at(&self, right: isize) -> (r: Self)
        ensures
            r == (BikeBuilder { right, ..*self }),
    {
        Self { right, ..*self }
    }

    pub fn with_front_right_at(&self, front_right: Coord) -> (r: Self)
        ensures
            r == (BikeBuilder { front: front_right.long, right: front_right.lat, ..*self }),
    {
        self.with_front_at(front_right.long).with_right_at(front_right.lat)
    }

    pub fn with_length(&self, length: isize) -> (r: Result<Self, RoadError>)
        ensures
            match r {
                Ok(b) => length >= 1 && b == (BikeBuilder { length, ..*self }),
                Err(e) => length < 1 && e == RoadError::NonPositiveDimension,
            },
    {
        if length < 1 {
            Err(RoadError::NonPositiveDimension)
        } else {
            Ok(Self { length, ..*self })
        }
    }

    pub fn with_width(&self, width: isize) -> (r: Result<Self, RoadError>)
        ensures
            match r {
                Ok(b) => width >= 1 && b == (BikeBuilder { width, ..*self }),
                Err(e) => width < 1 && e == RoadError::NonPositiveDimension,
            },
    {
        if width < 1 {
            Err(RoadError::NonPositiveDimension)
        } else {
            Ok(Self { width, ..*self })
        }
    }

    pub fn with_dimensions(&self, dimensions: (isize, isize)) -> (r: Result<Self, RoadError>)
        ensures
            match r {
                Ok(b) => dimensions.0 >= 1 && dimensions.1 >= 1 && b == (BikeBuilder {
                    width: dimensions.0,
                    length: dimensions.1,
                    ..*self
                }),
                Err(e) => (dimensions.0 < 1 || dimensions.1 < 1) && e
                    == RoadError::NonPositiveDimension,
            },
    {
        let (width, length) = dimensions;
        match self.with_width(width) {
            Ok(b) => b.with_length(length),
            Err(e) => Err(e),
        }
    }

    pub fn with_forward_max_speed(&self, forward_speed_max: isize) -> (r: Result<
        Self,
        RoadError,
    >)
        ensures
            match r {
                Ok(b) => forward_speed_max >= 0 && b == (BikeBuilder {
                    forward_speed_max,
                    ..*self
                }),
                Err(e) => forward_speed_max < 0 && e == RoadError::NegativeSpeed,
            },
    {
        if forward_speed_max < 0 {
            Err(RoadError::NegativeSpeed)
        } else {
            Ok(Self { forward_speed_max, ..*self })
        }
    }

    pub fn with_forward_speed(&self, forward_speed: isize) -> (r: Result<Self, RoadError>)
        ensures
            match r {
                Ok(b) => forward_speed >= 0 && b == (BikeBuilder { forward_speed, ..*self }),
                Err(e) => forward_speed < 0 && e == RoadError::NegativeSpeed,
            },
    {
        if forward_speed < 0 {
            Err(RoadError::NegativeSpeed)
        } else {
            Ok(Self { forward_speed, ..*self })
        }
    }

    pub fn with_rightward_speed_max(&self, rightward_speed_max: isize) -> (r: Result<
        Self,
        RoadError,
    >)
        ensures
            match r {
                Ok(b) => rightward_speed_max >= 0 && b == (BikeBuilder {
                    rightward_speed_max,
                    ..*self
                }),
                Err(e) => rightward_speed_max < 0 && e == RoadError::NegativeLateralSpeed,
            },
    {
        if rightward_speed_max < 0 {
            Err(RoadError::NegativeLateralSpeed)
        } else {
            Ok(Self { rightward_speed_max, ..*self })
        }
    }

    pub fn with_forward_acceleration(&self, forward_acceleration: isize) -> (r: Result<
        Self,
        RoadError,
    >)
        ensures
            match r {
                Ok(b) => forward_acceleration >= 1 && b == (BikeBuilder {
                    forward_acceleration,
                    ..*self
                }),
                Err(e) => forward_acceleration < 1 && e == RoadError::AccelerationBelowOne,
            },
    {
        if forward_acceleration < 1 {
            Err(RoadError::AccelerationBelowOne)
        } else {
            Ok(Self { forward_acceleration, ..*self })
        }
    }

    /// Sets the probability of skipping lateral deliberation, in parts per
    /// million; rejected above `PROB_ONE`.
    pub fn with_lateral_ignorance(&self, lateral_ignorance: u32) -> (r: Result<Self, RoadError>)
        ensures
            match r {
                Ok(b) => lateral_ignorance <= PROB_ONE && b == (BikeBuilder {
                    lateral_ignorance,
                    ..*self
                }),
                Err(e) => lateral_ignorance > PROB_ONE && e == RoadError::ProbabilityAboveOne,
            },
    {
        if lateral_ignorance > PROB_ONE {
            Err(RoadError::ProbabilityAboveOne)
        } else {
            Ok(Self { lateral_ignorance, ..*self })
        }
    }

    /// Sets the per-tick deceleration probability, in parts per million;
    /// rejected above `PROB_ONE`.
    pub fn with_deceleration_prob(&self, deceleration_prob: u32) -> (r: Result<Self, RoadError>)
        ensures
            match r {
                Ok(b) => deceleration_prob <= PROB_ONE && b == (BikeBuilder {
                    deceleration_prob,
                    ..*self
                }),
                Err(e) => deceleration_prob > PROB_ONE && e == RoadError::ProbabilityAboveOne,
            },
    {
        if deceleration_prob > PROB_ONE {
            Err(RoadError::ProbabilityAboveOne)
        } else {
            Ok(Self { deceleration_prob, ..*self })
        }
    }

    pub fn with_y_star_selection_strategy(
        &self,
        y_star_selection_strategy: YStarSelectionStrategy,
    ) -> (r: Self)
        ensures
            r == (BikeBuilder { y_star_selection_strategy, ..*self }),
    {
        Self { y_star_selection_strategy, ..*self }
    }

    /// Validate every parameter and assemble the bike.
    pub fn build(&self) -> (r: Result<Bike, RoadError>)
        ensures
            r == bike_build_spec(*self),
    {
        if self.length < 1 || self.width < 1 {
            Err(RoadError::NonPositiveDimension)
        } else if self.length > MAX_ROAD_LENGTH as isize || self.width > MAX_ROAD_WIDTH as isize {
            Err(RoadError::ParameterTooLarge)
        } else if self.forward_speed < 0 || self.forward_speed_max < 0 {
            Err(RoadError::NegativeSpeed)
        } else if self.forward_speed_max > MAX_PARAM {
            Err(RoadError::ParameterTooLarge)
        } else if self.forward_speed_max < self.forward_speed {
            Err(RoadError::SpeedAboveMax)
        } else if self.forward_acceleration < 1 {
            Err(RoadError::AccelerationBelowOne)
        } else if self.forward_acceleration > MAX_PARAM {
            Err(RoadError::ParameterTooLarge)
        } else if self.rightward_speed_max < 0 {
            Err(RoadError::NegativeLateralSpeed)
        } else if self.rightward_speed_max > MAX_PARAM {
            Err(RoadError::ParameterTooLarge)
        } else if self.lateral_ignorance > PROB_ONE || self.deceleration_prob > PROB_ONE {
            Err(RoadError::ProbabilityAboveOne)
        } else {
            Ok(
                Bike {
                    occupation: RectangleOccupier {
                        front: self.front,
                        right: self.right,
                        width: self.width as usize,
                        length: self.length as usize,
                    },
                    forward_speed_max: self.forward_speed_max,
                    forward_speed: self.forward_speed,
                    forward_acceleration: self.forward_acceleration,
                    rightward_speed_max: self.rightward_speed_max,
                    lateral_ignorance: self.lateral_ignorance,
                    deceleration_prob: self.deceleration_prob,
                    y_star_selection_strategy: self.y_star_selection_strategy,
                },
            )
        }
    }
}

impl Default for BikeBuilder {
    /// A two-by-two bike near the left of the road, top speed six, lateral
    /// reach two, one-in-five ignorance and deceleration, uniform tie-break.
    fn default() -> (r: Self)
        ensures
            r == BikeBuilder::default_spec(),
    {
        BikeBuilder {
            front: 2,
            right: 2,
            length: 2,
            width: 2,
            forward_speed_max: 6,
            forward_speed: 0,
            forward_acceleration: 1,
            rightward_speed_max: 2,
            lateral_ignorance: 200_000,
            deceleration_prob: 200_000,
            y_star_selection_strategy: YStarSelectionStrategy::UniformRandom,
        }
    }
}

impl Default for Bike {
    /// The bike the default builder yields; the default configuration
    /// always validates.
    fn default() -> (r: Bike)
        ensures
            Ok::<Bike, RoadError>(r) == bike_build_spec(BikeBuilder::default_spec()),
    {
        let builder = BikeBuilder::default();
        match builder.build() {
            Ok(bike) => bike,
            Err(_) => {
                proof {
                    assert(false);
                }
                Bike {
                    occupation: RectangleOccupier { front: 2, right: 2, width: 2, length: 2 },
                    forward_speed_max: 6,
                    forward_speed: 0,
                    forward_acceleration: 1,
                    rightward_speed_max: 2,
                    lateral_ignorance: 200_000,
                    deceleration_prob: 200_000,
                    y_star_selection_strategy: YStarSelectionStrategy::UniformRandom,
                }
            },
        }
    }
}

} // verus!
