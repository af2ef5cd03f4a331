//! The road: the agent arrays, the occupancy index, the per-tick phase
//! ordering, and the collision-freedom invariant that every tick preserves.

pub use crate::cells::{rect_cell, search_limit, RoadCells};
pub use crate::geometry::{rectangle_occupation, Coord, RectangleOccupier, RoadOccupier, Vehicle};

use crate::bike::{
    bike_wf, in_band, lat_feasible, lateral_filter_mode, with_right, ypp_member, Bike,
    YPrimePrimeFilter, YStarSelectionStrategy,
};
use crate::car::{car_rect, car_wf, potential_speed, Car};
use crate::geometry::euclid_mod;
use crate::rng::shuffle_ids;
use crate::{RoadError, MAX_PARAM, PROB_ONE};
use vstd::prelude::*;

verus! {

/// The least column front gap over the occupier's leftmost `di` front-edge
/// cells, each scanned up to the full ring length.
pub open spec fn min_front_gap_upto(cells: RoadCells, o: RectangleOccupier, di: int) -> int
    decreases di,
{
    let g = cells.col_gap(o.left_spec() + di - 1, o.front as int, cells.road_length());
    if di <= 1 {
        g
    } else {
        let rest = min_front_gap_upto(cells, o, di - 1);
        if g < rest {
            g
        } else {
            rest
        }
    }
}

/// A road-level front gap always lies between zero and the ring length.
pub proof fn lemma_min_gap_bounds(cells: RoadCells, o: RectangleOccupier, di: int)
    requires
        1 <= di,
    ensures
        0 <= min_front_gap_upto(cells, o, di) <= cells.road_length(),
    decreases di,
{
    cells.lemma_col_gap_from_bounds(
        o.left_spec() + di - 1,
        (o.front as int) % cells.road_length(),
        1,
        cells.road_length(),
    );
    if di > 1 {
        lemma_min_gap_bounds(cells, o, di - 1);
    }
}

/// The rectangle occupied by the agent `v` of a configuration.
pub open spec fn config_rect(bikes: Seq<Bike>, cars: Seq<Car>, v: Vehicle) -> RectangleOccupier {
    match v {
        Vehicle::Bike(i) => bikes[i as int].occupation,
        Vehicle::Car(j) => car_rect(cars[j as int]),
    }
}

/// Whether a vehicle handle points into a configuration.
pub open spec fn config_valid(bikes: Seq<Bike>, cars: Seq<Car>, v: Vehicle) -> bool {
    match v {
        Vehicle::Bike(i) => i < bikes.len(),
        Vehicle::Car(j) => j < cars.len(),
    }
}

/// Every agent's rectangle is a valid resting placement.
pub open spec fn config_placed(bikes: Seq<Bike>, cars: Seq<Car>, w: int, l: int) -> bool {
    forall|v: Vehicle| config_valid(bikes, cars, v) ==> (#[trigger] config_rect(
        bikes,
        cars,
        v,
    )).placed(w, l)
}

/// No two distinct agents cover a common cell.
pub open spec fn config_disjoint(bikes: Seq<Bike>, cars: Seq<Car>, l: int) -> bool {
    forall|v1: Vehicle, v2: Vehicle, lat: int, long: int|
        config_valid(bikes, cars, v1) && config_valid(bikes, cars, v2) && v1 != v2 ==> !((
        #[trigger] config_rect(bikes, cars, v1).covers(l, lat, long)) && (#[trigger] config_rect(
            bikes,
            cars,
            v2,
        ).covers(l, lat, long)))
}

/// The scheduler: owns the bikes, the cars and the occupancy index.
#[derive(Debug)]
pub struct Road {
    pub bikes: Vec<Bike>,
    pub cars: Vec<Car>,
    pub cells: RoadCells,
}

impl Road {
    /// Every cell a bike covers carries that bike's handle in the index.
    pub open spec fn index_covers_bikes(&self) -> bool {
        forall|i: int, lat: int, long: int|
            0 <= i < self.bikes@.len() && self.cells.in_range(lat, long)
                && (#[trigger] self.bikes@[i].occupation.covers(
                self.cells.road_length(),
                lat,
                long,
            )) ==> self.cells.occ(lat, long) == Some(Vehicle::Bike(i as usize))
    }

    /// Every cell a car covers carries that car's handle in the index.
    pub open spec fn index_covers_cars(&self) -> bool {
        forall|j: int, lat: int, long: int|
            0 <= j < self.cars@.len() && self.cells.in_range(lat, long) && (#[trigger] car_rect(
                self.cars@[j],
            ).covers(self.cells.road_length(), lat, long)) ==> self.cells.occ(lat, long) == Some(
                Vehicle::Car(j as usize),
            )
    }

    /// Every handle in the index points at an agent that covers the cell.
    pub open spec fn index_sound(&self) -> bool {
        forall|lat: int, long: int|
            self.cells.in_range(lat, long) ==> match #[trigger] self.cells.occ(lat, long) {
                Some(Vehicle::Bike(i)) => i < self.bikes@.len()
                    && self.bikes@[i as int].occupation.covers(
                    self.cells.road_length(),
                    lat,
                    long,
                ),
                Some(Vehicle::Car(j)) => j < self.cars@.len() && car_rect(
                    self.cars@[j as int],
                ).covers(self.cells.road_length(), lat, long),
                None => true,
            }
    }

    /// The index is exactly the union of the agents' cells.
    pub open spec fn index_exact(&self) -> bool {
        self.index_covers_bikes() && self.index_covers_cars() && self.index_sound()
    }

    /// The road invariant: dimensions in range, every agent well-formed and
    /// on the road, and the index exactly the union of the agents' cells.
    /// It holds when `new` returns and after every tick.
    pub open spec fn wf(&self) -> bool {
        &&& self.cells.wf()
        &&& self.bikes@.len() + self.cars@.len() <= self.cells.grid@.len()
        &&& forall|i: int| 0 <= i < self.bikes@.len() ==> bike_wf(
            #[trigger] self.bikes@[i],
            self.cells.road_width(),
            self.cells.road_length(),
        )
        &&& forall|j: int| 0 <= j < self.cars@.len() ==> car_wf(
            #[trigger] self.cars@[j],
            self.cells.road_width(),
            self.cells.road_length(),
        )
        &&& self.index_exact()
    }

    /// The rectangle agent `v` occupies, for a handle that is in range.
    pub open spec fn agent_rect(&self, v: Vehicle) -> RectangleOccupier {
        match v {
            Vehicle::Bike(i) => self.bikes@[i as int].occupation,
            Vehicle::Car(j) => car_rect(self.cars@[j as int]),
        }
    }

    /// Whether a vehicle handle points at an existing agent.
    pub open spec fn valid_vehicle(&self, v: Vehicle) -> bool {
        match v {
            Vehicle::Bike(i) => i < self.bikes@.len(),
            Vehicle::Car(j) => j < self.cars@.len(),
        }
    }

    pub fn self_total_width(&self) -> (r: isize)
        requires
            self.wf(),
        ensures
            r == self.cells.road_width(),
    {
        self.total_width()
    }

    pub fn total_width(&self) -> (r: isize)
        requires
            self.wf(),
        ensures
            r == self.cells.road_width(),
    {
        (self.cells.mlw + self.cells.blw) as isize
    }

    pub fn cells(&self) -> (r: &RoadCells)
        requires
            self.wf(),
        ensures
            *r == self.cells,
    {
        &self.cells
    }

    pub fn get_car(&self, car_id: usize) -> (r: &Car)
        requires
            self.wf(),
            car_id < self.cars@.len(),
        ensures
            *r == self.cars@[car_id as int],
    {
        &self.cars[car_id]
    }

    pub fn get_bike(&self, bike_id: usize) -> (r: &Bike)
        requires
            self.wf(),
            bike_id < self.bikes@.len(),
        ensures
            *r == self.bikes@[bike_id as int],
    {
        &self.bikes[bike_id]
    }

    pub fn bike_count(&self) -> (r: usize)
        ensures
            r == self.bikes@.len(),
    {
        self.bikes.len()
    }

    pub fn car_count(&self) -> (r: usize)
        ensures
            r == self.cars@.len(),
    {
        self.cars.len()
    }

    /// Whether the occupier's lats all lie on the road.  Longs always wrap,
    /// so only the lateral extent can leave the grid.
    pub fn road_contains_occupier(&self, occupier: &RectangleOccupier) -> (r: bool)
        requires
            self.wf(),
        ensures
            r == occupier.on_lats(self.cells.road_width()),
    {
        let left: i128 = occupier.right as i128 - occupier.width as i128 + 1;
        0 <= left && (occupier.right as i128) < (self.cells.mlw + self.cells.blw) as i128
    }

    /// Whether the occupier overlaps the motor lane (some lat below the
    /// motor-lane width; with a positive width that is its left edge).
    pub fn motor_lane_contains_occupier(&self, occupier: &RectangleOccupier) -> (r: bool)
        requires
            self.wf(),
        ensures
            r == (occupier.left_spec() < self.cells.mlw),
    {
        let left: i128 = occupier.right as i128 - occupier.width as i128 + 1;
        left < self.cells.mlw as i128
    }

    /// Every occupant found on a cell the occupier covers.
    pub fn collisions_for(&self, occupier: &RectangleOccupier) -> (r: Vec<Vehicle>)
        requires
            self.wf(),
            occupier.on_lats(self.cells.road_width()),
            0 < occupier.width,
            0 < occupier.length <= self.cells.road_length(),
        ensures
            forall|v: Vehicle| r@.contains(v) <==> exists|lat: int, long: int|
                self.cells.in_range(lat, long) && #[trigger] occupier.covers(
                    self.cells.road_length(),
                    lat,
                    long,
                ) && self.cells.occ(lat, long) == Some(v),
    {
        self.cells.occupants_of(occupier)
    }

    /// Whether placing `vehicle` on the occupier's cells would overlap some
    /// other agent (the vehicle's own cells do not count).
    pub fn is_collision_for(&self, occupier: &RectangleOccupier, vehicle: Vehicle) -> (r: bool)
        requires
            self.wf(),
            occupier.on_lats(self.cells.road_width()),
            0 < occupier.width,
            0 < occupier.length <= self.cells.road_length(),
        ensures
            r == self.cells.conflict(*occupier, Some(vehicle)),
    {
        self.cells.scan_conflict(occupier, Some(vehicle))
    }

    /// The first car strictly behind the coordinate in its lat column,
    /// scanning backward up to `maybe_max` cells; bikes do not stop the
    /// scan.
    pub fn first_car_back(&self, coord: &Coord, maybe_max: Option<usize>) -> (r: Option<&Car>)
        requires
            self.wf(),
            0 <= coord.lat < self.cells.road_width(),
        ensures
            match r {
                Some(c) => {
                    &&& self.cells.car_back(
                        coord.lat as int,
                        coord.long as int,
                        search_limit(maybe_max, self.cells.l),
                    ) matches Some(id) && id < self.cars@.len() && *c == self.cars@[id as int]
                },
                None => self.cells.car_back(
                    coord.lat as int,
                    coord.long as int,
                    search_limit(maybe_max, self.cells.l),
                ) is None,
            },
    {
        match self.cells.first_car_back(coord, maybe_max) {
            Some(car_id) => {
                proof {
                    self.lemma_car_back_valid(
                        coord.lat as int,
                        coord.long as int,
                        search_limit(maybe_max, self.cells.l),
                    );
                }
                Some(self.get_car(car_id))
            },
            None => None,
        }
    }

    /// A found car handle points at a real car.
    proof fn lemma_car_back_valid(&self, lat: int, long: int, max: int)
        requires
            self.wf(),
            0 <= lat < self.cells.road_width(),
        ensures
            match self.cells.car_back(lat, long, max) {
                Some(id) => id < self.cars@.len(),
                None => true,
            },
    {
        self.lemma_car_back_valid_from(lat, (long % self.cells.road_length()), 1, max);
    }

    proof fn lemma_car_back_valid_from(&self, lat: int, long0: int, d: int, max: int)
        requires
            self.wf(),
            0 <= lat < self.cells.road_width(),
        ensures
            match self.cells.car_back_from(lat, long0, d, max) {
                Some(id) => id < self.cars@.len(),
                None => true,
            },
        decreases max - d,
    {
        if d >= max {
        } else {
            let here = self.cells.occ(lat, (long0 - d) % self.cells.road_length());
            vstd::arithmetic::div_mod::lemma_mod_division_less_than_divisor(
                long0 - d,
                self.cells.road_length(),
            );
            match here {
                Some(Vehicle::Car(id)) => {},
                _ => {
                    self.lemma_car_back_valid_from(lat, long0, d + 1, max);
                },
            }
        }
    }

    /// Whether a trailing motor-lane car could reach this cell next tick:
    /// there is a car behind in the column whose potential next speed
    /// strictly exceeds its longitudinal distance `car.front - coord.long`.
    pub open spec fn blocked_at(&self, lat: int, long: int, max: int) -> bool {
        match self.cells.car_back(lat, long, max) {
            Some(id) => id < self.cars@.len() && potential_speed(self.cars@[id as int])
                > self.cars@[id as int].front - long,
            None => false,
        }
    }

    pub fn is_blocking(&self, coord: &Coord, maybe_max: Option<usize>) -> (r: bool)
        requires
            self.wf(),
            0 <= coord.lat < self.cells.road_width(),
        ensures
            r == self.blocked_at(
                coord.lat as int,
                coord.long as int,
                search_limit(maybe_max, self.cells.l),
            ),
    {
        match self.first_car_back(coord, maybe_max) {
            Some(car) => {
                let potential = car.next_iteration_potential_speed();
                (potential as i128) > (car.front as i128 - coord.long as i128)
            },
            None => false,
        }
    }

    /// The road-level front gap of an occupier: the least column gap over
    /// its front-edge cells, scanning up to the full ring; absent only for
    /// a degenerate occupier without width.
    pub fn front_gap(&self, occupation: &RectangleOccupier) -> (r: Option<usize>)
        requires
            self.wf(),
            0 < occupation.width ==> occupation.on_lats(self.cells.road_width()),
        ensures
            match r {
                Some(g) => 0 < occupation.width && g == min_front_gap_upto(
                    self.cells,
                    *occupation,
                    occupation.width as int,
                ),
                None => occupation.width == 0,
            },
    {
        if occupation.width == 0 {
            return None;
        }
        let left: usize = ((occupation.right + 1) - occupation.width as isize) as usize;
        let mut best: usize = self.cells.front_gap(
            &Coord { lat: left as isize, long: occupation.front },
            None,
        );
        let mut di: usize = 1;
        while di < occupation.width
            invariant
                self.wf(),
                occupation.on_lats(self.cells.road_width()),
                0 < occupation.width,
                left == occupation.left_spec(),
                1 <= di <= occupation.width,
                best == min_front_gap_upto(self.cells, *occupation, di as int),
            decreases occupation.width - di,
        {
            let lat = (left + di) as isize;
            let g = self.cells.front_gap(&Coord { lat, long: occupation.front }, None);
            if g < best {
                best = g;
            }
            di = di + 1;
        }
        Some(best)
    }

    /// The smallest occupied lat at this long slice, or the road width.
    pub fn route_width(&self, long: isize) -> (r: usize)
        requires
            self.wf(),
        ensures
            r == self.cells.route_width_from((long as int) % self.cells.road_length(), 0),
    {
        self.cells.route_width(long)
    }
}

/// Whether agent `i` appears among the first `upto` entries of the
/// acceptance order.
pub open spec fn processed(order: Seq<usize>, upto: int, i: int) -> bool {
    exists|idx: int| 0 <= idx < upto && order[idx] == i
}

impl Road {
    /// With no cars on the road, no cell is ever blocked.
    proof fn lemma_no_cars_not_blocked(&self, lat: int, long: int, max: int)
        requires
            self.wf(),
            self.cars@.len() == 0,
            0 <= lat < self.cells.road_width(),
        ensures
            !self.blocked_at(lat, long, max),
    {
        self.lemma_car_back_none(lat, long % self.cells.road_length(), 1, max);
    }

    proof fn lemma_car_back_none(&self, lat: int, long0: int, d: int, max: int)
        requires
            self.wf(),
            self.cars@.len() == 0,
            0 <= lat < self.cells.road_width(),
        ensures
            self.cells.car_back_from(lat, long0, d, max) is None,
        decreases max - d,
    {
        if d < max {
            vstd::arithmetic::div_mod::lemma_mod_division_less_than_divisor(
                long0 - d,
                self.cells.road_length(),
            );
            self.lemma_car_back_none(lat, long0, d + 1, max);
        }
    }

    /// With a single bike and no cars, the safety-filtered candidate set is
    /// exactly the band of on-road right edges: nothing collides and
    /// nothing blocks.
    proof fn lemma_single_bike_members(&self)
        requires
            self.wf(),
            self.bikes@.len() == 1,
            self.cars@.len() == 0,
        ensures
            forall|c: RectangleOccupier| #[trigger] ypp_member(
                *self,
                self.bikes@[0],
                0usize,
                c,
            ) <==> {
                let o = self.bikes@[0].occupation;
                &&& c.front == o.front
                &&& c.width == o.width
                &&& c.length == o.length
                &&& in_band(self.bikes@[0], c.right as int)
                &&& c.on_lats(self.cells.road_width())
            },
    {
        let b = self.bikes@[0];
        let o = b.occupation;
        assert forall|p: int| !self.cells.conflict(
            with_right(o, p),
            Some(Vehicle::Bike(0usize)),
        ) by {
            if self.cells.conflict(with_right(o, p), Some(Vehicle::Bike(0usize))) {
                let (lat, long) = choose|lat: int, long: int|
                    self.cells.in_range(lat, long) && #[trigger] with_right(o, p).covers(
                        self.cells.road_length(),
                        lat,
                        long,
                    ) && self.cells.occ(lat, long).is_some() && self.cells.occ(lat, long) != Some(
                        Vehicle::Bike(0usize),
                    );
                assert(self.cells.in_range(lat, long));
                match self.cells.occ(lat, long) {
                    Some(Vehicle::Bike(i)) => {
                        assert(i < 1);
                        assert(false);
                    },
                    Some(Vehicle::Car(j)) => {
                        assert(j < 0);
                        assert(false);
                    },
                    None => {
                        assert(false);
                    },
                }
            }
        }
        assert forall|lat: int, long: int| 0 <= lat < self.cells.road_width() implies !(
        #[trigger] self.blocked_at(lat, long, self.cells.road_length())) by {
            self.lemma_no_cars_not_blocked(lat, long, self.cells.road_length());
        }
        assert(lateral_filter_mode(*self, o) != YPrimePrimeFilter::MotorLaneBlocking) by {
            if o.left_spec() < self.cells.mlw {
                self.lemma_no_cars_not_blocked(
                    o.left_spec(),
                    o.back_spec(),
                    self.cells.road_length(),
                );
            }
        }
        assert forall|c: RectangleOccupier| #[trigger] ypp_member(*self, b, 0usize, c) <==> {
            &&& c.front == o.front
            &&& c.width == o.width
            &&& c.length == o.length
            &&& in_band(b, c.right as int)
            &&& c.on_lats(self.cells.road_width())
        } by {
            let shape_ok = c.front == o.front && c.width == o.width && c.length == o.length;
            if shape_ok {
                assert(with_right(o, c.right as int) == c);
            }
            if ypp_member(*self, b, 0usize, c) {
                assert(shape_ok && in_band(b, c.right as int) && lat_feasible(
                    *self,
                    b,
                    0usize,
                    c.right as int,
                ));
            }
            if shape_ok && in_band(b, c.right as int) && c.on_lats(self.cells.road_width()) {
                assert(lat_feasible(*self, b, 0usize, c.right as int));
                match lateral_filter_mode(*self, o) {
                    YPrimePrimeFilter::MotorLaneBlocking => {
                        assert(false);
                    },
                    _ => {
                        if c.left_spec() < o.right {
                            assert(0 <= c.left_spec() < self.cells.road_width());
                            self.lemma_no_cars_not_blocked(
                                c.left_spec(),
                                c.back_spec(),
                                self.cells.road_length(),
                            );
                        }
                        assert(crate::bike::keep_candidate(*self, o.right as int, c));
                    },
                }
            }
        }
    }
}

impl Road {
    /// The bike lateral phase: every bike proposes a lateral move against
    /// the frozen index; the proposals are then applied in a shuffled
    /// order, each checked against the index as rebuilt so far, a bike
    /// keeping its old place when its proposal now conflicts.
    pub fn bikes_lateral_update(&mut self)
        requires
            old(self).wf(),
        ensures
            final(self).wf(),
            final(self).cars@ == old(self).cars@,
            final(self).cells.l == old(self).cells.l,
            final(self).cells.mlw == old(self).cells.mlw,
            final(self).cells.blw == old(self).cells.blw,
            final(self).bikes@.len() == old(self).bikes@.len(),
            forall|i: int| 0 <= i < old(self).bikes@.len() ==> {
                let ob = old(self).bikes@[i];
                let nb = #[trigger] final(self).bikes@[i];
                &&& nb.forward_speed_max == ob.forward_speed_max
                &&& nb.forward_speed == ob.forward_speed
                &&& nb.forward_acceleration == ob.forward_acceleration
                &&& nb.rightward_speed_max == ob.rightward_speed_max
                &&& nb.lateral_ignorance == ob.lateral_ignorance
                &&& nb.deceleration_prob == ob.deceleration_prob
                &&& nb.y_star_selection_strategy == ob.y_star_selection_strategy
                &&& nb.occupation.front == ob.occupation.front
                &&& nb.occupation.width == ob.occupation.width
                &&& nb.occupation.length == ob.occupation.length
            },
            forall|i: int| 0 <= i < old(self).bikes@.len()
                ==> (#[trigger] final(self).bikes@[i]).occupation == old(self).bikes@[i].occupation || ypp_member(
                *old(self),
                old(self).bikes@[i],
                i as usize,
                final(self).bikes@[i].occupation,
            ),
            forall|i: int| 0 <= i < old(self).bikes@.len() && old(self).bikes@[i].lateral_ignorance >= PROB_ONE ==> (#[trigger] final(self).bikes@[i]).occupation == old(self).bikes@[i].occupation,
            old(self).bikes@.len() == 0 ==> *final(self) == *old(self),
            (old(self).bikes@.len() == 1 && old(self).cars@.len() == 0 && old(self).bikes@[0].lateral_ignorance == 0 && old(self).bikes@[0].y_star_selection_strategy
                == YStarSelectionStrategy::Rightmost) ==> final(self).bikes@[0].occupation
                == with_right(
                old(self).bikes@[0].occupation,
                ({
                    let o = old(self).bikes@[0].occupation;
                    let reach = o.right + old(self).bikes@[0].rightward_speed_max;
                    let edge = old(self).cells.road_width() - 1;
                    if reach < edge {
                        reach
                    } else {
                        edge
                    }
                }),
            ),
    {
        let ghost pre = *self;
        let b = self.bikes.len();
        if b == 0 {
            return;
        }
        let ghost single_det = b == 1 && pre.cars@.len() == 0 && pre.bikes@[0].lateral_ignorance
            == 0 && pre.bikes@[0].y_star_selection_strategy == YStarSelectionStrategy::Rightmost;
        let ghost target = {
            let o = pre.bikes@[0].occupation;
            let reach = o.right + pre.bikes@[0].rightward_speed_max;
            let edge = pre.cells.road_width() - 1;
            if reach < edge {
                reach
            } else {
                edge
            }
        };
        let mut proposals: Vec<Bike> = Vec::new();
        let mut i: usize = 0;
        while i < b
            invariant
                *self == pre,
                pre.wf(),
                b == pre.bikes@.len(),
                single_det == (b == 1 && pre.cars@.len() == 0 && pre.bikes@[0].lateral_ignorance
                    == 0 && pre.bikes@[0].y_star_selection_strategy
                    == YStarSelectionStrategy::Rightmost),
                target == ({
                    let o = pre.bikes@[0].occupation;
                    let reach = o.right + pre.bikes@[0].rightward_speed_max;
                    let edge = pre.cells.road_width() - 1;
                    if reach < edge {
                        reach
                    } else {
                        edge
                    }
                }),
                i <= b,
                proposals@.len() == i,
                forall|k: int| 0 <= k < i ==> {
                    let ob = pre.bikes@[k];
                    let p = #[trigger] proposals@[k];
                    &&& p.forward_speed_max == ob.forward_speed_max
                    &&& p.forward_speed == ob.forward_speed
                    &&& p.forward_acceleration == ob.forward_acceleration
                    &&& p.rightward_speed_max == ob.rightward_speed_max
                    &&& p.lateral_ignorance == ob.lateral_ignorance
                    &&& p.deceleration_prob == ob.deceleration_prob
                    &&& p.y_star_selection_strategy == ob.y_star_selection_strategy
                    &&& p.occupation.front == ob.occupation.front
                    &&& p.occupation.width == ob.occupation.width
                    &&& p.occupation.length == ob.occupation.length
                    &&& (p.occupation == ob.occupation || ypp_member(
                        pre,
                        ob,
                        k as usize,
                        p.occupation,
                    ))
                    &&& (ob.lateral_ignorance >= PROB_ONE ==> p.occupation == ob.occupation)
                },
                single_det && i == 1 ==> proposals@[0].occupation == with_right(
                    pre.bikes@[0].occupation,
                    target,
                ),
            decreases b - i,
        {
            let bike = self.bikes[i];
            let prop = bike.lateral_update(i, self);
            proof {
                if single_det {
                    assert(i == 0);
                    pre.lemma_single_bike_members();
                    let o = pre.bikes@[0].occupation;
                    let ob = pre.bikes@[0];
                    let star = with_right(o, target);
                    assert(ypp_member(pre, ob, 0usize, star)) by {
                        assert(star.front == o.front && star.width == o.width && star.length
                            == o.length);
                        assert(o.right <= target);
                        assert(in_band(ob, target));
                        assert(star.on_lats(pre.cells.road_width()));
                    }
                    assert(ypp_member(pre, ob, 0usize, prop.occupation));
                    assert(star.right as int <= prop.occupation.right as int);
                    assert(prop.occupation.right <= target) by {
                        assert(prop.occupation.on_lats(pre.cells.road_width()));
                        assert(in_band(ob, prop.occupation.right as int));
                    }
                    assert(prop.occupation == star);
                }
            }
            proposals.push(prop);
            i = i + 1;
        }
        let mut order: Vec<usize> = Vec::new();
        let mut k: usize = 0;
        while k < b
            invariant
                k <= b,
                order@.len() == k,
                forall|idx: int| 0 <= idx < k ==> order@[idx] == idx,
            decreases b - k,
        {
            order.push(k);
            k = k + 1;
        }
        let ghost order0 = order@;
        shuffle_ids(&mut order);
        proof {
            assert(order0.no_duplicates());
            order0.lemma_multiset_has_no_duplicates();
            order0.to_multiset_ensures();
            order@.to_multiset_ensures();
            assert forall|x: usize| order@.contains(x) implies order@.to_multiset().count(x)
                == 1 by {
                assert(order@.to_multiset().count(x) > 0);
                assert(order0.to_multiset().count(x) > 0);
                assert(order0.contains(x));
            }
            order@.lemma_multiset_has_no_duplicates_conv();
            assert(order@.len() == b) by {
                assert(order@.to_multiset().len() == order0.to_multiset().len());
            }
            assert forall|idx: int| 0 <= idx < order@.len() implies (#[trigger] order@[idx])
                < b by {
                assert(order@.contains(order@[idx]));
                assert(order0.contains(order@[idx]));
            }
            assert forall|x: int| 0 <= x < b implies order@.contains(#[trigger] (x as usize)) by {
                assert(order0[x] == x as usize);
                assert(order0.contains(x as usize));
                assert(order0.to_multiset().count(x as usize) > 0);
            }
        }
        let ghost sorder = order@;
        // wipe every bike's current cells
        let mut k2: usize = 0;
        while k2 < b
            invariant
                pre.wf(),
                b == pre.bikes@.len(),
                self.bikes@ == pre.bikes@,
                self.cars@ == pre.cars@,
                self.cells.wf(),
                self.cells.l == pre.cells.l,
                self.cells.mlw == pre.cells.mlw,
                self.cells.blw == pre.cells.blw,
                k2 <= b,
                forall|lat: int, long: int| pre.cells.in_range(lat, long)
                    ==> #[trigger] self.cells.occ(lat, long) == (if exists|ii: int|
                    0 <= ii < k2 && (#[trigger] pre.bikes@[ii].occupation.covers(
                        pre.cells.road_length(),
                        lat,
                        long,
                    )) {
                    None
                } else {
                    pre.cells.occ(lat, long)
                }),
            decreases b - k2,
        {
            let rect = self.bikes[k2].occupation;
            let ghost mid = self.cells;
            self.cells.set_rect(&rect, None);
            proof {
                assert forall|lat: int, long: int| pre.cells.in_range(lat, long)
                    implies #[trigger] self.cells.occ(lat, long) == (if exists|ii: int|
                    0 <= ii < k2 + 1 && (#[trigger] pre.bikes@[ii].occupation.covers(
                        pre.cells.road_length(),
                        lat,
                        long,
                    )) {
                    None
                } else {
                    pre.cells.occ(lat, long)
                }) by {
                    if rect.covers(pre.cells.road_length(), lat, long) {
                        assert(pre.bikes@[k2 as int].occupation.covers(
                            pre.cells.road_length(),
                            lat,
                            long,
                        ));
                    } else {
                        assert(self.cells.occ(lat, long) == mid.occ(lat, long));
                        if exists|ii: int|
                            0 <= ii < k2 + 1 && (#[trigger] pre.bikes@[ii].occupation.covers(
                                pre.cells.road_length(),
                                lat,
                                long,
                            )) {
                            let ii = choose|ii: int|
                                0 <= ii < k2 + 1 && (#[trigger] pre.bikes@[ii].occupation.covers(
                                    pre.cells.road_length(),
                                    lat,
                                    long,
                                ));
                            assert(ii < k2);
                        }
                    }
                }
            }
            k2 = k2 + 1;
        }
        proof {
            // after the wipe: cars keep their cells, nothing else is left
            assert forall|j: int, lat: int, long: int|
                0 <= j < pre.cars@.len() && pre.cells.in_range(lat, long) && (#[trigger] car_rect(
                    pre.cars@[j],
                ).covers(pre.cells.road_length(), lat, long)) implies self.cells.occ(lat, long)
                == Some(Vehicle::Car(j as usize)) by {
                assert(pre.cells.occ(lat, long) == Some(Vehicle::Car(j as usize)));
                if exists|ii: int|
                    0 <= ii < b && (#[trigger] pre.bikes@[ii].occupation.covers(
                        pre.cells.road_length(),
                        lat,
                        long,
                    )) {
                    let ii = choose|ii: int|
                        0 <= ii < b && (#[trigger] pre.bikes@[ii].occupation.covers(
                            pre.cells.road_length(),
                            lat,
                            long,
                        ));
                    assert(pre.cells.occ(lat, long) == Some(Vehicle::Bike(ii as usize)));
                    assert(false);
                }
            }
            assert forall|lat: int, long: int| pre.cells.in_range(lat, long) implies match
                #[trigger] self.cells.occ(lat, long) {
                Some(Vehicle::Car(j)) => j < pre.cars@.len() && car_rect(
                    pre.cars@[j as int],
                ).covers(pre.cells.road_length(), lat, long),
                Some(Vehicle::Bike(_)) => false,
                None => true,
            } by {
                match self.cells.occ(lat, long) {
                    Some(v) => {
                        assert(self.cells.occ(lat, long) == pre.cells.occ(lat, long));
                        match v {
                            Vehicle::Bike(ii) => {
                                assert(pre.bikes@[ii as int].occupation.covers(
                                    pre.cells.road_length(),
                                    lat,
                                    long,
                                ));
                                assert(false);
                            },
                            Vehicle::Car(_) => {},
                        }
                    },
                    None => {},
                }
            }
        }
        // accept proposals in the shuffled order
        let mut k3: usize = 0;
        while k3 < b
            invariant
                pre.wf(),
                b == pre.bikes@.len(),
                self.cars@ == pre.cars@,
                self.bikes@.len() == b,
                self.cells.wf(),
                self.cells.l == pre.cells.l,
                self.cells.mlw == pre.cells.mlw,
                self.cells.blw == pre.cells.blw,
                k3 <= b,
                order@ == sorder,
                order@.len() == b,
                order@.no_duplicates(),
                forall|idx: int| 0 <= idx < b ==> (#[trigger] order@[idx]) < b,
                forall|x: int| 0 <= x < b ==> order@.contains(#[trigger] (x as usize)),
                proposals@.len() == b,
                forall|kk: int| 0 <= kk < b ==> {
                    let ob = pre.bikes@[kk];
                    let p = #[trigger] proposals@[kk];
                    &&& p.forward_speed_max == ob.forward_speed_max
                    &&& p.forward_speed == ob.forward_speed
                    &&& p.forward_acceleration == ob.forward_acceleration
                    &&& p.rightward_speed_max == ob.rightward_speed_max
                    &&& p.lateral_ignorance == ob.lateral_ignorance
                    &&& p.deceleration_prob == ob.deceleration_prob
                    &&& p.y_star_selection_strategy == ob.y_star_selection_strategy
                    &&& p.occupation.front == ob.occupation.front
                    &&& p.occupation.width == ob.occupation.width
                    &&& p.occupation.length == ob.occupation.length
                    &&& (p.occupation == ob.occupation || ypp_member(
                        pre,
                        ob,
                        kk as usize,
                        p.occupation,
                    ))
                    &&& (ob.lateral_ignorance >= PROB_ONE ==> p.occupation == ob.occupation)
                },
                single_det ==> proposals@[0].occupation == with_right(
                    pre.bikes@[0].occupation,
                    target,
                ),
                single_det == (b == 1 && pre.cars@.len() == 0 && pre.bikes@[0].lateral_ignorance
                    == 0 && pre.bikes@[0].y_star_selection_strategy
                    == YStarSelectionStrategy::Rightmost),
                single_det && processed(order@, k3 as int, 0) ==> self.bikes@[0]
                    == proposals@[0],
                forall|ii: int| 0 <= ii < b && !processed(order@, k3 as int, ii)
                    ==> #[trigger] self.bikes@[ii] == pre.bikes@[ii],
                forall|ii: int| 0 <= ii < b && processed(order@, k3 as int, ii)
                    ==> #[trigger] self.bikes@[ii] == proposals@[ii] || self.bikes@[ii]
                    == pre.bikes@[ii],
                forall|ii: int, lat: int, long: int|
                    0 <= ii < b && processed(order@, k3 as int, ii) && pre.cells.in_range(
                        lat,
                        long,
                    ) && (#[trigger] self.bikes@[ii].occupation.covers(
                        pre.cells.road_length(),
                        lat,
                        long,
                    )) ==> self.cells.occ(lat, long) == Some(Vehicle::Bike(ii as usize)),
                forall|j: int, lat: int, long: int|
                    0 <= j < pre.cars@.len() && pre.cells.in_range(lat, long) && (
                    #[trigger] car_rect(pre.cars@[j]).covers(pre.cells.road_length(), lat, long))
                        ==> self.cells.occ(lat, long) == Some(Vehicle::Car(j as usize)),
                forall|lat: int, long: int| pre.cells.in_range(lat, long) ==> match
                    #[trigger] self.cells.occ(lat, long) {
                    Some(Vehicle::Car(j)) => j < pre.cars@.len() && car_rect(
                        pre.cars@[j as int],
                    ).covers(pre.cells.road_length(), lat, long),
                    Some(Vehicle::Bike(ii)) => ii < b && processed(order@, k3 as int, ii as int)
                        && self.bikes@[ii as int].occupation.covers(
                        pre.cells.road_length(),
                        lat,
                        long,
                    ),
                    None => true,
                },
            decreases b - k3,
        {
            let id = order[k3];
            proof {
                assert(order@[k3 as int] < b);
                if processed(order@, k3 as int, id as int) {
                    let idx = choose|idx: int| 0 <= idx < k3 && order@[idx] == id;
                    assert(order@[idx] == order@[k3 as int]);
                    assert(false);
                }
            }
            let prop = proposals[id];
            let rect = prop.occupation;
            proof {
                if prop.occupation != pre.bikes@[id as int].occupation {
                    assert(ypp_member(pre, pre.bikes@[id as int], id, prop.occupation));
                    assert(with_right(pre.bikes@[id as int].occupation, rect.right as int)
                        == rect);
                }
                assert(rect.on_lats(pre.cells.road_width()));
                assert(0 < rect.width && 0 < rect.length <= pre.cells.road_length());
            }
            let free = !self.cells.scan_conflict(&rect, None);
            proof {
                if single_det {
                    assert(id == 0);
                    assert(k3 == 0);
                    if !free {
                        let (lat, long) = choose|lat: int, long: int|
                            self.cells.in_range(lat, long) && #[trigger] rect.covers(
                                self.cells.road_length(),
                                lat,
                                long,
                            ) && self.cells.occ(lat, long).is_some() && self.cells.occ(lat, long)
                                != None::<Vehicle>;
                        match self.cells.occ(lat, long) {
                            Some(Vehicle::Car(j)) => {
                                assert(j < 0);
                                assert(false);
                            },
                            Some(Vehicle::Bike(ii)) => {
                                assert(processed(order@, 0, ii as int));
                                assert(false);
                            },
                            None => {
                                assert(false);
                            },
                        }
                    }
                }
            }
            let ghost mid_cells = self.cells;
            let ghost mid_bikes = self.bikes@;
            let chosen: Bike;
            if free {
                chosen = prop;
            } else {
                chosen = self.bikes[id];
                proof {
                    // the bike's own pre-tick cells are still free: cars
                    // never held them, and every accepted bike either kept
                    // a place disjoint from them or moved to a proposal
                    // that was feasible against the pre-tick index
                    let orect = pre.bikes@[id as int].occupation;
                    assert forall|lat: int, long: int|
                        pre.cells.in_range(lat, long) && #[trigger] orect.covers(
                            pre.cells.road_length(),
                            lat,
                            long,
                        ) implies self.cells.occ(lat, long) == None::<Vehicle> by {
                        assert(pre.cells.occ(lat, long) == Some(Vehicle::Bike(id)));
                        match self.cells.occ(lat, long) {
                            Some(Vehicle::Car(j)) => {
                                assert(car_rect(pre.cars@[j as int]).covers(
                                    pre.cells.road_length(),
                                    lat,
                                    long,
                                ));
                                assert(pre.cells.occ(lat, long) == Some(Vehicle::Car(j)));
                                assert(false);
                            },
                            Some(Vehicle::Bike(ii)) => {
                                assert(processed(order@, k3 as int, ii as int));
                                assert(ii != id);
                                assert(self.bikes@[ii as int].occupation.covers(
                                    pre.cells.road_length(),
                                    lat,
                                    long,
                                ));
                                if self.bikes@[ii as int] == pre.bikes@[ii as int] {
                                    assert(pre.cells.occ(lat, long) == Some(
                                        Vehicle::Bike(ii),
                                    ));
                                    assert(false);
                                } else {
                                    assert(self.bikes@[ii as int] == proposals@[ii as int]);
                                    if proposals@[ii as int].occupation == pre.bikes@[ii as int].occupation {
                                        assert(pre.cells.occ(lat, long) == Some(
                                            Vehicle::Bike(ii),
                                        ));
                                        assert(false);
                                    } else {
                                        assert(ypp_member(
                                            pre,
                                            pre.bikes@[ii as int],
                                            ii,
                                            proposals@[ii as int].occupation,
                                        ));
                                        let p = proposals@[ii as int].occupation.right as int;
                                        assert(!pre.cells.conflict(
                                            with_right(pre.bikes@[ii as int].occupation, p),
                                            Some(Vehicle::Bike(ii)),
                                        ));
                                        assert(with_right(pre.bikes@[ii as int].occupation, p)
                                            == proposals@[ii as int].occupation);
                                        assert(false);
                                    }
                                }
                            },
                            None => {},
                        }
                    }
                    assert(!self.cells.conflict(orect, None::<Vehicle>)) by {
                        if self.cells.conflict(orect, None::<Vehicle>) {
                            let (lat, long) = choose|lat: int, long: int|
                                self.cells.in_range(lat, long) && #[trigger] orect.covers(
                                    self.cells.road_length(),
                                    lat,
                                    long,
                                ) && self.cells.occ(lat, long).is_some() && self.cells.occ(
                                    lat,
                                    long,
                                ) != None::<Vehicle>;
                            assert(self.cells.occ(lat, long) == None::<Vehicle>);
                        }
                    }
                }
            }
            let crect = chosen.rectangle_occupation();
            proof {
                assert(!mid_cells.conflict(crect, None::<Vehicle>));
                assert(crect.on_lats(pre.cells.road_width()));
                assert(0 < crect.width && 0 < crect.length <= pre.cells.road_length());
            }
            self.cells.set_rect(&crect, Some(Vehicle::Bike(id)));
            self.bikes[id] = chosen;
            proof {
                assert forall|ii: int| 0 <= ii < b && !processed(order@, k3 as int + 1, ii)
                    implies #[trigger] self.bikes@[ii] == pre.bikes@[ii] by {
                    assert(ii != id);
                    assert(!processed(order@, k3 as int, ii));
                }
                assert forall|ii: int, lat: int, long: int|
                    0 <= ii < b && processed(order@, k3 as int + 1, ii) && pre.cells.in_range(
                        lat,
                        long,
                    ) && (#[trigger] self.bikes@[ii].occupation.covers(
                        pre.cells.road_length(),
                        lat,
                        long,
                    )) implies self.cells.occ(lat, long) == Some(Vehicle::Bike(ii as usize)) by {
                    if ii == id {
                        assert(crect.covers(pre.cells.road_length(), lat, long));
                    } else {
                        assert(processed(order@, k3 as int, ii)) by {
                            let idx = choose|idx: int|
                                0 <= idx < k3 + 1 && order@[idx] == ii as usize;
                            assert(idx != k3);
                        }
                        assert(mid_bikes[ii] == self.bikes@[ii]);
                        assert(mid_cells.occ(lat, long) == Some(Vehicle::Bike(ii as usize)));
                        if crect.covers(pre.cells.road_length(), lat, long) {
                            assert(mid_cells.conflict(crect, None::<Vehicle>));
                            assert(false);
                        }
                    }
                }
                assert forall|j: int, lat: int, long: int|
                    0 <= j < pre.cars@.len() && pre.cells.in_range(lat, long) && (
                    #[trigger] car_rect(pre.cars@[j]).covers(pre.cells.road_length(), lat, long))
                        implies self.cells.occ(lat, long) == Some(Vehicle::Car(j as usize)) by {
                    assert(mid_cells.occ(lat, long) == Some(Vehicle::Car(j as usize)));
                    if crect.covers(pre.cells.road_length(), lat, long) {
                        assert(mid_cells.conflict(crect, None::<Vehicle>));
                        assert(false);
                    }
                }
                assert forall|lat: int, long: int| pre.cells.in_range(lat, long) implies match
                    #[trigger] self.cells.occ(lat, long) {
                    Some(Vehicle::Car(j)) => j < pre.cars@.len() && car_rect(
                        pre.cars@[j as int],
                    ).covers(pre.cells.road_length(), lat, long),
                    Some(Vehicle::Bike(ii)) => ii < b && processed(
                        order@,
                        k3 as int + 1,
                        ii as int,
                    ) && self.bikes@[ii as int].occupation.covers(
                        pre.cells.road_length(),
                        lat,
                        long,
                    ),
                    None => true,
                } by {
                    if crect.covers(pre.cells.road_length(), lat, long) {
                        assert(self.cells.occ(lat, long) == Some(Vehicle::Bike(id)));
                        assert(processed(order@, k3 as int + 1, id as int)) by {
                            assert(order@[k3 as int] == id);
                        }
                    } else {
                        assert(self.cells.occ(lat, long) == mid_cells.occ(lat, long));
                        match self.cells.occ(lat, long) {
                            Some(Vehicle::Bike(ii)) => {
                                assert(processed(order@, k3 as int, ii as int));
                                assert(ii != id);
                                assert(self.bikes@[ii as int] == mid_bikes[ii as int]);
                                assert(processed(order@, k3 as int + 1, ii as int)) by {
                                    let idx = choose|idx: int|
                                        0 <= idx < k3 && order@[idx] == ii as usize;
                                    assert(0 <= idx < k3 + 1 && order@[idx] == ii as usize);
                                }
                            },
                            _ => {},
                        }
                    }
                }
            }
            k3 = k3 + 1;
        }
        proof {
            assert forall|ii: int| 0 <= ii < b implies processed(order@, b as int, ii) by {
                assert(order@.contains(ii as usize));
                let idx = choose|idx: int| 0 <= idx < order@.len() && order@[idx] == ii as usize;
                assert(0 <= idx < b && order@[idx] == ii as usize);
            }
            assert(self.wf()) by {
                assert forall|ii: int| 0 <= ii < self.bikes@.len() implies bike_wf(
                    #[trigger] self.bikes@[ii],
                    self.cells.road_width(),
                    self.cells.road_length(),
                ) by {
                    if self.bikes@[ii] == pre.bikes@[ii] {
                    } else {
                        assert(self.bikes@[ii] == proposals@[ii]);
                        let p = proposals@[ii];
                        let ob = pre.bikes@[ii];
                        if p.occupation != ob.occupation {
                            assert(ypp_member(pre, ob, ii as usize, p.occupation));
                            assert(p.occupation.on_lats(pre.cells.road_width()));
                        }
                    }
                }
            }
        }
    }
}

/// Two well-formed roads with the same agents and dimensions have the same
/// grid: the index is determined by the configuration.
pub proof fn lemma_same_config_same_grid(r1: Road, r2: Road)
    requires
        r1.wf(),
        r2.wf(),
        r1.bikes@ == r2.bikes@,
        r1.cars@ == r2.cars@,
        r1.cells.l == r2.cells.l,
        r1.cells.mlw == r2.cells.mlw,
        r1.cells.blw == r2.cells.blw,
    ensures
        r1.cells.grid@ == r2.cells.grid@,
{
    let w = r1.cells.road_width();
    let l = r1.cells.road_length();
    assert forall|k: int| 0 <= k < r1.cells.grid@.len() implies r1.cells.grid@[k]
        == r2.cells.grid@[k] by {
        let lat = k % w;
        let long = k / w;
        vstd::arithmetic::div_mod::lemma_fundamental_div_mod(k, w);
        vstd::arithmetic::div_mod::lemma_mod_division_less_than_divisor(k, w);
        assert(0 <= long < l) by (nonlinear_arith)
            requires k == w * long + lat && 0 <= lat < w && 0 <= k < w * l && 0 < w && 0 < l;
        assert(k == long * w + lat) by (nonlinear_arith)
            requires k == w * long + lat;
        assert(r1.cells.occ(lat, long) == r1.cells.grid@[k]);
        assert(r2.cells.occ(lat, long) == r2.cells.grid@[k]);
        assert(r1.cells.in_range(lat, long));
        match r1.cells.occ(lat, long) {
            Some(Vehicle::Bike(i)) => {
                assert(r1.bikes@[i as int].occupation.covers(l, lat, long));
                assert(r2.cells.occ(lat, long) == Some(Vehicle::Bike(i)));
            },
            Some(Vehicle::Car(j)) => {
                assert(car_rect(r1.cars@[j as int]).covers(l, lat, long));
                assert(r2.cells.occ(lat, long) == Some(Vehicle::Car(j)));
            },
            None => {
                match r2.cells.occ(lat, long) {
                    Some(Vehicle::Bike(i)) => {
                        assert(r2.bikes@[i as int].occupation.covers(l, lat, long));
                        assert(r1.cells.occ(lat, long) == Some(Vehicle::Bike(i)));
                        assert(false);
                    },
                    Some(Vehicle::Car(j)) => {
                        assert(car_rect(r2.cars@[j as int]).covers(l, lat, long));
                        assert(r1.cells.occ(lat, long) == Some(Vehicle::Car(j)));
                        assert(false);
                    },
                    None => {},
                }
            },
        }
    }
    assert(r1.cells.grid@ =~= r2.cells.grid@);
}

impl Road {
    /// What each bike's forward step proposes against the current index.
    pub fn next_bikes_forward(&self) -> (r: Vec<Bike>)
        requires
            self.wf(),
        ensures
            r@.len() == self.bikes@.len(),
            forall|k: int| 0 <= k < r@.len() ==> {
                let ob = self.bikes@[k];
                let nb = #[trigger] r@[k];
                let base = crate::bike::forward_base_speed(*self, ob);
                &&& nb.occupation.right == ob.occupation.right
                &&& nb.occupation.width == ob.occupation.width
                &&& nb.occupation.length == ob.occupation.length
                &&& nb.forward_speed_max == ob.forward_speed_max
                &&& nb.forward_acceleration == ob.forward_acceleration
                &&& nb.rightward_speed_max == ob.rightward_speed_max
                &&& nb.lateral_ignorance == ob.lateral_ignorance
                &&& nb.deceleration_prob == ob.deceleration_prob
                &&& nb.y_star_selection_strategy == ob.y_star_selection_strategy
                &&& 0 <= nb.forward_speed <= nb.forward_speed_max
                &&& (nb.forward_speed == base || nb.forward_speed == crate::bike::decelerated(
                    base,
                ))
                &&& (ob.deceleration_prob == 0 ==> nb.forward_speed == base)
                &&& (ob.deceleration_prob >= PROB_ONE ==> nb.forward_speed
                    == crate::bike::decelerated(base))
                &&& nb.occupation.front == (ob.occupation.front + nb.forward_speed)
                    % self.cells.road_length()
            },
    {
        let b = self.bikes.len();
        let mut proposals: Vec<Bike> = Vec::new();
        let mut i: usize = 0;
        while i < b
            invariant
                self.wf(),
                b == self.bikes@.len(),
                i <= b,
                proposals@.len() == i,
                forall|k: int| 0 <= k < i ==> {
                    let ob = self.bikes@[k];
                    let nb = #[trigger] proposals@[k];
                    let base = crate::bike::forward_base_speed(*self, ob);
                    &&& nb.occupation.right == ob.occupation.right
                    &&& nb.occupation.width == ob.occupation.width
                    &&& nb.occupation.length == ob.occupation.length
                    &&& nb.forward_speed_max == ob.forward_speed_max
                    &&& nb.forward_acceleration == ob.forward_acceleration
                    &&& nb.rightward_speed_max == ob.rightward_speed_max
                    &&& nb.lateral_ignorance == ob.lateral_ignorance
                    &&& nb.deceleration_prob == ob.deceleration_prob
                    &&& nb.y_star_selection_strategy == ob.y_star_selection_strategy
                    &&& 0 <= nb.forward_speed <= nb.forward_speed_max
                    &&& (nb.forward_speed == base || nb.forward_speed
                        == crate::bike::decelerated(base))
                    &&& (ob.deceleration_prob == 0 ==> nb.forward_speed == base)
                    &&& (ob.deceleration_prob >= PROB_ONE ==> nb.forward_speed
                        == crate::bike::decelerated(base))
                    &&& nb.occupation.front == (ob.occupation.front + nb.forward_speed)
                        % self.cells.road_length()
                },
            decreases b - i,
        {
            let bike = self.bikes[i];
            let next = bike.forward_update(self);
            proposals.push(next);
            i = i + 1;
        }
        proposals
    }

    /// The bike forward phase: every bike advances against the post-lateral
    /// index, its speed bounded by the free gap ahead; the index is rebuilt
    /// and any collision aborts the tick leaving the road untouched.
    pub fn bikes_forward_update(&mut self) -> (r: Result<(), RoadError>)
        requires
            old(self).wf(),
        ensures
            final(self).wf(),
            final(self).cells.l == old(self).cells.l,
            final(self).cells.mlw == old(self).cells.mlw,
            final(self).cells.blw == old(self).cells.blw,
            final(self).cars@ == old(self).cars@,
            final(self).bikes@.len() == old(self).bikes@.len(),
            r.is_err() ==> *final(self) == *old(self),
            r.is_ok() ==> forall|i: int| 0 <= i < old(self).bikes@.len() ==> {
                let ob = old(self).bikes@[i];
                let nb = #[trigger] final(self).bikes@[i];
                let base = crate::bike::forward_base_speed(*old(self), ob);
                &&& nb.occupation.right == ob.occupation.right
                &&& nb.occupation.width == ob.occupation.width
                &&& nb.occupation.length == ob.occupation.length
                &&& nb.forward_speed_max == ob.forward_speed_max
                &&& nb.forward_acceleration == ob.forward_acceleration
                &&& nb.rightward_speed_max == ob.rightward_speed_max
                &&& nb.lateral_ignorance == ob.lateral_ignorance
                &&& nb.deceleration_prob == ob.deceleration_prob
                &&& nb.y_star_selection_strategy == ob.y_star_selection_strategy
                &&& 0 <= nb.forward_speed <= nb.forward_speed_max
                &&& (nb.forward_speed == base || nb.forward_speed == crate::bike::decelerated(
                    base,
                ))
                &&& (ob.deceleration_prob == 0 ==> nb.forward_speed == base)
                &&& (ob.deceleration_prob >= PROB_ONE ==> nb.forward_speed
                    == crate::bike::decelerated(base))
                &&& nb.occupation.front == (ob.occupation.front + nb.forward_speed) % old(self).cells.road_length()
            },
            old(self).bikes@.len() <= 1 && old(self).cars@.len() == 0 ==> r.is_ok(),
            old(self).bikes@.len() == 0 ==> r.is_ok(),
    {
        let ghost pre = *self;
        let b = self.bikes.len();
        let proposals = self.next_bikes_forward();
        match build_cells(self.cells.l, self.cells.mlw, self.cells.blw, &proposals, &self.cars) {
            Ok(new_cells) => {
                self.bikes = proposals;
                self.cells = new_cells;
                proof {
                    assert(self.wf()) by {
                        assert forall|ii: int| 0 <= ii < self.bikes@.len() implies bike_wf(
                            #[trigger] self.bikes@[ii],
                            self.cells.road_width(),
                            self.cells.road_length(),
                        ) by {
                            assert(self.bikes@[ii].occupation.placed(
                                self.cells.road_width(),
                                self.cells.road_length(),
                            ));
                        }
                    }
                }
                Ok(())
            },
            Err(e) => {
                proof {
                    let w = (self.cells.mlw + self.cells.blw) as int;
                    let li = self.cells.l as int;
                    if b == 0 {
                        assert(config_placed(proposals@, self.cars@, w, li)) by {
                            assert forall|v: Vehicle| config_valid(proposals@, self.cars@, v)
                                implies (#[trigger] config_rect(proposals@, self.cars@, v)).placed(
                                w,
                                li,
                            ) by {
                                match v {
                                    Vehicle::Bike(_) => {
                                        assert(false);
                                    },
                                    Vehicle::Car(jj) => {
                                        let oc = pre.cars@[jj as int];
                                        assert(car_wf(oc, w, li));
                                        crate::car::lemma_car_width_bound(oc, oc.speed as int);
                                        crate::car::lemma_car_width_positive(oc, oc.speed as int);
                                        assert(car_rect(oc).right == crate::car::car_width_at(
                                            oc,
                                            oc.speed as int,
                                        ) - 1);
                                    },
                                }
                            }
                        }
                        assert(config_disjoint(proposals@, self.cars@, li)) by {
                            assert forall|v1: Vehicle, v2: Vehicle, lat: int, long: int|
                                config_valid(proposals@, self.cars@, v1) && config_valid(
                                    proposals@,
                                    self.cars@,
                                    v2,
                                ) && v1 != v2 implies !((#[trigger] config_rect(
                                proposals@,
                                self.cars@,
                                v1,
                            ).covers(li, lat, long)) && (#[trigger] config_rect(
                                proposals@,
                                self.cars@,
                                v2,
                            ).covers(li, lat, long))) by {
                                if config_rect(proposals@, self.cars@, v1).covers(li, lat, long)
                                    && config_rect(proposals@, self.cars@, v2).covers(
                                    li,
                                    lat,
                                    long,
                                ) {
                                    match (v1, v2) {
                                        (Vehicle::Car(a), Vehicle::Car(d)) => {
                                            let ra = car_rect(pre.cars@[a as int]);
                                            assert(ra.placed(w, li)) by {
                                                let oc = pre.cars@[a as int];
                                                crate::car::lemma_car_width_bound(
                                                    oc,
                                                    oc.speed as int,
                                                );
                                                crate::car::lemma_car_width_positive(
                                                    oc,
                                                    oc.speed as int,
                                                );
                                                assert(ra.right == crate::car::car_width_at(
                                                    oc,
                                                    oc.speed as int,
                                                ) - 1);
                                            }
                                            assert(pre.cells.in_range(lat, long));
                                            assert(pre.cells.occ(lat, long) == Some(
                                                Vehicle::Car(a),
                                            ));
                                            assert(pre.cells.occ(lat, long) == Some(
                                                Vehicle::Car(d),
                                            ));
                                        },
                                        (Vehicle::Bike(_), _) => {
                                            assert(false);
                                        },
                                        (_, Vehicle::Bike(_)) => {
                                            assert(false);
                                        },
                                    }
                                }
                            }
                        }
                        assert(false);
                    }
                    if b <= 1 && pre.cars@.len() == 0 {
                        assert(config_placed(
                            proposals@,
                            self.cars@,
                            (self.cells.mlw + self.cells.blw) as int,
                            self.cells.l as int,
                        )) by {
                            assert forall|v: Vehicle| config_valid(proposals@, self.cars@, v)
                                implies (#[trigger] config_rect(proposals@, self.cars@, v)).placed(
                                (self.cells.mlw + self.cells.blw) as int,
                                self.cells.l as int,
                            ) by {
                                match v {
                                    Vehicle::Bike(ii) => {
                                        let nb = proposals@[ii as int];
                                        let ob = pre.bikes@[ii as int];
                                        assert(nb.occupation.front == (ob.occupation.front
                                            + nb.forward_speed) % pre.cells.road_length());
                                        vstd::arithmetic::div_mod::lemma_mod_division_less_than_divisor(
                                            ob.occupation.front + nb.forward_speed,
                                            pre.cells.road_length(),
                                        );
                                    },
                                    Vehicle::Car(_) => {
                                        assert(false);
                                    },
                                }
                            }
                        }
                        assert(config_disjoint(proposals@, self.cars@, self.cells.l as int)) by {
                            assert forall|v1: Vehicle, v2: Vehicle|
                                config_valid(proposals@, self.cars@, v1) && config_valid(
                                    proposals@,
                                    self.cars@,
                                    v2,
                                ) implies v1 == v2 by {
                                match (v1, v2) {
                                    (Vehicle::Bike(a), Vehicle::Bike(c)) => {
                                        assert(a < 1 && c < 1);
                                    },
                                    (Vehicle::Car(_), _) => {
                                        assert(false);
                                    },
                                    (_, Vehicle::Car(_)) => {
                                        assert(false);
                                    },
                                }
                            }
                        }
                        assert(false);
                    }
                }
                Err(e)
            },
        }
    }

    /// The car phase: every car picks its fastest safe speed against the
    /// post-bike index and advances; the index is rebuilt and any collision
    /// aborts the tick leaving the road untouched.
    pub fn cars_update(&mut self) -> (r: Result<(), RoadError>)
        requires
            old(self).wf(),
        ensures
            final(self).wf(),
            final(self).cells.l == old(self).cells.l,
            final(self).cells.mlw == old(self).cells.mlw,
            final(self).cells.blw == old(self).cells.blw,
            final(self).bikes@ == old(self).bikes@,
            final(self).cars@.len() == old(self).cars@.len(),
            r.is_err() ==> *final(self) == *old(self),
            r.is_ok() ==> forall|j: int| 0 <= j < old(self).cars@.len() ==> {
                let oc = old(self).cars@[j];
                let nc = #[trigger] final(self).cars@[j];
                let fss = crate::car::fastest_safe_spec(oc, old(self).cells, j as usize);
                let slowed: int = if fss >= 1 {
                    fss - 1
                } else {
                    0
                };
                &&& nc.length == oc.length
                &&& nc.const_width_hundredths == oc.const_width_hundredths
                &&& nc.alpha_hundredths == oc.alpha_hundredths
                &&& nc.slow_acceleration == oc.slow_acceleration
                &&& nc.fast_acceleration == oc.fast_acceleration
                &&& nc.max_slow_speed == oc.max_slow_speed
                &&& nc.speed_max == oc.speed_max
                &&& nc.deceleration_prob == oc.deceleration_prob
                &&& 0 <= nc.speed <= nc.speed_max
                &&& (nc.speed == fss || nc.speed == slowed)
                &&& (oc.deceleration_prob == 0 ==> nc.speed == fss)
                &&& (oc.deceleration_prob >= PROB_ONE ==> nc.speed == slowed)
                &&& nc.front == (oc.front + nc.speed) % old(self).cells.road_length()
            },
            old(self).cars@.len() == 0 ==> r.is_ok(),
            old(self).bikes@.len() == 0 && old(self).cars@.len() == 1 ==> r.is_ok(),
            (old(self).bikes@.len() == 0 && old(self).cars@.len() == 1 && (forall|k: int|
                1 <= k <= potential_speed(old(self).cars@[0])
                    ==> crate::car::car_width_at(old(self).cars@[0], k) <= old(self).cells.road_width())) ==> crate::car::fastest_safe_spec(
                old(self).cars@[0],
                old(self).cells,
                0usize,
            ) == ({
                let p = potential_speed(old(self).cars@[0]);
                if p <= 0 {
                    0int
                } else {
                    p
                }
            }),
    {
        let ghost pre = *self;
        let c = self.cars.len();
        let mut proposals: Vec<Car> = Vec::new();
        let mut j: usize = 0;
        while j < c
            invariant
                *self == pre,
                pre.wf(),
                c == pre.cars@.len(),
                j <= c,
                proposals@.len() == j,
                forall|k: int| 0 <= k < j ==> {
                    let oc = pre.cars@[k];
                    let nc = #[trigger] proposals@[k];
                    let fss = crate::car::fastest_safe_spec(oc, pre.cells, k as usize);
                    let slowed: int = if fss >= 1 {
                        fss - 1
                    } else {
                        0
                    };
                    &&& nc.length == oc.length
                    &&& nc.const_width_hundredths == oc.const_width_hundredths
                    &&& nc.alpha_hundredths == oc.alpha_hundredths
                    &&& nc.slow_acceleration == oc.slow_acceleration
                    &&& nc.fast_acceleration == oc.fast_acceleration
                    &&& nc.max_slow_speed == oc.max_slow_speed
                    &&& nc.speed_max == oc.speed_max
                    &&& nc.deceleration_prob == oc.deceleration_prob
                    &&& 0 <= nc.speed <= nc.speed_max
                    &&& (nc.speed == fss || nc.speed == slowed)
                    &&& (oc.deceleration_prob == 0 ==> nc.speed == fss)
                    &&& (oc.deceleration_prob >= PROB_ONE ==> nc.speed == slowed)
                    &&& crate::car::car_width_at(oc, nc.speed as int) <= pre.cells.road_width()
                    &&& nc.front == (oc.front + nc.speed) % pre.cells.road_length()
                },
            decreases c - j,
        {
            let car = self.cars[j];
            let next = car.update(self, j);
            proposals.push(next);
            j = j + 1;
        }
        proof {
            if pre.bikes@.len() == 0 && c == 1 && (forall|k: int|
                1 <= k <= potential_speed(pre.cars@[0]) ==> crate::car::car_width_at(
                    pre.cars@[0],
                    k,
                ) <= pre.cells.road_width()) {
                assert forall|k: int| 1 <= k <= potential_speed(pre.cars@[0]) implies !(
                #[trigger] crate::car::car_collides_at(pre.cars@[0], pre.cells, 0usize, k)) by {
                    if crate::car::car_collides_at(pre.cars@[0], pre.cells, 0usize, k) {
                        assert(crate::car::car_width_at(pre.cars@[0], k)
                            <= pre.cells.road_width());
                        let rect = crate::car::car_rect_at(pre.cars@[0], pre.cars@[0].front + k, k);
                        let (lat, long) = choose|lat: int, long: int|
                            pre.cells.in_range(lat, long) && #[trigger] rect.covers(
                                pre.cells.road_length(),
                                lat,
                                long,
                            ) && pre.cells.occ(lat, long).is_some() && pre.cells.occ(lat, long)
                                != Some(Vehicle::Car(0usize));
                        match pre.cells.occ(lat, long) {
                            Some(Vehicle::Bike(ii)) => {
                                assert(ii < 0);
                                assert(false);
                            },
                            Some(Vehicle::Car(jj)) => {
                                assert(jj < 1);
                                assert(false);
                            },
                            None => {
                                assert(false);
                            },
                        }
                    }
                }
                let p = potential_speed(pre.cars@[0]);
                if p > 0 {
                    crate::car::lemma_fss_no_collision(pre.cars@[0], pre.cells, 0usize, 0, p);
                }
            }
        }
        match build_cells(self.cells.l, self.cells.mlw, self.cells.blw, &self.bikes, &proposals) {
            Ok(new_cells) => {
                self.cars = proposals;
                self.cells = new_cells;
                proof {
                    assert(self.wf()) by {
                        assert forall|jj: int| 0 <= jj < self.cars@.len() implies car_wf(
                            #[trigger] self.cars@[jj],
                            self.cells.road_width(),
                            self.cells.road_length(),
                        ) by {
                            let oc = pre.cars@[jj];
                            let nc = self.cars@[jj];
                            assert(car_rect(nc).placed(
                                self.cells.road_width(),
                                self.cells.road_length(),
                            ));
                            assert(crate::car::car_width_at(nc, nc.speed as int)
                                == crate::car::car_width_at(oc, nc.speed as int));
                        }
                    }
                }
                Ok(())
            },
            Err(e) => {
                proof {
                    let w = (self.cells.mlw + self.cells.blw) as int;
                    let li = self.cells.l as int;
                    if c == 0 || (pre.bikes@.len() == 0 && c == 1) {
                        assert(config_placed(self.bikes@, proposals@, w, li)) by {
                            assert forall|v: Vehicle| config_valid(self.bikes@, proposals@, v)
                                implies (#[trigger] config_rect(
                                self.bikes@,
                                proposals@,
                                v,
                            )).placed(w, li) by {
                                match v {
                                    Vehicle::Bike(ii) => {
                                        assert(bike_wf(pre.bikes@[ii as int], w, li));
                                    },
                                    Vehicle::Car(jj) => {
                                        let nc = proposals@[jj as int];
                                        let oc = pre.cars@[jj as int];
                                        assert(nc.front == (oc.front + nc.speed)
                                            % pre.cells.road_length());
                                        vstd::arithmetic::div_mod::lemma_mod_division_less_than_divisor(
                                            oc.front + nc.speed,
                                            pre.cells.road_length(),
                                        );
                                        crate::car::lemma_car_width_bound(
                                            oc,
                                            nc.speed as int,
                                        );
                                        crate::car::lemma_car_width_positive(
                                            oc,
                                            nc.speed as int,
                                        );
                                        assert(crate::car::car_width_at(nc, nc.speed as int)
                                            == crate::car::car_width_at(oc, nc.speed as int));
                                        assert(crate::car::car_width_at(oc, nc.speed as int)
                                            <= w);
                                    },
                                }
                            }
                        }
                        assert(config_disjoint(self.bikes@, proposals@, li)) by {
                            if c == 0 {
                                assert forall|v1: Vehicle, v2: Vehicle, lat: int, long: int|
                                    config_valid(self.bikes@, proposals@, v1) && config_valid(
                                        self.bikes@,
                                        proposals@,
                                        v2,
                                    ) && v1 != v2 implies !((#[trigger] config_rect(
                                    self.bikes@,
                                    proposals@,
                                    v1,
                                ).covers(li, lat, long)) && (#[trigger] config_rect(
                                    self.bikes@,
                                    proposals@,
                                    v2,
                                ).covers(li, lat, long))) by {
                                    if config_rect(self.bikes@, proposals@, v1).covers(
                                        li,
                                        lat,
                                        long,
                                    ) && config_rect(self.bikes@, proposals@, v2).covers(
                                        li,
                                        lat,
                                        long,
                                    ) {
                                        match (v1, v2) {
                                            (Vehicle::Bike(a), Vehicle::Bike(d)) => {
                                                assert(pre.cells.in_range(lat, long));
                                                assert(pre.cells.occ(lat, long) == Some(
                                                    Vehicle::Bike(a),
                                                ));
                                                assert(pre.cells.occ(lat, long) == Some(
                                                    Vehicle::Bike(d),
                                                ));
                                            },
                                            (Vehicle::Car(_), _) => {
                                                assert(false);
                                            },
                                            (_, Vehicle::Car(_)) => {
                                                assert(false);
                                            },
                                        }
                                    }
                                }
                            } else {
                                assert forall|v1: Vehicle, v2: Vehicle|
                                    config_valid(self.bikes@, proposals@, v1) && config_valid(
                                        self.bikes@,
                                        proposals@,
                                        v2,
                                    ) implies v1 == v2 by {
                                    match (v1, v2) {
                                        (Vehicle::Car(a), Vehicle::Car(d)) => {
                                            assert(a < 1 && d < 1);
                                        },
                                        (Vehicle::Bike(_), _) => {
                                            assert(false);
                                        },
                                        (_, Vehicle::Bike(_)) => {
                                            assert(false);
                                        },
                                    }
                                }
                            }
                        }
                        assert(false);
                    }
                }
                Err(e)
            },
        }
    }

    /// One full tick: the bike lateral phase, the bike forward phase, then
    /// the car phase.  The road invariant holds afterwards whether or not a
    /// phase reported a collision.
    pub fn update(&mut self) -> (r: Result<(), RoadError>)
        requires
            old(self).wf(),
        ensures
            final(self).wf(),
            final(self).bikes@.len() == old(self).bikes@.len(),
            final(self).cars@.len() == old(self).cars@.len(),
            final(self).cells.l == old(self).cells.l,
            final(self).cells.mlw == old(self).cells.mlw,
            final(self).cells.blw == old(self).cells.blw,
            forall|i: int| 0 <= i < old(self).bikes@.len() ==> {
                let ob = old(self).bikes@[i];
                let nb = #[trigger] final(self).bikes@[i];
                &&& nb.occupation.width == ob.occupation.width
                &&& nb.occupation.length == ob.occupation.length
                &&& nb.forward_speed_max == ob.forward_speed_max
                &&& nb.forward_acceleration == ob.forward_acceleration
                &&& nb.rightward_speed_max == ob.rightward_speed_max
                &&& nb.lateral_ignorance == ob.lateral_ignorance
                &&& nb.deceleration_prob == ob.deceleration_prob
                &&& nb.y_star_selection_strategy == ob.y_star_selection_strategy
                &&& 0 <= nb.forward_speed <= nb.forward_speed_max
            },
            forall|j: int| 0 <= j < old(self).cars@.len() ==> {
                let oc = old(self).cars@[j];
                let nc = #[trigger] final(self).cars@[j];
                &&& nc.length == oc.length
                &&& nc.const_width_hundredths == oc.const_width_hundredths
                &&& nc.alpha_hundredths == oc.alpha_hundredths
                &&& nc.slow_acceleration == oc.slow_acceleration
                &&& nc.fast_acceleration == oc.fast_acceleration
                &&& nc.max_slow_speed == oc.max_slow_speed
                &&& nc.speed_max == oc.speed_max
                &&& nc.deceleration_prob == oc.deceleration_prob
                &&& 0 <= nc.speed <= nc.speed_max
            },
            forall|i: int| 0 <= i < old(self).bikes@.len() && old(self).bikes@[i].lateral_ignorance >= PROB_ONE ==> (#[trigger] final(self).bikes@[i]).occupation.right == old(self).bikes@[i].occupation.right,
            old(self).bikes@.len() == 0 && old(self).cars@.len() == 0 ==> r.is_ok() && final(self).bikes@ == old(self).bikes@ && final(self).cars@ == old(self).cars@ && final(self).cells.grid@ == old(self).cells.grid@,
            (old(self).bikes@.len() == 1 && old(self).cars@.len() == 0 && old(self).bikes@[0].lateral_ignorance >= PROB_ONE && old(self).bikes@[0].deceleration_prob
                >= PROB_ONE && old(self).bikes@[0].forward_acceleration == 1 && old(self).bikes@[0].forward_speed == 0) ==> r.is_ok() && final(self).bikes@ == old(self).bikes@ && final(self).cells.grid@ == old(self).cells.grid@,
            (old(self).bikes@.len() == 0 && old(self).cars@.len() == 1 && old(self).cars@[0].deceleration_prob == 0 && (forall|k: int|
                1 <= k <= potential_speed(old(self).cars@[0]) ==> crate::car::car_width_at(
                    old(self).cars@[0],
                    k,
                ) <= old(self).cells.road_width())) ==> r.is_ok() && final(self).cars@[0].speed
                == ({
                let p = potential_speed(old(self).cars@[0]);
                if p <= 0 {
                    0int
                } else {
                    p
                }
            }) && final(self).cars@[0].front == (old(self).cars@[0].front + final(self).cars@[0].speed) % old(self).cells.road_length(),
    {
        let ghost s0 = *self;
        self.bikes_lateral_update();
        let ghost s1 = *self;
        match self.bikes_forward_update() {
            Ok(()) => {},
            Err(e) => {
                return Err(e);
            },
        }
        let ghost s2 = *self;
        match self.cars_update() {
            Ok(()) => {},
            Err(e) => {
                return Err(e);
            },
        }
        proof {
            if s0.bikes@.len() == 0 && s0.cars@.len() == 0 {
                assert(self.bikes@ =~= s0.bikes@);
                assert(self.cars@ =~= s0.cars@);
                lemma_same_config_same_grid(*self, s0);
            }
            if s0.bikes@.len() == 0 && s0.cars@.len() == 1 && s0.cars@[0].deceleration_prob
                == 0 && (forall|k: int|
                1 <= k <= potential_speed(s0.cars@[0]) ==> crate::car::car_width_at(
                    s0.cars@[0],
                    k,
                ) <= s0.cells.road_width()) {
                assert(s1 == s0);
                assert(s2.cars@ == s0.cars@);
                assert(s2.cars@[0] == s0.cars@[0]);
                assert(s2.cells.road_width() == s0.cells.road_width());
                assert(s2.cells.road_length() == s0.cells.road_length());
            }
            if s0.bikes@.len() == 1 && s0.cars@.len() == 0 && s0.bikes@[0].lateral_ignorance
                >= PROB_ONE && s0.bikes@[0].deceleration_prob >= PROB_ONE
                && s0.bikes@[0].forward_acceleration == 1 && s0.bikes@[0].forward_speed == 0 {
                assert(s1.bikes@[0].occupation == s0.bikes@[0].occupation);
                assert(s1.bikes@[0] == s0.bikes@[0]);
                let base = crate::bike::forward_base_speed(s1, s1.bikes@[0]);
                assert(base <= 1);
                assert(self.bikes@[0].forward_speed == crate::bike::decelerated(base));
                assert(self.bikes@[0].forward_speed == 0);
                assert(self.bikes@[0].occupation.front == (s1.bikes@[0].occupation.front + 0)
                    % s1.cells.road_length());
                assert(s0.bikes@[0].occupation.front < s1.cells.road_length());
                vstd::arithmetic::div_mod::lemma_small_mod(
                    s0.bikes@[0].occupation.front as nat,
                    s1.cells.l as nat,
                );
                assert(self.bikes@[0].occupation == s0.bikes@[0].occupation);
                assert(self.bikes@[0] == s0.bikes@[0]);
                assert(self.bikes@ =~= s0.bikes@);
                assert(self.cars@ =~= s0.cars@);
                lemma_same_config_same_grid(*self, s0);
            }
        }
        Ok(())
    }
}

impl Road {
    /// No collision: two distinct agents of a well-formed road never cover
    /// a common cell.
    pub proof fn lemma_no_collision(&self, v1: Vehicle, v2: Vehicle, lat: int, long: int)
        requires
            self.wf(),
            self.valid_vehicle(v1),
            self.valid_vehicle(v2),
            v1 != v2,
            self.cells.in_range(lat, long),
        ensures
            !(self.agent_rect(v1).covers(self.cells.road_length(), lat, long) && self.agent_rect(
                v2,
            ).covers(self.cells.road_length(), lat, long)),
    {
        let l = self.cells.road_length();
        if self.agent_rect(v1).covers(l, lat, long) && self.agent_rect(v2).covers(l, lat, long) {
            match v1 {
                Vehicle::Bike(i) => {
                    assert(self.bikes@[i as int].occupation.covers(l, lat, long));
                    assert(self.cells.occ(lat, long) == Some(v1));
                },
                Vehicle::Car(j) => {
                    assert(car_rect(self.cars@[j as int]).covers(l, lat, long));
                    assert(self.cells.occ(lat, long) == Some(v1));
                },
            }
            match v2 {
                Vehicle::Bike(i) => {
                    assert(self.bikes@[i as int].occupation.covers(l, lat, long));
                    assert(self.cells.occ(lat, long) == Some(v2));
                },
                Vehicle::Car(j) => {
                    assert(car_rect(self.cars@[j as int]).covers(l, lat, long));
                    assert(self.cells.occ(lat, long) == Some(v2));
                },
            }
        }
    }

    /// On grid: every cell an agent of a well-formed road covers lies
    /// within the road's lats and the ring's longs.
    pub proof fn lemma_agents_on_grid(&self, v: Vehicle, lat: int, long: int)
        requires
            self.wf(),
            self.valid_vehicle(v),
            self.agent_rect(v).covers(self.cells.road_length(), lat, long),
        ensures
            0 <= lat < self.cells.road_width(),
            0 <= long < self.cells.road_length(),
    {
        match v {
            Vehicle::Bike(i) => {
                assert(bike_wf(
                    self.bikes@[i as int],
                    self.cells.road_width(),
                    self.cells.road_length(),
                ));
            },
            Vehicle::Car(j) => {
                let c = self.cars@[j as int];
                assert(car_wf(c, self.cells.road_width(), self.cells.road_length()));
                crate::car::lemma_car_width_in_range(
                    c,
                    self.cells.road_width(),
                    self.cells.road_length(),
                    c.speed as int,
                );
            },
        }
    }

    /// Speed bounds: every agent's speed lies between zero and its cap.
    pub proof fn lemma_speed_bounds(&self)
        requires
            self.wf(),
        ensures
            forall|i: int| 0 <= i < self.bikes@.len() ==> 0 <= (
            #[trigger] self.bikes@[i]).forward_speed <= self.bikes@[i].forward_speed_max,
            forall|j: int| 0 <= j < self.cars@.len() ==> 0 <= (#[trigger] self.cars@[j]).speed
                <= self.cars@[j].speed_max,
    {
    }

    /// The index is the union of the agents' cells: a cell is occupied
    /// exactly when some agent covers it, and then by that agent's handle.
    pub proof fn lemma_index_is_union(&self, lat: int, long: int)
        requires
            self.wf(),
            self.cells.in_range(lat, long),
        ensures
            self.cells.occ(lat, long).is_some() <==> exists|v: Vehicle|
                self.valid_vehicle(v) && (#[trigger] self.agent_rect(v)).covers(
                    self.cells.road_length(),
                    lat,
                    long,
                ),
            match self.cells.occ(lat, long) {
                Some(v) => self.valid_vehicle(v) && self.agent_rect(v).covers(
                    self.cells.road_length(),
                    lat,
                    long,
                ),
                None => true,
            },
    {
        let l = self.cells.road_length();
        match self.cells.occ(lat, long) {
            Some(v) => {
                match v {
                    Vehicle::Bike(_) => {
                        assert(self.agent_rect(v).covers(l, lat, long));
                    },
                    Vehicle::Car(_) => {
                        assert(self.agent_rect(v).covers(l, lat, long));
                    },
                }
            },
            None => {
                if exists|v: Vehicle|
                    self.valid_vehicle(v) && (#[trigger] self.agent_rect(v)).covers(l, lat, long) {
                    let v = choose|v: Vehicle|
                        self.valid_vehicle(v) && (#[trigger] self.agent_rect(v)).covers(
                            l,
                            lat,
                            long,
                        );
                    match v {
                        Vehicle::Bike(i) => {
                            assert(self.bikes@[i as int].occupation.covers(l, lat, long));
                            assert(false);
                        },
                        Vehicle::Car(j) => {
                            assert(car_rect(self.cars@[j as int]).covers(l, lat, long));
                            assert(false);
                        },
                    }
                }
            },
        }
    }
}

/// The scan of a single column on a ring that holds one lone occupier: the
/// first occupied cell ahead is the occupier's own back, so the gap is the
/// ring length less the occupier's length (or the full cap for a length of
/// one, whose own cell is never scanned).
proof fn lemma_lone_column_scan(
    cells: RoadCells,
    o: RectangleOccupier,
    v: Vehicle,
    lat: int,
    d: int,
)
    requires
        cells.wf(),
        o.placed(cells.road_width(), cells.road_length()),
        forall|a: int, b: int| cells.in_range(a, b) ==> #[trigger] cells.occ(a, b) == (
        if o.covers(cells.road_length(), a, b) {
            Some(v)
        } else {
            None::<Vehicle>
        }),
        o.left_spec() <= lat <= o.right,
        1 <= d <= cells.road_length() - o.length + 1,
    ensures
        cells.col_gap_from(lat, (o.front as int) % cells.road_length(), d, cells.road_length())
            == (if o.length >= 2 {
            cells.road_length() - o.length
        } else {
            cells.road_length()
        }),
    decreases cells.road_length() - o.length + 1 - d,
{
    let l = cells.road_length();
    let f = o.front as int;
    vstd::arithmetic::div_mod::lemma_small_mod(f as nat, l as nat);
    let cur = (f + d) % l;
    vstd::arithmetic::div_mod::lemma_mod_division_less_than_divisor(f + d, l);
    assert((o.front - cur) % l == (if d == l {
        0int
    } else {
        l - d
    })) by {
        vstd::arithmetic::div_mod::lemma_fundamental_div_mod(f + d, l);
        let q = (f + d) / l;
        if d == l {
            assert(f - cur == (q - 1) * l + 0) by (nonlinear_arith)
                requires f + d == l * q + cur && d == l;
            vstd::arithmetic::div_mod::lemma_fundamental_div_mod_converse_mod(f - cur, l, q - 1, 0);
        } else {
            assert(f - cur == (q - 1) * l + (l - d)) by (nonlinear_arith)
                requires f + d == l * q + cur;
            vstd::arithmetic::div_mod::lemma_fundamental_div_mod_converse_mod(
                f - cur,
                l,
                q - 1,
                l - d,
            );
        }
    }
    if d == l - o.length + 1 {
        if o.length >= 2 {
            assert(d < l);
            assert((o.front - cur) % l == o.length - 1 < o.length);
            assert(o.covers(l, lat, cur));
            assert(cells.occ(lat, cur).is_some());
            assert(cells.col_gap_from(lat, f % l, d, l) == d - 1);
        } else {
            assert(d == l);
            assert(cells.col_gap_from(lat, f % l, d, l) == l);
        }
    } else {
        assert(d < l - o.length + 1);
        assert((o.front - cur) % l == l - d >= o.length);
        assert(!o.covers(l, lat, cur));
        assert(cells.occ(lat, cur) == None::<Vehicle>);
        lemma_lone_column_scan(cells, o, v, lat, d + 1);
    }
}

/// The front gap of a lone occupier on an otherwise empty ring: the ring
/// length less the occupier's length, every column alike; an occupier of
/// length one never meets its own single cell, so the scan returns its cap,
/// the ring length.
pub proof fn lemma_front_gap_lone_occupier(cells: RoadCells, o: RectangleOccupier, v: Vehicle)
    requires
        cells.wf(),
        o.placed(cells.road_width(), cells.road_length()),
        forall|a: int, b: int| cells.in_range(a, b) ==> #[trigger] cells.occ(a, b) == (
        if o.covers(cells.road_length(), a, b) {
            Some(v)
        } else {
            None::<Vehicle>
        }),
    ensures
        min_front_gap_upto(cells, o, o.width as int) == (if o.length >= 2 {
            cells.road_length() - o.length
        } else {
            cells.road_length()
        }),
{
    let l = cells.road_length();
    assert forall|lat: int| o.left_spec() <= lat <= o.right implies #[trigger] cells.col_gap(
        lat,
        o.front as int,
        l,
    ) == (if o.length >= 2 {
        l - o.length
    } else {
        l
    }) by {
        lemma_lone_column_scan(cells, o, v, lat, 1);
        vstd::arithmetic::div_mod::lemma_small_mod(o.front as nat, l as nat);
    }
    lemma_min_gap_all_equal(cells, o, o.width as int, (if o.length >= 2 {
        l - o.length
    } else {
        l
    }));
}

/// When every column of the occupier has the same gap, so does the
/// minimum.
proof fn lemma_min_gap_all_equal(cells: RoadCells, o: RectangleOccupier, di: int, g: int)
    requires
        1 <= di <= o.width,
        forall|lat: int| o.left_spec() <= lat <= o.right ==> #[trigger] cells.col_gap(
            lat,
            o.front as int,
            cells.road_length(),
        ) == g,
    ensures
        min_front_gap_upto(cells, o, di) == g,
    decreases di,
{
    assert(cells.col_gap(o.left_spec() + di - 1, o.front as int, cells.road_length()) == g);
    if di > 1 {
        lemma_min_gap_all_equal(cells, o, di - 1, g);
    }
}

/// The total cell count of the cars' current rectangles.
pub open spec fn car_cells_total(s: Seq<Car>) -> int
    decreases s.len(),
{
    if s.len() == 0 {
        0
    } else {
        car_cells_total(s.drop_last()) + car_rect(s.last()).width * car_rect(s.last()).length
    }
}

/// The total cell count of the bikes' rectangles.
pub open spec fn bike_cells_total(s: Seq<Bike>) -> int
    decreases s.len(),
{
    if s.len() == 0 {
        0
    } else {
        bike_cells_total(s.drop_last()) + s.last().occupation.width * s.last().occupation.length
    }
}

/// The sum of the cars' speeds.
pub open spec fn car_speed_sum(s: Seq<Car>) -> int
    decreases s.len(),
{
    if s.len() == 0 {
        0
    } else {
        car_speed_sum(s.drop_last()) + s.last().speed
    }
}

/// The sum of the bikes' forward speeds.
pub open spec fn bike_speed_sum(s: Seq<Bike>) -> int
    decreases s.len(),
{
    if s.len() == 0 {
        0
    } else {
        bike_speed_sum(s.drop_last()) + s.last().forward_speed
    }
}

/// How many grid cells a car rests on.
pub open spec fn car_cell_count(g: Seq<Option<Vehicle>>) -> int
    decreases g.len(),
{
    if g.len() == 0 {
        0
    } else {
        car_cell_count(g.drop_last()) + (if g.last() matches Some(Vehicle::Car(_)) {
            1int
        } else {
            0int
        })
    }
}

/// How many grid cells a bike rests on.
pub open spec fn bike_cell_count(g: Seq<Option<Vehicle>>) -> int
    decreases g.len(),
{
    if g.len() == 0 {
        0
    } else {
        bike_cell_count(g.drop_last()) + (if g.last() matches Some(Vehicle::Bike(_)) {
            1int
        } else {
            0int
        })
    }
}

impl Road {
    /// The exact mean car speed as a fraction: the summed speeds and the
    /// cohort size; no value when there are no cars.
    pub fn mean_car_speed(&self) -> (r: Option<(i64, usize)>)
        requires
            self.wf(),
        ensures
            match r {
                Some(pair) => self.cars@.len() > 0 && pair.0 == car_speed_sum(self.cars@)
                    && pair.1 == self.cars@.len(),
                None => self.cars@.len() == 0,
            },
    {
        let n = self.cars.len();
        if n == 0 {
            return None;
        }
        let mut sum: i64 = 0;
        let mut j: usize = 0;
        while j < n
            invariant
                self.wf(),
                n == self.cars@.len(),
                j <= n,
                sum == car_speed_sum(self.cars@.take(j as int)),
                0 <= sum <= j * (MAX_PARAM as int),
            decreases n - j,
        {
            proof {
                assert(self.cars@.take(j as int + 1).drop_last() =~= self.cars@.take(j as int));
                assert(self.cars@.take(j as int + 1).last() == self.cars@[j as int]);
                assert(car_wf(
                    self.cars@[j as int],
                    self.cells.road_width(),
                    self.cells.road_length(),
                ));
                assert(j * (MAX_PARAM as int) + MAX_PARAM == (j + 1) * (MAX_PARAM as int))
                    by (nonlinear_arith);
                assert(n <= self.cells.grid@.len());
                assert(self.cells.grid@.len() <= 100_000_000) by (nonlinear_arith)
                    requires
                        self.cells.grid@.len() == (self.cells.mlw + self.cells.blw)
                            * self.cells.l && self.cells.mlw + self.cells.blw <= 1_000
                            && self.cells.l <= 100_000;
                assert((n as int) * (MAX_PARAM as int) <= 100_000_000int * 1_000_000int)
                    by (nonlinear_arith)
                    requires n <= 100_000_000;
                assert((j + 1) * (MAX_PARAM as int) <= (n as int) * (MAX_PARAM as int))
                    by (nonlinear_arith)
                    requires j + 1 <= n;
            }
            sum = sum + (self.cars[j].speed as i64);
            j = j + 1;
        }
        proof {
            assert(self.cars@.take(n as int) =~= self.cars@);
        }
        Some((sum, n))
    }

    /// The exact mean bike forward speed as a fraction: the summed speeds
    /// and the cohort size; no value when there are no bikes.
    pub fn mean_bike_speed(&self) -> (r: Option<(i64, usize)>)
        requires
            self.wf(),
        ensures
            match r {
                Some(pair) => self.bikes@.len() > 0 && pair.0 == bike_speed_sum(self.bikes@)
                    && pair.1 == self.bikes@.len(),
                None => self.bikes@.len() == 0,
            },
    {
        let n = self.bikes.len();
        if n == 0 {
            return None;
        }
        let mut sum: i64 = 0;
        let mut i: usize = 0;
        while i < n
            invariant
                self.wf(),
                n == self.bikes@.len(),
                i <= n,
                sum == bike_speed_sum(self.bikes@.take(i as int)),
                0 <= sum <= i * (MAX_PARAM as int),
            decreases n - i,
        {
            proof {
                assert(self.bikes@.take(i as int + 1).drop_last() =~= self.bikes@.take(i as int));
                assert(self.bikes@.take(i as int + 1).last() == self.bikes@[i as int]);
                assert(bike_wf(
                    self.bikes@[i as int],
                    self.cells.road_width(),
                    self.cells.road_length(),
                ));
                assert(i * (MAX_PARAM as int) + MAX_PARAM == (i + 1) * (MAX_PARAM as int))
                    by (nonlinear_arith);
                assert(n <= self.cells.grid@.len());
                assert(self.cells.grid@.len() <= 100_000_000) by (nonlinear_arith)
                    requires
                        self.cells.grid@.len() == (self.cells.mlw + self.cells.blw)
                            * self.cells.l && self.cells.mlw + self.cells.blw <= 1_000
                            && self.cells.l <= 100_000;
                assert((n as int) * (MAX_PARAM as int) <= 100_000_000int * 1_000_000int)
                    by (nonlinear_arith)
                    requires n <= 100_000_000;
                assert((i + 1) * (MAX_PARAM as int) <= (n as int) * (MAX_PARAM as int))
                    by (nonlinear_arith)
                    requires i + 1 <= n;
            }
            sum = sum + (self.bikes[i].forward_speed as i64);
            i = i + 1;
        }
        proof {
            assert(self.bikes@.take(n as int) =~= self.bikes@);
        }
        Some((sum, n))
    }

    /// The fraction of cells resting under a car: occupied count over the
    /// total cell count.
    pub fn car_density(&self) -> (r: (usize, usize))
        requires
            self.wf(),
        ensures
            r.0 == car_cell_count(self.cells.grid@),
            r.1 == self.cells.grid@.len(),
    {
        let n = self.cells.grid.len();
        let mut count: usize = 0;
        let mut k: usize = 0;
        while k < n
            invariant
                self.wf(),
                n == self.cells.grid@.len(),
                k <= n,
                count == car_cell_count(self.cells.grid@.take(k as int)),
                count <= k,
            decreases n - k,
        {
            proof {
                assert(self.cells.grid@.take(k as int + 1).drop_last() =~= self.cells.grid@.take(
                    k as int,
                ));
                assert(self.cells.grid@.take(k as int + 1).last() == self.cells.grid@[k as int]);
            }
            match self.cells.grid[k] {
                Some(Vehicle::Car(_)) => {
                    count = count + 1;
                },
                _ => {},
            }
            k = k + 1;
        }
        proof {
            assert(self.cells.grid@.take(n as int) =~= self.cells.grid@);
        }
        (count, n)
    }

    /// The fraction of cells resting under a bike: occupied count over the
    /// total cell count.
    pub fn bike_density(&self) -> (r: (usize, usize))
        requires
            self.wf(),
        ensures
            r.0 == bike_cell_count(self.cells.grid@),
            r.1 == self.cells.grid@.len(),
    {
        let n = self.cells.grid.len();
        let mut count: usize = 0;
        let mut k: usize = 0;
        while k < n
            invariant
                self.wf(),
                n == self.cells.grid@.len(),
                k <= n,
                count == bike_cell_count(self.cells.grid@.take(k as int)),
                count <= k,
            decreases n - k,
        {
            proof {
                assert(self.cells.grid@.take(k as int + 1).drop_last() =~= self.cells.grid@.take(
                    k as int,
                ));
                assert(self.cells.grid@.take(k as int + 1).last() == self.cells.grid@[k as int]);
            }
            match self.cells.grid[k] {
                Some(Vehicle::Bike(_)) => {
                    count = count + 1;
                },
                _ => {},
            }
            k = k + 1;
        }
        proof {
            assert(self.cells.grid@.take(n as int) =~= self.cells.grid@);
        }
        (count, n)
    }

    /// Every car's front position, in construction order.
    pub fn car_fronts(&self) -> (r: Vec<isize>)
        requires
            self.wf(),
        ensures
            r@.len() == self.cars@.len(),
            forall|j: int| 0 <= j < r@.len() ==> r@[j] == self.cars@[j].front,
    {
        let mut out: Vec<isize> = Vec::new();
        let mut j: usize = 0;
        while j < self.cars.len()
            invariant
                self.wf(),
                j <= self.cars@.len(),
                out@.len() == j,
                forall|k: int| 0 <= k < j ==> out@[k] == self.cars@[k].front,
            decreases self.cars@.len() - j,
        {
            out.push(self.cars[j].front);
            j = j + 1;
        }
        out
    }

    /// Every bike's front position, in construction order.
    pub fn bike_fronts(&self) -> (r: Vec<isize>)
        requires
            self.wf(),
        ensures
            r@.len() == self.bikes@.len(),
            forall|i: int| 0 <= i < r@.len() ==> r@[i] == self.bikes@[i].occupation.front,
    {
        let mut out: Vec<isize> = Vec::new();
        let mut i: usize = 0;
        while i < self.bikes.len()
            invariant
                self.wf(),
                i <= self.bikes@.len(),
                out@.len() == i,
                forall|k: int| 0 <= k < i ==> out@[k] == self.bikes@[k].occupation.front,
            decreases self.bikes@.len() - i,
        {
            out.push(self.bikes[i].occupation.front);
            i = i + 1;
        }
        out
    }

    /// Every cell of every car, as raw coordinates paired with the car's
    /// handle; each listed cell is really covered by its agent once its
    /// long is wrapped.
    pub fn iter_car_positions(&self) -> (r: Vec<(Coord, Vehicle)>)
        requires
            self.wf(),
        ensures
            r@.len() == car_cells_total(self.cars@),
            forall|k: int| 0 <= k < r@.len() ==> {
                let pair = #[trigger] r@[k];
                &&& self.valid_vehicle(pair.1)
                &&& pair.1 matches Vehicle::Car(_)
                &&& self.agent_rect(pair.1).covers(
                    self.cells.road_length(),
                    pair.0.lat as int,
                    (pair.0.long as int) % self.cells.road_length(),
                )
            },
    {
        let mut out: Vec<(Coord, Vehicle)> = Vec::new();
        let mut j: usize = 0;
        while j < self.cars.len()
            invariant
                self.wf(),
                j <= self.cars@.len(),
                out@.len() == car_cells_total(self.cars@.take(j as int)),
                forall|k: int| 0 <= k < out@.len() ==> {
                    let pair = #[trigger] out@[k];
                    &&& self.valid_vehicle(pair.1)
                    &&& pair.1 matches Vehicle::Car(_)
                    &&& self.agent_rect(pair.1).covers(
                        self.cells.road_length(),
                        pair.0.lat as int,
                        (pair.0.long as int) % self.cells.road_length(),
                    )
                },
            decreases self.cars@.len() - j,
        {
            let car = self.cars[j];
            proof {
                assert(car_wf(
                    self.cars@[j as int],
                    self.cells.road_width(),
                    self.cells.road_length(),
                ));
                crate::car::lemma_car_width_in_range(
                    self.cars@[j as int],
                    self.cells.road_width(),
                    self.cells.road_length(),
                    self.cars@[j as int].speed as int,
                );
            }
            let rect = car.current_rect();
            proof {
                assert(rect.placed(self.cells.road_width(), self.cells.road_length()));
            }
            let cs = rect.occupied_cells();
            let mut m: usize = 0;
            while m < cs.len()
                invariant
                    self.wf(),
                    j < self.cars@.len(),
                    out@.len() == car_cells_total(self.cars@.take(j as int)) + m,
                    rect == car_rect(self.cars@[j as int]),
                    rect.placed(self.cells.road_width(), self.cells.road_length()),
                    cs@.len() == rect.width * rect.length,
                    forall|k: int| 0 <= k < cs@.len() ==> #[trigger] cs@[k] == (Coord {
                        lat: (rect.left_spec() + k / (rect.length as int)) as isize,
                        long: (rect.back_spec() + k % (rect.length as int)) as isize,
                    }),
                    m <= cs@.len(),
                    forall|k: int| 0 <= k < out@.len() ==> {
                        let pair = #[trigger] out@[k];
                        &&& self.valid_vehicle(pair.1)
                        &&& pair.1 matches Vehicle::Car(_)
                        &&& self.agent_rect(pair.1).covers(
                            self.cells.road_length(),
                            pair.0.lat as int,
                            (pair.0.long as int) % self.cells.road_length(),
                        )
                    },
                decreases cs@.len() - m,
            {
                proof {
                    lemma_raw_cell_covers(rect, self.cells.road_length(), m as int);
                }
                out.push((cs[m], Vehicle::Car(j)));
                m = m + 1;
            }
            proof {
                assert(self.cars@.take(j as int + 1).drop_last() =~= self.cars@.take(j as int));
                assert(self.cars@.take(j as int + 1).last() == self.cars@[j as int]);
            }
            j = j + 1;
        }
        proof {
            assert(self.cars@.take(self.cars@.len() as int) =~= self.cars@);
        }
        out
    }

    /// Every cell of every bike, as raw coordinates paired with the bike's
    /// handle; each listed cell is really covered by its agent once its
    /// long is wrapped.
    pub fn iter_bike_positions(&self) -> (r: Vec<(Coord, Vehicle)>)
        requires
            self.wf(),
        ensures
            r@.len() == bike_cells_total(self.bikes@),
            forall|k: int| 0 <= k < r@.len() ==> {
                let pair = #[trigger] r@[k];
                &&& self.valid_vehicle(pair.1)
                &&& pair.1 matches Vehicle::Bike(_)
                &&& self.agent_rect(pair.1).covers(
                    self.cells.road_length(),
                    pair.0.lat as int,
                    (pair.0.long as int) % self.cells.road_length(),
                )
            },
    {
        let mut out: Vec<(Coord, Vehicle)> = Vec::new();
        let mut i: usize = 0;
        while i < self.bikes.len()
            invariant
                self.wf(),
                i <= self.bikes@.len(),
                out@.len() == bike_cells_total(self.bikes@.take(i as int)),
                forall|k: int| 0 <= k < out@.len() ==> {
                    let pair = #[trigger] out@[k];
                    &&& self.valid_vehicle(pair.1)
                    &&& pair.1 matches Vehicle::Bike(_)
                    &&& self.agent_rect(pair.1).covers(
                        self.cells.road_length(),
                        pair.0.lat as int,
                        (pair.0.long as int) % self.cells.road_length(),
                    )
                },
            decreases self.bikes@.len() - i,
        {
            let bike = self.bikes[i];
            proof {
                assert(bike_wf(
                    self.bikes@[i as int],
                    self.cells.road_width(),
                    self.cells.road_length(),
                ));
            }
            let rect = bike.rectangle_occupation();
            let cs = rect.occupied_cells();
            let mut m: usize = 0;
            while m < cs.len()
                invariant
                    self.wf(),
                    i < self.bikes@.len(),
                    out@.len() == bike_cells_total(self.bikes@.take(i as int)) + m,
                    rect == self.bikes@[i as int].occupation,
                    rect.placed(self.cells.road_width(), self.cells.road_length()),
                    cs@.len() == rect.width * rect.length,
                    forall|k: int| 0 <= k < cs@.len() ==> #[trigger] cs@[k] == (Coord {
                        lat: (rect.left_spec() + k / (rect.length as int)) as isize,
                        long: (rect.back_spec() + k % (rect.length as int)) as isize,
                    }),
                    m <= cs@.len(),
                    forall|k: int| 0 <= k < out@.len() ==> {
                        let pair = #[trigger] out@[k];
                        &&& self.valid_vehicle(pair.1)
                        &&& pair.1 matches Vehicle::Bike(_)
                        &&& self.agent_rect(pair.1).covers(
                            self.cells.road_length(),
                            pair.0.lat as int,
                            (pair.0.long as int) % self.cells.road_length(),
                        )
                    },
                decreases cs@.len() - m,
            {
                proof {
                    lemma_raw_cell_covers(rect, self.cells.road_length(), m as int);
                }
                out.push((cs[m], Vehicle::Bike(i)));
                m = m + 1;
            }
            proof {
                assert(self.bikes@.take(i as int + 1).drop_last() =~= self.bikes@.take(i as int));
                assert(self.bikes@.take(i as int + 1).last() == self.bikes@[i as int]);
            }
            i = i + 1;
        }
        proof {
            assert(self.bikes@.take(self.bikes@.len() as int) =~= self.bikes@);
        }
        out
    }

    /// The vehicle fronts of both cohorts rendered as a small JSON object;
    /// the shape of the text is the renderer's business, not this crate's.
    pub fn vehicle_positions_as_string(&self) -> (r: String)
        requires
            self.wf(),
    {
        let cars = self.car_fronts();
        let bikes = self.bike_fronts();
        fronts_to_json(&cars, &bikes)
    }
}

/// The `k`-th raw cell of a placed rectangle, enumerated lats-then-longs,
/// is covered by the rectangle once its long is wrapped onto the ring.
proof fn lemma_raw_cell_covers(o: RectangleOccupier, l: int, k: int)
    requires
        0 < l,
        0 < o.length <= l,
        0 <= k < o.width * o.length,
    ensures
        ({
            let lat = o.left_spec() + k / (o.length as int);
            let raw = o.back_spec() + k % (o.length as int);
            o.covers(l, lat, raw % l)
        }),
        o.left_spec() <= o.left_spec() + k / (o.length as int) <= o.right,
{
    let len = o.length as int;
    let di = k / len;
    let m = k % len;
    vstd::arithmetic::div_mod::lemma_fundamental_div_mod(k, len);
    vstd::arithmetic::div_mod::lemma_mod_division_less_than_divisor(k, len);
    assert(0 <= di < o.width) by (nonlinear_arith)
        requires k == len * di + m && 0 <= m < len && 0 <= k < o.width * len && 0 < len;
    let raw = o.back_spec() + m;
    let long = raw % l;
    vstd::arithmetic::div_mod::lemma_mod_division_less_than_divisor(raw, l);
    assert((o.front - long) % l == (o.front - raw) % l) by {
        vstd::arithmetic::div_mod::lemma_fundamental_div_mod(raw, l);
        let q = raw / l;
        assert(o.front - long == l * q + (o.front - raw));
        vstd::arithmetic::div_mod::lemma_mod_multiples_vanish(q, o.front - raw, l);
    }
    assert(o.front - raw == o.length - 1 - m);
    vstd::arithmetic::div_mod::lemma_small_mod((o.length - 1 - m) as nat, l as nat);
}

/// Relies on `format!` with the standard `Debug` rendering of integer
/// vectors: a textual `{"cars":[..],"bikes":[..]}` object.
#[verifier::external_body]
fn fronts_to_json(cars: &Vec<isize>, bikes: &Vec<isize>) -> (r: String) {
    format!("{{\"cars\":{:?},\"bikes\":{:?}}}", cars, bikes)
}

/// A bike with its front reduced modulo the ring length; nothing else moves.
pub open spec fn norm_bike(b: Bike, l: int) -> Bike {
    Bike {
        occupation: RectangleOccupier {
            front: ((b.occupation.front as int) % l) as isize,
            right: b.occupation.right,
            width: b.occupation.width,
            length: b.occupation.length,
        },
        ..b
    }
}

/// A car with its front reduced modulo the ring length; nothing else moves.
pub open spec fn norm_car(c: Car, l: int) -> Car {
    Car { front: ((c.front as int) % l) as isize, ..c }
}

/// Exactly when `Road::new` succeeds: dimensions in range, no more agents
/// than cells, every parameter valid, every car narrow enough for the road
/// even at top speed, and the normalized configuration placed and disjoint.
pub open spec fn new_ok(bikes: Seq<Bike>, cars: Seq<Car>, l: usize, mlw: usize, blw: usize) -> bool {
    let w = mlw + blw;
    let li = l as int;
    let nbikes = Seq::new(bikes.len(), |i: int| norm_bike(bikes[i], li));
    let ncars = Seq::new(cars.len(), |j: int| norm_car(cars[j], li));
    &&& 0 < l <= crate::MAX_ROAD_LENGTH
    &&& 0 < w <= crate::MAX_ROAD_WIDTH
    &&& bikes.len() + cars.len() <= w * li
    &&& forall|i: int| 0 <= i < bikes.len() ==> crate::bike::bike_params_ok(#[trigger] bikes[i])
    &&& forall|j: int| 0 <= j < cars.len() ==> crate::car::car_params_ok(#[trigger] cars[j])
    &&& config_placed(nbikes, ncars, w, li)
    &&& config_disjoint(nbikes, ncars, li)
}

/// Build a fresh occupancy index for the given configuration: cars first,
/// then bikes, checking each placement and rejecting any shared cell.
fn build_cells(l: usize, mlw: usize, blw: usize, bikes: &Vec<Bike>, cars: &Vec<Car>) -> (r: Result<
    RoadCells,
    RoadError,
>)
    requires
        0 < l <= crate::MAX_ROAD_LENGTH,
        0 < mlw + blw <= crate::MAX_ROAD_WIDTH,
        forall|j: int| 0 <= j < cars@.len() ==> crate::car::car_widths_computable(
            #[trigger] cars@[j],
        ),
    ensures
        match r {
            Ok(cells) => {
                &&& cells.wf()
                &&& cells.l == l && cells.mlw == mlw && cells.blw == blw
                &&& forall|i: int| 0 <= i < bikes@.len() ==> (#[trigger] bikes@[i].occupation).placed(
                    mlw + blw,
                    l as int,
                )
                &&& forall|j: int| 0 <= j < cars@.len() ==> (#[trigger] car_rect(cars@[j])).placed(
                    mlw + blw,
                    l as int,
                )
                &&& forall|i: int, lat: int, long: int|
                    0 <= i < bikes@.len() && cells.in_range(lat, long)
                        && (#[trigger] bikes@[i].occupation.covers(l as int, lat, long))
                        ==> cells.occ(lat, long) == Some(Vehicle::Bike(i as usize))
                &&& forall|j: int, lat: int, long: int|
                    0 <= j < cars@.len() && cells.in_range(lat, long) && (#[trigger] car_rect(
                        cars@[j],
                    ).covers(l as int, lat, long)) ==> cells.occ(lat, long) == Some(
                        Vehicle::Car(j as usize),
                    )
                &&& forall|lat: int, long: int|
                    cells.in_range(lat, long) ==> match #[trigger] cells.occ(lat, long) {
                        Some(Vehicle::Bike(i)) => i < bikes@.len()
                            && bikes@[i as int].occupation.covers(l as int, lat, long),
                        Some(Vehicle::Car(j)) => j < cars@.len() && car_rect(
                            cars@[j as int],
                        ).covers(l as int, lat, long),
                        None => true,
                    }
            },
            Err(_) => !(config_placed(bikes@, cars@, mlw + blw, l as int) && config_disjoint(
                bikes@,
                cars@,
                l as int,
            )),
        },
{
    let w = mlw + blw;
    let mut cells = RoadCells::empty(l, mlw, blw);
    let mut j: usize = 0;
    while j < cars.len()
        invariant
            cells.wf(),
            cells.l == l && cells.mlw == mlw && cells.blw == blw,
            w == mlw + blw,
            0 < l <= crate::MAX_ROAD_LENGTH,
            0 < w <= crate::MAX_ROAD_WIDTH,
            j <= cars@.len(),
            forall|jj: int| 0 <= jj < cars@.len() ==> crate::car::car_widths_computable(
                #[trigger] cars@[jj],
            ),
            forall|jj: int| 0 <= jj < j ==> (#[trigger] car_rect(cars@[jj])).placed(
                w as int,
                l as int,
            ),
            forall|jj: int, lat: int, long: int|
                0 <= jj < j && cells.in_range(lat, long) && (#[trigger] car_rect(
                    cars@[jj],
                ).covers(l as int, lat, long)) ==> cells.occ(lat, long) == Some(
                    Vehicle::Car(jj as usize),
                ),
            forall|lat: int, long: int|
                cells.in_range(lat, long) ==> match #[trigger] cells.occ(lat, long) {
                    Some(Vehicle::Car(jj)) => jj < j && car_rect(cars@[jj as int]).covers(
                        l as int,
                        lat,
                        long,
                    ),
                    Some(Vehicle::Bike(_)) => false,
                    None => true,
                },
        decreases cars@.len() - j,
    {
        let car = cars[j];
        let rect = car.current_rect();
        let placed_ok = {
            let left: i128 = rect.right as i128 - rect.width as i128 + 1;
            0 <= left && (rect.right as i128) < w as i128 && rect.width >= 1 && rect.length >= 1
                && rect.length <= l && 0 <= rect.front && (rect.front as i128) < l as i128
        };
        if !placed_ok {
            proof {
                assert(config_rect(bikes@, cars@, Vehicle::Car(j)) == rect);
                assert(!config_placed(bikes@, cars@, w as int, l as int));
            }
            return Err(RoadError::OffRoad { vehicle: Vehicle::Car(j) });
        }
        match cells.find_conflict(&rect, None) {
            Some(pair) => {
                proof {
                    let lat = pair.0.lat as int;
                    let long = pair.0.long as int;
                    match pair.1 {
                        Vehicle::Car(jj) => {
                            assert(config_rect(bikes@, cars@, Vehicle::Car(jj)).covers(
                                l as int,
                                lat,
                                long,
                            ));
                            assert(config_rect(bikes@, cars@, Vehicle::Car(j)).covers(
                                l as int,
                                lat,
                                long,
                            ));
                            assert(!config_disjoint(bikes@, cars@, l as int));
                        },
                        Vehicle::Bike(_) => {
                            assert(false);
                        },
                    }
                }
                return Err(
                    RoadError::Collision { moving: Vehicle::Car(j), found: pair.1, at: pair.0 },
                );
            },
            None => {},
        }
        let ghost pre = cells;
        cells.set_rect(&rect, Some(Vehicle::Car(j)));
        proof {
            assert forall|jj: int, lat: int, long: int|
                0 <= jj < j + 1 && cells.in_range(lat, long) && (#[trigger] car_rect(
                    cars@[jj],
                ).covers(l as int, lat, long)) implies cells.occ(lat, long) == Some(
                Vehicle::Car(jj as usize),
            ) by {
                if jj < j {
                    assert(pre.occ(lat, long) == Some(Vehicle::Car(jj as usize)));
                    if rect.covers(l as int, lat, long) {
                        assert(pre.conflict(rect, None));
                        assert(false);
                    }
                }
            }
            assert forall|lat: int, long: int| cells.in_range(lat, long) implies match #[trigger] cells.occ(
                lat,
                long,
            ) {
                Some(Vehicle::Car(jj)) => jj < j + 1 && car_rect(cars@[jj as int]).covers(
                    l as int,
                    lat,
                    long,
                ),
                Some(Vehicle::Bike(_)) => false,
                None => true,
            } by {
                if !rect.covers(l as int, lat, long) {
                    assert(cells.occ(lat, long) == pre.occ(lat, long));
                }
            }
        }
        j = j + 1;
    }
    let mut i: usize = 0;
    while i < bikes.len()
        invariant
            cells.wf(),
            cells.l == l && cells.mlw == mlw && cells.blw == blw,
            w == mlw + blw,
            0 < l <= crate::MAX_ROAD_LENGTH,
            0 < w <= crate::MAX_ROAD_WIDTH,
            i <= bikes@.len(),
            forall|jj: int| 0 <= jj < cars@.len() ==> (#[trigger] car_rect(cars@[jj])).placed(
                w as int,
                l as int,
            ),
            forall|jj: int, lat: int, long: int|
                0 <= jj < cars@.len() && cells.in_range(lat, long) && (#[trigger] car_rect(
                    cars@[jj],
                ).covers(l as int, lat, long)) ==> cells.occ(lat, long) == Some(
                    Vehicle::Car(jj as usize),
                ),
            forall|ii: int| 0 <= ii < i ==> (#[trigger] bikes@[ii].occupation).placed(
                w as int,
                l as int,
            ),
            forall|ii: int, lat: int, long: int|
                0 <= ii < i && cells.in_range(lat, long) && (#[trigger] bikes@[ii].occupation.covers(
                    l as int,
                    lat,
                    long,
                )) ==> cells.occ(lat, long) == Some(Vehicle::Bike(ii as usize)),
            forall|lat: int, long: int|
                cells.in_range(lat, long) ==> match #[trigger] cells.occ(lat, long) {
                    Some(Vehicle::Car(jj)) => jj < cars@.len() && car_rect(
                        cars@[jj as int],
                    ).covers(l as int, lat, long),
                    Some(Vehicle::Bike(ii)) => ii < i && bikes@[ii as int].occupation.covers(
                        l as int,
                        lat,
                        long,
                    ),
                    None => true,
                },
        decreases bikes@.len() - i,
    {
        let bike = bikes[i];
        let rect = bike.rectangle_occupation();
        let placed_ok = {
            let left: i128 = rect.right as i128 - rect.width as i128 + 1;
            0 <= left && (rect.right as i128) < w as i128 && rect.width >= 1 && rect.length >= 1
                && rect.length <= l && 0 <= rect.front && (rect.front as i128) < l as i128
        };
        if !placed_ok {
            proof {
                assert(config_rect(bikes@, cars@, Vehicle::Bike(i)) == rect);
                assert(!config_placed(bikes@, cars@, w as int, l as int));
            }
            return Err(RoadError::OffRoad { vehicle: Vehicle::Bike(i) });
        }
        match cells.find_conflict(&rect, None) {
            Some(pair) => {
                proof {
                    let lat = pair.0.lat as int;
                    let long = pair.0.long as int;
                    match pair.1 {
                        Vehicle::Car(jj) => {
                            assert(config_rect(bikes@, cars@, Vehicle::Car(jj)).covers(
                                l as int,
                                lat,
                                long,
                            ));
                            assert(config_rect(bikes@, cars@, Vehicle::Bike(i)).covers(
                                l as int,
                                lat,
                                long,
                            ));
                            assert(!config_disjoint(bikes@, cars@, l as int));
                        },
                        Vehicle::Bike(ii) => {
                            assert(config_rect(bikes@, cars@, Vehicle::Bike(ii)).covers(
                                l as int,
                                lat,
                                long,
                            ));
                            assert(config_rect(bikes@, cars@, Vehicle::Bike(i)).covers(
                                l as int,
                                lat,
                                long,
                            ));
                            assert(!config_disjoint(bikes@, cars@, l as int));
                        },
                    }
                }
                return Err(
                    RoadError::Collision { moving: Vehicle::Bike(i), found: pair.1, at: pair.0 },
                );
            },
            None => {},
        }
        let ghost pre = cells;
        cells.set_rect(&rect, Some(Vehicle::Bike(i)));
        proof {
            assert forall|jj: int, lat: int, long: int|
                0 <= jj < cars@.len() && cells.in_range(lat, long) && (#[trigger] car_rect(
                    cars@[jj],
                ).covers(l as int, lat, long)) implies cells.occ(lat, long) == Some(
                Vehicle::Car(jj as usize),
            ) by {
                assert(pre.occ(lat, long) == Some(Vehicle::Car(jj as usize)));
                if rect.covers(l as int, lat, long) {
                    assert(pre.conflict(rect, None));
                    assert(false);
                }
            }
            assert forall|ii: int, lat: int, long: int|
                0 <= ii < i + 1 && cells.in_range(lat, long) && (#[trigger] bikes@[ii].occupation.covers(
                    l as int,
                    lat,
                    long,
                )) implies cells.occ(lat, long) == Some(Vehicle::Bike(ii as usize)) by {
                if ii < i {
                    assert(pre.occ(lat, long) == Some(Vehicle::Bike(ii as usize)));
                    if rect.covers(l as int, lat, long) {
                        assert(pre.conflict(rect, None));
                        assert(false);
                    }
                }
            }
            assert forall|lat: int, long: int| cells.in_range(lat, long) implies match #[trigger] cells.occ(
                lat,
                long,
            ) {
                Some(Vehicle::Car(jj)) => jj < cars@.len() && car_rect(cars@[jj as int]).covers(
                    l as int,
                    lat,
                    long,
                ),
                Some(Vehicle::Bike(ii)) => ii < i + 1 && bikes@[ii as int].occupation.covers(
                    l as int,
                    lat,
                    long,
                ),
                None => true,
            } by {
                if !rect.covers(l as int, lat, long) {
                    assert(cells.occ(lat, long) == pre.occ(lat, long));
                }
            }
        }
        i = i + 1;
    }
    Ok(cells)
}

impl Road {
    /// Validate the configuration and build the road: dimensions in range,
    /// parameters sane, every agent on the grid and no two agents sharing a
    /// cell.  Agent fronts are stored reduced modulo the ring length.
    pub fn new(bikes: Vec<Bike>, cars: Vec<Car>, l: usize, mlw: usize, blw: usize) -> (r: Result<
        Road,
        RoadError,
    >)
        ensures
            r.is_ok() <==> new_ok(bikes@, cars@, l, mlw, blw),
            match r {
                Ok(road) => {
                    &&& road.wf()
                    &&& road.cells.l == l && road.cells.mlw == mlw && road.cells.blw == blw
                    &&& road.bikes@.len() == bikes@.len()
                    &&& road.cars@.len() == cars@.len()
                    &&& forall|i: int| 0 <= i < bikes@.len() ==> #[trigger] road.bikes@[i]
                        == norm_bike(bikes@[i], l as int)
                    &&& forall|j: int| 0 <= j < cars@.len() ==> #[trigger] road.cars@[j]
                        == norm_car(cars@[j], l as int)
                },
                Err(_) => true,
            },
    {
        let ghost nbikes_spec = Seq::new(bikes@.len(), |i: int| norm_bike(bikes@[i], l as int));
        let ghost ncars_spec = Seq::new(cars@.len(), |j: int| norm_car(cars@[j], l as int));
        if l < 1 || l > crate::MAX_ROAD_LENGTH {
            return Err(RoadError::InvalidDimensions);
        }
        let wsum: u128 = mlw as u128 + blw as u128;
        if wsum < 1 || wsum > crate::MAX_ROAD_WIDTH as u128 {
            return Err(RoadError::InvalidDimensions);
        }
        let w = mlw + blw;
        proof {
            assert((w as u128) * (l as u128) <= 100_000_000u128) by (nonlinear_arith)
                requires 0 < w <= 1_000 && 0 < l <= 100_000;
        }
        if (bikes.len() as u128) + (cars.len() as u128) > (w as u128) * (l as u128) {
            proof {
                assert((w as u128) * (l as u128) == (w * l) as u128) by (nonlinear_arith)
                    requires 0 < w <= crate::MAX_ROAD_WIDTH && 0 < l <= crate::MAX_ROAD_LENGTH;
            }
            return Err(RoadError::TooManyAgents);
        }
        let mut norm_bikes: Vec<Bike> = Vec::new();
        let mut i: usize = 0;
        while i < bikes.len()
            invariant
                0 < l <= crate::MAX_ROAD_LENGTH,
                i <= bikes@.len(),
                norm_bikes@.len() == i,
                forall|ii: int| 0 <= ii < i ==> #[trigger] norm_bikes@[ii] == norm_bike(
                    bikes@[ii],
                    l as int,
                ),
                forall|ii: int| 0 <= ii < i ==> crate::bike::bike_params_ok(#[trigger] bikes@[ii]),
            decreases bikes@.len() - i,
        {
            let b = bikes[i];
            let ok = 1 <= b.occupation.width && b.occupation.width <= crate::MAX_ROAD_WIDTH && 1
                <= b.occupation.length && b.occupation.length <= crate::MAX_ROAD_LENGTH && 0
                <= b.forward_speed && b.forward_speed <= b.forward_speed_max
                && b.forward_speed_max <= MAX_PARAM && 1 <= b.forward_acceleration
                && b.forward_acceleration <= MAX_PARAM && 0 <= b.rightward_speed_max
                && b.rightward_speed_max <= MAX_PARAM && b.lateral_ignorance <= PROB_ONE
                && b.deceleration_prob <= PROB_ONE;
            if !ok {
                proof {
                    assert(!crate::bike::bike_params_ok(bikes@[i as int]));
                }
                return Err(RoadError::InvalidAgent { vehicle: Vehicle::Bike(i) });
            }
            let nf = euclid_mod(b.occupation.front as i128, l) as isize;
            norm_bikes.push(
                Bike { occupation: RectangleOccupier { front: nf, ..b.occupation }, ..b },
            );
            i = i + 1;
        }
        let mut norm_cars: Vec<Car> = Vec::new();
        let mut j: usize = 0;
        while j < cars.len()
            invariant
                0 < l <= crate::MAX_ROAD_LENGTH,
                0 < w == mlw + blw <= crate::MAX_ROAD_WIDTH,
                j <= cars@.len(),
                norm_cars@.len() == j,
                forall|jj: int| 0 <= jj < j ==> #[trigger] norm_cars@[jj] == norm_car(
                    cars@[jj],
                    l as int,
                ),
                forall|jj: int| 0 <= jj < j ==> crate::car::car_params_ok(#[trigger] cars@[jj]),
            decreases cars@.len() - j,
        {
            let c = cars[j];
            let ok = 0 <= c.speed && c.speed <= c.speed_max && c.speed_max <= MAX_PARAM && 1
                <= c.length && c.length <= crate::MAX_ROAD_LENGTH && 1
                <= c.const_width_hundredths && c.const_width_hundredths <= 100_000
                && c.alpha_hundredths <= 100_000 && -MAX_PARAM <= c.slow_acceleration
                && c.slow_acceleration <= MAX_PARAM && -MAX_PARAM <= c.fast_acceleration
                && c.fast_acceleration <= MAX_PARAM && -MAX_PARAM <= c.max_slow_speed
                && c.max_slow_speed <= MAX_PARAM && c.deceleration_prob <= PROB_ONE;
            if !ok {
                proof {
                    assert(!crate::car::car_params_ok(cars@[j as int]));
                }
                return Err(RoadError::InvalidAgent { vehicle: Vehicle::Car(j) });
            }
            let nf = euclid_mod(c.front as i128, l) as isize;
            norm_cars.push(Car { front: nf, ..c });
            j = j + 1;
        }
        proof {
            assert(norm_bikes@ =~= nbikes_spec);
            assert(norm_cars@ =~= ncars_spec);
            assert forall|jj: int| 0 <= jj < norm_cars@.len() implies crate::car::car_widths_computable(
                #[trigger] norm_cars@[jj],
            ) by {
                assert(crate::car::car_params_ok(cars@[jj]));
            }
        }
        match build_cells(l, mlw, blw, &norm_bikes, &norm_cars) {
            Ok(cells) => {
                let road = Road { bikes: norm_bikes, cars: norm_cars, cells };
                proof {
                    assert(road.wf()) by {
                        assert forall|ii: int| 0 <= ii < road.bikes@.len() implies bike_wf(
                            #[trigger] road.bikes@[ii],
                            road.cells.road_width(),
                            road.cells.road_length(),
                        ) by {
                            assert(road.bikes@[ii] == norm_bike(bikes@[ii], l as int));
                            assert(crate::bike::bike_params_ok(bikes@[ii]));
                            assert(road.bikes@[ii].occupation.placed(mlw + blw, l as int));
                        }
                        assert forall|jj: int| 0 <= jj < road.cars@.len() implies car_wf(
                            #[trigger] road.cars@[jj],
                            road.cells.road_width(),
                            road.cells.road_length(),
                        ) by {
                            assert(road.cars@[jj] == norm_car(cars@[jj], l as int));
                            assert(crate::car::car_params_ok(cars@[jj]));
                            assert(car_rect(road.cars@[jj]).placed(mlw + blw, l as int));
                            crate::car::lemma_car_width_bound(
                                road.cars@[jj],
                                road.cars@[jj].speed as int,
                            );
                            assert(car_rect(road.cars@[jj]).right
                                == crate::car::car_width_at(
                                road.cars@[jj],
                                road.cars@[jj].speed as int,
                            ) - 1);
                            assert(crate::car::car_width_at(
                                road.cars@[jj],
                                road.cars@[jj].speed as int,
                            ) <= mlw + blw);
                        }
                        assert(road.cells.grid@.len() == (mlw + blw) * l);
                    }
                    assert(config_placed(nbikes_spec, ncars_spec, (mlw + blw) as int, l as int))
                        by {
                        assert forall|v: Vehicle| config_valid(nbikes_spec, ncars_spec, v)
                            implies (#[trigger] config_rect(nbikes_spec, ncars_spec, v)).placed(
                            (mlw + blw) as int,
                            l as int,
                        ) by {
                            match v {
                                Vehicle::Bike(ii) => {
                                    assert(road.bikes@[ii as int].occupation.placed(
                                        mlw + blw,
                                        l as int,
                                    ));
                                },
                                Vehicle::Car(jj) => {
                                    assert(car_rect(road.cars@[jj as int]).placed(
                                        mlw + blw,
                                        l as int,
                                    ));
                                },
                            }
                        }
                    }
                    assert(config_disjoint(nbikes_spec, ncars_spec, l as int)) by {
                        assert forall|v1: Vehicle, v2: Vehicle, lat: int, long: int|
                            config_valid(nbikes_spec, ncars_spec, v1) && config_valid(
                                nbikes_spec,
                                ncars_spec,
                                v2,
                            ) && v1 != v2 implies !((#[trigger] config_rect(
                            nbikes_spec,
                            ncars_spec,
                            v1,
                        ).covers(l as int, lat, long)) && (#[trigger] config_rect(
                            nbikes_spec,
                            ncars_spec,
                            v2,
                        ).covers(l as int, lat, long))) by {
                            if config_rect(nbikes_spec, ncars_spec, v1).covers(l as int, lat, long)
                                && config_rect(nbikes_spec, ncars_spec, v2).covers(
                                l as int,
                                lat,
                                long,
                            ) {
                                assert(road.cells.in_range(lat, long)) by {
                                    match v1 {
                                        Vehicle::Bike(ii) => {
                                            assert(road.bikes@[ii as int].occupation.covers(
                                                l as int,
                                                lat,
                                                long,
                                            ));
                                        },
                                        Vehicle::Car(jj) => {
                                            assert(car_rect(road.cars@[jj as int]).covers(
                                                l as int,
                                                lat,
                                                long,
                                            ));
                                        },
                                    }
                                }
                                assert(road.cells.occ(lat, long) == Some(v1));
                                assert(road.cells.occ(lat, long) == Some(v2));
                            }
                        }
                    }
                }
                Ok(road)
            },
            Err(e) => Err(e),
        }
    }
}

} // verus!
