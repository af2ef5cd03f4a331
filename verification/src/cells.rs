//! The occupancy index: a dense grid that maps every cell of the road to the
//! vehicle resting on it, if any, together with the scanners the agents use
//! (forward gap, trailing car, free channel width).

use crate::geometry::{euclid_mod, Coord, RectangleOccupier, Vehicle};
use crate::{RoadError, MAX_ROAD_LENGTH, MAX_ROAD_WIDTH};
use vstd::arithmetic::div_mod::{
    lemma_fundamental_div_mod, lemma_fundamental_div_mod_converse_div,
    lemma_fundamental_div_mod_converse_mod, lemma_mod_multiples_vanish, lemma_small_mod,
};
use vstd::prelude::*;

verus! {

/// The grid.  Cell `(lat, long)` lives at index `long * width + lat` of
/// `grid`; `None` is an empty cell.
#[derive(Debug)]
pub struct RoadCells {
    pub l: usize,
    pub mlw: usize,
    pub blw: usize,
    pub grid: Vec<Option<Vehicle>>,
}

impl RoadCells {
    /// Ring length as a mathematical integer.
    pub open spec fn road_length(&self) -> int {
        self.l as int
    }

    /// Total width (motor lane plus bike lane) as a mathematical integer.
    pub open spec fn road_width(&self) -> int {
        self.mlw + self.blw
    }

    /// Dimensions are in range and the grid has one slot per cell.
    pub open spec fn wf(&self) -> bool {
        &&& 0 < self.l <= MAX_ROAD_LENGTH
        &&& 0 < self.mlw + self.blw <= MAX_ROAD_WIDTH
        &&& self.grid@.len() == self.road_width() * self.road_length()
    }

    /// Whether `(lat, long)` is a cell of the grid.
    pub open spec fn in_range(&self, lat: int, long: int) -> bool {
        0 <= lat < self.road_width() && 0 <= long < self.road_length()
    }

    /// The occupant of cell `(lat, long)`.
    pub open spec fn occ(&self, lat: int, long: int) -> Option<Vehicle> {
        self.grid@[long * self.road_width() + lat]
    }

    /// Some cell covered by `o` holds a vehicle other than `excl`.
    pub open spec fn conflict(&self, o: RectangleOccupier, excl: Option<Vehicle>) -> bool {
        exists|lat: int, long: int|
            self.in_range(lat, long) && #[trigger] o.covers(self.road_length(), lat, long)
                && self.occ(lat, long).is_some() && self.occ(lat, long) != excl
    }
}

/// A cell index is within the grid.
proof fn lemma_idx_bounds(w: int, l: int, lat: int, long: int)
    requires
        0 < w,
        0 < l,
        0 <= lat < w,
        0 <= long < l,
    ensures
        0 <= long * w + lat < w * l,
{
    assert(long * w + lat < w * l) by (nonlinear_arith)
        requires 0 < w && 0 < l && 0 <= lat < w && 0 <= long < l;
    assert(0 <= long * w) by (nonlinear_arith)
        requires 0 <= long && 0 < w;
}

/// Distinct cells have distinct grid indices.
proof fn lemma_idx_inj(w: int, lat1: int, long1: int, lat2: int, long2: int)
    requires
        0 < w,
        0 <= lat1 < w,
        0 <= lat2 < w,
        long1 * w + lat1 == long2 * w + lat2,
    ensures
        lat1 == lat2 && long1 == long2,
{
    let idx = long1 * w + lat1;
    lemma_fundamental_div_mod_converse_mod(idx, w, long1, lat1);
    lemma_fundamental_div_mod_converse_div(idx, w, long1, lat1);
    lemma_fundamental_div_mod_converse_mod(idx, w, long2, lat2);
    lemma_fundamental_div_mod_converse_div(idx, w, long2, lat2);
}

/// Undoing a wrapped subtraction: for `0 <= t < l`, taking `front - t`
/// modulo `l` and subtracting the result from `front` again gives `t` back.
pub proof fn lemma_wrap_sub_inverse(front: int, t: int, l: int)
    requires
        0 < l,
        0 <= t < l,
    ensures
        (front - ((front - t) % l)) % l == t,
{
    let m = (front - t) % l;
    lemma_fundamental_div_mod(front - t, l);
    let q = (front - t) / l;
    assert(front - m == l * q + t);
    lemma_mod_multiples_vanish(q, t, l);
    lemma_small_mod(t as nat, l as nat);
}

/// The cell at offsets `(i, j)` inside rectangle `o`: `i` counts lats from
/// the left edge, `j` counts longs back from the front edge, wrapped.
pub open spec fn rect_cell(o: RectangleOccupier, l: int, i: int, j: int) -> (int, int) {
    (o.left_spec() + i, (o.front - j) % l)
}

/// A covered cell, named by its offsets inside the rectangle.
pub proof fn lemma_covers_param(o: RectangleOccupier, l: int, lat: int, long: int)
    requires
        0 < l,
        0 < o.length <= l,
        0 <= long < l,
    ensures
        o.covers(l, lat, long) <==> exists|i: int, j: int|
            0 <= i < o.width && 0 <= j < o.length && (lat, long) == #[trigger] rect_cell(
                o,
                l,
                i,
                j,
            ),
{
    vstd::arithmetic::div_mod::lemma_mod_division_less_than_divisor(o.front - long, l);
    if o.covers(l, lat, long) {
        let i = lat - o.left_spec();
        let j = (o.front - long) % l;
        lemma_wrap_sub_inverse(o.front as int, j, l);
        assert(long == (o.front - j) % l) by {
            lemma_fundamental_div_mod(o.front - long, l);
            let q = (o.front - long) / l;
            assert(o.front - j == l * q + long);
            lemma_mod_multiples_vanish(q, long, l);
            lemma_small_mod(long as nat, l as nat);
        }
        assert(0 <= i < o.width && 0 <= j < o.length && (lat, long) == rect_cell(o, l, i, j));
    }
    if exists|i: int, j: int|
        0 <= i < o.width && 0 <= j < o.length && (lat, long) == #[trigger] rect_cell(o, l, i, j) {
        let (i, j) = choose|i: int, j: int|
            0 <= i < o.width && 0 <= j < o.length && (lat, long) == #[trigger] rect_cell(
                o,
                l,
                i,
                j,
            );
        vstd::arithmetic::div_mod::lemma_mod_division_less_than_divisor(o.front - j, l);
        lemma_wrap_sub_inverse(o.front as int, j, l);
        assert((o.front - long) % l == j);
    }
}

/// Stepping a wrapped counter up by one.
proof fn lemma_mod_step_up(x: int, l: int)
    requires
        0 < l,
    ensures
        (x + 1) % l == if (x % l) + 1 == l {
            0int
        } else {
            (x % l) + 1
        },
{
    lemma_fundamental_div_mod(x, l);
    let q = x / l;
    vstd::arithmetic::div_mod::lemma_mod_division_less_than_divisor(x, l);
    if (x % l) + 1 == l {
        assert(x + 1 == (q + 1) * l + 0) by (nonlinear_arith)
            requires x == l * q + (x % l) && (x % l) + 1 == l;
        lemma_fundamental_div_mod_converse_mod(x + 1, l, q + 1, 0);
    } else {
        assert(x + 1 == q * l + ((x % l) + 1)) by (nonlinear_arith)
            requires x == l * q + (x % l);
        lemma_fundamental_div_mod_converse_mod(x + 1, l, q, (x % l) + 1);
    }
}

/// Stepping a wrapped counter down by one.
proof fn lemma_mod_step_down(x: int, l: int)
    requires
        0 < l,
    ensures
        (x - 1) % l == if x % l == 0 {
            l - 1
        } else {
            (x % l) - 1
        },
{
    lemma_fundamental_div_mod(x, l);
    let q = x / l;
    vstd::arithmetic::div_mod::lemma_mod_division_less_than_divisor(x, l);
    if x % l == 0 {
        assert(x - 1 == (q - 1) * l + (l - 1)) by (nonlinear_arith)
            requires x == l * q + (x % l) && x % l == 0;
        lemma_fundamental_div_mod_converse_mod(x - 1, l, q - 1, l - 1);
    } else {
        assert(x - 1 == q * l + ((x % l) - 1)) by (nonlinear_arith)
            requires x == l * q + (x % l);
        lemma_fundamental_div_mod_converse_mod(x - 1, l, q, (x % l) - 1);
    }
}

impl RoadCells {
    /// The total width of the road: motor lane plus bike lane.
    pub fn total_width(&self) -> (r: usize)
        requires
            self.wf(),
        ensures
            r == self.road_width(),
    {
        self.mlw + self.blw
    }

    /// An all-empty grid with the given dimensions.
    pub fn empty(l: usize, mlw: usize, blw: usize) -> (r: RoadCells)
        requires
            0 < l <= MAX_ROAD_LENGTH,
            0 < mlw + blw <= MAX_ROAD_WIDTH,
        ensures
            r.wf(),
            r.l == l && r.mlw == mlw && r.blw == blw,
            forall|lat: int, long: int| r.in_range(lat, long) ==> r.occ(lat, long) == None::<Vehicle>,
    {
        let w = mlw + blw;
        proof {
            assert(w * l <= MAX_ROAD_WIDTH * MAX_ROAD_LENGTH) by (nonlinear_arith)
                requires 0 < w <= MAX_ROAD_WIDTH && 0 < l <= MAX_ROAD_LENGTH;
        }
        let n = w * l;
        let mut grid: Vec<Option<Vehicle>> = Vec::new();
        let mut k: usize = 0;
        while k < n
            invariant
                k <= n,
                grid@.len() == k,
                forall|i: int| 0 <= i < k ==> grid@[i] == None::<Vehicle>,
            decreases n - k,
        {
            grid.push(None);
            k = k + 1;
        }
        let r = RoadCells { l, mlw, blw, grid };
        proof {
            assert forall|lat: int, long: int| r.in_range(lat, long)
                implies r.occ(lat, long) == None::<Vehicle> by {
                lemma_idx_bounds(r.road_width(), r.road_length(), lat, long);
            }
        }
        r
    }

    /// Index of cell `(lat, long)` in the grid vector.
    fn cell_index(&self, lat: usize, long: usize) -> (i: usize)
        requires
            self.wf(),
            lat < self.road_width(),
            long < self.road_length(),
        ensures
            i == long * self.road_width() + lat,
            i < self.grid@.len(),
    {
        proof {
            lemma_idx_bounds(self.road_width(), self.road_length(), lat as int, long as int);
            assert(self.road_width() * self.road_length() <= MAX_ROAD_WIDTH * MAX_ROAD_LENGTH)
                by (nonlinear_arith)
                requires
                    0 < self.road_width() <= MAX_ROAD_WIDTH
                        && 0 < self.road_length() <= MAX_ROAD_LENGTH;
        }
        long * (self.mlw + self.blw) + lat
    }

    /// The occupant of an in-range cell.
    pub fn get_cell(&self, lat: usize, long: usize) -> (r: Option<Vehicle>)
        requires
            self.wf(),
            lat < self.road_width(),
            long < self.road_length(),
        ensures
            r == self.occ(lat as int, long as int),
    {
        let i = self.cell_index(lat, long);
        self.grid[i]
    }

    /// Overwrite one in-range cell.
    fn set_cell(&mut self, lat: usize, long: usize, v: Option<Vehicle>)
        requires
            old(self).wf(),
            lat < old(self).road_width(),
            long < old(self).road_length(),
        ensures
            final(self).wf(),
            final(self).l == old(self).l,
            final(self).mlw == old(self).mlw,
            final(self).blw == old(self).blw,
            final(self).occ(lat as int, long as int) == v,
            forall|a: int, b: int| old(self).in_range(a, b) && !(a == lat && b == long)
                ==> final(self).occ(a, b) == old(self).occ(a, b),
    {
        let i = self.cell_index(lat, long);
        self.grid[i] = v;
        proof {
            assert forall|a: int, b: int| old(self).in_range(a, b) && !(a == lat && b == long)
                implies self.occ(a, b) == old(self).occ(a, b) by {
                lemma_idx_bounds(self.road_width(), self.road_length(), a, b);
                if b * self.road_width() + a == long * self.road_width() + lat {
                    lemma_idx_inj(self.road_width(), a, b, lat as int, long as int);
                }
            }
        }
    }

    /// Check that a coordinate's lat is on the road, and wrap its long.
    pub fn validate_coord(&self, coord: Coord) -> (r: Result<Coord, RoadError>)
        requires
            self.wf(),
        ensures
            match r {
                Ok(c) => {
                    &&& 0 <= coord.lat < self.road_width()
                    &&& c.lat == coord.lat
                    &&& c.long == (coord.long as int) % self.road_length()
                    &&& 0 <= c.long < self.road_length()
                },
                Err(e) => {
                    &&& !(0 <= coord.lat < self.road_width())
                    &&& e == (if coord.lat < 0 {
                        RoadError::LatBelowZero
                    } else {
                        RoadError::LatAboveWidth
                    })
                },
            },
    {
        if coord.lat < 0 {
            Err(RoadError::LatBelowZero)
        } else if coord.lat as usize >= self.mlw + self.blw {
            Err(RoadError::LatAboveWidth)
        } else {
            let long = euclid_mod(coord.long as i128, self.l);
            Ok(Coord { lat: coord.lat, long: long as isize })
        }
    }

    /// The occupant at a coordinate, the long taken modulo the road length;
    /// an error when the lat is off the road.
    pub fn get(&self, coord: &Coord) -> (r: Result<Option<Vehicle>, RoadError>)
        requires
            self.wf(),
        ensures
            match r {
                Ok(v) => 0 <= coord.lat < self.road_width() && v == self.occ(
                    coord.lat as int,
                    (coord.long as int) % self.road_length(),
                ),
                Err(e) => {
                    &&& !(0 <= coord.lat < self.road_width())
                    &&& e == (if coord.lat < 0 {
                        RoadError::LatBelowZero
                    } else {
                        RoadError::LatAboveWidth
                    })
                },
            },
    {
        match self.validate_coord(*coord) {
            Ok(c) => Ok(self.get_cell(c.lat as usize, c.long as usize)),
            Err(e) => Err(e),
        }
    }

    /// Place a vehicle on one cell; an error when the lat is off the road or
    /// the cell is already taken.
    pub fn insert(&mut self, coord: Coord, vehicle: Vehicle) -> (r: Result<(), RoadError>)
        requires
            old(self).wf(),
        ensures
            final(self).wf(),
            final(self).l == old(self).l,
            final(self).mlw == old(self).mlw,
            final(self).blw == old(self).blw,
            ({
                let lat = coord.lat as int;
                let long = (coord.long as int) % old(self).road_length();
                match r {
                    Ok(()) => {
                        &&& 0 <= lat < old(self).road_width()
                        &&& old(self).occ(lat, long) == None::<Vehicle>
                        &&& final(self).occ(lat, long) == Some(vehicle)
                        &&& forall|a: int, b: int|
                            old(self).in_range(a, b) && !(a == lat && b == long)
                                ==> final(self).occ(a, b) == old(self).occ(a, b)
                    },
                    Err(_) => {
                        &&& *final(self) == *old(self)
                        &&& !(0 <= lat < old(self).road_width()) || old(self).occ(
                            lat,
                            long,
                        ).is_some()
                    },
                }
            }),
    {
        match self.validate_coord(coord) {
            Ok(c) => {
                match self.get_cell(c.lat as usize, c.long as usize) {
                    Some(found) => Err(
                        RoadError::Collision { moving: vehicle, found, at: c },
                    ),
                    None => {
                        self.set_cell(c.lat as usize, c.long as usize, Some(vehicle));
                        Ok(())
                    },
                }
            },
            Err(e) => Err(e),
        }
    }

    /// Clear one cell and hand back its previous occupant; an error when the
    /// lat is off the road.
    pub fn remove(&mut self, coord: Coord) -> (r: Result<Option<Vehicle>, RoadError>)
        requires
            old(self).wf(),
        ensures
            final(self).wf(),
            final(self).l == old(self).l,
            final(self).mlw == old(self).mlw,
            final(self).blw == old(self).blw,
            ({
                let lat = coord.lat as int;
                let long = (coord.long as int) % old(self).road_length();
                match r {
                    Ok(prior) => {
                        &&& 0 <= lat < old(self).road_width()
                        &&& prior == old(self).occ(lat, long)
                        &&& final(self).occ(lat, long) == None::<Vehicle>
                        &&& forall|a: int, b: int|
                            old(self).in_range(a, b) && !(a == lat && b == long)
                                ==> final(self).occ(a, b) == old(self).occ(a, b)
                    },
                    Err(_) => *final(self) == *old(self) && !(0 <= lat < old(
                        self,
                    ).road_width()),
                }
            }),
    {
        match self.validate_coord(coord) {
            Ok(c) => {
                let prior = self.get_cell(c.lat as usize, c.long as usize);
                self.set_cell(c.lat as usize, c.long as usize, None);
                Ok(prior)
            },
            Err(e) => Err(e),
        }
    }
}

/// The cells of `o` visited by a row-major scan that has finished the rows
/// before `di` and, in row `di`, the offsets before `dj`.
pub open spec fn rect_prefix(
    o: RectangleOccupier,
    l: int,
    di: int,
    dj: int,
    lat: int,
    long: int,
) -> bool {
    exists|i: int, j: int|
        0 <= i < o.width && 0 <= j < o.length && (i < di || (i == di && j < dj)) && (lat, long)
            == #[trigger] rect_cell(o, l, i, j)
}

impl RoadCells {
    /// Write `v` over every cell covered by `o`, leaving the rest alone.
    pub(crate) fn set_rect(&mut self, o: &RectangleOccupier, v: Option<Vehicle>)
        requires
            old(self).wf(),
            o.on_lats(old(self).road_width()),
            0 < o.width,
            0 < o.length <= old(self).road_length(),
        ensures
            final(self).wf(),
            final(self).l == old(self).l,
            final(self).mlw == old(self).mlw,
            final(self).blw == old(self).blw,
            forall|lat: int, long: int| old(self).in_range(lat, long)
                ==> final(self).occ(lat, long) == (if o.covers(
                    old(self).road_length(),
                    lat,
                    long,
                ) {
                    v
                } else {
                    old(self).occ(lat, long)
                }),
    {
        let ghost l = self.road_length();
        let ghost pre = *self;
        let left: usize = ((o.right + 1) - o.width as isize) as usize;
        let mut di: usize = 0;
        while di < o.width
            invariant
                self.wf(),
                self.l == pre.l && self.mlw == pre.mlw && self.blw == pre.blw,
                self.grid@.len() == pre.grid@.len(),
                l == pre.road_length(),
                o.on_lats(pre.road_width()),
                0 < o.width,
                0 < o.length <= l,
                left == o.left_spec(),
                di <= o.width,
                forall|lat: int, long: int| pre.in_range(lat, long) ==> self.occ(lat, long) == (
                if rect_prefix(*o, l, di as int, 0, lat, long) {
                    v
                } else {
                    pre.occ(lat, long)
                }),
            decreases o.width - di,
        {
            let lat = left + di;
            let mut dj: usize = 0;
            while dj < o.length
                invariant
                    self.wf(),
                    self.l == pre.l && self.mlw == pre.mlw && self.blw == pre.blw,
                    self.grid@.len() == pre.grid@.len(),
                    l == pre.road_length(),
                    o.on_lats(pre.road_width()),
                    0 < o.width,
                    0 < o.length <= l,
                    left == o.left_spec(),
                    di < o.width,
                    lat == left + di,
                    dj <= o.length,
                    forall|a: int, b: int| pre.in_range(a, b) ==> self.occ(a, b) == (
                    if rect_prefix(*o, l, di as int, dj as int, a, b) {
                        v
                    } else {
                        pre.occ(a, b)
                    }),
                decreases o.length - dj,
            {
                let long = euclid_mod(o.front as i128 - dj as i128, self.l);
                proof {
                    assert((lat as int, long as int) == rect_cell(*o, l, di as int, dj as int));
                }
                let ghost mid = *self;
                self.set_cell(lat, long, v);
                proof {
                    assert forall|a: int, b: int| pre.in_range(a, b) implies self.occ(a, b) == (
                    if rect_prefix(*o, l, di as int, dj as int + 1, a, b) {
                        v
                    } else {
                        pre.occ(a, b)
                    }) by {
                        if a == lat as int && b == long as int {
                            assert(rect_prefix(*o, l, di as int, dj as int + 1, a, b));
                        } else {
                            assert(self.occ(a, b) == mid.occ(a, b));
                            if rect_prefix(*o, l, di as int, dj as int + 1, a, b) {
                                let (i, j) = choose|i: int, j: int|
                                    0 <= i < o.width && 0 <= j < o.length && (i < di as int || (i
                                        == di as int && j < dj as int + 1)) && (a, b)
                                        == #[trigger] rect_cell(*o, l, i, j);
                                if i == di as int && j == dj as int {
                                    assert(false);
                                } else {
                                    assert(rect_prefix(*o, l, di as int, dj as int, a, b));
                                }
                            } else {
                                assert(!rect_prefix(*o, l, di as int, dj as int, a, b)) by {
                                    if rect_prefix(*o, l, di as int, dj as int, a, b) {
                                        let (i, j) = choose|i: int, j: int|
                                            0 <= i < o.width && 0 <= j < o.length && (i < di as int
                                                || (i == di as int && j < dj as int)) && (a, b)
                                                == #[trigger] rect_cell(*o, l, i, j);
                                        assert((a, b) == rect_cell(*o, l, i, j));
                                    }
                                }
                            }
                        }
                    }
                }
                dj = dj + 1;
            }
            di = di + 1;
            proof {
                assert forall|a: int, b: int| pre.in_range(a, b) implies self.occ(a, b) == (
                if rect_prefix(*o, l, di as int, 0, a, b) {
                    v
                } else {
                    pre.occ(a, b)
                }) by {
                    assert(rect_prefix(*o, l, di as int, 0, a, b) <==> rect_prefix(
                        *o,
                        l,
                        di as int - 1,
                        o.length as int,
                        a,
                        b,
                    )) by {
                        if rect_prefix(*o, l, di as int, 0, a, b) {
                            let (i, j) = choose|i: int, j: int|
                                0 <= i < o.width && 0 <= j < o.length && (i < di as int || (i == di
                                    as int && j < 0)) && (a, b) == #[trigger] rect_cell(*o, l, i, j);
                            assert(i < di as int - 1 || (i == di as int - 1 && j < o.length as int));
                            assert((a, b) == rect_cell(*o, l, i, j));
                        }
                        if rect_prefix(*o, l, di as int - 1, o.length as int, a, b) {
                            let (i, j) = choose|i: int, j: int|
                                0 <= i < o.width && 0 <= j < o.length && (i < di as int - 1 || (i
                                    == di as int - 1 && j < o.length as int)) && (a, b)
                                    == #[trigger] rect_cell(*o, l, i, j);
                            assert(i < di as int);
                            assert((a, b) == rect_cell(*o, l, i, j));
                        }
                    }
                }
            }
        }
        proof {
            assert forall|lat: int, long: int| pre.in_range(lat, long) implies self.occ(lat, long)
                == (if o.covers(l, lat, long) {
                v
            } else {
                pre.occ(lat, long)
            }) by {
                lemma_covers_param(*o, l, lat, long);
                assert(rect_prefix(*o, l, o.width as int, 0, lat, long) <==> o.covers(
                    l,
                    lat,
                    long,
                )) by {
                    if rect_prefix(*o, l, o.width as int, 0, lat, long) {
                        let (i, j) = choose|i: int, j: int|
                            0 <= i < o.width && 0 <= j < o.length && (i < o.width as int || (i
                                == o.width as int && j < 0)) && (lat, long) == #[trigger] rect_cell(
                                *o,
                                l,
                                i,
                                j,
                            );
                        assert((lat, long) == rect_cell(*o, l, i, j));
                    }
                    if o.covers(l, lat, long) {
                        let (i, j) = choose|i: int, j: int|
                            0 <= i < o.width && 0 <= j < o.length && (lat, long)
                                == #[trigger] rect_cell(*o, l, i, j);
                        assert((lat, long) == rect_cell(*o, l, i, j));
                    }
                }
            }
        }
    }

    /// Whether some cell covered by `o` holds a vehicle other than `excl`
    /// (`excl == None` counts every occupant as a conflict).
    pub(crate) fn scan_conflict(&self, o: &RectangleOccupier, excl: Option<Vehicle>) -> (r: bool)
        requires
            self.wf(),
            o.on_lats(self.road_width()),
            0 < o.width,
            0 < o.length <= self.road_length(),
        ensures
            r == self.conflict(*o, excl),
    {
        self.find_conflict(o, excl).is_some()
    }

    /// Find a cell covered by `o` holding a vehicle other than `excl`, and
    /// say who and where; `None` exactly when there is no such conflict.
    pub(crate) fn find_conflict(&self, o: &RectangleOccupier, excl: Option<Vehicle>) -> (r:
        Option<(Coord, Vehicle)>)
        requires
            self.wf(),
            o.on_lats(self.road_width()),
            0 < o.width,
            0 < o.length <= self.road_length(),
        ensures
            r.is_some() == self.conflict(*o, excl),
            match r {
                Some(pair) => self.in_range(pair.0.lat as int, pair.0.long as int) && o.covers(
                    self.road_length(),
                    pair.0.lat as int,
                    pair.0.long as int,
                ) && self.occ(pair.0.lat as int, pair.0.long as int) == Some(pair.1) && Some(
                    pair.1,
                ) != excl,
                None => true,
            },
    {
        let ghost l = self.road_length();
        let left: usize = ((o.right + 1) - o.width as isize) as usize;
        let mut di: usize = 0;
        while di < o.width
            invariant
                self.wf(),
                l == self.road_length(),
                o.on_lats(self.road_width()),
                0 < o.width,
                0 < o.length <= l,
                left == o.left_spec(),
                di <= o.width,
                forall|a: int, b: int| rect_prefix(*o, l, di as int, 0, a, b) && self.in_range(a, b)
                    ==> #[trigger] self.occ(a, b) == None::<Vehicle> || self.occ(a, b) == excl,
            decreases o.width - di,
        {
            let lat = left + di;
            let mut dj: usize = 0;
            while dj < o.length
                invariant
                    self.wf(),
                    l == self.road_length(),
                    o.on_lats(self.road_width()),
                    0 < o.width,
                    0 < o.length <= l,
                    left == o.left_spec(),
                    di < o.width,
                    lat == left + di,
                    dj <= o.length,
                    forall|a: int, b: int|
                        rect_prefix(*o, l, di as int, dj as int, a, b) && self.in_range(a, b)
                            ==> #[trigger] self.occ(a, b) == None::<Vehicle> || self.occ(a, b)
                            == excl,
                decreases o.length - dj,
            {
                let long = euclid_mod(o.front as i128 - dj as i128, self.l);
                proof {
                    assert((lat as int, long as int) == rect_cell(*o, l, di as int, dj as int));
                    lemma_wrap_sub_inverse(o.front as int, dj as int, l);
                }
                let here = self.get_cell(lat, long);
                let hit = match here {
                    Some(found) => match excl {
                        Some(me) => found != me,
                        None => true,
                    },
                    None => false,
                };
                if hit {
                    proof {
                        assert(o.covers(l, lat as int, long as int));
                        assert(self.conflict(*o, excl));
                    }
                    match here {
                        Some(found) => {
                            return Some((Coord { lat: lat as isize, long: long as isize }, found));
                        },
                        None => {},
                    }
                }
                proof {
                    assert forall|a: int, b: int|
                        rect_prefix(*o, l, di as int, dj as int + 1, a, b) && self.in_range(a, b)
                        implies #[trigger] self.occ(a, b) == None::<Vehicle> || self.occ(a, b)
                        == excl by {
                        let (i, j) = choose|i: int, j: int|
                            0 <= i < o.width && 0 <= j < o.length && (i < di as int || (i == di
                                as int && j < dj as int + 1)) && (a, b) == #[trigger] rect_cell(
                                *o,
                                l,
                                i,
                                j,
                            );
                        if i == di as int && j == dj as int {
                            assert((a, b) == (lat as int, long as int));
                        } else {
                            assert(rect_prefix(*o, l, di as int, dj as int, a, b));
                        }
                    }
                }
                dj = dj + 1;
            }
            di = di + 1;
            proof {
                assert forall|a: int, b: int|
                    rect_prefix(*o, l, di as int, 0, a, b) && self.in_range(a, b)
                    implies #[trigger] self.occ(a, b) == None::<Vehicle> || self.occ(a, b)
                    == excl by {
                    let (i, j) = choose|i: int, j: int|
                        0 <= i < o.width && 0 <= j < o.length && (i < di as int || (i == di as int
                            && j < 0)) && (a, b) == #[trigger] rect_cell(*o, l, i, j);
                    assert(rect_prefix(*o, l, di as int - 1, o.length as int, a, b));
                }
            }
        }
        proof {
            if self.conflict(*o, excl) {
                let (lat, long) = choose|lat: int, long: int|
                    self.in_range(lat, long) && #[trigger] o.covers(l, lat, long) && self.occ(
                        lat,
                        long,
                    ).is_some() && self.occ(lat, long) != excl;
                lemma_covers_param(*o, l, lat, long);
                let (i, j) = choose|i: int, j: int|
                    0 <= i < o.width && 0 <= j < o.length && (lat, long) == #[trigger] rect_cell(
                        *o,
                        l,
                        i,
                        j,
                    );
                assert(rect_prefix(*o, l, o.width as int, 0, lat, long));
            }
        }
        None
    }

    /// Every occupant found on a cell covered by `o`, one entry per occupied
    /// cell, scanning lats left to right and longs front backward.
    pub(crate) fn occupants_of(&self, o: &RectangleOccupier) -> (r: Vec<Vehicle>)
        requires
            self.wf(),
            o.on_lats(self.road_width()),
            0 < o.width,
            0 < o.length <= self.road_length(),
        ensures
            forall|v: Vehicle| r@.contains(v) <==> exists|lat: int, long: int|
                self.in_range(lat, long) && #[trigger] o.covers(self.road_length(), lat, long)
                    && self.occ(lat, long) == Some(v),
    {
        let ghost l = self.road_length();
        let left: usize = ((o.right + 1) - o.width as isize) as usize;
        let mut out: Vec<Vehicle> = Vec::new();
        let mut di: usize = 0;
        while di < o.width
            invariant
                self.wf(),
                l == self.road_length(),
                o.on_lats(self.road_width()),
                0 < o.width,
                0 < o.length <= l,
                left == o.left_spec(),
                di <= o.width,
                forall|v: Vehicle| out@.contains(v) <==> exists|a: int, b: int|
                    #[trigger] rect_prefix(*o, l, di as int, 0, a, b) && self.in_range(a, b)
                        && self.occ(a, b) == Some(v),
            decreases o.width - di,
        {
            let lat = left + di;
            let mut dj: usize = 0;
            while dj < o.length
                invariant
                    self.wf(),
                    l == self.road_length(),
                    o.on_lats(self.road_width()),
                    0 < o.width,
                    0 < o.length <= l,
                    left == o.left_spec(),
                    di < o.width,
                    lat == left + di,
                    dj <= o.length,
                    forall|v: Vehicle| out@.contains(v) <==> exists|a: int, b: int|
                        #[trigger] rect_prefix(*o, l, di as int, dj as int, a, b) && self.in_range(
                            a,
                            b,
                        ) && self.occ(a, b) == Some(v),
                decreases o.length - dj,
            {
                let long = euclid_mod(o.front as i128 - dj as i128, self.l);
                proof {
                    assert((lat as int, long as int) == rect_cell(*o, l, di as int, dj as int));
                }
                let ghost out_pre = out@;
                let here = self.get_cell(lat, long);
                match here {
                    Some(found) => { out.push(found) },
                    None => {},
                }
                proof {
                    assert forall|v: Vehicle| out@.contains(v) <==> exists|a: int, b: int|
                        #[trigger] rect_prefix(*o, l, di as int, dj as int + 1, a, b)
                            && self.in_range(a, b) && self.occ(a, b) == Some(v) by {
                        if out@.contains(v) {
                            let k = choose|k: int| 0 <= k < out@.len() && out@[k] == v;
                            if k < out_pre.len() {
                                assert(out_pre.contains(v));
                                let (a, b) = choose|a: int, b: int|
                                    #[trigger] rect_prefix(*o, l, di as int, dj as int, a, b)
                                        && self.in_range(a, b) && self.occ(a, b) == Some(v);
                                assert(rect_prefix(*o, l, di as int, dj as int + 1, a, b)) by {
                                    let (i, j) = choose|i: int, j: int|
                                        0 <= i < o.width && 0 <= j < o.length && (i < di as int || (
                                        i == di as int && j < dj as int)) && (a, b)
                                            == #[trigger] rect_cell(*o, l, i, j);
                                    assert((a, b) == rect_cell(*o, l, i, j));
                                }
                            } else {
                                assert(self.occ(lat as int, long as int) == Some(v));
                                assert(rect_prefix(
                                    *o,
                                    l,
                                    di as int,
                                    dj as int + 1,
                                    lat as int,
                                    long as int,
                                ));
                            }
                        }
                        if exists|a: int, b: int|
                            #[trigger] rect_prefix(*o, l, di as int, dj as int + 1, a, b)
                                && self.in_range(a, b) && self.occ(a, b) == Some(v) {
                            let (a, b) = choose|a: int, b: int|
                                #[trigger] rect_prefix(*o, l, di as int, dj as int + 1, a, b)
                                    && self.in_range(a, b) && self.occ(a, b) == Some(v);
                            let (i, j) = choose|i: int, j: int|
                                0 <= i < o.width && 0 <= j < o.length && (i < di as int || (i == di
                                    as int && j < dj as int + 1)) && (a, b) == #[trigger] rect_cell(
                                    *o,
                                    l,
                                    i,
                                    j,
                                );
                            if i == di as int && j == dj as int {
                                assert((a, b) == (lat as int, long as int));
                                assert(out@[out@.len() - 1] == v);
                            } else {
                                assert(rect_prefix(*o, l, di as int, dj as int, a, b));
                                assert(out_pre.contains(v));
                                let k = choose|k: int| 0 <= k < out_pre.len() && out_pre[k] == v;
                                assert(out@[k] == v);
                            }
                        }
                    }
                }
                dj = dj + 1;
            }
            di = di + 1;
            proof {
                assert forall|v: Vehicle| out@.contains(v) <==> exists|a: int, b: int|
                    #[trigger] rect_prefix(*o, l, di as int, 0, a, b) && self.in_range(a, b)
                        && self.occ(a, b) == Some(v) by {
                    if out@.contains(v) {
                        let (a, b) = choose|a: int, b: int|
                            #[trigger] rect_prefix(*o, l, di as int - 1, o.length as int, a, b)
                                && self.in_range(a, b) && self.occ(a, b) == Some(v);
                        let (i, j) = choose|i: int, j: int|
                            0 <= i < o.width && 0 <= j < o.length && (i < di as int - 1 || (i == di
                                as int - 1 && j < o.length as int)) && (a, b)
                                == #[trigger] rect_cell(*o, l, i, j);
                        assert((a, b) == rect_cell(*o, l, i, j));
                        assert(rect_prefix(*o, l, di as int, 0, a, b));
                    }
                    if exists|a: int, b: int|
                        #[trigger] rect_prefix(*o, l, di as int, 0, a, b) && self.in_range(a, b)
                            && self.occ(a, b) == Some(v) {
                        let (a, b) = choose|a: int, b: int|
                            #[trigger] rect_prefix(*o, l, di as int, 0, a, b) && self.in_range(a, b)
                                && self.occ(a, b) == Some(v);
                        let (i, j) = choose|i: int, j: int|
                            0 <= i < o.width && 0 <= j < o.length && (i < di as int || (i == di
                                as int && j < 0)) && (a, b) == #[trigger] rect_cell(*o, l, i, j);
                        assert(rect_prefix(*o, l, di as int - 1, o.length as int, a, b));
                    }
                }
            }
        }
        proof {
            assert forall|v: Vehicle| out@.contains(v) <==> exists|lat: int, long: int|
                self.in_range(lat, long) && #[trigger] o.covers(l, lat, long) && self.occ(lat, long)
                    == Some(v) by {
                if out@.contains(v) {
                    let (a, b) = choose|a: int, b: int|
                        #[trigger] rect_prefix(*o, l, o.width as int, 0, a, b) && self.in_range(
                            a,
                            b,
                        ) && self.occ(a, b) == Some(v);
                    lemma_covers_param(*o, l, a, b);
                    let (i, j) = choose|i: int, j: int|
                        0 <= i < o.width && 0 <= j < o.length && (i < o.width as int || (i
                            == o.width as int && j < 0)) && (a, b) == #[trigger] rect_cell(
                            *o,
                            l,
                            i,
                            j,
                        );
                    assert((a, b) == rect_cell(*o, l, i, j));
                    assert(o.covers(l, a, b));
                }
                if exists|lat: int, long: int|
                    self.in_range(lat, long) && #[trigger] o.covers(l, lat, long) && self.occ(
                        lat,
                        long,
                    ) == Some(v) {
                    let (a, b) = choose|a: int, b: int|
                        self.in_range(a, b) && #[trigger] o.covers(l, a, b) && self.occ(a, b)
                            == Some(v);
                    lemma_covers_param(*o, l, a, b);
                    let (i, j) = choose|i: int, j: int|
                        0 <= i < o.width && 0 <= j < o.length && (a, b) == #[trigger] rect_cell(
                            *o,
                            l,
                            i,
                            j,
                        );
                    assert(rect_prefix(*o, l, o.width as int, 0, a, b));
                }
            }
        }
        out
    }
}

/// How far a bounded scan looks: the given bound, or the ring length.
pub open spec fn search_limit(maybe_max: Option<usize>, l: usize) -> int {
    match maybe_max {
        Some(m) => m as int,
        None => l as int,
    }
}

impl RoadCells {
    /// The scan behind `front_gap`, already `d` cells ahead: the number of
    /// free cells strictly ahead of `long0` in column `lat`, capped at `max`.
    pub open spec fn col_gap_from(&self, lat: int, long0: int, d: int, max: int) -> int
        decreases max - d,
    {
        if d >= max {
            max
        } else if self.occ(lat, (long0 + d) % self.road_length()).is_some() {
            d - 1
        } else {
            self.col_gap_from(lat, long0, d + 1, max)
        }
    }

    /// The number of free cells strictly ahead of `(lat, long)` in its
    /// column, capped at `max`: `max` when no occupied cell is found.
    pub open spec fn col_gap(&self, lat: int, long: int, max: int) -> int {
        self.col_gap_from(lat, long % self.road_length(), 1, max)
    }

    /// A column gap always lies between zero and the search cap.
    pub proof fn lemma_col_gap_from_bounds(&self, lat: int, long0: int, d: int, max: int)
        requires
            1 <= d,
            0 <= max,
        ensures
            0 <= self.col_gap_from(lat, long0, d, max) <= max,
        decreases max - d,
    {
        if d >= max {
        } else if self.occ(lat, (long0 + d) % self.road_length()).is_some() {
        } else {
            self.lemma_col_gap_from_bounds(lat, long0, d + 1, max);
        }
    }

    /// Count the empty cells strictly ahead of `coord` in its lat column, up
    /// to `maybe_max` (the road length when absent); that cap is returned
    /// when every scanned cell is free.  The long wraps around the ring.
    pub fn front_gap(&self, coord: &Coord, maybe_max: Option<usize>) -> (r: usize)
        requires
            self.wf(),
            0 <= coord.lat < self.road_width(),
        ensures
            r == self.col_gap(coord.lat as int, coord.long as int, search_limit(maybe_max, self.l)),
    {
        let lat = coord.lat as usize;
        let long0 = euclid_mod(coord.long as i128, self.l);
        let max = match maybe_max {
            Some(m) => m,
            None => self.l,
        };
        if max == 0 {
            return 0;
        }
        let mut d: usize = 1;
        let mut cur: usize = if long0 + 1 == self.l {
            0
        } else {
            long0 + 1
        };
        proof {
            lemma_small_mod(long0 as nat, self.l as nat);
            lemma_mod_step_up(long0 as int, self.road_length());
        }
        while d < max
            invariant
                self.wf(),
                lat == coord.lat,
                lat < self.road_width(),
                long0 == (coord.long as int) % self.road_length(),
                max as int == search_limit(maybe_max, self.l),
                0 < max,
                1 <= d <= max,
                cur == (long0 + d) % self.road_length(),
                cur < self.l,
                self.col_gap_from(lat as int, long0 as int, 1, max as int) == self.col_gap_from(
                    lat as int,
                    long0 as int,
                    d as int,
                    max as int,
                ),
            decreases max - d,
        {
            if self.get_cell(lat, cur).is_some() {
                proof {
                    assert(self.col_gap_from(lat as int, long0 as int, d as int, max as int) == d
                        - 1);
                }
                return d - 1;
            }
            proof {
                lemma_mod_step_up(long0 + d, self.road_length());
            }
            cur = if cur + 1 == self.l {
                0
            } else {
                cur + 1
            };
            d = d + 1;
        }
        max
    }

    /// The scan behind `first_car_back`, already `d` cells behind: the first
    /// car found scanning backward; empty cells and bikes are passed over.
    pub open spec fn car_back_from(&self, lat: int, long0: int, d: int, max: int) -> Option<usize>
        decreases max - d,
    {
        if d >= max {
            None
        } else {
            match self.occ(lat, (long0 - d) % self.road_length()) {
                Some(Vehicle::Car(id)) => Some(id),
                _ => self.car_back_from(lat, long0, d + 1, max),
            }
        }
    }

    /// The first car strictly behind `(lat, long)` in its column within
    /// `max` cells, passing over bikes and empty cells.
    pub open spec fn car_back(&self, lat: int, long: int, max: int) -> Option<usize> {
        self.car_back_from(lat, long % self.road_length(), 1, max)
    }

    /// Scan the cells strictly behind `coord` in its lat column, wrapping,
    /// up to `maybe_max` cells (the road length when absent); the first car
    /// found is returned, and bikes do not stop the scan.
    pub fn first_car_back(&self, coord: &Coord, maybe_max: Option<usize>) -> (r: Option<usize>)
        requires
            self.wf(),
            0 <= coord.lat < self.road_width(),
        ensures
            r == self.car_back(coord.lat as int, coord.long as int, search_limit(maybe_max, self.l)),
    {
        let lat = coord.lat as usize;
        let long0 = euclid_mod(coord.long as i128, self.l);
        let max = match maybe_max {
            Some(m) => m,
            None => self.l,
        };
        if max == 0 {
            return None;
        }
        let mut d: usize = 1;
        let mut cur: usize = if long0 == 0 {
            self.l - 1
        } else {
            long0 - 1
        };
        proof {
            lemma_small_mod(long0 as nat, self.l as nat);
            lemma_mod_step_down(long0 as int, self.road_length());
        }
        while d < max
            invariant
                self.wf(),
                lat == coord.lat,
                lat < self.road_width(),
                long0 == (coord.long as int) % self.road_length(),
                max as int == search_limit(maybe_max, self.l),
                0 < max,
                1 <= d <= max,
                cur == (long0 - d) % self.road_length(),
                cur < self.l,
                self.car_back_from(lat as int, long0 as int, 1, max as int) == self.car_back_from(
                    lat as int,
                    long0 as int,
                    d as int,
                    max as int,
                ),
            decreases max - d,
        {
            match self.get_cell(lat, cur) {
                Some(Vehicle::Car(id)) => {
                    proof {
                        assert(self.car_back_from(lat as int, long0 as int, d as int, max as int)
                            == Some(id));
                    }
                    return Some(id);
                },
                _ => {},
            }
            proof {
                lemma_mod_step_down(long0 - d, self.road_length());
            }
            cur = if cur == 0 {
                self.l - 1
            } else {
                cur - 1
            };
            d = d + 1;
        }
        None
    }

    /// The scan behind `route_width`: the lowest occupied lat at this long
    /// slice, starting the search at `lat`; the road width when none.
    pub open spec fn route_width_from(&self, long0: int, lat: int) -> int
        decreases self.road_width() - lat,
    {
        if lat < 0 || lat >= self.road_width() {
            self.road_width()
        } else if self.occ(lat, long0).is_some() {
            lat
        } else {
            self.route_width_from(long0, lat + 1)
        }
    }

    /// Every occupied cell with its occupant, scanning longs outward and
    /// lats left to right within each long.
    pub fn cells(&self) -> (r: Vec<(Coord, Vehicle)>)
        requires
            self.wf(),
        ensures
            forall|c: Coord, v: Vehicle| r@.contains((c, v)) <==> (0 <= c.lat
                < self.road_width() && 0 <= c.long < self.road_length() && self.occ(
                c.lat as int,
                c.long as int,
            ) == Some(v)),
    {
        let w = self.mlw + self.blw;
        let n = self.grid.len();
        let mut out: Vec<(Coord, Vehicle)> = Vec::new();
        let mut k: usize = 0;
        while k < n
            invariant
                self.wf(),
                w == self.road_width(),
                n == self.grid@.len(),
                k <= n,
                forall|c: Coord, v: Vehicle| out@.contains((c, v)) <==> (0 <= c.lat
                    < self.road_width() && 0 <= c.long < self.road_length() && self.occ(
                    c.lat as int,
                    c.long as int,
                ) == Some(v) && c.long * self.road_width() + c.lat < k),
            decreases n - k,
        {
            let lat = k % w;
            let long = k / w;
            proof {
                lemma_fundamental_div_mod(k as int, w as int);
                vstd::arithmetic::div_mod::lemma_mod_division_less_than_divisor(
                    k as int,
                    w as int,
                );
                assert(0 <= long < self.road_length()) by (nonlinear_arith)
                    requires
                        k as int == (w as int) * (long as int) + (lat as int) && 0 <= lat < w && 0
                            <= (k as int) < (w as int) * self.road_length() && 0 < w
                            && 0 < self.road_length();
                assert(k as int == (long as int) * (w as int) + (lat as int)) by (nonlinear_arith)
                    requires k as int == (w as int) * (long as int) + (lat as int);
            }
            let here = self.grid[k];
            let ghost out_pre = out@;
            match here {
                Some(v) => {
                    out.push((Coord { lat: lat as isize, long: long as isize }, v));
                },
                None => {},
            }
            proof {
                assert forall|c: Coord, v: Vehicle| out@.contains((c, v)) <==> (0 <= c.lat
                    < self.road_width() && 0 <= c.long < self.road_length() && self.occ(
                    c.lat as int,
                    c.long as int,
                ) == Some(v) && c.long * self.road_width() + c.lat < k + 1) by {
                    if out@.contains((c, v)) {
                        let idx = choose|idx: int|
                            0 <= idx < out@.len() && out@[idx] == (c, v);
                        if idx < out_pre.len() {
                            assert(out_pre.contains((c, v)));
                        } else {
                            assert(c.lat == lat && c.long == long);
                            assert(self.occ(c.lat as int, c.long as int) == Some(v));
                        }
                    }
                    if 0 <= c.lat < self.road_width() && 0 <= c.long < self.road_length()
                        && self.occ(c.lat as int, c.long as int) == Some(v) && c.long
                        * self.road_width() + c.lat < k + 1 {
                        if c.long * self.road_width() + c.lat < k {
                            assert(out_pre.contains((c, v)));
                            let idx = choose|idx: int|
                                0 <= idx < out_pre.len() && out_pre[idx] == (c, v);
                            assert(out@[idx] == (c, v));
                        } else {
                            assert(c.long * self.road_width() + c.lat == k);
                            lemma_idx_inj(
                                self.road_width(),
                                c.lat as int,
                                c.long as int,
                                lat as int,
                                long as int,
                            );
                            assert(c.lat == lat && c.long == long);
                            assert(here == Some(v));
                            assert(out@[out@.len() - 1] == (c, v));
                        }
                    }
                }
            }
            k = k + 1;
        }
        proof {
            assert forall|c: Coord, v: Vehicle| out@.contains((c, v)) <==> (0 <= c.lat
                < self.road_width() && 0 <= c.long < self.road_length() && self.occ(
                c.lat as int,
                c.long as int,
            ) == Some(v)) by {
                if 0 <= c.lat < self.road_width() && 0 <= c.long < self.road_length() && self.occ(
                    c.lat as int,
                    c.long as int,
                ) == Some(v) {
                    lemma_idx_bounds(
                        self.road_width(),
                        self.road_length(),
                        c.lat as int,
                        c.long as int,
                    );
                }
            }
        }
        out
    }

    /// The smallest lat occupied at this long slice (wrapped), or the total
    /// road width when the whole slice is free.
    pub fn route_width(&self, long: isize) -> (r: usize)
        requires
            self.wf(),
        ensures
            r == self.route_width_from((long as int) % self.road_length(), 0),
    {
        let long0 = euclid_mod(long as i128, self.l);
        let w = self.mlw + self.blw;
        let mut lat: usize = 0;
        while lat < w
            invariant
                self.wf(),
                w == self.road_width(),
                long0 == (long as int) % self.road_length(),
                long0 < self.l,
                lat <= w,
                self.route_width_from(long0 as int, 0) == self.route_width_from(
                    long0 as int,
                    lat as int,
                ),
            decreases w - lat,
        {
            if self.get_cell(lat, long0).is_some() {
                return lat;
            }
            lat = lat + 1;
        }
        w
    }
}

} // verus!
