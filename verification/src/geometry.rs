//! Geometry primitives: cell coordinates, vehicle handles, and rectangular
//! occupiers on a grid whose longitudinal axis wraps modulo the road length.

use vstd::arithmetic::div_mod::{
    lemma_fundamental_div_mod, lemma_fundamental_div_mod_converse_mod,
};
use vstd::prelude::*;

verus! {

/// A cell position: `lat` counts from the leftmost motor-lane cell rightward,
/// `long` counts along the direction of travel and is read modulo the road
/// length.
#[derive(Eq, PartialEq, Structural, Hash, Debug, Copy, Clone)]
pub struct Coord {
    pub lat: isize,
    pub long: isize,
}

/// The identity stored in the occupancy index: which cohort an agent belongs
/// to, and its index in that cohort's array.
#[derive(Debug, PartialEq, Eq, Structural, Hash, Copy, Clone)]
pub enum Vehicle {
    Bike(usize),
    Car(usize),
}

/// A rigid rectangle of cells.  It covers lats `right - width + 1 ..= right`
/// and longs `front - length + 1 ..= front`, the longs taken modulo the road
/// length.
#[derive(Debug, Clone, Copy, PartialEq, Eq, Structural)]
pub struct RectangleOccupier {
    pub front: isize,
    pub right: isize,
    pub width: usize,
    pub length: usize,
}

impl RectangleOccupier {
    /// The leftmost lat covered.
    pub open spec fn left_spec(&self) -> int {
        self.right - self.width + 1
    }

    /// The rearmost long covered, before wrapping.
    pub open spec fn back_spec(&self) -> int {
        self.front - self.length + 1
    }

    /// Whether this rectangle covers the cell `(lat, long)` on a ring of
    /// length `l`, for `0 <= long < l`.
    pub open spec fn covers(&self, l: int, lat: int, long: int) -> bool {
        &&& self.left_spec() <= lat <= self.right
        &&& 0 <= long < l
        &&& (self.front - long) % l < self.length
    }

    /// Whether all covered lats lie on a road of total width `w`.
    pub open spec fn on_lats(&self, w: int) -> bool {
        0 <= self.left_spec() && self.right < w
    }

    /// A fully valid resting placement: on the road laterally, positive
    /// dimensions, no longitudinal self-overlap, normalized front.
    pub open spec fn placed(&self, w: int, l: int) -> bool {
        &&& self.on_lats(w)
        &&& 0 < self.width
        &&& 0 < self.length <= l
        &&& 0 <= self.front < l
    }

    /// The corner computations below stay inside `isize`.
    pub open spec fn fits_isize(&self) -> bool {
        &&& isize::MIN <= self.left_spec() <= isize::MAX
        &&& isize::MIN <= self.back_spec() <= isize::MAX
    }

    pub fn left(&self) -> (r: isize)
        requires
            self.fits_isize(),
        ensures
            r == self.left_spec(),
    {
        ((self.right as i128 - self.width as i128) + 1) as isize
    }

    pub fn back(&self) -> (r: isize)
        requires
            self.fits_isize(),
        ensures
            r == self.back_spec(),
    {
        ((self.front as i128 - self.length as i128) + 1) as isize
    }

    pub fn back_left(&self) -> (r: Coord)
        requires
            self.fits_isize(),
        ensures
            r.lat == self.left_spec(),
            r.long == self.back_spec(),
    {
        Coord { lat: self.left(), long: self.back() }
    }

    /// The lats covered, leftmost first.
    pub fn width_iterator(&self) -> (r: Vec<isize>)
        requires
            self.fits_isize(),
        ensures
            r@.len() == self.width,
            forall|k: int| 0 <= k < self.width ==> r@[k] == self.left_spec() + k,
    {
        let left = self.left();
        let mut lats: Vec<isize> = Vec::new();
        let mut di: usize = 0;
        while di < self.width
            invariant
                di <= self.width,
                self.fits_isize(),
                lats@.len() == di,
                forall|k: int| 0 <= k < di ==> lats@[k] == self.left_spec() + k,
                left == self.left_spec(),
            decreases self.width - di,
        {
            lats.push(((left as i128) + (di as i128)) as isize);
            di = di + 1;
        }
        lats
    }

    /// The longs covered, rearmost first and before wrapping.
    pub fn length_iterator(&self) -> (r: Vec<isize>)
        requires
            self.fits_isize(),
        ensures
            r@.len() == self.length,
            forall|k: int| 0 <= k < self.length ==> r@[k] == self.back_spec() + k,
    {
        let back = self.back();
        let mut longs: Vec<isize> = Vec::new();
        let mut dj: usize = 0;
        while dj < self.length
            invariant
                dj <= self.length,
                self.fits_isize(),
                longs@.len() == dj,
                forall|k: int| 0 <= k < dj ==> longs@[k] == self.back_spec() + k,
                back == self.back_spec(),
            decreases self.length - dj,
        {
            longs.push(((back as i128) + (dj as i128)) as isize);
            dj = dj + 1;
        }
        longs
    }

    /// The cells along the front edge, leftmost first.
    pub fn front_cells(&self) -> (r: Vec<Coord>)
        requires
            self.fits_isize(),
        ensures
            r@.len() == self.width,
            forall|k: int| 0 <= k < self.width
                ==> r@[k] == (Coord { lat: (self.left_spec() + k) as isize, long: self.front }),
    {
        let lats = self.width_iterator();
        let mut out: Vec<Coord> = Vec::new();
        let mut di: usize = 0;
        while di < lats.len()
            invariant
                di <= lats@.len(),
                lats@.len() == self.width,
                forall|k: int| 0 <= k < self.width ==> lats@[k] == self.left_spec() + k,
                out@.len() == di,
                forall|k: int| 0 <= k < di
                    ==> out@[k] == (Coord { lat: (self.left_spec() + k) as isize, long: self.front }),
            decreases lats@.len() - di,
        {
            out.push(Coord { lat: lats[di], long: self.front });
            di = di + 1;
        }
        out
    }

    /// Every cell covered, as raw (unwrapped) coordinates: lats left to
    /// right, and for each lat the longs back to front.
    pub fn occupied_cells(&self) -> (r: Vec<Coord>)
        requires
            self.fits_isize(),
        ensures
            r@.len() == self.width * self.length,
            forall|k: int| 0 <= k < r@.len() ==> #[trigger] r@[k] == (Coord {
                lat: (self.left_spec() + k / (self.length as int)) as isize,
                long: (self.back_spec() + k % (self.length as int)) as isize,
            }),
    {
        rectangle_occupation(self.front, self.right, self.width, self.length)
    }
}

/// Every cell of the rectangle with the given corner data, as raw
/// (unwrapped) coordinates: lats left to right, then longs back to front.
pub fn rectangle_occupation(front: isize, right: isize, width: usize, length: usize) -> (r: Vec<
    Coord,
>)
    requires
        isize::MIN <= right - width + 1 <= isize::MAX,
        isize::MIN <= front - length + 1 <= isize::MAX,
    ensures
        r@.len() == width * length,
        forall|k: int| 0 <= k < r@.len() ==> #[trigger] r@[k] == (Coord {
            lat: (right - width + 1 + k / (length as int)) as isize,
            long: (front - length + 1 + k % (length as int)) as isize,
        }),
{
    let left: isize = ((right as i128 - width as i128) + 1) as isize;
    let back: isize = ((front as i128 - length as i128) + 1) as isize;
    let mut out: Vec<Coord> = Vec::new();
    let mut di: usize = 0;
    while di < width
        invariant
            di <= width,
            isize::MIN <= right - width + 1 <= isize::MAX,
            isize::MIN <= front - length + 1 <= isize::MAX,
            left == right - width + 1,
            back == front - length + 1,
            out@.len() == di * length,
            forall|k: int| 0 <= k < out@.len() ==> #[trigger] out@[k] == (Coord {
                lat: (right - width + 1 + k / (length as int)) as isize,
                long: (front - length + 1 + k % (length as int)) as isize,
            }),
        decreases width - di,
    {
        let lat: isize = ((left as i128) + (di as i128)) as isize;
        let mut dj: usize = 0;
        while dj < length
            invariant
                dj <= length,
                di < width,
                isize::MIN <= right - width + 1 <= isize::MAX,
                isize::MIN <= front - length + 1 <= isize::MAX,
                left == right - width + 1,
                back == front - length + 1,
                lat == left + di,
                out@.len() == di * length + dj,
                forall|k: int| 0 <= k < out@.len() ==> #[trigger] out@[k] == (Coord {
                    lat: (right - width + 1 + k / (length as int)) as isize,
                    long: (front - length + 1 + k % (length as int)) as isize,
                }),
            decreases length - dj,
        {
            proof {
                vstd::arithmetic::div_mod::lemma_fundamental_div_mod_converse_mod(
                    di * length + dj,
                    length as int,
                    di as int,
                    dj as int,
                );
                vstd::arithmetic::div_mod::lemma_fundamental_div_mod_converse_div(
                    di * length + dj,
                    length as int,
                    di as int,
                    dj as int,
                );
            }
            out.push(Coord { lat, long: ((back as i128) + (dj as i128)) as isize });
            dj = dj + 1;
        }
        di = di + 1;
        proof {
            assert(out@.len() == (di - 1) * length + length);
            assert((di - 1) * length + length == di * length) by (nonlinear_arith);
        }
    }
    proof {
        assert(out@.len() == width * length);
    }
    out
}

/// Euclidean remainder of an `i128` by a positive `usize`: the result
/// matches the mathematical `%` of the specification language.
pub fn euclid_mod(x: i128, m: usize) -> (r: usize)
    requires
        0 < m,
        i128::MIN < x,
    ensures
        r == (x as int) % (m as int),
        r < m,
{
    if x >= 0 {
        ((x as u128) % (m as u128)) as usize
    } else {
        let n: u128 = (-x) as u128;
        let rem: u128 = n % (m as u128);
        proof {
            lemma_fundamental_div_mod(n as int, m as int);
            let q = (n as int) / (m as int);
            if rem == 0 {
                assert(x as int == (-q) * (m as int) + 0) by (nonlinear_arith)
                    requires n as int == (m as int) * q + 0 && x as int == -(n as int);
                lemma_fundamental_div_mod_converse_mod(x as int, m as int, -q, 0);
            } else {
                assert(x as int == (-q - 1) * (m as int) + ((m as int) - (rem as int)))
                    by (nonlinear_arith)
                    requires
                        n as int == (m as int) * q + (rem as int) && x as int == -(n as int);
                lemma_fundamental_div_mod_converse_mod(
                    x as int,
                    m as int,
                    -q - 1,
                    (m as int) - (rem as int),
                );
            }
        }
        if rem == 0 {
            0
        } else {
            m - (rem as usize)
        }
    }
}

/// A thing that occupies road cells.  Every occupier in this simulation is a
/// rectangle; the trait mirrors the shared read-only surface of the agents.
pub trait RoadOccupier {
    fn occupied_cells(&self) -> Vec<Coord>;

    /// Some covered cell has a lat below `width`.
    fn occupier_is_within(&self, width: isize) -> bool {
        let cs = self.occupied_cells();
        let mut k: usize = 0;
        while k < cs.len()
            invariant
                k <= cs@.len(),
            decreases cs@.len() - k,
        {
            if cs[k].lat < width {
                return true;
            }
            k = k + 1;
        }
        false
    }

    /// Every covered cell has a lat below `width`.
    fn occupier_is_entirely_within(&self, width: isize) -> bool {
        let cs = self.occupied_cells();
        let mut k: usize = 0;
        while k < cs.len()
            invariant
                k <= cs@.len(),
            decreases cs@.len() - k,
        {
            if cs[k].lat >= width {
                return false;
            }
            k = k + 1;
        }
        true
    }

    /// Some covered cell has a lat at or beyond `width`.
    fn occupier_is_without(&self, width: isize) -> bool {
        let cs = self.occupied_cells();
        let mut k: usize = 0;
        while k < cs.len()
            invariant
                k <= cs@.len(),
            decreases cs@.len() - k,
        {
            if cs[k].lat >= width {
                return true;
            }
            k = k + 1;
        }
        false
    }

    /// Every covered cell has a lat at or beyond `width`.
    fn occupier_is_entirely_without(&self, width: isize) -> bool {
        let cs = self.occupied_cells();
        let mut k: usize = 0;
        while k < cs.len()
            invariant
                k <= cs@.len(),
            decreases cs@.len() - k,
        {
            if cs[k].lat < width {
                return false;
            }
            k = k + 1;
        }
        true
    }
}

impl RoadOccupier for RectangleOccupier {
    fn occupied_cells(&self) -> Vec<Coord> {
        let left_ok = {
            let v: i128 = (self.right as i128 - self.width as i128) + 1;
            isize::MIN as i128 <= v && v <= isize::MAX as i128
        };
        let back_ok = {
            let v: i128 = (self.front as i128 - self.length as i128) + 1;
            isize::MIN as i128 <= v && v <= isize::MAX as i128
        };
        if left_ok && back_ok {
            RectangleOccupier::occupied_cells(self)
        } else {
            Vec::new()
        }
    }
}

} // verus!
