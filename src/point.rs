use vstd::prelude::*;

verus! {

/// One data point: an ordered, fixed-length vector of integer coordinates.
#[derive(Debug, Clone, PartialEq, Eq)]
pub struct Point {
    coordinates: Vec<i32>,
}

impl View for Point {
    type V = Seq<i32>;

    closed spec fn view(&self) -> Seq<i32> {
        self.coordinates@
    }
}

impl Point {
    pub fn new(coordinates: Vec<i32>) -> (p: Point)
        ensures
            p@ == coordinates@,
    {
        Point { coordinates }
    }

    pub fn coordinates(&self) -> (c: &[i32])
        ensures
            c@ == self@,
    {
        self.coordinates.as_slice()
    }

    pub fn dimension(&self) -> (d: usize)
        ensures
            d == self@.len(),
    {
        self.coordinates.len()
    }

    /// A point with the same coordinates as `self`.
    pub fn duplicate(&self) -> (p: Point)
        ensures
            p@ == self@,
    {
        let mut v: Vec<i32> = Vec::with_capacity(self.coordinates.len());
        let mut i: usize = 0;
        while i < self.coordinates.len()
            invariant
                i <= self@.len(),
                v@ == self@.subrange(0, i as int),
            decreases self@.len() - i,
        {
            v.push(self.coordinates[i]);
            i += 1;
        }
        assert(v@ =~= self@);
        Point { coordinates: v }
    }
}

/// The coordinates of every point of a collection, in order.
pub open spec fn coords_of(points: Seq<Point>) -> Seq<Seq<i32>> {
    points.map_values(|p: Point| p@)
}

} // verus!
