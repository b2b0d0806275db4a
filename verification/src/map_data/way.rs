//! The ordered point references of a way.

use vstd::prelude::*;
use crate::map_data::graph::MapDataElementRef;

verus! {

/// The point references of a way, in order.
pub struct MapDataWayPoints<T> {
    points: Vec<MapDataElementRef<T>>,
}

impl<T> MapDataWayPoints<T> {
    /// The ids of the referenced points, in order.
    pub closed spec fn ids(&self) -> Seq<u64> {
        self.points@.map_values(|p: MapDataElementRef<T>| p.id())
    }

    /// No points.
    pub fn new() -> (res: Self)
        ensures
            res.ids().len() == 0,
    {
        MapDataWayPoints { points: Vec::new() }
    }

    /// The given point references, in order.
    pub fn from_vec(points: Vec<MapDataElementRef<T>>) -> (res: Self)
        ensures
            res.ids() == points@.map_values(|p: MapDataElementRef<T>| p.id()),
    {
        MapDataWayPoints { points }
    }

    /// Whether `point` is the first or the last point of the way (compared by id).
    pub fn is_first_or_last(&self, point: &MapDataElementRef<T>) -> (res: bool)
        ensures
            res == (self.ids().len() > 0 && (self.ids()[0] == point.id() || self.ids().last()
                == point.id())),
    {
        let n = self.points.len();
        if n == 0 {
            return false;
        }
        let is_first = self.points[0].get_element_id() == point.get_element_id();
        let is_last = self.points[n - 1].get_element_id() == point.get_element_id();
        is_first || is_last
    }

    /// The reference after position `idx`, if there is one.
    pub fn get_after(&self, idx: usize) -> (res: Option<&MapDataElementRef<T>>)
        ensures
            match res {
                Some(p) => idx + 1 < self.ids().len() && p.id() == self.ids()[idx + 1],
                None => idx + 1 >= self.ids().len(),
            },
    {
        if idx < self.points.len() && idx + 1 < self.points.len() {
            Some(&self.points[idx + 1])
        } else {
            None
        }
    }

    /// The reference before position `idx`, if there is one.
    pub fn get_before(&self, idx: usize) -> (res: Option<&MapDataElementRef<T>>)
        ensures
            match res {
                Some(p) => 0 < idx && idx - 1 < self.ids().len() && p.id() == self.ids()[idx - 1],
                None => idx == 0 || idx - 1 >= self.ids().len(),
            },
    {
        if idx == 0 {
            return None;
        }
        if idx - 1 < self.points.len() {
            Some(&self.points[idx - 1])
        } else {
            None
        }
    }

    /// Appends a point reference.
    pub fn add(&mut self, point: MapDataElementRef<T>)
        ensures
            final(self).ids() == old(self).ids().push(point.id()),
    {
        self.points.push(point);
        assert(self.ids() =~= old(self).ids().push(point.id()));
    }

    /// The number of points.
    pub fn len(&self) -> (res: usize)
        ensures
            res == self.ids().len(),
    {
        self.points.len()
    }

    /// The point references, in order.
    pub fn iter(&self) -> (res: &[MapDataElementRef<T>])
        ensures
            res@.map_values(|p: MapDataElementRef<T>| p.id()) == self.ids(),
    {
        self.points.as_slice()
    }
}

} // verus!
