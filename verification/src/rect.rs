//! A generic rectangle built from an origin point and a size.

use vstd::prelude::*;
use crate::point::Point;
use crate::size::Size;
use vstd::std_specs::cmp::PartialOrdIs;
use vstd::std_specs::cmp::PartialOrdSpec;
use vstd::std_specs::convert::FromSpec;
use vstd::std_specs::ops::AddSpec;
use vstd::std_specs::ops::DivSpec;
use vstd::std_specs::ops::MulSpec;

verus! {

/// A rectangle defined by an origin point (top-left corner) and a size.
#[derive(Debug, Clone, Copy, PartialEq, Eq, Hash)]
pub struct Rect<T> {
    /// The origin (top-left corner) of the rectangle.
    pub origin: Point<T>,
    /// The size (width and height) of the rectangle.
    pub size: Size<T>,
}

impl<T> Rect<T> {
    /// Creates a new `Rect` from an origin and a size.
    pub fn new(origin: Point<T>, size: Size<T>) -> (r: Self)
        ensures
            r.origin == origin,
            r.size == size,
    {
        Self { origin, size }
    }

    /// Returns the x-coordinate of the rectangle's origin.
    pub fn x(&self) -> (r: T) where T: Copy
        ensures
            r == self.origin.x,
    {
        self.origin.x()
    }

    /// Returns the y-coordinate of the rectangle's origin.
    pub fn y(&self) -> (r: T) where T: Copy
        ensures
            r == self.origin.y,
    {
        self.origin.y()
    }

    /// Returns the width of the rectangle.
    pub fn width(&self) -> (r: T) where T: Copy
        ensures
            r == self.size.width,
    {
        self.size.width
    }

    /// Returns the height of the rectangle.
    pub fn height(&self) -> (r: T) where T: Copy
        ensures
            r == self.size.height,
    {
        self.size.height
    }

    /// Returns the size (width and height) of the rectangle.
    pub fn size(&self) -> (r: Size<T>) where T: Copy
        ensures
            r == self.size,
    {
        self.size
    }

    /// Returns the origin (top-left corner) of the rectangle.
    pub fn origin(&self) -> (r: Point<T>) where T: Copy
        ensures
            r == self.origin,
    {
        self.origin
    }

    /// Calculates the area of the rectangle.
    pub fn area(&self) -> (r: T) where T: Copy + core::ops::Mul<Output = T>
        requires
            self.size.width.mul_req(self.size.height),
        ensures
            T::obeys_mul_spec() ==> r == self.size.width.mul_spec(self.size.height),
    {
        self.width() * self.height()
    }

    /// Calculates the perimeter of the rectangle: twice the sum of width
    /// and height.
    pub fn perimeter(&self) -> (r: T) where T: Copy + core::ops::Add<Output = T>
        requires
            T::obeys_add_spec(),
            self.size.width.add_req(self.size.height),
            (self.size.width.add_spec(self.size.height)).add_req(
                self.size.width.add_spec(self.size.height),
            ),
        ensures
            r == self.size.width.add_spec(self.size.height).add_spec(
                self.size.width.add_spec(self.size.height),
            ),
    {
        (self.width() + self.height()) + (self.width() + self.height())
    }

    /// Returns the center point of the rectangle: the origin plus half
    /// the extent in each direction.
    pub fn center(&self) -> (c: Point<T>) where
        T: Copy + core::ops::Add<Output = T> + core::ops::Div<Output = T> + core::convert::From<
            u8,
        >,

        requires
            T::obeys_from_spec(),
            T::obeys_div_spec(),
            T::obeys_add_spec(),
            self.size.width.div_req(T::from_spec(2u8)),
            self.size.height.div_req(T::from_spec(2u8)),
            self.origin.x.add_req(self.size.width.div_spec(T::from_spec(2u8))),
            self.origin.y.add_req(self.size.height.div_spec(T::from_spec(2u8))),
        ensures
            c.x == self.origin.x.add_spec(self.size.width.div_spec(T::from_spec(2u8))),
            c.y == self.origin.y.add_spec(self.size.height.div_spec(T::from_spec(2u8))),
    {
        let half_width = self.width() / T::from(2u8);
        let half_height = self.height() / T::from(2u8);
        Point::new(self.origin.x() + half_width, self.origin.y() + half_height)
    }

    /// Checks whether the rectangle contains a given point: at or right
    /// of the left edge, strictly left of the right edge, and likewise
    /// vertically.
    pub fn contains(&self, point: Point<T>) -> (r: bool) where
        T: Copy + core::ops::Add<Output = T> + core::ops::Sub<Output = T> + PartialOrd,

        requires
            T::obeys_add_spec(),
            self.origin.x.add_req(self.size.width),
            self.origin.y.add_req(self.size.height),
        ensures
            T::obeys_partial_cmp_spec() ==> r == ({
                let x_max = self.origin.x.add_spec(self.size.width);
                let y_max = self.origin.y.add_spec(self.size.height);
                point.x.is_ge(&self.origin.x) && point.x.is_lt(&x_max) && point.y.is_ge(
                    &self.origin.y,
                ) && point.y.is_lt(&y_max)
            }),
    {
        let x_min = self.origin.x();
        let y_min = self.origin.y();
        let x_max = x_min + self.width();
        let y_max = y_min + self.height();
        point.x() >= x_min && point.x() < x_max && point.y() >= y_min && point.y() < y_max
    }

    /// Checks whether this rectangle intersects another: neither lies
    /// strictly beyond the other's far edge.
    pub fn intersects(&self, other: &Rect<T>) -> (r: bool) where
        T: Copy + core::ops::Add<Output = T> + core::ops::Sub<Output = T> + PartialOrd,

        requires
            T::obeys_add_spec(),
            self.origin.x.add_req(self.size.width),
            self.origin.y.add_req(self.size.height),
            other.origin.x.add_req(other.size.width),
            other.origin.y.add_req(other.size.height),
        ensures
            T::obeys_partial_cmp_spec() ==> r == ({
                let x_max = self.origin.x.add_spec(self.size.width);
                let y_max = self.origin.y.add_spec(self.size.height);
                let other_x_max = other.origin.x.add_spec(other.size.width);
                let other_y_max = other.origin.y.add_spec(other.size.height);
                !(x_max.is_lt(&other.origin.x) || self.origin.x.is_gt(&other_x_max)
                    || y_max.is_lt(&other.origin.y) || self.origin.y.is_gt(&other_y_max))
            }),
    {
        let x_min = self.x();
        let y_min = self.y();
        let x_max = x_min + self.width();
        let y_max = y_min + self.height();
        let other_x_min = other.x();
        let other_y_min = other.y();
        let other_x_max = other_x_min + other.width();
        let other_y_max = other_y_min + other.height();
        !(x_max < other_x_min || x_min > other_x_max || y_max < other_y_min || y_min > other_y_max)
    }
}

} // verus!
