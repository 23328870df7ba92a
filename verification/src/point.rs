//! A generic 2D point with mapping and zipping helpers.

use vstd::prelude::*;

verus! {

/// A generic 2D point type with x and y coordinates.
#[derive(Debug, Clone, Copy, PartialEq, Eq, Hash)]
pub struct Point<T> {
    /// The x coordinate.
    pub x: T,
    /// The y coordinate.
    pub y: T,
}

impl<T> Point<T> {
    /// Creates a new `Point` with the given x and y coordinates.
    pub fn new(x: T, y: T) -> (p: Self)
        ensures
            p.x == x,
            p.y == y,
    {
        Self { x, y }
    }

    /// Returns the x coordinate.
    pub fn x(&self) -> (r: T) where T: Copy
        ensures
            r == self.x,
    {
        self.x
    }

    /// Returns the y coordinate.
    pub fn y(&self) -> (r: T) where T: Copy
        ensures
            r == self.y,
    {
        self.y
    }

    /// Converts the point into a tuple `(x, y)`.
    pub fn into_tuple(self) -> (r: (T, T))
        ensures
            r.0 == self.x,
            r.1 == self.y,
    {
        (self.x, self.y)
    }

    /// Creates a `Point` from a tuple `(x, y)`.
    pub fn from_tuple(tuple: (T, T)) -> (p: Self)
        ensures
            p.x == tuple.0,
            p.y == tuple.1,
    {
        Self { x: tuple.0, y: tuple.1 }
    }

    /// Applies a function to both coordinates, consuming the point.
    pub fn map<U, F: Fn(T) -> U>(self, f: F) -> (p: Point<U>)
        requires
            call_requires(f, (self.x,)),
            call_requires(f, (self.y,)),
        ensures
            call_ensures(f, (self.x,), p.x),
            call_ensures(f, (self.y,), p.y),
    {
        Point { x: f(self.x), y: f(self.y) }
    }

    /// Applies a function to references of both coordinates.
    pub fn map_ref<U, F: Fn(&T) -> U>(&self, f: F) -> (p: Point<U>)
        requires
            call_requires(f, (&self.x,)),
            call_requires(f, (&self.y,)),
        ensures
            call_ensures(f, (&self.x,), p.x),
            call_ensures(f, (&self.y,), p.y),
    {
        Point { x: f(&self.x), y: f(&self.y) }
    }

    /// Applies a function to both coordinates, consuming the point; the
    /// function is taken by value like `map`.
    pub fn map_mut<U, F: Fn(T) -> U>(self, f: F) -> (p: Point<U>)
        requires
            call_requires(f, (self.x,)),
            call_requires(f, (self.y,)),
        ensures
            call_ensures(f, (self.x,), p.x),
            call_ensures(f, (self.y,), p.y),
    {
        Point { x: f(self.x), y: f(self.y) }
    }

    /// Applies a function to both coordinates of a mutably borrowed
    /// point, which itself stays unchanged.
    pub fn map_mut_ref<U, F: Fn(&T) -> U>(&mut self, f: F) -> (p: Point<U>)
        requires
            call_requires(f, (&old(self).x,)),
            call_requires(f, (&old(self).y,)),
        ensures
            *final(self) == *old(self),
            call_ensures(f, (&old(self).x,), p.x),
            call_ensures(f, (&old(self).y,), p.y),
    {
        Point { x: f(&self.x), y: f(&self.y) }
    }

    /// Combines two points by applying a function to each pair of
    /// coordinates, consuming both.
    pub fn zip<U, V, F: Fn(T, U) -> V>(self, other: Point<U>, f: F) -> (p: Point<V>)
        requires
            call_requires(f, (self.x, other.x)),
            call_requires(f, (self.y, other.y)),
        ensures
            call_ensures(f, (self.x, other.x), p.x),
            call_ensures(f, (self.y, other.y), p.y),
    {
        Point { x: f(self.x, other.x), y: f(self.y, other.y) }
    }

    /// Combines two points by applying a function to references of each
    /// pair of coordinates.
    pub fn zip_ref<U, V, F: Fn(&T, &U) -> V>(&self, other: &Point<U>, f: F) -> (p: Point<V>)
        requires
            call_requires(f, (&self.x, &other.x)),
            call_requires(f, (&self.y, &other.y)),
        ensures
            call_ensures(f, (&self.x, &other.x), p.x),
            call_ensures(f, (&self.y, &other.y), p.y),
    {
        Point { x: f(&self.x, &other.x), y: f(&self.y, &other.y) }
    }

    /// Combines two points by applying a function to each pair of
    /// coordinates, consuming both; the function is taken by value like
    /// `zip`.
    pub fn zip_mut<U, V, F: Fn(T, U) -> V>(self, other: Point<U>, f: F) -> (p: Point<V>)
        requires
            call_requires(f, (self.x, other.x)),
            call_requires(f, (self.y, other.y)),
        ensures
            call_ensures(f, (self.x, other.x), p.x),
            call_ensures(f, (self.y, other.y), p.y),
    {
        Point { x: f(self.x, other.x), y: f(self.y, other.y) }
    }

    /// Combines a mutably borrowed point, which stays unchanged, with
    /// another point by applying a function to references of each pair of
    /// coordinates.
    pub fn zip_mut_ref<U, V, F: Fn(&T, &U) -> V>(&mut self, other: &Point<U>, f: F) -> (p: Point<
        V,
    >)
        requires
            call_requires(f, (&old(self).x, &other.x)),
            call_requires(f, (&old(self).y, &other.y)),
        ensures
            *final(self) == *old(self),
            call_ensures(f, (&old(self).x, &other.x), p.x),
            call_ensures(f, (&old(self).y, &other.y), p.y),
    {
        Point { x: f(&self.x, &other.x), y: f(&self.y, &other.y) }
    }
}

impl<T: Clone> Point<T> {
    /// Applies a function to the x coordinate and to a clone of the y
    /// coordinate.
    pub fn map_x<U: Clone, F: Fn(T) -> U>(self, f: F) -> (p: Point<U>)
        requires
            call_requires(f, (self.x,)),
            forall|yc: T| cloned(self.y, yc) ==> call_requires(f, (yc,)),
        ensures
            call_ensures(f, (self.x,), p.x),
            exists|yc: T| cloned(self.y, yc) && #[trigger] call_ensures(f, (yc,), p.y),
    {
        let yc = self.y.clone();
        proof {
            assert(cloned(self.y, yc));
        }
        let ghost y0 = self.y;
        let rx = f(self.x);
        let ry = f(yc);
        let p = Point { x: rx, y: ry };
        proof {
            assert(exists|w: T| cloned(y0, w) && #[trigger] call_ensures(f, (w,), p.y)) by {
                assert(cloned(y0, yc) && call_ensures(f, (yc,), p.y));
            }
        }
        p
    }

    /// Applies a function to a clone of the x coordinate and to the y
    /// coordinate.
    pub fn map_y<U: Clone, F: Fn(T) -> U>(self, f: F) -> (p: Point<U>)
        requires
            call_requires(f, (self.y,)),
            forall|xc: T| cloned(self.x, xc) ==> call_requires(f, (xc,)),
        ensures
            call_ensures(f, (self.y,), p.y),
            exists|xc: T| cloned(self.x, xc) && #[trigger] call_ensures(f, (xc,), p.x),
    {
        let xc = self.x.clone();
        proof {
            assert(cloned(self.x, xc));
        }
        let ghost x0 = self.x;
        let rx = f(xc);
        let ry = f(self.y);
        let p = Point { x: rx, y: ry };
        proof {
            assert(exists|w: T| cloned(x0, w) && #[trigger] call_ensures(f, (w,), p.x)) by {
                assert(cloned(x0, xc) && call_ensures(f, (xc,), p.x));
            }
        }
        p
    }

    /// Applies a function to references of both coordinates.
    pub fn map_x_ref<U: Clone, F: Fn(&T) -> U>(&self, f: F) -> (p: Point<U>)
        requires
            call_requires(f, (&self.x,)),
            call_requires(f, (&self.y,)),
        ensures
            call_ensures(f, (&self.x,), p.x),
            call_ensures(f, (&self.y,), p.y),
    {
        Point { x: f(&self.x), y: f(&self.y) }
    }

    /// Applies a function to references of both coordinates.
    pub fn map_y_ref<U: Clone, F: Fn(&T) -> U>(&self, f: F) -> (p: Point<U>)
        requires
            call_requires(f, (&self.x,)),
            call_requires(f, (&self.y,)),
        ensures
            call_ensures(f, (&self.x,), p.x),
            call_ensures(f, (&self.y,), p.y),
    {
        Point { x: f(&self.x), y: f(&self.y) }
    }

    /// Applies a function to the x coordinate and to a clone of the y
    /// coordinate; the function is taken by value like `map_x`.
    pub fn map_x_mut<U: Clone, F: Fn(T) -> U>(self, f: F) -> (p: Point<U>)
        requires
            call_requires(f, (self.x,)),
            forall|yc: T| cloned(self.y, yc) ==> call_requires(f, (yc,)),
        ensures
            call_ensures(f, (self.x,), p.x),
            exists|yc: T| cloned(self.y, yc) && #[trigger] call_ensures(f, (yc,), p.y),
    {
        let yc = self.y.clone();
        proof {
            assert(cloned(self.y, yc));
        }
        let ghost y0 = self.y;
        let rx = f(self.x);
        let ry = f(yc);
        let p = Point { x: rx, y: ry };
        proof {
            assert(exists|w: T| cloned(y0, w) && #[trigger] call_ensures(f, (w,), p.y)) by {
                assert(cloned(y0, yc) && call_ensures(f, (yc,), p.y));
            }
        }
        p
    }

    /// Applies a function to a clone of the x coordinate and to the y
    /// coordinate; the function is taken by value like `map_y`.
    pub fn map_y_mut<U: Clone, F: Fn(T) -> U>(self, f: F) -> (p: Point<U>)
        requires
            call_requires(f, (self.y,)),
            forall|xc: T| cloned(self.x, xc) ==> call_requires(f, (xc,)),
        ensures
            call_ensures(f, (self.y,), p.y),
            exists|xc: T| cloned(self.x, xc) && #[trigger] call_ensures(f, (xc,), p.x),
    {
        let xc = self.x.clone();
        proof {
            assert(cloned(self.x, xc));
        }
        let ghost x0 = self.x;
        let rx = f(xc);
        let ry = f(self.y);
        let p = Point { x: rx, y: ry };
        proof {
            assert(exists|w: T| cloned(x0, w) && #[trigger] call_ensures(f, (w,), p.x)) by {
                assert(cloned(x0, xc) && call_ensures(f, (xc,), p.x));
            }
        }
        p
    }

    /// Applies a function to references of both coordinates of a mutably
    /// borrowed point, which itself stays unchanged.
    pub fn map_x_mut_ref<U: Clone, F: Fn(&T) -> U>(&mut self, f: F) -> (p: Point<U>)
        requires
            call_requires(f, (&old(self).x,)),
            call_requires(f, (&old(self).y,)),
        ensures
            *final(self) == *old(self),
            call_ensures(f, (&old(self).x,), p.x),
            call_ensures(f, (&old(self).y,), p.y),
    {
        Point { x: f(&self.x), y: f(&self.y) }
    }

    /// Applies a function to references of both coordinates of a mutably
    /// borrowed point, which itself stays unchanged.
    pub fn map_y_mut_ref<U: Clone, F: Fn(&T) -> U>(&mut self, f: F) -> (p: Point<U>)
        requires
            call_requires(f, (&old(self).x,)),
            call_requires(f, (&old(self).y,)),
        ensures
            *final(self) == *old(self),
            call_ensures(f, (&old(self).x,), p.x),
            call_ensures(f, (&old(self).y,), p.y),
    {
        Point { x: f(&self.x), y: f(&self.y) }
    }
}

impl<T: core::fmt::Display> Point<T> {
    /// Relies on std's `format!` machinery: the point rendered as
    /// `(x, y)`.  Nothing is assumed of the result.
    #[verifier::external_body]
    pub fn display_string(&self) -> String {
        format!("({}, {})", self.x, self.y)
    }
}

} // verus!
