//! A generic 2D size with componentwise helpers and arithmetic.

use vstd::prelude::*;
use vstd::std_specs::ops::AddSpec;
use vstd::std_specs::ops::AddSpecImpl;
use vstd::std_specs::ops::DivSpec;
use vstd::std_specs::ops::DivSpecImpl;
use vstd::std_specs::ops::MulSpec;
use vstd::std_specs::ops::MulSpecImpl;
use vstd::std_specs::ops::NegSpec;
use vstd::std_specs::ops::NegSpecImpl;
use vstd::std_specs::ops::SubSpec;
use vstd::std_specs::ops::SubSpecImpl;

verus! {

/// A generic 2D size with width and height.
#[derive(Debug, Clone, Copy, PartialEq, Eq, Hash)]
pub struct Size<T> {
    /// The width component.
    pub width: T,
    /// The height component.
    pub height: T,
}

impl<T> Size<T> {
    /// Creates a new `Size` from width and height.
    pub fn new(width: T, height: T) -> (s: Self)
        ensures
            s.width == width,
            s.height == height,
    {
        Self { width, height }
    }

    /// Returns `true` if both width and height equal the type's default
    /// value.  What std's `Default` and `PartialEq` produce for an
    /// arbitrary type is unspecified, so nothing is promised of the
    /// answer.
    pub fn is_empty(&self) -> bool where T: PartialEq + Default {
        let d = T::default();
        let e = T::default();
        self.width == d && self.height == e
    }

    /// Returns the area (width times height).
    pub fn area(&self) -> (r: T) where T: core::ops::Mul<Output = T> + Copy
        requires
            self.width.mul_req(self.height),
        ensures
            T::obeys_mul_spec() ==> r == self.width.mul_spec(self.height),
    {
        self.width * self.height
    }

    /// Converts the size to a tuple (width, height).
    pub fn to_tuple(self) -> (r: (T, T))
        ensures
            r.0 == self.width,
            r.1 == self.height,
    {
        (self.width, self.height)
    }

    /// Creates a size from a tuple (width, height).
    pub fn from_tuple(tuple: (T, T)) -> (s: Self)
        ensures
            s.width == tuple.0,
            s.height == tuple.1,
    {
        Self { width: tuple.0, height: tuple.1 }
    }

    /// Maps both width and height using the provided function.
    pub fn map<U, F: Fn(T) -> U>(self, f: F) -> (s: Size<U>)
        requires
            call_requires(f, (self.width,)),
            call_requires(f, (self.height,)),
        ensures
            call_ensures(f, (self.width,), s.width),
            call_ensures(f, (self.height,), s.height),
    {
        Size { width: f(self.width), height: f(self.height) }
    }

    /// Maps width and height pairwise: the function sees `(width,
    /// height)` for the new width and `(height, width)` for the new
    /// height.
    pub fn map_pairwise<U, F: Fn(T, T) -> U>(self, f: F) -> (s: Size<U>) where T: Copy
        requires
            call_requires(f, (self.width, self.height)),
            call_requires(f, (self.height, self.width)),
        ensures
            call_ensures(f, (self.width, self.height), s.width),
            call_ensures(f, (self.height, self.width), s.height),
    {
        Size { width: f(self.width, self.height), height: f(self.height, self.width) }
    }

    /// Zips two sizes into a size of pairs.
    pub fn zip<U>(self, other: Size<U>) -> (s: Size<(T, U)>)
        ensures
            s.width == (self.width, other.width),
            s.height == (self.height, other.height),
    {
        Size { width: (self.width, other.width), height: (self.height, other.height) }
    }

    /// Zips two sizes using a function, component by component.
    pub fn zip_with<U, F: Fn(T, U) -> U>(self, other: Size<U>, f: F) -> (s: Size<U>)
        requires
            call_requires(f, (self.width, other.width)),
            call_requires(f, (self.height, other.height)),
        ensures
            call_ensures(f, (self.width, other.width), s.width),
            call_ensures(f, (self.height, other.height), s.height),
    {
        Size { width: f(self.width, other.width), height: f(self.height, other.height) }
    }
}

impl<T: Default> Default for Size<T> {
    /// A size whose components are the type's default values.
    fn default() -> Self {
        Size { width: T::default(), height: T::default() }
    }
}

impl<T: core::fmt::Display> Size<T> {
    /// Relies on std's `format!` machinery: the size rendered as
    /// `Size(width, height)`.  Nothing is assumed of the result.
    #[verifier::external_body]
    pub fn display_string(&self) -> String {
        format!("Size({}, {})", self.width, self.height)
    }
}

impl<T: core::ops::Add<Output = T>> core::ops::Add for Size<T> {
    type Output = Size<T>;

    /// Componentwise addition.
    fn add(self, other: Self) -> Self::Output {
        Size { width: self.width + other.width, height: self.height + other.height }
    }
}

impl<T: core::ops::Add<Output = T>> AddSpecImpl for Size<T> {
    open spec fn obeys_add_spec() -> bool {
        T::obeys_add_spec()
    }

    open spec fn add_req(self, rhs: Self) -> bool {
        self.width.add_req(rhs.width) && self.height.add_req(rhs.height)
    }

    open spec fn add_spec(self, rhs: Self) -> Self {
        Size { width: self.width.add_spec(rhs.width), height: self.height.add_spec(rhs.height) }
    }
}

impl<T: core::ops::Sub<Output = T>> core::ops::Sub for Size<T> {
    type Output = Size<T>;

    /// Componentwise subtraction.
    fn sub(self, other: Self) -> Self::Output {
        Size { width: self.width - other.width, height: self.height - other.height }
    }
}

impl<T: core::ops::Sub<Output = T>> SubSpecImpl for Size<T> {
    open spec fn obeys_sub_spec() -> bool {
        T::obeys_sub_spec()
    }

    open spec fn sub_req(self, rhs: Self) -> bool {
        self.width.sub_req(rhs.width) && self.height.sub_req(rhs.height)
    }

    open spec fn sub_spec(self, rhs: Self) -> Self {
        Size { width: self.width.sub_spec(rhs.width), height: self.height.sub_spec(rhs.height) }
    }
}

impl<T: core::ops::Mul<Output = T> + Copy> core::ops::Mul<T> for Size<T> {
    type Output = Size<T>;

    /// Multiplies both components by a scalar.
    fn mul(self, scalar: T) -> Self::Output {
        Size { width: self.width * scalar, height: self.height * scalar }
    }
}

impl<T: core::ops::Mul<Output = T> + Copy> MulSpecImpl<T> for Size<T> {
    open spec fn obeys_mul_spec() -> bool {
        T::obeys_mul_spec()
    }

    open spec fn mul_req(self, rhs: T) -> bool {
        self.width.mul_req(rhs) && self.height.mul_req(rhs)
    }

    open spec fn mul_spec(self, rhs: T) -> Self {
        Size { width: self.width.mul_spec(rhs), height: self.height.mul_spec(rhs) }
    }
}

impl<T: core::ops::Div<Output = T> + Copy> core::ops::Div<T> for Size<T> {
    type Output = Size<T>;

    /// Divides both components by a scalar; inputs on which the
    /// component division would fail (a zero divisor, for the integer
    /// types) are excluded by the division's own precondition.
    fn div(self, scalar: T) -> Self::Output {
        Size { width: self.width / scalar, height: self.height / scalar }
    }
}

impl<T: core::ops::Div<Output = T> + Copy> DivSpecImpl<T> for Size<T> {
    open spec fn obeys_div_spec() -> bool {
        T::obeys_div_spec()
    }

    open spec fn div_req(self, rhs: T) -> bool {
        self.width.div_req(rhs) && self.height.div_req(rhs)
    }

    open spec fn div_spec(self, rhs: T) -> Self {
        Size { width: self.width.div_spec(rhs), height: self.height.div_spec(rhs) }
    }
}

impl<T: core::ops::Neg<Output = T>> core::ops::Neg for Size<T> {
    type Output = Size<T>;

    /// Componentwise negation.
    fn neg(self) -> Self::Output {
        Size {
            width: core::ops::Neg::neg(self.width),
            height: core::ops::Neg::neg(self.height),
        }
    }
}

impl<T: core::ops::Neg<Output = T>> NegSpecImpl for Size<T> {
    open spec fn obeys_neg_spec() -> bool {
        T::obeys_neg_spec()
    }

    open spec fn neg_req(self) -> bool {
        self.width.neg_req() && self.height.neg_req()
    }

    open spec fn neg_spec(self) -> Self {
        Size { width: self.width.neg_spec(), height: self.height.neg_spec() }
    }
}

} // verus!
