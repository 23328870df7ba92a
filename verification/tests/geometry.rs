use led::point::Point;
use led::rect::Rect;
use led::size::Size;

fn rect_i32(x: i32, y: i32, w: i32, h: i32) -> Rect<i32> {
    Rect::new(Point::new(x, y), Size::new(w, h))
}

#[test]
fn creates_point_and_accesses_coordinates() {
    let p = Point::new(3, 4);
    assert_eq!(p.x(), 3);
    assert_eq!(p.y(), 4);
    assert_eq!(p.into_tuple(), (3, 4));
}

#[test]
fn creates_point_from_tuple() {
    let p = Point::from_tuple((5, 6));
    assert_eq!(p.x, 5);
    assert_eq!(p.y, 6);
}

#[test]
fn maps_coordinates_with_map() {
    let p = Point::new(2, 3);
    let p2 = p.map(|v| v * 2);
    assert_eq!(p2, Point::new(4, 6));
}

#[test]
fn maps_coordinates_with_map_ref() {
    let p = Point::new(2, 3);
    let p2 = p.map_ref(|v| v + 1);
    assert_eq!(p2, Point::new(3, 4));
}

#[test]
fn maps_coordinates_with_map_mut() {
    let p = Point::new(2, 3);
    let p2 = p.map_mut(|v| v * 3);
    assert_eq!(p2, Point::new(6, 9));
}

#[test]
fn maps_coordinates_with_map_mut_ref() {
    let mut p = Point::new(2, 3);
    let p2 = p.map_mut_ref(|v| *v + 1);
    assert_eq!(p2, Point::new(3, 4));
}

#[test]
fn zips_two_points_with_zip() {
    let p1 = Point::new(1, 2);
    let p2 = Point::new(3, 4);
    let p3 = p1.zip(p2, |a, b| a + b);
    assert_eq!(p3, Point::new(4, 6));
}

#[test]
fn zips_two_points_with_zip_ref() {
    let p1 = Point::new(1, 2);
    let p2 = Point::new(3, 4);
    let p3 = p1.zip_ref(&p2, |a, b| a * b);
    assert_eq!(p3, Point::new(3, 8));
}

#[test]
fn zips_two_points_with_zip_mut() {
    let p1 = Point::new(1, 2);
    let p2 = Point::new(3, 4);
    let p3 = p1.zip_mut(p2, |a, b| a - b);
    assert_eq!(p3, Point::new(-2, -2));
}

#[test]
fn zips_two_points_with_zip_mut_ref() {
    let mut p1 = Point::new(1, 2);
    let p2 = Point::new(3, 4);
    let p3 = p1.zip_mut_ref(&p2, |a, b| *a + *b);
    assert_eq!(p3, Point::new(4, 6));
}

#[test]
fn map_x_and_map_y_apply_function_to_single_coordinate() {
    let p = Point::new(2, 3);
    let px = p.clone().map_x(|v| v * 10);
    let py = p.clone().map_y(|v| v * 100);
    assert_eq!(px, Point::new(20, 30)); // Both x and y multiplied by 10
    assert_eq!(py, Point::new(200, 300)); // Both x and y multiplied by 100
}

#[test]
fn map_x_ref_and_map_y_ref_apply_function_to_single_coordinate() {
    let p = Point::new(2, 3);
    let px = p.map_x_ref(|v| v + 1);
    let py = p.map_y_ref(|v| v + 2);
    assert_eq!(px, Point::new(3, 4)); // Both x and y incremented by 1
    assert_eq!(py, Point::new(4, 5)); // Both x and y incremented by 2
}

#[test]
fn map_x_mut_and_map_y_mut_apply_mutable_function() {
    let p = Point::new(2, 3);
    let px = p.clone().map_x_mut(|v| v * 2);
    let py = p.map_y_mut(|v| v * 3);
    assert_eq!(px, Point::new(4, 6)); // Both x and y multiplied by 2
    assert_eq!(py, Point::new(6, 9)); // Both x and y multiplied by 3
}

#[test]
fn map_x_mut_ref_and_map_y_mut_ref_apply_mutable_function() {
    let mut p = Point::new(2, 3);
    let px = p.map_x_mut_ref(|v| *v + 1);
    let mut p2 = Point::new(2, 3);
    let py = p2.map_y_mut_ref(|v| *v * 2);
    assert_eq!(px, Point::new(3, 4));
    assert_eq!(py, Point::new(4, 6));
}

#[test]
fn display_formats_point_correctly() {
    let p = Point::new(7, 8);
    assert_eq!(p.display_string(), "(7, 8)");
}

#[test]
fn edge_case_zero_and_negative_numbers() {
    let p = Point::new(0i32, -1i32);
    let p2 = p.map(|v| v.abs());
    assert_eq!(p2, Point::new(0, 1));
}

#[test]
fn creates_rect_with_given_origin_and_size() {
    let origin = Point::new(1, 2);
    let size = Size::new(3, 4);
    let rect = Rect::new(origin, size);
    assert_eq!(rect.origin(), origin);
    assert_eq!(rect.size(), size);
}

#[test]
fn width_and_height_return_correct_values() {
    let rect = rect_i32(0, 0, 10, 20);
    assert_eq!(rect.width(), 10);
    assert_eq!(rect.height(), 20);
}

#[test]
fn area_calculates_correctly() {
    let rect = rect_i32(0, 0, 5, 4);
    assert_eq!(rect.area(), 20);
}

#[test]
fn perimeter_calculates_correctly() {
    let rect = rect_i32(0, 0, 3, 7);
    assert_eq!(rect.perimeter(), 20);
}

#[test]
fn center_returns_correct_point_for_even_dimensions() {
    let rect = rect_i32(2, 4, 6, 8);
    assert_eq!(rect.center(), Point::new(5, 8));
}

#[test]
fn center_returns_correct_point_for_odd_dimensions() {
    let rect = rect_i32(1, 1, 5, 3);
    assert_eq!(rect.center(), Point::new(3, 2));
}

#[test]
fn contains_returns_true_for_point_inside() {
    let rect = rect_i32(0, 0, 10, 10);
    assert!(rect.contains(Point::new(5, 5)));
}

#[test]
fn contains_returns_false_for_point_on_right_or_bottom_edge() {
    let rect = rect_i32(0, 0, 10, 10);
    assert!(!rect.contains(Point::new(10, 5)));
    assert!(!rect.contains(Point::new(5, 10)));
}

#[test]
fn contains_returns_true_for_point_on_left_or_top_edge() {
    let rect = rect_i32(0, 0, 10, 10);
    assert!(rect.contains(Point::new(0, 0)));
    assert!(rect.contains(Point::new(0, 5)));
    assert!(rect.contains(Point::new(5, 0)));
}

#[test]
fn contains_returns_false_for_point_outside() {
    let rect = rect_i32(0, 0, 10, 10);
    assert!(!rect.contains(Point::new(-1, 5)));
    assert!(!rect.contains(Point::new(5, -1)));
    assert!(!rect.contains(Point::new(11, 5)));
    assert!(!rect.contains(Point::new(5, 11)));
}

#[test]
fn intersects_returns_true_for_overlapping_rects() {
    let a = rect_i32(0, 0, 10, 10);
    let b = rect_i32(5, 5, 10, 10);
    assert!(a.intersects(&b));
}

#[test]
fn intersects_returns_false_for_non_overlapping_rects() {
    let a = rect_i32(0, 0, 10, 10);
    let b = rect_i32(20, 20, 5, 5);
    assert!(!a.intersects(&b));
}

#[test]
fn intersects_returns_true_for_touching_edges() {
    let a = rect_i32(0, 0, 10, 10);
    let b = rect_i32(10, 0, 5, 10);
    assert!(a.intersects(&b));
}

#[test]
fn intersects_returns_true_for_touching_corners() {
    let a = rect_i32(0, 0, 10, 10);
    let b = rect_i32(10, 10, 5, 5);
    assert!(a.intersects(&b));
}

#[test]
fn area_is_zero_for_zero_width_or_height() {
    let rect = rect_i32(0, 0, 0, 10);
    assert_eq!(rect.area(), 0);
    let rect = rect_i32(0, 0, 10, 0);
    assert_eq!(rect.area(), 0);
}

#[test]
fn new_creates_size_with_given_dimensions() {
    let s = Size::new(3, 4);
    assert_eq!(s.width, 3);
    assert_eq!(s.height, 4);
}

#[test]
fn is_empty_returns_true_for_default_values() {
    let s: Size<i32> = Size::default();
    assert!(s.is_empty());
}

#[test]
fn is_empty_returns_false_for_non_default_values() {
    let s = Size::new(1, 0);
    assert!(!s.is_empty());
}

#[test]
fn area_returns_product_of_width_and_height() {
    let s = Size::new(3, 4);
    assert_eq!(s.area(), 12);
}

#[test]
fn to_tuple_and_from_tuple_are_inverse() {
    let s = Size::new(7, 9);
    let tuple = s.to_tuple();
    let s2 = Size::from_tuple(tuple);
    assert_eq!(s, s2);
}

#[test]
fn map_applies_function_to_both_dimensions() {
    let s = Size::new(2, 3);
    let mapped = s.map(|x| x * 2);
    assert_eq!(mapped, Size::new(4, 6));
}

#[test]
fn map_pairwise_applies_function_pairwise() {
    let s = Size::new(2, 3);
    let mapped = s.map_pairwise(|a, b| a + b);
    assert_eq!(mapped, Size::new(5, 5));
}

#[test]
fn zip_combines_two_sizes_into_tuples() {
    let a = Size::new(1, 2);
    let b = Size::new(3, 4);
    let zipped = a.zip(b);
    assert_eq!(zipped, Size::new((1, 3), (2, 4)));
}

#[test]
fn zip_with_combines_two_sizes_with_function() {
    let a = Size::new(1, 2);
    let b = Size::new(3, 4);
    let zipped = a.zip_with(b, |x, y| x + y);
    assert_eq!(zipped, Size::new(4, 6));
}

#[test]
fn default_returns_size_with_default_components() {
    let s: Size<u8> = Size::default();
    assert_eq!(s, Size::new(0, 0));
}

#[test]
fn display_formats_size_correctly() {
    let s = Size::new(5, 6);
    assert_eq!(s.display_string(), "Size(5, 6)");
}

#[test]
fn add_adds_corresponding_components() {
    let a = Size::new(1, 2);
    let b = Size::new(3, 4);
    assert_eq!(a + b, Size::new(4, 6));
}

#[test]
fn sub_subtracts_corresponding_components() {
    let a = Size::new(5, 7);
    let b = Size::new(2, 3);
    assert_eq!(a - b, Size::new(3, 4));
}

#[test]
fn mul_multiplies_both_components_by_scalar() {
    let s = Size::new(2, 3);
    assert_eq!(s * 4, Size::new(8, 12));
}

#[test]
fn div_divides_both_components_by_scalar() {
    let s = Size::new(8, 12);
    assert_eq!(s / 4, Size::new(2, 3));
}

#[test]
fn neg_negates_both_components() {
    let s = Size::new(5, -7);
    assert_eq!(-s, Size::new(-5, 7));
}
