use mplusfonts::rect::{Point, Rectangle, RectangleExt, Size};

#[test]
fn left_half_of_1111_2222_3333_4444() {
    let result = Rectangle::new(Point::new(1111, 2222), Size::new(3333, 4444)).left_half();
    assert_eq!(result, Rectangle::new(Point::new(1111, 2222), Size::new(3333 / 2, 4444)));
}

#[test]
fn left_half_of_0_0_0_0() {
    let result = Rectangle::new(Point::new(0, 0), Size::new(0, 0)).left_half();
    assert_eq!(result, Rectangle::new(Point::new(0, 0), Size::new(0, 0)));
}

#[test]
fn left_half_of_min_min_max_max() {
    let result = Rectangle::new(Point::new(i32::MIN, i32::MIN), Size::new(u32::MAX, u32::MAX)).left_half();
    assert_eq!(result, Rectangle::new(Point::new(i32::MIN, i32::MIN), Size::new(u32::MAX / 2, u32::MAX)));
}

#[test]
fn left_half_of_max_max_max_max() {
    let result = Rectangle::new(Point::new(i32::MAX, i32::MAX), Size::new(u32::MAX, u32::MAX)).left_half();
    assert_eq!(result, Rectangle::new(Point::new(i32::MAX, i32::MAX), Size::new(u32::MAX / 2, u32::MAX)));
}

#[test]
fn right_half_of_1111_2222_3333_4444() {
    let result = Rectangle::new(Point::new(1111, 2222), Size::new(3333, 4444)).right_half();
    assert_eq!(result, Rectangle::new(Point::new(1111 + 3333 / 2, 2222), Size::new(3333 / 2 + 1, 4444)));
}

#[test]
fn right_half_of_0_0_0_0() {
    let result = Rectangle::new(Point::new(0, 0), Size::new(0, 0)).right_half();
    assert_eq!(result, Rectangle::new(Point::new(0, 0), Size::new(0, 0)));
}

#[test]
fn right_half_of_min_min_max_max() {
    let result = Rectangle::new(Point::new(i32::MIN, i32::MIN), Size::new(u32::MAX, u32::MAX)).right_half();
    assert_eq!(result, Rectangle::new(Point::new(-1, i32::MIN), Size::new(u32::MAX / 2 + 1, u32::MAX)));
}

#[test]
fn right_half_of_max_max_max_max() {
    let result = Rectangle::new(Point::new(i32::MAX, i32::MAX), Size::new(u32::MAX, u32::MAX)).right_half();
    assert_eq!(result, Rectangle::new(Point::new(i32::MAX, i32::MAX), Size::new(u32::MAX / 2 + 1, u32::MAX)));
}

#[test]
fn left_of_800_for_1111_2222_3333_4444() {
    let result = Rectangle::new(Point::new(1111, 2222), Size::new(3333, 4444)).left_of(&Rectangle::new(Point::new(800, 2222), Size::new(3333, 4444)));
    assert_eq!(result, Rectangle::new(Point::new(1111, 2222), Size::new(0, 4444)));
}

#[test]
fn left_of_1600_for_1111_2222_3333_4444() {
    let result = Rectangle::new(Point::new(1111, 2222), Size::new(3333, 4444)).left_of(&Rectangle::new(Point::new(1600, 2222), Size::new(3333, 4444)));
    assert_eq!(result, Rectangle::new(Point::new(1111, 2222), Size::new(1600 - 1111, 4444)));
}

#[test]
fn left_of_3200_for_1111_2222_3333_4444() {
    let result = Rectangle::new(Point::new(1111, 2222), Size::new(3333, 4444)).left_of(&Rectangle::new(Point::new(3200, 2222), Size::new(3333, 4444)));
    assert_eq!(result, Rectangle::new(Point::new(1111, 2222), Size::new(3200 - 1111, 4444)));
}

#[test]
fn left_of_6400_for_1111_2222_3333_4444() {
    let result = Rectangle::new(Point::new(1111, 2222), Size::new(3333, 4444)).left_of(&Rectangle::new(Point::new(6400, 2222), Size::new(3333, 4444)));
    assert_eq!(result, Rectangle::new(Point::new(1111, 2222), Size::new(3333, 4444)));
}

#[test]
fn left_of_0_for_0_0_0_0() {
    let result = Rectangle::new(Point::new(0, 0), Size::new(0, 0)).left_of(&Rectangle::new(Point::new(0, 0), Size::new(0, 0)));
    assert_eq!(result, Rectangle::new(Point::new(0, 0), Size::new(0, 0)));
}

#[test]
fn left_of_minus_1_for_min_min_max_max() {
    let result = Rectangle::new(Point::new(i32::MIN, i32::MIN), Size::new(u32::MAX, u32::MAX)).left_of(&Rectangle::new(Point::new(-1, i32::MIN), Size::new(u32::MAX, u32::MAX)));
    assert_eq!(result, Rectangle::new(Point::new(i32::MIN, i32::MIN), Size::new(u32::MAX / 2, u32::MAX)));
}

#[test]
fn left_of_minus_1_for_max_max_max_max() {
    let result = Rectangle::new(Point::new(i32::MAX, i32::MAX), Size::new(u32::MAX, u32::MAX)).left_of(&Rectangle::new(Point::new(-1, i32::MIN), Size::new(u32::MAX, u32::MAX)));
    assert_eq!(result, Rectangle::new(Point::new(i32::MAX, i32::MAX), Size::new(0, u32::MAX)));
}

#[test]
fn right_of_800_for_1111_2222_3333_4444() {
    let result = Rectangle::new(Point::new(1111, 2222), Size::new(3333, 4444)).right_of(&Rectangle::new(Point::new(0, 2222), Size::new(800, 4444)));
    assert_eq!(result, Rectangle::new(Point::new(1111, 2222), Size::new(3333, 4444)));
}

#[test]
fn right_of_1600_for_1111_2222_3333_4444() {
    let result = Rectangle::new(Point::new(1111, 2222), Size::new(3333, 4444)).right_of(&Rectangle::new(Point::new(0, 2222), Size::new(1600, 4444)));
    assert_eq!(result, Rectangle::new(Point::new(1600, 2222), Size::new(3333 + 1111 - 1600, 4444)));
}

#[test]
fn right_of_3200_for_1111_2222_3333_4444() {
    let result = Rectangle::new(Point::new(1111, 2222), Size::new(3333, 4444)).right_of(&Rectangle::new(Point::new(0, 2222), Size::new(3200, 4444)));
    assert_eq!(result, Rectangle::new(Point::new(3200, 2222), Size::new(3333 + 1111 - 3200, 4444)));
}

#[test]
fn right_of_6400_for_1111_2222_3333_4444() {
    let result = Rectangle::new(Point::new(1111, 2222), Size::new(3333, 4444)).right_of(&Rectangle::new(Point::new(0, 2222), Size::new(6400, 4444)));
    assert_eq!(result, Rectangle::new(Point::new(6400, 2222), Size::new(0, 4444)));
}

#[test]
fn right_of_0_for_0_0_0_0() {
    let result = Rectangle::new(Point::new(0, 0), Size::new(0, 0)).right_of(&Rectangle::new(Point::new(0, 0), Size::new(0, 0)));
    assert_eq!(result, Rectangle::new(Point::new(0, 0), Size::new(0, 0)));
}

#[test]
fn right_of_minus_1_for_min_min_max_max() {
    let result = Rectangle::new(Point::new(i32::MIN, i32::MIN), Size::new(u32::MAX, u32::MAX)).right_of(&Rectangle::new(Point::new(i32::MIN, i32::MIN), Size::new(u32::MAX / 2, u32::MAX)));
    assert_eq!(result, Rectangle::new(Point::new(-1, i32::MIN), Size::new(u32::MAX / 2 + 1, u32::MAX)));
}

#[test]
fn right_of_minus_1_for_max_max_max_max() {
    let result = Rectangle::new(Point::new(i32::MAX, i32::MAX), Size::new(u32::MAX, u32::MAX)).right_of(&Rectangle::new(Point::new(i32::MIN, i32::MIN), Size::new(u32::MAX / 2, u32::MAX)));
    assert_eq!(result, Rectangle::new(Point::new(i32::MAX, i32::MAX), Size::new(u32::MAX, u32::MAX)));
}

#[test]
fn above_800_for_1111_2222_3333_4444() {
    let result = Rectangle::new(Point::new(1111, 2222), Size::new(3333, 4444)).above(&Rectangle::new(Point::new(2222, 800), Size::new(3333, 4444)));
    assert_eq!(result, Rectangle::new(Point::new(1111, 2222), Size::new(3333, 0)));
}

#[test]
fn above_1600_for_1111_2222_3333_4444() {
    let result = Rectangle::new(Point::new(1111, 2222), Size::new(3333, 4444)).above(&Rectangle::new(Point::new(2222, 1600), Size::new(3333, 4444)));
    assert_eq!(result, Rectangle::new(Point::new(1111, 2222), Size::new(3333, 0)));
}

#[test]
fn above_3200_for_1111_2222_3333_4444() {
    let result = Rectangle::new(Point::new(1111, 2222), Size::new(3333, 4444)).above(&Rectangle::new(Point::new(1111, 3200), Size::new(3333, 4444)));
    assert_eq!(result, Rectangle::new(Point::new(1111, 2222), Size::new(3333, 3200 - 2222)));
}

#[test]
fn above_6400_for_1111_2222_3333_4444() {
    let result = Rectangle::new(Point::new(1111, 2222), Size::new(3333, 4444)).above(&Rectangle::new(Point::new(1111, 6400), Size::new(3333, 4444)));
    assert_eq!(result, Rectangle::new(Point::new(1111, 2222), Size::new(3333, 6400 - 2222)));
}

#[test]
fn above_0_for_0_0_0_0() {
    let result = Rectangle::new(Point::new(0, 0), Size::new(0, 0)).above(&Rectangle::new(Point::new(0, 0), Size::new(0, 0)));
    assert_eq!(result, Rectangle::new(Point::new(0, 0), Size::new(0, 0)));
}

#[test]
fn above_minus_1_for_min_min_max_max() {
    let result = Rectangle::new(Point::new(i32::MIN, i32::MIN), Size::new(u32::MAX, u32::MAX)).above(&Rectangle::new(Point::new(i32::MIN, -1), Size::new(u32::MAX, u32::MAX)));
    assert_eq!(result, Rectangle::new(Point::new(i32::MIN, i32::MIN), Size::new(u32::MAX, u32::MAX / 2)));
}

#[test]
fn above_minus_1_for_max_max_max_max() {
    let result = Rectangle::new(Point::new(i32::MAX, i32::MAX), Size::new(u32::MAX, u32::MAX)).above(&Rectangle::new(Point::new(i32::MIN, -1), Size::new(u32::MAX, u32::MAX)));
    assert_eq!(result, Rectangle::new(Point::new(i32::MAX, i32::MAX), Size::new(u32::MAX, 0)));
}

#[test]
fn below_800_for_1111_2222_3333_4444() {
    let result = Rectangle::new(Point::new(1111, 2222), Size::new(3333, 4444)).below(&Rectangle::new(Point::new(1111, 0), Size::new(3333, 800)));
    assert_eq!(result, Rectangle::new(Point::new(1111, 2222), Size::new(3333, 4444)));
}

#[test]
fn below_1600_for_1111_2222_3333_4444() {
    let result = Rectangle::new(Point::new(1111, 2222), Size::new(3333, 4444)).below(&Rectangle::new(Point::new(1111, 0), Size::new(3333, 1600)));
    assert_eq!(result, Rectangle::new(Point::new(1111, 2222), Size::new(3333, 4444)));
}

#[test]
fn below_3200_for_1111_2222_3333_4444() {
    let result = Rectangle::new(Point::new(1111, 2222), Size::new(3333, 4444)).below(&Rectangle::new(Point::new(1111, 0), Size::new(3333, 3200)));
    assert_eq!(result, Rectangle::new(Point::new(1111, 3200), Size::new(3333, 4444 + 2222 - 3200)));
}

#[test]
fn below_6400_for_1111_2222_3333_4444() {
    let result = Rectangle::new(Point::new(1111, 2222), Size::new(3333, 4444)).below(&Rectangle::new(Point::new(1111, 0), Size::new(3333, 6400)));
    assert_eq!(result, Rectangle::new(Point::new(1111, 6400), Size::new(3333, 4444 + 2222 - 6400)));
}

#[test]
fn below_0_for_0_0_0_0() {
    let result = Rectangle::new(Point::new(0, 0), Size::new(0, 0)).below(&Rectangle::new(Point::new(0, 0), Size::new(0, 0)));
    assert_eq!(result, Rectangle::new(Point::new(0, 0), Size::new(0, 0)));
}

#[test]
fn below_minus_1_for_min_min_max_max() {
    let result = Rectangle::new(Point::new(i32::MIN, i32::MIN), Size::new(u32::MAX, u32::MAX)).below(&Rectangle::new(Point::new(i32::MIN, i32::MIN), Size::new(u32::MAX, u32::MAX / 2)));
    assert_eq!(result, Rectangle::new(Point::new(i32::MIN, -1), Size::new(u32::MAX, u32::MAX / 2 + 1)));
}

#[test]
fn below_minus_1_for_max_max_max_max() {
    let result = Rectangle::new(Point::new(i32::MAX, i32::MAX), Size::new(u32::MAX, u32::MAX)).below(&Rectangle::new(Point::new(i32::MIN, i32::MIN), Size::new(u32::MAX, u32::MAX / 2)));
    assert_eq!(result, Rectangle::new(Point::new(i32::MAX, i32::MAX), Size::new(u32::MAX, u32::MAX)));
}

#[test]
fn y_extend_top_to_0_for_1111_2222_3333_4444() {
    let result = Rectangle::new(Point::new(1111, 2222), Size::new(3333, 4444)).y_extend(0, 4444 + 2222);
    assert_eq!(result, Rectangle::new(Point::new(1111, 0), Size::new(3333, 4444 + 2222)));
}

#[test]
fn y_extend_top_to_1600_for_1111_2222_3333_4444() {
    let result = Rectangle::new(Point::new(1111, 2222), Size::new(3333, 4444)).y_extend(1600, 4444 + 2222 - 1600);
    assert_eq!(result, Rectangle::new(Point::new(1111, 1600), Size::new(3333, 4444 + 2222 - 1600)));
}

#[test]
fn y_extend_bottom_to_3200_for_1111_2222_3333_4444() {
    let result = Rectangle::new(Point::new(1111, 2222), Size::new(3333, 4444)).y_extend(2222, 3200);
    assert_eq!(result, Rectangle::new(Point::new(1111, 2222), Size::new(3333, 4444)));
}

#[test]
fn y_extend_bottom_to_6400_for_1111_2222_3333_4444() {
    let result = Rectangle::new(Point::new(1111, 2222), Size::new(3333, 4444)).y_extend(2222, 6400);
    assert_eq!(result, Rectangle::new(Point::new(1111, 2222), Size::new(3333, 4444)));
}

#[test]
fn y_extend_bottom_to_12800_for_1111_2222_3333_4444() {
    let result = Rectangle::new(Point::new(1111, 2222), Size::new(3333, 4444)).y_extend(2222, 12800);
    assert_eq!(result, Rectangle::new(Point::new(1111, 2222), Size::new(3333, 12800 - 2222)));
}

#[test]
fn y_extend_top_to_0_and_bottom_to_25600_for_1111_2222_3333_4444() {
    let result = Rectangle::new(Point::new(1111, 2222), Size::new(3333, 4444)).y_extend(0, 25600);
    assert_eq!(result, Rectangle::new(Point::new(1111, 0), Size::new(3333, 25600)));
}

#[test]
fn y_extend_top_to_25600_and_bottom_to_0_for_1111_2222_3333_4444() {
    let result = Rectangle::new(Point::new(1111, 2222), Size::new(3333, 4444)).y_extend(25600, 0);
    assert_eq!(result, Rectangle::new(Point::new(1111, 2222), Size::new(3333, 4444)));
}

#[test]
fn y_extend_top_to_half_min_and_bottom_to_half_max_for_1111_2222_3333_4444() {
    let result = Rectangle::new(Point::new(1111, 2222), Size::new(3333, 4444)).y_extend(i32::MIN / 2, i32::MAX / 2);
    assert_eq!(result, Rectangle::new(Point::new(1111, i32::MIN / 2), Size::new(3333, u32::MAX / 2)));
}

#[test]
fn y_extend_top_to_0_and_bottom_to_max_for_1111_2222_3333_4444() {
    let result = Rectangle::new(Point::new(1111, 2222), Size::new(3333, 4444)).y_extend(0, i32::MAX);
    assert_eq!(result, Rectangle::new(Point::new(1111, 0), Size::new(3333, u32::MAX / 2)));
}

#[test]
fn y_extend_top_to_max_and_bottom_to_max_for_1111_2222_3333_4444() {
    let result = Rectangle::new(Point::new(1111, 2222), Size::new(3333, 4444)).y_extend(i32::MAX, i32::MAX);
    assert_eq!(result, Rectangle::new(Point::new(1111, 2222), Size::new(3333, u32::MAX / 2 - 2222)));
}

#[test]
fn y_reduce_top_to_0_for_1111_2222_3333_4444() {
    let result = Rectangle::new(Point::new(1111, 2222), Size::new(3333, 4444)).y_reduce(0, 4444 + 2222);
    assert_eq!(result, Rectangle::new(Point::new(1111, 2222), Size::new(3333, 4444)));
}

#[test]
fn y_reduce_top_to_1600_for_1111_2222_3333_4444() {
    let result = Rectangle::new(Point::new(1111, 2222), Size::new(3333, 4444)).y_reduce(1600, 4444 + 2222);
    assert_eq!(result, Rectangle::new(Point::new(1111, 2222), Size::new(3333, 4444)));
}

#[test]
fn y_reduce_top_to_3200_for_1111_2222_3333_4444() {
    let result = Rectangle::new(Point::new(1111, 2222), Size::new(3333, 4444)).y_reduce(3200, 4444 + 2222);
    assert_eq!(result, Rectangle::new(Point::new(1111, 3200), Size::new(3333, 4444 + 2222 - 3200)));
}

#[test]
fn y_reduce_top_to_6400_for_1111_2222_3333_4444() {
    let result = Rectangle::new(Point::new(1111, 2222), Size::new(3333, 4444)).y_reduce(6400, 4444 + 2222);
    assert_eq!(result, Rectangle::new(Point::new(1111, 6400), Size::new(3333, 4444 + 2222 - 6400)));
}

#[test]
fn y_reduce_bottom_to_3200_for_1111_2222_3333_4444() {
    let result = Rectangle::new(Point::new(1111, 2222), Size::new(3333, 4444)).y_reduce(2222, 3200);
    assert_eq!(result, Rectangle::new(Point::new(1111, 2222), Size::new(3333, 3200 - 2222)));
}

#[test]
fn y_reduce_bottom_to_6400_for_1111_2222_3333_4444() {
    let result = Rectangle::new(Point::new(1111, 2222), Size::new(3333, 4444)).y_reduce(2222, 6400);
    assert_eq!(result, Rectangle::new(Point::new(1111, 2222), Size::new(3333, 6400 - 2222)));
}

#[test]
fn y_reduce_bottom_to_12800_for_1111_2222_3333_4444() {
    let result = Rectangle::new(Point::new(1111, 2222), Size::new(3333, 4444)).y_reduce(2222, 12800);
    assert_eq!(result, Rectangle::new(Point::new(1111, 2222), Size::new(3333, 4444)));
}

#[test]
fn y_reduce_top_to_0_and_bottom_to_25600_for_1111_2222_3333_4444() {
    let result = Rectangle::new(Point::new(1111, 2222), Size::new(3333, 4444)).y_reduce(0, 25600);
    assert_eq!(result, Rectangle::new(Point::new(1111, 2222), Size::new(3333, 4444)));
}

#[test]
fn y_reduce_top_to_25600_and_bottom_to_0_for_1111_2222_3333_4444() {
    let result = Rectangle::new(Point::new(1111, 2222), Size::new(3333, 4444)).y_reduce(25600, 0);
    assert_eq!(result, Rectangle::new(Point::new(1111, 25600), Size::new(3333, 0)));
}

#[test]
fn y_reduce_top_to_max_and_bottom_to_max_for_1111_2222_3333_4444() {
    let result = Rectangle::new(Point::new(1111, 2222), Size::new(3333, 4444)).y_reduce(i32::MAX, i32::MAX);
    assert_eq!(result, Rectangle::new(Point::new(1111, i32::MAX), Size::new(3333, 0)));
}

#[test]
fn indent_to_800_for_1111_2222_3333_4444() {
    let result = Rectangle::new(Point::new(1111, 2222), Size::new(3333, 4444)).indent_to(800);
    assert_eq!(result, Rectangle::new(Point::new(1111, 2222), Size::new(3333, 4444)));
}

#[test]
fn indent_to_1600_for_1111_2222_3333_4444() {
    let result = Rectangle::new(Point::new(1111, 2222), Size::new(3333, 4444)).indent_to(1600);
    assert_eq!(result, Rectangle::new(Point::new(1600, 2222), Size::new(3333 + 1111 - 1600, 4444)));
}

#[test]
fn indent_to_3200_for_1111_2222_3333_4444() {
    let result = Rectangle::new(Point::new(1111, 2222), Size::new(3333, 4444)).indent_to(3200);
    assert_eq!(result, Rectangle::new(Point::new(3200, 2222), Size::new(3333 + 1111 - 3200, 4444)));
}

#[test]
fn indent_to_6400_for_1111_2222_3333_4444() {
    let result = Rectangle::new(Point::new(1111, 2222), Size::new(3333, 4444)).indent_to(6400);
    assert_eq!(result, Rectangle::new(Point::new(6400, 2222), Size::new(0, 4444)));
}

#[test]
fn indent_to_0_for_0_0_0_0() {
    let result = Rectangle::new(Point::new(0, 0), Size::new(0, 0)).indent_to(0);
    assert_eq!(result, Rectangle::new(Point::new(0, 0), Size::new(0, 0)));
}

#[test]
fn indent_to_minus_1_for_min_min_max_max() {
    let result = Rectangle::new(Point::new(i32::MIN, i32::MIN), Size::new(u32::MAX, u32::MAX)).indent_to(-1);
    assert_eq!(result, Rectangle::new(Point::new(-1, i32::MIN), Size::new(u32::MAX / 2 + 1, u32::MAX)));
}

#[test]
fn indent_to_minus_1_for_max_max_max_max() {
    let result = Rectangle::new(Point::new(i32::MAX, i32::MAX), Size::new(u32::MAX, u32::MAX)).indent_to(-1);
    assert_eq!(result, Rectangle::new(Point::new(i32::MAX, i32::MAX), Size::new(u32::MAX, u32::MAX)));
}

#[test]
fn extrude_to_800_for_1111_2222_3333_4444() {
    let result = Rectangle::new(Point::new(1111, 2222), Size::new(3333, 4444)).extrude_to(800);
    assert_eq!(result, Rectangle::new(Point::new(1111, 2222), Size::new(3333, 4444)));
}

#[test]
fn extrude_to_1600_for_1111_2222_3333_4444() {
    let result = Rectangle::new(Point::new(1111, 2222), Size::new(3333, 4444)).extrude_to(1600);
    assert_eq!(result, Rectangle::new(Point::new(1111, 2222), Size::new(3333, 4444)));
}

#[test]
fn extrude_to_3200_for_1111_2222_3333_4444() {
    let result = Rectangle::new(Point::new(1111, 2222), Size::new(3333, 4444)).extrude_to(3200);
    assert_eq!(result, Rectangle::new(Point::new(1111, 2222), Size::new(3333, 4444)));
}

#[test]
fn extrude_to_6400_for_1111_2222_3333_4444() {
    let result = Rectangle::new(Point::new(1111, 2222), Size::new(3333, 4444)).extrude_to(6400);
    assert_eq!(result, Rectangle::new(Point::new(1111, 2222), Size::new(6400 - 1111, 4444)));
}

#[test]
fn extrude_to_max_for_0_0_0_0() {
    let result = Rectangle::new(Point::new(0, 0), Size::new(0, 0)).extrude_to(i32::MAX);
    assert_eq!(result, Rectangle::new(Point::new(0, 0), Size::new(u32::MAX / 2, 0)));
}

#[test]
fn extrude_to_max_for_min_min_max_max() {
    let result = Rectangle::new(Point::new(i32::MIN, i32::MIN), Size::new(u32::MAX, u32::MAX)).extrude_to(i32::MAX);
    assert_eq!(result, Rectangle::new(Point::new(i32::MIN, i32::MIN), Size::new(u32::MAX, u32::MAX)));
}

#[test]
fn extrude_to_max_for_max_max_max_max() {
    let result = Rectangle::new(Point::new(i32::MAX, i32::MAX), Size::new(u32::MAX, u32::MAX)).extrude_to(i32::MAX);
    assert_eq!(result, Rectangle::new(Point::new(i32::MAX, i32::MAX), Size::new(u32::MAX, u32::MAX)));
}

