//! Tests of the field functions for addable empty-value fields, nested
//! fields with an empty value, and `Vec` fillers.

use struct_patch::field::{
    add_disjoint_fields_unless_empty, add_fields_unless_empty, apply_field,
    apply_nested_field_unless_empty, diff_field, diff_nested_field_or_empty, fill_vec_field,
};
use struct_patch::Patch;

#[derive(Debug, PartialEq, Clone)]
struct Point {
    x: u32,
    y: u32,
}

#[derive(Debug, PartialEq, Clone)]
struct PointPatch {
    x: Option<u32>,
    y: Option<u32>,
}

const EMPTY_POINT_PATCH: PointPatch = PointPatch { x: None, y: None };

impl Patch<PointPatch> for Point {
    fn apply(&mut self, patch: PointPatch) {
        apply_field(&mut self.x, patch.x);
        apply_field(&mut self.y, patch.y);
    }

    fn into_patch(self) -> PointPatch {
        PointPatch {
            x: Some(self.x),
            y: Some(self.y),
        }
    }

    fn into_patch_by_diff(self, previous_struct: Self) -> PointPatch {
        PointPatch {
            x: diff_field(self.x, previous_struct.x),
            y: diff_field(self.y, previous_struct.y),
        }
    }

    fn new_empty_patch() -> PointPatch {
        EMPTY_POINT_PATCH
    }
}

#[test]
fn add_unless_empty_sums_two_set_values() {
    assert_eq!(add_fields_unless_empty(3u32, 4, 0, |a, b| a + b), 7);
    assert_eq!(add_fields_unless_empty(3u32, 0, 0, |a, b| a + b), 3);
    assert_eq!(add_fields_unless_empty(0u32, 4, 0, |a, b| a + b), 4);
    assert_eq!(add_fields_unless_empty(0u32, 0, 0, |a, b| a + b), 0);
}

#[test]
fn add_disjoint_unless_empty_takes_the_set_one() {
    assert_eq!(add_disjoint_fields_unless_empty(5u32, 0, 0), 5);
    assert_eq!(add_disjoint_fields_unless_empty(0u32, 6, 0), 6);
    assert_eq!(add_disjoint_fields_unless_empty(0u32, 0, 0), 0);
}

#[test]
fn nested_unless_empty_applies_only_a_set_patch() {
    let mut p = Point { x: 1, y: 2 };
    apply_nested_field_unless_empty(&mut p, EMPTY_POINT_PATCH, &EMPTY_POINT_PATCH);
    assert_eq!(p, Point { x: 1, y: 2 });
    apply_nested_field_unless_empty(
        &mut p,
        PointPatch {
            x: None,
            y: Some(9),
        },
        &EMPTY_POINT_PATCH,
    );
    assert_eq!(p, Point { x: 1, y: 9 });
}

#[test]
fn nested_diff_or_empty() {
    let same = diff_nested_field_or_empty(Point { x: 1, y: 2 }, Point { x: 1, y: 2 }, EMPTY_POINT_PATCH);
    assert_eq!(same, EMPTY_POINT_PATCH);
    let changed =
        diff_nested_field_or_empty(Point { x: 1, y: 5 }, Point { x: 1, y: 2 }, EMPTY_POINT_PATCH);
    assert_eq!(
        changed,
        PointPatch {
            x: None,
            y: Some(5)
        }
    );
    let mut rebuilt = Point { x: 1, y: 2 };
    rebuilt.apply(changed);
    assert_eq!(rebuilt, Point { x: 1, y: 5 });
}

#[test]
fn vec_filler_fills_only_an_empty_list() {
    let mut empty: Vec<u32> = vec![];
    fill_vec_field(&mut empty, vec![1, 2]);
    assert_eq!(empty, vec![1, 2]);
    let mut full = vec![7u32];
    fill_vec_field(&mut full, vec![1, 2]);
    assert_eq!(full, vec![7]);
}
