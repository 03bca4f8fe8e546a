//! Tests of list patching, with the patch types that `#[derive(Patch)]`
//! generates for them written out.

use std::ops::Add;

use struct_patch::field::{add_disjoint_fields, apply_field, diff_field, merge_fields};
use struct_patch::list::{
    diff_list_patch, into_list_patch, merge_list_patches, ListPatchApply, ListPatchOp,
};
use struct_patch::{Merge, Patch, Status};

#[derive(Clone, Debug, Default, PartialEq)]
struct Inner {
    id: u32,
    value: u32,
    label: String,
}

#[derive(Debug, Default, Clone, PartialEq)]
struct InnerPatch {
    id: Option<u32>,
    value: Option<u32>,
    label: Option<String>,
}

impl Patch<InnerPatch> for Inner {
    fn apply(&mut self, patch: InnerPatch) {
        apply_field(&mut self.id, patch.id);
        apply_field(&mut self.value, patch.value);
        apply_field(&mut self.label, patch.label);
    }

    fn into_patch(self) -> InnerPatch {
        InnerPatch {
            id: Some(self.id),
            value: Some(self.value),
            label: Some(self.label),
        }
    }

    fn into_patch_by_diff(self, previous_struct: Self) -> InnerPatch {
        InnerPatch {
            id: diff_field(self.id, previous_struct.id),
            value: diff_field(self.value, previous_struct.value),
            label: diff_field(self.label, previous_struct.label),
        }
    }

    fn new_empty_patch() -> InnerPatch {
        InnerPatch {
            id: None,
            value: None,
            label: None,
        }
    }
}

#[derive(Clone, Debug, Default, PartialEq)]
struct Container {
    name: String,
    items: Vec<Inner>,
}

#[derive(Debug, Default, Clone, PartialEq)]
struct ContainerPatch {
    name: Option<String>,
    items: Vec<ListPatchOp<Inner, InnerPatch, u32>>,
}

fn inner_id(x: &Inner) -> u32 {
    x.id
}

impl Patch<ContainerPatch> for Container {
    fn apply(&mut self, patch: ContainerPatch) {
        apply_field(&mut self.name, patch.name);
        self.items.apply_list_patch_ops(patch.items, inner_id);
    }

    fn into_patch(self) -> ContainerPatch {
        ContainerPatch {
            name: Some(self.name),
            items: into_list_patch(self.items),
        }
    }

    fn into_patch_by_diff(self, previous_struct: Self) -> ContainerPatch {
        ContainerPatch {
            name: diff_field(self.name, previous_struct.name),
            items: diff_list_patch(self.items, previous_struct.items, inner_id),
        }
    }

    fn new_empty_patch() -> ContainerPatch {
        ContainerPatch {
            name: None,
            items: Vec::new(),
        }
    }
}

impl Status for ContainerPatch {
    fn is_empty(&self) -> bool {
        self.name.is_none() && self.items.is_empty()
    }
}

impl Merge for ContainerPatch {
    fn merge(self, other: Self) -> Self {
        ContainerPatch {
            name: merge_fields(self.name, other.name),
            items: merge_list_patches(self.items, other.items),
        }
    }
}

impl Add<Self> for ContainerPatch {
    type Output = Self;

    fn add(self, rhs: Self) -> Self {
        if self.name.is_some() && rhs.name.is_some() {
            panic!("There are conflict patches, please use `#[patch(addable)]` if you want to add these values.");
        }
        ContainerPatch {
            name: add_disjoint_fields(self.name, rhs.name),
            items: merge_list_patches(self.items, rhs.items),
        }
    }
}

fn inner(id: u32, value: u32, label: &str) -> Inner {
    Inner {
        id,
        value,
        label: label.into(),
    }
}

/// Direct unit tests for the `ListPatchOp` helpers.
#[test]
fn list_patch_op_apply_to_smoke() {
    let mut v: Vec<Inner> = vec![];
    let id_fn = |x: &Inner| x.id;

    ListPatchOp::<Inner, InnerPatch, u32>::append(Inner {
        id: 1,
        value: 10,
        label: "a".into(),
    })
    .apply_to(&mut v, id_fn);
    ListPatchOp::<Inner, InnerPatch, u32>::append(Inner {
        id: 2,
        value: 20,
        label: "b".into(),
    })
    .apply_to(&mut v, id_fn);
    assert_eq!(v.len(), 2);

    // Modify by id
    ListPatchOp::modify(
        1u32,
        InnerPatch {
            value: Some(100),
            ..Default::default()
        },
    )
    .apply_to(&mut v, id_fn);
    assert_eq!(v[0].value, 100);
    assert_eq!(v[0].label, "a");

    // Prepend
    ListPatchOp::<Inner, InnerPatch, u32>::prepend(Inner {
        id: 0,
        value: 0,
        label: "z".into(),
    })
    .apply_to(&mut v, id_fn);
    assert_eq!(v[0].id, 0);

    // Insert at index 2
    ListPatchOp::<Inner, InnerPatch, u32>::insert(
        2,
        Inner {
            id: 5,
            value: 50,
            label: "m".into(),
        },
    )
    .apply_to(&mut v, id_fn);
    assert_eq!(v[2].id, 5);

    // Insert out-of-range clamps to append
    ListPatchOp::<Inner, InnerPatch, u32>::insert(
        999,
        Inner {
            id: 9,
            value: 90,
            label: "end".into(),
        },
    )
    .apply_to(&mut v, id_fn);
    assert_eq!(v.last().unwrap().id, 9);

    // Delete by id
    ListPatchOp::<Inner, InnerPatch, u32>::delete(2u32).apply_to(&mut v, id_fn);
    assert!(v.iter().all(|x| x.id != 2));

    // Modify unknown id is silently ignored
    ListPatchOp::modify(
        999u32,
        InnerPatch {
            value: Some(7),
            ..Default::default()
        },
    )
    .apply_to(&mut v, id_fn);
}

/// A patch containing a list field can be applied, mutating the list in
/// place.
#[test]
fn list_patch_apply_via_derive() {
    let mut container = Container {
        name: "orig".into(),
        items: vec![
            Inner {
                id: 1,
                value: 1,
                label: "one".into(),
            },
            Inner {
                id: 2,
                value: 2,
                label: "two".into(),
            },
        ],
    };

    let patch = ContainerPatch {
        name: Some("updated".into()),
        items: vec![
            // modify id=1
            ListPatchOp::modify(
                1u32,
                InnerPatch {
                    value: Some(11),
                    ..Default::default()
                },
            ),
            // delete id=2
            ListPatchOp::delete(2u32),
            // append a new id=3
            ListPatchOp::append(Inner {
                id: 3,
                value: 3,
                label: "three".into(),
            }),
            // prepend a new id=0
            ListPatchOp::prepend(Inner {
                id: 0,
                value: 0,
                label: "zero".into(),
            }),
        ],
    };

    container.apply(patch);

    assert_eq!(container.name, "updated");
    let ids: Vec<u32> = container.items.iter().map(|x| x.id).collect();
    // prepend(0), kept(1 with modified value), append(3)  (2 deleted)
    assert_eq!(ids, vec![0, 1, 3]);
    let one = container.items.iter().find(|x| x.id == 1).unwrap();
    assert_eq!(one.value, 11);
    assert_eq!(one.label, "one");
}

/// Empty patch (`new_empty_patch`) yields an empty Vec for list fields.
#[test]
fn list_patch_new_empty() {
    let p: ContainerPatch = Container::new_empty_patch();
    assert!(p.items.is_empty());
    assert!(p.is_empty());
}

/// `into_patch` serialises an existing instance as a series of `Append` ops.
#[test]
fn list_patch_into_patch() {
    let container = Container {
        name: "x".into(),
        items: vec![
            Inner {
                id: 1,
                value: 1,
                label: "a".into(),
            },
            Inner {
                id: 2,
                value: 2,
                label: "b".into(),
            },
        ],
    };
    let patch: ContainerPatch = container.into_patch();
    assert_eq!(patch.items.len(), 2);
    for op in &patch.items {
        match op {
            ListPatchOp::Append { .. } => {}
            _ => panic!("expected only Append ops, got {:?}", op),
        }
    }
}

/// `into_patch_by_diff` produces a structural diff using ids.
#[test]
fn list_patch_into_patch_by_diff() {
    let previous = Container {
        name: "old".into(),
        items: vec![
            Inner {
                id: 1,
                value: 1,
                label: "a".into(),
            },
            Inner {
                id: 2,
                value: 2,
                label: "b".into(),
            },
            Inner {
                id: 3,
                value: 3,
                label: "c".into(),
            },
        ],
    };
    let current = Container {
        name: "new".into(),
        items: vec![
            // id=1 unchanged
            Inner {
                id: 1,
                value: 1,
                label: "a".into(),
            },
            // id=2 modified
            Inner {
                id: 2,
                value: 22,
                label: "b".into(),
            },
            // id=4 added
            Inner {
                id: 4,
                value: 4,
                label: "d".into(),
            },
            // id=3 deleted
        ],
    };

    let patch: ContainerPatch = current.clone().into_patch_by_diff(previous);

    // Name changed too
    assert_eq!(patch.name, Some("new".into()));

    let mut n_append = 0;
    let mut n_delete = 0;
    let mut n_modify = 0;
    for op in &patch.items {
        match op {
            ListPatchOp::Append { value } => {
                assert_eq!(value.id, 4);
                n_append += 1;
            }
            ListPatchOp::Delete { id } => {
                assert_eq!(*id, 3);
                n_delete += 1;
            }
            ListPatchOp::Modify { id, value } => {
                // Every matched element gets a `Modify`; unchanged ones carry
                // an (idempotent) empty sub-patch.
                if *id == 2 {
                    assert_eq!(value.value, Some(22));
                } else {
                    assert_eq!(*id, 1);
                    assert_eq!(value.value, None);
                }
                n_modify += 1;
            }
            _ => {}
        }
    }
    assert_eq!(n_append, 1);
    assert_eq!(n_delete, 1);
    assert_eq!(n_modify, 2);

    // Apply the diff to the previous state; should reconstruct `current`
    let mut state = Container {
        name: "old".into(),
        items: vec![
            Inner {
                id: 1,
                value: 1,
                label: "a".into(),
            },
            Inner {
                id: 2,
                value: 2,
                label: "b".into(),
            },
            Inner {
                id: 3,
                value: 3,
                label: "c".into(),
            },
        ],
    };
    state.apply(patch);
    // Compare item-by-item by id rather than order-sensitive, since delete +
    // append don't preserve position.
    let mut actual: Vec<(u32, u32, String)> = state
        .items
        .iter()
        .map(|i| (i.id, i.value, i.label.clone()))
        .collect();
    actual.sort_by_key(|x| x.0);
    let mut expected: Vec<(u32, u32, String)> = current
        .items
        .iter()
        .map(|i| (i.id, i.value, i.label.clone()))
        .collect();
    expected.sort_by_key(|x| x.0);
    assert_eq!(actual, expected);
    assert_eq!(state.name, "new");
}

/// Unknown id in `Modify` and `Delete` is silently ignored; we don't panic.
#[test]
fn list_patch_unknown_id_ignored() {
    let mut container = Container {
        name: "x".into(),
        items: vec![Inner {
            id: 1,
            value: 1,
            label: "one".into(),
        }],
    };

    let patch = ContainerPatch {
        name: None,
        items: vec![
            ListPatchOp::delete(999u32),
            ListPatchOp::modify(
                999u32,
                InnerPatch {
                    value: Some(7),
                    ..Default::default()
                },
            ),
        ],
    };
    container.apply(patch);
    assert_eq!(container.items.len(), 1);
    assert_eq!(container.items[0].id, 1);
}

/// Sanity-check the public `ListPatchApply` trait.
#[test]
fn list_patch_apply_trait_object_safe() {
    let mut v: Vec<Inner> = vec![Inner {
        id: 1,
        value: 1,
        label: "a".into(),
    }];
    let ops: Vec<ListPatchOp<Inner, InnerPatch, u32>> = vec![
        ListPatchOp::Append {
            value: Inner {
                id: 2,
                value: 2,
                label: "b".into(),
            },
        },
        ListPatchOp::Delete { id: 1 },
    ];

    <Vec<Inner> as ListPatchApply>::apply_list_patch_ops(&mut v, ops, |x: &Inner| x.id);
    assert_eq!(v.len(), 1);
    assert_eq!(v[0].id, 2);
}

#[test]
fn list_patch_status_impl() {
    let empty = ContainerPatch {
        name: None,
        items: vec![],
    };
    assert!(empty.is_empty());

    let non_empty = ContainerPatch {
        name: None,
        items: vec![ListPatchOp::delete(1u32)],
    };
    assert!(!non_empty.is_empty());
}

#[test]
fn list_patch_add_concatenates() {
    let p1 = ContainerPatch {
        name: None,
        items: vec![ListPatchOp::delete(1u32)],
    };
    let p2 = ContainerPatch {
        name: None,
        items: vec![ListPatchOp::delete(2u32)],
    };
    let combined = p1 + p2;
    assert_eq!(combined.items.len(), 2);
}

#[test]
fn list_patch_merge_concatenates() {
    let p1 = ContainerPatch {
        name: None,
        items: vec![ListPatchOp::delete(1u32)],
    };
    let p2 = ContainerPatch {
        name: None,
        items: vec![ListPatchOp::delete(2u32)],
    };
    let combined = p1.merge(p2);
    assert_eq!(combined.items.len(), 2);
}

/// `format!` works (sanity that strings are wired up).
#[test]
fn format_works() {
    assert_eq!(format!("{}", 1), "1");
}

// ---------------------------------------------------------------------------
// Further cases of the list operations.

#[test]
fn delete_removes_every_element_with_the_id() {
    let mut v = vec![inner(1, 1, "a"), inner(2, 2, "b"), inner(1, 3, "c"), inner(3, 4, "d")];
    ListPatchOp::<Inner, InnerPatch, u32>::delete(1).apply_to(&mut v, inner_id);
    let ids: Vec<u32> = v.iter().map(|x| x.id).collect();
    assert_eq!(ids, vec![2, 3]);
    assert_eq!(v[0].label, "b");
}

#[test]
fn modify_patches_only_the_first_element_with_the_id() {
    let mut v = vec![inner(1, 1, "a"), inner(1, 2, "b")];
    ListPatchOp::<Inner, InnerPatch, u32>::modify(
        1,
        InnerPatch {
            label: Some("x".into()),
            ..Default::default()
        },
    )
    .apply_to(&mut v, inner_id);
    assert_eq!(v[0], inner(1, 1, "x"));
    assert_eq!(v[1], inner(1, 2, "b"));
}

#[test]
fn insert_at_the_end_index_appends() {
    let mut v = vec![inner(1, 1, "a")];
    ListPatchOp::<Inner, InnerPatch, u32>::insert(1, inner(2, 2, "b")).apply_to(&mut v, inner_id);
    ListPatchOp::<Inner, InnerPatch, u32>::insert(0, inner(0, 0, "z")).apply_to(&mut v, inner_id);
    let ids: Vec<u32> = v.iter().map(|x| x.id).collect();
    assert_eq!(ids, vec![0, 1, 2]);
}

#[test]
fn ops_on_an_empty_list() {
    let mut v: Vec<Inner> = vec![];
    ListPatchOp::<Inner, InnerPatch, u32>::delete(1).apply_to(&mut v, inner_id);
    ListPatchOp::<Inner, InnerPatch, u32>::modify(1, InnerPatch::default())
        .apply_to(&mut v, inner_id);
    assert!(v.is_empty());
    ListPatchOp::<Inner, InnerPatch, u32>::insert(5, inner(7, 7, "x")).apply_to(&mut v, inner_id);
    assert_eq!(v, vec![inner(7, 7, "x")]);
}

#[test]
fn constructors_build_their_variant() {
    assert_eq!(
        ListPatchOp::<Inner, InnerPatch, u32>::prepend(inner(1, 1, "a")),
        ListPatchOp::Prepend {
            value: inner(1, 1, "a")
        }
    );
    assert_eq!(
        ListPatchOp::<Inner, InnerPatch, u32>::append(inner(1, 1, "a")),
        ListPatchOp::Append {
            value: inner(1, 1, "a")
        }
    );
    assert_eq!(
        ListPatchOp::<Inner, InnerPatch, u32>::insert(3, inner(1, 1, "a")),
        ListPatchOp::Insert {
            index: 3,
            value: inner(1, 1, "a")
        }
    );
    assert_eq!(
        ListPatchOp::<Inner, InnerPatch, u32>::delete(4),
        ListPatchOp::Delete { id: 4 }
    );
    assert_eq!(
        ListPatchOp::<Inner, InnerPatch, u32>::modify(4, InnerPatch::default()),
        ListPatchOp::Modify {
            id: 4,
            value: InnerPatch::default()
        }
    );
}

/// The full patch of a list applied to an empty list rebuilds it.
#[test]
fn law_list_into_patch_on_values() {
    let items = vec![inner(1, 1, "a"), inner(2, 2, "b")];
    let ops: Vec<ListPatchOp<Inner, InnerPatch, u32>> = into_list_patch(items.clone());
    let mut v = vec![];
    v.apply_list_patch_ops(ops.clone(), inner_id);
    assert_eq!(v, items);
    // On a list that is not empty, the appends land after what is there.
    let mut w = vec![inner(9, 9, "z")];
    w.apply_list_patch_ops(ops, inner_id);
    let ids: Vec<u32> = w.iter().map(|x| x.id).collect();
    assert_eq!(ids, vec![9, 1, 2]);
}

/// Applying merged list patches is applying one, then the other.
#[test]
fn law_list_merge_on_values() {
    let first: Vec<ListPatchOp<Inner, InnerPatch, u32>> = vec![
        ListPatchOp::append(inner(3, 3, "c")),
        ListPatchOp::delete(1),
    ];
    let second: Vec<ListPatchOp<Inner, InnerPatch, u32>> = vec![
        ListPatchOp::prepend(inner(0, 0, "z")),
        ListPatchOp::modify(
            3,
            InnerPatch {
                value: Some(30),
                ..Default::default()
            },
        ),
    ];
    let start = vec![inner(1, 1, "a"), inner(2, 2, "b")];
    let mut one_by_one = start.clone();
    one_by_one.apply_list_patch_ops(first.clone(), inner_id);
    one_by_one.apply_list_patch_ops(second.clone(), inner_id);
    let mut merged = start;
    merged.apply_list_patch_ops(merge_list_patches(first, second), inner_id);
    assert_eq!(merged, one_by_one);
    assert_eq!(merged, vec![inner(0, 0, "z"), inner(2, 2, "b"), inner(3, 30, "c")]);
}

/// The shape of a diff: matched elements first as `Modify`, in order, new
/// ones as `Append`, then the left-over previous elements as `Delete`.
#[test]
fn diff_list_patch_shape() {
    let previous = vec![inner(1, 1, "a"), inner(2, 2, "b"), inner(3, 3, "c")];
    let current = vec![inner(4, 4, "d"), inner(2, 2, "b"), inner(1, 10, "a")];
    let ops: Vec<ListPatchOp<Inner, InnerPatch, u32>> =
        diff_list_patch(current, previous, inner_id);
    assert_eq!(ops.len(), 4);
    assert_eq!(ops[0], ListPatchOp::Append { value: inner(4, 4, "d") });
    assert_eq!(
        ops[1],
        ListPatchOp::Modify {
            id: 2,
            value: InnerPatch::default()
        }
    );
    assert_eq!(
        ops[2],
        ListPatchOp::Modify {
            id: 1,
            value: InnerPatch {
                value: Some(10),
                ..Default::default()
            }
        }
    );
    assert_eq!(ops[3], ListPatchOp::Delete { id: 3 });
}

/// Duplicate identifiers in the current list each take one previous element.
#[test]
fn diff_list_patch_with_repeated_ids() {
    let previous = vec![inner(1, 1, "a")];
    let current = vec![inner(1, 1, "a"), inner(1, 2, "b")];
    let ops: Vec<ListPatchOp<Inner, InnerPatch, u32>> =
        diff_list_patch(current, previous, inner_id);
    assert_eq!(ops.len(), 2);
    assert!(matches!(ops[0], ListPatchOp::Modify { id: 1, .. }));
    assert_eq!(ops[1], ListPatchOp::Append { value: inner(1, 2, "b") });
}
