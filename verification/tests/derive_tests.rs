//! Tests of how the derive reads a struct and decides the patch struct.

use struct_patch::patch::{
    container_meta_key, extract_vec_element_type, field_meta_key, is_option_type, list_patch_key,
    strip_spaces, Addable, Attribute, ContainerMeta, ContainerMetaKey, Data, DeriveInput,
    EmptyValueGroup, ErrorKind, Field, FieldGroup, FieldInput, FieldMeta, FieldMetaKey,
    GenericArgument, ListPatchInfo, ListPatchKey, ListPatchMeta, NameValue, Patch,
    PatchFieldType, PathArguments, PathSegment, Site, SpecialAttr, Type,
};

fn s(text: &str) -> String {
    text.to_string()
}

/// A path type with one segment and no arguments, such as `bool`.
fn simple_type(name: &str) -> Type {
    Type {
        text: s(name),
        path: Some(vec![PathSegment {
            ident: s(name),
            arguments: PathArguments::Bare,
        }]),
    }
}

/// A path type with one segment and one type argument, such as `Vec<T>`.
fn generic_type(name: &str, arg: &str) -> Type {
    Type {
        text: format!("{} < {} >", name, arg),
        path: Some(vec![PathSegment {
            ident: s(name),
            arguments: PathArguments::AngleBracketed(vec![GenericArgument::Type(s(arg))]),
        }]),
    }
}

fn patch_attr<M>(metas: Vec<M>) -> Attribute<M> {
    Attribute {
        path: s("patch"),
        empty_list: false,
        metas,
    }
}

fn field(name: &str, ty: Type, metas: Vec<FieldMeta>) -> FieldInput {
    FieldInput {
        ident: Some(s(name)),
        ty,
        attrs: if metas.is_empty() {
            vec![]
        } else {
            vec![patch_attr(metas)]
        },
    }
}

fn derive_input(attrs: Vec<Attribute<ContainerMeta>>, fields: Vec<FieldInput>) -> DeriveInput {
    DeriveInput {
        ident: s("Item"),
        data: Data::Struct(fields),
        generics: s(""),
        attrs,
        vis: s("pub"),
    }
}

fn field_error(input: FieldInput) -> ErrorKind {
    match Field::from_ast(input, false) {
        Err(e) => e.kind,
        Ok(_) => panic!("expected an error"),
    }
}

fn built(input: FieldInput) -> Field {
    match Field::from_ast(input, false) {
        Ok(Some(f)) => f,
        _ => panic!("expected a field"),
    }
}

#[test]
fn parse_patch() {
    // #[derive(Patch)]
    // #[patch(name = "MyPatch", attribute(derive(Debug, PartialEq, Clone, Serialize, Deserialize)))]
    // pub struct Item {
    //     #[patch(name = "SubItemPatch")]
    //     pub field1: SubItem,
    //     #[patch(skip)]
    //     pub field2: Option<String>,
    //     #[patch(empty_value = false)]
    //     pub field3: bool,
    // }
    let input = DeriveInput {
        ident: s("Item"),
        data: Data::Struct(vec![
            field(
                "field1",
                simple_type("SubItem"),
                vec![FieldMeta::Name(s("SubItemPatch"))],
            ),
            field(
                "field2",
                generic_type("Option", "String"),
                vec![FieldMeta::Skip],
            ),
            field(
                "field3",
                simple_type("bool"),
                vec![FieldMeta::EmptyValue(Ok(Some(s("false"))))],
            ),
        ]),
        generics: s(""),
        attrs: vec![patch_attr(vec![
            ContainerMeta::Name(NameValue::Ident(s("MyPatch"))),
            ContainerMeta::Attribute(s("derive(Debug, PartialEq, Clone, Serialize, Deserialize)")),
        ])],
        vis: s("pub"),
    };
    let expected = Patch {
        visibility: s("pub"),
        struct_name: s("Item"),
        patch_struct_name: s("MyPatch"),
        generics: s(""),
        attributes: vec![s("derive(Debug, PartialEq, Clone, Serialize, Deserialize)")],
        no_diff: false,
        fields: vec![
            Field {
                ident: Some(s("field1")),
                ty: s("SubItemPatch"),
                attributes: vec![],
                retyped: true,
                addable: Addable::Disable,
                nesting: false,
                special_attr: SpecialAttr::Plain,
                list_patch: None,
            },
            Field {
                ident: Some(s("field3")),
                ty: s("bool"),
                attributes: vec![],
                retyped: false,
                addable: Addable::Disable,
                nesting: false,
                special_attr: SpecialAttr::EmptyValue(s("false")),
                list_patch: None,
            },
        ],
    };
    let result = Patch::from_ast(input).unwrap();
    assert_eq!(result, expected);
}

#[test]
fn default_patch_struct_name() {
    let p = Patch::from_ast(derive_input(vec![], vec![])).unwrap();
    assert_eq!(p.patch_struct_name, "ItemPatch");
    assert!(!p.no_diff);
}

#[test]
fn container_attributes() {
    let p = Patch::from_ast(derive_input(
        vec![
            Attribute {
                path: s("derive"),
                empty_list: false,
                metas: vec![ContainerMeta::Unknown(s("whatever"))],
            },
            Attribute {
                path: s("patch"),
                empty_list: true,
                metas: vec![],
            },
            patch_attr(vec![ContainerMeta::NoDiff, ContainerMeta::SkipSerializingNone]),
            patch_attr(vec![ContainerMeta::Name(NameValue::Absent)]),
        ],
        vec![field("a", simple_type("u32"), vec![])],
    ))
    .unwrap();
    assert!(p.no_diff);
    assert_eq!(p.patch_struct_name, "ItemPatch");
    assert_eq!(
        p.fields[0].attributes,
        vec![s("serde(skip_serializing_if = \"Option::is_none\")")]
    );
}

#[test]
fn container_errors() {
    let e = Patch::from_ast(DeriveInput {
        ident: s("Item"),
        data: Data::Other,
        generics: s(""),
        attrs: vec![],
        vis: s(""),
    })
    .unwrap_err();
    assert_eq!(e.kind, ErrorKind::NotStruct);
    assert_eq!(e.kind.message(), "Patch derive only use for struct");

    let e = Patch::from_ast(derive_input(
        vec![patch_attr(vec![
            ContainerMeta::Name(NameValue::Ident(s("A"))),
            ContainerMeta::Name(NameValue::Ident(s("B"))),
        ])],
        vec![],
    ))
    .unwrap_err();
    assert_eq!(e.kind, ErrorKind::NameTwice);
    assert_eq!(e.site, Site::Meta { attr: 0, meta: 1 });

    let e = Patch::from_ast(derive_input(
        vec![patch_attr(vec![ContainerMeta::Unknown(s("fo o"))])],
        vec![],
    ))
    .unwrap_err();
    assert_eq!(e.kind.message(), "unknown patch container attribute `foo`");

    // The first field that is refused gives the error, with its index.
    let e = Patch::from_ast(derive_input(
        vec![],
        vec![
            field("a", simple_type("u32"), vec![]),
            field("b", simple_type("u32"), vec![FieldMeta::Nullable]),
            field("c", simple_type("u32"), vec![FieldMeta::Unknown(s("x"))]),
        ],
    ))
    .unwrap_err();
    assert_eq!(e.kind, ErrorKind::NullableNotOption);
    assert_eq!(e.field, Some(1));
    assert_eq!(e.site, Site::Type);
}

#[test]
fn field_attribute_conflicts() {
    let ty = || generic_type("Option", "u32");
    assert_eq!(
        field_error(field(
            "a",
            ty(),
            vec![
                FieldMeta::EmptyValue(Ok(Some(s("0")))),
                FieldMeta::EmptyValue(Ok(Some(s("1"))))
            ]
        )),
        ErrorKind::EmptyValueTwice
    );
    assert_eq!(
        field_error(field(
            "a",
            ty(),
            vec![FieldMeta::SkipWrap, FieldMeta::EmptyValue(Ok(Some(s("0"))))]
        )),
        ErrorKind::EmptyValueWithSkipWrap
    );
    assert_eq!(
        field_error(field(
            "a",
            ty(),
            vec![FieldMeta::Nullable, FieldMeta::EmptyValue(Ok(Some(s("0"))))]
        )),
        ErrorKind::EmptyValueWithNullable
    );
    assert_eq!(
        field_error(field("a", ty(), vec![FieldMeta::EmptyValue(Ok(None))])),
        ErrorKind::EmptyValueWithoutValue
    );
    assert_eq!(
        field_error(field(
            "a",
            ty(),
            vec![FieldMeta::EmptyValue(Ok(Some(s("0")))), FieldMeta::SkipWrap]
        )),
        ErrorKind::SkipWrapWithEmptyValue
    );
    assert_eq!(
        field_error(field("a", ty(), vec![FieldMeta::Nullable, FieldMeta::SkipWrap])),
        ErrorKind::SkipWrapWithNullable
    );
    assert_eq!(
        field_error(field("a", ty(), vec![FieldMeta::SkipWrap, FieldMeta::Nullable])),
        ErrorKind::NullableWithSkipWrap
    );
    assert_eq!(
        field_error(field(
            "a",
            ty(),
            vec![FieldMeta::EmptyValue(Ok(Some(s("0")))), FieldMeta::Nullable]
        )),
        ErrorKind::NullableWithEmptyValue
    );
    assert_eq!(
        field_error(field("a", ty(), vec![FieldMeta::Nullable, FieldMeta::Nesting])),
        ErrorKind::NullableWithNesting
    );
    let e = Field::from_ast(field("a", ty(), vec![FieldMeta::Unknown(s("wat"))]), false)
        .unwrap_err();
    assert_eq!(e.kind, ErrorKind::UnknownFieldAttribute(s("wat")));
    assert_eq!(e.kind.message(), "unknown patch field attribute `wat`");
    assert_eq!(e.site, Site::Meta { attr: 0, meta: 0 });
    assert_eq!(
        field_error(field("a", ty(), vec![FieldMeta::Invalid(s("expected `=`"))])).message(),
        "expected `=`"
    );
}

#[test]
fn skip_ends_the_field() {
    // Items after `skip` in the same attribute are still read...
    assert_eq!(
        field_error(field(
            "a",
            simple_type("u32"),
            vec![FieldMeta::Skip, FieldMeta::Unknown(s("x"))]
        )),
        ErrorKind::UnknownFieldAttribute(s("x"))
    );
    // ...but later attributes are not.
    let input = FieldInput {
        ident: Some(s("a")),
        ty: simple_type("u32"),
        attrs: vec![
            patch_attr(vec![FieldMeta::Skip]),
            patch_attr(vec![FieldMeta::Unknown(s("x"))]),
        ],
    };
    assert_eq!(Field::from_ast(input, false), Ok(None));
}

#[test]
fn nullable_field() {
    let f = built(field(
        "nickname",
        generic_type("Option", "String"),
        vec![FieldMeta::Nullable],
    ));
    assert_eq!(f.attributes, vec![s("serde(default, skip_serializing_if = \"Option::is_none\", deserialize_with = \"struct_patch::serde_utils::deserialize_some\")")]);
    assert_eq!(f.ty, "Option < String >");
    assert_eq!(
        f.patch_field_type(),
        PatchFieldType::Wrapped(s("Option < String >"))
    );
}

#[test]
fn list_patch_field() {
    let meta = FieldMeta::ListPatch(Ok(vec![
        ListPatchMeta::Id(s("| x | x . id")),
        ListPatchMeta::IdType(s("u32")),
    ]));
    let f = built(field("items", generic_type("Vec", "Inner"), vec![meta]));
    assert_eq!(
        f.list_patch,
        Some(ListPatchInfo {
            element_type: s("Inner"),
            id_type: s("u32"),
            id_fn: s("| x | x . id"),
            patch_type: None,
        })
    );
    assert_eq!(
        f.patch_field_type(),
        PatchFieldType::ListOps {
            element: s("Inner"),
            patch: s("InnerPatch"),
            id: s("u32"),
        }
    );
    let custom = ListPatchInfo {
        element_type: s("Inner Item"),
        id_type: s("u32"),
        id_fn: s("f"),
        patch_type: Some(s("InnerItemPatch")),
    };
    assert_eq!(custom.patch_type_name(), "InnerItemPatch");
    let spaced = ListPatchInfo {
        patch_type: None,
        ..custom
    };
    assert_eq!(spaced.patch_type_name(), "InnerItemPatch");
}

#[test]
fn list_patch_errors() {
    let vec_ty = || generic_type("Vec", "Inner");
    let lp = |items: Vec<ListPatchMeta>| vec![FieldMeta::ListPatch(Ok(items))];
    assert_eq!(
        field_error(field("a", vec_ty(), lp(vec![ListPatchMeta::IdType(s("u32"))]))),
        ErrorKind::ListPatchWithoutId
    );
    assert_eq!(
        field_error(field("a", vec_ty(), lp(vec![ListPatchMeta::Id(s("f"))]))),
        ErrorKind::ListPatchWithoutIdType
    );
    assert_eq!(
        field_error(field(
            "a",
            simple_type("u32"),
            lp(vec![ListPatchMeta::Id(s("f")), ListPatchMeta::IdType(s("u32"))])
        )),
        ErrorKind::ListPatchNotVec
    );
    assert_eq!(
        field_error(field("a", vec_ty(), lp(vec![ListPatchMeta::NotKeyValue]))),
        ErrorKind::ListPatchNotKeyValue
    );
    let e = Field::from_ast(
        field(
            "a",
            vec_ty(),
            lp(vec![ListPatchMeta::Id(s("f")), ListPatchMeta::Unknown(s("key"))]),
        ),
        false,
    )
    .unwrap_err();
    assert_eq!(e.site, Site::Key { attr: 0, meta: 0, key: 1 });
    assert_eq!(e.kind.message(), "unknown `list_patch` attribute `key`");
    let twice = vec![
        FieldMeta::ListPatch(Ok(vec![
            ListPatchMeta::Id(s("f")),
            ListPatchMeta::IdType(s("u32")),
        ])),
        FieldMeta::ListPatch(Ok(vec![])),
    ];
    assert_eq!(
        field_error(field("a", vec_ty(), twice)),
        ErrorKind::ListPatchTwice
    );
    let nullable_list = vec![
        FieldMeta::ListPatch(Ok(vec![
            ListPatchMeta::Id(s("f")),
            ListPatchMeta::IdType(s("u32")),
        ])),
        FieldMeta::Nullable,
    ];
    assert_eq!(
        field_error(field("a", generic_type("Option", "u32"), nullable_list)),
        ErrorKind::ListPatchNotVec
    );
}

#[test]
fn field_groups() {
    let p = Patch::from_ast(derive_input(
        vec![],
        vec![
            field("plain", simple_type("u32"), vec![]),
            field("renamed", simple_type("B"), vec![FieldMeta::Name(s("BPatch"))]),
            field(
                "by_empty",
                simple_type("u32"),
                vec![FieldMeta::EmptyValue(Ok(Some(s("0"))))],
            ),
            field(
                "wrapped",
                generic_type("Option", "u32"),
                vec![FieldMeta::SkipWrap],
            ),
            field("nested", simple_type("Deep"), vec![FieldMeta::Nesting]),
            field(
                "items",
                generic_type("Vec", "Inner"),
                vec![FieldMeta::ListPatch(Ok(vec![
                    ListPatchMeta::Id(s("f")),
                    ListPatchMeta::IdType(s("u32")),
                ]))],
            ),
        ],
    ))
    .unwrap();
    assert_eq!(p.field_indices(FieldGroup::Regular), vec![0, 1]);
    assert_eq!(p.field_indices(FieldGroup::Renamed), vec![1]);
    assert_eq!(p.field_indices(FieldGroup::OwnType), vec![0]);
    assert_eq!(p.field_indices(FieldGroup::RegularByEmptyValue), vec![2]);
    assert_eq!(p.field_indices(FieldGroup::OwnTypeByEmptyValue), vec![2]);
    assert_eq!(p.field_indices(FieldGroup::RenamedByEmptyValue), Vec::<usize>::new());
    assert_eq!(p.field_indices(FieldGroup::SkipWrap), vec![3]);
    assert_eq!(p.field_indices(FieldGroup::Nesting), vec![4]);
    assert_eq!(p.field_indices(FieldGroup::ListPatch), vec![5]);
    assert_eq!(p.empty_values(EmptyValueGroup::All), vec![s("0")]);
    assert_eq!(p.empty_values(EmptyValueGroup::OwnType), vec![s("0")]);
    assert!(p.empty_values(EmptyValueGroup::Renamed).is_empty());
    assert_eq!(
        p.fields[4].patch_field_type(),
        PatchFieldType::Nested(s("DeepPatch"))
    );
    assert_eq!(
        p.fields[3].patch_field_type(),
        PatchFieldType::AsIs(s("Option < u32 >"))
    );
    assert_eq!(p.fields[1].patch_field_type(), PatchFieldType::Wrapped(s("BPatch")));
}

#[test]
fn field_addable() {
    let f = built(field("a", simple_type("u32"), vec![FieldMeta::Addable]));
    assert_eq!(f.addable, Addable::AddTrait);
    let f = built(field("a", simple_type("u32"), vec![FieldMeta::Add(s("sum"))]));
    assert_eq!(f.addable, Addable::AddFn(s("sum")));
}

#[test]
fn type_shapes() {
    assert!(is_option_type(&generic_type("Option", "u32")));
    assert!(!is_option_type(&generic_type("Vec", "u32")));
    assert!(!is_option_type(&Type {
        text: s("(u32, u32)"),
        path: None
    }));
    assert_eq!(
        extract_vec_element_type(&generic_type("Vec", "Inner")),
        Some(s("Inner"))
    );
    assert_eq!(extract_vec_element_type(&simple_type("Vec")), None);
    let two_args = Type {
        text: s("Vec<A, B>"),
        path: Some(vec![PathSegment {
            ident: s("Vec"),
            arguments: PathArguments::AngleBracketed(vec![
                GenericArgument::Type(s("A")),
                GenericArgument::Type(s("B")),
            ]),
        }]),
    };
    assert_eq!(extract_vec_element_type(&two_args), None);
    assert_eq!(strip_spaces("a :: b"), "a::b");
}

#[test]
fn attribute_keys() {
    assert_eq!(field_meta_key(&s("skip")), FieldMetaKey::Skip);
    assert_eq!(field_meta_key(&s("list_patch")), FieldMetaKey::ListPatch);
    assert_eq!(field_meta_key(&s("nope")), FieldMetaKey::Unknown);
    assert_eq!(
        container_meta_key(&s("skip_serializing_none")),
        ContainerMetaKey::SkipSerializingNone
    );
    assert_eq!(container_meta_key(&s("skip")), ContainerMetaKey::Unknown);
    assert_eq!(list_patch_key(&s("id_type")), ListPatchKey::IdType);
    assert_eq!(list_patch_key(&s("ids")), ListPatchKey::Unknown);
}
