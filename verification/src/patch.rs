//! The input of `#[derive(Patch)]` and the decisions taken on it.
//!
//! The derive reads a struct: its name, generics, `#[patch(..)]` container
//! attributes, and for each field its name, type and `#[patch(..)]` field
//! attributes. This module holds that input as plain values, checks the
//! attributes (which combine, which clash, which are unknown), and decides
//! the shape of the generated patch struct: the type of each patch field
//! and the group each field falls in, which fixes the code emitted for it.
//! The tokens themselves are written by the derive, from these decisions.
//!
//! Types, expressions, literals and attribute bodies are held as the text
//! of their tokens.
use vstd::prelude::*;

verus! {

// ---------------------------------------------------------------------------
// Plain text.
/// Whether `s` reads `lit`.
pub fn text_is(s: &String, lit: &str) -> (r: bool)
    ensures
        r == (s@ == lit@),
{
    *s == lit.to_owned()
}

/// `s` without its spaces.
pub open spec fn without_spaces(s: Seq<char>) -> Seq<char> {
    s.filter(|c: char| c != ' ')
}

/// `s` without its spaces (the text of a path printed from its tokens reads
/// `a :: b`; this gives `a::b`).
pub fn strip_spaces(s: &str) -> (r: String)
    ensures
        r@ == without_spaces(s@),
{
    let n = s.unicode_len();
    let mut r = String::new();
    let mut i: usize = 0;
    while i < n
        invariant
            n == s@.len(),
            i <= n,
            r@ == without_spaces(s@.subrange(0, i as int)),
        decreases n - i,
    {
        let c = s.get_char(i);
        let ghost before = r@;
        if c != ' ' {
            r.append(s.substring_char(i, i + 1));
        }
        proof {
            let a = s@.subrange(0, i as int);
            assert(s@.subrange(0, i + 1) =~= a + seq![c]);
            Seq::filter_distributes_over_add(a, seq![c], |c: char| c != ' ');
            reveal_with_fuel(Seq::filter, 2);
            assert(seq![c].drop_last() =~= Seq::<char>::empty());
            assert(s@.subrange(i as int, i + 1) =~= seq![c]);
        }
        i = i + 1;
    }
    proof {
        assert(s@.subrange(0, n as int) =~= s@);
    }
    r
}

// ---------------------------------------------------------------------------
// Types.
/// The type of a field, as far as the derive reads it: the text of its
/// tokens, and its path where it is a path type such as `Vec<T>`.
#[derive(Debug, PartialEq, Eq)]
pub struct Type {
    pub text: String,
    pub path: Option<Vec<PathSegment>>,
}

/// A segment of a type path: `Vec<T>` in `std::vec::Vec<T>`.
#[derive(Debug, PartialEq, Eq)]
pub struct PathSegment {
    pub ident: String,
    pub arguments: PathArguments,
}

/// The arguments of a path segment.
#[derive(Debug, PartialEq, Eq)]
pub enum PathArguments {
    Bare,
    AngleBracketed(Vec<GenericArgument>),
    Parenthesized,
}

/// A generic argument between angle brackets: a type (by its text), or
/// anything else (a lifetime, a constant, a binding).
#[derive(Debug, PartialEq, Eq)]
pub enum GenericArgument {
    Type(String),
    Other,
}

/// The last segment of a path type.
pub open spec fn last_segment(ty: Type) -> Option<PathSegment> {
    match ty.path {
        Some(segments) => if segments@.len() > 0 {
            Some(segments@.last())
        } else {
            None
        },
        None => None,
    }
}

/// The type is syntactically `Option<...>`: a path whose last segment is
/// `Option`.
pub open spec fn spec_is_option_type(ty: Type) -> bool {
    match last_segment(ty) {
        Some(seg) => seg.ident@ == "Option"@,
        None => false,
    }
}

/// The element type `T` of a type that is syntactically `Vec<T>`: a path
/// whose last segment is `Vec` with exactly one generic argument, a type.
pub open spec fn spec_vec_element_type(ty: Type) -> Option<String> {
    match last_segment(ty) {
        Some(seg) => if seg.ident@ == "Vec"@ {
            match seg.arguments {
                PathArguments::AngleBracketed(args) => if args@.len() == 1 {
                    match args@[0] {
                        GenericArgument::Type(t) => Some(t),
                        GenericArgument::Other => None,
                    }
                } else {
                    None
                },
                _ => None,
            }
        } else {
            None
        },
        None => None,
    }
}

/// Whether the field type is syntactically `Option<...>`. Used to validate
/// `#[patch(nullable)]`.
pub fn is_option_type(ty: &Type) -> (r: bool)
    ensures
        r == spec_is_option_type(*ty),
{
    match &ty.path {
        Some(segments) => {
            let n = segments.len();
            if n == 0 {
                false
            } else {
                text_is(&segments[n - 1].ident, "Option")
            }
        },
        None => false,
    }
}

/// Extract the element type `T` from a `Vec<T>` field type. Returns `None`
/// for anything else.
pub fn extract_vec_element_type(ty: &Type) -> (r: Option<String>)
    ensures
        r == spec_vec_element_type(*ty),
{
    let segments = match &ty.path {
        Some(segments) => segments,
        None => return None,
    };
    let n = segments.len();
    if n == 0 {
        return None;
    }
    let last_segment = &segments[n - 1];
    if !text_is(&last_segment.ident, "Vec") {
        return None;
    }
    let args = match &last_segment.arguments {
        PathArguments::AngleBracketed(args) => args,
        _ => return None,
    };
    if args.len() != 1 {
        return None;
    }
    match &args[0] {
        GenericArgument::Type(t) => Some(t.clone()),
        GenericArgument::Other => None,
    }
}

// ---------------------------------------------------------------------------
// Fields.
/// How two patches of a field add up (`#[patch(addable)]`,
/// `#[patch(add = f)]`); by default they cannot both be set.
#[derive(Debug, PartialEq, Eq)]
pub enum Addable {
    Disable,
    AddTrait,
    AddFn(String),
}

/// Field attributes that change the patch field's type.
#[derive(Debug, PartialEq, Eq)]
pub enum SpecialAttr {
    /// No such attribute: the patch field is an `Option` of the field type.
    Plain,
    /// Field uses an explicit sentinel value instead of `Option` wrapping.
    EmptyValue(String),
    /// Field type is already `Option<T>`; `None` means "no change", `Some(v)` applies the value.
    SkipWrap,
}

impl SpecialAttr {
    pub fn is_empty(&self) -> (r: bool)
        ensures
            r == (*self is Plain),
    {
        match self {
            SpecialAttr::Plain => true,
            _ => false,
        }
    }

    pub fn empty_value(&self) -> (r: Option<&String>)
        ensures
            r == (match *self {
                SpecialAttr::EmptyValue(lit) => Some(&lit),
                _ => None,
            }),
    {
        if let SpecialAttr::EmptyValue(lit) = self {
            Some(lit)
        } else {
            None
        }
    }
}

/// Parsed info for a `#[patch(list_patch(...))]` field.
#[derive(Debug, PartialEq, Eq)]
pub struct ListPatchInfo {
    /// The element type `T` extracted from `Vec<T>`.
    pub element_type: String,
    /// The id type used for addressing elements.
    pub id_type: String,
    /// The closure `|&T| -> ID`.
    pub id_fn: String,
    /// Optional override for the patch type of the element. Defaults to
    /// `{T}Patch`.
    pub patch_type: Option<String>,
}

/// A field of the struct, as the patch struct will hold it.
#[derive(Debug, PartialEq, Eq)]
pub struct Field {
    pub ident: Option<String>,
    /// The field's type, or the patch type that `#[patch(name = ..)]` gave it.
    pub ty: String,
    /// Attributes to put on the patch field.
    pub attributes: Vec<String>,
    /// `#[patch(name = ..)]` gave the field a patch type of its own.
    pub retyped: bool,
    pub addable: Addable,
    pub nesting: bool,
    pub special_attr: SpecialAttr,
    pub list_patch: Option<ListPatchInfo>,
}

impl Field {
    /// Whether this field is a list-patch field.
    pub fn is_list_patch(&self) -> (r: bool)
        ensures
            r == self.list_patch is Some,
    {
        self.list_patch.is_some()
    }
}

// ---------------------------------------------------------------------------
// The derive input.
/// An attribute on the struct or on a field: its path, whether it is an
/// empty list (`#[patch()]`), and the items of its list, in order, as the
/// derive parsed them.
#[derive(Debug, PartialEq, Eq)]
pub struct Attribute<M> {
    pub path: String,
    pub empty_list: bool,
    pub metas: Vec<M>,
}

/// An item of a `#[patch(..)]` attribute on a field.
#[derive(Debug, PartialEq, Eq)]
pub enum FieldMeta {
    /// `skip`
    Skip,
    /// `attribute(..)`, with the text of what stands in the brackets
    Attribute(String),
    /// `name = ".."`, with the type the string names
    Name(String),
    /// `addable`
    Addable,
    /// `add = f`
    Add(String),
    /// `nesting`
    Nesting,
    /// `empty_value = lit`: the literal, none where no value is given, or
    /// what stopped the literal from parsing
    EmptyValue(Result<Option<String>, String>),
    /// `skip_wrap`
    SkipWrap,
    /// `nullable`
    Nullable,
    /// `list_patch(..)`: its items, or what stopped them from parsing
    ListPatch(Result<Vec<ListPatchMeta>, String>),
    /// any other path, by its text
    Unknown(String),
    /// an item that did not parse, with what stopped it
    Invalid(String),
}

/// An item of `list_patch(..)`.
#[derive(Debug, PartialEq, Eq)]
pub enum ListPatchMeta {
    /// an item that is not `key = value`
    NotKeyValue,
    /// `id = <closure>`
    Id(String),
    /// `id_type = <type>`
    IdType(String),
    /// `patch_type = <type>`
    PatchType(String),
    /// any other key, by its text
    Unknown(String),
    /// a value that did not parse as a type, with what stopped it
    Invalid(String),
}

/// A field of the struct the derive reads.
#[derive(Debug, PartialEq, Eq)]
pub struct FieldInput {
    pub ident: Option<String>,
    pub ty: Type,
    pub attrs: Vec<Attribute<FieldMeta>>,
}

/// Why the derive refuses its input.
#[derive(Debug, PartialEq, Eq)]
pub enum ErrorKind {
    NotStruct,
    NameTwice,
    UnknownContainerAttribute(String),
    EmptyValueTwice,
    EmptyValueWithSkipWrap,
    EmptyValueWithNullable,
    EmptyValueWithoutValue,
    SkipWrapWithEmptyValue,
    SkipWrapWithNullable,
    NullableWithEmptyValue,
    NullableWithSkipWrap,
    NullableNotOption,
    ListPatchTwice,
    ListPatchNotKeyValue,
    ListPatchUnknownKey(String),
    ListPatchWithoutId,
    ListPatchWithoutIdType,
    ListPatchNotVec,
    UnknownFieldAttribute(String),
    NullableWithNesting,
    NullableWithListPatch,
    /// the input did not parse; the text says why
    Parse(String),
}

/// What an error points at, within the item it concerns.
#[derive(Debug, Clone, Copy, PartialEq, Eq)]
pub enum Blame {
    /// the struct's or field's name
    Ident,
    /// the field's type
    Type,
    /// the attribute item
    Meta,
    /// the key of the `list_patch` item at this index
    Key(usize),
}

/// Where an error points in the input.
#[derive(Debug, PartialEq, Eq)]
pub enum Site {
    Ident,
    Type,
    Meta { attr: usize, meta: usize },
    Key { attr: usize, meta: usize, key: usize },
}

/// An error of the derive: why, and where. `field` is the index of the
/// field it concerns among the struct's fields, where the struct was read
/// as a whole and the error concerns a field.
#[derive(Debug, PartialEq, Eq)]
pub struct Error {
    pub kind: ErrorKind,
    pub field: Option<usize>,
    pub site: Site,
}

/// The site of an error blamed on item `meta` of attribute `attr`.
pub open spec fn site_of(blame: Blame, attr: usize, meta: usize) -> Site {
    match blame {
        Blame::Ident => Site::Ident,
        Blame::Type => Site::Type,
        Blame::Meta => Site::Meta { attr, meta },
        Blame::Key(key) => Site::Key { attr, meta, key },
    }
}

fn site(blame: Blame, attr: usize, meta: usize) -> (r: Site)
    ensures
        r == site_of(blame, attr, meta),
{
    match blame {
        Blame::Ident => Site::Ident,
        Blame::Type => Site::Type,
        Blame::Meta => Site::Meta { attr, meta },
        Blame::Key(key) => Site::Key { attr, meta, key },
    }
}

// ---------------------------------------------------------------------------
// Reading `list_patch(..)`.
/// The keys of `list_patch(..)` read so far.
#[derive(Debug, PartialEq, Eq)]
pub struct ListPatchKeys {
    pub id_fn: Option<String>,
    pub id_type: Option<String>,
    pub patch_type: Option<String>,
}

/// Reading item `k` of `list_patch(..)`.
pub open spec fn list_patch_key_step(keys: ListPatchKeys, item: ListPatchMeta, k: int) -> Result<
    ListPatchKeys,
    (ErrorKind, Blame),
> {
    match item {
        ListPatchMeta::NotKeyValue => Err((ErrorKind::ListPatchNotKeyValue, Blame::Ident)),
        ListPatchMeta::Id(e) => Ok(ListPatchKeys { id_fn: Some(e), ..keys }),
        ListPatchMeta::IdType(t) => Ok(ListPatchKeys { id_type: Some(t), ..keys }),
        ListPatchMeta::PatchType(t) => Ok(ListPatchKeys { patch_type: Some(t), ..keys }),
        ListPatchMeta::Unknown(p) => Err((ErrorKind::ListPatchUnknownKey(p), Blame::Key(k as usize))),
        ListPatchMeta::Invalid(m) => Err((ErrorKind::Parse(m), Blame::Meta)),
    }
}

/// Reading the items of `list_patch(..)` in order, up to the first that
/// is refused; a later key overrides an earlier one.
pub open spec fn list_patch_keys(items: Seq<ListPatchMeta>) -> Result<
    ListPatchKeys,
    (ErrorKind, Blame),
>
    decreases items.len(),
{
    if items.len() == 0 {
        Ok(ListPatchKeys { id_fn: None, id_type: None, patch_type: None })
    } else {
        match list_patch_keys(items.drop_last()) {
            Err(e) => Err(e),
            Ok(keys) => list_patch_key_step(keys, items.last(), items.len() - 1),
        }
    }
}

/// What `list_patch(..)` on a field of type `ty` makes: an `id` and an
/// `id_type` are needed, and the field must be a `Vec<T>`.
pub open spec fn spec_list_patch_info(items: Seq<ListPatchMeta>, ty: Type) -> Result<
    ListPatchInfo,
    (ErrorKind, Blame),
> {
    match list_patch_keys(items) {
        Err(e) => Err(e),
        Ok(keys) => match keys.id_fn {
            None => Err((ErrorKind::ListPatchWithoutId, Blame::Ident)),
            Some(id_fn) => match keys.id_type {
                None => Err((ErrorKind::ListPatchWithoutIdType, Blame::Ident)),
                Some(id_type) => match spec_vec_element_type(ty) {
                    None => Err((ErrorKind::ListPatchNotVec, Blame::Type)),
                    Some(element_type) => Ok(
                        ListPatchInfo { element_type, id_type, id_fn, patch_type: keys.patch_type },
                    ),
                },
            },
        },
    }
}

fn list_patch_key_step_exec(keys: ListPatchKeys, item: &ListPatchMeta, k: usize) -> (r: Result<
    ListPatchKeys,
    (ErrorKind, Blame),
>)
    ensures
        r == list_patch_key_step(keys, *item, k as int),
{
    match item {
        ListPatchMeta::NotKeyValue => Err((ErrorKind::ListPatchNotKeyValue, Blame::Ident)),
        ListPatchMeta::Id(e) => Ok(ListPatchKeys { id_fn: Some(e.clone()), ..keys }),
        ListPatchMeta::IdType(t) => Ok(ListPatchKeys { id_type: Some(t.clone()), ..keys }),
        ListPatchMeta::PatchType(t) => Ok(ListPatchKeys { patch_type: Some(t.clone()), ..keys }),
        ListPatchMeta::Unknown(p) => Err((ErrorKind::ListPatchUnknownKey(p.clone()), Blame::Key(k))),
        ListPatchMeta::Invalid(m) => Err((ErrorKind::Parse(m.clone()), Blame::Meta)),
    }
}

/// Once reading the items of `list_patch(..)` is refused, reading more
/// items does not change that.
proof fn lemma_list_patch_keys_stop(items: Seq<ListPatchMeta>, i: int)
    requires
        0 <= i <= items.len(),
        list_patch_keys(items.take(i)) is Err,
    ensures
        list_patch_keys(items) == list_patch_keys(items.take(i)),
    decreases items.len() - i,
{
    if i < items.len() {
        assert(items.take(i + 1).drop_last() =~= items.take(i));
        if i + 1 == items.len() {
            assert(items.take(i + 1) =~= items);
        } else {
            lemma_list_patch_keys_stop(items, i + 1);
        }
    } else {
        assert(items.take(i) =~= items);
    }
}

/// Read `list_patch(..)` on a field of type `ty`.
fn list_patch_info(items: &Vec<ListPatchMeta>, ty: &Type) -> (r: Result<
    ListPatchInfo,
    (ErrorKind, Blame),
>)
    ensures
        r == spec_list_patch_info(items@, *ty),
{
    let mut keys = ListPatchKeys { id_fn: None, id_type: None, patch_type: None };
    let mut k: usize = 0;
    while k < items.len()
        invariant
            k <= items@.len(),
            list_patch_keys(items@.take(k as int)) == Ok::<ListPatchKeys, (ErrorKind, Blame)>(keys),
        decreases items@.len() - k,
    {
        proof {
            assert(items@.take(k + 1).drop_last() =~= items@.take(k as int));
        }
        match list_patch_key_step_exec(keys, &items[k], k) {
            Ok(next) => {
                keys = next;
            },
            Err(e) => {
                proof {
                    lemma_list_patch_keys_stop(items@, k + 1);
                }
                return Err(e);
            },
        }
        k = k + 1;
    }
    proof {
        assert(items@.take(k as int) =~= items@);
    }
    let id_fn = match keys.id_fn {
        Some(e) => e,
        None => return Err((ErrorKind::ListPatchWithoutId, Blame::Ident)),
    };
    let id_type = match keys.id_type {
        Some(t) => t,
        None => return Err((ErrorKind::ListPatchWithoutIdType, Blame::Ident)),
    };
    let element_type = match extract_vec_element_type(ty) {
        Some(t) => t,
        None => return Err((ErrorKind::ListPatchNotVec, Blame::Type)),
    };
    Ok(ListPatchInfo { element_type, id_type, id_fn, patch_type: keys.patch_type })
}

// ---------------------------------------------------------------------------
// Reading the attributes of a field.
/// What the attributes of a field have said so far.
pub struct FieldAcc {
    pub attributes: Seq<String>,
    pub field_type: Option<String>,
    pub skip: bool,
    pub special_attr: SpecialAttr,
    pub nullable: bool,
    pub addable: Addable,
    pub nesting: bool,
    pub list_patch: Option<ListPatchInfo>,
}

/// Nothing said yet.
pub open spec fn no_field_attrs() -> FieldAcc {
    FieldAcc {
        attributes: Seq::empty(),
        field_type: None,
        skip: false,
        special_attr: SpecialAttr::Plain,
        nullable: false,
        addable: Addable::Disable,
        nesting: false,
        list_patch: None,
    }
}

/// Reading one item of a `#[patch(..)]` attribute on a field of type `ty`.
///
/// `empty_value`, `skip_wrap` and `nullable` exclude one another, and
/// `empty_value` and `list_patch` may be given once; `nullable` needs an
/// `Option` field; an unknown item is refused.
pub open spec fn field_meta_step(acc: FieldAcc, meta: FieldMeta, ty: Type) -> Result<
    FieldAcc,
    (ErrorKind, Blame),
> {
    match meta {
        FieldMeta::Skip => Ok(FieldAcc { skip: true, ..acc }),
        FieldMeta::Attribute(t) => Ok(FieldAcc { attributes: acc.attributes.push(t), ..acc }),
        FieldMeta::Name(t) => Ok(FieldAcc { field_type: Some(t), ..acc }),
        FieldMeta::Addable => Ok(FieldAcc { addable: Addable::AddTrait, ..acc }),
        FieldMeta::Add(f) => Ok(FieldAcc { addable: Addable::AddFn(f), ..acc }),
        FieldMeta::Nesting => Ok(FieldAcc { nesting: true, ..acc }),
        FieldMeta::EmptyValue(lit) => if acc.special_attr is EmptyValue {
            Err((ErrorKind::EmptyValueTwice, Blame::Meta))
        } else if acc.special_attr is SkipWrap {
            Err((ErrorKind::EmptyValueWithSkipWrap, Blame::Meta))
        } else if acc.nullable {
            Err((ErrorKind::EmptyValueWithNullable, Blame::Meta))
        } else {
            match lit {
                Err(m) => Err((ErrorKind::Parse(m), Blame::Meta)),
                Ok(None) => Err((ErrorKind::EmptyValueWithoutValue, Blame::Meta)),
                Ok(Some(l)) => Ok(FieldAcc { special_attr: SpecialAttr::EmptyValue(l), ..acc }),
            }
        },
        FieldMeta::SkipWrap => if acc.special_attr is EmptyValue {
            Err((ErrorKind::SkipWrapWithEmptyValue, Blame::Meta))
        } else if acc.nullable {
            Err((ErrorKind::SkipWrapWithNullable, Blame::Meta))
        } else {
            Ok(FieldAcc { special_attr: SpecialAttr::SkipWrap, ..acc })
        },
        FieldMeta::Nullable => if acc.special_attr is EmptyValue {
            Err((ErrorKind::NullableWithEmptyValue, Blame::Meta))
        } else if acc.special_attr is SkipWrap {
            Err((ErrorKind::NullableWithSkipWrap, Blame::Meta))
        } else if !spec_is_option_type(ty) {
            Err((ErrorKind::NullableNotOption, Blame::Type))
        } else {
            Ok(FieldAcc { nullable: true, ..acc })
        },
        FieldMeta::ListPatch(items) => if acc.list_patch is Some {
            Err((ErrorKind::ListPatchTwice, Blame::Meta))
        } else {
            match items {
                Err(m) => Err((ErrorKind::Parse(m), Blame::Meta)),
                Ok(items) => match spec_list_patch_info(items@, ty) {
                    Err(e) => Err(e),
                    Ok(info) => Ok(FieldAcc { list_patch: Some(info), ..acc }),
                },
            }
        },
        FieldMeta::Unknown(p) => Err((ErrorKind::UnknownFieldAttribute(p), Blame::Meta)),
        FieldMeta::Invalid(m) => Err((ErrorKind::Parse(m), Blame::Meta)),
    }
}

/// Reading the items of attribute `attr` in order, from `acc`, up to the
/// first that is refused.
pub open spec fn field_metas_result(
    acc: FieldAcc,
    metas: Seq<FieldMeta>,
    ty: Type,
    attr: usize,
) -> Result<FieldAcc, Error>
    decreases metas.len(),
{
    if metas.len() == 0 {
        Ok(acc)
    } else {
        match field_metas_result(acc, metas.drop_last(), ty, attr) {
            Err(e) => Err(e),
            Ok(a) => match field_meta_step(a, metas.last(), ty) {
                Ok(b) => Ok(b),
                Err((kind, blame)) => Err(
                    Error { kind, field: None, site: site_of(blame, attr, (metas.len() - 1) as usize) },
                ),
            },
        }
    }
}

/// The attribute is a `#[patch(..)]` with something in its brackets.
pub open spec fn is_patch_attr<M>(a: Attribute<M>) -> bool {
    a.path@ == "patch"@ && !a.empty_list
}

/// Whether the derive reads an attribute with this path and an empty list
/// or not: it reads the `#[patch(..)]` attributes with something in their
/// brackets.
pub fn reads_attribute(path: &String, empty_list: bool) -> (r: bool)
    ensures
        r == (path@ == "patch"@ && !empty_list),
{
    text_is(path, "patch") && !empty_list
}

/// Reading the attributes of a field in order, up to the first item that
/// is refused, or up to the end of the first attribute that says `skip`.
pub open spec fn field_attrs_result(attrs: Seq<Attribute<FieldMeta>>, ty: Type) -> Result<
    FieldAcc,
    Error,
>
    decreases attrs.len(),
{
    if attrs.len() == 0 {
        Ok(no_field_attrs())
    } else {
        match field_attrs_result(attrs.drop_last(), ty) {
            Err(e) => Err(e),
            Ok(acc) => if acc.skip || !is_patch_attr(attrs.last()) {
                Ok(acc)
            } else {
                field_metas_result(acc, attrs.last().metas@, ty, (attrs.len() - 1) as usize)
            },
        }
    }
}

/// The serde attribute of a `nullable` patch field: a missing key is no
/// change, an explicit `null` clears the field, a value sets it.
pub open spec fn nullable_serde_attr() -> Seq<char> {
    "serde(default, skip_serializing_if = \"Option::is_none\", deserialize_with = \"struct_patch::serde_utils::deserialize_some\")"@
}

/// The serde attribute that keeps an unset patch field out of the
/// serialized patch.
pub open spec fn skip_none_serde_attr() -> Seq<char> {
    "serde(skip_serializing_if = \"Option::is_none\")"@
}

/// The attributes of the patch field: those given with `attribute(..)`,
/// then the serde attribute of a `nullable` field, or, under the container
/// attribute `skip_serializing_none`, the one that skips an unset plain
/// field.
pub open spec fn patch_field_attributes(
    acc: FieldAcc,
    skip_serializing_none: bool,
    attributes: Seq<String>,
) -> bool {
    if acc.nullable || (skip_serializing_none && acc.special_attr is Plain && !acc.nesting
        && acc.list_patch is None) {
        &&& attributes.len() == acc.attributes.len() + 1
        &&& attributes.drop_last() == acc.attributes
        &&& attributes.last()@ == if acc.nullable {
            nullable_serde_attr()
        } else {
            skip_none_serde_attr()
        }
    } else {
        attributes == acc.attributes
    }
}

/// `f` is the field built from what the attributes said.
pub open spec fn field_built(
    f: Field,
    acc: FieldAcc,
    input: FieldInput,
    skip_serializing_none: bool,
) -> bool {
    &&& f.ident == input.ident
    &&& f.ty == match acc.field_type {
        Some(t) => t,
        None => input.ty.text,
    }
    &&& f.retyped == acc.field_type is Some
    &&& patch_field_attributes(acc, skip_serializing_none, f.attributes@)
    &&& f.addable == acc.addable
    &&& f.nesting == acc.nesting
    &&& f.special_attr == acc.special_attr
    &&& f.list_patch == acc.list_patch
}

/// The outcome of reading a field: an error where an attribute is refused
/// or `nullable` meets `nesting` or `list_patch`; nothing where the field is
/// skipped; else the field built from its attributes.
pub open spec fn field_from_ast_result(
    input: FieldInput,
    skip_serializing_none: bool,
    r: Result<Option<Field>, Error>,
) -> bool {
    match field_attrs_result(input.attrs@, input.ty) {
        Err(e) => r == Err::<Option<Field>, Error>(e),
        Ok(acc) => if acc.skip {
            r == Ok::<Option<Field>, Error>(None)
        } else if acc.nullable && acc.nesting {
            r == Err::<Option<Field>, Error>(
                Error { kind: ErrorKind::NullableWithNesting, field: None, site: Site::Type },
            )
        } else if acc.nullable && acc.list_patch is Some {
            r == Err::<Option<Field>, Error>(
                Error { kind: ErrorKind::NullableWithListPatch, field: None, site: Site::Type },
            )
        } else {
            r matches Ok(Some(f)) && field_built(f, acc, input, skip_serializing_none)
        },
    }
}

/// What the attributes of a field have said so far, in the derive's hands.
struct FieldState {
    attributes: Vec<String>,
    field_type: Option<String>,
    skip: bool,
    special_attr: SpecialAttr,
    nullable: bool,
    addable: Addable,
    nesting: bool,
    list_patch: Option<ListPatchInfo>,
}

impl FieldState {
    spec fn acc(self) -> FieldAcc {
        FieldAcc {
            attributes: self.attributes@,
            field_type: self.field_type,
            skip: self.skip,
            special_attr: self.special_attr,
            nullable: self.nullable,
            addable: self.addable,
            nesting: self.nesting,
            list_patch: self.list_patch,
        }
    }
}

fn field_meta_step_exec(state: FieldState, meta: &FieldMeta, ty: &Type) -> (r: Result<
    FieldState,
    (ErrorKind, Blame),
>)
    ensures
        match field_meta_step(state.acc(), *meta, *ty) {
            Ok(a) => r matches Ok(s) && s.acc() == a,
            Err(e) => r matches Err(e2) && e2 == e,
        },
{
    let mut state = state;
    match meta {
        FieldMeta::Skip => {
            state.skip = true;
        },
        FieldMeta::Attribute(t) => {
            state.attributes.push(t.clone());
        },
        FieldMeta::Name(t) => {
            state.field_type = Some(t.clone());
        },
        FieldMeta::Addable => {
            state.addable = Addable::AddTrait;
        },
        FieldMeta::Add(f) => {
            state.addable = Addable::AddFn(f.clone());
        },
        FieldMeta::Nesting => {
            state.nesting = true;
        },
        FieldMeta::EmptyValue(lit) => {
            if let SpecialAttr::EmptyValue(_) = state.special_attr {
                return Err((ErrorKind::EmptyValueTwice, Blame::Meta));
            }
            if let SpecialAttr::SkipWrap = state.special_attr {
                return Err((ErrorKind::EmptyValueWithSkipWrap, Blame::Meta));
            }
            if state.nullable {
                return Err((ErrorKind::EmptyValueWithNullable, Blame::Meta));
            }
            match lit {
                Err(m) => return Err((ErrorKind::Parse(m.clone()), Blame::Meta)),
                Ok(None) => return Err((ErrorKind::EmptyValueWithoutValue, Blame::Meta)),
                Ok(Some(l)) => {
                    state.special_attr = SpecialAttr::EmptyValue(l.clone());
                },
            }
        },
        FieldMeta::SkipWrap => {
            if let SpecialAttr::EmptyValue(_) = state.special_attr {
                return Err((ErrorKind::SkipWrapWithEmptyValue, Blame::Meta));
            }
            if state.nullable {
                return Err((ErrorKind::SkipWrapWithNullable, Blame::Meta));
            }
            state.special_attr = SpecialAttr::SkipWrap;
        },
        FieldMeta::Nullable => {
            if let SpecialAttr::EmptyValue(_) = state.special_attr {
                return Err((ErrorKind::NullableWithEmptyValue, Blame::Meta));
            }
            if let SpecialAttr::SkipWrap = state.special_attr {
                return Err((ErrorKind::NullableWithSkipWrap, Blame::Meta));
            }
            if !is_option_type(ty) {
                return Err((ErrorKind::NullableNotOption, Blame::Type));
            }
            state.nullable = true;
        },
        FieldMeta::ListPatch(items) => {
            if state.list_patch.is_some() {
                return Err((ErrorKind::ListPatchTwice, Blame::Meta));
            }
            match items {
                Err(m) => return Err((ErrorKind::Parse(m.clone()), Blame::Meta)),
                Ok(items) => match list_patch_info(items, ty) {
                    Err(e) => return Err(e),
                    Ok(info) => {
                        state.list_patch = Some(info);
                    },
                },
            }
        },
        FieldMeta::Unknown(p) => return Err((ErrorKind::UnknownFieldAttribute(p.clone()), Blame::Meta)),
        FieldMeta::Invalid(m) => return Err((ErrorKind::Parse(m.clone()), Blame::Meta)),
    }
    Ok(state)
}

/// Once an item of an attribute is refused, reading more items does not
/// change that.
proof fn lemma_field_metas_stop(acc: FieldAcc, metas: Seq<FieldMeta>, ty: Type, attr: usize, i: int)
    requires
        0 <= i <= metas.len(),
        field_metas_result(acc, metas.take(i), ty, attr) is Err,
    ensures
        field_metas_result(acc, metas, ty, attr) == field_metas_result(acc, metas.take(i), ty, attr),
    decreases metas.len() - i,
{
    if i < metas.len() {
        assert(metas.take(i + 1).drop_last() =~= metas.take(i));
        if i + 1 == metas.len() {
            assert(metas.take(i + 1) =~= metas);
        } else {
            lemma_field_metas_stop(acc, metas, ty, attr, i + 1);
        }
    } else {
        assert(metas.take(i) =~= metas);
    }
}

/// Once the attributes of a field are refused, or one of them said `skip`,
/// further attributes change nothing.
proof fn lemma_field_attrs_stop(attrs: Seq<Attribute<FieldMeta>>, ty: Type, j: int)
    requires
        0 <= j <= attrs.len(),
        field_attrs_result(attrs.take(j), ty) matches Ok(acc) ==> acc.skip,
    ensures
        field_attrs_result(attrs, ty) == field_attrs_result(attrs.take(j), ty),
    decreases attrs.len() - j,
{
    if j < attrs.len() {
        assert(attrs.take(j + 1).drop_last() =~= attrs.take(j));
        if j + 1 == attrs.len() {
            assert(attrs.take(j + 1) =~= attrs);
        } else {
            lemma_field_attrs_stop(attrs, ty, j + 1);
        }
    } else {
        assert(attrs.take(j) =~= attrs);
    }
}

impl Field {
    /// Parse the patch struct field.
    ///
    /// `skip_serializing_none` is the container-level
    /// `#[patch(skip_serializing_none)]` flag: when set, every `Option`-wrapped
    /// patch field gets `#[serde(skip_serializing_if = "Option::is_none")]`
    /// (fields with their own serialization semantics — `empty_value`,
    /// `skip_wrap`, `nullable`, `nesting`, `list_patch` — are excluded).
    pub fn from_ast(input: FieldInput, skip_serializing_none: bool) -> (r: Result<
        Option<Field>,
        Error,
    >)
        ensures
            field_from_ast_result(input, skip_serializing_none, r),
    {
        let FieldInput { ident, ty, attrs } = input;
        let mut state = FieldState {
            attributes: Vec::new(),
            field_type: None,
            skip: false,
            special_attr: SpecialAttr::Plain,
            nullable: false,
            addable: Addable::Disable,
            nesting: false,
            list_patch: None,
        };
        proof {
            assert(state.acc() == no_field_attrs());
            assert(attrs@.take(0) =~= Seq::<Attribute<FieldMeta>>::empty());
        }
        let mut j: usize = 0;
        while j < attrs.len()
            invariant
                j <= attrs@.len(),
                attrs == input.attrs,
                ty == input.ty,
                field_attrs_result(attrs@.take(j as int), ty) == Ok::<FieldAcc, Error>(state.acc()),
                !state.skip,
            decreases attrs@.len() - j,
        {
            proof {
                assert(attrs@.take(j + 1).drop_last() =~= attrs@.take(j as int));
                assert(attrs@.take(j + 1).last() == attrs@[j as int]);
            }
            let attr = &attrs[j];
            if reads_attribute(&attr.path, attr.empty_list) {
                let ghost acc0 = state.acc();
                let mut i: usize = 0;
                proof {
                    assert(attr.metas@.take(0) =~= Seq::<FieldMeta>::empty());
                }
                while i < attr.metas.len()
                    invariant
                        j < attrs@.len(),
                        *attr == attrs@[j as int],
                        attrs == input.attrs,
                        ty == input.ty,
                        is_patch_attr(attrs@[j as int]),
                        field_attrs_result(attrs@.take(j as int), ty) == Ok::<FieldAcc, Error>(acc0),
                        !acc0.skip,
                        attrs@.take(j + 1).drop_last() == attrs@.take(j as int),
                        attrs@.take(j + 1).last() == attrs@[j as int],
                        i <= attr.metas@.len(),
                        field_metas_result(acc0, attr.metas@.take(i as int), ty, j) == Ok::<
                            FieldAcc,
                            Error,
                        >(state.acc()),
                    decreases attr.metas@.len() - i,
                {
                    proof {
                        assert(attr.metas@.take(i + 1).drop_last() =~= attr.metas@.take(i as int));
                        assert(attr.metas@.take(i + 1).last() == attr.metas@[i as int]);
                    }
                    match field_meta_step_exec(state, &attr.metas[i], &ty) {
                        Ok(next) => {
                            state = next;
                        },
                        Err((kind, blame)) => {
                            let e = Error { kind, field: None, site: site(blame, j, i) };
                            proof {
                                lemma_field_metas_stop(acc0, attr.metas@, ty, j, i + 1);
                                assert(attr.metas@.take(attr.metas@.len() as int) =~= attr.metas@);
                                lemma_field_attrs_stop(attrs@, ty, j + 1);
                            }
                            return Err(e);
                        },
                    }
                    i = i + 1;
                }
                proof {
                    assert(attr.metas@.take(i as int) =~= attr.metas@);
                }
                if state.skip {
                    proof {
                        lemma_field_attrs_stop(attrs@, ty, j + 1);
                    }
                    return Ok(None);
                }
            }
            j = j + 1;
        }
        proof {
            assert(attrs@.take(j as int) =~= attrs@);
        }
        if state.nullable && state.nesting {
            return Err(Error { kind: ErrorKind::NullableWithNesting, field: None, site: Site::Type });
        }
        if state.nullable && state.list_patch.is_some() {
            return Err(Error { kind: ErrorKind::NullableWithListPatch, field: None, site: Site::Type });
        }
        let ghost given = state.attributes@;
        let mut attributes = state.attributes;
        if state.nullable {
            // A missing key is no change, an explicit `null` clears the
            // field, a value sets it; the skip rule keeps "no change" out of
            // the serialized patch, so that it is never read as "clear".
            attributes.push(
                "serde(default, skip_serializing_if = \"Option::is_none\", deserialize_with = \"struct_patch::serde_utils::deserialize_some\")".to_owned(),
            );
        } else if skip_serializing_none && state.special_attr.is_empty() && !state.nesting
            && state.list_patch.is_none() {
            attributes.push("serde(skip_serializing_if = \"Option::is_none\")".to_owned());
        }
        proof {
            if attributes@.len() == given.len() + 1 {
                assert(attributes@.drop_last() =~= given);
            }
        }
        let retyped = state.field_type.is_some();
        let ty = match state.field_type {
            Some(t) => t,
            None => ty.text,
        };
        Ok(
            Some(
                Field {
                    ident,
                    retyped,
                    ty,
                    attributes,
                    addable: state.addable,
                    nesting: state.nesting,
                    special_attr: state.special_attr,
                    list_patch: state.list_patch,
                },
            ),
        )
    }
}

// ---------------------------------------------------------------------------
// Reading the struct.
/// The value of `name = ".."` on the struct.
#[derive(Debug, PartialEq, Eq)]
pub enum NameValue {
    /// the value did not parse as a string literal
    Invalid(String),
    /// no string literal is given
    Absent,
    /// the name the string gives
    Ident(String),
    /// the string does not parse as a name
    NotIdent(String),
}

/// An item of a `#[patch(..)]` attribute on the struct.
#[derive(Debug, PartialEq, Eq)]
pub enum ContainerMeta {
    /// `name = ".."`
    Name(NameValue),
    /// `attribute(..)`, with the text of what stands in the brackets
    Attribute(String),
    /// `no_diff`
    NoDiff,
    /// `skip_serializing_none`
    SkipSerializingNone,
    /// any other path, by its text
    Unknown(String),
    /// an item that did not parse, with what stopped it
    Invalid(String),
}

/// What the derive reads: a struct with its fields, or another item.
#[derive(Debug, PartialEq, Eq)]
pub enum Data {
    Struct(Vec<FieldInput>),
    Other,
}

/// The item the derive is applied to.
#[derive(Debug, PartialEq, Eq)]
pub struct DeriveInput {
    pub ident: String,
    pub data: Data,
    pub generics: String,
    pub attrs: Vec<Attribute<ContainerMeta>>,
    pub vis: String,
}

/// The patch struct to generate.
#[derive(Debug, PartialEq, Eq)]
pub struct Patch {
    pub visibility: String,
    pub struct_name: String,
    pub patch_struct_name: String,
    pub generics: String,
    pub attributes: Vec<String>,
    pub fields: Vec<Field>,
    /// Set by `#[patch(no_diff)]`: suppress generation of the
    /// `into_patch_by_diff` override so the trait's default impl runs,
    /// avoiding the `PartialEq` bound on every field.
    pub no_diff: bool,
}

/// What the attributes of the struct have said so far.
pub struct ContainerAcc {
    pub name: Option<String>,
    pub attributes: Seq<String>,
    pub no_diff: bool,
    pub skip_serializing_none: bool,
}

/// Reading one item of a `#[patch(..)]` attribute on the struct: the name
/// may be given once; an unknown item is refused.
pub open spec fn container_meta_step(acc: ContainerAcc, meta: ContainerMeta) -> Result<
    ContainerAcc,
    ErrorKind,
> {
    match meta {
        ContainerMeta::Name(value) => match value {
            NameValue::Invalid(m) => Err(ErrorKind::Parse(m)),
            NameValue::Absent => Ok(acc),
            NameValue::Ident(n) => if acc.name is Some {
                Err(ErrorKind::NameTwice)
            } else {
                Ok(ContainerAcc { name: Some(n), ..acc })
            },
            NameValue::NotIdent(m) => if acc.name is Some {
                Err(ErrorKind::NameTwice)
            } else {
                Err(ErrorKind::Parse(m))
            },
        },
        ContainerMeta::Attribute(t) => Ok(ContainerAcc { attributes: acc.attributes.push(t), ..acc }),
        ContainerMeta::NoDiff => Ok(ContainerAcc { no_diff: true, ..acc }),
        ContainerMeta::SkipSerializingNone => Ok(ContainerAcc { skip_serializing_none: true, ..acc }),
        ContainerMeta::Unknown(p) => Err(ErrorKind::UnknownContainerAttribute(p)),
        ContainerMeta::Invalid(m) => Err(ErrorKind::Parse(m)),
    }
}

/// Reading the items of attribute `attr` of the struct in order.
pub open spec fn container_metas_result(
    acc: ContainerAcc,
    metas: Seq<ContainerMeta>,
    attr: usize,
) -> Result<ContainerAcc, Error>
    decreases metas.len(),
{
    if metas.len() == 0 {
        Ok(acc)
    } else {
        match container_metas_result(acc, metas.drop_last(), attr) {
            Err(e) => Err(e),
            Ok(a) => match container_meta_step(a, metas.last()) {
                Ok(b) => Ok(b),
                Err(kind) => Err(
                    Error {
                        kind,
                        field: None,
                        site: Site::Meta { attr, meta: (metas.len() - 1) as usize },
                    },
                ),
            },
        }
    }
}

/// Reading the attributes of the struct in order, up to the first item
/// that is refused.
pub open spec fn container_attrs_result(attrs: Seq<Attribute<ContainerMeta>>) -> Result<
    ContainerAcc,
    Error,
>
    decreases attrs.len(),
{
    if attrs.len() == 0 {
        Ok(
            ContainerAcc {
                name: None,
                attributes: Seq::empty(),
                no_diff: false,
                skip_serializing_none: false,
            },
        )
    } else {
        match container_attrs_result(attrs.drop_last()) {
            Err(e) => Err(e),
            Ok(acc) => if !is_patch_attr(attrs.last()) {
                Ok(acc)
            } else {
                container_metas_result(acc, attrs.last().metas@, (attrs.len() - 1) as usize)
            },
        }
    }
}

/// What reading a field comes to: refused, or kept or skipped.
pub open spec fn field_outcome(input: FieldInput, skip_serializing_none: bool) -> Result<
    bool,
    Error,
> {
    match field_attrs_result(input.attrs@, input.ty) {
        Err(e) => Err(e),
        Ok(acc) => if acc.skip {
            Ok(false)
        } else if acc.nullable && acc.nesting {
            Err(Error { kind: ErrorKind::NullableWithNesting, field: None, site: Site::Type })
        } else if acc.nullable && acc.list_patch is Some {
            Err(Error { kind: ErrorKind::NullableWithListPatch, field: None, site: Site::Type })
        } else {
            Ok(true)
        },
    }
}

/// The index of the first field that is refused, and why.
pub open spec fn first_field_error(inputs: Seq<FieldInput>, skip_serializing_none: bool) -> Option<
    (int, Error),
>
    decreases inputs.len(),
{
    if inputs.len() == 0 {
        None
    } else {
        match first_field_error(inputs.drop_last(), skip_serializing_none) {
            Some(x) => Some(x),
            None => match field_outcome(inputs.last(), skip_serializing_none) {
                Err(e) => Some((inputs.len() - 1, e)),
                Ok(_) => None,
            },
        }
    }
}

/// `fields` are the fields built from `inputs`, in order, leaving out the
/// skipped ones.
pub open spec fn fields_built(
    inputs: Seq<FieldInput>,
    skip_serializing_none: bool,
    fields: Seq<Field>,
) -> bool
    decreases inputs.len(),
{
    if inputs.len() == 0 {
        fields.len() == 0
    } else {
        let x = inputs.last();
        match field_attrs_result(x.attrs@, x.ty) {
            Err(_) => false,
            Ok(acc) => if acc.skip {
                fields_built(inputs.drop_last(), skip_serializing_none, fields)
            } else {
                &&& fields.len() > 0
                &&& field_built(fields.last(), acc, x, skip_serializing_none)
                &&& fields_built(inputs.drop_last(), skip_serializing_none, fields.drop_last())
            },
        }
    }
}

/// The outcome of reading the struct: refused where it is not a struct,
/// where an attribute of the struct is refused, or where a field is (the
/// first such, by its index); else the patch struct, named by `name = ..`
/// or by the struct's name followed by `Patch`.
pub open spec fn patch_from_ast_result(input: DeriveInput, r: Result<Patch, Error>) -> bool {
    match input.data {
        Data::Other => r == Err::<Patch, Error>(
            Error { kind: ErrorKind::NotStruct, field: None, site: Site::Ident },
        ),
        Data::Struct(inputs) => match container_attrs_result(input.attrs@) {
            Err(e) => r == Err::<Patch, Error>(e),
            Ok(c) => match first_field_error(inputs@, c.skip_serializing_none) {
                Some((k, e)) => r == Err::<Patch, Error>(Error { field: Some(k as usize), ..e }),
                None => r matches Ok(p) && {
                    &&& p.visibility == input.vis
                    &&& p.struct_name == input.ident
                    &&& p.patch_struct_name@ == match c.name {
                        Some(n) => n@,
                        None => input.ident@ + "Patch"@,
                    }
                    &&& p.generics == input.generics
                    &&& p.attributes@ == c.attributes
                    &&& p.no_diff == c.no_diff
                    &&& fields_built(inputs@, c.skip_serializing_none, p.fields@)
                },
            },
        },
    }
}

/// What the attributes of the struct have said so far, in the derive's
/// hands.
struct ContainerState {
    name: Option<String>,
    attributes: Vec<String>,
    no_diff: bool,
    skip_serializing_none: bool,
}

impl ContainerState {
    spec fn acc(self) -> ContainerAcc {
        ContainerAcc {
            name: self.name,
            attributes: self.attributes@,
            no_diff: self.no_diff,
            skip_serializing_none: self.skip_serializing_none,
        }
    }
}

fn container_meta_step_exec(state: ContainerState, meta: &ContainerMeta) -> (r: Result<
    ContainerState,
    ErrorKind,
>)
    ensures
        match container_meta_step(state.acc(), *meta) {
            Ok(a) => r matches Ok(s) && s.acc() == a,
            Err(e) => r matches Err(e2) && e2 == e,
        },
{
    let mut state = state;
    match meta {
        ContainerMeta::Name(value) => match value {
            NameValue::Invalid(m) => return Err(ErrorKind::Parse(m.clone())),
            NameValue::Absent => {},
            NameValue::Ident(n) => {
                if state.name.is_some() {
                    return Err(ErrorKind::NameTwice);
                }
                state.name = Some(n.clone());
            },
            NameValue::NotIdent(m) => {
                if state.name.is_some() {
                    return Err(ErrorKind::NameTwice);
                }
                return Err(ErrorKind::Parse(m.clone()));
            },
        },
        ContainerMeta::Attribute(t) => {
            state.attributes.push(t.clone());
        },
        ContainerMeta::NoDiff => {
            state.no_diff = true;
        },
        ContainerMeta::SkipSerializingNone => {
            state.skip_serializing_none = true;
        },
        ContainerMeta::Unknown(p) => return Err(ErrorKind::UnknownContainerAttribute(p.clone())),
        ContainerMeta::Invalid(m) => return Err(ErrorKind::Parse(m.clone())),
    }
    Ok(state)
}

proof fn lemma_container_metas_stop(acc: ContainerAcc, metas: Seq<ContainerMeta>, attr: usize, i: int)
    requires
        0 <= i <= metas.len(),
        container_metas_result(acc, metas.take(i), attr) is Err,
    ensures
        container_metas_result(acc, metas, attr) == container_metas_result(acc, metas.take(i), attr),
    decreases metas.len() - i,
{
    if i < metas.len() {
        assert(metas.take(i + 1).drop_last() =~= metas.take(i));
        if i + 1 == metas.len() {
            assert(metas.take(i + 1) =~= metas);
        } else {
            lemma_container_metas_stop(acc, metas, attr, i + 1);
        }
    } else {
        assert(metas.take(i) =~= metas);
    }
}

proof fn lemma_container_attrs_stop(attrs: Seq<Attribute<ContainerMeta>>, j: int)
    requires
        0 <= j <= attrs.len(),
        container_attrs_result(attrs.take(j)) is Err,
    ensures
        container_attrs_result(attrs) == container_attrs_result(attrs.take(j)),
    decreases attrs.len() - j,
{
    if j < attrs.len() {
        assert(attrs.take(j + 1).drop_last() =~= attrs.take(j));
        if j + 1 == attrs.len() {
            assert(attrs.take(j + 1) =~= attrs);
        } else {
            lemma_container_attrs_stop(attrs, j + 1);
        }
    } else {
        assert(attrs.take(j) =~= attrs);
    }
}

proof fn lemma_first_field_error_stop(inputs: Seq<FieldInput>, sksn: bool, k: int)
    requires
        0 <= k <= inputs.len(),
        first_field_error(inputs.take(k), sksn) is Some,
    ensures
        first_field_error(inputs, sksn) == first_field_error(inputs.take(k), sksn),
    decreases inputs.len() - k,
{
    if k < inputs.len() {
        assert(inputs.take(k + 1).drop_last() =~= inputs.take(k));
        if k + 1 == inputs.len() {
            assert(inputs.take(k + 1) =~= inputs);
        } else {
            lemma_first_field_error_stop(inputs, sksn, k + 1);
        }
    } else {
        assert(inputs.take(k) =~= inputs);
    }
}

impl Patch {
    /// Parse the patch struct
    pub fn from_ast(input: DeriveInput) -> (r: Result<Patch, Error>)
        ensures
            patch_from_ast_result(input, r),
    {
        let DeriveInput { ident, data, generics, attrs, vis } = input;
        let inputs = match data {
            Data::Struct(fields) => fields,
            Data::Other => {
                return Err(Error { kind: ErrorKind::NotStruct, field: None, site: Site::Ident });
            },
        };
        let mut state = ContainerState {
            name: None,
            attributes: Vec::new(),
            no_diff: false,
            skip_serializing_none: false,
        };
        proof {
            assert(attrs@.take(0) =~= Seq::<Attribute<ContainerMeta>>::empty());
        }
        let mut j: usize = 0;
        while j < attrs.len()
            invariant
                j <= attrs@.len(),
                attrs == input.attrs,
                input.data == Data::Struct(inputs),
                container_attrs_result(attrs@.take(j as int)) == Ok::<ContainerAcc, Error>(
                    state.acc(),
                ),
            decreases attrs@.len() - j,
        {
            proof {
                assert(attrs@.take(j + 1).drop_last() =~= attrs@.take(j as int));
                assert(attrs@.take(j + 1).last() == attrs@[j as int]);
            }
            let attr = &attrs[j];
            if reads_attribute(&attr.path, attr.empty_list) {
                let ghost acc0 = state.acc();
                let mut i: usize = 0;
                proof {
                    assert(attr.metas@.take(0) =~= Seq::<ContainerMeta>::empty());
                }
                while i < attr.metas.len()
                    invariant
                        j < attrs@.len(),
                        *attr == attrs@[j as int],
                        attrs == input.attrs,
                        input.data == Data::Struct(inputs),
                        is_patch_attr(attrs@[j as int]),
                        container_attrs_result(attrs@.take(j as int)) == Ok::<ContainerAcc, Error>(
                            acc0,
                        ),
                        attrs@.take(j + 1).drop_last() == attrs@.take(j as int),
                        attrs@.take(j + 1).last() == attrs@[j as int],
                        i <= attr.metas@.len(),
                        container_metas_result(acc0, attr.metas@.take(i as int), j) == Ok::<
                            ContainerAcc,
                            Error,
                        >(state.acc()),
                    decreases attr.metas@.len() - i,
                {
                    proof {
                        assert(attr.metas@.take(i + 1).drop_last() =~= attr.metas@.take(i as int));
                        assert(attr.metas@.take(i + 1).last() == attr.metas@[i as int]);
                    }
                    match container_meta_step_exec(state, &attr.metas[i]) {
                        Ok(next) => {
                            state = next;
                        },
                        Err(kind) => {
                            let e = Error { kind, field: None, site: Site::Meta { attr: j, meta: i } };
                            proof {
                                lemma_container_metas_stop(acc0, attr.metas@, j, i + 1);
                                lemma_container_attrs_stop(attrs@, j + 1);
                            }
                            return Err(e);
                        },
                    }
                    i = i + 1;
                }
                proof {
                    assert(attr.metas@.take(i as int) =~= attr.metas@);
                }
            }
            j = j + 1;
        }
        proof {
            assert(attrs@.take(j as int) =~= attrs@);
        }
        let skip_serializing_none = state.skip_serializing_none;
        let ghost all = inputs@;
        let ghost c = state.acc();
        let count: usize = inputs.len();
        let mut fields: Vec<Field> = Vec::new();
        let mut k: usize = 0;
        proof {
            assert(all.take(0) =~= Seq::<FieldInput>::empty());
        }
        for field in it: inputs.into_iter()
            invariant
                it.seq() == all,
                k == it.index(),
                k <= count,
                count == all.len(),
                input.data matches Data::Struct(v) && v@ == all,
                container_attrs_result(input.attrs@) == Ok::<ContainerAcc, Error>(c),
                skip_serializing_none == c.skip_serializing_none,
                first_field_error(all.take(k as int), skip_serializing_none) is None,
                fields_built(all.take(k as int), skip_serializing_none, fields@),
        {
            let ghost x = field;
            proof {
                assert(all[k as int] == x);
                assert(all.take(k + 1).drop_last() =~= all.take(k as int));
                assert(all.take(k + 1).last() == x);
            }
            match Field::from_ast(field, skip_serializing_none) {
                Err(e) => {
                    proof {
                        assert(field_outcome(x, skip_serializing_none) == Err::<bool, Error>(e));
                        lemma_first_field_error_stop(all, skip_serializing_none, k + 1);
                    }
                    return Err(Error { field: Some(k), ..e });
                },
                Ok(None) => {},
                Ok(Some(f)) => {
                    let ghost before = fields@;
                    fields.push(f);
                    proof {
                        assert(fields@.drop_last() =~= before);
                    }
                },
            }
            k = k + 1;
        }
        proof {
            assert(all.take(k as int) =~= all);
        }
        let patch_struct_name = match state.name {
            Some(n) => n,
            None => ident.clone().concat("Patch"),
        };
        Ok(
            Patch {
                visibility: vis,
                patch_struct_name,
                struct_name: ident,
                generics,
                attributes: state.attributes,
                fields,
                no_diff: state.no_diff,
            },
        )
    }
}

// ---------------------------------------------------------------------------
// The shape of the generated code.
/// The type of a field in the patch struct.
#[derive(Debug, PartialEq, Eq)]
pub enum PatchFieldType {
    /// `Vec<ListPatchOp<element, patch, id>>`, for a list-patch field
    ListOps { element: String, patch: String, id: String },
    /// the patch type of a nested field, `{ty}Patch`
    Nested(String),
    /// the field's type as it is, for a field with an empty value or
    /// `skip_wrap`
    AsIs(String),
    /// `Option<ty>`
    Wrapped(String),
}

/// The patch type of the elements of a list-patch field: the one given
/// with `patch_type = ..`, else the element type without spaces followed
/// by `Patch`.
pub open spec fn spec_list_patch_type(info: ListPatchInfo) -> Seq<char> {
    match info.patch_type {
        Some(t) => t@,
        None => without_spaces(info.element_type@) + "Patch"@,
    }
}

impl ListPatchInfo {
    /// The patch type of the elements of the list.
    pub fn patch_type_name(&self) -> (r: String)
        ensures
            r@ == spec_list_patch_type(*self),
    {
        match &self.patch_type {
            Some(t) => t.clone(),
            None => strip_spaces(self.element_type.as_str()).concat("Patch"),
        }
    }
}

/// `r` is the type that field `f` takes in the patch struct: for a list,
/// the list ops of its elements; for a nested field, its type followed by
/// `Patch`; for a field with an empty value or `skip_wrap`, its type; else
/// an `Option` of its type.
pub open spec fn is_patch_field_type(f: Field, r: PatchFieldType) -> bool {
    match f.list_patch {
        Some(info) => r matches PatchFieldType::ListOps { element, patch, id } && element
            == info.element_type && patch@ == spec_list_patch_type(info) && id == info.id_type,
        None => if f.nesting {
            r matches PatchFieldType::Nested(n) && n@ == f.ty@ + "Patch"@
        } else if !(f.special_attr is Plain) {
            r == PatchFieldType::AsIs(f.ty)
        } else {
            r == PatchFieldType::Wrapped(f.ty)
        },
    }
}

impl Field {
    /// The type this field takes in the patch struct.
    pub fn patch_field_type(&self) -> (r: PatchFieldType)
        ensures
            is_patch_field_type(*self, r),
    {
        if let Some(info) = &self.list_patch {
            return PatchFieldType::ListOps {
                element: info.element_type.clone(),
                patch: info.patch_type_name(),
                id: info.id_type.clone(),
            };
        }
        if self.nesting {
            PatchFieldType::Nested(self.ty.clone().concat("Patch"))
        } else if !self.special_attr.is_empty() {
            PatchFieldType::AsIs(self.ty.clone())
        } else {
            PatchFieldType::Wrapped(self.ty.clone())
        }
    }
}

/// The groups of fields that the generated code treats alike.
#[derive(Debug, Clone, Copy, PartialEq, Eq)]
pub enum FieldGroup {
    /// plain fields: patched by an `Option`, not nested, not lists
    Regular,
    /// fields with an empty value, not nested, not lists
    RegularByEmptyValue,
    /// `skip_wrap` fields, not nested, not lists
    SkipWrap,
    /// plain fields with a patch type of their own
    Renamed,
    /// fields with an empty value and a patch type of their own
    RenamedByEmptyValue,
    /// plain fields patched by a value of their own type
    OwnType,
    /// fields with an empty value, patched by a value of their own type
    OwnTypeByEmptyValue,
    /// nested fields, not lists
    Nesting,
    /// list-patch fields
    ListPatch,
}

/// Field `f` belongs to group `g`.
pub open spec fn in_group(f: Field, g: FieldGroup) -> bool {
    let list = f.list_patch is Some;
    let plain = f.special_attr is Plain;
    let by_empty = f.special_attr is EmptyValue;
    match g {
        FieldGroup::Regular => !f.nesting && plain && !list,
        FieldGroup::RegularByEmptyValue => !f.nesting && by_empty && !list,
        FieldGroup::SkipWrap => f.special_attr is SkipWrap && !f.nesting && !list,
        FieldGroup::Renamed => f.retyped && !f.nesting && plain && !list,
        FieldGroup::RenamedByEmptyValue => f.retyped && !f.nesting && by_empty && !list,
        FieldGroup::OwnType => !f.retyped && !f.nesting && plain && !list,
        FieldGroup::OwnTypeByEmptyValue => !f.retyped && !f.nesting && by_empty && !list,
        FieldGroup::Nesting => f.nesting && !list,
        FieldGroup::ListPatch => list,
    }
}

/// The groups whose empty values the generated code lists.
#[derive(Debug, Clone, Copy, PartialEq, Eq)]
pub enum EmptyValueGroup {
    /// every field that is not a list
    All,
    /// fields with a patch type of their own, not lists
    Renamed,
    /// fields patched by a value of their own type, not nested, not lists
    OwnType,
}

/// Field `f` has an empty value and belongs to group `g`.
pub open spec fn in_empty_value_group(f: Field, g: EmptyValueGroup) -> bool {
    let list = f.list_patch is Some;
    &&& f.special_attr is EmptyValue
    &&& match g {
        EmptyValueGroup::All => !list,
        EmptyValueGroup::Renamed => f.retyped && !list,
        EmptyValueGroup::OwnType => !f.retyped && !f.nesting && !list,
    }
}

/// `idx` lists, in increasing order, exactly the indices of the fields of
/// which `pred` holds.
pub open spec fn lists_matching(fields: Seq<Field>, pred: spec_fn(Field) -> bool, idx: Seq<usize>) -> bool {
    &&& forall|k: int| 0 <= k < idx.len() ==> #[trigger] idx[k] < fields.len() && pred(fields[idx[k] as int])
    &&& forall|k: int, l: int| 0 <= k < l < idx.len() ==> idx[k] < idx[l]
    &&& forall|i: int| 0 <= i < fields.len() && #[trigger] pred(fields[i]) ==> idx.contains(i as usize)
}

fn in_group_exec(f: &Field, g: &FieldGroup) -> (r: bool)
    ensures
        r == in_group(*f, *g),
{
    let list = f.is_list_patch();
    let plain = f.special_attr.is_empty();
    let by_empty = f.special_attr.empty_value().is_some();
    let skip_wrap = !plain && !by_empty;
    match g {
        FieldGroup::Regular => !f.nesting && plain && !list,
        FieldGroup::RegularByEmptyValue => !f.nesting && by_empty && !list,
        FieldGroup::SkipWrap => skip_wrap && !f.nesting && !list,
        FieldGroup::Renamed => f.retyped && !f.nesting && plain && !list,
        FieldGroup::RenamedByEmptyValue => f.retyped && !f.nesting && by_empty && !list,
        FieldGroup::OwnType => !f.retyped && !f.nesting && plain && !list,
        FieldGroup::OwnTypeByEmptyValue => !f.retyped && !f.nesting && by_empty && !list,
        FieldGroup::Nesting => f.nesting && !list,
        FieldGroup::ListPatch => list,
    }
}

fn in_empty_value_group_exec(f: &Field, g: &EmptyValueGroup) -> (r: bool)
    ensures
        r == in_empty_value_group(*f, *g),
{
    let list = f.is_list_patch();
    let by_empty = f.special_attr.empty_value().is_some();
    by_empty && match g {
        EmptyValueGroup::All => !list,
        EmptyValueGroup::Renamed => f.retyped && !list,
        EmptyValueGroup::OwnType => !f.retyped && !f.nesting && !list,
    }
}

/// `values` are the empty values of the fields at `idx`, which are the
/// fields in group `group`, in order.
pub open spec fn empty_values_at(
    fields: Seq<Field>,
    group: EmptyValueGroup,
    idx: Seq<usize>,
    values: Seq<String>,
) -> bool {
    &&& lists_matching(fields, |f: Field| in_empty_value_group(f, group), idx)
    &&& values.len() == idx.len()
    &&& forall|k: int|
        0 <= k < idx.len() ==> fields[#[trigger] idx[k] as int].special_attr
            == SpecialAttr::EmptyValue(values[k])
}

impl Patch {
    /// The indices of the fields in group `group`, in order.
    pub fn field_indices(&self, group: FieldGroup) -> (r: Vec<usize>)
        ensures
            lists_matching(self.fields@, |f: Field| in_group(f, group), r@),
    {
        let ghost pred = |f: Field| in_group(f, group);
        let mut r: Vec<usize> = Vec::new();
        let mut i: usize = 0;
        while i < self.fields.len()
            invariant
                i <= self.fields@.len(),
                pred == (|f: Field| in_group(f, group)),
                forall|k: int| 0 <= k < r@.len() ==> #[trigger] r@[k] < i && pred(self.fields@[r@[k] as int]),
                forall|k: int, l: int| 0 <= k < l < r@.len() ==> r@[k] < r@[l],
                forall|j: int| 0 <= j < i && #[trigger] pred(self.fields@[j]) ==> r@.contains(j as usize),
            decreases self.fields@.len() - i,
        {
            if in_group_exec(&self.fields[i], &group) {
                let ghost before = r@;
                r.push(i);
                proof {
                    assert forall|j: int| 0 <= j < i + 1 && #[trigger] pred(self.fields@[j]) implies r@.contains(j as usize) by {
                        if j < i {
                            let k = choose|k: int| 0 <= k < before.len() && before[k] == j as usize;
                            assert(r@[k] == j as usize);
                        } else {
                            assert(r@[before.len() as int] == i);
                        }
                    }
                }
            }
            i = i + 1;
        }
        r
    }

    /// The empty values of the fields in group `group`, in order.
    pub fn empty_values(&self, group: EmptyValueGroup) -> (r: Vec<String>)
        ensures
            exists|idx: Seq<usize>| #[trigger] empty_values_at(self.fields@, group, idx, r@),
    {
        let ghost pred = |f: Field| in_empty_value_group(f, group);
        let ghost mut idx: Seq<usize> = Seq::empty();
        let mut r: Vec<String> = Vec::new();
        let mut i: usize = 0;
        while i < self.fields.len()
            invariant
                i <= self.fields@.len(),
                pred == (|f: Field| in_empty_value_group(f, group)),
                r@.len() == idx.len(),
                forall|k: int| 0 <= k < idx.len() ==> #[trigger] idx[k] < i && pred(self.fields@[idx[k] as int]),
                forall|k: int, l: int| 0 <= k < l < idx.len() ==> idx[k] < idx[l],
                forall|j: int| 0 <= j < i && #[trigger] pred(self.fields@[j]) ==> idx.contains(j as usize),
                forall|k: int|
                    0 <= k < idx.len() ==> self.fields@[#[trigger] idx[k] as int].special_attr
                        == SpecialAttr::EmptyValue(r@[k]),
            decreases self.fields@.len() - i,
        {
            if in_empty_value_group_exec(&self.fields[i], &group) {
                let lit = match self.fields[i].special_attr.empty_value() {
                    Some(l) => l.clone(),
                    None => String::new(),
                };
                let ghost before = idx;
                r.push(lit);
                proof {
                    idx = idx.push(i);
                    assert forall|j: int| 0 <= j < i + 1 && #[trigger] pred(self.fields@[j]) implies idx.contains(j as usize) by {
                        if j < i {
                            let k = choose|k: int| 0 <= k < before.len() && before[k] == j as usize;
                            assert(idx[k] == j as usize);
                        } else {
                            assert(idx[before.len() as int] == i);
                        }
                    }
                }
            }
            i = i + 1;
        }
        proof {
            assert(empty_values_at(self.fields@, group, idx, r@));
        }
        r
    }
}

// ---------------------------------------------------------------------------
// Messages.
/// The message of an error of the derive.
pub open spec fn spec_message(kind: ErrorKind) -> Seq<char> {
    match kind {
        ErrorKind::NotStruct => "Patch derive only use for struct"@,
        ErrorKind::NameTwice => "The name attribute can't be defined more than once"@,
        ErrorKind::EmptyValueTwice => "The empty value is already set, we can't defined more than once"@,
        ErrorKind::EmptyValueWithSkipWrap => "`empty_value` and `skip_wrap` cannot be combined on the same field"@,
        ErrorKind::EmptyValueWithNullable => "`empty_value` and `nullable` cannot be combined on the same field"@,
        ErrorKind::EmptyValueWithoutValue => "empty_value needs a clear value to define what is empty"@,
        ErrorKind::SkipWrapWithEmptyValue => "`skip_wrap` and `empty_value` cannot be combined on the same field"@,
        ErrorKind::SkipWrapWithNullable => "`skip_wrap` and `nullable` cannot be combined on the same field"@,
        ErrorKind::NullableWithEmptyValue => "`nullable` and `empty_value` cannot be combined on the same field"@,
        ErrorKind::NullableWithSkipWrap => "`nullable` and `skip_wrap` cannot be combined on the same field"@,
        ErrorKind::NullableNotOption => "`nullable` requires the field type to be `Option<T>`"@,
        ErrorKind::ListPatchTwice => "`list_patch` can't be defined more than once on the same field"@,
        ErrorKind::ListPatchNotKeyValue => "`list_patch` only supports `key = value` items"@,
        ErrorKind::ListPatchWithoutId => "`list_patch` requires `id = <closure>`"@,
        ErrorKind::ListPatchWithoutIdType => "`list_patch` requires `id_type = <type>`"@,
        ErrorKind::ListPatchNotVec => "`list_patch` requires the field to be `Vec<T>`"@,
        ErrorKind::NullableWithNesting => "`nullable` and `nesting` cannot be combined on the same field"@,
        ErrorKind::NullableWithListPatch => "`nullable` and `list_patch` cannot be combined on the same field"@,
        ErrorKind::UnknownContainerAttribute(p) => "unknown patch container attribute `"@ + without_spaces(p@) + "`"@,
        ErrorKind::ListPatchUnknownKey(p) => "unknown `list_patch` attribute `"@ + without_spaces(p@) + "`"@,
        ErrorKind::UnknownFieldAttribute(p) => "unknown patch field attribute `"@ + without_spaces(p@) + "`"@,
        ErrorKind::Parse(m) => m@,
    }
}

impl ErrorKind {
    /// The message of this error.
    pub fn message(&self) -> (r: String)
        ensures
            r@ == spec_message(*self),
    {
        match self {
            ErrorKind::NotStruct => "Patch derive only use for struct".to_owned(),
            ErrorKind::NameTwice => "The name attribute can't be defined more than once".to_owned(),
            ErrorKind::EmptyValueTwice => "The empty value is already set, we can't defined more than once".to_owned(),
            ErrorKind::EmptyValueWithSkipWrap => "`empty_value` and `skip_wrap` cannot be combined on the same field".to_owned(),
            ErrorKind::EmptyValueWithNullable => "`empty_value` and `nullable` cannot be combined on the same field".to_owned(),
            ErrorKind::EmptyValueWithoutValue => "empty_value needs a clear value to define what is empty".to_owned(),
            ErrorKind::SkipWrapWithEmptyValue => "`skip_wrap` and `empty_value` cannot be combined on the same field".to_owned(),
            ErrorKind::SkipWrapWithNullable => "`skip_wrap` and `nullable` cannot be combined on the same field".to_owned(),
            ErrorKind::NullableWithEmptyValue => "`nullable` and `empty_value` cannot be combined on the same field".to_owned(),
            ErrorKind::NullableWithSkipWrap => "`nullable` and `skip_wrap` cannot be combined on the same field".to_owned(),
            ErrorKind::NullableNotOption => "`nullable` requires the field type to be `Option<T>`".to_owned(),
            ErrorKind::ListPatchTwice => "`list_patch` can't be defined more than once on the same field".to_owned(),
            ErrorKind::ListPatchNotKeyValue => "`list_patch` only supports `key = value` items".to_owned(),
            ErrorKind::ListPatchWithoutId => "`list_patch` requires `id = <closure>`".to_owned(),
            ErrorKind::ListPatchWithoutIdType => "`list_patch` requires `id_type = <type>`".to_owned(),
            ErrorKind::ListPatchNotVec => "`list_patch` requires the field to be `Vec<T>`".to_owned(),
            ErrorKind::NullableWithNesting => "`nullable` and `nesting` cannot be combined on the same field".to_owned(),
            ErrorKind::NullableWithListPatch => "`nullable` and `list_patch` cannot be combined on the same field".to_owned(),
            ErrorKind::UnknownContainerAttribute(p) => "unknown patch container attribute `".to_owned().concat(strip_spaces(p.as_str()).as_str()).concat("`"),
            ErrorKind::ListPatchUnknownKey(p) => "unknown `list_patch` attribute `".to_owned().concat(strip_spaces(p.as_str()).as_str()).concat("`"),
            ErrorKind::UnknownFieldAttribute(p) => "unknown patch field attribute `".to_owned().concat(strip_spaces(p.as_str()).as_str()).concat("`"),
            ErrorKind::Parse(m) => m.clone(),
        }
    }
}

// ---------------------------------------------------------------------------
// Attribute keys.
/// The items a `#[patch(..)]` attribute on a field may hold.
#[derive(Debug, Clone, Copy, PartialEq, Eq)]
pub enum FieldMetaKey {
    /// `skip`
    Skip,
    /// `attribute`
    Attribute,
    /// `name`
    Name,
    /// `addable`
    Addable,
    /// `add`
    Add,
    /// `nesting`
    Nesting,
    /// `empty_value`
    EmptyValue,
    /// `skip_wrap`
    SkipWrap,
    /// `nullable`
    Nullable,
    /// `list_patch`
    ListPatch,
    /// any other path
    Unknown,
}

/// The key that the path `p` names.
pub open spec fn spec_field_meta_key(p: Seq<char>) -> FieldMetaKey {
    if p == "skip"@ {
        FieldMetaKey::Skip
    } else if p == "attribute"@ {
        FieldMetaKey::Attribute
    } else if p == "name"@ {
        FieldMetaKey::Name
    } else if p == "addable"@ {
        FieldMetaKey::Addable
    } else if p == "add"@ {
        FieldMetaKey::Add
    } else if p == "nesting"@ {
        FieldMetaKey::Nesting
    } else if p == "empty_value"@ {
        FieldMetaKey::EmptyValue
    } else if p == "skip_wrap"@ {
        FieldMetaKey::SkipWrap
    } else if p == "nullable"@ {
        FieldMetaKey::Nullable
    } else if p == "list_patch"@ {
        FieldMetaKey::ListPatch
    } else {
        FieldMetaKey::Unknown
    }
}

/// The key that the path `path` names.
pub fn field_meta_key(path: &String) -> (r: FieldMetaKey)
    ensures
        r == spec_field_meta_key(path@),
{
    if text_is(path, "skip") {
        FieldMetaKey::Skip
    } else if text_is(path, "attribute") {
        FieldMetaKey::Attribute
    } else if text_is(path, "name") {
        FieldMetaKey::Name
    } else if text_is(path, "addable") {
        FieldMetaKey::Addable
    } else if text_is(path, "add") {
        FieldMetaKey::Add
    } else if text_is(path, "nesting") {
        FieldMetaKey::Nesting
    } else if text_is(path, "empty_value") {
        FieldMetaKey::EmptyValue
    } else if text_is(path, "skip_wrap") {
        FieldMetaKey::SkipWrap
    } else if text_is(path, "nullable") {
        FieldMetaKey::Nullable
    } else if text_is(path, "list_patch") {
        FieldMetaKey::ListPatch
    } else {
        FieldMetaKey::Unknown
    }
}
/// The items a `#[patch(..)]` attribute on the struct may hold.
#[derive(Debug, Clone, Copy, PartialEq, Eq)]
pub enum ContainerMetaKey {
    /// `name`
    Name,
    /// `attribute`
    Attribute,
    /// `no_diff`
    NoDiff,
    /// `skip_serializing_none`
    SkipSerializingNone,
    /// any other path
    Unknown,
}

/// The key that the path `p` names.
pub open spec fn spec_container_meta_key(p: Seq<char>) -> ContainerMetaKey {
    if p == "name"@ {
        ContainerMetaKey::Name
    } else if p == "attribute"@ {
        ContainerMetaKey::Attribute
    } else if p == "no_diff"@ {
        ContainerMetaKey::NoDiff
    } else if p == "skip_serializing_none"@ {
        ContainerMetaKey::SkipSerializingNone
    } else {
        ContainerMetaKey::Unknown
    }
}

/// The key that the path `path` names.
pub fn container_meta_key(path: &String) -> (r: ContainerMetaKey)
    ensures
        r == spec_container_meta_key(path@),
{
    if text_is(path, "name") {
        ContainerMetaKey::Name
    } else if text_is(path, "attribute") {
        ContainerMetaKey::Attribute
    } else if text_is(path, "no_diff") {
        ContainerMetaKey::NoDiff
    } else if text_is(path, "skip_serializing_none") {
        ContainerMetaKey::SkipSerializingNone
    } else {
        ContainerMetaKey::Unknown
    }
}
/// The keys `list_patch(..)` may hold.
#[derive(Debug, Clone, Copy, PartialEq, Eq)]
pub enum ListPatchKey {
    /// `id`
    Id,
    /// `id_type`
    IdType,
    /// `patch_type`
    PatchType,
    /// any other path
    Unknown,
}

/// The key that the path `p` names.
pub open spec fn spec_list_patch_key(p: Seq<char>) -> ListPatchKey {
    if p == "id"@ {
        ListPatchKey::Id
    } else if p == "id_type"@ {
        ListPatchKey::IdType
    } else if p == "patch_type"@ {
        ListPatchKey::PatchType
    } else {
        ListPatchKey::Unknown
    }
}

/// The key that the path `path` names.
pub fn list_patch_key(path: &String) -> (r: ListPatchKey)
    ensures
        r == spec_list_patch_key(path@),
{
    if text_is(path, "id") {
        ListPatchKey::Id
    } else if text_is(path, "id_type") {
        ListPatchKey::IdType
    } else if text_is(path, "patch_type") {
        ListPatchKey::PatchType
    } else {
        ListPatchKey::Unknown
    }
}


// ---------------------------------------------------------------------------
// Laws of reading the derive input.
/// The item is one of the three keys `list_patch(..)` takes.
pub open spec fn is_list_patch_key_item(m: ListPatchMeta) -> bool {
    m is Id || m is IdType || m is PatchType
}

/// Item `i` of `items` is the last `id = ..` item.
pub open spec fn is_last_id(items: Seq<ListPatchMeta>, i: int) -> bool {
    &&& 0 <= i < items.len()
    &&& items[i] is Id
    &&& forall|j: int| i < j < items.len() ==> !(#[trigger] items[j] is Id)
}

/// Item `i` of `items` is the last `id_type = ..` item.
pub open spec fn is_last_id_type(items: Seq<ListPatchMeta>, i: int) -> bool {
    &&& 0 <= i < items.len()
    &&& items[i] is IdType
    &&& forall|j: int| i < j < items.len() ==> !(#[trigger] items[j] is IdType)
}

/// Item `i` of `items` is the last `patch_type = ..` item.
pub open spec fn is_last_patch_type(items: Seq<ListPatchMeta>, i: int) -> bool {
    &&& 0 <= i < items.len()
    &&& items[i] is PatchType
    &&& forall|j: int| i < j < items.len() ==> !(#[trigger] items[j] is PatchType)
}

/// Reading `list_patch(..)` items that are all keys: every key is the
/// value of its last item, and absent where no item gives it.
proof fn lemma_list_patch_keys_of_keys(items: Seq<ListPatchMeta>)
    requires
        forall|j: int| 0 <= j < items.len() ==> is_list_patch_key_item(#[trigger] items[j]),
    ensures
        list_patch_keys(items) is Ok,
        forall|i: int|
            #[trigger] is_last_id(items, i) ==> list_patch_keys(
                items,
            )->Ok_0.id_fn == Some(items[i]->Id_0),
        forall|i: int|
            #[trigger] is_last_id_type(items, i) ==> list_patch_keys(
                items,
            )->Ok_0.id_type == Some(items[i]->IdType_0),
        forall|i: int|
            #[trigger] is_last_patch_type(items, i) ==> list_patch_keys(
                items,
            )->Ok_0.patch_type == Some(items[i]->PatchType_0),
        (forall|j: int| 0 <= j < items.len() ==> !(#[trigger] items[j] is Id)) ==> list_patch_keys(
            items,
        )->Ok_0.id_fn is None,
        (forall|j: int| 0 <= j < items.len() ==> !(#[trigger] items[j] is IdType)) ==> list_patch_keys(
            items,
        )->Ok_0.id_type is None,
        (forall|j: int| 0 <= j < items.len() ==> !(#[trigger] items[j] is PatchType))
            ==> list_patch_keys(items)->Ok_0.patch_type is None,
    decreases items.len(),
{
    if items.len() > 0 {
        let t = items.drop_last();
        let n = items.len() - 1;
        assert forall|j: int| 0 <= j < t.len() implies is_list_patch_key_item(#[trigger] t[j]) by {
            assert(t[j] == items[j]);
        }
        lemma_list_patch_keys_of_keys(t);
        assert(is_list_patch_key_item(items[n]));
        let keys = list_patch_keys(items)->Ok_0;
        let prev = list_patch_keys(t)->Ok_0;
        assert forall|i: int| #[trigger]
            is_last_id(items, i) implies keys.id_fn == Some(
            items[i]->Id_0,
        ) by {
            if i < n {
                assert(!(items[n] is Id));
                assert(is_last_id(t, i)) by {
                    assert forall|j: int| i < j < t.len() implies !(#[trigger] t[j] is Id) by {
                        assert(t[j] == items[j]);
                    }
                }
            }
        }
        assert forall|i: int| #[trigger]
            is_last_id_type(items, i) implies keys.id_type == Some(
            items[i]->IdType_0,
        ) by {
            if i < n {
                assert(!(items[n] is IdType));
                assert(is_last_id_type(t, i)) by {
                    assert forall|j: int| i < j < t.len() implies !(#[trigger] t[j] is IdType) by {
                        assert(t[j] == items[j]);
                    }
                }
            }
        }
        assert forall|i: int| #[trigger]
            is_last_patch_type(items, i) implies keys.patch_type
            == Some(items[i]->PatchType_0) by {
            if i < n {
                assert(!(items[n] is PatchType));
                assert(is_last_patch_type(t, i)) by {
                    assert forall|j: int| i < j < t.len() implies !(#[trigger] t[j] is PatchType) by {
                        assert(t[j] == items[j]);
                    }
                }
            }
        }
        if forall|j: int| 0 <= j < items.len() ==> !(#[trigger] items[j] is Id) {
            assert(!(items[n] is Id));
            assert forall|j: int| 0 <= j < t.len() implies !(#[trigger] t[j] is Id) by {
                assert(t[j] == items[j]);
            }
        }
        if forall|j: int| 0 <= j < items.len() ==> !(#[trigger] items[j] is IdType) {
            assert(!(items[n] is IdType));
            assert forall|j: int| 0 <= j < t.len() implies !(#[trigger] t[j] is IdType) by {
                assert(t[j] == items[j]);
            }
        }
        if forall|j: int| 0 <= j < items.len() ==> !(#[trigger] items[j] is PatchType) {
            assert(!(items[n] is PatchType));
            assert forall|j: int| 0 <= j < t.len() implies !(#[trigger] t[j] is PatchType) by {
                assert(t[j] == items[j]);
            }
        }
    }
}

/// Reading `list_patch(..)` on a `Vec<T>` field, from items that are all
/// keys and give `id` and `id_type`: the list patch takes the element type
/// `T` and the value of the last item of each key; the patch type given
/// with `patch_type = ..` where an item gives one, else none.
pub proof fn law_list_patch_last_key_wins(items: Seq<ListPatchMeta>, ty: Type, a: int, b: int)
    requires
        forall|j: int| 0 <= j < items.len() ==> is_list_patch_key_item(#[trigger] items[j]),
        is_last_id(items, a),
        is_last_id_type(items, b),
        spec_vec_element_type(ty) is Some,
    ensures
        spec_list_patch_info(items, ty) is Ok,
        spec_list_patch_info(items, ty)->Ok_0.element_type == spec_vec_element_type(ty)->Some_0,
        spec_list_patch_info(items, ty)->Ok_0.id_fn == items[a]->Id_0,
        spec_list_patch_info(items, ty)->Ok_0.id_type == items[b]->IdType_0,
        forall|c: int|
            #[trigger] is_last_patch_type(items, c) ==> spec_list_patch_info(
                items,
                ty,
            )->Ok_0.patch_type == Some(items[c]->PatchType_0),
        (forall|j: int| 0 <= j < items.len() ==> !(#[trigger] items[j] is PatchType))
            ==> spec_list_patch_info(items, ty)->Ok_0.patch_type is None,
{
    lemma_list_patch_keys_of_keys(items);
}

/// The texts of the `attribute(..)` items among `metas`, in order.
pub open spec fn field_attribute_items(metas: Seq<FieldMeta>) -> Seq<String>
    decreases metas.len(),
{
    if metas.len() == 0 {
        Seq::empty()
    } else {
        let rest = field_attribute_items(metas.drop_last());
        match metas.last() {
            FieldMeta::Attribute(t) => rest.push(t),
            _ => rest,
        }
    }
}

/// The texts of the `attribute(..)` items of the `#[patch(..)]`
/// attributes among `attrs`, in order.
pub open spec fn field_attrs_attribute_items(attrs: Seq<Attribute<FieldMeta>>) -> Seq<String>
    decreases attrs.len(),
{
    if attrs.len() == 0 {
        Seq::empty()
    } else {
        field_attrs_attribute_items(attrs.drop_last()) + if is_patch_attr(attrs.last()) {
            field_attribute_items(attrs.last().metas@)
        } else {
            Seq::empty()
        }
    }
}

proof fn lemma_field_metas_attributes(acc: FieldAcc, metas: Seq<FieldMeta>, ty: Type, attr: usize)
    ensures
        field_metas_result(acc, metas, ty, attr) is Ok ==> field_metas_result(
            acc,
            metas,
            ty,
            attr,
        )->Ok_0.attributes == acc.attributes + field_attribute_items(metas),
    decreases metas.len(),
{
    if metas.len() == 0 {
        assert(acc.attributes + Seq::<String>::empty() =~= acc.attributes);
    } else {
        let t = metas.drop_last();
        lemma_field_metas_attributes(acc, t, ty, attr);
        if field_metas_result(acc, metas, ty, attr) is Ok {
            let a = field_metas_result(acc, t, ty, attr)->Ok_0;
            match metas.last() {
                FieldMeta::Attribute(x) => {
                    assert(acc.attributes + field_attribute_items(t).push(x) =~= (acc.attributes
                        + field_attribute_items(t)).push(x));
                },
                _ => {},
            }
        }
    }
}

proof fn lemma_field_attrs_attributes(attrs: Seq<Attribute<FieldMeta>>, ty: Type)
    ensures
        field_attrs_result(attrs, ty) is Ok && !field_attrs_result(attrs, ty)->Ok_0.skip
            ==> field_attrs_result(attrs, ty)->Ok_0.attributes == field_attrs_attribute_items(attrs),
    decreases attrs.len(),
{
    if attrs.len() > 0 {
        let t = attrs.drop_last();
        lemma_field_attrs_attributes(t, ty);
        if field_attrs_result(attrs, ty) is Ok && !field_attrs_result(attrs, ty)->Ok_0.skip {
            let acc = field_attrs_result(t, ty)->Ok_0;
            if is_patch_attr(attrs.last()) && !acc.skip {
                lemma_field_metas_attributes(acc, attrs.last().metas@, ty, (attrs.len() - 1) as usize);
            } else {
                assert(field_attrs_attribute_items(t) + Seq::<String>::empty() =~= field_attrs_attribute_items(t));
            }
        }
    }
}

/// A field the derive builds carries the texts of all the `attribute(..)`
/// items of its `#[patch(..)]` attributes, in order, before any attribute
/// the derive adds.
pub proof fn law_field_attributes_kept(input: FieldInput, skip_serializing_none: bool, f: Field)
    requires
        field_from_ast_result(input, skip_serializing_none, Ok(Some(f))),
    ensures
        f.attributes@.len() >= field_attrs_attribute_items(input.attrs@).len(),
        f.attributes@.take(field_attrs_attribute_items(input.attrs@).len() as int)
            == field_attrs_attribute_items(input.attrs@),
{
    lemma_field_attrs_attributes(input.attrs@, input.ty);
    let acc = field_attrs_result(input.attrs@, input.ty)->Ok_0;
    assert(f.attributes@.take(acc.attributes.len() as int) =~= acc.attributes);
}

/// The texts of the `attribute(..)` items among `metas`, in order.
pub open spec fn container_attribute_items(metas: Seq<ContainerMeta>) -> Seq<String>
    decreases metas.len(),
{
    if metas.len() == 0 {
        Seq::empty()
    } else {
        let rest = container_attribute_items(metas.drop_last());
        match metas.last() {
            ContainerMeta::Attribute(t) => rest.push(t),
            _ => rest,
        }
    }
}

/// The texts of the `attribute(..)` items of the `#[patch(..)]`
/// attributes among `attrs`, in order.
pub open spec fn container_attrs_attribute_items(attrs: Seq<Attribute<ContainerMeta>>) -> Seq<
    String,
>
    decreases attrs.len(),
{
    if attrs.len() == 0 {
        Seq::empty()
    } else {
        container_attrs_attribute_items(attrs.drop_last()) + if is_patch_attr(attrs.last()) {
            container_attribute_items(attrs.last().metas@)
        } else {
            Seq::empty()
        }
    }
}

proof fn lemma_container_metas_attributes(acc: ContainerAcc, metas: Seq<ContainerMeta>, attr: usize)
    ensures
        container_metas_result(acc, metas, attr) is Ok ==> container_metas_result(
            acc,
            metas,
            attr,
        )->Ok_0.attributes == acc.attributes + container_attribute_items(metas),
    decreases metas.len(),
{
    if metas.len() == 0 {
        assert(acc.attributes + Seq::<String>::empty() =~= acc.attributes);
    } else {
        let t = metas.drop_last();
        lemma_container_metas_attributes(acc, t, attr);
        if container_metas_result(acc, metas, attr) is Ok {
            match metas.last() {
                ContainerMeta::Attribute(x) => {
                    assert(acc.attributes + container_attribute_items(t).push(x) =~= (acc.attributes
                        + container_attribute_items(t)).push(x));
                },
                _ => {},
            }
        }
    }
}

proof fn lemma_container_attrs_attributes(attrs: Seq<Attribute<ContainerMeta>>)
    ensures
        container_attrs_result(attrs) is Ok ==> container_attrs_result(attrs)->Ok_0.attributes
            == container_attrs_attribute_items(attrs),
    decreases attrs.len(),
{
    if attrs.len() > 0 {
        let t = attrs.drop_last();
        lemma_container_attrs_attributes(t);
        if container_attrs_result(attrs) is Ok {
            let acc = container_attrs_result(t)->Ok_0;
            if is_patch_attr(attrs.last()) {
                lemma_container_metas_attributes(acc, attrs.last().metas@, (attrs.len() - 1) as usize);
            } else {
                assert(container_attrs_attribute_items(t) + Seq::<String>::empty()
                    =~= container_attrs_attribute_items(t));
            }
        }
    }
}

/// The patch struct carries exactly the texts of all the `attribute(..)`
/// items of the struct's `#[patch(..)]` attributes, in order.
pub proof fn law_container_attributes_kept(input: DeriveInput, p: Patch)
    requires
        patch_from_ast_result(input, Ok(p)),
    ensures
        p.attributes@ == container_attrs_attribute_items(input.attrs@),
{
    lemma_container_attrs_attributes(input.attrs@);
}

/// The patch field of a field that is neither a list nor nested is the
/// field's own type where the field has an empty value or `skip_wrap`,
/// and an `Option` of it where the field is plain.
pub proof fn law_patch_field_type_by_kind(f: Field, r: PatchFieldType)
    requires
        is_patch_field_type(f, r),
        f.list_patch is None,
        !f.nesting,
    ensures
        f.special_attr is EmptyValue ==> r == PatchFieldType::AsIs(f.ty),
        f.special_attr is SkipWrap ==> r == PatchFieldType::AsIs(f.ty),
        f.special_attr is Plain ==> r == PatchFieldType::Wrapped(f.ty),
{
}

/// `idx` listing, in increasing order, the indices of the fields of which
/// `pred` holds, the fields it indexes are those `pred` keeps, in order.
proof fn lemma_lists_matching_filter(fields: Seq<Field>, pred: spec_fn(Field) -> bool, idx: Seq<usize>)
    requires
        lists_matching(fields, pred, idx),
        fields.len() <= usize::MAX,
    ensures
        idx.map_values(|i: usize| fields[i as int]) == fields.filter(pred),
    decreases fields.len(),
{
    reveal_with_fuel(Seq::filter, 1);
    if fields.len() == 0 {
        if idx.len() > 0 {
            assert(idx[0] < fields.len());
        }
        assert(idx.map_values(|i: usize| fields[i as int]) =~= fields.filter(pred));
    } else {
        let n = fields.len() - 1;
        let t = fields.drop_last();
        assert(fields.filter(pred) == if pred(fields.last()) {
            t.filter(pred).push(fields.last())
        } else {
            t.filter(pred)
        });
        if pred(fields[n]) {
            assert(idx.contains(n as usize));
            let k = choose|k: int| 0 <= k < idx.len() && idx[k] == n as usize;
            let last = idx.len() - 1;
            assert(idx[last] < fields.len());
            assert(k == last) by {
                if k < last {
                    assert(idx[k] < idx[last]);
                }
            }
            let i2 = idx.drop_last();
            assert(lists_matching(t, pred, i2)) by {
                assert forall|q: int| 0 <= q < i2.len() implies #[trigger] i2[q] < t.len() && pred(
                    t[i2[q] as int],
                ) by {
                    assert(i2[q] == idx[q]);
                    assert(idx[q] < idx[k]);
                }
                assert forall|j: int| 0 <= j < t.len() && #[trigger] pred(t[j]) implies i2.contains(
                    j as usize,
                ) by {
                    assert(t[j] == fields[j]);
                    assert(idx.contains(j as usize));
                    let q = choose|q: int| 0 <= q < idx.len() && idx[q] == j as usize;
                    assert(q != k) by {
                        assert(idx[k] == n as usize);
                        assert(j < n);
                    }
                    assert(q < k) by {
                        if q > k {
                            assert(idx[k] < idx[q]);
                        }
                    }
                    assert(i2[q] == idx[q]);
                }
            }
            lemma_lists_matching_filter(t, pred, i2);
            assert(idx.map_values(|i: usize| fields[i as int]) =~= i2.map_values(
                |i: usize| t[i as int],
            ).push(fields.last())) by {
                assert forall|q: int| 0 <= q < i2.len() implies i2[q] < t.len() by {
                    assert(idx[q] < idx[k]);
                }
            }
        } else {
            assert(lists_matching(t, pred, idx)) by {
                assert forall|q: int| 0 <= q < idx.len() implies #[trigger] idx[q] < t.len() && pred(
                    t[idx[q] as int],
                ) by {
                    if idx[q] == n {
                        assert(pred(fields[n]));
                    }
                }
                assert forall|j: int| 0 <= j < t.len() && #[trigger] pred(t[j]) implies idx.contains(
                    j as usize,
                ) by {
                    assert(t[j] == fields[j]);
                }
            }
            lemma_lists_matching_filter(t, pred, idx);
            assert(idx.map_values(|i: usize| fields[i as int]) =~= idx.map_values(
                |i: usize| t[i as int],
            ));
        }
    }
}

/// The empty value of a field that has one.
pub open spec fn empty_value_of(f: Field) -> String {
    f.special_attr->EmptyValue_0
}

/// The empty values of a group are those of the fields of the group, one
/// each, in field order (of the fields of a patch struct, which a `Vec`
/// holds).
pub proof fn law_empty_values_in_field_order(
    fields: Seq<Field>,
    group: EmptyValueGroup,
    idx: Seq<usize>,
    values: Seq<String>,
)
    requires
        empty_values_at(fields, group, idx, values),
        fields.len() <= usize::MAX,
    ensures
        values == fields.filter(|f: Field| in_empty_value_group(f, group)).map_values(
            |f: Field| empty_value_of(f),
        ),
{
    let pred = |f: Field| in_empty_value_group(f, group);
    lemma_lists_matching_filter(fields, pred, idx);
    let kept = fields.filter(pred);
    assert(kept.len() == idx.len());
    assert forall|k: int| 0 <= k < idx.len() implies values[k] == empty_value_of(
        #[trigger] kept[k],
    ) by {
        assert(kept[k] == idx.map_values(|i: usize| fields[i as int])[k]);
        assert(fields[idx[k] as int].special_attr == SpecialAttr::EmptyValue(values[k]));
    }
    assert(values =~= kept.map_values(|f: Field| empty_value_of(f)));
}

/// Reading an item other than `list_patch(..)` keeps what the attributes
/// said of the list patch.
proof fn lemma_field_meta_step_list_patch(acc: FieldAcc, meta: FieldMeta, ty: Type)
    ensures
        field_meta_step(acc, meta, ty) is Ok ==> match meta {
            FieldMeta::ListPatch(items) => acc.list_patch is None && items is Ok && field_meta_step(
                acc,
                meta,
                ty,
            )->Ok_0.list_patch == Some(spec_list_patch_info(items->Ok_0@, ty)->Ok_0)
                && spec_list_patch_info(items->Ok_0@, ty) is Ok,
            _ => field_meta_step(acc, meta, ty)->Ok_0.list_patch == acc.list_patch,
        },
{
}

/// The list patch of a field whose `list_patch(..)` items are `items`.
pub open spec fn list_patch_of(items: Vec<ListPatchMeta>, ty: Type) -> Option<ListPatchInfo> {
    Some(spec_list_patch_info(items@, ty)->Ok_0)
}

proof fn lemma_field_metas_list_patch(acc: FieldAcc, metas: Seq<FieldMeta>, ty: Type, attr: usize)
    ensures
        field_metas_result(acc, metas, ty, attr) is Ok ==> {
            let b = field_metas_result(acc, metas, ty, attr)->Ok_0;
            &&& acc.list_patch is Some ==> b.list_patch == acc.list_patch
            &&& (forall|j: int| 0 <= j < metas.len() ==> !(#[trigger] metas[j] is ListPatch))
                ==> b.list_patch == acc.list_patch
            &&& forall|j: int|
                0 <= j < metas.len() && #[trigger] metas[j] is ListPatch ==> metas[j]->ListPatch_0
                    is Ok && b.list_patch == list_patch_of(metas[j]->ListPatch_0->Ok_0, ty)
                    && spec_list_patch_info(metas[j]->ListPatch_0->Ok_0@, ty) is Ok
        },
    decreases metas.len(),
{
    if metas.len() > 0 {
        let t = metas.drop_last();
        let n = metas.len() - 1;
        lemma_field_metas_list_patch(acc, t, ty, attr);
        if field_metas_result(acc, metas, ty, attr) is Ok {
            let a = field_metas_result(acc, t, ty, attr)->Ok_0;
            let b = field_metas_result(acc, metas, ty, attr)->Ok_0;
            lemma_field_meta_step_list_patch(a, metas[n], ty);
            assert forall|j: int| 0 <= j < metas.len() && #[trigger] metas[j] is ListPatch implies metas[j]->ListPatch_0
                is Ok && b.list_patch == list_patch_of(metas[j]->ListPatch_0->Ok_0, ty)
                && spec_list_patch_info(metas[j]->ListPatch_0->Ok_0@, ty) is Ok by {
                if j < n {
                    assert(t[j] == metas[j]);
                    assert(a.list_patch is Some);
                    assert(!(metas[n] is ListPatch));
                }
            }
            if forall|j: int| 0 <= j < metas.len() ==> !(#[trigger] metas[j] is ListPatch) {
                assert(!(metas[n] is ListPatch));
                assert forall|j: int| 0 <= j < t.len() implies !(#[trigger] t[j] is ListPatch) by {
                    assert(t[j] == metas[j]);
                }
            }
        }
    }
}

proof fn lemma_field_attrs_list_patch(attrs: Seq<Attribute<FieldMeta>>, ty: Type)
    ensures
        field_attrs_result(attrs, ty) is Ok && !field_attrs_result(attrs, ty)->Ok_0.skip ==> {
            let acc = field_attrs_result(attrs, ty)->Ok_0;
            forall|i: int, j: int|
                0 <= i < attrs.len() && is_patch_attr(#[trigger] attrs[i]) && 0 <= j
                    < attrs[i].metas@.len() && (#[trigger] attrs[i].metas@[j]) is ListPatch
                    ==> attrs[i].metas@[j]->ListPatch_0 is Ok && acc.list_patch == list_patch_of(
                    attrs[i].metas@[j]->ListPatch_0->Ok_0,
                    ty,
                ) && spec_list_patch_info(attrs[i].metas@[j]->ListPatch_0->Ok_0@, ty) is Ok
        },
    decreases attrs.len(),
{
    if attrs.len() > 0 {
        let t = attrs.drop_last();
        let n = attrs.len() - 1;
        lemma_field_attrs_list_patch(t, ty);
        if field_attrs_result(attrs, ty) is Ok && !field_attrs_result(attrs, ty)->Ok_0.skip {
            let a = field_attrs_result(t, ty)->Ok_0;
            let acc = field_attrs_result(attrs, ty)->Ok_0;
            assert(!a.skip);
            if is_patch_attr(attrs[n]) {
                lemma_field_metas_list_patch(a, attrs[n].metas@, ty, n as usize);
            }
            assert forall|i: int, j: int|
                0 <= i < attrs.len() && is_patch_attr(#[trigger] attrs[i]) && 0 <= j
                    < attrs[i].metas@.len() && (#[trigger] attrs[i].metas@[j]) is ListPatch
                    implies attrs[i].metas@[j]->ListPatch_0 is Ok && acc.list_patch == list_patch_of(
                    attrs[i].metas@[j]->ListPatch_0->Ok_0,
                    ty,
                ) && spec_list_patch_info(attrs[i].metas@[j]->ListPatch_0->Ok_0@, ty) is Ok by {
                if i < n {
                    assert(t[i] == attrs[i]);
                    assert(a.list_patch is Some);
                }
            }
        }
    }
}

/// A field the derive builds with a `list_patch(..)` item takes the list
/// patch that reading that item's keys on the field's type gives: its
/// `id`, `id_type` and `patch_type` settings and its element type.
pub proof fn law_field_list_patch_read(
    input: FieldInput,
    skip_serializing_none: bool,
    f: Field,
    i: int,
    j: int,
)
    requires
        field_from_ast_result(input, skip_serializing_none, Ok(Some(f))),
        0 <= i < input.attrs@.len(),
        is_patch_attr(input.attrs@[i]),
        0 <= j < input.attrs@[i].metas@.len(),
        input.attrs@[i].metas@[j] is ListPatch,
    ensures
        input.attrs@[i].metas@[j]->ListPatch_0 is Ok,
        spec_list_patch_info(input.attrs@[i].metas@[j]->ListPatch_0->Ok_0@, input.ty) is Ok,
        f.list_patch == Some(
            spec_list_patch_info(input.attrs@[i].metas@[j]->ListPatch_0->Ok_0@, input.ty)->Ok_0,
        ),
{
    lemma_field_attrs_list_patch(input.attrs@, input.ty);
    let acc = field_attrs_result(input.attrs@, input.ty)->Ok_0;
    assert(input.attrs@[i].metas@[j] is ListPatch);
}

/// A field the derive builds from `list_patch(..)` items that are all keys,
/// on a `Vec<T>` field, with a last `patch_type = t` item: the list ops of
/// its patch field carry `T`, the patch type `t` and the last `id_type`.
pub proof fn law_field_list_patch_type(
    input: FieldInput,
    skip_serializing_none: bool,
    f: Field,
    r: PatchFieldType,
    i: int,
    j: int,
    a: int,
    b: int,
    c: int,
)
    requires
        field_from_ast_result(input, skip_serializing_none, Ok(Some(f))),
        is_patch_field_type(f, r),
        0 <= i < input.attrs@.len(),
        is_patch_attr(input.attrs@[i]),
        0 <= j < input.attrs@[i].metas@.len(),
        input.attrs@[i].metas@[j] matches FieldMeta::ListPatch(Ok(items)) && {
            &&& forall|k: int| 0 <= k < items@.len() ==> is_list_patch_key_item(#[trigger] items@[k])
            &&& is_last_id(items@, a)
            &&& is_last_id_type(items@, b)
            &&& is_last_patch_type(items@, c)
        },
        spec_vec_element_type(input.ty) is Some,
    ensures
        ({
            let items = input.attrs@[i].metas@[j]->ListPatch_0->Ok_0@;
            &&& f.list_patch matches Some(info) && info.patch_type == Some(items[c]->PatchType_0)
            &&& r matches PatchFieldType::ListOps { element, patch, id } && element
                == spec_vec_element_type(input.ty)->Some_0 && patch@ == items[c]->PatchType_0@ && id
                == items[b]->IdType_0
        }),
{
    law_field_list_patch_read(input, skip_serializing_none, f, i, j);
    let items = input.attrs@[i].metas@[j]->ListPatch_0->Ok_0@;
    law_list_patch_last_key_wins(items, input.ty, a, b);
}

} // verus!
