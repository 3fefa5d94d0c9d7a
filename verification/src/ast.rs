//! The specification tree: the typed output of schema resolution, consumed
//! read-only by the binding generator.

use vstd::prelude::*;

use crate::value::{DocValue, ValueV};

verus! {

/// One resolved configuration field.
#[derive(Debug, PartialEq)]
pub struct Spec {
    /// The raw key of the field in its table.
    pub toml_tag_name: String,
    /// Dot-joined path from the document root to this field.
    pub id: String,
    /// Canonical destination type name.
    pub field_type: String,
    /// Optional human-readable description.
    pub doc: Option<String>,
    /// The field's kind, exactly one of five.
    pub variant: GenericSpec,
    /// Same as the raw key.
    pub name: String,
    /// Whether the produced field is wrapped as "may be absent".
    pub optional: bool,
}

/// The five mutually exclusive kinds of a resolved field.
#[derive(Debug, PartialEq)]
pub enum GenericSpec {
    FieldSpec(Field),
    SubtypeSpec(SubField),
    ExternalSpec(ExternalStruct),
    EnumSpec(EnumField),
    VecSpec(VecField),
}

/// A native scalar field.
#[derive(Debug, PartialEq)]
pub struct Field {
    pub default: Option<String>,
    pub env: Option<String>,
    pub long_arg: Option<String>,
    pub short_arg: Option<char>,
    pub optional: bool,
}

/// A sub-table that becomes a nested composite type.
#[derive(Debug, PartialEq)]
pub struct SubField(pub Vec<Spec>);

/// A sub-table delegated to a type defined elsewhere.
#[derive(Debug, PartialEq)]
pub struct ExternalStruct {
    pub long_arg: Option<String>,
    pub short_arg: Option<char>,
}

/// An enumerated field. A field resolved from a document references its enum
/// type by name and carries no variants; a non-empty variant list makes the
/// generator emit the enum's own declaration.
#[derive(Debug, PartialEq)]
pub struct EnumField {
    pub env: Option<String>,
    pub long_arg: Option<String>,
    pub short_arg: Option<char>,
    pub optional: bool,
    pub enum_name: String,
    pub variants: Vec<String>,
    pub default: Option<String>,
}

/// A homogeneous vector of native values. The default, when present, is the
/// raw document array, decoded at generation time.
#[derive(Debug, PartialEq)]
pub struct VecField {
    pub default: Option<DocValue>,
    pub env: Option<String>,
    pub long_arg: Option<String>,
    pub short_arg: Option<char>,
    pub optional: bool,
}

/// Mathematical model of a resolved field.
pub struct SpecV {
    pub toml_tag_name: Seq<char>,
    pub id: Seq<char>,
    pub field_type: Seq<char>,
    pub doc: Option<Seq<char>>,
    pub variant: GenericSpecV,
    pub name: Seq<char>,
    pub optional: bool,
}

/// Mathematical model of a field's kind.
pub enum GenericSpecV {
    FieldSpec(FieldV),
    SubtypeSpec(Seq<SpecV>),
    ExternalSpec(ExternalStructV),
    EnumSpec(EnumFieldV),
    VecSpec(VecFieldV),
}

/// Mathematical model of a native scalar field.
pub struct FieldV {
    pub default: Option<Seq<char>>,
    pub env: Option<Seq<char>>,
    pub long_arg: Option<Seq<char>>,
    pub short_arg: Option<char>,
    pub optional: bool,
}

/// Mathematical model of an external field.
pub struct ExternalStructV {
    pub long_arg: Option<Seq<char>>,
    pub short_arg: Option<char>,
}

/// Mathematical model of an enumerated field.
pub struct EnumFieldV {
    pub env: Option<Seq<char>>,
    pub long_arg: Option<Seq<char>>,
    pub short_arg: Option<char>,
    pub optional: bool,
    pub enum_name: Seq<char>,
    pub variants: Seq<Seq<char>>,
    pub default: Option<Seq<char>>,
}

/// Mathematical model of a vector field.
pub struct VecFieldV {
    pub default: Option<ValueV>,
    pub env: Option<Seq<char>>,
    pub long_arg: Option<Seq<char>>,
    pub short_arg: Option<char>,
    pub optional: bool,
}

/// The model of an optional owned string.
pub open spec fn opt_str_view(o: Option<String>) -> Option<Seq<char>> {
    match o {
        Some(s) => Some(s@),
        None => None,
    }
}

/// The model of an optional document value.
pub open spec fn opt_value_view(o: Option<DocValue>) -> Option<ValueV> {
    match o {
        Some(v) => Some(v.deep()),
        None => None,
    }
}

/// The models of a sequence of string names.
pub open spec fn strings_view(items: Seq<String>) -> Seq<Seq<char>> {
    Seq::new(items.len(), |i: int| items[i]@)
}

impl Field {
    /// The mathematical model of this leaf field.
    pub open spec fn deep(self) -> FieldV {
        FieldV {
            default: opt_str_view(self.default),
            env: opt_str_view(self.env),
            long_arg: opt_str_view(self.long_arg),
            short_arg: self.short_arg,
            optional: self.optional,
        }
    }
}

impl View for Field {
    type V = FieldV;

    open spec fn view(&self) -> FieldV {
        self.deep()
    }
}

impl ExternalStruct {
    /// The mathematical model of this external field.
    pub open spec fn deep(self) -> ExternalStructV {
        ExternalStructV { long_arg: opt_str_view(self.long_arg), short_arg: self.short_arg }
    }
}

impl View for ExternalStruct {
    type V = ExternalStructV;

    open spec fn view(&self) -> ExternalStructV {
        self.deep()
    }
}

impl EnumField {
    /// The mathematical model of this enumerated field.
    pub open spec fn deep(self) -> EnumFieldV {
        EnumFieldV {
            env: opt_str_view(self.env),
            long_arg: opt_str_view(self.long_arg),
            short_arg: self.short_arg,
            optional: self.optional,
            enum_name: self.enum_name@,
            variants: strings_view(self.variants@),
            default: opt_str_view(self.default),
        }
    }
}

impl View for EnumField {
    type V = EnumFieldV;

    open spec fn view(&self) -> EnumFieldV {
        self.deep()
    }
}

impl VecField {
    /// The mathematical model of this vector field.
    pub open spec fn deep(self) -> VecFieldV {
        VecFieldV {
            default: opt_value_view(self.default),
            env: opt_str_view(self.env),
            long_arg: opt_str_view(self.long_arg),
            short_arg: self.short_arg,
            optional: self.optional,
        }
    }
}

impl View for VecField {
    type V = VecFieldV;

    open spec fn view(&self) -> VecFieldV {
        self.deep()
    }
}

impl Spec {
    /// The mathematical model of this field.
    pub open spec fn deep(self) -> SpecV
        decreases self,
        via Self::deep_decreases
    {
        SpecV {
            toml_tag_name: self.toml_tag_name@,
            id: self.id@,
            field_type: self.field_type@,
            doc: opt_str_view(self.doc),
            variant: self.variant.deep(),
            name: self.name@,
            optional: self.optional,
        }
    }

    #[via_fn]
    proof fn deep_decreases(self) {
        assert(decreases_to!(self => self.variant));
    }
}

impl View for Spec {
    type V = SpecV;

    open spec fn view(&self) -> SpecV {
        self.deep()
    }
}

impl GenericSpec {
    /// The mathematical model of this kind.
    pub open spec fn deep(self) -> GenericSpecV
        decreases self,
        via Self::deep_decreases
    {
        match self {
            GenericSpec::FieldSpec(f) => GenericSpecV::FieldSpec(f.deep()),
            GenericSpec::SubtypeSpec(sub) => GenericSpecV::SubtypeSpec(specs_deep(sub.0@)),
            GenericSpec::ExternalSpec(e) => GenericSpecV::ExternalSpec(e.deep()),
            GenericSpec::EnumSpec(e) => GenericSpecV::EnumSpec(e.deep()),
            GenericSpec::VecSpec(v) => GenericSpecV::VecSpec(v.deep()),
        }
    }

    #[via_fn]
    proof fn deep_decreases(self) {
        match self {
            GenericSpec::SubtypeSpec(sub) => {
                assert(decreases_to!(self => sub));
                assert(decreases_to!(sub => sub.0));
                assert(decreases_to!(sub.0 => sub.0@));
            },
            _ => {},
        }
    }
}

impl View for GenericSpec {
    type V = GenericSpecV;

    open spec fn view(&self) -> GenericSpecV {
        self.deep()
    }
}

/// The models of a sequence of resolved fields, element by element.
pub open spec fn specs_deep(items: Seq<Spec>) -> Seq<SpecV>
    decreases items,
{
    if items.len() == 0 {
        Seq::empty()
    } else {
        seq![items[0].deep()] + specs_deep(items.drop_first())
    }
}

/// `specs_deep` maps the model over the elements.
pub broadcast proof fn lemma_specs_deep(items: Seq<Spec>)
    ensures
        (#[trigger] specs_deep(items)).len() == items.len(),
        forall|i: int| 0 <= i < items.len() ==> specs_deep(items)[i] == (#[trigger] items[i]).deep(),
    decreases items,
{
    if items.len() != 0 {
        lemma_specs_deep(items.drop_first());
        assert forall|i: int| 0 <= i < items.len() implies specs_deep(items)[i] == (
        #[trigger] items[i]).deep() by {
            if i > 0 {
                assert(items.drop_first()[i - 1] == items[i]);
                assert(specs_deep(items)[i] == specs_deep(items.drop_first())[i - 1]);
            }
        }
    }
}

/// Appending a field appends its model.
pub proof fn lemma_specs_deep_push(items: Seq<Spec>, x: Spec)
    ensures
        specs_deep(items.push(x)) == specs_deep(items).push(x.deep()),
{
    lemma_specs_deep(items);
    lemma_specs_deep(items.push(x));
    assert forall|i: int| 0 <= i < items.len() + 1 implies specs_deep(items.push(x))[i]
        == specs_deep(items).push(x.deep())[i] by {
        assert(specs_deep(items.push(x))[i] == items.push(x)[i].deep());
        if i < items.len() {
            assert(items.push(x)[i] == items[i]);
        } else {
            assert(items.push(x)[i] == x);
        }
    }
    assert(specs_deep(items.push(x)) =~= specs_deep(items).push(x.deep()));
}

/// Whether a kind carries its own optionality; nested and external fields
/// are never optional.
pub open spec fn variant_optional(v: GenericSpecV) -> bool {
    match v {
        GenericSpecV::FieldSpec(f) => f.optional,
        GenericSpecV::SubtypeSpec(_) => false,
        GenericSpecV::ExternalSpec(_) => false,
        GenericSpecV::EnumSpec(f) => f.optional,
        GenericSpecV::VecSpec(f) => f.optional,
    }
}

impl Spec {
    /// Builds a resolved field: the name mirrors the raw key, and the
    /// field-level optionality is taken from the kind.
    pub fn new(
        toml_tag_name: String,
        id: String,
        field_type: String,
        doc: Option<String>,
        variant: GenericSpec,
    ) -> (r: Spec)
        ensures
            r@ == (SpecV {
                toml_tag_name: toml_tag_name@,
                id: id@,
                field_type: field_type@,
                doc: opt_str_view(doc),
                variant: variant.deep(),
                name: toml_tag_name@,
                optional: variant_optional(variant.deep()),
            }),
    {
        let name = toml_tag_name.clone();
        let optional = match &variant {
            GenericSpec::FieldSpec(f) => f.optional,
            GenericSpec::SubtypeSpec(_) => false,
            GenericSpec::ExternalSpec(_) => false,
            GenericSpec::EnumSpec(f) => f.optional,
            GenericSpec::VecSpec(f) => f.optional,
        };
        Spec { toml_tag_name, id, field_type, doc, variant, name, optional }
    }
}

} // verus!
