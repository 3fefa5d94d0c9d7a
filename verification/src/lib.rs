//! Resolves a declarative, table-structured schema document into a typed
//! specification tree, and generates argument-parser binding declarations
//! from that tree.

pub mod ast;
pub mod codegen;
pub mod errors;
pub mod laws;
pub mod text;
pub mod toml_input;
pub mod utils;
pub mod value;

use vstd::prelude::*;
use vstd::string::StrSliceExecFns;

use crate::ast::{
    lemma_specs_deep, lemma_specs_deep_push, opt_str_view, specs_deep, variant_optional, EnumField,
    EnumFieldV, ExternalStruct, ExternalStructV, Field, FieldV, GenericSpec, GenericSpecV, Spec,
    SpecV, SubField, VecField, VecFieldV,
};
use crate::errors::{ConfigError, ConfigErrorV};
use crate::text::{concat_strs, str_eq};
use crate::toml_input::{parse_toml_table, toml_doc_of};
use crate::utils::field_type_spec;
use crate::value::{
    clone_value, lemma_table_deep, table_deep, table_get, table_get_bool, table_get_str, tbl_get,
    tbl_get_bool, tbl_get_str, DocTable, DocValue, TableV, ValueV,
};

verus! {

/// Canonical type name used for schema fields declared with the `path` type tag.
pub const PATH_BUF: &'static str = "std::path::PathBuf";

/// The dot-joined id of a field under its parent; a root field's id is its
/// own name.
pub open spec fn join_id(parent: Option<Seq<char>>, name: Seq<char>) -> Seq<char> {
    match parent {
        None => name,
        Some(p) => p + "."@ + name,
    }
}

/// The control keys of a field table, never interpreted as child fields.
pub open spec fn is_reserved_key(k: Seq<char>) -> bool {
    ||| k == "type"@
    ||| k == "default"@
    ||| k == "doc"@
    ||| k == "env"@
    ||| k == "optional"@
    ||| k == "long"@
    ||| k == "short"@
    ||| k == "enum"@
}

/// Whether a key is one of the reserved control keys.
fn is_reserved(k: &str) -> (r: bool)
    ensures
        r == is_reserved_key(k@),
{
    str_eq(k, "type") || str_eq(k, "default") || str_eq(k, "doc") || str_eq(k, "env") || str_eq(
        k,
        "optional",
    ) || str_eq(k, "long") || str_eq(k, "short") || str_eq(k, "enum")
}

/// The short flag of a field table: the `short` string when it is exactly
/// one character long; otherwise absent, never an error.
pub open spec fn short_of(t: TableV) -> Option<char> {
    match tbl_get_str(t, "short"@) {
        Some(s) => if s.len() == 1 {
            Some(s[0])
        } else {
            None
        },
        None => None,
    }
}

/// The field-level optionality of a table: the `optional` boolean, absent
/// meaning not optional.
pub open spec fn optional_of(t: TableV) -> bool {
    match tbl_get_bool(t, "optional"@) {
        Some(b) => b,
        None => false,
    }
}

/// The resolved child fields among the first `n` entries of a field table:
/// every non-reserved key holding a table, resolved in entry order under
/// the parent id; the first fatal error aborts the walk.
pub open spec fn spec_children_upto(t: TableV, n: int, id: Seq<char>) -> Result<
    Seq<SpecV>,
    ConfigErrorV,
>
    decreases t, 0int, n,
    via spec_children_upto_decreases
{
    if n <= 0 || n > t.len() {
        Ok(Seq::empty())
    } else {
        match spec_children_upto(t, n - 1, id) {
            Err(e) => Err(e),
            Ok(acc) => {
                if !is_reserved_key(t[n - 1].0) && t[n - 1].1 is Table {
                    match spec_resolve_field(t[n - 1].0, t[n - 1].1->Table_0, Some(id)) {
                        Err(e) => Err(e),
                        Ok(s) => Ok(acc.push(s)),
                    }
                } else {
                    Ok(acc)
                }
            },
        }
    }
}

#[via_fn]
proof fn spec_children_upto_decreases(t: TableV, n: int, id: Seq<char>) {
    if 0 < n <= t.len() {
        assert(decreases_to!(t => t[n - 1]));
        assert(decreases_to!(t[n - 1] => t[n - 1].1));
        if t[n - 1].1 is Table {
            assert(decreases_to!(t[n - 1].1 => t[n - 1].1->Table_0));
        }
    }
}

/// A fatal error among the first `i` entries is the result for any longer
/// prefix as well.
pub proof fn lemma_children_upto_err(t: TableV, id: Seq<char>, i: int, j: int)
    requires
        0 <= i <= j <= t.len(),
        spec_children_upto(t, i, id) is Err,
    ensures
        spec_children_upto(t, j, id) == spec_children_upto(t, i, id),
    decreases j - i,
{
    if j > i {
        lemma_children_upto_err(t, id, i, j - 1);
        assert(spec_children_upto(t, j, id) == spec_children_upto(t, j - 1, id));
    }
}

/// Resolution of one field from its table. Metadata (`doc`, `env`, `long`,
/// `short`, `optional`, `default`) comes from the reserved keys; the id
/// joins the parent id with the field's name; children are resolved first,
/// and the kind follows the type resolver's decision, combined with the
/// table's structural shape for non-native explicit types.
pub open spec fn spec_resolve_field(
    name: Seq<char>,
    t: TableV,
    parent_id: Option<Seq<char>>,
) -> Result<SpecV, ConfigErrorV>
    decreases t, 1int, 0int,
{
    let id = join_id(parent_id, name);
    match spec_children_upto(t, t.len() as int, id) {
        Err(e) => Err(e),
        Ok(children) => {
            let has_sub = children.len() > 0;
            match field_type_spec(t, has_sub, name) {
                Err(_) => Err(ConfigErrorV::UnsupportedVectorElement { id }),
                Ok(raw) => {
                    let doc = tbl_get_str(t, "doc"@);
                    let env = tbl_get_str(t, "env"@);
                    let long_arg = tbl_get_str(t, "long"@);
                    let short_arg = short_of(t);
                    let optional = optional_of(t);
                    let variant = if raw.is_vec {
                        GenericSpecV::VecSpec(
                            VecFieldV {
                                default: tbl_get(t, "default"@),
                                env,
                                long_arg,
                                short_arg,
                                optional,
                            },
                        )
                    } else if raw.is_native {
                        GenericSpecV::FieldSpec(
                            FieldV {
                                default: tbl_get_str(t, "default"@),
                                env,
                                long_arg,
                                short_arg,
                                optional,
                            },
                        )
                    } else if raw.is_enum {
                        GenericSpecV::EnumSpec(
                            EnumFieldV {
                                env,
                                long_arg,
                                short_arg,
                                optional,
                                enum_name: raw.ty_name,
                                variants: Seq::empty(),
                                default: tbl_get_str(t, "default"@),
                            },
                        )
                    } else if has_sub {
                        GenericSpecV::SubtypeSpec(children)
                    } else {
                        GenericSpecV::ExternalSpec(ExternalStructV { long_arg, short_arg })
                    };
                    Ok(
                        SpecV {
                            toml_tag_name: name,
                            id,
                            field_type: raw.ty_name,
                            doc,
                            variant,
                            name,
                            optional: variant_optional(variant),
                        },
                    )
                },
            }
        },
    }
}

/// Resolves one field table into a field specification.
#[verifier::loop_isolation(false)]
pub fn table_to_field_spec(
    toml_tag_name: String,
    table: &DocTable,
    parent_id: Option<String>,
) -> (res: Result<Spec, ConfigError>)
    ensures
        match res {
            Ok(s) => spec_resolve_field(toml_tag_name@, table_deep(table@), opt_str_view(parent_id))
                == Ok::<SpecV, ConfigErrorV>(s@),
            Err(e) => spec_resolve_field(
                toml_tag_name@,
                table_deep(table@),
                opt_str_view(parent_id),
            ) == Err::<SpecV, ConfigErrorV>(e@),
        },
    decreases table@,
{
    broadcast use lemma_table_deep;

    let ghost tv = table_deep(table@);
    let ghost pv = opt_str_view(parent_id);
    let id = match &parent_id {
        None => toml_tag_name.clone(),
        Some(p) => {
            let dotted = concat_strs(p.as_str(), ".");
            concat_strs(dotted.as_str(), toml_tag_name.as_str())
        },
    };
    proof {
        assert(id@ == join_id(pv, toml_tag_name@));
    }
    let ghost idv = id@;

    let mut subtype_fields: Vec<Spec> = Vec::new();
    let n = table.len();
    let mut i: usize = 0;
    while i < n
        invariant
            0 <= i <= n,
            spec_children_upto(tv, i as int, idv) == Ok::<Seq<SpecV>, ConfigErrorV>(
                specs_deep(subtype_fields@),
            ),
        decreases n - i,
    {
        proof {
            lemma_specs_deep(subtype_fields@);
            assert(tv[i as int] == (table@[i as int].0@, table@[i as int].1.deep()));
        }
        let key = &table[i].0;
        if !is_reserved(key.as_str()) {
            match &table[i].1 {
                DocValue::Table(sub) => {
                    proof {
                        assert(decreases_to!(table@ => table@[i as int]));
                        assert(decreases_to!(table@[i as int] => table@[i as int].1));
                        assert(table@[i as int].1 == DocValue::Table(*sub));
                        assert(decreases_to!(table@[i as int].1 => *sub));
                        assert(decreases_to!(*sub => sub@));
                        assert(tv[i as int].1 == ValueV::Table(table_deep(sub@)));
                    }
                    match table_to_field_spec(key.clone(), sub, Some(id.clone())) {
                        Ok(s) => {
                            proof {
                                lemma_specs_deep_push(subtype_fields@, s);
                            }
                            subtype_fields.push(s);
                        },
                        Err(e) => {
                            proof {
                                assert(spec_children_upto(tv, i + 1, idv) == Err::<
                                    Seq<SpecV>,
                                    ConfigErrorV,
                                >(e@));
                                lemma_children_upto_err(tv, idv, i + 1, tv.len() as int);
                            }
                            return Err(e);
                        },
                    }
                },
                _ => {
                    proof {
                        assert(!(tv[i as int].1 is Table));
                    }
                },
            }
        }
        proof {
            assert(spec_children_upto(tv, i + 1, idv) == Ok::<Seq<SpecV>, ConfigErrorV>(
                specs_deep(subtype_fields@),
            ));
        }
        i += 1;
    }
    proof {
        lemma_specs_deep(subtype_fields@);
    }

    let has_sub = subtype_fields.len() > 0;
    let field_type = match crate::utils::get_field_type(table, has_sub, toml_tag_name.clone()) {
        Ok(rf) => rf,
        Err(_) => {
            return Err(ConfigError::UnsupportedVectorElement { id });
        },
    };

    let doc = table_get_str(table, "doc");
    let env = table_get_str(table, "env");
    let long_arg = table_get_str(table, "long");
    let short_raw = table_get_str(table, "short");
    let short_arg = match &short_raw {
        Some(s) => {
            if s.as_str().unicode_len() == 1 {
                Some(s.as_str().get_char(0))
            } else {
                None
            }
        },
        None => None,
    };
    let optional = match table_get_bool(table, "optional") {
        Some(b) => b,
        None => false,
    };

    let variant = if field_type.is_vec {
        let default = match table_get(table, "default") {
            Some(v) => Some(clone_value(v)),
            None => None,
        };
        GenericSpec::VecSpec(VecField { default, env, long_arg, short_arg, optional })
    } else if field_type.is_native {
        let default = table_get_str(table, "default");
        GenericSpec::FieldSpec(Field { default, env, long_arg, short_arg, optional })
    } else if field_type.is_enum {
        let default = table_get_str(table, "default");
        let enum_name = field_type.ty_name.clone();
        proof {
            assert(crate::ast::strings_view(Seq::<String>::empty()) =~= Seq::<Seq<char>>::empty());
        }
        GenericSpec::EnumSpec(
            EnumField {
                env,
                long_arg,
                short_arg,
                optional,
                enum_name,
                variants: Vec::new(),
                default,
            },
        )
    } else if has_sub {
        GenericSpec::SubtypeSpec(SubField(subtype_fields))
    } else {
        GenericSpec::ExternalSpec(ExternalStruct { long_arg, short_arg })
    };

    Ok(Spec::new(toml_tag_name, id, field_type.ty_name, doc, variant))
}

/// The untyped document as handed to resolution: the top-level table.
pub struct GenericConfigSpec {
    pub fields: DocTable,
}

impl View for GenericConfigSpec {
    type V = TableV;

    open spec fn view(&self) -> TableV {
        table_deep(self.fields@)
    }
}

/// The resolved specification tree: the ordered list of root fields.
#[derive(Debug, PartialEq)]
pub struct ConfigSpec {
    pub fields: Vec<Spec>,
}

impl View for ConfigSpec {
    type V = Seq<SpecV>;

    open spec fn view(&self) -> Seq<SpecV> {
        specs_deep(self.fields@)
    }
}

/// Resolution of the first `n` top-level entries: every entry holding a
/// table becomes a root field; other entries are skipped.
pub open spec fn spec_resolve_doc_upto(t: TableV, n: int) -> Result<Seq<SpecV>, ConfigErrorV>
    decreases n,
{
    if n <= 0 || n > t.len() {
        Ok(Seq::empty())
    } else {
        match spec_resolve_doc_upto(t, n - 1) {
            Err(e) => Err(e),
            Ok(acc) => {
                if t[n - 1].1 is Table {
                    match spec_resolve_field(t[n - 1].0, t[n - 1].1->Table_0, None) {
                        Err(e) => Err(e),
                        Ok(s) => Ok(acc.push(s)),
                    }
                } else {
                    Ok(acc)
                }
            },
        }
    }
}

/// Resolution of a whole document table into the root fields.
pub open spec fn spec_resolve_doc(t: TableV) -> Result<Seq<SpecV>, ConfigErrorV> {
    spec_resolve_doc_upto(t, t.len() as int)
}

/// A fatal error among the first `i` top-level entries is the result for
/// any longer prefix as well.
pub proof fn lemma_doc_upto_err(t: TableV, i: int, j: int)
    requires
        0 <= i <= j <= t.len(),
        spec_resolve_doc_upto(t, i) is Err,
    ensures
        spec_resolve_doc_upto(t, j) == spec_resolve_doc_upto(t, i),
    decreases j - i,
{
    if j > i {
        lemma_doc_upto_err(t, i, j - 1);
        assert(spec_resolve_doc_upto(t, j) == spec_resolve_doc_upto(t, j - 1));
    }
}

/// The names of the top-level entries that resolution skips because they
/// are not tables.
pub open spec fn spec_skipped_upto(t: TableV, n: int) -> Seq<Seq<char>>
    decreases n,
{
    if n <= 0 || n > t.len() {
        Seq::empty()
    } else {
        let acc = spec_skipped_upto(t, n - 1);
        if t[n - 1].1 is Table {
            acc
        } else {
            acc.push(t[n - 1].0)
        }
    }
}

impl ConfigSpec {
    /// Resolves an untyped document into the specification tree. Top-level
    /// entries that are not tables are skipped; `skipped_top_level` names
    /// them for diagnostics.
    #[verifier::loop_isolation(false)]
    pub fn from_generic(generic: &GenericConfigSpec) -> (res: Result<ConfigSpec, ConfigError>)
        ensures
            match res {
                Ok(cs) => spec_resolve_doc(generic@) == Ok::<Seq<SpecV>, ConfigErrorV>(cs@),
                Err(e) => spec_resolve_doc(generic@) == Err::<Seq<SpecV>, ConfigErrorV>(e@),
            },
    {
        broadcast use lemma_table_deep;

        let ghost tv = generic@;
        let table = &generic.fields;
        let mut fields: Vec<Spec> = Vec::new();
        let n = table.len();
        let mut i: usize = 0;
        while i < n
            invariant
                0 <= i <= n,
                spec_resolve_doc_upto(tv, i as int) == Ok::<Seq<SpecV>, ConfigErrorV>(
                    specs_deep(fields@),
                ),
            decreases n - i,
        {
            proof {
                lemma_specs_deep(fields@);
                assert(tv[i as int] == (table@[i as int].0@, table@[i as int].1.deep()));
            }
            let key = &table[i].0;
            match &table[i].1 {
                DocValue::Table(sub) => {
                    proof {
                        assert(tv[i as int].1 == ValueV::Table(table_deep(sub@)));
                    }
                    match table_to_field_spec(key.clone(), sub, None) {
                        Ok(s) => {
                            proof {
                                lemma_specs_deep_push(fields@, s);
                            }
                            fields.push(s);
                        },
                        Err(e) => {
                            proof {
                                assert(spec_resolve_doc_upto(tv, i + 1) == Err::<
                                    Seq<SpecV>,
                                    ConfigErrorV,
                                >(e@));
                                lemma_doc_upto_err(tv, i + 1, tv.len() as int);
                            }
                            return Err(e);
                        },
                    }
                },
                _ => {
                    proof {
                        assert(!(tv[i as int].1 is Table));
                    }
                },
            }
            proof {
                assert(spec_resolve_doc_upto(tv, i + 1) == Ok::<Seq<SpecV>, ConfigErrorV>(
                    specs_deep(fields@),
                ));
            }
            i += 1;
        }
        Ok(ConfigSpec { fields })
    }

    /// The names of the top-level entries that resolution skips: a
    /// diagnostic, not an error.
    #[verifier::loop_isolation(false)]
    pub fn skipped_top_level(generic: &GenericConfigSpec) -> (r: Vec<String>)
        ensures
            crate::ast::strings_view(r@) == spec_skipped_upto(generic@, generic@.len() as int),
    {
        broadcast use lemma_table_deep;

        let ghost tv = generic@;
        let table = &generic.fields;
        let mut skipped: Vec<String> = Vec::new();
        let n = table.len();
        let mut i: usize = 0;
        proof {
            assert(crate::ast::strings_view(skipped@) =~= spec_skipped_upto(tv, 0));
        }
        while i < n
            invariant
                0 <= i <= n,
                crate::ast::strings_view(skipped@) == spec_skipped_upto(tv, i as int),
            decreases n - i,
        {
            proof {
                assert(tv[i as int] == (table@[i as int].0@, table@[i as int].1.deep()));
            }
            match &table[i].1 {
                DocValue::Table(_) => {
                    proof {
                        assert(tv[i as int].1 is Table);
                    }
                },
                _ => {
                    let ghost before = skipped@;
                    skipped.push(table[i].0.clone());
                    proof {
                        assert(!(tv[i as int].1 is Table));
                        assert(crate::ast::strings_view(skipped@) =~= crate::ast::strings_view(
                            before,
                        ).push(tv[i as int].0));
                    }
                },
            }
            i += 1;
        }
        skipped
    }

    /// Parses TOML text into the untyped document, without resolving it.
    /// The parse fails exactly when the text is not a well-formed TOML
    /// document.
    pub fn parse_document(toml_content: &str) -> (res: Result<GenericConfigSpec, ConfigError>)
        ensures
            match res {
                Ok(g) => doc_table_of(toml_content@) == Some(g@) && crate::value::table_wf(g@),
                Err(e) => doc_table_of(toml_content@) is None && e@ is ParseError,
            },
    {
        match parse_toml_table(toml_content) {
            Ok(t) => Ok(GenericConfigSpec { fields: t }),
            Err(m) => Err(ConfigError::ParseError { message: m }),
        }
    }

    /// Parses TOML text and resolves it. The parse fails exactly when the
    /// text is not a well-formed TOML document.
    pub fn load_toml_config(toml_content: &str) -> (res: Result<ConfigSpec, ConfigError>)
        ensures
            match res {
                Ok(cs) => doc_table_of(toml_content@) matches Some(t) && spec_resolve_doc(t)
                    == Ok::<Seq<SpecV>, ConfigErrorV>(cs@),
                Err(e) => match doc_table_of(toml_content@) {
                    Some(t) => spec_resolve_doc(t) == Err::<Seq<SpecV>, ConfigErrorV>(e@),
                    None => e@ is ParseError,
                },
            },
    {
        match parse_toml_table(toml_content) {
            Ok(t) => ConfigSpec::from_generic(&GenericConfigSpec { fields: t }),
            Err(m) => Err(ConfigError::ParseError { message: m }),
        }
    }
}

/// The position of the last occurrence of a character, `-1` when absent.
pub open spec fn last_index_of(s: Seq<char>, c: char) -> int
    decreases s.len(),
{
    if s.len() == 0 {
        -1
    } else if s[s.len() - 1] == c {
        s.len() - 1
    } else {
        last_index_of(s.drop_last(), c)
    }
}

/// `last_index_of` stays within bounds.
pub proof fn lemma_last_index_bounds(s: Seq<char>, c: char)
    ensures
        -1 <= last_index_of(s, c) < s.len(),
    decreases s.len(),
{
    if s.len() != 0 && s[s.len() - 1] != c {
        lemma_last_index_bounds(s.drop_last(), c);
    }
}

/// The position of the character that occurs last is `last_index_of`.
proof fn lemma_last_index_found(s: Seq<char>, c: char, i: int)
    requires
        0 <= i < s.len(),
        s[i] == c,
        forall|j: int| i < j < s.len() ==> s[j] != c,
    ensures
        last_index_of(s, c) == i,
    decreases s.len(),
{
    if i < s.len() - 1 {
        assert(s[s.len() - 1] != c);
        assert(s.drop_last()[i] == s[i]);
        lemma_last_index_found(s.drop_last(), c, i);
    }
}

/// Where the character never occurs, `last_index_of` is `-1`.
proof fn lemma_last_index_absent(s: Seq<char>, c: char)
    requires
        forall|j: int| 0 <= j < s.len() ==> s[j] != c,
    ensures
        last_index_of(s, c) == -1,
    decreases s.len(),
{
    if s.len() != 0 {
        lemma_last_index_absent(s.drop_last(), c);
    }
}

/// The position of the last occurrence of a character in a string.
fn last_char_index(s: &str, c: char) -> (r: Option<usize>)
    ensures
        match r {
            Some(i) => last_index_of(s@, c) == i,
            None => last_index_of(s@, c) == -1,
        },
{
    let n = s.unicode_len();
    let mut i: usize = n;
    while i > 0
        invariant
            0 <= i <= n,
            n == s@.len(),
            forall|j: int| i <= j < n ==> s@[j] != c,
        decreases i,
    {
        i -= 1;
        if s.get_char(i) == c {
            proof {
                lemma_last_index_found(s@, c, i as int);
            }
            return Some(i);
        }
    }
    proof {
        lemma_last_index_absent(s@, c);
    }
    None
}

/// The extension of a path: what follows the last `.` of the file name,
/// absent when the file name has no `.` past its first character.
pub open spec fn path_extension(p: Seq<char>) -> Option<Seq<char>> {
    let fname = p.subrange(last_index_of(p, '/') + 1, p.len() as int);
    let d = last_index_of(fname, '.');
    if d > 0 {
        Some(fname.subrange(d + 1, fname.len() as int))
    } else {
        None
    }
}

/// Whether a path names a TOML file.
pub open spec fn is_toml_path(p: Seq<char>) -> bool {
    path_extension(p) == Some("toml"@)
}

/// Whether a path names a TOML file.
pub fn path_has_toml_extension(path: &str) -> (r: bool)
    ensures
        r == is_toml_path(path@),
{
    let n = path.unicode_len();
    proof {
        lemma_last_index_bounds(path@, '/');
    }
    let start = match last_char_index(path, '/') {
        Some(i) => i + 1,
        None => 0,
    };
    let fname = path.substring_char(start, n);
    proof {
        lemma_last_index_bounds(fname@, '.');
    }
    match last_char_index(fname, '.') {
        Some(d) => {
            if d > 0 {
                let ext = fname.substring_char(d + 1, fname.unicode_len());
                str_eq(ext, "toml")
            } else {
                false
            }
        },
        None => false,
    }
}

impl ConfigSpec {
    /// Loads a schema from a file's path and text: only `.toml` files are
    /// accepted; the text is then parsed and resolved.
    pub fn from_file_content(path: &str, content: &str) -> (res: Result<ConfigSpec, ConfigError>)
        ensures
            match res {
                Ok(cs) => is_toml_path(path@) && (doc_table_of(content@) matches Some(t)
                    && spec_resolve_doc(t) == Ok::<Seq<SpecV>, ConfigErrorV>(cs@)),
                Err(e) => if !is_toml_path(path@) {
                    e@ == ConfigErrorV::UnsupportedFormat
                } else {
                    match doc_table_of(content@) {
                        Some(t) => spec_resolve_doc(t) == Err::<Seq<SpecV>, ConfigErrorV>(e@),
                        None => e@ is ParseError,
                    }
                },
            },
    {
        if path_has_toml_extension(path) {
            ConfigSpec::load_toml_config(content)
        } else {
            Err(ConfigError::UnsupportedFormat)
        }
    }
}

/// The document table that TOML text parses to, if it is well-formed.
pub open spec fn doc_table_of(s: Seq<char>) -> Option<TableV> {
    match toml_doc_of(s) {
        Some(d) => match d {
            ValueV::Table(t) => Some(t),
            _ => None,
        },
        None => None,
    }
}

} // verus!
