//! The type resolver: deciding a field's kind and canonical type name from
//! its table, its structural shape, and its name.

use vstd::prelude::*;
use vstd::string::StrSliceExecFns;
use vstd::string::StringExecFns;

use crate::errors::{ConfigError, ConfigErrorV};
use crate::text::{char_upper, concat_strs, lower_of, lowercase, str_eq, trim_of, trim_ws, upper_of};
use crate::value::{table_deep, tbl_get_str, DocTable, TableV};
use crate::PATH_BUF;

verus! {

/// The PascalCase of a name: only the first character is upper-cased; any
/// later words stay as they are.
pub open spec fn pascal_of(s: Seq<char>) -> Seq<char> {
    if s.len() == 0 {
        Seq::empty()
    } else {
        upper_of(s[0]) + s.drop_first()
    }
}

/// Upper-cases the first character of a name and keeps the rest verbatim.
pub fn to_pascal_case(s: &str) -> (r: String)
    ensures
        r@ == pascal_of(s@),
{
    let n = s.unicode_len();
    if n == 0 {
        String::new()
    } else {
        let up = char_upper(s.get_char(0));
        let rest = s.substring_char(1, n);
        proof {
            assert(rest@ =~= s@.drop_first());
        }
        up.concat(rest)
    }
}

/// Whether a type name is a signed or unsigned integer of a standard
/// width.
pub open spec fn is_int_type_name(ty: Seq<char>) -> bool {
    ||| ty == "i8"@
    ||| ty == "i16"@
    ||| ty == "i32"@
    ||| ty == "i64"@
    ||| ty == "i128"@
    ||| ty == "isize"@
    ||| ty == "u8"@
    ||| ty == "u16"@
    ||| ty == "u32"@
    ||| ty == "u64"@
    ||| ty == "u128"@
    ||| ty == "usize"@
}

/// Whether a type name is a floating-point type of a standard width.
pub open spec fn is_float_type_name(ty: Seq<char>) -> bool {
    ty == "f32"@ || ty == "f64"@
}

/// Whether a type name is a signed or unsigned integer of a standard
/// width.
pub fn is_int_type(ty: &str) -> (r: bool)
    ensures
        r == is_int_type_name(ty@),
{
    str_eq(ty, "i8") || str_eq(ty, "i16") || str_eq(ty, "i32") || str_eq(ty, "i64") || str_eq(
        ty,
        "i128",
    ) || str_eq(ty, "isize") || str_eq(ty, "u8") || str_eq(ty, "u16") || str_eq(ty, "u32")
        || str_eq(ty, "u64") || str_eq(ty, "u128") || str_eq(ty, "usize")
}

/// Whether a type name is a floating-point type of a standard width.
pub fn is_float_type(ty: &str) -> (r: bool)
    ensures
        r == is_float_type_name(ty@),
{
    str_eq(ty, "f32") || str_eq(ty, "f64")
}

/// Whether a type tag names a native scalar type: one of the recognized
/// case-insensitive tags, or an already-canonical native type name
/// (standard-width signed and unsigned integers and floats, the text,
/// path, boolean and character types).
pub open spec fn is_native_spec(ty: Seq<char>) -> bool {
    let l = lower_of(ty);
    ||| l == "int"@
    ||| l == "float"@
    ||| l == "bool"@
    ||| l == "string"@
    ||| l == "path"@
    ||| l == "char"@
    ||| is_int_type_name(ty)
    ||| is_float_type_name(ty)
    ||| ty == "std::path::PathBuf"@
    ||| ty == "String"@
}

/// Whether a type tag names a native scalar type.
pub fn is_native_type(ty: &str) -> (r: bool)
    ensures
        r == is_native_spec(ty@),
{
    let l = lowercase(ty);
    let ls = l.as_str();
    str_eq(ls, "int") || str_eq(ls, "float") || str_eq(ls, "bool") || str_eq(ls, "string") || str_eq(
        ls,
        "path",
    ) || str_eq(ls, "char") || is_int_type(ty) || is_float_type(ty) || str_eq(ty, PATH_BUF)
        || str_eq(ty, "String")
}

/// The canonical destination type for a type tag: recognized tags map to
/// their native type names, anything else passes through verbatim.
pub open spec fn to_type_spec(ty: Seq<char>) -> Seq<char> {
    let l = lower_of(ty);
    if l == "int"@ {
        "i64"@
    } else if l == "float"@ {
        "f64"@
    } else if l == "bool"@ {
        "bool"@
    } else if l == "string"@ {
        "String"@
    } else if l == "path"@ {
        "std::path::PathBuf"@
    } else if l == "char"@ {
        "char"@
    } else {
        ty
    }
}

/// Maps a type tag to its canonical destination type name.
pub fn to_type(ty: &str) -> (r: String)
    ensures
        r@ == to_type_spec(ty@),
{
    let l = lowercase(ty);
    let ls = l.as_str();
    if str_eq(ls, "int") {
        String::from_str("i64")
    } else if str_eq(ls, "float") {
        String::from_str("f64")
    } else if str_eq(ls, "bool") {
        String::from_str("bool")
    } else if str_eq(ls, "string") {
        String::from_str("String")
    } else if str_eq(ls, "path") {
        String::from_str(PATH_BUF)
    } else if str_eq(ls, "char") {
        String::from_str("char")
    } else {
        String::from_str(ty)
    }
}

/// The raw outcome of type resolution: the canonical type name and the
/// kind signals that the schema resolver combines with the table's shape.
#[derive(Debug, PartialEq)]
pub struct RawField {
    pub ty_name: String,
    pub is_native: bool,
    pub is_vec: bool,
    pub is_enum: bool,
}

/// Mathematical model of a raw type-resolution outcome.
pub struct RawFieldV {
    pub ty_name: Seq<char>,
    pub is_native: bool,
    pub is_vec: bool,
    pub is_enum: bool,
}

impl View for RawField {
    type V = RawFieldV;

    open spec fn view(&self) -> RawFieldV {
        RawFieldV {
            ty_name: self.ty_name@,
            is_native: self.is_native,
            is_vec: self.is_vec,
            is_enum: self.is_enum,
        }
    }
}

/// Type resolution for one field table. First match wins: an explicit
/// `type` tag (bracketed means a vector of a native element type, anything
/// else is taken verbatim), then an explicit `enum` tag, then structural
/// nesting with a synthesized type name, then the native text type.
/// `Err` means the table declares a vector of a non-native element type.
pub open spec fn field_type_spec(t: TableV, has_sub: bool, name: Seq<char>) -> Result<
    RawFieldV,
    (),
> {
    match tbl_get_str(t, "type"@) {
        Some(raw_ty) => {
            let ft = to_type_spec(raw_ty);
            if ft.len() >= 2 && ft[0] == '[' && ft[ft.len() - 1] == ']' {
                let inner = trim_of(ft.subrange(1, ft.len() - 1));
                if is_native_spec(inner) {
                    Ok(
                        RawFieldV {
                            ty_name: "Vec<"@ + to_type_spec(inner) + ">"@,
                            is_native: true,
                            is_vec: true,
                            is_enum: false,
                        },
                    )
                } else {
                    Err(())
                }
            } else {
                Ok(
                    RawFieldV {
                        ty_name: ft,
                        is_native: is_native_spec(ft),
                        is_vec: false,
                        is_enum: false,
                    },
                )
            }
        },
        None => match tbl_get_str(t, "enum"@) {
            Some(e) => Ok(
                RawFieldV { ty_name: e, is_native: false, is_vec: false, is_enum: true },
            ),
            None => if has_sub {
                Ok(
                    RawFieldV {
                        ty_name: pascal_of(name) + "Config"@,
                        is_native: false,
                        is_vec: false,
                        is_enum: false,
                    },
                )
            } else {
                Ok(
                    RawFieldV {
                        ty_name: "String"@,
                        is_native: true,
                        is_vec: false,
                        is_enum: false,
                    },
                )
            },
        },
    }
}

/// Resolves the kind and canonical type name of one field table.
pub fn get_field_type(table: &DocTable, has_sub: bool, field_name: String) -> (r: Result<
    RawField,
    ConfigError,
>)
    ensures
        match r {
            Ok(rf) => field_type_spec(table_deep(table@), has_sub, field_name@) == Ok::<
                RawFieldV,
                (),
            >(rf@),
            Err(e) => field_type_spec(table_deep(table@), has_sub, field_name@) is Err && e@ == (
            ConfigErrorV::UnsupportedVectorElement { id: field_name@ }),
        },
{
    let raw_ty = crate::value::table_get_str(table, "type");
    match raw_ty {
        Some(raw) => {
            let ft = to_type(raw.as_str());
            let fts = ft.as_str();
            let n = fts.unicode_len();
            if n >= 2 && fts.get_char(0) == '[' && fts.get_char(n - 1) == ']' {
                let inner_raw = fts.substring_char(1, n - 1);
                let inner = trim_ws(inner_raw);
                proof {
                    assert(inner_raw@ == ft@.subrange(1, ft@.len() - 1));
                }
                if is_native_type(inner.as_str()) {
                    let elem = to_type(inner.as_str());
                    let ty_name = concat_strs(concat_strs("Vec<", elem.as_str()).as_str(), ">");
                    Ok(RawField { ty_name, is_native: true, is_vec: true, is_enum: false })
                } else {
                    Err(ConfigError::UnsupportedVectorElement { id: field_name })
                }
            } else {
                let is_native = is_native_type(fts);
                Ok(RawField { ty_name: ft, is_native, is_vec: false, is_enum: false })
            }
        },
        None => {
            let enum_ty = crate::value::table_get_str(table, "enum");
            match enum_ty {
                Some(e) => Ok(
                    RawField { ty_name: e, is_native: false, is_vec: false, is_enum: true },
                ),
                None => if has_sub {
                    let ty_name = concat_strs(to_pascal_case(field_name.as_str()).as_str(), "Config");
                    Ok(RawField { ty_name, is_native: false, is_vec: false, is_enum: false })
                } else {
                    Ok(
                        RawField {
                            ty_name: String::from_str("String"),
                            is_native: true,
                            is_vec: false,
                            is_enum: false,
                        },
                    )
                },
            }
        },
    }
}

} // verus!
