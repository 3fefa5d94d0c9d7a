//! The binding generator: walks the specification tree and emits, for every
//! field, a self-contained binding declaration, plus a standalone type
//! declaration for every locally defined nested struct and enum.

use vstd::prelude::*;
use vstd::string::StrSliceExecFns;
use vstd::string::StringExecFns;

use crate::ast::{
    opt_str_view, specs_deep, strings_view, EnumField, Field, GenericSpec, GenericSpecV, Spec,
    SpecV, VecField,
};
use crate::errors::{ConfigError, ConfigErrorV};
use crate::text::{
    concat_strs, i64_to_string, int_text, quote_char, quote_str, quoted_char, quoted_str, str_eq,
};
use crate::value::{deep_seq, lemma_deep_seq, DocValue, ValueV};
use crate::PATH_BUF;

verus! {

/// One binding attribute of a generated field declaration. Typed default
/// attributes carry the rendered literal text.
#[derive(Debug, PartialEq)]
pub enum ArgAttr {
    Help(String),
    Id(String),
    DefaultValue(String),
    DefaultValueTyped(String),
    DefaultValuesTyped(String),
    Env(String),
    ValueDelimiter(char),
    Long(String),
    Short(char),
    ValueEnum,
}

/// Mathematical model of a binding attribute.
pub enum ArgAttrV {
    Help(Seq<char>),
    Id(Seq<char>),
    DefaultValue(Seq<char>),
    DefaultValueTyped(Seq<char>),
    DefaultValuesTyped(Seq<char>),
    Env(Seq<char>),
    ValueDelimiter(char),
    Long(Seq<char>),
    Short(char),
    ValueEnum,
}

impl View for ArgAttr {
    type V = ArgAttrV;

    open spec fn view(&self) -> ArgAttrV {
        match self {
            ArgAttr::Help(s) => ArgAttrV::Help(s@),
            ArgAttr::Id(s) => ArgAttrV::Id(s@),
            ArgAttr::DefaultValue(s) => ArgAttrV::DefaultValue(s@),
            ArgAttr::DefaultValueTyped(s) => ArgAttrV::DefaultValueTyped(s@),
            ArgAttr::DefaultValuesTyped(s) => ArgAttrV::DefaultValuesTyped(s@),
            ArgAttr::Env(s) => ArgAttrV::Env(s@),
            ArgAttr::ValueDelimiter(c) => ArgAttrV::ValueDelimiter(*c),
            ArgAttr::Long(s) => ArgAttrV::Long(s@),
            ArgAttr::Short(c) => ArgAttrV::Short(*c),
            ArgAttr::ValueEnum => ArgAttrV::ValueEnum,
        }
    }
}

/// The models of a sequence of binding attributes.
pub open spec fn attrs_view(s: Seq<ArgAttr>) -> Seq<ArgAttrV> {
    Seq::new(s.len(), |i: int| s[i]@)
}

/// One field of a generated aggregate declaration.
#[derive(Debug, PartialEq)]
pub struct FieldDecl {
    pub name: String,
    pub field_type: String,
    pub optional: bool,
    pub doc: Option<String>,
    pub flatten: bool,
    pub args: Vec<ArgAttr>,
}

/// Mathematical model of a generated field.
pub struct FieldDeclV {
    pub name: Seq<char>,
    pub field_type: Seq<char>,
    pub optional: bool,
    pub doc: Option<Seq<char>>,
    pub flatten: bool,
    pub args: Seq<ArgAttrV>,
}

impl View for FieldDecl {
    type V = FieldDeclV;

    open spec fn view(&self) -> FieldDeclV {
        FieldDeclV {
            name: self.name@,
            field_type: self.field_type@,
            optional: self.optional,
            doc: crate::ast::opt_str_view(self.doc),
            flatten: self.flatten,
            args: attrs_view(self.args@),
        }
    }
}

/// A generated aggregate (struct) declaration.
#[derive(Debug, PartialEq)]
pub struct StructDecl {
    pub name: String,
    pub fields: Vec<FieldDecl>,
}

/// Mathematical model of a generated aggregate declaration.
pub struct StructDeclV {
    pub name: Seq<char>,
    pub fields: Seq<FieldDeclV>,
}

/// The models of a sequence of generated fields.
pub open spec fn fdecls_view(s: Seq<FieldDecl>) -> Seq<FieldDeclV> {
    Seq::new(s.len(), |i: int| s[i]@)
}

impl View for StructDecl {
    type V = StructDeclV;

    open spec fn view(&self) -> StructDeclV {
        StructDeclV { name: self.name@, fields: fdecls_view(self.fields@) }
    }
}

/// A generated enumerated-type declaration.
#[derive(Debug, PartialEq)]
pub struct EnumDecl {
    pub name: String,
    pub variants: Vec<String>,
}

/// Mathematical model of a generated enumerated-type declaration.
pub struct EnumDeclV {
    pub name: Seq<char>,
    pub variants: Seq<Seq<char>>,
}

impl View for EnumDecl {
    type V = EnumDeclV;

    open spec fn view(&self) -> EnumDeclV {
        EnumDeclV { name: self.name@, variants: strings_view(self.variants@) }
    }
}

/// One generated declaration: an aggregate or an enumerated type.
#[derive(Debug, PartialEq)]
pub enum Decl {
    Struct(StructDecl),
    Enum(EnumDecl),
}

/// Mathematical model of a generated declaration.
pub enum DeclV {
    Struct(StructDeclV),
    Enum(EnumDeclV),
}

impl View for Decl {
    type V = DeclV;

    open spec fn view(&self) -> DeclV {
        match self {
            Decl::Struct(s) => DeclV::Struct(s@),
            Decl::Enum(e) => DeclV::Enum(e@),
        }
    }
}

/// The models of a sequence of generated declarations.
pub open spec fn decls_view(s: Seq<Decl>) -> Seq<DeclV> {
    Seq::new(s.len(), |i: int| s[i]@)
}

/// Appending a field appends its model.
pub broadcast proof fn lemma_fdecls_view_push(s: Seq<FieldDecl>, x: FieldDecl)
    ensures
        #[trigger] fdecls_view(s.push(x)) == fdecls_view(s).push(x@),
{
    assert(fdecls_view(s.push(x)) =~= fdecls_view(s).push(x@));
}

/// The kinds of native vector elements whose defaults can be decoded.
#[derive(Debug, Clone, Copy, PartialEq, Eq)]
pub enum ElemKind {
    Text,
    Character,
    Integer,
    Floating,
    Boolean,
}

/// Whether a canonical vector type name holds integer elements.
pub open spec fn is_int_vec_name(ft: Seq<char>) -> bool {
    ||| ft == "Vec<i8>"@
    ||| ft == "Vec<i16>"@
    ||| ft == "Vec<i32>"@
    ||| ft == "Vec<i64>"@
    ||| ft == "Vec<i128>"@
    ||| ft == "Vec<isize>"@
    ||| ft == "Vec<u8>"@
    ||| ft == "Vec<u16>"@
    ||| ft == "Vec<u32>"@
    ||| ft == "Vec<u64>"@
    ||| ft == "Vec<u128>"@
    ||| ft == "Vec<usize>"@
}

/// Whether a canonical vector type name holds integer elements.
fn is_int_vec(ft: &str) -> (r: bool)
    ensures
        r == is_int_vec_name(ft@),
{
    str_eq(ft, "Vec<i8>") || str_eq(ft, "Vec<i16>") || str_eq(ft, "Vec<i32>") || str_eq(
        ft,
        "Vec<i64>",
    ) || str_eq(ft, "Vec<i128>") || str_eq(ft, "Vec<isize>") || str_eq(ft, "Vec<u8>") || str_eq(
        ft,
        "Vec<u16>",
    ) || str_eq(ft, "Vec<u32>") || str_eq(ft, "Vec<u64>") || str_eq(ft, "Vec<u128>") || str_eq(
        ft,
        "Vec<usize>",
    )
}

/// The element kind of a vector field's canonical type name, if its
/// defaults can be decoded: text, character, integer, floating point or
/// boolean elements.
pub open spec fn elem_kind_of(ft: Seq<char>) -> Option<ElemKind> {
    if ft == "Vec<String>"@ {
        Some(ElemKind::Text)
    } else if ft == "Vec<char>"@ {
        Some(ElemKind::Character)
    } else if is_int_vec_name(ft) {
        Some(ElemKind::Integer)
    } else if ft == "Vec<f32>"@ || ft == "Vec<f64>"@ {
        Some(ElemKind::Floating)
    } else if ft == "Vec<bool>"@ {
        Some(ElemKind::Boolean)
    } else {
        None
    }
}

/// The element kind of a vector field's canonical type name.
pub fn elem_kind(ft: &str) -> (r: Option<ElemKind>)
    ensures
        r == elem_kind_of(ft@),
{
    if str_eq(ft, "Vec<String>") {
        Some(ElemKind::Text)
    } else if str_eq(ft, "Vec<char>") {
        Some(ElemKind::Character)
    } else if is_int_vec(ft) {
        Some(ElemKind::Integer)
    } else if str_eq(ft, "Vec<f32>") || str_eq(ft, "Vec<f64>") {
        Some(ElemKind::Floating)
    } else if str_eq(ft, "Vec<bool>") {
        Some(ElemKind::Boolean)
    } else {
        None
    }
}

/// Whether text is an optionally signed run of plain digits.
pub open spec fn is_plain_int_text(t: Seq<char>) -> bool {
    let u = strip_sign(t);
    u.len() > 0 && forall|i: int| 0 <= i < u.len() ==> is_digit(#[trigger] u[i])
}

/// The rendered literal for a floating-point default: text that reads as a
/// plain integer gets a fractional part, so that the emitted literal stays
/// a floating-point token.
pub open spec fn float_default_text(t: Seq<char>) -> Seq<char> {
    if is_plain_int_text(t) {
        t + ".0"@
    } else {
        t
    }
}

/// Renders a floating-point default element.
#[verifier::loop_isolation(false)]
fn float_default_str(s: &str) -> (r: String)
    ensures
        r@ == float_default_text(s@),
{
    let n = s.unicode_len();
    let u = if n > 0 && s.get_char(0) == '-' {
        s.substring_char(1, n)
    } else {
        s
    };
    proof {
        if s@.len() > 0 && s@[0] == '-' {
            assert(u@ =~= s@.drop_first());
        } else {
            assert(u@ =~= s@);
        }
        assert(u@ == strip_sign(s@));
    }
    let un = u.unicode_len();
    let mut plain = un > 0;
    let mut i: usize = 0;
    while i < un
        invariant
            0 <= i <= un,
            un == u@.len(),
            plain == (un > 0 && forall|j: int| 0 <= j < i ==> is_digit(#[trigger] u@[j])),
        decreases un - i,
    {
        let c = u.get_char(i);
        if !(c >= '0' && c <= '9') {
            plain = false;
        }
        i += 1;
    }
    if plain {
        concat_strs(s, ".0")
    } else {
        String::from_str(s)
    }
}

/// The rendered literal for one default element: a string becomes an owned
/// string expression, a character element takes the first character of its
/// string, numbers and booleans become plain literals. A shape mismatch is
/// an error.
pub open spec fn decode_elem(k: ElemKind, v: ValueV) -> Result<Seq<char>, ()> {
    match k {
        ElemKind::Text => match v {
            ValueV::Str(s) => Ok(quoted_str(s) + ".to_string()"@),
            _ => Err(()),
        },
        ElemKind::Character => match v {
            ValueV::Str(s) => if s.len() >= 1 {
                Ok(quoted_char(s[0]))
            } else {
                Err(())
            },
            _ => Err(()),
        },
        ElemKind::Integer => match v {
            ValueV::Int(i) => Ok(int_text(i)),
            _ => Err(()),
        },
        ElemKind::Floating => match v {
            ValueV::Float(t) => Ok(float_default_text(t)),
            _ => Err(()),
        },
        ElemKind::Boolean => match v {
            ValueV::Bool(b) => Ok(
                if b {
                    "true"@
                } else {
                    "false"@
                },
            ),
            _ => Err(()),
        },
    }
}

/// Renders one default element.
pub fn decode_element(k: ElemKind, v: &DocValue) -> (r: Result<String, ()>)
    ensures
        match r {
            Ok(t) => decode_elem(k, v.deep()) == Ok::<Seq<char>, ()>(t@),
            Err(_) => decode_elem(k, v.deep()) is Err,
        },
{
    match k {
        ElemKind::Text => match v {
            DocValue::Str(s) => {
                let q = quote_str(s.as_str());
                Ok(concat_strs(q.as_str(), ".to_string()"))
            },
            _ => Err(()),
        },
        ElemKind::Character => match v {
            DocValue::Str(s) => {
                if s.as_str().unicode_len() >= 1 {
                    Ok(quote_char(s.as_str().get_char(0)))
                } else {
                    Err(())
                }
            },
            _ => Err(()),
        },
        ElemKind::Integer => match v {
            DocValue::Int(i) => Ok(i64_to_string(*i)),
            _ => Err(()),
        },
        ElemKind::Floating => match v {
            DocValue::Float(t) => Ok(float_default_str(t.as_str())),
            _ => Err(()),
        },
        ElemKind::Boolean => match v {
            DocValue::Bool(b) => {
                if *b {
                    Ok(String::from_str("true"))
                } else {
                    Ok(String::from_str("false"))
                }
            },
            _ => Err(()),
        },
    }
}

/// The rendered literals of the first `n` default elements, in order; the
/// first shape mismatch is the error.
pub open spec fn decode_elems(k: ElemKind, vs: Seq<ValueV>, n: int) -> Result<Seq<Seq<char>>, ()>
    decreases n,
{
    if n <= 0 || n > vs.len() {
        Ok(Seq::empty())
    } else {
        match decode_elems(k, vs, n - 1) {
            Err(e) => Err(e),
            Ok(acc) => match decode_elem(k, vs[n - 1]) {
                Err(e) => Err(e),
                Ok(t) => Ok(acc.push(t)),
            },
        }
    }
}

/// A mismatch among the first `i` elements is the result for any longer
/// prefix as well.
pub proof fn lemma_decode_elems_err(k: ElemKind, vs: Seq<ValueV>, i: int, j: int)
    requires
        0 <= i <= j <= vs.len(),
        decode_elems(k, vs, i) is Err,
    ensures
        decode_elems(k, vs, j) == decode_elems(k, vs, i),
    decreases j - i,
{
    if j > i {
        lemma_decode_elems_err(k, vs, i, j - 1);
        assert(decode_elems(k, vs, j) == decode_elems(k, vs, j - 1));
    }
}

/// Renders the default elements of a vector field's default array.
#[verifier::loop_isolation(false)]
pub fn decode_vec_elements(k: ElemKind, items: &Vec<DocValue>) -> (r: Result<Vec<String>, ()>)
    ensures
        match r {
            Ok(parts) => decode_elems(k, deep_seq(items@), items@.len() as int) == Ok::<
                Seq<Seq<char>>,
                (),
            >(strings_view(parts@)),
            Err(_) => decode_elems(k, deep_seq(items@), items@.len() as int) is Err,
        },
{
    broadcast use lemma_deep_seq;

    let ghost vs = deep_seq(items@);
    let mut parts: Vec<String> = Vec::new();
    let n = items.len();
    let mut i: usize = 0;
    proof {
        assert(strings_view(parts@) =~= Seq::<Seq<char>>::empty());
    }
    while i < n
        invariant
            0 <= i <= n,
            decode_elems(k, vs, i as int) == Ok::<Seq<Seq<char>>, ()>(strings_view(parts@)),
        decreases n - i,
    {
        proof {
            assert(vs[i as int] == items@[i as int].deep());
        }
        match decode_element(k, &items[i]) {
            Ok(t) => {
                let ghost before = parts@;
                parts.push(t);
                proof {
                    assert(strings_view(parts@) =~= strings_view(before).push(t@));
                }
            },
            Err(_) => {
                proof {
                    assert(decode_elems(k, vs, i + 1) is Err);
                    lemma_decode_elems_err(k, vs, i + 1, vs.len() as int);
                }
                return Err(());
            },
        }
        i += 1;
    }
    Ok(parts)
}

/// The comma-separated join of the first `n` rendered elements.
pub open spec fn join_comma(parts: Seq<Seq<char>>, n: int) -> Seq<char>
    decreases n,
{
    if n <= 0 || n > parts.len() {
        Seq::empty()
    } else if n == 1 {
        parts[0]
    } else {
        join_comma(parts, n - 1) + ", "@ + parts[n - 1]
    }
}

/// Joins rendered elements with commas.
#[verifier::loop_isolation(false)]
pub fn join_comma_strs(parts: &Vec<String>) -> (r: String)
    ensures
        r@ == join_comma(strings_view(parts@), parts@.len() as int),
{
    let ghost sv = strings_view(parts@);
    let mut r = String::new();
    let n = parts.len();
    let mut i: usize = 0;
    while i < n
        invariant
            0 <= i <= n,
            r@ == join_comma(sv, i as int),
        decreases n - i,
    {
        if i == 0 {
            r = parts[0].clone();
        } else {
            r.append(", ");
            r.append(parts[i].as_str());
        }
        proof {
            assert(sv[i as int] == parts@[i as int]@);
        }
        i += 1;
    }
    r
}

/// The rendered default list of a vector field: string-like elements use an
/// owned-vector expression, plain literals use an array expression.
pub open spec fn vec_default_text(k: ElemKind, parts: Seq<Seq<char>>) -> Seq<char> {
    let open = if k == ElemKind::Text || k == ElemKind::Character {
        "vec!["@
    } else {
        "["@
    };
    open + join_comma(parts, parts.len() as int) + "]"@
}

/// Renders the default list of a vector field.
pub fn render_vec_default(k: ElemKind, parts: &Vec<String>) -> (r: String)
    ensures
        r@ == vec_default_text(k, strings_view(parts@)),
{
    let joined = join_comma_strs(parts);
    let open = match k {
        ElemKind::Text => "vec![",
        ElemKind::Character => "vec![",
        _ => "[",
    };
    let a = concat_strs(open, joined.as_str());
    concat_strs(a.as_str(), "]")
}

/// Whether one character is a decimal digit.
pub open spec fn is_digit(c: char) -> bool {
    '0' <= c <= '9'
}

/// Whether text is a run of decimal digits, possibly grouped with
/// underscores: it starts with a digit and holds only digits and
/// underscores.
pub open spec fn is_uint_lit(s: Seq<char>) -> bool {
    s.len() > 0 && is_digit(s[0]) && forall|i: int|
        0 <= i < s.len() ==> (is_digit(#[trigger] s[i]) || s[i] == '_')
}

/// Whether text is a decimal integer literal, optionally signed.
pub open spec fn is_int_lit(s: Seq<char>) -> bool {
    if s.len() > 0 && s[0] == '-' {
        is_uint_lit(s.drop_first())
    } else {
        is_uint_lit(s)
    }
}

/// Text with its leading minus sign removed.
pub open spec fn strip_sign(s: Seq<char>) -> Seq<char> {
    if s.len() > 0 && s[0] == '-' {
        s.drop_first()
    } else {
        s
    }
}

/// The mantissa of a floating-point literal: a digit run, optionally
/// followed by a point and, after it, an optional digit run.
pub open spec fn is_mantissa(t: Seq<char>) -> bool {
    is_uint_lit(t) || exists|k: int|
        0 < k < t.len() && t[k] == '.' && is_uint_lit(#[trigger] t.subrange(0, k)) && (k == t.len()
            - 1 || is_uint_lit(t.subrange(k + 1, t.len() as int)))
}

/// Text with a leading plus or minus sign removed.
pub open spec fn strip_plus_minus(s: Seq<char>) -> Seq<char> {
    if s.len() > 0 && (s[0] == '+' || s[0] == '-') {
        s.drop_first()
    } else {
        s
    }
}

/// An exponent part: the marker, an optional sign, and a digit run.
pub open spec fn is_exponent(s: Seq<char>) -> bool {
    s.len() >= 2 && (s[0] == 'e' || s[0] == 'E') && is_uint_lit(strip_plus_minus(s.drop_first()))
}

/// Whether unsigned text is a decimal floating-point literal: a mantissa,
/// optionally followed by an exponent part.
pub open spec fn is_float_body(t: Seq<char>) -> bool {
    is_mantissa(t) || exists|m: int|
        0 < m < t.len() && is_mantissa(#[trigger] t.subrange(0, m)) && is_exponent(
            t.subrange(m, t.len() as int),
        )
}

/// Whether text is a decimal floating-point literal, optionally signed.
pub open spec fn is_float_lit(s: Seq<char>) -> bool {
    is_float_body(strip_sign(s))
}

/// A mantissa holds only digits, underscores and the point.
proof fn lemma_mantissa_chars(s: Seq<char>, i: int)
    requires
        is_mantissa(s),
        0 <= i < s.len(),
    ensures
        is_digit(s[i]) || s[i] == '_' || s[i] == '.',
{
    if !is_uint_lit(s) {
        let k = choose|k: int|
            0 < k < s.len() && s[k] == '.' && is_uint_lit(#[trigger] s.subrange(0, k)) && (k
                == s.len() - 1 || is_uint_lit(s.subrange(k + 1, s.len() as int)));
        if i < k {
            assert(s.subrange(0, k)[i] == s[i]);
        } else if i > k {
            assert(s.subrange(k + 1, s.len() as int)[i - k - 1] == s[i]);
        }
    }
}

/// Whether text is a digit run, possibly grouped with underscores.
#[verifier::loop_isolation(false)]
pub fn is_uint_lit_str(s: &str) -> (r: bool)
    ensures
        r == is_uint_lit(s@),
{
    let n = s.unicode_len();
    if n == 0 {
        return false;
    }
    let c0 = s.get_char(0);
    if !(c0 >= '0' && c0 <= '9') {
        return false;
    }
    let mut i: usize = 0;
    while i < n
        invariant
            0 <= i <= n,
            forall|j: int| 0 <= j < i ==> (is_digit(#[trigger] s@[j]) || s@[j] == '_'),
        decreases n - i,
    {
        let c = s.get_char(i);
        if !(c >= '0' && c <= '9' || c == '_') {
            return false;
        }
        i += 1;
    }
    true
}

/// Whether text is a decimal integer literal, optionally signed.
pub fn is_int_lit_str(s: &str) -> (r: bool)
    ensures
        r == is_int_lit(s@),
{
    let n = s.unicode_len();
    if n > 0 && s.get_char(0) == '-' {
        let rest = s.substring_char(1, n);
        proof {
            assert(rest@ =~= s@.drop_first());
        }
        is_uint_lit_str(rest)
    } else {
        is_uint_lit_str(s)
    }
}

/// Whether text is the mantissa of a floating-point literal.
#[verifier::loop_isolation(false)]
fn is_mantissa_str(s: &str) -> (r: bool)
    ensures
        r == is_mantissa(s@),
{
    let n = s.unicode_len();
    // find the first point, if any
    let mut dot: Option<usize> = None;
    let mut i: usize = 0;
    while i < n
        invariant
            0 <= i <= n,
            n == s@.len(),
            match dot {
                Some(d) => d < i && s@[d as int] == '.' && (forall|j: int|
                    0 <= j < d ==> #[trigger] s@[j] != '.'),
                None => forall|j: int| 0 <= j < i ==> #[trigger] s@[j] != '.',
            },
        decreases n - i,
    {
        if dot.is_none() && s.get_char(i) == '.' {
            dot = Some(i);
        }
        i += 1;
    }
    match dot {
        None => {
            let r = is_uint_lit_str(s);
            proof {
                if !r {
                    assert forall|k: int|
                        !(0 < k < s@.len() && s@[k] == '.' && is_uint_lit(
                            #[trigger] s@.subrange(0, k),
                        ) && (k == s@.len() - 1 || is_uint_lit(
                            s@.subrange(k + 1, s@.len() as int),
                        ))) by {
                        if 0 < k < s@.len() {
                            assert(s@[k] != '.');
                        }
                    }
                }
                assert(r == is_mantissa(s@));
            }
            r
        },
        Some(d) => {
            proof {
                assert(!is_uint_lit(s@));
            }
            if d == 0 {
                proof {
                    assert forall|k: int|
                        !(0 < k < s@.len() && s@[k] == '.' && is_uint_lit(
                            #[trigger] s@.subrange(0, k),
                        ) && (k == s@.len() - 1 || is_uint_lit(
                            s@.subrange(k + 1, s@.len() as int),
                        ))) by {
                        if 0 < k < s@.len() && s@[k] == '.' {
                            assert(s@.subrange(0, k)[0] == s@[0]);
                            assert(!is_uint_lit(s@.subrange(0, k)));
                        }
                    }
                    assert(!is_mantissa(s@));
                }
                false
            } else if d + 1 >= n {
                let before = s.substring_char(0, d);
                let ok = is_uint_lit_str(before);
                proof {
                    assert(before@ =~= s@.subrange(0, d as int));
                    if ok {
                        assert(0 < d < s@.len() && s@[d as int] == '.' && is_uint_lit(
                            s@.subrange(0, d as int),
                        ) && d == s@.len() - 1);
                    } else {
                        assert forall|k: int|
                            !(0 < k < s@.len() && s@[k] == '.' && is_uint_lit(
                                #[trigger] s@.subrange(0, k),
                            ) && (k == s@.len() - 1 || is_uint_lit(
                                s@.subrange(k + 1, s@.len() as int),
                            ))) by {
                            if 0 < k < s@.len() && s@[k] == '.' {
                                assert(k >= d);
                                assert(k == d);
                            }
                        }
                    }
                    assert(ok == is_mantissa(s@));
                }
                ok
            } else {
                let before = s.substring_char(0, d);
                let after = s.substring_char(d + 1, n);
                let ok = is_uint_lit_str(before) && is_uint_lit_str(after);
                proof {
                    assert(before@ =~= s@.subrange(0, d as int));
                    assert(after@ =~= s@.subrange(d + 1, s@.len() as int));
                    if ok {
                        assert(0 < d < s@.len() && s@[d as int] == '.' && is_uint_lit(
                            s@.subrange(0, d as int),
                        ) && is_uint_lit(s@.subrange(d + 1, s@.len() as int)));
                    } else {
                        assert forall|k: int|
                            !(0 < k < s@.len() && s@[k] == '.' && is_uint_lit(
                                #[trigger] s@.subrange(0, k),
                            ) && (k == s@.len() - 1 || is_uint_lit(
                                s@.subrange(k + 1, s@.len() as int),
                            ))) by {
                            if 0 < k < s@.len() && s@[k] == '.' {
                                if k < d {
                                    assert(s@[k] != '.');
                                } else if k == d {
                                } else {
                                    assert(s@.subrange(0, k)[d as int] == s@[d as int]);
                                    assert(!is_uint_lit(s@.subrange(0, k)));
                                }
                            }
                        }
                    }
                    assert(ok == is_mantissa(s@));
                }
                ok
            }
        },
    }
}

/// Whether text is a decimal floating-point literal, optionally signed.
#[verifier::loop_isolation(false)]
pub fn is_float_lit_str(s: &str) -> (r: bool)
    ensures
        r == is_float_lit(s@),
{
    let n = s.unicode_len();
    let t = if n > 0 && s.get_char(0) == '-' {
        s.substring_char(1, n)
    } else {
        s
    };
    proof {
        if s@.len() > 0 && s@[0] == '-' {
            assert(t@ =~= s@.drop_first());
        } else {
            assert(t@ =~= s@);
        }
        assert(t@ == strip_sign(s@));
    }
    let tv = t;
    let m = tv.unicode_len();
    // find the first exponent marker, if any
    let mut mark: Option<usize> = None;
    let mut i: usize = 0;
    while i < m
        invariant
            0 <= i <= m,
            m == tv@.len(),
            match mark {
                Some(e) => e < i && (tv@[e as int] == 'e' || tv@[e as int] == 'E') && (forall|
                    j: int,
                |
                    0 <= j < e ==> #[trigger] tv@[j] != 'e' && tv@[j] != 'E'),
                None => forall|j: int| 0 <= j < i ==> #[trigger] tv@[j] != 'e' && tv@[j] != 'E',
            },
        decreases m - i,
    {
        if mark.is_none() {
            let c = tv.get_char(i);
            if c == 'e' || c == 'E' {
                mark = Some(i);
            }
        }
        i += 1;
    }
    match mark {
        None => {
            let r = is_mantissa_str(tv);
            proof {
                if !r {
                    assert forall|k: int|
                        !(0 < k < tv@.len() && is_mantissa(#[trigger] tv@.subrange(0, k))
                            && is_exponent(tv@.subrange(k, tv@.len() as int))) by {
                        if 0 < k < tv@.len() {
                            assert(tv@.subrange(k, tv@.len() as int)[0] == tv@[k]);
                        }
                    }
                }
                assert(r == is_float_body(tv@));
            }
            r
        },
        Some(e) => {
            proof {
                if is_mantissa(tv@) {
                    lemma_mantissa_chars(tv@, e as int);
                }
                assert(!is_mantissa(tv@));
            }
            if e == 0 || e + 1 >= m {
                proof {
                    assert forall|k: int|
                        !(0 < k < tv@.len() && is_mantissa(#[trigger] tv@.subrange(0, k))
                            && is_exponent(tv@.subrange(k, tv@.len() as int))) by {
                        if 0 < k < tv@.len() {
                            if k < e {
                                assert(tv@.subrange(k, tv@.len() as int)[0] == tv@[k]);
                            } else if k > e {
                                if is_mantissa(tv@.subrange(0, k)) {
                                    assert(tv@.subrange(0, k)[e as int] == tv@[e as int]);
                                    lemma_mantissa_chars(tv@.subrange(0, k), e as int);
                                }
                            } else {
                                assert(tv@.subrange(k, tv@.len() as int).len() < 2);
                            }
                        }
                    }
                    assert(!is_float_body(tv@));
                }
                false
            } else {
                let mant = tv.substring_char(0, e);
                let ok_m = is_mantissa_str(mant);
                let rest = tv.substring_char(e + 1, m);
                let rest_len = m - e - 1;
                let c1 = rest.get_char(0);
                let body = if c1 == '+' || c1 == '-' {
                    rest.substring_char(1, rest_len)
                } else {
                    rest
                };
                let ok_e = is_uint_lit_str(body);
                let ok = ok_m && ok_e;
                proof {
                    let ep = tv@.subrange(e as int, tv@.len() as int);
                    assert(mant@ =~= tv@.subrange(0, e as int));
                    assert(rest@ =~= ep.drop_first());
                    if rest@.len() > 0 && (rest@[0] == '+' || rest@[0] == '-') {
                        assert(body@ =~= rest@.drop_first());
                    } else {
                        assert(body@ =~= rest@);
                    }
                    assert(body@ == strip_plus_minus(ep.drop_first()));
                    assert(ep[0] == tv@[e as int]);
                    assert(is_exponent(ep) == ok_e);
                    if ok {
                        assert(0 < e < tv@.len() && is_mantissa(tv@.subrange(0, e as int))
                            && is_exponent(tv@.subrange(e as int, tv@.len() as int)));
                    } else {
                        assert forall|k: int|
                            !(0 < k < tv@.len() && is_mantissa(#[trigger] tv@.subrange(0, k))
                                && is_exponent(tv@.subrange(k, tv@.len() as int))) by {
                            if 0 < k < tv@.len() {
                                if k < e {
                                    assert(tv@.subrange(k, tv@.len() as int)[0] == tv@[k]);
                                } else if k > e {
                                    if is_mantissa(tv@.subrange(0, k)) {
                                        assert(tv@.subrange(0, k)[e as int] == tv@[e as int]);
                                        lemma_mantissa_chars(tv@.subrange(0, k), e as int);
                                    }
                                }
                            }
                        }
                    }
                    assert(ok == is_float_body(tv@));
                }
                ok
            }
        },
    }
}


/// The leading attributes of every non-flattened field: the field's id,
/// then the help text when a doc string is present.
pub open spec fn id_help_args(s: SpecV) -> Seq<ArgAttrV> {
    seq![ArgAttrV::Id(s.id)] + (match s.doc {
        Some(d) => seq![ArgAttrV::Help(d)],
        None => Seq::empty(),
    })
}

/// The environment-variable attribute of a scalar or enumerated field.
pub open spec fn env_attr(env: Option<Seq<char>>) -> Seq<ArgAttrV> {
    match env {
        Some(e) => seq![ArgAttrV::Env(e)],
        None => Seq::empty(),
    }
}

/// The environment-variable attributes of a vector field: a bound variable
/// also gets a multi-value delimiter, so one value can seed many elements.
pub open spec fn vec_env_attr(env: Option<Seq<char>>) -> Seq<ArgAttrV> {
    match env {
        Some(e) => seq![ArgAttrV::Env(e), ArgAttrV::ValueDelimiter(',')],
        None => Seq::empty(),
    }
}

/// The long-flag attribute: the explicit long flag, or the id as fallback.
pub open spec fn long_attr(long: Option<Seq<char>>, id: Seq<char>) -> Seq<ArgAttrV> {
    match long {
        Some(l) => seq![ArgAttrV::Long(l)],
        None => seq![ArgAttrV::Long(id)],
    }
}

/// The short-flag attribute, when a short flag is present.
#[verifier::inline]
pub open spec fn short_attr(short: Option<char>) -> Seq<ArgAttrV> {
    if short is Some {
        seq![ArgAttrV::Short(short->0)]
    } else {
        Seq::empty()
    }
}

/// Whether a default literal coerces to its field's resolved type: integer
/// and floating types demand a matching numeric literal, booleans demand
/// `true` or `false`, anything else passes verbatim.
pub open spec fn is_valid_typed_default(ty: Seq<char>, d: Seq<char>) -> bool {
    if crate::utils::is_int_type_name(ty) {
        is_int_lit(d)
    } else if crate::utils::is_float_type_name(ty) {
        is_float_lit(d)
    } else if ty == "bool"@ {
        d == "true"@ || d == "false"@
    } else {
        true
    }
}

/// The default attribute of a leaf field: quoted for text, path and
/// optional fields, a character literal for characters, and the literal
/// text itself otherwise, after coercion checking. `Err` means the default
/// does not coerce.
pub open spec fn leaf_default_args(s: SpecV, d: Option<Seq<char>>) -> Result<Seq<ArgAttrV>, ()> {
    match d {
        None => Ok(Seq::empty()),
        Some(d) => {
            if s.field_type == "String"@ || s.field_type == "std::path::PathBuf"@ || s.optional {
                Ok(seq![ArgAttrV::DefaultValue(d)])
            } else if s.field_type == "char"@ {
                if d.len() >= 1 {
                    Ok(seq![ArgAttrV::DefaultValueTyped(quoted_char(d[0]))])
                } else {
                    Err(())
                }
            } else if is_valid_typed_default(s.field_type, d) {
                Ok(seq![ArgAttrV::DefaultValueTyped(d)])
            } else {
                Err(())
            }
        },
    }
}

/// The default attribute of a vector field: the default array decoded
/// element by element to the resolved element type. `Err` means the
/// default is not an array, the element type has no decodable kind, or an
/// element does not match it.
pub open spec fn vec_default_args(s: SpecV, dv: Option<ValueV>) -> Result<Seq<ArgAttrV>, ()> {
    match dv {
        None => Ok(Seq::empty()),
        Some(v) => match v {
            ValueV::Array(items) => match elem_kind_of(s.field_type) {
                None => Err(()),
                Some(k) => match decode_elems(k, items, items.len() as int) {
                    Err(_) => Err(()),
                    Ok(parts) => Ok(
                        seq![ArgAttrV::DefaultValuesTyped(vec_default_text(k, parts))],
                    ),
                },
            },
            _ => Err(()),
        },
    }
}

/// The default attribute of an enumerated field: a fully qualified variant
/// reference.
pub open spec fn enum_default_attr(ty: Seq<char>, d: Option<Seq<char>>) -> Seq<ArgAttrV> {
    match d {
        Some(d) => seq![ArgAttrV::DefaultValueTyped(ty + "::"@ + d)],
        None => Seq::empty(),
    }
}

/// The generated declaration of one field, by its kind: leaves, vectors
/// and enumerations carry their binding attributes; nested and external
/// fields carry only the flatten marker.
pub open spec fn spec_field_decl(s: SpecV) -> Result<FieldDeclV, ConfigErrorV> {
    match s.variant {
        GenericSpecV::FieldSpec(f) => match leaf_default_args(s, f.default) {
            Err(_) => Err(ConfigErrorV::MalformedDefault { id: s.id }),
            Ok(defaults) => Ok(
                FieldDeclV {
                    name: s.name,
                    field_type: s.field_type,
                    optional: s.optional,
                    doc: s.doc,
                    flatten: false,
                    args: id_help_args(s) + defaults + env_attr(f.env) + long_attr(
                        f.long_arg,
                        s.id,
                    ) + short_attr(f.short_arg),
                },
            ),
        },
        GenericSpecV::VecSpec(vf) => match vec_default_args(s, vf.default) {
            Err(_) => Err(ConfigErrorV::MalformedDefault { id: s.id }),
            Ok(defaults) => Ok(
                FieldDeclV {
                    name: s.name,
                    field_type: s.field_type,
                    optional: s.optional,
                    doc: s.doc,
                    flatten: false,
                    args: id_help_args(s) + defaults + vec_env_attr(vf.env) + long_attr(
                        vf.long_arg,
                        s.id,
                    ) + short_attr(vf.short_arg),
                },
            ),
        },
        GenericSpecV::EnumSpec(e) => Ok(
            FieldDeclV {
                name: s.name,
                field_type: s.field_type,
                optional: s.optional,
                doc: s.doc,
                flatten: false,
                args: id_help_args(s) + seq![ArgAttrV::ValueEnum] + enum_default_attr(
                    s.field_type,
                    e.default,
                ) + env_attr(e.env) + long_attr(e.long_arg, s.id) + short_attr(e.short_arg),
            },
        ),
        GenericSpecV::SubtypeSpec(_) => Ok(
            FieldDeclV {
                name: s.name,
                field_type: s.field_type,
                optional: s.optional,
                doc: s.doc,
                flatten: true,
                args: Seq::empty(),
            },
        ),
        GenericSpecV::ExternalSpec(_) => Ok(
            FieldDeclV {
                name: s.name,
                field_type: s.field_type,
                optional: s.optional,
                doc: s.doc,
                flatten: true,
                args: Seq::empty(),
            },
        ),
    }
}

/// A copy of an optional string.
pub fn clone_opt_string(o: &Option<String>) -> (r: Option<String>)
    ensures
        opt_str_view(r) == opt_str_view(*o),
{
    match o {
        Some(s) => Some(s.clone()),
        None => None,
    }
}

/// The leading attributes of a non-flattened field.
fn base_args(field: &Spec) -> (r: Vec<ArgAttr>)
    ensures
        attrs_view(r@) == id_help_args(field@),
{
    let mut args: Vec<ArgAttr> = Vec::new();
    args.push(ArgAttr::Id(field.id.clone()));
    match &field.doc {
        Some(d) => args.push(ArgAttr::Help(d.clone())),
        None => {},
    }
    proof {
        assert(attrs_view(args@) =~= id_help_args(field@));
    }
    args
}

/// A flattened field declaration, for nested and external fields.
fn flatten_decl(field: &Spec) -> (r: FieldDecl)
    ensures
        r@ == (FieldDeclV {
            name: field@.name,
            field_type: field@.field_type,
            optional: field@.optional,
            doc: field@.doc,
            flatten: true,
            args: Seq::empty(),
        }),
{
    let r = FieldDecl {
        name: field.name.clone(),
        field_type: field.field_type.clone(),
        optional: field.optional,
        doc: clone_opt_string(&field.doc),
        flatten: true,
        args: Vec::new(),
    };
    proof {
        assert(attrs_view(Seq::<ArgAttr>::empty()) =~= Seq::<ArgAttrV>::empty());
    }
    r
}

/// The attribute list extended by one attribute.
fn with_one(args: Vec<ArgAttr>, a: ArgAttr) -> (r: Vec<ArgAttr>)
    ensures
        attrs_view(r@) == attrs_view(args@) + seq![a@],
{
    let ghost before = args@;
    let mut v = args;
    v.push(a);
    proof {
        assert(attrs_view(v@) =~= attrs_view(before) + seq![a@]);
    }
    v
}

/// The attribute list extended by the environment attribute of a scalar or
/// enumerated field.
fn with_env(args: Vec<ArgAttr>, env: &Option<String>) -> (r: Vec<ArgAttr>)
    ensures
        attrs_view(r@) == attrs_view(args@) + env_attr(opt_str_view(*env)),
{
    let ghost before = args@;
    match env {
        Some(e) => with_one(args, ArgAttr::Env(e.clone())),
        None => {
            proof {
                assert(attrs_view(before) =~= attrs_view(before) + env_attr(
                    opt_str_view(*env),
                ));
            }
            args
        },
    }
}

/// The attribute list extended by the environment attributes of a vector
/// field: a bound variable also gets a multi-value delimiter.
fn with_vec_env(args: Vec<ArgAttr>, env: &Option<String>) -> (r: Vec<ArgAttr>)
    ensures
        attrs_view(r@) == attrs_view(args@) + vec_env_attr(opt_str_view(*env)),
{
    let ghost before = args@;
    match env {
        Some(e) => {
            let ghost mid = args@;
            let v = with_one(args, ArgAttr::Env(e.clone()));
            let v2 = with_one(v, ArgAttr::ValueDelimiter(','));
            proof {
                assert(attrs_view(v2@) =~= attrs_view(before) + vec_env_attr(
                    opt_str_view(*env),
                ));
            }
            v2
        },
        None => {
            proof {
                assert(attrs_view(before) =~= attrs_view(before) + vec_env_attr(
                    opt_str_view(*env),
                ));
            }
            args
        },
    }
}

/// The attribute list extended by the long-flag attribute, the id standing
/// in when no long flag was declared.
fn with_long(args: Vec<ArgAttr>, long: &Option<String>, id: &String) -> (r: Vec<ArgAttr>)
    ensures
        attrs_view(r@) == attrs_view(args@) + long_attr(opt_str_view(*long), id@),
{
    match long {
        Some(l) => with_one(args, ArgAttr::Long(l.clone())),
        None => with_one(args, ArgAttr::Long(id.clone())),
    }
}

/// The character itself.
/// The same character under a fresh binding: a character bound by a match
/// pattern does not carry the typing facts that the sequence proofs below
/// need, while a returned value does.
fn chr_id(c: char) -> (r: char)
    ensures
        r == c,
{
    c
}

/// The attribute list extended by the short-flag attribute, when one is
/// present.
fn with_short(args: Vec<ArgAttr>, sopt: Option<char>) -> (r: Vec<ArgAttr>)
    ensures
        attrs_view(r@) == attrs_view(args@) + short_attr(sopt),
{
    let ghost before = args@;
    match sopt {
        Some(c0) => {
            let c = chr_id(c0);
            let mut v = args;
            v.push(ArgAttr::Short(c));
            proof {
                assert(attrs_view(before) + seq![ArgAttrV::Short(c)] =~= attrs_view(
                    before,
                ).push(ArgAttrV::Short(c)));
                assert(attrs_view(v@) =~= attrs_view(before) + short_attr(sopt));
            }
            v
        },
        None => {
            proof {
                assert(attrs_view(before) =~= attrs_view(before) + short_attr(sopt));
            }
            args
        },
    }
}

/// The attribute list extended by the default attribute of a leaf field,
/// after coercion checking.
fn with_leaf_default(args: Vec<ArgAttr>, field: &Spec, f: &Field) -> (res: Result<
    Vec<ArgAttr>,
    ConfigError,
>)
    ensures
        match res {
            Ok(r) => leaf_default_args(field@, opt_str_view(f.default)) is Ok && attrs_view(r@)
                == attrs_view(args@) + leaf_default_args(field@, opt_str_view(f.default))->Ok_0,
            Err(e) => leaf_default_args(field@, opt_str_view(f.default)) is Err && e@ == (
            ConfigErrorV::MalformedDefault { id: field@.id }),
        },
{
    let ghost before = args@;
    match &f.default {
        Some(d) => {
            let ft = field.field_type.as_str();
            if str_eq(ft, "String") || str_eq(ft, PATH_BUF) || field.optional {
                Ok(with_one(args, ArgAttr::DefaultValue(d.clone())))
            } else if str_eq(ft, "char") {
                if d.as_str().unicode_len() >= 1 {
                    Ok(with_one(args, ArgAttr::DefaultValueTyped(quote_char(d.as_str().get_char(0)))))
                } else {
                    Err(ConfigError::MalformedDefault { id: field.id.clone() })
                }
            } else {
                let valid = if crate::utils::is_int_type(ft) {
                    is_int_lit_str(d.as_str())
                } else if crate::utils::is_float_type(ft) {
                    is_float_lit_str(d.as_str())
                } else if str_eq(ft, "bool") {
                    str_eq(d.as_str(), "true") || str_eq(d.as_str(), "false")
                } else {
                    true
                };
                if valid {
                    Ok(with_one(args, ArgAttr::DefaultValueTyped(d.clone())))
                } else {
                    Err(ConfigError::MalformedDefault { id: field.id.clone() })
                }
            }
        },
        None => {
            proof {
                assert(attrs_view(before) =~= attrs_view(before) + Seq::<ArgAttrV>::empty());
            }
            Ok(args)
        },
    }
}

/// The attribute list extended by the default attribute of a vector field,
/// decoding the default array.
fn with_vec_default(args: Vec<ArgAttr>, field: &Spec, vf: &VecField) -> (res: Result<
    Vec<ArgAttr>,
    ConfigError,
>)
    ensures
        match res {
            Ok(r) => vec_default_args(field@, crate::ast::opt_value_view(vf.default)) is Ok
                && attrs_view(r@) == attrs_view(args@) + vec_default_args(
                field@,
                crate::ast::opt_value_view(vf.default),
            )->Ok_0,
            Err(e) => vec_default_args(field@, crate::ast::opt_value_view(vf.default)) is Err
                && e@ == (ConfigErrorV::MalformedDefault { id: field@.id }),
        },
{
    let ghost before = args@;
    match &vf.default {
        Some(v) => match v {
            DocValue::Array(items) => match elem_kind(field.field_type.as_str()) {
                Some(k) => match decode_vec_elements(k, items) {
                    Ok(parts) => {
                        let txt = render_vec_default(k, &parts);
                        proof {
                            lemma_deep_seq(items@);
                        }
                        Ok(with_one(args, ArgAttr::DefaultValuesTyped(txt)))
                    },
                    Err(_) => {
                        proof {
                            lemma_deep_seq(items@);
                        }
                        Err(ConfigError::MalformedDefault { id: field.id.clone() })
                    },
                },
                None => Err(ConfigError::MalformedDefault { id: field.id.clone() }),
            },
            _ => Err(ConfigError::MalformedDefault { id: field.id.clone() }),
        },
        None => {
            proof {
                assert(attrs_view(before) =~= attrs_view(before) + Seq::<ArgAttrV>::empty());
            }
            Ok(args)
        },
    }
}

/// The attribute list extended by the enumerated-value marker.
fn with_value_enum(args: Vec<ArgAttr>) -> (r: Vec<ArgAttr>)
    ensures
        attrs_view(r@) == attrs_view(args@) + seq![ArgAttrV::ValueEnum],
{
    with_one(args, ArgAttr::ValueEnum)
}

/// The attribute list extended by the default attribute of an enumerated
/// field: a fully qualified variant reference.
fn with_enum_default(args: Vec<ArgAttr>, field: &Spec, en: &EnumField) -> (r: Vec<ArgAttr>)
    ensures
        attrs_view(r@) == attrs_view(args@) + enum_default_attr(
            field@.field_type,
            opt_str_view(en.default),
        ),
{
    let ghost before = args@;
    match &en.default {
        Some(d) => {
            let path = concat_strs(field.field_type.as_str(), "::");
            let full = concat_strs(path.as_str(), d.as_str());
            with_one(args, ArgAttr::DefaultValueTyped(full))
        },
        None => {
            proof {
                assert(attrs_view(before) =~= attrs_view(before) + enum_default_attr(
                    field@.field_type,
                    opt_str_view(en.default),
                ));
            }
            args
        },
    }
}

/// The declaration record of a non-flattened field around its attributes.
fn plain_decl(field: &Spec, args: Vec<ArgAttr>) -> (r: FieldDecl)
    ensures
        r@ == (FieldDeclV {
            name: field@.name,
            field_type: field@.field_type,
            optional: field@.optional,
            doc: field@.doc,
            flatten: false,
            args: attrs_view(args@),
        }),
{
    FieldDecl {
        name: field.name.clone(),
        field_type: field.field_type.clone(),
        optional: field.optional,
        doc: clone_opt_string(&field.doc),
        flatten: false,
        args,
    }
}

/// Generates the declaration of a native scalar field.
fn leaf_field_decl(field: &Spec, f: &Field) -> (res: Result<FieldDecl, ConfigError>)
    requires
        field@.variant == GenericSpecV::FieldSpec(f@),
    ensures
        match res {
            Ok(fd) => spec_field_decl(field@) == Ok::<FieldDeclV, ConfigErrorV>(fd@),
            Err(e) => spec_field_decl(field@) == Err::<FieldDeclV, ConfigErrorV>(e@),
        },
{
    let args = base_args(field);
    let args = match with_leaf_default(args, field, f) {
        Ok(v) => v,
        Err(e) => {
            return Err(e);
        },
    };
    let args = with_env(args, &f.env);
    let args = with_long(args, &f.long_arg, &field.id);
    let args = with_short(args, f.short_arg);
    Ok(plain_decl(field, args))
}

/// Generates the declaration of a vector field.
fn vec_field_decl(field: &Spec, vf: &VecField) -> (res: Result<FieldDecl, ConfigError>)
    requires
        field@.variant == GenericSpecV::VecSpec(vf@),
    ensures
        match res {
            Ok(fd) => spec_field_decl(field@) == Ok::<FieldDeclV, ConfigErrorV>(fd@),
            Err(e) => spec_field_decl(field@) == Err::<FieldDeclV, ConfigErrorV>(e@),
        },
{
    let args = base_args(field);
    let args = match with_vec_default(args, field, vf) {
        Ok(v) => v,
        Err(e) => {
            return Err(e);
        },
    };
    let args = with_vec_env(args, &vf.env);
    let args = with_long(args, &vf.long_arg, &field.id);
    let args = with_short(args, vf.short_arg);
    Ok(plain_decl(field, args))
}

/// Generates the declaration of an enumerated field.
fn enum_field_decl(field: &Spec, en: &EnumField) -> (res: Result<FieldDecl, ConfigError>)
    requires
        field@.variant == GenericSpecV::EnumSpec(en@),
    ensures
        match res {
            Ok(fd) => spec_field_decl(field@) == Ok::<FieldDeclV, ConfigErrorV>(fd@),
            Err(e) => spec_field_decl(field@) == Err::<FieldDeclV, ConfigErrorV>(e@),
        },
{
    let args = base_args(field);
    let args = with_value_enum(args);
    let args = with_enum_default(args, field, en);
    let args = with_env(args, &en.env);
    let args = with_long(args, &en.long_arg, &field.id);
    let args = with_short(args, en.short_arg);
    Ok(plain_decl(field, args))
}

/// Generates the declaration of one field.
pub fn field_to_decl(field: &Spec) -> (res: Result<FieldDecl, ConfigError>)
    ensures
        match res {
            Ok(fd) => spec_field_decl(field@) == Ok::<FieldDeclV, ConfigErrorV>(fd@),
            Err(e) => spec_field_decl(field@) == Err::<FieldDeclV, ConfigErrorV>(e@),
        },
{
    match &field.variant {
        GenericSpec::FieldSpec(f) => leaf_field_decl(field, f),
        GenericSpec::VecSpec(vf) => vec_field_decl(field, vf),
        GenericSpec::EnumSpec(e) => enum_field_decl(field, e),
        GenericSpec::SubtypeSpec(_) => Ok(flatten_decl(field)),
        GenericSpec::ExternalSpec(_) => Ok(flatten_decl(field)),
    }
}

/// The generated fields of the first `n` resolved fields, in order; the
/// first fatal error aborts the walk.
pub open spec fn spec_fields_upto(fields: Seq<SpecV>, n: int) -> Result<
    Seq<FieldDeclV>,
    ConfigErrorV,
>
    decreases n,
{
    if n <= 0 || n > fields.len() {
        Ok(Seq::empty())
    } else {
        match spec_fields_upto(fields, n - 1) {
            Err(e) => Err(e),
            Ok(acc) => match spec_field_decl(fields[n - 1]) {
                Err(e) => Err(e),
                Ok(fd) => Ok(acc.push(fd)),
            },
        }
    }
}

/// A fatal error among the first `i` fields is the result for any longer
/// prefix as well.
proof fn lemma_fields_upto_err(fields: Seq<SpecV>, i: int, j: int)
    requires
        0 <= i <= j <= fields.len(),
        spec_fields_upto(fields, i) is Err,
    ensures
        spec_fields_upto(fields, j) == spec_fields_upto(fields, i),
    decreases j - i,
{
    if j > i {
        lemma_fields_upto_err(fields, i, j - 1);
        assert(spec_fields_upto(fields, j) == spec_fields_upto(fields, j - 1));
    }
}

/// One aggregate declaration for a list of resolved fields.
pub open spec fn spec_single_struct(name: Seq<char>, fields: Seq<SpecV>) -> Result<
    StructDeclV,
    ConfigErrorV,
> {
    match spec_fields_upto(fields, fields.len() as int) {
        Err(e) => Err(e),
        Ok(fds) => Ok(StructDeclV { name, fields: fds }),
    }
}

/// Generates the aggregate declaration for a list of resolved fields.
#[verifier::loop_isolation(false)]
pub fn generate_single_struct(struct_name: &str, fields: &Vec<Spec>) -> (res: Result<
    StructDecl,
    ConfigError,
>)
    ensures
        match res {
            Ok(sd) => spec_single_struct(struct_name@, specs_deep(fields@)) == Ok::<
                StructDeclV,
                ConfigErrorV,
            >(sd@),
            Err(e) => spec_single_struct(struct_name@, specs_deep(fields@)) == Err::<
                StructDeclV,
                ConfigErrorV,
            >(e@),
        },
{
    let ghost fv = specs_deep(fields@);
    proof {
        crate::ast::lemma_specs_deep(fields@);
    }
    let mut out: Vec<FieldDecl> = Vec::new();
    let n = fields.len();
    let mut i: usize = 0;
    proof {
        assert(fdecls_view(out@) =~= Seq::<FieldDeclV>::empty());
    }
    while i < n
        invariant
            0 <= i <= n,
            spec_fields_upto(fv, i as int) == Ok::<Seq<FieldDeclV>, ConfigErrorV>(
                fdecls_view(out@),
            ),
        decreases n - i,
    {
        proof {
            assert(fv[i as int] == fields@[i as int].deep());
        }
        match field_to_decl(&fields[i]) {
            Ok(fd) => {
                proof {
                    lemma_fdecls_view_push(out@, fd);
                }
                out.push(fd);
            },
            Err(e) => {
                proof {
                    assert(spec_fields_upto(fv, i + 1) is Err);
                    lemma_fields_upto_err(fv, i + 1, fv.len() as int);
                }
                return Err(e);
            },
        }
        i += 1;
    }
    let name = String::from_str(struct_name);
    Ok(StructDecl { name, fields: out })
}

/// A copy of a list of names.
pub fn clone_strings(v: &Vec<String>) -> (r: Vec<String>)
    ensures
        strings_view(r@) == strings_view(v@),
{
    let mut out: Vec<String> = Vec::new();
    let n = v.len();
    let mut i: usize = 0;
    while i < n
        invariant
            0 <= i <= n,
            n == v@.len(),
            out@.len() == i,
            forall|j: int| 0 <= j < i ==> (#[trigger] out@[j])@ == v@[j]@,
        decreases n - i,
    {
        out.push(v[i].clone());
        i += 1;
    }
    proof {
        assert(strings_view(out@) =~= strings_view(v@));
    }
    out
}

/// Generates the standalone declaration of an enumerated type: the ordered
/// variant names, kept verbatim.
pub fn generate_enum(enum_name: &str, enum_spec: &EnumField) -> (r: EnumDecl)
    ensures
        r@ == (EnumDeclV { name: enum_name@, variants: enum_spec@.variants }),
{
    EnumDecl { name: String::from_str(enum_name), variants: clone_strings(&enum_spec.variants) }
}

/// The standalone declarations discovered among the first `n` resolved
/// fields, in pre-order: a nested field's aggregate declaration, then the
/// declarations inside it; a non-empty enumerated field's declaration; an
/// enumerated field without variants references an external type and emits
/// nothing.
pub open spec fn spec_subtypes_upto(fields: Seq<SpecV>, n: int) -> Result<Seq<DeclV>, ConfigErrorV>
    decreases fields, 0int, n,
    via spec_subtypes_upto_decreases
{
    if n <= 0 || n > fields.len() {
        Ok(Seq::empty())
    } else {
        match spec_subtypes_upto(fields, n - 1) {
            Err(e) => Err(e),
            Ok(acc) => match fields[n - 1].variant {
                GenericSpecV::SubtypeSpec(children) => match spec_single_struct(
                    fields[n - 1].field_type,
                    children,
                ) {
                    Err(e) => Err(e),
                    Ok(sd) => match spec_subtypes_upto(children, children.len() as int) {
                        Err(e) => Err(e),
                        Ok(subs) => Ok(acc.push(DeclV::Struct(sd)) + subs),
                    },
                },
                GenericSpecV::EnumSpec(en) => if en.variants.len() == 0 {
                    Ok(acc)
                } else {
                    Ok(
                        acc.push(
                            DeclV::Enum(
                                EnumDeclV { name: fields[n - 1].field_type, variants: en.variants },
                            ),
                        ),
                    )
                },
                _ => Ok(acc),
            },
        }
    }
}

#[via_fn]
proof fn spec_subtypes_upto_decreases(fields: Seq<SpecV>, n: int) {
    if 0 < n <= fields.len() {
        assert(decreases_to!(fields => fields[n - 1]));
        assert(decreases_to!(fields[n - 1] => fields[n - 1].variant));
        if fields[n - 1].variant is SubtypeSpec {
            assert(decreases_to!(fields[n - 1].variant => fields[n - 1].variant->SubtypeSpec_0));
        }
    }
}

/// A fatal error among the first `i` fields is the result for any longer
/// prefix as well.
proof fn lemma_subtypes_upto_err(fields: Seq<SpecV>, i: int, j: int)
    requires
        0 <= i <= j <= fields.len(),
        spec_subtypes_upto(fields, i) is Err,
    ensures
        spec_subtypes_upto(fields, j) == spec_subtypes_upto(fields, i),
    decreases j - i,
{
    if j > i {
        lemma_subtypes_upto_err(fields, i, j - 1);
        assert(spec_subtypes_upto(fields, j) == spec_subtypes_upto(fields, j - 1));
    }
}

/// Walks the resolved fields and appends every standalone nested-struct and
/// enum declaration, each exactly once, in pre-order.
#[verifier::loop_isolation(false)]
pub fn collect_subtypes(fields: &Vec<Spec>, items: &mut Vec<Decl>) -> (res: Result<(), ConfigError>)
    ensures
        match res {
            Ok(_) => spec_subtypes_upto(specs_deep(fields@), specs_deep(fields@).len() as int)
                is Ok && decls_view(final(items)@) == decls_view(old(items)@) + spec_subtypes_upto(
                specs_deep(fields@),
                specs_deep(fields@).len() as int,
            )->Ok_0,
            Err(e) => spec_subtypes_upto(specs_deep(fields@), specs_deep(fields@).len() as int)
                == Err::<Seq<DeclV>, ConfigErrorV>(e@),
        },
    decreases fields@,
{
    let ghost fv = specs_deep(fields@);
    let ghost base = decls_view(items@);
    proof {
        crate::ast::lemma_specs_deep(fields@);
        assert(decls_view(items@) =~= base + Seq::<DeclV>::empty());
    }
    let n = fields.len();
    let mut i: usize = 0;
    while i < n
        invariant
            0 <= i <= n,
            spec_subtypes_upto(fv, i as int) is Ok,
            decls_view(items@) == base + spec_subtypes_upto(fv, i as int)->Ok_0,
        decreases n - i,
    {
        proof {
            assert(fv[i as int] == fields@[i as int].deep());
        }
        let field = &fields[i];
        match &field.variant {
            GenericSpec::SubtypeSpec(sub) => {
                proof {
                    assert(fv[i as int].variant == GenericSpecV::SubtypeSpec(specs_deep(sub.0@)));
                    assert(decreases_to!(fields@ => fields@[i as int]));
                    assert(decreases_to!(fields@[i as int] => fields@[i as int].variant));
                    assert(fields@[i as int].variant == GenericSpec::SubtypeSpec(*sub));
                    assert(decreases_to!(fields@[i as int].variant => *sub));
                    assert(decreases_to!(*sub => sub.0));
                    assert(decreases_to!(sub.0 => sub.0@));
                }
                let sd = match generate_single_struct(field.field_type.as_str(), &sub.0) {
                    Ok(sd) => sd,
                    Err(e) => {
                        proof {
                            assert(spec_subtypes_upto(fv, i + 1) is Err);
                            lemma_subtypes_upto_err(fv, i + 1, fv.len() as int);
                        }
                        return Err(e);
                    },
                };
                let ghost mid = decls_view(items@);
                let ghost sdv = sd@;
                items.push(Decl::Struct(sd));
                proof {
                    assert(decls_view(items@) =~= mid.push(DeclV::Struct(sdv)));
                }
                let ghost mid2 = decls_view(items@);
                match collect_subtypes(&sub.0, items) {
                    Ok(_) => {},
                    Err(e) => {
                        proof {
                            assert(spec_subtypes_upto(fv, i + 1) is Err);
                            lemma_subtypes_upto_err(fv, i + 1, fv.len() as int);
                        }
                        return Err(e);
                    },
                }
                proof {
                    let acc = spec_subtypes_upto(fv, i as int)->Ok_0;
                    let subs = spec_subtypes_upto(specs_deep(sub.0@), specs_deep(
                        sub.0@,
                    ).len() as int)->Ok_0;
                    assert(decls_view(items@) == mid2 + subs);
                    assert(mid2 == mid.push(DeclV::Struct(sdv)));
                    assert(spec_subtypes_upto(fv, i + 1) == Ok::<Seq<DeclV>, ConfigErrorV>(
                        acc.push(DeclV::Struct(sdv)) + subs,
                    ));
                    assert(base + acc.push(DeclV::Struct(sdv)) =~= (base + acc).push(
                        DeclV::Struct(sdv),
                    ));
                    assert(base + (acc.push(DeclV::Struct(sdv)) + subs) =~= (base + acc.push(
                        DeclV::Struct(sdv),
                    )) + subs);
                }
            },
            GenericSpec::EnumSpec(en) => {
                proof {
                    assert(fv[i as int].variant == GenericSpecV::EnumSpec(en.deep()));
                }
                if en.variants.len() > 0 {
                    let ed = generate_enum(field.field_type.as_str(), en);
                    let ghost mid = decls_view(items@);
                    let ghost edv = ed@;
                    items.push(Decl::Enum(ed));
                    proof {
                        assert(decls_view(items@) =~= mid.push(DeclV::Enum(edv)));
                        let acc = spec_subtypes_upto(fv, i as int)->Ok_0;
                        assert(spec_subtypes_upto(fv, i + 1) == Ok::<Seq<DeclV>, ConfigErrorV>(
                            acc.push(
                                DeclV::Enum(
                                    EnumDeclV {
                                        name: fv[i as int].field_type,
                                        variants: en.deep().variants,
                                    },
                                ),
                            ),
                        ));
                    }
                } else {
                    proof {
                        assert(strings_view(en.variants@).len() == 0);
                        assert(spec_subtypes_upto(fv, i + 1) == spec_subtypes_upto(fv, i as int));
                    }
                }
            },
            _ => {
                proof {
                    assert(spec_subtypes_upto(fv, i + 1) == spec_subtypes_upto(fv, i as int));
                }
            },
        }
        i += 1;
    }
    Ok(())
}

/// The rendered text of one binding attribute.
pub open spec fn render_attr_text(a: ArgAttrV) -> Seq<char> {
    match a {
        ArgAttrV::Help(s) => "help = "@ + quoted_str(s),
        ArgAttrV::Id(s) => "id = "@ + quoted_str(s),
        ArgAttrV::DefaultValue(s) => "default_value = "@ + quoted_str(s),
        ArgAttrV::DefaultValueTyped(s) => "default_value_t = "@ + s,
        ArgAttrV::DefaultValuesTyped(s) => "default_values_t = "@ + s,
        ArgAttrV::Env(s) => "env = "@ + quoted_str(s),
        ArgAttrV::ValueDelimiter(c) => "value_delimiter = "@ + quoted_char(c),
        ArgAttrV::Long(s) => "long = "@ + quoted_str(s),
        ArgAttrV::Short(c) => "short = "@ + quoted_char(c),
        ArgAttrV::ValueEnum => "value_enum"@,
    }
}

/// Renders one binding attribute.
pub fn render_attr(a: &ArgAttr) -> (r: String)
    ensures
        r@ == render_attr_text(a@),
{
    match a {
        ArgAttr::Help(s) => concat_strs("help = ", quote_str(s.as_str()).as_str()),
        ArgAttr::Id(s) => concat_strs("id = ", quote_str(s.as_str()).as_str()),
        ArgAttr::DefaultValue(s) => concat_strs("default_value = ", quote_str(s.as_str()).as_str()),
        ArgAttr::DefaultValueTyped(s) => concat_strs("default_value_t = ", s.as_str()),
        ArgAttr::DefaultValuesTyped(s) => concat_strs("default_values_t = ", s.as_str()),
        ArgAttr::Env(s) => concat_strs("env = ", quote_str(s.as_str()).as_str()),
        ArgAttr::ValueDelimiter(c0) => {
            let c = chr_id(*c0);
            concat_strs("value_delimiter = ", quote_char(c).as_str())
        },
        ArgAttr::Long(s) => concat_strs("long = ", quote_str(s.as_str()).as_str()),
        ArgAttr::Short(c0) => {
            let c = chr_id(*c0);
            concat_strs("short = ", quote_char(c).as_str())
        },
        ArgAttr::ValueEnum => String::from_str("value_enum"),
    }
}

/// The comma-joined rendering of the first `n` binding attributes.
pub open spec fn render_attrs_text(args: Seq<ArgAttrV>, n: int) -> Seq<char>
    decreases n,
{
    if n <= 0 || n > args.len() {
        Seq::empty()
    } else if n == 1 {
        render_attr_text(args[0])
    } else {
        render_attrs_text(args, n - 1) + ", "@ + render_attr_text(args[n - 1])
    }
}

/// Renders the comma-joined attribute list.
#[verifier::loop_isolation(false)]
pub fn render_attrs(args: &Vec<ArgAttr>) -> (r: String)
    ensures
        r@ == render_attrs_text(attrs_view(args@), args@.len() as int),
{
    let ghost av = attrs_view(args@);
    let mut r = String::new();
    let n = args.len();
    let mut i: usize = 0;
    while i < n
        invariant
            0 <= i <= n,
            r@ == render_attrs_text(av, i as int),
        decreases n - i,
    {
        proof {
            assert(av[i as int] == args@[i as int]@);
        }
        let piece = render_attr(&args[i]);
        if i == 0 {
            r = piece;
        } else {
            r.append(", ");
            r.append(piece.as_str());
        }
        i += 1;
    }
    r
}

/// The rendered text of one generated field: its documentation, its
/// attribute line (bindings, or the flatten marker), and its declaration,
/// wrapped as optional when the field may be absent.
pub open spec fn render_field_text(f: FieldDeclV) -> Seq<char> {
    (match f.doc {
        Some(d) => "    #[doc = "@ + quoted_str(d) + "]\n"@,
        None => Seq::empty(),
    }) + (if f.flatten {
        "    #[command(flatten)]\n"@
    } else {
        "    #[arg("@ + render_attrs_text(f.args, f.args.len() as int) + ")]\n"@
    }) + "    pub "@ + f.name + ": "@ + (if f.optional {
        "Option<"@ + f.field_type + ">"@
    } else {
        f.field_type
    }) + ",\n"@
}

/// Renders one generated field.
pub fn render_field(f: &FieldDecl) -> (r: String)
    ensures
        r@ == render_field_text(f@),
{
    let doc_part = match &f.doc {
        Some(d) => {
            let q = quote_str(d.as_str());
            let a = concat_strs("    #[doc = ", q.as_str());
            concat_strs(a.as_str(), "]\n")
        },
        None => String::new(),
    };
    let attr_part = if f.flatten {
        String::from_str("    #[command(flatten)]\n")
    } else {
        let inner = render_attrs(&f.args);
        let a = concat_strs("    #[arg(", inner.as_str());
        concat_strs(a.as_str(), ")]\n")
    };
    let ty_part = if f.optional {
        let a = concat_strs("Option<", f.field_type.as_str());
        concat_strs(a.as_str(), ">")
    } else {
        f.field_type.clone()
    };
    let mut r = doc_part;
    r.append(attr_part.as_str());
    r.append("    pub ");
    r.append(f.name.as_str());
    r.append(": ");
    r.append(ty_part.as_str());
    r.append(",\n");
    proof {
        assert(r@ == render_field_text(f@));
    }
    r
}

/// The concatenated rendering of the first `n` generated fields.
pub open spec fn render_fields_text(fields: Seq<FieldDeclV>, n: int) -> Seq<char>
    decreases n,
{
    if n <= 0 || n > fields.len() {
        Seq::empty()
    } else {
        render_fields_text(fields, n - 1) + render_field_text(fields[n - 1])
    }
}

/// Renders the fields of an aggregate declaration.
#[verifier::loop_isolation(false)]
pub fn render_fields(fields: &Vec<FieldDecl>) -> (r: String)
    ensures
        r@ == render_fields_text(fdecls_view(fields@), fields@.len() as int),
{
    let ghost fv = fdecls_view(fields@);
    let mut r = String::new();
    let n = fields.len();
    let mut i: usize = 0;
    while i < n
        invariant
            0 <= i <= n,
            r@ == render_fields_text(fv, i as int),
        decreases n - i,
    {
        proof {
            assert(fv[i as int] == fields@[i as int]@);
        }
        let piece = render_field(&fields[i]);
        r.append(piece.as_str());
        i += 1;
    }
    r
}

/// The rendered text of an aggregate declaration.
pub open spec fn render_struct_text(sd: StructDeclV) -> Seq<char> {
    "#[derive(Debug, Clone, PartialEq, Parser)]\npub struct "@ + sd.name + " {\n"@
        + render_fields_text(sd.fields, sd.fields.len() as int) + "}\n"@
}

/// Renders an aggregate declaration.
pub fn render_struct(sd: &StructDecl) -> (r: String)
    ensures
        r@ == render_struct_text(sd@),
{
    let mut r = String::from_str("#[derive(Debug, Clone, PartialEq, Parser)]\npub struct ");
    r.append(sd.name.as_str());
    r.append(" {\n");
    let body = render_fields(&sd.fields);
    r.append(body.as_str());
    r.append("}\n");
    r
}

/// The rendering of the first `n` variant names, one line each, kept
/// verbatim.
pub open spec fn render_variants_text(vs: Seq<Seq<char>>, n: int) -> Seq<char>
    decreases n,
{
    if n <= 0 || n > vs.len() {
        Seq::empty()
    } else {
        render_variants_text(vs, n - 1) + "    "@ + vs[n - 1] + ",\n"@
    }
}

/// Renders the variant lines of an enumerated-type declaration.
#[verifier::loop_isolation(false)]
pub fn render_variants(vs: &Vec<String>) -> (r: String)
    ensures
        r@ == render_variants_text(strings_view(vs@), vs@.len() as int),
{
    let ghost sv = strings_view(vs@);
    let mut r = String::new();
    let n = vs.len();
    let mut i: usize = 0;
    while i < n
        invariant
            0 <= i <= n,
            r@ == render_variants_text(sv, i as int),
        decreases n - i,
    {
        proof {
            assert(sv[i as int] == vs@[i as int]@);
        }
        r.append("    ");
        r.append(vs[i].as_str());
        r.append(",\n");
        i += 1;
    }
    r
}

/// The rendered text of an enumerated-type declaration.
pub open spec fn render_enum_text(ed: EnumDeclV) -> Seq<char> {
    "#[derive(Debug, Clone, PartialEq, Eq, PartialOrd, Ord, ValueEnum)]\n#[clap(rename_all = \"verbatim\")]\npub enum "@
        + ed.name + " {\n"@ + render_variants_text(ed.variants, ed.variants.len() as int) + "}\n"@
}

/// Renders an enumerated-type declaration.
pub fn render_enum(ed: &EnumDecl) -> (r: String)
    ensures
        r@ == render_enum_text(ed@),
{
    let mut r = String::from_str(
        "#[derive(Debug, Clone, PartialEq, Eq, PartialOrd, Ord, ValueEnum)]\n#[clap(rename_all = \"verbatim\")]\npub enum ",
    );
    r.append(ed.name.as_str());
    r.append(" {\n");
    let body = render_variants(&ed.variants);
    r.append(body.as_str());
    r.append("}\n");
    r
}

/// The rendered text of one declaration.
pub open spec fn render_decl_text(d: DeclV) -> Seq<char> {
    match d {
        DeclV::Struct(sd) => render_struct_text(sd),
        DeclV::Enum(ed) => render_enum_text(ed),
    }
}

/// Renders one declaration.
pub fn render_decl(d: &Decl) -> (r: String)
    ensures
        r@ == render_decl_text(d@),
{
    match d {
        Decl::Struct(sd) => render_struct(sd),
        Decl::Enum(ed) => render_enum(ed),
    }
}

/// The rendering of the first `n` declarations, a blank line after each.
pub open spec fn render_decls_text(ds: Seq<DeclV>, n: int) -> Seq<char>
    decreases n,
{
    if n <= 0 || n > ds.len() {
        Seq::empty()
    } else {
        render_decls_text(ds, n - 1) + render_decl_text(ds[n - 1]) + "\n"@
    }
}

/// Renders a list of declarations.
#[verifier::loop_isolation(false)]
pub fn render_decls(ds: &Vec<Decl>) -> (r: String)
    ensures
        r@ == render_decls_text(decls_view(ds@), ds@.len() as int),
{
    let ghost dv = decls_view(ds@);
    let mut r = String::new();
    let n = ds.len();
    let mut i: usize = 0;
    while i < n
        invariant
            0 <= i <= n,
            r@ == render_decls_text(dv, i as int),
        decreases n - i,
    {
        proof {
            assert(dv[i as int] == ds@[i as int]@);
        }
        let piece = render_decl(&ds[i]);
        r.append(piece.as_str());
        r.append("\n");
        i += 1;
    }
    r
}

/// All declarations generated from a specification tree: the main
/// aggregate, then every nested struct and enum in pre-order.
pub open spec fn spec_generate_decls(fields: Seq<SpecV>, name: Seq<char>) -> Result<
    Seq<DeclV>,
    ConfigErrorV,
> {
    match spec_single_struct(name, fields) {
        Err(e) => Err(e),
        Ok(main) => match spec_subtypes_upto(fields, fields.len() as int) {
            Err(e) => Err(e),
            Ok(rest) => Ok(seq![DeclV::Struct(main)] + rest),
        },
    }
}

/// The rendered module around the generated declarations: a module named
/// after the aggregate in lower case, the declarations, parse helpers for
/// the aggregate, and the re-exports.
pub open spec fn spec_module_text(decls: Seq<DeclV>, name: Seq<char>, export: bool) -> Seq<char> {
    "pub mod "@ + crate::text::lower_of(name) + " {\nuse clap::{Parser, ValueEnum};\n\n"@
        + render_decls_text(decls, decls.len() as int) + "impl "@ + name
        + " {\n    pub fn parse() -> Self {\n        <Self as Parser>::parse()\n    }\n\n    pub fn try_parse() -> Result<Self, clap::Error> {\n        <Self as Parser>::try_parse()\n    }\n\n    pub fn parse_from<I, T>(itr: I) -> Self\n    where\n        I: IntoIterator<Item = T>,\n        T: Into<std::ffi::OsString> + Clone,\n    {\n        <Self as Parser>::parse_from(itr)\n    }\n}\n}\npub use "@
        + crate::text::lower_of(name) + "::"@ + name + ";\n"@ + (if export {
        "pub use "@ + crate::text::lower_of(name) + "::*;\n"@
    } else {
        Seq::empty()
    })
}

/// Generates the full module text for a specification tree: the aggregate,
/// its nested structs and enums, the parse helpers and the re-exports.
pub fn generate_struct(config_spec: &crate::ConfigSpec, struct_name: &str, export: bool) -> (res:
    Result<String, ConfigError>)
    ensures
        match res {
            Ok(s) => spec_generate_decls(config_spec@, struct_name@) is Ok && s@
                == spec_module_text(
                spec_generate_decls(config_spec@, struct_name@)->Ok_0,
                struct_name@,
                export,
            ),
            Err(e) => spec_generate_decls(config_spec@, struct_name@) == Err::<
                Seq<DeclV>,
                ConfigErrorV,
            >(e@),
        },
{
    let main = match generate_single_struct(struct_name, &config_spec.fields) {
        Ok(sd) => sd,
        Err(e) => {
            return Err(e);
        },
    };
    let mut items: Vec<Decl> = Vec::new();
    let ghost mainv = main@;
    items.push(Decl::Struct(main));
    proof {
        assert(decls_view(items@) =~= seq![DeclV::Struct(mainv)]);
    }
    match collect_subtypes(&config_spec.fields, &mut items) {
        Ok(_) => {},
        Err(e) => {
            return Err(e);
        },
    }
    proof {
        assert(decls_view(items@) == seq![DeclV::Struct(mainv)] + spec_subtypes_upto(
            config_spec@,
            config_spec@.len() as int,
        )->Ok_0);
    }
    let body = render_decls(&items);
    let modname = crate::text::lowercase(struct_name);
    let mut r = String::from_str("pub mod ");
    r.append(modname.as_str());
    r.append(" {\nuse clap::{Parser, ValueEnum};\n\n");
    r.append(body.as_str());
    r.append("impl ");
    r.append(struct_name);
    r.append(
        " {\n    pub fn parse() -> Self {\n        <Self as Parser>::parse()\n    }\n\n    pub fn try_parse() -> Result<Self, clap::Error> {\n        <Self as Parser>::try_parse()\n    }\n\n    pub fn parse_from<I, T>(itr: I) -> Self\n    where\n        I: IntoIterator<Item = T>,\n        T: Into<std::ffi::OsString> + Clone,\n    {\n        <Self as Parser>::parse_from(itr)\n    }\n}\n}\npub use ",
    );
    r.append(modname.as_str());
    r.append("::");
    r.append(struct_name);
    r.append(";\n");
    if export {
        r.append("pub use ");
        r.append(modname.as_str());
        r.append("::*;\n");
    }
    Ok(r)
}

} // verus!
