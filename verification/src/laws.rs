//! The general properties of resolution and generation, stated and proved
//! over the specification functions that the executable contracts use.

use vstd::prelude::*;

use crate::ast::{GenericSpecV, SpecV};
use crate::codegen::{
    decode_elem, decode_elems, lemma_decode_elems_err, spec_field_decl, spec_generate_decls,
    spec_module_text, DeclV, ElemKind,
};
use crate::errors::ConfigErrorV;
use crate::text::int_text;
use crate::value::{table_wf, tbl_get_str, value_wf, TableV, ValueV};
use crate::{
    is_reserved_key, join_id, short_of, spec_children_upto, spec_resolve_doc, spec_resolve_doc_upto,
    spec_resolve_field,
};

verus! {

/// Determinism: resolution and generation are functions of the parsed
/// document alone, so two resolutions of the same document yield the same
/// specification tree, the same declarations, and the same rendered text.
pub proof fn lemma_resolution_deterministic(
    t: TableV,
    r1: Seq<SpecV>,
    r2: Seq<SpecV>,
    name: Seq<char>,
    export: bool,
)
    requires
        spec_resolve_doc(t) == Ok::<Seq<SpecV>, ConfigErrorV>(r1),
        spec_resolve_doc(t) == Ok::<Seq<SpecV>, ConfigErrorV>(r2),
    ensures
        r1 == r2,
        spec_generate_decls(r1, name) == spec_generate_decls(r2, name),
        spec_generate_decls(r1, name) matches Ok(d1) ==> spec_module_text(d1, name, export)
            == spec_module_text(spec_generate_decls(r2, name)->Ok_0, name, export),
{
}

/// Priority order, first half: when a table carries a string `type` tag,
/// the field never resolves as an enumeration, whatever else the table
/// holds.
pub proof fn lemma_type_beats_enum(name: Seq<char>, t: TableV, parent: Option<Seq<char>>)
    requires
        tbl_get_str(t, "type"@) is Some,
    ensures
        spec_resolve_field(name, t, parent) matches Ok(s) ==> !(s.variant is EnumSpec),
{
}

/// Priority order, second half: when a table carries no string `type` tag
/// but a string `enum` tag, the field resolves as an enumeration even when
/// sub-tables are present: explicit signals beat structural inference.
pub proof fn lemma_enum_beats_nesting(name: Seq<char>, t: TableV, parent: Option<Seq<char>>)
    requires
        tbl_get_str(t, "type"@) is None,
        tbl_get_str(t, "enum"@) is Some,
    ensures
        spec_resolve_field(name, t, parent) matches Ok(s) ==> s.variant is EnumSpec,
{
}

/// Entries that are reserved keys or are not tables never become children.
pub proof fn lemma_children_empty(t: TableV, id: Seq<char>, n: int)
    requires
        0 <= n <= t.len(),
        forall|i: int|
            0 <= i < t.len() ==> (is_reserved_key(#[trigger] t[i].0) || !(t[i].1 is Table)),
    ensures
        spec_children_upto(t, n, id) == Ok::<Seq<SpecV>, ConfigErrorV>(Seq::<SpecV>::empty()),
    decreases n,
{
    if n > 0 {
        lemma_children_empty(t, id, n - 1);
    }
}

/// Reserved-key exclusion: a table holding only reserved keys produces no
/// child fields, so it never resolves as a nested composite type.
pub proof fn lemma_reserved_keys_excluded(name: Seq<char>, t: TableV, parent: Option<Seq<char>>)
    requires
        forall|i: int| 0 <= i < t.len() ==> is_reserved_key(#[trigger] t[i].0),
    ensures
        spec_children_upto(t, t.len() as int, join_id(parent, name)) == Ok::<
            Seq<SpecV>,
            ConfigErrorV,
        >(Seq::<SpecV>::empty()),
        spec_resolve_field(name, t, parent) matches Ok(s) ==> !(s.variant is SubtypeSpec),
{
    lemma_children_empty(t, join_id(parent, name), t.len() as int);
}

/// Short-flag validation: a one-character `short` value is taken verbatim;
/// a value of any other length, or of another shape, silently means no
/// short flag, never an error.
pub proof fn lemma_short_flag(t: TableV)
    ensures
        (tbl_get_str(t, "short"@) is Some && tbl_get_str(t, "short"@)->0.len() == 1) ==> short_of(t)
            == Some(tbl_get_str(t, "short"@)->0[0]),
        (tbl_get_str(t, "short"@) is Some && tbl_get_str(t, "short"@)->0.len() != 1) ==> short_of(t)
            is None,
        tbl_get_str(t, "short"@) is None ==> short_of(t) is None,
{
}

/// A field table with no `type` tag, no `enum` tag and no sub-tables
/// resolves to a native text leaf.
pub proof fn lemma_default_text_leaf(name: Seq<char>, t: TableV, parent: Option<Seq<char>>)
    requires
        tbl_get_str(t, "type"@) is None,
        tbl_get_str(t, "enum"@) is None,
        forall|i: int|
            0 <= i < t.len() ==> (is_reserved_key(#[trigger] t[i].0) || !(t[i].1 is Table)),
    ensures
        spec_resolve_field(name, t, parent) is Ok,
        spec_resolve_field(name, t, parent)->Ok_0.field_type == "String"@,
        spec_resolve_field(name, t, parent)->Ok_0.variant is FieldSpec,
{
    lemma_children_empty(t, join_id(parent, name), t.len() as int);
}

/// Optionality propagation: the generated declaration of a field is marked
/// optional exactly when the field is, whatever its default; the renderer
/// then wraps exactly the optional declarations as "may be absent".
pub proof fn lemma_optional_propagates(s: SpecV)
    ensures
        spec_field_decl(s) matches Ok(fd) ==> fd.optional == s.optional,
{
}

/// Vector element coercion, first half: the default elements of an integer
/// vector all decode, to their decimal literals, in order.
pub proof fn lemma_int_vector_defaults(vs: Seq<ValueV>, n: int)
    requires
        0 <= n <= vs.len(),
        forall|i: int| 0 <= i < vs.len() ==> (#[trigger] vs[i]) is Int,
    ensures
        decode_elems(ElemKind::Integer, vs, n) matches Ok(parts) && parts.len() == n && (forall|
            i: int,
        |
            0 <= i < n ==> #[trigger] parts[i] == int_text(vs[i]->Int_0)),
    decreases n,
{
    if n > 0 {
        lemma_int_vector_defaults(vs, n - 1);
    }
}

/// Vector element coercion, second half: a string element in an integer
/// vector's default array is a fatal error.
pub proof fn lemma_int_vector_bad_element(vs: Seq<ValueV>, k: int)
    requires
        0 <= k < vs.len(),
        vs[k] is Str,
    ensures
        decode_elems(ElemKind::Integer, vs, vs.len() as int) is Err,
{
    if decode_elems(ElemKind::Integer, vs, k) is Err {
        lemma_decode_elems_err(ElemKind::Integer, vs, k, vs.len() as int);
    } else {
        assert(decode_elem(ElemKind::Integer, vs[k]) is Err);
        assert(decode_elems(ElemKind::Integer, vs, k + 1) is Err);
        lemma_decode_elems_err(ElemKind::Integer, vs, k + 1, vs.len() as int);
    }
}

/// A key that contains no path separator.
pub open spec fn key_dot_free(k: Seq<char>) -> bool {
    forall|i: int| 0 <= i < k.len() ==> k[i] != '.'
}

/// Whether every key of every table inside a value avoids the separator.
pub open spec fn value_keys_dot_free(v: ValueV) -> bool
    decreases v,
{
    match v {
        ValueV::Table(entries) => table_keys_dot_free(entries),
        _ => true,
    }
}

/// Whether every key of a table, recursively, avoids the separator.
pub open spec fn table_keys_dot_free(t: TableV) -> bool
    decreases t,
{
    &&& forall|i: int| 0 <= i < t.len() ==> key_dot_free((#[trigger] t[i]).0)
    &&& forall|i: int| 0 <= i < t.len() ==> value_keys_dot_free((#[trigger] t[i]).1)
}

/// The ids of a resolved field and all its descendants, in pre-order.
pub open spec fn ids_in(s: SpecV) -> Seq<Seq<char>>
    decreases s, 1int, 0int,
    via ids_in_decreases
{
    seq![s.id] + (match s.variant {
        GenericSpecV::SubtypeSpec(children) => ids_in_all(children, children.len() as int),
        _ => Seq::empty(),
    })
}

#[via_fn]
proof fn ids_in_decreases(s: SpecV) {
    match s.variant {
        GenericSpecV::SubtypeSpec(children) => {
            assert(decreases_to!(s => s.variant));
            assert(decreases_to!(s.variant => s.variant->SubtypeSpec_0));
        },
        _ => {},
    }
}

/// The ids of the first `n` resolved fields and their descendants.
pub open spec fn ids_in_all(fields: Seq<SpecV>, n: int) -> Seq<Seq<char>>
    decreases fields, 0int, n,
    via ids_in_all_decreases
{
    if n <= 0 || n > fields.len() {
        Seq::empty()
    } else {
        ids_in_all(fields, n - 1) + ids_in(fields[n - 1])
    }
}

#[via_fn]
proof fn ids_in_all_decreases(fields: Seq<SpecV>, n: int) {
    if 0 < n <= fields.len() {
        assert(decreases_to!(fields => fields[n - 1]));
    }
}

/// Whether one id lies inside the scope of another: it is the same id, or
/// it continues it with a separator.
pub open spec fn extends_id(x: Seq<char>, p: Seq<char>) -> bool {
    x == p || (x.len() > p.len() && x.subrange(0, p.len() as int) == p && x[p.len() as int] == '.')
}

/// A list without repetitions.
pub open spec fn distinct_seqs(xs: Seq<Seq<char>>) -> bool {
    forall|i: int, j: int| 0 <= i < j < xs.len() ==> xs[i] != xs[j]
}

/// Whether a field's id joins its parent's id with its name, recursively.
pub open spec fn paths_ok(s: SpecV, parent: Option<Seq<char>>) -> bool
    decreases s, 1int, 0int,
    via paths_ok_decreases
{
    &&& s.id == join_id(parent, s.name)
    &&& match s.variant {
        GenericSpecV::SubtypeSpec(children) => paths_ok_all(
            children,
            children.len() as int,
            Some(s.id),
        ),
        _ => true,
    }
}

#[via_fn]
proof fn paths_ok_decreases(s: SpecV, parent: Option<Seq<char>>) {
    match s.variant {
        GenericSpecV::SubtypeSpec(children) => {
            assert(decreases_to!(s => s.variant));
            assert(decreases_to!(s.variant => s.variant->SubtypeSpec_0));
        },
        _ => {},
    }
}

/// Whether the first `n` fields all have correct paths under one parent.
pub open spec fn paths_ok_all(fields: Seq<SpecV>, n: int, parent: Option<Seq<char>>) -> bool
    decreases fields, 0int, n,
    via paths_ok_all_decreases
{
    n <= 0 || n > fields.len() || (paths_ok_all(fields, n - 1, parent) && paths_ok(
        fields[n - 1],
        parent,
    ))
}

#[via_fn]
proof fn paths_ok_all_decreases(fields: Seq<SpecV>, n: int, parent: Option<Seq<char>>) {
    if 0 < n <= fields.len() {
        assert(decreases_to!(fields => fields[n - 1]));
    }
}

/// The length that a parent contributes to a joined id.
pub open spec fn base_len(parent: Option<Seq<char>>) -> int {
    match parent {
        None => 0int,
        Some(p) => p.len() as int + 1,
    }
}

/// A joined id is the parent's contribution followed by the name.
proof fn lemma_join_shape(parent: Option<Seq<char>>, name: Seq<char>)
    ensures
        join_id(parent, name).len() == base_len(parent) + name.len(),
        forall|i: int|
            0 <= i < name.len() ==> join_id(parent, name)[base_len(parent) + i] == name[i],
        parent matches Some(p) ==> extends_id(join_id(parent, name), p) && join_id(
            parent,
            name,
        ).len() > p.len(),
{
    reveal_strlit(".");
    match parent {
        None => {},
        Some(p) => {
            let q = p + "."@ + name;
            assert(q.len() == p.len() + 1 + name.len());
            assert forall|i: int| 0 <= i < name.len() implies q[base_len(parent) + i]
                == name[i] by {}
            assert(q.subrange(0, p.len() as int) =~= p);
            assert(q[p.len() as int] == '.');
        },
    }
}

/// Scope containment is transitive.
proof fn lemma_extends_trans(x: Seq<char>, c: Seq<char>, p: Seq<char>)
    requires
        extends_id(x, c),
        extends_id(c, p),
    ensures
        extends_id(x, p),
{
    if x != c && c != p {
        assert(x.subrange(0, p.len() as int) =~= p) by {
            assert forall|i: int| 0 <= i < p.len() implies x[i] == p[i] by {
                assert(x.subrange(0, c.len() as int)[i] == x[i]);
                assert(c.subrange(0, p.len() as int)[i] == c[i]);
            }
        }
        assert(x[p.len() as int] == c[p.len() as int]) by {
            assert(x.subrange(0, c.len() as int)[p.len() as int] == x[p.len() as int]);
        }
    }
}

/// Two dot-free names under one parent whose scopes share an id are the
/// same name: sibling scopes are disjoint.
proof fn lemma_sibling_separation(
    parent: Option<Seq<char>>,
    a: Seq<char>,
    b: Seq<char>,
    x: Seq<char>,
)
    requires
        key_dot_free(a),
        key_dot_free(b),
        extends_id(x, join_id(parent, a)),
        extends_id(x, join_id(parent, b)),
    ensures
        a == b,
    decreases (if a.len() > b.len() {
        1int
    } else {
        0int
    }),
{
    if a.len() > b.len() {
        lemma_sibling_separation(parent, b, a, x);
    } else {
        lemma_join_shape(parent, a);
        lemma_join_shape(parent, b);
        let qa = join_id(parent, a);
        let qb = join_id(parent, b);
        let base = base_len(parent);
        if a.len() == b.len() {
            // both scopes start x the same way, so the names coincide
            assert(qa =~= qb) by {
                if x == qa {
                    assert(x == qb) by {
                        if x != qb {
                            assert(x.len() > qb.len());
                        }
                    }
                } else {
                    assert(x.len() > qa.len() && x.len() > qb.len());
                    assert forall|i: int| 0 <= i < qa.len() implies qa[i] == qb[i] by {
                        assert(x.subrange(0, qa.len() as int)[i] == x[i]);
                        assert(x.subrange(0, qb.len() as int)[i] == x[i]);
                    }
                }
            }
            assert(a =~= b) by {
                assert forall|i: int| 0 <= i < a.len() implies a[i] == b[i] by {
                    assert(qa[base + i] == a[i]);
                    assert(qb[base + i] == b[i]);
                }
            }
        } else {
            // the shorter scope ends where a separator would have to sit
            // inside the longer name, which is dot-free
            assert(x != qa) by {
                if x == qa {
                    if x == qb {
                    } else {
                        assert(x.len() > qb.len());
                    }
                }
            }
            assert(x[qa.len() as int] == '.');
            let k = qa.len() as int;
            assert(qb[k] == '.') by {
                if x == qb {
                } else {
                    assert(x.subrange(0, qb.len() as int)[k] == x[k]);
                }
            }
            assert(qb[base + a.len()] == b[a.len() as int]);
            assert(b[a.len() as int] != '.');
        }
    }
}

/// Concatenating lists without repetitions and without common entries
/// yields a list without repetitions.
proof fn lemma_distinct_concat(xs: Seq<Seq<char>>, ys: Seq<Seq<char>>)
    requires
        distinct_seqs(xs),
        distinct_seqs(ys),
        forall|p: int, q: int| 0 <= p < xs.len() && 0 <= q < ys.len() ==> xs[p] != ys[q],
    ensures
        distinct_seqs(xs + ys),
{
    assert forall|i: int, j: int| 0 <= i < j < (xs + ys).len() implies (xs + ys)[i] != (xs
        + ys)[j] by {
        if j < xs.len() {
        } else if i >= xs.len() {
            assert((xs + ys)[i] == ys[i - xs.len()]);
            assert((xs + ys)[j] == ys[j - xs.len()]);
        } else {
            assert((xs + ys)[i] == xs[i]);
            assert((xs + ys)[j] == ys[j - xs.len()]);
        }
    }
}

/// `ids_in_all` over a prefix ignores an appended field.
proof fn lemma_ids_in_all_push(cs: Seq<SpecV>, c: SpecV, k: int)
    requires
        0 <= k <= cs.len(),
    ensures
        ids_in_all(cs.push(c), k) == ids_in_all(cs, k),
    decreases k,
{
    if k > 0 {
        lemma_ids_in_all_push(cs, c, k - 1);
        assert(cs.push(c)[k - 1] == cs[k - 1]);
    }
}

/// `paths_ok_all` over a prefix ignores an appended field.
proof fn lemma_paths_ok_all_push(cs: Seq<SpecV>, c: SpecV, k: int, parent: Option<Seq<char>>)
    requires
        0 <= k <= cs.len(),
    ensures
        paths_ok_all(cs.push(c), k, parent) == paths_ok_all(cs, k, parent),
    decreases k,
{
    if k > 0 {
        lemma_paths_ok_all_push(cs, c, k - 1, parent);
        assert(cs.push(c)[k - 1] == cs[k - 1]);
    }
}

/// The ids inside one resolved field all lie in its scope, without
/// repetition.
pub open spec fn subtree_ids_ok(s: SpecV) -> bool {
    &&& forall|q: int|
        0 <= q < ids_in(s).len() ==> extends_id(#[trigger] ids_in(s)[q], s.id)
    &&& distinct_seqs(ids_in(s))
}

/// What holds of the children resolved from the first `n` entries of a
/// well-formed table: correct paths, dot-free names taken from distinct
/// keys, and ids that lie in the parent scope, pairwise distinct.
pub open spec fn children_ids_ok(cs: Seq<SpecV>, t: TableV, n: int, id: Seq<char>) -> bool {
    &&& paths_ok_all(cs, cs.len() as int, Some(id))
    &&& forall|i: int| 0 <= i < cs.len() ==> key_dot_free((#[trigger] cs[i]).name)
    &&& forall|i: int|
        0 <= i < cs.len() ==> (#[trigger] cs[i]).id == join_id(Some(id), cs[i].name)
    &&& forall|i: int, j: int|
        0 <= i < j < cs.len() ==> (#[trigger] cs[i]).name != (#[trigger] cs[j]).name
    &&& forall|i: int|
        0 <= i < cs.len() ==> exists|k: int| 0 <= k < n && (#[trigger] cs[i]).name == t[k].0
    &&& forall|q: int|
        0 <= q < ids_in_all(cs, cs.len() as int).len() ==> extends_id(
            #[trigger] ids_in_all(cs, cs.len() as int)[q],
            id,
        ) && ids_in_all(cs, cs.len() as int)[q].len() > id.len()
    &&& forall|q: int|
        0 <= q < ids_in_all(cs, cs.len() as int).len() ==> exists|i: int|
            0 <= i < cs.len() && extends_id(
                #[trigger] ids_in_all(cs, cs.len() as int)[q],
                cs[i].id,
            )
    &&& distinct_seqs(ids_in_all(cs, cs.len() as int))
}

/// Id uniqueness and path correctness for one resolved field: its id joins
/// the parent id with its name, its descendants' ids do the same under it,
/// every id in the subtree lies in its scope, and no id repeats.
pub proof fn lemma_resolve_ids(name: Seq<char>, t: TableV, parent: Option<Seq<char>>)
    requires
        table_wf(t),
        table_keys_dot_free(t),
        spec_resolve_field(name, t, parent) is Ok,
    ensures
        spec_resolve_field(name, t, parent)->Ok_0.id == join_id(parent, name),
        spec_resolve_field(name, t, parent)->Ok_0.name == name,
        paths_ok(spec_resolve_field(name, t, parent)->Ok_0, parent),
        subtree_ids_ok(spec_resolve_field(name, t, parent)->Ok_0),
    decreases t, 1int, 0int,
{
    let id = join_id(parent, name);
    let s = spec_resolve_field(name, t, parent)->Ok_0;
    lemma_children_ids(t, t.len() as int, id);
    let cs = spec_children_upto(t, t.len() as int, id)->Ok_0;
    let m = cs.len() as int;
    if s.variant is SubtypeSpec {
        assert(s.variant->SubtypeSpec_0 == cs);
        let inner = ids_in_all(cs, m);
        assert(ids_in(s) == seq![s.id] + inner);
        assert forall|q: int| 0 <= q < ids_in(s).len() implies extends_id(
            #[trigger] ids_in(s)[q],
            s.id,
        ) by {
            if q == 0 {
                assert(ids_in(s)[0] == s.id);
            } else {
                assert(ids_in(s)[q] == inner[q - 1]);
            }
        }
        assert(distinct_seqs(ids_in(s))) by {
            assert(distinct_seqs(seq![s.id]));
            assert forall|p: int, q: int|
                0 <= p < seq![s.id].len() && 0 <= q < inner.len() implies seq![s.id][p]
                != inner[q] by {
                assert(inner[q].len() > id.len());
            }
            lemma_distinct_concat(seq![s.id], inner);
        }
    } else {
        let inner = Seq::<Seq<char>>::empty();
        assert(ids_in(s) == seq![s.id] + inner);
        assert(ids_in(s) =~= seq![s.id]);
        assert forall|q: int| 0 <= q < ids_in(s).len() implies extends_id(
            #[trigger] ids_in(s)[q],
            s.id,
        ) by {
            assert(ids_in(s)[0] == s.id);
        }
    }
}

/// Id uniqueness and path correctness for the children of a table's first
/// `n` entries.
pub proof fn lemma_children_ids(t: TableV, n: int, id: Seq<char>)
    requires
        table_wf(t),
        table_keys_dot_free(t),
        0 <= n <= t.len(),
        spec_children_upto(t, n, id) is Ok,
    ensures
        children_ids_ok(spec_children_upto(t, n, id)->Ok_0, t, n, id),
    decreases t, 0int, n,
{
    if n <= 0 {
        let cs = spec_children_upto(t, n, id)->Ok_0;
        assert(cs.len() == 0);
        assert(ids_in_all(cs, 0).len() == 0);
    } else {
        lemma_children_ids(t, n - 1, id);
        let cs = spec_children_upto(t, n - 1, id)->Ok_0;
        let m = cs.len() as int;
        let key = t[n - 1].0;
        if !is_reserved_key(key) && t[n - 1].1 is Table {
            let sub = t[n - 1].1->Table_0;
            assert(decreases_to!(t => t[n - 1]));
            assert(decreases_to!(t[n - 1] => t[n - 1].1));
            assert(decreases_to!(t[n - 1].1 => t[n - 1].1->Table_0));
            assert(value_wf(t[n - 1].1));
            assert(table_wf(sub));
            assert(value_keys_dot_free(t[n - 1].1));
            assert(table_keys_dot_free(sub));
            lemma_resolve_ids(key, sub, Some(id));
            let c = spec_resolve_field(key, sub, Some(id))->Ok_0;
            let cs2 = cs.push(c);
            assert(spec_children_upto(t, n, id)->Ok_0 == cs2);
            lemma_join_shape(Some(id), key);
            lemma_ids_in_all_push(cs, c, m);
            lemma_paths_ok_all_push(cs, c, m, Some(id));
            let a = ids_in_all(cs, m);
            let b = ids_in(c);
            assert(ids_in_all(cs2, m + 1) == ids_in_all(cs2, m) + ids_in(cs2[m]));
            assert(cs2[m] == c);
            assert(ids_in_all(cs2, m + 1) == a + b);
            // every id of the new subtree lies strictly inside the parent scope
            assert forall|q: int| 0 <= q < b.len() implies extends_id(#[trigger] b[q], id)
                && b[q].len() > id.len() by {
                assert(extends_id(b[q], c.id));
                lemma_extends_trans(b[q], c.id, id);
                assert(b[q].len() >= c.id.len());
            }
            // paths stay correct with the new child appended
            assert(paths_ok_all(cs2, m + 1, Some(id)));
            // names: dot-free, drawn from distinct keys
            assert forall|i: int| 0 <= i < cs2.len() implies key_dot_free(
                (#[trigger] cs2[i]).name,
            ) by {
                if i < m {
                    assert(cs2[i] == cs[i]);
                } else {
                    assert(cs2[i] == c);
                }
            }
            assert forall|i: int| 0 <= i < cs2.len() implies (#[trigger] cs2[i]).id == join_id(
                Some(id),
                cs2[i].name,
            ) by {
                if i < m {
                    assert(cs2[i] == cs[i]);
                }
            }
            assert forall|i: int| 0 <= i < cs2.len() implies exists|k: int|
                0 <= k < n && (#[trigger] cs2[i]).name == t[k].0 by {
                if i < m {
                    assert(cs2[i] == cs[i]);
                    let k0 = choose|k: int| 0 <= k < n - 1 && cs[i].name == t[k].0;
                    assert(0 <= k0 < n && cs2[i].name == t[k0].0);
                } else {
                    assert(cs2[i].name == t[n - 1].0);
                }
            }
            assert forall|i: int, j: int| 0 <= i < j < cs2.len() implies (
            #[trigger] cs2[i]).name != (#[trigger] cs2[j]).name by {
                if j < m {
                    assert(cs2[i] == cs[i] && cs2[j] == cs[j]);
                } else {
                    assert(cs2[i] == cs[i] && cs2[j] == c);
                    let k0 = choose|k: int| 0 <= k < n - 1 && cs[i].name == t[k].0;
                    assert(t[k0].0 != t[n - 1].0);
                }
            }
            // the new subtree shares no id with the older ones
            assert forall|p: int, q: int| 0 <= p < a.len() && 0 <= q < b.len() implies a[p]
                != b[q] by {
                if a[p] == b[q] {
                    let i0 = choose|i: int| 0 <= i < m && extends_id(a[p], cs[i].id);
                    assert(extends_id(b[q], c.id));
                    lemma_sibling_separation(Some(id), cs[i0].name, c.name, a[p]);
                    let k0 = choose|k: int| 0 <= k < n - 1 && cs[i0].name == t[k].0;
                    assert(t[k0].0 != t[n - 1].0);
                    assert(false);
                }
            }
            lemma_distinct_concat(a, b);
            // each id still lies in the scope of one of the children
            assert forall|q: int| 0 <= q < ids_in_all(cs2, m + 1).len() implies exists|i: int|
                0 <= i < cs2.len() && extends_id(
                    #[trigger] ids_in_all(cs2, m + 1)[q],
                    cs2[i].id,
                ) by {
                if q < a.len() {
                    assert(ids_in_all(cs2, m + 1)[q] == a[q]);
                    let i0 = choose|i: int| 0 <= i < m && extends_id(a[q], cs[i].id);
                    assert(cs2[i0] == cs[i0]);
                    assert(0 <= i0 < cs2.len() && extends_id(ids_in_all(cs2, m + 1)[q], cs2[i0].id));
                } else {
                    assert(ids_in_all(cs2, m + 1)[q] == b[q - a.len()]);
                    assert(extends_id(b[q - a.len()], c.id));
                    assert(cs2[m] == c);
                    assert(0 <= m < cs2.len() && extends_id(ids_in_all(cs2, m + 1)[q], cs2[m].id));
                }
            }
            assert forall|q: int| 0 <= q < ids_in_all(cs2, m + 1).len() implies extends_id(
                #[trigger] ids_in_all(cs2, m + 1)[q],
                id,
            ) && ids_in_all(cs2, m + 1)[q].len() > id.len() by {
                if q < a.len() {
                    assert(ids_in_all(cs2, m + 1)[q] == a[q]);
                } else {
                    assert(ids_in_all(cs2, m + 1)[q] == b[q - a.len()]);
                }
            }
        } else {
            assert(spec_children_upto(t, n, id)->Ok_0 == cs);
            assert forall|i: int| 0 <= i < cs.len() implies exists|k: int|
                0 <= k < n && (#[trigger] cs[i]).name == t[k].0 by {
                let k0 = choose|k: int| 0 <= k < n - 1 && cs[i].name == t[k].0;
                assert(0 <= k0 < n && cs[i].name == t[k0].0);
            }
        }
    }
}

/// What holds of the root fields resolved from the first `n` top-level
/// entries of a well-formed document: correct paths, dot-free names taken
/// from distinct keys, and pairwise distinct ids across all subtrees.
pub open spec fn root_ids_ok(cs: Seq<SpecV>, t: TableV, n: int) -> bool {
    &&& paths_ok_all(cs, cs.len() as int, None)
    &&& forall|i: int| 0 <= i < cs.len() ==> key_dot_free((#[trigger] cs[i]).name)
    &&& forall|i: int| 0 <= i < cs.len() ==> (#[trigger] cs[i]).id == cs[i].name
    &&& forall|i: int, j: int|
        0 <= i < j < cs.len() ==> (#[trigger] cs[i]).name != (#[trigger] cs[j]).name
    &&& forall|i: int|
        0 <= i < cs.len() ==> exists|k: int| 0 <= k < n && (#[trigger] cs[i]).name == t[k].0
    &&& forall|q: int|
        0 <= q < ids_in_all(cs, cs.len() as int).len() ==> exists|i: int|
            0 <= i < cs.len() && extends_id(
                #[trigger] ids_in_all(cs, cs.len() as int)[q],
                cs[i].id,
            )
    &&& distinct_seqs(ids_in_all(cs, cs.len() as int))
}

/// Id uniqueness and path correctness for the root fields resolved from
/// the first `n` top-level entries.
pub proof fn lemma_doc_ids(t: TableV, n: int)
    requires
        table_wf(t),
        table_keys_dot_free(t),
        0 <= n <= t.len(),
        spec_resolve_doc_upto(t, n) is Ok,
    ensures
        root_ids_ok(spec_resolve_doc_upto(t, n)->Ok_0, t, n),
    decreases n,
{
    if n <= 0 {
        let cs = spec_resolve_doc_upto(t, n)->Ok_0;
        assert(cs.len() == 0);
        assert(ids_in_all(cs, 0).len() == 0);
    } else {
        lemma_doc_ids(t, n - 1);
        let cs = spec_resolve_doc_upto(t, n - 1)->Ok_0;
        let m = cs.len() as int;
        let key = t[n - 1].0;
        if t[n - 1].1 is Table {
            let sub = t[n - 1].1->Table_0;
            assert(value_wf(t[n - 1].1));
            assert(table_wf(sub));
            assert(value_keys_dot_free(t[n - 1].1));
            assert(table_keys_dot_free(sub));
            lemma_resolve_ids(key, sub, None);
            let c = spec_resolve_field(key, sub, None)->Ok_0;
            let cs2 = cs.push(c);
            assert(spec_resolve_doc_upto(t, n)->Ok_0 == cs2);
            lemma_ids_in_all_push(cs, c, m);
            lemma_paths_ok_all_push(cs, c, m, None);
            let a = ids_in_all(cs, m);
            let b = ids_in(c);
            assert(ids_in_all(cs2, m + 1) == ids_in_all(cs2, m) + ids_in(cs2[m]));
            assert(cs2[m] == c);
            assert(ids_in_all(cs2, m + 1) == a + b);
            assert(paths_ok_all(cs2, m + 1, None));
            assert forall|i: int| 0 <= i < cs2.len() implies key_dot_free(
                (#[trigger] cs2[i]).name,
            ) by {
                if i < m {
                    assert(cs2[i] == cs[i]);
                } else {
                    assert(cs2[i] == c);
                }
            }
            assert forall|i: int| 0 <= i < cs2.len() implies (#[trigger] cs2[i]).id
                == cs2[i].name by {
                if i < m {
                    assert(cs2[i] == cs[i]);
                }
            }
            assert forall|i: int| 0 <= i < cs2.len() implies exists|k: int|
                0 <= k < n && (#[trigger] cs2[i]).name == t[k].0 by {
                if i < m {
                    assert(cs2[i] == cs[i]);
                    let k0 = choose|k: int| 0 <= k < n - 1 && cs[i].name == t[k].0;
                    assert(0 <= k0 < n && cs2[i].name == t[k0].0);
                } else {
                    assert(cs2[i].name == t[n - 1].0);
                }
            }
            assert forall|i: int, j: int| 0 <= i < j < cs2.len() implies (
            #[trigger] cs2[i]).name != (#[trigger] cs2[j]).name by {
                if j < m {
                    assert(cs2[i] == cs[i] && cs2[j] == cs[j]);
                } else {
                    assert(cs2[i] == cs[i] && cs2[j] == c);
                    let k0 = choose|k: int| 0 <= k < n - 1 && cs[i].name == t[k].0;
                    assert(t[k0].0 != t[n - 1].0);
                }
            }
            assert forall|p: int, q: int| 0 <= p < a.len() && 0 <= q < b.len() implies a[p]
                != b[q] by {
                if a[p] == b[q] {
                    let i0 = choose|i: int| 0 <= i < m && extends_id(a[p], cs[i].id);
                    assert(extends_id(b[q], c.id));
                    lemma_sibling_separation(None, cs[i0].name, c.name, a[p]);
                    let k0 = choose|k: int| 0 <= k < n - 1 && cs[i0].name == t[k].0;
                    assert(t[k0].0 != t[n - 1].0);
                    assert(false);
                }
            }
            lemma_distinct_concat(a, b);
            assert forall|q: int| 0 <= q < ids_in_all(cs2, m + 1).len() implies exists|i: int|
                0 <= i < cs2.len() && extends_id(
                    #[trigger] ids_in_all(cs2, m + 1)[q],
                    cs2[i].id,
                ) by {
                if q < a.len() {
                    assert(ids_in_all(cs2, m + 1)[q] == a[q]);
                    let i0 = choose|i: int| 0 <= i < m && extends_id(a[q], cs[i].id);
                    assert(cs2[i0] == cs[i0]);
                    assert(0 <= i0 < cs2.len() && extends_id(ids_in_all(cs2, m + 1)[q], cs2[i0].id));
                } else {
                    assert(ids_in_all(cs2, m + 1)[q] == b[q - a.len()]);
                    assert(extends_id(b[q - a.len()], c.id));
                    assert(0 <= m < cs2.len() && extends_id(ids_in_all(cs2, m + 1)[q], cs2[m].id));
                }
            }
        } else {
            assert(spec_resolve_doc_upto(t, n)->Ok_0 == cs);
            assert forall|i: int| 0 <= i < cs.len() implies exists|k: int|
                0 <= k < n && (#[trigger] cs[i]).name == t[k].0 by {
                let k0 = choose|k: int| 0 <= k < n - 1 && cs[i].name == t[k].0;
                assert(0 <= k0 < n && cs[i].name == t[k0].0);
            }
        }
    }
}

/// Id uniqueness and path correctness: when a well-formed document whose
/// keys hold no separator resolves, every field's id is the dot-joined path
/// of keys from the root to it, and no two fields share an id. A document
/// may defeat uniqueness only through a quoted key that itself contains a
/// separator, which the premise excludes.
pub proof fn lemma_id_uniqueness(t: TableV)
    requires
        table_wf(t),
        table_keys_dot_free(t),
        spec_resolve_doc(t) is Ok,
    ensures
        paths_ok_all(
            spec_resolve_doc(t)->Ok_0,
            spec_resolve_doc(t)->Ok_0.len() as int,
            None,
        ),
        distinct_seqs(
            ids_in_all(spec_resolve_doc(t)->Ok_0, spec_resolve_doc(t)->Ok_0.len() as int),
        ),
{
    lemma_doc_ids(t, t.len() as int);
}

} // verus!
