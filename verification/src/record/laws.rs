//! Properties of the record derive's rules that hold for every struct.
use crate::record::attrs::{default_text, read_options, ColumnOption, DefaultLiteral};
use crate::record::schema::{
    field_outcome, fields_outcome, first_unknown, index_outcome, indexable_columns,
    indexes_outcome, legacy_field_outcome, texts, ErrorView, FieldInput, IndexAttr, StoredView,
};
use crate::record::types::{
    column_type, is_integer_name, option_inner, value_getter, ColType, TypeShape, ValueGetter,
};
use vstd::prelude::*;

verus! {

/// The options of a field never leave it both `nullable` and `not_null`.
pub proof fn law_nullable_excludes_not_null(opts: Seq<ColumnOption>)
    ensures
        read_options(opts) matches Ok(a) ==> !(a.nullable && a.not_null),
    decreases opts.len(),
{
    if opts.len() > 0 {
        law_nullable_excludes_not_null(opts.drop_last());
    }
}

/// The field a stored entry describes.
pub open spec fn stored_field_index(s: StoredView) -> int {
    match s {
        StoredView::Id { field } => field,
        StoredView::Value { field, .. } => field,
        StoredView::Reference { field, .. } => field,
    }
}

/// The stored fields follow the struct's field order, each field at most
/// once, and each is a field of the struct.
pub proof fn law_stored_fields_follow_field_order(fs: Seq<FieldInput>)
    ensures
        fields_outcome(fs) matches Ok(stored) ==> {
            &&& forall|p: int|
                0 <= p < stored.len() ==> 0 <= stored_field_index(#[trigger] stored[p]) < fs.len()
            &&& forall|p: int, q: int|
                0 <= p < q < stored.len() ==> stored_field_index(#[trigger] stored[p])
                    < stored_field_index(#[trigger] stored[q])
        },
    decreases fs.len(),
{
    if fs.len() > 0 {
        law_stored_fields_follow_field_order(fs.drop_last());
    }
}

/// A field named `id` is always stored as the record's id, whatever its
/// options and type.
pub proof fn law_id_field_is_the_id(f: FieldInput, i: int)
    requires
        f.name@ == "id"@,
    ensures
        field_outcome(f, i) == Ok::<Option<StoredView>, ErrorView>(Some(StoredView::Id { field: i })),
{
}

/// The indexes accepted are each non-empty, name only columns that may be
/// indexed, and no two of them name the same columns in any order.
pub proof fn law_indexes_are_distinct_and_known(attrs: Seq<IndexAttr>, known: Seq<Seq<char>>)
    ensures
        indexes_outcome(attrs, known) matches Ok(ix) ==> {
            &&& forall|p: int| 0 <= p < ix.len() ==> (#[trigger] ix[p]).len() > 0
            &&& forall|p: int, c: int|
                0 <= p < ix.len() && 0 <= c < ix[p].len() ==> known.contains(#[trigger] ix[p][c])
            &&& forall|p: int, q: int|
                0 <= p < q < ix.len() ==> (#[trigger] ix[p]).to_multiset() != (
                #[trigger] ix[q]).to_multiset()
        },
    decreases attrs.len(),
{
    if attrs.len() > 0 {
        let prev = attrs.drop_last();
        law_indexes_are_distinct_and_known(prev, known);
        match indexes_outcome(prev, known) {
            Ok(done) => {
                match index_outcome(attrs.last(), attrs.len() - 1, known, done) {
                    Ok(c) => {
                        match attrs.last() {
                            IndexAttr::Columns(cols) => {
                                lemma_no_unknown(texts(cols@), known);
                            },
                            IndexAttr::Malformed => {},
                        }
                        let ix = done.push(c);
                        assert forall|p: int, q: int|
                            0 <= p < q < ix.len() implies (#[trigger] ix[p]).to_multiset() != (
                            #[trigger] ix[q]).to_multiset() by {
                            if q == ix.len() - 1 {
                                assert(ix[p] == done[p]);
                            }
                        }
                    },
                    Err(_) => {},
                }
            },
            Err(_) => {},
        }
    }
}

proof fn lemma_no_unknown(cols: Seq<Seq<char>>, known: Seq<Seq<char>>)
    requires
        first_unknown(cols, known) is None,
    ensures
        forall|c: int| 0 <= c < cols.len() ==> known.contains(#[trigger] cols[c]),
    decreases cols.len(),
{
    if cols.len() > 0 {
        lemma_no_unknown(cols.drop_last(), known);
        assert(forall|c: int| 0 <= c < cols.len() - 1 ==> cols.drop_last()[c] == cols[c]);
    }
}

/// An index may name `id` and every stored column: the plain-value columns
/// and the foreign-key columns of relations alike.
pub proof fn law_every_stored_column_is_indexable(stored: Seq<StoredView>)
    ensures
        indexable_columns(stored).contains("id"@),
        forall|i: int|
            0 <= i < stored.len() ==> match #[trigger] stored[i] {
                StoredView::Value { column, .. } => indexable_columns(stored).contains(column),
                StoredView::Reference { column, .. } => indexable_columns(stored).contains(column),
                StoredView::Id { .. } => true,
            },
    decreases stored.len(),
{
    if stored.len() == 0 {
        assert(indexable_columns(stored)[0] == "id"@);
    } else {
        let p = stored.drop_last();
        law_every_stored_column_is_indexable(p);
        let prev = indexable_columns(p);
        let now = indexable_columns(stored);
        assert(forall|k: int| 0 <= k < prev.len() ==> now[k] == prev[k]);
        assert(forall|c: Seq<char>| prev.contains(c) ==> now.contains(c));
        assert(forall|i: int| 0 <= i < p.len() ==> stored[i] == p[i]);
        match stored.last() {
            StoredView::Value { column, .. } => {
                assert(now[now.len() - 1] == column);
            },
            StoredView::Reference { column, .. } => {
                assert(now[now.len() - 1] == column);
            },
            StoredView::Id { .. } => {},
        }
        assert(stored[stored.len() - 1] == stored.last());
    }
}

/// A field's accessor agrees with its column: a type has an accessor
/// exactly when it has a column type; an `Integer` column is read back as
/// an integer, or as a `bool` for the one `Integer` type that is `bool`; a
/// `Real` column as a float and a `Text` column as text.
pub proof fn law_getter_agrees_with_column(t: TypeShape)
    ensures
        column_type(t) is Ok <==> value_getter(t) is Ok,
        column_type(t) == Ok::<ColType, Seq<char>>(ColType::Integer) ==> value_getter(t) == Ok::<
            ValueGetter,
            Seq<char>,
        >(ValueGetter::AsI64) || value_getter(t) == Ok::<ValueGetter, Seq<char>>(
            ValueGetter::AsBool,
        ),
        value_getter(t) == Ok::<ValueGetter, Seq<char>>(ValueGetter::AsBool) ==> (t matches TypeShape::Path { last, .. } && last@ == "bool"@),
        value_getter(t) == Ok::<ValueGetter, Seq<char>>(ValueGetter::AsI64) ==> column_type(t) == Ok::<
            ColType,
            Seq<char>,
        >(ColType::Integer),
        column_type(t) == Ok::<ColType, Seq<char>>(ColType::Real) <==> value_getter(t) == Ok::<
            ValueGetter,
            Seq<char>,
        >(ValueGetter::AsF64),
        column_type(t) == Ok::<ColType, Seq<char>>(ColType::Text) <==> value_getter(t) == Ok::<
            ValueGetter,
            Seq<char>,
        >(ValueGetter::AsText),
{
    lemma_type_names_differ();
}

/// The type names the derive knows are different texts.
proof fn lemma_type_names_differ()
    ensures
        forall|n: Seq<char>| is_integer_name(n) ==> n != "bool"@ && n != "f32"@ && n != "f64"@,
        "f32"@ != "bool"@ && "f64"@ != "bool"@,
        "String"@ != "bool"@ && "String"@ != "f32"@ && "String"@ != "f64"@,
        !is_integer_name("String"@) && !is_integer_name("bool"@),
        !is_integer_name("f32"@) && !is_integer_name("f64"@),
{
    reveal_strlit("i8");
    reveal_strlit("i16");
    reveal_strlit("i32");
    reveal_strlit("i64");
    reveal_strlit("u8");
    reveal_strlit("u16");
    reveal_strlit("u32");
    reveal_strlit("u64");
    reveal_strlit("isize");
    reveal_strlit("usize");
    reveal_strlit("f32");
    reveal_strlit("f64");
    reveal_strlit("String");
    reveal_strlit("bool");
    reveal_strlit("Vec");
    assert("i8"@.len() == 2 && "i8"@[0] == 'i');
    assert("i16"@.len() == 3 && "i16"@[0] == 'i');
    assert("i32"@.len() == 3 && "i32"@[0] == 'i');
    assert("i64"@.len() == 3 && "i64"@[0] == 'i');
    assert("u8"@.len() == 2 && "u8"@[0] == 'u');
    assert("u16"@.len() == 3 && "u16"@[0] == 'u');
    assert("u32"@.len() == 3 && "u32"@[0] == 'u');
    assert("u64"@.len() == 3 && "u64"@[0] == 'u');
    assert("isize"@.len() == 5 && "isize"@[0] == 'i');
    assert("usize"@.len() == 5 && "usize"@[0] == 'u');
    assert("f32"@.len() == 3 && "f32"@[0] == 'f');
    assert("f64"@.len() == 3 && "f64"@[0] == 'f');
    assert("String"@.len() == 6 && "String"@[0] == 'S');
    assert("bool"@.len() == 4 && "bool"@[0] == 'b');
    assert("Vec"@.len() == 3 && "Vec"@[0] == 'V');
}

/// Every integer type is stored in an `Integer` column and read back with
/// `as_i64`.
pub proof fn law_integers_are_read_as_i64(t: TypeShape)
    requires
        t matches TypeShape::Path { last, .. } && is_integer_name(last@),
    ensures
        column_type(t) == Ok::<ColType, Seq<char>>(ColType::Integer),
        value_getter(t) == Ok::<ValueGetter, Seq<char>>(ValueGetter::AsI64),
{
}

/// A plain field's stored column and accessor agree: its `Integer` column is
/// read back with `as_i64` (or `as_bool` for a `bool`), `Real` with
/// `as_f64`, `Text` with `as_text`.
pub proof fn law_stored_getter_agrees_with_column(f: FieldInput, i: int)
    ensures
        field_outcome(f, i) matches Ok(Some(StoredView::Value { col_type, getter, .. })) ==> {
            &&& col_type == ColType::Integer ==> getter == ValueGetter::AsI64 || getter
                == ValueGetter::AsBool
            &&& col_type == ColType::Real <==> getter == ValueGetter::AsF64
            &&& col_type == ColType::Text <==> getter == ValueGetter::AsText
        },
{
    match field_outcome(f, i) {
        Ok(Some(StoredView::Value { .. })) => {
            law_getter_agrees_with_column(crate::record::schema::stored_type(f.ty));
        },
        _ => {},
    }
}

/// Nullability of a legacy column: a field of `Option` type not marked
/// `not_null` is nullable; a field marked `not_null` is not; a field that
/// is neither an `Option` nor marked `nullable` is not; one marked
/// `nullable` and not `not_null` is.
pub proof fn law_legacy_option_is_nullable(f: FieldInput, i: int)
    ensures
        match legacy_field_outcome(f, i) {
            Ok(Some(c)) => match read_options(f.options@) {
                Ok(a) => {
                    &&& option_inner(f.ty) is Some && !a.not_null ==> !c.not_null
                    &&& a.not_null ==> c.not_null
                    &&& option_inner(f.ty) is None && !a.nullable ==> c.not_null
                    &&& a.nullable && !a.not_null ==> !c.not_null
                },
                Err(_) => false,
            },
            _ => true,
        },
{
}

/// The legacy derive and the current one agree on whether a plain field's
/// column is nullable.
pub proof fn law_legacy_and_current_nullability_agree(f: FieldInput, i: int)
    ensures
        legacy_field_outcome(f, i) matches Ok(Some(c)) ==> (field_outcome(f, i) matches Ok(
            Some(StoredView::Value { not_null, .. }),
        ) ==> c.not_null == not_null),
{
}

/// A boolean default is written as its own word: `true` as `true`, and
/// the two values never give the same text.
pub proof fn law_bool_default_is_its_word(b1: bool, b2: bool)
    ensures
        default_text(DefaultLiteral::Bool(b1)) == default_text(DefaultLiteral::Bool(b2)) ==> b1
            == b2,
        default_text(DefaultLiteral::Bool(true)) == Some("true"@),
        default_text(DefaultLiteral::Bool(false)) == Some("false"@),
{
    reveal_strlit("true");
    reveal_strlit("false");
    assert("true"@.len() != "false"@.len());
}

} // verus!
