//! What the record derive makes of a struct: its table name, the stored
//! form of each field, and its indexes; or the first error found.
use crate::record::attrs::{opt_text, read_options, ColumnOption, FieldAttrs};
use crate::record::types::{
    column_type, legacy_column_type, legacy_map_rust_type, map_rust_type,
    map_rust_type_to_as_method, option_inner, unwrap_option, value_getter, ColType, TypeShape,
    ValueGetter,
};
use crate::text::same_text;
use vstd::multiset::Multiset;
use vstd::prelude::*;

verus! {

broadcast use vstd::seq_lib::group_to_multiset_ensures;

/// A named field of the struct being derived.
#[derive(Debug)]
pub struct FieldInput {
    pub name: String,
    pub ty: TypeShape,
    /// The options of all its `#[column(...)]` attributes, in order.
    pub options: Vec<ColumnOption>,
}

/// One `#[index(...)]` attribute of the struct.
#[derive(Debug)]
pub enum IndexAttr {
    /// The column names listed, in order.
    Columns(Vec<String>),
    /// The attribute's arguments could not be read.
    Malformed,
}

/// The struct being derived, as plain values.
#[derive(Debug)]
pub struct RecordInput {
    pub struct_name: String,
    /// The name given by `#[table("...")]` or `#[table(name = "...")]`, if any.
    pub table_attr: Option<String>,
    pub fields: Vec<FieldInput>,
    pub indexes: Vec<IndexAttr>,
}

/// Where in the struct an error lies.
#[derive(Debug, Clone, Copy, PartialEq, Eq, Structural)]
pub enum ErrorSite {
    /// An option in the `#[column(...)]` attributes of a field.
    Attr { field: usize, item: usize },
    /// The type of a field (the type inside it, for an `Option`).
    FieldType { field: usize },
    /// An `#[index(...)]` attribute.
    IndexAttr { index: usize },
    /// A column named in an `#[index(...)]` attribute.
    IndexColumn { index: usize, column: usize },
}

/// Why a struct cannot be derived: where, and the message to give there;
/// `None` when the syntax there could not be read, which is its own error.
#[derive(Debug)]
pub struct DeriveError {
    pub site: ErrorSite,
    pub message: Option<String>,
}

/// How a field is stored.
#[derive(Debug)]
pub enum StoredField {
    /// The `id` field: read back from the `id` column, never written.
    Id { field: usize },
    /// A plain value in a column of its own.
    Value {
        field: usize,
        column: String,
        col_type: ColType,
        not_null: bool,
        default: Option<String>,
        getter: ValueGetter,
    },
    /// A foreign key: an `Integer` column holding the id of a row of the
    /// field's record type (`optional` when the field is an `Option`).
    Reference {
        field: usize,
        column: String,
        optional: bool,
        not_null: bool,
        default: Option<String>,
    },
}

/// What the derive produces for a struct.
#[derive(Debug)]
pub struct RecordSchema {
    pub table_name: String,
    /// The fields that are stored, in the struct's order (skipped ones left out).
    pub fields: Vec<StoredField>,
    /// The columns of each index, as written.
    pub indexes: Vec<Vec<String>>,
}

/// `StoredField` as values.
pub enum StoredView {
    Id { field: int },
    Value {
        field: int,
        column: Seq<char>,
        col_type: ColType,
        not_null: bool,
        default: Option<Seq<char>>,
        getter: ValueGetter,
    },
    Reference {
        field: int,
        column: Seq<char>,
        optional: bool,
        not_null: bool,
        default: Option<Seq<char>>,
    },
}

impl View for StoredField {
    type V = StoredView;

    open spec fn view(&self) -> StoredView {
        match self {
            StoredField::Id { field } => StoredView::Id { field: *field as int },
            StoredField::Value { field, column, col_type, not_null, default, getter } => {
                StoredView::Value {
                    field: *field as int,
                    column: column@,
                    col_type: *col_type,
                    not_null: *not_null,
                    default: opt_text(*default),
                    getter: *getter,
                }
            },
            StoredField::Reference { field, column, optional, not_null, default } => {
                StoredView::Reference {
                    field: *field as int,
                    column: column@,
                    optional: *optional,
                    not_null: *not_null,
                    default: opt_text(*default),
                }
            },
        }
    }
}

/// `RecordSchema` as values.
pub struct SchemaView {
    pub table_name: Seq<char>,
    pub fields: Seq<StoredView>,
    pub indexes: Seq<Seq<Seq<char>>>,
}

/// The texts of a sequence of `String`s.
pub open spec fn texts(s: Seq<String>) -> Seq<Seq<char>> {
    s.map_values(|x: String| x@)
}

/// The views of a sequence of stored fields.
pub open spec fn stored_views(s: Seq<StoredField>) -> Seq<StoredView> {
    s.map_values(|x: StoredField| x@)
}

/// The texts of the columns of each index.
pub open spec fn index_texts(s: Seq<Vec<String>>) -> Seq<Seq<Seq<char>>> {
    s.map_values(|x: Vec<String>| texts(x@))
}

impl View for RecordSchema {
    type V = SchemaView;

    open spec fn view(&self) -> SchemaView {
        SchemaView {
            table_name: self.table_name@,
            fields: stored_views(self.fields@),
            indexes: index_texts(self.indexes@),
        }
    }
}

/// An error as values: where, and the message (`None`: a syntax error).
pub type ErrorView = (ErrorSite, Option<Seq<char>>);

/// `DeriveError` as values.
pub open spec fn error_view(e: DeriveError) -> ErrorView {
    (e.site, opt_text(e.message))
}

/// The table name: the one given by `#[table("...")]`, else the struct's
/// name followed by `s`.
pub open spec fn table_name_of(struct_name: Seq<char>, table_attr: Option<Seq<char>>) -> Seq<char> {
    match table_attr {
        Some(t) => t,
        None => struct_name + "s"@,
    }
}

/// The type a field is stored as: the type inside an `Option`, or its own.
pub open spec fn stored_type(t: TypeShape) -> TypeShape {
    match option_inner(t) {
        Some(inner) => inner,
        None => t,
    }
}

/// How field `i` is stored (`None`: skipped), or the first error in it.
pub open spec fn field_outcome(f: FieldInput, i: int) -> Result<Option<StoredView>, ErrorView> {
    if f.name@ == "id"@ {
        Ok(Some(StoredView::Id { field: i }))
    } else {
        match read_options(f.options@) {
            Err((item, m)) => Err((ErrorSite::Attr { field: i as usize, item: item as usize }, m)),
            Ok(a) => if a.skip {
                Ok(None)
            } else {
                let optional = option_inner(f.ty) is Some;
                let active = stored_type(f.ty);
                if a.relation {
                    Ok(
                        Some(
                            StoredView::Reference {
                                field: i,
                                column: match a.name {
                                    Some(n) => n,
                                    None => f.name@ + "_id"@,
                                },
                                optional,
                                not_null: !(optional && !a.not_null),
                                default: a.default,
                            },
                        ),
                    )
                } else {
                    match (column_type(active), value_getter(active)) {
                        (Err(m), _) => Err((ErrorSite::FieldType { field: i as usize }, Some(m))),
                        (Ok(_), Err(m)) => Err(
                            (ErrorSite::FieldType { field: i as usize }, Some(m)),
                        ),
                        (Ok(ct), Ok(g)) => Ok(
                            Some(
                                StoredView::Value {
                                    field: i,
                                    column: match a.name {
                                        Some(n) => n,
                                        None => f.name@,
                                    },
                                    col_type: ct,
                                    not_null: !((optional || a.nullable) && !a.not_null),
                                    default: a.default,
                                    getter: g,
                                },
                            ),
                        ),
                    }
                }
            },
        }
    }
}

/// The stored fields of a sequence of fields, or the first error.
pub open spec fn fields_outcome(fs: Seq<FieldInput>) -> Result<Seq<StoredView>, ErrorView>
    decreases fs.len(),
{
    if fs.len() == 0 {
        Ok(Seq::empty())
    } else {
        match fields_outcome(fs.drop_last()) {
            Err(e) => Err(e),
            Ok(done) => match field_outcome(fs.last(), fs.len() - 1) {
                Err(e) => Err(e),
                Ok(None) => Ok(done),
                Ok(Some(s)) => Ok(done.push(s)),
            },
        }
    }
}

/// The columns an index may name: `id`, the plain-value columns and the
/// foreign-key columns of relations.
pub open spec fn indexable_columns(stored: Seq<StoredView>) -> Seq<Seq<char>>
    decreases stored.len(),
{
    if stored.len() == 0 {
        seq!["id"@]
    } else {
        let prev = indexable_columns(stored.drop_last());
        match stored.last() {
            StoredView::Value { column, .. } => prev.push(column),
            StoredView::Reference { column, .. } => prev.push(column),
            StoredView::Id { .. } => prev,
        }
    }
}

/// The first of `cols` that is not among `known`.
pub open spec fn first_unknown(cols: Seq<Seq<char>>, known: Seq<Seq<char>>) -> Option<int>
    decreases cols.len(),
{
    if cols.len() == 0 {
        None
    } else {
        match first_unknown(cols.drop_last(), known) {
            Some(j) => Some(j),
            None => if known.contains(cols.last()) {
                None
            } else {
                Some(cols.len() - 1)
            },
        }
    }
}

/// The columns of index `k`, given the indexes accepted before it, or why
/// it is refused: a column that does not exist, no column at all, or the
/// same columns as an earlier index in any order.
pub open spec fn index_outcome(
    attr: IndexAttr,
    k: int,
    known: Seq<Seq<char>>,
    done: Seq<Seq<Seq<char>>>,
) -> Result<Seq<Seq<char>>, ErrorView> {
    match attr {
        IndexAttr::Malformed => Err((ErrorSite::IndexAttr { index: k as usize }, None)),
        IndexAttr::Columns(cols) => {
            let c = texts(cols@);
            match first_unknown(c, known) {
                Some(j) => Err(
                    (
                        ErrorSite::IndexColumn { index: k as usize, column: j as usize },
                        Some(
                            "Column '"@ + c[j] + "' does not exist in the struct or is skipped"@,
                        ),
                    ),
                ),
                None => if c.len() == 0 {
                    Err(
                        (
                            ErrorSite::IndexAttr { index: k as usize },
                            Some("Index must contain at least one column"@),
                        ),
                    )
                } else if exists|p: int|
                    0 <= p < done.len() && (#[trigger] done[p]).to_multiset()
                        == c.to_multiset() {
                    Err(
                        (
                            ErrorSite::IndexAttr { index: k as usize },
                            Some("Duplicate index combination detected (order does not matter)"@),
                        ),
                    )
                } else {
                    Ok(c)
                },
            }
        },
    }
}

/// The indexes of a struct, in order, or the first error.
pub open spec fn indexes_outcome(attrs: Seq<IndexAttr>, known: Seq<Seq<char>>) -> Result<
    Seq<Seq<Seq<char>>>,
    ErrorView,
>
    decreases attrs.len(),
{
    if attrs.len() == 0 {
        Ok(Seq::empty())
    } else {
        match indexes_outcome(attrs.drop_last(), known) {
            Err(e) => Err(e),
            Ok(done) => match index_outcome(attrs.last(), attrs.len() - 1, known, done) {
                Err(e) => Err(e),
                Ok(c) => Ok(done.push(c)),
            },
        }
    }
}

/// What the derive makes of a struct: the fields are read first, then the
/// indexes, and the first error found is the outcome.
pub open spec fn record_outcome(input: RecordInput) -> Result<SchemaView, ErrorView> {
    match fields_outcome(input.fields@) {
        Err(e) => Err(e),
        Ok(stored) => match indexes_outcome(input.indexes@, indexable_columns(stored)) {
            Err(e) => Err(e),
            Ok(ix) => Ok(
                SchemaView {
                    table_name: table_name_of(input.struct_name@, opt_text(input.table_attr)),
                    fields: stored,
                    indexes: ix,
                },
            ),
        },
    }
}

/// The table name: `#[table("...")]` if given, else the struct's name + `s`.
pub fn resolve_table_name(struct_name: &str, table_attr: Option<&str>) -> (r: String)
    ensures
        r@ == table_name_of(
            struct_name@,
            match table_attr {
                Some(t) => Some(t@),
                None => None,
            },
        ),
{
    match table_attr {
        Some(t) => t.to_owned(),
        None => {
            let mut s = struct_name.to_owned();
            s.append("s");
            s
        },
    }
}

fn clone_texts(v: &Vec<String>) -> (r: Vec<String>)
    ensures
        texts(r@) == texts(v@),
        r@.len() == v@.len(),
{
    let mut out: Vec<String> = Vec::new();
    let mut i: usize = 0;
    while i < v.len()
        invariant
            i <= v@.len(),
            out@.len() == i,
            forall|j: int| 0 <= j < i ==> #[trigger] out@[j]@ == v@[j]@,
        decreases v@.len() - i,
    {
        let c = v[i].clone();
        assert(c@ == v@[i as int]@);
        out.push(c);
        i = i + 1;
    }
    assert(texts(out@) =~= texts(v@));
    out
}

/// Whether `list` holds a text equal to `x`.
fn has_text(list: &Vec<String>, x: &str) -> (r: bool)
    ensures
        r == texts(list@).contains(x@),
{
    let mut i: usize = 0;
    while i < list.len()
        invariant
            i <= list@.len(),
            forall|j: int| 0 <= j < i ==> list@[j]@ != x@,
        decreases list@.len() - i,
    {
        if same_text(list[i].as_str(), x) {
            assert(texts(list@)[i as int] == x@);
            return true;
        }
        i = i + 1;
    }
    assert(forall|j: int| 0 <= j < texts(list@).len() ==> texts(list@)[j] != x@);
    false
}

proof fn lemma_take_count_grows(s: Seq<Seq<char>>, k: int, x: Seq<char>)
    requires
        0 <= k <= s.len(),
    ensures
        s.take(k).to_multiset().count(x) <= s.to_multiset().count(x),
    decreases s.len() - k,
{
    if k < s.len() {
        assert(s.take(k + 1) == s.take(k).push(s[k]));
        lemma_take_count_grows(s, k + 1, x);
    } else {
        assert(s.take(k) == s);
    }
}

/// Whether two lists hold the same texts, each as many times, in any order.
fn same_column_set(a: &Vec<String>, b: &Vec<String>) -> (r: bool)
    ensures
        r == (texts(a@).to_multiset() == texts(b@).to_multiset()),
{
    let ghost ta = texts(a@);
    let ghost tb = texts(b@);
    if a.len() != b.len() {
        assert(ta.to_multiset().len() != tb.to_multiset().len());
        return false;
    }
    let mut rest = clone_texts(b);
    let mut i: usize = 0;
    assert(ta.take(0).to_multiset() =~= Multiset::<Seq<char>>::empty());
    while i < a.len()
        invariant
            i <= a@.len(),
            a@.len() == b@.len(),
            ta == texts(a@),
            tb == texts(b@),
            ta.take(i as int).to_multiset().add(texts(rest@).to_multiset()) == tb.to_multiset(),
            rest@.len() == a@.len() - i,
        decreases a@.len() - i,
    {
        let x = &a[i];
        let mut j: usize = 0;
        let mut found = false;
        while j < rest.len() && !found
            invariant
                j <= rest@.len(),
                found ==> j >= 1 && rest@[j - 1]@ == x@,
                !found ==> forall|l: int| 0 <= l < j ==> rest@[l]@ != x@,
            decreases rest@.len() - j + (if found { 0int } else { 1int }),
        {
            if same_text(rest[j].as_str(), x.as_str()) {
                found = true;
            }
            j = j + 1;
        }
        assert(ta.take(i + 1) == ta.take(i as int).push(ta[i as int]));
        if !found {
            proof {
                assert(!texts(rest@).contains(x@)) by {
                    assert(forall|l: int| 0 <= l < texts(rest@).len() ==> texts(rest@)[l] != x@);
                }
                assert(texts(rest@).to_multiset().count(x@) == 0);
                lemma_take_count_grows(ta, i + 1, x@);
                assert(ta[i as int] == x@);
            }
            return false;
        }
        let ghost before = texts(rest@);
        let removed = rest.remove(j - 1);
        proof {
            assert(texts(rest@) =~= before.remove(j - 1));
            assert(before[j - 1] == x@);
            assert(ta[i as int] == x@);
        }
        i = i + 1;
    }
    assert(ta.take(i as int) == ta);
    assert(texts(rest@) =~= Seq::<Seq<char>>::empty());
    assert(texts(rest@).to_multiset() =~= Multiset::<Seq<char>>::empty());
    assert(ta.to_multiset().add(Multiset::<Seq<char>>::empty()) =~= ta.to_multiset());
    true
}

/// Reads the `#[index(...)]` attributes: every column named must be among
/// `known` (the struct's columns), an index names at least one column, and no two
/// indexes name the same columns in any order.
pub fn resolve_indexes(attrs: &[IndexAttr], known: &Vec<String>) -> (r: Result<
    Vec<Vec<String>>,
    DeriveError,
>)
    ensures
        match r {
            Ok(ix) => indexes_outcome(attrs@, texts(known@)) == Ok::<
                Seq<Seq<Seq<char>>>,
                ErrorView,
            >(index_texts(ix@)),
            Err(e) => indexes_outcome(attrs@, texts(known@)) == Err::<
                Seq<Seq<Seq<char>>>,
                ErrorView,
            >(error_view(e)),
        },
{
    let mut out: Vec<Vec<String>> = Vec::new();
    let mut k: usize = 0;
    assert(attrs@.take(0) =~= Seq::<IndexAttr>::empty());
    assert(index_texts(out@) =~= Seq::<Seq<Seq<char>>>::empty());
    while k < attrs.len()
        invariant
            k <= attrs@.len(),
            indexes_outcome(attrs@.take(k as int), texts(known@)) == Ok::<
                Seq<Seq<Seq<char>>>,
                ErrorView,
            >(index_texts(out@)),
        decreases attrs@.len() - k,
    {
        assert(attrs@.take(k + 1).drop_last() == attrs@.take(k as int));
        assert(attrs@.take(k + 1).last() == attrs@[k as int]);
        let ghost done = index_texts(out@);
        let ghost before = attrs@.take(k as int);
        match &attrs[k] {
            IndexAttr::Malformed => {
                let e = DeriveError { site: ErrorSite::IndexAttr { index: k }, message: None };
                proof {
                    lemma_index_refusal_stays(attrs@, texts(known@), k + 1);
                }
                return Err(e);
            },
            IndexAttr::Columns(cols) => {
                let ghost c = texts(cols@);
                let mut j: usize = 0;
                assert(c.take(0) =~= Seq::<Seq<char>>::empty());
                while j < cols.len()
                    invariant
                        j <= cols@.len(),
                        c == texts(cols@),
                        first_unknown(c.take(j as int), texts(known@)) is None,
                        k < attrs@.len(),
                        attrs@[k as int] == IndexAttr::Columns(*cols),
                        before == attrs@.take(k as int),
                        attrs@.take(k + 1).drop_last() == before,
                        attrs@.take(k + 1).last() == attrs@[k as int],
                        indexes_outcome(before, texts(known@)) == Ok::<
                            Seq<Seq<Seq<char>>>,
                            ErrorView,
                        >(done),
                    decreases cols@.len() - j,
                {
                    assert(c.take(j + 1).drop_last() == c.take(j as int));
                    assert(c.take(j + 1).last() == c[j as int]);
                    if !has_text(known, cols[j].as_str()) {
                        let mut m = "Column '".to_owned();
                        m.append(cols[j].as_str());
                        m.append("' does not exist in the struct or is skipped");
                        let e = DeriveError {
                            site: ErrorSite::IndexColumn { index: k, column: j },
                            message: Some(m),
                        };
                        proof {
                            lemma_first_unknown_stays(c, texts(known@), j + 1);
                            lemma_index_refusal_stays(attrs@, texts(known@), k + 1);
                        }
                        return Err(e);
                    }
                    j = j + 1;
                }
                assert(c.take(j as int) == c);
                if cols.len() == 0 {
                    let e = DeriveError {
                        site: ErrorSite::IndexAttr { index: k },
                        message: Some("Index must contain at least one column".to_owned()),
                    };
                    proof {
                        lemma_index_refusal_stays(attrs@, texts(known@), k + 1);
                    }
                    return Err(e);
                }
                let mut p: usize = 0;
                while p < out.len()
                    invariant
                        p <= out@.len(),
                        done == index_texts(out@),
                        c == texts(cols@),
                        c.len() > 0,
                        first_unknown(c, texts(known@)) is None,
                        k < attrs@.len(),
                        attrs@[k as int] == IndexAttr::Columns(*cols),
                        before == attrs@.take(k as int),
                        attrs@.take(k + 1).drop_last() == before,
                        attrs@.take(k + 1).last() == attrs@[k as int],
                        indexes_outcome(before, texts(known@)) == Ok::<
                            Seq<Seq<Seq<char>>>,
                            ErrorView,
                        >(done),
                        forall|q: int| 0 <= q < p ==> (#[trigger] done[q]).to_multiset() != c.to_multiset(),
                    decreases out@.len() - p,
                {
                    if same_column_set(&out[p], cols) {
                        let e = DeriveError {
                            site: ErrorSite::IndexAttr { index: k },
                            message: Some(
                                "Duplicate index combination detected (order does not matter)".to_owned(),
                            ),
                        };
                        proof {
                            assert(done[p as int] == texts(out@[p as int]@));
                            lemma_index_refusal_stays(attrs@, texts(known@), k + 1);
                        }
                        return Err(e);
                    }
                    p = p + 1;
                }
                let copy = clone_texts(cols);
                out.push(copy);
                assert(index_texts(out@) =~= done.push(c));
            },
        }
        k = k + 1;
    }
    assert(attrs@.take(k as int) == attrs@);
    Ok(out)
}

proof fn lemma_first_unknown_stays(cols: Seq<Seq<char>>, known: Seq<Seq<char>>, k: int)
    requires
        0 <= k <= cols.len(),
        first_unknown(cols.take(k), known) is Some,
    ensures
        first_unknown(cols, known) == first_unknown(cols.take(k), known),
    decreases cols.len() - k,
{
    if k < cols.len() {
        assert(cols.take(k + 1).drop_last() == cols.take(k));
        lemma_first_unknown_stays(cols, known, k + 1);
    } else {
        assert(cols.take(k) == cols);
    }
}

proof fn lemma_index_refusal_stays(attrs: Seq<IndexAttr>, known: Seq<Seq<char>>, k: int)
    requires
        0 <= k <= attrs.len(),
        indexes_outcome(attrs.take(k), known) is Err,
    ensures
        indexes_outcome(attrs, known) == indexes_outcome(attrs.take(k), known),
    decreases attrs.len() - k,
{
    if k < attrs.len() {
        assert(attrs.take(k + 1).drop_last() == attrs.take(k));
        lemma_index_refusal_stays(attrs, known, k + 1);
    } else {
        assert(attrs.take(k) == attrs);
    }
}


fn field_stored(f: &FieldInput, i: usize) -> (r: Result<Option<StoredField>, DeriveError>)
    ensures
        match r {
            Ok(None) => field_outcome(*f, i as int) == Ok::<Option<StoredView>, ErrorView>(None),
            Ok(Some(s)) => field_outcome(*f, i as int) == Ok::<Option<StoredView>, ErrorView>(
                Some(s@),
            ),
            Err(e) => field_outcome(*f, i as int) == Err::<Option<StoredView>, ErrorView>(
                error_view(e),
            ),
        },
        match r {
            Ok(Some(StoredField::Id { field })) => field == i,
            Ok(Some(StoredField::Value { field, .. })) => field == i,
            Ok(Some(StoredField::Reference { field, .. })) => field == i,
            _ => true,
        },
{
    if same_text(f.name.as_str(), "id") {
        return Ok(Some(StoredField::Id { field: i }));
    }
    let attrs = match FieldAttrs::parse(f.options.as_slice()) {
        Ok(a) => a,
        Err(e) => {
            return Err(
                DeriveError { site: ErrorSite::Attr { field: i, item: e.item }, message: e.message },
            );
        },
    };
    if attrs.skip {
        return Ok(None);
    }
    let (optional, inner) = unwrap_option(&f.ty);
    let active: &TypeShape = match inner {
        Some(t) => t,
        None => &f.ty,
    };
    assert(*active == stored_type(f.ty));
    if attrs.relation {
        let column = match attrs.name {
            Some(n) => n,
            None => {
                let mut c = f.name.clone();
                c.append("_id");
                c
            },
        };
        return Ok(
            Some(
                StoredField::Reference {
                    field: i,
                    column,
                    optional,
                    not_null: !(optional && !attrs.not_null),
                    default: attrs.default,
                },
            ),
        );
    }
    let col_type = match map_rust_type(active) {
        Ok(t) => t,
        Err(m) => {
            return Err(DeriveError { site: ErrorSite::FieldType { field: i }, message: Some(m) });
        },
    };
    let getter = match map_rust_type_to_as_method(active) {
        Ok(g) => g,
        Err(m) => {
            return Err(DeriveError { site: ErrorSite::FieldType { field: i }, message: Some(m) });
        },
    };
    let column = match attrs.name {
        Some(n) => n,
        None => f.name.clone(),
    };
    Ok(
        Some(
            StoredField::Value {
                field: i,
                column,
                col_type,
                not_null: !((optional || attrs.nullable) && !attrs.not_null),
                default: attrs.default,
                getter,
            },
        ),
    )
}

proof fn lemma_fields_refusal_stays(fs: Seq<FieldInput>, k: int)
    requires
        0 <= k <= fs.len(),
        fields_outcome(fs.take(k)) is Err,
    ensures
        fields_outcome(fs) == fields_outcome(fs.take(k)),
    decreases fs.len() - k,
{
    if k < fs.len() {
        assert(fs.take(k + 1).drop_last() == fs.take(k));
        lemma_fields_refusal_stays(fs, k + 1);
    } else {
        assert(fs.take(k) == fs);
    }
}

/// What the record derive makes of a struct: for each field in order, the
/// `id` field is read back from `id`; a skipped field is left out; a
/// relation is an integer foreign key named by `name` or `<field>_id`; any
/// other field is a column named by `name` or the field, typed after the
/// field's type (the type inside an `Option`), nullable when the field is
/// an `Option` or marked `nullable` unless marked `not_null`. Then the
/// indexes are checked against `id`, the plain-value columns and the
/// foreign-key columns. The first error found is the outcome.
pub fn impl_db_record(input: &RecordInput) -> (r: Result<RecordSchema, DeriveError>)
    ensures
        match r {
            Ok(s) => record_outcome(*input) == Ok::<SchemaView, ErrorView>(s@),
            Err(e) => record_outcome(*input) == Err::<SchemaView, ErrorView>(error_view(e)),
        },
{
    let fields = &input.fields;
    let mut stored: Vec<StoredField> = Vec::new();
    let mut known: Vec<String> = Vec::new();
    known.push("id".to_owned());
    let mut i: usize = 0;
    assert(fields@.take(0) =~= Seq::<FieldInput>::empty());
    assert(stored_views(stored@) =~= Seq::<StoredView>::empty());
    assert(texts(known@) =~= seq!["id"@]);
    while i < fields.len()
        invariant
            i <= fields@.len(),
            fields == &input.fields,
            fields_outcome(fields@.take(i as int)) == Ok::<Seq<StoredView>, ErrorView>(
                stored_views(stored@),
            ),
            texts(known@) == indexable_columns(stored_views(stored@)),
        decreases fields@.len() - i,
    {
        assert(fields@.take(i + 1).drop_last() == fields@.take(i as int));
        assert(fields@.take(i + 1).last() == fields@[i as int]);
        let ghost prev = stored_views(stored@);
        match field_stored(&fields[i], i) {
            Err(e) => {
                proof {
                    lemma_fields_refusal_stays(fields@, i + 1);
                }
                return Err(e);
            },
            Ok(None) => {},
            Ok(Some(sf)) => {
                let ghost v = sf@;
                match &sf {
                    StoredField::Value { column, .. } => {
                        known.push(column.clone());
                    },
                    StoredField::Reference { column, .. } => {
                        known.push(column.clone());
                    },
                    StoredField::Id { .. } => {},
                }
                stored.push(sf);
                assert(stored_views(stored@) =~= prev.push(v));
                assert(stored_views(stored@).drop_last() == prev);
                assert(texts(known@) =~= indexable_columns(stored_views(stored@)));
            },
        }
        i = i + 1;
    }
    assert(fields@.take(i as int) == fields@);
    let indexes = match resolve_indexes(input.indexes.as_slice(), &known) {
        Ok(ix) => ix,
        Err(e) => {
            return Err(e);
        },
    };
    let table_name = match &input.table_attr {
        Some(t) => resolve_table_name(input.struct_name.as_str(), Some(t.as_str())),
        None => resolve_table_name(input.struct_name.as_str(), None),
    };
    Ok(RecordSchema { table_name, fields: stored, indexes })
}

/// A column of the legacy derive.
#[derive(Debug)]
pub struct LegacyColumn {
    pub field: usize,
    pub column: String,
    pub col_type: ColType,
    pub not_null: bool,
    pub default: Option<String>,
}

/// What the legacy derive produces: the table name and the columns.
#[derive(Debug)]
pub struct LegacySchema {
    pub table_name: String,
    pub columns: Vec<LegacyColumn>,
}

/// `LegacyColumn` as values.
pub struct LegacyColumnView {
    pub field: int,
    pub column: Seq<char>,
    pub col_type: ColType,
    pub not_null: bool,
    pub default: Option<Seq<char>>,
}

impl View for LegacyColumn {
    type V = LegacyColumnView;

    open spec fn view(&self) -> LegacyColumnView {
        LegacyColumnView {
            field: self.field as int,
            column: self.column@,
            col_type: self.col_type,
            not_null: self.not_null,
            default: opt_text(self.default),
        }
    }
}

/// `LegacySchema` as values.
pub struct LegacySchemaView {
    pub table_name: Seq<char>,
    pub columns: Seq<LegacyColumnView>,
}

impl View for LegacySchema {
    type V = LegacySchemaView;

    open spec fn view(&self) -> LegacySchemaView {
        LegacySchemaView {
            table_name: self.table_name@,
            columns: self.columns@.map_values(|c: LegacyColumn| c@),
        }
    }
}

/// The column of field `i` for the legacy derive (`None`: no column), or
/// the first error in it: `id` and skipped fields have no column; the
/// others are named by `name` or the field and typed after the field's type.
pub open spec fn legacy_field_outcome(f: FieldInput, i: int) -> Result<
    Option<LegacyColumnView>,
    ErrorView,
> {
    if f.name@ == "id"@ {
        Ok(None)
    } else {
        match read_options(f.options@) {
            Err((item, m)) => Err((ErrorSite::Attr { field: i as usize, item: item as usize }, m)),
            Ok(a) => if a.skip {
                Ok(None)
            } else {
                let optional = option_inner(f.ty) is Some;
                match legacy_column_type(stored_type(f.ty)) {
                    Err(m) => Err((ErrorSite::FieldType { field: i as usize }, Some(m))),
                    Ok(ct) => Ok(
                        Some(
                            LegacyColumnView {
                                field: i,
                                column: match a.name {
                                    Some(n) => n,
                                    None => f.name@,
                                },
                                col_type: ct,
                                not_null: !((optional || a.nullable) && !a.not_null),
                                default: a.default,
                            },
                        ),
                    ),
                }
            },
        }
    }
}

/// The columns of a sequence of fields for the legacy derive, or the first error.
pub open spec fn legacy_fields_outcome(fs: Seq<FieldInput>) -> Result<
    Seq<LegacyColumnView>,
    ErrorView,
>
    decreases fs.len(),
{
    if fs.len() == 0 {
        Ok(Seq::empty())
    } else {
        match legacy_fields_outcome(fs.drop_last()) {
            Err(e) => Err(e),
            Ok(done) => match legacy_field_outcome(fs.last(), fs.len() - 1) {
                Err(e) => Err(e),
                Ok(None) => Ok(done),
                Ok(Some(c)) => Ok(done.push(c)),
            },
        }
    }
}

/// What the legacy derive makes of a struct (it has no indexes).
pub open spec fn legacy_record_outcome(input: RecordInput) -> Result<LegacySchemaView, ErrorView> {
    match legacy_fields_outcome(input.fields@) {
        Err(e) => Err(e),
        Ok(cols) => Ok(
            LegacySchemaView {
                table_name: table_name_of(input.struct_name@, opt_text(input.table_attr)),
                columns: cols,
            },
        ),
    }
}

fn legacy_field_column(f: &FieldInput, i: usize) -> (r: Result<Option<LegacyColumn>, DeriveError>)
    ensures
        match r {
            Ok(None) => legacy_field_outcome(*f, i as int) == Ok::<
                Option<LegacyColumnView>,
                ErrorView,
            >(None),
            Ok(Some(c)) => legacy_field_outcome(*f, i as int) == Ok::<
                Option<LegacyColumnView>,
                ErrorView,
            >(Some(c@)),
            Err(e) => legacy_field_outcome(*f, i as int) == Err::<
                Option<LegacyColumnView>,
                ErrorView,
            >(error_view(e)),
        },
{
    if same_text(f.name.as_str(), "id") {
        return Ok(None);
    }
    let attrs = match FieldAttrs::parse(f.options.as_slice()) {
        Ok(a) => a,
        Err(e) => {
            return Err(
                DeriveError { site: ErrorSite::Attr { field: i, item: e.item }, message: e.message },
            );
        },
    };
    if attrs.skip {
        return Ok(None);
    }
    let (optional, inner) = unwrap_option(&f.ty);
    let active: &TypeShape = match inner {
        Some(t) => t,
        None => &f.ty,
    };
    assert(*active == stored_type(f.ty));
    let col_type = match legacy_map_rust_type(active) {
        Ok(t) => t,
        Err(m) => {
            return Err(DeriveError { site: ErrorSite::FieldType { field: i }, message: Some(m) });
        },
    };
    let column = match attrs.name {
        Some(n) => n,
        None => f.name.clone(),
    };
    Ok(
        Some(
            LegacyColumn {
                field: i,
                column,
                col_type,
                not_null: !((optional || attrs.nullable) && !attrs.not_null),
                default: attrs.default,
            },
        ),
    )
}

proof fn lemma_legacy_refusal_stays(fs: Seq<FieldInput>, k: int)
    requires
        0 <= k <= fs.len(),
        legacy_fields_outcome(fs.take(k)) is Err,
    ensures
        legacy_fields_outcome(fs) == legacy_fields_outcome(fs.take(k)),
    decreases fs.len() - k,
{
    if k < fs.len() {
        assert(fs.take(k + 1).drop_last() == fs.take(k));
        lemma_legacy_refusal_stays(fs, k + 1);
    } else {
        assert(fs.take(k) == fs);
    }
}

/// What the legacy derive makes of a struct: one column per field that is
/// neither `id` nor skipped, named by `name` or the field, typed after the
/// field's type (`Vec<u8>` as `Blob`), nullable when the field is an
/// `Option` or marked `nullable` unless marked `not_null`; the first error
/// found is the outcome.
pub fn legacy_impl_db_record(input: &RecordInput) -> (r: Result<LegacySchema, DeriveError>)
    ensures
        match r {
            Ok(s) => legacy_record_outcome(*input) == Ok::<LegacySchemaView, ErrorView>(s@),
            Err(e) => legacy_record_outcome(*input) == Err::<LegacySchemaView, ErrorView>(
                error_view(e),
            ),
        },
{
    let fields = &input.fields;
    let mut columns: Vec<LegacyColumn> = Vec::new();
    let mut i: usize = 0;
    assert(fields@.take(0) =~= Seq::<FieldInput>::empty());
    assert(columns@.map_values(|c: LegacyColumn| c@) =~= Seq::<LegacyColumnView>::empty());
    while i < fields.len()
        invariant
            i <= fields@.len(),
            fields == &input.fields,
            legacy_fields_outcome(fields@.take(i as int)) == Ok::<
                Seq<LegacyColumnView>,
                ErrorView,
            >(columns@.map_values(|c: LegacyColumn| c@)),
        decreases fields@.len() - i,
    {
        assert(fields@.take(i + 1).drop_last() == fields@.take(i as int));
        assert(fields@.take(i + 1).last() == fields@[i as int]);
        let ghost prev = columns@.map_values(|c: LegacyColumn| c@);
        match legacy_field_column(&fields[i], i) {
            Err(e) => {
                proof {
                    lemma_legacy_refusal_stays(fields@, i + 1);
                }
                return Err(e);
            },
            Ok(None) => {},
            Ok(Some(c)) => {
                let ghost v = c@;
                columns.push(c);
                assert(columns@.map_values(|c: LegacyColumn| c@) =~= prev.push(v));
            },
        }
        i = i + 1;
    }
    assert(fields@.take(i as int) == fields@);
    let table_name = match &input.table_attr {
        Some(t) => resolve_table_name(input.struct_name.as_str(), Some(t.as_str())),
        None => resolve_table_name(input.struct_name.as_str(), None),
    };
    Ok(LegacySchema { table_name, columns })
}

} // verus!
