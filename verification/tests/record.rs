use akgine::record::attrs::{ColumnOption, DefaultLiteral, FieldAttrs};
use akgine::record::schema::{
    impl_db_record, legacy_impl_db_record, resolve_indexes, resolve_table_name, ErrorSite,
    FieldInput, IndexAttr, RecordInput, StoredField,
};
use akgine::record::types::{
    legacy_map_rust_type, map_rust_type, map_rust_type_to_as_method, unwrap_option, ColType,
    TypeShape, ValueGetter,
};

fn ty(name: &str) -> TypeShape {
    TypeShape::Path { last: name.to_string(), first_arg: None, plain: true }
}

fn generic(name: &str, arg: TypeShape) -> TypeShape {
    TypeShape::Path { last: name.to_string(), first_arg: Some(Box::new(arg)), plain: false }
}

fn field(name: &str, t: TypeShape, options: Vec<ColumnOption>) -> FieldInput {
    FieldInput { name: name.to_string(), ty: t, options }
}

fn record(name: &str, fields: Vec<FieldInput>, indexes: Vec<IndexAttr>) -> RecordInput {
    RecordInput { struct_name: name.to_string(), table_attr: None, fields, indexes }
}

fn cols(names: &[&str]) -> IndexAttr {
    IndexAttr::Columns(names.iter().map(|s| s.to_string()).collect())
}

#[test]
fn table_name_defaults_to_plural() {
    assert_eq!(resolve_table_name("User", None), "Users");
    assert_eq!(resolve_table_name("User", Some("people")), "people");
}

#[test]
fn attrs_read_in_order() {
    let a = FieldAttrs::parse(&[
        ColumnOption::Nullable,
        ColumnOption::Name("nick".to_string()),
        ColumnOption::Default(DefaultLiteral::Int("42".to_string())),
        ColumnOption::Ignored,
    ])
    .unwrap();
    assert!(a.nullable && !a.not_null && !a.skip && !a.relation);
    assert_eq!(a.name.as_deref(), Some("nick"));
    assert_eq!(a.default.as_deref(), Some("42"));
}

#[test]
fn attrs_default_literals() {
    let b = FieldAttrs::parse(&[ColumnOption::Default(DefaultLiteral::Bool(false))]).unwrap();
    assert_eq!(b.default.as_deref(), Some("false"));
    let s = FieldAttrs::parse(&[ColumnOption::Default(DefaultLiteral::Str("x".into()))]).unwrap();
    assert_eq!(s.default.as_deref(), Some("x"));
    let f = FieldAttrs::parse(&[ColumnOption::Default(DefaultLiteral::Float("1.5".into()))]).unwrap();
    assert_eq!(f.default.as_deref(), Some("1.5"));
    let e = FieldAttrs::parse(&[ColumnOption::Skip, ColumnOption::Default(DefaultLiteral::Unsupported)])
        .unwrap_err();
    assert_eq!(e.item, 1);
    assert_eq!(e.message.as_deref(), Some("Type de valeur par défaut non supporté"));
}

#[test]
fn nullable_and_not_null_exclude_each_other() {
    let e = FieldAttrs::parse(&[ColumnOption::NotNull, ColumnOption::Nullable]).unwrap_err();
    assert_eq!(e.item, 1);
    assert_eq!(e.message.as_deref(), Some("can't have nullable and not_null at the same type"));
    let e = FieldAttrs::parse(&[ColumnOption::Nullable, ColumnOption::Skip, ColumnOption::NotNull])
        .unwrap_err();
    assert_eq!(e.item, 2);
    assert_eq!(e.message.as_deref(), Some("can't have not_null and nullable at the same type"));
}

#[test]
fn first_refused_option_wins() {
    let e = FieldAttrs::parse(&[
        ColumnOption::Nullable,
        ColumnOption::NotNull,
        ColumnOption::Malformed,
    ])
    .unwrap_err();
    assert_eq!(e.item, 1);
    let e = FieldAttrs::parse(&[ColumnOption::Malformed, ColumnOption::NotNull]).unwrap_err();
    assert_eq!(e.item, 0);
    assert!(e.message.is_none());
}

#[test]
fn type_mapping() {
    for n in ["i8", "i16", "i32", "i64", "u8", "u16", "u32", "u64", "isize", "usize", "bool"] {
        assert_eq!(map_rust_type(&ty(n)).unwrap(), ColType::Integer, "{n}");
    }
    assert_eq!(map_rust_type(&ty("f32")).unwrap(), ColType::Real);
    assert_eq!(map_rust_type(&ty("f64")).unwrap(), ColType::Real);
    assert_eq!(map_rust_type(&ty("String")).unwrap(), ColType::Text);
    assert_eq!(
        map_rust_type(&ty("Uuid")).unwrap_err(),
        "Unsupported type `Uuid`. Add #[column(skip)], #[column(relation)] if this is a foreign key to another DbRecord type, or implement the mapping manually."
    );
    assert!(map_rust_type(&generic("Vec", ty("u8"))).unwrap_err().starts_with("Vec<u8> (BLOB) columns are not supported"));
    assert_eq!(map_rust_type(&TypeShape::Other).unwrap_err(), "Cannot determine ColType for this type");
}

#[test]
fn getter_mapping() {
    assert_eq!(map_rust_type_to_as_method(&ty("u32")).unwrap(), ValueGetter::AsI64);
    assert_eq!(map_rust_type_to_as_method(&ty("f64")).unwrap(), ValueGetter::AsF64);
    assert_eq!(map_rust_type_to_as_method(&ty("String")).unwrap(), ValueGetter::AsText);
    assert_eq!(map_rust_type_to_as_method(&ty("bool")).unwrap(), ValueGetter::AsBool);
    assert_eq!(map_rust_type_to_as_method(&ty("char")).unwrap_err(), "Cannot map type to an as_xxx method");
    assert_eq!(
        map_rust_type_to_as_method(&TypeShape::Other).unwrap_err(),
        "Cannot determine as_xxx method for this type"
    );
}

#[test]
fn legacy_type_mapping_accepts_byte_vectors() {
    assert_eq!(legacy_map_rust_type(&generic("Vec", ty("u8"))).unwrap(), ColType::Blob);
    assert_eq!(
        legacy_map_rust_type(&generic("Vec", ty("u16"))).unwrap_err(),
        "Only Vec<u8> is supported as ColType::Blob"
    );
    let qualified = TypeShape::Path { last: "u8".into(), first_arg: None, plain: false };
    assert_eq!(
        legacy_map_rust_type(&generic("Vec", qualified)).unwrap_err(),
        "Only Vec<u8> is supported as ColType::Blob"
    );
    assert_eq!(
        legacy_map_rust_type(&ty("Uuid")).unwrap_err(),
        "Unsupported type `Uuid`. Add #[column(skip)] or implement the mapping manually."
    );
}

#[test]
fn option_is_unwrapped() {
    let t = generic("Option", ty("i64"));
    let (is_opt, inner) = unwrap_option(&t);
    assert!(is_opt);
    assert!(matches!(inner, Some(TypeShape::Path { last, .. }) if last == "i64"));
    let bare = ty("Option");
    let (is_opt, inner) = unwrap_option(&bare);
    assert!(!is_opt && inner.is_none());
}

#[test]
fn record_schema_for_a_typical_struct() {
    let input = record(
        "Message",
        vec![
            field("id", ty("i64"), vec![]),
            field("body", ty("String"), vec![]),
            field("edited", generic("Option", ty("i64")), vec![]),
            field("cache", ty("Whatever"), vec![ColumnOption::Skip]),
            field("author", ty("User"), vec![ColumnOption::Relation]),
            field("reply_to", generic("Option", ty("Message")), vec![
                ColumnOption::Relation,
                ColumnOption::Name("parent".into()),
            ]),
            field("score", ty("f64"), vec![
                ColumnOption::Name("points".into()),
                ColumnOption::Default(DefaultLiteral::Float("0.0".into())),
            ]),
        ],
        vec![cols(&["body"]), cols(&["points", "id"])],
    );
    let s = impl_db_record(&input).unwrap();
    assert_eq!(s.table_name, "Messages");
    assert_eq!(s.fields.len(), 6);
    assert!(matches!(s.fields[0], StoredField::Id { field: 0 }));
    match &s.fields[1] {
        StoredField::Value { field, column, col_type, not_null, default, getter } => {
            assert_eq!((*field, column.as_str(), *col_type, *not_null), (1, "body", ColType::Text, true));
            assert!(default.is_none());
            assert_eq!(*getter, ValueGetter::AsText);
        }
        other => panic!("{other:?}"),
    }
    match &s.fields[2] {
        StoredField::Value { column, col_type, not_null, .. } => {
            assert_eq!((column.as_str(), *col_type, *not_null), ("edited", ColType::Integer, false));
        }
        other => panic!("{other:?}"),
    }
    match &s.fields[3] {
        StoredField::Reference { field, column, optional, not_null, .. } => {
            assert_eq!((*field, column.as_str(), *optional, *not_null), (4, "author_id", false, true));
        }
        other => panic!("{other:?}"),
    }
    match &s.fields[4] {
        StoredField::Reference { field, column, optional, not_null, .. } => {
            assert_eq!((*field, column.as_str(), *optional, *not_null), (5, "parent", true, false));
        }
        other => panic!("{other:?}"),
    }
    match &s.fields[5] {
        StoredField::Value { column, default, getter, .. } => {
            assert_eq!(column, "points");
            assert_eq!(default.as_deref(), Some("0.0"));
            assert_eq!(*getter, ValueGetter::AsF64);
        }
        other => panic!("{other:?}"),
    }
    assert_eq!(s.indexes, vec![vec!["body".to_string()], vec!["points".to_string(), "id".to_string()]]);
}

#[test]
fn not_null_overrides_option_and_nullable_overrides_plain() {
    let input = record(
        "T",
        vec![
            field("a", generic("Option", ty("i32")), vec![ColumnOption::NotNull]),
            field("b", ty("i32"), vec![ColumnOption::Nullable]),
        ],
        vec![],
    );
    let s = impl_db_record(&input).unwrap();
    assert!(matches!(s.fields[0], StoredField::Value { not_null: true, .. }));
    assert!(matches!(s.fields[1], StoredField::Value { not_null: false, .. }));
}

#[test]
fn id_field_ignores_its_options() {
    let input = record("T", vec![field("id", TypeShape::Other, vec![ColumnOption::Malformed])], vec![]);
    let s = impl_db_record(&input).unwrap();
    assert!(matches!(s.fields[0], StoredField::Id { field: 0 }));
}

#[test]
fn explicit_table_name() {
    let mut input = record("T", vec![], vec![]);
    input.table_attr = Some("things".into());
    assert_eq!(impl_db_record(&input).unwrap().table_name, "things");
}

#[test]
fn field_type_error_points_at_the_field() {
    let input = record(
        "T",
        vec![field("ok", ty("i32"), vec![]), field("data", generic("Vec", ty("u8")), vec![])],
        vec![],
    );
    let e = impl_db_record(&input).unwrap_err();
    assert_eq!(e.site, ErrorSite::FieldType { field: 1 });
    assert!(e.message.unwrap().starts_with("Vec<u8> (BLOB) columns are not supported"));
}

#[test]
fn attribute_error_points_at_the_option() {
    let input = record(
        "T",
        vec![field("x", ty("i32"), vec![ColumnOption::Nullable, ColumnOption::NotNull])],
        vec![cols(&["nope"])],
    );
    let e = impl_db_record(&input).unwrap_err();
    assert_eq!(e.site, ErrorSite::Attr { field: 0, item: 1 });
}

#[test]
fn index_on_relation_column_is_accepted() {
    let input = record(
        "Match",
        vec![field("id", ty("i64"), vec![]), field("game", ty("Game"), vec![ColumnOption::Relation])],
        vec![cols(&["game_id"])],
    );
    let s = impl_db_record(&input).unwrap();
    assert_eq!(s.indexes, vec![vec!["game_id".to_string()]]);
}

#[test]
fn index_on_unknown_column_is_refused() {
    let input = record(
        "T",
        vec![field("x", ty("i32"), vec![]), field("owner", ty("User"), vec![ColumnOption::Relation])],
        vec![cols(&["x", "owner_id"]), cols(&["x", "owner"])],
    );
    let e = impl_db_record(&input).unwrap_err();
    assert_eq!(e.site, ErrorSite::IndexColumn { index: 1, column: 1 });
    assert_eq!(
        e.message.as_deref(),
        Some("Column 'owner' does not exist in the struct or is skipped")
    );
}

#[test]
fn empty_and_duplicate_indexes_are_refused() {
    let known = vec!["id".to_string(), "a".to_string(), "b".to_string()];
    let e = resolve_indexes(&[cols(&[])], &known).unwrap_err();
    assert_eq!(e.site, ErrorSite::IndexAttr { index: 0 });
    assert_eq!(e.message.as_deref(), Some("Index must contain at least one column"));
    let e = resolve_indexes(&[cols(&["a", "b"]), cols(&["b", "a"])], &known).unwrap_err();
    assert_eq!(e.site, ErrorSite::IndexAttr { index: 1 });
    assert_eq!(
        e.message.as_deref(),
        Some("Duplicate index combination detected (order does not matter)")
    );
    let ok = resolve_indexes(&[cols(&["a", "b"]), cols(&["a", "a", "b"]), cols(&["a"])], &known)
        .unwrap();
    assert_eq!(ok.len(), 3);
    let e = resolve_indexes(&[cols(&["a"]), IndexAttr::Malformed], &known).unwrap_err();
    assert_eq!(e.site, ErrorSite::IndexAttr { index: 1 });
    assert!(e.message.is_none());
}

#[test]
fn legacy_schema() {
    let input = record(
        "Note",
        vec![
            field("id", ty("i64"), vec![]),
            field("text", ty("String"), vec![ColumnOption::Default(DefaultLiteral::Str("".into()))]),
            field("blob", generic("Vec", ty("u8")), vec![]),
            field("owner", ty("i64"), vec![ColumnOption::Relation, ColumnOption::Nullable]),
            field("skip_me", TypeShape::Other, vec![ColumnOption::Skip]),
        ],
        vec![cols(&["nope"])],
    );
    let s = legacy_impl_db_record(&input).unwrap();
    assert_eq!(s.table_name, "Notes");
    let summary: Vec<(usize, String, ColType, bool)> = s
        .columns
        .iter()
        .map(|c| (c.field, c.column.clone(), c.col_type, c.not_null))
        .collect();
    assert_eq!(
        summary,
        vec![
            (1, "text".to_string(), ColType::Text, true),
            (2, "blob".to_string(), ColType::Blob, true),
            (3, "owner".to_string(), ColType::Integer, false),
        ]
    );
    assert_eq!(s.columns[0].default.as_deref(), Some(""));
}

#[test]
fn legacy_schema_errors() {
    let input = record("T", vec![field("v", generic("Vec", ty("String")), vec![])], vec![]);
    let e = legacy_impl_db_record(&input).unwrap_err();
    assert_eq!(e.site, ErrorSite::FieldType { field: 0 });
    assert_eq!(e.message.as_deref(), Some("Only Vec<u8> is supported as ColType::Blob"));
}
