//! Rust field types as the record derive reads them, and the SQL column type
//! and row accessor each maps to.
use crate::text::same_text;
use vstd::prelude::*;

verus! {

/// The shape of a field's type, as far as the derive looks at it.
#[derive(Debug)]
pub enum TypeShape {
    /// A path type such as `i64`, `String`, `Option<Game>` or `std::vec::Vec<u8>`.
    Path {
        /// The name of the last path segment (`Option`, `Vec`, ...).
        last: String,
        /// The first generic argument of the last segment, when it is a type.
        first_arg: Option<Box<TypeShape>>,
        /// The path is a single bare identifier (no `::`, no generic arguments).
        plain: bool,
    },
    /// Any other type (reference, tuple, array, ...).
    Other,
}

/// SQL column types.
#[derive(Debug, Clone, Copy, PartialEq, Eq, Structural)]
pub enum ColType {
    Integer,
    Real,
    Text,
    /// Raw bytes; only the legacy derive produces it.
    Blob,
}

/// The accessor that reads a column of a row back into a field.
#[derive(Debug, Clone, Copy, PartialEq, Eq, Structural)]
pub enum ValueGetter {
    AsI64,
    AsF64,
    AsText,
    AsBool,
}

/// The type inside `Option<...>`, when the type is one.
pub open spec fn option_inner(t: TypeShape) -> Option<TypeShape> {
    match t {
        TypeShape::Path { last, first_arg, plain } => if last@ == "Option"@ {
            match first_arg {
                Some(a) => Some(*a),
                None => None,
            }
        } else {
            None
        },
        TypeShape::Other => None,
    }
}

/// The names of the integer types.
pub open spec fn is_integer_name(n: Seq<char>) -> bool {
    ||| n == "i8"@
    ||| n == "i16"@
    ||| n == "i32"@
    ||| n == "i64"@
    ||| n == "u8"@
    ||| n == "u16"@
    ||| n == "u32"@
    ||| n == "u64"@
    ||| n == "isize"@
    ||| n == "usize"@
}

/// The names of the float types.
pub open spec fn is_float_name(n: Seq<char>) -> bool {
    n == "f32"@ || n == "f64"@
}

/// The message for a `Vec` field's column type.
pub open spec fn blob_column_message() -> Seq<char> {
    "Vec<u8> (BLOB) columns are not supported by this version of akgine (SqlValue/ColType have no Blob variant). Store bytes as base64-encoded Text instead, or add #[column(skip)] and handle this field manually."@
}

/// The message for a `Vec` field's accessor.
pub open spec fn blob_getter_message() -> Seq<char> {
    "Vec<u8> (BLOB) columns are not supported by this version of akgine (SqlValue has no as_blob() method). Store bytes as base64-encoded Text instead, or add #[column(skip)] and handle this field manually."@
}

/// The message for a field of a type with no column type.
pub open spec fn unsupported_type_message(name: Seq<char>) -> Seq<char> {
    "Unsupported type `"@ + name
        + "`. Add #[column(skip)], #[column(relation)] if this is a foreign key to another DbRecord type, or implement the mapping manually."@
}

/// The SQL column type of a field type, or the message it is refused with:
/// integers and `bool` are `Integer`, floats `Real`, `String` is `Text`.
pub open spec fn column_type(t: TypeShape) -> Result<ColType, Seq<char>> {
    match t {
        TypeShape::Path { last, first_arg, plain } => {
            let n = last@;
            if is_integer_name(n) || n == "bool"@ {
                Ok(ColType::Integer)
            } else if is_float_name(n) {
                Ok(ColType::Real)
            } else if n == "String"@ {
                Ok(ColType::Text)
            } else if n == "Vec"@ {
                Err(blob_column_message())
            } else {
                Err(unsupported_type_message(n))
            }
        },
        TypeShape::Other => Err("Cannot determine ColType for this type"@),
    }
}

/// The accessor that reads a field of this type back, or the message it is
/// refused with.
pub open spec fn value_getter(t: TypeShape) -> Result<ValueGetter, Seq<char>> {
    match t {
        TypeShape::Path { last, first_arg, plain } => {
            let n = last@;
            if is_integer_name(n) {
                Ok(ValueGetter::AsI64)
            } else if is_float_name(n) {
                Ok(ValueGetter::AsF64)
            } else if n == "String"@ {
                Ok(ValueGetter::AsText)
            } else if n == "bool"@ {
                Ok(ValueGetter::AsBool)
            } else if n == "Vec"@ {
                Err(blob_getter_message())
            } else {
                Err("Cannot map type to an as_xxx method"@)
            }
        },
        TypeShape::Other => Err("Cannot determine as_xxx method for this type"@),
    }
}

/// The SQL column type of a field type for the legacy derive, which also
/// accepts `Vec<u8>` as `Blob`.
pub open spec fn legacy_column_type(t: TypeShape) -> Result<ColType, Seq<char>> {
    match t {
        TypeShape::Path { last, first_arg, plain } => {
            let n = last@;
            if is_integer_name(n) || n == "bool"@ {
                Ok(ColType::Integer)
            } else if is_float_name(n) {
                Ok(ColType::Real)
            } else if n == "String"@ {
                Ok(ColType::Text)
            } else if n == "Vec"@ {
                match first_arg {
                    Some(a) => match *a {
                        TypeShape::Path { last: l, first_arg: _, plain: p } => if p && l@ == "u8"@ {
                            Ok(ColType::Blob)
                        } else {
                            Err("Only Vec<u8> is supported as ColType::Blob"@)
                        },
                        TypeShape::Other => Err("Only Vec<u8> is supported as ColType::Blob"@),
                    },
                    None => Err("Only Vec<u8> is supported as ColType::Blob"@),
                }
            } else {
                Err(
                    "Unsupported type `"@ + n
                        + "`. Add #[column(skip)] or implement the mapping manually."@,
                )
            }
        },
        TypeShape::Other => Err("Cannot determine ColType for this type"@),
    }
}

/// The texts of a result whose error is a `String`.
pub open spec fn err_text<T>(r: Result<T, String>) -> Result<T, Seq<char>> {
    match r {
        Ok(v) => Ok(v),
        Err(m) => Err(m@),
    }
}

fn is_integer_type_name(n: &str) -> (r: bool)
    ensures
        r == is_integer_name(n@),
{
    same_text(n, "i8") || same_text(n, "i16") || same_text(n, "i32") || same_text(n, "i64")
        || same_text(n, "u8") || same_text(n, "u16") || same_text(n, "u32") || same_text(
        n,
        "u64",
    ) || same_text(n, "isize") || same_text(n, "usize")
}

fn is_float_type_name(n: &str) -> (r: bool)
    ensures
        r == is_float_name(n@),
{
    same_text(n, "f32") || same_text(n, "f64")
}

/// Whether the type is an `Option`, and the type inside it.
pub fn unwrap_option(ty: &TypeShape) -> (r: (bool, Option<&TypeShape>))
    ensures
        r.0 == (option_inner(*ty) is Some),
        match r.1 {
            Some(inner) => option_inner(*ty) == Some(*inner),
            None => option_inner(*ty) is None,
        },
{
    match ty {
        TypeShape::Path { last, first_arg, plain: _ } => {
            if same_text(last.as_str(), "Option") {
                match first_arg {
                    Some(a) => (true, Some(&**a)),
                    None => (false, None),
                }
            } else {
                (false, None)
            }
        },
        TypeShape::Other => (false, None),
    }
}

fn unsupported_type_text(name: &str) -> (r: String)
    ensures
        r@ == unsupported_type_message(name@),
{
    let mut m = "Unsupported type `".to_owned();
    m.append(name);
    m.append(
        "`. Add #[column(skip)], #[column(relation)] if this is a foreign key to another DbRecord type, or implement the mapping manually.",
    );
    m
}

/// The SQL column type of a field type.
pub fn map_rust_type(ty: &TypeShape) -> (r: Result<ColType, String>)
    ensures
        err_text(r) == column_type(*ty),
{
    match ty {
        TypeShape::Path { last, first_arg: _, plain: _ } => {
            let n = last.as_str();
            if is_integer_type_name(n) || same_text(n, "bool") {
                Ok(ColType::Integer)
            } else if is_float_type_name(n) {
                Ok(ColType::Real)
            } else if same_text(n, "String") {
                Ok(ColType::Text)
            } else if same_text(n, "Vec") {
                Err(
                    "Vec<u8> (BLOB) columns are not supported by this version of akgine (SqlValue/ColType have no Blob variant). Store bytes as base64-encoded Text instead, or add #[column(skip)] and handle this field manually.".to_owned(),
                )
            } else {
                Err(unsupported_type_text(n))
            }
        },
        TypeShape::Other => Err("Cannot determine ColType for this type".to_owned()),
    }
}

/// The accessor that reads a field of this type back from a row.
pub fn map_rust_type_to_as_method(ty: &TypeShape) -> (r: Result<ValueGetter, String>)
    ensures
        err_text(r) == value_getter(*ty),
{
    match ty {
        TypeShape::Path { last, first_arg: _, plain: _ } => {
            let n = last.as_str();
            if is_integer_type_name(n) {
                Ok(ValueGetter::AsI64)
            } else if is_float_type_name(n) {
                Ok(ValueGetter::AsF64)
            } else if same_text(n, "String") {
                Ok(ValueGetter::AsText)
            } else if same_text(n, "bool") {
                Ok(ValueGetter::AsBool)
            } else if same_text(n, "Vec") {
                Err(
                    "Vec<u8> (BLOB) columns are not supported by this version of akgine (SqlValue has no as_blob() method). Store bytes as base64-encoded Text instead, or add #[column(skip)] and handle this field manually.".to_owned(),
                )
            } else {
                Err("Cannot map type to an as_xxx method".to_owned())
            }
        },
        TypeShape::Other => Err("Cannot determine as_xxx method for this type".to_owned()),
    }
}

/// The SQL column type of a field type for the legacy derive.
pub fn legacy_map_rust_type(ty: &TypeShape) -> (r: Result<ColType, String>)
    ensures
        err_text(r) == legacy_column_type(*ty),
{
    match ty {
        TypeShape::Path { last, first_arg, plain: _ } => {
            let n = last.as_str();
            if is_integer_type_name(n) || same_text(n, "bool") {
                Ok(ColType::Integer)
            } else if is_float_type_name(n) {
                Ok(ColType::Real)
            } else if same_text(n, "String") {
                Ok(ColType::Text)
            } else if same_text(n, "Vec") {
                match first_arg {
                    Some(a) => match &**a {
                        TypeShape::Path { last: l, first_arg: _, plain: p } => {
                            if *p && same_text(l.as_str(), "u8") {
                                Ok(ColType::Blob)
                            } else {
                                Err("Only Vec<u8> is supported as ColType::Blob".to_owned())
                            }
                        },
                        TypeShape::Other => Err(
                            "Only Vec<u8> is supported as ColType::Blob".to_owned(),
                        ),
                    },
                    None => Err("Only Vec<u8> is supported as ColType::Blob".to_owned()),
                }
            } else {
                let mut m = "Unsupported type `".to_owned();
                m.append(n);
                m.append("`. Add #[column(skip)] or implement the mapping manually.");
                Err(m)
            }
        },
        TypeShape::Other => Err("Cannot determine ColType for this type".to_owned()),
    }
}

} // verus!
