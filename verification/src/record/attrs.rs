//! The options of a field's `#[column(...)]` attributes, and the rules that
//! combine them: `skip`, `nullable`, `not_null` (which exclude each other),
//! `relation`, `name = "..."` and `default = <literal>`.
use vstd::prelude::*;

verus! {

/// The literal given to `default = ...`.
#[derive(Debug)]
pub enum DefaultLiteral {
    /// A string literal, by its value.
    Str(String),
    /// An integer literal, by its base-10 digits.
    Int(String),
    /// A float literal, by its base-10 digits.
    Float(String),
    Bool(bool),
    /// Any other kind of literal (byte, char, byte string, ...).
    Unsupported,
}

/// One option inside `#[column(...)]`, in the order written.
#[derive(Debug)]
pub enum ColumnOption {
    Skip,
    Nullable,
    NotNull,
    Relation,
    /// `name = "..."`.
    Name(String),
    /// `default = <literal>`.
    Default(DefaultLiteral),
    /// An option this derive does not know, which it ignores.
    Ignored,
    /// An option that could not be read; reading stops there.
    Malformed,
}

/// What a field's `#[column(...)]` options amount to.
#[derive(Debug)]
pub struct FieldAttrs {
    pub skip: bool,
    pub nullable: bool,
    pub not_null: bool,
    pub name: Option<String>,
    pub default: Option<String>,
    /// The field is a foreign key to another record type.
    pub relation: bool,
}

/// `FieldAttrs` as values.
pub struct AttrsView {
    pub skip: bool,
    pub nullable: bool,
    pub not_null: bool,
    pub name: Option<Seq<char>>,
    pub default: Option<Seq<char>>,
    pub relation: bool,
}

/// The text of an optional `String`.
pub open spec fn opt_text(s: Option<String>) -> Option<Seq<char>> {
    match s {
        Some(t) => Some(t@),
        None => None,
    }
}

impl View for FieldAttrs {
    type V = AttrsView;

    open spec fn view(&self) -> AttrsView {
        AttrsView {
            skip: self.skip,
            nullable: self.nullable,
            not_null: self.not_null,
            name: opt_text(self.name),
            default: opt_text(self.default),
            relation: self.relation,
        }
    }
}

/// Why the options of a field were refused: the option at `item` (counted
/// over all the field's `#[column]` attributes), with the message to give,
/// or `None` when that option could not be read at all.
#[derive(Debug)]
pub struct AttrError {
    pub item: usize,
    pub message: Option<String>,
}

/// The options before any is read.
pub open spec fn no_attrs() -> AttrsView {
    AttrsView {
        skip: false,
        nullable: false,
        not_null: false,
        name: None,
        default: None,
        relation: false,
    }
}

/// The text a default literal is stored as, or `None` for a kind of literal
/// that is not supported.
pub open spec fn default_text(lit: DefaultLiteral) -> Option<Seq<char>> {
    match lit {
        DefaultLiteral::Str(s) => Some(s@),
        DefaultLiteral::Int(d) => Some(d@),
        DefaultLiteral::Float(d) => Some(d@),
        DefaultLiteral::Bool(b) => Some(
            if b {
                "true"@
            } else {
                "false"@
            },
        ),
        DefaultLiteral::Unsupported => None,
    }
}

/// The effect of one option on the options read so far: the new options,
/// or the message it is refused with (`None`: it could not be read).
pub open spec fn apply_option(acc: AttrsView, opt: ColumnOption) -> Result<AttrsView, Option<Seq<char>>> {
    match opt {
        ColumnOption::Skip => Ok(AttrsView { skip: true, ..acc }),
        ColumnOption::Nullable => if acc.not_null {
            Err(Some("can't have nullable and not_null at the same type"@))
        } else {
            Ok(AttrsView { nullable: true, ..acc })
        },
        ColumnOption::NotNull => if acc.nullable {
            Err(Some("can't have not_null and nullable at the same type"@))
        } else {
            Ok(AttrsView { not_null: true, ..acc })
        },
        ColumnOption::Relation => Ok(AttrsView { relation: true, ..acc }),
        ColumnOption::Name(n) => Ok(AttrsView { name: Some(n@), ..acc }),
        ColumnOption::Default(lit) => match default_text(lit) {
            Some(t) => Ok(AttrsView { default: Some(t), ..acc }),
            None => Err(Some("Type de valeur par défaut non supporté"@)),
        },
        ColumnOption::Ignored => Ok(acc),
        ColumnOption::Malformed => Err(None),
    }
}

/// The options read in order: the first refused option stops the reading.
pub open spec fn read_options(opts: Seq<ColumnOption>) -> Result<AttrsView, (int, Option<Seq<char>>)>
    decreases opts.len(),
{
    if opts.len() == 0 {
        Ok(no_attrs())
    } else {
        match read_options(opts.drop_last()) {
            Err(e) => Err(e),
            Ok(acc) => match apply_option(acc, opts.last()) {
                Ok(a) => Ok(a),
                Err(m) => Err((opts.len() - 1, m)),
            },
        }
    }
}

/// `AttrError` as values.
pub open spec fn attr_error_view(e: AttrError) -> (int, Option<Seq<char>>) {
    (e.item as int, opt_text(e.message))
}

fn default_text_of(lit: &DefaultLiteral) -> (r: Option<String>)
    ensures
        opt_text(r) == default_text(*lit),
{
    match lit {
        DefaultLiteral::Str(s) => Some(s.clone()),
        DefaultLiteral::Int(d) => Some(d.clone()),
        DefaultLiteral::Float(d) => Some(d.clone()),
        DefaultLiteral::Bool(b) => Some(
            if *b {
                "true".to_owned()
            } else {
                "false".to_owned()
            },
        ),
        DefaultLiteral::Unsupported => None,
    }
}

impl FieldAttrs {
    /// Reads the options of a field's `#[column(...)]` attributes in order.
    /// `nullable` after `not_null` (or the other way round) and a default of
    /// an unsupported kind are refused; an option that could not be read
    /// stops the reading there.
    pub fn parse(options: &[ColumnOption]) -> (r: Result<FieldAttrs, AttrError>)
        ensures
            match r {
                Ok(a) => read_options(options@) == Ok::<AttrsView, (int, Option<Seq<char>>)>(a@),
                Err(e) => read_options(options@) == Err::<AttrsView, (int, Option<Seq<char>>)>(
                    attr_error_view(e),
                ),
            },
    {
        let mut out = FieldAttrs {
            skip: false,
            nullable: false,
            not_null: false,
            name: None,
            default: None,
            relation: false,
        };
        let mut i: usize = 0;
        assert(options@.take(0) =~= Seq::<ColumnOption>::empty());
        while i < options.len()
            invariant
                i <= options@.len(),
                read_options(options@.take(i as int)) == Ok::<AttrsView, (int, Option<Seq<char>>)>(
                    out@,
                ),
            decreases options@.len() - i,
        {
            assert(options@.take(i + 1).drop_last() == options@.take(i as int));
            assert(options@.take(i + 1).last() == options@[i as int]);
            match &options[i] {
                ColumnOption::Skip => {
                    out.skip = true;
                },
                ColumnOption::Nullable => {
                    if out.not_null {
                        let e = AttrError {
                            item: i,
                            message: Some("can't have nullable and not_null at the same type".to_owned()),
                        };
                        proof {
                            lemma_refusal_stays(options@, i as int + 1);
                        }
                        return Err(e);
                    }
                    out.nullable = true;
                },
                ColumnOption::NotNull => {
                    if out.nullable {
                        let e = AttrError {
                            item: i,
                            message: Some("can't have not_null and nullable at the same type".to_owned()),
                        };
                        proof {
                            lemma_refusal_stays(options@, i as int + 1);
                        }
                        return Err(e);
                    }
                    out.not_null = true;
                },
                ColumnOption::Relation => {
                    out.relation = true;
                },
                ColumnOption::Name(n) => {
                    out.name = Some(n.clone());
                },
                ColumnOption::Default(lit) => {
                    match default_text_of(lit) {
                        Some(t) => {
                            out.default = Some(t);
                        },
                        None => {
                            let e = AttrError {
                                item: i,
                                message: Some("Type de valeur par défaut non supporté".to_owned()),
                            };
                            proof {
                                lemma_refusal_stays(options@, i as int + 1);
                            }
                            return Err(e);
                        },
                    }
                },
                ColumnOption::Ignored => {},
                ColumnOption::Malformed => {
                    let e = AttrError { item: i, message: None };
                    proof {
                        lemma_refusal_stays(options@, i as int + 1);
                    }
                    return Err(e);
                },
            }
            i = i + 1;
        }
        assert(options@.take(i as int) == options@);
        Ok(out)
    }
}

/// Once a prefix of the options is refused, so is every longer prefix, with
/// the same error.
pub proof fn lemma_refusal_stays(opts: Seq<ColumnOption>, k: int)
    requires
        0 <= k <= opts.len(),
        read_options(opts.take(k)) is Err,
    ensures
        read_options(opts) == read_options(opts.take(k)),
    decreases opts.len() - k,
{
    if k < opts.len() {
        assert(opts.take(k + 1).drop_last() == opts.take(k));
        lemma_refusal_stays(opts, k + 1);
    } else {
        assert(opts.take(k) == opts);
    }
}

} // verus!
