//! One field of a DSL model: its flags, its attributes, its rendering, and
//! the tokenizer that reads a field line back.

use vstd::prelude::*;

use crate::text::{opt_view, seq_views, spec_contains, spec_join, spec_replace, spec_spaces,
    contains_str, join_str, replace_str, spaces, str_eq, clone_string, clone_opt_string, split_str,
    starts_with_str, ends_with_str, strip_prefix_str, strip_suffix_str, count_char, sum_lens,
    lemma_split_sum, lemma_sum_lens_push, lemma_count_le_len};
use crate::translators::error::ParseError;
use crate::translators::relation::{Relation, RelationV, relation_text};
use crate::translators::unique_flag::{UniqueFlag, unique_text};

verus! {

/// The mathematical shape of one field.
pub struct FieldV {
    pub name: Seq<char>,
    pub target_name_width: nat,
    pub field_type: Seq<char>,
    pub target_field_type_width: nat,
    pub db_type_annotation: Option<Seq<char>>,
    pub is_required: bool,
    pub is_array: bool,
    pub is_id: bool,
    pub relation: Option<RelationV>,
    pub default: Option<Seq<char>>,
    pub unique: Option<Option<Seq<char>>>,
}

/// One field of a model.
#[derive(Debug)]
pub struct Field {
    pub name: String,
    pub target_name_width: usize,
    pub field_type: String,
    pub target_field_type_width: usize,
    pub db_type_annotation: Option<String>,
    pub is_required: bool,
    pub is_array: bool,
    pub is_id: bool,
    pub relation: Option<Relation>,
    pub default: Option<String>,
    pub unique: Option<UniqueFlag>,
}

impl View for Field {
    type V = FieldV;

    open spec fn view(&self) -> FieldV {
        FieldV {
            name: self.name@,
            target_name_width: self.target_name_width as nat,
            field_type: self.field_type@,
            target_field_type_width: self.target_field_type_width as nat,
            db_type_annotation: opt_view(self.db_type_annotation),
            is_required: self.is_required,
            is_array: self.is_array,
            is_id: self.is_id,
            relation: match self.relation {
                Some(r) => Some(r@),
                None => None,
            },
            default: opt_view(self.default),
            unique: match self.unique {
                Some(u) => Some(opt_view(u.map)),
                None => None,
            },
        }
    }
}

/// The field type the raw catalog type string maps to, by the first matching
/// rule of the type-mapping table.
pub open spec fn spec_base_field_type(db: Seq<char>) -> Seq<char> {
    if db == "tinyint(1)"@ {
        "Boolean"@
    } else if spec_contains(db, "tinyint"@) {
        "Int"@
    } else if spec_contains(db, "smallint"@) {
        "Int"@
    } else if spec_contains(db, "mediumint"@) {
        "Int"@
    } else if spec_contains(db, "int"@) {
        "Int"@
    } else if spec_contains(db, "bigint"@) {
        "Int"@
    } else if spec_contains(db, "float"@) {
        "Float"@
    } else if spec_contains(db, "double"@) {
        "Float"@
    } else if spec_contains(db, "decimal"@) {
        "Decimal"@
    } else if spec_contains(db, "date"@) {
        "DateTime"@
    } else if spec_contains(db, "time"@) {
        "DateTime"@
    } else if spec_contains(db, "timestamp"@) {
        "DateTime"@
    } else if spec_contains(db, "year"@) {
        "Int"@
    } else if spec_contains(db, "bool"@) {
        "Boolean"@
    } else if spec_contains(db, "json"@) {
        "Json"@
    } else {
        "String"@
    }
}

/// The declared field type: the mapped base type, with the optionality
/// marker appended when the column is not required.
pub open spec fn spec_field_type(db: Seq<char>, required: bool) -> Seq<char> {
    if required {
        spec_base_field_type(db)
    } else {
        spec_base_field_type(db) + "?"@
    }
}

/// The annotation suffix the raw catalog type maps to: lowercase engine
/// types are substituted (size suffixes kept), already-capitalized
/// annotations pass through, anything else maps to nothing.
pub open spec fn spec_db_annotation_body(db: Seq<char>) -> Option<Seq<char>> {
    if spec_contains(db, "tinyint"@) {
        Some("TinyInt"@)
    } else if spec_contains(db, "smallint"@) && spec_contains(db, "unsigned"@) {
        Some(spec_replace(db, "smallint unsigned"@, "UnsignedSmallInt"@))
    } else if spec_contains(db, "smallint"@) {
        Some(spec_replace(db, "smallint"@, "SmallInt"@))
    } else if spec_contains(db, "mediumint"@) && spec_contains(db, "unsigned"@) {
        Some(spec_replace(db, "mediumint unsigned"@, "UnsignedMediumInt"@))
    } else if spec_contains(db, "mediumint"@) {
        Some(spec_replace(db, "mediumint"@, "MediumInt"@))
    } else if spec_contains(db, "bigint"@) && spec_contains(db, "unsigned"@) {
        Some(spec_replace(db, "bigint unsigned"@, "UnsignedBigInt"@))
    } else if spec_contains(db, "bigint"@) {
        Some(spec_replace(db, "bigint"@, "BigInt"@))
    } else if spec_contains(db, "int"@) && spec_contains(db, "unsigned"@) {
        Some(spec_replace(db, "int unsigned"@, "UnsignedInt"@))
    } else if spec_contains(db, "int"@) {
        Some(spec_replace(db, "int"@, "Int"@))
    } else if spec_contains(db, "float"@) {
        Some("Float"@)
    } else if spec_contains(db, "double"@) {
        Some(spec_replace(db, "double"@, "Double"@))
    } else if spec_contains(db, "decimal"@) {
        Some(spec_replace(db, "decimal"@, "Decimal"@))
    } else if spec_contains(db, "datetime"@) {
        Some(spec_replace(db, "datetime"@, "DateTime"@))
    } else if spec_contains(db, "date"@) {
        Some(spec_replace(db, "date"@, "Date"@))
    } else if spec_contains(db, "time"@) {
        Some(spec_replace(db, "time"@, "Time"@))
    } else if spec_contains(db, "timestamp"@) {
        Some(spec_replace(db, "timestamp"@, "Timestamp"@))
    } else if spec_contains(db, "bool"@) {
        Some(spec_replace(db, "boolean"@, "Boolean"@))
    } else if spec_contains(db, "varchar"@) {
        Some(spec_replace(db, "varchar"@, "VarChar"@))
    } else if spec_contains(db, "mediumtext"@) {
        Some(spec_replace(db, "mediumtext"@, "MediumText"@))
    } else if spec_contains(db, "text"@) {
        Some(spec_replace(db, "text"@, "Text"@))
    } else if spec_contains(db, "json"@) {
        Some(spec_replace(db, "json"@, "Json"@))
    } else if spec_contains(db, "Text"@) || spec_contains(db, "Timestamp"@) || spec_contains(
        db,
        "VarChar"@,
    ) || spec_contains(db, "TinyInt"@) || spec_contains(db, "SmallInt"@) || spec_contains(
        db,
        "MediumInt"@,
    ) || spec_contains(db, "BigInt"@) || spec_contains(db, "Int"@) || spec_contains(db, "Float"@)
        || spec_contains(db, "Double"@) || spec_contains(db, "Decimal"@) || spec_contains(
        db,
        "DateTime"@,
    ) || spec_contains(db, "Date"@) || spec_contains(db, "Time"@) || spec_contains(db, "Boolean"@)
        || spec_contains(db, "Json"@) || spec_contains(db, "Binary"@) || spec_contains(
        db,
        "Blob"@,
    ) {
        Some(db)
    } else {
        None
    }
}

/// The rendered db-type attribute, when the annotation maps to one.
pub open spec fn spec_format_db_annotation(db: Option<Seq<char>>) -> Option<Seq<char>> {
    match db {
        None => None,
        Some(d) => match spec_db_annotation_body(d) {
            None => None,
            Some(b) => Some("@db."@ + b),
        },
    }
}

/// The attribute tokens of a field line, in their fixed order: the inline id
/// marker (only when the model has exactly one id field), the unique flag,
/// the default, the db-type annotation, the relation.
pub open spec fn field_attr_tokens(f: FieldV, number_of_id_fields: int) -> Seq<Seq<char>> {
    let a0 = Seq::<Seq<char>>::empty();
    let a1 = if f.is_id && number_of_id_fields == 1 {
        a0.push("@id"@)
    } else {
        a0
    };
    let a2 = match f.unique {
        Some(m) => a1.push(unique_text(m)),
        None => a1,
    };
    let a3 = match f.default {
        Some(d) => a2.push("@default("@ + d + ")"@),
        None => a2,
    };
    let a4 = match spec_format_db_annotation(f.db_type_annotation) {
        Some(db) => a3.push(db),
        None => a3,
    };
    match f.relation {
        Some(r) => a4.push(relation_text(r)),
        None => a4,
    }
}

/// One rendered field line, without its leading indent: the name padded to
/// the name column, one space, the type padded to the type column, one
/// space, then the attribute tokens separated by single spaces.
pub open spec fn field_text(f: FieldV, w1: nat, w2: nat, number_of_id_fields: int) -> Seq<char> {
    f.name + spec_spaces((w1 - f.name.len()) as nat) + " "@ + f.field_type + spec_spaces(
        (w2 - f.field_type.len()) as nat,
    ) + " "@ + spec_join(field_attr_tokens(f, number_of_id_fields), " "@)
}

impl Field {
    /// A blank field.
    pub fn new() -> (r: Field)
        ensures
            r.name@ == Seq::<char>::empty(),
            r.target_name_width == 0,
            r.field_type@ == Seq::<char>::empty(),
            r.target_field_type_width == 0,
            r.db_type_annotation is None,
            !r.is_required,
            !r.is_array,
            !r.is_id,
            r.relation is None,
            r.default is None,
            r.unique is None,
    {
        Field {
            name: String::new(),
            target_name_width: 0,
            field_type: String::new(),
            target_field_type_width: 0,
            db_type_annotation: None,
            is_required: false,
            is_array: false,
            is_id: false,
            relation: None,
            default: None,
            unique: None,
        }
    }

    /// Renames the field.
    pub fn set_name(&mut self, name: String)
        ensures
            *final(self) == (Field { name, ..*old(self) }),
    {
        self.name = name;
    }

    /// Widens the name column target, never narrowing it.
    pub fn set_target_name_length(&mut self, length: usize)
        ensures
            *final(self) == (Field {
                target_name_width: if length > old(self).target_name_width {
                    length
                } else {
                    old(self).target_name_width
                },
                ..*old(self)
            }),
    {
        if length > self.target_name_width {
            self.target_name_width = length;
        }
    }

    /// Replaces the declared field type.
    pub fn set_field_type(&mut self, field_type: String)
        ensures
            *final(self) == (Field { field_type, ..*old(self) }),
    {
        self.field_type = field_type;
    }

    /// Replaces the db-type annotation.
    pub fn set_db_type_annotation(&mut self, db_type_annotation: String)
        ensures
            *final(self) == (Field {
                db_type_annotation: Some(db_type_annotation),
                ..*old(self)
            }),
    {
        self.db_type_annotation = Some(db_type_annotation);
    }

    /// Widens the type column target, never narrowing it.
    pub fn set_field_type_length(&mut self, length: usize)
        ensures
            *final(self) == (Field {
                target_field_type_width: if length > old(self).target_field_type_width {
                    length
                } else {
                    old(self).target_field_type_width
                },
                ..*old(self)
            }),
    {
        if length > self.target_field_type_width {
            self.target_field_type_width = length;
        }
    }

    /// Marks the field required or optional.
    pub fn set_is_required(&mut self, is_required: bool)
        ensures
            *final(self) == (Field { is_required, ..*old(self) }),
    {
        self.is_required = is_required;
    }

    /// Replaces the unique flag.
    pub fn set_unique(&mut self, unique: Option<UniqueFlag>)
        ensures
            *final(self) == (Field { unique, ..*old(self) }),
    {
        self.unique = unique;
    }

    /// Marks the field as an id field or not.
    pub fn set_is_id(&mut self, is_id: bool)
        ensures
            *final(self) == (Field { is_id, ..*old(self) }),
    {
        self.is_id = is_id;
    }

    /// The field type that the raw catalog type string maps to, with the
    /// optionality marker when this field is not required.
    pub fn get_field_type_from_db_type(&self, db_type: &str) -> (r: String)
        ensures
            r@ == spec_field_type(db_type@, self.is_required),
    {
        let mut resp = String::new();
        if str_eq(db_type, "tinyint(1)") {
            resp.append("Boolean");
        } else if contains_str(db_type, "tinyint") {
            resp.append("Int");
        } else if contains_str(db_type, "smallint") {
            resp.append("Int");
        } else if contains_str(db_type, "mediumint") {
            resp.append("Int");
        } else if contains_str(db_type, "int") {
            resp.append("Int");
        } else if contains_str(db_type, "bigint") {
            resp.append("Int");
        } else if contains_str(db_type, "float") {
            resp.append("Float");
        } else if contains_str(db_type, "double") {
            resp.append("Float");
        } else if contains_str(db_type, "decimal") {
            resp.append("Decimal");
        } else if contains_str(db_type, "date") {
            resp.append("DateTime");
        } else if contains_str(db_type, "time") {
            resp.append("DateTime");
        } else if contains_str(db_type, "timestamp") {
            resp.append("DateTime");
        } else if contains_str(db_type, "year") {
            resp.append("Int");
        } else if contains_str(db_type, "bool") {
            resp.append("Boolean");
        } else if contains_str(db_type, "json") {
            resp.append("Json");
        } else {
            resp.append("String");
        }
        if !self.is_required {
            resp.append("?");
        }
        resp
    }

    /// The rendered db-type attribute of this field, when its annotation
    /// maps to one.
    pub fn format_db_annotation(&self) -> (r: Option<String>)
        ensures
            opt_view(r) == spec_format_db_annotation(opt_view(self.db_type_annotation)),
    {
        let d = match &self.db_type_annotation {
            Some(d) => d,
            None => {
                return None;
            },
        };
        let db = d.as_str();
        let mut resp = String::new();
        resp.append("@db.");
        if contains_str(db, "tinyint") {
            resp.append("TinyInt");
        } else if contains_str(db, "smallint") && contains_str(db, "unsigned") {
            resp.append(replace_str(db, "smallint unsigned", "UnsignedSmallInt").as_str());
        } else if contains_str(db, "smallint") {
            resp.append(replace_str(db, "smallint", "SmallInt").as_str());
        } else if contains_str(db, "mediumint") && contains_str(db, "unsigned") {
            resp.append(replace_str(db, "mediumint unsigned", "UnsignedMediumInt").as_str());
        } else if contains_str(db, "mediumint") {
            resp.append(replace_str(db, "mediumint", "MediumInt").as_str());
        } else if contains_str(db, "bigint") && contains_str(db, "unsigned") {
            resp.append(replace_str(db, "bigint unsigned", "UnsignedBigInt").as_str());
        } else if contains_str(db, "bigint") {
            resp.append(replace_str(db, "bigint", "BigInt").as_str());
        } else if contains_str(db, "int") && contains_str(db, "unsigned") {
            resp.append(replace_str(db, "int unsigned", "UnsignedInt").as_str());
        } else if contains_str(db, "int") {
            resp.append(replace_str(db, "int", "Int").as_str());
        } else if contains_str(db, "float") {
            resp.append("Float");
        } else if contains_str(db, "double") {
            resp.append(replace_str(db, "double", "Double").as_str());
        } else if contains_str(db, "decimal") {
            resp.append(replace_str(db, "decimal", "Decimal").as_str());
        } else if contains_str(db, "datetime") {
            resp.append(replace_str(db, "datetime", "DateTime").as_str());
        } else if contains_str(db, "date") {
            resp.append(replace_str(db, "date", "Date").as_str());
        } else if contains_str(db, "time") {
            resp.append(replace_str(db, "time", "Time").as_str());
        } else if contains_str(db, "timestamp") {
            resp.append(replace_str(db, "timestamp", "Timestamp").as_str());
        } else if contains_str(db, "bool") {
            resp.append(replace_str(db, "boolean", "Boolean").as_str());
        } else if contains_str(db, "varchar") {
            resp.append(replace_str(db, "varchar", "VarChar").as_str());
        } else if contains_str(db, "mediumtext") {
            resp.append(replace_str(db, "mediumtext", "MediumText").as_str());
        } else if contains_str(db, "text") {
            resp.append(replace_str(db, "text", "Text").as_str());
        } else if contains_str(db, "json") {
            resp.append(replace_str(db, "json", "Json").as_str());
        } else if contains_str(db, "Text") || contains_str(db, "Timestamp") || contains_str(
            db,
            "VarChar",
        ) || contains_str(db, "TinyInt") || contains_str(db, "SmallInt") || contains_str(
            db,
            "MediumInt",
        ) || contains_str(db, "BigInt") || contains_str(db, "Int") || contains_str(db, "Float")
            || contains_str(db, "Double") || contains_str(db, "Decimal") || contains_str(
            db,
            "DateTime",
        ) || contains_str(db, "Date") || contains_str(db, "Time") || contains_str(db, "Boolean")
            || contains_str(db, "Json") || contains_str(db, "Binary") || contains_str(
            db,
            "Blob",
        ) {
            resp.append(db);
        } else {
            return None;
        }
        proof {
            reveal_strlit("");
        }
        Some(resp)
    }

    /// One rendered field line, without its leading indent. The paddings
    /// assume the widths cover the name and type; an annotation that maps to
    /// no attribute is omitted.
    pub fn as_text(&self, max_name_width: usize, max_field_width: usize,
        number_of_id_fields: usize) -> (r: String)
        requires
            self.name@.len() <= max_name_width,
            self.field_type@.len() <= max_field_width,
        ensures
            r@ == field_text(
                self@,
                max_name_width as nat,
                max_field_width as nat,
                number_of_id_fields as int,
            ),
    {
        let mut tokens: Vec<String> = Vec::new();
        if self.is_id && number_of_id_fields == 1 {
            tokens.push(String::from_str("@id"));
        }
        if let Some(u) = &self.unique {
            tokens.push(u.as_text());
        }
        if let Some(d) = &self.default {
            let mut t = String::new();
            t.append("@default(");
            t.append(d.as_str());
            t.append(")");
            tokens.push(t);
        }
        if self.db_type_annotation.is_some() {
            match self.format_db_annotation() {
                Some(db) => tokens.push(db),
                None => {},
            }
        }
        if let Some(rel) = &self.relation {
            tokens.push(rel.as_text());
        }
        proof {
            assert(seq_views(tokens@) =~~= field_attr_tokens(self@, number_of_id_fields as int));
        }
        let name_len = self.name.as_str().unicode_len();
        let type_len = self.field_type.as_str().unicode_len();
        let mut r = String::new();
        r.append(self.name.as_str());
        r.append(spaces(max_name_width - name_len).as_str());
        r.append(" ");
        r.append(self.field_type.as_str());
        r.append(spaces(max_field_width - type_len).as_str());
        r.append(" ");
        r.append(join_str(&tokens, " ").as_str());
        proof {
            assert(r@ =~= field_text(
                self@,
                max_name_width as nat,
                max_field_width as nat,
                number_of_id_fields as int,
            ));
        }
        r
    }

    /// An exact copy of this field.
    pub fn duplicate(&self) -> (r: Field)
        ensures
            r@ == self@,
    {
        let relation = match &self.relation {
            Some(rel) => Some(
                Relation {
                    map: clone_opt_string(&rel.map),
                    fields: match &rel.fields {
                        Some(v) => Some(crate::text::clone_string_vec(v)),
                        None => None,
                    },
                    references: match &rel.references {
                        Some(v) => Some(crate::text::clone_string_vec(v)),
                        None => None,
                    },
                    on_update: clone_opt_string(&rel.on_update),
                    on_delete: clone_opt_string(&rel.on_delete),
                },
            ),
            None => None,
        };
        let unique = match &self.unique {
            Some(u) => Some(u.duplicate()),
            None => None,
        };
        let r = Field {
            name: clone_string(&self.name),
            target_name_width: self.target_name_width,
            field_type: clone_string(&self.field_type),
            target_field_type_width: self.target_field_type_width,
            db_type_annotation: clone_opt_string(&self.db_type_annotation),
            is_required: self.is_required,
            is_array: self.is_array,
            is_id: self.is_id,
            relation,
            default: clone_opt_string(&self.default),
            unique,
        };
        r
    }
}

/// Two fields are equal when their name, type, flags and attributes agree;
/// the column-width targets are formatting cache and do not count.
impl PartialEq for Field {
    fn eq(&self, other: &Self) -> (r: bool) {
        str_eq(self.name.as_str(), other.name.as_str())
            && str_eq(self.field_type.as_str(), other.field_type.as_str())
            && self.is_id == other.is_id
            && self.is_required == other.is_required
            && (match (&self.unique, &other.unique) {
                (Some(a), Some(b)) => crate::text::opt_str_eq(&a.map, &b.map),
                (None, None) => true,
                _ => false,
            })
            && crate::text::opt_str_eq(&self.default, &other.default)
            && crate::text::opt_str_eq(&self.db_type_annotation, &other.db_type_annotation)
            && crate::translators::relation::rel_opt_eq(&self.relation, &other.relation)
    }
}

/// Two fields agree on everything but the formatting-cache widths.
pub open spec fn field_eq_v(a: FieldV, b: FieldV) -> bool {
    &&& a.name == b.name
    &&& a.field_type == b.field_type
    &&& a.is_id == b.is_id
    &&& a.is_required == b.is_required
    &&& a.unique == b.unique
    &&& a.default == b.default
    &&& a.db_type_annotation == b.db_type_annotation
    &&& a.relation == b.relation
}

impl vstd::std_specs::cmp::PartialEqSpecImpl for Field {
    open spec fn obeys_eq_spec() -> bool {
        true
    }

    open spec fn eq_spec(&self, other: &Self) -> bool {
        field_eq_v(self@, other@)
    }
}

/// Parse state while a field line's tokens are read.
pub struct FieldAcc {
    pub seen: nat,
    pub name: Seq<char>,
    pub field_type: Seq<char>,
    pub is_array: bool,
    pub is_required: bool,
    pub is_id: bool,
    pub default: Option<Seq<char>>,
    pub db: Option<Seq<char>>,
    pub relation: Option<RelationV>,
    pub parsing: bool,
    pub buffer: Seq<char>,
    pub parens: nat,
    pub brackets: nat,
    pub braces: nat,
}

/// What one token, or a whole line, does to the parse.
pub enum FieldStep {
    Cont(FieldAcc),
    Drop,
    Fail(ParseError),
}

/// The state before any token was read.
pub open spec fn field_acc_init() -> FieldAcc {
    FieldAcc {
        seen: 0,
        name: Seq::empty(),
        field_type: Seq::empty(),
        is_array: false,
        is_required: true,
        is_id: false,
        default: None,
        db: None,
        relation: None,
        parsing: false,
        buffer: Seq::empty(),
        parens: 0,
        brackets: 0,
        braces: 0,
    }
}

/// One non-empty token folded into the parse state: the first two tokens are
/// name and declared type; later tokens set flags, open and close delimiter
/// accumulation, and dispatch the finished attribute buffer by its prefix.
pub open spec fn spec_field_token(acc: FieldAcc, piece: Seq<char>) -> FieldStep {
    if acc.seen == 0 {
        FieldStep::Cont(FieldAcc { seen: 1, name: piece, ..acc })
    } else if acc.seen == 1 {
        FieldStep::Cont(
            FieldAcc {
                seen: 2,
                field_type: piece,
                is_array: spec_contains(piece, "[]"@),
                is_required: !spec_contains(piece, "?"@),
                ..acc
            },
        )
    } else if spec_contains(piece, "@id"@) {
        FieldStep::Cont(FieldAcc { is_id: true, ..acc })
    } else {
        let after_default = if spec_contains(piece, "@default"@) {
            match crate::text::strip_pre(piece, "@default("@) {
                None => None,
                Some(t) => match crate::text::strip_suf(t, ")"@) {
                    None => None,
                    Some(inner) => Some(FieldAcc { default: Some(inner), ..acc }),
                },
            }
        } else {
            Some(acc)
        };
        match after_default {
            None => FieldStep::Drop,
            Some(acc1) => {
                let after_db = if spec_contains(piece, "@db."@) {
                    if acc1.db is Some {
                        None
                    } else {
                        Some(
                            FieldAcc {
                                db: Some(
                                    match crate::text::strip_pre(piece, "@db."@) {
                                        Some(t) => t,
                                        None => piece,
                                    },
                                ),
                                ..acc1
                            },
                        )
                    }
                } else {
                    Some(acc1)
                };
                match after_db {
                    None => FieldStep::Drop,
                    Some(acc2) => {
                        let acc3 = if spec_contains(piece, "("@) || spec_contains(piece, "["@)
                            || spec_contains(piece, "{"@) {
                            FieldAcc {
                                parsing: true,
                                parens: acc2.parens + crate::text::spec_count_char(piece, '('),
                                brackets: acc2.brackets + crate::text::spec_count_char(piece, '['),
                                braces: acc2.braces + crate::text::spec_count_char(piece, '{'),
                                ..acc2
                            }
                        } else {
                            acc2
                        };
                        let acc4 = if acc3.parsing {
                            FieldAcc {
                                buffer: acc3.buffer + piece + (if ","@.is_suffix_of(piece) {
                                    " "@
                                } else {
                                    Seq::empty()
                                }),
                                ..acc3
                            }
                        } else {
                            acc3
                        };
                        if spec_contains(piece, ")"@) || spec_contains(piece, "]"@)
                            || spec_contains(piece, "}"@) {
                            let dp = crate::text::spec_count_char(piece, ')');
                            let dk = crate::text::spec_count_char(piece, ']');
                            let dr = crate::text::spec_count_char(piece, '}');
                            if dp > acc4.parens || dk > acc4.brackets || dr > acc4.braces {
                                FieldStep::Drop
                            } else {
                                let acc5 = FieldAcc {
                                    parens: (acc4.parens - dp) as nat,
                                    brackets: (acc4.brackets - dk) as nat,
                                    braces: (acc4.braces - dr) as nat,
                                    ..acc4
                                };
                                if acc5.parens == 0 && acc5.brackets == 0 && acc5.braces == 0 {
                                    let acc6 = FieldAcc { parsing: false, ..acc5 };
                                    if acc6.buffer.len() > 0 {
                                        if "@db."@.is_prefix_of(acc6.buffer) {
                                            FieldStep::Cont(
                                                FieldAcc {
                                                    db: Some(
                                                        acc6.buffer.skip("@db."@.len() as int),
                                                    ),
                                                    buffer: Seq::empty(),
                                                    ..acc6
                                                },
                                            )
                                        } else if "@relation"@.is_prefix_of(acc6.buffer) {
                                            match crate::translators::relation::spec_parse_relation(
                                                acc6.buffer,
                                            ) {
                                                Err(e) => FieldStep::Fail(e),
                                                Ok(rv) => FieldStep::Cont(
                                                    FieldAcc {
                                                        relation: Some(rv),
                                                        buffer: Seq::empty(),
                                                        ..acc6
                                                    },
                                                ),
                                            }
                                        } else {
                                            FieldStep::Cont(
                                                FieldAcc { buffer: Seq::empty(), ..acc6 },
                                            )
                                        }
                                    } else {
                                        FieldStep::Cont(acc6)
                                    }
                                } else {
                                    FieldStep::Cont(acc5)
                                }
                            }
                        } else {
                            FieldStep::Cont(acc4)
                        }
                    },
                }
            },
        }
    }
}

/// The tokens folded left to right; empty tokens are skipped.
pub open spec fn spec_field_tokens(pieces: Seq<Seq<char>>, acc: FieldAcc) -> FieldStep
    decreases pieces.len(),
{
    if pieces.len() == 0 {
        FieldStep::Cont(acc)
    } else if pieces[0].len() == 0 {
        spec_field_tokens(pieces.skip(1), acc)
    } else {
        match spec_field_token(acc, pieces[0]) {
            FieldStep::Cont(a) => spec_field_tokens(pieces.skip(1), a),
            FieldStep::Drop => FieldStep::Drop,
            FieldStep::Fail(e) => FieldStep::Fail(e),
        }
    }
}

/// The last entry that contains `pat`, scanning from the end.
pub open spec fn last_containing(pieces: Seq<Seq<char>>, pat: Seq<char>) -> Option<Seq<char>>
    decreases pieces.len(),
{
    if pieces.len() == 0 {
        None
    } else if spec_contains(pieces.last(), pat) {
        Some(pieces.last())
    } else {
        last_containing(pieces.drop_last(), pat)
    }
}

/// The `@unique...` attribute piece of the line, when the line holds one:
/// from its `@` up to the next `@` or the end of the line.
pub open spec fn spec_unique_piece(line: Seq<char>) -> Option<Seq<char>> {
    if spec_contains(line, "@unique"@) {
        match last_containing(crate::text::spec_split(line, "@"@).skip(1), "unique"@) {
            Some(p) => Some("@"@ + p),
            None => None,
        }
    } else {
        None
    }
}

/// What a whole field line parses to.
pub enum FieldParse {
    Parsed(FieldV),
    Dropped,
    Failed(ParseError),
}

/// The finished token state turned into a field: a line whose delimiters
/// never balanced, and the closing-brace line, are dropped.
pub open spec fn spec_finalize_field(acc: FieldAcc, unique: Option<Option<Seq<char>>>)
    -> FieldParse {
    if acc.parsing {
        FieldParse::Dropped
    } else if acc.name == "}"@ {
        FieldParse::Dropped
    } else {
        FieldParse::Parsed(
            FieldV {
                name: acc.name,
                target_name_width: 0,
                field_type: acc.field_type,
                target_field_type_width: 0,
                db_type_annotation: acc.db,
                is_required: acc.is_required,
                is_array: acc.is_array,
                is_id: acc.is_id,
                relation: acc.relation,
                default: acc.default,
                unique,
            },
        )
    }
}

/// One field line parsed: directive lines are dropped; the `@unique`
/// attribute is cut out first and parsed on its own; the rest is whitespace
/// tokenization.
pub open spec fn spec_parse_field(line: Seq<char>) -> FieldParse {
    if "@@"@.is_prefix_of(line) || "@relation"@.is_prefix_of(line) {
        FieldParse::Dropped
    } else {
        match spec_unique_piece(line) {
            Some(u) => match crate::translators::unique_flag::spec_parse_unique(u) {
                None => FieldParse::Dropped,
                Some(m) => match spec_field_tokens(
                    crate::text::spec_split(spec_replace(line, u, Seq::empty()), " "@),
                    field_acc_init(),
                ) {
                    FieldStep::Cont(acc) => spec_finalize_field(acc, Some(m)),
                    FieldStep::Drop => FieldParse::Dropped,
                    FieldStep::Fail(e) => FieldParse::Failed(e),
                },
            },
            None => match spec_field_tokens(
                crate::text::spec_split(line, " "@),
                field_acc_init(),
            ) {
                FieldStep::Cont(acc) => spec_finalize_field(acc, None),
                FieldStep::Drop => FieldParse::Dropped,
                FieldStep::Fail(e) => FieldParse::Failed(e),
            },
        }
    }
}

/// The exec mirror of the token-fold parse state.
pub struct TokenState {
    pub seen: usize,
    pub name: String,
    pub ftype: String,
    pub is_array: bool,
    pub is_required: bool,
    pub is_id: bool,
    pub default_v: Option<String>,
    pub db_v: Option<String>,
    pub rel_v: Option<Relation>,
    pub parsing: bool,
    pub buffer: String,
    pub parens: usize,
    pub brackets: usize,
    pub braces: usize,
}

impl View for TokenState {
    type V = FieldAcc;

    open spec fn view(&self) -> FieldAcc {
        FieldAcc {
            seen: self.seen as nat,
            name: self.name@,
            field_type: self.ftype@,
            is_array: self.is_array,
            is_required: self.is_required,
            is_id: self.is_id,
            default: opt_view(self.default_v),
            db: opt_view(self.db_v),
            relation: match &self.rel_v {
                Some(rr) => Some(rr@),
                None => None,
            },
            parsing: self.parsing,
            buffer: self.buffer@,
            parens: self.parens as nat,
            brackets: self.brackets as nat,
            braces: self.braces as nat,
        }
    }
}

/// What one token did to the exec parse state.
pub enum TokenOutcome {
    Cont(TokenState),
    Dropped,
    Failed(ParseError),
}

/// Applies one non-empty token to the parse state.
#[verifier::rlimit(100)]
pub(crate) fn step_token(st: TokenState, piece: &str) -> (r: TokenOutcome)
    requires
        piece@.len() > 0,
        st@.parens + piece@.len() <= usize::MAX,
        st@.brackets + piece@.len() <= usize::MAX,
        st@.braces + piece@.len() <= usize::MAX,
        st@.seen <= 2,
    ensures
        match r {
            TokenOutcome::Cont(s2) => spec_field_token(st@, piece@) == FieldStep::Cont(s2@)
                && s2@.seen <= 2 && s2@.parens <= st@.parens + piece@.len() && s2@.brackets
                <= st@.brackets + piece@.len() && s2@.braces <= st@.braces + piece@.len(),
            TokenOutcome::Dropped => spec_field_token(st@, piece@) == FieldStep::Drop,
            TokenOutcome::Failed(e) => spec_field_token(st@, piece@) == FieldStep::Fail(e),
        },
{
    let mut st = st;
    if st.seen == 0 {
        st.name = piece.to_owned();
        st.seen = 1;
        return TokenOutcome::Cont(st);
    }
    if st.seen == 1 {
        st.ftype = piece.to_owned();
        st.is_array = contains_str(piece, "[]");
        st.is_required = !contains_str(piece, "?");
        st.seen = 2;
        return TokenOutcome::Cont(st);
    }
    if contains_str(piece, "@id") {
        st.is_id = true;
        return TokenOutcome::Cont(st);
    }
    if contains_str(piece, "@default") {
        let inner = match strip_prefix_str(piece, "@default(") {
            Some(t) => t,
            None => {
                return TokenOutcome::Dropped;
            },
        };
        let inner = match strip_suffix_str(inner.as_str(), ")") {
            Some(t) => t,
            None => {
                return TokenOutcome::Dropped;
            },
        };
        st.default_v = Some(inner);
    }
    if contains_str(piece, "@db.") {
        if st.db_v.is_some() {
            return TokenOutcome::Dropped;
        }
        st.db_v = Some(
            match strip_prefix_str(piece, "@db.") {
                Some(t) => t,
                None => piece.to_owned(),
            },
        );
    }
    if contains_str(piece, "(") || contains_str(piece, "[") || contains_str(piece, "{") {
        st.parsing = true;
        let c1 = count_char(piece, '(');
        let c2 = count_char(piece, '[');
        let c3 = count_char(piece, '{');
        proof {
            lemma_count_le_len(piece@, '(');
            lemma_count_le_len(piece@, '[');
            lemma_count_le_len(piece@, '{');
        }
        st.parens = st.parens + c1;
        st.brackets = st.brackets + c2;
        st.braces = st.braces + c3;
    }
    if st.parsing {
        st.buffer.append(piece);
        if ends_with_str(piece, ",") {
            st.buffer.append(" ");
        }
    }
    if contains_str(piece, ")") || contains_str(piece, "]") || contains_str(piece, "}") {
        let d1 = count_char(piece, ')');
        let d2 = count_char(piece, ']');
        let d3 = count_char(piece, '}');
        if d1 > st.parens || d2 > st.brackets || d3 > st.braces {
            return TokenOutcome::Dropped;
        }
        st.parens = st.parens - d1;
        st.brackets = st.brackets - d2;
        st.braces = st.braces - d3;
        if st.parens == 0 && st.brackets == 0 && st.braces == 0 {
            st.parsing = false;
            if st.buffer.as_str().unicode_len() > 0 {
                if starts_with_str(st.buffer.as_str(), "@db.") {
                    st.db_v = Some(
                        match strip_prefix_str(st.buffer.as_str(), "@db.") {
                            Some(t) => t,
                            None => {
                                proof {
                                    assert(false);
                                }
                                String::new()
                            },
                        },
                    );
                    st.buffer = String::new();
                } else if starts_with_str(st.buffer.as_str(), "@relation") {
                    match Relation::from_string(st.buffer.as_str()) {
                        Ok(rel) => {
                            st.rel_v = Some(rel);
                            st.buffer = String::new();
                        },
                        Err(e) => {
                            return TokenOutcome::Failed(e);
                        },
                    }
                } else {
                    st.buffer = String::new();
                }
            }
        }
    }
    TokenOutcome::Cont(st)
}

impl Field {
    /// Reads one field line. Directive lines, the model's closing brace, and
    /// lines whose delimiters never balance are dropped; a bad relation
    /// attribute aborts the whole parse.
    #[verifier::rlimit(100)]
    pub fn parse_from_disk(field_str: &str) -> (r: Result<Option<Field>, ParseError>)
        ensures
            match r {
                Ok(f_opt) => match f_opt {
                    Some(f) => spec_parse_field(field_str@) == FieldParse::Parsed(f@),
                    None => spec_parse_field(field_str@) == FieldParse::Dropped,
                },
                Err(e) => spec_parse_field(field_str@) == FieldParse::Failed(e),
            },
    {
        if starts_with_str(field_str, "@@") || starts_with_str(field_str, "@relation") {
            return Ok(None);
        }
        let has_unique = contains_str(field_str, "@unique");
        let mut line2: String = field_str.to_owned();
        let mut uq_flag: Option<UniqueFlag> = None;
        let ghost mut uq_view: Option<Option<Seq<char>>> = None;
        if has_unique {
            proof {
                reveal_strlit("@");
                reveal_strlit("");
            }
            let pieces_at = split_str(field_str, "@");
            let ghost s_tail = seq_views(pieces_at@).skip(1);
            let mut j: usize = pieces_at.len() - 1;
            let mut found_piece: Option<String> = None;
            proof {
                assert(s_tail.take(s_tail.len() as int) =~= s_tail);
            }
            while j > 0
                invariant
                    s_tail == seq_views(pieces_at@).skip(1),
                    s_tail.len() == pieces_at@.len() - 1,
                    0 <= j <= s_tail.len(),
                    found_piece matches Some(p) ==> last_containing(s_tail, "unique"@) == Some(
                        p@,
                    ),
                    found_piece is None ==> last_containing(s_tail, "unique"@) == last_containing(
                        s_tail.take(j as int),
                        "unique"@,
                    ),
                    found_piece is Some ==> j == 0,
                decreases j,
            {
                proof {
                    assert(s_tail[j - 1] == seq_views(pieces_at@)[j as int]);
                    assert(s_tail.take(j as int).last() == s_tail[j - 1]);
                    assert(s_tail.take(j as int).drop_last() =~= s_tail.take(j - 1));
                }
                if contains_str(pieces_at[j].as_str(), "unique") {
                    let ghost jp = j as int;
                    proof {
                        assert(seq_views(pieces_at@)[jp] == pieces_at@[jp]@);
                        assert(spec_contains(s_tail.take(jp).last(), "unique"@));
                        assert(last_containing(s_tail.take(jp), "unique"@) == Some(
                            s_tail[jp - 1],
                        ));
                        assert(last_containing(s_tail, "unique"@) == Some(s_tail[jp - 1]));
                    }
                    let picked = clone_string(&pieces_at[j]);
                    proof {
                        assert(picked@ == s_tail[jp - 1]);
                    }
                    found_piece = Some(picked);
                    j = 0;
                } else {
                    j -= 1;
                }
            }
            proof {
                assert(s_tail.take(0int) =~= Seq::<Seq<char>>::empty());
            }
            match found_piece {
                Some(p) => {
                    let mut up = String::from_str("@");
                    up.append(p.as_str());
                    proof {
                        assert(up@ =~= "@"@ + p@);
                        assert(spec_unique_piece(field_str@) == Some(up@));
                    }
                    line2 = replace_str(field_str, up.as_str(), "");
                    proof {
                        assert(""@ =~= Seq::<char>::empty());
                        assert(line2@ == spec_replace(field_str@, up@, Seq::empty()));
                    }
                    match UniqueFlag::from_string(up.as_str()) {
                        Some(u) => {
                            proof {
                                uq_view = Some(opt_view(u.map));
                            }
                            uq_flag = Some(u);
                        },
                        None => {
                            return Ok(None);
                        },
                    }
                },
                None => {
                    proof {
                        assert(spec_unique_piece(field_str@) is None);
                    }
                },
            }
        }
        proof {
            reveal_strlit(" ");
        }
        let tokens = split_str(line2.as_str(), " ");
        let ghost piecesv = seq_views(tokens@);
        let n2 = line2.as_str().unicode_len();
        proof {
            lemma_split_sum(line2@, " "@);
        }
        let ghost target = spec_parse_field(field_str@);
        proof {
            assert(target == (match spec_field_tokens(piecesv, field_acc_init()) {
                FieldStep::Cont(acc) => spec_finalize_field(acc, uq_view),
                FieldStep::Drop => FieldParse::Dropped,
                FieldStep::Fail(e) => FieldParse::Failed(e),
            }));
        }
        let mut st = TokenState {
            seen: 0,
            name: String::new(),
            ftype: String::new(),
            is_array: false,
            is_required: true,
            is_id: false,
            default_v: None,
            db_v: None,
            rel_v: None,
            parsing: false,
            buffer: String::new(),
            parens: 0,
            brackets: 0,
            braces: 0,
        };
        let mut i: usize = 0;
        proof {
            assert(piecesv.skip(0) =~= piecesv);
            assert(piecesv.take(0int) =~= Seq::<Seq<char>>::empty());
            assert(st@ == field_acc_init());
        }
        while i < tokens.len()
            invariant
                piecesv == seq_views(tokens@),
                0 <= i <= tokens@.len(),
                sum_lens(piecesv) <= n2,
                st@.seen <= 2,
                st@.parens <= sum_lens(piecesv.take(i as int)),
                st@.brackets <= sum_lens(piecesv.take(i as int)),
                st@.braces <= sum_lens(piecesv.take(i as int)),
                spec_field_tokens(piecesv, field_acc_init()) == spec_field_tokens(
                    piecesv.skip(i as int),
                    st@,
                ),
                target == (match spec_field_tokens(piecesv, field_acc_init()) {
                    FieldStep::Cont(acc) => spec_finalize_field(acc, uq_view),
                    FieldStep::Drop => FieldParse::Dropped,
                    FieldStep::Fail(e) => FieldParse::Failed(e),
                }),
                target == spec_parse_field(field_str@),
            decreases tokens@.len() - i,
        {
            let ghost piecev = piecesv[i as int];
            proof {
                assert(piecesv.skip(i as int)[0] == piecev);
                assert(piecesv.skip(i as int).skip(1) =~= piecesv.skip(i + 1));
                assert(piecesv.take(i + 1) =~= piecesv.take(i as int).push(piecev));
                lemma_sum_lens_push(piecesv.take(i as int), piecev);
                crate::text::lemma_sum_lens_take(piecesv, i + 1);
            }
            let piece_len = tokens[i].as_str().unicode_len();
            if piece_len == 0 {
                i += 1;
                continue;
            }
            st = match step_token(st, tokens[i].as_str()) {
                TokenOutcome::Cont(s2) => s2,
                TokenOutcome::Dropped => {
                    return Ok(None);
                },
                TokenOutcome::Failed(e) => {
                    return Err(e);
                },
            };
            i += 1;
        }
        proof {
            assert(piecesv.skip(piecesv.len() as int) =~= Seq::<Seq<char>>::empty());
        }
        if st.parsing {
            return Ok(None);
        }
        if str_eq(st.name.as_str(), "}") {
            return Ok(None);
        }
        let field = Field {
            name: st.name,
            target_name_width: 0,
            field_type: st.ftype,
            target_field_type_width: 0,
            db_type_annotation: st.db_v,
            is_required: st.is_required,
            is_array: st.is_array,
            is_id: st.is_id,
            relation: st.rel_v,
            default: st.default_v,
            unique: uq_flag,
        };
        Ok(Some(field))
    }
}

/// The mapped default literal: the current-timestamp marker becomes a call
/// expression, and the numeric literals become booleans only on a boolean
/// field; anything else is kept verbatim.
pub open spec fn spec_default_literal(d: Option<Seq<char>>, ftype: Seq<char>) -> Option<Seq<char>> {
    match d {
        None => None,
        Some(v) => if v == "CURRENT_TIMESTAMP"@ {
            Some("now()"@)
        } else if v == "1"@ && ftype == "Boolean"@ {
            Some("true"@)
        } else if v == "0"@ && ftype == "Boolean"@ {
            Some("false"@)
        } else {
            Some(v)
        },
    }
}

/// The field one catalog column description maps to: typed by the
/// type-mapping table, marked id on a primary key, unique on a primary or
/// unique key, with its raw type kept as the db annotation.
pub open spec fn spec_field_from_description(d: crate::sql::Description) -> FieldV {
    let required = d.null@ == "NO"@;
    let ftype = spec_field_type(d.type_@, required);
    FieldV {
        name: d.field@,
        target_name_width: d.field@.len(),
        field_type: ftype,
        target_field_type_width: ftype.len(),
        db_type_annotation: Some(d.type_@),
        is_required: required,
        is_array: false,
        is_id: spec_contains(d.key@, "PRI"@),
        relation: None,
        default: spec_default_literal(opt_view(d.default), ftype),
        unique: if spec_contains(d.key@, "PRI"@) || spec_contains(d.key@, "UNI"@) {
            Some(None)
        } else {
            None
        },
    }
}

impl Field {
    /// Builds the field for one catalog column description.
    pub fn from_description(description: &crate::sql::Description) -> (r: Field)
        ensures
            r@ == spec_field_from_description(*description),
    {
        let is_id = contains_str(description.key.as_str(), "PRI");
        let is_required = str_eq(description.null.as_str(), "NO");
        let unique = if is_id || contains_str(description.key.as_str(), "UNI") {
            Some(UniqueFlag { map: None })
        } else {
            None
        };
        let mut field = Field::new();
        field.set_is_id(is_id);
        field.set_is_required(is_required);
        field.set_unique(unique);
        let ftype = field.get_field_type_from_db_type(description.type_.as_str());
        let default = match &description.default {
            Some(d) => {
                if str_eq(d.as_str(), "CURRENT_TIMESTAMP") {
                    Some(String::from_str("now()"))
                } else if str_eq(d.as_str(), "1") && str_eq(ftype.as_str(), "Boolean") {
                    Some(String::from_str("true"))
                } else if str_eq(d.as_str(), "0") && str_eq(ftype.as_str(), "Boolean") {
                    Some(String::from_str("false"))
                } else {
                    Some(clone_string(d))
                }
            },
            None => None,
        };
        let name_len = description.field.as_str().unicode_len();
        let type_len = ftype.as_str().unicode_len();
        field.set_name(clone_string(&description.field));
        field.set_field_type(ftype);
        field.set_db_type_annotation(clone_string(&description.type_));
        field.default = default;
        field.set_target_name_length(name_len);
        field.set_field_type_length(type_len);
        field
    }
}

/// Within one model, every rendered field line starts its attribute tokens
/// at the same character column: after the name padded to the name column,
/// one space, the type padded to the type column, and one space — an offset
/// that depends on the two column widths alone, never on the field.
pub proof fn lemma_attr_alignment(f: FieldV, w1: nat, w2: nat, n: int)
    requires
        f.name.len() <= w1,
        f.field_type.len() <= w2,
    ensures
        field_text(f, w1, w2, n).len() == w1 + w2 + 2 + spec_join(
            field_attr_tokens(f, n),
            " "@,
        ).len(),
        field_text(f, w1, w2, n).skip(w1 + w2 + 2 as int) == spec_join(field_attr_tokens(f, n), " "@),
{
    reveal_strlit(" ");
    crate::text::lemma_spaces_len((w1 - f.name.len()) as nat);
    crate::text::lemma_spaces_len((w2 - f.field_type.len()) as nat);
    assert(field_text(f, w1, w2, n).skip(w1 + w2 + 2 as int) =~= spec_join(
        field_attr_tokens(f, n),
        " "@,
    ));
}

} // verus!
