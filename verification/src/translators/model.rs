//! One model block of a schema: its fields, its block directives, its
//! rendering with aligned columns, and the parser that reads a block back.

use vstd::prelude::*;

use crate::text::{clone_string, replace_str, seq_views, split_str, spec_replace, spec_split,
    spec_trim, starts_with_str, str_eq, trim_str};
use crate::translators::error::ParseError;
use crate::translators::field::{Field, FieldV, FieldParse, field_text, spec_parse_field};

verus! {

/// The mathematical shape of one model block.
pub struct ModelV {
    pub name: Seq<char>,
    pub fields: Seq<FieldV>,
    pub directives: Seq<Seq<char>>,
    pub name_column_width: nat,
    pub field_type_column_width: nat,
}

/// One model block of a schema.
#[derive(Debug)]
pub struct Model {
    pub name: String,
    pub fields: Vec<Field>,
    pub directives: Vec<String>,
    pub name_column_width: usize,
    pub field_type_column_width: usize,
}

/// The views of a sequence of fields.
pub open spec fn field_views(s: Seq<Field>) -> Seq<FieldV> {
    s.map_values(|f: Field| f@)
}

impl View for Model {
    type V = ModelV;

    open spec fn view(&self) -> ModelV {
        ModelV {
            name: self.name@,
            fields: field_views(self.fields@),
            directives: seq_views(self.directives@),
            name_column_width: self.name_column_width as nat,
            field_type_column_width: self.field_type_column_width as nat,
        }
    }
}

/// How many fields are marked as id fields.
pub open spec fn count_ids(fields: Seq<FieldV>) -> nat
    decreases fields.len(),
{
    if fields.len() == 0 {
        0
    } else {
        count_ids(fields.drop_last()) + if fields.last().is_id {
            1nat
        } else {
            0
        }
    }
}

/// The rendered field lines, one per field, each indented two spaces.
pub open spec fn fields_text(fields: Seq<FieldV>, w1: nat, w2: nat, n_ids: int) -> Seq<char>
    decreases fields.len(),
{
    if fields.len() == 0 {
        Seq::empty()
    } else {
        fields_text(fields.drop_last(), w1, w2, n_ids) + "  "@ + field_text(
            fields.last(),
            w1,
            w2,
            n_ids,
        ) + "\n"@
    }
}

/// The rendered directive block: a blank line before each directive.
pub open spec fn directives_text(ds: Seq<Seq<char>>) -> Seq<char>
    decreases ds.len(),
{
    if ds.len() == 0 {
        Seq::empty()
    } else {
        directives_text(ds.drop_last()) + "\n"@ + ds.last()
    }
}

/// The rendered model block.
pub open spec fn model_text(m: ModelV) -> Seq<char> {
    "model "@ + m.name + " {\n"@ + fields_text(
        m.fields,
        m.name_column_width,
        m.field_type_column_width,
        count_ids(m.fields) as int,
    ) + (if m.directives.len() > 0 {
        directives_text(m.directives) + "\n"@
    } else {
        Seq::empty()
    }) + "}\n"@
}

/// The widths cover every field, and every present annotation maps to an
/// attribute, so that the block can be rendered.
pub open spec fn model_wf(m: ModelV) -> bool {
    forall|k: int| 0 <= k < m.fields.len() ==> (#[trigger] m.fields[k]).name.len()
        <= m.name_column_width && m.fields[k].field_type.len() <= m.field_type_column_width
}

/// A column width driven up to one past `len`, saturating at the machine
/// limit.
pub open spec fn bump_width(len: nat, w: nat) -> nat {
    if len + 1 > w {
        if len + 1 <= usize::MAX {
            (len + 1) as nat
        } else {
            len
        }
    } else {
        w
    }
}

/// Parse state while a model block's lines are read.
pub struct ModelAcc {
    pub fields: Seq<FieldV>,
    pub directives: Seq<Seq<char>>,
    pub w1: nat,
    pub w2: nat,
}

/// The block's lines folded into the parse state: empty lines are skipped,
/// directive lines are stored verbatim, and every other line is read as a
/// field, widening the columns as fields arrive.
pub open spec fn spec_model_lines(lines: Seq<Seq<char>>, acc: ModelAcc) -> Result<
    ModelAcc,
    ParseError,
>
    decreases lines.len(),
{
    if lines.len() == 0 {
        Ok(acc)
    } else {
        let l = lines[0];
        if l.len() == 0 {
            spec_model_lines(lines.skip(1), acc)
        } else if "@@"@.is_prefix_of(spec_trim(l)) {
            spec_model_lines(
                lines.skip(1),
                ModelAcc { directives: acc.directives.push(l), ..acc },
            )
        } else {
            match spec_parse_field(spec_trim(l)) {
                FieldParse::Failed(e) => Err(e),
                FieldParse::Dropped => spec_model_lines(lines.skip(1), acc),
                FieldParse::Parsed(fv) => spec_model_lines(
                    lines.skip(1),
                    ModelAcc {
                        fields: acc.fields.push(fv),
                        w1: bump_width(fv.name.len(), acc.w1),
                        w2: bump_width(fv.field_type.len(), acc.w2),
                        ..acc
                    },
                ),
            }
        }
    }
}

/// Every parsed field given the model's final column widths.
pub open spec fn with_widths(fields: Seq<FieldV>, w1: nat, w2: nat) -> Seq<FieldV> {
    fields.map_values(
        |f: FieldV| FieldV { target_name_width: w1, target_field_type_width: w2, ..f },
    )
}

/// One model fragment parsed: the text before the opening brace, with its
/// spaces removed, names the model; a fragment without a name is not a
/// model; the rest is read line by line.
pub open spec fn spec_parse_model(s: Seq<char>) -> Result<Option<ModelV>, ParseError> {
    let pieces = spec_split(s, "{"@);
    let name = spec_replace(pieces[0], " "@, Seq::empty());
    if name.len() == 0 {
        Ok(None)
    } else if pieces.len() != 2 {
        Ok(None)
    } else {
        match spec_model_lines(
            spec_split(pieces[1], "\n"@),
            ModelAcc { fields: Seq::empty(), directives: Seq::empty(), w1: 0, w2: 0 },
        ) {
            Err(e) => Err(e),
            Ok(a) => Ok(
                Some(
                    ModelV {
                        name: name,
                        fields: with_widths(a.fields, a.w1, a.w2),
                        directives: a.directives,
                        name_column_width: a.w1,
                        field_type_column_width: a.w2,
                    },
                ),
            ),
        }
    }
}

impl Model {
    /// A blank model.
    pub fn new() -> (r: Model)
        ensures
            r@.name == Seq::<char>::empty(),
            r@.fields == Seq::<FieldV>::empty(),
            r@.directives == Seq::<Seq<char>>::empty(),
            r@.name_column_width == 0,
            r@.field_type_column_width == 0,
    {
        let r = Model {
            name: String::new(),
            fields: Vec::new(),
            directives: Vec::new(),
            name_column_width: 0,
            field_type_column_width: 0,
        };
        proof {
            assert(field_views(r.fields@) =~= Seq::<FieldV>::empty());
            assert(seq_views(r.directives@) =~= Seq::<Seq<char>>::empty());
        }
        r
    }

    /// Renames the model.
    pub fn set_name(&mut self, name: String)
        ensures
            final(self)@ == (ModelV { name: name@, ..old(self)@ }),
    {
        self.name = name;
        proof {
            assert(self@ =~~= (ModelV { name: self.name@, ..old(self)@ }));
        }
    }

    /// Appends one field.
    pub fn add_field(&mut self, field: Field)
        ensures
            final(self)@ == (ModelV { fields: old(self)@.fields.push(field@), ..old(self)@ }),
    {
        let ghost fv = field@;
        self.fields.push(field);
        proof {
            assert(field_views(self.fields@) =~~= field_views(old(self).fields@).push(fv));
            assert(self@ =~~= (ModelV { fields: old(self)@.fields.push(fv), ..old(self)@ }));
        }
    }

    /// How many of the model's fields are id fields.
    pub fn get_number_of_id_fields(&self) -> (r: usize)
        ensures
            r == count_ids(self@.fields),
    {
        let mut count: usize = 0;
        let mut i: usize = 0;
        proof {
            assert(self@.fields.take(0int) =~= Seq::<FieldV>::empty());
        }
        while i < self.fields.len()
            invariant
                0 <= i <= self.fields@.len(),
                self@.fields == field_views(self.fields@),
                count <= i,
                count == count_ids(self@.fields.take(i as int)),
            decreases self.fields@.len() - i,
        {
            proof {
                assert(self@.fields.take(i + 1).drop_last() =~= self@.fields.take(i as int));
                assert(self@.fields.take(i + 1).last() == self@.fields[i as int]);
            }
            if self.fields[i].is_id {
                count += 1;
            }
            i += 1;
        }
        proof {
            assert(self@.fields.take(self.fields@.len() as int) =~= self@.fields);
        }
        count
    }

    /// The block rendered as text: the header, one line per field, the
    /// directive block when one exists, and the closing brace.
    pub fn as_text(&self) -> (r: String)
        requires
            model_wf(self@),
        ensures
            r@ == model_text(self@),
    {
        let n_ids = self.get_number_of_id_fields();
        let mut r = String::new();
        r.append("model ");
        r.append(self.name.as_str());
        r.append(" {\n");
        let ghost header = "model "@ + self@.name + " {\n"@;
        proof {
            assert(r@ =~= header);
            assert(self@.fields.take(0int) =~= Seq::<FieldV>::empty());
        }
        let mut i: usize = 0;
        while i < self.fields.len()
            invariant
                model_wf(self@),
                self@.fields == field_views(self.fields@),
                0 <= i <= self.fields@.len(),
                n_ids == count_ids(self@.fields),
                r@ == header + fields_text(
                    self@.fields.take(i as int),
                    self@.name_column_width,
                    self@.field_type_column_width,
                    n_ids as int,
                ),
                header == "model "@ + self@.name + " {\n"@,
            decreases self.fields@.len() - i,
        {
            proof {
                assert(self@.fields.take(i + 1).drop_last() =~= self@.fields.take(i as int));
                assert(self@.fields.take(i + 1).last() == self@.fields[i as int]);
            }
            r.append("  ");
            r.append(
                self.fields[i].as_text(
                    self.name_column_width,
                    self.field_type_column_width,
                    n_ids,
                ).as_str(),
            );
            r.append("\n");
            proof {
                assert(r@ =~= header + fields_text(
                    self@.fields.take(i + 1),
                    self@.name_column_width,
                    self@.field_type_column_width,
                    n_ids as int,
                ));
            }
            i += 1;
        }
        proof {
            assert(self@.fields.take(self.fields@.len() as int) =~= self@.fields);
        }
        let ghost body = r@;
        if self.directives.len() > 0 {
            let mut j: usize = 0;
            proof {
                assert(self@.directives.take(0int) =~= Seq::<Seq<char>>::empty());
                assert(directives_text(self@.directives.take(0int)) =~= Seq::<char>::empty());
                assert(r@ =~= body + directives_text(self@.directives.take(0int)));
            }
            while j < self.directives.len()
                invariant
                    self@.directives == seq_views(self.directives@),
                    0 <= j <= self.directives@.len(),
                    r@ == body + directives_text(self@.directives.take(j as int)),
                decreases self.directives@.len() - j,
            {
                proof {
                    assert(self@.directives.take(j + 1).drop_last() =~= self@.directives.take(
                        j as int,
                    ));
                    assert(self@.directives.take(j + 1).last() == self@.directives[j as int]);
                }
                r.append("\n");
                r.append(self.directives[j].as_str());
                proof {
                    assert(r@ =~= body + directives_text(self@.directives.take(j + 1)));
                }
                j += 1;
            }
            proof {
                assert(self@.directives.take(self.directives@.len() as int) =~= self@.directives);
            }
            r.append("\n");
        }
        r.append("}\n");
        proof {
            assert(r@ =~= model_text(self@));
        }
        r
    }

    /// Reads one model fragment. A fragment with no name, or whose body is
    /// not a single block, is not a model; a bad relation attribute aborts
    /// the whole parse.
    #[verifier::rlimit(100)]
    pub fn parse_from_disk(model_str: &str) -> (r: Result<Option<Model>, ParseError>)
        ensures
            match r {
                Ok(m_opt) => match m_opt {
                    Some(m) => spec_parse_model(model_str@) == Ok::<Option<ModelV>, ParseError>(
                        Some(m@),
                    ),
                    None => spec_parse_model(model_str@) == Ok::<Option<ModelV>, ParseError>(None),
                },
                Err(e) => spec_parse_model(model_str@) == Err::<Option<ModelV>, ParseError>(e),
            },
    {
        proof {
            reveal_strlit("{");
            reveal_strlit("\n");
            reveal_strlit(" ");
            reveal_strlit("");
        }
        let pieces = split_str(model_str, "{");
        proof {
            assert(seq_views(pieces@)[0int] == pieces@[0int]@);
            assert(""@ =~= Seq::<char>::empty());
        }
        let name = replace_str(pieces[0].as_str(), " ", "");
        if name.as_str().unicode_len() == 0 {
            return Ok(None);
        }
        if pieces.len() != 2 {
            return Ok(None);
        }
        proof {
            assert(seq_views(pieces@)[1int] == pieces@[1int]@);
        }
        let lines = split_str(pieces[1].as_str(), "\n");
        let ghost linesv = seq_views(lines@);
        let ghost target = spec_parse_model(model_str@);
        let mut fields_raw: Vec<Field> = Vec::new();
        let mut directives: Vec<String> = Vec::new();
        let mut w1: usize = 0;
        let mut w2: usize = 0;
        let mut i: usize = 0;
        proof {
            assert(linesv.skip(0) =~= linesv);
            assert(field_views(fields_raw@) =~= Seq::<FieldV>::empty());
            assert(seq_views(directives@) =~= Seq::<Seq<char>>::empty());
        }
        while i < lines.len()
            invariant
                linesv == seq_views(lines@),
                0 <= i <= lines@.len(),
                target == spec_parse_model(model_str@),
                target == (match spec_model_lines(
                    linesv.skip(i as int),
                    ModelAcc {
                        fields: field_views(fields_raw@),
                        directives: seq_views(directives@),
                        w1: w1 as nat,
                        w2: w2 as nat,
                    },
                ) {
                    Err(e) => Err::<Option<ModelV>, ParseError>(e),
                    Ok(a) => Ok(
                        Some(
                            ModelV {
                                name: name@,
                                fields: with_widths(a.fields, a.w1, a.w2),
                                directives: a.directives,
                                name_column_width: a.w1,
                                field_type_column_width: a.w2,
                            },
                        ),
                    ),
                }),
            decreases lines@.len() - i,
        {
            let ghost acc_before = ModelAcc {
                fields: field_views(fields_raw@),
                directives: seq_views(directives@),
                w1: w1 as nat,
                w2: w2 as nat,
            };
            proof {
                assert(linesv.skip(i as int)[0] == linesv[i as int]);
                assert(linesv.skip(i as int).skip(1) =~= linesv.skip(i + 1));
            }
            let line_len = lines[i].as_str().unicode_len();
            if line_len == 0 {
                i += 1;
                continue;
            }
            let trimmed = trim_str(lines[i].as_str());
            if starts_with_str(trimmed.as_str(), "@@") {
                directives.push(clone_string(&lines[i]));
                proof {
                    assert(seq_views(directives@) =~~= acc_before.directives.push(
                        linesv[i as int],
                    ));
                }
                i += 1;
                continue;
            }
            match Field::parse_from_disk(trimmed.as_str()) {
                Err(e) => {
                    return Err(e);
                },
                Ok(None) => {
                    i += 1;
                    continue;
                },
                Ok(Some(field)) => {
                    let name_len = field.name.as_str().unicode_len();
                    let type_len = field.field_type.as_str().unicode_len();
                    if name_len >= w1 {
                        if name_len < usize::MAX {
                            w1 = name_len + 1;
                        } else {
                            w1 = name_len;
                        }
                    }
                    if type_len >= w2 {
                        if type_len < usize::MAX {
                            w2 = type_len + 1;
                        } else {
                            w2 = type_len;
                        }
                    }
                    let ghost fv = field@;
                    fields_raw.push(field);
                    proof {
                        assert(field_views(fields_raw@) =~~= acc_before.fields.push(fv));
                    }
                    i += 1;
                },
            }
        }
        proof {
            assert(linesv.skip(linesv.len() as int) =~= Seq::<Seq<char>>::empty());
        }
        let mut fields: Vec<Field> = Vec::new();
        let mut j: usize = 0;
        while j < fields_raw.len()
            invariant
                0 <= j <= fields_raw@.len(),
                fields@.len() == j,
                forall|k: int| 0 <= k < j ==> field_views(fields@)[k] == (FieldV {
                    target_name_width: w1 as nat,
                    target_field_type_width: w2 as nat,
                    ..field_views(fields_raw@)[k]
                }),
            decreases fields_raw@.len() - j,
        {
            let f = Field {
                target_name_width: w1,
                target_field_type_width: w2,
                ..fields_raw[j].duplicate()
            };
            proof {
                assert(f@ == (FieldV {
                    target_name_width: w1 as nat,
                    target_field_type_width: w2 as nat,
                    ..field_views(fields_raw@)[j as int]
                }));
            }
            let ghost prevf = field_views(fields@);
            fields.push(f);
            proof {
                assert(field_views(fields@) =~~= prevf.push(f@));
            }
            j += 1;
        }
        let m = Model {
            name,
            fields,
            directives,
            name_column_width: w1,
            field_type_column_width: w2,
        };
        proof {
            assert(field_views(m.fields@) =~~= with_widths(
                field_views(fields_raw@),
                w1 as nat,
                w2 as nat,
            ));
        }
        Ok(Some(m))
    }
}

/// The names of the id-marked fields, in declaration order.
pub open spec fn id_names(fields: Seq<FieldV>) -> Seq<Seq<char>>
    decreases fields.len(),
{
    if fields.len() == 0 {
        Seq::empty()
    } else if fields.last().is_id {
        id_names(fields.drop_last()).push(fields.last().name)
    } else {
        id_names(fields.drop_last())
    }
}

/// The longest field name.
pub open spec fn max_name_len(fields: Seq<FieldV>) -> nat
    decreases fields.len(),
{
    if fields.len() == 0 {
        0
    } else {
        let m = max_name_len(fields.drop_last());
        if fields.last().name.len() > m {
            fields.last().name.len()
        } else {
            m
        }
    }
}

/// The longest field type.
pub open spec fn max_type_len(fields: Seq<FieldV>) -> nat
    decreases fields.len(),
{
    if fields.len() == 0 {
        0
    } else {
        let m = max_type_len(fields.drop_last());
        if fields.last().field_type.len() > m {
            fields.last().field_type.len()
        } else {
            m
        }
    }
}

/// The model one catalog table builds: one field per column, a single
/// block-level id directive when more than one field is id-marked, and
/// column widths one past the longest name and type.
pub open spec fn spec_model_from_table(t: crate::sql::Table) -> ModelV {
    let fields = t.description@.map_values(
        |d: crate::sql::Description| crate::translators::field::spec_field_from_description(d),
    );
    ModelV {
        name: t.name@,
        fields: fields,
        directives: if count_ids(fields) > 1 {
            seq!["  @@id(["@ + crate::text::spec_join(id_names(fields), ", "@) + "])"@]
        } else {
            Seq::empty()
        },
        name_column_width: bump_width(max_name_len(fields), 0),
        field_type_column_width: bump_width(max_type_len(fields), 0),
    }
}

impl Model {
    /// Builds the model for one catalog table.
    #[verifier::rlimit(100)]
    pub fn from_table(table: &crate::sql::Table) -> (r: Model)
        ensures
            r@ == spec_model_from_table(*table),
    {
        let ghost fieldsv = table.description@.map_values(
            |d: crate::sql::Description| crate::translators::field::spec_field_from_description(d),
        );
        let mut fields: Vec<Field> = Vec::new();
        let mut i: usize = 0;
        proof {
            assert(field_views(fields@) =~~= fieldsv.take(0int));
        }
        while i < table.description.len()
            invariant
                fieldsv == table.description@.map_values(
                    |d: crate::sql::Description|
                        crate::translators::field::spec_field_from_description(d),
                ),
                0 <= i <= table.description@.len(),
                field_views(fields@) == fieldsv.take(i as int),
            decreases table.description@.len() - i,
        {
            let ghost prevf = field_views(fields@);
            let f = Field::from_description(&table.description[i]);
            proof {
                assert(fieldsv[i as int] == crate::translators::field::spec_field_from_description(
                    table.description@[i as int],
                ));
            }
            fields.push(f);
            proof {
                assert(field_views(fields@) =~~= prevf.push(fieldsv[i as int]));
                assert(field_views(fields@) =~~= fieldsv.take(i + 1));
            }
            i += 1;
        }
        proof {
            assert(fieldsv.take(fieldsv.len() as int) =~= fieldsv);
        }
        let mut n_ids: usize = 0;
        let mut mn: usize = 0;
        let mut mt: usize = 0;
        let mut j: usize = 0;
        proof {
            assert(fieldsv.take(0int) =~= Seq::<FieldV>::empty());
        }
        while j < fields.len()
            invariant
                field_views(fields@) == fieldsv,
                0 <= j <= fields@.len(),
                n_ids <= j,
                n_ids == count_ids(fieldsv.take(j as int)),
                mn == max_name_len(fieldsv.take(j as int)),
                mt == max_type_len(fieldsv.take(j as int)),
            decreases fields@.len() - j,
        {
            proof {
                assert(fieldsv.take(j + 1).drop_last() =~= fieldsv.take(j as int));
                assert(fieldsv.take(j + 1).last() == fieldsv[j as int]);
            }
            if fields[j].is_id {
                n_ids += 1;
            }
            let nl = fields[j].name.as_str().unicode_len();
            if nl > mn {
                mn = nl;
            }
            let tl = fields[j].field_type.as_str().unicode_len();
            if tl > mt {
                mt = tl;
            }
            j += 1;
        }
        proof {
            assert(fieldsv.take(fields@.len() as int) =~= fieldsv);
        }
        let mut directives: Vec<String> = Vec::new();
        if n_ids > 1 {
            let mut names: Vec<String> = Vec::new();
            let mut k: usize = 0;
            proof {
                assert(seq_views(names@) =~~= id_names(fieldsv.take(0int)));
            }
            while k < fields.len()
                invariant
                    field_views(fields@) == fieldsv,
                    0 <= k <= fields@.len(),
                    seq_views(names@) == id_names(fieldsv.take(k as int)),
                decreases fields@.len() - k,
            {
                proof {
                    assert(fieldsv.take(k + 1).drop_last() =~= fieldsv.take(k as int));
                    assert(fieldsv.take(k + 1).last() == fieldsv[k as int]);
                }
                let ghost prevn = seq_views(names@);
                if fields[k].is_id {
                    names.push(clone_string(&fields[k].name));
                    proof {
                        assert(seq_views(names@) =~~= prevn.push(fieldsv[k as int].name));
                    }
                }
                k += 1;
            }
            proof {
                assert(fieldsv.take(fields@.len() as int) =~= fieldsv);
            }
            let mut directive = String::new();
            directive.append("  @@id([");
            directive.append(crate::text::join_str(&names, ", ").as_str());
            directive.append("])");
            proof {
                assert(directive@ =~= "  @@id(["@ + crate::text::spec_join(
                    id_names(fieldsv),
                    ", "@,
                ) + "])"@);
            }
            directives.push(directive);
        }
        let w1 = if mn < usize::MAX {
            mn + 1
        } else {
            mn
        };
        let w2 = if mt < usize::MAX {
            mt + 1
        } else {
            mt
        };
        let m = Model {
            name: clone_string(&table.name),
            fields,
            directives,
            name_column_width: w1,
            field_type_column_width: w2,
        };
        proof {
            if n_ids > 1 {
                assert(seq_views(m.directives@) =~~= spec_model_from_table(*table).directives);
            } else {
                assert(seq_views(m.directives@) =~~= Seq::<Seq<char>>::empty());
            }
            assert(m@ =~~= spec_model_from_table(*table));
        }
        m
    }
}

/// No field name is longer than the longest field name.
pub proof fn lemma_max_name_ge(fields: Seq<FieldV>, k: int)
    requires
        0 <= k < fields.len(),
    ensures
        fields[k].name.len() <= max_name_len(fields),
        fields[k].field_type.len() <= max_type_len(fields),
    decreases fields.len(),
{
    if k < fields.len() - 1 {
        lemma_max_name_ge(fields.drop_last(), k);
        assert(fields.drop_last()[k] == fields[k]);
    }
}

/// A model built from a table can always be rendered: its widths cover
/// every field.
pub proof fn lemma_from_table_wf(t: crate::sql::Table)
    ensures
        model_wf(spec_model_from_table(t)),
{
    let m = spec_model_from_table(t);
    assert forall|k: int| 0 <= k < m.fields.len() implies (#[trigger] m.fields[k]).name.len()
        <= m.name_column_width && m.fields[k].field_type.len() <= m.field_type_column_width by {
        lemma_max_name_ge(m.fields, k);
    }
}

/// Every field a line-fold has collected fits the widths it has reached,
/// and the widths only grow.
pub proof fn lemma_model_lines_wf(lines: Seq<Seq<char>>, acc: ModelAcc)
    requires
        forall|k: int| 0 <= k < acc.fields.len() ==> (#[trigger] acc.fields[k]).name.len()
            <= acc.w1 && acc.fields[k].field_type.len() <= acc.w2,
    ensures
        spec_model_lines(lines, acc) matches Ok(a) ==> acc.w1 <= a.w1 && acc.w2 <= a.w2 && forall|
            k: int,
        | 0 <= k < a.fields.len() ==> (#[trigger] a.fields[k]).name.len() <= a.w1
            && a.fields[k].field_type.len() <= a.w2,
    decreases lines.len(),
{
    if lines.len() > 0 {
        let l = lines[0];
        if l.len() == 0 {
            lemma_model_lines_wf(lines.skip(1), acc);
        } else if "@@"@.is_prefix_of(spec_trim(l)) {
            lemma_model_lines_wf(
                lines.skip(1),
                ModelAcc { directives: acc.directives.push(l), ..acc },
            );
        } else {
            match spec_parse_field(spec_trim(l)) {
                FieldParse::Failed(_) => {},
                FieldParse::Dropped => {
                    lemma_model_lines_wf(lines.skip(1), acc);
                },
                FieldParse::Parsed(fv) => {
                    let acc2 = ModelAcc {
                        fields: acc.fields.push(fv),
                        w1: bump_width(fv.name.len(), acc.w1),
                        w2: bump_width(fv.field_type.len(), acc.w2),
                        ..acc
                    };
                    assert(acc2.w1 >= acc.w1 && acc2.w1 >= fv.name.len());
                    assert(acc2.w2 >= acc.w2 && acc2.w2 >= fv.field_type.len());
                    lemma_model_lines_wf(lines.skip(1), acc2);
                },
            }
        }
    }
}

/// A parsed model can always be rendered: its widths cover every field.
pub proof fn lemma_parse_model_wf(s: Seq<char>)
    ensures
        spec_parse_model(s) matches Ok(Some(m)) ==> model_wf(m),
{
    let pieces = crate::text::spec_split(s, "{"@);
    let name = spec_replace(pieces[0], " "@, Seq::empty());
    if name.len() != 0 && pieces.len() == 2 {
        let init = ModelAcc { fields: Seq::empty(), directives: Seq::empty(), w1: 0, w2: 0 };
        lemma_model_lines_wf(crate::text::spec_split(pieces[1], "\n"@), init);
        match spec_model_lines(crate::text::spec_split(pieces[1], "\n"@), init) {
            Err(_) => {},
            Ok(a) => {
                let fs = with_widths(a.fields, a.w1, a.w2);
                assert forall|k: int| 0 <= k < fs.len() implies (#[trigger] fs[k]).name.len()
                    <= a.w1 && fs[k].field_type.len() <= a.w2 by {
                    assert(fs[k].name == a.fields[k].name);
                    assert(fs[k].field_type == a.fields[k].field_type);
                }
            },
        }
    }
}

/// The position of the first field with that name, or -1 when none has it.
pub open spec fn first_field_by_name(fields: Seq<FieldV>, name: Seq<char>) -> int
    decreases fields.len(),
{
    if fields.len() == 0 {
        -1
    } else if fields[0].name == name {
        0
    } else {
        let r = first_field_by_name(fields.skip(1), name);
        if r < 0 {
            -1
        } else {
            1 + r
        }
    }
}

/// What `first_field_by_name` returns: the first field with that name, or -1
/// when no field has it.
pub proof fn lemma_first_field(fields: Seq<FieldV>, name: Seq<char>)
    ensures
        first_field_by_name(fields, name) == -1 ==> forall|k: int|
            0 <= k < fields.len() ==> (#[trigger] fields[k]).name != name,
        first_field_by_name(fields, name) >= 0 ==> first_field_by_name(fields, name) < fields.len()
            && fields[first_field_by_name(fields, name)].name == name
            && forall|k: int| 0 <= k < first_field_by_name(fields, name)
            ==> (#[trigger] fields[k]).name != name,
    decreases fields.len(),
{
    if fields.len() > 0 && fields[0].name != name {
        lemma_first_field(fields.skip(1), name);
        assert(forall|k: int| 1 <= k < fields.len() ==> fields[k] == fields.skip(1)[k - 1]);
    }
}

/// Some directive of `o` spells `d`.
pub open spec fn directive_matched(o: ModelV, d: Seq<char>) -> bool {
    exists|j: int| 0 <= j < o.directives.len() && o.directives[j] == d
}

/// The first field of `o` with `f`'s name exists and agrees with `f`.
pub open spec fn field_matched(o: ModelV, f: FieldV) -> bool {
    let j = first_field_by_name(o.fields, f.name);
    j >= 0 && crate::translators::field::field_eq_v(f, o.fields[j])
}

/// One model is equal to another when the names agree, each of its
/// directives appears in the other, each of its fields matches the first
/// field of the same name in the other, and the column widths agree.
pub open spec fn model_eq_v(m: ModelV, o: ModelV) -> bool {
    &&& m.name == o.name
    &&& forall|i: int| 0 <= i < m.directives.len() ==> directive_matched(
        o,
        #[trigger] m.directives[i],
    )
    &&& forall|i: int| 0 <= i < m.fields.len() ==> field_matched(o, #[trigger] m.fields[i])
    &&& m.name_column_width == o.name_column_width
    &&& m.field_type_column_width == o.field_type_column_width
}

impl PartialEq for Model {
    #[verifier::rlimit(100)]
    fn eq(&self, other: &Self) -> (r: bool) {
        if !str_eq(self.name.as_str(), other.name.as_str()) {
            return false;
        }
        let mut i: usize = 0;
        while i < self.directives.len()
            invariant
                i <= self.directives@.len(),
                self@.directives.len() == self.directives@.len(),
                forall|k: int| 0 <= k < i ==> directive_matched(
                    other@,
                    #[trigger] self@.directives[k],
                ),
            decreases self.directives@.len() - i,
        {
            let mut j: usize = 0;
            let mut found = false;
            while j < other.directives.len() && !found
                invariant
                    i < self.directives@.len(),
                    self@.directives.len() == self.directives@.len(),
                    other@.directives.len() == other.directives@.len(),
                    0 <= j <= other.directives@.len(),
                    found ==> directive_matched(other@, self@.directives[i as int]),
                    !found ==> forall|k: int| 0 <= k < j ==> #[trigger] other@.directives[k]
                        != self@.directives[i as int],
                decreases other.directives@.len() - j,
            {
                proof {
                    assert(other@.directives[j as int] == other.directives@[j as int]@);
                    assert(self@.directives[i as int] == self.directives@[i as int]@);
                }
                if str_eq(other.directives[j].as_str(), self.directives[i].as_str()) {
                    found = true;
                }
                j += 1;
            }
            if !found {
                proof {
                    assert(!directive_matched(other@, self@.directives[i as int]));
                    assert(!model_eq_v(self@, other@));
                }
                return false;
            }
            i += 1;
        }
        let mut i: usize = 0;
        while i < self.fields.len()
            invariant
                i <= self.fields@.len(),
                self@.fields.len() == self.fields@.len(),
                forall|k: int| 0 <= k < i ==> field_matched(other@, #[trigger] self@.fields[k]),
            decreases self.fields@.len() - i,
        {
            let ghost namev = self@.fields[i as int].name;
            let mut j: usize = 0;
            let mut found = false;
            let mut idx: usize = 0;
            while j < other.fields.len() && !found
                invariant
                    i < self.fields@.len(),
                    self@.fields.len() == self.fields@.len(),
                    other@.fields.len() == other.fields@.len(),
                    namev == self@.fields[i as int].name,
                    0 <= j <= other.fields@.len(),
                    !found ==> forall|k: int| 0 <= k < j ==> (#[trigger] other@.fields[k]).name
                        != namev,
                    found ==> idx < other.fields@.len() && other@.fields[idx as int].name == namev
                        && forall|k: int| 0 <= k < idx ==> (#[trigger] other@.fields[k]).name
                        != namev,
                decreases other.fields@.len() - j,
            {
                proof {
                    assert(other@.fields[j as int] == other.fields@[j as int]@);
                    assert(self@.fields[i as int] == self.fields@[i as int]@);
                }
                if str_eq(other.fields[j].name.as_str(), self.fields[i].name.as_str()) {
                    found = true;
                    idx = j;
                }
                j += 1;
            }
            proof {
                lemma_first_field(other@.fields, namev);
            }
            if !found {
                proof {
                    assert(first_field_by_name(other@.fields, namev) == -1);
                    assert(!field_matched(other@, self@.fields[i as int]));
                    assert(!model_eq_v(self@, other@));
                }
                return false;
            }
            proof {
                assert(first_field_by_name(other@.fields, namev) == idx);
            }
            if !(&self.fields[i] == &other.fields[idx]) {
                proof {
                    assert(self@.fields[i as int] == self.fields@[i as int]@);
                    assert(other@.fields[idx as int] == other.fields@[idx as int]@);
                    assert(!field_matched(other@, self@.fields[i as int]));
                    assert(!model_eq_v(self@, other@));
                }
                return false;
            }
            proof {
                assert(self@.fields[i as int] == self.fields@[i as int]@);
                assert(other@.fields[idx as int] == other.fields@[idx as int]@);
                assert(field_matched(other@, self@.fields[i as int]));
            }
            i += 1;
        }
        if self.name_column_width != other.name_column_width {
            return false;
        }
        if self.field_type_column_width != other.field_type_column_width {
            return false;
        }
        proof {
            assert(model_eq_v(self@, other@));
        }
        true
    }
}

impl vstd::std_specs::cmp::PartialEqSpecImpl for Model {
    open spec fn obeys_eq_spec() -> bool {
        true
    }

    open spec fn eq_spec(&self, other: &Self) -> bool {
        model_eq_v(self@, other@)
    }
}

/// A model with two or more id-marked fields carries no inline id marker:
/// every field line renders exactly as it would with the id flag cleared,
/// no attribute token is the inline id token, and the model carries exactly
/// one block-level id directive listing the id-marked field names in
/// declaration order.
pub proof fn lemma_composite_id_block(t: crate::sql::Table)
    requires
        count_ids(spec_model_from_table(t).fields) >= 2,
    ensures
        forall|k: int| 0 <= k < spec_model_from_table(t).fields.len()
            ==> crate::translators::field::field_attr_tokens(
            #[trigger] spec_model_from_table(t).fields[k],
            count_ids(spec_model_from_table(t).fields) as int,
        ) == crate::translators::field::field_attr_tokens(
            FieldV { is_id: false, ..spec_model_from_table(t).fields[k] },
            count_ids(spec_model_from_table(t).fields) as int,
        ),
        forall|k: int, q: int| 0 <= k < spec_model_from_table(t).fields.len() && 0 <= q
            < crate::translators::field::field_attr_tokens(
            spec_model_from_table(t).fields[k],
            count_ids(spec_model_from_table(t).fields) as int,
        ).len() ==> #[trigger] crate::translators::field::field_attr_tokens(
            spec_model_from_table(t).fields[k],
            count_ids(spec_model_from_table(t).fields) as int,
        )[q] != "@id"@,
        spec_model_from_table(t).directives == seq![
            "  @@id(["@ + crate::text::spec_join(id_names(spec_model_from_table(t).fields), ", "@)
                + "])"@,
        ],
{
    let m = spec_model_from_table(t);
    let n = count_ids(m.fields) as int;
    reveal_strlit("@id");
    reveal_strlit("@unique");
    reveal_strlit("@default(");
    reveal_strlit("@db.");
    reveal_strlit("@relation(");
    assert forall|k: int, q: int| 0 <= k < m.fields.len() && 0 <= q
        < crate::translators::field::field_attr_tokens(m.fields[k], n).len() implies
        #[trigger] crate::translators::field::field_attr_tokens(m.fields[k], n)[q] != "@id"@ by {
        let toks = crate::translators::field::field_attr_tokens(m.fields[k], n);
        assert(forall|j: int| 0 <= j < toks.len() ==> (#[trigger] toks[j]).len() > 3);
    }
}

} // verus!
