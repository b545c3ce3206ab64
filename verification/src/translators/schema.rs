//! The whole schema: generator, datasource and models, with its rendering
//! and the builder that raises a catalog snapshot into a schema.

use vstd::prelude::*;

use vstd::std_specs::cmp::PartialEqSpec;

use crate::translators::data_source::{Datasource, DatasourceV, datasource_text};
use crate::translators::generator::{Generator, GeneratorV, generator_text};
use crate::translators::model::{Model, ModelV, model_text, model_wf, spec_model_from_table};

verus! {

/// The mathematical shape of a whole schema.
pub struct SchemaV {
    pub generator: GeneratorV,
    pub datasource: DatasourceV,
    pub models: Seq<ModelV>,
}

/// A whole schema.
#[derive(Debug)]
pub struct PrismaSchema {
    pub generator: Generator,
    pub datasource: Datasource,
    pub models: Vec<Model>,
}

/// The views of a sequence of models.
pub open spec fn model_views(s: Seq<Model>) -> Seq<ModelV> {
    s.map_values(|m: Model| m@)
}

impl View for PrismaSchema {
    type V = SchemaV;

    open spec fn view(&self) -> SchemaV {
        SchemaV {
            generator: self.generator@,
            datasource: self.datasource@,
            models: model_views(self.models@),
        }
    }
}

/// The rendered model blocks, one blank line after each.
pub open spec fn models_text(ms: Seq<ModelV>) -> Seq<char>
    decreases ms.len(),
{
    if ms.len() == 0 {
        Seq::empty()
    } else {
        models_text(ms.drop_last()) + model_text(ms.last()) + "\n"@
    }
}

/// The rendered schema: generator block, blank line, datasource block, blank
/// line, then the model blocks.
pub open spec fn schema_text(s: SchemaV) -> Seq<char> {
    generator_text(s.generator) + "\n\n"@ + datasource_text(s.datasource) + "\n\n"@ + models_text(
        s.models,
    )
}

/// Every model's widths cover its fields, so the schema can be rendered.
pub open spec fn schema_wf(s: SchemaV) -> bool {
    forall|k: int| 0 <= k < s.models.len() ==> model_wf(#[trigger] s.models[k])
}

impl PrismaSchema {
    /// The default schema: default generator and datasource, no models.
    pub fn new() -> (r: PrismaSchema)
        ensures
            r@.generator.name == "client"@,
            r@.generator.provider == "prisma-client-js"@,
            r@.datasource.name == "db"@,
            r@.datasource.provider == "mysql"@,
            r@.models == Seq::<ModelV>::empty(),
    {
        let r = PrismaSchema {
            generator: Generator::new(),
            datasource: Datasource::new(),
            models: Vec::new(),
        };
        proof {
            assert(model_views(r.models@) =~= Seq::<ModelV>::empty());
        }
        r
    }

    /// A schema assembled from its three parts.
    pub fn build(generator: Generator, datasource: Datasource, models: Vec<Model>) -> (r:
        PrismaSchema)
        ensures
            r@ == (SchemaV {
                generator: generator@,
                datasource: datasource@,
                models: model_views(models@),
            }),
    {
        PrismaSchema { generator, datasource, models }
    }

    /// Appends one model.
    pub fn add_model(&mut self, model: Model)
        ensures
            final(self)@ == (SchemaV {
                models: old(self)@.models.push(model@),
                ..old(self)@
            }),
    {
        let ghost mv = model@;
        self.models.push(model);
        proof {
            assert(model_views(self.models@) =~~= model_views(old(self).models@).push(mv));
            assert(self@ =~~= (SchemaV { models: old(self)@.models.push(mv), ..old(self)@ }));
        }
    }

    /// The schema rendered as text.
    pub fn as_text(&self) -> (r: String)
        requires
            schema_wf(self@),
        ensures
            r@ == schema_text(self@),
    {
        let mut r = String::new();
        r.append(self.generator.as_text().as_str());
        r.append("\n\n");
        r.append(self.datasource.as_text().as_str());
        r.append("\n\n");
        let ghost header = generator_text(self@.generator) + "\n\n"@ + datasource_text(
            self@.datasource,
        ) + "\n\n"@;
        proof {
            assert(r@ =~= header);
            assert(self@.models.take(0int) =~= Seq::<ModelV>::empty());
        }
        let mut i: usize = 0;
        while i < self.models.len()
            invariant
                schema_wf(self@),
                self@.models == model_views(self.models@),
                0 <= i <= self.models@.len(),
                r@ == header + models_text(self@.models.take(i as int)),
                header == generator_text(self@.generator) + "\n\n"@ + datasource_text(
                    self@.datasource,
                ) + "\n\n"@,
            decreases self.models@.len() - i,
        {
            proof {
                assert(self@.models.take(i + 1).drop_last() =~= self@.models.take(i as int));
                assert(self@.models.take(i + 1).last() == self@.models[i as int]);
            }
            r.append(self.models[i].as_text().as_str());
            r.append("\n");
            proof {
                assert(r@ =~= header + models_text(self@.models.take(i + 1)));
            }
            i += 1;
        }
        proof {
            assert(self@.models.take(self.models@.len() as int) =~= self@.models);
        }
        r
    }

    /// Builds a fresh schema from a catalog snapshot: the default generator
    /// and datasource, and one model per table.
    pub fn from_tables(tables: &Vec<crate::sql::Table>) -> (r: PrismaSchema)
        ensures
            r@.generator.name == "client"@,
            r@.generator.provider == "prisma-client-js"@,
            r@.datasource.name == "db"@,
            r@.datasource.provider == "mysql"@,
            r@.models == tables@.map_values(
                |t: crate::sql::Table| spec_model_from_table(t),
            ),
    {
        let ghost target = tables@.map_values(|t: crate::sql::Table| spec_model_from_table(t));
        let mut schema = PrismaSchema::new();
        let mut i: usize = 0;
        proof {
            assert(schema@.models =~= target.take(0int));
        }
        while i < tables.len()
            invariant
                target == tables@.map_values(|t: crate::sql::Table| spec_model_from_table(t)),
                0 <= i <= tables@.len(),
                schema@.models == target.take(i as int),
                schema@.generator.name == "client"@,
                schema@.generator.provider == "prisma-client-js"@,
                schema@.datasource.name == "db"@,
                schema@.datasource.provider == "mysql"@,
            decreases tables@.len() - i,
        {
            let model = Model::from_table(&tables[i]);
            schema.add_model(model);
            proof {
                assert(schema@.models =~= target.take(i + 1));
            }
            i += 1;
        }
        proof {
            assert(target.take(tables@.len() as int) =~= target);
        }
        schema
    }
}

/// One schema equals another when the blocks agree and the models agree
/// pairwise, in order.
pub open spec fn schema_eq_v(a: SchemaV, b: SchemaV) -> bool {
    &&& a.generator == b.generator
    &&& a.datasource == b.datasource
    &&& a.models.len() == b.models.len()
    &&& forall|i: int| 0 <= i < a.models.len() ==> crate::translators::model::model_eq_v(
        #[trigger] a.models[i],
        b.models[i],
    )
}

impl PartialEq for PrismaSchema {
    fn eq(&self, other: &Self) -> (r: bool) {
        let r = self.generator == other.generator && self.datasource == other.datasource
            && self.models == other.models;
        proof {
            if r {
                assert forall|i: int| 0 <= i < self@.models.len() implies
                    crate::translators::model::model_eq_v(
                        #[trigger] self@.models[i],
                        other@.models[i],
                    ) by {
                    assert(self.models@[i].eq_spec(&other.models@[i]));
                    assert(self@.models[i] == self.models@[i]@);
                    assert(other@.models[i] == other.models@[i]@);
                }
            } else {
                if self.generator@ == other.generator@ && self.datasource@ == other.datasource@ {
                    assert(!(self.models@.len() == other.models@.len() && forall|i: int|
                        0 <= i < self.models@.len() ==> #[trigger] self.models@[i].eq_spec(
                        &other.models@[i],
                    )));
                    if self.models@.len() == other.models@.len() {
                        let w = choose|i: int| 0 <= i < self.models@.len()
                            && !self.models@[i].eq_spec(&other.models@[i]);
                        assert(self@.models[w] == self.models@[w]@);
                        assert(other@.models[w] == other.models@[w]@);
                        assert(!crate::translators::model::model_eq_v(
                            self@.models[w],
                            other@.models[w],
                        ));
                    }
                }
            }
        }
        r
    }
}

impl vstd::std_specs::cmp::PartialEqSpecImpl for PrismaSchema {
    open spec fn obeys_eq_spec() -> bool {
        true
    }

    open spec fn eq_spec(&self, other: &Self) -> bool {
        schema_eq_v(self@, other@)
    }
}

} // verus!
