//! The DSL translator: the three-bucket line classifier that splits a file
//! into generator, datasource and model text, the whole-file parser, and the
//! per-translator schema caches.

use vstd::prelude::*;

use crate::sql::Table;
use crate::text::{seq_views, split_str, spec_split};
use crate::translators::data_source::{Datasource, DatasourceV, spec_parse_datasource};
use crate::translators::error::ParseError;
use crate::translators::generator::{Generator, GeneratorV, spec_parse_generator};
use crate::translators::model::{Model, ModelV, spec_parse_model, spec_model_from_table};
use crate::translators::schema::{PrismaSchema, SchemaV, model_views, schema_text, schema_wf};

verus! {

/// Which section of the file the classifier is currently filling.
#[derive(Clone, Copy, PartialEq, Eq, Structural, Debug)]
pub enum Bucket {
    Generator,
    Datasource,
    Models,
}

/// Classifier state: the active bucket and the three text buffers.
pub struct ClassifyAcc {
    pub bucket: Bucket,
    pub gen: Seq<char>,
    pub ds: Seq<char>,
    pub models: Seq<char>,
}

/// The classifier before any line was read: filling the generator buffer.
pub open spec fn classify_init() -> ClassifyAcc {
    ClassifyAcc {
        bucket: Bucket::Generator,
        gen: Seq::empty(),
        ds: Seq::empty(),
        models: Seq::empty(),
    }
}

/// One line classified: a keyword at the start of the line switches the
/// active bucket, and the line, with its newline restored, goes to whichever
/// bucket is then active.
pub open spec fn spec_classify_line(acc: ClassifyAcc, line: Seq<char>) -> ClassifyAcc {
    let b = if "generator"@.is_prefix_of(line) {
        Bucket::Generator
    } else if "datasource"@.is_prefix_of(line) {
        Bucket::Datasource
    } else if "model"@.is_prefix_of(line) {
        Bucket::Models
    } else {
        acc.bucket
    };
    match b {
        Bucket::Generator => ClassifyAcc { bucket: b, gen: acc.gen + line + "\n"@, ..acc },
        Bucket::Datasource => ClassifyAcc { bucket: b, ds: acc.ds + line + "\n"@, ..acc },
        Bucket::Models => ClassifyAcc { bucket: b, models: acc.models + line + "\n"@, ..acc },
    }
}

/// The lines classified left to right.
pub open spec fn spec_classify(lines: Seq<Seq<char>>, acc: ClassifyAcc) -> ClassifyAcc
    decreases lines.len(),
{
    if lines.len() == 0 {
        acc
    } else {
        spec_classify(lines.skip(1), spec_classify_line(acc, lines[0]))
    }
}

/// The model fragments parsed in order; fragments that are no model are
/// skipped, and a bad fragment aborts the parse.
pub open spec fn spec_parse_models(frags: Seq<Seq<char>>) -> Result<Seq<ModelV>, ParseError>
    decreases frags.len(),
{
    if frags.len() == 0 {
        Ok(Seq::empty())
    } else {
        match spec_parse_model(frags[0]) {
            Err(e) => Err(e),
            Ok(None) => spec_parse_models(frags.skip(1)),
            Ok(Some(m)) => match spec_parse_models(frags.skip(1)) {
                Err(e) => Err(e),
                Ok(rest) => Ok(seq![m] + rest),
            },
        }
    }
}

/// A whole file parsed: the classifier fills the three buffers, each block
/// parser reads its buffer, and the models buffer is split on the model
/// keyword.
pub open spec fn spec_parse_schema(s: Seq<char>) -> Result<SchemaV, ParseError> {
    let acc = spec_classify(spec_split(s, "\n"@), classify_init());
    match spec_parse_generator(acc.gen) {
        None => Err(ParseError::MalformedGenerator),
        Some(provider) => match spec_parse_datasource(acc.ds) {
            None => Err(ParseError::MalformedDatasource),
            Some(np) => match spec_parse_models(spec_split(acc.models, "model "@)) {
                Err(e) => Err(e),
                Ok(ms) => Ok(
                    SchemaV {
                        generator: GeneratorV { name: "client"@, provider },
                        datasource: DatasourceV { name: np.0, provider: np.1 },
                        models: ms,
                    },
                ),
            },
        },
    }
}

/// Every model a fragment-fold parses can be rendered.
pub proof fn lemma_parse_models_wf(frags: Seq<Seq<char>>)
    ensures
        spec_parse_models(frags) matches Ok(ms) ==> forall|k: int| 0 <= k < ms.len()
            ==> crate::translators::model::model_wf(#[trigger] ms[k]),
    decreases frags.len(),
{
    if frags.len() > 0 {
        crate::translators::model::lemma_parse_model_wf(frags[0]);
        lemma_parse_models_wf(frags.skip(1));
        match spec_parse_model(frags[0]) {
            Err(_) => {},
            Ok(None) => {},
            Ok(Some(m)) => {
                match spec_parse_models(frags.skip(1)) {
                    Err(_) => {},
                    Ok(rest) => {
                        assert forall|k: int| 0 <= k < (seq![m] + rest).len() implies
                            crate::translators::model::model_wf(#[trigger] (seq![m] + rest)[k]) by {
                            if k == 0 {
                                assert((seq![m] + rest)[0] == m);
                            } else {
                                assert((seq![m] + rest)[k] == rest[k - 1]);
                            }
                        }
                    },
                }
            },
        }
    }
}

/// A parsed schema can always be rendered.
pub proof fn lemma_parse_schema_wf(s: Seq<char>)
    ensures
        spec_parse_schema(s) matches Ok(sv) ==> schema_wf(sv),
{
    let acc = spec_classify(spec_split(s, "\n"@), classify_init());
    lemma_parse_models_wf(spec_split(acc.models, "model "@));
}

/// The view of an optional cached schema.
pub open spec fn opt_schema_view(o: Option<PrismaSchema>) -> Option<SchemaV> {
    match o {
        Some(s) => Some(s@),
        None => None,
    }
}

/// The disk-side cache after one load: a parse error leaves it as it was,
/// and a parsed schema fills it only while it is empty — the first load
/// wins.
pub open spec fn disk_cache_after_load(
    cache: Option<SchemaV>,
    parsed: Result<SchemaV, ParseError>,
) -> Option<SchemaV> {
    match parsed {
        Err(_) => cache,
        Ok(sv) => match cache {
            Some(c) => Some(c),
            None => Some(sv),
        },
    }
}

/// Loading the same file twice changes nothing: the cache a second load
/// leaves behind is the cache the first load left behind.
pub proof fn lemma_load_from_disk_idempotent(
    cache: Option<SchemaV>,
    parsed: Result<SchemaV, ParseError>,
)
    ensures
        disk_cache_after_load(disk_cache_after_load(cache, parsed), parsed)
            == disk_cache_after_load(cache, parsed),
{
}

/// The rendered translator state, each cached schema under its label.
pub open spec fn translator_string(disk: Option<SchemaV>, db: Option<SchemaV>) -> Seq<char> {
    if disk is None && db is None {
        Seq::empty()
    } else {
        (match disk {
            Some(s) => "disk schema:\n\n"@ + schema_text(s) + "\n\n"@,
            None => Seq::empty(),
        }) + (match db {
            Some(s) => "db schema:\n\n"@ + schema_text(s) + "\n\n"@,
            None => Seq::empty(),
        })
    }
}

/// Translates between a catalog snapshot and the DSL file bound to `path`,
/// caching at most one schema read from disk and one built from the
/// database.
#[derive(Debug)]
pub struct PrismaTranslator {
    pub path: String,
    pub disk_schema: Option<PrismaSchema>,
    pub db_schema: Option<PrismaSchema>,
}

impl PrismaTranslator {
    /// Parses the bound file's text into a schema.
    #[verifier::rlimit(100)]
    pub fn parse_from_disk(&self, contents: &str) -> (r: Result<PrismaSchema, ParseError>)
        ensures
            match r {
                Ok(s) => spec_parse_schema(contents@) == Ok::<SchemaV, ParseError>(s@),
                Err(e) => spec_parse_schema(contents@) == Err::<SchemaV, ParseError>(e),
            },
    {
        proof {
            reveal_strlit("\n");
            reveal_strlit("model ");
        }
        let lines = split_str(contents, "\n");
        let ghost linesv = seq_views(lines@);
        let mut bucket = Bucket::Generator;
        let mut gen = String::new();
        let mut ds = String::new();
        let mut models = String::new();
        let mut i: usize = 0;
        proof {
            assert(linesv.skip(0) =~= linesv);
        }
        while i < lines.len()
            invariant
                linesv == seq_views(lines@),
                0 <= i <= lines@.len(),
                spec_classify(linesv, classify_init()) == spec_classify(
                    linesv.skip(i as int),
                    ClassifyAcc { bucket, gen: gen@, ds: ds@, models: models@ },
                ),
            decreases lines@.len() - i,
        {
            proof {
                assert(linesv.skip(i as int)[0] == linesv[i as int]);
                assert(linesv.skip(i as int).skip(1) =~= linesv.skip(i + 1));
            }
            let line = &lines[i];
            if crate::text::starts_with_str(line.as_str(), "generator") {
                bucket = Bucket::Generator;
            } else if crate::text::starts_with_str(line.as_str(), "datasource") {
                bucket = Bucket::Datasource;
            } else if crate::text::starts_with_str(line.as_str(), "model") {
                bucket = Bucket::Models;
            }
            match bucket {
                Bucket::Generator => {
                    gen.append(line.as_str());
                    gen.append("\n");
                },
                Bucket::Datasource => {
                    ds.append(line.as_str());
                    ds.append("\n");
                },
                Bucket::Models => {
                    models.append(line.as_str());
                    models.append("\n");
                },
            }
            i += 1;
        }
        proof {
            assert(linesv.skip(linesv.len() as int) =~= Seq::<Seq<char>>::empty());
        }
        let generator = match Generator::parse_from_disk(gen.as_str()) {
            Some(g) => g,
            None => {
                return Err(ParseError::MalformedGenerator);
            },
        };
        let datasource = match Datasource::parse_from_disk(ds.as_str()) {
            Some(d) => d,
            None => {
                return Err(ParseError::MalformedDatasource);
            },
        };
        let frags = split_str(models.as_str(), "model ");
        let ghost fragsv = seq_views(frags@);
        let mut parsed: Vec<Model> = Vec::new();
        let mut j: usize = 0;
        proof {
            assert(fragsv.skip(0) =~= fragsv);
            assert(model_views(parsed@) =~= Seq::<ModelV>::empty());
        }
        while j < frags.len()
            invariant
                fragsv == seq_views(frags@),
                0 <= j <= frags@.len(),
                spec_parse_models(fragsv) == (match spec_parse_models(fragsv.skip(j as int)) {
                    Err(e) => Err::<Seq<ModelV>, ParseError>(e),
                    Ok(rest) => Ok(model_views(parsed@) + rest),
                }),
                spec_parse_schema(contents@) == (match spec_parse_models(fragsv) {
                    Err(e) => Err::<SchemaV, ParseError>(e),
                    Ok(ms) => Ok(
                        SchemaV {
                            generator: generator@,
                            datasource: datasource@,
                            models: ms,
                        },
                    ),
                }),
                generator@.name == "client"@,
            decreases frags@.len() - j,
        {
            proof {
                assert(fragsv.skip(j as int)[0] == fragsv[j as int]);
                assert(fragsv.skip(j as int).skip(1) =~= fragsv.skip(j + 1));
            }
            let ghost prevm = model_views(parsed@);
            match Model::parse_from_disk(frags[j].as_str()) {
                Err(e) => {
                    return Err(e);
                },
                Ok(None) => {},
                Ok(Some(m)) => {
                    let ghost mv = m@;
                    parsed.push(m);
                    proof {
                        assert(model_views(parsed@) =~~= prevm.push(mv));
                        match spec_parse_models(fragsv.skip(j + 1)) {
                            Ok(rest) => {
                                assert(model_views(parsed@) + rest =~= prevm + (seq![mv] + rest));
                            },
                            Err(_) => {},
                        }
                    }
                },
            }
            j += 1;
        }
        proof {
            assert(fragsv.skip(fragsv.len() as int) =~= Seq::<Seq<char>>::empty());
            assert(model_views(parsed@) + Seq::<ModelV>::empty() =~= model_views(parsed@));
            assert(spec_parse_schema(contents@) == Ok::<SchemaV, ParseError>(
                SchemaV {
                    generator: generator@,
                    datasource: datasource@,
                    models: model_views(parsed@),
                },
            ));
        }
        let schema = PrismaSchema::build(generator, datasource, parsed);
        Ok(schema)
    }

    /// The schema a catalog snapshot translates to.
    pub fn get_translation(&self, database: &Vec<Table>) -> (r: PrismaSchema)
        ensures
            r@.generator == (GeneratorV { name: "client"@, provider: "prisma-client-js"@ }),
            r@.datasource == (DatasourceV { name: "db"@, provider: "mysql"@ }),
            r@.models == database@.map_values(|t: Table| spec_model_from_table(t)),
    {
        let r = PrismaSchema::from_tables(database);
        proof {
            assert(r@.generator =~~= (GeneratorV {
                name: "client"@,
                provider: "prisma-client-js"@,
            }));
            assert(r@.datasource =~~= (DatasourceV { name: "db"@, provider: "mysql"@ }));
        }
        r
    }

    /// Replaces the database-side cache with a schema built fresh from the
    /// snapshot.
    pub fn load_from_database(&mut self, database: &Vec<Table>)
        ensures
            final(self).path == old(self).path,
            final(self).disk_schema == old(self).disk_schema,
            opt_schema_view(final(self).db_schema) == Some(
                SchemaV {
                    generator: GeneratorV { name: "client"@, provider: "prisma-client-js"@ },
                    datasource: DatasourceV { name: "db"@, provider: "mysql"@ },
                    models: database@.map_values(|t: Table| spec_model_from_table(t)),
                },
            ),
    {
        let s = self.get_translation(database);
        proof {
            assert(s@ =~~= (SchemaV {
                generator: GeneratorV { name: "client"@, provider: "prisma-client-js"@ },
                datasource: DatasourceV { name: "db"@, provider: "mysql"@ },
                models: database@.map_values(|t: Table| spec_model_from_table(t)),
            }));
        }
        self.db_schema = Some(s);
    }

    /// Parses the given file text and fills the disk-side cache with it,
    /// unless an earlier load already did: the first load wins.
    pub fn load_from_disk(&mut self, contents: &str) -> (r: Result<(), ParseError>)
        ensures
            final(self).path == old(self).path,
            final(self).db_schema == old(self).db_schema,
            opt_schema_view(final(self).disk_schema) == disk_cache_after_load(
                opt_schema_view(old(self).disk_schema),
                spec_parse_schema(contents@),
            ),
            match spec_parse_schema(contents@) {
                Err(e) => r == Err::<(), ParseError>(e),
                Ok(_) => r is Ok,
            },
    {
        let loaded = match self.parse_from_disk(contents) {
            Ok(s) => s,
            Err(e) => {
                return Err(e);
            },
        };
        if self.disk_schema.is_none() {
            self.disk_schema = Some(loaded);
        }
        Ok(())
    }

    /// The text written at the bound path on a sync: a schema built fresh
    /// from the snapshot, rendered.
    pub fn write_to_disk(&self, database: &Vec<Table>) -> (r: String)
        ensures
            r@ == schema_text(
                SchemaV {
                    generator: GeneratorV { name: "client"@, provider: "prisma-client-js"@ },
                    datasource: DatasourceV { name: "db"@, provider: "mysql"@ },
                    models: database@.map_values(|t: Table| spec_model_from_table(t)),
                },
            ),
    {
        let schema = self.get_translation(database);
        proof {
            assert forall|k: int| 0 <= k < schema@.models.len() implies
                crate::translators::model::model_wf(#[trigger] schema@.models[k]) by {
                crate::translators::model::lemma_from_table_wf(database@[k]);
            }
            assert(schema@ =~~= (SchemaV {
                generator: GeneratorV { name: "client"@, provider: "prisma-client-js"@ },
                datasource: DatasourceV { name: "db"@, provider: "mysql"@ },
                models: database@.map_values(|t: Table| spec_model_from_table(t)),
            }));
        }
        schema.as_text()
    }

    /// The cached schemas rendered under their labels; an empty string when
    /// neither cache is filled.
    pub fn get_string(&self) -> (r: String)
        requires
            self.disk_schema matches Some(s) ==> schema_wf(s@),
            self.db_schema matches Some(s) ==> schema_wf(s@),
        ensures
            r@ == translator_string(
                opt_schema_view(self.disk_schema),
                opt_schema_view(self.db_schema),
            ),
    {
        if self.disk_schema.is_none() && self.db_schema.is_none() {
            return String::new();
        }
        let mut resp = String::new();
        if let Some(s) = &self.disk_schema {
            resp.append("disk schema:\n\n");
            resp.append(s.as_text().as_str());
            resp.append("\n\n");
        }
        if let Some(s) = &self.db_schema {
            resp.append("db schema:\n\n");
            resp.append(s.as_text().as_str());
            resp.append("\n\n");
        }
        proof {
            assert(resp@ =~= translator_string(
                opt_schema_view(self.disk_schema),
                opt_schema_view(self.db_schema),
            ));
        }
        resp
    }
}

} // verus!
