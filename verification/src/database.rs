//! One configured database connection and its output-file bindings.

use vstd::prelude::*;

use crate::sql::Table;
use crate::structure::{AcceptedFormat, DiskMapping};
use crate::text::clone_string;
use crate::translators::data_source::DatasourceV;
use crate::translators::generator::GeneratorV;
use crate::translators::json_translator::{JsonTranslator, json_text};
use crate::translators::model::spec_model_from_table;
use crate::translators::prisma_translator::PrismaTranslator;
use crate::translators::schema::{SchemaV, schema_text};

verus! {

/// One database connection: a display name, its connection string, and the
/// files its schema is written to.
#[derive(Debug)]
pub struct Database {
    pub name: String,
    pub db_url: String,
    pub disk_mappings: Vec<DiskMapping>,
}

/// The text one sync writes for one mapping.
pub open spec fn sync_text(format: AcceptedFormat, tables: Seq<Table>) -> Seq<char> {
    match format {
        AcceptedFormat::Json => json_text(tables),
        AcceptedFormat::Prisma => schema_text(
            SchemaV {
                generator: GeneratorV { name: "client"@, provider: "prisma-client-js"@ },
                datasource: DatasourceV { name: "db"@, provider: "mysql"@ },
                models: tables.map_values(|t: Table| spec_model_from_table(t)),
            },
        ),
    }
}

/// The position of the last mapping with that format, or -1 when none has
/// it.
pub open spec fn last_mapping_index(ms: Seq<DiskMapping>, format: AcceptedFormat) -> int
    decreases ms.len(),
{
    if ms.len() == 0 {
        -1
    } else if ms.last().format == format {
        ms.len() - 1
    } else {
        last_mapping_index(ms.drop_last(), format)
    }
}

impl Database {
    /// Renames the connection; this is not the name of the database itself.
    pub fn update_name(&mut self, new_name: String)
        ensures
            *final(self) == (Database { name: new_name, ..*old(self) }),
    {
        self.name = new_name;
    }

    /// Replaces the connection string.
    pub fn update_db_url(&mut self, new_db_url: String)
        ensures
            *final(self) == (Database { db_url: new_db_url, ..*old(self) }),
    {
        self.db_url = new_db_url;
    }

    /// Appends a new format-to-path binding.
    pub fn create_disk_mapping(&mut self, format: AcceptedFormat, path: String)
        ensures
            final(self).name == old(self).name,
            final(self).db_url == old(self).db_url,
            final(self).disk_mappings@ == old(self).disk_mappings@.push(
                DiskMapping { format, path },
            ),
    {
        let mapping = DiskMapping { format, path };
        self.disk_mappings.push(mapping)
    }

    /// Points the last binding of that format at a new path, or appends a
    /// new binding when no binding has the format yet.
    pub fn update_disk_mapping(&mut self, format: AcceptedFormat, path: String)
        ensures
            final(self).name == old(self).name,
            final(self).db_url == old(self).db_url,
            ({
                let i = last_mapping_index(old(self).disk_mappings@, format);
                if i < 0 {
                    final(self).disk_mappings@ == old(self).disk_mappings@.push(
                        DiskMapping { format, path },
                    )
                } else {
                    final(self).disk_mappings@ == old(self).disk_mappings@.update(
                        i,
                        DiskMapping { format: old(self).disk_mappings@[i].format, path },
                    )
                }
            }),
    {
        let ghost msv = self.disk_mappings@;
        if self.disk_mappings.len() == 0 {
            self.create_disk_mapping(format, path);
            return;
        }
        let mut k: usize = self.disk_mappings.len();
        let mut found = false;
        let mut idx: usize = 0;
        proof {
            assert(msv.take(msv.len() as int) =~= msv);
        }
        while k > 0 && !found
            invariant
                msv == self.disk_mappings@,
                0 <= k <= msv.len(),
                !found ==> last_mapping_index(msv, format) == last_mapping_index(
                    msv.take(k as int),
                    format,
                ),
                found ==> idx < msv.len() && last_mapping_index(msv, format) == idx,
            decreases k,
        {
            proof {
                assert(msv.take(k as int).last() == msv[k - 1]);
                assert(msv.take(k as int).drop_last() =~= msv.take(k - 1));
            }
            if self.disk_mappings[k - 1].format == format {
                found = true;
                idx = k - 1;
                k = 0;
            } else {
                k -= 1;
            }
        }
        proof {
            assert(msv.take(0int) =~= Seq::<DiskMapping>::empty());
        }
        if !found {
            self.create_disk_mapping(format, path);
            return;
        }
        let updated = DiskMapping { format: self.disk_mappings[idx].format, path };
        self.disk_mappings.set(idx, updated);
    }

    /// The text one sync writes for one mapping: the path it goes to and the
    /// rendered schema in the mapping's format.
    pub fn sync_one(&self, format: AcceptedFormat, path: String, descriptions: &Vec<Table>) -> (r:
        (String, String))
        ensures
            r.0 == path,
            r.1@ == sync_text(format, descriptions@),
    {
        match format {
            AcceptedFormat::Json => {
                let translator = JsonTranslator { path: clone_string(&path), json: None };
                let text = translator.write_to_disk(descriptions);
                (path, text)
            },
            AcceptedFormat::Prisma => {
                let translator = PrismaTranslator {
                    path: clone_string(&path),
                    disk_schema: None,
                    db_schema: None,
                };
                let text = translator.write_to_disk(descriptions);
                (path, text)
            },
        }
    }

    /// The whole write plan of one sync: one path-and-text pair per binding,
    /// in binding order.
    pub fn sync(&self, descriptions: &Vec<Table>) -> (r: Vec<(String, String)>)
        ensures
            r@.len() == self.disk_mappings@.len(),
            forall|k: int| 0 <= k < r@.len() ==> (#[trigger] r@[k]).0
                == self.disk_mappings@[k].path && r@[k].1@ == sync_text(
                self.disk_mappings@[k].format,
                descriptions@,
            ),
    {
        let mut r: Vec<(String, String)> = Vec::new();
        let mut i: usize = 0;
        while i < self.disk_mappings.len()
            invariant
                0 <= i <= self.disk_mappings@.len(),
                r@.len() == i,
                forall|k: int| 0 <= k < i ==> (#[trigger] r@[k]).0
                    == self.disk_mappings@[k].path && r@[k].1@ == sync_text(
                    self.disk_mappings@[k].format,
                    descriptions@,
                ),
            decreases self.disk_mappings@.len() - i,
        {
            let path = clone_string(&self.disk_mappings[i].path);
            let pair = self.sync_one(self.disk_mappings[i].format, path, descriptions);
            r.push(pair);
            i += 1;
        }
        r
    }

    /// One line per attribute of the connection: the name, the url, then one
    /// line per binding.
    pub fn display(&self) -> (r: String)
        ensures
            r@ == "name: "@ + self.name@ + "\ndb_url: "@ + self.db_url@ + "\n"@ + mappings_lines(
                self.disk_mappings@,
            ),
    {
        let mut r = String::new();
        r.append("name: ");
        r.append(self.name.as_str());
        r.append("\ndb_url: ");
        r.append(self.db_url.as_str());
        r.append("\n");
        let ghost header = "name: "@ + self.name@ + "\ndb_url: "@ + self.db_url@ + "\n"@;
        proof {
            assert(r@ =~= header);
            assert(self.disk_mappings@.take(0int) =~= Seq::<DiskMapping>::empty());
        }
        let mut i: usize = 0;
        while i < self.disk_mappings.len()
            invariant
                0 <= i <= self.disk_mappings@.len(),
                r@ == header + mappings_lines(self.disk_mappings@.take(i as int)),
                header == "name: "@ + self.name@ + "\ndb_url: "@ + self.db_url@ + "\n"@,
            decreases self.disk_mappings@.len() - i,
        {
            proof {
                assert(self.disk_mappings@.take(i + 1).drop_last() =~= self.disk_mappings@.take(
                    i as int,
                ));
                assert(self.disk_mappings@.take(i + 1).last() == self.disk_mappings@[i as int]);
            }
            match self.disk_mappings[i].format {
                AcceptedFormat::Json => r.append("json_path: "),
                AcceptedFormat::Prisma => r.append("prisma_path: "),
            }
            r.append(self.disk_mappings[i].path.as_str());
            r.append("\n");
            proof {
                assert(r@ =~= header + mappings_lines(self.disk_mappings@.take(i + 1)));
            }
            i += 1;
        }
        proof {
            assert(self.disk_mappings@.take(self.disk_mappings@.len() as int)
                =~= self.disk_mappings@);
        }
        r
    }
}

/// One binding's display line.
pub open spec fn mapping_line(m: DiskMapping) -> Seq<char> {
    (match m.format {
        AcceptedFormat::Json => "json_path: "@,
        AcceptedFormat::Prisma => "prisma_path: "@,
    }) + m.path@ + "\n"@
}

/// The bindings' display lines, in order.
pub open spec fn mappings_lines(ms: Seq<DiskMapping>) -> Seq<char>
    decreases ms.len(),
{
    if ms.len() == 0 {
        Seq::empty()
    } else {
        mappings_lines(ms.drop_last()) + mapping_line(ms.last())
    }
}

} // verus!
