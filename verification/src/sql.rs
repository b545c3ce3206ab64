//! The catalog snapshot model: column descriptions, key constraints, and the
//! grouping of raw constraint rows into composite keys.
//!
//! The queries themselves are issued by the process wrapper; this module holds
//! the shapes the rows arrive in and everything that is computed from them.

use vstd::prelude::*;

use crate::text::{clone_string, seq_views};

verus! {

/// One foreign-key constraint, pointing at one referenced column.
#[derive(Clone, Debug)]
pub struct ForeignKey {
    pub constraint_name: String,
    pub column_name: String,
    pub referenced_table_name: String,
    pub referenced_column_name: String,
}

/// One index entry over one column.
#[derive(Clone, Debug)]
pub struct IndexKey {
    pub constraint_name: String,
    pub column_name: String,
}

impl IndexKey {
    /// The block-level index directive for this entry.
    pub fn to_prisma_directive(&self) -> (r: String)
        ensures
            r@ == "@index(["@ + self.column_name@ + "]), map: "@ + self.constraint_name@,
    {
        let mut r = String::new();
        r.append("@index([");
        r.append(self.column_name.as_str());
        r.append("]), map: ");
        r.append(self.constraint_name.as_str());
        proof {
            assert(r@ =~= "@index(["@ + self.column_name@ + "]), map: "@ + self.constraint_name@);
        }
        r
    }
}

/// One unique constraint over one or more columns.
#[derive(Clone, Debug)]
pub struct UniqueKey {
    pub constraint_name: String,
    pub column_names: Vec<String>,
}

/// A key constraint of a table.
#[derive(Clone, Debug)]
pub enum Key {
    Foreign(ForeignKey),
    Index(IndexKey),
    MultiIndex(Vec<IndexKey>),
    Unique(Vec<UniqueKey>),
}

/// Every key constraint of one table.
#[derive(Clone, Debug)]
pub struct TableKeys {
    pub keys: Vec<Key>,
}

/// One raw row of the combined constraint and index-statistics query.
#[derive(Clone, Debug)]
pub struct ForeignKeyInformation {
    pub constraint_name: Option<String>,
    pub constraint_type: Option<String>,
    pub column_name: Option<String>,
    pub ordinal_position: Option<usize>,
    pub referenced_table_name: Option<String>,
    pub referenced_column_name: Option<String>,
    pub index_name: Option<String>,
    pub seq_in_index: Option<usize>,
    pub cardinality: Option<usize>,
    pub index_type: Option<String>,
}

/// One raw row of the column-description query.
#[derive(Clone, Debug)]
pub struct Description {
    pub field: String,
    pub type_: String,
    pub null: String,
    pub key: String,
    pub default: Option<String>,
    pub extra: String,
}

/// One catalog table: its name, its columns, and its keys.
#[derive(Clone, Debug)]
pub struct Table {
    pub name: String,
    pub description: Vec<Description>,
    pub keys: TableKeys,
}

/// A row that contributes to a unique constraint: it is typed `UNIQUE` and
/// carries both a constraint name and a column name.
pub open spec fn is_unique_row(r: ForeignKeyInformation) -> bool {
    &&& r.constraint_type is Some
    &&& r.constraint_type->0@ == "UNIQUE"@
    &&& r.constraint_name is Some
    &&& r.column_name is Some
}

/// A row that describes a foreign key: both referenced names are present.
pub open spec fn is_foreign_row(r: ForeignKeyInformation) -> bool {
    &&& r.referenced_table_name is Some
    &&& r.referenced_column_name is Some
}

/// The position of the group named `name`, or -1 when none is.
pub open spec fn find_group(gs: Seq<(Seq<char>, Seq<Seq<char>>)>, name: Seq<char>) -> int
    decreases gs.len(),
{
    if gs.len() == 0 {
        -1
    } else if gs[0].0 == name {
        0
    } else {
        let r = find_group(gs.skip(1), name);
        if r < 0 {
            -1
        } else {
            1 + r
        }
    }
}

/// What `find_group` returns: the first group with that name, or -1 when no
/// group has it.
pub proof fn lemma_find_group(gs: Seq<(Seq<char>, Seq<Seq<char>>)>, name: Seq<char>)
    ensures
        find_group(gs, name) == -1 ==> forall|k: int| 0 <= k < gs.len() ==> gs[k].0 != name,
        find_group(gs, name) >= 0 ==> find_group(gs, name) < gs.len()
            && gs[find_group(gs, name)].0 == name
            && forall|k: int| 0 <= k < find_group(gs, name) ==> gs[k].0 != name,
    decreases gs.len(),
{
    if gs.len() > 0 && gs[0].0 != name {
        lemma_find_group(gs.skip(1), name);
        assert(forall|k: int| 1 <= k < gs.len() ==> gs[k] == gs.skip(1)[k - 1]);
    }
}

/// One unique-constraint row added to the grouped view: the column is appended
/// to the group of its constraint name, or a new group is opened.
pub open spec fn spec_add_row(
    gs: Seq<(Seq<char>, Seq<Seq<char>>)>,
    name: Seq<char>,
    col: Seq<char>,
) -> Seq<(Seq<char>, Seq<Seq<char>>)> {
    let i = find_group(gs, name);
    if i < 0 {
        gs.push((name, seq![col]))
    } else {
        gs.update(i, (name, gs[i].1.push(col)))
    }
}

/// The unique-constraint rows of `rows`, grouped by constraint name in order
/// of first occurrence, with each group's columns in row order.
pub open spec fn spec_group_rows(rows: Seq<ForeignKeyInformation>) -> Seq<
    (Seq<char>, Seq<Seq<char>>),
>
    decreases rows.len(),
{
    if rows.len() == 0 {
        Seq::empty()
    } else {
        let g = spec_group_rows(rows.drop_last());
        let r = rows.last();
        if is_unique_row(r) {
            spec_add_row(g, r.constraint_name->0@, r.column_name->0@)
        } else {
            g
        }
    }
}

/// The grouped view of a vector of unique keys.
pub open spec fn uk_views(s: Seq<UniqueKey>) -> Seq<(Seq<char>, Seq<Seq<char>>)> {
    s.map_values(|u: UniqueKey| (u.constraint_name@, seq_views(u.column_names@)))
}

/// Groups the `UNIQUE`-typed rows by constraint name, collapsing the rows of
/// one multi-column constraint into one entry. Groups appear in order of
/// first occurrence; each group's columns keep row order.
pub fn group_unique_constraints(data: &Vec<ForeignKeyInformation>) -> (r: Vec<UniqueKey>)
    ensures
        uk_views(r@) == spec_group_rows(data@),
{
    let mut groups: Vec<UniqueKey> = Vec::new();
    let mut i: usize = 0;
    proof {
        assert(data@.take(0int) =~= Seq::<ForeignKeyInformation>::empty());
    }
    while i < data.len()
        invariant
            0 <= i <= data@.len(),
            uk_views(groups@) == spec_group_rows(data@.take(i as int)),
        decreases data@.len() - i,
    {
        let ghost prev = uk_views(groups@);
        proof {
            assert(data@.take(i + 1).drop_last() =~= data@.take(i as int));
            assert(data@.take(i + 1).last() == data@[i as int]);
        }
        let row = &data[i];
        let mut row_is_unique = false;
        if let Some(t) = &row.constraint_type {
            if crate::text::str_eq(t.as_str(), "UNIQUE") {
                if row.constraint_name.is_some() && row.column_name.is_some() {
                    row_is_unique = true;
                }
            }
        }
        if row_is_unique {
            let name = match &row.constraint_name {
                Some(n) => clone_string(n),
                None => String::new(),
            };
            let col = match &row.column_name {
                Some(c) => clone_string(c),
                None => String::new(),
            };
            let mut j: usize = 0;
            let mut found = false;
            let mut idx: usize = 0;
            while j < groups.len() && !found
                invariant
                    0 <= j <= groups@.len(),
                    !found ==> forall|k: int| 0 <= k < j ==> uk_views(groups@)[k].0 != name@,
                    found ==> idx < groups@.len() && uk_views(groups@)[idx as int].0 == name@
                        && forall|k: int| 0 <= k < idx ==> uk_views(groups@)[k].0 != name@,
                decreases groups@.len() - j,
            {
                if crate::text::str_eq(groups[j].constraint_name.as_str(), name.as_str()) {
                    found = true;
                    idx = j;
                }
                j += 1;
            }
            proof {
                lemma_find_group(uk_views(groups@), name@);
            }
            if found {
                let mut cols = crate::text::clone_string_vec(&groups[idx].column_names);
                cols.push(col);
                let updated = UniqueKey {
                    constraint_name: clone_string(&groups[idx].constraint_name),
                    column_names: cols,
                };
                groups.set(idx, updated);
                proof {
                    assert(find_group(prev, name@) == idx);
                    assert(uk_views(groups@) =~~= spec_add_row(prev, name@, col@));
                }
            } else {
                let mut cols: Vec<String> = Vec::new();
                cols.push(col);
                groups.push(UniqueKey { constraint_name: name, column_names: cols });
                proof {
                    assert(find_group(prev, uk_views(groups@).last().0) == -1);
                    assert(seq_views(groups@.last().column_names@) =~= seq![
                        groups@.last().column_names@[0]@,
                    ]);
                    assert(uk_views(groups@) =~~= spec_add_row(
                        prev,
                        uk_views(groups@).last().0,
                        groups@.last().column_names@[0]@,
                    ));
                }
            }
        }
        i += 1;
    }
    proof {
        assert(data@.take(data@.len() as int) =~= data@);
    }
    groups
}

/// Groups the index rows of the combined query; the combined query types its
/// multi-column index rows `UNIQUE`, so the grouping is the same.
pub fn group_multiindex_constraints(data: &Vec<ForeignKeyInformation>) -> (r: Vec<UniqueKey>)
    ensures
        uk_views(r@) == spec_group_rows(data@),
{
    group_unique_constraints(data)
}

/// The rows of `rows` that describe a foreign key, in row order.
pub open spec fn spec_foreign_rows(rows: Seq<ForeignKeyInformation>) -> Seq<ForeignKeyInformation>
    decreases rows.len(),
{
    if rows.len() == 0 {
        Seq::empty()
    } else if is_foreign_row(rows.last()) {
        spec_foreign_rows(rows.drop_last()).push(rows.last())
    } else {
        spec_foreign_rows(rows.drop_last())
    }
}

/// The key entries a row list collapses to: first one `Unique` entry per
/// grouped unique constraint, in grouping order, then one `Foreign` entry
/// per foreign-key row, in row order.
pub open spec fn keys_from_rows(keys: Seq<Key>, rows: Seq<ForeignKeyInformation>) -> bool {
    let gs = spec_group_rows(rows);
    let fs = spec_foreign_rows(rows);
    &&& keys.len() == gs.len() + fs.len()
    &&& forall|k: int| 0 <= k < gs.len() ==> (#[trigger] keys[k] matches Key::Unique(us)
        && uk_views(us@) == seq![gs[k]])
    &&& forall|k: int| 0 <= k < fs.len() ==> (#[trigger] keys[gs.len() + k]
        matches Key::Foreign(f) && f.constraint_name@ == fs[k].constraint_name->0@
        && f.column_name@ == fs[k].column_name->0@
        && f.referenced_table_name@ == fs[k].referenced_table_name->0@
        && f.referenced_column_name@ == fs[k].referenced_column_name->0@)
}

impl TableKeys {
    /// Collapses the raw rows of the combined constraint query into key
    /// entries.
    pub fn from_rows(rows: &Vec<ForeignKeyInformation>) -> (r: TableKeys)
        requires
            forall|k: int| 0 <= k < rows@.len() && is_foreign_row(#[trigger] rows@[k])
                ==> rows@[k].constraint_name is Some && rows@[k].column_name is Some,
        ensures
            keys_from_rows(r.keys@, rows@),
    {
        let ghost gs = spec_group_rows(rows@);
        let mut keys: Vec<Key> = Vec::new();
        let grouped = group_unique_constraints(rows);
        let mut i: usize = 0;
        while i < grouped.len()
            invariant
                uk_views(grouped@) == gs,
                0 <= i <= grouped@.len(),
                keys@.len() == i,
                forall|k: int| 0 <= k < i ==> (#[trigger] keys@[k] matches Key::Unique(us)
                    && uk_views(us@) == seq![gs[k]]),
            decreases grouped@.len() - i,
        {
            let entry = UniqueKey {
                constraint_name: clone_string(&grouped[i].constraint_name),
                column_names: crate::text::clone_string_vec(&grouped[i].column_names),
            };
            let mut one: Vec<UniqueKey> = Vec::new();
            one.push(entry);
            proof {
                assert(uk_views(one@) =~~= seq![gs[i as int]]);
            }
            keys.push(Key::Unique(one));
            i += 1;
        }
        let ghost n_groups = keys@.len();
        let mut j: usize = 0;
        proof {
            assert(spec_foreign_rows(rows@.take(0int)) =~= Seq::<ForeignKeyInformation>::empty());
        }
        while j < rows.len()
            invariant
                forall|k: int| 0 <= k < rows@.len() && is_foreign_row(#[trigger] rows@[k])
                    ==> rows@[k].constraint_name is Some && rows@[k].column_name is Some,
                0 <= j <= rows@.len(),
                keys@.len() == n_groups + spec_foreign_rows(rows@.take(j as int)).len(),
                n_groups == gs.len(),
                forall|k: int| 0 <= k < n_groups ==> (#[trigger] keys@[k] matches Key::Unique(us)
                    && uk_views(us@) == seq![gs[k]]),
                forall|k: int| 0 <= k < spec_foreign_rows(rows@.take(j as int)).len()
                    ==> (#[trigger] keys@[n_groups + k] matches Key::Foreign(f)
                    && f.constraint_name@ == spec_foreign_rows(rows@.take(j as int))[k].constraint_name->0@
                    && f.column_name@ == spec_foreign_rows(rows@.take(j as int))[k].column_name->0@
                    && f.referenced_table_name@ == spec_foreign_rows(rows@.take(j as int))[k].referenced_table_name->0@
                    && f.referenced_column_name@ == spec_foreign_rows(rows@.take(j as int))[k].referenced_column_name->0@),
            decreases rows@.len() - j,
        {
            proof {
                assert(rows@.take(j + 1).drop_last() =~= rows@.take(j as int));
                assert(rows@.take(j + 1).last() == rows@[j as int]);
            }
            let row = &rows[j];
            if row.referenced_column_name.is_some() && row.referenced_table_name.is_some() {
                let fk = ForeignKey {
                    constraint_name: match &row.constraint_name {
                        Some(s) => clone_string(s),
                        None => String::new(),
                    },
                    column_name: match &row.column_name {
                        Some(s) => clone_string(s),
                        None => String::new(),
                    },
                    referenced_table_name: match &row.referenced_table_name {
                        Some(s) => clone_string(s),
                        None => String::new(),
                    },
                    referenced_column_name: match &row.referenced_column_name {
                        Some(s) => clone_string(s),
                        None => String::new(),
                    },
                };
                keys.push(Key::Foreign(fk));
            }
            j += 1;
        }
        proof {
            assert(rows@.take(rows@.len() as int) =~= rows@);
        }
        TableKeys { keys }
    }
}

/// Builds one `Table` from its catalog rows, or nothing when the
/// column-description query returned no rows.
pub fn assemble_table(
    name: String,
    description: Vec<Description>,
    rows: &Vec<ForeignKeyInformation>,
) -> (r: Option<Table>)
    requires
        forall|k: int| 0 <= k < rows@.len() && is_foreign_row(#[trigger] rows@[k])
            ==> rows@[k].constraint_name is Some && rows@[k].column_name is Some,
    ensures
        description@.len() == 0 ==> r is None,
        description@.len() > 0 ==> (r matches Some(t) && t.name == name
            && t.description == description && keys_from_rows(t.keys.keys@, rows@)),
{
    if description.len() == 0 {
        return None;
    }
    let keys = TableKeys::from_rows(rows);
    Some(Table { name, description, keys })
}

} // verus!
