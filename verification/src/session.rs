//! The session: the configured database connections, and the operations the
//! menu layer invokes on them.

use vstd::prelude::*;

use crate::database::{Database, sync_text};
use crate::sql::Table;
use crate::structure::{AcceptedFormat, CommandLineFlags};
use crate::text::{clone_string, lemma_str_le_total, lemma_str_le_trans, spec_str_le, str_eq,
    str_le};
use crate::translators::error::ParseError;
use crate::translators::json_translator::{JsonTranslator, json_text};
use crate::translators::model::lemma_from_table_wf;
use crate::translators::prisma_translator::{PrismaTranslator, spec_parse_schema,
    translator_string};
use crate::translators::schema::SchemaV;

verus! {

/// Why a session operation was refused.
#[derive(Clone, Copy, PartialEq, Eq, Structural, Debug)]
pub enum SessionError {
    /// The selected option names no known format.
    InvalidSelection,
    /// The bound file's text did not parse.
    Parse(ParseError),
}

impl SessionError {
    /// A short description of the error.
    pub fn as_string(&self) -> (r: String)
        ensures
            *self == SessionError::InvalidSelection ==> r@ == "invalid selection"@,
            self matches SessionError::Parse(e) ==> r@ == crate::translators::error::parse_error_text(*e),
    {
        match self {
            SessionError::InvalidSelection => String::from_str("invalid selection"),
            SessionError::Parse(e) => e.as_string(),
        }
    }
}

/// The position of the first database with that connection string, or -1.
pub open spec fn url_index(dbs: Seq<Database>, url: Seq<char>) -> int
    decreases dbs.len(),
{
    if dbs.len() == 0 {
        -1
    } else if dbs[0].db_url@ == url {
        0
    } else {
        let r = url_index(dbs.skip(1), url);
        if r < 0 {
            -1
        } else {
            1 + r
        }
    }
}

/// What `url_index` returns: the first database with that url, or -1.
pub proof fn lemma_url_index(dbs: Seq<Database>, url: Seq<char>)
    ensures
        url_index(dbs, url) == -1 ==> forall|k: int| 0 <= k < dbs.len()
            ==> (#[trigger] dbs[k]).db_url@ != url,
        url_index(dbs, url) >= 0 ==> url_index(dbs, url) < dbs.len()
            && dbs[url_index(dbs, url)].db_url@ == url
            && forall|k: int| 0 <= k < url_index(dbs, url)
            ==> (#[trigger] dbs[k]).db_url@ != url,
    decreases dbs.len(),
{
    if dbs.len() > 0 && dbs[0].db_url@ != url {
        lemma_url_index(dbs.skip(1), url);
        assert(forall|k: int| 1 <= k < dbs.len() ==> dbs[k] == dbs.skip(1)[k - 1]);
    }
}

/// Pushing keeps every earlier entry in place and puts the new one last.
pub proof fn lemma_push_frame(prev: Seq<Database>, cur: Seq<Database>, x: Database)
    requires
        cur == prev.push(x),
    ensures
        cur.len() == prev.len() + 1,
        forall|i: int| 0 <= i < prev.len() ==> #[trigger] cur[i] == prev[i],
        cur[prev.len() as int] == x,
{
    assert forall|i: int| 0 <= i < prev.len() implies #[trigger] cur[i] == prev[i] by {
        assert(prev.push(x)[i] == prev[i]);
    }
    assert(prev.push(x)[prev.len() as int] == x);
}

/// Removing one entry shifts the later entries down and keeps the rest.
pub proof fn lemma_remove_frame(prev: Seq<Database>, cur: Seq<Database>, at: int)
    requires
        0 <= at < prev.len(),
        cur == prev.remove(at),
    ensures
        cur.len() == prev.len() - 1,
        forall|j: int| 0 <= j < at ==> #[trigger] cur[j] == prev[j],
        forall|j: int| at <= j < cur.len() ==> #[trigger] cur[j] == prev[j + 1],
{
    assert forall|j: int| 0 <= j < at implies #[trigger] cur[j] == prev[j] by {
        assert(prev.remove(at)[j] == prev[j]);
    }
    assert forall|j: int| at <= j < cur.len() implies #[trigger] cur[j] == prev[j + 1] by {
        assert(prev.remove(at)[j] == prev[j + 1]);
    }
}

/// One registry entry folded into the list: dropped when a connection with
/// its url is already there.
pub open spec fn spec_add_entry(dbs: Seq<Database>, d: Database) -> Seq<Database> {
    if url_index(dbs, d.db_url@) >= 0 {
        dbs
    } else {
        dbs.push(d)
    }
}

/// The registry entries with later duplicate urls dropped: one connection
/// per distinct url, first occurrence wins, in file order.
pub open spec fn dedup_by_url(entries: Seq<Database>) -> Seq<Database>
    decreases entries.len(),
{
    if entries.len() == 0 {
        Seq::empty()
    } else {
        spec_add_entry(dedup_by_url(entries.drop_last()), entries.last())
    }
}

/// Consecutive databases are ordered by name.
pub open spec fn sorted_by_name(dbs: Seq<Database>) -> bool {
    forall|i: int| 0 <= i && i + 1 < dbs.len() ==> spec_str_le(
        (#[trigger] dbs[i]).name@,
        dbs[i + 1].name@,
    )
}

/// The connections that carry one given name, in their list order.
pub open spec fn with_name(dbs: Seq<Database>, n: Seq<char>) -> Seq<Database>
    decreases dbs.len(),
{
    if dbs.len() == 0 {
        Seq::empty()
    } else {
        let r = with_name(dbs.drop_last(), n);
        if dbs.last().name@ == n {
            r.push(dbs.last())
        } else {
            r
        }
    }
}

/// A list with no entry of that name selects nothing.
pub proof fn lemma_with_name_none(s: Seq<Database>, n: Seq<char>)
    requires
        forall|k: int| 0 <= k < s.len() ==> (#[trigger] s[k]).name@ != n,
    ensures
        with_name(s, n) == Seq::<Database>::empty(),
    decreases s.len(),
{
    if s.len() > 0 {
        assert(forall|k: int| 0 <= k < s.len() - 1 ==> s.drop_last()[k] == s[k]);
        lemma_with_name_none(s.drop_last(), n);
    }
}

/// Appending one entry appends it to its own name's selection and leaves
/// every other selection alone.
pub proof fn lemma_with_name_push(s: Seq<Database>, x: Database, n: Seq<char>)
    ensures
        x.name@ == n ==> with_name(s.push(x), n) == with_name(s, n).push(x),
        x.name@ != n ==> with_name(s.push(x), n) == with_name(s, n),
{
    assert(s.push(x).drop_last() =~= s);
    assert(s.push(x).last() == x);
}

/// Removing the first entry of one name takes exactly that selection's
/// head; removing an entry of another name leaves the selection alone.
pub proof fn lemma_with_name_remove(s: Seq<Database>, at: int, n: Seq<char>)
    requires
        0 <= at < s.len(),
        s[at].name@ == n ==> forall|k: int| 0 <= k < at ==> (#[trigger] s[k]).name@ != n,
    ensures
        s[at].name@ == n ==> with_name(s, n) == seq![s[at]] + with_name(s.remove(at), n),
        s[at].name@ != n ==> with_name(s.remove(at), n) == with_name(s, n),
    decreases s.len(),
{
    lemma_remove_frame(s, s.remove(at), at);
    if at == s.len() - 1 {
        assert(s.remove(at) =~= s.drop_last());
        if s[at].name@ == n {
            assert(forall|k: int| 0 <= k < s.len() - 1 ==> s.drop_last()[k] == s[k]);
            lemma_with_name_none(s.drop_last(), n);
            assert(with_name(s, n) == with_name(s.drop_last(), n).push(s[at]));
            assert(with_name(s, n) =~= seq![s[at]] + with_name(s.remove(at), n));
        }
    } else {
        let sd = s.drop_last();
        assert(forall|k: int| 0 <= k < sd.len() ==> sd[k] == s[k]);
        lemma_with_name_remove(sd, at, n);
        assert(s.remove(at).drop_last() =~= sd.remove(at));
        assert(s.remove(at).last() == s.last());
        if s[at].name@ == n {
            if s.last().name@ == n {
                assert(with_name(s, n) == with_name(sd, n).push(s.last()));
                assert(with_name(s.remove(at), n) == with_name(sd.remove(at), n).push(s.last()));
                assert(seq![s[at]] + with_name(sd.remove(at), n).push(s.last()) =~= (seq![s[at]]
                    + with_name(sd.remove(at), n)).push(s.last()));
            } else {
                assert(with_name(s, n) == with_name(sd, n));
                assert(with_name(s.remove(at), n) == with_name(sd.remove(at), n));
            }
        }
    }
}

/// The session: every configured connection, the path its registry file
/// lives at, and the process flags handed in at startup.
#[derive(Debug)]
pub struct Session {
    pub databases: Vec<Database>,
    pub _data_location: String,
    pub command_line_flags: Option<CommandLineFlags>,
}

impl Session {
    /// A session over the decoded registry entries, each entry added in file
    /// order and dropped when an earlier one has its url; an empty registry
    /// is no session, and the caller falls back to a bare one.
    pub fn new(full_path: &String, databases: Vec<Database>) -> (r: Option<Session>)
        ensures
            databases@.len() == 0 ==> r is None,
            databases@.len() > 0 ==> (r matches Some(s) && s.databases@ == dedup_by_url(
                databases@,
            ) && s._data_location@ == full_path@ && s.command_line_flags is None),
    {
        if databases.len() == 0 {
            return None;
        }
        let ghost orig = databases@;
        let mut entries = databases;
        let mut s = Session {
            databases: Vec::new(),
            _data_location: clone_string(full_path),
            command_line_flags: None,
        };
        let ghost mut done: int = 0;
        proof {
            assert(dedup_by_url(orig.take(0int)) =~= Seq::<Database>::empty());
            assert(s.databases@ == dedup_by_url(orig.take(0int)));
            assert(entries@ =~= orig.skip(0int));
        }
        while entries.len() > 0
            invariant
                0 <= done <= orig.len(),
                entries@ == orig.skip(done),
                s.databases@ == dedup_by_url(orig.take(done)),
                s._data_location@ == full_path@,
                s.command_line_flags is None,
            decreases entries@.len(),
        {
            let ghost prev_entries = entries@;
            let d = entries.remove(0);
            proof {
                assert(orig.skip(done)[0] == orig[done]);
                assert(prev_entries.remove(0) =~= orig.skip(done + 1));
                assert(orig.take(done + 1).drop_last() =~= orig.take(done));
                assert(orig.take(done + 1).last() == orig[done]);
            }
            s.add_database(d);
            proof {
                done = done + 1;
            }
        }
        proof {
            assert(orig.take(orig.len() as int) =~= orig);
        }
        Some(s)
    }

    /// A session with no databases yet.
    pub fn new_bare_session(full_path: &String) -> (r: Option<Session>)
        ensures
            r matches Some(s) && s.databases@.len() == 0 && s._data_location@ == full_path@
                && s.command_line_flags is None,
    {
        Some(
            Session {
                databases: Vec::new(),
                _data_location: clone_string(full_path),
                command_line_flags: None,
            },
        )
    }

    /// Stores the process flags.
    pub fn set_command_line_flags(&mut self, flags: CommandLineFlags)
        ensures
            *final(self) == (Session { command_line_flags: Some(flags), ..*old(self) }),
    {
        self.command_line_flags = Some(flags);
    }

    /// The position of the first database with that connection string.
    pub fn find_existing_database_index(&self, db_url: &str) -> (r: Option<usize>)
        ensures
            match r {
                Some(i) => url_index(self.databases@, db_url@) == i,
                None => url_index(self.databases@, db_url@) == -1,
            },
    {
        let mut index: usize = 0;
        while index < self.databases.len()
            invariant
                0 <= index <= self.databases@.len(),
                forall|k: int| 0 <= k < index ==> (#[trigger] self.databases@[k]).db_url@
                    != db_url@,
            decreases self.databases@.len() - index,
        {
            if str_eq(self.databases[index].db_url.as_str(), db_url) {
                proof {
                    lemma_url_index(self.databases@, db_url@);
                }
                return Some(index);
            }
            index += 1;
        }
        proof {
            lemma_url_index(self.databases@, db_url@);
        }
        None
    }

    /// Appends a connection unless one with the same url is already there;
    /// says whether anything changed, so the caller knows to save.
    pub fn add_database(&mut self, database: Database) -> (r: bool)
        ensures
            url_index(old(self).databases@, database.db_url@) >= 0 ==> !r && *final(self) == *old(
                self,
            ),
            url_index(old(self).databases@, database.db_url@) < 0 ==> r && final(self).databases@
                == old(self).databases@.push(database) && final(self)._data_location == old(
                self,
            )._data_location && final(self).command_line_flags == old(self).command_line_flags,
    {
        if self.find_existing_database_index(database.db_url.as_str()).is_some() {
            return false;
        }
        self.databases.push(database);
        true
    }

    /// Sorts the connections by name: repeatedly moves a smallest-named
    /// connection over. What comes out is the same collection, ordered.
    #[verifier::rlimit(100)]
    pub fn sort(&mut self)
        ensures
            final(self)._data_location == old(self)._data_location,
            final(self).command_line_flags == old(self).command_line_flags,
            final(self).databases@.to_multiset() == old(self).databases@.to_multiset(),
            sorted_by_name(final(self).databases@),
            forall|n: Seq<char>| #[trigger] with_name(final(self).databases@, n) == with_name(
                old(self).databases@,
                n,
            ),
    {
        broadcast use vstd::seq_lib::group_to_multiset_ensures;

        let ghost orig = self.databases@;
        let mut rest: Vec<Database> = Vec::new();
        core::mem::swap(&mut rest, &mut self.databases);
        let mut out: Vec<Database> = Vec::new();
        proof {
            assert(out@.to_multiset().add(rest@.to_multiset()) =~= orig.to_multiset());
            assert forall|n: Seq<char>| #[trigger] with_name(orig, n) == with_name(out@, n)
                + with_name(rest@, n) by {
                assert(with_name(out@, n) + with_name(rest@, n) =~= with_name(orig, n));
            }
        }
        while rest.len() > 0
            invariant
                out@.to_multiset().add(rest@.to_multiset()) == orig.to_multiset(),
                sorted_by_name(out@),
                forall|i: int, j: int| 0 <= i < out@.len() && 0 <= j < rest@.len()
                    ==> spec_str_le((#[trigger] out@[i]).name@, (#[trigger] rest@[j]).name@),
                forall|n: Seq<char>| #[trigger] with_name(orig, n) == with_name(out@, n)
                    + with_name(rest@, n),
            decreases rest@.len(),
        {
            proof {
                lemma_str_le_total(rest@[0int].name@, rest@[0int].name@);
            }
            let mut mi: usize = 0;
            let mut k: usize = 1;
            while k < rest.len()
                invariant
                    rest@.len() > 0,
                    0 <= mi < rest@.len(),
                    k <= rest@.len(),
                    forall|q: int| 0 <= q < k ==> spec_str_le(
                        rest@[mi as int].name@,
                        (#[trigger] rest@[q]).name@,
                    ),
                    forall|q: int| 0 <= q < mi ==> !spec_str_le(
                        (#[trigger] rest@[q]).name@,
                        rest@[mi as int].name@,
                    ),
                decreases rest@.len() - k,
            {
                proof {
                    lemma_str_le_total(rest@[mi as int].name@, rest@[k as int].name@);
                }
                if !str_le(rest[mi].name.as_str(), rest[k].name.as_str()) {
                    proof {
                        assert forall|q: int| 0 <= q < k implies spec_str_le(
                            rest@[k as int].name@,
                            (#[trigger] rest@[q]).name@,
                        ) by {
                            lemma_str_le_trans(
                                rest@[k as int].name@,
                                rest@[mi as int].name@,
                                rest@[q].name@,
                            );
                        }
                        assert forall|q: int| 0 <= q < k implies !spec_str_le(
                            (#[trigger] rest@[q]).name@,
                            rest@[k as int].name@,
                        ) by {
                            if spec_str_le(rest@[q].name@, rest@[k as int].name@) {
                                lemma_str_le_trans(
                                    rest@[mi as int].name@,
                                    rest@[q].name@,
                                    rest@[k as int].name@,
                                );
                            }
                        }
                    }
                    mi = k;
                }
                proof {
                    lemma_str_le_total(rest@[mi as int].name@, rest@[mi as int].name@);
                }
                k += 1;
            }
            let ghost prev_out = out@;
            let ghost prev_rest = rest@;
            let picked = rest.remove(mi);
            out.push(picked);
            proof {
                let ghost x = prev_rest[mi as int];
                prev_rest.to_multiset_ensures();
                prev_out.to_multiset_ensures();
                assert(out@ =~= prev_out.push(x));
                assert(rest@ =~= prev_rest.remove(mi as int));
                assert(prev_rest.remove(mi as int).to_multiset() =~= prev_rest.to_multiset()
                    .remove(x));
                assert(prev_rest.to_multiset().contains(x)) by {
                    assert(prev_rest.contains(x));
                }
                assert(out@.to_multiset() =~= prev_out.to_multiset().insert(x));
                assert(out@.to_multiset().add(rest@.to_multiset()) =~= orig.to_multiset());
                lemma_push_frame(prev_out, out@, x);
                lemma_remove_frame(prev_rest, rest@, mi as int);
                assert forall|i: int, j: int| 0 <= i < out@.len() && 0 <= j < rest@.len()
                    implies spec_str_le(
                    (#[trigger] out@[i]).name@,
                    (#[trigger] rest@[j]).name@,
                ) by {
                    if j < mi {
                        assert(rest@[j] == prev_rest[j]);
                    } else {
                        assert(rest@[j] == prev_rest[j + 1]);
                    }
                    if i < prev_out.len() {
                        assert(out@[i] == prev_out[i]);
                    } else {
                        assert(out@[i] == x);
                    }
                }
                assert forall|i: int| 0 <= i && i + 1 < out@.len() implies spec_str_le(
                    (#[trigger] out@[i]).name@,
                    out@[i + 1].name@,
                ) by {
                    if i + 1 < prev_out.len() {
                        assert(out@[i] == prev_out[i]);
                        assert(out@[i + 1] == prev_out[i + 1]);
                    } else {
                        assert(out@[i + 1] == x);
                        assert(out@[i] == prev_out[i]);
                    }
                }
                assert forall|q: int| 0 <= q < mi implies (#[trigger] prev_rest[q]).name@
                    != x.name@ by {
                    lemma_str_le_total(prev_rest[q].name@, x.name@);
                }
                assert forall|n: Seq<char>| #[trigger] with_name(orig, n) == with_name(out@, n)
                    + with_name(rest@, n) by {
                    lemma_with_name_push(prev_out, x, n);
                    lemma_with_name_remove(prev_rest, mi as int, n);
                    if n == x.name@ {
                        assert(with_name(prev_rest, n) == seq![x] + with_name(rest@, n));
                        assert(with_name(out@, n) == with_name(prev_out, n).push(x));
                        assert(with_name(prev_out, n) + (seq![x] + with_name(rest@, n))
                            =~= with_name(prev_out, n).push(x) + with_name(rest@, n));
                    } else {
                        assert(with_name(out@, n) == with_name(prev_out, n));
                        assert(with_name(rest@, n) == with_name(prev_rest, n));
                    }
                }
            }
        }
        self.databases = out;
        proof {
            rest@.to_multiset_ensures();
            assert(rest@.to_multiset().len() == 0);
            assert(self.databases@.to_multiset().add(rest@.to_multiset())
                =~= self.databases@.to_multiset());
            assert(self.databases@.to_multiset() =~= orig.to_multiset());
            assert forall|n: Seq<char>| #[trigger] with_name(self.databases@, n) == with_name(
                orig,
                n,
            ) by {
                assert(with_name(rest@, n) == Seq::<Database>::empty());
                assert(with_name(self.databases@, n) + with_name(rest@, n) =~= with_name(
                    self.databases@,
                    n,
                ));
            }
        }
    }

    /// Sorts the connections and renders each one, in order.
    pub fn display(&mut self) -> (r: String)
        ensures
            final(self)._data_location == old(self)._data_location,
            final(self).command_line_flags == old(self).command_line_flags,
            final(self).databases@.to_multiset() == old(self).databases@.to_multiset(),
            sorted_by_name(final(self).databases@),
            forall|n: Seq<char>| #[trigger] with_name(final(self).databases@, n) == with_name(
                old(self).databases@,
                n,
            ),
    {
        self.sort();
        let mut r = String::new();
        let mut i: usize = 0;
        while i < self.databases.len()
            invariant
                0 <= i <= self.databases@.len(),
            decreases self.databases@.len() - i,
        {
            r.append(self.databases[i].display().as_str());
            i += 1;
        }
        r
    }

    /// The write plans of every connection, one plan per connection, given
    /// each connection's snapshot in the same order.
    pub fn sync(&self, all_descriptions: &Vec<Vec<Table>>) -> (r: Vec<Vec<(String, String)>>)
        requires
            all_descriptions@.len() == self.databases@.len(),
        ensures
            r@.len() == self.databases@.len(),
            forall|i: int, j: int| 0 <= i < r@.len() && 0 <= j < (#[trigger] r@[i])@.len()
                ==> (#[trigger] r@[i]@[j]).0 == self.databases@[i].disk_mappings@[j].path
                && r@[i]@[j].1@ == sync_text(
                self.databases@[i].disk_mappings@[j].format,
                all_descriptions@[i]@,
            ),
            forall|i: int| 0 <= i < r@.len() ==> (#[trigger] r@[i])@.len()
                == self.databases@[i].disk_mappings@.len(),
    {
        let mut r: Vec<Vec<(String, String)>> = Vec::new();
        let mut i: usize = 0;
        while i < self.databases.len()
            invariant
                all_descriptions@.len() == self.databases@.len(),
                0 <= i <= self.databases@.len(),
                r@.len() == i,
                forall|p: int, j: int| 0 <= p < i && 0 <= j < (#[trigger] r@[p])@.len()
                    ==> (#[trigger] r@[p]@[j]).0 == self.databases@[p].disk_mappings@[j].path
                    && r@[p]@[j].1@ == sync_text(
                    self.databases@[p].disk_mappings@[j].format,
                    all_descriptions@[p]@,
                ),
                forall|p: int| 0 <= p < i ==> (#[trigger] r@[p])@.len()
                    == self.databases@[p].disk_mappings@.len(),
            decreases self.databases@.len() - i,
        {
            let plan = self.databases[i].sync(&all_descriptions[i]);
            r.push(plan);
            i += 1;
        }
        r
    }

    /// Renders the schema stored on disk for the selected format: the given
    /// file text as it stands for the JSON format, or parsed and re-rendered
    /// under its label for the DSL format.
    pub fn view_table_from_disk(&self, selection: usize, db_index: usize, options: &Vec<String>,
        contents: &str) -> (r: Result<String, SessionError>)
        requires
            selection < options@.len(),
            db_index < self.databases@.len(),
            selection < self.databases@[db_index as int].disk_mappings@.len(),
        ensures
            options@[selection as int]@ == "json"@ ==> (r matches Ok(s) && s@ == contents@),
            options@[selection as int]@ == "prisma"@ ==> (match spec_parse_schema(contents@) {
                Err(e) => r == Err::<String, SessionError>(SessionError::Parse(e)),
                Ok(sv) => r matches Ok(s) && s@ == translator_string(Some(sv), None),
            }),
            options@[selection as int]@ != "json"@ && options@[selection as int]@ != "prisma"@
                ==> r == Err::<String, SessionError>(SessionError::InvalidSelection),
    {
        proof {
            reveal_strlit("json");
            reveal_strlit("prisma");
            assert("json"@.len() != "prisma"@.len());
        }
        if str_eq(options[selection].as_str(), "json") {
            let path = clone_string(&self.databases[db_index].disk_mappings[selection].path);
            let mut translator = JsonTranslator { path, json: None };
            translator.load_from_disk(contents);
            Ok(translator.get_string())
        } else if str_eq(options[selection].as_str(), "prisma") {
            let path = clone_string(&self.databases[db_index].disk_mappings[selection].path);
            let mut translator = PrismaTranslator { path, disk_schema: None, db_schema: None };
            match translator.load_from_disk(contents) {
                Err(e) => Err(SessionError::Parse(e)),
                Ok(()) => {
                    proof {
                        crate::translators::prisma_translator::lemma_parse_schema_wf(contents@);
                    }
                    Ok(translator.get_string())
                },
            }
        } else {
            Err(SessionError::InvalidSelection)
        }
    }

    /// Renders the schema built fresh from the snapshot for the selected
    /// format.
    pub fn view_table_from_database(&self, selection: usize, db_index: usize,
        options: &Vec<String>, descriptions: &Vec<Table>) -> (r: Result<String, SessionError>)
        requires
            selection < options@.len(),
            db_index < self.databases@.len(),
            selection < self.databases@[db_index as int].disk_mappings@.len(),
        ensures
            options@[selection as int]@ == "json"@ ==> (r matches Ok(s) && s@ == json_text(
                descriptions@,
            )),
            options@[selection as int]@ == "prisma"@ ==> (r matches Ok(s) && s@
                == translator_string(
                None,
                Some(
                    SchemaV {
                        generator: crate::translators::generator::GeneratorV {
                            name: "client"@,
                            provider: "prisma-client-js"@,
                        },
                        datasource: crate::translators::data_source::DatasourceV {
                            name: "db"@,
                            provider: "mysql"@,
                        },
                        models: descriptions@.map_values(
                            |t: Table| crate::translators::model::spec_model_from_table(t),
                        ),
                    },
                ),
            )),
            options@[selection as int]@ != "json"@ && options@[selection as int]@ != "prisma"@
                ==> r == Err::<String, SessionError>(SessionError::InvalidSelection),
    {
        proof {
            reveal_strlit("json");
            reveal_strlit("prisma");
            assert("json"@.len() != "prisma"@.len());
        }
        if str_eq(options[selection].as_str(), "json") {
            let path = clone_string(&self.databases[db_index].disk_mappings[selection].path);
            let mut translator = JsonTranslator { path, json: None };
            translator.load_from_database(descriptions);
            Ok(translator.get_string())
        } else if str_eq(options[selection].as_str(), "prisma") {
            let path = clone_string(&self.databases[db_index].disk_mappings[selection].path);
            let mut translator = PrismaTranslator { path, disk_schema: None, db_schema: None };
            translator.load_from_database(descriptions);
            proof {
                let ghost ms = descriptions@.map_values(
                    |t: Table| crate::translators::model::spec_model_from_table(t),
                );
                assert forall|k: int| 0 <= k < ms.len() implies
                    crate::translators::model::model_wf(#[trigger] ms[k]) by {
                    lemma_from_table_wf(descriptions@[k]);
                }
            }
            Ok(translator.get_string())
        } else {
            Err(SessionError::InvalidSelection)
        }
    }

    /// The write plan for one mapping of one connection, selected by format
    /// tag.
    pub fn write_one_schema_from_database(&self, selection: usize, db_index: usize,
        options: &Vec<String>, descriptions: &Vec<Table>) -> (r: Result<
        (String, String),
        SessionError,
    >)
        requires
            selection < options@.len(),
            db_index < self.databases@.len(),
            selection < self.databases@[db_index as int].disk_mappings@.len(),
        ensures
            options@[selection as int]@ == "json"@ ==> (r matches Ok(p) && p.0
                == self.databases@[db_index as int].disk_mappings@[selection as int].path && p.1@
                == sync_text(AcceptedFormat::Json, descriptions@)),
            options@[selection as int]@ == "prisma"@ ==> (r matches Ok(p) && p.0
                == self.databases@[db_index as int].disk_mappings@[selection as int].path && p.1@
                == sync_text(AcceptedFormat::Prisma, descriptions@)),
            options@[selection as int]@ != "json"@ && options@[selection as int]@ != "prisma"@
                ==> r == Err::<(String, String), SessionError>(SessionError::InvalidSelection),
    {
        proof {
            reveal_strlit("json");
            reveal_strlit("prisma");
            assert("json"@.len() != "prisma"@.len());
        }
        if str_eq(options[selection].as_str(), "json") {
            let path = clone_string(&self.databases[db_index].disk_mappings[selection].path);
            Ok(self.databases[db_index].sync_one(AcceptedFormat::Json, path, descriptions))
        } else if str_eq(options[selection].as_str(), "prisma") {
            let path = clone_string(&self.databases[db_index].disk_mappings[selection].path);
            Ok(self.databases[db_index].sync_one(AcceptedFormat::Prisma, path, descriptions))
        } else {
            Err(SessionError::InvalidSelection)
        }
    }
}

} // verus!
