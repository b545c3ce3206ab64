//! The JSON translator: renders a catalog snapshot as a JSON description of
//! its tables, and caches at most one rendered or loaded text.

use vstd::prelude::*;

use crate::sql::{Description, Table};
use crate::text::{clone_string, contains_str, join_str, seq_views, spec_contains, spec_join,
    str_eq, substring};

verus! {

/// One column rendered for the JSON file: its raw type, then the key tag,
/// the not-null marker and the auto-increment marker, each when present.
pub open spec fn desc_text(d: Description) -> Seq<char> {
    d.type_@ + (if d.key@.len() > 0 {
        " "@ + d.key@
    } else {
        Seq::empty()
    }) + (if d.null@ == "NO"@ {
        " NOT NULL"@
    } else {
        Seq::empty()
    }) + (if spec_contains(d.extra@, "auto_increment"@) {
        " AUTO_INCREMENT"@
    } else {
        Seq::empty()
    })
}

/// The hexadecimal digit for one value below sixteen, lower case.
pub open spec fn hex_digit(n: int) -> char {
    if n < 10 {
        (48 + n) as char
    } else {
        (87 + n) as char
    }
}

/// One character escaped for a JSON string literal: quote, backslash and
/// the named control characters get their short escapes, every other
/// control character its four-digit escape.
pub open spec fn esc1(c: char) -> Seq<char> {
    if c == '"' {
        seq!['\\', '"']
    } else if c == '\\' {
        seq!['\\', '\\']
    } else if c == '\n' {
        seq!['\\', 'n']
    } else if c == '\r' {
        seq!['\\', 'r']
    } else if c == '\t' {
        seq!['\\', 't']
    } else if (c as int) < 32 {
        seq!['\\', 'u', '0', '0', hex_digit((c as int) / 16), hex_digit((c as int) % 16)]
    } else {
        seq![c]
    }
}

/// The hexadecimal digit for one value below sixteen, lower case.
pub fn hex_digit_str(n: u32) -> (r: &'static str)
    requires
        n < 16,
    ensures
        r@ == seq![hex_digit(n as int)],
{
    let r: &'static str = match n {
        0 => "0",
        1 => "1",
        2 => "2",
        3 => "3",
        4 => "4",
        5 => "5",
        6 => "6",
        7 => "7",
        8 => "8",
        9 => "9",
        10 => "a",
        11 => "b",
        12 => "c",
        13 => "d",
        14 => "e",
        _ => "f",
    };
    proof {
        reveal_strlit("0");
        reveal_strlit("1");
        reveal_strlit("2");
        reveal_strlit("3");
        reveal_strlit("4");
        reveal_strlit("5");
        reveal_strlit("6");
        reveal_strlit("7");
        reveal_strlit("8");
        reveal_strlit("9");
        reveal_strlit("a");
        reveal_strlit("b");
        reveal_strlit("c");
        reveal_strlit("d");
        reveal_strlit("e");
        reveal_strlit("f");
        assert(r@ =~= seq![hex_digit(n as int)]);
    }
    r
}

/// A string escaped for a JSON string literal.
pub open spec fn spec_json_escape(s: Seq<char>) -> Seq<char>
    decreases s.len(),
{
    if s.len() == 0 {
        Seq::empty()
    } else {
        spec_json_escape(s.drop_last()) + esc1(s.last())
    }
}

/// One column's line of the JSON file.
pub open spec fn col_line(d: Description) -> Seq<char> {
    "      \""@ + spec_json_escape(d.field@) + "\": \""@ + spec_json_escape(desc_text(d)) + "\""@
}

/// One table's block of the JSON file.
pub open spec fn table_block(t: Table) -> Seq<char> {
    "    \""@ + spec_json_escape(t.name@) + "\": {"@ + (if t.description@.len() == 0 {
        "}"@
    } else {
        "\n"@ + spec_join(t.description@.map_values(|d: Description| col_line(d)), ",\n"@)
            + "\n    }"@
    })
}

/// The whole JSON file: every table's block under the `tables` key.
pub open spec fn json_text(tables: Seq<Table>) -> Seq<char> {
    "{\n  \"tables\": {"@ + (if tables.len() == 0 {
        Seq::empty()
    } else {
        "\n"@ + spec_join(tables.map_values(|t: Table| table_block(t)), ",\n"@) + "\n  "@
    }) + "}\n}"@
}

/// Escapes a string for a JSON string literal.
pub fn json_escape(s: &str) -> (r: String)
    ensures
        r@ == spec_json_escape(s@),
{
    let n = s.unicode_len();
    let mut r = String::new();
    let mut i: usize = 0;
    proof {
        reveal_strlit("\\\"");
        reveal_strlit("\\\\");
        reveal_strlit("\\n");
        reveal_strlit("\\r");
        reveal_strlit("\\t");
        reveal_strlit("\\u00");
        assert(s@.take(0int) =~= Seq::<char>::empty());
    }
    while i < n
        invariant
            n == s@.len(),
            0 <= i <= n,
            r@ == spec_json_escape(s@.take(i as int)),
            "\\\""@ == seq!['\\', '"'],
            "\\\\"@ == seq!['\\', '\\'],
            "\\n"@ == seq!['\\', 'n'],
            "\\r"@ == seq!['\\', 'r'],
            "\\t"@ == seq!['\\', 't'],
            "\\u00"@ == seq!['\\', 'u', '0', '0'],
        decreases n - i,
    {
        proof {
            assert(s@.take(i + 1).drop_last() =~= s@.take(i as int));
            assert(s@.take(i + 1).last() == s@[i as int]);
        }
        let c = s.get_char(i);
        if c == '"' {
            r.append("\\\"");
        } else if c == '\\' {
            r.append("\\\\");
        } else if c == '\n' {
            r.append("\\n");
        } else if c == '\r' {
            r.append("\\r");
        } else if c == '\t' {
            r.append("\\t");
        } else if (c as u32) < 32 {
            let u = c as u32;
            r.append("\\u00");
            r.append(hex_digit_str(u / 16));
            r.append(hex_digit_str(u % 16));
            proof {
                assert((u / 16) as int == (c as int) / 16);
                assert((u % 16) as int == (c as int) % 16);
            }
        } else {
            let piece = substring(s, i, i + 1);
            r.append(piece.as_str());
            proof {
                assert(piece@ =~= seq![s@[i as int]]);
            }
        }
        proof {
            assert(r@ =~= spec_json_escape(s@.take(i + 1)));
        }
        i += 1;
    }
    proof {
        assert(s@.take(n as int) =~= s@);
    }
    r
}

/// Translates between a catalog snapshot and the JSON file bound to `path`,
/// caching at most one rendered or loaded text.
#[derive(Debug)]
pub struct JsonTranslator {
    pub path: String,
    pub json: Option<String>,
}

impl JsonTranslator {
    /// Formats one column description.
    pub fn format_table(&self, field: &Description) -> (r: String)
        ensures
            r@ == desc_text(*field),
    {
        let mut result = String::new();
        result.append(field.type_.as_str());
        if field.key.as_str().unicode_len() > 0 {
            result.append(" ");
            result.append(field.key.as_str());
        }
        if str_eq(field.null.as_str(), "NO") {
            result.append(" NOT NULL");
        }
        if contains_str(field.extra.as_str(), "auto_increment") {
            result.append(" AUTO_INCREMENT");
        }
        proof {
            assert(result@ =~= desc_text(*field));
        }
        result
    }

    /// Pairs each column's name with its rendered description.
    pub fn format_database(&self, database: &Vec<Description>) -> (r: Vec<(String, String)>)
        ensures
            r@.len() == database@.len(),
            forall|k: int| 0 <= k < r@.len() ==> (#[trigger] r@[k]).0@ == database@[k].field@
                && r@[k].1@ == desc_text(database@[k]),
    {
        let mut result: Vec<(String, String)> = Vec::new();
        let mut i: usize = 0;
        while i < database.len()
            invariant
                0 <= i <= database@.len(),
                result@.len() == i,
                forall|k: int| 0 <= k < i ==> (#[trigger] result@[k]).0@ == database@[k].field@
                    && result@[k].1@ == desc_text(database@[k]),
            decreases database@.len() - i,
        {
            let name = clone_string(&database[i].field);
            let rendered = self.format_table(&database[i]);
            result.push((name, rendered));
            i += 1;
        }
        result
    }

    /// The JSON text a catalog snapshot translates to.
    #[verifier::rlimit(100)]
    pub fn get_translation(&self, database: &Vec<Table>) -> (r: String)
        ensures
            r@ == json_text(database@),
    {
        let ghost blocksv = database@.map_values(|t: Table| table_block(t));
        let mut blocks: Vec<String> = Vec::new();
        let mut i: usize = 0;
        proof {
            assert(seq_views(blocks@) =~~= blocksv.take(0int));
        }
        while i < database.len()
            invariant
                blocksv == database@.map_values(|t: Table| table_block(t)),
                0 <= i <= database@.len(),
                seq_views(blocks@) == blocksv.take(i as int),
            decreases database@.len() - i,
        {
            let t = &database[i];
            let ghost linesv = t.description@.map_values(|d: Description| col_line(d));
            let mut lines: Vec<String> = Vec::new();
            let mut j: usize = 0;
            proof {
                assert(seq_views(lines@) =~~= linesv.take(0int));
            }
            while j < t.description.len()
                invariant
                    linesv == t.description@.map_values(|d: Description| col_line(d)),
                    0 <= j <= t.description@.len(),
                    seq_views(lines@) == linesv.take(j as int),
                decreases t.description@.len() - j,
            {
                let ghost prevl = seq_views(lines@);
                let d = &t.description[j];
                let mut line = String::new();
                line.append("      \"");
                line.append(json_escape(d.field.as_str()).as_str());
                line.append("\": \"");
                line.append(json_escape(self.format_table(d).as_str()).as_str());
                line.append("\"");
                proof {
                    assert(line@ =~= col_line(t.description@[j as int]));
                }
                lines.push(line);
                proof {
                    assert(seq_views(lines@) =~~= prevl.push(linesv[j as int]));
                    assert(seq_views(lines@) =~~= linesv.take(j + 1));
                }
                j += 1;
            }
            proof {
                assert(linesv.take(t.description@.len() as int) =~= linesv);
            }
            let ghost prevb = seq_views(blocks@);
            let mut block = String::new();
            block.append("    \"");
            block.append(json_escape(t.name.as_str()).as_str());
            block.append("\": {");
            if t.description.len() == 0 {
                block.append("}");
            } else {
                block.append("\n");
                block.append(join_str(&lines, ",\n").as_str());
                block.append("\n    }");
            }
            proof {
                assert(block@ =~= table_block(database@[i as int]));
            }
            blocks.push(block);
            proof {
                assert(seq_views(blocks@) =~~= prevb.push(blocksv[i as int]));
                assert(seq_views(blocks@) =~~= blocksv.take(i + 1));
            }
            i += 1;
        }
        proof {
            assert(blocksv.take(database@.len() as int) =~= blocksv);
        }
        let mut r = String::new();
        r.append("{\n  \"tables\": {");
        if database.len() > 0 {
            r.append("\n");
            r.append(join_str(&blocks, ",\n").as_str());
            r.append("\n  ");
        }
        r.append("}\n}");
        proof {
            assert(r@ =~= json_text(database@));
        }
        r
    }

    /// Replaces the cache with the snapshot's rendered JSON.
    pub fn load_from_database(&mut self, database: &Vec<Table>)
        ensures
            final(self).path == old(self).path,
            final(self).json matches Some(s) && s@ == json_text(database@),
    {
        let s = self.get_translation(database);
        self.json = Some(s);
    }

    /// Fills the cache with the bound file's text, unless an earlier load
    /// already did.
    pub fn load_from_disk(&mut self, contents: &str)
        ensures
            final(self).path == old(self).path,
            old(self).json is Some ==> final(self).json == old(self).json,
            old(self).json is None ==> (final(self).json matches Some(s) && s@ == contents@),
    {
        if self.json.is_none() {
            self.json = Some(contents.to_owned());
        }
    }

    /// The text written at the bound path on a sync.
    pub fn write_to_disk(&self, database: &Vec<Table>) -> (r: String)
        ensures
            r@ == json_text(database@),
    {
        self.get_translation(database)
    }

    /// The cached text, or the empty string while nothing is cached.
    pub fn get_string(&self) -> (r: String)
        ensures
            self.json is Some ==> r@ == self.json->0@,
            self.json is None ==> r@ == Seq::<char>::empty(),
    {
        match &self.json {
            Some(s) => clone_string(s),
            None => String::new(),
        }
    }
}

} // verus!
