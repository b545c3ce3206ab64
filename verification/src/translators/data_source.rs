//! The datasource block of a schema: its rendering and its parser.

use vstd::prelude::*;

use crate::text::{clone_string, contains_str, replace_str, seq_views, split_str, spec_contains,
    spec_replace, spec_split, str_eq, strip_pre, strip_suf, strip_prefix_str, strip_suffix_str};

verus! {

/// The mathematical shape of the datasource block.
pub struct DatasourceV {
    pub name: Seq<char>,
    pub provider: Seq<char>,
}

/// The datasource block of a schema.
#[derive(Debug)]
pub struct Datasource {
    pub name: String,
    pub provider: String,
}

impl View for Datasource {
    type V = DatasourceV;

    open spec fn view(&self) -> DatasourceV {
        DatasourceV { name: self.name@, provider: self.provider@ }
    }
}

/// The rendered datasource block.
pub open spec fn datasource_text(d: DatasourceV) -> Seq<char> {
    "datasource "@ + d.name + " {\n  provider = \""@ + d.provider
        + "\"\n  url      = env(\"DATABASE_URL\")\n}"@
}

/// The block's lines folded into the name and provider collected so far: a
/// header line appends to the name, a provider line replaces the provider.
pub open spec fn spec_ds_lines(lines: Seq<Seq<char>>, name: Seq<char>, provider: Seq<char>)
    -> Option<(Seq<char>, Seq<char>)>
    decreases lines.len(),
{
    if lines.len() == 0 {
        Some((name, provider))
    } else {
        let l = lines[0];
        let named = if spec_contains(l, "datasource"@) {
            match strip_pre(l, "datasource "@) {
                None => None,
                Some(t) => match strip_suf(t, " {"@) {
                    None => None,
                    Some(n) => Some(name + n),
                },
            }
        } else {
            Some(name)
        };
        match named {
            None => None,
            Some(name2) => {
                let provided = if spec_contains(l, "provider"@) {
                    let ps = spec_split(l, "="@);
                    if ps.len() < 2 {
                        None
                    } else {
                        Some(
                            spec_replace(
                                spec_replace(ps[1], "\""@, Seq::empty()),
                                " "@,
                                Seq::empty(),
                            ),
                        )
                    }
                } else {
                    Some(provider)
                };
                match provided {
                    None => None,
                    Some(provider2) => spec_ds_lines(lines.skip(1), name2, provider2),
                }
            },
        }
    }
}

/// The name and provider read out of a datasource block's text.
pub open spec fn spec_parse_datasource(s: Seq<char>) -> Option<(Seq<char>, Seq<char>)> {
    spec_ds_lines(spec_split(s, "\n"@), Seq::empty(), Seq::empty())
}

impl Datasource {
    /// The default datasource.
    pub fn new() -> (r: Datasource)
        ensures
            r.name@ == "db"@,
            r.provider@ == "mysql"@,
    {
        Datasource { name: String::from_str("db"), provider: String::from_str("mysql") }
    }

    /// The block rendered as text.
    pub fn as_text(&self) -> (r: String)
        ensures
            r@ == datasource_text(self@),
    {
        let mut r = String::new();
        r.append("datasource ");
        r.append(self.name.as_str());
        r.append(" {\n  provider = \"");
        r.append(self.provider.as_str());
        r.append("\"\n  url      = env(\"DATABASE_URL\")\n}");
        proof {
            assert(r@ =~= datasource_text(self@));
        }
        r
    }

    /// Reads the name and provider out of a datasource block. A header or
    /// provider line not shaped as expected rejects the block.
    pub fn parse_from_disk(datasource_string: &str) -> (r: Option<Datasource>)
        ensures
            match r {
                Some(d) => spec_parse_datasource(datasource_string@) == Some((d.name@, d.provider@)),
                None => spec_parse_datasource(datasource_string@) is None,
            },
    {
        proof {
            reveal_strlit("\n");
            reveal_strlit("=");
            reveal_strlit("");
        }
        let lines = split_str(datasource_string, "\n");
        let ghost linesv = seq_views(lines@);
        let mut name = String::new();
        let mut provider = String::new();
        let mut i: usize = 0;
        proof {
            assert(linesv.skip(0) =~= linesv);
        }
        while i < lines.len()
            invariant
                linesv == seq_views(lines@),
                0 <= i <= lines@.len(),
                spec_parse_datasource(datasource_string@) == spec_ds_lines(
                    linesv.skip(i as int),
                    name@,
                    provider@,
                ),
            decreases lines@.len() - i,
        {
            proof {
                assert(linesv.skip(i as int)[0] == linesv[i as int]);
                assert(linesv.skip(i as int).skip(1) =~= linesv.skip(i + 1));
                reveal_strlit("=");
                reveal_strlit("");
            }
            let line = &lines[i];
            if contains_str(line.as_str(), "datasource") {
                let t = match strip_prefix_str(line.as_str(), "datasource ") {
                    Some(t) => t,
                    None => {
                        return None;
                    },
                };
                let n = match strip_suffix_str(t.as_str(), " {") {
                    Some(n) => n,
                    None => {
                        return None;
                    },
                };
                name.append(n.as_str());
            }
            if contains_str(line.as_str(), "provider") {
                let ps = split_str(line.as_str(), "=");
                if ps.len() < 2 {
                    return None;
                }
                proof {
                    assert(seq_views(ps@)[1int] == ps@[1int]@);
                }
                provider = replace_str(
                    replace_str(ps[1].as_str(), "\"", "").as_str(),
                    " ",
                    "",
                );
                proof {
                    assert(""@ =~= Seq::<char>::empty());
                }
            }
            i += 1;
        }
        proof {
            assert(linesv.skip(linesv.len() as int) =~= Seq::<Seq<char>>::empty());
        }
        Some(Datasource { name, provider })
    }

    /// An exact copy of this block.
    pub fn duplicate(&self) -> (r: Datasource)
        ensures
            r@ == self@,
    {
        Datasource { name: clone_string(&self.name), provider: clone_string(&self.provider) }
    }
}

/// Two datasource blocks are equal when name and provider spell the same.
impl PartialEq for Datasource {
    fn eq(&self, other: &Self) -> (r: bool) {
        str_eq(self.name.as_str(), other.name.as_str()) && str_eq(
            self.provider.as_str(),
            other.provider.as_str(),
        )
    }
}

impl vstd::std_specs::cmp::PartialEqSpecImpl for Datasource {
    open spec fn obeys_eq_spec() -> bool {
        true
    }

    open spec fn eq_spec(&self, other: &Self) -> bool {
        self@ == other@
    }
}

} // verus!
