//! The `@unique` field attribute, with its optional constraint-map name.

use vstd::prelude::*;

use crate::text::{opt_view, is_space, spec_trim, spec_trim_end, spec_trim_start, strip_pre,
    strip_suf, strip_prefix_str, strip_suffix_str, trim_str, clone_opt_string};

verus! {

/// The `@unique` attribute of one field; `map` names the underlying
/// constraint when the attribute carries a `(map: "...")` argument.
#[derive(Debug)]
pub struct UniqueFlag {
    pub map: Option<String>,
}

/// The rendered attribute: `@unique`, with the map argument when present.
pub open spec fn unique_text(map: Option<Seq<char>>) -> Seq<char> {
    match map {
        Some(m) => "@unique"@ + "(map: \""@ + m + "\")"@,
        None => "@unique"@,
    }
}

/// The attribute text parsed back into its optional map name: the outer
/// `Option` is `None` when the text is not a `@unique` attribute at all.
pub open spec fn spec_parse_unique(s: Seq<char>) -> Option<Option<Seq<char>>> {
    let t0 = if "@"@.is_prefix_of(s) {
        s.skip("@"@.len() as int)
    } else {
        s
    };
    match strip_pre(t0, "unique"@) {
        None => None,
        Some(t1) => {
            let t2 = spec_trim(t1);
            if t2.len() == 0 {
                Some(None)
            } else {
                match strip_pre(t2, "("@) {
                    None => None,
                    Some(t3) => match strip_suf(t3, ")"@) {
                        None => None,
                        Some(t4) => match strip_pre(t4, "map: \""@) {
                            None => None,
                            Some(t5) => match strip_suf(t5, "\""@) {
                                None => None,
                                Some(t6) => Some(Some(t6)),
                            },
                        },
                    },
                }
            }
        },
    }
}

impl UniqueFlag {
    /// An exact copy of this flag.
    pub fn duplicate(&self) -> (r: UniqueFlag)
        ensures
            opt_view(r.map) == opt_view(self.map),
    {
        UniqueFlag { map: clone_opt_string(&self.map) }
    }

    /// The attribute rendered as text.
    pub fn as_text(&self) -> (r: String)
        ensures
            r@ == unique_text(opt_view(self.map)),
    {
        let mut r = String::new();
        r.append("@unique");
        if let Some(m) = &self.map {
            r.append("(map: \"");
            r.append(m.as_str());
            r.append("\")");
        }
        r
    }

    /// Reads a `@unique` attribute, bare or with a map argument. Anything
    /// else comes back as `None` and the surrounding field is dropped.
    pub fn from_string(string: &str) -> (r: Option<UniqueFlag>)
        ensures
            match r {
                Some(u) => spec_parse_unique(string@) == Some(opt_view(u.map)),
                None => spec_parse_unique(string@) is None,
            },
    {
        let t0 = match strip_prefix_str(string, "@") {
            Some(t) => t,
            None => string.to_owned(),
        };
        let t1 = match strip_prefix_str(t0.as_str(), "unique") {
            Some(t) => t,
            None => {
                return None;
            },
        };
        let t2 = trim_str(t1.as_str());
        if t2.as_str().unicode_len() == 0 {
            return Some(UniqueFlag { map: None });
        }
        let t3 = match strip_prefix_str(t2.as_str(), "(") {
            Some(t) => t,
            None => {
                return None;
            },
        };
        let t4 = match strip_suffix_str(t3.as_str(), ")") {
            Some(t) => t,
            None => {
                return None;
            },
        };
        let t5 = match strip_prefix_str(t4.as_str(), "map: \"") {
            Some(t) => t,
            None => {
                return None;
            },
        };
        let t6 = match strip_suffix_str(t5.as_str(), "\"") {
            Some(t) => t,
            None => {
                return None;
            },
        };
        Some(UniqueFlag { map: Some(t6) })
    }
}

/// Two flags are equal when their map names spell the same.
impl PartialEq for UniqueFlag {
    fn eq(&self, other: &Self) -> (r: bool) {
        crate::text::opt_str_eq(&self.map, &other.map)
    }
}

impl vstd::std_specs::cmp::PartialEqSpecImpl for UniqueFlag {
    open spec fn obeys_eq_spec() -> bool {
        true
    }

    open spec fn eq_spec(&self, other: &Self) -> bool {
        opt_view(self.map) == opt_view(other.map)
    }
}

/// A rendered `@unique` attribute, bare or with a map name, parses back to
/// exactly the map value it rendered: on this attribute the parser is the
/// serializer's inverse, for every map value.
pub proof fn lemma_unique_round_trip(m: Option<Seq<char>>)
    ensures
        spec_parse_unique(unique_text(m)) == Some(m),
{
    reveal_strlit("@");
    reveal_strlit("unique");
    reveal_strlit("@unique");
    reveal_strlit("(map: \"");
    reveal_strlit("\")");
    reveal_strlit("map: \"");
    reveal_strlit("(");
    reveal_strlit(")");
    reveal_strlit("\"");
    match m {
        None => {
            let s = unique_text(m);
            assert(s.subrange(0, 1) =~= "@"@);
            assert("@"@.is_prefix_of(s));
            let t0 = s.skip(1);
            assert(t0 =~= "unique"@);
            assert(t0.subrange(0, 6) =~= "unique"@);
            assert("unique"@.is_prefix_of(t0));
            let t1 = t0.skip(6);
            assert(t1 =~= Seq::<char>::empty());
            assert(spec_trim(t1).len() == 0);
        },
        Some(mm) => {
            let s = unique_text(m);
            assert(s =~= "@unique"@ + "(map: \""@ + mm + "\")"@);
            assert(s.subrange(0, 1) =~= "@"@);
            assert("@"@.is_prefix_of(s));
            let t0 = s.skip(1);
            assert(t0 =~= "unique"@ + "(map: \""@ + mm + "\")"@);
            assert(t0.subrange(0, 6) =~= "unique"@);
            assert("unique"@.is_prefix_of(t0));
            let t1 = t0.skip(6);
            assert(t1 =~= "(map: \""@ + mm + "\")"@);
            assert(t1[0] == '(');
            assert(!is_space(t1[0]));
            assert(t1[t1.len() - 1] == ')');
            assert(!is_space(t1[t1.len() - 1]));
            assert(spec_trim_start(t1) == t1);
            assert(spec_trim_end(t1) == t1);
            let t2 = spec_trim(t1);
            assert(t2 == t1);
            assert(t2.len() > 0);
            assert(t2.subrange(0, 1) =~= "("@);
            assert("("@.is_prefix_of(t2));
            let t3 = t2.skip(1);
            assert(t3 =~= "map: \""@ + mm + "\""@ + ")"@);
            assert(t3.subrange(t3.len() - 1, t3.len() as int) =~= ")"@);
            assert(t3.skip(t3.len() - 1) =~= ")"@);
            assert(")"@.is_suffix_of(t3));
            let t4 = t3.take(t3.len() - 1);
            assert(t4 =~= "map: \""@ + mm + "\""@);
            assert(t4.subrange(0, 6) =~= "map: \""@);
            assert("map: \""@.is_prefix_of(t4));
            let t5 = t4.skip(6);
            assert(t5 =~= mm + "\""@);
            assert(t5.skip(t5.len() - 1) =~= "\""@);
            assert("\""@.is_suffix_of(t5));
            let t6 = t5.take(t5.len() - 1);
            assert(t6 =~= mm);
            assert(spec_parse_unique(s) == Some(Some(t6)));
        },
    }
}

} // verus!
