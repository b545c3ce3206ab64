//! The generator block of a schema: its rendering and its parser.

use vstd::prelude::*;

use crate::text::{clone_string, replace_str, split_str, spec_replace, spec_split, str_eq};

verus! {

/// The mathematical shape of the generator block.
pub struct GeneratorV {
    pub name: Seq<char>,
    pub provider: Seq<char>,
}

/// The generator block of a schema.
#[derive(Debug)]
pub struct Generator {
    pub name: String,
    pub provider: String,
}

impl View for Generator {
    type V = GeneratorV;

    open spec fn view(&self) -> GeneratorV {
        GeneratorV { name: self.name@, provider: self.provider@ }
    }
}

/// The rendered generator block.
pub open spec fn generator_text(g: GeneratorV) -> Seq<char> {
    "generator "@ + g.name + " {\n  provider = \""@ + g.provider + "\"\n}"@
}

/// The provider read out of a generator block's text: the word after the
/// first ` = `, with quotes, newlines and a closing brace removed.
pub open spec fn spec_parse_generator(s: Seq<char>) -> Option<Seq<char>> {
    let pieces = spec_split(s, " = "@);
    if pieces.len() < 2 {
        None
    } else {
        let word = spec_split(pieces[1], " "@)[0];
        let binding = spec_replace(
            spec_replace(word, "\""@, Seq::empty()),
            "\n"@,
            Seq::empty(),
        );
        Some(spec_split(binding, "}"@)[0])
    }
}

impl Generator {
    /// The default generator.
    pub fn new() -> (r: Generator)
        ensures
            r.name@ == "client"@,
            r.provider@ == "prisma-client-js"@,
    {
        Generator { name: String::from_str("client"), provider: String::from_str("prisma-client-js") }
    }

    /// Reads the provider out of a generator block; the name is always the
    /// default. A block without a ` = ` assignment is rejected.
    pub fn parse_from_disk(generator_str: &str) -> (r: Option<Generator>)
        ensures
            match r {
                Some(g) => spec_parse_generator(generator_str@) == Some(g.provider@) && g.name@
                    == "client"@,
                None => spec_parse_generator(generator_str@) is None,
            },
    {
        proof {
            reveal_strlit(" = ");
            reveal_strlit(" ");
            reveal_strlit("}");
            reveal_strlit("");
        }
        let pieces = split_str(generator_str, " = ");
        if pieces.len() < 2 {
            return None;
        }
        let provider_pieces = split_str(pieces[1].as_str(), " ");
        let word = clone_string(&provider_pieces[0]);
        let binding = replace_str(replace_str(word.as_str(), "\"", "").as_str(), "\n", "");
        let provider_dirty = split_str(binding.as_str(), "}");
        let provider = clone_string(&provider_dirty[0]);
        proof {
            assert(""@ =~= Seq::<char>::empty());
            assert(crate::text::seq_views(pieces@)[1int] == pieces@[1int]@);
            assert(crate::text::seq_views(provider_pieces@)[0int] == provider_pieces@[0int]@);
            assert(crate::text::seq_views(provider_dirty@)[0int] == provider_dirty@[0int]@);
        }
        Some(Generator { name: String::from_str("client"), provider })
    }

    /// The block rendered as text.
    pub fn as_text(&self) -> (r: String)
        ensures
            r@ == generator_text(self@),
    {
        let mut r = String::new();
        r.append("generator ");
        r.append(self.name.as_str());
        r.append(" {\n  provider = \"");
        r.append(self.provider.as_str());
        r.append("\"\n}");
        proof {
            assert(r@ =~= generator_text(self@));
        }
        r
    }

    /// An exact copy of this block.
    pub fn duplicate(&self) -> (r: Generator)
        ensures
            r@ == self@,
    {
        Generator { name: clone_string(&self.name), provider: clone_string(&self.provider) }
    }
}

/// Two generator blocks are equal when name and provider spell the same.
impl PartialEq for Generator {
    fn eq(&self, other: &Self) -> (r: bool) {
        str_eq(self.name.as_str(), other.name.as_str()) && str_eq(
            self.provider.as_str(),
            other.provider.as_str(),
        )
    }
}

impl vstd::std_specs::cmp::PartialEqSpecImpl for Generator {
    open spec fn obeys_eq_spec() -> bool {
        true
    }

    open spec fn eq_spec(&self, other: &Self) -> bool {
        self@ == other@
    }
}

} // verus!
