//! The errors a DSL parse can end in.

use vstd::prelude::*;

verus! {

/// Why a DSL parse was aborted as a whole.
#[derive(Clone, Copy, PartialEq, Eq, Structural, Debug)]
pub enum ParseError {
    /// A relation attribute held a piece that matches no known key.
    UnknownRelationKey,
    /// A relation attribute was not shaped `@relation(...)` or a known key's
    /// value was not shaped as that key demands.
    MalformedRelation,
    /// The generator block held no `name = value` assignment.
    MalformedGenerator,
    /// The datasource block's header line was not shaped `datasource <name> {`.
    MalformedDatasource,
}

/// The description each error carries.
pub open spec fn parse_error_text(e: ParseError) -> Seq<char> {
    match e {
        ParseError::UnknownRelationKey => "unhandled relation piece"@,
        ParseError::MalformedRelation => "malformed relation attribute"@,
        ParseError::MalformedGenerator => "malformed generator block"@,
        ParseError::MalformedDatasource => "malformed datasource block"@,
    }
}

impl ParseError {
    /// A short description of the error.
    pub fn as_string(&self) -> (r: String)
        ensures
            r@ == parse_error_text(*self),
    {
        match self {
            ParseError::UnknownRelationKey => String::from_str("unhandled relation piece"),
            ParseError::MalformedRelation => String::from_str("malformed relation attribute"),
            ParseError::MalformedGenerator => String::from_str("malformed generator block"),
            ParseError::MalformedDatasource => String::from_str("malformed datasource block"),
        }
    }
}

} // verus!
