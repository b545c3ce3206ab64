//! Shared configuration structures: the set of supported output formats and
//! the binding of one format to one output path.

use vstd::prelude::*;

verus! {

/// The output formats a database connection can be synchronised to.
#[derive(Clone, Copy, PartialEq, Eq, Structural, Debug)]
pub enum AcceptedFormat {
    Json,
    Prisma,
}

impl AcceptedFormat {
    /// Recognises the textual tag of a format; any other string is rejected.
    pub fn from_string(format: &str) -> (r: Option<AcceptedFormat>)
        ensures
            format@ == "json"@ ==> r == Some(AcceptedFormat::Json),
            format@ == "prisma"@ ==> r == Some(AcceptedFormat::Prisma),
            format@ != "json"@ && format@ != "prisma"@ ==> r is None,
    {
        proof {
            reveal_strlit("json");
            reveal_strlit("prisma");
            assert("json"@.len() != "prisma"@.len());
        }
        let jt = "json";
        let pt = "prisma";
        if crate::text::str_eq(format, jt) {
            Some(AcceptedFormat::Json)
        } else if crate::text::str_eq(format, pt) {
            Some(AcceptedFormat::Prisma)
        } else {
            None
        }
    }

    /// The textual tag of the format.
    pub fn as_string(&self) -> (r: &'static str)
        ensures
            *self == AcceptedFormat::Json ==> r@ == "json"@,
            *self == AcceptedFormat::Prisma ==> r@ == "prisma"@,
    {
        match self {
            AcceptedFormat::Json => "json",
            AcceptedFormat::Prisma => "prisma",
        }
    }

    /// Every supported format, in a fixed order.
    pub fn all_as_array() -> (r: Vec<AcceptedFormat>)
        ensures
            r@ == seq![AcceptedFormat::Json, AcceptedFormat::Prisma],
    {
        let mut v: Vec<AcceptedFormat> = Vec::new();
        v.push(AcceptedFormat::Json);
        v.push(AcceptedFormat::Prisma);
        proof {
            assert(v@ =~= seq![AcceptedFormat::Json, AcceptedFormat::Prisma]);
        }
        v
    }

    /// The tags of every supported format, as owned strings.
    pub fn all_as_string_array() -> (r: Vec<String>)
        ensures
            r@.len() == 2,
            r@[0]@ == "json"@,
            r@[1]@ == "prisma"@,
    {
        let mut v: Vec<String> = Vec::new();
        v.push(String::from_str("json"));
        v.push(String::from_str("prisma"));
        v
    }

    /// The tags of every supported format, as borrowed strings.
    pub fn all_as_str_array() -> (r: Vec<&'static str>)
        ensures
            r@.len() == 2,
            r@[0]@ == "json"@,
            r@[1]@ == "prisma"@,
    {
        let mut v: Vec<&'static str> = Vec::new();
        v.push("json");
        v.push("prisma");
        v
    }
}

/// Binds one output format to the path of the file that holds it.
#[derive(Clone, Debug)]
pub struct DiskMapping {
    pub format: AcceptedFormat,
    pub path: String,
}

/// Flags handed in from the command line by the process wrapper.
#[derive(Clone, Copy, Debug)]
pub struct CommandLineFlags {
    /// Testing mode is activated.
    pub test: bool,
}

} // verus!
