//! Types of the IPFS adapter's API.
use vstd::prelude::*;

verus! {

/// Encodings an entry of the IPLD DAG can be requested in.
#[derive(Clone, Copy, Debug, PartialEq, Eq, Structural)]
pub enum Format {
    DagJson,
}

/// Options for how to conduct a query.
#[derive(Clone, Copy, Debug, PartialEq, Eq, Structural)]
pub struct Options {
    pub format: Option<Format>,
}

/// The query string the options add to a gateway URL.
pub open spec fn query_spec(o: Options) -> Seq<char> {
    match o.format {
        Some(Format::DagJson) => "?format=dag-json"@,
        None => Seq::empty(),
    }
}

impl Options {
    /// The query string to append to the gateway URL of an entry.
    pub fn query(&self) -> (r: &'static str)
        ensures
            r@ == query_spec(*self),
    {
        match self.format {
            Some(Format::DagJson) => "?format=dag-json",
            None => {
                proof {
                    reveal_strlit("");
                }
                ""
            },
        }
    }
}

} // verus!
