use vstd::prelude::*;

verus! {

/// The record type asked for in a question.
#[derive(Debug, Clone, Copy, PartialEq, Eq, Structural)]
pub enum QueryType {
    /// A type code that this library has no name for.
    Unknown(u16),
    /// A host address (type code 1).
    A,
}

/// The query type that a type code stands for.
pub open spec fn query_type_of(num: u16) -> QueryType {
    if num == 1 {
        QueryType::A
    } else {
        QueryType::Unknown(num)
    }
}

impl QueryType {
    /// The query type that the type code `num` stands for.
    pub fn from_num(num: u16) -> (r: QueryType)
        ensures
            r == query_type_of(num),
    {
        match num {
            1 => QueryType::A,
            _ => QueryType::Unknown(num),
        }
    }
}

} // verus!
