use vstd::prelude::*;

verus! {

/// Immutable text shared between values.
#[derive(Debug)]
pub struct StringObject {
    pub value: String,
}

impl StringObject {
    pub fn new(str: &str) -> (r: StringObject)
        ensures
            r.value@ == str@,
    {
        StringObject { value: String::from_str(str) }
    }

    pub fn from_owned(str: String) -> (r: StringObject)
        ensures
            r.value@ == str@,
    {
        StringObject { value: str }
    }
}

} // verus!
