//! The tagged values held on the data stack: integers and text.

use vstd::prelude::*;

verus! {

/// Mathematical model of a stack value: an integer or a sequence of characters.
pub enum AbsData {
    Int(i32),
    Str(Seq<char>),
}

/// A value on the data stack: a whole number or a piece of text.
#[derive(Debug, Clone, PartialEq)]
pub enum Data {
    Int(i32),
    Str(String),
}

impl View for Data {
    type V = AbsData;

    open spec fn view(&self) -> AbsData {
        match self {
            Data::Int(i) => AbsData::Int(*i),
            Data::Str(s) => AbsData::Str(s@),
        }
    }
}

impl DeepView for Data {
    type V = AbsData;

    open spec fn deep_view(&self) -> AbsData {
        self.view()
    }
}

impl Data {
    /// The integer held by an `Int` value; `None` for text.
    pub fn as_int(&self) -> (r: Option<i32>)
        ensures
            match r {
                Some(x) => self@ == AbsData::Int(x),
                None => self@ is Str,
            },
    {
        match self {
            Data::Int(x) => Some(*x),
            _ => None,
        }
    }

    /// An exact copy of the value.
    pub fn duplicate(&self) -> (r: Data)
        ensures
            r == *self,
    {
        match self {
            Data::Int(x) => Data::Int(*x),
            Data::Str(s) => Data::Str(s.clone()),
        }
    }
}

} // verus!
