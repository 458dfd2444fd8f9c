use vstd::prelude::*;

verus! {

/// A name: of a function, of a variable, or of a keyword.
#[derive(Debug, PartialEq, Eq, Hash, PartialOrd, Ord)]
pub struct Symbol(pub String);

impl View for Symbol {
    type V = Seq<char>;

    open spec fn view(&self) -> Seq<char> {
        self.0@
    }
}

impl Clone for Symbol {
    fn clone(&self) -> (r: Self)
        ensures
            r == *self,
    {
        Symbol(self.0.clone())
    }
}

impl Symbol {
    /// The symbol with the name `s`.
    pub fn from(s: &str) -> (r: Self)
        ensures
            r@ == s@,
    {
        Self(s.to_owned())
    }

    /// The name as it is written.
    pub fn to_string(&self) -> (r: String)
        ensures
            r@ == self@,
    {
        self.0.clone()
    }
}

} // verus!
