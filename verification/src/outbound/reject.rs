use vstd::prelude::*;

verus! {

/// An outbound that refuses every connection.
pub struct RejectOutbound {
    pub tag: String,
}

impl RejectOutbound {
    pub fn new(tag: String) -> (r: Self)
        ensures
            r.tag == tag,
    {
        RejectOutbound { tag }
    }

    pub fn tag(&self) -> (r: &str)
        ensures
            r@ == self.tag@,
    {
        self.tag.as_str()
    }
}

/// An outbound that accepts every connection and discards its data.
pub struct BlackholeOutbound {
    pub tag: String,
}

impl BlackholeOutbound {
    pub fn new(tag: String) -> (r: Self)
        ensures
            r.tag == tag,
    {
        BlackholeOutbound { tag }
    }

    pub fn tag(&self) -> (r: &str)
        ensures
            r@ == self.tag@,
    {
        self.tag.as_str()
    }
}

} // verus!
