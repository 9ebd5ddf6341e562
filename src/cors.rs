use vstd::prelude::*;

verus! {

/// The response fairing that lets any origin read the server's responses: it
/// sets one header on every response.
pub struct CORS;

impl CORS {
    /// The fairing's name as the server lists it.
    pub fn name(&self) -> (r: &'static str)
        ensures
            r@ == "Attaching CORS headers to responses"@,
    {
        "Attaching CORS headers to responses"
    }

    /// The header set on every response, as name and value: any origin is allowed.
    pub fn header(&self) -> (r: (&'static str, &'static str))
        ensures
            r.0@ == "Access-Control-Allow-Origin"@,
            r.1@ == "*"@,
    {
        ("Access-Control-Allow-Origin", "*")
    }
}

} // verus!
