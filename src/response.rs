use vstd::prelude::*;

verus! {

/// A reply of the service: a status code, a message and a value.
pub struct Response {
    status: u16,
    message: String,
    value: String,
}

impl Response {
    pub closed spec fn status(&self) -> u16 {
        self.status
    }

    pub closed spec fn message(&self) -> Seq<char> {
        self.message@
    }

    pub closed spec fn value(&self) -> Seq<char> {
        self.value@
    }

    /// A reply with the status `status` whose message and value both carry
    /// `message`; the `value` argument is not read.
    pub fn new(status: u16, message: &str, value: &str) -> (r: Response)
        ensures
            r.status() == status,
            r.message() == message@,
            r.value() == message@,
    {
        Response { status, message: message.to_owned(), value: message.to_owned() }
    }

    pub fn get_status(&self) -> (r: u16)
        ensures
            r == self.status(),
    {
        self.status
    }

    pub fn get_message(&self) -> (r: &str)
        ensures
            r@ == self.message(),
    {
        self.message.as_str()
    }

    pub fn get_value(&self) -> (r: &str)
        ensures
            r@ == self.value(),
    {
        self.value.as_str()
    }
}

} // verus!
