use vstd::prelude::*;

verus! {

/// A notice that something failed, with the reason.
#[derive(Debug)]
pub struct FailedNotification {
    pub title: String,
    pub reason: String,
}

impl FailedNotification {
    pub fn new(title: &str, reason: &str) -> (r: FailedNotification)
        ensures
            r.title@ == title@,
            r.reason@ == reason@,
    {
        FailedNotification { title: crate::text::owned(title), reason: crate::text::owned(reason) }
    }

    /// The title shown: a warning sign, a space and the title.
    pub fn get_title(&self) -> (r: String)
        ensures
            r@ == "\u{26a0} "@ + self.title@,
    {
        crate::text::concat("\u{26a0} ", self.title.as_str())
    }

    /// The text shown under the title: the reason.
    pub fn get_desc(&self) -> (r: String)
        ensures
            r@ == self.reason@,
    {
        self.reason.clone()
    }

    /// The button shown: none.
    pub fn button(&self) -> (r: Option<String>)
        ensures
            r is None,
    {
        None
    }
}

/// A notice that something succeeded, with a message.
#[derive(Debug)]
pub struct SuccessNotification {
    pub title: String,
    pub message: String,
}

impl SuccessNotification {
    pub fn new(title: &str, message: &str) -> (r: SuccessNotification)
        ensures
            r.title@ == title@,
            r.message@ == message@,
    {
        SuccessNotification { title: crate::text::owned(title), message: crate::text::owned(message) }
    }

    /// The title shown: a check mark, a space and the title.
    pub fn get_title(&self) -> (r: String)
        ensures
            r@ == "\u{2714} "@ + self.title@,
    {
        crate::text::concat("\u{2714} ", self.title.as_str())
    }

    /// The text shown under the title: the message.
    pub fn get_desc(&self) -> (r: String)
        ensures
            r@ == self.message@,
    {
        self.message.clone()
    }

    /// The button shown: none.
    pub fn button(&self) -> (r: Option<String>)
        ensures
            r is None,
    {
        None
    }
}

} // verus!
