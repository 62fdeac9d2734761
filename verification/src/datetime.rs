//! Creation timestamps, carried as RFC 3339 text.

use vstd::prelude::*;

verus! {

/// Relies on `chrono::Local::now` and `chrono::DateTime::to_rfc3339` to
/// produce the current local time as RFC 3339 text.  The result depends on
/// the clock, so nothing is promised of it.
#[verifier::external_body]
fn now_rfc3339() -> String {
    chrono::Local::now().to_rfc3339()
}

/// A timestamp in RFC 3339 text form.
#[derive(Debug)]
pub struct DatetimeString(pub String);

impl View for DatetimeString {
    type V = Seq<char>;

    open spec fn view(&self) -> Seq<char> {
        self.0@
    }
}

impl Clone for DatetimeString {
    fn clone(&self) -> (r: Self)
        ensures
            r@ == self@,
    {
        DatetimeString(self.0.clone())
    }
}

impl DatetimeString {
    /// The current local time.  The text depends on the clock, so nothing is
    /// stated of it.
    pub fn get_now() -> Self {
        DatetimeString(now_rfc3339())
    }
}

} // verus!
