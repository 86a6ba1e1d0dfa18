//! Human-readable texts of errors.

use std::fmt::{Debug, Display};

use vstd::prelude::*;

pub mod laws;

verus! {

/// A value with a human-readable text.
///
/// Every type that implements [`Display`] has one, and so has every error of
/// this crate.
///
/// Its spec functions are left open here; verified code gives them a body of its own.
pub trait Message {
    /// Whether `text` is a text of `self`.
    open spec fn described_by(&self, text: Seq<char>) -> bool {
        arbitrary()
    }

    /// The text of `self`.
    fn message(&self) -> (text: String)
        ensures
            self.described_by(text@),
    ;
}

impl<T: Display> Message for T {
    open spec fn described_by(&self, text: Seq<char>) -> bool {
        exists|shown: String|
            #[trigger] vstd::string::to_string_from_display_ensures::<T>(self, shown) && shown@
                == text
    }

    fn message(&self) -> (text: String) {
        self.to_string()
    }
}

/// Whether `text` is `prefix` followed by a text of `cause`.
pub open spec fn prefixed<T: Message>(prefix: Seq<char>, cause: &T, text: Seq<char>) -> bool {
    exists|tail: Seq<char>| #[trigger] cause.described_by(tail) && text == prefix + tail
}

/// Puts `prefix` in front of the text of `cause`.
pub fn prefixed_message<T: Message>(prefix: &str, cause: &T) -> (text: String)
    ensures
        prefixed(prefix@, cause, text@),
{
    let mut text: String = prefix.to_owned();
    let tail: String = cause.message();
    text.append(tail.as_str());
    text
}

/// Whether `text` is one that `{:?}` gives for `value`.
pub closed spec fn shown_as<T: Debug + ?Sized>(value: &T, text: Seq<char>) -> bool {
    exists|shown: String| #[trigger] call_ensures(format_debug::<T>, (value,), shown) && shown@ == text
}

/// The text that `{:?}` gives for `value`.
pub fn debug_text<T: Debug + ?Sized>(value: &T) -> (text: String)
    ensures
        shown_as(value, text@),
{
    format_debug(value)
}

/// Calls `format!` with `{:?}`.
///
/// No clause speaks of the text: [`Debug`] promises none in particular.
#[verifier::external_body]
fn format_debug<T: Debug + ?Sized>(value: &T) -> (text: String) {
    format!("{:?}", value)
}

} // verus!
