//! The context: what a validation is given from outside.

use crate::error::Error;
use crate::value::Value;
use vstd::prelude::*;

verus! {

/// The text formats whose grammar is not this library's business.
#[derive(Debug, Clone, Copy)]
pub enum Format {
    Email,
    Url,
    Ip,
    CreditCard,
    PhoneNumber,
}

/// A read-only object that is handed down to every rule of one validation.
///
/// It holds what the rules cannot decide by themselves: the matchers of the
/// pattern rules, each under the number of the place where its rule is
/// declared, the validators of the text formats, and the custom
/// predicates. An answer depends on the context and on what is asked, and
/// on nothing else: asking twice gives the same answer.
pub trait Context {
    /// Whether the matcher declared at `site` accepts `text`.
    spec fn pattern_accepts(&self, site: usize, text: Seq<char>) -> bool;

    /// Whether `text` is written in `format`.
    spec fn format_accepts(&self, format: Format, text: Seq<char>) -> bool;

    /// What the custom predicate declared at `site` says of `value`:
    /// nothing if it holds, else the message of its failure.
    spec fn custom_verdict(&self, site: usize, value: Value) -> Option<Seq<char>>;

    /// Runs the matcher declared at `site` on `text`.
    fn is_match(&self, site: usize, text: &str) -> (accepted: bool)
        ensures
            accepted == self.pattern_accepts(site, text@),
    ;

    /// Runs the validator of `format` on `text`.
    fn is_valid(&self, format: Format, text: &str) -> (accepted: bool)
        ensures
            accepted == self.format_accepts(format, text@),
    ;

    /// Runs the custom predicate declared at `site` on `value`.
    fn custom(&self, site: usize, value: &Value) -> (outcome: Result<(), Error>)
        ensures
            match outcome {
                Ok(_) => self.custom_verdict(site, *value) is None,
                Err(error) => self.custom_verdict(site, *value) == Some(error@),
            },
    ;
}

/// The empty context knows no matcher, no validator and no predicate:
/// every rule that asks for one fails.
impl Context for () {
    open spec fn pattern_accepts(&self, site: usize, text: Seq<char>) -> bool {
        false
    }

    open spec fn format_accepts(&self, format: Format, text: Seq<char>) -> bool {
        false
    }

    open spec fn custom_verdict(&self, site: usize, value: Value) -> Option<Seq<char>> {
        Some("no such predicate"@)
    }

    fn is_match(&self, site: usize, text: &str) -> (accepted: bool) {
        false
    }

    fn is_valid(&self, format: Format, text: &str) -> (accepted: bool) {
        false
    }

    fn custom(&self, site: usize, value: &Value) -> (outcome: Result<(), Error>) {
        Err(Error::new("no such predicate"))
    }
}

} // verus!
