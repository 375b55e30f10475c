//! The rules: what can be asked of one value.
//!
//! Each rule is a function of the part of a value that it reads and of its
//! own parameters. It answers `Ok` when the value passes, and else the
//! error to report.

use crate::context::Format;
use crate::error::Error;
use crate::text::chars_of;
use vstd::prelude::*;
use vstd::string::StringExecFns;
use vstd::utf8::is_ascii_chars;

verus! {

/// Whether a character is a letter or a digit, in any script.
pub uninterp spec fn is_alphanumeric_char(c: char) -> bool;

/// `char::is_alphanumeric`: whether the character is alphabetic or numeric
/// by its Unicode properties.
pub assume_specification[ char::is_alphanumeric ](c: char) -> (yes: bool)
    ensures
        yes == is_alphanumeric_char(c),
;

/// Whether every character of `text` is a letter or a digit.
pub open spec fn is_alphanumeric_text(text: Seq<char>) -> bool {
    forall|i: int| 0 <= i < text.len() ==> is_alphanumeric_char(#[trigger] text[i])
}

/// Whether `needle` stands in `hay` at position `at`.
pub open spec fn occurs_at(hay: Seq<char>, needle: Seq<char>, at: int) -> bool {
    &&& 0 <= at
    &&& at + needle.len() <= hay.len()
    &&& hay.subrange(at, at + needle.len()) == needle
}

/// Whether `hay` begins with `needle`.
pub open spec fn has_prefix(hay: Seq<char>, needle: Seq<char>) -> bool {
    occurs_at(hay, needle, 0)
}

/// Whether `hay` ends with `needle`.
pub open spec fn has_suffix(hay: Seq<char>, needle: Seq<char>) -> bool {
    occurs_at(hay, needle, hay.len() - needle.len())
}

/// Whether `needle` stands somewhere in `hay`.
pub open spec fn has_substring(hay: Seq<char>, needle: Seq<char>) -> bool {
    exists|at: int| occurs_at(hay, needle, at)
}

/// A message that names a literal pattern: `lead`, then the pattern between
/// double quotes.
pub open spec fn quoting(lead: Seq<char>, pattern: Seq<char>) -> Seq<char> {
    lead + seq!['"'] + pattern + seq!['"']
}

/// Inclusive bounds on a count. Either may be left out; a rule is not to be
/// declared with both left out.
#[derive(Debug, Clone, Copy)]
pub struct Bounds {
    pub min: Option<usize>,
    pub max: Option<usize>,
}

impl Bounds {
    /// Whether at least one bound is given.
    pub open spec fn is_set(self) -> bool {
        self.min is Some || self.max is Some
    }

    /// Whether `count` lies within the bounds.
    pub open spec fn admits(self, count: nat) -> bool {
        &&& self.min matches Some(min) ==> min <= count
        &&& self.max matches Some(max) ==> count <= max
    }

    /// Tests whether `count` lies within the bounds.
    pub fn holds(&self, count: usize) -> (within: bool)
        ensures
            within == self.admits(count as nat),
    {
        let above = match self.min {
            Some(min) => min <= count,
            None => true,
        };
        let below = match self.max {
            Some(max) => count <= max,
            None => true,
        };
        above && below
    }

    /// Tests whether at least one bound is given.
    pub fn has_bound(&self) -> (set: bool)
        ensures
            set == self.is_set(),
    {
        self.min.is_some() || self.max.is_some()
    }
}

/// Inclusive bounds on a whole number. Either may be left out; a rule is not
/// to be declared with both left out.
#[derive(Debug, Clone, Copy)]
pub struct Range {
    pub min: Option<i128>,
    pub max: Option<i128>,
}

impl Range {
    /// Whether at least one bound is given.
    pub open spec fn is_set(self) -> bool {
        self.min is Some || self.max is Some
    }

    /// Whether `number` lies within the bounds.
    pub open spec fn admits(self, number: int) -> bool {
        &&& self.min matches Some(min) ==> min <= number
        &&& self.max matches Some(max) ==> number <= max
    }

    /// Tests whether `number` lies within the bounds.
    pub fn holds(&self, number: i128) -> (within: bool)
        ensures
            within == self.admits(number as int),
    {
        let above = match self.min {
            Some(min) => min <= number,
            None => true,
        };
        let below = match self.max {
            Some(max) => number <= max,
            None => true,
        };
        above && below
    }

    /// Tests whether at least one bound is given.
    pub fn has_bound(&self) -> (set: bool)
        ensures
            set == self.is_set(),
    {
        self.min.is_some() || self.max.is_some()
    }
}

/// `Ok` if `passed`, else an error that says `message`.
pub fn verdict(passed: bool, message: &str) -> (outcome: Result<(), Error>)
    ensures
        outcome is Ok <==> passed,
        outcome matches Err(error) ==> error@ == message@,
{
    if passed {
        Ok(())
    } else {
        Err(Error::new(message))
    }
}

/// Passes when the value is set.
pub fn required(present: bool) -> (outcome: Result<(), Error>)
    ensures
        outcome is Ok <==> present,
        outcome matches Err(error) ==> error@ == "value is required"@,
{
    verdict(present, "value is required")
}

/// Passes when every character of `text` is an ASCII character.
pub fn ascii(text: &str) -> (outcome: Result<(), Error>)
    ensures
        outcome is Ok <==> is_ascii_chars(text@),
        outcome matches Err(error) ==> error@ == "not ascii"@,
{
    verdict(text.is_ascii(), "not ascii")
}

/// Passes when every character of `text` is a letter or a digit.
pub fn alphanumeric(text: &str) -> (outcome: Result<(), Error>)
    ensures
        outcome is Ok <==> is_alphanumeric_text(text@),
        outcome matches Err(error) ==> error@ == "not alphanumeric"@,
{
    let chars = chars_of(text);
    let mut i: usize = 0;
    while i < chars.len()
        invariant
            i <= chars.len(),
            chars@ == text@,
            forall|k: int| 0 <= k < i ==> is_alphanumeric_char(#[trigger] text@[k]),
        decreases chars.len() - i,
    {
        if !chars[i].is_alphanumeric() {
            return verdict(false, "not alphanumeric");
        }
        i += 1;
    }
    Ok(())
}

/// Passes when `count`, a length in units, lies within `bounds`.
pub fn length(count: usize, bounds: &Bounds) -> (outcome: Result<(), Error>)
    ensures
        outcome is Ok <==> bounds.admits(count as nat),
        outcome matches Err(error) ==> error@ == "length out of bounds"@,
{
    verdict(bounds.holds(count), "length out of bounds")
}

/// Passes when `count`, a length in bytes, lies within `bounds`.
pub fn byte_length(count: usize, bounds: &Bounds) -> (outcome: Result<(), Error>)
    ensures
        outcome is Ok <==> bounds.admits(count as nat),
        outcome matches Err(error) ==> error@ == "byte length out of bounds"@,
{
    verdict(bounds.holds(count), "byte length out of bounds")
}

/// Passes when `number` lies within `bounds`.
pub fn range(number: i128, bounds: &Range) -> (outcome: Result<(), Error>)
    ensures
        outcome is Ok <==> bounds.admits(number as int),
        outcome matches Err(error) ==> error@ == "value out of bounds"@,
{
    verdict(bounds.holds(number), "value out of bounds")
}

/// An error whose message is `lead`, then `pattern` between double quotes.
pub fn quoted_error(lead: &str, pattern: &str) -> (error: Error)
    ensures
        error@ == quoting(lead@, pattern@),
{
    proof {
        reveal_strlit("\"");
    }
    let mut message = String::from_str(lead);
    message.append("\"");
    message.append(pattern);
    message.append("\"");
    assert("\""@ =~= seq!['"']);
    assert(message@ =~= quoting(lead@, pattern@));
    Error::new(message.as_str())
}

/// Tests whether `needle` stands in `hay` at position `at`.
fn found_at(hay: &Vec<char>, needle: &Vec<char>, at: usize) -> (found: bool)
    requires
        at + needle.len() <= hay.len(),
    ensures
        found == occurs_at(hay@, needle@, at as int),
{
    let mut k: usize = 0;
    while k < needle.len()
        invariant
            k <= needle.len(),
            at + needle.len() <= hay.len(),
            forall|j: int| 0 <= j < k ==> hay@[at + j] == needle@[j],
        decreases needle.len() - k,
    {
        if hay[at + k] != needle[k] {
            assert(hay@.subrange(at as int, at + needle.len())[k as int] == hay@[at + k]);
            return false;
        }
        k += 1;
    }
    assert(hay@.subrange(at as int, at + needle.len()) =~= needle@);
    true
}

/// Passes when `text` begins with `pattern`, taken literally.
pub fn prefix(text: &str, pattern: &str) -> (outcome: Result<(), Error>)
    ensures
        outcome is Ok <==> has_prefix(text@, pattern@),
        outcome matches Err(error) ==> error@ == quoting("does not begin with "@, pattern@),
{
    let hay = chars_of(text);
    let needle = chars_of(pattern);
    if needle.len() <= hay.len() && found_at(&hay, &needle, 0) {
        Ok(())
    } else {
        Err(quoted_error("does not begin with ", pattern))
    }
}

/// Passes when `text` ends with `pattern`, taken literally.
pub fn suffix(text: &str, pattern: &str) -> (outcome: Result<(), Error>)
    ensures
        outcome is Ok <==> has_suffix(text@, pattern@),
        outcome matches Err(error) ==> error@ == quoting("does not end with "@, pattern@),
{
    let hay = chars_of(text);
    let needle = chars_of(pattern);
    if needle.len() <= hay.len() && found_at(&hay, &needle, hay.len() - needle.len()) {
        Ok(())
    } else {
        Err(quoted_error("does not end with ", pattern))
    }
}

/// Passes when `pattern`, taken literally, stands somewhere in `text`.
pub fn contains(text: &str, pattern: &str) -> (outcome: Result<(), Error>)
    ensures
        outcome is Ok <==> has_substring(text@, pattern@),
        outcome matches Err(error) ==> error@ == quoting("does not contain "@, pattern@),
{
    let hay = chars_of(text);
    let needle = chars_of(pattern);
    if needle.len() > hay.len() {
        return Err(quoted_error("does not contain ", pattern));
    }
    let last = hay.len() - needle.len();
    let mut at: usize = 0;
    while at < last
        invariant
            at <= last,
            last == hay.len() - needle.len(),
            needle.len() <= hay.len(),
            hay@ == text@,
            needle@ == pattern@,
            forall|j: int| 0 <= j < at ==> !occurs_at(hay@, needle@, j),
        decreases last - at,
    {
        if found_at(&hay, &needle, at) {
            return Ok(());
        }
        at += 1;
    }
    if found_at(&hay, &needle, last) {
        Ok(())
    } else {
        Err(quoted_error("does not contain ", pattern))
    }
}

/// Passes when the matcher accepted the text.
pub fn pattern(accepted: bool) -> (outcome: Result<(), Error>)
    ensures
        outcome is Ok <==> accepted,
        outcome matches Err(error) ==> error@ == "does not match pattern"@,
{
    verdict(accepted, "does not match pattern")
}

/// What is said of a text that is not written in `format`.
pub open spec fn format_message(format: Format) -> Seq<char> {
    match format {
        Format::Email => "not a valid email"@,
        Format::Url => "not a valid url"@,
        Format::Ip => "not a valid IP address"@,
        Format::CreditCard => "not a valid credit card number"@,
        Format::PhoneNumber => "not a valid phone number"@,
    }
}

/// Passes when the validator of the format `kind` accepted the text.
pub fn format(kind: Format, accepted: bool) -> (outcome: Result<(), Error>)
    ensures
        outcome is Ok <==> accepted,
        outcome matches Err(error) ==> error@ == format_message(kind),
{
    match kind {
        Format::Email => verdict(accepted, "not a valid email"),
        Format::Url => verdict(accepted, "not a valid url"),
        Format::Ip => verdict(accepted, "not a valid IP address"),
        Format::CreditCard => verdict(accepted, "not a valid credit card number"),
        Format::PhoneNumber => verdict(accepted, "not a valid phone number"),
    }
}

} // verus!
