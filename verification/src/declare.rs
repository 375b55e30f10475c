//! Declarations: what is to be checked, written down once for each kind of
//! value.
//!
//! A declaration says, for each field in a fixed order, its name, whether it
//! may be absent, which rules run on it and in what order, and whether
//! validation goes on inside it. A declaration can be faulty in itself,
//! whatever the value: [`Shape::check`] finds that out before any value is
//! looked at.

use crate::context::{Context, Format};
use crate::error::Error;
use crate::rules::{
    alphanumeric, ascii, byte_length, contains, format_message, has_prefix, has_substring,
    has_suffix, is_alphanumeric_text, length, pattern, prefix, quoted_error, quoting, range, suffix,
    verdict,
    Bounds, Range,
};
use crate::value::Value;
use vstd::prelude::*;
use vstd::string::StringExecFns;
use vstd::utf8::is_ascii_chars;

verus! {

/// One rule with its parameters.
#[derive(Debug)]
pub enum Rule {
    /// Every character is an ASCII character.
    Ascii,
    /// Every character is a letter or a digit.
    Alphanumeric,
    /// The length in units lies within the bounds.
    Length(Bounds),
    /// The length in bytes lies within the bounds.
    ByteLength(Bounds),
    /// The number lies within the bounds.
    Range(Range),
    /// The text holds the literal pattern somewhere.
    Contains(String),
    /// The text begins with the literal pattern.
    Prefix(String),
    /// The text ends with the literal pattern.
    Suffix(String),
    /// The matcher that the context keeps for this place accepts the text.
    Pattern(usize),
    /// The text is written in the format.
    Format(Format),
    /// The custom predicate that the context keeps for this place holds.
    Custom(usize),
}

/// Nothing if `passed`, else `message`.
pub open spec fn failing(passed: bool, message: Seq<char>) -> Option<Seq<char>> {
    if passed {
        None
    } else {
        Some(message)
    }
}

impl Rule {
    /// What the rule says of `value`: nothing if the value passes, else the
    /// message of the failure. A value that lacks what the rule reads does
    /// not pass.
    pub open spec fn verdict<C: Context>(self, value: Value, ctx: &C) -> Option<Seq<char>> {
        match self {
            Rule::Ascii => failing(
                value.text() matches Some(text) && is_ascii_chars(text),
                "not ascii"@,
            ),
            Rule::Alphanumeric => failing(
                value.text() matches Some(text) && is_alphanumeric_text(text),
                "not alphanumeric"@,
            ),
            Rule::Length(bounds) => failing(
                value.length() matches Some(count) && bounds.admits(count),
                "length out of bounds"@,
            ),
            Rule::ByteLength(bounds) => failing(
                value.byte_length() matches Some(count) && bounds.admits(count),
                "byte length out of bounds"@,
            ),
            Rule::Range(bounds) => failing(
                value.magnitude() matches Some(number) && bounds.admits(number),
                "value out of bounds"@,
            ),
            Rule::Contains(needle) => failing(
                value.text() matches Some(text) && has_substring(text, needle@),
                quoting("does not contain "@, needle@),
            ),
            Rule::Prefix(needle) => failing(
                value.text() matches Some(text) && has_prefix(text, needle@),
                quoting("does not begin with "@, needle@),
            ),
            Rule::Suffix(needle) => failing(
                value.text() matches Some(text) && has_suffix(text, needle@),
                quoting("does not end with "@, needle@),
            ),
            Rule::Pattern(site) => failing(
                value.text() matches Some(text) && ctx.pattern_accepts(site, text),
                "does not match pattern"@,
            ),
            Rule::Format(kind) => failing(
                value.text() matches Some(text) && ctx.format_accepts(kind, text),
                format_message(kind),
            ),
            Rule::Custom(site) => ctx.custom_verdict(site, value),
        }
    }

    /// Whether the rule is declared with what it needs: a rule with bounds
    /// has at least one of them.
    pub open spec fn is_set(self) -> bool {
        match self {
            Rule::Length(bounds) => bounds.is_set(),
            Rule::ByteLength(bounds) => bounds.is_set(),
            Rule::Range(bounds) => bounds.is_set(),
            _ => true,
        }
    }

    /// Runs the rule on `value`.
    pub fn apply<C: Context>(&self, value: &Value, ctx: &C) -> (outcome: Result<(), Error>)
        ensures
            match outcome {
                Ok(_) => self.verdict(*value, ctx) is None,
                Err(error) => self.verdict(*value, ctx) == Some(error@),
            },
    {
        match self {
            Rule::Ascii => match value.as_text() {
                Some(text) => ascii(text),
                None => verdict(false, "not ascii"),
            },
            Rule::Alphanumeric => match value.as_text() {
                Some(text) => alphanumeric(text),
                None => verdict(false, "not alphanumeric"),
            },
            Rule::Length(bounds) => match value.count() {
                Some(count) => length(count, bounds),
                None => verdict(false, "length out of bounds"),
            },
            Rule::ByteLength(bounds) => match value.byte_count() {
                Some(count) => byte_length(count, bounds),
                None => verdict(false, "byte length out of bounds"),
            },
            Rule::Range(bounds) => match value.as_integer() {
                Some(number) => range(number, bounds),
                None => verdict(false, "value out of bounds"),
            },
            Rule::Contains(needle) => match value.as_text() {
                Some(text) => contains(text, needle.as_str()),
                None => Err(quoted_error("does not contain ", needle.as_str())),
            },
            Rule::Prefix(needle) => match value.as_text() {
                Some(text) => prefix(text, needle.as_str()),
                None => Err(quoted_error("does not begin with ", needle.as_str())),
            },
            Rule::Suffix(needle) => match value.as_text() {
                Some(text) => suffix(text, needle.as_str()),
                None => Err(quoted_error("does not end with ", needle.as_str())),
            },
            Rule::Pattern(site) => match value.as_text() {
                Some(text) => pattern(ctx.is_match(*site, text)),
                None => pattern(false),
            },
            Rule::Format(kind) => match value.as_text() {
                Some(text) => crate::rules::format(*kind, ctx.is_valid(*kind, text)),
                None => crate::rules::format(*kind, false),
            },
            Rule::Custom(site) => ctx.custom(*site, value),
        }
    }
}

/// What is checked at one place: a field, or each element of a list.
#[derive(Debug)]
pub struct Checks {
    /// Whether the value may be absent.
    pub optional: bool,
    /// Whether an absent value is an error.
    pub required: bool,
    /// The rules that run on the value itself, in this order.
    pub rules: Vec<Rule>,
    /// What validation goes on with inside the value, if anything.
    pub nested: Option<Box<Shape>>,
}

/// What a declaration says of one field.
#[derive(Debug)]
pub enum Plan {
    /// Nothing was said of the field.
    Unannotated,
    /// The field is not validated.
    Skip,
    /// The field is checked.
    Check(Checks),
}

/// One declared field.
#[derive(Debug)]
pub struct Field {
    pub name: String,
    pub plan: Plan,
}

/// A composite: its fields in the declared order.
#[derive(Debug)]
pub struct Composite {
    pub fields: Vec<Field>,
    /// Whether a field of which nothing was said counts as skipped.
    pub allow_unvalidated: bool,
}

/// One variant of a tagged union: its tag and its fields in the declared
/// order.
#[derive(Debug)]
pub struct Variant {
    pub name: String,
    pub fields: Vec<Field>,
}

/// A tagged union: its variants in the declared order.
#[derive(Debug)]
pub struct Union {
    pub variants: Vec<Variant>,
    /// Whether a field of which nothing was said counts as skipped.
    pub allow_unvalidated: bool,
}

/// A list: what is checked at each element.
#[derive(Debug)]
pub struct Sequence {
    pub element: Checks,
}

/// The declaration of a value that has something inside it.
#[derive(Debug)]
pub enum Shape {
    Composite(Composite),
    Union(Union),
    Sequence(Sequence),
}

/// What can be wrong with a declaration, whatever the value.
#[derive(Debug, Clone, Copy, PartialEq, Eq, Structural)]
pub enum ConfigError {
    /// A rule with bounds has neither of them.
    NoBounds,
    /// An absent value is declared an error at a place that cannot be
    /// absent.
    RequiredNotOptional,
    /// Nothing was said of a field, and the declaration does not allow that.
    Unannotated,
}

/// `first` if it holds a fault, else `second`.
pub open spec fn or_else(first: Option<ConfigError>, second: Option<ConfigError>) -> Option<
    ConfigError,
> {
    if first is Some {
        first
    } else {
        second
    }
}

/// The fault of the first of the first `n` rules that is not set.
pub open spec fn rules_fault(rules: Seq<Rule>, n: nat) -> Option<ConfigError>
    decreases n,
{
    if n == 0 || n > rules.len() {
        None
    } else {
        or_else(
            rules_fault(rules, (n - 1) as nat),
            if rules[n - 1].is_set() {
                None
            } else {
                Some(ConfigError::NoBounds)
            },
        )
    }
}

/// The first fault among the first `n` fields, in the declared order.
pub open spec fn fields_fault(fields: Seq<Field>, allow_unvalidated: bool, n: nat) -> Option<
    ConfigError,
>
    decreases fields, n,
{
    if n == 0 || n > fields.len() {
        None
    } else {
        or_else(
            fields_fault(fields, allow_unvalidated, (n - 1) as nat),
            match fields[n - 1].plan {
                Plan::Unannotated => if allow_unvalidated {
                    None
                } else {
                    Some(ConfigError::Unannotated)
                },
                Plan::Skip => None,
                Plan::Check(checks) => checks.fault(),
            },
        )
    }
}

/// The first fault among the first `n` variants, in the declared order.
pub open spec fn variants_fault(variants: Seq<Variant>, allow_unvalidated: bool, n: nat) -> Option<
    ConfigError,
>
    decreases variants, n,
{
    if n == 0 || n > variants.len() {
        None
    } else {
        or_else(
            variants_fault(variants, allow_unvalidated, (n - 1) as nat),
            fields_fault(
                variants[n - 1].fields@,
                allow_unvalidated,
                variants[n - 1].fields@.len(),
            ),
        )
    }
}

impl Checks {
    /// The first fault of what is declared for this place: an absent value
    /// made an error where none can be absent, then the rules in order,
    /// then what is declared inside.
    pub open spec fn fault(self) -> Option<ConfigError>
        decreases self, 0nat,
    {
        if self.required && !self.optional {
            Some(ConfigError::RequiredNotOptional)
        } else {
            or_else(
                rules_fault(self.rules@, self.rules@.len()),
                match self.nested {
                    Some(shape) => shape.fault(),
                    None => None,
                },
            )
        }
    }
}

impl Shape {
    /// The first fault of the declaration, in the declared order and depth
    /// first; nothing if it has none.
    pub open spec fn fault(self) -> Option<ConfigError>
        decreases self, 0nat,
    {
        match self {
            Shape::Composite(composite) => fields_fault(
                composite.fields@,
                composite.allow_unvalidated,
                composite.fields@.len(),
            ),
            Shape::Union(union) => variants_fault(
                union.variants@,
                union.allow_unvalidated,
                union.variants@.len(),
            ),
            Shape::Sequence(sequence) => sequence.element.fault(),
        }
    }

    /// A declaration is well formed when it has no fault.
    pub open spec fn well_formed(self) -> bool {
        self.fault() is None
    }
}

/// `Ok` where there is no fault, else the fault as an error.
pub open spec fn outcome_of(fault: Option<ConfigError>) -> Result<(), ConfigError> {
    match fault {
        None => Ok(()),
        Some(error) => Err(error),
    }
}

/// A fault among the first `k` rules is the fault among the first `n`.
proof fn lemma_rules_fault_stays(rules: Seq<Rule>, k: nat, n: nat)
    requires
        k <= n <= rules.len(),
        rules_fault(rules, k) is Some,
    ensures
        rules_fault(rules, n) == rules_fault(rules, k),
    decreases n,
{
    if k < n {
        lemma_rules_fault_stays(rules, k, (n - 1) as nat);
    }
}

/// A fault among the first `k` fields is the fault among the first `n`.
proof fn lemma_fields_fault_stays(fields: Seq<Field>, allow_unvalidated: bool, k: nat, n: nat)
    requires
        k <= n <= fields.len(),
        fields_fault(fields, allow_unvalidated, k) is Some,
    ensures
        fields_fault(fields, allow_unvalidated, n) == fields_fault(fields, allow_unvalidated, k),
    decreases n,
{
    if k < n {
        lemma_fields_fault_stays(fields, allow_unvalidated, k, (n - 1) as nat);
    }
}

/// A fault among the first `k` variants is the fault among the first `n`.
proof fn lemma_variants_fault_stays(
    variants: Seq<Variant>,
    allow_unvalidated: bool,
    k: nat,
    n: nat,
)
    requires
        k <= n <= variants.len(),
        variants_fault(variants, allow_unvalidated, k) is Some,
    ensures
        variants_fault(variants, allow_unvalidated, n) == variants_fault(
            variants,
            allow_unvalidated,
            k,
        ),
    decreases n,
{
    if k < n {
        lemma_variants_fault_stays(variants, allow_unvalidated, k, (n - 1) as nat);
    }
}

impl Rule {
    /// Tests whether the rule is declared with what it needs.
    pub fn has_bound(&self) -> (set: bool)
        ensures
            set == self.is_set(),
    {
        match self {
            Rule::Length(bounds) => bounds.has_bound(),
            Rule::ByteLength(bounds) => bounds.has_bound(),
            Rule::Range(bounds) => bounds.has_bound(),
            _ => true,
        }
    }
}

/// Looks for a rule that is not set.
fn check_rules(rules: &Vec<Rule>) -> (outcome: Result<(), ConfigError>)
    ensures
        outcome == outcome_of(rules_fault(rules@, rules@.len())),
{
    let mut i: usize = 0;
    while i < rules.len()
        invariant
            i <= rules.len(),
            rules_fault(rules@, i as nat) is None,
        decreases rules.len() - i,
    {
        if !rules[i].has_bound() {
            proof {
                lemma_rules_fault_stays(rules@, (i + 1) as nat, rules@.len());
            }
            return Err(ConfigError::NoBounds);
        }
        i += 1;
    }
    Ok(())
}

/// Looks for the first fault among `fields`.
fn check_fields(fields: &Vec<Field>, allow_unvalidated: bool) -> (outcome: Result<
    (),
    ConfigError,
>)
    ensures
        outcome == outcome_of(fields_fault(fields@, allow_unvalidated, fields@.len())),
    decreases fields,
{
    let mut i: usize = 0;
    while i < fields.len()
        invariant
            i <= fields.len(),
            fields_fault(fields@, allow_unvalidated, i as nat) is None,
        decreases fields.len() - i,
    {
        let found = match &fields[i].plan {
            Plan::Unannotated => if allow_unvalidated {
                Ok(())
            } else {
                Err(ConfigError::Unannotated)
            },
            Plan::Skip => Ok(()),
            Plan::Check(checks) => checks.check(),
        };
        if let Err(error) = found {
            proof {
                lemma_fields_fault_stays(
                    fields@,
                    allow_unvalidated,
                    (i + 1) as nat,
                    fields@.len(),
                );
            }
            return Err(error);
        }
        i += 1;
    }
    Ok(())
}

/// Looks for the first fault among `variants`.
fn check_variants(variants: &Vec<Variant>, allow_unvalidated: bool) -> (outcome: Result<
    (),
    ConfigError,
>)
    ensures
        outcome == outcome_of(variants_fault(variants@, allow_unvalidated, variants@.len())),
    decreases variants,
{
    let mut i: usize = 0;
    while i < variants.len()
        invariant
            i <= variants.len(),
            variants_fault(variants@, allow_unvalidated, i as nat) is None,
        decreases variants.len() - i,
    {
        if let Err(error) = check_fields(&variants[i].fields, allow_unvalidated) {
            proof {
                lemma_variants_fault_stays(
                    variants@,
                    allow_unvalidated,
                    (i + 1) as nat,
                    variants@.len(),
                );
            }
            return Err(error);
        }
        i += 1;
    }
    Ok(())
}

impl Checks {
    /// Looks for the first fault of what is declared for this place.
    pub fn check(&self) -> (outcome: Result<(), ConfigError>)
        ensures
            outcome == outcome_of(self.fault()),
        decreases *self,
    {
        if self.required && !self.optional {
            return Err(ConfigError::RequiredNotOptional);
        }
        if let Err(error) = check_rules(&self.rules) {
            return Err(error);
        }
        match &self.nested {
            Some(shape) => shape.check(),
            None => Ok(()),
        }
    }
}

impl Shape {
    /// Looks for the first fault of the declaration. To be called once,
    /// when the declaration is made and before any value is validated
    /// against it.
    pub fn check(&self) -> (outcome: Result<(), ConfigError>)
        ensures
            outcome == outcome_of(self.fault()),
            outcome is Ok <==> self.well_formed(),
        decreases *self,
    {
        match self {
            Shape::Composite(composite) => check_fields(
                &composite.fields,
                composite.allow_unvalidated,
            ),
            Shape::Union(union) => check_variants(&union.variants, union.allow_unvalidated),
            Shape::Sequence(sequence) => sequence.element.check(),
        }
    }
}

impl Checks {
    /// Checks that run `rules` on a value that cannot be absent, and go on
    /// with nothing inside it.
    pub fn of(rules: Vec<Rule>) -> (checks: Checks)
        ensures
            !checks.optional,
            !checks.required,
            checks.rules == rules,
            checks.nested is None,
    {
        Checks { optional: false, required: false, rules, nested: None }
    }

    /// The same checks for a value that may be absent.
    pub fn optional(self) -> (checks: Checks)
        ensures
            checks.optional,
            checks.required == self.required,
            checks.rules == self.rules,
            checks.nested == self.nested,
    {
        Checks { optional: true, required: self.required, rules: self.rules, nested: self.nested }
    }

    /// The same checks for a value that may be absent, with its absence an
    /// error.
    pub fn required(self) -> (checks: Checks)
        ensures
            checks.optional,
            checks.required,
            checks.rules == self.rules,
            checks.nested == self.nested,
    {
        Checks { optional: true, required: true, rules: self.rules, nested: self.nested }
    }

    /// The same checks, with validation going on inside the value as
    /// `shape` declares.
    pub fn dive(self, shape: Shape) -> (checks: Checks)
        ensures
            checks.optional == self.optional,
            checks.required == self.required,
            checks.rules == self.rules,
            checks.nested == Some(Box::new(shape)),
    {
        Checks {
            optional: self.optional,
            required: self.required,
            rules: self.rules,
            nested: Some(Box::new(shape)),
        }
    }

    /// The same checks, with `element` run on each element of the value,
    /// which is a list.
    pub fn inner(self, element: Checks) -> (checks: Checks)
        ensures
            checks.optional == self.optional,
            checks.required == self.required,
            checks.rules == self.rules,
            checks.nested == Some(Box::new(Shape::Sequence(Sequence { element }))),
    {
        self.dive(Shape::Sequence(Sequence { element }))
    }
}

impl Field {
    /// The field called `name`, checked as `checks` say.
    pub fn checked(name: &str, checks: Checks) -> (field: Field)
        ensures
            field.name@ == name@,
            field.plan == Plan::Check(checks),
    {
        Field { name: String::from_str(name), plan: Plan::Check(checks) }
    }

    /// The field called `name`, which is not validated.
    pub fn skipped(name: &str) -> (field: Field)
        ensures
            field.name@ == name@,
            field.plan == Plan::Skip,
    {
        Field { name: String::from_str(name), plan: Plan::Skip }
    }

    /// The field called `name`, of which nothing is said.
    pub fn unannotated(name: &str) -> (field: Field)
        ensures
            field.name@ == name@,
            field.plan == Plan::Unannotated,
    {
        Field { name: String::from_str(name), plan: Plan::Unannotated }
    }
}

} // verus!
