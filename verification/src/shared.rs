//! The values of attributes that several declarations share.

use crate::errors::{outcome, Error, ErrorView};
use crate::text::same_text;
use std::str::FromStr;
use vstd::prelude::*;

verus! {

/// The reading of an attribute that may be absent: nothing where it is
/// absent, else what `parse` makes of its value.
pub open spec fn optional<T>(
    value: Option<Seq<char>>,
    parse: spec_fn(Seq<char>) -> Result<T, ErrorView>,
) -> Result<Option<T>, ErrorView> {
    match value {
        None => Ok(None),
        Some(s) => match parse(s) {
            Ok(v) => Ok(Some(v)),
            Err(e) => Err(e),
        },
    }
}

/// Whether names without a prefix belong to the target namespace.
#[derive(Debug, Clone, Copy, PartialEq, Eq, Structural)]
pub enum FormDefault {
    Qualified,
    Unqualified,
}

impl View for FormDefault {
    type V = FormDefault;

    open spec fn view(&self) -> FormDefault {
        *self
    }
}

impl FormDefault {
    /// `qualified` and `unqualified` are the two tokens; nothing else is one.
    pub open spec fn spec_parse(s: Seq<char>) -> Result<FormDefault, ErrorView> {
        if s == "qualified"@ {
            Ok(FormDefault::Qualified)
        } else if s == "unqualified"@ {
            Ok(FormDefault::Unqualified)
        } else {
            Err(ErrorView::InvalidFormDefault)
        }
    }

    /// Each token stands for its own variant, and nothing else is a token.
    pub proof fn lemma_tokens()
        ensures
            FormDefault::spec_parse("qualified"@) matches Ok(FormDefault::Qualified),
            FormDefault::spec_parse("unqualified"@) matches Ok(FormDefault::Unqualified),
            forall|s: Seq<char>|
                s != "qualified"@ && s != "unqualified"@
                    ==> #[trigger] FormDefault::spec_parse(s) matches Err(
                    ErrorView::InvalidFormDefault,
                ),
    {
        reveal_strlit("qualified");
        reveal_strlit("unqualified");
        assert("qualified"@.len() != "unqualified"@.len());
    }

    /// Reads the value of an `attributeFormDefault` or `elementFormDefault`.
    pub fn parse(s: &str) -> (r: Result<FormDefault, Error>)
        ensures
            outcome(r) == FormDefault::spec_parse(s@),
    {
        if same_text(s, "qualified") {
            Ok(FormDefault::Qualified)
        } else if same_text(s, "unqualified") {
            Ok(FormDefault::Unqualified)
        } else {
            Err(Error::InvalidFormDefault)
        }
    }
}

impl FromStr for FormDefault {
    type Err = Error;

    fn from_str(s: &str) -> (r: Result<FormDefault, Error>)
        ensures
            outcome(r) == FormDefault::spec_parse(s@),
    {
        FormDefault::parse(s)
    }
}

impl Default for FormDefault {
    fn default() -> (r: FormDefault)
        ensures
            r == FormDefault::Unqualified,
    {
        FormDefault::Unqualified
    }
}

/// Which derivations an element forbids.
#[derive(Debug, Clone, Copy, PartialEq, Eq, Structural)]
pub enum Final {
    Extension,
    Restriction,
    All,
}

impl View for Final {
    type V = Final;

    open spec fn view(&self) -> Final {
        *self
    }
}

impl Final {
    /// `extension`, `restriction` and `#all` are the three tokens.
    pub open spec fn spec_parse(s: Seq<char>) -> Result<Final, ErrorView> {
        if s == "extension"@ {
            Ok(Final::Extension)
        } else if s == "restriction"@ {
            Ok(Final::Restriction)
        } else if s == "#all"@ {
            Ok(Final::All)
        } else {
            Err(ErrorView::InvalidFinal)
        }
    }

    /// Each token stands for its own variant, and nothing else is a token.
    pub proof fn lemma_tokens()
        ensures
            Final::spec_parse("extension"@) matches Ok(Final::Extension),
            Final::spec_parse("restriction"@) matches Ok(Final::Restriction),
            Final::spec_parse("#all"@) matches Ok(Final::All),
            forall|s: Seq<char>|
                s != "extension"@ && s != "restriction"@ && s != "#all"@
                    ==> #[trigger] Final::spec_parse(s) matches Err(ErrorView::InvalidFinal),
    {
        reveal_strlit("extension");
        reveal_strlit("restriction");
        reveal_strlit("#all");
        assert("extension"@.len() != "restriction"@.len());
    }

    /// Reads the value of a `final` attribute.
    pub fn parse(s: &str) -> (r: Result<Final, Error>)
        ensures
            outcome(r) == Final::spec_parse(s@),
    {
        if same_text(s, "extension") {
            Ok(Final::Extension)
        } else if same_text(s, "restriction") {
            Ok(Final::Restriction)
        } else if same_text(s, "#all") {
            Ok(Final::All)
        } else {
            Err(Error::InvalidFinal)
        }
    }
}

impl FromStr for Final {
    type Err = Error;

    fn from_str(s: &str) -> (r: Result<Final, Error>)
        ensures
            outcome(r) == Final::spec_parse(s@),
    {
        Final::parse(s)
    }
}

/// Which derivations and substitutions are blocked.
#[derive(Debug, Clone, Copy, PartialEq, Eq, Structural)]
pub enum BlockDefault {
    Extension,
    Restriction,
    Substitution,
    All,
}

impl View for BlockDefault {
    type V = BlockDefault;

    open spec fn view(&self) -> BlockDefault {
        *self
    }
}

impl BlockDefault {
    /// `extension`, `restriction`, `substitution` and `#all` are the four tokens.
    pub open spec fn spec_parse(s: Seq<char>) -> Result<BlockDefault, ErrorView> {
        if s == "extension"@ {
            Ok(BlockDefault::Extension)
        } else if s == "restriction"@ {
            Ok(BlockDefault::Restriction)
        } else if s == "substitution"@ {
            Ok(BlockDefault::Substitution)
        } else if s == "#all"@ {
            Ok(BlockDefault::All)
        } else {
            Err(ErrorView::InvalidBlockDefault)
        }
    }

    /// Each token stands for its own variant, and nothing else is a token.
    pub proof fn lemma_tokens()
        ensures
            BlockDefault::spec_parse("extension"@) matches Ok(BlockDefault::Extension),
            BlockDefault::spec_parse("restriction"@) matches Ok(BlockDefault::Restriction),
            BlockDefault::spec_parse("substitution"@) matches Ok(BlockDefault::Substitution),
            BlockDefault::spec_parse("#all"@) matches Ok(BlockDefault::All),
            forall|s: Seq<char>|
                s != "extension"@ && s != "restriction"@ && s != "substitution"@ && s != "#all"@
                    ==> #[trigger] BlockDefault::spec_parse(s) matches Err(
                    ErrorView::InvalidBlockDefault,
                ),
    {
        reveal_strlit("extension");
        reveal_strlit("restriction");
        reveal_strlit("substitution");
        reveal_strlit("#all");
        assert("extension"@.len() != "restriction"@.len());
        assert("extension"@.len() != "substitution"@.len());
    }

    /// Reads the value of a `block` or `blockDefault` attribute.
    pub fn parse(s: &str) -> (r: Result<BlockDefault, Error>)
        ensures
            outcome(r) == BlockDefault::spec_parse(s@),
    {
        if same_text(s, "extension") {
            Ok(BlockDefault::Extension)
        } else if same_text(s, "restriction") {
            Ok(BlockDefault::Restriction)
        } else if same_text(s, "substitution") {
            Ok(BlockDefault::Substitution)
        } else if same_text(s, "#all") {
            Ok(BlockDefault::All)
        } else {
            Err(Error::InvalidBlockDefault)
        }
    }
}

impl FromStr for BlockDefault {
    type Err = Error;

    fn from_str(s: &str) -> (r: Result<BlockDefault, Error>)
        ensures
            outcome(r) == BlockDefault::spec_parse(s@),
    {
        BlockDefault::parse(s)
    }
}

/// Which derivations a schema forbids by default.
#[derive(Debug, Clone, Copy, PartialEq, Eq, Structural)]
pub enum FinalDefault {
    Extension,
    Restriction,
    List,
    Union,
    All,
}

impl View for FinalDefault {
    type V = FinalDefault;

    open spec fn view(&self) -> FinalDefault {
        *self
    }
}

impl FinalDefault {
    /// `extension`, `restriction`, `list`, `union` and `#all` are the five tokens.
    pub open spec fn spec_parse(s: Seq<char>) -> Result<FinalDefault, ErrorView> {
        if s == "extension"@ {
            Ok(FinalDefault::Extension)
        } else if s == "restriction"@ {
            Ok(FinalDefault::Restriction)
        } else if s == "list"@ {
            Ok(FinalDefault::List)
        } else if s == "union"@ {
            Ok(FinalDefault::Union)
        } else if s == "#all"@ {
            Ok(FinalDefault::All)
        } else {
            Err(ErrorView::InvalidFinalDefault)
        }
    }

    /// Each token stands for its own variant, and nothing else is a token.
    pub proof fn lemma_tokens()
        ensures
            FinalDefault::spec_parse("extension"@) matches Ok(FinalDefault::Extension),
            FinalDefault::spec_parse("restriction"@) matches Ok(FinalDefault::Restriction),
            FinalDefault::spec_parse("list"@) matches Ok(FinalDefault::List),
            FinalDefault::spec_parse("union"@) matches Ok(FinalDefault::Union),
            FinalDefault::spec_parse("#all"@) matches Ok(FinalDefault::All),
            forall|s: Seq<char>|
                s != "extension"@ && s != "restriction"@ && s != "list"@ && s != "union"@ &&
                    s != "#all"@
                    ==> #[trigger] FinalDefault::spec_parse(s) matches Err(
                    ErrorView::InvalidFinalDefault,
                ),
    {
        reveal_strlit("extension");
        reveal_strlit("restriction");
        reveal_strlit("list");
        reveal_strlit("union");
        reveal_strlit("#all");
        assert("extension"@.len() != "restriction"@.len());
        assert("list"@[0] != "#all"@[0]);
    }

    /// Reads the value of a `finalDefault` attribute.
    pub fn parse(s: &str) -> (r: Result<FinalDefault, Error>)
        ensures
            outcome(r) == FinalDefault::spec_parse(s@),
    {
        if same_text(s, "extension") {
            Ok(FinalDefault::Extension)
        } else if same_text(s, "restriction") {
            Ok(FinalDefault::Restriction)
        } else if same_text(s, "list") {
            Ok(FinalDefault::List)
        } else if same_text(s, "union") {
            Ok(FinalDefault::Union)
        } else if same_text(s, "#all") {
            Ok(FinalDefault::All)
        } else {
            Err(Error::InvalidFinalDefault)
        }
    }
}

impl FromStr for FinalDefault {
    type Err = Error;

    fn from_str(s: &str) -> (r: Result<FinalDefault, Error>)
        ensures
            outcome(r) == FinalDefault::spec_parse(s@),
    {
        FinalDefault::parse(s)
    }
}

/// How often a particle may or must occur.
#[derive(Debug, Clone, Copy, PartialEq, Eq, Structural)]
pub enum Occurrence {
    Limit(usize),
    Unbounded,
}

impl View for Occurrence {
    type V = Occurrence;

    open spec fn view(&self) -> Occurrence {
        *self
    }
}

/// The number that a decimal digit stands for.
pub open spec fn digit_value(c: char) -> nat {
    (c as u32 - '0' as u32) as nat
}

/// Whether `c` is one of the ten decimal digits.
pub open spec fn is_digit(c: char) -> bool {
    '0' as u32 <= c as u32 <= '9' as u32
}

/// The number that a run of decimal digits writes, most significant digit first.
pub open spec fn digits_value(digits: Seq<char>) -> nat
    decreases digits.len(),
{
    if digits.len() == 0 {
        0
    } else {
        digits_value(digits.drop_last()) * 10 + digit_value(digits.last())
    }
}

/// Whether `digits` holds decimal digits and nothing else.
pub open spec fn all_digits(digits: Seq<char>) -> bool {
    forall|i: int| 0 <= i < digits.len() ==> is_digit(#[trigger] digits[i])
}

/// `s` without the `+` that may stand in front of a number.
pub open spec fn unsigned(s: Seq<char>) -> Seq<char> {
    if s.len() > 0 && s[0] == '+' {
        s.subrange(1, s.len() as int)
    } else {
        s
    }
}

/// The number that `s` writes in base ten: an optional `+`, then at least one
/// digit and nothing but digits. `None` where `s` is not of that form.
pub open spec fn decimal(s: Seq<char>) -> Option<nat> {
    let digits = unsigned(s);
    if digits.len() > 0 && all_digits(digits) {
        Some(digits_value(digits))
    } else {
        None
    }
}

/// `str::parse::<usize>`: succeeds exactly on a base-ten number, with or
/// without a leading `+`, that fits in `usize`, and then returns that number.
#[verifier::external_body]
fn parse_usize(s: &str) -> (r: Result<usize, std::num::ParseIntError>)
    ensures
        match r {
            Ok(n) => decimal(s@) == Some(n as nat),
            Err(_) => decimal(s@) matches Some(n) ==> n > usize::MAX,
        },
{
    s.parse::<usize>()
}

impl Occurrence {
    /// `unbounded`, or a base-ten number that fits in `usize`.
    pub open spec fn spec_parse(s: Seq<char>) -> Result<Occurrence, ErrorView> {
        if s == "unbounded"@ {
            Ok(Occurrence::Unbounded)
        } else {
            match decimal(s) {
                Some(n) if n <= usize::MAX => Ok(Occurrence::Limit(n as usize)),
                _ => Err(ErrorView::ParseInt),
            }
        }
    }

    /// Reads the value of a `minOccurs` or `maxOccurs` attribute.
    pub fn parse(s: &str) -> (r: Result<Occurrence, Error>)
        ensures
            outcome(r) == Occurrence::spec_parse(s@),
    {
        if same_text(s, "unbounded") {
            Ok(Occurrence::Unbounded)
        } else {
            match parse_usize(s) {
                Ok(n) => Ok(Occurrence::Limit(n)),
                Err(e) => Err(Error::ParseInt(e)),
            }
        }
    }
}

impl FromStr for Occurrence {
    type Err = Error;

    fn from_str(s: &str) -> (r: Result<Occurrence, Error>)
        ensures
            outcome(r) == Occurrence::spec_parse(s@),
    {
        Occurrence::parse(s)
    }
}

} // verus!
