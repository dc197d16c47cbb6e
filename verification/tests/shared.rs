use std::str::FromStr;

use xsd::complex_type::Usage;
use xsd::errors::Error;
use xsd::shared::{BlockDefault, Final, FinalDefault, FormDefault, Occurrence};

#[test]
fn usage_reads_its_three_tokens() {
    assert_eq!(Usage::parse("optional").unwrap(), Usage::Optional);
    assert_eq!(Usage::parse("prohibited").unwrap(), Usage::Prohibited);
    assert_eq!(Usage::parse("required").unwrap(), Usage::Required);
}

#[test]
fn usage_refuses_any_other_token() {
    for token in ["", "Optional", "REQUIRED", " required", "required ", "#all", "option"] {
        assert!(matches!(Usage::parse(token), Err(Error::InvalidUse)));
    }
}

#[test]
fn usage_defaults_to_optional() {
    assert_eq!(Usage::default(), Usage::Optional);
}

#[test]
fn usage_from_str_agrees_with_parse() {
    assert_eq!(Usage::from_str("required").unwrap(), Usage::Required);
    assert_eq!("prohibited".parse::<Usage>().unwrap(), Usage::Prohibited);
    assert!(matches!(Usage::from_str("never"), Err(Error::InvalidUse)));
}

#[test]
fn occurrence_reads_unbounded() {
    assert_eq!(Occurrence::parse("unbounded").unwrap(), Occurrence::Unbounded);
}

#[test]
fn occurrence_reads_numbers() {
    assert_eq!(Occurrence::parse("0").unwrap(), Occurrence::Limit(0));
    assert_eq!(Occurrence::parse("12").unwrap(), Occurrence::Limit(12));
    assert_eq!(Occurrence::parse("007").unwrap(), Occurrence::Limit(7));
    assert_eq!(Occurrence::parse("+5").unwrap(), Occurrence::Limit(5));
    assert_eq!(
        Occurrence::parse(&usize::MAX.to_string()).unwrap(),
        Occurrence::Limit(usize::MAX)
    );
}

#[test]
fn occurrence_refuses_what_is_no_number() {
    for token in ["-1", "abc", "", "+", "-", " 1", "1 ", "1_000", "1.0", "Unbounded", "0x10", "١"] {
        assert!(matches!(Occurrence::parse(token), Err(Error::ParseInt(_))), "{:?}", token);
    }
}

#[test]
fn occurrence_refuses_numbers_that_do_not_fit() {
    assert!(matches!(
        Occurrence::parse("340282366920938463463374607431768211456"),
        Err(Error::ParseInt(_))
    ));
    let mut beyond = usize::MAX.to_string();
    beyond.push('0');
    assert!(matches!(Occurrence::parse(&beyond), Err(Error::ParseInt(_))));
}

#[test]
fn occurrence_from_str_agrees_with_parse() {
    assert_eq!(Occurrence::from_str("3").unwrap(), Occurrence::Limit(3));
    assert_eq!("unbounded".parse::<Occurrence>().unwrap(), Occurrence::Unbounded);
}

#[test]
fn form_default_reads_its_two_tokens() {
    assert_eq!(FormDefault::parse("qualified").unwrap(), FormDefault::Qualified);
    assert_eq!(FormDefault::parse("unqualified").unwrap(), FormDefault::Unqualified);
    assert_eq!(FormDefault::from_str("qualified").unwrap(), FormDefault::Qualified);
    assert_eq!(FormDefault::default(), FormDefault::Unqualified);
}

#[test]
fn form_default_refuses_any_other_token() {
    for token in ["", "Qualified", "un qualified", "#all"] {
        assert!(matches!(FormDefault::parse(token), Err(Error::InvalidFormDefault)));
    }
}

#[test]
fn final_reads_its_three_tokens() {
    assert_eq!(Final::parse("extension").unwrap(), Final::Extension);
    assert_eq!(Final::parse("restriction").unwrap(), Final::Restriction);
    assert_eq!(Final::parse("#all").unwrap(), Final::All);
    assert_eq!(Final::from_str("#all").unwrap(), Final::All);
}

#[test]
fn final_refuses_any_other_token() {
    for token in ["", "all", "#ALL", "list", "substitution"] {
        assert!(matches!(Final::parse(token), Err(Error::InvalidFinal)));
    }
}

#[test]
fn block_default_reads_its_four_tokens() {
    assert_eq!(BlockDefault::parse("extension").unwrap(), BlockDefault::Extension);
    assert_eq!(BlockDefault::parse("restriction").unwrap(), BlockDefault::Restriction);
    assert_eq!(BlockDefault::parse("substitution").unwrap(), BlockDefault::Substitution);
    assert_eq!(BlockDefault::parse("#all").unwrap(), BlockDefault::All);
    assert_eq!(BlockDefault::from_str("substitution").unwrap(), BlockDefault::Substitution);
}

#[test]
fn block_default_refuses_any_other_token() {
    for token in ["", "all", "list", "union", "Extension"] {
        assert!(matches!(BlockDefault::parse(token), Err(Error::InvalidBlockDefault)));
    }
}

#[test]
fn final_default_reads_its_five_tokens() {
    assert_eq!(FinalDefault::parse("extension").unwrap(), FinalDefault::Extension);
    assert_eq!(FinalDefault::parse("restriction").unwrap(), FinalDefault::Restriction);
    assert_eq!(FinalDefault::parse("list").unwrap(), FinalDefault::List);
    assert_eq!(FinalDefault::parse("union").unwrap(), FinalDefault::Union);
    assert_eq!(FinalDefault::parse("#all").unwrap(), FinalDefault::All);
    assert_eq!(FinalDefault::from_str("union").unwrap(), FinalDefault::Union);
}

#[test]
fn final_default_refuses_any_other_token() {
    for token in ["", "all", "substitution", "List"] {
        assert!(matches!(FinalDefault::parse(token), Err(Error::InvalidFinalDefault)));
    }
}
