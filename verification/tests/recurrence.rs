use crony::at::{At, Occurrences};
use crony::error::Error;

fn at(months: Occurrences, days: Occurrences, hours: Occurrences, minutes: Occurrences, seconds: Occurrences) -> At {
    At { months, days, hours, minutes, seconds }
}

#[test]
fn parse_hour_and_minute() {
    let parsed = At::parse("h=10 m=0").unwrap();
    assert_eq!(parsed.seconds, Occurrences::First);
    assert_eq!(parsed.minutes, Occurrences::Once(0));
    assert_eq!(parsed.hours, Occurrences::Once(10));
    assert_eq!(parsed.days, Occurrences::Every);
    assert_eq!(parsed.months, Occurrences::Every);
}

#[test]
fn encode_keeps_every_left_of_explicit_field() {
    let parsed = At::parse("h=10 m=0").unwrap();
    assert_eq!(parsed.encode(), "M=* D=* h=10 m=0");
}

#[test]
fn parse_of_encode_is_identity() {
    let values = [
        at(Occurrences::Every, Occurrences::Every, Occurrences::Every, Occurrences::Every, Occurrences::Every),
        at(Occurrences::Every, Occurrences::First, Occurrences::First, Occurrences::First, Occurrences::First),
        at(Occurrences::Once(2), Occurrences::Once(29), Occurrences::First, Occurrences::First, Occurrences::First),
        at(Occurrences::Every, Occurrences::Multiple(vec![1, 15]), Occurrences::Once(6), Occurrences::First, Occurrences::First),
        at(Occurrences::Every, Occurrences::Every, Occurrences::Every, Occurrences::Every, Occurrences::Once(30)),
        at(Occurrences::Multiple(vec![3, 6, 9, 12]), Occurrences::Every, Occurrences::Multiple(vec![0, 23]), Occurrences::Every, Occurrences::Multiple(vec![59, 0])),
        at(Occurrences::Every, Occurrences::Every, Occurrences::Once(10), Occurrences::Every, Occurrences::First),
    ];
    for value in values.iter() {
        let text = value.encode();
        assert_eq!(At::parse(&text).as_ref(), Ok(value), "pattern {text}");
    }
}

#[test]
fn encode_of_parse_is_idempotent() {
    for text in ["M=* D=* h=10 m=0", "s=*", "M=2 D=29", "D=1,15 h=6", "M=*", "M=* D=* h=* m=* s=30"] {
        let once = At::parse(text).unwrap().encode();
        let twice = At::parse(&once).unwrap().encode();
        assert_eq!(once, twice);
    }
    assert_eq!(At::parse("M=* D=* h=10 m=0").unwrap().encode(), "M=* D=* h=10 m=0");
    assert_eq!(At::parse("M=2 D=29").unwrap().encode(), "M=2 D=29");
    assert_eq!(At::parse("s=*").unwrap().encode(), "M=* D=* h=* m=* s=*");
    assert_eq!(At::parse("M=*").unwrap().encode(), "M=*");
    assert_eq!(At::parse("M=3 h=*").unwrap().encode(), "M=3 h=*");
}

#[test]
fn parse_defaults() {
    let every = At::parse("s=*").unwrap();
    assert_eq!(every, at(Occurrences::Every, Occurrences::Every, Occurrences::Every, Occurrences::Every, Occurrences::Every));
    let monthly = At::parse("M=*").unwrap();
    assert_eq!(monthly, at(Occurrences::Every, Occurrences::First, Occurrences::First, Occurrences::First, Occurrences::First));
    let leading_space = At::parse(" m=5").unwrap();
    assert_eq!(leading_space.minutes, Occurrences::Once(5));
    assert_eq!(leading_space.hours, Occurrences::Every);
    assert_eq!(leading_space.seconds, Occurrences::First);
    let zeros = At::parse("h=007").unwrap();
    assert_eq!(zeros.hours, Occurrences::Once(7));
}

#[test]
fn parse_rejects() {
    for text in [
        "", " ", "x", "M=13", "M=0", "D=0", "D=32", "h=24", "m=60", "s=60", "s=256", "s=99999999999999999999",
        "M=1 M=2", "D=1 M=2", "M=1  D=2", "M=1 ", "  M=1", "M=", "M=1,", "M=,1", "M=1,,2", "M= 1",
        "h=-1", "h=+1", "h=1 x=2", "H=1", "M=1D=2", "h=*,1", "s=1.5", "m=１",
    ] {
        assert_eq!(At::parse(text), Err(Error::InvalidPattern), "pattern {text:?}");
    }
}

#[test]
fn parse_accepts_lists_and_ranges_edges() {
    let parsed = At::parse("M=1,12 D=1,31 h=0,23 m=0,59 s=0,59").unwrap();
    assert_eq!(parsed.months, Occurrences::Multiple(vec![1, 12]));
    assert_eq!(parsed.days, Occurrences::Multiple(vec![1, 31]));
    assert_eq!(parsed.hours, Occurrences::Multiple(vec![0, 23]));
    assert_eq!(parsed.minutes, Occurrences::Multiple(vec![0, 59]));
    assert_eq!(parsed.seconds, Occurrences::Multiple(vec![0, 59]));
    assert_eq!(parsed.encode(), "M=1,12 D=1,31 h=0,23 m=0,59 s=0,59");
}

#[test]
fn occurrences_text() {
    assert_eq!(Occurrences::parse("*"), Ok(Occurrences::Every));
    assert_eq!(Occurrences::parse("42"), Ok(Occurrences::Once(42)));
    assert_eq!(Occurrences::parse("255"), Ok(Occurrences::Once(255)));
    assert_eq!(Occurrences::parse("1,2,3"), Ok(Occurrences::Multiple(vec![1, 2, 3])));
    assert_eq!(Occurrences::parse("256"), Err(Error::InvalidPattern));
    assert_eq!(Occurrences::parse(""), Err(Error::InvalidPattern));
    assert_eq!(Occurrences::parse("**"), Err(Error::InvalidPattern));
    assert_eq!(Occurrences::First.encode(), None);
    assert_eq!(Occurrences::Every.encode(), Some("*".to_string()));
    assert_eq!(Occurrences::Once(0).encode(), Some("0".to_string()));
    assert_eq!(Occurrences::Once(205).encode(), Some("205".to_string()));
    assert_eq!(Occurrences::Multiple(vec![10, 20, 0]).encode(), Some("10,20,0".to_string()));
}

#[test]
fn recurrence_validity_and_equality() {
    let good = At::parse("D=1,15 h=6").unwrap();
    assert!(good.is_valid());
    assert!(good.same_as(&good.duplicate()));
    let bad = at(Occurrences::Once(13), Occurrences::Every, Occurrences::Every, Occurrences::Every, Occurrences::Every);
    assert!(!bad.is_valid());
    let empty = at(Occurrences::Every, Occurrences::Multiple(vec![]), Occurrences::Every, Occurrences::Every, Occurrences::Every);
    assert!(!empty.is_valid());
    assert!(!good.same_as(&bad));
}
