use panedrive::{Condition, Json, NumOp, Observed};

fn obj(entries: Vec<(&str, Json)>) -> Json {
    Json::object(entries.into_iter().map(|(k, v)| (k.to_string(), v)).collect())
}

fn state() -> Json {
    obj(vec![
        ("bag", obj(vec![("count", Json::integer(2))])),
        ("focus", Json::string("fleet")),
        ("open", Json::boolean(true)),
        ("rows", Json::array(vec![Json::string("a"), Json::string("b")])),
    ])
}

#[test]
fn parse_picks_the_right_operator() {
    assert_eq!(
        Condition::parse("focus").unwrap(),
        Condition::Exists("focus".into())
    );
    assert_eq!(
        Condition::parse(".focus?").unwrap(),
        Condition::Exists("focus".into())
    );
    assert_eq!(
        Condition::parse("focus=fleet").unwrap(),
        Condition::Equals("focus".into(), "fleet".into())
    );
    assert_eq!(
        Condition::parse("bag.count!=0").unwrap(),
        Condition::NotEquals("bag.count".into(), "0".into())
    );
    assert!(Condition::parse("").is_err());
    assert!(Condition::parse("?").is_err());
}

#[test]
fn exists_checks_presence_including_nested_and_array() {
    assert!(Condition::parse("focus").unwrap().eval(&state()));
    assert!(Condition::parse("bag.count").unwrap().eval(&state()));
    assert!(Condition::parse("rows.1").unwrap().eval(&state()));
    assert!(!Condition::parse("missing").unwrap().eval(&state()));
    assert!(!Condition::parse("rows.9").unwrap().eval(&state()));
}

#[test]
fn equals_compares_scalars_by_text() {
    assert!(Condition::parse("focus=fleet").unwrap().eval(&state()));
    assert!(Condition::parse("open=true").unwrap().eval(&state()));
    assert!(Condition::parse("bag.count=2").unwrap().eval(&state()));
    assert!(!Condition::parse("bag.count=3").unwrap().eval(&state()));
    assert!(!Condition::parse("bag=x").unwrap().eval(&state()));
}

#[test]
fn equals_is_numeric_aware_across_int_float_and_exponent() {
    let s = obj(vec![
        ("a", Json::number("2")),
        ("b", Json::number("2.0")),
        ("c", Json::number("1000.0")),
    ]);
    assert!(Condition::parse("a=2").unwrap().eval(&s));
    assert!(Condition::parse("a=2.0").unwrap().eval(&s));
    assert!(Condition::parse("b=2").unwrap().eval(&s));
    assert!(Condition::parse("c=1e3").unwrap().eval(&s));
    assert!(!Condition::parse("a=3").unwrap().eval(&s));
    let t = obj(vec![("focus", Json::string("fleet"))]);
    assert!(Condition::parse("focus=fleet").unwrap().eval(&t));
    assert!(!Condition::parse("focus=bag").unwrap().eval(&t));
}

#[test]
fn not_equals_requires_present_and_different() {
    assert!(Condition::parse("bag.count!=0").unwrap().eval(&state()));
    assert!(!Condition::parse("bag.count!=2").unwrap().eval(&state()));
    assert!(!Condition::parse("missing!=0").unwrap().eval(&state()));
}

#[test]
fn contains_and_numeric_comparisons_follow_the_grammar() {
    assert_eq!(
        Condition::parse("screen~=Ready").unwrap(),
        Condition::Contains("screen".into(), "Ready".into())
    );
    assert_eq!(
        Condition::parse("n >= 3").unwrap(),
        Condition::Compare("n".into(), NumOp::Ge, "3".into())
    );
    assert_eq!(
        Condition::parse("n<1e2").unwrap(),
        Condition::Compare("n".into(), NumOp::Lt, "1e2".into())
    );
    assert!(Condition::parse("n>abc").is_err());
    let s = obj(vec![("n", Json::number("7")), ("msg", Json::string("all Ready now"))]);
    assert!(Condition::parse("msg~=Ready").unwrap().eval(&s));
    assert!(!Condition::parse("msg~=ready").unwrap().eval(&s));
    assert!(Condition::parse("n>=7").unwrap().eval(&s));
    assert!(Condition::parse("n>6.5").unwrap().eval(&s));
    assert!(!Condition::parse("n<7").unwrap().eval(&s));
    assert!(Condition::parse("n<=7.0").unwrap().eval(&s));
    assert!(!Condition::parse("msg>1").unwrap().eval(&s));
}

#[test]
fn the_canonical_spelling_round_trips() {
    for spec in ["focus", "bag.count=2", "x!=0", "screen~=Ready", "n>=3", "n<1"] {
        let c = Condition::parse(spec).unwrap();
        assert_eq!(c.to_spec(), spec);
        assert_eq!(Condition::parse(&c.to_spec()).unwrap(), c);
    }
}

#[test]
fn observed_describes_what_the_path_held() {
    let c = Condition::parse("bag.count=5").unwrap();
    assert_eq!(c.observed(&state()), Observed::Scalar("2".into()));
    assert_eq!(c.explain(&state()), "bag.count=5 (bag.count was 2)");
    let m = Condition::parse("missing").unwrap();
    assert_eq!(m.observed(&state()), Observed::Missing);
    assert_eq!(m.observed(&state()).describe("missing"), "missing was missing");
    let b = Condition::parse("bag=1").unwrap();
    assert_eq!(b.observed(&state()), Observed::NonScalar);
    assert_eq!(Observed::NonScalar.describe("bag"), "bag was not a scalar");
    assert_eq!(Observed::Scalar("1".into()).to_json(), Json::string("1"));
    assert_eq!(Observed::Missing.to_json(), Json::null());
    assert_eq!(Observed::Scalar("x".into()).scalar(), Some("x"));
}

#[test]
fn a_scalar_text_equals_itself_even_when_it_reads_as_nan() {
    let s = obj(vec![("x", Json::string("NaN")), ("y", Json::string("nan"))]);
    assert!(Condition::parse("x=NaN").unwrap().eval(&s));
    assert!(!Condition::parse("x!=NaN").unwrap().eval(&s));
    assert!(!Condition::parse("x=nan").unwrap().eval(&s));
    assert!(Condition::parse("y=nan").unwrap().eval(&s));
}

#[test]
fn exponents_beyond_the_exact_range_overflow_or_underflow_like_a_float() {
    let s = obj(vec![
        ("big", Json::number("1e1000000000000001")),
        ("neg", Json::number("-1e1000000000000001")),
        ("tiny", Json::number("1e-1000000000000001")),
        ("nil", Json::number("0e1000000000000001")),
    ]);
    assert!(Condition::parse("big>5").unwrap().eval(&s));
    assert!(Condition::parse("big=inf").unwrap().eval(&s));
    assert!(Condition::parse("neg<-5").unwrap().eval(&s));
    assert!(Condition::parse("tiny=0").unwrap().eval(&s));
    assert!(Condition::parse("nil=0").unwrap().eval(&s));
    assert!(!Condition::parse("tiny>0").unwrap().eval(&s));
}
