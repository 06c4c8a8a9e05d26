use sustlang::{FloatValue, ScriptError, VarType, Variable};

fn whole(i: isize) -> Variable {
    Variable::from_int(Some(i))
}

fn text(s: &str) -> Variable {
    Variable::from_str(Some(s.to_string()))
}

fn float(x: f64) -> Variable {
    Variable::from_float(Some(FloatValue::new(x.to_bits(), x.to_string())))
}

fn ints(v: &[isize]) -> Variable {
    Variable::from_list(Some(v.iter().map(|i| whole(*i)).collect()), VarType::Integer)
}

fn chars(v: &[u8]) -> Variable {
    Variable::from_list(
        Some(v.iter().map(|c| Variable::from_char(Some(*c))).collect()),
        VarType::Char,
    )
}

fn optional(t: VarType) -> VarType {
    VarType::Optional(Box::new(t))
}

#[test]
fn constructors_carry_their_descriptors() {
    assert_eq!(Variable::from_bool(Some(true)).get_type(), VarType::Bool);
    assert_eq!(text("a").get_type(), VarType::String);
    assert_eq!(whole(1).get_type(), VarType::Integer);
    assert_eq!(float(1.5).get_type(), VarType::Float);
    assert_eq!(Variable::from_char(Some(65)).get_type(), VarType::Char);
    assert_eq!(ints(&[1]).get_type(), VarType::List(Box::new(VarType::Integer)));
    assert_eq!(
        Variable::from_map(Some(Vec::new()), VarType::String, VarType::Integer).get_type(),
        VarType::Mapping(Box::new(VarType::String), Box::new(VarType::Integer))
    );
    assert_eq!(
        Variable::from_optional(Some(None), VarType::Bool).get_type(),
        optional(VarType::Bool)
    );
    assert_eq!(Variable::from_null().get_type(), VarType::Null);
    assert_eq!(Variable::from_out_stream(Some(0)).get_type(), VarType::OutStream);
    assert_eq!(Variable::from_in_stream(Some(0)).get_type(), VarType::InStream);
}

#[test]
fn accessors_return_the_payload() {
    assert_eq!(Variable::from_bool(Some(true)).as_bool(), Ok(true));
    assert_eq!(text("abc").as_str(), Ok("abc".to_string()));
    assert_eq!(whole(-4).as_int(), Ok(-4));
    assert_eq!(float(2.5).as_float().unwrap().bits, 2.5f64.to_bits());
    assert_eq!(Variable::from_char(Some(7)).as_char(), Ok(7));
    assert_eq!(ints(&[1, 2]).as_list().unwrap().len(), 2);
    assert_eq!(ints(&[1, 2]).as_list().unwrap()[1].as_int(), Ok(2));
    let m = Variable::from_map(Some(vec![(text("k"), whole(1))]), VarType::String, VarType::Integer);
    assert_eq!(m.as_map().unwrap().len(), 1);
    assert_eq!(m.as_map().unwrap()[0].1.as_int(), Ok(1));
    let o = Variable::from_optional(Some(Some(whole(3))), VarType::Integer);
    assert_eq!(o.as_option().unwrap().unwrap().as_int(), Ok(3));
    assert!(Variable::from_optional(Some(None), VarType::Integer).as_option().unwrap().is_none());
    assert_eq!(Variable::from_out_stream(Some(4)).as_out_stream(), Ok(4));
    assert_eq!(Variable::from_in_stream(Some(5)).as_in_stream(), Ok(5));
}

#[test]
fn accessors_fail_on_other_variants_and_on_missing_payloads() {
    let e = Err(ScriptError::TypeMismatchError);
    assert_eq!(whole(1).as_bool(), e);
    assert_eq!(Variable::from_bool(None).as_bool(), e);
    assert_eq!(whole(1).as_str(), Err(ScriptError::TypeMismatchError));
    assert_eq!(text("1").as_int(), Err(ScriptError::TypeMismatchError));
    assert_eq!(Variable::from_int(None).as_int(), Err(ScriptError::TypeMismatchError));
    assert!(whole(1).as_float().is_err());
    assert_eq!(whole(1).as_char(), Err(ScriptError::TypeMismatchError));
    assert!(whole(1).as_list().is_err());
    assert!(Variable::from_list(None, VarType::Integer).as_list().is_err());
    assert!(whole(1).as_map().is_err());
    assert!(whole(1).as_option().is_err());
    assert!(Variable::from_optional(None, VarType::Integer).as_option().is_err());
    assert_eq!(Variable::from_in_stream(Some(1)).as_out_stream(), Err(ScriptError::TypeMismatchError));
    assert_eq!(Variable::from_out_stream(Some(1)).as_in_stream(), Err(ScriptError::TypeMismatchError));
    assert_eq!(Variable::from_out_stream(None).as_out_stream(), Err(ScriptError::TypeMismatchError));
}

#[test]
fn container_types_are_read_from_the_descriptor() {
    assert_eq!(ints(&[]).get_list_type(), Ok(VarType::Integer));
    assert_eq!(Variable::from_list(None, VarType::Bool).get_list_type(), Ok(VarType::Bool));
    assert_eq!(whole(1).get_list_type(), Err(ScriptError::TypeMismatchError));
    assert_eq!(
        Variable::from_map(None, VarType::String, VarType::Char).get_map_types(),
        Ok((VarType::String, VarType::Char))
    );
    assert_eq!(whole(1).get_map_types(), Err(ScriptError::TypeMismatchError));
    assert_eq!(
        Variable::from_optional(None, VarType::Float).get_option_type(),
        Ok(VarType::Float)
    );
    assert_eq!(ints(&[]).get_option_type(), Err(ScriptError::TypeMismatchError));
}

#[test]
fn null_and_initialisation_flags() {
    assert!(Variable::from_null().is_null());
    assert!(!whole(1).is_null());
    assert!(Variable::from_null().is_initialized());
    assert!(whole(1).is_initialized());
    assert!(!Variable::from_int(None).is_initialized());
    assert!(!Variable::from_list(None, VarType::Integer).is_initialized());
    assert!(ints(&[]).is_initialized());
    assert!(!Variable::from_in_stream(None).is_initialized());
}

#[test]
fn declared_scalars_are_empty_and_declared_containers_are_present() {
    let b = Variable::empty_var(VarType::Bool).unwrap();
    assert!(!b.is_initialized());
    assert_eq!(b.get_type(), VarType::Bool);
    assert!(!Variable::empty_var(VarType::String).unwrap().is_initialized());
    assert!(!Variable::empty_var(VarType::Integer).unwrap().is_initialized());
    assert!(!Variable::empty_var(VarType::Float).unwrap().is_initialized());
    assert!(!Variable::empty_var(VarType::Char).unwrap().is_initialized());
    assert!(!Variable::empty_var(VarType::InStream).unwrap().is_initialized());
    assert!(!Variable::empty_var(VarType::OutStream).unwrap().is_initialized());
    assert!(Variable::empty_var(VarType::Null).unwrap().is_null());
    let l = Variable::empty_var(VarType::List(Box::new(VarType::Integer))).unwrap();
    assert_eq!(l.as_list().unwrap().len(), 0);
    assert_eq!(l.get_type(), VarType::List(Box::new(VarType::Integer)));
    let m = Variable::empty_var(VarType::Mapping(
        Box::new(VarType::String),
        Box::new(VarType::Integer),
    ))
    .unwrap();
    assert_eq!(m.as_map().unwrap().len(), 0);
    let o = Variable::empty_var(optional(VarType::Integer)).unwrap();
    assert!(o.as_option().unwrap().is_none());
}

#[test]
fn not_inited_values_have_no_payload_at_all() {
    let l = Variable::not_inited_var(VarType::List(Box::new(VarType::Integer))).unwrap();
    assert!(!l.is_initialized());
    assert_eq!(l.get_type(), VarType::List(Box::new(VarType::Integer)));
    let o = Variable::not_inited_var(optional(VarType::Integer)).unwrap();
    assert!(!o.is_initialized());
    let m = Variable::not_inited_var(VarType::Mapping(
        Box::new(VarType::String),
        Box::new(VarType::Integer),
    ))
    .unwrap();
    assert!(!m.is_initialized());
    assert!(!Variable::not_inited_var(VarType::Integer).unwrap().is_initialized());
    assert!(Variable::not_inited_var(VarType::Null).unwrap().is_null());
}

#[test]
fn literals_of_scalars() {
    let parse = |t: VarType, s: &str| Variable::parse_var(t, s.to_string(), None);
    assert_eq!(parse(VarType::Bool, "true").unwrap().as_bool(), Ok(true));
    assert_eq!(parse(VarType::Bool, "1").unwrap().as_bool(), Ok(true));
    assert_eq!(parse(VarType::Bool, "false").unwrap().as_bool(), Ok(false));
    assert_eq!(parse(VarType::Bool, "0").unwrap().as_bool(), Ok(false));
    assert_eq!(parse(VarType::Bool, "yes").err(), Some(ScriptError::ParseVarError));
    assert_eq!(parse(VarType::Bool, "True").err(), Some(ScriptError::ParseVarError));
    assert_eq!(parse(VarType::String, "a b  c").unwrap().as_str(), Ok("a b  c".to_string()));
    assert_eq!(parse(VarType::String, "").unwrap().as_str(), Ok(String::new()));
    assert_eq!(parse(VarType::Integer, "-12").unwrap().as_int(), Ok(-12));
    assert_eq!(parse(VarType::Integer, "+12").unwrap().as_int(), Ok(12));
    assert_eq!(parse(VarType::Integer, "12x").err(), Some(ScriptError::ParseVarError));
    assert_eq!(parse(VarType::Integer, "").err(), Some(ScriptError::ParseVarError));
    assert_eq!(parse(VarType::Char, "65").unwrap().as_char(), Ok(65));
    assert_eq!(parse(VarType::Char, "255").unwrap().as_char(), Ok(255));
    assert_eq!(parse(VarType::Char, "256").err(), Some(ScriptError::ParseVarError));
    assert_eq!(parse(VarType::Char, "A").err(), Some(ScriptError::ParseVarError));
    assert!(parse(VarType::Null, "anything").unwrap().is_null());
}

#[test]
fn literals_of_optionals() {
    let parse = |t: VarType, s: &str| Variable::parse_var(t, s.to_string(), None);
    let none = parse(optional(VarType::Integer), "none").unwrap();
    assert!(none.as_option().unwrap().is_none());
    assert_eq!(none.get_type(), optional(VarType::Integer));
    let some = parse(optional(VarType::Integer), "[5]").unwrap();
    assert_eq!(some.as_option().unwrap().unwrap().as_int(), Ok(5));
    let nested = parse(optional(optional(VarType::String)), "[[a]]").unwrap();
    assert_eq!(
        nested.as_option().unwrap().unwrap().as_option().unwrap().unwrap().as_str(),
        Ok("a".to_string())
    );
    let inner_none = parse(optional(optional(VarType::String)), "[none]").unwrap();
    assert!(inner_none.as_option().unwrap().unwrap().as_option().unwrap().is_none());
    let empty_text = parse(optional(VarType::String), "[]").unwrap();
    assert_eq!(empty_text.as_option().unwrap().unwrap().as_str(), Ok(String::new()));
    assert_eq!(parse(optional(VarType::Integer), "[").err(), Some(ScriptError::ParseVarError));
    assert_eq!(parse(optional(VarType::Integer), "5").err(), Some(ScriptError::ParseVarError));
    assert_eq!(parse(optional(VarType::Integer), "[x]").err(), Some(ScriptError::ParseVarError));
    assert_eq!(parse(optional(VarType::Integer), "None").err(), Some(ScriptError::ParseVarError));
}

#[test]
fn containers_and_streams_have_no_literals() {
    let parse = |t: VarType, s: &str| Variable::parse_var(t, s.to_string(), None);
    assert_eq!(
        parse(VarType::List(Box::new(VarType::Integer)), "[1, 2]").err(),
        Some(ScriptError::ParseVarError)
    );
    assert_eq!(
        parse(VarType::Mapping(Box::new(VarType::Integer), Box::new(VarType::Integer)), "{}").err(),
        Some(ScriptError::ParseVarError)
    );
    assert_eq!(parse(VarType::InStream, "cin").err(), Some(ScriptError::ParseVarError));
    assert_eq!(parse(VarType::OutStream, "cout").err(), Some(ScriptError::ParseVarError));
}

#[test]
fn float_literals_take_the_number_that_the_host_read() {
    assert_eq!(Variable::float_text(&VarType::Float, "1.5"), Some("1.5".to_string()));
    assert_eq!(Variable::float_text(&optional(VarType::Float), "[2.5]"), Some("2.5".to_string()));
    assert_eq!(
        Variable::float_text(&optional(optional(VarType::Float)), "[[x]]"),
        Some("x".to_string())
    );
    assert_eq!(Variable::float_text(&optional(VarType::Float), "none"), None);
    assert_eq!(Variable::float_text(&VarType::Integer, "1.5"), None);
    assert_eq!(Variable::float_text(&optional(VarType::Integer), "[1]"), None);
    let host = FloatValue::new(1.5f64.to_bits(), "1.5".to_string());
    let v = Variable::parse_var(VarType::Float, "1.5".to_string(), Some(host)).unwrap();
    assert_eq!(v.as_float().unwrap().bits, 1.5f64.to_bits());
    assert_eq!(v.to_string(), Ok("1.5".to_string()));
    let host = FloatValue::new(2.5f64.to_bits(), "2.5".to_string());
    let o = Variable::parse_var(optional(VarType::Float), "[2.5]".to_string(), Some(host)).unwrap();
    assert_eq!(o.to_string(), Ok("(2.5)".to_string()));
    assert_eq!(
        Variable::parse_var(VarType::Float, "oops".to_string(), None).err(),
        Some(ScriptError::ParseVarError)
    );
}

#[test]
fn rendering_of_scalars() {
    assert_eq!(Variable::from_bool(Some(true)).to_string(), Ok("true".to_string()));
    assert_eq!(Variable::from_bool(Some(false)).to_string(), Ok("false".to_string()));
    assert_eq!(text("a b").to_string(), Ok("a b".to_string()));
    assert_eq!(whole(-42).to_string(), Ok("-42".to_string()));
    assert_eq!(whole(0).to_string(), Ok("0".to_string()));
    assert_eq!(float(0.25).to_string(), Ok("0.25".to_string()));
    assert_eq!(Variable::from_char(Some(b'A')).to_string(), Ok("A".to_string()));
    assert_eq!(Variable::from_char(Some(200)).to_string(), Err(ScriptError::StringUTF8Error));
    assert_eq!(Variable::from_null().to_string(), Ok("null".to_string()));
    assert_eq!(Variable::from_in_stream(Some(0)).to_string(), Ok("IN_STREAM".to_string()));
    assert_eq!(Variable::from_out_stream(Some(0)).to_string(), Ok("OUT_STREAM".to_string()));
}

#[test]
fn rendering_of_containers() {
    assert_eq!(ints(&[]).to_string(), Ok("[]".to_string()));
    assert_eq!(ints(&[1]).to_string(), Ok("[1]".to_string()));
    assert_eq!(ints(&[1, -2, 3]).to_string(), Ok("[1, -2, 3]".to_string()));
    let nested = Variable::from_list(
        Some(vec![ints(&[1, 2]), ints(&[])]),
        VarType::List(Box::new(VarType::Integer)),
    );
    assert_eq!(nested.to_string(), Ok("[[1, 2], []]".to_string()));
    let m = Variable::from_map(
        Some(vec![(text("a"), whole(1)), (text("b"), whole(2))]),
        VarType::String,
        VarType::Integer,
    );
    assert_eq!(m.to_string(), Ok("{a: 1, b: 2}".to_string()));
    assert_eq!(
        Variable::from_map(Some(Vec::new()), VarType::String, VarType::Integer).to_string(),
        Ok("{}".to_string())
    );
    assert_eq!(
        Variable::from_optional(Some(Some(whole(5))), VarType::Integer).to_string(),
        Ok("(5)".to_string())
    );
    assert_eq!(
        Variable::from_optional(Some(None), VarType::Integer).to_string(),
        Ok("none".to_string())
    );
}

#[test]
fn lists_of_characters_render_as_text() {
    assert_eq!(chars(b"hello").to_string(), Ok("hello".to_string()));
    assert_eq!(chars(b"").to_string(), Ok(String::new()));
    assert_eq!(chars("é".as_bytes()).to_string(), Ok("é".to_string()));
    assert_eq!(chars(&[0xff, 0xfe]).to_string(), Err(ScriptError::StringUTF8Error));
    assert_eq!(chars(&[0xc3]).to_string(), Err(ScriptError::StringUTF8Error));
    let broken = Variable::from_list(
        Some(vec![Variable::from_char(Some(b'a')), Variable::from_char(None)]),
        VarType::Char,
    );
    assert_eq!(broken.to_string(), Err(ScriptError::TypeMismatchError));
}

#[test]
fn values_without_payload_have_no_rendering() {
    let e = Err(ScriptError::VarNotInitedError);
    assert_eq!(Variable::from_bool(None).to_string(), e);
    assert_eq!(Variable::from_str(None).to_string(), e);
    assert_eq!(Variable::from_int(None).to_string(), e);
    assert_eq!(Variable::from_float(None).to_string(), e);
    assert_eq!(Variable::from_char(None).to_string(), e);
    assert_eq!(Variable::from_list(None, VarType::Integer).to_string(), e);
    assert_eq!(Variable::from_map(None, VarType::Integer, VarType::Integer).to_string(), e);
    assert_eq!(Variable::from_optional(None, VarType::Integer).to_string(), e);
    assert_eq!(Variable::from_in_stream(None).to_string(), e);
    assert_eq!(Variable::from_out_stream(None).to_string(), e);
    let list = Variable::from_list(Some(vec![whole(1), Variable::from_int(None)]), VarType::Integer);
    assert_eq!(list.to_string(), e);
}

#[test]
fn scalar_round_trips_through_text() {
    for i in [0isize, 1, -1, 99, isize::MAX, isize::MIN] {
        let shown = whole(i).to_string().unwrap();
        assert_eq!(Variable::parse_var(VarType::Integer, shown, None).unwrap(), whole(i));
    }
    for b in [true, false] {
        let shown = Variable::from_bool(Some(b)).to_string().unwrap();
        assert_eq!(
            Variable::parse_var(VarType::Bool, shown, None).unwrap(),
            Variable::from_bool(Some(b))
        );
    }
    let shown = text("some text").to_string().unwrap();
    assert_eq!(Variable::parse_var(VarType::String, shown, None).unwrap(), text("some text"));
    let none = Variable::from_optional(Some(None), VarType::Integer);
    let shown = none.to_string().unwrap();
    assert_eq!(Variable::parse_var(optional(VarType::Integer), shown, None).unwrap(), none);
}

#[test]
fn equality_of_scalars() {
    assert_eq!(whole(3), whole(3));
    assert_ne!(whole(3), whole(4));
    assert_ne!(whole(3), Variable::from_int(None));
    assert_eq!(Variable::from_int(None), Variable::from_int(None));
    assert_ne!(whole(1), Variable::from_bool(Some(true)));
    assert_ne!(whole(65), Variable::from_char(Some(65)));
    assert_eq!(text("a"), text("a"));
    assert_ne!(text("a"), text("b"));
    assert_eq!(Variable::from_null(), Variable::from_null());
    assert_ne!(Variable::Null(VarType::Null), Variable::Null(VarType::Integer));
    assert_eq!(
        Variable::Integer(VarType::Integer, Some(1)),
        Variable::Integer(VarType::Char, Some(1))
    );
}

#[test]
fn equality_of_floats_is_that_of_numbers() {
    assert_eq!(float(1.5), float(1.5));
    assert_ne!(float(1.5), float(2.5));
    assert_eq!(float(0.0), float(-0.0));
    assert_ne!(float(f64::NAN), float(f64::NAN));
    assert_eq!(float(f64::INFINITY), float(f64::INFINITY));
    assert_ne!(float(f64::INFINITY), float(f64::NEG_INFINITY));
    for (a, b) in [(1.0, 1.0), (0.0, -0.0), (f64::NAN, 1.0), (f64::MIN_POSITIVE, 0.0), (-3.5, 3.5)]
    {
        let (x, y) = (FloatValue::new(f64::to_bits(a), String::new()), FloatValue::new(f64::to_bits(b), String::new()));
        assert_eq!(x.equals(&y), a == b, "{} {}", a, b);
        assert_eq!(x.is_zero(), a == 0.0);
        assert_eq!(x.is_nan(), a.is_nan());
    }
}

#[test]
fn equality_of_lists_goes_item_by_item() {
    assert_eq!(ints(&[1, 2, 3]), ints(&[1, 2, 3]));
    assert_ne!(ints(&[1, 2, 3]), ints(&[1, 3, 2]));
    assert_ne!(ints(&[1, 2]), ints(&[1, 2, 3]));
    assert_eq!(ints(&[]), ints(&[]));
    assert_ne!(ints(&[]), Variable::from_list(None, VarType::Integer));
    assert_eq!(ints(&[]), chars(&[]));
}

#[test]
fn equality_of_mappings_ignores_the_order_of_entries() {
    let a = Variable::from_map(
        Some(vec![(text("x"), whole(1)), (text("y"), whole(2)), (text("z"), whole(3))]),
        VarType::String,
        VarType::Integer,
    );
    let b = Variable::from_map(
        Some(vec![(text("z"), whole(3)), (text("x"), whole(1)), (text("y"), whole(2))]),
        VarType::String,
        VarType::Integer,
    );
    let c = Variable::from_map(
        Some(vec![(text("x"), whole(1)), (text("y"), whole(2)), (text("z"), whole(4))]),
        VarType::String,
        VarType::Integer,
    );
    let d = Variable::from_map(
        Some(vec![(text("x"), whole(1)), (text("y"), whole(2))]),
        VarType::String,
        VarType::Integer,
    );
    assert_eq!(a, b);
    assert_eq!(b, a);
    assert_ne!(a, c);
    assert_ne!(a, d);
    assert_ne!(d, a);
    assert_ne!(a, Variable::from_map(None, VarType::String, VarType::Integer));
}

#[test]
fn equality_of_optionals_and_streams() {
    let some = |i| Variable::from_optional(Some(Some(whole(i))), VarType::Integer);
    let none = Variable::from_optional(Some(None), VarType::Integer);
    assert_eq!(some(1), some(1));
    assert_ne!(some(1), some(2));
    assert_ne!(some(1), none);
    assert_eq!(none, Variable::from_optional(Some(None), VarType::String));
    assert_ne!(none, Variable::from_optional(None, VarType::Integer));
    assert_eq!(Variable::from_in_stream(Some(2)), Variable::from_in_stream(Some(2)));
    assert_ne!(Variable::from_in_stream(Some(2)), Variable::from_in_stream(Some(3)));
    assert_ne!(Variable::from_in_stream(Some(2)), Variable::from_out_stream(Some(2)));
    assert_eq!(Variable::from_out_stream(Some(0)), Variable::from_out_stream(Some(0)));
}

#[test]
fn clone_is_equal_in_every_part() {
    let m = Variable::from_map(
        Some(vec![(text("x"), ints(&[1, 2])), (text("y"), ints(&[]))]),
        VarType::String,
        VarType::List(Box::new(VarType::Integer)),
    );
    let v = Variable::from_optional(Some(Some(m)), VarType::Null);
    let c = v.clone();
    assert_eq!(c, v);
    assert_eq!(c.get_type(), v.get_type());
    assert_eq!(c.to_string(), v.to_string());
    assert_eq!(c.to_string(), Ok("({x: [1, 2], y: []})".to_string()));
}

#[test]
fn a_mapping_holds_each_key_once() {
    let m = Variable::from_map(
        Some(vec![
            (text("a"), whole(1)),
            (text("b"), whole(2)),
            (text("a"), whole(3)),
            (text("c"), whole(4)),
            (text("b"), whole(5)),
        ]),
        VarType::String,
        VarType::Integer,
    );
    assert_eq!(m.to_string(), Ok("{a: 3, b: 5, c: 4}".to_string()));
    assert_eq!(m.as_map().unwrap().len(), 3);
    let nans = Variable::from_map(
        Some(vec![(float(f64::NAN), whole(1)), (float(f64::NAN), whole(2)), (float(0.0), whole(3)), (float(-0.0), whole(4))]),
        VarType::Float,
        VarType::Integer,
    );
    assert_eq!(nans.as_map().unwrap().len(), 3);
    assert_eq!(nans.to_string(), Ok("{NaN: 1, NaN: 2, 0: 4}".to_string()));
}
