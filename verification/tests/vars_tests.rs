use libhupa::Error;
use libhupa::Var;
use libhupa::VarsHandler;

fn set_of_var() -> Vec<Var> {
    vec![("Hello", true), ("World", true), ("he", false), ("yo", false)]
        .into_iter()
        .map(|s| (s.0.to_string(), s.1))
        .collect()
}

fn vars_string() -> String {
    let mut buf = String::new();
    for var in set_of_var() {
        buf.push_str(&format!("{}={}\n", var.0, var.1));
    }
    buf
}

#[test]
fn read_from_buf() {
    let handler = VarsHandler::read_from_buf(&vars_string()).unwrap();
    let expected = set_of_var();
    assert_eq!(handler.len(), expected.len());
    for (i, var) in expected.iter().enumerate() {
        assert_eq!(handler.get(i), var);
    }
}

#[test]
fn read_from_buf_err() {
    let s = "hello\nhello=true";
    let handler = VarsHandler::read_from_buf(s);
    assert!(matches!(handler, Err(Error::MissingValue(n)) if n == "hello"));
}

#[test]
fn read_from_buf_bad_value() {
    let s = "hello=maybe";
    let handler = VarsHandler::read_from_buf(s);
    assert!(matches!(handler, Err(Error::InvalidValue(v)) if v == "maybe"));
}

#[test]
fn read_from_buf_mixed_case_and_blanks() {
    let s = "a=True\n\n  b=FALSE  \n";
    let handler = VarsHandler::read_from_buf(s).unwrap();
    assert_eq!(handler.len(), 2);
    assert_eq!(handler.get_var("a"), Some(true));
    assert_eq!(handler.get_var("b"), Some(false));
}

#[test]
fn write_to_stream() {
    let handler = VarsHandler::new(set_of_var());
    let mut buf = String::new();
    handler.write_to_string(&mut buf);
    assert_eq!(buf, vars_string());
}

#[test]
fn is_present_test() {
    let handler = VarsHandler::new(set_of_var());
    assert!(handler.is_present("Hello"));
    assert!(!handler.is_present("hello"));
}

#[test]
fn get_var_test() {
    let handler = VarsHandler::new(set_of_var());
    assert_eq!(handler.get_var("Hello"), Some(true));
    assert_eq!(handler.get_var("hello"), None);
    assert_eq!(handler.get_var("he"), Some(false));
}

#[test]
fn set_var_test() {
    let mut handler = VarsHandler::new(set_of_var());
    handler.set_var("Hello", false);
    assert_eq!(handler.get_var("Hello"), Some(false));
    handler.set_var("Hello", true);
    assert_eq!(handler.get_var("Hello"), Some(true));
}

#[test]
fn add_and_remove_var() {
    let mut handler = VarsHandler::new(Vec::new());
    handler.add_var(("has_gpg".to_string(), true));
    assert_eq!(handler.len(), 1);
    let removed = handler.remove_var("has_gpg");
    assert_eq!(removed, Some(("has_gpg".to_string(), true)));
    assert_eq!(handler.len(), 0);
    assert_eq!(handler.remove_var("has_gpg"), None);
}

#[test]
fn vars_write_read_round_trip() {
    let handler = VarsHandler::new(set_of_var());
    let mut text = String::new();
    handler.write_to_string(&mut text);
    let back = VarsHandler::read_from_buf(&text).unwrap();
    assert_eq!(back.len(), handler.len());
    for i in 0..handler.len() {
        assert_eq!(back.get(i), handler.get(i));
    }
}

#[test]
fn check_empty_requirement_passes() {
    let handler = VarsHandler::new(Vec::new());
    assert!(handler.check(&Vec::new()).is_ok());
}

#[test]
fn check_reports_first_unmet_flag() {
    let mut handler = VarsHandler::new(Vec::new());
    handler.add_var(("a".to_string(), true));
    handler.add_var(("b".to_string(), false));
    let ok = handler.check(&vec!["a".to_string()]);
    assert!(ok.is_ok());
    let disabled = handler.check(&vec!["a".to_string(), "b".to_string()]);
    assert!(matches!(disabled, Err(Error::MissingRequiredFlag(n)) if n == "b"));
    let absent = handler.check(&vec!["c".to_string(), "b".to_string()]);
    assert!(matches!(absent, Err(Error::MissingRequiredFlag(n)) if n == "c"));
}
