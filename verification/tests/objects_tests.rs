use kya::errors::Error;
use kya::objects::base::{ready, TypeSlots};
use kya::objects::function_object::bind_arguments;
use kya::objects::instance_object::{get_attr, init_action, InitAction};
use kya::objects::methods::{method_of, Method, ObjectKind};
use kya::objects::hash_object::hash_tp_repr;
use kya::objects::list_object::{list_at, list_slice, list_tp_repr};
use kya::objects::string_object::{string_char_at, string_length, string_split, string_substr};
use kya::objects::utils::parse_arg;

#[test]
fn test_string_length() {
    let length = string_length("Hello, World!");
    assert_eq!(length as f64, 13.0);
}

#[test]
fn test_string_char_at() {
    let char_at = string_char_at("Hello, World!", 7);
    assert!(char_at.is_ok());
    assert_eq!(char_at.unwrap(), "W");
}

#[test]
fn test_string_split() {
    let split_result = string_split("Hello, World!", ", ");
    assert_eq!(split_result.len(), 2);
    assert_eq!(split_result, vec!["Hello".to_string(), "World!".to_string()]);
}

#[test]
fn test_string_substr() {
    let substr_result = string_substr("Hello, World!", 7, 12);
    assert!(substr_result.is_ok());
    assert_eq!(substr_result.unwrap(), "World");
}

#[test]
fn test_list_at() {
    let list = vec![42.0f64, 43.0];
    let item = list_at(&list, 0).unwrap();
    assert_eq!(*item, 42.0);
}

#[test]
fn string_length_counts_bytes() {
    assert_eq!(string_length(""), 0);
    assert_eq!(string_length("héllo"), 6);
}

#[test]
fn char_at_past_the_end_is_an_error() {
    assert_eq!(
        string_char_at("abc", 3),
        Err(Error::RuntimeError("Index out of bounds: 3 for string of length 3".to_string()))
    );
    assert_eq!(string_char_at("abc", 0).unwrap(), "a");
    assert_eq!(string_char_at("abc", 2).unwrap(), "c");
}

#[test]
fn substr_range_checks() {
    assert_eq!(string_substr("abc", 0, 3).unwrap(), "abc");
    assert_eq!(string_substr("abc", 2, 2).unwrap(), "");
    assert_eq!(
        string_substr("abc", 2, 1),
        Err(Error::RuntimeError("Invalid substring range: 2 to 1 for string of length 3".to_string()))
    );
    assert_eq!(
        string_substr("abc", 1, 4),
        Err(Error::RuntimeError("Invalid substring range: 1 to 4 for string of length 3".to_string()))
    );
    assert_eq!(string_substr("héllo", 1, 3).unwrap(), "é");
}

#[test]
fn split_agrees_with_str_split() {
    let cases: Vec<(&str, &str)> = vec![
        ("a,b,,c", ","),
        (",a,", ","),
        ("", ","),
        ("abc", ""),
        ("", ""),
        ("aaaa", "aa"),
        ("aaa", "aa"),
        ("no separator here", "::"),
        ("héllo wörld", "ö"),
        ("x--y--", "--"),
    ];
    for (text, sep) in cases {
        let expected: Vec<String> = text.split(sep).map(|p| p.to_string()).collect();
        assert_eq!(string_split(text, sep), expected, "splitting {:?} by {:?}", text, sep);
    }
}

#[test]
fn split_then_join_gives_the_text_back() {
    let cases: Vec<(&str, &str)> = vec![("a,b,,c", ","), ("Hello, World!", ", "), ("abc", ""), ("aaa", "aa")];
    for (text, sep) in cases {
        assert_eq!(string_split(text, sep).join(sep), text);
    }
}

#[test]
fn split_pieces_hold_no_separator() {
    let cases: Vec<(&str, &str)> = vec![("a,b,,c", ","), ("aaaa", "aa"), ("aaa", "aa"), ("x--y--", "--")];
    for (text, sep) in cases {
        for piece in string_split(text, sep) {
            assert!(!piece.contains(sep), "{:?} holds {:?}", piece, sep);
        }
    }
}

#[test]
fn list_repr_joins_items() {
    assert_eq!(list_tp_repr(&vec![]), "[]");
    assert_eq!(list_tp_repr(&vec!["1".to_string()]), "[1]");
    assert_eq!(list_tp_repr(&vec!["1".to_string(), "a".to_string(), "true".to_string()]), "[1, a, true]");
}

#[test]
fn hash_repr_joins_entries() {
    assert_eq!(hash_tp_repr(&vec![]), "{}");
    assert_eq!(
        hash_tp_repr(&vec![("a".to_string(), "1".to_string()), ("b".to_string(), "2".to_string())]),
        "{a: 1, b: 2}"
    );
}

#[test]
fn list_at_past_the_end_is_an_error() {
    let list = vec![1, 2];
    assert_eq!(list_at(&list, 1), Ok(&2));
    assert_eq!(list_at(&list, 2), Err(Error::RuntimeError("Index out of range: 2".to_string())));
}

#[test]
fn list_slice_copies_the_range() {
    let list = vec![10, 20, 30, 40];
    assert_eq!(list_slice(&list, 1, 3), Ok(vec![20, 30]));
    assert_eq!(list_slice(&list, 0, 4), Ok(vec![10, 20, 30, 40]));
    assert_eq!(list_slice(&list, 2, 2), Ok(vec![]));
    assert_eq!(
        list_slice(&list, 4, 4),
        Err(Error::RuntimeError("Slice indices out of range: 4 to 4".to_string()))
    );
    assert_eq!(
        list_slice(&list, 1, 5),
        Err(Error::RuntimeError("Slice indices out of range: 1 to 5".to_string()))
    );
}

#[test]
fn parse_arg_checks_the_count() {
    let args = vec!["x", "y"];
    assert_eq!(parse_arg(&args, 1, 2), Ok(&"y"));
    assert_eq!(
        parse_arg(&args, 2, 2),
        Err(Error::RuntimeError("Expected 2 arguments, but got 2".to_string()))
    );
    assert_eq!(
        parse_arg(&args, 2, 3),
        Err(Error::RuntimeError("Argument at index 2 not found".to_string()))
    );
}

#[test]
fn arguments_are_bound_after_the_receiver() {
    let params = vec!["a".to_string(), "b".to_string()];
    let bound = bind_arguments("f", &params, vec![1, 2], Some(0)).unwrap();
    assert_eq!(
        bound,
        vec![("self".to_string(), 0), ("a".to_string(), 1), ("b".to_string(), 2)]
    );
    let bound = bind_arguments("f", &params, vec![1, 2], None).unwrap();
    assert_eq!(bound, vec![("a".to_string(), 1), ("b".to_string(), 2)]);
    assert_eq!(
        bind_arguments("greet", &params, vec![1], None),
        Err(Error::RuntimeError("Function 'greet' expects 2 arguments, but got 1".to_string()))
    );
}

#[test]
fn instances_are_initialised_by_their_constructor() {
    assert_eq!(init_action(true, "Instance", 3), Ok(InitAction::CallConstructor));
    assert_eq!(init_action(false, "Instance", 0), Ok(InitAction::ReturnInstance));
    assert_eq!(
        init_action(false, "Instance", 2),
        Err(Error::RuntimeError("The object 'Instance' takes no arguments, but 2 were given".to_string()))
    );
}

#[test]
fn attributes_are_looked_up_along_the_chain() {
    let own = vec![("x".to_string(), 1)];
    let class = vec![("x".to_string(), 2), ("m".to_string(), 3)];
    let chain = vec![own, class];
    assert_eq!(get_attr(&chain, "x", "Instance"), Ok(1));
    assert_eq!(get_attr(&chain, "m", "Instance"), Ok(3));
    assert_eq!(
        get_attr(&chain, "y", "Instance"),
        Err(Error::RuntimeError("The object 'Instance' has no attribute 'y'".to_string()))
    );
}

fn slots(v: Option<u8>) -> TypeSlots<u8> {
    TypeSlots {
        tp_repr: v,
        tp_call: None,
        tp_new: v,
        tp_init: None,
        tp_get_attr: v,
        tp_set_attr: None,
        nb_bool: v,
        sq_len: None,
        tp_compare: v,
        tp_hash: None,
    }
}

#[test]
fn ready_takes_the_missing_slots_from_the_parent() {
    let mut parent = slots(Some(9));
    parent.tp_call = Some(7);
    let r = ready(slots(Some(1)), Some(parent)).ok().unwrap();
    assert_eq!(r.tp_repr, Some(1));
    assert_eq!(r.tp_call, Some(7));
    assert_eq!(r.tp_init, None);
    assert_eq!(r.tp_compare, Some(1));
    assert!(matches!(ready(slots(None), None), Err(Error::RuntimeError(m)) if m == "Type has no parent"));
}

#[test]
fn method_tables_name_the_methods_of_each_kind() {
    assert_eq!(method_of(ObjectKind::List, "append"), Some(Method::ListAppend));
    assert_eq!(method_of(ObjectKind::List, "at"), Some(Method::ListAt));
    assert_eq!(method_of(ObjectKind::List, "slice"), None);
    assert_eq!(method_of(ObjectKind::Str, "length"), Some(Method::StringLength));
    assert_eq!(method_of(ObjectKind::Str, "split"), Some(Method::StringSplit));
    assert_eq!(method_of(ObjectKind::Str, "append"), None);
    assert_eq!(method_of(ObjectKind::Bytes, "decode"), Some(Method::BytesDecode));
    assert_eq!(method_of(ObjectKind::Connection, "recv"), Some(Method::ConnectionRecv));
    assert_eq!(method_of(ObjectKind::Lock, "release"), Some(Method::LockRelease));
    assert_eq!(method_of(ObjectKind::Thread, "join"), Some(Method::ThreadJoin));
    assert_eq!(method_of(ObjectKind::Socket, "bind"), Some(Method::SocketBind));
}
