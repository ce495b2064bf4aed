use tl_fantasy::fantasy::config::Config;
use tl_fantasy::fantasy::generate::{extra_listeners, file_obj_map, type_files};
use tl_fantasy::fantasy::tdfill::{TDTypeFill, TDTypeFilter};
use tl_fantasy::fantasy::terafill::{
    case_to_camel, case_to_camel_lowercase, case_to_capitalized, case_to_dashed, case_to_snake, fill_type_components,
    find_token, is_optional, is_primitive, sub_tokens, td_arg, td_enum_item_name, td_safe_field,
};
use tl_fantasy::fantasy::tokenwrap::TokenWrap;
use tl_fantasy::strmap::StrMap;
use tl_fantasy::tl_parser::parser::TLParser;
use tl_fantasy::tl_parser::types::{TLTokenComponentType, TLTokenGroup};

const SCHEMA: &str = "double ? = Double;
//@class AuthorizationState @description Represents the current authorization state
//@description Waiting for parameters
authorizationStateWaitTdlibParameters = AuthorizationState;
//@description Closed
authorizationStateClosed = AuthorizationState;
//@description An error @code The code @message The message; may be null
error code:int32 message:string = Error;
//@description A user @id Identifier @username Username; maybenull @photos Photos
user id:int32 username:string photos:vector<vector<int53>> = User;
//@class Update @description Contains notifications about data changes
//@description The option changed @name The option name
updateOption name:string = Update;
---functions---
//@description Returns the current user
getMe = User;
";

fn tokens() -> Vec<TLTokenGroup> {
    TLParser::new("schema/td_api.tl".to_string()).parse(SCHEMA).unwrap()
}

fn mapper() -> StrMap<String> {
    let mut m = StrMap::new();
    m.insert("int32".to_string(), "i32".to_string());
    m.insert("int53".to_string(), "i64".to_string());
    m.insert("string".to_string(), "String".to_string());
    m.insert("vector".to_string(), "Vec".to_string());
    m
}

fn listeners() -> StrMap<String> {
    let mut l = StrMap::new();
    l.insert("option".to_string(), "updateOption".to_string());
    l.insert("me".to_string(), "user".to_string());
    l
}

fn plain_fill() -> TDTypeFill {
    TDTypeFill::new(mapper(), StrMap::new(), listeners())
}

fn filtered_fill() -> TDTypeFill {
    let mut fields = StrMap::new();
    fields.insert(
        "Username".to_string(),
        TDTypeFilter::new(Some("Vec<u8>".to_string()), false, Some("bytes".to_string())),
    );
    fields.insert("Id".to_string(), TDTypeFilter::new(None, true, None));
    let mut filter = StrMap::new();
    filter.insert("User".to_string(), fields);
    TDTypeFill::new(mapper(), filter, listeners())
}

fn wrap(fill: TDTypeFill) -> TokenWrap {
    TokenWrap::new(tokens(), fill)
}

fn token(w: &TokenWrap, name: &str) -> TLTokenGroup {
    w.tokens().iter().find(|t| t.name() == name).unwrap().clone()
}

#[test]
fn skip_types_are_the_builtin_ones() {
    let w = wrap(plain_fill());
    for t in ["double", "string", "int32", "int53", "int64", "bytes", "boolFalse", "boolTrue", "vector"] {
        assert!(w.is_skip_type(t.to_string()));
    }
    assert!(!w.is_skip_type("error".to_string()));
    assert!(!w.is_skip_type("Double".to_string()));
}

#[test]
fn which_file_by_kind() {
    let w = wrap(plain_fill());
    assert_eq!(w.which_file("AuthorizationState".to_string()), "authorization_state");
    assert_eq!(w.which_file("authorizationStateClosed".to_string()), "authorization_state");
    assert_eq!(w.which_file("error".to_string()), "error");
    assert_eq!(w.which_file("user".to_string()), "user");
    assert_eq!(w.which_file("updateOption".to_string()), "update");
    assert_eq!(w.which_file("getMe".to_string()), "functions");
    assert_eq!(w.which_file("double".to_string()), "double");
}

#[test]
fn optional_args_from_descriptions() {
    let w = wrap(plain_fill());
    let user = token(&w, "user");
    let args = user.arguments();
    assert!(!w.is_optional_arg(&user, &args[0]));
    assert!(w.is_optional_arg(&user, &args[1]));
    let error = token(&w, "error");
    let eargs = error.arguments();
    assert!(!w.is_optional_arg(&error, &eargs[0]));
    assert!(w.is_optional_arg(&error, &eargs[1]));
}

#[test]
fn optional_args_from_overrides() {
    let w = wrap(filtered_fill());
    let user = token(&w, "user");
    let args = user.arguments();
    assert!(w.is_optional_arg(&user, &args[0]));
    assert!(!w.is_optional_arg(&user, &args[1]));
}

#[test]
fn td_filter_ignores_case() {
    let fill = filtered_fill();
    let a = fill.td_filter("user", "username").unwrap();
    let b = fill.td_filter("USER", "UserName").unwrap();
    assert_eq!(a.sign_type(), Some("Vec<u8>".to_string()));
    assert_eq!(b.sign_type(), a.sign_type());
    assert_eq!(a.optional(), false);
    assert_eq!(a.reason(), Some("bytes".to_string()));
    assert!(fill.td_filter("chat", "username").is_none());
    assert!(fill.td_filter("user", "name").is_none());
    assert_eq!(fill.td_filter_type("user", "username", "String"), "Vec<u8>");
    assert_eq!(fill.td_filter_type("user", "id", "i32"), "i32");
    assert_eq!(fill.td_filter_type("chat", "id", "i64"), "i64");
}

#[test]
fn mapper_is_exact() {
    let fill = plain_fill();
    assert_eq!(fill.mapper("int32"), Some("i32".to_string()));
    assert_eq!(fill.mapper("Int32"), None);
    assert_eq!(fill.listener().len(), 2);
}

#[test]
fn td_arg_types() {
    let w = wrap(plain_fill());
    let user = token(&w, "user");
    let args = user.arguments();
    assert_eq!(td_arg(&w, &user, &args[0], false), "i32");
    assert_eq!(td_arg(&w, &user, &args[1], false), "Option<String>");
    assert_eq!(td_arg(&w, &user, &args[1], true), "String");
    assert_eq!(td_arg(&w, &user, &args[2], false), "Vec<Vec<i64>>");
}

#[test]
fn td_arg_with_overrides() {
    let w = wrap(filtered_fill());
    let user = token(&w, "user");
    let args = user.arguments();
    assert_eq!(td_arg(&w, &user, &args[0], false), "Option<i32>");
    assert_eq!(td_arg(&w, &user, &args[1], false), "Vec<u8>");
}

#[test]
fn td_arg_unmapped_type_is_camel_case() {
    let w = TokenWrap::new(tokens(), TDTypeFill::new(StrMap::new(), StrMap::new(), StrMap::new()));
    let user = token(&w, "user");
    let args = user.arguments();
    assert_eq!(td_arg(&w, &user, &args[0], false), "Int32");
    assert_eq!(td_arg(&w, &user, &args[2], false), "Vector<Vector<Int53>>");
}

#[test]
fn optional_arg_type_is_optional() {
    let w = wrap(plain_fill());
    let user = token(&w, "user");
    let args = user.arguments();
    assert!(w.is_optional_arg(&user, &args[1]));
    assert!(is_optional(&td_arg(&w, &user, &args[1], false)));
    assert!(!is_optional(&td_arg(&w, &user, &args[0], false)));
}

#[test]
fn components_text() {
    let fill = plain_fill();
    let inner = TLTokenComponentType::new("int32".to_string(), vec![]);
    let outer = TLTokenComponentType::new("vector".to_string(), vec![inner]);
    let other = TLTokenComponentType::new("fooBar".to_string(), vec![]);
    assert_eq!(fill_type_components(&vec![outer, other], &fill), "<Vec<i32>>, <FooBar>");
    assert_eq!(fill_type_components(&vec![], &fill), "");
}

#[test]
fn sub_tokens_of_a_trait() {
    let w = wrap(plain_fill());
    let subs: Vec<String> = sub_tokens(&w, &token(&w, "AuthorizationState")).iter().map(|t| t.name()).collect();
    assert_eq!(subs, vec!["authorizationStateWaitTdlibParameters".to_string(), "authorizationStateClosed".to_string()]);
    let updates: Vec<String> = sub_tokens(&w, &token(&w, "Update")).iter().map(|t| t.name()).collect();
    assert_eq!(updates, vec!["updateOption".to_string()]);
    assert!(sub_tokens(&w, &token(&w, "getMe")).is_empty());
}

#[test]
fn find_token_ignores_case() {
    let w = wrap(plain_fill());
    assert_eq!(find_token(&w, "ERROR").map(|t| t.name()), Some("error".to_string()));
    assert_eq!(find_token(&w, "updateoption").map(|t| t.name()), Some("updateOption".to_string()));
    assert!(find_token(&w, "nothing").is_none());
}

#[test]
fn primitive_types() {
    for t in ["i8", "i16", "i32", "i64", "i128", "isize", "u8", "u16", "u32", "u64", "u128", "usize", "f32", "f64", "bool"] {
        assert!(is_primitive(t));
    }
    assert!(!is_primitive("String"));
    assert!(!is_primitive("Option<i32>"));
    assert!(!is_primitive(""));
}

#[test]
fn optional_types() {
    assert!(is_optional("Option<i32>"));
    assert!(!is_optional("Vec<Option<i32>>"));
    assert!(!is_optional("Option"));
}

#[test]
fn safe_field_names() {
    assert_eq!(td_safe_field("type"), "type_");
    assert_eq!(td_safe_field("chat_id"), "chat_id");
    assert_eq!(td_safe_field("userId"), "user_id");
}

#[test]
fn enum_item_names() {
    let w = wrap(plain_fill());
    let t = token(&w, "AuthorizationState");
    assert_eq!(td_enum_item_name(&t, "authorizationStateClosed"), "Closed");
    assert_eq!(td_enum_item_name(&t, "authorizationStateWaitTdlibParameters"), "WaitTdlibParameters");
    assert_eq!(td_enum_item_name(&t, "authorizationStates"), "AuthorizationStates");
}

#[test]
fn case_filters() {
    assert_eq!(case_to_snake("martinLutherStringJr"), "martin_luther_string_jr");
    assert_eq!(case_to_snake("WildUnderscoreS"), "wild_underscore_s");
    assert_eq!(case_to_camel("a_string_and_a_miss"), "AStringAndAMiss");
    assert_eq!(case_to_camel("_wild__underscore_s_"), "WildUnderscoreS");
    assert_eq!(case_to_camel_lowercase("string_henry_iii"), "stringHenryIii");
    assert_eq!(case_to_dashed("stringing_in_the_rain"), "stringing-in-the-rain");
    assert_eq!(case_to_capitalized("stringy string"), "Stringy string");
    assert_eq!(case_to_capitalized(""), "");
}

#[test]
fn file_map_groups_types_by_file() {
    let w = wrap(plain_fill());
    let m = file_obj_map(&w);
    let keys: Vec<String> = (0..m.len()).map(|i| m.key_at(i).clone()).collect();
    assert_eq!(keys, vec!["authorization_state", "error", "user", "update", "functions"]);
    let names = |k: &str| -> Vec<String> { m.get(k).unwrap().iter().map(|t| t.name()).collect() };
    assert_eq!(
        names("authorization_state"),
        vec!["AuthorizationState", "authorizationStateWaitTdlibParameters", "authorizationStateClosed"]
    );
    assert_eq!(names("update"), vec!["Update", "updateOption"]);
    assert_eq!(names("functions"), vec!["getMe"]);
    assert!(m.get("double").is_none());
}

#[test]
fn every_type_listed_under_its_file() {
    let w = wrap(plain_fill());
    let m = file_obj_map(&w);
    for t in w.tokens() {
        if w.is_skip_type(t.name()) {
            continue;
        }
        let f = w.which_file(t.name());
        assert!(m.get(&f).unwrap().iter().any(|x| x.name() == t.name()));
    }
}

#[test]
fn type_files_in_order() {
    let w = wrap(plain_fill());
    let files: Vec<(String, String)> = type_files(&w).into_iter().map(|(f, t)| (f, t.name())).collect();
    let expected: Vec<(String, String)> = vec![
        ("authorization_state", "AuthorizationState"),
        ("authorization_state", "authorizationStateWaitTdlibParameters"),
        ("authorization_state", "authorizationStateClosed"),
        ("error", "error"),
        ("user", "user"),
        ("update", "Update"),
        ("update", "updateOption"),
        ("functions", "getMe"),
    ]
    .into_iter()
    .map(|(a, b)| (a.to_string(), b.to_string()))
    .collect();
    assert_eq!(files, expected);
}

#[test]
fn extra_listeners_skip_update_types() {
    let w = wrap(plain_fill());
    assert_eq!(extra_listeners(&w), vec![("me".to_string(), "user".to_string())]);
}

#[test]
fn config_paths() {
    let c = Config::new(
        "../rtdlib".to_string(),
        "../telegram-client".to_string(),
        "schema/td_api.tl".to_string(),
        "template".to_string(),
    );
    assert_eq!(c.path_rtd(), "../rtdlib");
    assert_eq!(c.path_telegram_client(), "../telegram-client");
    assert_eq!(c.file_tl(), "schema/td_api.tl");
    assert_eq!(c.path_template(), "template");
}

#[test]
fn str_map_insert_get_remove() {
    let mut m: StrMap<i32> = StrMap::new();
    m.insert("a".to_string(), 1);
    m.insert("b".to_string(), 2);
    m.insert("a".to_string(), 3);
    assert_eq!(m.len(), 2);
    assert_eq!(m.get("a"), Some(&3));
    assert_eq!(m.get("b"), Some(&2));
    assert_eq!(m.key_at(0), "a");
    m.remove("a");
    assert_eq!(m.get("a"), None);
    assert_eq!(m.get("b"), Some(&2));
    assert_eq!(m.find("b"), Some(0));
    m.remove("zzz");
    assert_eq!(m.len(), 1);
}
