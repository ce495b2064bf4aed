use tl_fantasy::tl_parser::errors::TLError;
use tl_fantasy::tl_parser::group_parser::parse;
use tl_fantasy::tl_parser::parser::TLParser;
use tl_fantasy::tl_parser::tl::token_group;
use tl_fantasy::tl_parser::types::{TLGrammar, TLGroupLineToken, TLParagraph, TLTextToken, TLTokenGroup, TLTokenGroupType};

const SCHEMA: &str = "double ? = Double;
string ? = String;

//@class AuthorizationState @description Represents the current authorization state of the client

//@description TDLib needs TdlibParameters for initialization
authorizationStateWaitTdlibParameters = AuthorizationState;

//@description An object of this type can be returned on every function call, in case of an error
//@code Error code; subject to future changes
//@message Error message; subject to future changes
error code:int32 message:string = Error;

//@description Contains a list of chats @total_count Approximate total count of chats found @chat_ids List of chat identifiers
chats total_count:int32 chat_ids:vector<int53> = Chats;

vector {t:Type} # [ t ] = Vector t;

---functions---

//@description Returns the current user
getMe = User;

//@description Does nothing and ensures that the Error object is used; for testing only. This is an offline method. Can be called before authorization
testUseError = Error;
";

fn tokens() -> Result<Vec<TLTokenGroup>, TLError> {
    TLParser::new("schema/td_api.tl".to_string()).parse(SCHEMA)
}

#[test]
fn test_td() {
    let tl = tokens();
    assert!(tl.is_ok());
    let tokens = tl.unwrap();
    let len = tokens.len();
    assert!(len > 0);
    for (ix, token) in tokens.iter().enumerate() {
        match ix {
            0 => {
                assert_eq!(token.name(), "double".to_string());
                assert_eq!(token.blood(), Some("Double".to_string()));
            }
            1 => {
                assert_eq!(token.name(), "string".to_string());
                assert_eq!(token.blood(), Some("String".to_string()));
            }
            8 => {
                assert_eq!(token.name(), "testUseError".to_string());
                assert_eq!(token.blood(), Some("Error".to_string()));
            }
            _ => {}
        }
    }
}

#[test]
fn one_token_per_group() {
    let grammars = parse(SCHEMA).unwrap();
    let groups = grammars.iter().filter(|g| g.is_group()).count();
    let paragraphs = grammars.iter().filter(|g| g.is_paragraph()).count();
    assert_eq!(groups, 9);
    assert_eq!(paragraphs, 1);
    let tokens = token_group(&grammars).unwrap();
    assert_eq!(tokens.len(), groups);
}

#[test]
fn kinds_before_and_after_functions() {
    let tokens = tokens().unwrap();
    let kinds: Vec<TLTokenGroupType> = tokens.iter().map(|t| t.type_()).collect();
    assert_eq!(
        kinds,
        vec![
            TLTokenGroupType::Struct,
            TLTokenGroupType::Struct,
            TLTokenGroupType::Trait,
            TLTokenGroupType::Struct,
            TLTokenGroupType::Struct,
            TLTokenGroupType::Struct,
            TLTokenGroupType::Struct,
            TLTokenGroupType::Function,
            TLTokenGroupType::Function,
        ]
    );
}

#[test]
fn trait_token_from_class_line() {
    let tokens = tokens().unwrap();
    let t = &tokens[2];
    assert_eq!(t.name(), "AuthorizationState");
    assert_eq!(t.blood(), None);
    assert_eq!(t.description(), Some("Represents the current authorization state of the client".to_string()));
    assert!(t.arguments().is_empty());
    let all = t.description_all().unwrap();
    assert_eq!(all.get("class"), Some(&"AuthorizationState".to_string()));
}

#[test]
fn arguments_get_their_descriptions() {
    let tokens = tokens().unwrap();
    let error = &tokens[4];
    assert_eq!(error.name(), "error");
    assert_eq!(error.blood(), Some("Error".to_string()));
    assert_eq!(
        error.description(),
        Some("An object of this type can be returned on every function call, in case of an error".to_string())
    );
    let args = error.arguments();
    assert_eq!(args.len(), 2);
    assert_eq!(args[0].sign_name(), "code");
    assert_eq!(args[0].sign_type(), "int32");
    assert_eq!(args[0].description(), Some("Error code; subject to future changes".to_string()));
    assert_eq!(args[1].sign_name(), "message");
    assert_eq!(args[1].sign_type(), "string");
    assert_eq!(args[1].description(), Some("Error message; subject to future changes".to_string()));
}

#[test]
fn generic_argument_components() {
    let tokens = tokens().unwrap();
    let chats = &tokens[5];
    let args = chats.arguments();
    assert_eq!(args[1].sign_name(), "chat_ids");
    assert_eq!(args[1].sign_type(), "vector");
    let comps = args[1].components();
    assert_eq!(comps.len(), 1);
    assert_eq!(comps[0].sign_type(), "int53");
    assert!(comps[0].components().is_empty());
    assert_eq!(args[1].description(), Some("List of chat identifiers".to_string()));
    assert_eq!(args[0].description(), Some("Approximate total count of chats found".to_string()));
}

#[test]
fn nested_generic_components() {
    let schema = "matrix rows:vector<vector<int32>> = Matrix;";
    let tokens = TLParser::new("m.tl".to_string()).parse(schema).unwrap();
    let args = tokens[0].arguments();
    assert_eq!(args[0].sign_type(), "vector");
    let outer = args[0].components();
    assert_eq!(outer.len(), 1);
    assert_eq!(outer[0].sign_type(), "vector");
    let inner = outer[0].components();
    assert_eq!(inner.len(), 1);
    assert_eq!(inner[0].sign_type(), "int32");
}

#[test]
fn braced_type_parameter() {
    let tokens = tokens().unwrap();
    let vector = &tokens[6];
    assert_eq!(vector.name(), "vector");
    assert_eq!(vector.blood(), Some("Vector t".to_string()));
    let args = vector.arguments();
    assert_eq!(args.len(), 1);
    assert_eq!(args[0].sign_name(), "t");
    assert_eq!(args[0].sign_type(), "Type");
}

#[test]
fn question_mark_stops_arguments() {
    let tokens = tokens().unwrap();
    assert!(tokens[0].arguments().is_empty());
    assert_eq!(tokens[0].description(), None);
    assert!(tokens[0].description_all().is_none());
}

#[test]
fn grammar_items_and_lines() {
    let grammars = parse(SCHEMA).unwrap();
    assert_eq!(grammars[0].token(), TLTextToken::Group);
    let first = grammars[0].to_group().unwrap();
    assert_eq!(first.start, 1);
    assert_eq!(first.end, 1);
    assert_eq!(first.lines.len(), 1);
    assert_eq!(first.lines[0].token, TLGroupLineToken::Struct);
    assert_eq!(first.lines[0].text, "double ? = Double");
    let class = grammars[2].to_group().unwrap();
    assert_eq!(class.lines[0].token, TLGroupLineToken::Trait);
    assert_eq!(class.start, 4);
    let error = grammars[4].to_group().unwrap();
    assert_eq!(error.start, 9);
    assert_eq!(error.end, 12);
    assert_eq!(error.lines.len(), 4);
    assert_eq!(error.lines[0].token, TLGroupLineToken::Description);
    assert_eq!(error.lines[0].text, "@description An object of this type can be returned on every function call, in case of an error");
    let paragraph = grammars.iter().find(|g| g.is_paragraph()).unwrap();
    assert_eq!(paragraph.token(), TLTextToken::Paragraph);
    match paragraph.to_paragraph().unwrap() {
        TLParagraph::Functions { start, end } => {
            assert_eq!(start, 19);
            assert_eq!(end, 19);
        }
    }
    assert!(paragraph.to_group().is_none());
}

#[test]
fn on_group_and_on_paragraph_call_back() {
    let grammars = parse(SCHEMA).unwrap();
    let mut seen_group = false;
    grammars[0].on_group(|g| seen_group = g.lines.len() == 1);
    assert!(seen_group);
    let mut seen_paragraph = false;
    grammars[0].on_paragraph(|_| seen_paragraph = true);
    assert!(!seen_paragraph);
}

#[test]
fn empty_schema_is_refused() {
    assert!(matches!(parse(""), Err(TLError::EmptySchema)));
    assert!(matches!(TLParser::new("e.tl".to_string()).parse(""), Err(TLError::EmptySchema)));
}

#[test]
fn unknown_paragraph_is_refused() {
    let res = parse("a = A;\n---types---\nb = B;");
    match res {
        Err(TLError::UnsupportParagraph { line, text }) => {
            assert_eq!(line, 2);
            assert_eq!(text, "---types---");
        }
        _ => panic!("expected an unsupported paragraph"),
    }
}

#[test]
fn paragraph_name_ignores_case_and_dashes() {
    let grammars = parse("---Functions---\ngetMe = User;").unwrap();
    assert!(grammars[0].is_paragraph());
    let tokens = token_group(&grammars).unwrap();
    assert_eq!(tokens[0].type_(), TLTokenGroupType::Function);
}

#[test]
fn argument_without_colon_is_a_syntax_error() {
    let res = TLParser::new("s.tl".to_string()).parse("\nfoo bar = Baz;");
    match res {
        Err(TLError::Syntax { line, text }) => {
            assert_eq!(line, 2);
            assert_eq!(text, "foo bar = Baz");
        }
        _ => panic!("expected a syntax error"),
    }
}

#[test]
fn argument_with_two_colons_is_a_syntax_error() {
    let res = TLParser::new("s.tl".to_string()).parse("foo a:b:c = Baz;");
    assert!(matches!(res, Err(TLError::Syntax { line: 1, .. })));
}

#[test]
fn unclosed_brace_is_a_syntax_error() {
    let res = TLParser::new("s.tl".to_string()).parse("vector {t:Type} {u:Type = Vector t;");
    assert!(matches!(res, Err(TLError::Syntax { line: 1, .. })));
}

#[test]
fn class_without_description_is_a_syntax_error() {
    let res = TLParser::new("s.tl".to_string()).parse("//@class Foo @other x");
    assert!(matches!(res, Err(TLError::Syntax { line: 1, .. })));
}

#[test]
fn parser_keeps_its_path() {
    let p = TLParser::new("schema/td_api.tl".to_string());
    assert_eq!(p.path(), "schema/td_api.tl");
}

#[test]
fn trailing_descriptions_are_dropped() {
    let grammars = parse("a = A;\n//@description dangling").unwrap();
    assert_eq!(grammars.len(), 1);
}

#[test]
fn description_words_with_leading_dash_lose_it() {
    let tokens = TLParser::new("d.tl".to_string()).parse("//@description a -b c\nx = X;").unwrap();
    assert_eq!(tokens[0].description(), Some("a b c".to_string()));
}

#[test]
fn schemas_the_parser_does_not_take() {
    let p = TLParser::new("p.tl".to_string());
    assert!(p.handles(SCHEMA));
    assert!(!p.handles("// plain comment\nfoo = Foo;"));
    assert!(p.try_parse("// plain comment\nfoo = Foo;").is_none());
    assert!(!p.handles("foo a:vector< = Foo;"));
    assert!(p.try_parse("foo a:vector< = Foo;").is_none());
    assert!(p.handles(""));
    assert!(matches!(p.try_parse(""), Some(Err(TLError::EmptySchema))));
}

#[test]
fn syntax_error_before_unhandled_input() {
    let p = TLParser::new("p.tl".to_string());
    let schema = "foo bar = Baz;\n// plain comment\ny a:vector< = Y;";
    assert!(p.handles(schema));
    assert!(matches!(p.try_parse(schema), Some(Err(TLError::Syntax { line: 1, .. }))));
}

#[test]
fn try_parse_gives_the_tokens() {
    let p = TLParser::new("p.tl".to_string());
    let tokens = p.try_parse(SCHEMA).unwrap().unwrap();
    assert_eq!(tokens.len(), 9);
    assert_eq!(tokens[7].name(), "getMe");
}

#[test]
fn class_tokens_have_no_super_type() {
    for t in tokens().unwrap() {
        assert_eq!(t.type_() == TLTokenGroupType::Trait, t.blood().is_none());
    }
}

#[test]
fn descriptions_come_from_the_map() {
    for t in tokens().unwrap() {
        let all = t.description_all();
        assert_eq!(t.description(), all.as_ref().and_then(|m| m.get("description").cloned()));
        for a in t.arguments() {
            assert_eq!(a.description(), all.as_ref().and_then(|m| m.get(&a.sign_name()).cloned()));
        }
    }
}

#[test]
fn paragraphs_come_from_dash_lines() {
    let grammars = parse(SCHEMA).unwrap();
    let lines: Vec<&str> = SCHEMA.split('\n').collect();
    for g in &grammars {
        assert_eq!(g.is_paragraph(), !g.is_group());
        if let Some(TLParagraph::Functions { start, end }) = g.to_paragraph() {
            assert_eq!(start, end);
            assert!(lines[(start - 1) as usize].starts_with("---"));
        }
    }
    let dash_lines = lines.iter().filter(|l| l.starts_with("---")).count();
    assert_eq!(grammars.iter().filter(|g| g.is_paragraph()).count(), dash_lines);
}

#[test]
fn super_type_is_the_words_after_equals() {
    let grammars = parse(SCHEMA).unwrap();
    let tokens = token_group(&grammars).unwrap();
    let groups: Vec<_> = grammars.iter().filter_map(|g| g.to_group()).collect();
    for (t, g) in tokens.iter().zip(groups.iter()) {
        if t.type_() == TLTokenGroupType::Trait {
            continue;
        }
        let last = &g.lines[g.lines.len() - 1].text;
        let after: Vec<&str> = last.split(' ').skip_while(|w| *w != "=").skip(1).collect();
        assert_eq!(t.blood(), Some(after.join(" ")));
    }
}

#[test]
fn first_failing_group_decides_the_error() {
    let res = TLParser::new("f.tl".to_string()).parse("a = A;\nfoo bar = Baz;\nqux a:b:c = Q;");
    match res {
        Err(TLError::Syntax { line, text }) => {
            assert_eq!(line, 2);
            assert_eq!(text, "foo bar = Baz");
        }
        _ => panic!("expected a syntax error"),
    }
}
