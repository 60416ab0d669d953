use perdia::ast::{parse as build, parse_node, is_shell_or_end, Node};
use perdia::data::{Data, DataType, Instance, Template};
use perdia::error::PangError;
use perdia::grammar::{grammar_rule, Rule, RuleSnippet};
use perdia::lexer::{initialize, parse as lex, TokenDefinition};
use perdia::query::{create_select_prop, create_template_prop, data, exec, QueryResult};
use perdia::store::{
    copy_instance, copy_instances, copy_template, copy_templates, push_instance, push_template,
    remove_instance, remove_template, Store,
};
use perdia::text::{is_decimal, parse_integer};
use perdia::token::{Token, TokenMatch};

fn run(store: &mut Store, text: &str) -> Result<Vec<QueryResult>, PangError> {
    data(lex(text.to_string()), store)
}

fn tm(token: Token, value: &str, start: usize) -> TokenMatch {
    TokenMatch { token, value: value.to_string(), start, end: start + value.len(), priority: 4 }
}

fn template_named(name: &str) -> Template {
    Template::new(name.to_string()).build()
}

fn field<'a>(r: &'a QueryResult, name: &str) -> Option<&'a Data> {
    match r {
        QueryResult::Template(t) => t.data.get(name),
        QueryResult::Instance(i) => i.data.get(name),
    }
}

fn record_name(r: &QueryResult) -> String {
    match r {
        QueryResult::Template(t) => t.name.clone(),
        QueryResult::Instance(i) => i.name.clone(),
    }
}

#[test]
fn error_descriptions_locations_and_codes() {
    let e = PangError::InstanceAlreadyExists("a".to_string(), 7);
    assert_eq!(e.desc(), "Instance a already exists.");
    assert_eq!(e.loc(), 7);
    assert_eq!(e.code(), 5);
    assert_eq!(PangError::TemplateNonExistent("t".to_string(), 3).desc(), "Template t doesn't exist.");
    assert_eq!(PangError::ExecutionError.loc(), usize::MAX);
    assert_eq!(PangError::ExecutionError.code(), 0);
    assert_eq!(PangError::SyntaxError(4).code(), 15);
    assert_eq!(PangError::SyntaxError(4).desc(), "Syntax error occurred");
    assert_eq!(PangError::TypeMismatch(2).code(), 1);
    assert_eq!(PangError::DataNonExistent(2).code(), 2);
    assert_eq!(PangError::InstanceNonExistent("i".to_string(), 1).code(), 6);
    assert_eq!(PangError::TemplateAlreadyExists("t".to_string(), 1).code(), 9);
    assert_eq!(PangError::TemplateNonExistent("t".to_string(), 1).code(), 10);
}

#[test]
fn lexes_a_template_line() {
    let lines = lex("TEMPLATE \"Day\";".to_string());
    assert_eq!(lines.len(), 1);
    assert_eq!(lines[0].len(), 2);
    assert_eq!(lines[0][0].token, Token::Template);
    assert_eq!(lines[0][0].start, 0);
    assert_eq!(lines[0][0].end, 8);
    assert_eq!(lines[0][0].priority, 4);
    assert_eq!(lines[0][1].token, Token::Literal);
    assert_eq!(lines[0][1].value, "Day");
    assert_eq!(lines[0][1].start, 9);
    assert_eq!(lines[0][1].end, 14);
    assert_eq!(lines[0][1].priority, 1);
}

#[test]
fn literal_value_round_trips() {
    for body in ["abc", "", "with spaces", "SELECT 12 3.5 ; END", "esc\\\"aped"] {
        let text = format!("\"{}\";", body);
        let lines = lex(text);
        assert_eq!(lines.len(), 1);
        assert_eq!(lines[0].len(), 1);
        assert_eq!(lines[0][0].token, Token::Literal);
        assert_eq!(lines[0][0].value, body);
    }
}

#[test]
fn numbers_floats_before_integers() {
    let lines = lex("SET \"x\" VALUE 3.25; SET \"y\" VALUE 42;".to_string());
    assert_eq!(lines.len(), 2);
    assert_eq!(lines[0][3].token, Token::Float);
    assert_eq!(lines[0][3].value, "3.25");
    assert_eq!(lines[1][3].token, Token::Integer);
    assert_eq!(lines[1][3].value, "42");
}

#[test]
fn keywords_inside_literals_are_text() {
    let lines = lex("QUERY \"QUERY; FROM\" FROM TEMPLATE;".to_string());
    assert_eq!(lines.len(), 1);
    let kinds: Vec<Token> = lines[0].iter().map(|t| t.token).collect();
    assert_eq!(kinds, vec![Token::Query, Token::Literal, Token::From, Token::Template]);
    assert_eq!(lines[0][1].value, "QUERY; FROM");
}

#[test]
fn unterminated_literal_is_skipped() {
    let lines = lex("END \"open".to_string());
    assert_eq!(lines.len(), 1);
    assert_eq!(lines[0].len(), 1);
    assert_eq!(lines[0][0].token, Token::End);
}

#[test]
fn empty_source_has_no_lines() {
    assert_eq!(lex(String::new()).len(), 0);
    assert_eq!(lex("   ".to_string()).len(), 0);
    assert_eq!(lex("QUERY;;".to_string()).len(), 2);
}

#[test]
fn definitions_in_priority_order() {
    let defs: Vec<TokenDefinition> = initialize();
    assert_eq!(defs.len(), 17);
    assert_eq!(defs[0].token, Token::Literal);
    assert_eq!(defs[1].token, Token::Float);
    assert_eq!(defs[2].token, Token::Integer);
    assert_eq!(defs[3].token, Token::ENDL);
    for w in defs.windows(2) {
        assert!(w[0].priority <= w[1].priority);
    }
}

#[test]
fn parse_node_pairs_tokens() {
    let two = vec![tm(Token::Template, "TEMPLATE", 0), tm(Token::Literal, "Day", 9)];
    let n = parse_node(&two).unwrap();
    assert!(is_shell_or_end(&n));
    match n {
        Node::Statement { variant, context, child } => {
            assert!(matches!(*variant, Node::Token(Token::Template, 0)));
            assert!(matches!(*context, Node::Literal(ref s, 9) if s == "Day"));
            assert!(child.is_none());
        },
        _ => panic!("not a statement"),
    }
    let four = vec![
        tm(Token::SetField, "SET", 0),
        tm(Token::Literal, "n", 4),
        tm(Token::Value, "VALUE", 8),
        tm(Token::Integer, "12", 14),
    ];
    match parse_node(&four).unwrap() {
        Node::Statement { child: Some(c), .. } => match *c {
            Node::Statement { variant, context, child } => {
                assert!(matches!(*variant, Node::Token(Token::Value, 8)));
                assert!(matches!(*context, Node::Int(12, 14)));
                assert!(child.is_none());
            },
            _ => panic!("child is not a statement"),
        },
        _ => panic!("not a statement with a child"),
    }
    let three = vec![tm(Token::Query, "QUERY", 5), tm(Token::Literal, "a", 11), tm(Token::From, "FROM", 15)];
    assert!(matches!(parse_node(&three), Err(PangError::SyntaxError(5))));
    assert!(matches!(parse_node(&Vec::new()), Err(PangError::SyntaxError(0))));
}

#[test]
fn integer_overflow_is_a_syntax_error() {
    let big = vec![tm(Token::SetField, "SET", 0), tm(Token::Integer, "9223372036854775808", 4)];
    assert!(matches!(parse_node(&big), Err(PangError::SyntaxError(4))));
    assert_eq!(parse_integer("9223372036854775807"), Some(i64::MAX));
    assert_eq!(parse_integer("0042"), Some(42));
    assert_eq!(parse_integer(""), None);
    assert_eq!(parse_integer("4a"), None);
    assert!(is_decimal("3.14"));
    assert!(!is_decimal("3."));
    assert!(!is_decimal(".5"));
    assert!(!is_decimal("1.2.3"));
}

#[test]
fn template_block_makes_one_shell() {
    let ast = build(lex("TEMPLATE \"X\"; STRING \"f\"; END \"X\";".to_string())).unwrap();
    assert_eq!(ast.len(), 1);
    match &ast[0] {
        Node::Shell { outside, inside } => {
            assert_eq!(inside.len(), 1);
            assert!(is_shell_or_end(outside));
            assert!(!is_shell_or_end(&inside[0]));
            match &*inside[0] {
                Node::Statement { variant, .. } => assert!(matches!(**variant, Node::Token(Token::StringType, _))),
                _ => panic!("inside is not a statement"),
            }
        },
        _ => panic!("not a shell"),
    }
}

#[test]
fn every_grammar_example_validates() {
    let examples = [
        "QUERY \"a\" FROM TEMPLATE;",
        "QUERY \"a\" FROM INSTANCE;",
        "QUERY TEMPLATE FROM TEMPLATE;",
        "CREATE \"a\" TEMPLATE \"b\";",
        "CREATE \"a\" INSTANCE \"b\";",
        "TEMPLATE \"t\"; STRING \"f\" VALUE \"x\"; INTEGER \"g\" VALUE 1; FLOAT \"h\" VALUE 1.5; END \"t\";",
        "TEMPLATE \"t\"; STRING \"f\"; INTEGER \"g\"; FLOAT \"h\"; END \"t\";",
        "SELECT \"i\"; SET \"f\" VALUE \"x\"; SET \"g\" VALUE 2; SET \"h\" VALUE 2.5; END \"i\";",
        "DELETE \"a\" FROM TEMPLATE;",
        "DELETE \"a\" FROM INSTANCE;",
    ];
    for ex in examples {
        assert!(build(lex(ex.to_string())).is_ok(), "{}", ex);
    }
}

#[test]
fn grammar_mutations_fail_at_the_mutated_token() {
    let cases: [(&str, usize); 6] = [
        ("QUERY \"a\" VALUE TEMPLATE;", 10),
        ("QUERY \"a\" FROM VALUE;", 15),
        ("DELETE \"a\" FROM FROM;", 16),
        ("CREATE \"a\" FROM \"b\";", 11),
        ("DELETE 12 FROM TEMPLATE;", 7),
        ("TEMPLATE \"t\"; VALUE \"f\"; END \"t\";", 14),
    ];
    for (text, at) in cases {
        match build(lex(text.to_string())) {
            Err(PangError::SyntaxError(p)) => assert_eq!(p, at, "{}", text),
            _ => panic!("{} was accepted", text),
        }
    }
    assert!(matches!(build(lex("STRING \"f\" VALUE;".to_string())), Err(PangError::SyntaxError(0))));
    assert!(matches!(build(lex("TEMPLATE \"t\"; SET \"f\"; END \"t\";".to_string())), Err(PangError::SyntaxError(18))));
}

#[test]
fn rule_table_checks_a_tree() {
    let rule = Rule::new();
    let ast = build(lex("QUERY \"a\" FROM TEMPLATE;".to_string())).unwrap();
    assert!(rule.check(&ast).is_ok());
    let leaf = vec![Node::Literal("x".to_string(), 3)];
    assert!(matches!(rule.check(&leaf), Err(PangError::SyntaxError(3))));
    let r = grammar_rule(vec![RuleSnippet::Defined(Token::End)], true, false);
    assert!(matches!(r, RuleSnippet::Expandable(_)));
    let r = grammar_rule(vec![RuleSnippet::Defined(Token::End)], false, true);
    assert!(matches!(r, RuleSnippet::Inner(_)));
    let r = grammar_rule(vec![RuleSnippet::Tuple(vec![Token::End])], false, false);
    assert!(matches!(r, RuleSnippet::Statement(_)));
}

#[test]
fn push_template_twice_keeps_one() {
    let mut store = Store::new();
    assert!(push_template(&mut store, template_named("t"), 1).is_ok());
    match push_template(&mut store, template_named("t"), 2) {
        Err(PangError::TemplateAlreadyExists(n, 2)) => assert_eq!(n, "t"),
        _ => panic!("duplicate accepted"),
    }
    assert_eq!(store.templates.len(), 1);
}

#[test]
fn push_instance_twice_keeps_one() {
    let mut store = Store::new();
    let t = template_named("t");
    assert!(push_instance(&mut store, Instance::new("i".to_string(), t.copy()), 1).is_ok());
    match push_instance(&mut store, Instance::new("i".to_string(), t), 2) {
        Err(PangError::InstanceAlreadyExists(n, 2)) => assert_eq!(n, "i"),
        _ => panic!("duplicate accepted"),
    }
    assert_eq!(store.instances.len(), 1);
}

#[test]
fn store_lookups_and_removals() {
    let mut store = Store::new();
    assert!(matches!(copy_template(&store, "t".to_string(), 4), Err(PangError::TemplateNonExistent(_, 4))));
    assert!(matches!(copy_instance(&store, "i".to_string(), 4), Err(PangError::InstanceNonExistent(_, 4))));
    assert!(matches!(remove_instance(&mut store, "i".to_string(), 5), Err(PangError::InstanceNonExistent(_, 5))));
    let t = Template::new("t".to_string()).add_data("n".to_string(), Data::Int(3)).build();
    push_template(&mut store, t, 0).unwrap();
    let inst = Instance::new("i".to_string(), copy_template(&store, "t".to_string(), 0).unwrap());
    assert_eq!(inst.data.get("n"), Some(&Data::Int(3)));
    push_instance(&mut store, inst, 0).unwrap();
    assert_eq!(copy_templates(&store).len(), 1);
    assert_eq!(copy_instances(&store).len(), 1);
    assert_eq!(copy_instance(&store, "i".to_string(), 0).unwrap().name, "i");
    let removed = remove_template(&mut store, "t".to_string(), 0).unwrap();
    assert_eq!(removed.name, "t");
    assert_eq!(store.templates.len(), 0);
    assert_eq!(store.instances.len(), 0);
}

#[test]
fn overwrite_checks_field_and_type() {
    let t = Template::new("t".to_string())
        .add_data("n".to_string(), Data::Int(1))
        .add_data("s".to_string(), Data::Str("a".to_string()))
        .build();
    let mut i = Instance::new("i".to_string(), t);
    assert!(i.overwrite("n".to_string(), Data::Int(9), 0).is_ok());
    assert_eq!(i.data.get("n"), Some(&Data::Int(9)));
    assert!(matches!(i.overwrite("n".to_string(), Data::Str("x".to_string()), 6), Err(PangError::TypeMismatch(6))));
    assert_eq!(i.data.get("n"), Some(&Data::Int(9)));
    assert!(matches!(i.overwrite("zz".to_string(), Data::Int(1), 8), Err(PangError::DataNonExistent(8))));
    let keys: Vec<&String> = i.data.keys().collect();
    assert_eq!(keys, vec!["n", "s"]);
    assert_eq!(Data::Float("1.5".to_string()).data_type(), DataType::FLOAT);
}

#[test]
fn add_data_replaces_and_moves_last() {
    let t = Template::new("t".to_string())
        .add_data("a".to_string(), Data::Int(1))
        .add_data("b".to_string(), Data::Int(2))
        .add_data("a".to_string(), Data::Int(3))
        .build();
    let keys: Vec<&String> = t.data.keys().collect();
    assert_eq!(keys, vec!["b", "a"]);
    assert_eq!(t.data.get("a"), Some(&Data::Int(3)));
    assert!(t.same_as(&t.copy()));
    assert!(!t.same_as(&template_named("t")));
}

#[test]
fn end_to_end_day_scenario() {
    let mut store = Store::new();
    let out = run(
        &mut store,
        "TEMPLATE \"Day\"; STRING \"name\" VALUE \"Monday\"; END \"Day\";\n\
         CREATE \"today\" TEMPLATE \"Day\";\n\
         SELECT \"today\"; SET \"name\" VALUE \"Tuesday\"; END \"today\";\n\
         QUERY \"today\" FROM INSTANCE;",
    )
    .unwrap();
    assert_eq!(out.len(), 1);
    assert_eq!(record_name(&out[0]), "today");
    assert_eq!(field(&out[0], "name"), Some(&Data::Str("Tuesday".to_string())));
    match &out[0] {
        QueryResult::Instance(i) => assert_eq!(i.template.name, "Day"),
        _ => panic!("not an instance"),
    }
}

#[test]
fn cascade_delete_removes_instances() {
    let mut store = Store::new();
    run(&mut store, "TEMPLATE \"T\"; INTEGER \"n\"; END \"T\"; CREATE \"I\" TEMPLATE \"T\";").unwrap();
    let out = run(&mut store, "DELETE \"T\" FROM TEMPLATE;").unwrap();
    assert_eq!(out.len(), 1);
    assert_eq!(record_name(&out[0]), "T");
    assert_eq!(store.templates.len(), 0);
    assert_eq!(store.instances.len(), 0);
    match run(&mut store, "QUERY \"I\" FROM INSTANCE;") {
        Err(PangError::InstanceNonExistent(n, 15)) => assert_eq!(n, "I"),
        _ => panic!("instance still there"),
    }
}

#[test]
fn select_type_mismatch_keeps_value() {
    let mut store = Store::new();
    run(&mut store, "TEMPLATE \"T\"; INTEGER \"n\" VALUE 5; END \"T\"; CREATE \"I\" TEMPLATE \"T\";").unwrap();
    match run(&mut store, "SELECT \"I\"; SET \"n\" VALUE \"text\"; END \"I\";") {
        Err(PangError::TypeMismatch(p)) => assert_eq!(p, 26),
        _ => panic!("mismatch accepted"),
    }
    let out = run(&mut store, "QUERY \"I\" FROM INSTANCE;").unwrap();
    assert_eq!(field(&out[0], "n"), Some(&Data::Int(5)));
}

#[test]
fn query_all_templates_twice_is_identical() {
    let mut store = Store::new();
    run(&mut store, "TEMPLATE \"A\"; STRING \"s\"; END \"A\"; TEMPLATE \"B\"; FLOAT \"f\" VALUE 2.5; END \"B\";").unwrap();
    let first = run(&mut store, "QUERY TEMPLATE FROM TEMPLATE;").unwrap();
    let second = run(&mut store, "QUERY TEMPLATE FROM TEMPLATE;").unwrap();
    assert_eq!(first.len(), 2);
    let names1: Vec<String> = first.iter().map(record_name).collect();
    let names2: Vec<String> = second.iter().map(record_name).collect();
    assert_eq!(names1, vec!["A", "B"]);
    assert_eq!(names1, names2);
    assert_eq!(field(&first[1], "f"), Some(&Data::Float("2.5".to_string())));
    assert_eq!(field(&first[0], "s"), Some(&Data::Str(String::new())));
}

#[test]
fn defaults_and_declared_types() {
    let mut store = Store::new();
    run(&mut store, "TEMPLATE \"T\"; STRING \"s\"; INTEGER \"i\"; FLOAT \"f\"; END \"T\";").unwrap();
    let out = run(&mut store, "QUERY \"T\" FROM TEMPLATE;").unwrap();
    assert_eq!(field(&out[0], "s"), Some(&Data::Str(String::new())));
    assert_eq!(field(&out[0], "i"), Some(&Data::Int(0)));
    assert_eq!(field(&out[0], "f"), Some(&Data::Float("0.0".to_string())));
    match run(&mut store, "TEMPLATE \"U\"; INTEGER \"i\" VALUE \"x\"; END \"U\";") {
        Err(PangError::TypeMismatch(p)) => assert_eq!(p, 32),
        _ => panic!("mismatch accepted"),
    }
    assert_eq!(store.templates.len(), 1);
}

#[test]
fn duplicate_names_are_reported() {
    let mut store = Store::new();
    run(&mut store, "TEMPLATE \"T\"; END \"T\"; CREATE \"I\" TEMPLATE \"T\";").unwrap();
    assert!(matches!(run(&mut store, "TEMPLATE \"T\"; END \"T\";"), Err(PangError::TemplateAlreadyExists(_, 0))));
    assert!(matches!(run(&mut store, "CREATE \"I\" TEMPLATE \"T\";"), Err(PangError::InstanceAlreadyExists(_, 0))));
    assert!(matches!(run(&mut store, "CREATE \"J\" TEMPLATE \"Q\";"), Err(PangError::TemplateNonExistent(_, 0))));
    assert!(matches!(run(&mut store, "SELECT \"Z\"; END \"Z\";"), Err(PangError::InstanceNonExistent(_, 0))));
    assert!(matches!(run(&mut store, "SELECT \"I\"; SET \"q\" VALUE 1; END \"I\";"), Err(PangError::DataNonExistent(26))));
}

#[test]
fn create_from_instance_copies_values() {
    let mut store = Store::new();
    run(&mut store, "TEMPLATE \"T\"; INTEGER \"n\" VALUE 1; END \"T\"; CREATE \"a\" TEMPLATE \"T\";").unwrap();
    run(&mut store, "SELECT \"a\"; SET \"n\" VALUE 7; END \"a\"; CREATE \"b\" INSTANCE \"a\";").unwrap();
    let out = run(&mut store, "QUERY INSTANCE FROM TEMPLATE;");
    assert!(out.is_err());
    let b = run(&mut store, "QUERY \"b\" FROM INSTANCE;").unwrap();
    assert_eq!(field(&b[0], "n"), Some(&Data::Int(7)));
    let del = run(&mut store, "DELETE \"a\" FROM INSTANCE;").unwrap();
    assert_eq!(record_name(&del[0]), "a");
    assert_eq!(store.instances.len(), 1);
}

#[test]
fn misplaced_statements_are_execution_errors() {
    let mut store = Store::new();
    assert!(matches!(run(&mut store, "STRING \"f\";"), Err(PangError::ExecutionError)));
    let ast = build(lex("SET \"f\" VALUE 1;".to_string())).unwrap();
    assert!(matches!(exec(&ast, &mut store), Err(PangError::ExecutionError)));
}

#[test]
fn props_read_declarations_and_assignments() {
    let ast = build(lex("TEMPLATE \"t\"; FLOAT \"f\" VALUE 1.25; END \"t\";".to_string())).unwrap();
    match &ast[0] {
        Node::Shell { inside, .. } => {
            let (name, value) = create_template_prop(&inside[0]).unwrap();
            assert_eq!(name, "f");
            assert_eq!(value, Data::Float("1.25".to_string()));
            assert!(matches!(create_select_prop(&inside[0]), Err(PangError::SyntaxError(14))));
        },
        _ => panic!("not a shell"),
    }
    let ast = build(lex("SELECT \"i\"; SET \"g\" VALUE 4; END \"i\";".to_string())).unwrap();
    match &ast[0] {
        Node::Shell { inside, .. } => {
            let (name, (value, at)) = create_select_prop(&inside[0]).unwrap();
            assert_eq!(name, "g");
            assert_eq!(value, Data::Int(4));
            assert_eq!(at, 26);
            assert!(matches!(create_template_prop(&inside[0]), Err(PangError::SyntaxError(12))));
        },
        _ => panic!("not a shell"),
    }
}

#[test]
fn key_is_shake128_of_raw_key() {
    let k = perdia::crypto::Key::new(Vec::new()).into_bytes();
    assert_eq!(
        k,
        vec![0x7f, 0x9c, 0x2b, 0xa4, 0xe8, 0x8f, 0x82, 0x7d, 0x61, 0x60, 0x45, 0x50, 0x76, 0x05, 0x85, 0x3e]
    );
    assert_eq!(perdia::crypto::Key::new(b"secret".to_vec()).into_bytes().len(), 16);
}

#[test]
fn encryption_pads_and_round_trips() {
    let key = perdia::crypto::Key::new(b"secret".to_vec());
    let empty = key.encrypt(Vec::new());
    assert_eq!(empty.len(), 16);
    assert_ne!(empty, vec![0u8; 16]);
    let text = b"QUERY TEMPLATE FROM TEMPLATE;".to_vec();
    let sealed = key.encrypt(text.clone());
    assert_eq!(sealed.len(), 32);
    assert_ne!(&sealed[..16], &text[..16]);
    let opened = key.decrypt(sealed);
    assert_eq!(opened.len(), 32);
    assert_eq!(&opened[..text.len()], &text[..]);
    assert!(opened[text.len()..].iter().all(|b| *b == 0));
    let exact = key.encrypt(vec![7u8; 32]);
    assert_eq!(exact.len(), 32);
    assert_eq!(key.decrypt(exact), vec![7u8; 32]);
}

#[test]
fn match_text_claims_and_places() {
    let text: Vec<char> = "12.5 7".chars().collect();
    let mut claimed = vec![false; text.len()];
    let mut slots: Vec<Option<(Token, usize)>> = vec![None; text.len()];
    TokenDefinition::new(Token::Float, 2).match_text(&text, &mut claimed, &mut slots);
    assert_eq!(claimed, vec![true, true, true, true, false, false]);
    assert_eq!(slots[0], Some((Token::Float, 4)));
    TokenDefinition::new(Token::Integer, 3).match_text(&text, &mut claimed, &mut slots);
    assert_eq!(slots[0], Some((Token::Float, 4)));
    assert_eq!(slots[2], None);
    assert_eq!(slots[5], Some((Token::Integer, 6)));
    assert!(claimed[5]);
}

#[test]
fn only_block_keywords_open_blocks() {
    for (text, opens) in [
        ("SELECT \"a\";", true),
        ("END \"a\";", true),
        ("TEMPLATE \"a\";", true),
        ("QUERY TEMPLATE FROM TEMPLATE;", false),
        ("SET \"a\" VALUE 1;", false),
    ] {
        let lines = lex(text.to_string());
        let node = parse_node(&lines[0]).unwrap();
        assert_eq!(is_shell_or_end(&node), opens, "{}", text);
    }
}

#[test]
fn open_block_at_end_is_dropped() {
    let ast = build(lex("QUERY TEMPLATE FROM TEMPLATE; TEMPLATE \"t\"; STRING \"f\";".to_string())).unwrap();
    assert_eq!(ast.len(), 1);
    assert!(matches!(ast[0], Node::Statement { .. }));
}

#[test]
fn short_forms_are_incomplete() {
    assert!(matches!(build(lex("QUERY \"today\";".to_string())), Err(PangError::SyntaxError(6))));
    assert!(matches!(build(lex("QUERY TEMPLATE;".to_string())), Err(PangError::SyntaxError(6))));
    assert!(matches!(
        build(lex("CREATE \"today\" INSTANCE TEMPLATE \"Day\";".to_string())),
        Err(PangError::SyntaxError(0))
    ));
}
