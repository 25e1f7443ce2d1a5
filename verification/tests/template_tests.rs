use nylon::types::eval::{eval_expr, render_template_string, uuid_text, TemplateContext};
use nylon::types::json::{apply_payload_ast, set_json_value, walk_json, JsonValue};
use nylon::types::template::{assemble_templates, extract_and_parse_templates, parse_expression, parse_path, Expr, PathPart};

fn mock_ctx() -> TemplateContext {
    TemplateContext {
        client_ip: "127.0.0.1".to_string(),
        headers: vec![
            ("X-Test-Header".to_string(), "HeaderValue".to_string()),
            ("Host".to_string(), "example.com".to_string()),
        ],
        env_vars: vec![],
    }
}

fn eval_str(expr_str: &str, ctx: &TemplateContext) -> String {
    let expr = parse_expression(expr_str)
        .unwrap_or_else(|| panic!("Failed to parse test expression: {}", expr_str));
    eval_expr(&expr, ctx)
}

fn s(v: &str) -> JsonValue {
    JsonValue::Str(v.to_string())
}

fn obj(entries: Vec<(&str, JsonValue)>) -> JsonValue {
    JsonValue::Object(entries.into_iter().map(|(k, v)| (k.to_string(), v)).collect())
}

fn field<'a>(v: &'a JsonValue, key: &str) -> &'a JsonValue {
    match v {
        JsonValue::Object(m) => &m.iter().find(|(k, _)| k == key).expect("missing key").1,
        _ => panic!("not an object"),
    }
}

fn item(v: &JsonValue, i: usize) -> &JsonValue {
    match v {
        JsonValue::Array(a) => &a[i],
        _ => panic!("not an array"),
    }
}

#[test]
fn test_eval_literal() {
    let ctx = mock_ctx();
    assert_eq!(eval_str("'hello literal'", &ctx), "hello literal");
    assert_eq!(eval_str("\"double quote literal\"", &ctx), "double quote literal");
}

#[test]
fn test_eval_var_direct() {
    let ctx = mock_ctx();
    assert_eq!(eval_str("client_ip", &ctx), "127.0.0.1");
    assert_eq!(
        eval_str("request_id", &ctx),
        "",
        "Expr::Var(\"request_id\") should be empty per current code"
    );
    assert_eq!(eval_str("unknown_variable", &ctx), "");
}

#[test]
fn test_eval_func_var_function() {
    let ctx = mock_ctx();
    assert_eq!(eval_str("var(client_ip)", &ctx), "127.0.0.1");
    assert_eq!(
        eval_str("var(request_id)", &ctx),
        "",
        "var(request_id) should be empty per current code"
    );
    assert_eq!(eval_str("var(something_else)", &ctx), "");
}

#[test]
fn test_eval_func_header() {
    let ctx = mock_ctx();
    assert_eq!(eval_str("header(X-Test-Header)", &ctx), "HeaderValue");
    assert_eq!(eval_str("header(Host)", &ctx), "example.com");
    assert_eq!(eval_str("header(NonExistentHeader)", &ctx), "");
    assert_eq!(eval_str("header(host)", &ctx), "", "Header keys are case-sensitive in HashMap");
}

#[test]
fn test_eval_func_env() {
    let mut ctx = mock_ctx();
    ctx.env_vars.push(("MY_TEST_ENV_VAR".to_string(), "EnvTestValue".to_string()));
    assert_eq!(eval_str("env(MY_TEST_ENV_VAR)", &ctx), "EnvTestValue");
    assert_eq!(eval_str("env(NON_EXISTENT_ENV_VAR)", &ctx), "");
}

#[test]
fn test_eval_func_or() {
    let ctx = mock_ctx();
    assert_eq!(eval_str("or('val1', 'val2')", &ctx), "val1");
    assert_eq!(eval_str("or('', 'val2')", &ctx), "val2");
    assert_eq!(eval_str("or(unknown, 'val2')", &ctx), "val2");
    assert_eq!(eval_str("or('', '', 'val3')", &ctx), "val3");
    assert_eq!(eval_str("or('', '', '')", &ctx), "");
    assert_eq!(eval_str("or(or('', client_ip), 'fallback')", &ctx), "127.0.0.1");
}

#[test]
fn test_eval_func_eq() {
    let ctx = mock_ctx();
    assert_eq!(eval_str("eq('a', 'a')", &ctx), "a");
    assert_eq!(eval_str("eq('a', 'a', 'EQUAL')", &ctx), "EQUAL");
    assert_eq!(eval_str("eq('a', 'b')", &ctx), "");
    assert_eq!(eval_str("eq('a', 'b', 'EQUAL')", &ctx), "");
    assert_eq!(eval_str("eq(client_ip, '127.0.0.1', 'local')", &ctx), "local");
}

#[test]
fn test_eval_func_neq() {
    let ctx = mock_ctx();
    assert_eq!(eval_str("neq('a', 'b')", &ctx), "a");
    assert_eq!(eval_str("neq('a', 'b', 'NOT_EQUAL')", &ctx), "NOT_EQUAL");
    assert_eq!(eval_str("neq('a', 'a')", &ctx), "");
    assert_eq!(eval_str("neq('a', 'a', 'NOT_EQUAL')", &ctx), "");
    assert_eq!(eval_str("neq(client_ip, '1.1.1.1', 'remote')", &ctx), "remote");
}

#[test]
fn test_eval_func_upper_lower_len() {
    let ctx = mock_ctx();
    assert_eq!(eval_str("upper('hello world')", &ctx), "HELLO WORLD");
    assert_eq!(eval_str("lower('HELLO WORLD')", &ctx), "hello world");
    assert_eq!(eval_str("len('hello')", &ctx), "5");
    assert_eq!(eval_str("len(client_ip)", &ctx), "9");
    assert_eq!(eval_str("upper('')", &ctx), "");
    assert_eq!(eval_str("lower('')", &ctx), "");
    assert_eq!(eval_str("len('')", &ctx), "0");
}

#[test]
fn test_eval_func_if_cond() {
    let ctx = mock_ctx();
    assert_eq!(eval_str("if_cond('condition_true', 'then_val', 'else_val')", &ctx), "then_val");
    assert_eq!(
        eval_str("if_cond(eq(client_ip, '127.0.0.1'), 'local_ip', 'remote_ip')", &ctx),
        "local_ip"
    );
    assert_eq!(eval_str("if_cond('', 'then_val', 'else_val')", &ctx), "else_val");
    assert_eq!(
        eval_str("if_cond(eq(client_ip, 'other_ip'), 'local_ip', 'remote_ip')", &ctx),
        "remote_ip"
    );
}

#[test]
fn test_eval_func_timestamp() {
    let ctx = mock_ctx();
    let ts = eval_str("timestamp()", &ctx);
    assert!(ts.contains('T') && ts.contains('Z'), "Timestamp format basic check failed");
    assert!(
        ts.starts_with(&chrono::Utc::now().format("%Y-%m-%d").to_string()),
        "Timestamp year-month-day check failed"
    );
}

#[test]
fn test_eval_func_uuid() {
    let ctx = mock_ctx();
    let uuid_v4 = eval_str("uuid(v4)", &ctx);
    assert_eq!(uuid_v4.len(), 36, "UUID v4 length incorrect");
    assert_eq!(uuid_v4.chars().nth(14), Some('4'), "UUID v4 version char incorrect");

    let uuid_v7 = eval_str("uuid(v7)", &ctx);
    assert_eq!(uuid_v7.len(), 36, "UUID v7 length incorrect");
    assert_eq!(uuid_v7.chars().nth(14), Some('7'), "UUID v7 version char incorrect");

    assert_eq!(eval_str("uuid(vx)", &ctx), "", "uuid with invalid version");
    assert_eq!(eval_str("uuid()", &ctx), "", "uuid with no argument");
}

#[test]
fn test_parse_expression() {
    assert_eq!(parse_expression("'text'"), Some(Expr::Literal("text".to_string())));
    assert_eq!(parse_expression("myVar"), Some(Expr::Var("myVar".to_string())));
    assert_eq!(
        parse_expression("do()"),
        Some(Expr::Func { name: "do".to_string(), args: vec![] })
    );
    assert_eq!(
        parse_expression("  do  (  'arg1'  ,  argVar )  "),
        Some(Expr::Func {
            name: "do".to_string(),
            args: vec![Expr::Literal("arg1".to_string()), Expr::Var("argVar".to_string())]
        })
    );
    assert_eq!(
        parse_expression("outer(inner(var), 'lit')"),
        Some(Expr::Func {
            name: "outer".to_string(),
            args: vec![
                Expr::Func { name: "inner".to_string(), args: vec![Expr::Var("var".to_string())] },
                Expr::Literal("lit".to_string())
            ]
        })
    );
    assert_eq!(parse_expression("invalid-char()"), None);
    assert_eq!(parse_expression("func('unterminated literal"), None);
    assert_eq!(parse_expression("func(arg1,"), None);
}

#[test]
fn test_extract_and_parse_templates() {
    let res1 = extract_and_parse_templates("Hello ${upper(world_var)} from ${client_ip}!");
    assert!(res1.is_ok());
    let exprs1 = res1.unwrap();
    assert_eq!(exprs1.len(), 5);
    assert_eq!(exprs1[0], Expr::Literal("Hello ".to_string()));
    assert_eq!(exprs1[2], Expr::Literal(" from ".to_string()));
    assert_eq!(exprs1[4], Expr::Literal("!".to_string()));
    if let Expr::Func { name, args } = &exprs1[1] {
        assert_eq!(name, "upper");
        assert_eq!(args.len(), 1);
        assert_eq!(args[0], Expr::Var("world_var".to_string()));
    } else {
        panic!("Expected Func 'upper'");
    }
    assert_eq!(exprs1[3], Expr::Var("client_ip".to_string()));

    let res2 = extract_and_parse_templates("No templates.").unwrap();
    assert_eq!(res2, vec![Expr::Literal("No templates.".to_string())]);

    let res3 = extract_and_parse_templates("${var1}${var2}").unwrap();
    assert_eq!(res3, vec![Expr::Var("var1".to_string()), Expr::Var("var2".to_string())]);

    let res4 = extract_and_parse_templates("").unwrap();
    assert_eq!(res4, Vec::<Expr>::new(), "Empty input should result in empty Vec<Expr>");

    let res5 = extract_and_parse_templates("${func(arg)}").unwrap();
    assert_eq!(res5.len(), 1);
}

#[test]
fn placeholders_need_a_body_and_a_close() {
    assert_eq!(
        extract_and_parse_templates("a${}b").unwrap(),
        vec![Expr::Literal("a${}b".to_string())]
    );
    assert_eq!(
        extract_and_parse_templates("x ${a} ${b").unwrap(),
        vec![Expr::Literal("x ".to_string()), Expr::Var("a".to_string()), Expr::Literal(" ${b".to_string())]
    );
    assert_eq!(
        extract_and_parse_templates("${1bad}!").unwrap(),
        vec![Expr::Literal("!".to_string())]
    );
    assert_eq!(
        extract_and_parse_templates("é${x}ü").unwrap(),
        vec![Expr::Literal("é".to_string()), Expr::Var("x".to_string()), Expr::Literal("ü".to_string())]
    );
}

#[test]
fn assembly_interleaves_pieces_and_bodies() {
    let pieces = vec!["Hi ".to_string(), "".to_string(), "!".to_string()];
    let bodies = vec!["name".to_string(), "upper('x')".to_string()];
    let parts = assemble_templates(&pieces, &bodies);
    assert_eq!(parts.len(), 4);
    assert_eq!(parts[0], Expr::Literal("Hi ".to_string()));
    assert_eq!(parts[1], Expr::Var("name".to_string()));
    assert_eq!(parts[3], Expr::Literal("!".to_string()));
    assert_eq!(
        assemble_templates(&vec!["".to_string(), "".to_string()], &vec!["not valid(".to_string()]),
        Vec::<Expr>::new()
    );
    assert_eq!(assemble_templates(&vec!["only".to_string()], &vec![]), vec![Expr::Literal("only".to_string())]);
}

#[test]
fn test_render_template_string() {
    let ctx = mock_ctx();
    let exprs = extract_and_parse_templates(
        "IP: ${client_ip}. Host: ${upper(header(Host))}. UUID: ${uuid(v4)}.",
    )
    .unwrap();
    let rendered = render_template_string(&exprs, &ctx);
    assert!(rendered.starts_with("IP: 127.0.0.1. Host: EXAMPLE.COM. UUID: "));
    assert_eq!(rendered.matches('-').count(), 4, "Rendered UUID should have 4 hyphens");
}

#[test]
fn test_parse_path_debug_compare() {
    assert_eq!(
        format!("{:?}", parse_path("key1.key2")),
        format!("{:?}", vec![PathPart::Key("key1".to_string()), PathPart::Key("key2".to_string())])
    );
    assert_eq!(
        format!("{:?}", parse_path("key[0].sub")),
        format!(
            "{:?}",
            vec![PathPart::Key("key".to_string()), PathPart::Index(0), PathPart::Key("sub".to_string())]
        )
    );
    assert_eq!(
        format!("{:?}", parse_path("arr[10]")),
        format!("{:?}", vec![PathPart::Key("arr".to_string()), PathPart::Index(10)])
    );
    assert_eq!(
        format!("{:?}", parse_path("[0][1]")),
        format!("{:?}", vec![PathPart::Index(0), PathPart::Index(1)])
    );
}

#[test]
fn test_set_json_value() {
    let mut root_val = obj(vec![]);

    set_json_value(&mut root_val, "name", s("Nylon"));
    assert_eq!(root_val, obj(vec![("name", s("Nylon"))]));

    set_json_value(&mut root_val, "config.version", s("1.0"));
    assert_eq!(*field(field(&root_val, "config"), "version"), s("1.0"));

    set_json_value(&mut root_val, "features[0]", s("templating"));
    assert_eq!(*field(&root_val, "features"), JsonValue::Array(vec![s("templating")]));

    set_json_value(&mut root_val, "name", s("Nylon Proxy"));
    assert_eq!(*field(&root_val, "name"), s("Nylon Proxy"));

    if let JsonValue::Object(m) = &mut root_val {
        m.push(("obj_in_arr".to_string(), JsonValue::Array(vec![obj(vec![])])));
    }
    set_json_value(&mut root_val, "obj_in_arr[0].type", s("gateway"));
    assert_eq!(*field(item(field(&root_val, "obj_in_arr"), 0), "type"), s("gateway"));
}

#[test]
fn test_apply_payload_ast() {
    let ctx = mock_ctx();
    let mut data = obj(vec![
        ("user_info", obj(vec![("id", s("old_id")), ("status", s("active"))])),
        ("system_load", JsonValue::Number("0.5".to_string())),
    ]);

    let expr1 = extract_and_parse_templates("IP-${client_ip}").unwrap();
    let expr2 = extract_and_parse_templates("Status: ${upper('pending')}_${uuid(v7)}").unwrap();
    let expr3 = extract_and_parse_templates("New Load: ${len('moderate')}").unwrap();
    let ast_map = vec![
        ("user_info.id".to_string(), expr1),
        ("user_info.status".to_string(), expr2),
        ("new_metrics.load_desc".to_string(), expr3),
    ];

    apply_payload_ast(&mut data, &ast_map, &ctx);

    assert_eq!(*field(field(&data, "user_info"), "id"), s("IP-127.0.0.1"));
    let status_val = match field(field(&data, "user_info"), "status") {
        JsonValue::Str(v) => v.clone(),
        _ => panic!("status is not a string"),
    };
    assert!(status_val.starts_with("Status: PENDING_"));
    assert_eq!(status_val.len(), "Status: PENDING_".len() + 36);
    assert_eq!(*field(field(&data, "new_metrics"), "load_desc"), s("New Load: 8"));
    assert_eq!(*field(&data, "system_load"), JsonValue::Number("0.5".to_string()));
}

#[test]
fn test_walk_json_paths() {
    let doc = obj(vec![
        ("a", obj(vec![("b", s("x"))])),
        ("list", JsonValue::Array(vec![s("p"), JsonValue::Bool(true)])),
    ]);
    let leaves = walk_json(&doc, String::new());
    let paths: Vec<String> = leaves.iter().map(|(p, _)| p.clone()).collect();
    assert_eq!(paths, vec!["a.b".to_string(), "list[0]".to_string(), "list[1]".to_string()]);
}

#[test]
fn uuid_text_matches_the_crate_display() {
    for x in [0u128, 0x0123456789abcdef0123456789abcdefu128, u128::MAX, 0xa1a2a3a4b1b2c1c2d1d2d3d4d5d6d7d8u128] {
        assert_eq!(uuid_text(x), uuid::Uuid::from_u128(x).to_string());
    }
    assert_eq!(uuid_text(0x0123456789abcdef0123456789abcdefu128), "01234567-89ab-cdef-0123-456789abcdef");
}
