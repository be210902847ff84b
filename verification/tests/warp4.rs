use warp::js4::js_string;
use warp::page4::{
    assemble_screens, build_document, check_layouts, esc_attr, esc_text, op_js, parse_config, reference_css,
    script_js, Screen,
};
use warp::syntax4::{find_top_level_char, read_balanced_str, strip_comments};
use warp::warp4::{
    command, compile_raw, compile_script, keyword_boundary, parse_fun_definition, parse_inline_if,
    parse_target_value, split_command, split_condition, Op, OpTable, ScriptParser, ScriptProgram,
};

fn chars(s: &str) -> Vec<char> {
    s.chars().collect()
}

fn text(v: &[char]) -> String {
    v.iter().collect()
}

#[test]
fn compiles_a_script_to_javascript_data() {
    let program = compile_script(
        "var.set count (0)\nWarpUI.OnClick btn {\n  WarpUI.text title (hi)\n}\nfun (f) {\n if var[count] = 1 {\n break\n }\n}",
    )
    .unwrap();
    assert_eq!(
        script_js(&program),
        "{init:[{kind:\"command\",name:\"var.set\",target:\"count\",value:\"0\"}],\
         events:{\"btn\":[{kind:\"command\",name:\"WarpUI.text\",target:\"title\",value:\"hi\"}]},\
         functions:[{name:\"f\",body:[{kind:\"if\",left:\"var[count]\",operator:\"=\",right:\"1\",\
         body:[{kind:\"command\",name:\"break\",target:null,value:null}]}]}]}"
    );
}

#[test]
fn events_and_functions_come_out_in_name_order() {
    let program = compile_script(
        "WarpUI.OnClick zed {\n}\nWarpUI.OnClick alpha {\n}\nfun (b) {\n}\nfun (a) {\n}\nWarpUI.OnClick zed {\n print (again)\n}",
    )
    .unwrap();
    assert_eq!(
        script_js(&program),
        "{init:[],events:{\"alpha\":[],\"zed\":[{kind:\"command\",name:\"print\",target:null,value:\"again\"}]},\
         functions:[{name:\"a\",body:[]},{name:\"b\",body:[]}]}"
    );
}

#[test]
fn script_errors() {
    let err = |s: &str| match compile_script(s) {
        Err(e) => e,
        Ok(_) => panic!("expected an error"),
    };
    assert_eq!(err("fun (f) {\n}\nfun (f) {\n}"), "関数 'f' は重複定義できません");
    assert_eq!(err("}"), "対応する '{' がない '}' があります");
    assert_eq!(err("loop {\n}"), "トップレベルで対応していないブロックです: loop");
    assert_eq!(err("WarpUI.OnClick {\n}"), "WarpUI.OnClick のIDが空です");
    assert_eq!(err("fun (f) {\n while x {\n }\n}"), "対応していないブロックです: while x");
    assert_eq!(err("fun (f) {\n if nothing {\n }\n}"), "if の条件を解析できません: if nothing");
    assert_eq!(err("if a = 1 {"), "'{' に対応する '}' がありません");
    assert_eq!(err("fun () {\n}"), "fun の関数名が空です");
    assert_eq!(err("print (x) y"), "命令の後ろに文字があります: print (x) y");
    assert_eq!(err("var.set (1)x"), "命令の後ろに文字があります: var.set (1)x");
    assert_eq!(err("var.set x 1"), "命令は '名前 (値)' の形式で指定してください");
}

#[test]
fn raw_statements() {
    let op = compile_raw("  print hello world ").unwrap();
    assert_eq!(op_js(&op), "{kind:\"command\",name:\"print\",target:null,value:\"hello world\"}");
    let op = compile_raw("WarpUI.visibility box (gone)").unwrap();
    assert_eq!(
        op_js(&op),
        "{kind:\"command\",name:\"WarpUI.visibility\",target:\"box\",value:\"gone\"}"
    );
    let op = compile_raw("wait(10ms)").unwrap();
    assert_eq!(op_js(&op), "{kind:\"command\",name:\"wait\",target:null,value:\"10ms\"}");
    let op = compile_raw("screen").unwrap();
    assert_eq!(op_js(&op), "{kind:\"command\",name:\"screen\",target:null,value:null}");
    assert_eq!(compile_raw("   ").unwrap_err(), "空の命令です");
    assert_eq!(compile_raw("(x)").unwrap_err(), "命令を解析できません: (x)");
}

#[test]
fn inline_if_compiles_its_body() {
    let op = parse_inline_if("if a < 2 (print (x))").unwrap().unwrap();
    assert_eq!(
        op_js(&op),
        "{kind:\"if\",left:\"a\",operator:\"<\",right:\"2\",body:[{kind:\"command\",name:\"print\",target:null,value:\"x\"}]}"
    );
    assert!(parse_inline_if("iffy (x)").unwrap().is_none());
    assert!(parse_inline_if("if a = 1 (x) y").unwrap().is_none());
    assert!(parse_inline_if("if [a (x)] b").unwrap().is_none());
    assert!(parse_inline_if("if a (x)").unwrap().is_none());
}

#[test]
fn commands_and_their_parts() {
    let op = command("break", None, None);
    assert_eq!(op_js(&op), "{kind:\"command\",name:\"break\",target:null,value:null}");
    match command("x", Some("t".to_string()), None) {
        Op::Command { name, target, value } => {
            assert_eq!(name, "x");
            assert_eq!(target, Some("t".to_string()));
            assert_eq!(value, None);
        }
        Op::If { .. } => panic!("a command"),
    }
    let (name, rest) = split_command(&chars("WarpUI.text(a) b"));
    assert_eq!(text(&name), "WarpUI.text");
    assert_eq!(text(&rest), "(a) b");
    let (name, rest) = split_command(&chars("single"));
    assert_eq!(text(&name), "single");
    assert_eq!(text(&rest), "");
    assert_eq!(
        parse_target_value(&chars("box [a(b)] (v(1))")).unwrap(),
        ("box [a(b)]".to_string(), "v(1)".to_string())
    );
    assert_eq!(
        parse_target_value(&chars(" (v)")).unwrap_err(),
        "命令の名前またはIDが空です"
    );
    assert_eq!(
        parse_target_value(&chars("b (v) z")).unwrap_err(),
        "値の後ろに解釈できない文字があります"
    );
    assert_eq!(parse_target_value(&chars("b (v")).unwrap_err(), "'(' が閉じられていません");
}

#[test]
fn keywords_and_conditions() {
    assert!(keyword_boundary(&chars("if"), "if"));
    assert!(keyword_boundary(&chars("if(x)"), "if"));
    assert!(keyword_boundary(&chars("if x"), "if"));
    assert!(!keyword_boundary(&chars("ifx"), "if"));
    assert_eq!(
        split_condition(&chars("a[x=1] != (b=c)")),
        Some(("a[x=1]".to_string(), "!=".to_string(), "(b=c)".to_string()))
    );
    assert_eq!(
        split_condition(&chars(" x > 3 ")),
        Some(("x".to_string(), ">".to_string(), "3".to_string()))
    );
    assert_eq!(split_condition(&chars("[a=b]")), None);
    assert_eq!(parse_fun_definition(&chars("fun (go)")).unwrap(), Some("go".to_string()));
    assert_eq!(parse_fun_definition(&chars("fun go")).unwrap(), None);
    assert_eq!(parse_fun_definition(&chars("fun (go) x")).unwrap(), None);
    assert_eq!(parse_fun_definition(&chars("funny (go)")).unwrap(), None);
    assert_eq!(parse_fun_definition(&chars("fun ( )")).unwrap_err(), "fun の関数名が空です");
}

#[test]
fn script_parser_splits_lines_and_blocks() {
    let mut parser = ScriptParser::new("a (x\ny)\nb { c }\n  \nd");
    let nodes = parser.parse_program(false).unwrap();
    assert_eq!(nodes.len(), 3);
    assert!(parser.eof());
}

#[test]
fn balanced_text_and_top_level_search() {
    let v = chars("a[(]b(c(d)e)f");
    assert_eq!(find_top_level_char(&v, '('), Some(5));
    let (inside, end) = read_balanced_str(&v, 5, '(', ')').unwrap();
    assert_eq!(text(&inside), "c(d)e");
    assert_eq!(end, 12);
    assert_eq!(read_balanced_str(&v, 0, '(', ')').unwrap_err(), "'(' が必要です");
    assert_eq!(find_top_level_char(&chars("[(]"), '('), None);
}

#[test]
fn comments_end_at_the_hash() {
    assert_eq!(strip_comments("a # b\nc\n# d\ne"), "a \nc\n\ne");
    assert_eq!(strip_comments("x\n"), "x");
}

#[test]
fn hash_inside_parentheses_is_kept() {
    let source = "var.set color (#ff0000)\nWarpUI.background title (var[color])";
    assert_eq!(strip_comments(source), source);
    assert!(compile_script(&strip_comments(source)).is_ok());
    assert_eq!(strip_comments("x (a) # c"), "x (a) ");
    assert_eq!(strip_comments("x (a # b) # c"), "x (a # b) ");
}

#[test]
fn same_open_and_close_never_closes() {
    assert_eq!(read_balanced_str(&chars("'a'"), 0, '\'', '\'').unwrap_err(), "''' が閉じられていません");
    assert_eq!(read_balanced_str(&chars("x(a(b)c)d"), 1, '(', ')').map(|(i, e)| (text(&i), e)), Ok(("a(b)c".to_string(), 8)));
}

#[test]
fn warp4_strings_and_escapes() {
    assert_eq!(js_string("a\\b\"c\nd\re\u{2028}f\u{2029}"), "\"a\\\\b\\\"c\\nd\\re\\u2028f\\u2029\"");
    assert_eq!(js_string("tab\there"), "\"tab\there\"");
    assert_eq!(esc_text("<a & \"b\">"), "&lt;a &amp; \"b\"&gt;");
    assert_eq!(esc_attr("<a & \"b\">"), "&lt;a &amp; &quot;b&quot;&gt;");
}

#[test]
fn config_lines_need_an_equals_sign() {
    let entries = parse_config("# top\nname = Demo\n\n;x\nscreen=home\nname=Later", "cfg.ini").unwrap();
    assert_eq!(
        entries,
        vec![
            ("name".to_string(), "Demo".to_string()),
            ("screen".to_string(), "home".to_string()),
            ("name".to_string(), "Later".to_string()),
        ]
    );
    assert_eq!(
        parse_config("a=1\nbroken", "cfg.ini").unwrap_err(),
        "cfg.ini:2: key=value の形式が必要です"
    );
}

#[test]
fn reference_style_sheet() {
    assert_eq!(reference_css("<html><style>body{}</style></html>"), "body{}");
    let builtin = reference_css("");
    assert!(builtin.len() > 100);
    assert_eq!(reference_css("<style>unclosed"), builtin);
}

#[test]
fn document_holds_screens_and_scripts() {
    let config = parse_config("name=My <App>", "c").unwrap();
    let screens = vec![Screen {
        name: "main".to_string(),
        body: "<p>hi</p>".to_string(),
        script: compile_script("print (x)").unwrap(),
    }];
    let html = build_document("main", &config, &screens, "CSS");
    assert!(html.contains("<title>My &lt;App&gt;</title>"));
    assert!(html.contains("<style>CSS\n.warp-screen{display:none"));
    assert!(html.contains(
        "<section class=\"warp-screen\" id=\"screen-main\" data-screen=\"main\"><p>hi</p></section>"
    ));
    assert!(html.contains(
        "const SCREENS={\"main\":{init:[{kind:\"command\",name:\"print\",target:null,value:\"x\"}],events:{},functions:[]}};\nconst ENTRY=\"main\";"
    ));
    let empty: Vec<(String, String)> = Vec::new();
    let html = build_document("e", &empty, &Vec::new(), "");
    assert!(html.contains("<title>Warp 4 Example</title>"));
}

#[test]
fn op_table_keeps_keys_sorted_and_unique() {
    let mut table = OpTable::new();
    assert!(!table.insert("b".to_string(), Vec::new()));
    assert!(!table.insert("a".to_string(), Vec::new()));
    assert!(table.insert("b".to_string(), vec![command("x", None, None)]));
    assert_eq!(table.len(), 2);
    assert_eq!(table.get(0).0, "a");
    assert_eq!(table.get(1).0, "b");
    assert_eq!(table.get(1).1.len(), 1);
    let empty = ScriptProgram::new();
    assert_eq!(script_js(&empty), "{init:[],events:{},functions:[]}");
}

#[test]
fn layouts_need_the_entry_screen() {
    let none: Vec<(String, String)> = Vec::new();
    assert_eq!(check_layouts("src", "main", &none).unwrap_err(), "src.w3u/.w4u が見つかりません");
    let one = vec![("a".to_string(), "x".to_string())];
    assert_eq!(
        check_layouts("src", "main", &one).unwrap_err(),
        "config.ini の screen 'main' に対応する画面がありません"
    );
    assert!(check_layouts("src", "a", &one).is_ok());
}

#[test]
fn screens_pair_layouts_with_scripts_by_name() {
    let layouts = vec![
        ("b".to_string(), "B1".to_string()),
        ("a".to_string(), "A".to_string()),
        ("b".to_string(), "B2".to_string()),
    ];
    let scripts = vec![
        ("b".to_string(), compile_script("print (1)").unwrap()),
        ("c".to_string(), compile_script("print (3)").unwrap()),
        ("b".to_string(), compile_script("print (2)").unwrap()),
    ];
    let screens = assemble_screens(&layouts, scripts);
    assert_eq!(screens.len(), 2);
    assert_eq!(screens[0].name, "a");
    assert_eq!(screens[0].body, "A");
    assert_eq!(script_js(&screens[0].script), "{init:[],events:{},functions:[]}");
    assert_eq!(screens[1].name, "b");
    assert_eq!(screens[1].body, "B2");
    assert_eq!(
        script_js(&screens[1].script),
        "{init:[{kind:\"command\",name:\"print\",target:null,value:\"2\"}],events:{},functions:[]}"
    );
}
