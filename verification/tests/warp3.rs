use warp::compile3::{
    compile_settings, generate_js, index_html, render_actions, value_expr, variable_names, Screen3,
};
use warp::emit::{escape_html, js_string, node_classes, render_children, render_node};
use warp::names::NameSet;
use warp::warp3::{ini, ini_get, parse_script, SectionKind, UiParser};

#[test]
fn parses_nested_ui_and_escapes_text() {
    let nodes = UiParser::new(
        r#"head,scroll-point.title { text("Hello\n<world>") }
               button.go { text("Go") type("primary") }"#,
    )
    .parse()
    .unwrap();
    assert_eq!(nodes.len(), 2);
    assert_eq!(nodes[0].tags, vec!["head", "scroll-point"]);
    let mut html = String::new();
    render_children(&nodes, &mut html);
    assert!(html.contains("data-w3-scroll-point"));
    assert!(html.contains("Hello<br>&lt;world&gt;"));
}

#[test]
fn parses_script_sections() {
    let file = std::path::Path::new("test.w2s").display().to_string();
    let sections = parse_script("[onClick = add]\ncount = +1\nfun = update\n", &file).unwrap();
    assert_eq!(sections.len(), 1);
    assert_eq!(sections[0].actions.len(), 2);
}

#[test]
fn ui_parser_reads_classes_props_and_children() {
    let nodes = UiParser::new(
        "// a comment\ncard.main.wide { text(\"T\") list-box { list { text(\"a\\\"b\") } } }",
    )
    .parse()
    .unwrap();
    assert_eq!(nodes.len(), 1);
    assert_eq!(nodes[0].tags, vec!["card"]);
    assert_eq!(nodes[0].classes, vec!["main", "wide"]);
    assert_eq!(nodes[0].props, vec![("text".to_string(), "T".to_string())]);
    assert_eq!(nodes[0].children.len(), 1);
    let list = &nodes[0].children[0].children[0];
    assert_eq!(list.props, vec![("text".to_string(), "a\"b".to_string())]);
}

#[test]
fn ui_parser_reports_errors() {
    let err = UiParser::new("text(\"x\")").parse().unwrap_err();
    assert_eq!(err, "ルートではプロパティ `text` を使えません（値: x）");
    let err = UiParser::new("}").parse().unwrap_err();
    assert_eq!(err, "1文字目に余分な `}` があります");
    let err = UiParser::new("card { ").parse().unwrap_err();
    assert_eq!(err, "閉じる `}` がありません");
    let err = UiParser::new("card").parse().unwrap_err();
    assert_eq!(err, "5文字目: `{` または `(` が必要です（実際: None）");
    let err = UiParser::new("card ;").parse().unwrap_err();
    assert_eq!(err, "6文字目: `{` または `(` が必要です（実際: Some(';')）");
    let err = UiParser::new("card { text(\"x) }").parse().unwrap_err();
    assert_eq!(err, "文字列が閉じられていません");
    let err = UiParser::new("card '").parse().unwrap_err();
    assert_eq!(err, "6文字目: `{` または `(` が必要です（実際: Some('\\'')）");
    let err = UiParser::new("card\n\u{3042}").parse().unwrap_err();
    assert_eq!(err, "6文字目: `{` または `(` が必要です（実際: Some('あ')）");
    let err = UiParser::new(".x { }").parse().unwrap_err();
    assert_eq!(err, "1文字目: 名前が必要です");
}

#[test]
fn renders_each_kind_of_element() {
    let nodes = UiParser::new(
        "button.go { text(\"Go\") type(\"primary\") }\n\
         input { text(\"a<b\") }\n\
         switch { default(\"true\") }\n\
         toolbar { text(\"T\") }\n\
         config { title(\"x\") }",
    )
    .parse()
    .unwrap();
    let mut html = String::new();
    render_children(&nodes, &mut html);
    assert_eq!(
        html,
        "<button type=\"button\" class=\"w3-element w3-button go w3-button-primary\">Go</button>\
         <input class=\"w3-element w3-input\" value=\"a&lt;b\">\
         <label class=\"w3-element w3-switch\"><input type=\"checkbox\" checked><span></span></label>\
         <nav class=\"w3-element w3-toolbar\">T</nav>"
    );
}

#[test]
fn renders_tabs_with_their_pages() {
    let nodes = UiParser::new(
        "tab { content { text(\"One\") head { text(\"h\") } } content { text(\"Two\") } }",
    )
    .parse()
    .unwrap();
    let mut html = String::new();
    render_node(&nodes[0], &mut html);
    assert_eq!(
        html,
        "<section class=\"w3-element w3-tab w3-tab-top\" data-w3-tabs><div class=\"w3-tab-controls\" role=\"tablist\">\
         <button type=\"button\" role=\"tab\" data-w3-tab-button=\"0\">One</button>\
         <button type=\"button\" role=\"tab\" data-w3-tab-button=\"1\">Two</button>\
         </div><div class=\"w3-tab-pages\">\
         <div class=\"w3-tab-page\" role=\"tabpanel\" data-w3-tab-page=\"0\"><h2 class=\"w3-element w3-head\">h</h2></div>\
         <div class=\"w3-tab-page\" role=\"tabpanel\" data-w3-tab-page=\"1\"></div>\
         </div></section>"
    );
}

#[test]
fn names_may_hold_any_letter_or_digit() {
    let nodes = UiParser::new("caf\u{e9}_2-x.\u{540d}\u{524d} { }").parse().unwrap();
    assert_eq!(nodes[0].tags, vec!["caf\u{e9}_2-x"]);
    assert_eq!(nodes[0].classes, vec!["\u{540d}\u{524d}"]);
    let err = UiParser::new("a.# { }").parse().unwrap_err();
    assert_eq!(err, "3文字目: 名前が必要です");
}

#[test]
fn node_classes_lists_extra_tags_and_classes() {
    let nodes = UiParser::new("head,scroll-point,x.title.big { }").parse().unwrap();
    assert_eq!(
        node_classes(&nodes[0], "head"),
        "w3-element w3-head w3-scroll-point w3-x title big"
    );
}

#[test]
fn escapes_html_and_javascript() {
    assert_eq!(
        escape_html("<a href=\"x\">&</a>"),
        "&lt;a href=&quot;x&quot;&gt;&amp;&lt;/a&gt;"
    );
    assert_eq!(
        js_string("a\"b\\c\nd\te\r\u{1}é"),
        "\"a\\\"b\\\\c\\nd\\te\\r\\u0001é\""
    );
}

#[test]
fn script_errors_name_the_line() {
    assert_eq!(
        parse_script("[onClick add]", "test.w2s").unwrap_err(),
        "test.w2s:1: セクションには `=` が必要です"
    );
    assert_eq!(
        parse_script("# note\n[bogus = x]", "test.w2s").unwrap_err(),
        "test.w2s:2: 不明なセクション `bogus`"
    );
    assert_eq!(
        parse_script("count = 1", "test.w2s").unwrap_err(),
        "test.w2s:1: 命令より前にセクションが必要です"
    );
    assert_eq!(
        parse_script("[fun = f]\nnoeq", "test.w2s").unwrap_err(),
        "test.w2s:2: 命令には `=` が必要です"
    );
}

#[test]
fn script_sections_keep_kind_name_and_actions() {
    let sections =
        parse_script("// c\n[fun = update ]\n  setText title = count \n\n[onClick=go]\nscreen = b", "s")
            .unwrap();
    assert_eq!(sections.len(), 2);
    assert!(sections[0].kind == SectionKind::Function);
    assert_eq!(sections[0].name, "update");
    assert_eq!(
        sections[0].actions,
        vec![("setText title".to_string(), "count".to_string())]
    );
    assert!(sections[1].kind == SectionKind::Click);
    assert_eq!(sections[1].name, "go");
}

#[test]
fn ini_keeps_the_last_value_of_a_key() {
    let entries = ini("a=1\n# c\n;x=2\n b = 2 \nnovalue\na=3");
    assert_eq!(ini_get(&entries, "a"), Some("3".to_string()));
    assert_eq!(ini_get(&entries, "b"), Some("2".to_string()));
    assert_eq!(ini_get(&entries, "x"), None);
    assert_eq!(ini_get(&entries, "novalue"), None);
}

#[test]
fn renders_actions_to_javascript() {
    let mut vars = NameSet::new();
    vars.insert("count".to_string());
    let actions = vec![
        ("scroll".to_string(), "+1".to_string()),
        ("scroll".to_string(), "top".to_string()),
        ("print".to_string(), "\"hi\"".to_string()),
        ("screen".to_string(), "b".to_string()),
        ("wait".to_string(), "10ms".to_string()),
        ("fun".to_string(), "f".to_string()),
        ("count".to_string(), "+2".to_string()),
        ("count".to_string(), "-1.5".to_string()),
        ("name".to_string(), "\"x\"".to_string()),
        ("setText title".to_string(), "count".to_string()),
        ("getText name".to_string(), "field".to_string()),
    ];
    let js = render_actions(&actions, &vars).unwrap();
    assert_eq!(
        js,
        "  scrollRelative(+1);\n\
         \x20 scrollToPoint(\"top\");\n\
         \x20 console.log(\"hi\");\n\
         \x20 showScreen(\"b\");\n\
         \x20 await delay(10);\n\
         \x20 await functions[\"f\"]();\n\
         \x20 state[\"count\"] = (Number(state[\"count\"]) || 0) + 2;\n\
         \x20 state[\"count\"] = (Number(state[\"count\"]) || 0) -1.5;\n\
         \x20 state[\"name\"] = \"x\";\n\
         \x20 setElementText(\"title\", state[\"count\"]);\n\
         \x20 state[\"name\"] = getElementText(\"field\");\n"
    );
}

#[test]
fn scroll_target_loses_its_quotes() {
    let vars = NameSet::new();
    let actions = vec![("scroll".to_string(), "\"top-point\"".to_string())];
    assert_eq!(render_actions(&actions, &vars).unwrap(), "  scrollToPoint(\"top-point\");\n");
}

#[test]
fn identifier_error_keeps_the_cursor() {
    let mut p = UiParser::new(".x");
    assert!(p.parse_ident().is_err());
    assert_eq!(p.pos, 0);
    let mut q = UiParser::new("ab-c_1 rest");
    assert_eq!(q.parse_ident().unwrap(), "ab-c_1");
    assert_eq!(q.pos, 6);
}

#[test]
fn render_actions_reports_each_error() {
    let vars = NameSet::new();
    let one = |l: &str, r: &str| vec![(l.to_string(), r.to_string())];
    assert_eq!(
        render_actions(&one("wait", "soon"), &vars).unwrap_err(),
        "wait の値 `soon` は `10ms` の形式で指定してください"
    );
    assert_eq!(
        render_actions(&one("x", "+a"), &vars).unwrap_err(),
        "`x = +a` の加算値が不正です"
    );
    assert_eq!(
        render_actions(&one("a b c", "1"), &vars).unwrap_err(),
        "不明な命令 `a b c`"
    );
}

#[test]
fn value_expressions() {
    let mut vars = NameSet::new();
    vars.insert("n".to_string());
    assert_eq!(value_expr(" n ", &vars), "state[\"n\"]");
    assert_eq!(value_expr("\"hi\"", &vars), "\"hi\"");
    assert_eq!(value_expr("1e3", &vars), "1e3");
    assert_eq!(value_expr("-2.5", &vars), "-2.5");
    assert_eq!(value_expr("inf", &vars), "inf");
    assert_eq!(value_expr("abc", &vars), "\"abc\"");
    assert_eq!(value_expr("\"", &vars), "\"\\\"\"");
}

#[test]
fn variables_come_from_assignments_and_get_text() {
    let sections = parse_script(
        "[onClick = a]\nzeta = 1\ngetText name = field\nprint = x\nsetText t = 1\nalpha = 2",
        "s",
    )
    .unwrap();
    let names = variable_names(&sections);
    assert_eq!(names.to_vec(), vec!["alpha", "name", "zeta"]);
}

#[test]
fn settings_need_version_three() {
    let ok = compile_settings(&ini("version=3\nname=Demo")).unwrap();
    assert_eq!(ok, ("main".to_string(), "Demo".to_string()));
    let ok = compile_settings(&ini("version=3\nscreen=home")).unwrap();
    assert_eq!(ok, ("home".to_string(), "Warp 3 App".to_string()));
    assert_eq!(
        compile_settings(&ini("version=2")).unwrap_err(),
        "config.ini の `version=3` が必要です"
    );
}

#[test]
fn app_script_shows_the_start_screen() {
    let sections = parse_script("[onClick = go]\nscreen = b\n[fun = f]\nprint = x", "s").unwrap();
    let vars = variable_names(&sections);
    let js = generate_js(&sections, &vars, "main").unwrap();
    assert!(js.contains("showScreen(\"main\");"));
    assert!(js.contains("  showScreen(\"b\");\n"));
    assert!(js.contains("console.log(\"x\");"));
    assert!(js.contains("\nfunctions[\"f\"] = async function () {\n  console.log(\"x\");\n };\n"));
    assert!(js.starts_with("\"use strict\";"));
    assert!(js.ends_with("});\n"));
}

#[test]
fn app_script_fails_at_a_failing_section() {
    let sections = parse_script("[fun = f]\nprint = x\n[onClick = go]\nwait = soon", "s").unwrap();
    let vars = variable_names(&sections);
    assert_eq!(
        generate_js(&sections, &vars, "main").unwrap_err(),
        "wait の値 `soon` は `10ms` の形式で指定してください"
    );
}

#[test]
fn sections_and_actions_match_the_lines() {
    let sections = parse_script("# c\n[onClick = a]\nx = 1\n\ny = 2\n[fun = f]\n// d\nprint = z", "s").unwrap();
    assert_eq!(sections.len(), 2);
    assert_eq!(sections.iter().map(|s| s.actions.len()).sum::<usize>(), 3);
    assert_eq!(sections[0].actions.len(), 2);
    assert_eq!(sections[1].actions.len(), 1);
    assert_eq!(sections[0].name, "a");
    assert_eq!(sections[0].kind, SectionKind::Click);
    assert_eq!(
        sections[0].actions,
        vec![("x".to_string(), "1".to_string()), ("y".to_string(), "2".to_string())]
    );
    assert_eq!(sections[1].name, "f");
    assert_eq!(sections[1].kind, SectionKind::Function);
    assert_eq!(sections[1].actions, vec![("print".to_string(), "z".to_string())]);
}

#[test]
fn index_page_holds_every_screen() {
    let nodes = UiParser::new("text { text(\"Hi\") }").parse().unwrap();
    let screens = vec![Screen3 {
        name: "main".to_string(),
        title: "Main <1>".to_string(),
        nodes,
    }];
    let html = index_html("App & co", &screens);
    assert!(html.contains("App &amp; co"));
    assert!(html.contains("<p class=\"w3-element w3-text\">Hi</p>"));
}
