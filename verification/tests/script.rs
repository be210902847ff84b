use warp::interp4::{Answers, Effect, Interpreter, Query, Stop};
use warp::script4::{
    char_index_to_byte, compare, find_matching_square, parse_call, parse_duration, parse_for_call,
    parse_fun_call, parse_inline_if, parse_name_value, split_condition, starts_at, strip_command,
    CompareOp, Parser, TimeUnit,
};
use warp::syntax4::{header_after_keyword_is_valid, parse_fun_definition_header, ScriptNode};

fn chars(s: &str) -> Vec<char> {
    s.chars().collect()
}

fn parse(src: &str) -> Vec<ScriptNode> {
    Parser::new(src).parse_program(false).unwrap()
}

fn run(src: &str, answers: Answers, fuel: u64) -> (Result<(), Stop>, Vec<String>) {
    let nodes = parse(src);
    let mut it = Interpreter::new(answers, fuel);
    let r = it.run(&nodes);
    let shown = it
        .effects()
        .iter()
        .map(|e| match e {
            Effect::Print(s) => format!("print {s}"),
            Effect::Wait(n, u) => format!("wait {n} {u:?}"),
        })
        .collect();
    (r, shown)
}

#[test]
fn variables_are_set_once_and_edited_only_when_present() {
    let (r, out) = run(
        "var.set x (5)\nvar.set x (6)\nvar.edit y (1)\nconst.set c (k)\nconst.set c (z)\nprint (var[x] const[c] var[y])\nvar.edit x (7)\nprint(var[x])",
        Answers::new(),
        1000,
    );
    assert!(r.is_ok());
    assert_eq!(out, vec!["print 5 k var[y]", "print 7"]);
}

#[test]
fn for_loops_until_break_and_functions_are_hoisted() {
    let (r, out) = run(
        "var.set n (a)\nfor (loop)\nfun (loop) {\n print (var[n])\n if var[n] = aaa (break)\n var.edit n (var[n]a)\n}\nbreak\nprint (end)",
        Answers::new(),
        10_000,
    );
    assert!(r.is_ok());
    assert_eq!(out, vec!["print a", "print aa", "print aaa", "print end"]);
}

#[test]
fn numeric_comparisons_ask_for_an_answer() {
    let (r, out) = run("print (a)\nif 1 < 2 (print (yes))", Answers::new(), 1000);
    assert!(matches!(r, Err(Stop::Needs(Query::Less(ref x, ref y))) if x == "1" && y == "2"));
    assert_eq!(out, vec!["print a"]);

    let mut answers = Answers::new();
    answers.less.push(("1".to_string(), "2".to_string(), true));
    let (r, out) = run("print (a)\nif 1 < 2 (print (yes))", answers, 1000);
    assert!(r.is_ok());
    assert_eq!(out, vec!["print a", "print yes"]);

    let mut answers = Answers::new();
    answers.less.push(("2".to_string(), "1".to_string(), false));
    let (r, out) = run("if 1 > 2 {\n print (no)\n}", answers, 1000);
    assert!(r.is_ok());
    assert!(out.is_empty());
}

#[test]
fn waits_need_a_checked_number() {
    let (r, out) = run("wait (10ms)", Answers::new(), 1000);
    assert!(matches!(r, Err(Stop::Needs(Query::NonNegative(ref n))) if n == "10"));
    assert!(out.is_empty());

    let mut answers = Answers::new();
    answers.non_negative.push(("10".to_string(), true));
    let (r, out) = run("wait (10ms)", answers, 1000);
    assert!(r.is_ok());
    assert_eq!(out, vec!["wait 10 Millis"]);

    let mut answers = Answers::new();
    answers.non_negative.push(("-1".to_string(), false));
    let (r, _) = run("wait (-1 s)", answers, 1000);
    assert!(matches!(r, Err(Stop::Failed(ref m)) if m == "wait の時間 '-1 s' は 0 以上で指定してください"));
}

#[test]
fn calc_results_come_from_the_answers() {
    let (r, _) = run("print (calc[1+2])", Answers::new(), 1000);
    assert!(matches!(r, Err(Stop::Needs(Query::Calc(ref e))) if e == "1+2"));

    let mut answers = Answers::new();
    answers.calc.push(("1+2".to_string(), Ok("3".to_string())));
    let (r, out) = run("print (calc[1+2])", answers, 1000);
    assert!(r.is_ok());
    assert_eq!(out, vec!["print 3"]);

    let mut answers = Answers::new();
    answers.calc.push(("1/0".to_string(), Err("bad".to_string())));
    let (r, _) = run("print (calc[1/0])", answers, 1000);
    assert!(matches!(r, Err(Stop::Failed(ref m)) if m == "bad"));
}

#[test]
fn run_errors() {
    let (r, _) = run("bogus", Answers::new(), 1000);
    assert!(matches!(r, Err(Stop::Failed(ref m)) if m == "不明な命令です: bogus"));
    let (r, _) = run("fun (a) {\n}\nfun (a) {\n}", Answers::new(), 1000);
    assert!(matches!(r, Err(Stop::Failed(ref m)) if m == "関数 'a' は重複定義できません"));
    let (r, _) = run("fun (nope)", Answers::new(), 1000);
    assert!(matches!(r, Err(Stop::Failed(ref m)) if m == "関数 'nope' は定義されていません"));
    let (r, _) = run("print (var[x)", Answers::new(), 1000);
    assert!(matches!(r, Err(Stop::Failed(ref m)) if m == "var[ ... ] の ']' が不足しています"));
    let (r, _) = run("while x {\n}", Answers::new(), 1000);
    assert!(matches!(r, Err(Stop::Failed(ref m)) if m == "不明なブロック命令です: while x"));
}

#[test]
fn endless_loops_run_out_of_fuel() {
    let (r, out) = run("for (f)\nfun (f) {\n print (x)\n}", Answers::new(), 50);
    assert!(matches!(r, Err(Stop::OutOfFuel)));
    assert!(!out.is_empty());
    assert!(out.iter().all(|s| s == "print x"));
}

#[test]
fn parser_strips_comments_and_reports_braces() {
    let nodes = parse("# note\na // b\nif x = 1 {\n  c\n}\n");
    assert_eq!(nodes.len(), 2);
    assert_eq!(
        Parser::new("}").parse_program(false).unwrap_err(),
        "対応する '{' がない '}' があります"
    );
    assert_eq!(Parser::new("a {").parse_program(false).unwrap_err(), "'}' が不足しています");
    assert_eq!(Parser::new(" {").parse_program(false).unwrap_err(), "'{' の前に命令がありません");
}

#[test]
fn conditions_and_comparisons() {
    assert_eq!(
        split_condition(&chars("a[b=c] != d")),
        Some(("a[b=c]".to_string(), CompareOp::Ne, "d".to_string()))
    );
    assert_eq!(
        split_condition(&chars("x(<)>y")),
        Some(("x(<)".to_string(), CompareOp::Gt, "y".to_string()))
    );
    assert_eq!(split_condition(&chars("plain")), None);
    assert!(compare(" a ", CompareOp::Eq, "a", false));
    assert!(compare("a", CompareOp::Ne, "b", false));
    assert!(compare("1", CompareOp::Lt, "2", true));
    assert!(!compare("1", CompareOp::Gt, "2", false));
}

#[test]
fn statement_forms() {
    assert_eq!(strip_command(&chars("var.set x (1)"), "var.set"), Some(chars("x (1)")));
    assert_eq!(strip_command(&chars("var.set"), "var.set"), Some(Vec::new()));
    assert_eq!(strip_command(&chars("var.setx"), "var.set"), None);
    assert_eq!(
        parse_name_value(&chars("x [a(b)] (v (w))"), "var.set").unwrap(),
        ("x [a(b)]".to_string(), "v (w)".to_string())
    );
    assert_eq!(
        parse_name_value(&chars("x"), "var.set").unwrap_err(),
        "var.set は 'var.set 名前 (値)' の形式で指定してください"
    );
    assert_eq!(
        parse_name_value(&chars(" (v)"), "const.set").unwrap_err(),
        "const.set の名前が空です"
    );
    assert_eq!(
        parse_name_value(&chars("x (v) y"), "var.edit").unwrap_err(),
        "var.edit の値の後ろに解釈できない文字があります"
    );
    assert_eq!(parse_call(&chars("print (a(b))"), "print").unwrap(), Some(chars("a(b)")));
    assert_eq!(parse_call(&chars("printer(a)"), "print").unwrap(), None);
    assert_eq!(parse_call(&chars("print x"), "print").unwrap(), None);
    assert_eq!(
        parse_call(&chars("print (a) b"), "print").unwrap_err(),
        "print(...) の後ろに解釈できない文字があります"
    );
    assert_eq!(parse_fun_call(&chars("fun ( go )")).unwrap(), Some("go".to_string()));
    assert_eq!(parse_fun_call(&chars("fun go")).unwrap(), Some("go".to_string()));
    assert_eq!(parse_for_call(&chars("for")).unwrap_err(), "for の関数名が空です");
    assert_eq!(parse_for_call(&chars("fortune")).unwrap(), None);
    assert_eq!(
        parse_inline_if(&chars("if a = b (print (x))")).unwrap(),
        Some(("a".to_string(), CompareOp::Eq, "b".to_string(), "print (x)".to_string()))
    );
    assert_eq!(parse_inline_if(&chars("if a = b (x) y")).unwrap(), None);
    assert!(header_after_keyword_is_valid(&chars("if(x)"), "if"));
    assert!(!header_after_keyword_is_valid(&chars("iffy"), "if"));
    assert_eq!(
        parse_fun_definition_header(&chars("fun (go)")).unwrap(),
        Some("go".to_string())
    );
    assert_eq!(parse_fun_definition_header(&chars("fun go")).unwrap(), None);
}

#[test]
fn durations_keep_number_and_unit() {
    assert_eq!(parse_duration("1.5s").unwrap(), ("1.5".to_string(), TimeUnit::Seconds));
    assert_eq!(parse_duration("2 m").unwrap(), ("2".to_string(), TimeUnit::Minutes));
    assert_eq!(parse_duration("3us").unwrap(), ("3".to_string(), TimeUnit::Micros));
    assert_eq!(parse_duration("4ns").unwrap(), ("4".to_string(), TimeUnit::Nanos));
    assert_eq!(parse_duration("5h").unwrap(), ("5".to_string(), TimeUnit::Hours));
    assert_eq!(
        parse_duration("10").unwrap_err(),
        "wait の時間 '10' に単位がありません (ns/us/ms/s/m/h)"
    );
    assert_eq!(
        parse_duration("xs").unwrap_err(),
        "wait の時間 'xs' を数値として解釈できません"
    );
}

#[test]
fn character_positions() {
    assert_eq!(char_index_to_byte("aé b", 2), 3);
    assert_eq!(char_index_to_byte("aé b", 9), 5);
    let v = chars("x[a[b]c]d");
    assert!(starts_at(&v, 1, "[a["));
    assert!(!starts_at(&v, 8, "dd"));
    assert_eq!(find_matching_square(&v, 1), Some(7));
    assert_eq!(find_matching_square(&v, 0), None);
    assert_eq!(find_matching_square(&chars("[["), 0), None);
}

#[test]
fn more_steps_or_answers_extend_the_effects() {
    let src = "print (a)\nprint (b)\nif 1 < 2 (print (c))\nprint (d)";
    let (_, short) = run(src, Answers::new(), 4);
    let (r, long) = run(src, Answers::new(), 10_000);
    assert!(matches!(r, Err(Stop::Needs(_))));
    assert!(short.len() <= long.len());
    assert_eq!(long[..short.len()], short[..]);
    let mut answers = Answers::new();
    answers.less.push(("1".to_string(), "2".to_string(), true));
    let (r, all) = run(src, answers, 10_000);
    assert!(r.is_ok());
    assert_eq!(all[..long.len()], long[..]);
    assert_eq!(all, vec!["print a", "print b", "print c", "print d"]);
}

#[test]
fn calling_an_unknown_function_fails() {
    let mut it = Interpreter::new(Answers::new(), 1000);
    assert!(it.call_function("nope", 0).is_err());
}

#[test]
fn expansion_reaches_a_fixed_point() {
    let nodes = parse("var.set a (x)\nvar.set b (var[a]y)");
    let mut it = Interpreter::new(Answers::new(), 10_000);
    assert!(it.run(&nodes).is_ok());
    let t = it.expand_all("<var[b]> var[c]").unwrap();
    assert_eq!(t, "<xy> var[c]");
    assert_eq!(it.expand_all(&t).unwrap(), t);
    assert_eq!(it.expand_pass(&t).unwrap().0, t);
}
