use warp::names::{chars_lt, NameSet};
use warp::text::{decimal_vec, is_float_text, lines_vec, parse_u64, split_whitespace_vec, trim_vec};
use warp::ui4::{
    apply_gravity, attrs_to_string, build_document, dim, esc_attr, esc_text, id_name, is_css_color,
    void_tag, wrap, Dim, Parts,
};

fn chars(s: &str) -> Vec<char> {
    s.chars().collect()
}

fn text(v: &[char]) -> String {
    v.iter().collect()
}

fn parts(classes: &[&str], styles: &[&str], attrs: &[&str]) -> Parts {
    let mut p = Parts::new();
    p.classes = classes.iter().map(|s| s.to_string()).collect();
    p.styles = styles.iter().map(|s| s.to_string()).collect();
    p.attrs = attrs.iter().map(|s| s.to_string()).collect();
    p
}

#[test]
fn attributes_join_classes_and_styles() {
    let p = parts(&["a", "b\""], &["x:1", "y:2"], &["id=\"q\""]);
    assert_eq!(attrs_to_string(&p), " id=\"q\" class=\"a b&quot;\" style=\"x:1;y:2\"");
    assert_eq!(wrap("div", &p, "c"), "<div id=\"q\" class=\"a b&quot;\" style=\"x:1;y:2\">c</div>");
    let empty = Parts::new();
    assert_eq!(attrs_to_string(&empty), "");
    assert_eq!(void_tag("br", &empty), "<br>");
    assert_eq!(wrap("p", &empty, ""), "<p></p>");
}

#[test]
fn layout_escapes() {
    assert_eq!(esc_text("a<b>&\"c\""), "a&lt;b&gt;&amp;\"c\"");
    assert_eq!(esc_attr("a<b>&\"c\""), "a&lt;b&gt;&amp;&quot;c&quot;");
}

#[test]
fn ids_lose_their_prefixes() {
    assert_eq!(id_name("@+id/title"), "title");
    assert_eq!(id_name("@id/x"), "x");
    assert_eq!(id_name("@baram:id/y"), "y");
    assert_eq!(id_name("@+id/@+id/z"), "z");
    assert_eq!(id_name("@id/@+id/w"), "@+id/w");
    assert_eq!(id_name("plain"), "plain");
}

#[test]
fn css_colors() {
    assert!(is_css_color("#fff"));
    assert!(is_css_color(" rgb(1,2,3)"));
    assert!(is_css_color("rgba("));
    assert!(is_css_color("red"));
    assert!(is_css_color(""));
    assert!(!is_css_color("12"));
    assert!(!is_css_color("light blue"));
}

#[test]
fn gravity_styles() {
    let mut styles = vec!["keep".to_string()];
    apply_gravity(Some("center|bottom"), &mut styles);
    assert_eq!(
        styles,
        vec![
            "keep",
            "text-align:center",
            "display:flex",
            "align-items:center",
            "justify-content:center",
            "display:flex",
            "align-items:flex-end",
        ]
    );
    let mut styles = Vec::new();
    apply_gravity(Some("end"), &mut styles);
    assert_eq!(styles, vec!["text-align:right"]);
    let mut styles = Vec::new();
    apply_gravity(Some("center_vertical"), &mut styles);
    assert_eq!(styles, vec!["display:flex", "align-items:center"]);
    let mut styles = Vec::new();
    apply_gravity(None, &mut styles);
    assert!(styles.is_empty());
}

fn dim_text(v: &str) -> String {
    match dim(v) {
        Dim::Text(t) => format!("text {t}"),
        Dim::Pixels(n) => format!("px {n}"),
    }
}

#[test]
fn sizes() {
    assert_eq!(dim_text("match_parent"), "text 100%");
    assert_eq!(dim_text("fill_parent"), "text 100%");
    assert_eq!(dim_text("wrap_content"), "text auto");
    assert_eq!(dim_text(" 12dp "), "px 12");
    assert_eq!(dim_text("1.5sp"), "px 1.5");
    assert_eq!(dim_text("3dip"), "px 3");
    assert_eq!(dim_text("4px"), "px 4");
    assert_eq!(dim_text("7"), "px 7");
    assert_eq!(dim_text("50%"), "text 50%");
    assert_eq!(dim_text(" match_parent"), "text match_parent");
}

#[test]
fn layout_page_wraps_the_body() {
    let page = build_document("BODY");
    assert!(page.starts_with("<!doctype html>\n<html lang=\"ja\">"));
    assert!(page.contains("<div id=\"app\">BODY</div>\n<script>"));
    assert!(page.ends_with("</script>\n</body>\n</html>\n"));
}

#[test]
fn name_sets_stay_sorted_without_duplicates() {
    let mut set = NameSet::new();
    for n in ["pear", "apple", "fig", "apple", "banana"] {
        set.insert(n.to_string());
    }
    assert_eq!(set.len(), 4);
    assert_eq!(set.to_vec(), vec!["apple", "banana", "fig", "pear"]);
    assert!(set.contains(&chars("fig")));
    assert!(!set.contains(&chars("grape")));
    assert_eq!(set.get(0), "apple");
    assert!(chars_lt(&chars("ab"), &chars("b")));
    assert!(chars_lt(&chars("a"), &chars("ab")));
    assert!(!chars_lt(&chars("ab"), &chars("ab")));
}

#[test]
fn text_helpers() {
    assert_eq!(parse_u64(&chars("0042")), Some(42));
    assert_eq!(parse_u64(&chars("18446744073709551615")), Some(u64::MAX));
    assert_eq!(parse_u64(&chars("18446744073709551616")), None);
    assert_eq!(parse_u64(&chars("")), None);
    assert_eq!(parse_u64(&chars("+1")), Some(1));
    assert_eq!(parse_u64(&chars("1 ")), None);
    for ok in ["1", "-1.5", "+.5", "5.", "1e3", "1E-3", "inf", "-Infinity", "NaN"] {
        assert!(is_float_text(&chars(ok)), "{ok}");
        assert!(ok.parse::<f64>().is_ok());
    }
    for bad in ["", ".", "e3", "1e", "1..2", "0x10", " 1", "infinite"] {
        assert!(!is_float_text(&chars(bad)), "{bad}");
        assert!(bad.parse::<f64>().is_err());
    }
    assert_eq!(text(&decimal_vec(0)), "0");
    assert_eq!(text(&decimal_vec(1234)), "1234");
    assert_eq!(text(&trim_vec(&chars(" \t a b \n"))), "a b");
    let words: Vec<String> = split_whitespace_vec(&chars("  a  bc\td ")).iter().map(|w| text(w)).collect();
    assert_eq!(words, vec!["a", "bc", "d"]);
    let lines: Vec<String> = lines_vec(&chars("a\r\nb\n\nc\n")).iter().map(|w| text(w)).collect();
    assert_eq!(lines, vec!["a", "b", "", "c"]);
}
