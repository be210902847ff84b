use warp::layout::{common_parts, render_children, render_node, Attr, Element, Reading};
use warp::ui4::{attrs_to_string, dim, Dim};

fn format_px(v: f64) -> String {
    if v.fract() == 0.0 {
        format!("{}px", v as i64)
    } else {
        format!("{v}px")
    }
}

fn reading(value: &str) -> Reading {
    let numeric: String = value
        .chars()
        .take_while(|c| c.is_ascii_digit() || matches!(c, '.' | '-' | '+'))
        .collect();
    match numeric.parse::<f64>() {
        Ok(x) => Reading {
            parsed: true,
            text: format!("{x}"),
            whole: x as i64,
            at_least_one: x.max(1.0) as u64,
            rounded: x.round().max(0.0) as u64,
            positive: x > 0.0,
        },
        Err(_) => Reading {
            parsed: false,
            text: String::new(),
            whole: 0,
            at_least_one: 0,
            rounded: 0,
            positive: false,
        },
    }
}

fn at(name: &str, value: &str, plain: bool) -> Attr {
    let pixels = match dim(value) {
        Dim::Pixels(n) => format_px(n.parse::<f64>().unwrap()),
        Dim::Text(_) => String::new(),
    };
    Attr {
        name: name.to_string(),
        value: value.to_string(),
        plain,
        pixels,
        number: reading(value),
    }
}

fn el(tag: &str, attrs: &[(&str, &str)], children: Vec<Element>) -> Element {
    Element {
        tag: tag.to_string(),
        attrs: attrs.iter().map(|(n, v)| at(n, v, false)).collect(),
        children,
    }
}

#[test]
fn text_view_with_text_styles() {
    let e = el(
        "TextView",
        &[
            ("text", "Hi & bye"),
            ("textSize", "14sp"),
            ("textColor", "#ff0000"),
            ("textStyle", "bold|italic"),
        ],
        vec![],
    );
    assert_eq!(
        render_node(&e, "", ""),
        "<div data-baram-tag=\"TextView\" class=\"baram-view baram-text\" \
         style=\"font-size:14px;color:#ff0000;font-weight:700;font-style:italic\">Hi &amp; bye</div>"
    );
}

#[test]
fn linear_layout_with_weighted_child() {
    let e = el(
        "LinearLayout",
        &[("orientation", "horizontal"), ("layout_width", "match_parent"), ("padding", "8dp")],
        vec![
            el(
                "EditText",
                &[("id", "@+id/name"), ("layout_width", "0dp"), ("layout_weight", "1"), ("hint", "Name")],
                vec![],
            ),
            el("Button", &[("text", "Go")], vec![]),
        ],
    );
    assert_eq!(
        render_node(&e, "", ""),
        "<div data-baram-tag=\"LinearLayout\" data-orientation=\"horizontal\" class=\"baram-view baram-linear\" \
         style=\"width:100%;padding:8px 8px 8px 8px;flex-direction:row\">\
         <input data-baram-tag=\"EditText\" data-baram-id=\"name\" id=\"baram-id-name\" type=\"text\" \
         placeholder=\"Name\" class=\"baram-view baram-edit\" \
         style=\"flex-grow:1;flex-shrink:1;flex-basis:0px;width:auto;min-width:0\">\
         <button data-baram-tag=\"Button\" type=\"button\" class=\"baram-view baram-button\">Go</button>\
         </div>"
    );
}

#[test]
fn table_rows_and_cells() {
    let e = el(
        "TableLayout",
        &[("stretchColumns", "*")],
        vec![
            el("TableRow", &[("layout_height", "48dp")], vec![el("TextView", &[("text", "a")], vec![])]),
            el("View", &[], vec![]),
        ],
    );
    assert_eq!(
        render_node(&e, "", ""),
        "<table data-baram-tag=\"TableLayout\" class=\"baram-view baram-table stretch-all\"><tbody>\
         <tr class=\"table-row\" style=\"height:48px\"><td>\
         <div data-baram-tag=\"TextView\" class=\"baram-view baram-text\">a</div></td></tr></tbody></table>"
    );
}

#[test]
fn rating_bar_lights_rounded_stars() {
    let e = el("RatingBar", &[("numStars", "3"), ("rating", "1.6")], vec![]);
    assert_eq!(
        render_node(&e, "", ""),
        "<div data-baram-tag=\"RatingBar\" data-stars=\"3\" data-rating=\"1.6\" class=\"baram-view baram-rating\">\
         <span class=\"star on\">★</span><span class=\"star on\">★</span><span class=\"star\">★</span></div>"
    );
    let e = el("RatingBar", &[], vec![]);
    let html = render_node(&e, "", "");
    assert!(html.contains("data-stars=\"5\" data-rating=\"0\""));
    assert_eq!(html.matches("<span class=\"star\">").count(), 5);
}

#[test]
fn unknown_tags_stay_visible_with_their_state() {
    let e = el(
        "com.example.Custom",
        &[("layout_marginTop", "4dp"), ("visibility", "gone"), ("enabled", "false"), ("alpha", "0.5")],
        vec![],
    );
    assert_eq!(
        render_node(&e, "", ""),
        "<div data-baram-tag=\"com.example.Custom\" aria-disabled=\"true\" data-w3u-layout_margintop=\"4dp\" \
         data-unknown-tag=\"com.example.Custom\" class=\"baram-view baram-unknown\" \
         style=\"margin:4px 0px 0px 0px;opacity:0.5;display:none;opacity:.45;pointer-events:none\"></div>"
    );
}

#[test]
fn grid_layout_places_its_children() {
    let e = el(
        "GridLayout",
        &[("columnCount", "3")],
        vec![el("View", &[("layout_column", "1"), ("layout_columnSpan", "2")], vec![])],
    );
    assert_eq!(
        render_node(&e, "", ""),
        "<div data-baram-tag=\"GridLayout\" class=\"baram-view baram-grid\" \
         style=\"grid-template-columns:repeat(3,minmax(0,1fr));gap:8px\">\
         <div data-baram-tag=\"View\" class=\"baram-view\" style=\"grid-column-start:2;grid-column-end:span 2\"></div></div>"
    );
}

#[test]
fn style_class_and_toggle_state() {
    let mut e = el("ToggleButton", &[("checked", "TRUE"), ("textOn", "Yes")], vec![]);
    e.attrs.push(at("style", "@style/My.Title", true));
    assert_eq!(
        render_node(&e, "", ""),
        "<button data-baram-tag=\"ToggleButton\" type=\"button\" data-checked=\"true\" data-text-on=\"Yes\" \
         data-text-off=\"OFF\" class=\"baram-view style-My-Title baram-toggle\">Yes</button>"
    );
}

#[test]
fn controls_fall_back_to_their_names() {
    let html = render_children(
        &vec![
            el("CheckBox", &[], vec![]),
            el("Switch", &[("checked", "yes")], vec![]),
            el("SeekBar", &[("max", "10")], vec![]),
        ],
        "FrameLayout",
        "",
    );
    assert_eq!(
        html,
        "<div data-baram-tag=\"CheckBox\" tabindex=\"0\" role=\"checkbox\" data-checked=\"false\" class=\"baram-view baram-checkbox\">\
         <span class=\"mark\"></span><span class=\"control-text\">CheckBox</span></div>\
         <div data-baram-tag=\"Switch\" tabindex=\"0\" role=\"switch\" data-checked=\"false\" class=\"baram-view baram-switch\">\
         <span class=\"track\"><span class=\"thumb\"></span></span><span class=\"control-text\">Switch</span></div>\
         <input data-baram-tag=\"SeekBar\" type=\"range\" min=\"0\" max=\"10\" value=\"0\" class=\"baram-view baram-seek\">"
    );
}

#[test]
fn children_of_absolute_and_vertical_layouts() {
    let child = el("View", &[("layout_x", "10dp"), ("layout_gravity", "right|top")], vec![]);
    let parts = common_parts(&child, "AbsoluteLayout", "");
    assert_eq!(
        attrs_to_string(&parts),
        " data-baram-tag=\"View\" data-w3u-layout_gravity=\"right|top\" class=\"baram-view\" \
         style=\"position:absolute;left:10px;top:0px\""
    );
    let parts = common_parts(&child, "LinearLayout", "vertical");
    assert_eq!(
        attrs_to_string(&parts),
        " data-baram-tag=\"View\" data-w3u-layout_gravity=\"right|top\" class=\"baram-view\" \
         style=\"align-self:flex-end\""
    );
    let parts = common_parts(&child, "LinearLayout", "horizontal");
    assert_eq!(
        attrs_to_string(&parts),
        " data-baram-tag=\"View\" data-w3u-layout_gravity=\"right|top\" class=\"baram-view\" \
         style=\"align-self:flex-start\""
    );
}

#[test]
fn pickers_and_lists() {
    let e = el("NumberPicker", &[("minValue", "2"), ("maxValue", "<9>")], vec![]);
    assert_eq!(
        render_node(&e, "", ""),
        "<div data-baram-tag=\"NumberPicker\" class=\"baram-view baram-number-picker\">\
         <button type=\"button\" data-number-action=\"minus\">−</button><input type=\"number\" min=\"2\" \
         max=\"&lt;9&gt;\" value=\"2\"><button type=\"button\" data-number-action=\"plus\">+</button></div>"
    );
    let e = el("GridView", &[("numColumns", "0.5")], vec![]);
    let html = render_node(&e, "", "");
    assert!(html.contains("style=\"grid-template-columns:repeat(1,1fr)\""));
    assert_eq!(html.matches("baram-grid-cell").count(), 6);
    let e = el("ProgressBar", &[("indeterminate", "false")], vec![]);
    assert_eq!(
        render_node(&e, "", ""),
        "<progress data-baram-tag=\"ProgressBar\" max=\"100\" value=\"0\" class=\"baram-view baram-progress-horizontal\"></progress>"
    );
}
