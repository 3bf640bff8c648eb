use css_layout::css::{Color, Declaration, Selector, SimpleSelector, Unit, Value};
use css_layout::css_parser::{
    parse, translate_color, translate_color_name, translate_hex_color, translate_length,
    translate_unit, value_kind, CssParser, ValueKind,
};

fn text(s: &str) -> Option<String> {
    Some(s.to_string())
}

#[test]
fn parses_a_rule_with_one_length() {
    let sheet = parse("div { width: 10px; }");
    assert_eq!(sheet.rules.len(), 1);
    let rule = &sheet.rules[0];
    assert_eq!(rule.selectors.len(), 1);
    assert_eq!(
        rule.selectors[0].simple,
        vec![SimpleSelector::new(text("div"), None, Vec::new())]
    );
    assert!(rule.selectors[0].combinators.is_empty());
    assert_eq!(
        rule.declarations,
        vec![Declaration::new("width".to_string(), Value::Length(10, Unit::Px))]
    );
}

#[test]
fn parses_classes_and_id() {
    let sheet = parse(".a.b#x { color: red; }");
    assert_eq!(sheet.rules.len(), 1);
    let simple = &sheet.rules[0].selectors[0].simple[0];
    assert_eq!(simple.tag_name, None);
    assert_eq!(simple.classes, vec!["a".to_string(), "b".to_string()]);
    assert_eq!(simple.id, text("x"));
    assert_eq!(sheet.rules[0].declarations.len(), 1);
    assert_eq!(sheet.rules[0].declarations[0].property, "color");
    assert_eq!(
        sheet.rules[0].declarations[0].value,
        Value::Color(Color::new(255, 0, 0, 255))
    );
}

#[test]
fn second_id_removes_the_id() {
    let sheet = parse("div#a#b { }");
    let simple = &sheet.rules[0].selectors[0].simple[0];
    assert_eq!(simple.tag_name, text("div"));
    assert_eq!(simple.id, None);

    let sheet = parse("p#a.k#b.m#c { }");
    let simple = &sheet.rules[0].selectors[0].simple[0];
    assert_eq!(simple.id, None);
    assert_eq!(simple.classes, vec!["k".to_string(), "m".to_string()]);
}

#[test]
fn selector_of_two_ids_alone_is_not_stored() {
    let sheet = parse("#a#b { }");
    assert_eq!(sheet.rules.len(), 1);
    assert!(sheet.rules[0].selectors.is_empty());
    assert!(sheet.rules[0].declarations.is_empty());

    let mut parser = CssParser::new("#a#b { }");
    let selector = parser.parse_selector();
    assert!(selector.is_empty());
}

#[test]
fn empty_id_does_not_count_as_an_id() {
    let sheet = parse("p##x { }");
    let simple = &sheet.rules[0].selectors[0].simple[0];
    assert_eq!(simple.id, text("x"));
}

#[test]
fn keeps_an_unterminated_last_declaration() {
    let sheet = parse("p { color: red }");
    assert_eq!(sheet.rules.len(), 1);
    assert_eq!(
        sheet.rules[0].declarations,
        vec![Declaration::new(
            "color".to_string(),
            Value::Color(Color::new(255, 0, 0, 255))
        )]
    );

    let sheet = parse("p { width: 5px; height: 7px}");
    assert_eq!(
        sheet.rules[0].declarations,
        vec![
            Declaration::new("width".to_string(), Value::Length(5, Unit::Px)),
            Declaration::new("height".to_string(), Value::Length(7, Unit::Px)),
        ]
    );
}

#[test]
fn drops_a_declaration_that_ends_on_a_line_feed() {
    let sheet = parse("p { width: 5px\nheight: 7px; }");
    assert_eq!(
        sheet.rules[0].declarations,
        vec![Declaration::new("height".to_string(), Value::Length(7, Unit::Px))]
    );
}

#[test]
fn reads_lengths() {
    assert_eq!(translate_length("10"), Value::Length(10, Unit::Px));
    assert_eq!(translate_length("50%"), Value::Length(50, Unit::Pct));
    assert_eq!(translate_length("abcpx"), Value::Length(0, Unit::Px));
    assert_eq!(translate_length("10px5"), Value::Length(10, Unit::Px));
    assert_eq!(translate_length(""), Value::Length(0, Unit::Px));
    assert_eq!(translate_length("007em"), Value::Length(7, Unit::Em));
    assert_eq!(translate_length("1.5em"), Value::Length(1, Unit::Px));
    assert_eq!(translate_length("-3px"), Value::Length(0, Unit::Px));
}

#[test]
fn reads_every_unit() {
    let units = [
        ("em", Unit::Em),
        ("ex", Unit::Ex),
        ("ch", Unit::Ch),
        ("rem", Unit::Rem),
        ("vh", Unit::Vh),
        ("vw", Unit::Vw),
        ("vmin", Unit::Vmin),
        ("vmax", Unit::Vmax),
        ("px", Unit::Px),
        ("mm", Unit::Mm),
        ("q", Unit::Q),
        ("cm", Unit::Cm),
        ("in", Unit::In),
        ("pt", Unit::Pt),
        ("pc", Unit::Pc),
        ("%", Unit::Pct),
    ];
    for (suffix, unit) in units {
        assert_eq!(translate_length(&format!("3{}", suffix)), Value::Length(3, unit));
    }
    assert_eq!(translate_length("3furlong"), Value::Length(3, Unit::Px));
    assert_eq!(translate_length("3PX"), Value::Length(3, Unit::Px));
    assert_eq!(translate_length("3EM"), Value::Length(3, Unit::Px));
}

#[test]
fn magnitude_beyond_the_range_reads_as_zero() {
    assert_eq!(
        translate_length("9223372036854775807px"),
        Value::Length(i64::MAX, Unit::Px)
    );
    assert_eq!(translate_length("9223372036854775808px"), Value::Length(0, Unit::Px));
    assert_eq!(
        translate_length("99999999999999999999999999999999em"),
        Value::Length(0, Unit::Em)
    );
}

#[test]
fn numeric_characters_that_are_no_digits_read_as_zero() {
    // U+0663 is a numeric character, so it belongs to the magnitude, which
    // is then no number.
    assert_eq!(translate_length("\u{663}em"), Value::Length(0, Unit::Em));
    assert_eq!(translate_length("1\u{663}em"), Value::Length(0, Unit::Em));
}

#[test]
fn reads_colors() {
    assert_eq!(translate_color("red"), Color::new(255, 0, 0, 255));
    assert_eq!(translate_color("navy"), Color::new(0, 0, 128, 255));
    assert_eq!(translate_color("orange"), Color::new(255, 165, 0, 255));
    assert_eq!(translate_color("transparent"), Color::new(0, 0, 0, 0));
    assert_eq!(translate_color("  teal \t"), Color::new(0, 128, 128, 255));
    assert_eq!(translate_color("#fff"), Color::new(255, 255, 255, 255));
    assert_eq!(translate_color("#1a2"), Color::new(0x11, 0xaa, 0x22, 255));
    assert_eq!(translate_color("#0080FF"), Color::new(0, 128, 255, 255));
    assert_eq!(translate_color("#12345"), Color::default());
    assert_eq!(translate_color("#12345g"), Color::default());
    assert_eq!(translate_color("RED"), Color::default());
    assert_eq!(translate_color("no such colour"), Color::default());
    assert_eq!(translate_color(""), Color::default());
    assert_eq!(Color::default(), Color::new(255, 255, 255, 255));
}

#[test]
fn all_color_keywords() {
    let keywords = [
        ("black", (0, 0, 0)),
        ("silver", (192, 192, 192)),
        ("gray", (128, 128, 128)),
        ("white", (255, 255, 255)),
        ("maroon", (128, 0, 0)),
        ("red", (255, 0, 0)),
        ("purple", (128, 0, 128)),
        ("fuchsia", (255, 0, 255)),
        ("green", (0, 128, 0)),
        ("lime", (0, 255, 0)),
        ("olive", (128, 128, 0)),
        ("yellow", (255, 255, 0)),
        ("navy", (0, 0, 128)),
        ("blue", (0, 0, 255)),
        ("teal", (0, 128, 128)),
        ("aqua", (0, 255, 255)),
        ("orange", (255, 165, 0)),
    ];
    for (name, (r, g, b)) in keywords {
        assert_eq!(translate_color(name), Color::new(r, g, b, 255));
    }
}

#[test]
fn types_values_by_property() {
    let sheet = parse(
        "a { background-color: blue; border-color: lime; color: #000; margin-top: 1px; \
         padding-left: 2em; border-right-width: 3pt; height: 4%; display: Inline-Block; }",
    );
    let d = &sheet.rules[0].declarations;
    assert_eq!(d.len(), 8);
    assert_eq!(d[0].value, Value::Color(Color::new(0, 0, 255, 255)));
    assert_eq!(d[1].value, Value::Color(Color::new(0, 255, 0, 255)));
    assert_eq!(d[2].value, Value::Color(Color::new(0, 0, 0, 255)));
    assert_eq!(d[3].value, Value::Length(1, Unit::Px));
    assert_eq!(d[4].value, Value::Length(2, Unit::Em));
    assert_eq!(d[5].value, Value::Length(3, Unit::Pt));
    assert_eq!(d[6].value, Value::Length(4, Unit::Pct));
    assert_eq!(d[7].property, "display");
    assert_eq!(d[7].value, Value::Other("inline-block".to_string()));
}

#[test]
fn every_length_property_is_typed_as_length() {
    let properties = [
        "margin-right",
        "margin-bottom",
        "margin-left",
        "margin-top",
        "padding-right",
        "padding-bottom",
        "padding-left",
        "padding-top",
        "border-right-width",
        "border-bottom-width",
        "border-left-width",
        "border-top-width",
        "height",
        "width",
    ];
    for property in properties {
        let sheet = parse(&format!("x {{ {}: 12px; }}", property));
        assert_eq!(
            sheet.rules[0].declarations,
            vec![Declaration::new(property.to_string(), Value::Length(12, Unit::Px))]
        );
    }
}

#[test]
fn names_are_in_lower_case() {
    let sheet = parse("DIV.Note#Main { COLOR: RED; Font-Family: Times New ROMAN; }");
    let simple = &sheet.rules[0].selectors[0].simple[0];
    assert_eq!(simple.tag_name, text("div"));
    assert_eq!(simple.id, text("main"));
    assert_eq!(simple.classes, vec!["note".to_string()]);
    let d = &sheet.rules[0].declarations;
    assert_eq!(d[0].property, "color");
    assert_eq!(d[0].value, Value::Color(Color::new(255, 0, 0, 255)));
    assert_eq!(d[1].property, "font-family");
    assert_eq!(d[1].value, Value::Other("times new roman".to_string()));
}

#[test]
fn lower_case_is_that_of_unicode() {
    let sheet = parse("p { CONTENT: \u{c4}\u{d6}; }");
    let d = &sheet.rules[0].declarations;
    assert_eq!(d[0].property, "content");
    assert_eq!(d[0].value, Value::Other("\u{e4}\u{f6}".to_string()));
}

#[test]
fn reads_a_list_of_selectors() {
    let sheet = parse("h1, h2.big ,#top{ margin-top: 4px; }");
    let selectors = &sheet.rules[0].selectors;
    assert_eq!(selectors.len(), 3);
    assert_eq!(
        selectors[0].simple,
        vec![SimpleSelector::new(text("h1"), None, Vec::new())]
    );
    assert_eq!(
        selectors[1].simple,
        vec![SimpleSelector::new(text("h2"), None, vec!["big".to_string()])]
    );
    assert_eq!(
        selectors[2].simple,
        vec![SimpleSelector::new(None, text("top"), Vec::new())]
    );
}

#[test]
fn white_space_separates_selectors_like_a_comma() {
    let sheet = parse("div p { }");
    let selectors = &sheet.rules[0].selectors;
    assert_eq!(selectors.len(), 2);
    assert_eq!(selectors[0].simple[0].tag_name, text("div"));
    assert_eq!(selectors[1].simple[0].tag_name, text("p"));
}

#[test]
fn skips_what_is_no_selector() {
    let sheet = parse("div>p, .x { }");
    let selectors = &sheet.rules[0].selectors;
    assert_eq!(selectors.len(), 2);
    assert_eq!(
        selectors[0].simple,
        vec![SimpleSelector::new(text("div"), None, Vec::new())]
    );
    assert_eq!(
        selectors[1].simple,
        vec![SimpleSelector::new(None, None, vec!["x".to_string()])]
    );

    let sheet = parse("*, 9lives { }");
    assert!(sheet.rules[0].selectors.is_empty());
}

#[test]
fn empty_class_is_dropped() {
    let sheet = parse("p..a.{ }");
    let simple = &sheet.rules[0].selectors[0].simple[0];
    assert_eq!(simple.classes, vec!["a".to_string()]);
}

#[test]
fn parses_rules_in_order() {
    let sheet = parse("a { width: 1px; } b { width: 2px; }\n\nc{width:3px;}");
    assert_eq!(sheet.rules.len(), 3);
    for (k, tag) in ["a", "b", "c"].iter().enumerate() {
        assert_eq!(sheet.rules[k].selectors[0].simple[0].tag_name, text(tag));
        assert_eq!(
            sheet.rules[k].declarations,
            vec![Declaration::new(
                "width".to_string(),
                Value::Length(k as i64 + 1, Unit::Px)
            )]
        );
    }
}

#[test]
fn every_text_is_a_stylesheet() {
    assert!(parse("").rules.is_empty());
    assert_eq!(parse("{").rules.len(), 1);
    assert_eq!(parse("}").rules.len(), 1);
    assert_eq!(parse("div").rules.len(), 1);
    assert_eq!(parse("div {").rules.len(), 1);
    assert_eq!(parse("div { color").rules.len(), 1);
    assert!(parse("div { color").rules[0].declarations.is_empty());
    assert_eq!(parse("div { color: red").rules[0].declarations.len(), 0);
    assert_eq!(parse(":::;;;{{{}}}").rules.len(), 1);
    assert_eq!(parse("{}{}{}").rules.len(), 3);
    assert_eq!(parse("   ").rules.len(), 1);
    assert!(parse("   ").rules[0].selectors.is_empty());
}

#[test]
fn parser_steps_through_the_text() {
    let mut parser = CssParser::new("  h1.x , p { color : blue ; } rest");
    let first = parser.parse_selector();
    assert_eq!(
        first,
        Selector::new(
            vec![SimpleSelector::new(text("h1"), None, vec!["x".to_string()])],
            Vec::new()
        )
    );
    let others = parser.parse_selectors();
    assert_eq!(others.len(), 1);
    assert_eq!(others[0].simple[0].tag_name, text("p"));
    let declarations = parser.parse_declarations();
    assert_eq!(declarations.len(), 1);
    assert_eq!(declarations[0].property, "color ");
    assert_eq!(declarations[0].value, Value::Other("blue ".to_string()));
    assert_eq!(parser.consume_while(|c| c == ' '), " ");
    assert_eq!(parser.parse_identifier(), "rest");
    assert_eq!(parser.parse_id(), None);
    assert!(parser.parse_stylesheet().rules.is_empty());
}

#[test]
fn identifiers() {
    let mut parser = CssParser::new("Foo-Bar_9 -x 9y _z");
    assert_eq!(parser.parse_identifier(), "foo-bar_9");
    assert_eq!(parser.parse_identifier(), "");
    assert_eq!(parser.consume_while(char::is_whitespace), " ");
    assert_eq!(parser.parse_id(), None);
    assert_eq!(parser.consume_while(|c| c != ' '), "-x");
    assert_eq!(parser.consume_while(char::is_whitespace), " ");
    assert_eq!(parser.parse_id(), None);
    assert_eq!(parser.consume_while(|c| c != ' '), "9y");
    assert_eq!(parser.consume_while(char::is_whitespace), " ");
    assert_eq!(parser.parse_id(), Some("_z".to_string()));
    assert_eq!(parser.parse_identifier(), "");
}

#[test]
fn property_name_runs_up_to_the_colon() {
    // Nothing but `:` ends a property name, so a block without one is read
    // into the name of the next declaration.
    let sheet = parse("a { color } b { x: y; }");
    assert_eq!(sheet.rules.len(), 1);
    assert_eq!(sheet.rules[0].declarations.len(), 1);
    assert_eq!(sheet.rules[0].declarations[0].property, "color } b { x");
    assert_eq!(
        sheet.rules[0].declarations[0].value,
        Value::Other("y".to_string())
    );
}

#[test]
fn hexadecimal_colors_in_a_run_of_characters() {
    let chars: Vec<char> = "x#fa0;#10203f".chars().collect();
    assert_eq!(translate_hex_color(&chars, 1, 5), Some(Color::new(255, 170, 0, 255)));
    assert_eq!(translate_hex_color(&chars, 6, 13), Some(Color::new(16, 32, 63, 255)));
    assert_eq!(translate_hex_color(&chars, 0, 5), None);
    assert_eq!(translate_hex_color(&chars, 1, 6), None);
    assert_eq!(translate_hex_color(&chars, 2, 6), None);
    assert_eq!(translate_hex_color(&chars, 3, 3), None);
    assert_eq!(translate_color_name("lime"), Some(Color::new(0, 255, 0, 255)));
    assert_eq!(translate_color_name("Lime"), None);
    assert_eq!(translate_unit("vmin"), Unit::Vmin);
    assert_eq!(translate_unit(""), Unit::Px);
    assert!(matches!(value_kind("color"), ValueKind::Color));
    assert!(matches!(value_kind("width"), ValueKind::Length));
    assert!(matches!(value_kind("display"), ValueKind::Other));
    assert!(matches!(value_kind("Width"), ValueKind::Other));
}
