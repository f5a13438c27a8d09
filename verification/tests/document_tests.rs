use slidedeck::cursor::ParserCursor;
use slidedeck::document::{
    Card, ConfigCard, ConfigData, ConfigKwds, LexType, ParseHalt, SlideCard, SlideData, ValueType,
};
use slidedeck::elements::{font_func, header_func, image_func, tex_func};
use slidedeck::parser::gen_config_func;
use slidedeck::reader::{construct_document, div_func, parse_document, read_contents};

fn num(s: &str) -> ValueType {
    ValueType::Num(s.to_string())
}

fn text(s: &str) -> ValueType {
    ValueType::Str(s.to_string())
}

fn setting(kwd: ConfigKwds, data: ValueType) -> ConfigData {
    ConfigData { kwd, data }
}

fn text_item(config: Option<ConfigCard>, data: ValueType, text_row: usize) -> SlideData {
    SlideData { config, kwd: ConfigKwds::text, data, text_row }
}

#[test]
fn settings_are_read_by_name() {
    let mut c = ParserCursor::new(String::from("#image(path = \"a.png\", width = 0.5)\n"));
    let table = [
        ("path", ConfigKwds::image_path, LexType::Str),
        ("width", ConfigKwds::image_width, LexType::Num),
    ];
    let card = gen_config_func(&mut c, &table, "#image").unwrap();
    assert_eq!(
        card.config_data,
        vec![setting(ConfigKwds::image_path, text("a.png")), setting(ConfigKwds::image_width, num("0.5"))]
    );
    assert_eq!(c.current(), Some(')'));
}

#[test]
fn settings_without_parenthesis_are_empty() {
    let mut c = ParserCursor::new(String::from("#image x\n"));
    let table = [("path", ConfigKwds::image_path, LexType::Str)];
    let card = gen_config_func(&mut c, &table, "#image").unwrap();
    assert!(card.config_data.is_empty());
    assert_eq!(c.pos(), 6);
}

#[test]
fn setting_without_equals_is_invalid() {
    let mut c = ParserCursor::new(String::from("#image(width 3)\n"));
    let table = [("width", ConfigKwds::image_width, LexType::Num)];
    let card = gen_config_func(&mut c, &table, "#image").unwrap();
    assert_eq!(card.config_data, vec![setting(ConfigKwds::image_width, ValueType::Invalid)]);
}

#[test]
fn unclosed_settings_never_end() {
    let mut c = ParserCursor::new(String::from("#image(width = 1\n"));
    let table = [("width", ConfigKwds::image_width, LexType::Num)];
    assert_eq!(gen_config_func(&mut c, &table, "#image"), Err(ParseHalt::Endless));
}

#[test]
fn image_element() {
    let mut c = ParserCursor::new(String::from("#image(path = \"p\")\nx"));
    let d = image_func(&mut c).unwrap();
    assert_eq!(d.kwd, ConfigKwds::image);
    assert_eq!(d.data, ValueType::Invalid);
    assert_eq!(d.text_row, 1);
    assert_eq!(
        d.config,
        Some(ConfigCard { config_data: vec![setting(ConfigKwds::image_path, text("p"))] })
    );
}

#[test]
fn header_element() {
    let mut c = ParserCursor::new(String::from("#header1 Title\n\n"));
    let d = header_func(&mut c).unwrap();
    assert_eq!(d.kwd, ConfigKwds::header1);
    assert_eq!(d.data, text(" Title"));
    assert_eq!(d.config, None);
}

#[test]
fn second_header_kind_is_not_recognised() {
    // The first name is tried and consumes "#header"; the others are then
    // tried where it stopped.
    let mut c = ParserCursor::new(String::from("#header2 T\n\n"));
    let d = header_func(&mut c).unwrap();
    assert_eq!(d.kwd, ConfigKwds::default);
    assert_eq!(d.data, text("2 T"));
}

#[test]
fn font_on_one_line() {
    let mut c = ParserCursor::new(String::from("#font(size = 10) big\n\n"));
    let items = font_func(&mut c).unwrap();
    let config = ConfigCard {
        config_data: vec![setting(ConfigKwds::font_size, num("10")), setting(ConfigKwds::font_braced, num("0"))],
    };
    assert_eq!(items, vec![text_item(Some(config), text(" big"), 0)]);
}

#[test]
fn font_in_braces_numbers_its_lines() {
    let mut c = ParserCursor::new(String::from("#font(size = 1){\nab\n#x\n}\n"));
    let items = font_func(&mut c).unwrap();
    let cfg = |n: &str| ConfigCard {
        config_data: vec![setting(ConfigKwds::font_size, num("1")), setting(ConfigKwds::font_braced, num(n))],
    };
    // Last line first.
    assert_eq!(items, vec![text_item(Some(cfg("1")), text("#x"), 2), text_item(Some(cfg("0")), text("ab"), 1)]);
    assert_eq!(c.current(), Some('}'));
}

#[test]
fn braced_text_stops_before_closing_brace() {
    let mut c = ParserCursor::new(String::from("#font(size = 1){ab}\n"));
    let items = font_func(&mut c).unwrap();
    let cfg = ConfigCard {
        config_data: vec![setting(ConfigKwds::font_size, num("1")), setting(ConfigKwds::font_braced, num("0"))],
    };
    assert_eq!(items, vec![text_item(Some(cfg), text("a"), 0)]);
}

#[test]
fn tex_in_braces_joins_its_lines() {
    let mut c = ParserCursor::new(String::from("#tex{\nx^2\ny\n}\n"));
    let d = tex_func(&mut c).unwrap();
    assert_eq!(d.kwd, ConfigKwds::latex);
    assert_eq!(d.data, text("x^2y"));
    assert_eq!(d.config, Some(ConfigCard { config_data: vec![] }));
}

#[test]
fn div_elements_carry_div_settings() {
    let mut c = ParserCursor::new(String::from("#div(width = 1){\nab\n#font(size = 2) cd\n}\n"));
    let items = div_func(&mut c).unwrap();
    let div = setting(ConfigKwds::div_width, num("1"));
    assert_eq!(items.len(), 2);
    for item in items.iter() {
        let cfg = item.config.as_ref().unwrap();
        assert_eq!(cfg.config_data.last(), Some(&div));
    }
    // Last element first.  Each round steps forward first, so the `#` of the
    // second line is passed over and the line is read as text.
    assert_eq!(items[1].data, text("ab"));
    assert_eq!(items[1].text_row, 1);
    assert_eq!(items[1].config, Some(ConfigCard { config_data: vec![setting(ConfigKwds::div_width, num("1")), setting(ConfigKwds::div_width, num("1"))] }));
    assert_eq!(items[0].data, text("font(size = 2) cd"));
    assert_eq!(items[0].text_row, 2);
}

#[test]
fn div_without_brace_is_empty() {
    let mut c = ParserCursor::new(String::from("#div(width = 1) x\n"));
    assert_eq!(div_func(&mut c), Ok(vec![]));
}

#[test]
fn top_level_text_is_not_a_card() {
    let mut c = ParserCursor::new(String::from("hello\n"));
    assert_eq!(read_contents(&mut c), Ok(Card::Default));
}

#[test]
fn one_slide_of_text() {
    let cards = construct_document(Some(String::from("#slide\nHello world\n")));
    let expected = Card::SlideCard(SlideCard { config: None, slide_data: vec![text_item(None, text("Hello world"), 1)] });
    assert_eq!(cards, vec![expected]);
}

#[test]
fn slide_with_braced_font() {
    let cards = construct_document(Some(String::from("#slide\n#font(size = 10){\nab\ncd\n}\n")));
    let cfg = ConfigCard {
        config_data: vec![setting(ConfigKwds::font_size, num("10")), setting(ConfigKwds::font_braced, num("0"))],
    };
    let expected = Card::SlideCard(SlideCard {
        config: None,
        slide_data: vec![
            text_item(None, text(""), 1),
            text_item(Some(cfg), text("abcd"), 2),
            text_item(None, text(""), 5),
        ],
    });
    assert_eq!(cards, vec![expected]);
}

#[test]
fn configuration_card() {
    let cards = construct_document(Some(String::from("#config(width = 254.0, align = \"left\")\n")));
    let expected = Card::ConfigCard(ConfigCard {
        config_data: vec![setting(ConfigKwds::slide_width, num("254.0")), setting(ConfigKwds::align, text("left"))],
    });
    assert_eq!(cards, vec![expected]);
}

#[test]
fn text_outside_slides_is_left_out() {
    let cards = construct_document(Some(String::from("just words\n#config(width = 1)\n")));
    assert_eq!(cards.len(), 1);
    assert!(matches!(cards[0], Card::ConfigCard(_)));
}

#[test]
fn two_slides() {
    let cards = construct_document(Some(String::from("#slide\na\n#slide\nb\n")));
    assert_eq!(cards.len(), 2);
    for card in cards.iter() {
        assert!(matches!(card, Card::SlideCard(_)));
    }
}

#[test]
fn slide_text_at_end_of_file_reads_past_end() {
    assert_eq!(parse_document(Some(String::from("#slide\nHello"))), Err(ParseHalt::ReadPastEnd));
}

#[test]
fn unclosed_configuration_never_ends() {
    assert_eq!(parse_document(Some(String::from("#config(width = 1\n"))), Err(ParseHalt::Endless));
}

#[test]
fn setting_with_two_points_is_no_number() {
    assert_eq!(parse_document(Some(String::from("#config(width = 1.2.3)
"))), Err(ParseHalt::BadNumber));
}

#[test]
fn empty_document_has_no_cards() {
    assert_eq!(parse_document(Some(String::new())), Ok(vec![]));
}

fn texts(card: &Card) -> Vec<(ConfigKwds, ValueType, usize)> {
    match card {
        Card::SlideCard(sc) => sc.slide_data.iter().map(|d| (d.kwd, d.data.duplicate(), d.text_row)).collect(),
        _ => vec![],
    }
}

#[test]
fn example_document_is_read() {
    let cards = parse_document(None).unwrap();
    assert_eq!(cards.len(), 4);
    let expected_config = ConfigCard {
        config_data: vec![
            setting(ConfigKwds::slide_width, num("254.0")),
            setting(ConfigKwds::slide_height, num("190.5")),
            setting(ConfigKwds::slide_background_color, ValueType::Arr(vec![num("100"), num("0"), num("100")])),
            setting(ConfigKwds::font, text("Times")),
            setting(ConfigKwds::font_color, ValueType::Arr(vec![num("200"), num("200"), num("200")])),
            setting(ConfigKwds::font_size, num("32.0")),
            setting(ConfigKwds::align, text("center")),
        ],
    };
    assert_eq!(cards[0], Card::ConfigCard(expected_config));
    assert_eq!(
        texts(&cards[1]),
        vec![
            (ConfigKwds::text, text(""), 19),
            (ConfigKwds::header1, text(" We can do headers"), 19),
            (ConfigKwds::text, text(" too!"), 19),
            (ConfigKwds::text, text("We can write a slide like this. No need for a bracketted structure."), 21),
            (ConfigKwds::text, text("We can create a paragraph with consecutive \\n\\n.We can create a new line with "), 24),
            (ConfigKwds::text, text(""), 27),
            (ConfigKwds::text, text(""), 28),
        ]
    );
    assert_eq!(
        texts(&cards[2]),
        vec![
            (ConfigKwds::text, text(""), 29),
            (ConfigKwds::text, text("ASDFTHOM"), 30),
            (ConfigKwds::text, text("font(color=[1,0,0]) Birds"), 31),
            (ConfigKwds::text, text("Yup"), 33),
            (ConfigKwds::text, text(""), 35),
            (ConfigKwds::text, text(""), 36),
        ]
    );
    assert_eq!(
        texts(&cards[3]),
        vec![
            (ConfigKwds::text, text(""), 37),
            (ConfigKwds::text, text("SDFOMER "), 38),
            (ConfigKwds::text, text("ERADOFM"), 40),
            (ConfigKwds::text, text(""), 42),
        ]
    );
    // The inline font of the first slide.
    if let Card::SlideCard(sc) = &cards[1] {
        let cfg = sc.slide_data[2].config.as_ref().unwrap();
        assert_eq!(
            cfg.config_data,
            vec![
                setting(ConfigKwds::font_color, ValueType::Arr(vec![num("200"), num("20"), num("10")])),
                setting(ConfigKwds::font_braced, num("0")),
            ]
        );
    }
    // The half-slide div of the last slide.
    if let Card::SlideCard(sc) = &cards[3] {
        let cfg = sc.slide_data[1].config.as_ref().unwrap();
        assert_eq!(cfg.config_data.len(), 6);
        assert_eq!(cfg.config_data[0], setting(ConfigKwds::div_position, ValueType::Arr(vec![num("0.05"), num("0.8")])));
        assert_eq!(cfg.config_data[2], setting(ConfigKwds::div_align, text("left")));
    }
}
