use logo_fractal::turtle::Color;

#[test]
fn new_color_prints_its_components() {
    assert_eq!(Color::new(1, 2, 3).to_rgb_string(), "rgb(1, 2, 3)");
    assert_eq!(Color::new(0, 0, 0).to_rgb_string(), "rgb(0, 0, 0)");
    assert_eq!(Color::new(255, 127, 10).to_rgb_string(), "rgb(255, 127, 10)");
}

#[test]
fn set_color_replaces_components() {
    let mut c = Color::new(1, 2, 3);
    c.set_color(40, 50, 60);
    assert_eq!(c, Color::new(40, 50, 60));
}

#[test]
fn parse_reads_rgb_text() {
    assert_eq!(Color::parse("rgb(255, 0, 0)"), Some(Color::new(255, 0, 0)));
    assert_eq!(Color::parse("rgb(255,127,0)"), Some(Color::new(255, 127, 0)));
    assert_eq!(Color::parse("7 8 9"), Some(Color::new(7, 8, 9)));
    assert_eq!(Color::parse("rgb(007, 08, 255)"), Some(Color::new(7, 8, 255)));
}

#[test]
fn parse_takes_the_first_three_numbers() {
    assert_eq!(Color::parse("1 2 3 4"), Some(Color::new(1, 2, 3)));
}

#[test]
fn parse_refuses_texts_that_name_no_colour() {
    assert_eq!(Color::parse("rgb(256, 0, 0)"), None);
    assert_eq!(Color::parse("rgb(1, 2)"), None);
    assert_eq!(Color::parse(""), None);
    assert_eq!(Color::parse("1 2 3 999"), None);
    // '²' is numeric but not a decimal digit
    assert_eq!(Color::parse("rgb(\u{b2}, 1, 2, 3)"), None);
}

#[test]
fn from_reads_a_colour() {
    assert_eq!(Color::from("rgb(0, 0, 255)".to_string()), Color::new(0, 0, 255));
}

#[test]
fn rgb_text_reads_back() {
    for r in [0u8, 1, 9, 10, 99, 100, 200, 255] {
        for g in [0u8, 5, 55, 255] {
            let c = Color::new(r, g, 255 - r);
            assert_eq!(Color::parse(&c.to_rgb_string()), Some(c.clone()));
            assert_eq!(Color::from(c.to_rgb_string()), c);
        }
    }
}

#[test]
fn named_colours() {
    assert_eq!(Color::red(), Color::new(255, 0, 0));
    assert_eq!(Color::green(), Color::new(0, 255, 0));
    assert_eq!(Color::blue(), Color::new(0, 0, 255));
    assert_eq!(Color::black(), Color::new(0, 0, 0));
    assert_eq!(Color::white().to_rgb_string(), "rgb(255, 255, 255)");
}
