use logo_fractal::svg_editor::{
    extend_until_stop, svg_document, svg_header, until_stop, visible_commands, Commands,
};
use logo_fractal::turtle::Color;

fn seg(x: f64) -> Commands<f64> {
    Commands::Segment(0.0, 0.0, x, x, Color::new(0, 0, 0))
}

#[test]
fn visible_keeps_drawings_after_last_clear() {
    let cmds = vec![
        seg(1.0),
        Commands::Cls,
        seg(2.0),
        Commands::Wait(5.0),
        Commands::Label("Logo".to_string(), 1.0, 2.0, 10, 0.0, Color::new(0, 0, 0)),
        Commands::Stop,
        seg(3.0),
    ];
    let v = visible_commands(cmds);
    assert_eq!(
        v,
        vec![
            seg(2.0),
            Commands::Label("Logo".to_string(), 1.0, 2.0, 10, 0.0, Color::new(0, 0, 0)),
            seg(3.0),
        ]
    );
}

#[test]
fn visible_without_clear_keeps_all_drawings() {
    let v = visible_commands(vec![seg(1.0), Commands::Wait(1.0), seg(2.0)]);
    assert_eq!(v, vec![seg(1.0), seg(2.0)]);
}

#[test]
fn visible_after_final_clear_is_empty() {
    let v = visible_commands(vec![seg(1.0), Commands::Cls]);
    assert!(v.is_empty());
    let e: Vec<Commands<f64>> = vec![];
    assert!(visible_commands(e).is_empty());
}

#[test]
fn clear_hides_what_came_before() {
    let before = vec![seg(9.0), seg(8.0)];
    let after = vec![seg(1.0), Commands::Wait(2.0), seg(3.0)];
    let mut all = before.clone();
    all.push(Commands::Cls);
    all.extend(after.clone());
    assert_eq!(visible_commands(all), visible_commands(after));
}

#[test]
fn extend_reports_stop() {
    let mut result = vec![seg(1.0)];
    assert!(!extend_until_stop(&mut result, vec![seg(2.0)]));
    assert!(extend_until_stop(&mut result, vec![Commands::Stop, seg(3.0)]));
    assert_eq!(result, vec![seg(1.0), seg(2.0), Commands::Stop, seg(3.0)]);
}

#[test]
fn until_stop_cuts_at_first_stop() {
    let r = until_stop(vec![seg(1.0), seg(2.0), Commands::Stop, seg(3.0), Commands::Stop]);
    assert_eq!(r, vec![seg(1.0), seg(2.0)]);
    let whole = vec![seg(1.0), Commands::Cls];
    assert_eq!(until_stop(whole.clone()), whole);
}

#[test]
fn svg_header_centres_the_picture() {
    assert_eq!(
        svg_header(200),
        "<svg viewBox='-100 -100 200 200' xmlns='http://www.w3.org/2000/svg'>"
    );
    assert_eq!(
        svg_header(-7),
        "<svg viewBox='3 3 -7 -7' xmlns='http://www.w3.org/2000/svg'>"
    );
    assert_eq!(
        svg_header(5),
        "<svg viewBox='-2 -2 5 5' xmlns='http://www.w3.org/2000/svg'>"
    );
}

#[test]
fn svg_document_joins_lines() {
    let body = vec!["<a/>".to_string(), "<b/>".to_string()];
    assert_eq!(
        svg_document(10, &body),
        "<svg viewBox='-5 -5 10 10' xmlns='http://www.w3.org/2000/svg'>\n<a/>\n<b/>\n</svg>"
    );
    assert_eq!(
        svg_document(2, &vec![]),
        "<svg viewBox='-1 -1 2 2' xmlns='http://www.w3.org/2000/svg'>\n</svg>"
    );
}
