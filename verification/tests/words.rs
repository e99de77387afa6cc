use logo_fractal::ast::{cons, Comparison, Compop};
use logo_fractal::eval::{classify_function, classify_instruction, color_word, Builtin, Instruction};
use logo_fractal::random::{pick, random_up_to};
use logo_fractal::turtle::Color;

#[test]
fn instruction_names() {
    let table = [
        ("forward", Instruction::Forward),
        ("fd", Instruction::Forward),
        ("back", Instruction::Back),
        ("bk", Instruction::Back),
        ("left", Instruction::Left),
        ("lt", Instruction::Left),
        ("right", Instruction::Right),
        ("rt", Instruction::Right),
        ("pu", Instruction::PenUp),
        ("penup", Instruction::PenUp),
        ("pd", Instruction::PenDown),
        ("pendown", Instruction::PenDown),
        ("repeat", Instruction::Repeat),
        ("setcolor", Instruction::SetColor),
        ("label", Instruction::Label),
        ("setlabelheight", Instruction::SetLabelHeight),
        ("if", Instruction::If),
        ("ifelse", Instruction::IfElse),
        ("window", Instruction::Ignored),
        ("hideturtle", Instruction::Ignored),
        ("showturtle", Instruction::Ignored),
        ("cls", Instruction::ClearScreen),
        ("clearscreen", Instruction::ClearScreen),
        ("wait", Instruction::Wait),
        ("stop", Instruction::Stop),
        ("star", Instruction::Procedure),
        ("FD", Instruction::Procedure),
    ];
    for (name, expected) in table {
        assert_eq!(classify_instruction(name), expected, "{}", name);
    }
}

#[test]
fn function_names() {
    assert_eq!(classify_function("cos"), Builtin::Cos);
    assert_eq!(classify_function("sin"), Builtin::Sin);
    assert_eq!(classify_function("exp"), Builtin::Exp);
    assert_eq!(classify_function("violet"), Builtin::ColorWord);
    assert_eq!(classify_function("random"), Builtin::Random);
    assert_eq!(classify_function("pick"), Builtin::Pick);
    assert_eq!(classify_function("repcount"), Builtin::Repcount);
    assert_eq!(classify_function("square"), Builtin::Undeclared);
}

#[test]
fn colour_words() {
    assert_eq!(color_word("red").unwrap(), "rgb(255, 0, 0)");
    assert_eq!(color_word("green").unwrap(), "rgb(0, 255, 0)");
    assert_eq!(color_word("blue").unwrap(), "rgb(0, 0, 255)");
    assert_eq!(color_word("black").unwrap(), "rgb(0, 0, 0)");
    assert_eq!(color_word("white").unwrap(), "rgb(255, 255, 255)");
    assert_eq!(color_word("orange").unwrap(), "rgb(255,127,0)");
    assert_eq!(color_word("yellow").unwrap(), "rgb(255, 255, 0)");
    assert_eq!(color_word("violet").unwrap(), "rgb(127, 0, 255)");
    assert_eq!(color_word("grey"), None);
}

#[test]
fn colour_words_name_colours() {
    assert_eq!(Color::from(color_word("orange").unwrap()), Color::new(255, 127, 0));
    assert_eq!(Color::from(color_word("violet").unwrap()), Color::new(127, 0, 255));
}

#[test]
fn comparisons() {
    assert!(Compop::Less.holds(Comparison::Less));
    assert!(!Compop::Less.holds(Comparison::Equal));
    assert!(Compop::LessEq.holds(Comparison::Equal));
    assert!(Compop::More.holds(Comparison::Greater));
    assert!(Compop::MoreEq.holds(Comparison::Equal));
    assert!(!Compop::MoreEq.holds(Comparison::Less));
    assert!(Compop::Equal.holds(Comparison::Equal));
    for op in [Compop::Less, Compop::LessEq, Compop::More, Compop::MoreEq, Compop::Equal] {
        assert!(!op.holds(Comparison::Unordered));
    }
}

#[test]
fn cons_appends() {
    assert_eq!(cons(vec![1, 2], 3), vec![1, 2, 3]);
    assert_eq!(cons(Vec::new(), 'a'), vec!['a']);
}

#[test]
fn random_stays_in_range() {
    for _ in 0..200 {
        assert!(random_up_to(3) <= 3);
    }
    assert_eq!(random_up_to(0), 0);
    let draws: Vec<u32> = (0..200).map(|_| random_up_to(3)).collect();
    assert!(draws.iter().any(|d| *d < 3));
}

#[test]
fn pick_returns_an_item() {
    let items = vec![10, 20, 30];
    let mut seen = [false; 3];
    for _ in 0..300 {
        let v = *pick(&items);
        let i = items.iter().position(|x| *x == v).unwrap();
        seen[i] = true;
    }
    assert!(seen.iter().all(|s| *s));
    assert_eq!(*pick(&vec![7]), 7);
}
