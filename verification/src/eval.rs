//! The word tables of the Logo interpreter: which instruction a command
//! name stands for, which built-in function a function name stands for,
//! and the colour words.

use vstd::prelude::*;
use crate::text::{is_numeric_char, same_text};
use crate::turtle::{
    lemma_parse_rgb_text, lemma_parse_rgb_text_with, parse_color, rgb_text, rgb_text_with, Color,
};

verus! {

/// What a command of a Logo program does.
#[derive(Clone, Copy, Debug, PartialEq, Eq, Structural)]
pub enum Instruction {
    /// `forward`, `fd`: move ahead, drawing when the pen is down.
    Forward,
    /// `back`, `bk`: move back, drawing when the pen is down.
    Back,
    /// `left`, `lt`: turn left by some degrees.
    Left,
    /// `right`, `rt`: turn right by some degrees.
    Right,
    /// `pu`, `penup`: stop drawing.
    PenUp,
    /// `pd`, `pendown`: start drawing.
    PenDown,
    /// `repeat`: run a block a number of times.
    Repeat,
    /// `setcolor`: change the pen's colour.
    SetColor,
    /// `label`: write a text.
    Label,
    /// `setlabelheight`: change the font size of labels.
    SetLabelHeight,
    /// `if`: run a block when a condition holds.
    If,
    /// `ifelse`: run one of two blocks.
    IfElse,
    /// `window`, `hideturtle`, `showturtle`: no effect on the picture.
    Ignored,
    /// `cls`, `clearscreen`: clear the picture.
    ClearScreen,
    /// `wait`: pause.
    Wait,
    /// `stop`: leave the running procedure.
    Stop,
    /// Any other name: a procedure that the program declares, if any.
    Procedure,
}

/// The instruction that a command name stands for.
pub open spec fn instruction_named(name: Seq<char>) -> Instruction {
    if name == "forward"@ || name == "fd"@ {
        Instruction::Forward
    } else if name == "back"@ || name == "bk"@ {
        Instruction::Back
    } else if name == "left"@ || name == "lt"@ {
        Instruction::Left
    } else if name == "right"@ || name == "rt"@ {
        Instruction::Right
    } else if name == "pu"@ || name == "penup"@ {
        Instruction::PenUp
    } else if name == "pd"@ || name == "pendown"@ {
        Instruction::PenDown
    } else if name == "repeat"@ {
        Instruction::Repeat
    } else if name == "setcolor"@ {
        Instruction::SetColor
    } else if name == "label"@ {
        Instruction::Label
    } else if name == "setlabelheight"@ {
        Instruction::SetLabelHeight
    } else if name == "if"@ {
        Instruction::If
    } else if name == "ifelse"@ {
        Instruction::IfElse
    } else if name == "window"@ || name == "hideturtle"@ || name == "showturtle"@ {
        Instruction::Ignored
    } else if name == "cls"@ || name == "clearscreen"@ {
        Instruction::ClearScreen
    } else if name == "wait"@ {
        Instruction::Wait
    } else if name == "stop"@ {
        Instruction::Stop
    } else {
        Instruction::Procedure
    }
}

/// The command words that the interpreter knows by itself.
pub open spec fn command_words() -> Set<Seq<char>> {
    set![
        "forward"@, "fd"@, "back"@, "bk"@, "left"@, "lt"@, "right"@, "rt"@, "pu"@, "penup"@,
        "pd"@, "pendown"@, "repeat"@, "setcolor"@, "label"@, "setlabelheight"@, "if"@,
        "ifelse"@, "window"@, "hideturtle"@, "showturtle"@, "cls"@, "clearscreen"@, "wait"@,
        "stop"@
    ]
}

/// A name is a call of a declared procedure exactly when it is not one of
/// the command words.
pub proof fn lemma_procedure_names(name: Seq<char>)
    ensures
        (instruction_named(name) == Instruction::Procedure) == !command_words().contains(name),
{
}

/// What each command word does; a short and a long name mean the same.
pub proof fn lemma_command_word_meanings()
    ensures
        instruction_named("forward"@) == Instruction::Forward,
        instruction_named("fd"@) == Instruction::Forward,
        instruction_named("back"@) == Instruction::Back,
        instruction_named("bk"@) == Instruction::Back,
        instruction_named("left"@) == Instruction::Left,
        instruction_named("lt"@) == Instruction::Left,
        instruction_named("right"@) == Instruction::Right,
        instruction_named("rt"@) == Instruction::Right,
        instruction_named("pu"@) == Instruction::PenUp,
        instruction_named("penup"@) == Instruction::PenUp,
        instruction_named("pd"@) == Instruction::PenDown,
        instruction_named("pendown"@) == Instruction::PenDown,
        instruction_named("repeat"@) == Instruction::Repeat,
        instruction_named("setcolor"@) == Instruction::SetColor,
        instruction_named("label"@) == Instruction::Label,
        instruction_named("setlabelheight"@) == Instruction::SetLabelHeight,
        instruction_named("if"@) == Instruction::If,
        instruction_named("ifelse"@) == Instruction::IfElse,
        instruction_named("window"@) == Instruction::Ignored,
        instruction_named("hideturtle"@) == Instruction::Ignored,
        instruction_named("showturtle"@) == Instruction::Ignored,
        instruction_named("cls"@) == Instruction::ClearScreen,
        instruction_named("clearscreen"@) == Instruction::ClearScreen,
        instruction_named("wait"@) == Instruction::Wait,
        instruction_named("stop"@) == Instruction::Stop,
{
    reveal_strlit("forward");
    assert("forward"@.len() == 7);
    assert("forward"@[0] == 'f');
    reveal_strlit("fd");
    assert("fd"@.len() == 2);
    assert("fd"@[0] == 'f');
    reveal_strlit("back");
    assert("back"@.len() == 4);
    assert("back"@[0] == 'b');
    reveal_strlit("bk");
    assert("bk"@.len() == 2);
    assert("bk"@[0] == 'b');
    reveal_strlit("left");
    assert("left"@.len() == 4);
    assert("left"@[0] == 'l');
    reveal_strlit("lt");
    assert("lt"@.len() == 2);
    assert("lt"@[0] == 'l');
    reveal_strlit("right");
    assert("right"@.len() == 5);
    assert("right"@[0] == 'r');
    reveal_strlit("rt");
    assert("rt"@.len() == 2);
    assert("rt"@[0] == 'r');
    reveal_strlit("pu");
    assert("pu"@.len() == 2);
    assert("pu"@[0] == 'p');
    assert("pu"@[1] == 'u');
    reveal_strlit("penup");
    assert("penup"@.len() == 5);
    assert("penup"@[0] == 'p');
    reveal_strlit("pd");
    assert("pd"@.len() == 2);
    assert("pd"@[0] == 'p');
    assert("pd"@[1] == 'd');
    reveal_strlit("pendown");
    assert("pendown"@.len() == 7);
    assert("pendown"@[0] == 'p');
    reveal_strlit("repeat");
    assert("repeat"@.len() == 6);
    assert("repeat"@[0] == 'r');
    reveal_strlit("setcolor");
    assert("setcolor"@.len() == 8);
    assert("setcolor"@[0] == 's');
    reveal_strlit("label");
    assert("label"@.len() == 5);
    assert("label"@[0] == 'l');
    reveal_strlit("setlabelheight");
    assert("setlabelheight"@.len() == 14);
    assert("setlabelheight"@[0] == 's');
    reveal_strlit("if");
    assert("if"@.len() == 2);
    assert("if"@[0] == 'i');
    reveal_strlit("ifelse");
    assert("ifelse"@.len() == 6);
    assert("ifelse"@[0] == 'i');
    reveal_strlit("window");
    assert("window"@.len() == 6);
    assert("window"@[0] == 'w');
    reveal_strlit("hideturtle");
    assert("hideturtle"@.len() == 10);
    assert("hideturtle"@[0] == 'h');
    reveal_strlit("showturtle");
    assert("showturtle"@.len() == 10);
    assert("showturtle"@[0] == 's');
    reveal_strlit("cls");
    assert("cls"@.len() == 3);
    assert("cls"@[0] == 'c');
    reveal_strlit("clearscreen");
    assert("clearscreen"@.len() == 11);
    assert("clearscreen"@[0] == 'c');
    reveal_strlit("wait");
    assert("wait"@.len() == 4);
    assert("wait"@[0] == 'w');
    reveal_strlit("stop");
    assert("stop"@.len() == 4);
    assert("stop"@[0] == 's');
}

/// The instruction that a command name stands for.
pub fn classify_instruction(name: &str) -> (i: Instruction)
    ensures
        i == instruction_named(name@),
{
    if same_text(name, "forward") || same_text(name, "fd") {
        Instruction::Forward
    } else if same_text(name, "back") || same_text(name, "bk") {
        Instruction::Back
    } else if same_text(name, "left") || same_text(name, "lt") {
        Instruction::Left
    } else if same_text(name, "right") || same_text(name, "rt") {
        Instruction::Right
    } else if same_text(name, "pu") || same_text(name, "penup") {
        Instruction::PenUp
    } else if same_text(name, "pd") || same_text(name, "pendown") {
        Instruction::PenDown
    } else if same_text(name, "repeat") {
        Instruction::Repeat
    } else if same_text(name, "setcolor") {
        Instruction::SetColor
    } else if same_text(name, "label") {
        Instruction::Label
    } else if same_text(name, "setlabelheight") {
        Instruction::SetLabelHeight
    } else if same_text(name, "if") {
        Instruction::If
    } else if same_text(name, "ifelse") {
        Instruction::IfElse
    } else if same_text(name, "window") || same_text(name, "hideturtle") || same_text(
        name,
        "showturtle",
    ) {
        Instruction::Ignored
    } else if same_text(name, "cls") || same_text(name, "clearscreen") {
        Instruction::ClearScreen
    } else if same_text(name, "wait") {
        Instruction::Wait
    } else if same_text(name, "stop") {
        Instruction::Stop
    } else {
        Instruction::Procedure
    }
}

/// What a function name of an expression stands for.
#[derive(Clone, Copy, Debug, PartialEq, Eq, Structural)]
pub enum Builtin {
    /// `cos` of a number.
    Cos,
    /// `sin` of a number.
    Sin,
    /// `exp` of a number.
    Exp,
    /// One of the colour words, whose value is its `rgb(...)` text.
    ColorWord,
    /// `random`: a whole number from 0 to its argument.
    Random,
    /// `pick`: one of the commands of a list, evaluated.
    Pick,
    /// `repcount`: the number of the current `repeat` round.
    Repcount,
    /// A name that stands for no function.
    Undeclared,
}

/// The colour that a colour word names.
pub open spec fn color_word_rgb(name: Seq<char>) -> Option<(u8, u8, u8)> {
    if name == "red"@ {
        Some((255u8, 0u8, 0u8))
    } else if name == "green"@ {
        Some((0u8, 255u8, 0u8))
    } else if name == "blue"@ {
        Some((0u8, 0u8, 255u8))
    } else if name == "black"@ {
        Some((0u8, 0u8, 0u8))
    } else if name == "white"@ {
        Some((255u8, 255u8, 255u8))
    } else if name == "orange"@ {
        Some((255u8, 127u8, 0u8))
    } else if name == "yellow"@ {
        Some((255u8, 255u8, 0u8))
    } else if name == "violet"@ {
        Some((127u8, 0u8, 255u8))
    } else {
        None
    }
}

/// The text that a colour word evaluates to: `rgb(r, g, b)`, except for
/// `orange`, which is written `rgb(255,127,0)`.
pub open spec fn color_word_text(name: Seq<char>) -> Option<Seq<char>> {
    match color_word_rgb(name) {
        Some(c) => Some(
            if name == "orange"@ {
                rgb_text_with(c, seq![','])
            } else {
                rgb_text(c)
            },
        ),
        None => None,
    }
}

/// The built-in function that a name stands for.
pub open spec fn builtin_named(name: Seq<char>) -> Builtin {
    if name == "cos"@ {
        Builtin::Cos
    } else if name == "sin"@ {
        Builtin::Sin
    } else if name == "exp"@ {
        Builtin::Exp
    } else if color_word_rgb(name) is Some {
        Builtin::ColorWord
    } else if name == "random"@ {
        Builtin::Random
    } else if name == "pick"@ {
        Builtin::Pick
    } else if name == "repcount"@ {
        Builtin::Repcount
    } else {
        Builtin::Undeclared
    }
}

fn color_of_word(name: &str) -> (r: Option<Color>)
    ensures
        match r {
            Some(c) => color_word_rgb(name@) == Some(c@),
            None => color_word_rgb(name@) is None,
        },
{
    if same_text(name, "red") {
        Some(Color::new(255, 0, 0))
    } else if same_text(name, "green") {
        Some(Color::new(0, 255, 0))
    } else if same_text(name, "blue") {
        Some(Color::new(0, 0, 255))
    } else if same_text(name, "black") {
        Some(Color::new(0, 0, 0))
    } else if same_text(name, "white") {
        Some(Color::new(255, 255, 255))
    } else if same_text(name, "orange") {
        Some(Color::new(255, 127, 0))
    } else if same_text(name, "yellow") {
        Some(Color::new(255, 255, 0))
    } else if same_text(name, "violet") {
        Some(Color::new(127, 0, 255))
    } else {
        None
    }
}

/// The built-in function that a name stands for.
pub fn classify_function(name: &str) -> (b: Builtin)
    ensures
        b == builtin_named(name@),
{
    if same_text(name, "cos") {
        Builtin::Cos
    } else if same_text(name, "sin") {
        Builtin::Sin
    } else if same_text(name, "exp") {
        Builtin::Exp
    } else if color_of_word(name).is_some() {
        Builtin::ColorWord
    } else if same_text(name, "random") {
        Builtin::Random
    } else if same_text(name, "pick") {
        Builtin::Pick
    } else if same_text(name, "repcount") {
        Builtin::Repcount
    } else {
        Builtin::Undeclared
    }
}

/// The text that a colour word evaluates to; `None` for other names.
pub fn color_word(name: &str) -> (r: Option<String>)
    ensures
        match r {
            Some(t) => color_word_text(name@) == Some(t@),
            None => color_word_text(name@) is None,
        },
{
    match color_of_word(name) {
        Some(c) => Some(c.rgb_string(!same_text(name, "orange"))),
        None => None,
    }
}

/// Apart from `cos`, `sin` and `exp`, a name is a colour word exactly when
/// it names a colour.
pub proof fn lemma_colour_words_are_builtin(name: Seq<char>)
    requires
        name != "cos"@,
        name != "sin"@,
        name != "exp"@,
    ensures
        (builtin_named(name) == Builtin::ColorWord) == (color_word_rgb(name) is Some),
{
}

/// A name is undeclared exactly when it is none of the built-in function
/// names and no colour word.
pub proof fn lemma_undeclared_functions(name: Seq<char>)
    ensures
        (builtin_named(name) == Builtin::Undeclared) == (!set![
            "cos"@,
            "sin"@,
            "exp"@,
            "random"@,
            "pick"@,
            "repcount"@
        ].contains(name) && color_word_rgb(name) is None),
{
}

/// The colours of the colour words and what each function name means.
pub proof fn lemma_function_name_meanings()
    ensures
        color_word_rgb("red"@) == Some((255u8, 0u8, 0u8)),
        color_word_rgb("green"@) == Some((0u8, 255u8, 0u8)),
        color_word_rgb("blue"@) == Some((0u8, 0u8, 255u8)),
        color_word_rgb("black"@) == Some((0u8, 0u8, 0u8)),
        color_word_rgb("white"@) == Some((255u8, 255u8, 255u8)),
        color_word_rgb("orange"@) == Some((255u8, 127u8, 0u8)),
        color_word_rgb("yellow"@) == Some((255u8, 255u8, 0u8)),
        color_word_rgb("violet"@) == Some((127u8, 0u8, 255u8)),
        builtin_named("cos"@) == Builtin::Cos,
        builtin_named("sin"@) == Builtin::Sin,
        builtin_named("exp"@) == Builtin::Exp,
        builtin_named("random"@) == Builtin::Random,
        builtin_named("pick"@) == Builtin::Pick,
        builtin_named("repcount"@) == Builtin::Repcount,
{
    reveal_strlit("red");
    assert("red"@.len() == 3);
    assert("red"@[0] == 'r');
    reveal_strlit("green");
    assert("green"@.len() == 5);
    assert("green"@[0] == 'g');
    reveal_strlit("blue");
    assert("blue"@.len() == 4);
    assert("blue"@[0] == 'b');
    reveal_strlit("black");
    assert("black"@.len() == 5);
    assert("black"@[0] == 'b');
    reveal_strlit("white");
    assert("white"@.len() == 5);
    assert("white"@[0] == 'w');
    reveal_strlit("orange");
    assert("orange"@.len() == 6);
    assert("orange"@[0] == 'o');
    reveal_strlit("yellow");
    assert("yellow"@.len() == 6);
    assert("yellow"@[0] == 'y');
    reveal_strlit("violet");
    assert("violet"@.len() == 6);
    assert("violet"@[0] == 'v');
    reveal_strlit("cos");
    assert("cos"@.len() == 3);
    assert("cos"@[0] == 'c');
    reveal_strlit("sin");
    assert("sin"@.len() == 3);
    assert("sin"@[0] == 's');
    reveal_strlit("exp");
    assert("exp"@.len() == 3);
    assert("exp"@[0] == 'e');
    reveal_strlit("random");
    assert("random"@.len() == 6);
    assert("random"@[0] == 'r');
    reveal_strlit("pick");
    assert("pick"@.len() == 4);
    assert("pick"@[0] == 'p');
    reveal_strlit("repcount");
    assert("repcount"@.len() == 8);
    assert("repcount"@[0] == 'r');
}

/// The text of every colour word names its colour.
pub proof fn lemma_color_words_name_colors(name: Seq<char>)
    ensures
        color_word_text(name) matches Some(t) ==> parse_color(t) == color_word_rgb(name),
{
    if let Some(c) = color_word_rgb(name) {
        if name == "orange"@ {
            let sep = seq![','];
            assert forall|i: int| 0 <= i < sep.len() implies !is_numeric_char(#[trigger] sep[i]) by {}
            lemma_parse_rgb_text_with(c, sep);
        } else {
            lemma_parse_rgb_text(c);
        }
    }
}

} // verus!
