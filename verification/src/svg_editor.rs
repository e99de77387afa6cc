//! The drawing commands that a Logo run produces, which of them end up in
//! the picture, and the SVG text around them.

use vstd::prelude::*;
use crate::turtle::Color;
use crate::text::{push_char, push_signed_decimal, signed_decimal};

verus! {

/// One effect of running a Logo instruction. `N` is the type of the
/// coordinates, angles and durations that the commands carry.
#[derive(Debug, Clone, PartialEq)]
pub enum Commands<N> {
    /// Clear the screen: nothing drawn before it stays visible.
    Cls,
    /// Stop the running procedure.
    Stop,
    /// A line from the first point to the second in the given colour.
    Segment(N, N, N, N, Color),
    /// A text at a point, with a font size, a rotation and a colour.
    Label(String, N, N, u32, N, Color),
    /// Pause for a while.
    Wait(N),
}

/// Whether a command leaves a mark in the picture.
pub open spec fn is_drawable<N>(c: Commands<N>) -> bool {
    c is Segment || c is Label
}

/// The position just after the last `Cls` of `s` (0 when there is none).
pub open spec fn last_clear_end<N>(s: Seq<Commands<N>>) -> nat
    decreases s.len(),
{
    if s.len() == 0 {
        0
    } else if s.last() is Cls {
        s.len()
    } else {
        last_clear_end(s.drop_last())
    }
}

/// The drawable commands of `s`, in order.
pub open spec fn drawables<N>(s: Seq<Commands<N>>) -> Seq<Commands<N>>
    decreases s.len(),
{
    if s.len() == 0 {
        seq![]
    } else if is_drawable(s.last()) {
        drawables(s.drop_last()).push(s.last())
    } else {
        drawables(s.drop_last())
    }
}

/// What a picture shows of a run: the drawable commands issued after the
/// last clearing of the screen, in order.
pub open spec fn visible<N>(s: Seq<Commands<N>>) -> Seq<Commands<N>> {
    drawables(s.skip(last_clear_end(s) as int))
}

/// Whether `s` holds a `Stop`.
pub open spec fn contains_stop<N>(s: Seq<Commands<N>>) -> bool {
    exists|i: int| 0 <= i < s.len() && (#[trigger] s[i]) is Stop
}

/// The position of the first `Stop` of `s` (its length when there is none).
pub open spec fn first_stop<N>(s: Seq<Commands<N>>) -> nat
    decreases s.len(),
{
    if s.len() == 0 {
        0
    } else if s[0] is Stop {
        0
    } else {
        1 + first_stop(s.drop_first())
    }
}

proof fn lemma_last_clear_end_bound<N>(s: Seq<Commands<N>>)
    ensures
        last_clear_end(s) <= s.len(),
    decreases s.len(),
{
    if s.len() > 0 {
        lemma_last_clear_end_bound(s.drop_last());
    }
}

proof fn lemma_first_stop<N>(s: Seq<Commands<N>>)
    ensures
        first_stop(s) <= s.len(),
        forall|i: int| 0 <= i < first_stop(s) ==> !((#[trigger] s[i]) is Stop),
        first_stop(s) < s.len() ==> s[first_stop(s) as int] is Stop,
    decreases s.len(),
{
    if s.len() > 0 && !(s[0] is Stop) {
        lemma_first_stop(s.drop_first());
        assert forall|i: int| 0 <= i < first_stop(s) implies !((#[trigger] s[i]) is Stop) by {
            if i > 0 {
                assert(s[i] == s.drop_first()[i - 1]);
            }
        }
    }
}

proof fn lemma_last_clear_end_after<N>(p: Seq<Commands<N>>, b: Seq<Commands<N>>)
    requires
        p.len() > 0,
        p.last() is Cls,
    ensures
        last_clear_end(p + b) == p.len() + last_clear_end(b),
    decreases b.len(),
{
    if b.len() == 0 {
        assert(p + b == p);
    } else {
        assert((p + b).last() == b.last());
        if !(b.last() is Cls) {
            assert((p + b).drop_last() == p + b.drop_last());
            lemma_last_clear_end_after(p, b.drop_last());
        }
    }
}

proof fn lemma_drawables_all_drawable<N>(s: Seq<Commands<N>>)
    ensures
        forall|i: int| 0 <= i < drawables(s).len() ==> is_drawable(#[trigger] drawables(s)[i]),
        (forall|i: int| 0 <= i < s.len() ==> is_drawable(#[trigger] s[i])) ==> drawables(s) == s,
    decreases s.len(),
{
    if s.len() > 0 {
        lemma_drawables_all_drawable(s.drop_last());
        let d = drawables(s.drop_last());
        if is_drawable(s.last()) {
            assert forall|i: int| 0 <= i < drawables(s).len() implies is_drawable(#[trigger] drawables(s)[i]) by {
                if i < d.len() {
                    assert(drawables(s)[i] == d[i]);
                }
            }
        }
        if forall|i: int| 0 <= i < s.len() ==> is_drawable(#[trigger] s[i]) {
            assert forall|i: int| 0 <= i < s.drop_last().len() implies is_drawable(#[trigger] s.drop_last()[i]) by {
                assert(s.drop_last()[i] == s[i]);
            }
            assert(is_drawable(s[s.len() - 1]));
            assert(d.push(s.last()) =~= s);
        }
    }
}

proof fn lemma_no_clear<N>(s: Seq<Commands<N>>)
    requires
        forall|i: int| 0 <= i < s.len() ==> is_drawable(#[trigger] s[i]),
    ensures
        last_clear_end(s) == 0,
    decreases s.len(),
{
    if s.len() > 0 {
        assert(is_drawable(s[s.len() - 1]));
        assert forall|i: int| 0 <= i < s.drop_last().len() implies is_drawable(#[trigger] s.drop_last()[i]) by {
            assert(s.drop_last()[i] == s[i]);
        }
        lemma_no_clear(s.drop_last());
    }
}

/// Clearing the screen hides everything drawn before it: what a run shows
/// depends only on what it does after its last `Cls`.
pub proof fn lemma_clear_hides_before<N>(a: Seq<Commands<N>>, b: Seq<Commands<N>>)
    ensures
        visible(a + seq![Commands::Cls] + b) == visible(b),
{
    let p = a.push(Commands::Cls);
    assert(a + seq![Commands::Cls] + b =~= p + b);
    lemma_last_clear_end_after(p, b);
    lemma_last_clear_end_bound(b);
    assert((p + b).skip((p.len() + last_clear_end(b)) as int) =~= b.skip(last_clear_end(b) as int));
}

/// Only drawing commands remain visible, and what is visible stays as it
/// is when it is shown again.
pub proof fn lemma_visible_draws<N>(s: Seq<Commands<N>>)
    ensures
        forall|i: int| 0 <= i < visible(s).len() ==> is_drawable(#[trigger] visible(s)[i]),
        visible(visible(s)) == visible(s),
{
    let v = visible(s);
    lemma_drawables_all_drawable(s.skip(last_clear_end(s) as int));
    lemma_no_clear(v);
    assert(v.skip(0) == v);
    lemma_drawables_all_drawable(v);
}

/// A procedure hands back the commands before its first `Stop`: they hold
/// no `Stop`, and a list without `Stop` comes back whole.
pub proof fn lemma_until_stop<N>(s: Seq<Commands<N>>)
    ensures
        !contains_stop(s.take(first_stop(s) as int)),
        !contains_stop(s) ==> s.take(first_stop(s) as int) == s,
        contains_stop(s) ==> first_stop(s) < s.len() && s[first_stop(s) as int] is Stop,
{
    lemma_first_stop(s);
    let t = s.take(first_stop(s) as int);
    assert forall|i: int| 0 <= i < t.len() implies !((#[trigger] t[i]) is Stop) by {
        assert(t[i] == s[i]);
    }
    if !contains_stop(s) {
        if first_stop(s) < s.len() {
            assert(s[first_stop(s) as int] is Stop);
        }
        assert(t =~= s);
    } else {
        let j = choose|j: int| 0 <= j < s.len() && (#[trigger] s[j]) is Stop;
        assert(first_stop(s) <= j);
        if first_stop(s) == s.len() {
            assert(false);
        }
    }
}

/// Whether a command is `Stop`.
pub fn is_stop<N>(c: &Commands<N>) -> (b: bool)
    ensures
        b == (*c is Stop),
{
    match c {
        Commands::Stop => true,
        _ => false,
    }
}

/// Whether a command leaves a mark in the picture.
pub fn draws<N>(c: &Commands<N>) -> (b: bool)
    ensures
        b == is_drawable(*c),
{
    match c {
        Commands::Segment(..) => true,
        Commands::Label(..) => true,
        _ => false,
    }
}

/// The commands that remain visible: those that draw, issued after the last
/// `Cls`, in order.
pub fn visible_commands<N>(commands: Vec<Commands<N>>) -> (r: Vec<Commands<N>>)
    ensures
        r@ == visible(commands@),
{
    let mut commands = commands;
    let ghost all = commands@;
    let mut start: usize = commands.len();
    let mut found = false;
    assert(all.take(all.len() as int) == all);
    while !found && start > 0
        invariant
            0 <= start <= all.len(),
            commands@ == all,
            last_clear_end(all) == last_clear_end(all.take(start as int)),
            found ==> start > 0 && all[start - 1] is Cls,
        decreases start + (if found { 0int } else { 1int }),
    {
        assert(all.take(start as int).drop_last() == all.take(start - 1));
        if let Commands::Cls = &commands[start - 1] {
            found = true;
        } else {
            start = start - 1;
        }
    }
    proof {
        if found {
            assert(all.take(start as int).last() is Cls);
        } else {
            assert(all.take(0) == Seq::<Commands<N>>::empty());
        }
    }
    let tail = commands.split_off(start);
    assert(tail@ == all.skip(start as int));
    let mut out: Vec<Commands<N>> = Vec::new();
    for c in it: tail
        invariant
            it.seq() == all.skip(start as int),
            out@ == drawables(it.seq().take(it.index() as int)),
    {
        let ghost k = it.index();
        assert(it.seq().take(k + 1).drop_last() == it.seq().take(k as int));
        if draws(&c) {
            out.push(c);
        }
    }
    assert(all.skip(start as int).take(all.skip(start as int).len() as int) == all.skip(start as int));
    out
}

/// Appends `commands` to `result` and tells whether they hold a `Stop`,
/// after which a run goes no further.
pub fn extend_until_stop<N>(result: &mut Vec<Commands<N>>, commands: Vec<Commands<N>>) -> (stopped: bool)
    ensures
        final(result)@ == old(result)@ + commands@,
        stopped == contains_stop(commands@),
{
    let mut stopped = false;
    let mut i: usize = 0;
    while i < commands.len()
        invariant
            0 <= i <= commands.len(),
            stopped == exists|j: int| 0 <= j < i && (#[trigger] commands@[j]) is Stop,
        decreases commands.len() - i,
    {
        if is_stop(&commands[i]) {
            stopped = true;
        }
        i = i + 1;
    }
    let mut commands = commands;
    result.append(&mut commands);
    stopped
}

/// The commands before the first `Stop`: what a user-defined procedure
/// hands back to its caller.
pub fn until_stop<N>(commands: Vec<Commands<N>>) -> (r: Vec<Commands<N>>)
    ensures
        r@ == commands@.take(first_stop(commands@) as int),
{
    let ghost all = commands@;
    proof {
        lemma_first_stop(all);
    }
    let mut out: Vec<Commands<N>> = Vec::new();
    let mut done = false;
    for c in it: commands
        invariant
            it.seq() == all,
            done ==> out@ == all.take(first_stop(all) as int),
            !done ==> it.index() <= first_stop(all) && out@ == all.take(it.index() as int),
            first_stop(all) <= all.len(),
            forall|i: int| 0 <= i < first_stop(all) ==> !((#[trigger] all[i]) is Stop),
            first_stop(all) < all.len() ==> all[first_stop(all) as int] is Stop,
    {
        if !done {
            let ghost k = it.index();
            if is_stop(&c) {
                done = true;
            } else {
                assert(all.take(k + 1) == all.take(k as int).push(c));
                out.push(c);
            }
        }
    }
    if !done {
        assert(all.take(all.len() as int) == all);
    }
    out
}


/// `-size / 2` as Rust computes it: the quotient rounded towards zero.
pub open spec fn negated_half(size: int) -> int {
    if size <= 0 {
        (-size) / 2
    } else {
        -(size / 2)
    }
}

/// The opening tag of a square SVG picture of side `size` centred on the
/// origin.
pub open spec fn svg_header_text(size: int) -> Seq<char> {
    "<svg viewBox='"@ + signed_decimal(negated_half(size)) + seq![' '] + signed_decimal(
        negated_half(size),
    ) + seq![' '] + signed_decimal(size) + seq![' '] + signed_decimal(size)
        + "' xmlns='http://www.w3.org/2000/svg'>"@
}

/// The lines of `body`, each preceded by a line break.
pub open spec fn line_breaks_before(body: Seq<Seq<char>>) -> Seq<char>
    decreases body.len(),
{
    if body.len() == 0 {
        seq![]
    } else {
        line_breaks_before(body.drop_last()) + seq!['\n'] + body.last()
    }
}

/// A whole SVG file: the opening tag, the body lines and the closing tag,
/// joined by line breaks.
pub open spec fn svg_text(size: int, body: Seq<Seq<char>>) -> Seq<char> {
    svg_header_text(size) + line_breaks_before(body) + "\n</svg>"@
}

/// The opening tag of a square SVG picture of side `size` centred on the
/// origin.
pub fn svg_header(size: i32) -> (s: String)
    requires
        size > i32::MIN,
    ensures
        s@ == svg_header_text(size as int),
{
    let m: i32 = -size;
    let half: i32 = if m >= 0 {
        m / 2
    } else {
        -(size / 2)
    };
    let mut s = String::from_str("<svg viewBox='");
    push_signed_decimal(&mut s, half as i64);
    push_char(&mut s, ' ');
    push_signed_decimal(&mut s, half as i64);
    push_char(&mut s, ' ');
    push_signed_decimal(&mut s, size as i64);
    push_char(&mut s, ' ');
    push_signed_decimal(&mut s, size as i64);
    s.append("' xmlns='http://www.w3.org/2000/svg'>");
    s
}

/// The text of an SVG file of side `size` whose body is `body`, one
/// element per line.
pub fn svg_document(size: i32, body: &Vec<String>) -> (s: String)
    requires
        size > i32::MIN,
    ensures
        s@ == svg_text(size as int, body@.map_values(|l: String| l@)),
{
    let ghost lines = body@.map_values(|l: String| l@);
    let mut s = svg_header(size);
    let ghost head = s@;
    let mut i: usize = 0;
    while i < body.len()
        invariant
            0 <= i <= body.len(),
            lines == body@.map_values(|l: String| l@),
            s@ == head + line_breaks_before(lines.take(i as int)),
        decreases body.len() - i,
    {
        assert(lines.take(i + 1).drop_last() == lines.take(i as int));
        assert(lines[i as int] == body@[i as int]@);
        push_char(&mut s, '\n');
        s.append(body[i].as_str());
        i = i + 1;
    }
    assert(lines.take(body.len() as int) == lines);
    s.append("\n</svg>");
    s
}

} // verus!
