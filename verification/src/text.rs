//! Decimal text of integers and the string primitives the other modules use.

use vstd::prelude::*;

verus! {

/// The character of a decimal digit `d` (`0 <= d < 10`).
pub open spec fn digit_char(d: nat) -> char {
    (d + 48) as char
}

/// Decimal representation of `n`, most significant digit first, without
/// leading zeros (`"0"` for zero).
pub open spec fn decimal(n: nat) -> Seq<char>
    decreases n,
{
    if n < 10 {
        seq![digit_char(n)]
    } else {
        decimal(n / 10).push(digit_char(n % 10))
    }
}

/// `String::push`: the text afterwards is the text before with `c` added
/// at its end.
#[verifier::external_body]
pub(crate) fn push_char(s: &mut String, c: char)
    ensures
        final(s)@ == old(s)@.push(c),
{
    s.push(c);
}

fn digit(d: u64) -> (c: char)
    requires
        d < 10,
    ensures
        c == digit_char(d as nat),
{
    let b: u8 = 48 + d as u8;
    b as char
}

/// Appends the decimal text of `n` to `s`.
pub fn push_decimal(s: &mut String, n: u64)
    ensures
        final(s)@ == old(s)@ + decimal(n as nat),
    decreases n,
{
    if n >= 10 {
        push_decimal(s, n / 10);
    }
    push_char(s, digit(n % 10));
}

/// Decimal representation of an integer, with a leading `-` when it is
/// negative.
pub open spec fn signed_decimal(i: int) -> Seq<char> {
    if i < 0 {
        seq!['-'] + decimal((-i) as nat)
    } else {
        decimal(i as nat)
    }
}

/// Appends the decimal text of `n` to `s`.
pub fn push_signed_decimal(s: &mut String, n: i64)
    ensures
        final(s)@ == old(s)@ + signed_decimal(n as int),
{
    if n < 0 {
        push_char(s, '-');
        let m: u64 = if n == i64::MIN {
            9223372036854775808u64
        } else {
            (-n) as u64
        };
        push_decimal(s, m);
    } else {
        push_decimal(s, n as u64);
    }
}

/// The characters of `s`, in order.
pub fn chars_of(s: &str) -> (v: Vec<char>)
    ensures
        v@ == s@,
{
    let mut v: Vec<char> = Vec::new();
    for c in it: s.chars()
        invariant
            v@ == it.seq().take(it.index() as int),
    {
        v.push(c);
    }
    v
}


/// Whether `c` is an ASCII decimal digit.
pub open spec fn is_ascii_digit(c: char) -> bool {
    '0' <= c && c <= '9'
}

/// The value of a run of ASCII digits, read in base ten.
pub open spec fn digits_value(s: Seq<char>) -> nat
    decreases s.len(),
{
    if s.len() == 0 {
        0
    } else {
        digits_value(s.drop_last()) * 10 + ((s.last() as nat) - 48) as nat
    }
}

/// Every character of `s` is an ASCII digit.
pub open spec fn all_ascii_digits(s: Seq<char>) -> bool {
    forall|i: int| 0 <= i < s.len() ==> is_ascii_digit(#[trigger] s[i])
}

/// What `str::parse::<u8>` gives for a text made of numeric characters:
/// a number when the text is a non-empty run of ASCII digits whose value
/// fits in a byte.
pub open spec fn parse_byte(s: Seq<char>) -> Option<u8> {
    if s.len() > 0 && all_ascii_digits(s) && digits_value(s) <= 255 {
        Some(digits_value(s) as u8)
    } else {
        None
    }
}

/// The decimal text of a number is a non-empty run of digits that reads
/// back as the number.
pub proof fn lemma_decimal_digits(n: nat)
    ensures
        decimal(n).len() > 0,
        all_ascii_digits(decimal(n)),
        digits_value(decimal(n)) == n,
    decreases n,
{
    assert((digit_char(n % 10) as nat) == n % 10 + 48);
    if n >= 10 {
        lemma_decimal_digits(n / 10);
        let d = decimal(n);
        assert(d.drop_last() == decimal(n / 10));
        assert(d.last() == digit_char(n % 10));
        assert(n == (n / 10) * 10 + n % 10);
        assert(digits_value(d) == digits_value(d.drop_last()) * 10 + ((d.last() as nat) - 48) as nat);
        assert forall|i: int| 0 <= i < d.len() implies is_ascii_digit(#[trigger] d[i]) by {
            if i < d.len() - 1 {
                assert(d[i] == decimal(n / 10)[i]);
            }
        }
    } else {
        assert(decimal(n).drop_last() =~= Seq::<char>::empty());
        assert(decimal(n).last() == digit_char(n));
        assert(digits_value(decimal(n)) == digits_value(decimal(n).drop_last()) * 10 + ((decimal(n).last() as nat) - 48) as nat);
        assert(digits_value(Seq::<char>::empty()) == 0);
    }
}

/// Once a prefix of a digit run exceeds a bound, the whole run does.
pub proof fn lemma_digits_value_prefix(s: Seq<char>, k: int)
    requires
        0 <= k <= s.len(),
        all_ascii_digits(s),
    ensures
        digits_value(s.take(k)) <= digits_value(s),
    decreases s.len() - k,
{
    if k < s.len() {
        lemma_digits_value_prefix(s, k + 1);
        assert(s.take(k + 1).drop_last() == s.take(k));
        assert(is_ascii_digit(s[k]));
    } else {
        assert(s.take(k) == s);
    }
}

/// Reads a run of characters as a byte, as `str::parse::<u8>` does for
/// texts made of numeric characters.
pub fn parse_byte_run(s: &Vec<char>) -> (r: Option<u8>)
    ensures
        r == parse_byte(s@),
{
    if s.len() == 0 {
        return None;
    }
    let mut value: u32 = 0;
    let mut i: usize = 0;
    while i < s.len()
        invariant
            0 <= i <= s.len(),
            all_ascii_digits(s@.take(i as int)),
            value == digits_value(s@.take(i as int)),
            value <= 255,
        decreases s.len() - i,
    {
        let c = s[i];
        if !('0' <= c && c <= '9') {
            assert(!all_ascii_digits(s@)) by {
                assert(!is_ascii_digit(s@[i as int]));
            }
            return None;
        }
        let d: u32 = (c as u32) - 48;
        assert(s@.take(i + 1).drop_last() == s@.take(i as int));
        value = value * 10 + d;
        i = i + 1;
        assert forall|j: int| 0 <= j < i implies is_ascii_digit(#[trigger] s@.take(i as int)[j]) by {
            if j < i - 1 {
                assert(s@.take(i as int)[j] == s@.take(i - 1)[j]);
            }
        }
        if value > 255 {
            proof {
                if all_ascii_digits(s@) {
                    lemma_digits_value_prefix(s@, i as int);
                }
            }
            return None;
        }
    }
    assert(s@.take(s.len() as int) == s@);
    Some(value as u8)
}


/// What `char::is_numeric` says of a character outside ASCII (whether its
/// Unicode general category is Nd, Nl or No).
pub uninterp spec fn unicode_numeric(c: char) -> bool;

/// Whether `c` is numeric in the sense of `char::is_numeric`: among ASCII
/// characters exactly the ten decimal digits.
pub open spec fn is_numeric_char(c: char) -> bool {
    if (c as u32) < 128 {
        is_ascii_digit(c)
    } else {
        unicode_numeric(c)
    }
}

/// `char::is_numeric`. Its documentation: true for the general categories
/// Nd, Nl and No, which among ASCII characters hold only '0' to '9'. What it
/// says of other characters is left to the Unicode tables, named here by
/// `unicode_numeric`.
#[verifier::external_body]
pub(crate) fn char_is_numeric(c: char) -> (b: bool)
    ensures
        (c as u32) < 128 ==> b == is_ascii_digit(c),
        (c as u32) >= 128 ==> b == unicode_numeric(c),
{
    c.is_numeric()
}

/// The runs in hand as a sequence: the current run, if it is not empty.
pub open spec fn close_run(cur: Seq<char>) -> Seq<Seq<char>> {
    if cur.len() > 0 {
        seq![cur]
    } else {
        seq![]
    }
}

/// The maximal runs of numeric characters of `s`, given that the run `cur`
/// is still open before `s`.
pub open spec fn runs_from(s: Seq<char>, cur: Seq<char>) -> Seq<Seq<char>>
    decreases s.len(),
{
    if s.len() == 0 {
        close_run(cur)
    } else if is_numeric_char(s[0]) {
        runs_from(s.drop_first(), cur.push(s[0]))
    } else {
        close_run(cur) + runs_from(s.drop_first(), seq![])
    }
}

/// The maximal runs of numeric characters of `s`, in order: the words that
/// remain when every other character is turned into a space and the text is
/// split at whitespace.
pub open spec fn numeric_runs(s: Seq<char>) -> Seq<Seq<char>> {
    runs_from(s, seq![])
}

/// A run of numeric characters extends the open run.
pub proof fn lemma_runs_numeric_prefix(p: Seq<char>, t: Seq<char>, cur: Seq<char>)
    requires
        forall|i: int| 0 <= i < p.len() ==> is_numeric_char(#[trigger] p[i]),
    ensures
        runs_from(p + t, cur) == runs_from(t, cur + p),
    decreases p.len(),
{
    if p.len() == 0 {
        assert(p + t == t);
        assert(cur + p == cur);
    } else {
        assert((p + t)[0] == p[0]);
        assert((p + t).drop_first() == p.drop_first() + t);
        lemma_runs_numeric_prefix(p.drop_first(), t, cur.push(p[0]));
        assert(cur.push(p[0]) + p.drop_first() == cur + p);
    }
}

/// A non-empty stretch of characters that are not numeric closes the open
/// run and starts no new one.
pub proof fn lemma_runs_separators(p: Seq<char>, t: Seq<char>, cur: Seq<char>)
    requires
        p.len() > 0,
        forall|i: int| 0 <= i < p.len() ==> !is_numeric_char(#[trigger] p[i]),
    ensures
        runs_from(p + t, cur) == close_run(cur) + runs_from(t, seq![]),
    decreases p.len(),
{
    assert((p + t)[0] == p[0]);
    assert((p + t).drop_first() == p.drop_first() + t);
    if p.len() == 1 {
        assert(p.drop_first() + t == t);
    } else {
        lemma_runs_separators(p.drop_first(), t, seq![]);
        assert(close_run(Seq::<char>::empty()) == Seq::<Seq<char>>::empty());
        assert(Seq::<Seq<char>>::empty() + runs_from(t, seq![]) == runs_from(t, seq![]));
    }
}

/// The maximal runs of numeric characters of `s`.
pub fn split_numeric_runs(s: &Vec<char>) -> (runs: Vec<Vec<char>>)
    ensures
        runs@.map_values(|r: Vec<char>| r@) == numeric_runs(s@),
{
    let mut runs: Vec<Vec<char>> = Vec::new();
    let mut cur: Vec<char> = Vec::new();
    let mut i: usize = 0;
    assert(s@.skip(0) == s@);
    while i < s.len()
        invariant
            0 <= i <= s.len(),
            runs@.map_values(|r: Vec<char>| r@) + runs_from(s@.skip(i as int), cur@)
                == numeric_runs(s@),
        decreases s.len() - i,
    {
        let c = s[i];
        let ghost rest = s@.skip(i as int);
        assert(rest[0] == c);
        assert(rest.drop_first() == s@.skip(i + 1));
        if char_is_numeric(c) {
            cur.push(c);
        } else {
            let ghost before = runs@.map_values(|r: Vec<char>| r@);
            if cur.len() > 0 {
                let done = cur;
                runs.push(done);
                cur = Vec::new();
                assert(runs@.map_values(|r: Vec<char>| r@) == before + close_run(done@));
            } else {
                assert(close_run(cur@) == Seq::<Seq<char>>::empty());
                assert(before + close_run(cur@) == before);
                cur = Vec::new();
            }
            assert(cur@ == Seq::<char>::empty());
        }
        i = i + 1;
    }
    assert(s@.skip(i as int) == Seq::<char>::empty());
    let ghost before = runs@.map_values(|r: Vec<char>| r@);
    if cur.len() > 0 {
        runs.push(cur);
        assert(runs@.map_values(|r: Vec<char>| r@) == before + close_run(cur@));
    } else {
        assert(before + close_run(cur@) == before);
    }
    runs
}


/// Whether two texts are the same, character by character.
pub fn same_text(a: &str, b: &str) -> (r: bool)
    ensures
        r == (a@ == b@),
{
    let x = chars_of(a);
    let y = chars_of(b);
    if x.len() != y.len() {
        return false;
    }
    let mut i: usize = 0;
    while i < x.len()
        invariant
            0 <= i <= x.len(),
            x.len() == y.len(),
            x@ == a@,
            y@ == b@,
            forall|j: int| 0 <= j < i ==> x@[j] == y@[j],
        decreases x.len() - i,
    {
        if x[i] != y[i] {
            assert(x@[i as int] != y@[i as int]);
            assert(a@[i as int] != b@[i as int]);
            return false;
        }
        i = i + 1;
    }
    assert(x@ =~= y@);
    true
}

} // verus!
