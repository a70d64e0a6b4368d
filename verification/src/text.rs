//! Text building blocks: decimal numerals and ampersand escaping.

use vstd::prelude::*;
use vstd::std_specs::iter::IteratorSpec;
use vstd::string::StringExecFns;

verus! {

broadcast use {vstd::string::axiom_spec_iter, vstd::string::next_postcondition};

/// The character that writes the digit `d` (meaningful for `d < 10`).
pub open spec fn digit_char(d: nat) -> char {
    if d == 0 {
        '0'
    } else if d == 1 {
        '1'
    } else if d == 2 {
        '2'
    } else if d == 3 {
        '3'
    } else if d == 4 {
        '4'
    } else if d == 5 {
        '5'
    } else if d == 6 {
        '6'
    } else if d == 7 {
        '7'
    } else if d == 8 {
        '8'
    } else {
        '9'
    }
}

/// The decimal numeral of `n`: no sign, no leading zero, `"0"` for zero.
pub open spec fn decimal(n: nat) -> Seq<char>
    decreases n,
{
    if n < 10 {
        seq![digit_char(n)]
    } else {
        decimal(n / 10).push(digit_char(n % 10))
    }
}

/// Executable counterpart of [`digit_char`].
fn digit_to_char(d: u32) -> (c: char)
    requires
        d < 10,
    ensures
        c == digit_char(d as nat),
{
    if d == 0 {
        '0'
    } else if d == 1 {
        '1'
    } else if d == 2 {
        '2'
    } else if d == 3 {
        '3'
    } else if d == 4 {
        '4'
    } else if d == 5 {
        '5'
    } else if d == 6 {
        '6'
    } else if d == 7 {
        '7'
    } else if d == 8 {
        '8'
    } else {
        '9'
    }
}

/// The digit that `c` writes (meaningful for the ten digit characters).
pub open spec fn digit_value(c: char) -> nat {
    if c == '0' {
        0
    } else if c == '1' {
        1
    } else if c == '2' {
        2
    } else if c == '3' {
        3
    } else if c == '4' {
        4
    } else if c == '5' {
        5
    } else if c == '6' {
        6
    } else if c == '7' {
        7
    } else if c == '8' {
        8
    } else {
        9
    }
}

/// The number that a decimal numeral writes.
pub open spec fn decimal_value(s: Seq<char>) -> nat
    decreases s.len(),
{
    if s.len() == 0 {
        0
    } else {
        10 * decimal_value(s.drop_last()) + digit_value(s.last())
    }
}

/// A numeral writes the number it was made from.
pub proof fn lemma_decimal_value(n: nat)
    ensures
        decimal_value(decimal(n)) == n,
        decimal(n).len() > 0,
    decreases n,
{
    if n < 10 {
        let s = seq![digit_char(n)];
        assert(s.drop_last() =~= Seq::<char>::empty());
        assert(decimal_value(s.drop_last()) == 0);
        assert(digit_value(digit_char(n)) == n);
    } else {
        lemma_decimal_value(n / 10);
        let s = decimal(n / 10).push(digit_char(n % 10));
        assert(s.drop_last() =~= decimal(n / 10));
        assert(digit_value(digit_char(n % 10)) == n % 10);
    }
}

/// Different numbers have different numerals.
pub proof fn lemma_decimal_injective(a: nat, b: nat)
    requires
        decimal(a) == decimal(b),
    ensures
        a == b,
{
    lemma_decimal_value(a);
    lemma_decimal_value(b);
}

/// Names made of one prefix, a decimal numeral and one suffix differ where
/// the numbers differ.
pub proof fn lemma_numbered_names_distinct(prefix: Seq<char>, suffix: Seq<char>, a: nat, b: nat)
    requires
        prefix + decimal(a) + suffix == prefix + decimal(b) + suffix,
    ensures
        a == b,
{
    let name_a = prefix + decimal(a) + suffix;
    let name_b = prefix + decimal(b) + suffix;
    let from = prefix.len() as int;
    assert(name_a.len() == prefix.len() + decimal(a).len() + suffix.len());
    assert(name_b.len() == prefix.len() + decimal(b).len() + suffix.len());
    assert(decimal(a) =~= name_a.subrange(from, from + decimal(a).len()));
    assert(decimal(b) =~= name_b.subrange(from, from + decimal(b).len()));
    lemma_decimal_injective(a, b);
}

/// `String::push` of the standard library: appends one character to the
/// end of the string and leaves the characters before it as they were.
#[verifier::external_body]
fn push_char(s: &mut String, c: char)
    ensures
        final(s)@ == old(s)@.push(c),
{
    s.push(c)
}

/// Writes `n` as a decimal numeral.
pub fn render_decimal(n: u32) -> (r: String)
    ensures
        r@ == decimal(n as nat),
    decreases n,
{
    if n < 10 {
        let mut r = String::new();
        push_char(&mut r, digit_to_char(n));
        assert(r@ =~= seq![digit_char(n as nat)]);
        r
    } else {
        let mut r = render_decimal(n / 10);
        push_char(&mut r, digit_to_char(n % 10));
        r
    }
}

/// The text `s` with every `&` replaced by `&amp;`.
pub open spec fn escape_amp(s: Seq<char>) -> Seq<char>
    decreases s.len(),
{
    if s.len() == 0 {
        Seq::empty()
    } else if s.last() == '&' {
        escape_amp(s.drop_last()) + "&amp;"@
    } else {
        escape_amp(s.drop_last()).push(s.last())
    }
}

/// Escapes the one character that is reserved in the markup written here:
/// each `&` of `src` becomes `&amp;`, every other character is kept.
pub fn escape(src: &str) -> (r: String)
    ensures
        r@ == escape_amp(src@),
{
    let mut r = String::new();
    let mut chars = src.chars();
    let ghost mut done: int = 0;
    assert(src@.skip(0) =~= src@);
    assert(src@.take(0) =~= Seq::<char>::empty());
    loop
        invariant
            0 <= done <= src@.len(),
            chars.obeys_prophetic_iter_laws(),
            chars.remaining() == src@.skip(done),
            r@ == escape_amp(src@.take(done)),
        ensures
            r@ == escape_amp(src@),
        decreases src@.len() - done,
    {
        let next = chars.next();
        match next {
            Some(c) => {
                proof {
                    assert(src@.skip(done).drop_first() =~= src@.skip(done + 1));
                    assert(src@.take(done + 1).drop_last() =~= src@.take(done));
                    done = done + 1;
                }
                if c == '&' {
                    r.append("&amp;");
                } else {
                    push_char(&mut r, c);
                }
            },
            None => {
                assert(src@.take(done) =~= src@);
                break ;
            },
        }
    }
    r
}

/// Whether `s` starts with the escaped form of `&`.
pub open spec fn starts_with_entity(s: Seq<char>) -> bool {
    s.len() >= 5 && s.take(5) == "&amp;"@
}

/// Reads escaped text back: every `&amp;` becomes `&`, every other
/// character is kept.
pub open spec fn unescape_amp(s: Seq<char>) -> Seq<char>
    decreases s.len(),
{
    if s.len() == 0 {
        Seq::empty()
    } else if starts_with_entity(s) {
        seq!['&'] + unescape_amp(s.skip(5))
    } else {
        seq![s[0]] + unescape_amp(s.skip(1))
    }
}

/// Escaping goes part by part: the escaped form of two texts, one after
/// the other, is the escaped form of the first followed by that of the
/// second.
pub proof fn lemma_escape_concat(a: Seq<char>, b: Seq<char>)
    ensures
        escape_amp(a + b) == escape_amp(a) + escape_amp(b),
    decreases b.len(),
{
    if b.len() == 0 {
        assert(a + b =~= a);
        assert(escape_amp(a) + escape_amp(b) =~= escape_amp(a));
    } else {
        assert((a + b).drop_last() =~= a + b.drop_last());
        assert((a + b).last() == b.last());
        lemma_escape_concat(a, b.drop_last());
        if b.last() == '&' {
            assert(escape_amp(a + b) =~= escape_amp(a) + (escape_amp(b.drop_last()) + "&amp;"@));
        } else {
            assert(escape_amp(a + b) =~= escape_amp(a) + escape_amp(b.drop_last()).push(b.last()));
        }
    }
}

/// The escaped form of a text of one character.
proof fn lemma_escape_one(c: char)
    ensures
        escape_amp(seq![c]) == if c == '&' {
            "&amp;"@
        } else {
            seq![c]
        },
{
    let s = seq![c];
    assert(s.drop_last() =~= Seq::<char>::empty());
    assert(escape_amp(s.drop_last()) =~= Seq::<char>::empty());
    if c == '&' {
        assert(escape_amp(s) =~= "&amp;"@);
    } else {
        assert(escape_amp(s) =~= seq![c]);
    }
}

/// Escaping loses nothing: reading the escaped form of a text back gives
/// the text.
pub proof fn law_escape_round_trip(s: Seq<char>)
    ensures
        unescape_amp(escape_amp(s)) == s,
    decreases s.len(),
{
    reveal_strlit("&amp;");
    if s.len() == 0 {
        assert(unescape_amp(escape_amp(s)) =~= s);
    } else {
        let head = seq![s[0]];
        let rest = s.skip(1);
        assert(s =~= head + rest);
        lemma_escape_concat(head, rest);
        lemma_escape_one(s[0]);
        law_escape_round_trip(rest);
        let e = escape_amp(s);
        if s[0] == '&' {
            assert(e =~= "&amp;"@ + escape_amp(rest));
            assert(e.take(5) =~= "&amp;"@);
            assert(e.skip(5) =~= escape_amp(rest));
            assert(unescape_amp(e) =~= seq!['&'] + rest);
        } else {
            assert(e =~= head + escape_amp(rest));
            assert(e[0] == s[0]);
            assert(!starts_with_entity(e)) by {
                if e.len() >= 5 {
                    assert(e.take(5)[0] == e[0]);
                    assert("&amp;"@[0] == '&');
                }
            }
            assert(e.skip(1) =~= escape_amp(rest));
            assert(unescape_amp(e) =~= head + rest);
        }
    }
}

/// No `&` of an escaped text stands alone: each one starts an `&amp;`.
pub proof fn law_no_ampersand_stands_alone(s: Seq<char>, i: int)
    requires
        0 <= i < escape_amp(s).len(),
        escape_amp(s)[i] == '&',
    ensures
        i + 5 <= escape_amp(s).len(),
        escape_amp(s).subrange(i, i + 5) == "&amp;"@,
    decreases s.len(),
{
    reveal_strlit("&amp;");
    if s.len() > 0 {
        let front = escape_amp(s.drop_last());
        if i < front.len() {
            law_no_ampersand_stands_alone(s.drop_last(), i);
            assert(escape_amp(s).subrange(i, i + 5) =~= front.subrange(i, i + 5));
        } else if s.last() == '&' {
            assert(escape_amp(s) =~= front + "&amp;"@);
            assert(i == front.len()) by {
                let k = i - front.len();
                assert(escape_amp(s)[i] == "&amp;"@[k]);
            }
            assert(escape_amp(s).subrange(i, i + 5) =~= "&amp;"@);
        } else {
            assert(escape_amp(s)[i] == s.last());
        }
    }
}

/// The strings of a list, each as a character sequence, in the list's order.
pub open spec fn texts(list: Seq<String>) -> Seq<Seq<char>> {
    list.map_values(|s: String| s@)
}

/// What stands before the part at `position` of a comma-separated list: a
/// comma, but nothing before the first part.
pub open spec fn comma_before(position: int) -> Seq<char> {
    if position > 0 {
        ","@
    } else {
        Seq::empty()
    }
}

/// The parts one after the other with a comma between neighbours.
pub open spec fn comma_separated(parts: Seq<Seq<char>>) -> Seq<char>
    decreases parts.len(),
{
    if parts.len() == 0 {
        Seq::empty()
    } else {
        comma_separated(parts.drop_last()) + comma_before(parts.len() - 1) + parts.last()
    }
}

/// Joins `parts` with commas.
pub fn join_with_commas(parts: &Vec<String>) -> (r: String)
    ensures
        r@ == comma_separated(texts(parts@)),
{
    let mut r = String::new();
    let mut i: usize = 0;
    assert(texts(parts@).take(0) =~= Seq::<Seq<char>>::empty());
    while i < parts.len()
        invariant
            0 <= i <= parts.len(),
            r@ == comma_separated(texts(parts@).take(i as int)),
        decreases parts.len() - i,
    {
        let ghost grown = texts(parts@).take(i + 1);
        assert(grown.drop_last() =~= texts(parts@).take(i as int));
        assert(grown.last() == parts@[i as int]@);
        if i > 0 {
            r.append(",");
        } else {
            assert(r@ + comma_before(0) =~= r@);
        }
        r.append(parts[i].as_str());
        i = i + 1;
    }
    assert(texts(parts@).take(parts@.len() as int) =~= texts(parts@));
    r
}

} // verus!
