//! What holds of every colour that is read.

use vstd::prelude::*;

use crate::colors::{
    arguments, color_form, hex_form, hex_value, long_channel, named_form, short_channel, Form,
};
use crate::text::{
    is_blank, lemma_not_trimmed, lemma_skip, lemma_tail_start, lower, lower_all, skip, stands_at_ci,
    stands_in_ci, tail_start, trim, trim_end, trim_start, Class,
};

verus! {

// ----- Letters and their case -----

/// Whether a class holds a letter in both cases or in none.
spec fn caseless(class: Class) -> bool {
    forall|c: char| #[trigger] class.has(lower(c)) == class.has(c)
}

proof fn lemma_caseless(x: char)
    requires
        !('A' <= x && x <= 'Z') && !('a' <= x && x <= 'z'),
    ensures
        caseless(Class::Blank),
        caseless(Class::ChannelSeparator),
        caseless(Class::Channel),
        caseless(Class::Hex),
        caseless(Class::Not(x)),
{
}

proof fn lemma_skip_lower(s: Seq<char>, i: int, lim: int, class: Class)
    requires
        caseless(class),
        0 <= i,
        lim <= s.len(),
    ensures
        skip(lower_all(s), i, lim, class) == skip(s, i, lim, class),
    decreases lim - i,
{
    if i < lim {
        assert(class.has(lower(s[i])) == class.has(s[i]));
        lemma_skip_lower(s, i + 1, lim, class);
    }
}

proof fn lemma_tail_lower(s: Seq<char>, end: int, class: Class)
    requires
        caseless(class),
        0 <= end <= s.len(),
    ensures
        tail_start(lower_all(s), end, class) == tail_start(s, end, class),
    decreases end,
{
    if end > 0 {
        assert(class.has(lower(s[end - 1])) == class.has(s[end - 1]));
        lemma_tail_lower(s, end - 1, class);
    }
}

proof fn lemma_trim_lower(s: Seq<char>)
    ensures
        trim(lower_all(s)) == lower_all(trim(s)),
{
    lemma_caseless('(');
    let n = s.len() as int;
    lemma_skip_lower(s, 0, n, Class::Blank);
    lemma_skip(s, 0, n, Class::Blank);
    let a = trim_start(s);
    assert(trim_start(lower_all(s)) =~= lower_all(a));
    lemma_tail_lower(a, a.len() as int, Class::Blank);
    lemma_tail_start(a, a.len() as int, Class::Blank);
    assert(trim_end(lower_all(a)) =~= lower_all(trim_end(a)));
}

proof fn lemma_lower_twice(s: Seq<char>)
    ensures
        lower_all(lower_all(s)) == lower_all(s),
{
    assert forall|i: int| 0 <= i < s.len() implies #[trigger] lower_all(lower_all(s))[i] == lower_all(
        s,
    )[i] by {
        assert(lower(lower(s[i])) == lower(s[i]));
    }
    assert(lower_all(lower_all(s)) =~= lower_all(s));
}

proof fn lemma_stands_lower(s: Seq<char>, p: Seq<char>)
    ensures
        stands_in_ci(lower_all(s), p, 0, s.len() as int) == stands_in_ci(s, p, 0, s.len() as int),
{
    if p.len() <= s.len() {
        let part = s.subrange(0, p.len() as int);
        lemma_lower_twice(part);
        assert(lower_all(s).subrange(0, p.len() as int) =~= lower_all(part));
    }
}

proof fn lemma_hex_lower(c: char)
    ensures
        hex_value(lower(c)) == hex_value(c),
{
}

proof fn lemma_hex_form_lower(s: Seq<char>)
    ensures
        hex_form(lower_all(s)) == hex_form(s),
{
    assert forall|i: int| 0 <= i < s.len() implies hex_value(#[trigger] lower_all(s)[i]) == hex_value(
        s[i],
    ) by {
        lemma_hex_lower(s[i]);
    }
}

proof fn lemma_arguments_lower(s: Seq<char>, i: int)
    requires
        0 <= i,
    ensures
        arguments(lower_all(s), i) == arguments(s, i).map_values(|t: Seq<char>| lower_all(t)),
    decreases s.len() - i,
{
    let f = |t: Seq<char>| lower_all(t);
    let n = s.len() as int;
    lemma_caseless('(');
    lemma_skip_lower(s, i, n, Class::ChannelSeparator);
    lemma_skip(s, i, n, Class::ChannelSeparator);
    let a = skip(s, i, n, Class::ChannelSeparator);
    lemma_skip_lower(s, a, n, Class::Channel);
    lemma_skip(s, a, n, Class::Channel);
    let b = skip(s, a, n, Class::Channel);
    if a >= n {
        assert(arguments(lower_all(s), i) =~= arguments(s, i).map_values(f));
    } else {
        assert(skip(s, a, n, Class::Channel) == skip(s, a + 1, n, Class::Channel));
        lemma_skip(s, a + 1, n, Class::Channel);
        lemma_arguments_lower(s, b);
        assert(lower_all(s).subrange(a, b) =~= lower_all(s.subrange(a, b)));
        assert(arguments(lower_all(s), i) =~= arguments(s, i).map_values(f));
    }
}

/// The form with the letters of its arguments in lower case.
pub open spec fn lowered(form: Form) -> Form {
    match form {
        Form::Bytes(r, g, b, a) => Form::Bytes(r, g, b, a),
        Form::Channels(found) => Form::Channels(found.map_values(|t: Seq<char>| lower_all(t))),
    }
}

/// Reading a colour does not depend on the case of its letters: in lower case a token is
/// read as the same bytes, or as the same arguments in lower case, or as no colour too.
pub proof fn case_does_not_matter(token: Seq<char>, bare_hex: bool)
    ensures
        match color_form(token, bare_hex) {
            Some(form) => color_form(lower_all(token), bare_hex) == Some(lowered(form)),
            None => color_form(lower_all(token), bare_hex) is None,
        },
        color_form(token, bare_hex) is Some && color_form(token, bare_hex)->0 is Bytes
            ==> color_form(lower_all(token), bare_hex) == color_form(token, bare_hex),
{
    lemma_trim_lower(token);
    let t = trim(token);
    let n = t.len() as int;
    lemma_lower_twice(t);
    lemma_caseless('(');
    lemma_skip_lower(t, 0, n, Class::Not('('));
    lemma_skip_lower(t, 0, n, Class::Hex);
    lemma_stands_lower(t, "rgb("@);
    lemma_stands_lower(t, "rgba("@);
    lemma_hex_form_lower(t);
    let bracket = skip(t, 0, n, Class::Not('('));
    lemma_skip(t, 0, n, Class::Not('('));
    if n > 0 {
        assert((lower(t[0]) == '#') == (t[0] == '#'));
        assert((lower(t[n - 1]) == ')') == (t[n - 1] == ')'));
        assert(lower_all(t).subrange(1, n) =~= lower_all(t.subrange(1, n)));
        lemma_hex_form_lower(t.subrange(1, n));
    }
    if bracket + 1 < n {
        let inner = t.subrange(bracket + 1, n - 1);
        assert(lower_all(t).subrange(bracket + 1, n - 1) =~= lower_all(inner));
        lemma_arguments_lower(inner, 0);
    }
}

// ----- Hexadecimal digits -----

/// A hexadecimal digit of this value, in lower case.
pub open spec fn small_digit(v: int) -> char {
    "0123456789abcdef"@[v]
}

/// A hexadecimal digit of this value, in upper case.
pub open spec fn capital_digit(v: int) -> char {
    "0123456789ABCDEF"@[v]
}

/// Whether a character is the digit of this value, in either case.
pub open spec fn is_digit_of(c: char, v: int) -> bool {
    c == small_digit(v) || c == capital_digit(v)
}

/// Whether two characters are the digits of a byte.
pub open spec fn writes(c: char, d: char, byte: u8) -> bool {
    is_digit_of(c, byte as int / 16) && is_digit_of(d, byte as int % 16)
}

proof fn lemma_digit(c: char, v: int)
    requires
        0 <= v < 16,
        is_digit_of(c, v),
    ensures
        hex_value(c) == Some(v as u8),
        !is_blank(c),
        Class::Hex.has(c),
        c != '#',
        lower(c) != 'r',
{
    reveal_strlit("0123456789abcdef");
    reveal_strlit("0123456789ABCDEF");
}

proof fn lemma_writes(c: char, d: char, byte: u8)
    requires
        writes(c, d, byte),
    ensures
        long_channel(c, d) == Some(byte),
        !is_blank(c) && !is_blank(d),
        Class::Hex.has(c) && Class::Hex.has(d),
        c != '#' && lower(c) != 'r',
{
    lemma_digit(c, byte as int / 16);
    lemma_digit(d, byte as int % 16);
    let v = byte / 16;
    let w = byte % 16;
    assert((v * 16 + w) as u8 == byte) by (nonlinear_arith)
        requires
            v == byte / 16,
            w == byte % 16,
    ;
}

/// A `#` and the three channels in two hexadecimal digits each, in either case, are read
/// as that colour, with nothing of what is behind it to be seen; a fourth channel is how
/// much it covers.
pub proof fn written_channels_are_read(t: Seq<char>, r: u8, g: u8, b: u8, a: u8, bare_hex: bool)
    requires
        t.len() == 7 || t.len() == 9,
        t[0] == '#',
        writes(t[1], t[2], r),
        writes(t[3], t[4], g),
        writes(t[5], t[6], b),
        t.len() == 9 ==> writes(t[7], t[8], a),
    ensures
        t.len() == 7 ==> color_form(t, bare_hex) == Some(Form::Bytes(r, g, b, 255)),
        t.len() == 9 ==> color_form(t, bare_hex) == Some(Form::Bytes(r, g, b, a)),
{
    lemma_writes(t[1], t[2], r);
    lemma_writes(t[3], t[4], g);
    lemma_writes(t[5], t[6], b);
    if t.len() == 9 {
        lemma_writes(t[7], t[8], a);
    }
    lemma_not_trimmed(t);
}

/// A channel of one digit stands for that digit twice: `#rgb` is read as `#rrggbb`, and
/// `#rgba` as `#rrggbbaa`.
pub proof fn one_digit_stands_for_two(r: char, g: char, b: char, a: char, bare_hex: bool)
    requires
        !is_blank(a),
        !is_blank(b),
    ensures
        color_form(seq!['#', r, g, b], bare_hex) == color_form(
            seq!['#', r, r, g, g, b, b],
            bare_hex,
        ),
        color_form(seq!['#', r, g, b, a], bare_hex) == color_form(
            seq!['#', r, r, g, g, b, b, a, a],
            bare_hex,
        ),
{
    lemma_not_trimmed(seq!['#', r, g, b]);
    lemma_not_trimmed(seq!['#', r, r, g, g, b, b]);
    lemma_not_trimmed(seq!['#', r, g, b, a]);
    lemma_not_trimmed(seq!['#', r, r, g, g, b, b, a, a]);
    lemma_twice(r);
    lemma_twice(g);
    lemma_twice(b);
    lemma_twice(a);
    let short = seq!['#', r, g, b];
    let full = seq!['#', r, r, g, g, b, b];
    assert(hex_form(short.subrange(1, 4)) == hex_form(full.subrange(1, 7)));
    let short = seq!['#', r, g, b, a];
    let full = seq!['#', r, r, g, g, b, b, a, a];
    assert(hex_form(short.subrange(1, 5)) == hex_form(full.subrange(1, 9)));
}

proof fn lemma_twice(c: char)
    ensures
        short_channel(c) == long_channel(c, c),
{
}

/// Behind a `#` nothing but hexadecimal digits is a colour.
pub proof fn other_letters_are_no_color(t: Seq<char>, k: int, bare_hex: bool)
    requires
        1 <= k < t.len(),
        t[0] == '#',
        !is_blank(t.last()),
        forall|v: int| 0 <= v < 16 ==> !#[trigger] is_digit_of(t[k], v),
    ensures
        color_form(t, bare_hex) is None,
{
    lemma_not_trimmed(t);
    lemma_value(t[k]);
    let s = t.subrange(1, t.len() as int);
    assert(s[k - 1] == t[k]);
}

proof fn lemma_value(c: char)
    ensures
        hex_value(c) matches Some(v) ==> v < 16 && is_digit_of(c, v as int),
{
    reveal_strlit("0123456789abcdef");
    reveal_strlit("0123456789ABCDEF");
}

/// Six hexadecimal digits without a `#` are read as with one, where they may stand so, and
/// are no colour where they may not.
pub proof fn bare_digits_are_read(t: Seq<char>, r: u8, g: u8, b: u8)
    requires
        t.len() == 6,
        writes(t[0], t[1], r),
        writes(t[2], t[3], g),
        writes(t[4], t[5], b),
    ensures
        color_form(t, true) == Some(Form::Bytes(r, g, b, 255)),
        color_form(t, false) is None,
{
    lemma_writes(t[0], t[1], r);
    lemma_writes(t[2], t[3], g);
    lemma_writes(t[4], t[5], b);
    lemma_not_trimmed(t);
    reveal_strlit("rgb(");
    reveal_strlit("rgba(");
    if stands_at_ci(t, "rgb("@, 0) {
        assert(lower_all(t.subrange(0, 4))[0] == lower(t[0]));
    }
    if stands_at_ci(t, "rgba("@, 0) {
        assert(lower_all(t.subrange(0, 5))[0] == lower(t[0]));
    }
    lemma_no_name(lower_all(t));
    lemma_all_hex(t, 0);
}

proof fn lemma_all_hex(t: Seq<char>, i: int)
    requires
        0 <= i <= t.len(),
        forall|k: int| 0 <= k < t.len() ==> Class::Hex.has(#[trigger] t[k]),
    ensures
        skip(t, i, t.len() as int, Class::Hex) == t.len(),
    decreases t.len() - i,
{
    if i < t.len() {
        lemma_all_hex(t, i + 1);
    }
}

// ----- Names -----

/// The names of colours, each with its red, green and blue.
pub open spec fn means(name: Seq<char>, r: u8, g: u8, b: u8) -> bool {
    ||| name == "black"@ && (r, g, b) == (0u8, 0u8, 0u8)
    ||| name == "white"@ && (r, g, b) == (255u8, 255u8, 255u8)
    ||| name == "gray"@ && (r, g, b) == (128u8, 128u8, 128u8)
    ||| name == "grey"@ && (r, g, b) == (128u8, 128u8, 128u8)
    ||| name == "dimgray"@ && (r, g, b) == (105u8, 105u8, 105u8)
    ||| name == "dimgrey"@ && (r, g, b) == (105u8, 105u8, 105u8)
    ||| name == "darkgray"@ && (r, g, b) == (169u8, 169u8, 169u8)
    ||| name == "darkgrey"@ && (r, g, b) == (169u8, 169u8, 169u8)
    ||| name == "lightgray"@ && (r, g, b) == (211u8, 211u8, 211u8)
    ||| name == "lightgrey"@ && (r, g, b) == (211u8, 211u8, 211u8)
    ||| name == "gainsboro"@ && (r, g, b) == (220u8, 220u8, 220u8)
    ||| name == "whitesmoke"@ && (r, g, b) == (245u8, 245u8, 245u8)
    ||| name == "silver"@ && (r, g, b) == (192u8, 192u8, 192u8)
    ||| name == "red"@ && (r, g, b) == (255u8, 0u8, 0u8)
    ||| name == "darkred"@ && (r, g, b) == (128u8, 0u8, 0u8)
    ||| name == "maroon"@ && (r, g, b) == (128u8, 0u8, 0u8)
    ||| name == "green"@ && (r, g, b) == (0u8, 128u8, 0u8)
    ||| name == "darkgreen"@ && (r, g, b) == (0u8, 100u8, 0u8)
    ||| name == "blue"@ && (r, g, b) == (0u8, 0u8, 255u8)
    ||| name == "navy"@ && (r, g, b) == (0u8, 0u8, 128u8)
    ||| name == "darkblue"@ && (r, g, b) == (0u8, 0u8, 128u8)
    ||| name == "midnightblue"@ && (r, g, b) == (25u8, 25u8, 112u8)
    ||| name == "purple"@ && (r, g, b) == (128u8, 0u8, 128u8)
    ||| name == "indigo"@ && (r, g, b) == (75u8, 0u8, 130u8)
    ||| name == "brown"@ && (r, g, b) == (165u8, 42u8, 42u8)
    ||| name == "orange"@ && (r, g, b) == (255u8, 165u8, 0u8)
    ||| name == "yellow"@ && (r, g, b) == (255u8, 255u8, 0u8)
    ||| name == "teal"@ && (r, g, b) == (0u8, 128u8, 128u8)
    ||| name == "olive"@ && (r, g, b) == (128u8, 128u8, 0u8)
}

proof fn lemma_no_name(t: Seq<char>)
    requires
        t.len() == 6,
        forall|k: int| 0 <= k < 6 ==> Class::Hex.has(#[trigger] t[k]),
    ensures
        named_form(t) is None,
{
    reveal_strlit("black");
    reveal_strlit("white");
    reveal_strlit("gray");
    reveal_strlit("grey");
    reveal_strlit("dimgray");
    reveal_strlit("dimgrey");
    reveal_strlit("darkgray");
    reveal_strlit("darkgrey");
    reveal_strlit("lightgray");
    reveal_strlit("lightgrey");
    reveal_strlit("gainsboro");
    reveal_strlit("whitesmoke");
    reveal_strlit("silver");
    reveal_strlit("red");
    reveal_strlit("darkred");
    reveal_strlit("maroon");
    reveal_strlit("green");
    reveal_strlit("darkgreen");
    reveal_strlit("blue");
    reveal_strlit("navy");
    reveal_strlit("darkblue");
    reveal_strlit("midnightblue");
    reveal_strlit("purple");
    reveal_strlit("indigo");
    reveal_strlit("brown");
    reveal_strlit("orange");
    reveal_strlit("yellow");
    reveal_strlit("teal");
    reveal_strlit("olive");
    assert(Class::Hex.has(t[0]) && Class::Hex.has(t[1]) && Class::Hex.has(t[2]));
}

proof fn lemma_named(name: Seq<char>, r: u8, g: u8, b: u8)
    requires
        means(name, r, g, b),
    ensures
        named_form(name) == Some(Form::Bytes(r, g, b, 255)),
{
    reveal_strlit("black");
    reveal_strlit("white");
    reveal_strlit("gray");
    reveal_strlit("grey");
    reveal_strlit("dimgray");
    reveal_strlit("dimgrey");
    reveal_strlit("darkgray");
    reveal_strlit("darkgrey");
    reveal_strlit("lightgray");
    reveal_strlit("lightgrey");
    reveal_strlit("gainsboro");
    reveal_strlit("whitesmoke");
    reveal_strlit("silver");
    reveal_strlit("red");
    reveal_strlit("darkred");
    reveal_strlit("maroon");
    reveal_strlit("green");
    reveal_strlit("darkgreen");
    reveal_strlit("blue");
    reveal_strlit("navy");
    reveal_strlit("darkblue");
    reveal_strlit("midnightblue");
    reveal_strlit("purple");
    reveal_strlit("indigo");
    reveal_strlit("brown");
    reveal_strlit("orange");
    reveal_strlit("yellow");
    reveal_strlit("teal");
    reveal_strlit("olive");
    assert("black"@[3] == 'c');
    assert("white"@[3] == 't');
    assert("green"@[3] == 'e');
    assert("brown"@[3] == 'w');
    assert("olive"@[3] == 'v');
    assert("gray"@[0] == 'g' && "gray"@[2] == 'a');
    assert("grey"@[0] == 'g' && "grey"@[2] == 'e');
    assert("blue"@[0] == 'b' && "blue"@[2] == 'u');
    assert("navy"@[0] == 'n' && "navy"@[2] == 'v');
    assert("teal"@[0] == 't' && "teal"@[2] == 'a');
    assert("dimgray"@[1] == 'i' && "dimgray"@[5] == 'a');
    assert("dimgrey"@[1] == 'i' && "dimgrey"@[5] == 'e');
    assert("darkred"@[1] == 'a' && "darkred"@[5] == 'e');
    assert("darkgray"@[6] == 'a');
    assert("darkgrey"@[6] == 'e');
    assert("darkblue"@[6] == 'u');
    assert("lightgray"@[0] == 'l' && "lightgray"@[7] == 'a');
    assert("lightgrey"@[0] == 'l' && "lightgrey"@[7] == 'e');
    assert("gainsboro"@[0] == 'g' && "gainsboro"@[7] == 'r');
    assert("darkgreen"@[0] == 'd' && "darkgreen"@[7] == 'e');
    assert("silver"@[0] == 's');
    assert("maroon"@[0] == 'm');
    assert("purple"@[0] == 'p');
    assert("indigo"@[0] == 'i');
    assert("orange"@[0] == 'o');
    assert("yellow"@[0] == 'y');
    assert("black"@.len() == 5);
    assert("white"@.len() == 5);
    assert("gray"@.len() == 4);
    assert("grey"@.len() == 4);
    assert("dimgray"@.len() == 7);
    assert("dimgrey"@.len() == 7);
    assert("darkgray"@.len() == 8);
    assert("darkgrey"@.len() == 8);
    assert("lightgray"@.len() == 9);
    assert("lightgrey"@.len() == 9);
    assert("gainsboro"@.len() == 9);
    assert("whitesmoke"@.len() == 10);
    assert("silver"@.len() == 6);
    assert("red"@.len() == 3);
    assert("darkred"@.len() == 7);
    assert("maroon"@.len() == 6);
    assert("green"@.len() == 5);
    assert("darkgreen"@.len() == 9);
    assert("blue"@.len() == 4);
    assert("navy"@.len() == 4);
    assert("darkblue"@.len() == 8);
    assert("midnightblue"@.len() == 12);
    assert("purple"@.len() == 6);
    assert("indigo"@.len() == 6);
    assert("brown"@.len() == 5);
    assert("orange"@.len() == 6);
    assert("yellow"@.len() == 6);
    assert("teal"@.len() == 4);
    assert("olive"@.len() == 5);
    assert(named_form("black"@) == Some(Form::Bytes(0, 0, 0, 255)));
    assert(named_form("white"@) == Some(Form::Bytes(255, 255, 255, 255)));
    assert(named_form("gray"@) == Some(Form::Bytes(128, 128, 128, 255)));
    assert(named_form("grey"@) == Some(Form::Bytes(128, 128, 128, 255)));
    assert(named_form("dimgray"@) == Some(Form::Bytes(105, 105, 105, 255)));
    assert(named_form("dimgrey"@) == Some(Form::Bytes(105, 105, 105, 255)));
    assert(named_form("darkgray"@) == Some(Form::Bytes(169, 169, 169, 255)));
    assert(named_form("darkgrey"@) == Some(Form::Bytes(169, 169, 169, 255)));
    assert(named_form("lightgray"@) == Some(Form::Bytes(211, 211, 211, 255)));
    assert(named_form("lightgrey"@) == Some(Form::Bytes(211, 211, 211, 255)));
    assert(named_form("gainsboro"@) == Some(Form::Bytes(220, 220, 220, 255)));
    assert(named_form("whitesmoke"@) == Some(Form::Bytes(245, 245, 245, 255)));
    assert(named_form("silver"@) == Some(Form::Bytes(192, 192, 192, 255)));
    assert(named_form("red"@) == Some(Form::Bytes(255, 0, 0, 255)));
    assert(named_form("darkred"@) == Some(Form::Bytes(128, 0, 0, 255)));
    assert(named_form("maroon"@) == Some(Form::Bytes(128, 0, 0, 255)));
    assert(named_form("green"@) == Some(Form::Bytes(0, 128, 0, 255)));
    assert(named_form("darkgreen"@) == Some(Form::Bytes(0, 100, 0, 255)));
    assert(named_form("blue"@) == Some(Form::Bytes(0, 0, 255, 255)));
    assert(named_form("navy"@) == Some(Form::Bytes(0, 0, 128, 255)));
    assert(named_form("darkblue"@) == Some(Form::Bytes(0, 0, 128, 255)));
    assert(named_form("midnightblue"@) == Some(Form::Bytes(25, 25, 112, 255)));
    assert(named_form("purple"@) == Some(Form::Bytes(128, 0, 128, 255)));
    assert(named_form("indigo"@) == Some(Form::Bytes(75, 0, 130, 255)));
    assert(named_form("brown"@) == Some(Form::Bytes(165, 42, 42, 255)));
    assert(named_form("orange"@) == Some(Form::Bytes(255, 165, 0, 255)));
    assert(named_form("yellow"@) == Some(Form::Bytes(255, 255, 0, 255)));
    assert(named_form("teal"@) == Some(Form::Bytes(0, 128, 128, 255)));
    assert(named_form("olive"@) == Some(Form::Bytes(128, 128, 0, 255)));
}

proof fn lemma_name_letters(name: Seq<char>, r: u8, g: u8, b: u8)
    requires
        means(name, r, g, b),
    ensures
        name.len() > 0,
        name[0] != '#',
        name.len() < 4 || name[3] != '(',
        name.len() < 5 || name[4] != '(',
{
    reveal_strlit("black");
    reveal_strlit("white");
    reveal_strlit("gray");
    reveal_strlit("grey");
    reveal_strlit("dimgray");
    reveal_strlit("dimgrey");
    reveal_strlit("darkgray");
    reveal_strlit("darkgrey");
    reveal_strlit("lightgray");
    reveal_strlit("lightgrey");
    reveal_strlit("gainsboro");
    reveal_strlit("whitesmoke");
    reveal_strlit("silver");
    reveal_strlit("red");
    reveal_strlit("darkred");
    reveal_strlit("maroon");
    reveal_strlit("green");
    reveal_strlit("darkgreen");
    reveal_strlit("blue");
    reveal_strlit("navy");
    reveal_strlit("darkblue");
    reveal_strlit("midnightblue");
    reveal_strlit("purple");
    reveal_strlit("indigo");
    reveal_strlit("brown");
    reveal_strlit("orange");
    reveal_strlit("yellow");
    reveal_strlit("teal");
    reveal_strlit("olive");
}

/// A colour's name is read as that colour, in whatever case and with white space around
/// it.
pub proof fn names_are_read(token: Seq<char>, r: u8, g: u8, b: u8, bare_hex: bool)
    requires
        means(lower_all(trim(token)), r, g, b),
    ensures
        color_form(token, bare_hex) == Some(Form::Bytes(r, g, b, 255)),
{
    let t = trim(token);
    let name = lower_all(t);
    lemma_named(name, r, g, b);
    lemma_name_letters(name, r, g, b);
    assert(name[0] == lower(t[0]));
    reveal_strlit("rgb(");
    reveal_strlit("rgba(");
    if stands_in_ci(t, "rgb("@, 0, t.len() as int) {
        assert(lower_all(t.subrange(0, 4))[3] == name[3]);
    }
    if stands_in_ci(t, "rgba("@, 0, t.len() as int) {
        assert(lower_all(t.subrange(0, 5))[4] == name[4]);
    }
}

// ----- Functions -----

/// Whether a text can be one argument of a colour function.
pub open spec fn is_argument(s: Seq<char>) -> bool {
    &&& s.len() > 0
    &&& forall|k: int| 0 <= k < s.len() ==> Class::Channel.has(#[trigger] s[k])
}

/// An argument that stands at `a`, at the start or behind a comma, and ends at `b`.
proof fn lemma_argument_at(s: Seq<char>, i: int, a: int, b: int)
    requires
        0 <= i <= a < b <= s.len(),
        a == i || (a == i + 1 && s[i] == ','),
        is_argument(s.subrange(a, b)),
        b == s.len() || s[b] == ',',
    ensures
        arguments(s, i) == seq![s.subrange(a, b)] + arguments(s, b),
{
    let n = s.len() as int;
    let word = s.subrange(a, b);
    assert forall|k: int| a <= k < b implies Class::Channel.has(#[trigger] s[k]) by {
        assert(word[k - a] == s[k]);
    }
    assert(skip(s, a, n, Class::ChannelSeparator) == a);
    assert(skip(s, i, n, Class::ChannelSeparator) == a);
    lemma_run(s, a, b);
}

proof fn lemma_run(s: Seq<char>, a: int, b: int)
    requires
        0 <= a <= b <= s.len(),
        forall|k: int| a <= k < b ==> Class::Channel.has(#[trigger] s[k]),
        b == s.len() || !Class::Channel.has(s[b]),
    ensures
        skip(s, a, s.len() as int, Class::Channel) == b,
    decreases b - a,
{
    if a < b {
        lemma_run(s, a + 1, b);
    }
}

/// A colour function of three or four arguments between commas is read as these, in their
/// order.
pub proof fn channels_are_read(r: Seq<char>, g: Seq<char>, b: Seq<char>, a: Seq<char>, bare_hex: bool)
    requires
        is_argument(r),
        is_argument(g),
        is_argument(b),
        is_argument(a),
    ensures
        color_form("rgb("@ + r + ","@ + g + ","@ + b + ")"@, bare_hex) == Some(
            Form::Channels(seq![r, g, b]),
        ),
        color_form("rgba("@ + r + ","@ + g + ","@ + b + ","@ + a + ")"@, bare_hex) == Some(
            Form::Channels(seq![r, g, b, a]),
        ),
{
    reveal_strlit("rgb(");
    reveal_strlit("rgba(");
    reveal_strlit(",");
    reveal_strlit(")");
    let three = r + ","@ + g + ","@ + b;
    let four = r + ","@ + g + ","@ + b + ","@ + a;
    lemma_three(r, g, b);
    lemma_four(r, g, b, a);
    let s = "rgb("@ + r + ","@ + g + ","@ + b + ")"@;
    lemma_not_trimmed(s);
    assert(lower_all(s.subrange(0, 4)) =~= "rgb("@);
    lemma_bracket(s, 0, 3);
    assert(s.subrange(4, s.len() - 1) =~= three);
    let s = "rgba("@ + r + ","@ + g + ","@ + b + ","@ + a + ")"@;
    lemma_not_trimmed(s);
    assert(lower_all(s.subrange(0, 5)) =~= "rgba("@);
    lemma_bracket(s, 0, 4);
    assert(s.subrange(5, s.len() - 1) =~= four);
}

proof fn lemma_bracket(s: Seq<char>, i: int, k: int)
    requires
        0 <= i <= k < s.len(),
        s[k] == '(',
        forall|j: int| i <= j < k ==> s[j] != '(',
    ensures
        skip(s, i, s.len() as int, Class::Not('(')) == k,
    decreases k - i,
{
    if i < k {
        lemma_bracket(s, i + 1, k);
    }
}

proof fn lemma_three(r: Seq<char>, g: Seq<char>, b: Seq<char>)
    requires
        is_argument(r),
        is_argument(g),
        is_argument(b),
    ensures
        arguments(r + ","@ + g + ","@ + b, 0) == seq![r, g, b],
{
    reveal_strlit(",");
    let s = r + ","@ + g + ","@ + b;
    let n = s.len() as int;
    let p = r.len() as int;
    let q = p + 1 + g.len();
    assert(s.subrange(0, p) =~= r);
    assert(s.subrange(p + 1, q) =~= g);
    assert(s.subrange(q + 1, n) =~= b);
    lemma_argument_at(s, 0, 0, p);
    lemma_argument_at(s, p, p + 1, q);
    lemma_argument_at(s, q, q + 1, n);
    assert(arguments(s, n) =~= seq![]);
    assert(arguments(s, 0) =~= seq![r, g, b]);
}

proof fn lemma_four(r: Seq<char>, g: Seq<char>, b: Seq<char>, a: Seq<char>)
    requires
        is_argument(r),
        is_argument(g),
        is_argument(b),
        is_argument(a),
    ensures
        arguments(r + ","@ + g + ","@ + b + ","@ + a, 0) == seq![r, g, b, a],
{
    reveal_strlit(",");
    let s = r + ","@ + g + ","@ + b + ","@ + a;
    let n = s.len() as int;
    let p = r.len() as int;
    let q = p + 1 + g.len();
    let w = q + 1 + b.len();
    assert(s.subrange(0, p) =~= r);
    assert(s.subrange(p + 1, q) =~= g);
    assert(s.subrange(q + 1, w) =~= b);
    assert(s.subrange(w + 1, n) =~= a);
    lemma_argument_at(s, 0, 0, p);
    lemma_argument_at(s, p, p + 1, q);
    lemma_argument_at(s, q, q + 1, w);
    lemma_argument_at(s, w, w + 1, n);
    assert(arguments(s, n) =~= seq![]);
    assert(arguments(s, 0) =~= seq![r, g, b, a]);
}

} // verus!
