//! How a text is written into a manifest: between double quotes, with an
//! escape for each character that cannot stand there as it is.

use vstd::prelude::*;

verus! {

/// The digit of `n` to the base sixteen, for `n` below sixteen.
pub open spec fn hex(n: int) -> char {
    if n == 0 {
        '0'
    } else if n == 1 {
        '1'
    } else if n == 2 {
        '2'
    } else if n == 3 {
        '3'
    } else if n == 4 {
        '4'
    } else if n == 5 {
        '5'
    } else if n == 6 {
        '6'
    } else if n == 7 {
        '7'
    } else if n == 8 {
        '8'
    } else if n == 9 {
        '9'
    } else if n == 10 {
        'A'
    } else if n == 11 {
        'B'
    } else if n == 12 {
        'C'
    } else if n == 13 {
        'D'
    } else if n == 14 {
        'E'
    } else {
        'F'
    }
}

/// One character as it stands between double quotes: `\"` for a quote,
/// `\\` for a backslash, `\u00XX` for a control character below the space,
/// and any other character as it is.
pub open spec fn escaped_char(c: char) -> Seq<char> {
    if c == '"' {
        seq!['\\', '"']
    } else if c == '\\' {
        seq!['\\', '\\']
    } else if ' ' > c {
        seq!['\\', 'u', '0', '0', hex(c as int / 16), hex(c as int % 16)]
    } else {
        seq![c]
    }
}

/// A text as it stands between double quotes, character by character.
pub open spec fn escaped(text: Seq<char>) -> Seq<char>
    decreases text.len(),
{
    if text.len() == 0 {
        text
    } else {
        escaped(text.drop_last()) + escaped_char(text.last())
    }
}

/// A text written as a double-quoted string.
pub open spec fn written(text: Seq<char>) -> Seq<char> {
    seq!['"'] + escaped(text) + seq!['"']
}

/// `String::push` of std: the character is added at the end.
#[verifier::external_body]
fn push_char(text: &mut String, c: char)
    ensures
        final(text)@ == old(text)@.push(c),
{
    text.push(c)
}

/// The two digits, to the base sixteen, of a control character below the
/// space.
fn control_digits(c: char) -> (digits: (char, char))
    requires
        ' ' > c,
    ensures
        digits.0 == hex(c as int / 16),
        digits.1 == hex(c as int % 16),
{
    if c == '\u{0}' {
        ('0', '0')
    } else if c == '\u{1}' {
        ('0', '1')
    } else if c == '\u{2}' {
        ('0', '2')
    } else if c == '\u{3}' {
        ('0', '3')
    } else if c == '\u{4}' {
        ('0', '4')
    } else if c == '\u{5}' {
        ('0', '5')
    } else if c == '\u{6}' {
        ('0', '6')
    } else if c == '\u{7}' {
        ('0', '7')
    } else if c == '\u{8}' {
        ('0', '8')
    } else if c == '\u{9}' {
        ('0', '9')
    } else if c == '\u{a}' {
        ('0', 'A')
    } else if c == '\u{b}' {
        ('0', 'B')
    } else if c == '\u{c}' {
        ('0', 'C')
    } else if c == '\u{d}' {
        ('0', 'D')
    } else if c == '\u{e}' {
        ('0', 'E')
    } else if c == '\u{f}' {
        ('0', 'F')
    } else if c == '\u{10}' {
        ('1', '0')
    } else if c == '\u{11}' {
        ('1', '1')
    } else if c == '\u{12}' {
        ('1', '2')
    } else if c == '\u{13}' {
        ('1', '3')
    } else if c == '\u{14}' {
        ('1', '4')
    } else if c == '\u{15}' {
        ('1', '5')
    } else if c == '\u{16}' {
        ('1', '6')
    } else if c == '\u{17}' {
        ('1', '7')
    } else if c == '\u{18}' {
        ('1', '8')
    } else if c == '\u{19}' {
        ('1', '9')
    } else if c == '\u{1a}' {
        ('1', 'A')
    } else if c == '\u{1b}' {
        ('1', 'B')
    } else if c == '\u{1c}' {
        ('1', 'C')
    } else if c == '\u{1d}' {
        ('1', 'D')
    } else if c == '\u{1e}' {
        ('1', 'E')
    } else {
        ('1', 'F')
    }
}

/// Writes a text as a double-quoted string. Every text can be written.
pub fn quote(text: &str) -> (quoted: String)
    ensures
        quoted@ == written(text@),
{
    let mut quoted = String::new();
    push_char(&mut quoted, '"');
    for c in it: text.chars()
        invariant
            it.seq() == text@,
            quoted@ == seq!['"'] + escaped(text@.take(it.index())),
    {
        let ghost before = quoted@;
        let ghost i = it.index();
        proof {
            assert(text@.take(i + 1).drop_last() =~= text@.take(i));
            assert(text@.take(i + 1).last() == c);
        }
        if c == '"' {
            push_char(&mut quoted, '\\');
            push_char(&mut quoted, '"');
        } else if c == '\\' {
            push_char(&mut quoted, '\\');
            push_char(&mut quoted, '\\');
        } else if ' ' > c {
            let digits = control_digits(c);
            push_char(&mut quoted, '\\');
            push_char(&mut quoted, 'u');
            push_char(&mut quoted, '0');
            push_char(&mut quoted, '0');
            push_char(&mut quoted, digits.0);
            push_char(&mut quoted, digits.1);
        } else {
            push_char(&mut quoted, c);
        }
        assert(quoted@ =~= before + escaped_char(c));
        assert(quoted@ =~= seq!['"'] + escaped(text@.take(i + 1)));
    }
    assert(text@.take(text@.len() as int) =~= text@);
    push_char(&mut quoted, '"');
    quoted
}

} // verus!
