//! A canvas of characters: lines of equal width that end in a line feed, and
//! the two ways the renderer writes on it.

use vstd::prelude::*;

verus! {

/// The character that writes the digit `d`.
pub open spec fn digit_char(d: nat) -> char {
    if d == 0 {
        '0'
    } else if d == 1 {
        '1'
    } else if d == 2 {
        '2'
    } else if d == 3 {
        '3'
    } else if d == 4 {
        '4'
    } else if d == 5 {
        '5'
    } else if d == 6 {
        '6'
    } else if d == 7 {
        '7'
    } else if d == 8 {
        '8'
    } else {
        '9'
    }
}

/// The number in base ten, without leading zeros; `0` for zero.
pub open spec fn decimal_text(n: nat) -> Seq<char>
    decreases n,
{
    if n < 10 {
        seq![digit_char(n)]
    } else {
        decimal_text(n / 10).push(digit_char(n % 10))
    }
}

/// The character is one that the text of a puzzle is made of: a space, a
/// line feed, a digit, or one of `-`, `|`, `.` and `/`.
pub open spec fn is_glyph(c: char) -> bool {
    c == ' ' || c == '\n' || c == '-' || c == '|' || c == '.' || c == '/' || c == '0' || c == '1'
        || c == '2' || c == '3' || c == '4' || c == '5' || c == '6' || c == '7' || c == '8' || c
        == '9'
}

/// Every character of the text is a glyph.
pub open spec fn all_glyphs(text: Seq<char>) -> bool {
    forall|i: int| 0 <= i < text.len() ==> is_glyph(#[trigger] text[i])
}

/// One line of `width` spaces with its line feed.
pub open spec fn blank_line(width: nat) -> Seq<char> {
    Seq::new(width, |i: int| ' ').push('\n')
}

/// `height` blank lines of `width` spaces each.
pub open spec fn blank_canvas(width: nat, height: nat) -> Seq<char>
    decreases height,
{
    if height == 0 {
        Seq::<char>::empty()
    } else {
        blank_canvas(width, (height - 1) as nat) + blank_line(width)
    }
}

/// The text with the one character at `at` replaced by `s`. Where `s` is
/// longer than one character, what follows it moves to the right.
pub open spec fn put(text: Seq<char>, at: int, s: Seq<char>) -> Seq<char> {
    text.subrange(0, at) + s + text.subrange(at + 1, text.len() as int)
}

/// A number written at `at` the way the labels write it: below ten its one
/// digit; from ten on the text of its tens at `at`, and then its last digit
/// over the character right of `at`.
pub open spec fn put_number(text: Seq<char>, at: int, n: nat) -> Seq<char> {
    if n < 10 {
        put(text, at, decimal_text(n))
    } else {
        put(put(text, at, decimal_text(n / 10)), at + 1, decimal_text(n % 10))
    }
}

/// A number is written with at least one digit.
pub proof fn lemma_decimal_text_nonempty(n: nat)
    ensures
        decimal_text(n).len() >= 1,
    decreases n,
{
    if n >= 10 {
        lemma_decimal_text_nonempty(n / 10);
    }
}

/// A blank canvas has `width + 1` characters for each of its lines.
pub proof fn lemma_blank_canvas_len(width: nat, height: nat)
    ensures
        blank_canvas(width, height).len() == height * (width + 1),
    decreases height,
{
    if height > 0 {
        lemma_blank_canvas_len(width, (height - 1) as nat);
        assert(height * (width + 1) == (height - 1) * (width + 1) + (width + 1))
            by (nonlinear_arith);
    } else {
        assert(0 * (width + 1) == 0) by (nonlinear_arith);
    }
}

/// Writing on a text never makes it shorter.
pub proof fn lemma_put_number_len(text: Seq<char>, at: int, n: nat)
    requires
        0 <= at,
        at + 1 < text.len(),
    ensures
        put_number(text, at, n).len() >= text.len(),
{
    lemma_decimal_text_nonempty(n);
    lemma_decimal_text_nonempty(n / 10);
    lemma_decimal_text_nonempty(n % 10);
}

/// The character of one digit.
fn digit(d: usize) -> (c: char)
    requires
        d < 10,
    ensures
        c == digit_char(d as nat),
{
    if d == 0 {
        '0'
    } else if d == 1 {
        '1'
    } else if d == 2 {
        '2'
    } else if d == 3 {
        '3'
    } else if d == 4 {
        '4'
    } else if d == 5 {
        '5'
    } else if d == 6 {
        '6'
    } else if d == 7 {
        '7'
    } else if d == 8 {
        '8'
    } else {
        '9'
    }
}

/// The number written in base ten.
pub fn decimal(n: usize) -> (text: Vec<char>)
    ensures
        text@ == decimal_text(n as nat),
        all_glyphs(text@),
    decreases n,
{
    if n < 10 {
        let mut text: Vec<char> = Vec::new();
        text.push(digit(n));
        proof {
            assert(text@ =~= decimal_text(n as nat));
        }
        text
    } else {
        let mut text = decimal(n / 10);
        text.push(digit(n % 10));
        text
    }
}

/// A canvas of `height` blank lines of `width` spaces each.
pub fn blank(width: usize, height: usize) -> (canvas: Vec<char>)
    ensures
        canvas@ == blank_canvas(width as nat, height as nat),
        all_glyphs(canvas@),
{
    let mut canvas: Vec<char> = Vec::new();
    let mut y: usize = 0;
    while y < height
        invariant
            0 <= y <= height,
            canvas@ == blank_canvas(width as nat, y as nat),
            all_glyphs(canvas@),
        decreases height - y,
    {
        let ghost above = canvas@;
        let mut x: usize = 0;
        while x < width
            invariant
                0 <= x <= width,
                canvas@ == above + Seq::new(x as nat, |i: int| ' '),
                all_glyphs(canvas@),
            decreases width - x,
        {
            canvas.push(' ');
            proof {
                assert(canvas@ =~= above + Seq::new((x + 1) as nat, |i: int| ' '));
            }
            x = x + 1;
        }
        canvas.push('\n');
        proof {
            assert(canvas@ =~= above + blank_line(width as nat));
        }
        y = y + 1;
    }
    canvas
}

/// Replaces the character at `at` by the characters of `s`.
pub fn stamp(canvas: &mut Vec<char>, at: usize, s: &Vec<char>)
    requires
        at < old(canvas).len(),
        s@.len() >= 1,
    ensures
        final(canvas)@ == put(old(canvas)@, at as int, s@),
        all_glyphs(old(canvas)@) && all_glyphs(s@) ==> all_glyphs(final(canvas)@),
{
    canvas.set(at, s[0]);
    proof {
        assert(canvas@ =~= old(canvas)@.subrange(0, at as int) + s@.take(1) + old(
            canvas,
        )@.subrange(at + 1, old(canvas)@.len() as int));
    }
    let mut k: usize = 1;
    while k < s.len()
        invariant
            1 <= k <= s@.len(),
            at < old(canvas)@.len(),
            canvas@ == old(canvas)@.subrange(0, at as int) + s@.take(k as int) + old(
                canvas,
            )@.subrange(at + 1, old(canvas)@.len() as int),
            all_glyphs(old(canvas)@) && all_glyphs(s@) ==> all_glyphs(canvas@),
        decreases s@.len() - k,
    {
        assert(canvas.len() == canvas@.len());
        canvas.insert(at + k, s[k]);
        proof {
            assert(canvas@ =~= old(canvas)@.subrange(0, at as int) + s@.take(k + 1) + old(
                canvas,
            )@.subrange(at + 1, old(canvas)@.len() as int));
        }
        k = k + 1;
    }
    proof {
        assert(s@.take(k as int) =~= s@);
    }
}

/// Replaces the character at `at` by `c`.
pub fn mark(canvas: &mut Vec<char>, at: usize, c: char)
    requires
        at < old(canvas).len(),
    ensures
        final(canvas)@ == put(old(canvas)@, at as int, seq![c]),
        final(canvas)@.len() == old(canvas)@.len(),
        all_glyphs(old(canvas)@) && is_glyph(c) ==> all_glyphs(final(canvas)@),
{
    canvas.set(at, c);
    proof {
        assert(canvas@ =~= put(old(canvas)@, at as int, seq![c]));
    }
}

/// The glyph as a string of its own.
fn glyph_str(c: char) -> (s: &'static str)
    requires
        is_glyph(c),
    ensures
        s@ == seq![c],
{
    proof {
        reveal_strlit(" ");
        reveal_strlit("\n");
        reveal_strlit("-");
        reveal_strlit("|");
        reveal_strlit(".");
        reveal_strlit("/");
        reveal_strlit("0");
        reveal_strlit("1");
        reveal_strlit("2");
        reveal_strlit("3");
        reveal_strlit("4");
        reveal_strlit("5");
        reveal_strlit("6");
        reveal_strlit("7");
        reveal_strlit("8");
        reveal_strlit("9");
    }
    let s = if c == ' ' {
        " "
    } else if c == '\n' {
        "\n"
    } else if c == '-' {
        "-"
    } else if c == '|' {
        "|"
    } else if c == '.' {
        "."
    } else if c == '/' {
        "/"
    } else if c == '0' {
        "0"
    } else if c == '1' {
        "1"
    } else if c == '2' {
        "2"
    } else if c == '3' {
        "3"
    } else if c == '4' {
        "4"
    } else if c == '5' {
        "5"
    } else if c == '6' {
        "6"
    } else if c == '7' {
        "7"
    } else if c == '8' {
        "8"
    } else {
        "9"
    };
    proof {
        assert(s@ =~= seq![c]);
    }
    s
}

/// The string of the glyphs, in their order.
pub fn string_of(glyphs: &Vec<char>) -> (s: String)
    requires
        all_glyphs(glyphs@),
    ensures
        s@ == glyphs@,
{
    let mut s = String::new();
    let mut i: usize = 0;
    while i < glyphs.len()
        invariant
            0 <= i <= glyphs@.len(),
            all_glyphs(glyphs@),
            s@ == glyphs@.take(i as int),
        decreases glyphs@.len() - i,
    {
        s.append(glyph_str(glyphs[i]));
        proof {
            assert(s@ =~= glyphs@.take(i + 1));
        }
        i = i + 1;
    }
    proof {
        assert(glyphs@.take(i as int) =~= glyphs@);
    }
    s
}

/// Writes a clue number at `at` the way the labels write it.
pub fn stamp_number(canvas: &mut Vec<char>, at: usize, clue: usize)
    requires
        at + 1 < old(canvas).len(),
    ensures
        final(canvas)@ == put_number(old(canvas)@, at as int, clue as nat),
        final(canvas)@.len() >= old(canvas)@.len(),
        all_glyphs(old(canvas)@) ==> all_glyphs(final(canvas)@),
{
    proof {
        lemma_put_number_len(canvas@, at as int, clue as nat);
        lemma_decimal_text_nonempty(clue as nat);
        lemma_decimal_text_nonempty((clue / 10) as nat);
        lemma_decimal_text_nonempty((clue % 10) as nat);
    }
    if clue < 10 {
        let text = decimal(clue);
        stamp(canvas, at, &text);
    } else {
        let tens = decimal(clue / 10);
        stamp(canvas, at, &tens);
        let ones = decimal(clue % 10);
        stamp(canvas, at + 1, &ones);
    }
}

} // verus!
