//! Colored text for terminals.

use vstd::prelude::*;

use crate::text;

verus! {

/// A color: red, green and blue.
pub type Shade = (u8, u8, u8);

/// One character in a color.
pub open spec fn colored_char(shade: Shade, c: char) -> Seq<char> {
    ("\x1b[38;2;"@ + text::decimal(shade.0 as nat) + ";"@ + text::decimal(shade.1 as nat) + ";"@
        + text::decimal(shade.2 as nat) + "m"@).push(c)
}

/// The first `n` characters, each in its color.
pub open spec fn colored_chars(chars: Seq<char>, shades: Seq<Shade>, n: nat) -> Seq<char>
    decreases n,
{
    if n == 0 {
        Seq::empty()
    } else {
        colored_chars(chars, shades, (n - 1) as nat) + colored_char(shades[n - 1], chars[n - 1])
    }
}

/// A text in bold, each character in its color, on a terminal; elsewhere just the
/// text.
pub open spec fn colorized(chars: Seq<char>, is_tty: bool, shades: Seq<Shade>) -> Seq<char> {
    if is_tty {
        "\x1b[1m"@ + colored_chars(chars, shades, chars.len()) + "\x1b[0m"@
    } else {
        chars
    }
}

fn colored(shade: Shade, c: char) -> (r: String)
    ensures
        r@ == colored_char(shade, c),
{
    let red: String = text::usize_text(shade.0 as usize);
    let green: String = text::usize_text(shade.1 as usize);
    let blue: String = text::usize_text(shade.2 as usize);
    let head: String = text::join3("\x1b[38;2;", red.as_str(), ";");
    let head: String = text::join3(head.as_str(), green.as_str(), ";");
    let mut out: String = text::join3(head.as_str(), blue.as_str(), "m");
    out.push(c);
    out
}

/// Puts a text in bold, with a color for each character, where it goes to a
/// terminal.
pub fn colorize(name: &str, is_tty: bool, shades: &Vec<Shade>) -> (r: String)
    requires
        is_tty ==> shades@.len() == name@.len(),
    ensures
        r@ == colorized(name@, is_tty, shades@),
{
    if !is_tty {
        return name.to_owned();
    }
    let chars: Vec<char> = text::chars_of(name);
    let mut body: String = "".to_owned();
    let mut i: usize = 0;
    proof {
        reveal_strlit("");
        assert(body@ =~= colored_chars(chars@, shades@, 0));
    }
    while i < chars.len()
        invariant
            0 <= i <= chars@.len(),
            shades@.len() == chars@.len(),
            body@ == colored_chars(chars@, shades@, i as nat),
        decreases chars@.len() - i,
    {
        let c: String = colored(shades[i], chars[i]);
        body = text::join2(body.as_str(), c.as_str());
        i += 1;
    }
    text::join3("\x1b[1m", body.as_str(), "\x1b[0m")
}

/// The name of the program, colored where standard output is a terminal.
pub fn hr(is_tty: bool, shades: &Vec<Shade>) -> (r: String)
    requires
        is_tty ==> shades@.len() == "hypr-recall"@.len(),
    ensures
        r@ == colorized("hypr-recall"@, is_tty, shades@),
{
    colorize("hypr-recall", is_tty, shades)
}

/// The name of the program, colored where standard error is a terminal.
pub fn hr_err(is_tty: bool, shades: &Vec<Shade>) -> (r: String)
    requires
        is_tty ==> shades@.len() == "hypr-recall"@.len(),
    ensures
        r@ == colorized("hypr-recall"@, is_tty, shades@),
{
    colorize("hypr-recall", is_tty, shades)
}

/// A text, colored where standard output is a terminal.
pub fn gradient(name: &str, is_tty: bool, shades: &Vec<Shade>) -> (r: String)
    requires
        is_tty ==> shades@.len() == name@.len(),
    ensures
        r@ == colorized(name@, is_tty, shades@),
{
    colorize(name, is_tty, shades)
}

/// The version number, in the color that the name of the program ends in where
/// standard output is a terminal.
pub fn version(number: &str, is_tty: bool) -> (r: String)
    ensures
        r@ == (if is_tty {
            "\x1b[1m\x1b[38;2;168;85;247m"@ + number@ + "\x1b[0m"@
        } else {
            number@
        }),
{
    if !is_tty {
        return number.to_owned();
    }
    text::join3("\x1b[1m\x1b[38;2;168;85;247m", number, "\x1b[0m")
}

/// What does not go to a terminal has no escape sequences put into it.
pub proof fn law_plain_output_is_plain(chars: Seq<char>, shades: Seq<Shade>)
    ensures
        colorized(chars, false, shades) == chars,
{
}

/// On a terminal each character follows the escape sequence of its own color, in the
/// order of the text, and a character more adds one at the end.
pub proof fn law_characters_have_their_own_color(
    chars: Seq<char>,
    c: char,
    shades: Seq<Shade>,
    shade: Shade,
)
    requires
        shades.len() == chars.len(),
    ensures
        colored_char(shade, c).last() == c,
        colored_char(shade, c).drop_last() == "\x1b[38;2;"@ + text::decimal(shade.0 as nat) + ";"@
            + text::decimal(shade.1 as nat) + ";"@ + text::decimal(shade.2 as nat) + "m"@,
        colored_chars(chars.push(c), shades.push(shade), chars.len() + 1) == colored_chars(
            chars,
            shades,
            chars.len(),
        ) + colored_char(shade, c),
        text::begins(colorized(chars, true, shades), "\x1b[1m"@),
        text::ends(colorized(chars, true, shades), "\x1b[0m"@),
        colorized(Seq::empty(), true, Seq::empty()) == "\x1b[1m"@ + "\x1b[0m"@,
{
    let n = chars.len();
    lemma_colored_front(chars, c, shades, shade, n);
    let head = "\x1b[38;2;"@ + text::decimal(shade.0 as nat) + ";"@ + text::decimal(shade.1 as nat)
        + ";"@ + text::decimal(shade.2 as nat) + "m"@;
    assert(head.push(c).drop_last() =~= head);
    let body = colored_chars(chars, shades, n);
    assert(colorized(chars, true, shades) =~= "\x1b[1m"@ + (body + "\x1b[0m"@));
    assert(colorized(chars, true, shades) =~= ("\x1b[1m"@ + body) + "\x1b[0m"@);
    assert(colorized(Seq::empty(), true, Seq::empty()) =~= "\x1b[1m"@ + "\x1b[0m"@);
}

proof fn lemma_colored_front(
    chars: Seq<char>,
    c: char,
    shades: Seq<Shade>,
    shade: Shade,
    n: nat,
)
    requires
        shades.len() == chars.len(),
        n <= chars.len(),
    ensures
        colored_chars(chars.push(c), shades.push(shade), n) == colored_chars(chars, shades, n),
    decreases n,
{
    if n > 0 {
        lemma_colored_front(chars, c, shades, shade, (n - 1) as nat);
    }
}

/// The name of the program is colored alike on both outputs, and the version number is
/// kept as it is in between its escape sequences.
pub proof fn law_names_and_numbers_are_kept(
    number: &str,
    is_tty: bool,
    shades: &Vec<Shade>,
    out: String,
    err: String,
    shown: String,
)
    requires
        call_ensures(hr, (is_tty, shades), out),
        call_ensures(hr_err, (is_tty, shades), err),
        call_ensures(version, (number, is_tty), shown),
    ensures
        out@ == err@,
        !is_tty ==> out@ == "hypr-recall"@ && shown@ == number@,
        is_tty ==> text::begins(out@, "\x1b[1m"@) && text::ends(out@, "\x1b[0m"@),
        is_tty ==> shown@ == "\x1b[1m\x1b[38;2;168;85;247m"@ + number@ + "\x1b[0m"@,
{
    let body = colored_chars("hypr-recall"@, shades@, "hypr-recall"@.len());
    if is_tty {
        assert(out@ =~= "\x1b[1m"@ + (body + "\x1b[0m"@));
        assert(out@ =~= ("\x1b[1m"@ + body) + "\x1b[0m"@);
    }
}

} // verus!
