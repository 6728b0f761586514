//! Text primitives that the rest of the crate is written with.
//!
//! Text is modelled as the sequence of its characters. Everything here is a
//! function of that sequence alone.

use vstd::prelude::*;
use vstd::string::*;

verus! {

/// `String::push` appends one character to the end of the string.
pub assume_specification[ String::push ](s: &mut String, c: char)
    ensures
        final(s)@ == old(s)@.push(c),
;

/// The characters of `s`, in order.
pub fn chars_of(s: &str) -> (r: Vec<char>)
    ensures
        r@ == s@,
{
    let mut out: Vec<char> = Vec::new();
    for c in it: s.chars()
        invariant
            out@ == it.seq().take(it.index() as int),
            it.seq() == s@,
    {
        out.push(c);
        assert(out@ =~= it.seq().take(it.index() as int + 1));
    }
    assert(s@.take(s@.len() as int) =~= s@);
    out
}

/// The string whose characters are `chars[from..to]`.
pub fn string_of(chars: &Vec<char>, from: usize, to: usize) -> (r: String)
    requires
        from <= to <= chars@.len(),
    ensures
        r@ == chars@.subrange(from as int, to as int),
{
    let mut out: String = String::new();
    let mut i: usize = from;
    while i < to
        invariant
            from <= i <= to <= chars@.len(),
            out@ == chars@.subrange(from as int, i as int),
        decreases to - i,
    {
        out.push(chars[i]);
        i += 1;
        assert(out@ =~= chars@.subrange(from as int, i as int));
    }
    out
}

/// Whether two strings hold the same characters.
pub fn same(a: &str, b: &str) -> (r: bool)
    ensures
        r == (a@ == b@),
{
    a.to_owned() == b.to_owned()
}

/// A fresh string that holds `a` followed by `b`.
pub fn join2(a: &str, b: &str) -> (r: String)
    ensures
        r@ == a@ + b@,
{
    let mut s: String = a.to_owned();
    s.append(b);
    s
}

/// A fresh string that holds `a`, `b` and `c` in turn.
pub fn join3(a: &str, b: &str, c: &str) -> (r: String)
    ensures
        r@ == a@ + b@ + c@,
{
    let mut s: String = join2(a, b);
    s.append(c);
    s
}

/// The texts of a sequence of strings.
pub open spec fn texts(v: Seq<String>) -> Seq<Seq<char>> {
    v.map_values(|s: String| s@)
}

/// Whether one of `items` is `wanted`.
pub fn contains(items: &[String], wanted: &str) -> (r: bool)
    ensures
        r == texts(items@).contains(wanted@),
{
    let mut i: usize = 0;
    while i < items.len()
        invariant
            0 <= i <= items@.len(),
            forall|j: int| 0 <= j < i ==> texts(items@)[j] != wanted@,
        decreases items@.len() - i,
    {
        if same(items[i].as_str(), wanted) {
            assert(texts(items@)[i as int] == wanted@);
            return true;
        }
        i += 1;
    }
    false
}

/// `parts` joined with `sep` between each two of them.
pub open spec fn joined(parts: Seq<Seq<char>>, sep: Seq<char>) -> Seq<char>
    decreases parts.len(),
{
    if parts.len() == 0 {
        Seq::empty()
    } else if parts.len() == 1 {
        parts[0]
    } else {
        joined(parts.drop_last(), sep) + sep + parts.last()
    }
}

/// Joins `parts` with `sep` between each two of them.
pub fn join(parts: &Vec<String>, sep: &str) -> (r: String)
    ensures
        r@ == joined(texts(parts@), sep@),
{
    let ghost all = texts(parts@);
    let mut out: String = String::new();
    let mut i: usize = 0;
    while i < parts.len()
        invariant
            0 <= i <= parts@.len(),
            all == texts(parts@),
            out@ == joined(all.take(i as int), sep@),
        decreases parts@.len() - i,
    {
        proof {
            assert(all.take(i as int + 1).drop_last() =~= all.take(i as int));
            assert(all.take(i as int + 1).last() == parts@[i as int]@);
        }
        if i > 0 {
            out.append(sep);
        }
        out.append(parts[i].as_str());
        assert(out@ =~= joined(all.take(i as int + 1), sep@));
        i += 1;
    }
    assert(all.take(all.len() as int) =~= all);
    out
}

/// `s` cut at every `sep`: the parts between them, in order.
pub open spec fn split(s: Seq<char>, sep: char) -> Seq<Seq<char>>
    decreases s.len(),
{
    if s.len() == 0 {
        seq![Seq::empty()]
    } else {
        let front = split(s.drop_last(), sep);
        if s.last() == sep {
            front.push(Seq::empty())
        } else {
            front.drop_last().push(front.last().push(s.last()))
        }
    }
}

/// Cuts `s` at every `sep`.
pub fn split_on(s: &str, sep: char) -> (r: Vec<String>)
    ensures
        texts(r@) == split(s@, sep),
{
    let chars: Vec<char> = chars_of(s);
    let mut done: Vec<String> = Vec::new();
    let mut cur: String = String::new();
    let mut i: usize = 0;
    assert(s@.take(0) =~= Seq::<char>::empty());
    assert(texts(done@).push(cur@) =~= split(s@.take(0), sep));
    while i < chars.len()
        invariant
            chars@ == s@,
            0 <= i <= chars@.len(),
            texts(done@).push(cur@) == split(s@.take(i as int), sep),
        decreases chars@.len() - i,
    {
        let ghost before = texts(done@);
        let ghost part = cur@;
        let c: char = chars[i];
        proof {
            let upto = s@.take(i as int + 1);
            assert(upto.drop_last() =~= s@.take(i as int));
            assert(upto.last() == c);
            assert(before.push(part).drop_last() =~= before);
        }
        if c == sep {
            done.push(cur);
            cur = String::new();
            assert(texts(done@) =~= before.push(part));
        } else {
            cur.push(c);
        }
        i += 1;
    }
    assert(s@.take(s@.len() as int) =~= s@);
    let ghost before = texts(done@);
    let ghost part = cur@;
    done.push(cur);
    assert(texts(done@) =~= before.push(part));
    done
}

/// Cutting at a separator loses nothing, and leaves no separator in the parts.
pub proof fn law_split_then_join(s: Seq<char>, sep: char)
    ensures
        split(s, sep).len() > 0,
        joined(split(s, sep), seq![sep]) == s,
        forall|i: int| 0 <= i < split(s, sep).len() ==> !(#[trigger] split(s, sep)[i]).contains(sep),
    decreases s.len(),
{
    if s.len() > 0 {
        let front = split(s.drop_last(), sep);
        law_split_then_join(s.drop_last(), sep);
        assert(s =~= s.drop_last().push(s.last()));
        if s.last() == sep {
            assert(split(s, sep).drop_last() =~= front);
            assert(joined(split(s, sep), seq![sep]) =~= s);
        } else {
            let last = front.last().push(s.last());
            assert(split(s, sep).drop_last() =~= front.drop_last());
            assert(joined(split(s, sep), seq![sep]) =~= joined(front, seq![sep]).push(s.last()));
            assert forall|j: int| 0 <= j < last.len() implies last[j] != sep by {
                if j < front.last().len() {
                    assert(front.last().contains(front.last()[j]));
                }
            }
        }
    } else {
        assert(joined(split(s, sep), seq![sep]) =~= s);
    }
}

/// Cutting two texts with a separator between them gives the parts of the one
/// and then those of the other.
pub proof fn law_split_around_separator(a: Seq<char>, b: Seq<char>, sep: char)
    ensures
        split(a + seq![sep] + b, sep) == split(a, sep) + split(b, sep),
    decreases b.len(),
{
    let whole = a + seq![sep] + b;
    if b.len() == 0 {
        assert(whole.drop_last() =~= a);
        assert(split(whole, sep) =~= split(a, sep) + split(b, sep));
    } else {
        law_split_around_separator(a, b.drop_last(), sep);
        law_split_then_join(b.drop_last(), sep);
        assert(whole.drop_last() =~= a + seq![sep] + b.drop_last());
        assert(whole.last() == b.last());
        let (x, y) = (split(a, sep), split(b.drop_last(), sep));
        assert((x + y).last() == y.last());
        assert(split(whole, sep) =~= x + split(b, sep));
    }
}

/// A text without the separator is its only part.
pub proof fn law_split_without_separator(s: Seq<char>, sep: char)
    requires
        !s.contains(sep),
    ensures
        split(s, sep) == seq![s],
    decreases s.len(),
{
    if s.len() > 0 {
        let front = s.drop_last();
        assert(s.contains(s.last()));
        assert(!front.contains(sep)) by {
            if front.contains(sep) {
                let i = choose|i: int| 0 <= i < front.len() && front[i] == sep;
                assert(s[i] == sep);
            }
        }
        law_split_without_separator(front, sep);
        assert(front.push(s.last()) =~= s);
        assert(split(s, sep) =~= seq![s]);
    } else {
        assert(s =~= Seq::<char>::empty());
    }
}

/// The ending of a word for `n` things.
pub open spec fn plural(n: nat) -> Seq<char> {
    if n == 1 {
        ""@
    } else {
        "s"@
    }
}

/// The ending of a word for `n` things.
pub fn plural_ending(n: usize) -> (r: String)
    ensures
        r@ == plural(n as nat),
{
    if n == 1 {
        "".to_owned()
    } else {
        "s".to_owned()
    }
}

/// `s` followed by as many spaces as bring it to `width` characters, or `s`
/// itself where it is that long already.
pub open spec fn padded(s: Seq<char>, width: nat) -> Seq<char> {
    if s.len() < width {
        s + Seq::new((width - s.len()) as nat, |i: int| ' ')
    } else {
        s
    }
}

/// Pads `s` on the right with spaces to at least `width` characters.
pub fn pad_right(s: &str, width: usize) -> (r: String)
    ensures
        r@ == padded(s@, width as nat),
{
    let mut out: String = s.to_owned();
    let mut n: usize = s.unicode_len();
    while n < width
        invariant
            n == out@.len(),
            n <= width || out@ == s@,
            s@.len() <= n,
            out@ =~= s@ + Seq::new((n - s@.len()) as nat, |i: int| ' '),
        decreases width - n,
    {
        out.push(' ');
        n += 1;
    }
    out
}

// ---------------------------------------------------------------- white space

/// The characters with the Unicode property `White_Space`.
pub open spec fn is_space(c: char) -> bool {
    ||| '\u{9}' <= c <= '\u{d}'
    ||| c == ' '
    ||| c == '\u{85}'
    ||| c == '\u{a0}'
    ||| c == '\u{1680}'
    ||| '\u{2000}' <= c <= '\u{200a}'
    ||| c == '\u{2028}'
    ||| c == '\u{2029}'
    ||| c == '\u{202f}'
    ||| c == '\u{205f}'
    ||| c == '\u{3000}'
}

/// Whether `c` is white space.
pub fn is_whitespace(c: char) -> (r: bool)
    ensures
        r == is_space(c),
{
    ('\u{9}' <= c && c <= '\u{d}') || c == ' ' || c == '\u{85}' || c == '\u{a0}' || c == '\u{1680}'
        || ('\u{2000}' <= c && c <= '\u{200a}') || c == '\u{2028}' || c == '\u{2029}' || c
        == '\u{202f}' || c == '\u{205f}' || c == '\u{3000}'
}

/// `s` without the white space that it starts with.
pub open spec fn trimmed_start(s: Seq<char>) -> Seq<char>
    decreases s.len(),
{
    if s.len() > 0 && is_space(s[0]) {
        trimmed_start(s.drop_first())
    } else {
        s
    }
}

/// `s` without the white space that it ends with.
pub open spec fn trimmed_end(s: Seq<char>) -> Seq<char>
    decreases s.len(),
{
    if s.len() > 0 && is_space(s.last()) {
        trimmed_end(s.drop_last())
    } else {
        s
    }
}

/// `s` without the white space around it.
pub open spec fn trimmed(s: Seq<char>) -> Seq<char> {
    trimmed_end(trimmed_start(s))
}

/// Removes the white space around `s`.
pub fn trim(s: &str) -> (r: String)
    ensures
        r@ == trimmed(s@),
{
    let chars: Vec<char> = chars_of(s);
    let mut lo: usize = 0;
    assert(s@.skip(0) =~= s@);
    while lo < chars.len() && is_whitespace(chars[lo])
        invariant
            chars@ == s@,
            0 <= lo <= chars@.len(),
            trimmed_start(s@) == trimmed_start(s@.skip(lo as int)),
        decreases chars@.len() - lo,
    {
        assert(s@.skip(lo as int).drop_first() =~= s@.skip(lo as int + 1));
        lo += 1;
    }
    let ghost body = s@.skip(lo as int);
    assert(trimmed_start(s@) == body);
    let mut hi: usize = chars.len();
    assert(s@.subrange(lo as int, hi as int) =~= body);
    while lo < hi && is_whitespace(chars[hi - 1])
        invariant
            chars@ == s@,
            0 <= lo <= hi <= chars@.len(),
            trimmed_end(body) == trimmed_end(s@.subrange(lo as int, hi as int)),
        decreases hi,
    {
        let ghost cur = s@.subrange(lo as int, hi as int);
        assert(cur.last() == s@[hi as int - 1]);
        assert(cur.drop_last() =~= s@.subrange(lo as int, hi as int - 1));
        hi -= 1;
    }
    assert(lo < hi ==> s@.subrange(lo as int, hi as int).last() == s@[hi as int - 1]);
    string_of(&chars, lo, hi)
}

// ---------------------------------------------------------- prefixes, suffixes

/// Whether `chars` holds `part` at position `at`.
pub open spec fn holds_at(chars: Seq<char>, part: Seq<char>, at: int) -> bool {
    &&& 0 <= at
    &&& at + part.len() <= chars.len()
    &&& chars.subrange(at, at + part.len()) == part
}

/// Whether `chars` holds `part` at position `at`.
pub fn has_at(chars: &Vec<char>, part: &Vec<char>, at: usize) -> (r: bool)
    ensures
        r == holds_at(chars@, part@, at as int),
{
    let total: usize = chars.len();
    if at > total || total - at < part.len() {
        return false;
    }
    let mut i: usize = 0;
    while i < part.len()
        invariant
            0 <= i <= part@.len(),
            total == chars@.len(),
            at + part@.len() <= total,
            forall|j: int| 0 <= j < i ==> chars@[at + j] == part@[j],
        decreases part@.len() - i,
    {
        if chars[at + i] != part[i] {
            assert(chars@.subrange(at as int, at + part@.len())[i as int] != part@[i as int]);
            return false;
        }
        i += 1;
    }
    assert(chars@.subrange(at as int, at + part@.len()) =~= part@);
    true
}

/// What follows `prefix` in `s`, where `s` starts with it.
pub open spec fn after_prefix(s: Seq<char>, prefix: Seq<char>) -> Option<Seq<char>> {
    if holds_at(s, prefix, 0) {
        Some(s.skip(prefix.len() as int))
    } else {
        None
    }
}

/// The text of an optional string.
pub open spec fn opt_text(s: Option<String>) -> Option<Seq<char>> {
    match s {
        Some(t) => Some(t@),
        None => None,
    }
}

/// What follows `prefix` in `s`, where `s` starts with it.
pub fn strip_prefix(s: &str, prefix: &str) -> (r: Option<String>)
    ensures
        opt_text(r) == after_prefix(s@, prefix@),
{
    let chars: Vec<char> = chars_of(s);
    let part: Vec<char> = chars_of(prefix);
    if has_at(&chars, &part, 0) {
        assert(s@.subrange(prefix@.len() as int, s@.len() as int) =~= s@.skip(
            prefix@.len() as int,
        ));
        Some(string_of(&chars, part.len(), chars.len()))
    } else {
        None
    }
}

/// `s` with every copy of `suffix` that it ends with removed.
pub open spec fn without_suffixes(s: Seq<char>, suffix: Seq<char>) -> Seq<char>
    decreases s.len(),
{
    if suffix.len() > 0 && holds_at(s, suffix, s.len() - suffix.len()) {
        without_suffixes(s.take(s.len() - suffix.len()), suffix)
    } else {
        s
    }
}

/// Removes every copy of `suffix` that `s` ends with.
pub fn trim_end_matches(s: &str, suffix: &str) -> (r: String)
    ensures
        r@ == without_suffixes(s@, suffix@),
{
    let mut chars: Vec<char> = chars_of(s);
    let part: Vec<char> = chars_of(suffix);
    let n: usize = part.len();
    while n > 0 && chars.len() >= n && has_at(&chars, &part, chars.len() - n)
        invariant
            part@ == suffix@,
            n == part@.len(),
            without_suffixes(s@, suffix@) == without_suffixes(chars@, suffix@),
        decreases chars@.len(),
    {
        let keep: usize = chars.len() - n;
        assert(chars@.take(keep as int) =~= chars@.subrange(0, keep as int));
        chars.truncate(keep);
    }
    assert(chars@.subrange(0, chars@.len() as int) =~= chars@);
    string_of(&chars, 0, chars.len())
}

// ------------------------------------------------------------------ letter case

/// `c` with `A` to `Z` mapped to `a` to `z`.
pub open spec fn ascii_lower(c: char) -> char {
    if 'A' <= c <= 'Z' {
        (c as int + 32) as char
    } else {
        c
    }
}

/// `s` with `A` to `Z` mapped to `a` to `z`.
pub open spec fn ascii_lowered(s: Seq<char>) -> Seq<char> {
    s.map_values(|c: char| ascii_lower(c))
}

/// Maps `A` to `Z` to `a` to `z` and leaves other characters alone.
pub fn to_ascii_lower(c: char) -> (r: char)
    ensures
        r == ascii_lower(c),
{
    if 'A' <= c && c <= 'Z' {
        ((c as u8) + 32) as char
    } else {
        c
    }
}

/// Whether `a` and `b` differ at most in the case of ASCII letters.
pub fn eq_ignore_ascii_case(a: &str, b: &str) -> (r: bool)
    ensures
        r == (ascii_lowered(a@) == ascii_lowered(b@)),
{
    let x: Vec<char> = chars_of(a);
    let y: Vec<char> = chars_of(b);
    if x.len() != y.len() {
        assert(ascii_lowered(a@).len() != ascii_lowered(b@).len());
        return false;
    }
    let mut i: usize = 0;
    while i < x.len()
        invariant
            x@ == a@,
            y@ == b@,
            x@.len() == y@.len(),
            0 <= i <= x@.len(),
            forall|j: int| 0 <= j < i ==> ascii_lower(x@[j]) == ascii_lower(y@[j]),
        decreases x@.len() - i,
    {
        if to_ascii_lower(x[i]) != to_ascii_lower(y[i]) {
            assert(ascii_lowered(a@)[i as int] != ascii_lowered(b@)[i as int]);
            return false;
        }
        i += 1;
    }
    assert(ascii_lowered(a@) =~= ascii_lowered(b@));
    true
}

// ---------------------------------------------------------------------- numbers

/// The character for the decimal digit `d`.
pub open spec fn digit(d: int) -> char {
    (48 + d) as char
}

/// `n` written in decimal, without leading zeros.
pub open spec fn decimal(n: nat) -> Seq<char>
    decreases n,
{
    if n < 10 {
        seq![digit(n as int)]
    } else {
        decimal(n / 10).push(digit((n % 10) as int))
    }
}

/// `n` written in decimal, with a minus sign where it is negative.
pub open spec fn signed_decimal(n: int) -> Seq<char> {
    if n < 0 {
        seq!['-'] + decimal((-n) as nat)
    } else {
        decimal(n as nat)
    }
}

/// Writes `n` in decimal.
pub fn u64_text(n: u64) -> (r: String)
    ensures
        r@ == decimal(n as nat),
    decreases n,
{
    let mut s: String = if n < 10 {
        String::new()
    } else {
        u64_text(n / 10)
    };
    s.push((48u8 + (n % 10) as u8) as char);
    assert(n < 10 ==> s@ =~= decimal(n as nat));
    s
}

/// Writes `n` in decimal.
pub fn usize_text(n: usize) -> (r: String)
    ensures
        r@ == decimal(n as nat),
{
    u64_text(n as u64)
}

/// Writes `n` in decimal.
pub fn i32_text(n: i32) -> (r: String)
    ensures
        r@ == signed_decimal(n as int),
{
    if n < 0 {
        let mut s: String = String::new();
        s.push('-');
        let m: i64 = -(n as i64);
        let t: String = u64_text(m as u64);
        s.append(t.as_str());
        assert(s@ =~= signed_decimal(n as int));
        s
    } else {
        u64_text(n as u64)
    }
}

/// Whether every character of `s` is a decimal digit.
pub open spec fn all_digits(s: Seq<char>) -> bool {
    forall|i: int| 0 <= i < s.len() ==> '0' <= #[trigger] s[i] <= '9'
}

/// The number that a sequence of decimal digits denotes.
pub open spec fn digits_value(s: Seq<char>) -> nat
    decreases s.len(),
{
    if s.len() == 0 {
        0
    } else {
        (digits_value(s.drop_last()) * 10 + (s.last() as int - 48)) as nat
    }
}

/// The number that `s` denotes: decimal digits, at least one of them, behind an
/// optional plus sign, with a value that fits in 32 bits.
pub open spec fn u32_of(s: Seq<char>) -> Option<u32> {
    let digits = if s.len() > 0 && s[0] == '+' {
        s.drop_first()
    } else {
        s
    };
    if digits.len() > 0 && all_digits(digits) && digits_value(digits) <= u32::MAX {
        Some(digits_value(digits) as u32)
    } else {
        None
    }
}

proof fn lemma_digits_value_grows(s: Seq<char>, n: int)
    requires
        0 <= n <= s.len(),
        all_digits(s),
    ensures
        digits_value(s.take(n)) <= digits_value(s),
    decreases s.len() - n,
{
    if n < s.len() {
        lemma_digits_value_grows(s, n + 1);
        assert(s.take(n + 1).drop_last() =~= s.take(n));
        assert(s.take(n + 1).last() == s[n]);
    } else {
        assert(s.take(n) =~= s);
    }
}

/// Reads a decimal number that fits in 32 bits.
pub fn parse_u32(s: &str) -> (r: Option<u32>)
    ensures
        r == u32_of(s@),
{
    let chars: Vec<char> = chars_of(s);
    let start: usize = if chars.len() > 0 && chars[0] == '+' {
        1
    } else {
        0
    };
    if start == chars.len() {
        return None;
    }
    let ghost digits = s@.skip(start as int);
    proof {
        assert(start == 1 ==> digits =~= s@.drop_first());
        assert(start == 0 ==> digits =~= s@);
        assert(digits.take(0) =~= Seq::<char>::empty());
    }
    let mut value: u64 = 0;
    let mut i: usize = start;
    while i < chars.len()
        invariant
            chars@ == s@,
            start <= i <= chars@.len(),
            digits == s@.skip(start as int),
            digits.len() == s@.len() - start,
            digits == (if s@.len() > 0 && s@[0] == '+' {
                s@.drop_first()
            } else {
                s@
            }),
            forall|j: int| 0 <= j < i - start ==> '0' <= #[trigger] digits[j] <= '9',
            value == digits_value(digits.take(i - start)),
            value <= u32::MAX,
        decreases chars@.len() - i,
    {
        let c: char = chars[i];
        assert(c == digits[i - start]);
        if !('0' <= c && c <= '9') {
            assert(!all_digits(digits));
            return None;
        }
        let next: u64 = value * 10 + ((c as u8) - 48) as u64;
        proof {
            let upto = digits.take(i - start + 1);
            assert(upto.drop_last() =~= digits.take(i - start));
            assert(upto.last() == c);
            assert(next == digits_value(upto));
        }
        if next > u32::MAX as u64 {
            proof {
                if all_digits(digits) {
                    lemma_digits_value_grows(digits, i - start + 1);
                }
            }
            return None;
        }
        value = next;
        i += 1;
    }
    assert(digits.take(digits.len() as int) =~= digits);
    Some(value as u32)
}

/// Writing a number in decimal gives digits alone, and reading them gives the
/// number back.
pub proof fn law_decimal_reads_back(n: nat)
    ensures
        decimal(n).len() > 0,
        all_digits(decimal(n)),
        digits_value(decimal(n)) == n,
        n <= u32::MAX ==> u32_of(decimal(n)) == Some(n as u32),
    decreases n,
{
    reveal_with_fuel(digits_value, 2);
    if n < 10 {
        assert(decimal(n).drop_last() =~= Seq::<char>::empty());
        assert(decimal(n).last() as int == 48 + n);
    } else {
        law_decimal_reads_back(n / 10);
        assert(decimal(n).drop_last() =~= decimal(n / 10));
        assert(decimal(n).last() as int == 48 + n % 10);
    }
    assert(decimal(n)[0] != '+');
}

/// Whether a text begins with another.
pub open spec fn begins(s: Seq<char>, prefix: Seq<char>) -> bool {
    exists|rest: Seq<char>| s == #[trigger] (prefix + rest)
}

/// Whether a text ends with another.
pub open spec fn ends(s: Seq<char>, suffix: Seq<char>) -> bool {
    exists|rest: Seq<char>| s == #[trigger] (rest + suffix)
}

/// Whether a text holds white space and nothing else.
pub open spec fn is_blank(s: Seq<char>) -> bool {
    forall|i: int| 0 <= i < s.len() ==> is_space(#[trigger] s[i])
}

proof fn lemma_trimmed_start(s: Seq<char>) -> (a: Seq<char>)
    ensures
        s == a + trimmed_start(s),
        is_blank(a),
        trimmed_start(s).len() > 0 ==> !is_space(trimmed_start(s)[0]),
    decreases s.len(),
{
    if s.len() > 0 && is_space(s[0]) {
        let rest = lemma_trimmed_start(s.drop_first());
        let a = seq![s[0]] + rest;
        assert(s =~= seq![s[0]] + s.drop_first());
        assert(s =~= a + trimmed_start(s));
        assert forall|i: int| 0 <= i < a.len() implies is_space(#[trigger] a[i]) by {
            if i > 0 {
                assert(a[i] == rest[i - 1]);
            }
        }
        a
    } else {
        assert(s =~= Seq::<char>::empty() + s);
        Seq::empty()
    }
}

proof fn lemma_trimmed_end(s: Seq<char>) -> (b: Seq<char>)
    ensures
        s == trimmed_end(s) + b,
        is_blank(b),
        trimmed_end(s).len() > 0 ==> !is_space(trimmed_end(s).last()),
    decreases s.len(),
{
    if s.len() > 0 && is_space(s.last()) {
        let rest = lemma_trimmed_end(s.drop_last());
        let b = rest.push(s.last());
        assert(s =~= s.drop_last().push(s.last()));
        assert(s =~= trimmed_end(s) + b);
        b
    } else {
        assert(s =~= s + Seq::<char>::empty());
        Seq::empty()
    }
}

/// Trimming takes white space off both ends, all of it, and nothing else.
pub proof fn law_trimming_takes_blanks_only(s: Seq<char>) -> (r: (Seq<char>, Seq<char>))
    ensures
        s == r.0 + trimmed(s) + r.1,
        is_blank(r.0),
        is_blank(r.1),
        trimmed(s).len() > 0 ==> !is_space(trimmed(s)[0]) && !is_space(trimmed(s).last()),
{
    let a = lemma_trimmed_start(s);
    let t = trimmed_start(s);
    let b = lemma_trimmed_end(t);
    assert(s =~= a + trimmed(s) + b);
    if trimmed(s).len() > 0 {
        assert(trimmed(s)[0] == t[0]);
    }
    (a, b)
}

/// A text without white space at its ends is trimmed already.
pub proof fn law_trimmed_text_stays(s: Seq<char>)
    requires
        s.len() > 0 ==> !is_space(s[0]) && !is_space(s.last()),
    ensures
        trimmed(s) == s,
{
}

/// Joining puts the separator between neighbours and nowhere else.
pub proof fn law_joining_separates_neighbours(
    parts: Seq<Seq<char>>,
    part: Seq<char>,
    sep: Seq<char>,
)
    ensures
        joined(Seq::empty(), sep) == Seq::<char>::empty(),
        joined(seq![part], sep) == part,
        parts.len() > 0 ==> joined(parts.push(part), sep) == joined(parts, sep) + sep + part,
{
    assert(parts.push(part).drop_last() =~= parts);
}

/// Splitting what was joined gives the parts back, where none of them holds the
/// separator.
pub proof fn law_join_then_split(parts: Seq<Seq<char>>, sep: char)
    requires
        parts.len() > 0,
        forall|i: int| 0 <= i < parts.len() ==> !(#[trigger] parts[i]).contains(sep),
    ensures
        split(joined(parts, seq![sep]), sep) == parts,
    decreases parts.len(),
{
    if parts.len() == 1 {
        law_split_without_separator(parts[0], sep);
        assert(parts =~= seq![parts[0]]);
    } else {
        let front = parts.drop_last();
        assert forall|i: int| 0 <= i < front.len() implies !(#[trigger] front[i]).contains(sep) by {
            assert(front[i] == parts[i]);
        }
        law_join_then_split(front, sep);
        assert(!parts[parts.len() - 1].contains(sep));
        law_split_around_separator(joined(front, seq![sep]), parts.last(), sep);
        law_split_without_separator(parts.last(), sep);
        assert(parts =~= front + seq![parts.last()]);
    }
}

/// Padding keeps the text, fills it up with spaces to the width, and leaves a longer
/// text as it is.
pub proof fn law_padding_fills_up(s: Seq<char>, width: nat)
    ensures
        padded(s, width).len() == (if s.len() < width {
            width
        } else {
            s.len()
        }),
        padded(s, width).take(s.len() as int) == s,
        forall|i: int| s.len() <= i < padded(s, width).len() ==> #[trigger] padded(s, width)[i] == ' ',
{
    assert(padded(s, width).take(s.len() as int) =~= s);
}

/// Taking a prefix off is the inverse of putting it before, and fails exactly where
/// it is not there.
pub proof fn law_prefix_is_taken_off(s: Seq<char>, prefix: Seq<char>, rest: Seq<char>)
    ensures
        after_prefix(prefix + rest, prefix) == Some(rest),
        after_prefix(s, prefix) == Some(rest) <==> s == prefix + rest,
        after_prefix(s, prefix) is None <==> !begins(s, prefix),
{
    assert((prefix + rest).subrange(0, prefix.len() as int) =~= prefix);
    assert((prefix + rest).skip(prefix.len() as int) =~= rest);
    if let Some(r) = after_prefix(s, prefix) {
        assert(s =~= prefix + r);
    }
    if begins(s, prefix) {
        let r = choose|r: Seq<char>| s == #[trigger] (prefix + r);
        assert((prefix + r).subrange(0, prefix.len() as int) =~= prefix);
    }
}

/// A suffix is taken off as often as it is there, and nothing else is.
pub proof fn law_suffixes_are_taken_off(s: Seq<char>, suffix: Seq<char>)
    requires
        suffix.len() > 0,
    ensures
        !ends(without_suffixes(s, suffix), suffix),
        without_suffixes(s + suffix, suffix) == without_suffixes(s, suffix),
        !ends(s, suffix) ==> without_suffixes(s, suffix) == s,
    decreases s.len(),
{
    let both = s + suffix;
    assert(both.subrange(both.len() - suffix.len(), both.len() as int) =~= suffix);
    assert(both.take(both.len() - suffix.len()) =~= s);
    if holds_at(s, suffix, s.len() - suffix.len()) {
        let front = s.take(s.len() - suffix.len());
        assert(s =~= front + suffix);
        law_suffixes_are_taken_off(front, suffix);
    } else if ends(s, suffix) {
        let r = choose|r: Seq<char>| s == #[trigger] (r + suffix);
        assert(s.subrange(s.len() - suffix.len(), s.len() as int) =~= suffix);
    }
}

/// Lower case for ASCII changes the letters `A` to `Z`, each into the one 32 places
/// on, and no other character.
pub proof fn law_ascii_letters_are_lowered(s: Seq<char>, i: int)
    requires
        0 <= i < s.len(),
    ensures
        ascii_lowered(s).len() == s.len(),
        65 <= s[i] as int <= 90 ==> ascii_lowered(s)[i] as int == s[i] as int + 32,
        !(65 <= s[i] as int <= 90) ==> ascii_lowered(s)[i] == s[i],
{
}

/// A number is written digit by digit, the last digit last.
pub proof fn law_numbers_are_written_digit_by_digit(n: nat, d: nat)
    requires
        d < 10,
    ensures
        decimal(d).len() == 1,
        decimal(d)[0] as int == 48 + d,
        n > 0 ==> decimal(10 * n + d) == decimal(n) + decimal(d),
{
    if n > 0 {
        assert((10 * n + d) / 10 == n);
        assert((10 * n + d) % 10 == d);
        assert(decimal(10 * n + d) =~= decimal(n) + decimal(d));
    }
}

/// Different numbers are written differently.
pub proof fn law_numbers_are_told_apart(a: int, b: int)
    requires
        a != b,
    ensures
        signed_decimal(a) != signed_decimal(b),
        a >= 0 && b >= 0 ==> decimal(a as nat) != decimal(b as nat),
        a < 0 ==> signed_decimal(a) == "-"@ + decimal((-a) as nat),
        a >= 0 ==> signed_decimal(a) == decimal(a as nat),
{
    reveal_strlit("-");
    assert("-"@ =~= seq!['-']);
    if a >= 0 {
        law_decimal_reads_back(a as nat);
    } else {
        law_decimal_reads_back((-a) as nat);
    }
    if b >= 0 {
        law_decimal_reads_back(b as nat);
    } else {
        law_decimal_reads_back((-b) as nat);
    }
    let (x, y) = (signed_decimal(a), signed_decimal(b));
    if x == y {
        if a < 0 && b < 0 {
            assert(x.skip(1) =~= decimal((-a) as nat));
            assert(y.skip(1) =~= decimal((-b) as nat));
        } else if a < 0 {
            assert(x[0] == '-');
            assert(y[0] == decimal(b as nat)[0]);
        } else if b < 0 {
            assert(y[0] == '-');
            assert(x[0] == decimal(a as nat)[0]);
        }
    }
}

/// One thing is named in the singular, any other number in the plural.
pub proof fn law_one_is_singular(n: nat)
    ensures
        plural(n).len() == 0 <==> n == 1,
        n != 1 ==> plural(n) == "s"@,
{
    reveal_strlit("");
    reveal_strlit("s");
}

/// Reading a number takes decimal digits, with a plus sign before them or not, and
/// gives what they stand for, as far as that fits.
pub proof fn law_numbers_are_read(s: Seq<char>, d: char)
    ensures
        u32_of(s) is Some ==> s.len() > 0 && forall|i: int|
            1 <= i < s.len() ==> '0' <= #[trigger] s[i] <= '9',
        u32_of(s) is Some ==> s[0] == '+' || '0' <= s[0] <= '9',
        s.len() > 0 && all_digits(s) && digits_value(s) <= u32::MAX ==> u32_of(s) == Some(
            digits_value(s) as u32,
        ) && u32_of(seq!['+'] + s) == u32_of(s),
        digits_value(s) > u32::MAX ==> all_digits(s) ==> u32_of(s) is None,
        '0' <= d <= '9' ==> digits_value(s.push(d)) == digits_value(s) * 10 + (d as int - 48),
        digits_value(Seq::empty()) == 0,
{
    assert(s.push(d).drop_last() =~= s);
    assert((seq!['+'] + s).drop_first() =~= s);
    if s.len() > 0 && s[0] == '+' {
        assert(!all_digits(s));
        let digits = s.drop_first();
        if u32_of(s) is Some {
            assert forall|i: int| 1 <= i < s.len() implies '0' <= #[trigger] s[i] <= '9' by {
                assert(digits[i - 1] == s[i]);
            }
        }
    }
}

/// White space is the tabulators and line breaks, the blanks of all widths, and
/// nothing else.
pub proof fn law_white_space_is_as_listed(c: char)
    ensures
        is_space(c) <==> {
            let n = c as u32;
            ||| n == 9 || n == 10 || n == 11 || n == 12 || n == 13
            ||| n == 32 || n == 0x85 || n == 0xa0 || n == 0x1680
            ||| 0x2000 <= n <= 0x200a
            ||| n == 0x2028 || n == 0x2029 || n == 0x202f || n == 0x205f || n == 0x3000
        },
{
}

} // verus!
