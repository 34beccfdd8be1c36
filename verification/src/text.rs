//! Decimal formatting of numbers and joining of path components.
use vstd::prelude::*;
use vstd::string::*;

verus! {

/// The ASCII digit that stands for `d` (for `d` below ten).
pub open spec fn digit_char(d: nat) -> char {
    if d == 0 {
        '0'
    } else if d == 1 {
        '1'
    } else if d == 2 {
        '2'
    } else if d == 3 {
        '3'
    } else if d == 4 {
        '4'
    } else if d == 5 {
        '5'
    } else if d == 6 {
        '6'
    } else if d == 7 {
        '7'
    } else if d == 8 {
        '8'
    } else {
        '9'
    }
}

/// The decimal digits of `n`, most significant first, with no leading zero
/// (`"0"` for zero): what `{}` prints for an unsigned integer.
pub open spec fn decimal(n: nat) -> Seq<char>
    decreases n,
{
    if n < 10 {
        seq![digit_char(n)]
    } else {
        decimal(n / 10).push(digit_char(n % 10))
    }
}

/// `k` zero characters.
pub open spec fn zeros(k: nat) -> Seq<char> {
    Seq::new(k, |i: int| '0')
}

/// `s` with zeros in front up to `width` characters: what `{:0width$}` prints
/// for an unsigned integer whose digits are `s`.
pub open spec fn zero_pad(s: Seq<char>, width: nat) -> Seq<char> {
    if s.len() >= width {
        s
    } else {
        zeros((width - s.len()) as nat) + s
    }
}

/// What `{}` prints for a signed integer.
pub open spec fn signed_decimal(n: int) -> Seq<char> {
    if n < 0 {
        seq!['-'] + decimal((-n) as nat)
    } else {
        decimal(n as nat)
    }
}

/// The characters of a sequence of digit values.
pub open spec fn digit_chars(ds: Seq<u32>) -> Seq<char> {
    ds.map_values(|d: u32| digit_char(d as nat))
}

/// The number that the digit character `c` stands for.
pub open spec fn digit_value(c: char) -> nat {
    if c == '1' {
        1
    } else if c == '2' {
        2
    } else if c == '3' {
        3
    } else if c == '4' {
        4
    } else if c == '5' {
        5
    } else if c == '6' {
        6
    } else if c == '7' {
        7
    } else if c == '8' {
        8
    } else if c == '9' {
        9
    } else {
        0
    }
}

/// The number that a sequence of decimal digits stands for.
pub open spec fn digits_value(s: Seq<char>) -> nat
    decreases s.len(),
{
    if s.len() == 0 {
        0
    } else {
        digits_value(s.drop_last()) * 10 + digit_value(s.last())
    }
}

/// Reading back the decimal digits of `n` gives `n`.
pub proof fn lemma_decimal_value(n: nat)
    ensures
        digits_value(decimal(n)) == n,
    decreases n,
{
    assert(digit_value(digit_char(n % 10)) == n % 10);
    if n >= 10 {
        lemma_decimal_value(n / 10);
        assert(decimal(n).drop_last() =~= decimal(n / 10));
        assert(decimal(n).last() == digit_char(n % 10));
        assert(n == (n / 10) * 10 + n % 10);
        assert(digits_value(decimal(n)) == digits_value(decimal(n / 10)) * 10 + n % 10);
    } else {
        assert(decimal(n).drop_last() =~= Seq::<char>::empty());
        assert(digits_value(Seq::<char>::empty()) == 0);
        assert(decimal(n).last() == digit_char(n));
        assert(digits_value(decimal(n)) == 0 * 10 + digit_value(digit_char(n)));
    }
}

/// Zeros in front of a sequence of digits do not change the number it
/// stands for.
pub proof fn lemma_zeros_value(k: nat, s: Seq<char>)
    ensures
        digits_value(zeros(k) + s) == digits_value(s),
    decreases s.len() + k,
{
    if s.len() == 0 {
        assert(zeros(k) + s =~= zeros(k));
        if k > 0 {
            assert(zeros(k).drop_last() =~= zeros((k - 1) as nat) + s);
            lemma_zeros_value((k - 1) as nat, s);
        }
    } else {
        assert((zeros(k) + s).drop_last() =~= zeros(k) + s.drop_last());
        lemma_zeros_value(k, s.drop_last());
    }
}

/// Padded decimal numbers are equal only when the numbers are.
pub proof fn lemma_zero_pad_injective(a: nat, b: nat, width: nat)
    requires
        zero_pad(decimal(a), width) == zero_pad(decimal(b), width),
    ensures
        a == b,
{
    lemma_decimal_value(a);
    lemma_decimal_value(b);
    if decimal(a).len() < width {
        lemma_zeros_value((width - decimal(a).len()) as nat, decimal(a));
    }
    if decimal(b).len() < width {
        lemma_zeros_value((width - decimal(b).len()) as nat, decimal(b));
    }
}

fn digit_str(d: u32) -> (s: &'static str)
    requires
        d < 10,
    ensures
        s@ == seq![digit_char(d as nat)],
{
    if d == 0 {
        proof { reveal_strlit("0"); }
        "0"
    } else if d == 1 {
        proof { reveal_strlit("1"); }
        "1"
    } else if d == 2 {
        proof { reveal_strlit("2"); }
        "2"
    } else if d == 3 {
        proof { reveal_strlit("3"); }
        "3"
    } else if d == 4 {
        proof { reveal_strlit("4"); }
        "4"
    } else if d == 5 {
        proof { reveal_strlit("5"); }
        "5"
    } else if d == 6 {
        proof { reveal_strlit("6"); }
        "6"
    } else if d == 7 {
        proof { reveal_strlit("7"); }
        "7"
    } else if d == 8 {
        proof { reveal_strlit("8"); }
        "8"
    } else {
        proof { reveal_strlit("9"); }
        "9"
    }
}

/// Appends `n` in decimal, with zeros in front up to `width` characters.
pub fn push_decimal(out: &mut String, n: u32, width: usize)
    ensures
        final(out)@ == old(out)@ + zero_pad(decimal(n as nat), width as nat),
{
    let ghost start = out@;
    let mut q: u32 = n;
    let mut ds: Vec<u32> = Vec::new();
    while q >= 10
        invariant
            decimal(n as nat) == decimal(q as nat) + digit_chars(ds@),
            forall|i: int| 0 <= i < ds@.len() ==> ds@[i] < 10,
            q <= n,
            n < 10 ==> q == n,
        decreases q,
    {
        let ghost old_ds = ds@;
        ds.insert(0, q % 10);
        assert(digit_chars(ds@) =~= seq![digit_char((q % 10) as nat)]
            + digit_chars(old_ds));
        assert(decimal(n as nat) =~= decimal((q / 10) as nat) + digit_chars(ds@));
        q = q / 10;
    }
    ds.insert(0, q);
    assert(digit_chars(ds@) =~= decimal(n as nat));
    let len: usize = ds.len();
    let mut i: usize = len;
    while i < width
        invariant
            len <= i,
            i <= width || i == len,
            out@ == start + zeros((i - len) as nat),
        decreases width - i,
    {
        proof { reveal_strlit("0"); }
        out.append("0");
        assert(out@ =~= start + zeros((i + 1 - len) as nat));
        i = i + 1;
    }
    let ghost padded = out@;
    assert(zero_pad(decimal(n as nat), width as nat) =~= zeros((i - len) as nat) + decimal(n as nat));
    let mut j: usize = 0;
    while j < len
        invariant
            len == ds@.len(),
            j <= len,
            forall|k: int| 0 <= k < ds@.len() ==> ds@[k] < 10,
            out@ == padded + digit_chars(ds@.take(j as int)),
            digit_chars(ds@) == decimal(n as nat),
        decreases len - j,
    {
        out.append(digit_str(ds[j]));
        assert(digit_chars(ds@.take(j + 1)) =~= digit_chars(ds@.take(
            j as int,
        )).push(digit_char(ds@[j as int] as nat)));
        j = j + 1;
    }
    assert(ds@.take(len as int) =~= ds@);
}

/// Appends `n` as `{}` prints a signed integer.
pub fn push_signed_decimal(out: &mut String, n: i32)
    ensures
        final(out)@ == old(out)@ + signed_decimal(n as int),
{
    if n < 0 {
        proof { reveal_strlit("-"); }
        out.append("-");
        let magnitude: u32 = if n == i32::MIN {
            2147483648u32
        } else {
            (-n) as u32
        };
        push_decimal(out, magnitude, 0);
        assert(zero_pad(decimal(magnitude as nat), 0) == decimal(magnitude as nat));
    } else {
        push_decimal(out, n as u32, 0);
        assert(zero_pad(decimal(n as nat), 0) == decimal(n as nat));
    }
}

/// The ASCII lower-case form of `c`: `A`..`Z` become `a`..`z`, and any other
/// character stays.
pub open spec fn ascii_lower(c: char) -> char {
    if 'A' <= c && c <= 'Z' {
        ((c as int) + 32) as char
    } else {
        c
    }
}

/// `s` with its ASCII capitals in lower case.
pub open spec fn ascii_lowercase(s: Seq<char>) -> Seq<char> {
    s.map_values(|c: char| ascii_lower(c))
}

fn lower_letter(c: char) -> (s: &'static str)
    requires
        'A' <= c && c <= 'Z',
    ensures
        s@ == seq![ascii_lower(c)],
{
    if c == 'A' {
        proof { reveal_strlit("a"); }
        "a"
    } else if c == 'B' {
        proof { reveal_strlit("b"); }
        "b"
    } else if c == 'C' {
        proof { reveal_strlit("c"); }
        "c"
    } else if c == 'D' {
        proof { reveal_strlit("d"); }
        "d"
    } else if c == 'E' {
        proof { reveal_strlit("e"); }
        "e"
    } else if c == 'F' {
        proof { reveal_strlit("f"); }
        "f"
    } else if c == 'G' {
        proof { reveal_strlit("g"); }
        "g"
    } else if c == 'H' {
        proof { reveal_strlit("h"); }
        "h"
    } else if c == 'I' {
        proof { reveal_strlit("i"); }
        "i"
    } else if c == 'J' {
        proof { reveal_strlit("j"); }
        "j"
    } else if c == 'K' {
        proof { reveal_strlit("k"); }
        "k"
    } else if c == 'L' {
        proof { reveal_strlit("l"); }
        "l"
    } else if c == 'M' {
        proof { reveal_strlit("m"); }
        "m"
    } else if c == 'N' {
        proof { reveal_strlit("n"); }
        "n"
    } else if c == 'O' {
        proof { reveal_strlit("o"); }
        "o"
    } else if c == 'P' {
        proof { reveal_strlit("p"); }
        "p"
    } else if c == 'Q' {
        proof { reveal_strlit("q"); }
        "q"
    } else if c == 'R' {
        proof { reveal_strlit("r"); }
        "r"
    } else if c == 'S' {
        proof { reveal_strlit("s"); }
        "s"
    } else if c == 'T' {
        proof { reveal_strlit("t"); }
        "t"
    } else if c == 'U' {
        proof { reveal_strlit("u"); }
        "u"
    } else if c == 'V' {
        proof { reveal_strlit("v"); }
        "v"
    } else if c == 'W' {
        proof { reveal_strlit("w"); }
        "w"
    } else if c == 'X' {
        proof { reveal_strlit("x"); }
        "x"
    } else if c == 'Y' {
        proof { reveal_strlit("y"); }
        "y"
    } else {
        proof { reveal_strlit("z"); }
        "z"
    }
}

/// Appends `s` with its ASCII capitals in lower case.
pub fn push_ascii_lowercase(out: &mut String, s: &str)
    ensures
        final(out)@ == old(out)@ + ascii_lowercase(s@),
{
    let ghost start = out@;
    let n: usize = s.unicode_len();
    let mut i: usize = 0;
    while i < n
        invariant
            n == s@.len(),
            i <= n,
            out@ == start + ascii_lowercase(s@.take(i as int)),
        decreases n - i,
    {
        let c = s.get_char(i);
        if 'A' <= c && c <= 'Z' {
            out.append(lower_letter(c));
        } else {
            out.append(s.substring_char(i, i + 1));
        }
        assert(ascii_lowercase(s@.take(i + 1)) =~= ascii_lowercase(s@.take(i as int)).push(
            ascii_lower(s@[i as int]),
        ));
        i = i + 1;
    }
    assert(s@.take(n as int) =~= s@);
}

/// Whether `c` has the Unicode `White_Space` property, which is what
/// `char::is_whitespace` tests and `str::trim` removes.
pub open spec fn is_white_space(c: char) -> bool {
    let x = c as int;
    ||| 0x9 <= x <= 0xd
    ||| x == 0x20
    ||| x == 0x85
    ||| x == 0xa0
    ||| x == 0x1680
    ||| 0x2000 <= x <= 0x200a
    ||| x == 0x2028
    ||| x == 0x2029
    ||| x == 0x202f
    ||| x == 0x205f
    ||| x == 0x3000
}

/// How many white-space characters `s` starts with.
pub open spec fn leading_white_space(s: Seq<char>) -> nat
    decreases s.len(),
{
    if s.len() > 0 && is_white_space(s[0]) {
        1 + leading_white_space(s.drop_first())
    } else {
        0
    }
}

/// How many white-space characters `s` ends with.
pub open spec fn trailing_white_space(s: Seq<char>) -> nat
    decreases s.len(),
{
    if s.len() > 0 && is_white_space(s.last()) {
        1 + trailing_white_space(s.drop_last())
    } else {
        0
    }
}

/// `s` without its leading and trailing white space, as `str::trim`
/// returns it.
pub open spec fn trimmed(s: Seq<char>) -> Seq<char> {
    let rest = s.skip(leading_white_space(s) as int);
    rest.take(rest.len() - trailing_white_space(rest))
}

/// The index of the first `\n` in `s`, or -1 when it has none.
pub open spec fn first_newline(s: Seq<char>) -> int
    decreases s.len(),
{
    if s.len() == 0 {
        -1
    } else if s[0] == '\n' {
        0
    } else {
        let r = first_newline(s.drop_first());
        if r < 0 {
            -1
        } else {
            r + 1
        }
    }
}

/// The first `\n` of a text, if there is one, is within it.
pub proof fn lemma_first_newline_bound(s: Seq<char>)
    ensures
        -1 <= first_newline(s) < s.len(),
        first_newline(s) >= 0 ==> s[first_newline(s)] == '\n',
    decreases s.len(),
{
    if s.len() > 0 {
        lemma_first_newline_bound(s.drop_first());
    }
}

/// A line without the `\r` that ends it, if one does.
pub open spec fn strip_cr(line: Seq<char>) -> Seq<char> {
    if line.len() > 0 && line.last() == '\r' {
        line.drop_last()
    } else {
        line
    }
}

/// The lines of `s`, as `str::lines` yields them: split at each `\n`, a
/// `\r` before the `\n` removed, and no line after a final `\n`.
pub open spec fn text_lines(s: Seq<char>) -> Seq<Seq<char>>
    decreases s.len(),
{
    if s.len() == 0 {
        Seq::empty()
    } else {
        let i = first_newline(s);
        if i < 0 {
            seq![s]
        } else {
            proof {
                lemma_first_newline_bound(s);
            }
            seq![strip_cr(s.take(i))] + text_lines(s.skip(i + 1))
        }
    }
}

proof fn lemma_first_newline(s: Seq<char>, m: int)
    requires
        0 <= m <= s.len(),
        forall|k: int| 0 <= k < m ==> s[k] != '\n',
        m < s.len() ==> s[m] == '\n',
    ensures
        first_newline(s) == if m < s.len() { m } else { -1 },
    decreases m,
{
    if m > 0 {
        lemma_first_newline(s.drop_first(), m - 1);
    }
}

/// The lines of `text`, as `str::lines` yields them.
pub fn lines_of(text: &str) -> (r: Vec<String>)
    ensures
        r@.map_values(|l: String| l@) == text_lines(text@),
{
    let n: usize = text.unicode_len();
    let mut out: Vec<String> = Vec::new();
    let mut start: usize = 0;
    assert(text@.skip(0) =~= text@);
    while start < n
        invariant
            n == text@.len(),
            start <= n,
            text_lines(text@) == out@.map_values(|l: String| l@) + text_lines(text@.skip(start as int)),
        decreases n - start,
    {
        let mut j: usize = start;
        while j < n && text.get_char(j) != '\n'
            invariant
                n == text@.len(),
                start <= j <= n,
                forall|k: int| start <= k < j ==> text@[k] != '\n',
            decreases n - j,
        {
            j = j + 1;
        }
        let ghost rest = text@.skip(start as int);
        proof {
            lemma_first_newline(rest, j - start);
        }
        let mut end: usize = j;
        if j < n && end > start && text.get_char(end - 1) == '\r' {
            end = end - 1;
        }
        let line = text.substring_char(start, end).to_owned();
        let ghost old_out = out@;
        out.push(line);
        let next: usize = if j < n {
            j + 1
        } else {
            n
        };
        proof {
            assert(out@.map_values(|l: String| l@) =~= old_out.map_values(|l: String| l@).push(
                line@,
            ));
            if j < n {
                assert(rest.take(j - start) =~= text@.subrange(start as int, j as int));
                assert(rest.skip(j - start + 1) =~= text@.skip(next as int));
                assert(line@ == strip_cr(rest.take(j - start))) by {
                    if j > start && text@[j - 1] == '\r' {
                        assert(text@.subrange(start as int, j - 1) =~= rest.take(j - start).drop_last());
                    }
                }
            } else {
                assert(line@ =~= rest);
                assert(text@.skip(next as int) =~= Seq::<char>::empty());
            }
            assert(text_lines(rest) =~= seq![line@] + text_lines(text@.skip(next as int)));
        }
        start = next;
    }
    assert(text@.skip(n as int) =~= Seq::<char>::empty());
    assert(text_lines(text@) =~= out@.map_values(|l: String| l@));
    out
}

proof fn lemma_leading(s: Seq<char>, m: int)
    requires
        0 <= m <= s.len(),
        forall|k: int| 0 <= k < m ==> is_white_space(s[k]),
        m < s.len() ==> !is_white_space(s[m]),
    ensures
        leading_white_space(s) == m,
    decreases m,
{
    if m > 0 {
        lemma_leading(s.drop_first(), m - 1);
    }
}

proof fn lemma_trailing(s: Seq<char>, m: int)
    requires
        0 <= m <= s.len(),
        forall|k: int| s.len() - m <= k < s.len() ==> is_white_space(s[k]),
        m < s.len() ==> !is_white_space(s[s.len() - m - 1]),
    ensures
        trailing_white_space(s) == m,
    decreases m,
{
    if m > 0 {
        lemma_trailing(s.drop_last(), m - 1);
    }
}

fn white_space(c: char) -> (r: bool)
    ensures
        r == is_white_space(c),
{
    let x = c as u32;
    (0x9 <= x && x <= 0xd) || x == 0x20 || x == 0x85 || x == 0xa0 || x == 0x1680 || (0x2000 <= x
        && x <= 0x200a) || x == 0x2028 || x == 0x2029 || x == 0x202f || x == 0x205f || x == 0x3000
}

/// `text` without its leading and trailing white space, as `str::trim`
/// returns it.
pub fn trim_of(text: &str) -> (r: String)
    ensures
        r@ == trimmed(text@),
{
    let n: usize = text.unicode_len();
    let mut a: usize = 0;
    while a < n && white_space(text.get_char(a))
        invariant
            n == text@.len(),
            a <= n,
            forall|k: int| 0 <= k < a ==> is_white_space(text@[k]),
        decreases n - a,
    {
        a = a + 1;
    }
    let mut b: usize = n;
    while b > a && white_space(text.get_char(b - 1))
        invariant
            n == text@.len(),
            a <= b <= n,
            forall|k: int| b <= k < n ==> is_white_space(text@[k]),
        decreases b,
    {
        b = b - 1;
    }
    proof {
        lemma_leading(text@, a as int);
        let rest = text@.skip(a as int);
        lemma_trailing(rest, n - b);
        assert(rest.take(rest.len() - (n - b)) =~= text@.subrange(a as int, b as int));
    }
    text.substring_char(a, b).to_owned()
}

/// What `PathBuf::push` makes of `base` and `component` on Unix: a component
/// that starts with `/` replaces the path; otherwise it is appended, with a
/// `/` in between unless `base` is empty or already ends with one.
pub open spec fn path_push(base: Seq<char>, component: Seq<char>) -> Seq<char> {
    if component.len() > 0 && component[0] == '/' {
        component
    } else if base.len() > 0 && base.last() != '/' {
        base + seq!['/'] + component
    } else {
        base + component
    }
}

/// Extends the path `base` by `component`, as `PathBuf::push` does on Unix.
pub fn push_path(base: &mut String, component: &str)
    ensures
        final(base)@ == path_push(old(base)@, component@),
{
    let clen: usize = component.unicode_len();
    if clen > 0 && component.get_char(0) == '/' {
        *base = component.to_owned();
        return;
    }
    let blen: usize = base.as_str().unicode_len();
    if blen > 0 && base.as_str().get_char(blen - 1) != '/' {
        proof { reveal_strlit("/"); }
        base.append("/");
    }
    base.append(component);
}

} // verus!
