//! Text primitives: trimming, ASCII case folding, glob patterns, ordering,
//! searching and numerals.
//!
//! Every function states its result over the character sequence of a text
//! (`s@`), so callers never reason about UTF-8.

use vstd::prelude::*;
use vstd::string::*;

verus! {

/// `String::push` appends one character at the end.
pub assume_specification[ String::push ](text: &mut String, c: char)
    ensures
        final(text)@ == old(text)@.push(c),
;

/// The characters of `s`, one per element.
pub fn chars_of(s: &str) -> (chars: Vec<char>)
    ensures
        chars@ == s@,
{
    let mut chars: Vec<char> = Vec::new();
    for c in it: s.chars()
        invariant
            it.seq() == s@,
            chars@ == s@.take(it.index()),
    {
        chars.push(c);
    }
    chars
}

/// Whether two texts hold the same characters.
pub fn same_text(a: &str, b: &str) -> (res: bool)
    ensures
        res == (a@ == b@),
{
    a.to_owned() == b.to_owned()
}

/// Two texts, one after the other.
pub fn concat(a: &str, b: &str) -> (res: String)
    ensures
        res@ == a@ + b@,
{
    let mut out = a.to_owned();
    out.append(b);
    out
}

/// Three texts, one after the other.
pub fn concat3(a: &str, b: &str, c: &str) -> (res: String)
    ensures
        res@ == a@ + b@ + c@,
{
    let mut out = a.to_owned();
    out.append(b);
    out.append(c);
    out
}

// --- trimming ---------------------------------------------------------------

/// The characters with the Unicode property `White_Space`.
pub open spec fn is_white_space(c: char) -> bool {
    ||| '\u{9}' <= c <= '\u{d}'
    ||| c == ' '
    ||| c == '\u{85}'
    ||| c == '\u{a0}'
    ||| c == '\u{1680}'
    ||| '\u{2000}' <= c <= '\u{200a}'
    ||| c == '\u{2028}'
    ||| c == '\u{2029}'
    ||| c == '\u{202f}'
    ||| c == '\u{205f}'
    ||| c == '\u{3000}'
}

/// `s` without the white space that it begins with.
pub open spec fn trim_start(s: Seq<char>) -> Seq<char>
    decreases s.len(),
{
    if s.len() > 0 && is_white_space(s[0]) {
        trim_start(s.skip(1))
    } else {
        s
    }
}

/// `s` without the white space that it ends with.
pub open spec fn trim_end(s: Seq<char>) -> Seq<char>
    decreases s.len(),
{
    if s.len() > 0 && is_white_space(s.last()) {
        trim_end(s.drop_last())
    } else {
        s
    }
}

/// `s` without the white space around it.
pub open spec fn trimmed(s: Seq<char>) -> Seq<char> {
    trim_end(trim_start(s))
}

fn white_space(c: char) -> (res: bool)
    ensures
        res == is_white_space(c),
{
    ('\u{9}' <= c && c <= '\u{d}') || c == ' ' || c == '\u{85}' || c == '\u{a0}' || c == '\u{1680}'
        || ('\u{2000}' <= c && c <= '\u{200a}') || c == '\u{2028}' || c == '\u{2029}' || c
        == '\u{202f}' || c == '\u{205f}' || c == '\u{3000}'
}

proof fn lemma_trim_start(s: Seq<char>, i: int)
    requires
        0 <= i <= s.len(),
        forall|j: int| 0 <= j < i ==> is_white_space(#[trigger] s[j]),
        i < s.len() ==> !is_white_space(s[i]),
    ensures
        trim_start(s) == s.skip(i),
    decreases s.len(),
{
    if i == 0 {
        assert(s.skip(0) =~= s);
    } else {
        assert forall|j: int| 0 <= j < i - 1 implies is_white_space(#[trigger] s.skip(1)[j]) by {
            assert(s.skip(1)[j] == s[j + 1]);
        }
        lemma_trim_start(s.skip(1), i - 1);
        assert(s.skip(1).skip(i - 1) =~= s.skip(i));
    }
}

proof fn lemma_trim_end(s: Seq<char>, i: int)
    requires
        0 <= i <= s.len(),
        forall|j: int| i <= j < s.len() ==> is_white_space(#[trigger] s[j]),
        i > 0 ==> !is_white_space(s[i - 1]),
    ensures
        trim_end(s) == s.take(i),
    decreases s.len(),
{
    if i == s.len() {
        assert(s.take(i) =~= s);
    } else {
        lemma_trim_end(s.drop_last(), i);
        assert(s.drop_last().take(i) =~= s.take(i));
    }
}

/// The text without the white space around it.
pub fn trim(s: &str) -> (res: &str)
    ensures
        res@ == trimmed(s@),
{
    let chars = chars_of(s);
    let mut from: usize = 0;
    while from < chars.len() && white_space(chars[from])
        invariant
            from <= chars.len(),
            chars@ == s@,
            forall|j: int| 0 <= j < from ==> is_white_space(#[trigger] chars@[j]),
        decreases chars.len() - from,
    {
        from += 1;
    }
    proof {
        lemma_trim_start(s@, from as int);
    }
    let mut to: usize = chars.len();
    while to > from && white_space(chars[to - 1])
        invariant
            from <= to <= chars.len(),
            chars@ == s@,
            forall|j: int| to <= j < chars.len() ==> is_white_space(#[trigger] chars@[j]),
        decreases to,
    {
        to -= 1;
    }
    proof {
        let rest = s@.skip(from as int);
        assert forall|j: int| to - from <= j < rest.len() implies is_white_space(
            #[trigger] rest[j],
        ) by {
            assert(rest[j] == chars@[j + from]);
        }
        lemma_trim_end(rest, to - from);
        assert(rest.take(to - from) =~= s@.subrange(from as int, to as int));
    }
    s.substring_char(from, to)
}

/// `s` without the slashes that it ends with.
pub open spec fn without_end_slashes(s: Seq<char>) -> Seq<char>
    decreases s.len(),
{
    if s.len() > 0 && s.last() == '/' {
        without_end_slashes(s.drop_last())
    } else {
        s
    }
}

/// The text without the slashes that it ends with.
pub fn trim_end_slashes(s: &str) -> (res: &str)
    ensures
        res@ == without_end_slashes(s@),
{
    let chars = chars_of(s);
    let mut to: usize = chars.len();
    proof {
        assert(s@.take(to as int) =~= s@);
    }
    while to > 0 && chars[to - 1] == '/'
        invariant
            to <= chars.len(),
            chars@ == s@,
            without_end_slashes(s@.take(to as int)) == without_end_slashes(s@),
        decreases to,
    {
        proof {
            assert(s@.take(to as int).drop_last() =~= s@.take(to - 1));
        }
        to -= 1;
    }
    proof {
        assert(s@.take(to as int) =~= s@.subrange(0, to as int));
    }
    s.substring_char(0, to)
}

// --- ASCII case -------------------------------------------------------------

/// `c` with an ASCII capital made small.
pub open spec fn lower(c: char) -> char {
    if 'A' <= c <= 'Z' {
        (c as u32 + 32) as char
    } else {
        c
    }
}

/// Equal but for the case of ASCII letters.
pub open spec fn same_ignoring_case(a: Seq<char>, b: Seq<char>) -> bool {
    &&& a.len() == b.len()
    &&& forall|i: int| 0 <= i < a.len() ==> lower(#[trigger] a[i]) == lower(b[i])
}

pub fn lower_char(c: char) -> (res: char)
    ensures
        res == lower(c),
{
    if 'A' <= c && c <= 'Z' {
        (c as u8 + 32) as char
    } else {
        c
    }
}

/// Whether two texts are equal but for the case of ASCII letters.
pub fn eq_ignore_case(a: &str, b: &str) -> (res: bool)
    ensures
        res == same_ignoring_case(a@, b@),
{
    let x = chars_of(a);
    let y = chars_of(b);
    if x.len() != y.len() {
        return false;
    }
    let mut i: usize = 0;
    while i < x.len()
        invariant
            x@ == a@,
            y@ == b@,
            x.len() == y.len(),
            i <= x.len(),
            forall|j: int| 0 <= j < i ==> lower(#[trigger] a@[j]) == lower(b@[j]),
        decreases x.len() - i,
    {
        if lower_char(x[i]) != lower_char(y[i]) {
            return false;
        }
        i += 1;
    }
    true
}

// --- searching --------------------------------------------------------------

/// `s` begins with `prefix`.
pub open spec fn begins_with(s: Seq<char>, prefix: Seq<char>) -> bool {
    prefix.len() <= s.len() && s.take(prefix.len() as int) == prefix
}

pub fn starts_with(s: &str, prefix: &str) -> (res: bool)
    ensures
        res == begins_with(s@, prefix@),
{
    let n = prefix.unicode_len();
    if s.unicode_len() < n {
        return false;
    }
    proof {
        assert(s@.take(n as int) =~= s@.subrange(0, n as int));
    }
    same_text(s.substring_char(0, n), prefix)
}

/// Whether `c` stands somewhere in `s`.
pub fn contains_char(s: &str, c: char) -> (res: bool)
    ensures
        res == s@.contains(c),
{
    let x = chars_of(s);
    let mut i: usize = 0;
    while i < x.len()
        invariant
            x@ == s@,
            i <= x.len(),
            forall|k: int| 0 <= k < i ==> #[trigger] s@[k] != c,
        decreases x.len() - i,
    {
        if x[i] == c {
            assert(s@[i as int] == c);
            return true;
        }
        i += 1;
    }
    false
}

/// The parts of `s` between the characters `sep`; one part where there is none.
pub open spec fn parts(s: Seq<char>, sep: char) -> Seq<Seq<char>>
    decreases s.len(),
{
    if s.len() == 0 {
        seq![s]
    } else {
        let rest = parts(s.drop_last(), sep);
        if s.last() == sep {
            rest.push(Seq::empty())
        } else {
            rest.update(rest.len() - 1, rest.last().push(s.last()))
        }
    }
}

/// The parts of a text between the characters `sep`.
pub fn split(s: &str, sep: char) -> (res: Vec<String>)
    ensures
        res@.len() == parts(s@, sep).len(),
        forall|i: int| 0 <= i < res@.len() ==> (#[trigger] res@[i])@ == parts(s@, sep)[i],
{
    let chars = chars_of(s);
    let mut done: Vec<String> = Vec::new();
    let mut part = String::new();
    let mut i: usize = 0;
    while i < chars.len()
        invariant
            chars@ == s@,
            i <= chars.len(),
            parts(s@.take(i as int), sep).len() == done@.len() + 1,
            forall|j: int|
                0 <= j < done@.len() ==> (#[trigger] done@[j])@ == parts(
                    s@.take(i as int),
                    sep,
                )[j],
            part@ == parts(s@.take(i as int), sep).last(),
        decreases chars.len() - i,
    {
        proof {
            let a = s@.take(i as int);
            let b = s@.take(i + 1);
            assert(b.drop_last() =~= a);
            assert(b.last() == s@[i as int]);
        }
        if chars[i] == sep {
            done.push(part);
            part = String::new();
        } else {
            part.push(chars[i]);
        }
        i += 1;
    }
    assert(s@.take(s@.len() as int) =~= s@);
    done.push(part);
    done
}

// --- glob patterns ----------------------------------------------------------

/// `text` fits `pattern`, where `*` stands for any run of characters and every
/// other character for itself, ignoring ASCII case.
pub open spec fn fits(pattern: Seq<char>, text: Seq<char>) -> bool
    decreases pattern.len() + text.len(),
{
    if pattern.len() == 0 {
        text.len() == 0
    } else if pattern[0] == '*' {
        fits(pattern.skip(1), text) || (text.len() > 0 && fits(pattern, text.skip(1)))
    } else {
        &&& text.len() > 0
        &&& lower(pattern[0]) == lower(text[0])
        &&& fits(pattern.skip(1), text.skip(1))
    }
}

/// `row[j]` says whether the end of `text` from `j` fits `pattern`.
spec fn is_row(row: Seq<bool>, pattern: Seq<char>, text: Seq<char>) -> bool {
    &&& row.len() == text.len() + 1
    &&& forall|j: int| 0 <= j <= text.len() ==> #[trigger] row[j] == fits(pattern, text.skip(j))
}

/// The row for `pattern` with one more character in front.
fn earlier_row(c: char, row: &Vec<bool>, text: &Vec<char>, Ghost(pattern): Ghost<Seq<char>>) -> (res:
    Vec<bool>)
    requires
        pattern.len() > 0,
        pattern[0] == c,
        is_row(row@, pattern.skip(1), text@),
    ensures
        is_row(res@, pattern, text@),
{
    let n = text.len();
    let mut res: Vec<bool> = row.clone();
    let mut j: usize = n;
    assert(res@ =~= row@);
    loop
        invariant
            n == text@.len(),
            j <= n,
            res@.len() == n + 1,
            pattern.len() > 0,
            pattern[0] == c,
            is_row(row@, pattern.skip(1), text@),
            forall|k: int|
                j < k <= n ==> #[trigger] res@[k] == fits(pattern, text@.skip(k)),
        ensures
            res@.len() == n + 1,
            forall|k: int|
                0 <= k <= n ==> #[trigger] res@[k] == fits(pattern, text@.skip(k)),
        decreases j,
    {
        let ghost tail = text@.skip(j as int);
        proof {
            if j < n {
                assert(tail.skip(1) =~= text@.skip(j + 1));
                assert(tail[0] == text@[j as int]);
            }
            assert(row@[j as int] == fits(pattern.skip(1), tail));
        }
        let fit: bool = if c == '*' {
            row[j] || (j < n && res[j + 1])
        } else {
            j < n && lower_char(c) == lower_char(text[j]) && row[j + 1]
        };
        proof {
            if j < n {
                assert(row@[j + 1] == fits(pattern.skip(1), text@.skip(j + 1)));
            }
        }
        res.set(j, fit);
        if j == 0 {
            break;
        }
        j -= 1;
    }
    res
}

/// Whether `text` fits the glob `pattern`.
pub fn glob_match(pattern: &str, text: &str) -> (res: bool)
    ensures
        res == fits(pattern@, text@),
{
    let p = chars_of(pattern);
    let t = chars_of(text);
    let mut row: Vec<bool> = Vec::new();
    let mut j: usize = 0;
    while j < t.len()
        invariant
            j <= t.len(),
            row@.len() == j,
            forall|k: int| 0 <= k < j ==> #[trigger] row@[k] == false,
        decreases t.len() - j,
    {
        row.push(false);
        j += 1;
    }
    row.push(true);
    let mut i: usize = p.len();
    assert(is_row(row@, p@.skip(i as int), t@));
    while i > 0
        invariant
            i <= p.len(),
            is_row(row@, p@.skip(i as int), t@),
        decreases i,
    {
        proof {
            assert(p@.skip(i - 1).skip(1) =~= p@.skip(i as int));
            assert(p@.skip(i - 1)[0] == p@[i - 1]);
        }
        row = earlier_row(p[i - 1], &row, &t, Ghost(p@.skip(i - 1)));
        i -= 1;
    }
    proof {
        assert(p@.skip(0) =~= p@);
        assert(t@.skip(0) =~= t@);
    }
    row[0]
}

// --- ordering ---------------------------------------------------------------

/// `a` comes before `b` in the order of their characters.
pub open spec fn before(a: Seq<char>, b: Seq<char>) -> bool
    decreases a.len(),
{
    if b.len() == 0 {
        false
    } else if a.len() == 0 {
        true
    } else if a[0] != b[0] {
        a[0] < b[0]
    } else {
        before(a.skip(1), b.skip(1))
    }
}

pub proof fn lemma_before_irreflexive(a: Seq<char>)
    ensures
        !before(a, a),
    decreases a.len(),
{
    if a.len() > 0 {
        lemma_before_irreflexive(a.skip(1));
    }
}

pub proof fn lemma_before_transitive(a: Seq<char>, b: Seq<char>, c: Seq<char>)
    requires
        before(a, b),
        before(b, c),
    ensures
        before(a, c),
    decreases a.len(),
{
    if a.len() > 0 && a[0] == b[0] && b[0] == c[0] {
        lemma_before_transitive(a.skip(1), b.skip(1), c.skip(1));
    }
}

pub proof fn lemma_before_total(a: Seq<char>, b: Seq<char>)
    ensures
        before(a, b) || a == b || before(b, a),
    decreases a.len(),
{
    if a.len() == 0 || b.len() == 0 {
        if a.len() == 0 && b.len() == 0 {
            assert(a =~= b);
        }
    } else if a[0] == b[0] {
        lemma_before_total(a.skip(1), b.skip(1));
        if a.skip(1) == b.skip(1) {
            assert(a =~= seq![a[0]] + a.skip(1));
            assert(b =~= seq![b[0]] + b.skip(1));
        }
    }
}

/// Whether `a` comes before `b`.
pub fn is_before(a: &str, b: &str) -> (res: bool)
    ensures
        res == before(a@, b@),
{
    let x = chars_of(a);
    let y = chars_of(b);
    let mut i: usize = 0;
    proof {
        assert(a@.skip(0) =~= a@);
        assert(b@.skip(0) =~= b@);
    }
    while i < x.len() && i < y.len()
        invariant
            x@ == a@,
            y@ == b@,
            i <= x.len(),
            i <= y.len(),
            before(a@, b@) == before(a@.skip(i as int), b@.skip(i as int)),
        decreases x.len() - i,
    {
        proof {
            assert(a@.skip(i as int)[0] == a@[i as int]);
            assert(b@.skip(i as int)[0] == b@[i as int]);
            assert(a@.skip(i as int).skip(1) =~= a@.skip(i + 1));
            assert(b@.skip(i as int).skip(1) =~= b@.skip(i + 1));
        }
        if x[i] != y[i] {
            return x[i] < y[i];
        }
        i += 1;
    }
    i < y.len()
}

// --- numerals ---------------------------------------------------------------

/// The decimal digit for a number below ten.
pub open spec fn digit(n: nat) -> char {
    ('0' as u32 + n) as char
}

/// The decimal numeral of `n`.
pub open spec fn numeral(n: nat) -> Seq<char>
    decreases n,
{
    if n < 10 {
        seq![digit(n)]
    } else {
        numeral(n / 10).push(digit(n % 10))
    }
}

/// The decimal numeral of `n`.
pub fn decimal(n: u64) -> (res: String)
    ensures
        res@ == numeral(n as nat),
    decreases n,
{
    let mut out = if n < 10 {
        String::new()
    } else {
        decimal(n / 10)
    };
    let c = (('0' as u8) + ((n % 10) as u8)) as char;
    out.push(c);
    proof {
        assert(numeral(n as nat) =~= out@);
    }
    out
}

/// One hexadecimal digit: `ten` is the letter for ten.
pub open spec fn hex_digit(n: int, ten: char) -> char {
    if n < 10 {
        ('0' as u32 + n) as char
    } else {
        (ten as u32 + n - 10) as char
    }
}

/// The two hexadecimal digits of a byte.
pub open spec fn hex_byte(b: u8, ten: char) -> Seq<char> {
    seq![hex_digit(b as int / 16, ten), hex_digit(b as int % 16, ten)]
}

fn hex_char(n: u8, ten: u8) -> (res: char)
    requires
        n < 16,
        ten == 'a' as u8 || ten == 'A' as u8,
    ensures
        res == hex_digit(n as int, ten as char),
{
    if n < 10 {
        (('0' as u8) + n) as char
    } else {
        (ten + (n - 10)) as char
    }
}

/// Appends the two hexadecimal digits of `b`, with small letters.
pub fn push_hex_lower(out: &mut String, b: u8)
    ensures
        final(out)@ == old(out)@ + hex_byte(b, 'a'),
{
    out.push(hex_char(b / 16, 'a' as u8));
    out.push(hex_char(b % 16, 'a' as u8));
    proof {
        assert(out@ =~= old(out)@ + hex_byte(b, 'a'));
    }
}

/// Appends the two hexadecimal digits of `b`, with capital letters.
pub fn push_hex_upper(out: &mut String, b: u8)
    ensures
        final(out)@ == old(out)@ + hex_byte(b, 'A'),
{
    out.push(hex_char(b / 16, 'A' as u8));
    out.push(hex_char(b % 16, 'A' as u8));
    proof {
        assert(out@ =~= old(out)@ + hex_byte(b, 'A'));
    }
}

} // verus!
