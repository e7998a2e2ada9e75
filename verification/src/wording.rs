//! What the text primitives promise: trimming, numerals, splitting, order.

use vstd::prelude::*;

use crate::text::{
    before, is_white_space, numeral, parts, trim_end, trim_start, trimmed, without_end_slashes,
};

verus! {

// --- trimming ---------------------------------------------------------------

/// White space and nothing else.
pub open spec fn blank(s: Seq<char>) -> bool {
    forall|i: int| 0 <= i < s.len() ==> is_white_space(#[trigger] s[i])
}

/// No white space at either end.
pub open spec fn tight(s: Seq<char>) -> bool {
    s.len() > 0 ==> !is_white_space(s[0]) && !is_white_space(s[s.len() - 1])
}

/// `t` is what is left of `s` once `a` is taken off its beginning and `b` off
/// its end.
pub open spec fn left_of(s: Seq<char>, a: Seq<char>, t: Seq<char>, b: Seq<char>) -> bool {
    s == a + t + b && blank(a) && blank(b) && tight(t)
}

proof fn lemma_trim_start(a: Seq<char>, t: Seq<char>)
    requires
        blank(a),
        t.len() > 0 ==> !is_white_space(t[0]),
    ensures
        trim_start(a + t) == t,
    decreases a.len(),
{
    let s = a + t;
    if a.len() == 0 {
        assert(s =~= t);
    } else {
        assert(s[0] == a[0]);
        let rest = a.skip(1);
        assert forall|i: int| 0 <= i < rest.len() implies is_white_space(#[trigger] rest[i]) by {
            assert(rest[i] == a[i + 1]);
        }
        assert(s.skip(1) =~= rest + t);
        lemma_trim_start(rest, t);
    }
}

proof fn lemma_trim_end(t: Seq<char>, b: Seq<char>)
    requires
        blank(b),
        t.len() > 0 ==> !is_white_space(t[t.len() - 1]),
    ensures
        trim_end(t + b) == t,
    decreases b.len(),
{
    let s = t + b;
    if b.len() == 0 {
        assert(s =~= t);
    } else {
        assert(s.last() == b[b.len() - 1]);
        let rest = b.drop_last();
        assert forall|i: int| 0 <= i < rest.len() implies is_white_space(#[trigger] rest[i]) by {
            assert(rest[i] == b[i]);
        }
        assert(s.drop_last() =~= t + rest);
        lemma_trim_end(t, rest);
    }
}

proof fn lemma_start_parts(s: Seq<char>) -> (a: Seq<char>)
    ensures
        s == a + trim_start(s),
        blank(a),
        trim_start(s).len() > 0 ==> !is_white_space(trim_start(s)[0]),
    decreases s.len(),
{
    if s.len() > 0 && is_white_space(s[0]) {
        let rest = lemma_start_parts(s.skip(1));
        let a = seq![s[0]] + rest;
        assert(s.skip(1) == rest + trim_start(s));
        assert(s =~= seq![s[0]] + s.skip(1));
        assert(s =~= a + trim_start(s));
        a
    } else {
        assert(s =~= Seq::<char>::empty() + s);
        Seq::empty()
    }
}

proof fn lemma_end_parts(s: Seq<char>) -> (b: Seq<char>)
    ensures
        s == trim_end(s) + b,
        blank(b),
        trim_end(s).len() > 0 ==> !is_white_space(trim_end(s)[trim_end(s).len() - 1]),
    decreases s.len(),
{
    if s.len() > 0 && is_white_space(s.last()) {
        let rest = lemma_end_parts(s.drop_last());
        let b = rest.push(s.last());
        assert(s.drop_last() == trim_end(s) + rest);
        assert(s =~= s.drop_last().push(s.last()));
        assert(s =~= trim_end(s) + b);
        b
    } else {
        assert(s =~= s + Seq::<char>::empty());
        Seq::empty()
    }
}

/// Trimming takes white space off both ends of a text, all of it and nothing
/// else; and there is but one way to do so.
pub proof fn trimming_takes_white_space_off_the_ends(s: Seq<char>)
    ensures
        exists|a: Seq<char>, b: Seq<char>| #[trigger] left_of(s, a, trimmed(s), b),
        forall|a: Seq<char>, t: Seq<char>, b: Seq<char>| #[trigger]
            left_of(s, a, t, b) ==> trimmed(s) == t,
{
    let a = lemma_start_parts(s);
    let rest = trim_start(s);
    let b = lemma_end_parts(rest);
    let t = trim_end(rest);
    if t.len() > 0 {
        assert(t[0] == rest[0]);
    }
    assert(s =~= a + t + b);
    assert(left_of(s, a, trimmed(s), b));
    assert forall|a: Seq<char>, t: Seq<char>, b: Seq<char>| #[trigger]
        left_of(s, a, t, b) implies trimmed(s) == t by {
        if t.len() > 0 {
            assert(s =~= a + (t + b));
            assert((t + b)[0] == t[0]);
            lemma_trim_start(a, t + b);
            lemma_trim_end(t, b);
        } else {
            let all = a + b;
            assert(s =~= all + Seq::<char>::empty());
            assert(blank(all));
            lemma_trim_start(all, Seq::empty());
            lemma_trim_end(Seq::empty(), Seq::empty());
            assert(Seq::<char>::empty() + Seq::<char>::empty() =~= Seq::<char>::empty());
        }
    }
}

/// Trimming what has been trimmed changes nothing more.
pub proof fn trimming_once_is_enough(s: Seq<char>)
    ensures
        trimmed(trimmed(s)) == trimmed(s),
{
    trimming_takes_white_space_off_the_ends(s);
    trimming_takes_white_space_off_the_ends(trimmed(s));
    let t = trimmed(s);
    let (a, b) = choose|a: Seq<char>, b: Seq<char>| #[trigger] left_of(s, a, t, b);
    assert(t =~= Seq::<char>::empty() + t + Seq::<char>::empty());
    assert(left_of(t, Seq::empty(), t, Seq::empty()));
}

/// White space is what Unicode counts as such: the control characters from tab
/// to carriage return, the space and the wider and narrower spaces; no letter,
/// digit or sign of ASCII is among it.
pub proof fn what_shows_is_no_white_space(c: char)
    ensures
        '!' <= c <= '~' ==> !is_white_space(c),
        c == ' ' || c == '\t' || c == '\n' || c == '\r' ==> is_white_space(c),
        c == '\u{a0}' || c == '\u{2003}' || c == '\u{3000}' ==> is_white_space(c),
{
}

/// The slashes at the end of a text are taken off, all of them and nothing else.
pub proof fn end_slashes_are_taken_off(s: Seq<char>)
    ensures
        without_end_slashes(s).len() <= s.len(),
        without_end_slashes(s) == s.take(without_end_slashes(s).len() as int),
        forall|i: int| without_end_slashes(s).len() <= i < s.len() ==> #[trigger] s[i] == '/',
        without_end_slashes(s).len() > 0 ==> without_end_slashes(s).last() != '/',
    decreases s.len(),
{
    if s.len() > 0 && s.last() == '/' {
        let rest = s.drop_last();
        end_slashes_are_taken_off(rest);
        let kept = without_end_slashes(rest);
        assert(rest.take(kept.len() as int) =~= s.take(kept.len() as int));
        assert forall|i: int| kept.len() <= i < s.len() implies #[trigger] s[i] == '/' by {
            if i < rest.len() {
                assert(rest[i] == s[i]);
            }
        }
    } else {
        assert(s.take(s.len() as int) =~= s);
    }
}

// --- numerals ---------------------------------------------------------------

/// The number that decimal digits stand for.
pub open spec fn value_of(digits: Seq<char>) -> int
    decreases digits.len(),
{
    if digits.len() == 0 {
        0
    } else {
        value_of(digits.drop_last()) * 10 + (digits.last() as int - '0' as int)
    }
}

/// A numeral is made of decimal digits, has no zero in front but where it is
/// all, and stands for its number.
pub proof fn a_numeral_stands_for_its_number(n: nat)
    ensures
        value_of(numeral(n)) == n,
        numeral(n).len() > 0,
        forall|i: int| 0 <= i < numeral(n).len() ==> '0' <= #[trigger] numeral(n)[i] <= '9',
        n > 0 ==> numeral(n)[0] != '0',
    decreases n,
{
    reveal_with_fuel(value_of, 2);
    if n < 10 {
        assert(numeral(n).drop_last() =~= Seq::<char>::empty());
    } else {
        let high = numeral(n / 10);
        a_numeral_stands_for_its_number(n / 10);
        assert(numeral(n).drop_last() =~= high);
        assert(numeral(n)[0] == high[0]);
        assert forall|i: int| 0 <= i < numeral(n).len() implies '0' <= #[trigger] numeral(n)[i]
            <= '9' by {
            if i < high.len() {
                assert(numeral(n)[i] == high[i]);
            }
        }
    }
}

// --- splitting --------------------------------------------------------------

/// Texts one after the other, with `sep` between them.
pub open spec fn joined(list: Seq<Seq<char>>, sep: char) -> Seq<char>
    decreases list.len(),
{
    if list.len() == 0 {
        Seq::empty()
    } else if list.len() == 1 {
        list[0]
    } else {
        joined(list.drop_last(), sep).push(sep) + list.last()
    }
}

/// The parts of a text hold no separator, and put together again with
/// separators between them they are the text.
pub proof fn the_parts_make_up_the_text(s: Seq<char>, sep: char)
    ensures
        joined(parts(s, sep), sep) == s,
        parts(s, sep).len() > 0,
        forall|i: int| 0 <= i < parts(s, sep).len() ==> !(#[trigger] parts(s, sep)[i]).contains(sep),
    decreases s.len(),
{
    if s.len() > 0 {
        let rest = parts(s.drop_last(), sep);
        let all = parts(s, sep);
        the_parts_make_up_the_text(s.drop_last(), sep);
        if s.last() == sep {
            assert(all.drop_last() =~= rest);
            assert(all.last() =~= Seq::<char>::empty());
            assert(joined(all, sep) =~= s);
            assert forall|i: int| 0 <= i < all.len() implies !(#[trigger] all[i]).contains(
                sep,
            ) by {
                if i < rest.len() {
                    assert(all[i] == rest[i]);
                }
            }
        } else {
            let last = rest.last().push(s.last());
            assert(all.drop_last() =~= rest.drop_last());
            assert(all.last() == last);
            if rest.len() == 1 {
                assert(joined(all, sep) =~= s);
            } else {
                assert(joined(rest, sep) == joined(rest.drop_last(), sep).push(sep) + rest.last());
                assert(joined(all, sep) == joined(rest.drop_last(), sep).push(sep) + last);
                assert(joined(all, sep) =~= joined(rest, sep).push(s.last()));
                assert(joined(all, sep) =~= s);
            }
            assert forall|i: int| 0 <= i < all.len() implies !(#[trigger] all[i]).contains(
                sep,
            ) by {
                if i < rest.len() - 1 {
                    assert(all[i] == rest[i]);
                } else {
                    let l = rest.last();
                    assert(rest[rest.len() - 1] == l);
                    if last.contains(sep) {
                        let k = choose|k: int| 0 <= k < last.len() && last[k] == sep;
                        if k < l.len() {
                            assert(l[k] == sep);
                            assert(l.contains(sep));
                        }
                    }
                }
            }
        }
    } else {
        assert(s =~= Seq::<char>::empty());
    }
}

// --- order ------------------------------------------------------------------

/// `a` and `b` agree before `i`.
pub open spec fn agree(a: Seq<char>, b: Seq<char>, i: int) -> bool {
    0 <= i <= a.len() && i <= b.len() && a.take(i) == b.take(i)
}

/// Where two texts agree up to a place and differ there, the one with the
/// smaller character comes first; a text comes before any that it begins.
pub proof fn texts_go_by_the_first_difference(a: Seq<char>, b: Seq<char>, i: int)
    requires
        agree(a, b, i),
    ensures
        i < a.len() && i < b.len() && a[i] != b[i] ==> before(a, b) == (a[i] < b[i]),
        i == a.len() && i < b.len() ==> before(a, b),
        i == b.len() ==> !before(a, b),
    decreases i,
{
    if i > 0 {
        assert(a.take(i)[0] == b.take(i)[0]);
        assert(a[0] == b[0]);
        assert(a.skip(1).take(i - 1) =~= a.take(i).skip(1));
        assert(b.skip(1).take(i - 1) =~= b.take(i).skip(1));
        texts_go_by_the_first_difference(a.skip(1), b.skip(1), i - 1);
    }
}

} // verus!
