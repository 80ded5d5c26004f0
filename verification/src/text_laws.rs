//! What the operations on texts are for, stated by how a text is made up.
use vstd::prelude::*;

use crate::text;
use crate::text::{
    all_digits, contains_text, digits_value, find, has_space, is_digit, is_space, join,
    last_occurrence, lines, lower, lower_char, number, occurs_at, pad_left, pad_right,
    parse_number, rfind, rsplit_once, rsplit_text, signed_number, split, split_once,
    starts_with_char, strip_prefix, trim, trim_end, trim_start, trim_start_of,
};

verus! {

// ---------------------------------------------------------------------------
// Characters
// ---------------------------------------------------------------------------

/// White space is what Unicode calls so: tab to carriage return, the blank, next
/// line, the no-break and the other blanks of a width, and the two separators.
pub proof fn law_white_space(c: char)
    ensures
        is_space(c) <==> c == '\t' || c == '\n' || c == '\u{b}' || c == '\u{c}' || c == '\r' || c
            == ' ' || c == '\u{85}' || c == '\u{a0}' || c == '\u{1680}' || ('\u{2000}' <= c && c
            <= '\u{200a}') || c == '\u{2028}' || c == '\u{2029}' || c == '\u{202f}' || c
            == '\u{205f}' || c == '\u{3000}',
{
}

/// Whether a text consists of white space.
pub open spec fn blank(s: Seq<char>) -> bool {
    forall|i: int| 0 <= i < s.len() ==> is_space(#[trigger] s[i])
}

/// Whether a text has no white space at either end.
pub open spec fn tight(s: Seq<char>) -> bool {
    s.len() > 0 ==> !is_space(s[0]) && !is_space(s.last())
}

/// A text holds white space exactly if it is not made of characters other than
/// white space.
pub proof fn law_has_space(s: Seq<char>)
    ensures
        !has_space(s) <==> forall|i: int| 0 <= i < s.len() ==> !is_space(#[trigger] s[i]),
{
}

/// Lower case moves the letters `A` to `Z` by the distance of the cases and leaves
/// every other character where it is.
pub proof fn law_lower_case(s: Seq<char>, i: int)
    requires
        0 <= i < s.len(),
    ensures
        lower(s).len() == s.len(),
        'A' <= s[i] && s[i] <= 'Z' ==> lower(s)[i] as int - s[i] as int == 'a' as int - 'A' as int,
        !('A' <= s[i] && s[i] <= 'Z') ==> lower(s)[i] == s[i],
{
    let c = s[i];
    if 'A' <= c && c <= 'Z' {
        let n = c as u8;
        assert(lower_char(c) == ((n + 32) as u8) as char);
    }
}

// ---------------------------------------------------------------------------
// Cutting
// ---------------------------------------------------------------------------

/// A text without the separator is one piece; a text with it is what stands before
/// the first one, and the pieces of what stands behind it.
pub proof fn law_split(a: Seq<char>, c: char, b: Seq<char>)
    requires
        !a.contains(c),
    ensures
        split(a, c) == seq![a],
        split(a + seq![c] + b, c) == seq![a] + split(b, c),
{
    text::lemma_split_single(a, c);
    text::lemma_split_at(a, c, b);
}

/// A text is cut at the first separator, where there is one.
pub proof fn law_split_once(a: Seq<char>, c: char, b: Seq<char>)
    requires
        !a.contains(c),
    ensures
        split_once(a, c) is None,
        split_once(a + seq![c] + b, c) == Some((a, b)),
{
    let s = a + seq![c] + b;
    text::lemma_find(a, c);
    text::lemma_find_after(a, c, b);
    assert(s.take(a.len() as int) =~= a);
    assert(s.skip(a.len() as int + 1) =~= b);
}

/// From behind, a text is cut at the last separator, where there is one.
pub proof fn law_rsplit_once(a: Seq<char>, c: char, b: Seq<char>)
    requires
        !b.contains(c),
    ensures
        rsplit_once(b, c) is None,
        rsplit_once(a + seq![c] + b, c) == Some((a, b)),
{
    let s = a + seq![c] + b;
    let n = a.len() as int;
    text::lemma_rfind(b, c);
    text::lemma_rfind(s, c);
    assert(s[n] == c);
    assert(s.contains(c));
    let i = rfind(s, c)->0;
    if i > n {
        assert(b[i - n - 1] == s[i]);
        assert(b.contains(c));
    }
    assert(i == n);
    assert(s.take(n) =~= a);
    assert(s.skip(n + 1) =~= b);
}

/// A text of characters other than the line break is one line, and none where it
/// is empty; and a text with a line break is the line before it, without a carriage
/// return at its end, and the lines of the rest.
pub proof fn law_lines(a: Seq<char>, b: Seq<char>)
    requires
        !a.contains('\n'),
    ensures
        lines(a) == if a.len() == 0 {
            Seq::<Seq<char>>::empty()
        } else {
            seq![a]
        },
        lines(a + seq!['\n'] + b) == seq![
            if a.len() > 0 && a.last() == '\r' {
                a.drop_last()
            } else {
                a
            },
        ] + lines(b),
{
    text::lemma_split_single(a, '\n');
    text::lemma_split_at(a, '\n', b);
    text::lemma_split_nonempty(b, '\n');
    let s = a + seq!['\n'] + b;
    let p = split(s, '\n');
    let q = split(b, '\n');
    assert(p == seq![a] + q);
    assert(p.last() == q.last());
    assert(lines(a) =~= if a.len() == 0 {
        Seq::<Seq<char>>::empty()
    } else {
        seq![a]
    });
    let first = if a.len() > 0 && a.last() == '\r' {
        a.drop_last()
    } else {
        a
    };
    assert(lines(s).len() == lines(b).len() + 1);
    assert forall|i: int| 0 <= i < lines(s).len() implies lines(s)[i] == (seq![first] + lines(
        b,
    ))[i] by {
        if i > 0 {
            assert(p[i] == q[i - 1]);
        }
    }
    assert(lines(s) =~= seq![first] + lines(b));
}

/// Trimming takes the white space before and behind away and nothing else.
pub proof fn law_trim(a: Seq<char>, m: Seq<char>, b: Seq<char>)
    requires
        blank(a),
        tight(m),
        blank(b),
    ensures
        trim(a + m + b) == m,
        m.len() > 0 ==> trim_end(a + m + b) == a + m,
        trim_end(m + b) == m,
    decreases a.len(),
{
    lemma_trim_end_blank(m, b);
    if a.len() > 0 {
        let s = a + m + b;
        assert(s[0] == a[0]);
        assert(s.skip(1) =~= a.skip(1) + m + b);
        assert forall|i: int| 0 <= i < a.skip(1).len() implies is_space(#[trigger] a.skip(1)[i]) by {
            assert(a.skip(1)[i] == a[i + 1]);
        }
        law_trim(a.skip(1), m, b);
        if m.len() > 0 {
            lemma_trim_end_blank(a + m, b);
        }
    } else {
        assert(a + m + b =~= m + b);
        assert(a + m =~= m);
        if m.len() > 0 {
            assert((m + b)[0] == m[0]);
            assert(trim_start(m + b) == m + b);
        } else {
            assert(m + b =~= b);
            lemma_trim_start_blank(b);
        }
    }
}

/// White space behind a text that does not end in it.
proof fn lemma_trim_end_blank(m: Seq<char>, b: Seq<char>)
    requires
        m.len() > 0 ==> !is_space(m.last()),
        blank(b),
    ensures
        trim_end(m + b) == m,
    decreases b.len(),
{
    let s = m + b;
    if b.len() > 0 {
        let t = b.drop_last();
        assert forall|i: int| 0 <= i < t.len() implies is_space(#[trigger] t[i]) by {
            assert(t[i] == b[i]);
        }
        assert(s.last() == b[b.len() - 1]);
        assert(s.drop_last() =~= m + t);
        lemma_trim_end_blank(m, t);
    } else {
        assert(s =~= m);
    }
}

/// White space only.
proof fn lemma_trim_start_blank(b: Seq<char>)
    requires
        blank(b),
    ensures
        trim_start(b) == Seq::<char>::empty(),
    decreases b.len(),
{
    if b.len() > 0 {
        assert(is_space(b[0]));
        let t = b.skip(1);
        assert forall|i: int| 0 <= i < t.len() implies is_space(#[trigger] t[i]) by {
            assert(t[i] == b[i + 1]);
        }
        lemma_trim_start_blank(t);
    } else {
        assert(b =~= Seq::<char>::empty());
    }
}

/// Leading occurrences of a character are taken away, all of them and nothing else.
pub proof fn law_trim_start_of(n: nat, c: char, b: Seq<char>)
    requires
        b.len() > 0 ==> b[0] != c,
    ensures
        trim_start_of(Seq::new(n, |i: int| c) + b, c) == b,
    decreases n,
{
    let s = Seq::new(n, |i: int| c) + b;
    if n > 0 {
        let less = Seq::new((n - 1) as nat, |i: int| c) + b;
        assert(s.skip(1) =~= less);
        assert(s[0] == c);
        law_trim_start_of((n - 1) as nat, c, b);
    } else {
        assert(s =~= b);
    }
}

// ---------------------------------------------------------------------------
// Occurrences
// ---------------------------------------------------------------------------

/// What follows a prefix is found exactly where the text begins with it.
pub proof fn law_strip_prefix(s: Seq<char>, p: Seq<char>, rest: Seq<char>)
    ensures
        strip_prefix(s, p) == Some(rest) <==> s == p + rest,
        starts_with_char(s, '#') <==> s.len() > 0 && s[0] == '#',
{
    let n = p.len() as int;
    if strip_prefix(s, p) == Some(rest) {
        assert(s =~= s.subrange(0, n) + s.skip(n));
    }
    if s == p + rest {
        assert(s.subrange(0, n) =~= p);
        assert(s.skip(n) =~= rest);
    }
}

/// A text begins with a character exactly if that is its first one.
pub proof fn law_starts_with(s: Seq<char>, c: char)
    ensures
        starts_with_char(s, c) <==> s.len() > 0 && s[0] == c,
{
}

/// A text occurs in every text that is made with it, and in no other.
pub proof fn law_contains_text(s: Seq<char>, p: Seq<char>)
    ensures
        contains_text(s, p) <==> exists|a: Seq<char>, b: Seq<char>| s == #[trigger] (a + p + b),
{
    if contains_text(s, p) {
        let i = choose|i: int| occurs_at(s, p, i);
        let a = s.take(i);
        let b = s.skip(i + p.len());
        assert(s =~= a + s.subrange(i, i + p.len()) + b);
        assert(s == a + p + b);
    }
    if exists|a: Seq<char>, b: Seq<char>| s == #[trigger] (a + p + b) {
        let (a, b) = choose|a: Seq<char>, b: Seq<char>| s == #[trigger] (a + p + b);
        let i = a.len() as int;
        assert(s.subrange(i, i + p.len()) =~= p);
        assert(occurs_at(s, p, i));
    }
}

/// A text is cut at the last occurrence of another: the halves make it up, and no
/// later cut does; and it is not cut exactly where the other does not occur.
pub proof fn law_rsplit_text(s: Seq<char>, p: Seq<char>)
    ensures
        match rsplit_text(s, p) {
            Some((a, b)) => s == a + p + b && forall|x: Seq<char>, y: Seq<char>|
                s == #[trigger] (x + p + y) ==> x.len() <= a.len(),
            None => forall|x: Seq<char>, y: Seq<char>| s != #[trigger] (x + p + y),
        },
{
    lemma_last_occurrence(s, p, s.len() as int);
    let found = last_occurrence(s, p, s.len() as int);
    assert forall|x: Seq<char>, y: Seq<char>| s == #[trigger] (x + p + y) implies match found {
        Some(i) => x.len() <= i,
        None => false,
    } by {
        let k = x.len() as int;
        assert(s.subrange(k, k + p.len()) =~= p);
        assert(occurs_at(s, p, k));
    }
    if let Some(i) = found {
        assert(s =~= s.take(i) + s.subrange(i, i + p.len()) + s.skip(i + p.len()));
    }
}

/// The last occurrence at or before a position.
proof fn lemma_last_occurrence(s: Seq<char>, p: Seq<char>, i: int)
    ensures
        match last_occurrence(s, p, i) {
            Some(k) => 0 <= k <= i && occurs_at(s, p, k) && forall|j: int|
                k < j <= i ==> !#[trigger] occurs_at(s, p, j),
            None => forall|j: int| j <= i ==> !#[trigger] occurs_at(s, p, j),
        },
    decreases i + 1,
{
    if i >= 0 && !occurs_at(s, p, i) {
        lemma_last_occurrence(s, p, i - 1);
    }
}

// ---------------------------------------------------------------------------
// Numbers
// ---------------------------------------------------------------------------

/// A number below ten is written as its digit; any other as its tenth part and the
/// last digit behind it.
pub proof fn law_number(n: nat, d: nat)
    requires
        d < 10,
    ensures
        number(d).len() == 1,
        number(d)[0] as int == '0' as int + d,
        n > 0 ==> number(10 * n + d) == number(n) + number(d),
        signed_number(n as int) == number(n),
        n > 0 ==> signed_number(-n) == seq!['-'] + number(n),
{
    assert(number(d) =~= seq![text::digit(d)]);
    if n > 0 {
        let m = 10 * n + d;
        assert(m / 10 == n);
        assert(m % 10 == d);
        assert(number(m) =~= number(n) + number(d));
    }
}

/// A number is read back from how it is written, up to the limit and no further.
pub proof fn law_read_number(n: nat, max: nat)
    ensures
        n <= max ==> parse_number(number(n), max) == Some(n),
        n > max ==> parse_number(number(n), max) is None,
{
    text::lemma_number(n);
    assert(is_digit(number(n)[0]));
}

/// Reading a number goes by its digits: a text is read as a number exactly if it
/// consists of digits, at least one, with a plus sign before them or not; each digit
/// counts ten times what stands behind it; and what exceeds the limit is not read.
pub proof fn law_read_digits(s: Seq<char>, d: nat, max: nat)
    requires
        d < 10,
    ensures
        parse_number(s, max) matches Some(n) ==> (10 * n + d <= max ==> parse_number(
            s + number(d),
            max,
        ) == Some((10 * n + d) as nat)) && (10 * n + d > max ==> parse_number(
            s + number(d),
            max,
        ) is None),
        parse_number(Seq::empty(), max) is None,
        parse_number(seq!['+'], max) is None,
        (s.len() == 0 || s[0] != '+') ==> parse_number(seq!['+'] + s, max) == parse_number(s, max),
        (exists|i: int|
            0 <= i < s.len() && !('0' <= #[trigger] s[i] && s[i] <= '9') && !(i == 0 && s[i]
                == '+')) ==> parse_number(s, max) is None,
        parse_number(s, max) matches Some(n) ==> n <= max,
{
    law_number(0, d);
    let t = s + number(d);
    let c = number(d)[0];
    assert(t =~= s.push(c));
    let e = if starts_with_char(s, '+') {
        s.skip(1)
    } else {
        s
    };
    if parse_number(s, max) is Some {
        let f = if starts_with_char(t, '+') {
            t.skip(1)
        } else {
            t
        };
        assert(t[0] == s[0]);
        assert(f =~= e.push(c));
        assert(f.drop_last() =~= e);
        assert(all_digits(f));
        assert(digits_value(f) == digits_value(e) * 10 + d);
    }
    assert(seq!['+'].skip(1).len() == 0);
    if s.len() == 0 || s[0] != '+' {
        let u = seq!['+'] + s;
        assert(u.skip(1) =~= s);
        assert(starts_with_char(u, '+'));
    }
    if exists|i: int|
        0 <= i < s.len() && !('0' <= #[trigger] s[i] && s[i] <= '9') && !(i == 0 && s[i] == '+') {
        let i = choose|i: int|
            0 <= i < s.len() && !('0' <= #[trigger] s[i] && s[i] <= '9') && !(i == 0 && s[i]
                == '+');
        if starts_with_char(s, '+') {
            assert(e[i - 1] == s[i]);
        } else {
            assert(e[i] == s[i]);
        }
        assert(!all_digits(e));
    }
}

/// What is no number does not become one by more digits, unless it was nothing yet.
pub proof fn law_read_beyond(s: Seq<char>, d: nat, max: nat)
    requires
        d < 10,
        s.len() > 0,
        s != seq!['+'],
        parse_number(s, max) is None,
    ensures
        parse_number(s + number(d), max) is None,
{
    law_number(0, d);
    let t = s + number(d);
    let c = number(d)[0];
    assert(t =~= s.push(c));
    if starts_with_char(s, '+') {
        let e = s.skip(1);
        assert(t.skip(1) =~= e.push(c));
        assert(e.len() > 0) by {
            if s.len() == 1 {
                assert(s =~= seq!['+']);
            }
        }
        lemma_read_beyond(e, c, max);
    } else {
        lemma_read_beyond(s, c, max);
    }
}

/// More digits do not make a number smaller.
proof fn lemma_read_beyond(e: Seq<char>, c: char, max: nat)
    requires
        e.len() > 0,
        !(all_digits(e) && text::digits_value(e) <= max),
    ensures
        !(all_digits(e.push(c)) && text::digits_value(e.push(c)) <= max),
{
    let f = e.push(c);
    assert(f.drop_last() =~= e);
    if all_digits(f) {
        assert forall|i: int| 0 <= i < e.len() implies is_digit(#[trigger] e[i]) by {
            assert(f[i] == e[i]);
        }
    }
}

// ---------------------------------------------------------------------------
// Joining and padding
// ---------------------------------------------------------------------------

/// Joining puts the separator between any two neighbours, and nothing else.
pub proof fn law_join(a: Seq<Seq<char>>, b: Seq<Seq<char>>, sep: Seq<char>)
    ensures
        join(Seq::empty(), sep) == Seq::<char>::empty(),
        a.len() == 1 ==> join(a, sep) == a[0],
        a.len() > 0 && b.len() > 0 ==> join(a + b, sep) == join(a, sep) + sep + join(b, sep),
    decreases b.len(),
{
    if a.len() > 0 && b.len() > 0 {
        let s = a + b;
        assert(s.drop_last() =~= a + b.drop_last());
        assert(s.last() == b.last());
        if b.len() > 1 {
            law_join(a, b.drop_last(), sep);
            assert(join(s, sep) =~= join(a, sep) + sep + join(b, sep));
        } else {
            assert(a + b.drop_last() =~= a);
            assert(join(b, sep) == b[0]);
        }
    }
}

/// Joining the pieces by the character that they were cut at gives the text back.
pub proof fn law_join_of_split(s: Seq<char>, c: char)
    ensures
        join(split(s, c), seq![c]) == s,
        forall|i: int| 0 <= i < split(s, c).len() ==> !(#[trigger] split(s, c)[i]).contains(c),
    decreases s.len(),
{
    text::lemma_find(s, c);
    match find(s, c) {
        None => {
            text::lemma_split_single(s, c);
        },
        Some(k) => {
            let a = s.take(k);
            let b = s.skip(k + 1);
            assert(s =~= a + seq![c] + b);
            assert forall|i: int| 0 <= i < a.len() implies a[i] != c by {
                assert(a[i] == s[i]);
            }
            law_split(a, c, b);
            law_join_of_split(b, c);
            text::lemma_split_nonempty(b, c);
            law_join(seq![a], split(b, c), seq![c]);
            let p = split(s, c);
            assert forall|i: int| 0 <= i < p.len() implies !(#[trigger] p[i]).contains(c) by {
                if i > 0 {
                    assert(p[i] == split(b, c)[i - 1]);
                }
            }
        },
    }
}

/// Padding keeps the text, at the left or at the right, fills up with blanks, and
/// never cuts.
pub proof fn law_pad(s: Seq<char>, width: nat)
    ensures
        ({
            let r = pad_right(s, width);
            let l = pad_left(s, width);
            let n = if s.len() < width {
                width
            } else {
                s.len()
            };
            &&& r.len() == n && l.len() == n
            &&& r.take(s.len() as int) == s
            &&& l.skip(n - s.len()) == s
            &&& forall|i: int| s.len() <= i < n ==> #[trigger] r[i] == ' '
            &&& forall|i: int| 0 <= i < n - s.len() ==> #[trigger] l[i] == ' '
        }),
{
    let r = pad_right(s, width);
    let l = pad_left(s, width);
    assert(r.take(s.len() as int) =~= s);
    assert(l.skip(l.len() - s.len()) =~= s);
}

} // verus!
