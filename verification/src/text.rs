//! Text as sequences of characters.
//!
//! Every parser and every message of the library is stated over `Seq<char>`.
//! The specification functions here say what the usual string operations
//! (trimming, splitting, line breaking, number reading, padding) mean; each
//! executable function is proved to compute the one of the same name.
use vstd::prelude::*;

verus! {

/// `String::push` appends one character.
pub assume_specification[ String::push ](s: &mut String, c: char)
    ensures
        final(s)@ == old(s)@.push(c),
;

// ---------------------------------------------------------------------------
// Characters
// ---------------------------------------------------------------------------

/// Whether `c` has the Unicode `White_Space` property.
pub open spec fn is_space(c: char) -> bool {
    let n = c as u32;
    ||| 0x9 <= n <= 0xd
    ||| n == 0x20
    ||| n == 0x85
    ||| n == 0xa0
    ||| n == 0x1680
    ||| 0x2000 <= n <= 0x200a
    ||| n == 0x2028
    ||| n == 0x2029
    ||| n == 0x202f
    ||| n == 0x205f
    ||| n == 0x3000
}

/// Whether `c` is white space, see [`is_space`].
pub fn char_is_space(c: char) -> (b: bool)
    ensures
        b == is_space(c),
{
    let n: u32 = c as u32;
    (0x9 <= n && n <= 0xd) || n == 0x20 || n == 0x85 || n == 0xa0 || n == 0x1680 || (0x2000 <= n
        && n <= 0x200a) || n == 0x2028 || n == 0x2029 || n == 0x202f || n == 0x205f || n == 0x3000
}

/// `c` with an ASCII upper-case letter replaced by its lower-case one.
pub open spec fn lower_char(c: char) -> char {
    if 'A' <= c && c <= 'Z' {
        ((c as u8 + 32) as u8) as char
    } else {
        c
    }
}

/// `c` in ASCII lower case, see [`lower_char`].
pub fn char_lower(c: char) -> (r: char)
    ensures
        r == lower_char(c),
{
    if 'A' <= c && c <= 'Z' {
        let n: u8 = c as u8;
        (n + 32u8) as char
    } else {
        c
    }
}

/// Whether `c` is one of `0` to `9`.
pub open spec fn is_digit(c: char) -> bool {
    '0' <= c && c <= '9'
}

/// The decimal digit that stands for `d`.
pub open spec fn digit(d: nat) -> char {
    (('0' as nat + d) as u8) as char
}

// ---------------------------------------------------------------------------
// Taking text apart and putting it together
// ---------------------------------------------------------------------------

/// The characters of `s`.
pub fn chars_of(s: &str) -> (v: Vec<char>)
    ensures
        v@ == s@,
{
    let mut v: Vec<char> = Vec::new();
    for c in it: s.chars()
        invariant
            v@ == it.seq().take(it.index() as int),
            it.seq() == s@,
    {
        v.push(c);
    }
    v
}

/// The text of `v[from..to]`.
pub fn text_of(v: &Vec<char>, from: usize, to: usize) -> (s: String)
    requires
        from <= to <= v@.len(),
    ensures
        s@ == v@.subrange(from as int, to as int),
{
    let mut s = String::new();
    let mut i: usize = from;
    while i < to
        invariant
            from <= i <= to <= v@.len(),
            s@ == v@.subrange(from as int, i as int),
        decreases to - i,
    {
        s.push(v[i]);
        i = i + 1;
    }
    s
}

/// Whether two texts are the same.
pub fn same(a: &str, b: &str) -> (r: bool)
    ensures
        r == (a@ == b@),
{
    let x = chars_of(a);
    let y = chars_of(b);
    if x.len() != y.len() {
        return false;
    }
    let mut i: usize = 0;
    while i < x.len()
        invariant
            x@ == a@,
            y@ == b@,
            x@.len() == y@.len(),
            i <= x@.len(),
            forall|j: int| 0 <= j < i ==> x@[j] == y@[j],
        decreases x@.len() - i,
    {
        if x[i] != y[i] {
            return false;
        }
        i = i + 1;
    }
    proof {
        assert(a@ =~= b@);
    }
    true
}

/// The first position of `c` in `s`.
pub open spec fn find(s: Seq<char>, c: char) -> Option<int>
    decreases s.len(),
{
    if s.len() == 0 {
        None
    } else {
        match find(s.drop_last(), c) {
            Some(i) => Some(i),
            None => if s.last() == c {
                Some(s.len() - 1)
            } else {
                None
            },
        }
    }
}

/// The last position of `c` in `s`.
pub open spec fn rfind(s: Seq<char>, c: char) -> Option<int>
    decreases s.len(),
{
    if s.len() == 0 {
        None
    } else if s.last() == c {
        Some(s.len() - 1)
    } else {
        rfind(s.drop_last(), c)
    }
}

/// What [`find`] finds: nothing where `c` does not occur, else its first
/// occurrence.
pub proof fn lemma_find(s: Seq<char>, c: char)
    ensures
        match find(s, c) {
            None => !s.contains(c),
            Some(i) => 0 <= i < s.len() && s[i] == c && (forall|j: int| 0 <= j < i ==> s[j] != c),
        },
    decreases s.len(),
{
    if s.len() > 0 {
        let t = s.drop_last();
        lemma_find(t, c);
        match find(t, c) {
            None => {
                assert forall|j: int| 0 <= j < t.len() implies s[j] != c by {
                    assert(t[j] == s[j]);
                    assert(!t.contains(c));
                }
                if s.last() != c {
                    assert forall|j: int| 0 <= j < s.len() implies s[j] != c by {}
                }
            },
            Some(i) => {
                assert(t[i] == s[i]);
                assert forall|j: int| 0 <= j < i implies s[j] != c by {
                    assert(t[j] == s[j]);
                }
            },
        }
    }
}

/// What [`rfind`] finds: nothing where `c` does not occur, else its last
/// occurrence.
pub proof fn lemma_rfind(s: Seq<char>, c: char)
    ensures
        match rfind(s, c) {
            None => !s.contains(c),
            Some(i) => 0 <= i < s.len() && s[i] == c && (forall|j: int|
                i < j < s.len() ==> s[j] != c),
        },
    decreases s.len(),
{
    if s.len() > 0 && s.last() != c {
        let t = s.drop_last();
        lemma_rfind(t, c);
        match rfind(t, c) {
            None => {
                assert forall|j: int| 0 <= j < s.len() implies s[j] != c by {
                    if j < t.len() {
                        assert(t[j] == s[j]);
                        assert(!t.contains(c));
                    }
                }
            },
            Some(i) => {
                assert(t[i] == s[i]);
                assert forall|j: int| i < j < s.len() implies s[j] != c by {
                    if j < t.len() {
                        assert(t[j] == s[j]);
                    }
                }
            },
        }
    }
}

/// `s` cut at the first `c`, which belongs to neither half.
pub open spec fn split_once(s: Seq<char>, c: char) -> Option<(Seq<char>, Seq<char>)> {
    match find(s, c) {
        None => None,
        Some(i) => Some((s.take(i), s.skip(i + 1))),
    }
}

/// `s` cut at the last `c`, which belongs to neither half.
pub open spec fn rsplit_once(s: Seq<char>, c: char) -> Option<(Seq<char>, Seq<char>)> {
    match rfind(s, c) {
        None => None,
        Some(i) => Some((s.take(i), s.skip(i + 1))),
    }
}

/// Cut `s` at the first `c`.
pub fn text_split_once(s: &str, c: char) -> (r: Option<(String, String)>)
    ensures
        r.deep_view() == split_once(s@, c),
{
    let v = chars_of(s);
    let mut i: usize = 0;
    proof {
        assert(v@.take(0) =~= Seq::<char>::empty());
    }
    while i < v.len()
        invariant
            v@ == s@,
            i <= v@.len(),
            find(v@.take(i as int), c) is None,
        decreases v@.len() - i,
    {
        proof {
            assert(v@.take(i + 1).drop_last() =~= v@.take(i as int));
        }
        if v[i] == c {
            proof {
                lemma_find_prefix(v@, c, i + 1);
            }
            let head = text_of(&v, 0, i);
            let tail = text_of(&v, i + 1, v.len());
            return Some((head, tail));
        }
        i = i + 1;
    }
    proof {
        assert(v@.take(v@.len() as int) =~= v@);
    }
    None
}

/// A position found in a prefix is found in the whole.
pub proof fn lemma_find_prefix(s: Seq<char>, c: char, n: int)
    requires
        0 <= n <= s.len(),
        find(s.take(n), c) is Some,
    ensures
        find(s, c) == find(s.take(n), c),
    decreases s.len() - n,
{
    if n < s.len() {
        assert(s.take(n + 1).drop_last() =~= s.take(n));
        lemma_find_prefix(s, c, n + 1);
    } else {
        assert(s.take(n) =~= s);
    }
}

/// Cut `s` at the last `c`.
pub fn text_rsplit_once(s: &str, c: char) -> (r: Option<(String, String)>)
    ensures
        r.deep_view() == rsplit_once(s@, c),
{
    let v = chars_of(s);
    let mut i: usize = v.len();
    proof {
        assert(v@.take(i as int) =~= v@);
    }
    while i > 0
        invariant
            v@ == s@,
            i <= v@.len(),
            rfind(v@, c) == rfind(v@.take(i as int), c),
        decreases i,
    {
        proof {
            assert(v@.take(i as int).drop_last() =~= v@.take(i - 1));
        }
        if v[i - 1] == c {
            let head = text_of(&v, 0, i - 1);
            let tail = text_of(&v, i, v.len());
            return Some((head, tail));
        }
        i = i - 1;
    }
    None
}

/// The pieces of `s` between the occurrences of `c`; one piece where there is
/// none.
pub open spec fn split(s: Seq<char>, c: char) -> Seq<Seq<char>>
    decreases s.len(),
{
    if s.len() == 0 {
        seq![Seq::<char>::empty()]
    } else {
        let before = split(s.drop_last(), c);
        if s.last() == c {
            before.push(Seq::<char>::empty())
        } else {
            before.drop_last().push(before.last().push(s.last()))
        }
    }
}

/// There is always at least one piece.
pub proof fn lemma_split_nonempty(s: Seq<char>, c: char)
    ensures
        split(s, c).len() >= 1,
    decreases s.len(),
{
    if s.len() > 0 {
        lemma_split_nonempty(s.drop_last(), c);
    }
}

/// The pieces of `s` between the occurrences of `c`.
pub fn text_split(s: &str, c: char) -> (r: Vec<String>)
    ensures
        r.deep_view() == split(s@, c),
{
    let v = chars_of(s);
    let mut done: Vec<String> = Vec::new();
    let mut piece = String::new();
    let mut i: usize = 0;
    proof {
        assert(v@.take(0) =~= Seq::<char>::empty());
        assert(done.deep_view().push(piece@) =~= seq![Seq::<char>::empty()]);
    }
    while i < v.len()
        invariant
            v@ == s@,
            i <= v@.len(),
            done.deep_view().push(piece@) == split(v@.take(i as int), c),
        decreases v@.len() - i,
    {
        let ghost before = done.deep_view();
        let ghost last = piece@;
        proof {
            assert(v@.take(i + 1).drop_last() =~= v@.take(i as int));
            assert(before.push(last).drop_last() =~= before);
        }
        if v[i] == c {
            done.push(piece);
            piece = String::new();
            proof {
                assert(done.deep_view() =~= before.push(last));
            }
        } else {
            piece.push(v[i]);
        }
        i = i + 1;
    }
    let ghost before = done.deep_view();
    let ghost last = piece@;
    done.push(piece);
    proof {
        assert(v@.take(v@.len() as int) =~= v@);
        assert(done.deep_view() =~= before.push(last));
    }
    done
}

/// `s` without one trailing carriage return.
pub open spec fn strip_return(s: Seq<char>) -> Seq<char> {
    if s.len() > 0 && s.last() == '\r' {
        s.drop_last()
    } else {
        s
    }
}

/// The lines of `s`. A line ends in `\n` or `\r\n`; the end of the last line
/// may be missing.
pub open spec fn lines(s: Seq<char>) -> Seq<Seq<char>> {
    let p = split(s, '\n');
    let n = if p.last().len() == 0 {
        (p.len() - 1) as nat
    } else {
        p.len()
    };
    Seq::new(
        n,
        |i: int|
            if i < p.len() - 1 {
                strip_return(p[i])
            } else {
                p[i]
            },
    )
}

/// The pieces of a text that goes on after an occurrence of `c`.
proof fn lemma_split_add(a: Seq<char>, b: Seq<char>, c: char)
    requires
        a.len() > 0,
        a.last() == c,
    ensures
        split(a + b, c) == split(a, c).drop_last() + split(b, c),
    decreases b.len(),
{
    lemma_split_nonempty(a.drop_last(), c);
    if b.len() == 0 {
        assert(a + b =~= a);
        assert(split(a, c) =~= split(a, c).drop_last() + split(b, c));
    } else {
        let t = b.drop_last();
        lemma_split_add(a, t, c);
        lemma_split_nonempty(t, c);
        assert((a + b).drop_last() =~= a + t);
        assert((a + b).last() == b.last());
        let before = split(a, c).drop_last();
        let own = split(t, c);
        if b.last() == c {
            assert((before + own).push(Seq::<char>::empty()) =~= before + split(b, c));
        } else {
            let last = own.last().push(b.last());
            assert((before + own).drop_last().push(last) =~= before + split(b, c));
        }
    }
}

/// The lines of two texts, the first of which ends with its line.
pub proof fn lemma_lines_add(a: Seq<char>, b: Seq<char>)
    requires
        a.len() > 0 ==> a.last() == '\n',
    ensures
        lines(a + b) == lines(a) + lines(b),
{
    if a.len() == 0 {
        assert(a + b =~= b);
        assert(lines(a) =~= Seq::<Seq<char>>::empty());
    } else {
        lemma_split_add(a, b, '\n');
        lemma_split_nonempty(a.drop_last(), '\n');
        lemma_split_nonempty(b, '\n');
    }
    assert(lines(a + b) =~= lines(a) + lines(b));
}

/// Remove one trailing carriage return.
pub fn text_strip_return(s: &str) -> (r: String)
    ensures
        r@ == strip_return(s@),
{
    let v = chars_of(s);
    let n: usize = v.len();
    if n > 0 && v[n - 1] == '\r' {
        text_of(&v, 0, n - 1)
    } else {
        text_of(&v, 0, n)
    }
}

/// The lines of `s`.
pub fn text_lines(s: &str) -> (r: Vec<String>)
    ensures
        r.deep_view() == lines(s@),
{
    let pieces = text_split(s, '\n');
    proof {
        lemma_split_nonempty(s@, '\n');
        assert(pieces.deep_view().len() == pieces@.len());
    }
    let ghost p = split(s@, '\n');
    let last: usize = pieces.len() - 1;
    let mut out: Vec<String> = Vec::new();
    let mut i: usize = 0;
    while i < last
        invariant
            p == pieces.deep_view(),
            p.len() == pieces@.len(),
            last == p.len() - 1,
            i <= last,
            out@.len() == i,
            forall|j: int| 0 <= j < i ==> out@[j]@ == strip_return(p[j]),
        decreases last - i,
    {
        let line = text_strip_return(&pieces[i]);
        proof {
            assert(pieces@[i as int]@ == p[i as int]);
        }
        out.push(line);
        i = i + 1;
    }
    proof {
        assert(pieces@[last as int]@ == p[last as int]);
    }
    if !pieces[last].as_str().is_empty() {
        out.push(pieces[last].clone());
    }
    proof {
        assert(out.deep_view() =~= lines(s@));
    }
    out
}

// ---------------------------------------------------------------------------
// Trimming
// ---------------------------------------------------------------------------

/// `s` without leading white space.
pub open spec fn trim_start(s: Seq<char>) -> Seq<char>
    decreases s.len(),
{
    if s.len() > 0 && is_space(s[0]) {
        trim_start(s.skip(1))
    } else {
        s
    }
}

/// `s` without trailing white space.
pub open spec fn trim_end(s: Seq<char>) -> Seq<char>
    decreases s.len(),
{
    if s.len() > 0 && is_space(s.last()) {
        trim_end(s.drop_last())
    } else {
        s
    }
}

/// `s` without white space at either end.
pub open spec fn trim(s: Seq<char>) -> Seq<char> {
    trim_end(trim_start(s))
}

/// Remove white space at both ends.
pub fn text_trim(s: &str) -> (r: String)
    ensures
        r@ == trim(s@),
{
    let v = chars_of(s);
    let n: usize = v.len();
    let mut i: usize = 0;
    proof {
        assert(v@.skip(0) =~= v@);
    }
    while i < n && char_is_space(v[i])
        invariant
            v@ == s@,
            n == v@.len(),
            i <= n,
            trim_start(s@) == trim_start(v@.skip(i as int)),
        decreases n - i,
    {
        proof {
            assert(v@.skip(i as int).skip(1) =~= v@.skip(i + 1));
        }
        i = i + 1;
    }
    let mut k: usize = n;
    proof {
        assert(v@.subrange(i as int, k as int) =~= v@.skip(i as int));
    }
    while k > i && char_is_space(v[k - 1])
        invariant
            v@ == s@,
            i <= k <= v@.len(),
            trim(s@) == trim_end(v@.subrange(i as int, k as int)),
        decreases k,
    {
        proof {
            assert(v@.subrange(i as int, k as int).drop_last() =~= v@.subrange(i as int, k - 1));
        }
        k = k - 1;
    }
    text_of(&v, i, k)
}

/// Remove trailing white space.
pub fn text_trim_end(s: &str) -> (r: String)
    ensures
        r@ == trim_end(s@),
{
    let v = chars_of(s);
    let mut k: usize = v.len();
    proof {
        assert(v@.subrange(0, k as int) =~= v@);
    }
    while k > 0 && char_is_space(v[k - 1])
        invariant
            v@ == s@,
            k <= v@.len(),
            trim_end(s@) == trim_end(v@.subrange(0, k as int)),
        decreases k,
    {
        proof {
            assert(v@.subrange(0, k as int).drop_last() =~= v@.subrange(0, k - 1));
        }
        k = k - 1;
    }
    text_of(&v, 0, k)
}

/// `s` without leading occurrences of `c`.
pub open spec fn trim_start_of(s: Seq<char>, c: char) -> Seq<char>
    decreases s.len(),
{
    if s.len() > 0 && s[0] == c {
        trim_start_of(s.skip(1), c)
    } else {
        s
    }
}

/// Remove leading occurrences of `c`.
pub fn text_trim_start_of(s: &str, c: char) -> (r: String)
    ensures
        r@ == trim_start_of(s@, c),
{
    let v = chars_of(s);
    let n: usize = v.len();
    let mut i: usize = 0;
    proof {
        assert(v@.skip(0) =~= v@);
    }
    while i < n && v[i] == c
        invariant
            v@ == s@,
            n == v@.len(),
            i <= n,
            trim_start_of(s@, c) == trim_start_of(v@.skip(i as int), c),
        decreases n - i,
    {
        proof {
            assert(v@.skip(i as int).skip(1) =~= v@.skip(i + 1));
        }
        i = i + 1;
    }
    proof {
        assert(v@.subrange(i as int, n as int) =~= v@.skip(i as int));
    }
    text_of(&v, i, n)
}

// ---------------------------------------------------------------------------
// Case, prefixes and occurrences
// ---------------------------------------------------------------------------

/// `s` in ASCII lower case.
pub open spec fn lower(s: Seq<char>) -> Seq<char> {
    s.map_values(|c: char| lower_char(c))
}

/// `s` in ASCII lower case.
pub fn text_lower(s: &str) -> (r: String)
    ensures
        r@ == lower(s@),
{
    let v = chars_of(s);
    let mut out = String::new();
    let mut i: usize = 0;
    while i < v.len()
        invariant
            v@ == s@,
            i <= v@.len(),
            out@ == lower(v@.take(i as int)),
        decreases v@.len() - i,
    {
        out.push(char_lower(v[i]));
        i = i + 1;
        proof {
            assert(out@ =~= lower(v@.take(i as int)));
        }
    }
    proof {
        assert(v@.take(v@.len() as int) =~= v@);
    }
    out
}

/// Whether two texts are the same up to the case of ASCII letters.
pub fn same_ignoring_case(a: &str, b: &str) -> (r: bool)
    ensures
        r == (lower(a@) == lower(b@)),
{
    let x = text_lower(a);
    let y = text_lower(b);
    same(&x, &y)
}

/// Whether `s` begins with `c`.
pub open spec fn starts_with_char(s: Seq<char>, c: char) -> bool {
    s.len() > 0 && s[0] == c
}

/// Whether `s` begins with `c`.
pub fn text_starts_with_char(s: &str, c: char) -> (r: bool)
    ensures
        r == starts_with_char(s@, c),
{
    let v = chars_of(s);
    v.len() > 0 && v[0] == c
}

/// Whether `p` stands in `s` at position `i`.
pub open spec fn occurs_at(s: Seq<char>, p: Seq<char>, i: int) -> bool {
    0 <= i && i + p.len() <= s.len() && s.subrange(i, i + p.len()) == p
}

/// Whether `p` stands in `s` at position `i`.
fn chars_occur_at(v: &Vec<char>, p: &Vec<char>, i: usize) -> (r: bool)
    ensures
        r == occurs_at(v@, p@, i as int),
{
    let n: usize = v.len();
    if p.len() > n || i > n - p.len() {
        return false;
    }
    let mut k: usize = 0;
    while k < p.len()
        invariant
            n == v@.len(),
            i + p@.len() <= n,
            k <= p@.len(),
            forall|j: int| 0 <= j < k ==> v@[i + j] == p@[j],
        decreases p@.len() - k,
    {
        if v[i + k] != p[k] {
            proof {
                assert(v@.subrange(i as int, i + p@.len())[k as int] != p@[k as int]);
            }
            return false;
        }
        k = k + 1;
    }
    proof {
        assert(v@.subrange(i as int, i + p@.len()) =~= p@);
    }
    true
}

/// What follows `p` in `s`, where `s` begins with `p`.
pub open spec fn strip_prefix(s: Seq<char>, p: Seq<char>) -> Option<Seq<char>> {
    if occurs_at(s, p, 0) {
        Some(s.skip(p.len() as int))
    } else {
        None
    }
}

/// What follows `p` in `s`, where `s` begins with `p`.
pub fn text_strip_prefix(s: &str, p: &str) -> (r: Option<String>)
    ensures
        r.deep_view() == strip_prefix(s@, p@),
{
    let v = chars_of(s);
    let w = chars_of(p);
    if chars_occur_at(&v, &w, 0) {
        Some(text_of(&v, w.len(), v.len()))
    } else {
        None
    }
}

/// Whether `p` occurs anywhere in `s`.
pub open spec fn contains_text(s: Seq<char>, p: Seq<char>) -> bool {
    exists|i: int| occurs_at(s, p, i)
}

/// Whether `p` occurs anywhere in `s`.
pub fn text_contains(s: &str, p: &str) -> (r: bool)
    ensures
        r == contains_text(s@, p@),
{
    let v = chars_of(s);
    let w = chars_of(p);
    let mut i: usize = 0;
    while i < v.len()
        invariant
            v@ == s@,
            w@ == p@,
            i <= v@.len(),
            forall|j: int| 0 <= j < i ==> !occurs_at(s@, p@, j),
        decreases v@.len() - i,
    {
        if chars_occur_at(&v, &w, i) {
            return true;
        }
        i = i + 1;
    }
    chars_occur_at(&v, &w, i)
}

/// The last position at or before `i` where `p` stands in `s`.
pub open spec fn last_occurrence(s: Seq<char>, p: Seq<char>, i: int) -> Option<int>
    decreases i + 1,
{
    if i < 0 {
        None
    } else if occurs_at(s, p, i) {
        Some(i)
    } else {
        last_occurrence(s, p, i - 1)
    }
}

/// `s` cut at the last occurrence of `p`, which belongs to neither half.
pub open spec fn rsplit_text(s: Seq<char>, p: Seq<char>) -> Option<(Seq<char>, Seq<char>)> {
    match last_occurrence(s, p, s.len() as int) {
        None => None,
        Some(i) => Some((s.take(i), s.skip(i + p.len()))),
    }
}

/// Cut `s` at the last occurrence of `p`.
pub fn text_rsplit_text(s: &str, p: &str) -> (r: Option<(String, String)>)
    ensures
        r.deep_view() == rsplit_text(s@, p@),
{
    let v = chars_of(s);
    let w = chars_of(p);
    let mut i: usize = v.len();
    loop
        invariant
            v@ == s@,
            w@ == p@,
            i <= v@.len(),
            last_occurrence(s@, p@, s@.len() as int) == last_occurrence(s@, p@, i as int),
        decreases i,
    {
        if chars_occur_at(&v, &w, i) {
            let head = text_of(&v, 0, i);
            let n: usize = v.len();
            let tail = text_of(&v, i + w.len(), n);
            return Some((head, tail));
        }
        if i == 0 {
            proof {
                assert(last_occurrence(s@, p@, -1) is None);
            }
            return None;
        }
        i = i - 1;
    }
}

/// Whether `s` holds a white-space character.
pub open spec fn has_space(s: Seq<char>) -> bool {
    exists|i: int| 0 <= i < s.len() && is_space(#[trigger] s[i])
}

/// Whether `s` holds a white-space character.
pub fn text_has_space(s: &str) -> (r: bool)
    ensures
        r == has_space(s@),
{
    let v = chars_of(s);
    let mut i: usize = 0;
    while i < v.len()
        invariant
            v@ == s@,
            i <= v@.len(),
            forall|j: int| 0 <= j < i ==> !is_space(#[trigger] v@[j]),
        decreases v@.len() - i,
    {
        if char_is_space(v[i]) {
            proof {
                assert(is_space(s@[i as int]));
            }
            return true;
        }
        i = i + 1;
    }
    false
}

// ---------------------------------------------------------------------------
// Numbers
// ---------------------------------------------------------------------------

/// Whether `s` consists of decimal digits.
pub open spec fn all_digits(s: Seq<char>) -> bool {
    forall|i: int| 0 <= i < s.len() ==> is_digit(#[trigger] s[i])
}

/// The number that a sequence of decimal digits stands for.
pub open spec fn digits_value(s: Seq<char>) -> nat
    decreases s.len(),
{
    if s.len() == 0 {
        0
    } else {
        digits_value(s.drop_last()) * 10 + (s.last() as nat - '0' as nat) as nat
    }
}

/// The number at most `max` that `s` writes: decimal digits, at least one, with
/// an optional plus sign before them.
pub open spec fn parse_number(s: Seq<char>, max: nat) -> Option<nat> {
    let d = if starts_with_char(s, '+') {
        s.skip(1)
    } else {
        s
    };
    if d.len() > 0 && all_digits(d) && digits_value(d) <= max {
        Some(digits_value(d))
    } else {
        None
    }
}

/// More digits do not make a number smaller.
proof fn lemma_digits_monotone(s: Seq<char>, n: int)
    requires
        0 <= n <= s.len(),
    ensures
        digits_value(s.take(n)) <= digits_value(s),
    decreases s.len() - n,
{
    if n < s.len() {
        assert(s.take(n + 1).drop_last() =~= s.take(n));
        lemma_digits_monotone(s, n + 1);
    } else {
        assert(s.take(n) =~= s);
    }
}

/// Read a number of at most `max`.
pub fn text_parse(s: &str, max: u64) -> (r: Option<u64>)
    ensures
        match r {
            Some(n) => parse_number(s@, max as nat) == Some(n as nat),
            None => parse_number(s@, max as nat) is None,
        },
{
    let v = chars_of(s);
    let from: usize = if v.len() > 0 && v[0] == '+' {
        1
    } else {
        0
    };
    let ghost d = if starts_with_char(s@, '+') {
        s@.skip(1)
    } else {
        s@
    };
    proof {
        assert(d =~= v@.skip(from as int));
        assert(d.take(0) =~= Seq::<char>::empty());
    }
    if v.len() == from {
        return None;
    }
    let mut value: u64 = 0;
    let mut i: usize = from;
    while i < v.len()
        invariant
            v@ == s@,
            from <= i <= v@.len(),
            d == v@.skip(from as int),
            d == (if starts_with_char(s@, '+') {
                s@.skip(1)
            } else {
                s@
            }),
            value <= max,
            value == digits_value(d.take(i - from)),
            forall|j: int| 0 <= j < i - from ==> is_digit(#[trigger] d[j]),
        decreases v@.len() - i,
    {
        let c = v[i];
        let ghost k = i - from;
        proof {
            assert(d[k] == c);
            assert(d.take(k + 1).drop_last() =~= d.take(k));
        }
        if c < '0' || '9' < c {
            return None;
        }
        let one: u64 = (c as u8 - '0' as u8) as u64;
        if value > (u64::MAX - one) / 10 {
            proof {
                lemma_digits_monotone(d, k + 1);
            }
            return None;
        }
        value = value * 10 + one;
        if value > max {
            proof {
                lemma_digits_monotone(d, k + 1);
            }
            return None;
        }
        i = i + 1;
    }
    proof {
        assert(d.take(d.len() as int) =~= d);
    }
    Some(value)
}

/// `n` in decimal.
pub open spec fn number(n: nat) -> Seq<char>
    decreases n,
{
    if n < 10 {
        seq![digit(n)]
    } else {
        number(n / 10).push(digit(n % 10))
    }
}

/// `n` in decimal, with a minus sign before a negative number.
pub open spec fn signed_number(n: int) -> Seq<char> {
    if n < 0 {
        seq!['-'] + number((-n) as nat)
    } else {
        number(n as nat)
    }
}

/// The decimal digit for `d`.
fn char_digit(d: u8) -> (c: char)
    requires
        d < 10,
    ensures
        c == digit(d as nat),
{
    ('0' as u8 + d) as char
}

/// `n` in decimal.
pub fn text_number(n: u64) -> (r: String)
    ensures
        r@ == number(n as nat),
    decreases n,
{
    if n < 10 {
        let mut s = String::new();
        s.push(char_digit(n as u8));
        proof {
            assert(s@ =~= number(n as nat));
        }
        s
    } else {
        let mut s = text_number(n / 10);
        s.push(char_digit((n % 10) as u8));
        s
    }
}

/// `n` in decimal, with its sign.
pub fn text_signed(n: i64) -> (r: String)
    ensures
        r@ == signed_number(n as int),
{
    if n < 0 {
        let mut s = String::new();
        s.push('-');
        proof {
            assert(s@ =~= seq!['-']);
        }
        let magnitude: u64 = if n == i64::MIN {
            0x8000_0000_0000_0000
        } else {
            (-n) as u64
        };
        let digits = text_number(magnitude);
        s.append(&digits);
        s
    } else {
        text_number(n as u64)
    }
}

// ---------------------------------------------------------------------------
// Joining and padding
// ---------------------------------------------------------------------------

/// The texts of `parts` with `sep` between them.
pub open spec fn join(parts: Seq<Seq<char>>, sep: Seq<char>) -> Seq<char>
    decreases parts.len(),
{
    if parts.len() == 0 {
        Seq::<char>::empty()
    } else if parts.len() == 1 {
        parts[0]
    } else {
        join(parts.drop_last(), sep) + sep + parts.last()
    }
}

/// Put `sep` between the texts of `parts`.
pub fn text_join(parts: &Vec<String>, sep: &str) -> (r: String)
    ensures
        r@ == join(parts.deep_view(), sep@),
{
    if parts.len() == 0 {
        return String::new();
    }
    let mut out = parts[0].clone();
    let mut i: usize = 1;
    let ghost p = parts.deep_view();
    proof {
        assert(p.take(1).len() == 1);
    }
    while i < parts.len()
        invariant
            p == parts.deep_view(),
            1 <= i <= parts@.len(),
            out@ == join(p.take(i as int), sep@),
        decreases parts@.len() - i,
    {
        out.append(sep);
        out.append(&parts[i]);
        proof {
            assert(p.take(i + 1).drop_last() =~= p.take(i as int));
            assert(p.take(i + 1).last() == parts@[i as int]@);
        }
        i = i + 1;
    }
    proof {
        assert(p.take(p.len() as int) =~= p);
    }
    out
}

/// `n` blanks.
pub open spec fn blanks(n: nat) -> Seq<char> {
    Seq::new(n, |i: int| ' ')
}

/// `s` filled up with blanks on the right to at least `width` characters.
pub open spec fn pad_right(s: Seq<char>, width: nat) -> Seq<char> {
    if s.len() < width {
        s + blanks((width - s.len()) as nat)
    } else {
        s
    }
}

/// `s` filled up with blanks on the left to at least `width` characters.
pub open spec fn pad_left(s: Seq<char>, width: nat) -> Seq<char> {
    if s.len() < width {
        blanks((width - s.len()) as nat) + s
    } else {
        s
    }
}

/// `n` blanks.
fn text_blanks(n: usize) -> (r: String)
    ensures
        r@ == blanks(n as nat),
{
    let mut s = String::new();
    let mut i: usize = 0;
    while i < n
        invariant
            i <= n,
            s@ =~= blanks(i as nat),
        decreases n - i,
    {
        s.push(' ');
        i = i + 1;
    }
    s
}

/// Fill up with blanks on the right.
pub fn text_pad_right(s: &str, width: usize) -> (r: String)
    ensures
        r@ == pad_right(s@, width as nat),
{
    let n: usize = s.unicode_len();
    let mut out = s.to_owned();
    if n < width {
        let fill = text_blanks(width - n);
        out.append(&fill);
    }
    out
}

/// Fill up with blanks on the left.
pub fn text_pad_left(s: &str, width: usize) -> (r: String)
    ensures
        r@ == pad_left(s@, width as nat),
{
    let n: usize = s.unicode_len();
    if n < width {
        let mut out = text_blanks(width - n);
        out.append(s);
        out
    } else {
        s.to_owned()
    }
}

// ---------------------------------------------------------------------------
// Lists of texts
// ---------------------------------------------------------------------------

/// The empty list of texts.
pub fn no_texts() -> (r: Vec<String>)
    ensures
        r.deep_view() == Seq::<Seq<char>>::empty(),
{
    let r: Vec<String> = Vec::new();
    proof {
        assert(r.deep_view() =~= Seq::<Seq<char>>::empty());
    }
    r
}

/// Add a text to a list.
pub fn push_text(list: &mut Vec<String>, x: &str)
    ensures
        final(list).deep_view() == old(list).deep_view().push(x@),
{
    let ghost before = list.deep_view();
    list.push(x.to_owned());
    proof {
        assert(list.deep_view() =~= before.push(x@));
    }
}

/// The list of one text.
pub fn list_of(a: &str) -> (r: Vec<String>)
    ensures
        r.deep_view() == seq![a@],
{
    let mut r = no_texts();
    push_text(&mut r, a);
    r
}

/// The list of two texts.
pub fn list_of_two(a: &str, b: &str) -> (r: Vec<String>)
    ensures
        r.deep_view() == seq![a@, b@],
{
    let mut r = list_of(a);
    push_text(&mut r, b);
    r
}

/// The list of three texts.
pub fn list_of_three(a: &str, b: &str, c: &str) -> (r: Vec<String>)
    ensures
        r.deep_view() == seq![a@, b@, c@],
{
    let mut r = list_of_two(a, b);
    push_text(&mut r, c);
    r
}

// ---------------------------------------------------------------------------
// Facts about the operations
// ---------------------------------------------------------------------------

/// A number in decimal consists of digits and stands for the number.
pub proof fn lemma_number(n: nat)
    ensures
        number(n).len() > 0,
        all_digits(number(n)),
        digits_value(number(n)) == n,
    decreases n,
{
    if n < 10 {
        assert(number(n).drop_last() =~= Seq::<char>::empty());
        assert(digits_value(number(n).drop_last()) == 0);
    } else {
        lemma_number(n / 10);
        assert(number(n).drop_last() =~= number(n / 10));
        assert forall|i: int| 0 <= i < number(n).len() implies is_digit(#[trigger] number(n)[i]) by {
            if i < number(n / 10).len() {
                assert(number(n)[i] == number(n / 10)[i]);
            }
        }
    }
}

/// Reading a number that was written gives the number.
pub proof fn lemma_parse_number(n: nat, max: nat)
    requires
        n <= max,
    ensures
        parse_number(number(n), max) == Some(n),
{
    lemma_number(n);
    assert(is_digit(number(n)[0]));
}

/// The first occurrence of `c` is the one after a text without it.
pub proof fn lemma_find_after(a: Seq<char>, c: char, b: Seq<char>)
    requires
        !a.contains(c),
    ensures
        find(a + seq![c] + b, c) == Some(a.len() as int),
{
    let s = a + seq![c] + b;
    lemma_find(s, c);
    assert(s[a.len() as int] == c);
    assert(s.contains(c));
    let i = find(s, c)->0;
    if i < a.len() {
        assert(a[i] == s[i]);
        assert(a.contains(c));
    }
}

/// A text without `c` is one piece.
pub proof fn lemma_split_single(s: Seq<char>, c: char)
    requires
        !s.contains(c),
    ensures
        split(s, c) == seq![s],
    decreases s.len(),
{
    if s.len() == 0 {
        assert(s =~= Seq::<char>::empty());
    } else {
        let t = s.drop_last();
        assert forall|i: int| 0 <= i < t.len() implies t[i] != c by {
            assert(s[i] == t[i]);
        }
        lemma_split_single(t, c);
        assert(s[s.len() - 1] == s.last());
        assert(t.push(s.last()) =~= s);
        assert(seq![t].drop_last().push(t.push(s.last())) =~= seq![s]);
    }
}

/// The pieces before and after an occurrence of `c`.
pub proof fn lemma_split_at(a: Seq<char>, c: char, b: Seq<char>)
    ensures
        split(a + seq![c] + b, c) == split(a, c) + split(b, c),
    decreases b.len(),
{
    let s = a + seq![c] + b;
    lemma_split_nonempty(a, c);
    if b.len() == 0 {
        assert(s.drop_last() =~= a);
        assert(split(b, c) =~= seq![Seq::<char>::empty()]);
        assert(split(s, c) =~= split(a, c) + split(b, c));
    } else {
        let t = b.drop_last();
        lemma_split_at(a, c, t);
        lemma_split_nonempty(t, c);
        assert(s.drop_last() =~= a + seq![c] + t);
        assert(s.last() == b.last());
        let x = split(a, c);
        let y = split(t, c);
        assert((x + y).last() == y.last());
        assert((x + y).drop_last() =~= x + y.drop_last());
        assert(split(s, c) =~= split(a, c) + split(b, c));
    }
}

/// A text that begins and ends with characters other than white space is
/// trimmed already.
pub proof fn lemma_trim_fixed(s: Seq<char>)
    requires
        s.len() > 0 ==> !is_space(s[0]) && !is_space(s.last()),
    ensures
        trim(s) == s,
{
}

/// Trimming leaves no white space at either end.
pub proof fn lemma_trimmed(s: Seq<char>)
    ensures
        trim(s).len() > 0 ==> !is_space(trim(s)[0]) && !is_space(trim(s).last()),
    decreases s.len(),
{
    lemma_trim_start(s);
    lemma_trim_end(trim_start(s));
}

proof fn lemma_trim_start(s: Seq<char>)
    ensures
        trim_start(s).len() > 0 ==> !is_space(trim_start(s)[0]),
    decreases s.len(),
{
    if s.len() > 0 && is_space(s[0]) {
        lemma_trim_start(s.skip(1));
    }
}

proof fn lemma_trim_end(s: Seq<char>)
    ensures
        trim_end(s).len() <= s.len(),
        trim_end(s) == s.take(trim_end(s).len() as int),
        trim_end(s).len() > 0 ==> !is_space(trim_end(s).last()),
    decreases s.len(),
{
    if s.len() > 0 && is_space(s.last()) {
        lemma_trim_end(s.drop_last());
        assert(s.drop_last().take(trim_end(s).len() as int) =~= s.take(
            trim_end(s).len() as int,
        ));
    } else {
        assert(s.take(s.len() as int) =~= s);
    }
}

/// Lower case is kept by lowering again.
pub proof fn lemma_lower_again(s: Seq<char>)
    ensures
        lower(lower(s)) == lower(s),
{
    assert forall|i: int| 0 <= i < s.len() implies lower(lower(s))[i] == lower(s)[i] by {
        lemma_lower_char(s[i]);
    }
    assert(lower(lower(s)) =~= lower(s));
}

/// Lowering a character neither makes nor unmakes white space, and is done
/// once.
pub proof fn lemma_lower_char(c: char)
    ensures
        lower_char(lower_char(c)) == lower_char(c),
        is_space(lower_char(c)) == is_space(c),
{
}

} // verus!
