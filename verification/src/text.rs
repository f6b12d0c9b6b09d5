//! Character-level text handling shared by the other modules.
//!
//! Text is modelled as `Seq<char>`, the view of `String` and `str`.
use vstd::prelude::*;
use vstd::string::StringSliceAdditionalSpecFns;

verus! {

broadcast use vstd::seq::group_seq_axioms;

// ─── Conversions ────────────────────────────────────────────────────────────

/// Appends one character to a string (std `String::push`).
/// Trusted: the new contents are the old contents followed by `c`.
#[verifier::external_body]
pub fn push_char(s: &mut String, c: char)
    ensures
        final(s)@ == old(s)@.push(c),
{
    s.push(c);
}

/// Appends a string slice.
pub fn push_str(s: &mut String, t: &str)
    ensures
        final(s)@ == old(s)@ + t@,
{
    let chars = chars_of(t);
    push_chars(s, &chars);
}

/// Appends a sequence of characters.
pub fn push_chars(s: &mut String, t: &Vec<char>)
    ensures
        final(s)@ == old(s)@ + t@,
{
    let ghost start = s@;
    let mut i: usize = 0;
    while i < t.len()
        invariant
            i <= t.len(),
            s@ == start + t@.take(i as int),
        decreases t.len() - i,
    {
        push_char(s, t[i]);
        assert(t@.take(i as int).push(t@[i as int]) =~= t@.take(i + 1));
        i = i + 1;
    }
    assert(t@.take(i as int) =~= t@);
}

/// The characters of a string slice, in order.
pub fn chars_of(s: &str) -> (r: Vec<char>)
    ensures
        r@ == s@,
{
    let mut r: Vec<char> = Vec::new();
    for c in it: s.chars()
        invariant
            it.seq() == s@,
            r@ == it.seq().take(it.index()),
    {
        r.push(c);
    }
    r
}

/// A string holding exactly the given characters.
pub fn string_of(t: &Vec<char>) -> (r: String)
    ensures
        r@ == t@,
{
    let mut r = String::new();
    push_chars(&mut r, t);
    r
}

/// A copy of a string slice as an owned string.
pub fn owned(s: &str) -> (r: String)
    ensures
        r@ == s@,
{
    let mut r = String::new();
    push_str(&mut r, s);
    r
}

/// A copy of a string.
pub fn copy_string(s: &String) -> (r: String)
    ensures
        r@ == s@,
{
    owned(s.as_str())
}

/// A copy of a list of strings.
pub fn copy_strings(v: &Vec<String>) -> (r: Vec<String>)
    ensures
        r@.len() == v@.len(),
        forall|i: int| 0 <= i < v@.len() ==> #[trigger] r@[i]@ == v@[i]@,
{
    let mut r: Vec<String> = Vec::new();
    let mut i: usize = 0;
    while i < v.len()
        invariant
            i <= v.len(),
            r@.len() == i,
            forall|j: int| 0 <= j < i ==> #[trigger] r@[j]@ == v@[j]@,
        decreases v.len() - i,
    {
        r.push(copy_string(&v[i]));
        i = i + 1;
    }
    r
}

/// The views of a list of strings.
pub open spec fn views(v: Seq<String>) -> Seq<Seq<char>> {
    Seq::new(v.len(), |i: int| v[i]@)
}

/// Equality of two strings by their characters.
pub fn same_text(a: &str, b: &str) -> (r: bool)
    ensures
        r == (a@ == b@),
{
    let x = chars_of(a);
    let y = chars_of(b);
    if x.len() != y.len() {
        return false;
    }
    let mut i: usize = 0;
    while i < x.len()
        invariant
            x@ == a@,
            y@ == b@,
            x.len() == y.len(),
            i <= x.len(),
            forall|j: int| 0 <= j < i ==> x@[j] == y@[j],
        decreases x.len() - i,
    {
        if x[i] != y[i] {
            return false;
        }
        i = i + 1;
    }
    assert(x@ =~= y@);
    true
}

// ─── Whitespace ─────────────────────────────────────────────────────────────

/// The characters with the Unicode `White_Space` property, which is what
/// `char::is_whitespace` tests.
pub open spec fn is_ws(c: char) -> bool {
    ||| ('\u{9}' <= c && c <= '\u{d}')
    ||| c == ' '
    ||| c == '\u{85}'
    ||| c == '\u{a0}'
    ||| c == '\u{1680}'
    ||| ('\u{2000}' <= c && c <= '\u{200a}')
    ||| c == '\u{2028}'
    ||| c == '\u{2029}'
    ||| c == '\u{202f}'
    ||| c == '\u{205f}'
    ||| c == '\u{3000}'
}

/// Executable form of [`is_ws`].
pub fn char_is_ws(c: char) -> (r: bool)
    ensures
        r == is_ws(c),
{
    ('\u{9}' <= c && c <= '\u{d}') || c == ' ' || c == '\u{85}' || c == '\u{a0}' || c == '\u{1680}'
        || ('\u{2000}' <= c && c <= '\u{200a}') || c == '\u{2028}' || c == '\u{2029}' || c
        == '\u{202f}' || c == '\u{205f}' || c == '\u{3000}'
}

// ─── Decimal numbers ────────────────────────────────────────────────────────

/// The ASCII digit for `d` (0..=9).
pub open spec fn digit_char(d: int) -> char {
    if d == 0 {
        '0'
    } else if d == 1 {
        '1'
    } else if d == 2 {
        '2'
    } else if d == 3 {
        '3'
    } else if d == 4 {
        '4'
    } else if d == 5 {
        '5'
    } else if d == 6 {
        '6'
    } else if d == 7 {
        '7'
    } else if d == 8 {
        '8'
    } else {
        '9'
    }
}

/// The value of an ASCII digit.
pub open spec fn digit_value(c: char) -> int {
    if c == '1' {
        1
    } else if c == '2' {
        2
    } else if c == '3' {
        3
    } else if c == '4' {
        4
    } else if c == '5' {
        5
    } else if c == '6' {
        6
    } else if c == '7' {
        7
    } else if c == '8' {
        8
    } else if c == '9' {
        9
    } else {
        0
    }
}

/// The decimal notation of `n`, as `{}` formats an unsigned integer.
pub open spec fn decimal(n: nat) -> Seq<char>
    decreases n,
{
    if n < 10 {
        seq![digit_char(n as int)]
    } else {
        decimal(n / 10).push(digit_char((n % 10) as int))
    }
}

/// The number that a string of ASCII digits denotes.
pub open spec fn digits_value(s: Seq<char>) -> int
    decreases s.len(),
{
    if s.len() == 0 {
        0
    } else {
        digits_value(s.drop_last()) * 10 + digit_value(s.last())
    }
}

/// `n` padded with zeros to at least two digits, as `{:02}` formats it.
pub open spec fn pad2(n: nat) -> Seq<char> {
    if n < 10 {
        seq!['0'] + decimal(n)
    } else {
        decimal(n)
    }
}

fn digit_of(d: u64) -> (c: char)
    requires
        d < 10,
    ensures
        c == digit_char(d as int),
{
    if d == 0 {
        '0'
    } else if d == 1 {
        '1'
    } else if d == 2 {
        '2'
    } else if d == 3 {
        '3'
    } else if d == 4 {
        '4'
    } else if d == 5 {
        '5'
    } else if d == 6 {
        '6'
    } else if d == 7 {
        '7'
    } else if d == 8 {
        '8'
    } else {
        '9'
    }
}

/// The decimal digits of `n`.
pub fn decimal_chars(n: u64) -> (r: Vec<char>)
    ensures
        r@ == decimal(n as nat),
    decreases n,
{
    if n < 10 {
        let mut v: Vec<char> = Vec::new();
        v.push(digit_of(n));
        v
    } else {
        let mut v = decimal_chars(n / 10);
        v.push(digit_of(n % 10));
        v
    }
}

/// Appends the decimal notation of `n`.
pub fn push_decimal(s: &mut String, n: u64)
    ensures
        final(s)@ == old(s)@ + decimal(n as nat),
{
    let d = decimal_chars(n);
    push_chars(s, &d);
}

/// Appends `n` padded to two digits.
pub fn push_pad2(s: &mut String, n: u64)
    ensures
        final(s)@ == old(s)@ + pad2(n as nat),
{
    if n < 10 {
        push_char(s, '0');
        let ghost mid = s@;
        push_decimal(s, n);
        assert(s@ =~= old(s)@ + pad2(n as nat));
    } else {
        push_decimal(s, n);
    }
}

/// The decimal notation reads back as the number it was made from, and has
/// no leading zero except for zero itself.
pub proof fn lemma_decimal_reads_back(n: nat)
    ensures
        digits_value(decimal(n)) == n,
        decimal(n).len() >= 1,
        decimal(n)[0] == '0' ==> n == 0,
        forall|i: int| 0 <= i < decimal(n).len() ==> '0' <= #[trigger] decimal(n)[i] <= '9',
    decreases n,
{
    let d = decimal(n);
    if n < 10 {
        assert(d =~= seq![digit_char(n as int)]);
        assert(d.drop_last() =~= Seq::<char>::empty());
        assert(digits_value(d.drop_last()) == 0);
        assert(digit_value(d.last()) == n);
    } else {
        lemma_decimal_reads_back(n / 10);
        assert(d.drop_last() =~= decimal(n / 10));
        assert(d[0] == decimal(n / 10)[0]);
        assert(digit_value(d.last()) == n % 10);
        assert(digits_value(d) == digits_value(d.drop_last()) * 10 + digit_value(d.last()));
    }
}

// ─── Character classes, trimming ───────────────────────────────────────────

/// A class of characters that text is trimmed or split by.
pub enum CharClass {
    Whitespace,
    NotWhitespace,
    Is(char),
}

/// Membership in a character class.
pub open spec fn in_class(cl: CharClass, c: char) -> bool {
    match cl {
        CharClass::Whitespace => is_ws(c),
        CharClass::NotWhitespace => !is_ws(c),
        CharClass::Is(x) => c == x,
    }
}

fn class_has(cl: &CharClass, c: char) -> (r: bool)
    ensures
        r == in_class(*cl, c),
{
    match cl {
        CharClass::Whitespace => char_is_ws(c),
        CharClass::NotWhitespace => !char_is_ws(c),
        CharClass::Is(x) => c == *x,
    }
}

/// How many characters at the start of `s` are in `cl`.
pub open spec fn lead_len(s: Seq<char>, cl: CharClass) -> nat
    decreases s.len(),
{
    if s.len() > 0 && in_class(cl, s[0]) {
        1 + lead_len(s.drop_first(), cl)
    } else {
        0
    }
}

/// How many characters at the end of `s` are in `cl`.
pub open spec fn trail_len(s: Seq<char>, cl: CharClass) -> nat
    decreases s.len(),
{
    if s.len() > 0 && in_class(cl, s.last()) {
        1 + trail_len(s.drop_last(), cl)
    } else {
        0
    }
}

/// `s` without its leading and trailing characters of class `cl`
/// (`str::trim` for whitespace, `str::trim_matches` for one character).
pub open spec fn trim_class(s: Seq<char>, cl: CharClass) -> Seq<char> {
    let a = s.skip(lead_len(s, cl) as int);
    a.take(a.len() - trail_len(a, cl))
}

/// `str::trim`.
pub open spec fn trim(s: Seq<char>) -> Seq<char> {
    trim_class(s, CharClass::Whitespace)
}

/// `str::trim_start`.
pub open spec fn trim_start(s: Seq<char>) -> Seq<char> {
    s.skip(lead_len(s, CharClass::Whitespace) as int)
}

pub proof fn lemma_lead_len_bound(s: Seq<char>, cl: CharClass)
    ensures
        lead_len(s, cl) <= s.len(),
        forall|j: int| 0 <= j < lead_len(s, cl) ==> in_class(cl, #[trigger] s[j]),
        lead_len(s, cl) < s.len() ==> !in_class(cl, s[lead_len(s, cl) as int]),
    decreases s.len(),
{
    if s.len() > 0 && in_class(cl, s[0]) {
        lemma_lead_len_bound(s.drop_first(), cl);
        assert forall|j: int| 0 <= j < lead_len(s, cl) implies in_class(cl, #[trigger] s[j]) by {
            if j > 0 {
                assert(s[j] == s.drop_first()[j - 1]);
            }
        }
    }
}

pub proof fn lemma_trail_len_bound(s: Seq<char>, cl: CharClass)
    ensures
        trail_len(s, cl) <= s.len(),
        forall|j: int|
            s.len() - trail_len(s, cl) <= j < s.len() ==> in_class(cl, #[trigger] s[j]),
        trail_len(s, cl) < s.len() ==> !in_class(cl, s[s.len() - trail_len(s, cl) - 1]),
    decreases s.len(),
{
    if s.len() > 0 && in_class(cl, s.last()) {
        lemma_trail_len_bound(s.drop_last(), cl);
        assert forall|j: int|
            s.len() - trail_len(s, cl) <= j < s.len() implies in_class(cl, #[trigger] s[j]) by {
            if j < s.len() - 1 {
                assert(s[j] == s.drop_last()[j]);
            }
        }
    }
}

/// Counts the characters of class `cl` that start `v[from..]`.
pub fn count_lead(v: &Vec<char>, from: usize, cl: &CharClass) -> (k: usize)
    requires
        from <= v.len(),
    ensures
        k == lead_len(v@.skip(from as int), *cl),
        from + k <= v.len(),
{
    let mut i = from;
    while i < v.len() && class_has(cl, v[i])
        invariant
            from <= i <= v.len(),
            lead_len(v@.skip(from as int), *cl) == (i - from) + lead_len(v@.skip(i as int), *cl),
        decreases v.len() - i,
    {
        assert(v@.skip(i as int).drop_first() =~= v@.skip(i + 1));
        i = i + 1;
    }
    i - from
}

/// Counts the characters of class `cl` that end `v[..to]`.
pub fn count_trail(v: &Vec<char>, to: usize, cl: &CharClass) -> (k: usize)
    requires
        to <= v.len(),
    ensures
        k == trail_len(v@.take(to as int), *cl),
        k <= to,
{
    let mut j = to;
    while j > 0 && class_has(cl, v[j - 1])
        invariant
            j <= to <= v.len(),
            trail_len(v@.take(to as int), *cl) == (to - j) + trail_len(v@.take(j as int), *cl),
        decreases j,
    {
        assert(v@.take(j as int).drop_last() =~= v@.take(j - 1));
        j = j - 1;
    }
    to - j
}

/// The characters `v[a..b]`.
pub fn slice_chars(v: &Vec<char>, a: usize, b: usize) -> (r: Vec<char>)
    requires
        a <= b <= v.len(),
    ensures
        r@ == v@.subrange(a as int, b as int),
{
    let mut r: Vec<char> = Vec::new();
    let mut i = a;
    while i < b
        invariant
            a <= i <= b <= v.len(),
            r@ == v@.subrange(a as int, i as int),
        decreases b - i,
    {
        r.push(v[i]);
        assert(v@.subrange(a as int, i as int).push(v@[i as int]) =~= v@.subrange(
            a as int,
            i + 1,
        ));
        i = i + 1;
    }
    r
}

/// `v` trimmed of the characters of class `cl` at both ends.
pub fn trim_chars(v: &Vec<char>, cl: &CharClass) -> (r: Vec<char>)
    ensures
        r@ == trim_class(v@, *cl),
{
    let lead: usize = count_lead(v, 0, cl);
    assert(v@.skip(0) =~= v@);
    let a = slice_chars(v, lead, v.len());
    assert(a@ =~= v@.skip(lead as int));
    let t: usize = count_trail(&a, a.len(), cl);
    assert(a@.take(a.len() as int) =~= a@);
    let r = slice_chars(&a, 0, a.len() - t);
    assert(r@ =~= a@.take(a@.len() - t));
    r
}

// ─── Prefixes and infixes ───────────────────────────────────────────────────

/// `str::starts_with`.
pub open spec fn has_prefix(s: Seq<char>, p: Seq<char>) -> bool {
    p.len() <= s.len() && s.take(p.len() as int) =~= p
}

/// `str::contains` for a string pattern.
pub open spec fn has_infix(s: Seq<char>, p: Seq<char>) -> bool {
    exists|i: int| 0 <= i && i + p.len() <= s.len() && #[trigger] s.subrange(i, i + p.len()) == p
}

/// Whether `v[at..]` starts with `p`.
pub fn matches_at(v: &Vec<char>, at: usize, p: &Vec<char>) -> (r: bool)
    requires
        at <= v.len(),
    ensures
        r == (at + p.len() <= v.len() && v@.subrange(at as int, at + p.len()) == p@),
{
    if p.len() > v.len() - at {
        return false;
    }
    let mut i: usize = 0;
    while i < p.len()
        invariant
            at + p.len() <= v.len(),
            i <= p.len(),
            forall|j: int| 0 <= j < i ==> v@[at + j] == p@[j],
        decreases p.len() - i,
    {
        if v[at + i] != p[i] {
            assert(v@.subrange(at as int, at + p.len())[i as int] != p@[i as int]);
            return false;
        }
        i = i + 1;
    }
    assert(v@.subrange(at as int, at + p.len()) =~= p@);
    true
}

/// Whether `v` starts with `p`.
pub fn starts_with_chars(v: &Vec<char>, p: &Vec<char>) -> (r: bool)
    ensures
        r == has_prefix(v@, p@),
{
    let r = matches_at(v, 0, p);
    proof {
        if p.len() <= v.len() {
            assert(v@.take(p.len() as int) =~= v@.subrange(0, p.len() as int));
        }
    }
    r
}

/// Whether `p` occurs in `v`.
pub fn contains_chars(v: &Vec<char>, p: &Vec<char>) -> (r: bool)
    ensures
        r == has_infix(v@, p@),
{
    if p.len() > v.len() {
        return false;
    }
    if p.len() == 0 {
        assert(v@.subrange(0, 0 + p@.len() as int) =~= p@);
        return true;
    }
    let mut i: usize = 0;
    while i <= v.len() - p.len()
        invariant
            0 < p.len() <= v.len(),
            i <= v.len() - p.len() + 1,
            forall|j: int| 0 <= j < i ==> #[trigger] v@.subrange(j, j + p.len()) != p@,
        decreases v.len() - p.len() + 1 - i,
    {
        if matches_at(v, i, p) {
            return true;
        }
        i = i + 1;
    }
    false
}

// ─── Searching and splitting ────────────────────────────────────────────────

/// The position of the first `c` in `s`, or -1 when there is none.
pub open spec fn first_index(s: Seq<char>, c: char) -> int
    decreases s.len(),
{
    if s.len() == 0 {
        -1
    } else if s[0] == c {
        0
    } else {
        let r = first_index(s.drop_first(), c);
        if r < 0 {
            -1
        } else {
            r + 1
        }
    }
}

pub proof fn lemma_first_index(s: Seq<char>, c: char)
    ensures
        -1 <= first_index(s, c) < s.len(),
        first_index(s, c) >= 0 ==> s[first_index(s, c)] == c,
        forall|j: int|
            0 <= j < s.len() && (first_index(s, c) < 0 || j < first_index(s, c)) ==> #[trigger] s[j]
                != c,
    decreases s.len(),
{
    if s.len() > 0 && s[0] != c {
        lemma_first_index(s.drop_first(), c);
        assert forall|j: int|
            0 <= j < s.len() && (first_index(s, c) < 0 || j < first_index(s, c)) implies #[trigger] s[j]
            != c by {
            if j > 0 {
                assert(s[j] == s.drop_first()[j - 1]);
            }
        }
    }
}

/// A position is the first `c` when `c` stands there and nowhere before.
pub proof fn lemma_first_index_at(s: Seq<char>, c: char, k: int)
    requires
        k == -1 || (0 <= k < s.len() && s[k] == c),
        forall|j: int| 0 <= j < s.len() && (k == -1 || j < k) ==> s[j] != c,
    ensures
        first_index(s, c) == k,
{
    lemma_first_index(s, c);
    let f = first_index(s, c);
    if f >= 0 {
        assert(s[f] == c);
    } else if 0 <= k < s.len() {
        assert(s[k] == c);
    }
}

/// Finds the first `c` in `v[from..]`.
pub fn find_char(v: &Vec<char>, from: usize, c: char) -> (r: Option<usize>)
    requires
        from <= v.len(),
    ensures
        match r {
            Some(k) => from <= k < v.len() && first_index(v@.skip(from as int), c) == k - from,
            None => first_index(v@.skip(from as int), c) == -1,
        },
{
    let mut i = from;
    while i < v.len()
        invariant
            from <= i <= v.len(),
            forall|j: int| from <= j < i ==> v@[j] != c,
        decreases v.len() - i,
    {
        if v[i] == c {
            proof {
                lemma_first_index_at(v@.skip(from as int), c, i - from);
            }
            return Some(i);
        }
        i = i + 1;
    }
    proof {
        lemma_first_index_at(v@.skip(from as int), c, -1);
    }
    None
}

/// `s` without one trailing carriage return.
pub open spec fn strip_cr(s: Seq<char>) -> Seq<char> {
    if s.len() > 0 && s.last() == '\r' {
        s.drop_last()
    } else {
        s
    }
}

/// `str::lines`: the pieces between line feeds, each without its line
/// ending (`\n` or `\r\n`); a final line ending adds no empty line.
pub open spec fn lines(s: Seq<char>) -> Seq<Seq<char>>
    decreases s.len(),
{
    if s.len() == 0 {
        seq![]
    } else {
        let k = first_index(s, '\n');
        if k < 0 {
            seq![s]
        } else {
            proof {
                lemma_first_index(s, '\n');
            }
            seq![strip_cr(s.take(k))] + lines(s.skip(k + 1))
        }
    }
}

/// The pieces of `s` between occurrences of `c` (`str::split` by a char).
pub open spec fn split_on(s: Seq<char>, c: char) -> Seq<Seq<char>>
    decreases s.len(),
{
    let k = first_index(s, c);
    if k < 0 {
        seq![s]
    } else {
        proof {
            lemma_first_index(s, c);
        }
        seq![s.take(k)] + split_on(s.skip(k + 1), c)
    }
}

/// The views of a list of character vectors.
pub open spec fn char_views(v: Seq<Vec<char>>) -> Seq<Seq<char>> {
    Seq::new(v.len(), |i: int| v[i]@)
}

/// `v` without one trailing carriage return.
pub fn strip_cr_chars(v: Vec<char>) -> (r: Vec<char>)
    ensures
        r@ == strip_cr(v@),
{
    let mut v = v;
    if v.len() > 0 && v[v.len() - 1] == '\r' {
        v.pop();
    }
    v
}

/// The lines of `v`, as `str::lines` gives them.
pub fn lines_of(v: &Vec<char>) -> (r: Vec<Vec<char>>)
    ensures
        char_views(r@) == lines(v@),
{
    let mut out: Vec<Vec<char>> = Vec::new();
    let mut start: usize = 0;
    assert(v@.skip(0) =~= v@);
    while start < v.len()
        invariant
            start <= v.len(),
            char_views(out@) + lines(v@.skip(start as int)) == lines(v@),
        decreases v.len() - start,
    {
        let ghost rest = v@.skip(start as int);
        let ghost before = char_views(out@);
        match find_char(v, start, '\n') {
            Some(k) => {
                let piece = slice_chars(v, start, k);
                let line = strip_cr_chars(piece);
                assert(rest.take(k - start) =~= v@.subrange(start as int, k as int));
                assert(rest.skip(k - start + 1) =~= v@.skip(k + 1));
                out.push(line);
                assert(char_views(out@) =~= before.push(line@));
                assert(lines(rest) =~= seq![line@] + lines(v@.skip(k + 1)));
                assert(before + lines(rest) =~= char_views(out@) + lines(v@.skip(k + 1)));
                start = k + 1;
            },
            None => {
                let piece = slice_chars(v, start, v.len());
                assert(piece@ =~= rest);
                out.push(piece);
                assert(char_views(out@) =~= before.push(piece@));
                assert(v@.skip(v.len() as int) =~= Seq::<char>::empty());
                assert(lines(rest) =~= seq![rest]);
                assert(char_views(out@) + lines(v@.skip(v.len() as int)) =~= before + lines(rest));
                start = v.len();
            },
        }
    }
    assert(v@.skip(start as int) =~= Seq::<char>::empty());
    assert(char_views(out@) + lines(v@.skip(start as int)) =~= char_views(out@));
    out
}

/// The pieces of `v` between occurrences of `c`.
pub fn split_chars(v: &Vec<char>, c: char) -> (r: Vec<Vec<char>>)
    ensures
        char_views(r@) == split_on(v@, c),
{
    let mut out: Vec<Vec<char>> = Vec::new();
    let mut start: usize = 0;
    assert(v@.skip(0) =~= v@);
    loop
        invariant
            start <= v.len(),
            char_views(out@) + split_on(v@.skip(start as int), c) == split_on(v@, c),
        ensures
            char_views(out@) == split_on(v@, c),
        decreases v.len() - start,
    {
        let ghost rest = v@.skip(start as int);
        let ghost before = char_views(out@);
        match find_char(v, start, c) {
            Some(k) => {
                let piece = slice_chars(v, start, k);
                assert(rest.take(k - start) =~= piece@);
                assert(rest.skip(k - start + 1) =~= v@.skip(k + 1));
                out.push(piece);
                assert(char_views(out@) =~= before.push(piece@));
                assert(split_on(rest, c) =~= seq![piece@] + split_on(v@.skip(k + 1), c));
                assert(before + split_on(rest, c) =~= char_views(out@) + split_on(
                    v@.skip(k + 1),
                    c,
                ));
                start = k + 1;
            },
            None => {
                let piece = slice_chars(v, start, v.len());
                assert(piece@ =~= rest);
                out.push(piece);
                assert(char_views(out@) =~= before.push(piece@));
                assert(split_on(rest, c) =~= seq![rest]);
                assert(char_views(out@) =~= before + split_on(rest, c));
                return out;
            },
        }
    }
}

/// `str::split_whitespace`: the maximal runs of non-whitespace characters.
pub open spec fn words(s: Seq<char>) -> Seq<Seq<char>>
    decreases s.len(),
{
    if s.len() == 0 {
        seq![]
    } else if is_ws(s[0]) {
        words(s.drop_first())
    } else {
        let w = lead_len(s, CharClass::NotWhitespace);
        proof {
            lemma_lead_len_bound(s, CharClass::NotWhitespace);
            assert(s.drop_first().len() < s.len());
        }
        seq![s.take(w as int)] + words(s.skip(w as int))
    }
}

/// The whitespace-separated words of `v`.
pub fn words_of(v: &Vec<char>) -> (r: Vec<Vec<char>>)
    ensures
        char_views(r@) == words(v@),
{
    let mut out: Vec<Vec<char>> = Vec::new();
    let mut i: usize = 0;
    assert(v@.skip(0) =~= v@);
    while i < v.len()
        invariant
            i <= v.len(),
            char_views(out@) + words(v@.skip(i as int)) == words(v@),
        decreases v.len() - i,
    {
        let ghost rest = v@.skip(i as int);
        let ghost before = char_views(out@);
        if char_is_ws(v[i]) {
            assert(rest.drop_first() =~= v@.skip(i + 1));
            i = i + 1;
        } else {
            let w: usize = count_lead(v, i, &CharClass::NotWhitespace);
            proof {
                lemma_lead_len_bound(rest, CharClass::NotWhitespace);
            }
            assert(rest[0] == v@[i as int]);
            assert(w >= 1);
            let piece = slice_chars(v, i, i + w);
            assert(rest.take(w as int) =~= piece@);
            assert(rest.skip(w as int) =~= v@.skip(i + w));
            out.push(piece);
            assert(char_views(out@) =~= before.push(piece@));
            assert(words(rest) =~= seq![piece@] + words(v@.skip(i + w)));
            assert(before + words(rest) =~= char_views(out@) + words(v@.skip(i + w)));
            i = i + w;
        }
    }
    assert(v@.skip(i as int) =~= Seq::<char>::empty());
    assert(char_views(out@) + words(v@.skip(i as int)) =~= char_views(out@));
    out
}

// ─── Paths ──────────────────────────────────────────────────────────────────

/// The last name among `/`-separated segments, skipping empty and `.`
/// segments; none when that name is `..` or there is no segment left.
pub open spec fn last_name(g: Seq<Seq<char>>) -> Option<Seq<char>>
    decreases g.len(),
{
    if g.len() == 0 {
        None
    } else if g.last().len() == 0 || g.last() == seq!['.'] {
        last_name(g.drop_last())
    } else if g.last() == seq!['.', '.'] {
        None
    } else {
        Some(g.last())
    }
}

/// `Path::file_name` on a Unix path: the final component when it is a
/// normal name.
pub open spec fn file_name(p: Seq<char>) -> Option<Seq<char>> {
    last_name(split_on(p, '/'))
}

/// The file name of a path, or the path itself when it has none
/// (`file_name().and_then(to_str).unwrap_or(path)`).
pub open spec fn display_name(p: Seq<char>) -> Seq<char> {
    match file_name(p) {
        Some(n) => n,
        None => p,
    }
}

/// The final normal component of `path`.
pub fn file_name_of(path: &str) -> (r: Option<String>)
    ensures
        match r {
            Some(n) => file_name(path@) == Some(n@),
            None => file_name(path@) is None,
        },
{
    let v = chars_of(path);
    let segs = split_chars(&v, '/');
    let ghost g = char_views(segs@);
    let mut j: usize = segs.len();
    assert(g.take(j as int) =~= g);
    while j > 0
        invariant
            j <= segs.len(),
            g == char_views(segs@),
            last_name(g.take(j as int)) == file_name(path@),
        decreases j,
    {
        let seg = &segs[j - 1];
        assert(g.take(j as int).last() == seg@);
        if seg.len() == 0 || (seg.len() == 1 && seg[0] == '.') {
            assert(seg.len() == 1 ==> seg@ =~= seq!['.']);
            assert(g.take(j as int).drop_last() =~= g.take(j - 1));
            j = j - 1;
        } else if seg.len() == 2 && seg[0] == '.' && seg[1] == '.' {
            assert(seg@ =~= seq!['.', '.']);
            return None;
        } else {
            assert(seg@ != seq!['.']);
            assert(seg@ != seq!['.', '.']);
            return Some(string_of(seg));
        }
    }
    None
}

/// The file name of `path`, or `path` itself.
pub fn display_name_of(path: &str) -> (r: String)
    ensures
        r@ == display_name(path@),
{
    match file_name_of(path) {
        Some(n) => n,
        None => owned(path),
    }
}

/// `PathBuf::join` on Unix with a relative or absolute second path.
pub open spec fn path_join(base: Seq<char>, rel: Seq<char>) -> Seq<char> {
    if rel.len() > 0 && rel[0] == '/' {
        rel
    } else if base.len() == 0 || base.last() == '/' {
        base + rel
    } else {
        base + seq!['/'] + rel
    }
}

/// Joins two Unix paths.
pub fn join_path(base: &str, rel: &str) -> (r: String)
    ensures
        r@ == path_join(base@, rel@),
{
    let b = chars_of(base);
    let p = chars_of(rel);
    if p.len() > 0 && p[0] == '/' {
        return owned(rel);
    }
    let mut r = owned(base);
    if !(b.len() == 0 || b[b.len() - 1] == '/') {
        push_char(&mut r, '/');
    }
    push_str(&mut r, rel);
    r
}

// ─── Taking, joining, case ──────────────────────────────────────────────────

/// The first `n` characters of `s` (`chars().take(n).collect()`).
pub open spec fn take_chars(s: Seq<char>, n: nat) -> Seq<char> {
    if n < s.len() {
        s.take(n as int)
    } else {
        s
    }
}

/// Appends the first `n` characters of `t`.
pub fn push_prefix(s: &mut String, t: &str, n: usize)
    ensures
        final(s)@ == old(s)@ + take_chars(t@, n as nat),
{
    let v = chars_of(t);
    let end = if n < v.len() {
        n
    } else {
        v.len()
    };
    let p = slice_chars(&v, 0, end);
    assert(p@ =~= take_chars(t@, n as nat));
    push_chars(s, &p);
}

/// The parts joined with `sep` between neighbours (`join`).
pub open spec fn join(parts: Seq<Seq<char>>, sep: Seq<char>) -> Seq<char>
    decreases parts.len(),
{
    if parts.len() == 0 {
        seq![]
    } else if parts.len() == 1 {
        parts[0]
    } else {
        join(parts.drop_last(), sep) + sep + parts.last()
    }
}

/// Joins strings with a separator.
pub fn join_strings(parts: &Vec<String>, sep: &str) -> (r: String)
    ensures
        r@ == join(views(parts@), sep@),
{
    let mut r = String::new();
    let ghost all = views(parts@);
    let mut i: usize = 0;
    while i < parts.len()
        invariant
            i <= parts.len(),
            all == views(parts@),
            r@ == join(all.take(i as int), sep@),
        decreases parts.len() - i,
    {
        assert(all.take(i + 1).drop_last() =~= all.take(i as int));
        assert(all.take(i + 1).last() == parts@[i as int]@);
        if i == 0 {
            assert(join(all.take(i as int), sep@) =~= Seq::<char>::empty());
        } else {
            push_str(&mut r, sep);
        }
        push_str(&mut r, parts[i].as_str());
        i = i + 1;
    }
    assert(all.take(i as int) =~= all);
    r
}

/// What `str::to_lowercase` gives for a text; Unicode case mapping is not
/// restated here.
pub uninterp spec fn lowercase(s: Seq<char>) -> Seq<char>;

/// `str::to_lowercase`. Trusted: the result is the lowercase mapping of the
/// argument and depends on nothing else.
#[verifier::external_body]
pub fn to_lowercase(s: &str) -> (r: String)
    ensures
        r@ == lowercase(s@),
{
    s.to_lowercase()
}

/// The parts written one after another.
pub open spec fn concat(parts: Seq<Seq<char>>) -> Seq<char>
    decreases parts.len(),
{
    if parts.len() == 0 {
        seq![]
    } else {
        concat(parts.drop_last()) + parts.last()
    }
}

// ─── Byte offsets ───────────────────────────────────────────────────────────

/// The length of `s` in UTF-8 bytes (`str::len`).
pub open spec fn byte_len(s: Seq<char>) -> int {
    vstd::utf8::encode_utf8(s).len() as int
}

/// Whether byte offset `k` of `s` falls between characters
/// (`str::is_char_boundary`).
pub open spec fn is_boundary(s: Seq<char>, k: int) -> bool {
    vstd::utf8::is_char_boundary(vstd::utf8::encode_utf8(s), k)
}

/// The characters of `s` within its first `k` bytes (`&s[..k]`).
pub open spec fn byte_prefix(s: Seq<char>, k: int) -> Seq<char> {
    vstd::utf8::decode_utf8(vstd::utf8::encode_utf8(s).take(k))
}

/// The length of a string slice in bytes.
pub fn byte_len_of(s: &str) -> (r: usize)
    ensures
        r == byte_len(s@),
{
    s.as_bytes().len()
}

/// Appends the first `k` bytes of `t`, which must end between characters.
pub fn push_byte_prefix(s: &mut String, t: &str, k: usize)
    requires
        is_boundary(t@, k as int),
    ensures
        final(s)@ == old(s)@ + byte_prefix(t@, k as int),
{
    let (a, _b) = t.split_at(k);
    proof {
        broadcast use vstd::utf8::encode_utf8_decode_utf8;

        assert(a.spec_bytes() =~= vstd::utf8::encode_utf8(t@).take(k as int));
        assert(a@ == vstd::utf8::decode_utf8(vstd::utf8::encode_utf8(a@)));
    }
    push_str(s, a);
}

} // verus!
