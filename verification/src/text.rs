//! Text as sequences of characters.
//!
//! Everything deck reads by hand — a ref argument, a colour, a settings file
//! with comments in it, the lines of a source file — is scanned here one
//! character at a time, against a specification of what the scan means.

use vstd::prelude::*;

verus! {

broadcast use vstd::string::group_string_axioms;

/// Appends one character to `s`.
#[verifier::external_body]
fn push_char(s: &mut String, c: char)
    ensures
        final(s)@ == old(s)@.push(c),
{
    s.push(c);
}

/// The characters of `s`, in order.
pub fn chars_of(s: &str) -> (v: Vec<char>)
    ensures
        v@ == s@,
{
    let mut v: Vec<char> = Vec::new();
    for c in it: s.chars()
        invariant
            it.seq() == s@,
            v@ == it.seq().take(it.index()),
    {
        v.push(c);
    }
    v
}

/// The string made of `v`.
pub fn string_of(v: &[char]) -> (s: String)
    ensures
        s@ == v@,
{
    let mut s = String::new();
    let mut i: usize = 0;
    while i < v.len()
        invariant
            i <= v@.len(),
            s@ == v@.take(i as int),
        decreases v@.len() - i,
    {
        push_char(&mut s, v[i]);
        assert(v@.take(i as int).push(v@[i as int]) =~= v@.take(i + 1));
        i += 1;
    }
    assert(v@.take(v@.len() as int) =~= v@);
    s
}

} // verus!

verus! {

/// Whether `c` is white space, as `char::is_whitespace` defines it: the
/// characters with Unicode's `White_Space` property.
pub open spec fn is_space(c: char) -> bool {
    let n = c as u32;
    ||| 0x9 <= n <= 0xd
    ||| n == 0x20
    ||| n == 0x85
    ||| n == 0xa0
    ||| n == 0x1680
    ||| 0x2000 <= n <= 0x200a
    ||| n == 0x2028
    ||| n == 0x2029
    ||| n == 0x202f
    ||| n == 0x205f
    ||| n == 0x3000
}

/// Whether `c` is white space.
pub fn space(c: char) -> (b: bool)
    ensures
        b == is_space(c),
{
    let n = c as u32;
    (0x9 <= n && n <= 0xd) || n == 0x20 || n == 0x85 || n == 0xa0 || n == 0x1680 || (0x2000 <= n
        && n <= 0x200a) || n == 0x2028 || n == 0x2029 || n == 0x202f || n == 0x205f || n == 0x3000
}

/// `s` without its leading white space.
pub open spec fn trim_start(s: Seq<char>) -> Seq<char>
    decreases s.len(),
{
    if s.len() > 0 && is_space(s[0]) {
        trim_start(s.drop_first())
    } else {
        s
    }
}

/// `s` without its trailing white space.
pub open spec fn trim_end(s: Seq<char>) -> Seq<char>
    decreases s.len(),
{
    if s.len() > 0 && is_space(s.last()) {
        trim_end(s.drop_last())
    } else {
        s
    }
}

/// `s` without white space at either end, as `str::trim` gives it.
pub open spec fn trim(s: Seq<char>) -> Seq<char> {
    trim_end(trim_start(s))
}

/// Where the trimmed text of `v` starts and ends.
pub fn trim_bounds(v: &[char]) -> (r: (usize, usize))
    ensures
        r.0 <= r.1 <= v@.len(),
        v@.subrange(r.0 as int, r.1 as int) == trim(v@),
{
    let mut a: usize = 0;
    assert(v@.skip(0) =~= v@);
    while a < v.len() && space(v[a])
        invariant
            a <= v@.len(),
            trim_start(v@.skip(a as int)) == trim_start(v@),
        decreases v@.len() - a,
    {
        assert(v@.skip(a as int).drop_first() =~= v@.skip(a + 1));
        a += 1;
    }
    let mut b: usize = v.len();
    assert(v@.skip(a as int) =~= v@.subrange(a as int, b as int));
    while b > a && space(v[b - 1])
        invariant
            a <= b <= v@.len(),
            trim_end(v@.subrange(a as int, b as int)) == trim(v@),
        decreases b,
    {
        assert(v@.subrange(a as int, b as int).drop_last() =~= v@.subrange(a as int, b - 1));
        b -= 1;
    }
    (a, b)
}

/// The trimmed text of `v`.
pub fn trimmed(v: &[char]) -> (t: Vec<char>)
    ensures
        t@ == trim(v@),
{
    let (a, b) = trim_bounds(v);
    slice_of(v, a, b)
}

/// The characters of `v` from `a` up to `b`.
pub fn slice_of(v: &[char], a: usize, b: usize) -> (t: Vec<char>)
    requires
        a <= b <= v@.len(),
    ensures
        t@ == v@.subrange(a as int, b as int),
{
    let mut t: Vec<char> = Vec::new();
    let mut i = a;
    while i < b
        invariant
            a <= i <= b <= v@.len(),
            t@ == v@.subrange(a as int, i as int),
        decreases b - i,
    {
        t.push(v[i]);
        assert(v@.subrange(a as int, i as int).push(v@[i as int]) =~= v@.subrange(
            a as int,
            i + 1,
        ));
        i += 1;
    }
    t
}

/// Whether two runs of characters are the same text.
pub fn same(a: &[char], b: &[char]) -> (r: bool)
    ensures
        r == (a@ == b@),
{
    if a.len() != b.len() {
        return false;
    }
    let mut i: usize = 0;
    while i < a.len()
        invariant
            a@.len() == b@.len(),
            i <= a@.len(),
            forall|j: int| 0 <= j < i ==> a@[j] == b@[j],
        decreases a@.len() - i,
    {
        if a[i] != b[i] {
            return false;
        }
        i += 1;
    }
    assert(a@ =~= b@);
    true
}

/// Whether two strings hold the same text.
pub fn text_eq(a: &String, b: &String) -> (r: bool)
    ensures
        r == (a@ == b@),
{
    String::eq(a, b)
}

/// Whether two texts are the same.
pub fn same_text(a: &str, b: &str) -> (r: bool)
    ensures
        r == (a@ == b@),
{
    let v = chars_of(a);
    let w = chars_of(b);
    same(&v, &w)
}

/// Whether a string reads exactly `word`.
pub fn is_word(s: &str, word: &[char]) -> (r: bool)
    ensures
        r == (s@ == word@),
{
    let v = chars_of(s);
    same(&v, word)
}

/// Whether `needle` occurs in `hay` starting at `i`.
pub open spec fn occurs_at(hay: Seq<char>, i: int, needle: Seq<char>) -> bool {
    0 <= i && i + needle.len() <= hay.len() && hay.subrange(i, i + needle.len()) == needle
}

/// Whether `needle` occurs anywhere in `hay`.
pub open spec fn occurs(hay: Seq<char>, needle: Seq<char>) -> bool {
    exists|i: int| occurs_at(hay, i, needle)
}

/// Whether `hay` begins with `needle`.
pub open spec fn starts_with(hay: Seq<char>, needle: Seq<char>) -> bool {
    occurs_at(hay, 0, needle)
}

/// Whether `needle` is at `i` in `hay`.
pub fn is_at(hay: &[char], i: usize, needle: &[char]) -> (r: bool)
    ensures
        r == occurs_at(hay@, i as int, needle@),
{
    if i > hay.len() || needle.len() > hay.len() - i {
        return false;
    }
    let mut k: usize = 0;
    while k < needle.len()
        invariant
            i <= hay@.len(),
            hay@.len() == hay.len(),
            needle@.len() == needle.len(),
            i + needle@.len() <= hay@.len(),
            k <= needle@.len(),
            forall|j: int| 0 <= j < k ==> hay@[i + j] == needle@[j],
        decreases needle@.len() - k,
    {
        if hay[i + k] != needle[k] {
            assert(hay@.subrange(i as int, i + needle@.len())[k as int] != needle@[k as int]);
            return false;
        }
        k += 1;
    }
    assert(hay@.subrange(i as int, i + needle@.len()) =~= needle@);
    true
}

/// The first place at or after `from` where `needle` occurs in `hay`.
pub fn find_from(hay: &[char], from: usize, needle: &[char]) -> (r: Option<usize>)
    ensures
        r matches Some(i) ==> from <= i && occurs_at(hay@, i as int, needle@) && forall|j: int|
            from <= j < i ==> !occurs_at(hay@, j, needle@),
        r is None ==> forall|j: int| from <= j ==> !occurs_at(hay@, j, needle@),
{
    if from > hay.len() {
        return None;
    }
    let mut i = from;
    loop
        invariant
            from <= i <= hay@.len(),
            forall|j: int| from <= j < i ==> !occurs_at(hay@, j, needle@),
        decreases hay@.len() - i,
    {
        if is_at(hay, i, needle) {
            return Some(i);
        }
        if i >= hay.len() {
            return None;
        }
        i += 1;
    }
}

/// Whether `needle` occurs anywhere in `hay`.
pub fn contains(hay: &[char], needle: &[char]) -> (r: bool)
    ensures
        r == occurs(hay@, needle@),
{
    match find_from(hay, 0, needle) {
        Some(i) => true,
        None => {
            assert forall|j: int| !occurs_at(hay@, j, needle@) by {
                if j >= 0 {
                }
            }
            false
        },
    }
}

/// Whether `c` is a decimal digit.
pub open spec fn is_digit(c: char) -> bool {
    '0' <= c && c <= '9'
}

/// The number a run of decimal digits writes.
pub open spec fn digits_value(s: Seq<char>) -> nat
    decreases s.len(),
{
    if s.len() == 0 {
        0
    } else {
        digits_value(s.drop_last()) * 10 + ((s.last() as nat) - ('0' as nat)) as nat
    }
}

/// Whether every character of `s` is a decimal digit.
pub open spec fn all_digits(s: Seq<char>) -> bool {
    forall|i: int| 0 <= i < s.len() ==> is_digit(s[i])
}

/// The digits of a number, with the `+` that `str::parse` allows in front of
/// them taken off.
pub open spec fn unsigned_body(s: Seq<char>) -> Seq<char> {
    if s.len() > 0 && s[0] == '+' {
        s.drop_first()
    } else {
        s
    }
}

/// What `str::parse::<u32>` makes of `s`: an optional `+`, then at least one
/// decimal digit and nothing else, and no more than `u32::MAX`.
pub open spec fn parse_u32(s: Seq<char>) -> Option<u32> {
    let body = unsigned_body(s);
    if body.len() > 0 && all_digits(body) && digits_value(body) <= u32::MAX {
        Some(digits_value(body) as u32)
    } else {
        None
    }
}

proof fn lemma_digits_grow(s: Seq<char>, k: int)
    requires
        0 <= k <= s.len(),
        forall|i: int| 0 <= i < s.len() ==> is_digit(s[i]),
    ensures
        digits_value(s.take(k)) <= digits_value(s),
    decreases s.len() - k,
{
    if k < s.len() {
        lemma_digits_grow(s, k + 1);
        assert(s.take(k + 1).drop_last() =~= s.take(k));
        assert(digits_value(s.take(k + 1)) == digits_value(s.take(k)) * 10 + ((s[k] as nat) - (
        '0' as nat)) as nat);
    } else {
        assert(s.take(k) =~= s);
    }
}

/// `s` read as a `u32`, the way `str::parse::<u32>` reads it.
pub fn parse_number(s: &[char]) -> (r: Option<u32>)
    ensures
        r == parse_u32(s@),
{
    let start: usize = if s.len() > 0 && s[0] == '+' {
        1
    } else {
        0
    };
    let ghost body = unsigned_body(s@);
    assert(body =~= s@.skip(start as int));
    if start >= s.len() {
        assert(body.len() == 0);
        return None;
    }
    let mut i = start;
    while i < s.len()
        invariant
            start <= i <= s@.len(),
            body == s@.skip(start as int),
            body == unsigned_body(s@),
            forall|j: int| start <= j < i ==> is_digit(s@[j]),
        decreases s@.len() - i,
    {
        if !('0' <= s[i] && s[i] <= '9') {
            assert(s@[i as int] == body[i - start]);
            assert(!is_digit(body[i - start]));
            assert(!all_digits(body));
            return None;
        }
        i += 1;
    }
    let mut value: u64 = 0;
    let mut i = start;
    while i < s.len()
        invariant
            start <= i <= s@.len(),
            body == s@.skip(start as int),
            body == unsigned_body(s@),
            forall|j: int| 0 <= j < body.len() ==> is_digit(body[j]),
            value == digits_value(body.take(i - start)),
            value <= u32::MAX,
        decreases s@.len() - i,
    {
        assert(s@[i as int] == body[i - start]);
        assert(is_digit(s@[i as int]));
        let d = ((s[i] as u32) - ('0' as u32)) as u64;
        assert(body.take(i - start + 1).drop_last() =~= body.take(i - start));
        assert(body.take(i - start + 1).last() == s@[i as int]);
        let next = value * 10 + d;
        if next > 0xffff_ffff {
            proof {
                lemma_digits_grow(body, i - start + 1);
                assert(digits_value(body.take(i - start + 1)) == next);
                assert(digits_value(body) > u32::MAX);
                }
            return None;
        }
        value = next;
        i += 1;
    }
    assert(body.take(i - start) =~= body);
    Some(value as u32)
}

} // verus!

verus! {

/// The views of a sequence of character vectors.
pub open spec fn views_of(v: Seq<Vec<char>>) -> Seq<Seq<char>> {
    v.map_values(|l: Vec<char>| l@)
}

/// Where the first line break in `s` is, or its length when it has none.
pub open spec fn first_newline(s: Seq<char>) -> int
    decreases s.len(),
{
    if s.len() == 0 {
        0
    } else if s[0] == '\n' {
        0
    } else {
        1 + first_newline(s.drop_first())
    }
}

pub proof fn lemma_first_newline(s: Seq<char>)
    ensures
        0 <= first_newline(s) <= s.len(),
        first_newline(s) < s.len() ==> s[first_newline(s)] == '\n',
        forall|j: int| 0 <= j < first_newline(s) ==> s[j] != '\n',
    decreases s.len(),
{
    if s.len() > 0 && s[0] != '\n' {
        lemma_first_newline(s.drop_first());
        assert forall|j: int| 0 <= j < first_newline(s) implies s[j] != '\n' by {
            if j > 0 {
                assert(s[j] == s.drop_first()[j - 1]);
            }
        }
    }
}

proof fn lemma_first_newline_at(s: Seq<char>, k: int)
    requires
        0 <= k <= s.len(),
        forall|j: int| 0 <= j < k ==> s[j] != '\n',
        k < s.len() ==> s[k] == '\n',
    ensures
        first_newline(s) == k,
    decreases k,
{
    if k > 0 {
        lemma_first_newline_at(s.drop_first(), k - 1);
    }
}

/// `line` without the carriage return that a `\r\n` break leaves on it.
pub open spec fn strip_cr(line: Seq<char>) -> Seq<char> {
    if line.len() > 0 && line.last() == '\r' {
        line.drop_last()
    } else {
        line
    }
}

/// The lines of `s`, as `str::lines` splits them: at `\n`, with a `\r`
/// before the break taken off, and no empty line after a final break.
pub open spec fn lines(s: Seq<char>) -> Seq<Seq<char>>
    decreases s.len(),
{
    if s.len() == 0 {
        seq![]
    } else {
        let k = first_newline(s);
        proof {
            lemma_first_newline(s);
        }
        if k >= s.len() {
            seq![s]
        } else {
            seq![strip_cr(s.take(k))] + lines(s.skip(k + 1))
        }
    }
}

/// The lines of `v`, as `str::lines` splits them.
pub fn split_lines(v: &[char]) -> (r: Vec<Vec<char>>)
    ensures
        views_of(r@) == lines(v@),
{
    let mut out: Vec<Vec<char>> = Vec::new();
    let mut start: usize = 0;
    assert(v@.skip(0) =~= v@);
    while start < v.len()
        invariant
            start <= v@.len(),
            views_of(out@) + lines(v@.skip(start as int)) == lines(v@),
        decreases v@.len() - start,
    {
        let ghost rest = v@.skip(start as int);
        let mut k = start;
        while k < v.len() && v[k] != '\n'
            invariant
                start <= k <= v@.len(),
                rest == v@.skip(start as int),
                forall|j: int| start <= j < k ==> v@[j] != '\n',
            decreases v@.len() - k,
        {
            k += 1;
        }
        proof {
            assert forall|j: int| 0 <= j < k - start implies rest[j] != '\n' by {
                assert(rest[j] == v@[start + j]);
            }
            lemma_first_newline_at(rest, k - start);
        }
        let mut line = slice_of(v, start, k);
        assert(line@ == rest.take(k - start));
        let ghost before = views_of(out@);
        if k < v.len() {
            if line.len() > 0 && line[line.len() - 1] == '\r' {
                line.pop();
            }
            assert(line@ == strip_cr(rest.take(k - start)));
            assert(rest.skip(k - start + 1) =~= v@.skip(k + 1));
            out.push(line);
            assert(views_of(out@) =~= before.push(strip_cr(rest.take(k - start))));
            start = k + 1;
        } else {
            assert(rest.take(k - start) =~= rest);
            out.push(line);
            assert(views_of(out@) =~= before.push(rest));
            assert(v@.skip(k as int) =~= Seq::<char>::empty());
            start = k;
        }
    }
    assert(v@.skip(start as int) =~= Seq::<char>::empty());
    assert(views_of(out@) + lines(v@.skip(start as int)) =~= views_of(out@));
    out
}

} // verus!

verus! {

/// The character for the decimal digit `d`.
pub open spec fn digit_char(d: nat) -> char {
    (('0' as nat) + d) as char
}

/// `n` written in decimal, with no leading zeros.
pub open spec fn decimal(n: nat) -> Seq<char>
    decreases n,
{
    if n < 10 {
        seq![digit_char(n)]
    } else {
        decimal(n / 10).push(digit_char(n % 10))
    }
}

/// The character for the decimal digit `d`.
pub fn digit(d: u8) -> (c: char)
    requires
        d < 10,
    ensures
        c == digit_char(d as nat),
{
    ((48u8 + d) as char)
}

/// `n` written in decimal.
pub fn decimal_of(n: u64) -> (v: Vec<char>)
    ensures
        v@ == decimal(n as nat),
    decreases n,
{
    if n < 10 {
        let mut v = Vec::new();
        v.push(digit(n as u8));
        assert(v@ =~= seq![digit_char(n as nat)]);
        v
    } else {
        let mut v = decimal_of(n / 10);
        v.push(digit((n % 10) as u8));
        v
    }
}

/// Appends `more` to `v`.
pub fn extend(v: &mut Vec<char>, more: &[char])
    ensures
        final(v)@ == old(v)@ + more@,
{
    let mut i: usize = 0;
    let ghost start = v@;
    while i < more.len()
        invariant
            i <= more@.len(),
            v@ == start + more@.take(i as int),
        decreases more@.len() - i,
    {
        v.push(more[i]);
        assert(start + more@.take(i + 1) =~= (start + more@.take(i as int)).push(more@[i as int]));
        i += 1;
    }
    assert(more@.take(more@.len() as int) =~= more@);
}


/// The first place at or after `from` where `needle` occurs in `hay`.
pub open spec fn first_from(hay: Seq<char>, from: int, needle: Seq<char>) -> Option<int>
    decreases hay.len() + 1 - from,
{
    if from < 0 || from > hay.len() {
        None
    } else if occurs_at(hay, from, needle) {
        Some(from)
    } else {
        first_from(hay, from + 1, needle)
    }
}

proof fn lemma_first_from(hay: Seq<char>, from: int, needle: Seq<char>, r: Option<int>)
    requires
        0 <= from,
        r matches Some(i) ==> from <= i && occurs_at(hay, i, needle) && forall|j: int|
            from <= j < i ==> !occurs_at(hay, j, needle),
        r is None ==> forall|j: int| from <= j ==> !occurs_at(hay, j, needle),
    ensures
        first_from(hay, from, needle) == r,
    decreases hay.len() + 1 - from,
{
    if from <= hay.len() && !occurs_at(hay, from, needle) {
        lemma_first_from(hay, from + 1, needle, r);
    }
    if from > hay.len() {
        if let Some(i) = r {
            assert(i + needle.len() <= hay.len());
        }
    }
}

/// The first place at or after `from` where `needle` occurs in `hay`.
pub fn find_at(hay: &[char], from: usize, needle: &[char]) -> (r: Option<usize>)
    ensures
        match r {
            Some(i) => first_from(hay@, from as int, needle@) == Some(i as int),
            None => first_from(hay@, from as int, needle@) is None,
        },
{
    let r = find_from(hay, from, needle);
    proof {
        lemma_first_from(
            hay@,
            from as int,
            needle@,
            match r {
                Some(i) => Some(i as int),
                None => None,
            },
        );
    }
    r
}

/// A first match lies in the text searched.
pub proof fn lemma_first_from_bounds(hay: Seq<char>, from: int, needle: Seq<char>)
    ensures
        first_from(hay, from, needle) matches Some(i) ==> from <= i && occurs_at(hay, i, needle)
            && i + needle.len() <= hay.len(),
    decreases hay.len() + 1 - from,
{
    if 0 <= from <= hay.len() && !occurs_at(hay, from, needle) {
        lemma_first_from_bounds(hay, from + 1, needle);
    }
}

/// `c` in lower case, when it is an ASCII capital.
pub open spec fn ascii_lower_char(c: char) -> char {
    if 'A' <= c && c <= 'Z' {
        ((c as u32) + 32) as char
    } else {
        c
    }
}

/// `s` with its ASCII capitals in lower case, as `str::to_ascii_lowercase`.
pub open spec fn ascii_lower(s: Seq<char>) -> Seq<char> {
    s.map_values(|c: char| ascii_lower_char(c))
}

/// `v` with its ASCII capitals in lower case.
pub fn lowered(v: &[char]) -> (r: Vec<char>)
    ensures
        r@ == ascii_lower(v@),
{
    let mut r: Vec<char> = Vec::new();
    let mut i: usize = 0;
    while i < v.len()
        invariant
            i <= v@.len(),
            r@ == ascii_lower(v@.take(i as int)),
        decreases v@.len() - i,
    {
        let c = v[i];
        let l = if 'A' <= c && c <= 'Z' {
            ((c as u8) + 32) as char
        } else {
            c
        };
        r.push(l);
        assert(ascii_lower(v@.take(i + 1)) =~= ascii_lower(v@.take(i as int)).push(l));
        i += 1;
    }
    assert(v@.take(v@.len() as int) =~= v@);
    r
}

/// Which characters a text is split at.
#[derive(Clone, Copy, PartialEq, Eq, Structural)]
pub enum Seps {
    /// White space, as `split_whitespace` splits.
    Blank,
    /// A comma or a space.
    CommaOrSpace,
    /// A hyphen.
    Hyphen,
    /// A comma.
    Comma,
}

/// Whether `c` splits the text, for these separators.
pub open spec fn splits_at(seps: Seps, c: char) -> bool {
    match seps {
        Seps::Blank => is_space(c),
        Seps::CommaOrSpace => c == ',' || c == ' ',
        Seps::Hyphen => c == '-',
        Seps::Comma => c == ',',
    }
}

/// Where the first separator in `t` is.
pub open spec fn first_sep(t: Seq<char>, seps: Seps) -> Option<int> {
    if exists|k: int| 0 <= k < t.len() && splits_at(seps, t[k]) {
        Some(choose|k: int| 0 <= k < t.len() && splits_at(seps, t[k]) && forall|j: int| 0 <= j < k ==> !splits_at(seps, t[j]))
    } else {
        None
    }
}

/// The pieces between separators, as `str::split` gives them: empty ones too.
#[verifier::opaque]
pub open spec fn pieces(t: Seq<char>, seps: Seps) -> Seq<Seq<char>>
    decreases t.len(),
{
    match first_sep(t, seps) {
        Some(k) => if 0 <= k < t.len() {
            seq![t.take(k)] + pieces(t.skip(k + 1), seps)
        } else {
            seq![t]
        },
        None => seq![t],
    }
}

/// The non-empty texts of `ps`, in order.
pub open spec fn nonempty(ps: Seq<Seq<char>>) -> Seq<Seq<char>>
    decreases ps.len(),
{
    if ps.len() == 0 {
        ps
    } else if ps.last().len() > 0 {
        nonempty(ps.drop_last()).push(ps.last())
    } else {
        nonempty(ps.drop_last())
    }
}

/// Each of `ps`, trimmed.
pub open spec fn trim_all(ps: Seq<Seq<char>>) -> Seq<Seq<char>> {
    ps.map_values(|p: Seq<char>| trim(p))
}

/// The words of `t`, as `split_whitespace` gives them.
pub open spec fn words(t: Seq<char>) -> Seq<Seq<char>> {
    nonempty(pieces(t, Seps::Blank))
}

proof fn lemma_first_sep(t: Seq<char>, seps: Seps, k: int)
    requires
        0 <= k <= t.len(),
        forall|j: int| 0 <= j < k ==> !splits_at(seps, #[trigger] t[j]),
        k < t.len() ==> splits_at(seps, t[k]),
    ensures
        first_sep(t, seps) == if k < t.len() {
            Some(k)
        } else {
            None::<int>
        },
{
    if k < t.len() {
        let w = choose|w: int| 0 <= w < t.len() && splits_at(seps, t[w]) && forall|j: int| 0 <= j < w ==> !splits_at(seps, t[j]);
        assert(exists|w: int| 0 <= w < t.len() && splits_at(seps, t[w]) && forall|j: int| 0 <= j < w ==> !splits_at(seps, t[j])) by {
            assert(0 <= k < t.len() && splits_at(seps, t[k]) && forall|j: int| 0 <= j < k ==> !splits_at(seps, t[j]));
        }
        if w < k {
        } else if w > k {
        }
    }
}

/// Whether `c` splits the text, for these separators.
pub fn is_sep(seps: Seps, c: char) -> (r: bool)
    ensures
        r == splits_at(seps, c),
{
    match seps {
        Seps::Blank => space(c),
        Seps::CommaOrSpace => c == ',' || c == ' ',
        Seps::Hyphen => c == '-',
        Seps::Comma => c == ',',
    }
}

proof fn lemma_pieces_cut(rest: Seq<char>, seps: Seps, k: int)
    requires
        0 <= k < rest.len(),
        forall|j: int| 0 <= j < k ==> !splits_at(seps, #[trigger] rest[j]),
        splits_at(seps, rest[k]),
    ensures
        pieces(rest, seps) == seq![rest.take(k)] + pieces(rest.skip(k + 1), seps),
{
    lemma_first_sep(rest, seps, k);
    reveal(pieces);
}

proof fn lemma_pieces_whole(rest: Seq<char>, seps: Seps)
    requires
        forall|j: int| 0 <= j < rest.len() ==> !splits_at(seps, #[trigger] rest[j]),
    ensures
        pieces(rest, seps) == seq![rest],
{
    lemma_first_sep(rest, seps, rest.len() as int);
    reveal(pieces);
}

/// The pieces of `v` between separators, empty ones included.
pub fn split_by(v: &[char], seps: Seps) -> (r: Vec<Vec<char>>)
    ensures
        views_of(r@) == pieces(v@, seps),
{
    let mut out: Vec<Vec<char>> = Vec::new();
    let mut start: usize = 0;
    let mut i: usize = 0;
    assert(v@.skip(0) =~= v@);
    while i < v.len()
        invariant
            start <= i <= v@.len(),
            forall|j: int| start <= j < i ==> !splits_at(seps, #[trigger] v@[j]),
            views_of(out@) + pieces(v@.skip(start as int), seps) == pieces(v@, seps),
        decreases v@.len() - i,
    {
        if is_sep(seps, v[i]) {
            let piece = slice_of(v, start, i);
            let ghost rest = v@.skip(start as int);
            let ghost before = views_of(out@);
            proof {
                let k = i - start;
                assert forall|j: int| 0 <= j < k implies !splits_at(seps, #[trigger] rest[j]) by {
                    assert(rest[j] == v@[start + j]);
                }
                lemma_pieces_cut(rest, seps, k);
                assert(rest.take(k) =~= piece@);
                assert(rest.skip(k + 1) =~= v@.skip(i + 1));
            }
            out.push(piece);
            proof {
                assert(views_of(out@) =~= before.push(piece@));
                assert(before.push(piece@) + pieces(v@.skip(i + 1), seps) =~= before + (seq![piece@] + pieces(v@.skip(i + 1), seps)));
            }
            start = i + 1;
        }
        i += 1;
    }
    let piece = slice_of(v, start, v.len());
    let ghost rest = v@.skip(start as int);
    let ghost before = views_of(out@);
    proof {
        assert forall|j: int| 0 <= j < rest.len() implies !splits_at(seps, #[trigger] rest[j]) by {
            assert(rest[j] == v@[start + j]);
        }
        lemma_pieces_whole(rest, seps);
        assert(rest =~= piece@);
    }
    out.push(piece);
    proof {
        assert(views_of(out@) =~= before.push(piece@));
        assert(before + seq![piece@] =~= before.push(piece@));
    }
    out
}

/// The non-empty ones of `ps`, trimmed first when `trim_each`.
pub fn keep_nonempty(ps: &Vec<Vec<char>>, trim_each: bool) -> (r: Vec<Vec<char>>)
    ensures
        views_of(r@) == nonempty(if trim_each {
            trim_all(views_of(ps@))
        } else {
            views_of(ps@)
        }),
{
    let ghost src = if trim_each {
        trim_all(views_of(ps@))
    } else {
        views_of(ps@)
    };
    let mut out: Vec<Vec<char>> = Vec::new();
    let mut i: usize = 0;
    while i < ps.len()
        invariant
            i <= ps@.len(),
            src.len() == ps@.len(),
            src == if trim_each {
                trim_all(views_of(ps@))
            } else {
                views_of(ps@)
            },
            views_of(out@) == nonempty(src.take(i as int)),
        decreases ps@.len() - i,
    {
        let p = if trim_each {
            trimmed(&ps[i])
        } else {
            slice_of(&ps[i], 0, ps[i].len())
        };
        proof {
            assert(ps@[i as int]@.take(ps@[i as int]@.len() as int) =~= ps@[i as int]@);
            assert(p@ == src[i as int]);
            assert(src.take(i + 1).drop_last() =~= src.take(i as int));
        }
        if p.len() > 0 {
            out.push(p);
            proof {
                assert(views_of(out@) =~= views_of(out@.drop_last()).push(p@));
            }
        }
        i += 1;
    }
    assert(src.take(ps@.len() as int) =~= src);
    out
}

/// The words of `v`, as `split_whitespace` gives them.
pub fn words_of(v: &[char]) -> (r: Vec<Vec<char>>)
    ensures
        views_of(r@) == words(v@),
{
    let ps = split_by(v, Seps::Blank);
    keep_nonempty(&ps, false)
}

} // verus!
