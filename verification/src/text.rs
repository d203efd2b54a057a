//! Characters and strings: the few operations the editor needs on them,
//! stated over `Seq<char>`.

use vstd::prelude::*;

verus! {

/// Whether a character is white space, as `char::is_whitespace` answers it.
pub uninterp spec fn whitespace(c: char) -> bool;

/// Calls `char::is_whitespace`. Its answer depends on the character alone and
/// is given the name `whitespace`; nothing else is claimed of it.
#[verifier::external_body]
pub(crate) fn is_whitespace(c: char) -> (b: bool)
    ensures
        b == whitespace(c),
{
    c.is_whitespace()
}

/// Calls `String::push`, which appends one character to the end of the string.
#[verifier::external_body]
pub(crate) fn push_char(s: &mut String, c: char)
    ensures
        final(s)@ == old(s)@.push(c),
{
    s.push(c)
}

pub open spec fn min(a: int, b: int) -> int {
    if a <= b {
        a
    } else {
        b
    }
}

pub open spec fn max(a: int, b: int) -> int {
    if a >= b {
        a
    } else {
        b
    }
}

/// A sum that stops at the largest number there is.
pub open spec fn capped(x: int) -> int {
    min(x, usize::MAX as int)
}

pub fn min_usize(a: usize, b: usize) -> (m: usize)
    ensures
        m == min(a as int, b as int),
{
    if a <= b {
        a
    } else {
        b
    }
}

/// The characters of a string, in order.
pub fn chars_of(s: &str) -> (v: Vec<char>)
    ensures
        v@ == s@,
{
    let mut v: Vec<char> = Vec::new();
    for c in it: s.chars()
        invariant
            v@ == it.seq().take(it.index() as int),
    {
        v.push(c);
    }
    v
}

/// The string made of `chars[from..to]`.
pub fn text_of(chars: &Vec<char>, from: usize, to: usize) -> (s: String)
    requires
        from <= to <= chars@.len(),
    ensures
        s@ == chars@.subrange(from as int, to as int),
{
    let mut s = String::new();
    let mut i: usize = from;
    while i < to
        invariant
            from <= i <= to <= chars@.len(),
            s@ == chars@.subrange(from as int, i as int),
        decreases to - i,
    {
        push_char(&mut s, chars[i]);
        i += 1;
    }
    s
}

/// Whether `suffix` is the tail of `s`.
pub open spec fn is_suffix(s: Seq<char>, suffix: Seq<char>) -> bool {
    suffix.len() <= s.len() && s.subrange(s.len() - suffix.len(), s.len() as int) == suffix
}

pub fn ends_with(s: &str, suffix: &str) -> (b: bool)
    ensures
        b == is_suffix(s@, suffix@),
{
    let a = chars_of(s);
    let t = chars_of(suffix);
    if t.len() > a.len() {
        return false;
    }
    let base: usize = a.len() - t.len();
    let mut i: usize = 0;
    while i < t.len()
        invariant
            a@ == s@,
            t@ == suffix@,
            t@.len() <= a@.len() <= usize::MAX,
            base == a@.len() - t@.len(),
            i <= t@.len(),
            forall|j: int| 0 <= j < i ==> a@[base + j] == t@[j],
        decreases t@.len() - i,
    {
        if a[base + i] != t[i] {
            assert(s@.subrange(s@.len() - suffix@.len(), s@.len() as int)[i as int] != suffix@[i as int]);
            return false;
        }
        i += 1;
    }
    assert(s@.subrange(s@.len() - suffix@.len(), s@.len() as int) =~= suffix@);
    true
}

/// Whether two strings hold the same characters.
pub fn same_text(a: &str, b: &str) -> (same: bool)
    ensures
        same == (a@ == b@),
{
    let x = chars_of(a);
    let y = chars_of(b);
    if x.len() != y.len() {
        return false;
    }
    let mut i: usize = 0;
    while i < x.len()
        invariant
            x@ == a@,
            y@ == b@,
            x@.len() == y@.len(),
            i <= x@.len(),
            forall|j: int| 0 <= j < i ==> x@[j] == y@[j],
        decreases x@.len() - i,
    {
        if x[i] != y[i] {
            return false;
        }
        i += 1;
    }
    assert(a@ =~= b@);
    true
}

/// The first `n` characters of `s`, or all of it where it has fewer.
pub fn prefix_of(s: &str, n: usize) -> (p: String)
    ensures
        p@ == s@.take(min(n as int, s@.len() as int)),
{
    let len: usize = s.unicode_len();
    let k: usize = min_usize(n, len);
    s.substring_char(0, k).to_owned()
}

/// The text holds no line break.
pub open spec fn single_line(text: Seq<char>) -> bool {
    forall|i: int| 0 <= i < text.len() ==> #[trigger] text[i] != '\n'
}

pub fn is_single_line(s: &str) -> (b: bool)
    ensures
        b == single_line(s@),
{
    let chars = chars_of(s);
    let mut i: usize = 0;
    while i < chars.len()
        invariant
            i <= chars@.len(),
            chars@ == s@,
            forall|j: int| 0 <= j < i ==> #[trigger] chars@[j] != '\n',
        decreases chars@.len() - i,
    {
        if chars[i] == '\n' {
            return false;
        }
        i += 1;
    }
    true
}

/// Adds a text to the end of a string.
pub fn push_text(s: &mut String, t: &str)
    ensures
        final(s)@ == old(s)@ + t@,
{
    let chars = chars_of(t);
    let mut i: usize = 0;
    while i < chars.len()
        invariant
            i <= chars@.len(),
            chars@ == t@,
            s@ == old(s)@ + chars@.take(i as int),
        decreases chars@.len() - i,
    {
        push_char(s, chars[i]);
        assert(chars@.take(i as int).push(chars@[i as int]) =~= chars@.take(i + 1));
        i += 1;
    }
    assert(chars@.take(chars@.len() as int) =~= chars@);
}

/// `n` times the character `c`.
pub open spec fn repeated(c: char, n: int) -> Seq<char> {
    Seq::new(max(0, n) as nat, |i: int| c)
}

/// Adds `n` times the character `c` to the end of a string.
pub fn push_repeated(s: &mut String, c: char, n: usize)
    ensures
        final(s)@ == old(s)@ + repeated(c, n as int),
{
    let mut i: usize = 0;
    while i < n
        invariant
            i <= n,
            s@ == old(s)@ + repeated(c, i as int),
        decreases n - i,
    {
        push_char(s, c);
        assert(s@ =~= old(s)@ + repeated(c, i + 1));
        i += 1;
    }
}

/// Of each character of a text, whether it is white space.
pub open spec fn blanks(text: Seq<char>) -> Seq<bool> {
    Seq::new(text.len(), |i: int| whitespace(text[i]))
}

/// Says of each character whether it is white space.
pub fn classify(chars: &Vec<char>) -> (blank: Vec<bool>)
    ensures
        blank@ == blanks(chars@),
{
    let mut blank: Vec<bool> = Vec::new();
    let mut i: usize = 0;
    while i < chars.len()
        invariant
            i <= chars@.len(),
            blank@.len() == i,
            forall|j: int| 0 <= j < i ==> #[trigger] blank@[j] == whitespace(chars@[j]),
        decreases chars@.len() - i,
    {
        blank.push(is_whitespace(chars[i]));
        i += 1;
    }
    assert(blank@ =~= blanks(chars@));
    blank
}

} // verus!
