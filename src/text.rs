use vstd::prelude::*;
use vstd::slice::slice_subrange;

verus! {

/// Whether two byte strings are equal.
pub fn same_bytes(a: &[u8], b: &[u8]) -> (r: bool)
    ensures
        r == (a@ == b@),
{
    if a.len() != b.len() {
        return false;
    }
    let mut i: usize = 0;
    while i < a.len()
        invariant
            a@.len() == b@.len(),
            i <= a@.len(),
            a@.subrange(0, i as int) == b@.subrange(0, i as int),
        decreases a@.len() - i,
    {
        if a[i] != b[i] {
            assert(a@.subrange(0, a@.len() as int)[i as int] != b@.subrange(0, b@.len() as int)[i as int]);
            return false;
        }
        assert(a@.subrange(0, i + 1) =~= a@.subrange(0, i as int).push(a[i as int]));
        assert(b@.subrange(0, i + 1) =~= b@.subrange(0, i as int).push(b[i as int]));
        i = i + 1;
    }
    assert(a@ =~= a@.subrange(0, i as int));
    assert(b@ =~= b@.subrange(0, i as int));
    true
}

pub const NEWLINE: u8 = 10;
pub const SPACE: u8 = 32;
pub const QUOTE: u8 = 39;
pub const PLUS: u8 = 43;
pub const COMMA: u8 = 44;
pub const SLASH: u8 = 47;

/// ASCII whitespace: tab, line feed, vertical tab, form feed, carriage return, space.
pub open spec fn is_space(c: u8) -> bool {
    c == SPACE || (9 <= c && c <= 13)
}

pub open spec fn is_digit(c: u8) -> bool {
    48 <= c && c <= 57
}

/// The first index at or after `j` that holds `c`, or the length when none does.
pub open spec fn find_byte(l: Seq<u8>, c: u8, j: int) -> int
    decreases l.len() - j,
{
    if j < 0 || j >= l.len() {
        l.len() as int
    } else if l[j] == c {
        j
    } else {
        find_byte(l, c, j + 1)
    }
}

/// How many bytes of `l` equal `c`.
pub open spec fn count_byte(l: Seq<u8>, c: u8) -> nat
    decreases l.len(),
{
    if l.len() == 0 {
        0
    } else {
        count_byte(l.drop_last(), c) + if l.last() == c {
            1nat
        } else {
            0nat
        }
    }
}

/// The first index at or after `j` where a `//` comment begins, or the length.
pub open spec fn comment_start(l: Seq<u8>, j: int) -> int
    decreases l.len() - j,
{
    if j < 0 || j + 1 >= l.len() {
        l.len() as int
    } else if l[j] == SLASH && l[j + 1] == SLASH {
        j
    } else {
        comment_start(l, j + 1)
    }
}

/// `l` without whitespace at either end.
pub open spec fn trim(l: Seq<u8>) -> Seq<u8>
    decreases l.len(),
{
    if l.len() == 0 {
        l
    } else if is_space(l[0]) {
        trim(l.drop_first())
    } else if is_space(l.last()) {
        trim(l.drop_last())
    } else {
        l
    }
}

/// A source line with its comment removed and its ends trimmed.
pub open spec fn clean(l: Seq<u8>) -> Seq<u8> {
    trim(l.subrange(0, comment_start(l, 0)))
}

/// The number written by a string of decimal digits.
pub open spec fn digits_value(d: Seq<u8>) -> int
    decreases d.len(),
{
    if d.len() == 0 {
        0
    } else {
        digits_value(d.drop_last()) * 10 + (d.last() - 48)
    }
}

/// The digits of a literal: the text after an optional leading `+`.
pub open spec fn literal_digits(s: Seq<u8>) -> Seq<u8> {
    if s.len() > 0 && s[0] == PLUS {
        s.drop_first()
    } else {
        s
    }
}

pub open spec fn all_digits(d: Seq<u8>) -> bool {
    forall|i: int| 0 <= i < d.len() ==> is_digit(#[trigger] d[i])
}

/// A byte written in decimal, with an optional leading `+`.
pub open spec fn byte_literal(s: Seq<u8>) -> Option<u8> {
    let d = literal_digits(s);
    if d.len() > 0 && all_digits(d) && digits_value(d) <= 255 {
        Some(digits_value(d) as u8)
    } else {
        None
    }
}

pub proof fn lemma_find_byte_bounds(l: Seq<u8>, c: u8, j: int)
    requires
        0 <= j <= l.len(),
    ensures
        j <= find_byte(l, c, j) <= l.len(),
        find_byte(l, c, j) < l.len() ==> l[find_byte(l, c, j)] == c,
    decreases l.len() - j,
{
    if j < l.len() && l[j] != c {
        lemma_find_byte_bounds(l, c, j + 1);
    }
}

/// Where `c` first occurs in `l` at or after `from`, or `l.len()`.
pub fn find(l: &[u8], c: u8, from: usize) -> (r: usize)
    requires
        from <= l@.len(),
    ensures
        r == find_byte(l@, c, from as int),
        from <= r <= l@.len(),
{
    let mut i = from;
    while i < l.len()
        invariant
            from <= i <= l@.len(),
            find_byte(l@, c, from as int) == find_byte(l@, c, i as int),
        decreases l@.len() - i,
    {
        if l[i] == c {
            return i;
        }
        i = i + 1;
    }
    i
}

/// How many bytes of `l` equal `c`.
pub fn count(l: &[u8], c: u8) -> (r: usize)
    ensures
        r == count_byte(l@, c),
{
    let mut n: usize = 0;
    let mut i: usize = 0;
    while i < l.len()
        invariant
            i <= l@.len(),
            n <= i,
            n == count_byte(l@.subrange(0, i as int), c),
        decreases l@.len() - i,
    {
        assert(l@.subrange(0, i + 1).drop_last() =~= l@.subrange(0, i as int));
        if l[i] == c {
            n = n + 1;
        }
        i = i + 1;
    }
    assert(l@.subrange(0, i as int) =~= l@);
    n
}

/// The line without its comment and without whitespace at either end.
pub fn clean_line(l: &[u8]) -> (r: &[u8])
    ensures
        r@ == clean(l@),
{
    let mut end: usize = 0;
    let mut found = false;
    while end < l.len() && end + 1 < l.len() && !found
        invariant
            end <= l@.len(),
            found ==> comment_start(l@, 0) == end,
            !found ==> comment_start(l@, 0) == comment_start(l@, end as int),
        decreases l@.len() - end + if found { 0int } else { 1 },
    {
        if l[end] == SLASH && l[end + 1] == SLASH {
            found = true;
        } else {
            end = end + 1;
        }
    }
    if !found {
        end = l.len();
    }
    let code = slice_subrange(l, 0, end);
    assert(code@ == l@.subrange(0, comment_start(l@, 0)));
    assert(code@.subrange(0, code@.len() as int) =~= code@);
    let mut i: usize = 0;
    while i < code.len() && is_space_byte(code[i])
        invariant
            i <= code@.len(),
            trim(code@) == trim(code@.subrange(i as int, code@.len() as int)),
        decreases code@.len() - i,
    {
        assert(code@.subrange(i as int, code@.len() as int).drop_first() =~= code@.subrange(
            i + 1,
            code@.len() as int,
        ));
        i = i + 1;
    }
    let mut j: usize = code.len();
    while j > i && is_space_byte(code[j - 1])
        invariant
            i <= j <= code@.len(),
            i < code@.len() ==> !is_space(code@[i as int]),
            trim(code@) == trim(code@.subrange(i as int, j as int)),
        decreases j,
    {
        let ghost t = code@.subrange(i as int, j as int);
        assert(t.drop_last() =~= code@.subrange(i as int, j - 1));
        assert(t.len() > 0 && !is_space(t[0]) && is_space(t.last()));
        assert(trim(t) == trim(t.drop_last()));
        j = j - 1;
    }
    slice_subrange(code, i, j)
}

pub fn is_space_byte(c: u8) -> (r: bool)
    ensures
        r == is_space(c),
{
    c == SPACE || (9 <= c && c <= 13)
}

/// Reads a decimal byte literal, with an optional leading `+`.
pub fn parse_byte(s: &[u8]) -> (r: Option<u8>)
    ensures
        r == byte_literal(s@),
{
    let d = if s.len() > 0 && s[0] == PLUS {
        slice_subrange(s, 1, s.len())
    } else {
        s
    };
    assert(d@ =~= literal_digits(s@));
    if d.len() == 0 {
        return None;
    }
    let mut acc: u16 = 0;
    let mut i: usize = 0;
    while i < d.len()
        invariant
            i <= d@.len(),
            d@ == literal_digits(s@),
            forall|k: int| 0 <= k < i ==> is_digit(#[trigger] d@[k]),
            digits_value(d@.subrange(0, i as int)) >= 0,
            acc == if digits_value(d@.subrange(0, i as int)) <= 255 {
                digits_value(d@.subrange(0, i as int))
            } else {
                256
            },
        decreases d@.len() - i,
    {
        let c = d[i];
        if !(48 <= c && c <= 57) {
            assert(!is_digit(d@[i as int]));
            return None;
        }
        assert(d@.subrange(0, i + 1).drop_last() =~= d@.subrange(0, i as int));
        acc = if acc * 10 + (c - 48) as u16 > 255 {
            256
        } else {
            acc * 10 + (c - 48) as u16
        };
        i = i + 1;
    }
    assert(d@.subrange(0, i as int) =~= d@);
    if acc > 255 {
        None
    } else {
        Some(acc as u8)
    }
}

} // verus!
