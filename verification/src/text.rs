//! Character-level helpers shared by the rest of the crate.

use vstd::prelude::*;

verus! {

/// `String::push` appends one character to the end of the string.
pub assume_specification[ String::push ](s: &mut String, c: char)
    ensures
        final(s)@ == old(s)@.push(c),
;

/// The characters of `s`, in order.
pub fn chars_of(s: &str) -> (v: Vec<char>)
    ensures
        v@ == s@,
{
    let mut v: Vec<char> = Vec::new();
    for c in it: s.chars()
        invariant
            v@ == it.seq().take(it.index() as int),
            it.seq() == s@,
    {
        v.push(c);
    }
    v
}

/// The string made of the characters of `v`, in order.
pub fn string_of(v: &Vec<char>) -> (s: String)
    ensures
        s@ == v@,
{
    let mut s = String::new();
    let mut i: usize = 0;
    while i < v.len()
        invariant
            i <= v.len(),
            s@ == v@.take(i as int),
        decreases v.len() - i,
    {
        s.push(v[i]);
        i += 1;
    }
    s
}

/// Whether two strings hold the same characters.
pub fn str_eq(a: &str, b: &str) -> (same: bool)
    ensures
        same == (a@ == b@),
{
    let left = chars_of(a);
    let right = chars_of(b);
    if left.len() != right.len() {
        return false;
    }
    let mut i: usize = 0;
    while i < left.len()
        invariant
            left@ == a@,
            right@ == b@,
            left.len() == right.len(),
            i <= left.len(),
            left@.take(i as int) == right@.take(i as int),
        decreases left.len() - i,
    {
        if left[i] != right[i] {
            assert(a@[i as int] != b@[i as int]);
            return false;
        }
        assert(left@.take(i + 1) =~= left@.take(i as int).push(left@[i as int]));
        assert(right@.take(i + 1) =~= right@.take(i as int).push(right@[i as int]));
        i += 1;
    }
    assert(left@ =~= left@.take(i as int));
    assert(right@ =~= right@.take(i as int));
    true
}

/// The small letter for an ASCII capital letter; every other character is
/// itself.
pub open spec fn ascii_lower(c: char) -> char {
    if 0x41 <= (c as u32) <= 0x5a {
        ((c as u32) + 0x20) as char
    } else {
        c
    }
}

/// `s` with its ASCII capital letters made small.
pub open spec fn ascii_lowered(s: Seq<char>) -> Seq<char> {
    Seq::new(s.len(), |i: int| ascii_lower(s[i]))
}

/// Makes the ASCII capital letters of `s` small and leaves every other
/// character as it is.
pub fn to_ascii_lower(s: &str) -> (lower: String)
    ensures
        lower@ == ascii_lowered(s@),
{
    let text = chars_of(s);
    let mut lower = String::new();
    let mut i: usize = 0;
    while i < text.len()
        invariant
            i <= text.len(),
            lower@ == ascii_lowered(text@.take(i as int)),
        decreases text.len() - i,
    {
        let c = text[i];
        let code = c as u32;
        if 0x41 <= code && code <= 0x5a {
            lower.push(((code + 0x20) as u8) as char);
        } else {
            lower.push(c);
        }
        assert(lower@ =~= ascii_lowered(text@.take(i + 1)));
        i += 1;
    }
    assert(text@.take(i as int) =~= text@);
    lower
}

/// `s` with every occurrence of `pattern` replaced by `with`. Occurrences are
/// looked for from the left and do not overlap: the search goes on behind each
/// one that was replaced. An empty pattern occurs nowhere.
pub open spec fn replaced(s: Seq<char>, pattern: Seq<char>, with: Seq<char>) -> Seq<char>
    decreases s.len(),
{
    if pattern.len() == 0 || s.len() == 0 {
        s
    } else if pattern.is_prefix_of(s) {
        with + replaced(s.skip(pattern.len() as int), pattern, with)
    } else {
        seq![s[0]] + replaced(s.skip(1), pattern, with)
    }
}

fn occurs_at(text: &Vec<char>, at: usize, pattern: &Vec<char>) -> (found: bool)
    requires
        at <= text.len(),
    ensures
        found == pattern@.is_prefix_of(text@.skip(at as int)),
{
    if pattern.len() > text.len() - at {
        return false;
    }
    let ghost rest = text@.skip(at as int);
    let mut k: usize = 0;
    while k < pattern.len()
        invariant
            k <= pattern.len(),
            at + pattern.len() <= text.len(),
            rest == text@.skip(at as int),
            forall|j: int| 0 <= j < k ==> pattern@[j] == rest[j],
        decreases pattern.len() - k,
    {
        if pattern[k] != text[at + k] {
            assert(pattern@[k as int] != rest[k as int]);
            return false;
        }
        k += 1;
    }
    assert(pattern@ =~= rest.subrange(0, pattern@.len() as int));
    true
}

/// Replaces every occurrence of `pattern` in `s` by `with`, from the left and
/// without overlap. An empty pattern leaves `s` as it is.
pub fn replace_all(s: &str, pattern: &str, with: &str) -> (out: String)
    ensures
        out@ == replaced(s@, pattern@, with@),
{
    let text = chars_of(s);
    let wanted = chars_of(pattern);
    if wanted.len() == 0 {
        return s.to_owned();
    }
    let mut out = String::new();
    let mut i: usize = 0;
    assert(text@.skip(0) =~= text@);
    assert(out@ + replaced(text@, wanted@, with@) =~= replaced(text@, wanted@, with@));
    while i < text.len()
        invariant
            i <= text.len(),
            wanted@.len() > 0,
            replaced(text@, wanted@, with@) == out@ + replaced(
                text@.skip(i as int),
                wanted@,
                with@,
            ),
        decreases text.len() - i,
    {
        let ghost rest = text@.skip(i as int);
        let ghost held = out@;
        if occurs_at(&text, i, &wanted) {
            out.append(with);
            proof {
                assert(rest.skip(wanted@.len() as int) =~= text@.skip(i + wanted@.len()));
                assert(held + (with@ + replaced(
                    rest.skip(wanted@.len() as int),
                    wanted@,
                    with@,
                )) =~= out@ + replaced(text@.skip(i + wanted@.len()), wanted@, with@));
            }
            i += wanted.len();
        } else {
            out.push(text[i]);
            proof {
                assert(rest.skip(1) =~= text@.skip(i + 1));
                assert(held + (seq![rest[0]] + replaced(rest.skip(1), wanted@, with@)) =~= out@
                    + replaced(text@.skip(i + 1), wanted@, with@));
            }
            i += 1;
        }
    }
    assert(text@.skip(i as int) =~= Seq::<char>::empty());
    assert(out@ + Seq::<char>::empty() =~= out@);
    out
}

/// Whether `c` is white space: one of the characters that Unicode gives the
/// property `White_Space`.
pub open spec fn is_white_space(c: char) -> bool {
    let code = c as u32;
    ||| 0x09 <= code <= 0x0d
    ||| code == 0x20
    ||| code == 0x85
    ||| code == 0xa0
    ||| code == 0x1680
    ||| 0x2000 <= code <= 0x200a
    ||| code == 0x2028
    ||| code == 0x2029
    ||| code == 0x202f
    ||| code == 0x205f
    ||| code == 0x3000
}

/// `s` without the white space that it begins with.
pub open spec fn trimmed_start(s: Seq<char>) -> Seq<char>
    decreases s.len(),
{
    if s.len() > 0 && is_white_space(s[0]) {
        trimmed_start(s.skip(1))
    } else {
        s
    }
}

/// `s` without the white space that it ends in.
pub open spec fn trimmed_end(s: Seq<char>) -> Seq<char>
    decreases s.len(),
{
    if s.len() > 0 && is_white_space(s.last()) {
        trimmed_end(s.drop_last())
    } else {
        s
    }
}

/// `s` without the white space at its start and at its end.
pub open spec fn trimmed(s: Seq<char>) -> Seq<char> {
    trimmed_end(trimmed_start(s))
}

/// What is left of a text that has lost white space at its end is the first
/// part of that text.
pub proof fn lemma_trimmed_end_is_prefix(s: Seq<char>)
    ensures
        trimmed_end(s).is_prefix_of(s),
        trimmed_end(s).len() > 0 ==> !is_white_space(trimmed_end(s).last()),
    decreases s.len(),
{
    if s.len() > 0 && is_white_space(s.last()) {
        lemma_trimmed_end_is_prefix(s.drop_last());
        let rest = trimmed_end(s.drop_last());
        assert(rest =~= s.subrange(0, rest.len() as int));
    } else {
        assert(s =~= s.subrange(0, s.len() as int));
    }
}

/// A trimmed text neither begins nor ends with white space.
pub proof fn lemma_trimmed_has_no_white_ends(s: Seq<char>)
    ensures
        trimmed(s).len() > 0 ==> !is_white_space(trimmed(s)[0]) && !is_white_space(
            trimmed(s).last(),
        ),
    decreases s.len(),
{
    if s.len() > 0 && is_white_space(s[0]) {
        lemma_trimmed_has_no_white_ends(s.skip(1));
    } else {
        lemma_trimmed_end_is_prefix(s);
    }
}

/// Whether `c` is white space.
pub fn is_white_space_char(c: char) -> (white: bool)
    ensures
        white == is_white_space(c),
{
    let code = c as u32;
    (0x09 <= code && code <= 0x0d) || code == 0x20 || code == 0x85 || code == 0xa0 || code
        == 0x1680 || (0x2000 <= code && code <= 0x200a) || code == 0x2028 || code == 0x2029
        || code == 0x202f || code == 0x205f || code == 0x3000
}

/// Takes the white space off the start and the end of `s`.
pub fn trim(s: &str) -> (rest: String)
    ensures
        rest@ == trimmed(s@),
{
    let text = chars_of(s);
    let mut start: usize = 0;
    assert(text@.skip(0) =~= text@);
    while start < text.len() && is_white_space_char(text[start])
        invariant
            start <= text.len(),
            trimmed_start(text@) == trimmed_start(text@.skip(start as int)),
        decreases text.len() - start,
    {
        proof {
            assert(text@.skip(start as int)[0] == text@[start as int]);
            assert(text@.skip(start as int).skip(1) =~= text@.skip(start + 1));
        }
        start += 1;
    }
    proof {
        if start < text.len() {
            assert(text@.skip(start as int)[0] == text@[start as int]);
        }
        assert(trimmed_start(text@) == text@.skip(start as int));
    }
    let mut end: usize = text.len();
    assert(text@.subrange(start as int, end as int) =~= text@.skip(start as int));
    while end > start && is_white_space_char(text[end - 1])
        invariant
            start <= end <= text.len(),
            trimmed(text@) == trimmed_end(text@.subrange(start as int, end as int)),
        decreases end,
    {
        proof {
            let part = text@.subrange(start as int, end as int);
            assert(part.last() == text@[end - 1]);
            assert(part.drop_last() =~= text@.subrange(start as int, end - 1));
        }
        end -= 1;
    }
    proof {
        let part = text@.subrange(start as int, end as int);
        if end > start {
            assert(part.last() == text@[end - 1]);
        }
        assert(trimmed(text@) == part);
    }
    let mut rest = String::new();
    let mut i: usize = start;
    while i < end
        invariant
            start <= i <= end,
            end <= text.len(),
            rest@ == text@.subrange(start as int, i as int),
        decreases end - i,
    {
        rest.push(text[i]);
        assert(rest@ =~= text@.subrange(start as int, i + 1));
        i += 1;
    }
    rest
}

} // verus!
