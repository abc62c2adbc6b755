//! Text helpers shared by the parser and the state machine, stated over the
//! character view of a string. Lengths and positions count characters, never
//! bytes.

use vstd::prelude::*;
use vstd::string::StrSliceExecFns;
use vstd::string::StringExecFns;
use vstd::string::StringSliceAdditionalSpecFns;

verus! {

/// The characters that count as white space when a line is trimmed: the
/// code points with the Unicode property `White_Space`.
pub open spec fn is_space(c: char) -> bool {
    let u = c as u32;
    ||| 0x09 <= u <= 0x0D
    ||| u == 0x20
    ||| u == 0x85
    ||| u == 0xA0
    ||| u == 0x1680
    ||| 0x2000 <= u <= 0x200A
    ||| u == 0x2028
    ||| u == 0x2029
    ||| u == 0x202F
    ||| u == 0x205F
    ||| u == 0x3000
}

/// `s` without its leading white space.
pub open spec fn strip_leading(s: Seq<char>) -> Seq<char>
    decreases s.len(),
{
    if s.len() > 0 && is_space(s[0]) {
        strip_leading(s.drop_first())
    } else {
        s
    }
}

/// `s` without its trailing white space.
pub open spec fn strip_trailing(s: Seq<char>) -> Seq<char>
    decreases s.len(),
{
    if s.len() > 0 && is_space(s.last()) {
        strip_trailing(s.drop_last())
    } else {
        s
    }
}

/// `s` without white space at either end.
pub open spec fn trimmed(s: Seq<char>) -> Seq<char> {
    strip_trailing(strip_leading(s))
}

/// The first `n` characters of `s`, or all of `s` where it is shorter.
pub open spec fn first_chars(s: Seq<char>, n: nat) -> Seq<char> {
    if s.len() <= n {
        s
    } else {
        s.take(n as int)
    }
}

/// What follows the last `sep` in `s`; all of `s` where it holds none.
pub open spec fn after_last(s: Seq<char>, sep: char) -> Seq<char>
    decreases s.len(),
{
    if s.len() == 0 || s.last() == sep {
        Seq::empty()
    } else {
        after_last(s.drop_last(), sep).push(s.last())
    }
}

/// Whether `s` ends in `suffix`.
pub open spec fn has_suffix(s: Seq<char>, suffix: Seq<char>) -> bool {
    suffix.len() <= s.len() && s.skip(s.len() - suffix.len()) == suffix
}

/// Stripping leading white space drops exactly the first `a` characters when
/// those are white space and the next one, if any, is not.
pub proof fn lemma_strip_leading(s: Seq<char>, a: int)
    requires
        0 <= a <= s.len(),
        forall|j: int| 0 <= j < a ==> is_space(#[trigger] s[j]),
        a < s.len() ==> !is_space(s[a]),
    ensures
        strip_leading(s) == s.skip(a),
    decreases a,
{
    if a == 0 {
        assert(s.skip(0) =~= s);
    } else {
        let rest = s.drop_first();
        assert(is_space(s[0]));
        assert forall|j: int| 0 <= j < a - 1 implies is_space(#[trigger] rest[j]) by {
            assert(rest[j] == s[j + 1]);
        }
        lemma_strip_leading(rest, a - 1);
        assert(rest.skip(a - 1) =~= s.skip(a));
    }
}

/// Stripping trailing white space keeps exactly the first `b` characters when
/// the rest is white space and the one before position `b`, if any, is not.
pub proof fn lemma_strip_trailing(s: Seq<char>, b: int)
    requires
        0 <= b <= s.len(),
        forall|j: int| b <= j < s.len() ==> is_space(#[trigger] s[j]),
        0 < b ==> !is_space(s[b - 1]),
    ensures
        strip_trailing(s) == s.take(b),
    decreases s.len() - b,
{
    if b == s.len() {
        assert(s.take(b) =~= s);
    } else {
        let rest = s.drop_last();
        assert(is_space(s[s.len() - 1]));
        lemma_strip_trailing(rest, b);
        assert(rest.take(b) =~= s.take(b));
    }
}

/// What follows the last `sep` starts at `start` when `sep` stands just
/// before that position, or `start` is 0, and nowhere after it.
pub proof fn lemma_after_last(s: Seq<char>, sep: char, start: int)
    requires
        0 <= start <= s.len(),
        0 < start ==> s[start - 1] == sep,
        forall|j: int| start <= j < s.len() ==> #[trigger] s[j] != sep,
    ensures
        after_last(s, sep) == s.skip(start),
    decreases s.len() - start,
{
    if start == s.len() {
        assert(s.skip(start) =~= Seq::<char>::empty());
    } else {
        let rest = s.drop_last();
        assert(s[s.len() - 1] != sep);
        lemma_after_last(rest, sep, start);
        assert(rest.skip(start).push(s.last()) =~= s.skip(start));
    }
}

/// Calls `core::str::from_utf8`. The contract claims what its
/// documentation says: there is a string exactly where the bytes are valid
/// UTF-8, and the string's bytes are the bytes given.
#[verifier::external_body]
pub(crate) fn utf8_text(bytes: &[u8]) -> (text: Option<&str>)
    ensures
        match text {
            Some(s) => s.spec_bytes() == bytes@,
            None => !vstd::utf8::valid_utf8(bytes@),
        },
{
    core::str::from_utf8(bytes).ok()
}

/// Whether `c` is white space.
pub fn char_is_space(c: char) -> (space: bool)
    ensures
        space == is_space(c),
{
    let u: u32 = c as u32;
    (0x09 <= u && u <= 0x0D) || u == 0x20 || u == 0x85 || u == 0xA0 || u == 0x1680 || (0x2000 <= u
        && u <= 0x200A) || u == 0x2028 || u == 0x2029 || u == 0x202F || u == 0x205F || u == 0x3000
}

/// Whether two string slices hold the same characters.
pub fn str_eq(a: &str, b: &str) -> (same: bool)
    ensures
        same == (a@ == b@),
{
    let x = a.as_bytes();
    let y = b.as_bytes();
    proof {
        vstd::utf8::encode_utf8_decode_utf8(a@);
        vstd::utf8::encode_utf8_decode_utf8(b@);
    }
    if x.len() != y.len() {
        return false;
    }
    let mut i: usize = 0;
    while i < x.len()
        invariant
            x@ == a.spec_bytes(),
            y@ == b.spec_bytes(),
            x@.len() == y@.len(),
            i <= x@.len(),
            forall|k: int| 0 <= k < i ==> x@[k] == y@[k],
        decreases x@.len() - i,
    {
        if x[i] != y[i] {
            return false;
        }
        i += 1;
    }
    assert(x@ =~= y@);
    true
}

/// An owned copy of `s`.
pub fn owned(s: &str) -> (copy: String)
    ensures
        copy@ == s@,
{
    String::from_str(s)
}

/// `a` followed by `b`.
pub fn join_text(a: &str, b: &str) -> (joined: String)
    ensures
        joined@ == a@ + b@,
{
    String::from_str(a).concat(b)
}

/// `s` without white space at either end.
pub fn trim(s: &str) -> (core: &str)
    ensures
        core@ == trimmed(s@),
{
    let total = s.unicode_len();
    let mut start: usize = 0;
    let mut seen = false;
    let mut end: usize = 0;
    let mut i: usize = 0;
    for c in it: s.chars()
        invariant
            i == it.index(),
            it.seq() == s@,
            total == s@.len(),
            !seen ==> start == i && end == i,
            seen ==> start < end <= i && !is_space(s@[start as int]) && !is_space(
                s@[end - 1],
            ),
            forall|j: int| 0 <= j < start ==> is_space(#[trigger] s@[j]),
            forall|j: int| end <= j < i && seen ==> is_space(#[trigger] s@[j]),
    {
        if char_is_space(c) {
            if !seen {
                start = i + 1;
                end = i + 1;
            }
        } else {
            if !seen {
                seen = true;
                start = i;
            }
            end = i + 1;
        }
        i += 1;
    }
    proof {
        let lead = s@.skip(start as int);
        lemma_strip_leading(s@, start as int);
        assert forall|j: int| end - start <= j < lead.len() implies is_space(
            #[trigger] lead[j],
        ) by {
            assert(lead[j] == s@[j + start]);
        }
        lemma_strip_trailing(lead, end - start);
        assert(lead.take(end - start) =~= s@.subrange(start as int, end as int));
    }
    s.substring_char(start, end)
}

/// The first `n` characters of `s`, or all of `s` where it is shorter.
pub fn take_chars(s: &str, n: usize) -> (head: String)
    ensures
        head@ == first_chars(s@, n as nat),
{
    let total = s.unicode_len();
    if total <= n {
        String::from_str(s)
    } else {
        String::from_str(s.substring_char(0, n))
    }
}

/// What follows the last `sep` in `s`; all of `s` where it holds none.
pub fn tail_after<'a>(s: &'a str, sep: char) -> (tail: &'a str)
    ensures
        tail@ == after_last(s@, sep),
{
    let total = s.unicode_len();
    let mut start: usize = 0;
    let mut i: usize = 0;
    for c in it: s.chars()
        invariant
            i == it.index(),
            it.seq() == s@,
            total == s@.len(),
            start <= i,
            0 < start ==> s@[start - 1] == sep,
            forall|j: int| start <= j < i ==> #[trigger] s@[j] != sep,
    {
        if c == sep {
            start = i + 1;
        }
        i += 1;
    }
    proof {
        lemma_after_last(s@, sep, start as int);
        assert(s@.skip(start as int) =~= s@.subrange(start as int, total as int));
    }
    s.substring_char(start, total)
}

/// Whether `s` ends in `suffix`.
pub fn ends_with(s: &str, suffix: &str) -> (found: bool)
    ensures
        found == has_suffix(s@, suffix@),
{
    let total = s.unicode_len();
    let n = suffix.unicode_len();
    if total < n {
        return false;
    }
    let tail = s.substring_char(total - n, total);
    assert(s@.skip(total - n) =~= s@.subrange(total - n, total as int));
    str_eq(tail, suffix)
}

} // verus!
