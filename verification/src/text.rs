//! Character-level helpers shared by the grammar: white-space trimming and
//! string comparison, specified over `Seq<char>` views.

use vstd::prelude::*;

verus! {

/// The white-space characters recognised by the grammar.
pub open spec fn is_space(c: char) -> bool {
    c == ' ' || c == '\t' || c == '\r' || c == '\n' || c == '\u{b}' || c == '\u{c}'
}

/// `s` with its leading white-space removed.
pub open spec fn trim_start(s: Seq<char>) -> Seq<char>
    decreases s.len(),
{
    if s.len() > 0 && is_space(s[0]) {
        trim_start(s.drop_first())
    } else {
        s
    }
}

/// `s` with its trailing white-space removed.
pub open spec fn trim_end(s: Seq<char>) -> Seq<char>
    decreases s.len(),
{
    if s.len() > 0 && is_space(s.last()) {
        trim_end(s.drop_last())
    } else {
        s
    }
}

/// `s` with leading and trailing white-space removed.
pub open spec fn trim(s: Seq<char>) -> Seq<char> {
    trim_end(trim_start(s))
}

/// Removing leading white-space keeps a suffix of the sequence: if the first
/// `a` characters are white-space and the one after them (if any) is not,
/// the trimmed-start sequence is exactly the suffix from `a`.
proof fn lemma_trim_start_at(s: Seq<char>, a: int)
    requires
        0 <= a <= s.len(),
        forall|i: int| 0 <= i < a ==> is_space(s[i]),
        a == s.len() || !is_space(s[a]),
    ensures
        trim_start(s) == s.subrange(a, s.len() as int),
    decreases a,
{
    if a == 0 {
        assert(s.subrange(0, s.len() as int) =~= s);
    } else {
        assert(is_space(s[0]));
        lemma_trim_start_at(s.drop_first(), a - 1);
        assert(s.drop_first().subrange(a - 1, s.drop_first().len() as int)
            =~= s.subrange(a, s.len() as int));
    }
}

/// Counterpart of `lemma_trim_start_at` for the trailing end: if the
/// characters from `b` on are white-space and the one before `b` (if any)
/// is not, the trimmed-end sequence is exactly the prefix up to `b`.
proof fn lemma_trim_end_at(s: Seq<char>, b: int)
    requires
        0 <= b <= s.len(),
        forall|i: int| b <= i < s.len() ==> is_space(s[i]),
        b == 0 || !is_space(s[b - 1]),
    ensures
        trim_end(s) == s.subrange(0, b),
    decreases s.len() - b,
{
    if b == s.len() {
        if s.len() > 0 && is_space(s.last()) {
            assert(!is_space(s[b - 1]));
            assert(false);
        }
        assert(s.subrange(0, s.len() as int) =~= s);
    } else {
        assert(is_space(s.last()));
        lemma_trim_end_at(s.drop_last(), b);
        assert(s.drop_last().subrange(0, b) =~= s.subrange(0, b));
    }
}

/// Returns true if `c` is a white-space character.
pub fn space_char(c: char) -> (r: bool)
    ensures
        r == is_space(c),
{
    c == ' ' || c == '\t' || c == '\r' || c == '\n' || c == '\u{b}' || c == '\u{c}'
}

/// Returns `s` with leading and trailing white-space removed.
pub fn trim_str(s: &str) -> (r: &str)
    ensures
        r@ == trim(s@),
{
    let len = s.unicode_len();
    let mut a: usize = 0;
    while a < len && space_char(s.get_char(a))
        invariant
            0 <= a <= len,
            len == s@.len(),
            forall|i: int| 0 <= i < a ==> is_space(s@[i]),
        decreases len - a,
    {
        a = a + 1;
    }
    if a == len {
        proof {
            lemma_trim_start_at(s@, a as int);
            assert(trim_start(s@).len() == 0);
        }
        let r = s.substring_char(a, len);
        proof {
            assert(r@ =~= trim(s@));
        }
        return r;
    }
    let mut b: usize = len;
    while b > a && space_char(s.get_char(b - 1))
        invariant
            a <= b <= len,
            len == s@.len(),
            a < len,
            !is_space(s@[a as int]),
            forall|i: int| b <= i < len ==> is_space(s@[i]),
        decreases b,
    {
        b = b - 1;
    }
    proof {
        // b > a here: position a is not white-space, so the loop cannot
        // have stepped past it.
        lemma_trim_start_at(s@, a as int);
        let t = trim_start(s@);
        assert(t == s@.subrange(a as int, len as int));
        assert(forall|i: int| b - a <= i < t.len() ==> is_space(t[i]));
        lemma_trim_end_at(t, b - a);
        assert(t.subrange(0, b - a) =~= s@.subrange(a as int, b as int));
    }
    let r = s.substring_char(a, b);
    r
}

/// Returns true if the two strings hold the same characters.
pub fn str_eq(a: &str, b: &str) -> (r: bool)
    ensures
        r == (a@ == b@),
{
    let alen = a.unicode_len();
    let blen = b.unicode_len();
    if alen != blen {
        return false;
    }
    let mut i: usize = 0;
    while i < alen
        invariant
            0 <= i <= alen,
            alen == a@.len(),
            alen == b@.len(),
            forall|j: int| 0 <= j < i ==> a@[j] == b@[j],
        decreases alen - i,
    {
        if a.get_char(i) != b.get_char(i) {
            return false;
        }
        i = i + 1;
    }
    proof {
        assert(a@ =~= b@);
    }
    true
}

} // verus!
