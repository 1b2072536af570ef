//! Text predicates shared by name validation.

use vstd::prelude::*;
use vstd::string::*;

verus! {

/// The characters that `char::is_whitespace` accepts (Unicode `White_Space`).
pub open spec fn is_unicode_whitespace(c: char) -> bool {
    let v = c as u32;
    ||| 0x09 <= v <= 0x0D
    ||| v == 0x20
    ||| v == 0x85
    ||| v == 0xA0
    ||| v == 0x1680
    ||| 0x2000 <= v <= 0x200A
    ||| v == 0x2028
    ||| v == 0x2029
    ||| v == 0x202F
    ||| v == 0x205F
    ||| v == 0x3000
}

/// A text is blank when trimming its whitespace leaves nothing.
pub open spec fn spec_is_blank(s: Seq<char>) -> bool {
    forall|i: int| 0 <= i < s.len() ==> is_unicode_whitespace(#[trigger] s[i])
}

pub fn is_whitespace_char(c: char) -> (r: bool)
    ensures
        r == is_unicode_whitespace(c),
{
    let v = c as u32;
    (0x09 <= v && v <= 0x0D) || v == 0x20 || v == 0x85 || v == 0xA0 || v == 0x1680
        || (0x2000 <= v && v <= 0x200A) || v == 0x2028 || v == 0x2029 || v == 0x202F || v == 0x205F
        || v == 0x3000
}

/// True when `s` is empty or holds only whitespace, as `s.trim().is_empty()`.
pub fn is_blank(s: &str) -> (r: bool)
    ensures
        r == spec_is_blank(s@),
{
    let n = s.unicode_len();
    let mut i: usize = 0;
    while i < n
        invariant
            n == s@.len(),
            i <= n,
            forall|j: int| 0 <= j < i ==> is_unicode_whitespace(#[trigger] s@[j]),
        decreases n - i,
    {
        let c = s.get_char(i);
        if !is_whitespace_char(c) {
            return false;
        }
        i = i + 1;
    }
    true
}


/// The index of the first character of `s` from `i` on that is not whitespace.
pub open spec fn first_solid(s: Seq<char>, i: int) -> int
    decreases s.len() - i,
{
    if i >= s.len() || i < 0 { s.len() as int } else if !is_unicode_whitespace(s[i]) { i } else { first_solid(s, i + 1) }
}

/// One past the last character of `s` before `j` that is not whitespace.
pub open spec fn last_solid(s: Seq<char>, j: int) -> int
    decreases j,
{
    if j <= 0 || j > s.len() { 0 } else if !is_unicode_whitespace(s[j - 1]) { j } else { last_solid(s, j - 1) }
}

/// `s` without leading and trailing whitespace, as `str::trim` gives it.
pub open spec fn trimmed(s: Seq<char>) -> Seq<char> {
    let a = first_solid(s, 0);
    if a >= s.len() { Seq::empty() } else { s.subrange(a, last_solid(s, s.len() as int)) }
}

proof fn lemma_first_solid_bounds(s: Seq<char>, i: int)
    requires
        0 <= i <= s.len(),
    ensures
        i <= first_solid(s, i) <= s.len(),
        first_solid(s, i) < s.len() ==> !is_unicode_whitespace(s[first_solid(s, i)]),
    decreases s.len() - i,
{
    if i < s.len() && is_unicode_whitespace(s[i]) {
        lemma_first_solid_bounds(s, i + 1);
    }
}

proof fn lemma_last_solid_bounds(s: Seq<char>, j: int, a: int)
    requires
        0 <= a < j <= s.len(),
        !is_unicode_whitespace(s[a]),
    ensures
        a < last_solid(s, j) <= j,
    decreases j,
{
    if is_unicode_whitespace(s[j - 1]) {
        lemma_last_solid_bounds(s, j - 1, a);
    }
}

/// `s` without leading and trailing whitespace.
pub fn trim_text(s: &str) -> (r: &str)
    ensures
        r@ == trimmed(s@),
{
    let n = s.unicode_len();
    let mut a: usize = 0;
    while a < n && is_whitespace_char(s.get_char(a))
        invariant
            n == s@.len(),
            a <= n,
            first_solid(s@, 0) == first_solid(s@, a as int),
        decreases n - a,
    {
        a = a + 1;
    }
    if a >= n {
        return s.substring_char(0, 0);
    }
    proof { lemma_first_solid_bounds(s@, 0); }
    let mut b: usize = n;
    while b > a && is_whitespace_char(s.get_char(b - 1))
        invariant
            n == s@.len(),
            a < n,
            a < b <= n,
            !is_unicode_whitespace(s@[a as int]),
            last_solid(s@, n as int) == last_solid(s@, b as int),
        decreases b,
    {
        b = b - 1;
    }
    proof {
        lemma_last_solid_bounds(s@, n as int, a as int);
        assert(first_solid(s@, a as int) == a);
        assert(last_solid(s@, b as int) == b);
    }
    s.substring_char(a, b)
}

/// The lower-case form of a text, as `str::to_lowercase` gives it.
pub uninterp spec fn lowercase_text(s: Seq<char>) -> Seq<char>;

/// Lower-cases a text with `str::to_lowercase`; the result is named, not computed here.
#[verifier::external_body]
pub(crate) fn lowercase(s: &str) -> (r: String)
    ensures
        r@ == lowercase_text(s@),
{
    s.to_lowercase()
}


/// Lexicographic order of texts by code point, which is also the byte order of their UTF-8
/// encodings.
pub open spec fn chars_lt(a: Seq<char>, b: Seq<char>) -> bool
    decreases a.len(),
{
    if a.len() == 0 {
        b.len() > 0
    } else if b.len() == 0 {
        false
    } else if a[0] != b[0] {
        (a[0] as int) < (b[0] as int)
    } else {
        chars_lt(a.drop_first(), b.drop_first())
    }
}

pub proof fn lemma_chars_lt_irreflexive(a: Seq<char>)
    ensures
        !chars_lt(a, a),
    decreases a.len(),
{
    if a.len() > 0 {
        lemma_chars_lt_irreflexive(a.drop_first());
    }
}

pub proof fn lemma_chars_lt_transitive(a: Seq<char>, b: Seq<char>, c: Seq<char>)
    requires
        chars_lt(a, b),
        chars_lt(b, c),
    ensures
        chars_lt(a, c),
    decreases a.len(),
{
    if a.len() > 0 && b.len() > 0 && c.len() > 0 && a[0] == b[0] && b[0] == c[0] {
        lemma_chars_lt_transitive(a.drop_first(), b.drop_first(), c.drop_first());
    }
}

pub proof fn lemma_chars_lt_total(a: Seq<char>, b: Seq<char>)
    requires
        a != b,
    ensures
        chars_lt(a, b) || chars_lt(b, a),
    decreases a.len(),
{
    if a.len() == 0 {
        if b.len() == 0 {
            assert(a =~= b);
        }
    } else if b.len() > 0 && a[0] == b[0] {
        if a.drop_first() == b.drop_first() {
            assert(a =~= seq![a[0]] + a.drop_first());
            assert(b =~= seq![b[0]] + b.drop_first());
        }
        lemma_chars_lt_total(a.drop_first(), b.drop_first());
    } else if b.len() > 0 {
        assert((a[0] as int) != (b[0] as int));
    }
}

/// Compares two texts code point by code point.
pub fn text_lt(a: &str, b: &str) -> (r: bool)
    ensures
        r == chars_lt(a@, b@),
{
    let na = a.unicode_len();
    let nb = b.unicode_len();
    let mut k: usize = 0;
    proof {
        assert(a@.skip(0) =~= a@);
        assert(b@.skip(0) =~= b@);
    }
    while k < na && k < nb
        invariant
            k <= na,
            k <= nb,
            na == a@.len(),
            nb == b@.len(),
            chars_lt(a@, b@) == chars_lt(a@.skip(k as int), b@.skip(k as int)),
        decreases na - k,
    {
        let ca = a.get_char(k);
        let cb = b.get_char(k);
        proof {
            assert(a@.skip(k as int)[0] == ca);
            assert(b@.skip(k as int)[0] == cb);
            assert(a@.skip(k as int).drop_first() =~= a@.skip(k + 1));
            assert(b@.skip(k as int).drop_first() =~= b@.skip(k + 1));
        }
        if ca != cb {
            return (ca as u32) < (cb as u32);
        }
        k = k + 1;
    }
    k < nb
}
} // verus!
