//! Trimming a leading and a trailing keyword, with the whitespace around
//! them, off a piece of text. The positions handed out are byte offsets
//! into the UTF-8 text.
use vstd::prelude::*;

use crate::placeholder::{inert, lemma_count_concat, lemma_inert_count, token_count};
use crate::text::{byte_offset, byte_pos, chars_of, string_of_range};

verus! {

/// Unicode's White_Space property, as `char::is_whitespace` documents it.
pub open spec fn is_space(c: char) -> bool {
    ('\u{9}' <= c && c <= '\u{d}') || c == ' ' || c == '\u{85}' || c == '\u{a0}'
        || c == '\u{1680}' || ('\u{2000}' <= c && c <= '\u{200a}') || c == '\u{2028}'
        || c == '\u{2029}' || c == '\u{202f}' || c == '\u{205f}' || c == '\u{3000}'
}

/// Whether `c` is a White_Space character.
fn is_space_char(c: char) -> (r: bool)
    ensures
        r == is_space(c),
{
    ('\u{9}' <= c && c <= '\u{d}') || c == ' ' || c == '\u{85}' || c == '\u{a0}'
        || c == '\u{1680}' || ('\u{2000}' <= c && c <= '\u{200a}') || c == '\u{2028}'
        || c == '\u{2029}' || c == '\u{202f}' || c == '\u{205f}' || c == '\u{3000}'
}

/// The code of `c` after ASCII lower-casing; other characters keep theirs.
pub open spec fn ascii_lower(c: char) -> int {
    if 'A' <= c && c <= 'Z' {
        c as int + 32
    } else {
        c as int
    }
}

/// `a` and `b` are equal but for ASCII case.
pub open spec fn eq_ignore_case(a: Seq<char>, b: Seq<char>) -> bool {
    a.len() == b.len() && forall|k: int| 0 <= k < a.len() ==> ascii_lower(a[k]) == ascii_lower(b[k])
}

/// The number of whitespace characters at the start of `v`.
pub open spec fn leading_space(v: Seq<char>) -> nat
    decreases v.len(),
{
    if v.len() > 0 && is_space(v[0]) {
        1 + leading_space(v.drop_first())
    } else {
        0
    }
}

/// The number of whitespace characters at the end of `v`.
pub open spec fn trailing_space(v: Seq<char>) -> nat
    decreases v.len(),
{
    if v.len() > 0 && is_space(v.last()) {
        1 + trailing_space(v.drop_last())
    } else {
        0
    }
}

/// Where the kept text starts: at the first non-whitespace character, past
/// `prefix` where it stands there; 0 where `v` is all whitespace.
pub open spec fn trim_start(prefix: Seq<char>, v: Seq<char>) -> int {
    let i = leading_space(v) as int;
    if i == v.len() {
        0
    } else if prefix.len() == 0 || v.len() - i < prefix.len() {
        i
    } else if eq_ignore_case(prefix, v.subrange(i, i + prefix.len())) {
        i + prefix.len()
    } else {
        i
    }
}

/// Where the kept text ends: one past the last non-whitespace character,
/// before `suffix` where it stands there; the length where `v` is all
/// whitespace.
pub open spec fn trim_end(suffix: Seq<char>, v: Seq<char>) -> int {
    let e = v.len() - trailing_space(v);
    if e == 0 {
        v.len() as int
    } else if suffix.len() == 0 || e < suffix.len() {
        e
    } else if eq_ignore_case(suffix, v.subrange(e - suffix.len(), e)) {
        e - suffix.len()
    } else {
        e
    }
}

/// The text that trimming keeps; nothing where the two keywords overlap.
pub open spec fn trimmed(prefix: Seq<char>, suffix: Seq<char>, v: Seq<char>) -> Seq<char> {
    let s = trim_start(prefix, v);
    let e = trim_end(suffix, v);
    if s <= e {
        v.subrange(s, e)
    } else {
        seq![]
    }
}

fn lower_code(c: char) -> (r: u32)
    ensures
        r as int == ascii_lower(c),
{
    if 'A' <= c && c <= 'Z' {
        c as u32 + 32
    } else {
        c as u32
    }
}

/// Whether `v[at..at + k.len()]` equals `k` but for ASCII case.
fn matches_at(k: &Vec<char>, v: &Vec<char>, at: usize) -> (r: bool)
    requires
        at + k.len() <= v.len(),
    ensures
        r == eq_ignore_case(k@, v@.subrange(at as int, at + k.len())),
{
    let mut j: usize = 0;
    while j < k.len()
        invariant
            j <= k.len(),
            at + k.len() <= v.len(),
            forall|m: int| 0 <= m < j ==> ascii_lower(k@[m]) == ascii_lower(v@[at + m]),
        decreases k.len() - j,
    {
        if lower_code(k[j]) != lower_code(v[at + j]) {
            assert(!eq_ignore_case(k@, v@.subrange(at as int, at + k.len()))) by {
                assert(v@.subrange(at as int, at + k.len())[j as int] == v@[at + j]);
            }
            return false;
        }
        j += 1;
    }
    true
}

/// The number of whitespace characters at the start of `v`.
fn count_leading(v: &Vec<char>) -> (r: usize)
    ensures
        r == leading_space(v@),
        r <= v.len(),
{
    let mut i: usize = 0;
    assert(v@.skip(0) =~= v@);
    while i < v.len() && is_space_char(v[i])
        invariant
            i <= v.len(),
            leading_space(v@) == i + leading_space(v@.skip(i as int)),
        decreases v.len() - i,
    {
        assert(v@.skip(i as int).drop_first() =~= v@.skip(i + 1));
        i += 1;
    }
    i
}

/// The number of whitespace characters at the end of `v`.
fn count_trailing(v: &Vec<char>) -> (r: usize)
    ensures
        r == trailing_space(v@),
        r <= v.len(),
{
    let mut e: usize = v.len();
    assert(v@.subrange(0, e as int) =~= v@);
    while e > 0 && is_space_char(v[e - 1])
        invariant
            e <= v.len(),
            trailing_space(v@) == (v.len() - e) + trailing_space(v@.subrange(0, e as int)),
        decreases e,
    {
        assert(v@.subrange(0, e as int).drop_last() =~= v@.subrange(0, e - 1));
        e -= 1;
    }
    v.len() - e
}

fn start_of(prefix: &Vec<char>, v: &Vec<char>) -> (r: usize)
    ensures
        r == trim_start(prefix@, v@),
        r <= v.len(),
{
    let i = count_leading(v);
    if i == v.len() {
        return 0;
    }
    let fix_len = prefix.len();
    if fix_len == 0 || v.len() - i < fix_len {
        return i;
    }
    if matches_at(prefix, v, i) {
        i + fix_len
    } else {
        i
    }
}

fn end_of(suffix: &Vec<char>, v: &Vec<char>) -> (r: usize)
    ensures
        r == trim_end(suffix@, v@),
        r <= v.len(),
{
    let e = v.len() - count_trailing(v);
    if e == 0 {
        return v.len();
    }
    let fix_len = suffix.len();
    if fix_len == 0 || e < fix_len {
        return e;
    }
    if matches_at(suffix, v, e - fix_len) {
        e - fix_len
    } else {
        e
    }
}

/// The byte offset where the text that trimming `prefix` off `value`
/// keeps starts.
pub fn pre_trim(prefix: &str, value: &str) -> (r: usize)
    ensures
        r == byte_pos(value@, trim_start(prefix@, value@)),
{
    let v = chars_of(value);
    let i = start_of(&chars_of(prefix), &v);
    byte_offset(value, &v, i)
}

/// The byte offset where the text that trimming `suffix` off `value`
/// keeps ends.
pub fn suf_trim(suffix: &str, value: &str) -> (r: usize)
    ensures
        r == byte_pos(value@, trim_end(suffix@, value@)),
{
    let v = chars_of(value);
    let e = end_of(&chars_of(suffix), &v);
    byte_offset(value, &v, e)
}

/// The byte offsets where the text that trimming keeps starts and ends.
pub fn sql_trim(prefix: &str, suffix: &str, value: &str) -> (r: (usize, usize))
    ensures
        r.0 == byte_pos(value@, trim_start(prefix@, value@)),
        r.1 == byte_pos(value@, trim_end(suffix@, value@)),
{
    (pre_trim(prefix, value), suf_trim(suffix, value))
}

/// `v` trimmed of `prefix` and `suffix`, as characters.
pub fn trim_chars(prefix: &Vec<char>, suffix: &Vec<char>, v: &Vec<char>) -> (r: String)
    ensures
        r@ == trimmed(prefix@, suffix@, v@),
{
    let s = start_of(prefix, v);
    let e = end_of(suffix, v);
    if s <= e {
        string_of_range(v, s, e)
    } else {
        string_of_range(v, 0, 0)
    }
}

/// `value` trimmed of `prefix` and `suffix`.
pub fn sql_trim_string(prefix: &str, suffix: &str, value: &str) -> (r: String)
    ensures
        r@ == trimmed(prefix@, suffix@, value@),
{
    trim_chars(&chars_of(prefix), &chars_of(suffix), &chars_of(value))
}

/// Text that does not start with `prefix` nor end with `suffix` (but for
/// ASCII case), and has no whitespace at either end, is kept whole.
pub proof fn lemma_trim_idempotent(prefix: Seq<char>, suffix: Seq<char>, v: Seq<char>)
    requires
        v.len() > 0 ==> !is_space(v[0]) && !is_space(v.last()),
        prefix.len() == 0 || prefix.len() > v.len() || !eq_ignore_case(prefix, v.subrange(0, prefix.len() as int)),
        suffix.len() == 0 || suffix.len() > v.len() || !eq_ignore_case(suffix, v.subrange(v.len() - suffix.len(), v.len() as int)),
    ensures
        trimmed(prefix, suffix, v) == v,
{
    assert(leading_space(v) == 0);
    assert(trailing_space(v) == 0);
    assert(v.subrange(0, v.len() as int) =~= v);
}

proof fn lemma_leading_chars(v: Seq<char>)
    ensures
        leading_space(v) <= v.len(),
        forall|k: int| 0 <= k < leading_space(v) ==> is_space(#[trigger] v[k]),
    decreases v.len(),
{
    if v.len() > 0 && is_space(v[0]) {
        lemma_leading_chars(v.drop_first());
        assert forall|k: int| 0 <= k < leading_space(v) implies is_space(#[trigger] v[k]) by {
            if k > 0 {
                assert(v[k] == v.drop_first()[k - 1]);
            }
        }
    }
}

proof fn lemma_trailing_chars(v: Seq<char>)
    ensures
        trailing_space(v) <= v.len(),
        forall|k: int| v.len() - trailing_space(v) <= k < v.len() ==> is_space(#[trigger] v[k]),
    decreases v.len(),
{
    if v.len() > 0 && is_space(v.last()) {
        lemma_trailing_chars(v.drop_last());
        assert forall|k: int| v.len() - trailing_space(v) <= k < v.len() implies is_space(#[trigger] v[k]) by {
            if k < v.len() - 1 {
                assert(v[k] == v.drop_last()[k]);
            }
        }
    }
}

proof fn lemma_match_inert(kw: Seq<char>, sub: Seq<char>)
    requires
        inert(kw),
        eq_ignore_case(kw, sub),
    ensures
        inert(sub),
{
    assert forall|k: int| 0 <= k < sub.len() implies sub[k] != '?' && sub[k] != '$' && !crate::placeholder::is_digit(#[trigger] sub[k]) by {
        let a = kw[k];
        let b = sub[k];
        assert(ascii_lower(a) == ascii_lower(b));
        assert(a != '?' && a != '$' && !crate::placeholder::is_digit(a));
        if 'A' <= a && a <= 'Z' {
            assert(ascii_lower(a) >= 97);
        } else {
            assert(ascii_lower(a) == a as int);
        }
        if 'A' <= b && b <= 'Z' {
            assert(ascii_lower(b) >= 97);
        } else {
            assert(ascii_lower(b) == b as int);
        }
        assert(b != '?') by {
            if b == '?' {
                assert(b as int == 63);
            }
        }
        assert(b != '$') by {
            if b == '$' {
                assert(b as int == 36);
            }
        }
        assert(!crate::placeholder::is_digit(b)) by {
            if '0' <= b && b <= '9' {
                assert(48 <= b as int <= 57);
                assert(a as int == b as int);
            }
        }

    }
}

/// Trimming keywords that hold no token character keeps every token.
pub proof fn lemma_trim_count(prefix: Seq<char>, suffix: Seq<char>, v: Seq<char>)
    requires
        inert(prefix),
        inert(suffix),
    ensures
        token_count(trimmed(prefix, suffix, v)) == token_count(v),
{
    let n = v.len() as int;
    let s = trim_start(prefix, v);
    let e = trim_end(suffix, v);
    let i = leading_space(v) as int;
    let e0 = n - trailing_space(v);
    lemma_leading_chars(v);
    lemma_trailing_chars(v);
    if s > 0 {
        assert forall|k: int| 0 <= k < i implies #[trigger] v[k] != '?' && v[k] != '$' && !crate::placeholder::is_digit(v[k]) by {
            assert(is_space(v[k]));
        }
        if s > i {
            lemma_match_inert(prefix, v.subrange(i, s));
            assert forall|k: int| i <= k < s implies #[trigger] v[k] != '?' && v[k] != '$' && !crate::placeholder::is_digit(v[k]) by {
                assert(v[k] == v.subrange(i, s)[k - i]);
            }
        }
    }
    assert(inert(v.subrange(0, s)));
    if e < n {
        assert forall|k: int| e0 <= k < n implies #[trigger] v[k] != '?' && v[k] != '$' && !crate::placeholder::is_digit(v[k]) by {
            assert(is_space(v[k]));
        }
        if e < e0 {
            lemma_match_inert(suffix, v.subrange(e, e0));
            assert forall|k: int| e <= k < e0 implies #[trigger] v[k] != '?' && v[k] != '$' && !crate::placeholder::is_digit(v[k]) by {
                assert(v[k] == v.subrange(e, e0)[k - e]);
            }
        }
    }
    assert(inert(v.subrange(e, n)));
    if s <= e {
        let a = v.subrange(0, s);
        let b = v.subrange(s, e);
        let c = v.subrange(e, n);
        assert(v =~= a + (b + c));
        lemma_inert_count(a);
        lemma_inert_count(c);
        if c.len() > 0 {
            assert(c[0] == v[e]);
        }
        lemma_count_concat(b, c);
        if a.len() > 0 {
            assert(a.last() == v[s - 1]);
        }
        lemma_count_concat(a, b + c);
    } else {
        let a = v.subrange(0, e);
        let c = v.subrange(e, n);
        assert(v =~= a + c);
        assert(inert(a)) by {
            assert forall|k: int| 0 <= k < a.len() implies a[k] != '?' && a[k] != '$' && !crate::placeholder::is_digit(#[trigger] a[k]) by {
                assert(a[k] == v.subrange(0, s)[k]);
            }
        }
        lemma_inert_count(a);
        lemma_inert_count(c);
        lemma_count_concat(a, c);
        assert(token_count(Seq::<char>::empty()) == 0);
    }
}

} // verus!
