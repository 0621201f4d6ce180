//! Character-level helpers shared by the trimming and placeholder code.
use vstd::prelude::*;
use vstd::utf8::{char_is_scalar, encode_scalar, encode_utf8};

verus! {

/// The characters of `s`, in order.
pub fn chars_of(s: &str) -> (r: Vec<char>)
    ensures
        r@ == s@,
{
    let mut r: Vec<char> = Vec::new();
    for c in it: s.chars()
        invariant
            it.seq() == s@,
            r@ == s@.subrange(0, it.index() as int),
    {
        r.push(c);
        assert(r@ =~= s@.subrange(0, it.index() + 1));
    }
    assert(r@ =~= s@);
    r
}

/// Relies on `String::push`: appends one character at the end.
#[verifier::external_body]
fn push_char(s: &mut String, c: char)
    ensures
        final(s)@ == old(s)@.push(c),
{
    s.push(c)
}

/// The string whose characters are `v[lo..hi]`, in order.
pub fn string_of_range(v: &Vec<char>, lo: usize, hi: usize) -> (r: String)
    requires
        lo <= hi <= v.len(),
    ensures
        r@ == v@.subrange(lo as int, hi as int),
{
    let mut r = String::new();
    let mut i: usize = lo;
    while i < hi
        invariant
            lo <= i <= hi <= v.len(),
            r@ == v@.subrange(lo as int, i as int),
        decreases hi - i,
    {
        push_char(&mut r, v[i]);
        i += 1;
        assert(r@ =~= v@.subrange(lo as int, i as int));
    }
    r
}

/// The string whose characters are `v`, in order.
pub fn string_of(v: &Vec<char>) -> (r: String)
    ensures
        r@ == v@,
{
    let r = string_of_range(v, 0, v.len());
    assert(v@.subrange(0, v@.len() as int) =~= v@);
    r
}

/// The byte offset, in UTF-8, of the character at index `i` of `v`.
pub open spec fn byte_pos(v: Seq<char>, i: int) -> int {
    encode_utf8(v.subrange(0, i)).len() as int
}

proof fn lemma_encode_concat(a: Seq<char>, b: Seq<char>)
    ensures
        encode_utf8(a + b) == encode_utf8(a) + encode_utf8(b),
    decreases a.len(),
{
    if a.len() == 0 {
        assert(a + b =~= b);
        assert(encode_utf8(a) + encode_utf8(b) =~= encode_utf8(b));
    } else {
        assert((a + b).drop_first() =~= a.drop_first() + b);
        assert((a + b)[0] == a[0]);
        lemma_encode_concat(a.drop_first(), b);
        assert(encode_utf8(a + b) =~= encode_utf8(a) + encode_utf8(b));
    }
}

/// The number of bytes that `c` takes in UTF-8.
fn utf8_width(c: char) -> (r: usize)
    ensures
        r == encode_scalar(c as u32).len(),
        r <= 4,
{
    proof {
        char_is_scalar(c);
    }
    let u = c as u32;
    if u <= 0x7f {
        1
    } else if u <= 0x7ff {
        2
    } else if u <= 0xffff {
        3
    } else {
        4
    }
}

/// The byte offset, in UTF-8, of the character at index `i` of `s`, whose
/// characters `v` holds.
pub fn byte_offset(s: &str, v: &Vec<char>, i: usize) -> (r: usize)
    requires
        v@ == s@,
        i <= v.len(),
    ensures
        r == byte_pos(s@, i as int),
{
    let total = s.as_bytes().len();
    let mut acc: usize = 0;
    let mut k: usize = 0;
    assert(v@.subrange(0, 0) =~= Seq::<char>::empty());
    while k < i
        invariant
            v@ == s@,
            i <= v.len(),
            k <= i,
            total == encode_utf8(s@).len(),
            acc == encode_utf8(v@.subrange(0, k as int)).len(),
        decreases i - k,
    {
        let w = utf8_width(v[k]);
        proof {
            let pre = v@.subrange(0, k as int);
            let one = seq![v@[k as int]];
            assert(v@.subrange(0, k + 1) =~= pre + one);
            lemma_encode_concat(pre, one);
            assert(one.drop_first() =~= Seq::<char>::empty());
            assert(encode_utf8(one.drop_first()) =~= Seq::<u8>::empty());
            assert(one[0] == v@[k as int]);
            assert(encode_utf8(one) =~= encode_scalar(v@[k as int] as u32));
            assert(v@ =~= v@.subrange(0, k + 1) + v@.subrange(k + 1, v.len() as int));
            lemma_encode_concat(v@.subrange(0, k + 1), v@.subrange(k + 1, v.len() as int));
        }
        acc = acc + w;
        k += 1;
    }
    acc
}

} // verus!
