//! Rewriting placeholder tokens between the implicit style (`?`) and the
//! positional style (`$1`, `$2`, ...).
use vstd::prelude::*;

use crate::text::{chars_of, string_of};

verus! {

/// How placeholders are written in finished SQL text.
#[derive(Debug, Clone, Copy, PartialEq, Eq, Structural)]
pub enum PlaceholderMode {
    /// One `?` per value (MySQL, SQLite).
    Default,
    /// `$` followed by the value's 1-based position (PostgreSQL).
    PgSql,
}

pub open spec fn is_digit(c: char) -> bool {
    '0' <= c && c <= '9'
}

/// A positional token (`$` and at least one digit) starts at index `i`.
pub open spec fn positional_at(s: Seq<char>, i: int) -> bool {
    0 <= i && i + 1 < s.len() && s[i] == '$' && is_digit(s[i + 1])
}

pub open spec fn has_implicit(s: Seq<char>) -> bool {
    exists|i: int| 0 <= i < s.len() && s[i] == '?'
}

pub open spec fn has_positional(s: Seq<char>) -> bool {
    exists|i: int| #[trigger] positional_at(s, i)
}

/// The character of the decimal digit `d`.
pub open spec fn digit_char(d: nat) -> char {
    ((d % 10) + 48) as u8 as char
}

/// The decimal digits of `n`, most significant first.
pub open spec fn decimal(n: nat) -> Seq<char>
    decreases n,
{
    if n < 10 {
        seq![digit_char(n)]
    } else {
        decimal(n / 10).push(digit_char(n % 10))
    }
}

/// The text that replaces the token with 0-based ordinal `k`.
pub open spec fn token_text(mode: PlaceholderMode, k: nat) -> Seq<char> {
    match mode {
        PlaceholderMode::Default => seq!['?'],
        PlaceholderMode::PgSql => seq!['$'] + decimal(k + 1),
    }
}

/// Rewrites every token of `s` in the style of `mode`, numbering from
/// `k`; `in_digits` holds while the digits of a positional token are
/// being consumed.
pub open spec fn rewrite(s: Seq<char>, mode: PlaceholderMode, k: nat, in_digits: bool) -> Seq<char>
    decreases s.len(),
{
    if s.len() == 0 {
        seq![]
    } else if in_digits && is_digit(s[0]) {
        rewrite(s.drop_first(), mode, k, true)
    } else if s[0] == '?' {
        token_text(mode, k) + rewrite(s.drop_first(), mode, k + 1, false)
    } else if positional_at(s, 0) {
        token_text(mode, k) + rewrite(s.drop_first(), mode, k + 1, true)
    } else {
        seq![s[0]] + rewrite(s.drop_first(), mode, k, false)
    }
}

/// `s` with its placeholders in the style of `mode`. Text that holds no
/// token of the other style is left as it is.
pub open spec fn transfer(s: Seq<char>, mode: PlaceholderMode) -> Seq<char> {
    match mode {
        PlaceholderMode::Default => if has_positional(s) {
            rewrite(s, mode, 0, false)
        } else {
            s
        },
        PlaceholderMode::PgSql => if has_implicit(s) {
            rewrite(s, mode, 0, false)
        } else {
            s
        },
    }
}

fn is_digit_char(c: char) -> (r: bool)
    ensures
        r == is_digit(c),
{
    '0' <= c && c <= '9'
}

fn push_decimal(out: &mut Vec<char>, n: usize)
    ensures
        final(out)@ == old(out)@ + decimal(n as nat),
    decreases n,
{
    if n >= 10 {
        push_decimal(out, n / 10);
    }
    let d: u8 = (n % 10) as u8;
    out.push((d + 48) as char);
    assert(out@ =~= old(out)@ + decimal(n as nat));
}

fn push_token(out: &mut Vec<char>, mode: PlaceholderMode, k: usize)
    requires
        k < usize::MAX,
    ensures
        final(out)@ == old(out)@ + token_text(mode, k as nat),
{
    match mode {
        PlaceholderMode::Default => {
            out.push('?');
            assert(out@ =~= old(out)@ + token_text(mode, k as nat));
        },
        PlaceholderMode::PgSql => {
            out.push('$');
            push_decimal(out, k + 1);
            assert(out@ =~= old(out)@ + token_text(mode, k as nat));
        },
    }
}

/// Rewrites the placeholders of `sql` in the style of `mode`: each token,
/// of either style, becomes `?`, or `$` with its 1-based ordinal among all
/// tokens. A `$` that no digit follows is plain text. Text holding no token
/// of the other style comes back unchanged.
pub fn sql_placeholder_transfer(sql: String, mode: PlaceholderMode) -> (r: String)
    ensures
        r@ == transfer(sql@, mode),
{
    let chars = chars_of(sql.as_str());
    let n = chars.len();
    let ghost s = sql@;
    let mut use_default = false;
    let mut use_pg = false;
    let mut i: usize = 0;
    while i < n
        invariant
            chars@ == s,
            n == s.len(),
            i <= n,
            use_default == exists|j: int| 0 <= j < i && s[j] == '?',
            use_pg == exists|j: int| 0 <= j < i && #[trigger] positional_at(s, j),
        decreases n - i,
    {
        let c = chars[i];
        if c == '?' {
            use_default = true;
        } else if c == '$' && i + 1 < n && is_digit_char(chars[i + 1]) {
            assert(positional_at(s, i as int));
            use_pg = true;
        }
        i += 1;
    }
    match mode {
        PlaceholderMode::Default => {
            if !use_pg {
                return sql;
            }
        },
        PlaceholderMode::PgSql => {
            if !use_default {
                return sql;
            }
        },
    }
    let mut out: Vec<char> = Vec::new();
    let mut k: usize = 0;
    let mut digits = false;
    i = 0;
    assert(out@ + s.skip(0) =~= s);
    assert(out@ + rewrite(s.skip(0), mode, 0, false) =~= rewrite(s, mode, 0, false));
    while i < n
        invariant
            chars@ == s,
            n == s.len(),
            i <= n,
            k <= i,
            out@ + rewrite(s.skip(i as int), mode, k as nat, digits) == rewrite(s, mode, 0, false),
        decreases n - i,
    {
        let ghost rest = s.skip(i as int);
        assert(rest.drop_first() =~= s.skip(i + 1));
        let c = chars[i];
        if digits && is_digit_char(c) {
        } else if c == '?' {
            let ghost o = out@;
            push_token(&mut out, mode, k);
            k += 1;
            digits = false;
            assert(o + (token_text(mode, (k - 1) as nat) + rewrite(s.skip(i + 1), mode, k as nat, false)) =~= out@ + rewrite(s.skip(i + 1), mode, k as nat, false));
        } else if c == '$' && i + 1 < n && is_digit_char(chars[i + 1]) {
            let ghost o = out@;
            assert(positional_at(rest, 0));
            push_token(&mut out, mode, k);
            k += 1;
            digits = true;
            assert(o + (token_text(mode, (k - 1) as nat) + rewrite(s.skip(i + 1), mode, k as nat, true)) =~= out@ + rewrite(s.skip(i + 1), mode, k as nat, true));
        } else {
            let ghost o = out@;
            assert(!positional_at(rest, 0));
            out.push(c);
            digits = false;
            assert(o + (seq![c] + rewrite(s.skip(i + 1), mode, k as nat, false)) =~= out@ + rewrite(s.skip(i + 1), mode, k as nat, false));
        }
        i += 1;
    }
    assert(s.skip(n as int) =~= Seq::<char>::empty());
    assert(out@ =~= rewrite(s, mode, 0, false));
    string_of(&out)
}

/// Text with only implicit tokens is kept whole in the implicit style, and
/// text with only positional tokens is kept whole in the positional style.
pub proof fn lemma_transfer_keeps_own_style(s: Seq<char>)
    ensures
        !has_positional(s) ==> transfer(s, PlaceholderMode::Default) == s,
        !has_implicit(s) ==> transfer(s, PlaceholderMode::PgSql) == s,
{
}

/// The literal runs `lits` with one `?` between each two.
pub open spec fn join_implicit(lits: Seq<Seq<char>>) -> Seq<char>
    decreases lits.len(),
{
    if lits.len() == 0 {
        seq![]
    } else if lits.len() == 1 {
        lits[0]
    } else {
        lits[0] + seq!['?'] + join_implicit(lits.drop_first())
    }
}

/// The literal runs `lits` with `$k+1`, `$k+2`, ... between each two.
pub open spec fn join_numbered(lits: Seq<Seq<char>>, k: nat) -> Seq<char>
    decreases lits.len(),
{
    if lits.len() == 0 {
        seq![]
    } else if lits.len() == 1 {
        lits[0]
    } else {
        lits[0] + seq!['$'] + decimal(k + 1) + join_numbered(lits.drop_first(), k + 1)
    }
}

pub open spec fn no_implicit(lit: Seq<char>) -> bool {
    forall|j: int| 0 <= j < lit.len() ==> lit[j] != '?'
}

proof fn lemma_no_positional_suffix(a: Seq<char>, b: Seq<char>)
    requires
        !has_positional(a + b),
    ensures
        !has_positional(b),
{
    if has_positional(b) {
        let i = choose|i: int| #[trigger] positional_at(b, i);
        assert(positional_at(a + b, i + a.len()));
    }
}

proof fn lemma_rewrite_literal(lit: Seq<char>, tail: Seq<char>, k: nat)
    requires
        no_implicit(lit),
        !has_positional(lit + tail),
    ensures
        rewrite(lit + tail, PlaceholderMode::PgSql, k, false) == lit + rewrite(
            tail,
            PlaceholderMode::PgSql,
            k,
            false,
        ),
    decreases lit.len(),
{
    if lit.len() == 0 {
        assert(lit + tail =~= tail);
    } else {
        let s = lit + tail;
        assert(s[0] == lit[0]);
        assert(!positional_at(s, 0));
        assert(s =~= seq![lit[0]] + (lit.drop_first() + tail));
        lemma_no_positional_suffix(seq![lit[0]], lit.drop_first() + tail);
        lemma_rewrite_literal(lit.drop_first(), tail, k);
        assert(s.drop_first() =~= lit.drop_first() + tail);
        assert(lit =~= seq![lit[0]] + lit.drop_first());
    }
}

proof fn lemma_rewrite_runs(lits: Seq<Seq<char>>, k: nat)
    requires
        lits.len() >= 1,
        forall|i: int| 0 <= i < lits.len() ==> no_implicit(#[trigger] lits[i]),
        !has_positional(join_implicit(lits)),
    ensures
        rewrite(join_implicit(lits), PlaceholderMode::PgSql, k, false) == join_numbered(lits, k),
    decreases lits.len(),
{
    let m = PlaceholderMode::PgSql;
    if lits.len() == 1 {
        assert(lits[0] + seq![] =~= lits[0]);
        lemma_rewrite_literal(lits[0], seq![], k);
    } else {
        let rest = lits.drop_first();
        let tail = seq!['?'] + join_implicit(rest);
        assert(join_implicit(lits) =~= lits[0] + tail);
        assert(no_implicit(lits[0]));
        lemma_rewrite_literal(lits[0], tail, k);
        lemma_no_positional_suffix(lits[0], tail);
        lemma_no_positional_suffix(seq!['?'], join_implicit(rest));
        assert(forall|i: int| 0 <= i < rest.len() ==> #[trigger] rest[i] == lits[i + 1]);
        lemma_rewrite_runs(rest, k + 1);
        assert(tail.drop_first() =~= join_implicit(rest));
        assert(rewrite(tail, m, k, false) == token_text(m, k) + rewrite(join_implicit(rest), m, k + 1, false));
        assert(join_numbered(lits, k) =~= lits[0] + (token_text(m, k) + join_numbered(rest, k + 1)));
    }
}

/// Text whose only tokens are `N` implicit ones, in the positional style,
/// carries `$1` up to `$N` in their places, in order, and its literal text
/// unchanged.
pub proof fn lemma_transfer_numbers_in_order(lits: Seq<Seq<char>>)
    requires
        lits.len() >= 1,
        forall|i: int| 0 <= i < lits.len() ==> no_implicit(#[trigger] lits[i]),
        !has_positional(join_implicit(lits)),
    ensures
        transfer(join_implicit(lits), PlaceholderMode::PgSql) == join_numbered(lits, 0),
{
    lemma_rewrite_runs(lits, 0);
    if lits.len() >= 2 {
        let s = join_implicit(lits);
        assert(s =~= lits[0] + seq!['?'] + join_implicit(lits.drop_first()));
        assert(s[lits[0].len() as int] == '?');
        assert(has_implicit(s));
    }
}

/// The number of tokens in `s`: each `?`, and each `$` that a digit follows.
pub open spec fn token_count(s: Seq<char>) -> nat
    decreases s.len(),
{
    if s.len() == 0 {
        0
    } else {
        (if s[0] == '?' || positional_at(s, 0) {
            1nat
        } else {
            0nat
        }) + token_count(s.drop_first())
    }
}

/// `s` holds no character that starts or continues a token.
pub open spec fn inert(s: Seq<char>) -> bool {
    forall|k: int| 0 <= k < s.len() ==> s[k] != '?' && s[k] != '$' && !is_digit(#[trigger] s[k])
}

/// Putting `a` before `b` makes no new positional token at the seam.
pub open spec fn joins_cleanly(a: Seq<char>, b: Seq<char>) -> bool {
    !(a.len() > 0 && a.last() == '$' && b.len() > 0 && is_digit(b[0]))
}

pub proof fn lemma_count_concat(a: Seq<char>, b: Seq<char>)
    requires
        joins_cleanly(a, b),
    ensures
        token_count(a + b) == token_count(a) + token_count(b),
    decreases a.len(),
{
    if a.len() == 0 {
        assert(a + b =~= b);
    } else {
        let s = a + b;
        assert(s.drop_first() =~= a.drop_first() + b);
        assert(s[0] == a[0]);
        if a.len() > 1 {
            assert(s[1] == a[1]);
        }
        lemma_count_concat(a.drop_first(), b);
    }
}

proof fn lemma_no_sigil_count(s: Seq<char>)
    requires
        forall|k: int| 0 <= k < s.len() ==> s[k] != '?' && s[k] != '$',
    ensures
        token_count(s) == 0,
    decreases s.len(),
{
    if s.len() > 0 {
        lemma_no_sigil_count(s.drop_first());
    }
}

pub proof fn lemma_inert_count(s: Seq<char>)
    requires
        inert(s),
    ensures
        token_count(s) == 0,
{
    lemma_no_sigil_count(s);
}

proof fn lemma_decimal_digits(n: nat)
    ensures
        decimal(n).len() > 0,
        forall|k: int| 0 <= k < decimal(n).len() ==> is_digit(#[trigger] decimal(n)[k]),
    decreases n,
{
    assert(is_digit(digit_char(n)));
    if n >= 10 {
        lemma_decimal_digits(n / 10);
        assert(is_digit(digit_char(n % 10)));
    }
}

proof fn lemma_token_text(m: PlaceholderMode, k: nat)
    ensures
        token_count(token_text(m, k)) == 1,
        token_text(m, k).len() > 0,
        token_text(m, k)[0] == '?' || token_text(m, k)[0] == '$',
        token_text(m, k).last() != '$',
{
    let t = token_text(m, k);
    match m {
        PlaceholderMode::Default => {
            assert(t.drop_first() =~= Seq::<char>::empty());
            assert(token_count(t.drop_first()) == 0);
        },
        PlaceholderMode::PgSql => {
            lemma_decimal_digits(k + 1);
            let d = decimal(k + 1);
            assert(t.drop_first() =~= d);
            assert(t[1] == d[0]);
            assert(positional_at(t, 0));
            assert(t.last() == d.last());
            assert(is_digit(d[d.len() - 1]));
            lemma_no_sigil_count(d);
        },
    }
}

proof fn lemma_rewrite_first(s: Seq<char>, m: PlaceholderMode, k: nat)
    ensures
        rewrite(s, m, k, false).len() > 0 && is_digit(rewrite(s, m, k, false)[0]) ==> s.len() > 0
            && is_digit(s[0]),
{
    if s.len() > 0 {
        lemma_token_text(m, k);
        if s[0] == '?' || positional_at(s, 0) {
            let t = token_text(m, k);
            assert((t + rewrite(s.drop_first(), m, k + 1, positional_at(s, 0) && s[0] != '?'))[0] == t[0]);
        }
    }
}

proof fn lemma_rewrite_count(s: Seq<char>, m: PlaceholderMode, k: nat, d: bool)
    ensures
        token_count(rewrite(s, m, k, d)) == token_count(s),
    decreases s.len(),
{
    if s.len() == 0 {
    } else if d && is_digit(s[0]) {
        lemma_rewrite_count(s.drop_first(), m, k, true);
    } else if s[0] == '?' || positional_at(s, 0) {
        let nd = s[0] != '?';
        lemma_token_text(m, k);
        lemma_rewrite_count(s.drop_first(), m, k + 1, nd);
        lemma_count_concat(token_text(m, k), rewrite(s.drop_first(), m, k + 1, nd));
    } else {
        let r = rewrite(s.drop_first(), m, k, false);
        lemma_rewrite_count(s.drop_first(), m, k, false);
        lemma_rewrite_first(s.drop_first(), m, k);
        if s[0] == '$' && r.len() > 0 && is_digit(r[0]) {
            assert(positional_at(s, 0));
        }
        let c = seq![s[0]];
        assert(c.drop_first() =~= Seq::<char>::empty());
        assert(token_count(c.drop_first()) == 0);
        assert(!positional_at(c, 0));
        assert(token_count(c) == 0);
        lemma_count_concat(c, r);
        assert(rewrite(s, m, k, d) == c + r);
    }
}

/// Rewriting placeholders keeps the number of tokens.
pub proof fn lemma_transfer_count(s: Seq<char>, mode: PlaceholderMode)
    ensures
        token_count(transfer(s, mode)) == token_count(s),
{
    lemma_rewrite_count(s, mode, 0, false);
}

} // verus!
