//! What composing and rendering fragments keeps: composing matches
//! wrapping, and every bound value keeps its placeholder token.
use vstd::prelude::*;

use serde_json::Value;

use crate::builder::{
    composed, empty_model, join_all, rendered, rendered_values, splices, wrapped, FragmentModel,
};
use crate::placeholder::{
    has_implicit, has_positional, inert, is_digit, lemma_count_concat, lemma_inert_count,
    lemma_transfer_count, token_count, PlaceholderMode,
};
use crate::trim::{is_space, lemma_trim_count, lemma_trim_idempotent, trimmed};

verus! {

proof fn lemma_join_push(x: Seq<Seq<char>>, t: Seq<char>, sep: Seq<char>)
    ensures
        join_all(x.push(t), sep) == if x.len() == 0 {
            t
        } else {
            join_all(x, sep) + sep + t
        },
{
    assert(x.push(t).drop_last() =~= x);
}

proof fn lemma_join_concat(x: Seq<Seq<char>>, y: Seq<Seq<char>>, sep: Seq<char>)
    requires
        x.len() > 0,
        y.len() > 0,
    ensures
        join_all(x + y, sep) == join_all(x, sep) + sep + join_all(y, sep),
    decreases y.len(),
{
    if y.len() == 1 {
        assert(x + y =~= x.push(y[0]));
        lemma_join_push(x, y[0], sep);
    } else {
        let y0 = y.drop_last();
        assert(x + y =~= (x + y0).push(y.last()));
        assert(y =~= y0.push(y.last()));
        lemma_join_push(x + y0, y.last(), sep);
        lemma_join_push(y0, y.last(), sep);
        lemma_join_concat(x, y0, sep);
        assert(join_all(x + y, sep) =~= join_all(x, sep) + sep + join_all(y, sep));
    }
}

/// Composing `b` into `a` and wrapping `b` into `a` render the same text
/// and bind the same values in the same order, wherever rendering `b` on
/// its own leaves its joined text as it is: `b` holds a segment, its joined
/// text has no whitespace at either end, and no token of the style other
/// than `b`'s own.
pub proof fn lemma_compose_matches_wrap(a: FragmentModel, b: FragmentModel)
    requires
        b.segments.len() > 0,
        ({
            let jb = join_all(b.segments, b.join);
            &&& jb.len() > 0 ==> !is_space(jb[0]) && !is_space(jb.last())
            &&& b.mode == PlaceholderMode::Default ==> !has_positional(jb)
            &&& b.mode == PlaceholderMode::PgSql ==> !has_implicit(jb)
        }),
    ensures
        rendered(composed(a, b)) == rendered(wrapped(a, b)),
        composed(a, b).values == wrapped(a, b).values,
{
    if splices(a, b) {
        let jb = join_all(b.segments, b.join);
        lemma_trim_idempotent(b.prefix_trim, b.suffix_trim, jb);
        assert(b.prefix + jb + b.suffix =~= jb);
        assert(rendered(b) == jb);
        let c = composed(a, b);
        let w = wrapped(a, b);
        assert(w.segments == a.segments.push(jb));
        lemma_join_push(a.segments, jb, a.join);
        if a.segments.len() > 0 {
            lemma_join_concat(a.segments, b.segments, a.join);
        } else {
            assert(a.segments + b.segments =~= b.segments);
        }
        assert(join_all(c.segments, c.join) == join_all(w.segments, w.join));
    }
}

/// A fragment whose joined segments hold one token per bound value renders
/// to text with one token per value, where its trim keywords, prefix and
/// suffix hold no character that starts or continues a token.
pub proof fn lemma_render_keeps_count(m: FragmentModel)
    requires
        counts_match(m),
        inert(m.prefix),
        inert(m.suffix),
        inert(m.prefix_trim),
        inert(m.suffix_trim),
    ensures
        token_count(rendered(m)) == m.values.len(),
{
    if m.segments.len() > 0 {
        let j = join_all(m.segments, m.join);
        let t = trimmed(m.prefix_trim, m.suffix_trim, j);
        lemma_trim_count(m.prefix_trim, m.suffix_trim, j);
        lemma_inert_count(m.prefix);
        lemma_inert_count(m.suffix);
        if m.prefix.len() > 0 {
            assert(m.prefix.last() == m.prefix[m.prefix.len() - 1]);
        }
        lemma_count_concat(m.prefix, t);
        if m.suffix.len() > 0 {
            assert(m.suffix[0] != '$');
        }
        lemma_count_concat(m.prefix + t, m.suffix);
        lemma_transfer_count(m.prefix + t + m.suffix, m.mode);
    } else {
        assert(token_count(Seq::<char>::empty()) == 0);
    }
}

/// Each bound value has its token in the joined segments.
pub open spec fn counts_match(m: FragmentModel) -> bool {
    token_count(join_all(m.segments, m.join)) == m.values.len()
}

/// The separator, trim keywords, prefix and suffix hold no token character,
/// and the separator is not empty.
pub open spec fn inert_config(m: FragmentModel) -> bool {
    &&& m.join.len() > 0
    &&& inert(m.join)
    &&& inert(m.prefix)
    &&& inert(m.suffix)
    &&& inert(m.prefix_trim)
    &&& inert(m.suffix_trim)
}

proof fn lemma_join_push_count(x: Seq<Seq<char>>, t: Seq<char>, sep: Seq<char>)
    requires
        sep.len() > 0,
        inert(sep),
    ensures
        token_count(join_all(x.push(t), sep)) == token_count(join_all(x, sep)) + token_count(t),
{
    lemma_join_push(x, t, sep);
    if x.len() > 0 {
        let j = join_all(x, sep);
        lemma_inert_count(sep);
        assert(!is_digit(sep[0]));
        lemma_count_concat(j, sep);
        assert((j + sep).last() == sep[sep.len() - 1]);
        lemma_count_concat(j + sep, t);
    } else {
        assert(token_count(Seq::<char>::empty()) == 0);
    }
}

proof fn lemma_join_concat_count(x: Seq<Seq<char>>, y: Seq<Seq<char>>, sep: Seq<char>)
    requires
        sep.len() > 0,
        inert(sep),
    ensures
        token_count(join_all(x + y, sep)) == token_count(join_all(x, sep)) + token_count(join_all(y, sep)),
    decreases y.len(),
{
    if y.len() == 0 {
        assert(x + y =~= x);
        assert(token_count(Seq::<char>::empty()) == 0);
    } else {
        let y0 = y.drop_last();
        assert(x + y =~= (x + y0).push(y.last()));
        assert(y =~= y0.push(y.last()));
        lemma_join_push_count(x + y0, y.last(), sep);
        lemma_join_push_count(y0, y.last(), sep);
        lemma_join_concat_count(x, y0, sep);
    }
}

/// Appending a segment together with as many values as it holds tokens
/// keeps each value matched to a token.
pub proof fn lemma_append_keeps_count(m: FragmentModel, t: Seq<char>, vs: Seq<Value>)
    requires
        inert_config(m),
        counts_match(m),
        token_count(t) == vs.len(),
    ensures
        counts_match(m.with_segment(t).with_values(vs)),
{
    lemma_join_push_count(m.segments, t, m.join);
}

/// Composing `b` into `a` keeps each value matched to a token, where both
/// match on their own and neither's configuration holds a token character.
pub proof fn lemma_compose_keeps_count(a: FragmentModel, b: FragmentModel)
    requires
        inert_config(a),
        inert_config(b),
        counts_match(a),
        counts_match(b),
    ensures
        counts_match(composed(a, b)),
{
    if splices(a, b) {
        lemma_join_concat_count(a.segments, b.segments, a.join);
    } else {
        lemma_render_keeps_count(b);
        lemma_append_keeps_count(a, rendered(b), rendered_values(b));
    }
}

/// Every preset fragment starts empty, with values matched, and with a
/// configuration that holds no token character.
pub proof fn lemma_presets_start_matched()
    ensures
        ({
            let presets = seq![
                empty_model(" "@, ""@, ""@, ""@, ""@),
                empty_model(" and "@, "where"@, ""@, "where "@, ""@),
                empty_model(" or "@, "or"@, "or"@, "("@, ")"@),
                empty_model(" and "@, "and"@, "and"@, "("@, ")"@),
                empty_model(" , "@, ","@, ","@, " "@, " "@),
                empty_model(" , "@, ","@, ","@, "("@, ")"@),
                empty_model(" "@, ""@, ""@, "("@, ")"@),
            ];
            forall|i: int| 0 <= i < presets.len() ==> inert_config(#[trigger] presets[i]) && counts_match(presets[i])
        }),
{
    reveal_strlit(" ");
    reveal_strlit("");
    reveal_strlit(" and ");
    reveal_strlit("where");
    reveal_strlit("where ");
    reveal_strlit(" or ");
    reveal_strlit("or");
    reveal_strlit("and");
    reveal_strlit("(");
    reveal_strlit(")");
    reveal_strlit(" , ");
    reveal_strlit(",");
    assert(token_count(join_all(Seq::<Seq<char>>::empty(), " "@)) == 0);
}

} // verus!
