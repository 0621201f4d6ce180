//! The fragment builder: text segments with their bound values, joined,
//! trimmed, framed and given their placeholder style when rendered.
use vstd::prelude::*;

use serde_json::Value;

use crate::placeholder::{has_positional, positional_at, sql_placeholder_transfer, transfer, PlaceholderMode};
use crate::text::{chars_of, string_of};
use crate::trim::{eq_ignore_case, lemma_trim_idempotent, trim_chars, trimmed};
use vstd::string::StringExecFns;

verus! {

/// The bound values are `serde_json::Value`s, which the builder only keeps
/// and moves, never reads.
#[verifier::external_type_specification]
#[verifier::external_body]
pub struct ExValue(serde_json::Value);

/// One piece of text of a fragment.
#[derive(Debug, Clone)]
enum InnerSql<'a> {
    Value(String),
    Ref(&'a str),
}

impl<'a> InnerSql<'a> {
    spec fn text(&self) -> Seq<char> {
        match self {
            InnerSql::Value(s) => s@,
            InnerSql::Ref(s) => s@,
        }
    }

    fn chars(&self) -> (r: Vec<char>)
        ensures
            r@ == self.text(),
    {
        match self {
            InnerSql::Value(s) => chars_of(s.as_str()),
            InnerSql::Ref(s) => chars_of(s),
        }
    }
}

/// What a fragment holds, as mathematical values.
pub struct FragmentModel {
    pub segments: Seq<Seq<char>>,
    pub values: Seq<Value>,
    pub join: Seq<char>,
    pub prefix_trim: Seq<char>,
    pub suffix_trim: Seq<char>,
    pub prefix: Seq<char>,
    pub suffix: Seq<char>,
    pub mode: PlaceholderMode,
}

/// A fragment with no segment and no value, in the implicit style.
pub open spec fn empty_model(
    join: Seq<char>,
    prefix_trim: Seq<char>,
    suffix_trim: Seq<char>,
    prefix: Seq<char>,
    suffix: Seq<char>,
) -> FragmentModel {
    FragmentModel {
        segments: seq![],
        values: seq![],
        join,
        prefix_trim,
        suffix_trim,
        prefix,
        suffix,
        mode: PlaceholderMode::Default,
    }
}

/// The segments joined with `sep` between each two neighbours.
pub open spec fn join_all(segs: Seq<Seq<char>>, sep: Seq<char>) -> Seq<char>
    decreases segs.len(),
{
    if segs.len() == 0 {
        seq![]
    } else if segs.len() == 1 {
        segs[0]
    } else {
        join_all(segs.drop_last(), sep) + sep + segs.last()
    }
}

/// The text a fragment renders to: nothing without segments; else its
/// segments joined, trimmed, framed by prefix and suffix, and given the
/// fragment's placeholder style.
pub open spec fn rendered(m: FragmentModel) -> Seq<char> {
    if m.segments.len() == 0 {
        seq![]
    } else {
        transfer(
            m.prefix + trimmed(m.prefix_trim, m.suffix_trim, join_all(m.segments, m.join))
                + m.suffix,
            m.mode,
        )
    }
}

/// The values a fragment hands out when rendered: none without segments;
/// else all its values, in order.
pub open spec fn rendered_values(m: FragmentModel) -> Seq<Value> {
    if m.segments.len() == 0 {
        seq![]
    } else {
        m.values
    }
}

/// `a` with `b` rendered and appended as one segment, with the values `b`
/// hands out.
pub open spec fn wrapped(a: FragmentModel, b: FragmentModel) -> FragmentModel {
    a.with_segment(rendered(b)).with_values(rendered_values(b))
}

/// `b` can be spliced into `a`: same separator, and `b` neither trims nor
/// frames its text.
pub open spec fn splices(a: FragmentModel, b: FragmentModel) -> bool {
    b.join == a.join && b.is_plain()
}

/// `a` after composing `b` into it.
pub open spec fn composed(a: FragmentModel, b: FragmentModel) -> FragmentModel {
    if splices(a, b) {
        FragmentModel { segments: a.segments + b.segments, values: a.values + b.values, ..a }
    } else {
        wrapped(a, b)
    }
}

/// `b` after it was composed into `a`: it keeps no value, and no segment
/// where it was spliced.
pub open spec fn composed_child(a: FragmentModel, b: FragmentModel) -> FragmentModel {
    if splices(a, b) {
        FragmentModel { segments: seq![], values: seq![], ..b }
    } else {
        b.drained()
    }
}

/// `n` question marks joined with ` , ` between each two.
pub open spec fn question_marks(n: nat) -> Seq<char> {
    join_all(Seq::new(n, |i: int| seq!['?']), seq![' ', ',', ' '])
}

/// The text of a parenthesized list of `n` implicit placeholders: `(? , ?)`
/// for two; nothing for none.
pub open spec fn placeholder_list(n: nat) -> Seq<char> {
    if n == 0 {
        seq![]
    } else {
        seq!['('] + question_marks(n) + seq![')']
    }
}

proof fn lemma_question_marks(n: nat)
    requires
        n > 0,
    ensures
        question_marks(n).len() > 0,
        question_marks(n)[0] == '?',
        question_marks(n).last() == '?',
        forall|k: int| 0 <= k < question_marks(n).len() ==> {
            let c = #[trigger] question_marks(n)[k];
            c == '?' || c == ' ' || c == ','
        },
    decreases n,
{
    let f = |i: int| seq!['?'];
    let sep = seq![' ', ',', ' '];
    if n > 1 {
        lemma_question_marks((n - 1) as nat);
        let prev = question_marks((n - 1) as nat);
        assert(Seq::new(n, f).drop_last() =~= Seq::new((n - 1) as nat, f));
        assert(question_marks(n) == prev + sep + seq!['?']);
        let q = question_marks(n);
        assert forall|k: int| 0 <= k < q.len() implies {
            let c = #[trigger] q[k];
            c == '?' || c == ' ' || c == ','
        } by {
            if k < prev.len() {
                assert(q[k] == prev[k]);
            }
        }
    }
}

proof fn lemma_placeholder_list(n: nat)
    ensures
        rendered(
            FragmentModel {
                segments: Seq::new(n, |i: int| "?"@),
                values: seq![],
                ..empty_model(" , "@, ","@, ","@, "("@, ")"@)
            },
        ) == placeholder_list(n),
{
    reveal_strlit("?");
    reveal_strlit(" , ");
    reveal_strlit(",");
    reveal_strlit("(");
    reveal_strlit(")");
    assert("?"@ =~= seq!['?']);
    assert(" , "@ =~= seq![' ', ',', ' ']);
    assert("("@ =~= seq!['(']);
    assert(")"@ =~= seq![')']);
    if n > 0 {
        let segs = Seq::new(n, |i: int| "?"@);
        assert(segs =~= Seq::new(n, |i: int| seq!['?']));
        let q = question_marks(n);
        lemma_question_marks(n);
        assert(q.subrange(0, 1)[0] == '?');
        assert(!eq_ignore_case(","@, q.subrange(0, 1)));
        assert(q.subrange(q.len() - 1, q.len() as int)[0] == '?');
        assert(!eq_ignore_case(","@, q.subrange(q.len() - 1, q.len() as int)));
        lemma_trim_idempotent(","@, ","@, q);
        let framed = "("@ + q + ")"@;
        assert forall|i: int| !#[trigger] positional_at(framed, i) by {
            if 0 <= i < framed.len() && i > 0 && i < framed.len() - 1 {
                assert(framed[i] == q[i - 1]);
            }
        }
        assert(!has_positional(framed));
        assert(framed == placeholder_list(n));
        assert(join_all(segs, " , "@) == q);
        assert(trimmed(","@, ","@, q) == q);
    }
}

impl FragmentModel {
    pub open spec fn with_segment(self, t: Seq<char>) -> FragmentModel {
        FragmentModel { segments: self.segments.push(t), ..self }
    }

    pub open spec fn with_value(self, v: Value) -> FragmentModel {
        FragmentModel { values: self.values.push(v), ..self }
    }

    pub open spec fn with_values(self, vs: Seq<Value>) -> FragmentModel {
        FragmentModel { values: self.values + vs, ..self }
    }

    pub open spec fn with_mode(self, mode: PlaceholderMode) -> FragmentModel {
        FragmentModel { mode, ..self }
    }

    pub open spec fn drained(self) -> FragmentModel {
        FragmentModel { values: seq![], ..self }
    }

    /// Neither trims nor frames its text.
    pub open spec fn is_plain(self) -> bool {
        self.prefix.len() == 0 && self.prefix_trim.len() == 0 && self.suffix.len() == 0
            && self.suffix_trim.len() == 0
    }
}

/// Whether `a` and `b` hold the same characters.
fn str_eq(a: &str, b: &str) -> (r: bool)
    ensures
        r == (a@ == b@),
{
    let x = chars_of(a);
    let y = chars_of(b);
    if x.len() != y.len() {
        return false;
    }
    let mut i: usize = 0;
    while i < x.len()
        invariant
            x@ == a@,
            y@ == b@,
            x.len() == y.len(),
            i <= x.len(),
            forall|j: int| 0 <= j < i ==> x@[j] == y@[j],
        decreases x.len() - i,
    {
        if x[i] != y[i] {
            assert(x@[i as int] != y@[i as int]);
            return false;
        }
        i += 1;
    }
    assert(x@ =~= y@);
    true
}

/// Something that renders to SQL text and the values of its placeholders.
pub trait IBuilder {
    /// The text that `build` renders.
    spec fn built_text(&self) -> Seq<char>;

    /// The values that `build` hands out, in order.
    spec fn built_values(&self) -> Seq<Value>;

    fn build(&mut self) -> (r: (String, Vec<Value>))
        ensures
            r.0@ == old(self).built_text(),
            r.1@ == old(self).built_values(),
    ;
}

/// A composable SQL fragment: text segments, the values bound to their
/// placeholders, and how the segments are joined, trimmed and framed.
#[derive(Debug, Clone)]
pub struct SqlBuilder<'a> {
    sqls: Vec<InnerSql<'a>>,
    args: Vec<Value>,
    join_str: &'a str,
    prefix_trim: &'a str,
    suffix_trim: &'a str,
    prefix: &'a str,
    suffix: &'a str,
    mode: PlaceholderMode,
}

impl<'a> View for SqlBuilder<'a> {
    type V = FragmentModel;

    closed spec fn view(&self) -> FragmentModel {
        FragmentModel {
            segments: self.sqls@.map_values(|s: InnerSql<'a>| s.text()),
            values: self.args@,
            join: self.join_str@,
            prefix_trim: self.prefix_trim@,
            suffix_trim: self.suffix_trim@,
            prefix: self.prefix@,
            suffix: self.suffix@,
            mode: self.mode,
        }
    }
}

impl<'a> SqlBuilder<'a> {
    /// A bare fragment: segments joined with one space, no trimming, no frame.
    pub fn new() -> (r: Self)
        ensures
            r@ == empty_model(" "@, ""@, ""@, ""@, ""@),
    {
        let r = SqlBuilder {
            sqls: Vec::new(),
            args: Vec::new(),
            join_str: " ",
            prefix_trim: "",
            suffix_trim: "",
            prefix: "",
            suffix: "",
            mode: PlaceholderMode::Default,
        };
        assert(r@.segments =~= Seq::<Seq<char>>::empty());
        assert(r@.values =~= Seq::<Value>::empty());
        r
    }

    /// A fragment joined with `join_str`, trimmed of `trim_str` at both ends,
    /// framed by `prefix` and `suffix`.
    pub fn new_builder(join_str: &'a str, trim_str: &'a str, prefix: &'a str, suffix: &'a str) -> (r: Self)
        ensures
            r@ == empty_model(join_str@, trim_str@, trim_str@, prefix@, suffix@),
    {
        let r = SqlBuilder {
            sqls: Vec::new(),
            args: Vec::new(),
            join_str,
            prefix_trim: trim_str,
            suffix_trim: trim_str,
            prefix,
            suffix,
            mode: PlaceholderMode::Default,
        };
        assert(r@.segments =~= Seq::<Seq<char>>::empty());
        assert(r@.values =~= Seq::<Value>::empty());
        r
    }

    /// Appends a literal segment.
    pub fn push_sql(&mut self, sql: &'a str) -> (r: &mut Self)
        ensures
            r@ == old(self)@.with_segment(sql@),
            *final(self) == *final(r),
    {
        self.sqls.push(InnerSql::Ref(sql));
        proof {
            assert(self@.segments =~= old(self)@.segments.push(sql@));
        }
        self
    }

    /// Appends a literal segment together with the value of its placeholder.
    pub fn push(&mut self, sql: &'a str, arg: Value) -> (r: &mut Self)
        ensures
            r@ == old(self)@.with_segment(sql@).with_value(arg),
            *final(self) == *final(r),
    {
        self.sqls.push(InnerSql::Ref(sql));
        self.args.push(arg);
        proof {
            assert(self@.segments =~= old(self)@.segments.push(sql@));
        }
        self
    }

    /// Appends an owned segment.
    pub fn push_string(&mut self, sql: String) -> (r: &mut Self)
        ensures
            r@ == old(self)@.with_segment(sql@),
            *final(self) == *final(r),
    {
        let ghost t = sql@;
        self.sqls.push(InnerSql::Value(sql));
        proof {
            assert(self@.segments =~= old(self)@.segments.push(t));
        }
        self
    }

    /// Binds a value whose placeholder an earlier segment holds.
    pub fn push_arg(&mut self, arg: Value) -> (r: &mut Self)
        ensures
            r@ == old(self)@.with_value(arg),
            *final(self) == *final(r),
    {
        self.args.push(arg);
        proof {
            assert(self@.segments =~= old(self)@.segments);
        }
        self
    }

    /// The fragment with its placeholder style set to `mode`.
    pub fn set_mode(self, mode: PlaceholderMode) -> (r: Self)
        ensures
            r@ == self@.with_mode(mode),
    {
        let mut s = self;
        s.mode = mode;
        proof {
            assert(s@.segments =~= self@.segments);
        }
        s
    }

    fn is_not_trim(&self) -> (r: bool)
        ensures
            r == self@.is_plain(),
    {
        self.prefix.is_empty() && self.prefix_trim.is_empty() && self.suffix.is_empty()
            && self.suffix_trim.is_empty()
    }

    /// Whether no segment has been appended.
    pub fn is_empty(&self) -> (r: bool)
        ensures
            r == (self@.segments.len() == 0),
    {
        self.sqls.len() == 0
    }

    fn push_owned_arg(&mut self, sql: String, arg: Value) -> (r: &mut Self)
        ensures
            r@ == old(self)@.with_segment(sql@).with_value(arg),
            *final(self) == *final(r),
    {
        let ghost t = sql@;
        self.sqls.push(InnerSql::Value(sql));
        self.args.push(arg);
        proof {
            assert(self@.segments =~= old(self)@.segments.push(t));
        }
        self
    }

    /// Appends `field=?`, bound to `arg`.
    pub fn eq(&mut self, field: &'a str, arg: Value) -> (r: &mut Self)
        ensures
            r@ == old(self)@.with_segment(field@ + "=?"@).with_value(arg),
            *final(self) == *final(r),
    {
        let mut t = String::from_str(field);
        t.append("=?");
        self.push_owned_arg(t, arg)
    }

    /// Appends `field<>?`, bound to `arg`.
    pub fn ne(&mut self, field: &'a str, arg: Value) -> (r: &mut Self)
        ensures
            r@ == old(self)@.with_segment(field@ + "<>?"@).with_value(arg),
            *final(self) == *final(r),
    {
        let mut t = String::from_str(field);
        t.append("<>?");
        self.push_owned_arg(t, arg)
    }

    /// Appends `field<?`, bound to `arg`.
    pub fn lt(&mut self, field: &'a str, arg: Value) -> (r: &mut Self)
        ensures
            r@ == old(self)@.with_segment(field@ + "<?"@).with_value(arg),
            *final(self) == *final(r),
    {
        let mut t = String::from_str(field);
        t.append("<?");
        self.push_owned_arg(t, arg)
    }

    /// Appends `field<=?`, bound to `arg`.
    pub fn le(&mut self, field: &'a str, arg: Value) -> (r: &mut Self)
        ensures
            r@ == old(self)@.with_segment(field@ + "<=?"@).with_value(arg),
            *final(self) == *final(r),
    {
        let mut t = String::from_str(field);
        t.append("<=?");
        self.push_owned_arg(t, arg)
    }

    /// Appends `field>?`, bound to `arg`.
    pub fn gt(&mut self, field: &'a str, arg: Value) -> (r: &mut Self)
        ensures
            r@ == old(self)@.with_segment(field@ + ">?"@).with_value(arg),
            *final(self) == *final(r),
    {
        let mut t = String::from_str(field);
        t.append(">?");
        self.push_owned_arg(t, arg)
    }

    /// Appends `field>=?`, bound to `arg`.
    pub fn ge(&mut self, field: &'a str, arg: Value) -> (r: &mut Self)
        ensures
            r@ == old(self)@.with_segment(field@ + ">=?"@).with_value(arg),
            *final(self) == *final(r),
    {
        let mut t = String::from_str(field);
        t.append(">=?");
        self.push_owned_arg(t, arg)
    }

    /// Appends `field like ?`, bound to `arg`.
    pub fn like(&mut self, field: &'a str, arg: Value) -> (r: &mut Self)
        ensures
            r@ == old(self)@.with_segment(field@ + " like ?"@).with_value(arg),
            *final(self) == *final(r),
    {
        let mut t = String::from_str(field);
        t.append(" like ?");
        self.push_owned_arg(t, arg)
    }

    /// Appends `field not like ?`, bound to `arg`.
    pub fn not_like(&mut self, field: &'a str, arg: Value) -> (r: &mut Self)
        ensures
            r@ == old(self)@.with_segment(field@ + " not like ?"@).with_value(arg),
            *final(self) == *final(r),
    {
        let mut t = String::from_str(field);
        t.append(" not like ?");
        self.push_owned_arg(t, arg)
    }

    /// The text this fragment renders to.
    fn build_sql(&self) -> (r: String)
        ensures
            r@ == rendered(self@),
    {
        if self.sqls.len() == 0 {
            return String::new();
        }
        let ghost segs = self@.segments;
        let mut joined = self.sqls[0].chars();
        assert(segs.take(1) =~= seq![segs[0]]);
        let mut i: usize = 1;
        while i < self.sqls.len()
            invariant
                1 <= i <= self.sqls.len(),
                segs == self@.segments,
                joined@ == join_all(segs.take(i as int), self.join_str@),
            decreases self.sqls.len() - i,
        {
            let mut sep = chars_of(self.join_str);
            joined.append(&mut sep);
            let mut seg = self.sqls[i].chars();
            joined.append(&mut seg);
            proof {
                let t = segs.take(i + 1);
                assert(t.drop_last() =~= segs.take(i as int));
                assert(t.last() == segs[i as int]);
            }
            i += 1;
        }
        assert(segs.take(i as int) =~= segs);
        let kept = trim_chars(&chars_of(self.prefix_trim), &chars_of(self.suffix_trim), &joined);
        let mut framed = chars_of(self.prefix);
        let mut mid = chars_of(kept.as_str());
        framed.append(&mut mid);
        let mut tail = chars_of(self.suffix);
        framed.append(&mut tail);
        sql_placeholder_transfer(string_of(&framed), self.mode)
    }

    /// Renders the fragment and hands out its values, in order (none where
    /// it has no segment); the fragment keeps its segments and is left
    /// without values.
    pub fn build(&mut self) -> (r: (String, Vec<Value>))
        ensures
            r.0@ == rendered(old(self)@),
            r.1@ == rendered_values(old(self)@),
            final(self)@ == old(self)@.drained(),
    {
        let mut args: Vec<Value> = Vec::new();
        args.append(&mut self.args);
        proof {
            assert(args@ =~= old(self)@.values);
            assert(self@ == old(self)@.drained()) by {
                assert(self@.values =~= Seq::<Value>::empty());
                assert(self@.segments =~= old(self)@.segments);
            }
        }
        if self.sqls.len() == 0 {
            return (String::new(), Vec::new());
        }
        (self.build_sql(), args)
    }

    /// Appends rendered text as one segment, together with its values.
    pub fn push_rendered(&mut self, sql: String, args: Vec<Value>) -> (r: &mut Self)
        ensures
            r@ == old(self)@.with_segment(sql@).with_values(args@),
            *final(self) == *final(r),
    {
        let ghost t = sql@;
        let mut args = args;
        self.sqls.push(InnerSql::Value(sql));
        self.args.append(&mut args);
        proof {
            assert(self@.segments =~= old(self)@.segments.push(t));
        }
        self
    }

    /// Renders `b` and appends its text as one segment, with the values it
    /// hands out.
    pub fn wrap(&mut self, b: &mut Self) -> (r: &mut Self)
        ensures
            r@ == wrapped(old(self)@, old(b)@),
            *final(self) == *final(r),
            final(b)@ == old(b)@.drained(),
    {
        let (sql, args) = b.build();
        self.push_rendered(sql, args)
    }

    /// Composes `b` into this fragment: where `b` has the same separator and
    /// neither trims nor frames, its segments and values are moved in as
    /// they are; otherwise it is wrapped.
    pub fn push_build(&mut self, b: &mut Self) -> (r: &mut Self)
        ensures
            r@ == composed(old(self)@, old(b)@),
            final(b)@ == composed_child(old(self)@, old(b)@),
            *final(self) == *final(r),
    {
        if str_eq(b.join_str, self.join_str) && b.is_not_trim() {
            self.sqls.append(&mut b.sqls);
            self.args.append(&mut b.args);
            proof {
                assert(self@.segments =~= old(self)@.segments + old(b)@.segments);
                assert(b@.segments =~= Seq::<Seq<char>>::empty());
                assert(b@.values =~= Seq::<Value>::empty());
            }
            return self;
        }
        self.wrap(b)
    }

    /// A WHERE clause: predicates joined with ` and `, a leading `where`
    /// trimmed, and `where ` put in front.
    pub fn new_where() -> (r: Self)
        ensures
            r@ == empty_model(" and "@, "where"@, ""@, "where "@, ""@),
    {
        let r = SqlBuilder {
            sqls: Vec::new(),
            args: Vec::new(),
            join_str: " and ",
            prefix_trim: "where",
            suffix_trim: "",
            prefix: "where ",
            suffix: "",
            mode: PlaceholderMode::Default,
        };
        assert(r@.segments =~= Seq::<Seq<char>>::empty());
        assert(r@.values =~= Seq::<Value>::empty());
        r
    }

    /// A parenthesized group joined with ` or `, trimmed of `or`.
    pub fn new_or() -> (r: Self)
        ensures
            r@ == empty_model(" or "@, "or"@, "or"@, "("@, ")"@),
    {
        Self::new_builder(" or ", "or", "(", ")")
    }

    /// A parenthesized group joined with ` and `, trimmed of `and`.
    pub fn new_and() -> (r: Self)
        ensures
            r@ == empty_model(" and "@, "and"@, "and"@, "("@, ")"@),
    {
        Self::new_builder(" and ", "and", "(", ")")
    }

    /// A list joined with ` , `, trimmed of `,`, framed by spaces.
    pub fn new_comma() -> (r: Self)
        ensures
            r@ == empty_model(" , "@, ","@, ","@, " "@, " "@),
    {
        Self::new_builder(" , ", ",", " ", " ")
    }

    /// A parenthesized list joined with ` , `, trimmed of `,`.
    pub fn new_comma_paren() -> (r: Self)
        ensures
            r@ == empty_model(" , "@, ","@, ","@, "("@, ")"@),
    {
        Self::new_builder(" , ", ",", "(", ")")
    }

    /// A parenthesized fragment joined with one space, with no trimming.
    pub fn new_paren() -> (r: Self)
        ensures
            r@ == empty_model(" "@, ""@, ""@, "("@, ")"@),
    {
        Self::new_builder(" ", "", "(", ")")
    }

    /// A bare fragment holding the literal `sql`.
    pub fn new_sql(sql: &'a str) -> (r: Self)
        ensures
            r@ == empty_model(" "@, ""@, ""@, ""@, ""@).with_segment(sql@),
    {
        let mut s = Self::new();
        s.push_sql(sql);
        s
    }

    /// A bare fragment holding the literal `sql` and the value of its
    /// placeholder.
    pub fn new_sql_arg(sql: &'a str, arg: Value) -> (r: Self)
        ensures
            r@ == empty_model(" "@, ""@, ""@, ""@, ""@).with_segment(sql@).with_value(arg),
    {
        let mut s = Self::new();
        s.push(sql, arg);
        s
    }

    /// Appends `field in (?, ...)` with one placeholder per value, and the
    /// values in order.
    pub fn in_(&mut self, field: &'a str, args: Vec<Value>) -> (r: &mut Self)
        ensures
            r@ == old(self)@.with_segment(field@ + " in "@ + placeholder_list(args@.len())).with_values(args@),
            *final(self) == *final(r),
    {
        let (list, mut vals) = Self::placeholders(args);
        let mut t = String::from_str(field);
        t.append(" in ");
        t.append(list.as_str());
        let ghost text = t@;
        self.sqls.push(InnerSql::Value(t));
        self.args.append(&mut vals);
        proof {
            assert(self@.segments =~= old(self)@.segments.push(text));
        }
        self
    }

    /// Appends `field not in (?, ...)` with one placeholder per value, and
    /// the values in order.
    pub fn not_in(&mut self, field: &'a str, args: Vec<Value>) -> (r: &mut Self)
        ensures
            r@ == old(self)@.with_segment(field@ + " not in "@ + placeholder_list(args@.len())).with_values(args@),
            *final(self) == *final(r),
    {
        let (list, mut vals) = Self::placeholders(args);
        let mut t = String::from_str(field);
        t.append(" not in ");
        t.append(list.as_str());
        let ghost text = t@;
        self.sqls.push(InnerSql::Value(t));
        self.args.append(&mut vals);
        proof {
            assert(self@.segments =~= old(self)@.segments.push(text));
        }
        self
    }

    /// A parenthesized list of one placeholder per value, rendered, and the
    /// values.
    fn placeholders(args: Vec<Value>) -> (r: (String, Vec<Value>))
        ensures
            r.0@ == placeholder_list(args@.len()),
            r.1@ == args@,
    {
        let mut list = Self::new_comma_paren();
        let ghost n = args@.len();
        assert(Seq::<Seq<char>>::empty() =~= Seq::new(0, |i: int| "?"@));
        assert(args@.take(0) =~= Seq::<Value>::empty());
        for arg in it: args.into_iter()
            invariant
                it.seq() == args@,
                list@ == (FragmentModel {
                    segments: Seq::new(it.index() as nat, |i: int| "?"@),
                    values: args@.take(it.index() as int),
                    ..empty_model(" , "@, ","@, ","@, "("@, ")"@)
                }),
        {
            list.push("?", arg);
            proof {
                assert(list@.segments =~= Seq::new((it.index() + 1) as nat, |i: int| "?"@));
                assert(list@.values =~= args@.take(it.index() + 1));
            }
        }
        proof {
            assert(list@.values =~= args@);
            assert(list@.segments =~= Seq::new(n, |i: int| "?"@));
            lemma_placeholder_list(n);
            assert(list@ == (FragmentModel {
                segments: Seq::new(n, |i: int| "?"@),
                values: args@,
                ..empty_model(" , "@, ","@, ","@, "("@, ")"@)
            }));
            if n == 0 {
                assert(args@ =~= Seq::<Value>::empty());
            }
        }
        list.build()
    }

    /// Appends ` order by `, `field`, and ` desc ` where `desc` holds.
    pub fn order_by(&mut self, field: &'a str, desc: bool) -> (r: &mut Self)
        ensures
            r@ == if desc {
                old(self)@.with_segment(" order by "@).with_segment(field@).with_segment(" desc "@)
            } else {
                old(self)@.with_segment(" order by "@).with_segment(field@)
            },
            *final(self) == *final(r),
    {
        self.push_sql(" order by ");
        self.push_sql(field);
        if desc {
            self.push_sql(" desc ");
        }
        self
    }

    /// Appends `limit ?`, bound to `arg`.
    pub fn limit(&mut self, arg: Value) -> (r: &mut Self)
        ensures
            r@ == old(self)@.with_segment("limit ?"@).with_value(arg),
            *final(self) == *final(r),
    {
        self.push("limit ?", arg)
    }

    /// Appends `offset ?`, bound to `arg`.
    pub fn offset(&mut self, arg: Value) -> (r: &mut Self)
        ensures
            r@ == old(self)@.with_segment("offset ?"@).with_value(arg),
            *final(self) == *final(r),
    {
        self.push("offset ?", arg)
    }

    /// Renders `builder`: its text and its values.
    pub fn prepare(builder: &mut SqlBuilder<'a>) -> (r: (String, Vec<Value>))
        ensures
            r.0@ == rendered(old(builder)@),
            r.1@ == rendered_values(old(builder)@),
            final(builder)@ == old(builder)@.drained(),
    {
        builder.build()
    }

    /// Renders `builder`: its text and its values.
    pub fn b(builder: &mut SqlBuilder<'a>) -> (r: (String, Vec<Value>))
        ensures
            r.0@ == rendered(old(builder)@),
            r.1@ == rendered_values(old(builder)@),
            final(builder)@ == old(builder)@.drained(),
    {
        Self::prepare(builder)
    }

    /// A bare fragment with `builder` composed into it.
    pub fn real_top(builder: &mut SqlBuilder<'a>) -> (r: Self)
        ensures
            r@ == composed(empty_model(" "@, ""@, ""@, ""@, ""@), old(builder)@),
            final(builder)@ == composed_child(empty_model(" "@, ""@, ""@, ""@, ""@), old(builder)@),
    {
        let mut top = Self::new();
        top.push_build(builder);
        top
    }

    /// Composes the fragment that `f` makes into this one.
    pub fn push_fn<F: Fn() -> SqlBuilder<'a>>(&mut self, f: F) -> (r: &mut Self)
        requires
            f.requires(()),
        ensures
            exists|c: SqlBuilder<'a>| f.ensures((), c) && r@ == composed(old(self)@, c@),
            *final(self) == *final(r),
    {
        let mut c = f();
        self.push_build(&mut c)
    }

    /// Renders `b` and appends its text as one segment, with the values it
    /// hands out.
    pub fn push_ibuild<T: IBuilder>(&mut self, b: &mut T) -> (r: &mut Self)
        ensures
            r@ == old(self)@.with_segment(old(b).built_text()).with_values(old(b).built_values()),
            *final(self) == *final(r),
    {
        let (sql, args) = b.build();
        self.push_rendered(sql, args)
    }
}

impl<'a> IBuilder for SqlBuilder<'a> {
    open spec fn built_text(&self) -> Seq<char> {
        rendered(self@)
    }

    open spec fn built_values(&self) -> Seq<Value> {
        rendered_values(self@)
    }

    fn build(&mut self) -> (String, Vec<Value>) {
        SqlBuilder::build(self)
    }
}

} // verus!
