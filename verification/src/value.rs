//! The tree of values the parser produces and the evaluator walks: literals,
//! names, and calls.
//!
//! A float value carries the decimal text of its literal; the decimal
//! arithmetic behind the float operations lives in `decimal`.

use vstd::prelude::*;

use crate::numbers::int_text;

verus! {

broadcast use
    vstd::std_specs::vec::axiom_vec_index_decreases,
    vstd::seq::axiom_seq_index_decreases,
    vstd::seq::axiom_seq_subrange_decreases,
;

/// A node of the parsed program tree. A call's first element conventionally
/// names the function to invoke; the parser does not enforce that shape.
#[derive(Debug, PartialEq)]
pub enum LispValue {
    Str(String),
    Boolean(bool),
    Int(i64),
    /// The decimal text of the float literal, e.g. `3.25` or `-0.5`.
    Float(String),
    Name(String),
    Function(Vec<LispValue>),
}

/// The mathematical shape of a `LispValue`.
pub enum ValueModel {
    Str(Seq<char>),
    Boolean(bool),
    Int(int),
    Float(Seq<char>),
    Name(Seq<char>),
    Call(Seq<ValueModel>),
}

impl View for LispValue {
    type V = ValueModel;

    open spec fn view(&self) -> ValueModel
        decreases self,
    {
        match self {
            LispValue::Str(s) => ValueModel::Str(s@),
            LispValue::Boolean(b) => ValueModel::Boolean(*b),
            LispValue::Int(i) => ValueModel::Int(*i as int),
            LispValue::Float(t) => ValueModel::Float(t@),
            LispValue::Name(n) => ValueModel::Name(n@),
            LispValue::Function(args) => ValueModel::Call(view_items(args, 0)),
        }
    }
}

/// The views of the elements of `args` from index `i` on.
pub open spec fn view_items(args: &Vec<LispValue>, i: int) -> Seq<ValueModel>
    decreases args, args@.len() - i,
{
    if i < 0 || i >= args@.len() {
        Seq::empty()
    } else {
        seq![args[i]@] + view_items(args, i + 1)
    }
}

/// The views of a sequence of values, element by element.
pub open spec fn views_of(s: Seq<LispValue>) -> Seq<ValueModel>
    decreases s.len(),
{
    if s.len() == 0 {
        Seq::empty()
    } else {
        seq![s[0]@] + views_of(s.drop_first())
    }
}

pub broadcast proof fn lemma_views_of_len(s: Seq<LispValue>)
    ensures
        (#[trigger] views_of(s)).len() == s.len(),
    decreases s.len(),
{
    if s.len() > 0 {
        lemma_views_of_len(s.drop_first());
    }
}

pub broadcast proof fn lemma_views_of_index(s: Seq<LispValue>, i: int)
    requires
        0 <= i < s.len(),
    ensures
        (#[trigger] views_of(s)[i]) == s[i]@,
    decreases s.len(),
{
    lemma_views_of_len(s);
    if i > 0 {
        lemma_views_of_index(s.drop_first(), i - 1);
    }
}

proof fn lemma_view_items(args: &Vec<LispValue>, i: int)
    requires
        0 <= i <= args@.len(),
    ensures
        view_items(args, i) == views_of(args@).subrange(i, args@.len() as int),
    decreases args@.len() - i,
{
    broadcast use lemma_views_of_len, lemma_views_of_index;

    if i == args@.len() {
        assert(view_items(args, i) =~= views_of(args@).subrange(i, args@.len() as int));
    } else {
        lemma_view_items(args, i + 1);
        let n = args@.len() as int;
        let vs = views_of(args@);
        assert(view_items(args, i) == seq![args[i as int]@] + view_items(args, i + 1));
        assert(view_items(args, i).len() == vs.subrange(i, n).len());
        assert forall|k: int| 0 <= k < n - i implies view_items(args, i)[k] == vs.subrange(
            i,
            n,
        )[k] by {
            lemma_views_of_index(args@, i + k);
            if k > 0 {
                assert(view_items(args, i)[k] == view_items(args, i + 1)[k - 1]);
                assert(view_items(args, i + 1)[k - 1] == vs.subrange(i + 1, n)[k - 1]);
            }
        }
        assert(view_items(args, i) =~= vs.subrange(i, n));
    }
}

pub broadcast proof fn lemma_view_call(v: &LispValue)
    requires
        v is Function,
    ensures
        (#[trigger] v@) == ValueModel::Call(views_of(v->Function_0@)),
{
    broadcast use lemma_views_of_len;

    match v {
        LispValue::Function(args) => {
            lemma_view_items(args, 0);
            assert(views_of(args@).subrange(0, args@.len() as int) =~= views_of(args@));
        },
        _ => {},
    }
}

pub proof fn lemma_views_of_cons(v: LispValue, rest: Seq<LispValue>)
    ensures
        views_of(seq![v] + rest) == seq![v@] + views_of(rest),
{
    let s = seq![v] + rest;
    assert(s.len() > 0);
    assert(s[0] == v);
    assert(s.drop_first() =~= rest);
    assert(views_of(s) == seq![s[0]@] + views_of(s.drop_first()));
}

pub proof fn lemma_views_of_drop_first(s: Seq<LispValue>)
    requires
        s.len() > 0,
    ensures
        views_of(s.drop_first()) == views_of(s).drop_first(),
{
    broadcast use lemma_views_of_len, lemma_views_of_index;

    assert forall|k: int| 0 <= k < s.len() - 1 implies views_of(s.drop_first())[k] == views_of(
        s,
    ).drop_first()[k] by {
        lemma_views_of_index(s.drop_first(), k);
        lemma_views_of_index(s, k + 1);
    }
    assert(views_of(s.drop_first()) =~= views_of(s).drop_first());
}

pub proof fn lemma_views_of_push(s: Seq<LispValue>, x: LispValue)
    ensures
        views_of(s.push(x)) == views_of(s).push(x@),
{
    broadcast use lemma_views_of_len, lemma_views_of_index;

    let after = s.push(x);
    assert forall|k: int| 0 <= k < after.len() implies views_of(after)[k] == views_of(s).push(
        x@,
    )[k] by {
        lemma_views_of_index(after, k);
        if k < s.len() {
            lemma_views_of_index(s, k);
            assert(after[k] == s[k]);
        }
    }
    assert(views_of(after) =~= views_of(s).push(x@));
}

pub proof fn lemma_views_of_concat(a: Seq<LispValue>, b: Seq<LispValue>)
    ensures
        views_of(a + b) == views_of(a) + views_of(b),
{
    broadcast use lemma_views_of_len, lemma_views_of_index;

    assert forall|k: int| 0 <= k < a.len() + b.len() implies views_of(a + b)[k] == (views_of(a)
        + views_of(b))[k] by {
        lemma_views_of_index(a + b, k);
        if k < a.len() {
            lemma_views_of_index(a, k);
            assert((a + b)[k] == a[k]);
        } else {
            lemma_views_of_index(b, k - a.len());
            assert((a + b)[k] == b[k - a.len()]);
        }
    }
    assert(views_of(a + b) =~= views_of(a) + views_of(b));
}

pub proof fn lemma_models_size_concat(a: Seq<ValueModel>, b: Seq<ValueModel>)
    ensures
        models_size(a + b) == models_size(a) + models_size(b),
    decreases a.len(),
{
    if a.len() == 0 {
        assert(a + b =~= b);
    } else {
        assert((a + b).drop_first() =~= a.drop_first() + b);
        assert((a + b)[0] == a[0]);
        lemma_models_size_concat(a.drop_first(), b);
    }
}

/// The lemmas that connect a value's view to the views of its parts.
pub broadcast group group_value_axioms {
    lemma_views_of_len,
    lemma_views_of_index,
    lemma_view_call,
}

/// Number of nodes in a value tree; every node counts one.
pub open spec fn model_size(v: ValueModel) -> nat
    decreases v,
{
    match v {
        ValueModel::Call(items) => 1 + models_size(items),
        _ => 1,
    }
}

pub open spec fn models_size(s: Seq<ValueModel>) -> nat
    decreases s,
{
    if s.len() == 0 {
        0
    } else {
        model_size(s[0]) + models_size(s.drop_first())
    }
}

pub proof fn lemma_models_size_elem(s: Seq<ValueModel>, i: int)
    requires
        0 <= i < s.len(),
    ensures
        model_size(s[i]) <= models_size(s),
    decreases s.len(),
{
    if i > 0 {
        lemma_models_size_elem(s.drop_first(), i - 1);
    }
}

pub proof fn lemma_model_size_pos(v: ValueModel)
    ensures
        model_size(v) >= 1,
{
}

pub proof fn lemma_models_size_mono(s1: Seq<ValueModel>, s2: Seq<ValueModel>)
    requires
        s1.len() == s2.len(),
        forall|i: int| 0 <= i < s1.len() ==> model_size(#[trigger] s1[i]) <= model_size(s2[i]),
    ensures
        models_size(s1) <= models_size(s2),
    decreases s1.len(),
{
    if s1.len() > 0 {
        assert forall|i: int| 0 <= i < s1.drop_first().len() implies model_size(
            #[trigger] s1.drop_first()[i],
        ) <= model_size(s2.drop_first()[i]) by {
            assert(s1.drop_first()[i] == s1[i + 1]);
            assert(s2.drop_first()[i] == s2[i + 1]);
        }
        lemma_models_size_mono(s1.drop_first(), s2.drop_first());
    }
}

pub proof fn lemma_models_size_drop_first(s: Seq<ValueModel>)
    requires
        s.len() > 0,
    ensures
        models_size(s.drop_first()) < models_size(s),
{
    assert(model_size(s[0]) >= 1);
}

impl LispValue {
    /// A value equal to this one; the tree is copied node by node.
    #[verifier::loop_isolation(false)]
    pub fn duplicate(&self) -> (r: LispValue)
        ensures
            r@ == self@,
        decreases model_size(self@),
    {
        broadcast use lemma_views_of_len, lemma_views_of_index;

        match self {
            LispValue::Str(s) => LispValue::Str(s.clone()),
            LispValue::Boolean(b) => LispValue::Boolean(*b),
            LispValue::Int(i) => LispValue::Int(*i),
            LispValue::Float(t) => LispValue::Float(t.clone()),
            LispValue::Name(n) => LispValue::Name(n.clone()),
            LispValue::Function(args) => {
                proof {
                    lemma_view_call(self);
                }
                let n = args.len();
                let mut out: Vec<LispValue> = Vec::new();
                let mut i: usize = 0;
                while i < n
                    invariant
                        i <= n,
                        n == args@.len(),
                        self == LispValue::Function(*args),
                        self@ == ValueModel::Call(views_of(args@)),
                        out@.len() == i,
                        forall|k: int| 0 <= k < i ==> #[trigger] out@[k]@ == args@[k]@,
                    decreases n - i,
                {
                    proof {
                        lemma_models_size_elem(views_of(args@), i as int);
                        assert(views_of(args@)[i as int] == args@[i as int]@);
                    }
                    let dup = args[i].duplicate();
                    out.push(dup);
                    i = i + 1;
                }
                let r = LispValue::Function(out);
                proof {
                    lemma_view_call(&r);
                    assert(views_of(out@) =~= views_of(args@));
                }
                r
            },
        }
    }
}

/// Textual form of a value: strings quoted, numbers tagged with their type,
/// calls written back as parenthesized lists.
pub open spec fn spec_render(v: ValueModel) -> Seq<char>
    decreases v,
{
    match v {
        ValueModel::Str(s) => seq!['"'] + s + seq!['"'],
        ValueModel::Boolean(b) => if b {
            "true"@
        } else {
            "false"@
        },
        ValueModel::Int(i) => "int("@ + int_text(i) + seq![')'],
        ValueModel::Float(t) => "float("@ + t + seq![')'],
        ValueModel::Name(n) => n,
        ValueModel::Call(items) => "( "@ + spec_render_items(items) + seq![')'],
    }
}

/// Each rendered item followed by one space.
pub open spec fn spec_render_items(items: Seq<ValueModel>) -> Seq<char>
    decreases items,
{
    if items.len() == 0 {
        Seq::empty()
    } else {
        spec_render(items[0]) + seq![' '] + spec_render_items(items.drop_first())
    }
}

proof fn lemma_render_items_concat(a: Seq<ValueModel>, b: Seq<ValueModel>)
    ensures
        spec_render_items(a + b) == spec_render_items(a) + spec_render_items(b),
    decreases a.len(),
{
    if a.len() == 0 {
        assert(a + b =~= b);
        assert(spec_render_items(a) + spec_render_items(b) =~= spec_render_items(b));
    } else {
        assert((a + b).drop_first() =~= a.drop_first() + b);
        assert((a + b)[0] == a[0]);
        lemma_render_items_concat(a.drop_first(), b);
        assert(spec_render_items(a + b) =~= spec_render_items(a) + spec_render_items(b));
    }
}

impl LispValue {
    /// Renders the value exactly as `spec_render` describes.
    #[verifier::loop_isolation(false)]
    pub fn render(&self) -> (r: String)
        ensures
            r@ == spec_render(self@),
        decreases model_size(self@),
    {
        broadcast use lemma_views_of_len, lemma_views_of_index;

        match self {
            LispValue::Str(s) => {
                let mut r = String::from_str("\"");
                r.append(s.as_str());
                r.push('"');
                proof {
                    reveal_strlit("\"");
                    assert(r@ =~= seq!['"'] + s@ + seq!['"']);
                }
                r
            },
            LispValue::Boolean(b) => {
                if *b {
                    String::from_str("true")
                } else {
                    String::from_str("false")
                }
            },
            LispValue::Int(i) => {
                let mut r = String::from_str("int(");
                let digits = crate::numbers::i64_to_string(*i);
                r.append(digits.as_str());
                r.push(')');
                assert(r@ =~= "int("@ + int_text(*i as int) + seq![')']);
                r
            },
            LispValue::Float(t) => {
                let mut r = String::from_str("float(");
                r.append(t.as_str());
                r.push(')');
                assert(r@ =~= "float("@ + t@ + seq![')']);
                r
            },
            LispValue::Name(n) => n.clone(),
            LispValue::Function(args) => {
                proof {
                    lemma_view_call(self);
                }
                let n = args.len();
                let mut r = String::from_str("( ");
                let mut i: usize = 0;
                while i < n
                    invariant
                        i <= n,
                        n == args@.len(),
                        self == LispValue::Function(*args),
                        self@ == ValueModel::Call(views_of(args@)),
                        r@ == "( "@ + spec_render_items(views_of(args@).take(i as int)),
                    decreases n - i,
                {
                    proof {
                        lemma_models_size_elem(views_of(args@), i as int);
                        assert(views_of(args@)[i as int] == args@[i as int]@);
                    }
                    let piece = args[i].render();
                    r.append(piece.as_str());
                    r.push(' ');
                    proof {
                        let vs = views_of(args@);
                        assert(vs.take(i + 1) =~= vs.take(i as int) + seq![vs[i as int]]);
                        lemma_render_items_concat(vs.take(i as int), seq![vs[i as int]]);
                        assert(seq![vs[i as int]].drop_first() =~= Seq::<ValueModel>::empty());
                        assert(spec_render_items(Seq::<ValueModel>::empty()) =~= Seq::<char>::empty());
                        assert(spec_render_items(seq![vs[i as int]]) =~= spec_render(
                            vs[i as int],
                        ) + seq![' ']);
                        assert(r@ =~= "( "@ + spec_render_items(vs.take(i + 1)));
                    }
                    i = i + 1;
                }
                r.push(')');
                proof {
                    assert(views_of(args@).take(n as int) =~= views_of(args@));
                    assert(r@ =~= "( "@ + spec_render_items(views_of(args@)) + seq![')']);
                }
                r
            },
        }
    }
}

} // verus!
