//! The evaluator's environment: an owned stack of scope frames, each mapping
//! names to variable bindings and to function definitions.
//!
//! Lookup walks from the innermost frame outward, so the nearest enclosing
//! binding wins; definition always writes the innermost frame, so a binding
//! shadows but never mutates an enclosing one. The root frame is created once
//! per run; a child frame lives exactly as long as one user-function
//! invocation.

use vstd::prelude::*;

use crate::value::{views_of, LispValue, ValueModel};

verus! {

broadcast use crate::value::group_value_axioms;

/// A natively implemented operation, a declaration form, or a user-defined
/// function carrying its formal parameter names and unevaluated body forms.
pub enum Function {
    Add,
    Sub,
    Mul,
    Div,
    Print,
    Defvar,
    Defun,
    Equals,
    NotEquals,
    Grater,
    GraterOrEquals,
    Less,
    LessOrEquals,
    Or,
    And,
    Not,
    Custom(Vec<String>, Vec<LispValue>),
}

/// The mathematical shape of a `Function`.
pub enum FunctionModel {
    Add,
    Sub,
    Mul,
    Div,
    Print,
    Defvar,
    Defun,
    Equals,
    NotEquals,
    Grater,
    GraterOrEquals,
    Less,
    LessOrEquals,
    Or,
    And,
    Not,
    Custom(Seq<Seq<char>>, Seq<ValueModel>),
}

/// The views of a sequence of strings, element by element.
pub open spec fn names_of(s: Seq<String>) -> Seq<Seq<char>>
    decreases s.len(),
{
    if s.len() == 0 {
        Seq::empty()
    } else {
        seq![s[0]@] + names_of(s.drop_first())
    }
}

pub broadcast proof fn lemma_names_of_len(s: Seq<String>)
    ensures
        (#[trigger] names_of(s)).len() == s.len(),
    decreases s.len(),
{
    if s.len() > 0 {
        lemma_names_of_len(s.drop_first());
    }
}

pub broadcast proof fn lemma_names_of_index(s: Seq<String>, i: int)
    requires
        0 <= i < s.len(),
    ensures
        (#[trigger] names_of(s)[i]) == s[i]@,
    decreases s.len(),
{
    lemma_names_of_len(s);
    if i > 0 {
        lemma_names_of_index(s.drop_first(), i - 1);
    }
}


pub proof fn lemma_names_of_push(before: Seq<String>, x: String)
    ensures
        names_of(before.push(x)) == names_of(before).push(x@),
{
    broadcast use lemma_names_of_len, lemma_names_of_index;

    let after = before.push(x);
    assert forall|k: int| 0 <= k < after.len() implies names_of(after)[k] == names_of(
        before,
    ).push(x@)[k] by {
        lemma_names_of_index(after, k);
        if k < before.len() {
            lemma_names_of_index(before, k);
            assert(after[k] == before[k]);
        }
    }
    assert(names_of(after) =~= names_of(before).push(x@));
}

impl View for Function {
    type V = FunctionModel;

    open spec fn view(&self) -> FunctionModel {
        match self {
            Function::Add => FunctionModel::Add,
            Function::Sub => FunctionModel::Sub,
            Function::Mul => FunctionModel::Mul,
            Function::Div => FunctionModel::Div,
            Function::Print => FunctionModel::Print,
            Function::Defvar => FunctionModel::Defvar,
            Function::Defun => FunctionModel::Defun,
            Function::Equals => FunctionModel::Equals,
            Function::NotEquals => FunctionModel::NotEquals,
            Function::Grater => FunctionModel::Grater,
            Function::GraterOrEquals => FunctionModel::GraterOrEquals,
            Function::Less => FunctionModel::Less,
            Function::LessOrEquals => FunctionModel::LessOrEquals,
            Function::Or => FunctionModel::Or,
            Function::And => FunctionModel::And,
            Function::Not => FunctionModel::Not,
            Function::Custom(params, body) => FunctionModel::Custom(
                names_of(params@),
                views_of(body@),
            ),
        }
    }
}

/// Copies a vector of strings, element by element.
pub fn clone_strings(v: &Vec<String>) -> (r: Vec<String>)
    ensures
        names_of(r@) == names_of(v@),
{
    broadcast use lemma_names_of_len, lemma_names_of_index;

    let mut r: Vec<String> = Vec::new();
    let mut i: usize = 0;
    while i < v.len()
        invariant
            i <= v@.len(),
            r@.len() == i,
            forall|k: int| 0 <= k < i ==> #[trigger] r@[k]@ == v@[k]@,
        decreases v@.len() - i,
    {
        r.push(v[i].clone());
        i = i + 1;
    }
    proof {
        assert(names_of(r@) =~= names_of(v@)) by {
            assert forall|k: int| 0 <= k < v@.len() implies names_of(r@)[k] == names_of(
                v@,
            )[k] by {
                lemma_names_of_index(r@, k);
                lemma_names_of_index(v@, k);
            }
        }
    }
    r
}

/// Copies a vector of values, element by element.
pub fn clone_values(v: &Vec<LispValue>) -> (r: Vec<LispValue>)
    ensures
        views_of(r@) == views_of(v@),
{
    broadcast use crate::value::lemma_views_of_len, crate::value::lemma_views_of_index;

    let mut r: Vec<LispValue> = Vec::new();
    let mut i: usize = 0;
    while i < v.len()
        invariant
            i <= v@.len(),
            r@.len() == i,
            forall|k: int| 0 <= k < i ==> #[trigger] r@[k]@ == v@[k]@,
        decreases v@.len() - i,
    {
        r.push(v[i].duplicate());
        i = i + 1;
    }
    proof {
        assert(views_of(r@) =~= views_of(v@)) by {
            assert forall|k: int| 0 <= k < v@.len() implies views_of(r@)[k] == views_of(
                v@,
            )[k] by {
                crate::value::lemma_views_of_index(r@, k);
                crate::value::lemma_views_of_index(v@, k);
            }
        }
    }
    r
}

impl Function {
    /// A function value equal to this one.
    pub fn duplicate(&self) -> (r: Function)
        ensures
            r@ == self@,
    {
        match self {
            Function::Add => Function::Add,
            Function::Sub => Function::Sub,
            Function::Mul => Function::Mul,
            Function::Div => Function::Div,
            Function::Print => Function::Print,
            Function::Defvar => Function::Defvar,
            Function::Defun => Function::Defun,
            Function::Equals => Function::Equals,
            Function::NotEquals => Function::NotEquals,
            Function::Grater => Function::Grater,
            Function::GraterOrEquals => Function::GraterOrEquals,
            Function::Less => Function::Less,
            Function::LessOrEquals => Function::LessOrEquals,
            Function::Or => Function::Or,
            Function::And => Function::And,
            Function::Not => Function::Not,
            Function::Custom(params, body) => Function::Custom(
                clone_strings(params),
                clone_values(body),
            ),
        }
    }
}

/// One scope frame: its variable bindings and its function definitions, in
/// the order they were made; a later binding of a name shadows an earlier
/// one.
pub struct Scope {
    pub variables: Vec<(String, LispValue)>,
    pub functions: Vec<(String, Function)>,
}

/// The binding of `name` in one frame's entries: the most recent one wins.
pub open spec fn spec_lookup_var_in(entries: Seq<(String, LispValue)>, name: Seq<char>) -> Option<
    ValueModel,
>
    decreases entries.len(),
{
    if entries.len() == 0 {
        None
    } else if entries.last().0@ == name {
        Some(entries.last().1@)
    } else {
        spec_lookup_var_in(entries.drop_last(), name)
    }
}

/// The definition of `name` in one frame's entries: the most recent one wins.
pub open spec fn spec_lookup_fun_in(entries: Seq<(String, Function)>, name: Seq<char>) -> Option<
    FunctionModel,
>
    decreases entries.len(),
{
    if entries.len() == 0 {
        None
    } else if entries.last().0@ == name {
        Some(entries.last().1@)
    } else {
        spec_lookup_fun_in(entries.drop_last(), name)
    }
}

/// The nearest enclosing variable binding of `name`: the innermost frame is
/// searched first.
pub open spec fn spec_lookup_var(scopes: Seq<Scope>, name: Seq<char>) -> Option<ValueModel>
    decreases scopes.len(),
{
    if scopes.len() == 0 {
        None
    } else {
        match spec_lookup_var_in(scopes.last().variables@, name) {
            Some(v) => Some(v),
            None => spec_lookup_var(scopes.drop_last(), name),
        }
    }
}

/// The nearest enclosing function definition of `name`.
pub open spec fn spec_lookup_fun(scopes: Seq<Scope>, name: Seq<char>) -> Option<FunctionModel>
    decreases scopes.len(),
{
    if scopes.len() == 0 {
        None
    } else {
        match spec_lookup_fun_in(scopes.last().functions@, name) {
            Some(f) => Some(f),
            None => spec_lookup_fun(scopes.drop_last(), name),
        }
    }
}

/// No frame binds a name to a call-shaped value: a variable holds the value
/// a form evaluated to, and evaluation never yields a call.
pub open spec fn no_call_values(scopes: Seq<Scope>) -> bool {
    forall|f: int, e: int|
        0 <= f < scopes.len() && 0 <= e < scopes[f].variables@.len() ==> !((#[trigger] scopes[f].variables@[e]).1 is Function)
}

/// A variable bound in a frame is never a call-shaped value.
pub proof fn lemma_lookup_var_literal(scopes: Seq<Scope>, name: Seq<char>)
    requires
        no_call_values(scopes),
    ensures
        match spec_lookup_var(scopes, name) {
            Some(m) => !(m is Call),
            None => true,
        },
    decreases scopes.len(),
{
    if scopes.len() > 0 {
        let entries = scopes.last().variables@;
        assert(entries.take(entries.len() as int) =~= entries);
        lemma_lookup_var_in_literal(scopes, entries.take(entries.len() as int), name, entries.len() as int);
        assert(no_call_values(scopes.drop_last())) by {
            assert forall|f: int, e: int|
                0 <= f < scopes.drop_last().len() && 0 <= e
                    < scopes.drop_last()[f].variables@.len() implies !((#[trigger] scopes.drop_last(
            )[f].variables@[e]).1 is Function) by {
                assert(scopes.drop_last()[f] == scopes[f]);
            }
        }
        lemma_lookup_var_literal(scopes.drop_last(), name);
    }
}

proof fn lemma_lookup_var_in_literal(
    scopes: Seq<Scope>,
    entries: Seq<(String, LispValue)>,
    name: Seq<char>,
    k: int,
)
    requires
        no_call_values(scopes),
        scopes.len() > 0,
        entries == scopes.last().variables@.take(k),
        0 <= k <= scopes.last().variables@.len(),
    ensures
        match spec_lookup_var_in(entries, name) {
            Some(m) => !(m is Call),
            None => true,
        },
    decreases k,
{
    if entries.len() > 0 {
        assert(entries.last() == scopes.last().variables@[k - 1]);
        assert(!(entries.last().1 is Function));
        assert(entries.drop_last() =~= scopes.last().variables@.take(k - 1));
        lemma_lookup_var_in_literal(scopes, entries.drop_last(), name, k - 1);
    }
}


/// The mathematical shape of one scope frame.
pub struct ScopeModel {
    pub variables: Seq<(Seq<char>, ValueModel)>,
    pub functions: Seq<(Seq<char>, FunctionModel)>,
}

/// The mathematical shape of the interpreter state.
pub struct StateModel {
    pub scopes: Seq<ScopeModel>,
    pub out: Seq<char>,
}

/// The views of a frame's variable entries, element by element.
pub open spec fn var_entries_of(s: Seq<(String, LispValue)>) -> Seq<(Seq<char>, ValueModel)>
    decreases s.len(),
{
    if s.len() == 0 {
        Seq::empty()
    } else {
        seq![(s[0].0@, s[0].1@)] + var_entries_of(s.drop_first())
    }
}

pub broadcast proof fn lemma_var_entries_of_len(s: Seq<(String, LispValue)>)
    ensures
        (#[trigger] var_entries_of(s)).len() == s.len(),
    decreases s.len(),
{
    if s.len() > 0 {
        lemma_var_entries_of_len(s.drop_first());
    }
}

pub broadcast proof fn lemma_var_entries_of_index(s: Seq<(String, LispValue)>, i: int)
    requires
        0 <= i < s.len(),
    ensures
        (#[trigger] var_entries_of(s)[i]) == (s[i].0@, s[i].1@),
    decreases s.len(),
{
    lemma_var_entries_of_len(s);
    if i > 0 {
        lemma_var_entries_of_index(s.drop_first(), i - 1);
    }
}

/// The views of a frame's function entries, element by element.
pub open spec fn fun_entries_of(s: Seq<(String, Function)>) -> Seq<(Seq<char>, FunctionModel)>
    decreases s.len(),
{
    if s.len() == 0 {
        Seq::empty()
    } else {
        seq![(s[0].0@, s[0].1@)] + fun_entries_of(s.drop_first())
    }
}

pub broadcast proof fn lemma_fun_entries_of_len(s: Seq<(String, Function)>)
    ensures
        (#[trigger] fun_entries_of(s)).len() == s.len(),
    decreases s.len(),
{
    if s.len() > 0 {
        lemma_fun_entries_of_len(s.drop_first());
    }
}

pub broadcast proof fn lemma_fun_entries_of_index(s: Seq<(String, Function)>, i: int)
    requires
        0 <= i < s.len(),
    ensures
        (#[trigger] fun_entries_of(s)[i]) == (s[i].0@, s[i].1@),
    decreases s.len(),
{
    lemma_fun_entries_of_len(s);
    if i > 0 {
        lemma_fun_entries_of_index(s.drop_first(), i - 1);
    }
}

impl View for Scope {
    type V = ScopeModel;

    open spec fn view(&self) -> ScopeModel {
        ScopeModel { variables: var_entries_of(self.variables@), functions: fun_entries_of(self.functions@) }
    }
}

/// The views of a stack of frames, element by element.
pub open spec fn scopes_of(s: Seq<Scope>) -> Seq<ScopeModel>
    decreases s.len(),
{
    if s.len() == 0 {
        Seq::empty()
    } else {
        seq![s[0]@] + scopes_of(s.drop_first())
    }
}

pub broadcast proof fn lemma_scopes_of_len(s: Seq<Scope>)
    ensures
        (#[trigger] scopes_of(s)).len() == s.len(),
    decreases s.len(),
{
    if s.len() > 0 {
        lemma_scopes_of_len(s.drop_first());
    }
}

pub broadcast proof fn lemma_scopes_of_index(s: Seq<Scope>, i: int)
    requires
        0 <= i < s.len(),
    ensures
        (#[trigger] scopes_of(s)[i]) == s[i]@,
    decreases s.len(),
{
    lemma_scopes_of_len(s);
    if i > 0 {
        lemma_scopes_of_index(s.drop_first(), i - 1);
    }
}

/// The lemmas that connect a state's view to the views of its parts.
pub broadcast group group_state_axioms {
    lemma_var_entries_of_len,
    lemma_var_entries_of_index,
    lemma_fun_entries_of_len,
    lemma_fun_entries_of_index,
    lemma_scopes_of_len,
    lemma_scopes_of_index,
}

/// The binding of `name` among model entries: the most recent one wins.
pub open spec fn m_lookup_var_in(entries: Seq<(Seq<char>, ValueModel)>, name: Seq<char>) -> Option<
    ValueModel,
>
    decreases entries.len(),
{
    if entries.len() == 0 {
        None
    } else if entries.last().0 == name {
        Some(entries.last().1)
    } else {
        m_lookup_var_in(entries.drop_last(), name)
    }
}

pub open spec fn m_lookup_fun_in(
    entries: Seq<(Seq<char>, FunctionModel)>,
    name: Seq<char>,
) -> Option<FunctionModel>
    decreases entries.len(),
{
    if entries.len() == 0 {
        None
    } else if entries.last().0 == name {
        Some(entries.last().1)
    } else {
        m_lookup_fun_in(entries.drop_last(), name)
    }
}

/// The nearest enclosing variable binding of `name` in the model.
pub open spec fn m_lookup_var(scopes: Seq<ScopeModel>, name: Seq<char>) -> Option<ValueModel>
    decreases scopes.len(),
{
    if scopes.len() == 0 {
        None
    } else {
        match m_lookup_var_in(scopes.last().variables, name) {
            Some(v) => Some(v),
            None => m_lookup_var(scopes.drop_last(), name),
        }
    }
}

/// The nearest enclosing function definition of `name` in the model.
pub open spec fn m_lookup_fun(scopes: Seq<ScopeModel>, name: Seq<char>) -> Option<FunctionModel>
    decreases scopes.len(),
{
    if scopes.len() == 0 {
        None
    } else {
        match m_lookup_fun_in(scopes.last().functions, name) {
            Some(f) => Some(f),
            None => m_lookup_fun(scopes.drop_last(), name),
        }
    }
}

proof fn lemma_var_entries_of_drop_last(s: Seq<(String, LispValue)>)
    requires
        s.len() > 0,
    ensures
        var_entries_of(s.drop_last()) == var_entries_of(s).drop_last(),
{
    broadcast use group_state_axioms;

    assert forall|k: int| 0 <= k < s.len() - 1 implies var_entries_of(s.drop_last())[k]
        == var_entries_of(s).drop_last()[k] by {
        lemma_var_entries_of_index(s.drop_last(), k);
        lemma_var_entries_of_index(s, k);
    }
    assert(var_entries_of(s.drop_last()) =~= var_entries_of(s).drop_last());
}

proof fn lemma_fun_entries_of_drop_last(s: Seq<(String, Function)>)
    requires
        s.len() > 0,
    ensures
        fun_entries_of(s.drop_last()) == fun_entries_of(s).drop_last(),
{
    broadcast use group_state_axioms;

    assert forall|k: int| 0 <= k < s.len() - 1 implies fun_entries_of(s.drop_last())[k]
        == fun_entries_of(s).drop_last()[k] by {
        lemma_fun_entries_of_index(s.drop_last(), k);
        lemma_fun_entries_of_index(s, k);
    }
    assert(fun_entries_of(s.drop_last()) =~= fun_entries_of(s).drop_last());
}

proof fn lemma_scopes_of_drop_last(s: Seq<Scope>)
    requires
        s.len() > 0,
    ensures
        scopes_of(s.drop_last()) == scopes_of(s).drop_last(),
{
    broadcast use group_state_axioms;

    assert forall|k: int| 0 <= k < s.len() - 1 implies scopes_of(s.drop_last())[k] == scopes_of(
        s,
    ).drop_last()[k] by {
        lemma_scopes_of_index(s.drop_last(), k);
        lemma_scopes_of_index(s, k);
    }
    assert(scopes_of(s.drop_last()) =~= scopes_of(s).drop_last());
}

proof fn lemma_m_lookup_var_in_agree(entries: Seq<(String, LispValue)>, name: Seq<char>)
    ensures
        m_lookup_var_in(var_entries_of(entries), name) == spec_lookup_var_in(entries, name),
    decreases entries.len(),
{
    broadcast use group_state_axioms;

    if entries.len() > 0 {
        lemma_var_entries_of_index(entries, entries.len() - 1);
        assert(var_entries_of(entries).last() == (entries.last().0@, entries.last().1@));
        lemma_var_entries_of_drop_last(entries);
        lemma_m_lookup_var_in_agree(entries.drop_last(), name);
    }
}

proof fn lemma_m_lookup_fun_in_agree(entries: Seq<(String, Function)>, name: Seq<char>)
    ensures
        m_lookup_fun_in(fun_entries_of(entries), name) == spec_lookup_fun_in(entries, name),
    decreases entries.len(),
{
    broadcast use group_state_axioms;

    if entries.len() > 0 {
        lemma_fun_entries_of_index(entries, entries.len() - 1);
        assert(fun_entries_of(entries).last() == (entries.last().0@, entries.last().1@));
        lemma_fun_entries_of_drop_last(entries);
        lemma_m_lookup_fun_in_agree(entries.drop_last(), name);
    }
}

/// The model lookups agree with the lookups over the executable frames.
pub proof fn lemma_m_lookup_var_agree(scopes: Seq<Scope>, name: Seq<char>)
    ensures
        m_lookup_var(scopes_of(scopes), name) == spec_lookup_var(scopes, name),
    decreases scopes.len(),
{
    broadcast use group_state_axioms;

    if scopes.len() > 0 {
        lemma_scopes_of_index(scopes, scopes.len() - 1);
        assert(scopes_of(scopes).last() == scopes.last()@);
        lemma_m_lookup_var_in_agree(scopes.last().variables@, name);
        lemma_scopes_of_drop_last(scopes);
        lemma_m_lookup_var_agree(scopes.drop_last(), name);
    }
}

pub proof fn lemma_m_lookup_fun_agree(scopes: Seq<Scope>, name: Seq<char>)
    ensures
        m_lookup_fun(scopes_of(scopes), name) == spec_lookup_fun(scopes, name),
    decreases scopes.len(),
{
    broadcast use group_state_axioms;

    if scopes.len() > 0 {
        lemma_scopes_of_index(scopes, scopes.len() - 1);
        assert(scopes_of(scopes).last() == scopes.last()@);
        lemma_m_lookup_fun_in_agree(scopes.last().functions@, name);
        lemma_scopes_of_drop_last(scopes);
        lemma_m_lookup_fun_agree(scopes.drop_last(), name);
    }
}


/// The model of binding `name` to `value` in the innermost frame.
pub open spec fn m_bind(st: StateModel, name: Seq<char>, value: ValueModel) -> StateModel {
    if st.scopes.len() == 0 {
        st
    } else {
        let last = st.scopes.last();
        StateModel {
            scopes: st.scopes.update(
                st.scopes.len() - 1,
                ScopeModel { variables: last.variables.push((name, value)), functions: last.functions },
            ),
            out: st.out,
        }
    }
}

/// The model of defining `name` as `f` in the innermost frame.
pub open spec fn m_define(st: StateModel, name: Seq<char>, f: FunctionModel) -> StateModel {
    if st.scopes.len() == 0 {
        st
    } else {
        let last = st.scopes.last();
        StateModel {
            scopes: st.scopes.update(
                st.scopes.len() - 1,
                ScopeModel { variables: last.variables, functions: last.functions.push((name, f)) },
            ),
            out: st.out,
        }
    }
}

pub proof fn lemma_var_entries_of_push(s: Seq<(String, LispValue)>, name: String, value: LispValue)
    ensures
        var_entries_of(s.push((name, value))) == var_entries_of(s).push((name@, value@)),
{
    broadcast use group_state_axioms;

    let after = s.push((name, value));
    assert forall|k: int| 0 <= k < after.len() implies var_entries_of(after)[k] == var_entries_of(
        s,
    ).push((name@, value@))[k] by {
        lemma_var_entries_of_index(after, k);
        if k < s.len() {
            lemma_var_entries_of_index(s, k);
            assert(after[k] == s[k]);
        }
    }
    assert(var_entries_of(after) =~= var_entries_of(s).push((name@, value@)));
}

pub proof fn lemma_fun_entries_of_push(s: Seq<(String, Function)>, name: String, f: Function)
    ensures
        fun_entries_of(s.push((name, f))) == fun_entries_of(s).push((name@, f@)),
{
    broadcast use group_state_axioms;

    let after = s.push((name, f));
    assert forall|k: int| 0 <= k < after.len() implies fun_entries_of(after)[k] == fun_entries_of(
        s,
    ).push((name@, f@))[k] by {
        lemma_fun_entries_of_index(after, k);
        if k < s.len() {
            lemma_fun_entries_of_index(s, k);
            assert(after[k] == s[k]);
        }
    }
    assert(fun_entries_of(after) =~= fun_entries_of(s).push((name@, f@)));
}

/// The interpreter state: the stack of scope frames, the root frame first,
/// and the output produced so far.
pub struct State {
    pub scopes: Vec<Scope>,
    pub out: String,
}

impl View for State {
    type V = StateModel;

    open spec fn view(&self) -> StateModel {
        StateModel { scopes: scopes_of(self.scopes@), out: self.out@ }
    }
}

impl State {
    /// There is always a root frame, and no frame binds a name to a
    /// call-shaped value.
    pub open spec fn wf(&self) -> bool {
        self.scopes@.len() >= 1 && no_call_values(self.scopes@)
    }

    /// A fresh state: one empty root frame, no output.
    pub fn new() -> (r: State)
        ensures
            r.wf(),
            r.scopes@.len() >= 1,
            r.scopes@.len() == 1,
            r.scopes@[0].variables@ == Seq::<(String, LispValue)>::empty(),
            r.scopes@[0].functions@ == Seq::<(String, Function)>::empty(),
            r.out@ == Seq::<char>::empty(),
    {
        let root = Scope { variables: Vec::new(), functions: Vec::new() };
        State { scopes: vec![root], out: String::new() }
    }

    /// Enters a child frame with empty maps; the enclosing frames are
    /// untouched.
    pub fn create_child(&mut self)
        requires
            old(self).wf(),
        ensures
            final(self).wf(),
            final(self).scopes@.len() == old(self).scopes@.len() + 1,
            final(self).scopes@.last().variables@ == Seq::<(String, LispValue)>::empty(),
            final(self).scopes@.last().functions@ == Seq::<(String, Function)>::empty(),
            final(self).scopes@.drop_last() == old(self).scopes@,
            final(self).out == old(self).out,
            final(self)@ == (StateModel {
                scopes: old(self)@.scopes.push(
                    ScopeModel { variables: Seq::empty(), functions: Seq::empty() },
                ),
                out: old(self)@.out,
            }),
    {
        let child = Scope { variables: Vec::new(), functions: Vec::new() };
        self.scopes.push(child);
        proof {
            broadcast use group_state_axioms;

            assert(final(self).scopes@.drop_last() =~= old(self).scopes@);
            assert forall|k: int| 0 <= k < self.scopes@.len() implies scopes_of(self.scopes@)[k]
                == old(self)@.scopes.push(
                ScopeModel { variables: Seq::empty(), functions: Seq::empty() },
            )[k] by {
                lemma_scopes_of_index(self.scopes@, k);
                if k < self.scopes@.len() - 1 {
                    lemma_scopes_of_index(old(self).scopes@, k);
                    assert(self.scopes@[k] == old(self).scopes@[k]);
                } else {
                    assert(self.scopes@[k]@ =~= (ScopeModel {
                        variables: Seq::empty(),
                        functions: Seq::empty(),
                    }));
                }
            }
            assert(scopes_of(self.scopes@) =~= old(self)@.scopes.push(
                ScopeModel { variables: Seq::empty(), functions: Seq::empty() },
            ));
            assert forall|f: int, e: int|
                0 <= f < self.scopes@.len() && 0 <= e
                    < self.scopes@[f].variables@.len() implies !((#[trigger] self.scopes@[f].variables@[e]).1 is Function) by {
                if f < self.scopes@.len() - 1 {
                    assert(self.scopes@[f] == old(self).scopes@[f]);
                }
            }
        }
    }

    /// Leaves the innermost frame, discarding every binding made in it.
    pub fn discard_child(&mut self)
        requires
            old(self).wf(),
            old(self).scopes@.len() >= 2,
        ensures
            final(self).wf(),
            final(self).scopes@ == old(self).scopes@.drop_last(),
            final(self).out == old(self).out,
            final(self)@ == (StateModel {
                scopes: old(self)@.scopes.drop_last(),
                out: old(self)@.out,
            }),
    {
        let _ = self.scopes.pop();
        proof {
            assert(final(self).scopes@ =~= old(self).scopes@.drop_last());
            lemma_scopes_of_drop_last(old(self).scopes@);
            assert forall|f: int, e: int|
                0 <= f < self.scopes@.len() && 0 <= e
                    < self.scopes@[f].variables@.len() implies !((#[trigger] self.scopes@[f].variables@[e]).1 is Function) by {
                assert(self.scopes@[f] == old(self).scopes@[f]);
            }
        }
    }

    /// The nearest enclosing binding of `name`, exactly as `spec_lookup_var`
    /// describes; the returned value is a copy of the stored one.
    #[verifier::loop_isolation(false)]
    pub fn get_value(&self, name: &str) -> (r: Option<LispValue>)
        ensures
            match r {
                Some(v) => spec_lookup_var(self.scopes@, name@) == Some(v@),
                None => spec_lookup_var(self.scopes@, name@) is None,
            },
            match r {
                Some(v) => m_lookup_var(self@.scopes, name@) == Some(v@),
                None => m_lookup_var(self@.scopes, name@) is None,
            },
    {
        proof {
            lemma_m_lookup_var_agree(self.scopes@, name@);
        }
        let mut frame = self.scopes.len();
        proof {
            assert(self.scopes@.take(frame as int) =~= self.scopes@);
        }
        while frame > 0
            invariant
                frame <= self.scopes@.len(),
                spec_lookup_var(self.scopes@, name@) == spec_lookup_var(
                    self.scopes@.take(frame as int),
                    name@,
                ),
            decreases frame,
        {
            frame = frame - 1;
            let entries = &self.scopes[frame].variables;
            let mut i = entries.len();
            proof {
                assert(entries@.take(i as int) =~= entries@);
                assert(self.scopes@.take(frame + 1).last() == self.scopes@[frame as int]);
                assert(self.scopes@.take(frame + 1).drop_last() =~= self.scopes@.take(
                    frame as int,
                ));
            }
            while i > 0
                invariant
                    i <= entries@.len(),
                    entries == &self.scopes@[frame as int].variables,
                    frame < self.scopes@.len(),
                    spec_lookup_var_in(entries@, name@) == spec_lookup_var_in(
                        entries@.take(i as int),
                        name@,
                    ),
                decreases i,
            {
                i = i - 1;
                let entry = &entries[i];
                if entry.0.eq(&String::from_str(name)) {
                    proof {
                        assert(entries@.take(i + 1).last() == entries@[i as int]);
                        assert(entries@.take(i + 1).drop_last() =~= entries@.take(i as int));
                    }
                    return Some(entry.1.duplicate());
                }
                proof {
                    assert(entries@.take(i + 1).last() == entries@[i as int]);
                    assert(entries@.take(i + 1).drop_last() =~= entries@.take(i as int));
                }
            }
            proof {
                assert(entries@.take(0int) =~= Seq::<(String, LispValue)>::empty());
                assert(self.scopes@.take(frame + 1).last() == self.scopes@[frame as int]);
                assert(self.scopes@.take(frame + 1).drop_last() =~= self.scopes@.take(
                    frame as int,
                ));
            }
        }
        proof {
            assert(self.scopes@.take(0int) =~= Seq::<Scope>::empty());
        }
        None
    }

    /// The nearest enclosing definition of `name`, exactly as
    /// `spec_lookup_fun` describes; the returned function is a copy of the
    /// stored one.
    #[verifier::loop_isolation(false)]
    pub fn get_function(&self, name: &str) -> (r: Option<Function>)
        ensures
            match r {
                Some(f) => spec_lookup_fun(self.scopes@, name@) == Some(f@),
                None => spec_lookup_fun(self.scopes@, name@) is None,
            },
            match r {
                Some(f) => m_lookup_fun(self@.scopes, name@) == Some(f@),
                None => m_lookup_fun(self@.scopes, name@) is None,
            },
    {
        proof {
            lemma_m_lookup_fun_agree(self.scopes@, name@);
        }
        let mut frame = self.scopes.len();
        proof {
            assert(self.scopes@.take(frame as int) =~= self.scopes@);
        }
        while frame > 0
            invariant
                frame <= self.scopes@.len(),
                spec_lookup_fun(self.scopes@, name@) == spec_lookup_fun(
                    self.scopes@.take(frame as int),
                    name@,
                ),
            decreases frame,
        {
            frame = frame - 1;
            let entries = &self.scopes[frame].functions;
            let mut i = entries.len();
            proof {
                assert(entries@.take(i as int) =~= entries@);
                assert(self.scopes@.take(frame + 1).last() == self.scopes@[frame as int]);
                assert(self.scopes@.take(frame + 1).drop_last() =~= self.scopes@.take(
                    frame as int,
                ));
            }
            while i > 0
                invariant
                    i <= entries@.len(),
                    entries == &self.scopes@[frame as int].functions,
                    frame < self.scopes@.len(),
                    spec_lookup_fun_in(entries@, name@) == spec_lookup_fun_in(
                        entries@.take(i as int),
                        name@,
                    ),
                decreases i,
            {
                i = i - 1;
                let entry = &entries[i];
                if entry.0.eq(&String::from_str(name)) {
                    proof {
                        assert(entries@.take(i + 1).last() == entries@[i as int]);
                        assert(entries@.take(i + 1).drop_last() =~= entries@.take(i as int));
                    }
                    return Some(entry.1.duplicate());
                }
                proof {
                    assert(entries@.take(i + 1).last() == entries@[i as int]);
                    assert(entries@.take(i + 1).drop_last() =~= entries@.take(i as int));
                }
            }
            proof {
                assert(entries@.take(0int) =~= Seq::<(String, Function)>::empty());
                assert(self.scopes@.take(frame + 1).last() == self.scopes@[frame as int]);
                assert(self.scopes@.take(frame + 1).drop_last() =~= self.scopes@.take(
                    frame as int,
                ));
            }
        }
        proof {
            assert(self.scopes@.take(0int) =~= Seq::<Scope>::empty());
        }
        None
    }

    /// Binds `name` in the innermost frame, shadowing any enclosing binding.
    pub fn add_variable(&mut self, name: String, value: LispValue)
        requires
            old(self).wf(),
            !(value is Function),
        ensures
            final(self).wf(),
            final(self).scopes@.len() == old(self).scopes@.len(),
            final(self).scopes@.drop_last() == old(self).scopes@.drop_last(),
            final(self).scopes@.last().variables@ == old(self).scopes@.last().variables@.push(
                (name, value),
            ),
            final(self).scopes@.last().functions == old(self).scopes@.last().functions,
            final(self).out == old(self).out,
            final(self)@ == m_bind(old(self)@, name@, value@),
    {
        let ghost gname = name@;
        let ghost gvalue = value@;
        let mut frame = self.scopes.pop().unwrap();
        frame.variables.push((name, value));
        self.scopes.push(frame);
        proof {
            broadcast use group_state_axioms;

            assert(final(self).scopes@.drop_last() =~= old(self).scopes@.drop_last());
            assert forall|f: int, e: int|
                0 <= f < self.scopes@.len() && 0 <= e
                    < self.scopes@[f].variables@.len() implies !((#[trigger] self.scopes@[f].variables@[e]).1 is Function) by {
                if f < self.scopes@.len() - 1 {
                    assert(self.scopes@[f] == old(self).scopes@[f]);
                } else {
                    if e < self.scopes@[f].variables@.len() - 1 {
                        assert(self.scopes@[f].variables@[e] == old(self).scopes@[f].variables@[e]);
                    }
                }
            }
            lemma_var_entries_of_push(old(self).scopes@.last().variables@, name, value);
            assert forall|k: int| 0 <= k < self.scopes@.len() implies scopes_of(self.scopes@)[k]
                == m_bind(old(self)@, gname, gvalue).scopes[k] by {
                lemma_scopes_of_index(self.scopes@, k);
                lemma_scopes_of_index(old(self).scopes@, k);
                if k < self.scopes@.len() - 1 {
                    assert(self.scopes@[k] == self.scopes@.drop_last()[k]);
                    assert(old(self).scopes@[k] == old(self).scopes@.drop_last()[k]);
                } else {
                    assert(self.scopes@[k] == self.scopes@.last());
                    assert(old(self).scopes@[k] == old(self).scopes@.last());
                    assert(self.scopes@.last()@ =~= (ScopeModel {
                        variables: old(self).scopes@.last()@.variables.push((gname, gvalue)),
                        functions: old(self).scopes@.last()@.functions,
                    }));
                }
            }
            assert(scopes_of(self.scopes@) =~= m_bind(old(self)@, gname, gvalue).scopes);
        }
    }

    /// Defines `name` in the innermost frame, shadowing any enclosing
    /// definition.
    pub fn add_function(&mut self, name: String, function: Function)
        requires
            old(self).wf(),
        ensures
            final(self).wf(),
            final(self).scopes@.len() == old(self).scopes@.len(),
            final(self).scopes@.drop_last() == old(self).scopes@.drop_last(),
            final(self).scopes@.last().functions@ == old(self).scopes@.last().functions@.push(
                (name, function),
            ),
            final(self).scopes@.last().variables == old(self).scopes@.last().variables,
            final(self).out == old(self).out,
            final(self)@ == m_define(old(self)@, name@, function@),
    {
        let ghost gname = name@;
        let ghost gfun = function@;
        let mut frame = self.scopes.pop().unwrap();
        frame.functions.push((name, function));
        self.scopes.push(frame);
        proof {
            broadcast use group_state_axioms;

            assert(final(self).scopes@.drop_last() =~= old(self).scopes@.drop_last());
            assert forall|f: int, e: int|
                0 <= f < self.scopes@.len() && 0 <= e
                    < self.scopes@[f].variables@.len() implies !((#[trigger] self.scopes@[f].variables@[e]).1 is Function) by {
                if f < self.scopes@.len() - 1 {
                    assert(self.scopes@[f] == old(self).scopes@[f]);
                } else {
                    assert(self.scopes@[f].variables == old(self).scopes@[f].variables);
                }
            }
            lemma_fun_entries_of_push(old(self).scopes@.last().functions@, name, function);
            assert forall|k: int| 0 <= k < self.scopes@.len() implies scopes_of(self.scopes@)[k]
                == m_define(old(self)@, gname, gfun).scopes[k] by {
                lemma_scopes_of_index(self.scopes@, k);
                lemma_scopes_of_index(old(self).scopes@, k);
                if k < self.scopes@.len() - 1 {
                    assert(self.scopes@[k] == self.scopes@.drop_last()[k]);
                    assert(old(self).scopes@[k] == old(self).scopes@.drop_last()[k]);
                } else {
                    assert(self.scopes@[k] == self.scopes@.last());
                    assert(old(self).scopes@[k] == old(self).scopes@.last());
                    assert(self.scopes@.last()@ =~= (ScopeModel {
                        variables: old(self).scopes@.last()@.variables,
                        functions: old(self).scopes@.last()@.functions.push((gname, gfun)),
                    }));
                }
            }
            assert(scopes_of(self.scopes@) =~= m_define(old(self)@, gname, gfun).scopes);
        }
    }
}

} // verus!
