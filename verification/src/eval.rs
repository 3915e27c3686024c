//! The tree-walking evaluator: argument preparation, builtin dispatch,
//! declaration forms, and user-defined function invocation.
//!
//! A failed lookup, an arity mismatch, a malformed call shape, a failed type
//! unification, overflow and division by zero all resolve to "no result", a
//! silent no-op. Recursion into user-defined functions is bounded by an
//! explicit depth budget, `MAX_CALL_DEPTH`: a call at exhausted depth yields
//! no result instead of overflowing the host stack.

use vstd::prelude::*;

use crate::basic::{
    perform_arith_float, perform_equals, perform_equals_bool, perform_equals_float,
    perform_equals_str, perform_grater_then, perform_grater_then_float, perform_less_then,
    perform_less_then_float, perform_not_equals, perform_not_equals_bool,
    perform_not_equals_float, perform_not_equals_str, perform_print, perform_print_string,
    spec_any, spec_chain_eq, spec_chain_eq_bool, spec_chain_eq_text, spec_chain_gt,
    spec_chain_lt, spec_distinct, spec_distinct_bool, spec_distinct_text, spec_float_arith,
    spec_float_distinct, spec_float_eq, spec_float_gt, spec_float_lt, spec_int_arith,
    spec_texts_spaced, spec_texts_unescaped, ArithOp,
};
use crate::coerce::{
    convert_to_boolean_array, convert_to_float_array, convert_to_int_array,
    convert_to_string_array, get_args_unified_type, spec_bools_of, spec_floats_of,
    spec_ints_of, spec_strings_of, spec_unify, Type,
};
use crate::numbers::int_text;
use crate::parser::{spec_parse, ParserError};
use crate::state::{
    lemma_lookup_var_literal, lemma_m_lookup_var_agree, m_bind, m_define, m_lookup_fun,
    m_lookup_var, names_of, spec_lookup_fun, spec_lookup_var, Function, FunctionModel, Scope,
    ScopeModel, State, StateModel,
};
use crate::value::{
    lemma_models_size_elem, lemma_view_call, lemma_views_of_concat, model_size,
    lemma_models_size_concat, models_size, views_of, LispValue, ValueModel,
};

verus! {

broadcast use crate::value::group_value_axioms;

/// The most calls into user-defined functions that may be active at once: the
/// evaluator's explicit recursion-depth guard.
pub const MAX_CALL_DEPTH: u64 = 256;

/// How one evaluation step may change the interpreter state: the frame stack
/// keeps its depth, every frame but the innermost is untouched, and output
/// only grows.
pub open spec fn evolves(before: State, after: State) -> bool {
    &&& after.scopes@.len() == before.scopes@.len()
    &&& forall|i: int|
        0 <= i < before.scopes@.len() - 1 ==> #[trigger] after.scopes@[i] == before.scopes@[i]
    &&& before.out@.is_prefix_of(after.out@)
}

pub proof fn lemma_evolves_frame_op(a: State, b: State)
    requires
        a.scopes@.len() >= 1,
        b.scopes@.len() == a.scopes@.len(),
        b.scopes@.drop_last() == a.scopes@.drop_last(),
        a.out@.is_prefix_of(b.out@) || a.out == b.out,
    ensures
        evolves(a, b),
{
    assert forall|f: int| 0 <= f < a.scopes@.len() - 1 implies b.scopes@[f] == a.scopes@[f] by {
        assert(a.scopes@.drop_last() =~= a.scopes@.subrange(0, a.scopes@.len() - 1));
        assert(b.scopes@.drop_last() =~= b.scopes@.subrange(0, b.scopes@.len() - 1));
        assert(b.scopes@.drop_last()[f] == a.scopes@.drop_last()[f]);
        assert(a.scopes@.drop_last()[f] == a.scopes@[f]);
        assert(b.scopes@.drop_last()[f] == b.scopes@[f]);
    }
    if a.out == b.out {
        assert(a.out@.is_prefix_of(b.out@)) by {
            assert(a.out@ =~= b.out@.subrange(0, a.out@.len() as int));
        }
    }
}

pub proof fn lemma_evolves_trans(a: State, b: State, c: State)
    requires
        evolves(a, b),
        evolves(b, c),
    ensures
        evolves(a, c),
{
    assert(a.out@.is_prefix_of(c.out@)) by {
        assert(a.out@ =~= c.out@.subrange(0, a.out@.len() as int));
    }
}

/// A value that needs no preparation: neither a name to substitute nor a call
/// to evaluate.
pub open spec fn is_literal(m: ValueModel) -> bool {
    !(m is Name) && !(m is Call)
}

pub open spec fn all_literals(s: Seq<ValueModel>) -> bool {
    forall|i: int| 0 <= i < s.len() ==> is_literal(#[trigger] s[i])
}

/// Total size of a value list's trees.
pub open spec fn vals_size(s: Seq<LispValue>) -> nat {
    models_size(views_of(s))
}

proof fn lemma_vals_size_push(s: Seq<LispValue>, x: LispValue)
    ensures
        vals_size(s.push(x)) == vals_size(s) + model_size(x@),
{
    broadcast use crate::value::lemma_views_of_len, crate::value::lemma_views_of_index;

    assert(s.push(x) =~= s + seq![x]);
    lemma_views_of_concat(s, seq![x]);
    lemma_models_size_concat(views_of(s), views_of(seq![x]));
    assert(views_of(seq![x])[0] == x@);
    assert(views_of(seq![x]).drop_first() =~= Seq::<ValueModel>::empty());
    assert(models_size(Seq::<ValueModel>::empty()) == 0);
    assert(models_size(views_of(seq![x])) == model_size(x@));
}

/// What argument preparation does to one value: a bound name is replaced by
/// its value, anything else stays.
pub open spec fn spec_replaced(scopes: Seq<Scope>, before: LispValue, after: LispValue) -> bool {
    match before {
        LispValue::Name(n) => match spec_lookup_var(scopes, n@) {
            Some(m) => after@ == m,
            None => after == before,
        },
        _ => after == before,
    }
}

/// Replaces every name argument bound in `state` by a copy of its value, in
/// one left-to-right pass, exactly as `spec_replaced` describes; an unbound
/// name and every other value stay as they are.
#[verifier::loop_isolation(false)]
pub fn replace_variables_with_values(state: &State, args: &mut Vec<LispValue>)
    requires
        state.wf(),
    ensures
        final(args)@.len() == old(args)@.len(),
        forall|i: int|
            0 <= i < old(args)@.len() ==> spec_replaced(
                state.scopes@,
                old(args)@[i],
                #[trigger] final(args)@[i],
            ),
        views_of(final(args)@) == m_subst_all(state@.scopes, views_of(old(args)@)),
{
    let n = args.len();
    let mut i: usize = 0;
    while i < n
        invariant
            i <= n,
            n == args@.len(),
            args@.len() == old(args)@.len(),
            forall|k: int| i <= k < n ==> #[trigger] args@[k] == old(args)@[k],
            forall|k: int|
                0 <= k < i ==> spec_replaced(state.scopes@, old(args)@[k], #[trigger] args@[k]),
        decreases n - i,
    {
        let mut replacement: Option<LispValue> = None;
        match &args[i] {
            LispValue::Name(name) => {
                replacement = state.get_value(name.as_str());
            },
            _ => {},
        }
        match replacement {
            Some(v) => {
                let ghost before = args@;
                let _ = args.remove(i);
                args.insert(i, v);
                proof {
                    assert(args@ =~= before.update(i as int, args@[i as int]));
                }
            },
            None => {},
        }
        i = i + 1;
    }
    proof {
        broadcast use
            crate::value::lemma_views_of_len,
            crate::value::lemma_views_of_index,
            lemma_m_subst_all_len,
            lemma_m_subst_all_index,
        ;

        let before = views_of(old(args)@);
        let after = views_of(args@);
        assert forall|k: int| 0 <= k < before.len() implies after[k] == m_subst_all(
            state@.scopes,
            before,
        )[k] by {
            crate::value::lemma_views_of_index(args@, k);
            crate::value::lemma_views_of_index(old(args)@, k);
            lemma_m_subst_all_index(state@.scopes, before, k);
            match old(args)@[k] {
                LispValue::Name(nm) => {
                    crate::state::lemma_m_lookup_var_agree(state.scopes@, nm@);
                    lemma_lookup_var_literal(state.scopes@, nm@);
                },
                _ => {},
            }
        }
        assert(after =~= m_subst_all(state@.scopes, before));
    }
}

/// Evaluates every call-shaped argument in place, in one left-to-right pass:
/// a call whose head is a name is run, and the argument is replaced by the
/// returned value or removed from the list if the call produced none; a
/// malformed call (empty, or headed by a non-name) is removed. Arguments
/// that are not calls keep their relative order and are untouched; a list
/// without calls is left exactly as it is, and the state untouched.
#[verifier::loop_isolation(false)]
#[verifier::rlimit(100)]
pub fn execute_functions(state: &mut State, parent_arguments: &mut Vec<LispValue>, fuel: u64)
    requires
        old(state).wf(),
    ensures
        final(state).wf(),
        evolves(*old(state), *final(state)),
        vals_size(final(parent_arguments)@) <= vals_size(old(parent_arguments)@),
        forall|i: int|
            0 <= i < final(parent_arguments)@.len() ==> !((#[trigger] final(parent_arguments)@[i]) is Function),
        (forall|i: int|
            0 <= i < old(parent_arguments)@.len() ==> !((#[trigger] old(parent_arguments)@[i])
                is Function)) ==> (final(parent_arguments)@ == old(parent_arguments)@ && *final(state) == *old(state)),
        (final(state)@, views_of(final(parent_arguments)@)) == m_exec_args(
            old(state)@,
            views_of(old(parent_arguments)@),
            fuel,
        ),
    decreases fuel, models_size(views_of(parent_arguments@)), 0int,
{
    let ghost orig = parent_arguments@;
    let ghost no_calls = forall|i: int| 0 <= i < orig.len() ==> !((#[trigger] orig[i]) is Function);
    let mut i: usize = 0;
    let ghost mut j: int = 0;
    proof {
        broadcast use crate::value::lemma_views_of_len, crate::value::lemma_views_of_index;

        assert(parent_arguments@.skip(0int) =~= parent_arguments@);
        assert(parent_arguments@.take(0int) =~= Seq::<LispValue>::empty());
        let pr = m_exec_args(state@, views_of(parent_arguments@), fuel);
        assert(views_of(Seq::<LispValue>::empty()) + pr.1 =~= pr.1);
    }
    while i < parent_arguments.len()
        invariant
            old(state).wf(),
            state.wf(),
            evolves(*old(state), *state),
            orig == old(parent_arguments)@,
            i <= parent_arguments@.len(),
            i <= j <= orig.len(),
            parent_arguments@.skip(i as int) == orig.skip(j),
            vals_size(parent_arguments@.take(i as int)) <= vals_size(orig.take(j)),
            forall|k: int| 0 <= k < i ==> !((#[trigger] parent_arguments@[k]) is Function),
            no_calls == (forall|k: int|
                0 <= k < orig.len() ==> !((#[trigger] orig[k]) is Function)),
            no_calls ==> (parent_arguments@ == orig && *state == *old(state) && j == i),
            m_exec_args(old(state)@, views_of(orig), fuel) == ({
                let (mf, rf) = m_exec_args(
                    state@,
                    views_of(parent_arguments@.skip(i as int)),
                    fuel,
                );
                (mf, views_of(parent_arguments@.take(i as int)) + rf)
            }),
        decreases orig.len() - j,
    {
        proof {
            assert(parent_arguments@[i as int] == parent_arguments@.skip(i as int)[0]);
            assert(orig.skip(j)[0] == orig[j]);
        }
        let is_function = match &parent_arguments[i] {
            LispValue::Function(_) => true,
            _ => false,
        };
        if is_function {
            let ghost before = parent_arguments@;
            let ghost suf = before.skip(i as int);
            let value = parent_arguments.remove(i);
            proof {
                broadcast use crate::value::lemma_views_of_len, crate::value::lemma_views_of_index;

                assert(value == orig[j]);
                assert(parent_arguments@.skip(i as int) =~= before.skip(i + 1));
                assert(before.skip(i + 1) =~= orig.skip(j).drop_first());
                assert(orig.skip(j).drop_first() =~= orig.skip(j + 1));
                assert(parent_arguments@.skip(i as int) =~= orig.skip(j + 1));
                assert(parent_arguments@.take(i as int) =~= before.take(i as int));
                assert(orig.take(j + 1) =~= orig.take(j).push(orig[j]));
                lemma_vals_size_push(orig.take(j), orig[j]);
                crate::value::lemma_model_size_pos(orig[j]@);
                assert(suf.len() > 0);
                assert(suf[0] == value);
                crate::value::lemma_views_of_index(suf, 0int);
                crate::value::lemma_views_of_drop_first(suf);
                assert(suf.drop_first() =~= parent_arguments@.skip(i as int));
                lemma_view_call(&value);
            }
            match value {
                LispValue::Function(mut call_args) => {
                    let ghost inner0 = call_args@;
                    if call_args.len() > 0 {
                        let head = call_args.remove(0);
                        proof {
                            broadcast use
                                crate::value::lemma_views_of_len,
                                crate::value::lemma_views_of_index,
                            ;

                            assert(head == inner0[0]);
                            assert(call_args@ =~= inner0.drop_first());
                            crate::value::lemma_views_of_drop_first(inner0);
                            crate::value::lemma_views_of_index(inner0, 0int);
                        }
                        match head {
                            LispValue::Name(name) => {
                                proof {
                                    crate::value::lemma_views_of_len(orig);
                                    crate::value::lemma_views_of_index(orig, j);
                                    lemma_models_size_elem(views_of(orig), j);
                                    lemma_views_drop_first_size(orig[j], call_args@);
                                    assert(models_size(views_of(call_args@)) < models_size(
                                        views_of(orig),
                                    ));
                                }
                                let ghost mid = *state;
                                let result = execute_function(
                                    state,
                                    name.as_str(),
                                    call_args,
                                    fuel,
                                );
                                proof {
                                    lemma_evolves_trans(*old(state), mid, *state);
                                    broadcast use
                                        crate::value::lemma_views_of_len,
                                        crate::value::lemma_views_of_index,
                                    ;

                                    // the specification takes the same step
                                    assert(views_of(suf)[0] == value@);
                                    assert(value@->Call_0 == views_of(inner0));
                                    assert(views_of(inner0)[0] == ValueModel::Name(name@));
                                    assert(views_of(inner0).drop_first() == views_of(
                                        inner0.drop_first(),
                                    ));
                                    assert(m_eval_call(
                                        mid@,
                                        name@,
                                        views_of(inner0.drop_first()),
                                        fuel,
                                    ) == (state@, m_opt(result)));
                                }
                                match result {
                                    Some(returned_value) => {
                                        proof {
                                            if returned_value is Function {
                                                lemma_view_call(&returned_value);
                                            }
                                            assert(model_size(returned_value@) == 1);
                                        }
                                        let ghost held = parent_arguments@;
                                        parent_arguments.insert(i, returned_value);
                                        proof {
                                            broadcast use
                                                crate::value::lemma_views_of_len,
                                                crate::value::lemma_views_of_index,
                                            ;

                                            assert(parent_arguments@.skip(i + 1) =~= orig.skip(
                                                j + 1,
                                            ));
                                            assert(parent_arguments@.take(i + 1) =~= held.take(
                                                i as int,
                                            ).push(parent_arguments@[i as int]));
                                            lemma_vals_size_push(
                                                held.take(i as int),
                                                parent_arguments@[i as int],
                                            );
                                            let pr = m_exec_args(
                                                state@,
                                                views_of(orig.skip(j + 1)),
                                                fuel,
                                            );
                                            assert(views_of(suf).drop_first() == views_of(
                                                orig.skip(j + 1),
                                            ));
                                            assert(m_exec_args(mid@, views_of(suf), fuel) == (
                                                pr.0,
                                                seq![returned_value@] + pr.1,
                                            ));
                                            crate::value::lemma_views_of_push(
                                                held.take(i as int),
                                                returned_value,
                                            );
                                            assert(views_of(parent_arguments@.take(i + 1))
                                                == views_of(held.take(i as int)).push(
                                                returned_value@,
                                            ));
                                            assert(views_of(held.take(i as int)).push(
                                                returned_value@,
                                            ) + pr.1 =~= views_of(held.take(i as int)) + (seq![
                                                returned_value@,
                                            ] + pr.1));
                                        }
                                        i = i + 1;
                                    },
                                    None => {
                                        proof {
                                            let pr = m_exec_args(
                                                state@,
                                                views_of(orig.skip(j + 1)),
                                                fuel,
                                            );
                                            assert(views_of(suf).drop_first() == views_of(
                                                orig.skip(j + 1),
                                            ));
                                            assert(m_exec_args(mid@, views_of(suf), fuel) == (
                                                pr.0,
                                                pr.1,
                                            ));
                                        }
                                    },
                                }
                            },
                            _ => {
                                proof {
                                    assert(!(views_of(inner0)[0] is Name)) by {
                                        match head {
                                            LispValue::Name(_) => {
                                                assert(false);
                                            },
                                            _ => {},
                                        }
                                    }
                                    assert(views_of(suf)[0] == value@);
                                    assert(value@->Call_0 == views_of(inner0));
                                    assert(m_exec_args(state@, views_of(suf), fuel)
                                        == m_exec_args(
                                        state@,
                                        views_of(suf).drop_first(),
                                        fuel,
                                    ));
                                    assert(views_of(suf).drop_first() == views_of(
                                        orig.skip(j + 1),
                                    ));
                                }
                            },
                        }
                    } else {
                        proof {
                            broadcast use crate::value::lemma_views_of_len;

                            assert(views_of(suf)[0] == value@);
                            assert(value@->Call_0 == views_of(inner0));
                            assert(views_of(inner0).len() == 0);
                            assert(m_exec_args(state@, views_of(suf), fuel) == m_exec_args(
                                state@,
                                views_of(suf).drop_first(),
                                fuel,
                            ));
                            assert(views_of(suf).drop_first() == views_of(orig.skip(j + 1)));
                        }
                    }
                },
                _ => {},
            }
            proof {
                j = j + 1;
            }
        } else {
            proof {
                broadcast use crate::value::lemma_views_of_len, crate::value::lemma_views_of_index;

                assert(parent_arguments@.take(i + 1) =~= parent_arguments@.take(i as int).push(
                    parent_arguments@[i as int],
                ));
                assert(orig.take(j + 1) =~= orig.take(j).push(orig[j]));
                lemma_vals_size_push(parent_arguments@.take(i as int), parent_arguments@[i as int]);
                lemma_vals_size_push(orig.take(j), orig[j]);
                let suf = parent_arguments@.skip(i as int);
                let e = parent_arguments@[i as int];
                assert(suf.len() > 0);
                assert(suf[0] == e);
                crate::value::lemma_views_of_index(suf, 0int);
                crate::value::lemma_views_of_drop_first(suf);
                assert(!(e@ is Call)) by {
                    match e {
                        LispValue::Str(_) => {},
                        LispValue::Boolean(_) => {},
                        LispValue::Int(_) => {},
                        LispValue::Float(_) => {},
                        LispValue::Name(_) => {},
                        LispValue::Function(_) => {
                            assert(false);
                        },
                    }
                }
                assert(suf.drop_first() =~= parent_arguments@.skip(i + 1));
                let pr = m_exec_args(state@, views_of(suf).drop_first(), fuel);
                assert(m_exec_args(state@, views_of(suf), fuel) == (pr.0, seq![e@] + pr.1));
                assert(views_of(suf).drop_first() == views_of(parent_arguments@.skip(i + 1)));
                crate::value::lemma_views_of_push(parent_arguments@.take(i as int), e);
                assert(views_of(parent_arguments@.take(i + 1)) == views_of(
                    parent_arguments@.take(i as int),
                ).push(e@));
                assert(views_of(parent_arguments@.take(i as int)).push(e@) + pr.1
                    =~= views_of(parent_arguments@.take(i as int)) + (seq![e@] + pr.1));
            }
            i = i + 1;
            proof {
                j = j + 1;
                assert(parent_arguments@.skip(i as int) =~= parent_arguments@.skip(i - 1).drop_first());
                assert(orig.skip(j) =~= orig.skip(j - 1).drop_first());
                assert(parent_arguments@.skip(i as int) =~= orig.skip(j));
            }
        }
    }
    proof {
        broadcast use crate::value::lemma_views_of_len;

        assert(parent_arguments@.take(i as int) =~= parent_arguments@);
        assert(orig.skip(j) =~= Seq::<LispValue>::empty());
        assert(j == orig.len());
        assert(orig.take(j) =~= orig);
        assert(views_of(parent_arguments@.skip(i as int)).len() == 0);
        assert(m_exec_args(state@, views_of(parent_arguments@.skip(i as int)), fuel) == (
            state@,
            Seq::<ValueModel>::empty(),
        ));
        assert(views_of(parent_arguments@) + Seq::<ValueModel>::empty() =~= views_of(
            parent_arguments@,
        ));
    }
}

proof fn lemma_views_drop_first_size(v: LispValue, tail: Seq<LispValue>)
    requires
        v is Function,
        tail == v->Function_0@.drop_first(),
        v->Function_0@.len() > 0,
    ensures
        models_size(views_of(tail)) < model_size(v@),
{
    broadcast use crate::value::lemma_views_of_len, crate::value::lemma_views_of_index;

    crate::value::lemma_view_call(&v);
    let items = views_of(v->Function_0@);
    assert(views_of(tail) =~= items.drop_first()) by {
        assert forall|k: int| 0 <= k < tail.len() implies views_of(tail)[k] == items.drop_first()[k] by {
            crate::value::lemma_views_of_index(tail, k);
            crate::value::lemma_views_of_index(v->Function_0@, k + 1);
        }
    }
    assert(model_size(v@) == 1 + models_size(items));
    crate::value::lemma_models_size_drop_first(items);
}

/// Prepares an argument list for an operation: substitutes bound names, then
/// evaluates nested calls, exactly as `replace_variables_with_values` and
/// `execute_functions` describe. A list of plain literals is left exactly as
/// it was, and the state untouched.
pub fn prepare_execution(state: &mut State, args: &mut Vec<LispValue>, fuel: u64)
    requires
        old(state).wf(),
    ensures
        final(state).wf(),
        evolves(*old(state), *final(state)),
        vals_size(final(args)@) <= vals_size(old(args)@),
        forall|i: int|
            0 <= i < final(args)@.len() ==> !((#[trigger] final(args)@[i]) is Function),
        all_literals(views_of(old(args)@)) ==> (final(args)@ == old(args)@ && *final(state)
            == *old(state)),
        (final(state)@, views_of(final(args)@)) == m_prepare(
            old(state)@,
            views_of(old(args)@),
            fuel,
        ),
    decreases fuel, models_size(views_of(args@)), 1int,
{
    proof {
        crate::value::lemma_views_of_len(args@);
        if all_literals(views_of(args@)) {
            assert forall|i: int| 0 <= i < args@.len() implies !((#[trigger] args@[i]) is Name)
                && !(args@[i] is Function) by {
                crate::value::lemma_views_of_index(args@, i);
                if args@[i] is Name || args@[i] is Function {
                    if args@[i] is Function {
                        lemma_view_call(&args@[i]);
                    }
                    assert(!is_literal(views_of(args@)[i]));
                }
            }
        }
    }
    replace_variables_with_values(state, args);
    proof {
        if all_literals(views_of(old(args)@)) {
            assert(args@ =~= old(args)@);
        }
        crate::value::lemma_views_of_len(args@);
        crate::value::lemma_views_of_len(old(args)@);
        assert forall|k: int| 0 <= k < args@.len() implies model_size(
            #[trigger] views_of(args@)[k],
        ) <= model_size(views_of(old(args)@)[k]) by {
            crate::value::lemma_views_of_index(args@, k);
            crate::value::lemma_views_of_index(old(args)@, k);
            crate::value::lemma_model_size_pos(views_of(old(args)@)[k]);
            match old(args)@[k] {
                LispValue::Name(nm) => {
                    lemma_lookup_var_literal(state.scopes@, nm@);
                    assert(model_size(args@[k]@) <= model_size(old(args)@[k]@));
                },
                _ => {},
            }
        }
        crate::value::lemma_models_size_mono(views_of(args@), views_of(old(args)@));
        if all_literals(views_of(old(args)@)) {
            assert forall|i: int| 0 <= i < args@.len() implies !((#[trigger] args@[i])
                is Function) by {
                crate::value::lemma_views_of_index(old(args)@, i);
            }
        }
    }
    let ghost mid = *state;
    execute_functions(state, args, fuel);
    proof {
        lemma_evolves_trans(*old(state), *state, *state);
        assert(mid@ == old(state)@);
        assert((final(state)@, views_of(final(args)@)) == m_prepare(
            old(state)@,
            views_of(old(args)@),
            fuel,
        ));
    }
}

/// The decimal texts of a list of integers.
pub open spec fn spec_int_texts(s: Seq<i64>) -> Seq<Seq<char>>
    decreases s.len(),
{
    if s.len() == 0 {
        Seq::empty()
    } else {
        seq![int_text(s[0] as int)] + spec_int_texts(s.drop_first())
    }
}

/// The texts of a list of booleans.
pub open spec fn spec_bool_texts(s: Seq<bool>) -> Seq<Seq<char>>
    decreases s.len(),
{
    if s.len() == 0 {
        Seq::empty()
    } else {
        (if s[0] {
            seq!["true"@]
        } else {
            seq!["false"@]
        }) + spec_bool_texts(s.drop_first())
    }
}

proof fn lemma_int_texts_snoc(s: Seq<i64>, i: int)
    requires
        0 <= i < s.len(),
    ensures
        spec_int_texts(s.take(i + 1)) == spec_int_texts(s.take(i)).push(int_text(s[i] as int)),
    decreases i,
{
    if i == 0 {
        assert(s.take(1).drop_first() =~= Seq::<i64>::empty());
        assert(s.take(0int) =~= Seq::<i64>::empty());
        assert(s.take(1)[0] == s[0]);
        assert(spec_int_texts(s.take(1)) =~= spec_int_texts(s.take(0int)).push(
            int_text(s[0] as int),
        ));
    } else {
        assert(s.take(i + 1).drop_first() =~= s.drop_first().take(i));
        assert(s.take(i).drop_first() =~= s.drop_first().take(i - 1));
        assert(s.take(i + 1)[0] == s[0]);
        assert(s.take(i)[0] == s[0]);
        lemma_int_texts_snoc(s.drop_first(), i - 1);
        assert(s.drop_first()[i - 1] == s[i]);
        assert(spec_int_texts(s.take(i + 1)) =~= spec_int_texts(s.take(i)).push(
            int_text(s[i] as int),
        ));
    }
}

proof fn lemma_bool_texts_snoc(s: Seq<bool>, i: int)
    requires
        0 <= i < s.len(),
    ensures
        spec_bool_texts(s.take(i + 1)) == spec_bool_texts(s.take(i)).push(
            if s[i] {
                "true"@
            } else {
                "false"@
            },
        ),
    decreases i,
{
    if i == 0 {
        assert(s.take(1).drop_first() =~= Seq::<bool>::empty());
        assert(s.take(0int) =~= Seq::<bool>::empty());
        assert(s.take(1)[0] == s[0]);
        assert(spec_bool_texts(s.take(1)) =~= spec_bool_texts(s.take(0int)).push(
            if s[0] {
                "true"@
            } else {
                "false"@
            },
        ));
    } else {
        assert(s.take(i + 1).drop_first() =~= s.drop_first().take(i));
        assert(s.take(i).drop_first() =~= s.drop_first().take(i - 1));
        assert(s.take(i + 1)[0] == s[0]);
        assert(s.take(i)[0] == s[0]);
        lemma_bool_texts_snoc(s.drop_first(), i - 1);
        assert(s.drop_first()[i - 1] == s[i]);
        assert(spec_bool_texts(s.take(i + 1)) =~= spec_bool_texts(s.take(i)).push(
            if s[i] {
                "true"@
            } else {
                "false"@
            },
        ));
    }
}

/// Formats each integer as decimal text, exactly as `spec_int_texts`
/// describes.
#[verifier::loop_isolation(false)]
fn int_texts(numbers: &Vec<i64>) -> (r: Vec<String>)
    ensures
        names_of(r@) == spec_int_texts(numbers@),
{
    let mut r: Vec<String> = Vec::new();
    let mut i: usize = 0;
    proof {
        assert(numbers@.take(0int) =~= Seq::<i64>::empty());
        assert(names_of(r@) =~= Seq::<Seq<char>>::empty());
    }
    while i < numbers.len()
        invariant
            i <= numbers@.len(),
            names_of(r@) == spec_int_texts(numbers@.take(i as int)),
        decreases numbers@.len() - i,
    {
        proof {
            lemma_int_texts_snoc(numbers@, i as int);
        }
        let text = crate::numbers::i64_to_string(numbers[i]);
        proof {
            crate::state::lemma_names_of_push(r@, text);
        }
        r.push(text);
        i = i + 1;
    }
    proof {
        assert(numbers@.take(numbers@.len() as int) =~= numbers@);
    }
    r
}

/// Formats each boolean as text, exactly as `spec_bool_texts` describes.
#[verifier::loop_isolation(false)]
fn bool_texts(values: &Vec<bool>) -> (r: Vec<String>)
    ensures
        names_of(r@) == spec_bool_texts(values@),
{
    let mut r: Vec<String> = Vec::new();
    let mut i: usize = 0;
    proof {
        assert(values@.take(0int) =~= Seq::<bool>::empty());
        assert(names_of(r@) =~= Seq::<Seq<char>>::empty());
    }
    while i < values.len()
        invariant
            i <= values@.len(),
            names_of(r@) == spec_bool_texts(values@.take(i as int)),
        decreases values@.len() - i,
    {
        proof {
            lemma_bool_texts_snoc(values@, i as int);
        }
        let text = if values[i] {
            String::from_str("true")
        } else {
            String::from_str("false")
        };
        proof {
            crate::state::lemma_names_of_push(r@, text);
        }
        r.push(text);
        i = i + 1;
    }
    proof {
        assert(values@.take(values@.len() as int) =~= values@);
    }
    r
}

/// What an arithmetic operation yields on a prepared argument list: a fold
/// over the coerced integers or decimal texts, or nothing when the unified
/// type is neither.
pub open spec fn spec_apply_arith(op: ArithOp, models: Seq<ValueModel>) -> Option<ValueModel> {
    match spec_unify(models) {
        Type::Int => match spec_int_arith(op, spec_ints_of(models)) {
            Some(n) => Some(ValueModel::Int(n as int)),
            None => None,
        },
        Type::Float => match spec_float_arith(op, spec_floats_of(models)) {
            Some(t) => Some(ValueModel::Float(t)),
            None => None,
        },
        _ => None,
    }
}

/// What `=` yields on a prepared argument list.
pub open spec fn spec_apply_equals(models: Seq<ValueModel>) -> Option<ValueModel> {
    match spec_unify(models) {
        Type::Int => Some(ValueModel::Boolean(spec_chain_eq(spec_ints_of(models)))),
        Type::Float => match spec_float_eq(spec_floats_of(models)) {
            Some(b) => Some(ValueModel::Boolean(b)),
            None => None,
        },
        Type::Boolean => Some(ValueModel::Boolean(spec_chain_eq_bool(spec_bools_of(models)))),
        Type::Str => Some(ValueModel::Boolean(spec_chain_eq_text(spec_strings_of(models)))),
        Type::Unknown => None,
    }
}

/// What `/=` yields on a prepared argument list: pairwise distinctness.
pub open spec fn spec_apply_not_equals(models: Seq<ValueModel>) -> Option<ValueModel> {
    match spec_unify(models) {
        Type::Int => Some(ValueModel::Boolean(spec_distinct(spec_ints_of(models)))),
        Type::Float => match spec_float_distinct(spec_floats_of(models)) {
            Some(b) => Some(ValueModel::Boolean(b)),
            None => None,
        },
        Type::Boolean => Some(ValueModel::Boolean(spec_distinct_bool(spec_bools_of(models)))),
        Type::Str => Some(ValueModel::Boolean(spec_distinct_text(spec_strings_of(models)))),
        Type::Unknown => None,
    }
}

/// What `>` yields on a prepared argument list: a strictly decreasing chain;
/// only numbers compare.
pub open spec fn spec_apply_grater(models: Seq<ValueModel>) -> Option<ValueModel> {
    match spec_unify(models) {
        Type::Int => Some(ValueModel::Boolean(spec_chain_gt(spec_ints_of(models)))),
        Type::Float => match spec_float_gt(spec_floats_of(models)) {
            Some(b) => Some(ValueModel::Boolean(b)),
            None => None,
        },
        _ => None,
    }
}

/// What `<` yields on a prepared argument list: a strictly increasing chain.
pub open spec fn spec_apply_less(models: Seq<ValueModel>) -> Option<ValueModel> {
    match spec_unify(models) {
        Type::Int => Some(ValueModel::Boolean(spec_chain_lt(spec_ints_of(models)))),
        Type::Float => match spec_float_lt(spec_floats_of(models)) {
            Some(b) => Some(ValueModel::Boolean(b)),
            None => None,
        },
        _ => None,
    }
}

/// What `>=` yields: the disjunction of the strict chain and all-equal.
pub open spec fn spec_apply_grater_or_equals(models: Seq<ValueModel>) -> Option<ValueModel> {
    match spec_unify(models) {
        Type::Int => Some(ValueModel::Boolean(
            spec_chain_gt(spec_ints_of(models)) || spec_chain_eq(spec_ints_of(models)),
        )),
        Type::Float => match (spec_float_gt(spec_floats_of(models)), spec_float_eq(
            spec_floats_of(models),
        )) {
            (Some(a), Some(b)) => Some(ValueModel::Boolean(a || b)),
            _ => None,
        },
        _ => None,
    }
}

/// What `<=` yields: the disjunction of the strict chain and all-equal.
pub open spec fn spec_apply_less_or_equals(models: Seq<ValueModel>) -> Option<ValueModel> {
    match spec_unify(models) {
        Type::Int => Some(ValueModel::Boolean(
            spec_chain_lt(spec_ints_of(models)) || spec_chain_eq(spec_ints_of(models)),
        )),
        Type::Float => match (spec_float_lt(spec_floats_of(models)), spec_float_eq(
            spec_floats_of(models),
        )) {
            (Some(a), Some(b)) => Some(ValueModel::Boolean(a || b)),
            _ => None,
        },
        _ => None,
    }
}

/// What `or` yields: whether any coerced boolean is true; only booleans
/// unify.
pub open spec fn spec_apply_or(models: Seq<ValueModel>) -> Option<ValueModel> {
    match spec_unify(models) {
        Type::Boolean => Some(ValueModel::Boolean(spec_any(spec_bools_of(models)))),
        _ => None,
    }
}

/// What `and` yields: whether every coerced boolean is true.
pub open spec fn spec_apply_and(models: Seq<ValueModel>) -> Option<ValueModel> {
    match spec_unify(models) {
        Type::Boolean => Some(ValueModel::Boolean(crate::basic::spec_all(spec_bools_of(models)))),
        _ => None,
    }
}

/// What `not` yields: the negation of a single boolean argument, nothing
/// otherwise.
pub open spec fn spec_apply_not(models: Seq<ValueModel>) -> Option<ValueModel> {
    if models.len() == 1 {
        match models[0] {
            ValueModel::Boolean(b) => Some(ValueModel::Boolean(!b)),
            _ => None,
        }
    } else {
        None
    }
}

/// What `print` writes for a prepared argument list: numbers and booleans
/// space-separated, strings concatenated with their escapes rewritten,
/// nothing when no type unifies.
pub open spec fn spec_print_output(models: Seq<ValueModel>) -> Seq<char> {
    match spec_unify(models) {
        Type::Int => spec_texts_spaced(spec_int_texts(spec_ints_of(models))),
        Type::Float => spec_texts_spaced(spec_floats_of(models)),
        Type::Boolean => spec_texts_spaced(spec_bool_texts(spec_bools_of(models))),
        Type::Str => spec_texts_unescaped(spec_strings_of(models)),
        Type::Unknown => Seq::empty(),
    }
}

/// The optional model of an optional returned value.
pub open spec fn m_opt(r: Option<LispValue>) -> Option<ValueModel> {
    match r {
        Some(v) => Some(v@),
        None => None,
    }
}

/// A call form the evaluator runs: a nonempty call whose head is a name.
pub open spec fn is_wf_call(m: ValueModel) -> bool {
    m is Call && m->Call_0.len() > 0 && m->Call_0[0] is Name
}

/// What substitution does to one value: a bound name becomes its value,
/// anything else stays. A binding is never call-shaped in a well-formed
/// state; the guard below keeps the definition size-bounded on arbitrary
/// models and never fires on a real state.
pub open spec fn m_subst(scopes: Seq<ScopeModel>, m: ValueModel) -> ValueModel {
    match m {
        ValueModel::Name(n) => match m_lookup_var(scopes, n) {
            Some(v) => if v is Call {
                m
            } else {
                v
            },
            None => m,
        },
        _ => m,
    }
}

/// Substitution over a whole argument list, element by element.
pub open spec fn m_subst_all(scopes: Seq<ScopeModel>, args: Seq<ValueModel>) -> Seq<ValueModel>
    decreases args.len(),
{
    if args.len() == 0 {
        Seq::empty()
    } else {
        seq![m_subst(scopes, args[0])] + m_subst_all(scopes, args.drop_first())
    }
}

pub broadcast proof fn lemma_m_subst_all_len(scopes: Seq<ScopeModel>, args: Seq<ValueModel>)
    ensures
        (#[trigger] m_subst_all(scopes, args)).len() == args.len(),
    decreases args.len(),
{
    if args.len() > 0 {
        lemma_m_subst_all_len(scopes, args.drop_first());
    }
}

pub broadcast proof fn lemma_m_subst_all_index(scopes: Seq<ScopeModel>, args: Seq<ValueModel>, i: int)
    requires
        0 <= i < args.len(),
    ensures
        (#[trigger] m_subst_all(scopes, args)[i]) == m_subst(scopes, args[i]),
    decreases args.len(),
{
    lemma_m_subst_all_len(scopes, args);
    if i > 0 {
        lemma_m_subst_all_index(scopes, args.drop_first(), i - 1);
    }
}

pub proof fn lemma_m_subst_all_size(scopes: Seq<ScopeModel>, args: Seq<ValueModel>)
    ensures
        models_size(m_subst_all(scopes, args)) <= models_size(args),
    decreases args.len(),
{
    if args.len() > 0 {
        lemma_m_subst_all_size(scopes, args.drop_first());
        let sub = m_subst_all(scopes, args);
        assert(sub == seq![m_subst(scopes, args[0])] + m_subst_all(scopes, args.drop_first()));
        assert(sub.len() > 0);
        assert(sub[0] == m_subst(scopes, args[0]));
        assert(sub.drop_first() =~= m_subst_all(scopes, args.drop_first()));
        crate::value::lemma_model_size_pos(args[0]);
        assert(model_size(m_subst(scopes, args[0])) <= model_size(args[0]));
    }
}

/// The child frame's bindings: each formal paired with its actual argument.
pub open spec fn m_bindings(params: Seq<Seq<char>>, args: Seq<ValueModel>) -> Seq<
    (Seq<char>, ValueModel),
>
    decreases params.len(),
{
    if params.len() == 0 || args.len() == 0 {
        Seq::empty()
    } else {
        seq![(params[0], args[0])] + m_bindings(params.drop_first(), args.drop_first())
    }
}

pub broadcast proof fn lemma_m_bindings_len(params: Seq<Seq<char>>, args: Seq<ValueModel>)
    ensures
        (#[trigger] m_bindings(params, args)).len() == if params.len() <= args.len() {
            params.len()
        } else {
            args.len()
        },
    decreases params.len(),
{
    if params.len() > 0 && args.len() > 0 {
        lemma_m_bindings_len(params.drop_first(), args.drop_first());
    }
}

pub broadcast proof fn lemma_m_bindings_index(
    params: Seq<Seq<char>>,
    args: Seq<ValueModel>,
    i: int,
)
    requires
        0 <= i < params.len(),
        0 <= i < args.len(),
    ensures
        (#[trigger] m_bindings(params, args)[i]) == (params[i], args[i]),
    decreases params.len(),
{
    lemma_m_bindings_len(params, args);
    if i > 0 {
        lemma_m_bindings_index(params.drop_first(), args.drop_first(), i - 1);
    }
}

/// The model of the `defun` form: a well-shaped form defines the named
/// function in the innermost frame; anything else changes nothing.
pub open spec fn m_defun(st: StateModel, args: Seq<ValueModel>) -> StateModel {
    if args.len() >= 3 && args[0] is Name && args[1] is Call {
        m_define(
            st,
            args[0]->Name_0,
            FunctionModel::Custom(spec_formals(args[1]->Call_0), args.skip(2)),
        )
    } else {
        st
    }
}

/// What resolving and running a named call does to the state, and what it
/// returns: the specification-level evaluator, mirrored exactly by
/// `execute_function`.
pub open spec fn m_eval_call(
    st: StateModel,
    name: Seq<char>,
    args: Seq<ValueModel>,
    fuel: u64,
) -> (StateModel, Option<ValueModel>)
    decreases fuel, models_size(args), 9int,
{
    match m_lookup_fun(st.scopes, name) {
        None => (st, None),
        Some(fm) => m_eval_dispatch(st, fm, args, fuel),
    }
}

/// Dispatch of a resolved function, mirrored exactly by `execute`.
pub open spec fn m_eval_dispatch(
    st: StateModel,
    fm: FunctionModel,
    args: Seq<ValueModel>,
    fuel: u64,
) -> (StateModel, Option<ValueModel>)
    decreases fuel, models_size(args), 8int,
{
    match fm {
        FunctionModel::Add => {
            let (st1, p) = m_prepare(st, args, fuel);
            (st1, spec_apply_arith(ArithOp::Add, p))
        },
        FunctionModel::Sub => {
            let (st1, p) = m_prepare(st, args, fuel);
            (st1, spec_apply_arith(ArithOp::Sub, p))
        },
        FunctionModel::Mul => {
            let (st1, p) = m_prepare(st, args, fuel);
            (st1, spec_apply_arith(ArithOp::Mul, p))
        },
        FunctionModel::Div => {
            let (st1, p) = m_prepare(st, args, fuel);
            (st1, spec_apply_arith(ArithOp::Div, p))
        },
        FunctionModel::Grater => {
            let (st1, p) = m_prepare(st, args, fuel);
            (st1, spec_apply_grater(p))
        },
        FunctionModel::GraterOrEquals => {
            let (st1, p) = m_prepare(st, args, fuel);
            (st1, spec_apply_grater_or_equals(p))
        },
        FunctionModel::Less => {
            let (st1, p) = m_prepare(st, args, fuel);
            (st1, spec_apply_less(p))
        },
        FunctionModel::LessOrEquals => {
            let (st1, p) = m_prepare(st, args, fuel);
            (st1, spec_apply_less_or_equals(p))
        },
        FunctionModel::Equals => {
            let (st1, p) = m_prepare(st, args, fuel);
            (st1, spec_apply_equals(p))
        },
        FunctionModel::NotEquals => {
            let (st1, p) = m_prepare(st, args, fuel);
            (st1, spec_apply_not_equals(p))
        },
        FunctionModel::Or => {
            let (st1, p) = m_prepare(st, args, fuel);
            (st1, spec_apply_or(p))
        },
        FunctionModel::And => {
            let (st1, p) = m_prepare(st, args, fuel);
            (st1, spec_apply_and(p))
        },
        FunctionModel::Not => {
            if args.len() != 1 {
                (st, None)
            } else {
                let (st1, p) = m_prepare(st, args, fuel);
                (st1, spec_apply_not(p))
            }
        },
        FunctionModel::Print => {
            let (st1, p) = m_prepare(st, args, fuel);
            (StateModel { scopes: st1.scopes, out: st1.out + spec_print_output(p) }, None)
        },
        FunctionModel::Defvar => m_defvar(st, args, fuel),
        FunctionModel::Defun => (m_defun(st, args), None),
        FunctionModel::Custom(params, body) => {
            let (st1, p) = m_prepare(st, args, fuel);
            m_custom(st1, p, params, body, fuel)
        },
    }
}

/// The model of the `defvar` form, mirrored exactly by `define_var`: a call
/// expression runs in the current frame and its result is bound; a name
/// expression copies the value it is bound to; any other expression is bound
/// as it is; a malformed form changes nothing. No result either way.
pub open spec fn m_defvar(st: StateModel, args: Seq<ValueModel>, fuel: u64) -> (
    StateModel,
    Option<ValueModel>,
)
    decreases fuel, models_size(args), 7int,
{
    if args.len() == 2 && args[0] is Name {
        let n = args[0]->Name_0;
        let e = args[1];
        match e {
            ValueModel::Call(items) => if items.len() > 0 && items[0] is Name {
                proof {
                    crate::value::lemma_model_size_pos(args[0]);
                    crate::value::lemma_models_size_drop_first(items);
                    assert(args.drop_first()[0] == args[1]);
                    assert(models_size(args) == model_size(args[0]) + models_size(
                        args.drop_first(),
                    ));
                    assert(models_size(args.drop_first()) >= model_size(args[1]));
                }
                let (st1, r) = m_eval_call(st, items[0]->Name_0, items.drop_first(), fuel);
                match r {
                    Some(v) => (m_bind(st1, n, v), None),
                    None => (st1, None),
                }
            } else {
                (st, None)
            },
            ValueModel::Name(source) => match m_lookup_var(st.scopes, source) {
                Some(v) => (m_bind(st, n, v), None),
                None => (st, None),
            },
            _ => (m_bind(st, n, e), None),
        }
    } else {
        (st, None)
    }
}

/// The model of argument preparation, mirrored exactly by
/// `prepare_execution`: substitute bound names, then evaluate nested calls.
pub open spec fn m_prepare(st: StateModel, args: Seq<ValueModel>, fuel: u64) -> (
    StateModel,
    Seq<ValueModel>,
)
    decreases fuel, models_size(args), 6int,
{
    proof {
        lemma_m_subst_all_size(st.scopes, args);
    }
    m_exec_args(st, m_subst_all(st.scopes, args), fuel)
}

/// The model of nested-call evaluation, mirrored exactly by
/// `execute_functions`: in one left-to-right pass, a call headed by a name
/// is run and replaced positionally by its result, or removed when it yields
/// none; a malformed call is removed; every other value keeps its place.
pub open spec fn m_exec_args(st: StateModel, args: Seq<ValueModel>, fuel: u64) -> (
    StateModel,
    Seq<ValueModel>,
)
    decreases fuel, models_size(args), 5int,
{
    if args.len() == 0 {
        (st, Seq::empty())
    } else {
        proof {
            crate::value::lemma_models_size_drop_first(args);
        }
        match args[0] {
            ValueModel::Call(items) => if items.len() > 0 && items[0] is Name {
                proof {
                    crate::value::lemma_models_size_drop_first(items);
                    assert(models_size(args) == model_size(args[0]) + models_size(
                        args.drop_first(),
                    ));
                    assert(model_size(args[0]) == 1 + models_size(items));
                }
                let (st1, r) = m_eval_call(st, items[0]->Name_0, items.drop_first(), fuel);
                let (st2, rest) = m_exec_args(st1, args.drop_first(), fuel);
                match r {
                    Some(v) => (st2, seq![v] + rest),
                    None => (st2, rest),
                }
            } else {
                m_exec_args(st, args.drop_first(), fuel)
            },
            _ => {
                let (st2, rest) = m_exec_args(st, args.drop_first(), fuel);
                (st2, seq![args[0]] + rest)
            },
        }
    }
}

/// The model of running body forms in order, mirrored by the body loops of
/// `execute_custom_function` and `run`: each call form headed by a name runs
/// and overwrites the result; other forms are skipped; the result is that of
/// the last well-formed call form.
pub open spec fn m_body(st: StateModel, forms: Seq<ValueModel>, fuel: u64) -> (
    StateModel,
    Option<ValueModel>,
)
    decreases fuel, models_size(forms), 4int,
{
    if forms.len() == 0 {
        (st, None)
    } else {
        proof {
            crate::value::lemma_models_size_drop_first(forms);
            if is_wf_call(forms[0]) {
                crate::value::lemma_models_size_drop_first(forms[0]->Call_0);
                assert(models_size(forms) == model_size(forms[0]) + models_size(
                    forms.drop_first(),
                ));
                assert(model_size(forms[0]) == 1 + models_size(forms[0]->Call_0));
            }
        }
        let (st1, r1) = if is_wf_call(forms[0]) {
            m_eval_call(st, forms[0]->Call_0[0]->Name_0, forms[0]->Call_0.drop_first(), fuel)
        } else {
            (st, None)
        };
        let (st2, r2) = m_body(st1, forms.drop_first(), fuel);
        let rest_has_call = exists|i: int|
            0 <= i < forms.drop_first().len() && is_wf_call(#[trigger] forms.drop_first()[i]);
        let r = if rest_has_call {
            r2
        } else if is_wf_call(forms[0]) {
            r1
        } else {
            None
        };
        (st2, r)
    }
}

/// The model of a user-function invocation, mirrored exactly by
/// `execute_custom_function`: at exhausted depth or on an arity mismatch
/// nothing happens; otherwise the formals are bound to the prepared actuals
/// in one child frame, the body runs there, and the frame is dropped.
pub open spec fn m_custom(
    st: StateModel,
    args: Seq<ValueModel>,
    params: Seq<Seq<char>>,
    body: Seq<ValueModel>,
    fuel: u64,
) -> (StateModel, Option<ValueModel>)
    decreases fuel, 0int, 0int,
{
    if fuel == 0 || args.len() != params.len() {
        (st, None)
    } else {
        let entered = StateModel {
            scopes: st.scopes.push(
                ScopeModel { variables: m_bindings(params, args), functions: Seq::empty() },
            ),
            out: st.out,
        };
        let (st1, r) = m_body(entered, body, (fuel - 1) as u64);
        (StateModel { scopes: st1.scopes.drop_last(), out: st1.out }, r)
    }
}

/// Arithmetic on a prepared argument list: unify, coerce, fold. Exactly
/// `spec_apply_arith` for a list of plain literals.
fn arith(state: &mut State, args: Vec<LispValue>, op: ArithOp, fuel: u64) -> (r: Option<
    LispValue,
>)
    requires
        old(state).wf(),
    ensures
        final(state).wf(),
        evolves(*old(state), *final(state)),
        (match r {
            Some(v) => !(v@ is Call),
            None => true,
        }),
        ({
            let pr = m_prepare(old(state)@, views_of(args@), fuel);
            final(state)@ == pr.0 && m_opt(r) == spec_apply_arith(op, pr.1)
        }),
    decreases fuel, models_size(views_of(args@)), 2int,
{
    let mut prepared = args;
    prepare_execution(state, &mut prepared, fuel);
    let unified_type = get_args_unified_type(&prepared);
    match unified_type {
        Type::Int => {
            match crate::basic::perform_arith_int(op, &convert_to_int_array(prepared)) {
                Some(n) => Some(LispValue::Int(n)),
                None => None,
            }
        },
        Type::Float => {
            match perform_arith_float(op, &convert_to_float_array(prepared)) {
                Some(t) => Some(LispValue::Float(t)),
                None => None,
            }
        },
        _ => None,
    }
}

fn add(state: &mut State, args: Vec<LispValue>, fuel: u64) -> (r: Option<LispValue>)
    requires
        old(state).wf(),
    ensures
        final(state).wf(),
        evolves(*old(state), *final(state)),
        (match r {
            Some(v) => !(v@ is Call),
            None => true,
        }),
        ({
            let pr = m_prepare(old(state)@, views_of(args@), fuel);
            final(state)@ == pr.0 && m_opt(r) == spec_apply_arith(ArithOp::Add, pr.1)
        }),
    decreases fuel, models_size(views_of(args@)), 3int,
{
    arith(state, args, ArithOp::Add, fuel)
}

fn sub(state: &mut State, args: Vec<LispValue>, fuel: u64) -> (r: Option<LispValue>)
    requires
        old(state).wf(),
    ensures
        final(state).wf(),
        evolves(*old(state), *final(state)),
        (match r {
            Some(v) => !(v@ is Call),
            None => true,
        }),
        ({
            let pr = m_prepare(old(state)@, views_of(args@), fuel);
            final(state)@ == pr.0 && m_opt(r) == spec_apply_arith(ArithOp::Sub, pr.1)
        }),
    decreases fuel, models_size(views_of(args@)), 3int,
{
    arith(state, args, ArithOp::Sub, fuel)
}

fn mul(state: &mut State, args: Vec<LispValue>, fuel: u64) -> (r: Option<LispValue>)
    requires
        old(state).wf(),
    ensures
        final(state).wf(),
        evolves(*old(state), *final(state)),
        (match r {
            Some(v) => !(v@ is Call),
            None => true,
        }),
        ({
            let pr = m_prepare(old(state)@, views_of(args@), fuel);
            final(state)@ == pr.0 && m_opt(r) == spec_apply_arith(ArithOp::Mul, pr.1)
        }),
    decreases fuel, models_size(views_of(args@)), 3int,
{
    arith(state, args, ArithOp::Mul, fuel)
}

fn div(state: &mut State, args: Vec<LispValue>, fuel: u64) -> (r: Option<LispValue>)
    requires
        old(state).wf(),
    ensures
        final(state).wf(),
        evolves(*old(state), *final(state)),
        (match r {
            Some(v) => !(v@ is Call),
            None => true,
        }),
        ({
            let pr = m_prepare(old(state)@, views_of(args@), fuel);
            final(state)@ == pr.0 && m_opt(r) == spec_apply_arith(ArithOp::Div, pr.1)
        }),
    decreases fuel, models_size(views_of(args@)), 3int,
{
    arith(state, args, ArithOp::Div, fuel)
}

/// The `=` operation: all prepared arguments equal, exactly
/// `spec_apply_equals` for a list of plain literals.
pub fn equals(state: &mut State, args: Vec<LispValue>, fuel: u64) -> (r: Option<LispValue>)
    requires
        old(state).wf(),
    ensures
        final(state).wf(),
        evolves(*old(state), *final(state)),
        (match r {
            Some(v) => !(v@ is Call),
            None => true,
        }),
        ({
            let pr = m_prepare(old(state)@, views_of(args@), fuel);
            final(state)@ == pr.0 && m_opt(r) == spec_apply_equals(pr.1)
        }),
    decreases fuel, models_size(views_of(args@)), 3int,
{
    let mut prepared = args;
    prepare_execution(state, &mut prepared, fuel);
    match get_args_unified_type(&prepared) {
        Type::Int => Some(LispValue::Boolean(perform_equals(&convert_to_int_array(prepared)))),
        Type::Float => match perform_equals_float(&convert_to_float_array(prepared)) {
            Some(b) => Some(LispValue::Boolean(b)),
            None => None,
        },
        Type::Boolean => Some(
            LispValue::Boolean(perform_equals_bool(&convert_to_boolean_array(prepared))),
        ),
        Type::Str => Some(
            LispValue::Boolean(perform_equals_str(&convert_to_string_array(prepared))),
        ),
        Type::Unknown => None,
    }
}

/// The `/=` operation: all prepared arguments pairwise distinct, exactly
/// `spec_apply_not_equals` for a list of plain literals.
pub fn not_equals(state: &mut State, args: Vec<LispValue>, fuel: u64) -> (r: Option<LispValue>)
    requires
        old(state).wf(),
    ensures
        final(state).wf(),
        evolves(*old(state), *final(state)),
        (match r {
            Some(v) => !(v@ is Call),
            None => true,
        }),
        ({
            let pr = m_prepare(old(state)@, views_of(args@), fuel);
            final(state)@ == pr.0 && m_opt(r) == spec_apply_not_equals(pr.1)
        }),
    decreases fuel, models_size(views_of(args@)), 3int,
{
    let mut prepared = args;
    prepare_execution(state, &mut prepared, fuel);
    match get_args_unified_type(&prepared) {
        Type::Int => Some(
            LispValue::Boolean(perform_not_equals(&convert_to_int_array(prepared))),
        ),
        Type::Float => match perform_not_equals_float(&convert_to_float_array(prepared)) {
            Some(b) => Some(LispValue::Boolean(b)),
            None => None,
        },
        Type::Boolean => Some(
            LispValue::Boolean(perform_not_equals_bool(&convert_to_boolean_array(prepared))),
        ),
        Type::Str => Some(
            LispValue::Boolean(perform_not_equals_str(&convert_to_string_array(prepared))),
        ),
        Type::Unknown => None,
    }
}

/// The `>` operation: a strictly decreasing chain of prepared numbers,
/// exactly `spec_apply_grater` for a list of plain literals.
pub fn grater_then(state: &mut State, args: Vec<LispValue>, fuel: u64) -> (r: Option<LispValue>)
    requires
        old(state).wf(),
    ensures
        final(state).wf(),
        evolves(*old(state), *final(state)),
        (match r {
            Some(v) => !(v@ is Call),
            None => true,
        }),
        ({
            let pr = m_prepare(old(state)@, views_of(args@), fuel);
            final(state)@ == pr.0 && m_opt(r) == spec_apply_grater(pr.1)
        }),
    decreases fuel, models_size(views_of(args@)), 3int,
{
    let mut prepared = args;
    prepare_execution(state, &mut prepared, fuel);
    match get_args_unified_type(&prepared) {
        Type::Int => Some(
            LispValue::Boolean(perform_grater_then(&convert_to_int_array(prepared))),
        ),
        Type::Float => match perform_grater_then_float(&convert_to_float_array(prepared)) {
            Some(b) => Some(LispValue::Boolean(b)),
            None => None,
        },
        _ => None,
    }
}

/// The `<` operation: a strictly increasing chain of prepared numbers,
/// exactly `spec_apply_less` for a list of plain literals.
pub fn less_then(state: &mut State, args: Vec<LispValue>, fuel: u64) -> (r: Option<LispValue>)
    requires
        old(state).wf(),
    ensures
        final(state).wf(),
        evolves(*old(state), *final(state)),
        (match r {
            Some(v) => !(v@ is Call),
            None => true,
        }),
        ({
            let pr = m_prepare(old(state)@, views_of(args@), fuel);
            final(state)@ == pr.0 && m_opt(r) == spec_apply_less(pr.1)
        }),
    decreases fuel, models_size(views_of(args@)), 3int,
{
    let mut prepared = args;
    prepare_execution(state, &mut prepared, fuel);
    match get_args_unified_type(&prepared) {
        Type::Int => Some(LispValue::Boolean(perform_less_then(&convert_to_int_array(prepared)))),
        Type::Float => match perform_less_then_float(&convert_to_float_array(prepared)) {
            Some(b) => Some(LispValue::Boolean(b)),
            None => None,
        },
        _ => None,
    }
}

/// The `>=` operation: the disjunction of the strict chain and all-equal,
/// exactly `spec_apply_grater_or_equals` for a list of plain literals.
pub fn grater_or_equals_then(state: &mut State, args: Vec<LispValue>, fuel: u64) -> (r: Option<
    LispValue,
>)
    requires
        old(state).wf(),
    ensures
        final(state).wf(),
        evolves(*old(state), *final(state)),
        (match r {
            Some(v) => !(v@ is Call),
            None => true,
        }),
        ({
            let pr = m_prepare(old(state)@, views_of(args@), fuel);
            final(state)@ == pr.0 && m_opt(r) == spec_apply_grater_or_equals(pr.1)
        }),
    decreases fuel, models_size(views_of(args@)), 3int,
{
    let mut prepared = args;
    prepare_execution(state, &mut prepared, fuel);
    match get_args_unified_type(&prepared) {
        Type::Int => {
            let array = convert_to_int_array(prepared);
            let gt = perform_grater_then(&array);
            let eq = perform_equals(&array);
            Some(LispValue::Boolean(gt || eq))
        },
        Type::Float => {
            let array = convert_to_float_array(prepared);
            match (perform_grater_then_float(&array), perform_equals_float(&array)) {
                (Some(a), Some(b)) => Some(LispValue::Boolean(a || b)),
                _ => None,
            }
        },
        _ => None,
    }
}

/// The `<=` operation: the disjunction of the strict chain and all-equal,
/// exactly `spec_apply_less_or_equals` for a list of plain literals.
pub fn less_or_equals_then(state: &mut State, args: Vec<LispValue>, fuel: u64) -> (r: Option<
    LispValue,
>)
    requires
        old(state).wf(),
    ensures
        final(state).wf(),
        evolves(*old(state), *final(state)),
        (match r {
            Some(v) => !(v@ is Call),
            None => true,
        }),
        ({
            let pr = m_prepare(old(state)@, views_of(args@), fuel);
            final(state)@ == pr.0 && m_opt(r) == spec_apply_less_or_equals(pr.1)
        }),
    decreases fuel, models_size(views_of(args@)), 3int,
{
    let mut prepared = args;
    prepare_execution(state, &mut prepared, fuel);
    match get_args_unified_type(&prepared) {
        Type::Int => {
            let array = convert_to_int_array(prepared);
            let lt = perform_less_then(&array);
            let eq = perform_equals(&array);
            Some(LispValue::Boolean(lt || eq))
        },
        Type::Float => {
            let array = convert_to_float_array(prepared);
            match (perform_less_then_float(&array), perform_equals_float(&array)) {
                (Some(a), Some(b)) => Some(LispValue::Boolean(a || b)),
                _ => None,
            }
        },
        _ => None,
    }
}

/// The `or` operation: whether any prepared boolean is true, exactly
/// `spec_apply_or` for a list of plain literals.
#[verifier::loop_isolation(false)]
pub fn or(state: &mut State, args: Vec<LispValue>, fuel: u64) -> (r: Option<LispValue>)
    requires
        old(state).wf(),
    ensures
        final(state).wf(),
        evolves(*old(state), *final(state)),
        (match r {
            Some(v) => !(v@ is Call),
            None => true,
        }),
        ({
            let pr = m_prepare(old(state)@, views_of(args@), fuel);
            final(state)@ == pr.0 && m_opt(r) == spec_apply_or(pr.1)
        }),
    decreases fuel, models_size(views_of(args@)), 3int,
{
    let mut prepared = args;
    prepare_execution(state, &mut prepared, fuel);
    match get_args_unified_type(&prepared) {
        Type::Boolean => {
            let array = convert_to_boolean_array(prepared);
            let mut result = false;
            let mut i: usize = 0;
            while i < array.len()
                invariant
                    i <= array@.len(),
                    result == exists|k: int| 0 <= k < i && array@[k],
                decreases array@.len() - i,
            {
                if array[i] {
                    result = true;
                }
                i = i + 1;
            }
            Some(LispValue::Boolean(result))
        },
        _ => None,
    }
}

/// The `and` operation: whether every prepared boolean is true, exactly
/// `spec_apply_and` for a list of plain literals.
#[verifier::loop_isolation(false)]
pub fn and(state: &mut State, args: Vec<LispValue>, fuel: u64) -> (r: Option<LispValue>)
    requires
        old(state).wf(),
    ensures
        final(state).wf(),
        evolves(*old(state), *final(state)),
        (match r {
            Some(v) => !(v@ is Call),
            None => true,
        }),
        ({
            let pr = m_prepare(old(state)@, views_of(args@), fuel);
            final(state)@ == pr.0 && m_opt(r) == spec_apply_and(pr.1)
        }),
    decreases fuel, models_size(views_of(args@)), 3int,
{
    let mut prepared = args;
    prepare_execution(state, &mut prepared, fuel);
    match get_args_unified_type(&prepared) {
        Type::Boolean => {
            let array = convert_to_boolean_array(prepared);
            let mut result = true;
            let mut i: usize = 0;
            while i < array.len()
                invariant
                    i <= array@.len(),
                    result == forall|k: int| 0 <= k < i ==> array@[k],
                decreases array@.len() - i,
            {
                if !array[i] {
                    result = false;
                }
                i = i + 1;
            }
            Some(LispValue::Boolean(result))
        },
        _ => None,
    }
}

/// The `not` operation: the negation of exactly one boolean argument, exactly
/// `spec_apply_not` for a list of plain literals.
pub fn not(state: &mut State, args: Vec<LispValue>, fuel: u64) -> (r: Option<LispValue>)
    requires
        old(state).wf(),
    ensures
        final(state).wf(),
        evolves(*old(state), *final(state)),
        (match r {
            Some(v) => !(v@ is Call),
            None => true,
        }),
        views_of(args@).len() != 1 ==> (*final(state) == *old(state) && r is None),
        views_of(args@).len() == 1 ==> ({
            let pr = m_prepare(old(state)@, views_of(args@), fuel);
            final(state)@ == pr.0 && m_opt(r) == spec_apply_not(pr.1)
        }),
    decreases fuel, models_size(views_of(args@)), 3int,
{
    proof {
        crate::value::lemma_views_of_len(args@);
    }
    if args.len() != 1 {
        return None;
    }
    let mut prepared = args;
    prepare_execution(state, &mut prepared, fuel);
    proof {
        crate::value::lemma_views_of_len(prepared@);
        if prepared@.len() == 1 {
            crate::value::lemma_views_of_index(prepared@, 0int);
        }
    }
    if prepared.len() == 1 {
        match &prepared[0] {
            LispValue::Boolean(value) => Some(LispValue::Boolean(!*value)),
            _ => None,
        }
    } else {
        None
    }
}

/// The `print` operation: appends the prepared arguments' rendering to the
/// output, exactly `spec_print_output` for a list of plain literals, and
/// yields no result.
fn print(state: &mut State, args: Vec<LispValue>, fuel: u64) -> (r: Option<LispValue>)
    requires
        old(state).wf(),
    ensures
        final(state).wf(),
        evolves(*old(state), *final(state)),
        r is None,
        ({
            let pr = m_prepare(old(state)@, views_of(args@), fuel);
            final(state)@ == (StateModel {
                scopes: pr.0.scopes,
                out: pr.0.out + spec_print_output(pr.1),
            }) && r is None
        }),
    decreases fuel, models_size(views_of(args@)), 3int,
{
    let mut prepared = args;
    prepare_execution(state, &mut prepared, fuel);
    let ghost mid = *state;
    let text: String = match get_args_unified_type(&prepared) {
        Type::Int => perform_print(&int_texts(&convert_to_int_array(prepared))),
        Type::Float => perform_print(&convert_to_float_array(prepared)),
        Type::Boolean => perform_print(&bool_texts(&convert_to_boolean_array(prepared))),
        Type::Str => perform_print_string(&convert_to_string_array(prepared)),
        Type::Unknown => String::new(),
    };
    state.out.append(text.as_str());
    proof {
        assert(mid.out@.is_prefix_of(state.out@)) by {
            assert(mid.out@ =~= state.out@.subrange(0, mid.out@.len() as int));
        }
        lemma_evolves_trans(*old(state), mid, *state);
    }
    None
}

/// The names of a parameter list: its name-shaped elements, in order; other
/// elements are dropped.
pub open spec fn spec_formals(items: Seq<ValueModel>) -> Seq<Seq<char>>
    decreases items.len(),
{
    if items.len() == 0 {
        Seq::empty()
    } else {
        let rest = spec_formals(items.drop_first());
        match items[0] {
            ValueModel::Name(n) => seq![n] + rest,
            _ => rest,
        }
    }
}

/// The `defun` form: registers a user-defined function in the innermost
/// frame, carrying the name-shaped formals of its parameter list and the
/// unevaluated body forms; a malformed form changes nothing. Produces no
/// result itself.
#[verifier::loop_isolation(false)]
fn create_custom_function(state: &mut State, args: Vec<LispValue>, fuel: u64) -> (r: Option<
    LispValue,
>)
    requires
        old(state).wf(),
    ensures
        final(state).wf(),
        evolves(*old(state), *final(state)),
        r is None,
        final(state)@ == m_defun(old(state)@, views_of(args@)),
        !(args@.len() >= 3 && args@[0] is Name && args@[1] is Function) ==> *final(state) == *old(
            state,
        ),
        (args@.len() >= 3 && args@[0] is Name && args@[1] is Function) ==> ({
            &&& final(state).out == old(state).out
            &&& final(state).scopes@.len() == old(state).scopes@.len()
            &&& final(state).scopes@.drop_last() == old(state).scopes@.drop_last()
            &&& final(state).scopes@.last().variables == old(state).scopes@.last().variables
            &&& final(state).scopes@.last().functions@ == old(
                state,
            ).scopes@.last().functions@.push(
                (args@[0]->Name_0, final(state).scopes@.last().functions@.last().1),
            )
            &&& final(state).scopes@.last().functions@.last().1@ == FunctionModel::Custom(
                spec_formals(views_of(args@[1]->Function_0@)),
                views_of(args@).skip(2),
            )
        }),
    decreases fuel, models_size(views_of(args@)), 3int,
{
    broadcast use crate::value::lemma_views_of_len, crate::value::lemma_views_of_index;

    if args.len() < 3 {
        return None;
    }
    let mut rest = args;
    let head = rest.remove(0);
    let name = match head {
        LispValue::Name(n) => n,
        _ => {
            return None;
        },
    };
    let params_form = rest.remove(0);
    match params_form {
        LispValue::Function(items) => {
            let ghost orig_items = items@;
            let mut items = items;
            let mut f_args: Vec<String> = Vec::new();
            proof {
                assert(names_of(f_args@) =~= Seq::<Seq<char>>::empty());
                assert(names_of(f_args@) + spec_formals(views_of(items@)) =~= spec_formals(
                    views_of(orig_items),
                ));
            }
            while items.len() > 0
                invariant
                    names_of(f_args@) + spec_formals(views_of(items@)) == spec_formals(
                        views_of(orig_items),
                    ),
                decreases items@.len(),
            {
                let ghost before = items@;
                let first = items.remove(0);
                proof {
                    crate::value::lemma_views_of_len(before);
                    crate::value::lemma_views_of_index(before, 0int);
                    assert(views_of(items@) =~= views_of(before).drop_first()) by {
                        crate::value::lemma_views_of_len(items@);
                        assert forall|k: int| 0 <= k < items@.len() implies views_of(
                            items@,
                        )[k] == views_of(before).drop_first()[k] by {
                            crate::value::lemma_views_of_index(items@, k);
                            crate::value::lemma_views_of_index(before, k + 1);
                        }
                    }
                }
                match first {
                    LispValue::Name(n) => {
                        proof {
                            crate::state::lemma_names_of_push(f_args@, n);
                            assert(names_of(f_args@).push(n@) + spec_formals(views_of(items@))
                                =~= names_of(f_args@) + (seq![n@] + spec_formals(
                                views_of(items@),
                            )));
                        }
                        f_args.push(n);
                        proof {
                            assert(f_args@ == f_args@.drop_last().push(f_args@.last()));
                        }
                    },
                    _ => {},
                }
            }
            proof {
                assert(spec_formals(views_of(items@)) =~= Seq::<Seq<char>>::empty());
                assert(names_of(f_args@) + Seq::<Seq<char>>::empty() =~= names_of(f_args@));
            }
            let functions = rest;
            proof {
                assert(views_of(functions@) =~= views_of(args@).skip(2)) by {
                    crate::value::lemma_views_of_len(functions@);
                    crate::value::lemma_views_of_len(args@);
                    assert forall|k: int| 0 <= k < functions@.len() implies views_of(
                        functions@,
                    )[k] == views_of(args@).skip(2)[k] by {
                        crate::value::lemma_views_of_index(functions@, k);
                        crate::value::lemma_views_of_index(args@, k + 2);
                        assert(functions@[k] == args@[k + 2]);
                    }
                }
            }
            state.add_function(name, Function::Custom(f_args, functions));
            proof {
                lemma_evolves_frame_op(*old(state), *state);
            }
            None
        },
        _ => None,
    }
}

/// Invokes a user-defined function: on an exhausted depth budget or an arity
/// mismatch, nothing happens; otherwise one child frame is entered, each
/// formal is bound to the corresponding already-evaluated actual argument,
/// the body forms run in order in that frame, the frame is discarded, and
/// the result of the last well-formed body call is returned. The frame stack
/// is exactly as before: a binding made inside the body is unreachable after
/// the invocation returns.
#[verifier::loop_isolation(false)]
pub fn execute_custom_function(
    state: &mut State,
    args: Vec<LispValue>,
    parameters: Vec<String>,
    code: Vec<LispValue>,
    fuel: u64,
) -> (r: Option<LispValue>)
    requires
        old(state).wf(),
        forall|i: int| 0 <= i < args@.len() ==> !((#[trigger] args@[i]) is Function),
    ensures
        final(state).wf(),
        evolves(*old(state), *final(state)),
        final(state).scopes@ == old(state).scopes@,
        (match r {
            Some(v) => !(v@ is Call),
            None => true,
        }),
        (fuel == 0 || args@.len() != parameters@.len()) ==> (*final(state) == *old(state) && r
            is None),
        (final(state)@, m_opt(r)) == m_custom(
            old(state)@,
            views_of(args@),
            names_of(parameters@),
            views_of(code@),
            fuel,
        ),
    decreases fuel, models_size(views_of(args@)), 2int,
{
    let ghost args0 = args@;
    let ghost p_models = names_of(parameters@);
    let ghost a_models = views_of(args@);
    let ghost vs = views_of(code@);
    proof {
        crate::value::lemma_views_of_len(args@);
        crate::state::lemma_names_of_len(parameters@);
        crate::value::lemma_views_of_len(code@);
    }
    if fuel == 0 {
        return None;
    }
    if args.len() != parameters.len() {
        return None;
    }
    let ghost sub_fuel = (fuel - 1) as u64;
    let ghost entered = StateModel {
        scopes: old(state)@.scopes.push(
            ScopeModel { variables: m_bindings(p_models, a_models), functions: Seq::empty() },
        ),
        out: old(state)@.out,
    };
    state.create_child();
    let mut actuals = args;
    let mut k: usize = 0;
    proof {
        broadcast use lemma_m_bindings_len, lemma_m_bindings_index;

        assert(actuals@.skip(0int) =~= actuals@);
        assert(m_bindings(p_models, a_models).take(0int) =~= Seq::<(Seq<char>,
            ValueModel,
        )>::empty());
    }
    while k < parameters.len()
        invariant
            old(state).wf(),
            state.wf(),
            k <= parameters@.len(),
            parameters@.len() == a_models.len(),
            p_models == names_of(parameters@),
            a_models == views_of(args0),
            actuals@.len() == parameters@.len() - k,
            forall|i: int| 0 <= i < actuals@.len() ==> !((#[trigger] actuals@[i]) is Function),
            actuals@ == args0.skip(k as int),
            state.scopes@.len() == old(state).scopes@.len() + 1,
            state.scopes@.drop_last() == old(state).scopes@,
            state.out == old(state).out,
            state@ == (StateModel {
                scopes: old(state)@.scopes.push(
                    ScopeModel {
                        variables: m_bindings(p_models, a_models).take(k as int),
                        functions: Seq::empty(),
                    },
                ),
                out: old(state)@.out,
            }),
        decreases parameters@.len() - k,
    {
        let ghost st_before = state@;
        let formal = parameters[k].clone();
        let actual = actuals.remove(0);
        proof {
            broadcast use
                lemma_m_bindings_len,
                lemma_m_bindings_index,
                crate::value::lemma_views_of_index,
                crate::value::lemma_views_of_len,
                crate::state::lemma_names_of_index,
            ;

            assert(actual == args0.skip(k as int)[0]);
            assert(actual == args0[k as int]);
            assert(actuals@ =~= args0.skip(k + 1));
            assert(formal@ == p_models[k as int]);
            assert(actual@ == a_models[k as int]);
        }
        state.add_variable(formal, actual);
        proof {
            broadcast use lemma_m_bindings_len, lemma_m_bindings_index;

            assert(state.scopes@.drop_last() =~= old(state).scopes@);
            assert(m_bindings(p_models, a_models).take(k + 1) =~= m_bindings(
                p_models,
                a_models,
            ).take(k as int).push((p_models[k as int], a_models[k as int])));
            assert(state@.scopes =~= (StateModel {
                scopes: old(state)@.scopes.push(
                    ScopeModel {
                        variables: m_bindings(p_models, a_models).take(k + 1),
                        functions: Seq::empty(),
                    },
                ),
                out: old(state)@.out,
            }).scopes);
        }
        k = k + 1;
    }
    proof {
        broadcast use lemma_m_bindings_len;

        assert(m_bindings(p_models, a_models).take(parameters@.len() as int) =~= m_bindings(
            p_models,
            a_models,
        ));
        assert(state@ == entered);
        assert(vs.skip(0int) =~= vs);
    }
    let mut result: Option<LispValue> = None;
    let mut b: usize = 0;
    while b < code.len()
        invariant
            old(state).wf(),
            state.wf(),
            b <= code@.len(),
            vs == views_of(code@),
            vs.len() == code@.len(),
            state.scopes@.len() == old(state).scopes@.len() + 1,
            state.scopes@.drop_last() == old(state).scopes@,
            old(state).out@.is_prefix_of(state.out@),
            (match result {
                Some(v) => !(v@ is Call),
                None => true,
            }),
            m_body(entered, vs, sub_fuel) == ({
                let (mf, rf) = m_body(state@, vs.skip(b as int), sub_fuel);
                (
                    mf,
                    if (exists|i: int|
                        0 <= i < vs.skip(b as int).len() && is_wf_call(
                            #[trigger] vs.skip(b as int)[i],
                        )) {
                        rf
                    } else {
                        m_opt(result)
                    },
                )
            }),
        decreases code@.len() - b,
    {
        proof {
            broadcast use crate::value::lemma_views_of_index, crate::value::lemma_views_of_len;

            assert(vs.skip(b as int)[0] == vs[b as int]);
            assert(vs[b as int] == code@[b as int]@);
            assert(vs.skip(b as int).drop_first() =~= vs.skip(b + 1));
        }
        let element = code[b].duplicate();
        let ghost em = element@;
        let ghost st_head = state@;
        let ghost res_head = result;
        proof {
            if element is Function {
                lemma_view_call(&element);
            }
        }
        match element {
            LispValue::Function(mut arguments) => {
                let ghost inner0 = arguments@;
                if arguments.len() > 0 {
                    let head = arguments.remove(0);
                    proof {
                        broadcast use
                            crate::value::lemma_views_of_index,
                            crate::value::lemma_views_of_len,
                        ;

                        assert(head == inner0[0]);
                        assert(arguments@ =~= inner0.drop_first());
                        crate::value::lemma_views_of_drop_first(inner0);
                        crate::value::lemma_views_of_index(inner0, 0int);
                    }
                    match head {
                        LispValue::Name(name) => {
                            let ghost mid = *state;
                            result = execute_function(state, name.as_str(), arguments, fuel - 1);
                            proof {
                                assert(state.scopes@.drop_last() =~= old(state).scopes@) by {
                                    assert forall|f: int|
                                        0 <= f < state.scopes@.len() - 1 implies state.scopes@[f]
                                        == old(state).scopes@[f] by {
                                        assert(state.scopes@[f] == mid.scopes@[f]);
                                    }
                                }
                                assert(old(state).out@.is_prefix_of(state.out@)) by {
                                    assert(old(state).out@ =~= state.out@.subrange(
                                        0,
                                        old(state).out@.len() as int,
                                    ));
                                }
                                assert(em->Call_0 == views_of(inner0));
                                assert(views_of(inner0)[0] == ValueModel::Name(name@));
                                assert(is_wf_call(vs[b as int]));
                                assert(views_of(inner0).drop_first() == views_of(
                                    inner0.drop_first(),
                                ));
                                assert(m_eval_call(
                                    mid@,
                                    name@,
                                    views_of(inner0.drop_first()),
                                    sub_fuel,
                                ) == (state@, m_opt(result)));
                            }
                        },
                        _ => {
                            proof {
                                assert(!(views_of(inner0)[0] is Name)) by {
                                    match head {
                                        LispValue::Name(_) => {
                                            assert(false);
                                        },
                                        _ => {},
                                    }
                                }
                                assert(em->Call_0 == views_of(inner0));
                                assert(!is_wf_call(vs[b as int]));
                            }
                        },
                    }
                } else {
                    proof {
                        broadcast use crate::value::lemma_views_of_len;

                        assert(em->Call_0 == views_of(inner0));
                        assert(views_of(inner0).len() == 0);
                        assert(!is_wf_call(vs[b as int]));
                    }
                }
            },
            _ => {
                proof {
                    assert(!(em is Call)) by {
                        match element {
                            LispValue::Function(_) => {
                                assert(false);
                            },
                            _ => {},
                        }
                    }
                    assert(!is_wf_call(vs[b as int]));
                }
            },
        }
        proof {
            let sb = vs.skip(b as int);
            let sb1 = vs.skip(b + 1);
            assert(sb.drop_first() =~= sb1);
            assert(sb.len() == sb1.len() + 1);
            assert((exists|i: int| 0 <= i < sb.len() && is_wf_call(#[trigger] sb[i])) == (
            is_wf_call(vs[b as int]) || (exists|i: int|
                0 <= i < sb1.len() && is_wf_call(#[trigger] sb1[i])))) by {
                assert forall|i: int| 0 <= i < sb1.len() implies sb[i + 1] == sb1[i] by {}
                if exists|i: int| 0 <= i < sb.len() && is_wf_call(#[trigger] sb[i]) {
                    let w = choose|i: int| 0 <= i < sb.len() && is_wf_call(#[trigger] sb[i]);
                    if w == 0 {
                        assert(is_wf_call(vs[b as int]));
                    } else {
                        assert(is_wf_call(sb1[w - 1]));
                    }
                }
                if is_wf_call(vs[b as int]) {
                    assert(is_wf_call(sb[0]));
                }
                if exists|i: int| 0 <= i < sb1.len() && is_wf_call(#[trigger] sb1[i]) {
                    let w = choose|i: int| 0 <= i < sb1.len() && is_wf_call(#[trigger] sb1[i]);
                    assert(is_wf_call(sb[w + 1]));
                }
            }
            let tail_exists = exists|i: int|
                0 <= i < sb1.len() && is_wf_call(#[trigger] sb1[i]);
            if is_wf_call(vs[b as int]) {
                assert(m_body(st_head, sb, sub_fuel) == ({
                    let (st2, r2) = m_body(state@, sb1, sub_fuel);
                    (
                        st2,
                        if tail_exists {
                            r2
                        } else {
                            m_opt(result)
                        },
                    )
                }));
            } else {
                assert(state@ == st_head);
                assert(result == res_head);
                assert(m_body(st_head, sb, sub_fuel) == ({
                    let (st2, r2) = m_body(state@, sb1, sub_fuel);
                    (
                        st2,
                        if tail_exists {
                            r2
                        } else {
                            None::<ValueModel>
                        },
                    )
                }));
            }
        }
        b = b + 1;
    }
    proof {
        assert(vs.skip(b as int).len() == 0);
        assert(m_body(state@, vs.skip(b as int), sub_fuel) == (state@, None::<ValueModel>));
        assert(m_body(entered, vs, sub_fuel) == (state@, m_opt(result)));
    }
    state.discard_child();
    proof {
        assert(final(state).scopes@ =~= old(state).scopes@);
        assert(m_custom(old(state)@, a_models, p_models, vs, fuel) == (final(state)@, m_opt(
            result,
        )));
    }
    result
}

/// The `defvar` form: binds a name in the current frame. A call expression
/// is executed first and its result stored, a name expression copies the
/// value it is bound to, and any other expression is stored as it is; a
/// malformed form changes nothing. Produces no result itself.
fn define_var(state: &mut State, args: Vec<LispValue>, fuel: u64) -> (r: Option<LispValue>)
    requires
        old(state).wf(),
    ensures
        final(state).wf(),
        evolves(*old(state), *final(state)),
        r is None,
        (final(state)@, m_opt(r)) == m_defvar(old(state)@, views_of(args@), fuel),
        !(args@.len() == 2 && args@[0] is Name) ==> *final(state) == *old(state),
        (args@.len() == 2 && args@[0] is Name && is_literal(args@[1]@) && !(args@[1] is Name))
            ==> ({
            &&& final(state).out == old(state).out
            &&& final(state).scopes@.len() == old(state).scopes@.len()
            &&& final(state).scopes@.drop_last() == old(state).scopes@.drop_last()
            &&& final(state).scopes@.last().functions == old(state).scopes@.last().functions
            &&& final(state).scopes@.last().variables@ == old(
                state,
            ).scopes@.last().variables@.push((args@[0]->Name_0, args@[1]))
        }),
        (args@.len() == 2 && args@[0] is Name && args@[1] is Name) ==> (match spec_lookup_var(
            old(state).scopes@,
            args@[1]->Name_0@,
        ) {
            Some(m) => {
                &&& final(state).out == old(state).out
                &&& final(state).scopes@.len() == old(state).scopes@.len()
                &&& final(state).scopes@.drop_last() == old(state).scopes@.drop_last()
                &&& final(state).scopes@.last().functions == old(state).scopes@.last().functions
                &&& final(state).scopes@.last().variables@.len() == old(
                    state,
                ).scopes@.last().variables@.len() + 1
                &&& final(state).scopes@.last().variables@.drop_last() == old(
                    state,
                ).scopes@.last().variables@
                &&& final(state).scopes@.last().variables@.last().0 == args@[0]->Name_0
                &&& final(state).scopes@.last().variables@.last().1@ == m
            },
            None => *final(state) == *old(state),
        }),
    decreases fuel, models_size(views_of(args@)), 3int,
{
    let ghost vs = views_of(args@);
    proof {
        crate::value::lemma_views_of_len(args@);
    }
    if args.len() != 2 {
        return None;
    }
    proof {
        crate::value::lemma_views_of_index(args@, 0int);
        crate::value::lemma_views_of_index(args@, 1int);
    }
    let mut rest = args;
    let head = rest.remove(0);
    let name = match head {
        LispValue::Name(n) => n,
        _ => {
            proof {
                assert(!(vs[0] is Name)) by {
                    match head {
                        LispValue::Name(_) => {
                            assert(false);
                        },
                        _ => {},
                    }
                }
            }
            return None;
        },
    };
    let ghost gname = name@;
    proof {
        assert(vs[0] == ValueModel::Name(gname));
    }
    let value = rest.remove(0);
    let ghost vm = value@;
    proof {
        assert(vm == vs[1]);
        if value is Function {
            lemma_view_call(&value);
        }
    }
    match value {
        LispValue::Function(mut function_args) => {
            let ghost inner0 = function_args@;
            if function_args.len() > 0 {
                let fn_head = function_args.remove(0);
                proof {
                    broadcast use
                        crate::value::lemma_views_of_len,
                        crate::value::lemma_views_of_index,
                    ;

                    assert(fn_head == inner0[0]);
                    assert(function_args@ =~= inner0.drop_first());
                    crate::value::lemma_views_of_drop_first(inner0);
                    crate::value::lemma_views_of_index(inner0, 0int);
                }
                match fn_head {
                    LispValue::Name(function_name) => {
                        proof {
                            assert(vm->Call_0 == views_of(inner0));
                            assert(views_of(inner0)[0] == ValueModel::Name(function_name@));
                            assert(views_of(inner0).drop_first() == views_of(
                                inner0.drop_first(),
                            ));
                        }
                        proof {
                            lemma_views_drop_first_size(args@[1], function_args@);
                            crate::value::lemma_views_of_len(args@);
                            crate::value::lemma_views_of_index(args@, 1int);
                            lemma_models_size_elem(views_of(args@), 1int);
                        }
                        let ghost mid = *state;
                        let returned = execute_function(
                            state,
                            function_name.as_str(),
                            function_args,
                            fuel,
                        );
                        proof {
                            lemma_evolves_trans(*old(state), mid, *state);
                        }
                        match returned {
                            Some(v) => {
                                proof {
                                    if v is Function {
                                        lemma_view_call(&v);
                                    }
                                }
                                let ghost mid2 = *state;
                                state.add_variable(name, v);
                                proof {
                                    lemma_evolves_frame_op(mid2, *state);
                                    lemma_evolves_trans(*old(state), mid2, *state);
                                    assert(final(state)@ == m_bind(mid2@, gname, v@));
                                }
                            },
                            None => {},
                        }
                    },
                    _ => {
                        proof {
                            assert(!(views_of(inner0)[0] is Name)) by {
                                match fn_head {
                                    LispValue::Name(_) => {
                                        assert(false);
                                    },
                                    _ => {},
                                }
                            }
                            assert(vm->Call_0 == views_of(inner0));
                        }
                    },
                }
            } else {
                proof {
                    broadcast use crate::value::lemma_views_of_len;

                    assert(vm->Call_0 == views_of(inner0));
                    assert(views_of(inner0).len() == 0);
                }
            }
            None
        },
        LispValue::Name(source) => {
            proof {
                assert(vm == ValueModel::Name(source@));
            }
            let looked = state.get_value(source.as_str());
            match looked {
                Some(v) => {
                    proof {
                        lemma_lookup_var_literal(state.scopes@, source@);
                        if v is Function {
                            lemma_view_call(&v);
                        }
                    }
                    let ghost mid3 = *state;
                    state.add_variable(name, v);
                    proof {
                        lemma_evolves_frame_op(mid3, *state);
                        lemma_evolves_trans(*old(state), mid3, *state);
                    }
                },
                None => {},
            }
            None
        },
        _ => {
            proof {
                assert(!(vm is Call) && !(vm is Name)) by {
                    match value {
                        LispValue::Function(_) => {
                            assert(false);
                        },
                        LispValue::Name(_) => {
                            assert(false);
                        },
                        _ => {},
                    }
                }
            }
            let ghost mid4 = *state;
            state.add_variable(name, value);
            proof {
                lemma_evolves_frame_op(mid4, *state);
                lemma_evolves_trans(*old(state), mid4, *state);
                assert(final(state)@ == m_bind(mid4@, gname, vm));
            }
            None
        },
    }
}

/// Dispatches a resolved function to its operation. For a user-defined
/// function the arguments are prepared first and the invocation runs in a
/// child frame.
pub fn execute(state: &mut State, function: Function, args: Vec<LispValue>, fuel: u64) -> (r:
    Option<LispValue>)
    requires
        old(state).wf(),
    ensures
        final(state).wf(),
        evolves(*old(state), *final(state)),
        (match r {
            Some(v) => !(v@ is Call),
            None => true,
        }),
        (final(state)@, m_opt(r)) == m_eval_dispatch(
            old(state)@,
            function@,
            views_of(args@),
            fuel,
        ),
    decreases fuel, models_size(views_of(args@)), 4int,
{
    match function {
        Function::Add => crate::eval::add(state, args, fuel),
        Function::Sub => crate::eval::sub(state, args, fuel),
        Function::Mul => crate::eval::mul(state, args, fuel),
        Function::Div => div(state, args, fuel),
        Function::Grater => grater_then(state, args, fuel),
        Function::GraterOrEquals => grater_or_equals_then(state, args, fuel),
        Function::Less => less_then(state, args, fuel),
        Function::LessOrEquals => less_or_equals_then(state, args, fuel),
        Function::Equals => equals(state, args, fuel),
        Function::NotEquals => not_equals(state, args, fuel),
        Function::Or => or(state, args, fuel),
        Function::And => and(state, args, fuel),
        Function::Not => not(state, args, fuel),
        Function::Print => print(state, args, fuel),
        Function::Defvar => define_var(state, args, fuel),
        Function::Defun => create_custom_function(state, args, fuel),
        Function::Custom(parameters, code) => {
            let mut prepared = args;
            prepare_execution(state, &mut prepared, fuel);
            let ghost mid = *state;
            let r = execute_custom_function(state, prepared, parameters, code, fuel);
            proof {
                lemma_evolves_trans(*old(state), mid, *state);
            }
            r
        },
    }
}

/// Resolves `function_name` in the current environment and runs the resolved
/// function on `arguments`; an unbound name is a silent no-op.
pub fn execute_function(
    state: &mut State,
    function_name: &str,
    arguments: Vec<LispValue>,
    fuel: u64,
) -> (r: Option<LispValue>)
    requires
        old(state).wf(),
    ensures
        final(state).wf(),
        evolves(*old(state), *final(state)),
        (match r {
            Some(v) => !(v@ is Call),
            None => true,
        }),
        spec_lookup_fun(old(state).scopes@, function_name@) is None ==> (r is None && *final(state) == *old(state)),
        (final(state)@, m_opt(r)) == m_eval_call(
            old(state)@,
            function_name@,
            views_of(arguments@),
            fuel,
        ),
    decreases fuel, models_size(views_of(arguments@)), 5int,
{
    let function = state.get_function(function_name);
    match function {
        Some(f) => execute(state, f, arguments, fuel),
        None => None,
    }
}

/// The builtin table of the root frame: the operator names, the spelled
/// aliases (each naming the matching operator), the comparisons, the logical
/// operations, printing and the declaration forms.
pub open spec fn spec_builtin_table() -> Seq<(Seq<char>, FunctionModel)> {
    seq![
        ("+"@, FunctionModel::Add),
        ("-"@, FunctionModel::Sub),
        ("*"@, FunctionModel::Mul),
        ("/"@, FunctionModel::Div),
        (">"@, FunctionModel::Grater),
        (">="@, FunctionModel::GraterOrEquals),
        ("<"@, FunctionModel::Less),
        ("<="@, FunctionModel::LessOrEquals),
        ("="@, FunctionModel::Equals),
        ("/="@, FunctionModel::NotEquals),
        ("or"@, FunctionModel::Or),
        ("and"@, FunctionModel::And),
        ("not"@, FunctionModel::Not),
        ("add"@, FunctionModel::Add),
        ("sub"@, FunctionModel::Sub),
        ("mul"@, FunctionModel::Mul),
        ("div"@, FunctionModel::Div),
        ("print"@, FunctionModel::Print),
        ("defvar"@, FunctionModel::Defvar),
        ("defun"@, FunctionModel::Defun),
    ]
}

/// A fresh run's starting state: one root frame holding the builtin table,
/// no variables, no output.
pub open spec fn spec_initial_state() -> StateModel {
    StateModel {
        scopes: seq![
            ScopeModel { variables: Seq::empty(), functions: spec_builtin_table() },
        ],
        out: Seq::empty(),
    }
}

/// Seeds the root frame with the builtin table, exactly as
/// `spec_initial_state` describes for a fresh state.
#[verifier::rlimit(100)]
fn initialize_functions(state: &mut State)
    requires
        old(state).wf(),
        old(state).scopes@.len() == 1,
        old(state).scopes@[0].functions@.len() == 0,
        old(state).scopes@[0].variables@.len() == 0,
        old(state).out@.len() == 0,
    ensures
        final(state).wf(),
        final(state).scopes@.len() == 1,
        final(state).out == old(state).out,
        final(state).scopes@[0].variables == old(state).scopes@[0].variables,
        final(state)@ == spec_initial_state(),
{
    state.add_function(String::from_str("+"), Function::Add);
    state.add_function(String::from_str("-"), Function::Sub);
    state.add_function(String::from_str("*"), Function::Mul);
    state.add_function(String::from_str("/"), Function::Div);
    state.add_function(String::from_str(">"), Function::Grater);
    state.add_function(String::from_str(">="), Function::GraterOrEquals);
    state.add_function(String::from_str("<"), Function::Less);
    state.add_function(String::from_str("<="), Function::LessOrEquals);
    state.add_function(String::from_str("="), Function::Equals);
    state.add_function(String::from_str("/="), Function::NotEquals);
    state.add_function(String::from_str("or"), Function::Or);
    state.add_function(String::from_str("and"), Function::And);
    state.add_function(String::from_str("not"), Function::Not);
    state.add_function(String::from_str("add"), Function::Add);
    state.add_function(String::from_str("sub"), Function::Sub);
    state.add_function(String::from_str("mul"), Function::Mul);
    state.add_function(String::from_str("div"), Function::Div);
    state.add_function(String::from_str("print"), Function::Print);
    state.add_function(String::from_str("defvar"), Function::Defvar);
    state.add_function(String::from_str("defun"), Function::Defun);
    proof {
        broadcast use crate::state::group_state_axioms;

        assert(state.scopes@.last() == state.scopes@[0]);
        assert(crate::state::var_entries_of(state.scopes@[0].variables@) =~= Seq::<(Seq<char>,
            ValueModel,
        )>::empty());
        assert forall|k: int|
            0 <= k < 20 implies crate::state::fun_entries_of(state.scopes@[0].functions@)[k]
            == spec_builtin_table()[k] by {
            crate::state::lemma_fun_entries_of_index(state.scopes@[0].functions@, k);
        }
        assert(crate::state::fun_entries_of(state.scopes@[0].functions@)
            =~= spec_builtin_table());
        assert(state@.scopes =~= spec_initial_state().scopes) by {
            crate::state::lemma_scopes_of_len(state.scopes@);
            crate::state::lemma_scopes_of_index(state.scopes@, 0int);
            assert(state.scopes@[0]@ =~= spec_initial_state().scopes[0]);
        }
        assert(state.out@ =~= Seq::<char>::empty());
        assert(state@ == spec_initial_state());
    }
}

/// Parses the source text and evaluates each top-level call against a fresh
/// root environment seeded with the builtin table; the output the program
/// printed is returned. A syntax error is surfaced instead of being
/// swallowed.
pub fn run(code: &str) -> (r: Result<String, ParserError>)
    ensures
        (spec_parse(code@) is Ok <==> r is Ok),
        (match r {
            Err(e) => spec_parse(code@) == Err::<Seq<ValueModel>, (Seq<char>, int)>(
                (e.description@, e.position as int),
            ),
            Ok(out) => (match spec_parse(code@) {
                Ok(program) => out@ == m_body(
                    spec_initial_state(),
                    program,
                    MAX_CALL_DEPTH,
                ).0.out,
                Err(_) => false,
            }),
        }),
{
    let forms = match crate::parser::parse(code) {
        Ok(f) => f,
        Err(e) => {
            return Err(e);
        },
    };
    let ghost program = views_of(forms@);
    let mut state = State::new();
    initialize_functions(&mut state);
    let mut forms = forms;
    proof {
        assert(state@ == spec_initial_state());
    }
    while forms.len() > 0
        invariant
            state.wf(),
            m_body(spec_initial_state(), program, MAX_CALL_DEPTH).0 == m_body(
                state@,
                views_of(forms@),
                MAX_CALL_DEPTH,
            ).0,
        decreases forms@.len(),
    {
        let ghost before = forms@;
        let ghost st_head = state@;
        proof {
            broadcast use crate::value::lemma_views_of_len, crate::value::lemma_views_of_index;

            crate::value::lemma_views_of_drop_first(before);
        }
        let form = forms.remove(0);
        let ghost fm = form@;
        proof {
            assert(fm == views_of(before)[0]);
            assert(views_of(forms@) == views_of(before).drop_first());
            if form is Function {
                lemma_view_call(&form);
            }
        }
        match form {
            LispValue::Function(mut arguments) => {
                let ghost inner0 = arguments@;
                if arguments.len() > 0 {
                    let head = arguments.remove(0);
                    proof {
                        broadcast use
                            crate::value::lemma_views_of_len,
                            crate::value::lemma_views_of_index,
                        ;

                        assert(head == inner0[0]);
                        assert(arguments@ =~= inner0.drop_first());
                        crate::value::lemma_views_of_drop_first(inner0);
                        crate::value::lemma_views_of_index(inner0, 0int);
                    }
                    match head {
                        LispValue::Name(name) => {
                            let ghost mid = state;
                            let _ = execute_function(
                                &mut state,
                                name.as_str(),
                                arguments,
                                MAX_CALL_DEPTH,
                            );
                            proof {
                                assert(fm->Call_0 == views_of(inner0));
                                assert(views_of(inner0)[0] == ValueModel::Name(name@));
                                assert(is_wf_call(fm));
                                assert(views_of(inner0).drop_first() == views_of(
                                    inner0.drop_first(),
                                ));
                                assert(m_eval_call(
                                    mid@,
                                    name@,
                                    views_of(inner0.drop_first()),
                                    MAX_CALL_DEPTH,
                                ).0 == state@);
                                assert(m_body(st_head, views_of(before), MAX_CALL_DEPTH).0
                                    == m_body(state@, views_of(forms@), MAX_CALL_DEPTH).0);
                            }
                        },
                        _ => {
                            proof {
                                assert(!(views_of(inner0)[0] is Name)) by {
                                    match head {
                                        LispValue::Name(_) => {
                                            assert(false);
                                        },
                                        _ => {},
                                    }
                                }
                                assert(fm->Call_0 == views_of(inner0));
                                assert(!is_wf_call(fm));
                            }
                        },
                    }
                } else {
                    proof {
                        broadcast use crate::value::lemma_views_of_len;

                        assert(fm->Call_0 == views_of(inner0));
                        assert(views_of(inner0).len() == 0);
                        assert(!is_wf_call(fm));
                    }
                }
            },
            _ => {
                proof {
                    assert(!(fm is Call)) by {
                        match form {
                            LispValue::Function(_) => {
                                assert(false);
                            },
                            _ => {},
                        }
                    }
                    assert(!is_wf_call(fm));
                }
            },
        }
    }
    proof {
        broadcast use crate::value::lemma_views_of_len;

        assert(views_of(forms@).len() == 0);
        assert(m_body(state@, views_of(forms@), MAX_CALL_DEPTH).0 == state@);
    }
    Ok(state.out)
}

} // verus!
