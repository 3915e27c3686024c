//! Type unification over an argument list and the lossy, total coercions into
//! one scalar type.
//!
//! The unified type is the left fold of a lattice step over the argument
//! list: integers stay integers, a float widens an integer run to floats,
//! strings absorb everything, booleans mix only with booleans, and names and
//! calls pass the accumulator through untouched. Coercion then keeps or
//! textually converts the values that fit the target type and silently drops
//! the rest.

use vstd::prelude::*;

use crate::numbers::int_text;
use crate::state::names_of;
use crate::value::{views_of, LispValue, ValueModel};

verus! {

broadcast use crate::value::group_value_axioms;

/// The scalar type a heterogeneous argument list is unified to before a
/// builtin operation runs; `Unknown` is the fold's starting point and the
/// outcome for an empty list.
#[derive(Clone, Copy, Debug, PartialEq, Eq, Structural)]
pub enum Type {
    Unknown,
    Int,
    Float,
    Boolean,
    Str,
}

/// One step of the type lattice fold.
pub open spec fn spec_value_type(last: Type, v: ValueModel) -> Type {
    match v {
        ValueModel::Int(_) => match last {
            Type::Unknown | Type::Int => Type::Int,
            Type::Boolean | Type::Str => Type::Str,
            _ => last,
        },
        ValueModel::Float(_) => match last {
            Type::Int | Type::Float | Type::Unknown => Type::Float,
            _ => Type::Str,
        },
        ValueModel::Boolean(_) => match last {
            Type::Unknown | Type::Boolean => Type::Boolean,
            _ => Type::Str,
        },
        ValueModel::Str(_) => Type::Str,
        ValueModel::Name(_) | ValueModel::Call(_) => last,
    }
}

/// The lattice fold from `acc` over `s`, left to right.
pub open spec fn spec_unify_from(acc: Type, s: Seq<ValueModel>) -> Type
    decreases s.len(),
{
    if s.len() == 0 {
        acc
    } else {
        spec_unify_from(spec_value_type(acc, s[0]), s.drop_first())
    }
}

/// The unified type of an argument list.
pub open spec fn spec_unify(s: Seq<ValueModel>) -> Type {
    spec_unify_from(Type::Unknown, s)
}

proof fn lemma_unify_from_snoc(acc: Type, s: Seq<ValueModel>, i: int)
    requires
        0 <= i < s.len(),
    ensures
        spec_unify_from(acc, s.take(i + 1)) == spec_value_type(
            spec_unify_from(acc, s.take(i)),
            s[i],
        ),
    decreases i,
{
    if i == 0 {
        assert(s.take(1).drop_first() =~= Seq::<ValueModel>::empty());
        assert(s.take(0int) =~= Seq::<ValueModel>::empty());
        assert(s.take(1)[0] == s[0]);
        assert(spec_unify_from(acc, s.take(0int)) == acc);
        assert(spec_unify_from(spec_value_type(acc, s[0]), Seq::<ValueModel>::empty())
            == spec_value_type(acc, s[0]));
    } else {
        assert(s.take(i + 1).drop_first() =~= s.drop_first().take(i));
        assert(s.take(i).drop_first() =~= s.drop_first().take(i - 1));
        assert(s.take(i + 1)[0] == s[0]);
        assert(s.take(i)[0] == s[0]);
        lemma_unify_from_snoc(spec_value_type(acc, s[0]), s.drop_first(), i - 1);
        assert(s.drop_first()[i - 1] == s[i]);
        assert(spec_unify_from(acc, s.take(i + 1)) == spec_unify_from(
            spec_value_type(acc, s[0]),
            s.drop_first().take(i),
        ));
        assert(spec_unify_from(acc, s.take(i)) == spec_unify_from(
            spec_value_type(acc, s[0]),
            s.drop_first().take(i - 1),
        ));
    }
}

/// One step of the lattice, exactly as `spec_value_type` describes.
pub fn get_value_type(last: Type, value: &LispValue) -> (r: Type)
    ensures
        r == spec_value_type(last, value@),
{
    match value {
        LispValue::Int(_) => match last {
            Type::Unknown | Type::Int => Type::Int,
            Type::Boolean | Type::Str => Type::Str,
            _ => last,
        },
        LispValue::Float(_) => match last {
            Type::Int | Type::Float | Type::Unknown => Type::Float,
            _ => Type::Str,
        },
        LispValue::Boolean(_) => match last {
            Type::Unknown | Type::Boolean => Type::Boolean,
            _ => Type::Str,
        },
        LispValue::Str(_) => Type::Str,
        LispValue::Name(_) | LispValue::Function(_) => last,
    }
}

/// The unified type of `args`, exactly as `spec_unify` describes.
#[verifier::loop_isolation(false)]
pub fn get_args_unified_type(args: &Vec<LispValue>) -> (r: Type)
    ensures
        r == spec_unify(views_of(args@)),
{
    let ghost vs = views_of(args@);
    let mut value_type = Type::Unknown;
    let mut i: usize = 0;
    proof {
        assert(vs.take(0int) =~= Seq::<ValueModel>::empty());
    }
    while i < args.len()
        invariant
            i <= args@.len(),
            value_type == spec_unify_from(Type::Unknown, vs.take(i as int)),
        decreases args@.len() - i,
    {
        proof {
            lemma_unify_from_snoc(Type::Unknown, vs, i as int);
        }
        value_type = get_value_type(value_type, &args[i]);
        i = i + 1;
    }
    proof {
        assert(vs.take(args@.len() as int) =~= vs);
    }
    value_type
}

/// The integers of a value list, in order; other values are dropped.
pub open spec fn spec_ints_of(s: Seq<ValueModel>) -> Seq<i64>
    decreases s.len(),
{
    if s.len() == 0 {
        Seq::empty()
    } else {
        let rest = spec_ints_of(s.drop_first());
        match s[0] {
            ValueModel::Int(i) => seq![i as i64] + rest,
            _ => rest,
        }
    }
}

/// The decimal texts of the numbers of a value list, in order: a float keeps
/// its text, an integer is widened to its decimal text; other values are
/// dropped.
pub open spec fn spec_floats_of(s: Seq<ValueModel>) -> Seq<Seq<char>>
    decreases s.len(),
{
    if s.len() == 0 {
        Seq::empty()
    } else {
        let rest = spec_floats_of(s.drop_first());
        match s[0] {
            ValueModel::Int(i) => seq![int_text(i)] + rest,
            ValueModel::Float(t) => seq![t] + rest,
            _ => rest,
        }
    }
}

/// The booleans of a value list, in order; other values are dropped.
pub open spec fn spec_bools_of(s: Seq<ValueModel>) -> Seq<bool>
    decreases s.len(),
{
    if s.len() == 0 {
        Seq::empty()
    } else {
        let rest = spec_bools_of(s.drop_first());
        match s[0] {
            ValueModel::Boolean(b) => seq![b] + rest,
            _ => rest,
        }
    }
}

/// The texts of a value list, in order: a string passes through, a number or
/// boolean is formatted; names and calls are dropped.
pub open spec fn spec_strings_of(s: Seq<ValueModel>) -> Seq<Seq<char>>
    decreases s.len(),
{
    if s.len() == 0 {
        Seq::empty()
    } else {
        let rest = spec_strings_of(s.drop_first());
        match s[0] {
            ValueModel::Int(i) => seq![int_text(i)] + rest,
            ValueModel::Float(t) => seq![t] + rest,
            ValueModel::Boolean(b) => if b {
                seq!["true"@] + rest
            } else {
                seq!["false"@] + rest
            },
            ValueModel::Str(t) => seq![t] + rest,
            ValueModel::Name(_) | ValueModel::Call(_) => rest,
        }
    }
}

proof fn lemma_ints_of_snoc(s: Seq<ValueModel>, i: int)
    requires
        0 <= i < s.len(),
    ensures
        spec_ints_of(s.take(i + 1)) == spec_ints_of(s.take(i)) + (match s[i] {
            ValueModel::Int(n) => seq![n as i64],
            _ => Seq::<i64>::empty(),
        }),
    decreases i,
{
    if i == 0 {
        assert(s.take(1).drop_first() =~= Seq::<ValueModel>::empty());
        assert(s.take(0int) =~= Seq::<ValueModel>::empty());
        assert(s.take(1)[0] == s[0]);
        assert(spec_ints_of(s.take(1)) =~= spec_ints_of(s.take(0int)) + (match s[0] {
            ValueModel::Int(n) => seq![n as i64],
            _ => Seq::<i64>::empty(),
        }));
    } else {
        assert(s.take(i + 1).drop_first() =~= s.drop_first().take(i));
        assert(s.take(i).drop_first() =~= s.drop_first().take(i - 1));
        assert(s.take(i + 1)[0] == s[0]);
        assert(s.take(i)[0] == s[0]);
        lemma_ints_of_snoc(s.drop_first(), i - 1);
        assert(s.drop_first()[i - 1] == s[i]);
        assert(spec_ints_of(s.take(i + 1)) =~= spec_ints_of(s.take(i)) + (match s[i] {
            ValueModel::Int(n) => seq![n as i64],
            _ => Seq::<i64>::empty(),
        }));
    }
}

/// Keeps the integer values of `array`, exactly as `spec_ints_of` describes;
/// any other value is silently dropped.
#[verifier::loop_isolation(false)]
pub fn convert_to_int_array(array: Vec<LispValue>) -> (r: Vec<i64>)
    ensures
        r@ == spec_ints_of(views_of(array@)),
{
    let ghost vs = views_of(array@);
    let mut r: Vec<i64> = Vec::new();
    let mut i: usize = 0;
    proof {
        assert(vs.take(0int) =~= Seq::<ValueModel>::empty());
    }
    while i < array.len()
        invariant
            i <= array@.len(),
            r@ == spec_ints_of(vs.take(i as int)),
        decreases array@.len() - i,
    {
        proof {
            lemma_ints_of_snoc(vs, i as int);
        }
        match &array[i] {
            LispValue::Int(n) => {
                r.push(*n);
            },
            _ => {},
        }
        i = i + 1;
    }
    proof {
        assert(vs.take(array@.len() as int) =~= vs);
    }
    r
}

proof fn lemma_floats_of_snoc(s: Seq<ValueModel>, i: int)
    requires
        0 <= i < s.len(),
    ensures
        spec_floats_of(s.take(i + 1)) == spec_floats_of(s.take(i)) + (match s[i] {
            ValueModel::Int(n) => seq![int_text(n)],
            ValueModel::Float(t) => seq![t],
            _ => Seq::<Seq<char>>::empty(),
        }),
    decreases i,
{
    if i == 0 {
        assert(s.take(1).drop_first() =~= Seq::<ValueModel>::empty());
        assert(s.take(0int) =~= Seq::<ValueModel>::empty());
        assert(s.take(1)[0] == s[0]);
        assert(spec_floats_of(s.take(1)) =~= spec_floats_of(s.take(0int)) + (match s[0] {
            ValueModel::Int(n) => seq![int_text(n)],
            ValueModel::Float(t) => seq![t],
            _ => Seq::<Seq<char>>::empty(),
        }));
    } else {
        assert(s.take(i + 1).drop_first() =~= s.drop_first().take(i));
        assert(s.take(i).drop_first() =~= s.drop_first().take(i - 1));
        assert(s.take(i + 1)[0] == s[0]);
        assert(s.take(i)[0] == s[0]);
        lemma_floats_of_snoc(s.drop_first(), i - 1);
        assert(s.drop_first()[i - 1] == s[i]);
        assert(spec_floats_of(s.take(i + 1)) =~= spec_floats_of(s.take(i)) + (match s[i] {
            ValueModel::Int(n) => seq![int_text(n)],
            ValueModel::Float(t) => seq![t],
            _ => Seq::<Seq<char>>::empty(),
        }));
    }
}

/// Keeps the numbers of `array` as decimal texts, widening integers, exactly
/// as `spec_floats_of` describes; any other value is silently dropped.
#[verifier::loop_isolation(false)]
pub fn convert_to_float_array(array: Vec<LispValue>) -> (r: Vec<String>)
    ensures
        names_of(r@) == spec_floats_of(views_of(array@)),
{
    let ghost vs = views_of(array@);
    let mut r: Vec<String> = Vec::new();
    let mut i: usize = 0;
    proof {
        assert(vs.take(0int) =~= Seq::<ValueModel>::empty());
        assert(names_of(r@) =~= Seq::<Seq<char>>::empty());
    }
    while i < array.len()
        invariant
            i <= array@.len(),
            names_of(r@) == spec_floats_of(vs.take(i as int)),
        decreases array@.len() - i,
    {
        proof {
            lemma_floats_of_snoc(vs, i as int);
        }
        let ghost before = r@;
        match &array[i] {
            LispValue::Int(n) => {
                let text = crate::numbers::i64_to_string(*n);
                proof {
                    crate::state::lemma_names_of_push(before, text);
                }
                r.push(text);
            },
            LispValue::Float(t) => {
                let text = t.clone();
                proof {
                    crate::state::lemma_names_of_push(before, text);
                }
                r.push(text);
            },
            _ => {},
        }
        i = i + 1;
    }
    proof {
        assert(vs.take(array@.len() as int) =~= vs);
    }
    r
}



proof fn lemma_bools_of_snoc(s: Seq<ValueModel>, i: int)
    requires
        0 <= i < s.len(),
    ensures
        spec_bools_of(s.take(i + 1)) == spec_bools_of(s.take(i)) + (match s[i] {
            ValueModel::Boolean(b) => seq![b],
            _ => Seq::<bool>::empty(),
        }),
    decreases i,
{
    if i == 0 {
        assert(s.take(1).drop_first() =~= Seq::<ValueModel>::empty());
        assert(s.take(0int) =~= Seq::<ValueModel>::empty());
        assert(s.take(1)[0] == s[0]);
        assert(spec_bools_of(s.take(1)) =~= spec_bools_of(s.take(0int)) + (match s[0] {
            ValueModel::Boolean(b) => seq![b],
            _ => Seq::<bool>::empty(),
        }));
    } else {
        assert(s.take(i + 1).drop_first() =~= s.drop_first().take(i));
        assert(s.take(i).drop_first() =~= s.drop_first().take(i - 1));
        assert(s.take(i + 1)[0] == s[0]);
        assert(s.take(i)[0] == s[0]);
        lemma_bools_of_snoc(s.drop_first(), i - 1);
        assert(s.drop_first()[i - 1] == s[i]);
        assert(spec_bools_of(s.take(i + 1)) =~= spec_bools_of(s.take(i)) + (match s[i] {
            ValueModel::Boolean(b) => seq![b],
            _ => Seq::<bool>::empty(),
        }));
    }
}

/// Keeps the booleans of `array`, exactly as `spec_bools_of` describes; any
/// other value is silently dropped.
#[verifier::loop_isolation(false)]
pub fn convert_to_boolean_array(array: Vec<LispValue>) -> (r: Vec<bool>)
    ensures
        r@ == spec_bools_of(views_of(array@)),
{
    let ghost vs = views_of(array@);
    let mut r: Vec<bool> = Vec::new();
    let mut i: usize = 0;
    proof {
        assert(vs.take(0int) =~= Seq::<ValueModel>::empty());
    }
    while i < array.len()
        invariant
            i <= array@.len(),
            r@ == spec_bools_of(vs.take(i as int)),
        decreases array@.len() - i,
    {
        proof {
            lemma_bools_of_snoc(vs, i as int);
        }
        match &array[i] {
            LispValue::Boolean(b) => {
                r.push(*b);
            },
            _ => {},
        }
        i = i + 1;
    }
    proof {
        assert(vs.take(array@.len() as int) =~= vs);
    }
    r
}

proof fn lemma_strings_of_snoc(s: Seq<ValueModel>, i: int)
    requires
        0 <= i < s.len(),
    ensures
        spec_strings_of(s.take(i + 1)) == spec_strings_of(s.take(i)) + (match s[i] {
            ValueModel::Int(n) => seq![int_text(n)],
            ValueModel::Float(t) => seq![t],
            ValueModel::Boolean(b) => if b {
                seq!["true"@]
            } else {
                seq!["false"@]
            },
            ValueModel::Str(t) => seq![t],
            ValueModel::Name(_) | ValueModel::Call(_) => Seq::<Seq<char>>::empty(),
        }),
    decreases i,
{
    if i == 0 {
        assert(s.take(1).drop_first() =~= Seq::<ValueModel>::empty());
        assert(s.take(0int) =~= Seq::<ValueModel>::empty());
        assert(s.take(1)[0] == s[0]);
        assert(spec_strings_of(s.take(1)) =~= spec_strings_of(s.take(0int)) + (match s[0] {
            ValueModel::Int(n) => seq![int_text(n)],
            ValueModel::Float(t) => seq![t],
            ValueModel::Boolean(b) => if b {
                seq!["true"@]
            } else {
                seq!["false"@]
            },
            ValueModel::Str(t) => seq![t],
            ValueModel::Name(_) | ValueModel::Call(_) => Seq::<Seq<char>>::empty(),
        }));
    } else {
        assert(s.take(i + 1).drop_first() =~= s.drop_first().take(i));
        assert(s.take(i).drop_first() =~= s.drop_first().take(i - 1));
        assert(s.take(i + 1)[0] == s[0]);
        assert(s.take(i)[0] == s[0]);
        lemma_strings_of_snoc(s.drop_first(), i - 1);
        assert(s.drop_first()[i - 1] == s[i]);
        assert(spec_strings_of(s.take(i + 1)) =~= spec_strings_of(s.take(i)) + (match s[i] {
            ValueModel::Int(n) => seq![int_text(n)],
            ValueModel::Float(t) => seq![t],
            ValueModel::Boolean(b) => if b {
                seq!["true"@]
            } else {
                seq!["false"@]
            },
            ValueModel::Str(t) => seq![t],
            ValueModel::Name(_) | ValueModel::Call(_) => Seq::<Seq<char>>::empty(),
        }));
    }
}

/// Formats the values of `array` as texts, exactly as `spec_strings_of`
/// describes; names and calls are silently dropped.
#[verifier::loop_isolation(false)]
pub fn convert_to_string_array(array: Vec<LispValue>) -> (r: Vec<String>)
    ensures
        names_of(r@) == spec_strings_of(views_of(array@)),
{
    let ghost vs = views_of(array@);
    let mut r: Vec<String> = Vec::new();
    let mut i: usize = 0;
    proof {
        assert(vs.take(0int) =~= Seq::<ValueModel>::empty());
        assert(names_of(r@) =~= Seq::<Seq<char>>::empty());
    }
    while i < array.len()
        invariant
            i <= array@.len(),
            names_of(r@) == spec_strings_of(vs.take(i as int)),
        decreases array@.len() - i,
    {
        proof {
            lemma_strings_of_snoc(vs, i as int);
        }
        let ghost before = r@;
        match &array[i] {
            LispValue::Int(n) => {
                let text = crate::numbers::i64_to_string(*n);
                proof {
                    crate::state::lemma_names_of_push(before, text);
                }
                r.push(text);
            },
            LispValue::Float(t) => {
                let text = t.clone();
                proof {
                    crate::state::lemma_names_of_push(before, text);
                }
                r.push(text);
            },
            LispValue::Boolean(b) => {
                let text = if *b {
                    String::from_str("true")
                } else {
                    String::from_str("false")
                };
                proof {
                    crate::state::lemma_names_of_push(before, text);
                }
                r.push(text);
            },
            LispValue::Str(t) => {
                let text = t.clone();
                proof {
                    crate::state::lemma_names_of_push(before, text);
                }
                r.push(text);
            },
            LispValue::Name(_) | LispValue::Function(_) => {},
        }
        i = i + 1;
    }
    proof {
        assert(vs.take(array@.len() as int) =~= vs);
    }
    r
}

/// The unified type of a list of integers and floats that holds a float is
/// `Float`; of a nonempty list of integers alone, `Int`; a string anywhere
/// makes it `Str`.
pub proof fn lemma_unified_type_of_numbers(s: Seq<ValueModel>)
    ensures
        (forall|i: int|
            0 <= i < s.len() ==> ((#[trigger] s[i]) is Int || s[i] is Float)) && (exists|i: int|
            0 <= i < s.len() && (#[trigger] s[i]) is Float) ==> spec_unify(s) == Type::Float,
        s.len() > 0 && (forall|i: int| 0 <= i < s.len() ==> (#[trigger] s[i]) is Int)
            ==> spec_unify(s) == Type::Int,
        (exists|i: int| 0 <= i < s.len() && (#[trigger] s[i]) is Str) ==> spec_unify(s)
            == Type::Str,
{
    lemma_unify_from_numbers(Type::Unknown, s);
}

proof fn lemma_unify_from_numbers(acc: Type, s: Seq<ValueModel>)
    ensures
        (acc == Type::Unknown || acc == Type::Int || acc == Type::Float) && (forall|i: int|
            0 <= i < s.len() ==> ((#[trigger] s[i]) is Int || s[i] is Float)) && (acc == Type::Float
            || exists|i: int| 0 <= i < s.len() && (#[trigger] s[i]) is Float) ==> spec_unify_from(
            acc,
            s,
        ) == Type::Float,
        (acc == Type::Unknown || acc == Type::Int) && (acc == Type::Int || s.len() > 0) && (
        forall|i: int| 0 <= i < s.len() ==> (#[trigger] s[i]) is Int) ==> spec_unify_from(acc, s)
            == Type::Int,
        acc == Type::Str ==> spec_unify_from(acc, s) == Type::Str,
        (exists|i: int| 0 <= i < s.len() && (#[trigger] s[i]) is Str) ==> spec_unify_from(acc, s)
            == Type::Str,
    decreases s.len(),
{
    if s.len() > 0 {
        let acc2 = spec_value_type(acc, s[0]);
        let rest = s.drop_first();
        lemma_unify_from_numbers(acc2, rest);
        assert forall|j: int| 0 <= j < rest.len() implies rest[j] == s[j + 1] by {}
        if (acc == Type::Unknown || acc == Type::Int || acc == Type::Float) && (forall|i: int|
            0 <= i < s.len() ==> ((#[trigger] s[i]) is Int || s[i] is Float)) && (acc
            == Type::Float || exists|i: int| 0 <= i < s.len() && (#[trigger] s[i]) is Float) {
            assert(s[0] is Int || s[0] is Float);
            assert(forall|j: int|
                0 <= j < rest.len() ==> ((#[trigger] rest[j]) is Int || rest[j] is Float));
            if acc2 != Type::Float {
                assert(acc2 == Type::Int);
                let i0 = choose|i: int| 0 <= i < s.len() && (#[trigger] s[i]) is Float;
                assert(rest[i0 - 1] is Float);
            }
            assert(spec_unify_from(acc, s) == Type::Float);
        }
        if (acc == Type::Unknown || acc == Type::Int) && (forall|i: int|
            0 <= i < s.len() ==> (#[trigger] s[i]) is Int) {
            assert(s[0] is Int);
            assert(acc2 == Type::Int);
            assert(forall|j: int| 0 <= j < rest.len() ==> (#[trigger] rest[j]) is Int);
            assert(spec_unify_from(acc, s) == Type::Int);
        }
        if exists|i: int| 0 <= i < s.len() && (#[trigger] s[i]) is Str {
            if s[0] is Str {
                assert(acc2 == Type::Str);
            } else {
                let i0 = choose|i: int| 0 <= i < s.len() && (#[trigger] s[i]) is Str;
                assert(rest[i0 - 1] is Str);
            }
            assert(spec_unify_from(acc, s) == Type::Str);
        }
    }
}

} // verus!
