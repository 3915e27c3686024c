//! The builtin operation library: arithmetic folds, comparison chains, and
//! the textual rendering behind printing.
//!
//! Integer operations use checked 64-bit arithmetic and yield nothing on
//! overflow or on division by zero. Float operations fold the decimal-text
//! operations of `decimal` and yield nothing as soon as one of them does.
//! Comparisons require a strictly monotonic or all-equal chain across
//! adjacent elements; distinctness is a check across every pair.

use vstd::prelude::*;

use crate::state::names_of;
use crate::decimal::{
    dec_add, dec_add_text, dec_div, dec_div_text, dec_eq, dec_eq_text, dec_lt, dec_lt_text,
    dec_mul, dec_mul_text, dec_sub, dec_sub_text,
};

verus! {

broadcast use crate::state::lemma_names_of_len, crate::state::lemma_names_of_index;

/// The four arithmetic operators.
#[derive(Clone, Copy, Debug, PartialEq, Eq, Structural)]
pub enum ArithOp {
    Add,
    Sub,
    Mul,
    Div,
}

/// One checked step of 64-bit arithmetic: nothing on overflow or on a zero
/// divisor.
pub open spec fn spec_int_step(op: ArithOp, a: i64, b: i64) -> Option<i64> {
    match op {
        ArithOp::Add => a.checked_add(b),
        ArithOp::Sub => a.checked_sub(b),
        ArithOp::Mul => a.checked_mul(b),
        ArithOp::Div => a.checked_div(b),
    }
}

/// The left fold of `op` from `acc` over `s`; nothing as soon as a step
/// yields nothing.
pub open spec fn spec_int_fold(op: ArithOp, acc: i64, s: Seq<i64>) -> Option<i64>
    decreases s.len(),
{
    if s.len() == 0 {
        Some(acc)
    } else {
        match spec_int_step(op, acc, s[0]) {
            None => None,
            Some(x) => spec_int_fold(op, x, s.drop_first()),
        }
    }
}

/// The fold of `op` over `s` from its first element; an empty list yields the
/// neutral element 0.
pub open spec fn spec_int_arith(op: ArithOp, s: Seq<i64>) -> Option<i64> {
    if s.len() == 0 {
        Some(0i64)
    } else {
        spec_int_fold(op, s[0], s.drop_first())
    }
}

fn int_step(op: ArithOp, a: i64, b: i64) -> (r: Option<i64>)
    ensures
        r == spec_int_step(op, a, b),
{
    match op {
        ArithOp::Add => a.checked_add(b),
        ArithOp::Sub => a.checked_sub(b),
        ArithOp::Mul => a.checked_mul(b),
        ArithOp::Div => a.checked_div(b),
    }
}

/// Folds `op` over the integers, exactly as `spec_int_arith` describes.
#[verifier::loop_isolation(false)]
pub fn perform_arith_int(op: ArithOp, numbers: &Vec<i64>) -> (r: Option<i64>)
    ensures
        r == spec_int_arith(op, numbers@),
{
    if numbers.len() == 0 {
        return Some(0);
    }
    let mut acc = numbers[0];
    let mut i: usize = 1;
    proof {
        assert(numbers@.skip(1) =~= numbers@.drop_first());
    }
    while i < numbers.len()
        invariant
            1 <= i <= numbers@.len(),
            spec_int_arith(op, numbers@) == spec_int_fold(op, acc, numbers@.skip(i as int)),
        decreases numbers@.len() - i,
    {
        proof {
            assert(numbers@.skip(i as int).drop_first() =~= numbers@.skip(i + 1));
            assert(numbers@.skip(i as int)[0] == numbers@[i as int]);
        }
        match int_step(op, acc, numbers[i]) {
            None => {
                return None;
            },
            Some(x) => {
                acc = x;
            },
        }
        i = i + 1;
    }
    proof {
        assert(numbers@.skip(numbers@.len() as int) =~= Seq::<i64>::empty());
    }
    Some(acc)
}

/// The checked sum of the integers, left to right; 0 for an empty list.
pub fn perform_add(numbers: &Vec<i64>) -> (r: Option<i64>)
    ensures
        r == spec_int_arith(ArithOp::Add, numbers@),
{
    perform_arith_int(ArithOp::Add, numbers)
}

/// The checked difference of the integers, left to right; 0 for an empty
/// list.
pub fn perform_sub(numbers: &Vec<i64>) -> (r: Option<i64>)
    ensures
        r == spec_int_arith(ArithOp::Sub, numbers@),
{
    perform_arith_int(ArithOp::Sub, numbers)
}

/// The checked product of the integers, left to right; 0 for an empty list.
pub fn perform_mul(numbers: &Vec<i64>) -> (r: Option<i64>)
    ensures
        r == spec_int_arith(ArithOp::Mul, numbers@),
{
    perform_arith_int(ArithOp::Mul, numbers)
}

/// The checked quotient of the integers, left to right; 0 for an empty list
/// and nothing on a zero divisor.
pub fn perform_div(numbers: &Vec<i64>) -> (r: Option<i64>)
    ensures
        r == spec_int_arith(ArithOp::Div, numbers@),
{
    perform_arith_int(ArithOp::Div, numbers)
}

/// A strictly decreasing chain across adjacent elements; false for an empty
/// list.
pub open spec fn spec_chain_gt(s: Seq<i64>) -> bool {
    s.len() > 0 && forall|i: int| 0 <= i < s.len() - 1 ==> #[trigger] s[i] > s[i + 1]
}

/// A strictly increasing chain across adjacent elements; false for an empty
/// list.
pub open spec fn spec_chain_lt(s: Seq<i64>) -> bool {
    s.len() > 0 && forall|i: int| 0 <= i < s.len() - 1 ==> #[trigger] s[i] < s[i + 1]
}

/// All elements equal; false for an empty list.
pub open spec fn spec_chain_eq(s: Seq<i64>) -> bool {
    s.len() > 0 && forall|i: int| 0 <= i < s.len() - 1 ==> #[trigger] s[i] == s[i + 1]
}

/// All elements pairwise distinct — a property of the set of elements, not of
/// their order; false for an empty list.
pub open spec fn spec_distinct(s: Seq<i64>) -> bool {
    s.len() > 0 && forall|i: int, j: int| 0 <= i < j < s.len() ==> s[i] != s[j]
}

/// Whether the integers form a strictly decreasing chain, exactly as
/// `spec_chain_gt` describes.
#[verifier::loop_isolation(false)]
pub fn perform_grater_then(arguments: &Vec<i64>) -> (r: bool)
    ensures
        r == spec_chain_gt(arguments@),
{
    if arguments.len() == 0 {
        return false;
    }
    let mut i: usize = 0;
    while i + 1 < arguments.len()
        invariant
            i < arguments@.len(),
            forall|k: int| 0 <= k < i ==> #[trigger] arguments@[k] > arguments@[k + 1],
        decreases arguments@.len() - i,
    {
        if arguments[i] <= arguments[i + 1] {
            return false;
        }
        i = i + 1;
    }
    true
}

/// Whether the integers form a strictly increasing chain, exactly as
/// `spec_chain_lt` describes.
#[verifier::loop_isolation(false)]
pub fn perform_less_then(arguments: &Vec<i64>) -> (r: bool)
    ensures
        r == spec_chain_lt(arguments@),
{
    if arguments.len() == 0 {
        return false;
    }
    let mut i: usize = 0;
    while i + 1 < arguments.len()
        invariant
            i < arguments@.len(),
            forall|k: int| 0 <= k < i ==> #[trigger] arguments@[k] < arguments@[k + 1],
        decreases arguments@.len() - i,
    {
        if arguments[i] >= arguments[i + 1] {
            return false;
        }
        i = i + 1;
    }
    true
}

/// Whether the integers are all equal, exactly as `spec_chain_eq` describes.
#[verifier::loop_isolation(false)]
pub fn perform_equals(arguments: &Vec<i64>) -> (r: bool)
    ensures
        r == spec_chain_eq(arguments@),
{
    if arguments.len() == 0 {
        return false;
    }
    let mut i: usize = 0;
    while i + 1 < arguments.len()
        invariant
            i < arguments@.len(),
            forall|k: int| 0 <= k < i ==> #[trigger] arguments@[k] == arguments@[k + 1],
        decreases arguments@.len() - i,
    {
        if arguments[i] != arguments[i + 1] {
            return false;
        }
        i = i + 1;
    }
    true
}

/// Whether the integers are pairwise distinct, exactly as `spec_distinct`
/// describes — an O(n²) check over every pair, not only adjacent ones.
#[verifier::loop_isolation(false)]
pub fn perform_not_equals(arguments: &Vec<i64>) -> (r: bool)
    ensures
        r == spec_distinct(arguments@),
{
    if arguments.len() == 0 {
        return false;
    }
    let mut i: usize = 0;
    while i < arguments.len()
        invariant
            i <= arguments@.len(),
            forall|p: int, q: int| 0 <= p < q < arguments@.len() && p < i ==> arguments@[p]
                != arguments@[q],
        decreases arguments@.len() - i,
    {
        let mut j: usize = i + 1;
        while j < arguments.len()
            invariant
                i < j <= arguments@.len() || j == i + 1,
                i < arguments@.len(),
                forall|q: int| i < q < j ==> arguments@[i as int] != #[trigger] arguments@[q],
            decreases arguments@.len() - j,
        {
            if arguments[i] == arguments[j] {
                return false;
            }
            j = j + 1;
        }
        i = i + 1;
    }
    true
}

/// All booleans equal; false for an empty list.
pub open spec fn spec_chain_eq_bool(s: Seq<bool>) -> bool {
    s.len() > 0 && forall|i: int| 0 <= i < s.len() - 1 ==> #[trigger] s[i] == s[i + 1]
}

/// All booleans pairwise distinct; false for an empty list.
pub open spec fn spec_distinct_bool(s: Seq<bool>) -> bool {
    s.len() > 0 && forall|i: int, j: int| 0 <= i < j < s.len() ==> s[i] != s[j]
}

/// Whether the booleans are all equal, exactly as `spec_chain_eq_bool`
/// describes.
#[verifier::loop_isolation(false)]
pub fn perform_equals_bool(arguments: &Vec<bool>) -> (r: bool)
    ensures
        r == spec_chain_eq_bool(arguments@),
{
    if arguments.len() == 0 {
        return false;
    }
    let mut i: usize = 0;
    while i + 1 < arguments.len()
        invariant
            i < arguments@.len(),
            forall|k: int| 0 <= k < i ==> #[trigger] arguments@[k] == arguments@[k + 1],
        decreases arguments@.len() - i,
    {
        if arguments[i] != arguments[i + 1] {
            return false;
        }
        i = i + 1;
    }
    true
}

/// Whether the booleans are pairwise distinct, exactly as
/// `spec_distinct_bool` describes.
#[verifier::loop_isolation(false)]
pub fn perform_not_equals_bool(arguments: &Vec<bool>) -> (r: bool)
    ensures
        r == spec_distinct_bool(arguments@),
{
    if arguments.len() == 0 {
        return false;
    }
    let mut i: usize = 0;
    while i < arguments.len()
        invariant
            i <= arguments@.len(),
            forall|p: int, q: int| 0 <= p < q < arguments@.len() && p < i ==> arguments@[p]
                != arguments@[q],
        decreases arguments@.len() - i,
    {
        let mut j: usize = i + 1;
        while j < arguments.len()
            invariant
                i < j <= arguments@.len() || j == i + 1,
                i < arguments@.len(),
                forall|q: int| i < q < j ==> arguments@[i as int] != #[trigger] arguments@[q],
            decreases arguments@.len() - j,
        {
            if arguments[i] == arguments[j] {
                return false;
            }
            j = j + 1;
        }
        i = i + 1;
    }
    true
}

/// All texts equal; false for an empty list.
pub open spec fn spec_chain_eq_text(s: Seq<Seq<char>>) -> bool {
    s.len() > 0 && forall|i: int| 0 <= i < s.len() - 1 ==> #[trigger] s[i] == s[i + 1]
}

/// All texts pairwise distinct; false for an empty list.
pub open spec fn spec_distinct_text(s: Seq<Seq<char>>) -> bool {
    s.len() > 0 && forall|i: int, j: int| 0 <= i < j < s.len() ==> s[i] != s[j]
}

/// Whether the strings are all equal, exactly as `spec_chain_eq_text`
/// describes.
#[verifier::loop_isolation(false)]
pub fn perform_equals_str(arguments: &Vec<String>) -> (r: bool)
    ensures
        r == spec_chain_eq_text(names_of(arguments@)),
{
    let ghost ns = names_of(arguments@);
    if arguments.len() == 0 {
        return false;
    }
    let mut i: usize = 0;
    while i + 1 < arguments.len()
        invariant
            i < arguments@.len(),
            ns == names_of(arguments@),
            forall|k: int| 0 <= k < i ==> #[trigger] ns[k] == ns[k + 1],
        decreases arguments@.len() - i,
    {
        proof {
            crate::state::lemma_names_of_index(arguments@, i as int);
            crate::state::lemma_names_of_index(arguments@, i + 1);
        }
        if !arguments[i].eq(&arguments[i + 1]) {
            return false;
        }
        i = i + 1;
    }
    true
}

/// Whether the strings are pairwise distinct, exactly as
/// `spec_distinct_text` describes.
#[verifier::loop_isolation(false)]
pub fn perform_not_equals_str(arguments: &Vec<String>) -> (r: bool)
    ensures
        r == spec_distinct_text(names_of(arguments@)),
{
    let ghost ns = names_of(arguments@);
    if arguments.len() == 0 {
        return false;
    }
    let mut i: usize = 0;
    while i < arguments.len()
        invariant
            i <= arguments@.len(),
            ns == names_of(arguments@),
            forall|p: int, q: int| 0 <= p < q < ns.len() && p < i ==> ns[p] != ns[q],
        decreases arguments@.len() - i,
    {
        let mut j: usize = i + 1;
        while j < arguments.len()
            invariant
                i < j <= arguments@.len() || j == i + 1,
                i < arguments@.len(),
                ns == names_of(arguments@),
                forall|q: int| i < q < j ==> ns[i as int] != #[trigger] ns[q],
            decreases arguments@.len() - j,
        {
            proof {
                crate::state::lemma_names_of_index(arguments@, i as int);
                crate::state::lemma_names_of_index(arguments@, j as int);
            }
            if arguments[i].eq(&arguments[j]) {
                return false;
            }
            j = j + 1;
        }
        i = i + 1;
    }
    true
}

/// One step of decimal-text arithmetic, through the named decimal operations.
pub open spec fn spec_dec_step(op: ArithOp, a: Seq<char>, b: Seq<char>) -> Option<Seq<char>> {
    match op {
        ArithOp::Add => dec_add_text(a, b),
        ArithOp::Sub => dec_sub_text(a, b),
        ArithOp::Mul => dec_mul_text(a, b),
        ArithOp::Div => dec_div_text(a, b),
    }
}

/// The left fold of `op` from `acc` over the decimal texts; nothing as soon
/// as a step yields nothing.
pub open spec fn spec_float_fold(op: ArithOp, acc: Seq<char>, s: Seq<Seq<char>>) -> Option<
    Seq<char>,
>
    decreases s.len(),
{
    if s.len() == 0 {
        Some(acc)
    } else {
        match spec_dec_step(op, acc, s[0]) {
            None => None,
            Some(x) => spec_float_fold(op, x, s.drop_first()),
        }
    }
}

/// The fold of `op` over the decimal texts from the first one; an empty list
/// yields the neutral element 0.0.
pub open spec fn spec_float_arith(op: ArithOp, s: Seq<Seq<char>>) -> Option<Seq<char>> {
    if s.len() == 0 {
        Some("0.0"@)
    } else {
        spec_float_fold(op, s[0], s.drop_first())
    }
}

fn dec_step(op: ArithOp, a: &str, b: &str) -> (r: Option<String>)
    ensures
        match r {
            Some(t) => spec_dec_step(op, a@, b@) == Some(t@),
            None => spec_dec_step(op, a@, b@) is None,
        },
{
    match op {
        ArithOp::Add => dec_add(a, b),
        ArithOp::Sub => dec_sub(a, b),
        ArithOp::Mul => dec_mul(a, b),
        ArithOp::Div => dec_div(a, b),
    }
}

/// Folds `op` over the decimal texts, exactly as `spec_float_arith`
/// describes.
#[verifier::loop_isolation(false)]
pub fn perform_arith_float(op: ArithOp, numbers: &Vec<String>) -> (r: Option<String>)
    ensures
        match r {
            Some(t) => spec_float_arith(op, names_of(numbers@)) == Some(t@),
            None => spec_float_arith(op, names_of(numbers@)) is None,
        },
{
    let ghost ns = names_of(numbers@);
    if numbers.len() == 0 {
        return Some(String::from_str("0.0"));
    }
    proof {
        crate::state::lemma_names_of_index(numbers@, 0int);
    }
    let mut acc = numbers[0].clone();
    let mut i: usize = 1;
    proof {
        assert(ns.skip(1) =~= ns.drop_first());
    }
    while i < numbers.len()
        invariant
            1 <= i <= numbers@.len(),
            ns == names_of(numbers@),
            spec_float_arith(op, ns) == spec_float_fold(op, acc@, ns.skip(i as int)),
        decreases numbers@.len() - i,
    {
        proof {
            crate::state::lemma_names_of_index(numbers@, i as int);
            assert(ns.skip(i as int).drop_first() =~= ns.skip(i + 1));
            assert(ns.skip(i as int)[0] == ns[i as int]);
        }
        match dec_step(op, acc.as_str(), numbers[i].as_str()) {
            None => {
                return None;
            },
            Some(x) => {
                acc = x;
            },
        }
        i = i + 1;
    }
    proof {
        assert(ns.skip(ns.len() as int) =~= Seq::<Seq<char>>::empty());
    }
    Some(acc)
}

/// A strictly decreasing chain of decimal texts from index `i` on; nothing as
/// soon as a comparison cannot be made.
pub open spec fn spec_float_gt_from(s: Seq<Seq<char>>, i: int) -> Option<bool>
    decreases s.len() - i,
{
    if i < 0 || i + 1 >= s.len() {
        Some(true)
    } else {
        match dec_lt_text(s[i + 1], s[i]) {
            None => None,
            Some(true) => spec_float_gt_from(s, i + 1),
            Some(false) => Some(false),
        }
    }
}

/// A strictly increasing chain of decimal texts from index `i` on.
pub open spec fn spec_float_lt_from(s: Seq<Seq<char>>, i: int) -> Option<bool>
    decreases s.len() - i,
{
    if i < 0 || i + 1 >= s.len() {
        Some(true)
    } else {
        match dec_lt_text(s[i], s[i + 1]) {
            None => None,
            Some(true) => spec_float_lt_from(s, i + 1),
            Some(false) => Some(false),
        }
    }
}

/// All decimal texts from index `i` on equal to their successor.
pub open spec fn spec_float_eq_from(s: Seq<Seq<char>>, i: int) -> Option<bool>
    decreases s.len() - i,
{
    if i < 0 || i + 1 >= s.len() {
        Some(true)
    } else {
        match dec_eq_text(s[i], s[i + 1]) {
            None => None,
            Some(true) => spec_float_eq_from(s, i + 1),
            Some(false) => Some(false),
        }
    }
}

/// Whether the decimal text at `i` differs from every one from `j` on.
pub open spec fn spec_float_distinct_inner(s: Seq<Seq<char>>, i: int, j: int) -> Option<bool>
    decreases s.len() - j, 0int,
{
    if j < 0 || j >= s.len() {
        Some(true)
    } else {
        match dec_eq_text(s[i], s[j]) {
            None => None,
            Some(true) => Some(false),
            Some(false) => spec_float_distinct_inner(s, i, j + 1),
        }
    }
}

/// Whether the decimal texts from `i` on are pairwise distinct.
pub open spec fn spec_float_distinct_from(s: Seq<Seq<char>>, i: int) -> Option<bool>
    decreases s.len() - i, 1int,
{
    if i < 0 || i + 1 >= s.len() {
        Some(true)
    } else {
        match spec_float_distinct_inner(s, i, i + 1) {
            None => None,
            Some(false) => Some(false),
            Some(true) => spec_float_distinct_from(s, i + 1),
        }
    }
}

/// The chain or distinctness checks over a whole list; an empty list yields
/// false.
pub open spec fn spec_float_gt(s: Seq<Seq<char>>) -> Option<bool> {
    if s.len() == 0 {
        Some(false)
    } else {
        spec_float_gt_from(s, 0)
    }
}

pub open spec fn spec_float_lt(s: Seq<Seq<char>>) -> Option<bool> {
    if s.len() == 0 {
        Some(false)
    } else {
        spec_float_lt_from(s, 0)
    }
}

pub open spec fn spec_float_eq(s: Seq<Seq<char>>) -> Option<bool> {
    if s.len() == 0 {
        Some(false)
    } else {
        spec_float_eq_from(s, 0)
    }
}

pub open spec fn spec_float_distinct(s: Seq<Seq<char>>) -> Option<bool> {
    if s.len() == 0 {
        Some(false)
    } else {
        spec_float_distinct_from(s, 0)
    }
}

fn float_gt_from(v: &Vec<String>, i: usize) -> (r: Option<bool>)
    requires
        i <= v@.len(),
    ensures
        r == spec_float_gt_from(names_of(v@), i as int),
    decreases v@.len() - i,
{
    if v.len() - i <= 1 {
        Some(true)
    } else {
        proof {
            crate::state::lemma_names_of_index(v@, i as int);
            crate::state::lemma_names_of_index(v@, i + 1);
        }
        match crate::decimal::dec_lt(v[i + 1].as_str(), v[i].as_str()) {
            None => None,
            Some(true) => float_gt_from(v, i + 1),
            Some(false) => Some(false),
        }
    }
}

fn float_lt_from(v: &Vec<String>, i: usize) -> (r: Option<bool>)
    requires
        i <= v@.len(),
    ensures
        r == spec_float_lt_from(names_of(v@), i as int),
    decreases v@.len() - i,
{
    if v.len() - i <= 1 {
        Some(true)
    } else {
        proof {
            crate::state::lemma_names_of_index(v@, i as int);
            crate::state::lemma_names_of_index(v@, i + 1);
        }
        match crate::decimal::dec_lt(v[i].as_str(), v[i + 1].as_str()) {
            None => None,
            Some(true) => float_lt_from(v, i + 1),
            Some(false) => Some(false),
        }
    }
}

fn float_eq_from(v: &Vec<String>, i: usize) -> (r: Option<bool>)
    requires
        i <= v@.len(),
    ensures
        r == spec_float_eq_from(names_of(v@), i as int),
    decreases v@.len() - i,
{
    if v.len() - i <= 1 {
        Some(true)
    } else {
        proof {
            crate::state::lemma_names_of_index(v@, i as int);
            crate::state::lemma_names_of_index(v@, i + 1);
        }
        match crate::decimal::dec_eq(v[i].as_str(), v[i + 1].as_str()) {
            None => None,
            Some(true) => float_eq_from(v, i + 1),
            Some(false) => Some(false),
        }
    }
}

fn float_distinct_inner(v: &Vec<String>, i: usize, j: usize) -> (r: Option<bool>)
    requires
        i < v@.len(),
        j <= v@.len(),
    ensures
        r == spec_float_distinct_inner(names_of(v@), i as int, j as int),
    decreases v@.len() - j, 0int,
{
    if j >= v.len() {
        Some(true)
    } else {
        proof {
            crate::state::lemma_names_of_index(v@, i as int);
            crate::state::lemma_names_of_index(v@, j as int);
        }
        match crate::decimal::dec_eq(v[i].as_str(), v[j].as_str()) {
            None => None,
            Some(true) => Some(false),
            Some(false) => float_distinct_inner(v, i, j + 1),
        }
    }
}

fn float_distinct_from(v: &Vec<String>, i: usize) -> (r: Option<bool>)
    requires
        i <= v@.len(),
    ensures
        r == spec_float_distinct_from(names_of(v@), i as int),
    decreases v@.len() - i, 1int,
{
    if v.len() - i <= 1 {
        Some(true)
    } else {
        match float_distinct_inner(v, i, i + 1) {
            None => None,
            Some(false) => Some(false),
            Some(true) => float_distinct_from(v, i + 1),
        }
    }
}

/// Whether the decimal texts form a strictly decreasing chain, exactly as
/// `spec_float_gt` describes.
pub fn perform_grater_then_float(arguments: &Vec<String>) -> (r: Option<bool>)
    ensures
        r == spec_float_gt(names_of(arguments@)),
{
    if arguments.len() == 0 {
        Some(false)
    } else {
        float_gt_from(arguments, 0)
    }
}

/// Whether the decimal texts form a strictly increasing chain, exactly as
/// `spec_float_lt` describes.
pub fn perform_less_then_float(arguments: &Vec<String>) -> (r: Option<bool>)
    ensures
        r == spec_float_lt(names_of(arguments@)),
{
    if arguments.len() == 0 {
        Some(false)
    } else {
        float_lt_from(arguments, 0)
    }
}

/// Whether the decimal texts all denote the same number, exactly as
/// `spec_float_eq` describes.
pub fn perform_equals_float(arguments: &Vec<String>) -> (r: Option<bool>)
    ensures
        r == spec_float_eq(names_of(arguments@)),
{
    if arguments.len() == 0 {
        Some(false)
    } else {
        float_eq_from(arguments, 0)
    }
}

/// Whether the decimal texts denote pairwise distinct numbers, exactly as
/// `spec_float_distinct` describes — a check over every pair, not only
/// adjacent ones.
pub fn perform_not_equals_float(arguments: &Vec<String>) -> (r: Option<bool>)
    ensures
        r == spec_float_distinct(names_of(arguments@)),
{
    if arguments.len() == 0 {
        Some(false)
    } else {
        float_distinct_from(arguments, 0)
    }
}

/// Whether any boolean in the list is true.
pub open spec fn spec_any(s: Seq<bool>) -> bool {
    exists|i: int| 0 <= i < s.len() && s[i]
}

/// Whether every boolean in the list is true.
pub open spec fn spec_all(s: Seq<bool>) -> bool {
    forall|i: int| 0 <= i < s.len() ==> s[i]
}

/// The two-character sequence `\n` rewritten to a real newline, left to
/// right.
pub open spec fn spec_unescape(s: Seq<char>) -> Seq<char>
    decreases s.len(),
{
    if s.len() == 0 {
        Seq::empty()
    } else if s.len() >= 2 && s[0] == '\\' && s[1] == 'n' {
        seq!['\n'] + spec_unescape(s.skip(2))
    } else {
        seq![s[0]] + spec_unescape(s.skip(1))
    }
}

fn unescape_from(v: &Vec<char>, i: usize) -> (r: String)
    requires
        i <= v@.len(),
    ensures
        r@ == spec_unescape(v@.skip(i as int)),
    decreases v@.len() - i,
{
    if i == v.len() {
        proof {
            assert(v@.skip(i as int) =~= Seq::<char>::empty());
        }
        String::new()
    } else if i + 1 < v.len() && v[i] == '\\' && v[i + 1] == 'n' {
        let rest = unescape_from(v, i + 2);
        let mut r = String::new();
        r.push('\n');
        r.append(rest.as_str());
        proof {
            assert(v@.skip(i as int).skip(2) =~= v@.skip(i + 2));
            assert(r@ =~= seq!['\n'] + spec_unescape(v@.skip(i + 2)));
        }
        r
    } else {
        let rest = unescape_from(v, i + 1);
        let mut r = String::new();
        r.push(v[i]);
        r.append(rest.as_str());
        proof {
            assert(v@.skip(i as int).skip(1) =~= v@.skip(i + 1));
            assert(v@.skip(i as int)[0] == v@[i as int]);
            assert(r@ =~= seq![v@[i as int]] + spec_unescape(v@.skip(i + 1)));
        }
        r
    }
}

/// Rewrites each embedded `\n` escape to a real newline, exactly as
/// `spec_unescape` describes.
pub fn unescape(text: &String) -> (r: String)
    ensures
        r@ == spec_unescape(text@),
{
    let chars = crate::parser::str_to_chars(text.as_str());
    proof {
        assert(chars@.skip(0int) =~= chars@);
    }
    unescape_from(&chars, 0)
}

/// Each text followed by one space.
pub open spec fn spec_texts_spaced(s: Seq<Seq<char>>) -> Seq<char>
    decreases s.len(),
{
    if s.len() == 0 {
        Seq::empty()
    } else {
        s[0] + seq![' '] + spec_texts_spaced(s.drop_first())
    }
}

/// Each text followed by one space and a newline.
pub open spec fn spec_texts_lined(s: Seq<Seq<char>>) -> Seq<char>
    decreases s.len(),
{
    if s.len() == 0 {
        Seq::empty()
    } else {
        s[0] + seq![' ', '\n'] + spec_texts_lined(s.drop_first())
    }
}

/// Each text unescaped, concatenated without separators.
pub open spec fn spec_texts_unescaped(s: Seq<Seq<char>>) -> Seq<char>
    decreases s.len(),
{
    if s.len() == 0 {
        Seq::empty()
    } else {
        spec_unescape(s[0]) + spec_texts_unescaped(s.drop_first())
    }
}

fn print_from(texts: &Vec<String>, i: usize) -> (r: String)
    requires
        i <= texts@.len(),
    ensures
        r@ == spec_texts_spaced(names_of(texts@).skip(i as int)),
    decreases texts@.len() - i,
{
    let ghost ns = names_of(texts@);
    if i == texts.len() {
        proof {
            assert(ns.skip(i as int) =~= Seq::<Seq<char>>::empty());
        }
        String::new()
    } else {
        proof {
            crate::state::lemma_names_of_index(texts@, i as int);
            assert(ns.skip(i as int)[0] == ns[i as int]);
            assert(ns.skip(i as int).drop_first() =~= ns.skip(i + 1));
        }
        let rest = print_from(texts, i + 1);
        let mut r = texts[i].clone();
        r.push(' ');
        r.append(rest.as_str());
        proof {
            assert(r@ =~= ns[i as int] + seq![' '] + spec_texts_spaced(ns.skip(i + 1)));
        }
        r
    }
}

/// Renders the texts space-separated, each followed by one space, exactly as
/// `spec_texts_spaced` describes.
pub fn perform_print(arguments: &Vec<String>) -> (r: String)
    ensures
        r@ == spec_texts_spaced(names_of(arguments@)),
{
    proof {
        assert(names_of(arguments@).skip(0int) =~= names_of(arguments@));
    }
    print_from(arguments, 0)
}

fn println_from(texts: &Vec<String>, i: usize) -> (r: String)
    requires
        i <= texts@.len(),
    ensures
        r@ == spec_texts_lined(names_of(texts@).skip(i as int)),
    decreases texts@.len() - i,
{
    let ghost ns = names_of(texts@);
    if i == texts.len() {
        proof {
            assert(ns.skip(i as int) =~= Seq::<Seq<char>>::empty());
        }
        String::new()
    } else {
        proof {
            crate::state::lemma_names_of_index(texts@, i as int);
            assert(ns.skip(i as int)[0] == ns[i as int]);
            assert(ns.skip(i as int).drop_first() =~= ns.skip(i + 1));
        }
        let rest = println_from(texts, i + 1);
        let mut r = texts[i].clone();
        r.push(' ');
        r.push('\n');
        r.append(rest.as_str());
        proof {
            assert(r@ =~= ns[i as int] + seq![' ', '\n'] + spec_texts_lined(ns.skip(i + 1)));
        }
        r
    }
}

/// Renders the texts one per line, each followed by one space and a newline,
/// exactly as `spec_texts_lined` describes.
pub fn perform_println(arguments: &Vec<String>) -> (r: String)
    ensures
        r@ == spec_texts_lined(names_of(arguments@)),
{
    proof {
        assert(names_of(arguments@).skip(0int) =~= names_of(arguments@));
    }
    println_from(arguments, 0)
}

fn print_string_from(texts: &Vec<String>, i: usize) -> (r: String)
    requires
        i <= texts@.len(),
    ensures
        r@ == spec_texts_unescaped(names_of(texts@).skip(i as int)),
    decreases texts@.len() - i,
{
    let ghost ns = names_of(texts@);
    if i == texts.len() {
        proof {
            assert(ns.skip(i as int) =~= Seq::<Seq<char>>::empty());
        }
        String::new()
    } else {
        proof {
            crate::state::lemma_names_of_index(texts@, i as int);
            assert(ns.skip(i as int)[0] == ns[i as int]);
            assert(ns.skip(i as int).drop_first() =~= ns.skip(i + 1));
        }
        let rest = print_string_from(texts, i + 1);
        let mut r = unescape(&texts[i]);
        r.append(rest.as_str());
        proof {
            assert(r@ =~= spec_unescape(ns[i as int]) + spec_texts_unescaped(ns.skip(i + 1)));
        }
        r
    }
}

/// Renders the strings with their `\n` escapes rewritten, concatenated
/// without separators, exactly as `spec_texts_unescaped` describes.
pub fn perform_print_string(arguments: &Vec<String>) -> (r: String)
    ensures
        r@ == spec_texts_unescaped(names_of(arguments@)),
{
    proof {
        assert(names_of(arguments@).skip(0int) =~= names_of(arguments@));
    }
    print_string_from(arguments, 0)
}

/// Renders the strings as `perform_print_string` does and ends the line.
pub fn perform_println_string(arguments: &Vec<String>) -> (r: String)
    ensures
        r@ == spec_texts_unescaped(names_of(arguments@)).push('\n'),
{
    let mut r = perform_print_string(arguments);
    r.push('\n');
    r
}

} // verus!
