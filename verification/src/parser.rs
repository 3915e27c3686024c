//! Recursive-descent reader for S-expression source text.
//!
//! `(` opens a call, `)` closes it, `;` starts a line comment, whitespace
//! separates arguments, and any other run of characters is one token. A token
//! that opens with `"` runs to the matching unescaped `"`, truncated at end of
//! line. Other tokens are classified in order: 64-bit integer, float literal,
//! boolean, bare name. The reader is a pure function of the source text:
//! `spec_parse` states the result exactly, and parsing performs no evaluation.

use vstd::prelude::*;

use crate::numbers::{is_float_literal, spec_parse_i64};
use crate::value::{
    lemma_view_call, lemma_views_of_cons, views_of, LispValue, ValueModel,
};

verus! {

broadcast use crate::value::group_value_axioms, vstd::std_specs::vec::axiom_spec_len;

/// A positioned syntax error: what went wrong and the character offset at
/// which it was detected.
#[derive(Debug, PartialEq)]
pub struct ParserError {
    pub description: String,
    pub position: usize,
}

impl ParserError {
    pub fn new(description: &str, position: usize) -> (r: ParserError)
        ensures
            r.description@ == description@,
            r.position == position,
    {
        ParserError { description: String::from_str(description), position }
    }
}

/// The description of an unterminated call.
pub open spec fn unclosed_text() -> Seq<char> {
    "Function not closed"@
}

/// The description of a stray character at the top level.
pub open spec fn unexpected_text(c: char) -> Seq<char> {
    "Unexpected symbol: "@.push(c)
}

/// Number of characters a line comment starting at `pos` occupies, its
/// terminating newline included.
pub open spec fn spec_comment_len(s: Seq<char>, pos: int) -> int
    decreases s.len() - pos,
{
    if pos < 0 || pos >= s.len() {
        0
    } else if s[pos] == '\n' {
        1
    } else {
        1 + spec_comment_len(s, pos + 1)
    }
}

/// One token scanned from `pos`: its text, whether a `"` made it a string,
/// and the position scanning stops at. A closing quote, a space, a tab and a
/// newline are consumed; a bracket or semicolon delimiter is not. Inside
/// quotes every character accumulates, except that an unescaped `"` closes
/// the string and a newline truncates it.
pub open spec fn spec_scan(
    s: Seq<char>,
    pos: int,
    in_quote: bool,
    is_string: bool,
    acc: Seq<char>,
) -> (Seq<char>, bool, int)
    decreases s.len() - pos,
{
    if pos < 0 || pos >= s.len() {
        (acc, is_string, pos)
    } else {
        let c = s[pos];
        if in_quote {
            if c == '\n' {
                (acc, is_string, pos + 1)
            } else if c == '"' && !(acc.len() > 0 && acc.last() == '\\') {
                (acc, is_string, pos + 1)
            } else {
                spec_scan(s, pos + 1, true, is_string, acc.push(c))
            }
        } else {
            if c == '(' || c == ')' || c == ';' {
                (acc, is_string, pos)
            } else if c == ' ' || c == '\t' || c == '\n' {
                (acc, is_string, pos + 1)
            } else if c == '"' {
                spec_scan(s, pos + 1, true, true, acc)
            } else {
                spec_scan(s, pos + 1, false, is_string, acc.push(c))
            }
        }
    }
}

/// Classification of a non-string token, in order: integer, float, boolean,
/// bare name.
pub open spec fn spec_classify(tok: Seq<char>) -> ValueModel {
    match spec_parse_i64(tok) {
        Some(i) => ValueModel::Int(i as int),
        None => if is_float_literal(tok) {
            ValueModel::Float(tok)
        } else if tok == "false"@ {
            ValueModel::Boolean(false)
        } else if tok == "true"@ {
            ValueModel::Boolean(true)
        } else {
            ValueModel::Name(tok)
        },
    }
}

/// Arguments of a call whose `(` stands at `open`, read from `pos` until the
/// matching `)`. Yields the argument models and the position after the `)`,
/// or a positioned error.
pub open spec fn spec_parse_args(s: Seq<char>, pos: int, open: int) -> Result<
    (Seq<ValueModel>, int),
    (Seq<char>, int),
>
    decreases s.len() - pos, 1int,
{
    if pos < 0 || pos >= s.len() {
        Err((unclosed_text(), open))
    } else {
        let c = s[pos];
        if c == ')' {
            Ok((Seq::empty(), pos + 1))
        } else if c == '(' {
            match spec_parse_call(s, pos) {
                Err(e) => Err(e),
                Ok((v, next)) => {
                    let nx = if next <= pos {
                        pos + 1
                    } else if next > s.len() {
                        s.len() as int
                    } else {
                        next
                    };
                    match spec_parse_args(s, nx, open) {
                        Err(e) => Err(e),
                        Ok((rest, end)) => Ok((seq![v] + rest, end)),
                    }
                },
            }
        } else if c == ';' {
            let cl = spec_comment_len(s, pos);
            let step = if cl < 1 {
                1int
            } else {
                cl
            };
            let nx = if pos + step > s.len() {
                s.len() as int
            } else {
                pos + step
            };
            spec_parse_args(s, nx, open)
        } else if c == ' ' || c == '\t' || c == '\n' {
            spec_parse_args(s, pos + 1, open)
        } else {
            let (tok, is_str, next) = spec_scan(s, pos, false, false, Seq::empty());
            let v = if is_str {
                ValueModel::Str(tok)
            } else {
                spec_classify(tok)
            };
            let nx = if next <= pos {
                pos + 1
            } else if next > s.len() {
                s.len() as int
            } else {
                next
            };
            match spec_parse_args(s, nx, open) {
                Err(e) => Err(e),
                Ok((rest, end)) => Ok((seq![v] + rest, end)),
            }
        }
    }
}

/// One call whose `(` stands at `pos`: its model and the position after its
/// closing `)`, or a positioned error. An unterminated call reports the
/// position of the innermost unclosed `(`.
pub open spec fn spec_parse_call(s: Seq<char>, pos: int) -> Result<
    (ValueModel, int),
    (Seq<char>, int),
>
    recommends
        0 <= pos < s.len(),
        s[pos] == '(',
    decreases s.len() - pos, 0int,
{
    if pos < 0 || pos + 1 > s.len() {
        Err((unclosed_text(), pos))
    } else {
        match spec_parse_args(s, pos + 1, pos) {
            Err(e) => Err(e),
            Ok((items, end)) => Ok((ValueModel::Call(items), end)),
        }
    }
}

/// The sequence of top-level calls from `pos` to the end of the text. A
/// character other than `(`, whitespace or a comment is a fatal error at its
/// offset.
pub open spec fn spec_parse_program(s: Seq<char>, pos: int) -> Result<
    Seq<ValueModel>,
    (Seq<char>, int),
>
    decreases s.len() - pos, 2int,
{
    if pos < 0 || pos >= s.len() {
        Ok(Seq::empty())
    } else {
        let c = s[pos];
        if c == '(' {
            match spec_parse_call(s, pos) {
                Err(e) => Err(e),
                Ok((v, next)) => {
                    let nx = if next <= pos {
                        pos + 1
                    } else if next > s.len() {
                        s.len() as int
                    } else {
                        next
                    };
                    match spec_parse_program(s, nx) {
                        Err(e) => Err(e),
                        Ok(rest) => Ok(seq![v] + rest),
                    }
                },
            }
        } else if c == ';' {
            let cl = spec_comment_len(s, pos);
            let step = if cl < 1 {
                1int
            } else {
                cl
            };
            let nx = if pos + step > s.len() {
                s.len() as int
            } else {
                pos + step
            };
            spec_parse_program(s, nx)
        } else if c == ' ' || c == '\t' || c == '\n' {
            spec_parse_program(s, pos + 1)
        } else {
            Err((unexpected_text(c), pos))
        }
    }
}

/// What parsing the whole text yields.
pub open spec fn spec_parse(s: Seq<char>) -> Result<Seq<ValueModel>, (Seq<char>, int)> {
    spec_parse_program(s, 0)
}

/// Counts a line comment: everything up to and including the next newline,
/// or to the end of the text.
pub fn read_line_comment(s: &Vec<char>, pos: usize) -> (count: usize)
    requires
        pos <= s@.len(),
    ensures
        count as int == spec_comment_len(s@, pos as int),
        pos + count <= s@.len(),
        pos < s@.len() ==> count >= 1,
    decreases s@.len() - pos,
{
    if pos == s.len() {
        0
    } else if s[pos] == '\n' {
        1
    } else {
        let rest = read_line_comment(s, pos + 1);
        1 + rest
    }
}

/// Scans one token, exactly as `spec_scan` describes.
fn scan_token(s: &Vec<char>, pos: usize, in_quote: bool, is_string: bool, acc: Vec<char>) -> (r: (
    Vec<char>,
    bool,
    usize,
))
    requires
        pos <= s@.len(),
    ensures
        (r.0@, r.1, r.2 as int) == spec_scan(s@, pos as int, in_quote, is_string, acc@),
        pos <= r.2 <= s@.len(),
        (pos < s@.len() && (in_quote || !(s@[pos as int] == '(' || s@[pos as int] == ')'
            || s@[pos as int] == ';'))) ==> r.2 > pos,
    decreases s@.len() - pos,
{
    if pos == s.len() {
        (acc, is_string, pos)
    } else {
        let c = s[pos];
        if in_quote {
            if c == '\n' {
                (acc, is_string, pos + 1)
            } else if c == '"' && !(acc.len() > 0 && acc[acc.len() - 1] == '\\') {
                (acc, is_string, pos + 1)
            } else {
                let mut a = acc;
                a.push(c);
                scan_token(s, pos + 1, true, is_string, a)
            }
        } else {
            if c == '(' || c == ')' || c == ';' {
                (acc, is_string, pos)
            } else if c == ' ' || c == '\t' || c == '\n' {
                (acc, is_string, pos + 1)
            } else if c == '"' {
                scan_token(s, pos + 1, true, true, acc)
            } else {
                let mut a = acc;
                a.push(c);
                scan_token(s, pos + 1, false, is_string, a)
            }
        }
    }
}

/// Builds a string holding exactly the characters of `v`.
pub fn chars_to_string(v: &Vec<char>) -> (r: String)
    ensures
        r@ == v@,
{
    let mut r = String::new();
    let mut i: usize = 0;
    while i < v.len()
        invariant
            i <= v@.len(),
            r@ == v@.subrange(0, i as int),
        decreases v@.len() - i,
    {
        r.push(v[i]);
        proof {
            assert(r@ =~= v@.subrange(0, i + 1));
        }
        i = i + 1;
    }
    proof {
        assert(v@.subrange(0, v@.len() as int) =~= v@);
    }
    r
}

/// Classifies one non-string token, exactly as `spec_classify` describes.
pub fn parse_value(tok: &Vec<char>) -> (v: LispValue)
    ensures
        v@ == spec_classify(tok@),
{
    match crate::numbers::parse_i64(tok) {
        Some(i) => LispValue::Int(i),
        None => {
            if crate::numbers::is_float_token(tok) {
                LispValue::Float(chars_to_string(tok))
            } else {
                let text = chars_to_string(tok);
                if text.eq(&String::from_str("false")) {
                    LispValue::Boolean(false)
                } else if text.eq(&String::from_str("true")) {
                    LispValue::Boolean(true)
                } else {
                    LispValue::Name(text)
                }
            }
        },
    }
}

/// Reads the arguments of a call, exactly as `spec_parse_args` describes.
fn parse_args(s: &Vec<char>, pos: usize, open: usize) -> (r: Result<
    (Vec<LispValue>, usize),
    ParserError,
>)
    requires
        pos <= s@.len(),
    ensures
        match r {
            Ok((vals, next)) => spec_parse_args(s@, pos as int, open as int) == Ok::<
                (Seq<ValueModel>, int),
                (Seq<char>, int),
            >((views_of(vals@), next as int)) && pos < next <= s@.len(),
            Err(e) => spec_parse_args(s@, pos as int, open as int) == Err::<
                (Seq<ValueModel>, int),
                (Seq<char>, int),
            >((e.description@, e.position as int)),
        },
    decreases s@.len() - pos, 1int,
{
    if pos == s.len() {
        Err(ParserError::new("Function not closed", open))
    } else {
        let c = s[pos];
        if c == ')' {
            let vals: Vec<LispValue> = Vec::new();
            proof {
                assert(views_of(vals@) =~= Seq::<ValueModel>::empty());
            }
            Ok((vals, pos + 1))
        } else if c == '(' {
            match parse_call(s, pos) {
                Err(e) => Err(e),
                Ok((v, next)) => {
                    match parse_args(s, next, open) {
                        Err(e) => Err(e),
                        Ok((mut rest, end)) => {
                            proof {
                                lemma_views_of_cons(v, rest@);
                                assert(seq![v] + rest@ =~= rest@.insert(0, v));
                            }
                            rest.insert(0, v);
                            Ok((rest, end))
                        },
                    }
                },
            }
        } else if c == ';' {
            let count = read_line_comment(s, pos);
            parse_args(s, pos + count, open)
        } else if c == ' ' || c == '\t' || c == '\n' {
            parse_args(s, pos + 1, open)
        } else {
            let (tok, is_str, next) = scan_token(s, pos, false, false, Vec::new());
            let v = if is_str {
                LispValue::Str(chars_to_string(&tok))
            } else {
                parse_value(&tok)
            };
            match parse_args(s, next, open) {
                Err(e) => Err(e),
                Ok((mut rest, end)) => {
                    proof {
                        lemma_views_of_cons(v, rest@);
                        assert(seq![v] + rest@ =~= rest@.insert(0, v));
                    }
                    rest.insert(0, v);
                    Ok((rest, end))
                },
            }
        }
    }
}

/// Reads one call whose `(` stands at `pos`, exactly as `spec_parse_call`
/// describes.
fn parse_call(s: &Vec<char>, pos: usize) -> (r: Result<(LispValue, usize), ParserError>)
    requires
        pos < s@.len(),
        s@[pos as int] == '(',
    ensures
        match r {
            Ok((v, next)) => spec_parse_call(s@, pos as int) == Ok::<
                (ValueModel, int),
                (Seq<char>, int),
            >((v@, next as int)) && pos < next <= s@.len(),
            Err(e) => spec_parse_call(s@, pos as int) == Err::<
                (ValueModel, int),
                (Seq<char>, int),
            >((e.description@, e.position as int)),
        },
    decreases s@.len() - pos, 0int,
{
    proof {
        assert(s@.len() == s.len());
    }
    match parse_args(s, pos + 1, pos) {
        Err(e) => Err(e),
        Ok((vals, next)) => {
            let v = LispValue::Function(vals);
            proof {
                lemma_view_call(&v);
            }
            Ok((v, next))
        },
    }
}

/// Reads the top-level calls from `pos` on, exactly as `spec_parse_program`
/// describes.
fn parse_program(s: &Vec<char>, pos: usize) -> (r: Result<Vec<LispValue>, ParserError>)
    requires
        pos <= s@.len(),
    ensures
        match r {
            Ok(vals) => spec_parse_program(s@, pos as int) == Ok::<
                Seq<ValueModel>,
                (Seq<char>, int),
            >(views_of(vals@)),
            Err(e) => spec_parse_program(s@, pos as int) == Err::<
                Seq<ValueModel>,
                (Seq<char>, int),
            >((e.description@, e.position as int)),
        },
    decreases s@.len() - pos, 2int,
{
    if pos == s.len() {
        let vals: Vec<LispValue> = Vec::new();
        proof {
            assert(views_of(vals@) =~= Seq::<ValueModel>::empty());
        }
        Ok(vals)
    } else {
        let c = s[pos];
        if c == '(' {
            match parse_call(s, pos) {
                Err(e) => Err(e),
                Ok((v, next)) => {
                    match parse_program(s, next) {
                        Err(e) => Err(e),
                        Ok(mut rest) => {
                            proof {
                                lemma_views_of_cons(v, rest@);
                                assert(seq![v] + rest@ =~= rest@.insert(0, v));
                            }
                            rest.insert(0, v);
                            Ok(rest)
                        },
                    }
                },
            }
        } else if c == ';' {
            let count = read_line_comment(s, pos);
            parse_program(s, pos + count)
        } else if c == ' ' || c == '\t' || c == '\n' {
            parse_program(s, pos + 1)
        } else {
            let mut description = String::from_str("Unexpected symbol: ");
            description.push(c);
            Err(ParserError { description, position: pos })
        }
    }
}

/// Collects the characters of `code`.
pub fn str_to_chars(code: &str) -> (r: Vec<char>)
    ensures
        r@ == code@,
{
    let n = code.unicode_len();
    let mut r: Vec<char> = Vec::new();
    let mut i: usize = 0;
    while i < n
        invariant
            i <= n,
            n == code@.len(),
            r@ == code@.subrange(0, i as int),
        decreases n - i,
    {
        let c = code.get_char(i);
        r.push(c);
        proof {
            assert(r@ =~= code@.subrange(0, i + 1));
        }
        i = i + 1;
    }
    proof {
        assert(code@.subrange(0, code@.len() as int) =~= code@);
    }
    r
}

/// Parses source text into its sequence of top-level call trees, exactly as
/// `spec_parse` describes; a syntax error carries its description and
/// character offset.
pub fn parse(code: &str) -> (r: Result<Vec<LispValue>, ParserError>)
    ensures
        match r {
            Ok(vals) => spec_parse(code@) == Ok::<Seq<ValueModel>, (Seq<char>, int)>(
                views_of(vals@),
            ),
            Err(e) => spec_parse(code@) == Err::<Seq<ValueModel>, (Seq<char>, int)>(
                (e.description@, e.position as int),
            ),
        },
{
    let chars = str_to_chars(code);
    parse_program(&chars, 0)
}

/// The text that pretty-printing the parse of `code` yields: each top-level
/// form rendered on its own line, or the error's description alone.
pub open spec fn spec_parse_report(s: Seq<char>) -> Seq<char> {
    match spec_parse(s) {
        Ok(forms) => spec_rendered_lines(forms),
        Err(e) => e.0 + seq!['\n'],
    }
}

/// Each form rendered, followed by a newline.
pub open spec fn spec_rendered_lines(forms: Seq<ValueModel>) -> Seq<char>
    decreases forms.len(),
{
    if forms.len() == 0 {
        Seq::empty()
    } else {
        crate::value::spec_render(forms[0]) + seq!['\n'] + spec_rendered_lines(forms.drop_first())
    }
}

/// Parses `code` and renders the form tree instead of executing it, exactly
/// as `spec_parse_report` describes; a syntax error renders as its
/// description.
#[verifier::loop_isolation(false)]
pub fn parse_and_print(code: &str) -> (r: String)
    ensures
        r@ == spec_parse_report(code@),
{
    broadcast use crate::value::lemma_views_of_len, crate::value::lemma_views_of_index;

    match parse(code) {
        Ok(forms) => {
            let ghost vs = views_of(forms@);
            let mut r = String::new();
            let mut i: usize = 0;
            proof {
                assert(vs.skip(0int) =~= vs);
            }
            let n = forms.len();
            while i < n
                invariant
                    i <= n,
                    n == forms@.len(),
                    r@ + spec_rendered_lines(vs.skip(i as int)) == spec_rendered_lines(vs),
                decreases n - i,
            {
                proof {
                    assert(vs.skip(i as int)[0] == vs[i as int]);
                    assert(vs.skip(i as int).drop_first() =~= vs.skip(i + 1));
                }
                let line = forms[i].render();
                r.append(line.as_str());
                r.push('\n');
                proof {
                    assert(r@ + spec_rendered_lines(vs.skip(i + 1)) =~= spec_rendered_lines(vs));
                }
                i = i + 1;
            }
            proof {
                assert(vs.skip(n as int) =~= Seq::<ValueModel>::empty());
                assert(r@ =~= spec_rendered_lines(vs));
            }
            r
        },
        Err(e) => {
            let mut r = e.description;
            r.push('\n');
            r
        },
    }
}

} // verus!
