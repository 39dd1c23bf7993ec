use vstd::prelude::*;

use vstd::wrapping::i32_specs;

use crate::arith::{div_wrap, wrapping_div_i32};
use crate::error::{ErrorModel, EvalError};
use crate::parse::{is_digit, is_int_literal, literal_body, literal_val, parse_i32};
use crate::stack::RpnStack;

verus! {

/// The characters that separate tokens.
pub open spec fn is_space(c: char) -> bool {
    c == ' ' || c == '\t' || c == '\n' || c == '\r'
}

/// True of the four operator tokens.
pub open spec fn is_op(t: Seq<char>) -> bool {
    t.len() == 1 && (t[0] == '+' || t[0] == '-' || t[0] == '*' || t[0] == '/')
}

/// The tokens of an expression: the maximal runs of non-separator characters,
/// in order. Separators, leading and trailing ones included, only delimit
/// tokens and are never part of one, so repeated separators produce no empty
/// tokens.
pub open spec fn tokens_of(s: Seq<char>) -> Seq<Seq<char>>
    decreases s.len(),
{
    if s.len() == 0 {
        Seq::empty()
    } else if is_space(s[0]) {
        tokens_of(s.skip(1))
    } else {
        let rest = tokens_of(s.skip(1));
        if s.len() > 1 && !is_space(s[1]) {
            seq![seq![s[0]] + rest[0]] + rest.skip(1)
        } else {
            seq![seq![s[0]]] + rest
        }
    }
}

/// One step of evaluation: the stack after processing token `t`, or the error
/// the token raises. The stack holds its top at index `0`; an operator pops
/// the right operand first, then the left one, and its arithmetic wraps
/// around on two's-complement overflow.
pub open spec fn token_step(st: Seq<i32>, t: Seq<char>) -> Result<Seq<i32>, ErrorModel> {
    if is_op(t) {
        if st.len() < 2 {
            Err(ErrorModel::StackUnderflow)
        } else {
            let y = st[0];
            let x = st[1];
            let rest = st.skip(2);
            if t[0] == '+' {
                Ok(seq![i32_specs::wrapping_add(x, y)] + rest)
            } else if t[0] == '-' {
                Ok(seq![i32_specs::wrapping_sub(x, y)] + rest)
            } else if t[0] == '*' {
                Ok(seq![i32_specs::wrapping_mul(x, y)] + rest)
            } else if y == 0 {
                Err(ErrorModel::DivisionByZero)
            } else {
                Ok(seq![div_wrap(x, y)] + rest)
            }
        }
    } else if is_int_literal(t) {
        Ok(seq![literal_val(t) as i32] + st)
    } else {
        Err(ErrorModel::InvalidToken(t))
    }
}

/// Evaluation of a whole token sequence, token by token from a starting
/// stack, stopping at the first error.
pub open spec fn run_tokens(st: Seq<i32>, toks: Seq<Seq<char>>) -> Result<Seq<i32>, ErrorModel>
    decreases toks.len(),
{
    if toks.len() == 0 {
        Ok(st)
    } else {
        match token_step(st, toks[0]) {
            Ok(st2) => run_tokens(st2, toks.skip(1)),
            Err(m) => Err(m),
        }
    }
}

/// What evaluating an expression yields: the top of the stack once every
/// token has been processed starting from an empty stack, a
/// `StackUnderflow` if no value remains, or the first error raised by a
/// token. Values left below the top are ignored.
pub open spec fn spec_evaluate(s: Seq<char>) -> Result<i32, ErrorModel> {
    match run_tokens(Seq::empty(), tokens_of(s)) {
        Ok(st) => if st.len() == 0 {
            Err(ErrorModel::StackUnderflow)
        } else {
            Ok(st[0])
        },
        Err(m) => Err(m),
    }
}

/// The outcome of an executable evaluation, with the error carried over to
/// its model.
pub open spec fn outcome(r: Result<i32, EvalError>) -> Result<i32, ErrorModel> {
    match r {
        Ok(v) => Ok(v),
        Err(e) => Err(e@),
    }
}

/// A maximal non-separator run at the front of `s` is the first token, and
/// the rest of the tokens are those of what follows it.
proof fn lemma_tokens_head(s: Seq<char>, j: int)
    requires
        1 <= j <= s.len(),
        forall|k: int| 0 <= k < j ==> !is_space(#[trigger] s[k]),
        j == s.len() || is_space(s[j]),
    ensures
        tokens_of(s) == seq![s.subrange(0, j)] + tokens_of(s.skip(j)),
    decreases j,
{
    if j == 1 {
        assert(seq![s[0]] =~= s.subrange(0, 1));
        assert(tokens_of(s) == seq![seq![s[0]]] + tokens_of(s.skip(1)));
        assert(seq![seq![s[0]]] =~= seq![s.subrange(0, 1)]);
    } else {
        assert(!is_space(s[1]));
        let rest = tokens_of(s.skip(1));
        lemma_tokens_head(s.skip(1), j - 1);
        assert(s.skip(1).subrange(0, j - 1) =~= s.subrange(1, j));
        assert(s.skip(1).skip(j - 1) =~= s.skip(j));
        assert(rest == seq![s.subrange(1, j)] + tokens_of(s.skip(j)));
        assert(rest[0] == s.subrange(1, j));
        assert(rest.skip(1) =~= tokens_of(s.skip(j)));
        assert(seq![s[0]] + s.subrange(1, j) =~= s.subrange(0, j));
        assert(tokens_of(s) == seq![seq![s[0]] + rest[0]] + rest.skip(1));
        assert(seq![seq![s[0]] + rest[0]] =~= seq![s.subrange(0, j)]);
    }
}

/// Whether `c` separates tokens.
fn is_space_char(c: char) -> (b: bool)
    ensures
        b == is_space(c),
{
    c == ' ' || c == '\t' || c == '\n' || c == '\r'
}

/// The end of the token that starts at `start`: the position of the first
/// separator at or after it, or the end of the string.
fn token_end(problem: &str, start: usize, n: usize) -> (j: usize)
    requires
        n == problem@.len(),
        start < n,
        !is_space(problem@[start as int]),
    ensures
        start < j <= n,
        forall|k: int| start <= k < j ==> !is_space(#[trigger] problem@[k]),
        j == n || is_space(problem@[j as int]),
{
    let mut j = start + 1;
    while j < n
        invariant
            start < j <= n,
            n == problem@.len(),
            forall|k: int| start <= k < j ==> !is_space(#[trigger] problem@[k]),
        decreases n - j,
    {
        let cj = problem.get_char(j);
        if is_space_char(cj) {
            return j;
        }
        j = j + 1;
    }
    j
}

/// Running a token sequence is one step on its head, then the rest.
proof fn lemma_run_cons(st: Seq<i32>, t: Seq<char>, rest: Seq<Seq<char>>)
    ensures
        run_tokens(st, seq![t] + rest) == (match token_step(st, t) {
            Ok(st2) => run_tokens(st2, rest),
            Err(m) => Err::<Seq<i32>, ErrorModel>(m),
        }),
{
    let toks = seq![t] + rest;
    assert(toks[0] == t);
    assert(toks.skip(1) =~= rest);
}

/// Evaluates a whitespace-separated expression in Reverse Polish Notation
/// and returns the value it denotes, or the first error met while processing
/// its tokens from left to right.
///
/// The outcome is exactly [`spec_evaluate`] of the input: a literal pushes
/// its value, an operator pops the right operand and then the left one and
/// pushes the wrapped result, `/` fails on a zero divisor, and any other
/// token is invalid. The result is the top of the stack at the end;
/// an exhausted stack fails with `StackUnderflow`.
pub fn evaluate(problem: &str) -> (r: Result<i32, EvalError>)
    ensures
        outcome(r) == spec_evaluate(problem@),
{
    let ghost s = problem@;
    let n = problem.unicode_len();
    let mut stack = RpnStack::new();
    let mut i: usize = 0;
    proof {
        assert(s.skip(0) =~= s);
    }
    while i < n
        invariant
            s == problem@,
            n == s.len(),
            i <= n,
            run_tokens(stack@, tokens_of(s.skip(i as int))) == run_tokens(
                Seq::<i32>::empty(),
                tokens_of(s),
            ),
        decreases n - i,
    {
        let c = problem.get_char(i);
        if is_space_char(c) {
            proof {
                assert(s.skip(i as int).skip(1) =~= s.skip(i as int + 1));
            }
            i = i + 1;
        } else {
            let start = i;
            let j = token_end(problem, start, n);
            let ghost t = s.subrange(start as int, j as int);
            let ghost st0 = stack@;
            proof {
                let sk = s.skip(start as int);
                assert forall|k: int| 0 <= k < j - start as int implies !is_space(
                    #[trigger] sk[k],
                ) by {
                    assert(sk[k] == s[k + start as int]);
                }
                assert(j - start as int == sk.len() || is_space(sk[j - start as int]));
                lemma_tokens_head(sk, j - start as int);
                assert(sk.subrange(0, j - start as int) =~= t);
                assert(sk.skip(j - start as int) =~= s.skip(j as int));
                lemma_run_cons(st0, t, tokens_of(s.skip(j as int)));
                assert(t[0] == c);
            }
            if j == start + 1 && (c == '+' || c == '-' || c == '*' || c == '/') {
                proof {
                    assert(is_op(t));
                }
                let y = match stack.pop() {
                    Ok(v) => v,
                    Err(e) => {
                        proof {
                            assert(st0.len() < 2);
                        }
                        return Err(e);
                    },
                };
                let x = match stack.pop() {
                    Ok(v) => v,
                    Err(e) => {
                        proof {
                            assert(st0.len() < 2);
                        }
                        return Err(e);
                    },
                };
                proof {
                    assert(st0.len() >= 2);
                    assert(y == st0[0] && x == st0[1]);
                    assert(stack@ =~= st0.skip(2));
                }
                let z: i32 = if c == '+' {
                    x.wrapping_add(y)
                } else if c == '-' {
                    x.wrapping_sub(y)
                } else if c == '*' {
                    x.wrapping_mul(y)
                } else {
                    if y == 0 {
                        return Err(EvalError::DivisionByZero);
                    }
                    wrapping_div_i32(x, y)
                };
                stack.push(z);
                proof {
                    assert(stack@ =~= seq![z] + st0.skip(2));
                    assert(token_step(st0, t) == Ok::<Seq<i32>, ErrorModel>(stack@));
                }
                i = j;
            } else {
                proof {
                    assert(!is_op(t));
                }
                match parse_i32(problem, start, j) {
                    Some(v) => {
                        stack.push(v);
                        proof {
                            assert(literal_val(t) as i32 == v);
                            assert(token_step(st0, t) == Ok::<Seq<i32>, ErrorModel>(stack@));
                        }
                        i = j;
                    },
                    None => {
                        let bad = problem.substring_char(start, j);
                        proof {
                            assert(token_step(st0, t) == Err::<Seq<i32>, ErrorModel>(
                                ErrorModel::InvalidToken(t),
                            ));
                        }
                        return Err(EvalError::InvalidToken(bad.to_owned()));
                    },
                }
            }
        }
    }
    proof {
        assert(s.skip(n as int) =~= Seq::<char>::empty());
        assert(tokens_of(s.skip(n as int)) =~= Seq::<Seq<char>>::empty());
    }
    stack.pop()
}

/// An expression with no operators and exactly one literal evaluates to that
/// literal: when the tokens of `s` are a single integer literal, the outcome
/// is its value.
pub proof fn lemma_single_literal(s: Seq<char>)
    requires
        tokens_of(s).len() == 1,
        is_int_literal(tokens_of(s)[0]),
    ensures
        spec_evaluate(s) == Ok::<i32, ErrorModel>(literal_val(tokens_of(s)[0]) as i32),
{
    let t = tokens_of(s)[0];
    assert(!is_op(t)) by {
        if is_op(t) {
            assert(literal_body(t).len() == 0 || !is_digit(t[0]));
        }
    }
    let v = literal_val(t) as i32;
    assert(token_step(Seq::empty(), t) == Ok::<Seq<i32>, ErrorModel>(seq![v]));
    assert(tokens_of(s).skip(1) =~= Seq::<Seq<char>>::empty());
    assert(run_tokens(seq![v], Seq::<Seq<char>>::empty()) == Ok::<Seq<i32>, ErrorModel>(seq![v]));
    assert(run_tokens(Seq::empty(), tokens_of(s)) == Ok::<Seq<i32>, ErrorModel>(seq![v]));
}

/// Evaluation is a pure function of the expression: two calls on the same
/// input string yield the same outcome, with no hidden state carried between
/// them. The `requires` are the contract of [`evaluate`] for each call.
pub proof fn lemma_evaluate_deterministic(
    s: Seq<char>,
    r1: Result<i32, EvalError>,
    r2: Result<i32, EvalError>,
)
    requires
        outcome(r1) == spec_evaluate(s),
        outcome(r2) == spec_evaluate(s),
    ensures
        outcome(r1) == outcome(r2),
        r1 is Ok <==> r2 is Ok,
        r1 is Ok ==> r1 == r2,
{
}

} // verus!