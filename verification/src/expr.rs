//! The abstract syntax of logical expressions, their evaluation under a row
//! assignment, and the structural normal-form classifiers.
//!
//! Variable naming is the crate-wide convention: `x1` is bound to element 0
//! of the assignment (the most significant row bit), `xn` to element `n - 1`.

use vstd::prelude::*;

verus! {

use vstd::string::StrSliceExecFns;
use vstd::string::StringExecFns;

/// A logical expression over variables `x1`, `x2`, ...
pub enum Expression {
    Var(String),
    Neg(Box<Expression>),
    Conj(Box<Expression>, Box<Expression>),
    Disj(Box<Expression>, Box<Expression>),
}

/// The mathematical shape of an expression: the same tree with variable
/// names as character sequences. Contracts speak of this model.
pub enum Ast {
    Var(Seq<char>),
    Neg(Box<Ast>),
    Conj(Box<Ast>, Box<Ast>),
    Disj(Box<Ast>, Box<Ast>),
}

/// The model of an expression tree.
pub open spec fn expr_model(e: Expression) -> Ast
    decreases e,
{
    match e {
        Expression::Var(name) => Ast::Var(name@),
        Expression::Neg(a) => Ast::Neg(Box::new(expr_model(*a))),
        Expression::Conj(a, b) => Ast::Conj(Box::new(expr_model(*a)), Box::new(expr_model(*b))),
        Expression::Disj(a, b) => Ast::Disj(Box::new(expr_model(*a)), Box::new(expr_model(*b))),
    }
}

impl View for Expression {
    type V = Ast;

    open spec fn view(&self) -> Ast {
        expr_model(*self)
    }
}

pub open spec fn is_digit_char(c: char) -> bool {
    '0' <= c && c <= '9'
}

pub open spec fn digit_val(c: char) -> int {
    c as int - '0' as int
}

/// The value of a decimal digit string.
pub open spec fn digits_val(s: Seq<char>) -> int
    decreases s.len(),
{
    if s.len() == 0 {
        0
    } else {
        digits_val(s.drop_last()) * 10 + digit_val(s.last())
    }
}

/// The variable index named by `name`: `var_index("x7") == 7`. A name that
/// is not `x` followed by a canonical (no leading zero) positive decimal
/// number gets index 0, which no binding ever carries.
pub open spec fn var_index(name: Seq<char>) -> int {
    if name.len() >= 2 && name[0] == 'x' && name[1] != '0' && (forall|i: int|
        1 <= i < name.len() ==> is_digit_char(#[trigger] name[i])) {
        digits_val(name.subrange(1, name.len() as int))
    } else {
        0
    }
}

/// A canonical digit string of `k` digits is at least `10^(k-1)`; in
/// particular three or more digits name an index past every admissible arity.
pub proof fn lemma_digits_val_lower(s: Seq<char>)
    requires
        s.len() >= 1,
        forall|i: int| 0 <= i < s.len() ==> is_digit_char(#[trigger] s[i]),
        s[0] != '0',
    ensures
        digits_val(s) >= 1,
        s.len() >= 2 ==> digits_val(s) >= 10,
        s.len() >= 3 ==> digits_val(s) >= 100,
    decreases s.len(),
{
    if s.len() == 1 {
        lemma_digits_val_single(s);
        assert(is_digit_char(s[0]));
        assert(s[0] as int >= '0' as int && s[0] as int != '0' as int);
    } else {
        let front = s.drop_last();
        assert forall|i: int| 0 <= i < front.len() implies is_digit_char(#[trigger] front[i]) by {
            assert(front[i] == s[i]);
            assert(is_digit_char(s[i]));
        }
        assert(front[0] == s[0]);
        lemma_digits_val_lower(front);
        assert(is_digit_char(s.last()));
    }
}

/// `digits_val` of a one-digit string.
pub proof fn lemma_digits_val_single(s: Seq<char>)
    requires
        s.len() == 1,
    ensures
        digits_val(s) == digit_val(s[0]),
{
    assert(s.drop_last().len() == 0);
    assert(digits_val(s.drop_last()) == 0);
    assert(s.last() == s[0]);
}

/// `digits_val` of a two-digit string.
pub proof fn lemma_digits_val_two(s: Seq<char>)
    requires
        s.len() == 2,
    ensures
        digits_val(s) == digit_val(s[0]) * 10 + digit_val(s[1]),
{
    lemma_digits_val_single(s.drop_last());
    assert(s.drop_last()[0] == s[0]);
    assert(s.last() == s[1]);
}

/// The result of evaluating an expression under an assignment: the value, or
/// the name of the first (leftmost) referenced variable that has no binding.
pub open spec fn eval_expr(e: Ast, vc: Seq<bool>) -> Result<bool, Seq<char>>
    decreases e,
{
    match e {
        Ast::Var(name) => {
            let k = var_index(name);
            if 1 <= k && k <= vc.len() {
                Ok(vc[k - 1])
            } else {
                Err(name)
            }
        },
        Ast::Neg(a) => match eval_expr(*a, vc) {
            Ok(b) => Ok(!b),
            Err(m) => Err(m),
        },
        Ast::Conj(a, b) => match eval_expr(*a, vc) {
            Ok(x) => match eval_expr(*b, vc) {
                Ok(y) => Ok(x && y),
                Err(m) => Err(m),
            },
            Err(m) => Err(m),
        },
        Ast::Disj(a, b) => match eval_expr(*a, vc) {
            Ok(x) => match eval_expr(*b, vc) {
                Ok(y) => Ok(x || y),
                Err(m) => Err(m),
            },
            Err(m) => Err(m),
        },
    }
}

/// The message reported when a referenced variable has no binding; it carries
/// the variable's name verbatim.
pub open spec fn undefined_var_msg(name: Seq<char>) -> Seq<char> {
    "Undefined variable: "@ + name
}

impl Expression {
    /// Evaluates the expression under the assignment `x1 = vc[0], ...,
    /// xn = vc[n-1]`. Fails with a message naming the first (leftmost)
    /// referenced variable that has no binding.
    pub fn evaluate(&self, vc: &Vec<bool>) -> (r: Result<bool, String>)
        requires
            vc@.len() <= 31,
        ensures
            match eval_expr(self@, vc@) {
                Ok(b) => r == Result::<bool, String>::Ok(b),
                Err(name) => r matches Err(m) && m@ == undefined_var_msg(name),
            },
        decreases *self,
    {
        match self {
            Expression::Var(name) => match var_lookup(name, vc) {
                Some(b) => Ok(b),
                None => {
                    let mut m = String::from_str("Undefined variable: ");
                    m.append(name.as_str());
                    Err(m)
                },
            },
            Expression::Neg(a) => match a.evaluate(vc) {
                Ok(b) => Ok(!b),
                Err(m) => Err(m),
            },
            Expression::Conj(a, b) => match a.evaluate(vc) {
                Ok(x) => match b.evaluate(vc) {
                    Ok(y) => Ok(x && y),
                    Err(m) => Err(m),
                },
                Err(m) => Err(m),
            },
            Expression::Disj(a, b) => match a.evaluate(vc) {
                Ok(x) => match b.evaluate(vc) {
                    Ok(y) => Ok(x || y),
                    Err(m) => Err(m),
                },
                Err(m) => Err(m),
            },
        }
    }
}

/// Looks a variable name up in the assignment: `Some` exactly when the name
/// is canonical and its index is within the assignment.
fn var_lookup(name: &String, vc: &Vec<bool>) -> (r: Option<bool>)
    requires
        vc@.len() <= 31,
    ensures
        1 <= var_index(name@) <= vc@.len() ==> r == Some(vc@[var_index(name@) - 1]),
        !(1 <= var_index(name@) <= vc@.len()) ==> r is None,
{
    let s = name.as_str();
    if !s.is_ascii() {
        proof {
            // a non-ASCII name contains a character that is neither 'x' nor a digit
            assert(var_index(name@) == 0) by {
                if name@.len() >= 2 && name@[0] == 'x' && name@[1] != '0' && (forall|i: int|
                    1 <= i < name@.len() ==> is_digit_char(#[trigger] name@[i])) {
                    assert forall|i: int| 0 <= i < name@.len() implies '\0' <= #[trigger] name@[i]
                        <= '\u{7f}' by {
                        if i >= 1 {
                            assert(is_digit_char(name@[i]));
                        }
                    }
                    assert(vstd::utf8::is_ascii_chars(name@));
                }
            }
        }
        return None;
    }
    let len = s.unicode_len();
    if len < 2 {
        return None;
    }
    if s.get_ascii(0) != 120 {
        // not 'x'
        proof {
            assert(name@[0] != 'x');
        }
        return None;
    }
    // every remaining character must be a digit, with no leading zero
    let mut i: usize = 1;
    while i < len
        invariant
            s@ == name@,
            s.is_ascii(),
            len == name@.len(),
            1 <= i <= len,
            forall|m: int| 1 <= m < i ==> is_digit_char(#[trigger] name@[m]),
        decreases len - i,
    {
        let d = s.get_ascii(i);
        if d < 48 || d > 57 {
            proof {
                assert(!is_digit_char(name@[i as int]));
            }
            return None;
        }
        proof {
            assert(is_digit_char(name@[i as int]));
        }
        i = i + 1;
    }
    if s.get_ascii(1) == 48 {
        // leading zero
        proof {
            assert(name@[1] == '0');
        }
        return None;
    }
    let ghost digits = name@.subrange(1, name@.len() as int);
    proof {
        assert forall|m: int| 0 <= m < digits.len() implies is_digit_char(
            #[trigger] digits[m],
        ) by {
            assert(digits[m] == name@[m + 1]);
        }
        assert(digits[0] == name@[1]);
        lemma_digits_val_lower(digits);
        assert(var_index(name@) == digits_val(digits));
    }
    if len > 3 {
        // at least three digits: the index is 100 or more, past any arity
        return None;
    }
    let mut idx: u32 = (s.get_ascii(1) - 48) as u32;
    proof {
        assert(digits[0] == name@[1] && is_digit_char(digits[0]));
        assert(idx == digit_val(digits[0]));
    }
    if len == 3 {
        let d2 = (s.get_ascii(2) - 48) as u32;
        proof {
            lemma_digits_val_two(digits);
            assert(digits[1] == name@[2] && is_digit_char(digits[1]));
            assert(d2 == digit_val(digits[1]));
        }
        idx = idx * 10 + d2;
    } else {
        proof {
            lemma_digits_val_single(digits);
        }
    }
    proof {
        assert(idx == var_index(name@));
    }
    if 1 <= idx && (idx as usize) <= vc.len() {
        Some(vc[(idx - 1) as usize])
    } else {
        None
    }
}

/// The expression mentions a variable with this exact name.
pub open spec fn mentions(m: Ast, name: Seq<char>) -> bool
    decreases m,
{
    match m {
        Ast::Var(n) => n == name,
        Ast::Neg(a) => mentions(*a, name),
        Ast::Conj(a, b) => mentions(*a, name) || mentions(*b, name),
        Ast::Disj(a, b) => mentions(*a, name) || mentions(*b, name),
    }
}

/// Every variable the expression mentions is bound by an assignment of
/// length `n`: its index lies in `[1, n]`.
pub open spec fn all_vars_bound(m: Ast, n: int) -> bool
    decreases m,
{
    match m {
        Ast::Var(nm) => 1 <= var_index(nm) <= n,
        Ast::Neg(a) => all_vars_bound(*a, n),
        Ast::Conj(a, b) => all_vars_bound(*a, n) && all_vars_bound(*b, n),
        Ast::Disj(a, b) => all_vars_bound(*a, n) && all_vars_bound(*b, n),
    }
}

/// Evaluation succeeds exactly when every mentioned variable is bound, and a
/// failure names, verbatim, a mentioned variable that is not.
pub proof fn lemma_eval_ok_iff_bound(m: Ast, vc: Seq<bool>)
    ensures
        (eval_expr(m, vc) is Ok) == all_vars_bound(m, vc.len() as int),
        eval_expr(m, vc) matches Err(name) ==> mentions(m, name) && !(1 <= var_index(name)
            <= vc.len()),
    decreases m,
{
    match m {
        Ast::Var(_) => {},
        Ast::Neg(a) => {
            lemma_eval_ok_iff_bound(*a, vc);
        },
        Ast::Conj(a, b) => {
            lemma_eval_ok_iff_bound(*a, vc);
            lemma_eval_ok_iff_bound(*b, vc);
        },
        Ast::Disj(a, b) => {
            lemma_eval_ok_iff_bound(*a, vc);
            lemma_eval_ok_iff_bound(*b, vc);
        },
    }
}

/// A literal: a variable or a negated variable.
pub open spec fn is_literal(e: Ast) -> bool {
    match e {
        Ast::Var(_) => true,
        Ast::Neg(a) => *a matches Ast::Var(_),
        _ => false,
    }
}

/// A conjunction of one or more literals.
pub open spec fn is_conj_of_literals(e: Ast) -> bool
    decreases e,
{
    match e {
        Ast::Conj(a, b) => is_conj_of_literals(*a) && is_conj_of_literals(*b),
        _ => is_literal(e),
    }
}

/// A disjunction of one or more literals.
pub open spec fn is_disj_of_literals(e: Ast) -> bool
    decreases e,
{
    match e {
        Ast::Disj(a, b) => is_disj_of_literals(*a) && is_disj_of_literals(*b),
        _ => is_literal(e),
    }
}

/// Disjunctive normal form: a disjunction of conjunctions of literals.
pub open spec fn is_dnf_expr(e: Ast) -> bool
    decreases e,
{
    match e {
        Ast::Disj(a, b) => is_dnf_expr(*a) && is_dnf_expr(*b),
        _ => is_conj_of_literals(e),
    }
}

/// Conjunctive normal form: a conjunction of disjunctions of literals.
pub open spec fn is_knf_expr(e: Ast) -> bool
    decreases e,
{
    match e {
        Ast::Conj(a, b) => is_knf_expr(*a) && is_knf_expr(*b),
        _ => is_disj_of_literals(e),
    }
}

fn is_literal_exec(e: &Expression) -> (r: bool)
    ensures
        r == is_literal(e@),
{
    match e {
        Expression::Var(_) => {
            proof {
                assert(is_literal(e@));
            }
            true
        },
        Expression::Neg(a) => {
            let r = match &**a {
                Expression::Var(_) => true,
                Expression::Neg(_) => false,
                Expression::Conj(_, _) => false,
                Expression::Disj(_, _) => false,
            };
            proof {
                assert(e@ matches Ast::Neg(m) && *m == expr_model(**a));
                assert(r == expr_model(**a) matches Ast::Var(_));
            }
            r
        },
        Expression::Conj(_, _) => {
            proof {
                assert(!is_literal(e@));
            }
            false
        },
        Expression::Disj(_, _) => {
            proof {
                assert(!is_literal(e@));
            }
            false
        },
    }
}

fn is_conj_exec(e: &Expression) -> (r: bool)
    ensures
        r == is_conj_of_literals(e@),
    decreases *e,
{
    match e {
        Expression::Conj(a, b) => is_conj_exec(a) && is_conj_exec(b),
        _ => is_literal_exec(e),
    }
}

fn is_disj_exec(e: &Expression) -> (r: bool)
    ensures
        r == is_disj_of_literals(e@),
    decreases *e,
{
    match e {
        Expression::Disj(a, b) => is_disj_exec(a) && is_disj_exec(b),
        _ => is_literal_exec(e),
    }
}

/// Decides whether the expression is syntactically in disjunctive normal form.
pub fn is_dnf(e: &Expression) -> (r: bool)
    ensures
        r == is_dnf_expr(e@),
    decreases *e,
{
    match e {
        Expression::Disj(a, b) => is_dnf(a) && is_dnf(b),
        _ => is_conj_exec(e),
    }
}

/// Decides whether the expression is syntactically in conjunctive normal form.
pub fn is_knf(e: &Expression) -> (r: bool)
    ensures
        r == is_knf_expr(e@),
    decreases *e,
{
    match e {
        Expression::Conj(a, b) => is_knf(a) && is_knf(b),
        _ => is_disj_exec(e),
    }
}

} // verus!
