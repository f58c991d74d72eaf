//! The brute-force equivalence checker and the end-to-end DNF/KNF verifiers.

use vstd::prelude::*;

verus! {

use vstd::string::StringExecFns;
use crate::bits::row_assignment;
use crate::expr::Ast;
use crate::expr::Expression;
use crate::expr::eval_expr;
use crate::expr::is_dnf_expr;
use crate::expr::is_knf_expr;
use crate::expr::undefined_var_msg;
use crate::parse::parse_text;
use crate::table::BooleanFunction;
use crate::table::BooleanFunctionIterator;

/// The verdict of checking expression `m` against function `f` from row `i`
/// on: the first evaluation error stops the check and is reported; otherwise
/// the first row whose value differs from the table gives `Ok(false)`; if
/// every remaining row agrees the verdict is `Ok(true)`.
pub open spec fn brute_result(m: Ast, f: BooleanFunction, i: int) -> Result<bool, Seq<char>>
    decreases f@.len() - i,
{
    if i < 0 || i >= f@.len() {
        Ok(true)
    } else {
        match eval_expr(m, row_assignment(i, f.arity() as nat)) {
            Err(name) => Err(name),
            Ok(v) => if v != f.row_val(i) {
                Ok(false)
            } else {
                brute_result(m, f, i + 1)
            },
        }
    }
}

/// The verdict of checking expression `m` against the whole table of `f`.
pub open spec fn brute_spec(m: Ast, f: BooleanFunction) -> Result<bool, Seq<char>> {
    brute_result(m, f, 0)
}

/// Checks the expression against every row of the function's table, in
/// ascending row order, stopping at the first evaluation error or the first
/// disagreeing row.
pub fn brute_func_vals(expression: Expression, func: BooleanFunction) -> (r: Result<bool, String>)
    ensures
        match brute_spec(expression@, func) {
            Ok(b) => r == Result::<bool, String>::Ok(b),
            Err(name) => r matches Err(msg) && msg@ == undefined_var_msg(name),
        },
{
    proof {
        use_type_invariant(&func);
    }
    let mut it = BooleanFunctionIterator::new(&func);
    loop
        invariant
            it.func() == func,
            1 <= func.arity() <= 31,
            func@.len() == vstd::arithmetic::power2::pow2(func.arity() as nat),
            0 <= it.pos() <= func@.len(),
            brute_result(expression@, func, it.pos()) == brute_spec(expression@, func),
        ensures
            brute_spec(expression@, func) == Result::<bool, Seq<char>>::Ok(true),
        decreases func@.len() - it.pos(),
    {
        let ghost i = it.pos();
        match it.next() {
            None => {
                break ;
            },
            Some((vc, func_val)) => {
                match expression.evaluate(&vc) {
                    Ok(cur) => {
                        if func_val != cur {
                            proof {
                                assert(brute_result(expression@, func, i) == Result::<
                                    bool,
                                    Seq<char>,
                                >::Ok(false));
                            }
                            return Ok(false);
                        }
                    },
                    Err(e) => {
                        return Err(e);
                    },
                }
            },
        }
    }
    Ok(true)
}

/// Checks that a text is a correct disjunctive normal form for the function:
/// it must parse, be structurally a DNF, and agree with the function's truth
/// table on every row.
pub fn check_dnf(func: BooleanFunction, expression: &str) -> (r: Result<bool, String>)
    ensures
        match parse_text(expression@) {
            None => r is Err,
            Some(m) => if !is_dnf_expr(m) {
                r matches Err(msg) && msg@ == "This is not DNF"@
            } else {
                match brute_spec(m, func) {
                    Ok(b) => r == Result::<bool, String>::Ok(b),
                    Err(name) => r matches Err(msg) && msg@ == undefined_var_msg(name),
                }
            },
        },
{
    let expression = match crate::parse::parse(expression) {
        Ok(e) => e,
        Err(msg) => {
            return Err(msg);
        },
    };
    if !crate::expr::is_dnf(&expression) {
        return Err(String::from_str("This is not DNF"));
    }
    brute_func_vals(expression, func)
}

/// Checks that a text is a correct conjunctive normal form for the function:
/// it must parse, be structurally a KNF, and agree with the function's truth
/// table on every row.
pub fn check_knf(func: BooleanFunction, expression: &str) -> (r: Result<bool, String>)
    ensures
        match parse_text(expression@) {
            None => r is Err,
            Some(m) => if !is_knf_expr(m) {
                r matches Err(msg) && msg@ == "This is not KNF"@
            } else {
                match brute_spec(m, func) {
                    Ok(b) => r == Result::<bool, String>::Ok(b),
                    Err(name) => r matches Err(msg) && msg@ == undefined_var_msg(name),
                }
            },
        },
{
    let expression = match crate::parse::parse(expression) {
        Ok(e) => e,
        Err(msg) => {
            return Err(msg);
        },
    };
    if !crate::expr::is_knf(&expression) {
        return Err(String::from_str("This is not KNF"));
    }
    brute_func_vals(expression, func)
}

} // verus!
