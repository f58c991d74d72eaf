//! Canonical normal-form synthesis: the full DNF (one conjunctive term per
//! row where the function is 1) and the full KNF (one disjunctive clause per
//! row where the function is 0), with clauses in ascending row-index order.

use vstd::prelude::*;

verus! {

use vstd::string::StringExecFns;
use crate::bits::row_assignment;
use crate::table::BooleanFunction;
use crate::table::BooleanFunctionIterator;

/// The character for a single decimal digit.
pub open spec fn digit_char(d: int) -> char {
    if d == 0 {
        '0'
    } else if d == 1 {
        '1'
    } else if d == 2 {
        '2'
    } else if d == 3 {
        '3'
    } else if d == 4 {
        '4'
    } else if d == 5 {
        '5'
    } else if d == 6 {
        '6'
    } else if d == 7 {
        '7'
    } else if d == 8 {
        '8'
    } else {
        '9'
    }
}

/// The text of variable `k`'s name, `x1` through `x99`.
pub open spec fn var_name_text(k: int) -> Seq<char> {
    if k < 10 {
        seq!['x', digit_char(k)]
    } else {
        seq!['x', digit_char(k / 10), digit_char(k % 10)]
    }
}

/// The text of a literal over variable `k`: the bare name, or its negation.
pub open spec fn literal_text(k: int, positive: bool) -> Seq<char> {
    if positive {
        var_name_text(k)
    } else {
        seq!['-'] + var_name_text(k)
    }
}

/// The connective inside one clause: AND for DNF terms, OR for KNF clauses.
pub open spec fn inner_sym(skip: bool) -> char {
    if skip {
        'v'
    } else {
        '&'
    }
}

/// The connective joining clauses: OR between DNF terms, AND between KNF
/// clauses.
pub open spec fn outer_sym(skip: bool) -> char {
    if skip {
        '&'
    } else {
        'v'
    }
}

/// The first `i` literal pieces of the clause for assignment `vc`: an opening
/// parenthesis, the literals for `x1..` joined by the inner connective, and a
/// closing parenthesis after the last. Variable `j + 1` appears bare when
/// `vc[j] == !skip`, negated otherwise.
pub open spec fn clause_text_upto(vc: Seq<bool>, skip: bool, i: int) -> Seq<char>
    decreases i,
{
    if i <= 0 {
        Seq::empty()
    } else {
        clause_text_upto(vc, skip, i - 1) + (if i - 1 == 0 {
            seq!['(']
        } else {
            Seq::empty()
        }) + literal_text(i, vc[i - 1] == !skip) + (if i == vc.len() {
            seq![')']
        } else {
            seq![inner_sym(skip)]
        })
    }
}

/// The complete clause for assignment `vc`.
pub open spec fn clause_text(vc: Seq<bool>, skip: bool) -> Seq<char> {
    clause_text_upto(vc, skip, vc.len() as int)
}

/// The synthesized text after the first `i` rows: clauses for the retained
/// rows (those whose output differs from `skip`), joined by the outer
/// connective and a newline, in ascending row order.
pub open spec fn synth_text_upto(f: BooleanFunction, skip: bool, i: int) -> Seq<char>
    decreases i,
{
    if i <= 0 {
        Seq::empty()
    } else {
        let prev = synth_text_upto(f, skip, i - 1);
        if f.row_val(i - 1) == skip {
            prev
        } else {
            prev + (if prev.len() > 0 {
                seq![outer_sym(skip), '\n']
            } else {
                Seq::empty()
            }) + clause_text(row_assignment(i - 1, f.arity() as nat), skip)
        }
    }
}

/// The full synthesized text: DNF for `skip == false`, KNF for `skip == true`.
/// It is empty exactly when no row is retained.
pub open spec fn synth_text(f: BooleanFunction, skip: bool) -> Seq<char> {
    synth_text_upto(f, skip, f@.len() as int)
}

pub(crate) fn digit_str(d: u32) -> (r: &'static str)
    requires
        d <= 9,
    ensures
        r@ == seq![digit_char(d as int)],
{
    let r: &'static str = match d {
        0 => "0",
        1 => "1",
        2 => "2",
        3 => "3",
        4 => "4",
        5 => "5",
        6 => "6",
        7 => "7",
        8 => "8",
        _ => "9",
    };
    proof {
        reveal_strlit("0");
        reveal_strlit("1");
        reveal_strlit("2");
        reveal_strlit("3");
        reveal_strlit("4");
        reveal_strlit("5");
        reveal_strlit("6");
        reveal_strlit("7");
        reveal_strlit("8");
        reveal_strlit("9");
        assert(r@ =~= seq![digit_char(d as int)]);
    }
    r
}

fn append_var_name(expr: &mut String, k: u32)
    requires
        1 <= k <= 99,
    ensures
        final(expr)@ == old(expr)@ + var_name_text(k as int),
{
    expr.append("x");
    proof {
        reveal_strlit("x");
    }
    if k < 10 {
        expr.append(digit_str(k));
        proof {
            assert(final(expr)@ =~= old(expr)@ + var_name_text(k as int));
        }
    } else {
        expr.append(digit_str(k / 10));
        expr.append(digit_str(k % 10));
        proof {
            assert(final(expr)@ =~= old(expr)@ + var_name_text(k as int));
        }
    }
}

#[verifier::rlimit(50)]
fn append_clause(expr: &mut String, vals: &Vec<bool>, skip: bool)
    requires
        1 <= vals@.len() <= 31,
    ensures
        final(expr)@ == old(expr)@ + clause_text(vals@, skip),
{
    let n = vals.len();
    let mut k: usize = 0;
    while k < n
        invariant
            n == vals@.len(),
            1 <= n <= 31,
            k <= n,
            expr@ == old(expr)@ + clause_text_upto(vals@, skip, k as int),
        decreases n - k,
    {
        if k == 0 {
            expr.append("(");
        }
        let positive = vals[k] == !skip;
        if !positive {
            expr.append("-");
        }
        append_var_name(expr, (k + 1) as u32);
        if k == n - 1 {
            expr.append(")");
        } else if skip {
            expr.append("v");
        } else {
            expr.append("&");
        }
        proof {
            reveal_strlit("(");
            reveal_strlit(")");
            reveal_strlit("-");
            reveal_strlit("v");
            reveal_strlit("&");
            assert(expr@ =~= old(expr)@ + clause_text_upto(vals@, skip, k + 1 as int));
        }
        k = k + 1;
    }
}

/// A clause is never the empty text.
pub proof fn lemma_clause_text_nonempty(vc: Seq<bool>, skip: bool)
    requires
        vc.len() >= 1,
    ensures
        clause_text(vc, skip).len() > 0,
{
}

fn get_expression(func: &BooleanFunction, func_value_skip: bool) -> (expr: String)
    ensures
        expr@ == synth_text(*func, func_value_skip),
{
    proof {
        use_type_invariant(func);
    }
    let mut expr = String::new();
    let mut nonempty = false;
    let mut it = BooleanFunctionIterator::new(func);
    loop
        invariant
            it.func() == *func,
            1 <= func.arity() <= 31,
            func@.len() == vstd::arithmetic::power2::pow2(func.arity() as nat),
            0 <= it.pos() <= func@.len(),
            nonempty == (synth_text_upto(*func, func_value_skip, it.pos()).len() > 0),
            expr@ == synth_text_upto(*func, func_value_skip, it.pos()),
        ensures
            expr@ == synth_text(*func, func_value_skip),
        decreases func@.len() - it.pos(),
    {
        let ghost i = it.pos();
        match it.next() {
            None => {
                proof {
                    assert(it.pos() == func@.len());
                }
                break ;
            },
            Some((vals, f_val)) => {
                if f_val != func_value_skip {
                    if nonempty {
                        if func_value_skip {
                            expr.append("&\n");
                        } else {
                            expr.append("v\n");
                        }
                    }
                    append_clause(&mut expr, &vals, func_value_skip);
                    proof {
                        reveal_strlit("&\n");
                        reveal_strlit("v\n");
                        lemma_clause_text_nonempty(vals@, func_value_skip);
                        assert(expr@ =~= synth_text_upto(*func, func_value_skip, i + 1));
                    }
                    nonempty = true;
                }
            },
        }
    }
    expr
}

/// The full (canonical) disjunctive normal form of the function: one
/// parenthesized conjunctive term per row with output 1, terms joined by `v`.
pub fn get_fdnf(func: &BooleanFunction) -> (r: String)
    ensures
        r@ == synth_text(*func, false),
{
    get_expression(func, false)
}

/// The full (canonical) conjunctive normal form of the function: one
/// parenthesized disjunctive clause per row with output 0, clauses joined by
/// `&`.
pub fn get_fknf(func: &BooleanFunction) -> (r: String)
    ensures
        r@ == synth_text(*func, true),
{
    get_expression(func, true)
}

} // verus!
