//! The library's laws: properties that relate several functions, stated over
//! the spec model and proved once for all inputs.

use vstd::prelude::*;

verus! {

use vstd::arithmetic::power2::pow2;
use crate::bits::bit_of;
use crate::bits::lemma_pow2_injective;
use crate::bits::row_assignment;
use crate::check::brute_result;
use crate::check::brute_spec;
use crate::expr::Ast;
use crate::expr::eval_expr;
use crate::expr::is_conj_of_literals;
use crate::expr::is_disj_of_literals;
use crate::expr::is_dnf_expr;
use crate::expr::is_knf_expr;
use crate::expr::var_index;
use crate::synth::digit_char;
use crate::synth::var_name_text;
use crate::table::BooleanFunction;
use crate::table::bool_vector;

/// Construction pins the arity: a table of length `2^n` always carries
/// arity exactly `n`, so `from` followed by `get_count_args` returns the
/// unique exponent of the input's length.
pub proof fn lemma_arity_unique(f: BooleanFunction, n: nat)
    requires
        f.wf(),
        f@.len() == pow2(n),
    ensures
        f.arity() == n,
{
    lemma_pow2_injective(f.arity() as nat, n);
}

/// A row index below `2^n` is determined by its `n` low bits.
pub proof fn lemma_bits_determine(r: int, i: int, n: nat)
    requires
        0 <= r < pow2(n),
        0 <= i < pow2(n),
        forall|k: nat| k < n ==> bit_of(r, k) == bit_of(i, k),
    ensures
        r == i,
    decreases n,
{
    if n == 0 {
        assert(pow2(0) == 1) by {
            vstd::arithmetic::power2::lemma2_to64();
        }
    } else {
        vstd::arithmetic::power2::lemma_pow2_unfold(n);
        vstd::arithmetic::power2::lemma_pow2_pos((n - 1) as nat);
        let r2 = r / 2;
        let i2 = i / 2;
        assert(bit_of(r, 0) == bit_of(i, 0));
        assert(pow2(0) == 1) by {
            vstd::arithmetic::power2::lemma2_to64();
        }
        assert(r % 2 == i % 2);
        assert forall|k: nat| k < (n - 1) as nat implies bit_of(r2, k) == bit_of(i2, k) by {
            lemma_bit_of_div2(r, k);
            lemma_bit_of_div2(i, k);
            assert(bit_of(r, (k + 1) as nat) == bit_of(i, (k + 1) as nat));
        }
        lemma_bits_determine(r2, i2, (n - 1) as nat);
        assert(r == 2 * r2 + r % 2);
        assert(i == 2 * i2 + i % 2);
    }
}

/// Bit `k` of `x / 2` is bit `k + 1` of `x`.
proof fn lemma_bit_of_div2(x: int, k: nat)
    requires
        0 <= x,
    ensures
        bit_of(x / 2, k) == bit_of(x, (k + 1) as nat),
{
    vstd::arithmetic::power2::lemma_pow2_unfold((k + 1) as nat);
    vstd::arithmetic::power2::lemma_pow2_pos(k);
    vstd::arithmetic::div_mod::lemma_div_denominator(x, 2, pow2(k) as int);
}

/// The big-endian value of an assignment vector: element 0 is the most
/// significant bit.
pub open spec fn assignment_index(vc: Seq<bool>) -> int
    decreases vc.len(),
{
    if vc.len() == 0 {
        0
    } else {
        assignment_index(vc.drop_last()) * 2 + (if vc.last() {
            1int
        } else {
            0int
        })
    }
}

/// Encoding a row index as its canonical assignment and decoding it again is
/// the identity: the enumerator's assignments carry their row index exactly.
pub proof fn lemma_assignment_round_trip(i: int, n: nat)
    requires
        0 <= i < pow2(n),
    ensures
        assignment_index(row_assignment(i, n)) == i,
    decreases n,
{
    if n == 0 {
        assert(pow2(0) == 1) by {
            vstd::arithmetic::power2::lemma2_to64();
        }
        assert(row_assignment(i, n).len() == 0);
    } else {
        vstd::arithmetic::power2::lemma_pow2_unfold(n);
        let vc = row_assignment(i, n);
        assert(vc.drop_last() =~= row_assignment(i / 2, (n - 1) as nat)) by {
            assert forall|j: int| 0 <= j < n - 1 implies vc.drop_last()[j] == row_assignment(
                i / 2,
                (n - 1) as nat,
            )[j] by {
                lemma_bit_of_div2(i, (n - 1 - 1 - j) as nat);
            }
        }
        assert(pow2(0) == 1) by {
            vstd::arithmetic::power2::lemma2_to64();
        }
        assert(vc.last() == bit_of(i, 0));
        assert(bit_of(i, 0) == (i % 2 == 1));
        lemma_assignment_round_trip(i / 2, (n - 1) as nat);
        assert(i == (i / 2) * 2 + i % 2);
    }
}

/// Distinct row indices carry distinct canonical assignments: the enumerator
/// never repeats an assignment.
pub proof fn lemma_assignments_distinct(r: int, i: int, n: nat)
    requires
        0 <= r < pow2(n),
        0 <= i < pow2(n),
        r != i,
    ensures
        row_assignment(r, n) != row_assignment(i, n),
{
    if row_assignment(r, n) == row_assignment(i, n) {
        assert forall|k: nat| k < n implies bit_of(r, k) == bit_of(i, k) by {
            let j = n - 1 - k;
            assert(row_assignment(r, n)[j as int] == row_assignment(i, n)[j as int]);
        }
        lemma_bits_determine(r, i, n);
    }
}

/// A function's table has at least two rows.
proof fn lemma_rows_exist(f: BooleanFunction)
    requires
        f.wf(),
    ensures
        f@.len() >= 2,
{
    vstd::arithmetic::power2::lemma2_to64();
    if 1 < f.arity() {
        vstd::arithmetic::power2::lemma_pow2_strictly_increases(1, f.arity() as nat);
    }
}

/// Undefined-variable propagation: an expression that mentions any variable
/// outside `x1..xn` never yields a verdict against a function of arity `n`;
/// the check stops on the first row with an error naming, verbatim, such a
/// variable.
pub proof fn lemma_unbound_variable_reported(m: crate::expr::Ast, f: BooleanFunction)
    requires
        f.wf(),
        !crate::expr::all_vars_bound(m, f.arity()),
    ensures
        crate::check::brute_spec(m, f) matches Err(name) && crate::expr::mentions(m, name) && !(1
            <= crate::expr::var_index(name) <= f.arity()),
{
    lemma_rows_exist(f);
    let vc = row_assignment(0, f.arity() as nat);
    assert(vc.len() == f.arity());
    crate::expr::lemma_eval_ok_iff_bound(m, vc);
    assert(crate::expr::eval_expr(m, vc) is Err);
}

/// The converse: when every mentioned variable is bound, the check always
/// reaches a verdict, never an error.
pub proof fn lemma_bound_expression_gets_verdict(m: crate::expr::Ast, f: BooleanFunction)
    requires
        f.wf(),
        crate::expr::all_vars_bound(m, f.arity()),
    ensures
        crate::check::brute_spec(m, f) is Ok,
{
    lemma_brute_ok_from(m, f, 0);
}

proof fn lemma_brute_ok_from(m: crate::expr::Ast, f: BooleanFunction, i: int)
    requires
        f.wf(),
        crate::expr::all_vars_bound(m, f.arity()),
        0 <= i,
    ensures
        crate::check::brute_result(m, f, i) is Ok,
    decreases f@.len() - i,
{
    if i < f@.len() {
        let vc = row_assignment(i, f.arity() as nat);
        crate::expr::lemma_eval_ok_iff_bound(m, vc);
        lemma_brute_ok_from(m, f, i + 1);
    }
}

/// Row-enumeration round trip: the output emitted for row `i` equals element
/// `i` of the function's bool vector, for every row, so reading the
/// enumerator's outputs in order yields exactly `as_vec_bool`.
pub proof fn lemma_enumeration_round_trip(f: BooleanFunction)
    ensures
        bool_vector(f).len() == f@.len(),
        forall|i: int| 0 <= i < f@.len() ==> bool_vector(f)[i] == f.row_val(i),
{
}

/// The literal the synthesizer writes for variable `k`.
pub open spec fn lit_ast(k: int, positive: bool) -> Ast {
    if positive {
        Ast::Var(var_name_text(k))
    } else {
        Ast::Neg(Box::new(Ast::Var(var_name_text(k))))
    }
}

/// The tree of the synthesized clause for assignment `vc`, from variable
/// index `j` on: literals joined by the inner connective, grouped rightward.
pub open spec fn clause_ast(vc: Seq<bool>, skip: bool, j: int) -> Ast
    decreases vc.len() - j,
{
    let lit = lit_ast(j + 1, vc[j] == !skip);
    if j >= vc.len() - 1 {
        lit
    } else {
        if skip {
            Ast::Disj(Box::new(lit), Box::new(clause_ast(vc, skip, j + 1)))
        } else {
            Ast::Conj(Box::new(lit), Box::new(clause_ast(vc, skip, j + 1)))
        }
    }
}

/// The tree of the synthesized form over the rows from `i` on: the clauses
/// of the retained rows, joined by the outer connective, grouped rightward;
/// `None` when no row from `i` on is retained.
pub open spec fn synth_ast_from(f: BooleanFunction, skip: bool, i: int) -> Option<Ast>
    decreases f@.len() - i,
{
    if i < 0 || i >= f@.len() {
        None
    } else {
        let rest = synth_ast_from(f, skip, i + 1);
        if f.row_val(i) == skip {
            rest
        } else {
            let c = clause_ast(row_assignment(i, f.arity() as nat), skip, 0);
            match rest {
                None => Some(c),
                Some(r) => Some(
                    if skip {
                        Ast::Conj(Box::new(c), Box::new(r))
                    } else {
                        Ast::Disj(Box::new(c), Box::new(r))
                    },
                ),
            }
        }
    }
}

/// The tree of the full synthesized form.
pub open spec fn synth_ast(f: BooleanFunction, skip: bool) -> Option<Ast> {
    synth_ast_from(f, skip, 0)
}

/// Each decimal digit character carries its value and is never `'0'` for a
/// positive digit.
proof fn lemma_digit_char_val(d: int)
    requires
        0 <= d <= 9,
    ensures
        crate::expr::is_digit_char(digit_char(d)),
        crate::expr::digit_val(digit_char(d)) == d,
        d >= 1 ==> digit_char(d) != '0',
{
}

/// The variable-naming convention is a round trip: the name the synthesizer
/// writes for variable `k` is read back as index `k` by the evaluator.
pub proof fn lemma_var_index_canonical(k: int)
    requires
        1 <= k <= 99,
    ensures
        var_index(var_name_text(k)) == k,
{
    let name = var_name_text(k);
    if k < 10 {
        lemma_digit_char_val(k);
        assert(name[1] == digit_char(k) && name[1] != '0');
        let digits = name.subrange(1, name.len() as int);
        assert(digits =~= seq![digit_char(k)]);
        crate::expr::lemma_digits_val_single(digits);
    } else {
        vstd::arithmetic::div_mod::lemma_fundamental_div_mod(k, 10);
        vstd::arithmetic::div_mod::lemma_mod_division_less_than_divisor(k, 10);
        lemma_digit_char_val(k / 10);
        lemma_digit_char_val(k % 10);
        assert(name[1] == digit_char(k / 10) && name[1] != '0');
        let digits = name.subrange(1, name.len() as int);
        assert(digits =~= seq![digit_char(k / 10), digit_char(k % 10)]);
        crate::expr::lemma_digits_val_two(digits);
    }
}

/// The assignments agree from position `j` on.
pub open spec fn agrees_from(a: Seq<bool>, vc: Seq<bool>, j: int) -> bool {
    forall|m: int| j <= m < vc.len() ==> a[m] == vc[m]
}

/// A synthesized clause evaluates, under any assignment of the same arity,
/// to whether that assignment matches the clause's own row (DNF), or to its
/// negation (KNF).
proof fn lemma_clause_eval(vc: Seq<bool>, skip: bool, j: int, a: Seq<bool>)
    requires
        vc.len() == a.len(),
        1 <= vc.len() <= 31,
        0 <= j < vc.len(),
    ensures
        eval_expr(clause_ast(vc, skip, j), a) == Ok::<bool, Seq<char>>(
            if skip {
                !agrees_from(a, vc, j)
            } else {
                agrees_from(a, vc, j)
            },
        ),
    decreases vc.len() - j,
{
    lemma_var_index_canonical(j + 1);
    let lit = lit_ast(j + 1, vc[j] == !skip);
    assert(eval_expr(Ast::Var(var_name_text(j + 1)), a) == Ok::<bool, Seq<char>>(a[j]));
    if vc[j] == !skip {
        assert(lit == Ast::Var(var_name_text(j + 1)));
    } else {
        assert(lit == Ast::Neg(Box::new(Ast::Var(var_name_text(j + 1)))));
    }
    assert(eval_expr(lit, a) == Ok::<bool, Seq<char>>(
        if vc[j] == !skip {
            a[j]
        } else {
            !a[j]
        },
    ));
    if j >= vc.len() - 1 {
        assert(agrees_from(a, vc, j) == (a[j] == vc[j]));
    } else {
        lemma_clause_eval(vc, skip, j + 1, a);
        assert(agrees_from(a, vc, j) == (a[j] == vc[j] && agrees_from(a, vc, j + 1)));
    }
}

/// No row from `i` on is retained exactly when no clause tree exists.
proof fn lemma_synth_ast_none(f: BooleanFunction, skip: bool, i: int)
    requires
        0 <= i,
    ensures
        (synth_ast_from(f, skip, i) is None) == (forall|r: int|
            i <= r < f@.len() ==> f.row_val(r) == skip),
    decreases f@.len() - i,
{
    if i < f@.len() {
        lemma_synth_ast_none(f, skip, i + 1);
    }
}

/// The synthesized tree over rows `i..` evaluates, on the assignment of any
/// row `j`, to whether `j` is a retained row at or after `i` — negated for
/// KNF. In particular the full tree computes the function itself.
proof fn lemma_synth_ast_eval(f: BooleanFunction, skip: bool, i: int, j: int)
    requires
        f.wf(),
        0 <= i,
        0 <= j < f@.len(),
    ensures
        synth_ast_from(f, skip, i) matches Some(m) ==> eval_expr(
            m,
            row_assignment(j, f.arity() as nat),
        ) == Ok::<bool, Seq<char>>((i <= j && f.row_val(j) != skip) != skip),
    decreases f@.len() - i,
{
    if i < f@.len() && synth_ast_from(f, skip, i) is Some {
        let n = f.arity() as nat;
        let a = row_assignment(j, n);
        lemma_synth_ast_eval(f, skip, i + 1, j);
        if f.row_val(i) == skip {
            assert((i <= j && f.row_val(j) != skip) == (i + 1 <= j && f.row_val(j) != skip));
        } else {
            let vc = row_assignment(i, n);
            lemma_clause_eval(vc, skip, 0, a);
            assert(agrees_from(a, vc, 0) == (j == i)) by {
                if agrees_from(a, vc, 0) {
                    assert forall|k: nat| k < n implies bit_of(j, k) == bit_of(i, k) by {
                        let m = n - 1 - k;
                        assert(a[m as int] == vc[m as int]);
                    }
                    lemma_bits_determine(j, i, n);
                } else if j == i {
                    assert(forall|m: int| 0 <= m < vc.len() ==> a[m] == vc[m]);
                }
            }
            match synth_ast_from(f, skip, i + 1) {
                None => {
                    lemma_synth_ast_none(f, skip, i + 1);
                    assert((i <= j && f.row_val(j) != skip) == (j == i));
                },
                Some(_) => {},
            }
        }
    }
}

/// The literal tree is a literal, so it is both a one-literal conjunction
/// and a one-literal disjunction.
proof fn lemma_lit_ast_literal(k: int, positive: bool)
    ensures
        crate::expr::is_literal(lit_ast(k, positive)),
        is_conj_of_literals(lit_ast(k, positive)),
        is_disj_of_literals(lit_ast(k, positive)),
{
    let lit = lit_ast(k, positive);
    if positive {
        assert(lit matches Ast::Var(_));
    } else {
        assert(lit matches Ast::Neg(x) && *x matches Ast::Var(_));
    }
    assert(crate::expr::is_literal(lit));
}

/// A clause tree is a conjunction of literals (DNF) or a disjunction of
/// literals (KNF), and never an outer-connective node.
proof fn lemma_clause_ast_normal(vc: Seq<bool>, skip: bool, j: int)
    requires
        0 <= j < vc.len(),
    ensures
        !skip ==> is_conj_of_literals(clause_ast(vc, skip, j)),
        skip ==> is_disj_of_literals(clause_ast(vc, skip, j)),
        !skip ==> !(clause_ast(vc, skip, j) matches Ast::Disj(_, _)),
        skip ==> !(clause_ast(vc, skip, j) matches Ast::Conj(_, _)),
    decreases vc.len() - j,
{
    lemma_lit_ast_literal(j + 1, vc[j] == !skip);
    if j >= vc.len() - 1 {
        assert(clause_ast(vc, skip, j) == lit_ast(j + 1, vc[j] == !skip));
    } else {
        lemma_clause_ast_normal(vc, skip, j + 1);
        if skip {
            assert(clause_ast(vc, skip, j) matches Ast::Disj(_, _));
        } else {
            assert(clause_ast(vc, skip, j) matches Ast::Conj(_, _));
        }
    }
}

/// The synthesized tree is structurally in the claimed normal form.
proof fn lemma_synth_ast_normal(f: BooleanFunction, skip: bool, i: int)
    requires
        f.wf(),
        0 <= i,
    ensures
        synth_ast_from(f, skip, i) matches Some(m) ==> if skip {
            is_knf_expr(m)
        } else {
            is_dnf_expr(m)
        },
    decreases f@.len() - i,
{
    if i < f@.len() {
        lemma_synth_ast_normal(f, skip, i + 1);
        if f.row_val(i) != skip {
            let c = clause_ast(row_assignment(i, f.arity() as nat), skip, 0);
            lemma_clause_ast_normal(row_assignment(i, f.arity() as nat), skip, 0);
            if skip {
                assert(is_knf_expr(c));
            } else {
                assert(is_dnf_expr(c));
            }
            match synth_ast_from(f, skip, i + 1) {
                None => {
                    assert(synth_ast_from(f, skip, i) == Some(c));
                },
                Some(r) => {
                    if skip {
                        assert(synth_ast_from(f, skip, i) matches Some(m) && m matches Ast::Conj(
                            x,
                            y,
                        ) && *x == c && *y == r);
                    } else {
                        assert(synth_ast_from(f, skip, i) matches Some(m) && m matches Ast::Disj(
                            x,
                            y,
                        ) && *x == c && *y == r);
                    }
                },
            }
        }
    }
}

/// When the tree computes the function on every row, the brute-force check
/// accepts.
proof fn lemma_brute_true(m: Ast, f: BooleanFunction, i: int)
    requires
        f.wf(),
        0 <= i,
        forall|j: int|
            0 <= j < f@.len() ==> eval_expr(m, row_assignment(j, f.arity() as nat)) == Ok::<
                bool,
                Seq<char>,
            >(f.row_val(j)),
    ensures
        brute_result(m, f, i) == Ok::<bool, Seq<char>>(true),
    decreases f@.len() - i,
{
    if i < f@.len() {
        assert(eval_expr(m, row_assignment(i, f.arity() as nat)) == Ok::<bool, Seq<char>>(
            f.row_val(i),
        ));
        lemma_brute_true(m, f, i + 1);
    }
}

/// Canonical-form soundness for the full DNF: for every function that is 1
/// on at least one row, the synthesized tree exists, it is structurally a
/// DNF, and the brute-force check accepts it. With the contracts of
/// `get_fdnf`, `parse` and `check_dnf`, this is the semantic half of
/// `check_dnf(f, get_fdnf(f)) == Ok(true)`.
pub proof fn lemma_full_dnf_sound(f: BooleanFunction)
    requires
        f.wf(),
        exists|i: int| 0 <= i < f@.len() && f.row_val(i),
    ensures
        synth_ast(f, false) matches Some(m) && is_dnf_expr(m) && brute_spec(m, f) == Ok::<
            bool,
            Seq<char>,
        >(true),
{
    lemma_synth_ast_none(f, false, 0);
    let i = choose|i: int| 0 <= i < f@.len() && f.row_val(i);
    assert(f.row_val(i) != false);
    let m = synth_ast(f, false)->Some_0;
    lemma_synth_ast_normal(f, false, 0);
    assert forall|j: int| 0 <= j < f@.len() implies eval_expr(
        m,
        row_assignment(j, f.arity() as nat),
    ) == Ok::<bool, Seq<char>>(f.row_val(j)) by {
        lemma_synth_ast_eval(f, false, 0, j);
    }
    lemma_brute_true(m, f, 0);
}

/// Canonical-form soundness for the full KNF: for every function that is 0
/// on at least one row, the synthesized tree exists, it is structurally a
/// KNF, and the brute-force check accepts it.
pub proof fn lemma_full_knf_sound(f: BooleanFunction)
    requires
        f.wf(),
        exists|i: int| 0 <= i < f@.len() && !f.row_val(i),
    ensures
        synth_ast(f, true) matches Some(m) && is_knf_expr(m) && brute_spec(m, f) == Ok::<
            bool,
            Seq<char>,
        >(true),
{
    lemma_synth_ast_none(f, true, 0);
    let i = choose|i: int| 0 <= i < f@.len() && !f.row_val(i);
    assert(f.row_val(i) != true);
    let m = synth_ast(f, true)->Some_0;
    lemma_synth_ast_normal(f, true, 0);
    assert forall|j: int| 0 <= j < f@.len() implies eval_expr(
        m,
        row_assignment(j, f.arity() as nat),
    ) == Ok::<bool, Seq<char>>(f.row_val(j)) by {
        lemma_synth_ast_eval(f, true, 0, j);
    }
    lemma_brute_true(m, f, 0);
}

} // verus!
