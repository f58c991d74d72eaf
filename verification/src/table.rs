//! The truth-table value type: a validated bit string together with its arity.

use rand::Rng;
use vstd::prelude::*;

verus! {

use vstd::arithmetic::power2::pow2;
use vstd::string::StrSliceExecFns;
use crate::bits::lemma_pow2_injective;
use crate::bits::lemma_pow2_le_usize_max;

/// A truth-table character: `'0'` or `'1'`.
pub open spec fn is_bit_char(c: char) -> bool {
    c == '0' || c == '1'
}

/// Every character of the sequence is a truth-table bit.
pub open spec fn is_bit_string(s: Seq<char>) -> bool {
    forall|i: int| 0 <= i < s.len() ==> is_bit_char(#[trigger] s[i])
}

/// A table length is valid when it is `2^n` for some arity `n` in `[1, 31]`.
pub open spec fn valid_table_len(len: nat) -> bool {
    exists|n: nat| 1 <= n <= 31 && len == pow2(n)
}

/// The complete truth table of a boolean function of `count_arguments`
/// variables: bit `i` of `func` is the output for the assignment whose
/// big-endian encoding is the row index `i`.
#[derive(Debug)]
pub struct BooleanFunction {
    func: String,
    count_arguments: i32,
}

impl Clone for BooleanFunction {
    fn clone(&self) -> (r: Self)
        ensures
            r == *self,
    {
        proof {
            use_type_invariant(self);
        }
        BooleanFunction { func: self.func.clone(), count_arguments: self.count_arguments }
    }
}

impl View for BooleanFunction {
    type V = Seq<char>;

    closed spec fn view(&self) -> Seq<char> {
        self.func@
    }
}

impl BooleanFunction {
    /// The number of variables, as a mathematical integer.
    pub closed spec fn arity(self) -> int {
        self.count_arguments as int
    }

    /// The output bit for row `i`.
    pub open spec fn row_val(self, i: int) -> bool {
        self@[i] == '1'
    }

    /// The table invariant: a bit string of length `2^arity`, arity in `[1, 31]`.
    /// It holds of every constructed value; `use_type_invariant` recovers it.
    #[verifier::type_invariant]
    pub open spec fn wf(self) -> bool {
        &&& is_bit_string(self@)
        &&& 1 <= self.arity() <= 31
        &&& self@.len() == pow2(self.arity() as nat)
    }

    fn check_valid_value(s: &str) -> (ok: bool)
        ensures
            ok == is_bit_string(s@),
    {
        let len = s.unicode_len();
        let mut i: usize = 0;
        let mut ok = true;
        while i < len
            invariant
                len == s@.len(),
                i <= len,
                ok == is_bit_string(s@.subrange(0, i as int)),
            decreases len - i,
        {
            let c = s.get_char(i);
            let bit = c == '0' || c == '1';
            proof {
                assert(s@.subrange(0, i + 1 as int) == s@.subrange(0, i as int).push(s@[i as int]));
                if ok && bit {
                    assert forall|j: int| 0 <= j < i + 1 implies is_bit_char(
                        #[trigger] s@.subrange(0, i + 1 as int)[j],
                    ) by {
                        if j < i {
                            assert(is_bit_char(s@.subrange(0, i as int)[j]));
                        }
                    }
                } else if !bit {
                    assert(!is_bit_char(s@.subrange(0, i + 1 as int)[i as int]));
                } else {
                    let j = choose|j: int|
                        0 <= j < i && !is_bit_char(#[trigger] s@.subrange(0, i as int)[j]);
                    assert(!is_bit_char(s@.subrange(0, i + 1 as int)[j]));
                }
            }
            ok = ok && bit;
            i = i + 1;
        }
        proof {
            assert(s@.subrange(0, len as int) == s@);
        }
        ok
    }

    fn check_valid_size(len: usize) -> (r: (bool, i32))
        ensures
            r.0 == valid_table_len(len as nat),
            r.0 ==> 1 <= r.1 <= 31 && len == pow2(r.1 as nat),
    {
        let mut count: i32 = 1;
        let mut p: usize = 2;
        proof {
            lemma_pow2_le_usize_max(31);
            vstd::arithmetic::power2::lemma2_to64();
        }
        while p < len && count < 31
            invariant
                1 <= count <= 31,
                p == pow2(count as nat),
                p <= pow2(31),
                pow2(31) <= usize::MAX,
                count == 1 || pow2((count - 1) as nat) < len,
            decreases 31 - count,
        {
            proof {
                vstd::arithmetic::power2::lemma_pow2_unfold((count + 1) as nat);
                if count + 1 < 31 {
                    vstd::arithmetic::power2::lemma_pow2_strictly_increases(
                        (count + 1) as nat,
                        31,
                    );
                }
            }
            p = p * 2;
            count = count + 1;
        }
        let ok = p == len;
        proof {
            if ok {
                assert(valid_table_len(len as nat)) by {
                    assert(1 <= count as nat <= 31 && len == pow2(count as nat));
                }
            } else {
                assert forall|n: nat| 1 <= n <= 31 implies len != pow2(n) by {
                    if p < len {
                        // the loop stopped at count == 31, so len > pow2(31)
                        if n < 31 {
                            vstd::arithmetic::power2::lemma_pow2_strictly_increases(n, 31);
                        }
                    } else {
                        // pow2(count - 1) < len < pow2(count)
                        if count == 1 {
                            // len < 2, so len is 0 or 1
                            vstd::arithmetic::power2::lemma_pow2_pos(n);
                            if 1 < n {
                                vstd::arithmetic::power2::lemma_pow2_strictly_increases(1, n);
                            }
                        } else {
                            if n <= count - 1 {
                                if n < count - 1 {
                                    vstd::arithmetic::power2::lemma_pow2_strictly_increases(
                                        n,
                                        (count - 1) as nat,
                                    );
                                }
                            } else {
                                if (count as nat) < n {
                                    vstd::arithmetic::power2::lemma_pow2_strictly_increases(
                                        count as nat,
                                        n,
                                    );
                                }
                            }
                        }
                    }
                }
            }
        }
        (ok, count)
    }

    /// Validates a bit string and wraps it as a boolean function.
    /// Succeeds exactly on bit strings whose length is `2^n`, `1 <= n <= 31`.
    pub fn from(s: &str) -> (r: Result<Self, &'static str>)
        ensures
            r is Ok <==> is_bit_string(s@) && valid_table_len(s@.len()),
            r matches Ok(f) ==> f@ == s@ && 1 <= f.arity() <= 31 && s@.len() == pow2(
                f.arity() as nat,
            ),
            !is_bit_string(s@) ==> r == Result::<Self, &'static str>::Err(
                "Invalid function value. Function must be consist by 0 or 1.",
            ),
            is_bit_string(s@) && !valid_table_len(s@.len()) ==> r == Result::<
                Self,
                &'static str,
            >::Err("Invalid function length. Function length must be a power of two."),
    {
        if !Self::check_valid_value(s) {
            return Err("Invalid function value. Function must be consist by 0 or 1.");
        }
        let (ok, count) = Self::check_valid_size(s.unicode_len());
        if ok {
            Ok(BooleanFunction { func: s.to_owned(), count_arguments: count })
        } else {
            Err("Invalid function length. Function length must be a power of two.")
        }
    }

    /// The number of variables of the function.
    pub fn get_count_args(&self) -> (n: i32)
        ensures
            n == self.arity(),
            1 <= n <= 31,
    {
        proof {
            use_type_invariant(self);
        }
        self.count_arguments
    }

    /// The raw truth-table text.
    pub fn get_func(&self) -> (t: &String)
        ensures
            t@ == self@,
    {
        &self.func
    }

    /// The table as a vector of booleans, in row order: element `i` is true
    /// exactly when the output for row `i` is 1.
    pub fn as_vec_bool(&self) -> (r: Vec<bool>)
        ensures
            r@ == bool_vector(*self),
    {
        proof {
            use_type_invariant(self);
        }
        let s = self.func.as_str();
        let len = s.unicode_len();
        let mut vector: Vec<bool> = Vec::new();
        let mut i: usize = 0;
        while i < len
            invariant
                len == self@.len(),
                s@ == self@,
                i <= len,
                vector@ =~= bool_vector(*self).subrange(0, i as int),
            decreases len - i,
        {
            vector.push(s.get_char(i) == '1');
            i = i + 1;
        }
        proof {
            assert(vector@ =~= bool_vector(*self));
        }
        vector
    }

    /// The sub-function obtained by fixing one variable to a constant value.
    /// Argument numbering is right to left and 0-based: argument 0 is the
    /// rightmost variable `xn`. Row `j` of the result is the output at the
    /// row obtained by inserting the fixed bit at position `num_arg` of `j`.
    pub fn remainde_boolean_function(&self, num_arg: i32, value: bool) -> (r: Result<
        String,
        &'static str,
    >)
        ensures
            r is Ok <==> 0 <= num_arg < self.arity(),
            r matches Ok(t) ==> t@ == restrict_table(self@, num_arg as nat, value),
            !(0 <= num_arg < self.arity()) ==> r == Result::<String, &'static str>::Err(
                "Argument number greater than maximum.",
            ),
    {
        proof {
            use_type_invariant(self);
        }
        if num_arg >= self.count_arguments || num_arg < 0 {
            return Err("Argument number greater than maximum.");
        }
        let n = self.count_arguments as u32;
        let k = num_arg as u32;
        let half = crate::bits::pow2_exec(n - 1);
        let block = crate::bits::pow2_exec(k);
        proof {
            lemma_pow2_le_usize_max(n as nat);
            vstd::arithmetic::power2::lemma_pow2_unfold(n as nat);
            vstd::arithmetic::power2::lemma_pow2_unfold((k + 1) as nat);
            if k + 1 < n {
                vstd::arithmetic::power2::lemma_pow2_strictly_increases((k + 1) as nat, n as nat);
            }
            vstd::arithmetic::power2::lemma_pow2_pos(k as nat);
        }
        let s = self.func.as_str();
        let mut string = String::new();
        let mut j: usize = 0;
        while j < half
            invariant
                s@ == self@,
                is_bit_string(self@),
                self@.len() == pow2(n as nat),
                half == pow2((n - 1) as nat),
                2 * half == pow2(n as nat),
                block == pow2(k as nat),
                block >= 1,
                2 * block <= pow2(n as nat),
                pow2(n as nat) <= usize::MAX,
                0 <= k < n <= 31,
                j <= half,
                restrict_table(self@, k as nat, value).len() == half,
                string@ =~= restrict_table(self@, k as nat, value).subrange(0, j as int),
            decreases half - j,
        {
            proof {
                lemma_restrict_src_in_range(j as int, k as nat, (n - 1) as nat);
                vstd::arithmetic::div_mod::lemma_fundamental_div_mod(j as int, block as int);
                vstd::arithmetic::div_mod::lemma_mod_division_less_than_divisor(
                    j as int,
                    block as int,
                );
                vstd::arithmetic::div_mod::lemma_div_pos_is_pos(j as int, block as int);
                assert((j as int / block as int) * (2 * block as int) <= restrict_src(
                    j as int,
                    k as nat,
                    value,
                ));
                assert(restrict_src(j as int, k as nat, value) < pow2(n as nat));
            }
            let i = (j / block) * (2 * block) + (if value {
                block
            } else {
                0
            }) + (j % block);
            proof {
                assert(i == restrict_src(j as int, k as nat, value));
            }
            let one = s.get_char(i) == '1';
            if one {
                string.append("1");
            } else {
                string.append("0");
            }
            proof {
                reveal_strlit("0");
                reveal_strlit("1");
                assert(is_bit_char(self@[i as int]));
                assert(string@ =~= restrict_table(self@, k as nat, value).subrange(
                    0,
                    j + 1 as int,
                ));
            }
            j = j + 1;
        }
        proof {
            assert(string@ =~= restrict_table(self@, k as nat, value));
        }
        Ok(string)
    }

    /// A uniformly random boolean function of `n` variables (`n` is clamped
    /// to at most 31). Each table bit is drawn independently.
    pub fn with_count_args(n: i32) -> (r: Self)
        requires
            1 <= n,
        ensures
            r.arity() == if n <= 31 {
                n as int
            } else {
                31
            },
    {
        let n: i32 = if n < 31 {
            n
        } else {
            31
        };
        let rows = crate::bits::pow2_exec(n as u32);
        let mut string = String::new();
        let mut i: usize = 0;
        while i < rows
            invariant
                i <= rows,
                string@.len() == i,
                is_bit_string(string@),
            decreases rows - i,
        {
            let ghost prev = string@;
            let val = get_random(2);
            if val == 1 {
                string.append("1");
            } else {
                string.append("0");
            }
            proof {
                reveal_strlit("0");
                reveal_strlit("1");
                assert(string@.len() == i + 1);
                assert forall|m: int| 0 <= m < string@.len() implies is_bit_char(
                    #[trigger] string@[m],
                ) by {
                    if m < i {
                        assert(string@[m] == prev[m]);
                        assert(is_bit_char(prev[m]));
                    }
                }
            }
            i = i + 1;
        }
        proof {
            assert(valid_table_len(string@.len())) by {
                assert(1 <= n as nat <= 31 && string@.len() == pow2(n as nat));
            }
        }
        match Self::from(string.as_str()) {
            Ok(f) => {
                proof {
                    lemma_pow2_injective(f.arity() as nat, n as nat);
                }
                f
            },
            Err(_) => vstd::pervasive::unreached(),
        }
    }
}

/// The table as a sequence of booleans, in row order.
pub open spec fn bool_vector(f: BooleanFunction) -> Seq<bool> {
    Seq::new(f@.len(), |i: int| f.row_val(i))
}

/// The row of the original table that row `j` of a restricted table reads:
/// the fixed bit `v` is inserted at position `k` of `j`.
pub open spec fn restrict_src(j: int, k: nat, v: bool) -> int {
    (j / pow2(k) as int) * (2 * pow2(k) as int) + (if v {
        pow2(k) as int
    } else {
        0
    }) + j % pow2(k) as int
}

/// The restricted table: entry `j` is the original output at `restrict_src`.
pub open spec fn restrict_table(table: Seq<char>, k: nat, v: bool) -> Seq<char> {
    Seq::new(table.len() / 2, |j: int| table[restrict_src(j, k, v)])
}

/// `restrict_src` lands inside the original table.
pub proof fn lemma_restrict_src_in_range(j: int, k: nat, m: nat)
    requires
        0 <= j < pow2(m),
        k <= m,
    ensures
        0 <= restrict_src(j, k, true) < 2 * pow2(m),
        0 <= restrict_src(j, k, false) < 2 * pow2(m),
{
    vstd::arithmetic::power2::lemma_pow2_pos(k);
    vstd::arithmetic::power2::lemma_pow2_pos((m - k) as nat);
    vstd::arithmetic::power2::lemma_pow2_adds(k, (m - k) as nat);
    let b = pow2(k) as int;
    let w = pow2((m - k) as nat) as int;
    let q = j / b;
    let r = j % b;
    vstd::arithmetic::div_mod::lemma_fundamental_div_mod(j, b);
    vstd::arithmetic::div_mod::lemma_mod_division_less_than_divisor(j, b);
    vstd::arithmetic::div_mod::lemma_div_pos_is_pos(j, b);
    vstd::arithmetic::div_mod::lemma_multiply_divide_lt(j, b, w);
    assert(q * (2 * b) + b + r < 2 * (b * w)) by (nonlinear_arith)
        requires
            0 <= q,
            q <= w - 1,
            0 <= r < b,
            1 <= b,
            1 <= w,
    ;
    assert(0 <= q * (2 * b)) by (nonlinear_arith)
        requires
            0 <= q,
            0 <= b,
    ;
}

/// Enumerates the rows of a truth table in ascending row-index order: for
/// each row it yields the canonical variable assignment (the big-endian
/// expansion of the row index) and the function's output bit. Each
/// assignment is derived from the row index alone.
pub struct BooleanFunctionIterator<'a> {
    bool_func: &'a BooleanFunction,
    current: usize,
}

impl<'a> BooleanFunctionIterator<'a> {
    /// The function being enumerated.
    pub closed spec fn func(self) -> BooleanFunction {
        *self.bool_func
    }

    /// The index of the next row to emit.
    pub closed spec fn pos(self) -> int {
        self.current as int
    }

    /// A fresh enumerator positioned at row 0.
    pub fn new(bool_func: &'a BooleanFunction) -> (it: Self)
        ensures
            it.func() == *bool_func,
            it.pos() == 0,
    {
        BooleanFunctionIterator { bool_func, current: 0 }
    }

    /// Emits the next `(assignment, output)` pair, or `None` once every row
    /// has been emitted.
    pub fn next(&mut self) -> (r: Option<(Vec<bool>, bool)>)
        ensures
            final(self).func() == old(self).func(),
            old(self).pos() < old(self).func()@.len() ==> {
                &&& final(self).pos() == old(self).pos() + 1
                &&& r matches Some(p) && p.0@ == crate::bits::row_assignment(
                    old(self).pos(),
                    old(self).func().arity() as nat,
                ) && p.1 == old(self).func().row_val(old(self).pos())
            },
            old(self).pos() >= old(self).func()@.len() ==> r is None && *final(self) == *old(self),
    {
        proof {
            use_type_invariant(self.bool_func);
        }
        let n = self.bool_func.get_count_args() as u32;
        let rows = crate::bits::pow2_exec(n);
        if self.current >= rows {
            return None;
        }
        let cur = self.current;
        let ghost nn = n as nat;
        let mut vc: Vec<bool> = Vec::new();
        let mut mask = crate::bits::pow2_exec(n - 1);
        let mut j: u32 = 0;
        while j < n
            invariant
                j <= n,
                1 <= n <= 31,
                j < n ==> mask == pow2((n - 1 - j) as nat),
                vc@ =~= crate::bits::row_assignment(cur as int, nn).subrange(0, j as int),
                nn == n as nat,
            decreases n - j,
        {
            proof {
                vstd::arithmetic::power2::lemma_pow2_pos((n - 1 - j) as nat);
            }
            let value = (cur / mask) % 2 == 1;
            vc.push(value);
            proof {
                assert(crate::bits::row_assignment(cur as int, nn)[j as int] == crate::bits::bit_of(
                    cur as int,
                    (nn - 1 - j) as nat,
                ));
                assert(vc@ =~= crate::bits::row_assignment(cur as int, nn).subrange(
                    0,
                    j + 1 as int,
                ));
                if j + 1 < n {
                    vstd::arithmetic::power2::lemma_pow2_unfold((n - 1 - j) as nat);
                }
            }
            mask = mask / 2;
            j = j + 1;
        }
        proof {
            assert(vc@ =~= crate::bits::row_assignment(cur as int, nn));
        }
        let out = self.bool_func.get_func().as_str().get_char(cur) == '1';
        self.current = cur + 1;
        Some((vc, out))
    }
}

/// Relies on `rand::Rng::gen_range` over the range `0..n`: the sample always
/// lies in that range; nothing else is assumed of it.
#[verifier::external_body]
pub fn get_random(n: i32) -> (r: i32)
    requires
        1 <= n,
    ensures
        0 <= r < n,
{
    let mut rng = rand::thread_rng();
    let random_number = rng.gen_range(0..n);
    random_number
}

} // verus!
