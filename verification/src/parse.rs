//! A recursive-descent parser for the expression grammar.
//!
//! Whitespace is insignificant and is removed up front. Over the remaining
//! text the grammar is, from loosest to tightest binding:
//!
//! ```text
//! disjunction ::= conjunction | conjunction 'v' disjunction
//! conjunction ::= unary | unary '&' conjunction
//! unary       ::= '-' unary | primary
//! primary     ::= '(' disjunction ')' | 'x' digit+
//! ```

use vstd::prelude::*;

verus! {

use vstd::string::StrSliceExecFns;
use vstd::string::StringExecFns;
use crate::expr::Ast;
use crate::expr::Expression;
use crate::expr::is_digit_char;
use crate::synth::digit_char;

/// Whitespace characters, insignificant everywhere in the grammar.
pub open spec fn is_ws(c: char) -> bool {
    c == ' ' || c == '\n' || c == '\t' || c == '\r'
}

/// The text with every whitespace character removed.
pub open spec fn significant(s: Seq<char>) -> Seq<char> {
    s.filter(|c: char| !is_ws(c))
}

/// The first position at or after `i` that does not hold a digit.
pub open spec fn digits_end(t: Seq<char>, i: int) -> int
    decreases t.len() - i,
{
    if 0 <= i && i < t.len() && is_digit_char(t[i]) {
        digits_end(t, i + 1)
    } else {
        i
    }
}

/// Parses a primary at position `i` of the whitespace-free text `t`: a
/// parenthesized disjunction, or a variable (`x` followed by digits). On
/// success it yields the tree and the position just past what was consumed.
pub open spec fn parse_primary(t: Seq<char>, i: int) -> Option<(Ast, int)>
    decreases t.len() - i, 0int,
{
    if i < 0 || i >= t.len() {
        None
    } else if t[i] == '(' {
        match parse_disj(t, i + 1) {
            Some((m, j)) => if 0 <= j && j < t.len() && t[j] == ')' {
                Some((m, j + 1))
            } else {
                None
            },
            None => None,
        }
    } else if t[i] == 'x' {
        let d = digits_end(t, i + 1);
        if d > i + 1 {
            Some((Ast::Var(t.subrange(i, d)), d))
        } else {
            None
        }
    } else {
        None
    }
}

/// Parses a chain of negations applied to a primary.
pub open spec fn parse_unary(t: Seq<char>, i: int) -> Option<(Ast, int)>
    decreases t.len() - i, 1int,
{
    if i < 0 || i >= t.len() {
        None
    } else if t[i] == '-' {
        match parse_unary(t, i + 1) {
            Some((m, j)) => Some((Ast::Neg(Box::new(m)), j)),
            None => None,
        }
    } else {
        parse_primary(t, i)
    }
}

/// Parses a conjunction: unary operands joined by `&`, grouped to the right.
pub open spec fn parse_conj(t: Seq<char>, i: int) -> Option<(Ast, int)>
    decreases t.len() - i, 2int,
{
    match parse_unary(t, i) {
        Some((a, j)) => if i < j && j < t.len() && t[j] == '&' {
            match parse_conj(t, j + 1) {
                Some((b, k)) => Some((Ast::Conj(Box::new(a), Box::new(b)), k)),
                None => None,
            }
        } else {
            Some((a, j))
        },
        None => None,
    }
}

/// Parses a disjunction: conjunctions joined by `v`, grouped to the right.
pub open spec fn parse_disj(t: Seq<char>, i: int) -> Option<(Ast, int)>
    decreases t.len() - i, 3int,
{
    match parse_conj(t, i) {
        Some((a, j)) => if i < j && j < t.len() && t[j] == 'v' {
            match parse_disj(t, j + 1) {
                Some((b, k)) => Some((Ast::Disj(Box::new(a), Box::new(b)), k)),
                None => None,
            }
        } else {
            Some((a, j))
        },
        None => None,
    }
}

/// What parsing a whole text yields: `Some` exactly when the text is ASCII
/// and its whitespace-free form is one complete disjunction.
pub open spec fn parse_text(s: Seq<char>) -> Option<Ast> {
    if !vstd::utf8::is_ascii_chars(s) {
        None
    } else {
        let t = significant(s);
        match parse_disj(t, 0) {
            Some((m, j)) => if j == t.len() {
                Some(m)
            } else {
                None
            },
            None => None,
        }
    }
}

/// The byte vector holds, one byte per character, the ASCII text `t`.
pub open spec fn bytes_match(tb: Seq<u8>, t: Seq<char>) -> bool {
    &&& tb.len() == t.len()
    &&& forall|k: int|
        0 <= k < t.len() ==> (#[trigger] tb[k]) == t[k] as u8 && '\0' <= t[k] <= '\u{7f}'
}

/// What each byte of a matching byte vector says of its character.
proof fn lemma_byte_char(tb: Seq<u8>, t: Seq<char>, k: int)
    requires
        bytes_match(tb, t),
        0 <= k < t.len(),
    ensures
        tb[k] == t[k] as u8,
        (tb[k] == 40 <==> t[k] == '('),
        (tb[k] == 41 <==> t[k] == ')'),
        (tb[k] == 45 <==> t[k] == '-'),
        (tb[k] == 38 <==> t[k] == '&'),
        (tb[k] == 118 <==> t[k] == 'v'),
        (tb[k] == 120 <==> t[k] == 'x'),
        (48 <= tb[k] <= 57 <==> is_digit_char(t[k])),
        is_digit_char(t[k]) ==> digit_char(tb[k] - 48) == t[k],
{
    assert(tb[k] == t[k] as u8 && '\0' <= t[k] <= '\u{7f}');
}

/// Removing a whitespace character leaves the significant text unchanged;
/// any other character is kept.
proof fn lemma_significant_push(s: Seq<char>, c: char)
    ensures
        !is_ws(c) ==> significant(s.push(c)) == significant(s).push(c),
        is_ws(c) ==> significant(s.push(c)) == significant(s),
{
    reveal(Seq::filter);
    assert(s.push(c).drop_last() =~= s);
    assert(s.push(c).last() == c);
}

fn parse_primary_exec(tb: &Vec<u8>, pos: usize, Ghost(t): Ghost<Seq<char>>) -> (r: Option<
    (Expression, usize),
>)
    requires
        bytes_match(tb@, t),
        pos <= tb@.len(),
    ensures
        match parse_primary(t, pos as int) {
            Some(p) => r matches Some(q) && q.0@ == p.0 && q.1 as int == p.1 && pos < q.1 <= tb@.len(),
            None => r is None,
        },
    decreases tb@.len() - pos, 0int,
{
    if pos >= tb.len() {
        return None;
    }
    let b = tb[pos];
    if b == 40 {
        // '('
        proof {
            lemma_byte_char(tb@, t, pos as int);
        }
        match parse_disj_exec(tb, pos + 1, Ghost(t)) {
            Some((m, j)) => {
                if j < tb.len() && tb[j] == 41 {
                    proof {
                        lemma_byte_char(tb@, t, j as int);
                    }
                    Some((m, j + 1))
                } else {
                    proof {
                        if j < tb@.len() {
                            lemma_byte_char(tb@, t, j as int);
                        }
                    }
                    None
                }
            },
            None => None,
        }
    } else if b == 120 {
        // 'x'
        proof {
            lemma_byte_char(tb@, t, pos as int);
        }
        let mut j = pos + 1;
        while j < tb.len() && 48 <= tb[j] && tb[j] <= 57
            invariant
                bytes_match(tb@, t),
                pos + 1 <= j <= tb@.len(),
                digits_end(t, pos + 1 as int) == digits_end(t, j as int),
                forall|m: int| pos + 1 <= m < j ==> is_digit_char(#[trigger] t[m]),
            decreases tb@.len() - j,
        {
            proof {
                lemma_byte_char(tb@, t, j as int);
                assert(is_digit_char(t[j as int]));
                assert(digits_end(t, j as int) == digits_end(t, j + 1 as int));
            }
            j = j + 1;
        }
        proof {
            if j < tb@.len() {
                lemma_byte_char(tb@, t, j as int);
                assert(!is_digit_char(t[j as int]));
            }
            assert(digits_end(t, j as int) == j as int);
        }
        if j > pos + 1 {
            let mut name = String::from_str("x");
            proof {
                reveal_strlit("x");
                assert(name@ =~= t.subrange(pos as int, pos + 1 as int));
            }
            let mut k = pos + 1;
            while k < j
                invariant
                    bytes_match(tb@, t),
                    pos + 1 <= k <= j <= tb@.len(),
                    t[pos as int] == 'x',
                    forall|m: int| pos + 1 <= m < j ==> is_digit_char(#[trigger] t[m]),
                    name@ == t.subrange(pos as int, k as int),
                decreases j - k,
            {
                proof {
                    lemma_byte_char(tb@, t, k as int);
                    assert(is_digit_char(t[k as int]));
                }
                let d = tb[k] - 48;
                name.append(crate::synth::digit_str(d as u32));
                proof {
                    lemma_byte_char(tb@, t, k as int);
                    assert(digit_char(d as int) == t[k as int]);
                    assert(name@ =~= t.subrange(pos as int, k + 1 as int));
                }
                k = k + 1;
            }
            proof {
                assert(parse_primary(t, pos as int) == Some(
                    (Ast::Var(t.subrange(pos as int, j as int)), j as int),
                ));
            }
            Some((Expression::Var(name), j))
        } else {
            None
        }
    } else {
        proof {
            lemma_byte_char(tb@, t, pos as int);
        }
        None
    }
}

fn parse_unary_exec(tb: &Vec<u8>, pos: usize, Ghost(t): Ghost<Seq<char>>) -> (r: Option<
    (Expression, usize),
>)
    requires
        bytes_match(tb@, t),
        pos <= tb@.len(),
    ensures
        match parse_unary(t, pos as int) {
            Some(p) => r matches Some(q) && q.0@ == p.0 && q.1 as int == p.1 && pos < q.1 <= tb@.len(),
            None => r is None,
        },
    decreases tb@.len() - pos, 1int,
{
    if pos >= tb.len() {
        return None;
    }
    if tb[pos] == 45 {
        // '-'
        proof {
            lemma_byte_char(tb@, t, pos as int);
        }
        match parse_unary_exec(tb, pos + 1, Ghost(t)) {
            Some((m, j)) => {
                let e = Expression::Neg(Box::new(m));
                proof {
                    assert(e@ matches Ast::Neg(n) && *n == m@);
                }
                Some((e, j))
            },
            None => None,
        }
    } else {
        proof {
            if pos < tb@.len() {
                lemma_byte_char(tb@, t, pos as int);
            }
        }
        parse_primary_exec(tb, pos, Ghost(t))
    }
}

fn parse_conj_exec(tb: &Vec<u8>, pos: usize, Ghost(t): Ghost<Seq<char>>) -> (r: Option<
    (Expression, usize),
>)
    requires
        bytes_match(tb@, t),
        pos <= tb@.len(),
    ensures
        match parse_conj(t, pos as int) {
            Some(p) => r matches Some(q) && q.0@ == p.0 && q.1 as int == p.1 && pos < q.1 <= tb@.len(),
            None => r is None,
        },
    decreases tb@.len() - pos, 2int,
{
    match parse_unary_exec(tb, pos, Ghost(t)) {
        None => None,
        Some((a, j)) => {
            if j < tb.len() && tb[j] == 38 {
                // '&'
                proof {
                    lemma_byte_char(tb@, t, j as int);
                }
                match parse_conj_exec(tb, j + 1, Ghost(t)) {
                    Some((bexp, k)) => {
                        let e = Expression::Conj(Box::new(a), Box::new(bexp));
                        proof {
                            assert(e@ matches Ast::Conj(x, y) && *x == a@ && *y == bexp@);
                        }
                        Some((e, k))
                    },
                    None => None,
                }
            } else {
                proof {
                    if j < tb@.len() {
                        lemma_byte_char(tb@, t, j as int);
                    }
                }
                Some((a, j))
            }
        },
    }
}

fn parse_disj_exec(tb: &Vec<u8>, pos: usize, Ghost(t): Ghost<Seq<char>>) -> (r: Option<
    (Expression, usize),
>)
    requires
        bytes_match(tb@, t),
        pos <= tb@.len(),
    ensures
        match parse_disj(t, pos as int) {
            Some(p) => r matches Some(q) && q.0@ == p.0 && q.1 as int == p.1 && pos < q.1 <= tb@.len(),
            None => r is None,
        },
    decreases tb@.len() - pos, 3int,
{
    match parse_conj_exec(tb, pos, Ghost(t)) {
        None => None,
        Some((a, j)) => {
            if j < tb.len() && tb[j] == 118 {
                // 'v'
                proof {
                    lemma_byte_char(tb@, t, j as int);
                }
                match parse_disj_exec(tb, j + 1, Ghost(t)) {
                    Some((bexp, k)) => {
                        let e = Expression::Disj(Box::new(a), Box::new(bexp));
                        proof {
                            assert(e@ matches Ast::Disj(x, y) && *x == a@ && *y == bexp@);
                        }
                        Some((e, k))
                    },
                    None => None,
                }
            } else {
                proof {
                    if j < tb@.len() {
                        lemma_byte_char(tb@, t, j as int);
                    }
                }
                Some((a, j))
            }
        },
    }
}

/// Parses an expression text. Succeeds exactly when `parse_text` accepts the
/// text, and then returns the tree that `parse_text` names.
pub fn parse(s: &str) -> (r: Result<Expression, String>)
    ensures
        match parse_text(s@) {
            Some(m) => r matches Ok(e) && e@ == m,
            None => r is Err,
        },
{
    if !s.is_ascii() {
        return Err(String::from_str("The expression holds an unsupported character."));
    }
    let len = s.unicode_len();
    let mut tb: Vec<u8> = Vec::new();
    let mut i: usize = 0;
    while i < len
        invariant
            vstd::string::is_ascii(s),
            len == s@.len(),
            i <= len,
            bytes_match(tb@, significant(s@.subrange(0, i as int))),
        decreases len - i,
    {
        let b = s.get_ascii(i);
        let ws = b == 32 || b == 10 || b == 9 || b == 13;
        if !ws {
            tb.push(b);
        }
        proof {
            let c = s@[i as int];
            assert(vstd::utf8::is_ascii_chars(s@));
            assert(c <= '\u{7f}');
            assert(ws == is_ws(c));
            assert(s@.subrange(0, i + 1 as int) =~= s@.subrange(0, i as int).push(c));
            lemma_significant_push(s@.subrange(0, i as int), c);
        }
        i = i + 1;
    }
    proof {
        assert(s@.subrange(0, len as int) =~= s@);
    }
    match parse_disj_exec(&tb, 0, Ghost(significant(s@))) {
        Some((e, j)) => {
            if j == tb.len() {
                Ok(e)
            } else {
                Err(String::from_str("Unexpected input after the expression."))
            }
        },
        None => Err(String::from_str("Malformed expression.")),
    }
}

} // verus!
