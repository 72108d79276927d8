//! Formulas of the profile models: syntax and parse tree.
//!
//! Recursive descent with the usual precedence:
//!
//! ```text
//! sum     := product (('+' | '-') product)*
//! product := unary (('*' | '/') unary)*
//! unary   := '-' unary | '+' unary | atom
//! atom    := '(' sum ')' | number | '"' name '"' | name | name '(' args ')'
//! ```
//!
//! White space may stand between tokens. A formula is checked when the
//! profile loads: whoever writes an instrument learns of an unclosed
//! parenthesis when the bench starts, not at the first measurement.
use vstd::prelude::*;
use crate::crucible_error::CrucibleError;
use vstd::string::StringSliceAdditionalSpecFns;
use crate::text::{int_text, push_char, push_nat_text, push_str, string_from};

verus! {

/// `u8::is_ascii_whitespace`.
pub open spec fn is_ws(b: u8) -> bool {
    b == 32u8 || b == 9u8 || b == 10u8 || b == 12u8 || b == 13u8
}

pub open spec fn is_digit_byte(b: u8) -> bool {
    48u8 <= b <= 57u8
}

pub open spec fn is_alpha_byte(b: u8) -> bool {
    (65u8 <= b <= 90u8) || (97u8 <= b <= 122u8)
}

/// A character that may continue a name: letter, digit or underscore.
pub open spec fn is_name_byte(b: u8) -> bool {
    is_alpha_byte(b) || is_digit_byte(b) || b == 95u8
}

/// A character of the body of a number: digit or point.
pub open spec fn is_number_byte(b: u8) -> bool {
    is_digit_byte(b) || b == 46u8
}

/// The position of the first byte at or after `p` that is not white space.
pub open spec fn skip_ws(s: Seq<u8>, p: int) -> int
    decreases s.len() - p,
{
    if 0 <= p < s.len() && is_ws(s[p]) {
        skip_ws(s, p + 1)
    } else {
        p
    }
}

/// The end of the run of name bytes that starts at `p`.
pub open spec fn scan_name(s: Seq<u8>, p: int) -> int
    decreases s.len() - p,
{
    if 0 <= p < s.len() && is_name_byte(s[p]) {
        scan_name(s, p + 1)
    } else {
        p
    }
}

/// The end of the run of number bytes that starts at `p`.
pub open spec fn scan_number(s: Seq<u8>, p: int) -> int
    decreases s.len() - p,
{
    if 0 <= p < s.len() && is_number_byte(s[p]) {
        scan_number(s, p + 1)
    } else {
        p
    }
}

/// The end of the run of digits that starts at `p`.
pub open spec fn scan_digits(s: Seq<u8>, p: int) -> int
    decreases s.len() - p,
{
    if 0 <= p < s.len() && is_digit_byte(s[p]) {
        scan_digits(s, p + 1)
    } else {
        p
    }
}

/// The position of the first double quote at or after `p`, or the length.
pub open spec fn find_quote(s: Seq<u8>, p: int) -> int
    decreases s.len() - p,
{
    if 0 <= p < s.len() && s[p] != 34u8 {
        find_quote(s, p + 1)
    } else {
        p
    }
}

/// How many points a byte string holds.
pub open spec fn count_points(m: Seq<u8>) -> nat
    decreases m.len(),
{
    if m.len() == 0 {
        0
    } else {
        count_points(m.drop_last()) + if m.last() == 46u8 { 1nat } else { 0nat }
    }
}

/// Whether a byte string holds a digit.
pub open spec fn has_digit(m: Seq<u8>) -> bool {
    exists|i: int| 0 <= i < m.len() && is_digit_byte(m[i])
}

/// The end of the optional exponent of a number whose body ends at `e`: the
/// `e` counts only when digits follow it, with or without a sign.
pub open spec fn number_end(s: Seq<u8>, e: int) -> int {
    if 0 <= e < s.len() && (s[e] == 101u8 || s[e] == 69u8) {
        let f0 = e + 1;
        let f = if f0 < s.len() && (s[f0] == 43u8 || s[f0] == 45u8) { f0 + 1 } else { f0 };
        if f < s.len() && is_digit_byte(s[f]) {
            scan_digits(s, f)
        } else {
            e
        }
    } else {
        e
    }
}

/// The characters of an ASCII byte string.
pub open spec fn ascii_text(b: Seq<u8>) -> Seq<char> {
    b.map_values(|x: u8| x as char)
}

/// The functions a formula may call and how many arguments each takes.
pub open spec fn arity_of(name: Seq<u8>) -> Option<nat> {
    if name == "gauss"@.map_values(|c: char| c as u8) {
        Some(2)
    } else if name == "abs"@.map_values(|c: char| c as u8) {
        Some(1)
    } else if name == "sqrt"@.map_values(|c: char| c as u8) {
        Some(1)
    } else if name == "min"@.map_values(|c: char| c as u8) {
        Some(2)
    } else if name == "max"@.map_values(|c: char| c as u8) {
        Some(2)
    } else {
        None
    }
}

/// Why and where a formula was rejected; positions count bytes from zero.
pub struct ParseFailure {
    pub reason: Seq<char>,
    pub pos: int,
}

pub open spec fn fail(reason: Seq<char>, pos: int) -> ParseFailure {
    ParseFailure { reason, pos }
}

/// The reason given for a call of an unknown function.
pub open spec fn unknown_function(name: Seq<u8>) -> Seq<char> {
    "función '"@ + ascii_text(name) + "' desconocida; existen: gauss, abs, sqrt, min, max"@
}

/// The reason given for a call with the wrong number of arguments.
pub open spec fn wrong_arity(name: Seq<u8>, arity: nat, got: nat) -> Seq<char> {
    ascii_text(name) + " necesita "@ + int_text(arity as int) + " argumento(s) y recibe "@ + int_text(got as int)
}

/// The parse tree of a formula as the grammar builds it: `+ -` and `* /`
/// associate to the left, a leading `+` leaves its operand as it is, and
/// numbers and names keep their text.
pub enum Tree {
    Num(Seq<char>),
    Var(Seq<char>),
    Neg(Box<Tree>),
    Bin(char, Box<Tree>, Box<Tree>),
    Func(Seq<char>, Seq<Tree>),
}

/// A sum, read from `p`: its tree and the position after it, or why it
/// fails.
pub open spec fn sum_expr(s: Seq<u8>, p: int) -> Result<(Tree, int), ParseFailure>
    decreases s.len() - p, 9int,
{
    match product_expr(s, p) {
        Err(e) => Err(e),
        Ok((t, q)) => if p < q <= s.len() {
            sum_rest(s, t, q)
        } else {
            Ok((t, q))
        },
    }
}

/// The terms after the first of a sum, `left` being what came before.
pub open spec fn sum_rest(s: Seq<u8>, left: Tree, q: int) -> Result<(Tree, int), ParseFailure>
    decreases s.len() - q, 8int,
{
    let r = skip_ws(s, q);
    if r >= q && 0 <= r < s.len() && (s[r] == 43u8 || s[r] == 45u8) {
        match product_expr(s, r + 1) {
            Err(e) => Err(e),
            Ok((right, q2)) => {
                let t = Tree::Bin(s[r] as char, Box::new(left), Box::new(right));
                if q < q2 <= s.len() {
                    sum_rest(s, t, q2)
                } else {
                    Ok((t, q2))
                }
            },
        }
    } else {
        Ok((left, r))
    }
}

/// A product, read from `p`.
pub open spec fn product_expr(s: Seq<u8>, p: int) -> Result<(Tree, int), ParseFailure>
    decreases s.len() - p, 7int,
{
    match unary_expr(s, p) {
        Err(e) => Err(e),
        Ok((t, q)) => if p < q <= s.len() {
            product_rest(s, t, q)
        } else {
            Ok((t, q))
        },
    }
}

/// The factors after the first of a product, `left` being what came before.
pub open spec fn product_rest(s: Seq<u8>, left: Tree, q: int) -> Result<(Tree, int), ParseFailure>
    decreases s.len() - q, 6int,
{
    let r = skip_ws(s, q);
    if r >= q && 0 <= r < s.len() && (s[r] == 42u8 || s[r] == 47u8) {
        match unary_expr(s, r + 1) {
            Err(e) => Err(e),
            Ok((right, q2)) => {
                let t = Tree::Bin(s[r] as char, Box::new(left), Box::new(right));
                if q < q2 <= s.len() {
                    product_rest(s, t, q2)
                } else {
                    Ok((t, q2))
                }
            },
        }
    } else {
        Ok((left, r))
    }
}

/// A signed operand, read from `p`.
pub open spec fn unary_expr(s: Seq<u8>, p: int) -> Result<(Tree, int), ParseFailure>
    decreases s.len() - p, 5int,
{
    let r = skip_ws(s, p);
    if r >= p && 0 <= r < s.len() && s[r] == 45u8 {
        match unary_expr(s, r + 1) {
            Err(e) => Err(e),
            Ok((t, q)) => Ok((Tree::Neg(Box::new(t)), q)),
        }
    } else if r >= p && 0 <= r < s.len() && s[r] == 43u8 {
        unary_expr(s, r + 1)
    } else if p <= r <= s.len() {
        atom_expr(s, r)
    } else {
        Err(fail("la fórmula acaba antes de tiempo"@, r))
    }
}

/// An operand whose first byte, white space skipped, is at `r`.
pub open spec fn atom_expr(s: Seq<u8>, r: int) -> Result<(Tree, int), ParseFailure>
    decreases s.len() - r, 4int,
{
    if r < 0 || r >= s.len() {
        Err(fail("la fórmula acaba antes de tiempo"@, r))
    } else if s[r] == 40u8 {
        match sum_expr(s, r + 1) {
            Err(e) => Err(e),
            Ok((inner, q)) => {
                let t = skip_ws(s, q);
                if 0 <= t < s.len() && s[t] == 41u8 {
                    Ok((inner, t + 1))
                } else {
                    Err(fail("falta un ')'"@, t))
                }
            },
        }
    } else if is_number_byte(s[r]) {
        let e1 = scan_number(s, r);
        let e2 = number_end(s, e1);
        let body = s.subrange(r, e1);
        if count_points(body) <= 1 && has_digit(body) {
            Ok((Tree::Num(ascii_text(s.subrange(r, e2))), e2))
        } else {
            Err(fail("número mal escrito"@, e2))
        }
    } else if s[r] == 34u8 {
        let e = find_quote(s, r + 1);
        if e >= s.len() {
            Err(fail("comilla sin cerrar"@, e))
        } else {
            Ok((Tree::Var(ascii_text(s.subrange(r + 1, e))), e + 1))
        }
    } else if is_alpha_byte(s[r]) || s[r] == 95u8 {
        let e = scan_name(s, r);
        let t = skip_ws(s, e);
        if t >= r && 0 <= t < s.len() && s[t] == 40u8 {
            call_expr(s, s.subrange(r, e), t)
        } else {
            Ok((Tree::Var(ascii_text(s.subrange(r, e))), t))
        }
    } else {
        Err(fail("carácter inesperado"@, r))
    }
}

/// A call of the function `name` whose opening parenthesis is at `t`.
pub open spec fn call_expr(s: Seq<u8>, name: Seq<u8>, t: int) -> Result<(Tree, int), ParseFailure>
    decreases s.len() - t, 3int,
{
    match arity_of(name) {
        None => Err(fail(unknown_function(name), t)),
        Some(n) => {
            let u = skip_ws(s, t + 1);
            let listed = if 0 <= u < s.len() && s[u] == 41u8 {
                Ok((u, Seq::<Tree>::empty()))
            } else if t < u <= s.len() {
                args_expr(s, u, Seq::empty())
            } else {
                Ok((u, Seq::<Tree>::empty()))
            };
            match listed {
                Err(e) => Err(e),
                Ok((v, args)) => if args.len() != n {
                    Err(fail(wrong_arity(name, n, args.len()), v + 1))
                } else {
                    Ok((Tree::Func(ascii_text(name), args), v + 1))
                },
            }
        },
    }
}

/// The arguments of a call from `p` on, `done` already read: the position
/// of the closing parenthesis and all the arguments.
pub open spec fn args_expr(s: Seq<u8>, p: int, done: Seq<Tree>) -> Result<(int, Seq<Tree>), ParseFailure>
    decreases s.len() - p, 10int,
{
    match sum_expr(s, p) {
        Err(e) => Err(e),
        Ok((arg, q)) => {
            let w = skip_ws(s, q);
            let args = done.push(arg);
            if 0 <= w < s.len() && s[w] == 44u8 {
                if p < w + 1 <= s.len() {
                    args_expr(s, w + 1, args)
                } else {
                    Ok((w, args))
                }
            } else if 0 <= w < s.len() && s[w] == 41u8 {
                Ok((w, args))
            } else {
                Err(fail("se esperaba ',' o ')'"@, w))
            }
        },
    }
}

/// The tree of a whole formula, or why and where it is not well written.
pub open spec fn formula_tree(s: Seq<u8>) -> Result<Tree, ParseFailure> {
    match sum_expr(s, 0) {
        Err(e) => Err(e),
        Ok((t, q)) => {
            let r = skip_ws(s, q);
            if r < s.len() {
                Err(fail("sobra texto al final"@, r))
            } else {
                Ok(t)
            }
        },
    }
}

/// Whether a whole formula is well written, or why and where it is not.
pub open spec fn formula_spec(s: Seq<u8>) -> Result<(), ParseFailure> {
    match formula_tree(s) {
        Err(e) => Err(e),
        Ok(_) => Ok(()),
    }
}

/// The message of a rejected formula.
pub open spec fn failure_message(formula: Seq<char>, f: ParseFailure) -> Seq<char> {
    "fórmula '"@ + formula + "': "@ + f.reason + " (posición "@ + int_text(f.pos + 1) + ")"@
}

/// The parse tree of a formula. Numbers keep their text; reading them is
/// left to the evaluator.
#[derive(Debug)]
pub enum Expr {
    Num(String),
    Var(String),
    Neg(Box<Expr>),
    Bin(char, Box<Expr>, Box<Expr>),
    Func(String, Vec<Expr>),
}

impl Expr {
    /// The tree this expression stands for.
    pub open spec fn tree(self) -> Tree
        decreases self,
    {
        match self {
            Expr::Num(t) => Tree::Num(t@),
            Expr::Var(n) => Tree::Var(n@),
            Expr::Neg(e) => Tree::Neg(Box::new(e.tree())),
            Expr::Bin(op, l, r) => Tree::Bin(op, Box::new(l.tree()), Box::new(r.tree())),
            Expr::Func(n, args) => Tree::Func(
                n@,
                Seq::new(
                    args@.len(),
                    |i: int|
                        {
                            if 0 <= i < args@.len() {
                                proof {
                                    assert(decreases_to!(args => args@));
                                }
                                args@[i].tree()
                            } else {
                                Tree::Var(Seq::empty())
                            }
                        },
                ),
            ),
        }
    }
}

/// The trees of a list of expressions.
pub open spec fn trees_of(v: Seq<Expr>) -> Seq<Tree> {
    Seq::new(v.len(), |i: int| v[i].tree())
}

/// A rejection: the reason and the byte position.
pub struct Failure {
    pub reason: String,
    pub pos: usize,
}

pub open spec fn failure_view(f: Failure) -> ParseFailure {
    ParseFailure { reason: f.reason@, pos: f.pos as int }
}

/// The outcome of a parsing step, as the specification describes it.
/// A failure never points past the end of the text.
pub open spec fn failure_within(r: Result<(Expr, usize), Failure>, len: nat) -> bool {
    match r {
        Err(f) => f.pos <= len,
        Ok(_) => true,
    }
}

pub open spec fn step_view(r: Result<(Expr, usize), Failure>) -> Result<(Tree, int), ParseFailure> {
    match r {
        Ok((e, q)) => Ok((e.tree(), q as int)),
        Err(f) => Err(failure_view(f)),
    }
}

fn failure(reason: &str, pos: usize) -> (f: Failure)
    ensures
        failure_view(f) == fail(reason@, pos as int),
{
    Failure { reason: reason.to_owned(), pos }
}

fn is_ws_byte(b: u8) -> (r: bool)
    ensures
        r == is_ws(b),
{
    b == 32u8 || b == 9u8 || b == 10u8 || b == 12u8 || b == 13u8
}

fn skip_ws_exec(s: &[u8], p: usize) -> (r: usize)
    requires
        p <= s@.len(),
    ensures
        r == skip_ws(s@, p as int),
        p <= r <= s@.len(),
{
    let mut q = p;
    while q < s.len() && is_ws_byte(s[q])
        invariant
            p <= q <= s@.len(),
            skip_ws(s@, p as int) == skip_ws(s@, q as int),
        decreases s.len() - q,
    {
        q += 1;
    }
    q
}

/// The ASCII text of the bytes between `a` and `b`.
fn ascii_string(s: &[u8], a: usize, b: usize) -> (r: String)
    requires
        a <= b <= s@.len(),
    ensures
        r@ == ascii_text(s@.subrange(a as int, b as int)),
{
    let mut out = String::new();
    let mut i = a;
    while i < b
        invariant
            a <= i <= b <= s@.len(),
            out@ == ascii_text(s@.subrange(a as int, i as int)),
        decreases b - i,
    {
        push_char(&mut out, s[i] as char);
        assert(ascii_text(s@.subrange(a as int, i + 1)) =~= ascii_text(s@.subrange(a as int, i as int)).push(
            s@[i as int] as char,
        ));
        i += 1;
    }
    out
}

fn bytes_are(s: &[u8], a: usize, b: usize, lit: &str) -> (r: bool)
    requires
        a <= b <= s@.len(),
    ensures
        r == (s@.subrange(a as int, b as int) == lit@.map_values(|c: char| c as u8)),
{
    let l = crate::text::chars_of(lit);
    if b - a != l.len() {
        assert(s@.subrange(a as int, b as int).len() != lit@.map_values(|c: char| c as u8).len());
        return false;
    }
    let mut i: usize = 0;
    while i < l.len()
        invariant
            i <= l.len(),
            b - a == l.len(),
            a <= b <= s@.len(),
            l@ == lit@,
            forall|k: int| 0 <= k < i ==> s@[a + k] == (l@[k] as u8),
        decreases l.len() - i,
    {
        if s[a + i] != l[i] as u8 {
            assert(s@.subrange(a as int, b as int)[i as int] != lit@.map_values(|c: char| c as u8)[i as int]);
            return false;
        }
        i += 1;
    }
    assert(s@.subrange(a as int, b as int) =~= lit@.map_values(|c: char| c as u8));
    true
}

/// The number of arguments of a known function.
fn arity_exec(s: &[u8], a: usize, b: usize) -> (r: Option<usize>)
    requires
        a <= b <= s@.len(),
    ensures
        match arity_of(s@.subrange(a as int, b as int)) {
            Some(n) => r == Some(n as usize),
            None => r is None,
        },
{
    if bytes_are(s, a, b, "gauss") {
        Some(2)
    } else if bytes_are(s, a, b, "abs") {
        Some(1)
    } else if bytes_are(s, a, b, "sqrt") {
        Some(1)
    } else if bytes_are(s, a, b, "min") {
        Some(2)
    } else if bytes_are(s, a, b, "max") {
        Some(2)
    } else {
        None
    }
}

/// Whether the body of a number has at most one point and some digit.
fn number_body_ok(s: &[u8], a: usize, b: usize) -> (r: bool)
    requires
        a <= b <= s@.len(),
    ensures
        r == (count_points(s@.subrange(a as int, b as int)) <= 1 && has_digit(s@.subrange(a as int, b as int))),
{
    let mut points: usize = 0;
    let mut digit = false;
    let mut i = a;
    while i < b
        invariant
            a <= i <= b <= s@.len(),
            points == count_points(s@.subrange(a as int, i as int)),
            points <= i - a,
            digit == has_digit(s@.subrange(a as int, i as int)),
        decreases b - i,
    {
        let ghost prev = s@.subrange(a as int, i as int);
        assert(s@.subrange(a as int, i + 1).drop_last() == prev);
        if s[i] == 46u8 {
            points += 1;
        }
        let ghost cur = s@.subrange(a as int, i + 1);
        if 48u8 <= s[i] && s[i] <= 57u8 {
            digit = true;
            assert(is_digit_byte(cur[i - a]));
        } else {
            proof {
                assert forall|k: int| 0 <= k < cur.len() && is_digit_byte(cur[k]) implies is_digit_byte(prev[k]) by {
                    if k < i - a {
                        assert(cur[k] == prev[k]);
                    }
                }
            }
        }
        proof {
            if has_digit(prev) {
                let k = choose|k: int| 0 <= k < prev.len() && is_digit_byte(prev[k]);
                assert(cur[k] == prev[k]);
            }
        }
        i += 1;
    }
    points <= 1 && digit
}

fn sum(s: &[u8], p: usize) -> (r: Result<(Expr, usize), Failure>)
    requires
        p <= s@.len(),
    ensures
        step_view(r) == sum_expr(s@, p as int),
        failure_within(r, s@.len()),
        r matches Ok((_, q)) ==> p < q <= s@.len(),
    decreases s@.len() - p, 9int,
{
    match product(s, p) {
        Err(f) => Err(f),
        Ok((e, q)) => sum_rest_exec(s, e, q),
    }
}

fn sum_rest_exec(s: &[u8], left: Expr, q: usize) -> (r: Result<(Expr, usize), Failure>)
    requires
        q <= s@.len(),
    ensures
        step_view(r) == sum_rest(s@, left.tree(), q as int),
        failure_within(r, s@.len()),
        r matches Ok((_, q2)) ==> q <= q2 <= s@.len(),
    decreases s@.len() - q, 8int,
{
    let r = skip_ws_exec(s, q);
    if r < s.len() && (s[r] == 43u8 || s[r] == 45u8) {
        let op = s[r] as char;
        match product(s, r + 1) {
            Err(f) => Err(f),
            Ok((right, q2)) => sum_rest_exec(s, Expr::Bin(op, Box::new(left), Box::new(right)), q2),
        }
    } else {
        Ok((left, r))
    }
}

fn product(s: &[u8], p: usize) -> (r: Result<(Expr, usize), Failure>)
    requires
        p <= s@.len(),
    ensures
        step_view(r) == product_expr(s@, p as int),
        failure_within(r, s@.len()),
        r matches Ok((_, q)) ==> p < q <= s@.len(),
    decreases s@.len() - p, 7int,
{
    match unary(s, p) {
        Err(f) => Err(f),
        Ok((e, q)) => product_rest_exec(s, e, q),
    }
}

fn product_rest_exec(s: &[u8], left: Expr, q: usize) -> (r: Result<(Expr, usize), Failure>)
    requires
        q <= s@.len(),
    ensures
        step_view(r) == product_rest(s@, left.tree(), q as int),
        failure_within(r, s@.len()),
        r matches Ok((_, q2)) ==> q <= q2 <= s@.len(),
    decreases s@.len() - q, 6int,
{
    let r = skip_ws_exec(s, q);
    if r < s.len() && (s[r] == 42u8 || s[r] == 47u8) {
        let op = s[r] as char;
        match unary(s, r + 1) {
            Err(f) => Err(f),
            Ok((right, q2)) => product_rest_exec(s, Expr::Bin(op, Box::new(left), Box::new(right)), q2),
        }
    } else {
        Ok((left, r))
    }
}

fn unary(s: &[u8], p: usize) -> (r: Result<(Expr, usize), Failure>)
    requires
        p <= s@.len(),
    ensures
        step_view(r) == unary_expr(s@, p as int),
        failure_within(r, s@.len()),
        r matches Ok((_, q)) ==> p < q <= s@.len(),
    decreases s@.len() - p, 5int,
{
    let r = skip_ws_exec(s, p);
    if r < s.len() && s[r] == 45u8 {
        match unary(s, r + 1) {
            Err(f) => Err(f),
            Ok((e, q)) => Ok((Expr::Neg(Box::new(e)), q)),
        }
    } else if r < s.len() && s[r] == 43u8 {
        unary(s, r + 1)
    } else {
        atom(s, r)
    }
}

fn atom(s: &[u8], r: usize) -> (res: Result<(Expr, usize), Failure>)
    requires
        r <= s@.len(),
    ensures
        step_view(res) == atom_expr(s@, r as int),
        failure_within(res, s@.len()),
        res matches Ok((_, q)) ==> r < q <= s@.len(),
    decreases s@.len() - r, 4int,
{
    if r >= s.len() {
        return Err(failure("la fórmula acaba antes de tiempo", r));
    }
    let c = s[r];
    if c == 40u8 {
        match sum(s, r + 1) {
            Err(f) => Err(f),
            Ok((e, q)) => {
                let t = skip_ws_exec(s, q);
                if t < s.len() && s[t] == 41u8 {
                    Ok((e, t + 1))
                } else {
                    Err(failure("falta un ')'", t))
                }
            },
        }
    } else if (48u8 <= c && c <= 57u8) || c == 46u8 {
        let mut e1 = r;
        while e1 < s.len() && ((48u8 <= s[e1] && s[e1] <= 57u8) || s[e1] == 46u8)
            invariant
                r <= e1 <= s@.len(),
                scan_number(s@, r as int) == scan_number(s@, e1 as int),
            decreases s.len() - e1,
        {
            e1 += 1;
        }
        let mut e2 = e1;
        if e1 < s.len() && (s[e1] == 101u8 || s[e1] == 69u8) {
            let mut f = e1 + 1;
            if f < s.len() && (s[f] == 43u8 || s[f] == 45u8) {
                f += 1;
            }
            if f < s.len() && 48u8 <= s[f] && s[f] <= 57u8 {
                let mut g = f;
                while g < s.len() && 48u8 <= s[g] && s[g] <= 57u8
                    invariant
                        f <= g <= s@.len(),
                        scan_digits(s@, f as int) == scan_digits(s@, g as int),
                    decreases s.len() - g,
                {
                    g += 1;
                }
                e2 = g;
            }
        }
        assert(e2 == number_end(s@, e1 as int));
        if number_body_ok(s, r, e1) {
            let text = ascii_string(s, r, e2);
            Ok((Expr::Num(text), e2))
        } else {
            Err(failure("número mal escrito", e2))
        }
    } else if c == 34u8 {
        let mut e = r + 1;
        while e < s.len() && s[e] != 34u8
            invariant
                r + 1 <= e <= s@.len(),
                find_quote(s@, r + 1) == find_quote(s@, e as int),
            decreases s.len() - e,
        {
            e += 1;
        }
        if e >= s.len() {
            return Err(failure("comilla sin cerrar", e));
        }
        let name = ascii_string(s, r + 1, e);
        Ok((Expr::Var(name), e + 1))
    } else if (65u8 <= c && c <= 90u8) || (97u8 <= c && c <= 122u8) || c == 95u8 {
        let mut e = r;
        while e < s.len() && ((65u8 <= s[e] && s[e] <= 90u8) || (97u8 <= s[e] && s[e] <= 122u8) || (48u8
            <= s[e] && s[e] <= 57u8) || s[e] == 95u8)
            invariant
                r <= e <= s@.len(),
                scan_name(s@, r as int) == scan_name(s@, e as int),
            decreases s.len() - e,
        {
            e += 1;
        }
        let t = skip_ws_exec(s, e);
        if t < s.len() && s[t] == 40u8 {
            call(s, r, e, t)
        } else {
            let name = ascii_string(s, r, e);
            Ok((Expr::Var(name), t))
        }
    } else {
        Err(failure("carácter inesperado", r))
    }
}

fn call(s: &[u8], a: usize, b: usize, t: usize) -> (res: Result<(Expr, usize), Failure>)
    requires
        a < b <= t < s@.len(),
    ensures
        step_view(res) == call_expr(s@, s@.subrange(a as int, b as int), t as int),
        failure_within(res, s@.len()),
        res matches Ok((_, q)) ==> t < q <= s@.len(),
    decreases s@.len() - t, 3int,
{
    let ghost name = s@.subrange(a as int, b as int);
    let _len = s.len();
    let n = match arity_exec(s, a, b) {
        Some(n) => n,
        None => {
            let mut msg = String::new();
            push_str(&mut msg, "función '");
            let nm = ascii_string(s, a, b);
            push_str(&mut msg, nm.as_str());
            push_str(&mut msg, "' desconocida; existen: gauss, abs, sqrt, min, max");
            assert(msg@ == unknown_function(name));
            return Err(Failure { reason: msg, pos: t });
        },
    };
    let u = skip_ws_exec(s, t + 1);
    let mut args: Vec<Expr> = Vec::new();
    assert(trees_of(args@) =~= Seq::<Tree>::empty());
    let v: usize;
    if u < s.len() && s[u] == 41u8 {
        v = u;
    } else {
        match args_exec(s, u, &mut args) {
            Err(f) => {
                return Err(f);
            },
            Ok(w) => {
                v = w;
            },
        }
    }
    if args.len() != n {
        let mut msg = String::new();
        let nm = ascii_string(s, a, b);
        push_str(&mut msg, nm.as_str());
        push_str(&mut msg, " necesita ");
        let mut digits: Vec<char> = Vec::new();
        push_nat_text(&mut digits, n as u64);
        let ds = string_from(&digits);
        push_str(&mut msg, ds.as_str());
        push_str(&mut msg, " argumento(s) y recibe ");
        let mut digits2: Vec<char> = Vec::new();
        push_nat_text(&mut digits2, args.len() as u64);
        let ds2 = string_from(&digits2);
        push_str(&mut msg, ds2.as_str());
        return Err(Failure { reason: msg, pos: v + 1 });
    }
    let name_text = ascii_string(s, a, b);
    let e = Expr::Func(name_text, args);
    assert(e.tree() == Tree::Func(name_text@, trees_of(args@))) by {
        assert(e.tree()->Func_1 =~= trees_of(args@));
    }
    Ok((e, v + 1))
}

fn args_exec(s: &[u8], p: usize, args: &mut Vec<Expr>) -> (r: Result<usize, Failure>)
    requires
        p <= s@.len(),
        old(args)@.len() <= p,
    ensures
        match args_expr(s@, p as int, trees_of(old(args)@)) {
            Ok((w, all)) => r == Ok::<usize, Failure>(w as usize) && trees_of(final(args)@) == all && p <= w < s@.len(),
            Err(e) => r is Err && failure_view(r->Err_0) == e && r->Err_0.pos <= s@.len(),
        },
    decreases s@.len() - p, 10int,
{
    match sum(s, p) {
        Err(f) => Err(f),
        Ok((e, q)) => {
            let ghost before = args@;
            args.push(e);
            assert(trees_of(args@) =~= trees_of(before).push(e.tree()));
            let w = skip_ws_exec(s, q);
            if w < s.len() && s[w] == 44u8 {
                args_exec(s, w + 1, args)
            } else if w < s.len() && s[w] == 41u8 {
                Ok(w)
            } else {
                Err(failure("se esperaba ',' o ')'", w))
            }
        },
    }
}

/// Parses a formula into its tree, or says why and where it is wrong.
pub fn analizar(fuente: &str) -> (r: Result<Expr, CrucibleError>)
    requires
        fuente.spec_bytes().len() < u64::MAX,
    ensures
        match formula_tree(fuente.spec_bytes()) {
            Ok(t) => r matches Ok(e) && e.tree() == t,
            Err(f) => r matches Err(CrucibleError::Evaluacion(m)) && m@ == failure_message(fuente@, f),
        },
{
    let s = fuente.as_bytes();
    let res = match sum(s, 0) {
        Err(f) => Err(f),
        Ok((e, q)) => {
            let r = skip_ws_exec(s, q);
            if r < s.len() {
                Err(failure("sobra texto al final", r))
            } else {
                Ok(e)
            }
        },
    };
    match res {
        Ok(e) => Ok(e),
        Err(f) => {
            let mut msg = String::new();
            push_str(&mut msg, "fórmula '");
            push_str(&mut msg, fuente);
            push_str(&mut msg, "': ");
            push_str(&mut msg, f.reason.as_str());
            push_str(&mut msg, " (posición ");
            let mut digits: Vec<char> = Vec::new();
            push_nat_text(&mut digits, f.pos as u64 + 1);
            let ds = string_from(&digits);
            push_str(&mut msg, ds.as_str());
            push_str(&mut msg, ")");
            Err(CrucibleError::Evaluacion(msg))
        },
    }
}

/// Checks the syntax of a formula without evaluating it.
pub fn validar_formula(expr: &str) -> (r: Result<(), CrucibleError>)
    requires
        expr.spec_bytes().len() < u64::MAX,
    ensures
        (r is Ok) == (formula_spec(expr.spec_bytes()) is Ok),
        match formula_spec(expr.spec_bytes()) {
            Ok(()) => true,
            Err(f) => r matches Err(CrucibleError::Evaluacion(m)) && m@ == failure_message(expr@, f),
        },
{
    match analizar(expr) {
        Ok(_) => Ok(()),
        Err(e) => Err(e),
    }
}

/// A name as formulas write it: a letter or an underscore, then letters,
/// digits and underscores.
pub open spec fn is_name_text(x: Seq<u8>) -> bool {
    &&& x.len() > 0
    &&& (is_alpha_byte(x[0]) || x[0] == 95u8)
    &&& forall|i: int| 0 <= i < x.len() ==> is_name_byte(#[trigger] x[i])
}

/// A run of name bytes ends where the name bytes end.
proof fn lemma_name_run(s: Seq<u8>, p: int, e: int)
    requires
        0 <= p <= e <= s.len(),
        forall|i: int| p <= i < e ==> is_name_byte(#[trigger] s[i]),
        e == s.len() || !is_name_byte(s[e]),
    ensures
        scan_name(s, p) == e,
    decreases e - p,
{
    if p < e {
        lemma_name_run(s, p + 1, e);
    }
}

/// A name between `p` and `e`, followed by the end or by a byte that is
/// neither part of a name, nor white space, nor an opening parenthesis, is
/// read as the variable of that name.
proof fn lemma_name_operand(s: Seq<u8>, p: int, e: int)
    requires
        0 <= p < e <= s.len(),
        is_alpha_byte(s[p]) || s[p] == 95u8,
        forall|i: int| p <= i < e ==> is_name_byte(#[trigger] s[i]),
        e == s.len() || (!is_name_byte(s[e]) && !is_ws(s[e]) && s[e] != 40u8),
    ensures
        unary_expr(s, p) == Ok::<(Tree, int), ParseFailure>((Tree::Var(ascii_text(s.subrange(p, e))), e)),
{
    lemma_name_run(s, p, e);
    assert(skip_ws(s, p) == p);
    assert(skip_ws(s, e) == e);
    assert(atom_expr(s, p) == Ok::<(Tree, int), ParseFailure>((Tree::Var(ascii_text(s.subrange(p, e))), e)));
}

/// A formula made of two names and one operator is that operator applied to
/// the two variables, in that order: the tree keeps the operator written,
/// whichever of `+ - * /` it is.
pub proof fn law_binary_operator_is_kept(x: Seq<u8>, op: u8, y: Seq<u8>)
    requires
        is_name_text(x),
        is_name_text(y),
        op == 43u8 || op == 45u8 || op == 42u8 || op == 47u8,
    ensures
        formula_tree(x + seq![op] + y) == Ok::<Tree, ParseFailure>(
            Tree::Bin(op as char, Box::new(Tree::Var(ascii_text(x))), Box::new(Tree::Var(ascii_text(y)))),
        ),
{
    let s = x + seq![op] + y;
    let e = x.len() as int;
    let n = s.len() as int;
    assert(s[e] == op);
    assert forall|i: int| 0 <= i < e implies is_name_byte(#[trigger] s[i]) by {
        assert(s[i] == x[i]);
    }
    assert forall|i: int| e + 1 <= i < n implies is_name_byte(#[trigger] s[i]) by {
        assert(s[i] == y[i - e - 1]);
    }
    assert(s[e + 1] == y[0]);
    assert(s.subrange(0, e) =~= x);
    assert(s.subrange(e + 1, n) =~= y);
    lemma_name_operand(s, 0, e);
    lemma_name_operand(s, e + 1, n);
    let vx = Tree::Var(ascii_text(x));
    let vy = Tree::Var(ascii_text(y));
    let t = Tree::Bin(op as char, Box::new(vx), Box::new(vy));
    assert(skip_ws(s, e) == e);
    assert(skip_ws(s, n) == n);
    assert(product_rest(s, vy, n) == Ok::<(Tree, int), ParseFailure>((vy, n)));
    assert(product_expr(s, e + 1) == Ok::<(Tree, int), ParseFailure>((vy, n)));
    if op == 42u8 || op == 47u8 {
        assert(product_rest(s, t, n) == Ok::<(Tree, int), ParseFailure>((t, n)));
        assert(product_rest(s, vx, e) == Ok::<(Tree, int), ParseFailure>((t, n)));
        assert(product_expr(s, 0) == Ok::<(Tree, int), ParseFailure>((t, n)));
        assert(sum_rest(s, t, n) == Ok::<(Tree, int), ParseFailure>((t, n)));
        assert(sum_expr(s, 0) == Ok::<(Tree, int), ParseFailure>((t, n)));
    } else {
        assert(product_rest(s, vx, e) == Ok::<(Tree, int), ParseFailure>((vx, e)));
        assert(product_expr(s, 0) == Ok::<(Tree, int), ParseFailure>((vx, e)));
        assert(sum_rest(s, t, n) == Ok::<(Tree, int), ParseFailure>((t, n)));
        assert(sum_rest(s, vx, e) == Ok::<(Tree, int), ParseFailure>((t, n)));
        assert(sum_expr(s, 0) == Ok::<(Tree, int), ParseFailure>((t, n)));
    }
}

/// Whether an operator byte is `*` or `/`, which bind tighter than `+` and
/// `-`.
pub open spec fn binds_tight(op: u8) -> bool {
    op == 42u8 || op == 47u8
}

/// Three names joined by two operators: `*` and `/` bind tighter than `+`
/// and `-`, and operators of the same strength associate to the left, so
/// `a - b - c` is `(a - b) - c` and `a + b * c` is `a + (b * c)`.
pub proof fn law_precedence_and_left_association(x: Seq<u8>, op1: u8, y: Seq<u8>, op2: u8, z: Seq<u8>)
    requires
        is_name_text(x),
        is_name_text(y),
        is_name_text(z),
        op1 == 43u8 || op1 == 45u8 || op1 == 42u8 || op1 == 47u8,
        op2 == 43u8 || op2 == 45u8 || op2 == 42u8 || op2 == 47u8,
    ensures
        formula_tree(x + seq![op1] + y + seq![op2] + z) == Ok::<Tree, ParseFailure>(
            if binds_tight(op2) && !binds_tight(op1) {
                Tree::Bin(
                    op1 as char,
                    Box::new(Tree::Var(ascii_text(x))),
                    Box::new(Tree::Bin(op2 as char, Box::new(Tree::Var(ascii_text(y))), Box::new(Tree::Var(ascii_text(z))))),
                )
            } else {
                Tree::Bin(
                    op2 as char,
                    Box::new(Tree::Bin(op1 as char, Box::new(Tree::Var(ascii_text(x))), Box::new(Tree::Var(ascii_text(y))))),
                    Box::new(Tree::Var(ascii_text(z))),
                )
            },
        ),
{
    let s = x + seq![op1] + y + seq![op2] + z;
    let e1 = x.len() as int;
    let e2 = e1 + 1 + y.len();
    let n = s.len() as int;
    assert(s[e1] == op1);
    assert(s[e2] == op2);
    assert forall|i: int| 0 <= i < e1 implies is_name_byte(#[trigger] s[i]) by {
        assert(s[i] == x[i]);
    }
    assert forall|i: int| e1 + 1 <= i < e2 implies is_name_byte(#[trigger] s[i]) by {
        assert(s[i] == y[i - e1 - 1]);
    }
    assert forall|i: int| e2 + 1 <= i < n implies is_name_byte(#[trigger] s[i]) by {
        assert(s[i] == z[i - e2 - 1]);
    }
    assert(s[e1 + 1] == y[0]);
    assert(s[e2 + 1] == z[0]);
    assert(s.subrange(0, e1) =~= x);
    assert(s.subrange(e1 + 1, e2) =~= y);
    assert(s.subrange(e2 + 1, n) =~= z);
    lemma_name_operand(s, 0, e1);
    lemma_name_operand(s, e1 + 1, e2);
    lemma_name_operand(s, e2 + 1, n);
    let vx = Tree::Var(ascii_text(x));
    let vy = Tree::Var(ascii_text(y));
    let vz = Tree::Var(ascii_text(z));
    assert(skip_ws(s, e1) == e1);
    assert(skip_ws(s, e2) == e2);
    assert(skip_ws(s, n) == n);
    let xy = Tree::Bin(op1 as char, Box::new(vx), Box::new(vy));
    let yz = Tree::Bin(op2 as char, Box::new(vy), Box::new(vz));
    let xy_z = Tree::Bin(op2 as char, Box::new(xy), Box::new(vz));
    let x_yz = Tree::Bin(op1 as char, Box::new(vx), Box::new(yz));
    assert(product_rest(s, vz, n) == Ok::<(Tree, int), ParseFailure>((vz, n)));
    assert(product_expr(s, e2 + 1) == Ok::<(Tree, int), ParseFailure>((vz, n)));
    if binds_tight(op1) {
        if binds_tight(op2) {
            assert(product_rest(s, xy_z, n) == Ok::<(Tree, int), ParseFailure>((xy_z, n)));
            assert(product_rest(s, xy, e2) == Ok::<(Tree, int), ParseFailure>((xy_z, n)));
            assert(product_rest(s, vx, e1) == Ok::<(Tree, int), ParseFailure>((xy_z, n)));
            assert(product_expr(s, 0) == Ok::<(Tree, int), ParseFailure>((xy_z, n)));
            assert(sum_rest(s, xy_z, n) == Ok::<(Tree, int), ParseFailure>((xy_z, n)));
        } else {
            assert(product_rest(s, xy, e2) == Ok::<(Tree, int), ParseFailure>((xy, e2)));
            assert(product_rest(s, vx, e1) == Ok::<(Tree, int), ParseFailure>((xy, e2)));
            assert(product_expr(s, 0) == Ok::<(Tree, int), ParseFailure>((xy, e2)));
            assert(sum_rest(s, xy_z, n) == Ok::<(Tree, int), ParseFailure>((xy_z, n)));
            assert(sum_rest(s, xy, e2) == Ok::<(Tree, int), ParseFailure>((xy_z, n)));
        }
    } else {
        assert(product_rest(s, vx, e1) == Ok::<(Tree, int), ParseFailure>((vx, e1)));
        assert(product_expr(s, 0) == Ok::<(Tree, int), ParseFailure>((vx, e1)));
        if binds_tight(op2) {
            assert(product_rest(s, yz, n) == Ok::<(Tree, int), ParseFailure>((yz, n)));
            assert(product_rest(s, vy, e2) == Ok::<(Tree, int), ParseFailure>((yz, n)));
            assert(product_expr(s, e1 + 1) == Ok::<(Tree, int), ParseFailure>((yz, n)));
            assert(sum_rest(s, x_yz, n) == Ok::<(Tree, int), ParseFailure>((x_yz, n)));
            assert(sum_rest(s, vx, e1) == Ok::<(Tree, int), ParseFailure>((x_yz, n)));
        } else {
            assert(product_rest(s, vy, e2) == Ok::<(Tree, int), ParseFailure>((vy, e2)));
            assert(product_expr(s, e1 + 1) == Ok::<(Tree, int), ParseFailure>((vy, e2)));
            assert(sum_rest(s, xy_z, n) == Ok::<(Tree, int), ParseFailure>((xy_z, n)));
            assert(sum_rest(s, xy, e2) == Ok::<(Tree, int), ParseFailure>((xy_z, n)));
            assert(sum_rest(s, vx, e1) == Ok::<(Tree, int), ParseFailure>((xy_z, n)));
        }
    }
}

} // verus!
