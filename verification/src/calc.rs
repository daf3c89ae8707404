//! Sums typed into a number field: `+ - * /` (and `x` for times), parentheses
//! and signs, with the usual precedence, read into a formula.

use vstd::prelude::*;
use crate::scalar::Scalar;
use crate::text::{blank, blank_start, chars_of, is_digit, trim_text, trimmed};

verus! {

/// A formula over numbers.
pub enum Formula {
    /// A number: digits with at most one point among them.
    Number(String),
    Negated(Box<Formula>),
    Sum(Box<Formula>, Box<Formula>),
    Difference(Box<Formula>, Box<Formula>),
    Product(Box<Formula>, Box<Formula>),
    Quotient(Box<Formula>, Box<Formula>),
}

/// What a [`Formula`] holds.
pub enum Tree {
    Number(Seq<char>),
    Negated(Box<Tree>),
    Sum(Box<Tree>, Box<Tree>),
    Difference(Box<Tree>, Box<Tree>),
    Product(Box<Tree>, Box<Tree>),
    Quotient(Box<Tree>, Box<Tree>),
}

impl Formula {
    /// What the formula holds.
    pub open spec fn tree(self) -> Tree
        decreases self,
    {
        match self {
            Formula::Number(text) => Tree::Number(text@),
            Formula::Negated(a) => Tree::Negated(Box::new(a.tree())),
            Formula::Sum(a, b) => Tree::Sum(Box::new(a.tree()), Box::new(b.tree())),
            Formula::Difference(a, b) => Tree::Difference(Box::new(a.tree()), Box::new(b.tree())),
            Formula::Product(a, b) => Tree::Product(Box::new(a.tree()), Box::new(b.tree())),
            Formula::Quotient(a, b) => Tree::Quotient(Box::new(a.tree()), Box::new(b.tree())),
        }
    }
}

impl View for Formula {
    type V = Tree;

    open spec fn view(&self) -> Tree {
        self.tree()
    }
}

/// Whether a character can stand in a number. A comma is a decimal point.
pub open spec fn in_number(c: char) -> bool {
    is_digit(c) || c == '.' || c == ','
}

/// Where the number that begins at an index ends.
pub open spec fn number_end(c: Seq<char>, at: int) -> int
    decreases c.len() - at,
{
    if 0 <= at < c.len() && in_number(c[at]) {
        number_end(c, at + 1)
    } else {
        at
    }
}

/// A number with a point for its comma.
pub open spec fn pointed(token: Seq<char>) -> Seq<char> {
    token.map_values(
        |c: char|
            if c == ',' {
                '.'
            } else {
                c
            },
    )
}

/// How many of the first `n` characters of a number are points.
pub open spec fn points_in(token: Seq<char>, n: int) -> nat
    decreases n,
{
    if n <= 0 || n > token.len() {
        0
    } else {
        points_in(token, n - 1) + if token[n - 1] == '.' || token[n - 1] == ',' {
            1nat
        } else {
            0
        }
    }
}

/// Whether a run of digits, points and commas is a number: it has a digit, and
/// no more than one point.
pub open spec fn is_number(token: Seq<char>) -> bool {
    points_in(token, token.len() as int) <= 1 && points_in(token, token.len() as int) < token.len()
}

/// A number, a signed atom, or a formula in parentheses: what stands at an
/// index after any white space, and the index behind it.
pub open spec fn atom_at(c: Seq<char>, at: int) -> Option<(Tree, int)>
    decreases c.len() - at, 1int,
    via atom_decreases
{
    let p = blank_start(c, at);
    if at < 0 || p >= c.len() {
        None
    } else if c[p] == '-' {
        match atom_at(c, p + 1) {
            Some(found) => Some((Tree::Negated(Box::new(found.0)), found.1)),
            None => None,
        }
    } else if c[p] == '+' {
        atom_at(c, p + 1)
    } else if c[p] == '(' {
        match expr_at(c, p + 1) {
            Some(found) => {
                let close = blank_start(c, found.1);
                if close < c.len() && c[close] == ')' {
                    Some((found.0, close + 1))
                } else {
                    None
                }
            },
            None => None,
        }
    } else {
        let end = number_end(c, p);
        if is_number(c.subrange(p, end)) {
            Some((Tree::Number(pointed(c.subrange(p, end))), end))
        } else {
            None
        }
    }
}

#[via_fn]
proof fn atom_decreases(c: Seq<char>, at: int) {
    lemma_blank_start(c, at);
}

/// Atoms multiplied and divided, from left to right.
pub open spec fn term_at(c: Seq<char>, at: int) -> Option<(Tree, int)>
    decreases c.len() - at, 2int,
{
    match atom_at(c, at) {
        Some(found) => if at < found.1 <= c.len() {
            term_rest(c, found.0, found.1)
        } else {
            None
        },
        None => None,
    }
}

/// What the atoms from an index on make of the product before it.
pub open spec fn term_rest(c: Seq<char>, left: Tree, at: int) -> Option<(Tree, int)>
    decreases c.len() - at, 0int,
    via term_rest_decreases
{
    let p = blank_start(c, at);
    if 0 <= at && p < c.len() && (c[p] == '*' || c[p] == 'x' || c[p] == '/') {
        match atom_at(c, p + 1) {
            Some(found) => if p < found.1 <= c.len() {
                term_rest(
                    c,
                    if c[p] == '/' {
                        Tree::Quotient(Box::new(left), Box::new(found.0))
                    } else {
                        Tree::Product(Box::new(left), Box::new(found.0))
                    },
                    found.1,
                )
            } else {
                None
            },
            None => None,
        }
    } else {
        Some((left, p))
    }
}

#[via_fn]
proof fn term_rest_decreases(c: Seq<char>, left: Tree, at: int) {
    lemma_blank_start(c, at);
}

/// Terms added and subtracted, from left to right.
pub open spec fn expr_at(c: Seq<char>, at: int) -> Option<(Tree, int)>
    decreases c.len() - at, 3int,
{
    match term_at(c, at) {
        Some(found) => if at < found.1 <= c.len() {
            expr_rest(c, found.0, found.1)
        } else {
            None
        },
        None => None,
    }
}

/// What the terms from an index on make of the sum before it.
pub open spec fn expr_rest(c: Seq<char>, left: Tree, at: int) -> Option<(Tree, int)>
    decreases c.len() - at, 0int,
    via expr_rest_decreases
{
    let p = blank_start(c, at);
    if 0 <= at && p < c.len() && (c[p] == '+' || c[p] == '-') {
        match term_at(c, p + 1) {
            Some(found) => if p < found.1 <= c.len() {
                expr_rest(
                    c,
                    if c[p] == '+' {
                        Tree::Sum(Box::new(left), Box::new(found.0))
                    } else {
                        Tree::Difference(Box::new(left), Box::new(found.0))
                    },
                    found.1,
                )
            } else {
                None
            },
            None => None,
        }
    } else {
        Some((left, p))
    }
}

#[via_fn]
proof fn expr_rest_decreases(c: Seq<char>, left: Tree, at: int) {
    lemma_blank_start(c, at);
}

/// The formula that a text writes, if all of it is one formula.
pub open spec fn formula_of(text: Seq<char>) -> Option<Tree> {
    let c = trimmed(text);
    match expr_at(c, 0) {
        Some(found) => if found.1 == c.len() {
            Some(found.0)
        } else {
            None
        },
        None => None,
    }
}

proof fn lemma_blank_start(c: Seq<char>, at: int)
    ensures
        blank_start(c, at) >= at,
        at <= c.len() ==> blank_start(c, at) <= c.len(),
    decreases c.len() - at,
{
    if 0 <= at < c.len() && crate::text::is_blank(c[at]) {
        lemma_blank_start(c, at + 1);
    }
}

proof fn lemma_number_end(c: Seq<char>, at: int)
    requires
        0 <= at <= c.len(),
    ensures
        at <= number_end(c, at) <= c.len(),
    decreases c.len() - at,
{
    if at < c.len() && in_number(c[at]) {
        lemma_number_end(c, at + 1);
    }
}

/// What is read ends behind where it began, and inside the text.
proof fn lemma_atom_moves_on(c: Seq<char>, at: int)
    requires
        0 <= at <= c.len(),
    ensures
        atom_at(c, at) matches Some(found) ==> at < found.1 <= c.len(),
    decreases c.len() - at, 1int,
{
    lemma_blank_start(c, at);
    let p = blank_start(c, at);
    if p < c.len() {
        if c[p] == '-' || c[p] == '+' {
            lemma_atom_moves_on(c, p + 1);
        } else if c[p] == '(' {
            lemma_expr_moves_on(c, p + 1);
            match expr_at(c, p + 1) {
                Some(found) => lemma_blank_start(c, found.1),
                None => {},
            }
        } else {
            lemma_number_end(c, p);
        }
    }
}

proof fn lemma_term_moves_on(c: Seq<char>, at: int)
    requires
        0 <= at <= c.len(),
    ensures
        term_at(c, at) matches Some(found) ==> at < found.1 <= c.len(),
    decreases c.len() - at, 2int,
{
    match atom_at(c, at) {
        Some(found) => if at < found.1 <= c.len() {
            lemma_term_rest_moves_on(c, found.0, found.1);
        },
        None => {},
    }
}

proof fn lemma_term_rest_moves_on(c: Seq<char>, left: Tree, at: int)
    requires
        0 <= at <= c.len(),
    ensures
        term_rest(c, left, at) matches Some(found) ==> at <= found.1 <= c.len(),
    decreases c.len() - at, 0int,
{
    lemma_blank_start(c, at);
    let p = blank_start(c, at);
    if p < c.len() && (c[p] == '*' || c[p] == 'x' || c[p] == '/') {
        match atom_at(c, p + 1) {
            Some(found) => if p < found.1 <= c.len() {
                let next = if c[p] == '/' {
                    Tree::Quotient(Box::new(left), Box::new(found.0))
                } else {
                    Tree::Product(Box::new(left), Box::new(found.0))
                };
                lemma_term_rest_moves_on(c, next, found.1);
            },
            None => {},
        }
    }
}

proof fn lemma_expr_moves_on(c: Seq<char>, at: int)
    requires
        0 <= at <= c.len(),
    ensures
        expr_at(c, at) matches Some(found) ==> at < found.1 <= c.len(),
    decreases c.len() - at, 3int,
{
    match term_at(c, at) {
        Some(found) => if at < found.1 <= c.len() {
            lemma_expr_rest_moves_on(c, found.0, found.1);
        },
        None => {},
    }
}

proof fn lemma_expr_rest_moves_on(c: Seq<char>, left: Tree, at: int)
    requires
        0 <= at <= c.len(),
    ensures
        expr_rest(c, left, at) matches Some(found) ==> at <= found.1 <= c.len(),
    decreases c.len() - at, 0int,
{
    lemma_blank_start(c, at);
    let p = blank_start(c, at);
    if p < c.len() && (c[p] == '+' || c[p] == '-') {
        match term_at(c, p + 1) {
            Some(found) => if p < found.1 <= c.len() {
                let next = if c[p] == '+' {
                    Tree::Sum(Box::new(left), Box::new(found.0))
                } else {
                    Tree::Difference(Box::new(left), Box::new(found.0))
                };
                lemma_expr_rest_moves_on(c, next, found.1);
            },
            None => {},
        }
    }
}

/// Skips white space between tokens. There is none inside a token: `2 3` is two
/// numbers, and no formula.
pub fn skip_ws(c: &Vec<char>, at: usize) -> (r: usize)
    requires
        at <= c@.len(),
    ensures
        r == blank_start(c@, at as int),
        at <= r <= c@.len(),
{
    let mut p: usize = at;
    while p < c.len() && blank(c[p])
        invariant
            at <= p <= c@.len(),
            blank_start(c@, at as int) == blank_start(c@, p as int),
        decreases c.len() - p,
    {
        p += 1;
    }
    p
}

fn number_token(c: &Vec<char>, text: &str, at: usize) -> (r: Option<(Formula, usize)>)
    requires
        at <= c@.len(),
        c@ == text@,
    ensures
        ({
            let end = number_end(c@, at as int);
            match r {
                Some(found) => {
                    &&& is_number(c@.subrange(at as int, end))
                    &&& found.0@ == Tree::Number(pointed(c@.subrange(at as int, end)))
                    &&& found.1 == end
                },
                None => !is_number(c@.subrange(at as int, end)),
            }
        }),
{
    let mut end: usize = at;
    let mut points: usize = 0;
    let mut number = String::new();
    let ghost last = number_end(c@, at as int);
    proof {
        lemma_number_end(c@, at as int);
    }
    let ghost token = c@.subrange(at as int, last);
    while end < c.len() && ((c[end] >= '0' && c[end] <= '9') || c[end] == '.' || c[end] == ',')
        invariant
            at <= end <= last <= c@.len(),
            c@ == text@,
            last == number_end(c@, end as int),
            token == c@.subrange(at as int, last),
            points == points_in(token, end - at),
            points <= end - at,
            number@ == pointed(token).subrange(0, end - at),
        decreases c.len() - end,
    {
        proof {
            lemma_number_end(c@, end + 1);
        }
        let ghost before = number@;
        assert(token[end - at] == c@[end as int]);
        if c[end] == '.' || c[end] == ',' {
            points += 1;
            number.append(".");
            proof {
                reveal_strlit(".");
            }
        } else {
            number.append(text.substring_char(end, end + 1));
        }
        end += 1;
        assert(number@ =~= pointed(token).subrange(0, end - at));
    }
    assert(end == last);
    assert(pointed(token).subrange(0, end - at) =~= pointed(token));
    if points <= 1 && points < end - at {
        Some((Formula::Number(number), end))
    } else {
        None
    }
}

fn atom(c: &Vec<char>, text: &str, at: usize) -> (r: Option<(Formula, usize)>)
    requires
        at <= c@.len(),
        c@ == text@,
    ensures
        match r {
            Some(found) => atom_at(c@, at as int) == Some((found.0@, found.1 as int)) && at
                < found.1 <= c@.len(),
            None => atom_at(c@, at as int) is None,
        },
    decreases c.len() - at, 1int,
{
    proof {
        lemma_atom_moves_on(c@, at as int);
    }
    let p: usize = skip_ws(c, at);
    if p == c.len() {
        return None;
    }
    if c[p] == '-' {
        return match atom(c, text, p + 1) {
            Some((inner, next)) => Some((Formula::Negated(Box::new(inner)), next)),
            None => None,
        };
    }
    if c[p] == '+' {
        return atom(c, text, p + 1);
    }
    if c[p] == '(' {
        return match expr(c, text, p + 1) {
            Some((inner, next)) => {
                let close: usize = skip_ws(c, next);
                if close < c.len() && c[close] == ')' {
                    Some((inner, close + 1))
                } else {
                    None
                }
            },
            None => None,
        };
    }
    number_token(c, text, p)
}

fn term(c: &Vec<char>, text: &str, at: usize) -> (r: Option<(Formula, usize)>)
    requires
        at <= c@.len(),
        c@ == text@,
    ensures
        match r {
            Some(found) => term_at(c@, at as int) == Some((found.0@, found.1 as int)) && at
                < found.1 <= c@.len(),
            None => term_at(c@, at as int) is None,
        },
    decreases c.len() - at, 2int,
{
    proof {
        lemma_term_moves_on(c@, at as int);
    }
    let (first, behind) = match atom(c, text, at) {
        Some(found) => found,
        None => return None,
    };
    let mut left = first;
    let mut p: usize = skip_ws(c, behind);
    let ghost mut from: int = behind as int;
    while p < c.len() && (c[p] == '*' || c[p] == '/' || c[p] == 'x')
        invariant
            at < from <= p <= c@.len(),
            c@ == text@,
            p == blank_start(c@, from),
            term_at(c@, at as int) == term_rest(c@, left@, from),
        decreases c.len() - p,
    {
        let divides = c[p] == '/';
        let (right, next) = match atom(c, text, p + 1) {
            Some(found) => found,
            None => return None,
        };
        left = if divides {
            Formula::Quotient(Box::new(left), Box::new(right))
        } else {
            Formula::Product(Box::new(left), Box::new(right))
        };
        p = skip_ws(c, next);
        proof {
            from = next as int;
        }
    }
    Some((left, p))
}

fn expr(c: &Vec<char>, text: &str, at: usize) -> (r: Option<(Formula, usize)>)
    requires
        at <= c@.len(),
        c@ == text@,
    ensures
        match r {
            Some(found) => expr_at(c@, at as int) == Some((found.0@, found.1 as int)) && at
                < found.1 <= c@.len(),
            None => expr_at(c@, at as int) is None,
        },
    decreases c.len() - at, 3int,
{
    proof {
        lemma_expr_moves_on(c@, at as int);
    }
    let (first, behind) = match term(c, text, at) {
        Some(found) => found,
        None => return None,
    };
    let mut left = first;
    let mut p: usize = skip_ws(c, behind);
    let ghost mut from: int = behind as int;
    while p < c.len() && (c[p] == '+' || c[p] == '-')
        invariant
            at < from <= p <= c@.len(),
            c@ == text@,
            p == blank_start(c@, from),
            expr_at(c@, at as int) == expr_rest(c@, left@, from),
        decreases c.len() - p,
    {
        let adds = c[p] == '+';
        let (right, next) = match term(c, text, p + 1) {
            Some(found) => found,
            None => return None,
        };
        left = if adds {
            Formula::Sum(Box::new(left), Box::new(right))
        } else {
            Formula::Difference(Box::new(left), Box::new(right))
        };
        p = skip_ws(c, next);
        proof {
            from = next as int;
        }
    }
    Some((left, p))
}

/// Reads a text as a formula. Nothing comes of a text that is not one formula
/// from end to end.
pub fn read_formula(text: &str) -> (r: Option<Formula>)
    ensures
        match r {
            Some(formula) => formula_of(text@) == Some(formula@),
            None => formula_of(text@) is None,
        },
{
    let inner = trim_text(text);
    let c = chars_of(inner);
    match expr(&c, inner, 0) {
        Some((formula, end)) => {
            if end == c.len() {
                Some(formula)
            } else {
                None
            }
        },
        None => None,
    }
}

/// Reads a number field: the value of the formula that the text writes, as
/// `compute` works it out, if there is one and it is finite.
pub fn eval<C: Fn(&Formula) -> Scalar>(text: &str, compute: &C) -> (r: Option<Scalar>)
    requires
        forall|formula: &Formula| call_requires(*compute, (formula,)),
    ensures
        formula_of(text@) is None ==> r is None,
        formula_of(text@) matches Some(tree) ==> exists|formula: &Formula, value: Scalar|
            {
                &&& #[trigger] call_ensures(*compute, (formula,), value)
                &&& formula@ == tree
                &&& r == if value.finite() {
                    Some(value)
                } else {
                    None
                }
            },
{
    match read_formula(text) {
        Some(formula) => {
            let value = compute(&formula);
            if value.is_finite() {
                Some(value)
            } else {
                None
            }
        },
        None => None,
    }
}

/// Whether a text is a number as a formula holds it.
pub open spec fn plain_number(n: Seq<char>) -> bool {
    &&& forall|i: int| 0 <= i < n.len() ==> is_digit(#[trigger] n[i]) || n[i] == '.'
    &&& is_number(n)
}

/// Whether every number of a formula is one.
pub open spec fn sound(tree: Tree) -> bool
    decreases tree,
{
    match tree {
        Tree::Number(n) => plain_number(n),
        Tree::Negated(a) => sound(*a),
        Tree::Sum(a, b) => sound(*a) && sound(*b),
        Tree::Difference(a, b) => sound(*a) && sound(*b),
        Tree::Product(a, b) => sound(*a) && sound(*b),
        Tree::Quotient(a, b) => sound(*a) && sound(*b),
    }
}

/// A formula written out, with parentheses around every part of it.
pub open spec fn written(tree: Tree) -> Seq<char>
    decreases tree,
{
    match tree {
        Tree::Number(n) => n,
        Tree::Negated(a) => seq!['-'] + seq!['('] + written(*a) + seq![')'],
        Tree::Sum(a, b) => seq!['('] + written(*a) + seq![')', '+', '('] + written(*b) + seq![')'],
        Tree::Difference(a, b) => seq!['('] + written(*a) + seq![')', '-', '('] + written(*b)
            + seq![')'],
        Tree::Product(a, b) => seq!['('] + written(*a) + seq![')', '*', '('] + written(*b)
            + seq![')'],
        Tree::Quotient(a, b) => seq!['('] + written(*a) + seq![')', '/', '('] + written(*b)
            + seq![')'],
    }
}

/// Whether `text` stands in `c` at an index.
spec fn here(c: Seq<char>, at: int, text: Seq<char>) -> bool {
    &&& 0 <= at
    &&& at + text.len() <= c.len()
    &&& forall|i: int| 0 <= i < text.len() ==> c[at + i] == #[trigger] text[i]
}

proof fn lemma_number_ends(c: Seq<char>, at: int, end: int)
    requires
        0 <= at <= end <= c.len(),
        forall|i: int| at <= i < end ==> in_number(#[trigger] c[i]),
        end < c.len() ==> !in_number(c[end]),
    ensures
        number_end(c, at) == end,
    decreases end - at,
{
    if at < end {
        lemma_number_ends(c, at + 1, end);
    }
}

proof fn lemma_number_here(c: Seq<char>, at: int, n: Seq<char>)
    requires
        here(c, at, n),
        plain_number(n),
        at + n.len() < c.len() ==> !in_number(c[at + n.len()]),
    ensures
        atom_at(c, at) == Some((Tree::Number(n), at + n.len())),
{
    let end = at + n.len();
    assert(n.len() > 0);
    assert(c[at + 0] == n[0]);
    assert(blank_start(c, at) == at);
    assert forall|i: int| at <= i < end implies in_number(#[trigger] c[i]) by {
        assert(c[at + (i - at)] == n[i - at]);
    }
    lemma_number_ends(c, at, end);
    assert(c.subrange(at, end) =~= n);
    assert(pointed(n) =~= n);
}

proof fn lemma_nothing_follows(c: Seq<char>, left: Tree, at: int)
    requires
        0 <= at <= c.len(),
        at < c.len() ==> c[at] == ')',
    ensures
        term_rest(c, left, at) == Some((left, at)),
        expr_rest(c, left, at) == Some((left, at)),
{
    assert(blank_start(c, at) == at);
}

proof fn lemma_wrapped_here(c: Seq<char>, at: int, tree: Tree)
    requires
        sound(tree),
        here(c, at, seq!['('] + written(tree) + seq![')']),
    ensures
        atom_at(c, at) == Some((tree, at + written(tree).len() + 2)),
    decreases written(tree).len(), 1int,
{
    let w = written(tree);
    let all = seq!['('] + w + seq![')'];
    assert(all[0] == '(');
    assert(all[w.len() as int + 1] == ')');
    assert(c[at + 0] == '(');
    assert(c[at + (w.len() + 1)] == ')');
    assert(here(c, at + 1, w)) by {
        assert forall|i: int| 0 <= i < w.len() implies c[at + 1 + i] == #[trigger] w[i] by {
            assert(all[i + 1] == w[i]);
            assert(c[at + (i + 1)] == all[i + 1]);
        }
    }
    lemma_written_here(c, at + 1, tree);
    assert(blank_start(c, at) == at);
    let close = at + 1 + w.len();
    assert(blank_start(c, close) == close);
}

proof fn lemma_written_is_not_empty(tree: Tree)
    requires
        sound(tree),
    ensures
        written(tree).len() > 0,
{
}

/// A formula that stands at an index with nothing behind it, or a closing
/// parenthesis, is read whole.
proof fn lemma_written_here(c: Seq<char>, at: int, tree: Tree)
    requires
        sound(tree),
        here(c, at, written(tree)),
        at + written(tree).len() < c.len() ==> c[at + written(tree).len()] == ')',
    ensures
        expr_at(c, at) == Some((tree, at + written(tree).len())),
    decreases written(tree).len(), 0int,
{
    let w = written(tree);
    let end = at + w.len();
    match tree {
        Tree::Number(n) => {
            lemma_number_here(c, at, n);
            lemma_nothing_follows(c, tree, end);
        },
        Tree::Negated(a) => {
            let inner = seq!['('] + written(*a) + seq![')'];
            assert(w =~= seq!['-'] + inner);
            assert(here(c, at + 1, inner)) by {
                assert forall|i: int| 0 <= i < inner.len() implies c[at + 1 + i]
                    == #[trigger] inner[i] by {
                    assert(w[i + 1] == inner[i]);
                    assert(c[at + (i + 1)] == w[i + 1]);
                }
            }
            assert(w[0] == '-');
            assert(c[at + 0] == '-');
            assert(blank_start(c, at) == at);
            lemma_wrapped_here(c, at + 1, *a);
            lemma_nothing_follows(c, tree, end);
        },
        Tree::Sum(a, b) => {
            lemma_pair_here(c, at, *a, '+', *b);
            let mid = at + written(*a).len() + 2;
            assert(blank_start(c, mid) == mid);
            assert(term_rest(c, *a, mid) == Some((*a, mid)));
            lemma_nothing_follows(c, *b, end);
            lemma_nothing_follows(c, tree, end);
        },
        Tree::Difference(a, b) => {
            lemma_pair_here(c, at, *a, '-', *b);
            let mid = at + written(*a).len() + 2;
            assert(blank_start(c, mid) == mid);
            assert(term_rest(c, *a, mid) == Some((*a, mid)));
            lemma_nothing_follows(c, *b, end);
            lemma_nothing_follows(c, tree, end);
        },
        Tree::Product(a, b) => {
            lemma_pair_here(c, at, *a, '*', *b);
            let mid = at + written(*a).len() + 2;
            assert(blank_start(c, mid) == mid);
            lemma_nothing_follows(c, tree, end);
        },
        Tree::Quotient(a, b) => {
            lemma_pair_here(c, at, *a, '/', *b);
            let mid = at + written(*a).len() + 2;
            assert(blank_start(c, mid) == mid);
            lemma_nothing_follows(c, tree, end);
        },
    }
}

proof fn lemma_pair_here(c: Seq<char>, at: int, a: Tree, op: char, b: Tree)
    requires
        sound(a),
        sound(b),
        here(c, at, seq!['('] + written(a) + seq![')', op, '('] + written(b) + seq![')']),
    ensures
        c[at] == '(',
        atom_at(c, at) == Some((a, at + written(a).len() + 2)),
        at + written(a).len() + 2 < c.len(),
        c[at + written(a).len() + 2] == op,
        atom_at(c, at + written(a).len() + 3) == Some(
            (b, at + written(a).len() + written(b).len() + 5),
        ),
    decreases written(a).len() + written(b).len() + 1, 2int,
{
    let x = written(a);
    let y = written(b);
    let w = seq!['('] + x + seq![')', op, '('] + y + seq![')'];
    let first = seq!['('] + x + seq![')'];
    let second = seq!['('] + y + seq![')'];
    assert(w =~= first + seq![op] + second);
    assert(here(c, at, first)) by {
        assert forall|i: int| 0 <= i < first.len() implies c[at + i] == #[trigger] first[i] by {
            assert(w[i] == first[i]);
        }
    }
    let mid = first.len() as int;
    assert(w[mid] == op);
    assert(c[at + mid] == op);
    assert(w[0] == '(');
    assert(c[at + 0] == '(');
    assert(here(c, at + mid + 1, second)) by {
        assert forall|i: int| 0 <= i < second.len() implies c[at + mid + 1 + i]
            == #[trigger] second[i] by {
            assert(w[mid + 1 + i] == second[i]);
            assert(c[at + (mid + 1 + i)] == w[mid + 1 + i]);
        }
    }
    lemma_wrapped_here(c, at, a);
    lemma_wrapped_here(c, at + mid + 1, b);
}

proof fn lemma_nothing_to_trim(text: Seq<char>)
    requires
        text.len() > 0,
        !crate::text::is_blank(text[0]),
        !crate::text::is_blank(text.last()),
    ensures
        trimmed(text) == text,
{
    assert(blank_start(text, 0) == 0);
    assert(text[text.len() - 1] == text.last());
    assert(crate::text::blank_end(text, 0, text.len() as int) == text.len());
    assert(text.subrange(0, text.len() as int) =~= text);
}

/// A formula that is written out, with all its parentheses, reads back as
/// itself.
pub proof fn law_a_written_formula_reads_back(tree: Tree)
    requires
        sound(tree),
    ensures
        formula_of(written(tree)) == Some(tree),
{
    let w = written(tree);
    lemma_written_is_not_empty(tree);
    match tree {
        Tree::Number(n) => {
            assert(is_digit(n[0]) || n[0] == '.');
            assert(is_digit(n[n.len() - 1]) || n[n.len() - 1] == '.');
        },
        _ => {},
    }
    lemma_nothing_to_trim(w);
    lemma_written_here(w, 0, tree);
}

/// Multiplying binds tighter than adding: `a+b*c` is the sum of `a` and the
/// product of `b` and `c`.
pub proof fn law_products_bind_tighter(a: Seq<char>, b: Seq<char>, c: Seq<char>)
    requires
        plain_number(a),
        plain_number(b),
        plain_number(c),
    ensures
        formula_of(a + seq!['+'] + b + seq!['*'] + c) == Some(
            Tree::Sum(
                Box::new(Tree::Number(a)),
                Box::new(
                    Tree::Product(Box::new(Tree::Number(b)), Box::new(Tree::Number(c))),
                ),
            ),
        ),
{
    let (p, q, end) = lemma_three_here(a, '+', b, '*', c);
    lemma_sum_of_product(
        a + seq!['+'] + b + seq!['*'] + c,
        p,
        q,
        Tree::Number(a),
        Tree::Number(b),
        Tree::Number(c),
    );
}

proof fn lemma_sum_of_product(text: Seq<char>, p: int, q: int, a: Tree, b: Tree, c: Tree)
    requires
        0 < p < q < text.len(),
        text[p] == '+',
        text[q] == '*',
        atom_at(text, 0) == Some((a, p)),
        atom_at(text, p + 1) == Some((b, q)),
        atom_at(text, q + 1) == Some((c, text.len() as int)),
    ensures
        expr_at(text, 0) == Some(
            (
                Tree::Sum(Box::new(a), Box::new(Tree::Product(Box::new(b), Box::new(c)))),
                text.len() as int,
            ),
        ),
{
    let end = text.len() as int;
    assert(blank_start(text, p) == p);
    assert(blank_start(text, q) == q);
    assert(term_rest(text, a, p) == Some((a, p)));
    assert(term_at(text, 0) == Some((a, p)));
    let product = Tree::Product(Box::new(b), Box::new(c));
    lemma_nothing_follows(text, product, end);
    assert(term_rest(text, b, q) == term_rest(text, product, end));
    assert(term_at(text, p + 1) == Some((product, end)));
    let sum = Tree::Sum(Box::new(a), Box::new(product));
    lemma_nothing_follows(text, sum, end);
    assert(expr_rest(text, a, p) == expr_rest(text, sum, end));
}

/// Subtracting goes from left to right: `a-b-c` takes `c` from `a-b`.
pub proof fn law_differences_group_to_the_left(a: Seq<char>, b: Seq<char>, c: Seq<char>)
    requires
        plain_number(a),
        plain_number(b),
        plain_number(c),
    ensures
        formula_of(a + seq!['-'] + b + seq!['-'] + c) == Some(
            Tree::Difference(
                Box::new(
                    Tree::Difference(Box::new(Tree::Number(a)), Box::new(Tree::Number(b))),
                ),
                Box::new(Tree::Number(c)),
            ),
        ),
{
    let (p, q, end) = lemma_three_here(a, '-', b, '-', c);
    lemma_two_differences(
        a + seq!['-'] + b + seq!['-'] + c,
        p,
        q,
        Tree::Number(a),
        Tree::Number(b),
        Tree::Number(c),
    );
}

proof fn lemma_two_differences(text: Seq<char>, p: int, q: int, a: Tree, b: Tree, c: Tree)
    requires
        0 < p < q < text.len(),
        text[p] == '-',
        text[q] == '-',
        atom_at(text, 0) == Some((a, p)),
        atom_at(text, p + 1) == Some((b, q)),
        atom_at(text, q + 1) == Some((c, text.len() as int)),
    ensures
        expr_at(text, 0) == Some(
            (
                Tree::Difference(Box::new(Tree::Difference(Box::new(a), Box::new(b))), Box::new(c)),
                text.len() as int,
            ),
        ),
{
    let end = text.len() as int;
    assert(blank_start(text, p) == p);
    assert(blank_start(text, q) == q);
    assert(term_rest(text, a, p) == Some((a, p)));
    assert(term_at(text, 0) == Some((a, p)));
    assert(term_rest(text, b, q) == Some((b, q)));
    assert(term_at(text, p + 1) == Some((b, q)));
    lemma_nothing_follows(text, c, end);
    assert(term_at(text, q + 1) == Some((c, end)));
    let first = Tree::Difference(Box::new(a), Box::new(b));
    let all = Tree::Difference(Box::new(first), Box::new(c));
    lemma_nothing_follows(text, all, end);
    assert(expr_rest(text, first, q) == expr_rest(text, all, end));
    assert(expr_rest(text, a, p) == expr_rest(text, first, q));
}

proof fn lemma_three_here(a: Seq<char>, f: char, b: Seq<char>, g: char, c: Seq<char>) -> (r: (
    int,
    int,
    int,
))
    requires
        plain_number(a),
        plain_number(b),
        plain_number(c),
        !in_number(f),
        !in_number(g),
    ensures
        ({
            let text = a + seq![f] + b + seq![g] + c;
            &&& 0 < r.0 < r.1 < r.2
            &&& r.2 == text.len()
            &&& text[r.0] == f
            &&& text[r.1] == g
            &&& trimmed(text) == text
            &&& atom_at(text, 0) == Some((Tree::Number(a), r.0))
            &&& atom_at(text, r.0 + 1) == Some((Tree::Number(b), r.1))
            &&& atom_at(text, r.1 + 1) == Some((Tree::Number(c), r.2))
        }),
{
    let text = a + seq![f] + b + seq![g] + c;
    let p = a.len() as int;
    let q = p + 1 + b.len();
    let end = q + 1 + c.len();
    assert(here(text, 0, a));
    lemma_number_here(text, 0, a);
    assert(here(text, p + 1, b));
    lemma_number_here(text, p + 1, b);
    assert(here(text, q + 1, c));
    lemma_number_here(text, q + 1, c);
    assert(is_digit(a[0]) || a[0] == '.');
    assert(text[0] == a[0]);
    assert(is_digit(c[c.len() - 1]) || c[c.len() - 1] == '.');
    assert(text.last() == c[c.len() - 1]);
    lemma_nothing_to_trim(text);
    (p, q, end)
}

// --- what a typed formula promises ----------------------------------------

/// What an operator between two formulas makes of them.
pub open spec fn combined(op: char, a: Tree, b: Tree) -> Tree {
    if op == '+' {
        Tree::Sum(Box::new(a), Box::new(b))
    } else if op == '-' {
        Tree::Difference(Box::new(a), Box::new(b))
    } else if op == '/' {
        Tree::Quotient(Box::new(a), Box::new(b))
    } else {
        Tree::Product(Box::new(a), Box::new(b))
    }
}

/// Whether an operator adds or takes away.
pub open spec fn adds(op: char) -> bool {
    op == '+' || op == '-'
}

/// Whether an operator multiplies or divides.
pub open spec fn scales(op: char) -> bool {
    op == '*' || op == 'x' || op == '/'
}

/// Three numbers with two operators between them are read as they are on paper:
/// from left to right, but that multiplying and dividing go before adding and
/// taking away.
pub proof fn law_formulas_are_read_as_on_paper(
    text: &str,
    a: Seq<char>,
    f: char,
    b: Seq<char>,
    g: char,
    c: Seq<char>,
    r: Option<Formula>,
)
    requires
        plain_number(a),
        plain_number(b),
        plain_number(c),
        adds(f) || scales(f),
        adds(g) || scales(g),
        text@ == a + seq![f] + b + seq![g] + c,
        call_ensures(read_formula, (text,), r),
    ensures
        r is Some,
        adds(f) && scales(g) ==> r->Some_0@ == combined(
            f,
            Tree::Number(a),
            combined(g, Tree::Number(b), Tree::Number(c)),
        ),
        !(adds(f) && scales(g)) ==> r->Some_0@ == combined(
            g,
            combined(f, Tree::Number(a), Tree::Number(b)),
            Tree::Number(c),
        ),
{
    let (p, q, end) = lemma_three_here(a, f, b, g, c);
    let t = text@;
    let x = Tree::Number(a);
    let y = Tree::Number(b);
    let z = Tree::Number(c);
    assert(blank_start(t, p) == p);
    assert(blank_start(t, q) == q);
    lemma_nothing_follows(t, z, end);
    let yz = combined(g, y, z);
    let xy = combined(f, x, y);
    let last = combined(g, xy, z);
    lemma_nothing_follows(t, yz, end);
    lemma_nothing_follows(t, last, end);
    if adds(f) && scales(g) {
        let all = combined(f, x, yz);
        lemma_nothing_follows(t, all, end);
        assert(term_rest(t, x, p) == Some((x, p)));
        assert(term_at(t, 0) == Some((x, p)));
        assert(term_rest(t, y, q) == term_rest(t, yz, end));
        assert(term_at(t, p + 1) == Some((yz, end)));
        assert(expr_rest(t, x, p) == expr_rest(t, all, end));
        assert(expr_at(t, 0) == Some((all, end)));
    } else if adds(f) {
        assert(term_rest(t, x, p) == Some((x, p)));
        assert(term_at(t, 0) == Some((x, p)));
        assert(term_rest(t, y, q) == Some((y, q)));
        assert(term_at(t, p + 1) == Some((y, q)));
        assert(term_at(t, q + 1) == Some((z, end)));
        assert(expr_rest(t, xy, q) == expr_rest(t, last, end));
        assert(expr_rest(t, x, p) == expr_rest(t, xy, q));
        assert(expr_at(t, 0) == Some((last, end)));
    } else if adds(g) {
        assert(term_rest(t, xy, q) == Some((xy, q)));
        assert(term_rest(t, x, p) == term_rest(t, xy, q));
        assert(term_at(t, 0) == Some((xy, q)));
        assert(term_at(t, q + 1) == Some((z, end)));
        assert(expr_rest(t, xy, q) == expr_rest(t, last, end));
        assert(expr_at(t, 0) == Some((last, end)));
    } else {
        assert(term_rest(t, xy, q) == term_rest(t, last, end));
        assert(term_rest(t, x, p) == term_rest(t, xy, q));
        assert(term_at(t, 0) == Some((last, end)));
        assert(expr_at(t, 0) == Some((last, end)));
    }
}

/// A formula that is written out with a bracket round each side of an operator is
/// read back as that formula.
pub proof fn law_brackets_group(text: &str, tree: Tree, r: Option<Formula>)
    requires
        sound(tree),
        text@ == written(tree),
        call_ensures(read_formula, (text,), r),
    ensures
        r is Some,
        r->Some_0@ == tree,
{
    law_a_written_formula_reads_back(tree);
}

/// Brackets round two formulas with an operator between them, written by hand.
pub proof fn law_what_brackets_round_two_formulas_write(a: Tree, b: Tree)
    ensures
        written(Tree::Sum(Box::new(a), Box::new(b))) == seq!['('] + written(a) + seq![
            ')',
            '+',
            '(',
        ] + written(b) + seq![')'],
        written(Tree::Difference(Box::new(a), Box::new(b))) == seq!['('] + written(a) + seq![
            ')',
            '-',
            '(',
        ] + written(b) + seq![')'],
        written(Tree::Product(Box::new(a), Box::new(b))) == seq!['('] + written(a) + seq![
            ')',
            '*',
            '(',
        ] + written(b) + seq![')'],
        written(Tree::Quotient(Box::new(a), Box::new(b))) == seq!['('] + written(a) + seq![
            ')',
            '/',
            '(',
        ] + written(b) + seq![')'],
        written(Tree::Negated(Box::new(a))) == seq!['-', '('] + written(a) + seq![')'],
{
    assert(written(Tree::Negated(Box::new(a))) =~= seq!['-', '('] + written(a) + seq![')']);
}

/// A lone number is that number, after a plus sign too; after a minus sign it is
/// taken the other way. A text that only blanks are added to is the same
/// formula.
pub proof fn law_a_sign_belongs_to_its_number(
    text: &str,
    sign: char,
    a: Seq<char>,
    signed: Option<Formula>,
    alone: &str,
    plain: Option<Formula>,
    blank_round: &str,
    same: Option<Formula>,
)
    requires
        plain_number(a),
        sign == '+' || sign == '-',
        text@ == seq![sign] + a,
        alone@ == a,
        call_ensures(read_formula, (text,), signed),
        call_ensures(read_formula, (alone,), plain),
        call_ensures(read_formula, (blank_round,), same),
        trimmed(blank_round@) == trimmed(text@),
    ensures
        plain is Some,
        plain->Some_0@ == Tree::Number(a),
        signed is Some,
        sign == '+' ==> signed->Some_0@ == Tree::Number(a),
        sign == '-' ==> signed->Some_0@ == Tree::Negated(Box::new(Tree::Number(a))),
        same is Some,
        same->Some_0@ == signed->Some_0@,
{
    let end = a.len() as int;
    let x = Tree::Number(a);
    assert(is_digit(a[0]) || a[0] == '.');
    assert(is_digit(a[end - 1]) || a[end - 1] == '.');
    assert(here(a, 0, a));
    lemma_number_here(a, 0, a);
    lemma_nothing_to_trim(a);
    lemma_nothing_follows(a, x, end);
    assert(term_at(a, 0) == Some((x, end)));
    assert(expr_at(a, 0) == Some((x, end)));
    let t = text@;
    assert(t.last() == a[end - 1]);
    lemma_nothing_to_trim(t);
    assert(here(t, 1, a));
    lemma_number_here(t, 1, a);
    assert(blank_start(t, 0) == 0);
    let n = Tree::Negated(Box::new(x));
    lemma_nothing_follows(t, x, end + 1);
    lemma_nothing_follows(t, n, end + 1);
    let found = if sign == '+' {
        x
    } else {
        n
    };
    assert(atom_at(t, 0) == Some((found, end + 1)));
    assert(term_at(t, 0) == Some((found, end + 1)));
    assert(expr_at(t, 0) == Some((found, end + 1)));
}

/// What comes out of a field is what the formula in it comes to, where that is a
/// number and finite, and nothing where the field holds no formula.
pub proof fn law_a_field_comes_to_its_formula<C: Fn(&Formula) -> Scalar>(
    text: &str,
    compute: &C,
    read: Option<Formula>,
    r: Option<Scalar>,
)
    requires
        call_ensures(read_formula, (text,), read),
        call_ensures(eval::<C>, (text, compute), r),
    ensures
        read is None ==> r is None,
        r matches Some(value) ==> value.finite() && exists|formula: &Formula|
            call_ensures(*compute, (formula,), value) && formula@ == read->Some_0@,
        read is Some && (forall|formula: &Formula, value: Scalar|
            #[trigger] call_ensures(*compute, (formula,), value) && formula@ == read->Some_0@
                ==> value.finite()) ==> r is Some,
{
}

} // verus!
