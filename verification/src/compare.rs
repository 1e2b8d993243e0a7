//! Comparisons between template values.
//!
//! Only booleans, numbers and strings can be compared, and only with a value
//! of the same kind; numbers compare by mathematical value whatever their
//! signedness, so a signed/unsigned comparison can never wrap around.

use vstd::prelude::*;

use crate::grammar::CmpOperator;
use crate::number::{self, Number};
use crate::vars::GVal;

verus! {

/// An internal representation of something that can be compared.
#[derive(Debug, PartialEq)]
pub enum Comparable {
    /// A boolean; false orders before true.
    Bool(bool),
    /// A number, compared by mathematical value.
    Num(Number),
    /// A string, compared lexicographically by character.
    Str(Vec<char>),
}

/// The model of a comparable value.
pub ghost enum GCmp {
    /// A boolean.
    Bool(bool),
    /// A number, by its mathematical value.
    Num(int),
    /// A string.
    Str(Seq<char>),
}

/// The model of a comparable value.
pub open spec fn view_cmp(c: Comparable) -> GCmp {
    match c {
        Comparable::Bool(b) => GCmp::Bool(b),
        Comparable::Num(n) => GCmp::Num(number::num_int(n)),
        Comparable::Str(s) => GCmp::Str(s@),
    }
}

/// The comparable form of a value, where it has one.
pub open spec fn comparable_of(g: GVal) -> Option<GCmp> {
    match g {
        GVal::Bool(b) => Some(GCmp::Bool(b)),
        GVal::Num(v) => Some(GCmp::Num(v)),
        GVal::Str(s) => Some(GCmp::Str(s)),
        _ => None,
    }
}

/// Whether two comparable values are of the same kind.
pub open spec fn compatible(a: GCmp, b: GCmp) -> bool {
    match (a, b) {
        (GCmp::Bool(_), GCmp::Bool(_)) => true,
        (GCmp::Num(_), GCmp::Num(_)) => true,
        (GCmp::Str(_), GCmp::Str(_)) => true,
        _ => false,
    }
}

/// Strict lexicographic order on character sequences, by code point.
pub open spec fn lex_lt(a: Seq<char>, b: Seq<char>) -> bool
    decreases a.len(),
{
    if b.len() == 0 {
        false
    } else if a.len() == 0 {
        true
    } else if a[0] != b[0] {
        a[0] < b[0]
    } else {
        lex_lt(a.subrange(1, a.len() as int), b.subrange(1, b.len() as int))
    }
}

/// Strict order between two compatible comparable values.
pub open spec fn cmp_lt(a: GCmp, b: GCmp) -> bool {
    match (a, b) {
        (GCmp::Bool(x), GCmp::Bool(y)) => !x && y,
        (GCmp::Num(x), GCmp::Num(y)) => x < y,
        (GCmp::Str(x), GCmp::Str(y)) => lex_lt(x, y),
        _ => false,
    }
}

/// Equality between two compatible comparable values.
pub open spec fn cmp_eq(a: GCmp, b: GCmp) -> bool {
    match (a, b) {
        (GCmp::Bool(x), GCmp::Bool(y)) => x == y,
        (GCmp::Num(x), GCmp::Num(y)) => x == y,
        (GCmp::Str(x), GCmp::Str(y)) => x == y,
        _ => false,
    }
}

/// The truth of `a oper b` given the strict order and equality of `a` and `b`.
pub open spec fn apply_op(oper: CmpOperator, lt: bool, eq: bool) -> bool {
    match oper {
        CmpOperator::Eq => eq,
        CmpOperator::Neq => !eq,
        CmpOperator::Less => lt,
        CmpOperator::LessEq => lt || eq,
        CmpOperator::Greater => !lt && !eq,
        CmpOperator::GreaterEq => !lt,
    }
}

/// The outcome of comparing two comparable values: the truth of the
/// operator when the kinds agree, no outcome otherwise.
pub open spec fn spec_compare(a: GCmp, b: GCmp, oper: CmpOperator) -> Option<bool> {
    if compatible(a, b) {
        Some(apply_op(oper, cmp_lt(a, b), cmp_eq(a, b)))
    } else {
        None
    }
}

fn num_lt(a: Number, b: Number) -> (r: bool)
    ensures
        r == (number::num_int(a) < number::num_int(b)),
{
    match (a, b) {
        (Number::I64(x), Number::I64(y)) => x < y,
        (Number::U64(x), Number::U64(y)) => x < y,
        (Number::I64(x), Number::U64(y)) => {
            if x < 0 {
                true
            } else {
                (x as u64) < y
            }
        },
        (Number::U64(x), Number::I64(y)) => {
            if y < 0 {
                false
            } else {
                x < (y as u64)
            }
        },
    }
}

fn num_eq(a: Number, b: Number) -> (r: bool)
    ensures
        r == (number::num_int(a) == number::num_int(b)),
{
    match (a, b) {
        (Number::I64(x), Number::I64(y)) => x == y,
        (Number::U64(x), Number::U64(y)) => x == y,
        (Number::I64(x), Number::U64(y)) => x >= 0 && (x as u64) == y,
        (Number::U64(x), Number::I64(y)) => y >= 0 && x == (y as u64),
    }
}

fn str_lt_at(a: &Vec<char>, b: &Vec<char>, i: usize) -> (r: bool)
    requires
        i <= a@.len(),
        i <= b@.len(),
    ensures
        r == lex_lt(a@.subrange(i as int, a@.len() as int), b@.subrange(i as int, b@.len() as int)),
    decreases a@.len() - i,
{
    if i == b.len() {
        false
    } else if i == a.len() {
        true
    } else if a[i] != b[i] {
        a[i] < b[i]
    } else {
        let r = str_lt_at(a, b, i + 1);
        proof {
            let sa = a@.subrange(i as int, a@.len() as int);
            let sb = b@.subrange(i as int, b@.len() as int);
            assert(sa.subrange(1, sa.len() as int) =~= a@.subrange(i + 1, a@.len() as int));
            assert(sb.subrange(1, sb.len() as int) =~= b@.subrange(i + 1, b@.len() as int));
        }
        r
    }
}

fn str_lt(a: &Vec<char>, b: &Vec<char>) -> (r: bool)
    ensures
        r == lex_lt(a@, b@),
{
    proof {
        assert(a@.subrange(0, a@.len() as int) =~= a@);
        assert(b@.subrange(0, b@.len() as int) =~= b@);
    }
    str_lt_at(a, b, 0)
}

/// Compare two comparable values; fails exactly when the kinds differ.
pub fn compare(a: &Comparable, b: &Comparable, oper: CmpOperator) -> (r: Result<bool, ()>)
    ensures
        r == (match spec_compare(view_cmp(*a), view_cmp(*b), oper) {
            Some(v) => Ok::<bool, ()>(v),
            None => Err::<bool, ()>(()),
        }),
{
    let (lt, eq) = match (a, b) {
        (Comparable::Bool(x), Comparable::Bool(y)) => (!*x && *y, *x == *y),
        (Comparable::Num(x), Comparable::Num(y)) => (num_lt(*x, *y), num_eq(*x, *y)),
        (Comparable::Str(x), Comparable::Str(y)) => (str_lt(x, y), crate::chars::eq_chars(x, y)),
        _ => {
            return Err(());
        },
    };
    match oper {
        CmpOperator::Eq => Ok(eq),
        CmpOperator::Neq => Ok(!eq),
        CmpOperator::Less => Ok(lt),
        CmpOperator::LessEq => Ok(lt || eq),
        CmpOperator::Greater => Ok(!lt && !eq),
        CmpOperator::GreaterEq => Ok(!lt),
    }
}

} // verus!
