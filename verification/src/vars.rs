//! The data-binding model: the values a template is rendered against.
//!
//! A [`Value`] is a JSON-like owned tree.  The capability methods
//! (`attr`, `index`, `output`, the coercions and the iterations) form the
//! uniform interface through which the renderer queries data; every
//! operation a given shape of value does not support reports an error value
//! instead, which the renderer records and absorbs.

use vstd::prelude::*;

use crate::chars;
use crate::compare::Comparable;
use crate::number::{self, Number};
use crate::render_error::{DataError, GErr, TypeName};

verus! {

broadcast use vstd::std_specs::vec::group_vec_axioms;

/// A host value participating in rendering.
#[derive(Debug, PartialEq)]
pub enum Value {
    /// The undefined placeholder: renders empty, iterates empty, and
    /// attribute or index access on it yields itself.
    Undefined,
    /// A boolean.
    Bool(bool),
    /// A number.
    Num(Number),
    /// A string.
    Str(Vec<char>),
    /// A list of values.
    List(Vec<Value>),
    /// An associative collection; a later pair with the same key overrides
    /// an earlier one.
    Dict(Vec<(Vec<char>, Value)>),
}

/// The model of a value.
pub ghost enum GVal {
    /// The undefined placeholder.
    Undef,
    /// A boolean.
    Bool(bool),
    /// A number, by its mathematical value.
    Num(int),
    /// A string.
    Str(Seq<char>),
    /// A list of values.
    List(Seq<GVal>),
    /// An associative collection.
    Dict(Seq<(Seq<char>, GVal)>),
}

/// The model of a value.
pub open spec fn view_val(v: Value) -> GVal
    decreases v,
{
    match v {
        Value::Undefined => GVal::Undef,
        Value::Bool(b) => GVal::Bool(b),
        Value::Num(n) => GVal::Num(number::num_int(n)),
        Value::Str(s) => GVal::Str(s@),
        Value::List(items) => GVal::List(view_val_list(items@)),
        Value::Dict(pairs) => GVal::Dict(view_val_pairs(pairs@)),
    }
}

/// The models of a sequence of values.
pub open spec fn view_val_list(s: Seq<Value>) -> Seq<GVal>
    decreases s,
{
    if s.len() == 0 {
        Seq::empty()
    } else {
        seq![view_val(s[0])] + view_val_list(s.subrange(1, s.len() as int))
    }
}

/// The models of a sequence of key/value pairs.
pub open spec fn view_val_pairs(s: Seq<(Vec<char>, Value)>) -> Seq<(Seq<char>, GVal)>
    decreases s,
{
    if s.len() == 0 {
        Seq::empty()
    } else {
        seq![(s[0].0@, view_val(s[0].1))] + view_val_pairs(s.subrange(1, s.len() as int))
    }
}

/// The model of a capability result.
pub open spec fn view_res(r: Result<Value, DataError>) -> Result<GVal, GErr> {
    match r {
        Ok(v) => Ok(view_val(v)),
        Err(e) => Err(crate::render_error::view_err(e)),
    }
}

/// Element lists have element-wise models.
pub proof fn lemma_view_val_list_index(s: Seq<Value>, i: int)
    requires
        0 <= i < s.len(),
    ensures
        view_val_list(s).len() == s.len(),
        view_val_list(s)[i] == view_val(s[i]),
    decreases s.len(),
{
    lemma_view_val_list_len(s);
    if i > 0 {
        lemma_view_val_list_index(s.subrange(1, s.len() as int), i - 1);
    }
}

/// The model of an element list has the same length.
pub proof fn lemma_view_val_list_len(s: Seq<Value>)
    ensures
        view_val_list(s).len() == s.len(),
    decreases s.len(),
{
    if s.len() > 0 {
        lemma_view_val_list_len(s.subrange(1, s.len() as int));
    }
}

/// Pair lists have pair-wise models.
pub proof fn lemma_view_val_pairs_index(s: Seq<(Vec<char>, Value)>, i: int)
    requires
        0 <= i < s.len(),
    ensures
        view_val_pairs(s).len() == s.len(),
        view_val_pairs(s)[i] == (s[i].0@, view_val(s[i].1)),
    decreases s.len(),
{
    lemma_view_val_pairs_len(s);
    if i > 0 {
        lemma_view_val_pairs_index(s.subrange(1, s.len() as int), i - 1);
    }
}

/// The model of a pair list has the same length.
pub proof fn lemma_view_val_pairs_len(s: Seq<(Vec<char>, Value)>)
    ensures
        view_val_pairs(s).len() == s.len(),
    decreases s.len(),
{
    if s.len() > 0 {
        lemma_view_val_pairs_len(s.subrange(1, s.len() as int));
    }
}

/// The user-visible type of a value.
pub open spec fn typename_of(g: GVal) -> TypeName {
    match g {
        GVal::Undef => TypeName::Undefined,
        GVal::Bool(_) => TypeName::Bool,
        GVal::Num(_) => TypeName::Number,
        GVal::Str(_) => TypeName::Str,
        GVal::List(_) => TypeName::List,
        GVal::Dict(_) => TypeName::Dict,
    }
}

/// The boolean coercion of a value: emptiness for collections and strings,
/// zero-test for numbers, false for the undefined placeholder.
pub open spec fn bool_of(g: GVal) -> bool {
    match g {
        GVal::Undef => false,
        GVal::Bool(b) => b,
        GVal::Num(v) => v != 0,
        GVal::Str(s) => s.len() > 0,
        GVal::List(items) => items.len() > 0,
        GVal::Dict(pairs) => pairs.len() > 0,
    }
}

/// The printed form of a value: numbers in decimal, booleans as words,
/// the undefined placeholder as the empty string; collections cannot be
/// printed.
pub open spec fn output_of(g: GVal) -> Result<Seq<char>, GErr> {
    match g {
        GVal::Undef => Ok(Seq::empty()),
        GVal::Bool(b) => Ok(
            if b {
                seq!['t', 'r', 'u', 'e']
            } else {
                seq!['f', 'a', 'l', 's', 'e']
            },
        ),
        GVal::Num(v) => Ok(chars::dec_int(v)),
        GVal::Str(s) => Ok(s),
        GVal::List(_) => Err(GErr::OutputUnsupported(TypeName::List)),
        GVal::Dict(_) => Err(GErr::OutputUnsupported(TypeName::Dict)),
    }
}

/// The value stored under `key`, taking the last pair when the key repeats.
pub open spec fn dict_get(pairs: Seq<(Seq<char>, GVal)>, key: Seq<char>) -> Option<GVal>
    decreases pairs.len(),
{
    if pairs.len() == 0 {
        None
    } else if pairs.last().0 == key {
        Some(pairs.last().1)
    } else {
        dict_get(pairs.drop_last(), key)
    }
}

/// The attribute `name` of a value: a dict lookup; the undefined
/// placeholder yields itself.
pub open spec fn attr_of(g: GVal, name: Seq<char>) -> Result<GVal, GErr> {
    match g {
        GVal::Undef => Ok(GVal::Undef),
        GVal::Dict(pairs) => match dict_get(pairs, name) {
            Some(v) => Ok(v),
            None => Err(GErr::AttrNotFound),
        },
        _ => Err(GErr::AttrUnsupported(typename_of(g))),
    }
}

/// The string-key coercion of a value.
pub open spec fn str_key_of(g: GVal) -> Result<Seq<char>, GErr> {
    match g {
        GVal::Str(s) => Ok(s),
        _ => Err(GErr::StrKeyUnsupported(typename_of(g))),
    }
}

/// The integer-key coercion of a value: a number taken modulo `2^64`,
/// matching a wrapping cast.
pub open spec fn int_key_of(g: GVal) -> Result<int, GErr> {
    match g {
        GVal::Num(v) => Ok(
            if v < 0 {
                v + 0x1_0000_0000_0000_0000
            } else {
                v
            },
        ),
        _ => Err(GErr::IntKeyUnsupported(typename_of(g))),
    }
}

/// The element of a value at `key`: a dict takes a string key, a list an
/// integer key; the undefined placeholder yields itself.
pub open spec fn index_of(g: GVal, key: GVal) -> Result<GVal, GErr> {
    match g {
        GVal::Undef => Ok(GVal::Undef),
        GVal::Dict(pairs) => match str_key_of(key) {
            Ok(k) => match dict_get(pairs, k) {
                Some(v) => Ok(v),
                None => Err(GErr::IndexNotFound),
            },
            Err(e) => Err(e),
        },
        GVal::List(items) => match int_key_of(key) {
            Ok(k) => if 0 <= k < items.len() {
                Ok(items[k])
            } else {
                Err(GErr::IndexNotFound)
            },
            Err(e) => Err(e),
        },
        _ => Err(GErr::IndexUnsupported(typename_of(g))),
    }
}

impl Value {
    /// The model of this value.
    pub open spec fn view(self) -> GVal {
        view_val(self)
    }

    /// A deep copy, with the same model.
    pub fn duplicate(&self) -> (r: Value)
        ensures
            view_val(r) == view_val(*self),
        decreases self,
    {
        match self {
            Value::Undefined => Value::Undefined,
            Value::Bool(b) => Value::Bool(*b),
            Value::Num(n) => Value::Num(*n),
            Value::Str(s) => Value::Str(s.clone()),
            Value::List(items) => Value::List(items_dup(items)),
            Value::Dict(pairs) => Value::Dict(pairs_dup(pairs)),
        }
    }

    /// The user-visible type, for error messages.
    pub fn typename(&self) -> (r: TypeName)
        ensures
            r == typename_of(view_val(*self)),
    {
        match self {
            Value::Undefined => TypeName::Undefined,
            Value::Bool(_) => TypeName::Bool,
            Value::Num(_) => TypeName::Number,
            Value::Str(_) => TypeName::Str,
            Value::List(_) => TypeName::List,
            Value::Dict(_) => TypeName::Dict,
        }
    }

    /// Evaluate `a.b`.
    pub fn attr(&self, name: &Vec<char>) -> (r: Result<Value, DataError>)
        ensures
            view_res(r) == attr_of(view_val(*self), name@),
    {
        match self {
            Value::Undefined => Ok(Value::Undefined),
            Value::Dict(pairs) => match dict_lookup(pairs, name) {
                Some(v) => Ok(v),
                None => Err(DataError::AttrNotFound),
            },
            _ => Err(DataError::AttrUnsupported(self.typename())),
        }
    }

    /// Evaluate `a[b]`.
    pub fn index(&self, key: &Value) -> (r: Result<Value, DataError>)
        ensures
            view_res(r) == index_of(view_val(*self), view_val(*key)),
    {
        match self {
            Value::Undefined => Ok(Value::Undefined),
            Value::Dict(pairs) => match key.as_str_key() {
                Ok(k) => match dict_lookup(pairs, &k) {
                    Some(v) => Ok(v),
                    None => Err(DataError::IndexNotFound),
                },
                Err(e) => Err(e),
            },
            Value::List(items) => match key.as_int_key() {
                Ok(k) => {
                    if k < items.len() as u64 {
                        proof {
                            lemma_view_val_list_index(items@, k as int);
                        }
                        Ok(items[k as usize].duplicate())
                    } else {
                        proof {
                            lemma_view_val_list_len(items@);
                        }
                        Err(DataError::IndexNotFound)
                    }
                },
                Err(e) => Err(e),
            },
            _ => Err(DataError::IndexUnsupported(self.typename())),
        }
    }

    /// The string value of the variable used as a key in `a[b]`.
    pub fn as_str_key(&self) -> (r: Result<Vec<char>, DataError>)
        ensures
            match r {
                Ok(k) => str_key_of(view_val(*self)) == Ok::<Seq<char>, GErr>(k@),
                Err(e) => str_key_of(view_val(*self)) == Err::<Seq<char>, GErr>(
                    crate::render_error::view_err(e),
                ),
            },
    {
        match self {
            Value::Str(s) => Ok(s.clone()),
            _ => Err(DataError::StrKeyUnsupported(self.typename())),
        }
    }

    /// The integer value of the variable used as a key in `a[b]`; a negative
    /// number wraps around, as a cast does.
    pub fn as_int_key(&self) -> (r: Result<u64, DataError>)
        ensures
            match r {
                Ok(k) => int_key_of(view_val(*self)) == Ok::<int, GErr>(k as int),
                Err(e) => int_key_of(view_val(*self)) == Err::<int, GErr>(
                    crate::render_error::view_err(e),
                ),
            },
    {
        match self {
            Value::Num(n) => match n {
                Number::U64(u) => Ok(*u),
                Number::I64(x) => {
                    if *x >= 0 {
                        Ok(*x as u64)
                    } else {
                        let off: i64 = *x - i64::MIN;
                        Ok((off as u64) + 0x8000_0000_0000_0000u64)
                    }
                },
            },
            _ => Err(DataError::IntKeyUnsupported(self.typename())),
        }
    }

    /// The boolean coercion, used by conditionals and the boolean operators.
    pub fn as_bool(&self) -> (r: Result<bool, DataError>)
        ensures
            r == Ok::<bool, DataError>(bool_of(view_val(*self))),
    {
        match self {
            Value::Undefined => Ok(false),
            Value::Bool(b) => Ok(*b),
            Value::Num(n) => match n {
                Number::U64(u) => Ok(*u != 0),
                Number::I64(x) => Ok(*x != 0),
            },
            Value::Str(s) => Ok(s.len() > 0),
            Value::List(items) => {
                proof {
                    lemma_view_val_list_len(items@);
                }
                Ok(items.len() > 0)
            },
            Value::Dict(pairs) => {
                proof {
                    lemma_view_val_pairs_len(pairs@);
                }
                Ok(pairs.len() > 0)
            },
        }
    }

    /// The value as it takes part in arithmetic.
    pub fn as_number(&self) -> (r: Result<Number, DataError>)
        ensures
            match r {
                Ok(n) => view_val(*self) == GVal::Num(number::num_int(n)),
                Err(e) => !(view_val(*self) is Num) && crate::render_error::view_err(e)
                    == GErr::NumberUnsupported(typename_of(view_val(*self))),
            },
    {
        match self {
            Value::Num(n) => Ok(*n),
            _ => Err(DataError::NumberUnsupported(self.typename())),
        }
    }

    /// The value as it takes part in comparisons.
    pub fn as_comparable(&self) -> (r: Result<Comparable, DataError>)
        ensures
            match r {
                Ok(c) => crate::compare::comparable_of(view_val(*self)) == Some(
                    crate::compare::view_cmp(c),
                ),
                Err(e) => crate::compare::comparable_of(view_val(*self)) is None
                    && crate::render_error::view_err(e) == GErr::ComparisonUnsupported(
                    typename_of(view_val(*self)),
                ),
            },
    {
        match self {
            Value::Bool(b) => Ok(Comparable::Bool(*b)),
            Value::Num(n) => Ok(Comparable::Num(*n)),
            Value::Str(s) => Ok(Comparable::Str(s.clone())),
            _ => Err(DataError::ComparisonUnsupported(self.typename())),
        }
    }

    /// The printed form of the value.
    pub fn output(&self) -> (r: Result<Vec<char>, DataError>)
        ensures
            match r {
                Ok(s) => output_of(view_val(*self)) == Ok::<Seq<char>, GErr>(s@),
                Err(e) => output_of(view_val(*self)) == Err::<Seq<char>, GErr>(
                    crate::render_error::view_err(e),
                ),
            },
    {
        match self {
            Value::Undefined => Ok(Vec::new()),
            Value::Bool(b) => {
                let mut v: Vec<char> = Vec::new();
                if *b {
                    v.push('t');
                    v.push('r');
                    v.push('u');
                    v.push('e');
                    proof {
                        assert(v@ =~= seq!['t', 'r', 'u', 'e']);
                    }
                } else {
                    v.push('f');
                    v.push('a');
                    v.push('l');
                    v.push('s');
                    v.push('e');
                    proof {
                        assert(v@ =~= seq!['f', 'a', 'l', 's', 'e']);
                    }
                }
                Ok(v)
            },
            Value::Num(n) => Ok(num_to_chars(*n)),
            Value::Str(s) => Ok(s.clone()),
            _ => Err(DataError::OutputUnsupported(self.typename())),
        }
    }

    /// The elements of an iterable value; the undefined placeholder
    /// iterates as empty.
    pub fn iterate(&self) -> (r: Result<Vec<Value>, DataError>)
        ensures
            match r {
                Ok(items) => match view_val(*self) {
                    GVal::List(gitems) => view_val_list(items@) == gitems,
                    GVal::Undef => items@.len() == 0,
                    _ => false,
                },
                Err(e) => !(view_val(*self) is List) && !(view_val(*self) is Undef)
                    && crate::render_error::view_err(e) == GErr::IterationUnsupported(
                    typename_of(view_val(*self)),
                ),
            },
    {
        match self {
            Value::Undefined => Ok(Vec::new()),
            Value::List(items) => {
                let c = Value::List(items_dup(items));
                match c {
                    Value::List(out) => Ok(out),
                    _ => Err(DataError::IterationUnsupported(TypeName::List)),
                }
            },
            _ => Err(DataError::IterationUnsupported(self.typename())),
        }
    }

    /// The key/value pairs of an associative value; the undefined
    /// placeholder iterates as empty.
    pub fn iterate_pairs(&self) -> (r: Result<Vec<(Vec<char>, Value)>, DataError>)
        ensures
            match r {
                Ok(pairs) => match view_val(*self) {
                    GVal::Dict(gpairs) => view_val_pairs(pairs@) == gpairs,
                    GVal::Undef => pairs@.len() == 0,
                    _ => false,
                },
                Err(e) => !(view_val(*self) is Dict) && !(view_val(*self) is Undef)
                    && crate::render_error::view_err(e) == GErr::PairIterationUnsupported(
                    typename_of(view_val(*self)),
                ),
            },
    {
        match self {
            Value::Undefined => Ok(Vec::new()),
            Value::Dict(pairs) => {
                let c = Value::Dict(pairs_dup(pairs));
                match c {
                    Value::Dict(out) => Ok(out),
                    _ => Err(DataError::PairIterationUnsupported(TypeName::Dict)),
                }
            },
            _ => Err(DataError::PairIterationUnsupported(self.typename())),
        }
    }
}

/// The model of a list grows element-wise at the end.
pub proof fn lemma_view_snoc_list(s: Seq<Value>, v: Value)
    ensures
        view_val_list(s.push(v)) == view_val_list(s).push(view_val(v)),
{
    lemma_view_val_list_len(s.push(v));
    lemma_view_val_list_len(s);
    assert forall|i: int| 0 <= i < s.len() + 1 implies view_val_list(s.push(v))[i] == view_val_list(
        s,
    ).push(view_val(v))[i] by {
        lemma_view_val_list_index(s.push(v), i);
        if i < s.len() {
            lemma_view_val_list_index(s, i);
        }
    }
    assert(view_val_list(s.push(v)) =~= view_val_list(s).push(view_val(v)));
}

/// The model of a pair list grows pair-wise at the end.
pub proof fn lemma_view_snoc_pairs(s: Seq<(Vec<char>, Value)>, p: (Vec<char>, Value))
    ensures
        view_val_pairs(s.push(p)) == view_val_pairs(s).push((p.0@, view_val(p.1))),
{
    lemma_view_val_pairs_len(s.push(p));
    lemma_view_val_pairs_len(s);
    assert forall|i: int| 0 <= i < s.len() + 1 implies view_val_pairs(s.push(p))[i]
        == view_val_pairs(s).push((p.0@, view_val(p.1)))[i] by {
        lemma_view_val_pairs_index(s.push(p), i);
        if i < s.len() {
            lemma_view_val_pairs_index(s, i);
        }
    }
    assert(view_val_pairs(s.push(p)) =~= view_val_pairs(s).push((p.0@, view_val(p.1))));
}

fn items_dup(items: &Vec<Value>) -> (r: Vec<Value>)
    ensures
        view_val_list(r@) == view_val_list(items@),
    decreases items@,
{
    let mut out: Vec<Value> = Vec::new();
    let mut i: usize = 0;
    while i < items.len()
        invariant
            i <= items@.len(),
            out@.len() == i,
            view_val_list(out@) == view_val_list(items@.subrange(0, i as int)),
        decreases items@.len() - i,
    {
        let ghost out_old = out@;
        let c = items[i].duplicate();
        out.push(c);
        proof {
            lemma_view_snoc_list(out_old, c);
            lemma_view_snoc_list(items@.subrange(0, i as int), items@[i as int]);
            assert(items@.subrange(0, i + 1) =~= items@.subrange(0, i as int).push(
                items@[i as int],
            ));
        }
        i = i + 1;
    }
    proof {
        assert(items@.subrange(0, items@.len() as int) =~= items@);
    }
    out
}

fn pairs_dup(pairs: &Vec<(Vec<char>, Value)>) -> (r: Vec<(Vec<char>, Value)>)
    ensures
        view_val_pairs(r@) == view_val_pairs(pairs@),
    decreases pairs@,
{
    let mut out: Vec<(Vec<char>, Value)> = Vec::new();
    let mut i: usize = 0;
    while i < pairs.len()
        invariant
            i <= pairs@.len(),
            out@.len() == i,
            view_val_pairs(out@) == view_val_pairs(pairs@.subrange(0, i as int)),
        decreases pairs@.len() - i,
    {
        let ghost out_old = out@;
        let k = pairs[i].0.clone();
        let v = pairs[i].1.duplicate();
        out.push((k, v));
        proof {
            assert(out@.last().0@ == pairs@[i as int].0@);
            assert(view_val(out@.last().1) == view_val(pairs@[i as int].1));
            lemma_view_snoc_pairs(out_old, out@.last());
            lemma_view_snoc_pairs(pairs@.subrange(0, i as int), pairs@[i as int]);
            assert(pairs@.subrange(0, i + 1) =~= pairs@.subrange(0, i as int).push(
                pairs@[i as int],
            ));
        }
        i = i + 1;
    }
    proof {
        assert(pairs@.subrange(0, pairs@.len() as int) =~= pairs@);
    }
    out
}

/// Look `name` up in a pair list, taking the last pair when a key repeats,
/// and hand back a copy of the stored value.
pub fn dict_lookup(pairs: &Vec<(Vec<char>, Value)>, name: &Vec<char>) -> (r: Option<Value>)
    ensures
        match r {
            Some(v) => dict_get(view_val_pairs(pairs@), name@) == Some(view_val(v)),
            None => dict_get(view_val_pairs(pairs@), name@) is None,
        },
{
    let mut i: usize = pairs.len();
    proof {
        lemma_view_val_pairs_len(pairs@);
        assert(view_val_pairs(pairs@).subrange(0, pairs@.len() as int) =~= view_val_pairs(pairs@));
        assert forall|j: int| 0 <= j < pairs@.len() implies view_val_pairs(pairs@)[j] == (
        pairs@[j].0@,
        view_val(pairs@[j].1),
        ) by {
            lemma_view_val_pairs_index(pairs@, j);
        }
    }
    while i > 0
        invariant
            i <= pairs@.len(),
            view_val_pairs(pairs@).len() == pairs@.len(),
            dict_get(view_val_pairs(pairs@), name@) == dict_get(
                view_val_pairs(pairs@).subrange(0, i as int),
                name@,
            ),
            forall|j: int|
                0 <= j < pairs@.len() ==> view_val_pairs(pairs@)[j] == (
                pairs@[j].0@,
                view_val(pairs@[j].1),
                ),
        decreases i,
    {
        i = i - 1;
        proof {
            lemma_view_val_pairs_index(pairs@, i as int);
            assert(view_val_pairs(pairs@).subrange(0, i + 1).last() == view_val_pairs(pairs@)[
                i as int
            ]);
            assert(view_val_pairs(pairs@).subrange(0, i + 1).drop_last() =~= view_val_pairs(
                pairs@,
            ).subrange(0, i as int));
        }
        if chars::eq_chars(&pairs[i].0, name) {
            return Some(pairs[i].1.duplicate());
        }
    }
    proof {
        assert(view_val_pairs(pairs@).subrange(0, 0) =~= Seq::<(Seq<char>, GVal)>::empty());
    }
    None
}

/// The decimal form of a number.
pub fn num_to_chars(n: Number) -> (r: Vec<char>)
    ensures
        r@ == chars::dec_int(number::num_int(n)),
{
    match n {
        Number::U64(u) => chars::u64_to_chars(u),
        Number::I64(x) => {
            if x >= 0 {
                chars::u64_to_chars(x as u64)
            } else {
                let mag: u64 = if x == i64::MIN {
                    0x8000_0000_0000_0000u64
                } else {
                    (-x) as u64
                };
                let digits = chars::u64_to_chars(mag);
                let mut v: Vec<char> = Vec::new();
                v.push('-');
                let mut i: usize = 0;
                while i < digits.len()
                    invariant
                        i <= digits@.len(),
                        v@ == seq!['-'] + digits@.subrange(0, i as int),
                    decreases digits@.len() - i,
                {
                    v.push(digits[i]);
                    i = i + 1;
                    proof {
                        assert(v@ =~= seq!['-'] + digits@.subrange(0, i as int));
                    }
                }
                proof {
                    assert(digits@.subrange(0, digits@.len() as int) =~= digits@);
                    assert(v@ =~= chars::dec_int(x as int));
                }
                v
            }
        },
    }
}

} // verus!
