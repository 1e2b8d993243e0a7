//! The variable-scope chain: a root context supplied by the caller, and a
//! stack of frames opened by the renderer for loop bodies, conditional
//! branches and aliases.
//!
//! Lookup walks from the innermost frame outwards and falls back to the
//! root.  A binding only ever goes into the innermost frame, so bindings
//! introduced inside a nested construct are invisible once its frame is
//! dropped.

use vstd::prelude::*;

use crate::chars;
use crate::vars::{view_val, GVal, Value};

verus! {

/// The name-to-value map a pair list stands for; a later pair with the same
/// name overrides an earlier one.
pub open spec fn pairs_map(s: Seq<(Vec<char>, Value)>) -> Map<Seq<char>, GVal>
    decreases s.len(),
{
    if s.len() == 0 {
        Map::empty()
    } else {
        pairs_map(s.drop_last()).insert(s.last().0@, view_val(s.last().1))
    }
}

/// A set of variables passed to a template render call.
#[derive(Debug)]
pub struct Context {
    vars: Vec<(Vec<char>, Value)>,
}

impl Context {
    /// The name-to-value map this context stands for.
    pub closed spec fn view(self) -> Map<Seq<char>, GVal> {
        pairs_map(self.vars@)
    }

    /// Create a new empty context.
    pub fn new() -> (r: Context)
        ensures
            r@ == Map::<Seq<char>, GVal>::empty(),
    {
        Context { vars: Vec::new() }
    }

    /// Set a variable in the context, overriding an earlier value under the
    /// same name.
    pub fn set(&mut self, name: &str, value: Value)
        ensures
            final(self)@ == old(self)@.insert(name@, view_val(value)),
    {
        let ghost orig = self.vars@;
        let n = chars::str_to_chars(name);
        let ghost gn = n@;
        let ghost gv = view_val(value);
        self.vars.push((n, value));
        proof {
            assert(self.vars@.drop_last() =~= orig);
            assert(self.vars@.last().0@ == gn);
            assert(self.vars@.last().1 == value);
        }
    }

    /// Look a name up in the context, handing back a copy of the value.
    pub fn get(&self, name: &Vec<char>) -> (r: Option<Value>)
        ensures
            match r {
                Some(v) => self@.contains_key(name@) && self@[name@] == view_val(v),
                None => !self@.contains_key(name@),
            },
    {
        lookup_pairs(&self.vars, name)
    }
}

/// Look a name up in a pair list, handing back a copy of the last value
/// stored under it.
fn lookup_pairs(pairs: &Vec<(Vec<char>, Value)>, name: &Vec<char>) -> (r: Option<Value>)
    ensures
        match r {
            Some(v) => pairs_map(pairs@).contains_key(name@) && pairs_map(pairs@)[name@]
                == view_val(v),
            None => !pairs_map(pairs@).contains_key(name@),
        },
{
    let mut i: usize = pairs.len();
    proof {
        assert(pairs@.subrange(0, pairs@.len() as int) =~= pairs@);
    }
    while i > 0
        invariant
            i <= pairs@.len(),
            pairs_map(pairs@).contains_key(name@) == pairs_map(
                pairs@.subrange(0, i as int),
            ).contains_key(name@),
            pairs_map(pairs@).contains_key(name@) ==> pairs_map(pairs@)[name@] == pairs_map(
                pairs@.subrange(0, i as int),
            )[name@],
        decreases i,
    {
        i = i - 1;
        proof {
            assert(pairs@.subrange(0, i + 1).last() == pairs@[i as int]);
            assert(pairs@.subrange(0, i + 1).drop_last() =~= pairs@.subrange(0, i as int));
        }
        if chars::eq_chars(&pairs[i].0, name) {
            return Some(pairs[i].1.duplicate());
        }
    }
    proof {
        assert(pairs@.subrange(0, 0) =~= Seq::<(Vec<char>, Value)>::empty());
        assert(!pairs_map(Seq::<(Vec<char>, Value)>::empty()).contains_key(name@));
    }
    None
}

/// The stack of scope frames opened during a render, innermost last.
pub struct Frames {
    frames: Vec<Vec<(Vec<char>, Value)>>,
}

/// The maps a frame stack stands for, innermost last.
pub open spec fn frames_maps(s: Seq<Vec<(Vec<char>, Value)>>) -> Seq<Map<Seq<char>, GVal>> {
    s.map_values(|f: Vec<(Vec<char>, Value)>| pairs_map(f@))
}

/// Look a name up in a frame stack, innermost frame first, falling back to
/// the root map.
pub open spec fn lookup_scopes(
    frames: Seq<Map<Seq<char>, GVal>>,
    root: Map<Seq<char>, GVal>,
    name: Seq<char>,
) -> Option<GVal>
    decreases frames.len(),
{
    if frames.len() == 0 {
        if root.contains_key(name) {
            Some(root[name])
        } else {
            None
        }
    } else if frames.last().contains_key(name) {
        Some(frames.last()[name])
    } else {
        lookup_scopes(frames.drop_last(), root, name)
    }
}

impl Frames {
    /// The maps this stack stands for, innermost last.
    pub closed spec fn view(self) -> Seq<Map<Seq<char>, GVal>> {
        frames_maps(self.frames@)
    }

    /// A stack of one empty frame: the top-level scope of a render call.
    pub fn root_frame() -> (r: Frames)
        ensures
            r@ =~= seq![Map::<Seq<char>, GVal>::empty()],
    {
        let mut frames: Vec<Vec<(Vec<char>, Value)>> = Vec::new();
        frames.push(Vec::new());
        Frames { frames }
    }

    /// The stack is never empty while rendering.
    pub open spec fn wf(self) -> bool {
        self@.len() > 0
    }

    /// The number of open scopes.
    pub fn depth(&self) -> (r: usize)
        ensures
            r == self@.len(),
    {
        self.frames.len()
    }

    /// Open a fresh innermost scope.
    pub fn push_scope(&mut self)
        ensures
            final(self)@ =~= old(self)@.push(Map::<Seq<char>, GVal>::empty()),
    {
        self.frames.push(Vec::new());
        proof {
            assert(final(self)@.drop_last() =~= old(self)@);
        }
    }

    /// Drop the innermost scope.
    pub fn pop_scope(&mut self)
        requires
            old(self)@.len() > 0,
        ensures
            final(self)@ =~= old(self)@.drop_last(),
    {
        let _ = self.frames.pop();
        proof {
            assert(final(self)@ =~= old(self)@.drop_last());
        }
    }

    /// Bind a name in the innermost scope.
    pub fn bind(&mut self, name: Vec<char>, value: Value)
        requires
            old(self)@.len() > 0,
        ensures
            final(self)@ =~= old(self)@.update(
                old(self)@.len() - 1,
                old(self)@.last().insert(name@, view_val(value)),
            ),
    {
        let ghost orig = self.frames@;
        let ghost gn = name@;
        let ghost gv = view_val(value);
        let frame_opt = self.frames.pop();
        let mut frame = match frame_opt {
            Some(f) => f,
            None => Vec::new(),
        };
        let ghost top_orig = frame@;
        frame.push((name, value));
        proof {
            assert(frame@.drop_last() =~= top_orig);
            assert(frame@.last().0@ == gn);
            assert(pairs_map(frame@) == pairs_map(top_orig).insert(gn, gv));
        }
        self.frames.push(frame);
        proof {
            assert(self.frames@ =~= orig.update(orig.len() - 1, frame));
            assert forall|j: int| 0 <= j < orig.len() implies final(self)@[j] == old(self)@.update(
                old(self)@.len() - 1,
                old(self)@.last().insert(gn, gv),
            )[j] by {
                assert(final(self)@[j] == pairs_map(self.frames@[j]@));
                assert(old(self)@[j] == pairs_map(orig[j]@));
            }
            assert(final(self)@ =~= old(self)@.update(
                old(self)@.len() - 1,
                old(self)@.last().insert(gn, gv),
            ));
        }
    }

    /// Look a name up, innermost scope first, falling back to the root
    /// context, handing back a copy of the value.
    pub fn get(&self, root: &Context, name: &Vec<char>) -> (r: Option<Value>)
        ensures
            match r {
                Some(v) => lookup_scopes(self@, root@, name@) == Some(view_val(v)),
                None => lookup_scopes(self@, root@, name@) is None,
            },
    {
        let mut i: usize = self.frames.len();
        proof {
            assert(self@.subrange(0, self@.len() as int) =~= self@);
        }
        while i > 0
            invariant
                i <= self.frames@.len(),
                lookup_scopes(self@, root@, name@) == lookup_scopes(
                    self@.subrange(0, i as int),
                    root@,
                    name@,
                ),
        decreases i,
        {
            i = i - 1;
            proof {
                assert(self@.subrange(0, i + 1).last() == self@[i as int]);
                assert(self@.subrange(0, i + 1).drop_last() =~= self@.subrange(0, i as int));
            }
            match lookup_pairs(&self.frames[i], name) {
                Some(v) => {
                    return Some(v);
                },
                None => {},
            }
        }
        proof {
            assert(self@.subrange(0, 0) =~= Seq::<Map<Seq<char>, GVal>>::empty());
        }
        root.get(name)
    }
}

} // verus!
