use vstd::prelude::*;

use crate::errors::TemplateError;

verus! {

/// A value a template variable can hold: the closed union of kinds.
///
/// A `Number` carries the bit pattern of an IEEE-754 double-precision value,
/// so storing and comparing numbers stays structural; the host that evaluates
/// templates converts to and from its floating-point values at the boundary.
#[derive(Debug)]
pub enum Variable {
    Text(String),
    Number(u64),
    Boolean(bool),
}

impl PartialEq for Variable {
    fn eq(&self, other: &Self) -> (r: bool) {
        match (self, other) {
            (Variable::Text(a), Variable::Text(b)) => a.eq(b),
            (Variable::Number(a), Variable::Number(b)) => a == b,
            (Variable::Boolean(a), Variable::Boolean(b)) => a == b,
            _ => false,
        }
    }
}

impl vstd::std_specs::cmp::PartialEqSpecImpl for Variable {
    open spec fn obeys_eq_spec() -> bool {
        true
    }

    open spec fn eq_spec(&self, other: &Self) -> bool {
        match (self, other) {
            (Variable::Text(a), Variable::Text(b)) => a@ == b@,
            (Variable::Number(a), Variable::Number(b)) => a == b,
            (Variable::Boolean(a), Variable::Boolean(b)) => a == b,
            _ => false,
        }
    }
}

/// The meaning of one scope frame: the mapping where, for each name, the
/// newest write wins.
pub open spec fn frame_view(f: Seq<(String, Variable)>) -> Map<Seq<char>, Variable>
    decreases f.len(),
{
    if f.len() == 0 {
        Map::empty()
    } else {
        frame_view(f.drop_last()).insert(f.last().0@, f.last().1)
    }
}

/// Innermost-to-outermost search over a stack of frames: the last frame is
/// the current (innermost) scope.
pub open spec fn spec_lookup(
    frames: Seq<Map<Seq<char>, Variable>>,
    key: Seq<char>,
) -> Option<Variable>
    decreases frames.len(),
{
    if frames.len() == 0 {
        None
    } else if frames.last().contains_key(key) {
        Some(frames.last()[key])
    } else {
        spec_lookup(frames.drop_last(), key)
    }
}

/// The last-wins lookup over a frame's stored writes, newest first.
pub open spec fn assoc(f: Seq<(String, Variable)>, key: Seq<char>) -> Option<Variable>
    decreases f.len(),
{
    if f.len() == 0 {
        None
    } else if f.last().0@ == key {
        Some(f.last().1)
    } else {
        assoc(f.drop_last(), key)
    }
}

proof fn lemma_assoc_frame_view(f: Seq<(String, Variable)>, key: Seq<char>)
    ensures
        assoc(f, key) is Some <==> frame_view(f).contains_key(key),
        assoc(f, key) matches Some(v) ==> frame_view(f)[key] == v,
    decreases f.len(),
{
    if f.len() > 0 {
        lemma_assoc_frame_view(f.drop_last(), key);
    }
}

/// Scans one frame's writes, newest first, for the first one whose name
/// equals `k`.
fn frame_get<'a>(frame: &'a Vec<(String, Variable)>, k: &String) -> (r: Option<&'a Variable>)
    ensures
        match r {
            Some(v) => frame_view(frame@).contains_key(k@) && frame_view(frame@)[k@] == *v,
            None => !frame_view(frame@).contains_key(k@),
        },
{
    let mut j = frame.len();
    proof {
        assert(frame@.subrange(0, frame@.len() as int) =~= frame@);
    }
    while j > 0
        invariant
            j <= frame@.len(),
            assoc(frame@, k@) == assoc(frame@.subrange(0, j as int), k@),
        decreases j,
    {
        j = j - 1;
        let pair = &frame[j];
        proof {
            assert(frame@.subrange(0, j + 1).last() == frame@[j as int]);
            assert(frame@.subrange(0, j + 1).drop_last() =~= frame@.subrange(0, j as int));
        }
        if pair.0.eq(k) {
            proof {
                lemma_assoc_frame_view(frame@, k@);
            }
            return Some(&pair.1);
        }
    }
    proof {
        assert(frame@.subrange(0, 0) =~= Seq::<(String, Variable)>::empty());
        lemma_assoc_frame_view(frame@, k@);
    }
    None
}

/// A stack of scope frames. A frame is stored as the history of its writes;
/// its meaning is the mapping where the newest write for a name wins. The
/// base frame (index 0) is never removed.
pub struct Context {
    variables: Vec<Vec<(String, Variable)>>,
}

impl View for Context {
    type V = Seq<Map<Seq<char>, Variable>>;

    closed spec fn view(&self) -> Seq<Map<Seq<char>, Variable>> {
        self.variables@.map_values(|f: Vec<(String, Variable)>| frame_view(f@))
    }
}

impl Context {
    /// The base frame always exists.
    pub closed spec fn wf(&self) -> bool {
        self.variables@.len() >= 1
    }

    /// A fresh context: one empty base frame.
    pub fn new() -> (r: Context)
        ensures
            r.wf(),
            r@ =~~= seq![Map::<Seq<char>, Variable>::empty()],
    {
        let mut variables: Vec<Vec<(String, Variable)>> = Vec::new();
        variables.push(Vec::new());
        Context { variables }
    }

    /// Inserts or overwrites `key` in the current (innermost) frame only.
    pub fn add(&mut self, key: &str, val: Variable)
        requires
            old(self).wf(),
        ensures
            final(self).wf(),
            final(self)@ =~~= old(self)@.update(
                old(self)@.len() - 1,
                old(self)@.last().insert(key@, val),
            ),
    {
        let n = self.variables.len();
        let ghost oldframes = self.variables@;
        let pair = (key.to_owned(), val);
        let ghost gp = pair;
        let frame = &mut self.variables[n - 1];
        frame.push(pair);
        proof {
            let f = oldframes[n - 1]@;
            assert(f.push(gp).drop_last() =~= f);
            assert(frame_view(f.push(gp)) == frame_view(f).insert(key@, gp.1));
            assert(self.variables@ == oldframes.update(n - 1, self.variables@[n - 1]));
            assert(self.variables@[n - 1]@ == f.push(gp));
        }
    }

    /// First match from the innermost frame outwards; an inner binding
    /// shadows an outer one of the same name.
    pub fn lookup(&self, key: &str) -> (r: Option<&Variable>)
        requires
            self.wf(),
        ensures
            match r {
                Some(v) => spec_lookup(self@, key@) == Some(*v),
                None => spec_lookup(self@, key@) is None,
            },
    {
        let k = key.to_owned();
        let mut i = self.variables.len();
        proof {
            assert(self@.subrange(0, self@.len() as int) =~= self@);
        }
        while i > 0
            invariant
                i <= self.variables@.len(),
                k@ == key@,
                spec_lookup(self@, key@) == spec_lookup(self@.subrange(0, i as int), key@),
            decreases i,
        {
            i = i - 1;
            let found = frame_get(&self.variables[i], &k);
            proof {
                assert(self@[i as int] == frame_view(self.variables@[i as int]@));
                assert(self@.subrange(0, i + 1).last() == self@[i as int]);
                assert(self@.subrange(0, i + 1).drop_last() =~= self@.subrange(0, i as int));
            }
            if let Some(v) = found {
                return Some(v);
            }
        }
        proof {
            assert(self@.subrange(0, 0) =~= Seq::<Map<Seq<char>, Variable>>::empty());
        }
        None
    }

    /// Opens a new empty frame; it becomes the current scope.
    pub fn push(&mut self)
        requires
            old(self).wf(),
        ensures
            final(self).wf(),
            final(self)@ =~~= old(self)@.push(Map::<Seq<char>, Variable>::empty()),
    {
        self.variables.push(Vec::new());
    }

    /// Removes the current frame; refused when only the base frame remains.
    pub fn pop(&mut self) -> (r: Result<(), TemplateError>)
        requires
            old(self).wf(),
        ensures
            final(self).wf(),
            old(self)@.len() == 1 ==> r == Err::<(), TemplateError>(TemplateError::ScopeUnderflow)
                && *final(self) == *old(self),
            old(self)@.len() > 1 ==> r == Ok::<(), TemplateError>(())
                && final(self)@ =~~= old(self)@.drop_last(),
    {
        if self.variables.len() > 1 {
            let _ = self.variables.pop();
            Ok(())
        } else {
            Err(TemplateError::ScopeUnderflow)
        }
    }
}

/// Law: after a name is bound in the current frame, a pushed frame's binding
/// of the same name shadows it, and dropping the pushed frame uncovers the
/// older binding again.
pub proof fn lemma_scope_shadowing(
    frames: Seq<Map<Seq<char>, Variable>>,
    key: Seq<char>,
    a: Variable,
    b: Variable,
)
    requires
        frames.len() >= 1,
    ensures
        ({
            let outer = frames.update(frames.len() - 1, frames.last().insert(key, a));
            let pushed = outer.push(Map::empty());
            let inner = pushed.update(pushed.len() - 1, pushed.last().insert(key, b));
            &&& spec_lookup(inner, key) == Some(b)
            &&& spec_lookup(inner.drop_last(), key) == Some(a)
        }),
{
    let outer = frames.update(frames.len() - 1, frames.last().insert(key, a));
    let pushed = outer.push(Map::empty());
    let inner = pushed.update(pushed.len() - 1, pushed.last().insert(key, b));
    assert(inner.last() == Map::empty().insert(key, b));
    assert(inner.drop_last() =~= outer);
    assert(outer.last() == frames.last().insert(key, a));
}

} // verus!
