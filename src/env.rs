use vstd::prelude::*;

use crate::value::{Object, Val, copy_object};

verus! {

/// The model of one frame: each name bound at most once.
pub type FrameModel = Map<Seq<char>, Val>;

/// The model of an environment: its frames, outermost first; the last one is
/// the current frame, and each frame's parent is the one before it.
pub type EnvModel = Seq<FrameModel>;

/// One binding of a frame.
#[derive(Debug, PartialEq, Eq)]
pub struct Binding {
    pub name: String,
    pub value: Object,
}

/// The mapping that a frame's bindings stand for.
pub open spec fn frame_map(s: Seq<Binding>) -> FrameModel
    decreases s.len(),
{
    if s.len() == 0 {
        Map::empty()
    } else {
        frame_map(s.drop_last()).insert(s.last().name@, s.last().value@)
    }
}

/// No name is bound twice in the frame.
pub open spec fn names_unique(s: Seq<Binding>) -> bool {
    forall|i: int, j: int|
        0 <= i < s.len() && 0 <= j < s.len() && i != j ==> #[trigger] s[i].name@ != #[trigger] s[j].name@
}

/// Looks `name` up from the current frame outwards.
pub open spec fn lookup(e: EnvModel, name: Seq<char>) -> Option<Val>
    decreases e.len(),
{
    if e.len() == 0 {
        None
    } else if e.last().contains_key(name) {
        Some(e.last()[name])
    } else {
        lookup(e.drop_last(), name)
    }
}

/// The environment after binding `name` to `v` in the current frame.
pub open spec fn bind(e: EnvModel, name: Seq<char>, v: Val) -> EnvModel {
    e.update(e.len() - 1, e.last().insert(name, v))
}

/// A chain of frames, the current (innermost) one last.
///
/// A frame is created by `extend` and discarded by `retract`; frames are
/// never copied, and a lookup always reads the live bindings.
///
/// A frame is a vector of bindings whose names are kept unique; its model
/// is the map from each name to the value bound to it.
pub struct Env {
    frames: Vec<Vec<Binding>>,
}

impl View for Env {
    type V = EnvModel;

    closed spec fn view(&self) -> EnvModel {
        Seq::new(self.frames@.len(), |i: int| frame_map(self.frames@[i]@))
    }
}

proof fn lemma_frame_absent(s: Seq<Binding>, k: Seq<char>)
    requires
        forall|i: int| 0 <= i < s.len() ==> #[trigger] s[i].name@ != k,
    ensures
        !frame_map(s).contains_key(k),
    decreases s.len(),
{
    if s.len() > 0 {
        lemma_frame_absent(s.drop_last(), k);
    }
}

proof fn lemma_frame_at(s: Seq<Binding>, i: int)
    requires
        names_unique(s),
        0 <= i < s.len(),
    ensures
        frame_map(s).contains_key(s[i].name@),
        frame_map(s)[s[i].name@] == s[i].value@,
    decreases s.len(),
{
    if i < s.len() - 1 {
        assert(s[s.len() - 1].name@ != s[i].name@);
        lemma_frame_at(s.drop_last(), i);
    }
}

proof fn lemma_frame_update(s: Seq<Binding>, i: int, b: Binding)
    requires
        names_unique(s),
        0 <= i < s.len(),
        b.name@ == s[i].name@,
    ensures
        frame_map(s.update(i, b)) == frame_map(s).insert(b.name@, b.value@),
        names_unique(s.update(i, b)),
    decreases s.len(),
{
    let t = s.update(i, b);
    if i == s.len() - 1 {
        assert(t.drop_last() == s.drop_last());
        lemma_frame_absent(s.drop_last(), b.name@);
        assert(frame_map(s).insert(b.name@, b.value@) =~= frame_map(s.drop_last()).insert(
            b.name@,
            b.value@,
        ));
    } else {
        assert(t.drop_last() == s.drop_last().update(i, b));
        lemma_frame_update(s.drop_last(), i, b);
        assert(s.last().name@ != b.name@);
        assert(frame_map(t) =~= frame_map(s).insert(b.name@, b.value@));
    }
}

impl Env {
    /// Every frame binds each name at most once, and there is a current frame.
    pub closed spec fn wf(&self) -> bool {
        &&& self.frames@.len() >= 1
        &&& forall|i: int| 0 <= i < self.frames@.len() ==> names_unique(#[trigger] self.frames@[i]@)
    }

    /// A well-formed environment always has a current frame.
    pub proof fn lemma_wf_has_frame(&self)
        requires
            self.wf(),
        ensures
            self@.len() >= 1,
    {
    }

    /// After `name` is bound to `v` in a well-formed environment, looking
    /// `name` up gives `v` from the current frame, whatever its parents hold.
    pub proof fn lemma_set_then_get(&self, name: Seq<char>, v: Val)
        requires
            self.wf(),
        ensures
            lookup(bind(self@, name, v), name) == Some(v),
            bind(self@, name, v).last() == self@.last().insert(name, v),
            bind(self@, name, v).drop_last() == self@.drop_last(),
    {
        lemma_get_after_set(self@, Seq::empty(), name, v);
        assert(bind(self@, name, v).drop_last() =~= self@.drop_last());
    }

    /// An environment of one empty frame.
    pub fn new() -> (r: Env)
        ensures
            r.wf(),
            r@ == seq![Map::<Seq<char>, Val>::empty()],
    {
        let mut frames: Vec<Vec<Binding>> = Vec::new();
        frames.push(Vec::new());
        let r = Env { frames };
        assert(r@ =~= seq![Map::<Seq<char>, Val>::empty()]);
        r
    }

    /// Opens a fresh empty frame whose parent is the current frame.
    pub fn extend(&mut self)
        requires
            old(self).wf(),
        ensures
            final(self).wf(),
            old(self)@.len() >= 1,
            final(self)@ == old(self)@.push(Map::empty()),
    {
        self.frames.push(Vec::new());
        assert(self@ =~= old(self)@.push(Map::empty()));
    }

    /// Discards the current frame; its parent becomes current.
    pub fn retract(&mut self)
        requires
            old(self).wf(),
            old(self)@.len() > 1,
        ensures
            final(self).wf(),
            final(self)@ == old(self)@.drop_last(),
    {
        self.frames.pop();
        assert(self@ =~= old(self)@.drop_last());
    }

    /// The number of frames in the chain.
    pub fn depth(&self) -> (r: usize)
        ensures
            r == self@.len(),
    {
        self.frames.len()
    }

    /// Looks `name` up in the current frame, then in each parent in turn.
    pub fn get(&self, name: &str) -> (r: Option<Object>)
        requires
            self.wf(),
        ensures
            self@.len() >= 1,
            r matches Some(v) ==> lookup(self@, name@) == Some(v@),
            r is None ==> lookup(self@, name@) is None,
    {
        let key = name.to_owned();
        let mut k: usize = self.frames.len();
        assert(self@.subrange(0, k as int) =~= self@);
        while k > 0
            invariant
                self.wf(),
                key@ == name@,
                k <= self.frames@.len(),
                lookup(self@, name@) == lookup(self@.subrange(0, k as int), name@),
            decreases k,
        {
            let frame = &self.frames[k - 1];
            let mut i: usize = 0;
            while i < frame.len()
                invariant
                    i <= frame@.len(),
                    key@ == name@,
                    self.wf(),
                    0 < k <= self.frames@.len(),
                    frame@ == self.frames@[k - 1]@,
                    lookup(self@, name@) == lookup(self@.subrange(0, k as int), name@),
                    forall|j: int| 0 <= j < i ==> #[trigger] frame@[j].name@ != name@,
                decreases frame@.len() - i,
            {
                if frame[i].name == key {
                    proof {
                        assert(names_unique(self.frames@[k - 1]@));
                        lemma_frame_at(frame@, i as int);
                        assert(self@.subrange(0, k as int).last() == frame_map(frame@));
                        assert(frame@[i as int].name@ == name@);
                        assert(lookup(self@.subrange(0, k as int), name@) == Some(
                            frame@[i as int].value@,
                        ));
                    }
                    return Some(copy_object(&frame[i].value));
                }
                i = i + 1;
            }
            proof {
                lemma_frame_absent(frame@, name@);
                assert(self@.subrange(0, k as int).drop_last() =~= self@.subrange(0, k - 1));
            }
            k = k - 1;
        }
        assert(self@.subrange(0, 0).len() == 0);
        None
    }

    /// Binds `name` to `val` in the current frame only, replacing any
    /// binding of that name there; parent frames are left as they are.
    pub fn set(&mut self, name: &str, val: Object)
        requires
            old(self).wf(),
        ensures
            final(self).wf(),
            old(self)@.len() >= 1,
            final(self)@ == bind(old(self)@, name@, val@),
            final(self)@.len() == old(self)@.len(),
    {
        let key = name.to_owned();
        let mut frame = match self.frames.pop() {
            Some(f) => f,
            None => Vec::new(),
        };
        let ghost f0 = frame@;
        let mut i: usize = 0;
        let mut found = false;
        while i < frame.len() && !found
            invariant
                frame@ == f0,
                i <= frame@.len(),
                found ==> i < frame@.len() && frame@[i as int].name@ == key@,
                !found ==> forall|j: int| 0 <= j < i ==> #[trigger] frame@[j].name@ != key@,
            decreases frame@.len() - i + (if found { 0int } else { 1int }),
        {
            if frame[i].name == key {
                found = true;
            } else {
                i = i + 1;
            }
        }
        let b = Binding { name: key, value: val };
        if found {
            proof {
                assert(names_unique(old(self).frames@[old(self).frames@.len() - 1]@));
                lemma_frame_update(f0, i as int, b);
            }
            frame.set(i, b);
        } else {
            proof {
                lemma_frame_absent(f0, b.name@);
                assert(f0.push(b).drop_last() == f0);
                assert forall|x: int, y: int|
                    0 <= x < f0.len() + 1 && 0 <= y < f0.len() + 1 && x != y implies
                    #[trigger] f0.push(b)[x].name@ != #[trigger] f0.push(b)[y].name@ by {
                    if x < f0.len() && y < f0.len() {
                        assert(names_unique(old(self).frames@[old(self).frames@.len() - 1]@));
                    }
                }
            }
            frame.push(b);
        }
        self.frames.push(frame);
        assert(self@ =~= bind(old(self)@, name@, val@));
    }
}

} // verus!
verus! {

/// After `name` is bound to `v` in the current frame, looking `name` up
/// gives `v`, found in the current frame: whatever the parent frames hold
/// is never consulted.
pub proof fn lemma_get_after_set(e: EnvModel, parents: EnvModel, name: Seq<char>, v: Val)
    requires
        e.len() >= 1,
    ensures
        lookup(bind(e, name, v), name) == Some(v),
        lookup(parents.push(bind(e, name, v).last()), name) == Some(v),
{
    let b = bind(e, name, v);
    assert(b.last() == e.last().insert(name, v));
    assert(parents.push(b.last()).last() == b.last());
}

} // verus!
