//! Scope chains.
//!
//! A scope is a node of a chain: an object that holds its variables, a
//! class, and a link to its parent. The nodes live in an arena and refer to
//! each other by index; a parent always has a smaller index than its child,
//! so that every chain ends.

use crate::avm1::error::ErrorView;
use crate::avm1::heap::{
    delete_spec, get_spec, has_property_spec, set_result, set_spec, Heap, ReturnValue, ReturnView,
};
use crate::avm1::object::{KindView, ObjectView, ScriptObject};
use crate::avm1::property::{Attributes, PropertyView};
use crate::value::{ObjectId, Value, ValueView};
use vstd::prelude::*;

verus! {

/// A reference to a scope: its index in the arena of scopes.
pub type ScopeId = usize;

/// What kind of scope a scope is.
#[derive(Copy, Clone, Debug, PartialEq, Eq, Structural)]
pub enum ScopeClass {
    /// The global scope.
    Global,
    /// The timeline scope: its object is the clip that the code runs on, and
    /// `tellTarget` replaces it.
    Target,
    /// A local scope. Closures inherit it.
    Local,
    /// An object put on the chain by `with`. Closures do not inherit it.
    With,
}

/// A node of a scope chain.
#[derive(Copy, Clone, Debug, PartialEq, Eq, Structural)]
pub struct Scope {
    pub parent: Option<ScopeId>,
    pub class: ScopeClass,
    pub values: ObjectId,
}

/// A scope without its place in a chain: its class and its object.
#[derive(Copy, Clone, Debug, PartialEq, Eq, Structural)]
pub struct Frame {
    pub class: ScopeClass,
    pub values: ObjectId,
}

/// The chain that begins at a scope, innermost first. A link to a scope that
/// is not older than the one that holds it is no link.
pub open spec fn chain(nodes: Seq<Scope>, id: ScopeId) -> Seq<Frame>
    decreases id,
{
    if id >= nodes.len() {
        Seq::empty()
    } else {
        let head = seq![Frame { class: nodes[id as int].class, values: nodes[id as int].values }];
        match nodes[id as int].parent {
            Some(p) => if p < id {
                head + chain(nodes, p)
            } else {
                head
            },
            None => head,
        }
    }
}

/// Whether a frame is inherited by closures.
pub open spec fn inherited() -> spec_fn(Frame) -> bool {
    |f: Frame| f.class != ScopeClass::With
}

/// The frames of a chain that a closure defined in it captures: all but the
/// `with` frames.
pub open spec fn closure_frames(frames: Seq<Frame>) -> Seq<Frame> {
    frames.filter(inherited())
}

/// A frame with the object of the timeline scope replaced.
pub open spec fn retarget(clip: ObjectId) -> spec_fn(Frame) -> Frame {
    |f: Frame|
        if f.class == ScopeClass::Target {
            Frame { class: ScopeClass::Target, values: clip }
        } else {
            f
        }
}

/// The frames of a chain after `tellTarget`: the object of every timeline
/// scope is the new clip, and everything else is as before.
pub open spec fn target_frames(frames: Seq<Frame>, clip: ObjectId) -> Seq<Frame> {
    frames.map_values(retarget(clip))
}

/// The first frame of a chain whose object has the property, itself or
/// through its prototypes.
pub open spec fn defining_frame(
    heap: Seq<ObjectView>,
    frames: Seq<Frame>,
    name: Seq<char>,
    case_sensitive: bool,
) -> Option<int>
    decreases frames.len(),
{
    if frames.len() == 0 {
        None
    } else if has_property_spec(heap, frames[0].values, name, case_sensitive) {
        Some(0)
    } else {
        match defining_frame(heap, frames.drop_first(), name, case_sensitive) {
            Some(i) => Some(i + 1),
            None => None,
        }
    }
}

/// What a name resolves to in a chain: the property of the first frame that
/// has it, and `Undefined` where no frame has it.
pub open spec fn resolve_spec(
    heap: Seq<ObjectView>,
    frames: Seq<Frame>,
    name: Seq<char>,
    case_sensitive: bool,
) -> Result<ReturnView, ErrorView> {
    match defining_frame(heap, frames, name, case_sensitive) {
        Some(i) => get_spec(heap, frames[i].values, name, case_sensitive),
        None => Ok(ReturnView::Immediate(ValueView::Undefined)),
    }
}

/// An empty plain object without a prototype.
pub open spec fn bare_object() -> ObjectView {
    ObjectView {
        properties: Seq::empty(),
        proto: None,
        kind: KindView::Object,
        watchers: Seq::empty(),
    }
}

/// The arena after a chain with the given frames, innermost first, was
/// built in it: the outermost scope of the chain is added first, so that
/// every scope is younger than its parent.
pub open spec fn built(nodes: Seq<Scope>, frames: Seq<Frame>) -> Seq<Scope> {
    nodes + Seq::new(
        frames.len(),
        |k: int|
            Scope {
                parent: if k == 0 {
                    None
                } else {
                    Some((nodes.len() + k - 1) as usize)
                },
                class: frames[frames.len() - 1 - k].class,
                values: frames[frames.len() - 1 - k].values,
            },
    )
}

/// The arena after a chain with the given frames was built in it, or, if
/// there are no frames, a global scope whose object is the one that is added
/// to the heap for it.
pub open spec fn grown(nodes: Seq<Scope>, frames: Seq<Frame>, heap_len: nat) -> Seq<Scope> {
    if frames.len() > 0 {
        built(nodes, frames)
    } else {
        nodes.push(Scope { parent: None, class: ScopeClass::Global, values: heap_len as usize })
    }
}

/// The innermost scope of what `grown` adds.
pub open spec fn grown_id(nodes: Seq<Scope>, frames: Seq<Frame>) -> int {
    if frames.len() > 0 {
        nodes.len() + frames.len() - 1
    } else {
        nodes.len() as int
    }
}

/// The heap after `grown`: with one more empty object if there are no
/// frames.
pub open spec fn grown_heap(heap: Seq<ObjectView>, frames: Seq<Frame>) -> Seq<ObjectView> {
    if frames.len() > 0 {
        heap
    } else {
        heap.push(bare_object())
    }
}

/// The parent of a scope, if it has one that is older than itself.
pub open spec fn parent_of(nodes: Seq<Scope>, id: ScopeId) -> Option<ScopeId> {
    if id < nodes.len() {
        match nodes[id as int].parent {
            Some(p) => if p < id {
                Some(p)
            } else {
                None
            },
            None => None,
        }
    } else {
        None
    }
}

/// The arena after the object of `with` was put between a local scope and
/// its parent: a `with` scope below the parent, and below it a local scope
/// that shares the object of the given one.
pub open spec fn with_scopes(nodes: Seq<Scope>, locals: ScopeId, with_object: ObjectId) -> Seq<
    Scope,
> {
    nodes.push(
        Scope { parent: parent_of(nodes, locals), class: ScopeClass::With, values: with_object },
    ).push(
        Scope {
            parent: Some(nodes.len() as usize),
            class: ScopeClass::Local,
            values: nodes[locals as int].values,
        },
    )
}

/// The arena of scopes.
#[derive(Debug)]
pub struct Scopes {
    pub nodes: Vec<Scope>,
}

impl View for Scopes {
    type V = Seq<Scope>;

    open spec fn view(&self) -> Seq<Scope> {
        self.nodes@
    }
}

/// A chain reads only the scopes up to the one it begins at: scopes that are
/// added later change no chain.
pub proof fn lemma_chain_stable(before: Seq<Scope>, after: Seq<Scope>, id: ScopeId)
    requires
        before.len() <= after.len(),
        forall|i: int| 0 <= i < before.len() ==> before[i] == after[i],
        id < before.len(),
    ensures
        chain(after, id) == chain(before, id),
    decreases id,
{
    match before[id as int].parent {
        Some(p) => {
            if p < id {
                lemma_chain_stable(before, after, p);
            }
        },
        None => {},
    }
}

impl Scope {
    /// The global scope: no parent, and the global object as its object.
    pub fn from_global_object(globals: ObjectId) -> (r: Scope)
        ensures
            r == (Scope { parent: None, class: ScopeClass::Global, values: globals }),
    {
        Scope { parent: None, class: ScopeClass::Global, values: globals }
    }

    /// A scope of the given class and object below a parent.
    pub fn new(parent: ScopeId, class: ScopeClass, with_object: ObjectId) -> (r: Scope)
        ensures
            r == (Scope { parent: Some(parent), class, values: with_object }),
    {
        Scope { parent: Some(parent), class, values: with_object }
    }

    /// A local scope below a parent, with a fresh empty object.
    pub fn new_local_scope(parent: ScopeId, heap: &mut Heap) -> (r: Scope)
        ensures
            r == (Scope {
                parent: Some(parent),
                class: ScopeClass::Local,
                values: old(heap)@.len() as usize,
            }),
            final(heap)@ == old(heap)@.push(bare_object()),
    {
        let values = heap.allocate(ScriptObject::object(None));
        Scope { parent: Some(parent), class: ScopeClass::Local, values }
    }

    /// The object that holds the variables of the scope.
    pub fn locals_cell(&self) -> (r: ObjectId)
        ensures
            r == self.values,
    {
        self.values
    }

    /// The variables of the scope: the object that holds them, read from
    /// the heap; none where the heap does not hold it.
    pub fn locals<'a>(&self, heap: &'a Heap) -> (r: Option<&'a ScriptObject>)
        ensures
            match r {
                Some(o) => self.values < heap@.len() && o@ == heap@[self.values as int],
                None => self.values >= heap@.len(),
            },
    {
        heap.object(self.values)
    }

    /// The class of the scope.
    pub fn class(&self) -> (r: ScopeClass)
        ensures
            r == self.class,
    {
        self.class
    }
}

impl Scopes {
    /// An empty arena.
    pub fn new() -> (r: Scopes)
        ensures
            r@ == Seq::<Scope>::empty(),
    {
        Scopes { nodes: Vec::new() }
    }

    /// Moves a scope into the arena and returns its index. No chain that
    /// existed changes.
    pub fn allocate(&mut self, scope: Scope) -> (r: ScopeId)
        ensures
            r == old(self)@.len(),
            final(self)@ == old(self)@.push(scope),
            chain(final(self)@, r) == seq![Frame { class: scope.class, values: scope.values }] + (
            match scope.parent {
                Some(p) => chain(old(self)@, p),
                None => Seq::empty(),
            }),
    {
        let id: usize = self.nodes.len();
        self.nodes.push(scope);
        proof {
            match scope.parent {
                Some(p) => {
                    if p < id {
                        lemma_chain_stable(old(self)@, self@, p);
                    }
                },
                None => {},
            }
        }
        id
    }

    /// The scope at the index.
    pub fn get(&self, id: ScopeId) -> (r: Option<Scope>)
        ensures
            r == (if id < self@.len() {
                Some(self@[id as int])
            } else {
                None
            }),
    {
        if id < self.nodes.len() {
            Some(self.nodes[id])
        } else {
            None
        }
    }

    /// The parent of a scope.
    pub fn parent(&self, id: ScopeId) -> (r: Option<ScopeId>)
        ensures
            r == parent_of(self@, id),
    {
        if id < self.nodes.len() {
            match self.nodes[id].parent {
                Some(p) => if p < id {
                    Some(p)
                } else {
                    None
                },
                None => None,
            }
        } else {
            None
        }
    }

    /// The frames of the chain that begins at a scope, innermost first.
    pub fn frames(&self, id: ScopeId) -> (r: Vec<Frame>)
        ensures
            r@ == chain(self@, id),
    {
        let mut out: Vec<Frame> = Vec::new();
        let mut current: Option<ScopeId> = if id < self.nodes.len() {
            Some(id)
        } else {
            None
        };
        loop
            invariant
                current matches Some(c) ==> c < self@.len(),
                chain(self@, id) == out@ + (match current {
                    Some(c) => chain(self@, c),
                    None => Seq::empty(),
                }),
            decreases
                    (match current {
                        Some(c) => c + 1,
                        None => 0,
                    }),
        {
            match current {
                None => {
                    assert(out@ + Seq::<Frame>::empty() =~= out@);
                    return out;
                },
                Some(c) => {
                    let node = self.nodes[c];
                    let ghost before = out@;
                    out.push(Frame { class: node.class, values: node.values });
                    let next: Option<ScopeId> = match node.parent {
                        Some(p) => if p < c {
                            Some(p)
                        } else {
                            None
                        },
                        None => None,
                    };
                    proof {
                        let rest = match next {
                            Some(p) => chain(self@, p),
                            None => Seq::empty(),
                        };
                        assert(chain(self@, c) =~= seq![
                            Frame { class: node.class, values: node.values },
                        ] + rest);
                        assert(before + chain(self@, c) =~= out@ + rest);
                    }
                    current = next;
                },
            }
        }
    }

    /// Builds a chain with the given frames, innermost first, and returns
    /// its innermost scope.
    fn build(&mut self, frames: &Vec<Frame>) -> (r: ScopeId)
        requires
            frames@.len() > 0,
        ensures
            chain(final(self)@, r) == frames@,
            final(self)@ == built(old(self)@, frames@),
            r == old(self)@.len() + frames@.len() - 1,
            old(self)@.len() <= final(self)@.len(),
            forall|i: int| 0 <= i < old(self)@.len() ==> old(self)@[i] == final(self)@[i],
    {
        let mut i: usize = frames.len();
        let mut below: Option<ScopeId> = None;
        assert(self@ =~= built(old(self)@, frames@).take(self@.len() as int));
        while i > 0
            invariant
                0 <= i <= frames@.len(),
                old(self)@.len() <= self@.len(),
                forall|k: int| 0 <= k < old(self)@.len() ==> old(self)@[k] == self@[k],
                i == frames@.len() <==> below is None,
                self@.len() == old(self)@.len() + frames@.len() - i,
                self@ == built(old(self)@, frames@).take(self@.len() as int),
                below matches Some(b) ==> b == self@.len() - 1 && chain(self@, b) == frames@.skip(
                    i as int,
                ),
            decreases i,
        {
            i = i - 1;
            let ghost before = self@;
            let id = self.allocate(
                Scope { parent: below, class: frames[i].class, values: frames[i].values },
            );
            proof {
                assert(frames@.skip(i as int) =~= seq![frames@[i as int]] + frames@.skip(
                    i as int + 1,
                ));
                assert(frames@.skip(frames@.len() as int) =~= Seq::empty());
                assert(self@ =~= built(old(self)@, frames@).take(self@.len() as int));
            }
            below = Some(id);
        }
        assert(frames@.skip(0) =~= frames@);
        assert(self@ =~= built(old(self)@, frames@));
        below.unwrap()
    }

    /// A chain of one global scope with a fresh empty object.
    fn bare_global(&mut self, heap: &mut Heap) -> (r: ScopeId)
        ensures
            chain(final(self)@, r) == seq![
                Frame { class: ScopeClass::Global, values: old(heap)@.len() as usize },
            ],
            final(heap)@ == old(heap)@.push(bare_object()),
            final(self)@ == old(self)@.push(
                Scope {
                    parent: None,
                    class: ScopeClass::Global,
                    values: old(heap)@.len() as usize,
                },
            ),
            r == old(self)@.len(),
            old(self)@.len() <= final(self)@.len(),
            forall|i: int| 0 <= i < old(self)@.len() ==> old(self)@[i] == final(self)@[i],
    {
        let values = heap.allocate(ScriptObject::object(None));
        let id = self.allocate(Scope { parent: None, class: ScopeClass::Global, values });
        assert(chain(self@, id) =~= seq![Frame { class: ScopeClass::Global, values }]);
        id
    }

    /// The scope that a function defined in the chain of `parent` closes
    /// over: a copy of the chain without its `with` scopes. If nothing is
    /// left, it is a global scope with a fresh empty object.
    pub fn new_closure_scope(&mut self, parent: ScopeId, heap: &mut Heap) -> (r: ScopeId)
        ensures
            final(self)@ == grown(
                old(self)@,
                closure_frames(chain(old(self)@, parent)),
                old(heap)@.len(),
            ),
            r == grown_id(old(self)@, closure_frames(chain(old(self)@, parent))),
            final(heap)@ == grown_heap(old(heap)@, closure_frames(chain(old(self)@, parent))),
            old(self)@.len() <= final(self)@.len(),
            forall|i: int| 0 <= i < old(self)@.len() ==> old(self)@[i] == final(self)@[i],
            closure_frames(chain(old(self)@, parent)).len() > 0 ==> chain(final(self)@, r)
                == closure_frames(chain(old(self)@, parent)) && final(heap)@ == old(heap)@,
            closure_frames(chain(old(self)@, parent)).len() == 0 ==> chain(final(self)@, r)
                == seq![Frame { class: ScopeClass::Global, values: old(heap)@.len() as usize }]
                && final(heap)@ == old(heap)@.push(bare_object()),
    {
        let frames = self.frames(parent);
        let mut kept: Vec<Frame> = Vec::new();
        let mut i: usize = 0;
        proof {
            assert(frames@.take(0) =~= Seq::empty());
            reveal(Seq::filter);
        }
        while i < frames.len()
            invariant
                i <= frames@.len(),
                kept@ == closure_frames(frames@.take(i as int)),
            decreases frames@.len() - i,
        {
            proof {
                assert(frames@.take(i as int + 1) =~= frames@.take(i as int).push(
                    frames@[i as int],
                ));
                frames@.take(i as int).lemma_filter_push(frames@[i as int], inherited());
            }
            match frames[i].class {
                ScopeClass::With => {},
                _ => {
                    kept.push(frames[i]);
                },
            }
            i = i + 1;
        }
        assert(frames@.take(i as int) =~= frames@);
        if kept.len() > 0 {
            self.build(&kept)
        } else {
            self.bare_global(heap)
        }
    }

    /// The scope for code under `tellTarget`: a copy of the chain of
    /// `parent` in which the object of every timeline scope is `clip`. If the
    /// chain is empty, it is a global scope with a fresh empty object.
    pub fn new_target_scope(&mut self, parent: ScopeId, clip: ObjectId, heap: &mut Heap) -> (r:
        ScopeId)
        ensures
            final(self)@ == grown(
                old(self)@,
                target_frames(chain(old(self)@, parent), clip),
                old(heap)@.len(),
            ),
            r == grown_id(old(self)@, target_frames(chain(old(self)@, parent), clip)),
            final(heap)@ == grown_heap(
                old(heap)@,
                target_frames(chain(old(self)@, parent), clip),
            ),
            old(self)@.len() <= final(self)@.len(),
            forall|i: int| 0 <= i < old(self)@.len() ==> old(self)@[i] == final(self)@[i],
            parent < old(self)@.len() ==> chain(final(self)@, r) == target_frames(
                chain(old(self)@, parent),
                clip,
            ) && final(heap)@ == old(heap)@,
            parent >= old(self)@.len() ==> chain(final(self)@, r) == seq![
                Frame { class: ScopeClass::Global, values: old(heap)@.len() as usize },
            ] && final(heap)@ == old(heap)@.push(bare_object()),
    {
        let frames = self.frames(parent);
        let mut moved: Vec<Frame> = Vec::new();
        let mut i: usize = 0;
        while i < frames.len()
            invariant
                i <= frames@.len(),
                moved@.len() == i,
                forall|j: int| 0 <= j < i ==> moved@[j] == retarget(clip)(frames@[j]),
            decreases frames@.len() - i,
        {
            match frames[i].class {
                ScopeClass::Target => {
                    moved.push(Frame { class: ScopeClass::Target, values: clip });
                },
                _ => {
                    moved.push(frames[i]);
                },
            }
            i = i + 1;
        }
        assert(moved@ =~= target_frames(frames@, clip));
        if moved.len() > 0 {
            self.build(&moved)
        } else {
            self.bare_global(heap)
        }
    }

    /// The scope for the body of a `with` block: the object of `with` is put
    /// between the local scope and its parent. The local scope itself is not
    /// changed; the new innermost scope shares its object.
    pub fn new_with_scope(&mut self, locals: ScopeId, with_object: ObjectId) -> (r: ScopeId)
        requires
            locals < old(self)@.len(),
        ensures
            final(self)@ == with_scopes(old(self)@, locals, with_object),
            r == old(self)@.len() + 1,
            final(self)@.len() == old(self)@.len() + 2,
            forall|i: int| 0 <= i < old(self)@.len() ==> old(self)@[i] == final(self)@[i],
            chain(final(self)@, r) == seq![
                Frame { class: ScopeClass::Local, values: old(self)@[locals as int].values },
                Frame { class: ScopeClass::With, values: with_object },
            ] + chain(old(self)@, locals).drop_first(),
    {
        let parent_scope: Option<ScopeId> = self.parent(locals);
        let local_values: ObjectId = self.nodes[locals].values;
        let with_scope = self.allocate(
            Scope { parent: parent_scope, class: ScopeClass::With, values: with_object },
        );
        let ghost mid = self@;
        let id = self.allocate(
            Scope { parent: Some(with_scope), class: ScopeClass::Local, values: local_values },
        );
        proof {
            let rest = match parent_scope {
                Some(p) => chain(old(self)@, p),
                None => Seq::empty(),
            };
            assert(chain(old(self)@, locals).drop_first() =~= rest);
            assert(chain(self@, id) =~= seq![
                Frame { class: ScopeClass::Local, values: local_values },
                Frame { class: ScopeClass::With, values: with_object },
            ] + rest);
        }
        id
    }

    /// The position in the chain of the first scope whose object has the
    /// property.
    fn defining(&self, frames: &Vec<Frame>, name: &str, heap: &Heap, case_sensitive: bool) -> (r:
        Option<usize>)
        ensures
            match r {
                Some(i) => defining_frame(heap@, frames@, name@, case_sensitive) == Some(i as int)
                    && i < frames@.len(),
                None => defining_frame(heap@, frames@, name@, case_sensitive) is None,
            },
    {
        let mut i: usize = 0;
        assert(frames@.skip(0) =~= frames@);
        while i < frames.len()
            invariant
                i <= frames@.len(),
                defining_frame(heap@, frames@, name@, case_sensitive) == (match defining_frame(
                    heap@,
                    frames@.skip(i as int),
                    name@,
                    case_sensitive,
                ) {
                    Some(k) => Some(k + i),
                    None => None,
                }),
            decreases frames@.len() - i,
        {
            proof {
                assert(frames@.skip(i as int).drop_first() =~= frames@.skip(i as int + 1));
                assert(frames@.skip(i as int)[0] == frames@[i as int]);
            }
            if heap.has_property(frames[i].values, name, case_sensitive) {
                return Some(i);
            }
            i = i + 1;
        }
        None
    }

    /// Resolves a name in the chain of a scope: reads the property from the
    /// first scope whose object has it. A name that no scope defines
    /// resolves to `Undefined`.
    pub fn resolve(&self, id: ScopeId, name: &str, heap: &Heap, case_sensitive: bool) -> (r: Result<
        ReturnValue,
        crate::avm1::error::Error,
    >)
        ensures
            crate::avm1::heap::outcome_view(r) == resolve_spec(
                heap@,
                chain(self@, id),
                name@,
                case_sensitive,
            ),
    {
        let frames = self.frames(id);
        match self.defining(&frames, name, heap, case_sensitive) {
            Some(i) => heap.get(frames[i].values, name, case_sensitive),
            None => Ok(ReturnValue::Immediate(Value::Undefined)),
        }
    }

    /// Whether a scope of the chain defines the name.
    pub fn is_defined(&self, id: ScopeId, name: &str, heap: &Heap, case_sensitive: bool) -> (r:
        bool)
        ensures
            r == defining_frame(heap@, chain(self@, id), name@, case_sensitive).is_some(),
    {
        let frames = self.frames(id);
        self.defining(&frames, name, heap, case_sensitive).is_some()
    }

    /// Assigns to a name that a scope of the chain defines: the assignment
    /// goes to the first scope whose object has the property, and what it
    /// hands back is returned on the left. If no scope defines the name,
    /// nothing changes and the value is handed back on the right, for the
    /// caller to define it.
    pub fn overwrite(
        &self,
        id: ScopeId,
        name: &str,
        value: Value,
        heap: &mut Heap,
        case_sensitive: bool,
    ) -> (r: Result<ReturnValue, Value>)
        ensures
            match defining_frame(old(heap)@, chain(self@, id), name@, case_sensitive) {
                Some(i) => {
                    &&& final(heap)@ == set_spec(
                        old(heap)@,
                        chain(self@, id)[i].values,
                        name@,
                        value@,
                        case_sensitive,
                    )
                    &&& r matches Ok(done) && done@ == set_result(
                        old(heap)@,
                        chain(self@, id)[i].values,
                        name@,
                        value@,
                        case_sensitive,
                    )
                },
                None => {
                    &&& final(heap)@ == old(heap)@
                    &&& r matches Err(back) && back@ == value@
                },
            },
    {
        let frames = self.frames(id);
        match self.defining(&frames, name, heap, case_sensitive) {
            Some(i) => Ok(heap.set(frames[i].values, name, value, case_sensitive)),
            None => Err(value),
        }
    }

    /// Defines a variable in the scope itself: stores the value in its
    /// object under exactly this name, whatever was there.
    pub fn define(&self, id: ScopeId, name: &str, value: Value, heap: &mut Heap)
        ensures
            final(heap)@ == (if id < self@.len() && self@[id as int].values < old(heap)@.len() {
                old(heap)@.update(
                    self@[id as int].values as int,
                    old(heap)@[self@[id as int].values as int].define(
                        name@,
                        PropertyView::Stored {
                            value: value@,
                            attributes: Attributes::empty_spec(),
                        },
                    ),
                )
            } else {
                old(heap)@
            }),
    {
        if id < self.nodes.len() {
            heap.define_value(self.nodes[id].values, name, value, Attributes::empty());
        }
    }

    /// Deletes a variable: removes the property from the first scope of the
    /// chain whose object has it, unless it is protected from deletion.
    /// Returns whether a property was removed.
    pub fn delete(&self, id: ScopeId, name: &str, heap: &mut Heap, case_sensitive: bool) -> (r:
        bool)
        ensures
            match defining_frame(old(heap)@, chain(self@, id), name@, case_sensitive) {
                Some(i) => final(heap)@ == delete_spec(
                    old(heap)@,
                    chain(self@, id)[i].values,
                    name@,
                    case_sensitive,
                ) && r == (chain(self@, id)[i].values < old(heap)@.len() && old(heap)@[chain(self@, id)[i].values as int].can_delete(name@, case_sensitive)),
                None => final(heap)@ == old(heap)@ && !r,
            },
    {
        let frames = self.frames(id);
        match self.defining(&frames, name, heap, case_sensitive) {
            Some(i) => heap.delete(frames[i].values, name, case_sensitive),
            None => false,
        }
    }
}

/// What `defining_frame` returns: the position of a frame that has the
/// property and before which no frame has it, or none where no frame has it.
pub proof fn lemma_defining_frame(
    heap: Seq<ObjectView>,
    frames: Seq<Frame>,
    name: Seq<char>,
    case_sensitive: bool,
)
    ensures
        match defining_frame(heap, frames, name, case_sensitive) {
            Some(i) => 0 <= i < frames.len() && has_property_spec(
                heap,
                frames[i].values,
                name,
                case_sensitive,
            ) && forall|j: int|
                0 <= j < i ==> !has_property_spec(
                    heap,
                    (#[trigger] frames[j]).values,
                    name,
                    case_sensitive,
                ),
            None => forall|j: int|
                0 <= j < frames.len() ==> !has_property_spec(
                    heap,
                    (#[trigger] frames[j]).values,
                    name,
                    case_sensitive,
                ),
        },
    decreases frames.len(),
{
    if frames.len() > 0 && !has_property_spec(heap, frames[0].values, name, case_sensitive) {
        let rest = frames.drop_first();
        lemma_defining_frame(heap, rest, name, case_sensitive);
        match defining_frame(heap, rest, name, case_sensitive) {
            Some(i) => {
                assert forall|j: int| 0 <= j < i + 1 implies !has_property_spec(
                    heap,
                    (#[trigger] frames[j]).values,
                    name,
                    case_sensitive,
                ) by {
                    if j > 0 {
                        assert(frames[j] == rest[j - 1]);
                    }
                }
            },
            None => {
                assert forall|j: int| 0 <= j < frames.len() implies !has_property_spec(
                    heap,
                    (#[trigger] frames[j]).values,
                    name,
                    case_sensitive,
                ) by {
                    if j > 0 {
                        assert(frames[j] == rest[j - 1]);
                    }
                }
            },
        }
    }
}

/// A name that only an ancestor defines is visible from its descendants: if
/// the frame at `i` has the property and no frame before it has, the name
/// resolves to the property of that frame.
pub proof fn lemma_resolve_ancestor(
    heap: Seq<ObjectView>,
    frames: Seq<Frame>,
    name: Seq<char>,
    case_sensitive: bool,
    i: int,
)
    requires
        0 <= i < frames.len(),
        has_property_spec(heap, frames[i].values, name, case_sensitive),
        forall|j: int|
            0 <= j < i ==> !has_property_spec(
                heap,
                (#[trigger] frames[j]).values,
                name,
                case_sensitive,
            ),
    ensures
        defining_frame(heap, frames, name, case_sensitive) == Some(i),
        resolve_spec(heap, frames, name, case_sensitive) == get_spec(
            heap,
            frames[i].values,
            name,
            case_sensitive,
        ),
{
    lemma_defining_frame(heap, frames, name, case_sensitive);
    match defining_frame(heap, frames, name, case_sensitive) {
        Some(k) => {
            if k < i {
                assert(!has_property_spec(heap, frames[k].values, name, case_sensitive));
            }
            if i < k {
                assert(!has_property_spec(heap, frames[i].values, name, case_sensitive));
            }
        },
        None => {
            assert(!has_property_spec(heap, frames[i].values, name, case_sensitive));
        },
    }
}

/// A closure does not see what `with` put on the chain: the frames it
/// captures hold no `with` frame, and a name that only `with` frames define
/// is undefined in them.
pub proof fn lemma_closure_hides_with(
    heap: Seq<ObjectView>,
    frames: Seq<Frame>,
    name: Seq<char>,
    case_sensitive: bool,
)
    ensures
        forall|j: int|
            0 <= j < closure_frames(frames).len() ==> (#[trigger] closure_frames(
                frames,
            )[j]).class != ScopeClass::With,
        (forall|j: int|
            0 <= j < frames.len() && has_property_spec(
                heap,
                (#[trigger] frames[j]).values,
                name,
                case_sensitive,
            ) ==> frames[j].class == ScopeClass::With) ==> defining_frame(
            heap,
            closure_frames(frames),
            name,
            case_sensitive,
        ) is None && resolve_spec(heap, closure_frames(frames), name, case_sensitive) == Ok::<
            ReturnView,
            ErrorView,
        >(ReturnView::Immediate(ValueView::Undefined)),
{
    let kept = closure_frames(frames);
    assert forall|j: int| 0 <= j < kept.len() implies (#[trigger] kept[j]).class
        != ScopeClass::With by {
        frames.lemma_filter_pred(inherited(), j);
    }
    if forall|j: int|
        0 <= j < frames.len() && has_property_spec(
            heap,
            (#[trigger] frames[j]).values,
            name,
            case_sensitive,
        ) ==> frames[j].class == ScopeClass::With {
        lemma_defining_frame(heap, kept, name, case_sensitive);
        if defining_frame(heap, kept, name, case_sensitive) is Some {
            let k = defining_frame(heap, kept, name, case_sensitive).unwrap();
            frames.lemma_filter_contains_rev(inherited(), kept[k]);
            let j = choose|j: int| 0 <= j < frames.len() && frames[j] == kept[k];
            assert(frames[j].class == ScopeClass::With);
        }
    }
}

/// While a `with` block is active, the names that its object defines are
/// visible: in the chain of the scope of the block, a name that the local
/// object does not define and the object of `with` does resolves to the
/// property of that object.
pub proof fn lemma_with_is_visible(
    heap: Seq<ObjectView>,
    locals: ObjectId,
    with_object: ObjectId,
    outer: Seq<Frame>,
    name: Seq<char>,
    case_sensitive: bool,
)
    requires
        !has_property_spec(heap, locals, name, case_sensitive),
        has_property_spec(heap, with_object, name, case_sensitive),
    ensures
        resolve_spec(
            heap,
            seq![
                Frame { class: ScopeClass::Local, values: locals },
                Frame { class: ScopeClass::With, values: with_object },
            ] + outer,
            name,
            case_sensitive,
        ) == get_spec(heap, with_object, name, case_sensitive),
{
    let frames = seq![
        Frame { class: ScopeClass::Local, values: locals },
        Frame { class: ScopeClass::With, values: with_object },
    ] + outer;
    assert forall|j: int| 0 <= j < 1 implies !has_property_spec(
        heap,
        (#[trigger] frames[j]).values,
        name,
        case_sensitive,
    ) by {}
    lemma_resolve_ancestor(heap, frames, name, case_sensitive, 1);
}

} // verus!
