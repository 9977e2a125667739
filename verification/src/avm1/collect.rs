//! Collection of the objects that nothing refers to any more.
//!
//! Objects refer to each other in circles (an object, its prototype, the
//! functions it holds), so no count of references tells which are still in
//! use. A collection marks every object that can be reached from the roots
//! and empties the others. An emptied object keeps its place in the heap, so
//! that the references to the living mean what they meant.

use crate::avm1::activation::ActivationView;
use crate::avm1::heap::Heap;
use crate::avm1::{Avm1, ClipCommand, FunctionView, MachineView};
use crate::avm1::scope::Scope;
use crate::value::values_view;
use crate::avm1::object::{ObjectView, ScriptObject, WatcherView};
use crate::avm1::property::{Property, PropertyView};
use crate::avm1::scope::bare_object;
use crate::value::{ObjectId, Value, ValueView};
use vstd::prelude::*;

verus! {

/// Whether a property refers to an object.
pub open spec fn property_refers(p: PropertyView, r: ObjectId) -> bool {
    match p {
        PropertyView::Stored { value, .. } => value == ValueView::Object(r),
        PropertyView::Virtual { get, set, .. } => get == r || set == Some(r),
    }
}

/// Whether a watcher refers to an object.
pub open spec fn watcher_refers(w: WatcherView, r: ObjectId) -> bool {
    w.callback == r || w.user_data == ValueView::Object(r)
}

/// Whether an object refers to another: as its prototype, in a property, or
/// in a watcher.
pub open spec fn refers(o: ObjectView, r: ObjectId) -> bool {
    ||| o.proto == Some(r)
    ||| exists|i: int|
        0 <= i < o.properties.len() && property_refers((#[trigger] o.properties[i]).property, r)
    ||| exists|i: int| 0 <= i < o.watchers.len() && watcher_refers(#[trigger] o.watchers[i], r)
}

/// Whether a sequence of objects of the heap is a path from a root: it
/// begins at a root, and each of its objects refers to the next.
pub open spec fn is_path(heap: Seq<ObjectView>, roots: Seq<ObjectId>, path: Seq<ObjectId>) -> bool {
    &&& path.len() > 0
    &&& roots.contains(path[0])
    &&& forall|i: int| 0 <= i < path.len() ==> (#[trigger] path[i]) < heap.len()
    &&& forall|i: int|
        0 <= i < path.len() - 1 ==> refers(heap[(#[trigger] path[i]) as int], path[i + 1])
}

/// Whether an object of the heap is reached from the roots: whether a path
/// from a root ends at it.
pub open spec fn reachable(heap: Seq<ObjectView>, roots: Seq<ObjectId>, o: ObjectId) -> bool {
    exists|path: Seq<ObjectId>| #[trigger] is_path(heap, roots, path) && path.last() == o
}

/// The heap after a collection: what is reached from the roots is as it
/// was, and everything else is empty.
pub open spec fn collected(heap: Seq<ObjectView>, roots: Seq<ObjectId>) -> Seq<ObjectView> {
    Seq::new(
        heap.len(),
        |i: int|
            if reachable(heap, roots, i as usize) {
                heap[i]
            } else {
                bare_object()
            },
    )
}

/// How many objects are not marked.
pub open spec fn unmarked(marks: Seq<bool>) -> nat
    decreases marks.len(),
{
    if marks.len() == 0 {
        0
    } else if marks.last() {
        unmarked(marks.drop_last())
    } else {
        unmarked(marks.drop_last()) + 1
    }
}

proof fn lemma_mark_one(marks: Seq<bool>, i: int)
    requires
        0 <= i < marks.len(),
        !marks[i],
    ensures
        unmarked(marks.update(i, true)) + 1 == unmarked(marks),
    decreases marks.len(),
{
    let after = marks.update(i, true);
    if i == marks.len() - 1 {
        assert(after.drop_last() =~= marks.drop_last());
    } else {
        assert(after.drop_last() =~= marks.drop_last().update(i, true));
        lemma_mark_one(marks.drop_last(), i);
    }
}

/// A root of the heap is reachable.
proof fn lemma_reach_root(heap: Seq<ObjectView>, roots: Seq<ObjectId>, o: ObjectId)
    requires
        o < heap.len(),
        roots.contains(o),
    ensures
        reachable(heap, roots, o),
{
    let path = seq![o];
    assert(is_path(heap, roots, path));
    assert(path.last() == o);
}

/// What a reachable object refers to is reachable.
proof fn lemma_reach_step(heap: Seq<ObjectView>, roots: Seq<ObjectId>, p: ObjectId, r: ObjectId)
    requires
        reachable(heap, roots, p),
        r < heap.len(),
        p < heap.len(),
        refers(heap[p as int], r),
    ensures
        reachable(heap, roots, r),
{
    let path = choose|path: Seq<ObjectId>| #[trigger] is_path(heap, roots, path) && path.last() == p;
    let longer = path.push(r);
    assert forall|i: int| 0 <= i < longer.len() implies (#[trigger] longer[i]) < heap.len() by {
        if i < path.len() {
            assert(longer[i] == path[i]);
        }
    }
    assert forall|i: int| 0 <= i < longer.len() - 1 implies refers(
        heap[(#[trigger] longer[i]) as int],
        longer[i + 1],
    ) by {
        assert(longer[i] == path[i]);
        if i < path.len() - 1 {
            assert(longer[i + 1] == path[i + 1]);
        }
    }
    assert(longer[0] == path[0]);
    assert(is_path(heap, roots, longer));
    assert(longer.last() == r);
}

/// A path without its last object is a path.
proof fn lemma_shorter_path(heap: Seq<ObjectView>, roots: Seq<ObjectId>, path: Seq<ObjectId>)
    requires
        is_path(heap, roots, path),
        path.len() > 1,
    ensures
        is_path(heap, roots, path.drop_last()),
        refers(heap[path.drop_last().last() as int], path.last()),
{
    let front = path.drop_last();
    assert forall|i: int| 0 <= i < front.len() implies (#[trigger] front[i]) < heap.len() by {
        assert(front[i] == path[i]);
    }
    assert forall|i: int| 0 <= i < front.len() - 1 implies refers(
        heap[(#[trigger] front[i]) as int],
        front[i + 1],
    ) by {
        assert(front[i] == path[i]);
        assert(front[i + 1] == path[i + 1]);
    }
    assert(front[0] == path[0]);
    assert(path[path.len() - 2] == front.last());
}

/// Marks that hold the roots and, with an object, all that it refers to,
/// hold everything that is reachable.
proof fn lemma_closed_marks(
    heap: Seq<ObjectView>,
    roots: Seq<ObjectId>,
    marks: Seq<bool>,
    path: Seq<ObjectId>,
)
    requires
        marks.len() == heap.len(),
        forall|i: int| 0 <= i < roots.len() && roots[i] < heap.len() ==> marks[roots[i] as int],
        forall|p: ObjectId, r: ObjectId|
            p < heap.len() && r < heap.len() && marks[p as int] && #[trigger] refers(
                heap[p as int],
                r,
            ) ==> marks[r as int],
        is_path(heap, roots, path),
    ensures
        marks[path.last() as int],
    decreases path.len(),
{
    if path.len() == 1 {
        let i = choose|i: int| 0 <= i < roots.len() && roots[i] == path[0];
        assert(path[0] < heap.len());
        assert(marks[roots[i] as int]);
    } else {
        lemma_shorter_path(heap, roots, path);
        lemma_closed_marks(heap, roots, marks, path.drop_last());
        assert(path[path.len() - 1] < heap.len());
        assert(path.drop_last()[path.len() - 2] < heap.len());
    }
}

/// The objects that an object refers to.
fn references(object: &ScriptObject) -> (r: Vec<ObjectId>)
    ensures
        forall|x: ObjectId| r@.contains(x) <==> refers(object@, x),
{
    let mut out: Vec<ObjectId> = Vec::new();
    match object.proto {
        Some(p) => {
            out.push(p);
            assert(out@[0] == p);
        },
        None => {},
    }
    let ghost view = object@;
    let mut i: usize = 0;
    while i < object.properties.len()
        invariant
            i <= object.properties@.len(),
            view == object@,
            forall|x: ObjectId|
                out@.contains(x) <==> (view.proto == Some(x) || exists|k: int|
                    0 <= k < i && property_refers((#[trigger] view.properties[k]).property, x)),
        decreases object.properties@.len() - i,
    {
        let ghost before = out@;
        assert(view.properties[i as int] == object.properties@[i as int]@);
        match &object.properties[i].property {
            Property::Stored { value, .. } => {
                match value {
                    Value::Object(o) => {
                        out.push(*o);
                    },
                    _ => {},
                }
            },
            Property::Virtual { get, set, .. } => {
                out.push(*get);
                match set {
                    Some(s) => {
                        out.push(*s);
                    },
                    None => {},
                }
            },
        }
        proof {
            assert forall|x: ObjectId|
                out@.contains(x) <==> (view.proto == Some(x) || exists|k: int|
                    0 <= k < i + 1 && property_refers(
                        (#[trigger] view.properties[k]).property,
                        x,
                    )) by {
                if out@.contains(x) {
                    let j = choose|j: int| 0 <= j < out@.len() && out@[j] == x;
                    if j < before.len() {
                        assert(before[j] == x);
                        assert(before.contains(x));
                    } else {
                        assert(property_refers(view.properties[i as int].property, x));
                    }
                }
                if before.contains(x) {
                    let j = choose|j: int| 0 <= j < before.len() && before[j] == x;
                    assert(out@[j] == x);
                }
                if property_refers(view.properties[i as int].property, x) {
                    match view.properties[i as int].property {
                        PropertyView::Stored { .. } => {
                            assert(out@[before.len() as int] == x);
                        },
                        PropertyView::Virtual { get, set, .. } => {
                            if get == x {
                                assert(out@[before.len() as int] == x);
                            } else {
                                assert(out@[before.len() as int + 1] == x);
                            }
                        },
                    }
                }
            }
        }
        i = i + 1;
    }
    let mut w: usize = 0;
    while w < object.watchers.len()
        invariant
            w <= object.watchers@.len(),
            view == object@,
            forall|x: ObjectId|
                out@.contains(x) <==> (view.proto == Some(x) || (exists|k: int|
                    0 <= k < view.properties.len() && property_refers(
                        (#[trigger] view.properties[k]).property,
                        x,
                    )) || exists|k: int| 0 <= k < w && watcher_refers(#[trigger] view.watchers[k], x)),
        decreases object.watchers@.len() - w,
    {
        let ghost before = out@;
        assert(view.watchers[w as int] == object.watchers@[w as int]@);
        out.push(object.watchers[w].callback);
        match &object.watchers[w].user_data {
            Value::Object(o) => {
                out.push(*o);
            },
            _ => {},
        }
        proof {
            assert forall|x: ObjectId|
                out@.contains(x) <==> (view.proto == Some(x) || (exists|k: int|
                    0 <= k < view.properties.len() && property_refers(
                        (#[trigger] view.properties[k]).property,
                        x,
                    )) || exists|k: int|
                    0 <= k < w + 1 && watcher_refers(#[trigger] view.watchers[k], x)) by {
                if out@.contains(x) {
                    let j = choose|j: int| 0 <= j < out@.len() && out@[j] == x;
                    if j < before.len() {
                        assert(before[j] == x);
                        assert(before.contains(x));
                    } else {
                        assert(watcher_refers(view.watchers[w as int], x));
                    }
                }
                if before.contains(x) {
                    let j = choose|j: int| 0 <= j < before.len() && before[j] == x;
                    assert(out@[j] == x);
                }
                if watcher_refers(view.watchers[w as int], x) {
                    if view.watchers[w as int].callback == x {
                        assert(out@[before.len() as int] == x);
                    } else {
                        assert(out@[before.len() as int + 1] == x);
                    }
                }
            }
        }
        w = w + 1;
    }
    out
}

/// Marks the objects that are reachable from the roots.
pub fn mark(heap: &Heap, roots: &Vec<ObjectId>) -> (marks: Vec<bool>)
    ensures
        marks@.len() == heap@.len(),
        forall|o: ObjectId|
            o < heap@.len() ==> (#[trigger] marks@[o as int] <==> reachable(heap@, roots@, o)),
{
    let n: usize = heap.objects.len();
    let mut marks: Vec<bool> = Vec::new();
    let mut k: usize = 0;
    while k < n
        invariant
            k <= n,
            marks@.len() == k,
            forall|i: int| 0 <= i < k ==> !marks@[i],
        decreases n - k,
    {
        marks.push(false);
        k = k + 1;
    }
    let mut worklist: Vec<ObjectId> = Vec::new();
    let mut i: usize = 0;
    while i < roots.len()
        invariant
            i <= roots@.len(),
            n == heap@.len(),
            marks@.len() == n,
            forall|o: ObjectId| o < n && #[trigger] marks@[o as int] ==> roots@.contains(o),
            forall|j: int| 0 <= j < i && roots@[j] < n ==> marks@[roots@[j] as int],
            forall|o: ObjectId| o < n && #[trigger] marks@[o as int] ==> worklist@.contains(o),
            forall|j: int|
                0 <= j < worklist@.len() ==> (#[trigger] worklist@[j]) < n
                    && marks@[worklist@[j] as int],
        decreases roots@.len() - i,
    {
        let r: ObjectId = roots[i];
        if r < n && !marks[r] {
            let ghost before = worklist@;
            marks.set(r, true);
            worklist.push(r);
            proof {
                assert(worklist@[before.len() as int] == r);
                assert forall|j: int| 0 <= j < worklist@.len() implies (#[trigger] worklist@[j])
                    < n && marks@[worklist@[j] as int] by {
                    if j < before.len() {
                        assert(worklist@[j] == before[j]);
                    }
                }
                assert forall|o: ObjectId| o < n && #[trigger] marks@[o as int] implies worklist@.contains(
                    o,
                ) by {
                    if o != r {
                        let j = choose|j: int| 0 <= j < before.len() && before[j] == o;
                        assert(worklist@[j] == o);
                    }
                }
            }
        }
        i = i + 1;
    }
    proof {
        assert forall|o: ObjectId| o < n && #[trigger] marks@[o as int] implies reachable(
            heap@,
            roots@,
            o,
        ) by {
            lemma_reach_root(heap@, roots@, o);
        }
    }
    loop
        invariant
            n == heap@.len(),
            marks@.len() == n,
            forall|o: ObjectId| o < n && #[trigger] marks@[o as int] ==> reachable(heap@, roots@, o),
            forall|j: int| 0 <= j < roots@.len() && roots@[j] < n ==> marks@[roots@[j] as int],
            forall|j: int|
                0 <= j < worklist@.len() ==> (#[trigger] worklist@[j]) < n
                    && marks@[worklist@[j] as int],
            forall|p: ObjectId, r: ObjectId|
                p < n && r < n && marks@[p as int] && !worklist@.contains(p) && #[trigger] refers(
                    heap@[p as int],
                    r,
                ) ==> marks@[r as int],
        decreases 2 * unmarked(marks@) + worklist@.len(),
    {
        let ghost measure = 2 * unmarked(marks@) + worklist@.len();
        let ghost waiting = worklist@;
        let p: ObjectId = match worklist.pop() {
            Some(p) => p,
            None => {
                proof {
                    assert forall|o: ObjectId| o < n && reachable(heap@, roots@, o) implies marks@[o as int] by {
                        let path = choose|path: Seq<ObjectId>|
                            #[trigger] is_path(heap@, roots@, path) && path.last() == o;
                        assert forall|p: ObjectId, r: ObjectId|
                            p < heap@.len() && r < heap@.len() && marks@[p as int]
                                && #[trigger] refers(heap@[p as int], r) implies marks@[r as int] by {
                            assert(!worklist@.contains(p));
                        }
                        lemma_closed_marks(heap@, roots@, marks@, path);
                    }
                }
                return marks;
            },
        };
        assert(waiting[waiting.len() - 1] == p);
        proof {
            assert(worklist@ =~= waiting.drop_last());
            assert(waiting =~= worklist@.take(waiting.len() - 1).push(p));
            assert forall|q: ObjectId, r: ObjectId|
                q < n && r < n && q != p && marks@[q as int] && !worklist@.contains(q)
                    && #[trigger] refers(heap@[q as int], r) implies marks@[r as int] by {
                if waiting.contains(q) {
                    let k = choose|k: int| 0 <= k < waiting.len() && waiting[k] == q;
                    assert(worklist@[k] == q);
                }
            }
        }
        let refs = references(&heap.objects[p]);
        let mut j: usize = 0;
        while j < refs.len()
            invariant
                j <= refs@.len(),
                p < n,
                n == heap@.len(),
                marks@.len() == n,
                marks@[p as int],
                waiting == worklist@.take(waiting.len() - 1).push(p),
                waiting.len() >= 1,
                worklist@.len() >= waiting.len() - 1,
                forall|x: ObjectId| refs@.contains(x) <==> refers(heap@[p as int], x),
                forall|o: ObjectId|
                    o < n && #[trigger] marks@[o as int] ==> reachable(heap@, roots@, o),
                forall|k: int| 0 <= k < roots@.len() && roots@[k] < n ==> marks@[roots@[k] as int],
                forall|k: int|
                    0 <= k < worklist@.len() ==> (#[trigger] worklist@[k]) < n
                        && marks@[worklist@[k] as int],
                forall|q: ObjectId, r: ObjectId|
                    q < n && r < n && q != p && marks@[q as int] && !worklist@.contains(q)
                        && #[trigger] refers(heap@[q as int], r) ==> marks@[r as int],
                forall|k: int| 0 <= k < j && refs@[k] < n ==> marks@[refs@[k] as int],
                2 * unmarked(marks@) + worklist@.len() < measure,
            decreases refs@.len() - j,
        {
            let r: ObjectId = refs[j];
            if r < n && !marks[r] {
                let ghost before_marks = marks@;
                let ghost before_list = worklist@;
                proof {
                    lemma_mark_one(marks@, r as int);
                    assert(refs@.contains(r));
                    lemma_reach_step(heap@, roots@, p, r);
                }
                marks.set(r, true);
                worklist.push(r);
                proof {
                    assert(worklist@.take(waiting.len() - 1) =~= before_list.take(
                        waiting.len() - 1,
                    ));
                    assert forall|q: ObjectId, x: ObjectId|
                        q < n && x < n && q != p && marks@[q as int] && !worklist@.contains(q)
                            && #[trigger] refers(heap@[q as int], x) implies marks@[x as int] by {
                        if q == r {
                            assert(worklist@[before_list.len() as int] == r);
                        } else {
                            if before_list.contains(q) {
                                let k = choose|k: int| 0 <= k < before_list.len() && before_list[k] == q;
                                assert(worklist@[k] == q);
                            }
                            assert(before_marks[x as int] || x == r);
                        }
                    }
                }
            }
            j = j + 1;
        }
        proof {
            assert forall|q: ObjectId, r: ObjectId|
                q < n && r < n && marks@[q as int] && !worklist@.contains(q) && #[trigger] refers(
                    heap@[q as int],
                    r,
                ) implies marks@[r as int] by {
                if q == p {
                    assert(refs@.contains(r));
                    let k = choose|k: int| 0 <= k < refs@.len() && refs@[k] == r;
                    assert(marks@[refs@[k] as int]);
                }
            }
        }
    }
}

/// Collects what the roots do not reach: empties every object that is not
/// reachable from them.
pub fn collect(heap: &mut Heap, roots: &Vec<ObjectId>)
    ensures
        final(heap)@ == collected(old(heap)@, roots@),
{
    let marks = mark(heap, roots);
    let mut i: usize = 0;
    while i < heap.objects.len()
        invariant
            i <= heap@.len(),
            heap@.len() == old(heap)@.len(),
            marks@.len() == heap@.len(),
            forall|o: ObjectId|
                o < heap@.len() ==> (#[trigger] marks@[o as int] <==> reachable(
                    old(heap)@,
                    roots@,
                    o,
                )),
            forall|k: int| 0 <= k < i ==> #[trigger] heap@[k] == collected(old(heap)@, roots@)[k],
            forall|k: int| i <= k < heap@.len() ==> #[trigger] heap@[k] == old(heap)@[k],
        decreases heap@.len() - i,
    {
        if !marks[i] {
            let ghost before = heap@;
            heap.objects[i] = ScriptObject::object(None);
            assert(heap@ =~= before.update(i as int, bare_object()));
        }
        assert(marks@[i as int] <==> reachable(old(heap)@, roots@, i));
        i = i + 1;
    }
    assert(heap@ =~= collected(old(heap)@, roots@));
}

/// A collection keeps whatever the roots reach: every object on a path
/// from a root is as it was, and the path is still a path.
pub proof fn lemma_collection_keeps_the_living(
    heap: Seq<ObjectView>,
    roots: Seq<ObjectId>,
    path: Seq<ObjectId>,
)
    requires
        is_path(heap, roots, path),
    ensures
        forall|i: int|
            0 <= i < path.len() ==> collected(heap, roots)[(#[trigger] path[i]) as int]
                == heap[path[i] as int],
        is_path(collected(heap, roots), roots, path),
    decreases path.len(),
{
    assert(path.last() == path[path.len() - 1]);
    assert(reachable(heap, roots, path.last()));
    if path.len() > 1 {
        lemma_shorter_path(heap, roots, path);
        lemma_collection_keeps_the_living(heap, roots, path.drop_last());
        let front = path.drop_last();
        assert forall|i: int| 0 <= i < path.len() implies collected(heap, roots)[(
        #[trigger] path[i]) as int] == heap[path[i] as int] by {
            if i < path.len() - 1 {
                assert(front[i] == path[i]);
            }
        }
    }
}


/// The object that a value refers to, if it refers to one.
pub open spec fn object_of() -> spec_fn(ValueView) -> Option<ObjectId> {
    |v: ValueView|
        match v {
            ValueView::Object(o) => Some(o),
            _ => None,
        }
}

/// The objects that the first `upto` activations hold: for each the clip
/// that its code belongs to, then what `this` is and the target clip, where
/// there are such.
pub open spec fn frame_roots(frames: Seq<ActivationView>, upto: nat) -> Seq<ObjectId>
    decreases upto,
{
    if upto == 0 {
        Seq::empty()
    } else {
        let f = frames[upto - 1];
        frame_roots(frames, (upto - 1) as nat) + seq![f.base_clip] + (match f.this {
            Some(o) => seq![o],
            None => Seq::empty(),
        }) + (match f.target_clip {
            Some(o) => seq![o],
            None => Seq::empty(),
        })
    }
}

/// The roots of a machine: the objects that the machine itself holds. These
/// are the global object and the prototypes, the objects of the scopes, the
/// objects on the operand stack, in the registers and in what was traced, the
/// objects that the activations hold, the functions that scripts defined, and
/// the clips that timeline actions were queued for. Behind them stand the
/// roots that the caller names.
pub open spec fn machine_roots(m: MachineView, extra: Seq<ObjectId>) -> Seq<ObjectId> {
    seq![m.globals, m.prototypes.object, m.prototypes.function, m.prototypes.array]
        + m.scopes.map_values(|s: Scope| s.values) + m.stack.filter_map(object_of())
        + m.registers.filter_map(object_of()) + m.trace_output.filter_map(object_of())
        + frame_roots(m.frames, m.frames.len()) + m.functions.map_values(
        |f: FunctionView| f.object,
    ) + m.commands.map_values(|c: ClipCommand| c.clip) + extra
}

/// Adds the objects that values refer to.
fn add_objects(out: &mut Vec<ObjectId>, values: &Vec<Value>)
    ensures
        final(out)@ == old(out)@ + values_view(values@).filter_map(object_of()),
{
    let ghost views = values_view(values@);
    let mut i: usize = 0;
    proof {
        assert(views.take(0) =~= Seq::empty());
        assert(out@ + views.take(0).filter_map(object_of()) =~= out@);
    }
    while i < values.len()
        invariant
            i <= values@.len(),
            views == values_view(values@),
            out@ == old(out)@ + views.take(i as int).filter_map(object_of()),
        decreases values@.len() - i,
    {
        proof {
            views.lemma_filter_map_take_succ(object_of(), i as int);
        }
        match &values[i] {
            Value::Object(o) => {
                out.push(*o);
            },
            _ => {},
        }
        assert(out@ =~= old(out)@ + views.take(i as int + 1).filter_map(object_of()));
        i = i + 1;
    }
    assert(views.take(i as int) =~= views);
}

impl Avm1 {
    /// The roots of the machine, and behind them the given ones.
    pub fn roots(&self, extra: &Vec<ObjectId>) -> (r: Vec<ObjectId>)
        ensures
            r@ == machine_roots(self@, extra@),
    {
        let mut out: Vec<ObjectId> = Vec::new();
        out.push(self.globals);
        out.push(self.prototypes.object);
        out.push(self.prototypes.function);
        out.push(self.prototypes.array);
        let ghost fixed = out@;
        let ghost m = self@;
        let mut i: usize = 0;
        while i < self.scopes.nodes.len()
            invariant
                i <= self.scopes.nodes@.len(),
                m == self@,
                out@ == fixed + m.scopes.take(i as int).map_values(|s: Scope| s.values),
            decreases self.scopes.nodes@.len() - i,
        {
            out.push(self.scopes.nodes[i].values);
            i = i + 1;
            assert(out@ =~= fixed + m.scopes.take(i as int).map_values(|s: Scope| s.values));
        }
        assert(m.scopes.take(i as int) =~= m.scopes);
        add_objects(&mut out, &self.stack);
        add_objects(&mut out, &self.registers);
        add_objects(&mut out, &self.trace_output);
        let ghost values = out@;
        let mut k: usize = 0;
        assert(out@ + frame_roots(m.frames, 0) =~= out@);
        while k < self.stack_frames.len()
            invariant
                k <= self.stack_frames@.len(),
                m == self@,
                out@ == values + frame_roots(m.frames, k as nat),
            decreases self.stack_frames@.len() - k,
        {
            let frame = &self.stack_frames[k];
            assert(m.frames[k as int] == frame@);
            out.push(frame.base_clip);
            match frame.this {
                Some(o) => {
                    out.push(o);
                },
                None => {},
            }
            match frame.target_clip {
                Some(o) => {
                    out.push(o);
                },
                None => {},
            }
            k = k + 1;
            assert(out@ =~= values + frame_roots(m.frames, k as nat));
        }
        let ghost framed = out@;
        let mut f: usize = 0;
        while f < self.functions.len()
            invariant
                f <= self.functions@.len(),
                m == self@,
                out@ == framed + m.functions.take(f as int).map_values(|f: FunctionView| f.object),
            decreases self.functions@.len() - f,
        {
            assert(m.functions[f as int] == self.functions@[f as int]@);
            out.push(self.functions[f].object);
            f = f + 1;
            assert(out@ =~= framed + m.functions.take(f as int).map_values(
                |f: FunctionView| f.object,
            ));
        }
        assert(m.functions.take(f as int) =~= m.functions);
        let ghost defined = out@;
        let mut c: usize = 0;
        while c < self.commands.len()
            invariant
                c <= self.commands@.len(),
                m == self@,
                out@ == defined + m.commands.take(c as int).map_values(|c: ClipCommand| c.clip),
            decreases self.commands@.len() - c,
        {
            out.push(self.commands[c].clip);
            c = c + 1;
            assert(out@ =~= defined + m.commands.take(c as int).map_values(
                |c: ClipCommand| c.clip,
            ));
        }
        assert(m.commands.take(c as int) =~= m.commands);
        let ghost queued = out@;
        let mut e: usize = 0;
        while e < extra.len()
            invariant
                e <= extra@.len(),
                out@ == queued + extra@.take(e as int),
            decreases extra@.len() - e,
        {
            out.push(extra[e]);
            e = e + 1;
            assert(out@ =~= queued + extra@.take(e as int));
        }
        assert(extra@.take(e as int) =~= extra@);
        assert(out@ =~= machine_roots(m, extra@));
        out
    }

    /// Collects the objects that neither the machine nor the caller holds:
    /// empties every object that is not reachable from the roots of the
    /// machine and the given ones.
    pub fn collect_garbage(&mut self, extra: &Vec<ObjectId>)
        ensures
            final(self)@ == (MachineView {
                heap: collected(old(self)@.heap, machine_roots(old(self)@, extra@)),
                ..old(self)@
            }),
    {
        let roots = self.roots(extra);
        collect(&mut self.heap, &roots);
        assert(self@ =~= (MachineView {
            heap: collected(old(self)@.heap, machine_roots(old(self)@, extra@)),
            ..old(self)@
        }));
    }
}

} // verus!
