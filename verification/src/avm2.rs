//! The second script machine: class-based objects with slots, a shared
//! operand stack, a call stack, and event dispatch.

pub mod error;
pub mod events;
pub mod object;
pub mod property;
pub mod return_value;

use crate::avm2::error::Error;
use crate::avm2::events::{Event, EventDispatch, EventView};
use crate::avm2::object::{
    ancestors_spec, class_is_type, is_of_type_spec, Class, ClassId, Object,
};
use crate::text::str_eq;
use crate::value::{values_view, ObjectId, Value, ValueView};
use vstd::prelude::*;

verus! {

/// Whether events of this name are broadcast: sent to every registered
/// object, wherever it is.
pub open spec fn is_broadcast_event(name: Seq<char>) -> bool {
    name == "enterFrame"@ || name == "exitFrame"@ || name == "frameConstructed"@
}

/// What is running: the initializer of a script, or a method.
#[derive(Copy, Clone, Debug, PartialEq, Eq, Structural)]
pub enum CallNode {
    GlobalInit,
    Method(ObjectId),
}

/// How a script is loaded from a block of compiled code.
#[derive(Copy, Clone, Debug, PartialEq, Eq, Structural)]
pub struct ScriptLoad {
    /// The index of the script in the block.
    pub index: u32,
    /// Whether its globals are set up at once.
    pub initialize: bool,
}

/// The state of the second script machine.
#[derive(Debug)]
pub struct Avm2 {
    /// The operand stack, shared by all running methods.
    pub stack: Vec<Value>,
    /// What is running, the outermost first.
    pub call_stack: Vec<CallNode>,
    /// The classes.
    pub classes: Vec<Class>,
    /// The instances.
    pub objects: Vec<Object>,
    /// The objects that receive `enterFrame`, in the order of registration.
    pub enter_frame: Vec<ObjectId>,
    /// The objects that receive `exitFrame`.
    pub exit_frame: Vec<ObjectId>,
    /// The objects that receive `frameConstructed`.
    pub frame_constructed: Vec<ObjectId>,
    /// Whether debug output is shown.
    pub debug_output: bool,
}

/// The list with the object at its end, unless the list holds it already.
pub open spec fn with_listener(list: Seq<ObjectId>, object: ObjectId) -> Seq<ObjectId> {
    if list.contains(object) {
        list
    } else {
        list.push(object)
    }
}

/// The objects of a list that are instances of a type, in their order.
pub open spec fn of_type(classes: Seq<Class>, objects: Seq<Object>, on_type: ClassId) -> spec_fn(
    ObjectId,
) -> bool {
    |o: ObjectId| is_of_type_spec(classes, objects, o, on_type)
}

fn push_unique(list: &mut Vec<ObjectId>, object: ObjectId)
    ensures
        final(list)@ == with_listener(old(list)@, object),
{
    let mut i: usize = 0;
    while i < list.len()
        invariant
            i <= list@.len(),
            *list == *old(list),
            forall|j: int| 0 <= j < i ==> list@[j] != object,
        decreases list@.len() - i,
    {
        if list[i] == object {
            return ;
        }
        i = i + 1;
    }
    list.push(object);
}

impl Avm2 {
    /// The objects registered for a broadcast event; none for any other
    /// event.
    pub open spec fn listeners(&self, event: Seq<char>) -> Seq<ObjectId> {
        if event == "enterFrame"@ {
            self.enter_frame@
        } else if event == "exitFrame"@ {
            self.exit_frame@
        } else if event == "frameConstructed"@ {
            self.frame_constructed@
        } else {
            Seq::empty()
        }
    }

    /// A new machine: nothing on its stacks, no class, no object, no
    /// listener.
    pub fn new() -> (r: Avm2)
        ensures
            r.stack@.len() == 0,
            r.call_stack@.len() == 0,
            r.classes@.len() == 0,
            r.objects@.len() == 0,
            forall|event: Seq<char>| #[trigger] r.listeners(event) == Seq::<ObjectId>::empty(),
            !r.debug_output,
    {
        let r = Avm2 {
            stack: Vec::new(),
            call_stack: Vec::new(),
            classes: Vec::new(),
            objects: Vec::new(),
            enter_frame: Vec::new(),
            exit_frame: Vec::new(),
            frame_constructed: Vec::new(),
            debug_output: false,
        };
        assert forall|event: Seq<char>| #[trigger] r.listeners(event) == Seq::<ObjectId>::empty() by {
            assert(r.listeners(event) =~= Seq::empty());
        }
        r
    }

    /// Adds a class and returns its index.
    pub fn add_class(&mut self, class: Class) -> (r: ClassId)
        ensures
            r == old(self).classes@.len(),
            final(self).classes@ == old(self).classes@.push(class),
            final(self).stack == old(self).stack,
            final(self).call_stack == old(self).call_stack,
            final(self).objects == old(self).objects,
            final(self).enter_frame == old(self).enter_frame,
            final(self).exit_frame == old(self).exit_frame,
            final(self).frame_constructed == old(self).frame_constructed,
    {
        let id: usize = self.classes.len();
        self.classes.push(class);
        id
    }

    /// Adds an instance and returns its index.
    pub fn add_object(&mut self, object: Object) -> (r: ObjectId)
        ensures
            r == old(self).objects@.len(),
            final(self).objects@ == old(self).objects@.push(object),
            final(self).stack == old(self).stack,
            final(self).call_stack == old(self).call_stack,
            final(self).classes == old(self).classes,
            final(self).enter_frame == old(self).enter_frame,
            final(self).exit_frame == old(self).exit_frame,
            final(self).frame_constructed == old(self).frame_constructed,
    {
        let id: usize = self.objects.len();
        self.objects.push(object);
        id
    }

    /// Whether an object is an instance of a type.
    pub fn is_of_type(&self, object: ObjectId, on_type: ClassId) -> (r: bool)
        ensures
            r == is_of_type_spec(self.classes@, self.objects@, object, on_type),
    {
        if object < self.objects.len() {
            match self.objects[object].class {
                Some(class) => class_is_type(&self.classes, class, on_type),
                None => false,
            }
        } else {
            false
        }
    }

    /// The ancestors of an object in the scene graph, the nearest first. A
    /// chain of parents is followed for as many links as there are objects:
    /// a longer one runs in a circle.
    pub fn ancestors(&self, object: ObjectId) -> (r: Vec<ObjectId>)
        ensures
            r@ == ancestors_spec(self.objects@, object, self.objects@.len()),
            r@.len() <= self.objects@.len(),
    {
        let mut out: Vec<ObjectId> = Vec::new();
        let mut current: ObjectId = object;
        let mut fuel: usize = self.objects.len();
        loop
            invariant
                fuel <= self.objects@.len(),
                out@.len() + fuel == self.objects@.len(),
                ancestors_spec(self.objects@, object, self.objects@.len()) == out@
                    + ancestors_spec(self.objects@, current, fuel as nat),
            decreases fuel,
        {
            if fuel == 0 || current >= self.objects.len() {
                assert(out@ + Seq::<ObjectId>::empty() =~= out@);
                return out;
            }
            match self.objects[current].parent {
                Some(parent) => {
                    if parent < self.objects.len() {
                        let ghost before = out@;
                        out.push(parent);
                        fuel = fuel - 1;
                        assert(before + (seq![parent] + ancestors_spec(
                            self.objects@,
                            parent,
                            fuel as nat,
                        )) =~= out@ + ancestors_spec(self.objects@, parent, fuel as nat));
                        current = parent;
                    } else {
                        assert(out@ + Seq::<ObjectId>::empty() =~= out@);
                        return out;
                    }
                },
                None => {
                    assert(out@ + Seq::<ObjectId>::empty() =~= out@);
                    return out;
                },
            }
        }
    }

    /// Sets up the dispatch of an event on a target: the event will visit
    /// the target and, if it bubbles, the ancestors of the target in the
    /// scene graph.
    pub fn dispatch_event(&self, event: &mut Event, target: ObjectId) -> (r: EventDispatch)
        requires
            self.objects@.len() < usize::MAX / 2,
        ensures
            r.wf(),
            r.begun() == 0,
            r.visits() == crate::avm2::events::visits_spec(
                target,
                ancestors_spec(self.objects@, target, self.objects@.len()),
                old(event)@.bubbles,
            ),
            final(event)@ == (EventView {
                target: if old(event)@.target is None {
                    Some(target)
                } else {
                    old(event)@.target
                },
                ..old(event)@
            }),
    {
        let ancestors = self.ancestors(target);
        EventDispatch::new(event, target, &ancestors)
    }

    /// The handlers of an object for an event in a phase, in the order in
    /// which they run; none for an index that refers to no object.
    pub fn handlers_of(&self, object: ObjectId, event: &str, use_capture: bool) -> (r: Vec<
        ObjectId,
    >)
        ensures
            r@ == (if object < self.objects@.len() {
                crate::avm2::events::handlers_spec(
                    self.objects@[object as int].dispatch@,
                    event@,
                    use_capture,
                )
            } else {
                Seq::empty()
            }),
    {
        if object < self.objects.len() {
            self.objects[object].dispatch.iter_event_handlers(event, use_capture)
        } else {
            Vec::new()
        }
    }

    /// Registers an object for a broadcast event. Nothing happens for an
    /// event that is not broadcast, nor for an object that is registered for
    /// the event already.
    pub fn register_broadcast_listener(&mut self, object: ObjectId, event_name: &str)
        ensures
            final(self).stack == old(self).stack,
            final(self).call_stack == old(self).call_stack,
            final(self).classes == old(self).classes,
            final(self).objects == old(self).objects,
            forall|event: Seq<char>|
                #[trigger] final(self).listeners(event) == (if event == event_name@
                    && is_broadcast_event(event) {
                    with_listener(old(self).listeners(event), object)
                } else {
                    old(self).listeners(event)
                }),
    {
        proof {
            reveal_strlit("enterFrame");
            reveal_strlit("exitFrame");
            reveal_strlit("frameConstructed");
        }
        if str_eq(event_name, "enterFrame") {
            push_unique(&mut self.enter_frame, object);
        } else if str_eq(event_name, "exitFrame") {
            push_unique(&mut self.exit_frame, object);
        } else if str_eq(event_name, "frameConstructed") {
            push_unique(&mut self.frame_constructed, object);
        }
        assert forall|event: Seq<char>| #[trigger]
            self.listeners(event) == (if event == event_name@ && is_broadcast_event(event) {
                with_listener(old(self).listeners(event), object)
            } else {
                old(self).listeners(event)
            }) by {}
    }

    /// The objects on which a broadcast of the event fires, in order: those
    /// registered for the event that are instances of `on_type`. An event
    /// that is not broadcast fires on none.
    pub fn broadcast_event(&self, event: &Event, on_type: ClassId) -> (r: Vec<ObjectId>)
        ensures
            r@ == self.listeners(event@.event_type).filter(
                of_type(self.classes@, self.objects@, on_type),
            ),
    {
        proof {
            reveal_strlit("enterFrame");
            reveal_strlit("exitFrame");
            reveal_strlit("frameConstructed");
        }
        let name = event.event_type();
        let empty: Vec<ObjectId> = Vec::new();
        let bucket: &Vec<ObjectId> = if str_eq(name, "enterFrame") {
            &self.enter_frame
        } else if str_eq(name, "exitFrame") {
            &self.exit_frame
        } else if str_eq(name, "frameConstructed") {
            &self.frame_constructed
        } else {
            &empty
        };
        assert(bucket@ == self.listeners(event@.event_type));
        let ghost keep = of_type(self.classes@, self.objects@, on_type);
        let mut out: Vec<ObjectId> = Vec::new();
        let mut i: usize = 0;
        proof {
            assert(bucket@.take(0) =~= Seq::empty());
            reveal(Seq::filter);
        }
        while i < bucket.len()
            invariant
                i <= bucket@.len(),
                keep == of_type(self.classes@, self.objects@, on_type),
                out@ == bucket@.take(i as int).filter(keep),
            decreases bucket@.len() - i,
        {
            proof {
                assert(bucket@.take(i as int + 1) =~= bucket@.take(i as int).push(bucket@[i as int]));
                bucket@.take(i as int).lemma_filter_push(bucket@[i as int], keep);
            }
            if self.is_of_type(bucket[i], on_type) {
                out.push(bucket[i]);
            }
            i = i + 1;
        }
        assert(bucket@.take(i as int) =~= bucket@);
        out
    }

    /// How the scripts of a block of compiled code are loaded: the last
    /// script first, and each with its globals set up at once unless the
    /// block asks for lazy initialization. A block that could not be read is
    /// corrupt.
    pub fn do_abc(readable: bool, num_scripts: u32, lazy_initialize: bool) -> (r: Result<
        Vec<ScriptLoad>,
        Error,
    >)
        ensures
            match r {
                Ok(loads) => readable && loads@ == Seq::new(
                    num_scripts as nat,
                    |i: int|
                        ScriptLoad {
                            index: (num_scripts - 1 - i) as u32,
                            initialize: !lazy_initialize,
                        },
                ),
                Err(e) => !readable && e == Error::CorruptAbc,
            },
    {
        if !readable {
            return Err(Error::CorruptAbc);
        }
        let mut loads: Vec<ScriptLoad> = Vec::new();
        let mut i: u32 = num_scripts;
        while i > 0
            invariant
                i <= num_scripts,
                loads@.len() == num_scripts - i,
                forall|j: int|
                    0 <= j < loads@.len() ==> loads@[j] == (ScriptLoad {
                        index: (num_scripts - 1 - j) as u32,
                        initialize: !lazy_initialize,
                    }),
            decreases i,
        {
            i = i - 1;
            loads.push(ScriptLoad { index: i, initialize: !lazy_initialize });
        }
        assert(loads@ =~= Seq::new(
            num_scripts as nat,
            |i: int|
                ScriptLoad { index: (num_scripts - 1 - i) as u32, initialize: !lazy_initialize },
        ));
        Ok(loads)
    }

    /// Records that a method begins to run.
    pub fn push_call(&mut self, calling: ObjectId)
        ensures
            final(self).call_stack@ == old(self).call_stack@.push(CallNode::Method(calling)),
            final(self).stack == old(self).stack,
    {
        self.call_stack.push(CallNode::Method(calling));
    }

    /// Records that the initializer of a script begins to run.
    pub fn push_global_init(&mut self)
        ensures
            final(self).call_stack@ == old(self).call_stack@.push(CallNode::GlobalInit),
            final(self).stack == old(self).stack,
    {
        self.call_stack.push(CallNode::GlobalInit);
    }

    /// Records that what began to run last has returned, and returns it.
    pub fn pop_call(&mut self) -> (r: Option<CallNode>)
        ensures
            final(self).stack == old(self).stack,
            old(self).call_stack@.len() > 0 ==> r == Some(old(self).call_stack@.last())
                && final(self).call_stack@ == old(self).call_stack@.drop_last(),
            old(self).call_stack@.len() == 0 ==> r is None && final(self).call_stack@ == old(self).call_stack@,
    {
        self.call_stack.pop()
    }

    /// What is running, the outermost first.
    pub fn call_stack(&self) -> (r: &Vec<CallNode>)
        ensures
            r == &self.call_stack,
    {
        &self.call_stack
    }

    /// The classes, each under its number.
    pub fn classes(&self) -> (r: &Vec<Class>)
        ensures
            r == &self.classes,
    {
        &self.classes
    }

    /// How many calls are under way.
    pub fn call_depth(&self) -> (r: usize)
        ensures
            r == self.call_stack@.len(),
    {
        self.call_stack.len()
    }

    /// Begins the run of the initializer of a script: records it on the call
    /// stack. The caller runs the initializer and then reports how it ended.
    pub fn begin_script_initializer(&mut self)
        ensures
            final(self).call_stack@ == old(self).call_stack@.push(CallNode::GlobalInit),
            final(self).stack == old(self).stack,
    {
        self.push_global_init();
    }

    /// Ends the run of the initializer of a script: takes it off the call
    /// stack, however it ended, and hands on how it ended.
    pub fn end_script_initializer(&mut self, outcome: Result<(), Error>) -> (r: Result<(), Error>)
        requires
            old(self).call_stack@.len() > 0,
        ensures
            r == outcome,
            final(self).call_stack@ == old(self).call_stack@.drop_last(),
            final(self).stack == old(self).stack,
    {
        self.pop_call();
        outcome
    }

    /// Pushes a value on the operand stack of a call that began at the stack
    /// depth `depth` and may use `max` entries. A push beyond that is
    /// dropped: the call never holds more than `max` entries.
    pub fn push(&mut self, value: Value, depth: usize, max: usize)
        ensures
            final(self).call_stack == old(self).call_stack,
            values_view(final(self).stack@) == (if old(self).stack@.len() < depth || old(self).stack@.len() - depth >= max {
                values_view(old(self).stack@)
            } else {
                values_view(old(self).stack@).push(value@)
            }),
    {
        if self.stack.len() < depth || self.stack.len() - depth >= max {
            return ;
        }
        self.stack.push(value);
        assert(values_view(self.stack@) =~= values_view(old(self).stack@).push(value@));
    }

    /// Pops the top of the operand stack of a call that began at the stack
    /// depth `depth`. Where the call has nothing on the stack, nothing is
    /// popped and the result is `Undefined`.
    pub fn pop(&mut self, depth: usize) -> (r: Value)
        ensures
            final(self).call_stack == old(self).call_stack,
            old(self).stack@.len() > depth ==> r@ == old(self).stack@.last()@ && values_view(
                final(self).stack@,
            ) == values_view(old(self).stack@).drop_last(),
            old(self).stack@.len() <= depth ==> r@ == ValueView::Undefined && final(self).stack
                == old(self).stack,
    {
        if self.stack.len() <= depth {
            return Value::Undefined;
        }
        match self.stack.pop() {
            Some(v) => {
                assert(values_view(self.stack@) =~= values_view(old(self).stack@).drop_last());
                v
            },
            None => Value::Undefined,
        }
    }

    /// The value `index` entries below the top of the operand stack, and
    /// `Undefined` where the stack is not that deep.
    pub fn peek(&self, index: usize) -> (r: Value)
        ensures
            r@ == (if index < self.stack@.len() {
                self.stack@[self.stack@.len() - 1 - index]@
            } else {
                ValueView::Undefined
            }),
    {
        if index < self.stack.len() {
            self.stack[self.stack.len() - 1 - index].duplicate()
        } else {
            Value::Undefined
        }
    }

    /// Pops the arguments of a call: `arg_count` values, of which the last
    /// pushed is the last argument. Where the stack of the call holds fewer,
    /// the leading arguments are `Undefined`.
    pub fn pop_args(&mut self, arg_count: u32, depth: usize) -> (r: Vec<Value>)
        ensures
            final(self).call_stack == old(self).call_stack,
            r@.len() == arg_count,
            ({
                let len = old(self).stack@.len() as int;
                let available = if len > depth {
                    len - depth
                } else {
                    0
                };
                let taken = if arg_count <= available {
                    arg_count as int
                } else {
                    available
                };
                &&& values_view(final(self).stack@) == values_view(old(self).stack@).take(
                    len - taken,
                )
                &&& forall|i: int|
                    0 <= i < arg_count ==> (#[trigger] r@[i])@ == (if i >= arg_count - taken {
                        old(self).stack@[len - arg_count + i]@
                    } else {
                        ValueView::Undefined
                    })
            }),
    {
        let n: usize = arg_count as usize;
        let mut args: Vec<Value> = Vec::new();
        let mut i: usize = 0;
        while i < n
            invariant
                i <= n,
                args@.len() == i,
                forall|j: int| 0 <= j < i ==> args@[j]@ == ValueView::Undefined,
            decreases n - i,
        {
            args.push(Value::Undefined);
            i = i + 1;
        }
        let ghost len = old(self).stack@.len() as int;
        let ghost available = if len > depth {
            len - depth
        } else {
            0
        };
        let mut k: usize = 0;
        assert(values_view(self.stack@).take(len) =~= values_view(self.stack@));
        while k < n
            invariant
                k <= n,
                n == arg_count,
                args@.len() == n,
                len == old(self).stack@.len(),
                available == (if len > depth {
                    len - depth
                } else {
                    0
                }),
                self.call_stack == old(self).call_stack,
                ({
                    let taken = if k <= available {
                        k as int
                    } else {
                        available
                    };
                    &&& self.stack@.len() == len - taken
                    &&& values_view(self.stack@) == values_view(old(self).stack@).take(len - taken)
                    &&& forall|j: int|
                        0 <= j < n ==> (#[trigger] args@[j])@ == (if j >= n - taken {
                            old(self).stack@[len - n + j]@
                        } else {
                            ValueView::Undefined
                        })
                }),
            decreases n - k,
        {
            let ghost before = self.stack@;
            let v = self.pop(depth);
            proof {
                if before.len() > depth {
                    assert(v@ == values_view(before).last());
                    assert(values_view(before).last() == values_view(old(self).stack@)[len - k
                        - 1]);
                }
            }
            args.set(n - 1 - k, v);
            k = k + 1;
            proof {
                let taken = if k <= available {
                    k as int
                } else {
                    available
                };
                assert(values_view(self.stack@) =~= values_view(old(self).stack@).take(len - taken));
            }
        }
        args
    }

    pub fn show_debug_output(&self) -> (r: bool)
        ensures
            r == self.debug_output,
    {
        self.debug_output
    }

    pub fn set_show_debug_output(&mut self, visible: bool)
        ensures
            final(self).debug_output == visible,
            final(self).stack == old(self).stack,
            final(self).call_stack == old(self).call_stack,
    {
        self.debug_output = visible;
    }
}

} // verus!
