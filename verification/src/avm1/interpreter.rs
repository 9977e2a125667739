//! The interpreter loop of the first script machine.
//!
//! The machine runs one action at a time on the innermost activation. What
//! an action does is stated as a function from the state of the machine to
//! its next state; the executable step computes that function.

use crate::avm1::activation::{Activation, ActivationView, WithEnd};
use crate::avm1::error::{Error, ErrorView};
use crate::avm1::read::{
    action_at, Action, ActionReader, ActionView, PushValue, PushView, ReadError,
};
use crate::avm1::array_object::{array_of, set_local_result, set_local_spec, ArrayObject};
use crate::avm1::heap::{
    delete_spec, get_spec, outcome_view, set_result, set_spec, ReturnValue, ReturnView,
};
use crate::avm1::object::{
    EntryView, KindView, ObjectKind, ObjectView, PropertyEntry, ScriptObject,
};
use crate::avm1::property::{Attributes, Property, PropertyView};
use crate::avm1::scope::{
    chain, closure_frames, defining_frame, grown, grown_heap, grown_id, resolve_spec, target_frames,
    with_scopes, Frame, Scope, ScopeClass, ScopeId,
};
use crate::avm1::coercion::{
    after_to_string, after_to_string_spec, to_string_call, to_string_step, Conversion,
    ConversionView,
};
use crate::avm1::{
    empty_object, root_error_handler, Avm1, ClipAction, ClipCommand, FunctionEntry, FunctionView, MachineView,
    MAX_CALL_DEPTH,
};
use crate::number::Number;
use crate::text::str_eq;
use crate::value::{values_view, ObjectId, Value, ValueView};
use vstd::prelude::*;
use vstd::slice::*;

verus! {

/// What stands at the position of an activation in its code.
pub enum Fetched {
    /// The code ends there: the activation returns.
    End,
    /// An action, and the position behind it.
    Action(ActionView, int),
    /// Nothing that can be read as an action.
    Invalid,
}

/// The value of a truth value: the truth value itself from version 5 on,
/// and the number 1 or 0 before.
pub open spec fn from_bool(b: bool, swf_version: u8) -> ValueView {
    if swf_version >= 5 {
        ValueView::Bool(b)
    } else if b {
        ValueView::Number(Number::of_int(1))
    } else {
        ValueView::Number(Number::of_int(0))
    }
}

/// Where a jump leads: to the position that lies `offset` bytes behind the
/// jump, and to the end of the code where that position lies outside the
/// code.
pub open spec fn jump_target(pc: int, offset: int, code_len: int) -> int {
    if 0 <= pc + offset <= code_len {
        pc + offset
    } else {
        code_len
    }
}

/// The number with the value of a binary32 number, given by its bits.
pub open spec fn widen_float(bits: u32) -> Number {
    let sign: int = bits as int / 0x8000_0000;
    let exponent: int = (bits as int / 0x80_0000) % 256;
    let fraction: int = bits as int % 0x80_0000;
    let high: int = sign * 0x8000_0000_0000_0000;
    if exponent == 255 {
        Number { bits: (high + 2047 * 0x10_0000_0000_0000 + fraction * 0x2000_0000) as u64 }
    } else if exponent == 0 {
        if fraction == 0 {
            Number { bits: high as u64 }
        } else {
            let p: int = crate::number::leading_bit(fraction as nat) as int;
            Number {
                bits: (high + (p + 874) * 0x10_0000_0000_0000 + (fraction
                    * vstd::arithmetic::power2::pow2((52 - p) as nat) - 0x10_0000_0000_0000)) as u64,
            }
        }
    } else {
        Number { bits: (high + (exponent + 896) * 0x10_0000_0000_0000 + fraction * 0x2000_0000) as u64 }
    }
}

/// The value that `Push` puts on the stack for an entry of its payload.
pub open spec fn pushed(m: MachineView, p: PushView) -> ValueView {
    match p {
        PushView::Str(s) => ValueView::String(s),
        PushView::Float(bits) => ValueView::Number(widen_float(bits)),
        PushView::Null => ValueView::Null,
        PushView::Undefined => ValueView::Undefined,
        PushView::Register(r) => m.register(r as int),
        PushView::Bool(b) => ValueView::Bool(b),
        PushView::Double(bits) => ValueView::Number(Number { bits }),
        PushView::Int(i) => ValueView::Number(Number::of_int(i as int)),
        PushView::Constant(c) => if c < m.constant_pool.len() {
            ValueView::String(m.constant_pool[c as int])
        } else {
            ValueView::Undefined
        },
    }
}

impl MachineView {
    /// The innermost activation.
    pub open spec fn frame(self) -> ActivationView {
        self.frames.last()
    }

    /// The machine with its innermost activation replaced.
    pub open spec fn with_frame(self, frame: ActivationView) -> MachineView {
        MachineView { frames: self.frames.update(self.frames.len() - 1, frame), ..self }
    }

    /// The machine with its innermost activation at another position.
    pub open spec fn at(self, pc: int) -> MachineView {
        self.with_frame(ActivationView { pc: pc as usize, ..self.frame() })
    }

    /// The code of the innermost activation; none where its reference is to
    /// no code.
    pub open spec fn code(self) -> Seq<u8> {
        if self.frame().code < self.codes.len() {
            self.codes[self.frame().code as int]
        } else {
            Seq::empty()
        }
    }

    /// The second value from the top of the operand stack.
    pub open spec fn second(self) -> ValueView {
        self.pop().top()
    }

    /// The third value from the top of the operand stack.
    pub open spec fn third(self) -> ValueView {
        self.pop().pop().top()
    }

    /// The machine behind the `with` blocks that end at or before the
    /// position of its innermost activation: the scope of each is the
    /// current one again.
    pub open spec fn leave_with_blocks(self) -> MachineView
        decreases self.frame().with_ends.len(),
    {
        let frame = self.frame();
        if self.frames.len() > 0 && frame.with_ends.len() > 0 && frame.pc
            >= frame.with_ends.last().end {
            self.with_frame(
                ActivationView {
                    scope: frame.with_ends.last().scope,
                    with_ends: frame.with_ends.drop_last(),
                    ..frame
                },
            ).leave_with_blocks()
        } else {
            self
        }
    }

    /// What stands at the position of the innermost activation.
    pub open spec fn fetch(self) -> Fetched {
        let code = self.code();
        let pc = self.frame().pc as int;
        if pc >= code.len() {
            Fetched::End
        } else {
            match action_at(code, pc) {
                Ok((Some(action), next)) => Fetched::Action(action, next),
                Ok((None, _)) => Fetched::End,
                Err(_) => Fetched::Invalid,
            }
        }
    }

    /// The machine after its innermost activation returned a value: the
    /// activation is gone, and the value is on the operand stack if the
    /// activation hands its value on.
    pub open spec fn finish(self, value: ValueView) -> MachineView {
        let rest = MachineView { frames: self.frames.drop_last(), ..self };
        if self.frame().can_return {
            rest.push(value)
        } else {
            rest
        }
    }

    /// The machine after a timeline action: the action is queued for the
    /// clip that is the target, and dropped where there is no target.
    pub open spec fn clip_command(self, action: ClipAction) -> MachineView {
        match self.frame().target_clip {
            Some(clip) => MachineView {
                commands: self.commands.push(ClipCommand { clip, action }),
                ..self
            },
            None => self,
        }
    }

    /// The machine after the first `count` entries of the payload of a
    /// `Push` were pushed.
    pub open spec fn push_all(self, values: Seq<PushView>, count: nat) -> MachineView
        decreases count,
    {
        if count == 0 {
            self
        } else {
            let before = self.push_all(values, (count - 1) as nat);
            before.push(pushed(before, values[count - 1]))
        }
    }

    /// The machine after a jump by `offset` from the position of its
    /// innermost activation.
    pub open spec fn jump(self, offset: int) -> MachineView {
        self.at(jump_target(self.frame().pc as int, offset, self.code().len() as int))
    }
}

/// The value of a truth value in a movie of the given version.
pub fn value_from_bool(b: bool, swf_version: u8) -> (r: Value)
    ensures
        r@ == from_bool(b, swf_version),
{
    if swf_version >= 5 {
        Value::Bool(b)
    } else if b {
        Value::from_i32(1)
    } else {
        Value::from_i32(0)
    }
}

/// The number with the value of a binary32 number, given by its bits.
pub fn number_from_float_bits(bits: u32) -> (r: Number)
    ensures
        r == widen_float(bits),
{
    let sign: u64 = (bits / 0x8000_0000) as u64;
    let exponent: u64 = ((bits / 0x80_0000) % 256) as u64;
    let fraction: u64 = (bits % 0x80_0000) as u64;
    let high: u64 = sign * 0x8000_0000_0000_0000;
    if exponent == 255 {
        Number { bits: high + 2047 * 0x10_0000_0000_0000 + fraction * 0x2000_0000 }
    } else if exponent == 0 {
        if fraction == 0 {
            Number { bits: high }
        } else {
            let (p, factor) = crate::number::leading_bit_and_factor(fraction);
            Number {
                bits: high + (p + 874) * 0x10_0000_0000_0000 + (fraction * factor
                    - 0x10_0000_0000_0000),
            }
        }
    } else {
        Number { bits: high + (exponent + 896) * 0x10_0000_0000_0000 + fraction * 0x2000_0000 }
    }
}

impl Avm1 {
    /// Replaces the position of the innermost activation.
    fn set_pc(&mut self, pc: usize)
        requires
            old(self)@.frames.len() > 0,
        ensures
            final(self)@ == old(self)@.at(pc as int),
    {
        let top: usize = self.stack_frames.len() - 1;
        self.stack_frames[top].pc = pc;
        assert(self@ =~= old(self)@.at(pc as int));
    }

    /// The length of the code of the innermost activation.
    fn code_len(&self) -> (r: usize)
        requires
            self@.frames.len() > 0,
        ensures
            r == self@.code().len(),
    {
        let frame = &self.stack_frames[self.stack_frames.len() - 1];
        if frame.code < self.codes.len() {
            self.codes[frame.code].len()
        } else {
            0
        }
    }

    /// Leaves the `with` blocks that end at or before the position of the
    /// innermost activation.
    fn leave_with_blocks(&mut self)
        requires
            old(self)@.frames.len() > 0,
        ensures
            final(self)@ == old(self)@.leave_with_blocks(),
            final(self)@.frames.len() == old(self)@.frames.len(),
    {
        let top: usize = self.stack_frames.len() - 1;
        loop
            invariant
                top == self@.frames.len() - 1,
                self@.frames.len() == old(self)@.frames.len(),
                self@.frames.len() > 0,
                self@.leave_with_blocks() == old(self)@.leave_with_blocks(),
            decreases self@.frame().with_ends.len(),
        {
            let n: usize = self.stack_frames[top].with_ends.len();
            if n > 0 && self.stack_frames[top].pc >= self.stack_frames[top].with_ends[n - 1].end {
                let ghost before = self@;
                let ended = self.stack_frames[top].with_ends.pop().unwrap();
                self.stack_frames[top].scope = ended.scope;
                assert(self@ =~= before.with_frame(
                    ActivationView {
                        scope: before.frame().with_ends.last().scope,
                        with_ends: before.frame().with_ends.drop_last(),
                        ..before.frame()
                    },
                ));
            } else {
                return ;
            }
        }
    }

    /// Ends the innermost activation with the value it returns.
    fn finish(&mut self, value: Value)
        requires
            old(self)@.frames.len() > 0,
        ensures
            final(self)@ == old(self)@.finish(value@),
    {
        let frame = self.stack_frames.pop().unwrap();
        if frame.can_return {
            self.stack.push(value);
        }
        assert(self@ =~= old(self)@.finish(value@));
    }

    /// Queues a timeline action for the target clip.
    fn clip_command(&mut self, action: ClipAction)
        requires
            old(self)@.frames.len() > 0,
        ensures
            final(self)@ == old(self)@.clip_command(action),
    {
        match self.stack_frames[self.stack_frames.len() - 1].target_clip {
            Some(clip) => {
                self.commands.push(ClipCommand { clip, action });
                assert(self@ =~= old(self)@.clip_command(action));
            },
            None => {},
        }
    }

    /// The value that `Push` puts on the stack for an entry of its payload.
    fn pushed(&self, p: &PushValue) -> (r: Value)
        ensures
            r@ == pushed(self@, p@),
    {
        match p {
            PushValue::Str(s) => Value::String(s.clone()),
            PushValue::Float(bits) => Value::Number(number_from_float_bits(*bits)),
            PushValue::Null => Value::Null,
            PushValue::Undefined => Value::Undefined,
            PushValue::Register(r) => self.register(*r),
            PushValue::Bool(b) => Value::Bool(*b),
            PushValue::Double(bits) => Value::Number(Number::from_bits(*bits)),
            PushValue::Int(i) => Value::from_i32(*i),
            PushValue::Constant(c) => {
                let index: usize = *c as usize;
                if index < self.constant_pool.len() {
                    Value::String(self.constant_pool[index].clone())
                } else {
                    Value::Undefined
                }
            },
        }
    }

    /// `Push`: pushes the entries of the payload, the first first.
    fn action_push(&mut self, values: &Vec<PushValue>)
        ensures
            final(self)@ == old(self)@.push_all(
                crate::avm1::read::push_views(values@),
                values@.len(),
            ),
    {
        let mut i: usize = 0;
        while i < values.len()
            invariant
                i <= values@.len(),
                self@ == old(self)@.push_all(crate::avm1::read::push_views(values@), i as nat),
            decreases values@.len() - i,
        {
            let v = self.pushed(&values[i]);
            self.push(v);
            i = i + 1;
        }
    }

    /// Jumps by `offset` from the position of the innermost activation.
    fn jump(&mut self, offset: i16)
        requires
            old(self)@.frames.len() > 0,
        ensures
            final(self)@ == old(self)@.jump(offset as int),
    {
        let len: usize = self.code_len();
        let pc: usize = self.stack_frames[self.stack_frames.len() - 1].pc;
        let target: usize = if offset >= 0 {
            let forward: usize = offset as usize;
            if pc <= len && forward <= len - pc {
                pc + forward
            } else {
                len
            }
        } else {
            let back: usize = (-(offset as i32)) as usize;
            if back <= pc && pc - back <= len {
                pc - back
            } else {
                len
            }
        };
        self.set_pc(target);
    }
}


/// The state of the machine after a step, and the error that ended the step
/// if one did.
pub struct Next {
    pub machine: MachineView,
    pub error: Option<ErrorView>,
}

/// The error of an outcome.
pub open spec fn error_of(r: Result<(), Error>) -> Option<ErrorView> {
    match r {
        Ok(_) => None,
        Err(e) => Some(e@),
    }
}

/// The position of the function that an object is, in the table of
/// functions: the last entry for the object.
pub open spec fn function_of(functions: Seq<FunctionView>, object: ObjectId) -> Option<int>
    decreases functions.len(),
{
    if functions.len() == 0 {
        None
    } else if functions.last().object == object {
        Some(functions.len() - 1)
    } else {
        function_of(functions.drop_last(), object)
    }
}

/// The object that holds the first `count` parameters of a call: each
/// parameter is a variable with the argument at its position as its value,
/// and `Undefined` where the call has no argument there.
pub open spec fn bind_params(
    params: Seq<Seq<char>>,
    args: Seq<ValueView>,
    count: nat,
) -> ObjectView
    decreases count,
{
    if count == 0 {
        empty_object(None)
    } else {
        bind_params(params, args, (count - 1) as nat).define(
            params[count - 1],
            PropertyView::Stored {
                value: if count - 1 < args.len() {
                    args[count - 1]
                } else {
                    ValueView::Undefined
                },
                attributes: Attributes::empty_spec(),
            },
        )
    }
}

/// A function that scripts defined, as an object: a function that holds
/// under `prototype` the prototype of the objects it constructs.
pub open spec fn function_object(fn_proto: ObjectId, prototype: ObjectId) -> ObjectView {
    ObjectView {
        properties: seq![
            EntryView {
                name: "prototype"@,
                property: PropertyView::Stored {
                    value: ValueView::Object(prototype),
                    attributes: Attributes { dont_enum: true, dont_delete: true, read_only: false },
                },
            },
        ],
        proto: Some(fn_proto),
        kind: KindView::Function,
        watchers: Seq::empty(),
    }
}

/// Where a block of `length` bytes that begins at `pc` ends: behind its
/// bytes, and at the end of the code where the code ends before that.
pub open spec fn block_end(pc: int, length: int, code_len: int) -> int {
    if pc + length <= code_len {
        pc + length
    } else if pc <= code_len {
        code_len
    } else {
        pc
    }
}

/// The position behind the next `count` actions. An action that cannot be
/// read is not skipped, nor is anything behind it.
pub open spec fn skipped(code: Seq<u8>, pc: int, count: nat) -> int
    decreases count,
{
    if count == 0 {
        pc
    } else {
        match action_at(code, pc) {
            Ok((_, next)) => skipped(code, next, (count - 1) as nat),
            Err(_) => pc,
        }
    }
}

/// The name of the type of a value, as `typeof` reports it.
pub open spec fn type_of(heap: Seq<ObjectView>, v: ValueView) -> Seq<char> {
    match v {
        ValueView::Object(o) => if o < heap.len() {
            heap[o as int].type_of()
        } else {
            "object"@
        },
        _ => v.primitive_type_name(),
    }
}

/// How many values a count that was popped from the stack stands for: not
/// less than none, and not more than the stack holds.
pub open spec fn clamp_count(count: int, available: int) -> int {
    if count < 0 {
        0
    } else if count > available {
        available
    } else {
        count
    }
}

impl MachineView {
    /// The frames of the scope chain of the innermost activation.
    pub open spec fn scope_frames(self) -> Seq<Frame> {
        chain(self.scopes, self.frame().scope)
    }

    /// Whether names are matched with regard to case in the innermost
    /// activation.
    pub open spec fn exact_names(self) -> bool {
        self.frame().swf_version > 6
    }

    /// The top `count` values of the operand stack, the topmost first.
    pub open spec fn top_values(self, count: int) -> Seq<ValueView> {
        Seq::new(count as nat, |i: int| self.stack[self.stack.len() - 1 - i])
    }

    /// The machine without the top `count` values of its operand stack.
    pub open spec fn drop_values(self, count: int) -> MachineView {
        MachineView { stack: self.stack.take(self.stack.len() - count), ..self }
    }

    /// The machine after a call of a function: a function that scripts
    /// defined gets an activation with a fresh local scope that holds its
    /// parameters; anything else is no function that can run here, and its
    /// result is `Undefined`. A call beyond the depth that the machine
    /// allows is an error.
    pub open spec fn call(
        self,
        function: ObjectId,
        this: Option<ObjectId>,
        args: Seq<ValueView>,
        can_return: bool,
    ) -> Next {
        match function_of(self.functions, function) {
            None => Next {
                machine: if can_return {
                    self.push(ValueView::Undefined)
                } else {
                    self
                },
                error: None,
            },
            Some(i) => if self.frames.len() >= MAX_CALL_DEPTH {
                Next { machine: self, error: Some(ErrorView::FunctionRecursionLimit) }
            } else {
                let f = self.functions[i];
                Next {
                    machine: MachineView {
                        heap: self.heap.push(bind_params(f.params, args, f.params.len())),
                        scopes: self.scopes.push(
                            Scope {
                                parent: Some(f.scope),
                                class: ScopeClass::Local,
                                values: self.heap.len() as usize,
                            },
                        ),
                        frames: self.frames.push(
                            ActivationView {
                                swf_version: self.frame().swf_version,
                                code: f.code,
                                pc: 0,
                                scope: self.scopes.len() as usize,
                                this,
                                base_clip: self.frame().base_clip,
                                target_clip: self.frame().target_clip,
                                can_return,
                                with_ends: Seq::empty(),
                            },
                        ),
                        ..self
                    },
                    error: None,
                }
            },
        }
    }

    /// The machine after a property was read: the value is on the stack, or
    /// the getter was called, or the error of the read is the error of the
    /// step.
    pub open spec fn deliver(self, r: Result<ReturnView, ErrorView>) -> Next {
        match r {
            Ok(ReturnView::Immediate(v)) => Next { machine: self.push(v), error: None },
            Ok(ReturnView::Deferred { function, this, args }) => self.call(
                function,
                Some(this),
                args,
                true,
            ),
            Err(e) => Next { machine: self, error: Some(e) },
        }
    }

    /// The machine after a property was assigned: where the assignment
    /// handed back a setter or a watcher, that was called.
    pub open spec fn settle(self, r: ReturnView) -> Next {
        match r {
            ReturnView::Immediate(_) => Next { machine: self, error: None },
            ReturnView::Deferred { function, this, args } => self.call(
                function,
                Some(this),
                args,
                false,
            ),
        }
    }

    /// `GetVariable`: the name is popped, and what it resolves to in the
    /// scope chain is pushed.
    pub open spec fn get_variable(self) -> Next {
        let rest = self.pop();
        match self.top().to_text() {
            Some(name) => if name == "this"@ {
                Next { machine: rest.push(self.this_value()), error: None }
            } else {
                rest.deliver(resolve_spec(rest.heap, self.scope_frames(), name, self.exact_names()))
            },
            None => Next { machine: rest.push(ValueView::Undefined), error: None },
        }
    }

    /// What `this` is in the innermost activation: the object that the code
    /// runs on, and `Undefined` where it runs on none.
    pub open spec fn this_value(self) -> ValueView {
        match self.frame().this {
            Some(o) => ValueView::Object(o),
            None => ValueView::Undefined,
        }
    }

    /// `CallMethod`: the name of the method, the object, the count of the
    /// arguments and the arguments are popped, and the function that the
    /// object has under the name is called on the object. Under the empty
    /// name the object itself is called.
    pub open spec fn call_method(self) -> Next {
        let rest = self.pop().pop().pop();
        let count = clamp_count(self.third().to_i32(), rest.stack.len() as int);
        let args = rest.top_values(count);
        let after = rest.drop_values(count);
        match (self.second(), self.top().to_text()) {
            (ValueView::Object(o), Some(name)) => if name.len() == 0 {
                after.call(o, None, args, true)
            } else {
                match get_spec(after.heap, o, name, self.exact_names()) {
                    Ok(ReturnView::Immediate(ValueView::Object(f))) => after.call(
                        f,
                        Some(o),
                        args,
                        true,
                    ),
                    Err(e) => Next { machine: after, error: Some(e) },
                    _ => Next { machine: after.push(ValueView::Undefined), error: None },
                }
            },
            _ => Next { machine: after.push(ValueView::Undefined), error: None },
        }
    }

    /// The prototype of the objects that a function constructs: the object
    /// that the function holds under `prototype`, and the prototype of plain
    /// objects where it holds none.
    pub open spec fn constructed_proto(self, function: ObjectId) -> ObjectId {
        if function < self.heap.len() {
            match self.heap[function as int].data("prototype"@) {
                ValueView::Object(p) => p,
                _ => self.prototypes.object,
            }
        } else {
            self.prototypes.object
        }
    }

    /// `NewObject`: the name of the constructor, the count of the arguments
    /// and the arguments are popped. A new object is made, with the
    /// `prototype` of the constructor as its prototype, and pushed; then the
    /// constructor is called on it. What is pushed where the name resolves to
    /// no object is `Undefined`.
    pub open spec fn new_object(self) -> Next {
        let rest = self.pop().pop();
        let count = clamp_count(self.second().to_i32(), rest.stack.len() as int);
        let args = rest.top_values(count);
        let after = rest.drop_values(count);
        match self.top().to_text() {
            Some(name) => match resolve_spec(
                after.heap,
                self.scope_frames(),
                name,
                self.exact_names(),
            ) {
                Ok(ReturnView::Immediate(ValueView::Object(f))) => (MachineView {
                    heap: after.heap.push(empty_object(Some(after.constructed_proto(f)))),
                    ..after
                }).push(ValueView::Object(after.heap.len() as usize)).call(
                    f,
                    Some(after.heap.len() as usize),
                    args,
                    false,
                ),
                Err(e) => Next { machine: after, error: Some(e) },
                _ => Next { machine: after.push(ValueView::Undefined), error: None },
            },
            None => Next { machine: after.push(ValueView::Undefined), error: None },
        }
    }

    /// The machine after a variable was defined in the innermost scope.
    pub open spec fn define_local(self, name: Seq<char>, value: ValueView) -> MachineView {
        let scope = self.frame().scope;
        if scope < self.scopes.len() && self.scopes[scope as int].values < self.heap.len() {
            let values = self.scopes[scope as int].values as int;
            MachineView {
                heap: self.heap.update(
                    values,
                    self.heap[values].define(
                        name,
                        PropertyView::Stored { value, attributes: Attributes::empty_spec() },
                    ),
                ),
                ..self
            }
        } else {
            self
        }
    }

    /// `SetVariable`: the value and the name are popped. The value is
    /// assigned in the first scope of the chain that defines the name; if
    /// none does, the name is defined in the innermost scope.
    pub open spec fn set_variable(self) -> Next {
        let value = self.top();
        let rest = self.pop().pop();
        match self.second().to_text() {
            Some(name) => match defining_frame(
                rest.heap,
                self.scope_frames(),
                name,
                self.exact_names(),
            ) {
                Some(i) => {
                    let holder = self.scope_frames()[i].values;
                    (MachineView {
                        heap: set_spec(rest.heap, holder, name, value, self.exact_names()),
                        ..rest
                    }).settle(set_result(rest.heap, holder, name, value, self.exact_names()))
                },
                None => Next { machine: rest.define_local(name, value), error: None },
            },
            None => Next { machine: rest, error: None },
        }
    }

    /// `DefineLocal`: the value and the name are popped, and the name is
    /// defined in the innermost scope.
    pub open spec fn action_define_local(self) -> MachineView {
        let rest = self.pop().pop();
        match self.second().to_text() {
            Some(name) => rest.define_local(name, self.top()),
            None => rest,
        }
    }

    /// `DefineLocal2`: the name is popped, and defined in the innermost
    /// scope as `Undefined` unless the object of that scope has it already.
    pub open spec fn action_define_local2(self) -> MachineView {
        let rest = self.pop();
        let scope = self.frame().scope;
        match self.top().to_text() {
            Some(name) => if scope < rest.scopes.len() && rest.scopes[scope as int].values
                < rest.heap.len() && rest.heap[rest.scopes[scope as int].values as int].own(
                name,
                self.exact_names(),
            ) is Some {
                rest
            } else {
                rest.define_local(name, ValueView::Undefined)
            },
            None => rest,
        }
    }

    /// `Delete2`: the name is popped, the variable is deleted in the first
    /// scope of the chain that defines it, and whether a variable was
    /// removed is pushed.
    pub open spec fn action_delete2(self) -> MachineView {
        let rest = self.pop();
        let version = self.frame().swf_version;
        match self.top().to_text() {
            Some(name) => match defining_frame(
                rest.heap,
                self.scope_frames(),
                name,
                self.exact_names(),
            ) {
                Some(i) => {
                    let holder = self.scope_frames()[i].values;
                    (MachineView {
                        heap: delete_spec(rest.heap, holder, name, self.exact_names()),
                        ..rest
                    }).push(
                        from_bool(
                            holder < rest.heap.len() && rest.heap[holder as int].can_delete(
                                name,
                                self.exact_names(),
                            ),
                            version,
                        ),
                    )
                },
                None => rest.push(from_bool(false, version)),
            },
            None => rest.push(from_bool(false, version)),
        }
    }

    /// `GetMember`: the name and the object are popped, and the property of
    /// the object is pushed; `Undefined` for what is no object.
    pub open spec fn get_member(self) -> Next {
        let rest = self.pop().pop();
        match (self.second(), self.top().to_text()) {
            (ValueView::Object(o), Some(name)) => rest.deliver(
                get_spec(rest.heap, o, name, self.exact_names()),
            ),
            _ => Next { machine: rest.push(ValueView::Undefined), error: None },
        }
    }

    /// `SetMember`: the value, the name and the object are popped, and the
    /// value is assigned to the property of the object. An array follows the
    /// assignment with its length.
    pub open spec fn set_member(self) -> Next {
        let value = self.top();
        let rest = self.pop().pop().pop();
        match (self.third(), self.second().to_text()) {
            (ValueView::Object(o), Some(name)) => if o < rest.heap.len()
                && rest.heap[o as int].kind is Array {
                (MachineView {
                    heap: set_local_spec(rest.heap, o, name, value, self.exact_names()),
                    ..rest
                }).settle(set_local_result(rest.heap, o, name, value, self.exact_names()))
            } else {
                (MachineView {
                    heap: set_spec(rest.heap, o, name, value, self.exact_names()),
                    ..rest
                }).settle(set_result(rest.heap, o, name, value, self.exact_names()))
            },
            _ => Next { machine: rest, error: None },
        }
    }

    /// `InitArray`: the count is popped, then as many values as it says; an
    /// array with these values, the first popped first, is made and pushed.
    pub open spec fn init_array(self) -> MachineView {
        let rest = self.pop();
        let count = clamp_count(self.top().to_i32(), rest.stack.len() as int);
        (MachineView {
            heap: rest.heap.push(array_of(rest.top_values(count), Some(rest.prototypes.array))),
            ..rest.drop_values(count)
        }).push(ValueView::Object(rest.heap.len() as usize))
    }

    /// `CallFunction`: the name, the count of the arguments and the
    /// arguments are popped, the first argument first, and the function that
    /// the name resolves to is called.
    pub open spec fn call_function(self) -> Next {
        let rest = self.pop().pop();
        let count = clamp_count(self.second().to_i32(), rest.stack.len() as int);
        let args = rest.top_values(count);
        let after = rest.drop_values(count);
        match self.top().to_text() {
            Some(name) => match resolve_spec(
                after.heap,
                self.scope_frames(),
                name,
                self.exact_names(),
            ) {
                Ok(ReturnView::Immediate(ValueView::Object(f))) => after.call(f, None, args, true),
                Err(e) => Next { machine: after, error: Some(e) },
                _ => Next { machine: after.push(ValueView::Undefined), error: None },
            },
            None => Next { machine: after.push(ValueView::Undefined), error: None },
        }
    }

    /// `DefineFunction`: the code of the function is the block behind the
    /// action, and the function closes over the scope chain without its
    /// `with` scopes. A function with a name becomes a variable of the
    /// innermost scope; one without is pushed.
    pub open spec fn define_function(
        self,
        name: Seq<char>,
        params: Seq<Seq<char>>,
        code_length: u16,
    ) -> MachineView {
        let made = self.function_made(params, code_length);
        let function = (grown_heap(self.heap, closure_frames(self.scope_frames())).len()
            + 1) as usize;
        if name.len() == 0 {
            made.push(ValueView::Object(function))
        } else {
            made.define_local(name, ValueView::Object(function))
        }
    }

    /// The machine after the function of a `DefineFunction` was made, and
    /// before it was pushed or named: the function is an object on the heap
    /// and an entry of the table of functions, its code is a block of its
    /// own, and the activation stands behind the code of the function.
    pub open spec fn function_made(self, params: Seq<Seq<char>>, code_length: u16) -> MachineView {
        let frame = self.frame();
        let code = self.code();
        let end = block_end(frame.pc as int, code_length as int, code.len() as int);
        let captured = closure_frames(self.scope_frames());
        let heap = grown_heap(self.heap, captured);
        let function = (heap.len() + 1) as usize;
        let made = MachineView {
            heap: heap.push(empty_object(Some(self.prototypes.object))).push(
                function_object(self.prototypes.function, heap.len() as usize),
            ),
            scopes: grown(self.scopes, captured, self.heap.len()),
            codes: self.codes.push(
                if frame.pc <= end <= code.len() {
                    code.subrange(frame.pc as int, end)
                } else {
                    Seq::empty()
                },
            ),
            functions: self.functions.push(
                FunctionView {
                    object: function,
                    code: self.codes.len() as usize,
                    params,
                    scope: grown_id(self.scopes, captured) as usize,
                },
            ),
            ..self
        }.at(end);
        made
    }

    /// `With`: the object is popped and put on the scope chain for the block
    /// behind the action. What is no object puts nothing on the chain: the
    /// block is passed over.
    pub open spec fn action_with(self, code_length: u16) -> MachineView {
        let rest = self.pop();
        let frame = rest.frame();
        let end = block_end(frame.pc as int, code_length as int, rest.code().len() as int);
        match self.top() {
            ValueView::Object(o) => if frame.scope < rest.scopes.len() {
                MachineView { scopes: with_scopes(rest.scopes, frame.scope, o), ..rest }.with_frame(
                    ActivationView {
                        scope: (rest.scopes.len() + 1) as usize,
                        with_ends: frame.with_ends.push(
                            WithEnd { end: end as usize, scope: frame.scope },
                        ),
                        ..frame
                    },
                )
            } else {
                rest.at(end)
            },
            _ => rest.at(end),
        }
    }

    /// The clip that a path names for `tellTarget`: the clip that the code
    /// belongs to for the empty path; else the object that this clip holds
    /// under the path as its name; none where it holds no object there.
    pub open spec fn target_of(self, path: Seq<char>) -> Option<ObjectId> {
        let base = self.frame().base_clip;
        if path.len() == 0 {
            Some(base)
        } else if base < self.heap.len() {
            match self.heap[base as int].data(path) {
                ValueView::Object(o) => Some(o),
                _ => None,
            }
        } else {
            None
        }
    }

    /// `SetTarget`: the clip that the path names becomes the target of the
    /// timeline actions, and the object of the timeline scopes of the chain.
    /// Where the path names no clip there is no target, and the chain stays.
    pub open spec fn set_target(self, path: Seq<char>) -> MachineView {
        let frame = self.frame();
        match self.target_of(path) {
            Some(clip) => {
                let frames = target_frames(self.scope_frames(), clip);
                MachineView {
                    heap: grown_heap(self.heap, frames),
                    scopes: grown(self.scopes, frames, self.heap.len()),
                    ..self
                }.with_frame(
                    ActivationView {
                        scope: grown_id(self.scopes, frames) as usize,
                        target_clip: Some(clip),
                        ..frame
                    },
                )
            },
            None => self.with_frame(ActivationView { target_clip: None, ..frame }),
        }
    }

    /// Whether the frame of a `WaitForFrame` is loaded: every frame is,
    /// unless the target clip says in `_framesloaded` how many are.
    pub open spec fn frame_loaded(self, frame: u16) -> bool {
        match self.frame().target_clip {
            Some(clip) => if clip < self.heap.len() {
                match self.heap[clip as int].data("_framesloaded"@) {
                    ValueView::Number(n) => frame < n.to_i32_spec(),
                    _ => true,
                }
            } else {
                true
            },
            None => true,
        }
    }

    /// `WaitForFrame`: where the frame is not loaded, the next actions are
    /// passed over.
    pub open spec fn wait_for_frame(self, frame: u16, num_actions_to_skip: u8) -> MachineView {
        if self.frame_loaded(frame) {
            self
        } else {
            self.at(skipped(self.code(), self.frame().pc as int, num_actions_to_skip as nat))
        }
    }

    /// What an action does to the machine whose innermost activation stands
    /// behind the action.
    pub open spec fn execute(self, action: ActionView) -> Next {
        let version = self.frame().swf_version;
        match action {
            ActionView::NextFrame => Next {
                machine: self.clip_command(ClipAction::NextFrame),
                error: None,
            },
            ActionView::PreviousFrame => Next {
                machine: self.clip_command(ClipAction::PreviousFrame),
                error: None,
            },
            ActionView::Play => Next { machine: self.clip_command(ClipAction::Play), error: None },
            ActionView::Stop => Next { machine: self.clip_command(ClipAction::Stop), error: None },
            ActionView::GotoFrame(f) => Next {
                machine: self.clip_command(ClipAction::GotoFrame(f)),
                error: None,
            },
            ActionView::Not => Next {
                machine: self.pop().push(from_bool(!self.top().as_bool(version), version)),
                error: None,
            },
            ActionView::Pop => Next { machine: self.pop(), error: None },
            ActionView::GetVariable => self.get_variable(),
            ActionView::SetVariable => self.set_variable(),
            ActionView::Trace => Next {
                machine: MachineView {
                    trace_output: self.trace_output.push(self.top()),
                    ..self.pop()
                },
                error: None,
            },
            ActionView::Throw => Next {
                machine: self.pop(),
                error: Some(ErrorView::ThrownValue(self.top())),
            },
            ActionView::Delete2 => Next { machine: self.action_delete2(), error: None },
            ActionView::DefineLocal => Next { machine: self.action_define_local(), error: None },
            ActionView::CallFunction => self.call_function(),
            ActionView::Return => Next { machine: self.pop().finish(self.top()), error: None },
            ActionView::DefineLocal2 => Next { machine: self.action_define_local2(), error: None },
            ActionView::InitArray => Next { machine: self.init_array(), error: None },
            ActionView::TypeOf => Next {
                machine: self.pop().push(ValueView::String(type_of(self.heap, self.top()))),
                error: None,
            },
            ActionView::PushDuplicate => Next { machine: self.push(self.top()), error: None },
            ActionView::StackSwap => Next {
                machine: self.pop().pop().push(self.top()).push(self.second()),
                error: None,
            },
            ActionView::GetMember => self.get_member(),
            ActionView::SetMember => self.set_member(),
            ActionView::CallMethod => self.call_method(),
            ActionView::NewObject => self.new_object(),
            ActionView::StrictEquals => Next {
                machine: self.pop().pop().push(
                    from_bool(self.second().strict_eq(self.top()), version),
                ),
                error: None,
            },
            ActionView::StoreRegister(r) => Next {
                machine: self.set_register(r as int, self.top()),
                error: None,
            },
            ActionView::ConstantPool(pool) => Next {
                machine: MachineView { constant_pool: pool, ..self },
                error: None,
            },
            ActionView::WaitForFrame { frame, num_actions_to_skip } => Next {
                machine: self.wait_for_frame(frame, num_actions_to_skip),
                error: None,
            },
            ActionView::SetTarget(path) => Next { machine: self.set_target(path), error: None },
            ActionView::With { code_length } => Next {
                machine: self.action_with(code_length),
                error: None,
            },
            ActionView::Push(values) => Next {
                machine: self.push_all(values, values.len()),
                error: None,
            },
            ActionView::Jump { offset } => Next { machine: self.jump(offset as int), error: None },
            ActionView::DefineFunction { name, params, code_length } => Next {
                machine: self.define_function(name, params, code_length),
                error: None,
            },
            ActionView::If { offset } => Next {
                machine: if self.top().as_bool(version) {
                    self.pop().jump(offset as int)
                } else {
                    self.pop()
                },
                error: None,
            },
            ActionView::Unknown { .. } => Next { machine: self, error: None },
        }
    }

    /// One step of the machine: the innermost activation leaves the `with`
    /// blocks that have ended; where its code ends, it returns `Undefined`;
    /// else the action at its position runs. A machine without an activation
    /// has nothing to run.
    pub open spec fn step(self) -> Next {
        if self.frames.len() == 0 {
            Next { machine: self, error: Some(ErrorView::NoStackFrame) }
        } else {
            let ready = self.leave_with_blocks();
            match ready.fetch() {
                Fetched::End => Next { machine: ready.finish(ValueView::Undefined), error: None },
                Fetched::Invalid => Next {
                    machine: ready,
                    error: Some(ErrorView::InvalidBytecode),
                },
                Fetched::Action(action, next) => ready.at(next).execute(action),
            }
        }
    }
}


/// Passes over the next actions: reads `num_actions_to_skip` actions and
/// drops them. An action that cannot be read is not passed over.
pub fn skip_actions(reader: &mut ActionReader<'_>, num_actions_to_skip: u8)
    ensures
        final(reader).inner@ == old(reader).inner@,
        final(reader).version == old(reader).version,
        final(reader).pos == skipped(
            old(reader).inner@,
            old(reader).pos as int,
            num_actions_to_skip as nat,
        ),
{
    let mut i: u8 = 0;
    while i < num_actions_to_skip
        invariant
            i <= num_actions_to_skip,
            reader.inner@ == old(reader).inner@,
            reader.version == old(reader).version,
            skipped(old(reader).inner@, old(reader).pos as int, num_actions_to_skip as nat)
                == skipped(reader.inner@, reader.pos as int, (num_actions_to_skip - i) as nat),
        decreases num_actions_to_skip - i,
    {
        let ghost here = reader.pos as int;
        match reader.read_action() {
            Ok(_) => {},
            Err(_) => {
                proof {
                    lemma_skip_stays(
                        reader.inner@,
                        here,
                        (num_actions_to_skip - i - 1) as nat,
                    );
                }
            },
        }
        i = i + 1;
    }
}

proof fn lemma_skip_stays(code: Seq<u8>, pc: int, count: nat)
    requires
        action_at(code, pc) is Err,
    ensures
        skipped(code, pc, count) == pc,
{
}

impl Avm1 {
    fn frame_version(&self) -> (r: u8)
        requires
            self@.frames.len() > 0,
        ensures
            r == self@.frame().swf_version,
    {
        self.stack_frames[self.stack_frames.len() - 1].swf_version
    }

    fn frame_scope(&self) -> (r: ScopeId)
        requires
            self@.frames.len() > 0,
        ensures
            r == self@.frame().scope,
    {
        self.stack_frames[self.stack_frames.len() - 1].scope
    }

    fn exact_names(&self) -> (r: bool)
        requires
            self@.frames.len() > 0,
        ensures
            r == self@.exact_names(),
    {
        self.stack_frames[self.stack_frames.len() - 1].swf_version > 6
    }

    /// The position of the function that an object is.
    fn find_function(&self, object: ObjectId) -> (r: Option<usize>)
        ensures
            match r {
                Some(i) => function_of(self@.functions, object) == Some(i as int) && i
                    < self.functions@.len(),
                None => function_of(self@.functions, object) is None,
            },
    {
        let mut i: usize = self.functions.len();
        assert(self@.functions.take(i as int) =~= self@.functions);
        while i > 0
            invariant
                i <= self.functions@.len(),
                function_of(self@.functions, object) == function_of(
                    self@.functions.take(i as int),
                    object,
                ),
            decreases i,
        {
            proof {
                assert(self@.functions.take(i as int).drop_last() =~= self@.functions.take(
                    i as int - 1,
                ));
                assert(self@.functions.take(i as int).last() == self.functions@[i as int - 1]@);
            }
            i = i - 1;
            if self.functions[i].object == object {
                return Some(i);
            }
        }
        None
    }

    /// Pops the top `count` values of the operand stack, the topmost first.
    fn pop_values(&mut self, count: usize) -> (r: Vec<Value>)
        requires
            count <= old(self)@.stack.len(),
        ensures
            values_view(r@) == old(self)@.top_values(count as int),
            r@.len() == count,
            final(self)@ == old(self)@.drop_values(count as int),
    {
        let mut out: Vec<Value> = Vec::new();
        let mut i: usize = 0;
        assert(self@ =~= old(self)@.drop_values(0));
        while i < count
            invariant
                i <= count <= old(self)@.stack.len(),
                out@.len() == i,
                self@ == old(self)@.drop_values(i as int),
                forall|j: int|
                    0 <= j < i ==> (#[trigger] out@[j])@ == old(self)@.stack[old(self)@.stack.len() - 1 - j],
            decreases count - i,
        {
            let ghost before = self@;
            let v = self.pop();
            out.push(v);
            i = i + 1;
            assert(self@ =~= old(self)@.drop_values(i as int));
        }
        assert(values_view(out@) =~= old(self)@.top_values(count as int));
        out
    }

    /// Calls a function.
    fn call(
        &mut self,
        function: ObjectId,
        this: Option<ObjectId>,
        args: Vec<Value>,
        can_return: bool,
    ) -> (r: Result<(), Error>)
        requires
            old(self)@.frames.len() > 0,
        ensures
            final(self)@ == old(self)@.call(function, this, values_view(args@), can_return).machine,
            error_of(r) == old(self)@.call(function, this, values_view(args@), can_return).error,
    {
        match self.find_function(function) {
            None => {
                if can_return {
                    self.push(Value::Undefined);
                }
                Ok(())
            },
            Some(i) => {
                if self.stack_frames.len() >= MAX_CALL_DEPTH {
                    return Err(Error::FunctionRecursionLimit);
                }
                let ghost params = self@.functions[i as int].params;
                let ghost given = values_view(args@);
                let mut locals = ScriptObject::object(None);
                let mut k: usize = 0;
                while k < self.functions[i].params.len()
                    invariant
                        i < self.functions@.len(),
                        k <= self.functions@[i as int].params@.len(),
                        params == self@.functions[i as int].params,
                        params.len() == self.functions@[i as int].params@.len(),
                        given == values_view(args@),
                        locals@ == bind_params(params, given, k as nat),
                    decreases self.functions@[i as int].params@.len() - k,
                {
                    let value = if k < args.len() {
                        args[k].duplicate()
                    } else {
                        Value::Undefined
                    };
                    locals.define_value(
                        self.functions[i].params[k].as_str(),
                        value,
                        Attributes::empty(),
                    );
                    k = k + 1;
                }
                let caller = &self.stack_frames[self.stack_frames.len() - 1];
                let swf_version: u8 = caller.swf_version;
                let base_clip: ObjectId = caller.base_clip;
                let target_clip: Option<ObjectId> = caller.target_clip;
                let code = self.functions[i].code;
                let closure = self.functions[i].scope;
                let values = self.heap.allocate(locals);
                let scope = self.scopes.allocate(
                    Scope { parent: Some(closure), class: ScopeClass::Local, values },
                );
                self.stack_frames.push(
                    Activation {
                        swf_version,
                        code,
                        pc: 0,
                        scope,
                        this,
                        base_clip,
                        target_clip,
                        can_return,
                        with_ends: Vec::new(),
                    },
                );
                assert(self@ =~= old(self)@.call(
                    function,
                    this,
                    values_view(args@),
                    can_return,
                ).machine);
                Ok(())
            },
        }
    }

    fn deliver(&mut self, outcome: Result<ReturnValue, Error>) -> (r: Result<(), Error>)
        requires
            old(self)@.frames.len() > 0,
        ensures
            final(self)@ == old(self)@.deliver(outcome_view(outcome)).machine,
            error_of(r) == old(self)@.deliver(outcome_view(outcome)).error,
    {
        match outcome {
            Ok(ReturnValue::Immediate(v)) => {
                self.push(v);
                Ok(())
            },
            Ok(ReturnValue::Deferred { function, this, args }) => self.call(
                function,
                Some(this),
                args,
                true,
            ),
            Err(e) => Err(e),
        }
    }

    fn settle(&mut self, outcome: ReturnValue) -> (r: Result<(), Error>)
        requires
            old(self)@.frames.len() > 0,
        ensures
            final(self)@ == old(self)@.settle(outcome@).machine,
            error_of(r) == old(self)@.settle(outcome@).error,
    {
        match outcome {
            ReturnValue::Immediate(_) => Ok(()),
            ReturnValue::Deferred { function, this, args } => self.call(
                function,
                Some(this),
                args,
                false,
            ),
        }
    }

    fn action_get_variable(&mut self) -> (r: Result<(), Error>)
        requires
            old(self)@.frames.len() > 0,
        ensures
            final(self)@ == old(self)@.get_variable().machine,
            error_of(r) == old(self)@.get_variable().error,
    {
        let this = self.this_value();
        let name = self.pop();
        match name.to_text() {
            Some(text) => {
                if str_eq(text.as_str(), "this") {
                    self.push(this);
                    return Ok(());
                }
                let found = self.scopes.resolve(
                    self.frame_scope(),
                    text.as_str(),
                    &self.heap,
                    self.exact_names(),
                );
                self.deliver(found)
            },
            None => {
                self.push(Value::Undefined);
                Ok(())
            },
        }
    }

    fn this_value(&self) -> (r: Value)
        requires
            self@.frames.len() > 0,
        ensures
            r@ == self@.this_value(),
    {
        match self.stack_frames[self.stack_frames.len() - 1].this {
            Some(o) => Value::Object(o),
            None => Value::Undefined,
        }
    }

    fn action_call_method(&mut self) -> (r: Result<(), Error>)
        requires
            old(self)@.frames.len() > 0,
        ensures
            final(self)@ == old(self)@.call_method().machine,
            error_of(r) == old(self)@.call_method().error,
    {
        let name = self.pop();
        let object = self.pop();
        let count = self.pop().coerce_to_i32();
        let n = self.clamp_count(count);
        let args = self.pop_values(n);
        match (object, name.to_text()) {
            (Value::Object(o), Some(text)) => {
                if text.as_str().unicode_len() == 0 {
                    return self.call(o, None, args, true);
                }
                match self.heap.get(o, text.as_str(), self.exact_names()) {
                    Ok(ReturnValue::Immediate(Value::Object(f))) => self.call(f, Some(o), args, true),
                    Err(e) => Err(e),
                    _ => {
                        self.push(Value::Undefined);
                        Ok(())
                    },
                }
            },
            _ => {
                self.push(Value::Undefined);
                Ok(())
            },
        }
    }

    fn constructed_proto(&self, function: ObjectId) -> (r: ObjectId)
        ensures
            r == self@.constructed_proto(function),
    {
        match self.heap.object(function) {
            Some(object) => match object.get_data("prototype") {
                Value::Object(p) => p,
                _ => self.prototypes.object,
            },
            None => self.prototypes.object,
        }
    }

    fn action_new_object(&mut self) -> (r: Result<(), Error>)
        requires
            old(self)@.frames.len() > 0,
        ensures
            final(self)@ == old(self)@.new_object().machine,
            error_of(r) == old(self)@.new_object().error,
    {
        let name = self.pop();
        let count = self.pop().coerce_to_i32();
        let n = self.clamp_count(count);
        let args = self.pop_values(n);
        match name.to_text() {
            Some(text) => {
                let found = self.scopes.resolve(
                    self.frame_scope(),
                    text.as_str(),
                    &self.heap,
                    self.exact_names(),
                );
                match found {
                    Ok(ReturnValue::Immediate(Value::Object(f))) => {
                        let ghost after = self@;
                        let proto = self.constructed_proto(f);
                        let made = self.heap.allocate(ScriptObject::object(Some(proto)));
                        assert(self@ =~= (MachineView {
                            heap: after.heap.push(empty_object(Some(after.constructed_proto(f)))),
                            ..after
                        }));
                        self.push(Value::Object(made));
                        self.call(f, Some(made), args, false)
                    },
                    Err(e) => Err(e),
                    _ => {
                        self.push(Value::Undefined);
                        Ok(())
                    },
                }
            },
            None => {
                self.push(Value::Undefined);
                Ok(())
            },
        }
    }

    /// Defines a variable in the innermost scope.
    fn define_local(&mut self, name: &str, value: Value)
        requires
            old(self)@.frames.len() > 0,
        ensures
            final(self)@ == old(self)@.define_local(name@, value@),
    {
        let scope = self.frame_scope();
        self.scopes.define(scope, name, value, &mut self.heap);
        assert(self@ =~= old(self)@.define_local(name@, value@));
    }

    fn action_set_variable(&mut self) -> (r: Result<(), Error>)
        requires
            old(self)@.frames.len() > 0,
        ensures
            final(self)@ == old(self)@.set_variable().machine,
            error_of(r) == old(self)@.set_variable().error,
    {
        let value = self.pop();
        let name = self.pop();
        match name.to_text() {
            Some(text) => {
                let scope = self.frame_scope();
                let exact = self.exact_names();
                let ghost rest = self@;
                match self.scopes.overwrite(scope, text.as_str(), value, &mut self.heap, exact) {
                    Ok(done) => {
                        proof {
                            let i = defining_frame(
                                rest.heap,
                                rest.scope_frames(),
                                text@,
                                exact,
                            ).unwrap();
                            let holder = rest.scope_frames()[i].values;
                            assert(self@ =~= (MachineView {
                                heap: set_spec(rest.heap, holder, text@, value@, exact),
                                ..rest
                            }));
                        }
                        self.settle(done)
                    },
                    Err(back) => {
                        self.define_local(text.as_str(), back);
                        Ok(())
                    },
                }
            },
            None => Ok(()),
        }
    }

    fn action_define_local(&mut self)
        requires
            old(self)@.frames.len() > 0,
        ensures
            final(self)@ == old(self)@.action_define_local(),
    {
        let value = self.pop();
        let name = self.pop();
        match name.to_text() {
            Some(text) => {
                self.define_local(text.as_str(), value);
            },
            None => {},
        }
    }

    fn action_define_local2(&mut self)
        requires
            old(self)@.frames.len() > 0,
        ensures
            final(self)@ == old(self)@.action_define_local2(),
    {
        let name = self.pop();
        match name.to_text() {
            Some(text) => {
                let scope = self.frame_scope();
                let exact = self.exact_names();
                let defined: bool = match self.scopes.get(scope) {
                    Some(node) => self.heap.has_own_property(node.values, text.as_str(), exact),
                    None => false,
                };
                if !defined {
                    self.define_local(text.as_str(), Value::Undefined);
                }
            },
            None => {},
        }
    }

    fn action_delete2(&mut self)
        requires
            old(self)@.frames.len() > 0,
        ensures
            final(self)@ == old(self)@.action_delete2(),
    {
        let name = self.pop();
        let version = self.frame_version();
        match name.to_text() {
            Some(text) => {
                let scope = self.frame_scope();
                let exact = self.exact_names();
                let ghost rest = self@;
                let removed = self.scopes.delete(scope, text.as_str(), &mut self.heap, exact);
                proof {
                    match defining_frame(rest.heap, rest.scope_frames(), text@, exact) {
                        Some(i) => {
                            let holder = rest.scope_frames()[i].values;
                            assert(self@ =~= (MachineView {
                                heap: delete_spec(rest.heap, holder, text@, exact),
                                ..rest
                            }));
                        },
                        None => {
                            assert(self@ =~= rest);
                        },
                    }
                }
                self.push(value_from_bool(removed, version));
            },
            None => {
                self.push(value_from_bool(false, version));
            },
        }
    }

    fn action_get_member(&mut self) -> (r: Result<(), Error>)
        requires
            old(self)@.frames.len() > 0,
        ensures
            final(self)@ == old(self)@.get_member().machine,
            error_of(r) == old(self)@.get_member().error,
    {
        let name = self.pop();
        let object = self.pop();
        match (object, name.to_text()) {
            (Value::Object(o), Some(text)) => {
                let found = self.heap.get(o, text.as_str(), self.exact_names());
                self.deliver(found)
            },
            _ => {
                self.push(Value::Undefined);
                Ok(())
            },
        }
    }

    fn action_set_member(&mut self) -> (r: Result<(), Error>)
        requires
            old(self)@.frames.len() > 0,
        ensures
            final(self)@ == old(self)@.set_member().machine,
            error_of(r) == old(self)@.set_member().error,
    {
        let value = self.pop();
        let name = self.pop();
        let object = self.pop();
        match (object, name.to_text()) {
            (Value::Object(o), Some(text)) => {
                let exact = self.exact_names();
                let ghost rest = self@;
                let is_array: bool = match self.heap.object(o) {
                    Some(target) => match target.kind {
                        ObjectKind::Array => true,
                        _ => false,
                    },
                    None => false,
                };
                let done = if is_array {
                    let done = ArrayObject(o).set_local(&mut self.heap, text.as_str(), value, exact);
                    assert(self@ =~= (MachineView {
                        heap: set_local_spec(rest.heap, o, text@, value@, exact),
                        ..rest
                    }));
                    done
                } else {
                    let done = self.heap.set(o, text.as_str(), value, exact);
                    assert(self@ =~= (MachineView {
                        heap: set_spec(rest.heap, o, text@, value@, exact),
                        ..rest
                    }));
                    done
                };
                self.settle(done)
            },
            _ => Ok(()),
        }
    }

    /// How many of the values that a count asks for the operand stack can
    /// give.
    fn clamp_count(&self, count: i32) -> (r: usize)
        ensures
            r == clamp_count(count as int, self@.stack.len() as int),
            r <= self@.stack.len(),
            r <= i32::MAX,
    {
        if count < 0 {
            0
        } else if (count as usize) > self.stack.len() {
            self.stack.len()
        } else {
            count as usize
        }
    }

    fn action_init_array(&mut self)
        requires
            old(self)@.frames.len() > 0,
        ensures
            final(self)@ == old(self)@.init_array(),
    {
        let count = self.pop().coerce_to_i32();
        let n = self.clamp_count(count);
        let ghost rest = self@;
        let elements = self.pop_values(n);
        let array = ArrayObject::new(&mut self.heap, self.prototypes.array, &elements);
        self.push(Value::Object(array.0));
        assert(self@ =~= old(self)@.init_array());
    }

    fn action_call_function(&mut self) -> (r: Result<(), Error>)
        requires
            old(self)@.frames.len() > 0,
        ensures
            final(self)@ == old(self)@.call_function().machine,
            error_of(r) == old(self)@.call_function().error,
    {
        let name = self.pop();
        let count = self.pop().coerce_to_i32();
        let n = self.clamp_count(count);
        let args = self.pop_values(n);
        match name.to_text() {
            Some(text) => {
                let found = self.scopes.resolve(
                    self.frame_scope(),
                    text.as_str(),
                    &self.heap,
                    self.exact_names(),
                );
                match found {
                    Ok(ReturnValue::Immediate(Value::Object(f))) => self.call(f, None, args, true),
                    Err(e) => Err(e),
                    _ => {
                        self.push(Value::Undefined);
                        Ok(())
                    },
                }
            },
            None => {
                self.push(Value::Undefined);
                Ok(())
            },
        }
    }

    /// Where a block of `length` bytes that begins at the position of the
    /// innermost activation ends.
    fn block_end(&self, length: u16) -> (r: usize)
        requires
            self@.frames.len() > 0,
        ensures
            r == block_end(self@.frame().pc as int, length as int, self@.code().len() as int),
            r >= self@.frame().pc,
    {
        let pc: usize = self.stack_frames[self.stack_frames.len() - 1].pc;
        let len: usize = self.code_len();
        if pc <= len && (length as usize) <= len - pc {
            pc + length as usize
        } else if pc <= len {
            len
        } else {
            pc
        }
    }

    fn action_define_function(&mut self, name: String, params: Vec<String>, code_length: u16)
        requires
            old(self)@.frames.len() > 0,
        ensures
            final(self)@ == old(self)@.define_function(
                name@,
                crate::avm1::read::texts(params@),
                code_length,
            ),
    {
        let top: usize = self.stack_frames.len() - 1;
        let pc: usize = self.stack_frames[top].pc;
        let code: usize = self.stack_frames[top].code;
        let end = self.block_end(code_length);
        let body: Vec<u8> = if code < self.codes.len() && end <= self.codes[code].len() {
            slice_to_vec(slice_subrange(self.codes[code].as_slice(), pc, end))
        } else {
            Vec::new()
        };
        let scope = self.frame_scope();
        let closure = self.scopes.new_closure_scope(scope, &mut self.heap);
        let prototype = self.heap.allocate(ScriptObject::object(Some(self.prototypes.object)));
        let mut object = ScriptObject::function(Some(self.prototypes.function));
        assert(object.properties@.len() == 0) by {
            assert(object@.properties.len() == 0);
        }
        object.properties.push(
            PropertyEntry {
                name: String::from_str("prototype"),
                property: Property::Stored {
                    value: Value::Object(prototype),
                    attributes: Attributes { dont_enum: true, dont_delete: true, read_only: false },
                },
            },
        );
        proof {
            let want = function_object(self.prototypes.function, prototype);
            assert(object@.properties =~= want.properties);
            assert(object@.watchers =~= want.watchers);
        }
        let function = self.heap.allocate(object);
        let code_id: usize = self.codes.len();
        self.codes.push(body);
        self.functions.push(FunctionEntry { object: function, code: code_id, params, scope: closure });
        self.set_pc(end);
        proof {
            let expected = old(self)@.function_made(crate::avm1::read::texts(params@), code_length);
            assert(self@.heap =~= expected.heap);
            assert(self@.scopes =~= expected.scopes);
            assert(self@.codes[code_id as int] =~= expected.codes[code_id as int]);
            assert(self@.codes =~= expected.codes);
            assert(self@.functions =~= expected.functions);
            assert(self@.frames =~= expected.frames);
            assert(self@ =~= expected);
        }
        if name.as_str().unicode_len() == 0 {
            self.push(Value::Object(function));
        } else {
            self.define_local(name.as_str(), Value::Object(function));
        }
    }

    fn action_with(&mut self, code_length: u16)
        requires
            old(self)@.frames.len() > 0,
        ensures
            final(self)@ == old(self)@.action_with(code_length),
    {
        let object = self.pop();
        let end = self.block_end(code_length);
        let scope = self.frame_scope();
        match object {
            Value::Object(o) => {
                if scope < self.scopes.nodes.len() {
                    let inner = self.scopes.new_with_scope(scope, o);
                    let top: usize = self.stack_frames.len() - 1;
                    self.stack_frames[top].scope = inner;
                    self.stack_frames[top].with_ends.push(WithEnd { end, scope });
                    assert(self@ =~= old(self)@.action_with(code_length));
                } else {
                    self.set_pc(end);
                }
            },
            _ => {
                self.set_pc(end);
            },
        }
    }

    fn target_of(&self, path: &str) -> (r: Option<ObjectId>)
        requires
            self@.frames.len() > 0,
        ensures
            r == self@.target_of(path@),
    {
        let base = self.stack_frames[self.stack_frames.len() - 1].base_clip;
        if path.unicode_len() == 0 {
            Some(base)
        } else {
            match self.heap.object(base) {
                Some(clip) => match clip.get_data(path) {
                    Value::Object(o) => Some(o),
                    _ => None,
                },
                None => None,
            }
        }
    }

    fn action_set_target(&mut self, path: &str)
        requires
            old(self)@.frames.len() > 0,
        ensures
            final(self)@ == old(self)@.set_target(path@),
    {
        let top: usize = self.stack_frames.len() - 1;
        match self.target_of(path) {
            Some(clip) => {
                let scope = self.frame_scope();
                let inner = self.scopes.new_target_scope(scope, clip, &mut self.heap);
                self.stack_frames[top].scope = inner;
                self.stack_frames[top].target_clip = Some(clip);
                assert(self@ =~= old(self)@.set_target(path@));
            },
            None => {
                self.stack_frames[top].target_clip = None;
                assert(self@ =~= old(self)@.set_target(path@));
            },
        }
    }

    fn frame_loaded(&self, frame: u16) -> (r: bool)
        requires
            self@.frames.len() > 0,
        ensures
            r == self@.frame_loaded(frame),
    {
        match self.stack_frames[self.stack_frames.len() - 1].target_clip {
            Some(clip) => match self.heap.object(clip) {
                Some(object) => match object.get_data("_framesloaded") {
                    Value::Number(n) => (frame as i32) < n.to_i32(),
                    _ => true,
                },
                None => true,
            },
            None => true,
        }
    }

    fn action_wait_for_frame(&mut self, frame: u16, num_actions_to_skip: u8)
        requires
            old(self)@.frames.len() > 0,
        ensures
            final(self)@ == old(self)@.wait_for_frame(frame, num_actions_to_skip),
    {
        if !self.frame_loaded(frame) {
            let top: usize = self.stack_frames.len() - 1;
            let pc: usize = self.stack_frames[top].pc;
            let code: usize = self.stack_frames[top].code;
            let target: usize = if code < self.codes.len() {
                let mut reader = ActionReader::new(
                    self.codes[code].as_slice(),
                    self.stack_frames[top].swf_version,
                );
                reader.pos = pc;
                skip_actions(&mut reader, num_actions_to_skip);
                reader.pos
            } else {
                proof {
                    lemma_skip_nothing(pc as int, num_actions_to_skip as nat);
                }
                pc
            };
            self.set_pc(target);
        }
    }

    fn type_of(&self, v: &Value) -> (r: &'static str)
        ensures
            r@ == type_of(self@.heap, v@),
    {
        match v {
            Value::Object(o) => match self.heap.object(*o) {
                Some(object) => object.type_of(),
                None => "object",
            },
            _ => v.primitive_type_name(),
        }
    }

    /// Runs an action on the machine whose innermost activation stands
    /// behind the action.
    #[verifier::rlimit(80)]
    fn execute(&mut self, action: Action) -> (r: Result<(), Error>)
        requires
            old(self)@.frames.len() > 0,
        ensures
            final(self)@ == old(self)@.execute(action@).machine,
            error_of(r) == old(self)@.execute(action@).error,
    {
        let version = self.frame_version();
        match action {
            Action::NextFrame => {
                self.clip_command(ClipAction::NextFrame);
                Ok(())
            },
            Action::PreviousFrame => {
                self.clip_command(ClipAction::PreviousFrame);
                Ok(())
            },
            Action::Play => {
                self.clip_command(ClipAction::Play);
                Ok(())
            },
            Action::Stop => {
                self.clip_command(ClipAction::Stop);
                Ok(())
            },
            Action::GotoFrame(f) => {
                self.clip_command(ClipAction::GotoFrame(f));
                Ok(())
            },
            Action::Not => {
                let v = self.pop();
                self.push(value_from_bool(!v.as_bool(version), version));
                Ok(())
            },
            Action::Pop => {
                self.pop();
                Ok(())
            },
            Action::GetVariable => self.action_get_variable(),
            Action::SetVariable => self.action_set_variable(),
            Action::Trace => {
                let v = self.pop();
                self.trace_output.push(v);
                assert(self@ =~= old(self)@.execute(action@).machine);
                Ok(())
            },
            Action::Throw => {
                let v = self.pop();
                Err(Error::ThrownValue(v))
            },
            Action::Delete2 => {
                self.action_delete2();
                Ok(())
            },
            Action::DefineLocal => {
                self.action_define_local();
                Ok(())
            },
            Action::CallFunction => self.action_call_function(),
            Action::Return => {
                let v = self.pop();
                self.finish(v);
                Ok(())
            },
            Action::DefineLocal2 => {
                self.action_define_local2();
                Ok(())
            },
            Action::InitArray => {
                self.action_init_array();
                Ok(())
            },
            Action::TypeOf => {
                let v = self.pop();
                let name = self.type_of(&v);
                self.push(Value::from_str(name));
                Ok(())
            },
            Action::PushDuplicate => {
                let v = if self.stack.len() > 0 {
                    self.stack[self.stack.len() - 1].duplicate()
                } else {
                    Value::Undefined
                };
                self.push(v);
                Ok(())
            },
            Action::StackSwap => {
                let a = self.pop();
                let b = self.pop();
                self.push(a);
                self.push(b);
                Ok(())
            },
            Action::GetMember => self.action_get_member(),
            Action::SetMember => self.action_set_member(),
            Action::CallMethod => self.action_call_method(),
            Action::NewObject => self.action_new_object(),
            Action::StrictEquals => {
                let b = self.pop();
                let a = self.pop();
                self.push(value_from_bool(a.strict_eq(&b), version));
                Ok(())
            },
            Action::StoreRegister(r) => {
                let v = if self.stack.len() > 0 {
                    self.stack[self.stack.len() - 1].duplicate()
                } else {
                    Value::Undefined
                };
                self.set_register(r, v);
                Ok(())
            },
            Action::ConstantPool(pool) => {
                self.constant_pool = pool;
                assert(self@ =~= old(self)@.execute(action@).machine);
                Ok(())
            },
            Action::WaitForFrame { frame, num_actions_to_skip } => {
                self.action_wait_for_frame(frame, num_actions_to_skip);
                Ok(())
            },
            Action::SetTarget(path) => {
                self.action_set_target(path.as_str());
                Ok(())
            },
            Action::With { code_length } => {
                self.action_with(code_length);
                Ok(())
            },
            Action::Push(values) => {
                self.action_push(&values);
                Ok(())
            },
            Action::Jump { offset } => {
                self.jump(offset);
                Ok(())
            },
            Action::DefineFunction { name, params, code_length } => {
                self.action_define_function(name, params, code_length);
                Ok(())
            },
            Action::If { offset } => {
                let v = self.pop();
                if v.as_bool(version) {
                    self.jump(offset);
                }
                Ok(())
            },
            Action::Unknown { .. } => Ok(()),
        }
    }

    /// Reads the action at the position of the innermost activation.
    fn fetch(&self) -> (r: Result<Option<(Action, usize)>, Error>)
        requires
            self@.frames.len() > 0,
        ensures
            match self@.fetch() {
                Fetched::End => r matches Ok(None),
                Fetched::Action(action, next) => r matches Ok(Some((a, n))) && a@ == action && n
                    == next,
                Fetched::Invalid => r matches Err(e) && e@ == ErrorView::InvalidBytecode,
            },
    {
        let frame = &self.stack_frames[self.stack_frames.len() - 1];
        if frame.code >= self.codes.len() {
            return Ok(None);
        }
        if frame.pc >= self.codes[frame.code].len() {
            return Ok(None);
        }
        let mut reader = ActionReader::new(self.codes[frame.code].as_slice(), frame.swf_version);
        reader.pos = frame.pc;
        match reader.read_action() {
            Ok(Some(action)) => Ok(Some((action, reader.pos))),
            Ok(None) => Ok(None),
            Err(_) => Err(Error::InvalidBytecode),
        }
    }

    /// Runs one step of the machine.
    pub fn step(&mut self) -> (r: Result<(), Error>)
        ensures
            final(self)@ == old(self)@.step().machine,
            error_of(r) == old(self)@.step().error,
    {
        if self.stack_frames.len() == 0 {
            return Err(Error::NoStackFrame);
        }
        self.leave_with_blocks();
        match self.fetch() {
            Ok(None) => {
                self.finish(Value::Undefined);
                Ok(())
            },
            Ok(Some((action, next))) => {
                self.set_pc(next);
                self.execute(action)
            },
            Err(e) => Err(e),
        }
    }
}

proof fn lemma_skip_nothing(pc: int, count: nat)
    ensures
        skipped(Seq::<u8>::empty(), pc, count) == pc,
    decreases count,
{
    if count > 0 {
        assert(action_at(Seq::<u8>::empty(), pc) is Err);
    }
}


/// How many steps one call into the machine may take before it is ended as
/// running too long.
pub const MAX_STEPS: u64 = 4_000_000;

/// Runs the machine until the activations beyond the first `depth` have
/// returned, or an error ends the run. A run of more than `budget` steps is
/// ended by an error.
pub open spec fn run_spec(m: MachineView, depth: nat, budget: nat) -> Next
    decreases budget,
{
    if m.frames.len() <= depth {
        Next { machine: m, error: None }
    } else if budget == 0 {
        Next { machine: m, error: Some(ErrorView::ExecutionTimeout) }
    } else {
        let next = m.step();
        match next.error {
            Some(_) => next,
            None => run_spec(next.machine, depth, (budget - 1) as nat),
        }
    }
}

/// What is logged in place of a thrown value that cannot be converted.
pub open spec fn placeholder() -> ValueView {
    ValueView::String("undefined"@)
}

/// A machine and a value that it gave.
pub struct Converted {
    pub machine: MachineView,
    pub value: ValueView,
}

/// The machine after a run that began with `depth` activations: after an
/// error, the activations of the run are abandoned, an error that ends all
/// execution halts the machine, and a thrown value is logged.
pub open spec fn after_run(
    next: Next,
    depth: nat,
    active_clip: ObjectId,
    swf_version: u8,
    budget: nat,
) -> MachineView {
    match next.error {
        None => next.machine,
        Some(e) => (MachineView {
            frames: next.machine.frames.take(depth as int),
            halted: next.machine.halted || e.is_halting(),
            ..next.machine
        }).logged(e, active_clip, swf_version, budget),
    }
}

impl MachineView {
    /// How an object is converted to a text, for the log of a thrown object
    /// and for a built-in function that takes a text: `toString` of the
    /// object is called on it, in an activation of the clip of its own, and
    /// run to its end. What it
    /// returns is the text if it is primitive; the default text of the
    /// object takes its place where the object has no `toString`, where
    /// `toString` returned an object and where it threw. The conversion
    /// fails, and the placeholder is the text, where the machine is halted,
    /// where the chain of prototypes is too long, and where the run of
    /// `toString` ended with an error that is no thrown value; an error that
    /// ends all execution halts the machine.
    pub open spec fn object_text(
        self,
        obj: ObjectId,
        active_clip: ObjectId,
        swf_version: u8,
        budget: nat,
    ) -> Converted {
        if self.halted {
            Converted { machine: self, value: placeholder() }
        } else {
            match to_string_step(self.heap, obj, swf_version > 6) {
                Err(_) => Converted { machine: self, value: placeholder() },
                Ok(ConversionView::Done(v)) => Converted { machine: self, value: v },
                Ok(ConversionView::Call { function, this, method }) => {
                    let entered = self.enter(active_clip, swf_version, Seq::empty());
                    let called = entered.call(function, Some(this), Seq::empty(), true);
                    let ran = match called.error {
                        Some(_) => called,
                        None => run_spec(called.machine, entered.frames.len(), budget),
                    };
                    let ended = MachineView {
                        frames: ran.machine.frames.take(self.frames.len() as int),
                        ..ran.machine
                    };
                    match ran.error {
                        None => Converted {
                            machine: ended.pop(),
                            value: after_to_string_spec(ran.machine.heap, obj, Some(ran.machine.top())),
                        },
                        Some(ErrorView::ThrownValue(_)) => Converted {
                            machine: ended,
                            value: after_to_string_spec(ran.machine.heap, obj, None),
                        },
                        Some(e) => Converted {
                            machine: MachineView { halted: e.is_halting(), ..ended },
                            value: placeholder(),
                        },
                    }
                },
            }
        }
    }

    /// The machine after an error that no script caught was logged: a thrown
    /// value is written to the trace output, a primitive value as it is and
    /// an object as the text that it is converted to. For any other error
    /// nothing is written.
    pub open spec fn logged(
        self,
        e: ErrorView,
        active_clip: ObjectId,
        swf_version: u8,
        budget: nat,
    ) -> MachineView {
        match e {
            ErrorView::ThrownValue(ValueView::Object(obj)) => {
                let converted = self.object_text(obj, active_clip, swf_version, budget);
                MachineView {
                    trace_output: converted.machine.trace_output.push(converted.value),
                    ..converted.machine
                }
            },
            ErrorView::ThrownValue(thrown) => MachineView {
                trace_output: self.trace_output.push(thrown),
                ..self
            },
            _ => self,
        }
    }

    /// The machine with one more activation: timeline code of a clip, at
    /// its beginning, in a timeline scope of the clip below the global scope.
    pub open spec fn enter(self, active_clip: ObjectId, swf_version: u8, code: Seq<u8>) -> MachineView {
        MachineView {
            codes: self.codes.push(code),
            scopes: self.scopes.push(
                Scope {
                    parent: Some(self.global_scope),
                    class: ScopeClass::Target,
                    values: active_clip,
                },
            ),
            frames: self.frames.push(
                ActivationView {
                    swf_version,
                    code: self.codes.len() as usize,
                    pc: 0,
                    scope: self.scopes.len() as usize,
                    this: Some(active_clip),
                    base_clip: active_clip,
                    target_clip: Some(active_clip),
                    can_return: false,
                    with_ends: Seq::empty(),
                },
            ),
            ..self
        }
    }

    /// The machine after the timeline code of a clip ran in it. A halted
    /// machine runs nothing: it stays as it is.
    pub open spec fn run_action(
        self,
        active_clip: ObjectId,
        swf_version: u8,
        code: Seq<u8>,
        budget: nat,
    ) -> MachineView {
        if self.halted {
            self
        } else {
            after_run(
                run_spec(self.enter(active_clip, swf_version, code), self.frames.len(), budget),
                self.frames.len(),
                active_clip,
                swf_version,
                budget,
            )
        }
    }

    /// The machine after the initializer code of a clip ran in it: as
    /// timeline code, with `Undefined` on the stack before it.
    pub open spec fn run_init_action(
        self,
        active_clip: ObjectId,
        swf_version: u8,
        code: Seq<u8>,
        budget: nat,
    ) -> MachineView {
        if self.halted {
            self
        } else {
            after_run(
                run_spec(
                    self.enter(active_clip, swf_version, code).push(ValueView::Undefined),
                    self.frames.len(),
                    budget,
                ),
                self.frames.len(),
                active_clip,
                swf_version,
                budget,
            )
        }
    }

    /// The machine after a method of an object ran in it: the function that
    /// the object or one of its prototypes holds under the name is called on
    /// the object. Where there is no such function nothing runs.
    pub open spec fn run_method(
        self,
        active_clip: ObjectId,
        obj: ObjectId,
        swf_version: u8,
        name: Seq<char>,
        args: Seq<ValueView>,
        budget: nat,
    ) -> MachineView {
        if self.halted {
            self
        } else {
            let entered = self.enter(active_clip, swf_version, Seq::empty());
            let called = match get_spec(self.heap, obj, name, swf_version > 6) {
                Ok(ReturnView::Immediate(ValueView::Object(f))) => entered.call(
                    f,
                    Some(obj),
                    args,
                    false,
                ),
                _ => Next { machine: entered, error: None },
            };
            match called.error {
                Some(_) => after_run(called, self.frames.len(), active_clip, swf_version, budget),
                None => after_run(
                    run_spec(called.machine, self.frames.len(), budget),
                    self.frames.len(),
                    active_clip,
                    swf_version,
                    budget,
                ),
            }
        }
    }
}

impl Avm1 {
    /// Runs the machine until the activations beyond the first `depth` have
    /// returned, an error ends the run, or `budget` steps were made.
    pub fn run(&mut self, depth: usize, budget: u64) -> (r: Result<(), Error>)
        ensures
            final(self)@ == run_spec(old(self)@, depth as nat, budget as nat).machine,
            error_of(r) == run_spec(old(self)@, depth as nat, budget as nat).error,
    {
        let mut left: u64 = budget;
        loop
            invariant
                run_spec(old(self)@, depth as nat, budget as nat) == run_spec(
                    self@,
                    depth as nat,
                    left as nat,
                ),
            decreases left,
        {
            if self.stack_frames.len() <= depth {
                return Ok(());
            }
            if left == 0 {
                return Err(Error::ExecutionTimeout);
            }
            match self.step() {
                Ok(_) => {},
                Err(e) => {
                    return Err(e);
                },
            }
            left = left - 1;
        }
    }

    /// Converts an object to a text: calls its `toString` and runs it to its
    /// end. Where the conversion fails, the text is `undefined`.
    pub fn text_of_object(&mut self, obj: ObjectId, active_clip: ObjectId, swf_version: u8) -> (r:
        Value)
        ensures
            final(self)@ == old(self)@.object_text(
                obj,
                active_clip,
                swf_version,
                MAX_STEPS as nat,
            ).machine,
            r@ == old(self)@.object_text(obj, active_clip, swf_version, MAX_STEPS as nat).value,
    {
        if self.halted {
            return Value::from_str("undefined");
        }
        let depth: usize = self.stack_frames.len();
        match to_string_call(&self.heap, obj, swf_version > 6) {
            Err(_) => Value::from_str("undefined"),
            Ok(Conversion::Done(v)) => v,
            Ok(Conversion::Call { function, this, method }) => {
                self.enter(active_clip, swf_version, Vec::new());
                let ghost entered = self@;
                let inner: usize = self.stack_frames.len();
                let called = self.call(function, Some(this), Vec::new(), true);
                let ghost begun = self@;
                let outcome = match called {
                    Err(e) => Err(e),
                    Ok(_) => self.run(inner, MAX_STEPS),
                };
                proof {
                    lemma_call_keeps_depth(entered, Seq::empty());
                    assert(values_view(Seq::<Value>::empty()) =~= Seq::<ValueView>::empty());
                    if called is Ok {
                        lemma_run_keeps_depth(begun, inner as nat, MAX_STEPS as nat);
                    }
                }
                let ghost ran = self@;
                match outcome {
                    Ok(_) => {
                        let result = self.pop();
                        self.stack_frames.truncate(depth);
                        assert(self@ =~= (MachineView {
                            frames: ran.frames.take(depth as int),
                            ..ran
                        }).pop());
                        after_to_string(&self.heap, obj, Some(result))
                    },
                    Err(e) => {
                        self.stack_frames.truncate(depth);
                        match e {
                            Error::ThrownValue(_) => {
                                assert(self@ =~= (MachineView {
                                    frames: ran.frames.take(depth as int),
                                    ..ran
                                }));
                                after_to_string(&self.heap, obj, None)
                            },
                            other => {
                                self.halted = other.is_halting();
                                assert(self@ =~= (MachineView {
                                    halted: other@.is_halting(),
                                    frames: ran.frames.take(depth as int),
                                    ..ran
                                }));
                                Value::from_str("undefined")
                            },
                        }
                    },
                }
            },
        }
    }

    /// Ends a run that began with `depth` activations.
    fn end_run(
        &mut self,
        outcome: Result<(), Error>,
        depth: usize,
        active_clip: ObjectId,
        swf_version: u8,
    )
        requires
            depth <= old(self)@.frames.len(),
        ensures
            final(self)@ == after_run(
                Next { machine: old(self)@, error: error_of(outcome) },
                depth as nat,
                active_clip,
                swf_version,
                MAX_STEPS as nat,
            ),
    {
        match outcome {
            Ok(_) => {},
            Err(e) => {
                self.stack_frames.truncate(depth);
                if e.is_halting() {
                    self.halted = true;
                }
                assert(self@ =~= (MachineView {
                    frames: old(self)@.frames.take(depth as int),
                    halted: old(self)@.halted || e@.is_halting(),
                    ..old(self)@
                }));
                root_error_handler(self, active_clip, swf_version, e);
            },
        }
    }

    /// Adds an activation for timeline code of a clip.
    fn enter(&mut self, active_clip: ObjectId, swf_version: u8, code: Vec<u8>)
        ensures
            final(self)@ == old(self)@.enter(active_clip, swf_version, code@),
    {
        let code_id: usize = self.codes.len();
        self.codes.push(code);
        let scope = self.scopes.allocate(
            Scope::new(self.global_scope, ScopeClass::Target, active_clip),
        );
        self.stack_frames.push(
            Activation::from_action(swf_version, code_id, scope, active_clip, Some(active_clip), false),
        );
        assert(self@ =~= old(self)@.enter(active_clip, swf_version, code@));
    }

    /// Runs timeline code of a clip. A halted machine runs nothing.
    pub fn run_stack_frame_for_action(&mut self, active_clip: ObjectId, swf_version: u8, code: &[u8])
        ensures
            final(self)@ == old(self)@.run_action(active_clip, swf_version, code@, MAX_STEPS as nat),
            old(self)@.halted ==> final(self)@ == old(self)@,
    {
        if self.halted {
            return ;
        }
        let depth: usize = self.stack_frames.len();
        self.enter(active_clip, swf_version, slice_to_vec(code));
        let outcome = self.run(depth, MAX_STEPS);
        proof {
            lemma_run_keeps_depth(
                old(self)@.enter(active_clip, swf_version, code@),
                depth as nat,
                MAX_STEPS as nat,
            );
        }
        self.end_run(outcome, depth, active_clip, swf_version);
    }

    /// Runs initializer code of a clip. A halted machine runs nothing.
    pub fn run_stack_frame_for_init_action(
        &mut self,
        active_clip: ObjectId,
        swf_version: u8,
        code: &[u8],
    )
        ensures
            final(self)@ == old(self)@.run_init_action(
                active_clip,
                swf_version,
                code@,
                MAX_STEPS as nat,
            ),
            old(self)@.halted ==> final(self)@ == old(self)@,
    {
        if self.halted {
            return ;
        }
        let depth: usize = self.stack_frames.len();
        self.enter(active_clip, swf_version, slice_to_vec(code));
        self.push(Value::Undefined);
        let outcome = self.run(depth, MAX_STEPS);
        proof {
            lemma_run_keeps_depth(
                old(self)@.enter(active_clip, swf_version, code@).push(ValueView::Undefined),
                depth as nat,
                MAX_STEPS as nat,
            );
        }
        self.end_run(outcome, depth, active_clip, swf_version);
    }

    /// Runs a method of an object, such as an event handler. A halted
    /// machine runs nothing.
    pub fn run_stack_frame_for_method(
        &mut self,
        active_clip: ObjectId,
        obj: ObjectId,
        swf_version: u8,
        name: &str,
        args: Vec<Value>,
    )
        ensures
            final(self)@ == old(self)@.run_method(
                active_clip,
                obj,
                swf_version,
                name@,
                values_view(args@),
                MAX_STEPS as nat,
            ),
            old(self)@.halted ==> final(self)@ == old(self)@,
    {
        if self.halted {
            return ;
        }
        let depth: usize = self.stack_frames.len();
        let found = self.heap.get(obj, name, swf_version > 6);
        self.enter(active_clip, swf_version, Vec::new());
        let ghost entered = self@;
        let called = match found {
            Ok(ReturnValue::Immediate(Value::Object(f))) => self.call(f, Some(obj), args, false),
            _ => Ok(()),
        };
        match called {
            Err(e) => {
                proof {
                    lemma_call_keeps_depth(entered, values_view(args@));
                }
                self.end_run(Err(e), depth, active_clip, swf_version);
            },
            Ok(_) => {
                let ghost begun = self@;
                let outcome = self.run(depth, MAX_STEPS);
                proof {
                    lemma_call_keeps_depth(entered, values_view(args@));
                    lemma_run_keeps_depth(begun, depth as nat, MAX_STEPS as nat);
                }
                self.end_run(outcome, depth, active_clip, swf_version);
            },
        }
    }
}

proof fn lemma_call_keeps_depth(m: MachineView, args: Seq<ValueView>)
    ensures
        forall|f: ObjectId, this: Option<ObjectId>, can_return: bool|
            (#[trigger] m.call(f, this, args, can_return)).machine.frames.len() >= m.frames.len() && m.call(f, this, args, can_return).machine.halted == m.halted,
{
    lemma_deliver_depth(m);
}

/// A step takes away at most the innermost activation, and it leaves the
/// machine halted or not as it was: halting is left to the end of a run.
pub proof fn lemma_step_depth(m: MachineView)
    requires
        m.frames.len() > 0,
    ensures
        m.step().machine.frames.len() >= m.frames.len() - 1,
        m.step().machine.halted == m.halted,
{
    let ready = m.leave_with_blocks();
    lemma_leave_keeps_depth(m);
    match ready.fetch() {
        Fetched::Action(action, next) => {
            let at = ready.at(next);
            lemma_execute_depth(at, action);
        },
        _ => {},
    }
}

proof fn lemma_leave_keeps_depth(m: MachineView)
    requires
        m.frames.len() > 0,
    ensures
        m.leave_with_blocks().frames.len() == m.frames.len(),
        m.leave_with_blocks().halted == m.halted,
    decreases m.frame().with_ends.len(),
{
    let frame = m.frame();
    if frame.with_ends.len() > 0 && frame.pc >= frame.with_ends.last().end {
        lemma_leave_keeps_depth(
            m.with_frame(
                ActivationView {
                    scope: frame.with_ends.last().scope,
                    with_ends: frame.with_ends.drop_last(),
                    ..frame
                },
            ),
        );
    }
}

proof fn lemma_deliver_depth(m: MachineView)
    ensures
        forall|r: Result<ReturnView, ErrorView>|
            (#[trigger] m.deliver(r)).machine.frames.len() >= m.frames.len() && m.deliver(r).machine.halted == m.halted,
        forall|r: ReturnView| (#[trigger] m.settle(r)).machine.frames.len() >= m.frames.len(),
        forall|f: ObjectId, this: Option<ObjectId>, args: Seq<ValueView>, can_return: bool|
            (#[trigger] m.call(f, this, args, can_return)).machine.frames.len() >= m.frames.len() && m.call(f, this, args, can_return).machine.halted == m.halted,
{
}

proof fn lemma_variable_depth(m: MachineView)
    requires
        m.frames.len() > 0,
    ensures
        m.get_variable().machine.frames.len() >= m.frames.len(),
        m.get_variable().machine.halted == m.halted,
        m.set_variable().machine.frames.len() >= m.frames.len(),
        m.set_variable().machine.halted == m.halted,
        m.call_function().machine.frames.len() >= m.frames.len(),
        m.call_function().machine.halted == m.halted,
        m.new_object().machine.frames.len() >= m.frames.len(),
        m.new_object().machine.halted == m.halted,
{
    lemma_new_object_depth(m);
    lemma_deliver_depth(m.pop());
    lemma_deliver_depth(m.pop().pop());
    let rest = m.pop().pop();
    let count = clamp_count(m.second().to_i32(), rest.stack.len() as int);
    lemma_deliver_depth(rest.drop_values(count));
    match m.second().to_text() {
        Some(name) => match defining_frame(rest.heap, m.scope_frames(), name, m.exact_names()) {
            Some(i) => {
                let holder = m.scope_frames()[i].values;
                lemma_deliver_depth(
                    MachineView {
                        heap: set_spec(rest.heap, holder, name, m.top(), m.exact_names()),
                        ..rest
                    },
                );
            },
            None => {},
        },
        None => {},
    }
}

proof fn lemma_new_object_depth(m: MachineView)
    requires
        m.frames.len() > 0,
    ensures
        m.new_object().machine.frames.len() >= m.frames.len(),
        m.new_object().machine.halted == m.halted,
{
    let rest = m.pop().pop();
    let count = clamp_count(m.second().to_i32(), rest.stack.len() as int);
    let after = rest.drop_values(count);
    match m.top().to_text() {
        Some(name) => match resolve_spec(after.heap, m.scope_frames(), name, m.exact_names()) {
            Ok(ReturnView::Immediate(ValueView::Object(f))) => {
                lemma_deliver_depth(
                    (MachineView {
                        heap: after.heap.push(empty_object(Some(after.constructed_proto(f)))),
                        ..after
                    }).push(ValueView::Object(after.heap.len() as usize)),
                );
            },
            _ => {},
        },
        None => {},
    }
}

proof fn lemma_member_depth(m: MachineView)
    requires
        m.frames.len() > 0,
    ensures
        m.get_member().machine.frames.len() >= m.frames.len(),
        m.get_member().machine.halted == m.halted,
        m.set_member().machine.frames.len() >= m.frames.len(),
        m.set_member().machine.halted == m.halted,
        m.call_method().machine.frames.len() >= m.frames.len(),
        m.call_method().machine.halted == m.halted,
{
    let called = m.pop().pop().pop();
    lemma_deliver_depth(
        called.drop_values(clamp_count(m.third().to_i32(), called.stack.len() as int)),
    );
    lemma_deliver_depth(m.pop().pop());
    let rest = m.pop().pop().pop();
    match (m.third(), m.second().to_text()) {
        (ValueView::Object(o), Some(name)) => {
            lemma_deliver_depth(
                MachineView {
                    heap: set_local_spec(rest.heap, o, name, m.top(), m.exact_names()),
                    ..rest
                },
            );
            lemma_deliver_depth(
                MachineView {
                    heap: set_spec(rest.heap, o, name, m.top(), m.exact_names()),
                    ..rest
                },
            );
        },
        _ => {},
    }
}

proof fn lemma_scope_action_depth(m: MachineView)
    requires
        m.frames.len() > 0,
    ensures
        m.action_delete2().frames.len() == m.frames.len(),
        m.action_delete2().halted == m.halted,
        m.action_define_local().frames.len() == m.frames.len(),
        m.action_define_local().halted == m.halted,
        m.action_define_local2().frames.len() == m.frames.len(),
        m.action_define_local2().halted == m.halted,
        m.init_array().frames.len() == m.frames.len(),
        m.init_array().halted == m.halted,
        forall|path: Seq<char>| (#[trigger] m.set_target(path)).frames.len() == m.frames.len(),
        forall|n: u16| (#[trigger] m.action_with(n)).frames.len() == m.frames.len(),
        forall|f: u16, n: u8| (#[trigger] m.wait_for_frame(f, n)).frames.len() == m.frames.len(),
        forall|name: Seq<char>, params: Seq<Seq<char>>, n: u16|
            (#[trigger] m.define_function(name, params, n)).frames.len() == m.frames.len() && m.define_function(name, params, n).halted == m.halted,
{
}

#[verifier::rlimit(100)]
proof fn lemma_execute_depth(m: MachineView, action: ActionView)
    requires
        m.frames.len() > 0,
    ensures
        m.execute(action).machine.frames.len() >= m.frames.len() - 1,
        m.execute(action).machine.halted == m.halted,
{
    lemma_variable_depth(m);
    lemma_member_depth(m);
    lemma_scope_action_depth(m);
    match action {
        ActionView::Push(values) => {
            lemma_push_all_depth(m, values, values.len());
        },
        _ => {},
    }
}

proof fn lemma_push_all_depth(m: MachineView, values: Seq<PushView>, count: nat)
    ensures
        m.push_all(values, count).frames == m.frames,
        m.push_all(values, count).halted == m.halted,
    decreases count,
{
    if count > 0 {
        lemma_push_all_depth(m, values, (count - 1) as nat);
    }
}

/// A run that began with `depth` activations never has fewer, and the
/// steps of a run leave the machine halted or not as it was: only an error
/// that ends all execution halts the machine, at the end of the run.
pub proof fn lemma_run_keeps_depth(m: MachineView, depth: nat, budget: nat)
    requires
        m.frames.len() >= depth,
    ensures
        run_spec(m, depth, budget).machine.frames.len() >= depth,
        run_spec(m, depth, budget).machine.halted == m.halted,
        !(run_spec(m, depth, budget).error matches Some(e) && e.is_halting()) ==> after_activation(
            run_spec(m, depth, budget),
            depth,
        ).halted == m.halted,
    decreases budget,
{
    if m.frames.len() > depth && budget > 0 {
        lemma_step_depth(m);
        let next = m.step();
        if next.error is None {
            lemma_run_keeps_depth(next.machine, depth, (budget - 1) as nat);
        }
    }
}

/// A machine that was halted stays as it is, whatever it is asked to run.
/// And a run that ends with an error that ends all execution leaves the
/// machine halted.
pub proof fn lemma_halted_runs_nothing(
    m: MachineView,
    active_clip: ObjectId,
    obj: ObjectId,
    swf_version: u8,
    code: Seq<u8>,
    name: Seq<char>,
    args: Seq<ValueView>,
    budget: nat,
    next: Next,
    depth: nat,
)
    ensures
        m.halted ==> m.run_action(active_clip, swf_version, code, budget) == m,
        m.halted ==> m.run_init_action(active_clip, swf_version, code, budget) == m,
        m.halted ==> m.run_method(active_clip, obj, swf_version, name, args, budget) == m,
        (next.error matches Some(e) && e.is_halting()) ==> after_run(
            next,
            depth,
            active_clip,
            swf_version,
            budget,
        ).halted,
{
}


/// The machine after the run of an activation that was added to `depth`
/// others: after an error, the activations of the run are abandoned, and an
/// error that ends all execution halts the machine. Nothing is logged.
pub open spec fn after_activation(next: Next, depth: nat) -> MachineView {
    match next.error {
        None => next.machine,
        Some(e) => MachineView {
            frames: next.machine.frames.take(depth as int),
            halted: next.machine.halted || e.is_halting(),
            ..next.machine
        },
    }
}

impl MachineView {
    /// The machine with one more activation.
    pub open spec fn with_activation(self, activation: ActivationView) -> MachineView {
        MachineView { frames: self.frames.push(activation), ..self }
    }

    /// The machine after a method was run on the first `count` of the given
    /// listeners, one after the other.
    pub open spec fn notify(
        self,
        active_clip: ObjectId,
        swf_version: u8,
        listeners: Seq<ObjectId>,
        method: Seq<char>,
        args: Seq<ValueView>,
        budget: nat,
        count: nat,
    ) -> MachineView
        decreases count,
    {
        if count == 0 {
            self
        } else {
            self.notify(
                active_clip,
                swf_version,
                listeners,
                method,
                args,
                budget,
                (count - 1) as nat,
            ).run_method(active_clip, listeners[count - 1], swf_version, method, args, budget)
        }
    }
}

impl Avm1 {
    /// Runs an activation until it returns. An error ends the run, and is
    /// handed on; where it is one that ends all execution, the machine is
    /// halted.
    pub fn run_activation(&mut self, activation: Activation) -> (r: Result<(), Error>)
        ensures
            final(self)@ == after_activation(
                run_spec(
                    old(self)@.with_activation(activation@),
                    old(self)@.frames.len(),
                    MAX_STEPS as nat,
                ),
                old(self)@.frames.len(),
            ),
            error_of(r) == run_spec(
                old(self)@.with_activation(activation@),
                old(self)@.frames.len(),
                MAX_STEPS as nat,
            ).error,
    {
        let depth: usize = self.stack_frames.len();
        self.stack_frames.push(activation);
        assert(self@ =~= old(self)@.with_activation(activation@));
        let ghost begun = self@;
        match self.run(depth, MAX_STEPS) {
            Ok(_) => Ok(()),
            Err(e) => {
                proof {
                    lemma_run_keeps_depth(begun, depth as nat, MAX_STEPS as nat);
                }
                let ghost ran = self@;
                self.stack_frames.truncate(depth);
                if e.is_halting() {
                    self.halted = true;
                }
                assert(self@ =~= after_activation(
                    Next { machine: ran, error: Some(e@) },
                    depth as nat,
                ));
                Err(e)
            },
        }
    }

    /// Tells the listeners of the system about an event: runs the method of
    /// the given name on each of them, in their order.
    #[verifier::rlimit(60)]
    pub fn notify_system_listeners(
        &mut self,
        active_clip: ObjectId,
        swf_version: u8,
        listeners: &Vec<ObjectId>,
        method: &str,
        args: &Vec<Value>,
    )
        ensures
            final(self)@ == old(self)@.notify(
                active_clip,
                swf_version,
                listeners@,
                method@,
                values_view(args@),
                MAX_STEPS as nat,
                listeners@.len(),
            ),
    {
        let mut i: usize = 0;
        while i < listeners.len()
            invariant
                i <= listeners@.len(),
                self@ == old(self)@.notify(
                    active_clip,
                    swf_version,
                    listeners@,
                    method@,
                    values_view(args@),
                    MAX_STEPS as nat,
                    i as nat,
                ),
            decreases listeners@.len() - i,
        {
            let given = crate::value::duplicate_values(args);
            self.run_stack_frame_for_method(active_clip, listeners[i], swf_version, method, given);
            i = i + 1;
        }
    }
}

} // verus!
