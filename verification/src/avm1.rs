//! The first script machine: prototype-based objects, scope chains, and a
//! stack machine with four registers.

pub mod activation;
pub mod array_object;
pub mod coercion;
pub mod collect;
pub mod error;
pub mod globals;
pub mod heap;
pub mod interpreter;
pub mod object;
pub mod property;
pub mod read;
pub mod scope;

use crate::avm1::activation::{Activation, ActivationView, CodeId};
use crate::avm1::error::{Error, ErrorView};
use crate::avm1::interpreter::MAX_STEPS;
use crate::avm1::heap::Heap;
use crate::avm1::object::{KindView, ObjectView, ScriptObject};
use crate::avm1::read::texts;
use crate::avm1::scope::{Scope, ScopeClass, ScopeId, Scopes};
use crate::value::{values_view, ObjectId, Value, ValueView};
use vstd::prelude::*;

verus! {

/// How many activations may be under way at once.
pub const MAX_CALL_DEPTH: usize = 256;

/// The objects that new objects, functions and arrays have as prototypes.
#[derive(Copy, Clone, Debug, PartialEq, Eq, Structural)]
pub struct SystemPrototypes {
    pub object: ObjectId,
    pub function: ObjectId,
    pub array: ObjectId,
}

/// What a timeline action asks of a clip.
#[derive(Copy, Clone, Debug, PartialEq, Eq, Structural)]
pub enum ClipAction {
    NextFrame,
    PreviousFrame,
    Play,
    Stop,
    GotoFrame(u16),
}

/// A timeline action and the clip it acts on. The machine queues these; the
/// player that owns the clips carries them out.
#[derive(Copy, Clone, Debug, PartialEq, Eq, Structural)]
pub struct ClipCommand {
    pub clip: ObjectId,
    pub action: ClipAction,
}

/// A function that scripts defined: its object, its code, the names of its
/// parameters, and the scope it closes over.
#[derive(Debug)]
pub struct FunctionEntry {
    pub object: ObjectId,
    pub code: CodeId,
    pub params: Vec<String>,
    pub scope: ScopeId,
}

#[verifier::ext_equal]
pub struct FunctionView {
    pub object: ObjectId,
    pub code: CodeId,
    pub params: Seq<Seq<char>>,
    pub scope: ScopeId,
}

impl View for FunctionEntry {
    type V = FunctionView;

    open spec fn view(&self) -> FunctionView {
        FunctionView {
            object: self.object,
            code: self.code,
            params: texts(self.params@),
            scope: self.scope,
        }
    }
}

/// The state of the first script machine.
#[derive(Debug)]
pub struct Avm1 {
    /// The version of the player that is emulated.
    pub player_version: u8,
    /// The objects.
    pub heap: Heap,
    /// The scopes.
    pub scopes: Scopes,
    /// The blocks of code that ran or can run.
    pub codes: Vec<Vec<u8>>,
    /// The functions that scripts defined.
    pub functions: Vec<FunctionEntry>,
    /// The constant pool.
    pub constant_pool: Vec<String>,
    /// The global object.
    pub globals: ObjectId,
    /// The global scope.
    pub global_scope: ScopeId,
    /// The prototypes of the built-in kinds of objects.
    pub prototypes: SystemPrototypes,
    /// The activations that are under way, the outermost first.
    pub stack_frames: Vec<Activation>,
    /// The operand stack, shared by all activations.
    pub stack: Vec<Value>,
    /// The four registers, shared by all activations.
    pub registers: Vec<Value>,
    /// Whether the machine was halted. A halted machine runs nothing any
    /// more.
    pub halted: bool,
    /// The values that scripts traced, the oldest first.
    pub trace_output: Vec<Value>,
    /// The timeline actions that scripts asked for, the oldest first.
    pub commands: Vec<ClipCommand>,
}

#[verifier::ext_equal]
pub struct MachineView {
    pub player_version: u8,
    pub heap: Seq<ObjectView>,
    pub scopes: Seq<Scope>,
    pub codes: Seq<Seq<u8>>,
    pub functions: Seq<FunctionView>,
    pub constant_pool: Seq<Seq<char>>,
    pub globals: ObjectId,
    pub global_scope: ScopeId,
    pub prototypes: SystemPrototypes,
    pub frames: Seq<ActivationView>,
    pub stack: Seq<ValueView>,
    pub registers: Seq<ValueView>,
    pub halted: bool,
    pub trace_output: Seq<ValueView>,
    pub commands: Seq<ClipCommand>,
}

impl View for Avm1 {
    type V = MachineView;

    open spec fn view(&self) -> MachineView {
        MachineView {
            player_version: self.player_version,
            heap: self.heap@,
            scopes: self.scopes@,
            codes: Seq::new(self.codes@.len(), |i: int| self.codes@[i]@),
            functions: Seq::new(self.functions@.len(), |i: int| self.functions@[i]@),
            constant_pool: texts(self.constant_pool@),
            globals: self.globals,
            global_scope: self.global_scope,
            prototypes: self.prototypes,
            frames: Seq::new(self.stack_frames@.len(), |i: int| self.stack_frames@[i]@),
            stack: values_view(self.stack@),
            registers: values_view(self.registers@),
            halted: self.halted,
            trace_output: values_view(self.trace_output@),
            commands: self.commands@,
        }
    }
}

/// An empty plain object with a prototype.
pub open spec fn empty_object(proto: Option<ObjectId>) -> ObjectView {
    ObjectView { properties: Seq::empty(), proto, kind: KindView::Object, watchers: Seq::empty() }
}

impl MachineView {
    /// The machine with a value on top of its operand stack.
    pub open spec fn push(self, value: ValueView) -> MachineView {
        MachineView { stack: self.stack.push(value), ..self }
    }

    /// The top of the operand stack; `Undefined` where the stack is empty.
    pub open spec fn top(self) -> ValueView {
        if self.stack.len() > 0 {
            self.stack.last()
        } else {
            ValueView::Undefined
        }
    }

    /// The machine without the top of its operand stack.
    pub open spec fn pop(self) -> MachineView {
        if self.stack.len() > 0 {
            MachineView { stack: self.stack.drop_last(), ..self }
        } else {
            self
        }
    }

    /// The value of a register; `Undefined` for a register that is none.
    pub open spec fn register(self, index: int) -> ValueView {
        if 0 <= index < self.registers.len() {
            self.registers[index]
        } else {
            ValueView::Undefined
        }
    }

    /// The machine with a value in a register. A register that is none takes
    /// no value.
    pub open spec fn set_register(self, index: int, value: ValueView) -> MachineView {
        if 0 <= index < self.registers.len() {
            MachineView { registers: self.registers.update(index, value), ..self }
        } else {
            self
        }
    }

    /// The version of the movie whose code runs, and the version of the
    /// player where none runs.
    pub open spec fn current_swf_version(self) -> u8 {
        if self.frames.len() > 0 {
            self.frames.last().swf_version
        } else {
            self.player_version
        }
    }

    /// Whether names are matched with regard to case in the code that runs.
    pub open spec fn case_sensitive(self) -> bool {
        self.current_swf_version() > 6
    }

    /// The machine when it was made: three prototypes, the global object and
    /// the global scope, and nothing else.
    pub open spec fn initial(player_version: u8) -> MachineView {
        MachineView {
            player_version,
            heap: seq![
                empty_object(None),
                empty_object(Some(0usize)),
                empty_object(Some(0usize)),
                empty_object(Some(0usize)),
            ],
            scopes: seq![Scope { parent: None, class: ScopeClass::Global, values: 3 }],
            codes: Seq::empty(),
            functions: Seq::empty(),
            constant_pool: Seq::empty(),
            globals: 3,
            global_scope: 0,
            prototypes: SystemPrototypes { object: 0, function: 1, array: 2 },
            frames: Seq::empty(),
            stack: Seq::empty(),
            registers: seq![
                ValueView::Undefined,
                ValueView::Undefined,
                ValueView::Undefined,
                ValueView::Undefined,
            ],
            halted: false,
            trace_output: Seq::empty(),
            commands: Seq::empty(),
        }
    }
}

impl Avm1 {
    /// A new machine for the given version of the player.
    pub fn new(player_version: u8) -> (r: Avm1)
        ensures
            r@ == MachineView::initial(player_version),
    {
        let mut heap = Heap::new();
        let object = heap.allocate(ScriptObject::object(None));
        let function = heap.allocate(ScriptObject::object(Some(object)));
        let array = heap.allocate(ScriptObject::object(Some(object)));
        let globals = heap.allocate(ScriptObject::object(Some(object)));
        let mut scopes = Scopes::new();
        let global_scope = scopes.allocate(Scope::from_global_object(globals));
        let mut registers: Vec<Value> = Vec::new();
        registers.push(Value::Undefined);
        registers.push(Value::Undefined);
        registers.push(Value::Undefined);
        registers.push(Value::Undefined);
        let r = Avm1 {
            player_version,
            heap,
            scopes,
            codes: Vec::new(),
            functions: Vec::new(),
            constant_pool: Vec::new(),
            globals,
            global_scope,
            prototypes: SystemPrototypes { object, function, array },
            stack_frames: Vec::new(),
            stack: Vec::new(),
            registers,
            halted: false,
            trace_output: Vec::new(),
            commands: Vec::new(),
        };
        assert(r@ =~= MachineView::initial(player_version));
        r
    }

    /// The clip that the running code belongs to.
    pub fn base_clip(&self) -> (r: ObjectId)
        requires
            self@.frames.len() > 0,
        ensures
            r == self@.frames.last().base_clip,
    {
        self.stack_frames[self.stack_frames.len() - 1].base_clip
    }

    /// The clip that timeline actions of the running code act on.
    pub fn target_clip(&self) -> (r: Option<ObjectId>)
        requires
            self@.frames.len() > 0,
        ensures
            r == self@.frames.last().target_clip,
    {
        self.stack_frames[self.stack_frames.len() - 1].target_clip
    }

    /// The activation that runs; an error where none runs.
    pub fn current_stack_frame(&self) -> (r: Result<&Activation, Error>)
        ensures
            match r {
                Ok(frame) => self@.frames.len() > 0 && frame@ == self@.frames.last(),
                Err(e) => self@.frames.len() == 0 && e@ == ErrorView::NoStackFrame,
            },
    {
        if self.stack_frames.len() > 0 {
            Ok(&self.stack_frames[self.stack_frames.len() - 1])
        } else {
            Err(Error::NoStackFrame)
        }
    }

    /// Whether an activation runs: whether the caller is inside the machine.
    pub fn has_stack_frame(&self) -> (r: bool)
        ensures
            r == (self@.frames.len() > 0),
    {
        self.stack_frames.len() > 0
    }

    /// The version of the movie whose code runs.
    pub fn current_swf_version(&self) -> (r: u8)
        ensures
            r == self@.current_swf_version(),
    {
        if self.stack_frames.len() > 0 {
            self.stack_frames[self.stack_frames.len() - 1].swf_version
        } else {
            self.player_version
        }
    }

    /// Whether names are matched with regard to case in the code that runs.
    pub fn is_case_sensitive(&self) -> (r: bool)
        ensures
            r == self@.case_sensitive(),
    {
        crate::is_swf_case_sensitive(self.current_swf_version())
    }

    /// Halts the machine: it runs nothing any more. Halting a halted machine
    /// changes nothing.
    pub fn halt(&mut self)
        ensures
            final(self)@ == (MachineView { halted: true, ..old(self)@ }),
    {
        if !self.halted {
            self.halted = true;
        }
    }

    /// Whether the machine was halted.
    pub fn is_halted(&self) -> (r: bool)
        ensures
            r == self@.halted,
    {
        self.halted
    }

    /// Pushes a value on the operand stack.
    pub fn push(&mut self, value: Value)
        ensures
            final(self)@ == old(self)@.push(value@),
    {
        self.stack.push(value);
        assert(self@ =~= old(self)@.push(value@));
    }

    /// Pops the top of the operand stack. An empty stack stays empty and
    /// yields `Undefined`.
    pub fn pop(&mut self) -> (r: Value)
        ensures
            r@ == old(self)@.top(),
            final(self)@ == old(self)@.pop(),
    {
        match self.stack.pop() {
            Some(v) => {
                assert(self@ =~= old(self)@.pop());
                v
            },
            None => Value::Undefined,
        }
    }

    /// The value of a register.
    pub fn register(&self, index: u8) -> (r: Value)
        ensures
            r@ == self@.register(index as int),
    {
        if (index as usize) < self.registers.len() {
            self.registers[index as usize].duplicate()
        } else {
            Value::Undefined
        }
    }

    /// Puts a value in a register.
    pub fn set_register(&mut self, index: u8, value: Value)
        ensures
            final(self)@ == old(self)@.set_register(index as int, value@),
    {
        if (index as usize) < self.registers.len() {
            self.registers[index as usize] = value;
            assert(self@ =~= old(self)@.set_register(index as int, value@));
        }
    }

    /// The global object, as a value.
    pub fn global_object(&self) -> (r: Value)
        ensures
            r@ == ValueView::Object(self@.globals),
    {
        Value::Object(self.globals)
    }

    /// The global object.
    pub fn global_object_cell(&self) -> (r: ObjectId)
        ensures
            r == self@.globals,
    {
        self.globals
    }

    /// The prototypes of the built-in kinds of objects.
    pub fn prototypes(&self) -> (r: SystemPrototypes)
        ensures
            r == self@.prototypes,
    {
        self.prototypes
    }

    /// Takes the values that scripts traced, the oldest first.
    pub fn take_trace_output(&mut self) -> (r: Vec<Value>)
        ensures
            values_view(r@) == old(self)@.trace_output,
            final(self)@ == (MachineView { trace_output: Seq::empty(), ..old(self)@ }),
    {
        let mut out: Vec<Value> = Vec::new();
        core::mem::swap(&mut out, &mut self.trace_output);
        assert(self@ =~= (MachineView { trace_output: Seq::empty(), ..old(self)@ }));
        out
    }

    /// Takes the timeline actions that scripts asked for, the oldest first.
    pub fn take_commands(&mut self) -> (r: Vec<ClipCommand>)
        ensures
            r@ == old(self)@.commands,
            final(self)@ == (MachineView { commands: Seq::empty(), ..old(self)@ }),
    {
        let mut out: Vec<ClipCommand> = Vec::new();
        core::mem::swap(&mut out, &mut self.commands);
        assert(self@ =~= (MachineView { commands: Seq::empty(), ..old(self)@ }));
        out
    }
}

/// Logs an error that no script caught: a thrown value is written to the
/// trace output, a primitive value as it is and an object as the text that
/// it is converted to by its own `toString`, or the text `undefined` where
/// that conversion fails. For any other error nothing is written; it is
/// reported as it is.
pub fn root_error_handler(avm: &mut Avm1, active_clip: ObjectId, swf_version: u8, error: Error)
    ensures
        final(avm)@ == old(avm)@.logged(error@, active_clip, swf_version, MAX_STEPS as nat),
{
    match error {
        Error::ThrownValue(Value::Object(obj)) => {
            let text = avm.text_of_object(obj, active_clip, swf_version);
            let ghost converted = avm@;
            avm.trace_output.push(text);
            assert(avm@ =~= (MachineView {
                trace_output: converted.trace_output.push(text@),
                ..converted
            }));
        },
        Error::ThrownValue(thrown) => {
            avm.trace_output.push(thrown);
            assert(avm@ =~= (MachineView {
                trace_output: old(avm)@.trace_output.push(thrown@),
                ..old(avm)@
            }));
        },
        _ => {},
    }
}

} // verus!
