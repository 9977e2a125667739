use avm_core::avm1::error::Error;
use avm_core::avm1::heap::ReturnValue;
use avm_core::avm1::interpreter::skip_actions;
use avm_core::avm1::object::ScriptObject;
use avm_core::avm1::property::Attributes;
use avm_core::avm1::read::ActionReader;
use avm_core::avm1::{root_error_handler, Avm1, ClipAction, ClipCommand, MAX_CALL_DEPTH};
use avm_core::number::Number;
use avm_core::value::Value;

#[derive(Default)]
struct Asm {
    bytes: Vec<u8>,
}

impl Asm {
    fn new() -> Asm {
        Asm::default()
    }
    fn op(mut self, code: u8) -> Asm {
        self.bytes.push(code);
        self
    }
    fn with_payload(mut self, code: u8, payload: &[u8]) -> Asm {
        self.bytes.push(code);
        self.bytes.extend((payload.len() as u16).to_le_bytes());
        self.bytes.extend(payload);
        self
    }
    fn push_str(self, s: &str) -> Asm {
        let mut payload = vec![0];
        payload.extend(s.as_bytes());
        payload.push(0);
        self.with_payload(0x96, &payload)
    }
    fn push_int(self, i: i32) -> Asm {
        let mut payload = vec![7];
        payload.extend(i.to_le_bytes());
        self.with_payload(0x96, &payload)
    }
    fn push_bool(self, b: bool) -> Asm {
        self.with_payload(0x96, &[5, b as u8])
    }
    fn push_undefined(self) -> Asm {
        self.with_payload(0x96, &[3])
    }
    fn push_register(self, r: u8) -> Asm {
        self.with_payload(0x96, &[4, r])
    }
    fn push_constant(self, c: u8) -> Asm {
        self.with_payload(0x96, &[8, c])
    }
    fn get_variable(self, name: &str) -> Asm {
        self.push_str(name).op(0x1C)
    }
    fn trace(self) -> Asm {
        self.op(0x26)
    }
    fn jump(self, offset: i16) -> Asm {
        self.with_payload(0x99, &offset.to_le_bytes())
    }
    fn jump_if(self, offset: i16) -> Asm {
        self.with_payload(0x9D, &offset.to_le_bytes())
    }
    fn with_block(self, body: Asm) -> Asm {
        let mut out = self.with_payload(0x94, &(body.bytes.len() as u16).to_le_bytes());
        out.bytes.extend(body.bytes);
        out
    }
    fn function(self, name: &str, params: &[&str], body: Asm) -> Asm {
        let mut payload = vec![];
        payload.extend(name.as_bytes());
        payload.push(0);
        payload.extend((params.len() as u16).to_le_bytes());
        for p in params {
            payload.extend(p.as_bytes());
            payload.push(0);
        }
        payload.extend((body.bytes.len() as u16).to_le_bytes());
        let mut out = self.with_payload(0x9B, &payload);
        out.bytes.extend(body.bytes);
        out
    }
    fn call(self, name: &str, argc: i32) -> Asm {
        self.push_int(argc).push_str(name).op(0x3D)
    }
}

fn same(a: &Value, b: &Value) -> bool {
    format!("{:?}", a) == format!("{:?}", b)
}

fn machine() -> (Avm1, usize) {
    let mut avm = Avm1::new(8);
    let clip = avm.heap.allocate(ScriptObject::object(Some(avm.prototypes().object)));
    (avm, clip)
}

fn run(avm: &mut Avm1, clip: usize, code: Asm) -> Vec<Value> {
    avm.run_stack_frame_for_action(clip, 7, &code.bytes);
    avm.take_trace_output()
}

fn traced(code: Asm) -> Vec<Value> {
    let (mut avm, clip) = machine();
    let out = run(&mut avm, clip, code);
    assert!(!avm.is_halted());
    assert!(!avm.has_stack_frame());
    out
}

fn assert_traced(code: Asm, expected: &[Value]) {
    let out = traced(code);
    assert_eq!(out.len(), expected.len(), "traced {:?}", out);
    for (a, b) in out.iter().zip(expected) {
        assert!(same(a, b), "traced {:?}, expected {:?}", out, expected);
    }
}

#[test]
fn a_new_machine_is_empty() {
    let avm = Avm1::new(6);
    assert!(!avm.is_halted());
    assert!(!avm.has_stack_frame());
    assert_eq!(avm.current_swf_version(), 6);
    assert!(!avm.is_case_sensitive());
    assert!(matches!(avm.current_stack_frame(), Err(Error::NoStackFrame)));
    assert!(same(&avm.global_object(), &Value::Object(avm.global_object_cell())));
    assert_eq!(avm.heap.len(), 4);
    assert_eq!(avm.registers.len(), 4);
    assert!(same(&avm.register(0), &Value::Undefined));
    assert!(same(&avm.register(200), &Value::Undefined));
}

#[test]
fn the_operand_stack_yields_undefined_when_it_is_empty() {
    let mut avm = Avm1::new(7);
    assert!(same(&avm.pop(), &Value::Undefined));
    avm.push(Value::from_i32(1));
    avm.push(Value::from_i32(2));
    assert!(same(&avm.pop(), &Value::from_i32(2)));
    assert!(same(&avm.pop(), &Value::from_i32(1)));
    assert!(same(&avm.pop(), &Value::Undefined));
    avm.set_register(3, Value::from_str("r"));
    avm.set_register(4, Value::from_str("none"));
    assert!(same(&avm.register(3), &Value::from_str("r")));
    assert!(same(&avm.register(4), &Value::Undefined));
}

#[test]
fn push_and_trace() {
    assert_traced(
        Asm::new().push_str("hello").trace().push_int(-3).trace().push_bool(true).trace().push_undefined().trace().op(0x26),
        &[Value::from_str("hello"), Value::from_i32(-3), Value::Bool(true), Value::Undefined, Value::Undefined],
    );
}

#[test]
fn push_reads_registers_and_constants() {
    let pool: Vec<u8> = vec![2, 0, b'a', 0, b'b', b'c', 0];
    assert_traced(
        Asm::new()
            .with_payload(0x88, &pool)
            .push_constant(1)
            .trace()
            .push_constant(0)
            .trace()
            .push_constant(2)
            .trace()
            .push_str("kept")
            .with_payload(0x87, &[2])
            .op(0x17)
            .push_register(2)
            .trace()
            .push_register(3)
            .trace()
            .push_register(9)
            .trace(),
        &[Value::from_str("bc"), Value::from_str("a"), Value::Undefined, Value::from_str("kept"), Value::Undefined, Value::Undefined],
    );
}

#[test]
fn push_of_floating_point_numbers() {
    let mut payload = vec![1];
    payload.extend(2.5f32.to_le_bytes());
    payload.push(6);
    let bits = (-0.125f64).to_bits();
    payload.extend(((bits >> 32) as u32).to_le_bytes());
    payload.extend((bits as u32).to_le_bytes());
    let out = traced(Asm::new().with_payload(0x96, &payload).trace().trace());
    assert!(same(&out[0], &Value::Number(Number::from_bits((-0.125f64).to_bits()))));
    assert!(same(&out[1], &Value::Number(Number::from_bits(2.5f64.to_bits()))));
}

#[test]
fn variables_are_set_and_read() {
    assert_traced(
        Asm::new()
            .push_str("x")
            .push_int(5)
            .op(0x1D)
            .get_variable("x")
            .trace()
            .get_variable("y")
            .trace()
            .push_str("x")
            .push_str("again")
            .op(0x1D)
            .get_variable("x")
            .trace(),
        &[Value::from_i32(5), Value::Undefined, Value::from_str("again")],
    );
}

#[test]
fn a_variable_that_is_set_first_lives_on_the_clip() {
    let (mut avm, clip) = machine();
    run(&mut avm, clip, Asm::new().push_str("made").push_int(1).op(0x1D));
    assert!(avm.heap.has_own_property(clip, "made", true));
    let out = run(&mut avm, clip, Asm::new().get_variable("made").trace());
    assert!(same(&out[0], &Value::from_i32(1)));
    let globals = avm.global_object_cell();
    avm.heap.set(globals, "everywhere", Value::from_str("g"), true);
    let out = run(&mut avm, clip, Asm::new().push_str("everywhere").push_str("h").op(0x1D).get_variable("everywhere").trace());
    assert!(same(&out[0], &Value::from_str("h")));
    assert!(!avm.heap.has_own_property(clip, "everywhere", true));
    assert!(same(&avm.heap.object(globals).unwrap().get_data("everywhere"), &Value::from_str("h")));
}

#[test]
fn names_ignore_case_in_old_movies() {
    let (mut avm, clip) = machine();
    let code = Asm::new().push_str("Name").push_int(1).op(0x1D).get_variable("name").trace();
    avm.run_stack_frame_for_action(clip, 6, &code.bytes);
    assert!(same(&avm.take_trace_output()[0], &Value::from_i32(1)));
    avm.run_stack_frame_for_action(clip, 7, &Asm::new().get_variable("name").trace().bytes);
    assert!(same(&avm.take_trace_output()[0], &Value::Undefined));
}

#[test]
fn local_definitions_and_deletion() {
    assert_traced(
        Asm::new()
            .push_str("a")
            .push_int(1)
            .op(0x3C)
            .push_str("b")
            .op(0x41)
            .push_str("a")
            .op(0x41)
            .get_variable("a")
            .trace()
            .get_variable("b")
            .trace()
            .push_str("a")
            .op(0x3B)
            .trace()
            .push_str("a")
            .op(0x3B)
            .trace()
            .get_variable("a")
            .trace(),
        &[Value::from_i32(1), Value::Undefined, Value::Bool(true), Value::Bool(false), Value::Undefined],
    );
}

#[test]
fn stack_actions() {
    assert_traced(
        Asm::new()
            .push_int(1)
            .push_int(2)
            .op(0x4D)
            .trace()
            .trace()
            .push_str("d")
            .op(0x4C)
            .trace()
            .trace()
            .push_int(3)
            .op(0x17)
            .trace()
            .push_bool(false)
            .op(0x12)
            .trace()
            .push_str("")
            .op(0x12)
            .trace()
            .push_int(4)
            .push_int(4)
            .op(0x66)
            .trace()
            .push_int(4)
            .push_str("4")
            .op(0x66)
            .trace(),
        &[
            Value::from_i32(1),
            Value::from_i32(2),
            Value::from_str("d"),
            Value::from_str("d"),
            Value::Undefined,
            Value::Bool(true),
            Value::Bool(true),
            Value::Bool(true),
            Value::Bool(false),
        ],
    );
}

#[test]
fn truth_values_are_numbers_in_the_oldest_movies() {
    let (mut avm, clip) = machine();
    avm.run_stack_frame_for_action(clip, 4, &Asm::new().push_int(0).op(0x12).trace().push_int(2).op(0x12).trace().bytes);
    let out = avm.take_trace_output();
    assert!(same(&out[0], &Value::from_i32(1)));
    assert!(same(&out[1], &Value::from_i32(0)));
}

#[test]
fn jumps_and_conditions() {
    let skipped = Asm::new().push_str("skipped").trace();
    let n = skipped.bytes.len() as i16;
    let mut code = Asm::new().push_bool(true).jump_if(n);
    code.bytes.extend(&skipped.bytes);
    code = code.push_str("a").trace().push_bool(false).jump_if(n);
    code.bytes.extend(&skipped.bytes);
    code = code.jump(n);
    code.bytes.extend(&skipped.bytes);
    code = code.push_str("b").trace().jump(30000).push_str("never").trace();
    assert_traced(code, &[Value::from_str("a"), Value::from_str("skipped"), Value::from_str("b")]);
}

#[test]
fn a_loop_by_a_backward_jump() {
    let (mut avm, clip) = machine();
    avm.heap.set(clip, "cursor", Value::from_str("n3"), true);
    avm.heap.set(clip, "n3", Value::from_str("n2"), true);
    avm.heap.set(clip, "n2", Value::from_str("n1"), true);
    avm.heap.set(clip, "n1", Value::from_str(""), true);
    let body = Asm::new()
        .get_variable("cursor")
        .op(0x4C)
        .trace()
        .op(0x1C)
        .with_payload(0x87, &[0])
        .op(0x17)
        .push_str("cursor")
        .push_register(0)
        .op(0x1D)
        .push_register(0);
    let back = -((body.bytes.len() + 5) as i16);
    let out = run(&mut avm, clip, body.jump_if(back).push_str("end").trace());
    assert_eq!(out.len(), 4);
    assert!(same(&out[0], &Value::from_str("n3")));
    assert!(same(&out[1], &Value::from_str("n2")));
    assert!(same(&out[2], &Value::from_str("n1")));
    assert!(same(&out[3], &Value::from_str("end")));
    assert!(!avm.is_halted());
}

#[test]
fn members_are_read_and_written() {
    let (mut avm, clip) = machine();
    let object = avm.heap.allocate(ScriptObject::object(None));
    avm.heap.set(clip, "o", Value::Object(object), true);
    let out = run(
        &mut avm,
        clip,
        Asm::new()
            .get_variable("o")
            .push_str("field")
            .push_int(11)
            .op(0x4F)
            .get_variable("o")
            .push_str("field")
            .op(0x4E)
            .trace()
            .get_variable("o")
            .push_str("missing")
            .op(0x4E)
            .trace()
            .push_int(5)
            .push_str("field")
            .op(0x4E)
            .trace()
            .get_variable("o")
            .op(0x44)
            .trace()
            .push_int(1)
            .op(0x44)
            .trace(),
    );
    assert!(same(&out[0], &Value::from_i32(11)));
    assert!(same(&out[1], &Value::Undefined));
    assert!(same(&out[2], &Value::Undefined));
    assert!(same(&out[3], &Value::from_str("object")));
    assert!(same(&out[4], &Value::from_str("number")));
    assert!(same(&avm.heap.object(object).unwrap().get_data("field"), &Value::from_i32(11)));
}

#[test]
fn arrays_are_made_and_follow_their_length() {
    let (mut avm, clip) = machine();
    let out = run(
        &mut avm,
        clip,
        Asm::new()
            .push_str("c")
            .push_str("b")
            .push_str("a")
            .push_int(3)
            .op(0x42)
            .with_payload(0x87, &[1])
            .op(0x17)
            .push_register(1)
            .push_str("length")
            .op(0x4E)
            .trace()
            .push_register(1)
            .push_int(0)
            .op(0x4E)
            .trace()
            .push_register(1)
            .push_int(2)
            .op(0x4E)
            .trace()
            .push_register(1)
            .push_int(9)
            .push_str("far")
            .op(0x4F)
            .push_register(1)
            .push_str("length")
            .op(0x4E)
            .trace()
            .push_register(1)
            .push_str("length")
            .push_int(1)
            .op(0x4F)
            .push_register(1)
            .push_int(2)
            .op(0x4E)
            .trace()
            .push_int(7)
            .op(0x42)
            .push_str("length")
            .op(0x4E)
            .trace(),
    );
    assert!(same(&out[0], &Value::from_i32(3)));
    assert!(same(&out[1], &Value::from_str("a")));
    assert!(same(&out[2], &Value::from_str("c")));
    assert!(same(&out[3], &Value::from_i32(10)));
    assert!(same(&out[4], &Value::Undefined));
    assert!(same(&out[5], &Value::from_i32(0)));
}

#[test]
fn functions_are_called_with_their_arguments() {
    let body = Asm::new().get_variable("a").trace().get_variable("b").trace().push_str("result").op(0x3E).push_str("after return").trace();
    assert_traced(
        Asm::new()
            .function("f", &["a", "b"], body)
            .push_str("second")
            .push_str("first")
            .call("f", 2)
            .trace()
            .push_str("only")
            .call("f", 1)
            .op(0x17)
            .call("nothing", 0)
            .trace()
            .get_variable("f")
            .op(0x44)
            .trace()
            .get_variable("a")
            .trace(),
        &[
            Value::from_str("first"),
            Value::from_str("second"),
            Value::from_str("result"),
            Value::from_str("only"),
            Value::Undefined,
            Value::Undefined,
            Value::from_str("function"),
            Value::Undefined,
        ],
    );
}

#[test]
fn a_function_without_a_name_is_a_value() {
    let body = Asm::new().push_int(42).op(0x3E);
    assert_traced(
        Asm::new().push_str("g").function("", &[], body).op(0x1D).call("g", 0).trace().call("g", -5).trace().call("g", 100).trace(),
        &[Value::from_i32(42), Value::from_i32(42), Value::from_i32(42)],
    );
}

#[test]
fn a_function_that_ends_returns_undefined() {
    assert_traced(Asm::new().function("f", &[], Asm::new().push_str("in").trace()).call("f", 0).trace(), &[Value::from_str("in"), Value::Undefined]);
}

#[test]
fn with_shows_the_properties_of_its_object() {
    let (mut avm, clip) = machine();
    let object = avm.heap.allocate(ScriptObject::object(None));
    avm.heap.set(object, "inside", Value::from_str("seen"), true);
    avm.heap.set(clip, "o", Value::Object(object), true);
    let block = Asm::new().get_variable("inside").trace().push_str("inside").push_str("changed").op(0x1D);
    let out = run(&mut avm, clip, Asm::new().get_variable("o").with_block(block).get_variable("inside").trace().push_int(1).with_block(Asm::new().push_str("skipped").trace()).push_str("end").trace());
    assert_eq!(out.len(), 3);
    assert!(same(&out[0], &Value::from_str("seen")));
    assert!(same(&out[1], &Value::Undefined));
    assert!(same(&out[2], &Value::from_str("end")));
    assert!(same(&avm.heap.object(object).unwrap().get_data("inside"), &Value::from_str("changed")));
}

#[test]
fn a_closure_made_inside_with_does_not_see_the_object_of_with() {
    let (mut avm, clip) = machine();
    let object = avm.heap.allocate(ScriptObject::object(None));
    avm.heap.set(object, "inside", Value::from_str("with"), true);
    avm.heap.set(object, "both", Value::from_str("with"), true);
    avm.heap.set(clip, "both", Value::from_str("clip"), true);
    avm.heap.set(clip, "o", Value::Object(object), true);
    let body = Asm::new().get_variable("inside").trace().get_variable("both").trace();
    let block = Asm::new().function("f", &[], body).get_variable("inside").trace().call("f", 0).op(0x17);
    let out = run(&mut avm, clip, Asm::new().get_variable("o").with_block(block).call("f", 0).op(0x17));
    let expected = [Value::from_str("with"), Value::Undefined, Value::from_str("clip"), Value::Undefined, Value::from_str("clip")];
    assert_eq!(out.len(), expected.len());
    for (a, b) in out.iter().zip(&expected) {
        assert!(same(a, b), "{:?}", out);
    }
}

#[test]
fn a_closure_sees_the_variables_of_the_function_that_made_it() {
    let inner = Asm::new().get_variable("captured").op(0x3E);
    let outer = Asm::new().push_str("captured").push_str("yes").op(0x3C).function("", &[], inner).op(0x3E);
    assert_traced(
        Asm::new().function("make", &[], outer).push_str("h").call("make", 0).op(0x1D).call("h", 0).trace().get_variable("captured").trace(),
        &[Value::from_str("yes"), Value::Undefined],
    );
}

#[test]
fn timeline_actions_are_queued_for_the_target() {
    let (mut avm, clip) = machine();
    let child = avm.heap.allocate(ScriptObject::object(None));
    avm.heap.set(clip, "child", Value::Object(child), true);
    avm.heap.set(child, "mark", Value::from_str("child"), true);
    run(
        &mut avm,
        clip,
        Asm::new()
            .op(0x06)
            .with_payload(0x81, &[4, 0])
            .with_payload(0x8B, b"child\0")
            .op(0x07)
            .get_variable("mark")
            .trace()
            .with_payload(0x8B, b"nobody\0")
            .op(0x04)
            .with_payload(0x8B, b"\0")
            .op(0x05),
    );
    assert_eq!(
        avm.take_commands(),
        vec![
            ClipCommand { clip, action: ClipAction::Play },
            ClipCommand { clip, action: ClipAction::GotoFrame(4) },
            ClipCommand { clip: child, action: ClipAction::Stop },
            ClipCommand { clip, action: ClipAction::PreviousFrame },
        ]
    );
    assert!(avm.take_commands().is_empty());
}

#[test]
fn tell_target_puts_the_clip_on_the_scope_chain() {
    let (mut avm, clip) = machine();
    let child = avm.heap.allocate(ScriptObject::object(None));
    avm.heap.set(clip, "child", Value::Object(child), true);
    avm.heap.set(child, "mark", Value::from_str("child"), true);
    avm.heap.set(clip, "mark", Value::from_str("parent"), true);
    let out = run(
        &mut avm,
        clip,
        Asm::new().get_variable("mark").trace().with_payload(0x8B, b"child\0").get_variable("mark").trace().with_payload(0x8B, b"\0").get_variable("mark").trace(),
    );
    assert!(same(&out[0], &Value::from_str("parent")));
    assert!(same(&out[1], &Value::from_str("child")));
    assert!(same(&out[2], &Value::from_str("parent")));
}

#[test]
fn wait_for_frame_skips_actions_while_the_frame_is_not_loaded() {
    let (mut avm, clip) = machine();
    let code = || Asm::new().with_payload(0x8A, &[5, 0, 2]).push_str("skipped").trace().push_str("ran").trace();
    let out = run(&mut avm, clip, code());
    assert_eq!(out.len(), 2);
    avm.heap.set(clip, "_framesloaded", Value::from_i32(5), true);
    let out = run(&mut avm, clip, code());
    assert_eq!(out.len(), 1);
    assert!(same(&out[0], &Value::from_str("ran")));
    avm.heap.set(clip, "_framesloaded", Value::from_i32(6), true);
    assert_eq!(run(&mut avm, clip, code()).len(), 2);
}

#[test]
fn skipping_reads_whole_actions() {
    let code = Asm::new().push_str("a").trace().op(0x04).push_int(1);
    let mut reader = ActionReader::new(&code.bytes, 7);
    skip_actions(&mut reader, 2);
    assert_eq!(reader.pos, 7);
    skip_actions(&mut reader, 0);
    assert_eq!(reader.pos, 7);
    skip_actions(&mut reader, 200);
    assert_eq!(reader.pos, code.bytes.len());
    let broken = [0x81u8, 0x05];
    let mut reader = ActionReader::new(&broken, 7);
    skip_actions(&mut reader, 3);
    assert_eq!(reader.pos, 0);
}

#[test]
fn a_thrown_value_is_logged_and_the_action_abandoned() {
    let (mut avm, clip) = machine();
    let out = run(&mut avm, clip, Asm::new().push_str("before").trace().push_str("boom").op(0x2A).push_str("after").trace());
    assert_eq!(out.len(), 2);
    assert!(same(&out[0], &Value::from_str("before")));
    assert!(same(&out[1], &Value::from_str("boom")));
    assert!(!avm.is_halted());
    assert!(!avm.has_stack_frame());
    let out = run(&mut avm, clip, Asm::new().function("f", &[], Asm::new().push_int(7).op(0x2A)).call("f", 0).push_str("after").trace());
    assert_eq!(out.len(), 1);
    assert!(same(&out[0], &Value::from_i32(7)));
    assert!(!avm.has_stack_frame());
    let out = run(&mut avm, clip, Asm::new().push_str("next").trace());
    assert_eq!(out.len(), 1);
}

#[test]
fn what_is_logged_for_an_error() {
    let (mut avm, clip) = machine();
    root_error_handler(&mut avm, clip, 7, Error::ThrownValue(Value::from_i32(1)));
    let out = avm.take_trace_output();
    assert_eq!(out.len(), 1);
    assert!(same(&out[0], &Value::from_i32(1)));
    root_error_handler(&mut avm, clip, 7, Error::ExecutionTimeout);
    root_error_handler(&mut avm, clip, 7, Error::NoStackFrame);
    assert!(avm.take_trace_output().is_empty());
    assert!(!avm.is_halted());
    assert!(same(&Error::NativeFunctionError("bad".to_string()).into_thrown().unwrap(), &Value::from_str("bad")));
    assert!(Error::InvalidBytecode.into_thrown().is_none());
    assert!(!Error::ThrownValue(Value::Null).is_halting());
    assert!(!Error::NoStackFrame.is_halting());
    assert!(Error::FunctionRecursionLimit.is_halting());
    assert!(Error::ExecutionTimeout.is_halting());
    assert!(Error::InvalidBytecode.is_halting());
}

#[test]
fn a_halted_machine_runs_nothing() {
    let (mut avm, clip) = machine();
    avm.halt();
    assert!(avm.is_halted());
    let before = format!("{:?}", avm);
    avm.run_stack_frame_for_action(clip, 7, &Asm::new().push_str("x").trace().push_str("v").push_int(1).op(0x1D).op(0x06).bytes);
    avm.run_stack_frame_for_init_action(clip, 7, &Asm::new().push_str("x").trace().bytes);
    avm.run_stack_frame_for_method(clip, clip, 7, "anything", vec![Value::Null]);
    assert_eq!(format!("{:?}", avm), before);
    avm.halt();
    assert_eq!(format!("{:?}", avm), before);
}

#[test]
fn malformed_code_halts_the_machine() {
    let (mut avm, clip) = machine();
    let out = run(&mut avm, clip, Asm::new().push_str("ok").trace().with_payload(0x96, &[42]).push_str("never").trace());
    assert_eq!(out.len(), 1);
    assert!(avm.is_halted());
    assert!(!avm.has_stack_frame());
    assert!(run(&mut avm, clip, Asm::new().push_str("later").trace()).is_empty());
}

#[test]
fn unbounded_recursion_halts_the_machine() {
    let (mut avm, clip) = machine();
    let out = run(&mut avm, clip, Asm::new().function("f", &[], Asm::new().push_str("in").trace().call("f", 0)).call("f", 0).push_str("never").trace());
    assert_eq!(out.len(), MAX_CALL_DEPTH - 1);
    assert!(avm.is_halted());
    assert!(!avm.has_stack_frame());
}

#[test]
fn a_run_that_takes_too_long_is_ended() {
    let (mut avm, clip) = machine();
    let code = Asm::new().jump(-5);
    avm.run_stack_frame_for_action(clip, 7, &Asm::new().bytes);
    let scope = avm.global_scope;
    avm.codes.push(code.bytes.clone());
    let code_id = avm.codes.len() - 1;
    avm.stack_frames.push(avm_core::avm1::activation::Activation::from_action(7, code_id, scope, clip, None, false));
    assert!(matches!(avm.run(0, 1000), Err(Error::ExecutionTimeout)));
    assert!(avm.has_stack_frame());
    assert!(matches!(avm.run(1, 1000), Ok(())));
    avm.stack_frames.clear();
    assert!(matches!(avm.step(), Err(Error::NoStackFrame)));
}

#[test]
fn unknown_actions_are_passed_over() {
    assert_traced(Asm::new().op(0x0A).with_payload(0xF1, &[1, 2, 3]).push_str("still here").trace(), &[Value::from_str("still here")]);
}

#[test]
fn init_actions_begin_with_undefined_on_the_stack() {
    let (mut avm, clip) = machine();
    avm.run_stack_frame_for_init_action(clip, 7, &Asm::new().trace().push_str("body").trace().bytes);
    let out = avm.take_trace_output();
    assert!(same(&out[0], &Value::Undefined));
    assert!(same(&out[1], &Value::from_str("body")));
}

#[test]
fn a_method_runs_on_its_object() {
    let (mut avm, clip) = machine();
    run(&mut avm, clip, Asm::new().function("handler", &["what"], Asm::new().get_variable("what").trace().push_str("ignored").op(0x3E)));
    let handler = avm.heap.object(clip).unwrap().get_data("handler");
    let proto = avm.heap.allocate(ScriptObject::object(None));
    let object = avm.heap.allocate(ScriptObject::object(Some(proto)));
    avm.heap.define_value(proto, "onEvent", handler, Attributes::empty());
    avm.run_stack_frame_for_method(clip, object, 7, "onEvent", vec![Value::from_str("clicked")]);
    let out = avm.take_trace_output();
    assert_eq!(out.len(), 1);
    assert!(same(&out[0], &Value::from_str("clicked")));
    assert!(avm.stack.is_empty());
    assert!(!avm.has_stack_frame());
    avm.run_stack_frame_for_method(clip, object, 7, "missing", vec![]);
    assert!(avm.take_trace_output().is_empty());
    avm.run_stack_frame_for_method(clip, 9999, 7, "onEvent", vec![]);
    assert!(avm.take_trace_output().is_empty());
}

#[test]
fn getters_and_setters_of_scripts_are_called() {
    let (mut avm, clip) = machine();
    run(
        &mut avm,
        clip,
        Asm::new()
            .function("getter", &[], Asm::new().push_str("got").op(0x3E))
            .function("setter", &["v"], Asm::new().get_variable("v").trace()),
    );
    let getter = avm.heap.object(clip).unwrap().get_data("getter").as_object().unwrap();
    let setter = avm.heap.object(clip).unwrap().get_data("setter").as_object().unwrap();
    let mut object = ScriptObject::object(None);
    object.add_property("p", getter, Some(setter), Attributes::empty());
    let object = avm.heap.allocate(object);
    avm.heap.set(clip, "o", Value::Object(object), true);
    let out = run(&mut avm, clip, Asm::new().get_variable("o").push_str("p").op(0x4E).trace().get_variable("o").push_str("p").push_int(5).op(0x4F).push_str("done").trace());
    assert_eq!(out.len(), 3);
    assert!(same(&out[0], &Value::from_str("got")));
    assert!(same(&out[1], &Value::from_i32(5)));
    assert!(same(&out[2], &Value::from_str("done")));
    assert!(avm.stack.is_empty());
    assert!(matches!(avm.heap.get(object, "p", true), Ok(ReturnValue::Deferred { .. })));
}

#[test]
fn an_activation_runs_until_it_returns() {
    let (mut avm, clip) = machine();
    let scope = avm.global_scope;
    avm.codes.push(Asm::new().push_str("ran").trace().push_int(9).op(0x3E).bytes);
    let code = avm.codes.len() - 1;
    let activation = avm_core::avm1::activation::Activation::from_action(7, code, scope, clip, None, true);
    assert_eq!(activation.swf_version(), 7);
    assert_eq!(activation.base_clip(), clip);
    assert_eq!(activation.target_clip(), Some(clip));
    assert_eq!(activation.scope_cell(), scope);
    assert!(activation.can_return());
    assert!(avm.run_activation(activation).is_ok());
    assert!(same(&avm.pop(), &Value::from_i32(9)));
    assert_eq!(avm.take_trace_output().len(), 1);
    avm.codes.push(Asm::new().push_str("thrown").op(0x2A).bytes);
    let throwing = avm_core::avm1::activation::Activation::from_action(7, code + 1, scope, clip, None, false);
    assert!(matches!(avm.run_activation(throwing), Err(Error::ThrownValue(_))));
    assert!(!avm.is_halted());
    assert!(!avm.has_stack_frame());
    assert!(avm.take_trace_output().is_empty());
    avm.codes.push(vec![0x81]);
    let broken = avm_core::avm1::activation::Activation::from_action(7, code + 2, scope, clip, None, false);
    assert!(matches!(avm.run_activation(broken), Err(Error::InvalidBytecode)));
    assert!(avm.is_halted());
}

#[test]
fn the_listeners_of_the_system_are_told_in_their_order() {
    let (mut avm, clip) = machine();
    run(&mut avm, clip, Asm::new().function("tell", &["what"], Asm::new().get_variable("what").trace().get_variable("mark").trace()));
    let tell = avm.heap.object(clip).unwrap().get_data("tell");
    let mut listeners = vec![];
    for mark in ["first", "second", "third"] {
        let mut listener = ScriptObject::object(None);
        if mark != "second" {
            listener.set("onKeyDown", tell.duplicate());
        }
        listener.set("mark", Value::from_str(mark));
        listeners.push(avm.heap.allocate(listener));
    }
    avm.heap.set(clip, "mark", Value::from_str("clip"), true);
    avm.notify_system_listeners(clip, 7, &listeners, "onKeyDown", &vec![Value::from_i32(65)]);
    let out = avm.take_trace_output();
    assert_eq!(out.len(), 4);
    assert!(same(&out[0], &Value::from_i32(65)));
    assert!(same(&out[1], &Value::from_str("clip")));
    assert!(same(&out[2], &Value::from_i32(65)));
    avm.halt();
    avm.notify_system_listeners(clip, 7, &listeners, "onKeyDown", &vec![]);
    assert!(avm.take_trace_output().is_empty());
}

#[test]
fn the_machine_collects_what_it_does_not_hold() {
    let (mut avm, clip) = machine();
    let lost = avm.heap.allocate(ScriptObject::object(None));
    let kept_by_caller = avm.heap.allocate(ScriptObject::object(None));
    avm.heap.set(lost, "mark", Value::from_i32(1), true);
    avm.heap.set(kept_by_caller, "mark", Value::from_i32(2), true);
    run(&mut avm, clip, Asm::new().function("f", &[], Asm::new().push_int(1).op(0x3E)).push_str("o").push_int(0).op(0x42).op(0x1D).op(0x06));
    let array = avm.heap.object(clip).unwrap().get_data("o").as_object().unwrap();
    let function = avm.heap.object(clip).unwrap().get_data("f").as_object().unwrap();
    avm.push(Value::Object(array));
    avm.heap.set(clip, "o", Value::Null, true);
    let roots = avm.roots(&vec![kept_by_caller]);
    assert_eq!(&roots[..4], &[avm.global_object_cell(), avm.prototypes().object, avm.prototypes().function, avm.prototypes().array]);
    assert_eq!(roots.last(), Some(&kept_by_caller));
    assert!(roots.contains(&array) && roots.contains(&function) && roots.contains(&clip));
    assert!(!roots.contains(&lost));
    avm.collect_garbage(&vec![kept_by_caller]);
    assert!(avm.heap.object(lost).unwrap().properties.is_empty());
    assert_eq!(avm.heap.get_keys(kept_by_caller), vec!["mark".to_string()]);
    assert_eq!(length_of(&avm, array), 0);
    assert!(avm.heap.has_own_property(array, "length", true));
    assert!(avm.heap.has_own_property(clip, "f", true));
    assert_eq!(avm.heap.object(function).unwrap().type_of(), "function");
    let out = run(&mut avm, clip, Asm::new().call("f", 0).trace());
    assert!(same(&out[0], &Value::from_i32(1)));
    avm.take_commands();
    avm.pop();
    avm.collect_garbage(&vec![]);
    assert!(!avm.heap.has_own_property(array, "length", true));
    assert!(avm.heap.get_keys(kept_by_caller).is_empty());
}

fn length_of(avm: &Avm1, array: usize) -> i32 {
    avm_core::avm1::array_object::ArrayObject(array).length(&avm.heap)
}

#[test]
fn a_constructor_fills_the_object_it_is_called_on() {
    let (mut avm, clip) = machine();
    let out = run(
        &mut avm,
        clip,
        Asm::new()
            .function(
                "Point",
                &["x"],
                Asm::new().get_variable("this").push_str("x").get_variable("x").op(0x4F),
            )
            .get_variable("Point")
            .push_str("prototype")
            .op(0x4E)
            .push_str("getX")
            .function("", &[], Asm::new().get_variable("this").push_str("x").op(0x4E).op(0x3E))
            .op(0x4F)
            .push_str("p")
            .push_int(7)
            .push_int(1)
            .push_str("Point")
            .op(0x40)
            .op(0x1D)
            .push_int(0)
            .get_variable("p")
            .push_str("getX")
            .op(0x52)
            .trace()
            .push_int(0)
            .get_variable("p")
            .push_str("missing")
            .op(0x52)
            .trace()
            .get_variable("this")
            .op(0x44)
            .trace(),
    );
    assert_eq!(out.len(), 3, "traced {:?}", out);
    assert!(same(&out[0], &Value::from_i32(7)));
    assert!(same(&out[1], &Value::Undefined));
    assert!(same(&out[2], &Value::from_str("object")));
    assert!(avm.stack.is_empty());
    assert!(!avm.is_halted());
    let point = match avm.heap.object(clip).unwrap().get_data("Point") {
        Value::Object(f) => f,
        other => panic!("no constructor: {:?}", other),
    };
    let prototype = match avm.heap.object(point).unwrap().get_data("prototype") {
        Value::Object(p) => p,
        other => panic!("no prototype: {:?}", other),
    };
    let made = match avm.heap.object(clip).unwrap().get_data("p") {
        Value::Object(p) => p,
        other => panic!("nothing constructed: {:?}", other),
    };
    assert_eq!(avm.heap.proto(made), Some(prototype));
    assert_eq!(avm.heap.proto(prototype), Some(avm.prototypes().object));
    assert!(same(&avm.heap.object(made).unwrap().get_data("x"), &Value::from_i32(7)));
    assert!(!avm.heap.object(point).unwrap().is_property_enumerable("prototype", true));
}

#[test]
fn what_is_constructed_from_no_function_is_undefined() {
    assert_traced(
        Asm::new().push_int(0).push_str("Nothing").op(0x40).trace().push_int(0).push_int(3).push_str("f").op(0x52).trace(),
        &[Value::Undefined, Value::Undefined],
    );
}

#[test]
fn an_object_is_called_under_the_empty_name() {
    assert_traced(
        Asm::new()
            .function("twice", &["a"], Asm::new().get_variable("a").get_variable("a").trace().op(0x3E))
            .push_int(4)
            .push_int(1)
            .get_variable("twice")
            .push_str("")
            .op(0x52)
            .trace(),
        &[Value::from_i32(4), Value::from_i32(4)],
    );
}

#[test]
fn the_type_of_a_clip_is_its_own() {
    let (mut avm, clip) = machine();
    let mut node = ScriptObject::object(None);
    node.set_display_node(4);
    let child = avm.heap.allocate(node);
    avm.heap.set(clip, "child", Value::Object(child), true);
    let out = run(&mut avm, clip, Asm::new().get_variable("child").op(0x44).trace().get_variable("this").op(0x44).trace());
    assert!(same(&out[0], &Value::from_str("movieclip")));
    assert!(same(&out[1], &Value::from_str("object")));
}

fn thrower() -> Asm {
    Asm::new()
        .function("E", &[], Asm::new())
        .get_variable("E")
        .push_str("prototype")
        .op(0x4E)
        .push_str("toString")
        .function("", &[], Asm::new().push_str("custom text").op(0x3E))
        .op(0x4F)
        .push_int(0)
        .push_str("E")
        .op(0x40)
        .op(0x2A)
        .push_str("after")
        .trace()
}

#[test]
fn a_thrown_object_is_logged_as_the_text_that_it_gives_of_itself() {
    let (mut avm, clip) = machine();
    let out = run(&mut avm, clip, thrower());
    assert_eq!(out.len(), 1, "traced {:?}", out);
    assert!(same(&out[0], &Value::from_str("custom text")));
    assert!(!avm.is_halted());
    assert!(!avm.has_stack_frame());
    assert!(avm.stack.is_empty());
}

#[test]
fn a_thrown_object_without_a_text_of_its_own_is_logged_by_its_default_text() {
    let (mut avm, clip) = machine();
    let plain = avm.heap.allocate(ScriptObject::object(Some(avm.prototypes().object)));
    root_error_handler(&mut avm, clip, 7, Error::ThrownValue(Value::Object(plain)));
    let function = avm.heap.allocate(ScriptObject::function(None));
    root_error_handler(&mut avm, clip, 7, Error::ThrownValue(Value::Object(function)));
    let out = avm.take_trace_output();
    assert_eq!(out.len(), 2);
    assert!(same(&out[0], &Value::from_str("[object Object]")));
    assert!(same(&out[1], &Value::from_str("[type Function]")));
    assert!(!avm.has_stack_frame());
}

#[test]
fn a_thrown_object_whose_text_throws_is_logged_by_its_default_text() {
    let (mut avm, clip) = machine();
    run(&mut avm, clip, Asm::new().function("bad", &[], Asm::new().push_str("inner").op(0x2A)).function("deep", &[], Asm::new().call("deep", 0).op(0x3E)));
    let bad = avm.heap.object(clip).unwrap().get_data("bad");
    let deep = avm.heap.object(clip).unwrap().get_data("deep");
    let object = avm.heap.allocate(ScriptObject::object(None));
    avm.heap.define_value(object, "toString", bad, Attributes::empty());
    root_error_handler(&mut avm, clip, 7, Error::ThrownValue(Value::Object(object)));
    let out = avm.take_trace_output();
    assert_eq!(out.len(), 1);
    assert!(same(&out[0], &Value::from_str("[object Object]")));
    assert!(!avm.is_halted());
    assert!(!avm.has_stack_frame());
    let endless = avm.heap.allocate(ScriptObject::object(None));
    avm.heap.define_value(endless, "toString", deep, Attributes::empty());
    root_error_handler(&mut avm, clip, 7, Error::ThrownValue(Value::Object(endless)));
    let out = avm.take_trace_output();
    assert_eq!(out.len(), 1);
    assert!(same(&out[0], &Value::from_str("undefined")));
    assert!(avm.is_halted());
    assert!(!avm.has_stack_frame());
}

#[test]
fn a_thrown_object_that_cannot_be_converted_is_logged_as_undefined() {
    let (mut avm, clip) = machine();
    let knot = avm.heap.allocate(ScriptObject::object(None));
    avm.heap.set_proto(knot, Some(knot));
    root_error_handler(&mut avm, clip, 7, Error::ThrownValue(Value::Object(knot)));
    avm.halt();
    let plain = avm.heap.allocate(ScriptObject::object(None));
    root_error_handler(&mut avm, clip, 7, Error::ThrownValue(Value::Object(plain)));
    let out = avm.take_trace_output();
    assert_eq!(out.len(), 2);
    assert!(same(&out[0], &Value::from_str("undefined")));
    assert!(same(&out[1], &Value::from_str("undefined")));
}
