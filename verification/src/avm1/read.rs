//! Reading actions from their binary form.
//!
//! An action begins with its code. A code of 0x80 or more is followed by
//! the length of the payload, in two bytes, and by the payload. The code 0
//! ends a list of actions. Numbers are stored with the least significant
//! byte first, texts as UTF-8 with a zero byte at their end.

use byteorder::ByteOrder;
use vstd::prelude::*;
use vstd::slice::*;
use vstd::utf8::{decode_utf8, valid_utf8};

verus! {

pub const END: u8 = 0x00;

pub const NEXT_FRAME: u8 = 0x04;

pub const PREVIOUS_FRAME: u8 = 0x05;

pub const PLAY: u8 = 0x06;

pub const STOP: u8 = 0x07;

pub const NOT: u8 = 0x12;

pub const POP: u8 = 0x17;

pub const GET_VARIABLE: u8 = 0x1C;

pub const SET_VARIABLE: u8 = 0x1D;

pub const TRACE: u8 = 0x26;

pub const THROW: u8 = 0x2A;

pub const DELETE2: u8 = 0x3B;

pub const DEFINE_LOCAL: u8 = 0x3C;

pub const CALL_FUNCTION: u8 = 0x3D;

pub const RETURN: u8 = 0x3E;

pub const NEW_OBJECT: u8 = 0x40;

pub const DEFINE_LOCAL2: u8 = 0x41;

pub const INIT_ARRAY: u8 = 0x42;

pub const TYPE_OF: u8 = 0x44;

pub const PUSH_DUPLICATE: u8 = 0x4C;

pub const STACK_SWAP: u8 = 0x4D;

pub const GET_MEMBER: u8 = 0x4E;

pub const SET_MEMBER: u8 = 0x4F;

pub const CALL_METHOD: u8 = 0x52;

pub const STRICT_EQUALS: u8 = 0x66;

pub const GOTO_FRAME: u8 = 0x81;

pub const STORE_REGISTER: u8 = 0x87;

pub const CONSTANT_POOL: u8 = 0x88;

pub const WAIT_FOR_FRAME: u8 = 0x8A;

pub const SET_TARGET: u8 = 0x8B;

pub const WITH: u8 = 0x94;

pub const PUSH: u8 = 0x96;

pub const JUMP: u8 = 0x99;

pub const DEFINE_FUNCTION: u8 = 0x9B;

pub const IF: u8 = 0x9D;

/// Why reading failed.
#[derive(Copy, Clone, Debug, PartialEq, Eq, Structural)]
pub enum ReadError {
    /// The bytes end before the code of an action, or before the length of
    /// its payload.
    UnexpectedEof,
    /// The payload of an action is not what its code calls for.
    InvalidData,
}

/// A value that `Push` puts on the stack.
#[derive(Debug)]
pub enum PushValue {
    Str(String),
    /// A binary32 number, as its bit pattern.
    Float(u32),
    Null,
    Undefined,
    Register(u8),
    Bool(bool),
    /// A binary64 number, as its bit pattern.
    Double(u64),
    Int(i32),
    /// An entry of the constant pool.
    Constant(u16),
}

pub enum PushView {
    Str(Seq<char>),
    Float(u32),
    Null,
    Undefined,
    Register(u8),
    Bool(bool),
    Double(u64),
    Int(i32),
    Constant(u16),
}

impl View for PushValue {
    type V = PushView;

    open spec fn view(&self) -> PushView {
        match self {
            PushValue::Str(s) => PushView::Str(s@),
            PushValue::Float(b) => PushView::Float(*b),
            PushValue::Null => PushView::Null,
            PushValue::Undefined => PushView::Undefined,
            PushValue::Register(r) => PushView::Register(*r),
            PushValue::Bool(b) => PushView::Bool(*b),
            PushValue::Double(b) => PushView::Double(*b),
            PushValue::Int(i) => PushView::Int(*i),
            PushValue::Constant(c) => PushView::Constant(*c),
        }
    }
}

/// An action.
#[derive(Debug)]
pub enum Action {
    NextFrame,
    PreviousFrame,
    Play,
    Stop,
    GotoFrame(u16),
    Not,
    Pop,
    GetVariable,
    SetVariable,
    Trace,
    Throw,
    Delete2,
    DefineLocal,
    CallFunction,
    Return,
    NewObject,
    DefineLocal2,
    InitArray,
    TypeOf,
    PushDuplicate,
    StackSwap,
    GetMember,
    SetMember,
    CallMethod,
    StrictEquals,
    StoreRegister(u8),
    ConstantPool(Vec<String>),
    WaitForFrame { frame: u16, num_actions_to_skip: u8 },
    SetTarget(String),
    With { code_length: u16 },
    Push(Vec<PushValue>),
    Jump { offset: i16 },
    DefineFunction { name: String, params: Vec<String>, code_length: u16 },
    If { offset: i16 },
    /// An action that is not known: its code and its payload.
    Unknown { opcode: u8, data: Vec<u8> },
}

pub enum ActionView {
    NextFrame,
    PreviousFrame,
    Play,
    Stop,
    GotoFrame(u16),
    Not,
    Pop,
    GetVariable,
    SetVariable,
    Trace,
    Throw,
    Delete2,
    DefineLocal,
    CallFunction,
    Return,
    NewObject,
    DefineLocal2,
    InitArray,
    TypeOf,
    PushDuplicate,
    StackSwap,
    GetMember,
    SetMember,
    CallMethod,
    StrictEquals,
    StoreRegister(u8),
    ConstantPool(Seq<Seq<char>>),
    WaitForFrame { frame: u16, num_actions_to_skip: u8 },
    SetTarget(Seq<char>),
    With { code_length: u16 },
    Push(Seq<PushView>),
    Jump { offset: i16 },
    DefineFunction { name: Seq<char>, params: Seq<Seq<char>>, code_length: u16 },
    If { offset: i16 },
    Unknown { opcode: u8, data: Seq<u8> },
}

/// The texts of a list of strings.
pub open spec fn texts(strings: Seq<String>) -> Seq<Seq<char>> {
    Seq::new(strings.len(), |i: int| strings[i]@)
}

/// The views of a list of pushed values.
pub open spec fn push_views(values: Seq<PushValue>) -> Seq<PushView> {
    Seq::new(values.len(), |i: int| values[i]@)
}

/// The views of a list of actions.
pub open spec fn action_views(actions: Seq<Action>) -> Seq<ActionView> {
    Seq::new(actions.len(), |i: int| actions[i]@)
}

impl View for Action {
    type V = ActionView;

    open spec fn view(&self) -> ActionView {
        match self {
            Action::NextFrame => ActionView::NextFrame,
            Action::PreviousFrame => ActionView::PreviousFrame,
            Action::Play => ActionView::Play,
            Action::Stop => ActionView::Stop,
            Action::GotoFrame(f) => ActionView::GotoFrame(*f),
            Action::Not => ActionView::Not,
            Action::Pop => ActionView::Pop,
            Action::GetVariable => ActionView::GetVariable,
            Action::SetVariable => ActionView::SetVariable,
            Action::Trace => ActionView::Trace,
            Action::Throw => ActionView::Throw,
            Action::Delete2 => ActionView::Delete2,
            Action::DefineLocal => ActionView::DefineLocal,
            Action::CallFunction => ActionView::CallFunction,
            Action::Return => ActionView::Return,
            Action::NewObject => ActionView::NewObject,
            Action::DefineLocal2 => ActionView::DefineLocal2,
            Action::InitArray => ActionView::InitArray,
            Action::TypeOf => ActionView::TypeOf,
            Action::PushDuplicate => ActionView::PushDuplicate,
            Action::StackSwap => ActionView::StackSwap,
            Action::GetMember => ActionView::GetMember,
            Action::SetMember => ActionView::SetMember,
            Action::CallMethod => ActionView::CallMethod,
            Action::StrictEquals => ActionView::StrictEquals,
            Action::StoreRegister(r) => ActionView::StoreRegister(*r),
            Action::ConstantPool(c) => ActionView::ConstantPool(texts(c@)),
            Action::WaitForFrame { frame, num_actions_to_skip } => ActionView::WaitForFrame {
                frame: *frame,
                num_actions_to_skip: *num_actions_to_skip,
            },
            Action::SetTarget(t) => ActionView::SetTarget(t@),
            Action::With { code_length } => ActionView::With { code_length: *code_length },
            Action::Push(v) => ActionView::Push(push_views(v@)),
            Action::Jump { offset } => ActionView::Jump { offset: *offset },
            Action::DefineFunction { name, params, code_length } => ActionView::DefineFunction {
                name: name@,
                params: texts(params@),
                code_length: *code_length,
            },
            Action::If { offset } => ActionView::If { offset: *offset },
            Action::Unknown { opcode, data } => ActionView::Unknown { opcode: *opcode, data: data@ },
        }
    }
}

/// The unsigned 16-bit number at a position.
pub open spec fn u16_at(data: Seq<u8>, pos: int) -> Option<u16> {
    if 0 <= pos && pos + 2 <= data.len() {
        Some((data[pos] + 256 * data[pos + 1]) as u16)
    } else {
        None
    }
}

/// The unsigned 32-bit number at a position.
pub open spec fn u32_at(data: Seq<u8>, pos: int) -> Option<u32> {
    if 0 <= pos && pos + 4 <= data.len() {
        Some(
            (data[pos] + 256 * data[pos + 1] + 65536 * data[pos + 2] + 16777216 * data[pos
                + 3]) as u32,
        )
    } else {
        None
    }
}

/// The position of the first zero byte at or after a position.
pub open spec fn nul_at(data: Seq<u8>, pos: int) -> Option<int>
    decreases data.len() - pos,
{
    if pos < 0 || pos >= data.len() {
        None
    } else if data[pos] == 0 {
        Some(pos)
    } else {
        nul_at(data, pos + 1)
    }
}

/// The text at a position, and the position behind its zero byte.
pub open spec fn cstring_at(data: Seq<u8>, pos: int) -> Option<(Seq<char>, int)> {
    match nul_at(data, pos) {
        Some(end) => if valid_utf8(data.subrange(pos, end)) {
            Some((decode_utf8(data.subrange(pos, end)), end + 1))
        } else {
            None
        },
        None => None,
    }
}

/// The `count` texts that begin at a position, and the position behind them.
pub open spec fn cstrings_at(data: Seq<u8>, pos: int, count: nat) -> Option<(Seq<Seq<char>>, int)>
    decreases count,
{
    if count == 0 {
        Some((Seq::empty(), pos))
    } else {
        match cstrings_at(data, pos, (count - 1) as nat) {
            Some((first, p)) => match cstring_at(data, p) {
                Some((s, q)) => Some((first.push(s), q)),
                None => None,
            },
            None => None,
        }
    }
}

/// The value to push at a position, and the position behind it.
pub open spec fn push_value_at(data: Seq<u8>, pos: int) -> Option<(PushView, int)> {
    if pos < 0 || pos >= data.len() {
        None
    } else {
        let kind = data[pos];
        let at = pos + 1;
        if kind == 0 {
            match cstring_at(data, at) {
                Some((s, p)) => Some((PushView::Str(s), p)),
                None => None,
            }
        } else if kind == 1 {
            match u32_at(data, at) {
                Some(b) => Some((PushView::Float(b), at + 4)),
                None => None,
            }
        } else if kind == 2 {
            Some((PushView::Null, at))
        } else if kind == 3 {
            Some((PushView::Undefined, at))
        } else if kind == 4 {
            if at < data.len() {
                Some((PushView::Register(data[at]), at + 1))
            } else {
                None
            }
        } else if kind == 5 {
            if at < data.len() {
                Some((PushView::Bool(data[at] != 0), at + 1))
            } else {
                None
            }
        } else if kind == 6 {
            match (u32_at(data, at), u32_at(data, at + 4)) {
                (Some(high), Some(low)) => Some(
                    (PushView::Double((high as int * 0x1_0000_0000 + low as int) as u64), at + 8),
                ),
                _ => None,
            }
        } else if kind == 7 {
            match u32_at(data, at) {
                Some(b) => Some((PushView::Int(as_i32(b)), at + 4)),
                None => None,
            }
        } else if kind == 8 {
            if at < data.len() {
                Some((PushView::Constant(data[at] as u16), at + 1))
            } else {
                None
            }
        } else if kind == 9 {
            match u16_at(data, at) {
                Some(c) => Some((PushView::Constant(c), at + 2)),
                None => None,
            }
        } else {
            None
        }
    }
}

/// A list of values with more in front of it.
pub open spec fn prepend(first: Seq<PushView>, rest: Option<Seq<PushView>>) -> Option<
    Seq<PushView>,
> {
    match rest {
        Some(r) => Some(first + r),
        None => None,
    }
}

/// The signed number with the bits of an unsigned 16-bit number.
pub open spec fn as_i16(x: u16) -> i16 {
    if x >= 0x8000 {
        (x - 0x1_0000) as i16
    } else {
        x as i16
    }
}

/// The signed number with the bits of an unsigned 32-bit number.
pub open spec fn as_i32(x: u32) -> i32 {
    if x >= 0x8000_0000 {
        (x - 0x1_0000_0000) as i32
    } else {
        x as i32
    }
}

/// The values to push from a position to the end of the payload.
pub open spec fn push_values_at(data: Seq<u8>, pos: int) -> Option<Seq<PushView>>
    decreases data.len() - pos,
{
    if pos < 0 || pos >= data.len() {
        Some(Seq::empty())
    } else {
        match push_value_at(data, pos) {
            Some((v, p)) => if pos < p <= data.len() {
                match push_values_at(data, p) {
                    Some(rest) => Some(seq![v] + rest),
                    None => None,
                }
            } else {
                None
            },
            None => None,
        }
    }
}

/// The action that a code and a payload denote, if the payload is what the
/// code calls for. A code that is not known denotes an unknown action.
pub open spec fn decode(opcode: u8, data: Seq<u8>) -> Option<ActionView> {
    if opcode == NEXT_FRAME {
        Some(ActionView::NextFrame)
    } else if opcode == PREVIOUS_FRAME {
        Some(ActionView::PreviousFrame)
    } else if opcode == PLAY {
        Some(ActionView::Play)
    } else if opcode == STOP {
        Some(ActionView::Stop)
    } else if opcode == NOT {
        Some(ActionView::Not)
    } else if opcode == POP {
        Some(ActionView::Pop)
    } else if opcode == GET_VARIABLE {
        Some(ActionView::GetVariable)
    } else if opcode == SET_VARIABLE {
        Some(ActionView::SetVariable)
    } else if opcode == TRACE {
        Some(ActionView::Trace)
    } else if opcode == THROW {
        Some(ActionView::Throw)
    } else if opcode == DELETE2 {
        Some(ActionView::Delete2)
    } else if opcode == DEFINE_LOCAL {
        Some(ActionView::DefineLocal)
    } else if opcode == CALL_FUNCTION {
        Some(ActionView::CallFunction)
    } else if opcode == RETURN {
        Some(ActionView::Return)
    } else if opcode == NEW_OBJECT {
        Some(ActionView::NewObject)
    } else if opcode == CALL_METHOD {
        Some(ActionView::CallMethod)
    } else if opcode == DEFINE_LOCAL2 {
        Some(ActionView::DefineLocal2)
    } else if opcode == INIT_ARRAY {
        Some(ActionView::InitArray)
    } else if opcode == TYPE_OF {
        Some(ActionView::TypeOf)
    } else if opcode == PUSH_DUPLICATE {
        Some(ActionView::PushDuplicate)
    } else if opcode == STACK_SWAP {
        Some(ActionView::StackSwap)
    } else if opcode == GET_MEMBER {
        Some(ActionView::GetMember)
    } else if opcode == SET_MEMBER {
        Some(ActionView::SetMember)
    } else if opcode == STRICT_EQUALS {
        Some(ActionView::StrictEquals)
    } else if opcode == GOTO_FRAME {
        match u16_at(data, 0) {
            Some(frame) => Some(ActionView::GotoFrame(frame)),
            None => None,
        }
    } else if opcode == STORE_REGISTER {
        if data.len() >= 1 {
            Some(ActionView::StoreRegister(data[0]))
        } else {
            None
        }
    } else if opcode == CONSTANT_POOL {
        match u16_at(data, 0) {
            Some(count) => match cstrings_at(data, 2, count as nat) {
                Some((pool, _)) => Some(ActionView::ConstantPool(pool)),
                None => None,
            },
            None => None,
        }
    } else if opcode == WAIT_FOR_FRAME {
        match u16_at(data, 0) {
            Some(frame) => if data.len() >= 3 {
                Some(ActionView::WaitForFrame { frame, num_actions_to_skip: data[2] })
            } else {
                None
            },
            None => None,
        }
    } else if opcode == SET_TARGET {
        match cstring_at(data, 0) {
            Some((target, _)) => Some(ActionView::SetTarget(target)),
            None => None,
        }
    } else if opcode == WITH {
        match u16_at(data, 0) {
            Some(code_length) => Some(ActionView::With { code_length }),
            None => None,
        }
    } else if opcode == PUSH {
        match push_values_at(data, 0) {
            Some(values) => Some(ActionView::Push(values)),
            None => None,
        }
    } else if opcode == JUMP {
        match u16_at(data, 0) {
            Some(offset) => Some(ActionView::Jump { offset: as_i16(offset) }),
            None => None,
        }
    } else if opcode == IF {
        match u16_at(data, 0) {
            Some(offset) => Some(ActionView::If { offset: as_i16(offset) }),
            None => None,
        }
    } else if opcode == DEFINE_FUNCTION {
        match cstring_at(data, 0) {
            Some((name, p)) => match u16_at(data, p) {
                Some(count) => match cstrings_at(data, p + 2, count as nat) {
                    Some((params, q)) => match u16_at(data, q) {
                        Some(code_length) => Some(
                            ActionView::DefineFunction { name, params, code_length },
                        ),
                        None => None,
                    },
                    None => None,
                },
                None => None,
            },
            None => None,
        }
    } else {
        Some(ActionView::Unknown { opcode, data })
    }
}

/// The code of the action at a position, the length of its payload, and the
/// position of the payload.
pub open spec fn header_at(bytes: Seq<u8>, pos: int) -> Result<(u8, int, int), ReadError> {
    if pos < 0 || pos >= bytes.len() {
        Err(ReadError::UnexpectedEof)
    } else if bytes[pos] >= 0x80 {
        match u16_at(bytes, pos + 1) {
            Some(length) => Ok((bytes[pos], length as int, pos + 3)),
            None => Err(ReadError::UnexpectedEof),
        }
    } else {
        Ok((bytes[pos], 0, pos + 1))
    }
}

/// Where the payload that begins at `start` ends: after `length` bytes, or
/// where the bytes end if that is earlier.
pub open spec fn payload_end(bytes: Seq<u8>, start: int, length: int) -> int {
    if start + length <= bytes.len() {
        start + length
    } else {
        bytes.len() as int
    }
}

/// The action at a position and the position behind it; no action where the
/// list of actions ends there.
pub open spec fn action_at(bytes: Seq<u8>, pos: int) -> Result<(Option<ActionView>, int), ReadError> {
    match header_at(bytes, pos) {
        Err(e) => Err(e),
        Ok((opcode, length, start)) => if opcode == END {
            Ok((None, start))
        } else {
            let end = payload_end(bytes, start, length);
            match decode(opcode, bytes.subrange(start, end)) {
                Some(action) => Ok((Some(action), end)),
                None => Err(ReadError::InvalidData),
            }
        },
    }
}

/// A list of actions with more in front of it.
pub open spec fn prepend_actions(
    first: Seq<ActionView>,
    rest: Result<(Seq<ActionView>, int), ReadError>,
) -> Result<(Seq<ActionView>, int), ReadError> {
    match rest {
        Ok((r, p)) => Ok((first + r, p)),
        Err(e) => Err(e),
    }
}

/// The actions from a position up to the end of their list, and the
/// position behind the end.
pub open spec fn actions_at(bytes: Seq<u8>, pos: int) -> Result<(Seq<ActionView>, int), ReadError>
    decreases bytes.len() - pos,
{
    match action_at(bytes, pos) {
        Err(e) => Err(e),
        Ok((None, p)) => Ok((Seq::empty(), p)),
        Ok((Some(action), p)) => if p > pos {
            prepend_actions(seq![action], actions_at(bytes, p))
        } else {
            Err(ReadError::InvalidData)
        },
    }
}

/// `byteorder::LittleEndian::read_u16`: the number whose two bytes the slice
/// begins with, the least significant first. The slice has to hold two
/// bytes; the function panics on a shorter one.
#[verifier::external_body]
fn le_u16(buf: &[u8]) -> (r: u16)
    requires
        buf@.len() >= 2,
    ensures
        r == buf@[0] + 256 * buf@[1],
{
    byteorder::LittleEndian::read_u16(buf)
}

/// `byteorder::LittleEndian::read_u32`: the number whose four bytes the
/// slice begins with, the least significant first. The slice has to hold
/// four bytes; the function panics on a shorter one.
#[verifier::external_body]
fn le_u32(buf: &[u8]) -> (r: u32)
    requires
        buf@.len() >= 4,
    ensures
        r == buf@[0] + 256 * buf@[1] + 65536 * buf@[2] + 16777216 * buf@[3],
{
    byteorder::LittleEndian::read_u32(buf)
}

/// `String::from_utf8`: the text that the bytes encode in UTF-8, and none
/// where they are no UTF-8.
#[verifier::external_body]
fn string_from_utf8(bytes: Vec<u8>) -> (r: Option<String>)
    ensures
        match r {
            Some(s) => valid_utf8(bytes@) && s@ == decode_utf8(bytes@),
            None => !valid_utf8(bytes@),
        },
{
    match String::from_utf8(bytes) {
        Ok(s) => Some(s),
        Err(_) => None,
    }
}

fn signed_16(x: u16) -> (r: i16)
    ensures
        r == as_i16(x),
{
    if x >= 0x8000 {
        let wide: i32 = x as i32 - 0x1_0000;
        wide as i16
    } else {
        x as i16
    }
}

fn signed_32(x: u32) -> (r: i32)
    ensures
        r == as_i32(x),
{
    if x >= 0x8000_0000 {
        let wide: i64 = x as i64 - 0x1_0000_0000;
        wide as i32
    } else {
        x as i32
    }
}

fn read_u16_at(data: &[u8], pos: usize) -> (r: Option<u16>)
    ensures
        r == u16_at(data@, pos as int),
{
    if pos <= data.len() && data.len() - pos >= 2 {
        Some(le_u16(slice_subrange(data, pos, pos + 2)))
    } else {
        None
    }
}

fn read_u32_at(data: &[u8], pos: usize) -> (r: Option<u32>)
    ensures
        r == u32_at(data@, pos as int),
{
    if pos <= data.len() && data.len() - pos >= 4 {
        Some(le_u32(slice_subrange(data, pos, pos + 4)))
    } else {
        None
    }
}

fn find_nul(data: &[u8], pos: usize) -> (r: Option<usize>)
    ensures
        match r {
            Some(end) => nul_at(data@, pos as int) == Some(end as int) && pos <= end < data@.len(),
            None => nul_at(data@, pos as int) is None,
        },
{
    let mut i: usize = pos;
    while i < data.len()
        invariant
            pos <= i,
            nul_at(data@, pos as int) == nul_at(data@, i as int),
        decreases data@.len() - i,
    {
        if data[i] == 0 {
            return Some(i);
        }
        i = i + 1;
    }
    None
}

fn read_cstring_at(data: &[u8], pos: usize) -> (r: Option<(String, usize)>)
    ensures
        match r {
            Some((s, p)) => cstring_at(data@, pos as int) == Some((s@, p as int)) && pos < p
                <= data@.len(),
            None => cstring_at(data@, pos as int) is None,
        },
{
    let n: usize = data.len();
    match find_nul(data, pos) {
        Some(end) => {
            let bytes = slice_to_vec(slice_subrange(data, pos, end));
            match string_from_utf8(bytes) {
                Some(s) => Some((s, end + 1)),
                None => None,
            }
        },
        None => None,
    }
}

proof fn lemma_cstrings_fail(data: Seq<u8>, pos: int, k: nat, count: nat)
    requires
        k <= count,
        cstrings_at(data, pos, k) is None,
    ensures
        cstrings_at(data, pos, count) is None,
    decreases count,
{
    if k < count {
        lemma_cstrings_fail(data, pos, k, (count - 1) as nat);
    }
}

fn read_cstrings_at(data: &[u8], pos: usize, count: u16) -> (r: Option<(Vec<String>, usize)>)
    ensures
        match r {
            Some((s, p)) => cstrings_at(data@, pos as int, count as nat) == Some(
                (texts(s@), p as int),
            ) && (p <= data@.len() || p == pos),
            None => cstrings_at(data@, pos as int, count as nat) is None,
        },
{
    let mut out: Vec<String> = Vec::new();
    let mut at: usize = pos;
    let mut i: u16 = 0;
    assert(texts(out@) =~= Seq::empty());
    while i < count
        invariant
            i <= count,
            at <= data@.len() || at == pos,
            cstrings_at(data@, pos as int, i as nat) == Some((texts(out@), at as int)),
        decreases count - i,
    {
        match read_cstring_at(data, at) {
            Some((s, p)) => {
                let ghost before = texts(out@);
                out.push(s);
                assert(texts(out@) =~= before.push(s@));
                at = p;
                i = i + 1;
            },
            None => {
                proof {
                    assert(cstrings_at(data@, pos as int, (i + 1) as nat) is None);
                    lemma_cstrings_fail(data@, pos as int, (i + 1) as nat, count as nat);
                }
                return None;
            },
        }
    }
    Some((out, at))
}

fn read_push_value_at(data: &[u8], pos: usize) -> (r: Option<(PushValue, usize)>)
    ensures
        match r {
            Some((v, p)) => push_value_at(data@, pos as int) == Some((v@, p as int)) && pos < p
                <= data@.len(),
            None => push_value_at(data@, pos as int) is None,
        },
{
    if pos >= data.len() {
        return None;
    }
    let kind: u8 = data[pos];
    let at: usize = pos + 1;
    if kind == 0 {
        match read_cstring_at(data, at) {
            Some((s, p)) => Some((PushValue::Str(s), p)),
            None => None,
        }
    } else if kind == 1 {
        match read_u32_at(data, at) {
            Some(b) => Some((PushValue::Float(b), at + 4)),
            None => None,
        }
    } else if kind == 2 {
        Some((PushValue::Null, at))
    } else if kind == 3 {
        Some((PushValue::Undefined, at))
    } else if kind == 4 {
        if at < data.len() {
            Some((PushValue::Register(data[at]), at + 1))
        } else {
            None
        }
    } else if kind == 5 {
        if at < data.len() {
            Some((PushValue::Bool(data[at] != 0), at + 1))
        } else {
            None
        }
    } else if kind == 6 {
        match read_u32_at(data, at) {
            Some(high) => match read_u32_at(data, at + 4) {
                Some(low) => {
                    let wide: u64 = (high as u64) * 0x1_0000_0000 + (low as u64);
                    Some((PushValue::Double(wide), at + 8))
                },
                None => None,
            },
            None => None,
        }
    } else if kind == 7 {
        match read_u32_at(data, at) {
            Some(b) => Some((PushValue::Int(signed_32(b)), at + 4)),
            None => None,
        }
    } else if kind == 8 {
        if at < data.len() {
            Some((PushValue::Constant(data[at] as u16), at + 1))
        } else {
            None
        }
    } else if kind == 9 {
        match read_u16_at(data, at) {
            Some(c) => Some((PushValue::Constant(c), at + 2)),
            None => None,
        }
    } else {
        None
    }
}

fn read_push_values(data: &[u8]) -> (r: Option<Vec<PushValue>>)
    ensures
        match r {
            Some(v) => push_values_at(data@, 0) == Some(push_views(v@)),
            None => push_values_at(data@, 0) is None,
        },
{
    let mut out: Vec<PushValue> = Vec::new();
    let mut at: usize = 0;
    assert(push_views(out@) =~= Seq::empty());
    assert(Seq::<PushView>::empty() + push_values_at(data@, 0).unwrap() =~= push_values_at(
        data@,
        0,
    ).unwrap());
    while at < data.len()
        invariant
            at <= data@.len(),
            push_values_at(data@, 0) == prepend(push_views(out@), push_values_at(data@, at as int)),
        decreases data@.len() - at,
    {
        match read_push_value_at(data, at) {
            Some((v, p)) => {
                let ghost before = push_views(out@);
                out.push(v);
                proof {
                    assert(push_views(out@) =~= before.push(v@));
                    match push_values_at(data@, p as int) {
                        Some(rest) => {
                            assert(before + (seq![v@] + rest) =~= push_views(out@) + rest);
                        },
                        None => {},
                    }
                }
                at = p;
            },
            None => {
                return None;
            },
        }
    }
    assert(push_views(out@) + Seq::<PushView>::empty() =~= push_views(out@));
    Some(out)
}

/// The action that a code and a payload denote.
fn decode_action(opcode: u8, data: &[u8]) -> (r: Option<Action>)
    ensures
        match r {
            Some(a) => decode(opcode, data@) == Some(a@),
            None => decode(opcode, data@) is None,
        },
{
    if opcode == NEXT_FRAME {
        Some(Action::NextFrame)
    } else if opcode == PREVIOUS_FRAME {
        Some(Action::PreviousFrame)
    } else if opcode == PLAY {
        Some(Action::Play)
    } else if opcode == STOP {
        Some(Action::Stop)
    } else if opcode == NOT {
        Some(Action::Not)
    } else if opcode == POP {
        Some(Action::Pop)
    } else if opcode == GET_VARIABLE {
        Some(Action::GetVariable)
    } else if opcode == SET_VARIABLE {
        Some(Action::SetVariable)
    } else if opcode == TRACE {
        Some(Action::Trace)
    } else if opcode == THROW {
        Some(Action::Throw)
    } else if opcode == DELETE2 {
        Some(Action::Delete2)
    } else if opcode == DEFINE_LOCAL {
        Some(Action::DefineLocal)
    } else if opcode == CALL_FUNCTION {
        Some(Action::CallFunction)
    } else if opcode == RETURN {
        Some(Action::Return)
    } else if opcode == NEW_OBJECT {
        Some(Action::NewObject)
    } else if opcode == CALL_METHOD {
        Some(Action::CallMethod)
    } else if opcode == DEFINE_LOCAL2 {
        Some(Action::DefineLocal2)
    } else if opcode == INIT_ARRAY {
        Some(Action::InitArray)
    } else if opcode == TYPE_OF {
        Some(Action::TypeOf)
    } else if opcode == PUSH_DUPLICATE {
        Some(Action::PushDuplicate)
    } else if opcode == STACK_SWAP {
        Some(Action::StackSwap)
    } else if opcode == GET_MEMBER {
        Some(Action::GetMember)
    } else if opcode == SET_MEMBER {
        Some(Action::SetMember)
    } else if opcode == STRICT_EQUALS {
        Some(Action::StrictEquals)
    } else if opcode == GOTO_FRAME {
        match read_u16_at(data, 0) {
            Some(frame) => Some(Action::GotoFrame(frame)),
            None => None,
        }
    } else if opcode == STORE_REGISTER {
        if data.len() >= 1 {
            Some(Action::StoreRegister(data[0]))
        } else {
            None
        }
    } else if opcode == CONSTANT_POOL {
        match read_u16_at(data, 0) {
            Some(count) => match read_cstrings_at(data, 2, count) {
                Some((pool, _)) => Some(Action::ConstantPool(pool)),
                None => None,
            },
            None => None,
        }
    } else if opcode == WAIT_FOR_FRAME {
        match read_u16_at(data, 0) {
            Some(frame) => if data.len() >= 3 {
                Some(Action::WaitForFrame { frame, num_actions_to_skip: data[2] })
            } else {
                None
            },
            None => None,
        }
    } else if opcode == SET_TARGET {
        match read_cstring_at(data, 0) {
            Some((target, _)) => Some(Action::SetTarget(target)),
            None => None,
        }
    } else if opcode == WITH {
        match read_u16_at(data, 0) {
            Some(code_length) => Some(Action::With { code_length }),
            None => None,
        }
    } else if opcode == PUSH {
        match read_push_values(data) {
            Some(values) => Some(Action::Push(values)),
            None => None,
        }
    } else if opcode == JUMP {
        match read_u16_at(data, 0) {
            Some(offset) => Some(Action::Jump { offset: signed_16(offset) }),
            None => None,
        }
    } else if opcode == IF {
        match read_u16_at(data, 0) {
            Some(offset) => Some(Action::If { offset: signed_16(offset) }),
            None => None,
        }
    } else if opcode == DEFINE_FUNCTION {
        let n: usize = data.len();
        match read_cstring_at(data, 0) {
            Some((name, p)) => match read_u16_at(data, p) {
                Some(count) => match read_cstrings_at(data, p + 2, count) {
                    Some((params, q)) => match read_u16_at(data, q) {
                        Some(code_length) => Some(
                            Action::DefineFunction { name, params, code_length },
                        ),
                        None => None,
                    },
                    None => None,
                },
                None => None,
            },
            None => None,
        }
    } else {
        Some(Action::Unknown { opcode, data: slice_to_vec(data) })
    }
}

/// A reader of actions: the bytes, the position in them, and the version of
/// the movie they come from.
pub struct ActionReader<'a> {
    pub inner: &'a [u8],
    pub pos: usize,
    pub version: u8,
}

impl<'a> ActionReader<'a> {
    /// A reader at the beginning of the bytes.
    pub fn new(inner: &'a [u8], version: u8) -> (r: ActionReader<'a>)
        ensures
            r.inner@ == inner@,
            r.pos == 0,
            r.version == version,
    {
        ActionReader { inner, pos: 0, version }
    }

    /// Reads the code of the next action and the length of its payload. On
    /// an error the reader stays where it is.
    pub fn read_opcode_and_length(&mut self) -> (r: Result<(u8, usize), ReadError>)
        ensures
            final(self).inner@ == old(self).inner@,
            final(self).version == old(self).version,
            match header_at(old(self).inner@, old(self).pos as int) {
                Ok((opcode, length, start)) => r == Ok::<(u8, usize), ReadError>(
                    (opcode, length as usize),
                ) && final(self).pos == start,
                Err(e) => r == Err::<(u8, usize), ReadError>(e) && final(self).pos == old(self).pos,
            },
    {
        if self.pos >= self.inner.len() {
            return Err(ReadError::UnexpectedEof);
        }
        let opcode: u8 = self.inner[self.pos];
        if opcode >= 0x80 {
            match read_u16_at(self.inner, self.pos + 1) {
                Some(length) => {
                    self.pos = self.pos + 3;
                    Ok((opcode, length as usize))
                },
                None => Err(ReadError::UnexpectedEof),
            }
        } else {
            self.pos = self.pos + 1;
            Ok((opcode, 0))
        }
    }

    /// Reads the next action; none where the list of actions ends. On an
    /// error the reader stays where it is.
    pub fn read_action(&mut self) -> (r: Result<Option<Action>, ReadError>)
        ensures
            final(self).inner@ == old(self).inner@,
            final(self).version == old(self).version,
            match action_at(old(self).inner@, old(self).pos as int) {
                Ok((Some(action), next)) => r matches Ok(Some(a)) && a@ == action && final(self).pos == next && next > old(self).pos,
                Ok((None, next)) => r matches Ok(None) && final(self).pos == next,
                Err(e) => r matches Err(x) && x == e && final(self).pos == old(self).pos,
            },
    {
        let start: usize = self.pos;
        let (opcode, length) = match self.read_opcode_and_length() {
            Ok(h) => h,
            Err(e) => {
                return Err(e);
            },
        };
        if opcode == END {
            return Ok(None);
        }
        let begin: usize = self.pos;
        let end: usize = if self.inner.len() - begin >= length {
            begin + length
        } else {
            self.inner.len()
        };
        match decode_action(opcode, slice_subrange(self.inner, begin, end)) {
            Some(action) => {
                self.pos = end;
                Ok(Some(action))
            },
            None => {
                self.pos = start;
                Err(ReadError::InvalidData)
            },
        }
    }

    /// Reads the actions up to the end of their list. On an error the
    /// reader stays where the error was met.
    pub fn read_action_list(&mut self) -> (r: Result<Vec<Action>, ReadError>)
        ensures
            final(self).inner@ == old(self).inner@,
            final(self).version == old(self).version,
            match actions_at(old(self).inner@, old(self).pos as int) {
                Ok((actions, next)) => r matches Ok(a) && action_views(a@) == actions && final(self).pos == next,
                Err(e) => r matches Err(x) && x == e,
            },
    {
        let mut actions: Vec<Action> = Vec::new();
        let ghost bytes = self.inner@;
        let ghost begin = self.pos as int;
        proof {
            assert(action_views(actions@) =~= Seq::empty());
            match actions_at(bytes, begin) {
                Ok((rest, p)) => {
                    assert(Seq::<ActionView>::empty() + rest =~= rest);
                },
                Err(_) => {},
            }
        }
        loop
            invariant
                self.inner@ == bytes,
                bytes == old(self).inner@,
                begin == old(self).pos,
                self.version == old(self).version,
                actions_at(bytes, begin) == prepend_actions(
                    action_views(actions@),
                    actions_at(bytes, self.pos as int),
                ),
            decreases bytes.len() - self.pos,
        {
            let ghost here = self.pos as int;
            match self.read_action() {
                Ok(Some(action)) => {
                    let ghost before = action_views(actions@);
                    actions.push(action);
                    proof {
                        assert(action_views(actions@) =~= before.push(action@));
                        match actions_at(bytes, self.pos as int) {
                            Ok((rest, p)) => {
                                assert(before + (seq![action@] + rest) =~= action_views(actions@)
                                    + rest);
                            },
                            Err(_) => {},
                        }
                    }
                    if self.pos > self.inner.len() {
                        return Err(ReadError::InvalidData);
                    }
                },
                Ok(None) => {
                    assert(action_views(actions@) + Seq::<ActionView>::empty() =~= action_views(
                        actions@,
                    ));
                    return Ok(actions);
                },
                Err(e) => {
                    return Err(e);
                },
            }
        }
    }
}

} // verus!
