use avm_core::avm1::read::{Action, ActionReader, PushValue, ReadError};

fn list(bytes: &[u8]) -> Result<Vec<Action>, ReadError> {
    ActionReader::new(bytes, 7).read_action_list()
}

#[test]
fn a_list_ends_with_the_end_action() {
    let actions = list(&[0x04, 0x07, 0x00, 0x06]).unwrap();
    assert_eq!(actions.len(), 2);
    assert!(matches!(actions[0], Action::NextFrame));
    assert!(matches!(actions[1], Action::Stop));
    assert!(list(&[0x00]).unwrap().is_empty());
}

#[test]
fn a_list_without_an_end_is_cut_short() {
    assert_eq!(list(&[]).unwrap_err(), ReadError::UnexpectedEof);
    assert_eq!(list(&[0x04]).unwrap_err(), ReadError::UnexpectedEof);
    assert_eq!(list(&[0x81]).unwrap_err(), ReadError::UnexpectedEof);
    assert_eq!(list(&[0x81, 0x02]).unwrap_err(), ReadError::UnexpectedEof);
}

#[test]
fn a_length_is_read_with_the_least_significant_byte_first() {
    let mut reader = ActionReader::new(&[0xF0, 0x02, 0x01, 0x05], 5);
    assert_eq!(reader.read_opcode_and_length(), Ok((0xF0, 0x0102)));
    assert_eq!(reader.pos, 3);
    assert_eq!(reader.read_opcode_and_length(), Ok((0x05, 0)));
    assert_eq!(reader.pos, 4);
    assert_eq!(reader.read_opcode_and_length(), Err(ReadError::UnexpectedEof));
    assert_eq!(reader.pos, 4);
    assert_eq!(reader.version, 5);
}

#[test]
fn an_unknown_action_keeps_its_payload() {
    let actions = list(&[0xF0, 0x03, 0x00, 1, 2, 3, 0x0A, 0x00]).unwrap();
    assert_eq!(actions.len(), 2);
    match &actions[0] {
        Action::Unknown { opcode, data } => {
            assert_eq!(*opcode, 0xF0);
            assert_eq!(data, &vec![1, 2, 3]);
        }
        other => panic!("{:?}", other),
    }
    assert!(matches!(&actions[1], Action::Unknown { opcode: 0x0A, data } if data.is_empty()));
}

#[test]
fn a_payload_that_is_cut_short_ends_where_the_bytes_end() {
    let mut reader = ActionReader::new(&[0xF0, 0x05, 0x00, 9, 8], 7);
    match reader.read_action() {
        Ok(Some(Action::Unknown { data, .. })) => assert_eq!(data, vec![9, 8]),
        other => panic!("{:?}", other),
    }
    assert_eq!(reader.pos, 5);
    assert!(matches!(reader.read_action(), Err(ReadError::UnexpectedEof)));
}

#[test]
fn goto_frame_holds_its_frame() {
    let actions = list(&[0x81, 0x02, 0x00, 0x34, 0x12, 0x00]).unwrap();
    assert!(matches!(actions[0], Action::GotoFrame(0x1234)));
    assert_eq!(list(&[0x81, 0x01, 0x00, 0x34, 0x00]).unwrap_err(), ReadError::InvalidData);
}

#[test]
fn push_holds_values_of_every_kind() {
    let mut bytes = vec![0x96, 0, 0];
    let payload: Vec<u8> = vec![
        0, b'h', b'i', 0,
        1, 0x00, 0x00, 0x80, 0x3F,
        2,
        3,
        4, 2,
        5, 1,
        6, 0x00, 0x00, 0xF0, 0x3F, 0x00, 0x00, 0x00, 0x00,
        7, 0xFE, 0xFF, 0xFF, 0xFF,
        8, 9,
        9, 0x01, 0x02,
    ];
    bytes[1] = payload.len() as u8;
    bytes.extend(&payload);
    bytes.push(0);
    let actions = list(&bytes).unwrap();
    match &actions[0] {
        Action::Push(values) => {
            assert_eq!(values.len(), 10);
            assert!(matches!(&values[0], PushValue::Str(s) if s == "hi"));
            assert!(matches!(values[1], PushValue::Float(bits) if bits == 1.0f32.to_bits()));
            assert!(matches!(values[2], PushValue::Null));
            assert!(matches!(values[3], PushValue::Undefined));
            assert!(matches!(values[4], PushValue::Register(2)));
            assert!(matches!(values[5], PushValue::Bool(true)));
            assert!(matches!(values[6], PushValue::Double(bits) if bits == 1.0f64.to_bits()));
            assert!(matches!(values[7], PushValue::Int(-2)));
            assert!(matches!(values[8], PushValue::Constant(9)));
            assert!(matches!(values[9], PushValue::Constant(0x0201)));
        }
        other => panic!("{:?}", other),
    }
}

#[test]
fn a_push_of_an_unknown_kind_is_invalid() {
    assert_eq!(list(&[0x96, 0x01, 0x00, 10, 0x00]).unwrap_err(), ReadError::InvalidData);
    assert_eq!(list(&[0x96, 0x02, 0x00, 7, 1, 0x00]).unwrap_err(), ReadError::InvalidData);
    assert_eq!(list(&[0x96, 0x03, 0x00, 0, b'a', b'b', 0x00]).unwrap_err(), ReadError::InvalidData);
}

#[test]
fn texts_are_utf8() {
    let mut bytes = vec![0x8B, 0, 0];
    let text = "clip é€😀";
    bytes[1] = (text.len() + 1) as u8;
    bytes.extend(text.as_bytes());
    bytes.push(0);
    bytes.push(0);
    match &list(&bytes).unwrap()[0] {
        Action::SetTarget(path) => assert_eq!(path, text),
        other => panic!("{:?}", other),
    }
    assert_eq!(list(&[0x8B, 0x03, 0x00, 0xFF, 0xFE, 0x00, 0x00]).unwrap_err(), ReadError::InvalidData);
    assert_eq!(list(&[0x8B, 0x02, 0x00, 0xC3, 0x00, 0x00]).unwrap_err(), ReadError::InvalidData);
}

#[test]
fn define_function_holds_name_parameters_and_length() {
    let mut payload = vec![];
    payload.extend(b"f\0");
    payload.extend([2, 0]);
    payload.extend(b"a\0bc\0");
    payload.extend([0x10, 0x00]);
    let mut bytes = vec![0x9B, payload.len() as u8, 0];
    bytes.extend(&payload);
    bytes.push(0);
    match &list(&bytes).unwrap()[0] {
        Action::DefineFunction { name, params, code_length } => {
            assert_eq!(name, "f");
            assert_eq!(params, &vec!["a".to_string(), "bc".to_string()]);
            assert_eq!(*code_length, 16);
        }
        other => panic!("{:?}", other),
    }
    let mut short = vec![0x9B, 5, 0];
    short.extend(b"f\0");
    short.extend([2, 0, b'a']);
    short.push(0);
    assert_eq!(list(&short).unwrap_err(), ReadError::InvalidData);
}

#[test]
fn the_other_actions_with_payloads() {
    let bytes = [
        0x87, 1, 0, 3,
        0x8A, 3, 0, 5, 0, 2,
        0x94, 2, 0, 9, 0,
        0x99, 2, 0, 0xFE, 0xFF,
        0x9D, 2, 0, 0x00, 0x80,
        0x88, 7, 0, 2, 0, b'x', 0, b'y', b'z', 0,
        0x00,
    ];
    let actions = list(&bytes).unwrap();
    assert!(matches!(actions[0], Action::StoreRegister(3)));
    assert!(matches!(actions[1], Action::WaitForFrame { frame: 5, num_actions_to_skip: 2 }));
    assert!(matches!(actions[2], Action::With { code_length: 9 }));
    assert!(matches!(actions[3], Action::Jump { offset: -2 }));
    assert!(matches!(actions[4], Action::If { offset: i16::MIN }));
    assert!(matches!(&actions[5], Action::ConstantPool(pool) if pool == &vec!["x".to_string(), "yz".to_string()]));
}

#[test]
fn the_actions_without_payloads() {
    let codes = [0x04u8, 0x05, 0x06, 0x07, 0x12, 0x17, 0x1C, 0x1D, 0x26, 0x2A, 0x3B, 0x3C, 0x3D, 0x3E, 0x41, 0x42, 0x44, 0x4C, 0x4D, 0x4E, 0x4F, 0x66];
    let mut bytes = codes.to_vec();
    bytes.push(0);
    let actions = list(&bytes).unwrap();
    assert_eq!(actions.len(), codes.len());
    assert!(matches!(actions[0], Action::NextFrame));
    assert!(matches!(actions[1], Action::PreviousFrame));
    assert!(matches!(actions[2], Action::Play));
    assert!(matches!(actions[4], Action::Not));
    assert!(matches!(actions[5], Action::Pop));
    assert!(matches!(actions[6], Action::GetVariable));
    assert!(matches!(actions[7], Action::SetVariable));
    assert!(matches!(actions[8], Action::Trace));
    assert!(matches!(actions[9], Action::Throw));
    assert!(matches!(actions[10], Action::Delete2));
    assert!(matches!(actions[11], Action::DefineLocal));
    assert!(matches!(actions[12], Action::CallFunction));
    assert!(matches!(actions[13], Action::Return));
    assert!(matches!(actions[14], Action::DefineLocal2));
    assert!(matches!(actions[15], Action::InitArray));
    assert!(matches!(actions[16], Action::TypeOf));
    assert!(matches!(actions[17], Action::PushDuplicate));
    assert!(matches!(actions[18], Action::StackSwap));
    assert!(matches!(actions[19], Action::GetMember));
    assert!(matches!(actions[20], Action::SetMember));
    assert!(matches!(actions[21], Action::StrictEquals));
}
