use avm_core::avm2::error::Error;
use avm_core::avm2::events::{next_handler, phase_uses_capture, DispatchList, Event, EventDispatch, EventPhase, Visit};
use avm_core::avm2::object::{class_is_type, Class, DispatchObject, Object};
use avm_core::avm2::property::{Attribute, AttributeSet, Property};
use avm_core::avm2::return_value::ReturnValue;
use avm_core::avm2::{Avm2, CallNode, ScriptLoad};
use avm_core::value::Value;

fn same(a: &Value, b: &Value) -> bool {
    format!("{:?}", a) == format!("{:?}", b)
}

/// Dispatches an event as a host does. A handler is carried out by `react`, which gets the
/// handler and the visit and may change the event. Returns the handlers that ran, with the
/// phase in which and the object on which each ran.
fn dispatch(avm: &Avm2, event: &mut Event, target: usize, react: &mut dyn FnMut(usize, &mut Event)) -> Vec<(usize, usize, EventPhase)> {
    let mut ran = vec![];
    let mut dispatch = avm.dispatch_event(event, target);
    while let Some(visit) = dispatch.begin_visit(event) {
        let name = event.event_type().to_string();
        let handlers = avm.handlers_of(visit.object, &name, phase_uses_capture(visit.phase));
        let mut index = 0;
        while let Some(handler) = next_handler(&handlers, index, event) {
            assert_eq!(event.current_target(), Some(visit.object));
            assert_eq!(event.phase(), visit.phase);
            ran.push((handler, visit.object, visit.phase));
            react(handler, event);
            index += 1;
        }
    }
    assert!(dispatch.is_done());
    ran
}

fn stage() -> (Avm2, usize, usize, usize) {
    let mut avm = Avm2::new();
    let root = avm.add_object(Object::new(None, 0));
    let mut middle = Object::new(None, 0);
    middle.parent = Some(root);
    let middle = avm.add_object(middle);
    let mut leaf = Object::new(None, 0);
    leaf.parent = Some(middle);
    let leaf = avm.add_object(leaf);
    (avm, root, middle, leaf)
}

#[test]
fn a_new_event_does_not_bubble_and_cannot_be_cancelled() {
    let mut event = Event::new("click");
    assert_eq!(event.event_type(), "click");
    assert!(!event.is_bubbling());
    assert!(!event.is_cancelable());
    assert!(!event.is_cancelled());
    assert!(!event.is_propagation_stopped());
    assert!(!event.is_propagation_stopped_immediately());
    assert_eq!(event.phase(), EventPhase::Bubbling);
    assert_eq!(event.target(), None);
    assert_eq!(event.current_target(), None);
    event.set_event_type("move");
    event.set_bubbles(true);
    event.set_phase(EventPhase::Capturing);
    event.set_target(3);
    event.set_current_target(4);
    assert_eq!(event.event_type(), "move");
    assert!(event.is_bubbling());
    assert_eq!(event.phase(), EventPhase::Capturing);
    assert_eq!((event.target(), event.current_target()), (Some(3), Some(4)));
    assert_eq!(EventPhase::Capturing.into_u32(), 1);
    assert_eq!(EventPhase::AtTarget.into_u32(), 2);
    assert_eq!(EventPhase::Bubbling.into_u32(), 3);
}

#[test]
fn only_a_cancelable_event_is_cancelled() {
    let mut event = Event::new("e");
    event.cancel();
    assert!(!event.is_cancelled());
    event.set_cancelable(true);
    assert!(event.is_cancelable());
    event.cancel();
    assert!(event.is_cancelled());
    event.set_cancelable(false);
    event.cancel();
    assert!(event.is_cancelled());
}

#[test]
fn an_immediate_stop_stays_an_immediate_stop() {
    let mut event = Event::new("e");
    event.stop_propagation();
    assert!(event.is_propagation_stopped());
    assert!(!event.is_propagation_stopped_immediately());
    event.stop_immediate_propagation();
    assert!(event.is_propagation_stopped());
    assert!(event.is_propagation_stopped_immediately());
    event.stop_propagation();
    assert!(event.is_propagation_stopped_immediately());
}

#[test]
fn handlers_run_by_priority_and_then_by_registration() {
    let mut list = DispatchList::new();
    list.add_event_listener("e", 5, 100, false);
    list.add_event_listener("e", 1, 101, false);
    list.add_event_listener("e", 5, 102, false);
    assert_eq!(list.iter_event_handlers("e", false), vec![100, 102, 101]);
    list.add_event_listener("e", 9, 103, false);
    list.add_event_listener("e", -4, 104, false);
    list.add_event_listener("e", 1, 105, false);
    list.add_event_listener("e", i32::MIN, 106, false);
    list.add_event_listener("e", i32::MAX, 107, false);
    assert_eq!(list.iter_event_handlers("e", false), vec![107, 103, 100, 102, 101, 105, 104, 106]);
    assert!(list.iter_event_handlers("e", true).is_empty());
    assert!(list.iter_event_handlers("other", false).is_empty());
}

#[test]
fn a_listener_is_registered_once() {
    let mut list = DispatchList::new();
    list.add_event_listener("e", 1, 7, false);
    list.add_event_listener("e", 1, 7, false);
    list.add_event_listener("e", 50, 7, false);
    assert_eq!(list.iter_event_handlers("e", false), vec![7]);
    list.add_event_listener("e", 1, 7, true);
    list.add_event_listener("f", 1, 7, false);
    assert_eq!(list.iter_event_handlers("e", false), vec![7]);
    assert_eq!(list.iter_event_handlers("e", true), vec![7]);
    assert_eq!(list.iter_event_handlers("f", false), vec![7]);
    list.add_event_listener("e", 2, 8, false);
    list.add_event_listener("e", 60, 7, false);
    assert_eq!(list.iter_event_handlers("e", false), vec![8, 7]);
}

#[test]
fn a_listener_is_removed_whatever_its_priority() {
    let mut list = DispatchList::new();
    assert!(!list.has_event_listener("e"));
    list.add_event_listener("e", 3, 1, false);
    list.add_event_listener("e", 2, 2, false);
    list.add_event_listener("e", 1, 1, true);
    assert!(list.has_event_listener("e"));
    list.remove_event_listener("e", 1, false);
    assert_eq!(list.iter_event_handlers("e", false), vec![2]);
    assert_eq!(list.iter_event_handlers("e", true), vec![1]);
    list.remove_event_listener("e", 1, false);
    list.remove_event_listener("x", 2, false);
    list.remove_event_listener("e", 2, true);
    assert_eq!(list.iter_event_handlers("e", false), vec![2]);
    list.remove_event_listener("e", 2, false);
    list.remove_event_listener("e", 1, true);
    assert!(!list.has_event_listener("e"));
    list.add_event_listener("e", 0, 1, false);
    assert_eq!(list.iter_event_handlers("e", false), vec![1]);
}

#[test]
fn an_event_that_does_not_bubble_fires_on_its_target_only() {
    let (mut avm, root, middle, leaf) = stage();
    for (object, capture) in [(root, true), (root, false), (middle, true), (middle, false), (leaf, true), (leaf, false)] {
        avm.objects[object].dispatch.add_event_listener("e", 0, object * 10 + capture as usize, capture);
    }
    let mut event = Event::new("e");
    let ran = dispatch(&avm, &mut event, leaf, &mut |_, _| {});
    assert_eq!(ran, vec![(leaf * 10, leaf, EventPhase::AtTarget)]);
    assert_eq!(event.target(), Some(leaf));
    assert!(!event.is_cancelled());
}

#[test]
fn an_event_that_bubbles_descends_and_ascends_the_ancestors() {
    let (mut avm, root, middle, leaf) = stage();
    for (object, capture) in [(root, true), (root, false), (middle, true), (middle, false), (leaf, true), (leaf, false)] {
        avm.objects[object].dispatch.add_event_listener("e", 0, object * 10 + capture as usize, capture);
    }
    let mut event = Event::new("e");
    event.set_bubbles(true);
    event.set_target(99);
    let ran = dispatch(&avm, &mut event, leaf, &mut |_, _| {});
    assert_eq!(
        ran,
        vec![
            (root * 10 + 1, root, EventPhase::Capturing),
            (middle * 10 + 1, middle, EventPhase::Capturing),
            (leaf * 10, leaf, EventPhase::AtTarget),
            (middle * 10, middle, EventPhase::Bubbling),
            (root * 10, root, EventPhase::Bubbling),
        ]
    );
    assert_eq!(event.target(), Some(99));
    assert_eq!(avm.ancestors(leaf), vec![middle, root]);
    assert_eq!(avm.ancestors(root), Vec::<usize>::new());
    assert_eq!(avm.ancestors(1234), Vec::<usize>::new());
}

#[test]
fn an_immediate_stop_ends_the_handlers_of_the_same_object() {
    let (mut avm, _root, middle, leaf) = stage();
    for handler in [1, 2, 3] {
        avm.objects[leaf].dispatch.add_event_listener("e", 0, handler, false);
    }
    avm.objects[middle].dispatch.add_event_listener("e", 0, 4, false);
    let mut event = Event::new("e");
    event.set_bubbles(true);
    let ran = dispatch(&avm, &mut event, leaf, &mut |handler, event| {
        if handler == 2 {
            event.stop_immediate_propagation();
        }
    });
    assert_eq!(ran.iter().map(|r| r.0).collect::<Vec<_>>(), vec![1, 2]);
    let handlers = vec![10, 11];
    assert_eq!(next_handler(&handlers, 0, &event), None);
    assert_eq!(next_handler(&handlers, 1, &Event::new("e")), Some(11));
    assert_eq!(next_handler(&handlers, 2, &Event::new("e")), None);
}

#[test]
fn a_stop_lets_the_handlers_of_the_same_object_finish() {
    let (mut avm, root, middle, leaf) = stage();
    for handler in [1, 2, 3] {
        avm.objects[middle].dispatch.add_event_listener("e", 0, handler, true);
    }
    avm.objects[root].dispatch.add_event_listener("e", 0, 9, true);
    avm.objects[leaf].dispatch.add_event_listener("e", 0, 5, false);
    let mut event = Event::new("e");
    event.set_bubbles(true);
    event.set_cancelable(true);
    let ran = dispatch(&avm, &mut event, leaf, &mut |handler, event| {
        if handler == 1 {
            event.stop_propagation();
            event.cancel();
        }
    });
    assert_eq!(ran.iter().map(|r| r.0).collect::<Vec<_>>(), vec![9, 1, 2, 3]);
    assert!(event.is_cancelled());
}

#[test]
fn a_dispatch_is_set_up_for_given_ancestors() {
    let mut event = Event::new("e");
    event.set_bubbles(true);
    let mut dispatch = EventDispatch::new(&mut event, 1, &vec![2, 3]);
    let mut visits = vec![];
    while let Some(v) = dispatch.begin_visit(&mut event) {
        visits.push(v);
    }
    assert_eq!(
        visits,
        vec![
            Visit { object: 3, phase: EventPhase::Capturing },
            Visit { object: 2, phase: EventPhase::Capturing },
            Visit { object: 1, phase: EventPhase::AtTarget },
            Visit { object: 2, phase: EventPhase::Bubbling },
            Visit { object: 3, phase: EventPhase::Bubbling },
        ]
    );
    assert_eq!(dispatch.begin_visit(&mut event), None);
    assert!(phase_uses_capture(EventPhase::Capturing));
    assert!(!phase_uses_capture(EventPhase::AtTarget));
    assert!(!phase_uses_capture(EventPhase::Bubbling));
}

#[test]
fn a_circle_of_parents_ends() {
    let mut avm = Avm2::new();
    let mut a = Object::new(None, 0);
    a.parent = Some(1);
    let a = avm.add_object(a);
    let mut b = Object::new(None, 0);
    b.parent = Some(0);
    let b = avm.add_object(b);
    assert_eq!(avm.ancestors(a), vec![b, a]);
}

#[test]
fn only_listed_events_are_broadcast() {
    let mut avm = Avm2::new();
    let display = avm.add_class(Class { superclass: None, interfaces: vec![] });
    let sprite = avm.add_class(Class { superclass: Some(display), interfaces: vec![] });
    let other = avm.add_class(Class { superclass: None, interfaces: vec![] });
    let a = avm.add_object(Object::new(Some(sprite), 0));
    let b = avm.add_object(Object::new(Some(other), 0));
    let c = avm.add_object(Object::new(Some(display), 0));
    let d = avm.add_object(Object::new(None, 0));
    for object in [a, b, c, d, a, c] {
        avm.register_broadcast_listener(object, "enterFrame");
    }
    avm.register_broadcast_listener(a, "click");
    avm.register_broadcast_listener(b, "exitFrame");
    avm.register_broadcast_listener(c, "frameConstructed");
    assert_eq!(avm.enter_frame, vec![a, b, c, d]);
    assert_eq!(avm.exit_frame, vec![b]);
    assert_eq!(avm.frame_constructed, vec![c]);
    assert_eq!(avm.broadcast_event(&Event::new("enterFrame"), display), vec![a, c]);
    assert_eq!(avm.broadcast_event(&Event::new("enterFrame"), sprite), vec![a]);
    assert_eq!(avm.broadcast_event(&Event::new("enterFrame"), other), vec![b]);
    assert_eq!(avm.broadcast_event(&Event::new("exitFrame"), other), vec![b]);
    assert!(avm.broadcast_event(&Event::new("exitFrame"), display).is_empty());
    assert!(avm.broadcast_event(&Event::new("click"), sprite).is_empty());
    assert!(avm.broadcast_event(&Event::new("enterFrame"), 99).is_empty());
}

#[test]
fn types_follow_base_classes_and_interfaces() {
    let classes = vec![
        Class { superclass: None, interfaces: vec![] },
        Class { superclass: None, interfaces: vec![] },
        Class { superclass: Some(0), interfaces: vec![1] },
        Class { superclass: Some(2), interfaces: vec![] },
        Class { superclass: Some(4), interfaces: vec![] },
    ];
    assert!(class_is_type(&classes, 3, 3));
    assert!(class_is_type(&classes, 3, 2));
    assert!(class_is_type(&classes, 3, 1));
    assert!(class_is_type(&classes, 3, 0));
    assert!(!class_is_type(&classes, 0, 3));
    assert!(!class_is_type(&classes, 1, 0));
    assert!(!class_is_type(&classes, 4, 0));
    assert!(class_is_type(&classes, 4, 4));
    assert!(!class_is_type(&classes, 9, 9));
    let mut avm = Avm2::new();
    for class in classes {
        avm.add_class(class);
    }
    let o = avm.add_object(Object::new(Some(3), 0));
    assert!(avm.is_of_type(o, 1));
    assert!(!avm.is_of_type(o, 4));
    assert!(!avm.is_of_type(77, 1));
}

#[test]
fn a_push_beyond_the_room_of_a_call_is_dropped() {
    let mut avm = Avm2::new();
    avm.push(Value::from_i32(1), 0, 2);
    avm.push(Value::from_i32(2), 0, 2);
    avm.push(Value::from_i32(3), 0, 2);
    assert_eq!(avm.stack.len(), 2);
    avm.push(Value::from_i32(4), 2, 1);
    assert_eq!(avm.stack.len(), 3);
    avm.push(Value::from_i32(5), 2, 1);
    assert_eq!(avm.stack.len(), 3);
    avm.push(Value::from_i32(6), 2, 0);
    assert_eq!(avm.stack.len(), 3);
    avm.push(Value::from_i32(7), 10, 100);
    assert_eq!(avm.stack.len(), 3);
    assert!(same(&avm.peek(0), &Value::from_i32(4)));
    assert!(same(&avm.peek(2), &Value::from_i32(1)));
    assert!(same(&avm.peek(3), &Value::Undefined));
}

#[test]
fn a_pop_does_not_reach_below_the_call() {
    let mut avm = Avm2::new();
    avm.push(Value::from_i32(1), 0, 10);
    avm.push(Value::from_i32(2), 0, 10);
    assert!(same(&avm.pop(1), &Value::from_i32(2)));
    assert!(same(&avm.pop(1), &Value::Undefined));
    assert_eq!(avm.stack.len(), 1);
    assert!(same(&avm.pop(0), &Value::from_i32(1)));
    assert!(same(&avm.pop(0), &Value::Undefined));
}

#[test]
fn arguments_are_popped_into_their_order() {
    let mut avm = Avm2::new();
    for i in 0..5 {
        avm.push(Value::from_i32(i), 0, 10);
    }
    let args = avm.pop_args(3, 0);
    assert_eq!(args.len(), 3);
    assert!(same(&args[0], &Value::from_i32(2)));
    assert!(same(&args[1], &Value::from_i32(3)));
    assert!(same(&args[2], &Value::from_i32(4)));
    assert_eq!(avm.stack.len(), 2);
    let args = avm.pop_args(3, 1);
    assert!(same(&args[0], &Value::Undefined));
    assert!(same(&args[1], &Value::Undefined));
    assert!(same(&args[2], &Value::from_i32(1)));
    assert_eq!(avm.stack.len(), 1);
    assert!(avm.pop_args(0, 0).is_empty());
    assert_eq!(avm.stack.len(), 1);
}

#[test]
fn the_call_stack_records_what_runs() {
    let mut avm = Avm2::new();
    assert_eq!(avm.pop_call(), None);
    avm.push_global_init();
    avm.push_call(7);
    assert_eq!(avm.call_depth(), 2);
    assert_eq!(avm.pop_call(), Some(CallNode::Method(7)));
    assert_eq!(avm.pop_call(), Some(CallNode::GlobalInit));
    avm.begin_script_initializer();
    assert_eq!(avm.call_stack, vec![CallNode::GlobalInit]);
    assert_eq!(avm.end_script_initializer(Err(Error::CorruptAbc)), Err(Error::CorruptAbc));
    assert_eq!(avm.call_depth(), 0);
    avm.begin_script_initializer();
    assert_eq!(avm.end_script_initializer(Ok(())), Ok(()));
    assert!(!avm.show_debug_output());
    avm.set_show_debug_output(true);
    assert!(avm.show_debug_output());
}

#[test]
fn scripts_are_loaded_last_first() {
    assert_eq!(
        Avm2::do_abc(true, 3, false),
        Ok(vec![ScriptLoad { index: 2, initialize: true }, ScriptLoad { index: 1, initialize: true }, ScriptLoad { index: 0, initialize: true }])
    );
    assert_eq!(Avm2::do_abc(true, 1, true), Ok(vec![ScriptLoad { index: 0, initialize: false }]));
    assert_eq!(Avm2::do_abc(true, 0, true), Ok(vec![]));
    assert_eq!(Avm2::do_abc(false, 3, false), Err(Error::CorruptAbc));
    assert_eq!(Error::CorruptAbc.code(), 1107);
    assert_eq!(Error::NotVirtual.code(), 0);
    assert_eq!(Error::CorruptAbc.message(), "Error #1107: The ABC data is corrupt, attempt to read out of bounds.");
    assert_eq!(Error::NotVirtual.message(), "Not a virtual property");
    assert_eq!(Error::SlotOutOfBounds.message(), "Slot index out of bounds!");
}

#[test]
fn slots_are_read_and_written_by_index() {
    let mut object = Object::new(Some(0), 3);
    assert_eq!(object.slots.len(), 3);
    assert!(same(&object.get_slot(2).unwrap(), &Value::Undefined));
    assert_eq!(object.set_slot(1, Value::from_str("s")), Ok(()));
    assert!(same(&object.get_slot(1).unwrap(), &Value::from_str("s")));
    assert!(same(&object.get_slot(0).unwrap(), &Value::Undefined));
    assert_eq!(object.get_slot(3).unwrap_err(), Error::SlotOutOfBounds);
    assert_eq!(object.set_slot(3, Value::Null), Err(Error::SlotOutOfBounds));
    let slot = Property::new_slot(1);
    assert_eq!(slot.slot_id(), Some(1));
    match slot.get(5, None, &object.slots) {
        Ok(ReturnValue::Immediate(v)) => assert!(same(&v, &Value::from_str("s"))),
        other => panic!("{:?}", other),
    }
    assert!(matches!(Property::new_slot(9).get(5, None, &object.slots), Err(Error::SlotOutOfBounds)));
}

#[test]
fn stored_properties_follow_their_attributes() {
    let mut stored = Property::new_stored(Value::from_i32(1));
    assert!(!stored.can_delete());
    assert!(stored.is_overwritable());
    assert_eq!(stored.slot_id(), None);
    assert!(matches!(stored.set(0, None, Value::from_i32(2)), ReturnValue::Immediate(Value::Undefined)));
    assert!(matches!(stored.get(0, None, &vec![]), Ok(ReturnValue::Immediate(v)) if same(&v, &Value::from_i32(2))));
    let mut constant = Property::new_const(Value::from_i32(1));
    assert!(!constant.is_overwritable());
    constant.set(0, None, Value::from_i32(2));
    assert!(matches!(constant.get(0, None, &vec![]), Ok(ReturnValue::Immediate(v)) if same(&v, &Value::from_i32(1))));
    constant.init(0, None, Value::from_i32(3));
    assert!(matches!(constant.get(0, None, &vec![]), Ok(ReturnValue::Immediate(v)) if same(&v, &Value::from_i32(3))));
    let dynamic = Property::new_dynamic_property(Value::Null);
    assert!(dynamic.can_delete());
    assert!(dynamic.is_overwritable());
    let method = Property::new_method(12);
    assert!(!method.can_delete());
    assert!(!method.is_overwritable());
    assert!(matches!(method.get(0, None, &vec![]), Ok(ReturnValue::Immediate(Value::Object(12)))));
    assert!(matches!(stored.install_virtual_getter(1), Err(Error::NotVirtual)));
    assert!(matches!(Property::new_slot(0).install_virtual_setter(1), Err(Error::NotVirtual)));
}

#[test]
fn accessors_are_handed_back_as_calls() {
    let mut property = Property::new_virtual();
    assert!(!property.can_delete());
    assert!(!property.is_overwritable());
    assert!(matches!(property.get(1, Some(2), &vec![]), Ok(ReturnValue::Immediate(Value::Undefined))));
    assert!(matches!(property.set(1, Some(2), Value::Null), ReturnValue::Immediate(Value::Undefined)));
    assert_eq!(property.install_virtual_getter(10).map_err(|_| ()), Ok(()));
    assert_eq!(property.install_virtual_setter(11).map_err(|_| ()), Ok(()));
    match property.get(1, Some(2), &vec![]) {
        Ok(ReturnValue::ResultOf { executable, receiver, arguments, base_proto }) => {
            assert_eq!((executable, receiver, base_proto), (10, Some(1), Some(2)));
            assert!(arguments.is_empty());
        }
        other => panic!("{:?}", other),
    }
    for written in [property.set(1, None, Value::from_i32(5)), property.init(1, None, Value::from_i32(5))] {
        match written {
            ReturnValue::ResultOf { executable, receiver, arguments, base_proto } => {
                assert_eq!((executable, receiver, base_proto), (11, Some(1), None));
                assert!(same(&arguments[0], &Value::from_i32(5)));
            }
            other => panic!("{:?}", other),
        }
    }
    assert!(ReturnValue::defer_execution(1, None, vec![], None).is_immediate() == false);
    assert!(ReturnValue::Immediate(Value::Null).is_immediate());
    let set = AttributeSet::only(Attribute::ReadOnly).with(Attribute::DontDelete);
    assert!(set.contains(Attribute::ReadOnly) && set.contains(Attribute::DontDelete));
    assert!(!AttributeSet::empty().contains(Attribute::ReadOnly));
    assert!(!AttributeSet::only(Attribute::DontDelete).contains(Attribute::ReadOnly));
}

#[test]
fn an_object_that_only_holds_listeners() {
    let mut avm = Avm2::new();
    avm.add_object(Object::new(None, 2));
    let holder = DispatchObject::empty_list(&mut avm.objects);
    assert_eq!(holder.0, 1);
    assert_eq!(avm.objects.len(), 2);
    assert!(avm.objects[1].slots.is_empty());
    assert_eq!(holder.construct(), Err(Error::CannotConstructDispatcher));
    assert!(matches!(holder.value_of(), Err(Error::CannotSubclassDispatcher)));
    assert!(!holder.as_dispatch(&avm.objects).unwrap().has_event_listener("e"));
    avm.objects[1].dispatch.add_event_listener("e", 0, 5, false);
    assert!(holder.as_dispatch(&avm.objects).unwrap().has_event_listener("e"));
    assert!(DispatchObject(9).as_dispatch(&avm.objects).is_none());
    assert_eq!(Error::CannotConstructDispatcher.message(), "Cannot construct internal event dispatcher structures.");
    assert_eq!(Error::CannotSubclassDispatcher.message(), "Cannot subclass internal event dispatcher structures.");
}
