use avm_core::avm1::globals::error as error_object;
use avm_core::avm1::globals::external_interface;
use avm_core::avm1::globals::{getURL, random, start_drag, Random};
use avm_core::avm1::heap::{Heap, ReturnValue};
use avm_core::avm1::object::ScriptObject;
use avm_core::backend::{
    AudioBackend, AudioStreamHandle, Bitmap, BitmapHandle, BitmapSource, InputBackend, KeyCode, MouseCursor, NullAudioBackend, NullBitmapSource,
    NullInputBackend, NullRenderer, RenderBackend, RenderError, Sound, SoundHandle, SoundInstanceHandle, ViewportDimensions,
};
use avm_core::display_object::bitmap::{Bitmap as StageBitmap, BitmapData};
use avm_core::geometry::{BoundingBox, Twips};
use avm_core::number::Number;
use avm_core::value::Value;

fn num(x: f64) -> Value {
    Value::Number(Number::from_bits(x.to_bits()))
}

#[test]
fn the_null_input_knows_no_keys() {
    let mut input = NullInputBackend::new();
    assert!(!input.is_key_down(KeyCode::Key(65)));
    assert_eq!(input.last_key_code(), KeyCode::Unknown);
    assert_eq!(input.last_key_char(), None);
    assert!(input.mouse_visible());
    input.hide_mouse();
    assert!(input.mouse_visible());
    input.show_mouse();
    input.set_mouse_cursor(MouseCursor::Hand);
    input.set_clipboard_content("text".to_string());
    assert_ne!(MouseCursor::Arrow, MouseCursor::IBeam);
    assert_ne!(MouseCursor::Grab, MouseCursor::Hand);
}

#[test]
fn the_null_renderer_keeps_its_viewport() {
    let mut renderer = NullRenderer::new(ViewportDimensions { width: 640, height: 480 });
    assert_eq!(renderer.viewport_dimensions(), ViewportDimensions { width: 640, height: 480 });
    renderer.set_viewport_dimensions(ViewportDimensions { width: 1, height: 2 });
    assert_eq!(renderer.viewport_dimensions(), ViewportDimensions { width: 1, height: 2 });
    assert_eq!(renderer.register_bitmap(Bitmap { width: 1, height: 1, data: vec![0; 4] }), Ok(BitmapHandle(0)));
    assert!(renderer.get_bitmap_pixels(BitmapHandle(0)).is_none());
    assert_eq!(renderer.update_texture(BitmapHandle(0), 1, 1, vec![0; 4]), Ok(()));
    renderer.unregister_bitmap(BitmapHandle(0));
    assert_eq!(renderer.viewport_dimensions(), ViewportDimensions { width: 1, height: 2 });
    assert!(NullBitmapSource.bitmap(3).is_none());
}

#[test]
fn start_drag_keeps_the_offset_from_the_mouse() {
    let drag = start_drag(7, (Twips::new(100), Twips::new(50)), (Twips::new(30), Twips::new(80)), 7, &vec![]);
    assert_eq!(drag.display_object, 7);
    assert_eq!(drag.offset, (Twips::new(70), Twips::new(-30)));
    assert!(!drag.constraint.valid);
    let locked = start_drag(7, (Twips::new(100), Twips::new(50)), (Twips::new(30), Twips::new(80)), 7, &vec![Value::Bool(true)]);
    assert_eq!(locked.offset, (Twips::new(0), Twips::new(0)));
    assert!(!locked.constraint.valid);
    let unlocked = start_drag(7, (Twips::new(1), Twips::new(2)), (Twips::new(0), Twips::new(0)), 7, &vec![Value::from_str("")]);
    assert_eq!(unlocked.offset, (Twips::new(1), Twips::new(2)));
}

#[test]
fn start_drag_puts_its_bounds_into_order() {
    let origin = (Twips::new(0), Twips::new(0));
    let drag = start_drag(1, origin, origin, 7, &vec![Value::Bool(false), num(10.0), num(5.5), num(-2.0), num(1.0)]);
    assert_eq!(
        drag.constraint,
        BoundingBox { x_min: Twips::new(-40), y_min: Twips::new(20), x_max: Twips::new(200), y_max: Twips::new(110), valid: true }
    );
    let partial = start_drag(1, origin, origin, 7, &vec![Value::Bool(false), num(3.0)]);
    assert_eq!(partial.constraint, BoundingBox { x_min: Twips::new(0), y_min: Twips::new(0), x_max: Twips::new(60), y_max: Twips::new(0), valid: true });
    let odd = start_drag(1, origin, origin, 7, &vec![Value::Null, num(f64::NAN), num(f64::INFINITY), Value::from_str("2"), Value::Bool(true)]);
    assert_eq!(odd.constraint, BoundingBox { x_min: Twips::new(0), y_min: Twips::new(0), x_max: Twips::new(40), y_max: Twips::new(20), valid: true });
}

#[test]
fn rectangles_intersect() {
    let a = BoundingBox { x_min: Twips::new(0), y_min: Twips::new(0), x_max: Twips::new(10), y_max: Twips::new(10), valid: true };
    let b = BoundingBox { x_min: Twips::new(10), y_min: Twips::new(5), x_max: Twips::new(20), y_max: Twips::new(6), valid: true };
    let c = BoundingBox { x_min: Twips::new(11), y_min: Twips::new(0), x_max: Twips::new(20), y_max: Twips::new(10), valid: true };
    assert!(a.intersects(&b));
    assert!(b.intersects(&a));
    assert!(!a.intersects(&c));
    assert!(!a.intersects(&BoundingBox { valid: false, ..a }));
    assert_eq!(Twips::from_pixels(Number::from_i32(3)).get(), 60);
    assert_eq!(Twips::TWIPS_PER_PIXEL, 20);
}

#[test]
fn get_url_asks_the_host_to_navigate() {
    assert!(getURL(&vec![]).is_none());
    let one = getURL(&vec![Value::from_str("https://example.org")]).unwrap();
    assert_eq!(format!("{:?}", one.url), format!("{:?}", Value::from_str("https://example.org")));
    assert!(one.window.is_none() && one.method.is_none());
    let three = getURL(&vec![Value::from_str("u"), Value::from_str("_blank"), Value::from_str("POST"), Value::Null]).unwrap();
    assert_eq!(format!("{:?}", three.window), format!("{:?}", Some(Value::from_str("_blank"))));
    assert_eq!(format!("{:?}", three.method), format!("{:?}", Some(Value::from_str("POST"))));
}

#[test]
fn random_has_a_number_as_its_bound() {
    assert!(matches!(random(&vec![num(6.0)]), Random::Draw(n) if n.to_bits() == 6.0f64.to_bits()));
    assert!(matches!(random(&vec![num(0.25), num(9.0)]), Random::Draw(n) if n.to_bits() == 0.25f64.to_bits()));
    assert!(matches!(random(&vec![]), Random::Answer(Value::Undefined)));
    assert!(matches!(random(&vec![Value::from_str("6")]), Random::Answer(Value::Undefined)));
    for empty in [0.0, -0.0, -3.0, f64::NAN, f64::INFINITY, f64::NEG_INFINITY] {
        match random(&vec![num(empty)]) {
            Random::Answer(Value::Number(n)) => assert_eq!(n.to_bits(), 0f64.to_bits()),
            other => panic!("{:?}", other),
        }
    }
}

#[test]
fn errors_have_a_message() {
    let mut heap = Heap::new();
    let object_proto = heap.allocate(ScriptObject::object(None));
    let fn_proto = heap.allocate(ScriptObject::object(None));
    let proto = error_object::create_proto(&mut heap, object_proto, fn_proto);
    assert_eq!(heap.proto(proto), Some(object_proto));
    assert!(heap.get_keys(proto) == vec!["message".to_string(), "name".to_string()]);
    assert!(!heap.delete(proto, "toString", true));
    let error = heap.allocate(ScriptObject::object(Some(proto)));
    let text = |heap: &Heap, this| match error_object::to_string(heap, this, true) {
        Ok(ReturnValue::Immediate(v)) => v.to_text().unwrap(),
        other => panic!("{:?}", other),
    };
    assert_eq!(text(&heap, error), "Error");
    error_object::constructor(&mut heap, error, &vec![], true);
    error_object::constructor(&mut heap, error, &vec![Value::Undefined], true);
    assert_eq!(text(&heap, error), "Error");
    assert!(!heap.has_own_property(error, "message", true));
    error_object::constructor(&mut heap, error, &vec![Value::from_str("broken"), Value::Null], true);
    assert_eq!(text(&heap, error), "broken");
    assert_eq!(text(&heap, proto), "Error");
}

#[test]
fn the_external_interface() {
    assert!(matches!(external_interface::get_available(true), Value::Bool(true)));
    assert!(matches!(external_interface::get_available(false), Value::Bool(false)));
    assert!(external_interface::add_callback(&vec![Value::from_str("f"), Value::Null]).is_none());
    assert!(external_interface::add_callback(&vec![Value::from_str("f"), Value::Null, Value::from_i32(1)]).is_none());
    assert!(external_interface::add_callback(&vec![Value::Object(1), Value::Null, Value::Object(2)]).is_none());
    let callback = external_interface::add_callback(&vec![Value::from_str("f"), Value::Object(4), Value::Object(9)]).unwrap();
    assert_eq!(callback.name, "f");
    assert_eq!(callback.method, 9);
    assert_eq!(callback.this.as_object(), Some(4));
    assert_eq!(external_interface::call(&vec![]), None);
    assert_eq!(external_interface::call(&vec![Value::from_i32(3), Value::Null]).as_deref(), Some("3"));
    assert_eq!(external_interface::call(&vec![Value::Object(3)]), None);
    let mut heap = Heap::new();
    let object_proto = heap.allocate(ScriptObject::object(None));
    let fn_proto = heap.allocate(ScriptObject::object(None));
    let proto = external_interface::create_proto(&mut heap, object_proto);
    let object = external_interface::create_external_interface_object(&mut heap, proto, fn_proto);
    assert_eq!(heap.proto(object), Some(proto));
    assert!(heap.get_keys(object).is_empty());
    assert!(matches!(heap.get(object, "available", true), Ok(ReturnValue::Deferred { this, .. }) if this == object));
    assert!(matches!(heap.get(object, "call", true), Ok(ReturnValue::Immediate(Value::Object(_)))));
    assert!(!heap.delete(object, "addCallback", true));
}

#[test]
fn the_null_audio_keeps_account_of_what_it_is_given() {
    let mut audio = NullAudioBackend::new();
    audio.play();
    audio.pause();
    let sound = Sound { id: 3, data: vec![1, 2, 3] };
    assert_eq!(audio.register_sound(&sound), Ok(SoundHandle(0, 0)));
    assert_eq!(audio.register_sound(&sound), Ok(SoundHandle(1, 0)));
    assert_eq!(audio.start_sound(SoundHandle(1, 0)), Ok(SoundInstanceHandle(0, 0)));
    let first = audio.start_stream(1, 1).unwrap();
    let second = audio.start_stream(1, 2).unwrap();
    assert_eq!(first, AudioStreamHandle(0, 0));
    assert_eq!(second, AudioStreamHandle(1, 0));
    assert!(!audio.is_sound_playing_with_handle(SoundHandle(0, 0)));
    audio.stop_sound(SoundInstanceHandle(0, 0));
    audio.stop_stream(first);
    audio.stop_stream(first);
    audio.stop_stream(AudioStreamHandle(77, 5));
    audio.stop_all_sounds();
    let third = audio.start_stream(2, 1).unwrap();
    assert_ne!(third, first);
    assert_ne!(third, second);
    assert_eq!(third, AudioStreamHandle(0, 1));
    audio.stop_stream(second);
    let fourth = audio.start_stream(2, 2).unwrap();
    assert_eq!(fourth, AudioStreamHandle(1, 2));
    assert_eq!(audio.register_sound(&sound), Ok(SoundHandle(2, 0)));
}

struct Recorder {
    updates: Vec<(BitmapHandle, u32, u32, Vec<u8>)>,
}

impl RenderBackend for Recorder {
    fn viewport_dimensions(&self) -> ViewportDimensions {
        ViewportDimensions { width: 0, height: 0 }
    }
    fn set_viewport_dimensions(&mut self, _dimensions: ViewportDimensions) {}
    fn get_bitmap_pixels(&mut self, _bitmap: BitmapHandle) -> Option<Bitmap> {
        None
    }
    fn register_bitmap(&mut self, _bitmap: Bitmap) -> Result<BitmapHandle, RenderError> {
        Err(RenderError::Unimplemented)
    }
    fn unregister_bitmap(&mut self, _bitmap: BitmapHandle) {}
    fn update_texture(&mut self, bitmap: BitmapHandle, width: u32, height: u32, rgba: Vec<u8>) -> Result<(), RenderError> {
        self.updates.push((bitmap, width, height, rgba));
        Err(RenderError::Unimplemented)
    }
}

#[test]
fn a_bitmap_hands_changed_pixels_to_the_renderer() {
    let mut renderer = Recorder { updates: vec![] };
    let mut plain = StageBitmap::new(4, BitmapHandle(2), 30, 20);
    assert_eq!((plain.id(), plain.bitmap_handle(), plain.width(), plain.height()), (4, BitmapHandle(2), 30, 20));
    assert_eq!(plain.self_bounds(), BoundingBox { x_min: Twips::new(0), y_min: Twips::new(0), x_max: Twips::new(30), y_max: Twips::new(20), valid: true });
    plain.run_frame(&mut renderer);
    assert!(renderer.updates.is_empty());
    let data = BitmapData { width: 1, height: 2, pixels: vec![1, 2, 3, 4, 5, 6, 7, 8], dirty: true };
    let mut drawn = StageBitmap::new_with_bitmap_data(5, BitmapHandle(3), 1, 2, Some(data));
    drawn.run_frame(&mut renderer);
    drawn.run_frame(&mut renderer);
    assert_eq!(renderer.updates, vec![(BitmapHandle(3), 1, 2, vec![1, 2, 3, 4, 5, 6, 7, 8])]);
    assert!(!drawn.bitmap_data.as_ref().unwrap().dirty);
    let view = BoundingBox { x_min: Twips::new(0), y_min: Twips::new(0), x_max: Twips::new(100), y_max: Twips::new(100), valid: true };
    assert!(StageBitmap::is_in_view(&plain.self_bounds(), &view));
    let far = BoundingBox { x_min: Twips::new(200), y_min: Twips::new(0), x_max: Twips::new(300), y_max: Twips::new(10), valid: true };
    assert!(!StageBitmap::is_in_view(&far, &view));
}
