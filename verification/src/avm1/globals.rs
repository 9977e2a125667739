//! Built-in functions of the first script machine.
//!
//! A built-in function does not reach into the host: where the host has to
//! act, the function says what it asks of the host.

pub mod error;
pub mod external_interface;
pub mod shared_object;

use crate::geometry::{BoundingBox, Twips};
use crate::number::Number;
use crate::value::{values_view, ObjectId, Value, ValueView};
use vstd::prelude::*;

verus! {

/// A request to the host to open a URL.
#[derive(Debug)]
pub struct Navigation {
    pub url: Value,
    pub window: Option<Value>,
    pub method: Option<Value>,
}

/// `getURL`: asks the host to open the URL that is the first argument, in
/// the window that the second names. With no argument it asks nothing.
#[allow(non_snake_case)]
pub fn getURL(args: &Vec<Value>) -> (r: Option<Navigation>)
    ensures
        match r {
            Some(n) => {
                &&& args@.len() > 0
                &&& n.url@ == args@[0]@
                &&& n.window is Some == (args@.len() > 1)
                &&& n.window matches Some(w) ==> w@ == args@[1]@
                &&& n.method is Some == (args@.len() > 2)
                &&& n.method matches Some(m) ==> m@ == args@[2]@
            },
            None => args@.len() == 0,
        },
{
    if args.len() == 0 {
        return None;
    }
    let window = if args.len() > 1 {
        Some(args[1].duplicate())
    } else {
        None
    };
    let method = if args.len() > 2 {
        Some(args[2].duplicate())
    } else {
        None
    };
    Some(Navigation { url: args[0].duplicate(), window, method })
}

/// What `random` comes to.
#[derive(Debug)]
pub enum Random {
    /// The host draws a number from 0 up to, but without, this bound; that
    /// number, rounded down, is what `random` returns.
    Draw(Number),
    /// Nothing is drawn: this is what `random` returns.
    Answer(Value),
}

pub enum RandomView {
    Draw(Number),
    Answer(ValueView),
}

impl View for Random {
    type V = RandomView;

    open spec fn view(&self) -> RandomView {
        match self {
            Random::Draw(bound) => RandomView::Draw(*bound),
            Random::Answer(v) => RandomView::Answer(v@),
        }
    }
}

/// `random`: a number is drawn below the first argument where that is a
/// finite number above 0. Below any other number there is nothing to draw
/// from, and the answer is 0; without a number as the first argument it is
/// `Undefined`.
pub open spec fn random_spec(args: Seq<ValueView>) -> RandomView {
    if args.len() > 0 {
        match args[0] {
            ValueView::Number(max) => if max.is_finite_spec() && !max.is_zero_spec() && !max.sign() {
                RandomView::Draw(max)
            } else {
                RandomView::Answer(ValueView::Number(Number::of_int(0)))
            },
            _ => RandomView::Answer(ValueView::Undefined),
        }
    } else {
        RandomView::Answer(ValueView::Undefined)
    }
}

/// `random`: says whether the host is to draw a number, and below which
/// bound.
pub fn random(args: &Vec<Value>) -> (r: Random)
    ensures
        r@ == random_spec(values_view(args@)),
{
    if args.len() == 0 {
        return Random::Answer(Value::Undefined);
    }
    match &args[0] {
        Value::Number(max) => {
            if max.is_finite() && !max.is_zero() && !max.is_negative() {
                Random::Draw(*max)
            } else {
                Random::Answer(Value::from_i32(0))
            }
        },
        _ => Random::Answer(Value::Undefined),
    }
}

/// An object that is dragged: it follows the mouse at an offset, within a
/// rectangle if that is valid.
#[derive(Clone, Copy, Debug)]
pub struct DragObject {
    pub display_object: ObjectId,
    pub offset: (Twips, Twips),
    pub constraint: BoundingBox,
}

/// The bound that an argument of `startDrag` gives: the number that the
/// argument converts to, as a length in pixels; 0 where there is no such
/// argument or where the number is not finite.
pub open spec fn drag_bound(args: Seq<ValueView>, index: int, swf_version: u8) -> int {
    if index < args.len() {
        args[index].to_number(swf_version).to_twips_spec()
    } else {
        ValueView::Undefined.to_number(swf_version).to_twips_spec()
    }
}

/// What `startDrag` sets up. The first argument says whether the origin of
/// the object is locked to the mouse; otherwise the object keeps its offset
/// from the mouse. With more than one argument the next four are the left,
/// top, right and bottom bounds of the drag, put into order.
pub open spec fn start_drag_spec(
    display_object: ObjectId,
    object_position: (Twips, Twips),
    mouse_position: (Twips, Twips),
    swf_version: u8,
    args: Seq<ValueView>,
) -> DragObject {
    let lock_center = args.len() > 0 && args[0].as_bool(swf_version);
    let x1 = drag_bound(args, 1, swf_version);
    let y1 = drag_bound(args, 2, swf_version);
    let x2 = drag_bound(args, 3, swf_version);
    let y2 = drag_bound(args, 4, swf_version);
    DragObject {
        display_object,
        offset: if lock_center {
            (Twips(0), Twips(0))
        } else {
            (
                Twips((object_position.0.0 - mouse_position.0.0) as i32),
                Twips((object_position.1.0 - mouse_position.1.0) as i32),
            )
        },
        constraint: if args.len() > 1 {
            BoundingBox {
                x_min: Twips(
                    (if x2 < x1 {
                        x2
                    } else {
                        x1
                    }) as i32,
                ),
                y_min: Twips(
                    (if y2 < y1 {
                        y2
                    } else {
                        y1
                    }) as i32,
                ),
                x_max: Twips(
                    (if x2 < x1 {
                        x1
                    } else {
                        x2
                    }) as i32,
                ),
                y_max: Twips(
                    (if y2 < y1 {
                        y1
                    } else {
                        y2
                    }) as i32,
                ),
                valid: true,
            }
        } else {
            BoundingBox::none()
        },
    }
}

fn bound_of(args: &Vec<Value>, index: usize, swf_version: u8) -> (r: Twips)
    ensures
        r.0 == drag_bound(values_view(args@), index as int, swf_version),
{
    if index < args.len() {
        Twips::from_pixels(args[index].coerce_to_number(swf_version))
    } else {
        Twips::from_pixels(Value::Undefined.coerce_to_number(swf_version))
    }
}

/// Starts to drag an object: makes it follow the mouse.
///
/// `object_position` is the origin of the object on the stage. The offset
/// of the object from the mouse has to be a length that 32 bits hold.
pub fn start_drag(
    display_object: ObjectId,
    object_position: (Twips, Twips),
    mouse_position: (Twips, Twips),
    swf_version: u8,
    args: &Vec<Value>,
) -> (r: DragObject)
    requires
        i32::MIN <= object_position.0.0 - mouse_position.0.0 <= i32::MAX,
        i32::MIN <= object_position.1.0 - mouse_position.1.0 <= i32::MAX,
    ensures
        r == start_drag_spec(
            display_object,
            object_position,
            mouse_position,
            swf_version,
            values_view(args@),
        ),
{
    let lock_center: bool = if args.len() > 0 {
        args[0].as_bool(swf_version)
    } else {
        false
    };
    let offset = if lock_center {
        (Twips(0), Twips(0))
    } else {
        (
            Twips(object_position.0.0 - mouse_position.0.0),
            Twips(object_position.1.0 - mouse_position.1.0),
        )
    };
    let constraint = if args.len() > 1 {
        let mut x_min = bound_of(args, 1, swf_version);
        let mut y_min = bound_of(args, 2, swf_version);
        let mut x_max = bound_of(args, 3, swf_version);
        let mut y_max = bound_of(args, 4, swf_version);
        if x_max.0 < x_min.0 {
            let low = x_max;
            x_max = x_min;
            x_min = low;
        }
        if y_max.0 < y_min.0 {
            let low = y_max;
            y_max = y_min;
            y_min = low;
        }
        BoundingBox { x_min, y_min, x_max, y_max, valid: true }
    } else {
        BoundingBox {
            x_min: Twips(0),
            y_min: Twips(0),
            x_max: Twips(0),
            y_max: Twips(0),
            valid: false,
        }
    };
    DragObject { display_object, offset, constraint }
}

} // verus!
