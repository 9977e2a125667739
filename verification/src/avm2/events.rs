//! Events, the listeners registered for them, and the order of dispatch.

use crate::value::ObjectId;
use vstd::prelude::*;
use vstd::string::*;

verus! {

/// Which phase of the dispatch of an event is under way.
#[derive(Copy, Clone, Debug, PartialEq, Eq, Structural)]
pub enum EventPhase {
    /// The event descends the ancestors of its target.
    Capturing,
    /// The event fires on its target.
    AtTarget,
    /// The event ascends the ancestors of its target.
    Bubbling,
}

impl EventPhase {
    /// The number under which scripts see the phase.
    pub fn into_u32(self) -> (r: u32)
        ensures
            r == (match self {
                EventPhase::Capturing => 1u32,
                EventPhase::AtTarget => 2u32,
                EventPhase::Bubbling => 3u32,
            }),
    {
        match self {
            EventPhase::Capturing => 1,
            EventPhase::AtTarget => 2,
            EventPhase::Bubbling => 3,
        }
    }
}

/// How an event may go on.
#[derive(Copy, Clone, Debug, PartialEq, Eq, Structural)]
pub enum PropagationMode {
    /// It goes on as usual.
    AllowPropagation,
    /// It visits no further object.
    StopPropagation,
    /// It runs no further handler at all.
    StopImmediatePropagation,
}

/// An event.
#[derive(Debug)]
pub struct Event {
    bubbles: bool,
    cancelable: bool,
    cancelled: bool,
    propagation: PropagationMode,
    current_target: Option<ObjectId>,
    event_phase: EventPhase,
    target: Option<ObjectId>,
    event_type: String,
}

pub struct EventView {
    pub bubbles: bool,
    pub cancelable: bool,
    pub cancelled: bool,
    pub propagation: PropagationMode,
    pub current_target: Option<ObjectId>,
    pub event_phase: EventPhase,
    pub target: Option<ObjectId>,
    pub event_type: Seq<char>,
}

impl View for Event {
    type V = EventView;

    closed spec fn view(&self) -> EventView {
        EventView {
            bubbles: self.bubbles,
            cancelable: self.cancelable,
            cancelled: self.cancelled,
            propagation: self.propagation,
            current_target: self.current_target,
            event_phase: self.event_phase,
            target: self.target,
            event_type: self.event_type@,
        }
    }
}

impl EventView {
    /// Whether the event visits no further object.
    pub open spec fn stopped(self) -> bool {
        self.propagation != PropagationMode::AllowPropagation
    }

    /// Whether the event runs no further handler.
    pub open spec fn stopped_immediately(self) -> bool {
        self.propagation == PropagationMode::StopImmediatePropagation
    }
}

impl Event {
    /// A new event of the given type: it does not bubble, cannot be
    /// cancelled, and has no target yet.
    pub fn new(event_type: &str) -> (r: Event)
        ensures
            r@ == (EventView {
                bubbles: false,
                cancelable: false,
                cancelled: false,
                propagation: PropagationMode::AllowPropagation,
                current_target: None,
                event_phase: EventPhase::Bubbling,
                target: None,
                event_type: event_type@,
            }),
    {
        Event {
            bubbles: false,
            cancelable: false,
            cancelled: false,
            propagation: PropagationMode::AllowPropagation,
            current_target: None,
            event_phase: EventPhase::Bubbling,
            target: None,
            event_type: String::from_str(event_type),
        }
    }

    pub fn event_type(&self) -> (r: &str)
        ensures
            r@ == self@.event_type,
    {
        self.event_type.as_str()
    }

    pub fn set_event_type(&mut self, event_type: &str)
        ensures
            final(self)@ == (EventView { event_type: event_type@, ..old(self)@ }),
    {
        self.event_type = String::from_str(event_type);
    }

    pub fn is_bubbling(&self) -> (r: bool)
        ensures
            r == self@.bubbles,
    {
        self.bubbles
    }

    pub fn set_bubbles(&mut self, bubbling: bool)
        ensures
            final(self)@ == (EventView { bubbles: bubbling, ..old(self)@ }),
    {
        self.bubbles = bubbling;
    }

    pub fn is_cancelable(&self) -> (r: bool)
        ensures
            r == self@.cancelable,
    {
        self.cancelable
    }

    pub fn set_cancelable(&mut self, cancelable: bool)
        ensures
            final(self)@ == (EventView { cancelable, ..old(self)@ }),
    {
        self.cancelable = cancelable;
    }

    pub fn is_cancelled(&self) -> (r: bool)
        ensures
            r == self@.cancelled,
    {
        self.cancelled
    }

    /// Cancels the event, if it can be cancelled.
    pub fn cancel(&mut self)
        ensures
            final(self)@ == (EventView {
                cancelled: old(self)@.cancelled || old(self)@.cancelable,
                ..old(self)@
            }),
    {
        if self.cancelable {
            self.cancelled = true;
        }
    }

    pub fn is_propagation_stopped(&self) -> (r: bool)
        ensures
            r == self@.stopped(),
    {
        match self.propagation {
            PropagationMode::AllowPropagation => false,
            _ => true,
        }
    }

    /// Stops the event from visiting further objects. An immediate stop
    /// stays an immediate stop.
    pub fn stop_propagation(&mut self)
        ensures
            final(self)@ == (EventView {
                propagation: if old(self)@.stopped_immediately() {
                    PropagationMode::StopImmediatePropagation
                } else {
                    PropagationMode::StopPropagation
                },
                ..old(self)@
            }),
    {
        match self.propagation {
            PropagationMode::StopImmediatePropagation => {},
            _ => {
                self.propagation = PropagationMode::StopPropagation;
            },
        }
    }

    pub fn is_propagation_stopped_immediately(&self) -> (r: bool)
        ensures
            r == self@.stopped_immediately(),
    {
        match self.propagation {
            PropagationMode::StopImmediatePropagation => true,
            _ => false,
        }
    }

    /// Stops the event from running any further handler.
    pub fn stop_immediate_propagation(&mut self)
        ensures
            final(self)@ == (EventView {
                propagation: PropagationMode::StopImmediatePropagation,
                ..old(self)@
            }),
    {
        self.propagation = PropagationMode::StopImmediatePropagation;
    }

    pub fn phase(&self) -> (r: EventPhase)
        ensures
            r == self@.event_phase,
    {
        self.event_phase
    }

    pub fn set_phase(&mut self, phase: EventPhase)
        ensures
            final(self)@ == (EventView { event_phase: phase, ..old(self)@ }),
    {
        self.event_phase = phase;
    }

    pub fn target(&self) -> (r: Option<ObjectId>)
        ensures
            r == self@.target,
    {
        self.target
    }

    pub fn set_target(&mut self, target: ObjectId)
        ensures
            final(self)@ == (EventView { target: Some(target), ..old(self)@ }),
    {
        self.target = Some(target);
    }

    pub fn current_target(&self) -> (r: Option<ObjectId>)
        ensures
            r == self@.current_target,
    {
        self.current_target
    }

    pub fn set_current_target(&mut self, current_target: ObjectId)
        ensures
            final(self)@ == (EventView { current_target: Some(current_target), ..old(self)@ }),
    {
        self.current_target = Some(current_target);
    }
}

/// A registered listener: the handler, the event it listens for, whether it
/// listens in the capturing phase, and its priority.
#[derive(Debug)]
pub struct EventHandler {
    event: String,
    handler: ObjectId,
    use_capture: bool,
    priority: i32,
}

pub struct HandlerView {
    pub event: Seq<char>,
    pub handler: ObjectId,
    pub use_capture: bool,
    pub priority: i32,
}

impl View for EventHandler {
    type V = HandlerView;

    closed spec fn view(&self) -> HandlerView {
        HandlerView {
            event: self.event@,
            handler: self.handler,
            use_capture: self.use_capture,
            priority: self.priority,
        }
    }
}

/// Whether a listener is the one that the event, the handler and the
/// capture flag identify. The priority is no part of its identity.
pub open spec fn is_listener(
    h: HandlerView,
    event: Seq<char>,
    handler: ObjectId,
    use_capture: bool,
) -> bool {
    h.event == event && h.handler == handler && h.use_capture == use_capture
}

/// Whether the listener is registered.
pub open spec fn registered(
    list: Seq<HandlerView>,
    event: Seq<char>,
    handler: ObjectId,
    use_capture: bool,
) -> bool {
    exists|i: int| 0 <= i < list.len() && is_listener(#[trigger] list[i], event, handler, use_capture)
}

/// Where a new listener of the given priority goes: behind the leading
/// listeners whose priority is not lower.
pub open spec fn insertion_point(list: Seq<HandlerView>, priority: int) -> int
    decreases list.len(),
{
    if list.len() == 0 {
        0
    } else if list[0].priority >= priority {
        1 + insertion_point(list.drop_first(), priority)
    } else {
        0
    }
}

/// The list after a listener was added: unchanged if the listener is
/// registered already, whatever its priority.
pub open spec fn add_spec(
    list: Seq<HandlerView>,
    event: Seq<char>,
    priority: i32,
    handler: ObjectId,
    use_capture: bool,
) -> Seq<HandlerView> {
    if registered(list, event, handler, use_capture) {
        list
    } else {
        list.insert(
            insertion_point(list, priority as int),
            HandlerView { event, handler, use_capture, priority },
        )
    }
}

/// The listeners that stay when one is removed.
pub open spec fn others(event: Seq<char>, handler: ObjectId, use_capture: bool) -> spec_fn(
    HandlerView,
) -> bool {
    |h: HandlerView| !is_listener(h, event, handler, use_capture)
}

/// The handler of a listener if it listens for the event in the phase.
pub open spec fn listening(event: Seq<char>, use_capture: bool) -> spec_fn(HandlerView) -> Option<
    ObjectId,
> {
    |h: HandlerView|
        if h.event == event && h.use_capture == use_capture {
            Some(h.handler)
        } else {
            None
        }
}

/// The handlers to run for an event in a phase, in the order in which they
/// run.
pub open spec fn handlers_spec(list: Seq<HandlerView>, event: Seq<char>, use_capture: bool) -> Seq<
    ObjectId,
> {
    list.filter_map(listening(event, use_capture))
}

/// Whether the priorities never rise along the list.
pub open spec fn ordered(list: Seq<HandlerView>) -> bool {
    forall|i: int, j: int| 0 <= i < j < list.len() ==> list[i].priority >= list[j].priority
}

/// The listeners of an object, in the order in which they run: by falling
/// priority, and by the time of registration where the priority is equal.
#[derive(Debug)]
pub struct DispatchList {
    handlers: Vec<EventHandler>,
}

impl View for DispatchList {
    type V = Seq<HandlerView>;

    closed spec fn view(&self) -> Seq<HandlerView> {
        Seq::new(self.handlers@.len(), |i: int| self.handlers@[i]@)
    }
}

impl DispatchList {
    /// An empty list.
    pub fn new() -> (r: DispatchList)
        ensures
            r@ == Seq::<HandlerView>::empty(),
            ordered(r@),
            unique(r@),
    {
        let r = DispatchList { handlers: Vec::new() };
        assert(r@ =~= Seq::empty());
        r
    }

    fn is_registered(&self, event: &str, handler: ObjectId, use_capture: bool) -> (r: bool)
        ensures
            r == registered(self@, event@, handler, use_capture),
    {
        let mut i: usize = 0;
        while i < self.handlers.len()
            invariant
                i <= self.handlers@.len(),
                forall|j: int| 0 <= j < i ==> !is_listener(#[trigger] self@[j], event@, handler, use_capture),
            decreases self.handlers@.len() - i,
        {
            let h = &self.handlers[i];
            if h.handler == handler && h.use_capture == use_capture && crate::text::str_eq(
                h.event.as_str(),
                event,
            ) {
                assert(is_listener(self@[i as int], event@, handler, use_capture));
                return true;
            }
            i = i + 1;
        }
        false
    }

    fn position_for(&self, priority: i32) -> (r: usize)
        ensures
            r == insertion_point(self@, priority as int),
            r <= self@.len(),
    {
        let mut i: usize = 0;
        assert(self@.skip(0) =~= self@);
        while i < self.handlers.len() && self.handlers[i].priority >= priority
            invariant
                i <= self.handlers@.len(),
                insertion_point(self@, priority as int) == i + insertion_point(
                    self@.skip(i as int),
                    priority as int,
                ),
            decreases self.handlers@.len() - i,
        {
            proof {
                assert(self@.skip(i as int).drop_first() =~= self@.skip(i as int + 1));
                assert(self@.skip(i as int)[0] == self@[i as int]);
            }
            i = i + 1;
        }
        proof {
            if i < self.handlers@.len() {
                assert(self@.skip(i as int)[0] == self@[i as int]);
            }
        }
        i
    }

    /// Registers a listener. A listener that is registered already, under
    /// whatever priority, is not registered again.
    pub fn add_event_listener(
        &mut self,
        event: &str,
        priority: i32,
        handler: ObjectId,
        use_capture: bool,
    )
        ensures
            final(self)@ == add_spec(old(self)@, event@, priority, handler, use_capture),
            ordered(old(self)@) ==> ordered(final(self)@),
            unique(old(self)@) ==> unique(final(self)@),
            registered(final(self)@, event@, handler, use_capture),
    {
        proof {
            if unique(self@) {
                lemma_add_keeps_unique(self@, event@, priority, handler, use_capture);
            }
            if registered(self@, event@, handler, use_capture) {
            } else {
                if ordered(self@) {
                    lemma_add_order(self@, event@, priority, handler, use_capture);
                }
                lemma_insertion_point(self@, priority as int);
                let after = add_spec(self@, event@, priority, handler, use_capture);
                assert(is_listener(
                    after[insertion_point(self@, priority as int)],
                    event@,
                    handler,
                    use_capture,
                ));
            }
        }
        if self.is_registered(event, handler, use_capture) {
            return ;
        }
        let at = self.position_for(priority);
        self.handlers.insert(
            at,
            EventHandler { event: String::from_str(event), handler, use_capture, priority },
        );
        assert(self@ =~= old(self)@.insert(
            at as int,
            HandlerView { event: event@, handler, use_capture, priority },
        ));
    }

    /// Removes a listener, under whatever priority it is registered.
    pub fn remove_event_listener(&mut self, event: &str, handler: ObjectId, use_capture: bool)
        ensures
            final(self)@ == old(self)@.filter(others(event@, handler, use_capture)),
            ordered(old(self)@) ==> ordered(final(self)@),
            unique(old(self)@) ==> unique(final(self)@),
            !registered(final(self)@, event@, handler, use_capture),
    {
        proof {
            if ordered(self@) {
                lemma_remove_keeps_order(self@, event@, handler, use_capture);
            }
            if unique(self@) {
                lemma_remove_keeps_unique(self@, event@, handler, use_capture);
            }
            lemma_removed_is_gone(self@, event@, handler, use_capture);
        }
        let ghost before = self@;
        let ghost keep = others(event@, handler, use_capture);
        let mut i: usize = 0;
        let ghost mut done: int = 0;
        proof {
            assert(before.take(0) =~= Seq::empty());
            assert(before.skip(0) =~= before);
            reveal(Seq::filter);
            assert(before.take(0).filter(keep) =~= Seq::empty());
        }
        while i < self.handlers.len()
            invariant
                0 <= done <= before.len(),
                before == old(self)@,
                keep == others(event@, handler, use_capture),
                i == before.take(done).filter(keep).len(),
                self@ == before.take(done).filter(keep) + before.skip(done),
            decreases before.len() - done,
        {
            let ghost kept = before.take(done).filter(keep);
            let ghost current = self@;
            proof {
                assert(self@[i as int] == before.skip(done)[0]);
                assert(before.take(done + 1) =~= before.take(done).push(before[done]));
                before.take(done).lemma_filter_push(before[done], keep);
            }
            let h = &self.handlers[i];
            let same: bool = h.handler == handler && h.use_capture == use_capture
                && crate::text::str_eq(h.event.as_str(), event);
            if same {
                self.handlers.remove(i);
                assert(self@ =~= current.remove(i as int));
                assert(self@ =~= kept + before.skip(done + 1));
            } else {
                assert(self@ =~= kept.push(before[done]) + before.skip(done + 1));
                i = i + 1;
            }
            proof {
                done = done + 1;
            }
        }
        proof {
            assert(before.take(done) =~= before);
            assert(self@ =~= before.filter(keep));
        }
    }

    /// Whether any listener is registered for the event.
    pub fn has_event_listener(&self, event: &str) -> (r: bool)
        ensures
            r == (exists|i: int| 0 <= i < self@.len() && (#[trigger] self@[i]).event == event@),
    {
        let mut i: usize = 0;
        while i < self.handlers.len()
            invariant
                i <= self.handlers@.len(),
                forall|j: int| 0 <= j < i ==> (#[trigger] self@[j]).event != event@,
            decreases self.handlers@.len() - i,
        {
            if crate::text::str_eq(self.handlers[i].event.as_str(), event) {
                assert(self@[i as int].event == event@);
                return true;
            }
            i = i + 1;
        }
        false
    }

    /// The handlers to run for the event, in the order in which they run:
    /// those that listen in the capturing phase if `use_capture` is set, and
    /// those that listen at the target and in the bubbling phase otherwise.
    pub fn iter_event_handlers(&self, event: &str, use_capture: bool) -> (r: Vec<ObjectId>)
        ensures
            r@ == handlers_spec(self@, event@, use_capture),
    {
        let mut out: Vec<ObjectId> = Vec::new();
        let mut i: usize = 0;
        proof {
            assert(self@.take(0) =~= Seq::empty());
        }
        while i < self.handlers.len()
            invariant
                i <= self.handlers@.len(),
                out@ == self@.take(i as int).filter_map(listening(event@, use_capture)),
            decreases self.handlers@.len() - i,
        {
            proof {
                self@.lemma_filter_map_take_succ(listening(event@, use_capture), i as int);
            }
            let h = &self.handlers[i];
            if h.use_capture == use_capture && crate::text::str_eq(h.event.as_str(), event) {
                out.push(h.handler);
            }
            assert(out@ =~= self@.take(i as int + 1).filter_map(listening(event@, use_capture)));
            i = i + 1;
        }
        assert(self@.take(i as int) =~= self@);
        out
    }
}

proof fn lemma_insertion_point(list: Seq<HandlerView>, priority: int)
    ensures
        0 <= insertion_point(list, priority) <= list.len(),
        forall|i: int|
            0 <= i < insertion_point(list, priority) ==> (#[trigger] list[i]).priority >= priority,
        insertion_point(list, priority) < list.len() ==> list[insertion_point(
            list,
            priority,
        )].priority < priority,
    decreases list.len(),
{
    if list.len() > 0 && list[0].priority >= priority {
        let rest = list.drop_first();
        lemma_insertion_point(rest, priority);
        let k = insertion_point(rest, priority);
        assert forall|i: int| 0 <= i < k + 1 implies (#[trigger] list[i]).priority >= priority by {
            if i > 0 {
                assert(list[i] == rest[i - 1]);
            }
        }
        if k < rest.len() {
            assert(list[k + 1] == rest[k]);
        }
    }
}

/// Where a new listener runs: after every listener whose priority is not
/// lower (among them those of equal priority, which were registered before
/// it), and before every listener of lower priority. The listeners that were
/// there keep their order, and the priorities still never rise along the
/// list.
pub proof fn lemma_add_order(
    list: Seq<HandlerView>,
    event: Seq<char>,
    priority: i32,
    handler: ObjectId,
    use_capture: bool,
)
    requires
        ordered(list),
        !registered(list, event, handler, use_capture),
    ensures
        ordered(add_spec(list, event, priority, handler, use_capture)),
        add_spec(list, event, priority, handler, use_capture).len() == list.len() + 1,
        ({
            let after = add_spec(list, event, priority, handler, use_capture);
            let k = insertion_point(list, priority as int);
            &&& 0 <= k <= list.len()
            &&& after[k] == (HandlerView { event, handler, use_capture, priority })
            &&& forall|i: int|
                0 <= i < k ==> after[i] == list[i] && (#[trigger] list[i]).priority >= priority
            &&& forall|i: int|
                k <= i < list.len() ==> after[i + 1] == list[i] && (#[trigger] list[i]).priority
                    < priority
        }),
{
    lemma_insertion_point(list, priority as int);
    let k = insertion_point(list, priority as int);
    assert forall|i: int| k <= i < list.len() implies (#[trigger] list[i]).priority < priority by {
        if i > k {
            assert(list[k].priority >= list[i].priority);
        }
    }
}

proof fn lemma_removed_is_gone(
    list: Seq<HandlerView>,
    event: Seq<char>,
    handler: ObjectId,
    use_capture: bool,
)
    ensures
        !registered(list.filter(others(event, handler, use_capture)), event, handler, use_capture),
{
    let keep = others(event, handler, use_capture);
    let kept = list.filter(keep);
    if registered(kept, event, handler, use_capture) {
        let i = choose|i: int| 0 <= i < kept.len() && is_listener(
            #[trigger] kept[i],
            event,
            handler,
            use_capture,
        );
        list.lemma_filter_pred(keep, i);
    }
}

/// Removing a listener keeps the priorities from rising along the list.
pub proof fn lemma_remove_keeps_order(
    list: Seq<HandlerView>,
    event: Seq<char>,
    handler: ObjectId,
    use_capture: bool,
)
    requires
        ordered(list),
    ensures
        ordered(list.filter(others(event, handler, use_capture))),
        !registered(list.filter(others(event, handler, use_capture)), event, handler, use_capture),
    decreases list.len(),
{
    let keep = others(event, handler, use_capture);
    let kept = list.filter(keep);
    reveal(Seq::filter);
    if list.len() > 0 {
        let front = list.drop_last();
        lemma_remove_keeps_order(front, event, handler, use_capture);
        let sub = front.filter(keep);
        assert forall|i: int, j: int| 0 <= i < j < kept.len() implies kept[i].priority
            >= kept[j].priority by {
            if j == sub.len() {
                front.lemma_filter_contains_rev(keep, sub[i]);
                let k = choose|k: int| 0 <= k < front.len() && front[k] == sub[i];
                assert(list[k].priority >= list[list.len() - 1].priority);
            }
        }
        assert forall|i: int| 0 <= i < kept.len() implies !is_listener(
            #[trigger] kept[i],
            event,
            handler,
            use_capture,
        ) by {
            list.lemma_filter_pred(keep, i);
        }
    }
}

/// Whether no listener is registered twice: no two entries of the list
/// have the same event, handler and capture flag.
pub open spec fn unique(list: Seq<HandlerView>) -> bool {
    forall|i: int, j: int|
        0 <= i < j < list.len() ==> !is_listener(
            #[trigger] list[j],
            (#[trigger] list[i]).event,
            list[i].handler,
            list[i].use_capture,
        )
}

/// Registering a listener never registers it twice: a list without
/// doubles has none after a listener was added, and the listener is
/// registered then.
pub proof fn lemma_add_keeps_unique(
    list: Seq<HandlerView>,
    event: Seq<char>,
    priority: i32,
    handler: ObjectId,
    use_capture: bool,
)
    requires
        unique(list),
    ensures
        unique(add_spec(list, event, priority, handler, use_capture)),
        registered(add_spec(list, event, priority, handler, use_capture), event, handler, use_capture),
{
    let after = add_spec(list, event, priority, handler, use_capture);
    if registered(list, event, handler, use_capture) {
    } else {
        lemma_insertion_point(list, priority as int);
        let k = insertion_point(list, priority as int);
        assert(is_listener(after[k], event, handler, use_capture));
        assert forall|i: int, j: int| 0 <= i < j < after.len() implies !is_listener(
            #[trigger] after[j],
            (#[trigger] after[i]).event,
            after[i].handler,
            after[i].use_capture,
        ) by {
            let a = if i < k {
                i
            } else {
                i - 1
            };
            let b = if j < k {
                j
            } else {
                j - 1
            };
            if i != k && j != k {
                assert(after[i] == list[a]);
                assert(after[j] == list[b]);
            } else if i == k {
                assert(after[j] == list[b]);
                assert(!is_listener(list[b], event, handler, use_capture));
            } else {
                assert(after[i] == list[a]);
                assert(!is_listener(list[a], event, handler, use_capture));
            }
        }
    }
}

/// Removing a listener leaves a list without doubles without doubles.
pub proof fn lemma_remove_keeps_unique(
    list: Seq<HandlerView>,
    event: Seq<char>,
    handler: ObjectId,
    use_capture: bool,
)
    requires
        unique(list),
    ensures
        unique(list.filter(others(event, handler, use_capture))),
    decreases list.len(),
{
    let keep = others(event, handler, use_capture);
    let kept = list.filter(keep);
    reveal(Seq::filter);
    if list.len() > 0 {
        let front = list.drop_last();
        assert forall|i: int, j: int| 0 <= i < j < front.len() implies !is_listener(
            #[trigger] front[j],
            (#[trigger] front[i]).event,
            front[i].handler,
            front[i].use_capture,
        ) by {
            assert(front[i] == list[i]);
            assert(front[j] == list[j]);
        }
        lemma_remove_keeps_unique(front, event, handler, use_capture);
        let sub = front.filter(keep);
        assert forall|i: int, j: int| 0 <= i < j < kept.len() implies !is_listener(
            #[trigger] kept[j],
            (#[trigger] kept[i]).event,
            kept[i].handler,
            kept[i].use_capture,
        ) by {
            if j == sub.len() {
                front.lemma_filter_contains_rev(keep, sub[i]);
                let k = choose|k: int| 0 <= k < front.len() && front[k] == sub[i];
                assert(list[k] == sub[i]);
                assert(!is_listener(
                    list[list.len() - 1],
                    list[k].event,
                    list[k].handler,
                    list[k].use_capture,
                ));
            }
        }
    }
}

/// An object that an event visits, and the phase in which it visits it.
#[derive(Copy, Clone, Debug, PartialEq, Eq, Structural)]
pub struct Visit {
    pub object: ObjectId,
    pub phase: EventPhase,
}

/// The objects that an event visits, in order. An event that bubbles
/// descends the ancestors of its target from the outermost to the nearest,
/// fires on the target, and ascends the ancestors again; any other event
/// fires on the target only. `ancestors` holds the nearest ancestor first.
pub open spec fn visits_spec(target: ObjectId, ancestors: Seq<ObjectId>, bubbles: bool) -> Seq<
    Visit,
> {
    if bubbles {
        Seq::new(
            2 * ancestors.len() + 1,
            |i: int|
                if i < ancestors.len() {
                    Visit { object: ancestors[ancestors.len() - 1 - i], phase: EventPhase::Capturing }
                } else if i == ancestors.len() {
                    Visit { object: target, phase: EventPhase::AtTarget }
                } else {
                    Visit {
                        object: ancestors[i - ancestors.len() - 1],
                        phase: EventPhase::Bubbling,
                    }
                },
        )
    } else {
        seq![Visit { object: target, phase: EventPhase::AtTarget }]
    }
}

/// The dispatch of one event: the objects it has still to visit.
///
/// The dispatch does not call handlers. It says which object is visited
/// next, and which handler of the visited object runs next; the caller runs
/// them. Between two handlers the event may have been stopped by the handler
/// that ran.
#[derive(Debug)]
pub struct EventDispatch {
    visits: Vec<Visit>,
    next: usize,
}

impl EventDispatch {
    /// The visits that the dispatch was set up with.
    pub closed spec fn visits(&self) -> Seq<Visit> {
        self.visits@
    }

    /// How many of the visits were begun.
    pub closed spec fn begun(&self) -> int {
        self.next as int
    }

    pub closed spec fn wf(&self) -> bool {
        self.next <= self.visits@.len()
    }

    /// Sets up the dispatch of an event on a target. The target of the event
    /// is set unless it is set already.
    pub fn new(event: &mut Event, target: ObjectId, ancestors: &Vec<ObjectId>) -> (r:
        EventDispatch)
        requires
            ancestors@.len() < usize::MAX / 2,
        ensures
            r.wf(),
            r.begun() == 0,
            r.visits() == visits_spec(target, ancestors@, old(event)@.bubbles),
            final(event)@ == (EventView {
                target: if old(event)@.target is None {
                    Some(target)
                } else {
                    old(event)@.target
                },
                ..old(event)@
            }),
    {
        if event.target.is_none() {
            event.target = Some(target);
        }
        let mut visits: Vec<Visit> = Vec::new();
        let n: usize = ancestors.len();
        if event.bubbles {
            let mut i: usize = 0;
            while i < n
                invariant
                    i <= n,
                    n == ancestors@.len(),
                    visits@.len() == i,
                    forall|j: int|
                        0 <= j < i ==> visits@[j] == (Visit {
                            object: ancestors@[n - 1 - j],
                            phase: EventPhase::Capturing,
                        }),
                decreases n - i,
            {
                visits.push(Visit { object: ancestors[n - 1 - i], phase: EventPhase::Capturing });
                i = i + 1;
            }
            visits.push(Visit { object: target, phase: EventPhase::AtTarget });
            let mut k: usize = 0;
            while k < n
                invariant
                    k <= n,
                    n == ancestors@.len(),
                    n < usize::MAX / 2,
                    visits@.len() == n + 1 + k,
                    forall|j: int|
                        0 <= j < n ==> visits@[j] == (Visit {
                            object: ancestors@[n - 1 - j],
                            phase: EventPhase::Capturing,
                        }),
                    visits@[n as int] == (Visit { object: target, phase: EventPhase::AtTarget }),
                    forall|j: int|
                        n < j < n + 1 + k ==> visits@[j] == (Visit {
                            object: ancestors@[j - n - 1],
                            phase: EventPhase::Bubbling,
                        }),
                decreases n - k,
            {
                visits.push(Visit { object: ancestors[k], phase: EventPhase::Bubbling });
                k = k + 1;
            }
            assert(visits@ =~= visits_spec(target, ancestors@, true));
        } else {
            visits.push(Visit { object: target, phase: EventPhase::AtTarget });
            assert(visits@ =~= visits_spec(target, ancestors@, false));
        }
        EventDispatch { visits, next: 0 }
    }

    /// Begins the next visit: returns the object to visit and its phase, and
    /// sets the phase and the current target of the event. There is no next
    /// visit when all objects were visited or when the event was stopped; the
    /// dispatch is then over.
    pub fn begin_visit(&mut self, event: &mut Event) -> (r: Option<Visit>)
        requires
            old(self).wf(),
        ensures
            final(self).wf(),
            final(self).visits() == old(self).visits(),
            old(self).begun() < old(self).visits().len() && !old(event)@.stopped() ==> {
                &&& r == Some(old(self).visits()[old(self).begun()])
                &&& final(self).begun() == old(self).begun() + 1
                &&& final(event)@ == (EventView {
                    event_phase: r.unwrap().phase,
                    current_target: Some(r.unwrap().object),
                    ..old(event)@
                })
            },
            !(old(self).begun() < old(self).visits().len() && !old(event)@.stopped()) ==> {
                &&& r is None
                &&& final(self).begun() == old(self).visits().len()
                &&& final(event)@ == old(event)@
            },
    {
        if self.next < self.visits.len() && !event.is_propagation_stopped() {
            let visit = self.visits[self.next];
            self.next = self.next + 1;
            event.event_phase = visit.phase;
            event.current_target = Some(visit.object);
            Some(visit)
        } else {
            self.next = self.visits.len();
            None
        }
    }

    /// Whether the dispatch is over.
    pub fn is_done(&self) -> (r: bool)
        requires
            self.wf(),
        ensures
            r == (self.begun() == self.visits().len()),
    {
        self.next == self.visits.len()
    }
}

/// The handler of the visited object that runs next: the one at `index` of
/// its handlers, and none when all have run or when the event was stopped
/// immediately. The handlers that ran before are not affected by a stop.
pub fn next_handler(handlers: &Vec<ObjectId>, index: usize, event: &Event) -> (r: Option<ObjectId>)
    ensures
        r == (if index < handlers@.len() && !event@.stopped_immediately() {
            Some(handlers@[index as int])
        } else {
            None
        }),
{
    if index < handlers.len() && !event.is_propagation_stopped_immediately() {
        Some(handlers[index])
    } else {
        None
    }
}

/// Whether a phase asks for the handlers that listen in the capturing phase.
pub fn phase_uses_capture(phase: EventPhase) -> (r: bool)
    ensures
        r == (phase == EventPhase::Capturing),
{
    match phase {
        EventPhase::Capturing => true,
        _ => false,
    }
}

} // verus!
