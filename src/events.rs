use vstd::prelude::*;

use crate::px::{Px, PxPosition};

verus! {

/// A pointer button.
#[derive(Debug, Clone, Copy, PartialEq, Eq, Hash, Structural)]
pub enum PressKeyEventType {
    Left,
    Right,
    Middle,
}

/// How far a scroll moved, in pixels.
#[derive(Debug, Clone, Copy, PartialEq, Eq, Hash, Structural)]
pub struct ScrollEventContent {
    pub delta_x: Px,
    pub delta_y: Px,
}

/// What happened to the pointer.
#[derive(Debug, Clone, Copy, PartialEq, Eq, Hash, Structural)]
pub enum CursorEventContent {
    Moved(PxPosition),
    Left,
    Pressed(PressKeyEventType),
    Released(PressKeyEventType),
    Scrolled(ScrollEventContent),
}

/// A pointer event, stamped with the microseconds elapsed since a point the
/// frame driver chose.
#[derive(Debug, Clone, Copy, PartialEq, Eq, Hash, Structural)]
pub struct CursorEvent {
    pub timestamp: u64,
    pub content: CursorEventContent,
}

/// Input captured between two frames, handed out once.
pub struct EventQueue<E> {
    pub events: Vec<E>,
}

/// What draining a queue that holds `pending` hands out, and what it leaves.
pub open spec fn drain<E>(pending: Seq<E>) -> (Seq<E>, Seq<E>) {
    (pending, Seq::empty())
}

impl<E> EventQueue<E> {
    pub fn new() -> (r: Self)
        ensures
            r.events@.len() == 0,
    {
        EventQueue { events: Vec::new() }
    }

    /// Queues `event` after those already pending.
    pub fn push_event(&mut self, event: E)
        ensures
            final(self).events@ == old(self).events@.push(event),
    {
        self.events.push(event);
    }

    /// Hands out every pending event, oldest first, and leaves the queue
    /// empty.
    pub fn take_events(&mut self) -> (r: Vec<E>)
        ensures
            r@ == drain(old(self).events@).0,
            final(self).events@ == drain(old(self).events@).1,
    {
        let mut taken = Vec::new();
        std::mem::swap(&mut taken, &mut self.events);
        taken
    }

    /// The number of pending events.
    pub fn len(&self) -> (r: usize)
        ensures
            r == self.events@.len(),
    {
        self.events.len()
    }
}

/// Events handed out by one drain never come out of the next: after a drain,
/// the next drain yields exactly what was queued in between.
pub proof fn lemma_drained_events_do_not_reappear<E>(pending: Seq<E>, later: Seq<E>)
    ensures
        drain(drain(pending).1 + later).0 == later,
        drain(pending).0 == pending,
{
    assert(Seq::<E>::empty() + later =~= later);
}

/// The pointer: where it is, if over the window, and its queued events.
pub struct CursorState {
    pub position: Option<PxPosition>,
    pub queue: EventQueue<CursorEvent>,
}

impl CursorState {
    pub fn new() -> (r: CursorState)
        ensures
            r.position is None,
            r.queue.events@.len() == 0,
    {
        CursorState { position: None, queue: EventQueue::new() }
    }

    pub fn update_position(&mut self, position: Option<PxPosition>)
        ensures
            final(self).position == position,
            final(self).queue.events@ == old(self).queue.events@,
    {
        self.position = position;
    }

    /// Forgets the position, as when the pointer leaves the window.
    pub fn clear(&mut self)
        ensures
            final(self).position is None,
            final(self).queue.events@ == old(self).queue.events@,
    {
        self.position = None;
    }

    pub fn position(&self) -> (r: Option<PxPosition>)
        ensures
            r == self.position,
    {
        self.position
    }

    pub fn push_event(&mut self, event: CursorEvent)
        ensures
            final(self).position == old(self).position,
            final(self).queue.events@ == old(self).queue.events@.push(event),
    {
        self.queue.push_event(event);
    }

    pub fn take_events(&mut self) -> (r: Vec<CursorEvent>)
        ensures
            final(self).position == old(self).position,
            r@ == drain(old(self).queue.events@).0,
            final(self).queue.events@ == drain(old(self).queue.events@).1,
    {
        self.queue.take_events()
    }
}

/// Raw pointer input as the windowing layer reports it, in pixels.
#[derive(Debug, Clone, Copy, PartialEq, Eq, Hash, Structural)]
pub enum PointerInput {
    /// The pointer moved to this position over the window.
    CursorMoved(PxPosition),
    /// The pointer left the window.
    CursorLeft,
    /// A button went down (`pressed`) or up.
    Button { pressed: bool, button: PressKeyEventType },
    /// The wheel or touchpad scrolled.
    Wheel(ScrollEventContent),
    /// A touch began at this position.
    TouchStarted(PxPosition),
    /// A touch moved to this position.
    TouchMoved(PxPosition),
    /// A touch ended or was cancelled.
    TouchEnded,
}

/// The pointer position after `input`, and the event `input` queues, if any.
/// A touch acts as the left button at the touched position.
pub open spec fn pointer_step(position: Option<PxPosition>, input: PointerInput) -> (
    Option<PxPosition>,
    Option<CursorEventContent>,
) {
    match input {
        PointerInput::CursorMoved(p) => (Some(p), None),
        PointerInput::CursorLeft => (None, None),
        PointerInput::Button { pressed, button } => (
            position,
            Some(
                if pressed {
                    CursorEventContent::Pressed(button)
                } else {
                    CursorEventContent::Released(button)
                },
            ),
        ),
        PointerInput::Wheel(d) => (position, Some(CursorEventContent::Scrolled(d))),
        PointerInput::TouchStarted(p) => (Some(p), Some(CursorEventContent::Pressed(PressKeyEventType::Left))),
        PointerInput::TouchMoved(p) => (Some(p), None),
        PointerInput::TouchEnded => (None, Some(CursorEventContent::Released(PressKeyEventType::Left))),
    }
}

impl CursorState {
    /// Applies one raw pointer input received at `timestamp`: moves or
    /// forgets the position and queues the event it stands for.
    pub fn apply(&mut self, input: PointerInput, timestamp: u64)
        ensures
            final(self).position == pointer_step(old(self).position, input).0,
            final(self).queue.events@ == match pointer_step(old(self).position, input).1 {
                Some(content) => old(self).queue.events@.push(CursorEvent { timestamp, content }),
                None => old(self).queue.events@,
            },
    {
        match input {
            PointerInput::CursorMoved(p) => self.update_position(Some(p)),
            PointerInput::CursorLeft => self.clear(),
            PointerInput::Button { pressed, button } => {
                let content = if pressed {
                    CursorEventContent::Pressed(button)
                } else {
                    CursorEventContent::Released(button)
                };
                self.push_event(CursorEvent { timestamp, content });
            },
            PointerInput::Wheel(d) => {
                self.push_event(CursorEvent { timestamp, content: CursorEventContent::Scrolled(d) })
            },
            PointerInput::TouchStarted(p) => {
                self.update_position(Some(p));
                self.push_event(
                    CursorEvent {
                        timestamp,
                        content: CursorEventContent::Pressed(PressKeyEventType::Left),
                    },
                );
            },
            PointerInput::TouchMoved(p) => self.update_position(Some(p)),
            PointerInput::TouchEnded => {
                self.push_event(
                    CursorEvent {
                        timestamp,
                        content: CursorEventContent::Released(PressKeyEventType::Left),
                    },
                );
                self.update_position(None);
            },
        }
    }
}

/// Whether some event of `events` presses the left button.
pub open spec fn has_left_press(events: Seq<CursorEvent>) -> bool {
    exists|i: int|
        0 <= i < events.len() && (#[trigger] events[i]).content == CursorEventContent::Pressed(
            PressKeyEventType::Left,
        )
}

/// Whether the frame's events hold a left click: what a toggle reacts to.
pub fn left_pressed(events: &Vec<CursorEvent>) -> (r: bool)
    ensures
        r == has_left_press(events@),
{
    let mut i: usize = 0;
    while i < events.len()
        invariant
            i <= events@.len(),
            forall|j: int|
                0 <= j < i ==> (#[trigger] events@[j]).content != CursorEventContent::Pressed(
                    PressKeyEventType::Left,
                ),
        decreases events@.len() - i,
    {
        if let CursorEventContent::Pressed(PressKeyEventType::Left) = events[i].content {
            return true;
        }
        i += 1;
    }
    false
}

/// What a state handler receives once per frame: the pointer position and
/// the whole frame's pointer and keyboard events.
pub struct StateHandlerInput<K> {
    pub cursor_position: Option<PxPosition>,
    pub cursor_events: Vec<CursorEvent>,
    pub keyboard_events: Vec<K>,
}

/// A node's reaction to the frame's input. Its effects live in state the
/// component shares with the world outside the tree; it returns nothing to
/// the layout.
pub trait StateHandler<K> {
    fn handle(&self, node: usize, input: &StateHandlerInput<K>);
}

} // verus!
