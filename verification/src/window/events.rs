//! Input events, and the queue that they wait in.
//!
//! `C` is the type of co-ordinates, which are only ever passed on.
use crate::window::deeplink::{requested_after, LaunchRequests};
use std::collections::VecDeque;
use vstd::prelude::*;

verus! {

/// A button of a game controller.
#[derive(Copy, Clone, PartialEq, Eq, Hash, Debug, Structural)]
pub enum Button {
    DPadLeft,
    DPadUp,
    DPadRight,
    DPadDown,
    Start,
    A,
    B,
    X,
    Y,
    LeftShoulder,
}

/// What touches the screen.
#[derive(Copy, Clone, PartialEq, Eq, Hash, Debug, Structural)]
pub enum FingerId {
    Mouse,
    Touch(i64),
    VirtualCursor,
    ButtonToTouch(Button),
    StickToTouch,
    DpadToTouch,
}

/// What a touch does.
#[derive(Copy, Clone, PartialEq, Eq, Hash, Debug, Structural)]
pub enum TouchPhase {
    Down,
    Move,
    Up,
}

/// The touches of an event: at most one place of each finger.
#[derive(Debug)]
pub struct Touches<C> {
    entries: Vec<(FingerId, C)>,
}

spec fn holds_finger<C>(s: Seq<(FingerId, C)>, finger: FingerId) -> bool {
    exists|i: int| 0 <= i < s.len() && (#[trigger] s[i]).0 == finger
}

spec fn finger_map<C>(s: Seq<(FingerId, C)>) -> Map<FingerId, C> {
    Map::new(
        |finger: FingerId| holds_finger(s, finger),
        |finger: FingerId| s[choose|i: int| 0 <= i < s.len() && (#[trigger] s[i]).0 == finger].1,
    )
}

spec fn distinct_fingers<C>(s: Seq<(FingerId, C)>) -> bool {
    forall|i: int, j: int| 0 <= i < j < s.len() ==> (#[trigger] s[i]).0 != (#[trigger] s[j]).0
}

proof fn lemma_finger_map_at<C>(s: Seq<(FingerId, C)>, i: int)
    requires
        distinct_fingers(s),
        0 <= i < s.len(),
    ensures
        finger_map(s).contains_key(s[i].0),
        finger_map(s)[s[i].0] == s[i].1,
{
    let finger = s[i].0;
    assert(holds_finger(s, finger));
    let j = choose|j: int| 0 <= j < s.len() && (#[trigger] s[j]).0 == finger;
    assert(i == j);
}

proof fn lemma_finger_map_update<C>(s: Seq<(FingerId, C)>, k: int, at: C)
    requires
        distinct_fingers(s),
        0 <= k < s.len(),
    ensures
        distinct_fingers(s.update(k, (s[k].0, at))),
        finger_map(s.update(k, (s[k].0, at))) == finger_map(s).insert(s[k].0, at),
{
    let finger = s[k].0;
    let t = s.update(k, (finger, at));
    assert forall|i: int| 0 <= i < t.len() implies (#[trigger] t[i]).0 == s[i].0 by {}
    assert(distinct_fingers(t));
    assert forall|f: FingerId| holds_finger(t, f) == holds_finger(s, f) by {
        if holds_finger(s, f) {
            let i = choose|i: int| 0 <= i < s.len() && (#[trigger] s[i]).0 == f;
            assert(t[i].0 == f);
        }
        if holds_finger(t, f) {
            let i = choose|i: int| 0 <= i < t.len() && (#[trigger] t[i]).0 == f;
            assert(s[i].0 == f);
        }
    }
    assert(holds_finger(s, finger));
    assert forall|f: FingerId| holds_finger(t, f) implies finger_map(t)[f] == finger_map(s).insert(
        finger,
        at,
    )[f] by {
        let i = choose|i: int| 0 <= i < t.len() && (#[trigger] t[i]).0 == f;
        lemma_finger_map_at(t, i);
        lemma_finger_map_at(s, i);
        if i != k {
            assert(s[i].0 != s[k].0);
        }
    }
    assert(finger_map(t) =~= finger_map(s).insert(finger, at));
}

proof fn lemma_finger_map_push<C>(s: Seq<(FingerId, C)>, finger: FingerId, at: C)
    requires
        distinct_fingers(s),
        !holds_finger(s, finger),
    ensures
        distinct_fingers(s.push((finger, at))),
        finger_map(s.push((finger, at))) == finger_map(s).insert(finger, at),
{
    let t = s.push((finger, at));
    assert(distinct_fingers(t)) by {
        assert forall|i: int, j: int| 0 <= i < j < t.len() implies (#[trigger] t[i]).0 != (
        #[trigger] t[j]).0 by {
            assert(t[i] == s[i]);
            if j < s.len() {
                assert(s[i].0 != s[j].0);
            }
        }
    }
    assert forall|f: FingerId| holds_finger(t, f) == (f == finger || holds_finger(s, f)) by {
        if holds_finger(s, f) {
            let i = choose|i: int| 0 <= i < s.len() && (#[trigger] s[i]).0 == f;
            assert(t[i].0 == f);
        }
        if f == finger {
            assert(t[s.len() as int].0 == f);
        }
        if holds_finger(t, f) {
            let i = choose|i: int| 0 <= i < t.len() && (#[trigger] t[i]).0 == f;
            if i < s.len() {
                assert(s[i].0 == f);
            }
        }
    }
    assert forall|f: FingerId| holds_finger(t, f) implies finger_map(t)[f] == finger_map(s).insert(
        finger,
        at,
    )[f] by {
        let i = choose|i: int| 0 <= i < t.len() && (#[trigger] t[i]).0 == f;
        lemma_finger_map_at(t, i);
        if i < s.len() {
            assert(s[i].0 == f);
            lemma_finger_map_at(s, i);
        }
    }
    assert(finger_map(t) =~= finger_map(s).insert(finger, at));
}

impl<C> View for Touches<C> {
    type V = Map<FingerId, C>;

    closed spec fn view(&self) -> Map<FingerId, C> {
        finger_map(self.entries@)
    }
}

impl<C: Copy> Touches<C> {
    pub closed spec fn wf(&self) -> bool {
        distinct_fingers(self.entries@)
    }

    /// A single touch.
    pub fn one(finger: FingerId, at: C) -> (r: Touches<C>)
        ensures
            r.wf(),
            r@ == Map::<FingerId, C>::empty().insert(finger, at),
    {
        let none: Vec<(FingerId, C)> = Vec::new();
        proof {
            assert(finger_map(none@) =~= Map::<FingerId, C>::empty());
        }
        let mut r = Touches { entries: none };
        r.insert(finger, at);
        r
    }

    /// Sets the place of a finger.
    pub fn insert(&mut self, finger: FingerId, at: C)
        requires
            old(self).wf(),
        ensures
            final(self).wf(),
            final(self)@ == old(self)@.insert(finger, at),
    {
        let mut i: usize = 0;
        while i < self.entries.len()
            invariant
                *self == *old(self),
                self.wf(),
                i <= self.entries@.len(),
                forall|j: int| 0 <= j < i ==> (#[trigger] self.entries@[j]).0 != finger,
            decreases self.entries@.len() - i,
        {
            if self.entries[i].0 == finger {
                proof {
                    lemma_finger_map_update(self.entries@, i as int, at);
                }
                self.entries.set(i, (finger, at));
                return;
            }
            i += 1;
        }
        proof {
            lemma_finger_map_push(self.entries@, finger, at);
        }
        self.entries.push((finger, at));
    }

    /// How many fingers there are.
    pub fn len(&self) -> (r: usize)
        ensures
            r == self.listed().len(),
    {
        self.entries.len()
    }

    /// The fingers and their places, in some order.
    pub closed spec fn listed(&self) -> Seq<(FingerId, C)> {
        self.entries@
    }

    /// The finger with the given index, and its place.
    pub fn get(&self, index: usize) -> (r: (FingerId, C))
        requires
            self.wf(),
            index < self.listed().len(),
        ensures
            r == self.listed()[index as int],
            self@.contains_key(r.0),
            self@[r.0] == r.1,
    {
        proof {
            lemma_finger_map_at(self.entries@, index as int);
        }
        self.entries[index]
    }
}

#[derive(Debug)]
pub enum TextInputEvent {
    Text(String),
    Backspace,
    Return,
}

#[derive(Debug)]
pub enum Event<C> {
    /// User requested quit.
    Quit,
    /// OS has informed the emulator it will soon become inactive.
    /// (iOS `applicationWillResignActive:`, Android `onPause()`)
    AppWillResignActive,
    /// OS has informed the emulator it will soon terminate.
    /// (iOS `applicationWillTerminate:`, Android `onDestroy()`)
    AppWillTerminate,
    TouchesDown(Touches<C>),
    TouchesMove(Touches<C>),
    TouchesUp(Touches<C>),
    /// User pressed F12, requesting that execution be paused and the debugger
    /// take over.
    EnterDebugger,
    TextInput(TextInputEvent),
}

/// What an event says.
pub enum EventView<C> {
    Quit,
    AppWillResignActive,
    AppWillTerminate,
    Touches(TouchPhase, Map<FingerId, C>),
    EnterDebugger,
    Text(Seq<char>),
    Backspace,
    Return,
}

impl<C> View for Event<C> {
    type V = EventView<C>;

    open spec fn view(&self) -> EventView<C> {
        match self {
            Event::Quit => EventView::Quit,
            Event::AppWillResignActive => EventView::AppWillResignActive,
            Event::AppWillTerminate => EventView::AppWillTerminate,
            Event::TouchesDown(t) => EventView::Touches(TouchPhase::Down, t@),
            Event::TouchesMove(t) => EventView::Touches(TouchPhase::Move, t@),
            Event::TouchesUp(t) => EventView::Touches(TouchPhase::Up, t@),
            Event::EnterDebugger => EventView::EnterDebugger,
            Event::TextInput(TextInputEvent::Text(text)) => EventView::Text(text@),
            Event::TextInput(TextInputEvent::Backspace) => EventView::Backspace,
            Event::TextInput(TextInputEvent::Return) => EventView::Return,
        }
    }
}

/// The event of a touch.
pub fn touches_event<C>(phase: TouchPhase, touches: Touches<C>) -> (r: Event<C>)
    ensures
        r@ == EventView::Touches(phase, touches@),
{
    match phase {
        TouchPhase::Down => Event::TouchesDown(touches),
        TouchPhase::Move => Event::TouchesMove(touches),
        TouchPhase::Up => Event::TouchesUp(touches),
    }
}

/// A button of a mouse.
#[derive(Copy, Clone, PartialEq, Eq, Debug, Structural)]
pub enum MouseButton {
    Left,
    Right,
    Other,
}

/// A key that means something.
#[derive(Copy, Clone, PartialEq, Eq, Debug, Structural)]
pub enum Key {
    F12,
    Backspace,
    Return,
    Other,
}

/// An event as the window system reports it, with the place that it is about:
/// `touch` in the app's co-ordinates, `tilt` in those of the simulated
/// accelerometer.
#[derive(Debug)]
pub enum HostEvent<C> {
    Quit,
    MouseButtonDown { mouse_btn: MouseButton, touch: C, tilt: C },
    MouseMotion { left: bool, right: bool, touch: C, tilt: C },
    MouseButtonUp { mouse_btn: MouseButton, touch: C, tilt: C },
    ControllerDeviceAdded { which: u32 },
    ControllerDeviceRemoved { which: u32 },
    /// A button was pressed or released; none where it has no meaning.
    ControllerButton { button: Option<Button>, pressed: bool },
    /// A stick was moved. `touch` is where the left stick, which `left` tells to
    /// be the one, points to now, and `centred` whether it is in its deadzone.
    ControllerAxisMotion { left: bool, touch: C, centred: bool },
    AppWillEnterBackground,
    AppTerminating,
    Finger { phase: TouchPhase, timestamp: u32, finger: i64, touch: C },
    MultiGesture { timestamp: u32 },
    KeyDown(Key),
    TextInput(String),
    /// A file was dropped, or a link opened.
    DropFile(String),
    Other,
}

/// Which directions of the D-pad are held, and whether that is a touch.
#[derive(Copy, Clone, PartialEq, Eq, Debug, Structural)]
pub struct DpadState {
    pub left: bool,
    pub right: bool,
    pub up: bool,
    pub down: bool,
    pub active: bool,
}

impl DpadState {
    pub open spec fn any_held(self) -> bool {
        self.left || self.right || self.up || self.down
    }

    /// The D-pad is a touch while any direction is held.
    pub open spec fn wf(self) -> bool {
        self.active == self.any_held()
    }

    pub open spec fn is_direction(button: Button) -> bool {
        button is DPadLeft || button is DPadRight || button is DPadUp || button is DPadDown
    }

    /// The state after a direction was pressed or released.
    pub open spec fn pressed(self, button: Button, pressed: bool) -> DpadState {
        let held = match button {
            Button::DPadLeft => DpadState { left: pressed, ..self },
            Button::DPadRight => DpadState { right: pressed, ..self },
            Button::DPadUp => DpadState { up: pressed, ..self },
            Button::DPadDown => DpadState { down: pressed, ..self },
            _ => self,
        };
        DpadState { active: held.any_held(), ..held }
    }

    /// How far right of the centre the touch is: opposite directions cancel.
    pub open spec fn dx(self) -> int {
        (if self.right {
            1int
        } else {
            0
        }) - (if self.left {
            1int
        } else {
            0
        })
    }

    /// How far below the centre the touch is.
    pub open spec fn dy(self) -> int {
        (if self.down {
            1int
        } else {
            0
        }) - (if self.up {
            1int
        } else {
            0
        })
    }

    /// What the touch does when the state changes to `next`, if anything.
    pub open spec fn phase_to(self, next: DpadState) -> Option<TouchPhase> {
        if !self.active && next.active {
            Some(TouchPhase::Down)
        } else if self.active && next.active {
            Some(TouchPhase::Move)
        } else if self.active {
            Some(TouchPhase::Up)
        } else {
            None
        }
    }
}

impl DpadState {
    /// The state after a direction was pressed or released.
    pub fn press(&self, button: Button, pressed: bool) -> (r: DpadState)
        requires
            DpadState::is_direction(button),
        ensures
            r == self.pressed(button, pressed),
            r.wf(),
    {
        let mut d: DpadState = *self;
        match button {
            Button::DPadLeft => {
                d.left = pressed;
            },
            Button::DPadRight => {
                d.right = pressed;
            },
            Button::DPadUp => {
                d.up = pressed;
            },
            _ => {
                d.down = pressed;
            },
        }
        d.active = d.left || d.right || d.up || d.down;
        d
    }

    /// The index of the touch's place among the nine of a [TouchMappings].
    pub fn place(&self) -> (r: usize)
        ensures
            r == 3 * (self.dy() + 1) + self.dx() + 1,
            r < 9,
    {
        let column: usize = if self.left == self.right {
            1
        } else if self.left {
            0
        } else {
            2
        };
        let row: usize = if self.up == self.down {
            1
        } else if self.up {
            0
        } else {
            2
        };
        3 * row + column
    }
}

fn button_is_direction(button: Button) -> (r: bool)
    ensures
        r == DpadState::is_direction(button),
{
    match button {
        Button::DPadLeft | Button::DPadUp | Button::DPadRight | Button::DPadDown => true,
        _ => false,
    }
}

/// Where controller input touches the screen, as far as the user asked for it.
pub struct TouchMappings<C> {
    /// The places of the D-pad, in rows: up left, up, up right; left, centre,
    /// right; down left, down, down right.
    pub dpad_to_touch: Option<Vec<C>>,
    pub button_to_touch: Vec<(Button, C)>,
    /// Whether the left stick is a touch.
    pub stick_to_touch: bool,
}

impl<C> TouchMappings<C> {
    pub open spec fn wf(&self) -> bool {
        self.dpad_to_touch matches Some(places) ==> places@.len() == 9
    }

    /// The place of a button, the first that is given for it.
    pub open spec fn place_of(&self, button: Button) -> Option<C> {
        first_place(self.button_to_touch@, button)
    }
}

/// The first place in `s` that is given for `button`.
pub open spec fn first_place<C>(s: Seq<(Button, C)>, button: Button) -> Option<C>
    decreases s.len(),
{
    if s.len() == 0 {
        None
    } else if s[0].0 == button {
        Some(s[0].1)
    } else {
        first_place(s.skip(1), button)
    }
}

impl<C: Copy> TouchMappings<C> {
    fn find(&self, button: Button) -> (r: Option<C>)
        ensures
            r == self.place_of(button),
    {
        let mut i: usize = 0;
        let ghost s = self.button_to_touch@;
        assert(s.skip(0) =~= s);
        while i < self.button_to_touch.len()
            invariant
                s == self.button_to_touch@,
                i <= s.len(),
                first_place(s, button) == first_place(s.skip(i as int), button),
            decreases s.len() - i,
        {
            let (b, place) = self.button_to_touch[i];
            if b == button {
                return Some(place);
            }
            assert(s.skip(i as int).skip(1) =~= s.skip(i + 1));
            i += 1;
        }
        None
    }
}

/// Fingers that do the same at the same time, of which there may be more.
#[derive(Debug)]
pub struct MultiTouch<C> {
    pub phase: TouchPhase,
    pub timestamp: u32,
    pub touches: Touches<C>,
}

pub struct MultiTouchView<C> {
    pub phase: TouchPhase,
    pub timestamp: u32,
    pub touches: Map<FingerId, C>,
}

impl<C> View for MultiTouch<C> {
    type V = MultiTouchView<C>;

    open spec fn view(&self) -> MultiTouchView<C> {
        MultiTouchView { phase: self.phase, timestamp: self.timestamp, touches: self.touches@ }
    }
}

/// Events that wait, and what later ones depend on.
pub struct Input<C> {
    event_queue: VecDeque<Event<C>>,
    /// Separate place for an extremely high-priority event (e.g. app about to
    /// terminate).
    high_priority_event: Option<Event<C>>,
    enable_event_polling: bool,
    multi_touch: Option<MultiTouch<C>>,
    dpad_state: DpadState,
    stick_active: bool,
    /// Where the mouse tilts the device to, and whether it does so now.
    virtual_accelerometer_last: Option<(C, bool)>,
    controller_updated: bool,
}

/// What can be observed of [Input].
#[verifier::ext_equal]
pub struct InputView<C> {
    pub queue: Seq<EventView<C>>,
    pub high_priority: Option<EventView<C>>,
    pub enabled: bool,
    pub multi_touch: Option<MultiTouchView<C>>,
    pub dpad: DpadState,
    pub stick_active: bool,
    pub tilt: Option<(C, bool)>,
    pub controller_updated: bool,
}

impl<C> View for Input<C> {
    type V = InputView<C>;

    closed spec fn view(&self) -> InputView<C> {
        InputView {
            queue: self.event_queue@.map_values(|e: Event<C>| e@),
            high_priority: match self.high_priority_event {
                Some(e) => Some(e@),
                None => None,
            },
            enabled: self.enable_event_polling,
            multi_touch: match self.multi_touch {
                Some(m) => Some(m@),
                None => None,
            },
            dpad: self.dpad_state,
            stick_active: self.stick_active,
            tilt: self.virtual_accelerometer_last,
            controller_updated: self.controller_updated,
        }
    }
}

/// What a device event asks for.
#[derive(Copy, Clone, PartialEq, Eq, Debug, Structural)]
pub enum Effect {
    Nothing,
    /// To open the controller with this index.
    OpenController(u32),
    /// To drop the controller with this instance id.
    DropController(u32),
}

/// A single touch, as a map.
pub open spec fn lone<C>(finger: FingerId, at: C) -> Map<FingerId, C> {
    Map::empty().insert(finger, at)
}

impl<C> InputView<C> {
    /// The D-pad is a touch while it is held, and no events are asked for while
    /// one of high priority waits.
    pub open spec fn wf(self) -> bool {
        &&& self.dpad.wf()
        &&& self.high_priority is Some ==> !self.enabled
    }

    pub open spec fn queued(self, event: EventView<C>) -> InputView<C> {
        InputView { queue: self.queue.push(event), ..self }
    }

    pub open spec fn touched(self, phase: TouchPhase, finger: FingerId, at: C) -> InputView<C> {
        self.queued(EventView::Touches(phase, lone(finger, at)))
    }

    /// The fingers that were waiting for more are an event.
    pub open spec fn flushed(self) -> InputView<C> {
        match self.multi_touch {
            Some(m) => InputView {
                multi_touch: None,
                ..self.queued(EventView::Touches(m.phase, m.touches))
            },
            None => self,
        }
    }

    /// After an event of the simulated accelerometer.
    pub open spec fn noted(self, event: HostEvent<C>) -> InputView<C> {
        match event {
            HostEvent::MouseButtonDown { mouse_btn: MouseButton::Right, tilt, .. } => InputView {
                tilt: Some((tilt, true)),
                ..self
            },
            HostEvent::MouseMotion { right: true, tilt, .. } => InputView {
                tilt: Some((tilt, true)),
                ..self
            },
            HostEvent::MouseButtonUp { mouse_btn: MouseButton::Right, tilt, .. } => InputView {
                tilt: Some((tilt, false)),
                ..self
            },
            _ => self,
        }
    }

    /// After a controller's button was pressed or released.
    pub open spec fn after_button(
        self,
        button: Button,
        pressed: bool,
        mappings: TouchMappings<C>,
    ) -> InputView<C> {
        match mappings.dpad_to_touch {
            Some(places) if DpadState::is_direction(button) => {
                let next = self.dpad.pressed(button, pressed);
                let at = places@[3 * (next.dy() + 1) + next.dx() + 1];
                let s = InputView { dpad: next, ..self };
                match self.dpad.phase_to(next) {
                    Some(phase) => s.touched(phase, FingerId::DpadToTouch, at),
                    None => s,
                }
            },
            _ => match mappings.place_of(button) {
                Some(at) => self.touched(
                    if pressed {
                        TouchPhase::Down
                    } else {
                        TouchPhase::Up
                    },
                    FingerId::ButtonToTouch(button),
                    at,
                ),
                None => self,
            },
        }
    }

    /// After the left stick was moved.
    pub open spec fn after_stick(self, at: C, centred: bool) -> InputView<C> {
        if centred && !self.stick_active {
            self
        } else if centred {
            InputView { stick_active: false, ..self }.touched(
                TouchPhase::Up,
                FingerId::StickToTouch,
                at,
            )
        } else if !self.stick_active {
            InputView { stick_active: true, ..self }.touched(
                TouchPhase::Down,
                FingerId::StickToTouch,
                at,
            )
        } else {
            self.touched(TouchPhase::Move, FingerId::StickToTouch, at)
        }
    }

    /// After an event that is not one more finger of a multi-touch.
    pub open spec fn handled(
        self,
        event: HostEvent<C>,
        mappings: TouchMappings<C>,
        ios: bool,
    ) -> InputView<C> {
        let s = self.noted(event);
        match event {
            HostEvent::Quit => s.queued(EventView::Quit),
            HostEvent::MouseButtonDown { mouse_btn: MouseButton::Left, touch, .. } => s.touched(
                TouchPhase::Down,
                FingerId::Mouse,
                touch,
            ),
            HostEvent::MouseMotion { left: true, touch, .. } => s.touched(
                TouchPhase::Move,
                FingerId::Mouse,
                touch,
            ),
            HostEvent::MouseButtonUp { mouse_btn: MouseButton::Left, touch, .. } => s.touched(
                TouchPhase::Up,
                FingerId::Mouse,
                touch,
            ),
            HostEvent::ControllerButton { button, pressed } => {
                let s = InputView { controller_updated: true, ..s };
                match button {
                    Some(button) => s.after_button(button, pressed, mappings),
                    None => s,
                }
            },
            HostEvent::ControllerAxisMotion { left, touch, centred } => {
                let s = InputView { controller_updated: true, ..s };
                if mappings.stick_to_touch && left {
                    s.after_stick(touch, centred)
                } else {
                    s
                }
            },
            HostEvent::AppWillEnterBackground if !ios => InputView {
                high_priority: Some(EventView::AppWillResignActive),
                enabled: false,
                ..s
            },
            HostEvent::AppTerminating => InputView {
                high_priority: Some(EventView::AppWillTerminate),
                enabled: false,
                ..s
            },
            HostEvent::Finger { phase, timestamp, finger, touch } => InputView {
                multi_touch: Some(
                    MultiTouchView { phase, timestamp, touches: lone(FingerId::Touch(finger), touch) },
                ),
                ..s
            },
            HostEvent::KeyDown(Key::F12) => s.queued(EventView::EnterDebugger),
            HostEvent::KeyDown(Key::Backspace) => s.queued(EventView::Backspace),
            HostEvent::KeyDown(Key::Return) => s.queued(EventView::Return),
            HostEvent::TextInput(text) => s.queued(EventView::Text(text@)),
            _ => s,
        }
    }

    /// After an event.
    ///
    /// To implement multi-touch, same touch events at the same timestamp are
    /// accumulated. This is consistent with UIKit.
    pub open spec fn fed(
        self,
        event: HostEvent<C>,
        mappings: TouchMappings<C>,
        ios: bool,
    ) -> InputView<C> {
        match (self.multi_touch, event) {
            (
                Some(m),
                HostEvent::Finger { phase, timestamp, finger, touch },
            ) if phase == m.phase && timestamp == m.timestamp => InputView {
                multi_touch: Some(
                    MultiTouchView { touches: m.touches.insert(FingerId::Touch(finger), touch), ..m },
                ),
                ..self
            },
            (
                Some(m),
                HostEvent::MultiGesture { timestamp },
            ) if timestamp == m.timestamp => self,
            _ => self.flushed().handled(event, mappings, ios),
        }
    }

    /// The events in the order in which they are popped.
    pub open spec fn upcoming(self) -> Seq<EventView<C>> {
        match self.high_priority {
            Some(event) => seq![event] + self.queue,
            None => self.queue,
        }
    }
}

/// When nothing has happened yet.
pub open spec fn fresh_input<C>() -> InputView<C> {
    InputView {
        queue: Seq::empty(),
        high_priority: None,
        enabled: true,
        multi_touch: None,
        dpad: DpadState { left: false, right: false, up: false, down: false, active: false },
        stick_active: false,
        tilt: None,
        controller_updated: false,
    }
}

/// What the window system must do about an event.
pub open spec fn effect_of<C>(event: HostEvent<C>) -> Effect {
    match event {
        HostEvent::ControllerDeviceAdded { which } => Effect::OpenController(which),
        HostEvent::ControllerDeviceRemoved { which } => Effect::DropController(which),
        _ => Effect::Nothing,
    }
}

/// The app that is requested after an event: a link comes as a dropped file.
pub open spec fn requested_after_event<C>(
    requested: Option<Seq<char>>,
    event: HostEvent<C>,
) -> Option<Seq<char>> {
    match event {
        HostEvent::DropFile(name) => requested_after(requested, name@),
        _ => requested,
    }
}

impl<C: Copy> Input<C> {
    /// The touches in the multi-touch are of distinct fingers.
    pub closed spec fn touches_wf(&self) -> bool {
        self.multi_touch matches Some(m) ==> m.touches.wf()
    }

    pub open spec fn wf(&self) -> bool {
        &&& self@.wf()
        &&& self.touches_wf()
    }

    /// Nothing has happened yet.
    pub fn new() -> (r: Input<C>)
        ensures
            r.wf(),
            r@ == fresh_input::<C>(),
    {
        let r = Input {
            event_queue: VecDeque::new(),
            high_priority_event: None,
            enable_event_polling: true,
            multi_touch: None,
            dpad_state: DpadState {
                left: false,
                right: false,
                up: false,
                down: false,
                active: false,
            },
            stick_active: false,
            virtual_accelerometer_last: None,
            controller_updated: false,
        };
        assert(r@.queue =~= Seq::empty());
        r
    }

    /// Whether events are still asked for.
    pub fn wants_events(&self) -> (r: bool)
        ensures
            r == self@.enabled,
    {
        self.enable_event_polling
    }

    fn queue(&mut self, event: Event<C>)
        ensures
            final(self)@ == old(self)@.queued(event@),
            final(self).touches_wf() == old(self).touches_wf(),
    {
        self.event_queue.push_back(event);
        assert(self@.queue =~= old(self)@.queue.push(event@));
    }

    fn queue_touch(&mut self, phase: TouchPhase, finger: FingerId, at: C)
        ensures
            final(self)@ == old(self)@.touched(phase, finger, at),
            final(self).touches_wf() == old(self).touches_wf(),
    {
        let touches = Touches::one(finger, at);
        self.queue(touches_event(phase, touches));
    }

    /// Ends a multi-touch: its fingers become an event. Returns whether there was
    /// one.
    pub fn flush(&mut self) -> (r: bool)
        requires
            old(self).wf(),
        ensures
            final(self).wf(),
            final(self)@ == old(self)@.flushed(),
            r == (old(self)@.multi_touch is Some),
    {
        match self.multi_touch.take() {
            Some(m) => {
                self.queue(touches_event(m.phase, m.touches));
                true
            },
            None => false,
        }
    }

    fn note(&mut self, event: &HostEvent<C>)
        requires
            old(self).wf(),
        ensures
            final(self).wf(),
            final(self)@ == old(self)@.noted(*event),
    {
        match event {
            HostEvent::MouseButtonDown { mouse_btn: MouseButton::Right, tilt, .. } => {
                self.virtual_accelerometer_last = Some((*tilt, true));
            },
            HostEvent::MouseMotion { right: true, tilt, .. } => {
                self.virtual_accelerometer_last = Some((*tilt, true));
            },
            HostEvent::MouseButtonUp { mouse_btn: MouseButton::Right, tilt, .. } => {
                self.virtual_accelerometer_last = Some((*tilt, false));
            },
            _ => {},
        }
    }

    fn handle_dpad(&mut self, button: Button, pressed: bool, places: &Vec<C>)
        requires
            old(self).wf(),
            places@.len() == 9,
            DpadState::is_direction(button),
        ensures
            final(self).wf(),
            ({
                let before = old(self)@;
                let next = before.dpad.pressed(button, pressed);
                let at = places@[3 * (next.dy() + 1) + next.dx() + 1];
                let s = InputView { dpad: next, ..before };
                final(self)@ == match before.dpad.phase_to(next) {
                    Some(phase) => s.touched(phase, FingerId::DpadToTouch, at),
                    None => s,
                }
            }),
    {
        let was_active: bool = self.dpad_state.active;
        let next: DpadState = self.dpad_state.press(button, pressed);
        self.dpad_state = next;
        let at: C = places[next.place()];
        if !was_active && next.active {
            // New touch
            self.queue_touch(TouchPhase::Down, FingerId::DpadToTouch, at);
        } else if was_active && next.active {
            // Move existing touch
            self.queue_touch(TouchPhase::Move, FingerId::DpadToTouch, at);
        } else if was_active {
            // Release touch
            self.queue_touch(TouchPhase::Up, FingerId::DpadToTouch, at);
        }
    }

    fn handle_button(&mut self, button: Button, pressed: bool, mappings: &TouchMappings<C>)
        requires
            old(self).wf(),
            mappings.wf(),
        ensures
            final(self).wf(),
            final(self)@ == old(self)@.after_button(button, pressed, *mappings),
    {
        if button_is_direction(button) {
            if let Some(places) = &mappings.dpad_to_touch {
                self.handle_dpad(button, pressed, places);
                return;
            }
        }
        if let Some(at) = mappings.find(button) {
            let phase: TouchPhase = if pressed {
                TouchPhase::Down
            } else {
                TouchPhase::Up
            };
            self.queue_touch(phase, FingerId::ButtonToTouch(button), at);
        }
    }

    fn handle_stick(&mut self, at: C, centred: bool)
        requires
            old(self).wf(),
        ensures
            final(self).wf(),
            final(self)@ == old(self)@.after_stick(at, centred),
    {
        if centred {
            if self.stick_active {
                // Release touch when stick returns to deadzone
                self.stick_active = false;
                self.queue_touch(TouchPhase::Up, FingerId::StickToTouch, at);
            }
            // Ignore deadzone events when stick is inactive
        } else if !self.stick_active {
            // New touch
            self.stick_active = true;
            self.queue_touch(TouchPhase::Down, FingerId::StickToTouch, at);
        } else {
            // Move existing touch
            self.queue_touch(TouchPhase::Move, FingerId::StickToTouch, at);
        }
    }

    fn handle(
        &mut self,
        event: HostEvent<C>,
        mappings: &TouchMappings<C>,
        ios: bool,
        requests: &mut LaunchRequests,
    ) -> (effect: Effect)
        requires
            old(self).wf(),
            old(self)@.enabled,
            old(self)@.multi_touch is None,
            mappings.wf(),
        ensures
            final(self).wf(),
            final(self)@ == old(self)@.handled(event, *mappings, ios),
            final(requests)@ == requested_after_event(old(requests)@, event),
            effect == effect_of(event),
    {
        self.note(&event);
        match event {
            HostEvent::Quit => {
                self.queue(Event::Quit);
            },
            HostEvent::MouseButtonDown { mouse_btn: MouseButton::Left, touch, .. } => {
                self.queue_touch(TouchPhase::Down, FingerId::Mouse, touch);
            },
            HostEvent::MouseMotion { left: true, touch, .. } => {
                self.queue_touch(TouchPhase::Move, FingerId::Mouse, touch);
            },
            HostEvent::MouseButtonUp { mouse_btn: MouseButton::Left, touch, .. } => {
                self.queue_touch(TouchPhase::Up, FingerId::Mouse, touch);
            },
            HostEvent::ControllerDeviceAdded { which } => {
                return Effect::OpenController(which);
            },
            HostEvent::ControllerDeviceRemoved { which } => {
                return Effect::DropController(which);
            },
            // Note that accelerometer simulation with analog sticks is
            // handled with polling, rather than being event-based.
            HostEvent::ControllerButton { button, pressed } => {
                self.controller_updated = true;
                if let Some(button) = button {
                    self.handle_button(button, pressed, mappings);
                }
            },
            HostEvent::ControllerAxisMotion { left, touch, centred } => {
                self.controller_updated = true;
                if mappings.stick_to_touch && left {
                    self.handle_stick(touch, centred);
                }
            },
            HostEvent::AppWillEnterBackground => {
                // iOS fires a spurious applicationWillResignActive during
                // the launch presentation (the SDL view-controller
                // appearance-transition churn). Treating it as a quit (as
                // below) kills the app at startup before anything renders.
                // Ignore background transitions on iOS for now so the app
                // stays alive and keeps rendering.
                // TODO: properly pause/resume audio and state instead.
                if !ios {
                    self.high_priority_event = Some(Event::AppWillResignActive);
                    // For some reason, if we don't pause event polling, we will
                    // never finish handling the event.
                    // TODO: Add a mechanism for re-enabling polling, if at some
                    // point we support returning to the foreground.
                    self.enable_event_polling = false;
                }
            },
            HostEvent::AppTerminating => {
                self.high_priority_event = Some(Event::AppWillTerminate);
                self.enable_event_polling = false;
            },
            HostEvent::Finger { phase, timestamp, finger, touch } => {
                let touches = Touches::one(FingerId::Touch(finger), touch);
                self.multi_touch = Some(MultiTouch { phase, timestamp, touches });
            },
            HostEvent::KeyDown(Key::F12) => {
                self.queue(Event::EnterDebugger);
            },
            HostEvent::KeyDown(Key::Backspace) => {
                self.queue(Event::TextInput(TextInputEvent::Backspace));
            },
            HostEvent::KeyDown(Key::Return) => {
                self.queue(Event::TextInput(TextInputEvent::Return));
            },
            HostEvent::DropFile(name) => {
                requests.handle_possible_deeplink(name.as_str());
            },
            HostEvent::TextInput(text) => {
                self.queue(Event::TextInput(TextInputEvent::Text(text)));
            },
            _ => {},
        }
        Effect::Nothing
    }

    /// Takes an event. It may change what waits, ask something of the window
    /// system, and request an app.
    pub fn feed(
        &mut self,
        event: HostEvent<C>,
        mappings: &TouchMappings<C>,
        ios: bool,
        requests: &mut LaunchRequests,
    ) -> (effect: Effect)
        requires
            old(self).wf(),
            old(self)@.enabled,
            mappings.wf(),
        ensures
            final(self).wf(),
            final(self)@ == old(self)@.fed(event, *mappings, ios),
            final(requests)@ == requested_after_event(old(requests)@, event),
            effect == effect_of(event),
    {
        if let Some(mut m) = self.multi_touch.take() {
            match &event {
                HostEvent::Finger { phase, timestamp, finger, touch } => {
                    if *phase == m.phase && *timestamp == m.timestamp {
                        m.touches.insert(FingerId::Touch(*finger), *touch);
                        self.multi_touch = Some(m);
                        return Effect::Nothing;
                    }
                },
                HostEvent::MultiGesture { timestamp } => {
                    // TODO: handle gestures
                    if *timestamp == m.timestamp {
                        self.multi_touch = Some(m);
                        return Effect::Nothing;
                    }
                },
                _ => {},
            }
            self.multi_touch = Some(m);
        }
        let _ = self.flush();
        self.handle(event, mappings, ios, requests)
    }

    /// Pop an event from the queue (in FIFO order, except for high priority
    /// events)
    pub fn pop_event(&mut self) -> (r: Option<Event<C>>)
        requires
            old(self).wf(),
        ensures
            final(self).wf(),
            match r {
                Some(event) => {
                    &&& old(self)@.upcoming().len() > 0
                    &&& event@ == old(self)@.upcoming()[0]
                    &&& final(self)@ == if old(self)@.high_priority is Some {
                        InputView { high_priority: None, ..old(self)@ }
                    } else {
                        InputView { queue: old(self)@.queue.skip(1), ..old(self)@ }
                    }
                },
                None => old(self)@.upcoming().len() == 0 && final(self)@ == old(self)@,
            },
    {
        match self.high_priority_event.take() {
            Some(event) => Some(event),
            None => {
                let r = self.event_queue.pop_front();
                match r {
                    Some(event) => {
                        assert(self@.queue =~= old(self)@.queue.skip(1));
                        assert(event@ == old(self)@.queue[0]);
                        Some(event)
                    },
                    None => {
                        assert(old(self)@.queue.len() == 0);
                        assert(self@.queue =~= old(self)@.queue);
                        None
                    },
                }
            },
        }
    }
}

/// Polling is skipped if it was done less than this ago, in nanoseconds: roughly
/// twice per frame, to try to avoid missing frames sometimes.
pub const POLL_INTERVAL: u64 = 8_333_333;

/// Whether to poll, given the nanoseconds since it was done.
pub fn poll_is_due(elapsed: u64) -> (r: bool)
    ensures
        r == (elapsed >= POLL_INTERVAL),
{
    elapsed >= POLL_INTERVAL
}

/// What the virtual cursor does, given whether it is pressed, whether that has
/// changed, and whether it has moved.
pub open spec fn cursor_phase(pressed: bool, pressed_changed: bool, moved: bool) -> Option<
    TouchPhase,
> {
    if pressed_changed {
        Some(
            if pressed {
                TouchPhase::Down
            } else {
                TouchPhase::Up
            },
        )
    } else if pressed && moved {
        Some(TouchPhase::Move)
    } else {
        None
    }
}

impl<C: Copy> Input<C> {
    /// Starts a round of polling.
    pub fn begin_poll(&mut self)
        requires
            old(self).wf(),
        ensures
            final(self).wf(),
            final(self)@ == (InputView { controller_updated: false, ..old(self)@ }),
    {
        self.controller_updated = false;
    }

    /// Whether a controller has been used in this round of polling, so that the
    /// virtual cursor must be updated.
    pub fn controller_updated(&self) -> (r: bool)
        ensures
            r == self@.controller_updated,
    {
        self.controller_updated
    }

    /// Takes what the virtual cursor has done.
    pub fn cursor_updated(&mut self, pressed: bool, pressed_changed: bool, moved: bool, at: C)
        requires
            old(self).wf(),
        ensures
            final(self).wf(),
            final(self)@ == match cursor_phase(pressed, pressed_changed, moved) {
                Some(phase) => old(self)@.touched(phase, FingerId::VirtualCursor, at),
                None => old(self)@,
            },
    {
        if pressed_changed {
            let phase: TouchPhase = if pressed {
                TouchPhase::Down
            } else {
                TouchPhase::Up
            };
            self.queue_touch(phase, FingerId::VirtualCursor, at);
        } else if pressed && moved {
            self.queue_touch(TouchPhase::Move, FingerId::VirtualCursor, at);
        }
    }

    /// Where the mouse tilts the device to, while it does.
    pub fn tilt(&self) -> (r: Option<C>)
        ensures
            r == match self@.tilt {
                Some((at, true)) => Some(at),
                _ => None,
            },
    {
        match self.virtual_accelerometer_last {
            Some((at, held)) => if held {
                Some(at)
            } else {
                None
            },
            None => None,
        }
    }
}

/// Events are popped in the order in which they were queued.
pub proof fn law_fifo<C>(s: InputView<C>, event: EventView<C>)
    ensures
        s.queued(event).upcoming() == s.upcoming().push(event),
{
    assert(s.queued(event).upcoming() =~= s.upcoming().push(event));
}

/// That the app is about to terminate is popped next, whatever waits, and no
/// more events are asked for.
pub proof fn law_termination_comes_first<C>(
    s: InputView<C>,
    mappings: TouchMappings<C>,
    ios: bool,
)
    requires
        s.wf(),
        s.enabled,
    ensures
        ({
            let after = s.fed(HostEvent::AppTerminating, mappings, ios);
            &&& after.upcoming()[0] == EventView::<C>::AppWillTerminate
            &&& after.upcoming().skip(1) == s.flushed().queue
            &&& !after.enabled
        }),
{
    let after = s.fed(HostEvent::AppTerminating, mappings, ios);
    assert(after.upcoming().skip(1) =~= s.flushed().queue);
}

/// The D-pad's touch goes down when the first direction is pressed, moves while
/// one is held, and goes up when the last is released.
pub proof fn law_dpad_touch(d: DpadState, button: Button, pressed: bool)
    requires
        d.wf(),
        DpadState::is_direction(button),
    ensures
        ({
            let next = d.pressed(button, pressed);
            &&& next.wf()
            &&& d.phase_to(next) == if d.any_held() {
                Some(
                    if next.any_held() {
                        TouchPhase::Move
                    } else {
                        TouchPhase::Up
                    },
                )
            } else if pressed {
                Some(TouchPhase::Down)
            } else {
                None
            }
        }),
{
}

/// The stick's touch goes down when the stick leaves its deadzone, moves while it
/// is out of it, and goes up when it returns.
pub proof fn law_stick_touch<C>(s: InputView<C>, at: C, centred: bool)
    ensures
        s.after_stick(at, centred).stick_active == !centred,
        s.after_stick(at, centred).queue == if centred && !s.stick_active {
            s.queue
        } else {
            s.queue.push(
                EventView::Touches(
                    if centred {
                        TouchPhase::Up
                    } else if s.stick_active {
                        TouchPhase::Move
                    } else {
                        TouchPhase::Down
                    },
                    lone(FingerId::StickToTouch, at),
                ),
            )
        },
{
}

/// The state after a number of events.
pub open spec fn fed_all<C>(
    s: InputView<C>,
    events: Seq<HostEvent<C>>,
    mappings: TouchMappings<C>,
    ios: bool,
) -> InputView<C>
    decreases events.len(),
{
    if events.len() == 0 {
        s
    } else {
        fed_all(s, events.drop_last(), mappings, ios).fed(events.last(), mappings, ios)
    }
}

/// The last place of each finger in a number of finger events.
pub open spec fn last_places<C>(events: Seq<HostEvent<C>>) -> Map<FingerId, C>
    decreases events.len(),
{
    if events.len() == 0 {
        Map::empty()
    } else {
        match events.last() {
            HostEvent::Finger { finger, touch, .. } => last_places(events.drop_last()).insert(
                FingerId::Touch(finger),
                touch,
            ),
            _ => last_places(events.drop_last()),
        }
    }
}

/// Fingers that do the same at the same time are one event, with the last place
/// of each.
pub proof fn law_multi_touch_is_one_event<C>(
    s: InputView<C>,
    events: Seq<HostEvent<C>>,
    mappings: TouchMappings<C>,
    ios: bool,
    phase: TouchPhase,
    timestamp: u32,
)
    requires
        s.multi_touch is None,
        events.len() > 0,
        forall|i: int|
            0 <= i < events.len() ==> (#[trigger] events[i] matches HostEvent::Finger {
                phase: p,
                timestamp: t,
                ..
            } && p == phase && t == timestamp),
    ensures
        fed_all(s, events, mappings, ios) == (InputView {
            multi_touch: Some(MultiTouchView { phase, timestamp, touches: last_places(events) }),
            ..s
        }),
        fed_all(s, events, mappings, ios).flushed() == s.queued(
            EventView::Touches(phase, last_places(events)),
        ),
    decreases events.len(),
{
    let front = events.drop_last();
    assert(events[events.len() - 1] == events.last());
    if front.len() > 0 {
        assert forall|i: int| 0 <= i < front.len() implies (#[trigger] front[i] matches
            HostEvent::Finger { phase: p, timestamp: t, .. } && p == phase && t == timestamp) by {
            assert(front[i] == events[i]);
        }
        law_multi_touch_is_one_event(s, front, mappings, ios, phase, timestamp);
    } else {
        assert(fed_all(s, front, mappings, ios) == s);
        assert(last_places(front) == Map::<FingerId, C>::empty());
    }
}

/// What has been queued once the fingers that wait for more are an event.
pub open spec fn queue_with_fingers<C>(s: InputView<C>) -> Seq<EventView<C>> {
    match s.multi_touch {
        Some(m) => s.queue.push(EventView::Touches(m.phase, m.touches)),
        None => s.queue,
    }
}

/// A touch of one finger.
pub open spec fn touch_of<C>(phase: TouchPhase, finger: FingerId, at: C) -> EventView<C> {
    EventView::Touches(phase, Map::empty().insert(finger, at))
}

proof fn lemma_first_place<C>(s: Seq<(Button, C)>, button: Button, i: int)
    requires
        0 <= i <= s.len(),
        i < s.len() ==> s[i].0 == button,
        forall|j: int| 0 <= j < i ==> (#[trigger] s[j]).0 != button,
    ensures
        first_place(s, button) == if i < s.len() {
            Some(s[i].1)
        } else {
            None
        },
    decreases s.len(),
{
    if s.len() > 0 && i > 0 {
        assert(s[0].0 != button);
        assert forall|j: int| 0 <= j < i - 1 implies (#[trigger] s.skip(1)[j]).0 != button by {
            assert(s.skip(1)[j] == s[j + 1]);
        }
        lemma_first_place(s.skip(1), button, i - 1);
    }
}

/// A button that has a place, and is not one of a D-pad that has places, is a
/// finger of its own: pressing it is one touch down and releasing it one touch up,
/// at the first place that is given for it, whatever else is held. Without a place
/// it does nothing.
///
/// `i` is where its first place is, the number of places where there is none.
pub proof fn law_button_is_a_finger<C>(
    s: InputView<C>,
    button: Button,
    pressed: bool,
    mappings: TouchMappings<C>,
    ios: bool,
    i: int,
)
    requires
        mappings.dpad_to_touch is None || !(button is DPadLeft || button is DPadRight
            || button is DPadUp || button is DPadDown),
        0 <= i <= mappings.button_to_touch@.len(),
        i < mappings.button_to_touch@.len() ==> mappings.button_to_touch@[i].0 == button,
        forall|j: int| 0 <= j < i ==> (#[trigger] mappings.button_to_touch@[j]).0 != button,
    ensures
        s.fed(HostEvent::ControllerButton { button: Some(button), pressed }, mappings, ios) == (
        InputView {
            queue: if i < mappings.button_to_touch@.len() {
                queue_with_fingers(s).push(
                    touch_of(
                        if pressed {
                            TouchPhase::Down
                        } else {
                            TouchPhase::Up
                        },
                        FingerId::ButtonToTouch(button),
                        mappings.button_to_touch@[i].1,
                    ),
                )
            } else {
                queue_with_fingers(s)
            },
            multi_touch: None,
            controller_updated: true,
            ..s
        }),
{
    lemma_first_place(mappings.button_to_touch@, button, i);
}

/// Whether a direction is held.
pub open spec fn is_held(d: DpadState, direction: Button) -> bool {
    match direction {
        Button::DPadLeft => d.left,
        Button::DPadRight => d.right,
        Button::DPadUp => d.up,
        Button::DPadDown => d.down,
        _ => false,
    }
}

/// A D-pad with places is one finger. The direction that is pressed is held until
/// it is released, and the others stay as they are. The finger is down while any
/// is held. It is in the column of the one of left and right that is held alone,
/// and in the row of the one of up and down that is, and else in the middle.
pub proof fn law_dpad_is_a_finger<C>(
    s: InputView<C>,
    direction: Button,
    pressed: bool,
    mappings: TouchMappings<C>,
    ios: bool,
    other: Button,
)
    requires
        s.wf(),
        mappings.wf(),
        mappings.dpad_to_touch is Some,
        direction is DPadLeft || direction is DPadRight || direction is DPadUp
            || direction is DPadDown,
    ensures
        ({
            let after = s.fed(
                HostEvent::ControllerButton { button: Some(direction), pressed },
                mappings,
                ios,
            );
            let d = after.dpad;
            let before_any = s.dpad.left || s.dpad.right || s.dpad.up || s.dpad.down;
            let after_any = d.left || d.right || d.up || d.down;
            let column: int = if d.left && !d.right {
                0
            } else if d.right && !d.left {
                2
            } else {
                1
            };
            let row: int = if d.up && !d.down {
                0
            } else if d.down && !d.up {
                2
            } else {
                1
            };
            let at = mappings.dpad_to_touch->Some_0@[row * 3 + column];
            &&& is_held(d, direction) == pressed
            &&& other != direction ==> is_held(d, other) == is_held(s.dpad, other)
            &&& d.active == after_any
            &&& after.queue == if !before_any && !after_any {
                queue_with_fingers(s)
            } else {
                queue_with_fingers(s).push(
                    touch_of(
                        if !after_any {
                            TouchPhase::Up
                        } else if before_any {
                            TouchPhase::Move
                        } else {
                            TouchPhase::Down
                        },
                        FingerId::DpadToTouch,
                        at,
                    ),
                )
            }
            &&& after == (InputView {
                queue: after.queue,
                dpad: d,
                multi_touch: None,
                controller_updated: true,
                ..s
            })
        }),
{
}

/// The left stick is a finger of its own where the user wants that, which is down
/// while the stick is out of its deadzone. The right one never is.
pub proof fn law_stick_is_a_finger<C>(
    s: InputView<C>,
    left: bool,
    touch: C,
    centred: bool,
    mappings: TouchMappings<C>,
    ios: bool,
)
    ensures
        ({
            let after = s.fed(
                HostEvent::ControllerAxisMotion { left, touch, centred },
                mappings,
                ios,
            );
            let used = left && mappings.stick_to_touch;
            let was = s.stick_active;
            after == (InputView {
                queue: if used && (was || !centred) {
                    queue_with_fingers(s).push(
                        touch_of(
                            if centred {
                                TouchPhase::Up
                            } else if was {
                                TouchPhase::Move
                            } else {
                                TouchPhase::Down
                            },
                            FingerId::StickToTouch,
                            touch,
                        ),
                    )
                } else {
                    queue_with_fingers(s)
                },
                stick_active: if used {
                    !centred
                } else {
                    was
                },
                multi_touch: None,
                controller_updated: true,
                ..s
            })
        }),
{
}

/// The mouse is a finger of its own while its left button is held: pressing,
/// moving and releasing are one touch each, at the place of the mouse. With its
/// right button it tilts the device to where it points, until that is released.
/// Whatever else is held does not matter to it.
pub proof fn law_mouse_is_a_finger<C>(
    s: InputView<C>,
    mouse_btn: MouseButton,
    left: bool,
    right: bool,
    touch: C,
    tilt: C,
    mappings: TouchMappings<C>,
    ios: bool,
)
    ensures
        ({
            let queue = queue_with_fingers(s);
            let down = s.fed(HostEvent::MouseButtonDown { mouse_btn, touch, tilt }, mappings, ios);
            let up = s.fed(HostEvent::MouseButtonUp { mouse_btn, touch, tilt }, mappings, ios);
            let motion = s.fed(HostEvent::MouseMotion { left, right, touch, tilt }, mappings, ios);
            &&& down == (InputView {
                queue: if mouse_btn is Left {
                    queue.push(touch_of(TouchPhase::Down, FingerId::Mouse, touch))
                } else {
                    queue
                },
                tilt: if mouse_btn is Right {
                    Some((tilt, true))
                } else {
                    s.tilt
                },
                multi_touch: None,
                ..s
            })
            &&& up == (InputView {
                queue: if mouse_btn is Left {
                    queue.push(touch_of(TouchPhase::Up, FingerId::Mouse, touch))
                } else {
                    queue
                },
                tilt: if mouse_btn is Right {
                    Some((tilt, false))
                } else {
                    s.tilt
                },
                multi_touch: None,
                ..s
            })
            &&& motion == (InputView {
                queue: if left {
                    queue.push(touch_of(TouchPhase::Move, FingerId::Mouse, touch))
                } else {
                    queue
                },
                tilt: if right {
                    Some((tilt, true))
                } else {
                    s.tilt
                },
                multi_touch: None,
                ..s
            })
        }),
{
}

/// What the user types arrives as it was typed, one event at a time, and so do the
/// wish to quit and that for the debugger. Nothing else changes.
pub proof fn law_typing_arrives<C>(
    s: InputView<C>,
    text: String,
    key: Key,
    mappings: TouchMappings<C>,
    ios: bool,
)
    ensures
        ({
            let queue = queue_with_fingers(s);
            let flushed = InputView { multi_touch: None, ..s };
            &&& s.fed(HostEvent::TextInput(text), mappings, ios) == (InputView {
                queue: queue.push(EventView::Text(text@)),
                ..flushed
            })
            &&& s.fed(HostEvent::Quit, mappings, ios) == (InputView {
                queue: queue.push(EventView::Quit),
                ..flushed
            })
            &&& s.fed(HostEvent::KeyDown(key), mappings, ios) == (InputView {
                queue: if key is Other {
                    queue
                } else {
                    queue.push(
                        if key is F12 {
                            EventView::EnterDebugger
                        } else if key is Backspace {
                            EventView::Backspace
                        } else {
                            EventView::Return
                        },
                    )
                },
                ..flushed
            })
        }),
{
}

/// A finger on the screen waits for others that do the same at the same time; any
/// that does something else, or at another time, comes after those that waited.
/// No finger is lost: each that waits or comes is in an event or waits.
pub proof fn law_fingers_come_in_order<C>(
    s: InputView<C>,
    phase: TouchPhase,
    timestamp: u32,
    finger: i64,
    touch: C,
    mappings: TouchMappings<C>,
    ios: bool,
)
    ensures
        ({
            let event = HostEvent::Finger { phase, timestamp, finger, touch };
            let after = s.fed(event, mappings, ios);
            let joins = s.multi_touch matches Some(m) && m.phase == phase && m.timestamp
                == timestamp;
            &&& after == (InputView { queue: after.queue, multi_touch: after.multi_touch, ..s })
            &&& after.queue == if joins {
                s.queue
            } else {
                queue_with_fingers(s)
            }
            &&& after.multi_touch matches Some(m) && {
                &&& m.phase == phase
                &&& m.timestamp == timestamp
                &&& m.touches == if joins {
                    s.multi_touch->Some_0.touches.insert(FingerId::Touch(finger), touch)
                } else {
                    Map::empty().insert(FingerId::Touch(finger), touch)
                }
            }
        }),
{
}

/// A gesture at the time of the fingers that wait is theirs, and leaves them
/// waiting. At any other time, and for any event that is none of the input's, they
/// wait no longer, and nothing else changes.
pub proof fn law_other_events_queue_nothing<C>(
    s: InputView<C>,
    timestamp: u32,
    which: u32,
    pressed: bool,
    name: String,
    mappings: TouchMappings<C>,
    ios: bool,
)
    ensures
        ({
            let flushed = InputView { queue: queue_with_fingers(s), multi_touch: None, ..s };
            &&& s.fed(HostEvent::MultiGesture { timestamp }, mappings, ios) == if s.multi_touch
                matches Some(m) && m.timestamp == timestamp {
                s
            } else {
                flushed
            }
            &&& s.fed(HostEvent::ControllerDeviceAdded { which }, mappings, ios) == flushed
            &&& s.fed(HostEvent::ControllerDeviceRemoved { which }, mappings, ios) == flushed
            &&& s.fed(HostEvent::DropFile(name), mappings, ios) == flushed
            &&& s.fed(HostEvent::Other, mappings, ios) == flushed
            &&& s.fed(HostEvent::AppWillEnterBackground, mappings, true) == flushed
            &&& s.fed(
                HostEvent::ControllerButton { button: None, pressed },
                mappings,
                ios,
            ) == (InputView { controller_updated: true, ..flushed })
        }),
{
}

/// When the app goes to the background, which iOS reports wrongly, that is popped
/// next, whatever waits, and no more events are asked for.
pub proof fn law_background_comes_first<C>(s: InputView<C>, mappings: TouchMappings<C>)
    ensures
        ({
            let after = s.fed(HostEvent::AppWillEnterBackground, mappings, false);
            &&& after.upcoming() == seq![EventView::<C>::AppWillResignActive] + queue_with_fingers(s)
            &&& !after.enabled
            &&& after == (InputView {
                queue: after.queue,
                high_priority: after.high_priority,
                multi_touch: None,
                enabled: false,
                ..s
            })
        }),
{
}

/// No event is lost: what has been queued stays in front of what comes, in its
/// order, and an event adds no more than the fingers that waited and one of its
/// own.
pub proof fn law_queued_events_stay<C>(
    s: InputView<C>,
    event: HostEvent<C>,
    mappings: TouchMappings<C>,
    ios: bool,
)
    ensures
        ({
            let after = s.fed(event, mappings, ios).queue;
            &&& s.queue.is_prefix_of(after)
            &&& after.len() <= s.queue.len() + 2
        }),
{
    assert(s.queue =~= s.fed(event, mappings, ios).queue.take(s.queue.len() as int));
}

/// A controller that comes or goes is the one that is opened or dropped, and no
/// other event has an effect on the window system. Only a dropped file can be a
/// link.
pub proof fn law_effects<C>(event: HostEvent<C>, requested: Option<Seq<char>>)
    ensures
        forall|which: u32|
            effect_of(event) == Effect::OpenController(which) <==> event
                == (HostEvent::<C>::ControllerDeviceAdded { which }),
        forall|which: u32|
            effect_of(event) == Effect::DropController(which) <==> event
                == (HostEvent::<C>::ControllerDeviceRemoved { which }),
        requested_after_event(requested, event) != requested ==> event is DropFile,
        event matches HostEvent::DropFile(name) ==> requested_after_event(requested, event)
            == requested_after(requested, name@),
{
}

/// A finger that follows the virtual cursor goes down when it is pressed, up when
/// it is released, and moves only in between.
pub proof fn law_cursor_touch(was_pressed: bool, pressed: bool, moved: bool)
    ensures
        ({
            let phase = cursor_phase(pressed, was_pressed != pressed, moved);
            &&& phase == Some(TouchPhase::Down) <==> !was_pressed && pressed
            &&& phase == Some(TouchPhase::Up) <==> was_pressed && !pressed
            &&& phase == Some(TouchPhase::Move) <==> was_pressed && pressed && moved
        }),
{
}

/// Whatever else is held, a button with a place that is none of a D-pad's queues a
/// touch of its own when it is pressed or released, behind all that waited.
pub proof fn law_feed_takes_buttons<C: Copy>(
    button: Button,
    pressed: bool,
    mappings: TouchMappings<C>,
    ios: bool,
    effect: Effect,
    i: int,
)
    requires
        mappings.dpad_to_touch is None || !(button is DPadLeft || button is DPadRight
            || button is DPadUp || button is DPadDown),
        0 <= i < mappings.button_to_touch@.len(),
        mappings.button_to_touch@[i].0 == button,
        forall|j: int| 0 <= j < i ==> (#[trigger] mappings.button_to_touch@[j]).0 != button,
    ensures
        forall|input: &mut Input<C>, requests: &mut LaunchRequests|
            #[trigger] call_ensures(
                Input::<C>::feed,
                (
                    input,
                    HostEvent::ControllerButton { button: Some(button), pressed },
                    &mappings,
                    ios,
                    requests,
                ),
                effect,
            ) ==> {
                &&& final(input)@.queue == queue_with_fingers((*input)@).push(
                    EventView::Touches(
                        if pressed {
                            TouchPhase::Down
                        } else {
                            TouchPhase::Up
                        },
                        Map::empty().insert(
                            FingerId::ButtonToTouch(button),
                            mappings.button_to_touch@[i].1,
                        ),
                    ),
                )
                &&& final(input)@.dpad == (*input)@.dpad
                &&& final(input)@.stick_active == (*input)@.stick_active
                &&& effect is Nothing
            },
{
    assert forall|input: &mut Input<C>, requests: &mut LaunchRequests|
        #[trigger] call_ensures(
            Input::<C>::feed,
            (
                input,
                HostEvent::ControllerButton { button: Some(button), pressed },
                &mappings,
                ios,
                requests,
            ),
            effect,
        ) implies {
        &&& final(input)@.queue == queue_with_fingers((*input)@).push(
            EventView::Touches(
                if pressed {
                    TouchPhase::Down
                } else {
                    TouchPhase::Up
                },
                Map::empty().insert(
                    FingerId::ButtonToTouch(button),
                    mappings.button_to_touch@[i].1,
                ),
            ),
        )
        &&& final(input)@.dpad == (*input)@.dpad
        &&& final(input)@.stick_active == (*input)@.stick_active
        &&& effect is Nothing
    } by {
        law_button_is_a_finger((*input)@, button, pressed, mappings, ios, i);
    }
}

/// Events are popped as they come: what is popped is what was in front, and the rest
/// stays in its order.
pub proof fn law_pop_takes_the_first<C: Copy>(r: Option<Event<C>>)
    ensures
        forall|input: &mut Input<C>|
            #[trigger] call_ensures(Input::<C>::pop_event, (input,), r) ==> {
                let waiting = (*input)@.upcoming();
                &&& r is None <==> waiting.len() == 0
                &&& r matches Some(event) ==> waiting == seq![event@] + final(input)@.upcoming()
                &&& (*input)@.high_priority is Some ==> r is Some && r->Some_0@ == (
                *input)@.high_priority->Some_0
            },
{
    assert forall|input: &mut Input<C>|
        #[trigger] call_ensures(Input::<C>::pop_event, (input,), r) implies {
        let waiting = (*input)@.upcoming();
        &&& r is None <==> waiting.len() == 0
        &&& r matches Some(event) ==> waiting == seq![event@] + final(input)@.upcoming()
        &&& (*input)@.high_priority is Some ==> r is Some && r->Some_0@ == (
        *input)@.high_priority->Some_0
    } by {
        if let Some(event) = r {
            assert((*input)@.upcoming() =~= seq![event@] + final(input)@.upcoming());
        }
    }
}

/// At first nothing waits, nothing is held, and events are asked for.
pub proof fn law_fresh_input<C: Copy>(input: Input<C>)
    requires
        call_ensures(Input::<C>::new, (), input),
    ensures
        input@.upcoming().len() == 0,
        input@.high_priority is None,
        input@.enabled,
        input@.multi_touch is None,
        !input@.dpad.left && !input@.dpad.right && !input@.dpad.up && !input@.dpad.down,
        !input@.dpad.active && !input@.stick_active && !input@.controller_updated,
        input@.tilt is None,
        input.wf(),
{
}

} // verus!
