//! The window: how it is made, turned and drawn to.
use crate::window::deeplink::LaunchRequests;
use crate::window::device::{
    law_size_is_the_screens,
    is_landscape, orientation_hint, oriented_size, rotate_fullscreen_size, rotation, rotation_for,
    sdl2_orientation, size_for_orientation, turned_size, DeviceFamily, DeviceOrientation, Rotation,
};
use crate::window::events::{
    cursor_phase, effect_of, fresh_input, requested_after_event, Effect, Event, EventView, FingerId,
    HostEvent, Input, InputView, TouchMappings, TouchPhase,
};
use crate::window::pixels::{is_presented, present_frame_to_calayer, presented_size, Frame};
use vstd::prelude::*;
use vstd::string::*;

verus! {

/// The operating system that the emulator runs on.
#[derive(Copy, Clone, Eq, PartialEq, Debug, Structural)]
pub enum Platform {
    Android,
    Ios,
    MacOs,
    Other,
}

/// What the user asked for.
#[derive(Copy, Clone, Eq, PartialEq, Debug, Structural)]
pub struct WindowOptions {
    /// Scale of the window, at least 1.
    pub scale_hack: u32,
    pub device_family: Option<DeviceFamily>,
    pub initial_orientation: DeviceOrientation,
    pub fullscreen: bool,
    pub force_portrait: bool,
}

/// How a window is made.
#[derive(Copy, Clone, Eq, PartialEq, Debug, Structural)]
pub enum WindowMode {
    /// Fullscreen, in an orientation that SDL2 must be told before.
    RotatedFullscreen,
    /// Fullscreen, as the desktop is.
    DesktopFullscreen,
    /// In the centre of the screen.
    Centered,
}

/// Returns [true] if the emulator is running on a device where we should always
/// display fullscreen, but SDL2 will let us control the orientation, i.e.
/// Android and iOS devices.
pub open spec fn always_fullscreen(platform: Platform) -> bool {
    platform is Android || platform is Ios
}

/// The family of the device: an iPhone, unless the user asked for another.
pub open spec fn family_of(options: WindowOptions) -> DeviceFamily {
    match options.device_family {
        Some(family) => family,
        None => DeviceFamily::iPhone,
    }
}

/// The mode and size of a new window on a screen of the given size.
pub open spec fn planned_window(
    platform: Platform,
    options: WindowOptions,
    screen_size: (u32, u32),
) -> (WindowMode, int, int) {
    if always_fullscreen(platform) {
        let (w, h) = turned_size(options.initial_orientation, screen_size);
        (WindowMode::RotatedFullscreen, w as int, h as int)
    } else if options.fullscreen {
        (WindowMode::DesktopFullscreen, screen_size.0 as int, screen_size.1 as int)
    } else {
        let (w, h) = oriented_size(
            family_of(options),
            options.initial_orientation,
            options.scale_hack as int,
        );
        (WindowMode::Centered, w, h)
    }
}

/// A hint to set before a window is made.
pub struct Hint {
    pub name: &'static str,
    pub value: &'static str,
}

/// The hints to set before a window is made.
pub open spec fn hints_for(platform: Platform) -> Seq<Hint> {
    let joystick = Hint { name: "SDL_JOYSTICK_HIDAPI", value: "0" };
    let pause = Hint { name: "SDL_ANDROID_BLOCK_ON_PAUSE", value: "0" };
    let mouse = Hint { name: "SDL_TOUCH_MOUSE_EVENTS", value: "0" };
    if platform is Android {
        seq![joystick, pause, mouse]
    } else {
        seq![joystick, mouse]
    }
}

/// The hints to set before a window is made.
pub fn startup_hints(platform: Platform) -> (r: Vec<Hint>)
    ensures
        r@ == hints_for(platform),
{
    let mut r: Vec<Hint> = Vec::new();
    // The "hidapi" feature of rust-sdl2 is enabled so that sdl2::sensor
    // is available, but we don't want to enable SDL's HIDAPI controller
    // drivers because they cause duplicated controllers on macOS
    // (https://github.com/libsdl-org/SDL/issues/7479).
    r.push(Hint { name: "SDL_JOYSTICK_HIDAPI", value: "0" });
    if let Platform::Android = platform {
        // Disable blocking of event loop when app is paused.
        r.push(Hint { name: "SDL_ANDROID_BLOCK_ON_PAUSE", value: "0" });
    }
    // Separate mouse and touch events
    r.push(Hint { name: "SDL_TOUCH_MOUSE_EVENTS", value: "0" });
    assert(r@ =~= hints_for(platform));
    r
}

/// A version of OpenGL.
#[derive(Copy, Clone, Eq, PartialEq, Debug, Structural)]
pub enum GLVersion {
    /// OpenGL ES 1.1
    GLES11,
    /// OpenGL 2.1 compatibility profile
    GL21Compat,
}

/// A profile of OpenGL.
#[derive(Copy, Clone, Eq, PartialEq, Debug, Structural)]
pub enum GLProfile {
    GLES,
    Compatibility,
}

/// The attributes that an OpenGL context must be created with.
#[derive(Copy, Clone, Eq, PartialEq, Debug, Structural)]
pub struct GLAttributes {
    pub major: u8,
    pub minor: u8,
    pub profile: GLProfile,
}

/// What must be done to turn a window.
#[derive(Copy, Clone, Eq, PartialEq, Debug)]
pub struct RotationPlan {
    /// The window's new size, if it gets one.
    pub resize: Option<(u32, u32)>,
    /// Whether SDL2 must be told of the orientation, and made to take notice of
    /// it.
    pub reorient: bool,
    /// Whether the splash screen must be drawn again.
    pub redraw_splash: bool,
}

/// Where acceleration comes from.
#[derive(Debug)]
pub enum AccelerationSource<C> {
    /// The device's accelerometer.
    Device,
    /// The mouse, which points here.
    Mouse(C),
    /// The left analog stick.
    Stick,
}

/// A line of the notice that an app uses the accelerometer.
#[derive(Copy, Clone, Eq, PartialEq, Debug, Structural)]
pub enum Notice {
    UsesAccelerometer,
    StickIsUsed,
    DisconnectForDevice,
    DeviceIsUsed,
    ConnectForStick,
    ConnectForSimulation,
    AlsoRightClick,
    RightClick,
}

impl Notice {
    pub open spec fn shown(self) -> Seq<char> {
        match self {
            Notice::UsesAccelerometer => "This app uses the accelerometer."@,
            Notice::StickIsUsed => "Your connected controller's left analog stick will be used for accelerometer simulation."@,
            Notice::DisconnectForDevice => "Disconnect the controller if you want to use your device's accelerometer."@,
            Notice::DeviceIsUsed => "Your device's accelerometer will be used for accelerometer simulation."@,
            Notice::ConnectForStick => "Connect a controller if you would prefer to use an analog stick."@,
            Notice::ConnectForSimulation => "Connect a controller to get accelerometer simulation."@,
            Notice::AlsoRightClick => "You can also hold right click and move the cursor to simulate the accelerometer."@,
            Notice::RightClick => "You can hold right click and move the cursor to simulate the accelerometer."@,
        }
    }

    /// The line's text.
    pub fn text(&self) -> (r: &'static str)
        ensures
            r@ == self.shown(),
    {
        match self {
            Notice::UsesAccelerometer => "This app uses the accelerometer.",
            Notice::StickIsUsed => "Your connected controller's left analog stick will be used for accelerometer simulation.",
            Notice::DisconnectForDevice => "Disconnect the controller if you want to use your device's accelerometer.",
            Notice::DeviceIsUsed => "Your device's accelerometer will be used for accelerometer simulation.",
            Notice::ConnectForStick => "Connect a controller if you would prefer to use an analog stick.",
            Notice::ConnectForSimulation => "Connect a controller to get accelerometer simulation.",
            Notice::AlsoRightClick => "You can also hold right click and move the cursor to simulate the accelerometer.",
            Notice::RightClick => "You can hold right click and move the cursor to simulate the accelerometer.",
        }
    }
}

/// The notice that an app uses the accelerometer.
pub open spec fn notices(controllers: bool, accelerometer: bool, stick_tilt: bool) -> Seq<Notice> {
    let simulation = if controllers && stick_tilt {
        if accelerometer {
            seq![Notice::StickIsUsed, Notice::DisconnectForDevice]
        } else {
            seq![Notice::StickIsUsed]
        }
    } else if accelerometer {
        if stick_tilt {
            seq![Notice::DeviceIsUsed, Notice::ConnectForStick]
        } else {
            seq![Notice::DeviceIsUsed]
        }
    } else if !controllers && stick_tilt {
        seq![Notice::ConnectForSimulation]
    } else {
        seq![]
    };
    let click = if accelerometer {
        seq![]
    } else if stick_tilt {
        seq![Notice::AlsoRightClick]
    } else {
        seq![Notice::RightClick]
    };
    seq![Notice::UsesAccelerometer] + simulation + click
}

/// The virtual cursor, as it was last.
#[derive(Debug)]
pub struct Cursor<C> {
    pub at: C,
    pub pressed: bool,
    pub visible: bool,
}

/// How a round of polling goes on.
#[derive(Copy, Clone, Eq, PartialEq, Debug, Structural)]
pub struct PollStep {
    /// What must be done before the next event.
    pub effect: Effect,
    /// Whether another event is asked for.
    pub more: bool,
}

pub struct Window<C> {
    platform: Platform,
    /// Copy of `fullscreen` on [WindowOptions]. Note that this is meaningless
    /// when [Self::rotatable_fullscreen] returns [true].
    fullscreen: bool,
    scale_hack: u32,
    device_family: DeviceFamily,
    device_orientation: DeviceOrientation,
    force_portrait: bool,
    /// The greatest height that the window has had. Only used on macOS.
    max_height: u32,
    viewport_y_offset: u32,
    /// Framebuffer object representing the visible screen. This is 0 (the window
    /// default framebuffer) on desktop, but on iOS SDL backs the screen with a
    /// non-zero FBO attached to the CAEAGLLayer, so whatever SDL leaves bound at
    /// context creation is presented into instead of 0.
    gl_default_framebuffer: u32,
    has_splash: bool,
    /// The instance ids of the game controllers.
    controllers: Vec<u32>,
    has_accelerometer: bool,
    input: Input<C>,
    virtual_cursor_last: Option<Cursor<C>>,
    virtual_cursor_last_unsticky: Option<C>,
    /// Whether or not we are on the "main" environment stack (rather than
    /// a coroutine stack). Checked in various functions to make sure that
    /// certain SDL functions (that call JNI functions) are on the main
    /// stack on Android.
    on_main_stack: bool,
}

/// How many frames have been presented, in all windows.
pub struct PresentCount {
    count: u64,
}

impl View for PresentCount {
    type V = u64;

    closed spec fn view(&self) -> u64 {
        self.count
    }
}

impl PresentCount {
    pub fn new() -> (r: PresentCount)
        ensures
            r@ == 0,
    {
        PresentCount { count: 0 }
    }
}

/// What can be observed of a [Window].
#[verifier::ext_equal]
pub struct WindowView<C> {
    pub platform: Platform,
    pub fullscreen: bool,
    pub scale_hack: u32,
    pub family: DeviceFamily,
    pub orientation: DeviceOrientation,
    pub force_portrait: bool,
    pub max_height: u32,
    pub y_offset: u32,
    pub framebuffer: u32,
    pub has_splash: bool,
    pub controllers: Seq<u32>,
    pub has_accelerometer: bool,
    pub input: InputView<C>,
    pub cursor: Option<Cursor<C>>,
    pub cursor_unsticky: Option<C>,
    pub on_main_stack: bool,
}

impl<C> WindowView<C> {
    /// Whether the window fills the screen.
    pub open spec fn fills_screen(self) -> bool {
        self.fullscreen || always_fullscreen(self.platform)
    }

    /// The size of the app's content.
    pub open spec fn app_size(self) -> (int, int) {
        oriented_size(self.family, self.orientation, self.scale_hack as int)
    }

    pub open spec fn wf(self) -> bool {
        &&& self.scale_hack >= 1
        &&& self.family.height() * self.scale_hack <= u32::MAX
        &&& self.input.wf()
    }

    /// Whether the device turns to `new_orientation` when asked to: not where it
    /// is in that orientation already, and not to landscape where the user wants
    /// it upright.
    pub open spec fn turns_to(self, new_orientation: DeviceOrientation) -> bool {
        &&& new_orientation != self.orientation
        &&& !(self.force_portrait && new_orientation.is_landscape())
    }

    /// The greatest height that the window has had once it has turned.
    pub open spec fn turned_max_height(self, new_orientation: DeviceOrientation, old_height: u32) -> int {
        let height = oriented_size(self.family, new_orientation, self.scale_hack as int).1;
        let seen = if self.max_height < old_height {
            old_height
        } else {
            self.max_height
        };
        if seen < height {
            height
        } else {
            seen as int
        }
    }

    /// The window after the device has turned.
    pub open spec fn turned(self, new_orientation: DeviceOrientation, old_height: u32) -> WindowView<C> {
        if !self.turns_to(new_orientation) {
            self
        } else if self.platform is MacOs && !self.fills_screen() {
            let max_height = self.turned_max_height(new_orientation, old_height);
            let height = oriented_size(self.family, new_orientation, self.scale_hack as int).1;
            WindowView {
                orientation: new_orientation,
                max_height: max_height as u32,
                y_offset: (max_height - height) as u32,
                ..self
            }
        } else {
            WindowView { orientation: new_orientation, ..self }
        }
    }

    /// Where acceleration comes from.
    pub open spec fn acceleration_source(self, stick_tilt: bool) -> AccelerationSource<C> {
        if (self.controllers.len() == 0 || !stick_tilt) && self.has_accelerometer {
            AccelerationSource::Device
        } else {
            match self.input.tilt {
                Some((at, true)) => AccelerationSource::Mouse(at),
                _ => AccelerationSource::Stick,
            }
        }
    }
}

impl<C> View for Window<C> {
    type V = WindowView<C>;

    closed spec fn view(&self) -> WindowView<C> {
        WindowView {
            platform: self.platform,
            fullscreen: self.fullscreen,
            scale_hack: self.scale_hack,
            family: self.device_family,
            orientation: self.device_orientation,
            force_portrait: self.force_portrait,
            max_height: self.max_height,
            y_offset: self.viewport_y_offset,
            framebuffer: self.gl_default_framebuffer,
            has_splash: self.has_splash,
            controllers: self.controllers@,
            has_accelerometer: self.has_accelerometer,
            input: self.input@,
            cursor: self.virtual_cursor_last,
            cursor_unsticky: self.virtual_cursor_last_unsticky,
            on_main_stack: self.on_main_stack,
        }
    }
}

impl<C: Copy> Window<C> {
    pub closed spec fn input_wf(&self) -> bool {
        self.input.wf()
    }

    pub open spec fn wf(&self) -> bool {
        &&& self@.wf()
        &&& self.input_wf()
    }

    /// Returns [true] if the emulator is running on a device where we should
    /// always display fullscreen, but SDL2 will let us control the orientation,
    /// i.e. Android and iOS devices.
    pub fn rotatable_fullscreen(platform: Platform) -> (r: bool)
        ensures
            r == always_fullscreen(platform),
    {
        match platform {
            Platform::Android | Platform::Ios => true,
            _ => false,
        }
    }

    /// The mode and size of a new window on a screen of the given size.
    pub fn plan(platform: Platform, options: &WindowOptions, screen_size: (u32, u32)) -> (r: (
        WindowMode,
        u32,
        u32,
    ))
        requires
            always_fullscreen(platform) || options.fullscreen || family_of(*options).height()
                * options.scale_hack <= u32::MAX,
        ensures
            (r.0, r.1 as int, r.2 as int) == planned_window(platform, *options, screen_size),
    {
        if Self::rotatable_fullscreen(platform) {
            let (w, h) = rotate_fullscreen_size(options.initial_orientation, screen_size);
            (WindowMode::RotatedFullscreen, w, h)
        } else if options.fullscreen {
            (WindowMode::DesktopFullscreen, screen_size.0, screen_size.1)
        } else {
            let family: DeviceFamily = match options.device_family {
                Some(family) => family,
                None => DeviceFamily::iPhone,
            };
            let (w, h) = size_for_orientation(
                family,
                options.initial_orientation,
                options.scale_hack,
            );
            (WindowMode::Centered, w, h)
        }
    }

    /// A window that has just been made. `window_height` is the height that it
    /// got, and `bound_framebuffer` what SDL left bound.
    pub fn new(
        platform: Platform,
        options: &WindowOptions,
        has_splash: bool,
        has_accelerometer: bool,
        window_height: u32,
        bound_framebuffer: i32,
    ) -> (r: Window<C>)
        requires
            options.scale_hack >= 1,
            family_of(*options).height() * options.scale_hack <= u32::MAX,
        ensures
            r.wf(),
            r@ == (WindowView::<C> {
                platform,
                fullscreen: options.fullscreen,
                scale_hack: options.scale_hack,
                family: family_of(*options),
                orientation: options.initial_orientation,
                force_portrait: options.force_portrait,
                max_height: window_height,
                y_offset: 0,
                framebuffer: if bound_framebuffer < 0 {
                    0
                } else {
                    bound_framebuffer as u32
                },
                has_splash,
                controllers: Seq::empty(),
                has_accelerometer,
                input: fresh_input(),
                cursor: None,
                cursor_unsticky: None,
                on_main_stack: true,
            }),
    {
        let device_family: DeviceFamily = match options.device_family {
            Some(family) => family,
            None => DeviceFamily::iPhone,
        };
        let controllers: Vec<u32> = Vec::new();
        assert(controllers@ =~= Seq::empty());
        Window {
            platform,
            fullscreen: options.fullscreen,
            scale_hack: options.scale_hack,
            device_family,
            device_orientation: options.initial_orientation,
            force_portrait: options.force_portrait,
            max_height: window_height,
            viewport_y_offset: 0,
            gl_default_framebuffer: if bound_framebuffer < 0 {
                0
            } else {
                bound_framebuffer as u32
            },
            has_splash,
            controllers,
            has_accelerometer,
            input: Input::new(),
            virtual_cursor_last: None,
            virtual_cursor_last_unsticky: None,
            on_main_stack: true,
        }
    }

    /// Notes whether the emulator is on its main stack.
    pub fn set_on_main_stack(&mut self, on_main_stack: bool)
        requires
            old(self).wf(),
        ensures
            final(self).wf(),
            final(self)@ == (WindowView { on_main_stack, ..old(self)@ }),
    {
        self.on_main_stack = on_main_stack;
    }

    /// Starts a round of polling for events. Returns whether any are asked for.
    pub fn begin_poll(&mut self) -> (more: bool)
        requires
            old(self).wf(),
            old(self)@.on_main_stack,
        ensures
            final(self).wf(),
            final(self)@ == (WindowView {
                input: InputView { controller_updated: false, ..old(self)@.input },
                ..old(self)@
            }),
            more == old(self)@.input.enabled,
    {
        self.input.begin_poll();
        self.input.wants_events()
    }

    /// Takes an event from the OS, or that there is none. Events are not returned
    /// by this function, since we often need to defer actually handling them.
    ///
    /// Polling needs to be done reasonably often (60Hz is probably fine) so that
    /// the host OS doesn't consider the emulator to be unresponsive.
    ///
    /// A link that is opened is an event too: the app that it asks for is in
    /// `requests`, which are not this window's.
    pub fn poll_for_events(
        &mut self,
        event: Option<HostEvent<C>>,
        mappings: &TouchMappings<C>,
        requests: &mut LaunchRequests,
    ) -> (r: PollStep)
        requires
            old(self).wf(),
            old(self)@.on_main_stack,
            old(self)@.input.enabled,
            mappings.wf(),
        ensures
            final(self).wf(),
            final(self)@ == (WindowView {
                input: match event {
                    Some(event) => old(self)@.input.fed(
                        event,
                        *mappings,
                        old(self)@.platform is Ios,
                    ),
                    None => old(self)@.input.flushed(),
                },
                ..old(self)@
            }),
            final(requests)@ == match event {
                Some(event) => requested_after_event(old(requests)@, event),
                None => old(requests)@,
            },
            match event {
                Some(event) => r == (PollStep {
                    effect: effect_of(event),
                    more: final(self)@.input.enabled,
                }),
                // A multi-touch that has ended makes room for another event.
                None => r == (PollStep {
                    effect: Effect::Nothing,
                    more: old(self)@.input.multi_touch is Some,
                }),
            },
    {
        match event {
            Some(event) => {
                let ios: bool = match self.platform {
                    Platform::Ios => true,
                    _ => false,
                };
                let effect = self.input.feed(event, mappings, ios, requests);
                PollStep { effect, more: self.input.wants_events() }
            },
            None => {
                let more: bool = self.input.flush();
                PollStep { effect: Effect::Nothing, more }
            },
        }
    }

    /// Whether the virtual cursor must be updated after a round of polling.
    pub fn controller_updated(&self) -> (r: bool)
        ensures
            r == self@.input.controller_updated,
    {
        self.input.controller_updated()
    }

    /// Pop an event from the queue (in FIFO order, except for high priority
    /// events)
    pub fn pop_event(&mut self) -> (r: Option<Event<C>>)
        requires
            old(self).wf(),
        ensures
            final(self).wf(),
            match r {
                Some(event) => {
                    &&& old(self)@.input.upcoming().len() > 0
                    &&& event@ == old(self)@.input.upcoming()[0]
                    &&& final(self)@.input == if old(self)@.input.high_priority is Some {
                        InputView { high_priority: None, ..old(self)@.input }
                    } else {
                        InputView { queue: old(self)@.input.queue.skip(1), ..old(self)@.input }
                    }
                },
                None => old(self)@.input.upcoming().len() == 0 && final(self)@.input == old(
                    self,
                )@.input,
            },
            final(self)@ == (WindowView { input: final(self)@.input, ..old(self)@ }),
    {
        self.input.pop_event()
    }

    /// Takes a controller that was opened. Returns whether it is used: on
    /// Android, fingerprint devices are not.
    pub fn controller_added(&mut self, name: &Vec<u8>, instance_id: u32) -> (r: bool)
        requires
            old(self).wf(),
        ensures
            final(self).wf(),
            r == !(old(self)@.platform is Android && is_uinput_name(name@)),
            final(self)@ == if r {
                WindowView { controllers: old(self)@.controllers.push(instance_id), ..old(self)@ }
            } else {
                old(self)@
            },
    {
        let android: bool = match self.platform {
            Platform::Android => true,
            _ => false,
        };
        if android && is_uinput(name) {
            return false;
        }
        self.controllers.push(instance_id);
        true
    }

    /// Forgets a controller. Returns which one it was.
    pub fn controller_removed(&mut self, instance_id: u32) -> (r: Option<usize>)
        requires
            old(self).wf(),
        ensures
            final(self).wf(),
            match r {
                Some(i) => {
                    &&& i < old(self)@.controllers.len()
                    &&& old(self)@.controllers[i as int] == instance_id
                    &&& forall|j: int| 0 <= j < i ==> old(self)@.controllers[j] != instance_id
                    &&& final(self)@ == (WindowView {
                        controllers: old(self)@.controllers.remove(i as int),
                        ..old(self)@
                    })
                },
                None => {
                    &&& !old(self)@.controllers.contains(instance_id)
                    &&& final(self)@ == old(self)@
                },
            },
    {
        let mut i: usize = 0;
        while i < self.controllers.len()
            invariant
                *self == *old(self),
                self.wf(),
                i <= self.controllers@.len(),
                forall|j: int| 0 <= j < i ==> self.controllers@[j] != instance_id,
            decreases self.controllers@.len() - i,
        {
            if self.controllers[i] == instance_id {
                let _ = self.controllers.remove(i);
                return Some(i);
            }
            i += 1;
        }
        None
    }

    /// The lines that tell how the accelerometer is simulated.
    pub fn print_accelerometer_notice(&self, stick_tilt: bool) -> (r: Vec<Notice>)
        ensures
            r@ == notices(
                self@.controllers.len() > 0,
                self@.has_accelerometer,
                stick_tilt,
            ),
    {
        let mut r: Vec<Notice> = Vec::new();
        let controllers: bool = self.controllers.len() > 0;
        r.push(Notice::UsesAccelerometer);
        if controllers && stick_tilt {
            r.push(Notice::StickIsUsed);
            if self.has_accelerometer {
                r.push(Notice::DisconnectForDevice);
            }
        } else if self.has_accelerometer {
            r.push(Notice::DeviceIsUsed);
            if stick_tilt {
                r.push(Notice::ConnectForStick);
            }
        } else if !controllers && stick_tilt {
            r.push(Notice::ConnectForSimulation);
        }
        if !self.has_accelerometer {
            r.push(
                if stick_tilt {
                    Notice::AlsoRightClick
                } else {
                    Notice::RightClick
                },
            );
        }
        assert(r@ =~= notices(controllers, self.has_accelerometer, stick_tilt));
        r
    }

    /// Where the real or simulated accelerometer output comes from.
    pub fn get_acceleration(&self, stick_tilt: bool) -> (r: AccelerationSource<C>)
        ensures
            r == self@.acceleration_source(stick_tilt),
    {
        if (self.controllers.len() == 0 || !stick_tilt) && self.has_accelerometer {
            return AccelerationSource::Device;
        }
        match self.input.tilt() {
            Some(at) => AccelerationSource::Mouse(at),
            None => AccelerationSource::Stick,
        }
    }

    /// For use when redrawing the screen: Get the cached on-screen position and
    /// press state of the analog stick-controlled virtual cursor, if it is
    /// visible.
    pub fn virtual_cursor_visible_at(&self) -> (r: Option<(C, bool)>)
        ensures
            r == match self@.cursor {
                Some(cursor) if cursor.visible => Some(
                    (
                        match self@.cursor_unsticky {
                            Some(at) => at,
                            None => cursor.at,
                        },
                        cursor.pressed,
                    ),
                ),
                _ => None,
            },
    {
        match &self.virtual_cursor_last {
            Some(cursor) => {
                if cursor.visible {
                    // When stickyness is in use, the visual cursor movement appears
                    // uncomfortably choppy. Showing the un-sticky position is a bit
                    // misleading but it *feels* better, and it is documented.
                    match self.virtual_cursor_last_unsticky {
                        Some(at) => Some((at, cursor.pressed)),
                        None => Some((cursor.at, cursor.pressed)),
                    }
                } else {
                    None
                }
            },
            None => None,
        }
    }

    /// Update the virtual cursor's position, click state and visibility, and queue
    /// the touch that this is.
    ///
    /// `at` is its position in the window, `touch` the same in the app's
    /// co-ordinates, and `moved` whether it is another than before. `off_centre`
    /// tells whether the right stick is out of its deadzone. `unsticky` is the
    /// position before stickiness was applied, where that is in use.
    pub fn update_virtual_cursor(
        &mut self,
        at: C,
        touch: C,
        off_centre: bool,
        pressed: bool,
        moved: bool,
        unsticky: Option<C>,
    )
        requires
            old(self).wf(),
        ensures
            final(self).wf(),
            ({
                let was_pressed = match old(self)@.cursor {
                    Some(cursor) => cursor.pressed,
                    None => false,
                };
                final(self)@ == (WindowView {
                    // The cursor is intended to only show up once you move the analog
                    // stick out of its deadzone, or while the button is held.
                    cursor: Some(Cursor { at, pressed, visible: pressed || off_centre }),
                    cursor_unsticky: match unsticky {
                        Some(u) => Some(u),
                        None => old(self)@.cursor_unsticky,
                    },
                    input: match cursor_phase(
                        pressed,
                        pressed != was_pressed,
                        moved,
                    ) {
                        Some(phase) => old(self)@.input.touched(
                            phase,
                            FingerId::VirtualCursor,
                            touch,
                        ),
                        None => old(self)@.input,
                    },
                    ..old(self)@
                })
            }),
    {
        let was_pressed: bool = match &self.virtual_cursor_last {
            Some(cursor) => cursor.pressed,
            None => false,
        };
        if let Some(u) = unsticky {
            self.virtual_cursor_last_unsticky = Some(u);
        }
        self.virtual_cursor_last = Some(Cursor { at, pressed, visible: pressed || off_centre });
        self.input.cursor_updated(pressed, pressed != was_pressed, moved, touch);
    }

    /// The position of the virtual cursor that a new one is compared with.
    pub fn last_cursor(&self) -> (r: Option<C>)
        ensures
            r == match self@.cursor {
                Some(cursor) => Some(cursor.at),
                None => None,
            },
    {
        match &self.virtual_cursor_last {
            Some(cursor) => Some(cursor.at),
            None => None,
        }
    }

    /// The attributes for a new OpenGL context.
    pub fn create_gl_context(&self, version: GLVersion) -> (r: GLAttributes)
        ensures
            r == match version {
                GLVersion::GLES11 => GLAttributes { major: 1, minor: 1, profile: GLProfile::GLES },
                GLVersion::GL21Compat => GLAttributes {
                    major: 2,
                    minor: 1,
                    profile: GLProfile::Compatibility,
                },
            },
    {
        match version {
            GLVersion::GLES11 => GLAttributes { major: 1, minor: 1, profile: GLProfile::GLES },
            GLVersion::GL21Compat => GLAttributes {
                major: 2,
                minor: 1,
                profile: GLProfile::Compatibility,
            },
        }
    }

    /// Present an already-composited RGBA8 frame (origin bottom-left, as produced
    /// by glReadPixels): the picture for an overlay layer.
    pub fn present_frame_to_calayer(&self, pixels: &Vec<u8>, w: u32, h: u32) -> (r: Option<Frame>)
        requires
            w * h * 4 <= usize::MAX,
        ensures
            match r {
                None => w * h == 0 || pixels@.len() < w * h * 4,
                Some(frame) => {
                    &&& w * h > 0
                    &&& pixels@.len() >= w * h * 4
                    &&& (frame.w as int, frame.h as int) == presented_size(
                        self@.orientation,
                        w as int,
                        h as int,
                    )
                    &&& is_presented(
                        self@.orientation,
                        pixels@,
                        w as int,
                        h as int,
                        frame.pixels@,
                    )
                },
            },
    {
        present_frame_to_calayer(self.device_orientation, pixels, w, h)
    }

    /// Counts a frame that is presented. Returns its number and whether a
    /// heartbeat is to be logged, which is rate-limited to avoid log spam.
    pub fn swap_window(&self, presents: &mut PresentCount) -> (r: (u64, bool))
        ensures
            r.0 == old(presents)@,
            r.1 == (r.0 < 5 || r.0 % 600 == 0),
            final(presents)@ == if r.0 == u64::MAX {
                0
            } else {
                (r.0 + 1) as u64
            },
    {
        let n: u64 = presents.count;
        presents.count = n.wrapping_add(1);
        (n, n < 5 || n % 600 == 0)
    }

    /// The framebuffer object that represents the visible screen. This is 0 (the
    /// window's default framebuffer) on desktop, but a non-zero SDL-created FBO
    /// on iOS. Present final frames into this rather than hardcoding 0.
    pub fn gl_default_framebuffer(&self) -> (r: u32)
        ensures
            r == self@.framebuffer,
    {
        self.gl_default_framebuffer
    }

    /// Consider the emulated device to be rotated to a particular orientation.
    ///
    /// On a PC or laptop, this will make the window be rotated so the app
    /// content appears upright. On a mobile device, this might do something
    /// else, because the user can physically rotate the screen.
    ///
    /// `old_height` is the window's height before. What must be done is returned,
    /// if anything is.
    pub fn rotate_device(&mut self, new_orientation: DeviceOrientation, old_height: u32) -> (r: Option<
        RotationPlan,
    >)
        requires
            old(self).wf(),
            old(self)@.on_main_stack,
        ensures
            final(self).wf(),
            final(self)@ == old(self)@.turned(new_orientation, old_height),
            match r {
                None => !old(self)@.turns_to(new_orientation),
                Some(plan) => {
                    &&& old(self)@.turns_to(new_orientation)
                    &&& plan.redraw_splash == old(self)@.has_splash
                    &&& plan.reorient == always_fullscreen(old(self)@.platform)
                    &&& plan.resize is Some == !old(self)@.fills_screen()
                    &&& plan.resize matches Some((w, h)) ==> (w as int, h as int)
                        == final(self)@.app_size()
                },
            },
    {
        if new_orientation == self.device_orientation {
            return None;
        }
        // If force_portrait is set (user chose "Portrait" in Quick Options),
        // ignore any game request to switch to landscape: the game stays in
        // the portrait letterboxed view. Useful for portrait-only apps and for
        // users who prefer holding the device upright.
        if self.force_portrait && is_landscape(new_orientation) {
            return None;
        }
        let reorient: bool = Self::rotatable_fullscreen(self.platform);
        let mut resize: Option<(u32, u32)> = None;
        if !self.fullscreen && !reorient {
            let (width, height) = size_for_orientation(
                self.device_family,
                new_orientation,
                self.scale_hack,
            );
            // macOS quirk: when resizing the window, the new framebuffer's size
            // is apparently max(new_size, old_size) in each dimension, but the
            // viewport is positioned wrong on the y axis for some reason, so we
            // need to apply an offset.
            if let Platform::MacOs = self.platform {
                if self.max_height < old_height {
                    self.max_height = old_height;
                }
                if self.max_height < height {
                    self.max_height = height;
                }
                self.viewport_y_offset = self.max_height - height;
            }
            resize = Some((width, height));
        }
        self.device_orientation = new_orientation;
        Some(RotationPlan { resize, reorient, redraw_splash: self.has_splash })
    }

    /// The value for the hint that tells SDL2 the orientation.
    pub fn orientation_hint(&self) -> (r: &'static str)
        ensures
            r@ == orientation_hint(self@.orientation),
    {
        sdl2_orientation(self.device_orientation)
    }

    pub fn device_family(&self) -> (r: DeviceFamily)
        ensures
            r == self@.family,
    {
        self.device_family
    }

    /// Returns the current device orientation
    pub fn current_rotation(&self) -> (r: DeviceOrientation)
        ensures
            r == self@.orientation,
    {
        self.device_orientation
    }

    /// Get the size in pixels of the window without rotation or scaling.
    ///
    /// The aspect ratio, scale and orientation reflect the guest app's view of
    /// the world.
    pub fn size_unrotated_unscaled(&self) -> (r: (u32, u32))
        ensures
            r.0 == self@.family.width(),
            r.1 == self@.family.height(),
    {
        size_for_orientation(self.device_family, DeviceOrientation::Portrait, 1)
    }

    /// Get the size in pixels of the window without scaling, in the current
    /// orientation.
    pub fn size_unscaled(&self) -> (r: (u32, u32))
        ensures
            (r.0 as int, r.1 as int) == oriented_size(self@.family, self@.orientation, 1),
    {
        size_for_orientation(self.device_family, self.device_orientation, 1)
    }

    /// Get the region of the on-screen window (x, y, width, height) used to
    /// display the app content, where the window has just the size for it; none
    /// where it fills the screen.
    pub fn viewport(&self) -> (r: Option<(u32, u32, u32, u32)>)
        requires
            self.wf(),
        ensures
            match r {
                Some((x, y, w, h)) => {
                    &&& !self@.fills_screen()
                    &&& x == 0
                    &&& y == 0
                    &&& (w as int, h as int) == self@.app_size()
                },
                None => self@.fills_screen(),
            },
    {
        if self.fullscreen || Self::rotatable_fullscreen(self.platform) {
            return None;
        }
        let (w, h) = self.app_size();
        Some((0, 0, w, h))
    }

    /// The size of the app content, in the current orientation and scaled.
    pub fn app_size(&self) -> (r: (u32, u32))
        requires
            self.wf(),
        ensures
            (r.0 as int, r.1 as int) == self@.app_size(),
    {
        size_for_orientation(self.device_family, self.device_orientation, self.scale_hack)
    }

    /// The region in the middle of a screen that app content of the given size
    /// fills.
    pub fn centred_viewport(screen_size: (u32, u32), scaled_size: (u32, u32)) -> (r: (
        u32,
        u32,
        u32,
        u32,
    ))
        requires
            scaled_size.0 <= screen_size.0,
            scaled_size.1 <= screen_size.1,
        ensures
            r == (
                ((screen_size.0 - scaled_size.0) / 2) as u32,
                ((screen_size.1 - scaled_size.1) / 2) as u32,
                scaled_size.0,
                scaled_size.1,
            ),
    {
        let x: u32 = (screen_size.0 - scaled_size.0) / 2;
        let y: u32 = (screen_size.1 - scaled_size.1) / 2;
        (x, y, scaled_size.0, scaled_size.1)
    }

    /// The region to draw the splash screen to, given the one for app content.
    pub fn splash_viewport(&self, viewport: (u32, u32, u32, u32)) -> (r: (u32, u32, u32, u32))
        requires
            viewport.1 + self@.y_offset <= u32::MAX,
        ensures
            r.0 == viewport.0,
            r.1 == viewport.1 + (if self@.platform is MacOs {
                self@.y_offset as int
            } else {
                0
            }),
            r.2 == viewport.2,
            r.3 == viewport.3,
    {
        (viewport.0, viewport.1 + self.viewport_y_offset(), viewport.2, viewport.3)
    }

    /// Special offset to add to y co-ordinates, only when drawing to screen.
    pub fn viewport_y_offset(&self) -> (r: u32)
        ensures
            r == if self@.platform is MacOs {
                self@.y_offset
            } else {
                0
            },
    {
        match self.platform {
            Platform::MacOs => self.viewport_y_offset,
            _ => 0,
        }
    }

    /// The rotation between the window's co-ordinate space and the app's own (see
    /// [Self::rotate_device]). `direct` tells that the app presents its picture
    /// itself, in landscape already.
    pub fn rotation_matrix(&self, direct: bool) -> (r: Rotation)
        ensures
            r == rotation_for(self@.orientation, direct),
    {
        rotation(self.device_orientation, direct)
    }

    pub fn on_main_stack(&self) -> (r: bool)
        ensures
            r == self@.on_main_stack,
    {
        self.on_main_stack
    }
}

/// Whether a controller's name is that of a fingerprint device on Android.
pub open spec fn is_uinput_name(name: Seq<u8>) -> bool {
    name.len() >= 7 && name.take(7) == seq![0x75u8, 0x69, 0x6e, 0x70, 0x75, 0x74, 0x2d]
}

/// Whether a name starts with "uinput-".
fn is_uinput(name: &Vec<u8>) -> (r: bool)
    ensures
        r == is_uinput_name(name@),
{
    let r: bool = name.len() >= 7 && name[0] == 0x75 && name[1] == 0x69 && name[2] == 0x6e
        && name[3] == 0x70 && name[4] == 0x75 && name[5] == 0x74 && name[6] == 0x2d;
    proof {
        let prefix = seq![0x75u8, 0x69, 0x6e, 0x70, 0x75, 0x74, 0x2d];
        if r {
            assert(name@.take(7) =~= prefix);
        } else if name@.len() >= 7 && name@.take(7) == prefix {
            assert(name@.take(7)[0] == prefix[0] && name@.take(7)[1] == prefix[1] && name@.take(7)[2]
                == prefix[2] && name@.take(7)[3] == prefix[3] && name@.take(7)[4] == prefix[4]
                && name@.take(7)[5] == prefix[5] && name@.take(7)[6] == prefix[6]);
        }
    }
    r
}

/// Turning the device and turning it back leaves the window as it was, but for
/// what macOS makes of the window's heights.
pub proof fn law_turn_back<C>(
    s: WindowView<C>,
    new_orientation: DeviceOrientation,
    height: u32,
    height_again: u32,
)
    requires
        s.wf(),
        !s.force_portrait,
        !(s.platform is MacOs),
    ensures
        s.turned(new_orientation, height).turned(s.orientation, height_again) == s,
{
}

/// On macOS the offset and the height of the app content together are the
/// greatest height that the window has had, which never shrinks.
pub proof fn law_macos_offset<C>(
    s: WindowView<C>,
    new_orientation: DeviceOrientation,
    height: u32,
)
    requires
        s.wf(),
        s.platform is MacOs,
        !s.fills_screen(),
        s.turns_to(new_orientation),
    ensures
        ({
            let after = s.turned(new_orientation, height);
            &&& after.y_offset + after.app_size().1 == after.max_height
            &&& after.max_height >= s.max_height
            &&& after.max_height >= height
        }),
{
    assert(s.family.width() * s.scale_hack <= s.family.height() * s.scale_hack) by (nonlinear_arith)
        requires
            s.family.width() <= s.family.height(),
            s.scale_hack >= 0,
    ;
    assert(s.family.width() * s.scale_hack >= 0) by (nonlinear_arith)
        requires
            s.family.width() >= 0,
            s.scale_hack >= 0,
    ;
}

/// While the user wants the device upright, it never turns to landscape.
pub proof fn law_forced_portrait<C>(s: WindowView<C>, new_orientation: DeviceOrientation, height: u32)
    requires
        s.force_portrait,
        !s.orientation.is_landscape(),
    ensures
        !s.turned(new_orientation, height).orientation.is_landscape(),
        s.turned(new_orientation, height).force_portrait,
{
}

/// A new window either fills the screen or shows the app at its scaled size. On a
/// phone or tablet it fills the screen as that is turned; on a desktop it fills it
/// as it is, and only if the user asked for that. It is wider than high as the app
/// is, wherever its size is the app's.
pub proof fn law_new_window(platform: Platform, options: WindowOptions, screen_size: (u32, u32))
    requires
        options.scale_hack >= 1,
    ensures
        ({
            let (mode, w, h) = planned_window(platform, options, screen_size);
            let mobile = platform is Android || platform is Ios;
            let landscape = options.initial_orientation is LandscapeLeft
                || options.initial_orientation is LandscapeRight;
            &&& mode is RotatedFullscreen <==> mobile
            &&& mode is DesktopFullscreen <==> !mobile && options.fullscreen
            &&& !(mode is Centered) ==> w == screen_size.0 && h == screen_size.1 || w
                == screen_size.1 && h == screen_size.0
            &&& mode is RotatedFullscreen ==> if landscape {
                w >= h
            } else {
                w <= h
            }
            &&& mode is DesktopFullscreen ==> w == screen_size.0 && h == screen_size.1
            &&& mode is Centered ==> {
                let family = if options.device_family is Some {
                    options.device_family->Some_0
                } else {
                    DeviceFamily::iPhone
                };
                let (long, short) = (
                    family.height() * options.scale_hack,
                    family.width() * options.scale_hack,
                );
                &&& w > h <==> landscape
                &&& (w, h) == (long, short) || (w, h) == (short, long)
            }
        }),
{
    law_size_is_the_screens(
        family_of(options),
        options.initial_orientation,
        options.scale_hack as int,
    );
}

/// A device that is turned is in the new orientation, unless it was already or the
/// user wants it upright and that would lay it down. The app then has just its new
/// orientation's size, whatever the old one was. Nothing else of the window changes
/// but what macOS needs.
pub proof fn law_turned_device<C>(
    s: WindowView<C>,
    new_orientation: DeviceOrientation,
    height: u32,
)
    requires
        s.wf(),
    ensures
        ({
            let after = s.turned(new_orientation, height);
            let refused = s.force_portrait && (new_orientation is LandscapeLeft
                || new_orientation is LandscapeRight);
            &&& after.orientation == if refused {
                s.orientation
            } else {
                new_orientation
            }
            &&& after.app_size() == oriented_size(
                s.family,
                after.orientation,
                s.scale_hack as int,
            )
            &&& after == (WindowView {
                orientation: after.orientation,
                max_height: after.max_height,
                y_offset: after.y_offset,
                ..s
            })
            &&& !(s.platform is MacOs) || s.fullscreen ==> after.max_height == s.max_height
                && after.y_offset == s.y_offset
            &&& !refused ==> after.turned(new_orientation, height) == after
        }),
{
}

/// The device's own accelerometer is used whenever it has one, unless a controller
/// is to tilt it. The mouse tilts it while its right button is held, to where it
/// points, and else it is left to the stick.
pub proof fn law_acceleration<C>(s: WindowView<C>, stick_tilt: bool, at: C)
    ensures
        ({
            let source = s.acceleration_source(stick_tilt);
            let by_controller = s.controllers.len() > 0 && stick_tilt;
            &&& source is Device <==> s.has_accelerometer && !by_controller
            &&& source == AccelerationSource::Mouse(at) ==> s.input.tilt == Some((at, true))
            &&& s.input.tilt == Some((at, true)) && !(source is Device) ==> source
                == AccelerationSource::Mouse(at)
            &&& source is Stick ==> !(s.input.tilt matches Some((_, true)))
        }),
{
}

/// The notice says what will in fact tilt the device: the stick exactly where a
/// controller is there to do so, the device exactly where it does so itself, and
/// the mouse exactly where there is no accelerometer.
pub proof fn law_notices_are_true<C>(s: WindowView<C>, stick_tilt: bool)
    ensures
        ({
            let lines = notices(s.controllers.len() > 0, s.has_accelerometer, stick_tilt);
            &&& lines.len() > 0 && lines[0] == Notice::UsesAccelerometer
            &&& lines.contains(Notice::DeviceIsUsed) <==> s.acceleration_source(stick_tilt)
                is Device
            &&& lines.contains(Notice::StickIsUsed) <==> s.controllers.len() > 0 && stick_tilt
            &&& lines.contains(Notice::DisconnectForDevice) <==> s.controllers.len() > 0
                && stick_tilt && s.has_accelerometer
            &&& lines.contains(Notice::ConnectForStick) || lines.contains(
                Notice::ConnectForSimulation,
            ) <==> stick_tilt && s.controllers.len() == 0
            &&& lines.contains(Notice::AlsoRightClick) || lines.contains(Notice::RightClick)
                <==> !s.has_accelerometer
        }),
{
    let lines = notices(s.controllers.len() > 0, s.has_accelerometer, stick_tilt);
    assert(lines.len() <= 4);
    assert(lines.contains(lines[0]));
    if lines.len() > 1 {
        assert(lines.contains(lines[1]));
    }
    if lines.len() > 2 {
        assert(lines.contains(lines[2]));
    }
    if lines.len() > 3 {
        assert(lines.contains(lines[3]));
    }
}

/// A fingerprint device is told by how its name starts, whatever follows.
pub proof fn law_uinput_names(rest: Seq<u8>, name: Seq<u8>)
    ensures
        is_uinput_name("uinput-".spec_bytes() + rest),
        is_uinput_name(name) ==> name.take(7) == "uinput-".spec_bytes(),
{
    reveal_strlit("uinput-");
    vstd::utf8::is_ascii_chars_encode_utf8("uinput-"@);
    let prefix = "uinput-".spec_bytes();
    assert(prefix =~= seq![0x75u8, 0x69, 0x6e, 0x70, 0x75, 0x74, 0x2d]);
    assert((prefix + rest).take(7) =~= prefix);
}

/// Every hint switches something off: SDL's own controller drivers and the mouse
/// events of touches on every platform, and blocking while paused on Android alone.
pub proof fn law_hints_switch_off(platform: Platform, i: int)
    requires
        0 <= i < hints_for(platform).len(),
    ensures
        hints_for(platform)[i].value == "0",
        hints_for(platform)[0].name == "SDL_JOYSTICK_HIDAPI",
        hints_for(platform).last().name == "SDL_TOUCH_MOUSE_EVENTS",
        hints_for(platform).len() == if platform is Android {
            3int
        } else {
            2
        },
        platform is Android ==> hints_for(platform)[1].name == "SDL_ANDROID_BLOCK_ON_PAUSE",
{
}

/// However a window came to its orientation, the picture is turned by as many right
/// angles as the device is, and the viewport has the sides of the picture that this
/// gives. Two windows whose devices are turned in opposite ways show pictures that
/// are turned in opposite ways.
pub proof fn law_picture_is_turned_with_the_device<C: Copy>(
    a: Window<C>,
    b: Window<C>,
    turn_a: Rotation,
    turn_b: Rotation,
    size_a: (u32, u32),
)
    requires
        call_ensures(Window::<C>::rotation_matrix, (&a, false), turn_a),
        call_ensures(Window::<C>::rotation_matrix, (&b, false), turn_b),
        call_ensures(Window::<C>::size_unscaled, (&a,), size_a),
    ensures
        turn_a.quarters() == match a@.orientation {
            DeviceOrientation::Portrait => 0,
            DeviceOrientation::LandscapeRight => 1int,
            DeviceOrientation::PortraitUpsideDown => 2,
            DeviceOrientation::LandscapeLeft => 3,
        },
        (turn_a.quarters() - turn_b.quarters()) % 4 == 0 <==> a@.orientation == b@.orientation,
        size_a.0 > size_a.1 <==> turn_a.quarters() % 2 == 1,
{
}

/// Turning the device makes the window show the app in its new orientation: where the
/// window has the app's size, it gets that of the new orientation, with the sides
/// exchanged if the device was laid down or set up, and where SDL2 controls the
/// orientation, it is told. A splash screen that is there is drawn again. Nothing is to
/// be done exactly where the device does not turn.
pub proof fn law_device_turns_the_window<C: Copy>(
    new_orientation: DeviceOrientation,
    height: u32,
    r: Option<RotationPlan>,
)
    ensures
        forall|w: &mut Window<C>|
            #[trigger] call_ensures(Window::<C>::rotate_device, (w, new_orientation, height), r)
                && w.wf() ==> {
                let before = w@;
                let after = final(w)@;
                let mobile = before.platform is Android || before.platform is Ios;
                &&& r is None <==> after.orientation == before.orientation
                &&& r is None ==> after == before && (new_orientation == before.orientation
                    || before.force_portrait && (new_orientation is LandscapeLeft
                    || new_orientation is LandscapeRight))
                &&& r matches Some(plan) ==> {
                    &&& after.orientation == new_orientation
                    &&& plan.reorient == mobile
                    &&& plan.redraw_splash == before.has_splash
                    &&& plan.resize is Some == (!mobile && !before.fullscreen)
                    &&& plan.resize matches Some((wide, high)) ==> {
                        &&& wide > high <==> new_orientation is LandscapeLeft
                            || new_orientation is LandscapeRight
                        &&& wide + high == (before.family.width() + before.family.height())
                            * before.scale_hack
                    }
                }
            },
{
    assert forall|w: &mut Window<C>|
        #[trigger] call_ensures(Window::<C>::rotate_device, (w, new_orientation, height), r)
            && w.wf() implies {
        let before = w@;
        let after = final(w)@;
        let mobile = before.platform is Android || before.platform is Ios;
        &&& r is None <==> after.orientation == before.orientation
        &&& r is None ==> after == before && (new_orientation == before.orientation
            || before.force_portrait && (new_orientation is LandscapeLeft
            || new_orientation is LandscapeRight))
        &&& r matches Some(plan) ==> {
            &&& after.orientation == new_orientation
            &&& plan.reorient == mobile
            &&& plan.redraw_splash == before.has_splash
            &&& plan.resize is Some == (!mobile && !before.fullscreen)
            &&& plan.resize matches Some((wide, high)) ==> {
                &&& wide > high <==> new_orientation is LandscapeLeft
                    || new_orientation is LandscapeRight
                &&& wide + high == (before.family.width() + before.family.height())
                    * before.scale_hack
            }
        }
    } by {
        let before = w@;
        let scale = before.scale_hack as int;
        law_size_is_the_screens(before.family, new_orientation, scale);
        let a = before.family.width();
        let b = before.family.height();
        assert((a + b) * scale == a * scale + b * scale) by (nonlinear_arith);
    }
}

/// A controller that was added and is then removed leaves the others as they were,
/// and only a controller that is there can be removed.
pub proof fn law_controllers_come_and_go<C: Copy>(
    name: Vec<u8>,
    id: u32,
    used: bool,
    which: Option<usize>,
)
    ensures
        forall|w: &mut Window<C>|
            #[trigger] call_ensures(Window::<C>::controller_added, (w, &name, id), used) ==> {
                &&& used ==> final(w)@.controllers == w@.controllers.push(id)
                &&& !used ==> final(w)@ == w@ && w@.platform is Android
                &&& final(w)@.input == w@.input && final(w)@.orientation == w@.orientation
            },
        forall|w: &mut Window<C>|
            #[trigger] call_ensures(Window::<C>::controller_removed, (w, id), which) ==> {
                &&& which is Some <==> w@.controllers.contains(id)
                &&& which is Some ==> final(w)@.controllers.len() == w@.controllers.len() - 1
                &&& which is None ==> final(w)@ == w@
            },
        forall|v: &mut Window<C>, w: &mut Window<C>|
            #[trigger] call_ensures(Window::<C>::controller_added, (v, &name, id), used)
                && #[trigger] call_ensures(Window::<C>::controller_removed, (w, id), which)
                && *final(v) == *w && used && !v@.controllers.contains(id) ==> final(w)@ == v@,
{
    assert forall|w: &mut Window<C>|
        #[trigger] call_ensures(Window::<C>::controller_removed, (w, id), which) implies {
        &&& which is Some <==> w@.controllers.contains(id)
        &&& which is Some ==> final(w)@.controllers.len() == w@.controllers.len() - 1
        &&& which is None ==> final(w)@ == w@
    } by {
        if let Some(i) = which {
            assert(w@.controllers[i as int] == id);
        }
    }
    assert forall|v: &mut Window<C>, w: &mut Window<C>|
        #[trigger] call_ensures(Window::<C>::controller_added, (v, &name, id), used)
            && #[trigger] call_ensures(Window::<C>::controller_removed, (w, id), which)
            && *final(v) == *w && used && !v@.controllers.contains(id) implies final(w)@ == v@ by {
        let n = v@.controllers.len() as int;
        assert(w@.controllers[n] == id);
        assert(w@.controllers.contains(id));
        let i = which->Some_0 as int;
        if i < n {
            assert(v@.controllers[i] == w@.controllers[i]);
        }
        assert(final(w)@.controllers =~= v@.controllers);
    }
}

/// The virtual cursor is where it was put last, and is seen while the stick is out of
/// its deadzone or the button is held. Pressing, moving and releasing it are touches
/// of one finger, at the place that it has in the app.
pub proof fn law_virtual_cursor<C: Copy>(
    at: C,
    touch: C,
    off_centre: bool,
    pressed: bool,
    moved: bool,
    unsticky: Option<C>,
    seen: Option<(C, bool)>,
)
    ensures
        forall|w: &mut Window<C>|
            #[trigger] call_ensures(
                Window::<C>::update_virtual_cursor,
                (w, at, touch, off_centre, pressed, moved, unsticky),
                (),
            ) ==> {
                let was = w@.cursor is Some && w@.cursor->Some_0.pressed;
                let queue = w@.input.queue;
                &&& final(w)@.input.queue == if was != pressed || pressed && moved {
                    queue.push(
                        EventView::Touches(
                            if !pressed {
                                TouchPhase::Up
                            } else if was {
                                TouchPhase::Move
                            } else {
                                TouchPhase::Down
                            },
                            Map::empty().insert(FingerId::VirtualCursor, touch),
                        ),
                    )
                } else {
                    queue
                }
                &&& call_ensures(Window::<C>::virtual_cursor_visible_at, (&*final(w),), seen) ==> {
                    &&& seen is Some <==> pressed || off_centre
                    &&& seen is Some ==> seen->Some_0.1 == pressed
                    &&& seen is Some && unsticky is Some ==> seen->Some_0.0 == unsticky->Some_0
                    &&& seen is Some && unsticky is None && w@.cursor_unsticky is None
                        ==> seen->Some_0.0 == at
                }
                &&& final(w)@.orientation == w@.orientation
            },
{
}

/// App content that is put in the middle of a screen has the same room on both sides,
/// but for a pixel, and keeps its size.
pub proof fn law_viewport_is_in_the_middle<C: Copy>(
    screen_size: (u32, u32),
    scaled_size: (u32, u32),
    r: (u32, u32, u32, u32),
)
    requires
        scaled_size.0 <= screen_size.0,
        scaled_size.1 <= screen_size.1,
        call_ensures(Window::<C>::centred_viewport, (screen_size, scaled_size), r),
    ensures
        (r.2, r.3) == scaled_size,
        r.0 + r.2 <= screen_size.0,
        r.1 + r.3 <= screen_size.1,
        0 <= (screen_size.0 - r.0 - r.2) - r.0 <= 1,
        0 <= (screen_size.1 - r.1 - r.3) - r.1 <= 1,
{
}

/// Polling hands every event to the input, as the window's platform has it, and nothing
/// but the input and the requested app changes by it.
pub proof fn law_polling_feeds_the_input<C: Copy>(
    event: HostEvent<C>,
    mappings: TouchMappings<C>,
    step: PollStep,
)
    ensures
        forall|w: &mut Window<C>, requests: &mut LaunchRequests|
            #[trigger] call_ensures(
                Window::<C>::poll_for_events,
                (w, Some(event), &mappings, requests),
                step,
            ) ==> {
                &&& final(w)@.input == w@.input.fed(event, mappings, w@.platform == Platform::Ios)
                &&& final(w)@ == (WindowView { input: final(w)@.input, ..w@ })
                &&& event matches HostEvent::DropFile(name) ==> final(requests)@
                    == crate::window::deeplink::requested_after(requests@, name@)
                &&& !(event is DropFile) ==> final(requests)@ == requests@
                &&& step.more == final(w)@.input.enabled
                &&& event is ControllerDeviceAdded <==> step.effect is OpenController
                &&& event is ControllerDeviceRemoved <==> step.effect is DropController
            },
        forall|w: &mut Window<C>, requests: &mut LaunchRequests|
            #[trigger] call_ensures(
                Window::<C>::poll_for_events,
                (w, None::<HostEvent<C>>, &mappings, requests),
                step,
            ) ==> {
                &&& final(w)@.input.queue == match w@.input.multi_touch {
                    Some(m) => w@.input.queue.push(EventView::Touches(m.phase, m.touches)),
                    None => w@.input.queue,
                }
                &&& final(w)@.input.multi_touch is None
                &&& final(requests)@ == requests@
                &&& step.more == w@.input.multi_touch is Some
            },
{
}

/// A new window is as the user asked for: its device has the family and the orientation
/// of the options, and an iPhone's where they name none. No controller is there, nothing
/// waits, and what SDL left bound, if that is a framebuffer, is what is presented into.
pub proof fn law_window_is_as_asked_for<C: Copy>(
    platform: Platform,
    options: WindowOptions,
    has_splash: bool,
    has_accelerometer: bool,
    height: u32,
    bound: i32,
    w: Window<C>,
)
    requires
        call_ensures(
            Window::<C>::new,
            (platform, &options, has_splash, has_accelerometer, height, bound),
            w,
        ),
    ensures
        w@.platform == platform,
        w@.orientation == options.initial_orientation,
        w@.scale_hack == options.scale_hack,
        w@.fullscreen == options.fullscreen,
        w@.force_portrait == options.force_portrait,
        options.device_family is Some ==> Some(w@.family) == options.device_family,
        options.device_family is None ==> w@.family is iPhone,
        w@.controllers.len() == 0,
        w@.has_accelerometer == has_accelerometer,
        w@.has_splash == has_splash,
        w@.input.upcoming().len() == 0,
        w@.input.enabled,
        bound >= 0 ==> w@.framebuffer == bound,
        bound < 0 ==> w@.framebuffer == 0,
        w@.y_offset == 0,
        w@.cursor is None,
{
}

} // verus!
