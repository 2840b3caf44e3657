//! The window, its input and what it asks of the host.
use std::io::Write;
use touchhle::window::deeplink::{
    ios_take_requested_launch, parse_deeplink, percent_decode, unescape, LaunchRequests,
};
use touchhle::window::device::{
    is_landscape, rotate_fullscreen_size, rotation, sdl2_orientation, size_for_orientation,
    DeviceFamily, DeviceOrientation, Rotation,
};
use touchhle::window::events::{
    poll_is_due, Button, DpadState, Effect, Event, FingerId, HostEvent, Key, MouseButton,
    TextInputEvent, TouchMappings, TouchPhase, Touches,
};
use touchhle::window::host::{
    battery_state, choose_window, crash_message, dump_goes_on, get_preferred_country_codes,
    get_preferred_language_codes, opens_directory, plan_orientation_update, BatteryState,
    KeyWindow, Locale, OrientationProbe, OrientationRequest, Overlay,
};
use touchhle::window::ipa::{
    app_dir_of, ios_present_ipa_picker, ios_take_imported_app, keeps_inside, op_for, present,
    strip_payload, take_imported_app, ImportOp, IpaImport, IpaPicker, ShowStep,
};
use touchhle::window::pixels::{copy_to_surface, present_frame_to_calayer};
use touchhle::window::state::{
    startup_hints, AccelerationSource, GLAttributes, GLProfile, GLVersion, Notice, Platform,
    PollStep, PresentCount, Window, WindowMode, WindowOptions,
};

type At = (f32, f32);

const UPRIGHT: DeviceOrientation = DeviceOrientation::Portrait;

fn options() -> WindowOptions {
    WindowOptions {
        scale_hack: 2,
        device_family: None,
        initial_orientation: UPRIGHT,
        fullscreen: false,
        force_portrait: false,
    }
}

fn window_on(platform: Platform) -> Window<At> {
    Window::new(platform, &options(), false, false, 960, 0)
}

fn no_mappings() -> TouchMappings<At> {
    TouchMappings { dpad_to_touch: None, button_to_touch: Vec::new(), stick_to_touch: false }
}

fn mappings() -> TouchMappings<At> {
    TouchMappings {
        dpad_to_touch: Some((0..9).map(|i| (i as f32, 0.5)).collect()),
        button_to_touch: vec![(Button::A, (10.0, 20.0)), (Button::DPadLeft, (1.0, 1.0))],
        stick_to_touch: true,
    }
}

fn listed(touches: &Touches<At>) -> Vec<(FingerId, At)> {
    (0..touches.len()).map(|i| touches.get(i)).collect()
}

/// The touches of an event, with what they do.
fn touched(event: Option<Event<At>>) -> (TouchPhase, Vec<(FingerId, At)>) {
    match event {
        Some(Event::TouchesDown(t)) => (TouchPhase::Down, listed(&t)),
        Some(Event::TouchesMove(t)) => (TouchPhase::Move, listed(&t)),
        Some(Event::TouchesUp(t)) => (TouchPhase::Up, listed(&t)),
        _ => panic!("not a touch"),
    }
}

fn feed(w: &mut Window<At>, event: HostEvent<At>) -> PollStep {
    w.poll_for_events(Some(event), &mappings(), &mut LaunchRequests::new())
}

#[test]
fn device_families() {
    assert_eq!(DeviceFamily::iPhone.portrait_size(), (320, 480));
    assert_eq!(DeviceFamily::iPad.portrait_size(), (768, 1024));
    assert_eq!(DeviceFamily::iPad.name(), "iPad");
    assert_eq!(DeviceFamily::iPhone.name(), format!("{:?}", DeviceFamily::iPhone));
    assert_eq!(DeviceFamily::try_from(1u64), Ok(DeviceFamily::iPhone));
    assert_eq!(DeviceFamily::try_from(2u64), Ok(DeviceFamily::iPad));
    assert_eq!(DeviceFamily::try_from(0u64), Err(()));
    assert_eq!(DeviceFamily::try_from("iphone"), Ok(DeviceFamily::iPhone));
    assert_eq!(DeviceFamily::try_from("ipad"), Ok(DeviceFamily::iPad));
    assert_eq!(DeviceFamily::try_from("iPad"), Err(()));
}

#[test]
fn sizes_for_orientations() {
    let left = DeviceOrientation::LandscapeLeft;
    assert_eq!(size_for_orientation(DeviceFamily::iPhone, UPRIGHT, 1), (320, 480));
    assert_eq!(size_for_orientation(DeviceFamily::iPhone, left, 3), (1440, 960));
    assert_eq!(rotate_fullscreen_size(UPRIGHT, (1920, 1080)), (1080, 1920));
    assert_eq!(rotate_fullscreen_size(left, (1080, 1920)), (1920, 1080));
    assert_eq!(rotate_fullscreen_size(left, (1920, 1080)), (1920, 1080));
    assert!(is_landscape(DeviceOrientation::LandscapeRight));
    assert!(!is_landscape(DeviceOrientation::PortraitUpsideDown));
    assert_eq!(sdl2_orientation(left), "LandscapeRight");
    assert_eq!(sdl2_orientation(DeviceOrientation::LandscapeRight), "LandscapeLeft");
    assert_eq!(sdl2_orientation(UPRIGHT), "Portrait");
    assert_eq!(rotation(left, false), Rotation::Backwards);
    assert_eq!(rotation(left, true), Rotation::Upright);
    assert_eq!(rotation(DeviceOrientation::LandscapeRight, false), Rotation::Forwards);
    assert_eq!(rotation(DeviceOrientation::PortraitUpsideDown, false), Rotation::UpsideDown);
}

#[test]
fn new_windows() {
    let o = options();
    assert_eq!(Window::<At>::plan(Platform::Other, &o, (1920, 1080)), (WindowMode::Centered, 640, 960));
    assert_eq!(
        Window::<At>::plan(Platform::Ios, &o, (1920, 1080)),
        (WindowMode::RotatedFullscreen, 1080, 1920)
    );
    let o = WindowOptions { fullscreen: true, ..o };
    assert_eq!(
        Window::<At>::plan(Platform::MacOs, &o, (1920, 1080)),
        (WindowMode::DesktopFullscreen, 1920, 1080)
    );
    assert!(Window::<At>::rotatable_fullscreen(Platform::Android));
    assert!(!Window::<At>::rotatable_fullscreen(Platform::MacOs));
    let w: Window<At> = Window::new(Platform::Ios, &o, true, true, 100, -1);
    assert_eq!(w.gl_default_framebuffer(), 0);
    let w: Window<At> = Window::new(Platform::Ios, &o, true, true, 100, 3);
    assert_eq!(w.gl_default_framebuffer(), 3);
    assert_eq!(w.device_family(), DeviceFamily::iPhone);
    assert_eq!(w.current_rotation(), UPRIGHT);
    assert!(w.on_main_stack());
    assert_eq!(
        w.create_gl_context(GLVersion::GLES11),
        GLAttributes { major: 1, minor: 1, profile: GLProfile::GLES }
    );
    assert_eq!(
        w.create_gl_context(GLVersion::GL21Compat),
        GLAttributes { major: 2, minor: 1, profile: GLProfile::Compatibility }
    );
}

#[test]
fn hints_before_a_window_is_made() {
    let names = |platform| startup_hints(platform).iter().map(|h| h.name).collect::<Vec<_>>();
    assert_eq!(names(Platform::Other), vec!["SDL_JOYSTICK_HIDAPI", "SDL_TOUCH_MOUSE_EVENTS"]);
    assert_eq!(
        names(Platform::Android),
        vec!["SDL_JOYSTICK_HIDAPI", "SDL_ANDROID_BLOCK_ON_PAUSE", "SDL_TOUCH_MOUSE_EVENTS"]
    );
    assert!(startup_hints(Platform::Android).iter().all(|h| h.value == "0"));
}

#[test]
fn turning_the_device() {
    let left = DeviceOrientation::LandscapeLeft;
    let mut w = window_on(Platform::Other);
    assert_eq!(w.rotate_device(UPRIGHT, 960), None);
    let plan = w.rotate_device(left, 960).unwrap();
    assert_eq!(plan.resize, Some((960, 640)));
    assert!(!plan.reorient);
    assert!(!plan.redraw_splash);
    assert_eq!(w.current_rotation(), left);
    assert_eq!(w.viewport(), Some((0, 0, 960, 640)));
    assert_eq!(w.viewport_y_offset(), 0);
    assert_eq!(w.rotation_matrix(false), Rotation::Backwards);
    assert_eq!(w.orientation_hint(), "LandscapeRight");
    assert_eq!(w.size_unrotated_unscaled(), (320, 480));
    assert_eq!(w.size_unscaled(), (480, 320));
    assert_eq!(w.app_size(), (960, 640));
    w.set_on_main_stack(false);
    assert!(!w.on_main_stack());
}

#[test]
fn turning_on_other_platforms() {
    let left = DeviceOrientation::LandscapeLeft;
    let mut w: Window<At> = Window::new(Platform::Android, &options(), true, false, 960, 0);
    let plan = w.rotate_device(left, 960).unwrap();
    assert_eq!((plan.resize, plan.reorient, plan.redraw_splash), (None, true, true));
    assert_eq!(w.viewport(), None);
    let o = WindowOptions { fullscreen: true, force_portrait: true, ..options() };
    let mut w: Window<At> = Window::new(Platform::Other, &o, false, false, 960, 0);
    assert_eq!(w.rotate_device(left, 960), None);
    let plan = w.rotate_device(DeviceOrientation::PortraitUpsideDown, 960).unwrap();
    assert_eq!((plan.resize, plan.reorient), (None, false));
    // On macOS the picture is moved down in a window that has been higher.
    let mut w = window_on(Platform::MacOs);
    w.rotate_device(left, 960);
    assert_eq!(w.viewport_y_offset(), 320);
    assert_eq!(w.splash_viewport((1, 2, 3, 4)), (1, 322, 3, 4));
    w.rotate_device(UPRIGHT, 640);
    assert_eq!(w.viewport_y_offset(), 0);
}

#[test]
fn content_in_the_middle_of_a_screen() {
    assert_eq!(
        Window::<At>::centred_viewport((1920, 1080), (720, 1080)),
        (600, 0, 720, 1080)
    );
    assert_eq!(Window::<At>::centred_viewport((11, 11), (10, 8)), (0, 1, 10, 8));
}

#[test]
fn mouse_and_keys_are_queued_in_order() {
    let mut w = window_on(Platform::Other);
    assert!(w.begin_poll());
    let at = (1.0, 2.0);
    let tilt = (0.5, -0.5);
    assert_eq!(
        feed(&mut w, HostEvent::MouseButtonDown { mouse_btn: MouseButton::Left, touch: at, tilt }),
        PollStep { effect: Effect::Nothing, more: true }
    );
    feed(&mut w, HostEvent::MouseMotion { left: true, right: false, touch: (3.0, 4.0), tilt });
    feed(&mut w, HostEvent::MouseMotion { left: false, right: false, touch: (9.0, 9.0), tilt });
    feed(&mut w, HostEvent::MouseButtonUp { mouse_btn: MouseButton::Left, touch: at, tilt });
    feed(&mut w, HostEvent::KeyDown(Key::F12));
    feed(&mut w, HostEvent::KeyDown(Key::Backspace));
    feed(&mut w, HostEvent::KeyDown(Key::Return));
    feed(&mut w, HostEvent::KeyDown(Key::Other));
    feed(&mut w, HostEvent::TextInput("hi".to_string()));
    feed(&mut w, HostEvent::Other);
    feed(&mut w, HostEvent::Quit);
    assert_eq!(
        w.poll_for_events(None, &no_mappings(), &mut LaunchRequests::new()),
        PollStep { effect: Effect::Nothing, more: false }
    );
    assert_eq!(touched(w.pop_event()), (TouchPhase::Down, vec![(FingerId::Mouse, at)]));
    assert_eq!(touched(w.pop_event()), (TouchPhase::Move, vec![(FingerId::Mouse, (3.0, 4.0))]));
    assert_eq!(touched(w.pop_event()), (TouchPhase::Up, vec![(FingerId::Mouse, at)]));
    assert!(matches!(w.pop_event(), Some(Event::EnterDebugger)));
    assert!(matches!(w.pop_event(), Some(Event::TextInput(TextInputEvent::Backspace))));
    assert!(matches!(w.pop_event(), Some(Event::TextInput(TextInputEvent::Return))));
    match w.pop_event() {
        Some(Event::TextInput(TextInputEvent::Text(text))) => assert_eq!(text, "hi"),
        _ => panic!(),
    }
    assert!(matches!(w.pop_event(), Some(Event::Quit)));
    assert!(w.pop_event().is_none());
    assert!(!w.controller_updated());
}

#[test]
fn fingers_at_the_same_time_are_one_event() {
    let mut w = window_on(Platform::Other);
    let finger = |phase, timestamp, finger, x: f32| HostEvent::Finger {
        phase,
        timestamp,
        finger,
        touch: (x, 0.0),
    };
    w.begin_poll();
    feed(&mut w, finger(TouchPhase::Down, 7, 1, 1.0));
    feed(&mut w, finger(TouchPhase::Down, 7, 2, 2.0));
    feed(&mut w, HostEvent::MultiGesture { timestamp: 7 });
    feed(&mut w, finger(TouchPhase::Down, 7, 1, 3.0));
    assert!(w.pop_event().is_none());
    // Another phase, or another time, is another event.
    feed(&mut w, finger(TouchPhase::Move, 7, 1, 4.0));
    feed(&mut w, finger(TouchPhase::Move, 8, 1, 5.0));
    feed(&mut w, HostEvent::MultiGesture { timestamp: 9 });
    feed(&mut w, finger(TouchPhase::Up, 10, 2, 6.0));
    assert!(w.poll_for_events(None, &no_mappings(), &mut LaunchRequests::new()).more);
    assert!(!w.poll_for_events(None, &no_mappings(), &mut LaunchRequests::new()).more);
    assert_eq!(
        touched(w.pop_event()),
        (TouchPhase::Down, vec![(FingerId::Touch(1), (3.0, 0.0)), (FingerId::Touch(2), (2.0, 0.0))])
    );
    assert_eq!(touched(w.pop_event()), (TouchPhase::Move, vec![(FingerId::Touch(1), (4.0, 0.0))]));
    assert_eq!(touched(w.pop_event()), (TouchPhase::Move, vec![(FingerId::Touch(1), (5.0, 0.0))]));
    assert_eq!(touched(w.pop_event()), (TouchPhase::Up, vec![(FingerId::Touch(2), (6.0, 0.0))]));
    assert!(w.pop_event().is_none());
}

fn press(w: &mut Window<At>, button: Button, pressed: bool) -> Option<Event<At>> {
    feed(w, HostEvent::ControllerButton { button: Some(button), pressed });
    w.pop_event()
}

#[test]
fn the_dpad_is_a_touch() {
    let mut w = window_on(Platform::Other);
    w.begin_poll();
    let place = |i: i32| vec![(FingerId::DpadToTouch, (i as f32, 0.5))];
    assert_eq!(touched(press(&mut w, Button::DPadLeft, true)), (TouchPhase::Down, place(3)));
    assert_eq!(touched(press(&mut w, Button::DPadUp, true)), (TouchPhase::Move, place(0)));
    // Opposite directions cancel.
    assert_eq!(touched(press(&mut w, Button::DPadRight, true)), (TouchPhase::Move, place(1)));
    assert_eq!(touched(press(&mut w, Button::DPadLeft, false)), (TouchPhase::Move, place(2)));
    assert_eq!(touched(press(&mut w, Button::DPadUp, false)), (TouchPhase::Move, place(5)));
    assert_eq!(touched(press(&mut w, Button::DPadDown, true)), (TouchPhase::Move, place(8)));
    assert_eq!(touched(press(&mut w, Button::DPadRight, false)), (TouchPhase::Move, place(7)));
    assert_eq!(touched(press(&mut w, Button::DPadDown, false)), (TouchPhase::Up, place(4)));
    assert!(press(&mut w, Button::DPadDown, false).is_none());
    assert!(w.controller_updated());
    let d = DpadState { left: true, right: false, up: false, down: true, active: true };
    assert_eq!(d.place(), 6);
    assert!(!d.press(Button::DPadLeft, false).press(Button::DPadDown, false).active);
}

#[test]
fn buttons_and_sticks_are_touches() {
    let mut w = window_on(Platform::Other);
    w.begin_poll();
    let a = vec![(FingerId::ButtonToTouch(Button::A), (10.0, 20.0))];
    assert_eq!(touched(press(&mut w, Button::A, true)), (TouchPhase::Down, a.clone()));
    assert_eq!(touched(press(&mut w, Button::A, false)), (TouchPhase::Up, a));
    assert!(press(&mut w, Button::Start, true).is_none());
    feed(&mut w, HostEvent::ControllerButton { button: None, pressed: true });
    assert!(w.pop_event().is_none());
    // Without places for the D-pad, a direction is a button.
    let only_buttons = TouchMappings { dpad_to_touch: None, ..mappings() };
    let left = HostEvent::ControllerButton { button: Some(Button::DPadLeft), pressed: true };
    w.poll_for_events(Some(left), &only_buttons, &mut LaunchRequests::new());
    assert_eq!(
        touched(w.pop_event()),
        (TouchPhase::Down, vec![(FingerId::ButtonToTouch(Button::DPadLeft), (1.0, 1.0))])
    );
    let stick = |x: f32, centred| HostEvent::ControllerAxisMotion { left: true, touch: (x, 0.0), centred };
    let at = |x: f32| vec![(FingerId::StickToTouch, (x, 0.0))];
    feed(&mut w, stick(0.0, true));
    assert!(w.pop_event().is_none());
    feed(&mut w, stick(1.0, false));
    assert_eq!(touched(w.pop_event()), (TouchPhase::Down, at(1.0)));
    feed(&mut w, stick(2.0, false));
    assert_eq!(touched(w.pop_event()), (TouchPhase::Move, at(2.0)));
    feed(&mut w, stick(0.0, true));
    assert_eq!(touched(w.pop_event()), (TouchPhase::Up, at(0.0)));
    feed(&mut w, HostEvent::ControllerAxisMotion { left: false, touch: (1.0, 0.0), centred: false });
    assert!(w.pop_event().is_none());
    w.poll_for_events(Some(stick(1.0, false)), &no_mappings(), &mut LaunchRequests::new());
    assert!(w.pop_event().is_none());
}

#[test]
fn the_end_of_the_app_comes_first() {
    let mut w = window_on(Platform::Other);
    w.begin_poll();
    feed(&mut w, HostEvent::Quit);
    assert!(!feed(&mut w, HostEvent::AppTerminating).more);
    assert!(!w.begin_poll());
    assert!(matches!(w.pop_event(), Some(Event::AppWillTerminate)));
    assert!(matches!(w.pop_event(), Some(Event::Quit)));
    let mut w = window_on(Platform::Android);
    assert!(!feed(&mut w, HostEvent::AppWillEnterBackground).more);
    assert!(matches!(w.pop_event(), Some(Event::AppWillResignActive)));
    // On iOS going to the background is ignored.
    let mut w = window_on(Platform::Ios);
    assert!(feed(&mut w, HostEvent::AppWillEnterBackground).more);
    assert!(w.pop_event().is_none());
}

#[test]
fn controllers_come_and_go() {
    let mut w = window_on(Platform::Android);
    assert_eq!(
        feed(&mut w, HostEvent::ControllerDeviceAdded { which: 3 }).effect,
        Effect::OpenController(3)
    );
    assert_eq!(
        feed(&mut w, HostEvent::ControllerDeviceRemoved { which: 4 }).effect,
        Effect::DropController(4)
    );
    assert!(!w.controller_added(&b"uinput-fpc".to_vec(), 1));
    assert!(w.controller_added(&b"uinput".to_vec(), 1));
    assert!(w.controller_added(&b"Pad".to_vec(), 2));
    assert_eq!(w.controller_removed(2), Some(1));
    assert_eq!(w.controller_removed(2), None);
    assert_eq!(w.controller_removed(1), Some(0));
    let mut w = window_on(Platform::Other);
    assert!(w.controller_added(&b"uinput-fpc".to_vec(), 1));
}

#[test]
fn where_acceleration_comes_from() {
    let tilt = (0.5, -0.5);
    let mut w = window_on(Platform::Other);
    assert!(matches!(w.get_acceleration(true), AccelerationSource::Stick));
    let right = |touch, tilt| HostEvent::MouseButtonDown { mouse_btn: MouseButton::Right, touch, tilt };
    feed(&mut w, right((1.0, 1.0), tilt));
    assert!(w.pop_event().is_none());
    match w.get_acceleration(true) {
        AccelerationSource::Mouse(at) => assert_eq!(at, tilt),
        _ => panic!(),
    }
    feed(&mut w, HostEvent::MouseMotion { left: false, right: true, touch: tilt, tilt: (0.1, 0.2) });
    match w.get_acceleration(false) {
        AccelerationSource::Mouse(at) => assert_eq!(at, (0.1, 0.2)),
        _ => panic!(),
    }
    feed(&mut w, HostEvent::MouseButtonUp { mouse_btn: MouseButton::Right, touch: tilt, tilt });
    assert!(matches!(w.get_acceleration(true), AccelerationSource::Stick));
    let mut w: Window<At> = Window::new(Platform::Other, &options(), false, true, 960, 0);
    assert!(matches!(w.get_acceleration(true), AccelerationSource::Device));
    w.controller_added(&b"Pad".to_vec(), 1);
    assert!(matches!(w.get_acceleration(true), AccelerationSource::Stick));
    assert!(matches!(w.get_acceleration(false), AccelerationSource::Device));
}

#[test]
fn the_notice_about_the_accelerometer() {
    let mut w = window_on(Platform::Other);
    assert_eq!(
        w.print_accelerometer_notice(true),
        vec![Notice::UsesAccelerometer, Notice::ConnectForSimulation, Notice::AlsoRightClick]
    );
    assert_eq!(
        w.print_accelerometer_notice(false),
        vec![Notice::UsesAccelerometer, Notice::RightClick]
    );
    w.controller_added(&b"Pad".to_vec(), 1);
    assert_eq!(
        w.print_accelerometer_notice(true),
        vec![Notice::UsesAccelerometer, Notice::StickIsUsed, Notice::AlsoRightClick]
    );
    let mut w: Window<At> = Window::new(Platform::Other, &options(), false, true, 960, 0);
    assert_eq!(
        w.print_accelerometer_notice(true),
        vec![Notice::UsesAccelerometer, Notice::DeviceIsUsed, Notice::ConnectForStick]
    );
    w.controller_added(&b"Pad".to_vec(), 1);
    assert_eq!(
        w.print_accelerometer_notice(true),
        vec![Notice::UsesAccelerometer, Notice::StickIsUsed, Notice::DisconnectForDevice]
    );
    assert_eq!(Notice::UsesAccelerometer.text(), "This app uses the accelerometer.");
    assert_eq!(
        Notice::AlsoRightClick.text(),
        "You can also hold right click and move the cursor to simulate the accelerometer."
    );
}

#[test]
fn the_virtual_cursor() {
    let mut w = window_on(Platform::Other);
    assert_eq!(w.virtual_cursor_visible_at(), None);
    assert_eq!(w.last_cursor(), None);
    let at = |x: f32| vec![(FingerId::VirtualCursor, (x, 0.0))];
    w.update_virtual_cursor((1.0, 1.0), (1.0, 0.0), true, false, true, None);
    assert!(w.pop_event().is_none());
    assert_eq!(w.virtual_cursor_visible_at(), Some(((1.0, 1.0), false)));
    w.update_virtual_cursor((2.0, 2.0), (2.0, 0.0), false, true, true, None);
    assert_eq!(touched(w.pop_event()), (TouchPhase::Down, at(2.0)));
    assert_eq!(w.virtual_cursor_visible_at(), Some(((2.0, 2.0), true)));
    assert_eq!(w.last_cursor(), Some((2.0, 2.0)));
    w.update_virtual_cursor((2.0, 2.0), (2.0, 0.0), false, true, false, None);
    assert!(w.pop_event().is_none());
    w.update_virtual_cursor((3.0, 3.0), (3.0, 0.0), true, true, true, Some((3.5, 3.5)));
    assert_eq!(touched(w.pop_event()), (TouchPhase::Move, at(3.0)));
    assert_eq!(w.virtual_cursor_visible_at(), Some(((3.5, 3.5), true)));
    w.update_virtual_cursor((3.0, 3.0), (3.0, 0.0), false, false, false, None);
    assert_eq!(touched(w.pop_event()), (TouchPhase::Up, at(3.0)));
    assert_eq!(w.virtual_cursor_visible_at(), None);
}

#[test]
fn polls_and_heartbeats_are_limited() {
    assert!(!poll_is_due(8_333_332));
    assert!(poll_is_due(8_333_333));
    let w = window_on(Platform::Other);
    let mut presents = PresentCount::new();
    let mut beats = Vec::new();
    for _ in 0..1300 {
        let (n, heartbeat) = w.swap_window(&mut presents);
        if heartbeat {
            beats.push(n);
        }
    }
    assert_eq!(beats, vec![0, 1, 2, 3, 4, 600, 1200]);
    // Another window goes on counting.
    assert_eq!(window_on(Platform::Other).swap_window(&mut presents), (1300, false));
}

/// A frame of `n` pixels, each of which has its own value.
fn frame(n: u8) -> Vec<u8> {
    (0..n).flat_map(|i| vec![i, 100 + i, 200, 255]).collect()
}

fn shades(pixels: &[u8]) -> Vec<u8> {
    pixels.chunks(4).map(|p| p[0]).collect()
}

#[test]
fn frames_are_turned_for_the_screen() {
    // Two columns and three rows, from the bottom.
    let f = present_frame_to_calayer(UPRIGHT, &frame(6), 2, 3).unwrap();
    assert_eq!((f.w, f.h), (2, 3));
    assert_eq!(shades(&f.pixels), vec![4, 5, 2, 3, 0, 1]);
    assert_eq!(f.pixels[1], 104);
    let f = present_frame_to_calayer(DeviceOrientation::PortraitUpsideDown, &frame(6), 2, 3).unwrap();
    assert_eq!((f.w, f.h), (2, 3));
    assert_eq!(shades(&f.pixels), vec![1, 0, 3, 2, 5, 4]);
    let f = present_frame_to_calayer(DeviceOrientation::LandscapeLeft, &frame(6), 2, 3).unwrap();
    assert_eq!((f.w, f.h), (3, 2));
    assert_eq!(shades(&f.pixels), vec![5, 3, 1, 4, 2, 0]);
    // Twice is as it was.
    let g = present_frame_to_calayer(DeviceOrientation::LandscapeRight, &f.pixels, 3, 2).unwrap();
    assert_eq!(g.pixels, frame(6));
    assert!(present_frame_to_calayer(UPRIGHT, &frame(5), 2, 3).is_none());
    assert!(present_frame_to_calayer(UPRIGHT, &frame(5), 0, 3).is_none());
    // More pixels than the frame has are not looked at.
    let f = window_on(Platform::Ios).present_frame_to_calayer(&frame(9), 2, 3).unwrap();
    assert_eq!(shades(&f.pixels), vec![4, 5, 2, 3, 0, 1]);
}

#[test]
fn images_are_copied_row_by_row() {
    let mut dst = vec![9; 24];
    copy_to_surface(&frame(4), 2, 2, 12, &mut dst);
    assert_eq!(
        dst,
        vec![0, 100, 200, 255, 1, 101, 200, 255, 9, 9, 9, 9, 2, 102, 200, 255, 3, 103, 200, 255, 9, 9, 9, 9]
    );
    let mut dst = vec![9; 3];
    copy_to_surface(&Vec::new(), 0, 5, 0, &mut dst);
    assert_eq!(dst, vec![9, 9, 9]);
}

#[test]
fn percent_decoding() {
    assert_eq!(percent_decode("Jelly%20Car+2%2eapp"), "Jelly Car 2.app");
    assert_eq!(percent_decode("100%"), "100%");
    assert_eq!(percent_decode("%4"), "%4");
    assert_eq!(percent_decode("%zz%41"), "%zzA");
    assert_eq!(percent_decode("%E2%82%AC"), "\u{20ac}");
    assert_eq!(percent_decode("%ff"), "\u{fffd}");
    assert_eq!(unescape(&b"%00%FFx".to_vec()), vec![0, 0xff, b'x']);
}

#[test]
fn links_request_apps() {
    assert_eq!(parse_deeplink(&b"touchhle://run?app=A%2Bb.app".to_vec()), Some(b"A+b.app".to_vec()));
    assert_eq!(parse_deeplink(&b"touchhle://run?x=1&app=A&app=B".to_vec()), Some(b"A".to_vec()));
    assert_eq!(parse_deeplink(&b"touchhle://run?app=".to_vec()), Some(Vec::new()));
    assert_eq!(parse_deeplink(&b"touchhle://run?other=A".to_vec()), None);
    assert_eq!(parse_deeplink(&b"touchhle://".to_vec()), None);
    assert_eq!(parse_deeplink(&b"/home/me/app=A".to_vec()), None);
    // Any other link is ignored.
    assert_eq!(parse_deeplink(&b"touchhle://app=A".to_vec()), None);
    assert_eq!(parse_deeplink(&b"touchhle://stop?app=X.app".to_vec()), None);
    assert_eq!(parse_deeplink(&b"touchhle://run/?app=X.app".to_vec()), None);
    assert_eq!(parse_deeplink(&b"touchhle://run2?app=X.app".to_vec()), None);
    let mut requests = LaunchRequests::new();
    requests.handle_possible_deeplink("touchhle://run?app=One");
    requests.handle_possible_deeplink("/some/file");
    requests.handle_possible_deeplink("touchhle://stop?app=X.app");
    assert_eq!(ios_take_requested_launch(&mut requests), Some("One".to_string()));
    assert_eq!(ios_take_requested_launch(&mut requests), None);
    let mut w = window_on(Platform::Ios);
    for (link, app) in [
        ("touchhle://run?app=%ff", Some("\u{fffd}")),
        ("touchhle://run?app=Jelly%20Car.app", Some("Jelly Car.app")),
        ("touchhle://stop?app=X.app", None),
        ("/home/me/Game.app", None),
    ] {
        let event = HostEvent::DropFile(link.to_string());
        w.poll_for_events(Some(event), &no_mappings(), &mut requests);
        assert!(w.pop_event().is_none());
        assert_eq!(ios_take_requested_launch(&mut requests), app.map(str::to_string));
        assert_eq!(ios_take_requested_launch(&mut requests), None);
    }
    // A request outlives the window that it came to.
    let event = HostEvent::DropFile("touchhle://run?app=Two".to_string());
    w.poll_for_events(Some(event), &no_mappings(), &mut requests);
    let mut next = window_on(Platform::Ios);
    next.poll_for_events(Some(HostEvent::Quit), &no_mappings(), &mut requests);
    assert_eq!(ios_take_requested_launch(&mut requests), Some("Two".to_string()));
}

fn archive(files: &[(&str, &[u8])]) -> Vec<u8> {
    let mut zip = zip::ZipWriter::new(std::io::Cursor::new(Vec::new()));
    for (name, data) in files {
        zip.start_file(*name, zip::write::SimpleFileOptions::default()).unwrap();
        zip.write_all(data).unwrap();
    }
    zip.finish().unwrap().into_inner()
}

#[test]
fn an_ipa_is_imported() {
    let bytes = archive(&[
        ("iTunesArtwork", b"art"),
        ("Payload/readme", b"read me"),
        ("Payload\\Game.APP\\Info.plist", b"info"),
        ("Payload/Other.app/x", b"x"),
        ("Payload/Game.APP/res/", b""),
        ("Payload/", b""),
    ]);
    let mut import = IpaImport::open(bytes).unwrap();
    let mut ops = Vec::new();
    while let Some(op) = import.next_op() {
        ops.push(match op {
            ImportOp::MakeDir(path) => (path, None),
            ImportOp::WriteFile(path, data) => (path, Some(data)),
        });
    }
    assert_eq!(
        ops,
        vec![
            (b"Game.APP/Info.plist".to_vec(), Some(b"info".to_vec())),
            (b"Other.app/x".to_vec(), Some(b"x".to_vec())),
            (b"Game.APP/res/".to_vec(), None),
        ]
    );
    assert_eq!(import.imported_app(), Some(b"Game.APP".to_vec()));
    assert!(import.next_op().is_none());
}

#[test]
fn an_ipa_is_imported_inside_the_apps_directory() {
    let bytes = archive(&[
        ("Payload/../evil", b"1"),
        ("Payload//tmp/evil", b"2"),
        ("Payload/../Evil.app/x", b"3"),
        ("Payload/Evil.app/../../evil", b"4"),
        ("Payload\\Evil.app\\..\\..\\evil", b"5"),
        ("Payload/Evil.app/..", b"6"),
        ("Payload/Evil.app/../readme", b"7"),
        ("Payload/Game.app/..data/x", b"8"),
        ("Payload/Game.app//y", b"9"),
        ("Payload/Game.app/a/../z", b"10"),
    ]);
    let mut import = IpaImport::open(bytes).unwrap();
    for (path, data) in [
        ("Game.app/..data/x", "8"),
        ("Game.app//y", "9"),
        ("Game.app/a/../z", "10"),
    ] {
        match import.next_op() {
            Some(ImportOp::WriteFile(p, d)) => {
                assert_eq!((p.as_slice(), d.as_slice()), (path.as_bytes(), data.as_bytes()))
            }
            _ => panic!(),
        }
    }
    assert!(import.next_op().is_none());
    // The app is that of the first file that belongs to one.
    assert_eq!(import.imported_app(), Some(b"Evil.app".to_vec()));
    let mut import = IpaImport::open(archive(&[("Payload/A.app//x", b"x")])).unwrap();
    assert!(matches!(import.next_op(), Some(ImportOp::WriteFile(path, _)) if path == b"A.app//x"));
    assert_eq!(import.imported_app(), Some(b"A.app".to_vec()));
}

#[test]
fn paths_that_stay_inside() {
    for path in [
        "a", "a/", "a/b", "a/./b", "a/..b", "a/b..", "...", "a//b", "a//", "a/b/..", "a/b/../c",
        "a/b//../c", "a/b/../",
    ] {
        assert!(keeps_inside(&path.as_bytes().to_vec()), "{}", path);
    }
    for path in [
        "", ".", "..", "../", "../a", "./a", "a/..", "a/../b", "a/../a", "a//../b", "a/./../b",
        "a/b/../../a/c", "/", "/a",
    ] {
        assert!(!keeps_inside(&path.as_bytes().to_vec()), "{}", path);
    }
}

#[test]
fn what_is_no_ipa_is_not_imported() {
    assert!(IpaImport::open(b"no archive".to_vec()).is_none());
    let mut import = IpaImport::open(archive(&[("Game.app/Info.plist", b"info")])).unwrap();
    assert!(import.next_op().is_none());
    assert_eq!(import.imported_app(), None);
}

#[test]
fn paths_in_an_ipa() {
    assert_eq!(strip_payload("Payload/a/b"), Some(b"a/b".to_vec()));
    assert_eq!(strip_payload("Payload\\a\\b"), Some(b"a/b".to_vec()));
    assert_eq!(strip_payload("Payload/"), None);
    assert_eq!(strip_payload("payload/a"), None);
    assert_eq!(app_dir_of(&b"Game.aPp/x".to_vec()), Some(b"Game.aPp".to_vec()));
    assert_eq!(app_dir_of(&b"Game.app".to_vec()), Some(b"Game.app".to_vec()));
    assert_eq!(app_dir_of(&b"app".to_vec()), None);
    assert_eq!(app_dir_of(&b"x/Game.app".to_vec()), None);
}

#[test]
fn the_picker_waits_for_the_main_thread() {
    let mut picker = IpaPicker::new();
    assert!(!picker.take_present());
    ios_present_ipa_picker(&mut picker);
    assert!(picker.take_present());
    assert!(!picker.take_present());
    present(&mut picker);
    present(&mut picker);
    assert!(picker.take_present());
    assert!(picker.take_present());
    assert!(!picker.take_present());
    assert_eq!(take_imported_app(&mut picker), None);
    picker.handle_import(Some(b"/apps/A.app".to_vec()));
    picker.handle_import(None);
    assert_eq!(ios_take_imported_app(&mut picker), Some(b"/apps/A.app".to_vec()));
    assert_eq!(ios_take_imported_app(&mut picker), None);
}

#[test]
fn files_and_directories_of_an_ipa() {
    assert!(matches!(op_for(b"a/".to_vec(), vec![1]), ImportOp::MakeDir(path) if path == b"a/"));
    match op_for(b"a/b".to_vec(), vec![1]) {
        ImportOp::WriteFile(path, data) => assert_eq!((path, data), (b"a/b".to_vec(), vec![1])),
        _ => panic!(),
    }
}

#[test]
fn the_picker_is_put_on_screen() {
    let mut picker = IpaPicker::new();
    let mut step = picker.begin_show();
    assert_eq!(step, ShowStep::RegisterClass);
    let mut steps = Vec::new();
    // Each object is the number of the step that made it.
    for answer in 1..=6 {
        step = picker.go_on(step, answer);
        steps.push(step);
    }
    assert_eq!(
        steps,
        vec![
            ShowStep::FindClass,
            ShowStep::MakeDelegate { class: 2 },
            ShowStep::MakePicker,
            ShowStep::FindRoot { picker: 4, delegate: 3 },
            ShowStep::Present { root: 5, picker: 4 },
            ShowStep::Done,
        ]
    );
    assert_eq!(picker.dismissed(), Some(3));
    assert_eq!(picker.dismissed(), None);
    // The class is registered once. Where an object is missing, nothing is shown.
    let step = picker.begin_show();
    assert_eq!(step, ShowStep::FindClass);
    assert_eq!(picker.go_on(step, 0), ShowStep::Done);
    assert_eq!(picker.go_on(ShowStep::MakeDelegate { class: 1 }, 0), ShowStep::Done);
    assert_eq!(picker.go_on(ShowStep::MakePicker, 0), ShowStep::Done);
    assert_eq!(picker.go_on(ShowStep::FindRoot { picker: 1, delegate: 2 }, 0), ShowStep::Done);
}

#[test]
fn the_overlay_follows_the_window() {
    let mut o = Overlay::new();
    assert_eq!(o.target(), None);
    let plan = o.prepare(0);
    assert_eq!((plan.drop_layer, plan.create), (None, false));
    let plan = o.prepare(10);
    assert_eq!((plan.drop_layer, plan.create), (None, true));
    o.created(5, 10);
    assert_eq!(o.target(), Some(5));
    let plan = o.prepare(10);
    assert_eq!((plan.drop_layer, plan.create), (None, false));
    let plan = o.prepare(0);
    assert_eq!((plan.drop_layer, plan.create), (None, false));
    let plan = o.prepare(11);
    assert_eq!((plan.drop_layer, plan.create), (Some(5), true));
    assert_eq!(o.target(), None);
}

#[test]
fn views_and_orientations_of_the_host() {
    assert_eq!(choose_window(1, 0), KeyWindow::Key);
    assert_eq!(choose_window(0, 2), KeyWindow::First);
    assert_eq!(choose_window(0, 0), KeyWindow::Missing);
    assert!(dump_goes_on(1, 8));
    assert!(!dump_goes_on(1, 9));
    assert!(!dump_goes_on(0, 0));
    let probe = OrientationProbe {
        root_takes_update: true,
        scene_takes_geometry: true,
        has_preferences: false,
        takes_attempt: true,
    };
    assert_eq!(
        plan_orientation_update(probe),
        OrientationRequest { update_root: true, request_geometry: false, attempt_rotation: true }
    );
    assert!(plan_orientation_update(OrientationProbe { has_preferences: true, ..probe }).request_geometry);
}

#[test]
fn battery_languages_and_message_boxes() {
    assert_eq!(battery_state(0), Some(BatteryState::Unknown));
    assert_eq!(battery_state(1), Some(BatteryState::OnBattery));
    assert_eq!(battery_state(2), Some(BatteryState::NoBattery));
    assert_eq!(battery_state(3), Some(BatteryState::Charging));
    assert_eq!(battery_state(4), Some(BatteryState::Full));
    assert_eq!(battery_state(5), None);
    let locale = |lang: &str, country: Option<&str>| Locale {
        lang: lang.to_string(),
        country: country.map(|c| c.to_string()),
    };
    let locales = vec![locale("en", Some("GB")), locale("eo", None), locale("de", Some("CH"))];
    assert_eq!(get_preferred_language_codes(&locales), vec!["en", "eo", "de"]);
    assert_eq!(get_preferred_country_codes(&locales), vec!["GB", "CH"]);
    assert_eq!(
        crash_message("oh no"),
        b"touchHLE crashed with the following error: oh no".to_vec()
    );
    assert!(opens_directory(Some(0)));
    assert!(!opens_directory(Some(1)));
    assert!(!opens_directory(None));
}
