//! What is asked of the host: its layers, views, battery, languages and message
//! boxes.
use crate::libc::text::push_str;
use vstd::prelude::*;
use vstd::string::*;

verus! {

/// A pointer to an object of the host's runtime; 0 is no object.
pub type HostId = u64;

/// The window to use: the key window, or else the first of all windows.
#[derive(Copy, Clone, Eq, PartialEq, Debug, Structural)]
pub enum KeyWindow {
    Key,
    First,
    Missing,
}

/// The key window is deprecated on iOS 13+ and may be nil; then there may still be
/// other windows.
pub fn choose_window(key_window: HostId, window_count: i64) -> (r: KeyWindow)
    ensures
        r == if key_window != 0 {
            KeyWindow::Key
        } else if window_count > 0 {
            KeyWindow::First
        } else {
            KeyWindow::Missing
        },
{
    if key_window != 0 {
        KeyWindow::Key
    } else if window_count > 0 {
        KeyWindow::First
    } else {
        KeyWindow::Missing
    }
}

/// How deep a view may be in the hierarchy for it to be logged.
pub const MAX_DUMP_DEPTH: usize = 8;

/// Whether to log a view, and its subviews, when the view hierarchy is dumped.
pub fn dump_goes_on(view: HostId, depth: usize) -> (r: bool)
    ensures
        r == (view != 0 && depth <= MAX_DUMP_DEPTH),
{
    view != 0 && depth <= MAX_DUMP_DEPTH
}

/// The layer on top of the window that frames are presented in, and the layer of
/// the window that it is attached to.
#[derive(Copy, Clone, Eq, PartialEq, Debug, Structural)]
pub struct Overlay {
    pub layer: HostId,
    pub window_layer: HostId,
}

/// What must be done before a frame can be presented.
#[derive(Copy, Clone, Eq, PartialEq, Debug, Structural)]
pub struct OverlayPlan {
    /// A layer that must be detached and released.
    pub drop_layer: Option<HostId>,
    /// Whether a new layer must be made.
    pub create: bool,
}

impl Overlay {
    /// There is no layer yet.
    pub fn new() -> (r: Overlay)
        ensures
            r == (Overlay { layer: 0, window_layer: 0 }),
    {
        Overlay { layer: 0, window_layer: 0 }
    }

    /// Whether the layer is attached to another window than the one with
    /// `window_layer`. If the key window changes (e.g. the app-picker window is
    /// torn down and the game's window is created), the overlay must be moved to
    /// the new window or that renders black.
    pub open spec fn is_stale(self, window_layer: HostId) -> bool {
        self.layer != 0 && window_layer != 0 && self.window_layer != window_layer
    }

    /// Makes ready for a frame in the window with `window_layer`.
    pub fn prepare(&mut self, window_layer: HostId) -> (r: OverlayPlan)
        ensures
            r.drop_layer == if old(self).is_stale(window_layer) {
                Some(old(self).layer)
            } else {
                None
            },
            *final(self) == if old(self).is_stale(window_layer) {
                Overlay { layer: 0, ..*old(self) }
            } else {
                *old(self)
            },
            r.create == (final(self).layer == 0 && window_layer != 0),
    {
        let mut drop_layer: Option<u64> = None;
        if self.layer != 0 && window_layer != 0 && self.window_layer != window_layer {
            drop_layer = Some(self.layer);
            self.layer = 0;
        }
        OverlayPlan { drop_layer, create: self.layer == 0 && window_layer != 0 }
    }

    /// Notes the new layer.
    pub fn created(&mut self, layer: HostId, window_layer: HostId)
        ensures
            *final(self) == (Overlay { layer, window_layer }),
    {
        self.layer = layer;
        self.window_layer = window_layer;
    }

    /// The layer to present in, if there is one.
    pub fn target(&self) -> (r: Option<HostId>)
        ensures
            r == if self.layer != 0 {
                Some(self.layer)
            } else {
                None
            },
    {
        if self.layer != 0 {
            Some(self.layer)
        } else {
            None
        }
    }
}

/// Once a frame has been made ready for, the layer is never one of another
/// window.
pub proof fn law_overlay_follows_window(before: Overlay, after: Overlay, window_layer: HostId)
    requires
        window_layer != 0,
        after == (if before.is_stale(window_layer) {
            Overlay { layer: 0, ..before }
        } else {
            before
        }),
    ensures
        after.layer == 0 || after.window_layer == window_layer,
{
}

/// A layer is given up only for another window: in its own it stays, frame after
/// frame, and while there is no window.
pub proof fn law_layer_stays_in_its_window(overlay: Overlay, window_layer: HostId)
    ensures
        overlay.is_stale(window_layer) ==> overlay.layer != 0 && overlay.window_layer != window_layer,
        !overlay.is_stale(overlay.window_layer),
        !overlay.is_stale(0),
        !(Overlay { layer: overlay.layer, window_layer }).is_stale(window_layer),
{
}

/// What is known when the interface's orientation is to be evaluated again.
#[derive(Copy, Clone, Eq, PartialEq, Debug, Structural)]
pub struct OrientationProbe {
    /// Whether the root view controller can be told that its orientations have
    /// changed (iOS 16+).
    pub root_takes_update: bool,
    /// Whether there is a window scene that can be asked to rotate (iOS 16+).
    pub scene_takes_geometry: bool,
    /// Whether the class for that request is there.
    pub has_preferences: bool,
    /// Whether view controllers can be told to try a rotation (older iOS).
    pub takes_attempt: bool,
}

/// What to do to have the interface's orientation evaluated again.
#[derive(Copy, Clone, Eq, PartialEq, Debug, Structural)]
pub struct OrientationRequest {
    pub update_root: bool,
    pub request_geometry: bool,
    pub attempt_rotation: bool,
}

/// Changing the supported orientations at runtime does NOT rotate the app: iOS
/// only re-queries them when explicitly told, in one of several ways.
pub fn plan_orientation_update(probe: OrientationProbe) -> (r: OrientationRequest)
    ensures
        r.update_root == probe.root_takes_update,
        r.request_geometry == (probe.scene_takes_geometry && probe.has_preferences),
        r.attempt_rotation == probe.takes_attempt,
{
    OrientationRequest {
        update_root: probe.root_takes_update,
        request_geometry: probe.scene_takes_geometry && probe.has_preferences,
        attempt_rotation: probe.takes_attempt,
    }
}

#[derive(Copy, Clone, Eq, PartialEq, Debug, Structural)]
pub enum BatteryState {
    Unknown,
    OnBattery,
    NoBattery,
    Charging,
    Full,
}

/// The state of the battery that a value of SDL's `SDL_PowerState` stands for;
/// none where it is no such value.
pub fn battery_state(power_state: i32) -> (r: Option<BatteryState>)
    ensures
        r == match power_state {
            0 => Some(BatteryState::Unknown),
            1 => Some(BatteryState::OnBattery),
            2 => Some(BatteryState::NoBattery),
            3 => Some(BatteryState::Charging),
            4 => Some(BatteryState::Full),
            _ => None,
        },
{
    match power_state {
        0 => Some(BatteryState::Unknown),
        1 => Some(BatteryState::OnBattery),
        2 => Some(BatteryState::NoBattery),
        3 => Some(BatteryState::Charging),
        4 => Some(BatteryState::Full),
        _ => None,
    }
}

/// A locale that the user prefers.
pub struct Locale {
    pub lang: String,
    pub country: Option<String>,
}

/// The texts of strings.
pub open spec fn texts(s: Seq<String>) -> Seq<Seq<char>> {
    s.map_values(|t: String| t@)
}

/// The languages of locales, in their order.
pub open spec fn languages(locales: Seq<Locale>) -> Seq<Seq<char>> {
    locales.map_values(|l: Locale| l.lang@)
}

/// The countries of those locales that have one, in their order.
pub open spec fn countries(locales: Seq<Locale>) -> Seq<Seq<char>>
    decreases locales.len(),
{
    if locales.len() == 0 {
        seq![]
    } else {
        let rest = countries(locales.drop_last());
        match locales.last().country {
            Some(country) => rest.push(country@),
            None => rest,
        }
    }
}

/// The user's preferences keep their order: each locale has its language among the
/// languages where it stands itself, and the countries of some locales come before
/// those of later ones, with none for a locale that has no country.
pub proof fn law_preferences_keep_order(earlier: Seq<Locale>, later: Seq<Locale>, i: int)
    requires
        0 <= i < earlier.len(),
    ensures
        languages(earlier).len() == earlier.len(),
        languages(earlier)[i] == earlier[i].lang@,
        countries(earlier + later) == countries(earlier) + countries(later),
        countries(seq![earlier[i]]) == match earlier[i].country {
            Some(country) => seq![country@],
            None => seq![],
        },
    decreases later.len(),
{
    assert(seq![earlier[i]].drop_last() =~= seq![]);
    assert(countries(seq![earlier[i]].drop_last()) =~= seq![]);
    let both = earlier + later;
    if later.len() > 0 {
        law_preferences_keep_order(earlier, later.drop_last(), i);
        assert(both.drop_last() =~= earlier + later.drop_last());
        assert(both.last() == later.last());
        assert(countries(both) =~= countries(earlier) + countries(later));
    } else {
        assert(both =~= earlier);
        assert(countries(earlier) + countries(later) =~= countries(earlier));
    }
}

pub fn get_preferred_language_codes(locales: &Vec<Locale>) -> (r: Vec<String>)
    ensures
        texts(r@) == languages(locales@),
{
    let mut r: Vec<String> = Vec::new();
    let mut i: usize = 0;
    while i < locales.len()
        invariant
            i <= locales@.len(),
            texts(r@) == languages(locales@).take(i as int),
        decreases locales@.len() - i,
    {
        let ghost before = r@;
        r.push(locales[i].lang.clone());
        i += 1;
        assert(texts(r@) =~= texts(before).push(locales@[i - 1].lang@));
        assert(texts(r@) =~= languages(locales@).take(i as int));
    }
    assert(texts(r@) =~= languages(locales@));
    r
}

pub fn get_preferred_country_codes(locales: &Vec<Locale>) -> (r: Vec<String>)
    ensures
        texts(r@) == countries(locales@),
{
    let mut r: Vec<String> = Vec::new();
    let mut i: usize = 0;
    assert(texts(r@) =~= seq![]);
    while i < locales.len()
        invariant
            i <= locales@.len(),
            texts(r@) == countries(locales@.take(i as int)),
        decreases locales@.len() - i,
    {
        let ghost before = r@;
        assert(locales@.take(i + 1).drop_last() =~= locales@.take(i as int));
        if let Some(country) = &locales[i].country {
            r.push(country.clone());
            assert(texts(r@) =~= texts(before).push(country@));
        }
        i += 1;
    }
    assert(locales@.take(i as int) =~= locales@);
    r
}

/// What a message box about a crash says.
pub fn crash_message(error_message: &str) -> (r: Vec<u8>)
    ensures
        r@ == "touchHLE crashed with the following error: ".spec_bytes()
            + error_message.spec_bytes(),
{
    let mut r: Vec<u8> = Vec::new();
    push_str(&mut r, "touchHLE crashed with the following error: ");
    assert(r@ =~= "touchHLE crashed with the following error: ".spec_bytes());
    push_str(&mut r, error_message);
    r
}

/// The button of a message box that opens the directory with the user's data.
pub const OPEN_DIRECTORY_BUTTON: i32 = 0;

/// The button of a message box that closes it.
pub const CLOSE_BUTTON: i32 = 1;

/// Whether to open the directory with the user's data, given the button that was
/// clicked; none where the box was just closed.
pub fn opens_directory(clicked: Option<i32>) -> (r: bool)
    requires
        clicked matches Some(id) ==> id == OPEN_DIRECTORY_BUTTON || id == CLOSE_BUTTON,
    ensures
        r == (clicked == Some(OPEN_DIRECTORY_BUTTON)),
{
    match clicked {
        Some(id) => id == OPEN_DIRECTORY_BUTTON,
        None => false,
    }
}

/// A frame is presented in the layer of the window that is there: a layer of another
/// window is dropped and a new one asked for, and one of this window is used again.
pub proof fn law_frames_find_their_layer(window_layer: HostId, r: OverlayPlan)
    requires
        window_layer != 0,
    ensures
        forall|o: &mut Overlay|
            #[trigger] call_ensures(Overlay::prepare, (o, window_layer), r) ==> {
                let fits = o.layer != 0 && o.window_layer == window_layer;
                &&& r.create <==> !fits
                &&& fits ==> *final(o) == *o && r.drop_layer is None
                &&& !fits ==> final(o).layer == 0
                &&& !fits && o.layer != 0 ==> r.drop_layer == Some(o.layer)
                &&& o.layer == 0 ==> r.drop_layer is None
            },
{
}

/// Each value of SDL's power states is a state of the battery of its own, and no other
/// value is one.
pub proof fn law_battery_states_differ(
    a: i32,
    b: i32,
    state_a: Option<BatteryState>,
    state_b: Option<BatteryState>,
)
    requires
        call_ensures(battery_state, (a,), state_a),
        call_ensures(battery_state, (b,), state_b),
    ensures
        state_a is Some <==> 0 <= a <= 4,
        state_a is Some && a != b ==> state_a != state_b,
{
}

/// The orientation is asked for in every way that the host has, and in no other.
pub proof fn law_orientation_is_asked_for(probe: OrientationProbe, r: OrientationRequest)
    requires
        call_ensures(plan_orientation_update, (probe,), r),
    ensures
        r.update_root ==> probe.root_takes_update,
        r.request_geometry ==> probe.scene_takes_geometry && probe.has_preferences,
        r.attempt_rotation ==> probe.takes_attempt,
        probe.root_takes_update ==> r.update_root,
        probe.scene_takes_geometry && probe.has_preferences ==> r.request_geometry,
        probe.takes_attempt ==> r.attempt_rotation,
{
}

} // verus!
