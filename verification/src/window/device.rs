//! The emulated device: its family, orientation and screen.
use crate::libc::text::str_eq;
use vstd::prelude::*;
use vstd::std_specs::convert::TryFromSpecImpl;

verus! {

#[allow(non_camel_case_types)]
#[derive(Copy, Clone, Eq, PartialEq, Debug, Structural)]
pub enum DeviceFamily {
    iPhone,
    iPad,
}

#[derive(Copy, Clone, Eq, PartialEq, Debug, Structural)]
pub enum DeviceOrientation {
    Portrait,
    PortraitUpsideDown,
    LandscapeLeft,
    LandscapeRight,
}

impl DeviceFamily {
    pub open spec fn width(self) -> int {
        match self {
            DeviceFamily::iPhone => 320,
            DeviceFamily::iPad => 768,
        }
    }

    pub open spec fn height(self) -> int {
        match self {
            DeviceFamily::iPhone => 480,
            DeviceFamily::iPad => 1024,
        }
    }

    /// The size of the screen in portrait orientation.
    pub fn portrait_size(&self) -> (r: (u32, u32))
        ensures
            r.0 == self.width(),
            r.1 == self.height(),
    {
        match self {
            DeviceFamily::iPhone => (320, 480),
            DeviceFamily::iPad => (768, 1024),
        }
    }

    /// The family's name, as it is shown.
    pub fn name(&self) -> (r: &'static str)
        ensures
            r@ == match self {
                DeviceFamily::iPhone => "iPhone"@,
                DeviceFamily::iPad => "iPad"@,
            },
    {
        match self {
            DeviceFamily::iPhone => "iPhone",
            DeviceFamily::iPad => "iPad",
        }
    }
}

impl TryFrom<u64> for DeviceFamily {
    type Error = ();

    fn try_from(value: u64) -> (r: Result<Self, ()>) {
        if value == 1 {
            Ok(DeviceFamily::iPhone)
        } else if value == 2 {
            Ok(DeviceFamily::iPad)
        } else {
            Err(())
        }
    }
}

impl TryFromSpecImpl<u64> for DeviceFamily {
    open spec fn obeys_try_from_spec() -> bool {
        true
    }

    open spec fn try_from_spec(value: u64) -> Result<Self, ()> {
        if value == 1 {
            Ok(DeviceFamily::iPhone)
        } else if value == 2 {
            Ok(DeviceFamily::iPad)
        } else {
            Err(())
        }
    }
}

impl<'a> TryFrom<&'a str> for DeviceFamily {
    type Error = ();

    fn try_from(value: &'a str) -> (r: Result<Self, ()>) {
        if str_eq(value, "iphone") {
            Ok(DeviceFamily::iPhone)
        } else if str_eq(value, "ipad") {
            Ok(DeviceFamily::iPad)
        } else {
            Err(())
        }
    }
}

impl<'a> TryFromSpecImpl<&'a str> for DeviceFamily {
    open spec fn obeys_try_from_spec() -> bool {
        true
    }

    open spec fn try_from_spec(value: &'a str) -> Result<Self, ()> {
        if value@ == "iphone"@ {
            Ok(DeviceFamily::iPhone)
        } else if value@ == "ipad"@ {
            Ok(DeviceFamily::iPad)
        } else {
            Err(())
        }
    }
}

impl DeviceOrientation {
    pub open spec fn is_landscape(self) -> bool {
        self is LandscapeLeft || self is LandscapeRight
    }
}

/// Whether an orientation is one of the two landscape ones.
pub fn is_landscape(orientation: DeviceOrientation) -> (r: bool)
    ensures
        r == orientation.is_landscape(),
{
    match orientation {
        DeviceOrientation::Portrait | DeviceOrientation::PortraitUpsideDown => false,
        DeviceOrientation::LandscapeLeft | DeviceOrientation::LandscapeRight => true,
    }
}

/// The size of the screen in an orientation, scaled.
pub open spec fn oriented_size(
    family: DeviceFamily,
    orientation: DeviceOrientation,
    scale_hack: int,
) -> (int, int) {
    if orientation.is_landscape() {
        (family.height() * scale_hack, family.width() * scale_hack)
    } else {
        (family.width() * scale_hack, family.height() * scale_hack)
    }
}

pub fn size_for_orientation(
    family: DeviceFamily,
    orientation: DeviceOrientation,
    scale_hack: u32,
) -> (r: (u32, u32))
    requires
        family.height() * scale_hack <= u32::MAX,
    ensures
        (r.0 as int, r.1 as int) == oriented_size(family, orientation, scale_hack as int),
{
    let (width, height) = family.portrait_size();
    proof {
        assert(family.width() * scale_hack <= family.height() * scale_hack) by (nonlinear_arith)
            requires
                family.width() <= family.height(),
                scale_hack >= 0,
        ;
        assert(family.width() * scale_hack >= 0) by (nonlinear_arith)
            requires
                family.width() >= 0,
                scale_hack >= 0,
        ;
    }
    if is_landscape(orientation) {
        (height * scale_hack, width * scale_hack)
    } else {
        (width * scale_hack, height * scale_hack)
    }
}

/// The size of a screen, turned to an orientation: its longer side is the width
/// in landscape, and else the height.
pub open spec fn turned_size(orientation: DeviceOrientation, screen_size: (u32, u32)) -> (u32, u32) {
    let short = if screen_size.0 < screen_size.1 {
        screen_size.0
    } else {
        screen_size.1
    };
    let long = if screen_size.0 < screen_size.1 {
        screen_size.1
    } else {
        screen_size.0
    };
    if orientation.is_landscape() {
        (long, short)
    } else {
        (short, long)
    }
}

pub fn rotate_fullscreen_size(orientation: DeviceOrientation, screen_size: (u32, u32)) -> (r: (
    u32,
    u32,
))
    ensures
        r == turned_size(orientation, screen_size),
{
    let (short_side, long_side) = if screen_size.0 < screen_size.1 {
        (screen_size.0, screen_size.1)
    } else {
        (screen_size.1, screen_size.0)
    };
    if is_landscape(orientation) {
        (long_side, short_side)
    } else {
        (short_side, long_side)
    }
}

/// What tells SDL2 which orientation is wanted.
pub open spec fn orientation_hint(orientation: DeviceOrientation) -> Seq<char> {
    match orientation {
        DeviceOrientation::Portrait => "Portrait"@,
        DeviceOrientation::PortraitUpsideDown => "PortraitUpsideDown"@,
        DeviceOrientation::LandscapeLeft => "LandscapeRight"@,
        DeviceOrientation::LandscapeRight => "LandscapeLeft"@,
    }
}

/// The value for the hint `SDL_IOS_ORIENTATIONS`, which works on Android too.
pub fn sdl2_orientation(orientation: DeviceOrientation) -> (r: &'static str)
    ensures
        r@ == orientation_hint(orientation),
{
    match orientation {
        DeviceOrientation::Portrait => "Portrait",
        DeviceOrientation::PortraitUpsideDown => "PortraitUpsideDown",
        // The inversion is deliberate. These probably correspond to
        // iPhone OS content orientations?
        DeviceOrientation::LandscapeLeft => "LandscapeRight",
        DeviceOrientation::LandscapeRight => "LandscapeLeft",
    }
}

/// A rotation of the picture by a number of right angles.
#[derive(Copy, Clone, Eq, PartialEq, Debug, Structural)]
pub enum Rotation {
    Upright,
    UpsideDown,
    /// By minus a right angle.
    Backwards,
    /// By a right angle.
    Forwards,
}

/// The rotation for transforming between the window's co-ordinate space and the
/// app's own. It is the one for rotating texture co-ordinates to display the
/// image in the window; when rotating input co-ordinates, invert it.
pub open spec fn rotation_for(orientation: DeviceOrientation, direct: bool) -> Rotation {
    if direct {
        Rotation::Upright
    } else {
        match orientation {
            DeviceOrientation::Portrait => Rotation::Upright,
            DeviceOrientation::PortraitUpsideDown => Rotation::UpsideDown,
            DeviceOrientation::LandscapeLeft => Rotation::Backwards,
            DeviceOrientation::LandscapeRight => Rotation::Forwards,
        }
    }
}

/// The rotation for an orientation. An app that renders its picture in landscape
/// already (`direct`) has it presented un-rotated.
pub fn rotation(orientation: DeviceOrientation, direct: bool) -> (r: Rotation)
    ensures
        r == rotation_for(orientation, direct),
{
    if direct {
        return Rotation::Upright;
    }
    match orientation {
        DeviceOrientation::Portrait => Rotation::Upright,
        DeviceOrientation::PortraitUpsideDown => Rotation::UpsideDown,
        DeviceOrientation::LandscapeLeft => Rotation::Backwards,
        DeviceOrientation::LandscapeRight => Rotation::Forwards,
    }
}

/// The size for an orientation is the one for the opposite orientation with the
/// sides exchanged, if one of the two is landscape, and else the same.
pub proof fn law_sizes_exchange(
    family: DeviceFamily,
    a: DeviceOrientation,
    b: DeviceOrientation,
    scale_hack: int,
)
    ensures
        ({
            let (w, h) = oriented_size(family, a, scale_hack);
            oriented_size(family, b, scale_hack) == if a.is_landscape() == b.is_landscape() {
                (w, h)
            } else {
                (h, w)
            }
        }),
{
}

/// Turning a screen's size depends on the last orientation only: it does not
/// matter how the screen was turned before.
pub proof fn law_turning_forgets(a: DeviceOrientation, b: DeviceOrientation, size: (u32, u32))
    ensures
        turned_size(b, turned_size(a, size)) == turned_size(b, size),
        ({
            let t = turned_size(a, size);
            t == size || t == (size.1, size.0)
        }),
{
}

impl Rotation {
    /// The right angles, from 0 to 3, by which a rotation turns forwards.
    pub open spec fn quarters(self) -> int {
        match self {
            Rotation::Upright => 0,
            Rotation::Forwards => 1,
            Rotation::UpsideDown => 2,
            Rotation::Backwards => 3,
        }
    }
}

/// Where a rotation by `quarters` right angles forwards takes a point.
pub open spec fn rotated(quarters: int, x: int, y: int) -> (int, int)
    decreases quarters,
{
    if quarters <= 0 {
        (x, y)
    } else {
        let (x, y) = rotated(quarters - 1, x, y);
        (-y, x)
    }
}

/// A rotation is by the angle that the device is turned by: upright, nothing
/// moves; two orientations that are opposite to each other differ by two right
/// angles; the two landscape ones undo each other, and the left one is the one
/// that turns backwards; and sides are exchanged exactly where the app's size has
/// them exchanged. A picture that is presented directly is never turned.
pub proof fn law_rotation_is_the_devices_turn(
    a: DeviceOrientation,
    b: DeviceOrientation,
    family: DeviceFamily,
    x: int,
    y: int,
)
    ensures
        rotated(rotation_for(DeviceOrientation::Portrait, false).quarters(), x, y) == (x, y),
        rotated(rotation_for(DeviceOrientation::PortraitUpsideDown, false).quarters(), x, y) == (
            -x,
            -y,
        ),
        rotated(rotation_for(DeviceOrientation::LandscapeLeft, false).quarters(), x, y) == (y, -x),
        ({
            let there = rotation_for(a, false).quarters();
            let back = rotation_for(b, false).quarters();
            // Opposite orientations, and only those, differ by two right angles.
            &&& (there - back) % 4 == 2 <==> a != b && a.is_landscape() == b.is_landscape()
            &&& (there - back) % 4 == 0 <==> a == b
            // The two landscape orientations undo each other.
            &&& a.is_landscape() && b.is_landscape() && a != b ==> (there + back) % 4 == 0
            &&& there % 2 == 1 <==> oriented_size(family, a, 1) == (
                family.height(),
                family.width(),
            )
        }),
        rotated(rotation_for(a, true).quarters(), x, y) == (x, y),
{
    reveal_with_fuel(rotated, 4);
}

/// The app's size in an orientation is that of the device's screen, scaled in
/// both directions alike, and it is wider than high exactly in landscape.
pub proof fn law_size_is_the_screens(
    family: DeviceFamily,
    orientation: DeviceOrientation,
    scale_hack: int,
)
    requires
        scale_hack >= 1,
    ensures
        ({
            let (w, h) = oriented_size(family, orientation, scale_hack);
            let (w1, h1) = oriented_size(family, orientation, 1);
            &&& w == w1 * scale_hack && h == h1 * scale_hack
            &&& w1 + h1 == family.width() + family.height()
            &&& w1 == family.width() || w1 == family.height()
            &&& w > h <==> orientation is LandscapeLeft || orientation is LandscapeRight
            &&& w < h <==> orientation is Portrait || orientation is PortraitUpsideDown
            &&& w > 0 && h > 0
        }),
{
    let (w1, h1) = oriented_size(family, orientation, 1);
    assert(w1 * scale_hack > h1 * scale_hack <==> w1 > h1) by (nonlinear_arith)
        requires
            scale_hack >= 1,
    ;
    assert(w1 * scale_hack > 0 && h1 * scale_hack > 0) by (nonlinear_arith)
        requires
            scale_hack >= 1,
            w1 > 0,
            h1 > 0,
    ;
}

/// A screen that is turned has its longer side across in landscape and upright
/// else, and it keeps both sides.
pub proof fn law_turned_screen(orientation: DeviceOrientation, size: (u32, u32))
    ensures
        ({
            let (w, h) = turned_size(orientation, size);
            &&& orientation is LandscapeLeft || orientation is LandscapeRight ==> w >= h
            &&& orientation is Portrait || orientation is PortraitUpsideDown ==> w <= h
            &&& (w, h) == size || (h, w) == size
        }),
{
}

/// The hints for two orientations differ, and those for the landscape ones are
/// exchanged.
pub proof fn law_hints_differ(a: DeviceOrientation, b: DeviceOrientation)
    ensures
        a != b ==> orientation_hint(a) != orientation_hint(b),
        a is LandscapeLeft ==> orientation_hint(a) == "LandscapeRight"@,
        a is LandscapeRight ==> orientation_hint(a) == "LandscapeLeft"@,
        a is Portrait ==> orientation_hint(a) == "Portrait"@,
{
    reveal_strlit("Portrait");
    reveal_strlit("PortraitUpsideDown");
    reveal_strlit("LandscapeRight");
    reveal_strlit("LandscapeLeft");
    assert("Portrait"@.len() == 8 && "PortraitUpsideDown"@.len() == 18);
    assert("LandscapeRight"@.len() == 14 && "LandscapeLeft"@.len() == 13);
}

} // verus!
