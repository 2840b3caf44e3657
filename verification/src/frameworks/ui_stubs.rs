//! Minimal stubs for assorted classes that some apps (e.g. JellyCar 3) reference,
//! so they instantiate as empty objects instead of crashing with "Class ... is
//! unimplemented". Each subclasses an implemented base. (A few aren't strictly
//! UIKit: `NSInvocationOperation` is Foundation, `GKAchievementViewController` is
//! GameKit. Classes are linked by name.)
use crate::libc::text::str_eq;
use vstd::prelude::*;

verus! {

/// A stubbed class.
#[derive(Copy, Clone, Eq, PartialEq, Debug, Structural)]
#[allow(non_camel_case_types)]
pub enum StubClass {
    /// iAd banner. There is no ad network, so this never loads an ad.
    ADBannerView,
    UITableViewCell,
    UISearchBar,
    UIPageControl,
    GKAchievementViewController,
    NSInvocationOperation,
    /// iSimulate dev-tool SDK (streams accelerometer/GPS/multitouch from a device
    /// into the iOS Simulator). Its factory methods return nil, so the tool stays
    /// disabled.
    iSimulate,
    /// Renders as a plain (empty) view.
    UINavigationBar,
    /// Renders empty (no rows).
    UITableView,
    /// Renders as a plain (empty) view.
    UIToolbar,
}

/// What a method of a stubbed class does: it replies, and nothing else.
#[derive(Copy, Clone, Eq, PartialEq, Debug, Structural)]
pub enum StubReply {
    /// No reply.
    Nothing,
    /// The object itself.
    This,
    Nil,
    /// A boolean.
    No,
    /// A number.
    Zero,
}

/// A method of a stubbed class.
pub struct StubMethod {
    pub selector: &'static str,
    /// Whether it is a method of the class, not of its instances.
    pub of_class: bool,
    pub reply: StubReply,
}

/// A method of instances.
pub open spec fn on_instance(selector: &'static str, reply: StubReply) -> StubMethod {
    StubMethod { selector, of_class: false, reply }
}

/// A method of a class.
pub open spec fn on_class(selector: &'static str, reply: StubReply) -> StubMethod {
    StubMethod { selector, of_class: true, reply }
}

fn instance_method(selector: &'static str, reply: StubReply) -> (r: StubMethod)
    ensures
        r == on_instance(selector, reply),
{
    StubMethod { selector, of_class: false, reply }
}

fn class_method(selector: &'static str, reply: StubReply) -> (r: StubMethod)
    ensures
        r == on_class(selector, reply),
{
    StubMethod { selector, of_class: true, reply }
}

/// The methods that a stubbed class has of its own.
pub open spec fn methods_of(class: StubClass) -> Seq<StubMethod> {
    match class {
        StubClass::ADBannerView => seq![
            on_instance("setDelegate:", StubReply::Nothing),
            on_instance("setRequiredContentSizeIdentifiers:", StubReply::Nothing),
            on_instance("setCurrentContentSizeIdentifier:", StubReply::Nothing),
            on_instance("isBannerLoaded", StubReply::No),
        ],
        StubClass::UITableViewCell => seq![
            on_instance("initWithStyle:reuseIdentifier:", StubReply::This),
            on_instance("contentView", StubReply::This),
            on_instance("reuseIdentifier", StubReply::Nil),
            on_instance("textLabel", StubReply::Nil),
            on_instance("detailTextLabel", StubReply::Nil),
            on_instance("imageView", StubReply::Nil),
            on_instance("setAccessoryType:", StubReply::Nothing),
            on_instance("setSelectionStyle:", StubReply::Nothing),
            on_instance("prepareForReuse", StubReply::Nothing),
        ],
        StubClass::UISearchBar => seq![
            on_instance("setDelegate:", StubReply::Nothing),
            on_instance("setPlaceholder:", StubReply::Nothing),
            on_instance("setText:", StubReply::Nothing),
            on_instance("setShowsCancelButton:", StubReply::Nothing),
            on_instance("text", StubReply::Nil),
        ],
        StubClass::UIPageControl => seq![
            on_instance("setNumberOfPages:", StubReply::Nothing),
            on_instance("setCurrentPage:", StubReply::Nothing),
            on_instance("currentPage", StubReply::Zero),
            on_instance("setHidesForSinglePage:", StubReply::Nothing),
        ],
        StubClass::GKAchievementViewController => seq![
            on_instance("setAchievementDelegate:", StubReply::Nothing),
        ],
        StubClass::NSInvocationOperation => seq![
            on_instance("initWithTarget:selector:object:", StubReply::This),
        ],
        StubClass::iSimulate => seq![
            on_class("sharedInstance", StubReply::Nil),
            on_class("sharedInstanceWithMainView:", StubReply::Nil),
            on_class("sharedInstanceWithApplication:", StubReply::Nil),
            on_instance("run", StubReply::Nothing),
            on_instance("start", StubReply::Nothing),
            on_instance("stop", StubReply::Nothing),
        ],
        StubClass::UINavigationBar => seq![
            on_instance("setBarStyle:", StubReply::Nothing),
            on_instance("setTranslucent:", StubReply::Nothing),
            on_instance("setTintColor:", StubReply::Nothing),
            on_instance("setBarTintColor:", StubReply::Nothing),
            on_instance("setDelegate:", StubReply::Nothing),
            on_instance("setItems:", StubReply::Nothing),
            on_instance("setItems:animated:", StubReply::Nothing),
            on_instance("pushNavigationItem:animated:", StubReply::Nothing),
            on_instance("popNavigationItemAnimated:", StubReply::Nil),
        ],
        StubClass::UITableView => seq![
            on_instance("setDataSource:", StubReply::Nothing),
            on_instance("setRowHeight:", StubReply::Nothing),
            on_instance("setSectionHeaderHeight:", StubReply::Nothing),
            on_instance("setSectionFooterHeight:", StubReply::Nothing),
            on_instance("setSeparatorStyle:", StubReply::Nothing),
            on_instance("setSeparatorColor:", StubReply::Nothing),
            on_instance("setBackgroundColor:", StubReply::Nothing),
            on_instance("setAllowsSelection:", StubReply::Nothing),
            on_instance("setEditing:", StubReply::Nothing),
            on_instance("setEditing:animated:", StubReply::Nothing),
            on_instance("reloadData", StubReply::Nothing),
            on_instance("dequeueReusableCellWithIdentifier:", StubReply::Nil),
        ],
        StubClass::UIToolbar => seq![
            on_instance("setBarStyle:", StubReply::Nothing),
            on_instance("setTranslucent:", StubReply::Nothing),
            on_instance("setTintColor:", StubReply::Nothing),
            on_instance("setBarTintColor:", StubReply::Nothing),
            on_instance("setItems:", StubReply::Nothing),
            on_instance("setItems:animated:", StubReply::Nothing),
        ],
    }
}

/// What a stubbed class replies to a message; none where it leaves that to the
/// class that it is based on.
pub open spec fn reply_in(methods: Seq<StubMethod>, of_class: bool, selector: Seq<char>) -> Option<
    StubReply,
>
    decreases methods.len(),
{
    if methods.len() == 0 {
        None
    } else if methods[0].of_class == of_class && methods[0].selector@ == selector {
        Some(methods[0].reply)
    } else {
        reply_in(methods.skip(1), of_class, selector)
    }
}

impl StubClass {
    /// The class that a stubbed class is based on.
    pub fn superclass(&self) -> (r: &'static str)
        ensures
            r@ == match self {
                StubClass::ADBannerView => "UIView"@,
                StubClass::UITableViewCell => "UIView"@,
                StubClass::UISearchBar => "UIView"@,
                StubClass::UIPageControl => "UIView"@,
                StubClass::GKAchievementViewController => "UIViewController"@,
                StubClass::NSInvocationOperation => "NSObject"@,
                StubClass::iSimulate => "NSObject"@,
                StubClass::UINavigationBar => "UIView"@,
                StubClass::UITableView => "UIScrollView"@,
                StubClass::UIToolbar => "UIView"@,
            },
    {
        match self {
            StubClass::ADBannerView => "UIView",
            StubClass::UITableViewCell => "UIView",
            StubClass::UISearchBar => "UIView",
            StubClass::UIPageControl => "UIView",
            StubClass::GKAchievementViewController => "UIViewController",
            StubClass::NSInvocationOperation => "NSObject",
            StubClass::iSimulate => "NSObject",
            StubClass::UINavigationBar => "UIView",
            StubClass::UITableView => "UIScrollView",
            StubClass::UIToolbar => "UIView",
        }
    }

    /// The methods that a stubbed class has of its own.
    pub fn methods(&self) -> (r: Vec<StubMethod>)
        ensures
            r@ == methods_of(*self),
    {
        let r: Vec<StubMethod> = match self {
            StubClass::ADBannerView => vec![
                instance_method("setDelegate:", StubReply::Nothing),
                instance_method("setRequiredContentSizeIdentifiers:", StubReply::Nothing),
                instance_method("setCurrentContentSizeIdentifier:", StubReply::Nothing),
                instance_method("isBannerLoaded", StubReply::No),
            ],
            StubClass::UITableViewCell => vec![
                instance_method("initWithStyle:reuseIdentifier:", StubReply::This),
                instance_method("contentView", StubReply::This),
                instance_method("reuseIdentifier", StubReply::Nil),
                instance_method("textLabel", StubReply::Nil),
                instance_method("detailTextLabel", StubReply::Nil),
                instance_method("imageView", StubReply::Nil),
                instance_method("setAccessoryType:", StubReply::Nothing),
                instance_method("setSelectionStyle:", StubReply::Nothing),
                instance_method("prepareForReuse", StubReply::Nothing),
            ],
            StubClass::UISearchBar => vec![
                instance_method("setDelegate:", StubReply::Nothing),
                instance_method("setPlaceholder:", StubReply::Nothing),
                instance_method("setText:", StubReply::Nothing),
                instance_method("setShowsCancelButton:", StubReply::Nothing),
                instance_method("text", StubReply::Nil),
            ],
            StubClass::UIPageControl => vec![
                instance_method("setNumberOfPages:", StubReply::Nothing),
                instance_method("setCurrentPage:", StubReply::Nothing),
                instance_method("currentPage", StubReply::Zero),
                instance_method("setHidesForSinglePage:", StubReply::Nothing),
            ],
            StubClass::GKAchievementViewController => vec![
                instance_method("setAchievementDelegate:", StubReply::Nothing),
            ],
            StubClass::NSInvocationOperation => vec![
                instance_method("initWithTarget:selector:object:", StubReply::This),
            ],
            StubClass::iSimulate => vec![
                class_method("sharedInstance", StubReply::Nil),
                class_method("sharedInstanceWithMainView:", StubReply::Nil),
                class_method("sharedInstanceWithApplication:", StubReply::Nil),
                instance_method("run", StubReply::Nothing),
                instance_method("start", StubReply::Nothing),
                instance_method("stop", StubReply::Nothing),
            ],
            StubClass::UINavigationBar => vec![
                instance_method("setBarStyle:", StubReply::Nothing),
                instance_method("setTranslucent:", StubReply::Nothing),
                instance_method("setTintColor:", StubReply::Nothing),
                instance_method("setBarTintColor:", StubReply::Nothing),
                instance_method("setDelegate:", StubReply::Nothing),
                instance_method("setItems:", StubReply::Nothing),
                instance_method("setItems:animated:", StubReply::Nothing),
                instance_method("pushNavigationItem:animated:", StubReply::Nothing),
                instance_method("popNavigationItemAnimated:", StubReply::Nil),
            ],
            StubClass::UITableView => vec![
                instance_method("setDataSource:", StubReply::Nothing),
                instance_method("setRowHeight:", StubReply::Nothing),
                instance_method("setSectionHeaderHeight:", StubReply::Nothing),
                instance_method("setSectionFooterHeight:", StubReply::Nothing),
                instance_method("setSeparatorStyle:", StubReply::Nothing),
                instance_method("setSeparatorColor:", StubReply::Nothing),
                instance_method("setBackgroundColor:", StubReply::Nothing),
                instance_method("setAllowsSelection:", StubReply::Nothing),
                instance_method("setEditing:", StubReply::Nothing),
                instance_method("setEditing:animated:", StubReply::Nothing),
                instance_method("reloadData", StubReply::Nothing),
                instance_method("dequeueReusableCellWithIdentifier:", StubReply::Nil),
            ],
            StubClass::UIToolbar => vec![
                instance_method("setBarStyle:", StubReply::Nothing),
                instance_method("setTranslucent:", StubReply::Nothing),
                instance_method("setTintColor:", StubReply::Nothing),
                instance_method("setBarTintColor:", StubReply::Nothing),
                instance_method("setItems:", StubReply::Nothing),
                instance_method("setItems:animated:", StubReply::Nothing),
            ],
        };
        assert(r@ =~= methods_of(*self));
        r
    }

    /// What a stubbed class replies to a message; none where it leaves that to
    /// the class that it is based on.
    pub fn reply(&self, of_class: bool, selector: &str) -> (r: Option<StubReply>)
        ensures
            r == reply_in(methods_of(*self), of_class, selector@),
    {
        let methods: Vec<StubMethod> = self.methods();
        let mut i: usize = 0;
        assert(methods@.skip(0) =~= methods@);
        while i < methods.len()
            invariant
                methods@ == methods_of(*self),
                i <= methods@.len(),
                reply_in(methods@, of_class, selector@) == reply_in(
                    methods@.skip(i as int),
                    of_class,
                    selector@,
                ),
            decreases methods@.len() - i,
        {
            if methods[i].of_class == of_class && str_eq(methods[i].selector, selector) {
                return Some(methods[i].reply);
            }
            assert(methods@.skip(i as int).skip(1) =~= methods@.skip(i + 1));
            i += 1;
        }
        None
    }
}

/// A message is answered by the first method for it, of the class or of its
/// instances as it was sent to the one or the other, and left to the class that the
/// stub is based on where there is none. `i` is where that method is, the number of
/// methods where there is none.
pub proof fn law_first_method_replies(
    methods: Seq<StubMethod>,
    of_class: bool,
    selector: Seq<char>,
    i: int,
)
    requires
        0 <= i <= methods.len(),
        i < methods.len() ==> methods[i].of_class == of_class && methods[i].selector@ == selector,
        forall|j: int|
            0 <= j < i ==> !((#[trigger] methods[j]).of_class == of_class && methods[j].selector@
                == selector),
    ensures
        reply_in(methods, of_class, selector) == if i < methods.len() {
            Some(methods[i].reply)
        } else {
            None
        },
    decreases methods.len(),
{
    if methods.len() > 0 && i > 0 {
        let rest = methods.skip(1);
        assert(!(methods[0].of_class == of_class && methods[0].selector@ == selector));
        assert forall|j: int| 0 <= j < i - 1 implies !((#[trigger] rest[j]).of_class == of_class
            && rest[j].selector@ == selector) by {
            assert(rest[j] == methods[j + 1]);
        }
        law_first_method_replies(rest, of_class, selector, i - 1);
    }
}

/// A stubbed class makes nothing: a message to the class itself gives nil, and one to
/// an instance gives nothing, the instance, nil, no or zero.
pub proof fn law_stubs_make_nothing(class: StubClass, i: int)
    requires
        0 <= i < methods_of(class).len(),
    ensures
        methods_of(class)[i].of_class ==> methods_of(class)[i].reply is Nil && class is iSimulate,
{
}

/// Whether a selector starts with the given three letters.
pub open spec fn starts_as(selector: Seq<char>, a: char, b: char, c: char) -> bool {
    selector.len() >= 3 && selector[0] == a && selector[1] == b && selector[2] == c
}

/// A stub goes by what a method is called: one that sets something gives no reply, and
/// one that initialises an object gives the object.
pub proof fn law_stubs_reply_by_name(class: StubClass, i: int)
    requires
        0 <= i < methods_of(class).len(),
    ensures
        ({
            let method = methods_of(class)[i];
            &&& starts_as(method.selector@, 's', 'e', 't') ==> method.reply is Nothing
            &&& starts_as(method.selector@, 'i', 'n', 'i') ==> method.reply is This
            &&& method.reply is No ==> starts_as(method.selector@, 'i', 's', 'B')
            &&& method.reply is Zero ==> starts_as(method.selector@, 'c', 'u', 'r')
        }),
{
    reveal_strlit("setDelegate:");
    reveal_strlit("setRequiredContentSizeIdentifiers:");
    reveal_strlit("setCurrentContentSizeIdentifier:");
    reveal_strlit("isBannerLoaded");
    reveal_strlit("initWithStyle:reuseIdentifier:");
    reveal_strlit("contentView");
    reveal_strlit("reuseIdentifier");
    reveal_strlit("textLabel");
    reveal_strlit("detailTextLabel");
    reveal_strlit("imageView");
    reveal_strlit("setAccessoryType:");
    reveal_strlit("setSelectionStyle:");
    reveal_strlit("prepareForReuse");
    reveal_strlit("setPlaceholder:");
    reveal_strlit("setText:");
    reveal_strlit("setShowsCancelButton:");
    reveal_strlit("text");
    reveal_strlit("setNumberOfPages:");
    reveal_strlit("setCurrentPage:");
    reveal_strlit("currentPage");
    reveal_strlit("setHidesForSinglePage:");
    reveal_strlit("setAchievementDelegate:");
    reveal_strlit("initWithTarget:selector:object:");
    reveal_strlit("sharedInstance");
    reveal_strlit("sharedInstanceWithMainView:");
    reveal_strlit("sharedInstanceWithApplication:");
    reveal_strlit("run");
    reveal_strlit("start");
    reveal_strlit("stop");
    reveal_strlit("setBarStyle:");
    reveal_strlit("setTranslucent:");
    reveal_strlit("setTintColor:");
    reveal_strlit("setBarTintColor:");
    reveal_strlit("setItems:");
    reveal_strlit("setItems:animated:");
    reveal_strlit("pushNavigationItem:animated:");
    reveal_strlit("popNavigationItemAnimated:");
    reveal_strlit("setDataSource:");
    reveal_strlit("setRowHeight:");
    reveal_strlit("setSectionHeaderHeight:");
    reveal_strlit("setSectionFooterHeight:");
    reveal_strlit("setSeparatorStyle:");
    reveal_strlit("setSeparatorColor:");
    reveal_strlit("setBackgroundColor:");
    reveal_strlit("setAllowsSelection:");
    reveal_strlit("setEditing:");
    reveal_strlit("setEditing:animated:");
    reveal_strlit("reloadData");
    reveal_strlit("dequeueReusableCellWithIdentifier:");
}

} // verus!
