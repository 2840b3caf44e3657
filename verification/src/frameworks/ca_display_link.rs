//! `CADisplayLink`
//!
//! A display link is driven by a timer that fires on the link itself, which then
//! sends the app's message.
use crate::objc::arc::{id, nil};
use vstd::prelude::*;

verus! {

/// A selector.
pub type SEL = u32;

/// How many times a second a display link fires, at a frame interval of 1.
pub const FRAMES_PER_SECOND: u32 = 60;

#[derive(Clone, Copy, Debug, PartialEq, Eq, Structural)]
pub struct DisplayLink {
    pub target: id,
    pub selector: Option<SEL>,
    /// Weak reference. The timer retains the display link (as its target),
    /// so the timer necessarily outlives the display link. After `invalidate`,
    /// this pointer must not be used.
    pub ns_timer: id,
    pub paused: bool,
}

/// A message with the display link as its argument, as the app asked for:
/// `- (void) selector:(CADisplayLink *)sender;`
#[derive(Clone, Copy, Debug, PartialEq, Eq, Structural)]
pub struct LinkMessage {
    pub target: id,
    pub selector: SEL,
}

impl Default for DisplayLink {
    fn default() -> (r: DisplayLink)
        ensures
            r == (DisplayLink { target: nil, selector: None, ns_timer: nil, paused: false }),
    {
        DisplayLink { target: nil, selector: None, ns_timer: nil, paused: false }
    }
}

impl DisplayLink {
    /// Sets up a new link, once its timer has been made and its target has been
    /// retained.
    pub fn set_target(&mut self, target: id, selector: SEL, ns_timer: id)
        ensures
            *final(self) == (DisplayLink {
                target,
                selector: Some(selector),
                ns_timer,
                ..*old(self)
            }),
    {
        self.target = target;
        self.selector = Some(selector);
        self.ns_timer = ns_timer;
    }

    #[allow(non_snake_case)]
    pub fn isPaused(&self) -> (r: bool)
        ensures
            r == self.paused,
    {
        self.paused
    }

    #[allow(non_snake_case)]
    pub fn setPaused(&mut self, paused: bool)
        ensures
            *final(self) == (DisplayLink { paused, ..*old(self) }),
    {
        self.paused = paused;
    }

    /// The timer that must get a new interval, and the interval in units of
    /// 1 / [FRAMES_PER_SECOND] seconds.
    #[allow(non_snake_case)]
    pub fn setFrameInterval(&self, frame_interval: i32) -> (r: (id, u32))
        requires
            frame_interval >= 1,
        ensures
            r.0 == self.ns_timer,
            r.1 == frame_interval,
    {
        (self.ns_timer, frame_interval as u32)
    }

    /// The message to send when the timer fires. There is none while the link is
    /// paused.
    pub fn timer_did_fire(&self, timer: id) -> (r: Option<LinkMessage>)
        requires
            timer == self.ns_timer,
            !self.paused ==> self.selector is Some,
        ensures
            match r {
                None => self.paused,
                Some(message) => {
                    &&& !self.paused
                    &&& message == (LinkMessage {
                        target: self.target,
                        selector: self.selector->0,
                    })
                },
            },
    {
        if self.paused {
            // This could be improved, as we're still running the timer,
            // but just not passing the actual call.
            return None;
        }
        match self.selector {
            Some(selector) => Some(LinkMessage { target: self.target, selector }),
            None => None,
        }
    }
}

/// One-shot: on the very first fire of any link that is not paused, the views in
/// the key window are laid out. This is how JellyCar 3's EAGLView gets its
/// framebuffer created: it needs to happen after game init is done.
#[derive(Clone, Copy, Debug, PartialEq, Eq, Structural)]
pub struct FirstLayout {
    pub done: bool,
}

impl FirstLayout {
    /// Whether the layout is still to be done. It counts as done from then on.
    pub fn take(&mut self) -> (r: bool)
        ensures
            r == !old(self).done,
            final(self).done,
    {
        let r: bool = !self.done;
        self.done = true;
        r
    }
}

/// Where the layout of a window's subviews, and of theirs, stands: which of
/// `count` subviews is next, and within it which of its own subviews, once it is
/// known how many there are.
#[derive(Clone, Copy, Debug, PartialEq, Eq)]
pub struct LayoutWalk {
    pub count: u32,
    pub outer: u32,
    pub inner: Option<(u32, u32)>,
}

/// What to lay out next.
#[derive(Clone, Copy, Debug, PartialEq, Eq, Structural)]
pub enum LayoutStep {
    /// The subview with this index. Its subviews must then be counted, and the
    /// count handed to [LayoutWalk::enter].
    Subview(u32),
    /// Of the last subview, the subview with this index.
    Inner(u32),
    Done,
}

impl LayoutWalk {
    pub open spec fn wf(self) -> bool {
        &&& self.outer <= self.count
        &&& self.inner matches Some((i, n)) ==> self.outer < self.count && i <= n
    }

    /// Starts with the first of `count` subviews.
    pub fn new(count: u32) -> (r: LayoutWalk)
        ensures
            r == (LayoutWalk { count, outer: 0, inner: None }),
            r.wf(),
    {
        LayoutWalk { count, outer: 0, inner: None }
    }

    /// Takes the number of subviews that the last subview has.
    pub fn enter(&mut self, inner_count: u32)
        requires
            old(self).wf(),
            old(self).outer < old(self).count,
        ensures
            final(self).wf(),
            *final(self) == (LayoutWalk { inner: Some((0, inner_count)), ..*old(self) }),
    {
        self.inner = Some((0, inner_count));
    }

    /// The subview whose own subviews have all been laid out is left behind.
    pub open spec fn settled(self) -> LayoutWalk {
        match self.inner {
            Some((i, n)) if i >= n => LayoutWalk { outer: (self.outer + 1) as u32, inner: None, ..self },
            _ => self,
        }
    }

    /// What to lay out next: what is left of the current subview's subviews,
    /// then the next subview.
    pub fn next_step(&mut self) -> (r: LayoutStep)
        requires
            old(self).wf(),
        ensures
            final(self).wf(),
            ({
                let settled = old(self).settled();
                match settled.inner {
                    Some((i, n)) => {
                        &&& r == LayoutStep::Inner(i)
                        &&& *final(self) == (LayoutWalk { inner: Some(((i + 1) as u32, n)), ..settled })
                    },
                    None => {
                        &&& r == if settled.outer < settled.count {
                            LayoutStep::Subview(settled.outer)
                        } else {
                            LayoutStep::Done
                        }
                        &&& *final(self) == settled
                    },
                }
            }),
    {
        if let Some((i, n)) = self.inner {
            if i < n {
                self.inner = Some((i + 1, n));
                return LayoutStep::Inner(i);
            }
            self.outer = self.outer + 1;
            self.inner = None;
        }
        if self.outer < self.count {
            LayoutStep::Subview(self.outer)
        } else {
            LayoutStep::Done
        }
    }
}

/// The steps that a walk takes from here on, where the subview with the index `i`
/// turns out to have `counts(i)` subviews.
pub open spec fn steps_from(walk: LayoutWalk, counts: spec_fn(u32) -> u32) -> Seq<LayoutStep>
    decreases
            walk.count - walk.outer,
            (match walk.inner {
                Some((i, n)) => n - i,
                None => 0x1_0000_0000,
            }),
{
    let settled = walk.settled();
    if !walk.wf() {
        seq![]
    } else {
        match settled.inner {
            Some((i, n)) => seq![LayoutStep::Inner(i)] + steps_from(
                LayoutWalk { inner: Some(((i + 1) as u32, n)), ..settled },
                counts,
            ),
            None => if settled.outer < settled.count {
                seq![LayoutStep::Subview(settled.outer)] + steps_from(
                    LayoutWalk { inner: Some((0, counts(settled.outer))), ..settled },
                    counts,
                )
            } else {
                seq![]
            },
        }
    }
}

/// Every one of a subview's own subviews from `i` on.
pub open spec fn inner_steps(i: u32, n: u32) -> Seq<LayoutStep> {
    Seq::new((n - i) as nat, |j: int| LayoutStep::Inner((i + j) as u32))
}

/// Every subview from `k` on, each followed by all of its own subviews.
pub open spec fn all_steps(k: u32, count: u32, counts: spec_fn(u32) -> u32) -> Seq<LayoutStep>
    decreases count - k,
{
    if k >= count {
        seq![]
    } else {
        seq![LayoutStep::Subview(k)] + inner_steps(0, counts(k)) + all_steps(
            (k + 1) as u32,
            count,
            counts,
        )
    }
}

proof fn lemma_inner_steps(walk: LayoutWalk, counts: spec_fn(u32) -> u32, i: u32, n: u32)
    requires
        walk.wf(),
        walk.inner == Some((i, n)),
    ensures
        steps_from(walk, counts) == inner_steps(i, n) + steps_from(
            LayoutWalk { outer: (walk.outer + 1) as u32, inner: None, ..walk },
            counts,
        ),
    decreases n - i,
{
    let after = LayoutWalk { outer: (walk.outer + 1) as u32, inner: None, ..walk };
    if i < n {
        let next = LayoutWalk { inner: Some(((i + 1) as u32, n)), ..walk };
        lemma_inner_steps(next, counts, (i + 1) as u32, n);
        assert(inner_steps(i, n) =~= seq![LayoutStep::Inner(i)] + inner_steps((i + 1) as u32, n));
        assert(steps_from(walk, counts) =~= inner_steps(i, n) + steps_from(after, counts));
    } else {
        assert(walk.settled() == after);
        assert(after.settled() == after);
        assert(inner_steps(i, n) =~= seq![]);
        assert(steps_from(walk, counts) =~= steps_from(after, counts));
        assert(steps_from(walk, counts) =~= inner_steps(i, n) + steps_from(after, counts));
    }
}

/// Every subview is laid out, and after it every one of its own subviews, once and
/// in order.
pub proof fn law_all_views_are_laid_out(k: u32, count: u32, counts: spec_fn(u32) -> u32)
    requires
        k <= count,
    ensures
        steps_from(LayoutWalk { count, outer: k, inner: None }, counts) == all_steps(
            k,
            count,
            counts,
        ),
    decreases count - k,
{
    let walk = LayoutWalk { count, outer: k, inner: None };
    if k < count {
        let entered = LayoutWalk { inner: Some((0, counts(k))), ..walk };
        lemma_inner_steps(entered, counts, 0, counts(k));
        law_all_views_are_laid_out((k + 1) as u32, count, counts);
        assert(steps_from(walk, counts) =~= all_steps(k, count, counts));
    }
}

/// Each subview's turn is followed by that of each of its own subviews, from the
/// first to the last, and then by the next subview's.
pub proof fn law_subviews_take_turns(k: u32, count: u32, counts: spec_fn(u32) -> u32, m: u32)
    requires
        k < count,
    ensures
        ({
            let steps = all_steps(k, count, counts);
            &&& steps.len() > counts(k)
            &&& steps[0] == LayoutStep::Subview(k)
            &&& m < counts(k) ==> steps[1 + m] == LayoutStep::Inner(m)
            &&& steps.skip(1 + counts(k)) == all_steps((k + 1) as u32, count, counts)
            &&& all_steps(count, count, counts).len() == 0
        }),
{
    let steps = all_steps(k, count, counts);
    assert(steps.skip(1 + counts(k)) =~= all_steps((k + 1) as u32, count, counts));
}

/// A walk that is in the middle of a subview's own subviews stays there until the
/// last of them, and then goes on to the next subview.
pub proof fn law_walk_moves_on(walk: LayoutWalk)
    requires
        walk.wf(),
    ensures
        ({
            let settled = walk.settled();
            &&& settled.wf()
            &&& settled.count == walk.count
            &&& walk.inner is None ==> settled == walk
            &&& walk.inner matches Some((i, n)) ==> {
                &&& i < n ==> settled == walk
                &&& i >= n ==> settled.outer == walk.outer + 1 && settled.inner is None
            }
        }),
{
}

/// A link sends the message that it was set up with, to the target that it was set up
/// with, whenever it fires while it is not paused, and never while it is.
pub proof fn law_links_send_their_message(
    target: id,
    selector: SEL,
    ns_timer: id,
    paused: bool,
    link: DisplayLink,
    r: Option<LinkMessage>,
)
    requires
        link.target == target,
        link.selector == Some(selector),
        link.paused == paused,
        call_ensures(DisplayLink::timer_did_fire, (&link, ns_timer), r),
    ensures
        r is Some <==> !paused,
        r is Some ==> r == Some(LinkMessage { target, selector }),
        forall|x: &mut DisplayLink|
            #[trigger] call_ensures(DisplayLink::set_target, (x, target, selector, ns_timer), ())
                ==> final(x).target == target && final(x).selector == Some(selector) && final(
                x).ns_timer == ns_timer && final(x).paused == x.paused,
        forall|x: &mut DisplayLink|
            #[trigger] call_ensures(DisplayLink::setPaused, (x, paused), ()) ==> final(x).paused
                == paused && final(x).target == x.target && final(x).selector == x.selector,
{
}

} // verus!
