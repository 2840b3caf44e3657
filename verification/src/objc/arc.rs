//! Objective-C ARC (Automatic Reference Counting) runtime helpers:
//! `objc_retain`, `objc_release`, `objc_storeStrong`, and the autorelease/weak
//! families.
//!
//! ARC-compiled apps emit calls to these libobjc functions pervasively (every
//! strong assignment, every returned object). They come down to `retain`,
//! `release` and `autorelease` messages, which are the caller's to send.
//!
//! Weak references are best-effort and NON-zeroing: there is no weak registry,
//! so a weak ref is stored as a plain pointer.
use crate::environment::Environment;
use crate::mem::{lemma_le32_roundtrip, GuestAddr, MemState};
use vstd::prelude::*;

verus! {

/// An object.
#[allow(non_camel_case_types)]
pub type id = GuestAddr;

/// No object.
#[allow(non_upper_case_globals)]
pub const nil: id = 0;

/// What must be sent to an object. The reply to the last message is the result.
#[derive(Clone, Copy, Debug, PartialEq, Eq, Structural)]
pub enum Messages {
    Retain,
    Release,
    Autorelease,
    /// `retain` to the object, then `autorelease` to the reply.
    RetainThenAutorelease,
}

/// Messages and the object to send them to.
#[derive(Clone, Copy, Debug, PartialEq, Eq, Structural)]
pub struct Send {
    pub object: id,
    pub messages: Messages,
}

pub fn objc_retain(object: id) -> (r: Send)
    ensures
        r == (Send { object, messages: Messages::Retain }),
{
    Send { object, messages: Messages::Retain }
}

pub fn objc_release(object: id) -> (r: Send)
    ensures
        r == (Send { object, messages: Messages::Release }),
{
    Send { object, messages: Messages::Release }
}

pub fn objc_autorelease(object: id) -> (r: Send)
    ensures
        r == (Send { object, messages: Messages::Autorelease }),
{
    Send { object, messages: Messages::Autorelease }
}

#[allow(non_snake_case)]
pub fn objc_retainAutorelease(object: id) -> (r: Send)
    ensures
        r == (Send { object, messages: Messages::RetainThenAutorelease }),
{
    Send { object, messages: Messages::RetainThenAutorelease }
}

/// Producer side of the ARC return-value optimization. The TLS hand-off is just
/// an optimization; a plain autorelease is semantically correct.
#[allow(non_snake_case)]
pub fn objc_autoreleaseReturnValue(object: id) -> (r: Send)
    ensures
        r == (Send { object, messages: Messages::Autorelease }),
{
    Send { object, messages: Messages::Autorelease }
}

#[allow(non_snake_case)]
pub fn objc_retainAutoreleaseReturnValue(object: id) -> (r: Send)
    ensures
        r == (Send { object, messages: Messages::RetainThenAutorelease }),
{
    Send { object, messages: Messages::RetainThenAutorelease }
}

/// Consumer side of the optimization: retain the (autoreleased) return value.
#[allow(non_snake_case)]
pub fn objc_retainAutoreleasedReturnValue(object: id) -> (r: Send)
    ensures
        r == (Send { object, messages: Messages::Retain }),
{
    Send { object, messages: Messages::Retain }
}

/// Without real block-copy support, retain the block like an ordinary object.
#[allow(non_snake_case)]
pub fn objc_retainBlock(block: id) -> (r: Send)
    ensures
        r == (Send { object: block, messages: Messages::Retain }),
{
    Send { object: block, messages: Messages::Retain }
}

/// A strong assignment whose new object must be retained.
pub struct StrongStore {
    location: GuestAddr,
    old: id,
}

impl StrongStore {
    pub closed spec fn location(&self) -> GuestAddr {
        self.location
    }

    pub closed spec fn old_object(&self) -> id {
        self.old
    }

    /// Stores the object that the new object's `retain` replied with. What was
    /// stored before must then be released.
    pub fn retained(self, env: &mut Environment, object: id) -> (r: Send)
        requires
            old(env).wf(),
            old(env).mem@.valid(self.location() as int, 4),
        ensures
            final(env).wf(),
            final(env).mem@ == old(env).mem@.write_u32(self.location() as int, object),
            *final(env) == (Environment { mem: final(env).mem, ..*old(env) }),
            r == (Send { object: self.old_object(), messages: Messages::Release }),
    {
        env.mem.write_u32(self.location, object);
        objc_release(self.old)
    }
}

/// `void objc_storeStrong(id *location, id object)`
///
/// Nothing is to be done where the object is stored already. Else it must be
/// retained, and the store finished by [StrongStore::retained].
#[allow(non_snake_case)]
pub fn objc_storeStrong(env: &Environment, location: GuestAddr, object: id) -> (r: Option<
    (Send, StrongStore),
>)
    requires
        env.wf(),
        env.mem@.valid(location as int, 4),
    ensures
        match r {
            None => env.mem@.u32_at(location as int) == object,
            Some((send, store)) => {
                &&& env.mem@.u32_at(location as int) != object
                &&& send == (Send { object, messages: Messages::Retain })
                &&& store.location() == location
                &&& store.old_object() == env.mem@.u32_at(location as int)
            },
        },
{
    let old_object: id = env.mem.read_u32(location);
    if old_object == object {
        return None;
    }
    Some((objc_retain(object), StrongStore { location, old: old_object }))
}

#[allow(non_snake_case)]
pub fn objc_initWeak(env: &mut Environment, location: GuestAddr, object: id) -> (r: id)
    requires
        old(env).wf(),
        old(env).mem@.valid(location as int, 4),
    ensures
        r == object,
        final(env).wf(),
        final(env).mem@ == old(env).mem@.write_u32(location as int, object),
        *final(env) == (Environment { mem: final(env).mem, ..*old(env) }),
{
    env.mem.write_u32(location, object);
    object
}

#[allow(non_snake_case)]
pub fn objc_storeWeak(env: &mut Environment, location: GuestAddr, object: id) -> (r: id)
    requires
        old(env).wf(),
        old(env).mem@.valid(location as int, 4),
    ensures
        r == object,
        final(env).wf(),
        final(env).mem@ == old(env).mem@.write_u32(location as int, object),
        *final(env) == (Environment { mem: final(env).mem, ..*old(env) }),
{
    env.mem.write_u32(location, object);
    object
}

/// The object that a weak reference at `location` is to.
pub open spec fn weak_object(mem: MemState, location: GuestAddr) -> id {
    mem.u32_at(location as int)
}

#[allow(non_snake_case)]
pub fn objc_loadWeakRetained(env: &Environment, location: GuestAddr) -> (r: Send)
    requires
        env.wf(),
        env.mem@.valid(location as int, 4),
    ensures
        r == (Send { object: weak_object(env.mem@, location), messages: Messages::Retain }),
{
    objc_retain(env.mem.read_u32(location))
}

#[allow(non_snake_case)]
pub fn objc_loadWeak(env: &Environment, location: GuestAddr) -> (r: Send)
    requires
        env.wf(),
        env.mem@.valid(location as int, 4),
    ensures
        r == (Send {
            object: weak_object(env.mem@, location),
            messages: Messages::RetainThenAutorelease,
        }),
{
    objc_retainAutorelease(env.mem.read_u32(location))
}

#[allow(non_snake_case)]
pub fn objc_destroyWeak(env: &mut Environment, location: GuestAddr)
    requires
        old(env).wf(),
        old(env).mem@.valid(location as int, 4),
    ensures
        final(env).wf(),
        final(env).mem@ == old(env).mem@.write_u32(location as int, nil),
        *final(env) == (Environment { mem: final(env).mem, ..*old(env) }),
{
    env.mem.write_u32(location, nil);
}

#[allow(non_snake_case)]
pub fn objc_copyWeak(env: &mut Environment, to: GuestAddr, from: GuestAddr)
    requires
        old(env).wf(),
        old(env).mem@.valid(to as int, 4),
        old(env).mem@.valid(from as int, 4),
    ensures
        final(env).wf(),
        final(env).mem@ == old(env).mem@.write_u32(
            to as int,
            weak_object(old(env).mem@, from),
        ),
        *final(env) == (Environment { mem: final(env).mem, ..*old(env) }),
{
    let object: id = env.mem.read_u32(from);
    env.mem.write_u32(to, object);
}

/// Called when a collection is mutated during fast enumeration. Real libobjc
/// aborts; this goes on (best-effort).
#[allow(non_snake_case)]
pub fn objc_enumerationMutation(env: &mut Environment, object: id)
    ensures
        *final(env) == *old(env),
{
}

/// A weak reference is to the object that was stored last, a copy of it is to
/// the same object, and a destroyed one is to none.
pub proof fn law_weak_reference(mem: MemState, location: GuestAddr, object: id, copy: GuestAddr)
    requires
        mem.wf(),
        mem.valid(location as int, 4),
        mem.valid(copy as int, 4),
    ensures
        ({
            let stored = mem.write_u32(location as int, object);
            let copied = stored.write_u32(copy as int, weak_object(stored, location));
            &&& weak_object(stored, location) == object
            &&& weak_object(copied, copy) == object
            &&& weak_object(stored.write_u32(location as int, nil), location) == nil
        }),
{
    let stored = mem.write_u32(location as int, object);
    lemma_le32_roundtrip(mem.bytes, location as int, object);
    lemma_le32_roundtrip(stored.bytes, copy as int, object);
    lemma_le32_roundtrip(stored.bytes, location as int, nil);
}

/// A strong reference keeps its object: the new one is retained before the old one is
/// released, and is then what is stored, so that each retain is met by one release. The
/// object that is stored already is neither retained nor released.
pub proof fn law_strong_references_balance(
    before: Environment,
    location: GuestAddr,
    object: id,
    begun: Option<(Send, StrongStore)>,
    kept: id,
    last: Send,
)
    requires
        before.wf(),
        before.mem@.valid(location as int, 4),
        call_ensures(objc_storeStrong, (&before, location, object), begun),
    ensures
        begun is None <==> before.mem@.u32_at(location as int) == object,
        begun matches Some((send, store)) ==> {
            &&& send.object == object
            &&& send.messages is Retain
            &&& forall|x: &mut Environment|
                #[trigger] call_ensures(StrongStore::retained, (store, x, kept), last) && x.wf()
                    && x.mem@.valid(location as int, 4) ==> {
                    &&& final(x).mem@.u32_at(location as int) == kept
                    &&& last.object == before.mem@.u32_at(location as int)
                    &&& last.messages is Release
                }
        },
{
    if let Some((send, store)) = begun {
        assert forall|x: &mut Environment|
            #[trigger] call_ensures(StrongStore::retained, (store, x, kept), last) && x.wf()
                && x.mem@.valid(location as int, 4) implies {
            &&& final(x).mem@.u32_at(location as int) == kept
            &&& last.object == before.mem@.u32_at(location as int)
            &&& last.messages is Release
        } by {
            lemma_le32_roundtrip(x.mem@.bytes, location as int, kept);
        }
    }
}

/// A weak reference that is loaded is retained, and autoreleased again where nobody is
/// to release it; what was stored is what is loaded.
pub proof fn law_weak_loads(env: Environment, location: GuestAddr, object: id, a: Send, b: Send, r: id)
    requires
        call_ensures(objc_loadWeakRetained, (&env, location), a),
        call_ensures(objc_loadWeak, (&env, location), b),
    ensures
        a.messages is Retain,
        b.messages is RetainThenAutorelease,
        a.object == b.object == env.mem@.u32_at(location as int),
        forall|x: &mut Environment|
            (#[trigger] call_ensures(objc_storeWeak, (x, location, object), r) || call_ensures(
                objc_initWeak,
                (x, location, object),
                r,
            )) && x.wf() && x.mem@.valid(location as int, 4) ==> r == object && final(
                x).mem@.u32_at(location as int) == object,
{
    assert forall|x: &mut Environment|
        (#[trigger] call_ensures(objc_storeWeak, (x, location, object), r) || call_ensures(
            objc_initWeak,
            (x, location, object),
            r,
        )) && x.wf() && x.mem@.valid(location as int, 4) implies r == object && final(
        x).mem@.u32_at(location as int) == object by {
        lemma_le32_roundtrip(x.mem@.bytes, location as int, object);
    }
}

} // verus!
