//! The guest program's environment: its memory, registers and library state.
use crate::libc::{crypto, stdlib, unwind_sjlj, zlib};
use crate::mem::{GuestAddr, Mem};
use vstd::prelude::*;

verus! {

/// The number of a guest thread.
pub type ThreadId = usize;

/// The first character of the name of the "C" locale, the only one whose
/// characters are known.
pub const C_LOCALE: u8 = 0x43;

/// An environment variable: its name and the address of its value.
pub struct EnvVar {
    pub name: Vec<u8>,
    pub value: GuestAddr,
}

/// The environment variables, at most one of each name.
pub struct EnvVars {
    entries: Vec<EnvVar>,
}

spec fn holds_name(s: Seq<EnvVar>, name: Seq<u8>) -> bool {
    exists|i: int| 0 <= i < s.len() && (#[trigger] s[i]).name@ == name
}

spec fn var_map(s: Seq<EnvVar>) -> Map<Seq<u8>, GuestAddr> {
    Map::new(
        |name: Seq<u8>| holds_name(s, name),
        |name: Seq<u8>| s[choose|i: int| 0 <= i < s.len() && (#[trigger] s[i]).name@ == name].value,
    )
}

spec fn distinct_names(s: Seq<EnvVar>) -> bool {
    forall|i: int, j: int|
        0 <= i < j < s.len() ==> (#[trigger] s[i]).name@ != (#[trigger] s[j]).name@
}

proof fn lemma_var_map_at(s: Seq<EnvVar>, i: int)
    requires
        distinct_names(s),
        0 <= i < s.len(),
    ensures
        var_map(s).contains_key(s[i].name@),
        var_map(s)[s[i].name@] == s[i].value,
{
    let name = s[i].name@;
    assert(holds_name(s, name));
    let j = choose|j: int| 0 <= j < s.len() && (#[trigger] s[j]).name@ == name;
    assert(i == j);
}

/// Replacing an entry by one of the same name changes that name's value.
proof fn lemma_var_map_update(s: Seq<EnvVar>, k: int, var: EnvVar)
    requires
        distinct_names(s),
        0 <= k < s.len(),
        s[k].name@ == var.name@,
    ensures
        distinct_names(s.update(k, var)),
        var_map(s.update(k, var)) == var_map(s).insert(var.name@, var.value),
{
    let t = s.update(k, var);
    assert forall|i: int| 0 <= i < t.len() implies (#[trigger] t[i]).name@ == s[i].name@ by {}
    assert(distinct_names(t)) by {
        assert forall|i: int, j: int| 0 <= i < j < t.len() implies (#[trigger] t[i]).name@ != (
        #[trigger] t[j]).name@ by {
            assert(s[i].name@ != s[j].name@);
        }
    }
    assert forall|name: Seq<u8>| holds_name(t, name) == holds_name(s, name) by {
        if holds_name(s, name) {
            let i = choose|i: int| 0 <= i < s.len() && (#[trigger] s[i]).name@ == name;
            assert(t[i].name@ == name);
        }
        if holds_name(t, name) {
            let i = choose|i: int| 0 <= i < t.len() && (#[trigger] t[i]).name@ == name;
            assert(s[i].name@ == name);
        }
    }
    assert(holds_name(s, var.name@));
    assert forall|name: Seq<u8>| holds_name(t, name) implies var_map(t)[name] == var_map(s).insert(
        var.name@,
        var.value,
    )[name] by {
        let i = choose|i: int| 0 <= i < t.len() && (#[trigger] t[i]).name@ == name;
        lemma_var_map_at(t, i);
        lemma_var_map_at(s, i);
        if i != k {
            assert(s[i].name@ != s[k].name@);
        }
    }
    assert(var_map(t) =~= var_map(s).insert(var.name@, var.value));
}

/// Adding an entry of a new name adds that name.
proof fn lemma_var_map_push(s: Seq<EnvVar>, var: EnvVar)
    requires
        distinct_names(s),
        !holds_name(s, var.name@),
    ensures
        distinct_names(s.push(var)),
        var_map(s.push(var)) == var_map(s).insert(var.name@, var.value),
{
    let t = s.push(var);
    assert(distinct_names(t)) by {
        assert forall|i: int, j: int| 0 <= i < j < t.len() implies (#[trigger] t[i]).name@ != (
        #[trigger] t[j]).name@ by {
            assert(t[i] == s[i]);
            if j < s.len() {
                assert(s[i].name@ != s[j].name@);
            }
        }
    }
    assert forall|name: Seq<u8>|
        holds_name(t, name) == (name == var.name@ || holds_name(s, name)) by {
        if holds_name(s, name) {
            let i = choose|i: int| 0 <= i < s.len() && (#[trigger] s[i]).name@ == name;
            assert(t[i].name@ == name);
        }
        if name == var.name@ {
            assert(t[s.len() as int].name@ == name);
        }
        if holds_name(t, name) {
            let i = choose|i: int| 0 <= i < t.len() && (#[trigger] t[i]).name@ == name;
            if i < s.len() {
                assert(s[i].name@ == name);
            }
        }
    }
    assert forall|name: Seq<u8>| holds_name(t, name) implies var_map(t)[name] == var_map(s).insert(
        var.name@,
        var.value,
    )[name] by {
        let i = choose|i: int| 0 <= i < t.len() && (#[trigger] t[i]).name@ == name;
        lemma_var_map_at(t, i);
        if i < s.len() {
            assert(s[i].name@ == name);
            lemma_var_map_at(s, i);
        }
    }
    assert(var_map(t) =~= var_map(s).insert(var.name@, var.value));
}

/// Whether two byte strings are equal.
pub fn bytes_eq(a: &Vec<u8>, b: &Vec<u8>) -> (r: bool)
    ensures
        r == (a@ == b@),
{
    if a.len() != b.len() {
        return false;
    }
    let mut i: usize = 0;
    while i < a.len()
        invariant
            i <= a@.len() == b@.len(),
            forall|j: int| 0 <= j < i ==> a@[j] == b@[j],
        decreases a@.len() - i,
    {
        if a[i] != b[i] {
            return false;
        }
        i += 1;
    }
    assert(a@ =~= b@);
    true
}

impl View for EnvVars {
    type V = Map<Seq<u8>, GuestAddr>;

    closed spec fn view(&self) -> Map<Seq<u8>, GuestAddr> {
        var_map(self.entries@)
    }
}

impl EnvVars {
    pub closed spec fn wf(&self) -> bool {
        distinct_names(self.entries@)
    }

    /// No variables.
    pub fn new() -> (r: EnvVars)
        ensures
            r.wf(),
            r@ == Map::<Seq<u8>, GuestAddr>::empty(),
    {
        let r = EnvVars { entries: Vec::new() };
        assert(r@ =~= Map::<Seq<u8>, GuestAddr>::empty());
        r
    }

    fn index_of(&self, name: &Vec<u8>) -> (r: Option<usize>)
        ensures
            match r {
                Some(i) => i < self.entries@.len() && self.entries@[i as int].name@ == name@,
                None => !holds_name(self.entries@, name@),
            },
    {
        let mut i: usize = 0;
        while i < self.entries.len()
            invariant
                i <= self.entries@.len(),
                forall|j: int| 0 <= j < i ==> (#[trigger] self.entries@[j]).name@ != name@,
            decreases self.entries@.len() - i,
        {
            if bytes_eq(&self.entries[i].name, name) {
                return Some(i);
            }
            i += 1;
        }
        None
    }

    /// The address of the value of `name`, if that is set.
    pub fn get(&self, name: &Vec<u8>) -> (r: Option<GuestAddr>)
        requires
            self.wf(),
        ensures
            r == if self@.contains_key(name@) {
                Some(self@[name@])
            } else {
                None
            },
    {
        match self.index_of(name) {
            Some(i) => {
                proof {
                    lemma_var_map_at(self.entries@, i as int);
                }
                Some(self.entries[i].value)
            },
            None => None,
        }
    }

    /// Sets `name` to the value at `value`.
    pub fn insert(&mut self, name: Vec<u8>, value: GuestAddr)
        requires
            old(self).wf(),
        ensures
            final(self).wf(),
            final(self)@ == old(self)@.insert(name@, value),
    {
        let index: Option<usize> = self.index_of(&name);
        let var = EnvVar { name, value };
        match index {
            Some(i) => {
                proof {
                    lemma_var_map_update(self.entries@, i as int, var);
                }
                self.entries.set(i, var);
            },
            None => {
                proof {
                    lemma_var_map_push(self.entries@, var);
                }
                self.entries.push(var);
            },
        }
    }
}

/// The state of the C library's parts.
pub struct LibcState {
    pub crypto: crypto::State,
    pub stdlib: stdlib::State,
    pub unwind_sjlj: unwind_sjlj::State,
    pub zlib: zlib::State,
}

/// All that guest code can reach.
pub struct Environment {
    pub mem: Mem,
    pub errno: i32,
    pub env_vars: EnvVars,
    pub current_thread: ThreadId,
    /// The core registers of the current thread.
    pub regs: [u32; 16],
    /// The absolute guest path of the main executable, in UTF-8.
    pub executable_path: Vec<u8>,
    /// The first character of the name of the `LC_CTYPE` locale.
    pub ctype_locale: u8,
    pub libc_state: LibcState,
}

impl Environment {
    pub open spec fn wf(&self) -> bool {
        &&& self.mem.wf()
        &&& self.env_vars.wf()
        &&& self.libc_state.zlib.wf()
    }

    /// The environment of a program that has not started yet.
    pub fn new(mem: Mem, executable_path: Vec<u8>) -> (r: Environment)
        requires
            mem.wf(),
        ensures
            r.wf(),
            r.mem == mem,
            r.executable_path == executable_path,
            r.errno == 0,
            r.current_thread == 0,
            r.ctype_locale == C_LOCALE,
            r.regs@ == Seq::new(16, |i: int| 0u32),
            r.env_vars@ == Map::<Seq<u8>, GuestAddr>::empty(),
            r.libc_state.crypto@ == Map::<u32, Seq<u8>>::empty(),
            r.libc_state.stdlib == (stdlib::State { rand: 0, random: 0, arc4random: 0 }),
            r.libc_state.unwind_sjlj@ == Map::<ThreadId, u32>::empty(),
            r.libc_state.zlib@ == Map::<GuestAddr, zlib::GzView>::empty(),
    {
        let regs: [u32; 16] = [0u32; 16];
        assert(regs@ =~= Seq::new(16, |i: int| 0u32));
        Environment {
            mem,
            errno: 0,
            env_vars: EnvVars::new(),
            current_thread: 0,
            regs,
            executable_path,
            ctype_locale: C_LOCALE,
            libc_state: LibcState {
                crypto: crypto::State::default(),
                stdlib: stdlib::State::default(),
                unwind_sjlj: unwind_sjlj::State::default(),
                zlib: zlib::State::default(),
            },
        }
    }
}

/// Sets the guest's `errno`.
pub fn set_errno(env: &mut Environment, value: i32)
    ensures
        *final(env) == (Environment { errno: value, ..*old(env) }),
{
    env.errno = value;
}

} // verus!
