//! What the guest asks of its process: the executable's path, environment
//! variables, and how it ends.
use crate::environment::{set_errno, Environment};
use crate::libc::text::{is_utf8, push_bytes, push_signed_decimal, push_str, signed_decimal};
use crate::mem::{
    lemma_le32_roundtrip, lemma_nul_index, lemma_nul_index_is, nul_index, splice, takes_block_with, GuestAddr, MemState,
    NULL,
};
use vstd::prelude::*;
use vstd::string::*;
use vstd::utf8::valid_utf8;

verus! {

pub const EINVAL: i32 = 22;

/// Memory after `needed` was reported at `bufsize`, unless that is null.
pub open spec fn size_reported(mem: MemState, bufsize: GuestAddr, needed: int) -> MemState {
    if bufsize == NULL {
        mem
    } else {
        mem.write_u32(bufsize as int, needed as u32)
    }
}

/// The size of the buffer, as the guest states it.
pub open spec fn size_offered(mem: MemState, bufsize: GuestAddr) -> int {
    if bufsize == NULL {
        0
    } else {
        mem.u32_at(bufsize as int) as int
    }
}

/// `int _NSGetExecutablePath(char *buf, uint32_t *bufsize)` (`<mach-o/dyld.h>`).
///
/// Writes the absolute path of the main executable into `buf` and returns 0. If
/// `buf` is too small (or NULL), it returns -1. Either way `*bufsize` is set to
/// the required size (including the NUL terminator).
#[allow(non_snake_case)]
pub fn _NSGetExecutablePath(env: &mut Environment, buf: GuestAddr, bufsize: GuestAddr) -> (r: i32)
    requires
        old(env).wf(),
        old(env).executable_path@.len() < u32::MAX,
        bufsize == NULL || old(env).mem@.valid(bufsize as int, 4),
        buf == NULL || size_offered(old(env).mem@, bufsize) <= old(env).executable_path@.len()
            || old(env).mem@.valid(buf as int, old(env).executable_path@.len() as int + 1),
    ensures
        final(env).wf(),
        ({
            let path = old(env).executable_path@;
            let fits = buf != NULL && size_offered(old(env).mem@, bufsize) > path.len();
            let reported = size_reported(old(env).mem@, bufsize, path.len() as int + 1);
            &&& r == if fits {
                0int
            } else {
                -1
            }
            &&& final(env).mem@ == if fits {
                reported.write(buf as int, path.push(0))
            } else {
                reported
            }
        }),
        *final(env) == (Environment { mem: final(env).mem, ..*old(env) }),
{
    // Required size includes the NUL terminator.
    let needed: u32 = env.executable_path.len() as u32 + 1;
    let avail: u32 = if bufsize == NULL {
        0
    } else {
        env.mem.read_u32(bufsize)
    };
    // Always report the required size, as the real implementation does.
    if bufsize != NULL {
        env.mem.write_u32(bufsize, needed);
    }
    if buf == NULL || avail < needed {
        return -1;
    }
    let mut bytes: Vec<u8> = env.executable_path.clone();
    bytes.push(0);
    assert(bytes@ =~= env.executable_path@.push(0));
    env.mem.write_bytes(buf, &bytes);
    0
}

/// A guest that asks again with the size that was reported, for a buffer of that
/// size, gets the path.
pub proof fn law_reported_size_fits(mem: MemState, bufsize: GuestAddr, path: Seq<u8>)
    requires
        mem.wf(),
        path.len() < u32::MAX,
        bufsize != NULL,
        mem.valid(bufsize as int, 4),
    ensures
        size_offered(size_reported(mem, bufsize, path.len() as int + 1), bufsize) > path.len(),
{
    lemma_le32_roundtrip(mem.bytes, bufsize as int, (path.len() + 1) as u32);
}

/// The address of the value of the variable whose name is at `name`, or null.
pub open spec fn getenv_value(env: Environment, name: GuestAddr) -> GuestAddr {
    let key = env.mem@.cstr(name as int);
    if env.env_vars@.contains_key(key) {
        env.env_vars@[key]
    } else {
        NULL
    }
}

pub fn getenv(env: &Environment, name: GuestAddr) -> (r: GuestAddr)
    requires
        env.wf(),
        env.mem@.has_cstr(name as int),
    ensures
        r == getenv_value(*env, name),
{
    let name_cstr: Vec<u8> = env.mem.cstr_at(name);
    match env.env_vars.get(&name_cstr) {
        // Caller should not modify the result
        Some(value) => value,
        None => NULL,
    }
}

/// Whether `setenv` leaves everything as it is: the variable is set and is not
/// to be overwritten.
pub open spec fn setenv_keeps(env: Environment, name: GuestAddr, overwrite: i32) -> bool {
    overwrite == 0 && env.env_vars@.contains_key(env.mem@.cstr(name as int))
}

/// Memory without the block of the value that the variable has.
pub open spec fn value_released(env: Environment, name: GuestAddr) -> MemState {
    let key = env.mem@.cstr(name as int);
    if env.env_vars@.contains_key(key) {
        env.mem@.without_block(env.env_vars@[key])
    } else {
        env.mem@
    }
}

/// Whether `setenv` can do its work: an old value is a heap block, and there is
/// room for a copy of the new one.
pub open spec fn setenv_possible(
    env: Environment,
    name: GuestAddr,
    value: GuestAddr,
    overwrite: i32,
) -> bool {
    let key = env.mem@.cstr(name as int);
    &&& env.mem@.has_cstr(name as int)
    &&& !setenv_keeps(env, name, overwrite) ==> {
        &&& env.env_vars@.contains_key(key) ==> env.mem@.live.contains_key(env.env_vars@[key])
        &&& env.mem@.has_cstr(value as int)
        &&& value_released(env, name).has_room(env.mem@.cstr(value as int).len() as int + 1, false)
    }
}

/// What `setenv` does: it takes a block with a copy of the value and lets the
/// variable have its address. The name is the one that is at `name` by then.
pub open spec fn setenv_stores(
    pre: Environment,
    post: Environment,
    name: GuestAddr,
    value: GuestAddr,
    copy: GuestAddr,
) -> bool {
    &&& takes_block_with(
        value_released(pre, name),
        post.mem@,
        copy,
        pre.mem@.cstr(value as int).push(0),
    )
    &&& post.env_vars@ == pre.env_vars@.insert(post.mem@.cstr(name as int), copy)
}

pub open spec fn setenv_effect(
    pre: Environment,
    post: Environment,
    name: GuestAddr,
    value: GuestAddr,
    overwrite: i32,
) -> bool {
    &&& if setenv_keeps(pre, name, overwrite) {
        &&& post.mem == pre.mem
        &&& post.env_vars == pre.env_vars
    } else {
        exists|copy: GuestAddr| #[trigger] setenv_stores(pre, post, name, value, copy)
    }
    &&& post == (Environment { mem: post.mem, env_vars: post.env_vars, errno: 0, ..pre })
}

/// A string stays a string where another one is written over it.
proof fn lemma_cstr_survives(mem: MemState, s: int, at: int, text: Seq<u8>)
    requires
        mem.has_cstr(s),
        0 <= s,
        0 <= at,
        at + text.len() + 1 <= mem.bytes.len(),
    ensures
        mem.write(at, text.push(0)).has_cstr(s),
{
    let before = mem.bytes;
    let after = splice(before, at, text.push(0));
    lemma_nul_index(before, s);
    let n = nul_index(before, s);
    lemma_nul_index(after, s);
    if at <= n < at + text.len() + 1 {
        assert(after[at + text.len()] == 0);
    } else {
        assert(after[n] == 0);
    }
}

pub fn setenv(env: &mut Environment, name: GuestAddr, value: GuestAddr, overwrite: i32) -> (r: i32)
    requires
        old(env).wf(),
        setenv_possible(*old(env), name, value, overwrite),
    ensures
        r == 0,
        final(env).wf(),
        setenv_effect(*old(env), *final(env), name, value, overwrite),
{
    set_errno(env, 0);
    let name_cstr: Vec<u8> = env.mem.cstr_at(name);
    if let Some(existing) = env.env_vars.get(&name_cstr) {
        if overwrite == 0 {
            return 0;  // success
        }
        env.mem.free(existing);
    }
    proof {
        lemma_nul_index(env.mem@.bytes, value as int);
    }
    let text: Vec<u8> = env.mem.cstr_at(value);
    assert(env.mem@ == value_released(*old(env), name));
    let ghost before = env.mem@;
    let copy: u32 = env.mem.alloc_and_write_cstr(&text);
    proof {
        lemma_cstr_survives(before, name as int, copy as int, text@);
    }
    let name_cstr: Vec<u8> = env.mem.cstr_at(name);  // may have been overwritten
    env.env_vars.insert(name_cstr, copy);
    assert(setenv_stores(*old(env), *env, name, value, copy));
    0  // success
}

/// After `setenv`, `getenv` gives the address of a copy of the value, unless the
/// variable was set already and was not to be overwritten: then it gives what it
/// gave before.
pub proof fn law_getenv_after_setenv(
    pre: Environment,
    post: Environment,
    name: GuestAddr,
    value: GuestAddr,
    overwrite: i32,
)
    requires
        pre.wf(),
        setenv_possible(pre, name, value, overwrite),
        setenv_effect(pre, post, name, value, overwrite),
    ensures
        if setenv_keeps(pre, name, overwrite) {
            getenv_value(post, name) == getenv_value(pre, name)
        } else {
            let copy = getenv_value(post, name);
            &&& copy != NULL
            &&& post.mem@.has_cstr(copy as int)
            &&& post.mem@.cstr(copy as int) == pre.mem@.cstr(value as int)
        },
{
    if !setenv_keeps(pre, name, overwrite) {
        let copy = choose|copy: GuestAddr| #[trigger] setenv_stores(pre, post, name, value, copy);
        let text = pre.mem@.cstr(value as int);
        lemma_nul_index(pre.mem@.bytes, value as int);
        let after = post.mem@.bytes;
        let at = copy as int;
        assert(forall|i: int| 0 <= i < text.len() ==> after[at + i] == #[trigger] text[i]);
        assert forall|i: int| at <= i < at + text.len() implies after[i] != 0 by {
            assert(after[at + (i - at)] == text[i - at]);
        }
        assert(after[at + text.len()] == 0);
        lemma_nul_index_is(after, at, at + text.len());
        assert(post.mem@.cstr(at) =~= text);
    }
}

/// `setenv` leaves every other variable alone: it keeps its address, and where
/// that is a heap block, the block stays and keeps its contents.
pub proof fn law_setenv_keeps_others(
    pre: Environment,
    post: Environment,
    name: GuestAddr,
    value: GuestAddr,
    overwrite: i32,
    other: Seq<u8>,
)
    requires
        pre.wf(),
        setenv_possible(pre, name, value, overwrite),
        setenv_effect(pre, post, name, value, overwrite),
        pre.env_vars@.contains_key(other),
        other != pre.mem@.cstr(name as int),
        other != post.mem@.cstr(name as int),
        pre.mem@.live.contains_key(pre.env_vars@[other]),
        pre.env_vars@.contains_key(pre.mem@.cstr(name as int)) ==> pre.env_vars@[other]
            != pre.env_vars@[pre.mem@.cstr(name as int)],
    ensures
        post.env_vars@.contains_key(other),
        post.env_vars@[other] == pre.env_vars@[other],
        post.mem@.live.contains_key(pre.env_vars@[other]),
        ({
            let at = pre.env_vars@[other];
            let size = pre.mem@.live[at] as int;
            post.mem@.bytes_at(at as int, size) == pre.mem@.bytes_at(at as int, size)
        }),
{
    if !setenv_keeps(pre, name, overwrite) {
        let copy = choose|copy: GuestAddr| #[trigger] setenv_stores(pre, post, name, value, copy);
        let at = pre.env_vars@[other];
        let size = pre.mem@.live[at] as int;
        let mid = value_released(pre, name);
        assert(mid.live.contains_key(at));
        assert(post.mem@.bytes_at(at as int, size) =~= pre.mem@.bytes_at(at as int, size));
    }
}

/// Refuses to unset a variable that is not set.
pub fn unsetenv(env: &mut Environment, name: GuestAddr) -> (r: i32)
    requires
        old(env).wf(),
        old(env).mem@.has_cstr(name as int),
        !old(env).env_vars@.contains_key(old(env).mem@.cstr(name as int)),
    ensures
        r == -1,
        *final(env) == (Environment { errno: EINVAL, ..*old(env) }),
{
    set_errno(env, 0);
    let name_cstr: Vec<u8> = env.mem.cstr_at(name);
    let value: Option<u32> = env.env_vars.get(&name_cstr);
    assert(value is None);
    set_errno(env, EINVAL);
    -1
}

/// Prepares for the end of the process, and returns the code to end it with.
pub fn exit(env: &mut Environment, exit_code: i32) -> (r: i32)
    ensures
        r == exit_code,
        *final(env) == (Environment { errno: 0, ..*old(env) }),
{
    set_errno(env, 0);
    exit_code
}

/// The string at `s`, or a question mark where it is not UTF-8.
pub open spec fn shown_cstr(mem: MemState, s: GuestAddr) -> Seq<u8> {
    if valid_utf8(mem.cstr(s as int)) {
        mem.cstr(s as int)
    } else {
        seq![0x3fu8]
    }
}

fn show_cstr(env: &Environment, s: GuestAddr) -> (r: Vec<u8>)
    requires
        env.wf(),
        env.mem@.has_cstr(s as int),
    ensures
        r@ == shown_cstr(env.mem@, s),
{
    let text: Vec<u8> = env.mem.cstr_at(s);
    if is_utf8(text.as_slice()) {
        text
    } else {
        let r: Vec<u8> = vec![0x3fu8];
        assert(r@ =~= seq![0x3fu8]);
        r
    }
}

/// What `__assert_rtn(const char *func, const char *file, int line, const char *expr)`
/// reports before it ends the process.
pub fn assertion_report(
    env: &Environment,
    func: GuestAddr,
    file: GuestAddr,
    line: i32,
    expr: GuestAddr,
) -> (r: Vec<u8>)
    requires
        env.wf(),
        env.mem@.has_cstr(func as int),
        env.mem@.has_cstr(file as int),
        env.mem@.has_cstr(expr as int),
    ensures
        r@ == "Assertion failed: (".spec_bytes() + shown_cstr(env.mem@, expr)
            + "), function ".spec_bytes() + shown_cstr(env.mem@, func) + ", file ".spec_bytes()
            + shown_cstr(env.mem@, file) + ", line ".spec_bytes() + signed_decimal(line as int)
            + ".".spec_bytes(),
{
    let mut r: Vec<u8> = Vec::new();
    push_str(&mut r, "Assertion failed: (");
    assert(r@ =~= "Assertion failed: (".spec_bytes());
    push_bytes(&mut r, &show_cstr(env, expr));
    push_str(&mut r, "), function ");
    push_bytes(&mut r, &show_cstr(env, func));
    push_str(&mut r, ", file ");
    push_bytes(&mut r, &show_cstr(env, file));
    push_str(&mut r, ", line ");
    push_signed_decimal(&mut r, line);
    push_str(&mut r, ".");
    r
}

/// What `__assert_rtn` ends the process with.
pub fn assertion_failure(
    env: &Environment,
    func: GuestAddr,
    file: GuestAddr,
    line: i32,
    expr: GuestAddr,
) -> (r: Vec<u8>)
    requires
        env.wf(),
        env.mem@.has_cstr(func as int),
        env.mem@.has_cstr(file as int),
        env.mem@.has_cstr(expr as int),
    ensures
        r@ == "Guest assertion failed: (".spec_bytes() + shown_cstr(env.mem@, expr)
            + ") in ".spec_bytes() + shown_cstr(env.mem@, func) + " at ".spec_bytes() + shown_cstr(
            env.mem@,
            file,
        ) + ":".spec_bytes() + signed_decimal(line as int),
{
    let mut r: Vec<u8> = Vec::new();
    push_str(&mut r, "Guest assertion failed: (");
    assert(r@ =~= "Guest assertion failed: (".spec_bytes());
    push_bytes(&mut r, &show_cstr(env, expr));
    push_str(&mut r, ") in ");
    push_bytes(&mut r, &show_cstr(env, func));
    push_str(&mut r, " at ");
    push_bytes(&mut r, &show_cstr(env, file));
    push_str(&mut r, ":");
    push_signed_decimal(&mut r, line);
    r
}

/// Answers `system(NULL)`, by which an app asks for a shell: there is none.
pub fn system(cmd: GuestAddr) -> (r: i32)
    requires
        cmd == NULL,
    ensures
        r == 0,
{
    0
}

/// A variable is kept exactly where it is set and is not to be overwritten. Where it
/// is not kept, its old value is given back first, and no other block.
pub proof fn law_setenv_overwrites(
    env: Environment,
    name: GuestAddr,
    overwrite: i32,
    other: GuestAddr,
)
    ensures
        ({
            let key = env.mem@.cstr(name as int);
            let set = env.env_vars@.contains_key(key);
            let released = value_released(env, name);
            &&& setenv_keeps(env, name, overwrite) <==> set && overwrite == 0
            &&& set ==> !released.live.contains_key(env.env_vars@[key])
            &&& !set || other != env.env_vars@[key] ==> (released.live.contains_key(other)
                <==> env.mem@.live.contains_key(other)) && released.live[other]
                == env.mem@.live[other]
            &&& released.bytes == env.mem@.bytes
            &&& getenv_value(env, name) != NULL ==> set
            &&& set ==> getenv_value(env, name) == env.env_vars@[key]
        }),
{
}

/// Nothing but what `setenv` needs can keep it from setting a variable: a string for
/// the name, and, unless the variable is kept, one for the value, room for a copy of
/// it, and a block that the old value can be given back with.
pub proof fn law_setenv_is_possible(
    env: Environment,
    name: GuestAddr,
    value: GuestAddr,
    overwrite: i32,
)
    requires
        env.mem@.has_cstr(name as int),
        env.mem@.has_cstr(value as int),
        !env.env_vars@.contains_key(env.mem@.cstr(name as int)),
        env.mem@.has_room(env.mem@.cstr(value as int).len() as int + 1, false),
    ensures
        setenv_possible(env, name, value, overwrite),
{
}

/// The size that is reported is where the guest looks for it, and nothing else
/// changes.
pub proof fn law_size_is_reported(mem: MemState, bufsize: GuestAddr, needed: u32, other: int)
    requires
        mem.wf(),
        bufsize == NULL || mem.valid(bufsize as int, 4),
        0 <= other < mem.bytes.len(),
    ensures
        ({
            let after = size_reported(mem, bufsize, needed as int);
            &&& bufsize != NULL ==> after.u32_at(bufsize as int) == needed && size_offered(
                after,
                bufsize,
            ) == needed
            &&& bufsize == NULL || other < bufsize || bufsize + 4 <= other ==> after.bytes[other]
                == mem.bytes[other]
            &&& bufsize == NULL ==> size_offered(mem, bufsize) == 0
        }),
{
    if bufsize != NULL {
        lemma_le32_roundtrip(mem.bytes, bufsize as int, needed);
    }
}

/// A string is shown as it is whenever it can be.
pub proof fn law_strings_are_shown(mem: MemState, s: GuestAddr)
    ensures
        valid_utf8(mem.cstr(s as int)) ==> shown_cstr(mem, s) == mem.cstr(s as int),
        shown_cstr(mem, s) != mem.cstr(s as int) ==> shown_cstr(mem, s) == seq![0x3fu8],
{
}

/// After `setenv`, `getenv` of the same name gives the address of a copy of the value,
/// unless the variable was set and not to be overwritten. No name that is not set has
/// a value.
pub proof fn law_variables_are_what_was_set(
    name: GuestAddr,
    value: GuestAddr,
    overwrite: i32,
    r: i32,
    after: Environment,
    found: GuestAddr,
)
    requires
        call_ensures(getenv, (&after, name), found),
    ensures
        forall|x: &mut Environment|
            #[trigger] call_ensures(setenv, (x, name, value, overwrite), r) && x.wf()
                && setenv_possible(*x, name, value, overwrite) && *final(x) == after ==> {
                let kept = x.env_vars@.contains_key(x.mem@.cstr(name as int)) && overwrite == 0;
                &&& r == 0
                &&& !kept ==> found != 0 && after.mem@.cstr(found as int) == x.mem@.cstr(
                    value as int,
                )
                &&& kept ==> found == x.env_vars@[x.mem@.cstr(name as int)]
            },
        !after.env_vars@.contains_key(after.mem@.cstr(name as int)) ==> found == 0,
{
    assert forall|x: &mut Environment|
        #[trigger] call_ensures(setenv, (x, name, value, overwrite), r) && x.wf()
            && setenv_possible(*x, name, value, overwrite) && *final(x) == after implies {
        let kept = x.env_vars@.contains_key(x.mem@.cstr(name as int)) && overwrite == 0;
        &&& r == 0
        &&& !kept ==> found != 0 && after.mem@.cstr(found as int) == x.mem@.cstr(value as int)
        &&& kept ==> found == x.env_vars@[x.mem@.cstr(name as int)]
    } by {
        law_getenv_after_setenv(*x, after, name, value, overwrite);
    }
}

/// The path of the executable is written whole, with its terminator, exactly where
/// the guest's buffer is large enough, and the size that it needs is reported in any
/// case.
pub proof fn law_executable_path_is_written(buf: GuestAddr, bufsize: GuestAddr, r: i32)
    requires
        bufsize != NULL,
    ensures
        forall|x: &mut Environment|
            #[trigger] call_ensures(_NSGetExecutablePath, (x, buf, bufsize), r) && x.wf()
                && x.executable_path@.len() < 0x1000_0000 && x.mem@.valid(bufsize as int, 4) && (
            buf == NULL || x.mem@.valid(buf as int, x.executable_path@.len() as int + 1)) && (buf
                + x.executable_path@.len() + 1 <= bufsize || bufsize + 4 <= buf) ==> {
                let needed = x.executable_path@.len() + 1;
                &&& r == 0 <==> buf != NULL && x.mem@.u32_at(bufsize as int) >= needed
                &&& r == 0 || r == -1
                &&& final(x).mem@.u32_at(bufsize as int) == needed
                &&& r == 0 ==> final(x).mem@.bytes_at(buf as int, needed as int)
                    == x.executable_path@.push(0)
                &&& r != 0 ==> final(x).mem@ == x.mem@.write_u32(bufsize as int, needed as u32)
            },
{
    assert forall|x: &mut Environment|
        #[trigger] call_ensures(_NSGetExecutablePath, (x, buf, bufsize), r) && x.wf()
            && x.executable_path@.len() < 0x1000_0000 && x.mem@.valid(bufsize as int, 4) && (buf
            == NULL || x.mem@.valid(buf as int, x.executable_path@.len() as int + 1)) && (buf
            + x.executable_path@.len() + 1 <= bufsize || bufsize + 4 <= buf) implies {
        let needed = x.executable_path@.len() + 1;
        &&& r == 0 <==> buf != NULL && x.mem@.u32_at(bufsize as int) >= needed
        &&& r == 0 || r == -1
        &&& final(x).mem@.u32_at(bufsize as int) == needed
        &&& r == 0 ==> final(x).mem@.bytes_at(buf as int, needed as int) == x.executable_path@.push(
            0,
        )
        &&& r != 0 ==> final(x).mem@ == x.mem@.write_u32(bufsize as int, needed as u32)
    } by {
        let path = x.executable_path@;
        let needed = (path.len() + 1) as u32;
        let reported = x.mem@.write_u32(bufsize as int, needed);
        lemma_le32_roundtrip(x.mem@.bytes, bufsize as int, needed);
        if r == 0 {
            crate::mem::lemma_le32_frame(reported.bytes, buf as int, path.push(0), bufsize as int);
            assert(final(x).mem@.bytes_at(buf as int, needed as int) =~= path.push(0));
        }
    }
}

} // verus!
