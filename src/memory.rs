//! Reading null-terminated UTF-8 strings out of a guest's linear memory.
use vstd::prelude::*;
use vstd::utf8::{decode_utf8, valid_utf8};

verus! {

/// The bytes of `mem` from `ptr` up to, not including, the first zero byte at
/// or after `ptr`; `None` if no zero byte follows `ptr`.
pub open spec fn c_bytes_at(mem: Seq<u8>, ptr: int) -> Option<Seq<u8>> {
    if exists|e: int| ptr <= e < mem.len() && mem[e] == 0 {
        let e = choose|e: int|
            ptr <= e < mem.len() && mem[e] == 0 && forall|k: int| ptr <= k < e ==> mem[k] != 0;
        Some(mem.subrange(ptr, e))
    } else {
        None
    }
}

/// The string stored null-terminated at `ptr` in `mem`, if it is valid UTF-8.
pub open spec fn c_string_at(mem: Seq<u8>, ptr: int) -> Option<Seq<char>> {
    match c_bytes_at(mem, ptr) {
        None => None,
        Some(b) => if valid_utf8(b) {
            Some(decode_utf8(b))
        } else {
            None
        },
    }
}

/// Relies on `String::from_utf8`: it succeeds exactly on valid UTF-8, and the
/// string then holds the characters those bytes encode.
#[verifier::external_body]
fn utf8_string(bytes: Vec<u8>) -> (r: Option<String>)
    ensures
        r is Some <==> valid_utf8(bytes@),
        r is Some ==> r->0@ == decode_utf8(bytes@),
{
    String::from_utf8(bytes).ok()
}

/// Reads the null-terminated UTF-8 string at offset `ptr` of the memory
/// snapshot `mem`; `None` if no terminator follows `ptr` or the bytes before
/// it are not valid UTF-8.
pub fn get_utf8_string_with_nul(mem: &[u8], ptr: u32) -> (r: Option<String>)
    ensures
        r is Some <==> c_string_at(mem@, ptr as int) is Some,
        r is Some ==> r->0@ == c_string_at(mem@, ptr as int)->0,
{
    let start = ptr as usize;
    if start >= mem.len() {
        return None;
    }
    let mut e: usize = start;
    let mut bytes: Vec<u8> = Vec::new();
    while e < mem.len() && mem[e] != 0
        invariant
            start <= e,
            start == ptr,
            e <= mem@.len(),
            bytes@ == mem@.subrange(start as int, e as int),
            forall|k: int| start <= k < e ==> mem@[k] != 0,
        decreases mem@.len() - e,
    {
        bytes.push(mem[e]);
        e = e + 1;
        proof {
            assert(bytes@ =~= mem@.subrange(start as int, e as int));
        }
    }
    if e >= mem.len() {
        proof {
            assert(!(exists|k: int| ptr <= k < mem@.len() && mem@[k] == 0));
        }
        return None;
    }
    proof {
        let c = choose|k: int|
            ptr <= k < mem@.len() && mem@[k] == 0 && forall|j: int| ptr <= j < k ==> mem@[j] != 0;
        assert(ptr <= e < mem@.len() && mem@[e as int] == 0 && forall|j: int|
            ptr <= j < e ==> mem@[j] != 0);
        if c < e {
            assert(mem@[c] != 0);
        } else if c > e {
            assert(mem@[e as int] != 0);
        }
        assert(c == e);
    }
    utf8_string(bytes)
}

/// The prefix that turns a message name into the name of its handler export.
pub open spec fn handler_prefix() -> Seq<char> {
    seq!['h', 'a', 'n', 'd', 'l', 'e', '_']
}

/// The export that handles messages named `name`: `handle_<name>`.
pub fn handler_name(name: &str) -> (r: String)
    ensures
        r@ == handler_prefix() + name@,
{
    let p = "handle_";
    proof {
        reveal_strlit("handle_");
        assert(p@ =~= handler_prefix());
    }
    p.to_string().concat(name)
}

} // verus!
