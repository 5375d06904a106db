//! The host side of the guest interface: the functions each actor imports,
//! the privileged host calls, the results read back from memory-cell and
//! allocator actors, and the coercion of host values into guest arguments.
use vstd::prelude::*;
use crate::error::{Error, WasmError};
use crate::memory::{c_string_at, get_utf8_string_with_nul};
use crate::runtime::{impulse_args, Address, Rt, RtView};
use crate::memory::handler_prefix;
use crate::mailbox::enqueue;
use crate::value::Value;

verus! {

/// A function the host provides to guests under the `env` import module.
#[derive(Clone, Copy, Debug, PartialEq, Eq, Structural)]
pub enum HostImport {
    /// `send_message(to, name_ptr, arg_ptr)`: queues a message.
    SendMessage,
    /// `spawn_actor(template) -> addr`: spawns a copy of an actor.
    SpawnActor,
    /// `spawn_actor_from(cell) -> addr`: spawns from a memory cell's bytes.
    SpawnActorFrom,
    /// `address() -> addr`: the caller's own address.
    Address,
    /// `print(msg_ptr)`: logs a string from the caller's memory.
    Print,
    /// `print(msg_ptr)` for unprivileged actors: accepted and ignored.
    PrintStub,
    /// `append_element(kind_ptr, src_ptr) -> status`: appends a UI element.
    AppendElement,
    /// `eval_js(src_ptr) -> status`: evaluates a host script.
    EvalJs,
}

/// The name an import is linked under.
pub open spec fn import_name(i: HostImport) -> Seq<char> {
    match i {
        HostImport::SendMessage => "send_message"@,
        HostImport::SpawnActor => "spawn_actor"@,
        HostImport::SpawnActorFrom => "spawn_actor_from"@,
        HostImport::Address => "address"@,
        HostImport::Print => "print"@,
        HostImport::PrintStub => "print"@,
        HostImport::AppendElement => "append_element"@,
        HostImport::EvalJs => "eval_js"@,
    }
}

impl HostImport {
    /// The name the import is linked under.
    pub fn name(&self) -> (r: &'static str)
        ensures
            r@ == import_name(*self),
    {
        match self {
            HostImport::SendMessage => "send_message",
            HostImport::SpawnActor => "spawn_actor",
            HostImport::SpawnActorFrom => "spawn_actor_from",
            HostImport::Address => "address",
            HostImport::Print => "print",
            HostImport::PrintStub => "print",
            HostImport::AppendElement => "append_element",
            HostImport::EvalJs => "eval_js",
        }
    }
}

/// The imports of an actor: every actor may send, spawn and ask its address;
/// a privileged actor also prints, appends UI elements and evaluates scripts,
/// while an unprivileged one gets a `print` that does nothing, so that its
/// module links either way.
pub open spec fn imports_spec(privileged: bool) -> Seq<HostImport> {
    if privileged {
        seq![
            HostImport::SendMessage,
            HostImport::SpawnActor,
            HostImport::SpawnActorFrom,
            HostImport::Address,
            HostImport::Print,
            HostImport::AppendElement,
            HostImport::EvalJs,
        ]
    } else {
        seq![
            HostImport::SendMessage,
            HostImport::SpawnActor,
            HostImport::SpawnActorFrom,
            HostImport::Address,
            HostImport::PrintStub,
        ]
    }
}

/// The import table of an actor spawned with or without privileges.
pub fn host_imports(privileged: bool) -> (r: Vec<HostImport>)
    ensures
        r@ == imports_spec(privileged),
{
    let mut r: Vec<HostImport> = Vec::new();
    r.push(HostImport::SendMessage);
    r.push(HostImport::SpawnActor);
    r.push(HostImport::SpawnActorFrom);
    r.push(HostImport::Address);
    if privileged {
        r.push(HostImport::Print);
        r.push(HostImport::AppendElement);
        r.push(HostImport::EvalJs);
    } else {
        r.push(HostImport::PrintStub);
    }
    proof {
        assert(r@ =~= imports_spec(privileged));
    }
    r
}

/// The line a `print` call at `ptr` writes to the log sink: the caller's
/// string, if the caller is privileged and the string can be read.
pub fn print_line(privileged: bool, mem: &[u8], ptr: i32) -> (r: Option<String>)
    ensures
        !privileged ==> r is None,
        privileged ==> (r is Some <==> c_string_at(mem@, ptr as u32 as int) is Some),
        privileged && r is Some ==> r->0@ == c_string_at(mem@, ptr as u32 as int)->0,
{
    if privileged {
        get_utf8_string_with_nul(mem, ptr as u32)
    } else {
        None
    }
}

/// The element kind and inner markup of an `append_element` call, read from
/// the caller's memory; `None` if either string cannot be read.
pub fn element_request(mem: &[u8], kind_ptr: i32, src_ptr: i32) -> (r: Option<(String, String)>)
    ensures
        r is Some <==> c_string_at(mem@, kind_ptr as u32 as int) is Some && c_string_at(
            mem@,
            src_ptr as u32 as int,
        ) is Some,
        r is Some ==> r.unwrap().0@ == c_string_at(mem@, kind_ptr as u32 as int)->0 && r.unwrap().1@
            == c_string_at(mem@, src_ptr as u32 as int)->0,
{
    let kind = get_utf8_string_with_nul(mem, kind_ptr as u32)?;
    let src = get_utf8_string_with_nul(mem, src_ptr as u32)?;
    Some((kind, src))
}

/// The status a host call returns to the guest: 0 on success, 1 on failure.
pub fn status_code(ok: bool) -> (r: u8)
    ensures
        r == if ok { 0u8 } else { 1u8 },
{
    if ok { 0 } else { 1 }
}

/// The `i32` a guest export returned first: the length from `len_sync`, a
/// byte from `read_sync`, a cell address from `alloc`. A compile error if the
/// export returned nothing or something else.
pub fn first_i32(ret: &[Value]) -> (r: Result<i32, Error>)
    ensures
        ret@.len() > 0 && ret@[0] is I32 ==> r == Ok::<i32, Error>(ret@[0]->I32_0),
        !(ret@.len() > 0 && ret@[0] is I32) ==> r == Err::<i32, Error>(
            Error::ModuleError { source: WasmError::CompileError },
        ),
{
    if ret.len() > 0 {
        match ret[0] {
            Value::I32(v) => {
                return Ok(v);
            },
            _ => {},
        }
    }
    Err(Error::ModuleError { source: WasmError::CompileError })
}

/// A number handed in by the host, as the embedding classified it: a whole
/// number (already converted to `i64`), or one with a fractional part or not
/// finite (as its IEEE-754 bits).
#[derive(Clone, Copy, Debug, PartialEq, Eq, Structural)]
pub enum HostNumber {
    Whole(i64),
    Fraction(u64),
}

/// A parameter of an externally originated call: a number, or the address of
/// a memory cell that already holds a serialized compound value.
#[derive(Clone, Copy, Debug, PartialEq, Eq, Structural)]
pub enum HostArg {
    Number(HostNumber),
    Cell(Address),
}

/// The guest value a host parameter becomes: a whole number that fits in
/// 32 unsigned bits is an `i32`, any other whole number an `i64`, any other
/// number an `f64`, and a memory cell its address as an `i32`.
pub open spec fn coerce_spec(a: HostArg) -> Value {
    match a {
        HostArg::Number(HostNumber::Whole(v)) => if 0 <= v <= u32::MAX {
            Value::I32(v as u32 as i32)
        } else {
            Value::I64(v)
        },
        HostArg::Number(HostNumber::Fraction(bits)) => Value::F64(bits),
        HostArg::Cell(a) => Value::I32(a as i32),
    }
}

/// Coerces one host parameter into a guest value.
pub fn coerce(a: HostArg) -> (r: Value)
    ensures
        r == coerce_spec(a),
{
    match a {
        HostArg::Number(HostNumber::Whole(v)) => {
            if 0 <= v && v <= u32::MAX as i64 {
                Value::I32(v as u32 as i32)
            } else {
                Value::I64(v)
            }
        },
        HostArg::Number(HostNumber::Fraction(bits)) => Value::F64(bits),
        HostArg::Cell(a) => Value::I32(a as i32),
    }
}

impl<H> Rt<H> {
    /// Queues an externally originated call of handler `handle_<msg_name>`
    /// with the coerced `params`: to `to`, or to every address in the table
    /// when `to` is `None`. `InvalidAddressError` if `to` is outside the table.
    pub fn impulse_js(
        &mut self,
        from: Option<Address>,
        to: Option<Address>,
        msg_name: &str,
        params: &[HostArg],
    ) -> (r: Result<(), Error>)
        requires
            old(self).wf(),
            old(self)@.pending + (if to is Some { 1 } else { old(self)@.slots.len() })
                <= usize::MAX,
        ensures
            final(self).wf(),
            to is Some ==> (r is Ok <==> (to->0 as int) < old(self)@.slots.len()),
            to is Some && r is Ok ==> final(self)@ == old(self)@.with_message(
                to->0 as int,
                handler_prefix() + msg_name@,
                impulse_args(from, params@.map_values(|a: HostArg| coerce_spec(a))),
            ),
            r is Err ==> r == Err::<(), Error>(Error::InvalidAddressError) && final(self)@ == old(
                self,
            )@,
            to is None ==> r is Ok && final(self)@ == (RtView {
                boxes: Seq::new(
                    old(self)@.boxes.len(),
                    |i: int|
                        enqueue(
                            old(self)@.boxes[i],
                            handler_prefix() + msg_name@,
                            impulse_args(from, params@.map_values(|a: HostArg| coerce_spec(a))),
                        ),
                ),
                pending: (old(self)@.pending + old(self)@.slots.len()) as nat,
                ..old(self)@
            }),
    {
        let mut values: Vec<Value> = Vec::new();
        let mut i: usize = 0;
        while i < params.len()
            invariant
                i <= params@.len(),
                values@ == params@.take(i as int).map_values(|a: HostArg| coerce_spec(a)),
            decreases params@.len() - i,
        {
            values.push(coerce(params[i]));
            i = i + 1;
            proof {
                assert(values@ =~= params@.take(i as int).map_values(|a: HostArg| coerce_spec(a)));
            }
        }
        proof {
            assert(params@.take(i as int) =~= params@);
        }
        match to {
            Some(t) => self.impulse(from, t, msg_name, values.as_slice()),
            None => {
                self.impulse_all(from, msg_name, values.as_slice());
                Ok(())
            },
        }
    }
}

} // verus!
