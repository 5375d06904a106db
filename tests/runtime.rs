use beacon_dao_scheduler::bootstrap::{bootstrap_order, Service, MOCK_ALLOCATOR_ADDR};
use beacon_dao_scheduler::cell::MemoryCell;
use beacon_dao_scheduler::error::{Error, WasmError};
use beacon_dao_scheduler::host::{
    coerce, first_i32, host_imports, print_line, status_code, element_request, HostArg, HostImport,
    HostNumber,
};
use beacon_dao_scheduler::memory::get_utf8_string_with_nul;
use beacon_dao_scheduler::runtime::{find_export, init_args, Actor, Address, Batch, Export, Rt};
use beacon_dao_scheduler::value::{byte_width, decode_le, marshal_args, ValType, Value};

fn export(name: &str, params: Vec<ValType>) -> Export {
    Export { name: name.to_string(), params, results: Vec::new() }
}

fn actor(abi: Vec<Export>) -> Actor<()> {
    Actor { src: vec![0, 97, 115, 109], abi, engine: () }
}

fn spawn(rt: &mut Rt<()>, spawner: Option<Address>, abi: Vec<Export>) -> Address {
    let slot = rt.begin_spawn(&[0, 97, 115, 109]).unwrap();
    rt.complete_spawn(spawner, slot, actor(abi)).unwrap()
}

fn calls_to(batches: &[Batch], to: Address, handler: &str) -> Vec<Vec<Value>> {
    batches
        .iter()
        .filter(|b| b.to == to && b.handler == handler)
        .flat_map(|b| b.calls.iter().cloned())
        .collect()
}

#[test]
fn bootstrap_emptiness() {
    let mut rt: Rt<()> = Rt::new();
    assert!(rt.poll().is_none());
    assert_eq!(rt.pending(), 0);
    assert_eq!(rt.table_len(), 1);
    let mut rt2: Rt<()> = Rt::default();
    assert!(rt2.poll().is_none());
    assert_eq!(rt2.table_len(), 1);
}

#[test]
fn single_echo() {
    let mut rt: Rt<()> = Rt::new();
    let a = spawn(&mut rt, None, vec![export("handle_ping", vec![ValType::I32])]);
    let b = spawn(&mut rt, None, vec![export("handle_pong", vec![ValType::I32])]);
    // Neither actor exports init_async: the start-up deliveries are dropped.
    assert_eq!(rt.pending(), 2);
    assert!(rt.poll().unwrap().is_empty());

    rt.impulse(Some(b), a, "ping", &[]).unwrap();
    let pass = rt.poll().unwrap();
    assert_eq!(calls_to(&pass, a, "handle_ping"), vec![vec![Value::I32(b as i32)]]);

    // A's handle_ping(from) sends "pong" back to `from`.
    let mem_a = b"pong\0".to_vec();
    for call in calls_to(&pass, a, "handle_ping") {
        let from = match call[0] {
            Value::I32(v) => v as u32,
            _ => panic!("from is an i32"),
        };
        assert!(rt.send_message(a, from, 0, 5, &mem_a));
    }
    let pass = rt.poll().unwrap();
    let counter = calls_to(&pass, b, "handle_pong").len();
    assert_eq!(counter, 1);
    assert!(rt.poll().is_none());
}

#[test]
fn slot_recycling() {
    let mut rt: Rt<()> = Rt::new();
    let slots: Vec<Address> = (0..3).map(|_| spawn(&mut rt, None, Vec::new())).collect();
    assert_eq!(slots, vec![1, 2, 3]);
    rt.destroy(2).unwrap();
    assert_eq!(rt.free_slots(), &vec![2]);
    assert_eq!(spawn(&mut rt, None, Vec::new()), 2);
    assert_eq!(rt.table_len(), 4);
    assert!(rt.free_slots().is_empty());
}

#[test]
fn most_recently_freed_address_is_reused_first() {
    let mut rt: Rt<()> = Rt::new();
    for _ in 0..4 {
        spawn(&mut rt, None, Vec::new());
    }
    rt.destroy(1).unwrap();
    rt.destroy(3).unwrap();
    assert_eq!(rt.allocate_slot(), Ok(3));
    assert_eq!(rt.allocate_slot(), Ok(1));
    assert_eq!(rt.allocate_slot(), Ok(5));
}

#[test]
fn destroy_rejects_empty_addresses_and_drops_queued_messages() {
    let mut rt: Rt<()> = Rt::new();
    assert_eq!(rt.destroy(0).err(), Some(Error::InvalidAddressError));
    assert_eq!(rt.destroy(7).err(), Some(Error::InvalidAddressError));
    let a = spawn(&mut rt, None, vec![export("handle_x", vec![ValType::I32])]);
    rt.impulse(None, a, "x", &[]).unwrap();
    assert_eq!(rt.pending(), 2);
    assert!(rt.destroy(a).is_ok());
    assert_eq!(rt.pending(), 0);
    assert!(!rt.is_installed(a));
}

#[test]
fn fifo_within_handler() {
    let mut rt: Rt<()> = Rt::new();
    let sender = spawn(&mut rt, None, Vec::new());
    let r = spawn(&mut rt, None, vec![export("handle_add", vec![ValType::I32, ValType::I32])]);
    rt.poll();
    for v in 1..=3 {
        rt.impulse(Some(sender), r, "add", &[Value::I32(v)]).unwrap();
    }
    let pass = rt.poll().unwrap();
    let observed: Vec<Value> = calls_to(&pass, r, "handle_add").iter().map(|c| c[1]).collect();
    assert_eq!(observed, vec![Value::I32(1), Value::I32(2), Value::I32(3)]);
}

#[test]
fn messages_sent_during_a_pass_wait_for_the_next() {
    let mut rt: Rt<()> = Rt::new();
    let a = spawn(&mut rt, None, vec![export("handle_loop", vec![ValType::I32])]);
    rt.poll();
    rt.impulse(None, a, "loop", &[]).unwrap();
    let pass = rt.poll().unwrap();
    assert_eq!(pass.len(), 1);
    // The handler sends to itself while it runs: nothing is dispatched now.
    assert!(rt.send_message(a, a, 0, 0, b"loop\0"));
    assert_eq!(rt.pending(), 1);
    let pass = rt.poll().unwrap();
    assert_eq!(calls_to(&pass, a, "handle_loop"), vec![vec![Value::I32(a as i32)]]);
}

#[test]
fn print_privileged_and_unprivileged() {
    let mem = b"hi\0".to_vec();
    assert_eq!(print_line(true, &mem, 0), Some("hi".to_string()));
    assert_eq!(print_line(false, &mem, 0), None);
    let unprivileged = host_imports(false);
    assert!(unprivileged.contains(&HostImport::PrintStub));
    assert!(unprivileged.iter().any(|i| i.name() == "print"));
    assert!(!unprivileged.contains(&HostImport::EvalJs));
    let privileged = host_imports(true);
    assert!(privileged.contains(&HostImport::Print));
    assert!(privileged.contains(&HostImport::AppendElement));
    assert!(privileged.contains(&HostImport::EvalJs));
    assert_eq!(privileged.len(), 7);
    assert_eq!(unprivileged.len(), 5);
}

#[test]
fn argument_width_mix() {
    let mut rt: Rt<()> = Rt::new();
    let sender = spawn(&mut rt, None, Vec::new());
    let params = vec![ValType::I32, ValType::I64, ValType::I32, ValType::F64];
    let r = spawn(&mut rt, None, vec![export("handle_mix", params)]);
    rt.poll();
    let mut mem = b"mix\0".to_vec();
    let arg_ptr = mem.len() as i32;
    mem.extend_from_slice(&(-5i64).to_le_bytes());
    mem.extend_from_slice(&42i32.to_le_bytes());
    mem.extend_from_slice(&2.5f64.to_le_bytes());
    assert!(rt.send_message(sender, r, 0, arg_ptr, &mem));
    let pass = rt.poll().unwrap();
    assert_eq!(
        calls_to(&pass, r, "handle_mix"),
        vec![vec![
            Value::I32(sender as i32),
            Value::I64(-5),
            Value::I32(42),
            Value::F64(2.5f64.to_bits()),
        ]]
    );
}

#[test]
fn send_message_with_zero_address_is_a_no_op() {
    let mut rt: Rt<()> = Rt::new();
    let a = spawn(&mut rt, None, vec![export("handle_x", vec![ValType::I32])]);
    let before = rt.pending();
    assert!(!rt.send_message(0, a, 0, 0, b"x\0"));
    assert!(!rt.send_message(a, 0, 0, 0, b"x\0"));
    assert_eq!(rt.pending(), before);
}

#[test]
fn send_message_to_missing_handler_is_a_no_op() {
    let mut rt: Rt<()> = Rt::new();
    let a = spawn(&mut rt, None, vec![export("handle_x", vec![ValType::I32])]);
    let b = spawn(&mut rt, None, vec![export("handle_x", vec![ValType::I32])]);
    let before = rt.pending();
    assert!(!rt.send_message(a, b, 0, 0, b"y\0"));
    assert_eq!(rt.pending(), before);
    // Unreadable names and arguments are dropped too.
    assert!(!rt.send_message(a, b, 0, 0, b"x"));
    assert!(!rt.send_message(a, b, 0, 0, &[0xff, 0]));
    assert!(!rt.send_message(a, 9, 0, 0, b"x\0"));
    assert_eq!(rt.pending(), before);
    assert!(rt.send_message(a, b, 0, 0, b"x\0"));
    assert_eq!(rt.pending(), before + 1);
}

#[test]
fn send_message_drops_unreadable_or_reference_arguments() {
    let mut rt: Rt<()> = Rt::new();
    let a = spawn(&mut rt, None, Vec::new());
    let b = spawn(
        &mut rt,
        None,
        vec![
            export("handle_wide", vec![ValType::I32, ValType::V128]),
            export("handle_ref", vec![ValType::I32, ValType::ExternRef]),
        ],
    );
    let before = rt.pending();
    let mut mem = b"wide\0ref\0".to_vec();
    mem.extend_from_slice(&[1u8; 8]);
    assert!(!rt.send_message(a, b, 0, 9, &mem));
    assert!(!rt.send_message(a, b, 5, 9, &mem));
    assert_eq!(rt.pending(), before);
    mem.extend_from_slice(&[2u8; 8]);
    assert!(rt.send_message(a, b, 0, 9, &mem));
}

#[test]
fn spawn_at_capacity_fails() {
    let mut rt: Rt<()> = Rt::with_max_address(2);
    assert_eq!(spawn(&mut rt, None, Vec::new()), 1);
    assert_eq!(spawn(&mut rt, None, Vec::new()), 2);
    assert_eq!(rt.begin_spawn(&[1]), Err(Error::NoFreeAddrs));
    assert_eq!(rt.allocate_slot(), Err(Error::NoFreeAddrs));
    assert_eq!(rt.table_len(), 3);
}

#[test]
fn spawn_from_empty_cell_fails_to_compile() {
    let mut rt: Rt<()> = Rt::new();
    let cell = MemoryCell::new(None);
    let len = cell.len_sync();
    let src: Vec<u8> = (0..len as u32).map(|i| cell.read_sync(i)).collect();
    assert!(src.is_empty());
    assert_eq!(
        rt.begin_spawn(&src),
        Err(Error::ModuleError { source: WasmError::CompileError })
    );
}

#[test]
fn complete_spawn_requires_a_reserved_slot() {
    let mut rt: Rt<()> = Rt::new();
    assert_eq!(rt.complete_spawn(None, 0, actor(Vec::new())).err(), Some(Error::InvalidAddressError));
    assert_eq!(rt.complete_spawn(None, 1, actor(Vec::new())).err(), Some(Error::InvalidAddressError));
    let a = spawn(&mut rt, Some(4), Vec::new());
    assert_eq!(rt.complete_spawn(None, a, actor(Vec::new())).err(), Some(Error::InvalidAddressError));
}

#[test]
fn init_async_is_queued_from_the_spawner() {
    let mut rt: Rt<()> = Rt::new();
    let p = spawn(&mut rt, None, vec![export("handle_init_async", vec![ValType::I32])]);
    let c = spawn(&mut rt, Some(p), vec![export("handle_init_async", vec![ValType::I32])]);
    let pass = rt.poll().unwrap();
    assert_eq!(calls_to(&pass, p, "handle_init_async"), vec![vec![Value::I32(0)]]);
    assert_eq!(calls_to(&pass, c, "handle_init_async"), vec![vec![Value::I32(p as i32)]]);
}

#[test]
fn init_receives_the_spawner_or_zero() {
    let abi = vec![export("init", vec![ValType::I32])];
    assert_eq!(init_args(&abi, None), Some(vec![Value::I32(0)]));
    assert_eq!(init_args(&abi, Some(7)), Some(vec![Value::I32(7)]));
    assert_eq!(init_args(&Vec::new(), Some(7)), None);
}

#[test]
fn impulse_to_missing_address_fails() {
    let mut rt: Rt<()> = Rt::new();
    assert_eq!(rt.impulse(None, 3, "x", &[]), Err(Error::InvalidAddressError));
    assert_eq!(rt.pending(), 0);
}

#[test]
fn impulse_all_reaches_every_address() {
    let mut rt: Rt<()> = Rt::new();
    let a = spawn(&mut rt, None, vec![export("handle_display_login", vec![ValType::I32])]);
    let b = spawn(&mut rt, None, vec![export("handle_display_login", vec![ValType::I32])]);
    rt.poll();
    rt.impulse_all(None, "display_login", &[]);
    assert_eq!(rt.pending(), 3);
    let pass = rt.poll().unwrap();
    assert_eq!(calls_to(&pass, a, "handle_display_login").len(), 1);
    assert_eq!(calls_to(&pass, b, "handle_display_login").len(), 1);
    assert_eq!(pass.len(), 2);
}

#[test]
fn impulse_js_coerces_host_values() {
    let mut rt: Rt<()> = Rt::new();
    let a = spawn(&mut rt, None, vec![export("handle_js", vec![ValType::I32; 5])]);
    rt.poll();
    let params = [
        HostArg::Number(HostNumber::Whole(5)),
        HostArg::Number(HostNumber::Whole(-5)),
        HostArg::Number(HostNumber::Whole(1 << 32)),
        HostArg::Number(HostNumber::Fraction(0.5f64.to_bits())),
        HostArg::Cell(12),
    ];
    rt.impulse_js(Some(2), Some(a), "js", &params).unwrap();
    let pass = rt.poll().unwrap();
    assert_eq!(
        calls_to(&pass, a, "handle_js"),
        vec![vec![
            Value::I32(2),
            Value::I32(5),
            Value::I64(-5),
            Value::I64(1 << 32),
            Value::F64(0.5f64.to_bits()),
            Value::I32(12),
        ]]
    );
    assert_eq!(rt.impulse_js(None, Some(9), "js", &params), Err(Error::InvalidAddressError));
    assert_eq!(rt.impulse_js(None, None, "js", &[]), Ok(()));
    assert_eq!(rt.pending(), 2);
}

#[test]
fn coerce_boundaries() {
    assert_eq!(coerce(HostArg::Number(HostNumber::Whole(4294967295))), Value::I32(-1));
    assert_eq!(coerce(HostArg::Number(HostNumber::Whole(4294967296))), Value::I64(4294967296));
    assert_eq!(coerce(HostArg::Number(HostNumber::Whole(0))), Value::I32(0));
}

#[test]
fn require_export_reports_missing_cells_and_exports() {
    let mut rt: Rt<()> = Rt::new();
    let c = spawn(&mut rt, None, vec![export("len_sync", vec![]), export("read_sync", vec![ValType::I32])]);
    assert_eq!(rt.require_export(c, &"len_sync".to_string()), Ok(()));
    assert_eq!(
        rt.require_export(c, &"alloc".to_string()),
        Err(Error::ModuleError { source: WasmError::CompileError })
    );
    assert_eq!(rt.require_export(MOCK_ALLOCATOR_ADDR, &"alloc".to_string()), Err(Error::InvalidAddressError));
    assert_eq!(rt.spawn_source(c).unwrap(), &vec![0, 97, 115, 109]);
    assert_eq!(rt.spawn_source(5).err(), Some(Error::InvalidAddressError));
}

#[test]
fn first_i32_of_guest_results() {
    assert_eq!(first_i32(&[Value::I32(7), Value::I64(1)]), Ok(7));
    assert_eq!(first_i32(&[Value::I64(7)]), Err(Error::ModuleError { source: WasmError::CompileError }));
    assert_eq!(first_i32(&[]), Err(Error::ModuleError { source: WasmError::CompileError }));
}

#[test]
fn status_codes() {
    assert_eq!(status_code(true), 0);
    assert_eq!(status_code(false), 1);
}

#[test]
fn element_request_reads_both_strings() {
    let mem = b"div\0<b>x</b>\0".to_vec();
    assert_eq!(element_request(&mem, 0, 4), Some(("div".to_string(), "<b>x</b>".to_string())));
    assert_eq!(element_request(&mem, 0, 40), None);
}

#[test]
fn c_strings_need_a_terminator_and_valid_utf8() {
    assert_eq!(get_utf8_string_with_nul(b"abc\0def", 0), Some("abc".to_string()));
    assert_eq!(get_utf8_string_with_nul(b"abc\0def", 4), None);
    assert_eq!(get_utf8_string_with_nul(b"abc\0def", 9), None);
    assert_eq!(get_utf8_string_with_nul(b"\xc3\xa9\0", 0), Some("\u{e9}".to_string()));
    assert_eq!(get_utf8_string_with_nul(b"\xc3\0", 0), None);
    assert_eq!(get_utf8_string_with_nul(b"\0", 0), Some(String::new()));
}

#[test]
fn scalar_round_trip() {
    let cases: Vec<(ValType, Vec<u8>, Value)> = vec![
        (ValType::I32, (-7i32).to_le_bytes().to_vec(), Value::I32(-7)),
        (ValType::I64, i64::MIN.to_le_bytes().to_vec(), Value::I64(i64::MIN)),
        (ValType::F32, 1.5f32.to_le_bytes().to_vec(), Value::F32(1.5f32.to_bits())),
        (ValType::F64, (-0.25f64).to_le_bytes().to_vec(), Value::F64((-0.25f64).to_bits())),
        (ValType::V128, u128::MAX.to_le_bytes().to_vec(), Value::V128(u128::MAX)),
    ];
    for (t, bytes, v) in cases {
        assert_eq!(byte_width(t), Some(bytes.len()));
        let mut mem = vec![0xaa];
        mem.extend_from_slice(&bytes);
        assert_eq!(decode_le(t, &mem, 1), Some(v));
        assert_eq!(decode_le(t, &mem, 2), None);
    }
    assert_eq!(byte_width(ValType::FuncRef), None);
    assert_eq!(decode_le(ValType::ExternRef, &[0; 8], 0), None);
}

#[test]
fn marshal_prepends_the_sender() {
    let params = vec![ValType::I32, ValType::I32];
    assert_eq!(marshal_args(3, &params, &[1, 0, 0, 0], 0), Some(vec![Value::I32(3), Value::I32(1)]));
    assert_eq!(marshal_args(3, &params, &[1, 0, 0], 0), None);
    assert_eq!(marshal_args(3, &Vec::new(), &[], 0), None);
}

#[test]
fn find_export_takes_the_first_match() {
    let abi = vec![export("a", vec![]), export("b", vec![ValType::I32]), export("b", vec![])];
    assert_eq!(find_export(&abi, &"b".to_string()), Some(1));
    assert_eq!(find_export(&abi, &"c".to_string()), None);
}

#[test]
fn bootstrap_assigns_well_known_addresses() {
    let mut rt: Rt<()> = Rt::new();
    let order = bootstrap_order();
    assert_eq!(order.len(), 12);
    for (service, _) in &order {
        let addr = spawn(&mut rt, None, Vec::new());
        assert_eq!(addr, service.address());
    }
    assert_eq!(Service::MockAllocator.address(), MOCK_ALLOCATOR_ADDR);
    assert_eq!(Service::MockAllocator.address(), 8);
    assert_eq!(Service::DisplayManager.address(), 7);
    assert_eq!(order[1], (Service::AllocatorManager, false));
}
