use vg_core::error::{RuntimeError, Trap};
use vg_core::protocol::{Call, Key, Response};
use vg_core::routine::{Op, Routine};
use vg_core::runtime::Runtime;
use vg_core::sandbox::{decode_all, Sandbox, DEFAULT_BUDGET, DEFAULT_MEMORY_LIMIT};

fn image(ops: Vec<Op>) -> Vec<u8> {
    Routine::new(ops).unwrap().assemble()
}

fn hello() -> Vec<u8> {
    image(vec![Op::Emit(Call::Print("hello".to_string()).encode()), Op::Halt, Op::Jump(0)])
}

fn is_load_error<T>(r: &Result<T, RuntimeError>) -> bool {
    matches!(r, Err(RuntimeError::LoadError))
}

fn is_corrupt<T>(r: &Result<T, RuntimeError>) -> bool {
    matches!(r, Err(RuntimeError::CorruptSnapshot))
}

#[test]
fn three_ticks_yield_three_hellos() {
    let mut sandbox = Sandbox::load(&hello()).unwrap();
    for _ in 0..3 {
        assert_eq!(sandbox.run_tick(16), Ok(vec![Call::Print("hello".to_string())]));
    }
    assert_eq!(sandbox.guest().ticks(), 3);
}

#[test]
fn ending_a_frame_adds_a_present_call() {
    let code = image(vec![Op::Emit(Call::Print("hello".to_string()).encode()), Op::Frame, Op::Jump(0)]);
    let mut sandbox = Sandbox::load(&code).unwrap();
    for _ in 0..3 {
        assert_eq!(
            sandbox.run_tick(16),
            Ok(vec![Call::Print("hello".to_string()), Call::Present])
        );
    }
}

#[test]
fn calls_come_back_in_the_order_they_were_made() {
    let draw = Call::Draw { texture: "ferris.png".to_string(), position: vec![1, 2] };
    let sound = Call::PlaySound("cat.ogg".to_string());
    let code = image(vec![
        Op::Emit(draw.encode()),
        Op::Emit(sound.encode()),
        Op::Emit(draw.encode()),
        Op::Frame,
    ]);
    let mut sandbox = Sandbox::load(&code).unwrap();
    assert_eq!(sandbox.run_tick(0), Ok(vec![draw.clone(), sound, draw, Call::Present]));
    assert_eq!(sandbox.run_tick(0), Ok(vec![]));
    assert_eq!(sandbox.run_tick(0), Ok(vec![]));
}

#[test]
fn a_guest_that_never_suspends_exceeds_its_budget() {
    let mut sandbox = Sandbox::with_limits(&image(vec![Op::Jump(0)]), 1024, 10_000).unwrap();
    assert_eq!(
        sandbox.run_tick(16),
        Err(RuntimeError::ExecutionTrap(Trap::BudgetExhausted))
    );
    assert_eq!(sandbox.fault(), Some(Trap::BudgetExhausted));
}

#[test]
fn the_default_budget_bounds_a_runaway_guest() {
    let mut sandbox = Sandbox::load(&image(vec![Op::Count, Op::Jump(0)])).unwrap();
    assert_eq!(sandbox.budget(), DEFAULT_BUDGET);
    assert_eq!(
        sandbox.run_tick(16),
        Err(RuntimeError::ExecutionTrap(Trap::BudgetExhausted))
    );
    assert_eq!(sandbox.guest().executor().counter(), DEFAULT_BUDGET / 2);
}

#[test]
fn a_faulted_instance_stays_faulted() {
    let mut sandbox = Sandbox::load(&image(vec![Op::Halt, Op::Abort])).unwrap();
    assert_eq!(sandbox.run_tick(1), Ok(vec![]));
    assert_eq!(sandbox.run_tick(1), Err(RuntimeError::ExecutionTrap(Trap::Aborted)));
    let before = sandbox.serialize().unwrap();
    assert_eq!(sandbox.run_tick(1), Err(RuntimeError::ExecutionTrap(Trap::Aborted)));
    sandbox.send(Response::Time(1));
    assert_eq!(sandbox.serialize().unwrap(), before);
    assert_eq!(sandbox.guest().ticks(), 2);
}

#[test]
fn loading_nothing_fails() {
    assert!(is_load_error(&Sandbox::load(&[])));
    assert!(is_load_error(&Sandbox::with_limits(&[], 1024, 10)));
}

#[test]
fn loading_a_malformed_image_fails() {
    assert!(is_load_error(&Sandbox::load(&[0, b'v', b'g', b'm'])));
    assert!(is_load_error(&Sandbox::load(&[0, b'v', b'g', b'm', 2])));
    assert!(is_load_error(&Sandbox::load(&[0, b'v', b'g', b'm', 1, 99])));
    assert!(is_load_error(&Sandbox::load(b"\0asm\x01\0\0\0")));
    let mut cut = hello();
    cut.pop();
    assert!(is_load_error(&Sandbox::load(&cut)));
}

#[test]
fn a_loaded_guest_has_the_default_limits_and_has_not_run() {
    let sandbox = Sandbox::load(&hello()).unwrap();
    assert_eq!(sandbox.budget(), DEFAULT_BUDGET);
    assert_eq!(sandbox.guest().exchange().limit(), DEFAULT_MEMORY_LIMIT);
    assert_eq!(sandbox.fault(), None);
    assert_eq!(sandbox.guest().ticks(), 0);
    assert!(sandbox.guest().executor().is_suspended());
    assert_eq!(sandbox.guest().executor().position(), 0);
}

#[test]
fn one_iteration_per_tick() {
    for suspend in [Op::Halt, Op::Frame] {
        let mut sandbox = Sandbox::load(&image(vec![Op::Count, suspend, Op::Jump(0)])).unwrap();
        for n in 1..=50u64 {
            assert!(sandbox.run_tick(3).is_ok());
            assert_eq!(sandbox.guest().executor().counter(), n);
            assert_eq!(sandbox.guest().ticks(), n);
            assert_eq!(vg_core::state::time(sandbox.guest()), 3 * n);
        }
    }
}

#[test]
fn a_malformed_message_is_dropped_and_the_rest_comes_through() {
    let code = image(vec![
        Op::Emit(Call::Print("a".to_string()).encode()),
        Op::Emit(vec![0xff, 1, 2]),
        Op::Emit(vec![]),
        Op::Emit(vec![0, 5, 0, 0, 0, 0, 0, 0, 0, b'x']),
        Op::Emit(Call::Print("b".to_string()).encode()),
        Op::Halt,
    ]);
    let mut sandbox = Sandbox::load(&code).unwrap();
    assert_eq!(
        sandbox.run_tick(0),
        Ok(vec![Call::Print("a".to_string()), Call::Print("b".to_string())])
    );
    assert_eq!(sandbox.fault(), None);
}

#[test]
fn decode_all_keeps_the_calls_in_order() {
    let messages = vec![
        Call::Present.encode(),
        vec![9, 9],
        Call::PlaySound("x".to_string()).encode(),
    ];
    assert_eq!(decode_all(&messages), vec![Call::Present, Call::PlaySound("x".to_string())]);
    assert_eq!(decode_all(&vec![]), vec![]);
}

#[test]
fn a_response_is_written_into_a_buffer_of_its_size() {
    let mut sandbox = Sandbox::load(&image(vec![Op::Halt, Op::Recv, Op::Halt])).unwrap();
    let response = Response::Key { key: Key::Space, pressed: true };
    let encoded = response.encode();
    sandbox.send(response);
    assert_eq!(sandbox.guest().exchange().pending(), 1);
    assert_eq!(sandbox.guest().exchange().size(), encoded.len() as u64);
    assert_eq!(sandbox.read(0, encoded.len() as u64), Ok(encoded.clone()));
    assert_eq!(Response::decode(&sandbox.read(0, encoded.len() as u64).unwrap()),
        Ok(Response::Key { key: Key::Space, pressed: true }));
    assert_eq!(sandbox.run_tick(0), Ok(vec![]));
    assert_eq!(sandbox.guest().exchange().pending(), 1);
    assert_eq!(sandbox.run_tick(0), Ok(vec![]));
    assert_eq!(sandbox.guest().exchange().pending(), 0);
    assert_eq!(sandbox.guest().exchange().size(), 0);
}

#[test]
fn responses_wait_in_the_order_they_were_sent() {
    let mut sandbox = Sandbox::load(&hello()).unwrap();
    let first = Response::Time(7);
    let second = Response::Axes(vec![1, 2]);
    let (a, b) = (first.encode(), second.encode());
    sandbox.send(first);
    sandbox.send(second);
    assert_eq!(sandbox.read(0, a.len() as u64), Ok(a.clone()));
    assert_eq!(sandbox.read(a.len() as u64, b.len() as u64), Ok(b));
    assert_eq!(sandbox.guest().exchange().pending(), 2);
}

#[test]
fn a_response_without_room_faults_the_instance() {
    let mut sandbox = Sandbox::with_limits(&hello(), 16, 100).unwrap();
    sandbox.send(Response::Time(1));
    assert_eq!(sandbox.fault(), Some(Trap::OutOfMemory));
    assert_eq!(sandbox.run_tick(0), Err(RuntimeError::ExecutionTrap(Trap::OutOfMemory)));
}

#[test]
fn a_guest_without_room_for_its_message_faults() {
    let mut sandbox = Sandbox::with_limits(&hello(), 4, 100).unwrap();
    assert_eq!(sandbox.run_tick(0), Err(RuntimeError::ExecutionTrap(Trap::OutOfMemory)));
}

#[test]
fn the_host_reaches_guest_memory_only_inside_its_bounds() {
    let mut sandbox = Sandbox::load(&hello()).unwrap();
    assert_eq!(sandbox.allocate(0), Ok(0));
    let addr = sandbox.allocate(4).unwrap();
    assert_eq!(sandbox.write(addr, &[1, 2, 3, 4]), Ok(()));
    assert_eq!(sandbox.read(addr, 4), Ok(vec![1, 2, 3, 4]));
    assert_eq!(sandbox.write(addr + 1, &[1, 2, 3, 4]), Err(Trap::OutOfBounds));
    assert_eq!(sandbox.read(addr, 5), Err(Trap::OutOfBounds));
    assert_eq!(sandbox.allocate(u64::MAX), Err(Trap::OutOfMemory));
    assert_eq!(sandbox.read(addr, 4), Ok(vec![1, 2, 3, 4]));
}

#[test]
fn a_snapshot_starts_with_its_header_and_the_image() {
    let code = hello();
    let sandbox = Sandbox::load(&code).unwrap();
    let bytes = sandbox.serialize().unwrap();
    assert_eq!(&bytes[..5], &[0, b'v', b'g', b's', 1]);
    assert_eq!(&bytes[5..13], &(code.len() as u64).to_le_bytes());
    assert_eq!(&bytes[13..13 + code.len()], &code[..]);
    let rest = &bytes[13 + code.len()..];
    assert_eq!(&rest[..8], &DEFAULT_BUDGET.to_le_bytes());
    assert_eq!(rest[8], 0);
}

#[test]
fn snapshot_round_trip() {
    let mut sandbox = Sandbox::load(&image(vec![Op::Count, Op::Frame, Op::Recv, Op::Jump(0)])).unwrap();
    sandbox.run_tick(5).unwrap();
    sandbox.send(Response::Time(5));
    sandbox.send(Response::Axes(vec![3]));
    let bytes = sandbox.serialize().unwrap();
    let restored = Sandbox::deserialize(&bytes).unwrap();
    assert_eq!(restored.serialize().unwrap(), bytes);
    assert_eq!(restored.guest().ticks(), 1);
    assert_eq!(restored.guest().executor().counter(), 1);
    assert_eq!(restored.guest().exchange().pending(), 2);
}

#[test]
fn a_duplicate_behaves_like_the_instance_it_was_made_from() {
    let mut first = Sandbox::load(&image(vec![
        Op::Count,
        Op::Emit(Call::Print("tick".to_string()).encode()),
        Op::Recv,
        Op::Frame,
        Op::Jump(0),
    ]))
    .unwrap();
    first.run_tick(1).unwrap();
    first.send(Response::Time(1));
    let mut once = first.duplicate().unwrap();
    let mut twice = first.duplicate().unwrap().duplicate().unwrap();
    assert_eq!(once.serialize().unwrap(), first.serialize().unwrap());
    assert_eq!(twice.serialize().unwrap(), first.serialize().unwrap());
    for _ in 0..3 {
        let expected = first.run_tick(2);
        assert_eq!(once.run_tick(2), expected);
        assert_eq!(twice.run_tick(2), expected);
        assert_eq!(once.serialize().unwrap(), first.serialize().unwrap());
        assert_eq!(twice.serialize().unwrap(), first.serialize().unwrap());
    }
}

#[test]
fn a_duplicate_of_a_faulted_instance_is_faulted() {
    let mut sandbox = Sandbox::load(&image(vec![Op::Abort])).unwrap();
    assert!(sandbox.run_tick(0).is_err());
    let mut copy = sandbox.duplicate().unwrap();
    assert_eq!(copy.fault(), Some(Trap::Aborted));
    assert_eq!(copy.run_tick(0), Err(RuntimeError::ExecutionTrap(Trap::Aborted)));
}

#[test]
fn every_cut_snapshot_is_corrupt() {
    let mut sandbox = Sandbox::load(&hello()).unwrap();
    sandbox.send(Response::Time(1));
    let bytes = sandbox.serialize().unwrap();
    for n in 0..bytes.len() {
        assert!(is_corrupt(&Sandbox::deserialize(&bytes[..n])));
    }
}

#[test]
fn a_snapshot_with_bytes_left_over_is_corrupt() {
    let mut bytes = Sandbox::load(&hello()).unwrap().serialize().unwrap();
    bytes.push(0);
    assert!(is_corrupt(&Sandbox::deserialize(&bytes)));
}

#[test]
fn a_snapshot_of_another_version_is_corrupt() {
    let mut bytes = Sandbox::load(&hello()).unwrap().serialize().unwrap();
    bytes[4] = 2;
    assert!(is_corrupt(&Sandbox::deserialize(&bytes)));
    bytes[4] = 1;
    assert!(Sandbox::deserialize(&bytes).is_ok());
    bytes[3] = b'm';
    assert!(is_corrupt(&Sandbox::deserialize(&bytes)));
}

#[test]
fn a_snapshot_whose_state_does_not_fit_its_image_is_corrupt() {
    let code = hello();
    let good = Sandbox::load(&code).unwrap().serialize().unwrap();
    let after_image = 13 + code.len();
    // fault code
    let mut bytes = good.clone();
    bytes[after_image + 8] = 7;
    assert!(is_corrupt(&Sandbox::deserialize(&bytes)));
    // the place the routine goes on at: after budget (8), fault (1), tick (8), running time (8)
    let pc = after_image + 25;
    let mut bytes = good.clone();
    bytes[pc] = 4;
    assert!(is_corrupt(&Sandbox::deserialize(&bytes)));
    bytes[pc] = 3;
    assert!(Sandbox::deserialize(&bytes).is_ok());
    // status and finished flag
    let mut bytes = good.clone();
    bytes[pc + 8] = 2;
    assert!(is_corrupt(&Sandbox::deserialize(&bytes)));
    let mut bytes = good.clone();
    bytes[pc + 9] = 2;
    assert!(is_corrupt(&Sandbox::deserialize(&bytes)));
    // an image that is no module image
    let mut bytes = good;
    bytes[13 + 4] = 9;
    assert!(is_corrupt(&Sandbox::deserialize(&bytes)));
}

#[test]
fn a_counter_at_its_end_faults() {
    let code = image(vec![Op::Count, Op::Halt]);
    let mut bytes = Sandbox::load(&code).unwrap().serialize().unwrap();
    let counter = 13 + code.len() + 25 + 10;
    for b in &mut bytes[counter..counter + 8] {
        *b = 0xff;
    }
    let mut sandbox = Sandbox::deserialize(&bytes).unwrap();
    assert_eq!(sandbox.guest().executor().counter(), u64::MAX);
    assert_eq!(sandbox.run_tick(0), Err(RuntimeError::ExecutionTrap(Trap::Overflow)));
}

#[test]
fn a_snapshot_is_laid_out_field_by_field() {
    let code = image(vec![Op::Halt]);
    assert_eq!(code, vec![0, b'v', b'g', b'm', 1, 1]);
    let mut sandbox = Sandbox::with_limits(&code, 16, 7).unwrap();
    let mut expected: Vec<u8> = vec![0, b'v', b'g', b's', 1];
    expected.extend_from_slice(&6u64.to_le_bytes());
    expected.extend_from_slice(&code);
    expected.extend_from_slice(&7u64.to_le_bytes()); // budget
    expected.push(0); // no fault
    expected.extend_from_slice(&0u64.to_le_bytes()); // ticks
    expected.extend_from_slice(&0u64.to_le_bytes()); // running time
    expected.extend_from_slice(&0u64.to_le_bytes()); // place in the routine
    expected.push(0); // suspended
    expected.push(0); // not finished
    expected.extend_from_slice(&0u64.to_le_bytes()); // counter
    expected.extend_from_slice(&16u64.to_le_bytes()); // memory limit
    expected.extend_from_slice(&0u64.to_le_bytes()); // memory size
    expected.extend_from_slice(&0u64.to_le_bytes()); // buffers waiting
    expected.extend_from_slice(&0u64.to_le_bytes()); // messages waiting
    assert_eq!(sandbox.serialize().unwrap(), expected);

    assert_eq!(sandbox.allocate(2), Ok(0));
    assert_eq!(sandbox.write(0, &[0xaa, 0xbb]), Ok(()));
    assert_eq!(sandbox.run_tick(5), Ok(vec![]));
    assert_eq!(sandbox.run_tick(6), Ok(vec![]));
    let mut expected: Vec<u8> = vec![0, b'v', b'g', b's', 1];
    expected.extend_from_slice(&6u64.to_le_bytes());
    expected.extend_from_slice(&code);
    expected.extend_from_slice(&7u64.to_le_bytes());
    expected.push(0);
    expected.extend_from_slice(&2u64.to_le_bytes()); // ticks
    expected.extend_from_slice(&11u64.to_le_bytes()); // running time
    expected.extend_from_slice(&1u64.to_le_bytes()); // place in the routine
    expected.push(0);
    expected.push(1); // finished
    expected.extend_from_slice(&0u64.to_le_bytes());
    expected.extend_from_slice(&16u64.to_le_bytes());
    expected.extend_from_slice(&2u64.to_le_bytes());
    expected.extend_from_slice(&[0xaa, 0xbb]);
    expected.extend_from_slice(&1u64.to_le_bytes()); // one buffer waiting
    expected.extend_from_slice(&0u64.to_le_bytes()); // at address 0
    expected.extend_from_slice(&2u64.to_le_bytes()); // of two bytes
    expected.extend_from_slice(&0u64.to_le_bytes());
    assert_eq!(sandbox.serialize().unwrap(), expected);
}

#[test]
fn a_fault_is_kept_in_the_snapshot() {
    let code = image(vec![Op::Abort]);
    let mut sandbox = Sandbox::load(&code).unwrap();
    assert!(sandbox.run_tick(0).is_err());
    let bytes = sandbox.serialize().unwrap();
    assert_eq!(bytes[13 + code.len() + 8], 3);
    // the routine was left in the middle of its step
    assert_eq!(bytes[13 + code.len() + 25 + 8], 1);
}

#[test]
fn a_snapshot_with_messages_waiting_but_no_fault_is_corrupt() {
    let code = image(vec![Op::Emit(vec![1]), Op::Abort]);
    let mut sandbox = Sandbox::load(&code).unwrap();
    assert!(sandbox.run_tick(0).is_err());
    assert_eq!(sandbox.guest().exchange().waiting(), 1);
    let mut bytes = sandbox.serialize().unwrap();
    assert!(Sandbox::deserialize(&bytes).is_ok());
    bytes[13 + code.len() + 8] = 0;
    assert!(is_corrupt(&Sandbox::deserialize(&bytes)));
}

#[test]
fn nothing_is_left_waiting_after_a_tick() {
    let mut sandbox = Sandbox::load(&hello()).unwrap();
    for _ in 0..3 {
        sandbox.run_tick(1).unwrap();
        assert_eq!(sandbox.guest().exchange().waiting(), 0);
        assert_eq!(sandbox.guest().exchange().size(), 0);
    }
}

#[test]
fn a_loop_yields_the_calls_of_one_iteration_at_every_tick() {
    let print = Call::Print("a".to_string());
    let draw = Call::Draw { texture: "ferris.png".to_string(), position: vec![1, 1] };
    let code = image(vec![
        Op::Emit(print.encode()),
        Op::Count,
        Op::Recv,
        Op::Emit(vec![0xff]),
        Op::Emit(draw.encode()),
        Op::Frame,
        Op::Jump(0),
    ]);
    let mut sandbox = Sandbox::load(&code).unwrap();
    for n in 1..=20u64 {
        assert_eq!(sandbox.run_tick(2), Ok(vec![print.clone(), draw.clone(), Call::Present]));
        assert_eq!(sandbox.guest().executor().counter(), n);
        assert_eq!(sandbox.guest().executor().position(), 6);
        assert!(sandbox.guest().executor().is_suspended());
        assert_eq!(sandbox.guest().exchange().size(), 0);
    }
}

#[test]
fn a_loop_needs_a_budget_of_its_length() {
    let code = image(vec![Op::Count, Op::Count, Op::Halt, Op::Jump(0)]);
    let mut sandbox = Sandbox::with_limits(&code, 64, 4).unwrap();
    for _ in 0..5 {
        assert_eq!(sandbox.run_tick(0), Ok(vec![]));
    }
    assert_eq!(sandbox.guest().executor().counter(), 10);
    let mut sandbox = Sandbox::with_limits(&code, 64, 3).unwrap();
    assert_eq!(sandbox.run_tick(0), Ok(vec![]));
    assert_eq!(
        sandbox.run_tick(0),
        Err(RuntimeError::ExecutionTrap(Trap::BudgetExhausted))
    );
}
