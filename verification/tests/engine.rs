use vg_core::engine::{deliver, launch, settle, turn, Turn};
use vg_core::error::{RuntimeError, Trap};
use vg_core::protocol::{Call, Response};
use vg_core::routine::{Op, Routine};
use vg_core::runtime::Runtime;
use vg_core::sandbox::Sandbox;

fn image(ops: Vec<Op>) -> Vec<u8> {
    Routine::new(ops).unwrap().assemble()
}

fn counting() -> Vec<u8> {
    image(vec![Op::Count, Op::Frame, Op::Jump(0)])
}

#[test]
fn a_first_launch_is_a_cold_load() {
    let code = counting();
    let guest: Sandbox = launch(&code, None, &[]).unwrap();
    assert_eq!(guest.serialize().unwrap(), Sandbox::load(&code).unwrap().serialize().unwrap());
}

#[test]
fn a_refused_image_fails_the_launch() {
    let previous = Sandbox::load(&counting()).unwrap();
    assert!(matches!(launch::<Sandbox>(&[], None, &[]), Err(RuntimeError::LoadError)));
    assert!(matches!(
        launch(&[1, 2, 3], Some(&previous), &counting()),
        Err(RuntimeError::LoadError)
    ));
}

#[test]
fn state_is_carried_over_to_the_same_image() {
    let code = counting();
    let mut previous = Sandbox::load(&code).unwrap();
    previous.run_tick(1).unwrap();
    previous.run_tick(1).unwrap();
    let mut guest = launch(&code, Some(&previous), &code).unwrap();
    assert_eq!(guest.guest().executor().counter(), 2);
    assert_eq!(guest.serialize().unwrap(), previous.serialize().unwrap());
    assert_eq!(guest.run_tick(1), previous.run_tick(1));
}

#[test]
fn state_is_not_carried_over_to_another_image() {
    let old_code = counting();
    let new_code = image(vec![Op::Count, Op::Count, Op::Frame, Op::Jump(0)]);
    let mut previous = Sandbox::load(&old_code).unwrap();
    previous.run_tick(1).unwrap();
    let guest = launch(&new_code, Some(&previous), &old_code).unwrap();
    assert_eq!(guest.guest().executor().counter(), 0);
    assert_eq!(guest.guest().ticks(), 0);
    assert_eq!(
        guest.serialize().unwrap(),
        Sandbox::load(&new_code).unwrap().serialize().unwrap()
    );
}

#[test]
fn a_copy_that_cannot_be_made_is_made_up_for_by_the_fresh_guest() {
    let code = counting();
    let mut carried = Sandbox::load(&code).unwrap();
    carried.run_tick(1).unwrap();
    let fresh = Sandbox::load(&code).unwrap();
    let chosen = settle(fresh, Ok(carried));
    assert_eq!(chosen.guest().ticks(), 1);
    let fresh = Sandbox::load(&code).unwrap();
    let chosen = settle(fresh, Err(RuntimeError::CorruptSnapshot));
    assert_eq!(chosen.guest().ticks(), 0);
}

#[test]
fn a_turn_gives_exactly_one_tick() {
    let mut guest = Sandbox::load(&counting()).unwrap();
    for n in 1..=5u64 {
        match turn(&mut guest, true, 10) {
            Turn::Calls(calls) => assert_eq!(calls, vec![Call::Present]),
            _ => panic!("the guest should have made its calls"),
        }
        assert_eq!(guest.guest().ticks(), n);
        assert_eq!(guest.guest().executor().counter(), n);
    }
}

#[test]
fn a_turn_that_is_told_to_stop_leaves_the_guest_alone() {
    let mut guest = Sandbox::load(&counting()).unwrap();
    let before = guest.serialize().unwrap();
    assert!(matches!(turn(&mut guest, false, 10), Turn::Stopped));
    assert_eq!(guest.serialize().unwrap(), before);
}

#[test]
fn a_turn_reports_a_fault() {
    let mut guest = Sandbox::load(&image(vec![Op::Abort])).unwrap();
    assert!(matches!(
        turn(&mut guest, true, 10),
        Turn::Trapped(RuntimeError::ExecutionTrap(Trap::Aborted))
    ));
    assert!(matches!(
        turn(&mut guest, true, 10),
        Turn::Trapped(RuntimeError::ExecutionTrap(Trap::Aborted))
    ));
}

#[test]
fn responses_are_delivered_first_to_last() {
    let code = counting();
    let mut by_hand = Sandbox::load(&code).unwrap();
    by_hand.send(Response::Time(1));
    by_hand.send(Response::Axes(vec![2, 3]));
    let mut delivered = Sandbox::load(&code).unwrap();
    deliver(&mut delivered, vec![Response::Time(1), Response::Axes(vec![2, 3])]);
    assert_eq!(delivered.serialize().unwrap(), by_hand.serialize().unwrap());
    assert_eq!(delivered.guest().exchange().pending(), 2);
    let first = Response::Time(1).encode();
    assert_eq!(delivered.read(0, first.len() as u64), Ok(first));

    let before = delivered.serialize().unwrap();
    deliver(&mut delivered, vec![]);
    assert_eq!(delivered.serialize().unwrap(), before);
}
