use vg_core::protocol::Call;
use vg_core::routine::{Op, Routine};

fn header() -> Vec<u8> {
    vec![0, b'v', b'g', b'm', 1]
}

#[test]
fn an_image_is_a_header_and_instructions() {
    let routine = Routine::new(vec![Op::Count, Op::Halt, Op::Jump(0)]).unwrap();
    let mut expected = header();
    expected.extend_from_slice(&[3, 1, 5, 0, 0, 0, 0, 0, 0, 0, 0]);
    assert_eq!(routine.assemble(), expected);
}

#[test]
fn every_instruction_has_its_own_opcode() {
    let routine = Routine::new(vec![
        Op::End,
        Op::Halt,
        Op::Frame,
        Op::Count,
        Op::Recv,
        Op::Jump(2),
        Op::Emit(vec![0xaa, 0xbb]),
        Op::Abort,
    ])
    .unwrap();
    let mut expected = header();
    expected.extend_from_slice(&[0, 1, 2, 3, 4]);
    expected.extend_from_slice(&[5, 2, 0, 0, 0, 0, 0, 0, 0]);
    expected.extend_from_slice(&[6, 2, 0, 0, 0, 0, 0, 0, 0, 0xaa, 0xbb]);
    expected.push(7);
    assert_eq!(routine.assemble(), expected);
}

#[test]
fn image_round_trip() {
    let routine = Routine::new(vec![
        Op::Emit(Call::Print("hello".to_string()).encode()),
        Op::Emit(vec![]),
        Op::Count,
        Op::Recv,
        Op::Frame,
        Op::Halt,
        Op::Jump(0),
        Op::Abort,
        Op::End,
    ])
    .unwrap();
    assert_eq!(Routine::parse(&routine.assemble()), Some(routine));
}

#[test]
fn the_empty_routine_is_a_routine() {
    let routine = Routine::new(vec![]).unwrap();
    assert_eq!(routine.len(), 0);
    assert_eq!(routine.assemble(), header());
    assert_eq!(Routine::parse(&header()), Some(routine));
}

#[test]
fn an_empty_image_is_refused() {
    assert_eq!(Routine::parse(&[]), None);
}

#[test]
fn a_short_or_foreign_header_is_refused() {
    assert_eq!(Routine::parse(&[0, b'v', b'g', b'm']), None);
    assert_eq!(Routine::parse(&[1, b'v', b'g', b'm', 1]), None);
    assert_eq!(Routine::parse(&[0, b'a', b's', b'm', 1]), None);
    assert_eq!(Routine::parse(b"\0asm\x01\0\0\0"), None);
}

#[test]
fn another_version_is_refused() {
    assert_eq!(Routine::parse(&[0, b'v', b'g', b'm', 0]), None);
    assert_eq!(Routine::parse(&[0, b'v', b'g', b'm', 2]), None);
}

#[test]
fn an_unknown_opcode_is_refused() {
    let mut image = header();
    image.push(8);
    assert_eq!(Routine::parse(&image), None);
}

#[test]
fn a_cut_operand_is_refused() {
    let mut image = header();
    image.extend_from_slice(&[5, 0, 0, 0]);
    assert_eq!(Routine::parse(&image), None);
    let mut image = header();
    image.extend_from_slice(&[6, 2, 0, 0, 0, 0, 0, 0, 0, 0xaa]);
    assert_eq!(Routine::parse(&image), None);
}

#[test]
fn a_jump_out_of_the_routine_is_refused() {
    assert_eq!(Routine::new(vec![Op::Jump(1)]), None);
    assert_eq!(Routine::new(vec![Op::Halt, Op::Jump(2)]), None);
    assert!(Routine::new(vec![Op::Halt, Op::Jump(1)]).is_some());
    let mut image = header();
    image.extend_from_slice(&[5, 1, 0, 0, 0, 0, 0, 0, 0]);
    assert_eq!(Routine::parse(&image), None);
}

#[test]
fn instructions_can_be_looked_up() {
    let routine = Routine::new(vec![Op::Count, Op::Halt]).unwrap();
    assert_eq!(routine.len(), 2);
    assert_eq!(routine.op(0), Some(&Op::Count));
    assert_eq!(routine.op(1), Some(&Op::Halt));
    assert_eq!(routine.op(2), None);
}
