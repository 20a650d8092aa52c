use vg_core::error::RuntimeError::MalformedMessage;
use vg_core::protocol::{Call, Key, Response};

#[test]
fn print_encodes_as_tag_length_and_text() {
    let bytes = Call::Print("hi".to_string()).encode();
    assert_eq!(bytes, vec![0, 2, 0, 0, 0, 0, 0, 0, 0, b'h', b'i']);
}

#[test]
fn present_encodes_as_an_empty_frame() {
    assert_eq!(Call::Present.encode(), vec![1, 0, 0, 0, 0, 0, 0, 0, 0]);
}

#[test]
fn call_round_trip() {
    let calls = vec![
        Call::Print("hello".to_string()),
        Call::Print(String::new()),
        Call::Print("héllo ✓".to_string()),
        Call::Present,
        Call::Draw { texture: "ferris.png".to_string(), position: vec![1.5f32.to_bits(), 0] },
        Call::Draw { texture: String::new(), position: vec![] },
        Call::PlaySound("cat.ogg".to_string()),
    ];
    for call in calls {
        assert_eq!(Call::decode(&call.encode()), Ok(call));
    }
}

#[test]
fn response_round_trip() {
    let responses = vec![
        Response::Time(0),
        Response::Time(u64::MAX),
        Response::Key { key: Key::Space, pressed: true },
        Response::Key { key: Key::Escape, pressed: false },
        Response::Axes(vec![]),
        Response::Axes(vec![1, 2, u32::MAX]),
    ];
    for response in responses {
        assert_eq!(Response::decode(&response.encode()), Ok(response));
    }
}

#[test]
fn every_key_has_its_own_code() {
    let keys = [
        Key::W,
        Key::A,
        Key::S,
        Key::D,
        Key::Space,
        Key::Up,
        Key::Down,
        Key::Left,
        Key::Right,
        Key::Enter,
        Key::Escape,
    ];
    for (i, key) in keys.iter().enumerate() {
        assert_eq!(key.code() as usize, i);
        assert_eq!(Key::from_code(i as u8), Some(*key));
    }
    assert_eq!(Key::from_code(11), None);
    assert_eq!(Key::from_code(255), None);
}

#[test]
fn truncated_messages_are_malformed() {
    let whole = Call::Draw { texture: "ferris.png".to_string(), position: vec![7, 9] }.encode();
    for n in 0..whole.len() {
        assert_eq!(Call::decode(&whole[..n]), Err(MalformedMessage));
    }
    let whole = Response::Time(5).encode();
    for n in 0..whole.len() {
        assert_eq!(Response::decode(&whole[..n]), Err(MalformedMessage));
    }
}

#[test]
fn trailing_bytes_are_malformed() {
    let mut bytes = Call::Present.encode();
    bytes.push(0);
    assert_eq!(Call::decode(&bytes), Err(MalformedMessage));
}

#[test]
fn unknown_tags_are_malformed() {
    assert_eq!(Call::decode(&[4, 0, 0, 0, 0, 0, 0, 0, 0]), Err(MalformedMessage));
    assert_eq!(Response::decode(&[3, 0, 0, 0, 0, 0, 0, 0, 0]), Err(MalformedMessage));
}

#[test]
fn text_that_is_not_utf8_is_malformed() {
    assert_eq!(Call::decode(&[0, 1, 0, 0, 0, 0, 0, 0, 0, 0xff]), Err(MalformedMessage));
    assert_eq!(Call::decode(&[3, 2, 0, 0, 0, 0, 0, 0, 0, 0xc3, 0x28]), Err(MalformedMessage));
}

#[test]
fn a_length_that_overruns_the_input_is_malformed() {
    assert_eq!(
        Call::decode(&[0, 0xff, 0xff, 0xff, 0xff, 0xff, 0xff, 0xff, 0xff, b'a']),
        Err(MalformedMessage)
    );
}

#[test]
fn payloads_that_do_not_fit_their_variant_are_malformed() {
    // Present with a payload.
    assert_eq!(Call::decode(&[1, 1, 0, 0, 0, 0, 0, 0, 0, 0]), Err(MalformedMessage));
    // A key that does not exist.
    assert_eq!(Response::decode(&[1, 2, 0, 0, 0, 0, 0, 0, 0, 11, 0]), Err(MalformedMessage));
    // A truth value that is neither 0 nor 1.
    assert_eq!(Response::decode(&[1, 2, 0, 0, 0, 0, 0, 0, 0, 0, 2]), Err(MalformedMessage));
    // Axes whose bytes do not divide into values.
    assert_eq!(Response::decode(&[2, 3, 0, 0, 0, 0, 0, 0, 0, 1, 2, 3]), Err(MalformedMessage));
    // A time of seven bytes.
    assert_eq!(Response::decode(&[0, 7, 0, 0, 0, 0, 0, 0, 0, 1, 2, 3, 4, 5, 6, 7]), Err(MalformedMessage));
}
