use lify_control::codec::{Command, DecodeError, Event};

#[test]
fn decode_every_opcode() {
    assert_eq!(Event::decode(b"U3"), Ok(Event::ElevatorUp(3)));
    assert_eq!(Event::decode(b"D2"), Ok(Event::ElevatorDown(2)));
    assert_eq!(Event::decode(b"P5"), Ok(Event::PanelButtonPressed(5)));
    assert_eq!(Event::decode(b"A4"), Ok(Event::ElevatorApproaching(4)));
    assert_eq!(Event::decode(b"S1"), Ok(Event::ElevatorStopped(1)));
    assert_eq!(Event::decode(b"O3"), Ok(Event::DoorOpened(3)));
    assert_eq!(Event::decode(b"C3"), Ok(Event::DoorClosed(3)));
    assert_eq!(Event::decode(b"K1"), Ok(Event::KeySwitched(1)));
}

#[test]
fn decode_multi_digit_arguments() {
    assert_eq!(Event::decode(b"P12"), Ok(Event::PanelButtonPressed(12)));
    assert_eq!(Event::decode(b"P007"), Ok(Event::PanelButtonPressed(7)));
    assert_eq!(Event::decode(b"P255"), Ok(Event::PanelButtonPressed(255)));
    assert_eq!(Event::decode(b"P0"), Ok(Event::PanelButtonPressed(0)));
}

#[test]
fn decode_too_short() {
    assert_eq!(Event::decode(b""), Err(DecodeError::TooShort));
    assert_eq!(Event::decode(b"U"), Err(DecodeError::TooShort));
    assert_eq!(Event::decode(b"X"), Err(DecodeError::TooShort));
}

#[test]
fn decode_bad_argument() {
    assert_eq!(Event::decode(b"Pa"), Err(DecodeError::BadArgument));
    assert_eq!(Event::decode(b"P 3"), Err(DecodeError::BadArgument));
    assert_eq!(Event::decode(b"P256"), Err(DecodeError::BadArgument));
    assert_eq!(Event::decode(b"P999"), Err(DecodeError::BadArgument));
    assert_eq!(Event::decode(b"P3a"), Err(DecodeError::BadArgument));
    // The argument is judged before the opcode.
    assert_eq!(Event::decode(b"Xa"), Err(DecodeError::BadArgument));
}

#[test]
fn decode_unknown_opcode() {
    assert_eq!(Event::decode(b"X3"), Err(DecodeError::UnknownOpcode));
    assert_eq!(Event::decode(b"Z10"), Err(DecodeError::UnknownOpcode));
    assert_eq!(Event::decode(b"u3"), Err(DecodeError::UnknownOpcode));
}

#[test]
fn encode_plain_commands() {
    assert_eq!(Command::MU.encode(), b"MU".to_vec());
    assert_eq!(Command::MD.encode(), b"MD".to_vec());
    assert_eq!(Command::S.encode(), b"S".to_vec());
    assert_eq!(Command::DO.encode(), b"DO".to_vec());
    assert_eq!(Command::DC.encode(), b"DC".to_vec());
    assert_eq!(Command::R.encode(), b"R".to_vec());
}

#[test]
fn encode_argument_commands() {
    assert_eq!(Command::CP(3).encode(), b"CP3".to_vec());
    assert_eq!(Command::CU(1).encode(), b"CU1".to_vec());
    assert_eq!(Command::CD(5).encode(), b"CD5".to_vec());
    assert_eq!(Command::IU(2).encode(), b"IU2".to_vec());
    assert_eq!(Command::ID(4).encode(), b"ID4".to_vec());
    assert_eq!(Command::CI(0).encode(), b"CI0".to_vec());
    assert_eq!(Command::CP(10).encode(), b"CP10".to_vec());
    assert_eq!(Command::CP(255).encode(), b"CP255".to_vec());
    assert_eq!(Command::CP(100).encode(), b"CP100".to_vec());
}

#[test]
fn command_round_trip() {
    let commands = vec![
        Command::MU,
        Command::MD,
        Command::S,
        Command::DO,
        Command::DC,
        Command::R,
        Command::CP(0),
        Command::CP(3),
        Command::CP(42),
        Command::CP(255),
        Command::CU(1),
        Command::CD(5),
        Command::IU(2),
        Command::ID(9),
        Command::CI(100),
    ];
    for c in commands {
        let token = c.encode();
        assert_eq!(Command::decode(&token), Ok(c));
    }
}

#[test]
fn command_decode_rejects_garbage() {
    assert_eq!(Command::decode(b""), Err(DecodeError::TooShort));
    assert_eq!(Command::decode(b"Q"), Err(DecodeError::UnknownOpcode));
    assert_eq!(Command::decode(b"M"), Err(DecodeError::UnknownOpcode));
    assert_eq!(Command::decode(b"MU3"), Err(DecodeError::UnknownOpcode));
    assert_eq!(Command::decode(b"S1"), Err(DecodeError::UnknownOpcode));
    assert_eq!(Command::decode(b"C"), Err(DecodeError::TooShort));
    assert_eq!(Command::decode(b"CP"), Err(DecodeError::BadArgument));
    assert_eq!(Command::decode(b"CPx"), Err(DecodeError::BadArgument));
    assert_eq!(Command::decode(b"CP300"), Err(DecodeError::BadArgument));
    assert_eq!(Command::decode(b"CZ3"), Err(DecodeError::UnknownOpcode));
    assert_eq!(Command::decode(b"IZ3"), Err(DecodeError::UnknownOpcode));
}
