use ricklepick::error::ErrorKind;
use ricklepick::op::{Op, FRAME, PROTO, STOP};

#[test]
fn proto_is_0x80() {
    assert_eq!(Op::Proto.encode(), 0x80);
    assert_eq!(Op::decode(0x80), Ok(Op::Proto));
    assert_eq!(PROTO, 0x80);
}

#[test]
fn frame_and_stop_have_their_wire_constants() {
    assert_eq!(FRAME, 0x95);
    assert_eq!(STOP, 0x2e);
    assert_eq!(Op::decode(0x95), Ok(Op::Frame));
    assert_eq!(Op::decode(0x2e), Ok(Op::Stop));
}

#[test]
fn unknown_byte_is_rejected() {
    assert_eq!(Op::decode(0x00), Err(ErrorKind::UnknownOpcode));
    assert_eq!(Op::decode(0xff), Err(ErrorKind::UnknownOpcode));
    assert_eq!(Op::decode(b'a' - 2), Err(ErrorKind::UnknownOpcode));
}

#[test]
fn every_byte_decodes_to_the_op_that_encodes_to_it() {
    let mut known = 0;
    for byte in 0..=255u8 {
        match Op::decode(byte) {
            Ok(op) => {
                known += 1;
                assert_eq!(op.encode(), byte);
                assert_eq!(u8::from(op), byte);
            }
            Err(e) => assert_eq!(e, ErrorKind::UnknownOpcode),
        }
    }
    assert_eq!(known, 68);
}

#[test]
fn a_selection_of_table_entries() {
    let table = [
        (Op::Mark, b'('),
        (Op::EmptyTuple, b')'),
        (Op::BinBytes, b'B'),
        (Op::BinFloat, b'G'),
        (Op::BinInt, b'J'),
        (Op::BinInt1, b'K'),
        (Op::BinInt2, b'M'),
        (Op::NoneOpcode, b'N'),
        (Op::Reduce, b'R'),
        (Op::BinString, b'T'),
        (Op::BinUnicode, b'X'),
        (Op::EmptyList, b']'),
        (Op::Append, b'a'),
        (Op::Build, b'b'),
        (Op::GlobalOpcode, b'c'),
        (Op::Appends, b'e'),
        (Op::Get, b'g'),
        (Op::BinGet, b'h'),
        (Op::LongBinGet, b'j'),
        (Op::Put, b'p'),
        (Op::BinPut, b'q'),
        (Op::LongBinPut, b'r'),
        (Op::Tuple, b't'),
        (Op::SetItems, b'u'),
        (Op::EmptyDict, b'}'),
        (Op::NewObj, 0x81),
        (Op::Tuple1, 0x85),
        (Op::Tuple2, 0x86),
        (Op::Tuple3, 0x87),
        (Op::NewTrue, 0x88),
        (Op::NewFalse, 0x89),
        (Op::Long1, 0x8a),
        (Op::ShortBinunicde, 0x8c),
        (Op::StackGlobal, 0x93),
        (Op::Memoize, 0x94),
    ];
    for (op, byte) in table {
        assert_eq!(op.encode(), byte);
        assert_eq!(Op::decode(byte), Ok(op));
    }
}
