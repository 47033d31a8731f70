use fadroma::bin_serde::{Deserializer, Error, FadromaSerializeExt, Serializer};
use fadroma::protocol::{next_step, Step};
use fadroma::types::{ReplyOn, StdError, SubMsgResult};

#[test]
fn serializer_appends_in_order() {
    let mut ser = Serializer::with_capacity(2);
    assert!(ser.capacity() >= 0);
    ser.write_byte(7);
    ser.write(&[1, 2, 3]);
    ser.reserve(10);
    ser.reserve_exact(4);
    assert!(ser.capacity() >= 4);
    assert_eq!(ser.finish(), vec![7, 1, 2, 3]);
    assert_eq!(Serializer::new().finish(), Vec::<u8>::new());
}

#[test]
fn deserializer_reads_back_and_stops_at_the_end() {
    let bytes = vec![9u8, 8, 7];
    let mut de = Deserializer::from(&bytes);
    assert_eq!(de.len(), 3);
    assert_eq!(de.read_byte().unwrap(), 9);
    assert_eq!(de.read(2).unwrap(), &[8, 7]);
    assert!(de.is_finished());
    let err = de.read(1).unwrap_err();
    assert_eq!(err, Error::EndOfStream { total: 3, read: 3, requested: 1 });
    assert_eq!(err.to_string(), "Attempted to read 1 bytes but only 0 remained.");
    assert_eq!(de.read_byte().unwrap_err(), Error::EndOfStream { total: 3, read: 3, requested: 1 });
}

#[test]
fn deserializer_refuses_a_long_read_without_moving() {
    let bytes = vec![1u8, 2, 3, 4];
    let mut de = Deserializer::from(&bytes);
    assert_eq!(de.read(1).unwrap(), &[1]);
    let err = de.read(5).unwrap_err();
    assert_eq!(err.to_string(), "Attempted to read 5 bytes but only 3 remained.");
    assert_eq!(de.read(3).unwrap(), &[2, 3, 4]);
    assert_eq!(de.read(0).unwrap(), &[] as &[u8]);
}

#[test]
fn error_texts() {
    assert_eq!(Error::ByteLenTooLong { len: 300 }.to_string(), "Sequence item length (300) exceeded.");
    assert_eq!(Error::InvalidType.to_string(), "Invalid type.");
    assert_eq!(StdError::generic_err("boom").to_string(), "Generic error: boom");
    assert_eq!(StdError::Overflow.to_string(), "Amount overflow");
    assert_eq!(StdError::DelegationNotFound.to_string(), "Delegation not found");
}

#[test]
fn reply_policy_steps() {
    assert_eq!(next_step(ReplyOn::Never, true), Step::Continue);
    assert_eq!(next_step(ReplyOn::Never, false), Step::Fail);
    assert_eq!(next_step(ReplyOn::Success, true), Step::ReplySuccess);
    assert_eq!(next_step(ReplyOn::Success, false), Step::Fail);
    assert_eq!(next_step(ReplyOn::Error, true), Step::Continue);
    assert_eq!(next_step(ReplyOn::Error, false), Step::ReplyError);
    assert_eq!(next_step(ReplyOn::Always, true), Step::ReplySuccess);
    assert_eq!(next_step(ReplyOn::Always, false), Step::ReplyError);
}

#[test]
fn sub_message_result_success_flag() {
    assert!(SubMsgResult::Success { data: None }.is_ok());
    assert!(!SubMsgResult::Failure("x".to_string()).is_ok());
}

struct Greedy(u8);

impl fadroma::bin_serde::FadromaSerialize for Greedy {
    fn size_hint(&self) -> usize {
        usize::MAX
    }

    fn to_bytes(&self, ser: &mut Serializer) -> Result<(), Error> {
        ser.write_byte(self.0);
        Ok(())
    }
}

#[test]
fn serialize_ignores_a_hint_too_large_to_reserve() {
    assert_eq!(Greedy(4).serialize().unwrap(), vec![4]);
}
