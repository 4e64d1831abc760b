//! Talking to a display over its I2C channel.

use display_studio::ddc::protocol::{
    checksum, frame, DdcDevice, OP_CAPS_REPLY, OP_GET_VCP, OP_GET_VCP_REPLY, OP_SET_VCP, SEED_GET,
    SEED_REPLY, SEED_SET,
};
use display_studio::ddc::{Error, I2cTransport, Timings};
use std::cell::RefCell;
use std::rc::Rc;

#[derive(Debug, PartialEq)]
enum Done {
    Wrote(u32, u32, Vec<u8>),
    Read(u32, u32, usize),
    Paused(u64),
}

/// A channel that answers by script, and keeps what was done on it.
struct Wire {
    log: Rc<RefCell<Vec<Done>>>,
    replies: Vec<Result<Vec<u8>, Error>>,
    failing_writes: usize,
}

impl I2cTransport for Wire {
    fn write(&mut self, chip: u32, address: u32, data: &[u8]) -> Result<(), Error> {
        self.log
            .borrow_mut()
            .push(Done::Wrote(chip, address, data.to_vec()));
        if self.failing_writes > 0 {
            self.failing_writes -= 1;
            return Err(Error::Transport("nack".into()));
        }
        Ok(())
    }

    fn read(&mut self, chip: u32, offset: u32, buf: &mut [u8]) -> Result<(), Error> {
        self.log
            .borrow_mut()
            .push(Done::Read(chip, offset, buf.len()));
        let reply = if self.replies.is_empty() {
            Err(Error::Transport("silence".into()))
        } else {
            self.replies.remove(0)
        }?;
        buf[..reply.len()].copy_from_slice(&reply);
        Ok(())
    }

    fn pause(&mut self, micros: u64) {
        self.log.borrow_mut().push(Done::Paused(micros));
    }
}

fn device(
    replies: Vec<Result<Vec<u8>, Error>>,
    failing_writes: usize,
) -> (DdcDevice<Wire>, Rc<RefCell<Vec<Done>>>) {
    let log = Rc::new(RefCell::new(Vec::new()));
    let wire = Wire {
        log: Rc::clone(&log),
        replies,
        failing_writes,
    };
    (DdcDevice::new(wire, Timings::default()), log)
}

fn vcp_reply(code: u8, max: u16, current: u16) -> Vec<u8> {
    let mut r = vec![
        0x6E,
        0x88,
        OP_GET_VCP_REPLY,
        0,
        code,
        0,
        (max >> 8) as u8,
        (max & 0xFF) as u8,
        (current >> 8) as u8,
        (current & 0xFF) as u8,
        0,
    ];
    r[10] = checksum(SEED_REPLY, &r, 0, 9);
    r
}

fn caps_reply(offset: u16, data: &[u8]) -> Vec<u8> {
    let mut r = vec![
        0x6E,
        0x80 | (data.len() as u8 + 3),
        OP_CAPS_REPLY,
        (offset >> 8) as u8,
        (offset & 0xFF) as u8,
    ];
    r.extend_from_slice(data);
    let end = r.len() - 1;
    let sum = checksum(SEED_REPLY, &r, 0, end);
    r.push(sum);
    r
}

#[test]
fn a_read_is_two_writes_and_one_read() {
    let (mut d, log) = device(vec![Ok(vcp_reply(0x10, 100, 42))], 0);
    let r = d.get_vcp(0x10).unwrap();
    assert_eq!((r.current, r.max), (42, 100));
    let packet = frame(OP_GET_VCP, &[0x10], SEED_GET);
    assert_eq!(
        *log.borrow(),
        vec![
            Done::Paused(10_000),
            Done::Wrote(0x37, 0x51, packet.clone()),
            Done::Paused(10_000),
            Done::Wrote(0x37, 0x51, packet),
            Done::Paused(50_000),
            Done::Read(0x37, 0, 11),
        ]
    );
}

#[test]
fn a_garbled_reply_is_asked_for_again() {
    let mut garbled = vcp_reply(0x10, 100, 42);
    garbled[10] ^= 0xFF;
    let (mut d, log) = device(vec![Ok(garbled), Ok(vcp_reply(0x10, 100, 7))], 0);
    assert_eq!(d.get_vcp(0x10).unwrap().current, 7);
    let reads = log
        .borrow()
        .iter()
        .filter(|e| matches!(e, Done::Read(..)))
        .count();
    assert_eq!(reads, 2);
    assert!(log.borrow().contains(&Done::Paused(20_000)));
}

#[test]
fn a_silent_display_is_given_up_on() {
    let (mut d, log) = device(vec![], 0);
    assert!(matches!(d.get_vcp(0x10), Err(Error::Transport(s)) if s == "silence"));
    let reads = log
        .borrow()
        .iter()
        .filter(|e| matches!(e, Done::Read(..)))
        .count();
    assert_eq!(reads, 5, "one try and four retries");
}

#[test]
fn a_display_that_takes_no_write_is_never_read() {
    let (mut d, log) = device(vec![], 100);
    assert!(matches!(d.get_vcp(0x10), Err(Error::NoResponse(0))));
    assert!(!log.borrow().iter().any(|e| matches!(e, Done::Read(..))));
}

#[test]
fn a_write_is_retried_until_it_goes_through() {
    // Both cycles of the first try fail, and the first of the second.
    let (mut d, log) = device(vec![], 3);
    d.set_vcp(0x10, 0x0132).unwrap();
    let packet = frame(OP_SET_VCP, &[0x10, 0x01, 0x32], SEED_SET);
    let writes: Vec<Done> = log
        .borrow_mut()
        .drain(..)
        .filter(|e| matches!(e, Done::Wrote(..)))
        .collect();
    assert_eq!(writes.len(), 4);
    assert!(writes
        .iter()
        .all(|w| *w == Done::Wrote(0x37, 0x51, packet.clone())));
}

#[test]
fn a_write_that_never_goes_through_says_why() {
    let (mut d, _) = device(vec![], 100);
    assert!(matches!(d.set_vcp(0x10, 1), Err(Error::Transport(s)) if s == "nack"));
}

#[test]
fn the_capability_string_is_put_together_from_chunks() {
    let (mut d, _) = device(
        vec![
            Ok(caps_reply(0, b"(vcp(10")),
            Ok(caps_reply(7, b" 12))")),
            Ok(caps_reply(12, b"")),
        ],
        0,
    );
    assert_eq!(d.capability_string().unwrap(), "(vcp(10 12))");
}

#[test]
fn a_capability_string_that_is_no_text_is_an_error() {
    let (mut d, _) = device(
        vec![
            Ok(caps_reply(0, &[0x28, 0xFF, 0x29])),
            Ok(caps_reply(3, b"")),
        ],
        0,
    );
    match d.capability_string() {
        Err(Error::CapabilityParse(why)) => assert!(why.contains("utf-8"), "{why}"),
        other => panic!("{other:?}"),
    }
}

#[test]
fn errors_read_as_sentences() {
    assert_eq!(
        Error::Transport("nack".into()).message(),
        Error::Transport("nack".into()).copy().message()
    );
    assert!(Error::NoResponse(3).message().contains('3'));
}
