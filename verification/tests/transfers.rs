use rt890_flash::dump::{dump_spi_flash, DumpSession, SPI_CHUNKS};
use rt890_flash::flash::{flash_firmware, FlashSession, FLASH_REQUESTS};
use rt890_flash::frame::{checksum, verify};
use rt890_flash::restore::{restore_spi_flash, RestoreSession};
use rt890_flash::session::{Action, Event, Outcome};
use rt890_flash::spi::{FIRMWARE_SIZE, SPI_FLASH_SIZE};
use rt890_flash::uart::{BLOCK_LENGTH, CHUNK_LENGTH};

/// A scripted radio: it records every frame written to it and answers each
/// read from a function of the number of reads so far and the frames seen.
struct Radio {
    sent: Vec<Vec<u8>>,
    reads: usize,
    answer: Box<dyn FnMut(usize, &[Vec<u8>]) -> Option<Vec<u8>>>,
}

impl Radio {
    fn new(answer: impl FnMut(usize, &[Vec<u8>]) -> Option<Vec<u8>> + 'static) -> Radio {
        Radio { sent: Vec::new(), reads: 0, answer: Box::new(answer) }
    }

    fn read(&mut self, len: usize) -> Event {
        let n = self.reads;
        self.reads += 1;
        match (self.answer)(n, &self.sent) {
            Some(bytes) => {
                assert_eq!(bytes.len(), len, "the script answers with the length asked for");
                Event::Reply(bytes)
            }
            None => Event::LinkError,
        }
    }

    /// Performs one action on the scripted link. `None` for `Finish`.
    fn perform(&mut self, action: &Action) -> Option<Event> {
        match action {
            Action::Send { frame, reply_len } => {
                self.sent.push(frame.clone());
                Some(self.read(*reply_len))
            }
            Action::Receive { reply_len } => Some(self.read(*reply_len)),
            Action::Finish(_) => None,
        }
    }
}

fn run_flash(fw: Vec<u8>, radio: &mut Radio) -> (FlashSession, Outcome) {
    let (mut session, mut action) = flash_firmware(fw);
    loop {
        match radio.perform(&action) {
            Some(event) => action = session.step(event),
            None => match action {
                Action::Finish(outcome) => return (session, outcome),
                _ => unreachable!(),
            },
        }
    }
}

fn run_restore(calib_only: bool, spi: Vec<u8>, radio: &mut Radio) -> (RestoreSession, Outcome) {
    let (mut session, mut action) = restore_spi_flash(calib_only, spi);
    loop {
        match radio.perform(&action) {
            Some(event) => action = session.step(event),
            None => match action {
                Action::Finish(outcome) => return (session, outcome),
                _ => unreachable!(),
            },
        }
    }
}

fn run_dump(radio: &mut Radio) -> (DumpSession, Vec<u8>, Outcome) {
    let (mut session, mut action) = dump_spi_flash();
    let mut output = Vec::new();
    loop {
        match radio.perform(&action) {
            Some(event) => {
                let (data, next) = session.step(event);
                if let Some(bytes) = data {
                    output.extend_from_slice(&bytes);
                }
                action = next;
            }
            None => match action {
                Action::Finish(outcome) => return (session, output, outcome),
                _ => unreachable!(),
            },
        }
    }
}

fn block_with_payload(fill: u8) -> Vec<u8> {
    let mut block = vec![fill; BLOCK_LENGTH];
    block[0] = 0x52;
    block[1] = 0x00;
    block[2] = 0x00;
    checksum(&mut block);
    block
}

fn malformed_block() -> Vec<u8> {
    let mut block = block_with_payload(0x00);
    block[BLOCK_LENGTH - 1] = block[BLOCK_LENGTH - 1].wrapping_add(1);
    assert!(!verify(&block));
    block
}

fn test_image() -> Vec<u8> {
    (0..SPI_FLASH_SIZE).map(|i| ((i / CHUNK_LENGTH) % 253) as u8).collect()
}

fn frame_offset(frame: &[u8]) -> usize {
    (frame[1] as usize) << 8 | frame[2] as usize
}

// Firmware flash

#[test]
fn flash_happy_path() {
    let fw = vec![0xAAu8; 60_416];
    let mut radio = Radio::new(|_, _| Some(vec![0x06]));
    let (session, outcome) = run_flash(fw, &mut radio);
    assert_eq!(outcome, Outcome::Complete);
    assert_eq!(session.outcome(), Some(Outcome::Complete));
    assert_eq!(session.issued(), 473);
    assert_eq!(radio.sent.len(), 473);
    assert_eq!(radio.reads, 473);
    assert_eq!(radio.sent[0], vec![0x39, 0x00, 0x00, 0x55, 0x8E]);
    let writes = &radio.sent[1..];
    assert_eq!(writes.len(), 472);
    for (j, frame) in writes.iter().enumerate() {
        assert_eq!(frame.len(), 132);
        assert_eq!(frame[0], 0x57);
        assert_eq!(frame_offset(frame), j * 128);
        assert!(frame[3..131].iter().all(|b| *b == 0xAA));
        assert!(verify(frame));
    }
    assert_eq!(frame_offset(&writes[471]), 60_288);
}

#[test]
fn flash_sends_each_chunk_of_the_image() {
    let fw: Vec<u8> = (0..FIRMWARE_SIZE).map(|i| (i * 7 % 256) as u8).collect();
    let mut radio = Radio::new(|_, _| Some(vec![0x06]));
    let (_, outcome) = run_flash(fw.clone(), &mut radio);
    assert_eq!(outcome, Outcome::Complete);
    let sent: Vec<u8> = radio.sent[1..].iter().flat_map(|f| f[3..131].to_vec()).collect();
    assert_eq!(sent, fw);
}

#[test]
fn flash_size_mismatch_sends_nothing() {
    let mut radio = Radio::new(|_, _| panic!("nothing is to be read"));
    let (session, outcome) = run_flash(vec![0u8; 60_415], &mut radio);
    assert_eq!(outcome, Outcome::SizeMismatch);
    assert_eq!(session.outcome(), Some(Outcome::SizeMismatch));
    assert_eq!(session.issued(), 0);
    assert!(radio.sent.is_empty());
    assert_eq!(radio.reads, 0);
}

#[test]
fn flash_size_gate_holds_for_other_lengths() {
    for len in [0usize, 1, 128, 60_288, 60_417, 120_832] {
        let (mut session, action) = flash_firmware(vec![0u8; len]);
        assert_eq!(action, Action::Finish(Outcome::SizeMismatch), "length {}", len);
        assert_eq!(session.pending_offset(), None);
        assert_eq!(
            session.step(Event::Reply(vec![0x06])),
            Action::Finish(Outcome::SizeMismatch)
        );
        assert_eq!(session.step(Event::LinkError), Action::Finish(Outcome::SizeMismatch));
        assert_eq!(session.issued(), 0);
    }
}

#[test]
fn flash_rejected_erase_aborts() {
    let mut radio = Radio::new(|_, _| Some(vec![0x15]));
    let (session, outcome) = run_flash(vec![0xAAu8; 60_416], &mut radio);
    assert_eq!(outcome, Outcome::EraseRejected);
    assert_eq!(session.issued(), 1);
    assert_eq!(radio.sent, vec![vec![0x39, 0x00, 0x00, 0x55, 0x8E]]);
    assert_eq!(radio.reads, 1);
}

#[test]
fn flash_rejected_write_is_not_sent_again() {
    let mut radio = Radio::new(|n, _| Some(vec![if n == 3 { 0x15 } else { 0x06 }]));
    let (mut session, outcome) = run_flash(vec![0x5Au8; 60_416], &mut radio);
    assert_eq!(outcome, Outcome::WriteRejected);
    assert_eq!(radio.sent.len(), 4);
    assert_eq!(radio.reads, 4);
    let offsets: Vec<usize> = radio.sent[1..].iter().map(|f| frame_offset(f)).collect();
    assert_eq!(offsets, vec![0, 128, 256]);
    assert_eq!(session.issued(), 4);
    assert_eq!(session.step(Event::Reply(vec![0x06])), Action::Finish(Outcome::WriteRejected));
    assert_eq!(session.issued(), 4);
    assert_eq!(session.outcome(), Some(Outcome::WriteRejected));
}

#[test]
fn flash_link_error_aborts() {
    let mut radio = Radio::new(|n, _| if n < 10 { Some(vec![0x06]) } else { None });
    let (session, outcome) = run_flash(vec![0u8; 60_416], &mut radio);
    assert_eq!(outcome, Outcome::LinkFailed);
    assert_eq!(radio.sent.len(), 11);
    assert_eq!(session.outcome(), Some(Outcome::LinkFailed));
}

#[test]
fn flash_reply_of_another_length_is_a_rejection() {
    let (mut session, _) = flash_firmware(vec![0u8; 60_416]);
    assert_eq!(session.step(Event::Reply(vec![])), Action::Finish(Outcome::EraseRejected));
    let (mut session, _) = flash_firmware(vec![0u8; 60_416]);
    assert!(matches!(session.step(Event::Reply(vec![0x06])), Action::Send { .. }));
    assert_eq!(
        session.step(Event::Reply(vec![0x06, 0x06])),
        Action::Finish(Outcome::WriteRejected)
    );
}

#[test]
fn flash_steps_one_request_at_a_time() {
    let fw: Vec<u8> = (0..FIRMWARE_SIZE).map(|i| (i / 128) as u8).collect();
    let (mut session, action) = flash_firmware(fw.clone());
    assert_eq!(
        action,
        Action::Send { frame: vec![0x39, 0x00, 0x00, 0x55, 0x8E], reply_len: 1 }
    );
    assert_eq!(session.outcome(), None);
    assert_eq!(session.issued(), 1);
    assert_eq!(session.pending_offset(), None);
    let action = session.step(Event::Reply(vec![0x06]));
    let mut expected = vec![0x57u8, 0x00, 0x00];
    expected.extend_from_slice(&fw[..128]);
    expected.push(0x57);
    assert_eq!(action, Action::Send { frame: expected, reply_len: 1 });
    assert_eq!(session.pending_offset(), Some(0));
    let action = session.step(Event::Reply(vec![0x06]));
    match action {
        Action::Send { frame, reply_len } => {
            assert_eq!(reply_len, 1);
            assert_eq!(&frame[..3], &[0x57, 0x00, 0x80]);
            assert_eq!(&frame[3..131], &fw[128..256]);
        }
        other => panic!("unexpected action {:?}", other),
    }
    assert_eq!(session.pending_offset(), Some(128));
    assert_eq!(session.issued(), 3);
    assert_eq!(FLASH_REQUESTS, 473);
}

// SPI restore

#[test]
fn calibration_only_restore() {
    let image = test_image();
    let mut radio = Radio::new(|_, _| Some(vec![0x06]));
    let (session, outcome) = run_restore(true, image.clone(), &mut radio);
    assert_eq!(outcome, Outcome::Complete);
    assert_eq!(session.issued(), 32);
    assert_eq!(radio.sent.len(), 32);
    for (j, frame) in radio.sent.iter().enumerate() {
        let offset = 3_928_064 + j * 128;
        assert_eq!(frame.len(), 132);
        assert_eq!(frame[0], 0x48);
        assert_eq!(frame_offset(frame), offset & 0xFFFF);
        assert_eq!(&frame[3..131], &image[offset..offset + 128]);
        assert!(verify(frame));
    }
    assert_eq!(3_928_064 + 31 * 128, 3_932_032);
}

#[test]
fn full_restore_ordering() {
    let image = test_image();
    let mut radio = Radio::new(|_, _| Some(vec![0x06]));
    let (session, outcome) = run_restore(false, image.clone(), &mut radio);
    assert_eq!(outcome, Outcome::Complete);
    let expected: [(u8, usize, usize); 9] = [
        (0x40, 23_040, 0),
        (0x41, 1_280, 2_949_120),
        (0x42, 1_088, 3_112_960),
        (0x43, 64, 3_252_224),
        (0x47, 320, 3_887_104),
        (0x48, 32, 3_928_064),
        (0x49, 320, 3_936_256),
        (0x4B, 320, 4_030_464),
        (0x4C, 4_896, 3_260_416),
    ];
    let mut opcodes: Vec<u8> = Vec::new();
    for (opcode, count, _) in expected {
        opcodes.extend(std::iter::repeat(opcode).take(count));
    }
    let seen: Vec<u8> = radio.sent.iter().map(|f| f[0]).collect();
    assert_eq!(seen.len(), 31_360);
    assert_eq!(seen, opcodes);
    assert_eq!(session.issued(), 31_360);
    let mut k = 0;
    for (_, count, start) in expected {
        for j in 0..count {
            let offset = start + j * 128;
            let frame = &radio.sent[k];
            assert_eq!(frame_offset(frame), offset & 0xFFFF);
            assert_eq!(&frame[3..131], &image[offset..offset + 128]);
            assert!(verify(frame));
            k += 1;
        }
    }
}

#[test]
fn restore_size_mismatch_sends_nothing() {
    for len in [0usize, 4_194_303, 4_194_305, 60_416] {
        for calib_only in [false, true] {
            let mut radio = Radio::new(|_, _| panic!("nothing is to be read"));
            let (session, outcome) = run_restore(calib_only, vec![0u8; len], &mut radio);
            assert_eq!(outcome, Outcome::SizeMismatch);
            assert_eq!(session.issued(), 0);
            assert_eq!(session.pending_offset(), None);
            assert!(radio.sent.is_empty());
        }
    }
}

#[test]
fn restore_rejected_chunk_is_not_sent_again() {
    let mut radio = Radio::new(|n, _| Some(vec![if n == 5 { 0x15 } else { 0x06 }]));
    let (mut session, outcome) = run_restore(true, test_image(), &mut radio);
    assert_eq!(outcome, Outcome::WriteRejected);
    assert_eq!(radio.sent.len(), 6);
    assert_eq!(radio.reads, 6);
    assert_eq!(session.issued(), 6);
    assert_eq!(session.step(Event::Reply(vec![0x06])), Action::Finish(Outcome::WriteRejected));
    assert_eq!(session.pending_offset(), None);
}

#[test]
fn restore_rejected_first_chunk_aborts() {
    let mut radio = Radio::new(|_, _| Some(vec![0x15]));
    let (_, outcome) = run_restore(false, test_image(), &mut radio);
    assert_eq!(outcome, Outcome::WriteRejected);
    assert_eq!(radio.sent.len(), 1);
    assert_eq!(radio.sent[0][0], 0x40);
}

#[test]
fn restore_link_error_aborts() {
    let mut radio = Radio::new(|n, _| if n < 23_041 { Some(vec![0x06]) } else { None });
    let (session, outcome) = run_restore(false, test_image(), &mut radio);
    assert_eq!(outcome, Outcome::LinkFailed);
    assert_eq!(radio.sent.len(), 23_042);
    assert_eq!(radio.sent[23_039][0], 0x40);
    assert_eq!(radio.sent[23_040][0], 0x41);
    assert_eq!(session.outcome(), Some(Outcome::LinkFailed));
}

#[test]
fn restore_reports_the_offset_of_the_outstanding_chunk() {
    let (mut session, action) = restore_spi_flash(false, test_image());
    assert!(matches!(action, Action::Send { reply_len: 1, .. }));
    assert_eq!(session.pending_offset(), Some(0));
    session.step(Event::Reply(vec![0x06]));
    assert_eq!(session.pending_offset(), Some(128));
    let (mut session, _) = restore_spi_flash(true, test_image());
    assert_eq!(session.pending_offset(), Some(3_928_064));
    session.step(Event::Reply(vec![0x06]));
    assert_eq!(session.pending_offset(), Some(3_928_192));
    assert_eq!(session.outcome(), None);
}

// SPI dump

#[test]
fn dump_truncation() {
    let mut radio = Radio::new(|n, _| {
        if n < 100 {
            Some(block_with_payload((n % 256) as u8))
        } else {
            Some(malformed_block())
        }
    });
    let (session, output, outcome) = run_dump(&mut radio);
    assert_eq!(outcome, Outcome::EndOfData);
    assert_eq!(output.len(), 12_800);
    let mut expected = Vec::new();
    for i in 0..100usize {
        expected.extend_from_slice(&[(i % 256) as u8; 128]);
    }
    assert_eq!(output, expected);
    assert_eq!(radio.sent.len(), 101);
    assert_eq!(radio.reads, 102);
    assert_eq!(session.index(), 100);
    for (i, frame) in radio.sent.iter().enumerate() {
        assert_eq!(frame.len(), 4);
        assert_eq!(frame[0], 0x52);
        assert_eq!(frame_offset(frame), i);
        assert!(verify(frame));
    }
}

#[test]
fn dump_terminates_after_k_chunks() {
    for k in [0usize, 1, 2, 7, 300] {
        let mut radio = Radio::new(move |n, _| {
            if n < k {
                Some(block_with_payload(0xC3))
            } else {
                Some(malformed_block())
            }
        });
        let (session, output, outcome) = run_dump(&mut radio);
        assert_eq!(outcome, Outcome::EndOfData);
        assert_eq!(output.len(), 128 * k);
        assert_eq!(radio.sent.len(), k + 1);
        assert_eq!(radio.reads, k + 2);
        assert_eq!(session.index(), k);
    }
}

#[test]
fn dump_reads_a_malformed_block_once_more() {
    let (mut session, action) = dump_spi_flash();
    assert_eq!(action, Action::Send { frame: vec![0x52, 0x00, 0x00, 0x52], reply_len: 132 });
    let (data, action) = session.step(Event::Reply(malformed_block()));
    assert_eq!(data, None);
    assert_eq!(action, Action::Receive { reply_len: 132 });
    assert_eq!(session.index(), 0);
    let (data, action) = session.step(Event::Reply(block_with_payload(0x77)));
    assert_eq!(data, Some(vec![0x77; 128]));
    assert_eq!(action, Action::Send { frame: vec![0x52, 0x00, 0x01, 0x53], reply_len: 132 });
    assert_eq!(session.index(), 1);
    assert_eq!(session.outcome(), None);
}

#[test]
fn dump_retry_does_not_send_the_request_again() {
    let mut radio = Radio::new(|n, _| match n {
        0 => Some(malformed_block()),
        1 => Some(block_with_payload(0x01)),
        2 => Some(block_with_payload(0x02)),
        3 => Some(malformed_block()),
        4 => Some(block_with_payload(0x03)),
        _ => Some(malformed_block()),
    });
    let (_, output, outcome) = run_dump(&mut radio);
    assert_eq!(outcome, Outcome::EndOfData);
    let mut expected = vec![0x01u8; 128];
    expected.extend_from_slice(&[0x02; 128]);
    expected.extend_from_slice(&[0x03; 128]);
    assert_eq!(output, expected);
    let indices: Vec<usize> = radio.sent.iter().map(|f| frame_offset(f)).collect();
    assert_eq!(indices, vec![0, 1, 2, 3]);
    assert_eq!(radio.reads, 7);
}

#[test]
fn dump_of_the_whole_flash_is_complete() {
    let mut radio = Radio::new(|_, sent| {
        let index = frame_offset(sent.last().expect("a request went out"));
        Some(block_with_payload((index % 251) as u8))
    });
    let (mut session, output, outcome) = run_dump(&mut radio);
    assert_eq!(outcome, Outcome::Complete);
    assert_eq!(output.len(), 4_194_304);
    assert_eq!(radio.sent.len(), 32_768);
    assert_eq!(radio.reads, 32_768);
    assert_eq!(SPI_CHUNKS, 32_768);
    assert_eq!(session.index(), 32_768);
    assert_eq!(frame_offset(&radio.sent[32_767]), 32_767);
    for (i, chunk) in output.chunks(128).enumerate() {
        assert!(chunk.iter().all(|b| *b == (i % 251) as u8));
    }
    let (data, action) = session.step(Event::Reply(block_with_payload(0)));
    assert_eq!(data, None);
    assert_eq!(action, Action::Finish(Outcome::Complete));
}

#[test]
fn dump_link_error_aborts() {
    let mut radio = Radio::new(|n, _| if n < 3 { Some(block_with_payload(0x10)) } else { None });
    let (session, output, outcome) = run_dump(&mut radio);
    assert_eq!(outcome, Outcome::LinkFailed);
    assert_eq!(output.len(), 384);
    assert_eq!(radio.sent.len(), 4);
    assert_eq!(session.outcome(), Some(Outcome::LinkFailed));
}

#[test]
fn dump_block_of_another_length_is_malformed() {
    let (mut session, _) = dump_spi_flash();
    let (data, action) = session.step(Event::Reply(vec![0x00]));
    assert_eq!(data, None);
    assert_eq!(action, Action::Receive { reply_len: 132 });
    let (data, action) = session.step(Event::Reply(vec![]));
    assert_eq!(data, None);
    assert_eq!(action, Action::Finish(Outcome::EndOfData));
}
