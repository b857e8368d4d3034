use speakturbo::fade::fade_in;
use speakturbo::gate::{poll_gate, GateDecision, MIN_BUFFER_SAMPLES};
use speakturbo::queue::LockFreeBuffer;
use speakturbo::render::{Pull, StreamSource};
use speakturbo::transport::{ReaderAction, TransportReader};

fn stream_of(samples: &[i16]) -> Vec<u8> {
    samples.iter().flat_map(|s| s.to_le_bytes()).collect()
}

fn expected_output(samples: &[i16]) -> Vec<i16> {
    samples.iter().enumerate().map(|(i, s)| fade_in(*s, i)).collect()
}

#[test]
fn reads_then_pulls() {
    let samples: Vec<i16> = (0..5000).map(|i| ((i * 37) % 20001 - 10000) as i16).collect();
    let bytes = stream_of(&samples);
    let mut queue = LockFreeBuffer::new();
    let mut reader = TransportReader::new();
    let mut source = StreamSource::new();
    for chunk in bytes.chunks(4096) {
        reader.on_read(chunk, &mut queue);
    }
    assert_eq!(poll_gate(&queue, MIN_BUFFER_SAMPLES), GateDecision::Release);
    assert_eq!(reader.on_read(&[], &mut queue), ReaderAction::Stop);
    let mut out = Vec::new();
    loop {
        match source.next(&mut queue) {
            Pull::Sample(s) => out.push(s),
            Pull::Starved => panic!("starved on a finished stream"),
            Pull::Ended => break,
        }
    }
    assert_eq!(out, expected_output(&samples));
}

#[test]
fn reads_and_pulls_taking_turns() {
    let samples: Vec<i16> = (0..1000).map(|i| (i * 31 - 15000) as i16).collect();
    let bytes = stream_of(&samples);
    let mut queue = LockFreeBuffer::new();
    let mut reader = TransportReader::new();
    let mut source = StreamSource::new();
    let mut out = Vec::new();
    let mut starved = 0;
    // Odd chunks, so that every second one ends in the middle of a sample,
    // and more pulls than samples, so that the consumer runs dry in between.
    for chunk in bytes.chunks(7) {
        reader.on_read(chunk, &mut queue);
        for _ in 0..5 {
            match source.next(&mut queue) {
                Pull::Sample(s) => out.push(s),
                Pull::Starved => starved += 1,
                Pull::Ended => panic!("ended before the stream was closed"),
            }
        }
    }
    assert!(starved > 0);
    reader.on_read(&[], &mut queue);
    loop {
        match source.next(&mut queue) {
            Pull::Sample(s) => out.push(s),
            Pull::Starved => panic!("starved on a finished stream"),
            Pull::Ended => break,
        }
    }
    assert_eq!(out, expected_output(&samples));
    assert_eq!(source.next(&mut queue), Pull::Ended);
}

#[test]
fn stream_cut_short_by_an_error_plays_what_arrived() {
    let samples: Vec<i16> = vec![1000; 300];
    let bytes = stream_of(&samples);
    let mut queue = LockFreeBuffer::new();
    let mut reader = TransportReader::new();
    let mut source = StreamSource::new();
    reader.on_read(&bytes[..401], &mut queue);
    assert_eq!(poll_gate(&queue, MIN_BUFFER_SAMPLES), GateDecision::Wait);
    reader.on_error(&mut queue);
    assert_eq!(poll_gate(&queue, MIN_BUFFER_SAMPLES), GateDecision::Release);
    let mut out = Vec::new();
    while let Pull::Sample(s) = source.next(&mut queue) {
        out.push(s);
    }
    assert_eq!(out, expected_output(&samples[..200]));
    assert_eq!(source.next(&mut queue), Pull::Ended);
}
