use speakturbo::gate::{
    poll_gate, GateDecision, GATE_POLL_MICROS, MIN_BUFFER_MS, MIN_BUFFER_SAMPLES,
};
use speakturbo::queue::LockFreeBuffer;
use speakturbo::render::SAMPLE_RATE;

#[test]
fn threshold_is_150_ms_of_audio() {
    assert_eq!(MIN_BUFFER_MS, 150);
    assert_eq!(MIN_BUFFER_SAMPLES, 3600);
    assert_eq!(MIN_BUFFER_SAMPLES, (SAMPLE_RATE * MIN_BUFFER_MS / 1000) as usize);
    assert_eq!(GATE_POLL_MICROS, 500);
}

#[test]
fn short_finished_stream_is_released() {
    let mut q = LockFreeBuffer::new();
    for i in 0..100 {
        q.push(i);
        assert_eq!(poll_gate(&q, 3600), GateDecision::Wait);
    }
    q.set_done();
    assert_eq!(poll_gate(&q, 3600), GateDecision::Release);
    assert_eq!(poll_gate(&q, MIN_BUFFER_SAMPLES), GateDecision::Release);
}

#[test]
fn empty_running_stream_waits() {
    let q = LockFreeBuffer::new();
    assert_eq!(poll_gate(&q, MIN_BUFFER_SAMPLES), GateDecision::Wait);
    assert_eq!(poll_gate(&q, 1), GateDecision::Wait);
}

#[test]
fn release_at_the_threshold() {
    let mut q = LockFreeBuffer::new();
    for _ in 0..3599 {
        q.push(0);
    }
    assert_eq!(poll_gate(&q, MIN_BUFFER_SAMPLES), GateDecision::Wait);
    q.push(0);
    assert_eq!(poll_gate(&q, MIN_BUFFER_SAMPLES), GateDecision::Release);
    q.push(0);
    assert_eq!(poll_gate(&q, MIN_BUFFER_SAMPLES), GateDecision::Release);
}

#[test]
fn empty_finished_stream_is_released() {
    let mut q = LockFreeBuffer::new();
    q.set_done();
    assert_eq!(poll_gate(&q, MIN_BUFFER_SAMPLES), GateDecision::Release);
    assert_eq!(poll_gate(&q, usize::MAX), GateDecision::Release);
}

#[test]
fn zero_threshold_releases_at_once() {
    let q = LockFreeBuffer::new();
    assert_eq!(poll_gate(&q, 0), GateDecision::Release);
}
