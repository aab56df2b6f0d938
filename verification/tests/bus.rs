use telemetry_core::bus::{advertise, subscribe, Input, Output};
use telemetry_core::messages::{Attitude, VideoFrame};

fn att(n: u32) -> Attitude {
    Attitude { qw: n, qx: n + 1, qy: n + 2, qz: n + 3 }
}

#[test]
fn fanout_two_subscribers() {
    let mut topic: Output<Attitude> = advertise(8);
    let a = subscribe(&mut topic);
    let b = subscribe(&mut topic);

    topic.send(att(1));
    topic.send(att(2));

    assert_eq!(topic.recv(&a), Some(att(1)));
    assert_eq!(topic.recv(&a), Some(att(2)));
    assert_eq!(topic.recv(&a), None);

    assert_eq!(topic.recv(&b), Some(att(1)));
    assert_eq!(topic.recv(&b), Some(att(2)));
    assert_eq!(topic.recv(&b), None);
}

#[test]
fn no_replay_for_late_subscriber() {
    let mut topic: Output<Attitude> = advertise(8);
    let early = subscribe(&mut topic);

    topic.send(att(1));
    let late = subscribe(&mut topic);
    topic.send(att(2));

    assert_eq!(topic.recv(&late), Some(att(2)));
    assert_eq!(topic.recv(&late), None);

    assert_eq!(topic.recv(&early), Some(att(1)));
    assert_eq!(topic.recv(&early), Some(att(2)));
    assert_eq!(topic.recv(&early), None);
}

#[test]
fn publish_never_blocks_and_keeps_newest() {
    let mut topic: Output<Attitude> = advertise(3);
    let lazy = subscribe(&mut topic);

    // The subscriber never drains; publishing must go on regardless, the
    // newest value displacing the oldest undelivered one.
    for n in 0..10 {
        topic.send(att(n));
    }

    assert_eq!(topic.recv(&lazy), Some(att(7)));
    assert_eq!(topic.recv(&lazy), Some(att(8)));
    assert_eq!(topic.recv(&lazy), Some(att(9)));
    assert_eq!(topic.recv(&lazy), None);
}

#[test]
fn publish_without_subscribers_is_dropped() {
    let mut topic: Output<Attitude> = advertise(4);
    topic.send(att(1));

    let sub = subscribe(&mut topic);
    assert_eq!(topic.recv(&sub), None);
}

#[test]
fn video_frames_fan_out_by_value() {
    let mut topic: Output<VideoFrame> = advertise(4);
    let a = subscribe(&mut topic);
    let b = subscribe(&mut topic);

    topic.send(VideoFrame { bytes: vec![1, 2, 3, 4] });

    let fa = topic.recv(&a).unwrap();
    let fb = topic.recv(&b).unwrap();
    assert_eq!(fa.bytes, vec![1, 2, 3, 4]);
    assert_eq!(fb.bytes, vec![1, 2, 3, 4]);
}

#[test]
fn unpiped_input_receives_nothing() {
    let mut topic: Output<Attitude> = advertise(4);
    let stray: Input<Attitude> = Input::new();
    topic.send(att(1));
    assert_eq!(topic.recv(&stray), None);
}

#[test]
fn pipe_binds_an_existing_input() {
    let mut topic: Output<Attitude> = advertise(4);
    let mut inp: Input<Attitude> = Input::new();
    topic.pipe(&mut inp);
    topic.send(att(5));
    assert_eq!(topic.recv(&inp), Some(att(5)));
    assert_eq!(topic.subscribers(), 1);
}
