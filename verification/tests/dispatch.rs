use telemetry_core::gateway::{Action, Event, Gateway};
use telemetry_core::http::Channel;
use telemetry_core::messages::{Attitude, SysInfo, VideoFrame};
use telemetry_core::wire::{attitude_bytes, encode_frame, sysinfo_bytes};

fn upgrade_request(channel: &str) -> Vec<u8> {
    let mut req = Vec::new();
    req.extend_from_slice(b"GET /");
    req.extend_from_slice(channel.as_bytes());
    req.extend_from_slice(b" HTTP/1.1\r\nUpgrade: websocket\r\nSec-WebSocket-Key: dGhlIHNhbXBsZSBub25jZQ==\r\n\r\n");
    req
}

fn sample_attitude() -> Attitude {
    Attitude { qw: 0x3F80_0000, qx: 0, qy: 0, qz: 0 }
}

fn sample_sysinfo() -> SysInfo {
    SysInfo { free_mem: 10, avail_mem: 20, cpu: 30, load1: 1, load5: 2, load15: 3, temp: -4 }
}

/// The bytes every action of a step writes to the given connection.
fn sent_to(acts: &[Action], conn: u64) -> Vec<Vec<u8>> {
    let mut out = Vec::new();
    for a in acts {
        if let Action::Send { conn: c, bytes } = a {
            if *c == conn {
                out.push(bytes.clone());
            }
        }
    }
    out
}

#[test]
fn http_connection_serves_file() {
    let mut gw = Gateway::new();
    let acts = gw.step(Event::Connected {
        conn: 1,
        request: b"GET /page.html HTTP/1.1\r\nHost: x\r\n\r\n".to_vec(),
    });
    assert_eq!(acts.len(), 1);
    match &acts[0] {
        Action::ServeFile { conn, file } => {
            assert_eq!(*conn, 1);
            assert_eq!(file, &b"page.html".to_vec());
        },
        _ => panic!("expected a file to serve"),
    }
    // The connection stays unattached: a page fetch subscribes to nothing.
    assert_eq!(gw.attached_conn(Channel::Video), None);
    assert_eq!(gw.attached_conn(Channel::Attitude), None);
    assert_eq!(gw.attached_conn(Channel::Sysinfo), None);
}

#[test]
fn root_connection_serves_index() {
    let mut gw = Gateway::new();
    let acts = gw.step(Event::Connected {
        conn: 1,
        request: b"GET / HTTP/1.1\r\n\r\n".to_vec(),
    });
    match &acts[0] {
        Action::ServeFile { file, .. } => assert_eq!(file, &b"index.html".to_vec()),
        _ => panic!("expected a file to serve"),
    }
}

#[test]
fn bad_request_is_closed() {
    let mut gw = Gateway::new();
    let acts = gw.step(Event::Connected { conn: 9, request: b"\x00\x01\x02".to_vec() });
    assert_eq!(acts.len(), 1);
    assert!(matches!(acts[0], Action::Close { conn: 9 }));
}

#[test]
fn upgrade_attaches_channel_and_answers() {
    let mut gw = Gateway::new();
    let acts = gw.step(Event::Connected { conn: 3, request: upgrade_request("attitude") });
    assert_eq!(acts.len(), 1);
    match &acts[0] {
        Action::Send { conn, bytes } => {
            assert_eq!(*conn, 3);
            let text = String::from_utf8(bytes.clone()).unwrap();
            assert!(text.starts_with("HTTP/1.1 101 Switching Protocols\r\n"));
            assert!(text.contains("Sec-WebSocket-Accept: s3pPLMBiTxaQ9kYGzzhZRbK+xOo=\r\n"));
        },
        _ => panic!("expected the handshake answer"),
    }
    assert_eq!(gw.attached_conn(Channel::Attitude), Some(3));
    assert_eq!(gw.attached_conn(Channel::Video), None);
}

#[test]
fn unknown_channel_upgrades_but_stays_inert() {
    let mut gw = Gateway::new();
    let acts = gw.step(Event::Connected { conn: 4, request: upgrade_request("weather") });
    assert!(matches!(&acts[0], Action::Send { conn: 4, .. }));
    assert_eq!(gw.attached_conn(Channel::Video), None);
    assert_eq!(gw.attached_conn(Channel::Attitude), None);
    assert_eq!(gw.attached_conn(Channel::Sysinfo), None);

    // Messages on every channel go nowhere.
    assert!(gw.step(Event::AttitudeMsg { att: sample_attitude() }).is_empty());
    assert!(gw.step(Event::SysInfoMsg { info: sample_sysinfo() }).is_empty());
    assert!(gw.step(Event::VideoMsg { frame: VideoFrame { bytes: vec![1] } }).is_empty());
}

#[test]
fn newer_upgrade_replaces_older() {
    let mut gw = Gateway::new();
    gw.step(Event::Connected { conn: 1, request: upgrade_request("video") });
    gw.step(Event::Connected { conn: 2, request: upgrade_request("video") });
    assert_eq!(gw.attached_conn(Channel::Video), Some(2));
}

#[test]
fn channel_isolation() {
    let mut gw = Gateway::new();
    gw.step(Event::Connected { conn: 1, request: upgrade_request("attitude") });
    gw.step(Event::Connected { conn: 2, request: upgrade_request("sysinfo") });
    gw.step(Event::Connected { conn: 3, request: upgrade_request("video") });

    let att = sample_attitude();
    let acts = gw.step(Event::AttitudeMsg { att });
    // The attitude subscriber gets exactly one frame; the others get nothing.
    assert_eq!(sent_to(&acts, 1), vec![encode_frame(&attitude_bytes(&att))]);
    assert!(sent_to(&acts, 2).is_empty());
    assert!(sent_to(&acts, 3).is_empty());

    let info = sample_sysinfo();
    let acts = gw.step(Event::SysInfoMsg { info });
    assert!(sent_to(&acts, 1).is_empty());
    assert_eq!(sent_to(&acts, 2), vec![encode_frame(&sysinfo_bytes(&info))]);
    assert!(sent_to(&acts, 3).is_empty());
}

#[test]
fn sysinfo_frame_is_seven_bytes_in_field_order() {
    let mut gw = Gateway::new();
    gw.step(Event::Connected { conn: 2, request: upgrade_request("sysinfo") });
    let info = sample_sysinfo();
    let acts = gw.step(Event::SysInfoMsg { info });
    let frames = sent_to(&acts, 2);
    assert_eq!(frames.len(), 1);
    // Header: FIN + binary opcode, 7-byte payload.
    assert_eq!(&frames[0][..2], &[0x82, 7]);
    assert_eq!(&frames[0][2..], &[10, 20, 30, 1, 2, 3, (-4i8) as u8]);
}

#[test]
fn attitude_frame_is_sixteen_little_endian_bytes() {
    let mut gw = Gateway::new();
    gw.step(Event::Connected { conn: 1, request: upgrade_request("attitude") });
    let att = Attitude { qw: 0x0102_0304, qx: 5, qy: 6, qz: 0xFFFF_FFFF };
    let acts = gw.step(Event::AttitudeMsg { att });
    let frames = sent_to(&acts, 1);
    assert_eq!(&frames[0][..2], &[0x82, 16]);
    assert_eq!(
        &frames[0][2..],
        &[4, 3, 2, 1, 5, 0, 0, 0, 6, 0, 0, 0, 0xFF, 0xFF, 0xFF, 0xFF]
    );
}

#[test]
fn dispatch_liveness_under_interleaving() {
    let mut gw = Gateway::new();
    gw.step(Event::Connected { conn: 1, request: upgrade_request("attitude") });
    gw.step(Event::Connected { conn: 2, request: upgrade_request("sysinfo") });
    gw.step(Event::Connected { conn: 3, request: upgrade_request("video") });

    let mut att_frames = Vec::new();
    let mut sys_frames = Vec::new();
    let mut vid_frames = Vec::new();

    // Interleave publishes on all three channels with fresh page fetches; no
    // channel may starve or cross into another.
    for n in 0..50u32 {
        let att = Attitude { qw: n, qx: 0, qy: 0, qz: 0 };
        let acts = gw.step(Event::AttitudeMsg { att });
        att_frames.extend(sent_to(&acts, 1));
        assert!(sent_to(&acts, 2).is_empty() && sent_to(&acts, 3).is_empty());

        let mut info = sample_sysinfo();
        info.cpu = n as u8;
        let acts = gw.step(Event::SysInfoMsg { info });
        sys_frames.extend(sent_to(&acts, 2));
        assert!(sent_to(&acts, 1).is_empty() && sent_to(&acts, 3).is_empty());

        let acts = gw.step(Event::Connected {
            conn: 100 + n as u64,
            request: b"GET /index.html HTTP/1.1\r\n\r\n".to_vec(),
        });
        assert!(matches!(acts[0], Action::ServeFile { .. }));

        let frame = VideoFrame { bytes: vec![n as u8; 3] };
        let acts = gw.step(Event::VideoMsg { frame });
        vid_frames.extend(sent_to(&acts, 3));
        assert!(sent_to(&acts, 1).is_empty() && sent_to(&acts, 2).is_empty());
    }

    assert_eq!(att_frames.len(), 50);
    assert_eq!(sys_frames.len(), 50);
    assert_eq!(vid_frames.len(), 50);
    for n in 0..50u32 {
        let att = Attitude { qw: n, qx: 0, qy: 0, qz: 0 };
        assert_eq!(att_frames[n as usize], encode_frame(&attitude_bytes(&att)));
        assert_eq!(vid_frames[n as usize], encode_frame(&vec![n as u8; 3]));
    }
    // Attachments survive the whole run.
    assert_eq!(gw.attached_conn(Channel::Attitude), Some(1));
    assert_eq!(gw.attached_conn(Channel::Sysinfo), Some(2));
    assert_eq!(gw.attached_conn(Channel::Video), Some(3));
}

#[test]
fn write_error_detaches_only_that_connection() {
    let mut gw = Gateway::new();
    gw.step(Event::Connected { conn: 1, request: upgrade_request("attitude") });
    gw.step(Event::Connected { conn: 2, request: upgrade_request("sysinfo") });

    gw.on_write_error(1);
    assert_eq!(gw.attached_conn(Channel::Attitude), None);
    assert_eq!(gw.attached_conn(Channel::Sysinfo), Some(2));

    // The dropped connection gets no further frames and is not retried.
    let acts = gw.step(Event::AttitudeMsg { att: sample_attitude() });
    assert!(acts.is_empty());
}
