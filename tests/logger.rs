use std::collections::BTreeMap;
use std::sync::Mutex;

use tracing_mcap::logger::{LoggerError, McapLogger};
use tracing_mcap::message::{ChannelDescriptor, McapMessage, SchemaDescriptor};
use tracing_mcap::MessageHeader;

#[derive(Clone, Copy, Debug)]
struct Pose {
    x: f32,
    y: f32,
    z: f32,
}

impl McapMessage for Pose {
    type Error = String;

    fn topic(&self) -> &'static str {
        "pose"
    }

    fn channel(&self) -> ChannelDescriptor {
        ChannelDescriptor {
            schema: Some(SchemaDescriptor {
                name: String::from("Pose"),
                encoding: String::from("jsonschema"),
                data: b"{\"type\":\"object\"}".to_vec(),
            }),
            message_encoding: String::from("le-f32x3"),
            metadata: BTreeMap::new(),
        }
    }

    fn message(&self) -> Result<Vec<u8>, String> {
        if self.x.is_nan() || self.y.is_nan() || self.z.is_nan() {
            return Err(String::from("NaN is not representable"));
        }
        let mut out = Vec::new();
        out.extend_from_slice(&self.x.to_le_bytes());
        out.extend_from_slice(&self.y.to_le_bytes());
        out.extend_from_slice(&self.z.to_le_bytes());
        Ok(out)
    }
}

#[derive(Clone, Copy, Debug)]
struct Imu {
    accel: i32,
}

impl McapMessage for Imu {
    type Error = String;

    fn topic(&self) -> &'static str {
        "imu"
    }

    fn channel(&self) -> ChannelDescriptor {
        let mut metadata = BTreeMap::new();
        metadata.insert(String::from("unit"), String::from("mm/s2"));
        ChannelDescriptor { schema: None, message_encoding: String::from("le-i32"), metadata }
    }

    fn message(&self) -> Result<Vec<u8>, String> {
        Ok(self.accel.to_le_bytes().to_vec())
    }
}

fn pose(x: f32) -> Pose {
    Pose { x, y: 2.0, z: 3.0 }
}

fn read_back(bytes: &[u8]) -> Vec<(String, u16, u32, u64, u64, Vec<u8>)> {
    mcap::MessageStream::new(bytes)
        .unwrap()
        .map(|m| {
            let m = m.unwrap();
            (m.channel.topic.clone(), m.channel.id, m.sequence, m.log_time, m.publish_time, m.data.to_vec())
        })
        .collect()
}

#[test]
fn scenario_pose_pose_imu_then_close() {
    let mut logger = McapLogger::new().unwrap();
    let h1 = logger.event(tracing::Level::TRACE, &pose(1.0)).unwrap();
    assert_eq!(h1.sequence, 0);
    let pose_channel = logger.channel_id("pose").unwrap();
    assert_eq!(h1.channel_id, pose_channel);

    let h2 = logger.event(tracing::Level::TRACE, &pose(1.5)).unwrap();
    assert_eq!(h2.sequence, 1);
    assert_eq!(h2.channel_id, pose_channel);
    assert_eq!(logger.channel_id("pose"), Some(pose_channel));

    let h3 = logger.event(tracing::Level::INFO, &Imu { accel: 7 }).unwrap();
    assert_eq!(h3.sequence, 0);
    let imu_channel = logger.channel_id("imu").unwrap();
    assert_eq!(h3.channel_id, imu_channel);
    assert_ne!(imu_channel, pose_channel);

    assert!(logger.close().is_ok());
    assert!(logger.is_closed());
    assert!(matches!(logger.event(tracing::Level::TRACE, &pose(2.0)), Err(LoggerError::Closed)));

    let bytes = logger.into_bytes();
    let records = read_back(&bytes);
    assert_eq!(records.len(), 3);
    assert_eq!(records[0].0, "pose");
    assert_eq!(records[0].2, 0);
    assert_eq!(records[1].0, "pose");
    assert_eq!(records[1].2, 1);
    assert_eq!(records[2].0, "imu");
    assert_eq!(records[2].2, 0);
    assert_eq!(records[0].1, records[1].1);
    assert_ne!(records[0].1, records[2].1);
    assert_eq!(records[2].5, 7i32.to_le_bytes().to_vec());

    let summary = mcap::Summary::read(&bytes).unwrap().unwrap();
    assert_eq!(summary.channels.len(), 2);
    assert_eq!(summary.schemas.len(), 1);
}

#[test]
fn sequence_counts_per_topic_when_interleaved() {
    let mut logger = McapLogger::new().unwrap();
    let mut pose_seqs = Vec::new();
    let mut imu_seqs = Vec::new();
    for i in 0..5 {
        pose_seqs.push(logger.event(tracing::Level::DEBUG, &pose(i as f32)).unwrap().sequence);
        if i % 2 == 0 {
            imu_seqs.push(logger.event(tracing::Level::DEBUG, &Imu { accel: i }).unwrap().sequence);
        }
    }
    assert_eq!(pose_seqs, vec![0, 1, 2, 3, 4]);
    assert_eq!(imu_seqs, vec![0, 1, 2]);
    assert_eq!(logger.last_header("pose").unwrap().sequence, 4);
    assert_eq!(logger.last_header("imu").unwrap().sequence, 2);
    assert_eq!(logger.last_header("gps"), None);
}

#[test]
fn timestamps_never_go_back() {
    let mut logger = McapLogger::new().unwrap();
    let mut prev: Option<MessageHeader> = None;
    for i in 0..50 {
        let h = logger.event(tracing::Level::WARN, &pose(i as f32)).unwrap();
        assert!(h.log_time > 0);
        if let Some(p) = prev {
            assert!(h.log_time >= p.log_time);
            assert!(h.publish_time >= p.publish_time);
        }
        prev = Some(h);
    }
    assert!(logger.close().is_ok());
    let records = read_back(&logger.into_bytes());
    assert_eq!(records.len(), 50);
    for w in records.windows(2) {
        assert!(w[1].3 >= w[0].3);
        assert!(w[1].4 >= w[0].4);
    }
}

#[test]
fn append_after_close_writes_nothing() {
    let mut logger = McapLogger::new().unwrap();
    logger.event(tracing::Level::TRACE, &pose(1.0)).unwrap();
    assert!(logger.close().is_ok());
    let before = logger.last_header("pose");
    assert!(matches!(logger.event(tracing::Level::TRACE, &pose(2.0)), Err(LoggerError::Closed)));
    assert!(matches!(logger.event(tracing::Level::TRACE, &Imu { accel: 1 }), Err(LoggerError::Closed)));
    assert_eq!(logger.last_header("pose"), before);
    assert_eq!(logger.channel_id("imu"), None);
    let records = read_back(&logger.into_bytes());
    assert_eq!(records.len(), 1);
}

#[test]
fn closing_twice_is_an_error() {
    let mut logger = McapLogger::new().unwrap();
    assert!(logger.close().is_ok());
    assert!(matches!(logger.close(), Err(LoggerError::Closed)));
    assert!(logger.is_closed());
}

#[test]
fn failed_serialization_leaves_header_unchanged() {
    let mut logger = McapLogger::new().unwrap();
    let h = logger.event(tracing::Level::TRACE, &pose(1.0)).unwrap();
    let bad = Pose { x: f32::NAN, y: 0.0, z: 0.0 };
    match logger.event(tracing::Level::TRACE, &bad) {
        Err(LoggerError::Serialization(e)) => assert_eq!(e, "NaN is not representable"),
        _ => panic!("expected a serialization error"),
    }
    assert_eq!(logger.last_header("pose"), Some(h));
    let next = logger.event(tracing::Level::TRACE, &pose(2.0)).unwrap();
    assert_eq!(next.sequence, 1);
}

#[test]
fn failed_first_serialization_registers_no_channel() {
    let mut logger = McapLogger::new().unwrap();
    let bad = Pose { x: f32::NAN, y: 0.0, z: 0.0 };
    assert!(matches!(logger.event(tracing::Level::TRACE, &bad), Err(LoggerError::Serialization(_))));
    assert_eq!(logger.channel_id("pose"), None);
    assert_eq!(logger.last_header("pose"), None);
    let h = logger.event(tracing::Level::TRACE, &pose(1.0)).unwrap();
    assert_eq!(h.sequence, 0);
    assert!(logger.close().is_ok());
    let summary = mcap::Summary::read(&logger.into_bytes()).unwrap().unwrap();
    assert_eq!(summary.channels.len(), 1);
}

#[test]
fn record_uses_given_clock_and_clamps_it() {
    let mut logger = McapLogger::new().unwrap();
    let p = pose(1.0);
    let h0 = logger.record("pose", p.message(), &p, 1_000).unwrap();
    assert_eq!(h0, MessageHeader { channel_id: h0.channel_id, sequence: 0, log_time: 1_000, publish_time: 1_000 });
    let h1 = logger.record("pose", p.message(), &p, 500).unwrap();
    assert_eq!(h1, MessageHeader { channel_id: h0.channel_id, sequence: 1, log_time: 1_000, publish_time: 1_000 });
    let h2 = logger.record("pose", p.message(), &p, 2_000).unwrap();
    assert_eq!(h2, MessageHeader { channel_id: h0.channel_id, sequence: 2, log_time: 2_000, publish_time: 2_000 });
    assert!(logger.close().is_ok());
    let records = read_back(&logger.into_bytes());
    let times: Vec<(u32, u64, u64)> = records.iter().map(|r| (r.2, r.3, r.4)).collect();
    assert_eq!(times, vec![(0, 1_000, 1_000), (1, 1_000, 1_000), (2, 2_000, 2_000)]);
    assert_eq!(records[0].5, p.message().unwrap());
}

#[test]
fn next_header_steps_and_saturates() {
    let h = MessageHeader { channel_id: 3, sequence: 4, log_time: 10, publish_time: 20 };
    assert_eq!(h.next(15), Some(MessageHeader { channel_id: 3, sequence: 5, log_time: 15, publish_time: 20 }));
    assert_eq!(MessageHeader::first(9, 42), MessageHeader { channel_id: 9, sequence: 0, log_time: 42, publish_time: 42 });
    let last = MessageHeader { channel_id: 1, sequence: u32::MAX, log_time: 0, publish_time: 0 };
    assert_eq!(last.next(1), None);
}

#[test]
fn every_level_is_recorded() {
    let mut logger = McapLogger::new().unwrap();
    let levels = [
        tracing::Level::TRACE,
        tracing::Level::DEBUG,
        tracing::Level::INFO,
        tracing::Level::WARN,
        tracing::Level::ERROR,
    ];
    for (i, level) in levels.iter().enumerate() {
        let h = logger.event(*level, &Imu { accel: i as i32 }).unwrap();
        assert_eq!(h.sequence as usize, i);
    }
}

#[test]
fn new_stream_starts_with_magic() {
    let logger = McapLogger::new().unwrap();
    assert!(!logger.is_closed());
    let bytes = logger.into_bytes();
    assert!(bytes.starts_with(b"\x89MCAP0\r\n"));
}

#[test]
fn shared_first_events_register_one_channel() {
    let logger = Mutex::new(McapLogger::new().unwrap());
    let n: u32 = 8;
    let mut seqs = Vec::new();
    for i in 0..n {
        let h = logger.lock().unwrap().event(tracing::Level::INFO, &pose(i as f32)).unwrap();
        seqs.push(h.sequence);
    }
    seqs.sort();
    assert_eq!(seqs, (0..n).collect::<Vec<u32>>());
    let mut logger = logger.into_inner().unwrap();
    assert!(logger.close().is_ok());
    let summary = mcap::Summary::read(&logger.into_bytes()).unwrap().unwrap();
    assert_eq!(summary.channels.len(), 1);
}
