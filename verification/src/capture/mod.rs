//! Passive capture: decoding link-layer frames, tracking flows and reporting what they carry.
pub mod bpf;
pub mod decode;
pub mod flow;
pub mod pcapng;
pub mod plan;
pub mod queries;
pub mod reassembly;
pub mod report;

pub use self::decode::{
    decode_packet, decode_packet_with_metadata, CapturedPacket, DecodeError, TcpMetadata,
};
pub use self::flow::{CaptureState, FlowObservation};
pub use self::pcapng::RawCaptureOptions;
pub use self::reassembly::TcpReassembler;
pub use self::report::emit_packet;
