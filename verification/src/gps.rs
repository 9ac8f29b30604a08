//! Byte-at-a-time decoder for the receiver's binary navigation protocol.
//!
//! A frame on the wire is `[0xB5][0x62][class][id][length, little-endian
//! u16][payload][ck_a][ck_b]`, where the checksum runs over class, id, the
//! two length bytes and the payload. The decoder recognises one message
//! (class 0x01, id 0x07) and turns its payload into a [`GpsData`] record;
//! every other well-formed frame is parsed and silently discarded.

use vstd::prelude::*;
use crate::bytes::{u16_le, u32_le, i32_le, u16_from_le, u32_from_le, i32_from_le};
use crate::checksum::{ck_add, ck_fold, checksum_of, lemma_ck_fold_push};

verus! {

/// First frame synchronisation byte.
pub const UBX_SYNC_CHAR_1: u8 = 0xB5;

/// Second frame synchronisation byte.
pub const UBX_SYNC_CHAR_2: u8 = 0x62;

/// Message class of the navigation results group.
pub const UBX_CLASS_NAV: u8 = 0x01;

/// Message id of the position/velocity/time solution.
pub const UBX_NAV_PVT: u8 = 0x07;

/// Largest payload the decoder is willing to buffer.
pub const MAX_PAYLOAD_LEN: u16 = 256;

/// Payload length below which a position/velocity/time message cannot be
/// decoded.
pub const MIN_NAV_PVT_LEN: u16 = 84;

#[derive(Clone, Copy, PartialEq, Eq, Structural)]
pub enum UbxParserState {
    WaitingForSync1,
    WaitingForSync2,
    ReadingClass,
    ReadingId,
    ReadingLength1,
    ReadingLength2,
    ReadingPayload,
    ReadingChecksum1,
    ReadingChecksum2,
}

/// One in-flight message under construction. The payload buffer is a fixed
/// array reused across frames; only the prefix up to the write index is
/// meaningful.
struct UbxMessage {
    class: u8,
    id: u8,
    length: u16,
    payload: [u8; 256],
    checksum_a: u8,
    checksum_b: u8,
}

impl UbxMessage {
    fn new() -> (m: UbxMessage)
        ensures
            m.class == 0,
            m.id == 0,
            m.length == 0,
            m.checksum_a == 0,
            m.checksum_b == 0,
    {
        UbxMessage {
            class: 0,
            id: 0,
            length: 0,
            payload: [0; 256],
            checksum_a: 0,
            checksum_b: 0,
        }
    }
}

/// Position/velocity/time record decoded from one validated navigation
/// message. If `valid` is false the positional fields still hold the decoded
/// numbers but do not represent a real fix.
#[derive(Clone, Copy, PartialEq, Eq, Structural, Debug)]
pub struct GpsData {
    pub valid: bool,
    pub year: u16,
    pub month: u8,
    pub day: u8,
    pub hour: u8,
    pub minute: u8,
    pub second: u8,
    /// Nanosecond offset of the timestamp.
    pub nano: i32,
    /// Latitude in 1e-7 degrees.
    pub latitude: i32,
    /// Longitude in 1e-7 degrees.
    pub longitude: i32,
    /// Height above mean sea level in millimetres.
    pub height_msl: i32,
    /// Horizontal accuracy estimate in millimetres.
    pub horizontal_accuracy: u32,
    /// Vertical accuracy estimate in millimetres.
    pub vertical_accuracy: u32,
    /// Ground speed in millimetres per second.
    pub ground_speed: i32,
    /// Number of satellites used in the solution.
    pub satellites: u8,
}

impl GpsData {
    pub fn new() -> (g: GpsData)
        ensures
            g == GpsData::zeroed(),
    {
        GpsData {
            valid: false,
            year: 0,
            month: 0,
            day: 0,
            hour: 0,
            minute: 0,
            second: 0,
            nano: 0,
            latitude: 0,
            longitude: 0,
            height_msl: 0,
            horizontal_accuracy: 0,
            vertical_accuracy: 0,
            ground_speed: 0,
            satellites: 0,
        }
    }

    /// The all-zero record, reported as not valid.
    pub open spec fn zeroed() -> GpsData {
        GpsData {
            valid: false,
            year: 0,
            month: 0,
            day: 0,
            hour: 0,
            minute: 0,
            second: 0,
            nano: 0,
            latitude: 0,
            longitude: 0,
            height_msl: 0,
            horizontal_accuracy: 0,
            vertical_accuracy: 0,
            ground_speed: 0,
            satellites: 0,
        }
    }
}

/// Mathematical snapshot of the decoder: its state, the frame under
/// construction, the running checksum accumulators, and the first received
/// checksum byte.
#[verifier::ext_equal]
pub struct DecoderModel {
    pub state: UbxParserState,
    pub class: u8,
    pub id: u8,
    pub length: u16,
    pub payload: Seq<u8>,
    pub ck_a: u8,
    pub ck_b: u8,
    pub recv_ck_a: u8,
}

/// The decoder as it starts, and as it returns after every terminal
/// transition: waiting for the first sync byte with the frame logically
/// zeroed.
pub open spec fn init_model() -> DecoderModel {
    DecoderModel {
        state: UbxParserState::WaitingForSync1,
        class: 0,
        id: 0,
        length: 0,
        payload: Seq::empty(),
        ck_a: 0,
        ck_b: 0,
        recv_ck_a: 0,
    }
}

impl DecoderModel {
    /// Structural invariant relating the buffered payload to the declared
    /// length in each state.
    pub open spec fn wf(self) -> bool {
        &&& (self.state is ReadingLength2 ==> self.length < 0x100)
        &&& (self.state is ReadingPayload ==> 0 < self.length <= MAX_PAYLOAD_LEN
            && self.payload.len() < self.length)
        &&& ((self.state is ReadingChecksum1 || self.state is ReadingChecksum2)
            ==> self.payload.len() == self.length)
    }
}

/// The record extracted from a navigation position/velocity/time payload of
/// at least [`MIN_NAV_PVT_LEN`] bytes: fixed little-endian fields at fixed
/// offsets, and the validity rule `fix type >= 3 and bit 0 of flags set`.
pub open spec fn spec_nav_pvt(p: Seq<u8>) -> GpsData
    recommends
        p.len() >= MIN_NAV_PVT_LEN,
{
    GpsData {
        valid: p[20] >= 3 && p[21] % 2 == 1,
        year: u16_le(p[4], p[5]),
        month: p[6],
        day: p[7],
        hour: p[8],
        minute: p[9],
        second: p[10],
        nano: i32_le(p[16], p[17], p[18], p[19]),
        latitude: i32_le(p[28], p[29], p[30], p[31]),
        longitude: i32_le(p[24], p[25], p[26], p[27]),
        height_msl: i32_le(p[36], p[37], p[38], p[39]),
        horizontal_accuracy: u32_le(p[40], p[41], p[42], p[43]),
        vertical_accuracy: u32_le(p[44], p[45], p[46], p[47]),
        ground_speed: i32_le(p[60], p[61], p[62], p[63]),
        satellites: p[23],
    }
}

/// What a checksum-valid frame yields: a record exactly for the recognised
/// class and id with a payload long enough to decode, and nothing otherwise.
pub open spec fn spec_process(class: u8, id: u8, length: u16, payload: Seq<u8>) -> Option<GpsData> {
    if class == UBX_CLASS_NAV && id == UBX_NAV_PVT {
        if length >= MIN_NAV_PVT_LEN {
            Some(spec_nav_pvt(payload))
        } else {
            None
        }
    } else {
        None
    }
}

/// The decoder's complete transition function: the state after consuming one
/// byte, and the record that byte yields, if any.
pub open spec fn spec_consume(m: DecoderModel, byte: u8) -> (DecoderModel, Option<GpsData>) {
    match m.state {
        UbxParserState::WaitingForSync1 => {
            if byte == UBX_SYNC_CHAR_1 {
                (DecoderModel { state: UbxParserState::WaitingForSync2, ..m }, None)
            } else {
                (m, None)
            }
        },
        UbxParserState::WaitingForSync2 => {
            if byte == UBX_SYNC_CHAR_2 {
                (DecoderModel { state: UbxParserState::ReadingClass, ck_a: 0, ck_b: 0, ..m }, None)
            } else {
                (init_model(), None)
            }
        },
        UbxParserState::ReadingClass => {
            let a = ck_add(m.ck_a, byte);
            (DecoderModel {
                state: UbxParserState::ReadingId,
                class: byte,
                ck_a: a,
                ck_b: ck_add(m.ck_b, a),
                ..m
            }, None)
        },
        UbxParserState::ReadingId => {
            let a = ck_add(m.ck_a, byte);
            (DecoderModel {
                state: UbxParserState::ReadingLength1,
                id: byte,
                ck_a: a,
                ck_b: ck_add(m.ck_b, a),
                ..m
            }, None)
        },
        UbxParserState::ReadingLength1 => {
            let a = ck_add(m.ck_a, byte);
            (DecoderModel {
                state: UbxParserState::ReadingLength2,
                length: byte as u16,
                ck_a: a,
                ck_b: ck_add(m.ck_b, a),
                ..m
            }, None)
        },
        UbxParserState::ReadingLength2 => {
            let a = ck_add(m.ck_a, byte);
            let b = ck_add(m.ck_b, a);
            let full = (m.length + byte * 0x100) as u16;
            if full == 0 {
                (DecoderModel {
                    state: UbxParserState::ReadingChecksum1,
                    length: full,
                    payload: Seq::empty(),
                    ck_a: a,
                    ck_b: b,
                    ..m
                }, None)
            } else if full <= MAX_PAYLOAD_LEN {
                (DecoderModel {
                    state: UbxParserState::ReadingPayload,
                    length: full,
                    payload: Seq::empty(),
                    ck_a: a,
                    ck_b: b,
                    ..m
                }, None)
            } else {
                (init_model(), None)
            }
        },
        UbxParserState::ReadingPayload => {
            if m.payload.len() < m.length {
                let p = m.payload.push(byte);
                let a = ck_add(m.ck_a, byte);
                (DecoderModel {
                    state: if p.len() >= m.length {
                        UbxParserState::ReadingChecksum1
                    } else {
                        UbxParserState::ReadingPayload
                    },
                    payload: p,
                    ck_a: a,
                    ck_b: ck_add(m.ck_b, a),
                    ..m
                }, None)
            } else {
                (init_model(), None)
            }
        },
        UbxParserState::ReadingChecksum1 => {
            (DecoderModel {
                state: UbxParserState::ReadingChecksum2,
                recv_ck_a: byte,
                ..m
            }, None)
        },
        UbxParserState::ReadingChecksum2 => {
            if m.ck_a == m.recv_ck_a && m.ck_b == byte {
                (init_model(), spec_process(m.class, m.id, m.length, m.payload))
            } else {
                (init_model(), None)
            }
        },
    }
}

/// True when consuming `byte` in model `m` ends a frame whose received
/// checksum does not match the computed one: the event the decoder counts as
/// a diagnostic while it discards the frame.
pub open spec fn checksum_mismatch(m: DecoderModel, byte: u8) -> bool {
    m.state is ReadingChecksum2 && !(m.ck_a == m.recv_ck_a && m.ck_b == byte)
}

/// Streaming frame decoder: owns one in-flight frame, the running checksum
/// accumulators, and a count of checksum mismatches seen so far.
pub struct UbxParser {
    state: UbxParserState,
    message: UbxMessage,
    payload_index: usize,
    calculated_checksum_a: u8,
    calculated_checksum_b: u8,
    checksum_errors: u64,
}

impl View for UbxParser {
    type V = DecoderModel;

    closed spec fn view(&self) -> DecoderModel {
        DecoderModel {
            state: self.state,
            class: self.message.class,
            id: self.message.id,
            length: self.message.length,
            payload: self.message.payload@.take(self.payload_index as int),
            ck_a: self.calculated_checksum_a,
            ck_b: self.calculated_checksum_b,
            recv_ck_a: self.message.checksum_a,
        }
    }
}

impl UbxParser {
    /// The decoder's invariant: the payload write index stays within the
    /// buffer, and the buffered prefix agrees with the declared length as
    /// the state requires.
    pub closed spec fn inv(&self) -> bool {
        self.payload_index <= 256 && self@.wf()
    }

    /// How many frames have been discarded for a checksum mismatch since the
    /// decoder was created.
    pub closed spec fn spec_checksum_errors(&self) -> u64 {
        self.checksum_errors
    }

    /// Diagnostic side channel: the number of checksum mismatches seen.
    pub fn checksum_errors(&self) -> (n: u64)
        ensures
            n == self.spec_checksum_errors(),
    {
        self.checksum_errors
    }

    pub fn new() -> (p: UbxParser)
        ensures
            p@ == init_model(),
            p.inv(),
            p.spec_checksum_errors() == 0,
    {
        let p = UbxParser {
            state: UbxParserState::WaitingForSync1,
            message: UbxMessage::new(),
            payload_index: 0,
            calculated_checksum_a: 0,
            calculated_checksum_b: 0,
            checksum_errors: 0,
        };
        proof {
            assert(p@ =~= init_model());
        }
        p
    }

    /// Rewind to the initial state, logically zeroing the in-flight frame:
    /// the write index is rewound and the buffer is reused as it stands.
    fn reset(&mut self)
        ensures
            final(self)@ == init_model(),
            final(self).inv(),
            final(self).spec_checksum_errors() == old(self).spec_checksum_errors(),
    {
        self.state = UbxParserState::WaitingForSync1;
        self.message.class = 0;
        self.message.id = 0;
        self.message.length = 0;
        self.payload_index = 0;
        self.message.checksum_a = 0;
        self.message.checksum_b = 0;
        self.calculated_checksum_a = 0;
        self.calculated_checksum_b = 0;
        proof {
            assert(self@ =~= init_model());
        }
    }

    /// Fold one byte into the running checksum accumulators.
    fn calculate_checksum(&mut self, byte: u8)
        ensures
            final(self).calculated_checksum_a == ck_add(old(self).calculated_checksum_a, byte),
            final(self).calculated_checksum_b == ck_add(
                old(self).calculated_checksum_b,
                ck_add(old(self).calculated_checksum_a, byte),
            ),
            final(self).state == old(self).state,
            final(self).message == old(self).message,
            final(self).payload_index == old(self).payload_index,
            final(self).checksum_errors == old(self).checksum_errors,
    {
        self.calculated_checksum_a = self.calculated_checksum_a.wrapping_add(byte);
        self.calculated_checksum_b = self.calculated_checksum_b.wrapping_add(
            self.calculated_checksum_a,
        );
    }

    /// Consume one byte from the wire. Yields a record exactly when that
    /// byte completes a checksum-valid frame of the recognised class and id
    /// whose payload is long enough to decode; counts every frame discarded
    /// for a checksum mismatch.
    pub fn parse_byte(&mut self, byte: u8) -> (r: Option<GpsData>)
        requires
            old(self).inv(),
        ensures
            final(self)@ == spec_consume(old(self)@, byte).0,
            r == spec_consume(old(self)@, byte).1,
            final(self).inv(),
            final(self).spec_checksum_errors() == (if checksum_mismatch(old(self)@, byte) {
                if old(self).spec_checksum_errors() < u64::MAX {
                    (old(self).spec_checksum_errors() + 1) as u64
                } else {
                    u64::MAX
                }
            } else {
                old(self).spec_checksum_errors()
            }),
    {
        match self.state {
            UbxParserState::WaitingForSync1 => {
                if byte == UBX_SYNC_CHAR_1 {
                    self.state = UbxParserState::WaitingForSync2;
                }
                proof {
                    assert(self@ =~= spec_consume(old(self)@, byte).0);
                }
            },
            UbxParserState::WaitingForSync2 => {
                if byte == UBX_SYNC_CHAR_2 {
                    self.state = UbxParserState::ReadingClass;
                    self.calculated_checksum_a = 0;
                    self.calculated_checksum_b = 0;
                    proof {
                        assert(self@ =~= spec_consume(old(self)@, byte).0);
                    }
                } else {
                    self.reset();
                }
            },
            UbxParserState::ReadingClass => {
                self.message.class = byte;
                self.calculate_checksum(byte);
                self.state = UbxParserState::ReadingId;
                proof {
                    assert(self@ =~= spec_consume(old(self)@, byte).0);
                }
            },
            UbxParserState::ReadingId => {
                self.message.id = byte;
                self.calculate_checksum(byte);
                self.state = UbxParserState::ReadingLength1;
                proof {
                    assert(self@ =~= spec_consume(old(self)@, byte).0);
                }
            },
            UbxParserState::ReadingLength1 => {
                self.message.length = byte as u16;
                self.calculate_checksum(byte);
                self.state = UbxParserState::ReadingLength2;
                proof {
                    assert(self@ =~= spec_consume(old(self)@, byte).0);
                }
            },
            UbxParserState::ReadingLength2 => {
                self.message.length = self.message.length + (byte as u16) * 0x100;
                self.calculate_checksum(byte);
                self.payload_index = 0;
                if self.message.length == 0 {
                    self.state = UbxParserState::ReadingChecksum1;
                    proof {
                        assert(self@ =~= spec_consume(old(self)@, byte).0);
                    }
                } else if self.message.length <= MAX_PAYLOAD_LEN {
                    self.state = UbxParserState::ReadingPayload;
                    proof {
                        assert(self@ =~= spec_consume(old(self)@, byte).0);
                    }
                } else {
                    // Oversized frame: drop it and resynchronise.
                    self.reset();
                }
            },
            UbxParserState::ReadingPayload => {
                if self.payload_index < self.message.length as usize {
                    self.message.payload[self.payload_index] = byte;
                    self.payload_index = self.payload_index + 1;
                    self.calculate_checksum(byte);
                    if self.payload_index >= self.message.length as usize {
                        self.state = UbxParserState::ReadingChecksum1;
                    }
                    proof {
                        assert(self.message.payload@.take(self.payload_index as int)
                            =~= old(self)@.payload.push(byte));
                        assert(self@ =~= spec_consume(old(self)@, byte).0);
                    }
                } else {
                    // Defensive: never write past the declared length.
                    self.reset();
                }
            },
            UbxParserState::ReadingChecksum1 => {
                self.message.checksum_a = byte;
                self.state = UbxParserState::ReadingChecksum2;
                proof {
                    assert(self@ =~= spec_consume(old(self)@, byte).0);
                }
            },
            UbxParserState::ReadingChecksum2 => {
                self.message.checksum_b = byte;
                if self.calculated_checksum_a == self.message.checksum_a
                    && self.calculated_checksum_b == self.message.checksum_b {
                    let result = self.process_message();
                    self.reset();
                    return result;
                }
                // Checksum mismatch: count the diagnostic, discard the frame.
                if self.checksum_errors < u64::MAX {
                    self.checksum_errors = self.checksum_errors + 1;
                }
                self.reset();
            },
        }
        None
    }

    /// Decode the completed frame when its class and id are the recognised
    /// ones; swallow every other message.
    fn process_message(&self) -> (r: Option<GpsData>)
        requires
            self.payload_index <= 256,
            self.payload_index == self.message.length as usize,
        ensures
            r == spec_process(self@.class, self@.id, self@.length, self@.payload),
    {
        if self.message.class == UBX_CLASS_NAV && self.message.id == UBX_NAV_PVT {
            return self.parse_nav_pvt();
        }
        None
    }

    /// Extract the position/velocity/time record from the buffered payload.
    fn parse_nav_pvt(&self) -> (r: Option<GpsData>)
        requires
            self.payload_index <= 256,
            self.payload_index == self.message.length as usize,
        ensures
            self@.length >= MIN_NAV_PVT_LEN ==> r == Some(spec_nav_pvt(self@.payload)),
            self@.length < MIN_NAV_PVT_LEN ==> r is None,
    {
        if self.message.length < MIN_NAV_PVT_LEN {
            return None;
        }
        let p = &self.message.payload;
        proof {
            assert(forall|k: int|
                0 <= k < self.payload_index ==> self@.payload[k] == self.message.payload@[k]);
        }

        let year = u16_from_le(p[4], p[5]);
        let month = p[6];
        let day = p[7];
        let hour = p[8];
        let minute = p[9];
        let second = p[10];

        let nano = i32_from_le(p[16], p[17], p[18], p[19]);
        let fix_type = p[20];
        let flags = p[21];
        let num_sv = p[23];

        let longitude = i32_from_le(p[24], p[25], p[26], p[27]);
        let latitude = i32_from_le(p[28], p[29], p[30], p[31]);
        let h_msl = i32_from_le(p[36], p[37], p[38], p[39]);
        let h_acc = u32_from_le(p[40], p[41], p[42], p[43]);
        let v_acc = u32_from_le(p[44], p[45], p[46], p[47]);
        let g_speed = i32_from_le(p[60], p[61], p[62], p[63]);

        let has_valid_fix = fix_type >= 3 && (flags & 0x01) != 0;
        proof {
            assert((flags & 0x01) == flags % 2) by (bit_vector);
        }

        Some(GpsData {
            valid: has_valid_fix,
            year,
            month,
            day,
            hour,
            minute,
            second,
            nano,
            latitude,
            longitude,
            height_msl: h_msl,
            horizontal_accuracy: h_acc,
            vertical_accuracy: v_acc,
            ground_speed: g_speed,
            satellites: num_sv,
        })
    }
}

/// The checksummed span of a frame: class, id, the little-endian length
/// bytes, then the payload.
pub open spec fn frame_body(class: u8, id: u8, payload: Seq<u8>) -> Seq<u8>
    recommends
        payload.len() <= 0xFFFF,
{
    seq![class, id, (payload.len() % 0x100) as u8, (payload.len() / 0x100) as u8] + payload
}

/// The checksum a well-formed frame carries in its final two bytes.
pub open spec fn frame_checksum(class: u8, id: u8, payload: Seq<u8>) -> (u8, u8) {
    checksum_of(frame_body(class, id, payload))
}

/// A complete well-formed frame for the given class, id and payload: sync
/// bytes, body, and the matching checksum.
pub open spec fn frame_bytes(class: u8, id: u8, payload: Seq<u8>) -> Seq<u8> {
    seq![UBX_SYNC_CHAR_1, UBX_SYNC_CHAR_2] + frame_body(class, id, payload) + seq![
        frame_checksum(class, id, payload).0,
        frame_checksum(class, id, payload).1,
    ]
}

/// Payload of the port-configuration command: UART1, 8N1, 38400 baud, the
/// binary protocol alone on input and output.
pub open spec fn port_config_payload() -> Seq<u8> {
    seq![
        0x01u8, 0x00, 0x00, 0x00, 0x00, 0x23, 0x00, 0x23, 0x00, 0x96, 0x00, 0x00, 0x01, 0x00,
        0x01, 0x00, 0x00, 0x00, 0x00, 0x00,
    ]
}

/// Payload of the message-rate command: emit the navigation
/// position/velocity/time message once per solution.
pub open spec fn enable_nav_pvt_payload() -> Seq<u8> {
    seq![UBX_CLASS_NAV, UBX_NAV_PVT, 0x01u8]
}

/// The fixed configuration commands sent once at session start.
pub struct UbxConfig;

impl UbxConfig {
    /// Command that configures the port for binary-protocol output only,
    /// disabling the text protocol: a well-formed frame whose trailing bytes
    /// are the checksum of its body.
    #[verifier::rlimit(100)]
    pub fn get_port_config_ubx_only() -> (r: [u8; 28])
        ensures
            r@ == frame_bytes(0x06, 0x00, port_config_payload()),
    {
        let cmd: [u8; 28] = [
            0xB5, 0x62,  // sync bytes
            0x06, 0x00,  // class CFG, id PRT (port configuration)
            0x14, 0x00,  // length (20 bytes)
            0x01,        // port id (1 = UART1)
            0x00,        // reserved
            0x00, 0x00,  // TX-ready pin configuration
            0x00, 0x23, 0x00, 0x23,  // UART mode (8N1)
            0x00, 0x96, 0x00, 0x00,  // baud rate (38400)
            0x01, 0x00,  // input protocols (binary only)
            0x01, 0x00,  // output protocols (binary only)
            0x00, 0x00,  // flags
            0x00, 0x00,  // reserved
            0xF9, 0xB0,  // checksum
        ];
        proof {
            let z = (0u8, 0u8);
            let b0 = Seq::<u8>::empty();
            assert(ck_fold(z, b0) == z);
            let b1 = b0.push(0x06);
            lemma_ck_fold_push(z, b0, 0x06);
            assert(ck_fold(z, b1) == (0x06u8, 0x06u8));
            let b2 = b1.push(0x00);
            lemma_ck_fold_push(z, b1, 0x00);
            assert(ck_fold(z, b2) == (0x06u8, 0x0Cu8));
            let b3 = b2.push(0x14);
            lemma_ck_fold_push(z, b2, 0x14);
            assert(ck_fold(z, b3) == (0x1Au8, 0x26u8));
            let b4 = b3.push(0x00);
            lemma_ck_fold_push(z, b3, 0x00);
            assert(ck_fold(z, b4) == (0x1Au8, 0x40u8));
            let b5 = b4.push(0x01);
            lemma_ck_fold_push(z, b4, 0x01);
            assert(ck_fold(z, b5) == (0x1Bu8, 0x5Bu8));
            let b6 = b5.push(0x00);
            lemma_ck_fold_push(z, b5, 0x00);
            assert(ck_fold(z, b6) == (0x1Bu8, 0x76u8));
            let b7 = b6.push(0x00);
            lemma_ck_fold_push(z, b6, 0x00);
            assert(ck_fold(z, b7) == (0x1Bu8, 0x91u8));
            let b8 = b7.push(0x00);
            lemma_ck_fold_push(z, b7, 0x00);
            assert(ck_fold(z, b8) == (0x1Bu8, 0xACu8));
            let b9 = b8.push(0x00);
            lemma_ck_fold_push(z, b8, 0x00);
            assert(ck_fold(z, b9) == (0x1Bu8, 0xC7u8));
            let b10 = b9.push(0x23);
            lemma_ck_fold_push(z, b9, 0x23);
            assert(ck_fold(z, b10) == (0x3Eu8, 0x05u8));
            let b11 = b10.push(0x00);
            lemma_ck_fold_push(z, b10, 0x00);
            assert(ck_fold(z, b11) == (0x3Eu8, 0x43u8));
            let b12 = b11.push(0x23);
            lemma_ck_fold_push(z, b11, 0x23);
            assert(ck_fold(z, b12) == (0x61u8, 0xA4u8));
            let b13 = b12.push(0x00);
            lemma_ck_fold_push(z, b12, 0x00);
            assert(ck_fold(z, b13) == (0x61u8, 0x05u8));
            let b14 = b13.push(0x96);
            lemma_ck_fold_push(z, b13, 0x96);
            assert(ck_fold(z, b14) == (0xF7u8, 0xFCu8));
            let b15 = b14.push(0x00);
            lemma_ck_fold_push(z, b14, 0x00);
            assert(ck_fold(z, b15) == (0xF7u8, 0xF3u8));
            let b16 = b15.push(0x00);
            lemma_ck_fold_push(z, b15, 0x00);
            assert(ck_fold(z, b16) == (0xF7u8, 0xEAu8));
            let b17 = b16.push(0x01);
            lemma_ck_fold_push(z, b16, 0x01);
            assert(ck_fold(z, b17) == (0xF8u8, 0xE2u8));
            let b18 = b17.push(0x00);
            lemma_ck_fold_push(z, b17, 0x00);
            assert(ck_fold(z, b18) == (0xF8u8, 0xDAu8));
            let b19 = b18.push(0x01);
            lemma_ck_fold_push(z, b18, 0x01);
            assert(ck_fold(z, b19) == (0xF9u8, 0xD3u8));
            let b20 = b19.push(0x00);
            lemma_ck_fold_push(z, b19, 0x00);
            assert(ck_fold(z, b20) == (0xF9u8, 0xCCu8));
            let b21 = b20.push(0x00);
            lemma_ck_fold_push(z, b20, 0x00);
            assert(ck_fold(z, b21) == (0xF9u8, 0xC5u8));
            let b22 = b21.push(0x00);
            lemma_ck_fold_push(z, b21, 0x00);
            assert(ck_fold(z, b22) == (0xF9u8, 0xBEu8));
            let b23 = b22.push(0x00);
            lemma_ck_fold_push(z, b22, 0x00);
            assert(ck_fold(z, b23) == (0xF9u8, 0xB7u8));
            let b24 = b23.push(0x00);
            lemma_ck_fold_push(z, b23, 0x00);
            assert(ck_fold(z, b24) == (0xF9u8, 0xB0u8));
            assert(b24 =~= frame_body(0x06, 0x00, port_config_payload()));
            assert(frame_checksum(0x06, 0x00, port_config_payload()) == (0xF9u8, 0xB0u8));
            assert(cmd@ =~= frame_bytes(0x06, 0x00, port_config_payload()));
        }
        cmd
    }

    /// Command that enables the navigation position/velocity/time message at
    /// one emission per solution: a well-formed frame whose trailing bytes
    /// are the checksum of its body.
    #[verifier::rlimit(40)]
    pub fn get_enable_nav_pvt() -> (r: [u8; 11])
        ensures
            r@ == frame_bytes(0x06, 0x01, enable_nav_pvt_payload()),
    {
        let cmd: [u8; 11] = [
            0xB5, 0x62,  // sync bytes
            0x06, 0x01,  // class CFG, id MSG
            0x03, 0x00,  // length (3 bytes)
            0x01, 0x07,  // message class and id (the navigation solution)
            0x01,        // rate (1 = output every solution)
            0x13, 0x51,  // checksum
        ];
        proof {
            let z = (0u8, 0u8);
            let b0 = Seq::<u8>::empty();
            let b1 = b0.push(0x06);
            lemma_ck_fold_push(z, b0, 0x06);
            let b2 = b1.push(0x01);
            lemma_ck_fold_push(z, b1, 0x01);
            let b3 = b2.push(0x03);
            lemma_ck_fold_push(z, b2, 0x03);
            let b4 = b3.push(0x00);
            lemma_ck_fold_push(z, b3, 0x00);
            let b5 = b4.push(0x01);
            lemma_ck_fold_push(z, b4, 0x01);
            let b6 = b5.push(0x07);
            lemma_ck_fold_push(z, b5, 0x07);
            let b7 = b6.push(0x01);
            lemma_ck_fold_push(z, b6, 0x01);
            assert(b7 =~= frame_body(0x06, 0x01, enable_nav_pvt_payload()));
            assert(frame_checksum(0x06, 0x01, enable_nav_pvt_payload()) == (0x13u8, 0x51u8));
            assert(cmd@ =~= frame_bytes(0x06, 0x01, enable_nav_pvt_payload()));
        }
        cmd
    }
}

} // verus!
