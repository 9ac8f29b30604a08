//! The decoder's behaviour over whole byte sequences: silence while no sync
//! pattern arrives, exact decoding of well-formed frames, rejection of
//! corrupted and oversized frames, and resynchronisation after every frame.

use vstd::prelude::*;
use crate::gps::{
    DecoderModel, GpsData, UbxParserState, init_model, spec_consume, spec_process, spec_nav_pvt,
    frame_body, frame_checksum, frame_bytes, enable_nav_pvt_payload,
    UBX_SYNC_CHAR_1, UBX_SYNC_CHAR_2, UBX_CLASS_NAV, UBX_NAV_PVT, MAX_PAYLOAD_LEN,
    MIN_NAV_PVT_LEN,
};
use crate::checksum::{
    ck_add, ck_fold, checksum_of, lemma_ck_fold_push, lemma_ck_fold_concat,
    lemma_checksum_detects_change,
};
use vstd::arithmetic::div_mod::lemma_fundamental_div_mod;

verus! {

/// The decoder state after consuming all of `s`, byte by byte, from `m`.
pub open spec fn run_state(m: DecoderModel, s: Seq<u8>) -> DecoderModel
    decreases s.len(),
{
    if s.len() == 0 {
        m
    } else {
        spec_consume(run_state(m, s.drop_last()), s.last()).0
    }
}

/// The record yielded while consuming byte `i` of `s`, starting from `m`.
pub open spec fn byte_out(m: DecoderModel, s: Seq<u8>, i: int) -> Option<GpsData>
    recommends
        0 <= i < s.len(),
{
    spec_consume(run_state(m, s.take(i)), s[i]).1
}

/// Consuming one more byte is one more transition.
pub proof fn lemma_run_push(m: DecoderModel, s: Seq<u8>, x: u8)
    ensures
        run_state(m, s.push(x)) == spec_consume(run_state(m, s), x).0,
{
    assert(s.push(x).drop_last() =~= s);
}

/// Consuming a concatenation consumes the two parts in turn.
pub proof fn lemma_run_concat(m: DecoderModel, s1: Seq<u8>, s2: Seq<u8>)
    ensures
        run_state(m, s1 + s2) == run_state(run_state(m, s1), s2),
    decreases s2.len(),
{
    if s2.len() == 0 {
        assert(s1 + s2 =~= s1);
    } else {
        lemma_run_concat(m, s1, s2.drop_last());
        assert((s1 + s2).drop_last() =~= s1 + s2.drop_last());
        assert((s1 + s2).last() == s2.last());
    }
}

/// The header of an envelope: both sync bytes, class, id and the two length
/// bytes.
pub open spec fn header_bytes(class: u8, id: u8, lo: u8, hi: u8) -> Seq<u8> {
    seq![UBX_SYNC_CHAR_1, UBX_SYNC_CHAR_2, class, id, lo, hi]
}

/// Where the decoder stands after a header: ready for the checksum when the
/// declared length is zero, reading the payload when it fits the buffer, and
/// back at the start when it does not.
pub open spec fn header_result(class: u8, id: u8, lo: u8, hi: u8) -> DecoderModel {
    let len = (lo + hi * 0x100) as u16;
    let folded = ck_fold((0u8, 0u8), seq![class, id, lo, hi]);
    if len == 0 {
        DecoderModel {
            state: UbxParserState::ReadingChecksum1,
            class: class,
            id: id,
            length: len,
            payload: Seq::empty(),
            ck_a: folded.0,
            ck_b: folded.1,
            recv_ck_a: 0,
        }
    } else if len <= MAX_PAYLOAD_LEN {
        DecoderModel {
            state: UbxParserState::ReadingPayload,
            class: class,
            id: id,
            length: len,
            payload: Seq::empty(),
            ck_a: folded.0,
            ck_b: folded.1,
            recv_ck_a: 0,
        }
    } else {
        init_model()
    }
}

/// Feeding a fresh decoder a frame header yields no record and leaves it
/// exactly at [`header_result`].
#[verifier::rlimit(100)]
pub proof fn lemma_run_header(class: u8, id: u8, lo: u8, hi: u8)
    ensures
        run_state(init_model(), header_bytes(class, id, lo, hi)) == header_result(
            class,
            id,
            lo,
            hi,
        ),
        forall|i: int|
            0 <= i < 6 ==> #[trigger] byte_out(init_model(), header_bytes(class, id, lo, hi), i)
                is None,
{
    let h = header_bytes(class, id, lo, hi);
    let im = init_model();
    let z = (0u8, 0u8);
    let t0 = Seq::<u8>::empty();
    let t1 = t0.push(UBX_SYNC_CHAR_1);
    let t2 = t1.push(UBX_SYNC_CHAR_2);
    let t3 = t2.push(class);
    let t4 = t3.push(id);
    let t5 = t4.push(lo);
    let t6 = t5.push(hi);
    lemma_run_push(im, t0, UBX_SYNC_CHAR_1);
    lemma_run_push(im, t1, UBX_SYNC_CHAR_2);
    lemma_run_push(im, t2, class);
    lemma_run_push(im, t3, id);
    lemma_run_push(im, t4, lo);
    lemma_run_push(im, t5, hi);
    assert(t0 =~= h.take(0));
    assert(t1 =~= h.take(1));
    assert(t2 =~= h.take(2));
    assert(t3 =~= h.take(3));
    assert(t4 =~= h.take(4));
    assert(t5 =~= h.take(5));
    assert(t6 =~= h);

    let a1 = ck_add(0u8, class);
    let d1 = ck_add(0u8, a1);
    let a2 = ck_add(a1, id);
    let d2 = ck_add(d1, a2);
    let a3 = ck_add(a2, lo);
    let d3 = ck_add(d2, a3);
    let a4 = ck_add(a3, hi);
    let d4 = ck_add(d3, a4);

    assert(run_state(im, t0) == im);
    let m1 = run_state(im, t1);
    assert(m1 =~= (DecoderModel { state: UbxParserState::WaitingForSync2, ..im }));
    let m2 = run_state(im, t2);
    assert(m2 =~= (DecoderModel { state: UbxParserState::ReadingClass, ..im }));
    let m3 = run_state(im, t3);
    assert(m3 =~= (DecoderModel {
        state: UbxParserState::ReadingId,
        class: class,
        ck_a: a1,
        ck_b: d1,
        ..im
    }));
    let m4 = run_state(im, t4);
    assert(m4 =~= (DecoderModel {
        state: UbxParserState::ReadingLength1,
        class: class,
        id: id,
        ck_a: a2,
        ck_b: d2,
        ..im
    }));
    let m5 = run_state(im, t5);
    assert(m5 =~= (DecoderModel {
        state: UbxParserState::ReadingLength2,
        class: class,
        id: id,
        length: lo as u16,
        ck_a: a3,
        ck_b: d3,
        ..im
    }));
    let m6 = run_state(im, t6);

    assert(ck_fold(z, seq![class, id, lo, hi]) == (a4, d4)) by {
        let b0 = Seq::<u8>::empty();
        let b1 = b0.push(class);
        let b2 = b1.push(id);
        let b3 = b2.push(lo);
        let b4 = b3.push(hi);
        lemma_ck_fold_push(z, b0, class);
        lemma_ck_fold_push(z, b1, id);
        lemma_ck_fold_push(z, b2, lo);
        lemma_ck_fold_push(z, b3, hi);
        assert(ck_fold(z, b0) == z);
        assert(ck_fold(z, b1) == (a1, d1));
        assert(ck_fold(z, b2) == (a2, d2));
        assert(ck_fold(z, b3) == (a3, d3));
        assert(ck_fold(z, b4) == (a4, d4));
        assert(b4 =~= seq![class, id, lo, hi]);
    }
    assert(m6 =~= header_result(class, id, lo, hi));

    assert forall|i: int| 0 <= i < 6 implies #[trigger] byte_out(im, h, i) is None by {
        if i == 0 {
            assert(byte_out(im, h, 0) is None);
        } else if i == 1 {
            assert(byte_out(im, h, 1) is None);
        } else if i == 2 {
            assert(byte_out(im, h, 2) is None);
        } else if i == 3 {
            assert(byte_out(im, h, 3) is None);
        } else if i == 4 {
            assert(byte_out(im, h, 4) is None);
        } else {
            assert(byte_out(im, h, 5) is None);
        }
    }
}

/// While the decoder reads a payload, the bytes that fit are buffered in
/// order, the checksum folds over them, no record is yielded, and the
/// decoder turns to the checksum exactly when the declared length is
/// reached.
pub proof fn lemma_run_payload(m: DecoderModel, bytes: Seq<u8>)
    requires
        m.state is ReadingPayload,
        m.payload.len() < m.length,
        m.length <= MAX_PAYLOAD_LEN,
        m.payload.len() + bytes.len() <= m.length,
    ensures
        run_state(m, bytes) == (DecoderModel {
            state: if m.payload.len() + bytes.len() == m.length {
                UbxParserState::ReadingChecksum1
            } else {
                UbxParserState::ReadingPayload
            },
            payload: m.payload + bytes,
            ck_a: ck_fold((m.ck_a, m.ck_b), bytes).0,
            ck_b: ck_fold((m.ck_a, m.ck_b), bytes).1,
            ..m
        }),
        forall|i: int| 0 <= i < bytes.len() ==> #[trigger] byte_out(m, bytes, i) is None,
    decreases bytes.len(),
{
    let z = (m.ck_a, m.ck_b);
    if bytes.len() == 0 {
        assert(m.payload + bytes =~= m.payload);
        assert(run_state(m, bytes) =~= (DecoderModel {
            state: UbxParserState::ReadingPayload,
            payload: m.payload + bytes,
            ck_a: ck_fold(z, bytes).0,
            ck_b: ck_fold(z, bytes).1,
            ..m
        }));
    } else {
        let pre = bytes.drop_last();
        let x = bytes.last();
        lemma_run_payload(m, pre);
        let mid = run_state(m, pre);
        assert(mid.state is ReadingPayload);
        assert(mid.payload.len() < mid.length);
        assert(run_state(m, bytes) == spec_consume(mid, x).0);
        assert((m.payload + pre).push(x) =~= m.payload + bytes);
        assert(ck_fold(z, bytes) == (ck_add(ck_fold(z, pre).0, x), ck_add(
            ck_fold(z, pre).1,
            ck_add(ck_fold(z, pre).0, x),
        )));
        assert(run_state(m, bytes) =~= (DecoderModel {
            state: if m.payload.len() + bytes.len() == m.length {
                UbxParserState::ReadingChecksum1
            } else {
                UbxParserState::ReadingPayload
            },
            payload: m.payload + bytes,
            ck_a: ck_fold(z, bytes).0,
            ck_b: ck_fold(z, bytes).1,
            ..m
        }));
        assert forall|i: int| 0 <= i < bytes.len() implies #[trigger] byte_out(m, bytes, i)
            is None by {
            if i < pre.len() {
                assert(bytes.take(i) =~= pre.take(i));
                assert(bytes[i] == pre[i]);
                assert(byte_out(m, pre, i) is None);
            } else {
                assert(bytes.take(i) =~= pre);
                assert(byte_out(m, bytes, i) == spec_consume(mid, x).1);
            }
        }
    }
}

/// A frame-shaped byte sequence whose two trailing checksum bytes are
/// arbitrary: what any sender, honest or corrupted, puts on the wire.
pub open spec fn envelope_bytes(class: u8, id: u8, payload: Seq<u8>, ra: u8, rb: u8) -> Seq<u8> {
    seq![UBX_SYNC_CHAR_1, UBX_SYNC_CHAR_2] + frame_body(class, id, payload) + seq![ra, rb]
}

/// Feeding a fresh decoder a whole envelope yields nothing until its last
/// byte; that byte yields the decoded message exactly when the trailing
/// bytes match the body's checksum, and the decoder returns to its initial
/// state either way.
pub proof fn lemma_run_envelope(class: u8, id: u8, payload: Seq<u8>, ra: u8, rb: u8)
    requires
        payload.len() <= MAX_PAYLOAD_LEN,
    ensures
        run_state(init_model(), envelope_bytes(class, id, payload, ra, rb)) == init_model(),
        forall|i: int|
            0 <= i < envelope_bytes(class, id, payload, ra, rb).len() - 1
                ==> #[trigger] byte_out(init_model(), envelope_bytes(class, id, payload, ra, rb), i)
                is None,
        byte_out(
            init_model(),
            envelope_bytes(class, id, payload, ra, rb),
            envelope_bytes(class, id, payload, ra, rb).len() - 1,
        ) == (if frame_checksum(class, id, payload) == (ra, rb) {
            spec_process(class, id, payload.len() as u16, payload)
        } else {
            None::<GpsData>
        }),
{
    let im = init_model();
    let z = (0u8, 0u8);
    let s = envelope_bytes(class, id, payload, ra, rb);
    let plen = payload.len() as int;
    let lo = (payload.len() % 0x100) as u8;
    let hi = (payload.len() / 0x100) as u8;
    let h = header_bytes(class, id, lo, hi);
    let body = frame_body(class, id, payload);
    let s1 = h + payload;
    assert(s =~= s1 + seq![ra, rb]);

    lemma_fundamental_div_mod(plen, 0x100);
    assert(lo + hi * 0x100 == plen);

    lemma_run_header(class, id, lo, hi);
    let mh = header_result(class, id, lo, hi);
    lemma_run_concat(im, h, payload);
    let m2 = run_state(im, s1);

    assert(body =~= seq![class, id, lo, hi] + payload);
    if payload.len() == 0 {
        assert(payload =~= Seq::<u8>::empty());
        assert(body =~= seq![class, id, lo, hi]);
        assert(m2 == mh);
        assert(checksum_of(body) == ck_fold(z, seq![class, id, lo, hi]));
    } else {
        assert(mh.state is ReadingPayload);
        lemma_run_payload(mh, payload);
        lemma_ck_fold_concat(z, seq![class, id, lo, hi], payload);
        assert(mh.payload + payload =~= payload);
        assert(checksum_of(body) == ck_fold((mh.ck_a, mh.ck_b), payload));
    }
    assert(m2 =~= (DecoderModel {
        state: UbxParserState::ReadingChecksum1,
        class: class,
        id: id,
        length: payload.len() as u16,
        payload: payload,
        ck_a: checksum_of(body).0,
        ck_b: checksum_of(body).1,
        recv_ck_a: 0,
    }));

    let u0 = Seq::<u8>::empty();
    let u1 = u0.push(ra);
    let u2 = u1.push(rb);
    assert(u2 =~= seq![ra, rb]);
    lemma_run_push(m2, u0, ra);
    lemma_run_push(m2, u1, rb);
    lemma_run_concat(im, s1, seq![ra, rb]);
    let m3 = spec_consume(m2, ra).0;
    assert(m3 =~= (DecoderModel {
        state: UbxParserState::ReadingChecksum2,
        recv_ck_a: ra,
        ..m2
    }));
    assert(run_state(im, s) == spec_consume(m3, rb).0);
    assert(run_state(im, s) == im);

    assert(s.len() - 1 == plen + 7);
    assert(s.take(plen + 7) =~= s1 + seq![ra]);
    assert(s1 + seq![ra] =~= s1 + u1);
    lemma_run_concat(im, s1, u1);
    assert(run_state(im, s.take(plen + 7)) == m3);
    assert(s[plen + 7] == rb);
    assert(byte_out(im, s, s.len() - 1) == spec_consume(m3, rb).1);

    assert forall|i: int| 0 <= i < s.len() - 1 implies #[trigger] byte_out(im, s, i)
        is None by {
        if i < 6 {
            assert(s.take(i) =~= h.take(i));
            assert(s[i] == h[i]);
            assert(byte_out(im, h, i) is None);
            assert(byte_out(im, s, i) == byte_out(im, h, i));
        } else if i < 6 + plen {
            let j = i - 6;
            assert(s.take(i) =~= h + payload.take(j));
            lemma_run_concat(im, h, payload.take(j));
            assert(s[i] == payload[j]);
            assert(byte_out(mh, payload, j) is None);
            assert(byte_out(im, s, i) == byte_out(mh, payload, j));
        } else {
            assert(i == 6 + plen);
            assert(s.take(i) =~= s1);
            assert(s[i] == ra);
            assert(byte_out(im, s, i) == spec_consume(m2, ra).1);
        }
    }
}

/// Feeding a fresh decoder one well-formed frame, byte by byte, yields
/// nothing until the final checksum byte; that byte yields exactly what the
/// frame's class, id and payload call for, and the decoder is back in its
/// initial state.
pub proof fn lemma_frame_decoded(class: u8, id: u8, payload: Seq<u8>)
    requires
        payload.len() <= MAX_PAYLOAD_LEN,
    ensures
        run_state(init_model(), frame_bytes(class, id, payload)) == init_model(),
        forall|i: int|
            0 <= i < frame_bytes(class, id, payload).len() - 1
                ==> #[trigger] byte_out(init_model(), frame_bytes(class, id, payload), i) is None,
        byte_out(
            init_model(),
            frame_bytes(class, id, payload),
            frame_bytes(class, id, payload).len() - 1,
        ) == spec_process(class, id, payload.len() as u16, payload),
        (class == UBX_CLASS_NAV && id == UBX_NAV_PVT && payload.len() >= MIN_NAV_PVT_LEN)
            ==> byte_out(
            init_model(),
            frame_bytes(class, id, payload),
            frame_bytes(class, id, payload).len() - 1,
        ) == Some(spec_nav_pvt(payload)),
        !(class == UBX_CLASS_NAV && id == UBX_NAV_PVT && payload.len() >= MIN_NAV_PVT_LEN)
            ==> byte_out(
            init_model(),
            frame_bytes(class, id, payload),
            frame_bytes(class, id, payload).len() - 1,
        ) is None,
{
    let im = init_model();
    let ck = frame_checksum(class, id, payload);
    let f = frame_bytes(class, id, payload);
    let e = envelope_bytes(class, id, payload, ck.0, ck.1);
    lemma_run_envelope(class, id, payload, ck.0, ck.1);
    assert(f =~= e);
    assert forall|i: int| 0 <= i < f.len() - 1 implies #[trigger] byte_out(im, f, i)
        is None by {
        assert(byte_out(im, e, i) is None);
    }
}

/// Flipping any single payload byte of a well-formed frame, while keeping
/// its checksum bytes, makes the decoder reject the whole frame: no byte of
/// it yields a record, and the decoder resynchronises.
pub proof fn lemma_corrupted_payload_rejected(class: u8, id: u8, payload: Seq<u8>, j: int, b: u8)
    requires
        payload.len() <= MAX_PAYLOAD_LEN,
        0 <= j < payload.len(),
        b != payload[j],
    ensures
        run_state(init_model(), frame_bytes(class, id, payload).update(6 + j, b))
            == init_model(),
        forall|i: int|
            0 <= i < frame_bytes(class, id, payload).len()
                ==> #[trigger] byte_out(
                init_model(),
                frame_bytes(class, id, payload).update(6 + j, b),
                i,
            ) is None,
{
    let im = init_model();
    let z = (0u8, 0u8);
    let ck = frame_checksum(class, id, payload);
    let p2 = payload.update(j, b);
    let bad = frame_bytes(class, id, payload).update(6 + j, b);
    let e = envelope_bytes(class, id, p2, ck.0, ck.1);
    lemma_run_envelope(class, id, p2, ck.0, ck.1);
    assert(bad =~= e);

    assert(frame_body(class, id, p2) =~= frame_body(class, id, payload).update(4 + j, b));
    assert(frame_body(class, id, payload)[4 + j] == payload[j]);
    lemma_checksum_detects_change(z, frame_body(class, id, payload), 4 + j, b);
    assert(frame_checksum(class, id, p2).0 != ck.0);

    assert(byte_out(im, e, e.len() - 1) is None);
    assert forall|i: int| 0 <= i < frame_bytes(class, id, payload).len() implies
        #[trigger] byte_out(im, bad, i) is None by {
        if i < e.len() - 1 {
            assert(byte_out(im, e, i) is None);
        } else {
            assert(i == e.len() - 1);
        }
    }
}

/// A header declaring a payload longer than the buffer is dropped outright:
/// the whole header yields nothing and the decoder is back at the start.
pub proof fn lemma_oversized_length_dropped(class: u8, id: u8, lo: u8, hi: u8)
    requires
        lo + hi * 0x100 > MAX_PAYLOAD_LEN,
    ensures
        run_state(init_model(), header_bytes(class, id, lo, hi)) == init_model(),
        forall|i: int|
            0 <= i < 6 ==> #[trigger] byte_out(init_model(), header_bytes(class, id, lo, hi), i)
                is None,
{
    lemma_run_header(class, id, lo, hi);
}

/// After an oversized header the decoder has resynchronised: a well-formed
/// frame appended immediately after still decodes exactly as it would alone.
pub proof fn lemma_resync_after_oversized(
    class: u8,
    id: u8,
    lo: u8,
    hi: u8,
    class2: u8,
    id2: u8,
    payload2: Seq<u8>,
)
    requires
        lo + hi * 0x100 > MAX_PAYLOAD_LEN,
        payload2.len() <= MAX_PAYLOAD_LEN,
    ensures
        run_state(
            init_model(),
            header_bytes(class, id, lo, hi) + frame_bytes(class2, id2, payload2),
        ) == init_model(),
        forall|i: int|
            0 <= i < header_bytes(class, id, lo, hi).len()
                + frame_bytes(class2, id2, payload2).len() - 1
                ==> #[trigger] byte_out(
                init_model(),
                header_bytes(class, id, lo, hi) + frame_bytes(class2, id2, payload2),
                i,
            ) is None,
        byte_out(
            init_model(),
            header_bytes(class, id, lo, hi) + frame_bytes(class2, id2, payload2),
            header_bytes(class, id, lo, hi).len() + frame_bytes(class2, id2, payload2).len() - 1,
        ) == spec_process(class2, id2, payload2.len() as u16, payload2),
{
    let im = init_model();
    let h = header_bytes(class, id, lo, hi);
    let f = frame_bytes(class2, id2, payload2);
    let s = h + f;
    lemma_oversized_length_dropped(class, id, lo, hi);
    lemma_frame_decoded(class2, id2, payload2);
    lemma_run_concat(im, h, f);
    assert(s.take(s.len() - 1) =~= h + f.take(f.len() - 1));
    lemma_run_concat(im, h, f.take(f.len() - 1));
    assert(s[s.len() - 1] == f[f.len() - 1]);
    assert(byte_out(im, s, s.len() - 1) == byte_out(im, f, f.len() - 1));
    assert forall|i: int| 0 <= i < s.len() - 1 implies #[trigger] byte_out(im, s, i)
        is None by {
        if i < 6 {
            assert(s.take(i) =~= h.take(i));
            assert(s[i] == h[i]);
            assert(byte_out(im, h, i) is None);
            assert(byte_out(im, s, i) == byte_out(im, h, i));
        } else {
            let j = i - 6;
            assert(s.take(i) =~= h + f.take(j));
            lemma_run_concat(im, h, f.take(j));
            assert(s[i] == f[j]);
            assert(byte_out(im, f, j) is None);
            assert(byte_out(im, s, i) == byte_out(im, f, j));
        }
    }
}

/// Two back-to-back well-formed frames, with no padding between them,
/// decode independently: each frame's final byte yields exactly that frame's
/// message, every other byte yields nothing, and the decoder ends back in
/// its initial state.
pub proof fn lemma_back_to_back_frames(
    class1: u8,
    id1: u8,
    payload1: Seq<u8>,
    class2: u8,
    id2: u8,
    payload2: Seq<u8>,
)
    requires
        payload1.len() <= MAX_PAYLOAD_LEN,
        payload2.len() <= MAX_PAYLOAD_LEN,
    ensures
        run_state(
            init_model(),
            frame_bytes(class1, id1, payload1) + frame_bytes(class2, id2, payload2),
        ) == init_model(),
        byte_out(
            init_model(),
            frame_bytes(class1, id1, payload1) + frame_bytes(class2, id2, payload2),
            frame_bytes(class1, id1, payload1).len() - 1,
        ) == spec_process(class1, id1, payload1.len() as u16, payload1),
        byte_out(
            init_model(),
            frame_bytes(class1, id1, payload1) + frame_bytes(class2, id2, payload2),
            frame_bytes(class1, id1, payload1).len() + frame_bytes(class2, id2, payload2).len()
                - 1,
        ) == spec_process(class2, id2, payload2.len() as u16, payload2),
        forall|i: int|
            0 <= i < frame_bytes(class1, id1, payload1).len() + frame_bytes(
                class2,
                id2,
                payload2,
            ).len() && i != frame_bytes(class1, id1, payload1).len() - 1 && i != frame_bytes(
                class1,
                id1,
                payload1,
            ).len() + frame_bytes(class2, id2, payload2).len() - 1
                ==> #[trigger] byte_out(
                init_model(),
                frame_bytes(class1, id1, payload1) + frame_bytes(class2, id2, payload2),
                i,
            ) is None,
{
    let im = init_model();
    let f1 = frame_bytes(class1, id1, payload1);
    let f2 = frame_bytes(class2, id2, payload2);
    let s = f1 + f2;
    lemma_frame_decoded(class1, id1, payload1);
    lemma_frame_decoded(class2, id2, payload2);
    lemma_run_concat(im, f1, f2);

    assert(s.take(f1.len() - 1) =~= f1.take(f1.len() - 1));
    assert(s[f1.len() - 1] == f1[f1.len() - 1]);
    assert(byte_out(im, s, f1.len() - 1) == byte_out(im, f1, f1.len() - 1));

    assert(s.take(s.len() - 1) =~= f1 + f2.take(f2.len() - 1));
    lemma_run_concat(im, f1, f2.take(f2.len() - 1));
    assert(s[s.len() - 1] == f2[f2.len() - 1]);
    assert(byte_out(im, s, s.len() - 1) == byte_out(im, f2, f2.len() - 1));

    assert forall|i: int|
        0 <= i < s.len() && i != f1.len() - 1 && i != s.len() - 1 implies #[trigger] byte_out(
        im,
        s,
        i,
    ) is None by {
        if i < f1.len() - 1 {
            assert(s.take(i) =~= f1.take(i));
            assert(s[i] == f1[i]);
            assert(byte_out(im, f1, i) is None);
            assert(byte_out(im, s, i) == byte_out(im, f1, i));
        } else {
            let j = i - f1.len();
            assert(s.take(i) =~= f1 + f2.take(j));
            lemma_run_concat(im, f1, f2.take(j));
            assert(s[i] == f2[j]);
            assert(byte_out(im, f2, j) is None);
            assert(byte_out(im, s, i) == byte_out(im, f2, j));
        }
    }
}

/// True when the two-byte sync pattern occurs somewhere in `s`.
pub open spec fn contains_sync_pattern(s: Seq<u8>) -> bool {
    exists|i: int|
        0 <= i < s.len() - 1 && #[trigger] s[i] == UBX_SYNC_CHAR_1 && s[i + 1] == UBX_SYNC_CHAR_2
}

/// The decoder right after the first sync byte, awaiting the second.
pub open spec fn sync_started() -> DecoderModel {
    DecoderModel { state: UbxParserState::WaitingForSync2, ..init_model() }
}

/// A byte sequence that never contains the sync pattern yields no record at
/// all and keeps the decoder at the start; only a trailing first-sync byte
/// leaves it awaiting the second.
pub proof fn lemma_no_sync_silent(s: Seq<u8>)
    requires
        !contains_sync_pattern(s),
    ensures
        forall|i: int| 0 <= i < s.len() ==> #[trigger] byte_out(init_model(), s, i) is None,
        run_state(init_model(), s) == init_model() || (run_state(init_model(), s)
            == sync_started() && s.len() > 0 && s.last() == UBX_SYNC_CHAR_1),
        (s.len() == 0 || s.last() != UBX_SYNC_CHAR_1) ==> run_state(init_model(), s)
            == init_model(),
    decreases s.len(),
{
    let im = init_model();
    if s.len() > 0 {
        let pre = s.drop_last();
        let x = s.last();
        assert(!contains_sync_pattern(pre)) by {
            if contains_sync_pattern(pre) {
                let i = choose|i: int|
                    0 <= i < pre.len() - 1 && #[trigger] pre[i] == UBX_SYNC_CHAR_1 && pre[i + 1]
                        == UBX_SYNC_CHAR_2;
                assert(0 <= i < s.len() - 1 && s[i] == UBX_SYNC_CHAR_1 && s[i + 1]
                    == UBX_SYNC_CHAR_2);
                assert(contains_sync_pattern(s));
            }
        }
        lemma_no_sync_silent(pre);
        let mid = run_state(im, pre);
        assert(run_state(im, s) == spec_consume(mid, x).0);
        if mid == sync_started() {
            assert(pre.len() > 0 && pre.last() == UBX_SYNC_CHAR_1);
            assert(s[s.len() - 2] == UBX_SYNC_CHAR_1);
            if x == UBX_SYNC_CHAR_2 {
                assert(contains_sync_pattern(s)) by {
                    assert(0 <= s.len() - 2 < s.len() - 1 && s[s.len() - 2] == UBX_SYNC_CHAR_1
                        && s[s.len() - 2 + 1] == UBX_SYNC_CHAR_2);
                }
                assert(false);
            }
            assert(spec_consume(mid, x).0 == im);
        } else {
            if x == UBX_SYNC_CHAR_1 {
                assert(spec_consume(mid, x).0 =~= sync_started());
            }
        }
        assert forall|i: int| 0 <= i < s.len() implies #[trigger] byte_out(im, s, i)
            is None by {
            if i < pre.len() {
                assert(s.take(i) =~= pre.take(i));
                assert(s[i] == pre[i]);
                assert(byte_out(im, pre, i) is None);
                assert(byte_out(im, s, i) == byte_out(im, pre, i));
            } else {
                assert(s.take(i) =~= pre);
                assert(byte_out(im, s, i) == spec_consume(mid, x).1);
            }
        }
    }
}

/// The message-rate command the encoder builds is a well-formed frame of a
/// configuration class: a decoder overhearing it parses it whole, yields
/// nothing, and is left ready for the next frame.
pub proof fn lemma_enable_command_swallowed()
    ensures
        run_state(
            init_model(),
            frame_bytes(0x06, 0x01, enable_nav_pvt_payload()),
        ) == init_model(),
        forall|i: int|
            0 <= i < frame_bytes(0x06, 0x01, enable_nav_pvt_payload()).len()
                ==> #[trigger] byte_out(
                init_model(),
                frame_bytes(0x06, 0x01, enable_nav_pvt_payload()),
                i,
            ) is None,
{
    let p = enable_nav_pvt_payload();
    let f = frame_bytes(0x06, 0x01, p);
    lemma_frame_decoded(0x06, 0x01, p);
    assert forall|i: int| 0 <= i < f.len() implies #[trigger] byte_out(init_model(), f, i)
        is None by {
        if i < f.len() - 1 {
            assert(byte_out(init_model(), f, i) is None);
        } else {
            assert(byte_out(init_model(), f, f.len() - 1) == spec_process(0x06, 0x01, 3, p));
        }
    }
}

/// A decoded record is valid exactly when the fix type is at least 3 and
/// bit 0 of the flags byte is set.
pub proof fn lemma_validity_rule(p: Seq<u8>)
    requires
        p.len() >= MIN_NAV_PVT_LEN,
    ensures
        spec_nav_pvt(p).valid <==> (p[20] >= 3 && (p[21] & 0x01) == 1),
{
    let flags = p[21];
    assert((flags & 0x01) == flags % 2) by (bit_vector);
}

} // verus!
