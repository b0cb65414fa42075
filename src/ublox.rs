//! Framing of u-blox UBX messages: a resynchronizing frame parser and the
//! encoder for outbound configuration frames.
use vstd::prelude::*;

verus! {

pub const UBX_SYNC_CHAR_1: u8 = 0xb5;

pub const UBX_SYNC_CHAR_2: u8 = 0x62;

/// Sync characters, header (class, id, length) and checksum.
pub const UBX_MIN_LEN: usize = 8;

/// Bytes before the payload: sync characters and header.
pub const UBX_PAYLOAD_OFFSET: usize = 6;

pub const UBX_CLASS_OFFSET: usize = 2;

/// Capacity of the receive buffer: no longer frame can be accepted.
pub const UBX_BUF_LEN: usize = 256;

pub const CLASS_NAV: u8 = 0x01;

pub const CLASS_ACK: u8 = 0x05;

pub const CLASS_CFG: u8 = 0x06;

pub const ID_NAV_POSLLH: u8 = 0x02;

pub const ID_CFG_VALSET: u8 = 0x8a;

pub const CFG_USBOUTPROT_UBX: u32 = 0x10780001;

pub const CFG_USBOUTPROT_NMEA: u32 = 0x10780002;

pub const CFG_NAVSPG_FIXMODE: u32 = 0x20110011;

pub const CFG_NAVSPG_DYNMODEL: u32 = 0x20110021;

pub const CFG_MSGOUT_UBX_NAV_POSLLH_USB: u32 = 0x2091002c;

pub const CFG_MSGOUT_UBX_NAV_STATUS_USB: u32 = 0x2091001d;

pub const CFG_RATE_MEAS: u32 = 0x30210001;

pub const CFG_RATE_NAV: u32 = 0x30210002;

pub const CFG_VERSION: u8 = 0;

pub const CFG_LAYER_RAM: u8 = 1;

pub const CFG_NAVSPG_FIXMODE_2DONLY: u8 = 1;

pub const CFG_NAVSPG_DYNMODEL_AUTOMOT: u8 = 4;

/// The two running sums of the 8-bit Fletcher checksum of `s`.
pub open spec fn fletcher(s: Seq<u8>) -> (int, int)
    decreases s.len(),
{
    if s.len() == 0 {
        (0, 0)
    } else {
        let (a, b) = fletcher(s.drop_last());
        let a2 = (a + s.last()) % 256;
        (a2, (b + a2) % 256)
    }
}

/// The checksum as one 16-bit value, `ck_a` in the high byte.
pub open spec fn fletcher16(s: Seq<u8>) -> int {
    fletcher(s).0 * 256 + fletcher(s).1
}

/// The complete frame carrying `payload` under `class` and `id`.
pub open spec fn ubx_frame(class: u8, id: u8, payload: Seq<u8>) -> Seq<u8> {
    let body = seq![class, id, (payload.len() % 256) as u8, (payload.len() / 256) as u8] + payload;
    seq![UBX_SYNC_CHAR_1, UBX_SYNC_CHAR_2] + body + seq![
        fletcher(body).0 as u8,
        fletcher(body).1 as u8,
    ]
}

/// The length of the frame whose first six bytes `q` holds.
pub open spec fn frame_total(q: Seq<u8>) -> int {
    UBX_MIN_LEN + q[4] as int + 256 * q[5] as int
}

/// What the parser reports when a frame attempt ends.
pub enum UbxOutcome {
    Frame { class: u8, id: u8, payload: Seq<u8> },
    ChecksumMismatch { class: u8, id: u8, expected: u16, actual: u16 },
    Oversized { class: u8, id: u8, len: u16 },
}

/// The outcome of the complete frame `q` (of length `frame_total(q)`).
pub open spec fn frame_outcome(q: Seq<u8>) -> UbxOutcome {
    let end = q.len() - 2;
    let expected = q[end] as int * 256 + q[end + 1] as int;
    let actual = fletcher16(q.subrange(2, end));
    if expected == actual {
        UbxOutcome::Frame { class: q[2], id: q[3], payload: q.subrange(6, end) }
    } else {
        UbxOutcome::ChecksumMismatch {
            class: q[2],
            id: q[3],
            expected: expected as u16,
            actual: actual as u16,
        }
    }
}

/// The parser's pending bytes are the start of a possible frame.
pub open spec fn pending_wf(p: Seq<u8>) -> bool {
    &&& p.len() < UBX_BUF_LEN
    &&& p.len() >= 1 ==> p[0] == UBX_SYNC_CHAR_1
    &&& p.len() >= 2 ==> p[1] == UBX_SYNC_CHAR_2
    &&& p.len() >= 6 ==> p.len() < frame_total(p) <= UBX_BUF_LEN
}

/// One received byte `b` on top of the pending bytes `p`: the new pending
/// bytes, and what ended, if anything did.
///
/// Bytes that cannot begin a frame are dropped one at a time, so a sync
/// character is never lost; a frame attempt that ends (accepted, failed
/// checksum, or too long for the buffer) is dropped as a whole.
pub open spec fn ubx_step(p: Seq<u8>, b: u8) -> (Seq<u8>, Option<UbxOutcome>) {
    let q = p.push(b);
    if q.len() == 1 {
        if b == UBX_SYNC_CHAR_1 {
            (q, None)
        } else {
            (Seq::empty(), None)
        }
    } else if q.len() == 2 {
        if b == UBX_SYNC_CHAR_2 {
            (q, None)
        } else if b == UBX_SYNC_CHAR_1 {
            (seq![b], None)
        } else {
            (Seq::empty(), None)
        }
    } else if q.len() == 6 && frame_total(q) > UBX_BUF_LEN {
        (
            Seq::empty(),
            Some(
                UbxOutcome::Oversized {
                    class: q[2],
                    id: q[3],
                    len: (frame_total(q) - UBX_MIN_LEN) as u16,
                },
            ),
        )
    } else if q.len() >= UBX_MIN_LEN && q.len() == frame_total(q) {
        (Seq::empty(), Some(frame_outcome(q)))
    } else {
        (q, None)
    }
}

/// The bytes `s` received in order from the pending bytes `p`: the pending
/// bytes after them and everything reported on the way.
pub open spec fn ubx_run(p: Seq<u8>, s: Seq<u8>) -> (Seq<u8>, Seq<UbxOutcome>)
    decreases s.len(),
{
    if s.len() == 0 {
        (p, Seq::empty())
    } else {
        let (mid, es) = ubx_run(p, s.drop_last());
        let (next, e) = ubx_step(mid, s.last());
        (
            next,
            match e {
                Some(x) => es.push(x),
                None => es,
            },
        )
    }
}

/// `x` as four little-endian bytes.
pub open spec fn le_u32(x: u32) -> Seq<u8> {
    seq![(x & 0xff) as u8, ((x >> 8) & 0xff) as u8, ((x >> 16) & 0xff) as u8, ((x >> 24) & 0xff) as u8]
}

/// `x` as two little-endian bytes.
pub open spec fn le_u16(x: u16) -> Seq<u8> {
    seq![(x & 0xff) as u8, ((x >> 8) & 0xff) as u8]
}

/// The CFG-VALSET payload that sets up the receiver: UBX output on, NMEA
/// output off, 2D fix mode, automotive dynamic model, NAV-POSLLH output,
/// then the measurement and navigation rates.
pub open spec fn valset_payload() -> Seq<u8> {
    seq![CFG_VERSION, CFG_LAYER_RAM, 0u8, 0u8]
        + le_u32(CFG_USBOUTPROT_UBX) + seq![1u8]
        + le_u32(CFG_USBOUTPROT_NMEA) + seq![0u8]
        + le_u32(CFG_NAVSPG_FIXMODE) + seq![CFG_NAVSPG_FIXMODE_2DONLY]
        + le_u32(CFG_NAVSPG_DYNMODEL) + seq![CFG_NAVSPG_DYNMODEL_AUTOMOT]
        + le_u32(CFG_MSGOUT_UBX_NAV_POSLLH_USB) + seq![1u8]
        + le_u32(CFG_RATE_MEAS) + le_u16(25)
        + le_u32(CFG_RATE_NAV) + le_u16(1)
}

/// A validated frame.
#[derive(Clone, Debug, PartialEq, Eq)]
pub struct UbxFrame {
    pub class: u8,
    pub id: u8,
    pub payload: Vec<u8>,
}

#[derive(Clone, Debug, PartialEq, Eq)]
pub enum UbxEvent {
    Frame(UbxFrame),
    ChecksumMismatch { class: u8, id: u8, expected: u16, actual: u16 },
    Oversized { class: u8, id: u8, len: u16 },
}

impl View for UbxEvent {
    type V = UbxOutcome;

    open spec fn view(&self) -> UbxOutcome {
        match self {
            UbxEvent::Frame(f) => UbxOutcome::Frame { class: f.class, id: f.id, payload: f.payload@ },
            UbxEvent::ChecksumMismatch { class, id, expected, actual } => UbxOutcome::ChecksumMismatch {
                class: *class,
                id: *id,
                expected: *expected,
                actual: *actual,
            },
            UbxEvent::Oversized { class, id, len } => UbxOutcome::Oversized {
                class: *class,
                id: *id,
                len: *len,
            },
        }
    }
}

pub open spec fn event_views(es: Seq<UbxEvent>) -> Seq<UbxOutcome> {
    es.map_values(|e: UbxEvent| e@)
}

pub open spec fn opt_view(e: Option<UbxEvent>) -> Option<UbxOutcome> {
    match e {
        Some(x) => Some(x@),
        None => None,
    }
}

/// The 8-bit Fletcher checksum of `buffer`, `ck_a` in the high byte.
pub fn fletcher8(buffer: &[u8]) -> (r: u16)
    ensures
        r as int == fletcher16(buffer@),
{
    let mut ck_a: u8 = 0;
    let mut ck_b: u8 = 0;
    let mut i: usize = 0;
    assert(buffer@.subrange(0, 0) =~= Seq::<u8>::empty());
    while i < buffer.len()
        invariant
            i <= buffer@.len(),
            fletcher(buffer@.subrange(0, i as int)) == (ck_a as int, ck_b as int),
        decreases buffer@.len() - i,
    {
        proof {
            let s = buffer@.subrange(0, i + 1);
            assert(s.drop_last() =~= buffer@.subrange(0, i as int));
        }
        ck_a = ((ck_a as u16 + buffer[i] as u16) % 256) as u8;
        ck_b = ((ck_b as u16 + ck_a as u16) % 256) as u8;
        i += 1;
    }
    assert(buffer@.subrange(0, buffer@.len() as int) =~= buffer@);
    ck_a as u16 * 256 + ck_b as u16
}

fn copy_range(s: &Vec<u8>, from: usize, to: usize) -> (r: Vec<u8>)
    requires
        from <= to <= s@.len(),
    ensures
        r@ == s@.subrange(from as int, to as int),
{
    let mut r: Vec<u8> = Vec::new();
    let mut i: usize = from;
    while i < to
        invariant
            from <= i <= to <= s@.len(),
            r@ == s@.subrange(from as int, i as int),
        decreases to - i,
    {
        r.push(s[i]);
        i += 1;
        assert(r@ =~= s@.subrange(from as int, i as int));
    }
    r
}

fn push_u32_le(cmd: &mut Vec<u8>, x: u32)
    ensures
        final(cmd)@ == old(cmd)@ + le_u32(x),
{
    cmd.push((x & 0xff) as u8);
    cmd.push(((x >> 8) & 0xff) as u8);
    cmd.push(((x >> 16) & 0xff) as u8);
    cmd.push(((x >> 24) & 0xff) as u8);
    assert(cmd@ =~= old(cmd)@ + le_u32(x));
}

/// Appends the key/value pair `(cfg, val)` with a one-byte boolean value.
pub fn set_bool_cfg(cmd: &mut Vec<u8>, cfg: u32, val: bool)
    ensures
        final(cmd)@ == old(cmd)@ + le_u32(cfg) + seq![if val { 1u8 } else { 0u8 }],
{
    set_u8_cfg(cmd, cfg, if val { 1 } else { 0 });
}

/// Appends the key/value pair `(cfg, val)` with a one-byte value.
pub fn set_u8_cfg(cmd: &mut Vec<u8>, cfg: u32, val: u8)
    ensures
        final(cmd)@ == old(cmd)@ + le_u32(cfg) + seq![val],
{
    push_u32_le(cmd, cfg);
    cmd.push(val);
}

/// Appends the key/value pair `(cfg, val)` with a two-byte value.
pub fn set_u16_cfg(cmd: &mut Vec<u8>, cfg: u32, val: u16)
    ensures
        final(cmd)@ == old(cmd)@ + le_u32(cfg) + le_u16(val),
{
    push_u32_le(cmd, cfg);
    cmd.push((val & 0xff) as u8);
    cmd.push(((val >> 8) & 0xff) as u8);
    assert(cmd@ =~= old(cmd)@ + le_u32(cfg) + le_u16(val));
}

/// The complete frame carrying `payload` under `class` and `id`: sync
/// characters, header, payload and checksum.
pub fn encode_frame(class: u8, id: u8, payload: &[u8]) -> (r: Vec<u8>)
    requires
        payload@.len() <= 0xffff,
    ensures
        r@ == ubx_frame(class, id, payload@),
{
    let len = payload.len();
    let mut body: Vec<u8> = vec![class, id, (len % 256) as u8, (len / 256) as u8];
    let ghost head = body@;
    let mut i: usize = 0;
    while i < len
        invariant
            len == payload@.len(),
            i <= len,
            body@ == head + payload@.subrange(0, i as int),
        decreases len - i,
    {
        body.push(payload[i]);
        i += 1;
        assert(body@ =~= head + payload@.subrange(0, i as int));
    }
    assert(payload@.subrange(0, len as int) =~= payload@);
    let ck = fletcher8(body.as_slice());
    let mut frame: Vec<u8> = vec![UBX_SYNC_CHAR_1, UBX_SYNC_CHAR_2];
    let mut j: usize = 0;
    while j < body.len()
        invariant
            j <= body@.len(),
            frame@ == seq![UBX_SYNC_CHAR_1, UBX_SYNC_CHAR_2] + body@.subrange(0, j as int),
        decreases body@.len() - j,
    {
        frame.push(body[j]);
        j += 1;
        assert(frame@ =~= seq![UBX_SYNC_CHAR_1, UBX_SYNC_CHAR_2] + body@.subrange(0, j as int));
    }
    assert(body@.subrange(0, body@.len() as int) =~= body@);
    proof {
        let (a, b) = fletcher(body@);
        lemma_fletcher_bounds(body@);
        assert(ck / 256 == a && ck % 256 == b) by (nonlinear_arith)
            requires ck == a * 256 + b, 0 <= a < 256, 0 <= b < 256;
    }
    frame.push((ck / 256) as u8);
    frame.push((ck % 256) as u8);
    assert(frame@ =~= ubx_frame(class, id, payload@));
    frame
}

proof fn lemma_fletcher_bounds(s: Seq<u8>)
    ensures
        0 <= fletcher(s).0 < 256,
        0 <= fletcher(s).1 < 256,
    decreases s.len(),
{
    if s.len() > 0 {
        lemma_fletcher_bounds(s.drop_last());
    }
}

/// The step a frame attempt is at: looking for the sync characters,
/// reading the header, or reading payload and checksum to verify them.
#[derive(Clone, Copy, Debug, PartialEq, Eq, Structural)]
pub enum ReadProgress {
    SearchForSync,
    HandleHeaderPayload,
    VerifyCk,
}

/// Receiver of a u-blox GNSS device's UBX traffic.
pub struct Ublox {
    /// Fixed-size receive buffer; `buf[..buf_read_pos]` holds the start of
    /// a possible frame.
    pub buf: Vec<u8>,
    pub buf_read_pos: usize,
}

impl View for Ublox {
    type V = Seq<u8>;

    open spec fn view(&self) -> Seq<u8> {
        self.buf@.subrange(0, self.buf_read_pos as int)
    }
}

impl Ublox {
    pub open spec fn wf(&self) -> bool {
        &&& self.buf@.len() == UBX_BUF_LEN
        &&& self.buf_read_pos < UBX_BUF_LEN
        &&& pending_wf(self@)
    }

    /// A receiver that is searching for the start of a frame.
    pub fn new() -> (r: Ublox)
        ensures
            r.wf(),
            r@ == Seq::<u8>::empty(),
    {
        let r = Ublox { buf: vec![0u8; UBX_BUF_LEN], buf_read_pos: 0 };
        assert(r@ =~= Seq::<u8>::empty());
        r
    }

    /// How many bytes complete the current step: the minimum frame while
    /// the header is incomplete, then the rest of the frame.
    pub fn bytes_wanted(&self) -> (r: usize)
        requires
            self.wf(),
        ensures
            r > 0,
            self@.len() < 6 ==> r == UBX_MIN_LEN - self@.len(),
            self@.len() >= 6 ==> r == frame_total(self@) - self@.len(),
    {
        let pos = self.buf_read_pos;
        if pos < UBX_PAYLOAD_OFFSET {
            UBX_MIN_LEN - pos
        } else {
            UBX_MIN_LEN + self.buf[4] as usize + 256 * self.buf[5] as usize - pos
        }
    }

    /// The CFG-VALSET frame that sets the receiver up, to be written to it.
    pub fn configure(&self) -> (r: Vec<u8>)
        ensures
            r@ == ubx_frame(CLASS_CFG, ID_CFG_VALSET, valset_payload()),
    {
        let mut payload: Vec<u8> = vec![CFG_VERSION, CFG_LAYER_RAM, 0, 0];
        let ghost prefix = payload@;

        // UBX output on, NMEA output off
        set_bool_cfg(&mut payload, CFG_USBOUTPROT_UBX, true);
        set_bool_cfg(&mut payload, CFG_USBOUTPROT_NMEA, false);

        // 2D fix mode, automotive dynamic model
        set_u8_cfg(&mut payload, CFG_NAVSPG_FIXMODE, CFG_NAVSPG_FIXMODE_2DONLY);
        set_u8_cfg(&mut payload, CFG_NAVSPG_DYNMODEL, CFG_NAVSPG_DYNMODEL_AUTOMOT);

        // position output and measurement rates
        set_u8_cfg(&mut payload, CFG_MSGOUT_UBX_NAV_POSLLH_USB, 1);
        set_u16_cfg(&mut payload, CFG_RATE_MEAS, 25);
        set_u16_cfg(&mut payload, CFG_RATE_NAV, 1);

        assert(prefix =~= seq![CFG_VERSION, CFG_LAYER_RAM, 0u8, 0u8]);
        assert(payload@ =~= valset_payload());
        encode_frame(CLASS_CFG, ID_CFG_VALSET, payload.as_slice())
    }

    /// Drops every pending byte: the search for a frame starts over.
    fn reset_read(&mut self)
        requires
            old(self).buf@.len() == UBX_BUF_LEN,
        ensures
            final(self).wf(),
            final(self).buf == old(self).buf,
            final(self)@ == Seq::<u8>::empty(),
    {
        self.buf_read_pos = 0;
        assert(self@ =~= Seq::<u8>::empty());
    }

    /// Which step the current frame attempt is at.
    pub fn read_progress(&self) -> (r: ReadProgress)
        requires
            self.wf(),
        ensures
            r == (if self@.len() < 2 {
                ReadProgress::SearchForSync
            } else if self@.len() < 6 {
                ReadProgress::HandleHeaderPayload
            } else {
                ReadProgress::VerifyCk
            }),
    {
        if self.buf_read_pos < 2 {
            ReadProgress::SearchForSync
        } else if self.buf_read_pos < UBX_PAYLOAD_OFFSET {
            ReadProgress::HandleHeaderPayload
        } else {
            ReadProgress::VerifyCk
        }
    }

    fn push_byte(&mut self, b: u8) -> (r: Option<UbxEvent>)
        requires
            old(self).wf(),
        ensures
            final(self).wf(),
            (final(self)@, opt_view(r)) == ubx_step(old(self)@, b),
    {
        let ghost q = old(self)@.push(b);
        let pos = self.buf_read_pos;
        self.buf.set(pos, b);
        let len = pos + 1;
        assert(self.buf@.subrange(0, len as int) =~= q);
        if len == 1 {
            self.buf_read_pos = if b == UBX_SYNC_CHAR_1 {
                1
            } else {
                0
            };
            assert(self@ =~= ubx_step(old(self)@, b).0);
            return None;
        }
        if len == 2 {
            if b == UBX_SYNC_CHAR_2 {
                self.buf_read_pos = 2;
            } else if b == UBX_SYNC_CHAR_1 {
                self.buf.set(0, UBX_SYNC_CHAR_1);
                self.buf_read_pos = 1;
            } else {
                self.reset_read();
            }
            assert(self@ =~= ubx_step(old(self)@, b).0);
            return None;
        }
        if len < UBX_PAYLOAD_OFFSET {
            self.buf_read_pos = len;
            return None;
        }
        let total = UBX_MIN_LEN + self.buf[4] as usize + 256 * self.buf[5] as usize;
        if len == UBX_PAYLOAD_OFFSET && total > UBX_BUF_LEN {
            self.reset_read();
            return Some(
                UbxEvent::Oversized {
                    class: self.buf[2],
                    id: self.buf[3],
                    len: (total - UBX_MIN_LEN) as u16,
                },
            );
        }
        if len < total {
            self.buf_read_pos = len;
            return None;
        }
        let end = total - 2;
        let expected = self.buf[end] as u16 * 256 + self.buf[end + 1] as u16;
        let actual = fletcher8(&self.buf.as_slice()[UBX_CLASS_OFFSET..end]);
        assert(self.buf@.subrange(2, end as int) =~= q.subrange(2, end as int));
        let class = self.buf[2];
        let id = self.buf[3];
        self.reset_read();
        if expected == actual {
            let payload = copy_range(&self.buf, UBX_PAYLOAD_OFFSET, end);
            assert(payload@ =~= q.subrange(6, end as int));
            Some(UbxEvent::Frame(UbxFrame { class, id, payload }))
        } else {
            Some(UbxEvent::ChecksumMismatch { class, id, expected, actual })
        }
    }

    /// Takes the bytes of one read and reports every frame attempt that
    /// they complete, in order.
    pub fn handle_incoming_ublox_msg(&mut self, data: &[u8]) -> (r: Vec<UbxEvent>)
        requires
            old(self).wf(),
        ensures
            final(self).wf(),
            (final(self)@, event_views(r@)) == ubx_run(old(self)@, data@),
    {
        let mut events: Vec<UbxEvent> = Vec::new();
        let mut i: usize = 0;
        assert(data@.subrange(0, 0) =~= Seq::<u8>::empty());
        assert(event_views(events@) =~= Seq::<UbxOutcome>::empty());
        while i < data.len()
            invariant
                self.wf(),
                i <= data@.len(),
                (self@, event_views(events@)) == ubx_run(old(self)@, data@.subrange(0, i as int)),
            decreases data@.len() - i,
        {
            let ghost before = events@;
            proof {
                let s = data@.subrange(0, i + 1);
                assert(s.drop_last() =~= data@.subrange(0, i as int));
            }
            match self.push_byte(data[i]) {
                Some(e) => {
                    events.push(e);
                    assert(event_views(events@) =~= event_views(before).push(e@));
                },
                None => {},
            }
            i += 1;
        }
        assert(data@.subrange(0, data@.len() as int) =~= data@);
        events
    }
}

/// `s` holds no sync character 1 directly followed by sync character 2.
pub open spec fn no_sync_pair(s: Seq<u8>) -> bool {
    forall|i: int|
        0 <= i < s.len() - 1 ==> !(#[trigger] s[i] == UBX_SYNC_CHAR_1 && s[i + 1] == UBX_SYNC_CHAR_2)
}

pub open spec fn byte_sum(s: Seq<u8>) -> int
    decreases s.len(),
{
    if s.len() == 0 {
        0
    } else {
        byte_sum(s.drop_last()) + s.last()
    }
}

/// Receiving `a` then `b` is receiving `a + b`.
proof fn lemma_run_concat(p: Seq<u8>, a: Seq<u8>, b: Seq<u8>)
    ensures
        ubx_run(p, a + b) == ({
            let (mid, e1) = ubx_run(p, a);
            let (next, e2) = ubx_run(mid, b);
            (next, e1 + e2)
        }),
    decreases b.len(),
{
    let (mid, e1) = ubx_run(p, a);
    if b.len() == 0 {
        assert(a + b =~= a);
        assert(e1 + Seq::<UbxOutcome>::empty() =~= e1);
    } else {
        assert((a + b).drop_last() =~= a + b.drop_last());
        assert((a + b).last() == b.last());
        lemma_run_concat(p, a, b.drop_last());
        let (next, e2) = ubx_run(mid, b.drop_last());
        let (last_pending, e) = ubx_step(next, b.last());
        match e {
            Some(x) => {
                assert((e1 + e2).push(x) =~= e1 + e2.push(x));
            },
            None => {},
        }
    }
}

/// The shape of a complete frame that fits the receive buffer.
pub open spec fn frame_shaped(s: Seq<u8>) -> bool {
    &&& s.len() >= UBX_MIN_LEN
    &&& s[0] == UBX_SYNC_CHAR_1
    &&& s[1] == UBX_SYNC_CHAR_2
    &&& frame_total(s) == s.len()
    &&& s.len() <= UBX_BUF_LEN
}

/// Every proper prefix of a frame-shaped `s` is held pending, silently.
proof fn lemma_frame_prefix(s: Seq<u8>, n: int)
    requires
        frame_shaped(s),
        0 <= n < s.len(),
    ensures
        ubx_run(Seq::empty(), s.subrange(0, n)) == (s.subrange(0, n), Seq::<UbxOutcome>::empty()),
    decreases n,
{
    if n == 0 {
        assert(s.subrange(0, 0) =~= Seq::<u8>::empty());
    } else {
        lemma_frame_prefix(s, n - 1);
        let t = s.subrange(0, n);
        assert(t.drop_last() =~= s.subrange(0, n - 1));
        assert(s.subrange(0, n - 1).push(s[n - 1]) =~= t);
        if n >= 6 {
            assert(frame_total(t) == frame_total(s));
        }
    }
}

/// A frame-shaped `s` received from the initial state ends in one report.
proof fn lemma_frame_run(s: Seq<u8>)
    requires
        frame_shaped(s),
    ensures
        ubx_run(Seq::empty(), s) == (Seq::<u8>::empty(), seq![frame_outcome(s)]),
{
    let n = s.len() - 1;
    lemma_frame_prefix(s, n);
    assert(s.drop_last() =~= s.subrange(0, n));
    assert(s.subrange(0, n).push(s.last()) =~= s);
    assert(Seq::<UbxOutcome>::empty().push(frame_outcome(s)) =~= seq![frame_outcome(s)]);
}

proof fn lemma_fletcher_sum(s: Seq<u8>)
    ensures
        fletcher(s).0 == byte_sum(s) % 256,
        byte_sum(s) >= 0,
    decreases s.len(),
{
    if s.len() > 0 {
        lemma_fletcher_sum(s.drop_last());
        vstd::arithmetic::div_mod::lemma_add_mod_noop(byte_sum(s.drop_last()), s.last() as int, 256);
        vstd::arithmetic::div_mod::lemma_small_mod(s.last() as nat, 256);
    }
}

proof fn lemma_sum_update(s: Seq<u8>, j: int, v: u8)
    requires
        0 <= j < s.len(),
    ensures
        byte_sum(s.update(j, v)) == byte_sum(s) - s[j] + v,
    decreases s.len(),
{
    let t = s.update(j, v);
    if j == s.len() - 1 {
        assert(t.drop_last() =~= s.drop_last());
    } else {
        lemma_sum_update(s.drop_last(), j, v);
        assert(t.drop_last() =~= s.drop_last().update(j, v));
    }
}

proof fn lemma_encoded_shape(class: u8, id: u8, payload: Seq<u8>)
    requires
        payload.len() + UBX_MIN_LEN <= UBX_BUF_LEN,
    ensures
        frame_shaped(ubx_frame(class, id, payload)),
{
    let f = ubx_frame(class, id, payload);
    assert(f[4] == payload.len() % 256);
    assert(f[5] == payload.len() / 256);
}

/// Encoding then parsing gives back the frame: received from the initial
/// state, the encoded frame is reported once, unchanged, and nothing stays
/// pending. This holds for every payload that fits the receive buffer.
pub proof fn lemma_encode_parse_round_trip(class: u8, id: u8, payload: Seq<u8>)
    requires
        payload.len() + UBX_MIN_LEN <= UBX_BUF_LEN,
    ensures
        ubx_run(Seq::empty(), ubx_frame(class, id, payload)) == (
            Seq::<u8>::empty(),
            seq![UbxOutcome::Frame { class, id, payload }],
        ),
{
    let f = ubx_frame(class, id, payload);
    let body = seq![class, id, (payload.len() % 256) as u8, (payload.len() / 256) as u8] + payload;
    lemma_encoded_shape(class, id, payload);
    lemma_frame_run(f);
    lemma_fletcher_bounds(body);
    let end = f.len() - 2;
    assert(f.subrange(2, end) =~= body);
    assert(f.subrange(6, end) =~= payload);
}

/// Bytes that hold no sync pair leave at most a lone sync character
/// pending, and report nothing.
proof fn lemma_garbage_prefix(g: Seq<u8>, n: int)
    requires
        no_sync_pair(g),
        0 <= n <= g.len(),
    ensures
        ubx_run(Seq::empty(), g.subrange(0, n)) == (
            if n > 0 && g[n - 1] == UBX_SYNC_CHAR_1 {
                seq![UBX_SYNC_CHAR_1]
            } else {
                Seq::<u8>::empty()
            },
            Seq::<UbxOutcome>::empty(),
        ),
    decreases n,
{
    if n == 0 {
        assert(g.subrange(0, 0) =~= Seq::<u8>::empty());
    } else {
        lemma_garbage_prefix(g, n - 1);
        assert(g.subrange(0, n).drop_last() =~= g.subrange(0, n - 1));
        if n >= 2 && g[n - 2] == UBX_SYNC_CHAR_1 {
            assert(!(g[n - 2] == UBX_SYNC_CHAR_1 && g[n - 1] == UBX_SYNC_CHAR_2));
            assert(seq![UBX_SYNC_CHAR_1].push(g[n - 1]).len() == 2);
        }
    }
}

/// A lone pending sync character does not disturb a frame that follows.
proof fn lemma_lone_sync_then_frame(s: Seq<u8>)
    requires
        frame_shaped(s),
    ensures
        ubx_run(seq![UBX_SYNC_CHAR_1], s) == ubx_run(Seq::empty(), s),
{
    let first = s.subrange(0, 1);
    let rest = s.subrange(1, s.len() as int);
    assert(first + rest =~= s);
    assert(first.drop_last() =~= Seq::<u8>::empty());
    assert(seq![UBX_SYNC_CHAR_1].push(s[0]).len() == 2);
    assert(Seq::<u8>::empty().push(UBX_SYNC_CHAR_1) =~= seq![UBX_SYNC_CHAR_1]);
    assert(ubx_run(seq![UBX_SYNC_CHAR_1], first.drop_last()).0 == seq![UBX_SYNC_CHAR_1]);
    assert(ubx_run(Seq::<u8>::empty(), first.drop_last()).0 == Seq::<u8>::empty());
    assert(first.last() == UBX_SYNC_CHAR_1);
    assert(ubx_step(seq![UBX_SYNC_CHAR_1], UBX_SYNC_CHAR_1) == ubx_step(Seq::<u8>::empty(), UBX_SYNC_CHAR_1));
    assert(ubx_run(seq![UBX_SYNC_CHAR_1], first) == ubx_run(Seq::empty(), first));
    lemma_run_concat(seq![UBX_SYNC_CHAR_1], first, rest);
    lemma_run_concat(Seq::empty(), first, rest);
}

/// Leading bytes that hold no sync pair are discarded, and the frame that
/// follows them is reported once, unchanged.
pub proof fn lemma_garbage_then_frame(garbage: Seq<u8>, class: u8, id: u8, payload: Seq<u8>)
    requires
        no_sync_pair(garbage),
        payload.len() + UBX_MIN_LEN <= UBX_BUF_LEN,
    ensures
        ubx_run(Seq::empty(), garbage + ubx_frame(class, id, payload)) == (
            Seq::<u8>::empty(),
            seq![UbxOutcome::Frame { class, id, payload }],
        ),
{
    let f = ubx_frame(class, id, payload);
    lemma_garbage_prefix(garbage, garbage.len() as int);
    assert(garbage.subrange(0, garbage.len() as int) =~= garbage);
    lemma_run_concat(Seq::empty(), garbage, f);
    lemma_encoded_shape(class, id, payload);
    lemma_encode_parse_round_trip(class, id, payload);
    lemma_lone_sync_then_frame(f);
    assert(Seq::<UbxOutcome>::empty() + seq![UbxOutcome::Frame { class, id, payload }]
        =~= seq![UbxOutcome::Frame { class, id, payload }]);
}

proof fn lemma_mod_change(t: int, x: int, w: int)
    requires
        0 <= x < 256,
        0 <= w < 256,
        x != w,
    ensures
        (t + w) % 256 != (t + x) % 256,
{
    vstd::arithmetic::div_mod::lemma_add_mod_noop(t, w, 256);
    vstd::arithmetic::div_mod::lemma_add_mod_noop(t, x, 256);
    vstd::arithmetic::div_mod::lemma_small_mod(w as nat, 256);
    vstd::arithmetic::div_mod::lemma_small_mod(x as nat, 256);
    assert(0 <= t % 256 < 256);
}

/// Changing one byte changes the checksum.
proof fn lemma_checksum_detects_change(s: Seq<u8>, j: int, v: u8)
    requires
        0 <= j < s.len(),
        v != s[j],
    ensures
        fletcher16(s.update(j, v)) != fletcher16(s),
{
    let t = s.update(j, v);
    lemma_fletcher_sum(s);
    lemma_fletcher_sum(t);
    lemma_sum_update(s, j, v);
    lemma_fletcher_bounds(s);
    lemma_fletcher_bounds(t);
    lemma_mod_change(byte_sum(s) - s[j], s[j] as int, v as int);
    assert(byte_sum(s) - s[j] + s[j] == byte_sum(s));
}

/// A frame with one payload byte changed fails its checksum; it is dropped
/// whole, and whatever follows is received as if from the initial state.
pub proof fn lemma_corrupted_frame_resyncs(
    class: u8,
    id: u8,
    payload: Seq<u8>,
    k: int,
    v: u8,
    rest: Seq<u8>,
)
    requires
        payload.len() + UBX_MIN_LEN <= UBX_BUF_LEN,
        0 <= k < payload.len(),
        v != payload[k],
    ensures
        ({
            let corrupted = ubx_frame(class, id, payload).update(UBX_PAYLOAD_OFFSET + k, v);
            &&& frame_outcome(corrupted) is ChecksumMismatch
            &&& ubx_run(Seq::empty(), corrupted + rest) == (
                ubx_run(Seq::empty(), rest).0,
                seq![frame_outcome(corrupted)] + ubx_run(Seq::empty(), rest).1,
            )
        }),
{
    let f = ubx_frame(class, id, payload);
    let c = f.update(UBX_PAYLOAD_OFFSET + k, v);
    let body = seq![class, id, (payload.len() % 256) as u8, (payload.len() / 256) as u8] + payload;
    lemma_encoded_shape(class, id, payload);
    assert(frame_total(c) == frame_total(f));
    lemma_frame_run(c);
    lemma_run_concat(Seq::empty(), c, rest);
    assert(Seq::<UbxOutcome>::empty().push(frame_outcome(c)) =~= seq![frame_outcome(c)]);
    let end = c.len() - 2;
    assert(c.subrange(2, end) =~= body.update(4 + k, v));
    assert(body[4 + k] == payload[k]);
    lemma_checksum_detects_change(body, 4 + k, v);
    lemma_fletcher_bounds(body);
    assert(c[end] == f[end] && c[end + 1] == f[end + 1]);
}

} // verus!
