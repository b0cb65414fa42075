//! The STN/ELM327 adapter's bring-up and monitoring state machine.
//!
//! The machine performs no I/O: each step takes the bytes of one read and
//! returns what the transport must do next (flush, then write).
use vstd::prelude::*;
use crate::metrics::Metrics;
use crate::text::{all_hex, contains, contains_slice, hex_value, parse_hex};

verus! {

pub const STNOBD_CFG_DISABLE_ECHO: &'static str = "ATE0\r";

pub const STNOBD_CFG_ENABLE_HEADER: &'static str = "ATH1\r";

pub const STNOBD_CFG_DISABLE_SPACES: &'static str = "ATS0\r";

pub const STNOBD_CFG_FILTER_BRAKES: &'static str = "STFPA085,FFF\r";

pub const STNOBD_CFG_FILTER_RPM_SPEED_ACCEL: &'static str = "STFPA201,FFF\r";

pub const STNOBD_CFG_FILTER_COOLANT_THROTTLE_INTAKE: &'static str = "STFPA240,FFF\r";

pub const STNOBD_CFG_FILTER_FUEL_LEVEL: &'static str = "STFPA430,FFF\r";

pub const STNOBD_CFG_FILTER_WHEEL_SPEEDS: &'static str = "STFPA4B0,FFF\r";

pub const CAN_ID_STR_LEN: usize = 3;

pub const CAN_DATA_STR_LEN: usize = 16;

/// Length of one monitoring line: identifier, payload and carriage return.
pub const MON_RSP_LEN: usize = 20;

/// How many bytes to read while waiting for the startup banner.
pub const RESET_RSP_LEN: usize = 32;

/// How many bytes to read for a configuration acknowledgment.
pub const CFG_ACK_LEN: usize = 4;

pub const CR: u8 = 0x0d;

/// `"ATZ\r"`
pub open spec fn reset_cmd() -> Seq<u8> {
    seq![0x41u8, 0x54, 0x5a, 0x0d]
}

/// `"STM\r"`
pub open spec fn monitor_cmd() -> Seq<u8> {
    seq![0x53u8, 0x54, 0x4d, 0x0d]
}

/// `"\r"`
pub open spec fn stop_cmd() -> Seq<u8> {
    seq![0x0du8]
}

/// `"ELM327"`
pub open spec fn startup_banner() -> Seq<u8> {
    seq![0x45u8, 0x4c, 0x4d, 0x33, 0x32, 0x37]
}

/// `"OK\r>"`
pub open spec fn cfg_ack() -> Seq<u8> {
    seq![0x4fu8, 0x4b, 0x0d, 0x3e]
}

/// Index of the rightmost carriage return in `s`, or -1 when there is none.
pub open spec fn last_cr(s: Seq<u8>) -> int
    decreases s.len(),
{
    if s.len() == 0 {
        -1
    } else if s.last() == CR {
        s.len() - 1
    } else {
        last_cr(s.drop_last())
    }
}

/// The CAN frame carried by a monitoring line: three hexadecimal digits of
/// identifier, sixteen of payload, then a carriage return.
pub open spec fn line_frame(line: Seq<u8>) -> Option<(u16, u64)> {
    if line.len() == MON_RSP_LEN && line[19] == CR && all_hex(line.subrange(0, 3)) && all_hex(
        line.subrange(3, 19),
    ) {
        Some((hex_value(line.subrange(0, 3)) as u16, hex_value(line.subrange(3, 19)) as u64))
    } else {
        None
    }
}

proof fn lemma_last_cr_bounds(s: Seq<u8>)
    ensures
        -1 <= last_cr(s) < s.len(),
        last_cr(s) >= 0 ==> s[last_cr(s)] == CR,
    decreases s.len(),
{
    if s.len() > 0 && s.last() != CR {
        lemma_last_cr_bounds(s.drop_last());
    }
}

#[derive(Clone, Copy, Debug, PartialEq, Eq, Structural)]
pub enum StnState {
    Idle,
    ResetInProgress,
    /// Waiting for the acknowledgment of a command; `next_cmd` is the index
    /// of the command to send after it.
    Configuring { next_cmd: usize },
    Monitoring,
}

/// What a step observed, for the caller to report.
#[derive(Clone, Copy, Debug, PartialEq, Eq, Structural)]
pub enum StnNotice {
    Nothing,
    ResetSent,
    BannerTooShort,
    BannerMissing,
    ResetDone,
    Acknowledged,
    AckMissing,
    PartialLine,
    Misaligned,
    MissingTerminator,
    MalformedLine,
    CanFrame { id: u16, data: u64 },
    Unhandled,
    MonitoringStopped,
}

/// What the transport must do after a step: flush first if `flush`, then
/// write `write` if present.
#[derive(Debug, PartialEq, Eq)]
pub struct StnOutput {
    pub flush: bool,
    pub write: Option<Vec<u8>>,
    pub notice: StnNotice,
}

pub struct StnOutputModel {
    pub flush: bool,
    pub write: Option<Seq<u8>>,
    pub notice: StnNotice,
}

impl View for StnOutput {
    type V = StnOutputModel;

    open spec fn view(&self) -> StnOutputModel {
        StnOutputModel {
            flush: self.flush,
            write: match self.write {
                Some(v) => Some(v@),
                None => None,
            },
            notice: self.notice,
        }
    }
}

pub open spec fn output(flush: bool, write: Option<Seq<u8>>, notice: StnNotice) -> StnOutputModel {
    StnOutputModel { flush, write, notice }
}

/// The adapter machine as a mathematical value: its state, its
/// configuration commands, and the bytes of the monitoring line read so far.
pub struct StnModel {
    pub state: StnState,
    pub cmds: Seq<Seq<u8>>,
    pub pending: Seq<u8>,
}

impl StnModel {
    pub open spec fn wf(self) -> bool {
        &&& self.pending.len() < MON_RSP_LEN
        &&& match self.state {
            StnState::Configuring { next_cmd } => next_cmd <= self.cmds.len(),
            _ => true,
        }
    }

    /// Sends command `n` if there is one, else enters monitoring mode.
    pub open spec fn send_cmd(self, n: int) -> (StnModel, Seq<u8>) {
        if n < self.cmds.len() {
            (StnModel { state: StnState::Configuring { next_cmd: (n + 1) as usize }, ..self }, self.cmds[n])
        } else {
            (StnModel { state: StnState::Monitoring, pending: Seq::empty(), ..self }, monitor_cmd())
        }
    }

    /// One step on the bytes `data` of one read: the next machine, the
    /// metrics record after it, and what the transport must do.
    pub open spec fn step(self, data: Seq<u8>, m: Metrics) -> (StnModel, Metrics, StnOutputModel) {
        match self.state {
            StnState::Idle => (self, m, output(true, None, StnNotice::Unhandled)),
            StnState::ResetInProgress => {
                if data.len() < startup_banner().len() {
                    (self, m, output(false, None, StnNotice::BannerTooShort))
                } else if contains(data, startup_banner()) {
                    let (s, w) = self.send_cmd(0);
                    (s, m, output(true, Some(w), StnNotice::ResetDone))
                } else {
                    (self, m, output(false, None, StnNotice::BannerMissing))
                }
            },
            StnState::Configuring { next_cmd } => {
                let (s, w) = self.send_cmd(next_cmd as int);
                let notice = if data.len() == CFG_ACK_LEN && contains(data, cfg_ack()) {
                    StnNotice::Acknowledged
                } else {
                    StnNotice::AckMissing
                };
                (s, m, output(true, Some(w), notice))
            },
            StnState::Monitoring => {
                let p = self.pending + data;
                if p.len() < MON_RSP_LEN {
                    (StnModel { pending: p, ..self }, m, output(false, None, StnNotice::PartialLine))
                } else {
                    let k = last_cr(p);
                    let cleared = StnModel { pending: Seq::empty(), ..self };
                    if k < 0 {
                        (cleared, m, output(false, None, StnNotice::MissingTerminator))
                    } else if k == MON_RSP_LEN - 1 {
                        match line_frame(p) {
                            Some((id, d)) => (
                                cleared,
                                m.decoded(id, d),
                                output(false, None, StnNotice::CanFrame { id, data: d }),
                            ),
                            None => (cleared, m, output(false, None, StnNotice::MalformedLine)),
                        }
                    } else {
                        (
                            StnModel { pending: p.subrange(k + 1, MON_RSP_LEN as int), ..self },
                            m,
                            output(false, None, StnNotice::Misaligned),
                        )
                    }
                }
            },
        }
    }
}

fn copy_bytes(s: &[u8]) -> (r: Vec<u8>)
    ensures
        r@ == s@,
{
    let mut r: Vec<u8> = Vec::new();
    let mut i: usize = 0;
    while i < s.len()
        invariant
            i <= s@.len(),
            r@ == s@.subrange(0, i as int),
        decreases s@.len() - i,
    {
        r.push(s[i]);
        i += 1;
        assert(r@ =~= s@.subrange(0, i as int));
    }
    assert(s@.subrange(0, s@.len() as int) =~= s@);
    r
}

/// Index of the rightmost carriage return in `s`.
pub fn rposition_cr(s: &[u8]) -> (r: Option<usize>)
    ensures
        match r {
            Some(k) => k == last_cr(s@),
            None => last_cr(s@) == -1,
        },
{
    let mut i: usize = s.len();
    assert(s@.subrange(0, i as int) =~= s@);
    while i > 0
        invariant
            i <= s@.len(),
            last_cr(s@) == last_cr(s@.subrange(0, i as int)),
        decreases i,
    {
        let ghost prefix = s@.subrange(0, i as int);
        assert(prefix.drop_last() =~= s@.subrange(0, i - 1));
        if s[i - 1] == CR {
            return Some(i - 1);
        }
        i -= 1;
    }
    None
}

/// The CAN frame carried by a monitoring line, if it is one.
pub fn decode_monitoring_line(line: &[u8]) -> (r: Option<(u16, u64)>)
    ensures
        r == line_frame(line@),
{
    if line.len() != MON_RSP_LEN || line[MON_RSP_LEN - 1] != CR {
        return None;
    }
    let id = parse_hex(&line[0..CAN_ID_STR_LEN]);
    let data = parse_hex(&line[CAN_ID_STR_LEN..CAN_ID_STR_LEN + CAN_DATA_STR_LEN]);
    match (id, data) {
        (Some(id), Some(data)) => {
            proof {
                reveal_with_fuel(crate::text::pow16, 4);
            }
            Some((id as u16, data))
        },
        _ => None,
    }
}

/// Driver of an STN/ELM327 adapter: reset, configuration, then monitoring
/// of CAN traffic.
pub struct Stnobd {
    pub state: StnState,
    pub cfg_cmds: Vec<Vec<u8>>,
    pub mon_rsp_buf: Vec<u8>,
    pub mon_rsp_pos: usize,
}

impl View for Stnobd {
    type V = StnModel;

    open spec fn view(&self) -> StnModel {
        StnModel {
            state: self.state,
            cmds: self.cfg_cmds@.map_values(|c: Vec<u8>| c@),
            pending: self.mon_rsp_buf@.subrange(0, self.mon_rsp_pos as int),
        }
    }
}

impl Stnobd {
    pub open spec fn wf(&self) -> bool {
        &&& self.mon_rsp_buf@.len() == MON_RSP_LEN
        &&& self.mon_rsp_pos < MON_RSP_LEN
        &&& self@.wf()
    }

    /// An idle machine that configures the adapter with `cmds`, in order,
    /// after each reset.
    pub fn new(cmds: Vec<Vec<u8>>) -> (r: Stnobd)
        ensures
            r.wf(),
            r@.state == StnState::Idle,
            r@.cmds == cmds@.map_values(|c: Vec<u8>| c@),
            r@.pending == Seq::<u8>::empty(),
    {
        let r = Stnobd { state: StnState::Idle, cfg_cmds: cmds, mon_rsp_buf: vec![0u8; MON_RSP_LEN], mon_rsp_pos: 0 };
        assert(r@.pending =~= Seq::<u8>::empty());
        r
    }

    /// How many bytes the next read should ask for.
    pub fn bytes_wanted(&self) -> (r: usize)
        requires
            self.wf(),
        ensures
            r as int == match self.state {
                StnState::Monitoring => MON_RSP_LEN - self@.pending.len(),
                StnState::Configuring { .. } => CFG_ACK_LEN as int,
                _ => RESET_RSP_LEN as int,
            },
            r > 0,
    {
        match self.state {
            StnState::Monitoring => MON_RSP_LEN - self.mon_rsp_pos,
            StnState::Configuring { .. } => CFG_ACK_LEN,
            _ => RESET_RSP_LEN,
        }
    }

    /// Starts a reset of the adapter: flush, then write `"ATZ\r"`.
    pub fn send_reset_cmd(&mut self) -> (r: StnOutput)
        requires
            old(self).wf(),
        ensures
            final(self).wf(),
            final(self)@ == (StnModel { state: StnState::ResetInProgress, ..old(self)@ }),
            r@ == output(true, Some(reset_cmd()), StnNotice::ResetSent),
    {
        self.state = StnState::ResetInProgress;
        let cmd = vec![0x41u8, 0x54, 0x5a, 0x0d];
        assert(cmd@ =~= reset_cmd());
        StnOutput { flush: true, write: Some(cmd), notice: StnNotice::ResetSent }
    }

    /// Leaves monitoring mode if the machine is in it; to be called before
    /// the transport is released.
    pub fn stop_monitoring_mode(&mut self) -> (r: StnOutput)
        requires
            old(self).wf(),
        ensures
            final(self).wf(),
            old(self).state == StnState::Monitoring ==> final(self)@ == (StnModel {
                state: StnState::Idle,
                ..old(self)@
            }) && r@ == output(false, Some(stop_cmd()), StnNotice::MonitoringStopped),
            old(self).state != StnState::Monitoring ==> final(self)@ == old(self)@ && r@ == output(
                false,
                None,
                StnNotice::Nothing,
            ),
    {
        if self.state == StnState::Monitoring {
            self.state = StnState::Idle;
            let cmd = vec![0x0du8];
            assert(cmd@ =~= stop_cmd());
            StnOutput { flush: false, write: Some(cmd), notice: StnNotice::MonitoringStopped }
        } else {
            StnOutput { flush: false, write: None, notice: StnNotice::Nothing }
        }
    }

    fn send_cfg_cmd(&mut self, n: usize) -> (r: Vec<u8>)
        requires
            old(self).wf(),
            n <= old(self).cfg_cmds@.len(),
        ensures
            final(self).wf(),
            (final(self)@, r@) == old(self)@.send_cmd(n as int),
    {
        if n < self.cfg_cmds.len() {
            self.state = StnState::Configuring { next_cmd: n + 1 };
            copy_bytes(self.cfg_cmds[n].as_slice())
        } else {
            self.start_monitoring_mode()
        }
    }

    fn start_monitoring_mode(&mut self) -> (r: Vec<u8>)
        requires
            old(self).wf(),
        ensures
            final(self).wf(),
            final(self)@ == (StnModel {
                state: StnState::Monitoring,
                pending: Seq::empty(),
                ..old(self)@
            }),
            r@ == monitor_cmd(),
    {
        self.state = StnState::Monitoring;
        self.mon_rsp_pos = 0;
        assert(self@.pending =~= Seq::<u8>::empty());
        let cmd = vec![0x53u8, 0x54, 0x4d, 0x0d];
        assert(cmd@ =~= monitor_cmd());
        cmd
    }

    fn handle_reset_rsp(&mut self, data: &[u8]) -> (r: StnOutput)
        requires
            old(self).wf(),
            old(self).state == StnState::ResetInProgress,
        ensures
            final(self).wf(),
            (final(self)@, r@) == ({
                let (s, _m, o) = old(self)@.step(data@, Metrics::zeroed());
                (s, o)
            }),
    {
        let banner = [0x45u8, 0x4c, 0x4d, 0x33, 0x32, 0x37];
        assert(banner@ =~= startup_banner());
        if data.len() < banner.len() {
            return StnOutput { flush: false, write: None, notice: StnNotice::BannerTooShort };
        }
        if contains_slice(data, banner.as_slice()) {
            let cmd = self.send_cfg_cmd(0);
            StnOutput { flush: true, write: Some(cmd), notice: StnNotice::ResetDone }
        } else {
            StnOutput { flush: false, write: None, notice: StnNotice::BannerMissing }
        }
    }

    fn handle_cfg_rsp(&mut self, data: &[u8], n: usize) -> (r: StnOutput)
        requires
            old(self).wf(),
            old(self).state == (StnState::Configuring { next_cmd: n }),
        ensures
            final(self).wf(),
            (final(self)@, r@) == ({
                let (s, _m, o) = old(self)@.step(data@, Metrics::zeroed());
                (s, o)
            }),
    {
        let ack = [0x4fu8, 0x4b, 0x0d, 0x3e];
        assert(ack@ =~= cfg_ack());
        let notice = if data.len() == CFG_ACK_LEN && contains_slice(data, ack.as_slice()) {
            StnNotice::Acknowledged
        } else {
            StnNotice::AckMissing
        };
        let cmd = self.send_cfg_cmd(n);
        StnOutput { flush: true, write: Some(cmd), notice }
    }

    /// Appends `data` to the monitoring line and handles it once complete.
    fn handle_monitoring_rsp(&mut self, data: &[u8], metrics: &mut Metrics) -> (r: StnOutput)
        requires
            old(self).wf(),
            old(self).state == StnState::Monitoring,
            data@.len() <= MON_RSP_LEN - old(self).mon_rsp_pos,
        ensures
            final(self).wf(),
            (final(self)@, *final(metrics), r@) == old(self)@.step(data@, *old(metrics)),
    {
        let ghost p = old(self)@.pending + data@;
        let pos = self.mon_rsp_pos;
        let mut i: usize = 0;
        while i < data.len()
            invariant
                self.mon_rsp_buf@.len() == MON_RSP_LEN,
                pos == self.mon_rsp_pos,
                self.state == old(self).state,
                self.cfg_cmds == old(self).cfg_cmds,
                i <= data@.len(),
                pos + data@.len() <= MON_RSP_LEN,
                p == old(self)@.pending + data@,
                p.len() == pos + data@.len(),
                forall|j: int| 0 <= j < pos ==> self.mon_rsp_buf@[j] == p[j],
                forall|j: int| pos <= j < pos + i ==> self.mon_rsp_buf@[j] == p[j],
            decreases data@.len() - i,
        {
            assert(p[pos + i] == data@[i as int]);
            self.mon_rsp_buf.set(pos + i, data[i]);
            i += 1;
        }
        let filled = pos + data.len();
        assert(self.mon_rsp_buf@.subrange(0, filled as int) =~= p);
        if filled < MON_RSP_LEN {
            self.mon_rsp_pos = filled;
            return StnOutput { flush: false, write: None, notice: StnNotice::PartialLine };
        }
        assert(self.mon_rsp_buf@ =~= p);
        self.mon_rsp_pos = 0;
        assert(self@.pending =~= Seq::<u8>::empty());
        proof {
            lemma_last_cr_bounds(p);
        }
        match rposition_cr(self.mon_rsp_buf.as_slice()) {
            None => StnOutput { flush: false, write: None, notice: StnNotice::MissingTerminator },
            Some(cr_index) => {
                if cr_index == MON_RSP_LEN - 1 {
                    match decode_monitoring_line(self.mon_rsp_buf.as_slice()) {
                        Some((id, can_data)) => {
                            metrics.handle_can_msg(id, can_data);
                            StnOutput {
                                flush: false,
                                write: None,
                                notice: StnNotice::CanFrame { id, data: can_data },
                            }
                        },
                        None => StnOutput {
                            flush: false,
                            write: None,
                            notice: StnNotice::MalformedLine,
                        },
                    }
                } else {
                    // Stray bytes preceded the line: keep what follows the
                    // carriage return, it may begin the next line.
                    let start = cr_index + 1;
                    let kept = MON_RSP_LEN - start;
                    let mut j: usize = 0;
                    while j < kept
                        invariant
                            self.mon_rsp_buf@.len() == MON_RSP_LEN,
                            start + kept == MON_RSP_LEN,
                            p.len() == MON_RSP_LEN,
                            self.state == old(self).state,
                            self.cfg_cmds == old(self).cfg_cmds,
                            j <= kept,
                            forall|k: int| 0 <= k < j ==> self.mon_rsp_buf@[k] == p[start + k],
                            forall|k: int| j <= k < MON_RSP_LEN ==> self.mon_rsp_buf@[k] == p[k],
                        decreases kept - j,
                    {
                        let b = self.mon_rsp_buf[start + j];
                        self.mon_rsp_buf.set(j, b);
                        j += 1;
                    }
                    self.mon_rsp_pos = kept;
                    assert(self@.pending =~= p.subrange(start as int, MON_RSP_LEN as int));
                    StnOutput { flush: false, write: None, notice: StnNotice::Misaligned }
                }
            },
        }
    }

    /// Handles the bytes of one read from the adapter. In monitoring mode
    /// the read must ask for no more than `bytes_wanted` bytes.
    pub fn handle_incoming_stnobd_msg(&mut self, data: &[u8], metrics: &mut Metrics) -> (r: StnOutput)
        requires
            old(self).wf(),
            old(self).state == StnState::Monitoring ==> data@.len() <= MON_RSP_LEN
                - old(self).mon_rsp_pos,
        ensures
            final(self).wf(),
            (final(self)@, *final(metrics), r@) == old(self)@.step(data@, *old(metrics)),
    {
        match self.state {
            StnState::ResetInProgress => self.handle_reset_rsp(data),
            StnState::Configuring { next_cmd } => self.handle_cfg_rsp(data, next_cmd),
            StnState::Monitoring => self.handle_monitoring_rsp(data, metrics),
            StnState::Idle => StnOutput { flush: true, write: None, notice: StnNotice::Unhandled },
        }
    }
}

/// A valid monitoring line, read whole or in two parts split anywhere, is
/// decoded into its identifier (the first three hexadecimal digits) and
/// payload (the next sixteen), applied to the metrics record, and leaves
/// the machine monitoring with an empty line.
pub proof fn lemma_line_decodes(s: StnModel, m: Metrics, line: Seq<u8>, cut: int)
    requires
        s.wf(),
        s.state == StnState::Monitoring,
        s.pending.len() == 0,
        line_frame(line) is Some,
        0 <= cut <= MON_RSP_LEN,
    ensures
        ({
            let (s1, m1, _o1) = s.step(line.subrange(0, cut), m);
            let (s2, m2, _o2) = s1.step(line.subrange(cut, MON_RSP_LEN as int), m1);
            &&& m2 == m.decoded(
                hex_value(line.subrange(0, 3)) as u16,
                hex_value(line.subrange(3, 19)) as u64,
            )
            &&& s2 == (StnModel { pending: Seq::empty(), ..s })
        }),
{
    let a = line.subrange(0, cut);
    let b = line.subrange(cut, MON_RSP_LEN as int);
    assert(s.pending + a =~= a);
    assert(line.last() == CR);
    if cut < MON_RSP_LEN {
        assert(a + b =~= line);
    } else {
        assert(a =~= line);
        assert(Seq::<u8>::empty() + b =~= Seq::<u8>::empty());
    }
}

/// Delivering the same valid monitoring line a second time leaves the
/// machine and the metrics record exactly as the first delivery did.
pub proof fn lemma_repeated_line_idempotent(s: StnModel, m: Metrics, line: Seq<u8>)
    requires
        s.wf(),
        s.state == StnState::Monitoring,
        s.pending.len() == 0,
        line_frame(line) is Some,
    ensures
        ({
            let (s1, m1, _o1) = s.step(line, m);
            let (s2, m2, _o2) = s1.step(line, m1);
            s2 == s1 && m2 == m1
        }),
{
    let (id, data) = line_frame(line).unwrap();
    assert(s.pending + line =~= line);
    assert(line.last() == CR);
    let (s1, m1, _o1) = s.step(line, m);
    assert(s1.pending + line =~= line);
    crate::metrics::lemma_decode_idempotent(m, id, data);
}

} // verus!
