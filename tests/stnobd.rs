use mx5_telemetry::metrics::Metrics;
use mx5_telemetry::stnobd::{StnNotice, StnOutput, StnState, Stnobd, STNOBD_CFG_DISABLE_ECHO, STNOBD_CFG_ENABLE_HEADER};

fn monitoring_engine() -> (Stnobd, Metrics) {
    let mut stn = Stnobd::new(Vec::new());
    let mut m = Metrics::new();
    stn.send_reset_cmd();
    let out = stn.handle_incoming_stnobd_msg(b"ATZ\r\rELM327 v1.3a\r\r>", &mut m);
    assert_eq!(out.write, Some(b"STM\r".to_vec()));
    assert_eq!(stn.state, StnState::Monitoring);
    (stn, m)
}

#[test]
fn bring_up_sends_queued_commands_then_monitors() {
    let cmds = vec![
        STNOBD_CFG_DISABLE_ECHO.as_bytes().to_vec(),
        STNOBD_CFG_ENABLE_HEADER.as_bytes().to_vec(),
    ];
    let mut stn = Stnobd::new(cmds);
    let mut m = Metrics::new();
    assert_eq!(stn.state, StnState::Idle);

    let out = stn.send_reset_cmd();
    assert_eq!(out, StnOutput { flush: true, write: Some(b"ATZ\r".to_vec()), notice: StnNotice::ResetSent });
    assert_eq!(stn.state, StnState::ResetInProgress);

    let out = stn.handle_incoming_stnobd_msg(b"\r\rELM327 v1.3a\r\r>", &mut m);
    assert_eq!(out, StnOutput { flush: true, write: Some(b"ATE0\r".to_vec()), notice: StnNotice::ResetDone });

    let out = stn.handle_incoming_stnobd_msg(b"OK\r>", &mut m);
    assert_eq!(out, StnOutput { flush: true, write: Some(b"ATH1\r".to_vec()), notice: StnNotice::Acknowledged });

    let out = stn.handle_incoming_stnobd_msg(b"OK\r>", &mut m);
    assert_eq!(out, StnOutput { flush: true, write: Some(b"STM\r".to_vec()), notice: StnNotice::Acknowledged });
    assert_eq!(stn.state, StnState::Monitoring);
    assert_eq!(stn.bytes_wanted(), 20);
    assert_eq!(m, Metrics::new());
}

#[test]
fn short_banner_read_waits() {
    let mut stn = Stnobd::new(vec![b"ATE0\r".to_vec()]);
    let mut m = Metrics::new();
    stn.send_reset_cmd();
    let out = stn.handle_incoming_stnobd_msg(b"ELM", &mut m);
    assert_eq!(out, StnOutput { flush: false, write: None, notice: StnNotice::BannerTooShort });
    assert_eq!(stn.state, StnState::ResetInProgress);
    let out = stn.handle_incoming_stnobd_msg(b"garbage bytes", &mut m);
    assert_eq!(out, StnOutput { flush: false, write: None, notice: StnNotice::BannerMissing });
    assert_eq!(stn.state, StnState::ResetInProgress);
    assert_eq!(stn.bytes_wanted(), 32);
}

#[test]
fn missing_ack_proceeds_anyway() {
    let mut stn = Stnobd::new(vec![b"ATE0\r".to_vec(), b"ATS0\r".to_vec()]);
    let mut m = Metrics::new();
    stn.send_reset_cmd();
    stn.handle_incoming_stnobd_msg(b"ELM327", &mut m);
    assert_eq!(stn.state, StnState::Configuring { next_cmd: 1 });
    assert_eq!(stn.bytes_wanted(), 4);
    let out = stn.handle_incoming_stnobd_msg(b"?\r>", &mut m);
    assert_eq!(out, StnOutput { flush: true, write: Some(b"ATS0\r".to_vec()), notice: StnNotice::AckMissing });
    assert_eq!(stn.state, StnState::Configuring { next_cmd: 2 });
}

#[test]
fn empty_queue_goes_straight_to_monitoring() {
    let (stn, _m) = monitoring_engine();
    assert_eq!(stn.mon_rsp_pos, 0);
}

#[test]
fn line_split_over_two_reads_decodes_once() {
    let (mut stn, mut m) = monitoring_engine();
    let line = b"08500000000000000FE\r";
    assert_eq!(line.len(), 20);

    let out = stn.handle_incoming_stnobd_msg(&line[..12], &mut m);
    assert_eq!(out.notice, StnNotice::PartialLine);
    assert_eq!(m.brakes_pct, 0);
    assert_eq!(stn.bytes_wanted(), 8);

    let out = stn.handle_incoming_stnobd_msg(&line[12..], &mut m);
    assert_eq!(out, StnOutput { flush: false, write: None, notice: StnNotice::CanFrame { id: 0x085, data: 0xfe } });
    assert_eq!(m.brakes_pct, 30);
    assert_eq!(stn.mon_rsp_pos, 0);
    let mut expected = Metrics::new();
    expected.brakes_pct = 30;
    assert_eq!(m, expected);
}

#[test]
fn same_line_twice_gives_same_metrics() {
    let (mut stn, mut m) = monitoring_engine();
    let line = b"4b027104e2075309c40\r";
    stn.handle_incoming_stnobd_msg(line, &mut m);
    let once = m;
    assert_eq!(once.fl_speed_kmh, 300);
    stn.handle_incoming_stnobd_msg(line, &mut m);
    assert_eq!(m, once);
    assert_eq!(stn.mon_rsp_pos, 0);
}

#[test]
fn misaligned_line_keeps_bytes_after_terminator() {
    let (mut stn, mut m) = monitoring_engine();
    let line = b"08500000000000000FE\r";
    let mut first = b"AB\r".to_vec();
    first.extend_from_slice(&line[..17]);
    assert_eq!(first.len(), 20);
    let out = stn.handle_incoming_stnobd_msg(&first, &mut m);
    assert_eq!(out.notice, StnNotice::Misaligned);
    assert_eq!(stn.mon_rsp_pos, 17);
    assert_eq!(stn.bytes_wanted(), 3);
    let out = stn.handle_incoming_stnobd_msg(&line[17..], &mut m);
    assert_eq!(out.notice, StnNotice::CanFrame { id: 0x085, data: 0xfe });
    assert_eq!(m.brakes_pct, 30);
}

#[test]
fn line_without_terminator_is_dropped() {
    let (mut stn, mut m) = monitoring_engine();
    let out = stn.handle_incoming_stnobd_msg(b"08500000000000000FEX", &mut m);
    assert_eq!(out.notice, StnNotice::MissingTerminator);
    assert_eq!(stn.mon_rsp_pos, 0);
    assert_eq!(m, Metrics::new());
}

#[test]
fn line_with_bad_digits_is_dropped() {
    let (mut stn, mut m) = monitoring_engine();
    let out = stn.handle_incoming_stnobd_msg(b"08G00000000000000FE\r", &mut m);
    assert_eq!(out.notice, StnNotice::MalformedLine);
    assert_eq!(stn.mon_rsp_pos, 0);
    assert_eq!(m, Metrics::new());
}

#[test]
fn idle_input_is_flushed() {
    let mut stn = Stnobd::new(Vec::new());
    let mut m = Metrics::new();
    let out = stn.handle_incoming_stnobd_msg(b"noise", &mut m);
    assert_eq!(out, StnOutput { flush: true, write: None, notice: StnNotice::Unhandled });
    assert_eq!(stn.state, StnState::Idle);
}

#[test]
fn teardown_leaves_monitoring_mode() {
    let (mut stn, _m) = monitoring_engine();
    let out = stn.stop_monitoring_mode();
    assert_eq!(out, StnOutput { flush: false, write: Some(b"\r".to_vec()), notice: StnNotice::MonitoringStopped });
    assert_eq!(stn.state, StnState::Idle);
    let out = stn.stop_monitoring_mode();
    assert_eq!(out, StnOutput { flush: false, write: None, notice: StnNotice::Nothing });
}
