use argon::atcmds::dhcp_query_command;
use argon::atcmds::disconnect_command;
use argon::atcmds::reconnect_command;
use argon::atcmds::scan_command;
use argon::commands::ParseError;
use argon::ingress::check_ok;
use argon::ingress::Ingress;
use argon::responses::EmptyResponse;
use argon::wifi::check_esp;
use argon::wifi::http_get_command;
use argon::wifi::read_step;
use argon::wifi::run_read;
use argon::wifi::take_response;
use argon::wifi::ReadEvent;
use argon::wifi::ReadState;
use argon::wifi::ReadStep;
use argon::wifi::ResponseError;
use argon::wifi::WifiError;
use argon::types::HTTPMethode;
use argon::types::TransportType;

#[test]
fn sentinel_scan_finds_ok_and_error() {
    assert!(check_ok(b"junk\r\nOK\r\n"));
    assert!(check_ok(b"ERROR"));
    assert!(check_ok(b"xxERRORxx"));
    assert!(!check_ok(b"ERR"));
    assert!(!check_ok(b"nothing to see"));
}

#[test]
fn ingress_completes_on_one_chunk() {
    let mut ing = Ingress::new();
    let completed = ing.write(b"junk\r\nOK\r\n");
    assert!(completed);
    let resp = ing.dequeue().unwrap();
    assert_eq!(resp, b"junk\r\nOK\r\n".to_vec());
    assert!(ing.dequeue().is_none());
}

#[test]
fn ingress_completes_across_chunks() {
    // A sentinel split over two arrivals is still seen.
    let mut ing = Ingress::new();
    assert!(!ing.write(b"O"));
    assert!(ing.write(b"K"));
    assert_eq!(ing.dequeue().unwrap(), b"OK".to_vec());
}

#[test]
fn ingress_completes_split_error_sentinel() {
    let mut ing = Ingress::new();
    assert!(!ing.write(b"reply ERR"));
    assert!(ing.write(b"OR\r\n"));
    assert_eq!(ing.dequeue().unwrap(), b"reply ERROR\r\n".to_vec());
}

#[test]
fn ingress_accumulates_until_sentinel() {
    let mut ing = Ingress::new();
    assert!(!ing.write(b"first line\r\n"));
    assert!(!ing.write(b"second line\r\n"));
    assert!(ing.write(b"OK\r\n"));
    assert_eq!(ing.dequeue().unwrap(), b"first line\r\nsecond line\r\nOK\r\n".to_vec());
}

#[test]
fn ingress_drops_when_queue_full() {
    let mut ing = Ingress::new();
    assert!(ing.write(b"a OK"));
    assert!(ing.write(b"b OK"));
    assert!(ing.write(b"c OK"));
    assert_eq!(ing.dequeue().unwrap(), b"a OK".to_vec());
    assert_eq!(ing.dequeue().unwrap(), b"b OK".to_vec());
    assert!(ing.dequeue().is_none());
}

#[test]
fn urc_queue_starts_empty() {
    let mut ing = Ingress::new();
    assert!(ing.dequeue_urc().is_none());
    ing.write(b"OK\r\n");
    assert!(ing.dequeue_urc().is_none());
}

#[test]
fn take_response_reports_missing_reply() {
    let mut ing = Ingress::new();
    let r = take_response(&mut ing);
    assert_eq!(r, Err(WifiError::AtatError(ResponseError::InvalidResponse)));
    ing.write(b"OK\r\n");
    assert_eq!(take_response(&mut ing).unwrap(), b"OK\r\n".to_vec());
}

#[test]
fn read_loop_times_out_after_budget() {
    // timeout_units + 1 empty polls end in a timeout, not an endless loop.
    let units = 3;
    let events: Vec<ReadEvent> = (0..units + 1).map(|_| ReadEvent::Empty).collect();
    let mut ing = Ingress::new();
    assert_eq!(run_read(2048, units, &events, &mut ing), ReadStep::TimedOut);
}

#[test]
fn read_loop_still_waiting_within_budget() {
    let events = vec![ReadEvent::Empty, ReadEvent::Empty];
    let mut ing = Ingress::new();
    match run_read(2048, 10, &events, &mut ing) {
        ReadStep::Continue(st) => {
            assert_eq!(st.received, 0);
            assert_eq!(st.zero_reads, 2);
        }
        other => panic!("still reading was expected, got {:?}", other),
    }
}

#[test]
fn read_loop_completes_on_sentinel_chunk() {
    let events = vec![
        ReadEvent::Empty,
        ReadEvent::Data(b"partial".to_vec()),
        ReadEvent::Data(b"rest OK\r\n".to_vec()),
    ];
    let mut ing = Ingress::new();
    assert_eq!(run_read(2048, 10, &events, &mut ing), ReadStep::Done(16));
    assert_eq!(ing.dequeue().unwrap(), b"partialrest OK\r\n".to_vec());
}

#[test]
fn read_loop_completes_on_split_sentinel() {
    // The sentinel arrives one byte per read; the loop completes on the
    // second read, with the digester holding the whole reply.
    let events = vec![ReadEvent::Data(b"O".to_vec()), ReadEvent::Data(b"K".to_vec())];
    let mut ing = Ingress::new();
    assert_eq!(run_read(2048, 10, &events, &mut ing), ReadStep::Done(2));
    assert_eq!(ing.dequeue().unwrap(), b"OK".to_vec());
}

#[test]
fn read_loop_completes_on_split_error_sentinel() {
    let events = vec![
        ReadEvent::Data(b"reply ERR".to_vec()),
        ReadEvent::Empty,
        ReadEvent::Data(b"OR\r\n".to_vec()),
    ];
    let mut ing = Ingress::new();
    assert_eq!(run_read(2048, 10, &events, &mut ing), ReadStep::Done(13));
    assert_eq!(ing.dequeue().unwrap(), b"reply ERROR\r\n".to_vec());
}

#[test]
fn read_loop_completes_when_buffer_fills() {
    let events = vec![ReadEvent::Data(b"abcdefgh".to_vec())];
    let mut ing = Ingress::new();
    assert_eq!(run_read(8, 10, &events, &mut ing), ReadStep::Done(8));
}

#[test]
fn read_loop_completes_on_filled_read() {
    let events = vec![ReadEvent::Data(b"xy".to_vec()), ReadEvent::Filled];
    let mut ing = Ingress::new();
    assert_eq!(run_read(2048, 10, &events, &mut ing), ReadStep::Done(2));
}

#[test]
fn read_loop_aborts_on_fault() {
    let events = vec![ReadEvent::Empty, ReadEvent::Fault, ReadEvent::Empty];
    let mut ing = Ingress::new();
    assert_eq!(run_read(2048, 10, &events, &mut ing), ReadStep::Failed);
}

#[test]
fn read_step_counts_zero_polls() {
    let mut ing = Ingress::new();
    let st = ReadState { received: 0, zero_reads: 0 };
    match read_step(2048, 1, st, &ReadEvent::Empty, &mut ing) {
        ReadStep::Continue(st2) => assert_eq!(st2.zero_reads, 1),
        other => panic!("one more poll was expected, got {:?}", other),
    }
    let st3 = ReadState { received: 0, zero_reads: 1 };
    assert_eq!(read_step(2048, 1, st3, &ReadEvent::Empty, &mut ing), ReadStep::TimedOut);
}

#[test]
fn boot_handshake_succeeds_on_fifth_probe() {
    let probes = vec![false, false, false, false, true];
    assert_eq!(check_esp(&probes), Ok(EmptyResponse {}));
}

#[test]
fn boot_handshake_fails_after_five_probes() {
    let probes = vec![false, false, false, false, false];
    assert_eq!(check_esp(&probes), Err(WifiError::CouldNotStartEsp));
    // a success past the budget is never consulted
    let late = vec![false, false, false, false, false, true];
    assert_eq!(check_esp(&late), Err(WifiError::CouldNotStartEsp));
}

#[test]
fn boot_handshake_succeeds_immediately() {
    let probes = vec![true];
    assert_eq!(check_esp(&probes), Ok(EmptyResponse {}));
}

#[test]
fn builder_lines_render_exactly() {
    assert_eq!(disconnect_command(), b"AT+CWQAP\r\n".to_vec());
    assert_eq!(scan_command(), b"AT+CWLAP\r\n".to_vec());
    assert_eq!(dhcp_query_command(), b"AT+CWDHCP?\r\n".to_vec());
    assert_eq!(reconnect_command(), b"AT+CWRECONNCFG=1,100\r\n".to_vec());
}

#[test]
fn http_get_command_picks_its_fields() {
    let cmd = http_get_command(b"https://example.test", TransportType::TCP);
    assert_eq!(cmd.methode, HTTPMethode::GET);
    assert_eq!(cmd.url, b"https://example.test".to_vec());
    assert_eq!(cmd.transport_type, TransportType::TCP);
    assert!(cmd.data.is_none());
    assert!(cmd.header.is_none());
}

#[test]
fn error_conversions_keep_their_payload() {
    assert_eq!(WifiError::from(77usize), WifiError::AtCommandError(77));
    assert_eq!(
        WifiError::from(ParseError::Overflow),
        WifiError::AtatError(ResponseError::Parse(ParseError::Overflow))
    );
}
