use atat::client::{Client, ClientState, Config, Mode};
use atat::codec::{Arg, Field, FieldKind, Value};
use atat::command::{AtCommand, ErrorTable, UrcSet, UrcVariant};
use atat::error::{CmdError, Error, InternalError, NbError};
use atat::queues::{ComQueue, Command, ResQueue, UrcQueue};
use heapless::spsc::Queue;

type Outcome = Result<Vec<Value>, NbError<Error<CmdError>>>;

/// The code that stands for a command's own error type with a single variant.
const INNER_ERROR_TEST: u32 = 0;

fn queues() -> (ResQueue, UrcQueue, ComQueue) {
    (Queue::new(), Queue::new(), Queue::new())
}

/// Sends `cmd` the way a caller with a transport does: writes the bytes into
/// `tx` (or fails the write), then polls until the outcome is final unless the
/// client is non-blocking. The timer never expires.
fn send_with(client: &mut Client<'_>, cmd: &AtCommand, tx: &mut Vec<u8>, write_ok: bool) -> Outcome {
    let written = match client.begin_send(cmd) {
        Some(bytes) => {
            if write_ok {
                tx.extend_from_slice(&bytes);
            }
            write_ok
        }
        None => true,
    };
    let mut r = client.send(cmd, written);
    if client.get_mode() != Mode::NonBlocking {
        let mut polls = 0;
        while r == Err(NbError::WouldBlock) && polls < 100 {
            r = client.check_response(cmd, false);
            polls += 1;
        }
    }
    r
}

fn cfun(fun_pos: usize, fun: u64, rst_pos: usize, rst: u64, name: &[u8], response: Vec<Field>) -> AtCommand {
    let mut c = AtCommand::new(
        name.to_vec(),
        vec![
            Arg { position: fun_pos, value: Value::Int(fun) },
            Arg { position: rst_pos, value: Value::Int(rst) },
        ],
        response,
    );
    c.timeout_ms = 180000;
    c
}

/// `+CFUN` with fun = APM (4) at position 0, rst = DontReset (0) at position 1.
fn set_module_functionality() -> AtCommand {
    cfun(0, 4, 1, 0, b"+CFUN", vec![])
}

fn string_response() -> Vec<Field> {
    vec![
        Field { position: 0, kind: FieldKind::Int { max: 255 } },
        Field { position: 1, kind: FieldKind::Int { max: u64::MAX } },
        Field { position: 2, kind: FieldKind::Str },
    ]
}

fn mixed_string_response() -> Vec<Field> {
    vec![
        Field { position: 1, kind: FieldKind::Int { max: 255 } },
        Field { position: 2, kind: FieldKind::Int { max: u64::MAX } },
        Field { position: 0, kind: FieldKind::Str },
    ]
}

fn umwi() -> UrcSet {
    UrcSet {
        variants: vec![UrcVariant {
            prefix: b"+UMWI".to_vec(),
            fields: vec![
                Field { position: 0, kind: FieldKind::Int { max: 255 } },
                Field { position: 1, kind: FieldKind::Int { max: 255 } },
            ],
        }],
    }
}

fn expected_cun() -> Vec<Value> {
    vec![Value::Int(22), Value::Int(16), Value::Str(b"0123456789012345".to_vec())]
}

#[test]
fn error_response() {
    let (mut rq, mut uq, mut cq) = queues();
    let (mut rp, rc) = rq.split();
    let (mut up, uc) = uq.split();
    let (cp, mut cc) = cq.split();
    let mut client = Client::new(rc, uc, cp, Config::new(Mode::Blocking));
    let mut tx = Vec::new();
    let mut cmd = AtCommand::new(b"+CFUN".to_vec(), vec![Arg { position: 0, value: Value::Int(7) }], vec![]);
    cmd.errors = Some(ErrorTable { entries: vec![], otherwise: Some(INNER_ERROR_TEST) });
    rp.enqueue(Err(InternalError::Error(Vec::new()))).unwrap();
    assert_eq!(client.state(), ClientState::Idle);
    assert_eq!(
        send_with(&mut client, &cmd, &mut tx, true),
        Err(NbError::Other(Error::Error(CmdError::Code(INNER_ERROR_TEST))))
    );
    assert_eq!(client.state(), ClientState::Idle);
}

#[test]
fn generic_error_response() {
    let (mut rq, mut uq, mut cq) = queues();
    let (mut rp, rc) = rq.split();
    let (mut up, uc) = uq.split();
    let (cp, mut cc) = cq.split();
    let mut client = Client::new(rc, uc, cp, Config::new(Mode::Blocking));
    let mut tx = Vec::new();
    let cmd = set_module_functionality();
    rp.enqueue(Err(InternalError::Error(Vec::new()))).unwrap();
    assert_eq!(client.state(), ClientState::Idle);
    assert_eq!(send_with(&mut client, &cmd, &mut tx, true), Err(NbError::Other(Error::Error(CmdError::Generic))));
    assert_eq!(client.state(), ClientState::Idle);
}

#[test]
fn string_sent() {
    let (mut rq, mut uq, mut cq) = queues();
    let (mut rp, rc) = rq.split();
    let (mut up, uc) = uq.split();
    let (cp, mut cc) = cq.split();
    let mut client = Client::new(rc, uc, cp, Config::new(Mode::Blocking));
    let mut tx = Vec::new();
    let cmd = set_module_functionality();
    rp.enqueue(Ok(Vec::new())).unwrap();
    assert_eq!(client.state(), ClientState::Idle);
    assert_eq!(send_with(&mut client, &cmd, &mut tx, true), Ok(vec![]));
    assert_eq!(client.state(), ClientState::Idle);
    assert_eq!(tx, b"AT+CFUN=4,0\r\n".to_vec(), "Wrong encoding of string");

    rp.enqueue(Ok(Vec::new())).unwrap();
    // fun = DM (6) declared first but at position 1, rst = Reset (1) at position 0
    let cmd = cfun(1, 6, 0, 1, b"+FUN", vec![]);
    assert_eq!(send_with(&mut client, &cmd, &mut tx, true), Ok(vec![]));
    assert_eq!(tx, b"AT+CFUN=4,0\r\nAT+FUN=1,6\r\n".to_vec(), "Reverse order string did not match");
}

#[test]
fn blocking() {
    let (mut rq, mut uq, mut cq) = queues();
    let (mut rp, rc) = rq.split();
    let (mut up, uc) = uq.split();
    let (cp, mut cc) = cq.split();
    let mut client = Client::new(rc, uc, cp, Config::new(Mode::Blocking));
    let mut tx = Vec::new();
    let cmd = set_module_functionality();
    rp.enqueue(Ok(Vec::new())).unwrap();
    assert_eq!(client.state(), ClientState::Idle);
    assert_eq!(send_with(&mut client, &cmd, &mut tx, true), Ok(vec![]));
    assert_eq!(client.state(), ClientState::Idle);
    assert_eq!(tx, b"AT+CFUN=4,0\r\n".to_vec());
}

#[test]
fn non_blocking() {
    let (mut rq, mut uq, mut cq) = queues();
    let (mut rp, rc) = rq.split();
    let (mut up, uc) = uq.split();
    let (cp, mut cc) = cq.split();
    let mut client = Client::new(rc, uc, cp, Config::new(Mode::NonBlocking));
    let mut tx = Vec::new();
    let cmd = set_module_functionality();
    assert_eq!(client.state(), ClientState::Idle);
    assert_eq!(send_with(&mut client, &cmd, &mut tx, true), Err(NbError::WouldBlock));
    assert_eq!(client.state(), ClientState::AwaitingResponse);

    assert_eq!(client.check_response(&cmd, false), Err(NbError::WouldBlock));

    rp.enqueue(Ok(Vec::new())).unwrap();
    assert_eq!(client.state(), ClientState::AwaitingResponse);

    assert_eq!(client.check_response(&cmd, false), Ok(vec![]));
    assert_eq!(client.state(), ClientState::Idle);
}

#[test]
fn response_string() {
    let (mut rq, mut uq, mut cq) = queues();
    let (mut rp, rc) = rq.split();
    let (mut up, uc) = uq.split();
    let (cp, mut cc) = cq.split();
    let mut client = Client::new(rc, uc, cp, Config::new(Mode::Blocking));
    let mut tx = Vec::new();
    // String last
    let cmd = cfun(0, 4, 1, 0, b"+CUN", string_response());
    rp.enqueue(Ok(b"+CUN: 22,16,\"0123456789012345\"".to_vec())).unwrap();
    assert_eq!(client.state(), ClientState::Idle);
    assert_eq!(send_with(&mut client, &cmd, &mut tx, true), Ok(expected_cun()));
    assert_eq!(client.state(), ClientState::Idle);

    // Mixed order for string
    let cmd = cfun(1, 4, 0, 0, b"+CUN", mixed_string_response());
    rp.enqueue(Ok(b"+CUN: \"0123456789012345\",22,16".to_vec())).unwrap();
    assert_eq!(send_with(&mut client, &cmd, &mut tx, true), Ok(expected_cun()));
    assert_eq!(client.state(), ClientState::Idle);
}

#[test]
fn urc() {
    let (mut rq, mut uq, mut cq) = queues();
    let (mut rp, rc) = rq.split();
    let (mut up, uc) = uq.split();
    let (cp, mut cc) = cq.split();
    let mut client = Client::new(rc, uc, cp, Config::new(Mode::NonBlocking));
    up.enqueue(b"+UMWI: 0, 1".to_vec()).unwrap();
    assert_eq!(client.state(), ClientState::Idle);
    assert!(client.check_urc(&umwi()).is_some());
    assert_eq!(client.state(), ClientState::Idle);
}

#[test]
fn invalid_response() {
    let (mut rq, mut uq, mut cq) = queues();
    let (mut rp, rc) = rq.split();
    let (mut up, uc) = uq.split();
    let (cp, mut cc) = cq.split();
    let mut client = Client::new(rc, uc, cp, Config::new(Mode::Blocking));
    let mut tx = Vec::new();
    // String last
    let cmd = cfun(0, 4, 1, 0, b"+CUN", string_response());
    rp.enqueue(Ok(b"+CUN: 22,16,22".to_vec())).unwrap();
    assert_eq!(client.state(), ClientState::Idle);
    assert_eq!(send_with(&mut client, &cmd, &mut tx, true), Err(NbError::Other(Error::Parse)));
    assert_eq!(client.state(), ClientState::Idle);
}

#[test]
fn no_response_command_resolves_at_once() {
    let (mut rq, mut uq, mut cq) = queues();
    let (mut rp, rc) = rq.split();
    let (mut up, uc) = uq.split();
    let (cp, mut cc) = cq.split();
    let mut client = Client::new(rc, uc, cp, Config::new(Mode::NonBlocking));
    let mut tx = Vec::new();
    let mut cmd = set_module_functionality();
    cmd.expects_response_code = false;
    assert_eq!(send_with(&mut client, &cmd, &mut tx, true), Ok(vec![]));
    assert_eq!(client.state(), ClientState::Idle);
    assert_eq!(rp.len(), 0);
}

#[test]
fn no_response_command_parses_empty_payload() {
    let (mut rq, mut uq, mut cq) = queues();
    let (mut rp, rc) = rq.split();
    let (mut up, uc) = uq.split();
    let (cp, mut cc) = cq.split();
    let mut client = Client::new(rc, uc, cp, Config::new(Mode::Blocking));
    let mut tx = Vec::new();
    let mut cmd = cfun(0, 4, 1, 0, b"+CUN", string_response());
    cmd.expects_response_code = false;
    assert_eq!(send_with(&mut client, &cmd, &mut tx, true), Err(NbError::Other(Error::Parse)));
    assert_eq!(client.state(), ClientState::Idle);
}

#[test]
fn write_failure_leaves_client_idle() {
    let (mut rq, mut uq, mut cq) = queues();
    let (mut rp, rc) = rq.split();
    let (mut up, uc) = uq.split();
    let (cp, mut cc) = cq.split();
    let mut client = Client::new(rc, uc, cp, Config::new(Mode::Blocking));
    let mut tx = Vec::new();
    let cmd = set_module_functionality();
    rp.enqueue(Ok(Vec::new())).unwrap();
    assert_eq!(send_with(&mut client, &cmd, &mut tx, false), Err(NbError::Other(Error::Write)));
    assert_eq!(client.state(), ClientState::Idle);
    assert_eq!(rp.len(), 1);
    assert!(tx.is_empty());
}

#[test]
fn timeout_resets_ingress_manager() {
    let (mut rq, mut uq, mut cq) = queues();
    let (mut rp, rc) = rq.split();
    let (mut up, uc) = uq.split();
    let (cp, mut cc) = cq.split();
    let mut client = Client::new(rc, uc, cp, Config::new(Mode::Timeout));
    let mut tx = Vec::new();
    let cmd = set_module_functionality();
    assert_eq!(send_with(&mut client, &cmd, &mut tx, true), Err(NbError::WouldBlock));
    assert_eq!(client.take_timer_request(), Some(180000));
    assert_eq!(client.state(), ClientState::AwaitingResponse);
    assert_eq!(client.check_response(&cmd, false), Err(NbError::WouldBlock));
    assert_eq!(client.check_response(&cmd, true), Err(NbError::Other(Error::Timeout)));
    assert_eq!(client.state(), ClientState::Idle);
    assert_eq!(client.take_timer_request(), Some(20));
    assert_eq!(cc.dequeue(), Some(Command::Reset));
    assert_eq!(cc.dequeue(), None);
}

#[test]
fn expired_timer_is_ignored_outside_timeout_mode() {
    let (mut rq, mut uq, mut cq) = queues();
    let (mut rp, rc) = rq.split();
    let (mut up, uc) = uq.split();
    let (cp, mut cc) = cq.split();
    let mut client = Client::new(rc, uc, cp, Config::new(Mode::NonBlocking));
    let mut tx = Vec::new();
    let cmd = set_module_functionality();
    assert_eq!(send_with(&mut client, &cmd, &mut tx, true), Err(NbError::WouldBlock));
    assert_eq!(client.check_response(&cmd, true), Err(NbError::WouldBlock));
    assert_eq!(client.state(), ClientState::AwaitingResponse);
    assert_eq!(cc.dequeue(), None);
}

#[test]
fn response_arms_cooldown() {
    let (mut rq, mut uq, mut cq) = queues();
    let (mut rp, rc) = rq.split();
    let (mut up, uc) = uq.split();
    let (cp, mut cc) = cq.split();
    let mut client = Client::new(rc, uc, cp, Config::new(Mode::Blocking).cmd_cooldown(35));
    let mut tx = Vec::new();
    let cmd = set_module_functionality();
    rp.enqueue(Ok(Vec::new())).unwrap();
    assert_eq!(send_with(&mut client, &cmd, &mut tx, true), Ok(vec![]));
    assert_eq!(client.take_timer_request(), Some(35));
    assert_eq!(client.take_timer_request(), None);
}

#[test]
fn spurious_response_while_idle_is_would_block() {
    let (mut rq, mut uq, mut cq) = queues();
    let (mut rp, rc) = rq.split();
    let (mut up, uc) = uq.split();
    let (cp, mut cc) = cq.split();
    let mut client = Client::new(rc, uc, cp, Config::new(Mode::NonBlocking));
    let cmd = set_module_functionality();
    rp.enqueue(Ok(Vec::new())).unwrap();
    assert_eq!(client.check_response(&cmd, false), Err(NbError::WouldBlock));
    assert_eq!(client.state(), ClientState::Idle);
    assert_eq!(rp.len(), 0);
    assert_eq!(client.take_timer_request(), Some(20));
}

#[test]
fn force_receive_state_is_signalled() {
    let (mut rq, mut uq, mut cq) = queues();
    let (mut rp, rc) = rq.split();
    let (mut up, uc) = uq.split();
    let (cp, mut cc) = cq.split();
    let mut client = Client::new(rc, uc, cp, Config::new(Mode::NonBlocking));
    let mut tx = Vec::new();
    let mut cmd = set_module_functionality();
    cmd.force_receive_state = true;
    assert_eq!(send_with(&mut client, &cmd, &mut tx, true), Err(NbError::WouldBlock));
    assert_eq!(cc.dequeue(), Some(Command::ForceReceiveState));
    // a second poll writes nothing and signals nothing
    assert_eq!(send_with(&mut client, &cmd, &mut tx, true), Err(NbError::WouldBlock));
    assert_eq!(cc.dequeue(), None);
    assert_eq!(tx, b"AT+CFUN=4,0\r\n".to_vec());
}

#[test]
fn reset_drains_full_queues() {
    let (mut rq, mut uq, mut cq) = queues();
    let (mut rp, rc) = rq.split();
    let (mut up, uc) = uq.split();
    let (cp, mut cc) = cq.split();
    let mut client = Client::new(rc, uc, cp, Config::new(Mode::NonBlocking));
    let mut tx = Vec::new();
    let cmd = set_module_functionality();
    assert_eq!(send_with(&mut client, &cmd, &mut tx, true), Err(NbError::WouldBlock));
    for _ in 0..5 {
        rp.enqueue(Ok(Vec::new())).unwrap();
    }
    assert!(rp.enqueue(Ok(Vec::new())).is_err());
    for _ in 0..10 {
        up.enqueue(b"+UMWI: 0, 1".to_vec()).unwrap();
    }
    assert!(up.enqueue(b"+UMWI: 0, 1".to_vec()).is_err());
    client.reset();
    assert_eq!(rp.len(), 0);
    assert_eq!(up.len(), 0);
    assert_eq!(client.state(), ClientState::Idle);
    assert_eq!(cc.dequeue(), Some(Command::Reset));
}

#[test]
fn peek_urc_rejected_stays_queued() {
    let (mut rq, mut uq, mut cq) = queues();
    let (mut rp, rc) = rq.split();
    let (mut up, uc) = uq.split();
    let (cp, mut cc) = cq.split();
    let mut client = Client::new(rc, uc, cp, Config::new(Mode::NonBlocking));
    up.enqueue(b"+UMWI: 0, 1".to_vec()).unwrap();
    let mut seen = None;
    client.peek_urc_with(&umwi(), |u| {
        seen = Some(u);
        false
    });
    assert_eq!(seen.unwrap().values, vec![Value::Int(0), Value::Int(1)]);
    assert_eq!(up.len(), 1);
    let u = client.check_urc(&umwi()).unwrap();
    assert_eq!(u.variant, 0);
    assert_eq!(u.values, vec![Value::Int(0), Value::Int(1)]);
    assert_eq!(up.len(), 0);
}

#[test]
fn peek_urc_accepted_is_removed() {
    let (mut rq, mut uq, mut cq) = queues();
    let (mut rp, rc) = rq.split();
    let (mut up, uc) = uq.split();
    let (cp, mut cc) = cq.split();
    let mut client = Client::new(rc, uc, cp, Config::new(Mode::NonBlocking));
    up.enqueue(b"+UMWI: 0, 1".to_vec()).unwrap();
    up.enqueue(b"+UMWI: 1, 2".to_vec()).unwrap();
    client.peek_urc_with(&umwi(), |_| true);
    assert_eq!(up.len(), 1);
    let u = client.check_urc(&umwi()).unwrap();
    assert_eq!(u.values, vec![Value::Int(1), Value::Int(2)]);
}

#[test]
fn unrecognized_urc_is_dropped() {
    let (mut rq, mut uq, mut cq) = queues();
    let (mut rp, rc) = rq.split();
    let (mut up, uc) = uq.split();
    let (cp, mut cc) = cq.split();
    let mut client = Client::new(rc, uc, cp, Config::new(Mode::NonBlocking));
    up.enqueue(b"+XYZ: 3".to_vec()).unwrap();
    let mut called = false;
    client.peek_urc_with(&umwi(), |_| {
        called = true;
        false
    });
    assert!(!called);
    assert_eq!(up.len(), 0);
    assert_eq!(client.take_timer_request(), Some(20));
}

#[test]
fn ingress_timeout_in_blocking_mode_is_parse_error() {
    let (mut rq, mut uq, mut cq) = queues();
    let (mut rp, rc) = rq.split();
    let (_up, uc) = uq.split();
    let (cp, _cc) = cq.split();
    let mut client = Client::new(rc, uc, cp, Config::new(Mode::Blocking));
    let mut tx = Vec::new();
    let cmd = set_module_functionality();
    rp.enqueue(Err(InternalError::Timeout)).unwrap();
    assert_eq!(send_with(&mut client, &cmd, &mut tx, true), Err(NbError::Other(Error::Parse)));
    assert_eq!(client.state(), ClientState::Idle);
}
