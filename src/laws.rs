//! Properties of the engine and the codec that span several calls.
use vstd::prelude::*;
use crate::client::{item_view, lift, Client, ClientState, ClientView, Mode};
use crate::codec::{decode_response, decode_token, tokens, Field, FieldKind, ValueModel};
use crate::command::{parse_result, AtCommand};
use crate::error::{Error, CmdError, InternalError, NbError};
use crate::queues::{Command, ResItem};

verus! {

/// Parsing a response never yields a timeout: a timeout is the client's own
/// verdict, in `Timeout` mode only.
pub proof fn lemma_parse_never_times_out(cmd: AtCommand, res: Result<Seq<u8>, InternalError>)
    ensures
        parse_result(cmd, res) != Err::<Seq<ValueModel>, Error<CmdError>>(Error::Timeout),
{
}

/// In `Blocking` mode a check never reports a timeout; its outcome is a
/// value, a write, parse or device error, or would-block. It ends the wait as
/// soon as a response reaches a command in flight: would-block comes only
/// while no response is ready (nothing changes), or for a response that
/// arrived with no command in flight (it is dropped).
pub proof fn lemma_blocking_check(
    pre: ClientView,
    cmd: &AtCommand,
    item: Option<ResItem>,
    timer_expired: bool,
    post: ClientView,
    out: Result<Seq<ValueModel>, NbError<Error<CmdError>>>,
)
    requires
        pre.config.mode == Mode::Blocking,
        Client::checked(pre, cmd, item, timer_expired, post, out),
    ensures
        out != Err::<Seq<ValueModel>, NbError<Error<CmdError>>>(NbError::Other(Error::Timeout)),
        out is Ok || out == Err::<Seq<ValueModel>, NbError<Error<CmdError>>>(NbError::WouldBlock)
            || out == Err::<Seq<ValueModel>, NbError<Error<CmdError>>>(NbError::Other(Error::Write))
            || out == Err::<Seq<ValueModel>, NbError<Error<CmdError>>>(NbError::Other(Error::Parse))
            || exists|e: CmdError| out == Err::<Seq<ValueModel>, NbError<Error<CmdError>>>(NbError::Other(Error::Error(e))),
        pre.state == ClientState::AwaitingResponse && item is Some ==> post.state == ClientState::Idle
            && out != Err::<Seq<ValueModel>, NbError<Error<CmdError>>>(NbError::WouldBlock),
        out == Err::<Seq<ValueModel>, NbError<Error<CmdError>>>(NbError::WouldBlock) ==> (item is None
            && post == pre) || (item is Some && pre.state == ClientState::Idle),
{
    match item {
        Some(i) => {
            let p = parse_result(*cmd, item_view(i));
            lemma_parse_never_times_out(*cmd, item_view(i));
            match p {
                Ok(_) => {},
                Err(Error::Error(e)) => {
                    assert(out == Err::<Seq<ValueModel>, NbError<Error<CmdError>>>(NbError::Other(Error::Error(e))));
                },
                Err(_) => {},
            }
        },
        None => {},
    }
}

/// In `NonBlocking` mode, with a command in flight and no response yet, a
/// check reports would-block and keeps waiting; once a response is ready,
/// the next check returns its decoded value and the engine is idle again.
pub proof fn lemma_non_blocking_round(
    pre: ClientView,
    cmd: &AtCommand,
    t1: bool,
    mid: ClientView,
    out1: Result<Seq<ValueModel>, NbError<Error<CmdError>>>,
    item: ResItem,
    t2: bool,
    post: ClientView,
    out2: Result<Seq<ValueModel>, NbError<Error<CmdError>>>,
)
    requires
        pre.config.mode == Mode::NonBlocking,
        pre.state == ClientState::AwaitingResponse,
        Client::checked(pre, cmd, None, t1, mid, out1),
        Client::checked(mid, cmd, Some(item), t2, post, out2),
    ensures
        out1 == Err::<Seq<ValueModel>, NbError<Error<CmdError>>>(NbError::WouldBlock),
        mid == pre,
        out2 == lift(parse_result(*cmd, item_view(item))),
        post.state == ClientState::Idle,
        post.timer == Some(pre.config.cmd_cooldown),
{
}

/// In `Timeout` mode, once the timer has expired with no response ready, a
/// check reports a timeout, the engine is idle, the cooldown is requested,
/// and a `Reset` signal is the newest one offered to the ingress manager.
pub proof fn lemma_timeout_check(
    pre: ClientView,
    cmd: &AtCommand,
    post: ClientView,
    out: Result<Seq<ValueModel>, NbError<Error<CmdError>>>,
)
    requires
        pre.config.mode == Mode::Timeout,
        Client::checked(pre, cmd, None, true, post, out),
    ensures
        out == Err::<Seq<ValueModel>, NbError<Error<CmdError>>>(NbError::Other(Error::Timeout)),
        post.state == ClientState::Idle,
        post.timer == Some(pre.config.cmd_cooldown),
        post.signals.len() == pre.signals.len() + 1,
        post.signals.last() == Command::Reset,
{
}

/// A payload with a field whose token does not read as the field's kind (such
/// as text where a number is declared) is a parse error, never a value.
pub proof fn lemma_malformed_field_is_parse_error(cmd: AtCommand, raw: Seq<u8>, i: int)
    requires
        0 <= i < cmd.response@.len(),
        cmd.response@[i].position < tokens(raw).len(),
        decode_token(tokens(raw)[cmd.response@[i].position as int], cmd.response@[i].kind) is None,
    ensures
        decode_response(cmd.response@, raw) is None,
        parse_result(cmd, Ok(raw)) == Err::<Seq<ValueModel>, Error<CmdError>>(Error::Parse),
{
    let fields = cmd.response@;
    assert(!crate::codec::fields_decode(fields, tokens(raw))) by {
        assert(fields[i] == fields[i]);
    }
}

/// A quoted token never reads as a number.
pub proof fn lemma_text_is_no_number(t: Seq<u8>, max: u64)
    requires
        t.len() > 0,
        t[0] == 34u8,
    ensures
        decode_token(t, FieldKind::Int { max }) is None,
{
    assert(!(48u8 <= t[0] <= 57u8));
}

} // verus!
