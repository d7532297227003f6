//! Command and URC descriptors: what a command writes on the wire, how its
//! response is read back, and how an unsolicited result code is recognized.
use vstd::prelude::*;
use crate::codec::{
    append, append_args, decode, decode_response, join_present, positions_wf, values_view, wire_args, Arg,
    Field, Value, ValueModel,
};
use crate::error::{Error, CmdError, InternalError};

verus! {

/// The deadline of a command that declares none, in milliseconds.
pub const DEFAULT_TIMEOUT_MS: u32 = 1000;

/// An AT command: its name, its arguments, the shape of its response and how
/// the client must treat it.
#[derive(Debug, Clone)]
pub struct AtCommand {
    /// The command name, such as `+CFUN`.
    pub cmd: Vec<u8>,
    /// The arguments in declaration order, each with its wire position.
    pub args: Vec<Arg>,
    /// The response fields in declaration order, each with its wire position.
    pub response: Vec<Field>,
    /// The longest the client waits for the response in `Timeout` mode.
    pub timeout_ms: u32,
    /// Whether the device answers with anything the client must wait for.
    pub expects_response_code: bool,
    /// Whether the command may be aborted once sent.
    pub abortable: bool,
    /// Whether the ingress manager must be forced into its receive state first.
    pub force_receive_state: bool,
    /// Whether `=` separates the name from the arguments.
    pub value_sep: bool,
    /// What precedes the name, usually `AT`.
    pub cmd_prefix: Vec<u8>,
    /// What ends the command, usually CR LF.
    pub termination: Vec<u8>,
    /// The command's own device errors; `None` maps every device error to `CmdError::Generic`.
    pub errors: Option<ErrorTable>,
}

/// One device error a command declares: the error text and its code.
#[derive(Debug, Clone)]
pub struct ErrorEntry {
    pub text: Vec<u8>,
    pub code: u32,
}

/// The device errors a command declares. An error text found in `entries`
/// maps to its code (first entry wins); any other text maps to `otherwise`,
/// or is a parse error when `otherwise` is `None`.
#[derive(Debug, Clone)]
pub struct ErrorTable {
    pub entries: Vec<ErrorEntry>,
    pub otherwise: Option<u32>,
}

/// The code of the first entry at or after `i` whose text is `text`.
pub open spec fn lookup_error(entries: Seq<ErrorEntry>, text: Seq<u8>, i: int) -> Option<u32>
    decreases entries.len() - i,
{
    if i < 0 || i >= entries.len() {
        None
    } else if entries[i].text@ == text {
        Some(entries[i].code)
    } else {
        lookup_error(entries, text, i + 1)
    }
}

/// What a device error with text `text` maps to.
pub open spec fn device_error(errors: Option<ErrorTable>, text: Seq<u8>) -> Error<CmdError> {
    match errors {
        None => Error::Error(CmdError::Generic),
        Some(t) => match lookup_error(t.entries@, text, 0) {
            Some(c) => Error::Error(CmdError::Code(c)),
            None => match t.otherwise {
                Some(c) => Error::Error(CmdError::Code(c)),
                None => Error::Parse,
            },
        },
    }
}

/// The bytes that a command puts on the wire: the `=` separator is written
/// only before at least one present argument.
pub open spec fn command_bytes(c: AtCommand) -> Seq<u8> {
    c.cmd_prefix@ + c.cmd@ + (if c.value_sep && join_present(wire_args(c.args@)).len() > 0 {
        seq![61u8]
    } else {
        Seq::empty()
    }) + join_present(wire_args(c.args@)) + c.termination@
}

/// The view of a raw response slot.
pub open spec fn slot_view(res: Result<&[u8], &InternalError>) -> Result<Seq<u8>, InternalError> {
    match res {
        Ok(b) => Ok(b@),
        Err(e) => Err(*e),
    }
}

/// What a response slot parses to for command `c`: the payload decodes into
/// the response fields, a device error maps through the command's error
/// table, and any other framing error is a parse error.
pub open spec fn parse_result(c: AtCommand, res: Result<Seq<u8>, InternalError>) -> Result<
    Seq<ValueModel>,
    Error<CmdError>,
> {
    match res {
        Ok(raw) => match decode_response(c.response@, raw) {
            Some(v) => Ok(v),
            None => Err(Error::Parse),
        },
        Err(InternalError::Error(text)) => Err(device_error(c.errors, text@)),
        Err(_) => Err(Error::Parse),
    }
}

/// Whether `a` and `b` hold the same bytes.
fn bytes_eq(a: &[u8], b: &[u8]) -> (r: bool)
    ensures
        r == (a@ == b@),
{
    if a.len() != b.len() {
        return false;
    }
    let mut i: usize = 0;
    while i < a.len()
        invariant
            a@.len() == b@.len(),
            0 <= i <= a@.len(),
            forall|k: int| 0 <= k < i ==> a@[k] == b@[k],
        decreases a@.len() - i,
    {
        if a[i] != b[i] {
            return false;
        }
        i += 1;
    }
    assert(a@ =~= b@);
    true
}

/// What a device error with text `text` maps to under `errors`.
fn map_device_error(errors: &Option<ErrorTable>, text: &[u8]) -> (r: Error<CmdError>)
    ensures
        r == device_error(*errors, text@),
{
    match errors {
        None => Error::Error(CmdError::Generic),
        Some(t) => {
            let n = t.entries.len();
            let mut i: usize = 0;
            while i < n
                invariant
                    n == t.entries@.len(),
                    *errors == Some(*t),
                    0 <= i <= n,
                    lookup_error(t.entries@, text@, 0) == lookup_error(t.entries@, text@, i as int),
                decreases n - i,
            {
                if bytes_eq(t.entries[i].text.as_slice(), text) {
                    assert(t.entries@[i as int].text@ == text@);
                    assert(lookup_error(t.entries@, text@, i as int) == Some(t.entries@[i as int].code));
                    assert(device_error(*errors, text@) == Error::Error(CmdError::Code(t.entries@[i as int].code)));
                    return Error::Error(CmdError::Code(t.entries[i].code));
                }
                i += 1;
            }
            match t.otherwise {
                Some(c) => Error::Error(CmdError::Code(c)),
                None => Error::Parse,
            }
        },
    }
}

/// The view of a parsed response.
pub open spec fn response_view(r: Result<Vec<Value>, Error<CmdError>>) -> Result<
    Seq<ValueModel>,
    Error<CmdError>,
> {
    match r {
        Ok(v) => Ok(values_view(v@)),
        Err(e) => Err(e),
    }
}

impl AtCommand {
    /// Argument positions are exactly `0..n`, one argument each.
    pub open spec fn wf(&self) -> bool {
        positions_wf(self.args@)
    }

    /// Whether the argument positions are exactly `0..n`, one argument each.
    pub fn is_wf(&self) -> (r: bool)
        ensures
            r == self.wf(),
    {
        crate::codec::positions_valid(&self.args)
    }

    /// A command with the usual framing (`AT`, `=`, CR LF), the default
    /// deadline, which waits for a response and needs no forced receive state.
    pub fn new(cmd: Vec<u8>, args: Vec<Arg>, response: Vec<Field>) -> (r: Self)
        ensures
            r.cmd@ == cmd@,
            r.args@ == args@,
            r.response@ == response@,
            r.timeout_ms == DEFAULT_TIMEOUT_MS,
            r.expects_response_code,
            !r.abortable,
            !r.force_receive_state,
            r.value_sep,
            r.cmd_prefix@ == seq![65u8, 84u8],
            r.termination@ == seq![13u8, 10u8],
            r.errors is None,
    {
        let mut cmd_prefix: Vec<u8> = Vec::new();
        cmd_prefix.push(65u8);
        cmd_prefix.push(84u8);
        let mut termination: Vec<u8> = Vec::new();
        termination.push(13u8);
        termination.push(10u8);
        assert(cmd_prefix@ =~= seq![65u8, 84u8]);
        assert(termination@ =~= seq![13u8, 10u8]);
        AtCommand {
            cmd,
            args,
            response,
            timeout_ms: DEFAULT_TIMEOUT_MS,
            expects_response_code: true,
            abortable: false,
            force_receive_state: false,
            value_sep: true,
            cmd_prefix,
            termination,
            errors: None,
        }
    }

    /// The command text: prefix, name, separator, the present arguments
    /// comma-joined in wire position order, termination.
    pub fn as_bytes(&self) -> (r: Vec<u8>)
        requires
            self.wf(),
        ensures
            r@ == command_bytes(*self),
    {
        let mut out: Vec<u8> = Vec::new();
        append(&mut out, self.cmd_prefix.as_slice());
        append(&mut out, self.cmd.as_slice());
        let mut args: Vec<u8> = Vec::new();
        append_args(&mut args, &self.args);
        if self.value_sep && args.len() > 0 {
            out.push(61u8);
        }
        append(&mut out, args.as_slice());
        append(&mut out, self.termination.as_slice());
        assert(out@ =~= command_bytes(*self));
        out
    }

    /// Parses a response slot: the payload decodes into the response fields,
    /// a device error maps through the error table, any other framing error
    /// is a parse error. It never reports a timeout: only the client does.
    pub fn parse(&self, res: Result<&[u8], &InternalError>) -> (r: Result<Vec<Value>, Error<CmdError>>)
        ensures
            response_view(r) == parse_result(*self, slot_view(res)),
            r != Err::<Vec<Value>, Error<CmdError>>(Error::Timeout),
    {
        match res {
            Ok(raw) => match decode(&self.response, raw) {
                Some(v) => Ok(v),
                None => Err(Error::Parse),
            },
            Err(InternalError::Error(text)) => Err(map_device_error(&self.errors, text.as_slice())),
            Err(_) => Err(Error::Parse),
        }
    }
}

/// One kind of unsolicited result code: the prefix that tags it and its fields.
#[derive(Debug, Clone)]
pub struct UrcVariant {
    pub prefix: Vec<u8>,
    pub fields: Vec<Field>,
}

/// A recognized unsolicited result code: which variant, and its values.
#[derive(Debug, Clone, PartialEq, Eq)]
pub struct Urc {
    pub variant: usize,
    pub values: Vec<Value>,
}

/// The index of the first variant at or after `i` whose prefix starts `raw`, or -1.
pub open spec fn first_match(variants: Seq<UrcVariant>, raw: Seq<u8>, i: int) -> int
    decreases variants.len() - i,
{
    if i < 0 || i >= variants.len() {
        -1
    } else if variants[i].prefix@.len() <= raw.len() && raw.take(variants[i].prefix@.len() as int)
        == variants[i].prefix@ {
        i
    } else {
        first_match(variants, raw, i + 1)
    }
}

/// What a raw URC parses to: the first variant whose prefix matches, with the
/// values of its fields; `None` when no prefix matches or the payload does not
/// decode.
pub open spec fn parse_urc(variants: Seq<UrcVariant>, raw: Seq<u8>) -> Option<(int, Seq<ValueModel>)> {
    let k = first_match(variants, raw, 0);
    if k < 0 {
        None
    } else {
        match decode_response(variants[k].fields@, raw) {
            Some(v) => Some((k, v)),
            None => None,
        }
    }
}

/// Whether `u` is what `raw` parses to.
pub open spec fn urc_parsed_as(variants: Seq<UrcVariant>, raw: Seq<u8>, u: Urc) -> bool {
    parse_urc(variants, raw) == Some((u.variant as int, values_view(u.values@)))
}

/// Whether `p` starts `raw`.
fn starts_with(raw: &[u8], p: &[u8]) -> (r: bool)
    ensures
        r == (p@.len() <= raw@.len() && raw@.take(p@.len() as int) == p@),
{
    if p.len() > raw.len() {
        return false;
    }
    let mut i: usize = 0;
    while i < p.len()
        invariant
            p@.len() <= raw@.len(),
            0 <= i <= p@.len(),
            forall|k: int| 0 <= k < i ==> raw@[k] == p@[k],
        decreases p@.len() - i,
    {
        if raw[i] != p[i] {
            assert(raw@.take(p@.len() as int)[i as int] != p@[i as int]);
            return false;
        }
        i += 1;
    }
    assert(raw@.take(p@.len() as int) =~= p@);
    true
}

/// A closed set of unsolicited result codes, tried in declaration order.
#[derive(Debug, Clone)]
pub struct UrcSet {
    pub variants: Vec<UrcVariant>,
}

impl UrcSet {
    /// Parses a raw URC against the variants, first prefix match wins.
    pub fn parse(&self, raw: &[u8]) -> (r: Option<Urc>)
        ensures
            r is Some <==> parse_urc(self.variants@, raw@) is Some,
            r is Some ==> urc_parsed_as(self.variants@, raw@, r.unwrap()),
    {
        let n = self.variants.len();
        let mut i: usize = 0;
        while i < n
            invariant
                n == self.variants@.len(),
                0 <= i <= n,
                first_match(self.variants@, raw@, 0) == first_match(self.variants@, raw@, i as int),
            decreases n - i,
        {
            if starts_with(raw, self.variants[i].prefix.as_slice()) {
                return match decode(&self.variants[i].fields, raw) {
                    Some(values) => Some(Urc { variant: i, values }),
                    None => None,
                };
            }
            i += 1;
        }
        None
    }
}

} // verus!
