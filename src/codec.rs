//! A descriptor-driven codec for AT commands and their responses.
//!
//! A command is described by its name and its arguments, each tagged with the
//! position it takes on the wire; a response is described by its fields, each
//! tagged the same way. Declaration order never matters: arguments are written,
//! and response fields read, in wire position order.
use vstd::prelude::*;

verus! {

/// The mathematical value of an argument or response field.
pub enum ValueModel {
    Int(nat),
    Str(Seq<u8>),
    Absent,
}

/// A value written as a command argument or read from a response field.
#[derive(Debug, Clone, PartialEq, Eq)]
pub enum Value {
    /// An unsigned integer, written in decimal.
    Int(u64),
    /// A text value, written between double quotes.
    Str(Vec<u8>),
    /// No value: an optional argument left out, or an optional field not sent.
    Absent,
}

impl View for Value {
    type V = ValueModel;

    open spec fn view(&self) -> ValueModel {
        match self {
            Value::Int(n) => ValueModel::Int(*n as nat),
            Value::Str(s) => ValueModel::Str(s@),
            Value::Absent => ValueModel::Absent,
        }
    }
}

/// A command argument: its value and its position on the wire.
#[derive(Debug, Clone, PartialEq, Eq)]
pub struct Arg {
    pub position: usize,
    pub value: Value,
}

/// The decimal digits of `n`, most significant first.
pub open spec fn dec(n: nat) -> Seq<u8>
    decreases n,
{
    if n < 10 {
        seq![(n + 48) as u8]
    } else {
        dec(n / 10).push(((n % 10) + 48) as u8)
    }
}

/// How a value is written on the wire.
pub open spec fn encode_value(v: ValueModel) -> Seq<u8> {
    match v {
        ValueModel::Int(n) => dec(n),
        ValueModel::Str(s) => seq![34u8] + s + seq![34u8],
        ValueModel::Absent => Seq::empty(),
    }
}

/// Comma-joined pieces, leaving out the empty ones (absent arguments).
pub open spec fn join_present(s: Seq<Seq<u8>>) -> Seq<u8>
    decreases s.len(),
{
    if s.len() == 0 {
        Seq::empty()
    } else {
        let prev = join_present(s.drop_last());
        if s.last().len() == 0 {
            prev
        } else if prev.len() == 0 {
            s.last()
        } else {
            prev + seq![44u8] + s.last()
        }
    }
}

/// Comma-joined pieces.
pub open spec fn join(s: Seq<Seq<u8>>) -> Seq<u8>
    decreases s.len(),
{
    if s.len() == 0 {
        Seq::empty()
    } else if s.len() == 1 {
        s[0]
    } else {
        join(s.drop_last()) + seq![44u8] + s.last()
    }
}

/// Some argument is written at wire position `p`.
pub open spec fn position_taken(args: Seq<Arg>, p: int) -> bool {
    exists|i: int| 0 <= i < args.len() && args[i].position == p
}

/// Positions are exactly `0..n`, each taken by one argument.
pub open spec fn positions_wf(args: Seq<Arg>) -> bool {
    &&& forall|i: int| 0 <= i < args.len() ==> args[i].position < args.len()
    &&& forall|p: int| 0 <= p < args.len() ==> #[trigger] position_taken(args, p)
    &&& forall|i: int, j: int|
        0 <= i < args.len() && 0 <= j < args.len() && i != j ==> args[i].position != args[j].position
}

/// The index of the argument at wire position `p`.
pub open spec fn arg_index(args: Seq<Arg>, p: int) -> int {
    choose|i: int| 0 <= i < args.len() && args[i].position == p
}

/// The encoded arguments in wire order.
pub open spec fn wire_args(args: Seq<Arg>) -> Seq<Seq<u8>> {
    Seq::new(args.len(), |p: int| encode_value(args[arg_index(args, p)].value@))
}

/// Appends `b` to `out`.
pub fn append(out: &mut Vec<u8>, b: &[u8])
    ensures
        final(out)@ == old(out)@ + b@,
{
    let mut i: usize = 0;
    while i < b.len()
        invariant
            0 <= i <= b.len(),
            out@ == old(out)@ + b@.take(i as int),
        decreases b.len() - i,
    {
        out.push(b[i]);
        i += 1;
        assert(out@ =~= old(out)@ + b@.take(i as int));
    }
    assert(b@.take(b.len() as int) =~= b@);
}

/// Appends the decimal digits of `n` to `out`.
fn append_dec(out: &mut Vec<u8>, n: u64)
    ensures
        final(out)@ == old(out)@ + dec(n as nat),
    decreases n,
{
    if n >= 10 {
        append_dec(out, n / 10);
    }
    let d: u8 = (n % 10) as u8 + 48;
    out.push(d);
    assert(out@ =~= old(out)@ + dec(n as nat));
}

/// Appends the wire form of `v` to `out`.
pub fn append_value(out: &mut Vec<u8>, v: &Value)
    ensures
        final(out)@ == old(out)@ + encode_value(v@),
{
    match v {
        Value::Int(n) => append_dec(out, *n),
        Value::Str(s) => {
            out.push(34u8);
            append(out, s.as_slice());
            out.push(34u8);
            assert(out@ =~= old(out)@ + encode_value(v@));
        },
        Value::Absent => {
            assert(out@ =~= old(out)@ + encode_value(v@));
        },
    }
}

/// A present value's wire form is never empty.
proof fn lemma_encoded_nonempty(v: ValueModel)
    requires
        v != ValueModel::Absent,
    ensures
        encode_value(v).len() > 0,
{
    if let ValueModel::Int(n) = v {
        lemma_dec(n);
    }
}

/// Appends the present arguments, comma-joined in wire position order.
pub fn append_args(out: &mut Vec<u8>, args: &Vec<Arg>)
    requires
        positions_wf(args@),
    ensures
        final(out)@ == old(out)@ + join_present(wire_args(args@)),
{
    let n = args.len();
    let start = out.len();
    let mut p: usize = 0;
    assert(wire_args(args@).take(0) =~= Seq::<Seq<u8>>::empty());
    while p < n
        invariant
            n == args@.len(),
            start == old(out)@.len(),
            positions_wf(args@),
            0 <= p <= n,
            out@ == old(out)@ + join_present(wire_args(args@).take(p as int)),
        decreases n - p,
    {
        let ghost before = out@;
        let mut i: usize = 0;
        while args[i].position != p
            invariant
                n == args@.len(),
                positions_wf(args@),
                0 <= p < n,
                0 <= i < n,
                forall|k: int| 0 <= k < i ==> args@[k].position != p,
            decreases n - i,
        {
            i += 1;
            if i == n {
                assert(position_taken(args@, p as int));
                let ghost k = choose|k: int| 0 <= k < args@.len() && args@[k].position == p as int;
                assert(false);
            }
        }
        proof {
            let k = arg_index(args@, p as int);
            assert(position_taken(args@, p as int));
            assert(0 <= k < args@.len() && args@[k].position == p as int);
            assert(k == i as int);
        }
        let ghost w = wire_args(args@);
        let ghost prev = join_present(w.take(p as int));
        assert(w.take(p + 1).drop_last() =~= w.take(p as int));
        assert(w.take(p + 1).last() == encode_value(args@[i as int].value@));
        match &args[i].value {
            Value::Absent => {},
            v => {
                proof {
                    lemma_encoded_nonempty(v@);
                }
                if out.len() > start {
                    out.push(44u8);
                }
                append_value(out, v);
            },
        }
        assert(out@ =~= old(out)@ + join_present(w.take(p + 1)));
        p += 1;
    }
    assert(wire_args(args@).take(n as int) =~= wire_args(args@));
}

/// Whether the argument positions are exactly `0..n`, one argument each.
pub fn positions_valid(args: &Vec<Arg>) -> (r: bool)
    ensures
        r == positions_wf(args@),
{
    let n = args.len();
    let mut i: usize = 0;
    while i < n
        invariant
            n == args@.len(),
            0 <= i <= n,
            forall|k: int| 0 <= k < i ==> args@[k].position < n,
            forall|a: int, b: int|
                0 <= a < i && 0 <= b < n && a != b ==> args@[a].position != args@[b].position,
        decreases n - i,
    {
        if args[i].position >= n {
            return false;
        }
        let mut j: usize = 0;
        while j < n
            invariant
                n == args@.len(),
                0 <= i < n,
                0 <= j <= n,
                forall|b: int| 0 <= b < j && b != i ==> args@[i as int].position != args@[b].position,
            decreases n - j,
        {
            if j != i && args[j].position == args[i].position {
                return false;
            }
            j += 1;
        }
        i += 1;
    }
    let mut p: usize = 0;
    while p < n
        invariant
            n == args@.len(),
            0 <= p <= n,
            forall|q: int| 0 <= q < p ==> #[trigger] position_taken(args@, q),
        decreases n - p,
    {
        let mut j: usize = 0;
        while j < n && args[j].position != p
            invariant
                n == args@.len(),
                0 <= j <= n,
                forall|b: int| 0 <= b < j ==> args@[b].position != p,
            decreases n - j,
        {
            j += 1;
        }
        if j == n {
            assert(!position_taken(args@, p as int));
            return false;
        }
        assert(position_taken(args@, p as int));
        p += 1;
    }
    true
}

/// Of well-formed arguments, the one declared at index `i` is written at its
/// declared wire position, whatever its place among the declarations.
pub proof fn lemma_arg_written_at_its_position(args: Seq<Arg>, i: int)
    requires
        positions_wf(args),
        0 <= i < args.len(),
    ensures
        0 <= args[i].position < args.len(),
        wire_args(args)[args[i].position as int] == encode_value(args[i].value@),
{
    let p = args[i].position as int;
    let k = arg_index(args, p);
    assert(position_taken(args, p));
    assert(args[k].position == p);
}

/// Declaring the same arguments in another order writes the same bytes.
pub proof fn lemma_declaration_order_irrelevant(a: Seq<Arg>, b: Seq<Arg>)
    requires
        positions_wf(a),
        positions_wf(b),
        a.len() == b.len(),
        forall|i: int| 0 <= i < a.len() ==> exists|j: int| 0 <= j < b.len() && #[trigger] a[i] == b[j],
    ensures
        join_present(wire_args(a)) == join_present(wire_args(b)),
{
    assert forall|p: int| 0 <= p < a.len() implies #[trigger] wire_args(a)[p] == wire_args(b)[p] by {
        assert(position_taken(a, p));
        let k = arg_index(a, p);
        assert(0 <= k < a.len() && a[k].position == p);
        let j = choose|j: int| 0 <= j < b.len() && a[k] == b[j];
        assert(position_taken(b, p));
        let m = arg_index(b, p);
        assert(b[m].position == p);
        assert(m == j);
    }
    assert(wire_args(a) =~= wire_args(b));
}

/// What a response field is read as.
#[derive(Debug, Clone, Copy, PartialEq, Eq, Structural)]
pub enum FieldKind {
    /// An unsigned decimal integer no greater than `max`.
    Int { max: u64 },
    /// A text value between double quotes.
    Str,
    /// Like `Int`, but an empty or missing token reads as absent.
    OptInt { max: u64 },
    /// Like `Str`, but an empty or missing token reads as absent.
    OptStr,
}

/// Whether a field of this kind may be left out.
pub open spec fn optional(kind: FieldKind) -> bool {
    kind is OptInt || kind is OptStr
}

/// A response field: its kind and its position on the wire.
#[derive(Debug, Clone, Copy, PartialEq, Eq, Structural)]
pub struct Field {
    pub position: usize,
    pub kind: FieldKind,
}

/// The payload of a response: from a `+NAME:` header on, what follows the first
/// colon without its leading spaces; otherwise the whole buffer.
pub open spec fn body(raw: Seq<u8>) -> Seq<u8> {
    if raw.len() > 0 && raw[0] == 43u8 && first_colon(raw, 0) >= 0 {
        trim_start(raw.subrange(first_colon(raw, 0) + 1, raw.len() as int))
    } else {
        raw
    }
}

/// The index of the first `:` at or after `i`, or -1.
pub open spec fn first_colon(s: Seq<u8>, i: int) -> int
    decreases s.len() - i,
{
    if i < 0 || i >= s.len() {
        -1
    } else if s[i] == 58u8 {
        i
    } else {
        first_colon(s, i + 1)
    }
}

/// `t` without its leading spaces.
pub open spec fn trim_start(t: Seq<u8>) -> Seq<u8>
    decreases t.len(),
{
    if t.len() > 0 && t[0] == 32u8 {
        trim_start(t.drop_first())
    } else {
        t
    }
}

/// `t` without its trailing spaces.
pub open spec fn trim_end(t: Seq<u8>) -> Seq<u8>
    decreases t.len(),
{
    if t.len() > 0 && t.last() == 32u8 {
        trim_end(t.drop_last())
    } else {
        t
    }
}

/// `t` without its leading and trailing spaces.
pub open spec fn trim(t: Seq<u8>) -> Seq<u8> {
    trim_end(trim_start(t))
}

/// Whether the end of `s` lies inside double quotes.
pub open spec fn in_quotes(s: Seq<u8>) -> bool
    decreases s.len(),
{
    if s.len() == 0 {
        false
    } else {
        in_quotes(s.drop_last()) != (s.last() == 34u8)
    }
}

/// The pieces of `s` between commas that lie outside double quotes; an empty `s` is one empty piece.
pub open spec fn split_commas(s: Seq<u8>) -> Seq<Seq<u8>>
    decreases s.len(),
{
    if s.len() == 0 {
        seq![Seq::empty()]
    } else {
        let prev = split_commas(s.drop_last());
        if s.last() == 44u8 && !in_quotes(s.drop_last()) {
            prev.push(Seq::empty())
        } else {
            prev.update(prev.len() - 1, prev.last().push(s.last()))
        }
    }
}

/// Every byte of `t` is a decimal digit.
pub open spec fn all_digits(t: Seq<u8>) -> bool {
    forall|i: int| 0 <= i < t.len() ==> 48u8 <= #[trigger] t[i] <= 57u8
}

/// The number that the digits of `t` spell.
pub open spec fn digits_value(t: Seq<u8>) -> nat
    decreases t.len(),
{
    if t.len() == 0 {
        0
    } else {
        digits_value(t.drop_last()) * 10 + (t.last() - 48) as nat
    }
}

/// The value that a trimmed token reads as under `kind`, if it is one.
pub open spec fn decode_token(t: Seq<u8>, kind: FieldKind) -> Option<ValueModel> {
    match kind {
        FieldKind::Int { max } => int_token(t, max),
        FieldKind::Str => str_token(t),
        FieldKind::OptInt { max } => if t.len() == 0 {
            Some(ValueModel::Absent)
        } else {
            int_token(t, max)
        },
        FieldKind::OptStr => if t.len() == 0 {
            Some(ValueModel::Absent)
        } else {
            str_token(t)
        },
    }
}

/// The number a token spells, if it is a run of digits no greater than `max`.
pub open spec fn int_token(t: Seq<u8>, max: u64) -> Option<ValueModel> {
    if t.len() > 0 && all_digits(t) && digits_value(t) <= max {
        Some(ValueModel::Int(digits_value(t)))
    } else {
        None
    }
}

/// The text between the double quotes of a quoted token.
pub open spec fn str_token(t: Seq<u8>) -> Option<ValueModel> {
    if t.len() >= 2 && t[0] == 34u8 && t.last() == 34u8 {
        Some(ValueModel::Str(t.subrange(1, t.len() - 1)))
    } else {
        None
    }
}

/// The trimmed tokens of a response payload.
pub open spec fn tokens(raw: Seq<u8>) -> Seq<Seq<u8>> {
    split_commas(body(raw)).map_values(|t: Seq<u8>| trim(t))
}

/// Every field's token reads as its kind; only an optional field may have no token.
pub open spec fn fields_decode(fields: Seq<Field>, toks: Seq<Seq<u8>>) -> bool {
    forall|i: int|
        0 <= i < fields.len() ==> if (#[trigger] fields[i]).position < toks.len() {
            decode_token(toks[fields[i].position as int], fields[i].kind) is Some
        } else {
            optional(fields[i].kind)
        }
}

/// The value of field `f`: what its token reads as, or absent with no token.
pub open spec fn field_value(toks: Seq<Seq<u8>>, f: Field) -> ValueModel {
    if f.position < toks.len() {
        decode_token(toks[f.position as int], f.kind).unwrap()
    } else {
        ValueModel::Absent
    }
}

/// The values of a response, in the fields' declaration order, or `None` when
/// the payload does not have the declared shape. Trailing optional fields
/// may be missing. A response with no fields accepts any payload.
pub open spec fn decode_response(fields: Seq<Field>, raw: Seq<u8>) -> Option<Seq<ValueModel>> {
    let toks = tokens(raw);
    if fields.len() == 0 {
        Some(Seq::empty())
    } else if toks.len() <= fields.len() && fields_decode(fields, toks) {
        Some(Seq::new(fields.len(), |i: int| field_value(toks, fields[i])))
    } else {
        None
    }
}

/// The views of a sequence of values.
pub open spec fn values_view(v: Seq<Value>) -> Seq<ValueModel> {
    v.map_values(|x: Value| x@)
}

proof fn lemma_split_nonempty(s: Seq<u8>)
    ensures
        split_commas(s).len() >= 1,
    decreases s.len(),
{
    if s.len() > 0 {
        lemma_split_nonempty(s.drop_last());
    }
}

/// The bytes `b[lo..hi]`.
fn copy_range(b: &[u8], lo: usize, hi: usize) -> (r: Vec<u8>)
    requires
        lo <= hi <= b@.len(),
    ensures
        r@ == b@.subrange(lo as int, hi as int),
{
    let mut r: Vec<u8> = Vec::new();
    let mut i: usize = lo;
    while i < hi
        invariant
            lo <= i <= hi <= b@.len(),
            r@ == b@.subrange(lo as int, i as int),
        decreases hi - i,
    {
        r.push(b[i]);
        i += 1;
        assert(r@ =~= b@.subrange(lo as int, i as int));
    }
    r
}

/// The index just past the leading spaces of `b[lo..]`.
fn skip_spaces(b: &[u8], lo: usize) -> (r: usize)
    requires
        lo <= b@.len(),
    ensures
        lo <= r <= b@.len(),
        trim_start(b@.subrange(lo as int, b@.len() as int)) == b@.subrange(r as int, b@.len() as int),
{
    let mut a: usize = lo;
    while a < b.len() && b[a] == 32u8
        invariant
            lo <= a <= b@.len(),
            trim_start(b@.subrange(lo as int, b@.len() as int)) == trim_start(b@.subrange(a as int, b@.len() as int)),
        decreases b@.len() - a,
    {
        assert(b@.subrange(a as int, b@.len() as int).drop_first() =~= b@.subrange(a + 1, b@.len() as int));
        a += 1;
    }
    a
}

/// The payload of a response buffer.
fn body_of(raw: &[u8]) -> (r: Vec<u8>)
    ensures
        r@ == body(raw@),
{
    if raw.len() > 0 && raw[0] == 43u8 {
        let mut i: usize = 0;
        while i < raw.len() && raw[i] != 58u8
            invariant
                0 <= i <= raw@.len(),
                first_colon(raw@, 0) == first_colon(raw@, i as int),
            decreases raw@.len() - i,
        {
            i += 1;
        }
        if i < raw.len() {
            let a = skip_spaces(raw, i + 1);
            return copy_range(raw, a, raw.len());
        }
    }
    copy_range(raw, 0, raw.len())
}

/// `t` without its leading and trailing spaces.
fn trim_bytes(t: &[u8]) -> (r: Vec<u8>)
    ensures
        r@ == trim(t@),
{
    let a = skip_spaces(t, 0);
    assert(t@.subrange(0, t@.len() as int) =~= t@);
    let mut e: usize = t.len();
    while e > a && t[e - 1] == 32u8
        invariant
            a <= e <= t@.len(),
            trim(t@) == trim_end(t@.subrange(a as int, e as int)),
        decreases e,
    {
        assert(t@.subrange(a as int, e as int).drop_last() =~= t@.subrange(a as int, e - 1));
        e -= 1;
    }
    copy_range(t, a, e)
}

/// The comma-separated pieces of `s`.
fn split_bytes(s: &[u8]) -> (r: Vec<Vec<u8>>)
    ensures
        r@.map_values(|t: Vec<u8>| t@) == split_commas(s@),
{
    let mut toks: Vec<Vec<u8>> = Vec::new();
    let mut cur: Vec<u8> = Vec::new();
    let mut i: usize = 0;
    let mut quoted = false;
    assert(toks@.map_values(|t: Vec<u8>| t@).push(cur@) =~= split_commas(s@.take(0)));
    while i < s.len()
        invariant
            0 <= i <= s@.len(),
            quoted == in_quotes(s@.take(i as int)),
            toks@.map_values(|t: Vec<u8>| t@).push(cur@) == split_commas(s@.take(i as int)),
        decreases s@.len() - i,
    {
        let ghost old_toks = toks@;
        let ghost old_cur = cur@;
        assert(s@.take(i + 1).drop_last() =~= s@.take(i as int));
        if s[i] == 34u8 {
            quoted = !quoted;
        }
        if s[i] == 44u8 && !quoted {
            toks.push(cur);
            cur = Vec::new();
            assert(toks@.map_values(|t: Vec<u8>| t@).push(cur@) =~= split_commas(s@.take(i + 1)));
        } else {
            cur.push(s[i]);
            assert(toks@ == old_toks);
            assert(toks@.map_values(|t: Vec<u8>| t@).push(cur@) =~= split_commas(s@.take(i + 1)));
        }
        i += 1;
    }
    assert(s@.take(s@.len() as int) =~= s@);
    toks.push(cur);
    assert(toks@.map_values(|t: Vec<u8>| t@) =~= split_commas(s@));
    toks
}

proof fn lemma_digits_prefix(t: Seq<u8>, j: int)
    requires
        0 <= j <= t.len(),
    ensures
        digits_value(t.take(j)) <= digits_value(t),
    decreases t.len(),
{
    if j < t.len() {
        assert(t.drop_last().take(j) =~= t.take(j));
        lemma_digits_prefix(t.drop_last(), j);
    } else {
        assert(t.take(j) =~= t);
    }
}

/// The number spelt by `t`, if it is a non-empty run of digits no greater than `max`.
fn parse_int(t: &[u8], max: u64) -> (r: Option<u64>)
    ensures
        r is Some <==> (t@.len() > 0 && all_digits(t@) && digits_value(t@) <= max),
        r is Some ==> r.unwrap() as nat == digits_value(t@),
{
    if t.len() == 0 {
        return None;
    }
    let mut acc: u64 = 0;
    let mut i: usize = 0;
    while i < t.len()
        invariant
            0 <= i <= t@.len(),
            acc as nat == digits_value(t@.take(i as int)),
            acc <= max,
            all_digits(t@.take(i as int)),
        decreases t@.len() - i,
    {
        assert(t@.take(i + 1).drop_last() =~= t@.take(i as int));
        let c = t[i];
        if c < 48u8 || c > 57u8 {
            assert(!all_digits(t@));
            return None;
        }
        let next: u128 = (acc as u128) * 10 + (c - 48u8) as u128;
        if next > max as u128 {
            proof {
                lemma_digits_prefix(t@, i + 1);
            }
            return None;
        }
        acc = next as u64;
        i += 1;
        assert(all_digits(t@.take(i as int)));
    }
    assert(t@.take(t@.len() as int) =~= t@);
    Some(acc)
}

/// What a trimmed token reads as under `kind`.
fn decode_token_exec(t: &[u8], kind: FieldKind) -> (r: Option<Value>)
    ensures
        r is Some <==> decode_token(t@, kind) is Some,
        r is Some ==> r.unwrap()@ == decode_token(t@, kind).unwrap(),
{
    match kind {
        FieldKind::Int { max } => match parse_int(t, max) {
            Some(n) => Some(Value::Int(n)),
            None => None,
        },
        FieldKind::Str => str_token_exec(t),
        FieldKind::OptInt { max } => {
            if t.len() == 0 {
                Some(Value::Absent)
            } else {
                match parse_int(t, max) {
                    Some(n) => Some(Value::Int(n)),
                    None => None,
                }
            }
        },
        FieldKind::OptStr => {
            if t.len() == 0 {
                Some(Value::Absent)
            } else {
                str_token_exec(t)
            }
        },
    }
}

/// The text between the double quotes of a quoted token.
fn str_token_exec(t: &[u8]) -> (r: Option<Value>)
    ensures
        r is Some <==> str_token(t@) is Some,
        r is Some ==> r.unwrap()@ == str_token(t@).unwrap(),
{
    if t.len() >= 2 && t[0] == 34u8 && t[t.len() - 1] == 34u8 {
        Some(Value::Str(copy_range(t, 1, t.len() - 1)))
    } else {
        None
    }
}

/// Decodes a response payload into the values of `fields`, in their
/// declaration order, each read from the token at its wire position.
pub fn decode(fields: &Vec<Field>, raw: &[u8]) -> (r: Option<Vec<Value>>)
    ensures
        r is Some <==> decode_response(fields@, raw@) is Some,
        r is Some ==> values_view(r.unwrap()@) == decode_response(fields@, raw@).unwrap(),
{
    let n = fields.len();
    if n == 0 {
        let r: Vec<Value> = Vec::new();
        assert(values_view(r@) =~= Seq::<ValueModel>::empty());
        return Some(r);
    }
    let b = body_of(raw);
    let pieces = split_bytes(b.as_slice());
    let ghost toks = tokens(raw@);
    assert(pieces@.map_values(|t: Vec<u8>| t@).len() == pieces@.len());
    if pieces.len() > n {
        return None;
    }
    let m = pieces.len();
    let mut out: Vec<Value> = Vec::new();
    let mut i: usize = 0;
    while i < n
        invariant
            n == fields@.len(),
            pieces@.len() == m,
            m <= n,
            toks == tokens(raw@),
            toks.len() == m,
            pieces@.map_values(|t: Vec<u8>| t@) == split_commas(body(raw@)),
            0 <= i <= n,
            out@.len() == i,
            forall|k: int| 0 <= k < i ==> (if (#[trigger] fields@[k]).position < toks.len() {
                decode_token(toks[fields@[k].position as int], fields@[k].kind) is Some
            } else {
                optional(fields@[k].kind)
            }) && out@[k]@ == field_value(toks, fields@[k]),
        decreases n - i,
    {
        let f = fields[i];
        if f.position >= m {
            match f.kind {
                FieldKind::OptInt { .. } => out.push(Value::Absent),
                FieldKind::OptStr => out.push(Value::Absent),
                _ => return None,
            }
            i += 1;
            continue;
        }
        assert(pieces@.map_values(|t: Vec<u8>| t@)[f.position as int] == pieces@[f.position as int]@);
        let t = trim_bytes(pieces[f.position].as_slice());
        assert(t@ == toks[f.position as int]);
        match decode_token_exec(t.as_slice(), f.kind) {
            Some(v) => out.push(v),
            None => return None,
        }
        i += 1;
    }
    assert(fields_decode(fields@, toks));
    assert(values_view(out@) =~= decode_response(fields@, raw@).unwrap());
    Some(out)
}

/// Some field is read from wire position `p`.
pub open spec fn field_position_taken(fields: Seq<Field>, p: int) -> bool {
    exists|i: int| 0 <= i < fields.len() && fields[i].position == p
}

/// Field positions are exactly `0..n`, each taken by one field.
pub open spec fn field_positions_wf(fields: Seq<Field>) -> bool {
    &&& forall|i: int| 0 <= i < fields.len() ==> fields[i].position < fields.len()
    &&& forall|p: int| 0 <= p < fields.len() ==> #[trigger] field_position_taken(fields, p)
    &&& forall|i: int, j: int|
        0 <= i < fields.len() && 0 <= j < fields.len() && i != j ==> fields[i].position
            != fields[j].position
}

/// The index of the field read from wire position `p`.
pub open spec fn field_index(fields: Seq<Field>, p: int) -> int {
    choose|i: int| 0 <= i < fields.len() && fields[i].position == p
}

/// Every comma of `s` lies inside double quotes.
pub open spec fn commas_quoted(s: Seq<u8>) -> bool {
    forall|k: int| 0 <= k < s.len() && #[trigger] s[k] == 44u8 ==> in_quotes(s.take(k))
}

/// `s` holds no double quote.
pub open spec fn no_quote(s: Seq<u8>) -> bool {
    forall|k: int| 0 <= k < s.len() ==> s[k] != 34u8
}

/// `v` is a value of `kind`: a number within its bound, a text without
/// double quotes, or absent for an optional kind.
pub open spec fn fits(v: ValueModel, kind: FieldKind) -> bool {
    match (v, kind) {
        (ValueModel::Int(n), FieldKind::Int { max }) => n <= max,
        (ValueModel::Int(n), FieldKind::OptInt { max }) => n <= max,
        (ValueModel::Str(t), FieldKind::Str) => no_quote(t),
        (ValueModel::Str(t), FieldKind::OptStr) => no_quote(t),
        (ValueModel::Absent, FieldKind::OptInt { .. }) => true,
        (ValueModel::Absent, FieldKind::OptStr) => true,
        _ => false,
    }
}

/// The wire form of response values given in declaration order: their
/// encodings, comma-joined in wire position order.
pub open spec fn encode_response(fields: Seq<Field>, vals: Seq<ValueModel>) -> Seq<u8> {
    join(Seq::new(fields.len(), |p: int| encode_value(vals[field_index(fields, p)])))
}

pub proof fn lemma_dec(n: nat)
    ensures
        dec(n).len() > 0,
        all_digits(dec(n)),
        digits_value(dec(n)) == n,
    decreases n,
{
    if n >= 10 {
        lemma_dec(n / 10);
        assert(dec(n).drop_last() =~= dec(n / 10));
        assert(dec(n).last() == ((n % 10) + 48) as u8);
        assert(((n % 10) + 48) as u8 == (n % 10) + 48);
        assert((n / 10) * 10 + n % 10 == n);
        assert(digits_value(dec(n)) == digits_value(dec(n / 10)) * 10 + n % 10);
        assert forall|i: int| 0 <= i < dec(n).len() implies 48u8 <= #[trigger] dec(n)[i] <= 57u8 by {
            if i < dec(n).len() - 1 {
                assert(dec(n)[i] == dec(n / 10)[i]);
            }
        }
    } else {
        assert(dec(n).drop_last() =~= Seq::<u8>::empty());
        assert((n + 48) as u8 == n + 48);
        assert(digits_value(dec(n)) == digits_value(Seq::<u8>::empty()) * 10 + n);
    }
}

proof fn lemma_commas_quoted_drop_last(b: Seq<u8>)
    requires
        b.len() > 0,
        commas_quoted(b),
    ensures
        commas_quoted(b.drop_last()),
        b.last() == 44u8 ==> in_quotes(b.drop_last()),
{
    assert forall|k: int| 0 <= k < b.drop_last().len() && #[trigger] b.drop_last()[k] == 44u8 implies in_quotes(
        b.drop_last().take(k),
    ) by {
        assert(b[k] == 44u8);
        assert(b.drop_last().take(k) =~= b.take(k));
    }
    if b.last() == 44u8 {
        assert(b[b.len() - 1] == 44u8);
        assert(b.take(b.len() - 1) =~= b.drop_last());
    }
}

proof fn lemma_split_quoted(b: Seq<u8>)
    requires
        commas_quoted(b),
    ensures
        split_commas(b) == seq![b],
    decreases b.len(),
{
    if b.len() > 0 {
        lemma_commas_quoted_drop_last(b);
        lemma_split_quoted(b.drop_last());
        assert(b.drop_last().push(b.last()) =~= b);
        assert(seq![b.drop_last()].update(0, b) =~= seq![b]);
    } else {
        assert(b =~= Seq::<u8>::empty());
    }
}

proof fn lemma_in_quotes_concat(a: Seq<u8>, b: Seq<u8>)
    ensures
        in_quotes(a + b) == (in_quotes(a) != in_quotes(b)),
    decreases b.len(),
{
    if b.len() == 0 {
        assert(a + b =~= a);
    } else {
        assert((a + b).drop_last() =~= a + b.drop_last());
        lemma_in_quotes_concat(a, b.drop_last());
    }
}

proof fn lemma_no_quote_unquoted(t: Seq<u8>)
    requires
        no_quote(t),
    ensures
        !in_quotes(t),
    decreases t.len(),
{
    if t.len() > 0 {
        lemma_no_quote_unquoted(t.drop_last());
    }
}

proof fn lemma_join_unquoted(s: Seq<Seq<u8>>)
    requires
        forall|k: int| 0 <= k < s.len() ==> !in_quotes(#[trigger] s[k]),
    ensures
        !in_quotes(join(s)),
    decreases s.len(),
{
    if s.len() == 0 {
    } else if s.len() == 1 {
    } else {
        lemma_join_unquoted(s.drop_last());
        lemma_in_quotes_concat(join(s.drop_last()), seq![44u8]);
        lemma_in_quotes_concat(join(s.drop_last()) + seq![44u8], s.last());
        assert(!in_quotes(seq![44u8])) by {
            assert(seq![44u8].drop_last() =~= Seq::<u8>::empty());
            assert(seq![44u8].last() == 44u8);
            assert(!in_quotes(Seq::<u8>::empty()));
        }
        assert(!in_quotes(s[s.len() - 1]));
    }
}

proof fn lemma_split_append(a: Seq<u8>, b: Seq<u8>)
    requires
        commas_quoted(b),
        !in_quotes(a),
    ensures
        split_commas(a + seq![44u8] + b) == split_commas(a).push(b),
    decreases b.len(),
{
    let s = a + seq![44u8] + b;
    if b.len() == 0 {
        assert(s.drop_last() =~= a);
        assert(b =~= Seq::<u8>::empty());
    } else {
        assert(s.drop_last() =~= a + seq![44u8] + b.drop_last());
        lemma_commas_quoted_drop_last(b);
        lemma_split_append(a, b.drop_last());
        lemma_in_quotes_concat(a + seq![44u8], b.drop_last());
        lemma_in_quotes_concat(a, seq![44u8]);
        assert(!in_quotes(seq![44u8])) by {
            assert(seq![44u8].drop_last() =~= Seq::<u8>::empty());
            assert(seq![44u8].last() == 44u8);
            assert(!in_quotes(Seq::<u8>::empty()));
        }
        assert(s.last() == b.last());
        lemma_split_nonempty(s.drop_last());
        assert(b.drop_last().push(b.last()) =~= b);
        let prev = split_commas(a).push(b.drop_last());
        assert(prev.update(prev.len() - 1, prev.last().push(s.last())) =~= split_commas(a).push(b));
    }
}

proof fn lemma_split_join(s: Seq<Seq<u8>>)
    requires
        s.len() >= 1,
        forall|k: int| 0 <= k < s.len() ==> commas_quoted(#[trigger] s[k]) && !in_quotes(s[k]),
    ensures
        split_commas(join(s)) == s,
    decreases s.len(),
{
    if s.len() == 1 {
        lemma_split_quoted(s[0]);
        assert(seq![s[0]] =~= s);
    } else {
        lemma_split_join(s.drop_last());
        lemma_join_unquoted(s.drop_last());
        lemma_split_append(join(s.drop_last()), s.last());
        assert(s.drop_last().push(s.last()) =~= s);
    }
}

proof fn lemma_join_lead(s: Seq<Seq<u8>>)
    requires
        forall|k: int| 0 <= k < s.len() ==> (#[trigger] s[k]).len() == 0 || s[k][0] != 32u8,
    ensures
        join(s).len() == 0 || join(s)[0] != 32u8,
    decreases s.len(),
{
    if s.len() > 1 {
        lemma_join_lead(s.drop_last());
        let prev = join(s.drop_last());
        if prev.len() == 0 {
            assert(join(s)[0] == 44u8);
        } else {
            assert(join(s)[0] == prev[0]);
        }
    } else if s.len() == 1 {
        assert(s[0].len() == 0 || s[0][0] != 32u8);
    }
}

proof fn lemma_first_colon(raw: Seq<u8>, h: int, i: int)
    requires
        0 <= i <= h < raw.len(),
        raw[h] == 58u8,
        forall|k: int| 0 <= k < h ==> raw[k] != 58u8,
    ensures
        first_colon(raw, i) == h,
    decreases h - i,
{
    if i < h {
        lemma_first_colon(raw, h, i + 1);
    }
}

/// What an encoded value of the right kind looks like, and that it decodes back.
proof fn lemma_encoded_value(v: ValueModel, kind: FieldKind)
    requires
        fits(v, kind),
    ensures
        encode_value(v).len() == 0 || (encode_value(v)[0] != 32u8 && encode_value(v).last() != 32u8),
        commas_quoted(encode_value(v)),
        !in_quotes(encode_value(v)),
        trim(encode_value(v)) == encode_value(v),
        decode_token(encode_value(v), kind) == Some(v),
{
    let e = encode_value(v);
    match v {
        ValueModel::Int(n) => {
            lemma_dec(n);
            assert(48u8 <= e[0] <= 57u8);
            assert(48u8 <= e[e.len() - 1] <= 57u8);
            assert(no_quote(e)) by {
                assert forall|k: int| 0 <= k < e.len() implies e[k] != 34u8 by {
                    assert(48u8 <= e[k] <= 57u8);
                }
            }
            lemma_no_quote_unquoted(e);
        },
        ValueModel::Str(t) => {
            assert(e.subrange(1, e.len() - 1) =~= t);
            assert(seq![34u8].drop_last() =~= Seq::<u8>::empty());
            assert(seq![34u8].last() == 34u8);
            assert(!in_quotes(Seq::<u8>::empty()));
            assert(in_quotes(seq![34u8]));
            assert forall|k: int| 0 <= k < e.len() && #[trigger] e[k] == 44u8 implies in_quotes(e.take(k)) by {
                assert(0 < k < e.len() - 1);
                assert(e.take(k) =~= seq![34u8] + t.take(k - 1));
                assert(no_quote(t.take(k - 1)));
                lemma_no_quote_unquoted(t.take(k - 1));
                lemma_in_quotes_concat(seq![34u8], t.take(k - 1));
            }
            lemma_no_quote_unquoted(t);
            lemma_in_quotes_concat(seq![34u8], t);
            lemma_in_quotes_concat(seq![34u8] + t, seq![34u8]);
        },
        ValueModel::Absent => {
            assert(e =~= Seq::<u8>::empty());
            assert(trim_start(e) == e);
            assert(trim_end(e) == e);
            assert(!in_quotes(e));
        },
    }
}

/// A list of values of the declared kinds (text without double quotes;
/// optional fields may be absent), written as a `+NAME: ` line with its values
/// comma-joined in wire position order, decodes back to the same values in
/// declaration order, whatever the order the fields were declared in.
pub proof fn lemma_response_round_trip(fields: Seq<Field>, vals: Seq<ValueModel>, name: Seq<u8>)
    requires
        vals.len() == fields.len(),
        field_positions_wf(fields),
        forall|i: int| 0 <= i < fields.len() ==> fits(#[trigger] vals[i], fields[i].kind),
        forall|k: int| 0 <= k < name.len() ==> name[k] != 58u8,
    ensures
        decode_response(fields, seq![43u8] + name + seq![58u8, 32u8] + encode_response(fields, vals))
            == Some(vals),
{
    let n = fields.len();
    if n == 0 {
        assert(vals =~= Seq::<ValueModel>::empty());
        return;
    }
    let encs = Seq::new(n, |p: int| encode_value(vals[field_index(fields, p)]));
    assert forall|p: int| 0 <= p < n implies {
        &&& 0 <= field_index(fields, p) < n
        &&& fields[field_index(fields, p)].position == p
        &&& #[trigger] encs[p] == encode_value(vals[field_index(fields, p)])
        &&& commas_quoted(encs[p])
        &&& !in_quotes(encs[p])
        &&& trim(encs[p]) == encs[p]
        &&& (encs[p].len() == 0 || encs[p][0] != 32u8)
    } by {
        assert(field_position_taken(fields, p));
        let i = field_index(fields, p);
        lemma_encoded_value(vals[i], fields[i].kind);
    }
    let j = join(encs);
    let header = seq![43u8] + name;
    let raw = header + seq![58u8, 32u8] + j;
    assert(raw == seq![43u8] + name + seq![58u8, 32u8] + encode_response(fields, vals));
    lemma_first_colon(raw, header.len() as int, 0);
    lemma_join_lead(encs);
    assert(raw.subrange(header.len() as int + 1, raw.len() as int) =~= seq![32u8] + j);
    assert((seq![32u8] + j).drop_first() =~= j);
    assert(trim_start(j) == j);
    assert(trim_start(seq![32u8] + j) == j);
    assert(raw[0] == 43u8);
    assert(body(raw) == j);
    lemma_split_join(encs);
    let toks = tokens(raw);
    assert(toks =~= encs);
    assert forall|i: int| 0 <= i < n implies (#[trigger] fields[i]).position < toks.len()
        && decode_token(toks[fields[i].position as int], fields[i].kind) == Some(vals[i]) by {
        let p = fields[i].position as int;
        assert(field_position_taken(fields, p));
        let k = field_index(fields, p);
        assert(k == i);
        lemma_encoded_value(vals[i], fields[i].kind);
    }
    assert(crate::codec::fields_decode(fields, toks));
    assert(decode_response(fields, raw).unwrap() =~= vals);
}

} // verus!
