//! Typed message arguments and their wire encoding.
use vstd::prelude::*;
use vstd::slice::{slice_subrange, slice_to_vec};
use vstd::string::StringSliceAdditionalSpecFns;
use vstd::utf8::{decode_utf8, encode_utf8, valid_utf8};
use crate::wire::{get_u32, put_u32, u32_at, u32_bytes, Endian, lemma_u32_roundtrip};

verus! {

broadcast use vstd::utf8::encode_utf8_valid_utf8, vstd::utf8::encode_utf8_decode_utf8;

/// The type of a message argument, as a protocol file declares it.
#[derive(Debug)]
pub enum WlArgType {
    Int,
    Uint,
    /// Signed 24.8 fixed-point, stored in 32 bits.
    Fixed,
    Object,
    /// A new object; with the interface it gets when the protocol fixes one.
    NewId(Option<String>),
    String,
    Array,
    /// A file descriptor, carried beside the bytes.
    Fd,
    Enum,
}

/// The value of one argument of a parsed message.
#[derive(Debug)]
pub enum WlArg {
    Int(i32),
    Uint(u32),
    /// The raw bits of a 24.8 fixed-point value.
    Fixed(i32),
    Object(u32),
    NewId(u32),
    Str(String),
    Array(Vec<u8>),
    /// Index of the descriptor among those the frame carries.
    Fd(usize),
    Enum(u32),
}

/// An argument value, as the contracts see it.
pub enum ArgV {
    Int(i32),
    Uint(u32),
    Fixed(i32),
    Object(u32),
    NewId(u32),
    Str(Seq<char>),
    Array(Seq<u8>),
    Fd(int),
    Enum(u32),
}

impl View for WlArg {
    type V = ArgV;

    open spec fn view(&self) -> ArgV {
        match self {
            WlArg::Int(v) => ArgV::Int(*v),
            WlArg::Uint(v) => ArgV::Uint(*v),
            WlArg::Fixed(v) => ArgV::Fixed(*v),
            WlArg::Object(v) => ArgV::Object(*v),
            WlArg::NewId(v) => ArgV::NewId(*v),
            WlArg::Str(s) => ArgV::Str(s@),
            WlArg::Array(b) => ArgV::Array(b@),
            WlArg::Fd(i) => ArgV::Fd(*i as int),
            WlArg::Enum(v) => ArgV::Enum(*v),
        }
    }
}

/// The views of a list of arguments.
pub open spec fn args_view(args: Seq<WlArg>) -> Seq<ArgV> {
    args.map_values(|a: WlArg| a@)
}

/// `n` rounded up to a multiple of four.
pub open spec fn padded(n: int) -> int {
    if n % 4 == 0 {
        n
    } else {
        n + (4 - n % 4)
    }
}

/// `n` zero bytes.
pub open spec fn zeros(n: int) -> Seq<u8> {
    Seq::new(n as nat, |i: int| 0u8)
}

/// Whether the argument type is a file descriptor.
pub open spec fn is_fd(t: WlArgType) -> bool {
    t is Fd
}

/// The first argument of type `t` read from the front of `p`, with `k`
/// descriptors already used out of `nfds`: its value and the number of
/// bytes it takes.
pub open spec fn parse_arg(e: Endian, t: WlArgType, p: Seq<u8>, k: int, nfds: int) -> Option<
    (ArgV, int),
> {
    if t is Fd {
        if k < nfds {
            Some((ArgV::Fd(k), 0))
        } else {
            None
        }
    } else if p.len() < 4 {
        None
    } else {
        let w = u32_at(e, p, 0);
        match t {
            WlArgType::Int => Some((ArgV::Int(w as i32), 4)),
            WlArgType::Uint => Some((ArgV::Uint(w), 4)),
            WlArgType::Fixed => Some((ArgV::Fixed(w as i32), 4)),
            WlArgType::Object => Some((ArgV::Object(w), 4)),
            WlArgType::NewId(_) => Some((ArgV::NewId(w), 4)),
            WlArgType::Enum => Some((ArgV::Enum(w), 4)),
            WlArgType::String => if w == 0 {
                Some((ArgV::Str(Seq::empty()), 4))
            } else if padded(w as int) > p.len() - 4 {
                None
            } else if !valid_utf8(p.subrange(4, 3 + w)) {
                None
            } else {
                Some((ArgV::Str(decode_utf8(p.subrange(4, 3 + w))), 4 + padded(w as int)))
            },
            WlArgType::Array => if padded(w as int) > p.len() - 4 {
                None
            } else {
                Some((ArgV::Array(p.subrange(4, 4 + w)), 4 + padded(w as int)))
            },
            WlArgType::Fd => None,
        }
    }
}

/// Arguments of types `ts` read in order from the front of `p`, with `k`
/// descriptors used out of `nfds`: the values and the descriptors used after.
pub open spec fn parse_args(e: Endian, ts: Seq<WlArgType>, p: Seq<u8>, k: int, nfds: int) -> Option<
    (Seq<ArgV>, int),
>
    decreases ts.len(),
{
    if ts.len() == 0 {
        Some((Seq::empty(), k))
    } else {
        match parse_arg(e, ts[0], p, k, nfds) {
            None => None,
            Some((a, n)) => match parse_args(
                e,
                ts.drop_first(),
                p.subrange(n, p.len() as int),
                if is_fd(ts[0]) {
                    k + 1
                } else {
                    k
                },
                nfds,
            ) {
                None => None,
                Some((rest, kk)) => Some((seq![a] + rest, kk)),
            },
        }
    }
}

/// The number of descriptor arguments among `ts`.
pub open spec fn fd_count(ts: Seq<WlArgType>) -> int
    decreases ts.len(),
{
    if ts.len() == 0 {
        0
    } else {
        (if is_fd(ts[0]) {
            1int
        } else {
            0int
        }) + fd_count(ts.drop_first())
    }
}

/// The bytes of one argument.
pub open spec fn encode_arg(e: Endian, a: ArgV) -> Seq<u8> {
    match a {
        ArgV::Int(v) => u32_bytes(e, v as u32),
        ArgV::Uint(v) => u32_bytes(e, v),
        ArgV::Fixed(v) => u32_bytes(e, v as u32),
        ArgV::Object(v) => u32_bytes(e, v),
        ArgV::NewId(v) => u32_bytes(e, v),
        ArgV::Enum(v) => u32_bytes(e, v),
        ArgV::Str(s) => {
            let b = encode_utf8(s);
            let n = b.len() + 1int;
            u32_bytes(e, n as u32) + b + seq![0u8] + zeros(padded(n) - n)
        },
        ArgV::Array(b) => u32_bytes(e, b.len() as u32) + b + zeros(padded(b.len() as int) - b.len()),
        ArgV::Fd(_) => Seq::empty(),
    }
}

/// The bytes of arguments in order.
pub open spec fn encode_args(e: Endian, vs: Seq<ArgV>) -> Seq<u8>
    decreases vs.len(),
{
    if vs.len() == 0 {
        Seq::empty()
    } else {
        encode_arg(e, vs[0]) + encode_args(e, vs.drop_first())
    }
}

/// Whether `a` is a value of type `t` that the wire can carry; a descriptor
/// must be the `k`-th of the message.
pub open spec fn arg_fits(t: WlArgType, a: ArgV, k: int) -> bool {
    match (t, a) {
        (WlArgType::Int, ArgV::Int(_)) => true,
        (WlArgType::Uint, ArgV::Uint(_)) => true,
        (WlArgType::Fixed, ArgV::Fixed(_)) => true,
        (WlArgType::Object, ArgV::Object(_)) => true,
        (WlArgType::NewId(_), ArgV::NewId(_)) => true,
        (WlArgType::Enum, ArgV::Enum(_)) => true,
        (WlArgType::String, ArgV::Str(s)) => encode_utf8(s).len() + 4 < 0x1_0000_0000,
        (WlArgType::Array, ArgV::Array(b)) => b.len() + 4 < 0x1_0000_0000,
        (WlArgType::Fd, ArgV::Fd(j)) => j == k,
        _ => false,
    }
}

/// Whether `vs` are values of types `ts`, descriptors numbered in order from `k`.
pub open spec fn args_fit(ts: Seq<WlArgType>, vs: Seq<ArgV>, k: int) -> bool
    decreases ts.len(),
{
    if ts.len() == 0 {
        vs.len() == 0
    } else {
        &&& vs.len() > 0
        &&& arg_fits(ts[0], vs[0], k)
        &&& args_fit(
            ts.drop_first(),
            vs.drop_first(),
            if is_fd(ts[0]) {
                k + 1
            } else {
                k
            },
        )
    }
}

proof fn lemma_fd_count_nonneg(ts: Seq<WlArgType>)
    ensures
        fd_count(ts) >= 0,
    decreases ts.len(),
{
    if ts.len() > 0 {
        lemma_fd_count_nonneg(ts.drop_first());
    }
}

proof fn lemma_i32_cast(v: i32)
    ensures
        (v as u32) as i32 == v,
{
    assert((v as u32) as i32 == v) by (bit_vector);
}

/// One argument written and read back is the same argument.
proof fn lemma_arg_roundtrip(e: Endian, t: WlArgType, a: ArgV, k: int, nfds: int, tail: Seq<u8>)
    requires
        arg_fits(t, a, k),
        k < nfds || !is_fd(t),
    ensures
        parse_arg(e, t, encode_arg(e, a) + tail, k, nfds) == Some((a, encode_arg(e, a).len() as int)),
        (encode_arg(e, a) + tail).subrange(encode_arg(e, a).len() as int, (encode_arg(e, a)
            + tail).len() as int) == tail,
{
    let p = encode_arg(e, a) + tail;
    assert(p.subrange(encode_arg(e, a).len() as int, p.len() as int) =~= tail);
    match a {
        ArgV::Fd(_) => {},
        ArgV::Str(s) => {
            let b = encode_utf8(s);
            let n = b.len() + 1int;
            lemma_u32_roundtrip(e, n as u32);
            let ub = u32_bytes(e, n as u32);
            assert(p[0] == ub[0] && p[1] == ub[1] && p[2] == ub[2] && p[3] == ub[3]);
            assert(u32_at(e, p, 0) == n);
            assert(p.subrange(4, 3 + n) =~= b);
        },
        ArgV::Array(b) => {
            lemma_u32_roundtrip(e, b.len() as u32);
            let ub = u32_bytes(e, b.len() as u32);
            assert(p[0] == ub[0] && p[1] == ub[1] && p[2] == ub[2] && p[3] == ub[3]);
            assert(u32_at(e, p, 0) == b.len());
            assert(p.subrange(4, 4 + b.len() as int) =~= b);
        },
        ArgV::Int(v) => {
            lemma_i32_cast(v);
            lemma_u32_roundtrip(e, v as u32);
            let ub = u32_bytes(e, v as u32);
            assert(p[0] == ub[0] && p[1] == ub[1] && p[2] == ub[2] && p[3] == ub[3]);
        },
        ArgV::Fixed(v) => {
            lemma_i32_cast(v);
            lemma_u32_roundtrip(e, v as u32);
            let ub = u32_bytes(e, v as u32);
            assert(p[0] == ub[0] && p[1] == ub[1] && p[2] == ub[2] && p[3] == ub[3]);
        },
        ArgV::Uint(v) => {
            lemma_u32_roundtrip(e, v);
            let ub = u32_bytes(e, v);
            assert(p[0] == ub[0] && p[1] == ub[1] && p[2] == ub[2] && p[3] == ub[3]);
        },
        ArgV::Object(v) => {
            lemma_u32_roundtrip(e, v);
            let ub = u32_bytes(e, v);
            assert(p[0] == ub[0] && p[1] == ub[1] && p[2] == ub[2] && p[3] == ub[3]);
        },
        ArgV::NewId(v) => {
            lemma_u32_roundtrip(e, v);
            let ub = u32_bytes(e, v);
            assert(p[0] == ub[0] && p[1] == ub[1] && p[2] == ub[2] && p[3] == ub[3]);
        },
        ArgV::Enum(v) => {
            lemma_u32_roundtrip(e, v);
            let ub = u32_bytes(e, v);
            assert(p[0] == ub[0] && p[1] == ub[1] && p[2] == ub[2] && p[3] == ub[3]);
        },
    }
}

/// Arguments that fit their types, written one after the other and read back
/// with enough descriptors at hand, are the same arguments; reading uses
/// exactly one descriptor per descriptor argument.
pub proof fn lemma_args_roundtrip(
    e: Endian,
    ts: Seq<WlArgType>,
    vs: Seq<ArgV>,
    k: int,
    nfds: int,
    tail: Seq<u8>,
)
    requires
        args_fit(ts, vs, k),
        k + fd_count(ts) <= nfds,
    ensures
        parse_args(e, ts, encode_args(e, vs) + tail, k, nfds) == Some((vs, k + fd_count(ts))),
    decreases ts.len(),
{
    if ts.len() == 0 {
        assert(vs =~= Seq::<ArgV>::empty());
    } else {
        let k2 = if is_fd(ts[0]) {
            k + 1
        } else {
            k
        };
        let rest = encode_args(e, vs.drop_first()) + tail;
        assert(encode_args(e, vs) + tail =~= encode_arg(e, vs[0]) + rest);
        lemma_fd_count_nonneg(ts.drop_first());
        lemma_arg_roundtrip(e, ts[0], vs[0], k, nfds, rest);
        lemma_args_roundtrip(e, ts.drop_first(), vs.drop_first(), k2, nfds, tail);
        assert(seq![vs[0]] + vs.drop_first() =~= vs);
    }
}

/// Reading arguments that succeeds gives one value per type and uses one
/// descriptor per descriptor argument.
pub proof fn lemma_parse_uses_fds(e: Endian, ts: Seq<WlArgType>, p: Seq<u8>, k: int, nfds: int)
    requires
        parse_args(e, ts, p, k, nfds) is Some,
    ensures
        ({
            let r = parse_args(e, ts, p, k, nfds)->0;
            r.0.len() == ts.len() && r.1 == k + fd_count(ts)
        }),
    decreases ts.len(),
{
    if ts.len() > 0 {
        let (a, n) = parse_arg(e, ts[0], p, k, nfds)->0;
        let k2 = if is_fd(ts[0]) {
            k + 1
        } else {
            k
        };
        lemma_parse_uses_fds(e, ts.drop_first(), p.subrange(n, p.len() as int), k2, nfds);
    }
}

/// The argument types of a message's declared arguments, in order.
pub open spec fn types_of(args: Seq<(String, WlArgType)>) -> Seq<WlArgType> {
    args.map_values(|a: (String, WlArgType)| a.1)
}

/// `r` with `pre` put in front of the values it holds.
pub open spec fn prepend(pre: Seq<ArgV>, r: Option<(Seq<ArgV>, int)>) -> Option<(Seq<ArgV>, int)> {
    match r {
        None => None,
        Some((vs, k)) => Some((pre + vs, k)),
    }
}

/// Relies on std::str::from_utf8: `Ok` exactly when the bytes are valid
/// UTF-8, and then a string slice made of those very bytes.
#[verifier::external_body]
pub(crate) fn utf8_str(b: &[u8]) -> (r: Option<&str>)
    ensures
        r is Some == valid_utf8(b@),
        r matches Some(s) ==> s.spec_bytes() == b@,
{
    std::str::from_utf8(b).ok()
}

/// Reads one argument of type `t` at `pos` in `p`, with `k` of `nfds`
/// descriptors used; gives the value and the number of bytes taken.
fn parse_one(e: Endian, t: &WlArgType, p: &[u8], pos: usize, k: usize, nfds: usize) -> (r: Option<
    (WlArg, usize),
>)
    requires
        pos <= p@.len(),
    ensures
        match parse_arg(e, *t, p@.subrange(pos as int, p@.len() as int), k as int, nfds as int) {
            None => r is None,
            Some((a, n)) => r matches Some((v, m)) && v@ == a && m == n,
        },
        r matches Some((_, m)) ==> m <= p@.len() - pos,
{
    let ghost q = p@.subrange(pos as int, p@.len() as int);
    if let WlArgType::Fd = t {
        if k < nfds {
            return Some((WlArg::Fd(k), 0));
        } else {
            return None;
        }
    }
    if p.len() - pos < 4 {
        return None;
    }
    let w = get_u32(e, p, pos);
    assert(w == u32_at(e, q, 0));
    match t {
        WlArgType::Int => Some((WlArg::Int(w as i32), 4)),
        WlArgType::Uint => Some((WlArg::Uint(w), 4)),
        WlArgType::Fixed => Some((WlArg::Fixed(w as i32), 4)),
        WlArgType::Object => Some((WlArg::Object(w), 4)),
        WlArgType::NewId(_) => Some((WlArg::NewId(w), 4)),
        WlArgType::Enum => Some((WlArg::Enum(w), 4)),
        WlArgType::String => {
            if w == 0 {
                return Some((WlArg::Str(String::new()), 4));
            }
            let rem = (p.len() - pos - 4) as u64;
            let wl = w as u64;
            let pad = if wl % 4 == 0 {
                wl
            } else {
                wl + (4 - wl % 4)
            };
            if pad > rem {
                return None;
            }
            let start = pos + 4;
            let end = start + (w as usize) - 1;
            let bytes = slice_subrange(p, start, end);
            assert(bytes@ =~= q.subrange(4, 3 + w));
            match utf8_str(bytes) {
                None => None,
                Some(s) => {
                    let owned = s.to_owned();
                    Some((WlArg::Str(owned), 4 + pad as usize))
                },
            }
        },
        WlArgType::Array => {
            let rem = (p.len() - pos - 4) as u64;
            let wl = w as u64;
            let pad = if wl % 4 == 0 {
                wl
            } else {
                wl + (4 - wl % 4)
            };
            if pad > rem {
                return None;
            }
            let start = pos + 4;
            let bytes = slice_subrange(p, start, start + w as usize);
            assert(bytes@ =~= q.subrange(4, 4 + w));
            Some((WlArg::Array(slice_to_vec(bytes)), 4 + pad as usize))
        },
        WlArgType::Fd => None,
    }
}

/// Reads arguments of the types `ts` in order from the payload `p`, which
/// arrived with `nfds` descriptors.
pub fn parse_payload(e: Endian, ts: &Vec<(String, WlArgType)>, p: &[u8], nfds: usize) -> (r: Option<
    Vec<WlArg>,
>)
    ensures
        match parse_args(e, types_of(ts@), p@, 0, nfds as int) {
            None => r is None,
            Some((vs, _)) => r matches Some(v) && args_view(v@) == vs,
        },
{
    let ghost tys = types_of(ts@);
    let mut out: Vec<WlArg> = Vec::new();
    let mut i: usize = 0;
    let mut pos: usize = 0;
    let mut k: usize = 0;
    let plen = p.len();
    assert(tys.subrange(0, tys.len() as int) =~= tys);
    assert(p@.subrange(0, p@.len() as int) =~= p@);
    assert(args_view(out@) =~= Seq::<ArgV>::empty());
    while i < ts.len()
        invariant
            i <= ts@.len(),
            pos <= p@.len(),
            plen == p@.len(),
            k <= nfds,
            tys == types_of(ts@),
            prepend(
                args_view(out@),
                parse_args(
                    e,
                    tys.subrange(i as int, tys.len() as int),
                    p@.subrange(pos as int, p@.len() as int),
                    k as int,
                    nfds as int,
                ),
            ) == parse_args(e, tys, p@, 0, nfds as int),
        decreases ts@.len() - i,
    {
        let ghost sub = tys.subrange(i as int, tys.len() as int);
        let ghost q = p@.subrange(pos as int, p@.len() as int);
        assert(sub[0] == ts@[i as int].1);
        assert(sub.drop_first() =~= tys.subrange(i + 1, tys.len() as int));
        match parse_one(e, &ts[i].1, p, pos, k, nfds) {
            None => {
                return None;
            },
            Some((v, m)) => {
                assert(q.subrange(m as int, q.len() as int) =~= p@.subrange(pos + m, p@.len() as int));
                let fd = if let WlArgType::Fd = &ts[i].1 {
                    true
                } else {
                    false
                };
                let ghost before = args_view(out@);
                let ghost a = v@;
                out.push(v);
                assert(args_view(out@) =~= before + seq![a]);
                proof {
                    let r = parse_args(
                        e,
                        tys.subrange(i + 1, tys.len() as int),
                        p@.subrange(pos + m, p@.len() as int),
                        if fd { k + 1 } else { k as int },
                        nfds as int,
                    );
                    match r {
                        None => {},
                        Some((vs, kk)) => {
                            assert(before + (seq![a] + vs) =~= (before + seq![a]) + vs);
                        },
                    }
                }
                pos = pos + m;
                if fd {
                    k = k + 1;
                }
                i = i + 1;
            },
        }
    }
    Some(out)
}

/// Whether the wire can carry `a`: a string or array length, with its
/// length word, fits in 32 bits.
pub open spec fn arg_size_ok(a: ArgV) -> bool {
    match a {
        ArgV::Str(s) => encode_utf8(s).len() + 4 < 0x1_0000_0000,
        ArgV::Array(b) => b.len() + 4 < 0x1_0000_0000,
        _ => true,
    }
}

/// Appends the bytes of `b`.
fn push_bytes(out: &mut Vec<u8>, b: &[u8])
    ensures
        final(out)@ == old(out)@ + b@,
{
    let mut i: usize = 0;
    while i < b.len()
        invariant
            i <= b@.len(),
            out@ == old(out)@ + b@.subrange(0, i as int),
        decreases b@.len() - i,
    {
        out.push(b[i]);
        assert(b@.subrange(0, i + 1) =~= b@.subrange(0, i as int).push(b@[i as int]));
        i = i + 1;
    }
    assert(b@.subrange(0, i as int) =~= b@);
}

/// Appends zero bytes up to the next multiple of four after `n` bytes.
fn push_padding(out: &mut Vec<u8>, n: usize)
    ensures
        final(out)@ == old(out)@ + zeros(padded(n as int) - n),
{
    let pad: usize = if n % 4 == 0 {
        0
    } else {
        4 - n % 4
    };
    let mut i: usize = 0;
    while i < pad
        invariant
            i <= pad,
            pad == padded(n as int) - n,
            out@ == old(out)@ + zeros(i as int),
        decreases pad - i,
    {
        out.push(0u8);
        assert(zeros(i + 1) =~= zeros(i as int).push(0u8));
        i = i + 1;
    }
}

/// Appends the bytes of one argument.
pub fn encode_one(e: Endian, a: &WlArg, out: &mut Vec<u8>)
    requires
        arg_size_ok(a@),
    ensures
        final(out)@ == old(out)@ + encode_arg(e, a@),
{
    match a {
        WlArg::Int(v) => put_u32(e, *v as u32, out),
        WlArg::Uint(v) => put_u32(e, *v, out),
        WlArg::Fixed(v) => put_u32(e, *v as u32, out),
        WlArg::Object(v) => put_u32(e, *v, out),
        WlArg::NewId(v) => put_u32(e, *v, out),
        WlArg::Enum(v) => put_u32(e, *v, out),
        WlArg::Str(s) => {
            let b = s.as_str().as_bytes();
            let n = b.len() + 1;
            put_u32(e, n as u32, out);
            push_bytes(out, b);
            out.push(0u8);
            push_padding(out, n);
            assert(final(out)@ =~= old(out)@ + encode_arg(e, a@));
        },
        WlArg::Array(b) => {
            put_u32(e, b.len() as u32, out);
            push_bytes(out, b.as_slice());
            push_padding(out, b.len());
            assert(final(out)@ =~= old(out)@ + encode_arg(e, a@));
        },
        WlArg::Fd(_) => {
            assert(final(out)@ =~= old(out)@ + encode_arg(e, a@));
        },
    }
}

/// Appends the bytes of the arguments, in order.
pub fn encode_payload(e: Endian, args: &Vec<WlArg>, out: &mut Vec<u8>)
    requires
        forall|i: int| 0 <= i < args@.len() ==> arg_size_ok(#[trigger] args@[i]@),
    ensures
        final(out)@ == old(out)@ + encode_args(e, args_view(args@)),
{
    let ghost vs = args_view(args@);
    let mut i: usize = 0;
    assert(vs.subrange(0, vs.len() as int) =~= vs);
    while i < args.len()
        invariant
            i <= args@.len(),
            vs == args_view(args@),
            forall|j: int| 0 <= j < args@.len() ==> arg_size_ok(#[trigger] args@[j]@),
            old(out)@ + encode_args(e, vs) == out@ + encode_args(e, vs.subrange(i as int, vs.len() as int)),
        decreases args@.len() - i,
    {
        let ghost sub = vs.subrange(i as int, vs.len() as int);
        assert(sub.drop_first() =~= vs.subrange(i + 1, vs.len() as int));
        let ghost before = out@;
        encode_one(e, &args[i], out);
        assert(before + encode_args(e, sub) =~= out@ + encode_args(e, sub.drop_first()));
        i = i + 1;
    }
    assert(encode_args(e, vs.subrange(i as int, vs.len() as int)) =~= Seq::<u8>::empty());
    assert(out@ =~= old(out)@ + encode_args(e, vs));
}

proof fn lemma_padded(n: int)
    requires
        n >= 0,
    ensures
        padded(n) % 4 == 0,
        n <= padded(n) < n + 4,
{
}

/// The bytes of one argument: their number is a multiple of four.
proof fn lemma_arg_aligned(e: Endian, a: ArgV)
    ensures
        encode_arg(e, a).len() % 4 == 0,
{
    match a {
        ArgV::Str(s) => {
            let n = encode_utf8(s).len() + 1int;
            lemma_padded(n);
            assert(encode_arg(e, a).len() == 4 + padded(n));
        },
        ArgV::Array(b) => {
            lemma_padded(b.len() as int);
            assert(encode_arg(e, a).len() == 4 + padded(b.len() as int));
        },
        _ => {},
    }
}

/// Every argument takes a multiple of four bytes.
pub proof fn lemma_encode_aligned(e: Endian, vs: Seq<ArgV>)
    ensures
        encode_args(e, vs).len() % 4 == 0,
    decreases vs.len(),
{
    if vs.len() > 0 {
        lemma_encode_aligned(e, vs.drop_first());
        lemma_arg_aligned(e, vs[0]);
        assert(encode_args(e, vs).len() == encode_arg(e, vs[0]).len() + encode_args(e, vs.drop_first()).len());
    }
}

} // verus!
