//! The binary document encoding of a holder, used as the shrine payload.
//!
//! Layout (all integers little-endian):
//! `namespace(public) | namespace(private)`, where a namespace is
//! `u32 count | entry*`, an entry is `u32 len | key (UTF-8) | secret`, and a secret is
//! `u32 len | bytes | u8 mode | i64 created_at`.
use crate::bytes::{
    le_bytes, le_value, lemma_le_bytes_len, lemma_le_round_trip, lemma_le_value_bound, pow256,
    push_le, read_le,
};
use crate::holder::{
    entries_view, holder_wf, Entry, EntriesView, Holder, HolderView,
};
use crate::values::{mode_tag, Mode, Secret, SecretBytes, SecretView};
use crate::Error;
use vstd::prelude::*;
use vstd::utf8::{decode_utf8, encode_utf8, valid_utf8};

verus! {

broadcast use vstd::utf8::encode_utf8_valid_utf8, vstd::utf8::encode_utf8_decode_utf8;

/// The format a holder is encoded in.
#[derive(Clone, Copy, Debug, PartialEq, Eq, Structural)]
pub enum SerializationFormat {
    /// The binary document layout of this module; the only stored payload format.
    BinaryDoc,
    /// The line-oriented `key=value` format of dumps and imports; never stored.
    Text,
}

pub open spec fn format_tag(f: SerializationFormat) -> u8 {
    match f {
        SerializationFormat::BinaryDoc => 0,
        SerializationFormat::Text => 1,
    }
}

pub open spec fn format_of_tag(t: u8) -> Option<SerializationFormat> {
    if t == 0 {
        Some(SerializationFormat::BinaryDoc)
    } else if t == 1 {
        Some(SerializationFormat::Text)
    } else {
        None
    }
}

impl SerializationFormat {
    pub fn tag(self) -> (r: u8)
        ensures
            r == format_tag(self),
    {
        match self {
            SerializationFormat::BinaryDoc => 0,
            SerializationFormat::Text => 1,
        }
    }

    pub fn from_tag(t: u8) -> (r: Option<SerializationFormat>)
        ensures
            r == format_of_tag(t),
    {
        if t == 0 {
            Some(SerializationFormat::BinaryDoc)
        } else if t == 1 {
            Some(SerializationFormat::Text)
        } else {
            None
        }
    }
}

pub open spec fn mode_of_tag(t: u8) -> Option<Mode> {
    if t == 0 {
        Some(Mode::Text)
    } else if t == 1 {
        Some(Mode::Binary)
    } else {
        None
    }
}

/// Two's complement bits of an `i64`.
pub open spec fn i64_bits(v: i64) -> nat {
    if v >= 0 {
        v as nat
    } else {
        (v + 0x1_0000_0000_0000_0000) as nat
    }
}

pub open spec fn i64_of_bits(n: nat) -> i64 {
    if n < 0x8000_0000_0000_0000 {
        n as i64
    } else {
        (n - 0x1_0000_0000_0000_0000) as i64
    }
}

pub open spec fn encode_secret(v: SecretView) -> Seq<u8> {
    le_bytes(v.value.len(), 4) + v.value + seq![mode_tag(v.mode)] + le_bytes(
        i64_bits(v.created_at),
        8,
    )
}

pub open spec fn encode_entry(e: (Seq<char>, SecretView)) -> Seq<u8> {
    le_bytes(encode_utf8(e.0).len(), 4) + encode_utf8(e.0) + encode_secret(e.1)
}

pub open spec fn encode_entries(s: EntriesView) -> Seq<u8>
    decreases s.len(),
{
    if s.len() == 0 {
        seq![]
    } else {
        encode_entries(s.drop_last()) + encode_entry(s.last())
    }
}

pub open spec fn encode_namespace(s: EntriesView) -> Seq<u8> {
    le_bytes(s.len(), 4) + encode_entries(s)
}

/// The encoding of a holder.
pub open spec fn encode_holder(h: HolderView) -> Seq<u8> {
    encode_namespace(h.public) + encode_namespace(h.private)
}

pub open spec fn entry_fits(e: (Seq<char>, SecretView)) -> bool {
    encode_utf8(e.0).len() <= u32::MAX && e.1.value.len() <= u32::MAX
}

pub open spec fn namespace_fits(s: EntriesView) -> bool {
    s.len() <= u32::MAX && forall|i: int| 0 <= i < s.len() ==> entry_fits(#[trigger] s[i])
}

/// Every count and length of the holder fits its 32-bit frame.
pub open spec fn holder_fits(h: HolderView) -> bool {
    namespace_fits(h.public) && namespace_fits(h.private)
}

// The reading side, as spec functions over a position in the input.
pub open spec fn read_u32(b: Seq<u8>, pos: int) -> Option<nat> {
    if 0 <= pos && pos + 4 <= b.len() {
        Some(le_value(b.subrange(pos, pos + 4)))
    } else {
        None
    }
}

pub open spec fn parse_secret(b: Seq<u8>, pos: int) -> Option<(SecretView, int)> {
    match read_u32(b, pos) {
        None => None,
        Some(n) => {
            let vs = pos + 4;
            let ve = vs + n;
            if ve + 9 <= b.len() {
                match mode_of_tag(b[ve]) {
                    Some(m) => Some(
                        (
                            SecretView {
                                value: b.subrange(vs, ve),
                                mode: m,
                                created_at: i64_of_bits(le_value(b.subrange(ve + 1, ve + 9))),
                            },
                            ve + 9,
                        ),
                    ),
                    None => None,
                }
            } else {
                None
            }
        },
    }
}

pub open spec fn parse_entry(b: Seq<u8>, pos: int) -> Option<((Seq<char>, SecretView), int)> {
    match read_u32(b, pos) {
        None => None,
        Some(n) => {
            let ks = pos + 4;
            let ke = ks + n;
            if ke <= b.len() && valid_utf8(b.subrange(ks, ke)) {
                match parse_secret(b, ke) {
                    Some((v, p)) => Some(((decode_utf8(b.subrange(ks, ke)), v), p)),
                    None => None,
                }
            } else {
                None
            }
        },
    }
}

pub open spec fn parse_entries(b: Seq<u8>, pos: int, n: nat) -> Option<(EntriesView, int)>
    decreases n,
{
    if n == 0 {
        Some((seq![], pos))
    } else {
        match parse_entries(b, pos, (n - 1) as nat) {
            Some((s, p)) => match parse_entry(b, p) {
                Some((e, p2)) => Some((s.push(e), p2)),
                None => None,
            },
            None => None,
        }
    }
}

pub open spec fn parse_namespace(b: Seq<u8>, pos: int) -> Option<(EntriesView, int)> {
    match read_u32(b, pos) {
        Some(n) => parse_entries(b, pos + 4, n),
        None => None,
    }
}

/// The holder that `b` encodes, if it encodes one.
pub open spec fn parse_holder(b: Seq<u8>) -> Option<HolderView> {
    match parse_namespace(b, 0) {
        Some((public, p)) => match parse_namespace(b, p) {
            Some((private, p2)) => {
                let h = HolderView { public, private };
                if p2 == b.len() && holder_wf(h) {
                    Some(h)
                } else {
                    None
                }
            },
            None => None,
        },
        None => None,
    }
}

proof fn lemma_pow256_small()
    ensures
        pow256(4) == 0x1_0000_0000,
        pow256(8) == 0x1_0000_0000_0000_0000,
{
    reveal_with_fuel(pow256, 9);
}

proof fn lemma_i64_bits(v: i64)
    ensures
        i64_bits(v) < 0x1_0000_0000_0000_0000,
        i64_of_bits(i64_bits(v)) == v,
{
}

proof fn lemma_i64_of_bits(n: nat)
    requires
        n < 0x1_0000_0000_0000_0000,
    ensures
        i64_bits(i64_of_bits(n)) == n,
{
}

/// Bytes read back as a value and written again are the same bytes.
proof fn lemma_le_bytes_of_value(s: Seq<u8>)
    ensures
        le_bytes(le_value(s), s.len()) == s,
    decreases s.len(),
{
    if s.len() > 0 {
        let v = le_value(s);
        let r = le_value(s.drop_first());
        assert(v % 256 == s[0] as nat && v / 256 == r) by (nonlinear_arith)
            requires
                v == s[0] as nat + 256 * r,
                s[0] < 256,
        ;
        lemma_le_bytes_of_value(s.drop_first());
        assert(le_bytes(v, s.len()) =~= seq![s[0]] + s.drop_first());
        assert(seq![s[0]] + s.drop_first() =~= s);
    }
}

/// The part of `b` at `pos` that equals `x + y` splits into `x` then `y`.
proof fn lemma_split(b: Seq<u8>, pos: int, x: Seq<u8>, y: Seq<u8>)
    requires
        0 <= pos,
        pos + x.len() + y.len() <= b.len(),
        b.subrange(pos, pos + x.len() + y.len()) == x + y,
    ensures
        b.subrange(pos, pos + x.len()) == x,
        b.subrange(pos + x.len(), pos + x.len() + y.len()) == y,
{
    assert(b.subrange(pos, pos + x.len()) =~= (x + y).subrange(0, x.len() as int));
    assert(b.subrange(pos + x.len(), pos + x.len() + y.len()) =~= (x + y).subrange(
        x.len() as int,
        (x.len() + y.len()) as int,
    ));
}

/// Two adjacent parts of `b` join into one.
proof fn lemma_join(b: Seq<u8>, p0: int, p1: int, p2: int)
    requires
        0 <= p0 <= p1 <= p2 <= b.len(),
    ensures
        b.subrange(p0, p2) == b.subrange(p0, p1) + b.subrange(p1, p2),
{
    assert(b.subrange(p0, p2) =~= b.subrange(p0, p1) + b.subrange(p1, p2));
}

proof fn lemma_parse_secret_complete(b: Seq<u8>, pos: int, v: SecretView)
    requires
        0 <= pos,
        pos + encode_secret(v).len() <= b.len(),
        b.subrange(pos, pos + encode_secret(v).len()) == encode_secret(v),
        v.value.len() <= u32::MAX,
    ensures
        encode_secret(v).len() == v.value.len() + 13,
        parse_secret(b, pos) == Some((v, pos + encode_secret(v).len())),
{
    lemma_pow256_small();
    lemma_i64_bits(v.created_at);
    let a = le_bytes(v.value.len(), 4);
    let c = seq![mode_tag(v.mode)];
    let d = le_bytes(i64_bits(v.created_at), 8);
    lemma_le_bytes_len(v.value.len(), 4);
    lemma_le_bytes_len(i64_bits(v.created_at), 8);
    assert(encode_secret(v) == ((a + v.value) + c) + d);
    lemma_split(b, pos, (a + v.value) + c, d);
    lemma_split(b, pos, a + v.value, c);
    lemma_split(b, pos, a, v.value);
    lemma_le_round_trip(v.value.len(), 4);
    lemma_le_round_trip(i64_bits(v.created_at), 8);
    let ve = pos + 4 + v.value.len();
    assert(b[ve] == b.subrange(ve, ve + 1)[0]);
}

proof fn lemma_parse_secret_sound(b: Seq<u8>, pos: int)
    requires
        parse_secret(b, pos) is Some,
    ensures
        ({
            let (v, p) = parse_secret(b, pos)->Some_0;
            &&& pos < p <= b.len()
            &&& b.subrange(pos, p) == encode_secret(v)
            &&& v.value.len() <= u32::MAX
        }),
{
    lemma_pow256_small();
    let (v, p) = parse_secret(b, pos)->Some_0;
    let n = read_u32(b, pos)->Some_0;
    lemma_le_value_bound(b.subrange(pos, pos + 4));
    lemma_le_bytes_of_value(b.subrange(pos, pos + 4));
    let ve = pos + 4 + n;
    lemma_le_value_bound(b.subrange(ve + 1, ve + 9));
    lemma_le_bytes_of_value(b.subrange(ve + 1, ve + 9));
    lemma_i64_of_bits(le_value(b.subrange(ve + 1, ve + 9)));
    assert(b.subrange(ve, ve + 1) =~= seq![mode_tag(v.mode)]);
    lemma_join(b, pos, pos + 4, ve);
    lemma_join(b, pos, ve, ve + 1);
    lemma_join(b, pos, ve + 1, ve + 9);
}

proof fn lemma_parse_entry_complete(b: Seq<u8>, pos: int, e: (Seq<char>, SecretView))
    requires
        0 <= pos,
        pos + encode_entry(e).len() <= b.len(),
        b.subrange(pos, pos + encode_entry(e).len()) == encode_entry(e),
        entry_fits(e),
    ensures
        parse_entry(b, pos) == Some((e, pos + encode_entry(e).len())),
{
    lemma_pow256_small();
    let k = encode_utf8(e.0);
    let a = le_bytes(k.len(), 4);
    lemma_le_bytes_len(k.len(), 4);
    assert(encode_entry(e) == (a + k) + encode_secret(e.1));
    lemma_split(b, pos, a + k, encode_secret(e.1));
    lemma_split(b, pos, a, k);
    lemma_le_round_trip(k.len(), 4);
    lemma_parse_secret_complete(b, pos + 4 + k.len(), e.1);
}

proof fn lemma_parse_entry_sound(b: Seq<u8>, pos: int)
    requires
        parse_entry(b, pos) is Some,
    ensures
        ({
            let (e, p) = parse_entry(b, pos)->Some_0;
            &&& pos < p <= b.len()
            &&& b.subrange(pos, p) == encode_entry(e)
            &&& entry_fits(e)
        }),
{
    lemma_pow256_small();
    let (e, p) = parse_entry(b, pos)->Some_0;
    let n = read_u32(b, pos)->Some_0;
    lemma_le_value_bound(b.subrange(pos, pos + 4));
    lemma_le_bytes_of_value(b.subrange(pos, pos + 4));
    let ke = pos + 4 + n;
    let kb = b.subrange(pos + 4, ke);
    vstd::utf8::decode_utf8_encode_utf8(kb);
    lemma_parse_secret_sound(b, ke);
    lemma_join(b, pos, pos + 4, ke);
    lemma_join(b, pos, ke, p);
}

proof fn lemma_parse_entries_complete(b: Seq<u8>, pos: int, s: EntriesView)
    requires
        0 <= pos,
        pos + encode_entries(s).len() <= b.len(),
        b.subrange(pos, pos + encode_entries(s).len()) == encode_entries(s),
        forall|i: int| 0 <= i < s.len() ==> entry_fits(#[trigger] s[i]),
    ensures
        parse_entries(b, pos, s.len()) == Some((s, pos + encode_entries(s).len())),
    decreases s.len(),
{
    if s.len() > 0 {
        let init = s.drop_last();
        lemma_split(b, pos, encode_entries(init), encode_entry(s.last()));
        assert forall|i: int| 0 <= i < init.len() implies entry_fits(#[trigger] init[i]) by {
            assert(init[i] == s[i]);
        }
        lemma_parse_entries_complete(b, pos, init);
        assert(entry_fits(s[s.len() - 1]));
        lemma_parse_entry_complete(b, pos + encode_entries(init).len(), s.last());
        assert(init.push(s.last()) =~= s);
    }
}

proof fn lemma_parse_entries_sound(b: Seq<u8>, pos: int, n: nat)
    requires
        0 <= pos <= b.len(),
        parse_entries(b, pos, n) is Some,
    ensures
        ({
            let (s, p) = parse_entries(b, pos, n)->Some_0;
            &&& pos <= p <= b.len()
            &&& s.len() == n
            &&& b.subrange(pos, p) == encode_entries(s)
            &&& forall|i: int| 0 <= i < s.len() ==> entry_fits(#[trigger] s[i])
        }),
    decreases n,
{
    if n == 0 {
        assert(b.subrange(pos, pos) =~= Seq::<u8>::empty());
    } else {
        lemma_parse_entries_sound(b, pos, (n - 1) as nat);
        let (s0, p0) = parse_entries(b, pos, (n - 1) as nat)->Some_0;
        lemma_parse_entry_sound(b, p0);
        let (e, p) = parse_entry(b, p0)->Some_0;
        let s = s0.push(e);
        assert(s.drop_last() =~= s0);
        lemma_join(b, pos, p0, p);
        assert forall|i: int| 0 <= i < s.len() implies entry_fits(#[trigger] s[i]) by {
            if i < s0.len() {
                assert(s[i] == s0[i]);
            }
        }
    }
}

proof fn lemma_parse_namespace_complete(b: Seq<u8>, pos: int, s: EntriesView)
    requires
        0 <= pos,
        pos + encode_namespace(s).len() <= b.len(),
        b.subrange(pos, pos + encode_namespace(s).len()) == encode_namespace(s),
        namespace_fits(s),
    ensures
        parse_namespace(b, pos) == Some((s, pos + encode_namespace(s).len())),
{
    lemma_pow256_small();
    lemma_le_bytes_len(s.len(), 4);
    lemma_split(b, pos, le_bytes(s.len(), 4), encode_entries(s));
    lemma_le_round_trip(s.len(), 4);
    lemma_parse_entries_complete(b, pos + 4, s);
}

proof fn lemma_parse_namespace_sound(b: Seq<u8>, pos: int)
    requires
        0 <= pos <= b.len(),
        parse_namespace(b, pos) is Some,
    ensures
        ({
            let (s, p) = parse_namespace(b, pos)->Some_0;
            &&& pos <= p <= b.len()
            &&& b.subrange(pos, p) == encode_namespace(s)
            &&& namespace_fits(s)
        }),
{
    lemma_pow256_small();
    let n = read_u32(b, pos)->Some_0;
    lemma_le_value_bound(b.subrange(pos, pos + 4));
    lemma_le_bytes_of_value(b.subrange(pos, pos + 4));
    lemma_parse_entries_sound(b, pos + 4, n);
    let (s, p) = parse_namespace(b, pos)->Some_0;
    lemma_join(b, pos, pos + 4, p);
}

/// Reading the encoding of a well-formed holder gives back that holder.
pub proof fn lemma_parse_encode(h: HolderView)
    requires
        holder_wf(h),
        holder_fits(h),
    ensures
        parse_holder(encode_holder(h)) == Some(h),
{
    let b = encode_holder(h);
    let x = encode_namespace(h.public);
    let y = encode_namespace(h.private);
    assert(b.subrange(0, x.len() as int) =~= x);
    assert(b.subrange(x.len() as int, (x.len() + y.len()) as int) =~= y);
    lemma_parse_namespace_complete(b, 0, h.public);
    lemma_parse_namespace_complete(b, x.len() as int, h.private);
}

/// What reads as a holder is that holder's encoding.
pub proof fn lemma_encode_parse(b: Seq<u8>)
    requires
        parse_holder(b) is Some,
    ensures
        encode_holder(parse_holder(b)->Some_0) == b,
        holder_wf(parse_holder(b)->Some_0),
        holder_fits(parse_holder(b)->Some_0),
{
    lemma_parse_namespace_sound(b, 0);
    let (public, p) = parse_namespace(b, 0)->Some_0;
    lemma_parse_namespace_sound(b, p);
    lemma_join(b, 0, p, b.len() as int);
    assert(b.subrange(0, b.len() as int) =~= b);
}

/// Distinct well-formed holders have distinct encodings.
pub proof fn lemma_encode_injective(h1: HolderView, h2: HolderView)
    requires
        holder_wf(h1),
        holder_fits(h1),
        holder_wf(h2),
        holder_fits(h2),
        encode_holder(h1) == encode_holder(h2),
    ensures
        h1 == h2,
{
    lemma_parse_encode(h1);
    lemma_parse_encode(h2);
}

fn i64_to_bits(v: i64) -> (r: u64)
    ensures
        r as nat == i64_bits(v),
{
    if v >= 0 {
        v as u64
    } else {
        ((v + i64::MAX) + 1) as u64 + 0x8000_0000_0000_0000u64
    }
}

fn i64_from_bits(n: u64) -> (r: i64)
    ensures
        r == i64_of_bits(n as nat),
{
    if n < 0x8000_0000_0000_0000u64 {
        n as i64
    } else {
        ((n - 0x8000_0000_0000_0000u64) as i64 - i64::MAX) - 1
    }
}

fn push_bytes(out: &mut Vec<u8>, b: &[u8])
    ensures
        final(out)@ == old(out)@ + b@,
{
    let mut i: usize = 0;
    while i < b.len()
        invariant
            i <= b@.len(),
            out@ == old(out)@ + b@.subrange(0, i as int),
        decreases b@.len() - i,
    {
        out.push(b[i]);
        i = i + 1;
        assert(out@ =~= old(out)@ + b@.subrange(0, i as int));
    }
    assert(b@.subrange(0, i as int) =~= b@);
}

fn push_secret(out: &mut Vec<u8>, s: &Secret)
    requires
        s@.value.len() <= u32::MAX,
    ensures
        final(out)@ == old(out)@ + encode_secret(s@),
{
    let value = s.value().expose_secret_as_bytes();
    push_le(out, value.len() as u128, 4);
    push_bytes(out, value);
    out.push(s.mode().tag());
    push_le(out, i64_to_bits(s.created_at()) as u128, 8);
    assert(out@ =~= old(out)@ + encode_secret(s@));
}

fn push_entry(out: &mut Vec<u8>, e: &Entry)
    requires
        entry_fits((e.key@, e.secret@)),
    ensures
        final(out)@ == old(out)@ + encode_entry((e.key@, e.secret@)),
{
    let key = e.key.as_str().as_bytes();
    push_le(out, key.len() as u128, 4);
    push_bytes(out, key);
    push_secret(out, &e.secret);
    assert(out@ =~= old(out)@ + encode_entry((e.key@, e.secret@)));
}

fn namespace_fits_exec(v: &Vec<Entry>) -> (r: bool)
    ensures
        r == namespace_fits(entries_view(v@)),
{
    if v.len() > 0xFFFF_FFFFusize {
        return false;
    }
    let mut i: usize = 0;
    while i < v.len()
        invariant
            i <= v@.len(),
            forall|j: int| 0 <= j < i ==> entry_fits(#[trigger] entries_view(v@)[j]),
        decreases v@.len() - i,
    {
        if v[i].key.as_str().as_bytes().len() > 0xFFFF_FFFFusize
            || v[i].secret.value().len() > 0xFFFF_FFFFusize {
            assert(!entry_fits(entries_view(v@)[i as int]));
            return false;
        }
        i = i + 1;
    }
    true
}

fn push_namespace(out: &mut Vec<u8>, v: &Vec<Entry>)
    requires
        namespace_fits(entries_view(v@)),
    ensures
        final(out)@ == old(out)@ + encode_namespace(entries_view(v@)),
{
    let ghost s = entries_view(v@);
    push_le(out, v.len() as u128, 4);
    let ghost start = out@;
    let mut i: usize = 0;
    while i < v.len()
        invariant
            i <= v@.len(),
            s == entries_view(v@),
            namespace_fits(s),
            out@ == start + encode_entries(s.take(i as int)),
        decreases v@.len() - i,
    {
        assert(entry_fits(s[i as int]));
        push_entry(out, &v[i]);
        assert(s.take(i + 1).drop_last() =~= s.take(i as int));
        i = i + 1;
        assert(out@ =~= start + encode_entries(s.take(i as int)));
    }
    assert(s.take(i as int) =~= s);
    assert(out@ =~= old(out)@ + encode_namespace(s));
}

/// Encodes a holder; fails where a count or length does not fit its 32-bit frame.
pub fn serialize(h: &Holder) -> (r: Result<Vec<u8>, Error>)
    ensures
        r is Ok <==> holder_fits(h@),
        match r {
            Ok(b) => b@ == encode_holder(h@),
            Err(e) => e is TooLarge,
        },
{
    let public = h.public_entries();
    let private = h.private_entries();
    if !namespace_fits_exec(public) || !namespace_fits_exec(private) {
        return Err(Error::TooLarge);
    }
    let mut out: Vec<u8> = Vec::new();
    push_namespace(&mut out, public);
    push_namespace(&mut out, private);
    assert(out@ =~= encode_holder(h@));
    Ok(out)
}

fn read_u32_at(b: &[u8], pos: usize) -> (r: Option<usize>)
    ensures
        match r {
            Some(n) => read_u32(b@, pos as int) == Some(n as nat),
            None => read_u32(b@, pos as int) is None,
        },
{
    if b.len() < 4 || pos > b.len() - 4 {
        return None;
    }
    let v = read_le(b, pos, 4);
    proof {
        lemma_le_value_bound(b@.subrange(pos as int, pos + 4));
        lemma_pow256_small();
    }
    Some(v as usize)
}

fn parse_secret_at(b: &[u8], pos: usize) -> (r: Option<(Secret, usize)>)
    ensures
        match r {
            Some((s, p)) => parse_secret(b@, pos as int) == Some((s@, p as int)),
            None => parse_secret(b@, pos as int) is None,
        },
{
    let n = match read_u32_at(b, pos) {
        Some(n) => n,
        None => return None,
    };
    let blen = b.len();
    let vs = pos + 4;
    if b.len() - vs < n || b.len() - vs - n < 9 {
        return None;
    }
    let ve = vs + n;
    let mode = match Mode::from_tag(b[ve]) {
        Some(m) => m,
        None => return None,
    };
    let bits = read_le(b, ve + 1, 8);
    proof {
        lemma_le_value_bound(b@.subrange(ve + 1, ve + 9));
        lemma_pow256_small();
    }
    let value = SecretBytes::from_slice(vstd::slice::slice_subrange(b, vs, ve));
    let created = i64_from_bits(bits as u64);
    Some((Secret::new(value, mode, created), ve + 9))
}

/// Decodes UTF-8 bytes into a string.
///
/// Relies on `std::str::from_utf8`: it accepts exactly the well-formed UTF-8
/// sequences, and the string it returns holds the characters they encode.
#[verifier::external_body]
fn utf8_to_string(b: &[u8]) -> (r: Option<String>)
    ensures
        r is Some <==> valid_utf8(b@),
        r matches Some(s) ==> s@ == decode_utf8(b@),
{
    std::str::from_utf8(b).ok().map(|s| s.to_owned())
}

fn parse_entry_at(b: &[u8], pos: usize) -> (r: Option<(Entry, usize)>)
    ensures
        match r {
            Some((e, p)) => parse_entry(b@, pos as int) == Some(((e.key@, e.secret@), p as int)),
            None => parse_entry(b@, pos as int) is None,
        },
{
    let n = match read_u32_at(b, pos) {
        Some(n) => n,
        None => return None,
    };
    let blen = b.len();
    let ks = pos + 4;
    if b.len() - ks < n {
        return None;
    }
    let ke = ks + n;
    let key = match utf8_to_string(vstd::slice::slice_subrange(b, ks, ke)) {
        Some(k) => k,
        None => return None,
    };
    match parse_secret_at(b, ke) {
        Some((secret, p)) => Some((Entry { key, secret }, p)),
        None => None,
    }
}

proof fn lemma_parse_entries_stuck(b: Seq<u8>, pos: int, m: nat, n: nat)
    requires
        m <= n,
        parse_entries(b, pos, m) is None,
    ensures
        parse_entries(b, pos, n) is None,
    decreases n,
{
    if m < n {
        lemma_parse_entries_stuck(b, pos, m, (n - 1) as nat);
    }
}

fn parse_namespace_at(b: &[u8], pos: usize) -> (r: Option<(Vec<Entry>, usize)>)
    ensures
        match r {
            Some((v, p)) => parse_namespace(b@, pos as int) == Some((entries_view(v@), p as int)),
            None => parse_namespace(b@, pos as int) is None,
        },
{
    let n = match read_u32_at(b, pos) {
        Some(n) => n,
        None => return None,
    };
    let blen = b.len();
    let start = pos + 4;
    let mut entries: Vec<Entry> = Vec::new();
    let mut p: usize = start;
    let mut i: usize = 0;
    assert(entries_view(entries@) =~= Seq::<(Seq<char>, SecretView)>::empty());
    while i < n
        invariant
            i <= n,
            read_u32(b@, pos as int) == Some(n as nat),
            start == pos + 4,
            parse_entries(b@, start as int, i as nat) == Some((entries_view(entries@), p as int)),
        decreases n - i,
    {
        match parse_entry_at(b, p) {
            Some((e, next)) => {
                let ghost before = entries@;
                entries.push(e);
                assert(entries_view(entries@) =~= entries_view(before).push(
                    (entries@.last().key@, entries@.last().secret@),
                ));
                p = next;
                i = i + 1;
            },
            None => {
                assert(parse_entries(b@, start as int, (i + 1) as nat) is None);
                proof {
                    lemma_parse_entries_stuck(b@, start as int, (i + 1) as nat, n as nat);
                    assert(read_u32(b@, pos as int) == Some(n as nat));
                    assert(parse_namespace(b@, pos as int) == parse_entries(
                        b@,
                        start as int,
                        n as nat,
                    ));
                }
                return None;
            },
        }
    }
    Some((entries, p))
}

/// Decodes a holder, accepting exactly the encodings of well-formed holders.
pub fn deserialize(b: &[u8]) -> (r: Result<Holder, Error>)
    ensures
        r is Ok <==> exists|h: HolderView|
            holder_wf(h) && holder_fits(h) && #[trigger] encode_holder(h) == b@,
        match r {
            Ok(h) => parse_holder(b@) == Some(h@) && encode_holder(h@) == b@ && holder_fits(h@),
            Err(e) => parse_holder(b@) is None && e is InvalidFile,
        },
{
    let res = decode_parts(b);
    proof {
        if exists|h: HolderView| holder_wf(h) && holder_fits(h) && #[trigger] encode_holder(h) == b@ {
            let h = choose|h: HolderView|
                holder_wf(h) && holder_fits(h) && #[trigger] encode_holder(h) == b@;
            lemma_parse_encode(h);
        }
    }
    match res {
        Some(h) => {
            proof {
                lemma_encode_parse(b@);
            }
            Ok(h)
        },
        None => Err(Error::InvalidFile("payload is not a holder document".to_string())),
    }
}

fn decode_parts(b: &[u8]) -> (r: Option<Holder>)
    ensures
        match r {
            Some(h) => parse_holder(b@) == Some(h@),
            None => parse_holder(b@) is None,
        },
{
    let (public, p) = match parse_namespace_at(b, 0) {
        Some(x) => x,
        None => return None,
    };
    let (private, p2) = match parse_namespace_at(b, p) {
        Some(x) => x,
        None => return None,
    };
    if p2 != b.len() {
        return None;
    }
    Holder::from_entries(public, private)
}

} // verus!
