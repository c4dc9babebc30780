//! The snapshot codec: a total, self-describing byte encoding of the whole
//! poll store, written after every mutation and read back at process start.
//!
//! Every encodable type implements [`Codec`]: a specification-level encoder
//! `enc` over its model, a total specification-level parser `dec`, the proof
//! that parsing an embedded encoding returns exactly the encoded model, and
//! the executable pair. The round trip `load(save(store)) == store` follows
//! from those contracts; the unverified shell only moves the bytes to and
//! from disk.

use vstd::prelude::*;

verus! {

/// A type whose values can be written into a snapshot and read back.
pub trait Codec: DeepView + Sized {
    /// Encodings only round-trip for models a real value can have; in
    /// particular every length fits the 64 bits the encoding stores it in.
    spec fn enc_wf(m: Self::V) -> bool;

    /// The byte encoding of a model value.
    spec fn enc(m: Self::V) -> Seq<u8>;

    /// The total parser: the model read at `pos` and the position after
    /// it, or nothing on malformed bytes.
    spec fn dec(b: Seq<u8>, pos: int) -> Option<(Self::V, int)>;

    /// Whatever the parser accepts sits inside the buffer.
    proof fn lemma_dec_range(b: Seq<u8>, pos: int)
        requires
            0 <= pos <= b.len(),
        ensures
            match Self::dec(b, pos) {
                Option::Some(p) => pos <= p.1 <= b.len(),
                Option::None => true,
            },
    ;

    /// Parsing an encoding embedded at `pos` yields exactly the encoded
    /// model and consumes exactly its bytes.
    proof fn lemma_dec_enc(pre: Seq<u8>, m: Self::V, suf: Seq<u8>)
        requires
            Self::enc_wf(m),
        ensures
            Self::dec(pre + Self::enc(m) + suf, pre.len() as int) == Option::Some(
                (m, pre.len() + Self::enc(m).len() as int),
            ),
    ;

    /// Appends the encoding of this value; every real value has a
    /// well-formed model.
    fn encode(&self, out: &mut Vec<u8>)
        ensures
            final(out)@ == old(out)@ + Self::enc(self.deep_view()),
            Self::enc_wf(self.deep_view()),
    ;

    /// Runs the parser.
    fn decode(b: &Vec<u8>, pos: usize) -> (r: Option<(Self, usize)>)
        requires
            pos <= b@.len(),
        ensures
            match r {
                Option::Some(p) => Self::dec(b@, pos as int) == Option::Some(
                    (p.0.deep_view(), p.1 as int),
                ) && pos <= p.1 <= b@.len(),
                Option::None => Self::dec(b@, pos as int) is None,
            },
    ;
}

// ---------------------------------------------------------------------------
// The one primitive: a 64-bit little-endian word
// ---------------------------------------------------------------------------

/// The eight little-endian bytes of a 64-bit word; every other encoding is
/// built from these.
pub open spec fn enc_u64(x: u64) -> Seq<u8> {
    seq![
        (x & 0xff) as u8,
        ((x >> 8) & 0xff) as u8,
        ((x >> 16) & 0xff) as u8,
        ((x >> 24) & 0xff) as u8,
        ((x >> 32) & 0xff) as u8,
        ((x >> 40) & 0xff) as u8,
        ((x >> 48) & 0xff) as u8,
        ((x >> 56) & 0xff) as u8,
    ]
}

/// The word the eight bytes at `pos` assemble to.
pub open spec fn dec_u64_at(b: Seq<u8>, pos: int) -> u64 {
    (b[pos] as u64) | ((b[pos + 1] as u64) << 8) | ((b[pos + 2] as u64) << 16) | ((b[pos + 3]
        as u64) << 24) | ((b[pos + 4] as u64) << 32) | ((b[pos + 5] as u64) << 40) | ((b[pos + 6]
        as u64) << 48) | ((b[pos + 7] as u64) << 56)
}

/// The total parser for a word.
pub open spec fn dec_u64(b: Seq<u8>, pos: int) -> Option<(u64, int)> {
    if pos + 8 <= b.len() {
        Option::Some((dec_u64_at(b, pos), pos + 8))
    } else {
        Option::None
    }
}

/// Assembling the eight encoded bytes of `x` gives back `x`.
pub proof fn lemma_u64_round_trip(x: u64)
    ensures
        ((x & 0xff) as u8 as u64) | (((x >> 8) & 0xff) as u8 as u64) << 8 | (((x >> 16)
            & 0xff) as u8 as u64) << 16 | (((x >> 24) & 0xff) as u8 as u64) << 24 | (((x >> 32)
            & 0xff) as u8 as u64) << 32 | (((x >> 40) & 0xff) as u8 as u64) << 40 | (((x >> 48)
            & 0xff) as u8 as u64) << 48 | (((x >> 56) & 0xff) as u8 as u64) << 56 == x,
{
    assert(((x & 0xff) as u8 as u64) | (((x >> 8) & 0xff) as u8 as u64) << 8 | (((x >> 16)
        & 0xff) as u8 as u64) << 16 | (((x >> 24) & 0xff) as u8 as u64) << 24 | (((x >> 32)
        & 0xff) as u8 as u64) << 32 | (((x >> 40) & 0xff) as u8 as u64) << 40 | (((x >> 48)
        & 0xff) as u8 as u64) << 48 | (((x >> 56) & 0xff) as u8 as u64) << 56 == x)
        by (bit_vector);
}

/// Parsing the embedded encoding of a word yields the word.
pub proof fn lemma_dec_enc_u64(pre: Seq<u8>, x: u64, suf: Seq<u8>)
    ensures
        dec_u64(pre + enc_u64(x) + suf, pre.len() as int) == Option::Some(
            (x, pre.len() + 8 as int),
        ),
{
    let b = pre + enc_u64(x) + suf;
    let p = pre.len() as int;
    assert(b.len() == pre.len() + 8 + suf.len());
    assert forall|k: int| 0 <= k < 8 implies b[p + k] == enc_u64(x)[k] by {
        assert(b[p + k] == (pre + enc_u64(x) + suf)[p + k]);
    };
    lemma_u64_round_trip(x);
    assert(dec_u64_at(b, p) == x);
}

/// Appends the eight bytes of `x`.
pub fn encode_u64(x: u64, out: &mut Vec<u8>)
    ensures
        final(out)@ == old(out)@ + enc_u64(x),
{
    out.push((x & 0xff) as u8);
    out.push(((x >> 8) & 0xff) as u8);
    out.push(((x >> 16) & 0xff) as u8);
    out.push(((x >> 24) & 0xff) as u8);
    out.push(((x >> 32) & 0xff) as u8);
    out.push(((x >> 40) & 0xff) as u8);
    out.push(((x >> 48) & 0xff) as u8);
    out.push(((x >> 56) & 0xff) as u8);
    proof {
        assert(out@ =~= old(out)@ + enc_u64(x));
    }
}

/// Reads the eight bytes at `pos`.
pub fn decode_u64(b: &Vec<u8>, pos: usize) -> (r: Option<(u64, usize)>)
    requires
        pos <= b@.len(),
    ensures
        match r {
            Option::Some(p) => dec_u64(b@, pos as int) == Option::Some((p.0, p.1 as int)) && pos
                <= p.1 <= b@.len(),
            Option::None => dec_u64(b@, pos as int) is None,
        },
{
    if b.len() - pos >= 8 {
        let x: u64 = (b[pos] as u64) | ((b[pos + 1] as u64) << 8) | ((b[pos + 2] as u64) << 16) | (
        (b[pos + 3] as u64) << 24) | ((b[pos + 4] as u64) << 32) | ((b[pos + 5] as u64) << 40) | ((
        b[pos + 6] as u64) << 48) | ((b[pos + 7] as u64) << 56);
        Option::Some((x, pos + 8))
    } else {
        Option::None
    }
}

impl Codec for u64 {
    open spec fn enc_wf(m: u64) -> bool {
        true
    }

    open spec fn enc(m: u64) -> Seq<u8> {
        enc_u64(m)
    }

    open spec fn dec(b: Seq<u8>, pos: int) -> Option<(u64, int)> {
        dec_u64(b, pos)
    }

    proof fn lemma_dec_range(b: Seq<u8>, pos: int) {
    }

    proof fn lemma_dec_enc(pre: Seq<u8>, m: u64, suf: Seq<u8>) {
        lemma_dec_enc_u64(pre, m, suf);
    }

    fn encode(&self, out: &mut Vec<u8>) {
        encode_u64(*self, out);
    }

    fn decode(b: &Vec<u8>, pos: usize) -> (r: Option<(Self, usize)>) {
        decode_u64(b, pos)
    }
}

// ---------------------------------------------------------------------------
// Narrow integers, booleans and characters ride on the 64-bit word
// ---------------------------------------------------------------------------

impl Codec for u8 {
    open spec fn enc_wf(m: u8) -> bool {
        true
    }

    open spec fn enc(m: u8) -> Seq<u8> {
        enc_u64(m as u64)
    }

    open spec fn dec(b: Seq<u8>, pos: int) -> Option<(u8, int)> {
        match dec_u64(b, pos) {
            Option::Some((v, p)) => if v <= 0xff {
                Option::Some((v as u8, p))
            } else {
                Option::None
            },
            Option::None => Option::None,
        }
    }

    proof fn lemma_dec_range(b: Seq<u8>, pos: int) {
    }

    proof fn lemma_dec_enc(pre: Seq<u8>, m: u8, suf: Seq<u8>) {
        lemma_dec_enc_u64(pre, m as u64, suf);
    }

    fn encode(&self, out: &mut Vec<u8>) {
        encode_u64(*self as u64, out);
    }

    fn decode(b: &Vec<u8>, pos: usize) -> (r: Option<(Self, usize)>) {
        match decode_u64(b, pos) {
            Option::Some((v, p)) => {
                if v <= 0xff {
                    Option::Some((v as u8, p))
                } else {
                    Option::None
                }
            },
            Option::None => Option::None,
        }
    }
}

impl Codec for u16 {
    open spec fn enc_wf(m: u16) -> bool {
        true
    }

    open spec fn enc(m: u16) -> Seq<u8> {
        enc_u64(m as u64)
    }

    open spec fn dec(b: Seq<u8>, pos: int) -> Option<(u16, int)> {
        match dec_u64(b, pos) {
            Option::Some((v, p)) => if v <= 0xffff {
                Option::Some((v as u16, p))
            } else {
                Option::None
            },
            Option::None => Option::None,
        }
    }

    proof fn lemma_dec_range(b: Seq<u8>, pos: int) {
    }

    proof fn lemma_dec_enc(pre: Seq<u8>, m: u16, suf: Seq<u8>) {
        lemma_dec_enc_u64(pre, m as u64, suf);
    }

    fn encode(&self, out: &mut Vec<u8>) {
        encode_u64(*self as u64, out);
    }

    fn decode(b: &Vec<u8>, pos: usize) -> (r: Option<(Self, usize)>) {
        match decode_u64(b, pos) {
            Option::Some((v, p)) => {
                if v <= 0xffff {
                    Option::Some((v as u16, p))
                } else {
                    Option::None
                }
            },
            Option::None => Option::None,
        }
    }
}

impl Codec for usize {
    open spec fn enc_wf(m: usize) -> bool {
        true
    }

    open spec fn enc(m: usize) -> Seq<u8> {
        enc_u64(m as u64)
    }

    open spec fn dec(b: Seq<u8>, pos: int) -> Option<(usize, int)> {
        match dec_u64(b, pos) {
            Option::Some((v, p)) => if v <= usize::MAX as u64 {
                Option::Some((v as usize, p))
            } else {
                Option::None
            },
            Option::None => Option::None,
        }
    }

    proof fn lemma_dec_range(b: Seq<u8>, pos: int) {
    }

    proof fn lemma_dec_enc(pre: Seq<u8>, m: usize, suf: Seq<u8>) {
        lemma_dec_enc_u64(pre, m as u64, suf);
    }

    fn encode(&self, out: &mut Vec<u8>) {
        encode_u64(*self as u64, out);
    }

    fn decode(b: &Vec<u8>, pos: usize) -> (r: Option<(Self, usize)>) {
        match decode_u64(b, pos) {
            Option::Some((v, p)) => {
                if v <= usize::MAX as u64 {
                    Option::Some((v as usize, p))
                } else {
                    Option::None
                }
            },
            Option::None => Option::None,
        }
    }
}

impl Codec for i64 {
    open spec fn enc_wf(m: i64) -> bool {
        true
    }

    open spec fn enc(m: i64) -> Seq<u8> {
        enc_u64(m as u64)
    }

    open spec fn dec(b: Seq<u8>, pos: int) -> Option<(i64, int)> {
        match dec_u64(b, pos) {
            Option::Some((v, p)) => Option::Some((v as i64, p)),
            Option::None => Option::None,
        }
    }

    proof fn lemma_dec_range(b: Seq<u8>, pos: int) {
    }

    proof fn lemma_dec_enc(pre: Seq<u8>, m: i64, suf: Seq<u8>) {
        lemma_dec_enc_u64(pre, m as u64, suf);
        assert((m as u64) as i64 == m) by (bit_vector);
    }

    fn encode(&self, out: &mut Vec<u8>) {
        encode_u64(*self as u64, out);
    }

    fn decode(b: &Vec<u8>, pos: usize) -> (r: Option<(Self, usize)>) {
        match decode_u64(b, pos) {
            Option::Some((v, p)) => Option::Some((v as i64, p)),
            Option::None => Option::None,
        }
    }
}

impl Codec for bool {
    open spec fn enc_wf(m: bool) -> bool {
        true
    }

    open spec fn enc(m: bool) -> Seq<u8> {
        enc_u64(
            if m {
                1
            } else {
                0
            },
        )
    }

    open spec fn dec(b: Seq<u8>, pos: int) -> Option<(bool, int)> {
        match dec_u64(b, pos) {
            Option::Some((v, p)) => if v == 0 {
                Option::Some((false, p))
            } else if v == 1 {
                Option::Some((true, p))
            } else {
                Option::None
            },
            Option::None => Option::None,
        }
    }

    proof fn lemma_dec_range(b: Seq<u8>, pos: int) {
    }

    proof fn lemma_dec_enc(pre: Seq<u8>, m: bool, suf: Seq<u8>) {
        lemma_dec_enc_u64(
            pre,
            if m {
                1
            } else {
                0
            },
            suf,
        );
    }

    fn encode(&self, out: &mut Vec<u8>) {
        encode_u64(
            if *self {
                1
            } else {
                0
            },
            out,
        );
    }

    fn decode(b: &Vec<u8>, pos: usize) -> (r: Option<(Self, usize)>) {
        match decode_u64(b, pos) {
            Option::Some((v, p)) => {
                if v == 0 {
                    Option::Some((false, p))
                } else if v == 1 {
                    Option::Some((true, p))
                } else {
                    Option::None
                }
            },
            Option::None => Option::None,
        }
    }
}

/// Every character's code point is a scalar word and casts back to the
/// same character.
pub proof fn lemma_char_word(c: char)
    ensures
        is_scalar_word(c as u64),
        (c as u64) as char == c,
{
}

/// A 64-bit word that names a Unicode scalar value.
pub open spec fn is_scalar_word(v: u64) -> bool {
    v < 0xD800 || (0xE000 <= v && v <= 0x10FFFF)
}

/// Relies on std's `char::from_u32`: it returns `Some` exactly on Unicode
/// scalar values (everything except surrogates and values beyond the
/// highest code point), and the returned character carries the given
/// value.
#[verifier::external_body]
fn char_from_u32(v: u32) -> (r: Option<char>)
    ensures
        r is Some <==> is_scalar_word(v as u64),
        match r {
            Option::Some(c) => c as u32 == v,
            Option::None => true,
        },
{
    char::from_u32(v)
}

impl Codec for char {
    open spec fn enc_wf(m: char) -> bool {
        true
    }

    open spec fn enc(m: char) -> Seq<u8> {
        enc_u64(m as u64)
    }

    open spec fn dec(b: Seq<u8>, pos: int) -> Option<(char, int)> {
        match dec_u64(b, pos) {
            Option::Some((v, p)) => if is_scalar_word(v) {
                Option::Some((v as char, p))
            } else {
                Option::None
            },
            Option::None => Option::None,
        }
    }

    proof fn lemma_dec_range(b: Seq<u8>, pos: int) {
    }

    proof fn lemma_dec_enc(pre: Seq<u8>, m: char, suf: Seq<u8>) {
        lemma_dec_enc_u64(pre, m as u64, suf);
        lemma_char_word(m);
    }

    fn encode(&self, out: &mut Vec<u8>) {
        encode_u64(*self as u64, out);
    }

    fn decode(b: &Vec<u8>, pos: usize) -> (r: Option<(Self, usize)>) {
        match decode_u64(b, pos) {
            Option::Some((v, p)) => {
                if v < 0xD800 || (0xE000 <= v && v <= 0x10FFFF) {
                    match char_from_u32(v as u32) {
                        Option::Some(c) => {
                            proof {
                                lemma_char_word(c);
                                assert(c as u64 == v);
                                assert(c == v as char);
                            }
                            Option::Some((c, p))
                        },
                        Option::None => {
                            proof {
                                assert(false);
                            }
                            Option::None
                        },
                    }
                } else {
                    Option::None
                }
            },
            Option::None => Option::None,
        }
    }
}

// ---------------------------------------------------------------------------
// Options
// ---------------------------------------------------------------------------

impl<T: Codec> Codec for Option<T> {
    open spec fn enc_wf(m: Option<T::V>) -> bool {
        match m {
            Option::None => true,
            Option::Some(x) => T::enc_wf(x),
        }
    }

    open spec fn enc(m: Option<T::V>) -> Seq<u8> {
        match m {
            Option::None => enc_u64(0),
            Option::Some(x) => enc_u64(1) + T::enc(x),
        }
    }

    open spec fn dec(b: Seq<u8>, pos: int) -> Option<(Option<T::V>, int)> {
        match dec_u64(b, pos) {
            Option::Some((tag, p1)) => if tag == 0 {
                Option::Some((Option::None, p1))
            } else if tag == 1 {
                match T::dec(b, p1) {
                    Option::Some((x, p2)) => Option::Some((Option::Some(x), p2)),
                    Option::None => Option::None,
                }
            } else {
                Option::None
            },
            Option::None => Option::None,
        }
    }

    proof fn lemma_dec_range(b: Seq<u8>, pos: int) {
        match dec_u64(b, pos) {
            Option::Some((tag, p1)) => {
                T::lemma_dec_range(b, p1);
            },
            Option::None => {},
        }
    }

    proof fn lemma_dec_enc(pre: Seq<u8>, m: Option<T::V>, suf: Seq<u8>) {
        match m {
            Option::None => {
                lemma_dec_enc_u64(pre, 0, suf);
            },
            Option::Some(x) => {
                let b = pre + Self::enc(m) + suf;
                assert(b =~= pre + enc_u64(1) + (T::enc(x) + suf));
                lemma_dec_enc_u64(pre, 1, T::enc(x) + suf);
                assert(b =~= (pre + enc_u64(1)) + T::enc(x) + suf);
                T::lemma_dec_enc(pre + enc_u64(1), x, suf);
            },
        }
    }

    fn encode(&self, out: &mut Vec<u8>) {
        match self {
            Option::None => {
                encode_u64(0, out);
            },
            Option::Some(v) => {
                let ghost o0 = out@;
                encode_u64(1, out);
                v.encode(out);
                proof {
                    assert(out@ =~= o0 + (enc_u64(1) + T::enc(v.deep_view())));
                }
            },
        }
    }

    fn decode(b: &Vec<u8>, pos: usize) -> (r: Option<(Self, usize)>) {
        match decode_u64(b, pos) {
            Option::Some((tag, p1)) => {
                if tag == 0 {
                    Option::Some((Option::None, p1))
                } else if tag == 1 {
                    match T::decode(b, p1) {
                        Option::Some((x, p2)) => Option::Some((Option::Some(x), p2)),
                        Option::None => Option::None,
                    }
                } else {
                    Option::None
                }
            },
            Option::None => Option::None,
        }
    }
}

// ---------------------------------------------------------------------------
// Sequences of items
// ---------------------------------------------------------------------------

/// The concatenated encodings of a sequence of models, first to last.
pub open spec fn enc_items<T: Codec>(ms: Seq<T::V>) -> Seq<u8>
    decreases ms.len(),
{
    if ms.len() == 0 {
        Seq::empty()
    } else {
        T::enc(ms[0]) + enc_items::<T>(ms.drop_first())
    }
}

/// Every model in the sequence is well formed.
pub open spec fn items_wf<T: Codec>(ms: Seq<T::V>) -> bool {
    forall|i: int| 0 <= i < ms.len() ==> T::enc_wf(#[trigger] ms[i])
}

/// Parses exactly `n` consecutive items.
pub open spec fn dec_items<T: Codec>(b: Seq<u8>, pos: int, n: nat) -> Option<(Seq<T::V>, int)>
    decreases n,
{
    if n == 0 {
        Option::Some((Seq::empty(), pos))
    } else {
        match T::dec(b, pos) {
            Option::Some((x, p1)) => match dec_items::<T>(b, p1, (n - 1) as nat) {
                Option::Some((xs, p2)) => Option::Some((seq![x] + xs, p2)),
                Option::None => Option::None,
            },
            Option::None => Option::None,
        }
    }
}

/// Appending one model appends its encoding.
pub proof fn lemma_enc_items_push<T: Codec>(ms: Seq<T::V>, x: T::V)
    ensures
        enc_items::<T>(ms.push(x)) == enc_items::<T>(ms) + T::enc(x),
    decreases ms.len(),
{
    if ms.len() == 0 {
        assert(ms.push(x)[0] == x);
        assert(ms.push(x).drop_first() =~= Seq::<T::V>::empty());
        assert(enc_items::<T>(Seq::<T::V>::empty()) =~= Seq::<u8>::empty());
        assert(enc_items::<T>(ms.push(x)) == T::enc(x) + enc_items::<T>(Seq::<T::V>::empty()));
        assert(enc_items::<T>(ms.push(x)) =~= enc_items::<T>(ms) + T::enc(x));
    } else {
        assert(ms.push(x).drop_first() =~= ms.drop_first().push(x));
        lemma_enc_items_push::<T>(ms.drop_first(), x);
        assert(ms.push(x)[0] == ms[0]);
        assert(enc_items::<T>(ms.push(x)) == T::enc(ms[0]) + (enc_items::<T>(ms.drop_first())
            + T::enc(x)));
        assert(enc_items::<T>(ms.push(x)) =~= (T::enc(ms[0]) + enc_items::<T>(ms.drop_first()))
            + T::enc(x));
    }
}

/// Whatever an item-sequence parse accepts sits inside the buffer.
pub proof fn lemma_dec_items_range<T: Codec>(b: Seq<u8>, pos: int, n: nat)
    requires
        0 <= pos <= b.len(),
    ensures
        match dec_items::<T>(b, pos, n) {
            Option::Some(p) => pos <= p.1 <= b.len(),
            Option::None => true,
        },
    decreases n,
{
    if n > 0 {
        T::lemma_dec_range(b, pos);
        match T::dec(b, pos) {
            Option::Some((x, p1)) => {
                lemma_dec_items_range::<T>(b, p1, (n - 1) as nat);
            },
            Option::None => {},
        }
    }
}

/// Parsing the embedded encodings of `n` items yields exactly those items.
pub proof fn lemma_dec_enc_items<T: Codec>(pre: Seq<u8>, ms: Seq<T::V>, suf: Seq<u8>)
    requires
        items_wf::<T>(ms),
    ensures
        dec_items::<T>(pre + enc_items::<T>(ms) + suf, pre.len() as int, ms.len()) == Option::Some(
            (ms, pre.len() + enc_items::<T>(ms).len() as int),
        ),
    decreases ms.len(),
{
    if ms.len() == 0 {
        assert(ms =~= Seq::<T::V>::empty());
    } else {
        let b = pre + enc_items::<T>(ms) + suf;
        let e0 = T::enc(ms[0]);
        let rest = enc_items::<T>(ms.drop_first());
        assert(enc_items::<T>(ms) == e0 + rest);
        assert(b =~= pre + e0 + (rest + suf));
        T::lemma_dec_enc(pre, ms[0], rest + suf);
        assert(b =~= (pre + e0) + rest + suf);
        lemma_dec_enc_items::<T>(pre + e0, ms.drop_first(), suf);
        assert(seq![ms[0]] + ms.drop_first() =~= ms);
    }
}

impl<T: Codec> Codec for Vec<T> {
    open spec fn enc_wf(m: Seq<T::V>) -> bool {
        m.len() <= u64::MAX && items_wf::<T>(m)
    }

    open spec fn enc(m: Seq<T::V>) -> Seq<u8> {
        enc_u64(m.len() as u64) + enc_items::<T>(m)
    }

    open spec fn dec(b: Seq<u8>, pos: int) -> Option<(Seq<T::V>, int)> {
        match dec_u64(b, pos) {
            Option::Some((n, p1)) => dec_items::<T>(b, p1, n as nat),
            Option::None => Option::None,
        }
    }

    proof fn lemma_dec_range(b: Seq<u8>, pos: int) {
        match dec_u64(b, pos) {
            Option::Some((n, p1)) => {
                lemma_dec_items_range::<T>(b, p1, n as nat);
            },
            Option::None => {},
        }
    }

    proof fn lemma_dec_enc(pre: Seq<u8>, m: Seq<T::V>, suf: Seq<u8>) {
        let b = pre + Self::enc(m) + suf;
        let nbytes = enc_u64(m.len() as u64);
        let body = enc_items::<T>(m);
        assert(b =~= pre + nbytes + (body + suf));
        lemma_dec_enc_u64(pre, m.len() as u64, body + suf);
        assert(b =~= (pre + nbytes) + body + suf);
        lemma_dec_enc_items::<T>(pre + nbytes, m, suf);
        assert((m.len() as u64) as nat == m.len());
    }

    fn encode(&self, out: &mut Vec<u8>) {
        let ghost m = self.deep_view();
        encode_u64(self.len() as u64, out);
        let ghost o1 = out@;
        let mut i: usize = 0;
        while i < self.len()
            invariant
                0 <= i <= self@.len(),
                m == self.deep_view(),
                m.len() == self@.len(),
                out@ == o1 + enc_items::<T>(m.take(i as int)),
                items_wf::<T>(m.take(i as int)),
            decreases self@.len() - i,
        {
            proof {
                assert(m[i as int] == self@[i as int].deep_view());
            }
            let elem: &T = &self[i];
            elem.encode(out);
            proof {
                lemma_enc_items_push::<T>(m.take(i as int), m[i as int]);
                assert(m.take(i + 1 as int) =~= m.take(i as int).push(m[i as int]));
                assert(items_wf::<T>(m.take(i + 1 as int)));
            }
            i += 1;
        }
        proof {
            assert(m.take(m.len() as int) =~= m);
        }
    }

    fn decode(b: &Vec<u8>, pos: usize) -> (r: Option<(Self, usize)>) {
        let (n, p1) = match decode_u64(b, pos) {
            Option::Some(p) => p,
            Option::None => {
                return Option::None;
            },
        };
        let mut v: Vec<T> = Vec::new();
        let mut i: u64 = 0;
        let mut cur: usize = p1;
        proof {
            assert(v.deep_view() =~= Seq::<T::V>::empty());
            match dec_items::<T>(b@, p1 as int, n as nat) {
                Option::Some(p) => {
                    assert(Seq::<T::V>::empty() + p.0 =~= p.0);
                },
                Option::None => {},
            }
        }
        while i < n
            invariant
                0 <= i <= n,
                pos <= cur <= b@.len(),
                v.deep_view().len() == i,
                dec_items::<T>(b@, p1 as int, n as nat) == (match dec_items::<T>(
                    b@,
                    cur as int,
                    (n - i) as nat,
                ) {
                    Option::Some(p) => Option::Some((v.deep_view() + p.0, p.1)),
                    Option::None => Option::<(Seq<T::V>, int)>::None,
                }),
            decreases n - i,
        {
            match T::decode(b, cur) {
                Option::Some((x, p2)) => {
                    let ghost v0 = v.deep_view();
                    let ghost xd = x.deep_view();
                    v.push(x);
                    proof {
                        assert(v.deep_view() =~= v0.push(xd));
                        match dec_items::<T>(b@, p2 as int, (n - (i + 1)) as nat) {
                            Option::Some(q) => {
                                assert(dec_items::<T>(b@, cur as int, (n - i) as nat)
                                    == Option::Some((seq![xd] + q.0, q.1)));
                                assert(v0 + (seq![xd] + q.0) =~= v0.push(xd) + q.0);
                            },
                            Option::None => {
                                assert(dec_items::<T>(b@, cur as int, (n - i) as nat) is None);
                            },
                        }
                    }
                    cur = p2;
                    i = i + 1;
                },
                Option::None => {
                    proof {
                        assert(dec_items::<T>(b@, cur as int, (n - i) as nat) is None);
                    }
                    return Option::None;
                },
            }
        }
        proof {
            assert(dec_items::<T>(b@, cur as int, 0) == Option::Some(
                (Seq::<T::V>::empty(), cur as int),
            ));
            assert(v.deep_view() + Seq::<T::V>::empty() =~= v.deep_view());
        }
        Option::Some((v, cur))
    }
}

// ---------------------------------------------------------------------------
// Pairs
// ---------------------------------------------------------------------------

impl<A: Codec, B: Codec> Codec for (A, B) {
    open spec fn enc_wf(m: (A::V, B::V)) -> bool {
        A::enc_wf(m.0) && B::enc_wf(m.1)
    }

    open spec fn enc(m: (A::V, B::V)) -> Seq<u8> {
        A::enc(m.0) + B::enc(m.1)
    }

    open spec fn dec(b: Seq<u8>, pos: int) -> Option<((A::V, B::V), int)> {
        match A::dec(b, pos) {
            Option::Some((a, p1)) => match B::dec(b, p1) {
                Option::Some((bb, p2)) => Option::Some(((a, bb), p2)),
                Option::None => Option::None,
            },
            Option::None => Option::None,
        }
    }

    proof fn lemma_dec_range(b: Seq<u8>, pos: int) {
        A::lemma_dec_range(b, pos);
        match A::dec(b, pos) {
            Option::Some((a, p1)) => {
                B::lemma_dec_range(b, p1);
            },
            Option::None => {},
        }
    }

    proof fn lemma_dec_enc(pre: Seq<u8>, m: (A::V, B::V), suf: Seq<u8>) {
        let b = pre + Self::enc(m) + suf;
        assert(b =~= pre + A::enc(m.0) + (B::enc(m.1) + suf));
        A::lemma_dec_enc(pre, m.0, B::enc(m.1) + suf);
        assert(b =~= (pre + A::enc(m.0)) + B::enc(m.1) + suf);
        B::lemma_dec_enc(pre + A::enc(m.0), m.1, suf);
    }

    fn encode(&self, out: &mut Vec<u8>) {
        let ghost o0 = out@;
        self.0.encode(out);
        self.1.encode(out);
        proof {
            assert(out@ =~= o0 + (A::enc(self.0.deep_view()) + B::enc(self.1.deep_view())));
        }
    }

    fn decode(b: &Vec<u8>, pos: usize) -> (r: Option<(Self, usize)>) {
        let (a, p1) = match A::decode(b, pos) {
            Option::Some(p) => p,
            Option::None => {
                return Option::None;
            },
        };
        let (bb, p2) = match B::decode(b, p1) {
            Option::Some(p) => p,
            Option::None => {
                return Option::None;
            },
        };
        Option::Some(((a, bb), p2))
    }
}

// ---------------------------------------------------------------------------
// Strings
// ---------------------------------------------------------------------------

/// Relies on std's `String::push`: it appends exactly the given character.
#[verifier::external_body]
fn push_char(s: &mut String, c: char)
    ensures
        final(s)@ == old(s)@.push(c),
{
    s.push(c);
}

impl Codec for String {
    open spec fn enc_wf(m: Seq<char>) -> bool {
        m.len() <= u64::MAX
    }

    open spec fn enc(m: Seq<char>) -> Seq<u8> {
        enc_u64(m.len() as u64) + enc_items::<char>(m)
    }

    open spec fn dec(b: Seq<u8>, pos: int) -> Option<(Seq<char>, int)> {
        match dec_u64(b, pos) {
            Option::Some((n, p1)) => dec_items::<char>(b, p1, n as nat),
            Option::None => Option::None,
        }
    }

    proof fn lemma_dec_range(b: Seq<u8>, pos: int) {
        match dec_u64(b, pos) {
            Option::Some((n, p1)) => {
                lemma_dec_items_range::<char>(b, p1, n as nat);
            },
            Option::None => {},
        }
    }

    proof fn lemma_dec_enc(pre: Seq<u8>, m: Seq<char>, suf: Seq<u8>) {
        let b = pre + Self::enc(m) + suf;
        let nbytes = enc_u64(m.len() as u64);
        let body = enc_items::<char>(m);
        assert(b =~= pre + nbytes + (body + suf));
        lemma_dec_enc_u64(pre, m.len() as u64, body + suf);
        assert(b =~= (pre + nbytes) + body + suf);
        lemma_dec_enc_items::<char>(pre + nbytes, m, suf);
        assert((m.len() as u64) as nat == m.len());
    }

    fn encode(&self, out: &mut Vec<u8>) {
        let ghost m = self@;
        let n = self.as_str().unicode_len();
        encode_u64(n as u64, out);
        let ghost o1 = out@;
        let mut i: usize = 0;
        while i < n
            invariant
                0 <= i <= m.len(),
                n == m.len(),
                m == self@,
                out@ == o1 + enc_items::<char>(m.take(i as int)),
            decreases m.len() - i,
        {
            let c = self.as_str().get_char(i);
            c.encode(out);
            proof {
                lemma_enc_items_push::<char>(m.take(i as int), m[i as int]);
                assert(m.take(i + 1 as int) =~= m.take(i as int).push(m[i as int]));
            }
            i += 1;
        }
        proof {
            assert(m.take(m.len() as int) =~= m);
        }
    }

    fn decode(b: &Vec<u8>, pos: usize) -> (r: Option<(Self, usize)>) {
        let (n, p1) = match decode_u64(b, pos) {
            Option::Some(p) => p,
            Option::None => {
                return Option::None;
            },
        };
        let mut s = String::new();
        let mut i: u64 = 0;
        let mut cur: usize = p1;
        proof {
            match dec_items::<char>(b@, p1 as int, n as nat) {
                Option::Some(p) => {
                    assert(Seq::<char>::empty() + p.0 =~= p.0);
                },
                Option::None => {},
            }
        }
        while i < n
            invariant
                0 <= i <= n,
                pos <= cur <= b@.len(),
                s@.len() == i,
                dec_items::<char>(b@, p1 as int, n as nat) == (match dec_items::<char>(
                    b@,
                    cur as int,
                    (n - i) as nat,
                ) {
                    Option::Some(p) => Option::Some((s@ + p.0, p.1)),
                    Option::None => Option::<(Seq<char>, int)>::None,
                }),
            decreases n - i,
        {
            match char::decode(b, cur) {
                Option::Some((c, p2)) => {
                    let ghost s0 = s@;
                    push_char(&mut s, c);
                    proof {
                        match dec_items::<char>(b@, p2 as int, (n - (i + 1)) as nat) {
                            Option::Some(q) => {
                                assert(dec_items::<char>(b@, cur as int, (n - i) as nat)
                                    == Option::Some((seq![c] + q.0, q.1)));
                                assert(s0 + (seq![c] + q.0) =~= s0.push(c) + q.0);
                            },
                            Option::None => {
                                assert(dec_items::<char>(b@, cur as int, (n - i) as nat) is None);
                            },
                        }
                    }
                    cur = p2;
                    i = i + 1;
                },
                Option::None => {
                    proof {
                        assert(dec_items::<char>(b@, cur as int, (n - i) as nat) is None);
                    }
                    return Option::None;
                },
            }
        }
        proof {
            assert(dec_items::<char>(b@, cur as int, 0) == Option::Some(
                (Seq::<char>::empty(), cur as int),
            ));
            assert(s@ + Seq::<char>::empty() =~= s@);
        }
        Option::Some((s, cur))
    }
}

// ---------------------------------------------------------------------------
// Schema vocabulary
// ---------------------------------------------------------------------------

impl Codec for crate::schema::Choice {
    open spec fn enc_wf(m: crate::schema::Choice) -> bool {
        true
    }

    open spec fn enc(m: crate::schema::Choice) -> Seq<u8> {
        match m {
            crate::schema::Choice::Index(i) => enc_u64(0) + <u8 as Codec>::enc(i),
            crate::schema::Choice::YesOrNo(v) => enc_u64(1) + <bool as Codec>::enc(v),
        }
    }

    open spec fn dec(b: Seq<u8>, pos: int) -> Option<(crate::schema::Choice, int)> {
        match dec_u64(b, pos) {
            Option::Some((tag, p1)) => if tag == 0 {
                match <u8 as Codec>::dec(b, p1) {
                    Option::Some((i, p2)) => Option::Some((crate::schema::Choice::Index(i), p2)),
                    Option::None => Option::None,
                }
            } else if tag == 1 {
                match <bool as Codec>::dec(b, p1) {
                    Option::Some((v, p2)) => Option::Some((crate::schema::Choice::YesOrNo(v), p2)),
                    Option::None => Option::None,
                }
            } else {
                Option::None
            },
            Option::None => Option::None,
        }
    }

    proof fn lemma_dec_range(b: Seq<u8>, pos: int) {
        match dec_u64(b, pos) {
            Option::Some((tag, p1)) => {
                <u8 as Codec>::lemma_dec_range(b, p1);
                <bool as Codec>::lemma_dec_range(b, p1);
            },
            Option::None => {},
        }
    }

    #[verifier::rlimit(100)]
    proof fn lemma_dec_enc(pre: Seq<u8>, m: crate::schema::Choice, suf: Seq<u8>) {
        let b = pre + Self::enc(m) + suf;
        match m {
            crate::schema::Choice::Index(i) => {
                let body = <u8 as Codec>::enc(i);
                assert(b =~= pre + enc_u64(0) + (body + suf));
                lemma_dec_enc_u64(pre, 0, body + suf);
                assert(b =~= (pre + enc_u64(0)) + body + suf);
                <u8 as Codec>::lemma_dec_enc(pre + enc_u64(0), i, suf);
            },
            crate::schema::Choice::YesOrNo(v) => {
                let body = <bool as Codec>::enc(v);
                assert(b =~= pre + enc_u64(1) + (body + suf));
                lemma_dec_enc_u64(pre, 1, body + suf);
                assert(b =~= (pre + enc_u64(1)) + body + suf);
                <bool as Codec>::lemma_dec_enc(pre + enc_u64(1), v, suf);
            },
        }
    }

    fn encode(&self, out: &mut Vec<u8>) {
        let ghost o0 = out@;
        match self {
            crate::schema::Choice::Index(i) => {
                encode_u64(0, out);
                i.encode(out);
                proof {
                    assert(out@ =~= o0 + (enc_u64(0) + <u8 as Codec>::enc(*i)));
                }
            },
            crate::schema::Choice::YesOrNo(v) => {
                encode_u64(1, out);
                v.encode(out);
                proof {
                    assert(out@ =~= o0 + (enc_u64(1) + <bool as Codec>::enc(*v)));
                }
            },
        }
    }

    fn decode(b: &Vec<u8>, pos: usize) -> (r: Option<(Self, usize)>) {
        match decode_u64(b, pos) {
            Option::Some((tag, p1)) => {
                if tag == 0 {
                    match u8::decode(b, p1) {
                        Option::Some((i, p2)) => Option::Some((crate::schema::Choice::Index(i), p2)),
                        Option::None => Option::None,
                    }
                } else if tag == 1 {
                    match bool::decode(b, p1) {
                        Option::Some((v, p2)) => Option::Some(
                            (crate::schema::Choice::YesOrNo(v), p2),
                        ),
                        Option::None => Option::None,
                    }
                } else {
                    Option::None
                }
            },
            Option::None => Option::None,
        }
    }
}

impl Codec for crate::schema::PollStatus {
    open spec fn enc_wf(m: crate::schema::PollStatus) -> bool {
        true
    }

    open spec fn enc(m: crate::schema::PollStatus) -> Seq<u8> {
        match m {
            crate::schema::PollStatus::SeekingResponses => enc_u64(0),
            crate::schema::PollStatus::Closed => enc_u64(1),
        }
    }

    open spec fn dec(b: Seq<u8>, pos: int) -> Option<(crate::schema::PollStatus, int)> {
        match dec_u64(b, pos) {
            Option::Some((tag, p1)) => if tag == 0 {
                Option::Some((crate::schema::PollStatus::SeekingResponses, p1))
            } else if tag == 1 {
                Option::Some((crate::schema::PollStatus::Closed, p1))
            } else {
                Option::None
            },
            Option::None => Option::None,
        }
    }

    proof fn lemma_dec_range(b: Seq<u8>, pos: int) {
    }

    proof fn lemma_dec_enc(pre: Seq<u8>, m: crate::schema::PollStatus, suf: Seq<u8>) {
        match m {
            crate::schema::PollStatus::SeekingResponses => {
                lemma_dec_enc_u64(pre, 0, suf);
            },
            crate::schema::PollStatus::Closed => {
                lemma_dec_enc_u64(pre, 1, suf);
            },
        }
    }

    fn encode(&self, out: &mut Vec<u8>) {
        match self {
            crate::schema::PollStatus::SeekingResponses => {
                encode_u64(0, out);
            },
            crate::schema::PollStatus::Closed => {
                encode_u64(1, out);
            },
        }
    }

    fn decode(b: &Vec<u8>, pos: usize) -> (r: Option<(Self, usize)>) {
        match decode_u64(b, pos) {
            Option::Some((tag, p1)) => {
                if tag == 0 {
                    Option::Some((crate::schema::PollStatus::SeekingResponses, p1))
                } else if tag == 1 {
                    Option::Some((crate::schema::PollStatus::Closed, p1))
                } else {
                    Option::None
                }
            },
            Option::None => Option::None,
        }
    }
}

impl Codec for crate::schema::Progress {
    open spec fn enc_wf(m: crate::schema::Progress) -> bool {
        true
    }

    open spec fn enc(m: crate::schema::Progress) -> Seq<u8> {
        match m {
            crate::schema::Progress::Count(c) => enc_u64(c),
        }
    }

    open spec fn dec(b: Seq<u8>, pos: int) -> Option<(crate::schema::Progress, int)> {
        match dec_u64(b, pos) {
            Option::Some((c, p1)) => Option::Some((crate::schema::Progress::Count(c), p1)),
            Option::None => Option::None,
        }
    }

    proof fn lemma_dec_range(b: Seq<u8>, pos: int) {
    }

    proof fn lemma_dec_enc(pre: Seq<u8>, m: crate::schema::Progress, suf: Seq<u8>) {
        match m {
            crate::schema::Progress::Count(c) => {
                lemma_dec_enc_u64(pre, c, suf);
            },
        }
    }

    fn encode(&self, out: &mut Vec<u8>) {
        match self {
            crate::schema::Progress::Count(c) => {
                encode_u64(*c, out);
            },
        }
    }

    fn decode(b: &Vec<u8>, pos: usize) -> (r: Option<(Self, usize)>) {
        match decode_u64(b, pos) {
            Option::Some((c, p1)) => Option::Some((crate::schema::Progress::Count(c), p1)),
            Option::None => Option::None,
        }
    }
}

impl Codec for crate::schema::Requirement {
    open spec fn enc_wf(m: crate::schema::Requirement) -> bool {
        true
    }

    open spec fn enc(m: crate::schema::Requirement) -> Seq<u8> {
        match m {
            crate::schema::Requirement::AtLeast { metric_index, minimum } => <u16 as Codec>::enc(
                metric_index,
            ) + enc_u64(minimum),
        }
    }

    open spec fn dec(b: Seq<u8>, pos: int) -> Option<(crate::schema::Requirement, int)> {
        match <u16 as Codec>::dec(b, pos) {
            Option::Some((mi, p1)) => match dec_u64(b, p1) {
                Option::Some((mn, p2)) => Option::Some(
                    (crate::schema::Requirement::AtLeast { metric_index: mi, minimum: mn }, p2),
                ),
                Option::None => Option::None,
            },
            Option::None => Option::None,
        }
    }

    proof fn lemma_dec_range(b: Seq<u8>, pos: int) {
        <u16 as Codec>::lemma_dec_range(b, pos);
        match <u16 as Codec>::dec(b, pos) {
            Option::Some((mi, p1)) => {},
            Option::None => {},
        }
    }

    proof fn lemma_dec_enc(pre: Seq<u8>, m: crate::schema::Requirement, suf: Seq<u8>) {
        let b = pre + Self::enc(m) + suf;
        match m {
            crate::schema::Requirement::AtLeast { metric_index, minimum } => {
                let e0 = <u16 as Codec>::enc(metric_index);
                assert(b =~= pre + e0 + (enc_u64(minimum) + suf));
                <u16 as Codec>::lemma_dec_enc(pre, metric_index, enc_u64(minimum) + suf);
                assert(b =~= (pre + e0) + enc_u64(minimum) + suf);
                lemma_dec_enc_u64(pre + e0, minimum, suf);
            },
        }
    }

    fn encode(&self, out: &mut Vec<u8>) {
        let ghost o0 = out@;
        match self {
            crate::schema::Requirement::AtLeast { metric_index, minimum } => {
                metric_index.encode(out);
                encode_u64(*minimum, out);
                proof {
                    assert(out@ =~= o0 + (<u16 as Codec>::enc(*metric_index) + enc_u64(*minimum)));
                }
            },
        }
    }

    fn decode(b: &Vec<u8>, pos: usize) -> (r: Option<(Self, usize)>) {
        match u16::decode(b, pos) {
            Option::Some((mi, p1)) => {
                match decode_u64(b, p1) {
                    Option::Some((mn, p2)) => Option::Some(
                        (crate::schema::Requirement::AtLeast { metric_index: mi, minimum: mn }, p2),
                    ),
                    Option::None => Option::None,
                }
            },
            Option::None => Option::None,
        }
    }
}

impl Codec for crate::schema::Metric {
    open spec fn enc_wf(m: crate::schema::Metric) -> bool {
        true
    }

    open spec fn enc(m: crate::schema::Metric) -> Seq<u8> {
        match m {
            crate::schema::Metric::SpecificResponses { question_index, choice } => <usize as Codec>::enc(
                question_index,
            ) + <crate::schema::Choice as Codec>::enc(choice),
        }
    }

    open spec fn dec(b: Seq<u8>, pos: int) -> Option<(crate::schema::Metric, int)> {
        match <usize as Codec>::dec(b, pos) {
            Option::Some((qi, p1)) => match <crate::schema::Choice as Codec>::dec(b, p1) {
                Option::Some((c, p2)) => Option::Some(
                    (crate::schema::Metric::SpecificResponses { question_index: qi, choice: c }, p2),
                ),
                Option::None => Option::None,
            },
            Option::None => Option::None,
        }
    }

    proof fn lemma_dec_range(b: Seq<u8>, pos: int) {
        <usize as Codec>::lemma_dec_range(b, pos);
        match <usize as Codec>::dec(b, pos) {
            Option::Some((qi, p1)) => {
                <crate::schema::Choice as Codec>::lemma_dec_range(b, p1);
            },
            Option::None => {},
        }
    }

    proof fn lemma_dec_enc(pre: Seq<u8>, m: crate::schema::Metric, suf: Seq<u8>) {
        let b = pre + Self::enc(m) + suf;
        match m {
            crate::schema::Metric::SpecificResponses { question_index, choice } => {
                let e0 = <usize as Codec>::enc(question_index);
                let e1 = <crate::schema::Choice as Codec>::enc(choice);
                assert(b =~= pre + e0 + (e1 + suf));
                <usize as Codec>::lemma_dec_enc(pre, question_index, e1 + suf);
                assert(b =~= (pre + e0) + e1 + suf);
                <crate::schema::Choice as Codec>::lemma_dec_enc(pre + e0, choice, suf);
            },
        }
    }

    fn encode(&self, out: &mut Vec<u8>) {
        let ghost o0 = out@;
        match self {
            crate::schema::Metric::SpecificResponses { question_index, choice } => {
                question_index.encode(out);
                choice.encode(out);
                proof {
                    assert(out@ =~= o0 + (<usize as Codec>::enc(*question_index)
                        + <crate::schema::Choice as Codec>::enc(*choice)));
                }
            },
        }
    }

    fn decode(b: &Vec<u8>, pos: usize) -> (r: Option<(Self, usize)>) {
        match usize::decode(b, pos) {
            Option::Some((qi, p1)) => {
                match crate::schema::Choice::decode(b, p1) {
                    Option::Some((c, p2)) => Option::Some(
                        (
                            crate::schema::Metric::SpecificResponses {
                                question_index: qi,
                                choice: c,
                            },
                            p2,
                        ),
                    ),
                    Option::None => Option::None,
                }
            },
            Option::None => Option::None,
        }
    }
}

impl Codec for crate::schema::MetricTracker {
    open spec fn enc_wf(m: crate::schema::MetricTracker) -> bool {
        true
    }

    open spec fn enc(m: crate::schema::MetricTracker) -> Seq<u8> {
        <crate::schema::Metric as Codec>::enc(m.metric) + <bool as Codec>::enc(m.publicly_visible)
    }

    open spec fn dec(b: Seq<u8>, pos: int) -> Option<(crate::schema::MetricTracker, int)> {
        match <crate::schema::Metric as Codec>::dec(b, pos) {
            Option::Some((metric, p1)) => match <bool as Codec>::dec(b, p1) {
                Option::Some((pv, p2)) => Option::Some(
                    (crate::schema::MetricTracker { metric, publicly_visible: pv }, p2),
                ),
                Option::None => Option::None,
            },
            Option::None => Option::None,
        }
    }

    proof fn lemma_dec_range(b: Seq<u8>, pos: int) {
        <crate::schema::Metric as Codec>::lemma_dec_range(b, pos);
        match <crate::schema::Metric as Codec>::dec(b, pos) {
            Option::Some((metric, p1)) => {
                <bool as Codec>::lemma_dec_range(b, p1);
            },
            Option::None => {},
        }
    }

    proof fn lemma_dec_enc(pre: Seq<u8>, m: crate::schema::MetricTracker, suf: Seq<u8>) {
        let b = pre + Self::enc(m) + suf;
        let e0 = <crate::schema::Metric as Codec>::enc(m.metric);
        let e1 = <bool as Codec>::enc(m.publicly_visible);
        assert(b =~= pre + e0 + (e1 + suf));
        <crate::schema::Metric as Codec>::lemma_dec_enc(pre, m.metric, e1 + suf);
        assert(b =~= (pre + e0) + e1 + suf);
        <bool as Codec>::lemma_dec_enc(pre + e0, m.publicly_visible, suf);
    }

    fn encode(&self, out: &mut Vec<u8>) {
        let ghost o0 = out@;
        self.metric.encode(out);
        self.publicly_visible.encode(out);
        proof {
            assert(out@ =~= o0 + (<crate::schema::Metric as Codec>::enc(self.metric)
                + <bool as Codec>::enc(self.publicly_visible)));
        }
    }

    fn decode(b: &Vec<u8>, pos: usize) -> (r: Option<(Self, usize)>) {
        match crate::schema::Metric::decode(b, pos) {
            Option::Some((metric, p1)) => {
                match bool::decode(b, p1) {
                    Option::Some((pv, p2)) => Option::Some(
                        (crate::schema::MetricTracker { metric, publicly_visible: pv }, p2),
                    ),
                    Option::None => Option::None,
                }
            },
            Option::None => Option::None,
        }
    }
}


/// Round trip of a tag word followed by an options list.
pub proof fn lemma_rt_tagged_options(pre: Seq<u8>, tag: u64, options: Seq<Seq<char>>, suf: Seq<u8>)
    requires
        <Vec<String> as Codec>::enc_wf(options),
    ensures
        ({
            let body = <Vec<String> as Codec>::enc(options);
            let b = pre + (enc_u64(tag) + body) + suf;
            dec_u64(b, pre.len() as int) == Option::Some((tag, pre.len() + 8 as int)) && <Vec<
                String,
            > as Codec>::dec(b, (pre.len() + 8) as int) == Option::Some(
                (options, pre.len() + 8 + body.len() as int),
            )
        }),
{
    let body = <Vec<String> as Codec>::enc(options);
    let b = pre + (enc_u64(tag) + body) + suf;
    assert(b =~= pre + enc_u64(tag) + (body + suf));
    lemma_dec_enc_u64(pre, tag, body + suf);
    assert(b =~= (pre + enc_u64(tag)) + body + suf);
    <Vec<String> as Codec>::lemma_dec_enc(pre + enc_u64(tag), options, suf);
}

/// Round trip of a tag word followed by a choice list.
pub proof fn lemma_rt_tagged_choices(
    pre: Seq<u8>,
    tag: u64,
    cs: Seq<crate::schema::Choice>,
    suf: Seq<u8>,
)
    requires
        <Vec<crate::schema::Choice> as Codec>::enc_wf(cs),
    ensures
        ({
            let body = <Vec<crate::schema::Choice> as Codec>::enc(cs);
            let b = pre + (enc_u64(tag) + body) + suf;
            dec_u64(b, pre.len() as int) == Option::Some((tag, pre.len() + 8 as int)) && <Vec<
                crate::schema::Choice,
            > as Codec>::dec(b, (pre.len() + 8) as int) == Option::Some(
                (cs, pre.len() + 8 + body.len() as int),
            )
        }),
{
    let body = <Vec<crate::schema::Choice> as Codec>::enc(cs);
    let b = pre + (enc_u64(tag) + body) + suf;
    assert(b =~= pre + enc_u64(tag) + (body + suf));
    lemma_dec_enc_u64(pre, tag, body + suf);
    assert(b =~= (pre + enc_u64(tag)) + body + suf);
    <Vec<crate::schema::Choice> as Codec>::lemma_dec_enc(pre + enc_u64(tag), cs, suf);
}

/// Round trip of a tag word followed by an optional choice.
#[verifier::rlimit(100)]
#[verifier::spinoff_prover]
pub proof fn lemma_rt_tagged_opt_choice(
    pre: Seq<u8>,
    tag: u64,
    c: Option<crate::schema::Choice>,
    suf: Seq<u8>,
)
    ensures
        ({
            let body = <Option<crate::schema::Choice> as Codec>::enc(c);
            let b = pre + (enc_u64(tag) + body) + suf;
            dec_u64(b, pre.len() as int) == Option::Some((tag, pre.len() + 8 as int)) && <Option<
                crate::schema::Choice,
            > as Codec>::dec(b, (pre.len() + 8) as int) == Option::Some(
                (c, pre.len() + 8 + body.len() as int),
            )
        }),
{
    let body = <Option<crate::schema::Choice> as Codec>::enc(c);
    let b = pre + (enc_u64(tag) + body) + suf;
    assert(b =~= pre + enc_u64(tag) + (body + suf));
    lemma_dec_enc_u64(pre, tag, body + suf);
    assert(b =~= (pre + enc_u64(tag)) + body + suf);
    <Option<crate::schema::Choice> as Codec>::lemma_dec_enc(pre + enc_u64(tag), c, suf);
}

/// Round trip of a tag word followed by one choice.
pub proof fn lemma_rt_tagged_choice(pre: Seq<u8>, tag: u64, c: crate::schema::Choice, suf: Seq<u8>)
    ensures
        ({
            let body = <crate::schema::Choice as Codec>::enc(c);
            let b = pre + (enc_u64(tag) + body) + suf;
            dec_u64(b, pre.len() as int) == Option::Some((tag, pre.len() + 8 as int))
                && <crate::schema::Choice as Codec>::dec(b, (pre.len() + 8) as int) == Option::Some(
                (c, pre.len() + 8 + body.len() as int),
            )
        }),
{
    let body = <crate::schema::Choice as Codec>::enc(c);
    let b = pre + (enc_u64(tag) + body) + suf;
    assert(b =~= pre + enc_u64(tag) + (body + suf));
    lemma_dec_enc_u64(pre, tag, body + suf);
    assert(b =~= (pre + enc_u64(tag)) + body + suf);
    <crate::schema::Choice as Codec>::lemma_dec_enc(pre + enc_u64(tag), c, suf);
}


/// Round trip of one option-carrying form variant.
#[verifier::rlimit(100)]
#[verifier::spinoff_prover]
pub proof fn lemma_form_rt_options_variant(
    pre: Seq<u8>,
    m: crate::schema::FormView,
    suf: Seq<u8>,
)
    requires
        <crate::schema::Form as Codec>::enc_wf(m),
        m is OneOrNone || m is One || m is Multiple || m is RankedChoice,
    ensures
        <crate::schema::Form as Codec>::dec(
            pre + <crate::schema::Form as Codec>::enc(m) + suf,
            pre.len() as int,
        ) == Option::Some(
            (m, pre.len() + <crate::schema::Form as Codec>::enc(m).len() as int),
        ),
{
    match m {
        crate::schema::FormView::OneOrNone { options } => {
            lemma_rt_tagged_options(pre, 0, options, suf);
            assert(pre + <crate::schema::Form as Codec>::enc(m) + suf =~= pre + (enc_u64(0)
                + <Vec<String> as Codec>::enc(options)) + suf);
        },
        crate::schema::FormView::One { options } => {
            lemma_rt_tagged_options(pre, 1, options, suf);
            assert(pre + <crate::schema::Form as Codec>::enc(m) + suf =~= pre + (enc_u64(1)
                + <Vec<String> as Codec>::enc(options)) + suf);
        },
        crate::schema::FormView::Multiple { options } => {
            lemma_rt_tagged_options(pre, 2, options, suf);
            assert(pre + <crate::schema::Form as Codec>::enc(m) + suf =~= pre + (enc_u64(2)
                + <Vec<String> as Codec>::enc(options)) + suf);
        },
        crate::schema::FormView::RankedChoice { options } => {
            lemma_rt_tagged_options(pre, 3, options, suf);
            assert(pre + <crate::schema::Form as Codec>::enc(m) + suf =~= pre + (enc_u64(3)
                + <Vec<String> as Codec>::enc(options)) + suf);
        },
        _ => {},
    }
}

impl Codec for crate::schema::Form {
    open spec fn enc_wf(m: crate::schema::FormView) -> bool {
        match m {
            crate::schema::FormView::OneOrNone { options } => <Vec<String> as Codec>::enc_wf(
                options,
            ),
            crate::schema::FormView::One { options } => <Vec<String> as Codec>::enc_wf(options),
            crate::schema::FormView::Multiple { options } => <Vec<String> as Codec>::enc_wf(
                options,
            ),
            crate::schema::FormView::RankedChoice { options } => <Vec<String> as Codec>::enc_wf(
                options,
            ),
            crate::schema::FormView::YesNoNone => true,
            crate::schema::FormView::YesNo => true,
        }
    }

    open spec fn enc(m: crate::schema::FormView) -> Seq<u8> {
        match m {
            crate::schema::FormView::OneOrNone { options } => enc_u64(0) + <Vec<
                String,
            > as Codec>::enc(options),
            crate::schema::FormView::One { options } => enc_u64(1) + <Vec<String> as Codec>::enc(
                options,
            ),
            crate::schema::FormView::Multiple { options } => enc_u64(2) + <Vec<
                String,
            > as Codec>::enc(options),
            crate::schema::FormView::RankedChoice { options } => enc_u64(3) + <Vec<
                String,
            > as Codec>::enc(options),
            crate::schema::FormView::YesNoNone => enc_u64(4),
            crate::schema::FormView::YesNo => enc_u64(5),
        }
    }

    open spec fn dec(b: Seq<u8>, pos: int) -> Option<(crate::schema::FormView, int)> {
        match dec_u64(b, pos) {
            Option::Some((tag, p1)) => if tag == 0 {
                match <Vec<String> as Codec>::dec(b, p1) {
                    Option::Some((options, p2)) => Option::Some(
                        (crate::schema::FormView::OneOrNone { options }, p2),
                    ),
                    Option::None => Option::None,
                }
            } else if tag == 1 {
                match <Vec<String> as Codec>::dec(b, p1) {
                    Option::Some((options, p2)) => Option::Some(
                        (crate::schema::FormView::One { options }, p2),
                    ),
                    Option::None => Option::None,
                }
            } else if tag == 2 {
                match <Vec<String> as Codec>::dec(b, p1) {
                    Option::Some((options, p2)) => Option::Some(
                        (crate::schema::FormView::Multiple { options }, p2),
                    ),
                    Option::None => Option::None,
                }
            } else if tag == 3 {
                match <Vec<String> as Codec>::dec(b, p1) {
                    Option::Some((options, p2)) => Option::Some(
                        (crate::schema::FormView::RankedChoice { options }, p2),
                    ),
                    Option::None => Option::None,
                }
            } else if tag == 4 {
                Option::Some((crate::schema::FormView::YesNoNone, p1))
            } else if tag == 5 {
                Option::Some((crate::schema::FormView::YesNo, p1))
            } else {
                Option::None
            },
            Option::None => Option::None,
        }
    }

    proof fn lemma_dec_range(b: Seq<u8>, pos: int) {
        match dec_u64(b, pos) {
            Option::Some((tag, p1)) => {
                <Vec<String> as Codec>::lemma_dec_range(b, p1);
            },
            Option::None => {},
        }
    }

    #[verifier::rlimit(100)]
    #[verifier::spinoff_prover]
    proof fn lemma_dec_enc(pre: Seq<u8>, m: crate::schema::FormView, suf: Seq<u8>) {
        match m {
            crate::schema::FormView::YesNoNone => {
                lemma_dec_enc_u64(pre, 4, suf);
            },
            crate::schema::FormView::YesNo => {
                lemma_dec_enc_u64(pre, 5, suf);
            },
            _ => {
                lemma_form_rt_options_variant(pre, m, suf);
            },
        }
    }

    fn encode(&self, out: &mut Vec<u8>) {
        let ghost o0 = out@;
        match self {
            crate::schema::Form::OneOrNone { options } => {
                proof {
                    assert(self@ matches crate::schema::FormView::OneOrNone { options: o } && o
                        == options.deep_view());
                }
                encode_u64(0, out);
                options.encode(out);
                proof {
                    assert(out@ =~= o0 + (enc_u64(0) + <Vec<String> as Codec>::enc(
                        options.deep_view(),
                    )));
                }
            },
            crate::schema::Form::One { options } => {
                proof {
                    assert(self@ matches crate::schema::FormView::One { options: o } && o
                        == options.deep_view());
                }
                encode_u64(1, out);
                options.encode(out);
                proof {
                    assert(out@ =~= o0 + (enc_u64(1) + <Vec<String> as Codec>::enc(
                        options.deep_view(),
                    )));
                }
            },
            crate::schema::Form::Multiple { options } => {
                proof {
                    assert(self@ matches crate::schema::FormView::Multiple { options: o } && o
                        == options.deep_view());
                }
                encode_u64(2, out);
                options.encode(out);
                proof {
                    assert(out@ =~= o0 + (enc_u64(2) + <Vec<String> as Codec>::enc(
                        options.deep_view(),
                    )));
                }
            },
            crate::schema::Form::RankedChoice { options } => {
                proof {
                    assert(self@ matches crate::schema::FormView::RankedChoice { options: o } && o
                        == options.deep_view());
                }
                encode_u64(3, out);
                options.encode(out);
                proof {
                    assert(out@ =~= o0 + (enc_u64(3) + <Vec<String> as Codec>::enc(
                        options.deep_view(),
                    )));
                }
            },
            crate::schema::Form::YesNoNone => {
                encode_u64(4, out);
            },
            crate::schema::Form::YesNo => {
                encode_u64(5, out);
            },
        }
    }

    fn decode(b: &Vec<u8>, pos: usize) -> (r: Option<(Self, usize)>) {
        match decode_u64(b, pos) {
            Option::Some((tag, p1)) => {
                if tag == 0 {
                    match Vec::<String>::decode(b, p1) {
                        Option::Some((options, p2)) => Option::Some(
                            (crate::schema::Form::OneOrNone { options }, p2),
                        ),
                        Option::None => Option::None,
                    }
                } else if tag == 1 {
                    match Vec::<String>::decode(b, p1) {
                        Option::Some((options, p2)) => Option::Some(
                            (crate::schema::Form::One { options }, p2),
                        ),
                        Option::None => Option::None,
                    }
                } else if tag == 2 {
                    match Vec::<String>::decode(b, p1) {
                        Option::Some((options, p2)) => Option::Some(
                            (crate::schema::Form::Multiple { options }, p2),
                        ),
                        Option::None => Option::None,
                    }
                } else if tag == 3 {
                    match Vec::<String>::decode(b, p1) {
                        Option::Some((options, p2)) => Option::Some(
                            (crate::schema::Form::RankedChoice { options }, p2),
                        ),
                        Option::None => Option::None,
                    }
                } else if tag == 4 {
                    Option::Some((crate::schema::Form::YesNoNone, p1))
                } else if tag == 5 {
                    Option::Some((crate::schema::Form::YesNo, p1))
                } else {
                    Option::None
                }
            },
            Option::None => Option::None,
        }
    }
}

impl Codec for crate::schema::FormResponse {
    open spec fn enc_wf(m: crate::schema::FormResponseView) -> bool {
        match m {
            crate::schema::FormResponseView::ChooseOneOrNone(c) => true,
            crate::schema::FormResponseView::ChooseOne(c) => true,
            crate::schema::FormResponseView::ChooseMultiple(cs) => <Vec<
                crate::schema::Choice,
            > as Codec>::enc_wf(cs),
            crate::schema::FormResponseView::RankedChoice(cs) => <Vec<
                crate::schema::Choice,
            > as Codec>::enc_wf(cs),
        }
    }

    open spec fn enc(m: crate::schema::FormResponseView) -> Seq<u8> {
        match m {
            crate::schema::FormResponseView::ChooseOneOrNone(c) => enc_u64(0) + <Option<
                crate::schema::Choice,
            > as Codec>::enc(c),
            crate::schema::FormResponseView::ChooseOne(c) => enc_u64(1)
                + <crate::schema::Choice as Codec>::enc(c),
            crate::schema::FormResponseView::ChooseMultiple(cs) => enc_u64(2) + <Vec<
                crate::schema::Choice,
            > as Codec>::enc(cs),
            crate::schema::FormResponseView::RankedChoice(cs) => enc_u64(3) + <Vec<
                crate::schema::Choice,
            > as Codec>::enc(cs),
        }
    }

    open spec fn dec(b: Seq<u8>, pos: int) -> Option<(crate::schema::FormResponseView, int)> {
        match dec_u64(b, pos) {
            Option::Some((tag, p1)) => if tag == 0 {
                match <Option<crate::schema::Choice> as Codec>::dec(b, p1) {
                    Option::Some((c, p2)) => Option::Some(
                        (crate::schema::FormResponseView::ChooseOneOrNone(c), p2),
                    ),
                    Option::None => Option::None,
                }
            } else if tag == 1 {
                match <crate::schema::Choice as Codec>::dec(b, p1) {
                    Option::Some((c, p2)) => Option::Some(
                        (crate::schema::FormResponseView::ChooseOne(c), p2),
                    ),
                    Option::None => Option::None,
                }
            } else if tag == 2 {
                match <Vec<crate::schema::Choice> as Codec>::dec(b, p1) {
                    Option::Some((cs, p2)) => Option::Some(
                        (crate::schema::FormResponseView::ChooseMultiple(cs), p2),
                    ),
                    Option::None => Option::None,
                }
            } else if tag == 3 {
                match <Vec<crate::schema::Choice> as Codec>::dec(b, p1) {
                    Option::Some((cs, p2)) => Option::Some(
                        (crate::schema::FormResponseView::RankedChoice(cs), p2),
                    ),
                    Option::None => Option::None,
                }
            } else {
                Option::None
            },
            Option::None => Option::None,
        }
    }

    proof fn lemma_dec_range(b: Seq<u8>, pos: int) {
        match dec_u64(b, pos) {
            Option::Some((tag, p1)) => {
                <Option<crate::schema::Choice> as Codec>::lemma_dec_range(b, p1);
                <crate::schema::Choice as Codec>::lemma_dec_range(b, p1);
                <Vec<crate::schema::Choice> as Codec>::lemma_dec_range(b, p1);
            },
            Option::None => {},
        }
    }

    #[verifier::rlimit(100)]
    proof fn lemma_dec_enc(pre: Seq<u8>, m: crate::schema::FormResponseView, suf: Seq<u8>) {
        match m {
            crate::schema::FormResponseView::ChooseOneOrNone(c) => {
                lemma_rt_tagged_opt_choice(pre, 0, c, suf);
            },
            crate::schema::FormResponseView::ChooseOne(c) => {
                lemma_rt_tagged_choice(pre, 1, c, suf);
            },
            crate::schema::FormResponseView::ChooseMultiple(cs) => {
                lemma_rt_tagged_choices(pre, 2, cs, suf);
            },
            crate::schema::FormResponseView::RankedChoice(cs) => {
                lemma_rt_tagged_choices(pre, 3, cs, suf);
            },
        }
    }

    fn encode(&self, out: &mut Vec<u8>) {
        let ghost o0 = out@;
        match self {
            crate::schema::FormResponse::ChooseOneOrNone(c) => {
                proof {
                    assert(self@ == crate::schema::FormResponseView::ChooseOneOrNone(*c));
                }
                encode_u64(0, out);
                c.encode(out);
                proof {
                    assert(out@ =~= o0 + (enc_u64(0) + <Option<
                        crate::schema::Choice,
                    > as Codec>::enc(c.deep_view())));
                    assert(c.deep_view() == *c);
                }
            },
            crate::schema::FormResponse::ChooseOne(c) => {
                proof {
                    assert(self@ == crate::schema::FormResponseView::ChooseOne(*c));
                }
                encode_u64(1, out);
                c.encode(out);
                proof {
                    assert(out@ =~= o0 + (enc_u64(1) + <crate::schema::Choice as Codec>::enc(*c)));
                }
            },
            crate::schema::FormResponse::ChooseMultiple(cs) => {
                proof {
                    assert(self@ == crate::schema::FormResponseView::ChooseMultiple(cs@));
                    assert(cs.deep_view() =~= cs@);
                }
                encode_u64(2, out);
                cs.encode(out);
                proof {
                    assert(out@ =~= o0 + (enc_u64(2) + <Vec<crate::schema::Choice> as Codec>::enc(
                        cs@,
                    )));
                }
            },
            crate::schema::FormResponse::RankedChoice(cs) => {
                proof {
                    assert(self@ == crate::schema::FormResponseView::RankedChoice(cs@));
                    assert(cs.deep_view() =~= cs@);
                }
                encode_u64(3, out);
                cs.encode(out);
                proof {
                    assert(out@ =~= o0 + (enc_u64(3) + <Vec<crate::schema::Choice> as Codec>::enc(
                        cs@,
                    )));
                }
            },
        }
    }

    fn decode(b: &Vec<u8>, pos: usize) -> (r: Option<(Self, usize)>) {
        match decode_u64(b, pos) {
            Option::Some((tag, p1)) => {
                if tag == 0 {
                    match Option::<crate::schema::Choice>::decode(b, p1) {
                        Option::Some((c, p2)) => {
                            let resp = crate::schema::FormResponse::ChooseOneOrNone(c);
                            proof {
                                assert(resp@ == crate::schema::FormResponseView::ChooseOneOrNone(
                                    c.deep_view(),
                                ));
                            }
                            Option::Some((resp, p2))
                        },
                        Option::None => Option::None,
                    }
                } else if tag == 1 {
                    match crate::schema::Choice::decode(b, p1) {
                        Option::Some((c, p2)) => Option::Some(
                            (crate::schema::FormResponse::ChooseOne(c), p2),
                        ),
                        Option::None => Option::None,
                    }
                } else if tag == 2 {
                    match Vec::<crate::schema::Choice>::decode(b, p1) {
                        Option::Some((cs, p2)) => {
                            let resp = crate::schema::FormResponse::ChooseMultiple(cs);
                            proof {
                                assert(resp@ matches crate::schema::FormResponseView::ChooseMultiple(
                                    s,
                                ) && s =~= resp@->ChooseMultiple_0);
                            }
                            Option::Some((resp, p2))
                        },
                        Option::None => Option::None,
                    }
                } else if tag == 3 {
                    match Vec::<crate::schema::Choice>::decode(b, p1) {
                        Option::Some((cs, p2)) => Option::Some(
                            (crate::schema::FormResponse::RankedChoice(cs), p2),
                        ),
                        Option::None => Option::None,
                    }
                } else {
                    Option::None
                }
            },
            Option::None => Option::None,
        }
    }
}

impl Codec for crate::schema::Question {
    open spec fn enc_wf(m: crate::schema::QuestionView) -> bool {
        <String as Codec>::enc_wf(m.prompt) && <crate::schema::Form as Codec>::enc_wf(m.form)
    }

    open spec fn enc(m: crate::schema::QuestionView) -> Seq<u8> {
        <String as Codec>::enc(m.prompt) + <crate::schema::Form as Codec>::enc(m.form)
    }

    open spec fn dec(b: Seq<u8>, pos: int) -> Option<(crate::schema::QuestionView, int)> {
        match <String as Codec>::dec(b, pos) {
            Option::Some((prompt, p1)) => match <crate::schema::Form as Codec>::dec(b, p1) {
                Option::Some((form, p2)) => Option::Some(
                    (crate::schema::QuestionView { prompt, form }, p2),
                ),
                Option::None => Option::None,
            },
            Option::None => Option::None,
        }
    }

    proof fn lemma_dec_range(b: Seq<u8>, pos: int) {
        <String as Codec>::lemma_dec_range(b, pos);
        match <String as Codec>::dec(b, pos) {
            Option::Some((prompt, p1)) => {
                <crate::schema::Form as Codec>::lemma_dec_range(b, p1);
            },
            Option::None => {},
        }
    }

    proof fn lemma_dec_enc(pre: Seq<u8>, m: crate::schema::QuestionView, suf: Seq<u8>) {
        let b = pre + Self::enc(m) + suf;
        let e0 = <String as Codec>::enc(m.prompt);
        let e1 = <crate::schema::Form as Codec>::enc(m.form);
        assert(b =~= pre + e0 + (e1 + suf));
        <String as Codec>::lemma_dec_enc(pre, m.prompt, e1 + suf);
        assert(b =~= (pre + e0) + e1 + suf);
        <crate::schema::Form as Codec>::lemma_dec_enc(pre + e0, m.form, suf);
    }

    fn encode(&self, out: &mut Vec<u8>) {
        let ghost o0 = out@;
        self.prompt.encode(out);
        self.form.encode(out);
        proof {
            assert(out@ =~= o0 + (<String as Codec>::enc(self.prompt@)
                + <crate::schema::Form as Codec>::enc(self.form@)));
        }
    }

    fn decode(b: &Vec<u8>, pos: usize) -> (r: Option<(Self, usize)>) {
        match String::decode(b, pos) {
            Option::Some((prompt, p1)) => {
                match crate::schema::Form::decode(b, p1) {
                    Option::Some((form, p2)) => Option::Some(
                        (crate::schema::Question { prompt, form }, p2),
                    ),
                    Option::None => Option::None,
                }
            },
            Option::None => Option::None,
        }
    }
}

impl Codec for crate::schema::PollResult {
    open spec fn enc_wf(m: crate::schema::PollResultView) -> bool {
        <String as Codec>::enc_wf(m.desc) && <Vec<crate::schema::Requirement> as Codec>::enc_wf(
            m.requirements,
        )
    }

    open spec fn enc(m: crate::schema::PollResultView) -> Seq<u8> {
        <String as Codec>::enc(m.desc) + <Vec<crate::schema::Requirement> as Codec>::enc(
            m.requirements,
        )
    }

    open spec fn dec(b: Seq<u8>, pos: int) -> Option<(crate::schema::PollResultView, int)> {
        match <String as Codec>::dec(b, pos) {
            Option::Some((desc, p1)) => match <Vec<crate::schema::Requirement> as Codec>::dec(
                b,
                p1,
            ) {
                Option::Some((requirements, p2)) => Option::Some(
                    (crate::schema::PollResultView { desc, requirements }, p2),
                ),
                Option::None => Option::None,
            },
            Option::None => Option::None,
        }
    }

    proof fn lemma_dec_range(b: Seq<u8>, pos: int) {
        <String as Codec>::lemma_dec_range(b, pos);
        match <String as Codec>::dec(b, pos) {
            Option::Some((desc, p1)) => {
                <Vec<crate::schema::Requirement> as Codec>::lemma_dec_range(b, p1);
            },
            Option::None => {},
        }
    }

    proof fn lemma_dec_enc(pre: Seq<u8>, m: crate::schema::PollResultView, suf: Seq<u8>) {
        let b = pre + Self::enc(m) + suf;
        let e0 = <String as Codec>::enc(m.desc);
        let e1 = <Vec<crate::schema::Requirement> as Codec>::enc(m.requirements);
        assert(b =~= pre + e0 + (e1 + suf));
        <String as Codec>::lemma_dec_enc(pre, m.desc, e1 + suf);
        assert(b =~= (pre + e0) + e1 + suf);
        <Vec<crate::schema::Requirement> as Codec>::lemma_dec_enc(pre + e0, m.requirements, suf);
    }

    fn encode(&self, out: &mut Vec<u8>) {
        let ghost o0 = out@;
        self.desc.encode(out);
        self.requirements.encode(out);
        proof {
            assert(self.requirements.deep_view() =~= self.requirements@);
            assert(out@ =~= o0 + (<String as Codec>::enc(self.desc@) + <Vec<
                crate::schema::Requirement,
            > as Codec>::enc(self.requirements@)));
        }
    }

    fn decode(b: &Vec<u8>, pos: usize) -> (r: Option<(Self, usize)>) {
        match String::decode(b, pos) {
            Option::Some((desc, p1)) => {
                match Vec::<crate::schema::Requirement>::decode(b, p1) {
                    Option::Some((requirements, p2)) => {
                        let pr = crate::schema::PollResult { desc, requirements };
                        proof {
                            assert(pr.requirements.deep_view() =~= pr.requirements@);
                        }
                        Option::Some((pr, p2))
                    },
                    Option::None => Option::None,
                }
            },
            Option::None => Option::None,
        }
    }
}

impl Codec for crate::schema::ResultState {
    open spec fn enc_wf(m: crate::schema::ResultStateView) -> bool {
        <Vec<bool> as Codec>::enc_wf(m.requirements_met)
    }

    open spec fn enc(m: crate::schema::ResultStateView) -> Seq<u8> {
        <Vec<bool> as Codec>::enc(m.requirements_met) + <bool as Codec>::enc(m.overall_met)
    }

    open spec fn dec(b: Seq<u8>, pos: int) -> Option<(crate::schema::ResultStateView, int)> {
        match <Vec<bool> as Codec>::dec(b, pos) {
            Option::Some((requirements_met, p1)) => match <bool as Codec>::dec(b, p1) {
                Option::Some((overall_met, p2)) => Option::Some(
                    (crate::schema::ResultStateView { requirements_met, overall_met }, p2),
                ),
                Option::None => Option::None,
            },
            Option::None => Option::None,
        }
    }

    proof fn lemma_dec_range(b: Seq<u8>, pos: int) {
        <Vec<bool> as Codec>::lemma_dec_range(b, pos);
        match <Vec<bool> as Codec>::dec(b, pos) {
            Option::Some((requirements_met, p1)) => {
                <bool as Codec>::lemma_dec_range(b, p1);
            },
            Option::None => {},
        }
    }

    proof fn lemma_dec_enc(pre: Seq<u8>, m: crate::schema::ResultStateView, suf: Seq<u8>) {
        let b = pre + Self::enc(m) + suf;
        let e0 = <Vec<bool> as Codec>::enc(m.requirements_met);
        let e1 = <bool as Codec>::enc(m.overall_met);
        assert(b =~= pre + e0 + (e1 + suf));
        <Vec<bool> as Codec>::lemma_dec_enc(pre, m.requirements_met, e1 + suf);
        assert(b =~= (pre + e0) + e1 + suf);
        <bool as Codec>::lemma_dec_enc(pre + e0, m.overall_met, suf);
    }

    fn encode(&self, out: &mut Vec<u8>) {
        let ghost o0 = out@;
        self.requirements_met.encode(out);
        self.overall_met.encode(out);
        proof {
            assert(self.requirements_met.deep_view() =~= self.requirements_met@);
            assert(out@ =~= o0 + (<Vec<bool> as Codec>::enc(self.requirements_met@)
                + <bool as Codec>::enc(self.overall_met)));
        }
    }

    fn decode(b: &Vec<u8>, pos: usize) -> (r: Option<(Self, usize)>) {
        match Vec::<bool>::decode(b, pos) {
            Option::Some((requirements_met, p1)) => {
                match bool::decode(b, p1) {
                    Option::Some((overall_met, p2)) => {
                        let st = crate::schema::ResultState { requirements_met, overall_met };
                        proof {
                            assert(st.requirements_met.deep_view() =~= st.requirements_met@);
                        }
                        Option::Some((st, p2))
                    },
                    Option::None => Option::None,
                }
            },
            Option::None => Option::None,
        }
    }
}

// ---------------------------------------------------------------------------
// Polls and per-poll data, as nested pairs of their fields
// ---------------------------------------------------------------------------

/// The fields of a poll, grouped pairwise so the pair codec handles them.
pub type PollFields = (
    (String, String),
    (
        (Option<i64>, Option<String>),
        (
            (Vec<crate::schema::MetricTracker>, Vec<crate::schema::PollResult>),
            (crate::schema::PollStatus, Vec<crate::schema::Question>),
        ),
    ),
);

/// The model of a poll regrouped as the pairwise fields.
pub open spec fn poll_fields_model(m: crate::schema::PollView) -> <PollFields as DeepView>::V {
    (
        (m.title, m.description),
        (
            (m.expiration, m.announcement),
            ((m.metric_trackers, m.results), (m.status, m.questions)),
        ),
    )
}

/// The poll view a pairwise fields model stands for.
pub open spec fn poll_from_fields(t: <PollFields as DeepView>::V) -> crate::schema::PollView {
    crate::schema::PollView {
        title: t.0.0,
        description: t.0.1,
        expiration: t.1.0.0,
        announcement: t.1.0.1,
        metric_trackers: t.1.1.0.0,
        results: t.1.1.0.1,
        status: t.1.1.1.0,
        questions: t.1.1.1.1,
    }
}

impl Codec for crate::schema::Poll {
    open spec fn enc_wf(m: crate::schema::PollView) -> bool {
        <PollFields as Codec>::enc_wf(poll_fields_model(m))
    }

    open spec fn enc(m: crate::schema::PollView) -> Seq<u8> {
        <PollFields as Codec>::enc(poll_fields_model(m))
    }

    open spec fn dec(b: Seq<u8>, pos: int) -> Option<(crate::schema::PollView, int)> {
        match <PollFields as Codec>::dec(b, pos) {
            Option::Some((t, p)) => Option::Some((poll_from_fields(t), p)),
            Option::None => Option::None,
        }
    }

    proof fn lemma_dec_range(b: Seq<u8>, pos: int) {
        <PollFields as Codec>::lemma_dec_range(b, pos);
    }

    proof fn lemma_dec_enc(pre: Seq<u8>, m: crate::schema::PollView, suf: Seq<u8>) {
        <PollFields as Codec>::lemma_dec_enc(pre, poll_fields_model(m), suf);
        assert(poll_from_fields(poll_fields_model(m)) =~= m);
    }

    #[verifier::rlimit(100)]
    fn encode(&self, out: &mut Vec<u8>) {
        let ghost o0 = out@;
        self.title.encode(out);
        self.description.encode(out);
        self.expiration.encode(out);
        self.announcement.encode(out);
        self.metric_trackers.encode(out);
        self.results.encode(out);
        self.status.encode(out);
        self.questions.encode(out);
        proof {
            assert(self.metric_trackers.deep_view() =~= self@.metric_trackers);
            assert(self.expiration.deep_view() == self@.expiration);
            assert(self.status.deep_view() == self@.status);
            assert(out@ =~= o0 + <PollFields as Codec>::enc(poll_fields_model(self@)));
            assert(Self::enc_wf(self@));
        }
    }

    fn decode(b: &Vec<u8>, pos: usize) -> (r: Option<(Self, usize)>) {
        match <PollFields as Codec>::decode(b, pos) {
            Option::Some((t, p)) => {
                let ((title, description), ((expiration, announcement), ((metric_trackers, results), (
                    status,
                    questions,
                )))) = t;
                let poll = crate::schema::Poll {
                    title,
                    description,
                    expiration,
                    announcement,
                    metric_trackers,
                    results,
                    status,
                    questions,
                };
                proof {
                    assert(poll@ =~= poll_from_fields(
                        (
                            (poll.title@, poll.description@),
                            (
                                (poll.expiration, poll.announcement.deep_view()),
                                (
                                    (poll.metric_trackers.deep_view(), poll.results.deep_view()),
                                    (poll.status, poll.questions.deep_view()),
                                ),
                            ),
                        ),
                    ));
                }
                Option::Some((poll, p))
            },
            Option::None => Option::None,
        }
    }
}

/// The fields of one poll's data, grouped pairwise.
pub type PollDataFields = (
    (crate::schema::Poll, Vec<(String, Vec<crate::schema::FormResponse>)>),
    (Vec<crate::schema::Progress>, Vec<crate::schema::ResultState>),
);

/// The model of one poll's data regrouped as the pairwise fields.
pub open spec fn poll_data_fields_model(m: crate::store::PollDataView) -> <PollDataFields as DeepView>::V {
    ((m.poll, m.responses), (m.progresses, m.result_states))
}

/// The data view a pairwise fields model stands for.
pub open spec fn poll_data_from_fields(
    t: <PollDataFields as DeepView>::V,
) -> crate::store::PollDataView {
    crate::store::PollDataView {
        poll: t.0.0,
        responses: t.0.1,
        progresses: t.1.0,
        result_states: t.1.1,
    }
}

impl Codec for crate::store::PollData {
    open spec fn enc_wf(m: crate::store::PollDataView) -> bool {
        <PollDataFields as Codec>::enc_wf(poll_data_fields_model(m))
    }

    open spec fn enc(m: crate::store::PollDataView) -> Seq<u8> {
        <PollDataFields as Codec>::enc(poll_data_fields_model(m))
    }

    open spec fn dec(b: Seq<u8>, pos: int) -> Option<(crate::store::PollDataView, int)> {
        match <PollDataFields as Codec>::dec(b, pos) {
            Option::Some((t, p)) => Option::Some((poll_data_from_fields(t), p)),
            Option::None => Option::None,
        }
    }

    proof fn lemma_dec_range(b: Seq<u8>, pos: int) {
        <PollDataFields as Codec>::lemma_dec_range(b, pos);
    }

    proof fn lemma_dec_enc(pre: Seq<u8>, m: crate::store::PollDataView, suf: Seq<u8>) {
        <PollDataFields as Codec>::lemma_dec_enc(pre, poll_data_fields_model(m), suf);
        assert(poll_data_from_fields(poll_data_fields_model(m)) =~= m);
    }

    #[verifier::rlimit(100)]
    fn encode(&self, out: &mut Vec<u8>) {
        let ghost o0 = out@;
        self.poll.encode(out);
        self.responses.encode(out);
        self.progresses.encode(out);
        self.result_states.encode(out);
        proof {
            assert(self.progresses.deep_view() =~= self@.progresses);
            assert(out@ =~= o0 + <PollDataFields as Codec>::enc(poll_data_fields_model(self@)));
            assert(Self::enc_wf(self@));
        }
    }

    fn decode(b: &Vec<u8>, pos: usize) -> (r: Option<(Self, usize)>) {
        match <PollDataFields as Codec>::decode(b, pos) {
            Option::Some((t, p)) => {
                let ((poll, responses), (progresses, result_states)) = t;
                let pd = crate::store::PollData { poll, responses, progresses, result_states };
                proof {
                    assert(pd.progresses.deep_view() =~= pd.progresses@);
                    assert(pd@ =~= poll_data_from_fields(
                        (
                            (pd.poll@, pd.responses.deep_view()),
                            (pd.progresses@, pd.result_states.deep_view()),
                        ),
                    ));
                }
                Option::Some((pd, p))
            },
            Option::None => Option::None,
        }
    }
}

// ---------------------------------------------------------------------------
// Whole-store snapshots
// ---------------------------------------------------------------------------

/// The bytes a store model serializes to: its entries in order.
pub open spec fn store_bytes(s: crate::store::StoreView) -> Seq<u8> {
    <Vec<(u64, crate::store::PollData)> as Codec>::enc(s)
}

/// Every length inside the store fits the encoding; true of every store an
/// actual process holds.
pub open spec fn store_enc_wf(s: crate::store::StoreView) -> bool {
    <Vec<(u64, crate::store::PollData)> as Codec>::enc_wf(s)
}

/// Serializes the entire store to the snapshot bytes the shell writes to
/// disk, overwriting any previous artifact.
pub fn save(store: &crate::store::PollStore) -> (b: Vec<u8>)
    ensures
        b@ == store_bytes(store@),
        store_enc_wf(store@),
{
    let mut out: Vec<u8> = Vec::new();
    store.entries_ref().encode(&mut out);
    proof {
        assert(out@ =~= store_bytes(store@));
    }
    out
}

/// Deserializes a snapshot. Returns the store exactly when the bytes are
/// one whole well-formed snapshot: a parse failure, trailing bytes, or a
/// store that breaks the invariant all yield nothing, and the caller seeds
/// a default store instead.
pub fn load(bytes: &Vec<u8>) -> (r: Option<crate::store::PollStore>)
    ensures
        match <Vec<(u64, crate::store::PollData)> as Codec>::dec(bytes@, 0) {
            Option::Some(p) => {
                if p.1 == bytes@.len() && crate::store::store_wf(p.0) {
                    match r {
                        Option::Some(s) => s@ == p.0 && s.wf(),
                        Option::None => false,
                    }
                } else {
                    r is None
                }
            },
            Option::None => r is None,
        },
{
    match Vec::<(u64, crate::store::PollData)>::decode(bytes, 0) {
        Option::Some((entries, end)) => {
            if end == bytes.len() {
                let s = crate::store::PollStore::from_entries(entries);
                if s.check_wf() {
                    Option::Some(s)
                } else {
                    Option::None
                }
            } else {
                Option::None
            }
        },
        Option::None => Option::None,
    }
}

/// The round trip law: parsing a written snapshot restores exactly the
/// store model it was written from, consuming every byte. Together with
/// the contracts of [`save`] and [`load`], loading what was saved returns
/// a store with the same model, for every store whose invariant holds.
pub proof fn lemma_snapshot_round_trip(s: crate::store::StoreView)
    requires
        store_enc_wf(s),
    ensures
        <Vec<(u64, crate::store::PollData)> as Codec>::dec(store_bytes(s), 0) == Option::Some(
            (s, store_bytes(s).len() as int),
        ),
{
    <Vec<(u64, crate::store::PollData)> as Codec>::lemma_dec_enc(
        Seq::empty(),
        s,
        Seq::empty(),
    );
    assert(Seq::<u8>::empty() + store_bytes(s) + Seq::<u8>::empty() =~= store_bytes(s));
}

} // verus!
