//! Byte-level codec primitives shared by every record type: unsigned 64-bit
//! integers (little endian), booleans, characters, character strings, lists
//! of strings, and optional strings. Each shape has a specification-level
//! encoder and decoder, executable counterparts proved against them, and a
//! round-trip lemma showing that the decoder recovers exactly what the
//! encoder produced.

#![verifier::loop_isolation(false)]

use vstd::prelude::*;
use vstd::string::StrSliceExecFns;
use vstd::utf8::char_is_scalar;
use vstd::utf8::char_u32_cast;
use vstd::utf8::is_scalar;

verus! {

// ---------------------------------------------------------------------------
// Unsigned 64-bit integers, little endian, fixed width of eight bytes.
// ---------------------------------------------------------------------------

pub open spec fn u64_le_bytes(v: u64) -> Seq<u8> {
    seq![
        (v % 256) as u8,
        ((v / 256) % 256) as u8,
        ((v / 65536) % 256) as u8,
        ((v / 16777216) % 256) as u8,
        ((v / 4294967296) % 256) as u8,
        ((v / 1099511627776) % 256) as u8,
        ((v / 281474976710656) % 256) as u8,
        ((v / 72057594037927936) % 256) as u8,
    ]
}

pub open spec fn u64_from_le(b0: u8, b1: u8, b2: u8, b3: u8, b4: u8, b5: u8, b6: u8, b7: u8) -> u64 {
    (b0 as u64 + 256 * (b1 as u64) + 65536 * (b2 as u64) + 16777216 * (b3 as u64)
        + 4294967296 * (b4 as u64) + 1099511627776 * (b5 as u64)
        + 281474976710656 * (b6 as u64) + 72057594037927936 * (b7 as u64)) as u64
}

pub open spec fn dec_u64(b: Seq<u8>) -> Option<(u64, Seq<u8>)> {
    if b.len() >= 8 {
        Some((u64_from_le(b[0], b[1], b[2], b[3], b[4], b[5], b[6], b[7]), b.skip(8)))
    } else {
        None
    }
}

pub proof fn lemma_u64_round_trip(v: u64, rest: Seq<u8>)
    ensures
        dec_u64(u64_le_bytes(v) + rest) == Some((v, rest)),
{
    let b = u64_le_bytes(v) + rest;
    assert(v % 256 + 256 * ((v / 256) % 256) + 65536 * ((v / 65536) % 256)
        + 16777216 * ((v / 16777216) % 256) + 4294967296 * ((v / 4294967296) % 256)
        + 1099511627776 * ((v / 1099511627776) % 256)
        + 281474976710656 * ((v / 281474976710656) % 256)
        + 72057594037927936 * ((v / 72057594037927936) % 256) == v) by (bit_vector);
    assert(u64_from_le(b[0], b[1], b[2], b[3], b[4], b[5], b[6], b[7]) == v);
    assert(b.skip(8) =~= rest);
}

pub fn write_u64(out: &mut Vec<u8>, v: u64)
    ensures
        final(out)@ == old(out)@ + u64_le_bytes(v),
{
    out.push((v % 256) as u8);
    out.push(((v / 256) % 256) as u8);
    out.push(((v / 65536) % 256) as u8);
    out.push(((v / 16777216) % 256) as u8);
    out.push(((v / 4294967296) % 256) as u8);
    out.push(((v / 1099511627776) % 256) as u8);
    out.push(((v / 281474976710656) % 256) as u8);
    out.push(((v / 72057594037927936) % 256) as u8);
    assert(out@ =~= old(out)@ + u64_le_bytes(v));
}

pub fn read_u64(b: &Vec<u8>, pos: usize) -> (r: Option<(u64, usize)>)
    requires
        pos <= b@.len(),
    ensures
        (r matches Some(p) ==> pos + 8 <= b@.len() && p.1 == pos + 8 && dec_u64(b@.skip(pos as int))
            == Some((p.0, b@.skip(p.1 as int)))),
        r is None ==> dec_u64(b@.skip(pos as int)) is None,
{
    if b.len() - pos >= 8 {
        let b0 = b[pos];
        let b1 = b[pos + 1];
        let b2 = b[pos + 2];
        let b3 = b[pos + 3];
        let b4 = b[pos + 4];
        let b5 = b[pos + 5];
        let b6 = b[pos + 6];
        let b7 = b[pos + 7];
        let v: u64 = b0 as u64 + 256 * (b1 as u64) + 65536 * (b2 as u64) + 16777216 * (b3 as u64)
            + 4294967296 * (b4 as u64) + 1099511627776 * (b5 as u64)
            + 281474976710656 * (b6 as u64) + 72057594037927936 * (b7 as u64);
        assert(b@.skip(pos as int).skip(8) =~= b@.skip(pos as int + 8));
        Some((v, pos + 8))
    } else {
        None
    }
}

// ---------------------------------------------------------------------------
// Booleans: one byte, zero or one; any other byte is rejected.
// ---------------------------------------------------------------------------

pub open spec fn bool_byte(x: bool) -> u8 {
    if x {
        1u8
    } else {
        0u8
    }
}

pub open spec fn enc_bool(x: bool) -> Seq<u8> {
    seq![bool_byte(x)]
}

pub open spec fn dec_bool(b: Seq<u8>) -> Option<(bool, Seq<u8>)> {
    if b.len() >= 1 {
        if b[0] == 1u8 {
            Some((true, b.skip(1)))
        } else if b[0] == 0u8 {
            Some((false, b.skip(1)))
        } else {
            None
        }
    } else {
        None
    }
}

pub proof fn lemma_bool_round_trip(x: bool, rest: Seq<u8>)
    ensures
        dec_bool(enc_bool(x) + rest) == Some((x, rest)),
{
    let b = enc_bool(x) + rest;
    assert(b.skip(1) =~= rest);
}

pub fn write_bool(out: &mut Vec<u8>, x: bool)
    ensures
        final(out)@ == old(out)@ + enc_bool(x),
{
    if x {
        out.push(1u8);
    } else {
        out.push(0u8);
    }
    assert(out@ =~= old(out)@ + enc_bool(x));
}

pub fn read_bool(b: &Vec<u8>, pos: usize) -> (r: Option<(bool, usize)>)
    requires
        pos <= b@.len(),
    ensures
        (r matches Some(p) ==> pos < p.1 <= b@.len() && dec_bool(b@.skip(pos as int)) == Some(
            (p.0, b@.skip(p.1 as int)),
        )),
        r is None ==> dec_bool(b@.skip(pos as int)) is None,
{
    if b.len() - pos >= 1 {
        let t = b[pos];
        assert(b@.skip(pos as int).skip(1) =~= b@.skip(pos as int + 1));
        if t == 1u8 {
            Some((true, pos + 1))
        } else if t == 0u8 {
            Some((false, pos + 1))
        } else {
            None
        }
    } else {
        None
    }
}

// ---------------------------------------------------------------------------
// Characters: the Unicode scalar value, widened to eight bytes. A stored
// value that is not a valid scalar is rejected.
// ---------------------------------------------------------------------------

/// Relies on char::from_u32, which returns Some exactly on valid Unicode
/// scalar values and then returns the character with that scalar value.
#[verifier::external_body]
fn char_from_u32(v: u32) -> (r: Option<char>)
    ensures
        r is Some <==> is_scalar(v),
        r matches Some(c) ==> c as u32 == v,
{
    char::from_u32(v)
}

/// Relies on String::push, which appends the given character.
#[verifier::external_body]
fn push_char(s: &mut String, c: char)
    ensures
        final(s)@ == old(s)@.push(c),
{
    s.push(c);
}

pub open spec fn enc_char(c: char) -> Seq<u8> {
    u64_le_bytes((c as u32) as u64)
}

pub open spec fn dec_char(b: Seq<u8>) -> Option<(char, Seq<u8>)> {
    match dec_u64(b) {
        Some(p) => {
            if p.0 <= u32::MAX as u64 && is_scalar(p.0 as u32) {
                Some(((p.0 as u32) as char, p.1))
            } else {
                None
            }
        },
        None => None,
    }
}

pub proof fn lemma_char_round_trip(c: char, rest: Seq<u8>)
    ensures
        dec_char(enc_char(c) + rest) == Some((c, rest)),
{
    let v = (c as u32) as u64;
    lemma_u64_round_trip(v, rest);
    char_is_scalar(c);
    char_u32_cast(c, v as u32);
}

pub fn write_char(out: &mut Vec<u8>, c: char)
    ensures
        final(out)@ == old(out)@ + enc_char(c),
{
    write_u64(out, (c as u32) as u64);
}

pub fn read_char(b: &Vec<u8>, pos: usize) -> (r: Option<(char, usize)>)
    requires
        pos <= b@.len(),
    ensures
        (r matches Some(p) ==> pos < p.1 <= b@.len() && dec_char(b@.skip(pos as int)) == Some(
            (p.0, b@.skip(p.1 as int)),
        )),
        r is None ==> dec_char(b@.skip(pos as int)) is None,
{
    match read_u64(b, pos) {
        Some((v, p1)) => {
            if v <= u32::MAX as u64 {
                match char_from_u32(v as u32) {
                    Some(c) => {
                        proof {
                            char_u32_cast(c, v as u32);
                        }
                        Some((c, p1))
                    },
                    None => None,
                }
            } else {
                None
            }
        },
        None => None,
    }
}

// ---------------------------------------------------------------------------
// Strings: a character count followed by that many encoded characters.
// ---------------------------------------------------------------------------

pub open spec fn enc_chars(s: Seq<char>) -> Seq<u8>
    decreases s.len(),
{
    if s.len() == 0 {
        Seq::empty()
    } else {
        enc_char(s[0]) + enc_chars(s.drop_first())
    }
}

pub open spec fn enc_str(s: Seq<char>) -> Seq<u8> {
    u64_le_bytes(s.len() as u64) + enc_chars(s)
}

/// A character sequence whose length survives the stored count unchanged.
pub open spec fn str_encodable(s: Seq<char>) -> bool {
    s.len() <= usize::MAX
}

pub open spec fn dec_chars(b: Seq<u8>, n: nat) -> Option<(Seq<char>, Seq<u8>)>
    decreases n,
{
    if n == 0 {
        Some((Seq::empty(), b))
    } else {
        match dec_char(b) {
            Some(p) => match dec_chars(p.1, (n - 1) as nat) {
                Some(q) => Some((seq![p.0] + q.0, q.1)),
                None => None,
            },
            None => None,
        }
    }
}

pub open spec fn dec_str(b: Seq<u8>) -> Option<(Seq<char>, Seq<u8>)> {
    match dec_u64(b) {
        Some(p) => {
            if p.0 <= usize::MAX as u64 {
                dec_chars(p.1, p.0 as nat)
            } else {
                None
            }
        },
        None => None,
    }
}

pub proof fn lemma_enc_chars_push(s: Seq<char>, c: char)
    ensures
        enc_chars(s.push(c)) == enc_chars(s) + enc_char(c),
    decreases s.len(),
{
    if s.len() == 0 {
        let p = s.push(c);
        assert(p[0] == c);
        assert(p.drop_first() =~= Seq::<char>::empty());
        assert(enc_chars(p.drop_first()) == Seq::<u8>::empty());
        assert(enc_chars(p) == enc_char(c) + Seq::<u8>::empty());
        assert(enc_char(c) + Seq::<u8>::empty() =~= Seq::<u8>::empty() + enc_char(c));
    } else {
        let t = s.drop_first();
        assert(s.push(c).drop_first() =~= t.push(c));
        lemma_enc_chars_push(t, c);
        assert(s.push(c)[0] == s[0]);
        assert(enc_chars(s.push(c)) == enc_char(s[0]) + (enc_chars(t) + enc_char(c)));
        assert(enc_char(s[0]) + (enc_chars(t) + enc_char(c)) =~= (enc_char(s[0]) + enc_chars(t))
            + enc_char(c));
    }
}

pub proof fn lemma_chars_round_trip(s: Seq<char>, rest: Seq<u8>)
    ensures
        dec_chars(enc_chars(s) + rest, s.len()) == Some((s, rest)),
    decreases s.len(),
{
    if s.len() == 0 {
        assert(enc_chars(s) + rest =~= rest);
        assert(s =~= Seq::<char>::empty());
    } else {
        let tail = s.drop_first();
        assert(enc_chars(s) + rest =~= enc_char(s[0]) + (enc_chars(tail) + rest));
        lemma_char_round_trip(s[0], enc_chars(tail) + rest);
        lemma_chars_round_trip(tail, rest);
        assert(seq![s[0]] + tail =~= s);
    }
}

pub proof fn lemma_str_round_trip(s: Seq<char>, rest: Seq<u8>)
    requires
        str_encodable(s),
    ensures
        dec_str(enc_str(s) + rest) == Some((s, rest)),
{
    assert(enc_str(s) + rest =~= u64_le_bytes(s.len() as u64) + (enc_chars(s) + rest));
    lemma_u64_round_trip(s.len() as u64, enc_chars(s) + rest);
    lemma_chars_round_trip(s, rest);
}

pub fn write_str(out: &mut Vec<u8>, s: &String)
    ensures
        final(out)@ == old(out)@ + enc_str(s@),
        str_encodable(s@),
{
    let n = s.as_str().unicode_len();
    write_u64(out, n as u64);
    let mut i: usize = 0;
    while i < n
        invariant
            i <= n,
            out@ == old(out)@ + u64_le_bytes(s@.len() as u64) + enc_chars(s@.take(i as int)),
        decreases n - i,
    {
        let c = s.as_str().get_char(i);
        write_char(out, c);
        proof {
            lemma_enc_chars_push(s@.take(i as int), c);
            assert(s@.take(i as int).push(c) =~= s@.take(i as int + 1));
            assert(old(out)@ + u64_le_bytes(s@.len() as u64) + enc_chars(s@.take(i as int))
                + enc_char(c) =~= old(out)@ + u64_le_bytes(s@.len() as u64) + enc_chars(
                s@.take(i as int + 1),
            ));
        }
        i = i + 1;
    }
    proof {
        assert(s@.take(n as int) =~= s@);
        assert(old(out)@ + u64_le_bytes(s@.len() as u64) + enc_chars(s@) =~= old(out)@ + enc_str(
            s@,
        ));
    }
}

pub fn read_str(b: &Vec<u8>, pos: usize) -> (r: Option<(String, usize)>)
    requires
        pos <= b@.len(),
    ensures
        (r matches Some(p) ==> pos <= p.1 <= b@.len() && dec_str(b@.skip(pos as int)) == Some(
            (p.0@, b@.skip(p.1 as int)),
        )),
        r is None ==> dec_str(b@.skip(pos as int)) is None,
{
    match read_u64(b, pos) {
        None => None,
        Some((count, p_start)) => {
            if count > usize::MAX as u64 {
                return None;
            }
            let n = count as usize;
            let mut s = String::new();
            let mut p: usize = p_start;
            let mut i: usize = 0;
            while i < n
                invariant
                    i <= n,
                    p_start <= p <= b@.len(),
                    s@.len() == i,
                    dec_chars(b@.skip(p_start as int), n as nat) == (match dec_chars(
                        b@.skip(p as int),
                        (n - i) as nat,
                    ) {
                        Some(q) => Some((s@ + q.0, q.1)),
                        None => None,
                    }),
                decreases n - i,
            {
                match read_char(b, p) {
                    None => {
                        return None;
                    },
                    Some((c, p2)) => {
                        proof {
                            if let Some(q2) = dec_chars(b@.skip(p2 as int), (n - i - 1) as nat) {
                                assert(s@ + (seq![c] + q2.0) =~= s@.push(c) + q2.0);
                            }
                        }
                        push_char(&mut s, c);
                        p = p2;
                        i = i + 1;
                    },
                }
            }
            proof {
                assert(s@ + Seq::<char>::empty() =~= s@);
            }
            Some((s, p))
        },
    }
}

// ---------------------------------------------------------------------------
// Lists of strings: a count followed by that many encoded strings.
// ---------------------------------------------------------------------------

pub open spec fn enc_str_items(l: Seq<Seq<char>>) -> Seq<u8>
    decreases l.len(),
{
    if l.len() == 0 {
        Seq::empty()
    } else {
        enc_str(l[0]) + enc_str_items(l.drop_first())
    }
}

pub open spec fn enc_str_list(l: Seq<Seq<char>>) -> Seq<u8> {
    u64_le_bytes(l.len() as u64) + enc_str_items(l)
}

/// A string list whose count and item lengths survive the stored form.
pub open spec fn str_list_encodable(l: Seq<Seq<char>>) -> bool {
    &&& l.len() <= usize::MAX
    &&& forall|i: int| 0 <= i < l.len() ==> str_encodable(#[trigger] l[i])
}

pub open spec fn dec_str_items(b: Seq<u8>, n: nat) -> Option<(Seq<Seq<char>>, Seq<u8>)>
    decreases n,
{
    if n == 0 {
        Some((Seq::empty(), b))
    } else {
        match dec_str(b) {
            Some(p) => match dec_str_items(p.1, (n - 1) as nat) {
                Some(q) => Some((seq![p.0] + q.0, q.1)),
                None => None,
            },
            None => None,
        }
    }
}

pub open spec fn dec_str_list(b: Seq<u8>) -> Option<(Seq<Seq<char>>, Seq<u8>)> {
    match dec_u64(b) {
        Some(p) => {
            if p.0 <= usize::MAX as u64 {
                dec_str_items(p.1, p.0 as nat)
            } else {
                None
            }
        },
        None => None,
    }
}

pub proof fn lemma_enc_str_items_push(l: Seq<Seq<char>>, s: Seq<char>)
    ensures
        enc_str_items(l.push(s)) == enc_str_items(l) + enc_str(s),
    decreases l.len(),
{
    if l.len() == 0 {
        let p = l.push(s);
        assert(p[0] == s);
        assert(p.drop_first() =~= Seq::<Seq<char>>::empty());
        assert(enc_str_items(p.drop_first()) == Seq::<u8>::empty());
        assert(enc_str_items(p) == enc_str(s) + Seq::<u8>::empty());
        assert(enc_str(s) + Seq::<u8>::empty() =~= Seq::<u8>::empty() + enc_str(s));
    } else {
        let t = l.drop_first();
        assert(l.push(s).drop_first() =~= t.push(s));
        lemma_enc_str_items_push(t, s);
        assert(l.push(s)[0] == l[0]);
        assert(enc_str_items(l.push(s)) == enc_str(l[0]) + (enc_str_items(t) + enc_str(s)));
        assert(enc_str(l[0]) + (enc_str_items(t) + enc_str(s)) =~= (enc_str(l[0]) + enc_str_items(
            t,
        )) + enc_str(s));
    }
}

pub proof fn lemma_str_items_round_trip(l: Seq<Seq<char>>, rest: Seq<u8>)
    requires
        forall|i: int| 0 <= i < l.len() ==> str_encodable(#[trigger] l[i]),
    ensures
        dec_str_items(enc_str_items(l) + rest, l.len()) == Some((l, rest)),
    decreases l.len(),
{
    if l.len() == 0 {
        assert(enc_str_items(l) + rest =~= rest);
        assert(l =~= Seq::<Seq<char>>::empty());
    } else {
        let tail = l.drop_first();
        assert(enc_str_items(l) + rest =~= enc_str(l[0]) + (enc_str_items(tail) + rest));
        lemma_str_round_trip(l[0], enc_str_items(tail) + rest);
        lemma_str_items_round_trip(tail, rest);
        assert(seq![l[0]] + tail =~= l);
    }
}

pub proof fn lemma_str_list_round_trip(l: Seq<Seq<char>>, rest: Seq<u8>)
    requires
        str_list_encodable(l),
    ensures
        dec_str_list(enc_str_list(l) + rest) == Some((l, rest)),
{
    assert(enc_str_list(l) + rest =~= u64_le_bytes(l.len() as u64) + (enc_str_items(l) + rest));
    lemma_u64_round_trip(l.len() as u64, enc_str_items(l) + rest);
    lemma_str_items_round_trip(l, rest);
}

pub fn write_strs(out: &mut Vec<u8>, v: &Vec<String>)
    ensures
        final(out)@ == old(out)@ + enc_str_list(v.deep_view()),
        str_list_encodable(v.deep_view()),
{
    let n = v.len();
    write_u64(out, n as u64);
    let mut i: usize = 0;
    while i < n
        invariant
            i <= n,
            n == v@.len(),
            out@ == old(out)@ + u64_le_bytes(v.deep_view().len() as u64) + enc_str_items(
                v.deep_view().take(i as int),
            ),
            forall|j: int| 0 <= j < i ==> str_encodable(#[trigger] v.deep_view()[j]),
        decreases n - i,
    {
        write_str(out, &v[i]);
        proof {
            lemma_enc_str_items_push(v.deep_view().take(i as int), v@[i as int]@);
            assert(v.deep_view().take(i as int).push(v@[i as int]@) =~= v.deep_view().take(
                i as int + 1,
            ));
            assert(old(out)@ + u64_le_bytes(v.deep_view().len() as u64) + enc_str_items(
                v.deep_view().take(i as int),
            ) + enc_str(v@[i as int]@) =~= old(out)@ + u64_le_bytes(v.deep_view().len() as u64)
                + enc_str_items(v.deep_view().take(i as int + 1)));
        }
        i = i + 1;
    }
    proof {
        assert(v.deep_view().take(n as int) =~= v.deep_view());
        assert(old(out)@ + u64_le_bytes(v.deep_view().len() as u64) + enc_str_items(v.deep_view())
            =~= old(out)@ + enc_str_list(v.deep_view()));
    }
}

pub fn read_strs(b: &Vec<u8>, pos: usize) -> (r: Option<(Vec<String>, usize)>)
    requires
        pos <= b@.len(),
    ensures
        (r matches Some(p) ==> pos <= p.1 <= b@.len() && dec_str_list(b@.skip(pos as int)) == Some(
            (p.0.deep_view(), b@.skip(p.1 as int)),
        )),
        r is None ==> dec_str_list(b@.skip(pos as int)) is None,
{
    match read_u64(b, pos) {
        None => None,
        Some((count, p_start)) => {
            if count > usize::MAX as u64 {
                return None;
            }
            let n = count as usize;
            let mut acc: Vec<String> = Vec::new();
            let mut p: usize = p_start;
            let mut i: usize = 0;
            while i < n
                invariant
                    i <= n,
                    p_start <= p <= b@.len(),
                    acc@.len() == i,
                    dec_str_items(b@.skip(p_start as int), n as nat) == (match dec_str_items(
                        b@.skip(p as int),
                        (n - i) as nat,
                    ) {
                        Some(q) => Some((acc.deep_view() + q.0, q.1)),
                        None => None,
                    }),
                decreases n - i,
            {
                match read_str(b, p) {
                    None => {
                        return None;
                    },
                    Some((s, p2)) => {
                        proof {
                            if let Some(q2) = dec_str_items(b@.skip(p2 as int), (n - i - 1) as nat) {
                                assert(acc.deep_view() + (seq![s@] + q2.0) =~= acc.deep_view().push(
                                    s@,
                                ) + q2.0);
                            }
                        }
                        let ghost old_acc = acc;
                        acc.push(s);
                        proof {
                            assert(acc.deep_view() =~= old_acc.deep_view().push(
                                old_acc@.push(s)[i as int]@,
                            ));
                        }
                        p = p2;
                        i = i + 1;
                    },
                }
            }
            proof {
                assert(acc.deep_view() + Seq::<Seq<char>>::empty() =~= acc.deep_view());
            }
            Some((acc, p))
        },
    }
}

// ---------------------------------------------------------------------------
// Optional strings: a presence byte, then the string when present.
// ---------------------------------------------------------------------------

pub open spec fn enc_opt_str(o: Option<Seq<char>>) -> Seq<u8> {
    match o {
        None => seq![0u8],
        Some(s) => seq![1u8] + enc_str(s),
    }
}

pub open spec fn opt_str_encodable(o: Option<Seq<char>>) -> bool {
    o matches Some(s) ==> str_encodable(s)
}

pub open spec fn dec_opt_str(b: Seq<u8>) -> Option<(Option<Seq<char>>, Seq<u8>)> {
    if b.len() >= 1 {
        if b[0] == 0u8 {
            Some((None, b.skip(1)))
        } else if b[0] == 1u8 {
            match dec_str(b.skip(1)) {
                Some(p) => Some((Some(p.0), p.1)),
                None => None,
            }
        } else {
            None
        }
    } else {
        None
    }
}

pub proof fn lemma_opt_str_round_trip(o: Option<Seq<char>>, rest: Seq<u8>)
    requires
        opt_str_encodable(o),
    ensures
        dec_opt_str(enc_opt_str(o) + rest) == Some((o, rest)),
{
    match o {
        None => {
            assert((enc_opt_str(o) + rest).skip(1) =~= rest);
        },
        Some(s) => {
            assert((enc_opt_str(o) + rest).skip(1) =~= enc_str(s) + rest);
            lemma_str_round_trip(s, rest);
        },
    }
}

pub fn write_opt_str(out: &mut Vec<u8>, o: &Option<String>)
    ensures
        final(out)@ == old(out)@ + enc_opt_str(o.deep_view()),
        opt_str_encodable(o.deep_view()),
{
    match o {
        None => {
            out.push(0u8);
            assert(out@ =~= old(out)@ + enc_opt_str(o.deep_view()));
        },
        Some(s) => {
            out.push(1u8);
            write_str(out, s);
            assert(out@ =~= old(out)@ + enc_opt_str(o.deep_view()));
        },
    }
}

pub fn read_opt_str(b: &Vec<u8>, pos: usize) -> (r: Option<(Option<String>, usize)>)
    requires
        pos <= b@.len(),
    ensures
        (r matches Some(p) ==> pos <= p.1 <= b@.len() && dec_opt_str(b@.skip(pos as int)) == Some(
            (p.0.deep_view(), b@.skip(p.1 as int)),
        )),
        r is None ==> dec_opt_str(b@.skip(pos as int)) is None,
{
    if b.len() - pos >= 1 {
        let t = b[pos];
        proof {
            assert(b@.skip(pos as int).skip(1) =~= b@.skip(pos as int + 1));
        }
        if t == 0u8 {
            Some((None, pos + 1))
        } else if t == 1u8 {
            match read_str(b, pos + 1) {
                Some((s, p2)) => Some((Some(s), p2)),
                None => None,
            }
        } else {
            None
        }
    } else {
        None
    }
}

} // verus!
