//! Decoding of a filter query string, and the round-trip law: the query
//! string a filter serializes to gives every populated field's values back,
//! exactly.
use vstd::prelude::*;
use vstd::utf8::{decode_utf8, encode_utf8, valid_utf8};

use crate::query::{enc_byte, enc_value, hex_digits, is_unreserved_byte, pct_bytes};

verus! {

/// Value of one hex digit, upper or lower case.
pub open spec fn hex_val(c: char) -> Option<u8> {
    if '0' <= c && c <= '9' {
        Some(((c as u32) - 48) as u8)
    } else if 'A' <= c && c <= 'F' {
        Some(((c as u32) - 55) as u8)
    } else if 'a' <= c && c <= 'f' {
        Some(((c as u32) - 87) as u8)
    } else {
        None
    }
}

/// Inverse of percent-encoding: an unreserved character stands for its own
/// byte, `%` escapes two hex digits, anything else is refused.
pub open spec fn pct_decode(cs: Seq<char>) -> Option<Seq<u8>>
    decreases cs.len(),
{
    if cs.len() == 0 {
        Some(Seq::empty())
    } else if cs[0] == '%' {
        if cs.len() < 3 {
            None
        } else {
            match hex_val(cs[1]) {
                Some(h) => match hex_val(cs[2]) {
                    Some(l) => match pct_decode(cs.skip(3)) {
                        Some(rest) => Some(seq![((h as int) * 16 + (l as int)) as u8] + rest),
                        None => None,
                    },
                    None => None,
                },
                None => None,
            }
        }
    } else if (cs[0] as u32) < 128 && is_unreserved_byte((cs[0] as u32) as u8) {
        match pct_decode(cs.drop_first()) {
            Some(rest) => Some(seq![((cs[0] as u32) as u8)] + rest),
            None => None,
        }
    } else {
        None
    }
}

/// Inverse of value encoding: percent-decode, then read the bytes as UTF-8.
pub open spec fn dec_value(cs: Seq<char>) -> Option<Seq<char>> {
    match pct_decode(cs) {
        Some(bs) => if valid_utf8(bs) {
            Some(decode_utf8(bs))
        } else {
            None
        },
        None => None,
    }
}

fn hex_val_exec(c: char) -> (r: Option<u8>)
    ensures
        r == hex_val(c),
        match r {
            Some(v) => v <= 15,
            None => true,
        },
{
    if '0' <= c && c <= '9' {
        Some(((c as u32) - 48) as u8)
    } else if 'A' <= c && c <= 'F' {
        Some(((c as u32) - 55) as u8)
    } else if 'a' <= c && c <= 'f' {
        Some(((c as u32) - 87) as u8)
    } else {
        None
    }
}

/// Percent-decode one value text into its bytes.
fn pct_decode_exec(s: &str) -> (r: Option<Vec<u8>>)
    ensures
        match r {
            Some(v) => pct_decode(s@) == Some(v@),
            None => pct_decode(s@) is None,
        },
{
    let n = s.unicode_len();
    let mut out: Vec<u8> = Vec::new();
    let mut i: usize = 0;
    proof {
        assert(s@.skip(0) =~= s@);
        assert(out@ =~= Seq::<u8>::empty());
    }
    while i < n
        invariant
            n == s@.len(),
            i <= n,
            pct_decode(s@) == (match pct_decode(s@.skip(i as int)) {
                Some(rest) => Some(out@ + rest),
                None => None::<Seq<u8>>,
            }),
        decreases n - i,
    {
        let ghost tail = s@.skip(i as int);
        proof {
            assert(tail.len() == n - i);
            assert(tail[0] == s@[i as int]);
        }
        let c = s.get_char(i);
        if c == '%' {
            if n - i < 3 {
                return None;
            }
            proof {
                assert(tail[1] == s@[i as int + 1]);
                assert(tail[2] == s@[i as int + 2]);
            }
            let h = match hex_val_exec(s.get_char(i + 1)) {
                Some(h) => h,
                None => {
                    return None;
                },
            };
            let l = match hex_val_exec(s.get_char(i + 2)) {
                Some(l) => l,
                None => {
                    return None;
                },
            };
            let b: u8 = h * 16 + l;
            let ghost before = out@;
            out.push(b);
            proof {
                assert(tail.skip(3) =~= s@.skip(i as int + 3));
                assert(seq![b] =~= seq![((h as int) * 16 + (l as int)) as u8]);
                match pct_decode(s@.skip(i as int + 3)) {
                    Some(rest) => {
                        assert(pct_decode(tail) == Some(seq![b] + rest));
                        assert(before + (seq![b] + rest) =~= out@ + rest);
                    },
                    None => {},
                }
            }
            i += 3;
        } else {
            let code = c as u32;
            let unreserved = code < 128 && {
                let b = code as u8;
                (48 <= b && b <= 57) || (65 <= b && b <= 90) || (97 <= b && b <= 122) || b == 45
                    || b == 46 || b == 95 || b == 126
            };
            if !unreserved {
                proof {
                    assert(pct_decode(tail) is None);
                }
                return None;
            }
            let b: u8 = code as u8;
            let ghost before = out@;
            out.push(b);
            proof {
                assert(tail.drop_first() =~= s@.skip(i as int + 1));
                match pct_decode(s@.skip(i as int + 1)) {
                    Some(rest) => {
                        assert(pct_decode(tail) == Some(seq![b] + rest));
                        assert(before + (seq![b] + rest) =~= out@ + rest);
                    },
                    None => {},
                }
            }
            i += 1;
        }
    }
    proof {
        assert(s@.skip(n as int) =~= Seq::<char>::empty());
        assert(pct_decode(Seq::<char>::empty()) == Some(Seq::<u8>::empty()));
        assert(out@ + Seq::<u8>::empty() =~= out@);
    }
    Some(out)
}

/// Relies on `String::from_utf8`: returns the string read from the given
/// bytes exactly when they are valid UTF-8, and an error otherwise.
#[verifier::external_body]
fn string_from_utf8(v: Vec<u8>) -> (r: Option<String>)
    ensures
        match r {
            Some(s) => valid_utf8(v@) && s@ == decode_utf8(v@),
            None => !valid_utf8(v@),
        },
{
    String::from_utf8(v).ok()
}

/// Decode one percent-encoded value text back into the value.
pub fn decode_value(s: &str) -> (r: Option<String>)
    ensures
        match r {
            Some(v) => dec_value(s@) == Some(v@),
            None => dec_value(s@) is None,
        },
{
    match pct_decode_exec(s) {
        None => None,
        Some(bytes) => string_from_utf8(bytes),
    }
}

proof fn lemma_hex_digit(h: int)
    requires
        0 <= h < 16,
    ensures
        hex_val(hex_digits()[h]) == Some(h as u8),
        hex_digits()[h] != '&',
        hex_digits()[h] != '=',
        hex_digits()[h] != '%',
{
    reveal_strlit("0123456789ABCDEF");
}

proof fn lemma_enc_byte_decode(b: u8, rest: Seq<char>)
    ensures
        pct_decode(enc_byte(b) + rest) == (match pct_decode(rest) {
            Some(bs) => Some(seq![b] + bs),
            None => None::<Seq<u8>>,
        }),
{
    let cs = enc_byte(b) + rest;
    if is_unreserved_byte(b) {
        let c = b as char;
        assert(c as u32 == b);
        assert(cs.len() >= 1);
        assert(cs[0] == c);
        assert(c != '%');
        assert(cs.drop_first() =~= rest);
        assert((cs[0] as u32) < 128 && is_unreserved_byte((cs[0] as u32) as u8));
        match pct_decode(rest) {
            Some(bs) => {
                assert(pct_decode(cs) == Some(seq![((cs[0] as u32) as u8)] + bs));
                assert(seq![((cs[0] as u32) as u8)] =~= seq![b]);
                assert(seq![((cs[0] as u32) as u8)] + bs =~= seq![b] + bs);
            },
            None => {},
        }
    } else {
        let h = (b >> 4) as int;
        let l = (b & 15) as int;
        assert((b >> 4) < 16 && (b & 15) < 16 && (b >> 4) * 16 + (b & 15) == b) by (bit_vector);
        lemma_hex_digit(h);
        lemma_hex_digit(l);
        assert(cs.len() >= 3);
        assert(cs[0] == '%');
        assert(cs[1] == hex_digits()[h]);
        assert(cs[2] == hex_digits()[l]);
        assert(hex_val(cs[1]) == Some(h as u8));
        assert(hex_val(cs[2]) == Some(l as u8));
        assert(cs.skip(3) =~= rest);
        match pct_decode(rest) {
            Some(bs) => {
                assert(((h as u8) as int) * 16 + ((l as u8) as int) == b);
                assert(seq![(((h as u8) as int) * 16 + ((l as u8) as int)) as u8] =~= seq![b]);
                assert(seq![(((h as u8) as int) * 16 + ((l as u8) as int)) as u8] + bs =~= seq![b]
                    + bs);
            },
            None => {},
        }
    }
}

proof fn lemma_pct_decode_enc(bs: Seq<u8>, rest: Seq<char>)
    ensures
        pct_decode(pct_bytes(bs) + rest) == (match pct_decode(rest) {
            Some(r) => Some(bs + r),
            None => None::<Seq<u8>>,
        }),
    decreases bs.len(),
{
    if bs.len() == 0 {
        assert(pct_bytes(bs) + rest =~= rest);
        match pct_decode(rest) {
            Some(r) => {
                assert(bs + r =~= r);
            },
            None => {},
        }
    } else {
        let b0 = bs[0];
        let tail = bs.drop_first();
        assert(pct_bytes(bs) + rest =~= enc_byte(b0) + (pct_bytes(tail) + rest));
        lemma_pct_decode_enc(tail, rest);
        lemma_enc_byte_decode(b0, pct_bytes(tail) + rest);
        match pct_decode(rest) {
            Some(r) => {
                assert(pct_decode(pct_bytes(tail) + rest) == Some(tail + r));
                assert(seq![b0] + (tail + r) =~= bs + r);
            },
            None => {},
        }
    }
}

/// Percent-encoding loses nothing: decoding the encoding of any byte string
/// gives it back.
pub proof fn lemma_pct_round_trip(bs: Seq<u8>)
    ensures
        pct_decode(pct_bytes(bs)) == Some(bs),
{
    lemma_pct_decode_enc(bs, Seq::empty());
    assert(pct_bytes(bs) + Seq::<char>::empty() =~= pct_bytes(bs));
    assert(pct_decode(Seq::<char>::empty()) == Some(Seq::<u8>::empty()));
    assert(bs + Seq::<u8>::empty() =~= bs);
}

/// Value encoding loses nothing: decoding the encoding of any value gives
/// it back.
pub proof fn lemma_value_round_trip(v: Seq<char>)
    ensures
        dec_value(enc_value(v)) == Some(v),
{
    broadcast use vstd::utf8::encode_utf8_valid_utf8, vstd::utf8::encode_utf8_decode_utf8;

    lemma_pct_round_trip(encode_utf8(v));
}

/// No `&` anywhere: the part survives splitting on `&` whole.
pub open spec fn amp_free(p: Seq<char>) -> bool {
    forall|j: int| 0 <= j < p.len() ==> p[j] != '&'
}

/// No `=` anywhere: the key survives splitting on the first `=` whole.
pub open spec fn eq_free(k: Seq<char>) -> bool {
    forall|j: int| 0 <= j < k.len() ==> k[j] != '='
}

/// Split a non-empty query string on `&`; always at least one part.
pub open spec fn split_ne(q: Seq<char>) -> Seq<Seq<char>>
    decreases q.len(),
{
    if q.len() == 0 {
        seq![Seq::<char>::empty()]
    } else if q[0] == '&' {
        seq![Seq::<char>::empty()] + split_ne(q.drop_first())
    } else {
        let rest = split_ne(q.drop_first());
        seq![seq![q[0]] + rest[0]] + rest.drop_first()
    }
}

/// The parameter texts of a query string: none at all for the empty string.
pub open spec fn split_amp(q: Seq<char>) -> Seq<Seq<char>> {
    if q.len() == 0 {
        Seq::empty()
    } else {
        split_ne(q)
    }
}

/// Split one parameter on its first `=` into key and value text.
pub open spec fn split_pair(p: Seq<char>) -> Option<(Seq<char>, Seq<char>)>
    decreases p.len(),
{
    if p.len() == 0 {
        None
    } else if p[0] == '=' {
        Some((Seq::<char>::empty(), p.drop_first()))
    } else {
        match split_pair(p.drop_first()) {
            Some((k, v)) => Some((seq![p[0]] + k, v)),
            None => None,
        }
    }
}

proof fn lemma_split_ne_len(q: Seq<char>)
    ensures
        split_ne(q).len() >= 1,
    decreases q.len(),
{
    if q.len() > 0 {
        lemma_split_ne_len(q.drop_first());
    }
}

proof fn lemma_split_single(p: Seq<char>)
    requires
        amp_free(p),
    ensures
        split_ne(p) =~~= seq![p],
    decreases p.len(),
{
    if p.len() == 0 {
        assert(p =~= Seq::<char>::empty());
    } else {
        assert(p[0] != '&');
        assert(amp_free(p.drop_first()));
        lemma_split_single(p.drop_first());
        let rest = split_ne(p.drop_first());
        assert(rest[0] == p.drop_first());
        assert(seq![p[0]] + p.drop_first() =~= p);
        assert(rest.drop_first() =~= Seq::<Seq<char>>::empty());
    }
}

proof fn lemma_split_prepend(p: Seq<char>, q: Seq<char>)
    requires
        amp_free(p),
    ensures
        split_ne(p + seq!['&'] + q) =~~= seq![p] + split_ne(q),
    decreases p.len(),
{
    let whole = p + seq!['&'] + q;
    if p.len() == 0 {
        assert(whole[0] == '&');
        assert(whole.drop_first() =~= q);
        assert(p =~= Seq::<char>::empty());
    } else {
        assert(whole[0] == p[0]);
        assert(p[0] != '&');
        assert(amp_free(p.drop_first()));
        assert(whole.drop_first() =~= p.drop_first() + seq!['&'] + q);
        lemma_split_prepend(p.drop_first(), q);
        let rest = split_ne(whole.drop_first());
        assert(rest =~~= seq![p.drop_first()] + split_ne(q));
        lemma_split_ne_len(q);
        assert(rest[0] == p.drop_first());
        assert(seq![p[0]] + p.drop_first() =~= p);
        assert(rest.drop_first() =~~= split_ne(q));
    }
}

proof fn lemma_split_join(parts: Seq<Seq<char>>)
    requires
        parts.len() >= 1,
        forall|i: int| 0 <= i < parts.len() ==> amp_free(#[trigger] parts[i]),
    ensures
        split_ne(crate::query::join_amp(parts)) =~~= parts,
    decreases parts.len(),
{
    if parts.len() == 1 {
        lemma_split_single(parts[0]);
        assert(seq![parts[0]] =~~= parts);
    } else {
        let rest = parts.drop_first();
        assert(forall|i: int| 0 <= i < rest.len() ==> amp_free(#[trigger] rest[i]));
        lemma_split_join(rest);
        lemma_split_prepend(parts[0], crate::query::join_amp(rest));
        assert(seq![parts[0]] + rest =~~= parts);
    }
}

proof fn lemma_split_pair_build(k: Seq<char>, ev: Seq<char>)
    requires
        eq_free(k),
    ensures
        split_pair(k + "="@ + ev) == Some((k, ev)),
    decreases k.len(),
{
    reveal_strlit("=");
    assert("="@ =~= seq!['=']);
    let whole = k + "="@ + ev;
    if k.len() == 0 {
        assert(whole[0] == '=');
        assert(whole.drop_first() =~= ev);
        assert(Seq::<char>::empty() =~= k);
    } else {
        assert(whole[0] == k[0]);
        assert(k[0] != '=');
        assert(eq_free(k.drop_first()));
        assert(whole.drop_first() =~= k.drop_first() + "="@ + ev);
        lemma_split_pair_build(k.drop_first(), ev);
        assert(seq![k[0]] + k.drop_first() =~= k);
    }
}

/// The key/value texts of a parameter list; a parameter without `=` is
/// refused.
pub open spec fn pairs_of_query(parts: Seq<Seq<char>>) -> Option<Seq<(Seq<char>, Seq<char>)>>
    decreases parts.len(),
{
    if parts.len() == 0 {
        Some(Seq::empty())
    } else {
        match split_pair(parts[0]) {
            None => None,
            Some(kv) => match pairs_of_query(parts.drop_first()) {
                None => None,
                Some(rest) => Some(seq![kv] + rest),
            },
        }
    }
}

/// The value texts standing under `key`, in order of appearance.
pub open spec fn values_for(pairs: Seq<(Seq<char>, Seq<char>)>, key: Seq<char>) -> Seq<Seq<char>>
    decreases pairs.len(),
{
    if pairs.len() == 0 {
        Seq::empty()
    } else {
        let rest = values_for(pairs.drop_first(), key);
        if pairs[0].0 == key {
            seq![pairs[0].1] + rest
        } else {
            rest
        }
    }
}

/// Decode every value text; one undecodable value refuses the lot.
pub open spec fn decode_values(vs: Seq<Seq<char>>) -> Option<Seq<Seq<char>>>
    decreases vs.len(),
{
    if vs.len() == 0 {
        Some(Seq::empty())
    } else {
        match dec_value(vs[0]) {
            None => None,
            Some(v) => match decode_values(vs.drop_first()) {
                None => None,
                Some(rest) => Some(seq![v] + rest),
            },
        }
    }
}

/// The decoded values standing under `key` in the query string `q`: `None`
/// when the query string does not parse as parameters or a value under
/// `key` is not a valid encoding.
pub open spec fn query_values(q: Seq<char>, key: Seq<char>) -> Option<Seq<Seq<char>>> {
    match pairs_of_query(split_amp(q)) {
        None => None,
        Some(pairs) => decode_values(values_for(pairs, key)),
    }
}

/// The key/value pairs a present list field contributes.
pub open spec fn kv_list(key: Seq<char>, vals: Seq<Seq<char>>) -> Seq<(Seq<char>, Seq<char>)> {
    Seq::new(vals.len(), |i: int| (key, enc_value(vals[i])))
}

/// The encoded texts of a value list.
pub open spec fn enc_list(vals: Seq<Seq<char>>) -> Seq<Seq<char>> {
    Seq::new(vals.len(), |i: int| enc_value(vals[i]))
}

proof fn lemma_pairs_concat(p1: Seq<Seq<char>>, p2: Seq<Seq<char>>)
    ensures
        pairs_of_query(p1 + p2) == (match (pairs_of_query(p1), pairs_of_query(p2)) {
            (Some(a), Some(b)) => Some(a + b),
            _ => None::<Seq<(Seq<char>, Seq<char>)>>,
        }),
    decreases p1.len(),
{
    if p1.len() == 0 {
        assert(p1 + p2 =~= p2);
        match pairs_of_query(p2) {
            Some(b) => {
                assert(Seq::<(Seq<char>, Seq<char>)>::empty() + b =~= b);
            },
            None => {},
        }
    } else {
        let whole = p1 + p2;
        assert(whole[0] == p1[0]);
        assert(whole.drop_first() =~= p1.drop_first() + p2);
        lemma_pairs_concat(p1.drop_first(), p2);
        match split_pair(p1[0]) {
            None => {},
            Some(kv) => {
                match (pairs_of_query(p1.drop_first()), pairs_of_query(p2)) {
                    (Some(a), Some(b)) => {
                        assert(seq![kv] + (a + b) =~= (seq![kv] + a) + b);
                    },
                    _ => {},
                }
            },
        }
    }
}

proof fn lemma_block_pairs(key: Seq<char>, vals: Seq<Seq<char>>)
    requires
        eq_free(key),
    ensures
        pairs_of_query(crate::query::pairs_of_list(key, vals)) == Some(kv_list(key, vals)),
    decreases vals.len(),
{
    let parts = crate::query::pairs_of_list(key, vals);
    if vals.len() == 0 {
        assert(parts =~= Seq::<Seq<char>>::empty());
        assert(Seq::<(Seq<char>, Seq<char>)>::empty() =~~= kv_list(key, vals));
    } else {
        assert(parts[0] == crate::query::pair_text(key, vals[0]));
        assert(crate::query::pair_text(key, vals[0]) == key + "="@ + enc_value(vals[0]));
        lemma_split_pair_build(key, enc_value(vals[0]));
        assert(parts.drop_first() =~= crate::query::pairs_of_list(key, vals.drop_first()));
        lemma_block_pairs(key, vals.drop_first());
        assert(seq![(key, enc_value(vals[0]))] + kv_list(key, vals.drop_first()) =~~= kv_list(
            key,
            vals,
        ));
    }
}

proof fn lemma_values_concat(a: Seq<(Seq<char>, Seq<char>)>, b: Seq<(Seq<char>, Seq<char>)>, key: Seq<char>)
    ensures
        values_for(a + b, key) =~~= values_for(a, key) + values_for(b, key),
    decreases a.len(),
{
    if a.len() == 0 {
        assert(a + b =~= b);
    } else {
        let whole = a + b;
        assert(whole[0] == a[0]);
        assert(whole.drop_first() =~= a.drop_first() + b);
        lemma_values_concat(a.drop_first(), b, key);
        if a[0].0 == key {
            assert(seq![a[0].1] + (values_for(a.drop_first(), key) + values_for(b, key)) =~~= (
            seq![a[0].1] + values_for(a.drop_first(), key)) + values_for(b, key));
        }
    }
}

proof fn lemma_values_block(key2: Seq<char>, vals: Seq<Seq<char>>, key: Seq<char>)
    ensures
        values_for(kv_list(key2, vals), key) =~~= if key2 == key {
            enc_list(vals)
        } else {
            Seq::<Seq<char>>::empty()
        },
    decreases vals.len(),
{
    let pairs = kv_list(key2, vals);
    if vals.len() == 0 {
        assert(pairs =~= Seq::<(Seq<char>, Seq<char>)>::empty());
    } else {
        assert(pairs[0] == (key2, enc_value(vals[0])));
        assert(pairs.drop_first() =~= kv_list(key2, vals.drop_first()));
        lemma_values_block(key2, vals.drop_first(), key);
        if key2 == key {
            assert(seq![enc_value(vals[0])] + enc_list(vals.drop_first()) =~~= enc_list(vals));
        }
    }
}

proof fn lemma_decode_enc_list(vals: Seq<Seq<char>>)
    ensures
        decode_values(enc_list(vals)) == Some(vals),
    decreases vals.len(),
{
    let vs = enc_list(vals);
    if vals.len() == 0 {
        assert(vs =~= Seq::<Seq<char>>::empty());
        assert(Seq::<Seq<char>>::empty() =~~= vals);
    } else {
        assert(vs[0] == enc_value(vals[0]));
        lemma_value_round_trip(vals[0]);
        assert(vs.drop_first() =~= enc_list(vals.drop_first()));
        lemma_decode_enc_list(vals.drop_first());
        assert(seq![vals[0]] + vals.drop_first() =~~= vals);
    }
}

proof fn lemma_enc_byte_safe(b: u8)
    ensures
        forall|j: int|
            0 <= j < enc_byte(b).len() ==> #[trigger] enc_byte(b)[j] != '&' && enc_byte(b)[j]
                != '=',
{
    let e = enc_byte(b);
    assert('&' as u32 == 38);
    assert('=' as u32 == 61);
    assert('%' as u32 == 37);
    if is_unreserved_byte(b) {
        assert(e[0] == b as char);
        assert((b as char) as u32 == b);
        assert(b != 38 && b != 61);
    } else {
        let h = (b >> 4) as int;
        let l = (b & 15) as int;
        assert((b >> 4) < 16 && (b & 15) < 16) by (bit_vector);
        lemma_hex_digit(h);
        lemma_hex_digit(l);
        assert(e[0] == '%' && e[1] == hex_digits()[h] && e[2] == hex_digits()[l]);
    }
}

proof fn lemma_pct_bytes_safe(bs: Seq<u8>)
    ensures
        forall|j: int|
            0 <= j < pct_bytes(bs).len() ==> #[trigger] pct_bytes(bs)[j] != '&' && pct_bytes(
                bs,
            )[j] != '=',
    decreases bs.len(),
{
    if bs.len() > 0 {
        lemma_pct_bytes_safe(bs.drop_first());
        lemma_enc_byte_safe(bs[0]);
        let e = enc_byte(bs[0]);
        let rest = pct_bytes(bs.drop_first());
        assert forall|j: int| 0 <= j < pct_bytes(bs).len() implies #[trigger] pct_bytes(bs)[j]
            != '&' && pct_bytes(bs)[j] != '=' by {
            if j < e.len() {
                assert(pct_bytes(bs)[j] == e[j]);
            } else {
                assert(pct_bytes(bs)[j] == rest[j - e.len()]);
            }
        }
    }
}

/// A parameter that splitting on `&` leaves whole and that is never empty.
pub open spec fn part_ok(p: Seq<char>) -> bool {
    p.len() >= 1 && amp_free(p)
}

proof fn lemma_pair_text_ok(key: Seq<char>, v: Seq<char>)
    requires
        amp_free(key),
    ensures
        part_ok(crate::query::pair_text(key, v)),
{
    reveal_strlit("=");
    assert("="@ =~= seq!['=']);
    let p = crate::query::pair_text(key, v);
    let e = enc_value(v);
    lemma_pct_bytes_safe(vstd::utf8::encode_utf8(v));
    assert(p.len() == key.len() + 1 + e.len());
    assert forall|j: int| 0 <= j < p.len() implies #[trigger] p[j] != '&' by {
        if j < key.len() {
            assert(p[j] == key[j]);
        } else if j == key.len() {
            assert(p[j] == '=');
        } else {
            assert(p[j] == e[j - key.len() - 1]);
        }
    }
}

proof fn lemma_block_ok(key: Seq<char>, vals: Seq<Seq<char>>)
    requires
        amp_free(key),
    ensures
        forall|i: int|
            0 <= i < crate::query::pairs_of_list(key, vals).len() ==> part_ok(
                #[trigger] crate::query::pairs_of_list(key, vals)[i],
            ),
{
    let parts = crate::query::pairs_of_list(key, vals);
    assert forall|i: int| 0 <= i < parts.len() implies part_ok(#[trigger] parts[i]) by {
        assert(parts[i] == crate::query::pair_text(key, vals[i]));
        lemma_pair_text_ok(key, vals[i]);
    }
}

/// The wire names of a state list.
pub open spec fn state_names(sts: Seq<crate::types::PowerState>) -> Seq<Seq<char>> {
    Seq::new(sts.len(), |i: int| sts[i].spec_wire_name())
}

/// Every present field holds at least one value.
pub open spec fn nonempty_present(f: crate::types::FilterData) -> bool {
    &&& (f.clusters is Some ==> f.clusters.unwrap().len() >= 1)
    &&& (f.datacenters is Some ==> f.datacenters.unwrap().len() >= 1)
    &&& (f.folders is Some ==> f.folders.unwrap().len() >= 1)
    &&& (f.hosts is Some ==> f.hosts.unwrap().len() >= 1)
    &&& (f.names is Some ==> f.names.unwrap().len() >= 1)
    &&& (f.power_states is Some ==> f.power_states.unwrap().len() >= 1)
    &&& (f.resource_pools is Some ==> f.resource_pools.unwrap().len() >= 1)
    &&& (f.vms is Some ==> f.vms.unwrap().len() >= 1)
}

pub open spec fn opt_vals(o: Option<Seq<Seq<char>>>) -> Seq<Seq<char>> {
    match o {
        None => Seq::empty(),
        Some(vs) => vs,
    }
}

/// The values a query string under `key` must give back: the field keyed by
/// `key`, with `power_states` read as its wire names; an unknown key holds
/// nothing.
pub open spec fn spec_field_values(f: crate::types::FilterData, key: Seq<char>) -> Seq<Seq<char>> {
    if key == "clusters"@ {
        opt_vals(f.clusters)
    } else if key == "datacenters"@ {
        opt_vals(f.datacenters)
    } else if key == "folders"@ {
        opt_vals(f.folders)
    } else if key == "hosts"@ {
        opt_vals(f.hosts)
    } else if key == "names"@ {
        opt_vals(f.names)
    } else if key == "power_states"@ {
        match f.power_states {
            None => Seq::empty(),
            Some(sts) => state_names(sts),
        }
    } else if key == "resource_pools"@ {
        opt_vals(f.resource_pools)
    } else if key == "vms"@ {
        opt_vals(f.vms)
    } else {
        Seq::empty()
    }
}

/// The key/value pairs a possibly-absent list field contributes.
pub open spec fn kv_opt(key: Seq<char>, o: Option<Seq<Seq<char>>>) -> Seq<(Seq<char>, Seq<char>)> {
    match o {
        None => Seq::empty(),
        Some(vs) => kv_list(key, vs),
    }
}

proof fn parts_ok_concat(a: Seq<Seq<char>>, b: Seq<Seq<char>>)
    requires
        forall|i: int| 0 <= i < a.len() ==> part_ok(#[trigger] a[i]),
        forall|i: int| 0 <= i < b.len() ==> part_ok(#[trigger] b[i]),
    ensures
        forall|i: int| 0 <= i < (a + b).len() ==> part_ok(#[trigger] (a + b)[i]),
{
    assert forall|i: int| 0 <= i < (a + b).len() implies part_ok(#[trigger] (a + b)[i]) by {
        if i < a.len() {
            assert((a + b)[i] == a[i]);
        } else {
            assert((a + b)[i] == b[i - a.len()]);
        }
    }
}

proof fn block_facts(key: Seq<char>, o: Option<Seq<Seq<char>>>, qkey: Seq<char>)
    requires
        amp_free(key),
        eq_free(key),
    ensures
        pairs_of_query(crate::query::opt_pairs(key, o)) == Some(kv_opt(key, o)),
        forall|i: int|
            0 <= i < crate::query::opt_pairs(key, o).len() ==> part_ok(
                #[trigger] crate::query::opt_pairs(key, o)[i],
            ),
        values_for(kv_opt(key, o), qkey) =~~= if key == qkey {
            enc_list(opt_vals(o))
        } else {
            Seq::<Seq<char>>::empty()
        },
        crate::query::opt_pairs(key, o).len() == opt_vals(o).len(),
{
    match o {
        None => {
            assert(crate::query::opt_pairs(key, o) =~= Seq::<Seq<char>>::empty());
            assert(kv_opt(key, o) =~= Seq::<(Seq<char>, Seq<char>)>::empty());
            assert(Some(Seq::<(Seq<char>, Seq<char>)>::empty()) == Some(kv_opt(key, o)));
            assert(enc_list(opt_vals(o)) =~= Seq::<Seq<char>>::empty());
        },
        Some(vs) => {
            lemma_block_pairs(key, vs);
            lemma_block_ok(key, vs);
            lemma_values_block(key, vs, qkey);
        },
    }
}

/// The round-trip law of the filter serialization: for any filter whose
/// present fields are populated, decoding its query string reproduces under
/// each field's name exactly that field's values — for `power_states` their
/// wire names — and nothing under any other name.
#[verifier::rlimit(100)]
pub proof fn lemma_filter_query_round_trip(f: crate::types::FilterData, key: Seq<char>)
    requires
        nonempty_present(f),
    ensures
        query_values(crate::query::query_of_filter(f), key) == Some(spec_field_values(f, key)),
{
    reveal_strlit("clusters");
    reveal_strlit("datacenters");
    reveal_strlit("folders");
    reveal_strlit("hosts");
    reveal_strlit("names");
    reveal_strlit("power_states");
    reveal_strlit("resource_pools");
    reveal_strlit("vms");
    let k1 = "clusters"@;
    let k2 = "datacenters"@;
    let k3 = "folders"@;
    let k4 = "hosts"@;
    let k5 = "names"@;
    let k6 = "power_states"@;
    let k7 = "resource_pools"@;
    let k8 = "vms"@;
    assert(amp_free(k1) && eq_free(k1));
    assert(amp_free(k2) && eq_free(k2));
    assert(amp_free(k3) && eq_free(k3));
    assert(amp_free(k4) && eq_free(k4));
    assert(amp_free(k5) && eq_free(k5));
    assert(amp_free(k6) && eq_free(k6));
    assert(amp_free(k7) && eq_free(k7));
    assert(amp_free(k8) && eq_free(k8));
    let o1 = crate::query::opt_pairs(k1, f.clusters);
    let o2 = crate::query::opt_pairs(k2, f.datacenters);
    let o3 = crate::query::opt_pairs(k3, f.folders);
    let o4 = crate::query::opt_pairs(k4, f.hosts);
    let o5 = crate::query::opt_pairs(k5, f.names);
    let names6 = match f.power_states {
        None => None,
        Some(sts) => Some(state_names(sts)),
    };
    let o6 = crate::query::opt_pairs(k6, names6);
    let o7 = crate::query::opt_pairs(k7, f.resource_pools);
    let o8 = crate::query::opt_pairs(k8, f.vms);
    block_facts(k1, f.clusters, key);
    block_facts(k2, f.datacenters, key);
    block_facts(k3, f.folders, key);
    block_facts(k4, f.hosts, key);
    block_facts(k5, f.names, key);
    match f.power_states {
        None => {
            assert(crate::query::opt_state_pairs(k6, f.power_states) =~~= crate::query::opt_pairs(
                k6,
                names6,
            ));
        },
        Some(sts) => {
            assert(crate::query::opt_state_pairs(k6, f.power_states) =~~= crate::query::opt_pairs(
                k6,
                names6,
            ));
        },
    }
    block_facts(k6, names6, key);
    block_facts(k7, f.resource_pools, key);
    block_facts(k8, f.vms, key);
    let parts = crate::query::all_pairs(f);
    assert(parts =~~= o1 + o2 + o3 + o4 + o5 + o6 + o7 + o8);
    let kv1 = kv_opt(k1, f.clusters);
    let kv2 = kv_opt(k2, f.datacenters);
    let kv3 = kv_opt(k3, f.folders);
    let kv4 = kv_opt(k4, f.hosts);
    let kv5 = kv_opt(k5, f.names);
    let kv6 = kv_opt(k6, names6);
    let kv7 = kv_opt(k7, f.resource_pools);
    let kv8 = kv_opt(k8, f.vms);
    // Parameter texts of the whole query, blockwise.
    lemma_pairs_concat(o1, o2);
    lemma_pairs_concat(o1 + o2, o3);
    lemma_pairs_concat(o1 + o2 + o3, o4);
    lemma_pairs_concat(o1 + o2 + o3 + o4, o5);
    lemma_pairs_concat(o1 + o2 + o3 + o4 + o5, o6);
    lemma_pairs_concat(o1 + o2 + o3 + o4 + o5 + o6, o7);
    lemma_pairs_concat(o1 + o2 + o3 + o4 + o5 + o6 + o7, o8);
    let kv_all = kv1 + kv2 + kv3 + kv4 + kv5 + kv6 + kv7 + kv8;
    assert(pairs_of_query(parts) == Some(kv_all));
    // Every part stands whole under the `&` split.
    parts_ok_concat(o1, o2);
    parts_ok_concat(o1 + o2, o3);
    parts_ok_concat(o1 + o2 + o3, o4);
    parts_ok_concat(o1 + o2 + o3 + o4, o5);
    parts_ok_concat(o1 + o2 + o3 + o4 + o5, o6);
    parts_ok_concat(o1 + o2 + o3 + o4 + o5 + o6, o7);
    parts_ok_concat(o1 + o2 + o3 + o4 + o5 + o6 + o7, o8);
    // The values standing under `key`, blockwise.
    lemma_values_concat(kv1, kv2, key);
    lemma_values_concat(kv1 + kv2, kv3, key);
    lemma_values_concat(kv1 + kv2 + kv3, kv4, key);
    lemma_values_concat(kv1 + kv2 + kv3 + kv4, kv5, key);
    lemma_values_concat(kv1 + kv2 + kv3 + kv4 + kv5, kv6, key);
    lemma_values_concat(kv1 + kv2 + kv3 + kv4 + kv5 + kv6, kv7, key);
    lemma_values_concat(kv1 + kv2 + kv3 + kv4 + kv5 + kv6 + kv7, kv8, key);
    assert(values_for(kv_all, key) =~~= enc_list(spec_field_values(f, key)));
    lemma_decode_enc_list(spec_field_values(f, key));
    let q = crate::query::query_of_filter(f);
    if parts.len() == 0 {
        assert(o1.len() == 0 && o2.len() == 0 && o3.len() == 0 && o4.len() == 0 && o5.len() == 0
            && o6.len() == 0 && o7.len() == 0 && o8.len() == 0);
        assert(q == crate::query::join_amp(parts));
        assert(q.len() == 0);
        assert(split_amp(q) =~= Seq::<Seq<char>>::empty());
        assert(kv_all.len() == 0);
        assert(pairs_of_query(split_amp(q)) == Some(kv_all));
    } else {
        assert(forall|i: int| 0 <= i < parts.len() ==> part_ok(#[trigger] parts[i]));
        if parts.len() == 1 {
            assert(q == parts[0]);
        } else {
            assert(q == parts[0] + seq!['&'] + crate::query::join_amp(parts.drop_first()));
        }
        assert(q.len() >= 1);
        lemma_split_join(parts);
        assert(split_amp(q) =~~= parts);
        assert(pairs_of_query(split_amp(q)) == Some(kv_all));
    }
}

} // verus!
