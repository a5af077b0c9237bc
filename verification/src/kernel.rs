//! Decoding of the opaque values the blockchain kernel returns.
//!
//! A kernel value is a binary tree whose leaves are atoms: unsigned
//! numbers carried as little-endian bytes. Peek replies arrive wrapped
//! twice (a result wrapper and an option wrapper); `peek_payload` is the
//! one place that strips those two cells, so a change of the kernel's
//! wire shape touches one function. The payload is then read as a
//! number, as text, or as a seed phrase, by the decoders below.

use vstd::prelude::*;
use vstd::utf8::{valid_utf8, decode_utf8};

verus! {

/// A value produced by the kernel: an atom of little-endian bytes, or a
/// pair of values.
#[derive(Debug)]
pub enum KernelValue {
    Atom(Vec<u8>),
    Cell(Box<KernelValue>, Box<KernelValue>),
}

impl KernelValue {
    /// The number an atom's little-endian bytes denote.
    pub open spec fn atom_nat(bytes: Seq<u8>) -> nat
        decreases bytes.len(),
    {
        if bytes.len() == 0 {
            0
        } else {
            (bytes[0] + 256 * Self::atom_nat(bytes.drop_first())) as nat
        }
    }

    /// The payload of a peek reply: the tail of the tail, skipping the
    /// result wrapper and the option wrapper.
    pub open spec fn peek_payload_spec(self) -> Option<KernelValue> {
        match self {
            KernelValue::Cell(_, t) => match *t {
                KernelValue::Cell(_, u) => Some(*u),
                _ => None,
            },
            _ => None,
        }
    }
}

/// Strips the two wrapper cells of a peek reply; any other shape is a
/// hard parse error.
pub fn peek_payload(v: KernelValue) -> (r: Result<KernelValue, String>)
    ensures
        match v.peek_payload_spec() {
            Some(u) => r == Ok::<KernelValue, String>(u),
            None => r matches Err(e) && e@ == "invalid noun"@,
        },
{
    match v {
        KernelValue::Cell(_, t) => match *t {
            KernelValue::Cell(_, u) => Ok(*u),
            _ => Err(String::from_str("invalid noun")),
        },
        _ => Err(String::from_str("invalid noun")),
    }
}

proof fn lemma_atom_nat_skip_le(bytes: Seq<u8>, k: int)
    requires
        0 <= k <= bytes.len(),
    ensures
        KernelValue::atom_nat(bytes.skip(k)) <= KernelValue::atom_nat(bytes),
    decreases k,
{
    if k > 0 {
        assert(bytes.drop_first() == bytes.skip(1));
        assert(KernelValue::atom_nat(bytes) == bytes[0] + 256 * KernelValue::atom_nat(
            bytes.skip(1),
        ));
        assert(KernelValue::atom_nat(bytes.skip(1)) <= 256 * KernelValue::atom_nat(bytes.skip(1)));
        lemma_atom_nat_skip_le(bytes.skip(1), k - 1);
        assert(bytes.skip(1).skip(k - 1) =~= bytes.skip(k));
    } else {
        assert(bytes.skip(0) == bytes);
    }
}

/// Reads an atom's number, if it fits a machine word.
pub fn atom_to_u64(bytes: &Vec<u8>) -> (r: Option<u64>)
    ensures
        match r {
            Some(n) => n as nat == KernelValue::atom_nat(bytes@),
            None => KernelValue::atom_nat(bytes@) > u64::MAX,
        },
{
    let n = bytes.len();
    let mut acc: u128 = 0;
    let mut i: usize = n;
    proof {
        assert(bytes@.skip(n as int).len() == 0);
    }
    while i > 0
        invariant
            n == bytes@.len(),
            i <= n,
            acc == KernelValue::atom_nat(bytes@.skip(i as int)),
            acc <= u64::MAX,
        decreases i,
    {
        i -= 1;
        acc = acc * 256 + (bytes[i] as u128);
        proof {
            assert(bytes@.skip(i as int).drop_first() =~= bytes@.skip(i + 1));
            assert(bytes@.skip(i as int)[0] == bytes@[i as int]);
        }
        if acc > u64::MAX as u128 {
            proof {
                lemma_atom_nat_skip_le(bytes@, i as int);
            }
            return None;
        }
    }
    proof {
        assert(bytes@.skip(0) == bytes@);
    }
    Some(acc as u64)
}

/// `s` with every zero byte removed.
pub open spec fn strip_nul(s: Seq<u8>) -> Seq<u8>
    decreases s.len(),
{
    if s.len() == 0 {
        s
    } else if s[0] == 0 {
        strip_nul(s.drop_first())
    } else {
        seq![s[0]] + strip_nul(s.drop_first())
    }
}

proof fn lemma_strip_nul_unfold(s: Seq<u8>, i: int)
    requires
        0 <= i < s.len(),
    ensures
        s[i] == 0 ==> strip_nul(s.skip(i)) == strip_nul(s.skip(i + 1)),
        s[i] != 0 ==> strip_nul(s.skip(i)) == seq![s[i]] + strip_nul(s.skip(i + 1)),
{
    assert(s.skip(i)[0] == s[i]);
    assert(s.skip(i).drop_first() =~= s.skip(i + 1));
}

/// Removes every zero byte (the kernel pads text atoms with them).
pub fn strip_nul_bytes(bytes: &Vec<u8>) -> (r: Vec<u8>)
    ensures
        r@ == strip_nul(bytes@),
{
    let n = bytes.len();
    let mut out: Vec<u8> = Vec::new();
    let mut i: usize = 0;
    proof {
        assert(bytes@.skip(0) == bytes@);
    }
    while i < n
        invariant
            n == bytes@.len(),
            i <= n,
            out@ + strip_nul(bytes@.skip(i as int)) == strip_nul(bytes@),
        decreases n - i,
    {
        proof {
            lemma_strip_nul_unfold(bytes@, i as int);
        }
        if bytes[i] != 0 {
            out.push(bytes[i]);
        }
        i += 1;
    }
    proof {
        assert(bytes@.skip(n as int).len() == 0);
    }
    out
}

/// The prefix of `s` before its first zero byte (all of `s` when none).
pub open spec fn until_nul(s: Seq<u8>) -> Seq<u8>
    decreases s.len(),
{
    if s.len() == 0 {
        s
    } else if s[0] == 0 {
        Seq::empty()
    } else {
        seq![s[0]] + until_nul(s.drop_first())
    }
}

proof fn lemma_until_nul_prefix(s: Seq<u8>, k: int)
    requires
        0 <= k <= s.len(),
        forall|j: int| 0 <= j < k ==> s[j] != 0,
        k < s.len() ==> s[k] == 0,
    ensures
        until_nul(s) == s.take(k),
    decreases k,
{
    if s.len() == 0 {
        assert(s.take(0) == s);
    } else if k == 0 {
        assert(s[0] == 0);
        assert(s.take(0) =~= Seq::<u8>::empty());
    } else {
        assert(s[0] != 0);
        assert(s.drop_first() == s.skip(1));
        assert forall|j: int| 0 <= j < k - 1 implies s.skip(1)[j] != 0 by {
            assert(s.skip(1)[j] == s[j + 1]);
        }
        if k - 1 < s.skip(1).len() {
            assert(s.skip(1)[k - 1] == s[k]);
        }
        lemma_until_nul_prefix(s.skip(1), k - 1);
        assert(seq![s[0]] + s.skip(1).take(k - 1) =~= s.take(k));
    }
}

/// The bytes of a text atom up to its zero-byte padding.
pub fn atom_text_bytes(bytes: &Vec<u8>) -> (r: Vec<u8>)
    ensures
        r@ == until_nul(bytes@),
{
    let n = bytes.len();
    let mut k: usize = 0;
    while k < n && bytes[k] != 0
        invariant
            n == bytes@.len(),
            k <= n,
            forall|j: int| 0 <= j < k ==> bytes@[j] != 0,
        decreases n - k,
    {
        k += 1;
    }
    proof {
        lemma_until_nul_prefix(bytes@, k as int);
    }
    let mut out: Vec<u8> = Vec::new();
    let mut i: usize = 0;
    while i < k
        invariant
            i <= k <= bytes@.len(),
            out@ == bytes@.take(k as int).take(i as int),
        decreases k - i,
    {
        out.push(bytes[i]);
        proof {
            assert(bytes@.take(k as int).take(i + 1) =~= bytes@.take(k as int).take(
                i as int,
            ).push(bytes@[i as int]));
        }
        i += 1;
    }
    proof {
        assert(bytes@.take(k as int).take(k as int) =~= bytes@.take(k as int));
    }
    out
}

/// Relies on `String::from_utf8`: it succeeds exactly on valid UTF-8
/// and decodes it; the bytes of the result are the input.
#[verifier::external_body]
pub fn bytes_to_string(bytes: Vec<u8>) -> (r: Option<String>)
    ensures
        r is Some <==> valid_utf8(bytes@),
        r matches Some(s) ==> s@ == decode_utf8(bytes@),
{
    String::from_utf8(bytes).ok()
}

/// ASCII whitespace, as the kernel's seed phrase separates words.
pub open spec fn is_ws_byte(b: u8) -> bool {
    b == 32 || b == 9 || b == 10 || b == 13
}

/// The length of the run of non-whitespace bytes at the front of `s`.
pub open spec fn word_len(s: Seq<u8>) -> nat
    decreases s.len(),
{
    if s.len() == 0 || is_ws_byte(s[0]) {
        0
    } else {
        1 + word_len(s.drop_first())
    }
}

/// The maximal runs of non-whitespace bytes of `s`, in order.
pub open spec fn split_ws(s: Seq<u8>) -> Seq<Seq<u8>>
    decreases s.len(),
    via split_ws_decreases
{
    if s.len() == 0 {
        Seq::empty()
    } else if is_ws_byte(s[0]) {
        split_ws(s.drop_first())
    } else {
        seq![s.take(word_len(s) as int)] + split_ws(s.skip(word_len(s) as int))
    }
}

proof fn lemma_word_len_le(s: Seq<u8>)
    ensures
        word_len(s) <= s.len(),
    decreases s.len(),
{
    if s.len() > 0 && !is_ws_byte(s[0]) {
        lemma_word_len_le(s.drop_first());
    }
}

#[via_fn]
proof fn split_ws_decreases(s: Seq<u8>) {
    if s.len() > 0 && !is_ws_byte(s[0]) {
        assert(word_len(s) >= 1);
        lemma_word_len_le(s);
    }
}

proof fn lemma_word_len(s: Seq<u8>, k: int)
    requires
        0 <= k <= s.len(),
        forall|j: int| 0 <= j < k ==> !is_ws_byte(#[trigger] s[j]),
        k < s.len() ==> is_ws_byte(s[k]),
    ensures
        word_len(s) == k,
    decreases k,
{
    if k == 0 {
    } else {
        assert(!is_ws_byte(s[0]));
        assert(s.drop_first() == s.skip(1));
        assert forall|j: int| 0 <= j < k - 1 implies !is_ws_byte(#[trigger] s.skip(1)[j]) by {
            assert(s.skip(1)[j] == s[j + 1]);
        }
        if k - 1 < s.skip(1).len() {
            assert(s.skip(1)[k - 1] == s[k]);
        }
        lemma_word_len(s.skip(1), k - 1);
    }
}

fn ws_byte(b: u8) -> (r: bool)
    ensures
        r == is_ws_byte(b),
{
    b == 32 || b == 9 || b == 10 || b == 13
}

/// Splits on ASCII whitespace, dropping empty runs.
pub fn split_ws_bytes(bytes: &Vec<u8>) -> (r: Vec<Vec<u8>>)
    ensures
        r@.map_values(|w: Vec<u8>| w@) == split_ws(bytes@),
{
    let n = bytes.len();
    let mut words: Vec<Vec<u8>> = Vec::new();
    let mut i: usize = 0;
    proof {
        assert(bytes@.skip(0) == bytes@);
        assert(words@.map_values(|w: Vec<u8>| w@) =~= Seq::<Seq<u8>>::empty());
    }
    while i < n
        invariant
            n == bytes@.len(),
            i <= n,
            words@.map_values(|w: Vec<u8>| w@) + split_ws(bytes@.skip(i as int)) == split_ws(
                bytes@,
            ),
        decreases n - i,
    {
        let ghost rest = bytes@.skip(i as int);
        if ws_byte(bytes[i]) {
            proof {
                assert(rest[0] == bytes@[i as int]);
                assert(rest.drop_first() =~= bytes@.skip(i + 1));
            }
            i += 1;
        } else {
            let start = i;
            let mut word: Vec<u8> = Vec::new();
            while i < n && !ws_byte(bytes[i])
                invariant
                    n == bytes@.len(),
                    start <= i <= n,
                    forall|j: int| start <= j < i ==> !is_ws_byte(#[trigger] bytes@[j]),
                    word@ == bytes@.skip(start as int).take(i - start),
                decreases n - i,
            {
                word.push(bytes[i]);
                proof {
                    assert(bytes@.skip(start as int).take(i - start + 1) =~= bytes@.skip(
                        start as int,
                    ).take(i - start).push(bytes@[i as int]));
                }
                i += 1;
            }
            proof {
                let t = bytes@.skip(start as int);
                assert forall|j: int| 0 <= j < i - start implies !is_ws_byte(#[trigger] t[j]) by {
                    assert(t[j] == bytes@[start + j]);
                }
                if i < n {
                    assert(t[i - start] == bytes@[i as int]);
                }
                lemma_word_len(t, i - start);
                assert(rest[0] == bytes@[start as int]);
                assert(!is_ws_byte(t[0]));
                assert(split_ws(t) == seq![t.take(word_len(t) as int)] + split_ws(
                    t.skip(word_len(t) as int),
                ));
                assert(t.skip(i - start) =~= bytes@.skip(i as int));
                let ghost prev = words@.map_values(|w: Vec<u8>| w@);
                assert(prev.push(word@) =~= prev + seq![t.take(i - start)]);
            }
            let ghost prevw = words@;
            words.push(word);
            proof {
                assert(words@.map_values(|w: Vec<u8>| w@) =~= prevw.map_values(
                    |w: Vec<u8>| w@,
                ).push(words@.last()@));
            }
        }
    }
    proof {
        assert(bytes@.skip(n as int).len() == 0);
    }
    words
}

} // verus!
