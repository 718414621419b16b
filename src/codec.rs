//! The byte form in which the host hands over the entity snapshots of a tick:
//! a CBOR array of maps, each field under its name, in a fixed order, every
//! length and number in its shortest form.
use vstd::prelude::*;
use vstd::utf8::*;

use crate::records::{
    entities_view, items_view, strings_view, BlockPos, EntityView, ItemView, ScriptableBlockEntity,
    ScriptableItem,
};

verus! {

/// `n` as `k` bytes, most significant first.
pub open spec fn be_bytes(n: nat, k: nat) -> Seq<u8>
    decreases k,
{
    if k == 0 {
        Seq::empty()
    } else {
        be_bytes(n / 256, (k - 1) as nat).push((n % 256) as u8)
    }
}

/// The number that bytes stand for, most significant first.
pub open spec fn be_value(s: Seq<u8>) -> nat
    decreases s.len(),
{
    if s.len() == 0 {
        0
    } else {
        be_value(s.drop_last()) * 256 + s.last() as nat
    }
}

pub open spec fn pow256(k: nat) -> nat
    decreases k,
{
    if k == 0 {
        1
    } else {
        256 * pow256((k - 1) as nat)
    }
}

/// The head of a data item: its major type and its argument, the argument
/// in the fewest bytes that hold it.
pub open spec fn head(major: nat, n: nat) -> Seq<u8> {
    if n < 24 {
        seq![(major * 32 + n) as u8]
    } else if n < 0x100 {
        seq![(major * 32 + 24) as u8] + be_bytes(n, 1)
    } else if n < 0x1_0000 {
        seq![(major * 32 + 25) as u8] + be_bytes(n, 2)
    } else if n < 0x1_0000_0000 {
        seq![(major * 32 + 26) as u8] + be_bytes(n, 4)
    } else {
        seq![(major * 32 + 27) as u8] + be_bytes(n, 8)
    }
}

/// `part` stands in `s` from `pos` on.
pub open spec fn is_prefix_at(s: Seq<u8>, pos: int, part: Seq<u8>) -> bool {
    0 <= pos && pos + part.len() <= s.len() && s.subrange(pos, pos + part.len()) == part
}

proof fn lemma_be_len(n: nat, k: nat)
    ensures
        be_bytes(n, k).len() == k,
    decreases k,
{
    if k > 0 {
        lemma_be_len(n / 256, (k - 1) as nat);
    }
}

proof fn lemma_be_value_bound(s: Seq<u8>)
    ensures
        be_value(s) < pow256(s.len()),
    decreases s.len(),
{
    if s.len() > 0 {
        lemma_be_value_bound(s.drop_last());
        let a = be_value(s.drop_last());
        let p = pow256((s.len() - 1) as nat);
        let b = s.last() as nat;
        assert(a * 256 + b < 256 * p) by (nonlinear_arith)
            requires
                a < p,
                b < 256,
        ;
    }
}

proof fn lemma_be_roundtrip(n: nat, k: nat)
    requires
        n < pow256(k),
    ensures
        be_value(be_bytes(n, k)) == n,
    decreases k,
{
    if k > 0 {
        let p = pow256((k - 1) as nat);
        assert(n / 256 < p) by (nonlinear_arith)
            requires
                n < 256 * p,
        ;
        lemma_be_roundtrip(n / 256, (k - 1) as nat);
        let s = be_bytes(n, k);
        assert(s.drop_last() == be_bytes(n / 256, (k - 1) as nat));
        assert((n / 256) * 256 + n % 256 == n) by (nonlinear_arith);
    }
}

proof fn lemma_be_of_value(s: Seq<u8>)
    ensures
        be_bytes(be_value(s), s.len()) == s,
    decreases s.len(),
{
    if s.len() > 0 {
        let v = be_value(s);
        let a = be_value(s.drop_last());
        let b = s.last() as nat;
        assert(v / 256 == a && v % 256 == b) by (nonlinear_arith)
            requires
                v == a * 256 + b,
                b < 256,
        ;
        lemma_be_of_value(s.drop_last());
        assert(be_bytes(v, s.len()) =~= s);
    }
}

proof fn lemma_pow256_values()
    ensures
        pow256(1) == 0x100,
        pow256(2) == 0x1_0000,
        pow256(4) == 0x1_0000_0000,
        pow256(8) == 0x1_0000_0000_0000_0000,
{
    reveal_with_fuel(pow256, 9);
}

proof fn lemma_pow256_monotone(i: nat, k: nat)
    requires
        i <= k,
    ensures
        pow256(i) <= pow256(k),
    decreases k,
{
    if i < k {
        lemma_pow256_monotone(i, (k - 1) as nat);
    }
}

proof fn lemma_prefix_split(s: Seq<u8>, pos: int, a: Seq<u8>, b: Seq<u8>)
    requires
        is_prefix_at(s, pos, a + b),
    ensures
        is_prefix_at(s, pos, a),
        is_prefix_at(s, pos + a.len(), b),
{
    let ab = a + b;
    let whole = s.subrange(pos, pos + ab.len());
    assert(whole == ab);
    assert(s.subrange(pos, pos + a.len()) =~= whole.subrange(0, a.len() as int));
    assert(a =~= ab.subrange(0, a.len() as int));
    assert(s.subrange(pos + a.len(), pos + a.len() + b.len()) =~= whole.subrange(
        a.len() as int,
        ab.len() as int,
    ));
    assert(b =~= ab.subrange(a.len() as int, ab.len() as int));
}

proof fn lemma_subrange_join(s: Seq<u8>, i: int, j: int, k: int)
    requires
        0 <= i <= j <= k <= s.len(),
    ensures
        s.subrange(i, k) == s.subrange(i, j) + s.subrange(j, k),
{
    assert(s.subrange(i, k) =~= s.subrange(i, j) + s.subrange(j, k));
}

fn push_be(out: &mut Vec<u8>, n: u64, k: usize)
    ensures
        final(out)@ == old(out)@ + be_bytes(n as nat, k as nat),
    decreases k,
{
    if k > 0 {
        push_be(out, n / 256, k - 1);
        out.push((n % 256) as u8);
        assert(final(out)@ =~= old(out)@ + be_bytes(n as nat, k as nat));
    } else {
        assert(final(out)@ =~= old(out)@ + be_bytes(n as nat, k as nat));
    }
}

/// Appends the head of an item of type `major` with argument `n`.
fn push_head(out: &mut Vec<u8>, major: u8, n: u64)
    requires
        major < 8,
    ensures
        final(out)@ == old(out)@ + head(major as nat, n as nat),
{
    let base: u8 = major * 32;
    if n < 24 {
        out.push(base + n as u8);
        assert(final(out)@ =~= old(out)@ + head(major as nat, n as nat));
    } else if n < 0x100 {
        out.push(base + 24);
        push_be(out, n, 1);
        assert(final(out)@ =~= old(out)@ + head(major as nat, n as nat));
    } else if n < 0x1_0000 {
        out.push(base + 25);
        push_be(out, n, 2);
        assert(final(out)@ =~= old(out)@ + head(major as nat, n as nat));
    } else if n < 0x1_0000_0000 {
        out.push(base + 26);
        push_be(out, n, 4);
        assert(final(out)@ =~= old(out)@ + head(major as nat, n as nat));
    } else {
        out.push(base + 27);
        push_be(out, n, 8);
        assert(final(out)@ =~= old(out)@ + head(major as nat, n as nat));
    }
}

fn read_be(input: &[u8], start: usize, k: usize) -> (r: u64)
    requires
        k <= 8,
        start + k <= input@.len(),
    ensures
        r as nat == be_value(input@.subrange(start as int, start + k)),
{
    let mut v: u64 = 0;
    let mut i: usize = 0;
    let len = input.len();
    proof {
        lemma_pow256_values();
    }
    while i < k
        invariant
            i <= k <= 8,
            start + k <= input@.len(),
            input@.len() == len,
            v as nat == be_value(input@.subrange(start as int, start + i)),
            pow256(8) == 0x1_0000_0000_0000_0000,
        decreases k - i,
    {
        let b = input[start + i];
        proof {
            let s = input@.subrange(start as int, start + i);
            lemma_be_value_bound(s);
            lemma_pow256_monotone(i as nat, 7);
            assert(pow256(8) == 256 * pow256(7));
            let p = pow256(i as nat);
            let q = pow256(7);
            assert((v as nat) * 256 + (b as nat) < 0x1_0000_0000_0000_0000) by (nonlinear_arith)
                requires
                    v < p,
                    p <= q,
                    256 * q == 0x1_0000_0000_0000_0000,
                    b < 256,
            ;
            assert(input@.subrange(start as int, start + i + 1).drop_last() =~= s);
        }
        v = v * 256 + b as u64;
        i = i + 1;
    }
    v
}

/// The low five bits of the first byte of `head(_, n)`.
pub open spec fn head_info(n: nat) -> nat {
    if n < 24 {
        n
    } else if n < 0x100 {
        24
    } else if n < 0x1_0000 {
        25
    } else if n < 0x1_0000_0000 {
        26
    } else {
        27
    }
}

/// How many bytes follow the first byte of `head(_, n)`.
pub open spec fn head_width(n: nat) -> nat {
    if n < 24 {
        0
    } else if n < 0x100 {
        1
    } else if n < 0x1_0000 {
        2
    } else if n < 0x1_0000_0000 {
        4
    } else {
        8
    }
}

proof fn lemma_head_prefix(s: Seq<u8>, pos: int, m: nat, n: nat)
    requires
        m < 8,
        n <= u64::MAX,
        is_prefix_at(s, pos, head(m, n)),
    ensures
        pos < s.len(),
        s[pos] / 32 == m,
        s[pos] % 32 == head_info(n),
        head(m, n).len() == 1 + head_width(n),
        pos + 1 + head_width(n) <= s.len(),
        head_width(n) == 0 ==> n == head_info(n),
        head_width(n) > 0 ==> be_value(s.subrange(pos + 1, pos + 1 + head_width(n))) == n,
{
    let h = head(m, n);
    let w = head_width(n);
    let x = head_info(n);
    lemma_be_len(n, w);
    lemma_pow256_values();
    assert(h.len() == 1 + w);
    assert(h[0] == (m * 32 + x) as u8);
    assert(s[pos] == h[0]) by {
        assert(s.subrange(pos, pos + h.len())[0] == s[pos]);
    }
    assert(m * 32 + x < 256);
    assert((m * 32 + x) / 32 == m && (m * 32 + x) % 32 == x) by (nonlinear_arith)
        requires
            x < 32,
    ;
    if w > 0 {
        assert(s.subrange(pos + 1, pos + 1 + w) =~= h.subrange(1, 1 + w as int));
        assert(h.subrange(1, 1 + w as int) =~= be_bytes(n, w));
        lemma_be_roundtrip(n, w);
    }
}

/// Reads the head of the item at `pos`: its major type, its argument, and
/// where the item's content starts. Only the shortest form is accepted.
fn read_head(input: &[u8], pos: usize) -> (r: Option<(u8, u64, usize)>)
    ensures
        r matches Some((m, n, next)) ==> m < 8 && pos < next <= input@.len()
            && input@.subrange(pos as int, next as int) == head(m as nat, n as nat),
        forall|m: nat, n: nat|
            #![trigger is_prefix_at(input@, pos as int, head(m, n))]
            m < 8 && n <= u64::MAX && is_prefix_at(input@, pos as int, head(m, n)) ==> r == Some(
                (m as u8, n as u64, (pos + head(m, n).len()) as usize),
            ),
{
    proof {
        lemma_pow256_values();
        assert forall|m: nat, n: nat|
            m < 8 && n <= u64::MAX && is_prefix_at(
                input@,
                pos as int,
                #[trigger] head(m, n),
            ) implies pos < input@.len() by {
            lemma_head_prefix(input@, pos as int, m, n);
        }
    }
    if pos >= input.len() {
        return None;
    }
    let b = input[pos];
    let major = b / 32;
    let info = b % 32;
    let r = if info < 24 {
        assert(input@.subrange(pos as int, pos + 1) =~= head(major as nat, info as nat));
        Some((major, info as u64, pos + 1))
    } else if info > 27 {
        None
    } else {
        let k: usize = if info == 24 {
            1
        } else if info == 25 {
            2
        } else if info == 26 {
            4
        } else {
            8
        };
        if input.len() - (pos + 1) < k {
            None
        } else {
            let n = read_be(input, pos + 1, k);
            let least: u64 = if k == 1 {
                24
            } else if k == 2 {
                0x100
            } else if k == 4 {
                0x1_0000
            } else {
                0x1_0000_0000
            };
            if n < least {
                None
            } else {
                proof {
                    let body = input@.subrange(pos + 1, pos + 1 + k);
                    lemma_be_of_value(body);
                    lemma_be_value_bound(body);
                    lemma_subrange_join(input@, pos as int, pos + 1, pos + 1 + k);
                    assert(input@.subrange(pos as int, pos + 1) =~= seq![b]);
                    assert(input@.subrange(pos as int, pos + 1 + k) == head(major as nat, n as nat));
                }
                Some((major, n, pos + 1 + k))
            }
        }
    };
    proof {
        assert forall|m: nat, n: nat|
            m < 8 && n <= u64::MAX && is_prefix_at(
                input@,
                pos as int,
                #[trigger] head(m, n),
            ) implies r == Some((m as u8, n as u64, (pos + head(m, n).len()) as usize)) by {
            lemma_head_prefix(input@, pos as int, m, n);
        }
    }
    r
}

/// A text string: its UTF-8 length, then its UTF-8 bytes.
pub open spec fn enc_text(t: Seq<char>) -> Seq<u8> {
    head(3, encode_utf8(t).len()) + encode_utf8(t)
}

/// A whole number in the fewest bytes that hold it.
pub open spec fn enc_int(v: int) -> Seq<u8> {
    if v >= 0 {
        head(0, v as nat)
    } else {
        head(1, (-1 - v) as nat)
    }
}

/// A text whose length a head can carry.
pub open spec fn text_fits(t: Seq<char>) -> bool {
    encode_utf8(t).len() <= u64::MAX
}

/// Relies on `String::from_utf8`: it accepts exactly the valid UTF-8 byte
/// sequences, and the string it returns is made of those bytes.
#[verifier::external_body]
fn string_from_utf8(bytes: Vec<u8>) -> (r: Option<String>)
    ensures
        r is Some <==> valid_utf8(bytes@),
        r matches Some(s) ==> encode_utf8(s@) == bytes@,
{
    String::from_utf8(bytes).ok()
}

fn push_text(out: &mut Vec<u8>, t: &str)
    ensures
        final(out)@ == old(out)@ + enc_text(t@),
        text_fits(t@),
{
    let b = t.as_bytes();
    push_head(out, 3, b.len() as u64);
    let ghost mid = out@;
    let mut i: usize = 0;
    while i < b.len()
        invariant
            i <= b@.len(),
            out@ == mid + b@.subrange(0, i as int),
        decreases b@.len() - i,
    {
        out.push(b[i]);
        i = i + 1;
        assert(out@ =~= mid + b@.subrange(0, i as int));
    }
    assert(b@.subrange(0, b@.len() as int) =~= b@);
}

fn push_u32(out: &mut Vec<u8>, v: u32)
    ensures
        final(out)@ == old(out)@ + enc_int(v as int),
{
    push_head(out, 0, v as u64);
}

fn push_i32(out: &mut Vec<u8>, v: i32)
    ensures
        final(out)@ == old(out)@ + enc_int(v as int),
{
    if v >= 0 {
        push_head(out, 0, v as u64);
    } else {
        let n: i64 = -1 - (v as i64);
        push_head(out, 1, n as u64);
    }
}

/// The bytes of `t` as a text item.
fn text_bytes(t: &str) -> (r: Vec<u8>)
    ensures
        r@ == enc_text(t@),
{
    let mut r: Vec<u8> = Vec::new();
    push_text(&mut r, t);
    assert(r@ =~= enc_text(t@));
    r
}

/// Where `expected` ends, if it stands in `input` from `pos` on.
fn expect_bytes(input: &[u8], pos: usize, expected: &Vec<u8>) -> (r: Option<usize>)
    ensures
        r is Some <==> is_prefix_at(input@, pos as int, expected@),
        r matches Some(q) ==> q == pos + expected@.len(),
{
    if pos > input.len() || input.len() - pos < expected.len() {
        return None;
    }
    let len = input.len();
    let mut i: usize = 0;
    while i < expected.len()
        invariant
            pos + expected@.len() <= input@.len(),
            input@.len() == len,
            i <= expected@.len(),
            forall|j: int| 0 <= j < i ==> input@[pos + j] == expected@[j],
        decreases expected@.len() - i,
    {
        if input[pos + i] != expected[i] {
            assert(input@.subrange(pos as int, pos + expected@.len())[i as int] != expected@[i as int]);
            return None;
        }
        i = i + 1;
    }
    assert(input@.subrange(pos as int, pos + expected@.len()) =~= expected@);
    Some(pos + expected.len())
}

fn read_text(input: &[u8], pos: usize) -> (r: Option<(String, usize)>)
    ensures
        r matches Some((t, next)) ==> pos <= next <= input@.len()
            && input@.subrange(pos as int, next as int) == enc_text(t@),
        forall|t: Seq<char>|
            #![trigger is_prefix_at(input@, pos as int, enc_text(t))]
            text_fits(t) && is_prefix_at(input@, pos as int, enc_text(t)) ==> (r matches Some(
                (s, next),
            ) && s@ == t && next == pos + enc_text(t).len()),
{
    proof {
        assert forall|t: Seq<char>|
            text_fits(t) && #[trigger] is_prefix_at(
                input@,
                pos as int,
                enc_text(t),
            ) implies is_prefix_at(input@, pos as int, head(3, encode_utf8(t).len()))
            && is_prefix_at(
                input@,
                pos + head(3, encode_utf8(t).len()).len(),
                encode_utf8(t),
            ) by {
            lemma_prefix_split(input@, pos as int, head(3, encode_utf8(t).len()), encode_utf8(t));
        }
    }
    let (m, n, start) = match read_head(input, pos) {
        Some(h) => h,
        None => {
            return None;
        },
    };
    if m != 3 || n > (input.len() - start) as u64 {
        return None;
    }
    let end = start + n as usize;
    let mut bytes: Vec<u8> = Vec::new();
    let mut i = start;
    while i < end
        invariant
            start <= i <= end <= input@.len(),
            bytes@ == input@.subrange(start as int, i as int),
        decreases end - i,
    {
        bytes.push(input[i]);
        i = i + 1;
        assert(bytes@ =~= input@.subrange(start as int, i as int));
    }
    let ghost body = bytes@;
    let t = match string_from_utf8(bytes) {
        Some(t) => t,
        None => {
            proof {
                assert forall|u: Seq<char>|
                    text_fits(u) && #[trigger] is_prefix_at(
                        input@,
                        pos as int,
                        enc_text(u),
                    ) implies false by {
                    encode_utf8_valid_utf8(u);
                }
            }
            return None;
        },
    };
    proof {
        lemma_subrange_join(input@, pos as int, start as int, end as int);
        assert forall|u: Seq<char>|
            text_fits(u) && #[trigger] is_prefix_at(input@, pos as int, enc_text(u)) implies t@ == u
            && end == pos + enc_text(u).len() by {
            encode_utf8_decode_utf8(u);
            encode_utf8_decode_utf8(t@);
        }
    }
    Some((t, end))
}

fn read_u32(input: &[u8], pos: usize) -> (r: Option<(u32, usize)>)
    ensures
        r matches Some((v, next)) ==> pos <= next <= input@.len()
            && input@.subrange(pos as int, next as int) == enc_int(v as int),
        forall|v: u32|
            #![trigger is_prefix_at(input@, pos as int, enc_int(v as int))]
            is_prefix_at(input@, pos as int, enc_int(v as int)) ==> r == Some(
                (v, (pos + enc_int(v as int).len()) as usize),
            ),
{
    match read_head(input, pos) {
        Some((m, n, next)) => {
            if m == 0 && n <= u32::MAX as u64 {
                Some((n as u32, next))
            } else {
                None
            }
        },
        None => None,
    }
}

fn read_i32(input: &[u8], pos: usize) -> (r: Option<(i32, usize)>)
    ensures
        r matches Some((v, next)) ==> pos <= next <= input@.len()
            && input@.subrange(pos as int, next as int) == enc_int(v as int),
        forall|v: i32|
            #![trigger is_prefix_at(input@, pos as int, enc_int(v as int))]
            is_prefix_at(input@, pos as int, enc_int(v as int)) ==> r == Some(
                (v, (pos + enc_int(v as int).len()) as usize),
            ),
{
    match read_head(input, pos) {
        Some((m, n, next)) => {
            if m == 0 && n <= i32::MAX as u64 {
                Some((n as i32, next))
            } else if m == 1 && n <= i32::MAX as u64 {
                Some((-1 - (n as i32), next))
            } else {
                None
            }
        },
        None => None,
    }
}

/// Text items one after another.
pub open spec fn enc_text_run(ts: Seq<Seq<char>>) -> Seq<u8>
    decreases ts.len(),
{
    if ts.len() == 0 {
        Seq::empty()
    } else {
        enc_text_run(ts.drop_last()) + enc_text(ts.last())
    }
}

/// An array of text items.
#[verifier::opaque]
pub open spec fn enc_texts(ts: Seq<Seq<char>>) -> Seq<u8> {
    head(4, ts.len()) + enc_text_run(ts)
}

pub open spec fn texts_fit(ts: Seq<Seq<char>>) -> bool {
    ts.len() <= u64::MAX && forall|i: int| 0 <= i < ts.len() ==> text_fits(#[trigger] ts[i])
}

proof fn lemma_text_run_prefix(s: Seq<u8>, pos: int, ts: Seq<Seq<char>>, i: int)
    requires
        0 <= i <= ts.len(),
        is_prefix_at(s, pos, enc_text_run(ts)),
    ensures
        is_prefix_at(s, pos, enc_text_run(ts.take(i))),
    decreases ts.len(),
{
    if i < ts.len() {
        lemma_prefix_split(s, pos, enc_text_run(ts.drop_last()), enc_text(ts.last()));
        lemma_text_run_prefix(s, pos, ts.drop_last(), i);
        assert(ts.drop_last().take(i) =~= ts.take(i));
    } else {
        assert(ts.take(i) =~= ts);
    }
}

fn read_texts(input: &[u8], pos: usize) -> (r: Option<(Vec<String>, usize)>)
    ensures
        r matches Some((v, next)) ==> pos <= next <= input@.len()
            && input@.subrange(pos as int, next as int) == enc_texts(strings_view(v@)),
        forall|ts: Seq<Seq<char>>|
            #![trigger is_prefix_at(input@, pos as int, enc_texts(ts))]
            texts_fit(ts) && is_prefix_at(input@, pos as int, enc_texts(ts)) ==> (r matches Some(
                (v, next),
            ) && strings_view(v@) == ts && next == pos + enc_texts(ts).len()),
{
    proof {
        reveal(enc_texts);
    }
    let (m, n, start) = match read_head(input, pos) {
        Some(h) => h,
        None => {
            proof {
                assert forall|ts: Seq<Seq<char>>|
                    texts_fit(ts) && #[trigger] is_prefix_at(
                        input@,
                        pos as int,
                        enc_texts(ts),
                    ) implies false by {
                    lemma_prefix_split(input@, pos as int, head(4, ts.len()), enc_text_run(ts));
                }
            }
            return None;
        },
    };
    proof {
        assert forall|ts: Seq<Seq<char>>|
            texts_fit(ts) && #[trigger] is_prefix_at(
                input@,
                pos as int,
                enc_texts(ts),
            ) implies m == 4 && n == ts.len() && start == pos + head(4, ts.len()).len()
            && is_prefix_at(input@, start as int, enc_text_run(ts)) by {
            lemma_prefix_split(input@, pos as int, head(4, ts.len()), enc_text_run(ts));
        }
    }
    if m != 4 {
        return None;
    }
    let mut out: Vec<String> = Vec::new();
    let mut p = start;
    let mut i: u64 = 0;
    while i < n
        invariant
            pos < start <= p <= input@.len(),
            i <= n,
            out@.len() == i,
            input@.subrange(pos as int, start as int) == head(4, n as nat),
            input@.subrange(start as int, p as int) == enc_text_run(strings_view(out@)),
            forall|ts: Seq<Seq<char>>|
                texts_fit(ts) && #[trigger] is_prefix_at(input@, pos as int, enc_texts(ts))
                    ==> n == ts.len() && start == pos + head(4, ts.len()).len() && is_prefix_at(
                    input@,
                    start as int,
                    enc_text_run(ts),
                ) && strings_view(out@) == ts.take(i as int),
        decreases n - i,
    {
        proof {
            assert forall|ts: Seq<Seq<char>>|
                texts_fit(ts) && #[trigger] is_prefix_at(
                    input@,
                    pos as int,
                    enc_texts(ts),
                ) implies is_prefix_at(input@, p as int, enc_text(ts[i as int])) && text_fits(
                ts[i as int],
            ) by {
                lemma_text_run_prefix(input@, start as int, ts, i + 1);
                let pre = ts.take(i as int);
                assert(ts.take(i + 1).drop_last() =~= pre);
                lemma_prefix_split(input@, start as int, enc_text_run(pre), enc_text(ts[i as int]));
            }
        }
        let (t, q) = match read_text(input, p) {
            Some(x) => x,
            None => {
                proof {
                    assert forall|ts: Seq<Seq<char>>|
                        texts_fit(ts) && #[trigger] is_prefix_at(
                            input@,
                            pos as int,
                            enc_texts(ts),
                        ) implies false by {
                        assert(is_prefix_at(input@, p as int, enc_text(ts[i as int])));
                    }
                }
                return None;
            },
        };
        let ghost before = out@;
        out.push(t);
        proof {
            lemma_subrange_join(input@, start as int, p as int, q as int);
            assert(out@.drop_last() =~= before);
            assert(strings_view(out@).drop_last() =~= strings_view(before));
            assert forall|ts: Seq<Seq<char>>|
                texts_fit(ts) && #[trigger] is_prefix_at(
                    input@,
                    pos as int,
                    enc_texts(ts),
                ) implies strings_view(out@) == ts.take(i + 1) by {
                assert(is_prefix_at(input@, p as int, enc_text(ts[i as int])));
                assert(strings_view(out@) =~= ts.take(i + 1));
            }
        }
        p = q;
        i = i + 1;
    }
    proof {
        lemma_subrange_join(input@, pos as int, start as int, p as int);
        assert forall|ts: Seq<Seq<char>>|
            texts_fit(ts) && #[trigger] is_prefix_at(
                input@,
                pos as int,
                enc_texts(ts),
            ) implies strings_view(out@) == ts && p == pos + enc_texts(ts).len() by {
            assert(ts.take(ts.len() as int) =~= ts);
        }
    }
    Some((out, p))
}

fn push_texts(out: &mut Vec<u8>, ts: &Vec<String>)
    ensures
        final(out)@ == old(out)@ + enc_texts(strings_view(ts@)),
        texts_fit(strings_view(ts@)),
{
    proof {
        reveal(enc_texts);
    }
    push_head(out, 4, ts.len() as u64);
    let ghost mid = out@;
    let mut i: usize = 0;
    while i < ts.len()
        invariant
            i <= ts@.len(),
            out@ == mid + enc_text_run(strings_view(ts@.take(i as int))),
            forall|j: int| 0 <= j < i ==> text_fits(#[trigger] ts@[j]@),
        decreases ts@.len() - i,
    {
        push_text(out, ts[i].as_str());
        proof {
            assert(strings_view(ts@.take(i + 1)).drop_last() =~= strings_view(ts@.take(i as int)));
        }
        i = i + 1;
        assert(out@ =~= mid + enc_text_run(strings_view(ts@.take(i as int))));
    }
    assert(ts@.take(ts@.len() as int) =~= ts@);
    assert(strings_view(ts@).len() == ts@.len());
}

/// Reads one field: its name, then its value.
fn read_field_i32(input: &[u8], pos: usize, key: &str) -> (r: Option<(i32, usize)>)
    ensures
        r matches Some((x, next)) ==> pos <= next <= input@.len()
            && input@.subrange(pos as int, next as int) == enc_text(key@) + enc_int(x as int),
        forall|v: i32|
            #![trigger is_prefix_at(input@, pos as int, enc_text(key@) + enc_int(v as int))]
            true && is_prefix_at(input@, pos as int, enc_text(key@) + enc_int(v as int)) ==> (r matches Some(
                (x, next),
            ) && x == v && next == pos + (enc_text(key@) + enc_int(v as int)).len()),
{
    let k = text_bytes(key);
    let p = match expect_bytes(input, pos, &k) {
        Some(q) => q,
        None => {
            proof {
                assert forall|v: i32|
                    true && #[trigger] is_prefix_at(
                        input@,
                        pos as int,
                        enc_text(key@) + enc_int(v as int),
                    ) implies false by {
                    lemma_prefix_split(input@, pos as int, enc_text(key@), enc_int(v as int));
                }
            }
            return None;
        },
    };
    proof {
        assert forall|v: i32|
            true && #[trigger] is_prefix_at(
                input@,
                pos as int,
                enc_text(key@) + enc_int(v as int),
            ) implies is_prefix_at(input@, p as int, enc_int(v as int)) by {
            lemma_prefix_split(input@, pos as int, enc_text(key@), enc_int(v as int));
        }
    }
    let (x, q) = match read_i32(input, p) {
        Some(t) => t,
        None => {
            return None;
        },
    };
    proof {
        lemma_subrange_join(input@, pos as int, p as int, q as int);
    }
    Some((x, q))
}

/// Reads one field: its name, then its value.
fn read_field_u32(input: &[u8], pos: usize, key: &str) -> (r: Option<(u32, usize)>)
    ensures
        r matches Some((x, next)) ==> pos <= next <= input@.len()
            && input@.subrange(pos as int, next as int) == enc_text(key@) + enc_int(x as int),
        forall|v: u32|
            #![trigger is_prefix_at(input@, pos as int, enc_text(key@) + enc_int(v as int))]
            true && is_prefix_at(input@, pos as int, enc_text(key@) + enc_int(v as int)) ==> (r matches Some(
                (x, next),
            ) && x == v && next == pos + (enc_text(key@) + enc_int(v as int)).len()),
{
    let k = text_bytes(key);
    let p = match expect_bytes(input, pos, &k) {
        Some(q) => q,
        None => {
            proof {
                assert forall|v: u32|
                    true && #[trigger] is_prefix_at(
                        input@,
                        pos as int,
                        enc_text(key@) + enc_int(v as int),
                    ) implies false by {
                    lemma_prefix_split(input@, pos as int, enc_text(key@), enc_int(v as int));
                }
            }
            return None;
        },
    };
    proof {
        assert forall|v: u32|
            true && #[trigger] is_prefix_at(
                input@,
                pos as int,
                enc_text(key@) + enc_int(v as int),
            ) implies is_prefix_at(input@, p as int, enc_int(v as int)) by {
            lemma_prefix_split(input@, pos as int, enc_text(key@), enc_int(v as int));
        }
    }
    let (x, q) = match read_u32(input, p) {
        Some(t) => t,
        None => {
            return None;
        },
    };
    proof {
        lemma_subrange_join(input@, pos as int, p as int, q as int);
    }
    Some((x, q))
}

/// Reads one field: its name, then its value.
fn read_field_text(input: &[u8], pos: usize, key: &str) -> (r: Option<(String, usize)>)
    ensures
        r matches Some((x, next)) ==> pos <= next <= input@.len()
            && input@.subrange(pos as int, next as int) == enc_text(key@) + enc_text(x@),
        forall|v: Seq<char>|
            #![trigger is_prefix_at(input@, pos as int, enc_text(key@) + enc_text(v))]
            text_fits(v) && is_prefix_at(input@, pos as int, enc_text(key@) + enc_text(v)) ==> (r matches Some(
                (x, next),
            ) && x@ == v && next == pos + (enc_text(key@) + enc_text(v)).len()),
{
    let k = text_bytes(key);
    let p = match expect_bytes(input, pos, &k) {
        Some(q) => q,
        None => {
            proof {
                assert forall|v: Seq<char>|
                    text_fits(v) && #[trigger] is_prefix_at(
                        input@,
                        pos as int,
                        enc_text(key@) + enc_text(v),
                    ) implies false by {
                    lemma_prefix_split(input@, pos as int, enc_text(key@), enc_text(v));
                }
            }
            return None;
        },
    };
    proof {
        assert forall|v: Seq<char>|
            text_fits(v) && #[trigger] is_prefix_at(
                input@,
                pos as int,
                enc_text(key@) + enc_text(v),
            ) implies is_prefix_at(input@, p as int, enc_text(v)) by {
            lemma_prefix_split(input@, pos as int, enc_text(key@), enc_text(v));
        }
    }
    let (x, q) = match read_text(input, p) {
        Some(t) => t,
        None => {
            return None;
        },
    };
    proof {
        lemma_subrange_join(input@, pos as int, p as int, q as int);
    }
    Some((x, q))
}

/// Reads one field: its name, then its value.
fn read_field_texts(input: &[u8], pos: usize, key: &str) -> (r: Option<(Vec<String>, usize)>)
    ensures
        r matches Some((x, next)) ==> pos <= next <= input@.len()
            && input@.subrange(pos as int, next as int) == enc_text(key@) + enc_texts(strings_view(x@)),
        forall|v: Seq<Seq<char>>|
            #![trigger is_prefix_at(input@, pos as int, enc_text(key@) + enc_texts(v))]
            texts_fit(v) && is_prefix_at(input@, pos as int, enc_text(key@) + enc_texts(v)) ==> (r matches Some(
                (x, next),
            ) && strings_view(x@) == v && next == pos + (enc_text(key@) + enc_texts(v)).len()),
{
    let k = text_bytes(key);
    let p = match expect_bytes(input, pos, &k) {
        Some(q) => q,
        None => {
            proof {
                assert forall|v: Seq<Seq<char>>|
                    texts_fit(v) && #[trigger] is_prefix_at(
                        input@,
                        pos as int,
                        enc_text(key@) + enc_texts(v),
                    ) implies false by {
                    lemma_prefix_split(input@, pos as int, enc_text(key@), enc_texts(v));
                }
            }
            return None;
        },
    };
    proof {
        assert forall|v: Seq<Seq<char>>|
            texts_fit(v) && #[trigger] is_prefix_at(
                input@,
                pos as int,
                enc_text(key@) + enc_texts(v),
            ) implies is_prefix_at(input@, p as int, enc_texts(v)) by {
            lemma_prefix_split(input@, pos as int, enc_text(key@), enc_texts(v));
        }
    }
    let (x, q) = match read_texts(input, p) {
        Some(t) => t,
        None => {
            return None;
        },
    };
    proof {
        lemma_subrange_join(input@, pos as int, p as int, q as int);
    }
    Some((x, q))
}

/// A block position: a map of its three coordinates.
#[verifier::opaque]
pub open spec fn enc_pos(v: BlockPos) -> Seq<u8> {
    head(5, 3) + (enc_text("x"@) + enc_int(v.x as int)) + (enc_text("y"@) + enc_int(v.y as int))
        + (enc_text("z"@) + enc_int(v.z as int))
}

pub open spec fn pos_fits(v: BlockPos) -> bool {
    true
}

proof fn lemma_enc_pos_layout(s: Seq<u8>, pos: int, v: BlockPos)
    requires
        is_prefix_at(s, pos, enc_pos(v)),
    ensures
        is_prefix_at(s, pos, head(5, 3)),
        is_prefix_at(s, pos + (head(5, 3)).len(), (enc_text("x"@) + enc_int(v.x as int))),
        is_prefix_at(s, pos + (head(5, 3) + (enc_text("x"@) + enc_int(v.x as int))).len(), (enc_text("y"@) + enc_int(v.y as int))),
        is_prefix_at(s, pos + (head(5, 3) + (enc_text("x"@) + enc_int(v.x as int)) + (enc_text("y"@) + enc_int(v.y as int))).len(), (enc_text("z"@) + enc_int(v.z as int))),
{
    reveal(enc_pos);
    lemma_prefix_split(s, pos, head(5, 3) + (enc_text("x"@) + enc_int(v.x as int)) + (enc_text("y"@) + enc_int(v.y as int)), (enc_text("z"@) + enc_int(v.z as int)));
    lemma_prefix_split(s, pos, head(5, 3) + (enc_text("x"@) + enc_int(v.x as int)), (enc_text("y"@) + enc_int(v.y as int)));
    lemma_prefix_split(s, pos, head(5, 3), (enc_text("x"@) + enc_int(v.x as int)));
}

#[verifier::spinoff_prover]
#[verifier::rlimit(100)]
fn read_pos(input: &[u8], pos: usize) -> (r: Option<(BlockPos, usize)>)
    ensures
        r matches Some((x, next)) ==> pos <= next <= input@.len()
            && input@.subrange(pos as int, next as int) == enc_pos(x@),
        forall|v: BlockPos|
            #![trigger is_prefix_at(input@, pos as int, enc_pos(v))]
            pos_fits(v) && is_prefix_at(input@, pos as int, enc_pos(v)) ==> (r matches Some((x, next))
                && x@ == v && next == pos + enc_pos(v).len()),
{
    proof {
        reveal(enc_pos);
    }
    let mut h: Vec<u8> = Vec::new();
    push_head(&mut h, 5, 3);
    assert(h@ =~= head(5, 3));
    let p0 = match expect_bytes(input, pos, &h) {
        Some(q) => q,
        None => {
            proof {
                assert forall|v: BlockPos|
                    pos_fits(v) && #[trigger] is_prefix_at(input@, pos as int, enc_pos(v)) implies false by {
                    lemma_enc_pos_layout(input@, pos as int, v);
                }
            }
            return None;
        },
    };
    assert(input@.subrange(pos as int, p0 as int) == head(5, 3));
    let (f_x, p1) = match read_field_i32(input, p0, "x") {
        Some(x) => x,
        None => {
            proof {
                assert forall|v: BlockPos|
                    pos_fits(v) && #[trigger] is_prefix_at(input@, pos as int, enc_pos(v)) implies false by {
                    lemma_enc_pos_layout(input@, pos as int, v);
                }
            }
            return None;
        },
    };
    proof {
        lemma_subrange_join(input@, pos as int, p0 as int, p1 as int);
    }
    let (f_y, p2) = match read_field_i32(input, p1, "y") {
        Some(x) => x,
        None => {
            proof {
                assert forall|v: BlockPos|
                    pos_fits(v) && #[trigger] is_prefix_at(input@, pos as int, enc_pos(v)) implies false by {
                    lemma_enc_pos_layout(input@, pos as int, v);
                }
            }
            return None;
        },
    };
    proof {
        lemma_subrange_join(input@, pos as int, p1 as int, p2 as int);
    }
    let (f_z, p3) = match read_field_i32(input, p2, "z") {
        Some(x) => x,
        None => {
            proof {
                assert forall|v: BlockPos|
                    pos_fits(v) && #[trigger] is_prefix_at(input@, pos as int, enc_pos(v)) implies false by {
                    lemma_enc_pos_layout(input@, pos as int, v);
                }
            }
            return None;
        },
    };
    proof {
        lemma_subrange_join(input@, pos as int, p2 as int, p3 as int);
    }
    let x = BlockPos { x: f_x, y: f_y, z: f_z };
    proof {
        assert forall|v: BlockPos|
            pos_fits(v) && #[trigger] is_prefix_at(input@, pos as int, enc_pos(v)) implies x@ == v
            && p3 == pos + enc_pos(v).len() by {
            lemma_enc_pos_layout(input@, pos as int, v);
        }
    }
    Some((x, p3))
}

fn push_pos(out: &mut Vec<u8>, x: &BlockPos)
    ensures
        final(out)@ == old(out)@ + enc_pos(x@),
        pos_fits(x@),
{
    proof {
        reveal(enc_pos);
    }
    push_head(out, 5, 3);
    let ghost before = out@;
    push_text(out, "x");
    push_i32(out, x.x);
    assert(out@ =~= before + (enc_text("x"@) + enc_int(x@.x as int)));
    let ghost before = out@;
    push_text(out, "y");
    push_i32(out, x.y);
    assert(out@ =~= before + (enc_text("y"@) + enc_int(x@.y as int)));
    let ghost before = out@;
    push_text(out, "z");
    push_i32(out, x.z);
    assert(out@ =~= before + (enc_text("z"@) + enc_int(x@.z as int)));
    assert(out@ =~= old(out)@ + enc_pos(x@));
}

/// An item snapshot: a map of its four fields.
#[verifier::opaque]
pub open spec fn enc_item(v: ItemView) -> Seq<u8> {
    head(5, 4) + (enc_text("slot_index"@) + enc_int(v.slot_index as int)) + (enc_text("name"@)
        + enc_text(v.name)) + (enc_text("tags"@) + enc_texts(v.tags)) + (enc_text("count"@)
        + enc_int(v.count as int))
}

pub open spec fn item_fits(v: ItemView) -> bool {
    text_fits(v.name) && texts_fit(v.tags)
}

proof fn lemma_enc_item_layout(s: Seq<u8>, pos: int, v: ItemView)
    requires
        is_prefix_at(s, pos, enc_item(v)),
    ensures
        is_prefix_at(s, pos, head(5, 4)),
        is_prefix_at(s, pos + (head(5, 4)).len(), (enc_text("slot_index"@) + enc_int(v.slot_index as int))),
        is_prefix_at(s, pos + (head(5, 4) + (enc_text("slot_index"@) + enc_int(v.slot_index as int))).len(), (enc_text("name"@) + enc_text(v.name))),
        is_prefix_at(s, pos + (head(5, 4) + (enc_text("slot_index"@) + enc_int(v.slot_index as int)) + (enc_text("name"@) + enc_text(v.name))).len(), (enc_text("tags"@) + enc_texts(v.tags))),
        is_prefix_at(s, pos + (head(5, 4) + (enc_text("slot_index"@) + enc_int(v.slot_index as int)) + (enc_text("name"@) + enc_text(v.name)) + (enc_text("tags"@) + enc_texts(v.tags))).len(), (enc_text("count"@) + enc_int(v.count as int))),
{
    reveal(enc_item);
    lemma_prefix_split(s, pos, head(5, 4) + (enc_text("slot_index"@) + enc_int(v.slot_index as int)) + (enc_text("name"@) + enc_text(v.name)) + (enc_text("tags"@) + enc_texts(v.tags)), (enc_text("count"@) + enc_int(v.count as int)));
    lemma_prefix_split(s, pos, head(5, 4) + (enc_text("slot_index"@) + enc_int(v.slot_index as int)) + (enc_text("name"@) + enc_text(v.name)), (enc_text("tags"@) + enc_texts(v.tags)));
    lemma_prefix_split(s, pos, head(5, 4) + (enc_text("slot_index"@) + enc_int(v.slot_index as int)), (enc_text("name"@) + enc_text(v.name)));
    lemma_prefix_split(s, pos, head(5, 4), (enc_text("slot_index"@) + enc_int(v.slot_index as int)));
}

#[verifier::spinoff_prover]
#[verifier::rlimit(100)]
fn read_item(input: &[u8], pos: usize) -> (r: Option<(ScriptableItem, usize)>)
    ensures
        r matches Some((x, next)) ==> pos <= next <= input@.len()
            && input@.subrange(pos as int, next as int) == enc_item(x@),
        forall|v: ItemView|
            #![trigger is_prefix_at(input@, pos as int, enc_item(v))]
            item_fits(v) && is_prefix_at(input@, pos as int, enc_item(v)) ==> (r matches Some((x, next))
                && x@ == v && next == pos + enc_item(v).len()),
{
    proof {
        reveal(enc_item);
    }
    let mut h: Vec<u8> = Vec::new();
    push_head(&mut h, 5, 4);
    assert(h@ =~= head(5, 4));
    let p0 = match expect_bytes(input, pos, &h) {
        Some(q) => q,
        None => {
            proof {
                assert forall|v: ItemView|
                    item_fits(v) && #[trigger] is_prefix_at(input@, pos as int, enc_item(v)) implies false by {
                    lemma_enc_item_layout(input@, pos as int, v);
                }
            }
            return None;
        },
    };
    assert(input@.subrange(pos as int, p0 as int) == head(5, 4));
    let (f_slot_index, p1) = match read_field_u32(input, p0, "slot_index") {
        Some(x) => x,
        None => {
            proof {
                assert forall|v: ItemView|
                    item_fits(v) && #[trigger] is_prefix_at(input@, pos as int, enc_item(v)) implies false by {
                    lemma_enc_item_layout(input@, pos as int, v);
                }
            }
            return None;
        },
    };
    proof {
        lemma_subrange_join(input@, pos as int, p0 as int, p1 as int);
    }
    let (f_name, p2) = match read_field_text(input, p1, "name") {
        Some(x) => x,
        None => {
            proof {
                assert forall|v: ItemView|
                    item_fits(v) && #[trigger] is_prefix_at(input@, pos as int, enc_item(v)) implies false by {
                    lemma_enc_item_layout(input@, pos as int, v);
                }
            }
            return None;
        },
    };
    proof {
        lemma_subrange_join(input@, pos as int, p1 as int, p2 as int);
    }
    let (f_tags, p3) = match read_field_texts(input, p2, "tags") {
        Some(x) => x,
        None => {
            proof {
                assert forall|v: ItemView|
                    item_fits(v) && #[trigger] is_prefix_at(input@, pos as int, enc_item(v)) implies false by {
                    lemma_enc_item_layout(input@, pos as int, v);
                }
            }
            return None;
        },
    };
    proof {
        lemma_subrange_join(input@, pos as int, p2 as int, p3 as int);
    }
    let (f_count, p4) = match read_field_i32(input, p3, "count") {
        Some(x) => x,
        None => {
            proof {
                assert forall|v: ItemView|
                    item_fits(v) && #[trigger] is_prefix_at(input@, pos as int, enc_item(v)) implies false by {
                    lemma_enc_item_layout(input@, pos as int, v);
                }
            }
            return None;
        },
    };
    proof {
        lemma_subrange_join(input@, pos as int, p3 as int, p4 as int);
    }
    let x = ScriptableItem { slot_index: f_slot_index, name: f_name, tags: f_tags, count: f_count };
    proof {
        assert forall|v: ItemView|
            item_fits(v) && #[trigger] is_prefix_at(input@, pos as int, enc_item(v)) implies x@ == v
            && p4 == pos + enc_item(v).len() by {
            lemma_enc_item_layout(input@, pos as int, v);
        }
    }
    Some((x, p4))
}

fn push_item(out: &mut Vec<u8>, x: &ScriptableItem)
    ensures
        final(out)@ == old(out)@ + enc_item(x@),
        item_fits(x@),
{
    proof {
        reveal(enc_item);
    }
    push_head(out, 5, 4);
    let ghost before = out@;
    push_text(out, "slot_index");
    push_u32(out, x.slot_index);
    assert(out@ =~= before + (enc_text("slot_index"@) + enc_int(x@.slot_index as int)));
    let ghost before = out@;
    push_text(out, "name");
    push_text(out, x.name.as_str());
    assert(out@ =~= before + (enc_text("name"@) + enc_text(x@.name)));
    let ghost before = out@;
    push_text(out, "tags");
    push_texts(out, &x.tags);
    assert(out@ =~= before + (enc_text("tags"@) + enc_texts(x@.tags)));
    let ghost before = out@;
    push_text(out, "count");
    push_i32(out, x.count);
    assert(out@ =~= before + (enc_text("count"@) + enc_int(x@.count as int)));
    assert(out@ =~= old(out)@ + enc_item(x@));
}

/// Items one after another.
pub open spec fn enc_item_run(xs: Seq<ItemView>) -> Seq<u8>
    decreases xs.len(),
{
    if xs.len() == 0 {
        Seq::empty()
    } else {
        enc_item_run(xs.drop_last()) + enc_item(xs.last())
    }
}

/// An array of such items.
#[verifier::opaque]
pub open spec fn enc_items(xs: Seq<ItemView>) -> Seq<u8> {
    head(4, xs.len()) + enc_item_run(xs)
}

pub open spec fn items_fit(xs: Seq<ItemView>) -> bool {
    xs.len() <= u64::MAX && forall|i: int| 0 <= i < xs.len() ==> item_fits(#[trigger] xs[i])
}

proof fn lemma_enc_item_run_prefix(s: Seq<u8>, pos: int, xs: Seq<ItemView>, i: int)
    requires
        0 <= i <= xs.len(),
        is_prefix_at(s, pos, enc_item_run(xs)),
    ensures
        is_prefix_at(s, pos, enc_item_run(xs.take(i))),
    decreases xs.len(),
{
    if i < xs.len() {
        lemma_prefix_split(s, pos, enc_item_run(xs.drop_last()), enc_item(xs.last()));
        lemma_enc_item_run_prefix(s, pos, xs.drop_last(), i);
        assert(xs.drop_last().take(i) =~= xs.take(i));
    } else {
        assert(xs.take(i) =~= xs);
    }
}

fn read_items(input: &[u8], pos: usize) -> (r: Option<(Vec<ScriptableItem>, usize)>)
    ensures
        r matches Some((v, next)) ==> pos <= next <= input@.len()
            && input@.subrange(pos as int, next as int) == enc_items(items_view(v@)),
        forall|xs: Seq<ItemView>|
            #![trigger is_prefix_at(input@, pos as int, enc_items(xs))]
            items_fit(xs) && is_prefix_at(input@, pos as int, enc_items(xs)) ==> (r matches Some(
                (v, next),
            ) && items_view(v@) == xs && next == pos + enc_items(xs).len()),
{
    proof {
        reveal(enc_items);
    }
    let (m, n, start) = match read_head(input, pos) {
        Some(h) => h,
        None => {
            proof {
                assert forall|xs: Seq<ItemView>|
                    items_fit(xs) && #[trigger] is_prefix_at(
                        input@,
                        pos as int,
                        enc_items(xs),
                    ) implies false by {
                    lemma_prefix_split(input@, pos as int, head(4, xs.len()), enc_item_run(xs));
                }
            }
            return None;
        },
    };
    proof {
        assert forall|xs: Seq<ItemView>|
            items_fit(xs) && #[trigger] is_prefix_at(
                input@,
                pos as int,
                enc_items(xs),
            ) implies m == 4 && n == xs.len() && start == pos + head(4, xs.len()).len()
            && is_prefix_at(input@, start as int, enc_item_run(xs)) by {
            lemma_prefix_split(input@, pos as int, head(4, xs.len()), enc_item_run(xs));
        }
    }
    if m != 4 {
        return None;
    }
    let mut out: Vec<ScriptableItem> = Vec::new();
    let mut p = start;
    let mut i: u64 = 0;
    while i < n
        invariant
            pos < start <= p <= input@.len(),
            i <= n,
            out@.len() == i,
            input@.subrange(pos as int, start as int) == head(4, n as nat),
            input@.subrange(start as int, p as int) == enc_item_run(items_view(out@)),
            forall|xs: Seq<ItemView>|
                items_fit(xs) && #[trigger] is_prefix_at(input@, pos as int, enc_items(xs))
                    ==> n == xs.len() && start == pos + head(4, xs.len()).len() && is_prefix_at(
                    input@,
                    start as int,
                    enc_item_run(xs),
                ) && items_view(out@) == xs.take(i as int),
        decreases n - i,
    {
        proof {
            assert forall|xs: Seq<ItemView>|
                items_fit(xs) && #[trigger] is_prefix_at(
                    input@,
                    pos as int,
                    enc_items(xs),
                ) implies is_prefix_at(input@, p as int, enc_item(xs[i as int])) && item_fits(
                xs[i as int],
            ) by {
                lemma_enc_item_run_prefix(input@, start as int, xs, i + 1);
                let pre = xs.take(i as int);
                assert(xs.take(i + 1).drop_last() =~= pre);
                lemma_prefix_split(input@, start as int, enc_item_run(pre), enc_item(xs[i as int]));
            }
        }
        let (t, q) = match read_item(input, p) {
            Some(x) => x,
            None => {
                proof {
                    assert forall|xs: Seq<ItemView>|
                        items_fit(xs) && #[trigger] is_prefix_at(
                            input@,
                            pos as int,
                            enc_items(xs),
                        ) implies false by {
                        assert(is_prefix_at(input@, p as int, enc_item(xs[i as int])));
                    }
                }
                return None;
            },
        };
        let ghost before = out@;
        out.push(t);
        proof {
            lemma_subrange_join(input@, start as int, p as int, q as int);
            assert(out@.drop_last() =~= before);
            assert(items_view(out@).drop_last() =~= items_view(before));
            assert forall|xs: Seq<ItemView>|
                items_fit(xs) && #[trigger] is_prefix_at(
                    input@,
                    pos as int,
                    enc_items(xs),
                ) implies items_view(out@) == xs.take(i + 1) by {
                assert(is_prefix_at(input@, p as int, enc_item(xs[i as int])));
                assert(items_view(out@) =~= xs.take(i + 1));
            }
        }
        p = q;
        i = i + 1;
    }
    proof {
        lemma_subrange_join(input@, pos as int, start as int, p as int);
        assert forall|xs: Seq<ItemView>|
            items_fit(xs) && #[trigger] is_prefix_at(
                input@,
                pos as int,
                enc_items(xs),
            ) implies items_view(out@) == xs && p == pos + enc_items(xs).len() by {
            assert(xs.take(xs.len() as int) =~= xs);
        }
    }
    Some((out, p))
}

#[verifier::rlimit(60)]
fn push_items(out: &mut Vec<u8>, xs: &Vec<ScriptableItem>)
    ensures
        final(out)@ == old(out)@ + enc_items(items_view(xs@)),
        items_fit(items_view(xs@)),
{
    proof {
        reveal(enc_items);
    }
    push_head(out, 4, xs.len() as u64);
    let ghost mid = out@;
    let mut i: usize = 0;
    while i < xs.len()
        invariant
            i <= xs@.len(),
            out@ == mid + enc_item_run(items_view(xs@.take(i as int))),
            forall|j: int| 0 <= j < i ==> item_fits(#[trigger] xs@[j]@),
        decreases xs@.len() - i,
    {
        push_item(out, &xs[i]);
        proof {
            assert(items_view(xs@.take(i + 1)).drop_last() =~= items_view(xs@.take(i as int)));
        }
        i = i + 1;
        assert(out@ =~= mid + enc_item_run(items_view(xs@.take(i as int))));
    }
    assert(xs@.take(xs@.len() as int) =~= xs@);
    assert(items_view(xs@).len() == xs@.len());
}

/// Reads one field: its name, then its value.
fn read_field_pos(input: &[u8], pos: usize, key: &str) -> (r: Option<(BlockPos, usize)>)
    ensures
        r matches Some((x, next)) ==> pos <= next <= input@.len()
            && input@.subrange(pos as int, next as int) == enc_text(key@) + enc_pos(x),
        forall|v: BlockPos|
            #![trigger is_prefix_at(input@, pos as int, enc_text(key@) + enc_pos(v))]
            true && is_prefix_at(input@, pos as int, enc_text(key@) + enc_pos(v)) ==> (r matches Some(
                (x, next),
            ) && x == v && next == pos + (enc_text(key@) + enc_pos(v)).len()),
{
    let k = text_bytes(key);
    let p = match expect_bytes(input, pos, &k) {
        Some(q) => q,
        None => {
            proof {
                assert forall|v: BlockPos|
                    true && #[trigger] is_prefix_at(
                        input@,
                        pos as int,
                        enc_text(key@) + enc_pos(v),
                    ) implies false by {
                    lemma_prefix_split(input@, pos as int, enc_text(key@), enc_pos(v));
                }
            }
            return None;
        },
    };
    proof {
        assert forall|v: BlockPos|
            true && #[trigger] is_prefix_at(
                input@,
                pos as int,
                enc_text(key@) + enc_pos(v),
            ) implies is_prefix_at(input@, p as int, enc_pos(v)) by {
            lemma_prefix_split(input@, pos as int, enc_text(key@), enc_pos(v));
        }
    }
    let (x, q) = match read_pos(input, p) {
        Some(t) => t,
        None => {
            return None;
        },
    };
    proof {
        lemma_subrange_join(input@, pos as int, p as int, q as int);
    }
    Some((x, q))
}

/// Reads one field: its name, then its value.
fn read_field_items(input: &[u8], pos: usize, key: &str) -> (r: Option<(Vec<ScriptableItem>, usize)>)
    ensures
        r matches Some((x, next)) ==> pos <= next <= input@.len()
            && input@.subrange(pos as int, next as int) == enc_text(key@) + enc_items(items_view(x@)),
        forall|v: Seq<ItemView>|
            #![trigger is_prefix_at(input@, pos as int, enc_text(key@) + enc_items(v))]
            items_fit(v) && is_prefix_at(input@, pos as int, enc_text(key@) + enc_items(v)) ==> (r matches Some(
                (x, next),
            ) && items_view(x@) == v && next == pos + (enc_text(key@) + enc_items(v)).len()),
{
    let k = text_bytes(key);
    let p = match expect_bytes(input, pos, &k) {
        Some(q) => q,
        None => {
            proof {
                assert forall|v: Seq<ItemView>|
                    items_fit(v) && #[trigger] is_prefix_at(
                        input@,
                        pos as int,
                        enc_text(key@) + enc_items(v),
                    ) implies false by {
                    lemma_prefix_split(input@, pos as int, enc_text(key@), enc_items(v));
                }
            }
            return None;
        },
    };
    proof {
        assert forall|v: Seq<ItemView>|
            items_fit(v) && #[trigger] is_prefix_at(
                input@,
                pos as int,
                enc_text(key@) + enc_items(v),
            ) implies is_prefix_at(input@, p as int, enc_items(v)) by {
            lemma_prefix_split(input@, pos as int, enc_text(key@), enc_items(v));
        }
    }
    let (x, q) = match read_items(input, p) {
        Some(t) => t,
        None => {
            return None;
        },
    };
    proof {
        lemma_subrange_join(input@, pos as int, p as int, q as int);
    }
    Some((x, q))
}

/// An entity snapshot: a map of its five fields.
#[verifier::opaque]
pub open spec fn enc_entity(v: EntityView) -> Seq<u8> {
    head(5, 5) + (enc_text("raw_access_index"@) + enc_int(v.raw_access_index as int)) + (enc_text(
        "block_pos"@,
    ) + enc_pos(v.block_pos)) + (enc_text("dimension"@) + enc_text(v.dimension)) + (enc_text(
        "name"@,
    ) + enc_text(v.name)) + (enc_text("items"@) + enc_items(v.items))
}

pub open spec fn entity_fits(v: EntityView) -> bool {
    text_fits(v.dimension) && text_fits(v.name) && items_fit(v.items)
}

proof fn lemma_enc_entity_layout(s: Seq<u8>, pos: int, v: EntityView)
    requires
        is_prefix_at(s, pos, enc_entity(v)),
    ensures
        is_prefix_at(s, pos, head(5, 5)),
        is_prefix_at(s, pos + (head(5, 5)).len(), (enc_text("raw_access_index"@) + enc_int(v.raw_access_index as int))),
        is_prefix_at(s, pos + (head(5, 5) + (enc_text("raw_access_index"@) + enc_int(v.raw_access_index as int))).len(), (enc_text("block_pos"@) + enc_pos(v.block_pos))),
        is_prefix_at(s, pos + (head(5, 5) + (enc_text("raw_access_index"@) + enc_int(v.raw_access_index as int)) + (enc_text("block_pos"@) + enc_pos(v.block_pos))).len(), (enc_text("dimension"@) + enc_text(v.dimension))),
        is_prefix_at(s, pos + (head(5, 5) + (enc_text("raw_access_index"@) + enc_int(v.raw_access_index as int)) + (enc_text("block_pos"@) + enc_pos(v.block_pos)) + (enc_text("dimension"@) + enc_text(v.dimension))).len(), (enc_text("name"@) + enc_text(v.name))),
        is_prefix_at(s, pos + (head(5, 5) + (enc_text("raw_access_index"@) + enc_int(v.raw_access_index as int)) + (enc_text("block_pos"@) + enc_pos(v.block_pos)) + (enc_text("dimension"@) + enc_text(v.dimension)) + (enc_text("name"@) + enc_text(v.name))).len(), (enc_text("items"@) + enc_items(v.items))),
{
    reveal(enc_entity);
    lemma_prefix_split(s, pos, head(5, 5) + (enc_text("raw_access_index"@) + enc_int(v.raw_access_index as int)) + (enc_text("block_pos"@) + enc_pos(v.block_pos)) + (enc_text("dimension"@) + enc_text(v.dimension)) + (enc_text("name"@) + enc_text(v.name)), (enc_text("items"@) + enc_items(v.items)));
    lemma_prefix_split(s, pos, head(5, 5) + (enc_text("raw_access_index"@) + enc_int(v.raw_access_index as int)) + (enc_text("block_pos"@) + enc_pos(v.block_pos)) + (enc_text("dimension"@) + enc_text(v.dimension)), (enc_text("name"@) + enc_text(v.name)));
    lemma_prefix_split(s, pos, head(5, 5) + (enc_text("raw_access_index"@) + enc_int(v.raw_access_index as int)) + (enc_text("block_pos"@) + enc_pos(v.block_pos)), (enc_text("dimension"@) + enc_text(v.dimension)));
    lemma_prefix_split(s, pos, head(5, 5) + (enc_text("raw_access_index"@) + enc_int(v.raw_access_index as int)), (enc_text("block_pos"@) + enc_pos(v.block_pos)));
    lemma_prefix_split(s, pos, head(5, 5), (enc_text("raw_access_index"@) + enc_int(v.raw_access_index as int)));
}

#[verifier::spinoff_prover]
#[verifier::rlimit(100)]
fn read_entity(input: &[u8], pos: usize) -> (r: Option<(ScriptableBlockEntity, usize)>)
    ensures
        r matches Some((x, next)) ==> pos <= next <= input@.len()
            && input@.subrange(pos as int, next as int) == enc_entity(x@),
        forall|v: EntityView|
            #![trigger is_prefix_at(input@, pos as int, enc_entity(v))]
            entity_fits(v) && is_prefix_at(input@, pos as int, enc_entity(v)) ==> (r matches Some((x, next))
                && x@ == v && next == pos + enc_entity(v).len()),
{
    proof {
        reveal(enc_entity);
    }
    let mut h: Vec<u8> = Vec::new();
    push_head(&mut h, 5, 5);
    assert(h@ =~= head(5, 5));
    let p0 = match expect_bytes(input, pos, &h) {
        Some(q) => q,
        None => {
            proof {
                assert forall|v: EntityView|
                    entity_fits(v) && #[trigger] is_prefix_at(input@, pos as int, enc_entity(v)) implies false by {
                    lemma_enc_entity_layout(input@, pos as int, v);
                }
            }
            return None;
        },
    };
    assert(input@.subrange(pos as int, p0 as int) == head(5, 5));
    let (f_raw_access_index, p1) = match read_field_u32(input, p0, "raw_access_index") {
        Some(x) => x,
        None => {
            proof {
                assert forall|v: EntityView|
                    entity_fits(v) && #[trigger] is_prefix_at(input@, pos as int, enc_entity(v)) implies false by {
                    lemma_enc_entity_layout(input@, pos as int, v);
                }
            }
            return None;
        },
    };
    proof {
        lemma_subrange_join(input@, pos as int, p0 as int, p1 as int);
    }
    let (f_block_pos, p2) = match read_field_pos(input, p1, "block_pos") {
        Some(x) => x,
        None => {
            proof {
                assert forall|v: EntityView|
                    entity_fits(v) && #[trigger] is_prefix_at(input@, pos as int, enc_entity(v)) implies false by {
                    lemma_enc_entity_layout(input@, pos as int, v);
                }
            }
            return None;
        },
    };
    proof {
        lemma_subrange_join(input@, pos as int, p1 as int, p2 as int);
    }
    let (f_dimension, p3) = match read_field_text(input, p2, "dimension") {
        Some(x) => x,
        None => {
            proof {
                assert forall|v: EntityView|
                    entity_fits(v) && #[trigger] is_prefix_at(input@, pos as int, enc_entity(v)) implies false by {
                    lemma_enc_entity_layout(input@, pos as int, v);
                }
            }
            return None;
        },
    };
    proof {
        lemma_subrange_join(input@, pos as int, p2 as int, p3 as int);
    }
    let (f_name, p4) = match read_field_text(input, p3, "name") {
        Some(x) => x,
        None => {
            proof {
                assert forall|v: EntityView|
                    entity_fits(v) && #[trigger] is_prefix_at(input@, pos as int, enc_entity(v)) implies false by {
                    lemma_enc_entity_layout(input@, pos as int, v);
                }
            }
            return None;
        },
    };
    proof {
        lemma_subrange_join(input@, pos as int, p3 as int, p4 as int);
    }
    let (f_items, p5) = match read_field_items(input, p4, "items") {
        Some(x) => x,
        None => {
            proof {
                assert forall|v: EntityView|
                    entity_fits(v) && #[trigger] is_prefix_at(input@, pos as int, enc_entity(v)) implies false by {
                    lemma_enc_entity_layout(input@, pos as int, v);
                }
            }
            return None;
        },
    };
    proof {
        lemma_subrange_join(input@, pos as int, p4 as int, p5 as int);
    }
    let x = ScriptableBlockEntity {
        raw_access_index: f_raw_access_index,
        block_pos: f_block_pos,
        dimension: f_dimension,
        name: f_name,
        items: f_items,
    };
    proof {
        assert forall|v: EntityView|
            entity_fits(v) && #[trigger] is_prefix_at(input@, pos as int, enc_entity(v)) implies x@ == v
            && p5 == pos + enc_entity(v).len() by {
            lemma_enc_entity_layout(input@, pos as int, v);
        }
    }
    Some((x, p5))
}

fn push_entity(out: &mut Vec<u8>, x: &ScriptableBlockEntity)
    ensures
        final(out)@ == old(out)@ + enc_entity(x@),
        entity_fits(x@),
{
    proof {
        reveal(enc_entity);
    }
    push_head(out, 5, 5);
    let ghost before = out@;
    push_text(out, "raw_access_index");
    push_u32(out, x.raw_access_index);
    assert(out@ =~= before + (enc_text("raw_access_index"@) + enc_int(x@.raw_access_index as int)));
    let ghost before = out@;
    push_text(out, "block_pos");
    push_pos(out, &x.block_pos);
    assert(out@ =~= before + (enc_text("block_pos"@) + enc_pos(x@.block_pos)));
    let ghost before = out@;
    push_text(out, "dimension");
    push_text(out, x.dimension.as_str());
    assert(out@ =~= before + (enc_text("dimension"@) + enc_text(x@.dimension)));
    let ghost before = out@;
    push_text(out, "name");
    push_text(out, x.name.as_str());
    assert(out@ =~= before + (enc_text("name"@) + enc_text(x@.name)));
    let ghost before = out@;
    push_text(out, "items");
    push_items(out, &x.items);
    assert(out@ =~= before + (enc_text("items"@) + enc_items(x@.items)));
    assert(out@ =~= old(out)@ + enc_entity(x@));
}

/// Items one after another.
pub open spec fn enc_entity_run(xs: Seq<EntityView>) -> Seq<u8>
    decreases xs.len(),
{
    if xs.len() == 0 {
        Seq::empty()
    } else {
        enc_entity_run(xs.drop_last()) + enc_entity(xs.last())
    }
}

/// An array of such items.
#[verifier::opaque]
pub open spec fn enc_entities(xs: Seq<EntityView>) -> Seq<u8> {
    head(4, xs.len()) + enc_entity_run(xs)
}

pub open spec fn entities_fit(xs: Seq<EntityView>) -> bool {
    xs.len() <= u64::MAX && forall|i: int| 0 <= i < xs.len() ==> entity_fits(#[trigger] xs[i])
}

proof fn lemma_enc_entity_run_prefix(s: Seq<u8>, pos: int, xs: Seq<EntityView>, i: int)
    requires
        0 <= i <= xs.len(),
        is_prefix_at(s, pos, enc_entity_run(xs)),
    ensures
        is_prefix_at(s, pos, enc_entity_run(xs.take(i))),
    decreases xs.len(),
{
    if i < xs.len() {
        lemma_prefix_split(s, pos, enc_entity_run(xs.drop_last()), enc_entity(xs.last()));
        lemma_enc_entity_run_prefix(s, pos, xs.drop_last(), i);
        assert(xs.drop_last().take(i) =~= xs.take(i));
    } else {
        assert(xs.take(i) =~= xs);
    }
}

fn read_entities(input: &[u8], pos: usize) -> (r: Option<(Vec<ScriptableBlockEntity>, usize)>)
    ensures
        r matches Some((v, next)) ==> pos <= next <= input@.len()
            && input@.subrange(pos as int, next as int) == enc_entities(entities_view(v@)),
        forall|xs: Seq<EntityView>|
            #![trigger is_prefix_at(input@, pos as int, enc_entities(xs))]
            entities_fit(xs) && is_prefix_at(input@, pos as int, enc_entities(xs)) ==> (r matches Some(
                (v, next),
            ) && entities_view(v@) == xs && next == pos + enc_entities(xs).len()),
{
    proof {
        reveal(enc_entities);
    }
    let (m, n, start) = match read_head(input, pos) {
        Some(h) => h,
        None => {
            proof {
                assert forall|xs: Seq<EntityView>|
                    entities_fit(xs) && #[trigger] is_prefix_at(
                        input@,
                        pos as int,
                        enc_entities(xs),
                    ) implies false by {
                    lemma_prefix_split(input@, pos as int, head(4, xs.len()), enc_entity_run(xs));
                }
            }
            return None;
        },
    };
    proof {
        assert forall|xs: Seq<EntityView>|
            entities_fit(xs) && #[trigger] is_prefix_at(
                input@,
                pos as int,
                enc_entities(xs),
            ) implies m == 4 && n == xs.len() && start == pos + head(4, xs.len()).len()
            && is_prefix_at(input@, start as int, enc_entity_run(xs)) by {
            lemma_prefix_split(input@, pos as int, head(4, xs.len()), enc_entity_run(xs));
        }
    }
    if m != 4 {
        return None;
    }
    let mut out: Vec<ScriptableBlockEntity> = Vec::new();
    let mut p = start;
    let mut i: u64 = 0;
    while i < n
        invariant
            pos < start <= p <= input@.len(),
            i <= n,
            out@.len() == i,
            input@.subrange(pos as int, start as int) == head(4, n as nat),
            input@.subrange(start as int, p as int) == enc_entity_run(entities_view(out@)),
            forall|xs: Seq<EntityView>|
                entities_fit(xs) && #[trigger] is_prefix_at(input@, pos as int, enc_entities(xs))
                    ==> n == xs.len() && start == pos + head(4, xs.len()).len() && is_prefix_at(
                    input@,
                    start as int,
                    enc_entity_run(xs),
                ) && entities_view(out@) == xs.take(i as int),
        decreases n - i,
    {
        proof {
            assert forall|xs: Seq<EntityView>|
                entities_fit(xs) && #[trigger] is_prefix_at(
                    input@,
                    pos as int,
                    enc_entities(xs),
                ) implies is_prefix_at(input@, p as int, enc_entity(xs[i as int])) && entity_fits(
                xs[i as int],
            ) by {
                lemma_enc_entity_run_prefix(input@, start as int, xs, i + 1);
                let pre = xs.take(i as int);
                assert(xs.take(i + 1).drop_last() =~= pre);
                lemma_prefix_split(input@, start as int, enc_entity_run(pre), enc_entity(xs[i as int]));
            }
        }
        let (t, q) = match read_entity(input, p) {
            Some(x) => x,
            None => {
                proof {
                    assert forall|xs: Seq<EntityView>|
                        entities_fit(xs) && #[trigger] is_prefix_at(
                            input@,
                            pos as int,
                            enc_entities(xs),
                        ) implies false by {
                        assert(is_prefix_at(input@, p as int, enc_entity(xs[i as int])));
                    }
                }
                return None;
            },
        };
        let ghost before = out@;
        out.push(t);
        proof {
            lemma_subrange_join(input@, start as int, p as int, q as int);
            assert(out@.drop_last() =~= before);
            assert(entities_view(out@).drop_last() =~= entities_view(before));
            assert forall|xs: Seq<EntityView>|
                entities_fit(xs) && #[trigger] is_prefix_at(
                    input@,
                    pos as int,
                    enc_entities(xs),
                ) implies entities_view(out@) == xs.take(i + 1) by {
                assert(is_prefix_at(input@, p as int, enc_entity(xs[i as int])));
                assert(entities_view(out@) =~= xs.take(i + 1));
            }
        }
        p = q;
        i = i + 1;
    }
    proof {
        lemma_subrange_join(input@, pos as int, start as int, p as int);
        assert forall|xs: Seq<EntityView>|
            entities_fit(xs) && #[trigger] is_prefix_at(
                input@,
                pos as int,
                enc_entities(xs),
            ) implies entities_view(out@) == xs && p == pos + enc_entities(xs).len() by {
            assert(xs.take(xs.len() as int) =~= xs);
        }
    }
    Some((out, p))
}

#[verifier::rlimit(60)]
fn push_entities(out: &mut Vec<u8>, xs: &Vec<ScriptableBlockEntity>)
    ensures
        final(out)@ == old(out)@ + enc_entities(entities_view(xs@)),
        entities_fit(entities_view(xs@)),
{
    proof {
        reveal(enc_entities);
    }
    push_head(out, 4, xs.len() as u64);
    let ghost mid = out@;
    let mut i: usize = 0;
    while i < xs.len()
        invariant
            i <= xs@.len(),
            out@ == mid + enc_entity_run(entities_view(xs@.take(i as int))),
            forall|j: int| 0 <= j < i ==> entity_fits(#[trigger] xs@[j]@),
        decreases xs@.len() - i,
    {
        push_entity(out, &xs[i]);
        proof {
            assert(entities_view(xs@.take(i + 1)).drop_last() =~= entities_view(xs@.take(i as int)));
        }
        i = i + 1;
        assert(out@ =~= mid + enc_entity_run(entities_view(xs@.take(i as int))));
    }
    assert(xs@.take(xs@.len() as int) =~= xs@);
    assert(entities_view(xs@).len() == xs@.len());
}

/// The byte form of a list of entity snapshots.
pub fn encode_entities(entities: &Vec<ScriptableBlockEntity>) -> (r: Vec<u8>)
    ensures
        r@ == enc_entities(entities_view(entities@)),
        entities_fit(entities_view(entities@)),
{
    let mut out: Vec<u8> = Vec::new();
    push_entities(&mut out, entities);
    assert(out@ =~= enc_entities(entities_view(entities@)));
    out
}

/// The list of entity snapshots that `bytes` is the byte form of, if it is
/// one. Every list whose lengths fit the form comes back from its own
/// bytes unchanged.
pub fn decode_entities(bytes: &[u8]) -> (r: Option<Vec<ScriptableBlockEntity>>)
    ensures
        r matches Some(v) ==> enc_entities(entities_view(v@)) == bytes@,
        forall|vs: Seq<EntityView>|
            #![trigger enc_entities(vs)]
            entities_fit(vs) && enc_entities(vs) == bytes@ ==> (r matches Some(v) && entities_view(
                v@,
            ) == vs),
{
    proof {
        assert forall|vs: Seq<EntityView>|
            entities_fit(vs) && #[trigger] enc_entities(vs) == bytes@ implies is_prefix_at(
            bytes@,
            0,
            enc_entities(vs),
        ) by {
            assert(bytes@.subrange(0, bytes@.len() as int) =~= bytes@);
        }
    }
    match read_entities(bytes, 0) {
        Some((v, next)) => {
            if next == bytes.len() {
                assert(bytes@.subrange(0, bytes@.len() as int) =~= bytes@);
                Some(v)
            } else {
                None
            }
        },
        None => None,
    }
}

} // verus!
