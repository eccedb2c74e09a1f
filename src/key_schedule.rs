//! The RC5 key schedule: key bytes are packed into words (`L`), a table of
//! round words (`S`) is seeded from `P` and `Q`, and the two are mixed
//! together so that every word of the table depends on every key byte.

use crate::word::{pow256, Word};
use vstd::arithmetic::div_mod::{
    lemma_div_by_multiple, lemma_div_is_ordered, lemma_fundamental_div_mod,
    lemma_hoist_over_denominator, lemma_mod_bound,
};
use vstd::prelude::*;

verus! {

/// Number of words (`c`) that hold `b` key bytes at `u` bytes per word: the
/// bytes rounded up to whole words, and one word for an empty key.
pub open spec fn key_words_len(b: nat, u: nat) -> nat {
    if b == 0 {
        1
    } else {
        (b + u - 1) as nat / u
    }
}

/// The key words once the bytes `key[from..]` have been packed, the last byte
/// first: each step rotates the word holding byte `i` left by eight bits and
/// adds the byte, so that byte `i` lands little-endian in word `i / u`.
pub open spec fn packed_words<W: Word>(key: Seq<u8>, from: nat) -> Seq<W>
    decreases key.len() - from,
{
    if from >= key.len() {
        Seq::new(key_words_len(key.len(), W::bytes_spec()), |j: int| W::from_byte_spec(0))
    } else {
        let l = packed_words::<W>(key, from + 1);
        let j = from / W::bytes_spec();
        l.update(
            j as int,
            l[j as int].rotl_spec(W::from_byte_spec(8)).add_spec(W::from_byte_spec(key[from as int])),
        )
    }
}

/// The number whose base-256 digits, least significant first, are `bytes`.
pub open spec fn le_value(bytes: Seq<u8>) -> nat
    decreases bytes.len(),
{
    if bytes.len() == 0 {
        0
    } else {
        (bytes[0] + 256 * le_value(bytes.drop_first())) as nat
    }
}

/// Where the bytes of key word `j` end: at `(j + 1) * u`, or at the end of a
/// `b`-byte key.
pub open spec fn chunk_end(b: nat, u: nat, j: nat) -> nat {
    if (j + 1) * u <= b {
        (j + 1) * u
    } else {
        b
    }
}

/// Where the bytes of key word `j` that have been packed start, once the
/// bytes from position `i` on have been: at `j * u`, or later while packing
/// is still inside the word.
pub open spec fn chunk_start(b: nat, u: nat, j: nat, i: nat) -> nat {
    let e = chunk_end(b, u, j);
    if i <= j * u {
        if j * u <= e {
            j * u
        } else {
            e
        }
    } else if i <= e {
        i
    } else {
        e
    }
}

/// The key bytes that key word `j` holds: from `j * u` up to `(j + 1) * u`,
/// cut at the end of the key.
pub open spec fn key_word_bytes(key: Seq<u8>, u: nat, j: nat) -> Seq<u8> {
    key.subrange(
        chunk_start(key.len(), u, j, 0) as int,
        chunk_end(key.len(), u, j) as int,
    )
}

/// The key as words (`L`).
pub open spec fn key_as_words<W: Word>(key: Seq<u8>) -> Seq<W> {
    packed_words::<W>(key, 0)
}

/// Word `i` of the seeded table: `P + i * Q`, modulo `2^w`.
pub open spec fn seed_word<W: Word>(i: nat) -> W
    decreases i,
{
    if i == 0 {
        W::p_spec()
    } else {
        seed_word::<W>((i - 1) as nat).add_spec(W::q_spec())
    }
}

/// The seeded table of `t` words, before the key is mixed in.
pub open spec fn seeded_table<W: Word>(t: nat) -> Seq<W> {
    Seq::new(t, |i: int| seed_word::<W>(i as nat))
}

/// The state of the mixing phase: both arrays, the two accumulators and the
/// two cursors.
pub struct MixState<W> {
    pub s: Seq<W>,
    pub l: Seq<W>,
    pub a: W,
    pub b: W,
    pub si: nat,
    pub li: nat,
}

/// The mixing state before the first step.
pub open spec fn mix_start<W: Word>(s: Seq<W>, l: Seq<W>) -> MixState<W> {
    MixState { s, l, a: W::from_byte_spec(0), b: W::from_byte_spec(0), si: 0, li: 0 }
}

/// One step of the mixing phase.
pub open spec fn mix_step<W: Word>(st: MixState<W>) -> MixState<W> {
    let a = st.s[st.si as int].add_spec(st.a).add_spec(st.b).rotl_spec(W::from_byte_spec(3));
    let b = st.l[st.li as int].add_spec(a).add_spec(st.b).rotl_spec(a.add_spec(st.b));
    MixState {
        s: st.s.update(st.si as int, a),
        l: st.l.update(st.li as int, b),
        a,
        b,
        si: (st.si + 1) % st.s.len(),
        li: (st.li + 1) % st.l.len(),
    }
}

/// The mixing state after `k` steps.
pub open spec fn mix_steps<W: Word>(st: MixState<W>, k: nat) -> MixState<W>
    decreases k,
{
    if k == 0 {
        st
    } else {
        mix_step(mix_steps(st, (k - 1) as nat))
    }
}

/// Number of mixing steps: three times the longer of the two arrays.
pub open spec fn mix_count(t: nat, c: nat) -> nat {
    3 * if t >= c {
        t
    } else {
        c
    }
}

/// The table `s` once the key words `l` have been mixed into it.
pub open spec fn mixed_table<W: Word>(s: Seq<W>, l: Seq<W>) -> Seq<W> {
    mix_steps(mix_start(s, l), mix_count(s.len(), l.len())).s
}

/// The expanded key table (`S`) of `2 * (rounds + 1)` words for `key`.
pub open spec fn expanded_key_table<W: Word>(key: Seq<u8>, rounds: nat) -> Seq<W> {
    mixed_table(seeded_table::<W>(2 * (rounds + 1)), key_as_words::<W>(key))
}

/// Byte `i` of a `b`-byte key falls in one of the `c` key words.
pub proof fn lemma_key_word_index(b: nat, u: nat, i: nat)
    requires
        i < b,
        1 <= u,
    ensures
        i / u < key_words_len(b, u),
{
    lemma_div_is_ordered(i as int, b - 1, u as int);
    lemma_hoist_over_denominator(b - 1, 1, u);
}

/// There is at least one key word, and no more than key bytes, for words of
/// two bytes or more.
pub proof fn lemma_key_words_len_range(b: nat, u: nat)
    requires
        2 <= u,
    ensures
        1 <= key_words_len(b, u) <= if b == 0 {
            1
        } else {
            b
        },
{
    if b > 0 {
        lemma_key_word_index(b, u, (b - 1) as nat);
        assert(b + u - 1 <= b * u) by (nonlinear_arith)
            requires
                1 <= b,
                1 <= u,
        ;
        lemma_div_is_ordered(b + u - 1, (b * u) as int, u as int);
        lemma_div_by_multiple(b as int, u as int);
    }
}

/// Packing keeps the number of key words at `c`.
pub proof fn lemma_packed_words_len<W: Word>(key: Seq<u8>, from: nat)
    ensures
        packed_words::<W>(key, from).len() == key_words_len(key.len(), W::bytes_spec()),
    decreases key.len() - from,
{
    if from < key.len() {
        W::lemma_bytes_range();
        lemma_packed_words_len::<W>(key, from + 1);
        lemma_key_word_index(key.len(), W::bytes_spec(), from);
    }
}

/// `n` little-endian bytes make a number below `256^n`.
pub proof fn lemma_le_value_bound(bytes: Seq<u8>)
    ensures
        le_value(bytes) < pow256(bytes.len()),
    decreases bytes.len(),
{
    if bytes.len() > 0 {
        lemma_le_value_bound(bytes.drop_first());
    }
}

/// `256^m <= 256^n` for `m <= n`.
pub proof fn lemma_pow256_monotonic(m: nat, n: nat)
    requires
        m <= n,
    ensures
        pow256(m) <= pow256(n),
    decreases n,
{
    if m < n {
        lemma_pow256_monotonic(m, (n - 1) as nat);
    }
}

/// Once the bytes from position `i` on have been packed, each key word holds
/// the packed bytes of its own span as a little-endian number.
pub proof fn lemma_packed_words_value<W: Word>(key: Seq<u8>, i: nat)
    requires
        i <= key.len(),
    ensures
        forall|j: int|
            0 <= j < key_words_len(key.len(), W::bytes_spec()) ==> (#[trigger] packed_words::<W>(
                key,
                i,
            )[j]).value_spec() == le_value(
                key.subrange(
                    chunk_start(key.len(), W::bytes_spec(), j as nat, i) as int,
                    chunk_end(key.len(), W::bytes_spec(), j as nat) as int,
                ),
            ),
    decreases key.len() - i,
{
    let b = key.len();
    let u = W::bytes_spec();
    let c = key_words_len(b, u);
    W::lemma_bytes_range();
    lemma_packed_words_len::<W>(key, i);
    if i == b {
        W::lemma_zero_value();
        assert forall|j: int| 0 <= j < c implies (#[trigger] packed_words::<W>(key, i)[j]).value_spec()
            == le_value(
            key.subrange(chunk_start(b, u, j as nat, i) as int, chunk_end(b, u, j as nat) as int),
        ) by {
            assert(chunk_start(b, u, j as nat, i) == chunk_end(b, u, j as nat));
            assert(key.subrange(
                chunk_start(b, u, j as nat, i) as int,
                chunk_end(b, u, j as nat) as int,
            ).len() == 0);
        }
    } else {
        lemma_packed_words_value::<W>(key, i + 1);
        lemma_packed_words_len::<W>(key, i + 1);
        lemma_key_word_index(b, u, i);
        let j0 = i / u;
        lemma_fundamental_div_mod(i as int, u as int);
        lemma_mod_bound(i as int, u as int);
        assert(j0 * u <= i < j0 * u + u) by (nonlinear_arith)
            requires
                i == u * j0 + i % u,
                0 <= i % u < u,
        ;
        assert((j0 + 1) * u == j0 * u + u) by (nonlinear_arith);
        let l = packed_words::<W>(key, i + 1);
        let e0 = chunk_end(b, u, j0);
        assert(chunk_start(b, u, j0, i + 1) == i + 1);
        assert(chunk_start(b, u, j0, i) == i);
        let rest = key.subrange((i + 1) as int, e0 as int);
        lemma_le_value_bound(rest);
        lemma_pow256_monotonic(rest.len(), (u - 1) as nat);
        W::lemma_shift_in_byte(l[j0 as int], key[i as int]);
        assert(key.subrange(i as int, e0 as int).drop_first() =~= rest);
        assert forall|j: int| 0 <= j < c implies (#[trigger] packed_words::<W>(key, i)[j]).value_spec()
            == le_value(
            key.subrange(chunk_start(b, u, j as nat, i) as int, chunk_end(b, u, j as nat) as int),
        ) by {
            if j != j0 {
                if j > j0 {
                    assert(j * u >= j0 * u + u) by (nonlinear_arith)
                        requires
                            j >= j0 + 1,
                            u >= 0,
                    ;
                } else {
                    assert((j + 1) * u <= j0 * u) by (nonlinear_arith)
                        requires
                            j + 1 <= j0,
                            u >= 0,
                    ;
                }
                assert(chunk_start(b, u, j as nat, i) == chunk_start(b, u, j as nat, i + 1));
            }
        }
    }
}

/// Mixing keeps the lengths of both arrays and the cursors within them.
pub proof fn lemma_mix_steps_shape<W: Word>(st: MixState<W>, k: nat)
    requires
        st.si < st.s.len(),
        st.li < st.l.len(),
    ensures
        mix_steps(st, k).s.len() == st.s.len(),
        mix_steps(st, k).l.len() == st.l.len(),
        mix_steps(st, k).si < st.s.len(),
        mix_steps(st, k).li < st.l.len(),
    decreases k,
{
    if k > 0 {
        lemma_mix_steps_shape(st, (k - 1) as nat);
    }
}

/// The expanded key table has `2 * (rounds + 1)` words.
pub proof fn lemma_expanded_key_table_len<W: Word>(key: Seq<u8>, rounds: nat)
    ensures
        expanded_key_table::<W>(key, rounds).len() == 2 * (rounds + 1),
{
    W::lemma_bytes_range();
    lemma_packed_words_len::<W>(key, 0);
    lemma_key_words_len_range(key.len(), W::bytes_spec());
    let s = seeded_table::<W>(2 * (rounds + 1));
    let l = key_as_words::<W>(key);
    lemma_mix_steps_shape(mix_start(s, l), mix_count(s.len(), l.len()));
}

/// Packs the key bytes into `c` words, little-endian, the last word padded
/// with zeros.
pub fn key_into_words<W: Word>(key: &[u8]) -> (l: Vec<W>)
    requires
        key@.len() <= 255,
    ensures
        l@ == key_as_words::<W>(key@),
        l@.len() == key_words_len(key@.len(), W::bytes_spec()),
        forall|j: int|
            0 <= j < l@.len() ==> (#[trigger] l@[j]).value_spec() == le_value(
                key_word_bytes(key@, W::bytes_spec(), j as nat),
            ),
{
    proof {
        W::lemma_bytes_range();
    }
    let u = W::bytes();
    let b = key.len();
    let c = if b == 0 {
        1
    } else {
        (b + u - 1) / u
    };
    let zero = W::from_byte(0);
    let mut l: Vec<W> = Vec::new();
    while l.len() < c
        invariant
            l.len() <= c,
            forall|j: int| 0 <= j < l.len() ==> l@[j] == W::from_byte_spec(0),
            zero == W::from_byte_spec(0),
        decreases c - l.len(),
    {
        l.push(zero);
    }
    assert(l@ == packed_words::<W>(key@, b as nat));
    let eight = W::from_byte(8);
    let mut i: usize = b;
    while i > 0
        invariant
            i <= b,
            b == key@.len(),
            u == W::bytes_spec(),
            2 <= u <= 8,
            c == key_words_len(b as nat, u as nat),
            l@ == packed_words::<W>(key@, i as nat),
            eight == W::from_byte_spec(8),
        decreases i,
    {
        i = i - 1;
        let j = i / u;
        proof {
            lemma_packed_words_len::<W>(key@, (i + 1) as nat);
            lemma_key_word_index(b as nat, u as nat, i as nat);
        }
        let w = l[j].rotate_left(eight).wrapping_add(W::from_byte(key[i]));
        l.set(j, w);
    }
    proof {
        lemma_packed_words_len::<W>(key@, 0);
        lemma_packed_words_value::<W>(key@, 0);
    }
    l
}

/// Seeds a table of `2 * (rounds + 1)` words with `P, P + Q, P + 2Q, ...`.
pub fn initialize_expanded_key_table<W: Word>(rounds: usize) -> (s: Vec<W>)
    requires
        rounds <= 255,
    ensures
        s@ == seeded_table::<W>(2 * (rounds + 1) as nat),
{
    let t = 2 * (rounds + 1);
    let q = W::q();
    let mut s: Vec<W> = Vec::new();
    s.push(W::p());
    let mut i: usize = 1;
    while i < t
        invariant
            1 <= i <= t,
            s.len() == i,
            q == W::q_spec(),
            forall|j: int| 0 <= j < i ==> s@[j] == seed_word::<W>(j as nat),
        decreases t - i,
    {
        let next = s[i - 1].wrapping_add(q);
        s.push(next);
        i = i + 1;
    }
    assert(s@ == seeded_table::<W>(t as nat));
    s
}

/// Mixes the key words into the seeded table: `3 * max(t, c)` steps, each
/// updating one word of the table and one key word.
pub fn mix_in<W: Word>(key_table: Vec<W>, key_as_words: Vec<W>) -> (s: Vec<W>)
    requires
        1 <= key_table.len() <= 512,
        1 <= key_as_words.len() <= 256,
    ensures
        s@ == mixed_table(key_table@, key_as_words@),
{
    let ghost start = mix_start(key_table@, key_as_words@);
    let mut s = key_table;
    let mut l = key_as_words;
    let t = s.len();
    let c = l.len();
    let n = 3 * if t >= c {
        t
    } else {
        c
    };
    let three = W::from_byte(3);
    let mut a = W::from_byte(0);
    let mut b = W::from_byte(0);
    let mut si: usize = 0;
    let mut li: usize = 0;
    let mut k: usize = 0;
    while k < n
        invariant
            k <= n,
            n == mix_count(t as nat, c as nat),
            s.len() == t,
            l.len() == c,
            si < t,
            li < c,
            three == W::from_byte_spec(3),
            mix_steps(start, k as nat) == (MixState { s: s@, l: l@, a, b, si: si as nat, li: li as nat }),
        decreases n - k,
    {
        let x = s[si].wrapping_add(a).wrapping_add(b).rotate_left(three);
        s.set(si, x);
        a = x;
        let y = l[li].wrapping_add(a).wrapping_add(b).rotate_left(a.wrapping_add(b));
        l.set(li, y);
        b = y;
        si = (si + 1) % t;
        li = (li + 1) % c;
        k = k + 1;
    }
    s
}

/// Expands `key` into the table of `2 * (rounds + 1)` round words.
pub fn substitute_key<W: Word>(key: &[u8], rounds: usize) -> (s: Vec<W>)
    requires
        key@.len() <= 255,
        rounds <= 255,
    ensures
        s@ == expanded_key_table::<W>(key@, rounds as nat),
        s@.len() == 2 * (rounds + 1),
{
    proof {
        W::lemma_bytes_range();
        lemma_packed_words_len::<W>(key@, 0);
        lemma_key_words_len_range(key@.len(), W::bytes_spec());
        lemma_expanded_key_table_len::<W>(key@, rounds as nat);
    }
    let key_as_words = key_into_words::<W>(key);
    let key_table = initialize_expanded_key_table::<W>(rounds);
    mix_in(key_table, key_as_words)
}

} // verus!
