//! What the name of a merged file tells of its inputs.

use crate::decimal;
use crate::server::compaction;
use vstd::prelude::*;

verus! {

/// One byte in a hash of 64 bits: the exclusive or, then a product that wraps.
pub open spec fn taken_in(hash: u64, byte: u8) -> u64 {
    (((hash ^ (byte as u64)) as nat * 0x100000001b3) % 0x1_0000_0000_0000_0000) as u64
}

/// The bytes of some names, each with a bar behind it.
pub open spec fn barred_bytes(names: Seq<Seq<char>>) -> Seq<u8> {
    names.map_values(|n: Seq<char>| vstd::utf8::encode_utf8(n).push(0x7cu8)).flatten()
}

proof fn lemma_bytes_fold(hash: u64, bytes: Seq<u8>)
    ensures
        compaction::fnv1a(hash, bytes) == bytes.fold_left(hash, |h: u64, b: u8| taken_in(h, b)),
    decreases bytes.len(),
{
    if bytes.len() > 0 {
        lemma_bytes_fold(hash, bytes.drop_last());
    }
}

proof fn lemma_fold_add(hash: u64, a: Seq<u8>, b: Seq<u8>)
    ensures
        (a + b).fold_left(hash, |h: u64, b: u8| taken_in(h, b)) == b.fold_left(
            a.fold_left(hash, |h: u64, b: u8| taken_in(h, b)),
            |h: u64, b: u8| taken_in(h, b),
        ),
{
    let f = |h: u64, b: u8| taken_in(h, b);
    let all = a + b;
    all.lemma_fold_left_split(hash, f, a.len() as int);
    assert(all.subrange(0, a.len() as int) =~= a);
    assert(all.subrange(a.len() as int, all.len() as int) =~= b);
}

/// The fingerprint takes in every byte of every name, in order, and a bar behind each name.
pub proof fn fingerprint_takes_in_every_byte(names: Seq<Seq<char>>)
    ensures
        compaction::fnv1a_of_names(names) == barred_bytes(names).fold_left(
            0xcbf29ce484222325u64,
            |h: u64, b: u8| taken_in(h, b),
        ),
    decreases names.len(),
{
    let f = |h: u64, b: u8| taken_in(h, b);
    let start = 0xcbf29ce484222325u64;
    if names.len() > 0 {
        let front = names.drop_last();
        let bytes = vstd::utf8::encode_utf8(names.last());
        let part = bytes.push(0x7cu8);
        let parts = |n: Seq<char>| vstd::utf8::encode_utf8(n).push(0x7cu8);
        fingerprint_takes_in_every_byte(front);
        assert(names.map_values(parts) =~= front.map_values(parts).push(part));
        front.map_values(parts).lemma_flatten_push(part);
        assert(barred_bytes(names) =~= barred_bytes(front) + part);
        lemma_fold_add(start, barred_bytes(front), part);
        lemma_bytes_fold(compaction::fnv1a_of_names(front), bytes);
        assert(part.drop_last() =~= bytes);
        assert(part.fold_left(compaction::fnv1a_of_names(front), f) == f(
            bytes.fold_left(compaction::fnv1a_of_names(front), f),
            0x7cu8,
        ));
    }
}

proof fn lemma_product_undone(x: u64)
    ensures
        ((x as nat * 0x100000001b3) % 0x1_0000_0000_0000_0000) * 0xce965057aff6957b
            % 0x1_0000_0000_0000_0000 == x,
{
    let p: int = 0x100000001b3;
    let i: int = 0xce965057aff6957b;
    let m: int = 0x1_0000_0000_0000_0000;
    let n = x as int;
    vstd::arithmetic::div_mod::lemma_mul_mod_noop_left(n * p, i, m);
    assert(p * i == 887285111055 * m + 1) by (nonlinear_arith)
        requires
            p == 0x100000001b3,
            i == 0xce965057aff6957b,
            m == 0x1_0000_0000_0000_0000,
    ;
    assert((n * p) * i == (n * 887285111055) * m + n) by (nonlinear_arith)
        requires
            p * i == 887285111055 * m + 1,
    ;
    vstd::arithmetic::div_mod::lemma_mod_multiples_vanish(n * 887285111055, n, m);
    vstd::arithmetic::div_mod::lemma_small_mod(x as nat, m as nat);
    assert(m * (n * 887285111055) == (n * 887285111055) * m) by (nonlinear_arith);
}

/// Nothing of what was taken in is lost by one more byte: hashes that differ still differ
/// after the same byte, and one hash differs after two bytes that differ.
pub proof fn hashes_stay_apart(a: u64, b: u64, x: u8, y: u8)
    ensures
        a != b ==> taken_in(a, x) != taken_in(b, x),
        x != y ==> taken_in(a, x) != taken_in(a, y),
{
    lemma_product_undone(a ^ (x as u64));
    lemma_product_undone(b ^ (x as u64));
    lemma_product_undone(a ^ (y as u64));
    assert(a != b ==> a ^ (x as u64) != b ^ (x as u64)) by (bit_vector);
    assert(x != y ==> a ^ (x as u64) != a ^ (y as u64)) by (bit_vector);
}

proof fn lemma_folds_stay_apart(a: u64, b: u64, bytes: Seq<u8>)
    requires
        a != b,
    ensures
        bytes.fold_left(a, |h: u64, b: u8| taken_in(h, b)) != bytes.fold_left(
            b,
            |h: u64, b: u8| taken_in(h, b),
        ),
    decreases bytes.len(),
{
    let f = |h: u64, b: u8| taken_in(h, b);
    if bytes.len() > 0 {
        let front = bytes.drop_last();
        lemma_folds_stay_apart(a, b, front);
        hashes_stay_apart(front.fold_left(a, f), front.fold_left(b, f), bytes.last(), 0);
    }
}

proof fn lemma_one_byte_tells(hash: u64, front: Seq<u8>, x: u8, y: u8, back: Seq<u8>)
    requires
        x != y,
    ensures
        (front.push(x) + back).fold_left(hash, |h: u64, b: u8| taken_in(h, b)) != (front.push(y)
            + back).fold_left(hash, |h: u64, b: u8| taken_in(h, b)),
{
    let f = |h: u64, b: u8| taken_in(h, b);
    lemma_fold_add(hash, front.push(x), back);
    lemma_fold_add(hash, front.push(y), back);
    assert(front.push(x).drop_last() =~= front);
    assert(front.push(y).drop_last() =~= front);
    let h = front.fold_left(hash, f);
    assert(front.push(x).fold_left(hash, f) == f(h, x));
    assert(front.push(y).fold_left(hash, f) == f(h, y));
    hashes_stay_apart(h, h, x, y);
    lemma_folds_stay_apart(f(h, x), f(h, y), back);
}

proof fn lemma_barred_split(front: Seq<Seq<char>>, name: Seq<char>, back: Seq<Seq<char>>)
    ensures
        barred_bytes(front.push(name) + back) == barred_bytes(front) + vstd::utf8::encode_utf8(
            name,
        ).push(0x7cu8) + barred_bytes(back),
    decreases back.len(),
{
    let parts = |n: Seq<char>| vstd::utf8::encode_utf8(n).push(0x7cu8);
    if back.len() == 0 {
        assert(front.push(name) + back =~= front.push(name));
        assert(front.push(name).map_values(parts) =~= front.map_values(parts).push(parts(name)));
        front.map_values(parts).lemma_flatten_push(parts(name));
        assert(back.map_values(parts) =~= Seq::<Seq<u8>>::empty());
        assert(barred_bytes(back) =~= Seq::<u8>::empty());
    } else {
        let all = front.push(name) + back;
        lemma_barred_split(front, name, back.drop_last());
        assert(all.drop_last() =~= front.push(name) + back.drop_last());
        assert(all.map_values(parts) =~= all.drop_last().map_values(parts).push(
            parts(back.last()),
        ));
        all.drop_last().map_values(parts).lemma_flatten_push(parts(back.last()));
        assert(back.map_values(parts) =~= back.drop_last().map_values(parts).push(
            parts(back.last()),
        ));
        back.drop_last().map_values(parts).lemma_flatten_push(parts(back.last()));
        assert(barred_bytes(all) =~= barred_bytes(front) + parts(name) + barred_bytes(back));
    }
}

/// One byte of one name tells two lists of names apart: where the lists agree but for one
/// name, and the two names but for one byte, wherever it stands, the fingerprints differ.
pub proof fn one_byte_changes_the_fingerprint(a: Seq<Seq<char>>, b: Seq<Seq<char>>, i: int, j: int)
    requires
        a.len() == b.len(),
        0 <= i < a.len(),
        forall|k: int| 0 <= k < a.len() && k != i ==> #[trigger] a[k] == b[k],
        ({
            let x = vstd::utf8::encode_utf8(a[i]);
            let y = vstd::utf8::encode_utf8(b[i]);
            &&& x.len() == y.len()
            &&& 0 <= j < x.len()
            &&& x[j] != y[j]
            &&& forall|k: int| 0 <= k < x.len() && k != j ==> #[trigger] x[k] == y[k]
        }),
    ensures
        compaction::fnv1a_of_names(a) != compaction::fnv1a_of_names(b),
{
    let x = vstd::utf8::encode_utf8(a[i]);
    let y = vstd::utf8::encode_utf8(b[i]);
    let front = a.take(i);
    let back = a.skip(i + 1);
    assert(a =~= front.push(a[i]) + back);
    assert(b =~= front.push(b[i]) + back);
    lemma_barred_split(front, a[i], back);
    lemma_barred_split(front, b[i], back);
    let before = barred_bytes(front) + x.take(j);
    let behind = x.skip(j + 1).push(0x7cu8) + barred_bytes(back);
    assert(barred_bytes(a) =~= before.push(x[j]) + behind);
    assert(barred_bytes(b) =~= before.push(y[j]) + behind);
    fingerprint_takes_in_every_byte(a);
    fingerprint_takes_in_every_byte(b);
    lemma_one_byte_tells(0xcbf29ce484222325u64, before, x[j], y[j], behind);
}

/// The name of a merged file tells the fingerprint and the number of its inputs: where one
/// of them differs, the names differ.
pub proof fn merged_names_tell_the_fingerprint(a: Seq<Seq<char>>, b: Seq<Seq<char>>)
    requires
        compaction::merged_name(a) == compaction::merged_name(b),
    ensures
        compaction::fnv1a_of_names(a) == compaction::fnv1a_of_names(b),
        a.len() == b.len(),
{
    let ha = decimal::numeral(compaction::fnv1a_of_names(a) as nat);
    let hb = decimal::numeral(compaction::fnv1a_of_names(b) as nat);
    let na = decimal::numeral(a.len());
    let nb = decimal::numeral(b.len());
    decimal::lemma_numeral_value(compaction::fnv1a_of_names(a) as nat);
    decimal::lemma_numeral_value(compaction::fnv1a_of_names(b) as nat);
    decimal::lemma_numeral_value(a.len());
    decimal::lemma_numeral_value(b.len());
    reveal_strlit("compacted_");
    reveal_strlit("_");
    reveal_strlit(".parquet");
    let head = "compacted_"@;
    let m = compaction::merged_name(a);
    assert(m == compaction::merged_name(b));
    if ha.len() < hb.len() {
        assert(m[(head.len() + ha.len()) as int] == '_');
        assert(m[(head.len() + ha.len()) as int] == hb[ha.len() as int]);
        assert(decimal::is_digit(hb[ha.len() as int]));
    }
    if hb.len() < ha.len() {
        assert(m[(head.len() + hb.len()) as int] == '_');
        assert(m[(head.len() + hb.len()) as int] == ha[hb.len() as int]);
        assert(decimal::is_digit(ha[hb.len() as int]));
    }
    assert(ha =~= m.subrange(head.len() as int, (head.len() + ha.len()) as int));
    assert(hb =~= m.subrange(head.len() as int, (head.len() + hb.len()) as int));
    let at = (head.len() + ha.len() + 1) as int;
    assert(m.len() == at + na.len() + ".parquet"@.len());
    assert(m.len() == at + nb.len() + ".parquet"@.len());
    assert(na =~= m.subrange(at, at + na.len()));
    assert(nb =~= m.subrange(at, at + nb.len()));
}

} // verus!
