//! Repeating a key and XOR-ing data against it.

use vstd::prelude::*;

verus! {

/// The key repeated until it is `len` bytes long: byte `i` is `key[i % key.len()]`.
pub open spec fn cycled_key(key: Seq<u8>, len: nat) -> Seq<u8> {
    Seq::new(len, |i: int| key[i % (key.len() as int)])
}

/// `data` XOR'd byte by byte against the key, which is repeated as often as
/// `data` needs and always restarts at its first byte where `data` starts.
pub open spec fn xor_cycled(data: Seq<u8>, key: Seq<u8>) -> Seq<u8> {
    Seq::new(data.len(), |i: int| data[i] ^ key[i % (key.len() as int)])
}

/// `data` XOR'd against the key repeated from position `offset` of the key
/// on: byte `i` is XOR'd with `key[(offset + i) % key.len()]`.
pub open spec fn xor_cycled_from(data: Seq<u8>, key: Seq<u8>, offset: int) -> Seq<u8> {
    Seq::new(data.len(), |i: int| data[i] ^ key[(offset + i) % (key.len() as int)])
}

/// Two sequences XOR'd pairwise, as long as the shorter of the two.
pub open spec fn xor_zip(data: Seq<u8>, pad: Seq<u8>) -> Seq<u8> {
    Seq::new(
        if data.len() <= pad.len() { data.len() } else { pad.len() },
        |i: int| data[i] ^ pad[i],
    )
}

/// A key can be repeated out to `len` bytes when it is not empty, or when
/// nothing is asked of it.
pub open spec fn can_cycle(key: Seq<u8>, len: nat) -> bool {
    key.len() > 0 || len == 0
}

proof fn lemma_mod_after_whole_cycles(start: int, j: int, k: int)
    requires
        k > 0,
        start >= 0,
        start % k == 0,
        0 <= j < k,
    ensures
        (start + j) % k == j,
{
    vstd::arithmetic::div_mod::lemma_fundamental_div_mod(start, k);
    vstd::arithmetic::div_mod::lemma_mod_multiples_vanish(start / k, j, k);
    vstd::arithmetic::div_mod::lemma_small_mod(j as nat, k as nat);
}

/// Creates a vector of bytes `required_len` long out of the key, repeating
/// the key as often as needed.
pub fn repeat_key(key: &Vec<u8>, required_len: usize) -> (key_repeated: Vec<u8>)
    requires
        can_cycle(key@, required_len as nat),
    ensures
        key_repeated@ == cycled_key(key@, required_len as nat),
{
    let mut key_repeated: Vec<u8> = Vec::with_capacity(required_len);
    while key_repeated.len() < required_len
        invariant
            can_cycle(key@, required_len as nat),
            key_repeated.len() <= required_len,
            key_repeated.len() < required_len ==> key_repeated.len() % key.len() == 0,
            key_repeated@ =~= cycled_key(key@, key_repeated.len() as nat),
        decreases required_len - key_repeated.len(),
    {
        let ghost start = key_repeated.len() as int;
        let mut j: usize = 0;
        while j < key.len()
            invariant_except_break
                key_repeated.len() < required_len,
                j == key.len() ==> key_repeated.len() % key.len() == 0,
            invariant
                key.len() > 0,
                start >= 0,
                start % (key.len() as int) == 0,
                start < required_len,
                j <= key.len(),
                key_repeated.len() == start + j,
                key_repeated.len() <= required_len,
                key_repeated@ =~= cycled_key(key@, key_repeated.len() as nat),
            ensures
                key_repeated.len() <= required_len,
                key_repeated.len() > start,
                key_repeated.len() < required_len ==> key_repeated.len() % key.len() == 0,
                key_repeated@ =~= cycled_key(key@, key_repeated.len() as nat),
            decreases key.len() - j,
        {
            proof {
                lemma_mod_after_whole_cycles(start, j as int, key.len() as int);
            }
            key_repeated.push(key[j]);
            j += 1;
            if key_repeated.len() == required_len {
                break;
            }
            proof {
                if j == key.len() {
                    vstd::arithmetic::div_mod::lemma_mod_multiples_vanish(1, start, key.len() as int);
                    assert((start + key.len()) % (key.len() as int) == 0);
                }
            }
        }
    }
    key_repeated
}

/// XORs `data` pairwise against `pad`, stopping at the end of the shorter of
/// the two.
pub fn xor_bytes(data: &[u8], pad: &[u8]) -> (encrypted: Vec<u8>)
    ensures
        encrypted@ == xor_zip(data@, pad@),
{
    let n: usize = if data.len() <= pad.len() { data.len() } else { pad.len() };
    let mut encrypted: Vec<u8> = Vec::with_capacity(n);
    let mut i: usize = 0;
    while i < n
        invariant
            n == (if data@.len() <= pad@.len() { data@.len() } else { pad@.len() }),
            i <= n,
            encrypted@ =~= xor_zip(data@, pad@).take(i as int),
        decreases n - i,
    {
        encrypted.push(data[i] ^ pad[i]);
        i += 1;
    }
    encrypted
}

/// XOR's `data` against the key, repeated as often as `data` needs.
pub fn xor_with_key(data: &[u8], key: &Vec<u8>) -> (encrypted: Vec<u8>)
    requires
        can_cycle(key@, data@.len()),
    ensures
        encrypted@ == xor_cycled(data@, key@),
{
    let key_repeated = repeat_key(key, data.len());
    proof {
        lemma_xor_zip_cycled(data@, key@, data@.len());
    }
    xor_bytes(data, key_repeated.as_slice())
}

/// XOR's `data` against the key repeated from position `offset` of the key
/// on, and returns the position that the next byte would use.
pub fn xor_with_key_from(data: &[u8], key: &Vec<u8>, offset: usize) -> (res: (Vec<u8>, usize))
    requires
        can_cycle(key@, data@.len()),
        key@.len() > 0 ==> offset < key@.len(),
    ensures
        res.0@ == xor_cycled_from(data@, key@, offset as int),
        key@.len() > 0 ==> res.1 == (offset + data@.len()) % (key@.len() as int),
        key@.len() == 0 ==> res.1 == offset,
{
    let mut encrypted: Vec<u8> = Vec::with_capacity(data.len());
    let mut pos: usize = offset;
    let mut i: usize = 0;
    proof {
        if key@.len() > 0 {
            vstd::arithmetic::div_mod::lemma_small_mod(offset as nat, key@.len() as nat);
        }
    }
    while i < data.len()
        invariant
            can_cycle(key@, data@.len()),
            i <= data@.len(),
            key@.len() > 0 ==> pos < key@.len() && pos == (offset + i) % (key@.len() as int),
            key@.len() == 0 ==> pos == offset,
            key@.len() > 0 ==> offset < key@.len(),
            encrypted@ =~= xor_cycled_from(data@, key@, offset as int).take(i as int),
        decreases data.len() - i,
    {
        assert(key@.len() > 0);
        encrypted.push(data[i] ^ key[pos]);
        if pos == key.len() - 1 {
            pos = 0;
        } else {
            pos = pos + 1;
        }
        proof {
            let k = key@.len() as int;
            vstd::arithmetic::div_mod::lemma_add_mod_noop_right(1, offset + i, k);
            if (offset + i) % k + 1 < k {
                vstd::arithmetic::div_mod::lemma_small_mod(((offset + i) % k + 1) as nat, k as nat);
            } else {
                vstd::arithmetic::div_mod::lemma_mod_self_0(k);
            }
            assert(pos == (offset + i + 1) % k);
        }
        i += 1;
    }
    proof {
        if key@.len() == 0 {
            assert(data@.len() == 0);
        }
    }
    (encrypted, pos)
}

/// Encrypting data in two pieces, the second piece picking up the key where
/// the first left it, is encrypting the whole at once.
pub proof fn lemma_xor_cycled_append(first: Seq<u8>, second: Seq<u8>, key: Seq<u8>)
    requires
        key.len() > 0,
    ensures
        xor_cycled(first + second, key) == xor_cycled(first, key) + xor_cycled_from(
            second,
            key,
            (first.len() as int) % (key.len() as int),
        ),
{
    let k = key.len() as int;
    let n = first.len() as int;
    let lhs = xor_cycled(first + second, key);
    let rhs = xor_cycled(first, key) + xor_cycled_from(second, key, n % k);
    assert forall|j: int| 0 <= j < lhs.len() implies #[trigger] lhs[j] == rhs[j] by {
        if j >= n {
            vstd::arithmetic::div_mod::lemma_add_mod_noop_right(j - n, n, k);
            assert(n % k + (j - n) == (j - n) + n % k);
        }
    }
    assert(xor_cycled(first + second, key) =~= xor_cycled(first, key) + xor_cycled_from(
        second,
        key,
        n % k,
    ));
}

/// XOR-ing against a key repeated out to at least the length of the data is
/// XOR-ing against the cycled key.
pub proof fn lemma_xor_zip_cycled(data: Seq<u8>, key: Seq<u8>, len: nat)
    requires
        can_cycle(key, len),
        data.len() <= len,
    ensures
        xor_zip(data, cycled_key(key, len)) == xor_cycled(data, key),
{
    assert(xor_zip(data, cycled_key(key, len)) =~= xor_cycled(data, key));
}

/// XOR-ing against the same key twice gives the data back: encryption with a
/// key is undone by encrypting again with it.
pub proof fn xor_twice_restores(data: Seq<u8>, key: Seq<u8>)
    ensures
        xor_cycled(xor_cycled(data, key), key) == data,
{
    let once = xor_cycled(data, key);
    assert forall|i: int| 0 <= i < data.len() implies #[trigger] xor_cycled(once, key)[i]
        == data[i] by {
        let a = data[i];
        let b = key[i % (key.len() as int)];
        assert((a ^ b) ^ b == a) by (bit_vector);
    }
    assert(xor_cycled(once, key) =~= data);
}

/// Every byte of the XOR'd data, XOR'd with the data byte it came from, gives
/// back the whole key byte at that position: byte `i` is encrypted with
/// `key[i % key.len()]`, all eight bits of it.
pub proof fn xor_cycled_uses_whole_key_bytes(data: Seq<u8>, key: Seq<u8>)
    ensures
        xor_cycled(data, key).len() == data.len(),
        key.len() > 0 ==> forall|i: int|
            0 <= i < data.len() ==> #[trigger] xor_cycled(data, key)[i] ^ data[i] == key[i % (
            key.len() as int)],
{
    assert forall|i: int| 0 <= i < data.len() implies #[trigger] xor_cycled(data, key)[i]
        ^ data[i] == key[i % (key.len() as int)] by {
        let a = data[i];
        let b = key[i % (key.len() as int)];
        assert((a ^ b) ^ a == b) by (bit_vector);
    }
}

/// As `xor_cycled_uses_whole_key_bytes`, with the key starting at position
/// `offset`: byte `i` is encrypted with `key[(offset + i) % key.len()]`.
pub proof fn xor_cycled_from_uses_whole_key_bytes(data: Seq<u8>, key: Seq<u8>, offset: int)
    ensures
        xor_cycled_from(data, key, offset).len() == data.len(),
        key.len() > 0 ==> forall|i: int|
            0 <= i < data.len() ==> #[trigger] xor_cycled_from(data, key, offset)[i] ^ data[i]
                == key[(offset + i) % (key.len() as int)],
{
    assert forall|i: int| 0 <= i < data.len() implies #[trigger] xor_cycled_from(
        data,
        key,
        offset,
    )[i] ^ data[i] == key[(offset + i) % (key.len() as int)] by {
        let a = data[i];
        let b = key[(offset + i) % (key.len() as int)];
        assert((a ^ b) ^ a == b) by (bit_vector);
    }
}

/// Pairwise XOR is as long as the shorter input, and each of its bytes XOR'd
/// with the data byte gives back the pad byte.
pub proof fn xor_zip_uses_whole_pad_bytes(data: Seq<u8>, pad: Seq<u8>)
    ensures
        xor_zip(data, pad).len() <= data.len(),
        xor_zip(data, pad).len() <= pad.len(),
        xor_zip(data, pad).len() == data.len() || xor_zip(data, pad).len() == pad.len(),
        forall|i: int|
            0 <= i < xor_zip(data, pad).len() ==> #[trigger] xor_zip(data, pad)[i] ^ data[i]
                == pad[i],
{
    assert forall|i: int| 0 <= i < xor_zip(data, pad).len() implies #[trigger] xor_zip(
        data,
        pad,
    )[i] ^ data[i] == pad[i] by {
        let a = data[i];
        let b = pad[i];
        assert((a ^ b) ^ a == b) by (bit_vector);
    }
}

/// The repeated key is as long as asked, starts with the key itself, and
/// repeats with the key's length as its period.
pub proof fn cycled_key_repeats_the_key(key: Seq<u8>, len: nat)
    ensures
        cycled_key(key, len).len() == len,
        forall|i: int| 0 <= i < len && i < key.len() ==> #[trigger] cycled_key(key, len)[i] == key[i],
        forall|i: int|
            0 <= i && i + key.len() < len ==> #[trigger] cycled_key(key, len)[i + key.len()]
                == cycled_key(key, len)[i],
{
    let k = key.len() as int;
    assert forall|i: int| 0 <= i < len && i < k implies #[trigger] cycled_key(key, len)[i]
        == key[i] by {
        vstd::arithmetic::div_mod::lemma_small_mod(i as nat, k as nat);
    }
    assert forall|i: int| 0 <= i && i + k < len implies #[trigger] cycled_key(key, len)[i + k]
        == cycled_key(key, len)[i] by {
        if k > 0 {
            vstd::arithmetic::div_mod::lemma_mod_multiples_vanish(1, i, k);
            assert(k * 1 + i == i + k);
        }
    }
}

} // verus!
