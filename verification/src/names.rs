//! The new name of a file or directory: XOR'd then hexified when encrypting,
//! unhexified then XOR'd when decrypting.

use vstd::prelude::*;
use vstd::utf8::*;
use crate::key::{
    can_cycle, xor_cycled, repeat_key, xor_bytes, lemma_xor_zip_cycled, xor_twice_restores,
    xor_cycled_uses_whole_key_bytes,
};
use crate::hexcode::{
    hex_upper, is_hex, hex_decoded, to_hex_string, decode_hex, hex_round_trip,
    hex_upper_is_two_upper_digits_per_byte, hex_decoding_reads_digit_pairs,
};

verus! {

/// How names are processed: encrypted names are XOR'd then hexified,
/// decrypted names are unhexified then XOR'd.
#[derive(PartialEq, Eq, Structural, Clone, Copy, Debug)]
pub enum Mode {
    Encrypt,
    Decrypt,
}

/// The encrypted form of a name: its UTF-8 bytes XOR'd against the key, as
/// upper-case hexadecimal.
pub open spec fn encrypted_name(name: Seq<char>, key: Seq<u8>) -> Seq<char> {
    hex_upper(xor_cycled(encode_utf8(name), key))
}

/// The bytes that decrypting a name gives: the bytes its hexadecimal digits
/// stand for, XOR'd against the key.
pub open spec fn decrypted_bytes(name: Seq<char>, key: Seq<u8>) -> Seq<u8> {
    xor_cycled(hex_decoded(encode_utf8(name)), key)
}

/// The decrypted form of a name, read as UTF-8.
pub open spec fn decrypted_name(name: Seq<char>, key: Seq<u8>) -> Seq<char> {
    decode_utf8(decrypted_bytes(name, key))
}

/// The name in the given mode can be computed: the key can be repeated out
/// to the byte length of the name, and, when decrypting, the name is
/// hexadecimal and decrypts to valid UTF-8.
pub open spec fn renamable(name: Seq<char>, key: Seq<u8>, mode: Mode) -> bool {
    &&& can_cycle(key, encode_utf8(name).len())
    &&& (mode == Mode::Decrypt ==> {
        &&& is_hex(encode_utf8(name))
        &&& valid_utf8(decrypted_bytes(name, key))
    })
}

/// The name an entry is renamed to in the given mode.
pub open spec fn replaced_name(name: Seq<char>, key: Seq<u8>, mode: Mode) -> Seq<char> {
    match mode {
        Mode::Encrypt => encrypted_name(name, key),
        Mode::Decrypt => decrypted_name(name, key),
    }
}

/// Reads bytes as UTF-8 (`String::from_utf8`): a string exactly when the
/// bytes are valid UTF-8, and then the characters they encode.
#[verifier::external_body]
fn string_from_utf8(bytes: Vec<u8>) -> (res: Option<String>)
    ensures
        res is Some <==> valid_utf8(bytes@),
        res matches Some(s) ==> s@ == decode_utf8(bytes@),
{
    String::from_utf8(bytes).ok()
}

/// The new name of an entry called `name`, or `None` where it cannot be
/// computed (see `renamable`).
pub fn try_rename_target(name: &String, key: &Vec<u8>, mode: Mode) -> (res: Option<String>)
    ensures
        res is Some <==> renamable(name@, key@, mode),
        res matches Some(s) ==> s@ == replaced_name(name@, key@, mode),
{
    let name_bytes = name.as_str().as_bytes();
    if !(key.len() > 0 || name_bytes.len() == 0) {
        return None;
    }
    let key_repeated = repeat_key(key, name_bytes.len());
    match mode {
        Mode::Encrypt => {
            let encrypted = xor_bytes(name_bytes, key_repeated.as_slice());
            proof {
                lemma_xor_zip_cycled(name_bytes@, key@, name_bytes@.len());
            }
            Some(to_hex_string(encrypted))
        },
        Mode::Decrypt => {
            match decode_hex(name) {
                Ok(input_bytes) => {
                    let encrypted = xor_bytes(input_bytes.as_slice(), key_repeated.as_slice());
                    proof {
                        lemma_xor_zip_cycled(input_bytes@, key@, name_bytes@.len());
                    }
                    string_from_utf8(encrypted)
                },
                Err(_) => None,
            }
        },
    }
}

/// Renames a name: when `mode` is `Encrypt` the name is XOR'd then
/// hexlified, when it is `Decrypt` the name is unhexlified then XOR'd.
pub fn rename_target(name: &String, key: &Vec<u8>, mode: Mode) -> (new_name: String)
    requires
        renamable(name@, key@, mode),
    ensures
        new_name@ == replaced_name(name@, key@, mode),
{
    match try_rename_target(name, key, mode) {
        Some(new_name) => new_name,
        None => {
            proof {
                assert(false);
            }
            String::new()
        },
    }
}

/// Decrypting an encrypted name with the same key gives the original name
/// back, whatever the name (the key only has to be non-empty where the name
/// is).
pub proof fn decrypt_undoes_encrypt(name: Seq<char>, key: Seq<u8>)
    requires
        renamable(name, key, Mode::Encrypt),
    ensures
        renamable(encrypted_name(name, key), key, Mode::Decrypt),
        replaced_name(replaced_name(name, key, Mode::Encrypt), key, Mode::Decrypt) == name,
{
    let bytes = encode_utf8(name);
    let x = xor_cycled(bytes, key);
    let e = encrypted_name(name, key);
    hex_round_trip(x);
    xor_twice_restores(bytes, key);
    encode_utf8_valid_utf8(name);
    encode_utf8_decode_utf8(name);
    assert(decrypted_bytes(e, key) == bytes);
    // The encoding is hexadecimal, so of even length, and decodes to `x`.
    assert(encode_utf8(e).len() / 2 == x.len());
}

/// Encrypting a decrypted name with the same key gives the name's digits
/// back in upper case: names that were produced by encryption come back
/// unchanged.
pub proof fn encrypt_undoes_decrypt(name: Seq<char>, key: Seq<u8>)
    requires
        renamable(name, key, Mode::Decrypt),
    ensures
        renamable(decrypted_name(name, key), key, Mode::Encrypt),
        replaced_name(replaced_name(name, key, Mode::Decrypt), key, Mode::Encrypt)
            == hex_upper(hex_decoded(encode_utf8(name))),
{
    let db = decrypted_bytes(name, key);
    decode_utf8_encode_utf8(db);
    xor_twice_restores(hex_decoded(encode_utf8(name)), key);
}

/// Encrypting renames every name, whatever characters it holds, as soon as
/// the key is not empty (or the name is): the new name has two upper-case
/// hexadecimal digits for each byte of the old one's UTF-8, and the pair for
/// byte `i` stands for that byte XOR'd with `key[i % key.len()]`.
pub proof fn encrypt_renames_every_name(name: Seq<char>, key: Seq<u8>)
    ensures
        renamable(name, key, Mode::Encrypt) <==> (key.len() > 0 || encode_utf8(name).len() == 0),
        renamable(name, key, Mode::Encrypt) ==> replaced_name(name, key, Mode::Encrypt).len() == 2
            * encode_utf8(name).len(),
        renamable(name, key, Mode::Encrypt) ==> forall|i: int|
            0 <= i < encode_utf8(name).len() ==> {
                let hi = #[trigger] replaced_name(name, key, Mode::Encrypt)[2 * i];
                let lo = replaced_name(name, key, Mode::Encrypt)[2 * i + 1];
                &&& ('0' <= hi <= '9' || 'A' <= hi <= 'F')
                &&& ('0' <= lo <= '9' || 'A' <= lo <= 'F')
                &&& (if hi <= '9' { hi as int - 48 } else { hi as int - 55 }) * 16 + (if lo <= '9' {
                    lo as int - 48
                } else {
                    lo as int - 55
                }) == (encode_utf8(name)[i] ^ key[i % (key.len() as int)]) as int
            },
{
    let b = encode_utf8(name);
    let x = xor_cycled(b, key);
    hex_upper_is_two_upper_digits_per_byte(x);
    xor_cycled_uses_whole_key_bytes(b, key);
    if renamable(name, key, Mode::Encrypt) {
        assert forall|i: int| 0 <= i < b.len() implies {
            let hi = #[trigger] replaced_name(name, key, Mode::Encrypt)[2 * i];
            let lo = replaced_name(name, key, Mode::Encrypt)[2 * i + 1];
            &&& ('0' <= hi <= '9' || 'A' <= hi <= 'F')
            &&& ('0' <= lo <= '9' || 'A' <= lo <= 'F')
            &&& (if hi <= '9' { hi as int - 48 } else { hi as int - 55 }) * 16 + (if lo <= '9' {
                lo as int - 48
            } else {
                lo as int - 55
            }) == (b[i] ^ key[i % (key.len() as int)]) as int
        } by {
            assert(hex_upper(x)[2 * i] == replaced_name(name, key, Mode::Encrypt)[2 * i]);
            assert(x[i] == b[i] ^ key[i % (key.len() as int)]);
        }
    }
}

/// Decrypting renames a name exactly when the key is not empty (or the name
/// is), the name's UTF-8 is an even number of hexadecimal digits, upper or
/// lower case, and the bytes they stand for, XOR'd with the key repeated,
/// form valid UTF-8; the new name is then exactly that UTF-8. The key's
/// length does not matter otherwise.
pub proof fn decrypt_renames_hex_names(name: Seq<char>, key: Seq<u8>)
    ensures
        ({
            let b = encode_utf8(name);
            let plain = Seq::new(
                b.len() / 2,
                |i: int|
                    ((if b[2 * i] <= 57 {
                        b[2 * i] - 48
                    } else if b[2 * i] <= 70 {
                        b[2 * i] - 55
                    } else {
                        b[2 * i] - 87
                    }) * 16 + (if b[2 * i + 1] <= 57 {
                        b[2 * i + 1] - 48
                    } else if b[2 * i + 1] <= 70 {
                        b[2 * i + 1] - 55
                    } else {
                        b[2 * i + 1] - 87
                    })) as u8 ^ key[i % (key.len() as int)],
            );
            &&& renamable(name, key, Mode::Decrypt) <==> {
                &&& (key.len() > 0 || b.len() == 0)
                &&& b.len() % 2 == 0
                &&& (forall|j: int|
                    0 <= j < b.len() ==> (48 <= #[trigger] b[j] <= 57 || 65 <= b[j] <= 70 || 97
                        <= b[j] <= 102))
                &&& valid_utf8(plain)
            }
            &&& renamable(name, key, Mode::Decrypt) ==> encode_utf8(
                replaced_name(name, key, Mode::Decrypt),
            ) == plain
        }),
{
    let b = encode_utf8(name);
    let plain = Seq::new(
        b.len() / 2,
        |i: int|
            ((if b[2 * i] <= 57 {
                b[2 * i] - 48
            } else if b[2 * i] <= 70 {
                b[2 * i] - 55
            } else {
                b[2 * i] - 87
            }) * 16 + (if b[2 * i + 1] <= 57 {
                b[2 * i + 1] - 48
            } else if b[2 * i + 1] <= 70 {
                b[2 * i + 1] - 55
            } else {
                b[2 * i + 1] - 87
            })) as u8 ^ key[i % (key.len() as int)],
    );
    hex_decoding_reads_digit_pairs(b);
    if is_hex(b) {
        let h = hex_decoded(b);
        assert(decrypted_bytes(name, key) =~= plain) by {
            assert forall|i: int| 0 <= i < plain.len() implies #[trigger] decrypted_bytes(
                name,
                key,
            )[i] == plain[i] by {
                assert(h[i] as int == (if b[2 * i] <= 57 {
                    b[2 * i] - 48
                } else if b[2 * i] <= 70 {
                    b[2 * i] - 55
                } else {
                    b[2 * i] - 87
                }) * 16 + (if b[2 * i + 1] <= 57 {
                    b[2 * i + 1] - 48
                } else if b[2 * i + 1] <= 70 {
                    b[2 * i + 1] - 55
                } else {
                    b[2 * i + 1] - 87
                }));
            }
        }
        if valid_utf8(plain) {
            decode_utf8_encode_utf8(plain);
        }
    }
}

} // verus!
