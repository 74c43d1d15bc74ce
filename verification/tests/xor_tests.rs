use xor::hexcode::{decode_hex, from_hex_string, to_hex_string, HexError};
use xor::key::{repeat_key, xor_bytes, xor_with_key};
use xor::names::{rename_target, try_rename_target, Mode};
use xor::prompt::{prompt_step, PromptStep};
use xor::stream::{encrypt_read, encrypt_reader, ReadResult, ReaderAction, READ_BUFFER_SIZE};
use xor::walk::{child_action, next_pass, ChildAction, DirPass, EntryKind};

fn concat(writes: Vec<Vec<u8>>) -> Vec<u8> {
    let mut out = Vec::new();
    for w in writes {
        out.extend(w);
    }
    out
}

#[test]
fn to_hex_string_works() {
    let input_string = String::from("hello");
    let input_bytes = input_string.into_bytes();

    let hex_string = to_hex_string(input_bytes);
    assert_eq!(hex_string, "68656C6C6F");
}

#[test]
fn from_hex_string_works() {
    let input_string = String::from("68656C6C6F");
    let ascii_bytes = from_hex_string(&input_string);
    let expected_bytes = vec![104, 101, 108, 108, 111];

    assert_eq!(expected_bytes, ascii_bytes);
}

#[test]
fn encrypt_reader_works() {
    let input = "hello";
    let expected = "Q\\UUV";

    // What a reader over `input` hands out: the bytes, then the end.
    let reads = vec![ReadResult::Data(input.as_bytes().to_vec()), ReadResult::Data(Vec::new())];
    let key_bytes = vec![57; 1];

    let writes = encrypt_reader(&reads, &key_bytes);

    let cipher_text = String::from_utf8(concat(writes)).unwrap();

    assert_eq!(expected, cipher_text);
}

#[test]
fn xor_file_encrypt_mode_works() {
    let input_data = "hello world".as_bytes();
    let key = vec![71];

    let encrypted_bytes = xor_with_key(input_data, &key);
    let new_name = rename_target(&String::from("input.txt"), &key, Mode::Encrypt);

    assert_eq!(new_name, "2E2937323369333F33");
    assert_eq!(
        encrypted_bytes,
        vec![0x2f_u8, 0x22_u8, 0x2b_u8, 0x2b_u8, 0x28_u8, 0x67_u8, 0x30_u8, 0x28_u8, 0x35_u8, 0x2b_u8, 0x23_u8]
    );
}

#[test]
fn xor_file_decrypt_mode_works() {
    let input_data = vec![0x2f_u8, 0x22_u8, 0x2b_u8, 0x2b_u8, 0x28_u8, 0x67_u8, 0x30_u8, 0x28_u8, 0x35_u8, 0x2b_u8, 0x23_u8];
    let key = vec![71];

    let decrypted_bytes = xor_with_key(&input_data, &key);
    let new_name = rename_target(&String::from("2E2937323369333F33"), &key, Mode::Decrypt);

    assert_eq!(new_name, "input.txt");
    assert_eq!(decrypted_bytes, "hello world".as_bytes());
}

#[test]
fn xor_directory_encrypt_mode_works() {
    let key = vec![71];
    let enc = |name: &str| rename_target(&String::from(name), &key, Mode::Encrypt);

    assert_eq!(enc("parent_dir"), "37263522293318232E35");
    assert_eq!(enc("child_dir"), "242F2E2B2318232E35");
    assert_eq!(enc("file_a"), "212E2B221826");
    assert_eq!(enc("file_b"), "212E2B221825");
    assert_eq!(enc("file_c"), "212E2B221824");

    assert_eq!(xor_with_key(&[1_u8, 2, 3, 4, 5], &key), vec![70_u8, 69, 68, 67, 66]);
    assert_eq!(xor_with_key(&[6_u8, 7, 8, 9, 10], &key), vec![65_u8, 64, 79, 78, 77]);
    assert_eq!(xor_with_key(&[11_u8, 12, 13, 14, 15], &key), vec![76_u8, 75, 74, 73, 72]);
}

#[test]
fn repeat_key_cycles_the_key() {
    assert_eq!(repeat_key(&vec![1, 2, 3], 7), vec![1, 2, 3, 1, 2, 3, 1]);
    assert_eq!(repeat_key(&vec![1, 2, 3], 3), vec![1, 2, 3]);
    assert_eq!(repeat_key(&vec![1, 2, 3], 2), vec![1, 2]);
    assert_eq!(repeat_key(&vec![9], 0), Vec::<u8>::new());
    assert_eq!(repeat_key(&vec![], 0), Vec::<u8>::new());
}

#[test]
fn xor_bytes_stops_at_the_shorter() {
    assert_eq!(xor_bytes(&[1, 2, 3], &[1, 1]), vec![0, 3]);
    assert_eq!(xor_bytes(&[1, 2], &[3, 3, 3]), vec![2, 1]);
    assert_eq!(xor_bytes(&[], &[3]), Vec::<u8>::new());
}

#[test]
fn xor_with_longer_key_uses_its_prefix() {
    assert_eq!(xor_with_key(&[0, 0, 0], &vec![5, 6, 7, 8]), vec![5, 6, 7]);
    assert_eq!(xor_with_key(&[], &vec![]), Vec::<u8>::new());
}

#[test]
fn xor_twice_with_same_key_restores_data() {
    let data = b"some secret data, longer than the key".to_vec();
    let key = b"k3y".to_vec();
    let once = xor_with_key(&data, &key);
    assert_ne!(once, data);
    assert_eq!(xor_with_key(&once, &key), data);
}

#[test]
fn to_hex_string_of_edge_bytes() {
    assert_eq!(to_hex_string(vec![0x00, 0x0f, 0xa0, 0xff]), "000FA0FF");
    assert_eq!(to_hex_string(Vec::new()), "");
}

#[test]
fn hex_round_trip_concrete() {
    let bytes: Vec<u8> = (0..=255).collect();
    let hex = to_hex_string(bytes.clone());
    assert_eq!(hex.len(), 512);
    assert_eq!(from_hex_string(&hex), bytes);
}

#[test]
fn from_hex_string_accepts_lower_case() {
    assert_eq!(from_hex_string(&String::from("0aFf")), vec![0x0a, 0xff]);
    assert_eq!(from_hex_string(&String::new()), Vec::<u8>::new());
}

#[test]
fn decode_hex_reports_odd_length() {
    assert_eq!(decode_hex(&String::from("abc")), Err(HexError::OddLength));
}

#[test]
fn decode_hex_reports_first_invalid_character() {
    assert_eq!(
        decode_hex(&String::from("12zg")),
        Err(HexError::InvalidHexCharacter { c: 'z', index: 2 })
    );
    assert_eq!(
        decode_hex(&String::from("1 23")),
        Err(HexError::InvalidHexCharacter { c: ' ', index: 1 })
    );
}

#[test]
fn decode_hex_decodes() {
    assert_eq!(decode_hex(&String::from("48656c6C6f")), Ok(b"Hello".to_vec()));
}

#[test]
fn encrypted_name_decrypts_back() {
    let key = b"secret".to_vec();
    for name in ["input.txt", "a", "long file name with spaces.tar.gz", "ünïcödé ✓", ""] {
        let encrypted = rename_target(&String::from(name), &key, Mode::Encrypt);
        assert!(encrypted.chars().all(|c| c.is_ascii_hexdigit() && !c.is_ascii_lowercase()));
        assert_eq!(encrypted.len(), 2 * name.len());
        let decrypted = rename_target(&encrypted, &key, Mode::Decrypt);
        assert_eq!(decrypted, name);
    }
}

#[test]
fn decrypted_name_encrypts_to_upper_case_digits() {
    let key = vec![71];
    let decrypted = rename_target(&String::from("2e2937323369333f33"), &key, Mode::Decrypt);
    assert_eq!(decrypted, "input.txt");
    assert_eq!(rename_target(&decrypted, &key, Mode::Encrypt), "2E2937323369333F33");
}

#[test]
fn decrypting_a_non_hex_name_is_refused() {
    let key = vec![71];
    assert_eq!(try_rename_target(&String::from("input.txt"), &key, Mode::Decrypt), None);
    assert_eq!(try_rename_target(&String::from("ABC"), &key, Mode::Decrypt), None);
}

#[test]
fn decrypting_to_invalid_utf8_is_refused() {
    // 0xB8 ^ 0x47 = 0xFF, never valid UTF-8.
    let key = vec![0x47];
    assert_eq!(try_rename_target(&String::from("B8"), &key, Mode::Decrypt), None);
    assert_eq!(try_rename_target(&String::from("26"), &key, Mode::Decrypt), Some(String::from("a")));
}

#[test]
fn renaming_with_an_empty_key_is_refused() {
    assert_eq!(try_rename_target(&String::from("name"), &Vec::new(), Mode::Encrypt), None);
    assert_eq!(try_rename_target(&String::new(), &Vec::new(), Mode::Encrypt), Some(String::new()));
}

#[test]
fn encrypt_mode_key_restarts_in_each_name() {
    let key = vec![1, 2];
    // "aaa" = 61 61 61 -> 60 63 60
    assert_eq!(rename_target(&String::from("aaa"), &key, Mode::Encrypt), "606360");
}

#[test]
fn encrypt_read_steps() {
    let key = vec![1, 2];
    match encrypt_read(&key, 0, &ReadResult::Data(vec![0, 0, 0])) {
        ReaderAction::Write(out, next) => {
            assert_eq!(out, vec![1, 2, 1]);
            assert_eq!(next, 1);
        },
        ReaderAction::Stop => panic!("expected a write"),
    }
    match encrypt_read(&key, 1, &ReadResult::Data(vec![0, 0])) {
        ReaderAction::Write(out, next) => {
            assert_eq!(out, vec![2, 1]);
            assert_eq!(next, 1);
        },
        ReaderAction::Stop => panic!("expected a write"),
    }
    assert!(matches!(encrypt_read(&key, 1, &ReadResult::Data(Vec::new())), ReaderAction::Stop));
    assert!(matches!(encrypt_read(&key, 0, &ReadResult::Failed), ReaderAction::Stop));
    assert!(matches!(encrypt_read(&Vec::new(), 0, &ReadResult::Failed), ReaderAction::Stop));
}

#[test]
fn encrypt_reader_key_runs_across_reads_and_stops_at_failure() {
    let key = vec![1, 2];
    let reads = vec![
        ReadResult::Data(vec![0, 0, 0]),
        ReadResult::Data(vec![0, 0]),
        ReadResult::Failed,
        ReadResult::Data(vec![0]),
    ];
    let writes = encrypt_reader(&reads, &key);
    assert_eq!(writes, vec![vec![1, 2, 1], vec![2, 1]]);
}

#[test]
fn encrypt_reader_output_does_not_depend_on_the_split() {
    let key = vec![1, 2];
    let split_a = vec![ReadResult::Data(vec![0, 0, 0]), ReadResult::Data(vec![0]), ReadResult::Data(Vec::new())];
    let split_b = vec![ReadResult::Data(vec![0]), ReadResult::Data(vec![0, 0, 0]), ReadResult::Data(Vec::new())];
    assert_eq!(concat(encrypt_reader(&split_a, &key)), vec![1, 2, 1, 2]);
    assert_eq!(concat(encrypt_reader(&split_b, &key)), vec![1, 2, 1, 2]);
}

#[test]
fn encrypt_reader_key_continues_past_a_full_buffer() {
    let key = vec![1_u8, 2, 3];
    let reads = vec![
        ReadResult::Data(vec![0; READ_BUFFER_SIZE]),
        ReadResult::Data(vec![0; 1]),
        ReadResult::Data(Vec::new()),
    ];
    let out = concat(encrypt_reader(&reads, &key));
    let expected: Vec<u8> = (0..513usize).map(|i| [1u8, 2, 3][i % 3]).collect();
    assert_eq!(out, expected);
    assert_eq!(out[512], 3);
}

#[test]
fn encrypt_reader_twice_restores_with_another_split() {
    let key = b"key".to_vec();
    let data = b"attack at dawn, attack at dusk".to_vec();
    let reads = vec![ReadResult::Data(data[..7].to_vec()), ReadResult::Data(data[7..].to_vec()), ReadResult::Failed];
    let cipher = concat(encrypt_reader(&reads, &key));
    let rereads = vec![
        ReadResult::Data(cipher[..2].to_vec()),
        ReadResult::Data(cipher[2..20].to_vec()),
        ReadResult::Data(cipher[20..].to_vec()),
        ReadResult::Data(Vec::new()),
    ];
    assert_eq!(concat(encrypt_reader(&rereads, &key)), data);
}

#[test]
fn encrypt_reader_without_end_processes_everything() {
    let key = vec![3];
    let reads = vec![ReadResult::Data(vec![3]), ReadResult::Data(vec![0; READ_BUFFER_SIZE])];
    let writes = encrypt_reader(&reads, &key);
    assert_eq!(writes.len(), 2);
    assert_eq!(writes[0], vec![0]);
    assert_eq!(writes[1], vec![3; READ_BUFFER_SIZE]);
    assert_eq!(encrypt_reader(&Vec::new(), &Vec::new()), Vec::<Vec<u8>>::new());
    assert_eq!(encrypt_reader(&vec![ReadResult::Data(Vec::new())], &Vec::new()), Vec::<Vec<u8>>::new());
}

#[test]
fn prompt_step_accepts_only_y_or_n() {
    assert_eq!(prompt_step(Some(&String::from("y\n"))), PromptStep::Answered('y'));
    assert_eq!(prompt_step(Some(&String::from("no\n"))), PromptStep::Answered('n'));
    assert_eq!(prompt_step(Some(&String::from("yes"))), PromptStep::Answered('y'));
    assert_eq!(prompt_step(Some(&String::from("Y\n"))), PromptStep::AskAgain);
    assert_eq!(prompt_step(Some(&String::from("\n"))), PromptStep::AskAgain);
    assert_eq!(prompt_step(None), PromptStep::Answered('n'));
}

#[test]
fn directory_passes_in_order() {
    assert_eq!(next_pass(DirPass::Subdirs), Some(DirPass::Files));
    assert_eq!(next_pass(DirPass::Files), Some(DirPass::RenameSubdirs));
    assert_eq!(next_pass(DirPass::RenameSubdirs), None);

    assert_eq!(child_action(DirPass::Subdirs, EntryKind::Dir), ChildAction::Descend);
    assert_eq!(child_action(DirPass::Subdirs, EntryKind::File), ChildAction::Skip);
    assert_eq!(child_action(DirPass::Files, EntryKind::File), ChildAction::XorFile);
    assert_eq!(child_action(DirPass::Files, EntryKind::Dir), ChildAction::Skip);
    assert_eq!(child_action(DirPass::RenameSubdirs, EntryKind::Dir), ChildAction::Rename);
    assert_eq!(child_action(DirPass::RenameSubdirs, EntryKind::File), ChildAction::Skip);
    assert_eq!(child_action(DirPass::Files, EntryKind::Other), ChildAction::Skip);
}
