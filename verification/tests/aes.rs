use bums::aes::{aes_hw_ctr32_encrypt_blocks, crypto_ctr128_encrypt, crypto_ctr128_encrypt_ctr32, AesFunc, AesKey, AES_ctr128_encrypt};

#[test]
fn test_aes_hw_ctr32_encrypt_blocks_asm_impl() {
    let input = [0xee; 128];
    let mut output = [0; 128];
    let key = AesKey::new();
    let mut ivec: [u8; 16] = [0xfc; 16];

    let ours = {
        aes_hw_ctr32_encrypt_blocks(&input, &mut output, &(key.rd_key(), key.rounds()), &mut ivec);
        output
    };

    let theirs: [u8; 128] = [
        0x58, 0x5e, 0x04, 0x05, 0x58, 0x5e, 0x04, 0x05, 0x58, 0x5e, 0x04, 0x05, 0x58, 0x5e, 0x04, 0x05,
        0x3b, 0x5d, 0x6d, 0xfb, 0xe3, 0x41, 0xf2, 0xd4, 0x6f, 0xcd, 0x63, 0x67, 0x3a, 0xbc, 0x89, 0x3b,
        0x11, 0xa8, 0x48, 0x01, 0xa8, 0xaa, 0x42, 0xe4, 0xf5, 0x86, 0xed, 0x3c, 0x27, 0xb5, 0x81, 0x6c,
        0x53, 0x17, 0xd5, 0x58, 0xa3, 0x50, 0x49, 0x75, 0x72, 0x5b, 0x18, 0x69, 0x01, 0x1b, 0x78, 0x00,
        0xbe, 0xa2, 0x21, 0x0a, 0x35, 0x61, 0x4f, 0xcb, 0xa4, 0x11, 0x7c, 0x51, 0xe5, 0xe8, 0x74, 0x23,
        0xab, 0x93, 0xd0, 0xfb, 0x79, 0xf3, 0xf8, 0xc0, 0x37, 0x33, 0xa3, 0x9f, 0xc5, 0x15, 0x12, 0x5d,
        0x51, 0xe1, 0x96, 0xe6, 0xb6, 0x7a, 0x2a, 0x67, 0x80, 0x97, 0xc3, 0xe0, 0xe4, 0x01, 0x11, 0xa6,
        0xc1, 0x33, 0x24, 0x0c, 0x43, 0x6f, 0x67, 0x52, 0x0e, 0x88, 0xc7, 0x46, 0x4c, 0x68, 0x3c, 0x34,
    ];
    assert_eq!(ours, theirs);
    assert!(ours != [0; 128]);
}

/// The key schedule of the FIPS-197 example key 000102..0f, as its round
/// keys lie in memory, followed by the round count.
fn fips_key_bytes() -> [u8; 244] {
    let round_keys = "000102030405060708090a0b0c0d0e0fd6aa74fdd2af72fadaa678f1d6ab76feb692cf0b643dbdf1be9bc5006830b3feb6ff744ed2c2c9bf6c590cbf0469bf4147f7f7bc95353e03f96c32bcfd058dfd3caaa3e8a99f9deb50f3af57adf622aa5e390f7df7a69296a7553dc10aa31f6b14f9701ae35fe28c440adf4d4ea9c02647438735a41c65b9e016baf4aebf7ad2549932d1f08557681093ed9cbe2c974e13111d7fe3944a17f307a78b4d2b30c5";
    let mut bytes = [0u8; 244];
    for i in 0..176 {
        bytes[i] = u8::from_str_radix(&round_keys[2 * i..2 * i + 2], 16).unwrap();
    }
    bytes[240] = 10;
    bytes
}

#[test]
fn ctr_keystream_of_one_block_is_the_cipher() {
    let key = AesKey::new_from_bytes(&fips_key_bytes());
    let mut ivec: [u8; 16] = [
        0x00, 0x11, 0x22, 0x33, 0x44, 0x55, 0x66, 0x77, 0x88, 0x99, 0xaa, 0xbb, 0xcc, 0xdd, 0xee, 0xff,
    ];
    let input = [0u8; 16];
    let mut output = [0u8; 16];
    aes_hw_ctr32_encrypt_blocks(&input, &mut output, &(key.rd_key(), key.rounds()), &mut ivec);
    assert_eq!(
        output,
        [0x69, 0xc4, 0xe0, 0xd8, 0x6a, 0x7b, 0x04, 0x30, 0xd8, 0xcd, 0xb7, 0x80, 0x70, 0xb4, 0xc5, 0x5a]
    );
    assert_eq!(ivec[15], 0xff);
}

#[test]
fn ctr_leaves_a_partial_tail_alone() {
    let key = AesKey::new();
    let mut ivec = [0u8; 16];
    let input = [1u8; 20];
    let mut output = [7u8; 20];
    aes_hw_ctr32_encrypt_blocks(&input, &mut output, &(key.rd_key(), key.rounds()), &mut ivec);
    assert_eq!(&output[16..20], &[7u8; 4]);
}

#[test]
fn ctr_counter_wraps_in_the_last_word_only() {
    let key = AesKey::new();
    let rk = (key.rd_key(), key.rounds());
    let mut iv1 = [0u8; 16];
    iv1[12..16].copy_from_slice(&[0xff, 0xff, 0xff, 0xff]);
    let mut out1 = [0u8; 32];
    aes_hw_ctr32_encrypt_blocks(&[0u8; 32], &mut out1, &rk, &mut iv1);
    // the second block uses counter 0 with the first twelve bytes unchanged
    let mut iv2 = [0u8; 16];
    let mut out2 = [0u8; 16];
    aes_hw_ctr32_encrypt_blocks(&[0u8; 16], &mut out2, &rk, &mut iv2);
    assert_eq!(&out1[16..32], &out2[..]);
}

#[test]
fn ctr_twice_gives_the_message_back() {
    let key = AesKey::new_from_bytes(&fips_key_bytes());
    let rk = (key.rd_key(), key.rounds());
    let message: Vec<u8> = (0..48u8).collect();
    let mut iv = [7u8; 16];
    let mut mid = vec![0u8; 48];
    aes_hw_ctr32_encrypt_blocks(&message, &mut mid, &rk, &mut iv);
    assert!(mid != message);
    let mut back = vec![0u8; 48];
    aes_hw_ctr32_encrypt_blocks(&mid, &mut back, &rk, &mut iv);
    assert_eq!(back, message);
}

#[test]
fn ctr_mode_uses_the_buffered_keystream_first() {
    let key = AesKey::new_from_bytes(&fips_key_bytes());
    let rk = (key.rd_key(), key.rounds());
    let input = [0xeeu8; 36];
    let mut output = [0u8; 36];
    let mut ivec = [0xfcu8; 16];
    let mut buffer: [u8; 16] = core::array::from_fn(|i| i as u8);
    let mut num: u32 = 12;
    crypto_ctr128_encrypt_ctr32(
        &input,
        &mut output,
        36,
        &rk,
        &mut ivec,
        &mut buffer,
        &mut num,
        AesFunc::AesHwCtr32EncryptBlocks,
    );
    assert_eq!(&output[0..4], &[0xee ^ 12, 0xee ^ 13, 0xee ^ 14, 0xee ^ 15]);
    let mut expected = [0u8; 32];
    let mut iv = [0xfcu8; 16];
    aes_hw_ctr32_encrypt_blocks(&input[4..36], &mut expected, &rk, &mut iv);
    assert_eq!(&output[4..36], &expected[..]);
    let mut next = [0xfcu8; 16];
    next[15] = 0xfe;
    assert_eq!(ivec, next);
    assert_eq!(num, 0);
}

#[test]
fn ctr_mode_carries_into_the_upper_counter_bytes() {
    let key = AesKey::new_from_bytes(&fips_key_bytes());
    let rk = (key.rd_key(), key.rounds());
    let input = [0x5au8; 32];
    let mut output = [0u8; 32];
    let mut ivec = [0u8; 16];
    ivec[12..16].copy_from_slice(&[0xff, 0xff, 0xff, 0xff]);
    let mut buffer = [0u8; 16];
    let mut num: u32 = 0;
    crypto_ctr128_encrypt_ctr32(
        &input,
        &mut output,
        32,
        &rk,
        &mut ivec,
        &mut buffer,
        &mut num,
        AesFunc::AesHwCtr32EncryptBlocks,
    );
    let mut first = [0u8; 16];
    let mut iv1 = [0u8; 16];
    iv1[12..16].copy_from_slice(&[0xff, 0xff, 0xff, 0xff]);
    aes_hw_ctr32_encrypt_blocks(&input[0..16], &mut first, &rk, &mut iv1);
    assert_eq!(&output[0..16], &first[..]);
    let mut second = [0u8; 16];
    let mut iv2 = [0u8; 16];
    iv2[10] = 1;
    aes_hw_ctr32_encrypt_blocks(&input[16..32], &mut second, &rk, &mut iv2);
    assert_eq!(&output[16..32], &second[..]);
    let mut after = [0u8; 16];
    after[10] = 1;
    after[15] = 1;
    assert_eq!(ivec, after);
    assert_eq!(num, 0);
}

#[test]
fn ctr_mode_with_nothing_to_encrypt_changes_nothing() {
    let key = AesKey::new();
    let rk = (key.rd_key(), key.rounds());
    let mut output = [3u8; 4];
    let mut ivec = [9u8; 16];
    let mut buffer = [1u8; 16];
    let mut num: u32 = 5;
    crypto_ctr128_encrypt_ctr32(
        &[0u8; 4],
        &mut output,
        0,
        &rk,
        &mut ivec,
        &mut buffer,
        &mut num,
        AesFunc::AesHwCtr32EncryptBlocks,
    );
    assert_eq!(output, [3u8; 4]);
    assert_eq!(ivec, [9u8; 16]);
    assert_eq!(num, 5);
}

#[test]
fn test_aes_deterministic() {
    let key1 = &mut AesKey::new();
    let key2 = &mut AesKey::new();
    let ivec1: &mut [u8; 16] = &mut [0; 16];
    let ivec2: &mut [u8; 16] = &mut [0; 16];
    let block_buffer1: &mut [u8; 16] = &mut [0; 16];
    let block_buffer2: &mut [u8; 16] = &mut [0; 16];
    let input_us: &mut [u8] = &mut [0xee; 32];
    let input_them: &mut [u8] = &mut [0xee; 32];

    let ours = {
        AES_ctr128_encrypt(key1, ivec1, block_buffer1, input_us);
        input_us
    };

    let theirs = {
        AES_ctr128_encrypt(key2, ivec2, block_buffer2, input_them);
        input_them
    };
    assert_eq!(ours, theirs);
    assert!(ours != [0xee; 128]);
}

#[test]
fn ctr128_encrypt_in_place_matches_the_block_routine() {
    let key = &mut AesKey::new();
    let mut ivec = [0xfcu8; 16];
    let mut buffer = [0x33u8; 16];
    let mut data = [0xeeu8; 32];
    AES_ctr128_encrypt(key, &mut ivec, &mut buffer, &mut data);
    let expected: [u8; 32] = [
        0x58, 0x5e, 0x04, 0x05, 0x58, 0x5e, 0x04, 0x05, 0x58, 0x5e, 0x04, 0x05, 0x58, 0x5e, 0x04, 0x05,
        0x3b, 0x5d, 0x6d, 0xfb, 0xe3, 0x41, 0xf2, 0xd4, 0x6f, 0xcd, 0x63, 0x67, 0x3a, 0xbc, 0x89, 0x3b,
    ];
    assert_eq!(data, expected);
    let mut next = [0xfcu8; 16];
    next[15] = 0xfe;
    assert_eq!(ivec, next);
    assert_eq!(buffer, [0u8; 16]);
    assert_eq!(key.rounds(), 10);
}

#[test]
fn ctr128_mode_counts_in_the_upper_bytes_and_keeps_the_tail_keystream() {
    let key = AesKey::new_from_bytes(&fips_key_bytes());
    let rk = (key.rd_key(), key.rounds());
    let input: Vec<u8> = (0..40u32).map(|i| (i * 5 + 1) as u8).collect();
    let mut output = [0u8; 40];
    let mut ivec = [0xfcu8; 16];
    let start: [u8; 16] = core::array::from_fn(|i| i as u8);
    let mut buffer = start;
    let mut num: u32 = 12;
    crypto_ctr128_encrypt(&input, &mut output, 40, &rk, &mut ivec, &mut buffer, &mut num);
    for k in 0..4 {
        assert_eq!(output[k], input[k] ^ start[12 + k]);
    }
    // the first whole block uses the counter block as given
    let mut first = [0u8; 16];
    let mut iv = [0xfcu8; 16];
    aes_hw_ctr32_encrypt_blocks(&input[4..20], &mut first, &rk, &mut iv);
    assert_eq!(&output[4..20], &first[..]);
    // three blocks were used: byte 10 of the counter went up by three
    let mut next = [0xfcu8; 16];
    next[10] = 0xff;
    assert_eq!(ivec, next);
    assert_eq!(num, 4);
    for k in 0..4 {
        assert_eq!(output[36 + k], input[36 + k] ^ buffer[k]);
    }
    // the same keystream undoes the encryption
    let mut back = [0u8; 40];
    let mut ivec2 = [0xfcu8; 16];
    let mut buffer2 = start;
    let mut num2: u32 = 12;
    crypto_ctr128_encrypt(&output, &mut back, 40, &rk, &mut ivec2, &mut buffer2, &mut num2);
    assert_eq!(&back[..], &input[..]);
}
