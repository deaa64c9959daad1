use bums::md5::md5_block_asm_data_order;
use bums::sha1::{sha1_block_data_order, sha1_digest, sha1_final, sha1_update, Sha1Context};
use bums::sha256::{incomplete_sha256_digest, sha256_block_data_order, sha256_digest, sha256_final, sha256_update, SHA256_CTX};
use bums::utils::{convert, convert_5};

fn hex(bytes: &[u8]) -> String {
    let mut s = String::new();
    for b in bytes {
        s.push_str(&format!("{:02x}", b));
    }
    s
}

#[test]
fn test_sha256_asm_impls() {
    let ours = {
        let mut context = [
            0x6a09e667, 0xbb67ae85, 0x3c6ef372, 0xa54ff53a, 0x510e527f, 0x9b05688c, 0x1f83d9ab,
            0x5be0cd19,
        ];
        let input = [0xee; 128];
        sha256_block_data_order(&mut context, &input);
        context
    };
    let theirs: [u32; 8] = [
        0xdaeecf60, 0x82bbda1d, 0x23836244, 0xce7f62b0, 0x1bfc5b5e, 0xe7029bec, 0x48ab2bbf,
        0x0f63acdb,
    ];
    assert_eq!(ours, theirs);
}

#[test]
fn test_sha1_asm_impls() {
    let mut context_us: [u32; 5] = [0x67452301, 0xefcdab89, 0x98badcfe, 0x10325476, 0xc3d2e1f0];
    let ours = {
        let input = [0xee; 128];
        sha1_block_data_order(&mut context_us, &input);
        context_us
    };
    let theirs: [u32; 5] = [0x4163125b, 0x9c6885c8, 0x0140f403, 0x5d0d840e, 0xa4ae4de9];
    assert_eq!(ours, theirs);
}

#[test]
fn test_md5_asm_impls() {
    let ours = {
        let mut context: [u32; 16] = [
            0x6a09e667, 0xbb67ae85, 0x3c6ef372, 0xa54ff53a, 0x510e527f, 0x9b05688c, 0x1f83d9ab,
            0x5be0cd19, 0x6a09e667, 0xbb67ae85, 0x3c6ef372, 0xa54ff53a, 0x510e527f, 0x9b05688c,
            0x1f83d9ab, 0x5be0cd19,
        ];
        let input = [0xee; 128];
        md5_block_asm_data_order(&mut context, &input);
        context
    };
    let theirs: [u32; 16] = [
        0x108d0135, 0xf1619fde, 0x7e7793aa, 0xb8082e67, 0x510e527f, 0x9b05688c, 0x1f83d9ab,
        0x5be0cd19, 0x6a09e667, 0xbb67ae85, 0x3c6ef372, 0xa54ff53a, 0x510e527f, 0x9b05688c,
        0x1f83d9ab, 0x5be0cd19,
    ];
    assert_eq!(ours, theirs);
}

#[test]
fn test_sha256_full() {
    let message: &[u8] = &[1, 2, 3, 4, 5, 6, 7, 8, 9];
    let mut v = vec![0; 32];
    let output: &mut [u8] = v.as_mut_slice();
    sha256_digest(message, output);
    assert_eq!(
        hex(output),
        "47e4ee7f211f73265dd17658f6e21c1318bd6c81f37598e20a2756299542efcf"
    );
}

#[test]
fn test_sha1_full() {
    let message: &[u8] = &[1, 2, 3, 4, 5, 6, 7, 8, 9];
    let mut v = vec![0; 20];
    let output: &mut [u8] = v.as_mut_slice();
    sha1_digest(message, output);
    assert_eq!(hex(output), "b6c511873b07a73513161b142d344b7b845cacef");
}

fn sha256_hex(msg: &[u8]) -> String {
    let mut out = [0u8; 32];
    sha256_digest(msg, &mut out);
    hex(&out)
}

fn sha1_hex(msg: &[u8]) -> String {
    let mut out = [0u8; 20];
    sha1_digest(msg, &mut out);
    hex(&out)
}

#[test]
fn sha256_of_known_messages() {
    assert_eq!(sha256_hex(b""), "e3b0c44298fc1c149afbf4c8996fb92427ae41e4649b934ca495991b7852b855");
    assert_eq!(sha256_hex(b"abc"), "ba7816bf8f01cfea414140de5dae2223b00361a396177a9cb410ff61f20015ad");
    assert_eq!(sha256_hex(&[123u8; 100]), "1813194e585478e9b000a1d95b69d597fc47d6be646b50ee32187bdd7e09c91f");
}

#[test]
fn sha256_padding_edges() {
    // 55 bytes leave room for the length in the last block; 56 do not
    assert_eq!(sha256_hex(&[b'a'; 55]), "9f4390f8d30c2dd92ec9f095b65e2b9ae9b0a925a5258e241c9f1e910f734318");
    assert_eq!(sha256_hex(&[b'a'; 56]), "b35439a4ac6f0948b6d6f9e3c6af0f5f590ce20f1bde7090ef7970686ec6738a");
    assert_eq!(sha256_hex(&[b'a'; 64]), "ffe054fe7ae0cb6dc65c3af9b61d5209f439851db43d0ba5997337df154668eb");
}

#[test]
fn sha256_of_several_blocks() {
    let mut msg = Vec::new();
    for _ in 0..3 {
        for b in 0..=255u8 {
            msg.push(b);
        }
    }
    assert_eq!(sha256_hex(&msg), "f3a25aa93aa2fbba28d79260535bbd6a5eb0fc1c24a8b0f04e12b484c1dfe363");
}

#[test]
fn sha1_of_known_messages() {
    assert_eq!(sha1_hex(b""), "da39a3ee5e6b4b0d3255bfef95601890afd80709");
    assert_eq!(sha1_hex(b"abc"), "a9993e364706816aba3e25717850c26c9cd0d89d");
    assert_eq!(sha1_hex(&[123u8; 100]), "2cbc32674868700144c1e170c43d61bbf5649b21");
    assert_eq!(sha1_hex(&[b'a'; 55]), "c1c8bbdc22796e28c0e15163d20899b65621d65a");
    assert_eq!(sha1_hex(&[b'a'; 56]), "c2db330f6083854c99d4b5bfb6e8f29f201be699");
    assert_eq!(sha1_hex(&[b'a'; 64]), "0098ba824b5c16427bd7a1122a5a442a25ec644d");
}

#[test]
fn block_functions_ignore_a_partial_tail() {
    let mut a = [0x6a09e667, 0xbb67ae85, 0x3c6ef372, 0xa54ff53a, 0x510e527f, 0x9b05688c, 0x1f83d9ab, 0x5be0cd19];
    let mut b = a;
    sha256_block_data_order(&mut a, &[0xee; 128]);
    sha256_block_data_order(&mut b, &[0xee; 150]);
    assert_eq!(a, b);
}

#[test]
fn blocks_in_pieces_equal_blocks_at_once() {
    let iv = [0x6a09e667, 0xbb67ae85, 0x3c6ef372, 0xa54ff53a, 0x510e527f, 0x9b05688c, 0x1f83d9ab, 0x5be0cd19];
    let msg: Vec<u8> = (0..192u32).map(|i| (i * 7 % 256) as u8).collect();
    let mut whole = iv;
    sha256_block_data_order(&mut whole, &msg);
    let mut pieces = iv;
    sha256_block_data_order(&mut pieces, &msg[0..64]);
    sha256_block_data_order(&mut pieces, &msg[64..192]);
    assert_eq!(whole, pieces);
    let iv1 = [0x67452301, 0xefcdab89, 0x98badcfe, 0x10325476, 0xc3d2e1f0];
    let mut whole1 = iv1;
    sha1_block_data_order(&mut whole1, &msg);
    let mut pieces1 = iv1;
    sha1_block_data_order(&mut pieces1, &msg[0..128]);
    sha1_block_data_order(&mut pieces1, &msg[128..192]);
    assert_eq!(whole1, pieces1);
}

#[test]
fn test_sha1_final_step() {
    let mut my_ctx = Sha1Context::init();

    let ours = {
        let mut out: [u8; 20] = [0; 20];
        sha1_final(&mut out, &mut my_ctx).unwrap();
        out
    };

    let theirs: [u8; 20] = [
        0xda, 0x39, 0xa3, 0xee, 0x5e, 0x6b, 0x4b, 0x0d, 0x32, 0x55, 0xbf, 0xef, 0x95, 0x60, 0x18, 0x90, 0xaf, 0xd8,
        0x07, 0x09,
    ];
    assert_eq!(ours, theirs);
}

#[test]
fn test_sha1_steps() {
    let mut my_ctx = Sha1Context::init();

    assert_eq!([0x67452301, 0xefcdab89, 0x98badcfe, 0x10325476, 0xc3d2e1f0], my_ctx.h);
    assert_eq!(0, my_ctx.nl);
    assert_eq!(0, my_ctx.nh);
    assert_eq!([0u8; 64], my_ctx.data);
    assert_eq!(0, my_ctx.num);

    let msg = [123; 100];
    sha1_update(&mut my_ctx, &msg, msg.len()).unwrap();

    let mut data = [0u8; 64];
    data[..36].copy_from_slice(&[123u8; 36]);
    assert_eq!([0x84ec3064, 0x6dc60647, 0xaa62a944, 0x7f36ff6a, 0x3770f9e9], my_ctx.h);
    assert_eq!(800, my_ctx.nl);
    assert_eq!(0, my_ctx.nh);
    assert_eq!(data, my_ctx.data);
    assert_eq!(36, my_ctx.num);

    let h: [u32; 5] = [0x2cbc3267, 0x48687001, 0x44c1e170, 0xc43d61bb, 0xf5649b21];
    let out: [u8; 20] = [
        0x2c, 0xbc, 0x32, 0x67, 0x48, 0x68, 0x70, 0x01, 0x44, 0xc1, 0xe1, 0x70, 0xc4, 0x3d, 0x61, 0xbb, 0xf5, 0x64,
        0x9b, 0x21,
    ];
    let mut my_out: [u8; 20] = [0; 20];
    sha1_final(&mut my_out, &mut my_ctx).unwrap();

    assert_eq!(h, my_ctx.h);
    assert_eq!(convert_5(&h), out);

    assert_eq!(out, my_out);
}

#[test]
fn test_sha256_final_step() {
    let mut my_ctx = SHA256_CTX::init();

    let ours = {
        let mut out: [u8; 32] = [0; 32];
        sha256_final(&mut out, &mut my_ctx).unwrap();
        out
    };

    let theirs: [u8; 32] = [
        0xe3, 0xb0, 0xc4, 0x42, 0x98, 0xfc, 0x1c, 0x14, 0x9a, 0xfb, 0xf4, 0xc8, 0x99, 0x6f, 0xb9, 0x24, 0x27, 0xae,
        0x41, 0xe4, 0x64, 0x9b, 0x93, 0x4c, 0xa4, 0x95, 0x99, 0x1b, 0x78, 0x52, 0xb8, 0x55,
    ];
    assert_eq!(ours, theirs);
}

#[test]
fn test_sha256_steps() {
    let mut my_ctx = SHA256_CTX::init();

    assert_eq!(
        [0x6a09e667, 0xbb67ae85, 0x3c6ef372, 0xa54ff53a, 0x510e527f, 0x9b05688c, 0x1f83d9ab, 0x5be0cd19],
        my_ctx.h
    );
    assert_eq!(0, my_ctx.nl);
    assert_eq!(0, my_ctx.nh);
    assert_eq!([0u8; 64], my_ctx.data);
    assert_eq!(0, my_ctx.num);
    assert_eq!(32, my_ctx.md_len);

    let msg = [123; 100];
    sha256_update(&mut my_ctx, &msg, msg.len()).unwrap();

    let mut data = [0u8; 64];
    data[..36].copy_from_slice(&[123u8; 36]);
    assert_eq!(
        [0xcba951ea, 0xc6101ece, 0x6cc7572d, 0xb77527ad, 0xf4c4b0ef, 0x1132278f, 0xb78af425, 0xe9795ade],
        my_ctx.h
    );
    assert_eq!(800, my_ctx.nl);
    assert_eq!(0, my_ctx.nh);
    assert_eq!(data, my_ctx.data);
    assert_eq!(36, my_ctx.num);
    assert_eq!(32, my_ctx.md_len);

    let h: [u32; 8] = [0x1813194e, 0x585478e9, 0xb000a1d9, 0x5b69d597, 0xfc47d6be, 0x646b50ee, 0x32187bdd, 0x7e09c91f];
    let out: [u8; 32] = [
        0x18, 0x13, 0x19, 0x4e, 0x58, 0x54, 0x78, 0xe9, 0xb0, 0x00, 0xa1, 0xd9, 0x5b, 0x69, 0xd5, 0x97, 0xfc, 0x47,
        0xd6, 0xbe, 0x64, 0x6b, 0x50, 0xee, 0x32, 0x18, 0x7b, 0xdd, 0x7e, 0x09, 0xc9, 0x1f,
    ];
    let mut my_out: [u8; 32] = [0; 32];
    sha256_final(&mut my_out, &mut my_ctx).unwrap();

    assert_eq!(h, my_ctx.h);
    assert_eq!(convert(&h), out);

    assert_eq!(out, my_out);
}

#[test]
fn one_block_state_as_little_endian_bytes() {
    let message: &[u8] = &[
        1, 2, 3, 4, 0, 0, 0, 0, 0, 0, 0, 0, 0, 4, 0, 0, 0, 0, 0, 0, 9, 0, 0, 0, 0, 0, 0, 0, 0, 0, 0, 0, 0, 0, 0, 0,
        21, 0, 0, 0, 0, 0, 0, 0, 0, 0, 0, 0, 0, 0, 0, 0, 0, 0, 0, 0, 0, 0, 0, 0, 0, 0, 17, 0, 5, 6, 7, 8, 9, 10,
    ];
    let mut output = vec![0u8; 32];
    incomplete_sha256_digest(message, &mut output);
    assert_eq!(
        output,
        vec![
            140, 68, 132, 28, 137, 112, 95, 136, 156, 220, 51, 15, 61, 116, 254, 107, 193, 42, 11, 69, 178, 219, 75,
            55, 188, 164, 138, 176, 134, 9, 173, 210
        ]
    );
    let mut state = [0x6a09e667, 0xbb67ae85, 0x3c6ef372, 0xa54ff53a, 0x510e527f, 0x9b05688c, 0x1f83d9ab, 0x5be0cd19];
    sha256_block_data_order(&mut state, &message[0..64]);
    assert_eq!(state[0].to_le_bytes(), [140, 68, 132, 28]);
}

#[test]
fn final_refuses_another_digest_length_and_leaves_the_output() {
    let mut ctx = SHA256_CTX::init();
    sha256_update(&mut ctx, b"abc", 3).unwrap();
    ctx.md_len = 28;
    let mut out = [7u8; 32];
    assert!(sha256_final(&mut out, &mut ctx).is_err());
    assert_eq!(out, [7u8; 32]);
    assert_eq!(ctx.data, [0u8; 64]);
}

#[test]
fn sha256_update_in_pieces_matches_one_update() {
    let m1: Vec<u8> = (0..70u32).map(|i| (i * 7 + 3) as u8).collect();
    let m2: Vec<u8> = (0..100u32).map(|i| (i * 13 + 1) as u8).collect();
    let whole_msg: Vec<u8> = [m1.clone(), m2.clone()].concat();
    let mut split = SHA256_CTX::init();
    sha256_update(&mut split, &m1, m1.len()).unwrap();
    sha256_update(&mut split, &m2, m2.len()).unwrap();
    let mut whole = SHA256_CTX::init();
    sha256_update(&mut whole, &whole_msg, whole_msg.len()).unwrap();
    assert_eq!(split.h, whole.h);
    assert_eq!(split.nl, whole.nl);
    assert_eq!(split.nh, whole.nh);
    assert_eq!(split.num, whole.num);
    assert_eq!(split.num, 170 % 64);
    let n = split.num as usize;
    assert_eq!(split.data[..n], whole.data[..n]);
}
