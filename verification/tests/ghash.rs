use bums::ghash::{gcm_ghash_neon, gcm_gmult_neon, gcm_init_neon};

#[test]
fn gcm_test_gcm_neon_init_call_to_asm() {
    let mut htable: [u128; 16] = [1; 16];
    let h: [u64; 2] = [3; 2];
    let mut them = [1u128; 16];
    them[0] = 0x6_0000_0000_0000_0006;
    let us = {
        gcm_init_neon(&mut htable, &h);
        htable
    };
    assert_eq!(them, us);
}

#[test]
fn ghash_test_gcm_neon_init_call_to_asm() {
    let mut htable: [u128; 16] = [1; 16];
    let h: [u64; 2] = [3; 2];
    let mut them = [1u128; 16];
    them[0] = 0x6_0000_0000_0000_0006;
    let us = {
        gcm_init_neon(&mut htable, &h);
        htable
    };
    assert_eq!(them, us);
    assert!(us != [1; 16]);
}

#[test]
fn test_gcm_neon_gmult_call_to_asm() {
    let mut xi: [u8; 16] = [1; 16];
    let htable: [u128; 16] = [0xfc; 16];
    let them: [u128; 16] = [0xfc; 16];
    let us = {
        gcm_gmult_neon(&mut xi, &htable);
        htable
    };
    assert_eq!(them, us);
    assert!(us != [1; 16]);
}

#[test]
fn test_gcm_neon_ghash_call_to_asm() {
    let mut xi: [u8; 16] = [1; 16];
    let htable: [u128; 16] = [3; 16];
    let buf: &[u8] = &[0xff; 64];
    let them: [u128; 16] = [3; 16];
    let us = {
        gcm_ghash_neon(&mut xi, &htable, buf);
        htable
    };
    assert_eq!(them, us);
    assert!(us != [1; 16]);
}

fn block(x: u128) -> [u8; 16] {
    x.to_be_bytes()
}

/// The hash key of the GCM example with the all-zero AES key.
fn example_table() -> [u128; 16] {
    let mut htable = [0u128; 16];
    gcm_init_neon(&mut htable, &[0x66e94bd4ef8a2c3b, 0x884cfa59ca342b2e]);
    htable
}

#[test]
fn twisted_key_of_the_example() {
    assert_eq!(example_table()[0], 0xcdd297a9df1458771099f4b39468565c);
}

#[test]
fn gmult_gives_the_example_tag_hash() {
    let htable = example_table();
    let mut xi = block(0x0388dace60b6a392f328c2b971b2fe78);
    gcm_gmult_neon(&mut xi, &htable);
    for (b, l) in xi.iter_mut().zip(block(0x80).iter()) {
        *b ^= *l;
    }
    gcm_gmult_neon(&mut xi, &htable);
    assert_eq!(xi, block(0xf38cbb1ad69223dcc3457ae5b6b0f885));
}

#[test]
fn ghash_over_three_blocks() {
    let htable = example_table();
    let mut buf = Vec::new();
    buf.extend_from_slice(&block(0x0388dace60b6a392f328c2b971b2fe78));
    buf.extend_from_slice(&block(0x80));
    buf.extend_from_slice(&[0u8; 16]);
    let mut xi = [0u8; 16];
    gcm_ghash_neon(&mut xi, &htable, &buf);
    assert_eq!(xi, block(0xa4531c6203148573ffe0341795a74697));
}
