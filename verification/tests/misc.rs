use bums::aes::{ctr128_inc, ctr96_inc, AesKey};
use bums::define::{config_defines, generate_config, has_feature, Arch, ArchArm, ArchX86, Define};
use bums::ipred::{call_reverse, BitDepth16, BitDepth8};

#[test]
fn test_basic_operations() {
    let x = [1u64, 2, 3, 4];
    let y = [5u64, 6, 7, 8];
    let z = [0u64; 4];
    assert_eq!(x.len() + y.len() + z.len(), 12);
}

#[test]
fn test_addition() {
    assert_eq!(3, bums::playground::add(1, 2));
}

#[test]
fn addition_wraps() {
    assert_eq!(bums::playground::add(i32::MAX, 1), i32::MIN);
}

#[test]
fn reverse_eight_bit_pixels() {
    let src: Vec<u8> = (0..16).collect();
    let mut dst = vec![0u8; 16];
    call_reverse::<BitDepth8>(&mut dst, &src);
    let expected: Vec<u8> = (0..16).rev().collect();
    assert_eq!(dst, expected);
}

#[test]
fn reverse_sixteen_bit_pixels_fills_half() {
    let src: Vec<u16> = (100..116).collect();
    let mut dst = vec![0u16; 16];
    call_reverse::<BitDepth16>(&mut dst, &src);
    assert_eq!(&dst[0..8], &[115, 114, 113, 112, 111, 110, 109, 108]);
    assert_eq!(&dst[8..16], &[0u16; 8]);
}

#[test]
fn defines_render_their_values() {
    let d = Define::bool("CONFIG_ASM", true);
    assert_eq!(d.name(), "CONFIG_ASM");
    assert_eq!(d.value(), "1");
    assert_eq!(Define::bool("CONFIG_LOG", false).value(), "0");
    assert_eq!(Define::new("BITDEPTH", 16).value(), "16");
}

#[test]
fn aes_key_default_and_from_bytes() {
    let k = AesKey::new();
    assert_eq!(k.rounds(), 10);
    assert_eq!(k.rd_key(), [0x10u32; 60]);
    let mut bytes = [0u8; 244];
    bytes[0] = 0x78;
    bytes[1] = 0x56;
    bytes[2] = 0x34;
    bytes[3] = 0x12;
    bytes[236] = 0xff;
    bytes[240] = 14;
    let k = AesKey::new_from_bytes(&bytes);
    assert_eq!(k.rd_key()[0], 0x12345678);
    assert_eq!(k.rd_key()[59], 0xff);
    assert_eq!(k.rounds(), 14);
}

#[test]
fn counters_count_in_the_first_eleven_bytes() {
    let mut c = [0u8; 16];
    c[10] = 0xff;
    c[15] = 0x42;
    ctr96_inc(&mut c);
    assert_eq!(c[9], 1);
    assert_eq!(c[10], 0);
    assert_eq!(c[15], 0x42);
    let mut all = [0xffu8; 16];
    ctr128_inc(&mut all);
    assert_eq!(&all[0..11], &[0u8; 11]);
    assert_eq!(&all[11..16], &[0xffu8; 5]);
}

#[test]
fn architectures_by_name() {
    assert_eq!(Arch::from_str("x86"), Ok(Arch::X86(ArchX86::X86_32)));
    assert_eq!(Arch::from_str("x86_64"), Ok(Arch::X86(ArchX86::X86_64)));
    assert_eq!(Arch::from_str("arm"), Ok(Arch::Arm(ArchArm::Arm32)));
    assert_eq!(Arch::from_str("aarch64"), Ok(Arch::Arm(ArchArm::Arm64)));
    assert_eq!(Arch::from_str("riscv64"), Err("unexpected arch: riscv64".to_string()));
}

#[test]
fn config_for_aarch64_linux() {
    let (name, contents) = generate_config("aarch64", "linux", "unknown", "neon,aes").unwrap();
    assert_eq!(name, "config.h");
    assert_eq!(
        contents,
        " #define CONFIG_ASM 1\n #define CONFIG_LOG 1\n #define PRIVATE_PREFIX dav1d_\n #define ARCH_ARM 0\n #define ARCH_AARCH64 1"
    );
}

#[test]
fn config_for_32_bit_windows_with_avx() {
    let (name, contents) = generate_config("x86", "windows", "pc", "sse2,avx").unwrap();
    assert_eq!(name, "config.asm");
    assert_eq!(
        contents,
        "%define CONFIG_ASM 1\n%define CONFIG_LOG 1\n%define PREFIX 1\n%define private_prefix dav1d\n%define ARCH_X86_32 1\n%define ARCH_X86_64 0\n%define STACK_ALIGNMENT 4\n%define PIC 1\n%define FORCE_VEX_ENCODING 1"
    );
}

#[test]
fn config_for_apple_x86_64_without_avx() {
    let defines = config_defines(Arch::X86(ArchX86::X86_64), "macos", "apple", "sse2,avx2");
    let entries: Vec<(&str, &str)> = defines.iter().map(|d| (d.name(), d.value())).collect();
    assert_eq!(entries[2], ("PREFIX", "1"));
    assert!(entries.contains(&("STACK_ALIGNMENT", "16")));
    assert!(entries.contains(&("FORCE_VEX_ENCODING", "0")));
}

#[test]
fn no_config_for_other_architectures() {
    assert!(generate_config("riscv64", "linux", "unknown", "").is_none());
    assert!(has_feature("sse2,avx", "avx"));
    assert!(!has_feature("avx2,avx512f", "avx"));
}
