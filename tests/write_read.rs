use bitpack::{bit_size, n_bit_mask, Reader, Uint, Writer};

#[test]
fn write_read() {
    let bits = Writer::<u128>::default()
        .write(11, 42u32)
        .write(24, 1337u32)
        .write(3, 2u8)
        .write(30, 0u32)
        .write(3, 1u8)
        .write(57, 12u64)
        .finish();

    let mut r = Reader::<u128>::new(bits);

    assert_eq!(r.read_next(11), 42);
    assert_eq!(r.read_next(24), 1337);
    assert_eq!(r.read_next(3), 2);
    assert_eq!(r.read_next(30), 0);
    assert_eq!(r.read_next(3), 1);
    assert_eq!(r.read_next(57), 12);
}

#[test]
fn round_trip_each_width() {
    let b8 = Writer::<u8>::default().write(3, 5u8).write(5, 17u8).finish();
    let mut r8 = Reader::new(b8);
    assert_eq!(r8.read_next(3), 5);
    assert_eq!(r8.read_next(5), 17);

    let b16 = Writer::<u16>::default().write(1, 1u8).write(7, 100u8).write(8, 255u8).finish();
    let mut r16 = Reader::new(b16);
    assert_eq!(r16.read_next(1), 1);
    assert_eq!(r16.read_next(7), 100);
    assert_eq!(r16.read_next(8), 255);

    let b32 = Writer::<u32>::default().write(20, 0xabcdeu32).write(12, 0x123u16).finish();
    let mut r32 = Reader::new(b32);
    assert_eq!(r32.read_next(20), 0xabcde);
    assert_eq!(r32.read_next(12), 0x123);

    let b64 = Writer::<u64>::default()
        .write(33, 0x1_2345_6789u64)
        .write(31, 0x7fff_ffffu32)
        .finish();
    let mut r64 = Reader::new(b64);
    assert_eq!(r64.read_next(33), 0x1_2345_6789);
    assert_eq!(r64.read_next(31), 0x7fff_ffff);
}

#[test]
fn exact_packed_words() {
    assert_eq!(Writer::<u8>::default().write(4, 0xau8).write(4, 0x1u8).finish(), 0xa1);
    assert_eq!(Writer::<u16>::default().write(3, 5u8).write(13, 7u16).finish(), 40967);
    assert_eq!(
        Writer::<u32>::default().write(8, 0x12u8).write(8, 0x34u8).write(16, 0x5678u16).finish(),
        0x1234_5678
    );
}

#[test]
fn write_keeps_only_low_bits() {
    assert_eq!(Writer::<u8>::default().write(4, 0xffu8).finish(), 0x0f);
    let bits = Writer::<u16>::default().write(4, 0xabu8).write(12, 0xfedcu16).finish();
    assert_eq!(bits, 0xbedc);
    let mut r = Reader::new(bits);
    assert_eq!(r.read_next(4), 0xab & 0xf);
    assert_eq!(r.read_next(12), 0xfedc & 0xfff);
}

#[test]
fn mask_boundaries() {
    assert_eq!(n_bit_mask::<u8>(0), 0);
    assert_eq!(n_bit_mask::<u8>(8), u8::MAX);
    assert_eq!(n_bit_mask::<u16>(16), u16::MAX);
    assert_eq!(n_bit_mask::<u32>(0), 0);
    assert_eq!(n_bit_mask::<u32>(32), u32::MAX);
    assert_eq!(n_bit_mask::<u64>(64), u64::MAX);
    assert_eq!(n_bit_mask::<u128>(0), 0);
    assert_eq!(n_bit_mask::<u128>(128), u128::MAX);
}

#[test]
fn mask_inner_values() {
    assert_eq!(n_bit_mask::<u8>(3), 0b111);
    assert_eq!(n_bit_mask::<u16>(9), 0x1ff);
    assert_eq!(n_bit_mask::<u64>(40), 0xff_ffff_ffff);
    assert_eq!(n_bit_mask::<u128>(127), u128::MAX >> 1);
}

#[test]
fn bit_sizes() {
    assert_eq!(bit_size::<u8>(), 8);
    assert_eq!(bit_size::<u16>(), 16);
    assert_eq!(bit_size::<u32>(), 32);
    assert_eq!(bit_size::<u64>(), 64);
    assert_eq!(bit_size::<u128>(), 128);
}

#[test]
fn first_field_is_highest() {
    assert_eq!(Writer::<u16>::default().write(4, 0xau8).write(12, 0u16).finish(), 0xa000);
    let mut r = Reader::new(0x8001u16);
    assert_eq!(r.read_next(1), 1);
    assert_eq!(r.read_next(14), 0);
    assert_eq!(r.read_next(1), 1);
}

#[test]
fn zero_width_fields() {
    let bits = Writer::<u32>::default()
        .write(0, 7u8)
        .write(16, 0xbeefu16)
        .write(0, 9u8)
        .write(16, 0xcafeu16)
        .finish();
    assert_eq!(bits, 0xbeef_cafe);
    let mut r = Reader::new(bits);
    assert_eq!(r.read_next(0), 0);
    assert_eq!(r.read_next(16), 0xbeef);
    assert_eq!(r.read_next(16), 0xcafe);
    assert_eq!(r.read_next(0), 0);
}

#[test]
fn full_width_field() {
    let bits = Writer::<u64>::default().write(64, u64::MAX - 5).finish();
    assert_eq!(bits, u64::MAX - 5);
    let again = Writer::<u8>::default().write(3, 1u8).write(8, 0x5au8).finish();
    assert_eq!(again, 0x5a);
    let mut r = Reader::new(bits);
    assert_eq!(r.read_next(64), u64::MAX - 5);
}

#[test]
fn overfull_writer_loses_top_bits() {
    let bits = Writer::<u8>::default().write(8, 0xffu8).write(4, 0u8).finish();
    assert_eq!(bits, 0xf0);
}

#[test]
fn write_word_of_backing_type() {
    let bits = Writer::<u32>::default().write_word(16, 0x1_2345u32).write_word(16, 0x6789u32).finish();
    assert_eq!(bits, 0x2345_6789);
}

#[test]
fn independent_instances() {
    let a = Writer::<u16>::default().write(8, 0x11u8);
    let b = Writer::<u16>::default().write(8, 0x22u8);
    let a = a.write(8, 0x33u8);
    let b = b.write(8, 0x44u8);
    assert_eq!(a.finish(), 0x1133);
    assert_eq!(b.finish(), 0x2244);

    let mut r1 = Reader::new(0x1234u16);
    let mut r2 = Reader::new(0x1234u16);
    assert_eq!(r1.read_next(8), 0x12);
    assert_eq!(r2.read_next(4), 0x1);
    assert_eq!(r1.read_next(8), 0x34);
    assert_eq!(r2.read_next(4), 0x2);
    assert_eq!(r2.read_next(8), 0x34);
}

#[test]
fn word_operations() {
    assert_eq!(<u8 as Uint>::min_value(), 0);
    assert_eq!(<u16 as Uint>::max_value(), u16::MAX);
    assert_eq!(0x81u8.shl_by(1), 0x02);
    assert_eq!(0x8000_0000u32.shr_by(31), 1);
    assert_eq!(0xf0f0u16.bit_and(0x0ff0), 0x00f0);
    assert_eq!(0xf000u16.bit_or(0x000f), 0xf00f);
    assert_eq!((1u128 << 127).shr_by(127), 1);
}
