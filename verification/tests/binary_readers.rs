use mkwii_recorder::binary::{read_f32_bits, read_u16, read_u32, read_vec_f32_bits, read_vec_u32};
use mkwii_recorder::text::push_decimal;

#[test]
fn read_u16_is_big_endian() {
    let data = [0x12u8, 0x34, 0x56];
    assert_eq!(read_u16(&data, 0), Ok(0x1234));
    assert_eq!(read_u16(&data, 1), Ok(0x3456));
}

#[test]
fn read_u16_fails_past_the_end() {
    let data = [0x12u8, 0x34, 0x56];
    assert_eq!(read_u16(&data, 2), Err("Not enough data to read u16".to_string()));
    assert_eq!(read_u16(&[], 0), Err("Not enough data to read u16".to_string()));
}

#[test]
fn read_u32_is_big_endian() {
    let data = [0xDEu8, 0xAD, 0xBE, 0xEF, 0x01];
    assert_eq!(read_u32(&data, 0), Ok(0xDEADBEEF));
    assert_eq!(read_u32(&data, 1), Ok(0xADBEEF01));
    assert_eq!(read_u32(&data, 2), Err("Not enough data to read u32".to_string()));
}

#[test]
fn read_f32_bits_gives_the_bit_pattern() {
    let data = 1.5f32.to_be_bytes();
    assert_eq!(read_f32_bits(&data, 0), Ok(1.5f32.to_bits()));
    assert_eq!(f32::from_bits(read_f32_bits(&data, 0).unwrap()), 1.5);
    assert_eq!(read_f32_bits(&data, 1), Err("Not enough data to read f32".to_string()));
}

#[test]
fn read_vec_u32_reads_consecutive_words() {
    let data = [0u8, 0, 0, 1, 0, 0, 1, 0, 0xFF, 0xFF, 0xFF, 0xFF];
    assert_eq!(read_vec_u32(&data, 0, 3), Ok(vec![1, 256, 0xFFFFFFFF]));
    assert_eq!(read_vec_u32(&data, 4, 2), Ok(vec![256, 0xFFFFFFFF]));
    assert_eq!(read_vec_u32(&data, 4, 0), Ok(vec![]));
    assert_eq!(read_vec_u32(&data, 4, 3), Err("Not enough data to read u32 vec".to_string()));
    assert_eq!(read_vec_u32(&data, 13, 0), Err("Not enough data to read u32 vec".to_string()));
}

#[test]
fn read_vec_f32_bits_reads_consecutive_floats() {
    let mut data = Vec::new();
    for x in [1.0f32, -2.5, 0.125] {
        data.extend_from_slice(&x.to_be_bytes());
    }
    let words = read_vec_f32_bits(&data, 0, 3).unwrap();
    let values: Vec<f32> = words.iter().map(|w| f32::from_bits(*w)).collect();
    assert_eq!(values, vec![1.0, -2.5, 0.125]);
    assert_eq!(read_vec_f32_bits(&data, 4, 3), Err("Not enough data to read f32 vec".to_string()));
}

#[test]
fn push_decimal_writes_digits() {
    let mut s = String::from("n=");
    push_decimal(&mut s, 0);
    s.push(' ');
    push_decimal(&mut s, 7);
    s.push(' ');
    push_decimal(&mut s, 1204);
    s.push(' ');
    push_decimal(&mut s, u64::MAX);
    assert_eq!(s, format!("n=0 7 1204 {}", u64::MAX));
}
