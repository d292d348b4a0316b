use mikrotik_api::codec::{encode_len, encode_sentence, encode_word};
use mikrotik_api::error::Error;
use mikrotik_api::read::{decode_sentence, read_len, read_sentence, read_word, ApiDeserializer};

#[test]
fn test_readlen_one_byte() {
    let test_value = 0x42u8;
    let byte = [test_value];
    let mut cursor = ApiDeserializer::new(&byte[..]);
    let result = read_len(&mut cursor);
    assert!(result.is_ok());
    let value = result.unwrap();
    assert_eq!(test_value as u32, value);
}

#[test]
fn test_readlen_two_bytes() {
    let test_value = 300u16;
    let bytes = (test_value | 0x8000).to_be_bytes();
    let mut cursor = ApiDeserializer::new(&bytes[..]);
    let result = read_len(&mut cursor);
    assert!(result.is_ok());
    let value = result.unwrap();
    assert_eq!(test_value as u32, value);
}

#[test]
fn test_readlen_three_bytes() {
    let test_value = 0x4242u32;
    let bytes = (test_value | 0xC00000).to_be_bytes();
    let mut cursor = ApiDeserializer::new(&bytes[1..]);
    let result = read_len(&mut cursor);
    assert!(result.is_ok());
    let value = result.unwrap();
    assert_eq!(test_value as u32, value);
}

#[test]
fn test_readlen_four_bytes() {
    let test_value = 0x131337u32;
    let bytes = (test_value | 0xE0000000).to_be_bytes();
    let mut cursor = ApiDeserializer::new(&bytes[..]);
    let result = read_len(&mut cursor);
    assert!(result.is_ok());
    let value = result.unwrap();
    assert_eq!(test_value as u32, value);
}

#[test]
fn test_readlen_five_bytes() {
    let test_value = 0xAABBCCDDu32;
    let mut bytes = test_value.to_be_bytes().to_vec();
    bytes.insert(0, 0xF0);
    let mut cursor = ApiDeserializer::new(&bytes[..]);
    let result = read_len(&mut cursor);
    assert!(result.is_ok());
    let value = result.unwrap();
    assert_eq!(test_value as u32, value);
}

#[test]
fn readlen_rejects_bad_first_byte() {
    let bytes = [0xF8u8, 0, 0, 0, 0];
    let mut cursor = ApiDeserializer::new(&bytes[..]);
    assert!(matches!(read_len(&mut cursor), Err(Error::Framing)));
    assert_eq!(cursor.position(), 0);
}

#[test]
fn readlen_incomplete_keeps_position() {
    let bytes = [0xC0u8, 0x42];
    let mut cursor = ApiDeserializer::new(&bytes[..]);
    assert!(matches!(read_len(&mut cursor), Err(Error::Incomplete)));
    assert_eq!(cursor.position(), 0);
}

#[test]
fn readlen_accepts_non_shortest_form() {
    let bytes = [0x80u8, 0x05];
    let mut cursor = ApiDeserializer::new(&bytes[..]);
    assert_eq!(read_len(&mut cursor).unwrap(), 5);
    assert_eq!(cursor.position(), 2);
}

#[test]
fn length_boundaries_round_trip_with_table_widths() {
    let cases: [(u32, usize); 11] = [
        (0, 1),
        (1, 1),
        (127, 1),
        (128, 2),
        (16383, 2),
        (16384, 3),
        (2097151, 3),
        (2097152, 4),
        (268435455, 4),
        (268435456, 5),
        (4294967295, 5),
    ];
    for (len, width) in cases {
        let prefix = encode_len(len);
        assert_eq!(prefix.len(), width, "width of {}", len);
        let mut cursor = ApiDeserializer::new(&prefix[..]);
        assert_eq!(read_len(&mut cursor).unwrap(), len);
        assert_eq!(cursor.position(), width);
    }
}

#[test]
fn encode_len_exact_bytes() {
    assert_eq!(encode_len(0x7F), vec![0x7F]);
    assert_eq!(encode_len(0x80), vec![0x80, 0x80]);
    assert_eq!(encode_len(300), vec![0x81, 0x2C]);
    assert_eq!(encode_len(0x4000), vec![0xC0, 0x40, 0x00]);
    assert_eq!(encode_len(0x20_0000), vec![0xE0, 0x20, 0x00, 0x00]);
    assert_eq!(encode_len(0x1000_0000), vec![0xF0, 0x10, 0x00, 0x00, 0x00]);
}

#[test]
fn word_round_trip_of_large_word() {
    let word = vec![b'x'; 20000];
    let encoded = encode_word(&word);
    assert_eq!(&encoded[..3], &[0xC0, 0x4E, 0x20]);
    let mut cursor = ApiDeserializer::new(&encoded[..]);
    assert_eq!(read_word(&mut cursor).unwrap(), word);
}

#[test]
fn sentence_round_trip() {
    let words = vec![b"!re".to_vec(), b".tag=7".to_vec(), b"=name=MainRouter".to_vec()];
    let encoded = encode_sentence(&words);
    assert_eq!(*encoded.last().unwrap(), 0);
    let mut cursor = ApiDeserializer::new(&encoded[..]);
    assert_eq!(read_sentence(&mut cursor).unwrap(), words);
    assert_eq!(cursor.position(), encoded.len());
}

#[test]
fn every_strict_prefix_is_incomplete() {
    let words = vec![b"/login".to_vec(), b".tag=1".to_vec(), b"=name=admin".to_vec()];
    let encoded = encode_sentence(&words);
    for n in 0..encoded.len() {
        assert!(matches!(decode_sentence(&encoded[..n], u32::MAX), Err(Error::Incomplete)), "prefix {}", n);
    }
    let (decoded, used) = decode_sentence(&encoded, u32::MAX).unwrap();
    assert_eq!(decoded, words);
    assert_eq!(used, encoded.len());
}

#[test]
fn two_sentences_in_one_buffer() {
    let mut buf = encode_sentence(&[b"!re".to_vec(), b".tag=3".to_vec()]);
    buf.extend(encode_sentence(&[b"!done".to_vec(), b".tag=3".to_vec()]));
    let (first, used) = decode_sentence(&buf, u32::MAX).unwrap();
    assert_eq!(first, vec![b"!re".to_vec(), b".tag=3".to_vec()]);
    let (second, _) = decode_sentence(&buf[used..], u32::MAX).unwrap();
    assert_eq!(second, vec![b"!done".to_vec(), b".tag=3".to_vec()]);
}

#[test]
fn word_longer_than_limit_is_framing_error() {
    let encoded = encode_word(&[b'a'; 10]);
    assert!(matches!(decode_sentence(&encoded, 9), Err(Error::Framing)));
    let mut cursor = ApiDeserializer::with_max_word_len(&encoded, 9);
    assert!(matches!(read_word(&mut cursor), Err(Error::Framing)));
}

#[test]
fn empty_sentence_is_single_zero_byte() {
    let encoded = encode_sentence(&[]);
    assert_eq!(encoded, vec![0]);
    let (words, used) = decode_sentence(&encoded, u32::MAX).unwrap();
    assert!(words.is_empty());
    assert_eq!(used, 1);
}
