use nova_wasm::wasm::leb128::{encode_i32, encode_i64, encode_name, encode_u32};
use nova_wasm::Decoder;

#[test]
fn test_encode_u32() {
    let mut buf = Vec::new();
    encode_u32(624485, &mut buf);
    assert_eq!(buf, vec![0xE5, 0x8E, 0x26]);

    buf.clear();
    encode_u32(0, &mut buf);
    assert_eq!(buf, vec![0x00]);

    buf.clear();
    encode_u32(1, &mut buf);
    assert_eq!(buf, vec![0x01]);
}

#[test]
fn test_encode_i32() {
    let mut buf = Vec::new();
    encode_i32(-624485, &mut buf);
    assert_eq!(buf, vec![0x9B, 0xF1, 0x59]);

    buf.clear();
    encode_i32(-1, &mut buf);
    assert_eq!(buf, vec![0x7F]);
}

#[test]
fn test_encode_appends() {
    let mut buf = vec![0xAA];
    encode_u32(128, &mut buf);
    assert_eq!(buf, vec![0xAA, 0x80, 0x01]);
    encode_u32(u32::MAX, &mut buf);
    assert_eq!(buf, vec![0xAA, 0x80, 0x01, 0xFF, 0xFF, 0xFF, 0xFF, 0x0F]);
}

#[test]
fn test_encode_i32_edges() {
    let mut buf = Vec::new();
    encode_i32(63, &mut buf);
    assert_eq!(buf, vec![0x3F]);
    buf.clear();
    encode_i32(64, &mut buf);
    assert_eq!(buf, vec![0xC0, 0x00]);
    buf.clear();
    encode_i32(-64, &mut buf);
    assert_eq!(buf, vec![0x40]);
    buf.clear();
    encode_i32(-65, &mut buf);
    assert_eq!(buf, vec![0xBF, 0x7F]);
    buf.clear();
    encode_i32(i32::MIN, &mut buf);
    assert_eq!(buf, vec![0x80, 0x80, 0x80, 0x80, 0x78]);
}

#[test]
fn test_encode_i64() {
    let mut buf = Vec::new();
    encode_i64(-1, &mut buf);
    assert_eq!(buf, vec![0x7F]);
    buf.clear();
    encode_i64(1i64 << 40, &mut buf);
    assert_eq!(buf, vec![0x80, 0x80, 0x80, 0x80, 0x80, 0x20]);
    buf.clear();
    encode_i64(i64::MIN, &mut buf);
    assert_eq!(buf, vec![0x80, 0x80, 0x80, 0x80, 0x80, 0x80, 0x80, 0x80, 0x80, 0x7F]);
}

#[test]
fn test_encode_name() {
    let mut buf = Vec::new();
    encode_name("add", &mut buf);
    assert_eq!(buf, vec![0x03, b'a', b'd', b'd']);
    buf.clear();
    encode_name("\u{e9}", &mut buf);
    assert_eq!(buf, vec![0x02, 0xC3, 0xA9]);
}

/// Reading back what was written gives the value and uses every byte.
#[test]
fn test_leb128_round_trip() {
    for v in [0u32, 1, 127, 128, 300, 624485, u32::MAX] {
        let mut buf = Vec::new();
        encode_u32(v, &mut buf);
        buf.push(0xEE);
        let mut d = Decoder::new(&buf);
        assert_eq!(d.read_u32_leb128(), Some(v));
        assert_eq!(d.read_bytes(1), Some(&[0xEEu8][..]));
    }
    for v in [0i32, 1, -1, 63, 64, -64, -65, 624485, -624485, i32::MAX, i32::MIN] {
        let mut buf = Vec::new();
        encode_i32(v, &mut buf);
        buf.push(0xEE);
        let mut d = Decoder::new(&buf);
        assert_eq!(d.read_i32_leb128(), Some(v));
        assert_eq!(d.read_bytes(1), Some(&[0xEEu8][..]));
    }
}
