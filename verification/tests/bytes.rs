use blit_server::bytes::{push_u32, read_u32};

#[test]
fn little_endian_round_trip() {
    let mut out: Vec<u8> = vec![9];
    push_u32(&mut out, 0x0403_0201);
    assert_eq!(out, vec![9, 1, 2, 3, 4]);
    assert_eq!(read_u32(&out, 1), 0x0403_0201);
}
