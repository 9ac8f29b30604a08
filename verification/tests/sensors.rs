use ubx_nav::bytes::{i16_from_le, i32_from_le, u16_from_le, u32_from_le};
use ubx_nav::lis3mdl::{
    data_ready, init_register_writes, who_am_i_matches, Lis3mdl, MagnetometerData, CTRL_REG1,
    CTRL_REG2, CTRL_REG3, CTRL_REG4, CTRL_REG5, LIS3MDL_ADDRESS,
};

#[test]
fn little_endian_reconstruction() {
    assert_eq!(u16_from_le(0x34, 0x12), 0x1234);
    assert_eq!(u16_from_le(0xFF, 0xFF), 0xFFFF);
    assert_eq!(u32_from_le(0x78, 0x56, 0x34, 0x12), 0x12345678);
    assert_eq!(i32_from_le(0xC2, 0x8B, 0x35, 0x1C), 473271234);
    assert_eq!(i32_from_le(0xFF, 0xFF, 0xFF, 0xFF), -1);
    assert_eq!(i32_from_le(0x00, 0x00, 0x00, 0x80), i32::MIN);
    assert_eq!(i32_from_le(0xFF, 0xFF, 0xFF, 0x7F), i32::MAX);
    assert_eq!(i16_from_le(0x00, 0x80), i16::MIN);
    assert_eq!(i16_from_le(0x2C, 0x01), 300);
    assert_eq!(i16_from_le(0xD4, 0xFE), -300);
}

#[test]
fn magnetometer_reading_from_raw_bytes() {
    let data: [u8; 6] = [0x2C, 0x01, 0xD4, 0xFE, 0x00, 0x80];
    let temp: [u8; 2] = [0x80, 0x00];
    let m = MagnetometerData::from_le_bytes(&data, &temp);
    assert_eq!(m.x, 300);
    assert_eq!(m.y, -300);
    assert_eq!(m.z, i16::MIN);
    assert_eq!(m.temperature, 128);
}

#[test]
fn who_am_i_check() {
    assert!(who_am_i_matches(0x3D));
    assert!(!who_am_i_matches(0x3C));
    assert!(!who_am_i_matches(0x00));
}

#[test]
fn data_ready_reads_status_bit() {
    assert!(data_ready(0x08));
    assert!(data_ready(0xFF));
    assert!(!data_ready(0x00));
    assert!(!data_ready(0xF7));
}

#[test]
fn driver_owns_address_and_init_sequence() {
    let driver = Lis3mdl::new(());
    assert_eq!(driver.address(), LIS3MDL_ADDRESS);
    assert_eq!(driver.address(), 0x1C);
    let writes = init_register_writes();
    assert_eq!(
        writes,
        vec![
            (CTRL_REG1, 0b11101000),
            (CTRL_REG2, 0b00000000),
            (CTRL_REG3, 0b00000000),
            (CTRL_REG4, 0b00001100),
            (CTRL_REG5, 0b00000000),
        ]
    );
    driver.release();
}
