use coap_lite::block_handler::BlockValue;
use coap_lite::error::InvalidBlockValue;
use coap_lite::option_value::OptionValueType;

#[test]
fn test_highest_containing_power_of_2() {
    assert_eq!(BlockValue::largest_power_of_2_not_in_excess(0), None);
    assert_eq!(BlockValue::largest_power_of_2_not_in_excess(256), Some(8));
    assert_eq!(BlockValue::largest_power_of_2_not_in_excess(257), Some(8));
    assert_eq!(
        BlockValue::largest_power_of_2_not_in_excess(usize::MAX),
        Some(usize::try_from(usize::BITS).unwrap())
    );
}

#[test]
fn test_block_value_exponent() {
    assert!(BlockValue::new(0, false, 0).is_err());
    assert!(BlockValue::new(0, false, usize::MAX).is_err());
    assert_eq!(
        BlockValue::new(0, false, 1158).unwrap_err(),
        InvalidBlockValue::SizeExponentEncodingError(1158)
    );
    assert_eq!(
        BlockValue::new(0, false, 256).unwrap(),
        BlockValue { num: 0, more: false, size_exponent: 4 }
    );
}

#[test]
fn block_value_round_trip() {
    let sizes = [16usize, 32, 64, 128, 256, 512, 1024];
    let nums = [0usize, 1, 15, 16, 255, 256, 4095, 4096, 65535];
    for (exponent, &size) in sizes.iter().enumerate() {
        for &num in nums.iter() {
            for more in [false, true] {
                let block = BlockValue::new(num, more, size).unwrap();
                assert_eq!(block.size_exponent as usize, exponent);
                assert_eq!(block.size(), size);
                let bytes = block.into_bytes();
                assert!(bytes.len() <= 3);
                assert_eq!(BlockValue::try_from_bytes(bytes), Ok(block));
            }
        }
    }
}

#[test]
fn block_value_encoding_is_minimal() {
    assert_eq!(BlockValue { num: 0, more: false, size_exponent: 0 }.into_bytes(), Vec::<u8>::new());
    assert_eq!(BlockValue { num: 0, more: true, size_exponent: 0 }.into_bytes(), vec![0x08]);
    assert_eq!(BlockValue { num: 1, more: false, size_exponent: 2 }.into_bytes(), vec![0x12]);
    assert_eq!(BlockValue { num: 16, more: true, size_exponent: 6 }.into_bytes(), vec![0x01, 0x0E]);
    assert_eq!(
        BlockValue { num: 65535, more: true, size_exponent: 6 }.into_bytes(),
        vec![0x0F, 0xFF, 0xFE]
    );
}

#[test]
fn block_value_decoding_bounds() {
    assert_eq!(
        BlockValue::try_from_bytes(vec![0x12]),
        Ok(BlockValue { num: 1, more: false, size_exponent: 2 })
    );
    assert_eq!(
        BlockValue::try_from_bytes(vec![0x00, 0x00, 0x1F]),
        Ok(BlockValue { num: 1, more: true, size_exponent: 7 })
    );
    // a block number above sixteen bits
    assert!(BlockValue::try_from_bytes(vec![0x10, 0x00, 0x00]).is_err());
    // more than three bytes
    let e = BlockValue::try_from_bytes(vec![0, 0, 0, 1]).unwrap_err();
    assert_eq!(e.message, "overflow: got 4 bytes, expected 3");
}

#[test]
fn block_value_new_errors() {
    assert_eq!(
        BlockValue::new(0, false, 0).unwrap_err(),
        InvalidBlockValue::SizeExponentEncodingError(0)
    );
    assert_eq!(
        BlockValue::new(0, false, 2048).unwrap_err(),
        InvalidBlockValue::SizeExponentEncodingError(2048)
    );
    assert!(matches!(
        BlockValue::new(65536, false, 16).unwrap_err(),
        InvalidBlockValue::TypeBoundsError(_)
    ));
    assert_eq!(
        BlockValue::new(0, false, 2048).unwrap_err().to_string(),
        "size cannot be encoded 2048"
    );
    assert_eq!(
        BlockValue::new(65536, false, 16).unwrap_err().to_string(),
        "size provided is outside type bounds: out of range integral type conversion attempted"
    );
    // a size has to be one of the seven block sizes
    for size in [1usize, 8, 15, 17, 24, 1023, 1025, 2047, 4096] {
        assert_eq!(
            BlockValue::new(3, true, size).unwrap_err(),
            InvalidBlockValue::SizeExponentEncodingError(size)
        );
    }
    // the size is looked at before the number
    assert_eq!(
        BlockValue::new(65536, false, 17).unwrap_err(),
        InvalidBlockValue::SizeExponentEncodingError(17)
    );
    assert_eq!(
        BlockValue::new(3, true, 16).unwrap(),
        BlockValue { num: 3, more: true, size_exponent: 0 }
    );
}
