use base64::Engine;
use markpad::payload::{
    decode_image, decoded_image, find_first, payload_of, prepare_image, ImageError, NewImage,
};

fn std_payload(data: &str) -> &str {
    match data.find("base64,") {
        Some(at) => &data[at + "base64,".len()..],
        None => data,
    }
}

fn encoded(bytes: &[u8]) -> String {
    base64::engine::general_purpose::STANDARD.encode(bytes)
}

#[test]
fn plain_base64_is_decoded() {
    assert_eq!(decode_image("aGVsbG8="), Ok(b"hello".to_vec()));
    assert_eq!(decode_image("AAEC/f7/"), Ok(vec![0u8, 1u8, 2u8, 253u8, 254u8, 255u8]));
    assert_eq!(decode_image(""), Ok(Vec::new()));
}

#[test]
fn data_uri_decodes_like_its_payload() {
    assert_eq!(decode_image("data:image/png;base64,aGVsbG8="), Ok(b"hello".to_vec()));
    let png: Vec<u8> = vec![0x89, 0x50, 0x4e, 0x47, 0x0d, 0x0a, 0x1a, 0x0a, 0, 0, 0, 13];
    let text = encoded(&png);
    for prefix in vec!["data:image/png;", "data:image/jpeg;charset=utf-8;", "", "图;", "base64"] {
        let with_prefix = format!("{}base64,{}", prefix, text);
        assert_eq!(decode_image(&with_prefix), decode_image(&text));
        assert_eq!(decode_image(&with_prefix), Ok(png.clone()));
    }
}

#[test]
fn valid_base64_decodes_alike_behind_any_prefix() {
    let blobs: Vec<Vec<u8>> = vec![
        Vec::new(),
        vec![0u8],
        b"base64,".to_vec(),
        vec![0x6d, 0xab, 0x1e, 0xeb, 0x8b],
        (0u8..=255u8).rev().collect(),
    ];
    for blob in blobs {
        let text = encoded(&blob);
        assert_eq!(decode_image(&text), Ok(blob.clone()));
        for prefix in vec!["data:image/png;", "", "data:;x=base6", ","] {
            assert_eq!(decode_image(&format!("{}base64,{}", prefix, text)), Ok(blob.clone()));
        }
    }
}

#[test]
fn malformed_base64_is_an_error() {
    let expected = base64::engine::general_purpose::STANDARD.decode("!!!!").unwrap_err();
    assert_eq!(decode_image("!!!!"), Err(ImageError::Decode { message: expected.to_string() }));
    assert_eq!(
        decode_image("data:image/png;base64,!!!!"),
        Err(ImageError::Decode { message: "Invalid symbol 33, offset 0.".to_string() })
    );
    assert!(decode_image("aGVsbG8").is_err());
    assert!(decode_image("aGVsbG8=\n").is_err());
    assert!(decode_image("data:image/png;aGVsbG8=").is_err());
    assert!(decode_image("图片").is_err());
}

#[test]
fn error_message_is_the_decoders() {
    let error = decode_image("a").unwrap_err();
    let expected = base64::engine::general_purpose::STANDARD.decode("a").unwrap_err();
    assert_eq!(error.message(), expected.to_string());
    assert_eq!(
        decoded_image(Err(base64::DecodeError::InvalidPadding)),
        Err(ImageError::Decode { message: "Invalid padding".to_string() })
    );
    assert_eq!(
        decoded_image(Err(base64::DecodeError::InvalidLength(5))),
        Err(ImageError::Decode { message: "Invalid input length: 5".to_string() })
    );
    assert_eq!(decoded_image(Ok(vec![1u8, 2u8])), Ok(vec![1u8, 2u8]));
}

#[test]
fn payload_is_what_follows_the_first_marker() {
    assert_eq!(payload_of(b"abc"), b"abc");
    assert_eq!(payload_of(b""), b"");
    assert_eq!(payload_of(b"base64,"), b"");
    assert_eq!(payload_of(b"data:image/png;base64,QUJD"), b"QUJD");
    assert_eq!(payload_of(b"xbase64,ybase64,z"), b"ybase64,z");
    assert_eq!(payload_of(b"base64,base64,z"), b"base64,z");
    assert_eq!(payload_of(b"base64base64,QQ=="), b"QQ==");
    assert_eq!(payload_of(b"bbase64,QQ==base64"), b"QQ==base64");
    assert_eq!(payload_of(b"base64,QQ==base64,"), b"QQ==base64,");
    assert_eq!(payload_of(b"Base64,QQ=="), b"Base64,QQ==");
}

#[test]
fn payload_agrees_with_std_find() {
    let samples = vec![
        "", "base64,", "base64", "ase64,", "abase64,b", "base64,base64,", "base64,xbase64,ybase64,z",
        "data:image/png;base64,iVBORw0KGgo=", "bbbase64,,base64", "base64base64base64,1base64,2",
        "图片base64,数据base64,尾", "base6base64,4,", "b a s e 6 4 ,", "base64,\nbase64,",
    ];
    for sample in samples {
        assert_eq!(payload_of(sample.as_bytes()), std_payload(sample).as_bytes(), "{:?}", sample);
    }
}

#[test]
fn second_marker_is_not_base64() {
    assert!(decode_image("data:x;base64,AQIDbase64,BAUG").is_err());
    assert_eq!(
        decode_image("data:x;base64,AQIDbase64,BAUG"),
        Err(ImageError::Decode {
            message: base64::engine::general_purpose::STANDARD
                .decode("AQIDbase64,BAUG")
                .unwrap_err()
                .to_string()
        })
    );
    assert!(decode_image("data:;base64,aGVsbG8=base64,d29ybGQ=").is_err());
    assert!(decode_image("base64,base64,aGVsbG8=").is_err());
    assert!(prepare_image("data:x;base64,AQIDbase64,BAUG", "png", 1).is_err());
    assert_eq!(decode_image("data:x;base64,AQID"), Ok(vec![1u8, 2u8, 3u8]));
}

#[test]
fn find_first_finds_the_first_occurrence() {
    assert_eq!(find_first(b"abcabc", b"bc"), Some(1));
    assert_eq!(find_first(b"abcabc", b"ca"), Some(2));
    assert_eq!(find_first(b"abcabc", b"abcabc"), Some(0));
    assert_eq!(find_first(b"abcabc", b"cb"), None);
    assert_eq!(find_first(b"abc", b"abcd"), None);
    assert_eq!(find_first(b"aaa", b"aa"), Some(0));
    assert_eq!(find_first(b"abc", b""), Some(0));
    assert_eq!(find_first(b"", b""), Some(0));
    assert_eq!(find_first(b"", b"a"), None);
}

#[test]
fn prepared_image_has_name_and_bytes() {
    assert_eq!(
        prepare_image("data:image/png;base64,aGVsbG8=", "png", 1700000000000),
        Ok(NewImage { filename: "1700000000000.png".to_string(), bytes: b"hello".to_vec() })
    );
    assert_eq!(
        prepare_image("", "gif", 0),
        Ok(NewImage { filename: "0.gif".to_string(), bytes: Vec::new() })
    );
}

#[test]
fn prepared_image_fails_on_malformed_text() {
    assert_eq!(
        prepare_image("data:image/png;base64,not base64", "png", 5),
        Err(ImageError::Decode {
            message: base64::engine::general_purpose::STANDARD
                .decode("not base64")
                .unwrap_err()
                .to_string()
        })
    );
}

#[test]
fn decoded_length_is_the_stored_size() {
    let bytes: Vec<u8> = (0u8..=255u8).collect();
    let image = prepare_image(&format!("data:image/bmp;base64,{}", encoded(&bytes)), "bmp", 9).unwrap();
    assert_eq!(image.bytes.len(), 256);
    assert_eq!(image.bytes, bytes);
}
