use easy_pdf::pdf_object::stream_data::{Filter, StreamData};

fn tiny_png() -> Vec<u8> {
    let img = image::RgbImage::from_raw(2, 2, vec![255, 0, 0, 0, 255, 0, 0, 0, 255, 9, 9, 9])
        .unwrap();
    let mut buf: Vec<u8> = Vec::new();
    image::DynamicImage::ImageRgb8(img)
        .write_to(&mut std::io::Cursor::new(&mut buf), image::ImageFormat::Png)
        .unwrap();
    buf
}

fn tiny_jpeg() -> Vec<u8> {
    let img = image::RgbImage::from_raw(2, 2, vec![255, 0, 0, 0, 255, 0, 0, 0, 255, 9, 9, 9])
        .unwrap();
    let mut buf: Vec<u8> = Vec::new();
    image::DynamicImage::ImageRgb8(img)
        .write_to(&mut std::io::Cursor::new(&mut buf), image::ImageFormat::Jpeg)
        .unwrap();
    buf
}

#[test]
fn test_png() {
    let bytes = tiny_png();
    let stream_data = StreamData::encode_image(&bytes);
    assert!(stream_data.is_ok());
    let stream_data = stream_data.unwrap();
    // the filter chain for a re-encoded source
    assert_eq!(stream_data.filter_data.len(), 2);
    assert_eq!(stream_data.filter_data[0].filter, Filter::ASCII85Decode);
    assert_eq!(stream_data.filter_data[1].filter, Filter::FlateDecode);
    // the deflate entry carries the predictor parameters
    let mut out: Vec<u8> = Vec::new();
    stream_data.render_stream(&mut out);
    let text = String::from_utf8(out).unwrap();
    assert!(text.contains("/Predictor 15"));
    assert!(text.contains("/Colors 3"));
    assert!(text.contains("/BitsPerComponent 8"));
    assert!(text.contains("/Columns 2"));
    assert!(text.contains("/Filter [/ASCII85Decode /FlateDecode]"));
    assert!(text.contains("/Width 2"));
    assert!(text.contains("/Height 2"));
    assert!(text.contains("/ColorSpace /DeviceRGB"));
    assert!(text.contains("stream\n"));
    assert!(text.ends_with("\nendstream"));
}

#[test]
fn test_jpeg() {
    let bytes = tiny_jpeg();
    let stream_data = StreamData::encode_image(&bytes);
    assert!(stream_data.is_ok());
    let stream_data = stream_data.unwrap();
    assert_eq!(stream_data.filter_data.len(), 2);
    assert_eq!(stream_data.filter_data[0].filter, Filter::ASCII85Decode);
    assert_eq!(stream_data.filter_data[1].filter, Filter::DCTDecode);
    // the payload is exactly the ASCII-85 framing of the original
    // DCT-compressed bytes: the pre-encoding length is preserved
    let expected = ascii85::encode(&bytes);
    assert_eq!(stream_data.data, expected.as_bytes().to_vec());
    assert_eq!(stream_data.length, expected.len());
}

#[test]
fn test_image_decode_failure() {
    // a PNG signature followed by garbage sniffs as PNG but fails to decode
    let mut bytes = vec![0x89, b'P', b'N', b'G', 0x0d, 0x0a, 0x1a, 0x0a];
    bytes.extend_from_slice(b"garbage");
    let r = StreamData::encode_image(&bytes);
    assert_eq!(r.unwrap_err(), easy_pdf::error::PdfError::ImageDecode);
}

#[test]
fn test_png_data_is_reencoded() {
    // the stream payload is the filtered encoding, not the input bytes
    let bytes = tiny_png();
    let stream_data = StreamData::encode_image(&bytes).unwrap();
    assert_ne!(stream_data.data, bytes);
    assert_eq!(stream_data.length, stream_data.data.len());
}

#[test]
fn test_unsupported_format() {
    let bytes = b"not an image at all";
    let r = StreamData::encode_image(bytes);
    assert_eq!(r.unwrap_err(), easy_pdf::error::PdfError::UnsupportedFormat);
}

#[test]
fn test_filter_names() {
    assert_eq!(Filter::ASCII85Decode.to_string(), "ASCII85Decode");
    assert_eq!(Filter::FlateDecode.to_string(), "FlateDecode");
    assert_eq!(Filter::DCTDecode.to_string(), "DCTDecode");
}
