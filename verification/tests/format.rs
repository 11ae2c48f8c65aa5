use rasterizer::error::ParseError;
use rasterizer::image::Image;
use rasterizer::obj::{parse_face_group, parse_face_line, Face};
use rasterizer::ppm::{write_color, write_header, write_image};
use rasterizer::tga::{parse, TgaImage};
use rasterizer::vec3::Vec3;

/// An 18-byte header for a run-length encoded true-color image.
fn tga_header(width: u16, height: u16) -> Vec<u8> {
    let mut h = vec![0u8; 18];
    h[2] = 10;
    h[12] = (width & 0xff) as u8;
    h[13] = (width >> 8) as u8;
    h[14] = (height & 0xff) as u8;
    h[15] = (height >> 8) as u8;
    h[16] = 24;
    h
}

#[test]
fn run_length_packet_fills_the_texture() {
    let mut data = tga_header(2, 2);
    // One run-length packet: high bit set, count 3 + 1, then one color in
    // blue-green-red order.
    data.push(0x83);
    data.extend_from_slice(&[10, 20, 30]);

    let img = parse(&data).expect("a well-formed image");
    assert_eq!(img.width, 2);
    assert_eq!(img.height, 2);
    assert_eq!(img.pixels.len(), 4);
    for y in 0..2 {
        for x in 0..2 {
            assert_eq!(img.texel(x, y), Vec3::new(30, 20, 10));
        }
    }
}

#[test]
fn raw_packet_keeps_decoding_order() {
    let mut data = tga_header(2, 2);
    // One raw packet of four verbatim colors.
    data.push(0x03);
    data.extend_from_slice(&[1, 2, 3]);
    data.extend_from_slice(&[4, 5, 6]);
    data.extend_from_slice(&[7, 8, 9]);
    data.extend_from_slice(&[10, 11, 12]);

    let img = parse(&data).expect("a well-formed image");
    // The first decoded row is the top row; the origin is bottom-left.
    assert_eq!(img.texel(0, 1), Vec3::new(3, 2, 1));
    assert_eq!(img.texel(1, 1), Vec3::new(6, 5, 4));
    assert_eq!(img.texel(0, 0), Vec3::new(9, 8, 7));
    assert_eq!(img.texel(1, 0), Vec3::new(12, 11, 10));
}

#[test]
fn mixed_packets_and_overshoot_are_accepted() {
    let mut data = tga_header(3, 1);
    // A raw packet of one color, then a run that overshoots the remaining
    // two pixels; the surplus is dropped.
    data.push(0x00);
    data.extend_from_slice(&[1, 1, 1]);
    data.push(0x82);
    data.extend_from_slice(&[2, 2, 2]);

    let img = parse(&data).expect("a well-formed image");
    assert_eq!(img.pixels.len(), 3);
    assert_eq!(img.texel(0, 0), Vec3::new(1, 1, 1));
    assert_eq!(img.texel(1, 0), Vec3::new(2, 2, 2));
    assert_eq!(img.texel(2, 0), Vec3::new(2, 2, 2));
}

#[test]
fn short_input_is_truncated() {
    assert!(matches!(parse(&[0, 0, 10]), Err(ParseError::TruncatedInput)));
    assert!(matches!(parse(&[]), Err(ParseError::TruncatedInput)));
}

#[test]
fn missing_pixel_data_is_truncated() {
    let mut data = tga_header(2, 2);
    data.push(0x83);
    data.extend_from_slice(&[10, 20]);  // color cut short
    assert!(matches!(parse(&data), Err(ParseError::TruncatedInput)));

    let data = tga_header(2, 2);  // no packets at all
    assert!(matches!(parse(&data), Err(ParseError::TruncatedInput)));
}

#[test]
fn unsupported_header_fields_are_rejected() {
    let mut uncompressed = tga_header(1, 1);
    uncompressed[2] = 2;  // plain true-color, not run-length encoded
    assert!(matches!(parse(&uncompressed), Err(ParseError::UnsupportedFormat)));

    let mut deep = tga_header(1, 1);
    deep[16] = 32;  // 32 bits per pixel
    assert!(matches!(parse(&deep), Err(ParseError::UnsupportedFormat)));

    let mut mapped = tga_header(1, 1);
    mapped[1] = 1;  // has a color map
    assert!(matches!(parse(&mapped), Err(ParseError::UnsupportedFormat)));

    let mut offset = tga_header(1, 1);
    offset[10] = 5;  // nonzero y origin
    assert!(matches!(parse(&offset), Err(ParseError::UnsupportedFormat)));
}

#[test]
fn header_line_spells_extent_and_depth() {
    let header = write_header(1024, 768);
    let expected: Vec<u8> = vec![
        80, 51, 10, // the format identifier line: 'P', '3'
        49, 48, 50, 52, 32, 55, 54, 56, 10, // "1024 768"
        50, 53, 53, 10, // "255"
    ];
    assert_eq!(header, expected);
}

#[test]
fn color_line_spells_three_channels() {
    let bytes = write_color(&Vec3::new(0, 128, 255));
    let expected: Vec<u8> = vec![48, 32, 49, 50, 56, 32, 50, 53, 53, 10];
    assert_eq!(bytes, expected);
}

#[test]
fn image_serializes_rows_bottom_up() {
    let mut image = Image::new(1, 2);
    image.set(0, 0, Vec3::new(1, 2, 3));
    image.set(0, 1, Vec3::new(4, 5, 6));

    let bytes = write_image(&image);
    let mut expected: Vec<u8> = vec![
        80, 51, 10, // format identifier
        49, 32, 50, 10, // "1 2"
        50, 53, 53, 10, // "255"
    ];
    // The stored last row is emitted first.
    expected.extend_from_slice(&[52, 32, 53, 32, 54, 10]);  // "4 5 6"
    expected.extend_from_slice(&[49, 32, 50, 32, 51, 10]);  // "1 2 3"
    assert_eq!(bytes, expected);
}

#[test]
fn face_line_yields_zero_based_indices() {
    let faces = parse_face_line(b"f 24/1/24 25/2/25 26/3/26").expect("a well-formed face");
    assert_eq!(
        faces[0],
        Face { vertex_index: 23, texture_index: 0 }
    );
    assert_eq!(
        faces[1],
        Face { vertex_index: 24, texture_index: 1 }
    );
    assert_eq!(
        faces[2],
        Face { vertex_index: 25, texture_index: 2 }
    );
}

#[test]
fn face_groups_may_omit_the_normal_index() {
    let faces = parse_face_line(b"f 1/2 3/4 5/6").expect("a well-formed face");
    assert_eq!(faces[0], Face { vertex_index: 0, texture_index: 1 });
    assert_eq!(faces[1], Face { vertex_index: 2, texture_index: 3 });
    assert_eq!(faces[2], Face { vertex_index: 4, texture_index: 5 });
}

#[test]
fn extra_face_groups_are_ignored() {
    let faces = parse_face_line(b"f 1/1 2/2 3/3 4/4").expect("a well-formed face");
    assert_eq!(faces[2], Face { vertex_index: 2, texture_index: 2 });
}

#[test]
fn zero_index_is_rejected() {
    assert_eq!(
        parse_face_line(b"f 0/1/1 2/2/2 3/3/3"),
        Err(ParseError::ZeroFaceIndex)
    );
    assert_eq!(
        parse_face_line(b"f 1/0 2/2 3/3"),
        Err(ParseError::ZeroFaceIndex)
    );
}

#[test]
fn malformed_faces_are_rejected() {
    // Too few corner groups.
    assert_eq!(
        parse_face_line(b"f 1/1 2/2"),
        Err(ParseError::MalformedFace)
    );
    // A group without a slash.
    assert_eq!(
        parse_face_line(b"f 1 2/2 3/3"),
        Err(ParseError::MalformedFace)
    );
    // A group with letters.
    assert_eq!(
        parse_face_line(b"f a/b 2/2 3/3"),
        Err(ParseError::MalformedFace)
    );
    // An index too large for the address range.
    assert_eq!(
        parse_face_line(b"f 99999999999999999999999/1 2/2 3/3"),
        Err(ParseError::MalformedFace)
    );
    // A doubled space makes an empty group.
    assert_eq!(
        parse_face_line(b"f  1/1 2/2 3/3"),
        Err(ParseError::MalformedFace)
    );
}

#[test]
fn single_group_parses_alone() {
    assert_eq!(
        parse_face_group(b"7/9/4"),
        Ok(Face { vertex_index: 6, texture_index: 8 })
    );
    assert_eq!(parse_face_group(b"7"), Err(ParseError::MalformedFace));
}

#[test]
fn texture_lookup_uses_bottom_left_origin() {
    let img = TgaImage {
        pixels: vec![
            Vec3::new(1, 1, 1),
            Vec3::new(2, 2, 2),
            Vec3::new(3, 3, 3),
            Vec3::new(4, 4, 4),
        ],
        width: 2,
        height: 2,
    };
    // Index 0 is the first decoded texel: top-left.
    assert_eq!(img.texel(0, 1), Vec3::new(1, 1, 1));
    assert_eq!(img.texel(1, 1), Vec3::new(2, 2, 2));
    assert_eq!(img.texel(0, 0), Vec3::new(3, 3, 3));
    assert_eq!(img.texel(1, 0), Vec3::new(4, 4, 4));
}
