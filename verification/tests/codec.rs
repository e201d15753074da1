use image_table::{CodecError, Image, Table};

fn sample_image() -> Image {
    Image {
        id: 2,
        hash: [0xD4, 0x05, 0x9D, 0xA8, 0xA8, 0xFB, 0x54, 0x63],
        x_offset: 5,
        width: 100,
        height: 200,
    }
}

fn sample_table() -> Table {
    Table {
        magic: *b"E2GT",
        version: 1,
        images: vec![sample_image()],
    }
}

#[test]
fn image_deserialize() {
    let buf = sample_image().serialize();
    let deserialized = Image::deserialize(&buf).unwrap();
    assert_eq!(deserialized.id, 2);
    assert_eq!(
        deserialized.hash,
        [0xD4, 0x05, 0x9D, 0xA8, 0xA8, 0xFB, 0x54, 0x63]
    );
    assert_eq!(deserialized.x_offset, 5);
    assert_eq!(deserialized.width, 100);
    assert_eq!(deserialized.height, 200);
}

#[test]
fn file_name() {
    let image = sample_image();
    assert_eq!(image.get_file_name(), "d4059da8a8fb5463.png");
}

#[test]
fn table_deserialize() {
    let buf = sample_table().serialize();
    let table = Table::deserialize(&buf).unwrap();
    assert_eq!(table.magic, *b"E2GT");
    assert_eq!(table.version, 1);
    assert_eq!(table.images.len(), 1);
    assert_eq!(table.images[0].id, 2);
    assert_eq!(
        table.images[0].hash,
        [0xD4, 0x05, 0x9D, 0xA8, 0xA8, 0xFB, 0x54, 0x63]
    );
    assert_eq!(table.images[0].x_offset, 5);
    assert_eq!(table.images[0].width, 100);
    assert_eq!(table.images[0].height, 200);
}

#[test]
fn image_round_trip_extremes() {
    let image = Image {
        id: 0xFFFF,
        hash: [0x00, 0xFF, 0x01, 0xFE, 0x80, 0x7F, 0xAB, 0xCD],
        x_offset: 0,
        width: 0x0100,
        height: 0x00FF,
    };
    let buf = image.serialize();
    let back = Image::deserialize(&buf).unwrap();
    assert_eq!(back.hash, image.hash);
    assert_eq!(back.id, image.id);
    assert_eq!(back.x_offset, image.x_offset);
    assert_eq!(back.width, image.width);
    assert_eq!(back.height, image.height);
}

#[test]
fn image_serialized_layout() {
    let buf = sample_image().serialize();
    assert_eq!(
        buf,
        vec![
            0xD4, 0x05, 0x9D, 0xA8, 0xA8, 0xFB, 0x54, 0x63, // hash
            0x00, 0x02, // id
            0x00, 0x05, // x_offset
            0x00, 0x64, // width
            0x00, 0xC8, // height
        ]
    );
}

#[test]
fn image_serialized_length_is_sixteen() {
    assert_eq!(sample_image().serialize().len(), 16);
    let zero = Image {
        id: 0,
        hash: [0; 8],
        x_offset: 0,
        width: 0,
        height: 0,
    };
    assert_eq!(zero.serialize().len(), 16);
}

#[test]
fn image_truncated_input_fails() {
    let buf = sample_image().serialize();
    assert_eq!(
        Image::deserialize(&buf[..15]).unwrap_err(),
        CodecError::UnexpectedEnd
    );
    assert_eq!(
        Image::deserialize(&[]).unwrap_err(),
        CodecError::UnexpectedEnd
    );
}

#[test]
fn table_round_trip_order_preserved() {
    let mut images = Vec::new();
    for k in 0..3u16 {
        images.push(Image {
            id: 10 + k,
            hash: [k as u8; 8],
            x_offset: 100 * k,
            width: 640,
            height: 480,
        });
    }
    let table = Table {
        magic: *b"E2GT",
        version: 1,
        images,
    };
    let buf = table.serialize();
    let back = Table::deserialize(&buf).unwrap();
    assert_eq!(back.magic, *b"E2GT");
    assert_eq!(back.version, 1);
    assert_eq!(back.images.len(), 3);
    for k in 0..3usize {
        assert_eq!(back.images[k].id, 10 + k as u16);
        assert_eq!(back.images[k].hash, [k as u8; 8]);
        assert_eq!(back.images[k].x_offset, 100 * k as u16);
        assert_eq!(back.images[k].width, 640);
        assert_eq!(back.images[k].height, 480);
    }
}

#[test]
fn table_serialized_length() {
    let table = sample_table();
    assert_eq!(table.serialize().len(), 8 + 16 * table.images.len());
    let empty = Table {
        magic: *b"E2GT",
        version: 1,
        images: Vec::new(),
    };
    assert_eq!(empty.serialize().len(), 8);
}

#[test]
fn empty_table_round_trip() {
    let empty = Table {
        magic: *b"E2GT",
        version: 7,
        images: Vec::new(),
    };
    let buf = empty.serialize();
    assert_eq!(buf, vec![0x45, 0x32, 0x47, 0x54, 0x00, 0x07, 0x00, 0x00]);
    let back = Table::deserialize(&buf).unwrap();
    assert_eq!(back.magic, *b"E2GT");
    assert_eq!(back.version, 7);
    assert_eq!(back.images.len(), 0);
}

#[test]
fn table_truncated_input_fails() {
    let buf = sample_table().serialize();
    assert_eq!(
        Table::deserialize(&buf[..5]).unwrap_err(),
        CodecError::UnexpectedEnd
    );
    assert_eq!(
        Table::deserialize(&buf[..7]).unwrap_err(),
        CodecError::UnexpectedEnd
    );
    assert_eq!(
        Table::deserialize(&buf[..buf.len() - 1]).unwrap_err(),
        CodecError::UnexpectedEnd
    );
    assert_eq!(
        Table::deserialize(&[]).unwrap_err(),
        CodecError::UnexpectedEnd
    );
}

#[test]
fn count_overstating_records_fails() {
    // Header says two records but only one follows.
    let mut buf = sample_table().serialize();
    buf[7] = 2;
    assert_eq!(
        Table::deserialize(&buf).unwrap_err(),
        CodecError::UnexpectedEnd
    );
}

#[test]
fn count_understating_records_ignores_trailing_bytes() {
    // Two records follow, but the header claims only one: the second is
    // ignored, not an error.
    let table = Table {
        magic: *b"E2GT",
        version: 1,
        images: vec![sample_image(), sample_image()],
    };
    let mut buf = table.serialize();
    buf[7] = 1;
    let back = Table::deserialize(&buf).unwrap();
    assert_eq!(back.images.len(), 1);
    assert_eq!(back.images[0].id, 2);
}

#[test]
fn magic_is_not_validated() {
    let mut table = sample_table();
    table.magic = [0xDE, 0xAD, 0xBE, 0xEF];
    table.version = 9999;
    let buf = table.serialize();
    let back = Table::deserialize(&buf).unwrap();
    assert_eq!(back.magic, [0xDE, 0xAD, 0xBE, 0xEF]);
    assert_eq!(back.version, 9999);
}

#[test]
fn file_name_of_zero_hash() {
    let image = Image {
        id: 1,
        hash: [0; 8],
        x_offset: 2,
        width: 3,
        height: 4,
    };
    assert_eq!(image.get_file_name(), "0000000000000000.png");
}

#[test]
fn file_name_depends_only_on_hash() {
    let a = sample_image();
    let b = Image {
        id: 999,
        hash: a.hash,
        x_offset: 77,
        width: 1,
        height: 1,
    };
    assert_eq!(a.get_file_name(), b.get_file_name());
}

#[test]
fn file_name_covers_all_hex_digits() {
    let image = Image {
        id: 0,
        hash: [0x01, 0x23, 0x45, 0x67, 0x89, 0xAB, 0xCD, 0xEF],
        x_offset: 0,
        width: 0,
        height: 0,
    };
    assert_eq!(image.get_file_name(), "0123456789abcdef.png");
}
