use res4_archive::entry::{
    read_file_name_entry, read_file_name_table, read_file_type_entry, read_file_type_table,
    FileNameEntry, FileTypeEntry,
};
use res4_archive::error::ExtractError;
use res4_archive::source::{
    read_bytes_arr, read_bytes_vec, read_padded_string, read_u32_le, ByteSource,
};

fn name_record(index: u32, name: &[u8], rest: [u32; 5]) -> Vec<u8> {
    let mut out = Vec::new();
    out.extend_from_slice(&index.to_le_bytes());
    let mut field = [0u8; 64];
    field[..name.len()].copy_from_slice(name);
    out.extend_from_slice(&field);
    for v in rest {
        out.extend_from_slice(&v.to_le_bytes());
    }
    out
}

#[test]
fn new_source_starts_at_zero() {
    let data = [1u8, 2, 3];
    let r = ByteSource::new(&data);
    assert_eq!(r.stream_position(), 0);
    assert_eq!(r.stream_len(), 3);
}

#[test]
fn seek_accepts_any_position() {
    let data = [1u8, 2, 3];
    let mut r = ByteSource::new(&data);
    r.seek_from_start(2);
    assert_eq!(r.stream_position(), 2);
    r.seek_from_start(1000);
    assert_eq!(r.stream_position(), 1000);
    assert_eq!(r.stream_len(), 3);
}

#[test]
fn read_bytes_vec_takes_the_next_bytes() {
    let data = [10u8, 11, 12, 13, 14];
    let mut r = ByteSource::new(&data);
    r.seek_from_start(1);
    assert_eq!(read_bytes_vec(&mut r, 3), Ok(vec![11, 12, 13]));
    assert_eq!(r.stream_position(), 4);
    assert_eq!(read_bytes_vec(&mut r, 1), Ok(vec![14]));
    assert_eq!(r.stream_position(), 5);
}

#[test]
fn read_bytes_vec_fails_when_too_few_bytes_are_left() {
    let data = [10u8, 11, 12, 13, 14];
    let mut r = ByteSource::new(&data);
    r.seek_from_start(3);
    assert_eq!(read_bytes_vec(&mut r, 3), Err(ExtractError::Io));
    assert_eq!(r.stream_position(), 5);
}

#[test]
fn read_bytes_vec_of_nothing_always_succeeds() {
    let data = [10u8, 11];
    let mut r = ByteSource::new(&data);
    r.seek_from_start(2);
    assert_eq!(read_bytes_vec(&mut r, 0), Ok(vec![]));
    assert_eq!(r.stream_position(), 2);
    r.seek_from_start(7);
    assert_eq!(read_bytes_vec(&mut r, 0), Ok(vec![]));
    assert_eq!(r.stream_position(), 7);
}

#[test]
fn read_bytes_vec_beyond_the_end_fails() {
    let data = [10u8, 11];
    let mut r = ByteSource::new(&data);
    r.seek_from_start(7);
    assert_eq!(read_bytes_vec(&mut r, 1), Err(ExtractError::Io));
    assert_eq!(r.stream_position(), 2);
}

#[test]
fn read_bytes_arr_takes_the_next_bytes() {
    let data = [1u8, 2, 3, 4, 5, 6];
    let mut r = ByteSource::new(&data);
    r.seek_from_start(2);
    assert_eq!(read_bytes_arr::<3>(&mut r), Ok([3, 4, 5]));
    assert_eq!(r.stream_position(), 5);
    assert_eq!(read_bytes_arr::<2>(&mut r), Err(ExtractError::Io));
    assert_eq!(r.stream_position(), 6);
    assert_eq!(read_bytes_arr::<0>(&mut r), Ok([]));
}

#[test]
fn read_u32_le_puts_the_first_byte_lowest() {
    let data = [0x01u8, 0x02, 0x03, 0x04, 0xff, 0xff, 0xff, 0xff];
    let mut r = ByteSource::new(&data);
    assert_eq!(read_u32_le(&mut r), Ok(0x0403_0201));
    assert_eq!(r.stream_position(), 4);
    assert_eq!(read_u32_le(&mut r), Ok(u32::MAX));
    assert_eq!(read_u32_le(&mut r), Err(ExtractError::Io));
}

#[test]
fn read_u32_le_reads_the_archive_tag() {
    let data = [0x34u8, 0x53, 0x45, 0x52];
    let mut r = ByteSource::new(&data);
    assert_eq!(read_u32_le(&mut r), Ok(0x5245_5334));
}

#[test]
fn read_u32_le_needs_four_bytes() {
    let data = [1u8, 2, 3];
    let mut r = ByteSource::new(&data);
    assert_eq!(read_u32_le(&mut r), Err(ExtractError::Io));
    assert_eq!(r.stream_position(), 3);
}

#[test]
fn read_padded_string_stops_at_the_first_nul() {
    let data = [b'a', b'b', 0, b'c', 0, 0, b'z'];
    let mut r = ByteSource::new(&data);
    assert_eq!(read_padded_string::<6>(&mut r), Ok("ab".to_string()));
    assert_eq!(r.stream_position(), 6);
}

#[test]
fn read_padded_string_takes_a_full_field() {
    let data = [b'w', b'x', b'y', b'z', b'!'];
    let mut r = ByteSource::new(&data);
    assert_eq!(read_padded_string::<4>(&mut r), Ok("wxyz".to_string()));
    assert_eq!(r.stream_position(), 4);
}

#[test]
fn read_padded_string_of_a_nul_field_is_empty() {
    let data = [0u8, b'a', b'b'];
    let mut r = ByteSource::new(&data);
    assert_eq!(read_padded_string::<3>(&mut r), Ok(String::new()));
}

#[test]
fn read_padded_string_maps_each_byte_to_one_char() {
    let data = [0xe9u8, 0x41, 0xff, 0];
    let mut r = ByteSource::new(&data);
    assert_eq!(read_padded_string::<4>(&mut r), Ok("\u{e9}A\u{ff}".to_string()));
}

#[test]
fn read_padded_string_fails_on_a_short_source() {
    let data = [b'a', b'b'];
    let mut r = ByteSource::new(&data);
    assert_eq!(read_padded_string::<3>(&mut r), Err(ExtractError::Io));
    assert_eq!(r.stream_position(), 2);
}

#[test]
fn read_file_type_entry_reads_kind_then_offset() {
    let data = [0x32u8, 0x44, 0x4e, 0x53, 0x10, 0x20, 0x00, 0x00];
    let mut r = ByteSource::new(&data);
    assert_eq!(
        read_file_type_entry(&mut r),
        Ok(FileTypeEntry { kind: 0x534e_4432, data_offset: 0x2010 })
    );
    assert_eq!(r.stream_position(), 8);
}

#[test]
fn read_file_type_entry_fails_halfway() {
    let data = [0x32u8, 0x44, 0x4e, 0x53, 0x10, 0x20];
    let mut r = ByteSource::new(&data);
    assert_eq!(read_file_type_entry(&mut r), Err(ExtractError::Io));
    assert_eq!(r.stream_position(), 6);
}

#[test]
fn read_file_type_table_reads_entries_in_order() {
    let mut data = vec![0xaau8];
    for (kind, offset) in [(1u32, 2u32), (3, 4), (5, 6)] {
        data.extend_from_slice(&kind.to_le_bytes());
        data.extend_from_slice(&offset.to_le_bytes());
    }
    let mut r = ByteSource::new(&data);
    r.seek_from_start(1);
    assert_eq!(
        read_file_type_table(&mut r, 3),
        Ok(vec![
            FileTypeEntry { kind: 1, data_offset: 2 },
            FileTypeEntry { kind: 3, data_offset: 4 },
            FileTypeEntry { kind: 5, data_offset: 6 },
        ])
    );
    assert_eq!(r.stream_position(), 25);
}

#[test]
fn read_file_type_table_of_no_entries_is_empty() {
    let data = [1u8, 2];
    let mut r = ByteSource::new(&data);
    assert_eq!(read_file_type_table(&mut r, 0), Ok(vec![]));
    assert_eq!(r.stream_position(), 0);
}

#[test]
fn read_file_type_table_fails_when_an_entry_is_missing() {
    let data = [0u8; 20];
    let mut r = ByteSource::new(&data);
    assert_eq!(read_file_type_table(&mut r, 3), Err(ExtractError::Io));
    assert_eq!(r.stream_position(), 20);
}

#[test]
fn read_file_name_entry_decodes_all_seven_fields() {
    let data = name_record(7, b"boom.wav", [0, 1234, 44100, 16, 2]);
    assert_eq!(data.len(), 88);
    let mut r = ByteSource::new(&data);
    assert_eq!(
        read_file_name_entry(&mut r),
        Ok(FileNameEntry {
            sequence_index: 7,
            name: "boom.wav".to_string(),
            format_tag: 0,
            size_in_bytes: 1234,
            sample_rate: 44100,
            bit_depth_or_zero: 16,
            channel_count_or_zero: 2,
        })
    );
    assert_eq!(r.stream_position(), 88);
}

#[test]
fn read_file_name_entry_fails_on_87_bytes() {
    let mut data = name_record(7, b"boom.wav", [0, 1234, 44100, 16, 2]);
    data.pop();
    let mut r = ByteSource::new(&data);
    assert_eq!(read_file_name_entry(&mut r), Err(ExtractError::Io));
    assert_eq!(r.stream_position(), 87);
}

#[test]
fn read_file_name_table_reads_entries_in_order() {
    let mut data = name_record(0, b"a.wav", [0, 10, 44100, 8, 1]);
    data.extend(name_record(1, b"b.mp3", [9, 20, 0, 0, 0]));
    let mut r = ByteSource::new(&data);
    let table = read_file_name_table(&mut r, 2).unwrap();
    assert_eq!(table.len(), 2);
    assert_eq!(table[0].name, "a.wav");
    assert_eq!(table[0].size_in_bytes, 10);
    assert_eq!(table[1].name, "b.mp3");
    assert_eq!(table[1].format_tag, 9);
    assert_eq!(table[1].sequence_index, 1);
    assert_eq!(r.stream_position(), 176);
}

#[test]
fn read_file_name_table_fails_when_an_entry_is_missing() {
    let data = name_record(0, b"a.wav", [0, 10, 44100, 8, 1]);
    let mut r = ByteSource::new(&data);
    assert_eq!(read_file_name_table(&mut r, 2), Err(ExtractError::Io));
    assert_eq!(r.stream_position(), 88);
}

#[test]
fn name_entries_compare_field_for_field() {
    let make = |name: &str, size: u32| FileNameEntry {
        sequence_index: 1,
        name: name.to_string(),
        format_tag: 0,
        size_in_bytes: size,
        sample_rate: 44100,
        bit_depth_or_zero: 16,
        channel_count_or_zero: 2,
    };
    assert_eq!(make("a.wav", 5), make("a.wav", 5));
    assert_ne!(make("a.wav", 5), make("b.wav", 5));
    assert_ne!(make("a.wav", 5), make("a.wav", 6));
}
