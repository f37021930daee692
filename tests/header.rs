use gz_inspector::header::parse_gzip_header;
use gz_inspector::text::{push_decimal, push_hex2};

fn fixed(flags: u8, mtime: u32, xfl: u8, os: u8) -> Vec<u8> {
    let m = mtime.to_le_bytes();
    vec![0x1f, 0x8b, 8, flags, m[0], m[1], m[2], m[3], xfl, os]
}

#[test]
fn name_and_comment_flags_in_order() {
    let header = fixed(0x18, 0, 0, 3);
    let rest = b"file.txt\0a comment\0COMPRESSED";
    let (info, used) = parse_gzip_header(&header, rest).unwrap();
    assert_eq!(info.flags, vec!["NAME".to_string(), "COMMENT".to_string()]);
    assert_eq!(info.filename.as_deref(), Some("file.txt"));
    assert_eq!(info.comment.as_deref(), Some("a comment"));
    assert_eq!(used, 19);
    assert_eq!(&rest[used..], b"COMPRESSED");
}

#[test]
fn all_flags_in_bit_order() {
    let header = fixed(0x1f, 0, 0, 3);
    let rest = [0u8, 0, b'n', 0, b'c', 0];
    let (info, used) = parse_gzip_header(&header, &rest).unwrap();
    assert_eq!(info.flags, vec!["TEXT", "HCRC", "EXTRA", "NAME", "COMMENT"]);
    assert_eq!(used, 6);
    assert!(info.extra_fields.is_empty());
}

#[test]
fn fixed_fields_are_named() {
    let (info, used) = parse_gzip_header(&fixed(0, 0, 2, 3), &[]).unwrap();
    assert_eq!(used, 0);
    assert_eq!(info.compression_method, "deflate");
    assert!(info.flags.is_empty());
    assert_eq!(info.mtime, "Not set");
    assert_eq!(info.extra_flags, "max compression");
    assert_eq!(info.os, "Unix");
    assert_eq!(info.filename, None);
    assert_eq!(info.comment, None);

    let mut odd = fixed(0, 0, 4, 255);
    odd[2] = 7;
    let (info, _) = parse_gzip_header(&odd, &[]).unwrap();
    assert_eq!(info.compression_method, "unknown(7)");
    assert_eq!(info.extra_flags, "fastest");
    assert_eq!(info.os, "unknown");

    let (info, _) = parse_gzip_header(&fixed(0, 0, 0xab, 200), &[]).unwrap();
    assert_eq!(info.extra_flags, "unknown(0xab)");
    assert_eq!(info.os, "unknown(200)");

    let (info, _) = parse_gzip_header(&fixed(0, 0, 0x05, 13), &[]).unwrap();
    assert_eq!(info.extra_flags, "unknown(0x05)");
    assert_eq!(info.os, "Acorn RISCOS");
}

#[test]
fn os_table() {
    let names = [
        "FAT", "Amiga", "VMS", "Unix", "VM/CMS", "Atari TOS", "HPFS", "Macintosh", "Z-System",
        "CP/M", "TOPS-20", "NTFS", "QDOS", "Acorn RISCOS",
    ];
    for (code, name) in names.iter().enumerate() {
        let (info, _) = parse_gzip_header(&fixed(0, 0, 0, code as u8), &[]).unwrap();
        assert_eq!(&info.os, name);
    }
    let (info, _) = parse_gzip_header(&fixed(0, 0, 0, 14), &[]).unwrap();
    assert_eq!(info.os, "unknown(14)");
}

#[test]
fn mtime_is_rendered_in_utc() {
    let (info, _) = parse_gzip_header(&fixed(0, 1, 0, 3), &[]).unwrap();
    assert_eq!(info.mtime, "1970-01-01 00:00:01 UTC");
    let (info, _) = parse_gzip_header(&fixed(0, 1_700_000_000, 0, 3), &[]).unwrap();
    assert_eq!(info.mtime, "2023-11-14 22:13:20 UTC");
}

#[test]
fn extra_subfields_are_split() {
    let header = fixed(0x04, 0, 0, 3);
    let mut rest = vec![14u8, 0];
    rest.extend_from_slice(&[b'A', b'B', 2, 0, 9, 8]);
    rest.extend_from_slice(&[b'C', b'D', 9, 0, 1, 2, 3, 4]);
    rest.extend_from_slice(b"BODY");
    let (info, used) = parse_gzip_header(&header, &rest).unwrap();
    assert_eq!(used, 16);
    assert_eq!(
        info.extra_fields,
        vec![(0x4142u16, vec![9u8, 8]), (0x4344u16, Vec::new())]
    );
}

#[test]
fn extra_tail_shorter_than_a_subfield_header_is_ignored() {
    let header = fixed(0x04, 0, 0, 3);
    let rest = [7u8, 0, b'X', b'Y', 0, 0, 1, 2, 3];
    let (info, used) = parse_gzip_header(&header, &rest).unwrap();
    assert_eq!(used, 9);
    assert_eq!(info.extra_fields, vec![(0x5859u16, Vec::new())]);
}

#[test]
fn truncated_extra_field_is_refused() {
    let header = fixed(0x04, 0, 0, 3);
    assert!(parse_gzip_header(&header, &[5]).is_none());
    assert!(parse_gzip_header(&header, &[5, 0, 1, 2]).is_none());
    assert!(parse_gzip_header(&header, &[]).is_none());
}

#[test]
fn bad_utf8_name_is_dropped_and_unterminated_name_runs_to_end() {
    let header = fixed(0x08, 0, 0, 3);
    let (info, used) = parse_gzip_header(&header, &[0xff, 0xfe, 0, b'Z']).unwrap();
    assert_eq!(info.filename, None);
    assert_eq!(used, 3);
    let (info, used) = parse_gzip_header(&header, b"open").unwrap();
    assert_eq!(info.filename.as_deref(), Some("open"));
    assert_eq!(used, 4);
    let (info, _) = parse_gzip_header(&header, "été\0".as_bytes()).unwrap();
    assert_eq!(info.filename.as_deref(), Some("été"));
}

#[test]
fn summary_line_joins_method_flags_and_name() {
    let (info, _) = parse_gzip_header(&fixed(0x08, 0, 0, 3), b"a.log\0").unwrap();
    assert_eq!(info.display_text(), "deflate|NAME|a.log");
    let (info, _) = parse_gzip_header(&fixed(0, 0, 0, 3), &[]).unwrap();
    assert_eq!(info.display_text(), "deflate|");
    let (info, _) = parse_gzip_header(&fixed(0x11, 0, 0, 3), b"c\0").unwrap();
    assert_eq!(info.display_text(), "deflate|TEXT|COMMENT");
}

#[test]
fn decimal_and_hex_text() {
    let mut s = String::from("n=");
    push_decimal(&mut s, 0);
    push_decimal(&mut s, 1234567890123);
    assert_eq!(s, "n=01234567890123");
    let mut h = String::new();
    push_hex2(&mut h, 0x0f);
    push_hex2(&mut h, 0xa0);
    assert_eq!(h, "0fa0");
}
