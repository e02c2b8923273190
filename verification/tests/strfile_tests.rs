use fortune::error::FortuneError;
use fortune::rot::rot13;
use fortune::strfile::Datfile;

fn make_dat(
    version: u32,
    numstr: u32,
    longlen: u32,
    shortlen: u32,
    flags: u32,
    sep: u8,
    offsets: &[u32],
) -> Vec<u8> {
    let mut v = Vec::new();
    v.extend_from_slice(&version.to_be_bytes());
    v.extend_from_slice(&numstr.to_be_bytes());
    v.extend_from_slice(&longlen.to_be_bytes());
    v.extend_from_slice(&shortlen.to_be_bytes());
    v.extend_from_slice(&flags.to_be_bytes());
    v.push(sep);
    v.push(0);
    v.push(0);
    v.push(0);
    for o in offsets {
        v.extend_from_slice(&o.to_be_bytes());
    }
    v
}

#[test]
fn decode_header_fields() {
    let dat = make_dat(2, 3, 17, 7, 0, b'%', &[0, 7, 24, 34]);
    let d = Datfile::load(&dat).unwrap();
    assert_eq!(d.version, 2);
    assert_eq!(d.numstr, 3);
    assert_eq!(d.longlen, 17);
    assert_eq!(d.shortlen, 7);
    assert_eq!(d.flags, 0);
    assert_eq!(d.separator(), b'%');
    assert!(!d.is_rotated());
}

#[test]
fn decode_offset_table_has_count_plus_one_entries() {
    let dat = make_dat(2, 3, 17, 7, 0, b'%', &[0, 7, 24, 34]);
    let d = Datfile::load(&dat).unwrap();
    assert_eq!(d.seekpts.len(), d.numstr as usize + 1);
    assert_eq!(d.start_of(0), 0);
    assert_eq!(d.end_of(0), 7);
    assert_eq!(d.start_of(3), 34);
}

#[test]
fn decode_sorts_offsets_when_random_flag_set() {
    let dat = make_dat(2, 3, 0, 0, 0x1, b'%', &[10, 0, 5, 2]);
    let d = Datfile::load(&dat).unwrap();
    assert_eq!(d.seekpts, vec![0, 2, 5, 10]);
}

#[test]
fn decode_keeps_offsets_when_no_order_flag() {
    let dat = make_dat(2, 3, 0, 0, 0, b'%', &[10, 0, 5, 2]);
    let d = Datfile::load(&dat).unwrap();
    assert_eq!(d.seekpts, vec![10, 0, 5, 2]);
}

#[test]
fn decode_rejects_short_header() {
    let r = Datfile::load(&[0u8; 23]);
    assert_eq!(r.err(), Some(FortuneError::Format));
}

#[test]
fn decode_rejects_unsupported_version() {
    let dat = make_dat(3, 0, 0, 0, 0, b'%', &[0]);
    assert_eq!(Datfile::load(&dat).err(), Some(FortuneError::Format));
}

#[test]
fn decode_rejects_truncated_offset_table() {
    let mut dat = make_dat(2, 3, 0, 0, 0, b'%', &[0, 7, 24, 34]);
    dat.truncate(dat.len() - 1);
    assert_eq!(Datfile::load(&dat).err(), Some(FortuneError::Format));
}

#[test]
fn decode_defaults_separator_when_unset() {
    let dat = make_dat(2, 0, 0, 0, 0, 0, &[0]);
    let d = Datfile::load(&dat).unwrap();
    assert_eq!(d.separator(), b'%');
}

#[test]
fn rotation_decodes_rotated_text() {
    assert_eq!(rot13(b"Uryyb"), b"Hello".to_vec());
}

#[test]
fn rotation_is_its_own_inverse() {
    let s: &[u8] = b"The Quick Brown Fox, 42 jumps!";
    assert_eq!(rot13(&rot13(s)), s.to_vec());
}

#[test]
fn rotation_keeps_non_alphabetic_bytes() {
    assert_eq!(rot13(b"123 %\n"), b"123 %\n".to_vec());
}

#[test]
fn error_messages_name_each_failure() {
    assert_eq!(FortuneError::NotFound.message(), "No fortunes found");
    assert_eq!(FortuneError::Weight.message(), "percentages must be <= 100");
    assert_eq!(FortuneError::Format.message(), "invalid data file");
    assert_eq!(FortuneError::Bounds.message(), "offset out of range");
    assert_eq!(
        FortuneError::NoMatch.message(),
        "no fortune matches the length filter"
    );
}
