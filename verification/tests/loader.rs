use truck_router::loader::{load_points, LoadError};

fn header(count: u32) -> Vec<u8> {
    count.to_le_bytes().to_vec()
}

fn record_bytes(reserved_1: u32, reserved_2: u32, lat: f64, lon: f64) -> Vec<u8> {
    let mut b = Vec::new();
    b.extend_from_slice(&reserved_1.to_le_bytes());
    b.extend_from_slice(&reserved_2.to_le_bytes());
    b.extend_from_slice(&lat.to_le_bytes());
    b.extend_from_slice(&lon.to_le_bytes());
    b
}

#[test]
fn parses_records_in_file_order() {
    let coords = [(52.1, 21.0), (50.0, 19.9), (-33.5, 151.2)];
    let mut bytes = header(3);
    for (i, (lat, lon)) in coords.iter().enumerate() {
        bytes.extend_from_slice(&record_bytes(i as u32, 1000 + i as u32, *lat, *lon));
    }
    let records = load_points(&bytes).unwrap();
    assert_eq!(records.len(), 3);
    for (k, (lat, lon)) in coords.iter().enumerate() {
        assert_eq!(records[k].latitude_bits, lat.to_bits());
        assert_eq!(records[k].longitude_bits, lon.to_bits());
        assert_eq!(f64::from_bits(records[k].latitude_bits), *lat);
        assert_eq!(f64::from_bits(records[k].longitude_bits), *lon);
    }
}

#[test]
fn reserved_fields_are_ignored() {
    let mut bytes = header(1);
    bytes.extend_from_slice(&record_bytes(0xdead_beef, 0xffff_ffff, 1.25, -2.5));
    let records = load_points(&bytes).unwrap();
    assert_eq!(records.len(), 1);
    assert_eq!(f64::from_bits(records[0].latitude_bits), 1.25);
    assert_eq!(f64::from_bits(records[0].longitude_bits), -2.5);
}

#[test]
fn zero_records_is_ok() {
    let bytes = header(0);
    let records = load_points(&bytes).unwrap();
    assert!(records.is_empty());
}

#[test]
fn empty_data_is_rejected() {
    assert_eq!(load_points(&[]), Err(LoadError::Truncated));
}

#[test]
fn short_header_is_rejected() {
    assert_eq!(load_points(&[2, 0, 0]), Err(LoadError::Truncated));
}

#[test]
fn truncated_body_is_rejected() {
    let mut bytes = header(2);
    bytes.extend_from_slice(&record_bytes(0, 0, 1.0, 2.0));
    assert_eq!(load_points(&bytes), Err(LoadError::Truncated));

    let mut partial = header(1);
    partial.extend_from_slice(&record_bytes(0, 0, 1.0, 2.0)[..23].to_vec());
    assert_eq!(load_points(&partial), Err(LoadError::Truncated));
}

#[test]
fn trailing_bytes_are_ignored() {
    let mut bytes = header(1);
    bytes.extend_from_slice(&record_bytes(0, 0, 3.5, 4.5));
    bytes.extend_from_slice(&[9, 9, 9]);
    let records = load_points(&bytes).unwrap();
    assert_eq!(records.len(), 1);
    assert_eq!(f64::from_bits(records[0].latitude_bits), 3.5);
}
