use ambient_led::connector::{Connector, ConnectorError, Device, Mapping, Strip};

fn device_with_strips(lengths: &[u16]) -> Device {
    Device::new(lengths.to_vec())
}

fn fill_strip(c: &mut Connector, id: u64, rgb: (u8, u8, u8)) {
    let buf = c.mutate_strip(id).unwrap();
    let n = buf.len() / 3;
    for i in 0..n {
        buf[3 * i] = rgb.0;
        buf[3 * i + 1] = rgb.1;
        buf[3 * i + 2] = rgb.2;
    }
}

#[test]
fn write_places_strip_bytes() {
    // Device D1 with physical strips [88, 91]; strip S1 (68 LEDs) mapped as
    // (D1, strip 0, offset 10, length 68). Solid red must land in bytes
    // [30..234) of D1's buffer and touch nothing else.
    let mut c = Connector::new();
    c.set_device(1, device_with_strips(&[88, 91]));
    let mut s = Strip::new(68);
    s.map(Mapping::new(1, 0, 10, 68));
    c.set_strip(1, s);
    fill_strip(&mut c, 1, (0xFF, 0, 0));
    c.write().unwrap();

    assert_eq!(c.device_count(), 1);
    assert_eq!(c.device_id_at(0), 1);
    let buf = c.device_buffer_at(0);
    assert_eq!(buf.len(), 3 * (88 + 91));
    for k in 0..buf.len() {
        if (30..234).contains(&k) {
            let expected = if k % 3 == 0 { 0xFF } else { 0 };
            assert_eq!(buf[k], expected, "byte {k}");
        } else {
            assert_eq!(buf[k], 0, "byte {k} must be untouched");
        }
    }
}

#[test]
fn write_is_idempotent() {
    let mut c = Connector::new();
    c.set_device(1, device_with_strips(&[10]));
    let mut s = Strip::new(4);
    s.map(Mapping::new(1, 0, 2, 4));
    c.set_strip(7, s);
    fill_strip(&mut c, 7, (1, 2, 3));
    c.write().unwrap();
    let first: Vec<u8> = c.device_buffer_at(0).clone();
    c.write().unwrap();
    let second: Vec<u8> = c.device_buffer_at(0).clone();
    assert_eq!(first, second);
}

#[test]
fn write_is_idempotent_even_with_overlapping_targets() {
    // Two strips address the same device range; the later strip wins, and
    // a second write reproduces the same outcome byte for byte.
    let mut c = Connector::new();
    c.set_device(1, device_with_strips(&[4]));
    let mut a = Strip::new(2);
    a.map(Mapping::new(1, 0, 0, 2));
    c.set_strip(1, a);
    let mut b = Strip::new(2);
    b.map(Mapping::new(1, 0, 1, 2));
    c.set_strip(2, b);
    fill_strip(&mut c, 1, (1, 1, 1));
    fill_strip(&mut c, 2, (2, 2, 2));
    c.write().unwrap();
    let first: Vec<u8> = c.device_buffer_at(0).clone();
    assert_eq!(&first[0..3], &[1, 1, 1]);
    assert_eq!(&first[3..9], &[2, 2, 2, 2, 2, 2]);
    c.write().unwrap();
    assert_eq!(c.device_buffer_at(0), &first);
}

#[test]
fn write_accepts_partially_mapped_strip() {
    // Mappings totalling fewer LEDs than the strip holds leave the tail of
    // the strip's buffer unsent; that is a caller contract, not an error.
    let mut c = Connector::new();
    c.set_device(1, device_with_strips(&[8]));
    let mut s = Strip::new(4);
    s.map(Mapping::new(1, 0, 0, 2));
    c.set_strip(1, s);
    fill_strip(&mut c, 1, (3, 4, 5));
    c.write().unwrap();
    let buf = c.device_buffer_at(0);
    assert_eq!(&buf[0..6], &[3, 4, 5, 3, 4, 5]);
    assert!(buf[6..].iter().all(|&b| b == 0));
}

#[test]
fn write_spans_two_devices_in_mapping_order() {
    // A strip of 4 LEDs split over two devices: the first two pixels go to
    // device 1, the next two to device 2 at offset 1.
    let mut c = Connector::new();
    c.set_device(1, device_with_strips(&[4]));
    c.set_device(2, device_with_strips(&[4]));
    let mut s = Strip::new(4);
    s.map(Mapping::new(1, 0, 0, 2));
    s.map(Mapping::new(2, 0, 1, 2));
    c.set_strip(1, s);
    {
        let buf = c.mutate_strip(1).unwrap();
        for (i, b) in buf.iter_mut().enumerate() {
            *b = (i + 1) as u8; // 1..=12
        }
    }
    c.write().unwrap();
    let d1 = c.device_buffer_at(0);
    assert_eq!(&d1[0..6], &[1, 2, 3, 4, 5, 6]);
    assert_eq!(&d1[6..12], &[0, 0, 0, 0, 0, 0]);
    let d2 = c.device_buffer_at(1);
    assert_eq!(&d2[0..3], &[0, 0, 0]);
    assert_eq!(&d2[3..9], &[7, 8, 9, 10, 11, 12]);
    assert_eq!(&d2[9..12], &[0, 0, 0]);
}

#[test]
fn write_second_physical_strip_offset() {
    // Physical strip 1 starts after the 3 LEDs of physical strip 0.
    let mut c = Connector::new();
    c.set_device(1, device_with_strips(&[3, 5]));
    let mut s = Strip::new(2);
    s.map(Mapping::new(1, 1, 1, 2));
    c.set_strip(1, s);
    fill_strip(&mut c, 1, (9, 8, 7));
    c.write().unwrap();
    let buf = c.device_buffer_at(0);
    // (3 + 1) pixels in = byte 12.
    assert_eq!(&buf[12..18], &[9, 8, 7, 9, 8, 7]);
    for k in 0..12 {
        assert_eq!(buf[k], 0);
    }
    for k in 18..24 {
        assert_eq!(buf[k], 0);
    }
}

#[test]
fn write_missing_device_fails_and_changes_nothing() {
    let mut c = Connector::new();
    c.set_device(1, device_with_strips(&[8]));
    let mut s = Strip::new(2);
    s.map(Mapping::new(1, 0, 0, 2));
    c.set_strip(1, s);
    let mut s2 = Strip::new(2);
    s2.map(Mapping::new(9, 0, 0, 2));
    c.set_strip(2, s2);
    fill_strip(&mut c, 1, (5, 5, 5));
    assert_eq!(c.write(), Err(ConnectorError::DeviceNotFound(9)));
    // The failure left even the addressable strip's bytes uncopied.
    let buf = c.device_buffer_at(0);
    assert!(buf.iter().all(|&b| b == 0));
}

#[test]
fn write_out_of_range_mapping_fails() {
    let mut c = Connector::new();
    c.set_device(1, device_with_strips(&[4]));
    let mut s = Strip::new(6);
    s.map(Mapping::new(1, 0, 0, 6)); // 6 LEDs into a 4-LED device
    c.set_strip(3, s);
    assert_eq!(c.write(), Err(ConnectorError::MappingOutOfRange(3)));
}

#[test]
fn write_short_strip_buffer_fails() {
    // Mappings totalling more LEDs than the strip holds are a write-time
    // range error.
    let mut c = Connector::new();
    c.set_device(1, device_with_strips(&[16]));
    let mut s = Strip::new(2);
    s.map(Mapping::new(1, 0, 0, 2));
    s.map(Mapping::new(1, 0, 2, 2)); // reads past the 2-LED buffer
    c.set_strip(4, s);
    assert_eq!(c.write(), Err(ConnectorError::MappingOutOfRange(4)));
}

#[test]
fn write_on_empty_connector_is_ok() {
    let mut c = Connector::new();
    assert_eq!(c.write(), Ok(()));
    assert_eq!(c.device_count(), 0);
}

#[test]
fn mutate_strip_unknown_id() {
    let mut c = Connector::new();
    assert!(matches!(
        c.mutate_strip(5),
        Err(ConnectorError::StripNotFound(5))
    ));
}

#[test]
fn set_device_replaces_same_id() {
    let mut c = Connector::new();
    c.set_device(1, device_with_strips(&[4]));
    c.set_device(1, device_with_strips(&[2]));
    assert_eq!(c.device_count(), 1);
    assert_eq!(c.device_buffer_at(0).len(), 6);
}

#[test]
fn store_strip_overwrites_every_byte() {
    let mut c = Connector::new();
    c.set_strip(1, Strip::new(2));
    fill_strip(&mut c, 1, (0x11, 0x22, 0x33));
    let frame = vec![7u8, 8, 9, 10, 11, 12];
    c.store_strip(1, &frame).unwrap();
    assert_eq!(c.mutate_strip(1).unwrap().as_slice(), frame.as_slice());
}

#[test]
fn store_strip_errors() {
    let mut c = Connector::new();
    c.set_strip(1, Strip::new(2));
    assert_eq!(
        c.store_strip(2, &vec![0u8; 6]),
        Err(ConnectorError::StripNotFound(2))
    );
    assert_eq!(
        c.store_strip(1, &vec![0u8; 5]),
        Err(ConnectorError::SizeMismatch(1))
    );
    // The failed stores changed nothing.
    assert!(c.mutate_strip(1).unwrap().iter().all(|&b| b == 0));
}

#[test]
fn reset_clears_devices_and_strips() {
    let mut c = Connector::new();
    c.set_device(1, device_with_strips(&[4]));
    c.set_strip(1, Strip::new(2));
    c.reset();
    assert_eq!(c.device_count(), 0);
    assert!(matches!(
        c.mutate_strip(1),
        Err(ConnectorError::StripNotFound(1))
    ));
}
