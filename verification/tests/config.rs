use ambient_led::config::{find_strip_leds, recreate_strip, Mapping, Strip};
use ambient_led::connector::{Connector, Device};

#[test]
fn recreate_strip_builds_and_installs() {
    let cfg = Strip {
        id: 3,
        leds: 2,
        mappings: vec![Mapping { device_id: 1, physical_strip_idx: 0, offset: 5, length: 2 }],
    };
    let mut c = Connector::new();
    c.set_device(1, Device::new(vec![16]));
    recreate_strip(&cfg, &mut c);

    // The installed strip carries the configured mapping: red lands 5
    // pixels into the device.
    {
        let buf = c.mutate_strip(3).unwrap();
        assert_eq!(buf.len(), 6);
        buf.copy_from_slice(&[0xFF, 0, 0, 0xFF, 0, 0]);
    }
    c.write().unwrap();
    let d = c.device_buffer_at(0);
    assert_eq!(&d[15..21], &[0xFF, 0, 0, 0xFF, 0, 0]);
    assert!(d[..15].iter().all(|&b| b == 0));
    assert!(d[21..].iter().all(|&b| b == 0));
}

#[test]
fn recreate_strip_replaces_prior_strip() {
    let mut c = Connector::new();
    let cfg_a = Strip { id: 1, leds: 4, mappings: vec![] };
    let cfg_b = Strip { id: 1, leds: 2, mappings: vec![] };
    recreate_strip(&cfg_a, &mut c);
    // Recovery re-applies the configuration: the strip comes back fresh.
    {
        let buf = c.mutate_strip(1).unwrap();
        assert_eq!(buf.len(), 12);
        buf[0] = 9;
    }
    recreate_strip(&cfg_b, &mut c);
    let buf = c.mutate_strip(1).unwrap();
    assert_eq!(buf.len(), 6);
    assert!(buf.iter().all(|&b| b == 0));
}

#[test]
fn find_strip_leds_first_match() {
    let strips = vec![
        Strip { id: 1, leds: 68, mappings: vec![] },
        Strip { id: 2, leds: 144, mappings: vec![] },
    ];
    assert_eq!(find_strip_leds(&strips, 2), Some(144));
    assert_eq!(find_strip_leds(&strips, 1), Some(68));
    assert_eq!(find_strip_leds(&strips, 7), None);
}
