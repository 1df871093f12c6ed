use iguazu::srzip::{check_version, parse_metadata, samplerate_unit, ImportError};
use std::collections::BTreeMap;

fn number_len(raw: &[u8]) -> Option<usize> {
    lexical_core::parse_partial::<f64>(raw).ok().map(|(_, pos)| pos)
}

fn samplerate(raw: &[u8]) -> Option<f64> {
    let (num, pos) = lexical_core::parse_partial::<f64>(raw).ok()?;
    let exp = samplerate_unit(raw, pos)?;
    Some(num * 10f64.powi(exp as i32))
}

#[test]
fn test_parse_metadata() {
    let data = b"
    [global]
    sigrok version=0.6.0

    [device 1]
    capturefile=logic-1
    total probes=8
    samplerate=12 MHz
    total analog=1
    probe1=D0
    probe2=D1
    probe8=D7
    analog9=A0
    unitsize=1
    ";

    let devices = match parse_metadata(data, number_len) {
        Ok(d) => d,
        Err(_) => panic!("metadata should parse"),
    };

    assert_eq!(devices.len(), 1);
    let device = &devices[0];
    assert_eq!(device.device_id, 1);
    assert_eq!(device.sample_rate.as_deref().and_then(samplerate), Some(12e6));
    assert_eq!(device.unitsize, 1);
    assert_eq!(device.digital_channels, BTreeMap::from_iter([(1, "D0".into()), (2, "D1".into()), (8, "D7".into())]));
    assert_eq!(device.analog_channels, BTreeMap::from_iter([(9, "A0".into())]));
    assert_eq!(device.capturefile, b"logic-1".to_vec());
}

#[test]
fn metadata_devices_and_errors() {
    let data = b"[device 1]\nprobe1=A\n[device 2]\nunitsize = 2 \n[other]\nprobe3=x\n";
    let devices = match parse_metadata(data, number_len) {
        Ok(d) => d,
        Err(_) => panic!("metadata should parse"),
    };
    assert_eq!(devices.len(), 2);
    assert_eq!(devices[0].device_id, 1);
    assert_eq!(devices[1].device_id, 2);
    assert_eq!(devices[1].unitsize, 2);
    assert!(devices[1].digital_channels.is_empty());

    match parse_metadata(b"[device 1]\nunitsize=300\n", number_len) {
        Err(ImportError::InvalidFile(m)) => assert_eq!(m, "invalid `unitsize` value `300`"),
        _ => panic!("expected an error"),
    }
    assert_eq!(parse_metadata(b"unitsize=bad\n", number_len).ok().map(|d| d.len()), Some(0));
    assert_eq!(parse_metadata(b"[device x]\nunitsize=1", number_len).ok().map(|d| d.len()), Some(0));
}

#[test]
fn samplerate_checked_at_its_line() {
    match parse_metadata(b"[device 1]\nsamplerate=12 THz\nunitsize=300\n", number_len) {
        Err(ImportError::InvalidFile(m)) => assert_eq!(m, "invalid `samplerate` value `12 THz`"),
        _ => panic!("expected an error"),
    }
    match parse_metadata(b"[device 1]\nunitsize=300\nsamplerate=fast\n", number_len) {
        Err(ImportError::InvalidFile(m)) => assert_eq!(m, "invalid `unitsize` value `300`"),
        _ => panic!("expected an error"),
    }
    match parse_metadata(b"[device 1]\nsamplerate=MHz\n", number_len) {
        Err(ImportError::InvalidFile(m)) => assert_eq!(m, "invalid `samplerate` value `MHz`"),
        _ => panic!("expected an error"),
    }
    let devices = match parse_metadata(b"[device 1]\nsamplerate = 2.5kHz\n", number_len) {
        Ok(d) => d,
        Err(_) => panic!("metadata should parse"),
    };
    assert_eq!(devices[0].sample_rate.as_deref(), Some(&b"2.5kHz"[..]));
    assert_eq!(parse_metadata(b"samplerate=bad\n", number_len).ok().map(|d| d.len()), Some(0));
}

#[test]
fn samplerate_units() {
    assert_eq!(samplerate_unit(b"1 GHz", 1), Some(9));
    assert_eq!(samplerate_unit(b"2.5kHz", 3), Some(3));
    assert_eq!(samplerate_unit(b"200 Hz", 3), Some(0));
    assert_eq!(samplerate_unit(b"5 THz", 1), None);
    assert_eq!(samplerate(b"2.5 kHz"), Some(2500.0));
}

#[test]
fn srzip_version() {
    assert!(check_version(b" 2\n").is_ok());
    match check_version(b"3") {
        Err(ImportError::InvalidFile(m)) => assert_eq!(m, "unsupported srzip version `3`"),
        _ => panic!("expected an error"),
    }
}

fn b(s: &str) -> String {
    format!("\x1b[1m{s}\x1b[0m")
}

#[test]
fn describe_one_digital_device() {
    let devices = match parse_metadata(b"[device 1]\nprobe2=SCL\nprobe1=SDA\n", number_len) {
        Ok(d) => d,
        Err(_) => panic!("metadata should parse"),
    };
    let text = iguazu::info::info_tree(&iguazu::srzip::describe_devices(&devices, "i2c.sr"));
    assert_eq!(
        text,
        format!("● {} (Bit Struct)\n├─○ {} (Bits)\n└─○ {} (Bits)\n", b("i2c.sr"), b("SDA"), b("SCL"))
    );
}

#[test]
fn describe_devices_with_analog_channels() {
    let devices = match parse_metadata(b"[device 1]\nprobe1=D0\nanalog2=A0\n[device 2]\nanalog1=X\nanalog3=X\n", number_len) {
        Ok(d) => d,
        Err(_) => panic!("metadata should parse"),
    };
    let text = iguazu::info::info_tree(&iguazu::srzip::describe_devices(&devices, "f.sr"));
    assert_eq!(
        text,
        format!(
            "● {} (Group)\n├─● {} (Group)\n│ ├─● {} (Bit Struct)\n│ │ └─○ {} (Bits)\n│ └─● {} (Float32)\n└─● {} (Group)\n  └─● {} (Float32)\n",
            b("f.sr"),
            b("device1"),
            b("digital"),
            b("D0"),
            b("A0"),
            b("device2"),
            b("X")
        )
    );
}

#[test]
fn test_require_entry() {
    assert_eq!(iguazu::srzip::require_entry(Some(b"2".to_vec()), "version").ok(), Some(b"2".to_vec()));
    match iguazu::srzip::require_entry(None, "metadata") {
        Err(ImportError::InvalidFile(m)) => assert_eq!(m, "missing `metadata` file in srzip"),
        _ => panic!("expected an invalid-file error"),
    }
}
