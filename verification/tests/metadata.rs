use mkwp::metadata::{
    metadata_payload, parse_time_part, payload_plist, solar_plist, time_fraction, time_plist,
    xmp_packet, Appearance, MetadataError, Payload, PlistValue, SolarEntry, SolarMetadataError,
    TimeEntry, TimeMetadataError, SECONDS_PER_DAY, XMP_PREFIX, XMP_SUFFIX,
};
use mkwp::{CommonInput, Input, SolarInput, TimeInput};

use base64::Engine;
use plist::{Dictionary, Value};

fn common(file_name: &str, is_primary: bool, is_for_light: bool, is_for_dark: bool) -> CommonInput {
    CommonInput { file_name: file_name.to_string(), is_primary, is_for_light, is_for_dark }
}

fn time_input(file_name: &str, light: bool, dark: bool, time: &str) -> Input {
    Input::Time(TimeInput { common: common(file_name, false, light, dark), time: time.to_string() })
}

fn solar_input(file_name: &str, light: bool, dark: bool, altitude: f64, azimuth: f64) -> Input {
    Input::Solar(SolarInput {
        common: common(file_name, false, light, dark),
        altitude_bits: altitude.to_bits(),
        azimuth_bits: azimuth.to_bits(),
    })
}

/// The manifest of the time sample.
fn time_sample() -> Vec<Input> {
    vec![
        Input::Time(TimeInput { common: common("1.png", true, true, false), time: "10:25:43".into() }),
        Input::Time(TimeInput { common: common("2.png", false, false, false), time: "14:32:12".into() }),
        Input::Time(TimeInput { common: common("3.png", false, false, false), time: "18:12:01".into() }),
        Input::Time(TimeInput { common: common("4.png", false, false, true), time: "20:10:45".into() }),
    ]
}

/// The manifest of the solar sample.
fn solar_sample() -> Vec<Input> {
    vec![
        Input::Solar(SolarInput {
            common: common("1.png", true, true, false),
            altitude_bits: 27.95f64.to_bits(),
            azimuth_bits: 279.66f64.to_bits(),
        }),
        Input::Solar(SolarInput {
            common: common("2.png", false, false, false),
            altitude_bits: (-31.05f64).to_bits(),
            azimuth_bits: 4.16f64.to_bits(),
        }),
        Input::Solar(SolarInput {
            common: common("16.png", false, false, true),
            altitude_bits: (-28.63f64).to_bits(),
            azimuth_bits: 340.41f64.to_bits(),
        }),
    ]
}

/// The plist crate's value for a property list that the library laid out.
fn plist_value(value: &PlistValue) -> Value {
    match value {
        PlistValue::Integer(n) => Value::Integer((*n).into()),
        PlistValue::DayFraction(seconds) => Value::Real(*seconds as f64 / SECONDS_PER_DAY as f64),
        PlistValue::Real(bits) => Value::Real(f64::from_bits(*bits)),
        PlistValue::Array(items) => Value::Array(items.iter().map(plist_value).collect()),
        PlistValue::Dictionary(entries) => {
            let mut dictionary = Dictionary::new();
            for (key, item) in entries {
                dictionary.insert(key.clone(), plist_value(item));
            }
            Value::Dictionary(dictionary)
        }
    }
}

/// The property list of the time payload of `inputs`.
fn time_value(inputs: &[Input]) -> Value {
    plist_value(&payload_plist(&metadata_payload(inputs).unwrap()))
}

fn entry(pairs: Vec<(&str, PlistValue)>) -> PlistValue {
    PlistValue::Dictionary(pairs.into_iter().map(|(k, v)| (k.to_string(), v)).collect())
}

#[test]
fn builds_a_time_metadata_payload() {
    let inputs = time_sample();
    let payload = time_plist(&inputs).unwrap();

    assert_eq!(payload.entries.len(), 4);
    assert_eq!(payload.entries[0].index, 0);
    assert_eq!(
        payload.entries[0].seconds as f64 / SECONDS_PER_DAY as f64,
        37_543.0 / 86_400.0
    );
    assert_eq!(payload.appearance, Some(Appearance { light: 0, dark: 3 }));
}

#[test]
fn builds_a_solar_metadata_payload() {
    let inputs = solar_sample();
    let payload = solar_plist(&inputs).unwrap();

    assert_eq!(payload.entries.len(), 3);
    assert_eq!(f64::from_bits(payload.entries[0].altitude_bits), 27.95);
    assert_eq!(f64::from_bits(payload.entries[0].azimuth_bits), 279.66);
}

#[test]
fn wraps_the_binary_plist_in_xmp() {
    let inputs = time_sample();
    let mut binary = Vec::new();
    plist::to_writer_binary(&mut binary, &time_value(&inputs)).unwrap();
    let packet = String::from_utf8(xmp_packet(&binary)).unwrap();
    let encoded = packet
        .split_once("apple_desktop:h24=\"")
        .unwrap()
        .1
        .split_once('"')
        .unwrap()
        .0;
    let plist = Value::from_reader(std::io::Cursor::new(
        base64::engine::general_purpose::STANDARD.decode(encoded).unwrap(),
    ))
    .unwrap();

    assert_eq!(plist, time_value(&inputs));
}

#[test]
fn rejects_invalid_time() {
    let inputs = vec![time_input("day.png", false, false, "25:00:00")];
    assert_eq!(
        time_plist(&inputs),
        Err(TimeMetadataError::InvalidTime { value: "25:00:00".into() })
    );
}

#[test]
fn rejects_an_incomplete_appearance_mapping() {
    let inputs = vec![time_input("day.png", true, false, "08:00:00")];
    assert_eq!(time_plist(&inputs), Err(TimeMetadataError::IncompleteAppearanceMapping));
}

#[test]
fn time_entries_follow_the_manifest() {
    let payload = time_plist(&time_sample()).unwrap();
    assert_eq!(
        payload.entries,
        vec![
            TimeEntry { index: 0, seconds: 37_543 },
            TimeEntry { index: 1, seconds: 52_332 },
            TimeEntry { index: 2, seconds: 65_521 },
            TimeEntry { index: 3, seconds: 72_645 },
        ]
    );
}

#[test]
fn time_without_appearance_has_no_ap_entry() {
    let inputs = vec![time_input("a.png", false, false, "00:00:00"), time_input("b.png", false, false, "23:59:59")];
    let payload = time_plist(&inputs).unwrap();
    assert_eq!(payload.appearance, None);
    assert_eq!(payload.entries[1].seconds, 86_399);
}

#[test]
fn time_rejects_a_solar_input() {
    let inputs = vec![time_input("a.png", false, false, "08:00:00"), solar_input("b.png", false, false, 1.0, 2.0)];
    assert_eq!(time_plist(&inputs), Err(TimeMetadataError::ContainsSolarInput));
}

#[test]
fn time_rejects_two_light_images() {
    let inputs = vec![
        time_input("a.png", true, false, "08:00:00"),
        time_input("b.png", true, true, "09:00:00"),
    ];
    assert_eq!(time_plist(&inputs), Err(TimeMetadataError::MultipleLightImages));
}

#[test]
fn time_rejects_two_dark_images() {
    let inputs = vec![
        time_input("a.png", true, true, "08:00:00"),
        time_input("b.png", false, true, "09:00:00"),
    ];
    assert_eq!(time_plist(&inputs), Err(TimeMetadataError::MultipleDarkImages));
}

#[test]
fn one_image_may_stand_for_both_appearances() {
    let inputs = vec![time_input("a.png", true, true, "08:00:00")];
    let payload = time_plist(&inputs).unwrap();
    assert_eq!(payload.appearance, Some(Appearance { light: 0, dark: 0 }));
}

#[test]
fn the_first_failure_is_reported() {
    let inputs = vec![
        time_input("a.png", false, false, "8"),
        solar_input("b.png", false, false, 1.0, 2.0),
    ];
    assert_eq!(time_plist(&inputs), Err(TimeMetadataError::InvalidTime { value: "8".into() }));
}

#[test]
fn reads_times_of_day() {
    assert_eq!(time_fraction("00:00:00"), Ok(0));
    assert_eq!(time_fraction("10:25:43"), Ok(37_543));
    assert_eq!(time_fraction("23:59:59"), Ok(86_399));
    assert_eq!(time_fraction("+1:2:3"), Ok(3_723));
    assert_eq!(time_fraction("007:000:09"), Ok(25_209));
    for bad in ["", "10", "10:00", "10:00:00:00", "24:00:00", "10:60:00", "10:00:60", "a:b:c",
        "-1:00:00", " 1:00:00", "1::00", "+:00:00", "99999999999:00:00", "10:00:00:"] {
        assert_eq!(
            time_fraction(bad),
            Err(TimeMetadataError::InvalidTime { value: bad.into() }),
            "{bad}"
        );
    }
}

#[test]
fn reads_time_parts() {
    assert_eq!(parse_time_part(Some("42"), "x"), Ok(42));
    assert_eq!(parse_time_part(Some("4294967295"), "x"), Ok(u32::MAX));
    assert_eq!(
        parse_time_part(Some("4294967296"), "x"),
        Err(TimeMetadataError::InvalidTime { value: "x".into() })
    );
    assert_eq!(parse_time_part(None, "x"), Err(TimeMetadataError::InvalidTime { value: "x".into() }));
    assert_eq!(parse_time_part(Some(""), "y"), Err(TimeMetadataError::InvalidTime { value: "y".into() }));
}

#[test]
fn solar_entries_follow_the_manifest() {
    let inputs = solar_sample();
    let payload = solar_plist(&inputs).unwrap();
    assert_eq!(
        payload.entries[2],
        SolarEntry { index: 2, altitude_bits: (-28.63f64).to_bits(), azimuth_bits: 340.41f64.to_bits() }
    );
    assert_eq!(payload.appearance, Some(Appearance { light: 0, dark: 2 }));
}

#[test]
fn solar_errors() {
    let mixed = vec![solar_input("a.png", false, false, 1.0, 2.0), time_input("b.png", false, false, "08:00:00")];
    assert_eq!(solar_plist(&mixed), Err(SolarMetadataError::ContainsTimeInput));
    let two_light = vec![solar_input("a.png", true, false, 1.0, 2.0), solar_input("b.png", true, false, 1.0, 2.0)];
    assert_eq!(solar_plist(&two_light), Err(SolarMetadataError::MultipleLightImages));
    let two_dark = vec![solar_input("a.png", false, true, 1.0, 2.0), solar_input("b.png", true, true, 1.0, 2.0)];
    assert_eq!(solar_plist(&two_dark), Err(SolarMetadataError::MultipleDarkImages));
    let only_dark = vec![solar_input("a.png", false, true, 1.0, 2.0)];
    assert_eq!(solar_plist(&only_dark), Err(SolarMetadataError::IncompleteAppearanceMapping));
}

#[test]
fn the_first_image_chooses_the_payload() {
    assert!(matches!(metadata_payload(&[]), Err(MetadataError::NoImages)));
    assert!(matches!(metadata_payload(&time_sample()), Ok(Payload::Time(_))));
    assert!(matches!(metadata_payload(&solar_sample()), Ok(Payload::Solar(_))));
    let mixed = vec![solar_input("a.png", false, false, 1.0, 2.0), time_input("b.png", false, false, "08:00:00")];
    assert!(matches!(
        metadata_payload(&mixed),
        Err(MetadataError::Solar(SolarMetadataError::ContainsTimeInput))
    ));
    let mixed = vec![time_input("b.png", false, false, "08:00:00"), solar_input("a.png", false, false, 1.0, 2.0)];
    assert!(matches!(
        metadata_payload(&mixed),
        Err(MetadataError::Time(TimeMetadataError::ContainsSolarInput))
    ));
}

#[test]
fn frames_base64_between_prefix_and_suffix() {
    let packet = xmp_packet(b"Man");
    let mut expected = XMP_PREFIX.as_bytes().to_vec();
    expected.extend_from_slice(b"TWFu");
    expected.extend_from_slice(XMP_SUFFIX.as_bytes());
    assert_eq!(packet, expected);

    let packet = xmp_packet(b"Ma");
    assert_eq!(&packet[XMP_PREFIX.len()..packet.len() - XMP_SUFFIX.len()], b"TWE=");
    let packet = xmp_packet(b"M");
    assert_eq!(&packet[XMP_PREFIX.len()..packet.len() - XMP_SUFFIX.len()], b"TQ==");
    let packet = xmp_packet(&[0xfb, 0xff, 0xbf]);
    assert_eq!(&packet[XMP_PREFIX.len()..packet.len() - XMP_SUFFIX.len()], b"+/+/");
    let packet = xmp_packet(b"");
    assert_eq!(packet.len(), XMP_PREFIX.len() + XMP_SUFFIX.len());
    assert!(XMP_PREFIX.starts_with("<?xpacket begin=\"\u{feff}\""));
    assert!(XMP_PREFIX.ends_with("apple_desktop:h24=\""));
    assert!(XMP_SUFFIX.starts_with('"'));
}

#[test]
fn lays_out_the_time_property_list() {
    let payload = metadata_payload(&time_sample()).unwrap();
    assert_eq!(
        payload_plist(&payload),
        entry(vec![
            (
                "ti",
                PlistValue::Array(vec![
                    entry(vec![("i", PlistValue::Integer(0)), ("t", PlistValue::DayFraction(37_543))]),
                    entry(vec![("i", PlistValue::Integer(1)), ("t", PlistValue::DayFraction(52_332))]),
                    entry(vec![("i", PlistValue::Integer(2)), ("t", PlistValue::DayFraction(65_521))]),
                    entry(vec![("i", PlistValue::Integer(3)), ("t", PlistValue::DayFraction(72_645))]),
                ]),
            ),
            ("ap", entry(vec![("l", PlistValue::Integer(0)), ("d", PlistValue::Integer(3))])),
        ])
    );

    let mut expected = Dictionary::new();
    let mut first = Dictionary::new();
    first.insert("i".into(), Value::Integer(0.into()));
    first.insert("t".into(), Value::Real(37_543.0 / 86_400.0));
    let value = plist_value(&payload_plist(&payload));
    let ti = value.as_dictionary().unwrap()["ti"].as_array().unwrap();
    assert_eq!(ti[0], Value::Dictionary(first));
    expected.insert("l".into(), Value::Integer(0.into()));
    expected.insert("d".into(), Value::Integer(3.into()));
    assert_eq!(value.as_dictionary().unwrap()["ap"], Value::Dictionary(expected));
}

#[test]
fn lays_out_the_solar_property_list() {
    let payload = metadata_payload(&solar_sample()).unwrap();
    let a = |v: f64| PlistValue::Real(v.to_bits());
    assert_eq!(
        payload_plist(&payload),
        entry(vec![
            (
                "si",
                PlistValue::Array(vec![
                    entry(vec![("i", PlistValue::Integer(0)), ("a", a(27.95)), ("z", a(279.66))]),
                    entry(vec![("i", PlistValue::Integer(1)), ("a", a(-31.05)), ("z", a(4.16))]),
                    entry(vec![("i", PlistValue::Integer(2)), ("a", a(-28.63)), ("z", a(340.41))]),
                ]),
            ),
            ("ap", entry(vec![("l", PlistValue::Integer(0)), ("d", PlistValue::Integer(2))])),
        ])
    );
    let value = plist_value(&payload_plist(&payload));
    let si = value.as_dictionary().unwrap()["si"].as_array().unwrap();
    assert_eq!(si[0].as_dictionary().unwrap()["a"], Value::Real(27.95));
    assert_eq!(si[0].as_dictionary().unwrap()["z"], Value::Real(279.66));
}

#[test]
fn a_payload_without_appearance_has_only_its_entries() {
    let inputs = vec![time_input("a.png", false, false, "00:00:01")];
    let payload = metadata_payload(&inputs).unwrap();
    assert_eq!(
        payload_plist(&payload),
        entry(vec![(
            "ti",
            PlistValue::Array(vec![entry(vec![
                ("i", PlistValue::Integer(0)),
                ("t", PlistValue::DayFraction(1)),
            ])]),
        )])
    );
}
