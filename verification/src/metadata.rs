//! The Dynamic Desktop metadata that macOS reads from the `apple_desktop:h24`
//! XMP tag: for each image its time of day or its sun position, and which
//! images stand for the light and the dark appearance.
use vstd::prelude::*;

use base64::Engine;
use vstd::string::StringSliceAdditionalSpecFns;

use crate::input::Input;
use crate::text::{parse_decimal_u32, spec_parse_u32, split_colon};

verus! {

/// Seconds in a day: an entry's `t` value is its seconds after midnight over this.
pub const SECONDS_PER_DAY: u32 = 86400;

/// The `ti` entry of one image: `i` is its position in the manifest, and its
/// `t` value is `seconds / SECONDS_PER_DAY`.
#[derive(Debug, Clone, Copy, PartialEq, Eq, Structural)]
pub struct TimeEntry {
    pub index: u64,
    pub seconds: u32,
}

/// The `si` entry of one image: `i`, and the altitude `a` and azimuth `z`
/// as IEEE-754 bit patterns.
#[derive(Debug, Clone, Copy, PartialEq, Eq, Structural)]
pub struct SolarEntry {
    pub index: u64,
    pub altitude_bits: u64,
    pub azimuth_bits: u64,
}

/// The `ap` entry: the manifest positions of the light (`l`) and dark (`d`) images.
#[derive(Debug, Clone, Copy, PartialEq, Eq, Structural)]
pub struct Appearance {
    pub light: u64,
    pub dark: u64,
}

/// The payload of a time-based wallpaper: `ti`, and `ap` when present.
#[derive(Debug, PartialEq, Eq)]
pub struct TimePayload {
    pub entries: Vec<TimeEntry>,
    pub appearance: Option<Appearance>,
}

/// The payload of a solar wallpaper: `si`, and `ap` when present.
#[derive(Debug, PartialEq, Eq)]
pub struct SolarPayload {
    pub entries: Vec<SolarEntry>,
    pub appearance: Option<Appearance>,
}

/// The payload of either kind of wallpaper.
#[derive(Debug, PartialEq, Eq)]
pub enum Payload {
    Time(TimePayload),
    Solar(SolarPayload),
}

/// Why time metadata could not be built.
#[derive(Debug, PartialEq, Eq)]
pub enum TimeMetadataError {
    ContainsSolarInput,
    InvalidTime { value: String },
    MultipleLightImages,
    MultipleDarkImages,
    IncompleteAppearanceMapping,
}

/// The mathematical form of a `TimeMetadataError`.
pub enum TimeFailure {
    ContainsSolarInput,
    InvalidTime(Seq<char>),
    MultipleLightImages,
    MultipleDarkImages,
    IncompleteAppearanceMapping,
}

impl View for TimeMetadataError {
    type V = TimeFailure;

    open spec fn view(&self) -> TimeFailure {
        match self {
            TimeMetadataError::ContainsSolarInput => TimeFailure::ContainsSolarInput,
            TimeMetadataError::InvalidTime { value } => TimeFailure::InvalidTime(value@),
            TimeMetadataError::MultipleLightImages => TimeFailure::MultipleLightImages,
            TimeMetadataError::MultipleDarkImages => TimeFailure::MultipleDarkImages,
            TimeMetadataError::IncompleteAppearanceMapping => TimeFailure::IncompleteAppearanceMapping,
        }
    }
}

/// Why solar metadata could not be built.
#[derive(Debug, Clone, Copy, PartialEq, Eq, Structural)]
pub enum SolarMetadataError {
    ContainsTimeInput,
    MultipleLightImages,
    MultipleDarkImages,
    IncompleteAppearanceMapping,
}

/// Declares plist's `Error`, carried opaque in `MetadataError::Serialize`.
#[verifier::external_type_specification]
#[verifier::external_body]
pub struct ExPlistError(plist::Error);

/// Why the metadata of a manifest could not be built.
#[derive(Debug)]
pub enum MetadataError {
    NoImages,
    Time(TimeMetadataError),
    Solar(SolarMetadataError),
    Serialize(plist::Error),
}

// ---------------------------------------------------------------------------
// Times of day

/// Seconds after midnight of a time written `HH:MM:SS`: three colon-separated
/// decimal fields, an hour up to 23, and a minute and second up to 59.
pub open spec fn spec_day_seconds(t: Seq<char>) -> Option<u32> {
    let parts = split_colon(t);
    if parts.len() == 3 && spec_parse_u32(parts[0]) is Some && spec_parse_u32(parts[1]) is Some
        && spec_parse_u32(parts[2]) is Some {
        let h = spec_parse_u32(parts[0]).unwrap();
        let m = spec_parse_u32(parts[1]).unwrap();
        let s = spec_parse_u32(parts[2]).unwrap();
        if h <= 23 && m <= 59 && s <= 59 {
            Some((h * 3600 + m * 60 + s) as u32)
        } else {
            None
        }
    } else {
        None
    }
}

/// The texts of the fields of `s` given as character ranges.
pub open spec fn ranges_text(s: Seq<char>, ranges: Seq<(usize, usize)>) -> Seq<Seq<char>> {
    Seq::new(ranges.len(), |k: int| s.subrange(ranges[k].0 as int, ranges[k].1 as int))
}

/// The character ranges of the colon-separated fields of `s`.
fn colon_fields(s: &str) -> (fields: Vec<(usize, usize)>)
    ensures
        fields@.len() >= 1,
        forall|k: int|
            0 <= k < fields@.len() ==> #[trigger] fields@[k].0 <= fields@[k].1 <= s@.len(),
        ranges_text(s@, fields@) == split_colon(s@),
{
    let n = s.unicode_len();
    let mut fields: Vec<(usize, usize)> = Vec::new();
    let mut start: usize = 0;
    let mut i: usize = 0;
    assert(split_colon(s@.take(0)) =~= seq![Seq::<char>::empty()]);
    assert(s@.subrange(0, 0) =~= Seq::<char>::empty());
    assert(ranges_text(s@, fields@).push(s@.subrange(0, 0)) =~= seq![Seq::<char>::empty()]);
    while i < n
        invariant
            n == s@.len(),
            start <= i <= n,
            forall|k: int| 0 <= k < fields@.len() ==> #[trigger] fields@[k].0 <= fields@[k].1 <= start,
            split_colon(s@.take(i as int)) == ranges_text(s@, fields@).push(
                s@.subrange(start as int, i as int),
            ),
        decreases n - i,
    {
        let c = s.get_char(i);
        let ghost before = ranges_text(s@, fields@);
        assert(s@.take(i + 1).drop_last() =~= s@.take(i as int));
        assert(s@.take(i + 1).last() == c);
        if c == ':' {
            let ghost old_fields = fields@;
            let ghost old_start = start;
            fields.push((start, i));
            assert(fields@ =~= old_fields.push((start, i)));
            assert forall|k: int| 0 <= k < old_fields.len() implies #[trigger] ranges_text(s@, fields@)[k] == before[k] by {
                assert(fields@[k] == old_fields[k]);
            }
            start = i + 1;
            assert forall|k: int| 0 <= k < fields@.len() implies #[trigger] fields@[k].0 <= fields@[k].1 <= start by {
                if k < old_fields.len() {
                    assert(fields@[k] == old_fields[k]);
                    assert(old_fields[k].0 <= old_fields[k].1 <= old_start);
                } else {
                    assert(fields@[k] == (old_start, i));
                }
            }
            assert(s@.subrange(start as int, i + 1) =~= Seq::<char>::empty());
            assert(ranges_text(s@, fields@) =~= before.push(s@.subrange(fields@.last().0 as int, i as int)));
            assert(split_colon(s@.take(i + 1)) =~= ranges_text(s@, fields@).push(
                s@.subrange(start as int, i + 1),
            ));
        } else {
            assert(s@.subrange(start as int, i as int).push(c) =~= s@.subrange(start as int, i + 1));
            assert(split_colon(s@.take(i + 1)) =~= before.push(s@.subrange(start as int, i + 1)));
        }
        i = i + 1;
    }
    let ghost before = ranges_text(s@, fields@);
    let ghost old_fields = fields@;
    fields.push((start, n));
    assert forall|k: int| 0 <= k < old_fields.len() implies #[trigger] ranges_text(s@, fields@)[k] == before[k] by {
        assert(fields@[k] == old_fields[k]);
    }
    assert(s@.take(n as int) =~= s@);
    assert(ranges_text(s@, fields@) =~= before.push(s@.subrange(start as int, n as int)));
    fields
}

/// One field of a time of day: its value, or `InvalidTime` naming the whole time.
pub fn parse_time_part(part: Option<&str>, whole_time: &str) -> (r: Result<u32, TimeMetadataError>)
    ensures
        match part {
            Some(p) => match spec_parse_u32(p@) {
                Some(v) => r == Ok::<u32, TimeMetadataError>(v),
                None => r matches Err(e) && e@ == TimeFailure::InvalidTime(whole_time@),
            },
            None => r matches Err(e) && e@ == TimeFailure::InvalidTime(whole_time@),
        },
{
    let parsed = match part {
        Some(p) => parse_decimal_u32(p),
        None => None,
    };
    match parsed {
        Some(v) => Ok(v),
        None => Err(TimeMetadataError::InvalidTime { value: whole_time.to_owned() }),
    }
}

/// The seconds after midnight of a time written `HH:MM:SS`: the numerator of
/// the fraction of the day that the `t` value holds.
pub fn time_fraction(time: &str) -> (r: Result<u32, TimeMetadataError>)
    ensures
        match spec_day_seconds(time@) {
            Some(s) => r == Ok::<u32, TimeMetadataError>(s),
            None => r matches Err(e) && e@ == TimeFailure::InvalidTime(time@),
        },
{
    let fields = colon_fields(time);
    let ghost parts = split_colon(time@);
    assert(ranges_text(time@, fields@)[0] == parts[0]);
    let first = time.substring_char(fields[0].0, fields[0].1);
    let hour = match parse_time_part(Some(first), time) {
        Ok(v) => v,
        Err(e) => return Err(e),
    };
    let second_field = if fields.len() > 1 {
        assert(ranges_text(time@, fields@)[1] == parts[1]);
        Some(time.substring_char(fields[1].0, fields[1].1))
    } else {
        None
    };
    let minute = match parse_time_part(second_field, time) {
        Ok(v) => v,
        Err(e) => return Err(e),
    };
    let third_field = if fields.len() > 2 {
        assert(ranges_text(time@, fields@)[2] == parts[2]);
        Some(time.substring_char(fields[2].0, fields[2].1))
    } else {
        None
    };
    let second = match parse_time_part(third_field, time) {
        Ok(v) => v,
        Err(e) => return Err(e),
    };
    if fields.len() > 3 || hour > 23 || minute > 59 || second > 59 {
        return Err(TimeMetadataError::InvalidTime { value: time.to_owned() });
    }
    Ok(hour * 3600 + minute * 60 + second)
}

// ---------------------------------------------------------------------------
// Light and dark appearance

/// Which appearance an input claims a second time.
pub enum Clash {
    Light,
    Dark,
}

/// The light and dark positions after the input at `index` is seen, or the
/// appearance it claims again.
pub open spec fn appearance_step(input: Input, index: u64, light: Option<u64>, dark: Option<u64>)
    -> Result<(Option<u64>, Option<u64>), Clash>
{
    if input.spec_is_for_light() && light is Some {
        Err(Clash::Light)
    } else if input.spec_is_for_dark() && dark is Some {
        Err(Clash::Dark)
    } else {
        Ok(
            (
                if input.spec_is_for_light() { Some(index) } else { light },
                if input.spec_is_for_dark() { Some(index) } else { dark },
            ),
        )
    }
}

/// The `ap` entry for the positions found: none for neither, both for both;
/// `None` when only one of them was found.
pub open spec fn appearance_of(light: Option<u64>, dark: Option<u64>) -> Option<Option<Appearance>> {
    match (light, dark) {
        (None, None) => Some(None),
        (Some(l), Some(d)) => Some(Some(Appearance { light: l, dark: d })),
        _ => None,
    }
}

/// Notes that the input at `index` stands for the light or dark appearance,
/// failing when one of them is claimed twice.
pub fn record_appearance<E>(
    input: &Input,
    index: u64,
    light_index: &mut Option<u64>,
    dark_index: &mut Option<u64>,
    multiple_light: E,
    multiple_dark: E,
) -> (r: Result<(), E>)
    ensures
        match appearance_step(*input, index, *old(light_index), *old(dark_index)) {
            Ok((l, d)) => r is Ok && *final(light_index) == l && *final(dark_index) == d,
            Err(Clash::Light) => r == Err::<(), E>(multiple_light),
            Err(Clash::Dark) => r == Err::<(), E>(multiple_dark),
        },
        *final(light_index) == if input.spec_is_for_light() {
            Some(index)
        } else {
            *old(light_index)
        },
        !(input.spec_is_for_light() && *old(light_index) is Some) ==> *final(dark_index) == if input.spec_is_for_dark() {
            Some(index)
        } else {
            *old(dark_index)
        },
        (input.spec_is_for_light() && *old(light_index) is Some) ==> *final(dark_index) == *old(dark_index),
{
    if input.is_for_light() {
        let previous = *light_index;
        *light_index = Some(index);
        if previous.is_some() {
            return Err(multiple_light);
        }
    }
    if input.is_for_dark() {
        let previous = *dark_index;
        *dark_index = Some(index);
        if previous.is_some() {
            return Err(multiple_dark);
        }
    }
    Ok(())
}

/// The `ap` entry for the light and dark positions found.
pub fn insert_appearance<E>(light_index: Option<u64>, dark_index: Option<u64>, incomplete: E) -> (r:
    Result<Option<Appearance>, E>)
    ensures
        match appearance_of(light_index, dark_index) {
            Some(a) => r == Ok::<Option<Appearance>, E>(a),
            None => r == Err::<Option<Appearance>, E>(incomplete),
        },
{
    match (light_index, dark_index) {
        (None, None) => Ok(None),
        (Some(light), Some(dark)) => Ok(Some(Appearance { light, dark })),
        _ => Err(incomplete),
    }
}


// ---------------------------------------------------------------------------
// Time payload

/// What the first `n` inputs give for time metadata: the `ti` entries and the
/// light and dark positions so far, or the first failure.
pub open spec fn time_scan(inputs: Seq<Input>, n: nat) -> Result<
    (Seq<TimeEntry>, Option<u64>, Option<u64>),
    TimeFailure,
>
    decreases n,
{
    if n == 0 {
        Ok((Seq::<TimeEntry>::empty(), None, None))
    } else {
        match time_scan(inputs, (n - 1) as nat) {
            Err(e) => Err(e),
            Ok((entries, light, dark)) => {
                let input = inputs[n - 1];
                let index = (n - 1) as u64;
                match input {
                    Input::Solar(_) => Err(TimeFailure::ContainsSolarInput),
                    Input::Time(t) => match spec_day_seconds(t.time@) {
                        None => Err(TimeFailure::InvalidTime(t.time@)),
                        Some(seconds) => match appearance_step(input, index, light, dark) {
                            Err(Clash::Light) => Err(TimeFailure::MultipleLightImages),
                            Err(Clash::Dark) => Err(TimeFailure::MultipleDarkImages),
                            Ok((l, d)) => Ok(
                                (entries.push(TimeEntry { index, seconds }), l, d),
                            ),
                        },
                    },
                }
            },
        }
    }
}

/// The time payload of a manifest: its `ti` entries and `ap` entry, or why
/// there is none.
pub open spec fn spec_time_plist(inputs: Seq<Input>) -> Result<
    (Seq<TimeEntry>, Option<Appearance>),
    TimeFailure,
> {
    match time_scan(inputs, inputs.len()) {
        Err(e) => Err(e),
        Ok((entries, light, dark)) => match appearance_of(light, dark) {
            Some(a) => Ok((entries, a)),
            None => Err(TimeFailure::IncompleteAppearanceMapping),
        },
    }
}

proof fn lemma_time_scan_failure_stays(inputs: Seq<Input>, n: nat, m: nat)
    requires
        n <= m,
        time_scan(inputs, n) is Err,
    ensures
        time_scan(inputs, m) == time_scan(inputs, n),
    decreases m - n,
{
    if n < m {
        lemma_time_scan_failure_stays(inputs, n, (m - 1) as nat);
    }
}

/// Builds the time payload for `inputs`: one `ti` entry per image, in order,
/// and the `ap` entry when the manifest names a light and a dark image.
pub fn time_plist(inputs: &[Input]) -> (r: Result<TimePayload, TimeMetadataError>)
    ensures
        match r {
            Ok(p) => spec_time_plist(inputs@) == Ok::<_, TimeFailure>((p.entries@, p.appearance)),
            Err(e) => spec_time_plist(inputs@) == Err::<(Seq<TimeEntry>, Option<Appearance>), _>(e@),
        },
{
    let mut time_information: Vec<TimeEntry> = Vec::with_capacity(inputs.len());
    let mut light_index: Option<u64> = None;
    let mut dark_index: Option<u64> = None;
    let mut i: usize = 0;
    while i < inputs.len()
        invariant
            i <= inputs@.len(),
            time_scan(inputs@, i as nat) == Ok::<_, TimeFailure>(
                (time_information@, light_index, dark_index),
            ),
        decreases inputs@.len() - i,
    {
        let input = &inputs[i];
        let index = i as u64;
        let time = match input.time() {
            Some(t) => t,
            None => {
                proof {
                    lemma_time_scan_failure_stays(inputs@, (i + 1) as nat, inputs@.len());
                }
                return Err(TimeMetadataError::ContainsSolarInput);
            },
        };
        let seconds = match time_fraction(time) {
            Ok(s) => s,
            Err(e) => {
                proof {
                    lemma_time_scan_failure_stays(inputs@, (i + 1) as nat, inputs@.len());
                }
                return Err(e);
            },
        };
        time_information.push(TimeEntry { index, seconds });
        let recorded = record_appearance(
            input,
            index,
            &mut light_index,
            &mut dark_index,
            TimeMetadataError::MultipleLightImages,
            TimeMetadataError::MultipleDarkImages,
        );
        if let Err(e) = recorded {
            proof {
                lemma_time_scan_failure_stays(inputs@, (i + 1) as nat, inputs@.len());
            }
            return Err(e);
        }
        i = i + 1;
    }
    match insert_appearance(light_index, dark_index, TimeMetadataError::IncompleteAppearanceMapping) {
        Ok(appearance) => Ok(TimePayload { entries: time_information, appearance }),
        Err(e) => Err(e),
    }
}

// ---------------------------------------------------------------------------
// Solar payload

/// What the first `n` inputs give for solar metadata: the `si` entries and
/// the light and dark positions so far, or the first failure.
pub open spec fn solar_scan(inputs: Seq<Input>, n: nat) -> Result<
    (Seq<SolarEntry>, Option<u64>, Option<u64>),
    SolarMetadataError,
>
    decreases n,
{
    if n == 0 {
        Ok((Seq::<SolarEntry>::empty(), None, None))
    } else {
        match solar_scan(inputs, (n - 1) as nat) {
            Err(e) => Err(e),
            Ok((entries, light, dark)) => {
                let input = inputs[n - 1];
                let index = (n - 1) as u64;
                match input {
                    Input::Time(_) => Err(SolarMetadataError::ContainsTimeInput),
                    Input::Solar(s) => match appearance_step(input, index, light, dark) {
                        Err(Clash::Light) => Err(SolarMetadataError::MultipleLightImages),
                        Err(Clash::Dark) => Err(SolarMetadataError::MultipleDarkImages),
                        Ok((l, d)) => Ok(
                            (
                                entries.push(
                                    SolarEntry {
                                        index,
                                        altitude_bits: s.altitude_bits,
                                        azimuth_bits: s.azimuth_bits,
                                    },
                                ),
                                l,
                                d,
                            ),
                        ),
                    },
                }
            },
        }
    }
}

/// The solar payload of a manifest: its `si` entries and `ap` entry, or why
/// there is none.
pub open spec fn spec_solar_plist(inputs: Seq<Input>) -> Result<
    (Seq<SolarEntry>, Option<Appearance>),
    SolarMetadataError,
> {
    match solar_scan(inputs, inputs.len()) {
        Err(e) => Err(e),
        Ok((entries, light, dark)) => match appearance_of(light, dark) {
            Some(a) => Ok((entries, a)),
            None => Err(SolarMetadataError::IncompleteAppearanceMapping),
        },
    }
}

proof fn lemma_solar_scan_failure_stays(inputs: Seq<Input>, n: nat, m: nat)
    requires
        n <= m,
        solar_scan(inputs, n) is Err,
    ensures
        solar_scan(inputs, m) == solar_scan(inputs, n),
    decreases m - n,
{
    if n < m {
        lemma_solar_scan_failure_stays(inputs, n, (m - 1) as nat);
    }
}

/// Builds the solar payload for `inputs`: one `si` entry per image, in order,
/// and the `ap` entry when the manifest names a light and a dark image.
pub fn solar_plist(inputs: &[Input]) -> (r: Result<SolarPayload, SolarMetadataError>)
    ensures
        match r {
            Ok(p) => spec_solar_plist(inputs@) == Ok::<_, SolarMetadataError>((p.entries@, p.appearance)),
            Err(e) => spec_solar_plist(inputs@) == Err::<(Seq<SolarEntry>, Option<Appearance>), _>(e),
        },
{
    let mut solar_information: Vec<SolarEntry> = Vec::with_capacity(inputs.len());
    let mut light_index: Option<u64> = None;
    let mut dark_index: Option<u64> = None;
    let mut i: usize = 0;
    while i < inputs.len()
        invariant
            i <= inputs@.len(),
            solar_scan(inputs@, i as nat) == Ok::<_, SolarMetadataError>(
                (solar_information@, light_index, dark_index),
            ),
        decreases inputs@.len() - i,
    {
        let input = &inputs[i];
        let index = i as u64;
        let (altitude_bits, azimuth_bits) = match input.solar_position() {
            Some(position) => position,
            None => {
                proof {
                    lemma_solar_scan_failure_stays(inputs@, (i + 1) as nat, inputs@.len());
                }
                return Err(SolarMetadataError::ContainsTimeInput);
            },
        };
        solar_information.push(SolarEntry { index, altitude_bits, azimuth_bits });
        let recorded = record_appearance(
            input,
            index,
            &mut light_index,
            &mut dark_index,
            SolarMetadataError::MultipleLightImages,
            SolarMetadataError::MultipleDarkImages,
        );
        if let Err(e) = recorded {
            proof {
                lemma_solar_scan_failure_stays(inputs@, (i + 1) as nat, inputs@.len());
            }
            return Err(e);
        }
        i = i + 1;
    }
    match insert_appearance(light_index, dark_index, SolarMetadataError::IncompleteAppearanceMapping) {
        Ok(appearance) => Ok(SolarPayload { entries: solar_information, appearance }),
        Err(e) => Err(e),
    }
}

// ---------------------------------------------------------------------------
// Choosing the payload

/// Builds the payload for a manifest, time or solar after its first image.
pub fn metadata_payload(inputs: &[Input]) -> (r: Result<Payload, MetadataError>)
    ensures
        match r {
            Ok(Payload::Time(p)) => inputs@.len() > 0 && inputs@[0] is Time
                && spec_time_plist(inputs@) == Ok::<_, TimeFailure>((p.entries@, p.appearance)),
            Ok(Payload::Solar(p)) => inputs@.len() > 0 && inputs@[0] is Solar
                && spec_solar_plist(inputs@) == Ok::<_, SolarMetadataError>((p.entries@, p.appearance)),
            Err(MetadataError::NoImages) => inputs@.len() == 0,
            Err(MetadataError::Time(e)) => inputs@.len() > 0 && inputs@[0] is Time
                && spec_time_plist(inputs@) == Err::<(Seq<TimeEntry>, Option<Appearance>), _>(e@),
            Err(MetadataError::Solar(e)) => inputs@.len() > 0 && inputs@[0] is Solar
                && spec_solar_plist(inputs@) == Err::<(Seq<SolarEntry>, Option<Appearance>), _>(e),
            Err(MetadataError::Serialize(_)) => false,
        },
{
    if inputs.len() == 0 {
        return Err(MetadataError::NoImages);
    }
    match &inputs[0] {
        Input::Time(_) => match time_plist(inputs) {
            Ok(p) => Ok(Payload::Time(p)),
            Err(e) => Err(MetadataError::Time(e)),
        },
        Input::Solar(_) => match solar_plist(inputs) {
            Ok(p) => Ok(Payload::Solar(p)),
            Err(e) => Err(MetadataError::Solar(e)),
        },
    }
}

// ---------------------------------------------------------------------------
// The property list

/// A property list value of the `apple_desktop:h24` payload. Its real numbers
/// are given exactly: a fraction of a day by its seconds over
/// `SECONDS_PER_DAY`, an angle by its IEEE-754 bit pattern.
#[derive(Debug, PartialEq, Eq)]
pub enum PlistValue {
    Integer(u64),
    DayFraction(u32),
    Real(u64),
    Array(Vec<PlistValue>),
    Dictionary(Vec<(String, PlistValue)>),
}

/// `v` is the dictionary `{i: index, t: seconds / SECONDS_PER_DAY}`.
pub open spec fn is_time_entry_value(v: PlistValue, e: TimeEntry) -> bool {
    &&& v matches PlistValue::Dictionary(d)
    &&& d@.len() == 2
    &&& d@[0].0@ == "i"@ && d@[0].1 == PlistValue::Integer(e.index)
    &&& d@[1].0@ == "t"@ && d@[1].1 == PlistValue::DayFraction(e.seconds)
}

/// `v` is the dictionary `{i: index, a: altitude, z: azimuth}`.
pub open spec fn is_solar_entry_value(v: PlistValue, e: SolarEntry) -> bool {
    &&& v matches PlistValue::Dictionary(d)
    &&& d@.len() == 3
    &&& d@[0].0@ == "i"@ && d@[0].1 == PlistValue::Integer(e.index)
    &&& d@[1].0@ == "a"@ && d@[1].1 == PlistValue::Real(e.altitude_bits)
    &&& d@[2].0@ == "z"@ && d@[2].1 == PlistValue::Real(e.azimuth_bits)
}

/// `v` is the dictionary `{l: light, d: dark}`.
pub open spec fn is_appearance_value(v: PlistValue, a: Appearance) -> bool {
    &&& v matches PlistValue::Dictionary(d)
    &&& d@.len() == 2
    &&& d@[0].0@ == "l"@ && d@[0].1 == PlistValue::Integer(a.light)
    &&& d@[1].0@ == "d"@ && d@[1].1 == PlistValue::Integer(a.dark)
}

/// `v` is the payload dictionary: `key` for the array of the entries, then
/// `ap` when there is an appearance entry.
pub open spec fn is_payload_value<E>(
    v: PlistValue,
    key: Seq<char>,
    entries: Seq<E>,
    appearance: Option<Appearance>,
    entry_value: spec_fn(PlistValue, E) -> bool,
) -> bool {
    &&& v matches PlistValue::Dictionary(top)
    &&& top@.len() == if appearance is Some { 2int } else { 1int }
    &&& top@[0].0@ == key
    &&& top@[0].1 matches PlistValue::Array(items)
    &&& items@.len() == entries.len()
    &&& forall|i: int| 0 <= i < entries.len() ==> #[trigger] entry_value(items@[i], entries[i])
    &&& appearance matches Some(a) ==> top@[1].0@ == "ap"@ && is_appearance_value(top@[1].1, a)
}

/// The property list of a payload as macOS reads it.
pub open spec fn is_payload_plist(v: PlistValue, payload: Payload) -> bool {
    match payload {
        Payload::Time(p) => is_payload_value(
            v,
            "ti"@,
            p.entries@,
            p.appearance,
            |x: PlistValue, e: TimeEntry| is_time_entry_value(x, e),
        ),
        Payload::Solar(p) => is_payload_value(
            v,
            "si"@,
            p.entries@,
            p.appearance,
            |x: PlistValue, e: SolarEntry| is_solar_entry_value(x, e),
        ),
    }
}

fn appearance_value(a: Appearance) -> (v: PlistValue)
    ensures
        is_appearance_value(v, a),
{
    let mut d: Vec<(String, PlistValue)> = Vec::new();
    d.push((String::from_str("l"), PlistValue::Integer(a.light)));
    d.push((String::from_str("d"), PlistValue::Integer(a.dark)));
    PlistValue::Dictionary(d)
}

/// Lays out a payload as the `apple_desktop:h24` property list: `ti` (time)
/// or `si` (solar) with one dictionary per entry, then `ap` when present.
pub fn payload_plist(payload: &Payload) -> (v: PlistValue)
    ensures
        is_payload_plist(v, *payload),
{
    let mut items: Vec<PlistValue> = Vec::new();
    let key;
    let appearance;
    match payload {
        Payload::Time(p) => {
            let mut i: usize = 0;
            while i < p.entries.len()
                invariant
                    i <= p.entries@.len(),
                    items@.len() == i,
                    forall|j: int| 0 <= j < i ==> #[trigger] is_time_entry_value(items@[j], p.entries@[j]),
                decreases p.entries@.len() - i,
            {
                let e = p.entries[i];
                let mut d: Vec<(String, PlistValue)> = Vec::new();
                d.push((String::from_str("i"), PlistValue::Integer(e.index)));
                d.push((String::from_str("t"), PlistValue::DayFraction(e.seconds)));
                items.push(PlistValue::Dictionary(d));
                i = i + 1;
            }
            key = String::from_str("ti");
            appearance = p.appearance;
        },
        Payload::Solar(p) => {
            let mut i: usize = 0;
            while i < p.entries.len()
                invariant
                    i <= p.entries@.len(),
                    items@.len() == i,
                    forall|j: int| 0 <= j < i ==> #[trigger] is_solar_entry_value(items@[j], p.entries@[j]),
                decreases p.entries@.len() - i,
            {
                let e = p.entries[i];
                let mut d: Vec<(String, PlistValue)> = Vec::new();
                d.push((String::from_str("i"), PlistValue::Integer(e.index)));
                d.push((String::from_str("a"), PlistValue::Real(e.altitude_bits)));
                d.push((String::from_str("z"), PlistValue::Real(e.azimuth_bits)));
                items.push(PlistValue::Dictionary(d));
                i = i + 1;
            }
            key = String::from_str("si");
            appearance = p.appearance;
        },
    }
    let mut top: Vec<(String, PlistValue)> = Vec::new();
    top.push((key, PlistValue::Array(items)));
    if let Some(a) = appearance {
        top.push((String::from_str("ap"), appearance_value(a)));
    }
    PlistValue::Dictionary(top)
}

// ---------------------------------------------------------------------------
// The XMP packet

/// What comes before the base64 of the binary property list in the packet.
pub const XMP_PREFIX: &'static str = "<?xpacket begin=\"\u{feff}\" id=\"W5M0MpCehiHzreSzNTczkc9d\"?>\n<x:xmpmeta xmlns:x=\"adobe:ns:meta/\">\n<rdf:RDF xmlns:rdf=\"http://www.w3.org/1999/02/22-rdf-syntax-ns#\">\n<rdf:Description rdf:about=\"\" xmlns:apple_desktop=\"http://ns.apple.com/namespace/1.0/\" apple_desktop:h24=\"";

/// What comes after the base64 of the binary property list in the packet.
pub const XMP_SUFFIX: &'static str = "\"/>\n</rdf:RDF>\n</x:xmpmeta>\n<?xpacket end=\"w\"?>";

/// The character of the standard base64 alphabet for a six-bit value.
pub open spec fn base64_digit(v: int) -> u8 {
    if v < 26 {
        (65 + v) as u8
    } else if v < 52 {
        (97 + v - 26) as u8
    } else if v < 62 {
        (48 + v - 52) as u8
    } else if v == 62 {
        43u8
    } else {
        47u8
    }
}

/// The padding character `=`.
pub open spec fn base64_pad() -> u8 {
    61u8
}

/// Standard base64 with `=` padding (RFC 4648, section 4): each group of
/// three bytes becomes four characters, and a last group of one or two bytes
/// is padded to four characters.
pub open spec fn spec_base64_standard(s: Seq<u8>) -> Seq<u8>
    decreases s.len(),
{
    if s.len() == 0 {
        Seq::<u8>::empty()
    } else if s.len() == 1 {
        let a = s[0] as int;
        seq![base64_digit(a / 4), base64_digit((a % 4) * 16), base64_pad(), base64_pad()]
    } else if s.len() == 2 {
        let a = s[0] as int;
        let b = s[1] as int;
        seq![
            base64_digit(a / 4),
            base64_digit((a % 4) * 16 + b / 16),
            base64_digit((b % 16) * 4),
            base64_pad(),
        ]
    } else {
        let a = s[0] as int;
        let b = s[1] as int;
        let c = s[2] as int;
        seq![
            base64_digit(a / 4),
            base64_digit((a % 4) * 16 + b / 16),
            base64_digit((b % 16) * 4 + c / 64),
            base64_digit(c % 64),
        ] + spec_base64_standard(s.skip(3))
    }
}

/// The length of the base64 of `n` bytes.
pub open spec fn base64_len(n: int) -> int {
    4 * ((n + 2) / 3)
}

/// Calls base64's `STANDARD.encode`, the standard alphabet with padding, and
/// returns the bytes of the text. The contract claims that the text is the
/// RFC 4648 encoding stated by `spec_base64_standard`; the crate panics when
/// the encoded length overflows `usize`, which `requires` excludes.
#[verifier::external_body]
fn encode_base64(bytes: &[u8]) -> (encoded: Vec<u8>)
    requires
        base64_len(bytes@.len() as int) <= usize::MAX,
    ensures
        encoded@ == spec_base64_standard(bytes@),
{
    base64::engine::general_purpose::STANDARD.encode(bytes).into_bytes()
}

/// Wraps a binary property list in the XMP packet that carries the
/// `apple_desktop:h24` tag: the prefix, the base64 of the list, the suffix.
pub fn xmp_packet(binary_plist: &[u8]) -> (packet: Vec<u8>)
    requires
        XMP_PREFIX.spec_bytes().len() + base64_len(binary_plist@.len() as int)
            + XMP_SUFFIX.spec_bytes().len() <= usize::MAX,
    ensures
        packet@ == XMP_PREFIX.spec_bytes() + spec_base64_standard(binary_plist@)
            + XMP_SUFFIX.spec_bytes(),
{
    let encoded = encode_base64(binary_plist);
    let prefix = XMP_PREFIX.as_bytes();
    let suffix = XMP_SUFFIX.as_bytes();
    let mut packet: Vec<u8> = Vec::new();
    packet.extend_from_slice(prefix);
    packet.extend_from_slice(encoded.as_slice());
    packet.extend_from_slice(suffix);
    assert(packet@ =~= XMP_PREFIX.spec_bytes() + spec_base64_standard(binary_plist@)
        + XMP_SUFFIX.spec_bytes());
    packet
}

} // verus!
