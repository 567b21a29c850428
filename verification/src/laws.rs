//! What holds of the metadata for every manifest, stated over the
//! specifications that the builders' contracts use.
use vstd::prelude::*;

use crate::img::{
    accepted, preset_name, primary_count, row_count, AcceptedFormat, ImageFormat, Preset,
};
use crate::input::Input;
use crate::text::{
    all_digits, digits_value, lemma_split_colon_nonempty, spec_parse_u32, split_colon, without_plus,
};
use crate::metadata::{
    spec_day_seconds, spec_solar_plist, spec_time_plist, solar_scan, time_scan, SolarEntry,
    TimeEntry, base64_digit, base64_len, spec_base64_standard,
};

verus! {

/// How many entries stand for the light appearance.
pub open spec fn light_count(inputs: Seq<Input>) -> nat
    decreases inputs.len(),
{
    if inputs.len() == 0 {
        0
    } else {
        light_count(inputs.drop_last()) + if inputs.last().spec_is_for_light() {
            1nat
        } else {
            0nat
        }
    }
}

/// How many entries stand for the dark appearance.
pub open spec fn dark_count(inputs: Seq<Input>) -> nat
    decreases inputs.len(),
{
    if inputs.len() == 0 {
        0
    } else {
        dark_count(inputs.drop_last()) + if inputs.last().spec_is_for_dark() {
            1nat
        } else {
            0nat
        }
    }
}

/// The seconds after midnight of a time entry with a valid time; `None` for
/// a solar entry or an invalid time.
pub open spec fn input_day_seconds(input: Input) -> Option<u32> {
    match input {
        Input::Time(t) => spec_day_seconds(t.time@),
        Input::Solar(_) => None,
    }
}

/// The `ti` entry that the entry at `index` gives.
pub open spec fn expected_time_entry(input: Input, index: int) -> TimeEntry {
    TimeEntry { index: index as u64, seconds: input_day_seconds(input).unwrap() }
}

/// The `si` entry that the entry at `index` gives.
pub open spec fn expected_solar_entry(input: Input, index: int) -> SolarEntry {
    match input {
        Input::Solar(s) => SolarEntry {
            index: index as u64,
            altitude_bits: s.altitude_bits,
            azimuth_bits: s.azimuth_bits,
        },
        Input::Time(_) => SolarEntry { index: index as u64, altitude_bits: 0, azimuth_bits: 0 },
    }
}

/// At most one light and one dark image, and a light one exactly when a dark one.
pub open spec fn appearance_ok(inputs: Seq<Input>) -> bool {
    &&& light_count(inputs) <= 1
    &&& dark_count(inputs) <= 1
    &&& (light_count(inputs) == 1 <==> dark_count(inputs) == 1)
}

/// Every entry is a time entry with a valid `HH:MM:SS` time, and the
/// appearance is named by one light and one dark image or by none.
pub open spec fn time_manifest_ok(inputs: Seq<Input>) -> bool {
    &&& forall|i: int| 0 <= i < inputs.len() ==> #[trigger] input_day_seconds(inputs[i]) is Some
    &&& appearance_ok(inputs)
}

/// Every entry is a solar entry, and the appearance is named by one light
/// and one dark image or by none.
pub open spec fn solar_manifest_ok(inputs: Seq<Input>) -> bool {
    &&& forall|i: int| 0 <= i < inputs.len() ==> #[trigger] inputs[i] is Solar
    &&& appearance_ok(inputs)
}

proof fn lemma_counts_step(inputs: Seq<Input>, n: int)
    requires
        0 <= n < inputs.len(),
    ensures
        inputs.take(n + 1).drop_last() == inputs.take(n),
        light_count(inputs.take(n + 1)) == light_count(inputs.take(n)) + if inputs[n].spec_is_for_light() {
            1nat
        } else {
            0nat
        },
        dark_count(inputs.take(n + 1)) == dark_count(inputs.take(n)) + if inputs[n].spec_is_for_dark() {
            1nat
        } else {
            0nat
        },
{
    assert(inputs.take(n + 1).drop_last() =~= inputs.take(n));
    assert(inputs.take(n + 1).last() == inputs[n]);
}

proof fn lemma_time_scan(inputs: Seq<Input>, n: nat)
    requires
        n <= inputs.len(),
        inputs.len() <= usize::MAX,
    ensures
        time_scan(inputs, n) is Ok <==> (forall|i: int| 0 <= i < n ==> #[trigger] input_day_seconds(inputs[i]) is Some)
            && light_count(inputs.take(n as int)) <= 1 && dark_count(inputs.take(n as int)) <= 1,
        time_scan(inputs, n) matches Ok((entries, light, dark)) ==> {
            &&& entries.len() == n
            &&& forall|i: int| 0 <= i < n ==> #[trigger] entries[i] == expected_time_entry(inputs[i], i)
            &&& (light is Some <==> light_count(inputs.take(n as int)) == 1)
            &&& (dark is Some <==> dark_count(inputs.take(n as int)) == 1)
            &&& (light matches Some(k) ==> k < n && inputs[k as int].spec_is_for_light())
            &&& (dark matches Some(k) ==> k < n && inputs[k as int].spec_is_for_dark())
        },
    decreases n,
{
    if n == 0 {
        assert(inputs.take(0) =~= Seq::<Input>::empty());
    } else {
        let m = (n - 1) as nat;
        lemma_time_scan(inputs, m);
        lemma_counts_step(inputs, m as int);
        let input = inputs[m as int];
        if let Ok((entries, light, dark)) = time_scan(inputs, m) {
            if let Ok((entries2, light2, dark2)) = time_scan(inputs, n) {
                assert forall|i: int| 0 <= i < n implies #[trigger] entries2[i] == expected_time_entry(inputs[i], i) by {
                    if i < m {
                        assert(entries2[i] == entries[i]);
                    }
                }
            }
            if !(time_scan(inputs, n) is Ok) {
                if input_day_seconds(input) is Some {
                    assert(light_count(inputs.take(n as int)) > 1 || dark_count(inputs.take(n as int)) > 1);
                }
            }
        } else {
            if !(forall|i: int| 0 <= i < m ==> #[trigger] input_day_seconds(inputs[i]) is Some) {
                let k = choose|k: int| 0 <= k < m && !(#[trigger] input_day_seconds(inputs[k]) is Some);
                assert(!(input_day_seconds(inputs[k]) is Some));
            }
        }
    }
}

proof fn lemma_solar_scan(inputs: Seq<Input>, n: nat)
    requires
        n <= inputs.len(),
        inputs.len() <= usize::MAX,
    ensures
        solar_scan(inputs, n) is Ok <==> (forall|i: int| 0 <= i < n ==> #[trigger] inputs[i] is Solar)
            && light_count(inputs.take(n as int)) <= 1 && dark_count(inputs.take(n as int)) <= 1,
        solar_scan(inputs, n) matches Ok((entries, light, dark)) ==> {
            &&& entries.len() == n
            &&& forall|i: int| 0 <= i < n ==> #[trigger] entries[i] == expected_solar_entry(inputs[i], i)
            &&& (light is Some <==> light_count(inputs.take(n as int)) == 1)
            &&& (dark is Some <==> dark_count(inputs.take(n as int)) == 1)
            &&& (light matches Some(k) ==> k < n && inputs[k as int].spec_is_for_light())
            &&& (dark matches Some(k) ==> k < n && inputs[k as int].spec_is_for_dark())
        },
    decreases n,
{
    if n == 0 {
        assert(inputs.take(0) =~= Seq::<Input>::empty());
    } else {
        let m = (n - 1) as nat;
        lemma_solar_scan(inputs, m);
        lemma_counts_step(inputs, m as int);
        let input = inputs[m as int];
        if let Ok((entries, light, dark)) = solar_scan(inputs, m) {
            if let Ok((entries2, light2, dark2)) = solar_scan(inputs, n) {
                assert forall|i: int| 0 <= i < n implies #[trigger] entries2[i] == expected_solar_entry(inputs[i], i) by {
                    if i < m {
                        assert(entries2[i] == entries[i]);
                    }
                }
            }
            if !(solar_scan(inputs, n) is Ok) {
                if input is Solar {
                    assert(light_count(inputs.take(n as int)) > 1 || dark_count(inputs.take(n as int)) > 1);
                }
            }
        } else {
            if !(forall|i: int| 0 <= i < m ==> #[trigger] inputs[i] is Solar) {
                let k = choose|k: int| 0 <= k < m && !(#[trigger] inputs[k] is Solar);
                assert(!(inputs[k] is Solar));
            }
        }
    }
}

/// Time metadata exists exactly for manifests of time entries with valid
/// times that name one light and one dark image or neither; it then has one
/// `ti` entry per image, in manifest order, whose `t` value is the time's
/// seconds after midnight over a day (less than one), and its `ap` entry
/// names the one light and the one dark image when there are such images.
pub proof fn law_time_metadata(inputs: Seq<Input>)
    requires
        inputs.len() <= usize::MAX,
    ensures
        spec_time_plist(inputs) is Ok <==> time_manifest_ok(inputs),
        spec_time_plist(inputs) matches Ok((entries, appearance)) ==> {
            &&& entries.len() == inputs.len()
            &&& forall|i: int| 0 <= i < inputs.len() ==> #[trigger] entries[i] == expected_time_entry(inputs[i], i)
            &&& forall|i: int| 0 <= i < inputs.len() ==> #[trigger] entries[i].seconds < 86400
            &&& appearance matches Some(a) ==> {
                &&& light_count(inputs) == 1 && a.light < inputs.len() && inputs[a.light as int].spec_is_for_light()
                &&& dark_count(inputs) == 1 && a.dark < inputs.len() && inputs[a.dark as int].spec_is_for_dark()
            }
            &&& appearance is None ==> light_count(inputs) == 0 && dark_count(inputs) == 0
        },
{
    lemma_time_scan(inputs, inputs.len());
    assert(inputs.take(inputs.len() as int) =~= inputs);
    if let Ok((entries, appearance)) = spec_time_plist(inputs) {
        assert forall|i: int| 0 <= i < inputs.len() implies #[trigger] entries[i].seconds < 86400 by {
            assert(entries[i] == expected_time_entry(inputs[i], i));
            assert(input_day_seconds(inputs[i]) is Some);
            law_day_seconds_below_a_day(inputs[i]->Time_0.time@);
        }
    }
}

/// Solar metadata exists exactly for manifests of solar entries that name
/// one light and one dark image or neither; it then has one `si` entry per
/// image, in manifest order, with the image's altitude and azimuth, and its
/// `ap` entry names the one light and the one dark image when there are such.
pub proof fn law_solar_metadata(inputs: Seq<Input>)
    requires
        inputs.len() <= usize::MAX,
    ensures
        spec_solar_plist(inputs) is Ok <==> solar_manifest_ok(inputs),
        spec_solar_plist(inputs) matches Ok((entries, appearance)) ==> {
            &&& entries.len() == inputs.len()
            &&& forall|i: int| 0 <= i < inputs.len() ==> #[trigger] entries[i] == expected_solar_entry(inputs[i], i)
            &&& appearance matches Some(a) ==> {
                &&& light_count(inputs) == 1 && a.light < inputs.len() && inputs[a.light as int].spec_is_for_light()
                &&& dark_count(inputs) == 1 && a.dark < inputs.len() && inputs[a.dark as int].spec_is_for_dark()
            }
            &&& appearance is None ==> light_count(inputs) == 0 && dark_count(inputs) == 0
        },
{
    lemma_solar_scan(inputs, inputs.len());
    assert(inputs.take(inputs.len() as int) =~= inputs);
}

/// A valid time of day is less than a day after midnight.
pub proof fn law_day_seconds_below_a_day(t: Seq<char>)
    ensures
        spec_day_seconds(t) matches Some(s) ==> s < 86400,
{
}

/// A number below one hundred written with two decimal digits.
pub open spec fn two_digits(v: nat) -> Seq<char> {
    seq![((v / 10) + 48) as char, ((v % 10) + 48) as char]
}

/// A time of day written `HH:MM:SS`.
pub open spec fn clock_text(h: nat, m: nat, s: nat) -> Seq<char> {
    two_digits(h) + seq![':'] + two_digits(m) + seq![':'] + two_digits(s)
}

proof fn lemma_split_without_colon(a: Seq<char>)
    requires
        forall|i: int| 0 <= i < a.len() ==> a[i] != ':',
    ensures
        split_colon(a) == seq![a],
    decreases a.len(),
{
    if a.len() > 0 {
        lemma_split_without_colon(a.drop_last());
        assert(a.drop_last().push(a.last()) =~= a);
        assert(split_colon(a) =~= seq![a]);
    } else {
        assert(a =~= Seq::<char>::empty());
    }
}

proof fn lemma_split_at_colon(a: Seq<char>, b: Seq<char>)
    ensures
        split_colon(a + seq![':'] + b) == split_colon(a) + split_colon(b),
    decreases b.len(),
{
    let x = a + seq![':'] + b;
    if b.len() == 0 {
        assert(x.drop_last() =~= a);
        assert(x.last() == ':');
        assert(split_colon(b) =~= seq![Seq::<char>::empty()]);
        assert(split_colon(x) =~= split_colon(a) + split_colon(b));
    } else {
        lemma_split_at_colon(a, b.drop_last());
        lemma_split_colon_nonempty(b.drop_last());
        assert(x.drop_last() =~= a + seq![':'] + b.drop_last());
        assert(x.last() == b.last());
        let p = split_colon(a);
        let q = split_colon(b.drop_last());
        if b.last() == ':' {
            assert(split_colon(x) =~= p + q.push(Seq::<char>::empty()));
        } else {
            assert(split_colon(x) =~= p + q.update(q.len() - 1, q.last().push(b.last())));
        }
    }
}

proof fn lemma_two_digits_read(v: nat)
    requires
        v < 100,
    ensures
        spec_parse_u32(two_digits(v)) == Some(v as u32),
        forall|i: int| 0 <= i < two_digits(v).len() ==> two_digits(v)[i] != ':',
{
    let d = two_digits(v);
    assert(d[0] as int == (v / 10) + 48);
    assert(d[1] as int == (v % 10) + 48);
    assert(without_plus(d) == d);
    assert(all_digits(d));
    assert(d.drop_last() =~= seq![d[0]]);
    assert(seq![d[0]].drop_last() =~= Seq::<char>::empty());
    assert(digits_value(Seq::<char>::empty()) == 0);
    assert(seq![d[0]].last() == d[0]);
    assert(digits_value(seq![d[0]]) == v / 10);
    assert(digits_value(d) == (v / 10) * 10 + v % 10);
}

/// A time written `HH:MM:SS` with an hour below 24 and a minute and second
/// below 60 reads back as its seconds after midnight.
pub proof fn law_clock_text_reads_back(h: nat, m: nat, s: nat)
    requires
        h < 24,
        m < 60,
        s < 60,
    ensures
        spec_day_seconds(clock_text(h, m, s)) == Some((h * 3600 + m * 60 + s) as u32),
{
    lemma_two_digits_read(h);
    lemma_two_digits_read(m);
    lemma_two_digits_read(s);
    lemma_split_without_colon(two_digits(h));
    lemma_split_without_colon(two_digits(m));
    lemma_split_without_colon(two_digits(s));
    lemma_split_at_colon(two_digits(h), two_digits(m));
    let hm = two_digits(h) + seq![':'] + two_digits(m);
    lemma_split_at_colon(hm, two_digits(s));
    assert(split_colon(clock_text(h, m, s)) =~= seq![two_digits(h), two_digits(m), two_digits(s)]);
}

/// A character of base64 text: a letter, a digit, `+`, `/` or the padding `=`.
pub open spec fn is_base64_char(b: u8) -> bool {
    (65 <= b && b <= 90) || (97 <= b && b <= 122) || (48 <= b && b <= 57) || b == 43 || b == 47
        || b == 61
}

proof fn lemma_base64_digit(v: int)
    requires
        0 <= v < 64,
    ensures
        is_base64_char(base64_digit(v)),
{
}

/// The base64 of `n` bytes is `4 * ceil(n / 3)` characters of the base64
/// alphabet and padding; in particular it holds no `"`, so the XMP attribute
/// that carries it ends at the first `"` after it starts.
pub proof fn law_base64_text(s: Seq<u8>)
    ensures
        spec_base64_standard(s).len() == base64_len(s.len() as int),
        forall|i: int|
            0 <= i < spec_base64_standard(s).len() ==> is_base64_char(
                #[trigger] spec_base64_standard(s)[i],
            ),
        forall|i: int|
            0 <= i < spec_base64_standard(s).len() ==> #[trigger] spec_base64_standard(s)[i] != 34,
    decreases s.len(),
{
    let out = spec_base64_standard(s);
    if s.len() == 0 {
    } else if s.len() <= 2 {
        let a = s[0] as int;
        lemma_base64_digit(a / 4);
        if s.len() == 1 {
            lemma_base64_digit((a % 4) * 16);
        } else {
            let b = s[1] as int;
            lemma_base64_digit((a % 4) * 16 + b / 16);
            lemma_base64_digit((b % 16) * 4);
        }
    } else {
        let a = s[0] as int;
        let b = s[1] as int;
        let c = s[2] as int;
        lemma_base64_digit(a / 4);
        lemma_base64_digit((a % 4) * 16 + b / 16);
        lemma_base64_digit((b % 16) * 4 + c / 64);
        lemma_base64_digit(c % 64);
        law_base64_text(s.skip(3));
        let rest = spec_base64_standard(s.skip(3));
        assert forall|i: int| 0 <= i < out.len() implies is_base64_char(#[trigger] out[i]) by {
            if i >= 4 {
                assert(out[i] == rest[i - 4]);
            }
        }
    }
}

// ---------------------------------------------------------------------------
// Light and dark images

/// An entry stands for the light (dark) appearance exactly when its
/// `isForLight` (`isForDark`) flag is set, whatever else it says, in
/// particular whether it is the primary image.
pub proof fn law_appearance_follows_the_flags(x: Input)
    ensures
        x.spec_is_for_light() == x.spec_common().is_for_light,
        x.spec_is_for_dark() == x.spec_common().is_for_dark,
        x.spec_is_primary() == x.spec_common().is_primary,
{
}

proof fn lemma_no_flags_no_count(inputs: Seq<Input>)
    requires
        forall|i: int| 0 <= i < inputs.len() ==> !(#[trigger] inputs[i]).spec_common().is_for_light,
        forall|i: int| 0 <= i < inputs.len() ==> !(#[trigger] inputs[i]).spec_common().is_for_dark,
    ensures
        light_count(inputs) == 0,
        dark_count(inputs) == 0,
    decreases inputs.len(),
{
    if inputs.len() > 0 {
        let rest = inputs.drop_last();
        assert forall|i: int| 0 <= i < rest.len() implies !(#[trigger] rest[i]).spec_common().is_for_light
            && !rest[i].spec_common().is_for_dark by {
            assert(rest[i] == inputs[i]);
        }
        lemma_no_flags_no_count(rest);
        assert(inputs.last() == inputs[inputs.len() - 1]);
    }
}

/// A manifest of time entries with valid times and no `isForLight` or
/// `isForDark` flag has time metadata without an `ap` entry, whichever entry
/// is primary.
pub proof fn law_unflagged_time_manifest_has_no_appearance(inputs: Seq<Input>)
    requires
        inputs.len() <= usize::MAX,
        forall|i: int| 0 <= i < inputs.len() ==> #[trigger] input_day_seconds(inputs[i]) is Some,
        forall|i: int| 0 <= i < inputs.len() ==> !(#[trigger] inputs[i]).spec_common().is_for_light,
        forall|i: int| 0 <= i < inputs.len() ==> !(#[trigger] inputs[i]).spec_common().is_for_dark,
    ensures
        spec_time_plist(inputs) matches Ok((entries, appearance)) && appearance is None
            && entries.len() == inputs.len(),
{
    lemma_no_flags_no_count(inputs);
    law_time_metadata(inputs);
}

// ---------------------------------------------------------------------------
// The primary image

/// The number of primary entries is the length of the manifest filtered to
/// the entries whose `isPrimary` flag is set, whatever their order; one more
/// primary entry at the end adds one, another entry adds nothing.
pub proof fn law_primary_count_counts_flags(inputs: Seq<Input>, x: Input)
    ensures
        primary_count(inputs) == inputs.filter(|y: Input| y.spec_common().is_primary).len(),
        primary_count(inputs.push(x)) == primary_count(inputs) + if x.spec_common().is_primary {
            1nat
        } else {
            0nat
        },
    decreases inputs.len(),
{
    reveal(Seq::filter);
    assert(inputs.push(x).drop_last() =~= inputs);
    if inputs.len() > 0 {
        law_primary_count_counts_flags(inputs.drop_last(), inputs.last());
    }
}

/// No entry of `s` has its `isPrimary` flag set.
pub open spec fn no_primary(s: Seq<Input>) -> bool {
    forall|j: int| 0 <= j < s.len() ==> !(#[trigger] s[j]).spec_common().is_primary
}

/// The entry at `i` is the one entry of `s` whose `isPrimary` flag is set.
pub open spec fn only_primary(s: Seq<Input>, i: int) -> bool {
    &&& 0 <= i < s.len()
    &&& s[i].spec_common().is_primary
    &&& forall|j: int| 0 <= j < s.len() && j != i ==> !(#[trigger] s[j]).spec_common().is_primary
}

proof fn lemma_primary_count_zero(s: Seq<Input>)
    ensures
        primary_count(s) == 0 <==> no_primary(s),
    decreases s.len(),
{
    if s.len() > 0 {
        let r = s.drop_last();
        lemma_primary_count_zero(r);
        assert forall|j: int| 0 <= j < r.len() implies r[j] == s[j] by {}
        if no_primary(s) {
            assert(no_primary(r));
            assert(!s[s.len() - 1].spec_common().is_primary);
        }
    }
}

proof fn lemma_primary_count_one(s: Seq<Input>)
    ensures
        primary_count(s) == 1 <==> exists|i: int| #[trigger] only_primary(s, i),
    decreases s.len(),
{
    if s.len() > 0 {
        let r = s.drop_last();
        let n = s.len() - 1;
        lemma_primary_count_one(r);
        lemma_primary_count_zero(r);
        assert forall|j: int| 0 <= j < r.len() implies r[j] == s[j] by {}
        assert(s.last() == s[n]);
        if s[n].spec_common().is_primary {
            if primary_count(s) == 1 {
                assert(no_primary(r));
                assert(only_primary(s, n));
            }
            if exists|i: int| #[trigger] only_primary(s, i) {
                let i = choose|i: int| #[trigger] only_primary(s, i);
                assert(i == n);
                assert(no_primary(r));
            }
        } else {
            if primary_count(s) == 1 {
                let i = choose|i: int| #[trigger] only_primary(r, i);
                assert(only_primary(s, i));
            }
            if exists|i: int| #[trigger] only_primary(s, i) {
                let i = choose|i: int| #[trigger] only_primary(s, i);
                assert(i != n);
                assert(only_primary(r, i));
            }
        }
    } else {
        assert(!(exists|i: int| #[trigger] only_primary(s, i)));
    }
}

/// A manifest passes the check before encoding exactly when one of its
/// entries has its `isPrimary` flag set and no other has, wherever in the
/// manifest that entry stands.
pub proof fn law_exactly_one_primary(inputs: Seq<Input>)
    ensures
        primary_count(inputs) == 1 <==> exists|i: int| #[trigger] only_primary(inputs, i),
        primary_count(inputs) == 0 <==> no_primary(inputs),
{
    lemma_primary_count_one(inputs);
    lemma_primary_count_zero(inputs);
}

// ---------------------------------------------------------------------------
// Presets

/// x265's presets from fastest to slowest, as its documentation lists them.
pub open spec fn x265_presets() -> Seq<Seq<char>> {
    seq![
        "ultrafast"@,
        "superfast"@,
        "veryfast"@,
        "faster"@,
        "fast"@,
        "medium"@,
        "slow"@,
        "slower"@,
        "veryslow"@,
        "placebo"@,
    ]
}

/// The place of a preset among the presets, fastest first.
pub open spec fn preset_rank(p: Preset) -> int {
    match p {
        Preset::Ultrafast => 0,
        Preset::Superfast => 1,
        Preset::Veryfast => 2,
        Preset::Faster => 3,
        Preset::Fast => 4,
        Preset::Medium => 5,
        Preset::Slow => 6,
        Preset::Slower => 7,
        Preset::Veryslow => 8,
        Preset::Placebo => 9,
    }
}

/// Every preset is known to the encoder by the x265 name of the same place in
/// the order from fastest to slowest; the default, `Slow`, is `slow`.
pub proof fn law_preset_names_follow_x265(p: Preset)
    ensures
        preset_name(p) == x265_presets()[preset_rank(p)],
        preset_name(Preset::Slow) == "slow"@,
{
}

// ---------------------------------------------------------------------------
// Rows of pixels

/// The rows copied are as many as both buffers hold whole: each buffer holds
/// that many rows, and one of them does not hold one more.
pub proof fn law_row_count_is_maximal(ls: int, ss: int, ld: int, ds: int)
    requires
        ls >= 0,
        ld >= 0,
        ss > 0,
        ds > 0,
    ensures
        row_count(ls, ss, ld, ds) >= 0,
        row_count(ls, ss, ld, ds) * ss <= ls,
        row_count(ls, ss, ld, ds) * ds <= ld,
        (row_count(ls, ss, ld, ds) + 1) * ss > ls || (row_count(ls, ss, ld, ds) + 1) * ds > ld,
{
    let r = row_count(ls, ss, ld, ds);
    let a = ls / ss;
    let b = ld / ds;
    vstd::arithmetic::div_mod::lemma_fundamental_div_mod(ls, ss);
    vstd::arithmetic::div_mod::lemma_fundamental_div_mod(ld, ds);
    assert(0 <= a) by (nonlinear_arith)
        requires
            ls >= 0,
            ss > 0,
            a == ls / ss,
    ;
    assert(0 <= b) by (nonlinear_arith)
        requires
            ld >= 0,
            ds > 0,
            b == ld / ds,
    ;
    assert(r * ss <= a * ss) by (nonlinear_arith)
        requires
            r <= a,
            ss > 0,
    ;
    assert(r * ds <= b * ds) by (nonlinear_arith)
        requires
            r <= b,
            ds > 0,
    ;
    assert(a * ss == ss * a && b * ds == ds * b) by (nonlinear_arith);
    assert((a + 1) * ss == a * ss + ss && (b + 1) * ds == b * ds + ds) by (nonlinear_arith);
}

/// An image `width` pixels wide and `height` rows high, three bytes a pixel,
/// copied to a plane of `height` rows at least `3 * width` bytes apart, has
/// all of its rows copied.
pub proof fn law_every_row_of_an_image_is_copied(width: int, height: int, stride: int)
    requires
        width > 0,
        height >= 0,
        stride >= 3 * width,
    ensures
        row_count(3 * width * height, 3 * width, stride * height, stride) == height,
{
    vstd::arithmetic::div_mod::lemma_div_multiples_vanish(height, 3 * width);
    vstd::arithmetic::div_mod::lemma_div_multiples_vanish(height, stride);
}

// ---------------------------------------------------------------------------
// Decoding formats

/// The image format that an accepted format decodes.
pub open spec fn decoder_format(a: AcceptedFormat) -> ImageFormat {
    match a {
        AcceptedFormat::Jpeg => ImageFormat::Jpeg,
        AcceptedFormat::Png => ImageFormat::Png,
    }
}

/// Exactly JPEG and PNG files are accepted, and each is decoded in the format
/// that was found for it.
pub proof fn law_accepted_formats_decode_as_found(f: ImageFormat)
    ensures
        accepted(f) is Some <==> (f == ImageFormat::Jpeg || f == ImageFormat::Png),
        accepted(f) matches Some(a) ==> decoder_format(a) == f,
{
}

} // verus!
