//! Device enumeration entries: classification of input devices by name,
//! the listing order with its synthetic system-audio entry, and validation
//! of an operator's device choice.

use vstd::prelude::*;
use vstd::string::StrSliceExecFns;
use vstd::string::StringExecFns;

use crate::AudioStreamerError;

verus! {

/// The kind of an enumerated capture device.
#[derive(PartialEq, Eq, Structural, Clone, Copy, Debug)]
pub enum DeviceType {
    /// A physical input device such as a microphone.
    Physical,
    /// A virtual audio cable routing output back to an input.
    Virtual,
    /// The synthetic entry for OS-level system-audio capture.
    SystemAudio,
}

/// One entry of a device listing. Enumerated fresh on every listing call;
/// the index has no identity beyond the current device table.
#[derive(Debug)]
pub struct DeviceInfo {
    pub name: String,
    pub is_default: bool,
    pub index: usize,
    pub device_type: DeviceType,
}

/// `needle` occurs as a contiguous run of characters inside `hay`.
pub open spec fn char_seq_contains(hay: Seq<char>, needle: Seq<char>) -> bool {
    exists|i: int|
        0 <= i && i + needle.len() <= hay.len() && #[trigger] hay.subrange(i, i + needle.len())
            == needle
}

/// Compares `needle` against the characters of `hay` starting at `at`.
#[verifier::loop_isolation(false)]
fn match_at(hay: &str, needle: &str, at: usize, m: usize) -> (r: bool)
    requires
        m == needle@.len(),
        at + m <= hay@.len(),
        at + m <= usize::MAX,
    ensures
        r == (hay@.subrange(at as int, at as int + m as int) == needle@),
{
    let mut j: usize = 0;
    while j < m
        invariant
            0 <= j <= m,
            forall|jj: int| 0 <= jj < j ==> hay@[at + jj] == needle@[jj],
        decreases m - j,
    {
        if hay.get_char(at + j) != needle.get_char(j) {
            assert(hay@.subrange(at as int, at as int + m as int)[j as int] != needle@[j as int]);
            return false;
        }
        j = j + 1;
    }
    assert(hay@.subrange(at as int, at as int + m as int) =~= needle@);
    true
}

/// Substring search over characters.
#[verifier::loop_isolation(false)]
pub fn str_contains(hay: &str, needle: &str) -> (r: bool)
    ensures
        r == char_seq_contains(hay@, needle@),
{
    let n = hay.unicode_len();
    let m = needle.unicode_len();
    if m > n {
        return false;
    }
    if m == 0 {
        assert(hay@.subrange(0, 0 + needle@.len() as int) =~= needle@);
        return true;
    }
    let mut i: usize = 0;
    while i <= n - m
        invariant
            0 <= i <= n - m + 1,
            0 < m <= n,
            forall|ii: int|
                0 <= ii < i ==> #[trigger] hay@.subrange(ii, ii + needle@.len() as int)
                    != needle@,
        decreases n - m + 1 - i,
    {
        if match_at(hay, needle, i, m) {
            assert(char_seq_contains(hay@, needle@)) by {
                assert(hay@.subrange(i as int, i as int + needle@.len() as int) == needle@);
            }
            return true;
        }
        i = i + 1;
    }
    assert forall|ii: int| 0 <= ii && ii + needle@.len() <= hay@.len() implies #[trigger] hay@
        .subrange(ii, ii + needle@.len() as int) != needle@ by {
        assert(ii < i);
    }
    false
}

/// A device is a virtual audio cable when its name carries one of the
/// known virtual-device product names.
pub open spec fn is_virtual_name(name: Seq<char>) -> bool {
    ||| char_seq_contains(name, "BlackHole"@)
    ||| char_seq_contains(name, "Soundflower"@)
    ||| char_seq_contains(name, "VB-CABLE"@)
    ||| char_seq_contains(name, "CABLE Output"@)
    ||| char_seq_contains(name, "Virtual Audio Cable"@)
}

/// Tests a device name for the known virtual-device signatures.
pub fn is_virtual_device(name: &str) -> (r: bool)
    ensures
        r == is_virtual_name(name@),
{
    str_contains(name, "BlackHole") || str_contains(name, "Soundflower") || str_contains(
        name,
        "VB-CABLE",
    ) || str_contains(name, "CABLE Output") || str_contains(name, "Virtual Audio Cable")
}

/// Character-wise string equality.
#[verifier::loop_isolation(false)]
pub fn str_eq(a: &str, b: &str) -> (r: bool)
    ensures
        r == (a@ == b@),
{
    let n = a.unicode_len();
    if n != b.unicode_len() {
        return false;
    }
    let mut i: usize = 0;
    while i < n
        invariant
            0 <= i <= n,
            n == a@.len() == b@.len(),
            forall|j: int| 0 <= j < i ==> a@[j] == b@[j],
        decreases n - i,
    {
        if a.get_char(i) != b.get_char(i) {
            return false;
        }
        i = i + 1;
    }
    assert(a@ =~= b@);
    true
}

/// The listing entry for an enumerated device: its name, its position in
/// the listing, its classification by name, and whether it is the default
/// input device.
pub open spec fn listed_entry(
    info: DeviceInfo,
    name: Seq<char>,
    idx: int,
    dflt: Option<Seq<char>>,
) -> bool {
    &&& info.name@ == name
    &&& info.index as int == idx
    &&& info.device_type == (if is_virtual_name(name) {
        DeviceType::Virtual
    } else {
        DeviceType::Physical
    })
    &&& info.is_default == (dflt matches Some(d) && d == name)
}

/// Some enumerated name matches a known virtual-device signature.
pub open spec fn any_virtual_in(names: Seq<String>) -> bool {
    exists|j: int| 0 <= j < names.len() && is_virtual_name(names[j]@)
}

/// The placeholder entry's name, hinting how to obtain a loopback device
/// on platforms without system-audio capture.
pub open spec fn hint_name() -> Seq<char> {
    "System Audio (requires BlackHole/Soundflower installation)"@
}

/// Builds the device listing from the native enumeration's names.
///
/// With system-audio capture supported, its synthetic entry (under the
/// given name) is listed first at index 0 and the enumerated devices
/// follow at index + 1. Without it, enumerated devices start at index 0,
/// and when no name matches a virtual-device signature a hint placeholder
/// is appended. A device is the default exactly when its name equals the
/// default device's name.
#[verifier::loop_isolation(false)]
pub fn build_device_list(
    names: &Vec<String>,
    default_name: Option<&String>,
    system_audio_name: Option<String>,
) -> (out: Vec<DeviceInfo>)
    ensures
        ({
            let dflt = match default_name {
                Some(d) => Some(d@),
                None => None::<Seq<char>>,
            };
            let base: int = match system_audio_name {
                Some(_) => 1,
                None => 0,
            };
            &&& forall|k: int|
                0 <= k < names@.len() ==> listed_entry(
                    #[trigger] out@[base + k],
                    names@[k]@,
                    base + k,
                    dflt,
                )
            &&& (system_audio_name matches Some(n) ==> {
                &&& out@.len() == names@.len() + 1
                &&& out@[0].name@ == n@
                &&& out@[0].index == 0
                &&& out@[0].device_type == DeviceType::SystemAudio
                &&& !out@[0].is_default
            })
            &&& (system_audio_name is None && any_virtual_in(names@) ==> out@.len()
                == names@.len())
            &&& (system_audio_name is None && !any_virtual_in(names@) ==> {
                &&& out@.len() == names@.len() + 1
                &&& out@[names@.len() as int].name@ == hint_name()
                &&& out@[names@.len() as int].index as int == names@.len()
                &&& out@[names@.len() as int].device_type == DeviceType::Virtual
                &&& !out@[names@.len() as int].is_default
            })
        }),
{
    let ghost dflt = match default_name {
        Some(d) => Some(d@),
        None => None::<Seq<char>>,
    };
    let ghost synth = system_audio_name;
    let mut out: Vec<DeviceInfo> = Vec::new();
    let has_synth = system_audio_name.is_some();
    let offset: usize = if has_synth {
        1
    } else {
        0
    };
    match system_audio_name {
        Some(n) => {
            out.push(
                DeviceInfo {
                    name: n,
                    is_default: false,
                    index: 0,
                    device_type: DeviceType::SystemAudio,
                },
            );
        },
        None => {},
    }
    let mut any_virtual = false;
    let mut k: usize = 0;
    while k < names.len()
        invariant
            0 <= k <= names@.len(),
            out@.len() == offset + k,
            forall|j: int|
                0 <= j < k ==> listed_entry(
                    #[trigger] out@[offset + j],
                    names@[j]@,
                    offset + j,
                    dflt,
                ),
            any_virtual == exists|j: int| 0 <= j < k && is_virtual_name(names@[j]@),
            has_synth == (synth is Some),
            has_synth ==> (synth matches Some(n) && out@[0].name@ == n@ && out@[0].index == 0
                && out@[0].device_type == DeviceType::SystemAudio && !out@[0].is_default),
        decreases names@.len() - k,
    {
        let is_virt = is_virtual_device(names[k].as_str());
        if is_virt {
            any_virtual = true;
        }
        let dt = if is_virt {
            DeviceType::Virtual
        } else {
            DeviceType::Physical
        };
        let is_def = match default_name {
            Some(d) => str_eq(d.as_str(), names[k].as_str()),
            None => false,
        };
        let nm = names[k].as_str().to_owned();
        out.push(DeviceInfo { name: nm, is_default: is_def, index: k + offset, device_type: dt });
        k = k + 1;
    }
    if !has_synth && !any_virtual {
        let hint = String::from_str("System Audio (requires BlackHole/Soundflower installation)");
        out.push(
            DeviceInfo {
                name: hint,
                is_default: false,
                index: names.len(),
                device_type: DeviceType::Virtual,
            },
        );
    }
    out
}

/// The listing position the capture session starts on when the operator
/// skips the picker: the first default device, or the first entry.
#[verifier::loop_isolation(false)]
pub fn default_device_index(devices: &Vec<DeviceInfo>) -> (r: usize)
    ensures
        (exists|i: int| 0 <= i < devices@.len() && (#[trigger] devices@[i]).is_default) ==> {
            &&& r < devices@.len()
            &&& devices@[r as int].is_default
            &&& forall|j: int| 0 <= j < r ==> !(#[trigger] devices@[j]).is_default
        },
        !(exists|i: int| 0 <= i < devices@.len() && (#[trigger] devices@[i]).is_default) ==> r == 0,
{
    let mut i: usize = 0;
    while i < devices.len()
        invariant
            0 <= i <= devices@.len(),
            forall|j: int| 0 <= j < i ==> !(#[trigger] devices@[j]).is_default,
        decreases devices@.len() - i,
    {
        if devices[i].is_default {
            return i;
        }
        i = i + 1;
    }
    0
}

/// Validates the operator's one-based device choice against the listing
/// size and converts it to a zero-based index.
pub fn validate_device_choice(one_based: usize, device_count: usize) -> (r: Result<
    usize,
    AudioStreamerError,
>)
    ensures
        1 <= one_based <= device_count ==> r == Ok::<usize, AudioStreamerError>(
            (one_based - 1) as usize,
        ),
        !(1 <= one_based <= device_count) ==> (r matches Err(e) && e
            matches AudioStreamerError::DeviceError(_)),
{
    if one_based >= 1 && one_based <= device_count {
        Ok(one_based - 1)
    } else {
        Err(AudioStreamerError::DeviceError(String::from_str("Invalid device selection")))
    }
}

} // verus!
