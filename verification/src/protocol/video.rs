use vstd::prelude::*;

use super::extended_command::chars_of;
use crate::device::{contains_chars, occurs_at};

verus! {

/// How the audio sink of a Bluetooth device writes the device's address
/// `mac`: every `:` becomes `_`.
pub open spec fn sink_marker(mac: Seq<char>) -> Seq<char> {
    mac.map_values(|c: char| if c == ':' { '_' } else { c })
}

/// An audio device of that name is the sink of the Bluetooth device `mac`:
/// it has a name, and the name holds the address as a sink writes it.
pub open spec fn is_sink_of(name: Option<String>, mac: Seq<char>) -> bool {
    match name {
        Some(n) => exists|i: int| occurs_at(n@, sink_marker(mac), i),
        None => false,
    }
}

/// The first of the audio devices, given by their names, that is the sink
/// of the Bluetooth device `mac`, if any.
pub fn find_audio_sink(names: &[Option<String>], mac: &str) -> (r: Option<usize>)
    ensures
        match r {
            Some(i) => {
                &&& i < names@.len()
                &&& is_sink_of(names@[i as int], mac@)
                &&& forall|j: int| 0 <= j < i ==> !is_sink_of(#[trigger] names@[j], mac@)
            },
            None => forall|j: int| 0 <= j < names@.len() ==> !is_sink_of(#[trigger] names@[j], mac@),
        },
{
    let mac_chars = chars_of(mac);
    let mut marker: Vec<char> = Vec::new();
    let mut k: usize = 0;
    while k < mac_chars.len()
        invariant
            mac_chars@ == mac@,
            k <= mac_chars@.len(),
            marker@ == sink_marker(mac@).take(k as int),
        decreases mac_chars@.len() - k,
    {
        let c = mac_chars[k];
        marker.push(if c == ':' { '_' } else { c });
        k = k + 1;
        assert(marker@ =~= sink_marker(mac@).take(k as int));
    }
    assert(marker@ =~= sink_marker(mac@));
    let n = names.len();
    let mut i: usize = 0;
    while i < n
        invariant
            n == names@.len(),
            i <= n,
            marker@ == sink_marker(mac@),
            forall|j: int| 0 <= j < i ==> !is_sink_of(#[trigger] names@[j], mac@),
        decreases n - i,
    {
        match &names[i] {
            Some(name) => {
                let chars = chars_of(name.as_str());
                if contains_chars(&chars, &marker) {
                    return Some(i);
                }
            },
            None => {},
        }
        i = i + 1;
    }
    None
}

/// Drops the fourth byte of every pixel of a 16x16 frame rendered four
/// bytes per pixel (red, green, blue, unused): three bytes per pixel remain.
pub fn rgbx_to_rgb(buffer: &[u8; 1024]) -> (rgb: [u8; 768])
    ensures
        forall|i: int, k: int| 0 <= i < 256 && 0 <= k < 3 ==> #[trigger] rgb@[i * 3 + k] == buffer@[i * 4 + k],
{
    let mut rgb = [0u8; 768];
    let mut i: usize = 0;
    while i < 256
        invariant
            i <= 256,
            forall|j: int, k: int| 0 <= j < i && 0 <= k < 3 ==> #[trigger] rgb@[j * 3 + k] == buffer@[j * 4 + k],
        decreases 256 - i,
    {
        rgb[i * 3] = buffer[i * 4];
        rgb[i * 3 + 1] = buffer[i * 4 + 1];
        rgb[i * 3 + 2] = buffer[i * 4 + 2];
        i = i + 1;
    }
    rgb
}

} // verus!
