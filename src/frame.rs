//! Decoding of captured 802.11 management frames, optionally prefixed by a
//! radiotap metadata header, and the walk over their tagged parameters.
use std::collections::HashMap;
use vstd::prelude::*;
use vstd::std_specs::hash::group_hash_axioms;

verus! {

broadcast use group_hash_axioms;

/// Frame-control byte of a beacon.
pub const BEACON: u8 = 0x80;

/// Frame-control byte of a probe request.
pub const PROBE_REQUEST: u8 = 0x40;

/// Tag number that carries the network name.
pub const SSID_TAG: u8 = 0x00;

/// Length of the fixed 802.11 management header.
pub const MANAGEMENT_HEADER_LEN: usize = 24;

/// Length of the fixed fields (timestamp, interval, capabilities) that
/// precede the tags of a beacon.
pub const BEACON_FIXED_FIELDS_LEN: usize = 12;

/// Why a captured buffer could not be decoded.
#[derive(Debug, Clone, Copy, PartialEq, Eq, Structural)]
pub enum DecodeError {
    /// The buffer ends before a header field that must be read.
    Truncated,
    /// A tagged parameter declares more bytes than the region holds.
    TagOverrun,
}

/// Little-endian 16-bit value stored at bytes `i` and `i + 1`.
pub open spec fn le_u16_at(b: Seq<u8>, i: int) -> int {
    b[i] as int + 256 * (b[i + 1] as int)
}

/// Where the 802.11 frame starts inside a captured buffer: after the
/// radiotap header when byte 0 is zero, at the very start otherwise.
/// `None` when the buffer is too short to hold the radiotap length field.
pub open spec fn spec_frame_start(b: Seq<u8>) -> Option<int> {
    if b.len() == 0 {
        None
    } else if b[0] != 0 {
        Some(0)
    } else if b.len() < 4 {
        None
    } else {
        Some(le_u16_at(b, 2))
    }
}

/// Offset of the tagged parameters inside the 802.11 frame whose first
/// byte is `packet_type`.
pub open spec fn spec_params_offset(packet_type: u8) -> int {
    if packet_type == BEACON {
        MANAGEMENT_HEADER_LEN + BEACON_FIXED_FIELDS_LEN
    } else {
        MANAGEMENT_HEADER_LEN as int
    }
}

/// The header fields of a management frame that the survey needs.
#[derive(Debug, Clone, Copy)]
pub struct FrameLayout {
    /// First byte of the 802.11 frame (frame type and subtype).
    pub packet_type: u8,
    /// Bytes 10 to 15 of the 802.11 frame.
    pub transmitter_mac_address: [u8; 6],
    /// Offset, in the captured buffer, where the tagged parameters begin.
    pub params_start: usize,
}

/// The layout of a captured buffer as `(packet type, transmitter, start of
/// the tagged parameters)`, or `None` when the buffer is too short for it.
pub open spec fn spec_layout(b: Seq<u8>) -> Option<(u8, Seq<u8>, int)> {
    match spec_frame_start(b) {
        None => None,
        Some(s) => {
            if s + MANAGEMENT_HEADER_LEN > b.len() {
                None
            } else if s + spec_params_offset(b[s]) > b.len() {
                None
            } else {
                Some((b[s], b.subrange(s + 10, s + 16), s + spec_params_offset(b[s])))
            }
        },
    }
}

/// Offset of the 802.11 frame inside `packet`.
pub fn ieee80211_frame_start(packet: &[u8]) -> (r: Option<usize>)
    ensures
        r matches Some(n) ==> spec_frame_start(packet@) == Some(n as int),
        r is None ==> spec_frame_start(packet@) is None,
        packet@.len() >= 4 && packet@[0] == 0 ==> r == Some(
            (packet@[2] as int + 256 * packet@[3] as int) as usize,
        ),
        packet@.len() > 0 && packet@[0] != 0 ==> r == Some(0usize),
{
    if packet.len() == 0 {
        None
    } else if packet[0] != 0 {
        Some(0)
    } else if packet.len() < 4 {
        None
    } else {
        Some(packet[2] as usize + 256 * (packet[3] as usize))
    }
}

/// Reads the packet type, the transmitter address and where the tagged
/// parameters begin; every offset is checked against the buffer's length.
pub fn decode_layout(packet: &[u8]) -> (r: Result<FrameLayout, DecodeError>)
    ensures
        match r {
            Ok(l) => spec_layout(packet@) == Some(
                (l.packet_type, l.transmitter_mac_address@, l.params_start as int),
            ),
            Err(e) => e == DecodeError::Truncated && spec_layout(packet@) is None,
        },
{
    let start = match ieee80211_frame_start(packet) {
        Some(s) => s,
        None => return Err(DecodeError::Truncated),
    };
    if start > packet.len() || packet.len() - start < MANAGEMENT_HEADER_LEN {
        return Err(DecodeError::Truncated);
    }
    let packet_type = packet[start];
    let offset = if packet_type == BEACON {
        MANAGEMENT_HEADER_LEN + BEACON_FIXED_FIELDS_LEN
    } else {
        MANAGEMENT_HEADER_LEN
    };
    if packet.len() - start < offset {
        return Err(DecodeError::Truncated);
    }
    let mac: [u8; 6] = [
        packet[start + 10],
        packet[start + 11],
        packet[start + 12],
        packet[start + 13],
        packet[start + 14],
        packet[start + 15],
    ];
    assert(mac@ =~= packet@.subrange(start + 10, start + 16));
    Ok(FrameLayout { packet_type, transmitter_mac_address: mac, params_start: start + offset })
}

/// Whether the tag walk that starts at `pos` steps exactly onto the end
/// of `d`: each tag is a number, a length byte, and that many value bytes.
pub open spec fn tlv_well_formed(d: Seq<u8>, pos: int) -> bool
    decreases d.len() - pos,
{
    if pos < 0 {
        false
    } else if pos >= d.len() {
        true
    } else if pos + 2 > d.len() || pos + 2 + d[pos + 1] > d.len() {
        false
    } else {
        tlv_well_formed(d, pos + 2 + d[pos + 1])
    }
}

/// The tags of `d` from `pos` on whose number is in `wanted`, added to
/// `acc`; a later tag with the same number replaces an earlier one.
/// `None` when a declared length runs past the end of `d`.
pub open spec fn scan_tags(d: Seq<u8>, pos: int, wanted: Seq<u8>, acc: Map<u8, Seq<u8>>) -> Option<
    Map<u8, Seq<u8>>,
>
    decreases d.len() - pos,
{
    if pos < 0 {
        None
    } else if pos >= d.len() {
        Some(acc)
    } else if pos + 2 > d.len() || pos + 2 + d[pos + 1] > d.len() {
        None
    } else {
        let len = d[pos + 1] as int;
        let next = if wanted.contains(d[pos]) {
            acc.insert(d[pos], d.subrange(pos + 2, pos + 2 + len))
        } else {
            acc
        };
        scan_tags(d, pos + 2 + len, wanted, next)
    }
}

/// The wanted tags of a whole parameter region.
pub open spec fn spec_tagged_params(d: Seq<u8>, wanted: Seq<u8>) -> Option<Map<u8, Seq<u8>>> {
    scan_tags(d, 0, wanted, Map::empty())
}

/// The values of a map of byte vectors, as sequences.
pub open spec fn tags_view(m: Map<u8, Vec<u8>>) -> Map<u8, Seq<u8>> {
    m.map_values(|v: Vec<u8>| v@)
}

/// Whether `b` occurs in `s`.
pub fn contains_byte(s: &[u8], b: u8) -> (r: bool)
    ensures
        r == s@.contains(b),
{
    let mut i: usize = 0;
    while i < s.len()
        invariant
            i <= s@.len(),
            forall|k: int| 0 <= k < i ==> s@[k] != b,
        decreases s@.len() - i,
    {
        if s[i] == b {
            assert(s@[i as int] == b);
            return true;
        }
        i += 1;
    }
    false
}

fn copy_range(d: &[u8], from: usize, to: usize) -> (r: Vec<u8>)
    requires
        from <= to <= d@.len(),
    ensures
        r@ == d@.subrange(from as int, to as int),
{
    let mut out: Vec<u8> = Vec::new();
    let mut i: usize = from;
    while i < to
        invariant
            from <= i <= to <= d@.len(),
            out@ == d@.subrange(from as int, i as int),
        decreases to - i,
    {
        out.push(d[i]);
        i += 1;
        assert(out@ =~= d@.subrange(from as int, i as int));
    }
    out
}

proof fn lemma_scan_fails_iff_ill_formed(d: Seq<u8>, pos: int, wanted: Seq<u8>, acc: Map<u8, Seq<u8>>)
    ensures
        scan_tags(d, pos, wanted, acc) is None <==> !tlv_well_formed(d, pos),
    decreases d.len() - pos,
{
    if pos >= 0 && pos < d.len() && pos + 2 <= d.len() && pos + 2 + d[pos + 1] <= d.len() {
        let len = d[pos + 1] as int;
        let next = if wanted.contains(d[pos]) {
            acc.insert(d[pos], d.subrange(pos + 2, pos + 2 + len))
        } else {
            acc
        };
        lemma_scan_fails_iff_ill_formed(d, pos + 2 + len, wanted, next);
    }
}

/// Walks the tagged parameters of `data` and collects the value of each tag
/// whose number is in `target_tag_numbers`. A tag whose declared length runs
/// past the end of `data` (or a lone tag number with no length byte) makes
/// the whole region undecodable: nothing is returned from it.
pub fn search_tagged_params(data: &[u8], target_tag_numbers: &Vec<u8>) -> (r: Result<
    HashMap<u8, Vec<u8>>,
    DecodeError,
>)
    ensures
        match r {
            Ok(m) => spec_tagged_params(data@, target_tag_numbers@) == Some(tags_view(m@)),
            Err(e) => e == DecodeError::TagOverrun && spec_tagged_params(
                data@,
                target_tag_numbers@,
            ) is None,
        },
        r is Err <==> !tlv_well_formed(data@, 0),
{
    proof {
        lemma_scan_fails_iff_ill_formed(data@, 0, target_tag_numbers@, Map::empty());
    }
    let mut tags: HashMap<u8, Vec<u8>> = HashMap::new();
    let mut position: usize = 0;
    assert(tags_view(tags@) =~= Map::<u8, Seq<u8>>::empty());
    while position < data.len()
        invariant
            position <= data@.len(),
            scan_tags(data@, position as int, target_tag_numbers@, tags_view(tags@))
                == spec_tagged_params(data@, target_tag_numbers@),
            spec_tagged_params(data@, target_tag_numbers@) is None <==> !tlv_well_formed(data@, 0),
        decreases data@.len() - position,
    {
        if data.len() - position < 2 {
            return Err(DecodeError::TagOverrun);
        }
        let tag_number = data[position];
        let tag_length = data[position + 1] as usize;
        if data.len() - position - 2 < tag_length {
            return Err(DecodeError::TagOverrun);
        }
        let end = position + 2 + tag_length;
        if contains_byte(target_tag_numbers.as_slice(), tag_number) {
            let value = copy_range(data, position + 2, end);
            let ghost before = tags@;
            tags.insert(tag_number, value);
            assert(tags_view(tags@) =~= tags_view(before).insert(
                tag_number,
                data@.subrange(position + 2, end as int),
            ));
        }
        position = end;
    }
    Ok(tags)
}

} // verus!
