//! One step of the capture loop: from a raw captured buffer to a sighting,
//! and the text form of a transmitter address.
use std::collections::HashMap;
use vstd::prelude::*;
use vstd::std_specs::hash::group_hash_axioms;
use crate::frame::{
    decode_layout, search_tagged_params, spec_layout, spec_tagged_params, tags_view, DecodeError,
    FrameLayout,
};
use crate::gps::{GpsCache, GpsDataDecoded};
use crate::text::{byte_hex, push_byte_hex};

verus! {

broadcast use group_hash_axioms;

/// A management frame that carried at least one wanted tag.
#[derive(Debug)]
pub struct Broadcast {
    /// First byte of the 802.11 frame (see `frame::BEACON`).
    pub packet_type: u8,
    pub transmitter_mac_address: [u8; 6],
    /// The wanted tags that the frame carried, by tag number.
    pub found_tags: HashMap<u8, Vec<u8>>,
}

/// A sighting: the frame and the fix that was current when it was seen.
#[derive(Debug)]
pub struct CapturedEvent {
    pub broadcast: Broadcast,
    pub gps: GpsDataDecoded,
}

/// The outcome of decoding a captured buffer: `Ok(None)` when it decodes
/// but carries none of the wanted tags, else the packet type, transmitter
/// and wanted tags.
pub open spec fn spec_decode(packet: Seq<u8>, wanted: Seq<u8>) -> Result<
    Option<(u8, Seq<u8>, Map<u8, Seq<u8>>)>,
    DecodeError,
> {
    match spec_layout(packet) {
        None => Err(DecodeError::Truncated),
        Some((t, mac, p)) => match spec_tagged_params(packet.skip(p), wanted) {
            None => Err(DecodeError::TagOverrun),
            Some(tags) => if tags.len() == 0 {
                Ok(None)
            } else {
                Ok(Some((t, mac, tags)))
            },
        },
    }
}

/// What a decoded broadcast is, in the terms of [`spec_decode`].
pub open spec fn broadcast_view(b: Broadcast) -> (u8, Seq<u8>, Map<u8, Seq<u8>>) {
    (b.packet_type, b.transmitter_mac_address@, tags_view(b.found_tags@))
}

/// Decodes a captured buffer into a broadcast. A buffer too short for its
/// header, or whose tagged parameters overrun it, is an error; a buffer
/// without any wanted tag gives `Ok(None)`.
pub fn decode_broadcast(packet: &[u8], tag_numbers: &Vec<u8>) -> (r: Result<
    Option<Broadcast>,
    DecodeError,
>)
    ensures
        match r {
            Ok(Some(b)) => spec_decode(packet@, tag_numbers@) == Ok::<_, DecodeError>(
                Some(broadcast_view(b)),
            ),
            Ok(None) => spec_decode(packet@, tag_numbers@) == Ok::<
                Option<(u8, Seq<u8>, Map<u8, Seq<u8>>)>,
                DecodeError,
            >(None),
            Err(e) => spec_decode(packet@, tag_numbers@) == Err::<
                Option<(u8, Seq<u8>, Map<u8, Seq<u8>>)>,
                DecodeError,
            >(e),
        },
{
    let layout: FrameLayout = match decode_layout(packet) {
        Ok(l) => l,
        Err(e) => return Err(e),
    };
    let params = &packet[layout.params_start..packet.len()];
    assert(params@ =~= packet@.skip(layout.params_start as int));
    let found_tags = match search_tagged_params(params, tag_numbers) {
        Ok(m) => m,
        Err(e) => return Err(e),
    };
    proof {
        assert(tags_view(found_tags@).dom() =~= found_tags@.dom());
    }
    if found_tags.len() == 0 {
        return Ok(None);
    }
    Ok(
        Some(
            Broadcast {
                packet_type: layout.packet_type,
                transmitter_mac_address: layout.transmitter_mac_address,
                found_tags,
            },
        ),
    )
}

/// Decodes a captured buffer and, when it carries a wanted tag, pairs it
/// with the fix that the cache holds at this moment.
pub fn capture_frame(packet: &[u8], tag_numbers: &Vec<u8>, gps: &GpsCache) -> (r: Result<
    Option<CapturedEvent>,
    DecodeError,
>)
    ensures
        match r {
            Ok(Some(ev)) => ev.gps == gps@ && spec_decode(packet@, tag_numbers@) == Ok::<
                _,
                DecodeError,
            >(Some(broadcast_view(ev.broadcast))),
            Ok(None) => spec_decode(packet@, tag_numbers@) == Ok::<
                Option<(u8, Seq<u8>, Map<u8, Seq<u8>>)>,
                DecodeError,
            >(None),
            Err(e) => spec_decode(packet@, tag_numbers@) == Err::<
                Option<(u8, Seq<u8>, Map<u8, Seq<u8>>)>,
                DecodeError,
            >(e),
        },
{
    match decode_broadcast(packet, tag_numbers) {
        Ok(Some(broadcast)) => Ok(Some(CapturedEvent { broadcast, gps: gps.snapshot() })),
        Ok(None) => Ok(None),
        Err(e) => Err(e),
    }
}

/// The text of a transmitter address: six lower-case two-digit hex bytes
/// separated by colons.
pub open spec fn mac_text(mac: Seq<u8>) -> Seq<char> {
    byte_hex(mac[0]) + seq![':'] + byte_hex(mac[1]) + seq![':'] + byte_hex(mac[2]) + seq![':']
        + byte_hex(mac[3]) + seq![':'] + byte_hex(mac[4]) + seq![':'] + byte_hex(mac[5])
}

/// Formats the first six bytes of `mac_address` as `aa:bb:cc:dd:ee:ff`.
pub fn mac_address_to_string(mac_address: &[u8]) -> (r: String)
    requires
        mac_address@.len() >= 6,
    ensures
        r@ == mac_text(mac_address@),
{
    let mut out = String::new();
    let mut i: usize = 0;
    while i < 6
        invariant
            mac_address@.len() >= 6,
            i <= 6,
            i == 0 ==> out@ == Seq::<char>::empty(),
            i > 0 ==> out@ == mac_prefix(mac_address@, i as int),
        decreases 6 - i,
    {
        if i > 0 {
            proof {
                reveal_strlit(":");
            }
            out.append(":");
        }
        push_byte_hex(&mut out, mac_address[i]);
        i += 1;
    }
    proof {
        reveal_with_fuel(mac_prefix, 7);
        assert(mac_prefix(mac_address@, 6) =~= mac_text(mac_address@));
    }
    out
}

/// The text of the first `n` bytes of a transmitter address.
pub open spec fn mac_prefix(mac: Seq<u8>, n: int) -> Seq<char>
    decreases n,
{
    if n <= 1 {
        byte_hex(mac[0])
    } else {
        mac_prefix(mac, n - 1) + seq![':'] + byte_hex(mac[n - 1])
    }
}

} // verus!
