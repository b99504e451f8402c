//! The text record that the log writer appends for each sighting:
//! `type<TAB>ssid<TAB>mac<TAB>lat<TAB>lon<TAB>time`.
use vstd::prelude::*;
use vstd::std_specs::hash::group_hash_axioms;
use vstd::utf8::{decode_utf8, valid_utf8};
use crate::capture::{mac_address_to_string, mac_text, CapturedEvent};
use crate::frame::{tags_view, BEACON, PROBE_REQUEST, SSID_TAG};
use crate::text::{decimal_text, padded_text, push_decimal, push_padded, push_trimmed, trimmed_text};

verus! {

broadcast use group_hash_axioms;

/// The text that `String::from_utf8_lossy` makes of some bytes.
pub uninterp spec fn utf8_lossy(b: Seq<u8>) -> Seq<char>;

/// Relies on `String::from_utf8_lossy`: the text of the bytes, each invalid
/// sequence replaced by U+FFFD; valid UTF-8 comes back decoded unchanged.
#[verifier::external_body]
fn lossy_text(b: &[u8]) -> (r: String)
    ensures
        r@ == utf8_lossy(b@),
        valid_utf8(b@) ==> r@ == decode_utf8(b@),
{
    String::from_utf8_lossy(b).into_owned()
}

/// The name of a frame type in the log.
pub open spec fn frame_type_text(t: u8) -> Seq<char> {
    if t == BEACON {
        seq!['B', 'E', 'A', 'C', 'O', 'N']
    } else if t == PROBE_REQUEST {
        seq!['P', 'R', 'O', 'B', 'E', '_', 'R', 'E', 'Q', 'U', 'E', 'S', 'T']
    } else {
        seq!['U', 'N', 'K', 'N', 'O', 'W', 'N']
    }
}

pub open spec fn sign_text(v: int) -> Seq<char> {
    if v < 0 {
        seq!['-']
    } else {
        Seq::empty()
    }
}

pub open spec fn abs(v: int) -> nat {
    if v < 0 {
        (-v) as nat
    } else {
        v as nat
    }
}

/// A value in units of 10^-9 with six decimal places, rounded half away
/// from zero.
pub open spec fn fixed6_text(v: int) -> Seq<char> {
    let m = (abs(v) + 500) / 1000;
    sign_text(v) + decimal_text(m / 1_000_000) + seq!['.'] + padded_text(m % 1_000_000, 6)
}

/// A value in units of 10^-9 in its shortest decimal form: no fraction
/// when it is whole, else the fraction without trailing zeros.
pub open spec fn plain_text(v: int) -> Seq<char> {
    let a = abs(v);
    sign_text(v) + decimal_text(a / 1_000_000_000) + if a % 1_000_000_000 == 0 {
        Seq::empty()
    } else {
        seq!['.'] + trimmed_text(a % 1_000_000_000, 9)
    }
}

/// The network-name bytes of a sighting (empty when it carries none).
pub open spec fn ssid_of(ev: CapturedEvent) -> Seq<u8> {
    let tags = tags_view(ev.broadcast.found_tags@);
    if tags.contains_key(SSID_TAG) {
        tags[SSID_TAG]
    } else {
        Seq::empty()
    }
}

/// The log record of a sighting, without its line end.
pub open spec fn spec_record(ev: CapturedEvent) -> Seq<char> {
    frame_type_text(ev.broadcast.packet_type) + seq!['\t'] + utf8_lossy(ssid_of(ev)) + seq!['\t']
        + mac_text(ev.broadcast.transmitter_mac_address@) + seq!['\t'] + fixed6_text(ev.gps.lat as int)
        + seq!['\t'] + fixed6_text(ev.gps.lon as int) + seq!['\t'] + plain_text(ev.gps.time as int)
}

fn push_frame_type(out: &mut String, t: u8)
    ensures
        final(out)@ == old(out)@ + frame_type_text(t),
{
    if t == BEACON {
        proof {
            reveal_strlit("BEACON");
        }
        out.append("BEACON");
    } else if t == PROBE_REQUEST {
        proof {
            reveal_strlit("PROBE_REQUEST");
        }
        out.append("PROBE_REQUEST");
    } else {
        proof {
            reveal_strlit("UNKNOWN");
        }
        out.append("UNKNOWN");
    }
}

fn push_sign(out: &mut String, v: i64)
    ensures
        final(out)@ == old(out)@ + sign_text(v as int),
{
    if v < 0 {
        proof {
            reveal_strlit("-");
        }
        out.append("-");
    } else {
        assert(old(out)@ + sign_text(v as int) =~= old(out)@);
    }
}

fn abs_u64(v: i64) -> (r: u64)
    ensures
        r == abs(v as int),
{
    if v < 0 {
        (0 - (v as i128)) as u64
    } else {
        v as u64
    }
}

/// Appends `v` (units of 10^-9) with six decimal places.
fn push_fixed6(out: &mut String, v: i64)
    ensures
        final(out)@ == old(out)@ + fixed6_text(v as int),
{
    let a = abs_u64(v);
    let m = a / 1000 + (if a % 1000 >= 500 { 1u64 } else { 0u64 });
    assert(m == (a + 500) / 1000);
    push_sign(out, v);
    push_decimal(out, m / 1_000_000);
    proof {
        reveal_strlit(".");
    }
    out.append(".");
    push_padded(out, m % 1_000_000, 6);
    assert(final(out)@ =~= old(out)@ + fixed6_text(v as int));
}

/// Appends `v` (units of 10^-9) in its shortest decimal form.
fn push_plain(out: &mut String, v: i64)
    ensures
        final(out)@ == old(out)@ + plain_text(v as int),
{
    let a = abs_u64(v);
    push_sign(out, v);
    push_decimal(out, a / 1_000_000_000);
    if a % 1_000_000_000 != 0 {
        proof {
            reveal_strlit(".");
        }
        out.append(".");
        push_trimmed(out, a % 1_000_000_000, 9);
    }
    assert(final(out)@ =~= old(out)@ + plain_text(v as int));
}

fn push_tab(out: &mut String)
    ensures
        final(out)@ == old(out)@ + seq!['\t'],
{
    proof {
        reveal_strlit("\t");
    }
    out.append("\t");
}

/// The log record of a sighting: frame type name, network name, transmitter
/// address, latitude and longitude with six decimals, and the fix time,
/// separated by tabs.
pub fn record_line(ev: &CapturedEvent) -> (r: String)
    ensures
        r@ == spec_record(*ev),
{
    let mut out = String::new();
    push_frame_type(&mut out, ev.broadcast.packet_type);
    push_tab(&mut out);
    proof {
        let tags = ev.broadcast.found_tags@;
        assert(tags_view(tags).dom() =~= tags.dom());
    }
    let empty: Vec<u8> = Vec::new();
    let ssid = match ev.broadcast.found_tags.get(&SSID_TAG) {
        Some(v) => lossy_text(v.as_slice()),
        None => lossy_text(empty.as_slice()),
    };
    assert(ssid@ == utf8_lossy(ssid_of(*ev)));
    out.append(ssid.as_str());
    push_tab(&mut out);
    let mac_bytes: &[u8] = &ev.broadcast.transmitter_mac_address;
    assert(mac_bytes@ == ev.broadcast.transmitter_mac_address@);
    let mac = mac_address_to_string(mac_bytes);
    out.append(mac.as_str());
    push_tab(&mut out);
    push_fixed6(&mut out, ev.gps.lat);
    push_tab(&mut out);
    push_fixed6(&mut out, ev.gps.lon);
    push_tab(&mut out);
    push_plain(&mut out, ev.gps.time);
    assert(out@ =~= spec_record(*ev));
    out
}

} // verus!
