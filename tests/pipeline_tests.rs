use std::collections::HashMap;

use wardrive::capture::{capture_frame, decode_broadcast, mac_address_to_string, Broadcast, CapturedEvent};
use wardrive::frame::{decode_layout, ieee80211_frame_start, search_tagged_params, DecodeError, BEACON, PROBE_REQUEST};
use wardrive::gps::{
    handle_line, nema_coords_to_regular_coords, nth_field_of, parse_decimal, parse_nema, reader_next, GpsCache,
    GpsDataDecoded, ReaderEvent, ReaderState, SentenceKind,
};
use wardrive::pipeline::{hand_over, ssid_is_interesting, take_ready, Aggregator, BATCH_THRESHOLD};
use wardrive::record::record_line;
use wardrive::startup::{get_changed_interfaces, Retry, RetryPolicy, RetryStep};

fn beacon_with_ssid(ssid: &[u8]) -> Vec<u8> {
    // radiotap header of 8 bytes
    let mut p = vec![0x00, 0x00, 0x08, 0x00, 0x00, 0x00, 0x00, 0x00];
    let mut header = vec![0u8; 24];
    header[0] = BEACON;
    for i in 0..6 {
        header[10 + i] = 0xA0 + i as u8;
    }
    p.extend_from_slice(&header);
    p.extend_from_slice(&[0u8; 12]);
    p.push(0x00);
    p.push(ssid.len() as u8);
    p.extend_from_slice(ssid);
    p.extend_from_slice(&[0x01, 0x01, 0x82]);
    p
}

fn event_with_ssid(ssid: &[u8]) -> CapturedEvent {
    let mut tags = HashMap::new();
    tags.insert(0u8, ssid.to_vec());
    CapturedEvent {
        broadcast: Broadcast { packet_type: BEACON, transmitter_mac_address: [1, 2, 3, 4, 5, 6], found_tags: tags },
        gps: GpsDataDecoded::zero(),
    }
}

#[test]
fn radiotap_offset_is_le_u16_at_byte_two() {
    assert_eq!(ieee80211_frame_start(&[0x00, 0x00, 0x12, 0x00, 0xff]), Some(0x12));
    assert_eq!(ieee80211_frame_start(&[0x00, 0x00, 0x34, 0x12]), Some(0x1234));
}

#[test]
fn no_radiotap_offset_is_zero() {
    assert_eq!(ieee80211_frame_start(&[0x80, 0x00]), Some(0));
    assert_eq!(ieee80211_frame_start(&[0x40]), Some(0));
}

#[test]
fn frame_start_of_short_buffers() {
    assert_eq!(ieee80211_frame_start(&[]), None);
    assert_eq!(ieee80211_frame_start(&[0x00, 0x00, 0x08]), None);
}

#[test]
fn layout_of_beacon_and_probe() {
    let p = beacon_with_ssid(b"x");
    let l = decode_layout(&p).unwrap();
    assert_eq!(l.packet_type, BEACON);
    assert_eq!(l.transmitter_mac_address, [0xA0, 0xA1, 0xA2, 0xA3, 0xA4, 0xA5]);
    assert_eq!(l.params_start, 8 + 24 + 12);

    let mut probe = vec![0u8; 26];
    probe[0] = PROBE_REQUEST;
    probe[10] = 7;
    let l = decode_layout(&probe).unwrap();
    assert_eq!(l.packet_type, PROBE_REQUEST);
    assert_eq!(l.transmitter_mac_address[0], 7);
    assert_eq!(l.params_start, 24);
}

#[test]
fn layout_of_truncated_frames() {
    let mut short = vec![0u8; 30];
    short[0] = BEACON;
    assert_eq!(decode_layout(&short).unwrap_err(), DecodeError::Truncated);
    assert_eq!(decode_layout(&[0x40; 10]).unwrap_err(), DecodeError::Truncated);
    // radiotap length pointing past the end
    assert_eq!(decode_layout(&[0x00, 0x00, 0xff, 0x00, 0x01]).unwrap_err(), DecodeError::Truncated);
}

#[test]
fn scan_keeps_only_wanted_tags() {
    let data = [0x00, 0x03, 0x41, 0x42, 0x43, 0x01, 0x01, 0xFF];
    let tags = search_tagged_params(&data, &vec![0x00]).unwrap();
    assert_eq!(tags.len(), 1);
    assert_eq!(tags.get(&0x00), Some(&vec![0x41, 0x42, 0x43]));
    assert!(tags.get(&0x01).is_none());
}

#[test]
fn scan_reports_overrun() {
    let data = [0x00, 0x03, 0x41, 0x42, 0x43, 0x01, 0x05, 0xFF];
    assert_eq!(search_tagged_params(&data, &vec![0x00]).unwrap_err(), DecodeError::TagOverrun);
    assert_eq!(search_tagged_params(&[0x00], &vec![0x00]).unwrap_err(), DecodeError::TagOverrun);
}

#[test]
fn scan_later_tag_replaces_earlier_and_empty_region() {
    let data = [0x00, 0x01, 0x41, 0x00, 0x01, 0x42];
    let tags = search_tagged_params(&data, &vec![0x00]).unwrap();
    assert_eq!(tags.get(&0x00), Some(&vec![0x42]));
    assert!(search_tagged_params(&[], &vec![0x00]).unwrap().is_empty());
}

#[test]
fn cache_keeps_real_fix_against_sentinel() {
    let mut cache = GpsCache::new();
    assert_eq!(cache.snapshot(), GpsDataDecoded { time: 0, lat: 0, lon: 0 });
    let fix = GpsDataDecoded { time: 5, lat: 10, lon: 20 };
    assert!(cache.publish(fix));
    assert!(!cache.publish(GpsDataDecoded { time: 6, lat: 0, lon: 0 }));
    assert_eq!(cache.snapshot(), fix);
    assert!(!cache.publish(GpsDataDecoded { time: 7, lat: 10, lon: 20 }));
    assert_eq!(cache.snapshot().time, 5);
    assert!(cache.publish(GpsDataDecoded { time: 8, lat: 0, lon: 21 }));
    assert_eq!(cache.snapshot().lon, 21);
}

#[test]
fn nmea_coordinate_north_and_south() {
    assert_eq!(nema_coords_to_regular_coords(b"4916.45", b"N"), 49_274_166_666);
    assert_eq!(nema_coords_to_regular_coords(b"4916.45", b"S"), -49_274_166_666);
    assert_eq!(nema_coords_to_regular_coords(b"12311.12", b"W"), -123_185_333_333);
    assert_eq!(nema_coords_to_regular_coords(b"", b"N"), 0);
    assert_eq!(nema_coords_to_regular_coords(b"abc", b"S"), 0);
}

#[test]
fn decimal_fields() {
    assert_eq!(parse_decimal(b"123519.00"), Some(123_519_000_000_000));
    assert_eq!(parse_decimal(b"0.5"), Some(500_000_000));
    assert_eq!(parse_decimal(b".25"), Some(250_000_000));
    assert_eq!(parse_decimal(b"7."), Some(7_000_000_000));
    assert_eq!(parse_decimal(b"1.1234567899"), Some(1_123_456_789));
    assert_eq!(parse_decimal(b""), None);
    assert_eq!(parse_decimal(b"."), None);
    assert_eq!(parse_decimal(b"1.2.3"), None);
    assert_eq!(parse_decimal(b"12a"), None);
    assert_eq!(parse_decimal(b"1000000000"), None);
    assert_eq!(parse_decimal(b"999999999"), Some(999_999_999_000_000_000));
}

#[test]
fn nmea_fields() {
    let line = b"$GNRMC,123519,A,4807.038,N";
    assert_eq!(nth_field_of(line, 0), b"$GNRMC");
    assert_eq!(nth_field_of(line, 3), b"4807.038");
    assert_eq!(nth_field_of(line, 4), b"N");
    assert_eq!(nth_field_of(line, 5), b"");
}

#[test]
fn nmea_sentences() {
    let rmc = b"$GNRMC,123519.00,A,4807.038,N,01131.000,E,022.4,084.4,230394,003.1,W*6A";
    let (kind, fix) = parse_nema(rmc).unwrap();
    assert_eq!(kind, SentenceKind::RecommendedMinimum);
    assert_eq!(fix, GpsDataDecoded { time: 123_519_000_000_000, lat: 48_117_300_000, lon: 11_516_666_666 });

    let gga = b"$GNGGA,123519,4807.038,S,01131.000,W,1,08,0.9,545.4,M,46.9,M,,*47";
    let (kind, fix) = parse_nema(gga).unwrap();
    assert_eq!(kind, SentenceKind::PositionFix);
    assert_eq!(fix, GpsDataDecoded { time: 123_519_000_000_000, lat: -48_117_300_000, lon: -11_516_666_666 });

    assert!(parse_nema(b"$GPGSV,1,1,00").is_none());
    let (_, fix) = parse_nema(b"$GNRMC,bad").unwrap();
    assert_eq!(fix, GpsDataDecoded::zero());
}

#[test]
fn reader_publishes_rmc_only() {
    let mut cache = GpsCache::new();
    assert!(!handle_line(&mut cache, b"$GNGGA,1,4807.038,N,01131.000,E"));
    assert!(cache.snapshot().is_no_fix());
    assert!(handle_line(&mut cache, b"$GNRMC,1,A,4807.038,N,01131.000,E"));
    assert_eq!(cache.snapshot().lat, 48_117_300_000);
}

#[test]
fn reader_states() {
    assert_eq!(reader_next(ReaderState::Disconnected, ReaderEvent::Opened), ReaderState::Connected);
    assert_eq!(reader_next(ReaderState::Connected, ReaderEvent::Line), ReaderState::Streaming);
    assert_eq!(reader_next(ReaderState::Streaming, ReaderEvent::TimedOut), ReaderState::Streaming);
    assert_eq!(reader_next(ReaderState::Streaming, ReaderEvent::Failed), ReaderState::Disconnected);
    assert_eq!(reader_next(ReaderState::Disconnected, ReaderEvent::Line), ReaderState::Disconnected);
}

#[test]
fn end_to_end_beacon_with_name() {
    let mut cache = GpsCache::new();
    // 123.0 s, 10.0 degrees, 20.0 degrees
    cache.publish(GpsDataDecoded { time: 123_000_000_000, lat: 10_000_000_000, lon: 20_000_000_000 });
    let ev = capture_frame(&beacon_with_ssid(b"TestNet"), &vec![0x00], &cache).unwrap().unwrap();
    assert_eq!(ev.broadcast.found_tags.get(&0x00).unwrap().as_slice(), b"TestNet");
    assert_eq!(ev.broadcast.found_tags.len(), 1);
    assert_eq!(ev.gps, cache.snapshot());
    let mut agg = Aggregator::new();
    assert!(agg.offer(ev).is_none());
    assert_eq!(agg.pending(), 1);
}

#[test]
fn end_to_end_hidden_name_gives_no_event() {
    let cache = GpsCache::new();
    let ev = capture_frame(&beacon_with_ssid(&[0, 0, 0, 0]), &vec![0x00], &cache).unwrap().unwrap();
    let mut agg = Aggregator::new();
    assert!(agg.offer(ev).is_none());
    assert_eq!(agg.pending(), 0);
}

#[test]
fn frame_without_wanted_tag() {
    let p = beacon_with_ssid(b"Net");
    assert!(decode_broadcast(&p, &vec![0xDD]).unwrap().is_none());
    let mut bad = p.clone();
    let n = bad.len();
    bad[n - 2] = 9;
    assert_eq!(decode_broadcast(&bad, &vec![0x00]).unwrap_err(), DecodeError::TagOverrun);
}

#[test]
fn interesting_names() {
    assert!(ssid_is_interesting(b"a"));
    assert!(ssid_is_interesting(&[0, 0, 1]));
    assert!(!ssid_is_interesting(&[]));
    assert!(!ssid_is_interesting(&[0, 0]));
}

#[test]
fn batch_of_twenty_is_handed_over() {
    let mut agg = Aggregator::new();
    for i in 0..19 {
        assert!(agg.offer(event_with_ssid(&[b'a' + i as u8])).is_none());
        assert!(agg.offer(event_with_ssid(&[])).is_none());
    }
    assert_eq!(agg.pending(), 19);
    let batch = agg.offer(event_with_ssid(b"last")).unwrap();
    assert_eq!(batch.len(), BATCH_THRESHOLD);
    assert_eq!(batch.len(), 20);
    assert_eq!(agg.pending(), 0);
    assert_eq!(batch[0].broadcast.found_tags.get(&0).unwrap(), &vec![b'a']);
    assert_eq!(batch[19].broadcast.found_tags.get(&0).unwrap(), &b"last".to_vec());
}

#[test]
fn drain_takes_full_buffer_only() {
    let mut shared: Vec<CapturedEvent> = Vec::new();
    assert!(take_ready(&mut shared).is_empty());
    assert!(take_ready(&mut shared).is_empty());
    assert!(shared.is_empty());
    hand_over(&mut shared, (0..5).map(|_| event_with_ssid(b"n")).collect());
    assert!(take_ready(&mut shared).is_empty());
    assert_eq!(shared.len(), 5);
    hand_over(&mut shared, (0..20).map(|_| event_with_ssid(b"m")).collect());
    let taken = take_ready(&mut shared);
    assert_eq!(taken.len(), 25);
    assert!(shared.is_empty());
    assert!(take_ready(&mut shared).is_empty());
}

#[test]
fn mac_text() {
    assert_eq!(mac_address_to_string(&[0x00, 0x1b, 0xAF, 0x10, 0xff, 0x09]), "00:1b:af:10:ff:09");
    assert_eq!(mac_address_to_string(&[1, 2, 3, 4, 5, 6, 7]), "01:02:03:04:05:06");
}

#[test]
fn record_text() {
    let mut ev = event_with_ssid(b"TestNet");
    ev.gps = GpsDataDecoded { time: 123_519_500_000_000, lat: 48_117_300_000, lon: -11_516_666_666 };
    assert_eq!(record_line(&ev), "BEACON\tTestNet\t01:02:03:04:05:06\t48.117300\t-11.516667\t123519.5");
    let mut ev = event_with_ssid(&[0x66, 0xff, 0x6f]);
    ev.broadcast.packet_type = PROBE_REQUEST;
    assert_eq!(record_line(&ev), "PROBE_REQUEST\tf\u{fffd}o\t01:02:03:04:05:06\t0.000000\t0.000000\t0");
    ev.broadcast.packet_type = 0x50;
    ev.gps.time = 123_000_000_000;
    assert!(record_line(&ev).starts_with("UNKNOWN\t"));
    assert!(record_line(&ev).ends_with("\t123"));
}

#[test]
fn changed_interfaces() {
    let before = vec!["lo".to_string(), "wlan1".to_string()];
    let after = vec!["lo".to_string(), "wlan1mon".to_string(), "eth0".to_string()];
    assert_eq!(get_changed_interfaces(&before, &after), vec!["wlan1mon".to_string(), "eth0".to_string()]);
    assert!(get_changed_interfaces(&before, &before).is_empty());
}

#[test]
fn retry_gives_up_after_max_attempts() {
    let mut r = Retry::new(RetryPolicy { max_attempts: 3, delay_ms: 3000 });
    assert_eq!(r.next_step(), RetryStep::Attempt);
    r.record_failure();
    assert_eq!(r.next_step(), RetryStep::RetryAfter(3000));
    r.record_failure();
    assert_eq!(r.next_step(), RetryStep::RetryAfter(3000));
    r.record_failure();
    assert_eq!(r.next_step(), RetryStep::GiveUp);
}
