use ajazz_sdk::cache::{key_image_packets, FlushPlan, ImageCache};
use ajazz_sdk::error::AjazzError;
use ajazz_sdk::input::{handle_input_state_change, AjazzInput, DeviceState, Event};
use ajazz_sdk::kind::kind_name;
use ajazz_sdk::n1::{
    n1_background_metadata_packet, n1_background_payload, n1_secondary_screen_stages,
    n1_settings_pack_head,
};
use ajazz_sdk::probe;
use ajazz_sdk::reports::{image_data_reports, WriteImageParameters};
use ajazz_sdk::request::{feature_report_version, format_request};
use ajazz_sdk::session::{
    clear_all_plan, connect_order, initialize, logo_upload_packets, or_unknown,
    serial_or_unknown, ConnectRetry, HidCandidate, InterfaceSearch, RetryStep, SearchEnd,
};
use ajazz_sdk::Kind;

fn header() -> Vec<u8> {
    vec![0x00, 0x43, 0x52, 0x54, 0x00, 0x00]
}

#[test]
fn packet_length_depends_on_model() {
    assert_eq!(Kind::Akp153.packet_length(), 512);
    assert_eq!(Kind::Akp03RRev2.packet_length(), 1024);
    assert_eq!(Kind::AkpN1.packet_length(), 1024);
    assert!(Kind::Akp03RRev2.is_v2_api());
    assert!(!Kind::AkpN1.is_v2_api());
    assert!(Kind::AkpN1.is_n1());
}

#[test]
fn pad_packet_fills_one_report() {
    let mut buf = vec![1u8, 2, 3];
    Kind::Akp153.pad_packet(&mut buf);
    assert_eq!(buf.len(), 513);
    assert_eq!(&buf[..3], &[1, 2, 3]);
    assert!(buf[3..].iter().all(|b| *b == 0));
    let mut buf = vec![7u8; 1025];
    Kind::AkpN1.pad_packet(&mut buf);
    assert_eq!(buf, vec![7u8; 1025]);
}

#[test]
fn format_request_prefixes_header() {
    let mut expected = header();
    expected.extend([0x53, 0x54, 0x50]);
    assert_eq!(format_request(&[0x53, 0x54, 0x50]), expected);
    assert_eq!(format_request(&[]), header());
}

#[test]
fn feature_report_buffer() {
    let mut expected = vec![0x01u8];
    expected.extend(vec![0u8; 20]);
    assert_eq!(feature_report_version(), expected);
}

#[test]
fn n1_software_mode_packet_bytes() {
    let p = Kind::AkpN1.n1_software_mode_packet();
    assert_eq!(p.len(), 1025);
    let mut expected = header();
    expected.extend([0x4d, 0x4f, 0x44, 0x00, 0x00, 0x33]);
    assert_eq!(&p[..12], expected.as_slice());
    assert!(p[12..].iter().all(|b| *b == 0));
}

#[test]
fn key_image_announce_uses_native_index() {
    // Key 0 of an AKP153 sits at native position 12, announced one-based as 13.
    let p = Kind::Akp153.key_image_announce_packet(0, &[0u8; 300]);
    assert_eq!(&p[6..14], &[0x42, 0x41, 0x54, 0x00, 0x00, 0x01, 0x2c, 13]);
    // Models without renumbering announce key + 1.
    let p = Kind::Akp815.key_image_announce_packet(4, &[0u8; 2]);
    assert_eq!(&p[11..14], &[0x00, 0x02, 5]);
}

#[test]
fn logo_packet_v2_carries_size() {
    let p = Kind::Akp03RRev2.logo_image_packet(&vec![0u8; 0x1234]);
    assert_eq!(p.len(), 1025);
    assert_eq!(&p[..13], &[0x00, 0x43, 0x52, 0x54, 0x00, 0x00, 0x4c, 0x4f, 0x47, 0x00, 0x00, 0x12, 0x34]);
}

#[test]
fn native_index_roundtrip() {
    for k in 0u8..18 {
        let n = Kind::Akp153.index_to_native_v1(k).unwrap();
        assert_eq!(Kind::Akp153.index_from_native_v1(n), Some(k));
    }
    assert_eq!(Kind::Akp153.index_to_native_v1(18), None);
    assert_eq!(Kind::AkpN1.index_to_native_v1(3), None);
}

#[test]
fn image_reports_split_and_pad() {
    let params = WriteImageParameters { image_report_length: 6, image_report_payload_length: 4 };
    let data: Vec<u8> = (1..=10).collect();
    let reports = image_data_reports(&data, params);
    assert_eq!(
        reports,
        vec![vec![0, 1, 2, 3, 4, 0], vec![0, 5, 6, 7, 8, 0], vec![0, 9, 10, 0, 0, 0]]
    );
    let rebuilt: Vec<u8> = reports
        .iter()
        .enumerate()
        .flat_map(|(i, r)| r[1..1 + (data.len() - 4 * i).min(4)].to_vec())
        .collect();
    assert_eq!(rebuilt, data);
    assert!(image_data_reports(&[], params).is_empty());
}

#[test]
fn image_reports_for_kind() {
    let params = WriteImageParameters::for_kind(Kind::Akp153);
    assert_eq!(params.image_report_length, 513);
    assert_eq!(params.image_report_payload_length, 512);
    let reports = image_data_reports(&vec![9u8; 1025], params);
    assert_eq!(reports.len(), 3);
    assert!(reports.iter().all(|r| r.len() == 513 && r[0] == 0));
    assert_eq!(reports[2][1], 9);
    assert_eq!(reports[2][2], 0);
}

#[test]
fn n1_settings_head_layout() {
    let p = n1_settings_pack_head(Kind::AkpN1, 0x1234, 0x01, 0x02, false).unwrap();
    assert_eq!(p.len(), 1025);
    assert_eq!(&p[..14], &[0, 0x43, 0x52, 0x54, 0, 0, 0, 0, 0, 0x05, 0x12, 0x34, 0x01, 0x02]);
    let p = n1_settings_pack_head(Kind::AkpN1, 0xffff, 0, 0, true).unwrap();
    assert_eq!(&p[9..12], &[0x0f, 0xff, 0xff]);
    assert_eq!(
        n1_settings_pack_head(Kind::AkpN1, 0x10000, 0, 0, false),
        Err(AjazzError::UnsupportedOperation)
    );
}

#[test]
fn n1_metadata_packet_layout() {
    let p = n1_background_metadata_packet(&vec![0u8; 0x010203], 1, 2, 800, 480, 0x01).unwrap();
    assert_eq!(
        p,
        vec![
            0x43, 0x52, 0x54, 0x00, 0x00, 0x42, 0x47, 0x50, 0x49, 0x43, 0x00, 0x01, 0x02, 0x03, 0x00,
            0x01, 0x00, 0x02, 0x03, 0x20, 0x01, 0xe0, 0x01
        ]
    );
}

#[test]
fn n1_payload_of_empty_data_is_one_header() {
    let stages = n1_background_payload(Kind::AkpN1, &[], 0x01, 0x00);
    assert_eq!(stages.len(), 1);
    assert_eq!(stages[0].header, n1_settings_pack_head(Kind::AkpN1, 0, 0x01, 0x00, false).unwrap());
    assert!(stages[0].reports.is_empty());
}

#[test]
fn n1_payload_chunks_at_0xffff() {
    let data = vec![5u8; 0xffff + 10];
    let stages = n1_background_payload(Kind::AkpN1, &data, 0x01, 0x00);
    assert_eq!(stages.len(), 2);
    assert_eq!(&stages[0].header[10..12], &[0xff, 0xff]);
    assert_eq!(&stages[1].header[10..12], &[0x00, 0x0a]);
    assert_eq!(stages[0].reports.len(), 64);
    assert_eq!(stages[1].reports.len(), 1);
    let total: usize = stages[0].reports.iter().map(|r| r[1..].iter().filter(|b| **b == 5).count()).sum();
    assert_eq!(total, 0xffff);
}

#[test]
fn n1_secondary_screen_uploads_metadata_then_image() {
    let image = vec![3u8; 100];
    let (meta, img) = n1_secondary_screen_stages(Kind::AkpN1, &image, 480, 272).unwrap();
    assert_eq!(meta.len(), 1);
    assert_eq!(&meta[0].header[10..14], &[0x00, 23, 0x00, 0x00]);
    assert_eq!(&meta[0].reports[0][1..11], &[0x43, 0x52, 0x54, 0x00, 0x00, 0x42, 0x47, 0x50, 0x49, 0x43]);
    assert_eq!(img.len(), 1);
    assert_eq!(&img[0].header[10..14], &[0x00, 100, 0x01, 0x00]);
}

#[test]
fn button_changes_toggle_state() {
    let mut state = DeviceState::new(4, 1);
    let events =
        handle_input_state_change(AjazzInput::ButtonStateChange(vec![false, true, false, true]), &mut state)
            .unwrap();
    assert_eq!(events, vec![Event::ButtonDown(1), Event::ButtonDown(3)]);
    assert_eq!(state.buttons, vec![false, true, false, true]);
    let events = handle_input_state_change(AjazzInput::ButtonStateChange(vec![false, true]), &mut state).unwrap();
    assert_eq!(events, vec![Event::ButtonUp(1)]);
    assert_eq!(state.buttons, vec![false, false, false, true]);
}

#[test]
fn same_change_twice_restores_state() {
    let mut state = DeviceState::new(3, 2);
    let change = AjazzInput::EncoderStateChange(vec![true, true]);
    let first = handle_input_state_change(change.clone(), &mut state).unwrap();
    assert_eq!(first, vec![Event::EncoderDown(0), Event::EncoderDown(1)]);
    let second = handle_input_state_change(change, &mut state).unwrap();
    assert_eq!(second, vec![Event::EncoderUp(0), Event::EncoderUp(1)]);
    assert_eq!(state, DeviceState::new(3, 2));
}

#[test]
fn unset_flags_past_the_state_are_ignored() {
    let mut state = DeviceState::new(2, 0);
    let events =
        handle_input_state_change(AjazzInput::ButtonStateChange(vec![true, false, false, false]), &mut state)
            .unwrap();
    assert_eq!(events, vec![Event::ButtonDown(0)]);
    assert_eq!(state.buttons, vec![true, false]);
}

#[test]
fn twists_and_no_data() {
    let mut state = DeviceState::new(2, 3);
    let events = handle_input_state_change(AjazzInput::EncoderTwist(vec![0, -2, 3]), &mut state).unwrap();
    assert_eq!(events, vec![Event::EncoderTwist(1, -2), Event::EncoderTwist(2, 3)]);
    assert_eq!(state, DeviceState::new(2, 3));
    assert!(handle_input_state_change(AjazzInput::NoData, &mut state).unwrap().is_empty());
}

#[test]
fn cache_refuses_non_display_keys() {
    let mut cache = ImageCache::new(Kind::Akp03);
    assert_eq!(cache.write(6, &[1, 2]), Err(AjazzError::InvalidKeyIndex(6)));
    assert!(cache.is_empty());
    assert_eq!(cache.write(5, &[1, 2]), Ok(()));
    assert!(!cache.is_empty());
    assert_eq!(key_image_packets(Kind::AkpN1, 15, &[1]), Err(AjazzError::InvalidKeyIndex(15)));
}

#[test]
fn flush_plan_sends_every_image_then_commits() {
    let kind = Kind::Akp815;
    let mut cache = ImageCache::new(kind);
    assert!(matches!(cache.flush_plan(), FlushPlan::Nothing));
    cache.write(2, &[7u8; 600]).unwrap();
    cache.write(0, &[8u8; 3]).unwrap();
    match cache.flush_plan() {
        FlushPlan::Packets(p) => {
            assert_eq!(p.len(), 1 + 2 + 1 + 1 + 1);
            assert_eq!(p[0], kind.key_image_announce_packet(2, &[7u8; 600]));
            assert_eq!(p[3], kind.key_image_announce_packet(0, &[8u8; 3]));
            assert_eq!(p[4][1..4], [8, 8, 8]);
            assert_eq!(p[5], kind.flush_packet());
        }
        _ => panic!("expected packets"),
    }
    cache.clear();
    assert!(cache.is_empty());
}

#[test]
fn n1_flush_sends_each_key_image() {
    let kind = Kind::AkpN1;
    let mut cache = ImageCache::new(kind);
    cache.write(14, &[1u8; 1500]).unwrap();
    match cache.flush_plan() {
        FlushPlan::Packets(p) => {
            assert_eq!(p.len(), 1 + 2 + 1);
            // BAT, big-endian size 0x05dc, one-based index 15.
            assert_eq!(&p[0][6..14], &[0x42, 0x41, 0x54, 0x00, 0x00, 0x05, 0xdc, 15]);
            assert_eq!(p[1].len(), 1025);
            assert_eq!(p[1][1024], 1);
            assert_eq!(p[2][1..477], vec![1u8; 476][..]);
            assert_eq!(p[2][477], 0);
            assert_eq!(p[3], kind.flush_packet());
        }
        _ => panic!("expected packets"),
    }
}

#[test]
fn initialize_only_once() {
    let mut initialized = false;
    let plan = initialize(&mut initialized, Kind::AkpN1);
    assert!(initialized);
    assert_eq!(plan.packets, vec![Kind::AkpN1.initialize_packet(), Kind::AkpN1.n1_software_mode_packet()]);
    assert_eq!(plan.pause_ms, 20);
    let again = initialize(&mut initialized, Kind::AkpN1);
    assert!(again.packets.is_empty());
    let mut other = false;
    let plan = initialize(&mut other, Kind::Akp153);
    assert_eq!(plan.packets, vec![Kind::Akp153.initialize_packet()]);
    assert_eq!(plan.pause_ms, 0);
}

#[test]
fn clear_all_plans() {
    let p = clear_all_plan(Kind::Akp03RRev2, None, &[]).unwrap();
    assert_eq!(
        p.packets,
        vec![Kind::Akp03RRev2.clear_button_image_packet(0xff), Kind::Akp03RRev2.flush_packet()]
    );
    assert!(p.background.is_none() && !p.clear_cache);
    let p = clear_all_plan(Kind::Akp153, Some((10, 10)), &[1]).unwrap();
    assert_eq!(p.packets, vec![Kind::Akp153.clear_button_image_packet(0xff)]);
    assert!(matches!(clear_all_plan(Kind::AkpN1, None, &[1]), Err(AjazzError::UnsupportedOperation)));
}

#[test]
fn n1_clear_all_replaces_background() {
    let blank = vec![0xffu8; 50];
    let p = clear_all_plan(Kind::AkpN1, Some((480, 272)), &blank).unwrap();
    assert!(p.packets.is_empty());
    assert!(p.clear_cache);
    let (meta, img) = p.background.unwrap();
    let (meta2, img2) = n1_secondary_screen_stages(Kind::AkpN1, &blank, 480, 272).unwrap();
    assert_eq!(meta.len(), meta2.len());
    assert_eq!(meta[0].header, meta2[0].header);
    assert_eq!(meta[0].reports, meta2[0].reports);
    assert_eq!(img[0].header, img2[0].header);
    assert_eq!(img[0].reports, img2[0].reports);
    assert_eq!(&meta[0].reports[0][19..23], &[0x01, 0xe0, 0x01, 0x10]);
}

#[test]
fn logo_upload_announces_commits_then_sends() {
    let p = logo_upload_packets(Kind::Akp153, &[4u8; 513]);
    assert_eq!(p.len(), 4);
    assert_eq!(p[0], Kind::Akp153.logo_image_packet(&[4u8; 513]));
    assert_eq!(p[1], Kind::Akp153.flush_packet());
    assert_eq!(p[3][1], 4);
    assert_eq!(p[3][2], 0);
}

fn candidate(serial: Option<&str>, usage_page: u16, usage: u16) -> HidCandidate {
    HidCandidate {
        vendor_id: 0x0300,
        product_id: 0x3007,
        serial_number: serial.map(|s| s.to_string()),
        usage_page,
        usage,
    }
}

#[test]
fn n1_prefers_vendor_input_interface() {
    let cands = vec![
        candidate(Some("A"), 0x0001, 0x0006),
        candidate(Some("A"), 0xffa0, 0x0002),
        candidate(Some("B"), 0xffa0, 0x0001),
        candidate(None, 0xffa0, 0x0001),
        candidate(Some("A"), 0xffa0, 0x0001),
    ];
    assert_eq!(connect_order(Kind::AkpN1, "A", &cands), vec![4, 1, 0]);
    assert_eq!(connect_order(Kind::Akp03E, "A", &cands), Vec::<usize>::new());
}

#[test]
fn other_models_keep_enumeration_order() {
    let mut cands = vec![candidate(Some("A"), 0xffa0, 0x0002), candidate(Some("A"), 0xffa0, 0x0001)];
    for c in cands.iter_mut() {
        c.product_id = 0x3002;
    }
    assert_eq!(connect_order(Kind::Akp03E, "A", &cands), vec![0, 1]);
}

#[test]
fn retries_exactly_as_often_as_asked() {
    assert!(matches!(ConnectRetry::start(0), Err(AjazzError::UnsupportedOperation)));
    let mut retry = ConnectRetry::start(3).unwrap();
    assert!(matches!(retry.on_failure("first"), RetryStep::Retry { pause_ms: 100 }));
    assert!(matches!(retry.on_failure("second"), RetryStep::Retry { pause_ms: 100 }));
    assert!(matches!(retry.on_failure("third"), RetryStep::GiveUp { pause_ms: 100, error: "third" }));
}

#[test]
fn interface_search_reports_last_failure() {
    let search: InterfaceSearch<u32> = InterfaceSearch::new();
    assert!(matches!(search.finish(), SearchEnd::OpenBySerial));
    let mut search = InterfaceSearch::new();
    search.on_open_failure(1u32);
    search.on_open_failure(2u32);
    assert!(matches!(search.finish(), SearchEnd::Failed(2)));
}

#[test]
fn unknown_strings() {
    assert_eq!(or_unknown(None), "Unknown");
    assert_eq!(or_unknown(Some(String::new())), "");
    assert_eq!(or_unknown(Some("Ajazz".to_string())), "Ajazz");
    assert_eq!(serial_or_unknown(Some(String::new())), "Unknown");
    assert_eq!(serial_or_unknown(None), "Unknown");
    assert_eq!(serial_or_unknown(Some("ABC".to_string())), "ABC");
}

#[test]
fn probe_packets_match_library_packets() {
    let kind = Kind::Akp153;
    assert_eq!(probe::initialize_packet(), kind.initialize_packet());
    assert_eq!(probe::brightness_packet(35), kind.brightness_packet(35));
    assert_eq!(probe::clear_all_packet(), kind.clear_button_image_packet(0xff));
    assert_eq!(probe::flush_packet(), kind.flush_packet());
    assert_eq!(probe::logo_packet_v1(), kind.logo_image_packet(&[]));
    assert_eq!(probe::show_logo_packet(), kind.shutdown_packet());
}

#[test]
fn probe_pad_truncates_and_extends() {
    assert_eq!(probe::pad_packet(vec![1u8; 600]), vec![1u8; 513]);
    let p = probe::pad_packet(vec![2u8; 3]);
    assert_eq!(p.len(), 513);
    assert_eq!(&p[..4], &[2, 2, 2, 0]);
}

#[test]
fn model_properties() {
    assert_eq!(Kind::from_vid_pid(0x0300, 0x3007), Some(Kind::AkpN1));
    assert_eq!(Kind::from_vid_pid(0x1234, 0x3007), None);
    assert_eq!(kind_name(Kind::Akp03RRev2), "AKP03RV2");
    assert_eq!(kind_name(Kind::AkpN1), "N1");
    assert_eq!(Kind::AkpN1.display_key_count(), 15);
    assert_eq!(Kind::AkpN1.encoder_count(), 1);
}
