use siphon::balesh::{NanoId, Rng, Topic};

#[test]
fn zero_is_spelled_with_zeros() {
    assert_eq!(NanoId::new(0).to_text(), "000000000000000000000");
    assert_eq!(&NanoId::new(0).encode(), b"000000000000000000000");
}

#[test]
fn lowest_digit_comes_first() {
    assert_eq!(NanoId::new(1).to_text(), "100000000000000000000");
    assert_eq!(NanoId::new(64).to_text(), "010000000000000000000");
    assert_eq!(NanoId::new(63).to_text(), "-00000000000000000000");
    assert_eq!(NanoId::new(62).to_text(), "_00000000000000000000");
    assert_eq!(NanoId::new(10).to_text(), "a00000000000000000000");
    assert_eq!(NanoId::new(36).to_text(), "A00000000000000000000");
}

#[test]
fn two_highest_bits_are_left_out() {
    assert_eq!(NanoId::new(u128::MAX).to_text(), "---------------------");
    assert!(NanoId::new(1 << 126).same(NanoId::new(0)));
}

#[test]
fn identifiers_are_read_back() {
    let id = NanoId::new(0x0123_4567_89ab_cdef_0123_4567_89ab_cdef);
    let read = NanoId::parse(&id.to_text()).expect("own text is readable");
    assert!(read.same(id));
    assert!(read == id);
}

#[test]
fn only_21_symbols_are_an_identifier() {
    assert!(NanoId::parse("00000000000000000000").is_none());
    assert!(NanoId::parse("0000000000000000000000").is_none());
    assert!(NanoId::parse("00000000000000000000+").is_none());
    assert!(NanoId::parse("0000000000000000000é").is_none());
    assert!(NanoId::parse("abcdefghijklmnopqrstu").is_some());
}

#[test]
fn generator_is_splitmix64() {
    // The first two outputs for the seed 0 are e220a8397b1dcdaf and 6e789e6aa1b965f4.
    let mut rng = Rng::new(0);
    let id = rng.nano_id();
    let raw: u128 = (0xe220_a839_7b1d_cdaf_u128 << 64) | 0x6e78_9e6a_a1b9_65f4;
    assert!(id.same(NanoId::new(raw)));
    assert!(!rng.nano_id().same(id));
    let mut rng = Rng::new(0);
    assert_eq!(rng.next_u64(), 0xe220_a839_7b1d_cdaf);
    assert_eq!(rng.next_u64(), 0x6e78_9e6a_a1b9_65f4);
}

#[test]
fn different_states_draw_different_numbers() {
    let mut drawn: Vec<String> = (0..200).map(|seed| Rng::new(seed).nano_id().to_text()).collect();
    drawn.sort_unstable();
    drawn.dedup();
    assert_eq!(drawn.len(), 200);
}

#[test]
fn a_channel_has_two_topics() {
    let topics = Topic::for_channel(42);
    assert!(topics[0] == Topic::BroadcastSettingsUpdate(42));
    assert!(topics[1] == Topic::VideoPlaybackById(42));
    assert_eq!(topics[0].to_text(), "broadcast-settings-update.42");
    assert_eq!(topics[1].to_text(), "video-playback-by-id.42");
}
