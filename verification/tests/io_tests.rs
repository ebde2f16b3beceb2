use agc_core::io::{channel, IoChannels, NUM_CHANNELS};

#[test]
fn test_channel_read_write() {
    let mut io = IoChannels::new();
    io.write(0o010, 0o12345);
    assert_eq!(io.read(0o010), 0o12345);
}

#[test]
fn test_channel_and() {
    let mut io = IoChannels::new();
    io.write(0o010, 0o77777);
    let result = io.and_channel(0o010, 0o12345);
    assert_eq!(result, 0o12345);
}

#[test]
fn test_channel_or() {
    let mut io = IoChannels::new();
    io.write(0o010, 0o10000);
    let result = io.or_channel(0o010, 0o01234);
    assert_eq!(result, 0o11234);
}

#[test]
fn test_engine_on() {
    let mut io = IoChannels::new();
    assert!(!io.is_engine_on());
    io.write(channel::CHAN14, 0o20);
    assert!(io.is_engine_on());
}

// ===== Further scenarios =====

#[test]
fn status_inputs_read_all_ones() {
    let io = IoChannels::new();
    for ch in [channel::CHAN30, channel::CHAN31, channel::CHAN32, channel::CHAN33] {
        assert_eq!(io.read(ch), 0o37777);
    }
    assert_eq!(io.read(channel::CHAN13), 0);
}

#[test]
fn channels_beyond_the_last_are_ignored() {
    let mut io = IoChannels::default();
    io.write(NUM_CHANNELS, 5);
    assert_eq!(io.read(NUM_CHANNELS), 0);
    assert_eq!(io.and_channel(NUM_CHANNELS, 0o777), 0);
    assert_eq!(io.or_channel(NUM_CHANNELS, 0o777), 0);
    assert_eq!(io.xor_channel(NUM_CHANNELS, 0o777), 0);
}

#[test]
fn writes_keep_fifteen_bits() {
    let mut io = IoChannels::new();
    io.write(0o10, 0xFFFF);
    assert_eq!(io.read(0o10), 0x7FFF);
    assert_eq!(io.channels[0o10], 0x7FFF);
}

#[test]
fn xor_channel_toggles() {
    let mut io = IoChannels::new();
    io.write(0o11, 0o17);
    assert_eq!(io.xor_channel(0o11, 0o12), 0o05);
    assert_eq!(io.read(0o11), 0o05);
    assert_eq!(io.xor_channel(0o11, 0xFFFF), 0o77772);
}

#[test]
fn superbank_bit() {
    let mut io = IoChannels::new();
    assert!(!io.superbank());
    io.write(channel::SUPERBANK, 0o100);
    assert!(io.superbank());
}
