use rogue_xork::framing::{
    ends_message, msg_len, no_reply, packet, packet_count, packets_written, padded, Inbox,
    END_OF_MESSAGE, I2C_SPEED, PACKET_SIZE,
};

#[test]
fn constants() {
    assert_eq!(PACKET_SIZE, 255);
    assert_eq!(I2C_SPEED, 1000);
    assert_eq!(END_OF_MESSAGE, b'\n');
}

#[test]
fn packet_counts() {
    assert_eq!(packet_count(0), 0);
    assert_eq!(packet_count(1), 1);
    assert_eq!(packet_count(254), 1);
    assert_eq!(packet_count(255), 1);
    assert_eq!(packet_count(256), 2);
    assert_eq!(packet_count(510), 2);
    assert_eq!(packet_count(511), 3);
}

#[test]
fn padding_fills_up_with_zeros() {
    assert_eq!(padded(&[]), Vec::<u8>::new());
    let one = padded(&[7]);
    assert_eq!(one.len(), 255);
    assert_eq!(one[0], 7);
    assert!(one[1..].iter().all(|b| *b == 0));
    let exact: Vec<u8> = (0..255u32).map(|i| i as u8).collect();
    assert_eq!(padded(&exact), exact);
    let mut long = exact.clone();
    long.push(9);
    let whole = padded(&long);
    assert_eq!(whole.len(), 510);
    assert_eq!(&whole[..256], &long[..]);
    assert!(whole[256..].iter().all(|b| *b == 0));
}

#[test]
fn packets_are_the_slices_of_the_padded_message() {
    let message: Vec<u8> = (0..600u32).map(|i| (i % 251) as u8).collect();
    let whole = padded(&message);
    assert_eq!(whole.len(), 3 * 255);
    for i in 0..3 {
        assert_eq!(packet(&whole, i), Some(whole[i * 255..(i + 1) * 255].to_vec()));
    }
    assert_eq!(packet(&whole, 3), None);
    assert_eq!(packet(&whole, usize::MAX), None);
    assert_eq!(packet(&vec![1; 254], 0), None);
}

#[test]
fn end_of_message_is_a_newline() {
    assert!(ends_message(b"hello\n"));
    assert!(ends_message(b"\nhello"));
    assert!(!ends_message(b"hello"));
    assert!(!ends_message(b""));
}

#[test]
fn status_one_means_no_reply() {
    assert!(no_reply(1));
    assert!(!no_reply(0));
    assert!(!no_reply(2));
}

#[test]
fn message_length_fits_sixteen_bits_or_not() {
    assert_eq!(msg_len(&[]), Some(0));
    assert_eq!(msg_len(&[1, 2, 3]), Some(3));
    assert_eq!(msg_len(&vec![0; 65535]), Some(65535));
    assert_eq!(msg_len(&vec![0; 65536]), None);
}

#[test]
fn inbox_collects_until_a_packet_ends_the_message() {
    let mut inbox = Inbox::new();
    assert!(!inbox.complete);
    assert!(inbox.accept(b"abc"));
    assert!(inbox.accept(b""));
    assert!(!inbox.accept(b"de\nf"));
    assert_eq!(inbox.received, b"abcde\nf");
    assert!(inbox.complete);
    assert!(!inbox.accept(b"g"));
    assert_eq!(inbox.received, b"abcde\nfg");
}

#[test]
fn all_packets_but_the_last_are_written() {
    assert_eq!(packets_written(1), 0);
    assert_eq!(packets_written(255), 0);
    assert_eq!(packets_written(256), 1);
    assert_eq!(packets_written(510), 1);
    assert_eq!(packets_written(511), 2);
}
