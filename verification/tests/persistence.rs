//! The persistence codec: serializing and deserializing a store reproduces
//! an equal store, and corrupted text is rejected.

use nag::agenda::AgendaState;
use nag::codec::{decode_store, encode_store};
use nag::instant::Instant;
use nag::DateFormat;

fn words_of(msg: &str) -> Vec<String> {
    msg.split_whitespace().map(|w| w.to_string()).collect()
}

#[test]
fn store_round_trip() {
    let now = Instant::new(2000, 1, 1, 8, 0);
    let mut st = AgendaState::new();
    st.add_event(&now, &words_of("in 2 min buy milk"), DateFormat::DMY).unwrap();
    st.add_event(&now, &words_of("every day at 5pm do some exercise"), DateFormat::DMY).unwrap();
    st.add_event(&now, &words_of("on saturday at 8am go jogging"), DateFormat::DMY).unwrap();
    st.tag_event(&words_of("1 health and sport")).unwrap();

    let text = encode_store(&st);
    let back = decode_store(text.as_str()).unwrap();
    assert_eq!(back.events, st.events);
}

#[test]
fn empty_store_round_trip() {
    let st = AgendaState::new();
    let text = encode_store(&st);
    let back = decode_store(text.as_str()).unwrap();
    assert_eq!(back.events.len(), 0);
}

#[test]
fn corrupted_store_is_rejected() {
    assert!(decode_store("").is_none());
    assert!(decode_store("garbage").is_none());
    // A count with no events behind it.
    assert!(decode_store("2 ").is_none());
    // Leftover text after the events.
    let st = AgendaState::new();
    let mut text = encode_store(&st);
    text.push_str("extra");
    assert!(decode_store(text.as_str()).is_none());
}

#[test]
fn unsorted_store_is_rejected() {
    let now = Instant::new(2000, 1, 1, 8, 0);
    let mut st = AgendaState::new();
    st.add_event(&now, &words_of("in 2 min a"), DateFormat::DMY).unwrap();
    st.add_event(&now, &words_of("in 3 min b"), DateFormat::DMY).unwrap();
    st.events.swap(0, 1);
    let text = encode_store(&st);
    assert!(decode_store(text.as_str()).is_none());
}
