use ysos::input::{edit_line, InputBuffer, Key, BUFFER_SIZE};
use ysos::serial::{receive, receive_byte};

#[test]
fn keys_come_out_in_typing_order() {
    let mut b = InputBuffer::new();
    assert!(b.push_key(Key::Unicode('a')));
    assert!(b.push_key(Key::RawKey));
    assert!(b.push_key(Key::Unicode('b')));
    assert_eq!(b.try_pop_key(), Some(Key::Unicode('a')));
    assert_eq!(b.try_pop_key(), Some(Key::RawKey));
    assert_eq!(b.try_pop_key(), Some(Key::Unicode('b')));
    assert_eq!(b.try_pop_key(), None);
}

#[test]
fn a_full_buffer_drops_keys() {
    let mut b = InputBuffer::new();
    for _ in 0..BUFFER_SIZE {
        assert!(b.push_key(Key::Unicode('x')));
    }
    assert!(!b.push_key(Key::Unicode('y')));
    for _ in 0..BUFFER_SIZE {
        assert_eq!(b.try_pop_key(), Some(Key::Unicode('x')));
    }
    assert_eq!(b.try_pop_key(), None);
}

#[test]
fn line_editing() {
    let mut line = String::new();
    assert_eq!(edit_line(&mut line, Key::Unicode('l')), (false, "l".to_string()));
    assert_eq!(edit_line(&mut line, Key::Unicode('x')), (false, "x".to_string()));
    assert_eq!(edit_line(&mut line, Key::Unicode('\x7f')), (false, "\x08 \x08".to_string()));
    assert_eq!(edit_line(&mut line, Key::Unicode('s')), (false, "s".to_string()));
    assert_eq!(edit_line(&mut line, Key::RawKey), (false, String::new()));
    assert_eq!(line, "ls");
    assert_eq!(edit_line(&mut line, Key::Unicode('\r')), (true, "\n".to_string()));
    assert_eq!(line, "ls");
    let mut empty = String::new();
    assert_eq!(edit_line(&mut empty, Key::Unicode('\x08')), (false, String::new()));
    assert_eq!(empty, "");
}

#[test]
fn serial_bytes_become_characters() {
    assert_eq!(receive(&b"hi".to_vec()), vec!['h', 'i']);
    assert_eq!(receive(&"é€".as_bytes().to_vec()), vec!['é', '€']);
    // a stray continuation byte keeps everything after it pending
    assert_eq!(receive(&vec![0x80, b'a']), Vec::<char>::new());
    let mut pending = Vec::new();
    assert_eq!(receive_byte(&mut pending, 0xC3), None);
    assert_eq!(pending, vec![0xC3]);
    assert_eq!(receive_byte(&mut pending, 0xA9), Some('é'));
    assert!(pending.is_empty());
}
