//! Reading messages.

use rfbproxy::messages::io::{
    check_message_length, get_compact, get_i32, get_u16, get_u32, get_u8, peek, peek_u8, read, skip,
    Cursor, MAX_MESSAGE_LENGTH,
};
use rfbproxy::messages::{client, server, Error, ParseError, PixelFormat};

#[test]
fn test_get_compact() -> Result<(), Error> {
    let data = vec![0x90, 0x4E];
    let mut cur = Cursor::new(&data[..]);
    assert_eq!(get_compact(&mut cur)?, 10000);
    Ok(())
}

#[test]
fn compact_lengths() {
    for (data, length) in [
        (vec![0x00], 0),
        (vec![0x7f], 127),
        (vec![0x80, 0x01], 128),
        (vec![0xff, 0x7f], 16383),
        (vec![0x80, 0x80, 0x01], 16384),
        (vec![0xff, 0xff, 0xff], 4194303),
    ] {
        let mut cur = Cursor::new(&data[..]);
        assert_eq!(get_compact(&mut cur).unwrap(), length);
        assert_eq!(cur.position(), data.len());
        for n in 0..data.len() {
            let mut cur = Cursor::new(&data[..n]);
            assert!(matches!(get_compact(&mut cur), Err(Error::Incomplete)));
        }
    }
}

#[test]
fn reads_move_on_and_peeks_do_not() {
    let data = [1u8, 2, 3, 0xff, 0xff, 0xff, 0xfe, 8, 9];
    let mut cur = Cursor::new(&data);
    assert_eq!(peek_u8(&cur).unwrap(), 1);
    assert_eq!(get_u8(&mut cur).unwrap(), 1);
    assert_eq!(get_u16(&mut cur).unwrap(), 0x0203);
    assert_eq!(peek(&cur, 2).unwrap(), vec![0xff, 0xff]);
    assert_eq!(get_i32(&mut cur).unwrap(), -2);
    assert_eq!(read(&mut cur, 2).unwrap(), &[8, 9]);
    assert_eq!(cur.remaining(), 0);
    assert!(matches!(get_u8(&mut cur), Err(Error::Incomplete)));
    assert!(matches!(peek_u8(&cur), Err(Error::Incomplete)));
    assert!(matches!(skip(&mut cur, 1), Err(Error::Incomplete)));
    assert!(read(&mut cur, 0).unwrap().is_empty());
    cur.set_position(3);
    assert_eq!(get_u32(&mut cur).unwrap(), 0xffff_fffe);
    cur.set_position(100);
    assert_eq!(cur.remaining(), 0);
    assert!(matches!(get_u16(&mut cur), Err(Error::Incomplete)));
    assert!(peek(&cur, 0).unwrap().is_empty());
}

#[test]
fn message_length_limit() {
    assert!(check_message_length(MAX_MESSAGE_LENGTH).is_ok());
    let err = check_message_length(MAX_MESSAGE_LENGTH + 1).unwrap_err();
    assert_eq!(
        err.to_string(),
        "message size is larger than the allowed limit: 4194305"
    );
}

#[test]
fn pixel_format_fields() {
    let format = PixelFormat::new(&[32, 24, 0, 1, 0, 255, 1, 0, 2, 3, 16, 8, 4, 0, 0, 0]);
    assert_eq!(format.bits_per_pixel, 32);
    assert_eq!(format.depth, 24);
    assert_eq!(format.big_endian_flag, 0);
    assert_eq!(format.true_colour_flag, 1);
    assert_eq!(format.red_max, 255);
    assert_eq!(format.green_max, 256);
    assert_eq!(format.blue_max, 515);
    assert_eq!(format.red_shift, 16);
    assert_eq!(format.green_shift, 8);
    assert_eq!(format.blue_shift, 4);
}

fn client(data: &[u8]) -> Result<client::Message, Error> {
    client::Message::parse(&mut Cursor::new(data))
}

fn server(data: &[u8], bytes_per_pixel: usize) -> Result<server::Message, Error> {
    server::Message::parse(&mut Cursor::new(data), bytes_per_pixel)
}

/// The bytes are one client message: it needs all of them, ignores what follows, and is read again
/// from its own data.
fn whole_client_message(data: &[u8]) -> client::Message {
    for n in 0..data.len() {
        assert!(matches!(client(&data[..n]), Err(Error::Incomplete)));
    }
    let mut longer = data.to_vec();
    longer.extend_from_slice(&[7, 7, 7]);
    let message = client(&longer).unwrap();
    assert_eq!(message.len(), data.len());
    assert_eq!(message.into_data(), data);
    client(data).unwrap()
}

fn whole_server_message(data: &[u8], bytes_per_pixel: usize) -> server::Message {
    for n in 0..data.len() {
        assert!(matches!(
            server(&data[..n], bytes_per_pixel),
            Err(Error::Incomplete)
        ));
    }
    let mut longer = data.to_vec();
    longer.extend_from_slice(&[7, 7, 7]);
    let message = server(&longer, bytes_per_pixel).unwrap();
    assert_eq!(message.len(), data.len());
    assert_eq!(message.into_data(), data);
    server(data, bytes_per_pixel).unwrap()
}

#[test]
fn client_messages_of_fixed_length() {
    let mut data = [0u8; 20];
    assert!(matches!(
        whole_client_message(&data),
        client::Message::SetPixelFormat(_)
    ));
    data[0] = 3;
    assert!(matches!(
        whole_client_message(&data[..10]),
        client::Message::FramebufferUpdateRequest(_)
    ));
    data[0] = 4;
    assert!(matches!(
        whole_client_message(&data[..8]),
        client::Message::KeyEvent(_)
    ));
    data[0] = 5;
    assert!(matches!(
        whole_client_message(&data[..6]),
        client::Message::PointerEvent(_)
    ));
    data[0] = 150;
    assert!(matches!(
        whole_client_message(&data[..10]),
        client::Message::EnableContinuousUpdates(_)
    ));
    data[0] = 255;
    assert!(matches!(
        whole_client_message(&data[..12]),
        client::Message::QemuClientMessage(_)
    ));
}

#[test]
fn client_messages_of_counted_length() {
    let message = whole_client_message(&[2, 0, 0, 2, 0, 0, 0, 7, 0xff, 0xff, 0xff, 0x20]);
    assert!(matches!(message, client::Message::SetEncodings(_)));
    assert_eq!(message.to_string(), "SetEncodings( 7 -224 )");

    let mut fence = vec![248, 0, 0, 0, 0, 0, 0, 0, 3];
    fence.extend_from_slice(&[1, 2, 3]);
    assert!(matches!(
        whole_client_message(&fence),
        client::Message::ClientFence(_)
    ));

    let mut size = vec![251, 0, 0, 10, 0, 20, 1, 0];
    size.extend_from_slice(&[0; 16]);
    assert!(matches!(
        whole_client_message(&size),
        client::Message::SetDesktopSize(_)
    ));
}

#[test]
fn client_cut_text() {
    assert!(matches!(
        whole_client_message(&[6, 0, 0, 0, 0, 0, 0, 2, b'h', b'i']),
        client::Message::ClientCutText(_)
    ));
    // Extended: minus five, the flags and one more byte.
    assert!(matches!(
        whole_client_message(&[6, 0, 0, 0, 0xff, 0xff, 0xff, 0xfb, 0, 0, 0, 1, 9]),
        client::Message::ClientCutText(_)
    ));
    let err = client(&[6, 0, 0, 0, 0x00, 0x40, 0x00, 0x01]).unwrap_err();
    assert!(matches!(
        err,
        Error::Other(ParseError::MessageTooLong(4194305))
    ));
    let err = client(&[6, 0, 0, 0, 0xff, 0xbf, 0xff, 0xff]).unwrap_err();
    assert!(matches!(
        err,
        Error::Other(ParseError::MessageTooLong(4194305))
    ));
    let err = client(&[6, 0, 0, 0, 0x80, 0, 0, 0]).unwrap_err();
    assert!(matches!(
        err,
        Error::Other(ParseError::MessageTooLong(0x8000_0000))
    ));
    // Too short for its flags: a message only once there is something behind it.
    let short = [6, 0, 0, 0, 0xff, 0xff, 0xff, 0xff, 1, 2, 3, 4];
    assert_eq!(client(&short).unwrap().len(), 9);
    assert!(matches!(client(&short[..9]), Err(Error::Incomplete)));
}

#[test]
fn replit_audio_client_messages() {
    let message = whole_client_message(&[245, 0, 0, 6, 1, 2, 0, 1, 0, 128]);
    assert_eq!(
        message.to_string(),
        "ReplitClientAudioStartEncoder([245, 0, 0, 6, 1, 2, 0, 1, 0, 128], true, 2, 1, 128)"
    );
    assert!(matches!(
        message,
        client::Message::ReplitClientAudioStartEncoder(_, true, 2, 1, 128)
    ));
    assert!(matches!(
        whole_client_message(&[245, 1, 0, 0]),
        client::Message::ReplitClientAudioFrameRequest(_)
    ));
    assert!(matches!(
        whole_client_message(&[245, 2, 0, 0]),
        client::Message::ReplitClientAudioStartContinuousUpdates(_)
    ));
}

#[test]
fn client_message_errors() {
    for (data, text) in [
        (
            vec![245, 0, 0, 5],
            "unexpected StartEncoder length: got 5, expected 6",
        ),
        (
            vec![245, 1, 0, 1],
            "unexpected FrameRequest length: got 1, expected 0",
        ),
        (
            vec![245, 2, 1, 0],
            "unexpected EnableContinuousUpdates length: got 256, expected 0",
        ),
        (
            vec![245, 3, 0, 0],
            "unsupported Replit Client submessage id: 3 [245, 3, 0, 0]",
        ),
        (
            vec![255, 1],
            "unsupported QEMU Client submessage id: 1 [255, 1]",
        ),
        (vec![9, 1], "unsupported client message id: 9 [9, 1]"),
    ] {
        assert_eq!(client(&data).unwrap_err().to_string(), text);
    }
    assert_eq!(client(&[]).unwrap_err().to_string(), "stream ended early");
}

#[test]
fn client_message_texts() {
    assert_eq!(
        client(&[4, 1, 0, 0, 0, 0, 0, 65]).unwrap().to_string(),
        "KeyEvent([4, 1, 0, 0, 0, 0, 0, 65])"
    );
    assert_eq!(
        client(&[245, 1, 0, 0]).unwrap().to_string(),
        "ReplitClientAudioFrameRequest([245, 1, 0, 0])"
    );
}

#[test]
fn server_messages() {
    let mut colors = vec![1, 0, 0, 0, 0, 2];
    colors.extend_from_slice(&[0; 12]);
    assert!(matches!(
        whole_server_message(&colors, 4),
        server::Message::SetColorMapEntries(_)
    ));
    assert!(matches!(
        whole_server_message(&[2], 4),
        server::Message::Bell(_)
    ));
    assert!(matches!(
        whole_server_message(&[3, 0, 0, 0, 0, 0, 0, 1, b'x'], 4),
        server::Message::ServerCutText(_)
    ));
    assert!(matches!(
        whole_server_message(&[150], 4),
        server::Message::EndOfContinuousUpdates(_)
    ));
    assert!(matches!(
        whole_server_message(&[248, 0, 0, 0, 0, 0, 0, 0, 1, 5], 4),
        server::Message::ServerFence(_)
    ));
    let err = server(&[245, 0, 0, 0], 4).unwrap_err();
    assert_eq!(err.to_string(), "unsupported server message id: 245");
}

/// A framebuffer update with one rectangle.
fn update(width: u8, height: u8, encoding: i32, content: &[u8]) -> Vec<u8> {
    let mut data = vec![0, 0, 0, 1, 0, 0, 0, 0, 0, width, 0, height];
    data.extend_from_slice(&encoding.to_be_bytes());
    data.extend_from_slice(content);
    data
}

#[test]
fn rectangles_in_all_encodings() {
    let mut palette = vec![0x40, 1, 1, 1, 2, 3, 4, 5, 6];
    palette.extend_from_slice(&[0; 4]);
    let mut large_palette = vec![0x40, 1, 2];
    large_palette.extend_from_slice(&[0; 9]);
    large_palette.extend_from_slice(&[3, 7, 7, 7]);
    for (width, height, encoding, content) in [
        // Raw
        (2, 3, 0, vec![0; 24]),
        // CopyRect
        (2, 3, 1, vec![0; 4]),
        // Tight, filled
        (2, 3, 7, vec![0x80, 1, 2, 3]),
        // Tight, JPEG
        (2, 3, 7, vec![0x90, 2, 1, 2]),
        // Tight, too small to be compressed
        (1, 3, 7, vec![0x00, 1, 2, 3, 4, 5, 6, 7, 8, 9]),
        // Tight, compressed
        (2, 3, 7, vec![0x00, 4, 1, 2, 3, 4]),
        // Tight, two colors
        (9, 2, 7, palette),
        // Tight, three colors
        (4, 3, 7, large_palette),
        // ZRLE
        (2, 3, 16, vec![0, 0, 0, 2, 1, 2]),
        // LastRect
        (0, 0, -224, vec![]),
        // Cursor
        (9, 2, -239, vec![0; 9 * 2 * 4 + 2 * 2]),
        // QEMU Extended Key Event
        (0, 0, -258, vec![]),
        // ExtendedDesktopSize
        (0, 0, -308, {
            let mut screens = vec![1, 0, 0, 0];
            screens.extend_from_slice(&[0; 16]);
            screens
        }),
        // VMware cursors
        (2, 1, 0x574d5664, {
            let mut cursor = vec![0];
            cursor.extend_from_slice(&[0; 1 + 2 * 8]);
            cursor
        }),
        (2, 1, 0x574d5664, {
            let mut cursor = vec![1];
            cursor.extend_from_slice(&[0; 1 + 8]);
            cursor
        }),
    ] {
        let data = update(width, height, encoding, &content);
        assert!(matches!(
            whole_server_message(&data, 4),
            server::Message::FramebufferUpdate(_)
        ));
    }
}

#[test]
fn last_rectangle_ends_an_update() {
    let mut data = update(0, 0, -224, &[]);
    data[2] = 0xff;
    data[3] = 0xff;
    assert_eq!(server(&data, 4).unwrap().len(), 16);
    let mut two = update(1, 1, 0, &[1, 2, 3, 4]);
    two[3] = 2;
    assert!(matches!(server(&two, 4), Err(Error::Incomplete)));
    two.extend_from_slice(&[0, 0, 0, 0, 0, 1, 0, 1, 0, 0, 0, 1, 9, 9, 9, 9]);
    assert_eq!(whole_server_message(&two, 4).len(), 36);
}

#[test]
fn rectangle_errors() {
    for (data, text) in [
        (update(1, 1, 5, &[]), "unsupported encoding type: 5"),
        (
            update(1, 1, 0x52706c41, &[]),
            "unsupported encoding type: 1383099457",
        ),
        (
            update(1, 1, 7, &[0x40, 2]),
            "unsupported Tight filter: 2",
        ),
        (
            update(1, 1, 0x574d5664, &[2]),
            "unsupported VMWare Cursor type: 2",
        ),
        (
            update(1, 1, 16, &[0, 0x40, 0, 1]),
            "message size is larger than the allowed limit: 4194305",
        ),
    ] {
        assert_eq!(server(&data, 4).unwrap_err().to_string(), text);
    }
    // More pixels than could ever arrive.
    assert!(matches!(
        server(&update(255, 255, 0, &[]), usize::MAX),
        Err(Error::Incomplete)
    ));
}

#[test]
fn streams_can_be_cut_anywhere() {
    let mut stream = vec![4, 1, 0, 0, 0, 0, 0, 65];
    stream.extend_from_slice(&[5, 0, 0, 1, 0, 2]);
    stream.extend_from_slice(&[245, 1, 0, 0]);
    stream.extend_from_slice(&[6, 0]);
    for cut in 0..stream.len() {
        let mut buffer = stream[..cut].to_vec();
        let mut messages = Vec::new();
        while let Ok(message) = client(&buffer) {
            buffer.drain(..message.len());
            messages.push(message.into_data());
        }
        buffer.extend_from_slice(&stream[cut..]);
        while let Ok(message) = client(&buffer) {
            buffer.drain(..message.len());
            messages.push(message.into_data());
        }
        assert_eq!(messages.len(), 3);
        messages.push(buffer);
        assert_eq!(messages.concat(), stream);
    }
}
