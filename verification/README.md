# rfbproxy

An RFB proxy that enables WebSockets and audio.

The proxy accepts WebSocket connections and connects each of them to a TCP Remote Framebuffer
server. Audio is off unless `--enable-audio` is passed or the environment variable
`VNC_ENABLE_EXPERIMENTAL_AUDIO` is set to a non-empty value.

## Layout

`src/` is the library, written in [Verus](https://github.com/verus-lang/verus). It does no I/O: it
takes the bytes that have arrived and decides what to send, to whom, and what to wait for. What each
function does is stated in its contract and proved.

| Module     | What is in it                                                                    |
|------------|----------------------------------------------------------------------------------|
| `messages` | Parsers for RFB messages, and what holds of streams of messages                  |
| `auth`     | The handshakes: passing them through, or standing in for the server              |
| `audio`    | Audio frames, their WebM container, and the messages that they are sent in       |
| `rfb`      | A connection with audio: what to do about each message                           |
| `proxy`    | Plain forwarding, the routes of HTTP requests, and the choice of authentication   |
| `data`     | Comparing and writing bytes                                                      |
| `text`     | Texts of messages and errors                                                     |
| `outside`  | The calls into other crates, and what is relied on about them                    |

Proof functions whose names start with `law_` state what holds of several functions together: for
instance that a stream can be cut into pieces anywhere, that the server gets everything that is not
about audio, or that nobody gets past the Replit authentication without a good login.

`app/` is the program around the library: arguments, sockets, the audio device and the codecs.
`tests/` holds the tests of the library.

## Replit Audio RFB extension

A client that lists the pseudo-encoding 0x52706C41 is sent a pseudo-rectangle with the version of
the extension and the codecs that it can ask for: 0 is Opus in a WebM container, 1 is MP3 in an
MPEG-1 container. All other messages of the extension have the message type 245, a submessage type,
and a payload behind its length in two bytes.

| Submessage type | From the client          | From the server                     |
|-----------------|--------------------------|-------------------------------------|
| 0               | Start Encoder            | whether the encoder was started     |
| 1               | Frame Request            | a frame                             |
| 2               | Start Continuous Updates | whether frames will be sent         |

A frame is a timestamp in four bytes and the encoded data. The most significant bit of the timestamp
marks a keyframe, the others count the milliseconds from the first frame. Continuous updates end with
a message that says so, after the last frame, whatever the reason. Once a request to stop the encoder
has been acknowledged no more frames are sent.

An encoder has one or two channels. A request for any other number, or for a codec that does not
exist, is answered with a refusal.
