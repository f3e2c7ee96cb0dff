//! What the proxy decides about connections and requests.

use vstd::prelude::*;
use vstd::string::StringExecFns;
use vstd::utf8::encode_utf8;

use crate::auth::token::Pubkeys;
use crate::auth::RfbAuthentication;
use crate::data::same_text;
use crate::messages::{server, Error};
use crate::outside::{base64_decode, base64_decoded, clean_path, distinct_keys, json_pairs};
use crate::outside::{json_texts, pairs_map, parent_at, path_cleaned, rooted, vec_view};

verus! {

/// What came of waiting for the client.
#[derive(Debug)]
pub enum ClientFrame {
    /// A message with data.
    Binary(Vec<u8>),
    /// The client closes the connection.
    Close,
    /// A message of any other kind.
    Other,
    /// The connection failed.
    Failed,
    /// The connection was over.
    Ended,
}

/// The mathematical counterpart of [`ClientFrame`].
pub enum ClientFrameView {
    Binary(Seq<u8>),
    Close,
    Other,
    Failed,
    Ended,
}

impl View for ClientFrame {
    type V = ClientFrameView;

    open spec fn view(&self) -> ClientFrameView {
        match self {
            ClientFrame::Binary(payload) => ClientFrameView::Binary(payload@),
            ClientFrame::Close => ClientFrameView::Close,
            ClientFrame::Other => ClientFrameView::Other,
            ClientFrame::Failed => ClientFrameView::Failed,
            ClientFrame::Ended => ClientFrameView::Ended,
        }
    }
}

/// What to do with what came in on one side of a connection.
#[derive(Debug)]
pub enum Relay {
    /// Write data to the other side, and go on.
    Write(Vec<u8>),
    /// Go on.
    Skip,
    /// Stop, and shut the other side down.
    Stop,
    /// Give up with an error.
    Fail,
}

/// The mathematical counterpart of [`Relay`].
pub enum RelayView {
    Write(Seq<u8>),
    Skip,
    Stop,
    Fail,
}

impl View for Relay {
    type V = RelayView;

    open spec fn view(&self) -> RelayView {
        match self {
            Relay::Write(data) => RelayView::Write(data@),
            Relay::Skip => RelayView::Skip,
            Relay::Stop => RelayView::Stop,
            Relay::Fail => RelayView::Fail,
        }
    }
}

/// What becomes of what came from the client, where the data is forwarded as it is. Anything but
/// data is passed over, even a failure, until the connection is over.
pub open spec fn forwarded_frame(frame: ClientFrameView) -> RelayView {
    match frame {
        ClientFrameView::Binary(payload) => RelayView::Write(payload),
        ClientFrameView::Ended => RelayView::Stop,
        _ => RelayView::Skip,
    }
}

/// What becomes of what one read from the server gave, where the data is forwarded as it is.
pub open spec fn forwarded_read(data: Option<Seq<u8>>) -> RelayView {
    match data {
        Some(d) => if d.len() > 0 {
            RelayView::Write(d)
        } else {
            RelayView::Stop
        },
        None => RelayView::Stop,
    }
}

/// Decides what to do with what came from the client, where the data is forwarded as it is.
pub fn forward_client_frame(frame: ClientFrame) -> (relay: Relay)
    ensures
        relay@ == forwarded_frame(frame@),
{
    match frame {
        ClientFrame::Binary(payload) => Relay::Write(payload),
        ClientFrame::Ended => Relay::Stop,
        _ => Relay::Skip,
    }
}

/// Decides what to do with what one read from the server gave, where the data is forwarded as it
/// is. There is none if it failed.
pub fn forward_server_read(data: Option<Vec<u8>>) -> (relay: Relay)
    ensures
        relay@ == forwarded_read(vec_view(data)),
{
    match data {
        Some(d) => if d.len() > 0 {
            Relay::Write(d)
        } else {
            Relay::Stop
        },
        None => Relay::Stop,
    }
}

/// Decides what to do with what came from the client, where the messages are interpreted. That the
/// client has nothing more to say is no reason to stop: something else may still be written.
pub fn relay_client_frame(frame: ClientFrame) -> (relay: Relay)
    ensures
        relay@ == (match frame@ {
            ClientFrameView::Binary(payload) => RelayView::Write(payload),
            ClientFrameView::Close => RelayView::Stop,
            ClientFrameView::Other => RelayView::Skip,
            ClientFrameView::Failed => RelayView::Fail,
            ClientFrameView::Ended => RelayView::Skip,
        }),
{
    match frame {
        ClientFrame::Binary(payload) => Relay::Write(payload),
        ClientFrame::Close => Relay::Stop,
        ClientFrame::Other => Relay::Skip,
        ClientFrame::Failed => Relay::Fail,
        ClientFrame::Ended => Relay::Skip,
    }
}

/// Decides what to do with what came from the server, where the messages are interpreted. There is
/// no message if the connection was over.
pub fn relay_server_message(message: Result<Option<server::Message>, Error>) -> (relay: Relay)
    ensures
        relay@ == (match message {
            Ok(Some(m)) => RelayView::Write(m@.payload()),
            Ok(None) => RelayView::Stop,
            Err(_) => RelayView::Fail,
        }),
{
    match message {
        Ok(Some(m)) => Relay::Write(m.into_data()),
        Ok(None) => Relay::Stop,
        Err(_) => Relay::Fail,
    }
}

/// How to serve a request.
#[derive(Clone, Copy, Debug, PartialEq, Eq, Structural)]
pub enum Route {
    /// As an RFB connection.
    WebSocket,
    /// There is nothing there.
    NotFound,
    /// From the files in the current working directory.
    File,
}

/// The route of a request for a clean path: the RFB websocket is in `/ws`, everything else is a
/// file.
pub open spec fn route_of(path: Seq<char>, is_upgrade: bool) -> Route {
    if path == "/ws"@ {
        if is_upgrade {
            Route::WebSocket
        } else {
            Route::NotFound
        }
    } else {
        Route::File
    }
}

/// The clean path of a request, with the query that came with it.
pub open spec fn target_of(path: Seq<char>, query: Option<Seq<char>>) -> Seq<char> {
    match query {
        Some(q) => path + "?"@ + q,
        None => path,
    }
}

/// A text that may be missing.
pub open spec fn str_view(text: Option<&str>) -> Option<Seq<char>> {
    match text {
        Some(t) => Some(t@),
        None => None,
    }
}

/// Decides how to serve a request for a clean path.
pub fn route(path: &str, is_upgrade: bool) -> (route: Route)
    ensures
        route == route_of(path@, is_upgrade),
{
    if same_text(path, "/ws") {
        if is_upgrade {
            Route::WebSocket
        } else {
            Route::NotFound
        }
    } else {
        Route::File
    }
}

/// Puts a path and a query together.
pub fn join_query(path: String, query: Option<&str>) -> (target: String)
    ensures
        target@ == target_of(path@, str_view(query)),
{
    let mut target = path;
    if let Some(q) = query {
        target.append("?");
        target.append(q);
    }
    target
}

/// Cleans the path of a request so that it can't be used to access files outside the current
/// working directory. Returns the clean path, and the same path with the query that came with it.
pub fn clean_target(path: &str, query: Option<&str>) -> (r: (String, String))
    ensures
        r.0@ == path_cleaned(path@),
        r.1@ == target_of(path_cleaned(path@), str_view(query)),
        rooted(path@) ==> rooted(r.0@) && forall|i: int| !#[trigger] parent_at(r.0@, i),
{
    let cleaned = clean_path(path);
    let target = join_query(cleaned.clone(), query);
    (cleaned, target)
}

/// Decides how to serve a request: the route, which goes by the clean path, and the clean path with
/// the query that came with it.
pub fn serve(path: &str, query: Option<&str>, is_upgrade: bool) -> (r: (Route, String))
    ensures
        r.0 == route_of(path_cleaned(path@), is_upgrade),
        r.1@ == target_of(path_cleaned(path@), str_view(query)),
        rooted(path@) ==> rooted(path_cleaned(path@)) && forall|i: int|
            !#[trigger] parent_at(path_cleaned(path@), i),
{
    let (cleaned, target) = clean_target(path, query);
    (route(cleaned.as_str(), is_upgrade), target)
}

/// Decides on the subprotocol of a connection that is not made through HTTP: the one that the
/// client asks for, or a refusal with this text if it does not ask for any.
pub fn negotiate(protocol: Option<Vec<u8>>) -> (r: Result<Vec<u8>, String>)
    ensures
        vec_view(protocol) matches Some(p) ==> (r matches Ok(v) && v@ == p),
        protocol is None ==> (r matches Err(text) && text@ == "This is a WebSocket server"@),
{
    match protocol {
        Some(p) => Ok(p),
        None => Err("This is a WebSocket server".to_owned()),
    }
}

/// Whether audio is enabled: by a flag, or by a variable of the environment that is not empty.
pub fn audio_enabled(flag: bool, variable: &str) -> (enabled: bool)
    ensures
        enabled == (flag || variable@.len() > 0),
{
    proof {
        reveal_strlit("");
        assert(variable@.len() == 0 ==> variable@ =~= ""@);
    }
    flag || !same_text(variable, "")
}

/// Why the proxy cannot be set up.
#[derive(Debug)]
pub enum SetupError {
    /// The identifier of the repl and the public keys must be passed together.
    Incomplete,
    /// The public keys are not a JSON object that maps strings to strings, for that reason.
    PubkeysFormat(String),
    /// One of the public keys is not in base64, for that reason.
    PubkeyEncoding(String),
}

/// The mathematical counterpart of [`SetupError`].
pub enum SetupErrorView {
    Incomplete,
    PubkeysFormat(Seq<char>),
    PubkeyEncoding(Seq<char>),
}

impl View for SetupError {
    type V = SetupErrorView;

    open spec fn view(&self) -> SetupErrorView {
        match self {
            SetupError::Incomplete => SetupErrorView::Incomplete,
            SetupError::PubkeysFormat(reason) => SetupErrorView::PubkeysFormat(reason@),
            SetupError::PubkeyEncoding(reason) => SetupErrorView::PubkeyEncoding(reason@),
        }
    }
}

impl SetupErrorView {
    /// The text of an error.
    pub open spec fn text(self) -> Seq<char> {
        match self {
            SetupErrorView::Incomplete => "--replid and --pubkeys must be passed together"@,
            SetupErrorView::PubkeysFormat(reason) => reason,
            SetupErrorView::PubkeyEncoding(reason) => reason,
        }
    }
}

impl SetupError {
    /// The text of the error.
    pub fn to_string(&self) -> (text: String)
        ensures
            text@ == self@.text(),
    {
        match self {
            SetupError::Incomplete => "--replid and --pubkeys must be passed together".to_owned(),
            SetupError::PubkeysFormat(reason) => reason.clone(),
            SetupError::PubkeyEncoding(reason) => reason.clone(),
        }
    }
}

/// The mathematical counterpart of [`RfbAuthentication`].
pub enum RfbAuthenticationView {
    Null,
    Passthrough,
    Replit(Seq<char>, Map<Seq<char>, Seq<u8>>),
}

impl View for RfbAuthentication {
    type V = RfbAuthenticationView;

    open spec fn view(&self) -> RfbAuthenticationView {
        match self {
            RfbAuthentication::Null => RfbAuthenticationView::Null,
            RfbAuthentication::Passthrough => RfbAuthenticationView::Passthrough,
            RfbAuthentication::Replit { replid, pubkeys } => RfbAuthenticationView::Replit(
                replid@,
                pubkeys@,
            ),
        }
    }
}

/// Whether every key is in base64.
pub open spec fn all_encoded(texts: Map<Seq<char>, Seq<char>>) -> bool {
    forall|id: Seq<char>| #[trigger]
        texts.contains_key(id) ==> base64_decoded(encode_utf8(texts[id])) is Ok
}

/// The keys that the texts stand for.
pub open spec fn decoded_keys(texts: Map<Seq<char>, Seq<char>>) -> Map<Seq<char>, Seq<u8>> {
    texts.map_values(|text: Seq<char>| base64_decoded(encode_utf8(text))->Ok_0)
}

/// Whether a reason is what is wrong with one of the keys. Where there are several of them, it may
/// be any one's.
pub open spec fn wrong_key(texts: Map<Seq<char>, Seq<char>>, reason: Seq<char>) -> bool {
    exists|id: Seq<char>| #[trigger]
        texts.contains_key(id) && base64_decoded(encode_utf8(texts[id])) == Err::<Seq<u8>, _>(
            reason,
        )
}

/// Whether an outcome is right for the arguments. With a repl it is the Replit authentication.
/// Otherwise the handshakes have to be followed where there is audio; where there is none, the
/// server and the client can talk directly to each other, since none of the messages need to be
/// parsed.
pub open spec fn right_authentication(
    replid: Option<Seq<char>>,
    pubkeys: Option<Seq<char>>,
    enable_audio: bool,
    outcome: Result<RfbAuthenticationView, SetupErrorView>,
) -> bool {
    match (replid, pubkeys) {
        (Some(id), Some(text)) => match json_texts(text) {
            Err(reason) => outcome == Err::<RfbAuthenticationView, _>(
                SetupErrorView::PubkeysFormat(reason),
            ),
            Ok(texts) => if all_encoded(texts) {
                outcome == Ok::<_, SetupErrorView>(
                    RfbAuthenticationView::Replit(id, decoded_keys(texts)),
                )
            } else {
                outcome matches Err(SetupErrorView::PubkeyEncoding(reason)) && wrong_key(
                    texts,
                    reason,
                )
            },
        },
        (None, None) => outcome == Ok::<_, SetupErrorView>(
            if enable_audio {
                RfbAuthenticationView::Passthrough
            } else {
                RfbAuthenticationView::Null
            },
        ),
        _ => outcome == Err::<RfbAuthenticationView, _>(SetupErrorView::Incomplete),
    }
}

proof fn lemma_pairs_map_prefix(pairs: Seq<(String, String)>, i: int)
    requires
        0 <= i < pairs.len(),
    ensures
        pairs_map(pairs.take(i + 1)) == pairs_map(pairs.take(i)).insert(pairs[i].0@, pairs[i].1@),
{
    assert(pairs.take(i + 1).drop_last() =~= pairs.take(i));
}

proof fn lemma_pairs_map_value(pairs: Seq<(String, String)>, i: int, n: int)
    requires
        distinct_keys(pairs),
        0 <= i < n <= pairs.len(),
    ensures
        pairs_map(pairs.take(n)).contains_key(pairs[i].0@),
        pairs_map(pairs.take(n))[pairs[i].0@] == pairs[i].1@,
    decreases n,
{
    lemma_pairs_map_prefix(pairs, n - 1);
    if i < n - 1 {
        lemma_pairs_map_value(pairs, i, n - 1);
        assert(pairs[i].0@ != pairs[n - 1].0@);
    }
}

/// Decodes public keys.
pub fn decode_pubkeys(pairs: Vec<(String, String)>) -> (r: Result<Pubkeys, SetupError>)
    requires
        distinct_keys(pairs@),
    ensures
        match r {
            Ok(keys) => all_encoded(pairs_map(pairs@)) && keys@ == decoded_keys(pairs_map(pairs@)),
            Err(e) => !all_encoded(pairs_map(pairs@)) && (
            e matches SetupError::PubkeyEncoding(reason) && wrong_key(
                pairs_map(pairs@),
                reason@,
            )),
        },
{
    let mut keys = Pubkeys::new();
    let mut i: usize = 0;
    assert(pairs_map(pairs@.take(0)) =~= Map::<Seq<char>, Seq<char>>::empty());
    assert(keys@ =~= decoded_keys(pairs_map(pairs@.take(0))));
    while i < pairs.len()
        invariant
            i <= pairs@.len(),
            distinct_keys(pairs@),
            all_encoded(pairs_map(pairs@.take(i as int))),
            keys@ == decoded_keys(pairs_map(pairs@.take(i as int))),
        decreases pairs@.len() - i,
    {
        let ghost before = pairs_map(pairs@.take(i as int));
        match base64_decode(pairs[i].1.as_str().as_bytes()) {
            Err(reason) => {
                proof {
                    lemma_pairs_map_value(pairs@, i as int, pairs@.len() as int);
                    assert(pairs@.take(pairs@.len() as int) =~= pairs@);
                    assert(pairs_map(pairs@).contains_key(pairs@[i as int].0@));
                }
                return Err(SetupError::PubkeyEncoding(reason));
            },
            Ok(key) => {
                keys.insert(pairs[i].0.clone(), key);
                proof {
                    lemma_pairs_map_prefix(pairs@, i as int);
                    let after = pairs_map(pairs@.take(i + 1));
                    assert(decoded_keys(after) =~= decoded_keys(before).insert(
                        pairs@[i as int].0@,
                        key@,
                    ));
                    assert forall|id: Seq<char>| #[trigger]
                        after.contains_key(id) implies base64_decoded(
                        encode_utf8(after[id]),
                    ) is Ok by {
                        if id != pairs@[i as int].0@ {
                            assert(before.contains_key(id));
                        }
                    }
                }
            },
        }
        i = i + 1;
    }
    assert(pairs@.take(i as int) =~= pairs@);
    Ok(keys)
}

/// Selects the authentication to use.
pub fn select_authentication(replid: Option<&str>, pubkeys: Option<&str>, enable_audio: bool) -> (r:
    Result<RfbAuthentication, SetupError>)
    ensures
        right_authentication(
            str_view(replid),
            str_view(pubkeys),
            enable_audio,
            match r {
                Ok(a) => Ok(a@),
                Err(e) => Err(e@),
            },
        ),
{
    match (replid, pubkeys) {
        (Some(id), Some(text)) => match json_pairs(text) {
            Err(reason) => Err(SetupError::PubkeysFormat(reason)),
            Ok(pairs) => match decode_pubkeys(pairs) {
                Ok(keys) => Ok(RfbAuthentication::Replit { replid: id.to_owned(), pubkeys: keys }),
                Err(e) => Err(e),
            },
        },
        (None, None) => if enable_audio {
            Ok(RfbAuthentication::Passthrough)
        } else {
            Ok(RfbAuthentication::Null)
        },
        _ => Err(SetupError::Incomplete),
    }
}

/// All that is written by one side of a connection, one relay after the other.
pub open spec fn written(relays: Seq<RelayView>) -> Seq<u8>
    decreases relays.len(),
{
    if relays.len() == 0 {
        Seq::empty()
    } else {
        written(relays.drop_last()) + match relays.last() {
            RelayView::Write(data) => data,
            _ => Seq::empty(),
        }
    }
}

/// The data of all frames, one after the other.
pub open spec fn frame_data(frames: Seq<ClientFrameView>) -> Seq<u8>
    decreases frames.len(),
{
    if frames.len() == 0 {
        Seq::empty()
    } else {
        frame_data(frames.drop_last()) + match frames.last() {
            ClientFrameView::Binary(payload) => payload,
            _ => Seq::empty(),
        }
    }
}

/// The data of all reads, one after the other.
pub open spec fn read_data(reads: Seq<Option<Seq<u8>>>) -> Seq<u8>
    decreases reads.len(),
{
    if reads.len() == 0 {
        Seq::empty()
    } else {
        read_data(reads.drop_last()) + match reads.last() {
            Some(data) => data,
            None => Seq::empty(),
        }
    }
}

/// Nothing is done with the bytes of the client where they are forwarded: the server is sent all of
/// them, in order, and nothing else.
pub proof fn law_client_is_forwarded_as_is(frames: Seq<ClientFrameView>)
    ensures
        written(frames.map_values(|frame: ClientFrameView| forwarded_frame(frame))) == frame_data(
            frames,
        ),
    decreases frames.len(),
{
    let forward = |frame: ClientFrameView| forwarded_frame(frame);
    if frames.len() > 0 {
        law_client_is_forwarded_as_is(frames.drop_last());
        assert(frames.map_values(forward).drop_last() =~= frames.drop_last().map_values(forward));
    }
}

/// Nothing is done with the bytes of the server where they are forwarded: the client is sent all of
/// them, in order, and nothing else.
pub proof fn law_server_is_forwarded_as_is(reads: Seq<Option<Seq<u8>>>)
    ensures
        written(reads.map_values(|data: Option<Seq<u8>>| forwarded_read(data))) == read_data(reads),
    decreases reads.len(),
{
    let forward = |data: Option<Seq<u8>>| forwarded_read(data);
    if reads.len() > 0 {
        law_server_is_forwarded_as_is(reads.drop_last());
        assert(reads.map_values(forward).drop_last() =~= reads.drop_last().map_values(forward));
        if let Some(data) = reads.last() {
            if data.len() == 0 {
                assert(data =~= Seq::<u8>::empty());
            }
        }
    }
}

/// Where data is forwarded as it is, the client's side stops only when the connection is over, and
/// the server's side stops when there is nothing more to read or reading fails. Neither gives up.
pub proof fn law_forwarding_stops(frame: ClientFrameView, data: Option<Seq<u8>>)
    ensures
        forwarded_frame(frame) is Stop <==> frame is Ended,
        forwarded_frame(frame) is Write <==> frame is Binary,
        !(forwarded_frame(frame) is Fail),
        forwarded_read(data) is Stop <==> data is None || data == Some(Seq::<u8>::empty()),
        forwarded_read(data) is Write || forwarded_read(data) is Stop,
{
    if let Some(d) = data {
        assert(d.len() == 0 ==> d =~= Seq::<u8>::empty());
    }
}

/// Only `/ws` leads to an RFB connection, and only where the client asks for an upgrade; without
/// that there is nothing there. Everything else is a file, whether or not it does.
pub proof fn law_routes(path: Seq<char>, is_upgrade: bool)
    ensures
        route_of(path, is_upgrade) is WebSocket <==> path == seq!['/', 'w', 's'] && is_upgrade,
        route_of(path, is_upgrade) is NotFound <==> path == seq!['/', 'w', 's'] && !is_upgrade,
        route_of(path, is_upgrade) is File <==> path != seq!['/', 'w', 's'],
{
    reveal_strlit("/ws");
    assert("/ws"@ =~= seq!['/', 'w', 's']);
}

/// The query comes behind the path and a question mark, as it is; without one the path stands
/// alone.
pub proof fn law_targets(path: Seq<char>, query: Seq<char>)
    ensures
        target_of(path, None) == path,
        target_of(path, Some(query)) == path.push('?') + query,
{
    reveal_strlit("?");
    assert(target_of(path, Some(query)) =~= path.push('?') + query);
}

/// What is selected, and why. Without the identifier of a repl and without public keys, it goes by
/// the audio alone. With both it is the Replit authentication for that repl, with the key that each
/// text stands for, if all of them can be decoded. With one of them it is an error, as it is where
/// the keys are no JSON object or one of them is not in base64.
pub proof fn law_selected_authentication(
    replid: Option<Seq<char>>,
    pubkeys: Option<Seq<char>>,
    enable_audio: bool,
    outcome: Result<RfbAuthenticationView, SetupErrorView>,
)
    requires
        right_authentication(replid, pubkeys, enable_audio, outcome),
    ensures
        outcome == Ok::<_, SetupErrorView>(RfbAuthenticationView::Null) <==> replid is None
            && pubkeys is None && !enable_audio,
        outcome == Ok::<_, SetupErrorView>(RfbAuthenticationView::Passthrough) <==> replid is None
            && pubkeys is None && enable_audio,
        outcome == Err::<RfbAuthenticationView, _>(SetupErrorView::Incomplete) <==> (replid is None
            && pubkeys is Some) || (replid is Some && pubkeys is None),
        forall|reason: Seq<char>|
            (outcome == Err::<RfbAuthenticationView, _>(SetupErrorView::PubkeysFormat(reason)))
                <==> replid is Some && pubkeys is Some && #[trigger] json_texts(pubkeys->0) == Err::<
                Map<Seq<char>, Seq<char>>,
                _,
            >(reason),
        (outcome matches Ok(RfbAuthenticationView::Replit(id, keys)) ==> replid == Some(id)
            && pubkeys is Some && (json_texts(pubkeys->0) matches Ok(texts) && keys.dom()
            == texts.dom() && forall|name: Seq<char>| #[trigger]
            keys.contains_key(name) ==> base64_decoded(encode_utf8(texts[name])) == Ok::<
                _,
                Seq<char>,
            >(keys[name]))),
        (replid is Some && pubkeys is Some) ==> (json_texts(pubkeys->0) matches Ok(texts) ==> (
        outcome is Ok <==> forall|name: Seq<char>| #[trigger]
            texts.contains_key(name) ==> base64_decoded(encode_utf8(texts[name])) is Ok)),
        (outcome matches Err(SetupErrorView::PubkeyEncoding(reason)) ==> pubkeys is Some && (
        json_texts(pubkeys->0) matches Ok(texts) && exists|name: Seq<char>| #[trigger]
            texts.contains_key(name) && base64_decoded(encode_utf8(texts[name])) == Err::<
                Seq<u8>,
                _,
            >(reason))),
{
    match (replid, pubkeys) {
        (Some(_), Some(text)) => match json_texts(text) {
            Ok(texts) => {
                assert(decoded_keys(texts).dom() =~= texts.dom());
            },
            Err(_) => {},
        },
        _ => {},
    }
}

} // verus!
