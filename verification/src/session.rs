//! A session of the relay: its setup, its streams and its end.
use crate::client::MOQTClient;
use crate::control::ControlMessage;
use crate::location::Location;
use crate::message::TerminationCode;
use crate::names::{copy_bytes, FullTrackName, TrackName};
use crate::names;
use crate::outside::DatagramFields;
use crate::outside;
use crate::pairs::{KeyValuePair, PairView};
use crate::pairs;
use crate::session_context::{RequestMaps, SessionContext};
use crate::stream_id::{build_stream_id, HeaderInfo, StreamId};
use crate::stream_id;
use crate::subscription::CachedObject;
use crate::table::Key;
use crate::table;
use crate::text::{split_all, trim};
use crate::text;
use crate::track::{Object, Track, TrackEvent};
use crate::track_manager::{PublisherAlias, TrackManager};
use vstd::prelude::*;

verus! {

/// The protocol versions that the relay speaks, with commas between them.
pub const SUPPORTED_VERSIONS: &'static str = "moqt-16";

/// The client and the relay have no protocol version in common.
#[derive(Debug, Clone, Copy, PartialEq, Eq, Structural)]
pub struct NoCommonVersion;

pub struct Session {}

/// The value of the first header of a name.
pub open spec fn header_value(headers: Seq<(String, String)>, name: Seq<char>) -> Option<Seq<char>>
    decreases headers.len(),
{
    if headers.len() == 0 {
        None
    } else if headers[0].0@ == name {
        Some(headers[0].1@)
    } else {
        header_value(headers.skip(1), name)
    }
}

/// The protocol versions that a client offers in its headers, each in quotes.
pub open spec fn offered(headers: Seq<(String, String)>) -> Seq<Seq<char>> {
    match header_value(headers, "wt-available-protocols"@) {
        Some(v) => text::split(v, ',').map_values(|p: Seq<char>| text::trimmed(p)),
        None => Seq::empty(),
    }
}

/// A text in quotes.
pub open spec fn quoted(v: Seq<char>) -> Seq<char> {
    seq!['"'] + v + seq!['"']
}

/// The first of some versions that is offered.
pub open spec fn first_offered(versions: Seq<Seq<char>>, offers: Seq<Seq<char>>) -> Option<
    Seq<char>,
>
    decreases versions.len(),
{
    if versions.len() == 0 {
        None
    } else if offers.contains(quoted(versions[0])) {
        Some(versions[0])
    } else {
        first_offered(versions.skip(1), offers)
    }
}

/// The version that the relay selects for a client.
pub open spec fn selected(headers: Seq<(String, String)>) -> Option<Seq<char>> {
    first_offered(text::split(SUPPORTED_VERSIONS@, ','), offered(headers))
}

/// A version is selected if the relay and the client have one in common, and then it is one that
/// both speak; of several it is the one that the relay names first.
pub proof fn law_selected_version_is_common(versions: Seq<Seq<char>>, offers: Seq<Seq<char>>)
    ensures
        match first_offered(versions, offers) {
            Some(v) => exists|i: int|
                {
                    &&& 0 <= i < versions.len()
                    &&& #[trigger] versions[i] == v
                    &&& offers.contains(quoted(v))
                    &&& forall|j: int|
                        0 <= j < i ==> !offers.contains(quoted(#[trigger] versions[j]))
                },
            None => forall|i: int|
                0 <= i < versions.len() ==> !offers.contains(quoted(#[trigger] versions[i])),
        },
    decreases versions.len(),
{
    if versions.len() > 0 && !offers.contains(quoted(versions[0])) {
        let rest = versions.skip(1);
        law_selected_version_is_common(rest, offers);
        match first_offered(rest, offers) {
            Some(v) => {
                let i = choose|i: int|
                    {
                        &&& 0 <= i < rest.len()
                        &&& #[trigger] rest[i] == v
                        &&& offers.contains(quoted(v))
                        &&& forall|j: int|
                            0 <= j < i ==> !offers.contains(quoted(#[trigger] rest[j]))
                    };
                assert(versions[i + 1] == v);
                assert forall|j: int| 0 <= j < i + 1 implies !offers.contains(
                    quoted(#[trigger] versions[j]),
                ) by {
                    if j > 0 {
                        assert(rest[j - 1] == versions[j]);
                    }
                }
            },
            None => {
                assert forall|i: int| 0 <= i < versions.len() implies !offers.contains(
                    quoted(#[trigger] versions[i]),
                ) by {
                    if i > 0 {
                        assert(rest[i - 1] == versions[i]);
                    }
                }
            },
        }
    } else if versions.len() > 0 {
        assert(versions[0] == versions[0]);
    }
}

fn find_header(headers: &Vec<(String, String)>, name: &str) -> (r: Option<String>)
    ensures
        match r {
            Some(v) => header_value(headers@, name@) == Some(v@),
            None => header_value(headers@, name@) is None,
        },
{
    let wanted = name.to_owned();
    let mut i: usize = 0;
    assert(headers@.skip(0) =~= headers@);
    while i < headers.len()
        invariant
            i <= headers@.len(),
            wanted@ == name@,
            header_value(headers@, name@) == header_value(headers@.skip(i as int), name@),
        decreases headers@.len() - i,
    {
        assert(headers@.skip(i as int)[0] == headers@[i as int]);
        assert(headers@.skip(i as int).skip(1) =~= headers@.skip(i + 1));
        if headers[i].0 == wanted {
            return Some(headers[i].1.clone());
        }
        i = i + 1;
    }
    None
}

fn offers(list: &Vec<String>, v: &String) -> (b: bool)
    ensures
        b == text::texts(list@).contains(quoted(v@)),
{
    let mut q = "\"".to_owned();
    q.append(v.as_str());
    q.append("\"");
    proof {
        reveal_strlit("\"");
        assert(q@ =~= quoted(v@));
    }
    let mut i: usize = 0;
    while i < list.len()
        invariant
            i <= list@.len(),
            q@ == quoted(v@),
            forall|j: int| 0 <= j < i ==> (#[trigger] list@[j])@ != q@,
        decreases list@.len() - i,
    {
        if list[i] == q {
            assert(text::texts(list@)[i as int] == q@);
            return true;
        }
        i = i + 1;
    }
    proof {
        if text::texts(list@).contains(q@) {
            let j = choose|j: int| 0 <= j < list@.len() && text::texts(list@)[j] == q@;
            assert(list@[j]@ == q@);
        }
    }
    false
}

impl Session {
    /// Opens a session for a client that offers a version in its headers. Gives the headers of
    /// the answer, which name the version selected.
    pub fn new(headers: &Vec<(String, String)>) -> (r: Result<
        (Session, Vec<(String, String)>),
        NoCommonVersion,
    >)
        requires
            header_value(headers@, "wt-available-protocols"@) matches Some(v) ==> v.len()
                < usize::MAX,
        ensures
            match r {
                Ok((_, answer)) => answer@.len() == 1 && answer@[0].0@ == "wt-protocol"@
                    && selected(headers@) == Some(answer@[0].1@),
                Err(_) => selected(headers@) is None,
            },
    {
        let protocols = Session::parse_available_protocols(headers);
        match Session::select_protocol(&protocols) {
            Some(v) => {
                let mut answer: Vec<(String, String)> = Vec::new();
                answer.push(("wt-protocol".to_owned(), v));
                Ok((Session {  }, answer))
            },
            None => Err(NoCommonVersion),
        }
    }

    /// The versions that a client offers.
    pub fn parse_available_protocols(headers: &Vec<(String, String)>) -> (r: Vec<String>)
        requires
            header_value(headers@, "wt-available-protocols"@) matches Some(v) ==> v.len()
                < usize::MAX,
        ensures
            text::texts(r@) == offered(headers@),
    {
        let mut r: Vec<String> = Vec::new();
        match find_header(headers, "wt-available-protocols") {
            None => {
                assert(text::texts(r@) =~= offered(headers@));
            },
            Some(value) => {
                let pieces = split_all(value.as_str(), ',');
                let ghost cut = text::split(value@, ',');
                let mut i: usize = 0;
                while i < pieces.len()
                    invariant
                        i <= pieces@.len(),
                        text::texts(pieces@) == cut,
                        r@.len() == i,
                        forall|j: int|
                            0 <= j < i ==> (#[trigger] r@[j])@ == text::trimmed(cut[j]),
                    decreases pieces@.len() - i,
                {
                    assert(cut[i as int] == pieces@[i as int]@);
                    r.push(trim(pieces[i].as_str()));
                    i = i + 1;
                }
                assert(text::texts(r@) =~= offered(headers@));
            },
        }
        r
    }

    /// The first version of the relay's that the client offers.
    pub fn select_protocol(client_protocols: &Vec<String>) -> (r: Option<String>)
        ensures
            match r {
                Some(v) => first_offered(
                    text::split(SUPPORTED_VERSIONS@, ','),
                    text::texts(client_protocols@),
                ) == Some(v@),
                None => first_offered(
                    text::split(SUPPORTED_VERSIONS@, ','),
                    text::texts(client_protocols@),
                ) is None,
            },
    {
        proof {
            reveal_strlit("moqt-16");
        }
        let versions = split_all(SUPPORTED_VERSIONS, ',');
        let ghost all = text::split(SUPPORTED_VERSIONS@, ',');
        let ghost offers = text::texts(client_protocols@);
        let mut i: usize = 0;
        assert(all.skip(0) =~= all);
        while i < versions.len()
            invariant
                i <= versions@.len(),
                all == text::split(SUPPORTED_VERSIONS@, ','),
                text::texts(versions@) == all,
                offers == text::texts(client_protocols@),
                first_offered(all, offers) == first_offered(all.skip(i as int), offers),
            decreases versions@.len() - i,
        {
            assert(all.skip(i as int)[0] == versions@[i as int]@);
            assert(all.skip(i as int).skip(1) =~= all.skip(i + 1));
            if self::offers(client_protocols, &versions[i]) {
                return Some(versions[i].clone());
            }
            i = i + 1;
        }
        None
    }
}

/// A parameter of a client's setup, as far as the relay reads it.
#[derive(Debug)]
pub enum SetupParameter {
    AuthorizationToken { alias_type: u64, value: Option<Vec<u8>> },
    /// No token, or one that cannot be read.
    Other,
}

/// What a parameter of a client's setup says.
#[verifier::ext_equal]
pub enum SetupView {
    AuthorizationToken { alias_type: u64, value: Option<Seq<u8>> },
    Other,
}

impl View for SetupParameter {
    type V = SetupView;

    open spec fn view(&self) -> SetupView {
        match self {
            SetupParameter::AuthorizationToken { alias_type, value } => {
                SetupView::AuthorizationToken {
                    alias_type: *alias_type,
                    value: match value {
                        Some(v) => Some(v@),
                        None => None,
                    },
                }
            },
            SetupParameter::Other => SetupView::Other,
        }
    }
}

/// The way of using a token alias that registers it.
pub const TOKEN_ALIAS_REGISTER: u64 = 1;

/// The token that a parameter registers.
pub open spec fn registered(p: SetupView) -> Option<Seq<u8>> {
    match p {
        SetupView::AuthorizationToken { alias_type, value } => if alias_type
            == TOKEN_ALIAS_REGISTER {
            value
        } else {
            None
        },
        SetupView::Other => None,
    }
}

/// The tokens that some parameters register, in order.
pub open spec fn all_registered(ps: Seq<SetupView>) -> Seq<Seq<u8>>
    decreases ps.len(),
{
    if ps.len() == 0 {
        Seq::empty()
    } else {
        let before = all_registered(ps.drop_last());
        match registered(ps.last()) {
            Some(t) => before.push(t),
            None => before,
        }
    }
}

/// What some parameters of a setup say.
pub open spec fn setup_view(ps: Seq<SetupParameter>) -> Seq<SetupView> {
    ps.map_values(|p: SetupParameter| p@)
}

/// The tokens of a client's setup that are written to the token log.
pub fn tokens_to_log(enable_token_logging: bool, ps: &Vec<SetupParameter>) -> (r: Vec<Vec<u8>>)
    ensures
        names::contents(r@) == if enable_token_logging {
            all_registered(setup_view(ps@))
        } else {
            Seq::empty()
        },
{
    let mut r: Vec<Vec<u8>> = Vec::new();
    assert(names::contents(r@) =~= Seq::<Seq<u8>>::empty());
    if !enable_token_logging {
        return r;
    }
    let mut i: usize = 0;
    let ghost all = setup_view(ps@);
    assert(all.take(0) =~= Seq::<SetupView>::empty());
    while i < ps.len()
        invariant
            i <= ps@.len(),
            all == setup_view(ps@),
            names::contents(r@) == all_registered(all.take(i as int)),
        decreases ps@.len() - i,
    {
        assert(all.take(i + 1).drop_last() =~= all.take(i as int));
        assert(all.take(i + 1).last() == ps@[i as int]@);
        if let SetupParameter::AuthorizationToken { alias_type, value } = &ps[i] {
            if *alias_type == TOKEN_ALIAS_REGISTER {
                if let Some(t) = value {
                    let ghost before = r@;
                    r.push(copy_bytes(t));
                    assert(names::contents(r@) =~= names::contents(before).push(t@));
                }
            }
        }
        i = i + 1;
    }
    assert(all.take(i as int) =~= all);
    r
}

/// The parameter of a client's setup that a pair holds. Only a pair of bytes holds a token.
pub open spec fn setup_parameter(p: PairView) -> SetupView {
    match p {
        PairView::VarInt { .. } => SetupView::Other,
        PairView::Bytes { type_value, bytes, .. } => match outside::setup_token(
            type_value,
            bytes,
        ) {
            Some((alias_type, value)) => SetupView::AuthorizationToken { alias_type, value },
            None => SetupView::Other,
        },
    }
}

/// Reads the parameter of a client's setup that a pair holds.
pub fn read_setup_parameter(p: &KeyValuePair) -> (r: SetupParameter)
    ensures
        r@ == setup_parameter(p@),
{
    match p {
        KeyValuePair::VarInt { .. } => SetupParameter::Other,
        KeyValuePair::Bytes { type_value, bytes, .. } => match outside::read_setup_token(
            *type_value,
            bytes.as_slice(),
        ) {
            Some((alias_type, value)) => SetupParameter::AuthorizationToken { alias_type, value },
            None => SetupParameter::Other,
        },
    }
}

/// Reads the parameters of a client's setup, and gives the tokens to write to the token log.
pub fn setup_tokens(enable_token_logging: bool, pairs: &Vec<KeyValuePair>) -> (r: Vec<Vec<u8>>)
    ensures
        names::contents(r@) == if enable_token_logging {
            all_registered(
                pairs::pairs_view(pairs@).map_values(|p: PairView| setup_parameter(p)),
            )
        } else {
            Seq::empty()
        },
{
    let mut ps: Vec<SetupParameter> = Vec::new();
    let mut i: usize = 0;
    while i < pairs.len()
        invariant
            i <= pairs@.len(),
            ps@.len() == i,
            forall|j: int| 0 <= j < i ==> (#[trigger] ps@[j])@ == setup_parameter(pairs@[j]@),
        decreases pairs@.len() - i,
    {
        ps.push(read_setup_parameter(&pairs[i]));
        i = i + 1;
    }
    assert(setup_view(ps@) =~= pairs::pairs_view(pairs@).map_values(
        |p: PairView| setup_parameter(p),
    ));
    tokens_to_log(enable_token_logging, &ps)
}

/// What happens to the connection of a session.
#[derive(Debug)]
pub enum SessionAction {
    /// The connection is closed with a code and a reason.
    Close { code: u32, reason: String },
    /// The client has gone; the connection is noted as closed.
    MarkClosed,
}

/// What an action says.
#[verifier::ext_equal]
pub enum ActionView {
    Close(u32, Seq<char>),
    MarkClosed,
}

impl View for SessionAction {
    type V = ActionView;

    open spec fn view(&self) -> ActionView {
        match self {
            SessionAction::Close { code, reason } => ActionView::Close(*code, reason@),
            SessionAction::MarkClosed => ActionView::MarkClosed,
        }
    }
}

impl Session {
    /// Closes the connection for a reason.
    pub fn close_session(error_code: TerminationCode, msg: &str) -> (a: SessionAction)
        ensures
            a@ == ActionView::Close(error_code.code(), msg@),
    {
        SessionAction::Close { code: error_code.to_u32(), reason: msg.to_owned() }
    }

    /// Negotiates on the first message of the control stream, which must be the client's setup.
    /// Gives the limit on request ids that the relay's setup tells the client.
    pub fn negotiate(
        first: &Result<ControlMessage, TerminationCode>,
        context: &SessionContext,
    ) -> (r: Result<u64, TerminationCode>)
        requires
            context.max_request_id < u64::MAX,
        ensures
            r == match *first {
                Ok(ControlMessage::ClientSetup) => Ok::<u64, TerminationCode>(
                    (context.max_request_id + 1) as u64,
                ),
                Ok(_) => Err(TerminationCode::ProtocolViolation),
                Err(e) => Err(e),
            },
    {
        match first {
            Ok(ControlMessage::ClientSetup) => Ok(context.max_request_id + 1),
            Ok(_) => Err(TerminationCode::ProtocolViolation),
            Err(e) => Err(*e),
        }
    }

    /// The client is set up once the relay's setup was sent.
    pub fn conclude_negotiation(context: &mut SessionContext, sent: bool) -> (r: Result<
        (),
        TerminationCode,
    >)
        ensures
            r == if sent {
                Ok::<(), TerminationCode>(())
            } else {
                Err(TerminationCode::InternalError)
            },
            *final(context) == (SessionContext {
                has_client: old(context).has_client || sent,
                ..*old(context)
            }),
    {
        if sent {
            context.set_client();
            Ok(())
        } else {
            Err(TerminationCode::InternalError)
        }
    }

    /// What a failed negotiation does to the connection.
    pub fn setup_failed() -> (a: SessionAction)
        ensures
            a@ == ActionView::Close(0, "Setup failed"@),
    {
        SessionAction::Close { code: 0, reason: "Setup failed".to_owned() }
    }

    /// What is done when the control stream could not be accepted.
    pub fn control_stream_refused() -> (a: SessionAction)
        ensures
            a@ == ActionView::Close(
                TerminationCode::InternalError.code(),
                "Error in control stream handler"@,
            ),
    {
        Session::close_session(TerminationCode::InternalError, "Error in control stream handler")
    }

    /// What is done when the control stream has ended with a code. A client that has disconnected
    /// is only noted.
    pub fn control_stream_ended(context: &mut SessionContext, code: TerminationCode) -> (a:
        SessionAction)
        ensures
            code is NoError ==> a@ == ActionView::MarkClosed && *final(context) == (SessionContext {
                is_connection_closed: true,
                ..*old(context)
            }),
            !(code is NoError) ==> a@ == ActionView::Close(
                code.code(),
                "Error in control stream handler"@,
            ) && *final(context) == *old(context),
    {
        match code {
            TerminationCode::NoError => {
                context.is_connection_closed = true;
                SessionAction::MarkClosed
            },
            _ => Session::close_session(code, "Error in control stream handler"),
        }
    }
}

/// What happens on the control stream.
#[derive(Debug)]
pub enum ControlEvent {
    /// A message came, or none will come.
    Received(Result<ControlMessage, TerminationCode>),
    /// A queued message was sent, or could not be.
    Sent(Result<(), TerminationCode>),
    /// A message was handled.
    Handled(Result<(), TerminationCode>),
}

/// What is done next on the control stream.
#[derive(Debug)]
pub enum ControlStep {
    /// The message goes to the handlers.
    Handle(ControlMessage),
    Continue,
    /// The loop ends with a code; the connection is closed first, if an action says so.
    End { code: TerminationCode, action: Option<SessionAction> },
}

impl Session {
    /// Decides what is done after an event on the control stream.
    pub fn handle_control_messages(event: ControlEvent) -> (step: ControlStep)
        ensures
            match event {
                ControlEvent::Received(Ok(m)) => step == ControlStep::Handle(m),
                ControlEvent::Received(Err(e)) | ControlEvent::Sent(Err(e)) => {
                    step matches ControlStep::End { code, action } && code == e && action is None
                },
                ControlEvent::Handled(Err(e)) => {
                    step matches ControlStep::End { code, action: Some(a) } && code == e && a@
                        == ActionView::Close(e.code(), "Error handling PublishNamespace message"@)
                },
                ControlEvent::Sent(Ok(_)) | ControlEvent::Handled(Ok(_)) => step is Continue,
            },
    {
        match event {
            ControlEvent::Received(Ok(m)) => ControlStep::Handle(m),
            ControlEvent::Received(Err(e)) => ControlStep::End { code: e, action: None },
            ControlEvent::Sent(Err(e)) => ControlStep::End { code: e, action: None },
            ControlEvent::Handled(Err(e)) => ControlStep::End {
                code: e,
                action: Some(Session::close_session(e, "Error handling PublishNamespace message")),
            },
            _ => ControlStep::Continue,
        }
    }
}

/// What comes in on a connection beside the control stream.
#[derive(Debug, Clone, Copy, PartialEq, Eq, Structural)]
pub enum Arrival {
    RequestStream,
    DataStream,
    Datagram,
    /// Nothing could be accepted or received.
    Failed,
}

/// What is done with an arrival.
#[derive(Debug, Clone, Copy, PartialEq, Eq, Structural)]
pub enum ArrivalStep {
    HandleRequestStream,
    HandleUniStream,
    HandleDatagram,
    /// The next arrival is awaited.
    Wait,
    /// No more arrivals are taken: the connection is closed.
    Stop,
}

impl Session {
    /// Decides what is done with an arrival: one that failed is passed over, and the connection's
    /// end is noticed before the next one is awaited.
    pub fn wait_for_streams(context: &SessionContext, arrival: Option<Arrival>) -> (step:
        ArrivalStep)
        ensures
            step == match arrival {
                None => if context.is_connection_closed {
                    ArrivalStep::Stop
                } else {
                    ArrivalStep::Wait
                },
                Some(Arrival::RequestStream) => ArrivalStep::HandleRequestStream,
                Some(Arrival::DataStream) => ArrivalStep::HandleUniStream,
                Some(Arrival::Datagram) => ArrivalStep::HandleDatagram,
                Some(Arrival::Failed) => ArrivalStep::Wait,
            },
    {
        match arrival {
            None => if context.is_connection_closed {
                ArrivalStep::Stop
            } else {
                ArrivalStep::Wait
            },
            Some(Arrival::RequestStream) => ArrivalStep::HandleRequestStream,
            Some(Arrival::DataStream) => ArrivalStep::HandleUniStream,
            Some(Arrival::Datagram) => ArrivalStep::HandleDatagram,
            Some(Arrival::Failed) => ArrivalStep::Wait,
        }
    }
}

/// What is done with a request stream.
#[derive(Debug)]
pub enum RequestStep {
    /// Nothing: there is no client yet, or no message came.
    Ignore,
    /// The namespace subscription with this request id is handled.
    SubscribeNamespace { request_id: u64 },
    /// The session ends.
    Act(SessionAction),
}

/// What happens on the stream of a namespace subscription.
#[derive(Debug, Clone, Copy, PartialEq, Eq, Structural)]
pub enum NamespaceEvent {
    /// The subscription was handled, with or without success.
    Handled { ok: bool },
    /// A message about a namespace was written, or could not be.
    Written { ok: bool },
    /// No more messages will come for the subscriber.
    ChannelGone,
    /// The subscriber has sent another message.
    ExtraMessage,
    /// The subscriber has ended the stream.
    StreamEnded,
}

/// What is done next on that stream.
#[derive(Debug)]
pub enum NamespaceStep {
    Continue,
    /// The stream is left as it is.
    End,
    /// The subscription is cancelled.
    Cancel,
    /// The session ends.
    Act(SessionAction),
}

impl Session {
    /// Decides what is done with a stream that a client has opened with a first message. Only
    /// namespaces are subscribed to in this way, with a request id below the limit.
    pub fn handle_request_stream(
        context: &SessionContext,
        first: &Result<ControlMessage, TerminationCode>,
    ) -> (step: RequestStep)
        ensures
            !context.has_client || *first is Err ==> step is Ignore,
            context.has_client ==> match *first {
                Ok(ControlMessage::SubscribeNamespace { request_id }) => if request_id
                    >= context.max_request_id {
                    step matches RequestStep::Act(a) && a@ == ActionView::Close(
                        TerminationCode::TooManyRequests.code(),
                        "Request ID exceeds maximum"@,
                    )
                } else {
                    step == (RequestStep::SubscribeNamespace { request_id })
                },
                Ok(_) => step matches RequestStep::Act(a) && a@ == ActionView::Close(
                    TerminationCode::ProtocolViolation.code(),
                    "Unsupported message type on request bi-stream"@,
                ),
                Err(_) => true,
            },
    {
        if context.get_client().is_none() {
            return RequestStep::Ignore;
        }
        match first {
            Err(_) => RequestStep::Ignore,
            Ok(ControlMessage::SubscribeNamespace { request_id }) => {
                if *request_id >= context.max_request_id {
                    RequestStep::Act(
                        Session::close_session(
                            TerminationCode::TooManyRequests,
                            "Request ID exceeds maximum",
                        ),
                    )
                } else {
                    RequestStep::SubscribeNamespace { request_id: *request_id }
                }
            },
            Ok(_) => RequestStep::Act(
                Session::close_session(
                    TerminationCode::ProtocolViolation,
                    "Unsupported message type on request bi-stream",
                ),
            ),
        }
    }

    /// Decides what is done after an event on the stream of a namespace subscription.
    pub fn dispatch_request_stream_message(event: NamespaceEvent) -> (step: NamespaceStep)
        ensures
            match event {
                NamespaceEvent::Handled { ok } => if ok {
                    step is Continue
                } else {
                    step is End
                },
                NamespaceEvent::Written { ok } => if ok {
                    step is Continue
                } else {
                    step is Cancel
                },
                NamespaceEvent::ChannelGone => step is End,
                NamespaceEvent::ExtraMessage => step matches NamespaceStep::Act(a) && a@
                    == ActionView::Close(
                    TerminationCode::ProtocolViolation.code(),
                    "Unexpected message on request bi-stream"@,
                ),
                NamespaceEvent::StreamEnded => step is Cancel,
            },
    {
        match event {
            NamespaceEvent::Handled { ok } => if ok {
                NamespaceStep::Continue
            } else {
                NamespaceStep::End
            },
            NamespaceEvent::Written { ok } => if ok {
                NamespaceStep::Continue
            } else {
                NamespaceStep::Cancel
            },
            NamespaceEvent::ChannelGone => NamespaceStep::End,
            NamespaceEvent::ExtraMessage => NamespaceStep::Act(
                Session::close_session(
                    TerminationCode::ProtocolViolation,
                    "Unexpected message on request bi-stream",
                ),
            ),
            NamespaceEvent::StreamEnded => NamespaceStep::Cancel,
        }
    }
}

/// A data stream that a publisher has opened.
#[derive(Debug)]
pub struct UniStream {
    /// The header that the stream began with.
    pub header: HeaderInfo,
    pub track_alias: u64,
    /// The upstream fetch whose objects the stream brings, if someone awaits them.
    pub upstream: Option<u64>,
    /// How often the track is still looked for.
    pub attempts_left: u8,
    /// The track of the stream, once it was found.
    pub track: Option<FullTrackName>,
    pub stream_id: Option<StreamId>,
    /// Whether no object was taken in yet.
    pub first_object: bool,
}

/// How often a track is looked for before a stream is given up.
pub const TRACK_LOOKUP_ATTEMPTS: u8 = 5;

/// How long is waited between two attempts, in milliseconds.
pub const TRACK_LOOKUP_INTERVAL_MS: u64 = 100;

/// The alias under which a header's track is known, of the publisher that sent it.
pub open spec fn alias_of(client: MOQTClient, header: HeaderInfo) -> u64 {
    match header {
        HeaderInfo::Subgroup { header } => header.track_alias,
        HeaderInfo::Fetch { request_id } => if client.outgoing_fetch_requests@.contains_key(
            request_id,
        ) {
            client.outgoing_fetch_requests@[request_id].track_alias
        } else {
            0
        },
    }
}

/// What came of looking for a stream's track.
#[derive(Debug, Clone, Copy, PartialEq, Eq, Structural)]
pub enum LookupStep {
    Found,
    /// The publisher's alias is not known yet: it is looked up again after a while.
    Retry,
    Failed(TerminationCode),
}

impl UniStream {
    /// A stream that has brought its first object, and with it its header.
    pub fn new(
        context: &SessionContext,
        client: &MOQTClient,
        requests: &RequestMaps,
        header: Option<HeaderInfo>,
    ) -> (r: Result<UniStream, TerminationCode>)
        requires
            client.wf(),
            requests.wf(),
        ensures
            r == match header {
                Some(h) if context.has_client => Ok::<UniStream, TerminationCode>(
                    UniStream {
                        header: h,
                        track_alias: alias_of(*client, h),
                        upstream: match h {
                            HeaderInfo::Fetch {
                                request_id,
                            } if requests.upstream_fetch_senders@.contains_key(request_id) => Some(
                                request_id,
                            ),
                            _ => None,
                        },
                        attempts_left: TRACK_LOOKUP_ATTEMPTS,
                        track: None,
                        stream_id: None,
                        first_object: true,
                    },
                ),
                _ => Err(TerminationCode::InternalError),
            },
    {
        if context.get_client().is_none() {
            return Err(TerminationCode::InternalError);
        }
        let header = match header {
            Some(h) => h,
            None => {
                return Err(TerminationCode::InternalError);
            },
        };
        let mut upstream: Option<u64> = None;
        let track_alias: u64 = match header {
            HeaderInfo::Subgroup { header } => header.track_alias,
            HeaderInfo::Fetch { request_id } => {
                if requests.upstream_fetch_senders.contains_key(&request_id) {
                    upstream = Some(request_id);
                }
                match client.outgoing_fetch_requests.get(&request_id) {
                    Some(r) => r.track_alias,
                    None => 0,
                }
            },
        };
        Ok(
            UniStream {
                header,
                track_alias,
                upstream,
                attempts_left: TRACK_LOOKUP_ATTEMPTS,
                track: None,
                stream_id: None,
                first_object: true,
            },
        )
    }

    /// Looks for the track of the stream. The alias may not be known yet, so a few attempts are
    /// made; an alias for a track that is gone ends the stream at once.
    pub fn find_track(&mut self, tracks: &TrackManager, connection_id: usize) -> (step: LookupStep)
        requires
            tracks.wf(),
        ensures
            ({
                let key = PublisherAlias { connection_id, track_alias: old(self).track_alias };
                if old(self).attempts_left == 0 {
                    &&& step == LookupStep::Failed(TerminationCode::InternalError)
                    &&& *final(self) == *old(self)
                } else if !tracks.track_aliases@.contains_key(key) {
                    &&& step is Retry
                    &&& *final(self) == (UniStream {
                        attempts_left: (old(self).attempts_left - 1) as u8,
                        ..*old(self)
                    })
                } else if !tracks.tracks@.contains_key(tracks.track_aliases@[key]@) {
                    &&& step == LookupStep::Failed(TerminationCode::InternalError)
                    &&& *final(self) == *old(self)
                } else {
                    let n = tracks.track_aliases@[key]@;
                    &&& step is Found
                    &&& final(self).track matches Some(name) && name@ == n
                    &&& *final(self) == (UniStream {
                        track: final(self).track,
                        stream_id: Some(
                            stream_id::stream_id_of(
                                tracks.tracks@[n].relay_track_id,
                                old(self).header,
                            ),
                        ),
                        ..*old(self)
                    })
                }
            }),
    {
        if self.attempts_left == 0 {
            return LookupStep::Failed(TerminationCode::InternalError);
        }
        let name = match tracks.get_name_by_alias(connection_id, self.track_alias) {
            Some(n) => n,
            None => {
                self.attempts_left = self.attempts_left - 1;
                return LookupStep::Retry;
            },
        };
        let relay_track_id: u64 = match tracks.get_track(&name) {
            Some(t) => t.relay_track_id,
            None => {
                return LookupStep::Failed(TerminationCode::InternalError);
            },
        };
        self.stream_id = Some(build_stream_id(relay_track_id, &self.header));
        self.track = Some(name);
        LookupStep::Found
    }

    /// Takes in an object for the stream's track. Gives the event for the subscribers and, where
    /// someone awaits the objects of this fetch and the object can be handed on as a fetched one,
    /// the request and the object.
    pub fn new_object(
        &mut self,
        track: &mut Track,
        object: Object,
        as_fetched: Option<CachedObject>,
    ) -> (r: (TrackEvent, Option<(u64, CachedObject)>))
        requires
            old(self).stream_id is Some,
            old(track).wf(),
        ensures
            final(track).wf(),
            !final(track).largest_location.before(object.location),
            !final(track).largest_location.before(old(track).largest_location),
            r.0 matches TrackEvent::SubgroupObject { stream_id, object: o, header_info } && o
                == object && Some(stream_id) == old(self).stream_id && (header_info is Some
                <==> old(self).first_object),
            *final(self) == (UniStream { first_object: false, ..*old(self) }),
            ({
                let id = old(self).stream_id->Some_0;
                let header_info = if old(self).first_object {
                    Some(old(self).header)
                } else {
                    None
                };
                &&& r.0 == (TrackEvent::SubgroupObject { stream_id: id, object, header_info })
                &&& *final(track) == (Track {
                    largest_location: old(track).largest_location.later(object.location),
                    active_subgroup_headers: final(track).active_subgroup_headers,
                    ..*old(track)
                })
                &&& final(track).active_subgroup_headers@ == if old(self).first_object {
                    old(track).active_subgroup_headers@.insert(id, old(self).header)
                } else {
                    old(track).active_subgroup_headers@
                }
            }),
            r.1 == match (old(self).upstream, as_fetched) {
                (Some(request_id), Some(o)) => Some((request_id, o)),
                _ => None,
            },
    {
        let id = self.stream_id.unwrap();
        let header_info = if self.first_object {
            Some(self.header)
        } else {
            None
        };
        let event = track.new_subgroup_object(id, object, header_info);
        self.first_object = false;
        let forwarded = match (self.upstream, as_fetched) {
            (Some(request_id), Some(o)) => Some((request_id, o)),
            _ => None,
        };
        (event, forwarded)
    }

    /// The publisher has ended the stream. Gives the event for the subscribers, if the track of
    /// the stream was found.
    pub fn end(&self, track: &mut Track) -> (event: Option<TrackEvent>)
        requires
            old(track).wf(),
        ensures
            final(track).wf(),
            match self.stream_id {
                Some(id) => {
                    &&& event == Some(TrackEvent::StreamClosed { stream_id: id })
                    &&& final(track).active_subgroup_headers@ == old(track).active_subgroup_headers@.remove(id)
                    &&& *final(track) == (Track {
                        active_subgroup_headers: final(track).active_subgroup_headers,
                        ..*old(track)
                    })
                },
                None => event is None && *final(track) == *old(track),
            },
    {
        match self.stream_id {
            Some(id) => Some(track.stream_closed(id)),
            None => None,
        }
    }
}

/// The track that a publisher sends under an alias.
pub open spec fn track_by_alias(tracks: TrackManager, key: PublisherAlias) -> Option<TrackName> {
    if tracks.track_aliases@.contains_key(key) && tracks.tracks@.contains_key(
        tracks.track_aliases@[key]@,
    ) {
        Some(tracks.track_aliases@[key]@)
    } else {
        None
    }
}

/// The object of a datagram. It belongs to no subgroup; without a priority of its own it has
/// priority 0.
pub open spec fn object_of_datagram(f: DatagramFields) -> Object {
    Object {
        track_alias: f.track_alias,
        location: Location { group: f.group_id, object: f.object_id },
        publisher_priority: match f.publisher_priority {
            Some(p) => p,
            None => 0,
        },
        subgroup_id: None,
    }
}

fn datagram_object(f: DatagramFields) -> (o: Object)
    ensures
        o == object_of_datagram(f),
{
    Object {
        track_alias: f.track_alias,
        location: Location { group: f.group_id, object: f.object_id },
        publisher_priority: match f.publisher_priority {
            Some(p) => p,
            None => 0,
        },
        subgroup_id: None,
    }
}

/// What becomes of an object that came as a datagram: the track that the publisher sends under its
/// alias remembers where it has got to and passes it on; for an unknown track it is dropped.
pub open spec fn datagram_handled(
    t0: TrackManager,
    connection_id: usize,
    object: Object,
    r: Option<(FullTrackName, TrackEvent)>,
    t1: TrackManager,
) -> bool {
    match track_by_alias(
        t0,
        PublisherAlias { connection_id, track_alias: object.track_alias },
    ) {
        Some(n) => {
            &&& r matches Some((name, event)) && name@ == n && event == (TrackEvent::Datagram {
                object,
            })
            &&& t1.tracks@ == t0.tracks@.insert(
                n,
                Track {
                    largest_location: t0.tracks@[n].largest_location.later(object.location),
                    ..t0.tracks@[n]
                },
            )
            &&& t1 == (TrackManager { tracks: t1.tracks, ..t0 })
        },
        None => r is None && t1 == t0,
    }
}

impl Session {
    /// Takes in an object that came as a datagram. Gives the track and the event for its
    /// subscribers; a datagram for an unknown track is dropped.
    pub fn handle_datagram(
        tracks: &mut TrackManager,
        connection_id: usize,
        object: Object,
    ) -> (r: Option<(FullTrackName, TrackEvent)>)
        requires
            old(tracks).wf(),
        ensures
            final(tracks).wf(),
            datagram_handled(*old(tracks), connection_id, object, r, *final(tracks)),
    {
        let name = match tracks.get_name_by_alias(connection_id, object.track_alias) {
            Some(n) => n,
            None => {
                return None;
            },
        };
        if !tracks.tracks.contains_key(&name) {
            return None;
        }
        let ghost before = *tracks;
        match tracks.take(&name) {
            Some(t) => {
                let mut t = t;
                let event = t.new_datagram(object);
                tracks.put_back(Ghost(before), name.copy(), t);
                Some((name, event))
            },
            None => None,
        }
    }

    /// Reads the bytes of a datagram and takes in its object. One that cannot be read is dropped.
    pub fn handle_datagram_bytes(
        tracks: &mut TrackManager,
        connection_id: usize,
        payload: &[u8],
    ) -> (r: Option<(FullTrackName, TrackEvent)>)
        requires
            old(tracks).wf(),
        ensures
            final(tracks).wf(),
            match outside::datagram_fields(payload@) {
                Some(f) => datagram_handled(
                    *old(tracks),
                    connection_id,
                    object_of_datagram(f),
                    r,
                    *final(tracks),
                ),
                None => r is None && *final(tracks) == *old(tracks),
            },
    {
        match outside::read_datagram(payload) {
            Some(f) => Session::handle_datagram(tracks, connection_id, datagram_object(f)),
            None => None,
        }
    }
}

/// A track whose last publisher has gone, and what its subscribers are told.
pub struct OrphanedTrack {
    pub track: Track,
    pub event: TrackEvent,
}

/// What the end of a connection leaves to be done.
pub struct ConnectionEnd {
    pub orphaned: Vec<OrphanedTrack>,
    /// The streams of the client's subscriptions.
    pub streams: Vec<StreamId>,
}

/// Whether a track loses its last publisher with a connection.
pub open spec fn loses_last_publisher(t: Track, c: usize) -> bool {
    t.publisher_aliases@.contains_key(c) && t.publisher_aliases@.remove(c) == Map::<
        usize,
        u64,
    >::empty()
}

/// `t` is `t0` without a publisher.
pub open spec fn without_publisher(t0: Track, t: Track, c: usize) -> bool {
    &&& t.publisher_aliases@ == t0.publisher_aliases@.remove(c)
    &&& t == (Track { publisher_aliases: t.publisher_aliases, ..t0 })
}

/// `t` is `t0` without a client, as publisher and as subscriber.
pub open spec fn without_client(t0: Track, t: Track, c: usize) -> bool {
    &&& t.publisher_aliases@ == t0.publisher_aliases@.remove(c)
    &&& t.subscriptions() == t0.subscriptions().remove(c)
    &&& t == (Track {
        publisher_aliases: t.publisher_aliases,
        subscription_manager: t.subscription_manager,
        ..t0
    })
}

/// Whether a connection publishes some track under an alias.
pub open spec fn publishes_under(
    tracks: Map<TrackName, Track>,
    c: usize,
    alias: u64,
) -> bool {
    exists|n: TrackName| #[trigger]
        tracks.contains_key(n) && tracks[n].publisher_aliases@.contains_key(c)
            && tracks[n].publisher_aliases@[c] == alias
}

/// Whether a stream belongs to a subscription of a client that is not over.
pub open spec fn streams_to(t: Track, c: usize, id: StreamId) -> bool {
    t.subscriptions().contains_key(c) && !t.subscriptions()[c].finished
        && t.subscriptions()[c].send_stream_last_object_ids@.contains_key(id)
}

/// Whether some orphan is the track of a name.
pub open spec fn orphaned_name(orphans: Seq<OrphanedTrack>, n: TrackName) -> bool {
    exists|k: int| 0 <= k < orphans.len() && (#[trigger] orphans[k]).track.full_track_name@ == n
}

/// Each orphan is the track of its name without its last publisher, and its subscribers are told
/// so; none comes twice.
pub open spec fn orphans_ok(
    tracks: Map<TrackName, Track>,
    orphans: Seq<OrphanedTrack>,
    c: usize,
) -> bool {
    &&& forall|k: int|
        0 <= k < orphans.len() ==> {
            let n = (#[trigger] orphans[k]).track.full_track_name@;
            &&& tracks.contains_key(n)
            &&& without_publisher(tracks[n], orphans[k].track, c)
            &&& orphans[k].event matches TrackEvent::PublisherDisconnected { reason } && reason@
                == "Publisher disconnected"@
        }
    &&& forall|j: int, k: int|
        0 <= j < k < orphans.len() ==> (#[trigger] orphans[j]).track.full_track_name@ != (
        #[trigger] orphans[k]).track.full_track_name@
}

/// What the end of a connection does to the tracks: the client is taken out of every track, the
/// tracks that it was the last to publish are gone, and so are its aliases.
pub open spec fn connection_ended(
    before: TrackManager,
    tracks: TrackManager,
    c: usize,
    end: ConnectionEnd,
) -> bool {
    &&& forall|n: TrackName| #[trigger]
        tracks.tracks@.contains_key(n) <==> before.tracks@.contains_key(n)
            && !loses_last_publisher(before.tracks@[n], c)
    &&& forall|n: TrackName| #[trigger]
        tracks.tracks@.contains_key(n) ==> without_client(before.tracks@[n], tracks.tracks@[n], c)
    &&& forall|k: PublisherAlias| #[trigger]
        tracks.track_aliases@.contains_key(k) <==> before.track_aliases@.contains_key(k) && !(
        k.connection_id == c && publishes_under(before.tracks@, c, k.track_alias))
    &&& forall|k: PublisherAlias| #[trigger]
        tracks.track_aliases@.contains_key(k) ==> tracks.track_aliases@[k]
            == before.track_aliases@[k]
    &&& tracks.next_relay_track_id == before.next_relay_track_id
    &&& orphans_ok(before.tracks@, end.orphaned@, c)
    &&& forall|n: TrackName| #[trigger]
        orphaned_name(end.orphaned@, n) <==> before.tracks@.contains_key(n)
            && loses_last_publisher(before.tracks@[n], c)
    &&& forall|id: StreamId| #[trigger]
        end.streams@.contains(id) <==> exists|n: TrackName| #[trigger]
            tracks.tracks@.contains_key(n) && streams_to(before.tracks@[n], c, id)
}

fn track_names(tracks: &TrackManager) -> (names: Vec<FullTrackName>)
    requires
        tracks.wf(),
    ensures
        forall|n: TrackName| #[trigger]
            tracks.tracks@.contains_key(n) <==> exists|i: int|
                0 <= i < names@.len() && (#[trigger] names@[i])@ == n,
        forall|i: int, j: int|
            0 <= i < j < names@.len() ==> (#[trigger] names@[i])@ != (#[trigger] names@[j])@,
{
    let mut names: Vec<FullTrackName> = Vec::new();
    let ghost entries = tracks.tracks.entries@;
    let mut i: usize = 0;
    while i < tracks.tracks.entries.len()
        invariant
            entries == tracks.tracks.entries@,
            i <= entries.len(),
            names@.len() == i,
            forall|j: int| 0 <= j < i ==> (#[trigger] names@[j])@ == entries[j].0@,
        decreases entries.len() - i,
    {
        names.push(tracks.tracks.entries[i].0.copy());
        i = i + 1;
    }
    proof {
        assert forall|n: TrackName| #[trigger] tracks.tracks@.contains_key(n) implies exists|i: int|
            0 <= i < names@.len() && (#[trigger] names@[i])@ == n by {
            let k = choose|k: int| table::key_at(entries, k, n);
            assert(table::key_at(entries, k, n));
            assert(names@[k]@ == n);
        }
        assert forall|n: TrackName|
            (exists|i: int| 0 <= i < names@.len() && (#[trigger] names@[i])@ == n) implies
            #[trigger] tracks.tracks@.contains_key(n) by {
            let k = choose|k: int| 0 <= k < names@.len() && (#[trigger] names@[k])@ == n;
            table::lemma_entry(tracks.tracks, k);
        }
        assert forall|i: int, j: int| 0 <= i < j < names@.len() implies (#[trigger] names@[i])@ != (
        #[trigger] names@[j])@ by {
            assert(entries[i].0.id() != entries[j].0.id());
        }
    }
    names
}

/// The publisher `c` was taken out of the tracks named in `done`.
pub open spec fn publisher_removed(
    before: TrackManager,
    tracks: TrackManager,
    c: usize,
    orphans: Seq<OrphanedTrack>,
    done: Set<TrackName>,
) -> bool {
    &&& forall|n: TrackName| #[trigger]
        tracks.tracks@.contains_key(n) <==> before.tracks@.contains_key(n) && !(done.contains(n)
            && loses_last_publisher(before.tracks@[n], c))
    &&& forall|n: TrackName| #[trigger]
        tracks.tracks@.contains_key(n) ==> if done.contains(n) {
            without_publisher(before.tracks@[n], tracks.tracks@[n], c)
        } else {
            tracks.tracks@[n] == before.tracks@[n]
        }
    &&& forall|k: PublisherAlias| #[trigger]
        tracks.track_aliases@.contains_key(k) <==> before.track_aliases@.contains_key(k) && !(
        k.connection_id == c && publishes_under(
            before.tracks@.restrict(done),
            c,
            k.track_alias,
        ))
    &&& forall|k: PublisherAlias| #[trigger]
        tracks.track_aliases@.contains_key(k) ==> tracks.track_aliases@[k]
            == before.track_aliases@[k]
    &&& tracks.next_relay_track_id == before.next_relay_track_id
    &&& orphans_ok(before.tracks@, orphans, c)
    &&& forall|n: TrackName| #[trigger]
        orphaned_name(orphans, n) <==> before.tracks@.contains_key(n) && done.contains(n)
            && loses_last_publisher(before.tracks@[n], c)
}

/// Takes a publisher out of one track, which is removed if it was its last.
fn remove_publisher_from(
    tracks: &mut TrackManager,
    c: usize,
    name: &FullTrackName,
    orphans: &mut Vec<OrphanedTrack>,
    Ghost(before): Ghost<TrackManager>,
    Ghost(done): Ghost<Set<TrackName>>,
)
    requires
        before.wf(),
        old(tracks).wf(),
        before.tracks@.contains_key(name@),
        !done.contains(name@),
        publisher_removed(before, *old(tracks), c, old(orphans)@, done),
    ensures
        final(tracks).wf(),
        publisher_removed(before, *final(tracks), c, final(orphans)@, done.insert(name@)),
{
    let ghost pre = *tracks;
    let ghost now = done.insert(name@);
    let ghost n0 = name@;
    proof {
        assert(tracks.tracks@.contains_key(n0));
    }
    match tracks.take(name) {
        Some(t) => {
            let mut t = t;
            let (alias, event) = t.remove_publisher(c);
            let ghost t1 = t;
            tracks.put_back(Ghost(pre), name.copy(), t);
            if let Some(a) = alias {
                tracks.remove_publisher_alias(c, a);
            }
            proof {
                lemma_aliases_step(before, pre.track_aliases@, tracks.track_aliases@, c, done, n0);
            }
            if let Some(e) = event {
                if let Some(gone) = tracks.remove_track(name) {
                    let ghost had = orphans@;
                    orphans.push(OrphanedTrack { track: gone, event: e });
                    proof {
                        let now_has = orphans@;
                        assert forall|n: TrackName| #[trigger] orphaned_name(now_has, n)
                            <==> orphaned_name(had, n) || n == n0 by {
                            if orphaned_name(now_has, n) {
                                let k = choose|k: int|
                                    0 <= k < now_has.len() && (
                                    #[trigger] now_has[k]).track.full_track_name@ == n;
                                if k < had.len() {
                                    assert(had[k] == now_has[k]);
                                }
                            }
                            if orphaned_name(had, n) {
                                let k = choose|k: int|
                                    0 <= k < had.len() && (
                                    #[trigger] had[k]).track.full_track_name@ == n;
                                assert(now_has[k] == had[k]);
                            }
                            assert(now_has[had.len() as int].track.full_track_name@ == n0);
                        }
                        assert forall|j: int, k: int| 0 <= j < k < now_has.len() implies (
                        #[trigger] now_has[j]).track.full_track_name@ != (
                        #[trigger] now_has[k]).track.full_track_name@ by {
                            assert(now_has[j] == had[j]);
                            if k == had.len() {
                                assert(orphaned_name(had, had[j].track.full_track_name@));
                            } else {
                                assert(now_has[k] == had[k]);
                            }
                        }
                        assert forall|k: int| 0 <= k < now_has.len() implies {
                            let n = (#[trigger] now_has[k]).track.full_track_name@;
                            &&& before.tracks@.contains_key(n)
                            &&& without_publisher(before.tracks@[n], now_has[k].track, c)
                            &&& now_has[k].event matches TrackEvent::PublisherDisconnected {
                                reason,
                            } && reason@ == "Publisher disconnected"@
                        } by {
                            if k < had.len() {
                                assert(now_has[k] == had[k]);
                            }
                        }
                    }
                }
            }
        },
        None => {},
    }
}

proof fn lemma_aliases_step(
    before: TrackManager,
    a0: Map<PublisherAlias, FullTrackName>,
    a1: Map<PublisherAlias, FullTrackName>,
    c: usize,
    done: Set<TrackName>,
    n0: TrackName,
)
    requires
        before.tracks@.contains_key(n0),
        forall|k: PublisherAlias| #[trigger]
            a0.contains_key(k) <==> before.track_aliases@.contains_key(k) && !(k.connection_id == c
                && publishes_under(before.tracks@.restrict(done), c, k.track_alias)),
        forall|k: PublisherAlias| #[trigger]
            a0.contains_key(k) ==> a0[k] == before.track_aliases@[k],
        a1 == if before.tracks@[n0].publisher_aliases@.contains_key(c) {
            a0.remove(
                PublisherAlias {
                    connection_id: c,
                    track_alias: before.tracks@[n0].publisher_aliases@[c],
                },
            )
        } else {
            a0
        },
    ensures
        forall|k: PublisherAlias| #[trigger]
            a1.contains_key(k) <==> before.track_aliases@.contains_key(k) && !(k.connection_id == c
                && publishes_under(
                before.tracks@.restrict(done.insert(n0)),
                c,
                k.track_alias,
            )),
        forall|k: PublisherAlias| #[trigger]
            a1.contains_key(k) ==> a1[k] == before.track_aliases@[k],
{
    let t0 = before.tracks@.restrict(done);
    let t1 = before.tracks@.restrict(done.insert(n0));
    let had = before.tracks@[n0].publisher_aliases@.contains_key(c);
    assert forall|a: u64| #[trigger] publishes_under(t1, c, a) <==> publishes_under(t0, c, a) || (had
        && before.tracks@[n0].publisher_aliases@[c] == a) by {
        if publishes_under(t1, c, a) {
            let n = choose|n: TrackName| #[trigger]
                t1.contains_key(n) && t1[n].publisher_aliases@.contains_key(c)
                    && t1[n].publisher_aliases@[c] == a;
            if n != n0 {
                assert(t0.contains_key(n));
            }
        }
        if publishes_under(t0, c, a) {
            let n = choose|n: TrackName| #[trigger]
                t0.contains_key(n) && t0[n].publisher_aliases@.contains_key(c)
                    && t0[n].publisher_aliases@[c] == a;
            assert(t1.contains_key(n));
        }
        if had && before.tracks@[n0].publisher_aliases@[c] == a {
            assert(t1.contains_key(n0));
        }
    }
}

/// `t` is `t0` without a subscriber.
pub open spec fn without_subscriber(t0: Track, t: Track, c: usize) -> bool {
    &&& t.subscriptions() == t0.subscriptions().remove(c)
    &&& t == (Track { subscription_manager: t.subscription_manager, ..t0 })
}

/// The subscriber `c` was taken out of the tracks named in `done`.
pub open spec fn subscriber_removed(
    before: TrackManager,
    tracks: TrackManager,
    c: usize,
    streams: Seq<StreamId>,
    done: Set<TrackName>,
) -> bool {
    &&& forall|n: TrackName| #[trigger]
        tracks.tracks@.contains_key(n) <==> before.tracks@.contains_key(n)
    &&& forall|n: TrackName| #[trigger]
        tracks.tracks@.contains_key(n) ==> if done.contains(n) {
            without_subscriber(before.tracks@[n], tracks.tracks@[n], c)
        } else {
            tracks.tracks@[n] == before.tracks@[n]
        }
    &&& tracks == (TrackManager { tracks: tracks.tracks, ..before })
    &&& forall|id: StreamId| #[trigger]
        streams.contains(id) <==> exists|n: TrackName| #[trigger]
            before.tracks@.contains_key(n) && done.contains(n) && streams_to(
                before.tracks@[n],
                c,
                id,
            )
}

/// Takes a subscriber out of one track, if the track is still there.
fn remove_subscriber_from(
    tracks: &mut TrackManager,
    c: usize,
    name: &FullTrackName,
    streams: &mut Vec<StreamId>,
    Ghost(before): Ghost<TrackManager>,
    Ghost(done): Ghost<Set<TrackName>>,
)
    requires
        old(tracks).wf(),
        !done.contains(name@),
        subscriber_removed(before, *old(tracks), c, old(streams)@, done),
    ensures
        final(tracks).wf(),
        subscriber_removed(before, *final(tracks), c, final(streams)@, done.insert(name@)),
{
    let ghost pre = *tracks;
    let ghost had = streams@;
    let ghost n0 = name@;
    let mut more: Vec<StreamId> = Vec::new();
    if tracks.tracks.contains_key(name) {
        match tracks.take(name) {
            Some(t) => {
                let mut t = t;
                let ended = t.remove_subscription(c);
                more = ended;
                tracks.put_back(Ghost(pre), name.copy(), t);
            },
            None => {},
        }
    }
    proof {
        assert forall|id: StreamId| #[trigger] more@.contains(id) <==> before.tracks@.contains_key(
            n0,
        ) && streams_to(before.tracks@[n0], c, id) by {
            assert(pre.tracks@.contains_key(n0) <==> before.tracks@.contains_key(n0));
        }
    }
    let ghost added = more@;
    streams.append(&mut more);
    proof {
        assert forall|id: StreamId| #[trigger] streams@.contains(id) <==> had.contains(id)
            || added.contains(id) by {
            if had.contains(id) {
                let k = choose|k: int| 0 <= k < had.len() && had[k] == id;
                assert(streams@[k] == id);
            }
            if added.contains(id) {
                let k = choose|k: int| 0 <= k < added.len() && added[k] == id;
                assert(streams@[had.len() + k] == id);
            }
            if streams@.contains(id) {
                let k = choose|k: int| 0 <= k < streams@.len() && streams@[k] == id;
                if k < had.len() {
                    assert(had[k] == id);
                } else {
                    assert(added[k - had.len()] == id);
                }
            }
        }
        let now = done.insert(n0);
        assert forall|id: StreamId| #[trigger] streams@.contains(id) <==> exists|n: TrackName|
            #[trigger]
            before.tracks@.contains_key(n) && now.contains(n) && streams_to(
                before.tracks@[n],
                c,
                id,
            ) by {
            if had.contains(id) {
                let n = choose|n: TrackName| #[trigger]
                    before.tracks@.contains_key(n) && done.contains(n) && streams_to(
                        before.tracks@[n],
                        c,
                        id,
                    );
                assert(now.contains(n));
            }
            if exists|n: TrackName| #[trigger]
                before.tracks@.contains_key(n) && now.contains(n) && streams_to(
                    before.tracks@[n],
                    c,
                    id,
                ) {
                let n = choose|n: TrackName| #[trigger]
                    before.tracks@.contains_key(n) && now.contains(n) && streams_to(
                        before.tracks@[n],
                        c,
                        id,
                    );
                if n != n0 {
                    assert(done.contains(n));
                    assert(had.contains(id));
                } else {
                    assert(added.contains(id));
                }
            }
        }
    }
}

impl Session {
    /// Cleans up after a connection: its client is taken out of every track, and what is left to
    /// do for the subscribers is handed back.
    pub fn handle_connection_close(tracks: &mut TrackManager, context: &mut SessionContext) -> (end:
        ConnectionEnd)
        requires
            old(tracks).wf(),
        ensures
            final(tracks).wf(),
            *final(context) == (SessionContext { is_connection_closed: true, ..*old(context) }),
            connection_ended(*old(tracks), *final(tracks), old(context).connection_id, end),
    {
        context.is_connection_closed = true;
        let c: usize = context.connection_id;
        let ghost before = *tracks;
        let names = track_names(tracks);
        let ghost all = Set::new(|n: TrackName| before.tracks@.contains_key(n));
        let mut orphaned: Vec<OrphanedTrack> = Vec::new();
        let ghost mut done: Set<TrackName> = Set::empty();
        let mut i: usize = 0;
        proof {
            assert(before.tracks@.restrict(done) =~= Map::<TrackName, Track>::empty());
        }
        while i < names.len()
            invariant
                before.wf(),
                tracks.wf(),
                i <= names@.len(),
                forall|n: TrackName| #[trigger]
                    before.tracks@.contains_key(n) <==> exists|j: int|
                        0 <= j < names@.len() && (#[trigger] names@[j])@ == n,
                forall|j: int, k: int|
                    0 <= j < k < names@.len() ==> (#[trigger] names@[j])@ != (
                    #[trigger] names@[k])@,
                forall|n: TrackName| #[trigger]
                    done.contains(n) <==> exists|j: int|
                        0 <= j < i && (#[trigger] names@[j])@ == n,
                publisher_removed(before, *tracks, c, orphaned@, done),
            decreases names@.len() - i,
        {
            proof {
                assert(before.tracks@.contains_key(names@[i as int]@));
            }
            remove_publisher_from(
                tracks,
                c,
                &names[i],
                &mut orphaned,
                Ghost(before),
                Ghost(done),
            );
            proof {
                let was = done;
                done = done.insert(names@[i as int]@);
                lemma_done_step(names@, i as int, was, done);
            }
            i = i + 1;
        }
        proof {
            assert(done =~= all);
            assert(before.tracks@.restrict(done) =~= before.tracks@);
        }
        let ghost middle = *tracks;
        let mut streams: Vec<StreamId> = Vec::new();
        proof {
            done = Set::empty();
        }
        let mut i: usize = 0;
        while i < names.len()
            invariant
                tracks.wf(),
                i <= names@.len(),
                forall|j: int, k: int|
                    0 <= j < k < names@.len() ==> (#[trigger] names@[j])@ != (
                    #[trigger] names@[k])@,
                forall|n: TrackName| #[trigger]
                    done.contains(n) <==> exists|j: int|
                        0 <= j < i && (#[trigger] names@[j])@ == n,
                subscriber_removed(middle, *tracks, c, streams@, done),
            decreases names@.len() - i,
        {
            remove_subscriber_from(
                tracks,
                c,
                &names[i],
                &mut streams,
                Ghost(middle),
                Ghost(done),
            );
            proof {
                let was = done;
                done = done.insert(names@[i as int]@);
                lemma_done_step(names@, i as int, was, done);
            }
            i = i + 1;
        }
        let end = ConnectionEnd { orphaned, streams };
        proof {
            assert(done =~= all);
            assert forall|n: TrackName| #[trigger] tracks.tracks@.contains_key(n) implies
                without_client(before.tracks@[n], tracks.tracks@[n], c) by {
                assert(middle.tracks@.contains_key(n));
                assert(done.contains(n));
            }
            assert forall|id: StreamId| #[trigger] end.streams@.contains(id) <==> exists|
                n: TrackName,
            | #[trigger]
                tracks.tracks@.contains_key(n) && streams_to(before.tracks@[n], c, id) by {
                if end.streams@.contains(id) {
                    let n = choose|n: TrackName| #[trigger]
                        middle.tracks@.contains_key(n) && done.contains(n) && streams_to(
                            middle.tracks@[n],
                            c,
                            id,
                        );
                    assert(tracks.tracks@.contains_key(n));
                }
                if exists|n: TrackName| #[trigger]
                    tracks.tracks@.contains_key(n) && streams_to(before.tracks@[n], c, id) {
                    let n = choose|n: TrackName| #[trigger]
                        tracks.tracks@.contains_key(n) && streams_to(before.tracks@[n], c, id);
                    assert(middle.tracks@.contains_key(n) && done.contains(n));
                }
            }
        }
        end
    }
}

proof fn lemma_done_step(
    names: Seq<FullTrackName>,
    i: int,
    was: Set<TrackName>,
    done: Set<TrackName>,
)
    requires
        0 <= i < names.len(),
        done == was.insert(names[i]@),
        forall|n: TrackName| #[trigger]
            was.contains(n) <==> exists|j: int| 0 <= j < i && (#[trigger] names[j])@ == n,
    ensures
        forall|n: TrackName| #[trigger]
            done.contains(n) <==> exists|j: int| 0 <= j < i + 1 && (#[trigger] names[j])@ == n,
{
    assert forall|n: TrackName| #[trigger] done.contains(n) <==> exists|j: int|
        0 <= j < i + 1 && (#[trigger] names[j])@ == n by {
        if was.contains(n) {
            let j = choose|j: int| 0 <= j < i && (#[trigger] names[j])@ == n;
            assert(names[j]@ == n);
        }
        if n == names[i]@ {
            assert(names[i]@ == n);
        }
    }
}

/// After a connection has ended, no track has its client as publisher or subscriber, every track
/// that lost its last publisher is gone, and the other tracks keep everyone else.
pub proof fn law_connection_end_leaves_no_trace(
    before: TrackManager,
    tracks: TrackManager,
    c: usize,
    end: ConnectionEnd,
    n: TrackName,
    other: usize,
)
    requires
        connection_ended(before, tracks, c, end),
        tracks.tracks@.contains_key(n),
        other != c,
    ensures
        !tracks.tracks@[n].publisher_aliases@.contains_key(c),
        !tracks.tracks@[n].subscriptions().contains_key(c),
        before.tracks@.contains_key(n),
        tracks.tracks@[n].publisher_aliases@.contains_key(other)
            <==> before.tracks@[n].publisher_aliases@.contains_key(other),
        tracks.tracks@[n].subscriptions().contains_key(other)
            <==> before.tracks@[n].subscriptions().contains_key(other),
        before.tracks@[n].subscriptions().contains_key(other)
            ==> tracks.tracks@[n].subscriptions()[other]
            == before.tracks@[n].subscriptions()[other],
        before.tracks@[n].publisher_aliases@.contains_key(c) ==> tracks.tracks@[n].publisher_aliases@
            != Map::<usize, u64>::empty(),
{
}

/// The value of a header is that of the first header of its name; there is none exactly where no
/// header has the name.
pub proof fn law_the_first_header_of_a_name_counts(
    headers: Seq<(String, String)>,
    name: Seq<char>,
    k: int,
)
    requires
        0 <= k <= headers.len(),
        forall|j: int| 0 <= j < k ==> (#[trigger] headers[j]).0@ != name,
        k < headers.len() ==> headers[k].0@ == name,
    ensures
        k < headers.len() ==> header_value(headers, name) == Some(headers[k].1@),
        k == headers.len() ==> header_value(headers, name) is None,
    decreases headers.len(),
{
    if k > 0 {
        let r = headers.skip(1);
        assert(headers[0].0@ != name);
        assert forall|j: int| 0 <= j < k - 1 implies (#[trigger] r[j]).0@ != name by {
            assert(r[j] == headers[j + 1]);
        }
        law_the_first_header_of_a_name_counts(r, name, k - 1);
    }
}

/// A client is served exactly where one of the pieces between the commas of its header is the
/// relay's version in quotes, with or without white space around it, and then with that version; a
/// client that says nothing is not.
pub proof fn law_the_relay_serves_its_version(
    headers: Seq<(String, String)>,
    k: int,
    pieces: Seq<Seq<char>>,
)
    requires
        0 <= k < headers.len(),
        forall|j: int|
            0 <= j < k ==> (#[trigger] headers[j]).0@ != "wt-available-protocols"@,
        headers[k].0@ == "wt-available-protocols"@,
        pieces == text::split(headers[k].1@, ','),
    ensures
        selected(headers) is Some <==> exists|i: int|
            0 <= i < pieces.len() && text::trimmed(#[trigger] pieces[i]) == seq!['"'] + "moqt-16"@
                + seq!['"'],
        selected(headers) matches Some(v) ==> v == "moqt-16"@,
{
    reveal_strlit("moqt-16");
    law_the_first_header_of_a_name_counts(headers, "wt-available-protocols"@, k);
    let versions = text::split(SUPPORTED_VERSIONS@, ',');
    lemma_one_version(versions);
    let offers = offered(headers);
    let v = quoted("moqt-16"@);
    assert(versions.skip(1).len() == 0);
    assert(first_offered(versions.skip(1), offers) is None);
    if offers.contains(v) {
        let i = choose|i: int| 0 <= i < offers.len() && offers[i] == v;
        assert(text::trimmed(pieces[i]) == v);
    }
    if exists|i: int| 0 <= i < pieces.len() && text::trimmed(#[trigger] pieces[i]) == v {
        let i = choose|i: int| 0 <= i < pieces.len() && text::trimmed(#[trigger] pieces[i]) == v;
        assert(offers[i] == v);
    }
}

proof fn lemma_one_version(versions: Seq<Seq<char>>)
    requires
        versions == text::split(SUPPORTED_VERSIONS@, ','),
    ensures
        versions == seq!["moqt-16"@],
{
    reveal_strlit("moqt-16");
    text::law_split_is_undone_by_joining(SUPPORTED_VERSIONS@, ',');
    assert(SUPPORTED_VERSIONS@ == "moqt-16"@);
    if versions.len() == 1 {
        assert(versions =~= seq!["moqt-16"@]);
    } else {
        assert(versions.len() > 1) by {
            assert(versions.len() > 0);
        }
        let joined = text::joined(versions, ',');
        assert(joined[versions[0].len() as int] == ',');
        assert(joined == "moqt-16"@);
        assert forall|i: int| 0 <= i < "moqt-16"@.len() implies "moqt-16"@[i] != ',' by {}
    }
}

/// A client whose headers do not offer versions at all is not served.
pub proof fn law_silent_clients_are_not_served(headers: Seq<(String, String)>)
    requires
        forall|j: int|
            0 <= j < headers.len() ==> (#[trigger] headers[j]).0@ != "wt-available-protocols"@,
    ensures
        selected(headers) is None,
{
    law_the_first_header_of_a_name_counts(
        headers,
        "wt-available-protocols"@,
        headers.len() as int,
    );
    law_selected_version_is_common(text::split(SUPPORTED_VERSIONS@, ','), offered(headers));
}

/// The tokens of a setup that are logged are those that it registers, with the value that it gives
/// them: one parameter gives at most one, each is decided on its own, and they keep their order. A
/// parameter that is a number is no token.
pub proof fn law_registered_tokens_keep_their_order(
    before: Seq<SetupView>,
    p: SetupView,
    behind: Seq<SetupView>,
    number: PairView,
)
    ensures
        all_registered(Seq::empty()) == Seq::<Seq<u8>>::empty(),
        p matches SetupView::AuthorizationToken { alias_type, value } ==> {
            &&& alias_type == 1 && value is Some ==> all_registered(before.push(p) + behind)
                == all_registered(before).push(value->Some_0) + all_registered(behind)
            &&& alias_type != 1 || value is None ==> all_registered(before.push(p) + behind)
                == all_registered(before) + all_registered(behind)
        },
        p is Other ==> all_registered(before.push(p) + behind) == all_registered(before)
            + all_registered(behind),
        number is VarInt ==> setup_parameter(number) is Other,
    decreases behind.len(),
{
    let all = before.push(p) + behind;
    let a = all_registered(before);
    let b = all_registered(behind);
    if behind.len() == 0 {
        assert(all =~= before.push(p));
        assert(all.drop_last() =~= before);
        assert(a + b =~= a);
        assert(all_registered(all) + b =~= all_registered(all));
    } else {
        let init = behind.drop_last();
        law_registered_tokens_keep_their_order(before, p, init, number);
        assert(all.drop_last() =~= before.push(p) + init);
        assert(all.last() == behind.last());
        let i = all_registered(init);
        if let Some(x) = registered(behind.last()) {
            assert((a + i).push(x) =~= a + i.push(x));
            if let SetupView::AuthorizationToken { value: Some(v), .. } = p {
                assert((a.push(v) + i).push(x) =~= a.push(v) + i.push(x));
            }
        }
    }
}

/// The object of a datagram stands where the datagram says, under its alias and in no subgroup.
pub proof fn law_datagram_objects_stand_where_they_say(f: DatagramFields)
    ensures
        ({
            let o = object_of_datagram(f);
            &&& o.location.group == f.group_id
            &&& o.location.object == f.object_id
            &&& o.track_alias == f.track_alias
            &&& o.subgroup_id is None
            &&& f.publisher_priority matches Some(p) ==> o.publisher_priority == p
            &&& f.publisher_priority is None ==> o.publisher_priority == 0
        }),
{
}

/// A datagram reaches the track that its publisher sends under its alias: the track's largest
/// position covers it and never falls, and nothing else of it, nor any other track, changes. Another
/// publisher's alias does not count.
pub proof fn law_datagrams_reach_the_track_of_their_alias(
    t0: TrackManager,
    connection_id: usize,
    object: Object,
    r: Option<(FullTrackName, TrackEvent)>,
    t1: TrackManager,
    other: TrackName,
)
    requires
        datagram_handled(t0, connection_id, object, r, t1),
    ensures
        ({
            let key = PublisherAlias { connection_id, track_alias: object.track_alias };
            let n = t0.track_aliases@[key]@;
            let known = t0.track_aliases@.contains_key(key) && t0.tracks@.contains_key(n);
            &&& r is Some <==> known
            &&& !known ==> t1 == t0
            &&& known ==> {
                let before = t0.tracks@[n];
                let after = t1.tracks@[n];
                &&& r matches Some((name, event)) && name@ == n && (
                event matches TrackEvent::Datagram { object: o } && o == object)
                &&& !after.largest_location.before(object.location)
                &&& !after.largest_location.before(before.largest_location)
                &&& after.largest_location == object.location || after.largest_location
                    == before.largest_location
                &&& after.relay_track_id == before.relay_track_id
                &&& after.subscriptions() == before.subscriptions()
                &&& after.status == before.status
                &&& other != n && t0.tracks@.contains_key(other) ==> t1.tracks@[other]
                    == t0.tracks@[other]
                &&& t1.tracks@.dom() == t0.tracks@.dom()
                &&& t1.track_aliases == t0.track_aliases
            }
        }),
{
    let key = PublisherAlias { connection_id, track_alias: object.track_alias };
    if t0.track_aliases@.contains_key(key) && t0.tracks@.contains_key(t0.track_aliases@[key]@) {
        assert(t1.tracks@.dom() =~= t0.tracks@.dom());
    }
}

/// The alias of a stream's track is what its header says; a fetch goes by the request that was sent
/// to the publisher.
pub proof fn law_streams_go_by_the_alias_of_their_header(client: MOQTClient, header: HeaderInfo)
    ensures
        header matches HeaderInfo::Subgroup { header: h } ==> alias_of(client, header)
            == h.track_alias,
        header matches HeaderInfo::Fetch { request_id } ==> {
            &&& client.outgoing_fetch_requests@.contains_key(request_id) ==> alias_of(client, header)
                == client.outgoing_fetch_requests@[request_id].track_alias
            &&& !client.outgoing_fetch_requests@.contains_key(request_id) ==> alias_of(
                client,
                header,
            ) == 0
        },
{
}

/// With the end of a connection a track is gone exactly where the connection was its one publisher:
/// a track with another publisher, and one that it did not publish, stays. Of a track that stays it
/// is neither publisher nor subscriber any more, and everyone else is what they were.
pub proof fn law_tracks_go_with_their_one_publisher(
    before: TrackManager,
    tracks: TrackManager,
    c: usize,
    end: ConnectionEnd,
    n: TrackName,
    d: usize,
)
    requires
        connection_ended(before, tracks, c, end),
        before.tracks@.contains_key(n),
        d != c,
    ensures
        ({
            let t0 = before.tracks@[n];
            let t = tracks.tracks@[n];
            &&& !t0.publisher_aliases@.contains_key(c) ==> tracks.tracks@.contains_key(n)
            &&& t0.publisher_aliases@.contains_key(d) ==> tracks.tracks@.contains_key(n)
            &&& t0.publisher_aliases@.contains_key(c) && (forall|e: usize|
                e != c ==> !#[trigger] t0.publisher_aliases@.contains_key(e))
                ==> !tracks.tracks@.contains_key(n) && orphaned_name(end.orphaned@, n)
            &&& tracks.tracks@.contains_key(n) ==> {
                &&& !t.publisher_aliases@.contains_key(c)
                &&& !t.subscriptions().contains_key(c)
                &&& t.publisher_aliases@.contains_key(d) <==> t0.publisher_aliases@.contains_key(d)
                &&& t.subscriptions().contains_key(d) <==> t0.subscriptions().contains_key(d)
                &&& t0.subscriptions().contains_key(d) ==> t.subscriptions()[d]
                    == t0.subscriptions()[d]
                &&& t.relay_track_id == t0.relay_track_id
                &&& t.largest_location == t0.largest_location
                &&& t.status == t0.status
                &&& !orphaned_name(end.orphaned@, n)
            }
        }),
{
    let t0 = before.tracks@[n];
    let left = t0.publisher_aliases@.remove(c);
    if t0.publisher_aliases@.contains_key(d) {
        assert(left.contains_key(d));
    }
    if forall|e: usize| e != c ==> !#[trigger] t0.publisher_aliases@.contains_key(e) {
        assert(left =~= Map::<usize, u64>::empty());
    }
    assert(tracks.tracks@.contains_key(n) || !tracks.tracks@.contains_key(n));
    assert(orphaned_name(end.orphaned@, n) || !orphaned_name(end.orphaned@, n));
}

/// The streams to close with a connection are those of its subscriptions that are not over, to
/// tracks that stay; and every track that is gone has its subscribers told so, once.
pub proof fn law_the_end_of_a_connection_closes_its_streams(
    before: TrackManager,
    tracks: TrackManager,
    c: usize,
    end: ConnectionEnd,
    n: TrackName,
    id: StreamId,
    k: int,
)
    requires
        connection_ended(before, tracks, c, end),
    ensures
        tracks.tracks@.contains_key(n) && before.tracks@[n].subscriptions().contains_key(c)
            && !before.tracks@[n].subscriptions()[c].finished
            && before.tracks@[n].subscriptions()[c].send_stream_last_object_ids@.contains_key(id)
            ==> end.streams@.contains(id),
        (forall|m: TrackName| #[trigger]
            tracks.tracks@.contains_key(m) ==> !before.tracks@[m].subscriptions().contains_key(c)
                || before.tracks@[m].subscriptions()[c].finished) ==> !end.streams@.contains(id),
        0 <= k < end.orphaned@.len() ==> {
            let o = end.orphaned@[k];
            &&& before.tracks@.contains_key(o.track.full_track_name@)
            &&& !tracks.tracks@.contains_key(o.track.full_track_name@)
            &&& o.track.subscriptions() == before.tracks@[o.track.full_track_name@].subscriptions()
            &&& o.event is PublisherDisconnected
        },
{
    if tracks.tracks@.contains_key(n) && streams_to(before.tracks@[n], c, id) {
        assert(end.streams@.contains(id));
    }
    if end.streams@.contains(id) {
        let m = choose|m: TrackName| #[trigger]
            tracks.tracks@.contains_key(m) && streams_to(before.tracks@[m], c, id);
        assert(tracks.tracks@.contains_key(m) && streams_to(before.tracks@[m], c, id));
    }
    if 0 <= k < end.orphaned@.len() {
        let name = end.orphaned@[k].track.full_track_name@;
        assert(orphaned_name(end.orphaned@, name));
        assert(!tracks.tracks@.contains_key(name));
    }
}

} // verus!
