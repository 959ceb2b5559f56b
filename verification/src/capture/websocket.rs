//! Decisions of the browser-extension WebSocket server. Each connection is a
//! session that reads messages; the server remembers every page address that
//! some session started to index, so that a page is indexed only once.

use vstd::prelude::*;
use vstd::string::StringExecFns;

use crate::text::{has_visible_text, trimmed};

verus! {

/// A message from the browser extension, as the JSON it sends describes it.
pub struct IncomingMessage {
    pub msg_type: String,
    pub text: String,
    pub source: String,
    pub title: Option<String>,
}

/// What a connection received.
pub enum WsEvent {
    /// A text frame; `None` when it is not a message of the expected shape.
    Text(Option<IncomingMessage>),
    /// A close frame, or a read error.
    Close,
    /// Any other frame.
    Other,
}

/// What the server does in answer.
pub enum WsAction {
    /// Nothing.
    Ignore,
    /// Close this connection.
    Close,
    /// Hand the text and its source label to the indexer.
    Index { text: String, source: String },
}

/// The page address a connection is currently indexing.
pub struct WsSession {
    pub current_url: Option<String>,
}

impl WsSession {
    /// A connection that has not indexed any page yet.
    pub fn new() -> (res: Self)
        ensures
            res.current_url is None,
    {
        WsSession { current_url: None }
    }
}

/// The page addresses that some connection started to index.
pub struct SeenUrls {
    pub urls: Vec<String>,
}

impl SeenUrls {
    /// The addresses, as character sequences.
    pub open spec fn contents(&self) -> Seq<Seq<char>> {
        self.urls@.map_values(|u: String| u@)
    }

    /// No address occurs twice.
    pub open spec fn wf(&self) -> bool {
        forall|i: int, j: int|
            0 <= i < self.urls@.len() && 0 <= j < self.urls@.len() && i != j ==> #[trigger] self.urls@[i]@
                != #[trigger] self.urls@[j]@
    }

    /// No address yet.
    pub fn new() -> (res: Self)
        ensures
            res.wf(),
            res.contents() == Seq::<Seq<char>>::empty(),
    {
        SeenUrls { urls: Vec::new() }
    }

    /// Whether `url` was seen.
    pub fn contains(&self, url: &String) -> (res: bool)
        ensures
            res == self.contents().contains(url@),
    {
        let mut i: usize = 0;
        while i < self.urls.len()
            invariant
                i <= self.urls@.len(),
                forall|k: int| 0 <= k < i ==> self.urls@[k]@ != url@,
            decreases self.urls@.len() - i,
        {
            if self.urls[i] == *url {
                proof {
                    assert(self.contents()[i as int] == url@);
                }
                return true;
            }
            i += 1;
        }
        proof {
            if self.contents().contains(url@) {
                let k = choose|k: int| 0 <= k < self.contents().len() && self.contents()[k] == url@;
                assert(self.urls@[k]@ == url@);
            }
        }
        false
    }

    /// Records `url`, which was not seen.
    fn insert_new(&mut self, url: String)
        requires
            old(self).wf(),
            !old(self).contents().contains(url@),
        ensures
            final(self).wf(),
            final(self).contents() == old(self).contents().push(url@),
    {
        let ghost u = url@;
        self.urls.push(url);
        proof {
            assert forall|i: int, j: int|
                0 <= i < self.urls@.len() && 0 <= j < self.urls@.len() && i != j implies #[trigger] self.urls@[i]@
                != #[trigger] self.urls@[j]@ by {
                let n = old(self).urls@.len() as int;
                if i == n {
                    assert(old(self).contents()[j] == self.urls@[j]@);
                } else if j == n {
                    assert(old(self).contents()[i] == self.urls@[i]@);
                }
            }
            assert(self.contents() =~= old(self).contents().push(u));
        }
    }
}

/// The label of indexed page text: `browser:` and the page title, or the
/// address when there is no title.
pub open spec fn source_label(msg_title: Option<Seq<char>>, source: Seq<char>) -> Seq<char> {
    "browser:"@ + match msg_title {
        Some(t) => t,
        None => source,
    }
}

/// The page a session is indexing was recorded as seen.
pub open spec fn session_claimed(session: WsSession, seen: SeenUrls) -> bool {
    session.current_url matches Some(u) ==> seen.contents().contains(u@)
}

/// Whether a message asks to index some visible text.
pub open spec fn is_index_request(msg_type: Seq<char>, text: Seq<char>) -> bool {
    msg_type == "index"@ && trimmed(text).len() > 0
}

/// The title of a message, as characters.
pub open spec fn title_view(title: Option<String>) -> Option<Seq<char>> {
    match title {
        Some(t) => Some(t@),
        None => None,
    }
}

/// The session is indexing the page that `source` names.
pub open spec fn on_page(session: WsSession, source: Seq<char>) -> bool {
    session.current_url matches Some(u) && u@ == source
}

/// How a connection answers a message, from the session and the seen
/// addresses before it to those after it.
pub open spec fn message_handled(
    session: WsSession,
    seen: Seq<Seq<char>>,
    msg: IncomingMessage,
    new_session: WsSession,
    new_seen: Seq<Seq<char>>,
    res: WsAction,
) -> bool {
    let forwarded = res matches WsAction::Index { text, source } && text@ == msg.text@ && source@
        == source_label(title_view(msg.title), msg.source@);
    if !is_index_request(msg.msg_type@, msg.text@) {
        res is Ignore && new_session == session && new_seen == seen
    } else if on_page(session, msg.source@) {
        forwarded && new_session == session && new_seen == seen
    } else if seen.contains(msg.source@) {
        res is Close && new_session == session && new_seen == seen
    } else {
        forwarded && on_page(new_session, msg.source@) && new_seen == seen.push(msg.source@)
    }
}

/// Answers one message of a connection.
///
/// A message that does not ask to index visible text is ignored. The first
/// message of a connection for a page address claims that address: when
/// another connection claimed it before, this connection is closed; otherwise
/// the address is recorded. The text is then handed on with its source label.
pub fn handle_message(session: &mut WsSession, seen: &mut SeenUrls, msg: IncomingMessage) -> (res:
    WsAction)
    requires
        old(seen).wf(),
        session_claimed(*old(session), *old(seen)),
    ensures
        final(seen).wf(),
        session_claimed(*final(session), *final(seen)),
        message_handled(*old(session), old(seen).contents(), msg, *final(session), final(seen).contents(), res),
{
    let index_type = String::from_str("index");
    if !(msg.msg_type == index_type) || !has_visible_text(msg.text.as_str()) {
        return WsAction::Ignore;
    }
    let same_page = match &session.current_url {
        Some(u) => *u == msg.source,
        None => false,
    };
    if !same_page {
        if seen.contains(&msg.source) {
            return WsAction::Close;
        }
        seen.insert_new(msg.source.clone());
        session.current_url = Some(msg.source.clone());
        proof {
            assert(seen.contents()[seen.contents().len() - 1] == msg.source@);
        }
    }
    let mut label = String::from_str("browser:");
    match &msg.title {
        Some(t) => label.append(t.as_str()),
        None => label.append(msg.source.as_str()),
    }
    WsAction::Index { text: msg.text, source: label }
}

/// Answers one event of a connection: close and read errors end it, frames
/// that are not text or not a well-formed message are ignored, and messages
/// go to [`handle_message`].
pub fn handle_event(session: &mut WsSession, seen: &mut SeenUrls, event: WsEvent) -> (res: WsAction)
    requires
        old(seen).wf(),
        session_claimed(*old(session), *old(seen)),
    ensures
        final(seen).wf(),
        session_claimed(*final(session), *final(seen)),
        event is Close ==> res is Close && *final(session) == *old(session) && final(
            seen).contents() == old(seen).contents(),
        (event is Other || event matches WsEvent::Text(None)) ==> res is Ignore && *final(session)
            == *old(session) && final(seen).contents() == old(seen).contents(),
        event matches WsEvent::Text(Some(msg)) ==> message_handled(
            *old(session),
            old(seen).contents(),
            msg,
            *final(session),
            final(seen).contents(),
            res,
        ),
        old(seen).contents().is_prefix_of(final(seen).contents()),
{
    match event {
        WsEvent::Text(Some(msg)) => {
            let r = handle_message(session, seen, msg);
            proof {
                assert(old(seen).contents().is_prefix_of(seen.contents()));
            }
            r
        },
        WsEvent::Text(None) => WsAction::Ignore,
        WsEvent::Close => WsAction::Close,
        WsEvent::Other => WsAction::Ignore,
    }
}

/// Once some connection has claimed a page, any other connection that sends
/// text of that page is closed without indexing it, and nothing changes.
pub proof fn lemma_claimed_page_is_not_indexed_twice(
    session: WsSession,
    seen: Seq<Seq<char>>,
    msg: IncomingMessage,
    new_session: WsSession,
    new_seen: Seq<Seq<char>>,
    res: WsAction,
)
    requires
        message_handled(session, seen, msg, new_session, new_seen, res),
        seen.contains(msg.source@),
        !on_page(session, msg.source@),
    ensures
        !(res is Index),
        new_seen == seen,
        new_session == session,
{
}

/// A message that is handed on for indexing leaves its connection on that
/// message's page, whatever page the connection was on before, with the page
/// recorded as seen; the text goes on unchanged under its `browser:` label.
pub proof fn lemma_forwarded_message_moves_session(
    session: WsSession,
    seen: Seq<Seq<char>>,
    msg: IncomingMessage,
    new_session: WsSession,
    new_seen: Seq<Seq<char>>,
    res: WsAction,
)
    requires
        message_handled(session, seen, msg, new_session, new_seen, res),
        session.current_url matches Some(u) ==> seen.contains(u@),
        res is Index,
    ensures
        new_session.current_url matches Some(u) && u@ == msg.source@,
        new_seen.contains(msg.source@),
        seen.is_prefix_of(new_seen),
        msg.msg_type@ == "index"@,
        trimmed(msg.text@).len() > 0,
        res matches WsAction::Index { text, source } && text@ == msg.text@ && source@ == "browser:"@
            + match msg.title {
            Some(t) => t@,
            None => msg.source@,
        },
{
    if !on_page(session, msg.source@) {
        assert(new_seen[new_seen.len() - 1] == msg.source@);
    }
    assert(seen.is_prefix_of(new_seen)) by {
        if !on_page(session, msg.source@) {
            assert(new_seen.take(seen.len() as int) =~= seen);
        }
    }
}

/// A connection's messages for the page it is on are always handed on, and
/// messages that are not index requests with visible text never are.
pub proof fn lemma_own_page_is_forwarded(
    session: WsSession,
    seen: Seq<Seq<char>>,
    msg: IncomingMessage,
    new_session: WsSession,
    new_seen: Seq<Seq<char>>,
    res: WsAction,
)
    requires
        message_handled(session, seen, msg, new_session, new_seen, res),
    ensures
        is_index_request(msg.msg_type@, msg.text@) && on_page(session, msg.source@) ==> res is Index
            && new_seen == seen,
        !(msg.msg_type@ == "index"@ && trimmed(msg.text@).len() > 0) ==> res is Ignore,
{
}

} // verus!
