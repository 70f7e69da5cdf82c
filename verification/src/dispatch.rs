//! The message dispatcher: routes each inbound protocol message, in
//! arrival order, to the handler it is owed — a document-store mutation, a
//! completion response, or a lifecycle transition.
//!
//! The surrounding process runs the read loop: it turns each transport
//! message into an [`Event`], calls [`Server::handle`], and performs the
//! returned [`Action`] (sending a response, or stopping the loop).  The
//! dispatcher itself is a pure state machine over the document store and
//! the lifecycle phase.

use vstd::prelude::*;

use crate::engine::{candidate_label_set, complete, complete_spec, CompletionCandidate};
use crate::store::DocumentStore;

verus! {

use vstd::string::*;

/// The dispatcher's lifecycle.  It begins serving once the initialize
/// handshake (owned by the transport layer) is done; a shutdown request
/// announces the client's intent to stop; an exit notification ends the
/// dispatch loop.
#[derive(Clone, Copy, Debug, PartialEq, Eq, Structural)]
pub enum Phase {
    Serving,
    ShuttingDown,
    Exited,
}

/// The method name of a completion request.
pub open spec fn completion_method() -> Seq<char> {
    "textDocument/completion"@
}

/// The method name of a shutdown request.
pub open spec fn shutdown_method() -> Seq<char> {
    "shutdown"@
}

/// The method name of a document-open notification.
pub open spec fn did_open_method() -> Seq<char> {
    "textDocument/didOpen"@
}

/// The method name of a document-change notification.
pub open spec fn did_change_method() -> Seq<char> {
    "textDocument/didChange"@
}

/// The method name of an exit notification.
pub open spec fn exit_method() -> Seq<char> {
    "exit"@
}

/// The closed set of request methods the dispatcher recognizes; anything
/// else is ignored without a response.
pub enum RequestKind {
    Completion,
    Shutdown,
    Unrecognized,
}

/// The closed set of notification methods the dispatcher recognizes;
/// anything else is ignored.
pub enum NotificationKind {
    DidOpen,
    DidChange,
    Exit,
    Unrecognized,
}

/// Which recognized request, if any, the method name denotes.
pub fn classify_request(method: &String) -> (k: RequestKind)
    ensures
        k is Completion <==> method@ == completion_method(),
        k is Shutdown <==> method@ == shutdown_method(),
{
    proof {
        reveal_strlit("textDocument/completion");
        reveal_strlit("shutdown");
        assert(completion_method().len() != shutdown_method().len());
    }
    if *method == String::from_str("textDocument/completion") {
        RequestKind::Completion
    } else if *method == String::from_str("shutdown") {
        RequestKind::Shutdown
    } else {
        RequestKind::Unrecognized
    }
}

/// Which recognized notification, if any, the method name denotes.
pub fn classify_notification(method: &String) -> (k: NotificationKind)
    ensures
        k is DidOpen <==> method@ == did_open_method(),
        k is DidChange <==> method@ == did_change_method(),
        k is Exit <==> method@ == exit_method(),
{
    proof {
        reveal_strlit("textDocument/didOpen");
        reveal_strlit("textDocument/didChange");
        reveal_strlit("exit");
        assert(did_open_method().len() != did_change_method().len());
        assert(did_open_method().len() != exit_method().len());
        assert(did_change_method().len() != exit_method().len());
    }
    if *method == String::from_str("textDocument/didOpen") {
        NotificationKind::DidOpen
    } else if *method == String::from_str("textDocument/didChange") {
        NotificationKind::DidChange
    } else if *method == String::from_str("exit") {
        NotificationKind::Exit
    } else {
        NotificationKind::Unrecognized
    }
}

/// One inbound protocol message, already reduced to the plain values the
/// dispatcher reads.  `I` is the request correlation id, opaque data the
/// dispatcher echoes unchanged into the matching response.
pub enum Event<I> {
    /// A completion request for the document named by `uri`.
    CompletionRequest { id: I, uri: String },
    /// A shutdown request: the client intends to stop the server.
    ShutdownRequest { id: I },
    /// A document was opened with its full text.
    DidOpen { uri: String, text: String },
    /// A document's text was replaced in full.
    DidChange { uri: String, text: String },
    /// The client asks the process to exit: the dispatch loop ends.
    Exit,
    /// Any other message: ignored, no error and no response.
    Unrecognized,
}

/// What the dispatch loop must do after one message has been handled.
pub enum Action<I> {
    /// Send a completion response carrying these candidates, correlated
    /// to the request by `id`.
    SendCompletion { id: I, items: Vec<CompletionCandidate> },
    /// Acknowledge the shutdown request correlated by `id`.
    AcknowledgeShutdown { id: I },
    /// Nothing to send; read the next message.
    Proceed,
    /// The dispatch loop is over; the process exits.
    Stop,
}

/// The dispatcher: the document store it exclusively mutates, and the
/// lifecycle phase.
pub struct Server {
    store: DocumentStore,
    phase: Phase,
}

impl Server {
    /// The documents the dispatcher has seen, as a map from identity to
    /// current full text.
    pub closed spec fn docs(&self) -> Map<Seq<char>, Seq<char>> {
        self.store@
    }

    /// The current lifecycle phase.
    pub closed spec fn phase_spec(&self) -> Phase {
        self.phase
    }

    /// The dispatcher's invariant, carried from construction through
    /// every handled message.
    pub closed spec fn wf(&self) -> bool {
        self.store.wf()
    }

    /// A fresh dispatcher: serving, with no document opened yet.
    pub fn new() -> (r: Server)
        ensures
            r.wf(),
            r.docs() == Map::<Seq<char>, Seq<char>>::empty(),
            r.phase_spec() == Phase::Serving,
    {
        Server { store: DocumentStore::new(), phase: Phase::Serving }
    }

    /// The current lifecycle phase.
    pub fn phase(&self) -> (p: Phase)
        ensures
            p == self.phase_spec(),
    {
        self.phase
    }

    /// Handles one inbound message and says what the loop must do next.
    ///
    /// Exactly one message is processed at a time, fully, before the next
    /// is read: a completion request is answered from the store's current
    /// snapshot; an open or change notification replaces the named
    /// document's text in full; a shutdown request is acknowledged; an
    /// exit notification stops the loop; anything unrecognized is ignored.
    pub fn handle<I>(&mut self, event: Event<I>) -> (action: Action<I>)
        requires
            old(self).wf(),
        ensures
            final(self).wf(),
            match event {
                Event::CompletionRequest { id, uri } => {
                    &&& final(self).docs() == old(self).docs()
                    &&& final(self).phase_spec() == old(self).phase_spec()
                    &&& action matches Action::SendCompletion { id: rid, items } && rid == id
                        && candidate_label_set(items@) == complete_spec(old(self).docs(), uri@)
                        && (forall|a: int, b: int|
                        0 <= a < b < items@.len() ==> items@[a].label@ != items@[b].label@)
                },
                Event::ShutdownRequest { id } => {
                    &&& final(self).docs() == old(self).docs()
                    &&& final(self).phase_spec() == Phase::ShuttingDown
                    &&& action matches Action::AcknowledgeShutdown { id: rid } && rid == id
                },
                Event::DidOpen { uri, text } => {
                    &&& final(self).docs() == old(self).docs().insert(uri@, text@)
                    &&& final(self).phase_spec() == old(self).phase_spec()
                    &&& action is Proceed
                },
                Event::DidChange { uri, text } => {
                    &&& final(self).docs() == old(self).docs().insert(uri@, text@)
                    &&& final(self).phase_spec() == old(self).phase_spec()
                    &&& action is Proceed
                },
                Event::Exit => {
                    &&& final(self).docs() == old(self).docs()
                    &&& final(self).phase_spec() == Phase::Exited
                    &&& action is Stop
                },
                Event::Unrecognized => {
                    &&& final(self).docs() == old(self).docs()
                    &&& final(self).phase_spec() == old(self).phase_spec()
                    &&& action is Proceed
                },
            },
    {
        match event {
            Event::CompletionRequest { id, uri } => {
                let items = complete(&uri, &self.store);
                Action::SendCompletion { id, items }
            },
            Event::ShutdownRequest { id } => {
                self.phase = Phase::ShuttingDown;
                Action::AcknowledgeShutdown { id }
            },
            Event::DidOpen { uri, text } => {
                self.store.upsert(uri, text);
                Action::Proceed
            },
            Event::DidChange { uri, text } => {
                self.store.upsert(uri, text);
                Action::Proceed
            },
            Event::Exit => {
                self.phase = Phase::Exited;
                Action::Stop
            },
            Event::Unrecognized => Action::Proceed,
        }
    }
}

} // verus!
