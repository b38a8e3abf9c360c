//! The session coordinator.
//!
//! One [`ChatServer`] owns the registry of sessions and is the only one to
//! change it. Events reach it one at a time, each tagged with the address of
//! the connection it concerns. For every event the server says what the
//! registry becomes and which actions the caller has to carry out: frames to
//! write to sessions, and read sides to shut.

use crate::stream::{sealed_frame, EncryptedStream};
use crate::text::{chat_line, is_command, make_chat_line, starts_with_slash, str_eq};
use std::collections::HashMap;
use vstd::prelude::*;
use vstd::std_specs::hash::*;
use vstd::std_specs::iter::IteratorSpec;
use vstd::string::*;

verus! {

/// Sent to a session as soon as it connects.
pub const PROMPT: &'static str = "Enter username: ";

/// Sent to a session that proposed a name which another session holds.
pub const NAME_TAKEN: &'static str = "Username taken!\nEnter username: ";

/// The answer to `/list`, which lists nothing.
pub const INVALID_LIST: &'static str = "Invalid command. Type /help for help.\n";

/// The answer to any command that is not known.
pub const INVALID_COMMAND: &'static str = "Invalid command! Type /help for help.\n";

/// The answer to `/help`.
pub const HELP: &'static str =
    "\n                    /quit - quit the chat\n                    /list - list usernames\n                    /help - show this help message";

/// The command that ends a session.
pub const QUIT: &'static str = "/quit";

/// The command that asks for the list of users.
pub const LIST: &'static str = "/list";

/// The command that asks for help.
pub const HELP_COMMAND: &'static str = "/help";

/// What the coordinator knows of one connection, as contracts see it.
pub struct Session {
    /// The write handle on the connection.
    pub stream: EncryptedStream,
    /// The name of the session, once it has one.
    pub username: Option<Seq<char>>,
}

/// An event on one connection, as contracts see it.
pub enum Event {
    /// The handshake is done; the handle writes to the new connection.
    Connected(EncryptedStream),
    /// The connection is gone.
    Disconnected,
    /// One frame of text arrived.
    Text(Seq<char>),
}

/// An action that the coordinator asks for, as contracts see it.
pub enum Effect {
    /// Write `frame`, which carries `text`, to the session at `to`.
    Send { to: u64, text: Seq<char>, frame: Seq<u8> },
    /// Shut the read side of the connection at `addr`.
    CloseRead { addr: u64 },
}

/// One registered connection.
#[derive(Debug)]
struct Client {
    stream: EncryptedStream,
    username: Option<String>,
}

impl View for Client {
    type V = Session;

    closed spec fn view(&self) -> Session {
        Session {
            stream: self.stream,
            username: match self.username {
                Some(name) => Some(name@),
                None => None,
            },
        }
    }
}

/// An event on one connection.
#[derive(Debug)]
pub enum Message {
    /// The handshake is done; the handle writes to the new connection.
    Connected(EncryptedStream),
    /// The connection is gone.
    Disconnected,
    /// One frame of text arrived.
    Text(String),
}

impl View for Message {
    type V = Event;

    open spec fn view(&self) -> Event {
        match self {
            Message::Connected(stream) => Event::Connected(*stream),
            Message::Disconnected => Event::Disconnected,
            Message::Text(text) => Event::Text(text@),
        }
    }
}

impl DeepView for Message {
    type V = Event;

    open spec fn deep_view(&self) -> Event {
        self@
    }
}

/// An action for the caller to carry out. A failure to carry out one action
/// is the caller's to report and has no bearing on the others.
#[derive(Debug)]
pub enum Action {
    /// Write `frame`, which carries `text`, to the session at `to`.
    Send { to: u64, text: String, frame: Vec<u8> },
    /// Shut the read side of the connection at `addr`.
    CloseRead { addr: u64 },
}

impl View for Action {
    type V = Effect;

    open spec fn view(&self) -> Effect {
        match self {
            Action::Send { to, text, frame } => Effect::Send { to: *to, text: text@, frame: frame@ },
            Action::CloseRead { addr } => Effect::CloseRead { addr: *addr },
        }
    }
}

/// The actions of a list, as contracts see them.
pub open spec fn effects_of(actions: Seq<Action>) -> Seq<Effect> {
    actions.map_values(|a: Action| a@)
}

/// Sending `text` to the session at `to`, sealed with that session's secret.
pub open spec fn reply(registry: Map<u64, Session>, to: u64, text: Seq<char>) -> Effect {
    Effect::Send { to, text, frame: sealed_frame(registry[to].stream.secret(), text) }
}

/// Whether some session, at whatever address, holds exactly this name.
pub open spec fn name_taken(registry: Map<u64, Session>, name: Seq<char>) -> bool {
    exists|k: u64| #[trigger] registry.contains_key(k) && registry[k].username == Some(name)
}

/// Whether `effects` deliver `line` to every session but the sender, once
/// each, in whatever order.
pub open spec fn is_broadcast(
    registry: Map<u64, Session>,
    sender: u64,
    line: Seq<char>,
    effects: Seq<Effect>,
) -> bool {
    &&& forall|i: int|
        0 <= i < effects.len() ==> {
            &&& (#[trigger] effects[i]) is Send
            &&& effects[i]->to != sender
            &&& registry.contains_key(effects[i]->to)
            &&& effects[i] == reply(registry, effects[i]->to, line)
        }
    &&& forall|i: int, j: int|
        0 <= i < j < effects.len() ==> (#[trigger] effects[i])->to != (#[trigger] effects[j])->to
    &&& forall|k: u64|
        #[trigger] registry.contains_key(k) && k != sender ==> exists|i: int|
            0 <= i < effects.len() && (#[trigger] effects[i])->to == k
}

/// The registry after the named session at `addr` sent `text`.
pub open spec fn after_chat(registry: Map<u64, Session>, addr: u64, text: Seq<char>) -> Map<
    u64,
    Session,
> {
    if text == QUIT@ {
        registry.insert(
            addr,
            Session { stream: registry[addr].stream.closed(), username: registry[addr].username },
        )
    } else {
        registry
    }
}

/// The actions that answer the command `text` of the session at `addr`.
pub open spec fn command_effects(registry: Map<u64, Session>, addr: u64, text: Seq<char>) -> Seq<
    Effect,
> {
    if text == QUIT@ {
        seq![Effect::CloseRead { addr }]
    } else if text == LIST@ {
        seq![reply(registry, addr, INVALID_LIST@)]
    } else if text == HELP_COMMAND@ {
        seq![reply(registry, addr, HELP@)]
    } else {
        seq![reply(registry, addr, INVALID_COMMAND@)]
    }
}

/// Whether `effects` are what `text` from the named session at `addr`
/// calls for: nothing for an empty text, the answer to a command, and for
/// anything else a broadcast of the sender's line.
pub open spec fn chat_outcome(
    registry: Map<u64, Session>,
    addr: u64,
    text: Seq<char>,
    effects: Seq<Effect>,
) -> bool {
    if text.len() == 0 {
        effects == Seq::<Effect>::empty()
    } else if is_command(text) {
        effects == command_effects(registry, addr, text)
    } else {
        is_broadcast(registry, addr, chat_line(registry[addr].username->0, text), effects)
    }
}

/// The registry after `event` on the connection at `addr`.
pub open spec fn after_event(registry: Map<u64, Session>, addr: u64, event: Event) -> Map<
    u64,
    Session,
> {
    match event {
        Event::Connected(stream) => registry.insert(addr, Session { stream, username: None }),
        Event::Disconnected => registry.remove(addr),
        Event::Text(text) => {
            if registry[addr].username is None {
                if name_taken(registry, text) {
                    registry
                } else {
                    registry.insert(
                        addr,
                        Session { stream: registry[addr].stream, username: Some(text) },
                    )
                }
            } else {
                after_chat(registry, addr, text)
            }
        },
    }
}

/// Whether `effects` are what `event` on the connection at `addr` calls for.
pub open spec fn event_outcome(
    registry: Map<u64, Session>,
    addr: u64,
    event: Event,
    effects: Seq<Effect>,
) -> bool {
    match event {
        Event::Connected(stream) => effects == seq![
            reply(after_event(registry, addr, event), addr, PROMPT@),
        ],
        Event::Disconnected => effects == Seq::<Effect>::empty(),
        Event::Text(text) => {
            if registry[addr].username is None {
                if name_taken(registry, text) {
                    effects == seq![reply(registry, addr, NAME_TAKEN@)]
                } else {
                    effects == Seq::<Effect>::empty()
                }
            } else {
                chat_outcome(registry, addr, text, effects)
            }
        },
    }
}

/// The deliveries of `line` to the sessions at `keys`, in that order, the
/// sender left out.
pub open spec fn deliveries(
    keys: Seq<u64>,
    registry: Map<u64, Session>,
    sender: u64,
    line: Seq<char>,
) -> Seq<Effect>
    decreases keys.len(),
{
    if keys.len() == 0 {
        Seq::empty()
    } else {
        let rest = deliveries(keys.drop_last(), registry, sender, line);
        if keys.last() == sender {
            rest
        } else {
            rest.push(reply(registry, keys.last(), line))
        }
    }
}

proof fn lemma_deliveries(keys: Seq<u64>, registry: Map<u64, Session>, sender: u64, line: Seq<char>)
    requires
        keys.no_duplicates(),
        forall|j: int| 0 <= j < keys.len() ==> registry.contains_key(#[trigger] keys[j]),
    ensures
        ({
            let effects = deliveries(keys, registry, sender, line);
            &&& forall|i: int|
                0 <= i < effects.len() ==> {
                    &&& (#[trigger] effects[i]) is Send
                    &&& effects[i]->to != sender
                    &&& keys.contains(effects[i]->to)
                    &&& effects[i] == reply(registry, effects[i]->to, line)
                }
            &&& forall|i: int, j: int|
                0 <= i < j < effects.len() ==> (#[trigger] effects[i])->to != (
                #[trigger] effects[j])->to
            &&& forall|k: u64|
                #[trigger] keys.contains(k) && k != sender ==> exists|i: int|
                    0 <= i < effects.len() && (#[trigger] effects[i])->to == k
        }),
    decreases keys.len(),
{
    let effects = deliveries(keys, registry, sender, line);
    if keys.len() > 0 {
        let front = keys.drop_last();
        let last = keys.last();
        let rest = deliveries(front, registry, sender, line);
        lemma_deliveries(front, registry, sender, line);
        assert forall|k: u64| front.contains(k) implies keys.contains(k) && k != last by {
            let j = choose|j: int| 0 <= j < front.len() && front[j] == k;
            assert(keys[j] == k);
        }
        assert(keys[keys.len() - 1] == last);
        assert forall|i: int| 0 <= i < effects.len() implies {
            &&& (#[trigger] effects[i]) is Send
            &&& effects[i]->to != sender
            &&& keys.contains(effects[i]->to)
            &&& effects[i] == reply(registry, effects[i]->to, line)
        } by {
            if i < rest.len() {
                assert(effects[i] == rest[i]);
                assert(front.contains(rest[i]->to));
            }
        }
        assert forall|i: int, j: int| 0 <= i < j < effects.len() implies (#[trigger] effects[i])->to
            != (#[trigger] effects[j])->to by {
            assert(effects[i] == rest[i]);
            assert(front.contains(rest[i]->to));
            if j < rest.len() {
                assert(effects[j] == rest[j]);
            }
        }
        assert forall|k: u64| #[trigger] keys.contains(k) && k != sender implies exists|i: int|
            0 <= i < effects.len() && (#[trigger] effects[i])->to == k by {
            let j = choose|j: int| 0 <= j < keys.len() && keys[j] == k;
            if j < front.len() {
                assert(front[j] == k);
                assert(front.contains(k));
                let i = choose|i: int| 0 <= i < rest.len() && (#[trigger] rest[i])->to == k;
                assert(effects[i] == rest[i]);
            } else {
                assert(effects[effects.len() - 1]->to == k);
            }
        }
    }
}

/// Deliveries along a list that names every registered address once are a
/// broadcast.
pub proof fn lemma_deliveries_are_broadcast(
    keys: Seq<u64>,
    registry: Map<u64, Session>,
    sender: u64,
    line: Seq<char>,
)
    requires
        keys.no_duplicates(),
        forall|k: u64| registry.contains_key(k) <==> keys.contains(k),
    ensures
        is_broadcast(registry, sender, line, deliveries(keys, registry, sender, line)),
{
    assert forall|j: int| 0 <= j < keys.len() implies registry.contains_key(#[trigger] keys[j]) by {
        assert(keys.contains(keys[j]));
    }
    lemma_deliveries(keys, registry, sender, line);
    let effects = deliveries(keys, registry, sender, line);
    assert forall|i: int| 0 <= i < effects.len() implies {
        &&& (#[trigger] effects[i]) is Send
        &&& effects[i]->to != sender
        &&& registry.contains_key(effects[i]->to)
        &&& effects[i] == reply(registry, effects[i]->to, line)
    } by {
        assert(keys.contains(effects[i]->to));
    }
    assert forall|k: u64| #[trigger] registry.contains_key(k) && k != sender implies exists|i: int|
        0 <= i < effects.len() && (#[trigger] effects[i])->to == k by {
        assert(keys.contains(k));
    }
}

impl Client {
    /// The action that sends `txt` to this client, registered at `to`.
    fn send(&self, to: u64, txt: &str) -> (action: Action)
        ensures
            action@ == (Effect::Send {
                to,
                text: txt@,
                frame: sealed_frame(self@.stream.secret(), txt@),
            }),
    {
        let frame = self.stream.send(txt);
        Action::Send { to, text: String::from_str(txt), frame }
    }
}

/// The registry of sessions and the rules that change it.
#[derive(Debug)]
pub struct ChatServer {
    clients: HashMap<u64, Client>,
}

impl View for ChatServer {
    type V = Map<u64, Session>;

    closed spec fn view(&self) -> Map<u64, Session> {
        self.clients@.map_values(|c: Client| c@)
    }
}

impl Default for ChatServer {
    fn default() -> (server: ChatServer)
        ensures
            server@ == Map::<u64, Session>::empty(),
    {
        ChatServer::new()
    }
}

impl ChatServer {
    /// A coordinator without sessions.
    pub fn new() -> (server: ChatServer)
        ensures
            server@ == Map::<u64, Session>::empty(),
    {
        let server = ChatServer { clients: HashMap::new() };
        assert(server@ =~= Map::<u64, Session>::empty());
        server
    }

    /// The number of registered sessions.
    pub fn session_count(&self) -> (n: usize)
        ensures
            n == self@.len(),
    {
        broadcast use group_hash_axioms;

        assert(self@.dom() =~= self.clients@.dom());
        self.clients.len()
    }

    /// Whether a session is registered at `addr`.
    pub fn is_registered(&self, addr: u64) -> (b: bool)
        ensures
            b == self@.contains_key(addr),
    {
        broadcast use group_hash_axioms;

        self.clients.contains_key(&addr)
    }

    /// The name of the session at `addr`; `None` where no session is
    /// registered there or the session has no name yet.
    pub fn username_of(&self, addr: u64) -> (name: Option<String>)
        ensures
            name.deep_view() == (if self@.contains_key(addr) {
                self@[addr].username
            } else {
                None
            }),
    {
        broadcast use group_hash_axioms;

        match self.clients.get(&addr) {
            Some(client) => match &client.username {
                Some(n) => Some(n.clone()),
                None => None,
            },
            None => None,
        }
    }

    /// Whether the read side of the session at `addr` is still open; `None`
    /// where no session is registered there.
    pub fn read_side_open(&self, addr: u64) -> (open: Option<bool>)
        ensures
            open is Some <==> self@.contains_key(addr),
            open matches Some(b) ==> b == self@[addr].stream.is_open(),
    {
        broadcast use group_hash_axioms;

        match self.clients.get(&addr) {
            Some(client) => Some(client.stream.read_side_open()),
            None => None,
        }
    }

    /// Whether some session holds exactly the name `name`.
    fn name_in_use(&self, name: &str) -> (taken: bool)
        ensures
            taken == name_taken(self@, name@),
    {
        broadcast use group_hash_axioms;

        let ghost all = spec_hash_map_iter(&self.clients).remaining();
        let mut taken = false;
        for pair in it: self.clients.iter()
            invariant
                it.seq() == all,
                all == spec_hash_map_iter(&self.clients).remaining(),
                taken <==> exists|j: int|
                    0 <= j < it.index() && (#[trigger] all[j]).1@.username == Some(name@),
        {
            let (_k, client) = pair;
            let hit = match &client.username {
                Some(n) => str_eq(n.as_str(), name),
                None => false,
            };
            if hit {
                taken = true;
            }
        }
        proof {
            if taken {
                let j = choose|j: int|
                    0 <= j < all.len() && (#[trigger] all[j]).1@.username == Some(name@);
                let k = *all[j].0;
                assert(self.clients@.contains_key(k) && self.clients@[k] == *all[j].1);
                assert(self@.contains_key(k) && self@[k].username == Some(name@));
            }
            if name_taken(self@, name@) {
                let k = choose|k: u64|
                    #[trigger] self@.contains_key(k) && self@[k].username == Some(name@);
                assert(self.clients@.contains_key(k));
                assert(all.contains((&k, &self.clients@[k])));
                let j = choose|j: int| 0 <= j < all.len() && all[j] == (&k, &self.clients@[k]);
                assert(all[j].1@.username == Some(name@));
            }
        }
        taken
    }

    /// The deliveries of `line` to every session but the one at `sender`.
    fn broadcast(&self, sender: u64, line: &str) -> (actions: Vec<Action>)
        ensures
            is_broadcast(self@, sender, line@, effects_of(actions@)),
    {
        broadcast use group_hash_axioms;

        let ghost all = spec_hash_map_iter(&self.clients).remaining();
        let ghost keys = Seq::new(all.len(), |j: int| *all[j].0);
        let mut actions: Vec<Action> = Vec::new();
        assert(effects_of(actions@) =~= deliveries(keys.take(0), self@, sender, line@));
        for pair in it: self.clients.iter()
            invariant
                it.seq() == all,
                all == spec_hash_map_iter(&self.clients).remaining(),
                keys == Seq::new(all.len(), |j: int| *all[j].0),
                effects_of(actions@) == deliveries(keys.take(it.index()), self@, sender, line@),
        {
            let (k, client) = pair;
            let ghost before = effects_of(actions@);
            proof {
                let j = it.index();
                assert(keys.take(j + 1).drop_last() =~= keys.take(j));
                assert(keys.take(j + 1).last() == *k);
                assert(self.clients@.contains_key(*all[j].0) && self.clients@[*all[j].0]
                    == *all[j].1);
                assert(self@[*k] == client@);
            }
            if *k != sender {
                let action = client.send(*k, line);
                actions.push(action);
                assert(effects_of(actions@) =~= before.push(action@));
            }
        }
        proof {
            assert(keys.take(all.len() as int) =~= keys);
            assert forall|i: int, j: int| 0 <= i < keys.len() && 0 <= j < keys.len() && i
                != j implies keys[i] != keys[j] by {
                if keys[i] == keys[j] {
                    assert(self.clients@[*all[i].0] == *all[i].1);
                    assert(self.clients@[*all[j].0] == *all[j].1);
                    assert(all[i] == all[j]);
                }
            }
            assert forall|k: u64| self@.contains_key(k) <==> keys.contains(k) by {
                if self@.contains_key(k) {
                    assert(self.clients@.contains_key(k));
                    assert(all.contains((&k, &self.clients@[k])));
                    let j = choose|j: int| 0 <= j < all.len() && all[j] == (&k, &self.clients@[k]);
                    assert(keys[j] == k);
                }
                if keys.contains(k) {
                    let j = choose|j: int| 0 <= j < keys.len() && keys[j] == k;
                    assert(self.clients@.contains_key(*all[j].0));
                }
            }
            lemma_deliveries_are_broadcast(keys, self@, sender, line@);
        }
        actions
    }

    /// Handles `msg`, sent by the session at `addr` after it got its name.
    ///
    /// An empty text does nothing. A text that begins with `/` is a command:
    /// `/quit` shuts the read side of the sender's connection, which stays
    /// registered until its disconnect arrives; `/help` is answered with the
    /// help text; every other command, `/list` too, with a refusal. Any
    /// other text goes, under the sender's name, to every other session.
    ///
    /// A text that is not empty must come from a registered session, and one
    /// that is no command from a session with a name.
    pub fn handle_chat_msg(&mut self, addr: u64, msg: &str) -> (actions: Vec<Action>)
        requires
            msg@.len() > 0 ==> old(self)@.contains_key(addr),
            msg@.len() > 0 && !is_command(msg@) ==> old(self)@[addr].username is Some,
        ensures
            final(self)@ == after_chat(old(self)@, addr, msg@),
            chat_outcome(old(self)@, addr, msg@, effects_of(actions@)),
    {
        broadcast use group_hash_axioms;

        proof {
            reveal_strlit("/quit");
        }
        let mut actions: Vec<Action> = Vec::new();
        if msg.is_empty() {
            assert(effects_of(actions@) =~= Seq::<Effect>::empty());
            return actions;
        }
        if starts_with_slash(msg) {
            if str_eq(msg, QUIT) {
                let found = self.clients.remove(&addr);
                let mut client = found.unwrap();
                client.stream.close();
                self.clients.insert(addr, client);
                actions.push(Action::CloseRead { addr });
                assert(self@ =~= after_chat(old(self)@, addr, msg@));
            } else {
                let client = self.clients.get(&addr).unwrap();
                let action = if str_eq(msg, LIST) {
                    client.send(addr, INVALID_LIST)
                } else if str_eq(msg, HELP_COMMAND) {
                    client.send(addr, HELP)
                } else {
                    client.send(addr, INVALID_COMMAND)
                };
                actions.push(action);
            }
            assert(effects_of(actions@) =~= command_effects(old(self)@, addr, msg@));
            actions
        } else {
            let line = match &self.clients.get(&addr).unwrap().username {
                Some(name) => make_chat_line(name.as_str(), msg),
                None => String::new(),
            };
            self.broadcast(addr, line.as_str())
        }
    }

    /// Handles one event on the connection at `addr`.
    ///
    /// A new connection is registered without a name and is sent the prompt.
    /// A disconnect removes the session, if there is one. The first texts of
    /// a session propose its name: a name that some session holds already is
    /// refused with a new prompt, any other becomes the session's name
    /// without an answer. Later texts are chat messages: see
    /// [`ChatServer::handle_chat_msg`].
    ///
    /// Text arrives only from registered sessions: a connection reports
    /// itself before its first text and sends none after its disconnect.
    pub fn handle_msg(&mut self, addr: u64, msg: Message) -> (actions: Vec<Action>)
        requires
            msg is Text ==> old(self)@.contains_key(addr),
        ensures
            final(self)@ == after_event(old(self)@, addr, msg@),
            event_outcome(old(self)@, addr, msg@, effects_of(actions@)),
    {
        broadcast use group_hash_axioms;

        match msg {
            Message::Connected(stream) => {
                let client = Client { stream, username: None };
                let action = client.send(addr, PROMPT);
                self.clients.insert(addr, client);
                let mut actions: Vec<Action> = Vec::new();
                actions.push(action);
                assert(self@ =~= after_event(old(self)@, addr, msg@));
                assert(effects_of(actions@) =~= seq![
                    reply(after_event(old(self)@, addr, msg@), addr, PROMPT@),
                ]);
                actions
            },
            Message::Disconnected => {
                self.clients.remove(&addr);
                let actions: Vec<Action> = Vec::new();
                assert(self@ =~= after_event(old(self)@, addr, msg@));
                assert(effects_of(actions@) =~= Seq::<Effect>::empty());
                actions
            },
            Message::Text(txt) => {
                let named = self.clients.get(&addr).unwrap().username.is_some();
                if named {
                    self.handle_chat_msg(addr, txt.as_str())
                } else {
                    let mut actions: Vec<Action> = Vec::new();
                    if self.name_in_use(txt.as_str()) {
                        let action = self.clients.get(&addr).unwrap().send(addr, NAME_TAKEN);
                        actions.push(action);
                        assert(effects_of(actions@) =~= seq![reply(old(self)@, addr, NAME_TAKEN@)]);
                    } else {
                        let found = self.clients.remove(&addr);
                        let mut client = found.unwrap();
                        client.username = Some(txt);
                        self.clients.insert(addr, client);
                        assert(self@ =~= after_event(old(self)@, addr, msg@));
                        assert(effects_of(actions@) =~= Seq::<Effect>::empty());
                    }
                    actions
                }
            },
        }
    }
}

/// No two sessions hold the same name.
pub open spec fn names_unique(registry: Map<u64, Session>) -> bool {
    forall|a: u64, b: u64|
        #![trigger registry[a], registry[b]]
        registry.contains_key(a) && registry.contains_key(b) && a != b
            && registry[a].username is Some ==> registry[a].username != registry[b].username
}

/// A name that some session holds is refused to every session without a
/// name: the proposer stays without a name, nothing else changes, and the
/// only answer is the refusal, sent to the proposer.
pub proof fn lemma_taken_name_is_refused(
    registry: Map<u64, Session>,
    holder: u64,
    proposer: u64,
    name: Seq<char>,
    effects: Seq<Effect>,
)
    requires
        registry.contains_key(holder),
        registry[holder].username == Some(name),
        registry.contains_key(proposer),
        registry[proposer].username is None,
        event_outcome(registry, proposer, Event::Text(name), effects),
    ensures
        after_event(registry, proposer, Event::Text(name)) == registry,
        effects == seq![reply(registry, proposer, NAME_TAKEN@)],
{
    assert(name_taken(registry, name));
}

/// Names stay unique whatever event arrives.
pub proof fn lemma_names_stay_unique(registry: Map<u64, Session>, addr: u64, event: Event)
    requires
        names_unique(registry),
        event is Text ==> registry.contains_key(addr),
    ensures
        names_unique(after_event(registry, addr, event)),
{
    let next = after_event(registry, addr, event);
    assert forall|a: u64, b: u64|
        #![trigger next[a], next[b]]
        next.contains_key(a) && next.contains_key(b) && a != b
            && next[a].username is Some implies next[a].username != next[b].username by {
        if next[a].username == next[b].username {
            match event {
                Event::Text(text) => {
                    if registry[addr].username is None && !name_taken(registry, text) {
                        if a == addr {
                            assert(registry.contains_key(b) && registry[b].username == Some(text));
                        } else if b == addr {
                            assert(registry.contains_key(a) && registry[a].username == Some(text));
                        } else {
                            assert(registry[a].username == registry[b].username);
                        }
                    } else {
                        assert(registry[a].username == registry[b].username);
                    }
                },
                _ => {
                    assert(registry[a].username == registry[b].username);
                },
            }
        }
    }
}

/// An empty text changes no session and reaches no other session. This
/// holds of every registered sender but one without a name while the empty
/// name is free: that sender gets the empty name.
pub proof fn lemma_empty_text_is_inert(
    registry: Map<u64, Session>,
    addr: u64,
    effects: Seq<Effect>,
)
    requires
        registry.contains_key(addr),
        registry[addr].username is Some || name_taken(registry, Seq::<char>::empty()),
        event_outcome(registry, addr, Event::Text(Seq::<char>::empty()), effects),
    ensures
        after_event(registry, addr, Event::Text(Seq::<char>::empty())) == registry,
        forall|i: int|
            0 <= i < effects.len() ==> (#[trigger] effects[i]) is Send && effects[i]->to == addr,
        registry[addr].username is Some ==> effects.len() == 0,
{
    reveal_strlit("/quit");
}

/// A chat message that is no command changes no session, is not sent back
/// to its sender, and reaches every other registered session exactly once,
/// under the sender's name.
pub proof fn lemma_broadcast_reaches_others_once(
    registry: Map<u64, Session>,
    addr: u64,
    text: Seq<char>,
    effects: Seq<Effect>,
)
    requires
        registry.contains_key(addr),
        registry[addr].username is Some,
        text.len() > 0,
        !is_command(text),
        event_outcome(registry, addr, Event::Text(text), effects),
    ensures
        after_event(registry, addr, Event::Text(text)) == registry,
        forall|i: int|
            0 <= i < effects.len() ==> (#[trigger] effects[i]) is Send && effects[i]->to != addr,
        forall|k: u64|
            #[trigger] registry.contains_key(k) && k != addr ==> exists|i: int|
                {
                    &&& 0 <= i < effects.len()
                    &&& (#[trigger] effects[i]) == reply(
                        registry,
                        k,
                        chat_line(registry[addr].username->0, text),
                    )
                    &&& forall|j: int|
                        0 <= j < effects.len() && j != i ==> (#[trigger] effects[j])->to != k
                },
{
    reveal_strlit("/quit");
    let line = chat_line(registry[addr].username->0, text);
    assert(is_broadcast(registry, addr, line, effects));
    assert forall|k: u64| #[trigger] registry.contains_key(k) && k != addr implies exists|i: int|
        {
            &&& 0 <= i < effects.len()
            &&& (#[trigger] effects[i]) == reply(registry, k, line)
            &&& forall|j: int| 0 <= j < effects.len() && j != i ==> (#[trigger] effects[j])->to != k
        } by {
        let i = choose|i: int| 0 <= i < effects.len() && (#[trigger] effects[i])->to == k;
        assert(effects[i] == reply(registry, k, line));
        assert forall|j: int| 0 <= j < effects.len() && j != i implies (#[trigger] effects[j])->to
            != k by {
            if j < i {
                assert(effects[j]->to != effects[i]->to);
            } else {
                assert(effects[i]->to != effects[j]->to);
            }
        }
    }
}

/// A command other than `/quit` changes no session and is answered to its
/// sender alone: `/help` with the help text, `/list` and every unknown
/// command with a refusal.
pub proof fn lemma_command_is_answered(
    registry: Map<u64, Session>,
    addr: u64,
    text: Seq<char>,
    effects: Seq<Effect>,
)
    requires
        registry.contains_key(addr),
        registry[addr].username is Some,
        is_command(text),
        text != QUIT@,
        event_outcome(registry, addr, Event::Text(text), effects),
    ensures
        after_event(registry, addr, Event::Text(text)) == registry,
        text == HELP_COMMAND@ ==> effects == seq![reply(registry, addr, HELP@)],
        text == LIST@ ==> effects == seq![reply(registry, addr, INVALID_LIST@)],
        text != HELP_COMMAND@ && text != LIST@ ==> effects == seq![
            reply(registry, addr, INVALID_COMMAND@),
        ],
{
    reveal_strlit("/list");
    reveal_strlit("/help");
    assert(LIST@ != HELP_COMMAND@) by {
        assert(LIST@[1] == 'l');
        assert(HELP_COMMAND@[1] == 'h');
    }
}

/// `/quit` asks for the sender's read side to be shut and for nothing
/// else. The sender stays registered under its name until its disconnect
/// arrives, which removes it; no other session is touched by either.
pub proof fn lemma_quit_ends_only_the_sender(
    registry: Map<u64, Session>,
    addr: u64,
    effects: Seq<Effect>,
)
    requires
        registry.contains_key(addr),
        registry[addr].username is Some,
        event_outcome(registry, addr, Event::Text(QUIT@), effects),
    ensures
        effects == seq![Effect::CloseRead { addr }],
        ({
            let waiting = after_event(registry, addr, Event::Text(QUIT@));
            let gone = after_event(waiting, addr, Event::Disconnected);
            &&& waiting.dom() == registry.dom()
            &&& waiting[addr].username == registry[addr].username
            &&& !waiting[addr].stream.is_open()
            &&& forall|k: u64| k != addr && registry.contains_key(k) ==> waiting[k] == registry[k]
            &&& gone == registry.remove(addr)
        }),
{
    reveal_strlit("/quit");
    let waiting = after_event(registry, addr, Event::Text(QUIT@));
    let gone = after_event(waiting, addr, Event::Disconnected);
    registry[addr].stream.lemma_closed();
    assert(waiting.dom() =~= registry.dom());
    assert(gone =~= registry.remove(addr));
}

/// Removing a session twice is removing it once.
pub proof fn lemma_disconnect_is_idempotent(registry: Map<u64, Session>, addr: u64)
    ensures
        after_event(after_event(registry, addr, Event::Disconnected), addr, Event::Disconnected)
            == after_event(registry, addr, Event::Disconnected),
        !registry.contains_key(addr) ==> after_event(registry, addr, Event::Disconnected)
            == registry,
{
    assert(registry.remove(addr).remove(addr) =~= registry.remove(addr));
    if !registry.contains_key(addr) {
        assert(registry.remove(addr) =~= registry);
    }
}

} // verus!
