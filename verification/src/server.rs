//! The relay server's routing: which clients are connected, which game each has joined, who
//! receives a message, and what a client's websocket session does with what it receives.

use vstd::prelude::*;
use std::collections::{HashMap, HashSet};

use crate::meta_net::{GameID, MetaMessage};
use crate::rng;

verus! {

broadcast use vstd::std_specs::hash::group_hash_axioms;

/// The ID the server gives a connected client
pub type ClientID = usize;

/// The routing state of the relay server; `R` is how a session is reached.
pub struct GameServer<R> {
    /// Connected sessions, by client ID
    pub sessions: HashMap<ClientID, R>,
    /// Members of each game
    pub games: HashMap<GameID, HashSet<ClientID>>,
}

/// Who is to be told of a client moving to another game.
pub struct JoinNotices {
    /// The other members of the games the client left, each once (in no particular order), to
    /// be told that it left
    pub told_left: Vec<ClientID>,
    /// The other members of the game the client joined, each once (in no particular order), to
    /// be told that it joined
    pub told_joined: Vec<ClientID>,
}

/// Whether `c` occurs in `v`.
fn has_client(v: &Vec<ClientID>, c: ClientID) -> (r: bool)
    ensures
        r == v@.contains(c),
{
    let mut i: usize = 0;
    while i < v.len()
        invariant
            i <= v@.len(),
            forall|k: int| 0 <= k < i ==> v@[k] != c,
        decreases v@.len() - i,
    {
        if v[i] == c {
            return true;
        }
        i = i + 1;
    }
    false
}

/// `rooms` with `id` taken out of every game.
pub open spec fn without_client(rooms: Map<GameID, Set<ClientID>>, id: ClientID) -> Map<GameID, Set<ClientID>> {
    Map::new(|g: GameID| rooms.dom().contains(g), |g: GameID| rooms[g].remove(id))
}

impl<R> GameServer<R> {
    /// The members of each game.
    pub open spec fn rooms(&self) -> Map<GameID, Set<ClientID>> {
        Map::new(|g: GameID| self.games@.contains_key(g), |g: GameID| self.games@[g]@)
    }

    /// The clients that a message sent to game `game` by client `skip` reaches: the other
    /// members of the game that have a session.
    pub open spec fn audience(&self, game: GameID, skip: ClientID) -> Set<ClientID> {
        if self.games@.contains_key(game) {
            self.games@[game]@.filter(|id: ClientID| id != skip && self.sessions@.contains_key(id))
        } else {
            Set::empty()
        }
    }

    /// Whether `c` shares a game with `id`.
    pub open spec fn shares_game(&self, id: ClientID, c: ClientID) -> bool {
        exists|g: GameID|
            self.rooms().dom().contains(g) && #[trigger] self.rooms()[g].contains(id) && self.rooms()[g].contains(c)
    }

    /// The clients other than `id`, with a session, that share a game with `id`.
    pub open spec fn company(&self, id: ClientID) -> Set<ClientID> {
        Set::new(|c: ClientID| c != id && self.sessions@.contains_key(c) && self.shares_game(id, c))
    }

    /// A server without sessions or games.
    pub fn new() -> (r: GameServer<R>)
        ensures
            r.sessions@ == Map::<ClientID, R>::empty(),
            r.rooms() == Map::<GameID, Set<ClientID>>::empty(),
    {
        let r = GameServer { sessions: HashMap::new(), games: HashMap::new() };
        assert(r.rooms() =~= Map::<GameID, Set<ClientID>>::empty());
        r
    }

    /// Registers a new session under a random ID, which is returned (a session already under
    /// that ID is replaced).
    pub fn connect(&mut self, addr: R) -> (id: ClientID)
        ensures
            final(self).sessions@ == old(self).sessions@.insert(id, addr),
            final(self).rooms() == old(self).rooms(),
    {
        let id = rng::random_usize();
        self.sessions.insert(id, addr);
        id
    }

    /// The IDs of the games.
    fn game_ids(&self) -> (keys: Vec<GameID>)
        ensures
            keys@.to_set() == self.games@.dom(),
    {
        let mut keys: Vec<GameID> = Vec::new();
        for k in it: self.games.keys()
            invariant
                keys@ == it.seq().subrange(0, it.index()).unref(),
                it.seq().unref().to_set() == self.games@.dom(),
                forall|g: GameID|
                    #[trigger] self.games@.dom().contains(g) && !keys@.contains(g) ==> it.index()
                        < it.seq().len(),
                forall|j: int| 0 <= j < keys@.len() ==> self.games@.dom().contains(#[trigger] keys@[j]),
        {
            keys.push(*k);
            proof {
                assert(it.seq().subrange(0, it.index() + 1).unref() =~= it.seq().subrange(
                    0,
                    it.index(),
                ).unref().push(*k));
                assert forall|g: GameID|
                    #[trigger] self.games@.dom().contains(g) && !keys@.contains(g) implies it.index()
                        + 1 < it.seq().len() by {
                    assert(it.seq().unref().to_set().contains(g));
                    let j = choose|j: int| 0 <= j < it.seq().len() && it.seq().unref()[j] == g;
                    if j <= it.index() {
                        assert(keys@[j] == g);
                    }
                }
                assert(it.seq().unref().to_set().contains(*k));
            }
        }
        proof {
            assert forall|g: GameID| self.games@.dom().contains(g) implies keys@.contains(g) by {}
            assert(keys@.to_set() =~= self.games@.dom());
        }
        keys
    }

    /// Takes the client out of every game.
    fn remove_everywhere(&mut self, id: ClientID)
        ensures
            final(self).sessions@ == old(self).sessions@,
            final(self).rooms() == without_client(old(self).rooms(), id),
    {
        let keys = self.game_ids();
        let ghost r0 = self.rooms();
        let mut i: usize = 0;
        while i < keys.len()
            invariant
                self.sessions@ == old(self).sessions@,
                r0 == old(self).rooms(),
                i <= keys@.len(),
                keys@.to_set() == r0.dom(),
                self.games@.dom() == r0.dom(),
                forall|g: GameID|
                    #[trigger] r0.dom().contains(g) ==> self.games@[g]@ == if keys@.subrange(
                        0,
                        i as int,
                    ).contains(g) {
                        r0[g].remove(id)
                    } else {
                        r0[g]
                    },
            decreases keys@.len() - i,
        {
            let k = keys[i];
            let ghost before = self.games@;
            proof {
                assert(keys@.to_set().contains(k));
            }
            match self.games.remove(&k) {
                Some(mut members) => {
                    members.remove(&id);
                    self.games.insert(k, members);
                },
                None => {},
            }
            proof {
                assert forall|g: GameID| #[trigger] r0.dom().contains(g) implies self.games@[g]@ == if keys@.subrange(
                    0,
                    i + 1,
                ).contains(g) {
                    r0[g].remove(id)
                } else {
                    r0[g]
                } by {
                    let s0 = keys@.subrange(0, i as int);
                    let s1 = keys@.subrange(0, i + 1);
                    assert(s1 =~= s0.push(k));
                    if g == k {
                        assert(s1.contains(g)) by {
                            assert(s1[i as int] == g);
                        }
                        assert(self.games@[g]@ =~= r0[g].remove(id));
                    } else {
                        if s1.contains(g) {
                            let j = choose|j: int| 0 <= j < s1.len() && s1[j] == g;
                            assert(s0[j] == g);
                        }
                        if s0.contains(g) {
                            let j = choose|j: int| 0 <= j < s0.len() && s0[j] == g;
                            assert(s1[j] == g);
                        }
                    }
                }
                assert(self.games@.dom() =~= r0.dom());
            }
            i = i + 1;
        }
        proof {
            assert(keys@.subrange(0, keys@.len() as int) =~= keys@);
            assert forall|g: GameID| #[trigger] r0.dom().contains(g) implies keys@.contains(g) by {
                assert(keys@.to_set().contains(g));
            }
            assert(self.rooms() =~= without_client(r0, id));
        }
    }
    /// Every client belongs to at most one game.
    pub open spec fn wf(&self) -> bool {
        forall|g1: GameID, g2: GameID, c: ClientID|
            #![trigger self.rooms()[g1].contains(c), self.rooms()[g2].contains(c)]
            self.rooms().dom().contains(g1) && self.rooms().dom().contains(g2)
                && self.rooms()[g1].contains(c) && self.rooms()[g2].contains(c) ==> g1 == g2
    }

    /// Drops the client's session; if it had one, the client also leaves every game.
    pub fn disconnect(&mut self, id: ClientID)
        ensures
            final(self).sessions@ == old(self).sessions@.remove(id),
            final(self).rooms() == if old(self).sessions@.contains_key(id) {
                without_client(old(self).rooms(), id)
            } else {
                old(self).rooms()
            },
            old(self).wf() ==> final(self).wf(),
    {
        // remove address
        if self.sessions.remove(&id).is_some() {
            // remove session from all games
            self.remove_everywhere(id);
        }
    }

    /// The client leaves every game.
    pub fn leave(&mut self, id: ClientID)
        ensures
            final(self).sessions@ == old(self).sessions@,
            final(self).rooms() == without_client(old(self).rooms(), id),
            old(self).wf() ==> final(self).wf(),
    {
        self.remove_everywhere(id);
    }

    /// The clients other than `id`, with a session, that share a game with `id`, each once.
    fn company_of(&self, id: ClientID) -> (r: Vec<ClientID>)
        ensures
            r@.no_duplicates(),
            r@.to_set() == self.company(id),
    {
        let keys = self.game_ids();
        let mut r: Vec<ClientID> = Vec::new();
        let mut i: usize = 0;
        while i < keys.len()
            invariant
                i <= keys@.len(),
                keys@.to_set() == self.games@.dom(),
                r@.no_duplicates(),
                forall|c: ClientID|
                    #[trigger] r@.contains(c) <==> (c != id && self.sessions@.contains_key(c) && exists|j: int|
                        0 <= j < i && self.rooms()[#[trigger] keys@[j]].contains(id) && self.rooms()[keys@[j]].contains(c)),
            decreases keys@.len() - i,
        {
            let k = keys[i];
            proof {
                assert(keys@.to_set().contains(k));
            }
            let within = match self.games.get(&k) {
                Some(members) => members.contains(&id),
                None => false,
            };
            if within {
                let aud = self.recipients(k, id);
                let mut m: usize = 0;
                while m < aud.len()
                    invariant
                        i < keys@.len(),
                        k == keys@[i as int],
                        self.games@.dom().contains(k),
                        self.rooms()[k].contains(id),
                        m <= aud@.len(),
                        aud@.to_set() == self.audience(k, id),
                        aud@.no_duplicates(),
                        r@.no_duplicates(),
                        forall|c: ClientID|
                            #[trigger] r@.contains(c) <==> (c != id && self.sessions@.contains_key(c) && ((exists|j: int|
                                0 <= j < i && self.rooms()[#[trigger] keys@[j]].contains(id) && self.rooms()[keys@[j]].contains(c))
                                || aud@.subrange(0, m as int).contains(c))),
                    decreases aud@.len() - m,
                {
                    let c = aud[m];
                    let ghost rb = r@;
                    let ghost pre = aud@.subrange(0, m as int);
                    let ghost post = aud@.subrange(0, m + 1);
                    proof {
                        assert(aud@.to_set().contains(c));
                        assert(self.audience(k, id).contains(c));
                        assert(post =~= pre.push(c));
                        assert forall|x: ClientID| #[trigger] post.contains(x) <==> (pre.contains(x) || x == c) by {
                            if post.contains(x) && x != c {
                                let j = choose|j: int| 0 <= j < post.len() && post[j] == x;
                                assert(pre[j] == x);
                            }
                            if pre.contains(x) {
                                let j = choose|j: int| 0 <= j < pre.len() && pre[j] == x;
                                assert(post[j] == x);
                            }
                            if x == c {
                                assert(post[m as int] == c);
                            }
                        }
                    }
                    if !has_client(&r, c) {
                        r.push(c);
                        proof {
                            assert forall|x: ClientID| #[trigger] r@.contains(x) <==> (rb.contains(x) || x == c) by {
                                if r@.contains(x) && x != c {
                                    let j = choose|j: int| 0 <= j < r@.len() && r@[j] == x;
                                    assert(rb[j] == x);
                                }
                                if rb.contains(x) {
                                    let j = choose|j: int| 0 <= j < rb.len() && rb[j] == x;
                                    assert(r@[j] == x);
                                }
                                if x == c {
                                    assert(r@[r@.len() - 1] == c);
                                }
                            }
                        }
                    }
                    m = m + 1;
                }
                proof {
                    assert(aud@.subrange(0, aud@.len() as int) =~= aud@);
                    assert forall|c: ClientID| #[trigger] r@.contains(c) <==> (c != id && self.sessions@.contains_key(c) && exists|j: int|
                        0 <= j < i + 1 && self.rooms()[#[trigger] keys@[j]].contains(id) && self.rooms()[keys@[j]].contains(c)) by {
                        if aud@.contains(c) {
                            assert(aud@.to_set().contains(c));
                            assert(self.rooms()[keys@[i as int]].contains(c));
                        }
                        if c != id && self.sessions@.contains_key(c) && self.rooms()[k].contains(c) {
                            assert(self.audience(k, id).contains(c));
                            assert(aud@.to_set().contains(c));
                        }
                    }
                }
            } else {
                proof {
                    assert(!self.rooms()[k].contains(id));
                    assert forall|c: ClientID| #[trigger] r@.contains(c) <==> (c != id && self.sessions@.contains_key(c) && exists|j: int|
                        0 <= j < i + 1 && self.rooms()[#[trigger] keys@[j]].contains(id) && self.rooms()[keys@[j]].contains(c)) by {
                        if c != id && self.sessions@.contains_key(c) && exists|j: int|
                            0 <= j < i + 1 && self.rooms()[#[trigger] keys@[j]].contains(id) && self.rooms()[keys@[j]].contains(c) {
                            let j = choose|j: int|
                                0 <= j < i + 1 && self.rooms()[#[trigger] keys@[j]].contains(id) && self.rooms()[keys@[j]].contains(c);
                            assert(j < i);
                        }
                    }
                }
            }
            i = i + 1;
        }
        proof {
            assert forall|c: ClientID| #[trigger] r@.to_set().contains(c) == self.company(id).contains(c) by {
                if self.shares_game(id, c) {
                    let g = choose|g: GameID|
                        self.rooms().dom().contains(g) && #[trigger] self.rooms()[g].contains(id) && self.rooms()[g].contains(c);
                    assert(keys@.to_set().contains(g));
                    let j = choose|j: int| 0 <= j < keys@.len() && keys@[j] == g;
                    assert(self.rooms()[keys@[j]].contains(id));
                }
                if r@.contains(c) {
                    let j = choose|j: int|
                        0 <= j < keys@.len() && self.rooms()[#[trigger] keys@[j]].contains(id) && self.rooms()[keys@[j]].contains(c);
                    assert(keys@.to_set().contains(keys@[j]));
                    assert(self.rooms().dom().contains(keys@[j]));
                }
            }
            assert(r@.to_set() =~= self.company(id));
        }
        r
    }

    /// The client leaves every game and joins `game_id` (which is opened if need be). The other
    /// members of the games it left are to be told that it left, and the other members of
    /// `game_id` that it joined (those with a session, in both cases); they are returned.
    pub fn join(&mut self, id: ClientID, game_id: GameID) -> (r: JoinNotices)
        ensures
            r.told_left@.no_duplicates(),
            r.told_left@.to_set() == old(self).company(id),
            r.told_joined@.no_duplicates(),
            r.told_joined@.to_set() == final(self).audience(game_id, id),
            final(self).sessions@ == old(self).sessions@,
            final(self).rooms() == ({
                let rest = without_client(old(self).rooms(), id);
                rest.insert(
                    game_id,
                    if rest.dom().contains(game_id) {
                        rest[game_id]
                    } else {
                        Set::empty()
                    }.insert(id),
                )
            }),
            old(self).wf() ==> final(self).wf(),
    {
        let told_left = self.company_of(id);
        // remove session from all games
        self.remove_everywhere(id);
        let ghost rest = self.rooms();
        let mut members = match self.games.remove(&game_id) {
            Some(members) => members,
            None => HashSet::new(),
        };
        members.insert(id);
        self.games.insert(game_id, members);
        proof {
            let expected = rest.insert(
                game_id,
                if rest.dom().contains(game_id) {
                    rest[game_id]
                } else {
                    Set::empty()
                }.insert(id),
            );
            assert(self.rooms() =~= expected);
        }
        let told_joined = self.recipients(game_id, id);
        JoinNotices { told_left, told_joined }
    }

    /// The clients a message sent to game `game` by client `skip` goes to: the other members of
    /// the game that have a session, each once (in no particular order).
    pub fn recipients(&self, game: GameID, skip: ClientID) -> (r: Vec<ClientID>)
        ensures
            r@.no_duplicates(),
            r@.to_set() == self.audience(game, skip),
    {
        let mut r: Vec<ClientID> = Vec::new();
        match self.games.get(&game) {
            Some(members) => {
                for id in it: members.iter()
                    invariant
                        it.seq().unref().to_set() == members@,
                        it.seq().no_duplicates(),
                        r@.no_duplicates(),
                        forall|c: ClientID|
                            #[trigger] r@.contains(c) <==> (it.seq().subrange(0, it.index()).unref().contains(c)
                                && c != skip && self.sessions@.contains_key(c)),
                        forall|c: ClientID|
                            #[trigger] r@.contains(c) ==> members@.contains(c) && c != skip
                                && self.sessions@.contains_key(c),
                        forall|c: ClientID|
                            #[trigger] members@.contains(c) && !it.seq().subrange(0, it.index()).unref().contains(c)
                                ==> it.index() < it.seq().len(),
                {
                    let c = *id;
                    let ghost pre = it.seq().subrange(0, it.index()).unref();
                    let ghost post = it.seq().subrange(0, it.index() + 1).unref();
                    proof {
                        assert(post =~= pre.push(c));
                        assert(!pre.contains(c)) by {
                            if pre.contains(c) {
                                let j = choose|j: int| 0 <= j < pre.len() && pre[j] == c;
                                assert(it.seq()[j] == it.seq()[it.index()]);
                            }
                        }
                    }
                    let ghost rb = r@;
                    let pushed = c != skip && self.sessions.contains_key(&c);
                    if pushed {
                        proof {
                            assert(!rb.contains(c));
                        }
                        r.push(c);
                    }
                    proof {
                        assert(pushed ==> r@ == rb.push(c));
                        assert(!pushed ==> r@ == rb);
                        assert forall|x: ClientID| #[trigger] r@.contains(x) <==> (post.contains(x)
                            && x != skip && self.sessions@.contains_key(x)) by {
                            if post.contains(x) && x != c {
                                let j = choose|j: int| 0 <= j < post.len() && post[j] == x;
                                assert(pre[j] == x);
                            }
                            if pre.contains(x) {
                                let j = choose|j: int| 0 <= j < pre.len() && pre[j] == x;
                                assert(post[j] == x);
                            }
                            if r@.contains(x) && x != c {
                                let j = choose|j: int| 0 <= j < r@.len() && r@[j] == x;
                                assert(rb[j] == x);
                            }
                            if rb.contains(x) {
                                let j = choose|j: int| 0 <= j < rb.len() && rb[j] == x;
                                assert(r@[j] == x);
                            }
                            if pushed && x == c {
                                assert(r@[r@.len() - 1] == c);
                            }
                            assert(post[post.len() - 1] == c);
                        }
                        assert(it.seq().unref().to_set().contains(c));
                        assert forall|x: ClientID| #[trigger] r@.contains(x) implies members@.contains(x)
                            && x != skip && self.sessions@.contains_key(x) by {
                            if x != c {
                                let j = choose|j: int| 0 <= j < r@.len() && r@[j] == x;
                                assert(rb[j] == x);
                                assert(rb.contains(x));
                            }
                        }
                        assert forall|x: ClientID|
                            #[trigger] members@.contains(x) && !post.contains(x) implies it.index() + 1
                                < it.seq().len() by {
                            assert(it.seq().unref().to_set().contains(x));
                            let j = choose|j: int| 0 <= j < it.seq().len() && it.seq().unref()[j] == x;
                            if j <= it.index() {
                                assert(post[j] == x);
                            }
                        }
                    }
                }
                proof {
                    assert forall|c: ClientID| #[trigger] r@.to_set().contains(c) == self.audience(game, skip).contains(c) by {
                        if members@.contains(c) && c != skip && self.sessions@.contains_key(c) {
                            assert(r@.contains(c));
                        }
                    }
                    assert(r@.to_set() =~= self.audience(game, skip));
                }
            },
            None => {
                proof {
                    assert(r@.to_set() =~= self.audience(game, skip));
                }
            },
        }
        r
    }
}

/// What a client's websocket delivered
#[derive(Debug)]
pub enum SessionEvent {
    /// The stream failed
    Error,
    /// A ping, with its payload
    Ping(Vec<u8>),
    /// A pong
    Pong,
    /// A text frame
    Text,
    /// A binary frame holding a control message
    Meta(MetaMessage),
    /// A binary frame that holds no control message
    BadFrame,
    /// The client closed the connection
    Close,
    /// A continuation frame
    Continuation,
    /// Nothing
    Nop,
}

/// A request from a session to the server
#[derive(Debug)]
pub enum ServerRequest {
    /// The client joins a game
    Join { id: ClientID, game_id: GameID },
    /// The client leaves its game
    Leave { id: ClientID },
    /// The client sends bytes to the other members of its game
    ClientMessage { id: ClientID, msg: Vec<u8>, game_id: GameID },
}

/// What a session does in response to what its websocket delivered
#[derive(Debug)]
pub enum SessionAction {
    /// Note the client alive and answer its ping with the same payload
    Pong(Vec<u8>),
    /// Note the client alive
    Heartbeat,
    /// Send a request to the server
    Request(ServerRequest),
    /// Report a frame that holds no control message
    ReportBadFrame,
    /// Close the session
    Stop,
    /// Nothing
    Nothing,
}

/// A client's websocket session: its ID on the server and the game it joined
#[derive(Debug)]
pub struct GameSession {
    /// Unique session ID
    pub id: ClientID,
    /// Joined game
    pub game: Option<GameID>,
}

impl GameSession {
    /// A session not yet registered (ID 0) that has joined no game.
    pub fn new() -> (r: GameSession)
        ensures
            r.id == 0,
            r.game is None,
    {
        GameSession { id: 0, game: None }
    }

    /// Handles what the websocket delivered. Pings are answered and pongs noted; a join or
    /// leave control message updates the joined game and is passed on to the server, and
    /// bytes for the game are passed on only when a game was joined; a failed stream, a
    /// closed connection and a continuation frame end the session; anything else is ignored
    /// (a frame without control message is reported).
    pub fn handle(&mut self, event: SessionEvent) -> (r: SessionAction)
        ensures
            final(self).id == old(self).id,
            match event {
                SessionEvent::Ping(payload) => r == SessionAction::Pong(payload)
                    && final(self).game == old(self).game,
                SessionEvent::Pong => r == SessionAction::Heartbeat && final(self).game == old(self).game,
                SessionEvent::Meta(MetaMessage::Join(game)) => final(self).game == Some(game) && r
                    == SessionAction::Request(ServerRequest::Join { id: old(self).id, game_id: game }),
                SessionEvent::Meta(MetaMessage::Leave) => final(self).game is None && r
                    == SessionAction::Request(ServerRequest::Leave { id: old(self).id }),
                SessionEvent::Meta(MetaMessage::Message(data)) => final(self).game == old(self).game
                    && r == match old(self).game {
                    Some(game) => SessionAction::Request(
                        ServerRequest::ClientMessage { id: old(self).id, msg: data, game_id: game },
                    ),
                    None => SessionAction::Nothing,
                },
                SessionEvent::BadFrame => r == SessionAction::ReportBadFrame && final(self).game
                    == old(self).game,
                SessionEvent::Error | SessionEvent::Close | SessionEvent::Continuation => r
                    == SessionAction::Stop && final(self).game == old(self).game,
                SessionEvent::Text | SessionEvent::Nop => r == SessionAction::Nothing
                    && final(self).game == old(self).game,
            },
    {
        match event {
            SessionEvent::Error => SessionAction::Stop,
            SessionEvent::Ping(payload) => SessionAction::Pong(payload),
            SessionEvent::Pong => SessionAction::Heartbeat,
            SessionEvent::Text => SessionAction::Nothing,
            SessionEvent::Meta(message) => match message {
                MetaMessage::Join(game) => {
                    self.game = Some(game);
                    SessionAction::Request(ServerRequest::Join { id: self.id, game_id: game })
                },
                MetaMessage::Leave => {
                    self.game = None;
                    SessionAction::Request(ServerRequest::Leave { id: self.id })
                },
                MetaMessage::Message(data) => match self.game {
                    Some(game) => SessionAction::Request(
                        ServerRequest::ClientMessage { id: self.id, msg: data, game_id: game },
                    ),
                    None => SessionAction::Nothing,
                },
            },
            SessionEvent::BadFrame => SessionAction::ReportBadFrame,
            SessionEvent::Close => SessionAction::Stop,
            SessionEvent::Continuation => SessionAction::Stop,
            SessionEvent::Nop => SessionAction::Nothing,
        }
    }
}

/// Whether a client has gone silent: more than `timeout_ms` milliseconds passed since its last
/// sign of life.
pub fn heartbeat_expired(since_last_ms: u64, timeout_ms: u64) -> (r: bool)
    ensures
        r == (since_last_ms > timeout_ms),
{
    since_last_ms > timeout_ms
}

/// A message is never sent back to the client that sent it.
pub proof fn lemma_no_echo<R>(server: &GameServer<R>, game: GameID, sender: ClientID)
    ensures
        !server.audience(game, sender).contains(sender),
{
}

/// Once a client left (or joined another game), messages sent to its former games no longer
/// reach it.
pub proof fn lemma_left_clients_hear_nothing<R>(
    before: &GameServer<R>,
    after: &GameServer<R>,
    id: ClientID,
    game: GameID,
    sender: ClientID,
)
    requires
        after.rooms() == without_client(before.rooms(), id),
    ensures
        !after.audience(game, sender).contains(id),
{
    if after.games@.contains_key(game) {
        assert(after.rooms().dom().contains(game));
        assert(before.rooms().dom().contains(game));
        assert(without_client(before.rooms(), id)[game] == before.rooms()[game].remove(id));
        assert(after.rooms()[game] == after.games@[game]@);
        assert(!after.games@[game]@.contains(id));
    }
}

/// A client that joined a game hears the messages the game's other members send, as long as its
/// session lasts.
pub proof fn lemma_joined_clients_hear<R>(
    before: &GameServer<R>,
    after: &GameServer<R>,
    id: ClientID,
    game: GameID,
    sender: ClientID,
)
    requires
        after.rooms() == ({
            let rest = without_client(before.rooms(), id);
            rest.insert(
                game,
                if rest.dom().contains(game) {
                    rest[game]
                } else {
                    Set::empty()
                }.insert(id),
            )
        }),
        after.sessions@.contains_key(id),
        sender != id,
    ensures
        after.audience(game, sender).contains(id),
{
    assert(after.rooms().dom().contains(game));
    assert(after.games@.contains_key(game));
    assert(after.rooms()[game] == after.games@[game]@);
    assert(after.games@[game]@.contains(id));
}

} // verus!
