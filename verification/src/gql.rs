//! Users as the GQL endpoint describes them: the request, and what a response means.

pub mod laws;

use vstd::prelude::*;

use crate::json;
use crate::json::Json;
use crate::logging;
use crate::text;

verus! {

pub const USERS_BY_IDS_QUERY: &'static str = "query UsersByIds($ids:[ID!]){users(ids:$ids){id login displayName profileImageURL(width:70) broadcastSettings{id title game{id name displayName}}stream{id createdAt}}}";

pub const USERS_BY_LOGINS_QUERY: &'static str = "query UsersByLogins($logins:[String!]){users(logins:$logins){id login displayName profileImageURL(width:70) broadcastSettings{id title game{id name displayName}}stream{id createdAt}}}";

/// A game, as a channel is set to it.
#[derive(Debug)]
pub struct Game {
    pub id: u64,
    pub name: String,
    pub display_name: String,
}

pub struct GameView {
    pub id: u64,
    pub name: Seq<char>,
    pub display_name: Seq<char>,
}

impl View for Game {
    type V = GameView;

    open spec fn view(&self) -> GameView {
        GameView { id: self.id, name: self.name@, display_name: self.display_name@ }
    }
}

/// What a game that may be missing holds.
pub open spec fn game_view(game: Option<Game>) -> Option<GameView> {
    match game {
        Some(g) => Some(g@),
        None => None,
    }
}

impl Clone for Game {
    fn clone(&self) -> (r: Game)
        ensures
            r@ == self@,
    {
        Game { id: self.id, name: self.name.clone(), display_name: self.display_name.clone() }
    }
}

/// A channel and its owner.
#[derive(Debug)]
pub struct User {
    pub channel_id: u64,
    pub channel_name: String,
    pub channel_display_name: String,
    pub profile_image_url: String,
    pub stream_id: u64,
    pub stream_title: Option<String>,
    /// Milliseconds since the Unix epoch; `None` when offline.
    pub stream_start: Option<i64>,
    pub game: Option<Game>,
    pub live: bool,
}

pub struct UserView {
    pub channel_id: u64,
    pub channel_name: Seq<char>,
    pub channel_display_name: Seq<char>,
    pub profile_image_url: Seq<char>,
    pub stream_id: u64,
    pub stream_title: Option<Seq<char>>,
    pub stream_start: Option<i64>,
    pub game: Option<GameView>,
    pub live: bool,
}

impl View for User {
    type V = UserView;

    open spec fn view(&self) -> UserView {
        UserView {
            channel_id: self.channel_id,
            channel_name: self.channel_name@,
            channel_display_name: self.channel_display_name@,
            profile_image_url: self.profile_image_url@,
            stream_id: self.stream_id,
            stream_title: text::opt(self.stream_title),
            stream_start: self.stream_start,
            game: game_view(self.game),
            live: self.live,
        }
    }
}

impl Clone for User {
    fn clone(&self) -> (r: User)
        ensures
            r@ == self@,
    {
        User {
            channel_id: self.channel_id,
            channel_name: self.channel_name.clone(),
            channel_display_name: self.channel_display_name.clone(),
            profile_image_url: self.profile_image_url.clone(),
            stream_id: self.stream_id,
            stream_title: text::copy_option(&self.stream_title),
            stream_start: self.stream_start,
            game: match &self.game {
                Some(game) => Some(game.clone()),
                None => None,
            },
            live: self.live,
        }
    }
}

/// What users hold.
pub open spec fn user_views(users: Seq<User>) -> Seq<UserView> {
    Seq::new(users.len(), |i: int| users[i]@)
}

/// What a lookup brought.
pub open spec fn lookup_view(result: Result<Vec<User>, String>) -> Result<
    Seq<UserView>,
    Seq<char>,
> {
    match result {
        Ok(users) => Ok(user_views(users@)),
        Err(error) => Err(error@),
    }
}

/// The body that asks for `ids` and `logins`: one operation for each of the two that is not
/// empty.
pub open spec fn request_json(ids: Seq<u64>, logins: Seq<Seq<char>>) -> Json {
    Json::Array(
        (if ids.len() > 0 {
            seq![
                operation(
                    USERS_BY_IDS_QUERY@,
                    "UsersByIds"@,
                    "ids"@,
                    Seq::new(ids.len(), |i: int| text::decimal(ids[i] as nat)),
                ),
            ]
        } else {
            seq![]
        }) + (if logins.len() > 0 {
            seq![operation(USERS_BY_LOGINS_QUERY@, "UsersByLogins"@, "logins"@, logins)]
        } else {
            seq![]
        }),
    )
}

/// One operation of a request, with a list of texts as its variable.
pub open spec fn operation(
    query: Seq<char>,
    name: Seq<char>,
    variable: Seq<char>,
    values: Seq<Seq<char>>,
) -> Json {
    Json::Object(
        map![
            "query"@ => Json::Text(query),
            "variables"@ => Json::Object(map![variable => json::texts_json(values)]),
            "operationName"@ => Json::Text(name),
        ],
    )
}

fn operation_value(query: &str, name: &str, variable: &str, values: &[String]) -> (r:
    serde_json::Value)
    ensures
        json::json_of(r) == operation(query@, name@, variable@, text::views(values@)),
{
    let mut variables = json::no_members();
    json::insert(&mut variables, variable, json::texts(values));
    let mut members = json::no_members();
    json::insert(&mut members, "query", json::string(query));
    json::insert(&mut members, "variables", json::object(variables));
    json::insert(&mut members, "operationName", json::string(name));
    json::object(members)
}

/// The body of the request for `ids` and `logins`.
pub fn request_body(ids: &[u64], logins: &[String]) -> (body: String)
    ensures
        body@ == json::written(request_json(ids@, text::views(logins@))),
{
    let mut operations: Vec<serde_json::Value> = Vec::new();
    let ghost mut held: Seq<Json> = seq![];
    if ids.len() > 0 {
        let mut texts: Vec<String> = Vec::new();
        for i in 0..ids.len()
            invariant
                texts@.len() == i,
                forall|k: int| 0 <= k < i ==> (#[trigger] texts@[k])@ == text::decimal(
                    ids@[k] as nat,
                ),
        {
            texts.push(text::decimal_text(ids[i]));
        }
        let value = operation_value(
            USERS_BY_IDS_QUERY,
            "UsersByIds",
            "ids",
            texts.as_slice(),
        );
        proof {
            assert(text::views(texts@) =~= Seq::new(
                ids@.len(),
                |i: int| text::decimal(ids@[i] as nat),
            ));
            held = held.push(json::json_of(value));
        }
        operations.push(value);
    }
    if logins.len() > 0 {
        let value = operation_value(USERS_BY_LOGINS_QUERY, "UsersByLogins", "logins", logins);
        proof {
            held = held.push(json::json_of(value));
        }
        operations.push(value);
    }
    let value = json::array(operations);
    proof {
        assert(json::json_of(value) == Json::Array(
            Seq::new(operations@.len(), |i: int| json::json_of(operations@[i])),
        ));
        let want = request_json(ids@, text::views(logins@))->Array_0;
        assert(Seq::new(operations@.len(), |i: int| json::json_of(operations@[i])) =~= want);
    }
    json::write(&value)
}

/// One response of a batch.
#[derive(Debug)]
pub struct GqlOperationResponse {
    pub data: Option<GqlData>,
}

#[derive(Debug)]
pub struct GqlData {
    pub users: Option<Vec<Option<GqlUser>>>,
}

/// A user as a response describes it. An identifier is missing where it is no number.
#[derive(Debug)]
pub struct GqlUser {
    pub id: Option<u64>,
    pub login: Option<String>,
    pub display_name: Option<String>,
    pub profile_image_url: Option<String>,
    pub broadcast: Option<GqlBroadcast>,
    pub stream: Option<GqlStream>,
}

#[derive(Debug)]
pub struct GqlBroadcast {
    pub id: Option<u64>,
    pub title: Option<String>,
    pub game: Option<GqlGame>,
}

#[derive(Debug)]
pub struct GqlGame {
    pub id: Option<u64>,
    pub name: Option<String>,
    pub display_name: Option<String>,
}

#[derive(Debug)]
pub struct GqlStream {
    pub created_at: Option<String>,
}

/// How an identifier arrives: mostly as text, sometimes as a number.
#[derive(Debug)]
pub enum IdRepr {
    Num(u64),
    Text(String),
    Other,
}

/// The number that an identifier means.
pub open spec fn id_number(raw: Option<IdRepr>) -> Option<u64> {
    match raw {
        Some(IdRepr::Num(id)) => Some(id),
        Some(IdRepr::Text(s)) => text::u64_of(s@),
        _ => None,
    }
}

/// Reads an identifier; one that is no number counts as missing, so that the user is left out
/// and the batch is kept.
pub fn opt_u64(raw: Option<IdRepr>) -> (id: Option<u64>)
    ensures
        id == id_number(raw),
{
    match raw {
        Some(IdRepr::Num(id)) => Some(id),
        Some(IdRepr::Text(s)) => text::parse_u64(s.as_str()),
        Some(IdRepr::Other) => None,
        None => None,
    }
}

/// A game counts only if it is complete.
pub open spec fn game_of(game: Option<GqlGame>) -> Option<GameView> {
    match game {
        Some(GqlGame { id: Some(id), name: Some(name), display_name: Some(display_name) }) => Some(
            GameView { id, name: name@, display_name: display_name@ },
        ),
        _ => None,
    }
}

/// The start of a stream, if it has a readable one.
pub open spec fn start_of(stream: Option<GqlStream>) -> Option<i64> {
    match stream {
        Some(GqlStream { created_at: Some(at) }) => match logging::iso_ms(at@) {
            Some(ms) => Some(ms as i64),
            None => None,
        },
        _ => None,
    }
}

/// The user that a response describes. It must have an identifier, a broadcast with one, and a
/// login, a display name and a picture that are not empty. It is live if it has a stream.
pub open spec fn user_of(raw: GqlUser) -> Option<UserView> {
    match (
        raw.id,
        text::nonempty(text::opt(raw.login)),
        text::nonempty(text::opt(raw.display_name)),
        text::nonempty(text::opt(raw.profile_image_url)),
        raw.broadcast,
    ) {
        (
            Some(id),
            Some(login),
            Some(display_name),
            Some(picture),
            Some(GqlBroadcast { id: Some(stream_id), title, game }),
        ) => Some(
            UserView {
                channel_id: id,
                channel_name: login,
                channel_display_name: display_name,
                profile_image_url: picture,
                stream_id,
                stream_title: text::nonempty(text::opt(title)),
                stream_start: start_of(raw.stream),
                game: game_of(game),
                live: raw.stream is Some,
            },
        ),
        _ => None,
    }
}

impl GqlGame {
    fn into_game(self) -> (game: Option<Game>)
        ensures
            game_view(game) == game_of(Some(self)),
    {
        match (self.id, self.name, self.display_name) {
            (Some(id), Some(name), Some(display_name)) => Some(Game { id, name, display_name }),
            _ => None,
        }
    }
}

impl GqlUser {
    /// The user that is described, if enough of it is.
    pub fn into_user(self) -> (user: Option<User>)
        ensures
            user_of(self) == (match user {
                Some(u) => Some(u@),
                None => None,
            }),
    {
        let stream_start: Option<i64> = match &self.stream {
            Some(stream) => match &stream.created_at {
                Some(at) => logging::parse_iso_ms(at.as_str()),
                None => None,
            },
            None => None,
        };
        assert(stream_start == start_of(self.stream));
        let live = self.stream.is_some();
        let login = text::filter_empty(self.login);
        let display_name = text::filter_empty(self.display_name);
        let picture = text::filter_empty(self.profile_image_url);
        match self.broadcast {
            Some(broadcast) => {
                match (self.id, login, display_name, picture, broadcast.id) {
                    (
                        Some(channel_id),
                        Some(channel_name),
                        Some(channel_display_name),
                        Some(profile_image_url),
                        Some(stream_id),
                    ) => {
                        let game = match broadcast.game {
                            Some(raw) => raw.into_game(),
                            None => None,
                        };
                        Some(
                            User {
                                channel_id,
                                channel_name,
                                channel_display_name,
                                profile_image_url,
                                stream_id,
                                stream_title: text::filter_empty(broadcast.title),
                                stream_start,
                                game,
                                live,
                            },
                        )
                    },
                    _ => None,
                }
            },
            None => None,
        }
    }
}

/// The users among the entries of one response, in order.
pub open spec fn users_in(raw: Seq<Option<GqlUser>>) -> Seq<UserView>
    decreases raw.len(),
{
    if raw.len() == 0 {
        seq![]
    } else {
        let before = users_in(raw.drop_last());
        match raw.last() {
            Some(user) => match user_of(user) {
                Some(view) => before.push(view),
                None => before,
            },
            None => before,
        }
    }
}

/// The users of a batch of responses, in order.
pub open spec fn users_of(responses: Seq<GqlOperationResponse>) -> Seq<UserView>
    decreases responses.len(),
{
    if responses.len() == 0 {
        seq![]
    } else {
        let before = users_of(responses.drop_last());
        match responses.last().data {
            Some(GqlData { users: Some(users) }) => before + users_in(users@),
            _ => before,
        }
    }
}

fn append_users(entries: Vec<Option<GqlUser>>, users: &mut Vec<User>)
    ensures
        user_views(final(users)@) == user_views(old(users)@) + users_in(entries@),
{
    let ghost start = user_views(users@);
    let ghost all = entries@;
    assert(all.take(0) =~= Seq::empty());
    assert(start + users_in(all.take(0)) =~= start);
    for entry in it: entries
        invariant
            it.seq() == all,
            user_views(users@) == start + users_in(all.take(it.index() as int)),
    {
        let ghost i = it.index() as int;
        let ghost before = users@;
        assert(all.take(i + 1).drop_last() =~= all.take(i));
        assert(all.take(i + 1).last() == entry);
        match entry {
            Some(raw) => {
                match raw.into_user() {
                    Some(user) => {
                        users.push(user);
                        assert(user_views(users@) =~= user_views(before).push(user@));
                        assert(user_views(users@) =~= start + users_in(all.take(i + 1)));
                    },
                    None => {},
                }
            },
            None => {},
        }
    }
    assert(all.take(all.len() as int) =~= all);
}

/// The users of a batch of responses: entries that are not usable are left out.
pub fn collect_users(responses: Vec<GqlOperationResponse>) -> (users: Vec<User>)
    ensures
        user_views(users@) == users_of(responses@),
{
    let mut users: Vec<User> = Vec::new();
    let ghost all = responses@;
    assert(all.take(0) =~= Seq::empty());
    assert(user_views(users@) =~= seq![]);
    for response in it: responses
        invariant
            it.seq() == all,
            user_views(users@) == users_of(all.take(it.index() as int)),
    {
        let ghost i = it.index() as int;
        assert(all.take(i + 1).drop_last() =~= all.take(i));
        assert(all.take(i + 1).last() == response);
        match response.data {
            Some(data) => {
                match data.users {
                    Some(entries) => {
                        append_users(entries, &mut users);
                    },
                    None => {},
                }
            },
            None => {},
        }
    }
    assert(all.take(all.len() as int) =~= all);
    users
}

/// The sizes together.
pub open spec fn total(sizes: Seq<usize>) -> nat
    decreases sizes.len(),
{
    if sizes.len() == 0 {
        0
    } else {
        total(sizes.drop_last()) + sizes.last() as nat
    }
}

/// A file that arrives in chunks. Each chunk is written behind those before it; a download that
/// fails leaves no file, since one that exists is never fetched again.
pub struct Download {
    pos: u64,
    placed: Ghost<Seq<usize>>,
}

impl View for Download {
    type V = Seq<usize>;

    closed spec fn view(&self) -> Seq<usize> {
        self.placed@
    }
}

impl Download {
    #[verifier::type_invariant]
    spec fn behind(self) -> bool {
        self.pos == total(self.placed@)
    }

    /// A download of which nothing has arrived.
    pub fn new() -> (r: Download)
        ensures
            r@.len() == 0,
    {
        Download { pos: 0, placed: Ghost(Seq::empty()) }
    }

    /// Where the next chunk is written. `None` where the file would grow past what a position can
    /// say.
    pub fn place(&mut self, len: usize) -> (r: Option<u64>)
        ensures
            match r {
                Some(pos) => {
                    &&& pos == total(old(self)@)
                    &&& total(old(self)@) + len <= u64::MAX
                    &&& final(self)@ == old(self)@.push(len)
                },
                None => total(old(self)@) + len > u64::MAX && final(self)@ == old(self)@,
            },
    {
        proof {
            use_type_invariant(&*self);
        }
        let pos: u64 = self.pos;
        let next: Option<u64> = pos.checked_add(len as u64);
        match next {
            Some(end) => {
                let ghost placed = self.placed@.push(len);
                assert(placed.drop_last() =~= self.placed@);
                *self = Download { pos: end, placed: Ghost(placed) };
                Some(pos)
            },
            None => None,
        }
    }
}

} // verus!
