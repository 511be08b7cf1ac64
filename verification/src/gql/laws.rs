//! What is asked of the endpoint, and what of its answers is used.

use vstd::prelude::*;

use crate::gql;
use crate::gql::{Game, GqlOperationResponse, GqlUser, IdRepr, User};
use crate::json;
use crate::json::Json;
use crate::logging;
use crate::text;

verus! {

/// A user is held as it is shown.
pub proof fn users_hold_what_they_show(user: User)
    ensures
        user@.channel_id == user.channel_id,
        user@.channel_name == user.channel_name@,
        user@.channel_display_name == user.channel_display_name@,
        user@.profile_image_url == user.profile_image_url@,
        user@.stream_id == user.stream_id,
        user.stream_title matches Some(title) ==> user@.stream_title == Some(title@),
        user.stream_title is None ==> user@.stream_title is None,
        user@.stream_start == user.stream_start,
        user.game matches Some(game) ==> user@.game == Some(game@),
        user.game is None ==> user@.game is None,
        user@.live == user.live,
{
}

/// A game is held as it is shown.
pub proof fn games_hold_what_they_show(game: Game)
    ensures
        game@.id == game.id,
        game@.name == game.name@,
        game@.display_name == game.display_name@,
{
}

/// The entry describes a user that can be used: it has an identifier, a login, a display name and
/// a picture that are not empty, and a broadcast with an identifier.
pub open spec fn usable(raw: GqlUser) -> bool {
    &&& raw.id is Some
    &&& raw.login matches Some(login) && login@.len() > 0
    &&& raw.display_name matches Some(name) && name@.len() > 0
    &&& raw.profile_image_url matches Some(url) && url@.len() > 0
    &&& raw.broadcast matches Some(broadcast) && broadcast.id is Some
}

/// An entry is used exactly if it is usable, and then as it is: it is live exactly if it has a
/// stream, an empty title is none, and a game counts only if it is complete.
pub proof fn entries_in_full(raw: GqlUser)
    ensures
        gql::user_of(raw) is Some <==> usable(raw),
        gql::user_of(raw) matches Some(user) ==> {
            let broadcast = raw.broadcast.unwrap();
            &&& raw.id == Some(user.channel_id)
            &&& raw.login.unwrap()@ == user.channel_name
            &&& raw.display_name.unwrap()@ == user.channel_display_name
            &&& raw.profile_image_url.unwrap()@ == user.profile_image_url
            &&& broadcast.id == Some(user.stream_id)
            &&& user.live <==> raw.stream is Some
            &&& broadcast.title matches Some(title) ==> (if title@.len() > 0 {
                user.stream_title == Some(title@)
            } else {
                user.stream_title is None
            })
            &&& broadcast.title is None ==> user.stream_title is None
            &&& user.stream_start matches Some(ms) ==> {
                &&& raw.stream matches Some(stream) && stream.created_at matches Some(at)
                    && logging::iso_ms(at@) matches Some(n) && ms == n as i64
            }
            &&& (raw.stream matches Some(stream) && stream.created_at matches Some(at)
                && logging::iso_ms(at@) is Some) ==> user.stream_start is Some
            &&& user.game matches Some(game) ==> {
                &&& broadcast.game matches Some(named)
                &&& named.id == Some(game.id)
                &&& named.name matches Some(name) && name@ == game.name
                &&& named.display_name matches Some(name) && name@ == game.display_name
            }
            &&& (broadcast.game matches Some(named) && named.id is Some && named.name is Some
                && named.display_name is Some) ==> user.game is Some
        },
{
}

/// An identifier is the number that it is, or the number that its text writes, and nothing else.
pub proof fn identifiers_in_full(raw: Option<IdRepr>)
    ensures
        raw is None ==> gql::id_number(raw) is None,
        raw matches Some(IdRepr::Num(n)) ==> gql::id_number(raw) == Some(n),
        raw matches Some(IdRepr::Text(s)) ==> gql::id_number(raw) == text::u64_of(s@),
        raw matches Some(IdRepr::Other) ==> gql::id_number(raw) is None,
{
}

/// A text that writes a number in decimal is read as that number.
pub proof fn written_identifiers_are_read(n: u64, s: String)
    requires
        s@ == text::decimal(n as nat),
    ensures
        gql::id_number(Some(IdRepr::Text(s))) == Some(n),
{
    text::lemma_decimal_reads_back(n);
}

/// How many of the entries are usable.
pub open spec fn usable_count(entries: Seq<Option<GqlUser>>) -> nat
    decreases entries.len(),
{
    if entries.len() == 0 {
        0
    } else {
        usable_count(entries.drop_last()) + (if entries.last() matches Some(raw) && usable(raw) {
            1nat
        } else {
            0
        })
    }
}

/// No usable entry of a response is lost, none is made up or comes twice, and they keep their
/// order: the k-th entry, if it is usable, is the user after as many others as there are usable
/// entries before it.
pub proof fn responses_in_full(entries: Seq<Option<GqlUser>>)
    ensures
        gql::users_in(entries).len() == usable_count(entries),
        forall|k: int|
            0 <= k < entries.len() && ((#[trigger] entries[k]) matches Some(raw) && usable(raw))
                ==> {
                let place = usable_count(entries.take(k)) as int;
                &&& place < gql::users_in(entries).len()
                &&& gql::user_of(entries[k].unwrap()) == Some(gql::users_in(entries)[place])
            },
    decreases entries.len(),
{
    if entries.len() > 0 {
        let before = entries.drop_last();
        responses_in_full(before);
        if let Some(raw) = entries.last() {
            entries_in_full(raw);
        }
        assert forall|k: int|
            0 <= k < entries.len() && ((#[trigger] entries[k]) matches Some(raw)
                && usable(raw)) implies ({
            let place = usable_count(entries.take(k)) as int;
            &&& place < gql::users_in(entries).len()
            &&& gql::user_of(entries[k].unwrap()) == Some(gql::users_in(entries)[place])
        }) by {
            if k < before.len() {
                assert(before[k] == entries[k]);
                assert(before.take(k) =~= entries.take(k));
                let place = usable_count(entries.take(k)) as int;
                assert(gql::users_in(entries)[place] == gql::users_in(before)[place]);
            } else {
                assert(entries.take(k) =~= before);
            }
        }
    }
}

/// The users of two lists of entries, one after the other, are those of the first and then those
/// of the second.
pub proof fn entries_add_up(a: Seq<Option<GqlUser>>, b: Seq<Option<GqlUser>>)
    ensures
        gql::users_in(a + b) == gql::users_in(a) + gql::users_in(b),
    decreases b.len(),
{
    if b.len() == 0 {
        assert(a + b =~= a);
        assert(gql::users_in(a) + gql::users_in(b) =~= gql::users_in(a));
    } else {
        let rest = b.drop_last();
        entries_add_up(a, rest);
        assert((a + b).drop_last() =~= a + rest);
        assert((a + b).last() == b.last());
        assert(gql::users_in(a + b) =~= gql::users_in(a) + gql::users_in(b));
    }
}

/// The users of two batches, one after the other, are those of the first and then those of the
/// second.
pub proof fn batches_add_up(a: Seq<GqlOperationResponse>, b: Seq<GqlOperationResponse>)
    ensures
        gql::users_of(a + b) == gql::users_of(a) + gql::users_of(b),
    decreases b.len(),
{
    if b.len() == 0 {
        assert(a + b =~= a);
        assert(gql::users_of(a) + gql::users_of(b) =~= gql::users_of(a));
    } else {
        let rest = b.drop_last();
        batches_add_up(a, rest);
        assert((a + b).drop_last() =~= a + rest);
        assert((a + b).last() == b.last());
        assert(gql::users_of(a + b) =~= gql::users_of(a) + gql::users_of(b));
    }
}

/// A batch of one response has the users of its entries, and none where it has no data.
pub proof fn single_responses(response: GqlOperationResponse)
    ensures
        response.data matches Some(data) ==> (data.users matches Some(entries) ==> gql::users_of(
            seq![response],
        ) == gql::users_in(entries@)),
        !(response.data matches Some(data) && data.users is Some) ==> gql::users_of(
            seq![response],
        ).len() == 0,
{
    let batch = seq![response];
    assert(batch.drop_last() =~= Seq::empty());
    assert(gql::users_of(batch.drop_last()) =~= seq![]);
    if let Some(data) = response.data {
        if let Some(entries) = data.users {
            assert(gql::users_of(batch) =~= gql::users_in(entries@));
        }
    }
}

/// Every usable entry of every response of a batch is among its users.
pub proof fn every_usable_entry_is_used(
    responses: Seq<GqlOperationResponse>,
    r: int,
    k: int,
)
    requires
        0 <= r < responses.len(),
        responses[r].data matches Some(data) && data.users matches Some(entries) && {
            &&& 0 <= k < entries@.len()
            &&& entries@[k] matches Some(raw) && usable(raw)
        },
    ensures
        ({
            let raw = responses[r].data.unwrap().users.unwrap()@[k].unwrap();
            &&& gql::user_of(raw) matches Some(user)
            &&& gql::users_of(responses).contains(user)
        }),
    decreases responses.len(),
{
    let before = responses.drop_last();
    let raw = responses[r].data.unwrap().users.unwrap()@[k].unwrap();
    entries_in_full(raw);
    let user = gql::user_of(raw).unwrap();
    let all = gql::users_of(responses);
    if r < before.len() {
        every_usable_entry_is_used(before, r, k);
        let i = choose|i: int|
            0 <= i < gql::users_of(before).len() && gql::users_of(before)[i] == user;
        assert(all[i] == user);
    } else {
        let entries = responses[r].data.unwrap().users.unwrap()@;
        responses_in_full(entries);
        let place = usable_count(entries.take(k)) as int;
        assert(entries[k] == Some(raw));
        assert(gql::users_in(entries)[place] == user);
        assert(all[gql::users_of(before).len() + place] == user);
    }
}

/// Chunks lie one behind the other: a chunk begins where the ones before it end.
pub proof fn chunks_follow(sizes: Seq<usize>, len: usize)
    ensures
        gql::total(Seq::<usize>::empty()) == 0,
        gql::total(sizes.push(len)) == gql::total(sizes) + len,
{
    assert(sizes.push(len).drop_last() =~= sizes);
}

/// What is asked: one operation for the identifiers, if there are any, and then one for the
/// logins, if there are any. Each names all of them, in order; an identifier is written so that it
/// is read back as itself.
pub proof fn requests_in_full(ids: Seq<u64>, logins: Seq<Seq<char>>)
    ensures
        gql::request_json(ids, logins) matches Json::Array(operations) && {
            let n: int = if ids.len() > 0 {
                1
            } else {
                0
            };
            let m: int = if logins.len() > 0 {
                1
            } else {
                0
            };
            &&& operations.len() == n + m
            &&& ids.len() > 0 ==> {
                let asked = json::member(json::member(operations[0], "variables"@), "ids"@);
                &&& json::member(operations[0], "operationName"@) == Json::Text("UsersByIds"@)
                &&& json::member(operations[0], "query"@) == Json::Text(gql::USERS_BY_IDS_QUERY@)
                &&& asked matches Json::Array(items) && items.len() == ids.len() && forall|i: int|
                    0 <= i < ids.len() ==> ((#[trigger] items[i]) matches Json::Text(s)
                        && text::u64_of(s) == Some(ids[i]))
            }
            &&& logins.len() > 0 ==> {
                let asked = json::member(json::member(operations[n], "variables"@), "logins"@);
                &&& json::member(operations[n], "operationName"@) == Json::Text("UsersByLogins"@)
                &&& json::member(operations[n], "query"@) == Json::Text(
                    gql::USERS_BY_LOGINS_QUERY@,
                )
                &&& asked matches Json::Array(items) && items.len() == logins.len() && forall|
                    i: int,
                |
                    0 <= i < logins.len() ==> #[trigger] items[i] == Json::Text(logins[i])
            }
        },
{
    reveal_strlit("query");
    reveal_strlit("variables");
    reveal_strlit("operationName");
    assert("query"@.len() == 5);
    assert("variables"@.len() == 9);
    assert("operationName"@.len() == 13);
    let operations = gql::request_json(ids, logins)->Array_0;
    if ids.len() > 0 {
        let written = Seq::new(ids.len(), |i: int| text::decimal(ids[i] as nat));
        assert(operations[0] == gql::operation(
            gql::USERS_BY_IDS_QUERY@,
            "UsersByIds"@,
            "ids"@,
            written,
        ));
        let items = json::texts_json(written)->Array_0;
        assert forall|i: int| 0 <= i < ids.len() implies ((#[trigger] items[i]) matches Json::Text(
            s,
        ) && text::u64_of(s) == Some(ids[i])) by {
            text::lemma_decimal_reads_back(ids[i]);
        }
    }
}

} // verus!
